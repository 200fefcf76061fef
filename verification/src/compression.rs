//! The byte sinks of the pipeline: `CountWrite`, which tracks the absolute
//! file offset, and `CompressionStream`, the block-framed staging buffer
//! every encoder appends to.  With compression kind NONE — the one kind this
//! core supports — bytes pass through unframed, exactly as staged.

use vstd::prelude::*;
use crate::encoding::{uvarint, svarint, zigzag, zigzag_encode};

verus! {

/// Appends every byte of `b` to `v`.
pub fn push_bytes(v: &mut Vec<u8>, b: &[u8])
    ensures
        final(v)@ == old(v)@ + b@,
{
    let mut i: usize = 0;
    while i < b.len()
        invariant
            i <= b.len(),
            v@ == old(v)@ + b@.take(i as int),
        decreases b.len() - i,
    {
        v.push(b[i]);
        proof {
            assert(b@.take(i + 1) =~= b@.take(i as int).push(b@[i as int]));
            assert(old(v)@ + b@.take(i + 1) =~= (old(v)@ + b@.take(i as int)).push(b@[i as int]));
        }
        i = i + 1;
    }
    proof {
        assert(b@.take(b@.len() as int) =~= b@);
    }
}

/// Byte sink that tracks the absolute offset.  Its view is the full byte
/// sequence written so far; the current position is that sequence's length.
pub struct CountWrite {
    out: Vec<u8>,
}

impl View for CountWrite {
    type V = Seq<u8>;

    closed spec fn view(&self) -> Seq<u8> {
        self.out@
    }
}

impl CountWrite {
    /// A fresh sink that has seen no bytes.
    pub fn new() -> (r: CountWrite)
        ensures
            r@ == Seq::<u8>::empty(),
    {
        CountWrite { out: Vec::new() }
    }

    /// The absolute offset: the number of bytes written so far.
    pub fn pos(&self) -> (r: u64)
        requires
            self@.len() <= u64::MAX,
        ensures
            r == self@.len(),
    {
        self.out.len() as u64
    }

    /// The number of bytes written so far, as the machine word.
    pub fn len(&self) -> (r: usize)
        ensures
            r == self@.len(),
    {
        self.out.len()
    }

    /// Appends `b` verbatim.
    pub fn write_all(&mut self, b: &[u8])
        ensures
            final(self)@ == old(self)@ + b@,
    {
        push_bytes(&mut self.out, b);
    }

    /// Appends one byte.
    pub fn write_u8(&mut self, b: u8)
        ensures
            final(self)@ == old(self)@.push(b),
    {
        self.out.push(b);
    }

    /// Hands the accumulated bytes over.
    pub fn into_bytes(self) -> (r: Vec<u8>)
        ensures
            r@ == self@,
    {
        self.out
    }
}

/// Staging buffer for one stream's encoded bytes.  Encoders append to it;
/// `finish` moves the staged bytes to the file sink.  Under compression
/// kind NONE no block header is emitted: the staged bytes pass through.
pub struct CompressionStream {
    buf: Vec<u8>,
}

impl View for CompressionStream {
    type V = Seq<u8>;

    closed spec fn view(&self) -> Seq<u8> {
        self.buf@
    }
}

impl CompressionStream {
    /// A fresh, empty stream.
    pub fn new() -> (r: CompressionStream)
        ensures
            r@ == Seq::<u8>::empty(),
    {
        CompressionStream { buf: Vec::new() }
    }

    /// Stages one byte.
    pub fn write_u8(&mut self, b: u8)
        ensures
            final(self)@ == old(self)@.push(b),
    {
        self.buf.push(b);
    }

    /// Stages a byte slice verbatim.
    pub fn write_bytes(&mut self, b: &[u8])
        ensures
            final(self)@ == old(self)@ + b@,
    {
        push_bytes(&mut self.buf, b);
    }

    /// Stages the unsigned LEB128 varint of `v`.
    pub fn write_uvarint(&mut self, v: u64)
        ensures
            final(self)@ == old(self)@ + uvarint(v as nat),
    {
        let mut x: u64 = v;
        while x >= 128
            invariant
                self@ + uvarint(x as nat) == old(self)@ + uvarint(v as nat),
            decreases x,
    {
            let b: u8 = (x % 128) as u8 + 128;
            proof {
                assert(uvarint(x as nat) =~= seq![b] + uvarint((x as nat) / 128));
                assert(self@.push(b) + uvarint((x as nat) / 128) =~= self@ + uvarint(x as nat));
            }
            self.buf.push(b);
            x = x / 128;
        }
        proof {
            assert(uvarint(x as nat) =~= seq![x as u8]);
            assert(self@.push(x as u8) =~= self@ + uvarint(x as nat));
        }
        self.buf.push(x as u8);
    }

    /// Stages the signed (ZigZag) varint of `v`.
    pub fn write_svarint(&mut self, v: i64)
        ensures
            final(self)@ == old(self)@ + svarint(v as int),
    {
        let z: u64 = zigzag_encode(v);
        self.write_uvarint(z);
    }

    /// Bytes staged and not yet moved to the sink; the encoders' size
    /// estimates are built from this.
    pub fn buffered_len(&self) -> (r: usize)
        ensures
            r == self@.len(),
    {
        self.buf.len()
    }

    /// Hands the staged bytes over.
    pub fn into_bytes(self) -> (r: Vec<u8>)
        ensures
            r@ == self@,
    {
        self.buf
    }

    /// Moves every staged byte to the sink and leaves the stream empty.
    pub fn finish(&mut self, out: &mut CountWrite)
        ensures
            final(out)@ == old(out)@ + old(self)@,
            final(self)@ == Seq::<u8>::empty(),
    {
        out.write_all(self.buf.as_slice());
        self.buf.clear();
    }
}

} // verus!
