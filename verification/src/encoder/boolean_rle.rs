//! Boolean run-length encoding: bits are packed MSB-first into bytes and
//! the bytes run through the byte run-length encoder.  `finish` pads the
//! final partial byte with zero bits.  Used for PRESENT streams and for the
//! boolean DATA stream.

use vstd::prelude::*;
use crate::compression::CountWrite;
use crate::encoder::byte_rle::{byte_rle_encode, sat_add, ByteRLE};
use crate::encoding::{bit_weight, bits_byte, bits_bytes, lemma_bits_byte_bound, lemma_bits_bytes_append};

verus! {

/// The complete boolean RLE encoding of a bit sequence: MSB-first packing,
/// zero padding of the last byte, then byte RLE.
pub open spec fn boolean_rle_encode(bits: Seq<bool>) -> Seq<u8> {
    byte_rle_encode(bits_bytes(bits))
}

/// Boolean run-length encoder.
pub struct BooleanRLE {
    byte_rle: ByteRLE,
    cur: u8,
    nbits: u8,
    vals: Ghost<Seq<bool>>,
}

impl BooleanRLE {
    /// The sequence of bits written so far.
    pub closed spec fn view(&self) -> Seq<bool> {
        self.vals@
    }

    /// The number of bits of the trailing partial byte.
    pub closed spec fn partial(&self) -> Seq<bool> {
        self.vals@.skip(self.vals@.len() - self.nbits)
    }

    /// The byte encoder has seen exactly the whole bytes; the partial byte
    /// accumulator holds the remaining bits, already packed.
    pub closed spec fn wf(&self) -> bool {
        &&& self.byte_rle.wf()
        &&& self.nbits == self.vals@.len() % 8
        &&& self.byte_rle@ == bits_bytes(self.vals@.take(self.vals@.len() - self.nbits))
        &&& self.cur == bits_byte(self.partial())
    }

    /// A fresh encoder with no bits written.
    pub fn new() -> (r: BooleanRLE)
        ensures
            r.wf(),
            r@ == Seq::<bool>::empty(),
            r.est() == 0,
    {
        let r = BooleanRLE { byte_rle: ByteRLE::new(), cur: 0, nbits: 0, vals: Ghost(Seq::empty()) };
        proof {
            assert(r.vals@.take(0) =~= Seq::<bool>::empty());
            assert(r.vals@.skip(0) =~= Seq::<bool>::empty());
            assert(bits_bytes(Seq::<bool>::empty()) =~= Seq::<u8>::empty());
        }
        r
    }

    /// Appends one bit.
    pub fn write(&mut self, b: bool)
        requires
            old(self).wf(),
        ensures
            final(self).wf(),
            final(self)@ == old(self)@.push(b),
    {
        let ghost vals0 = self.vals@;
        let ghost part0 = self.partial();
        proof {
            lemma_bits_byte_bound(part0);
        }
        let w: u8 = bit_weight_exec(self.nbits);
        if b {
            self.cur = self.cur + w;
        }
        self.nbits = self.nbits + 1;
        self.vals = Ghost(self.vals@.push(b));
        proof {
            assert(part0.push(b).drop_last() =~= part0);
            assert(self.vals@.skip(self.vals@.len() - self.nbits) =~= part0.push(b));
            assert(self.vals@.take(self.vals@.len() - self.nbits) =~= vals0.take(
                vals0.len() - old(self).nbits,
            ));
        }
        if self.nbits == 8 {
            let full: u8 = self.cur;
            proof {
                assert(self.vals@.take(self.vals@.len() - 8) =~= vals0.take(
                    vals0.len() - old(self).nbits,
                ));
                lemma_bits_bytes_append(
                    self.vals@.take(self.vals@.len() - 8),
                    self.vals@.skip(self.vals@.len() - 8),
                );
                assert(self.vals@.take(self.vals@.len() - 8) + self.vals@.skip(
                    self.vals@.len() - 8,
                ) =~= self.vals@);
                assert(self.vals@.take(self.vals@.len() as int) =~= self.vals@);
            }
            self.byte_rle.write(full);
            self.cur = 0;
            self.nbits = 0;
            proof {
                assert(self.vals@.skip(self.vals@.len() as int) =~= Seq::<bool>::empty());
                assert(self.byte_rle@ =~= bits_bytes(self.vals@.take(self.vals@.len() as int)));
            }
        }
    }

    /// Pads the final partial byte with zero bits, flushes, and moves the
    /// complete boolean RLE encoding of the written bits to the sink.
    pub fn finish(&mut self, out: &mut CountWrite)
        requires
            old(self).wf(),
        ensures
            final(self).wf(),
            final(self)@ == Seq::<bool>::empty(),
            final(self).est() == 0,
            final(out)@ == old(out)@ + boolean_rle_encode(old(self)@),
    {
        let ghost vals0 = self.vals@;
        if self.nbits > 0 {
            proof {
                lemma_bits_bytes_append(
                    vals0.take(vals0.len() - self.nbits),
                    vals0.skip(vals0.len() - self.nbits),
                );
                assert(vals0.take(vals0.len() - self.nbits) + vals0.skip(
                    vals0.len() - self.nbits,
                ) =~= vals0);
            }
            self.byte_rle.write(self.cur);
            proof {
                assert(self.byte_rle@ =~= bits_bytes(vals0));
            }
        } else {
            proof {
                assert(vals0.take(vals0.len() as int) =~= vals0);
            }
        }
        self.byte_rle.finish(out);
        self.cur = 0;
        self.nbits = 0;
        self.vals = Ghost(Seq::empty());
        proof {
            assert(self.vals@.take(0) =~= Seq::<bool>::empty());
            assert(self.vals@.skip(0) =~= Seq::<bool>::empty());
            assert(bits_bytes(Seq::<bool>::empty()) =~= Seq::<u8>::empty());
        }
    }

    /// Size estimate: the byte encoder's, counting a started partial byte.
    pub closed spec fn est(&self) -> nat {
        sat_add(
            self.byte_rle.est(),
            if self.nbits > 0 {
                1nat
            } else {
                0nat
            },
        )
    }

    /// Staged bytes plus buffered state, counting a started partial byte.
    pub fn estimated_size(&self) -> (r: usize)
        ensures
            r as nat == self.est(),
    {
        let base: usize = self.byte_rle.estimated_size();
        let part: usize = if self.nbits > 0 {
            1
        } else {
            0
        };
        base.saturating_add(part)
    }
}

/// Exec form of `bit_weight`.
pub fn bit_weight_exec(i: u8) -> (r: u8)
    requires
        i < 8,
    ensures
        r == bit_weight(i as int),
{
    if i == 0 {
        128
    } else if i == 1 {
        64
    } else if i == 2 {
        32
    } else if i == 3 {
        16
    } else if i == 4 {
        8
    } else if i == 5 {
        4
    } else if i == 6 {
        2
    } else {
        1
    }
}

} // verus!
