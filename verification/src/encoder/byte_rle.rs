//! ORC v1 byte run-length encoding.  The output alternates control bytes and
//! payload: a control byte in [0, 127] means the next byte repeats control+3
//! times; a control byte in [128, 255] (a negative signed byte) means the
//! next 256-control bytes are literals.  The encoder buffers up to 128
//! literal bytes and switches to a run when the last three bytes are equal;
//! a run extends to at most 130 repeats.

use vstd::prelude::*;
use crate::compression::{CompressionStream, CountWrite};

verus! {

/// Encoder state, viewed abstractly: bytes already emitted, the buffered
/// literals with the length of their equal tail, and the open run if any.
#[verifier::ext_equal]
pub ghost struct ByteRleState {
    pub out: Seq<u8>,
    pub lits: Seq<u8>,
    pub tail: nat,
    pub run_val: u8,
    pub run_len: nat,
}

/// The state of a fresh encoder.
pub open spec fn byte_rle_init() -> ByteRleState {
    ByteRleState { out: seq![], lits: seq![], tail: 0, run_val: 0, run_len: 0 }
}

/// The emitted form of a run: control byte len-3, then the repeated byte.
pub open spec fn byte_run_bytes(val: u8, len: nat) -> Seq<u8> {
    seq![(len - 3) as u8, val]
}

/// The emitted form of a literal group: control byte 256-len (the negative
/// count as an unsigned byte), then the literals.
pub open spec fn byte_lit_bytes(l: Seq<u8>) -> Seq<u8> {
    seq![(256 - l.len()) as u8] + l
}

/// One step of the encoder on the next input byte.
pub open spec fn byte_rle_step(st: ByteRleState, v: u8) -> ByteRleState {
    if st.run_len > 0 {
        if v == st.run_val && st.run_len < 130 {
            ByteRleState { run_len: (st.run_len + 1) as nat, ..st }
        } else {
            ByteRleState {
                out: st.out + byte_run_bytes(st.run_val, st.run_len),
                lits: seq![v],
                tail: 1,
                run_val: 0,
                run_len: 0,
            }
        }
    } else if st.lits.len() == 0 {
        ByteRleState { lits: seq![v], tail: 1, ..st }
    } else if v == st.lits.last() && st.tail == 2 {
        let keep = st.lits.take(st.lits.len() - 2);
        ByteRleState {
            out: st.out + if keep.len() > 0 {
                byte_lit_bytes(keep)
            } else {
                seq![]
            },
            lits: seq![],
            tail: 0,
            run_val: v,
            run_len: 3,
        }
    } else {
        let lits2 = st.lits.push(v);
        let tail2: nat = if v == st.lits.last() {
            (st.tail + 1) as nat
        } else {
            1
        };
        if lits2.len() == 128 {
            ByteRleState {
                out: st.out + byte_lit_bytes(lits2),
                lits: seq![],
                tail: 0,
                run_val: st.run_val,
                run_len: 0,
            }
        } else {
            ByteRleState { lits: lits2, tail: tail2, ..st }
        }
    }
}

/// The encoder state after a sequence of input bytes.
pub open spec fn byte_rle_fold(s: Seq<u8>) -> ByteRleState
    decreases s.len(),
{
    if s.len() == 0 {
        byte_rle_init()
    } else {
        byte_rle_step(byte_rle_fold(s.drop_last()), s.last())
    }
}

/// What flushing the buffered state adds to the output.
pub open spec fn byte_rle_residue(st: ByteRleState) -> Seq<u8> {
    if st.run_len > 0 {
        byte_run_bytes(st.run_val, st.run_len)
    } else if st.lits.len() > 0 {
        byte_lit_bytes(st.lits)
    } else {
        seq![]
    }
}

/// The complete byte run-length encoding of an input sequence.
pub open spec fn byte_rle_encode(s: Seq<u8>) -> Seq<u8> {
    byte_rle_fold(s).out + byte_rle_residue(byte_rle_fold(s))
}

/// Bounds every reachable encoder state obeys.
pub open spec fn byte_rle_bounds(st: ByteRleState) -> bool {
    &&& st.lits.len() <= 127
    &&& st.run_len <= 130
    &&& (st.run_len > 0 ==> st.run_len >= 3 && st.lits.len() == 0 && st.tail == 0)
    &&& (st.lits.len() == 0 ==> st.tail == 0)
    &&& (st.lits.len() > 0 ==> 1 <= st.tail && st.tail <= 2 && st.tail <= st.lits.len())
}

/// A step preserves the state bounds.
pub proof fn lemma_byte_rle_step_bounds(st: ByteRleState, v: u8)
    requires
        byte_rle_bounds(st),
    ensures
        byte_rle_bounds(byte_rle_step(st, v)),
{
}

/// Every state the fold reaches obeys the bounds.
pub proof fn lemma_byte_rle_fold_bounds(s: Seq<u8>)
    ensures
        byte_rle_bounds(byte_rle_fold(s)),
    decreases s.len(),
{
    if s.len() > 0 {
        lemma_byte_rle_fold_bounds(s.drop_last());
        lemma_byte_rle_step_bounds(byte_rle_fold(s.drop_last()), s.last());
    }
}

/// ORC v1 byte run-length encoder.
pub struct ByteRLE {
    sink: CompressionStream,
    lits: Vec<u8>,
    tail: u8,
    run_val: u8,
    run_len: u8,
    vals: Ghost<Seq<u8>>,
}

impl ByteRLE {
    /// The abstract state the concrete fields stand for.
    pub closed spec fn abs(&self) -> ByteRleState {
        ByteRleState {
            out: self.sink@,
            lits: self.lits@,
            tail: self.tail as nat,
            run_val: self.run_val,
            run_len: self.run_len as nat,
        }
    }

    /// The sequence of bytes written to this encoder so far.
    pub closed spec fn view(&self) -> Seq<u8> {
        self.vals@
    }

    /// The concrete state is exactly the fold of the written bytes.
    pub closed spec fn wf(&self) -> bool {
        self.abs() == byte_rle_fold(self.vals@)
    }

    /// A fresh encoder with nothing written.
    pub fn new() -> (r: ByteRLE)
        ensures
            r.wf(),
            r@ == Seq::<u8>::empty(),
            r.est() == 0,
    {
        ByteRLE {
            sink: CompressionStream::new(),
            lits: Vec::new(),
            tail: 0,
            run_val: 0,
            run_len: 0,
            vals: Ghost(Seq::empty()),
        }
    }

    /// Emits the buffered literal group to the staging stream.
    fn emit_lits(&mut self)
        requires
            0 < old(self).lits@.len() <= 128,
        ensures
            final(self).sink@ == old(self).sink@ + byte_lit_bytes(old(self).lits@),
            final(self).lits@ == Seq::<u8>::empty(),
            final(self).tail == 0,
            final(self).run_val == old(self).run_val,
            final(self).run_len == old(self).run_len,
            final(self).vals == old(self).vals,
    {
        let n: usize = self.lits.len();
        let header: u8 = (256u16 - n as u16) as u8;
        self.sink.write_u8(header);
        self.sink.write_bytes(self.lits.as_slice());
        self.lits.clear();
        self.tail = 0;
        proof {
            assert(old(self).sink@.push(header) + old(self).lits@ =~= old(self).sink@
                + byte_lit_bytes(old(self).lits@));
        }
    }

    /// Emits the open run to the staging stream.
    fn emit_run(&mut self)
        requires
            3 <= old(self).run_len <= 130,
        ensures
            final(self).sink@ == old(self).sink@ + byte_run_bytes(
                old(self).run_val,
                old(self).run_len as nat,
            ),
            final(self).lits@ == old(self).lits@,
            final(self).tail == old(self).tail,
            final(self).run_len == 0,
            final(self).run_val == 0,
            final(self).vals == old(self).vals,
    {
        self.sink.write_u8(self.run_len - 3);
        self.sink.write_u8(self.run_val);
        self.run_len = 0;
        self.run_val = 0;
        proof {
            assert(old(self).sink@.push((old(self).run_len - 3) as u8).push(old(self).run_val)
                =~= old(self).sink@ + byte_run_bytes(old(self).run_val, old(self).run_len as nat));
        }
    }

    /// Appends one byte to the encoded sequence.
    pub fn write(&mut self, v: u8)
        requires
            old(self).wf(),
        ensures
            final(self).wf(),
            final(self)@ == old(self)@.push(v),
    {
        proof {
            lemma_byte_rle_fold_bounds(self.vals@);
            assert(self.vals@.push(v).drop_last() =~= self.vals@);
        }
        let ghost st0 = self.abs();
        if self.run_len > 0 {
            if v == self.run_val && self.run_len < 130 {
                self.run_len = self.run_len + 1;
            } else {
                self.emit_run();
                self.lits.push(v);
                self.tail = 1;
            }
        } else if self.lits.len() == 0 {
            self.lits.push(v);
            self.tail = 1;
        } else {
            let last: u8 = self.lits[self.lits.len() - 1];
            if v == last && self.tail == 2 {
                let n: usize = self.lits.len();
                self.lits.truncate(n - 2);
                proof {
                    assert(self.lits@ =~= st0.lits.take(st0.lits.len() - 2));
                }
                if self.lits.len() > 0 {
                    self.emit_lits();
                }
                self.lits.clear();
                self.tail = 0;
                self.run_val = v;
                self.run_len = 3;
            } else {
                self.lits.push(v);
                if v == last {
                    self.tail = self.tail + 1;
                } else {
                    self.tail = 1;
                }
                if self.lits.len() == 128 {
                    self.emit_lits();
                    self.run_len = 0;
                }
            }
        }
        self.vals = Ghost(self.vals@.push(v));
        proof {
            assert(self.abs() =~= byte_rle_step(st0, v));
        }
    }

    /// Flushes the buffered state and moves the whole encoding to the sink;
    /// the encoder is left fresh.  The bytes appended to `out` are exactly
    /// the ORC byte RLE encoding of the byte sequence written.
    pub fn finish(&mut self, out: &mut CountWrite)
        requires
            old(self).wf(),
        ensures
            final(self).wf(),
            final(self)@ == Seq::<u8>::empty(),
            final(self).est() == 0,
            final(out)@ == old(out)@ + byte_rle_encode(old(self)@),
    {
        proof {
            lemma_byte_rle_fold_bounds(self.vals@);
        }
        if self.run_len > 0 {
            self.emit_run();
        } else if self.lits.len() > 0 {
            self.emit_lits();
        }
        self.sink.finish(out);
        self.lits.clear();
        self.tail = 0;
        self.run_val = 0;
        self.run_len = 0;
        self.vals = Ghost(Seq::empty());
    }

    /// Size estimate: staged bytes plus the buffered state's residue.
    pub closed spec fn est(&self) -> nat {
        byte_rle_est(self.abs())
    }

    /// Bytes already staged plus the buffered state's worst-case residue.
    pub fn estimated_size(&self) -> (r: usize)
        ensures
            r as nat == self.est(),
    {
        let staged: usize = self.sink.buffered_len();
        let buffered: usize = self.lits.len();
        let run: usize = if self.run_len > 0 {
            2
        } else {
            0
        };
        staged.saturating_add(buffered).saturating_add(run)
    }
}

/// Saturating addition on mathematical naturals, capped at the machine word.
pub open spec fn sat_add(a: nat, b: nat) -> nat {
    if a + b > usize::MAX {
        usize::MAX as nat
    } else {
        a + b
    }
}

/// Size estimate of a byte RLE state: staged bytes plus buffered literals
/// plus two bytes for an open run.
pub open spec fn byte_rle_est(st: ByteRleState) -> nat {
    sat_add(
        sat_add(st.out.len(), st.lits.len()),
        if st.run_len > 0 {
            2
        } else {
            0
        },
    )
}

} // verus!
