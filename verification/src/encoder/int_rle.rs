//! ORC v1 integer run-length encoding.  A header byte in [0, 127] opens a
//! run of header+3 values: a signed delta byte follows, then the varint of
//! the base value; a header byte in [128, 255] (a negative signed byte)
//! opens a literal block of 256-header varints.  The signed variant ZigZags
//! every emitted value; the unsigned variant emits plain varints.  The
//! encoder switches to a run when the last three buffered values share a
//! common delta in [-128, 127]; a run extends to at most 130 values.

use vstd::prelude::*;
use crate::compression::{CompressionStream, CountWrite};
use crate::encoding::{svarint, uvarint, zigzag};

verus! {

/// Encoder state, viewed abstractly over mathematical integers.
#[verifier::ext_equal]
pub ghost struct IntRleState {
    pub out: Seq<u8>,
    pub lits: Seq<int>,
    pub base: int,
    pub delta: int,
    pub run_len: nat,
}

/// The state of a fresh encoder.
pub open spec fn int_rle_init() -> IntRleState {
    IntRleState { out: seq![], lits: seq![], base: 0, delta: 0, run_len: 0 }
}

/// The varint bytes of one value: ZigZag first when signed.
pub open spec fn int_val_bytes(v: int, signed: bool) -> Seq<u8> {
    if signed {
        svarint(v)
    } else {
        uvarint(v as nat)
    }
}

/// The varint bytes of a value sequence, in order.
pub open spec fn int_vals_bytes(l: Seq<int>, signed: bool) -> Seq<u8>
    decreases l.len(),
{
    if l.len() == 0 {
        seq![]
    } else {
        int_vals_bytes(l.drop_last(), signed) + int_val_bytes(l.last(), signed)
    }
}

/// Appending one value appends its varint bytes.
pub proof fn lemma_int_vals_bytes_push(l: Seq<int>, x: int, signed: bool)
    ensures
        int_vals_bytes(l.push(x), signed) == int_vals_bytes(l, signed) + int_val_bytes(x, signed),
{
    assert(l.push(x).drop_last() =~= l);
    assert(l.push(x).last() == x);
}

/// A signed byte in two's complement, as the unsigned byte emitted.
pub open spec fn i8_byte(d: int) -> u8 {
    if d >= 0 {
        d as u8
    } else {
        (d + 256) as u8
    }
}

/// The emitted form of a run: header len-3, the delta byte, the base varint.
pub open spec fn int_run_bytes(base: int, delta: int, len: nat, signed: bool) -> Seq<u8> {
    seq![(len - 3) as u8, i8_byte(delta)] + int_val_bytes(base, signed)
}

/// The emitted form of a literal block: header 256-count, then the varints.
pub open spec fn int_lit_bytes(l: Seq<int>, signed: bool) -> Seq<u8> {
    seq![(256 - l.len()) as u8] + int_vals_bytes(l, signed)
}

/// One step of the encoder on the next value.
pub open spec fn int_rle_step(st: IntRleState, v: int, signed: bool) -> IntRleState {
    if st.run_len > 0 {
        if st.run_len < 130 && v == st.base + st.delta * st.run_len {
            IntRleState { run_len: (st.run_len + 1) as nat, ..st }
        } else {
            IntRleState {
                out: st.out + int_run_bytes(st.base, st.delta, st.run_len, signed),
                lits: seq![v],
                base: 0,
                delta: 0,
                run_len: 0,
            }
        }
    } else {
        let l = st.lits.push(v);
        let n = l.len();
        if n >= 3 && -128 <= l[n - 2] - l[n - 3] <= 127 && l[n - 1] - l[n - 2] == l[n - 2] - l[n
            - 3] {
            IntRleState {
                out: st.out + if n > 3 {
                    int_lit_bytes(l.take(n - 3), signed)
                } else {
                    seq![]
                },
                lits: seq![],
                base: l[n - 3],
                delta: l[n - 2] - l[n - 3],
                run_len: 3,
            }
        } else if n == 128 {
            IntRleState {
                out: st.out + int_lit_bytes(l, signed),
                lits: seq![],
                base: 0,
                delta: 0,
                run_len: 0,
            }
        } else {
            IntRleState { lits: l, ..st }
        }
    }
}

/// The encoder state after a sequence of values.
pub open spec fn int_rle_fold(s: Seq<int>, signed: bool) -> IntRleState
    decreases s.len(),
{
    if s.len() == 0 {
        int_rle_init()
    } else {
        int_rle_step(int_rle_fold(s.drop_last(), signed), s.last(), signed)
    }
}

/// What flushing the buffered state adds to the output.
pub open spec fn int_rle_residue(st: IntRleState, signed: bool) -> Seq<u8> {
    if st.run_len > 0 {
        int_run_bytes(st.base, st.delta, st.run_len, signed)
    } else if st.lits.len() > 0 {
        int_lit_bytes(st.lits, signed)
    } else {
        seq![]
    }
}

/// The complete integer RLE encoding of a value sequence.
pub open spec fn int_rle_encode(s: Seq<int>, signed: bool) -> Seq<u8> {
    int_rle_fold(s, signed).out + int_rle_residue(int_rle_fold(s, signed), signed)
}

/// Bounds every reachable encoder state obeys, for values within [lo, hi].
pub open spec fn int_rle_bounds(st: IntRleState, lo: int, hi: int) -> bool {
    &&& st.lits.len() <= 127
    &&& st.run_len <= 130
    &&& (st.run_len > 0 ==> st.run_len >= 3 && st.lits.len() == 0 && -128 <= st.delta <= 127
        && lo <= st.base <= hi)
    &&& (st.run_len == 0 ==> st.base == 0 && st.delta == 0)
    &&& (forall|i: int| 0 <= i < st.lits.len() ==> lo <= #[trigger] st.lits[i] <= hi)
}

/// A step on an in-range value preserves the state bounds.
pub proof fn lemma_int_rle_step_bounds(st: IntRleState, v: int, signed: bool, lo: int, hi: int)
    requires
        int_rle_bounds(st, lo, hi),
        lo <= v <= hi,
        lo <= 0 <= hi,
    ensures
        int_rle_bounds(int_rle_step(st, v, signed), lo, hi),
{
    let r = int_rle_step(st, v, signed);
    assert forall|i: int| 0 <= i < r.lits.len() implies lo <= #[trigger] r.lits[i] <= hi by {
        if st.run_len == 0 && r.lits.len() > 1 {
            assert(r.lits == st.lits.push(v));
            if i < st.lits.len() {
                assert(lo <= st.lits[i] <= hi);
            }
        }
    }
}

/// Every state the fold reaches on in-range values obeys the bounds.
pub proof fn lemma_int_rle_fold_bounds(s: Seq<int>, signed: bool, lo: int, hi: int)
    requires
        forall|i: int| 0 <= i < s.len() ==> lo <= #[trigger] s[i] <= hi,
        lo <= 0 <= hi,
    ensures
        int_rle_bounds(int_rle_fold(s, signed), lo, hi),
    decreases s.len(),
{
    if s.len() > 0 {
        assert(forall|i: int|
            0 <= i < s.drop_last().len() ==> lo <= #[trigger] s.drop_last()[i] <= hi);
        lemma_int_rle_fold_bounds(s.drop_last(), signed, lo, hi);
        lemma_int_rle_step_bounds(int_rle_fold(s.drop_last(), signed), s.last(), signed, lo, hi);
    }
}

/// ORC v1 signed integer run-length encoder (ZigZag varints).
pub struct SignedIntRLEv1 {
    sink: CompressionStream,
    lits: Vec<i64>,
    base: i64,
    delta: i64,
    run_len: u8,
    vals: Ghost<Seq<int>>,
}

impl SignedIntRLEv1 {
    /// The abstract state the concrete fields stand for.
    pub closed spec fn abs(&self) -> IntRleState {
        IntRleState {
            out: self.sink@,
            lits: self.lits@.map_values(|x: i64| x as int),
            base: self.base as int,
            delta: self.delta as int,
            run_len: self.run_len as nat,
        }
    }

    /// The sequence of values written so far.
    pub closed spec fn view(&self) -> Seq<int> {
        self.vals@
    }

    /// The concrete state is exactly the fold of the written values.
    pub closed spec fn wf(&self) -> bool {
        &&& self.abs() == int_rle_fold(self.vals@, true)
        &&& forall|i: int|
            0 <= i < self.vals@.len() ==> i64::MIN <= #[trigger] self.vals@[i] <= i64::MAX
    }

    /// A fresh encoder with nothing written.
    pub fn new() -> (r: SignedIntRLEv1)
        ensures
            r.wf(),
            r@ == Seq::<int>::empty(),
            r.est() == 0,
    {
        let r = SignedIntRLEv1 {
            sink: CompressionStream::new(),
            lits: Vec::new(),
            base: 0,
            delta: 0,
            run_len: 0,
            vals: Ghost(Seq::empty()),
        };
        proof {
            assert(r.lits@.map_values(|x: i64| x as int) =~= Seq::<int>::empty());
        }
        r
    }

    /// Emits the open run to the staging stream.
    fn emit_run(&mut self)
        requires
            3 <= old(self).run_len <= 130,
        ensures
            final(self).sink@ == old(self).sink@ + int_run_bytes(
                old(self).base as int,
                old(self).delta as int,
                old(self).run_len as nat,
                true,
            ),
            final(self).lits@ == old(self).lits@,
            final(self).base == 0,
            final(self).delta == 0,
            final(self).run_len == 0,
            final(self).vals == old(self).vals,
    {
        self.sink.write_u8(self.run_len - 3);
        let db: u8 = if self.delta >= 0 {
            self.delta as u8
        } else {
            (self.delta + 256) as u8
        };
        self.sink.write_u8(db);
        self.sink.write_svarint(self.base);
        proof {
            assert(old(self).sink@.push((old(self).run_len - 3) as u8).push(db) + svarint(
                old(self).base as int,
            ) =~= old(self).sink@ + int_run_bytes(
                old(self).base as int,
                old(self).delta as int,
                old(self).run_len as nat,
                true,
            ));
        }
        self.base = 0;
        self.delta = 0;
        self.run_len = 0;
    }

    /// Emits the first `n` buffered literals as one literal block.
    fn emit_lits(&mut self, n: usize)
        requires
            0 < n <= 128,
            n <= old(self).lits@.len(),
        ensures
            final(self).sink@ == old(self).sink@ + int_lit_bytes(
                old(self).lits@.map_values(|x: i64| x as int).take(n as int),
                true,
            ),
            final(self).lits@ == old(self).lits@,
            final(self).base == old(self).base,
            final(self).delta == old(self).delta,
            final(self).run_len == old(self).run_len,
            final(self).vals == old(self).vals,
    {
        let ghost lv = self.lits@.map_values(|x: i64| x as int);
        let header: u8 = (256u16 - n as u16) as u8;
        self.sink.write_u8(header);
        let ghost mid = self.sink@;
        let mut i: usize = 0;
        while i < n
            invariant
                i <= n,
                n <= self.lits@.len(),
                self.sink@ == mid + int_vals_bytes(lv.take(i as int), true),
                lv == self.lits@.map_values(|x: i64| x as int),
                self.lits@ == old(self).lits@,
                self.base == old(self).base,
                self.delta == old(self).delta,
                self.run_len == old(self).run_len,
                self.vals == old(self).vals,
            decreases n - i,
        {
            proof {
                assert(lv.take(i as int).push(lv[i as int]) =~= lv.take(i + 1));
                lemma_int_vals_bytes_push(lv.take(i as int), lv[i as int], true);
            }
            self.sink.write_svarint(self.lits[i]);
            i = i + 1;
        }
        proof {
            assert(mid =~= old(self).sink@.push(header));
            assert(old(self).sink@.push(header) + int_vals_bytes(lv.take(n as int), true)
                =~= old(self).sink@ + int_lit_bytes(lv.take(n as int), true));
        }
    }

    /// Appends one value to the encoded sequence.
    pub fn write(&mut self, v: i64)
        requires
            old(self).wf(),
        ensures
            final(self).wf(),
            final(self)@ == old(self)@.push(v as int),
    {
        proof {
            lemma_int_rle_fold_bounds(self.vals@, true, i64::MIN as int, i64::MAX as int);
            assert(self.vals@.push(v as int).drop_last() =~= self.vals@);
        }
        let ghost st0 = self.abs();
        if self.run_len > 0 {
            proof {
                assert((self.delta as i128) * (self.run_len as i128) <= 127 * 130 && (
                self.delta as i128) * (self.run_len as i128) >= -128 * 130) by (nonlinear_arith)
                    requires
                        -128 <= self.delta <= 127,
                        0 <= self.run_len <= 130,
                ;
            }
            let expect: i128 = self.base as i128 + (self.delta as i128) * (self.run_len as i128);
            if self.run_len < 130 && (v as i128) == expect {
                self.run_len = self.run_len + 1;
            } else {
                self.emit_run();
                self.lits.push(v);
                proof {
                    assert(self.lits@.map_values(|x: i64| x as int) =~= seq![v as int]);
                }
            }
        } else {
            self.lits.push(v);
            let n: usize = self.lits.len();
            proof {
                assert(self.lits@.map_values(|x: i64| x as int) =~= st0.lits.push(v as int));
            }
            let mut switched: bool = false;
            if n >= 3 {
                let a: i64 = self.lits[n - 3];
                let b: i64 = self.lits[n - 2];
                let c: i64 = self.lits[n - 1];
                let d: i128 = b as i128 - a as i128;
                if -128 <= d && d <= 127 && c as i128 - b as i128 == d {
                    switched = true;
                    if n > 3 {
                        self.emit_lits(n - 3);
                        proof {
                            assert(self.lits@.map_values(|x: i64| x as int).take(n - 3)
                                =~= st0.lits.push(v as int).take(n - 3));
                        }
                    }
                    self.base = a;
                    self.delta = d as i64;
                    self.run_len = 3;
                    self.lits.clear();
                    proof {
                        assert(self.lits@.map_values(|x: i64| x as int) =~= Seq::<int>::empty());
                    }
                }
            }
            if !switched && n == 128 {
                self.emit_lits(128);
                proof {
                    assert(self.lits@.map_values(|x: i64| x as int).take(128) =~= st0.lits.push(
                        v as int,
                    ));
                }
                self.lits.clear();
                proof {
                    assert(self.lits@.map_values(|x: i64| x as int) =~= Seq::<int>::empty());
                }
            }
        }
        self.vals = Ghost(self.vals@.push(v as int));
        proof {
            assert(self.abs() =~= int_rle_step(st0, v as int, true));
        }
    }

    /// Flushes the buffered state and moves the whole encoding to the sink;
    /// the encoder is left fresh.  The bytes appended to `out` are exactly
    /// the ORC signed integer RLE encoding of the values written.
    pub fn finish(&mut self, out: &mut CountWrite)
        requires
            old(self).wf(),
        ensures
            final(self).wf(),
            final(self)@ == Seq::<int>::empty(),
            final(self).est() == 0,
            final(out)@ == old(out)@ + int_rle_encode(old(self)@, true),
    {
        proof {
            lemma_int_rle_fold_bounds(self.vals@, true, i64::MIN as int, i64::MAX as int);
        }
        if self.run_len > 0 {
            self.emit_run();
        } else if self.lits.len() > 0 {
            let n: usize = self.lits.len();
            self.emit_lits(n);
            proof {
                assert(self.lits@.map_values(|x: i64| x as int).take(n as int)
                    =~= self.lits@.map_values(|x: i64| x as int));
            }
        }
        self.sink.finish(out);
        self.lits.clear();
        self.base = 0;
        self.delta = 0;
        self.run_len = 0;
        self.vals = Ghost(Seq::empty());
        proof {
            assert(self.lits@.map_values(|x: i64| x as int) =~= Seq::<int>::empty());
        }
    }

    /// Size estimate: staged bytes, plus one byte per buffered literal (a
    /// varint's first byte), plus a worst-case run residue.
    pub closed spec fn est(&self) -> nat {
        crate::encoder::byte_rle::sat_add(
            crate::encoder::byte_rle::sat_add(self.sink@.len(), self.lits@.len()),
            if self.run_len > 0 {
                12nat
            } else {
                0nat
            },
        )
    }

    /// Bytes already staged plus the buffered state's estimated residue.
    pub fn estimated_size(&self) -> (r: usize)
        ensures
            r as nat == self.est(),
    {
        let staged: usize = self.sink.buffered_len();
        let run: usize = if self.run_len > 0 {
            12
        } else {
            0
        };
        staged.saturating_add(self.lits.len()).saturating_add(run)
    }
}

/// ORC v1 unsigned integer run-length encoder (plain varints).
pub struct UnsignedIntRLEv1 {
    sink: CompressionStream,
    lits: Vec<u64>,
    base: u64,
    delta: i64,
    run_len: u8,
    vals: Ghost<Seq<int>>,
}

impl UnsignedIntRLEv1 {
    /// The abstract state the concrete fields stand for.
    pub closed spec fn abs(&self) -> IntRleState {
        IntRleState {
            out: self.sink@,
            lits: self.lits@.map_values(|x: u64| x as int),
            base: self.base as int,
            delta: self.delta as int,
            run_len: self.run_len as nat,
        }
    }

    /// The sequence of values written so far.
    pub closed spec fn view(&self) -> Seq<int> {
        self.vals@
    }

    /// The concrete state is exactly the fold of the written values.
    pub closed spec fn wf(&self) -> bool {
        &&& self.abs() == int_rle_fold(self.vals@, false)
        &&& forall|i: int|
            0 <= i < self.vals@.len() ==> 0 <= #[trigger] self.vals@[i] <= u64::MAX
    }

    /// A fresh encoder with nothing written.
    pub fn new() -> (r: UnsignedIntRLEv1)
        ensures
            r.wf(),
            r@ == Seq::<int>::empty(),
            r.est() == 0,
    {
        let r = UnsignedIntRLEv1 {
            sink: CompressionStream::new(),
            lits: Vec::new(),
            base: 0,
            delta: 0,
            run_len: 0,
            vals: Ghost(Seq::empty()),
        };
        proof {
            assert(r.lits@.map_values(|x: u64| x as int) =~= Seq::<int>::empty());
        }
        r
    }

    /// Emits the open run to the staging stream.
    fn emit_run(&mut self)
        requires
            3 <= old(self).run_len <= 130,
        ensures
            final(self).sink@ == old(self).sink@ + int_run_bytes(
                old(self).base as int,
                old(self).delta as int,
                old(self).run_len as nat,
                false,
            ),
            final(self).lits@ == old(self).lits@,
            final(self).base == 0,
            final(self).delta == 0,
            final(self).run_len == 0,
            final(self).vals == old(self).vals,
    {
        self.sink.write_u8(self.run_len - 3);
        let db: u8 = if self.delta >= 0 {
            self.delta as u8
        } else {
            (self.delta + 256) as u8
        };
        self.sink.write_u8(db);
        self.sink.write_uvarint(self.base);
        proof {
            assert(old(self).sink@.push((old(self).run_len - 3) as u8).push(db) + uvarint(
                old(self).base as nat,
            ) =~= old(self).sink@ + int_run_bytes(
                old(self).base as int,
                old(self).delta as int,
                old(self).run_len as nat,
                false,
            ));
        }
        self.base = 0;
        self.delta = 0;
        self.run_len = 0;
    }

    /// Emits the first `n` buffered literals as one literal block.
    fn emit_lits(&mut self, n: usize)
        requires
            0 < n <= 128,
            n <= old(self).lits@.len(),
        ensures
            final(self).sink@ == old(self).sink@ + int_lit_bytes(
                old(self).lits@.map_values(|x: u64| x as int).take(n as int),
                false,
            ),
            final(self).lits@ == old(self).lits@,
            final(self).base == old(self).base,
            final(self).delta == old(self).delta,
            final(self).run_len == old(self).run_len,
            final(self).vals == old(self).vals,
    {
        let ghost lv = self.lits@.map_values(|x: u64| x as int);
        let header: u8 = (256u16 - n as u16) as u8;
        self.sink.write_u8(header);
        let ghost mid = self.sink@;
        let mut i: usize = 0;
        while i < n
            invariant
                i <= n,
                n <= self.lits@.len(),
                self.sink@ == mid + int_vals_bytes(lv.take(i as int), false),
                lv == self.lits@.map_values(|x: u64| x as int),
                self.lits@ == old(self).lits@,
                self.base == old(self).base,
                self.delta == old(self).delta,
                self.run_len == old(self).run_len,
                self.vals == old(self).vals,
            decreases n - i,
        {
            proof {
                assert(lv.take(i as int).push(lv[i as int]) =~= lv.take(i + 1));
                lemma_int_vals_bytes_push(lv.take(i as int), lv[i as int], false);
            }
            self.sink.write_uvarint(self.lits[i]);
            i = i + 1;
        }
        proof {
            assert(mid =~= old(self).sink@.push(header));
            assert(old(self).sink@.push(header) + int_vals_bytes(lv.take(n as int), false)
                =~= old(self).sink@ + int_lit_bytes(lv.take(n as int), false));
        }
    }

    /// Appends one value to the encoded sequence.
    pub fn write(&mut self, v: u64)
        requires
            old(self).wf(),
        ensures
            final(self).wf(),
            final(self)@ == old(self)@.push(v as int),
    {
        proof {
            lemma_int_rle_fold_bounds(self.vals@, false, 0int, u64::MAX as int);
            assert(self.vals@.push(v as int).drop_last() =~= self.vals@);
        }
        let ghost st0 = self.abs();
        if self.run_len > 0 {
            proof {
                assert((self.delta as i128) * (self.run_len as i128) <= 127 * 130 && (
                self.delta as i128) * (self.run_len as i128) >= -128 * 130) by (nonlinear_arith)
                    requires
                        -128 <= self.delta <= 127,
                        0 <= self.run_len <= 130,
                ;
            }
            let expect: i128 = self.base as i128 + (self.delta as i128) * (self.run_len as i128);
            if self.run_len < 130 && (v as i128) == expect {
                self.run_len = self.run_len + 1;
            } else {
                self.emit_run();
                self.lits.push(v);
                proof {
                    assert(self.lits@.map_values(|x: u64| x as int) =~= seq![v as int]);
                }
            }
        } else {
            self.lits.push(v);
            let n: usize = self.lits.len();
            proof {
                assert(self.lits@.map_values(|x: u64| x as int) =~= st0.lits.push(v as int));
            }
            let mut switched: bool = false;
            if n >= 3 {
                let a: u64 = self.lits[n - 3];
                let b: u64 = self.lits[n - 2];
                let c: u64 = self.lits[n - 1];
                let d: i128 = b as i128 - a as i128;
                if -128 <= d && d <= 127 && c as i128 - b as i128 == d {
                    switched = true;
                    if n > 3 {
                        self.emit_lits(n - 3);
                        proof {
                            assert(self.lits@.map_values(|x: u64| x as int).take(n - 3)
                                =~= st0.lits.push(v as int).take(n - 3));
                        }
                    }
                    self.base = a;
                    self.delta = d as i64;
                    self.run_len = 3;
                    self.lits.clear();
                    proof {
                        assert(self.lits@.map_values(|x: u64| x as int) =~= Seq::<int>::empty());
                    }
                }
            }
            if !switched && n == 128 {
                self.emit_lits(128);
                proof {
                    assert(self.lits@.map_values(|x: u64| x as int).take(128) =~= st0.lits.push(
                        v as int,
                    ));
                }
                self.lits.clear();
                proof {
                    assert(self.lits@.map_values(|x: u64| x as int) =~= Seq::<int>::empty());
                }
            }
        }
        self.vals = Ghost(self.vals@.push(v as int));
        proof {
            assert(self.abs() =~= int_rle_step(st0, v as int, false));
        }
    }

    /// Flushes the buffered state and moves the whole encoding to the sink;
    /// the encoder is left fresh.  The bytes appended to `out` are exactly
    /// the ORC unsigned integer RLE encoding of the values written.
    pub fn finish(&mut self, out: &mut CountWrite)
        requires
            old(self).wf(),
        ensures
            final(self).wf(),
            final(self)@ == Seq::<int>::empty(),
            final(self).est() == 0,
            final(out)@ == old(out)@ + int_rle_encode(old(self)@, false),
    {
        proof {
            lemma_int_rle_fold_bounds(self.vals@, false, 0int, u64::MAX as int);
        }
        if self.run_len > 0 {
            self.emit_run();
        } else if self.lits.len() > 0 {
            let n: usize = self.lits.len();
            self.emit_lits(n);
            proof {
                assert(self.lits@.map_values(|x: u64| x as int).take(n as int)
                    =~= self.lits@.map_values(|x: u64| x as int));
            }
        }
        self.sink.finish(out);
        self.lits.clear();
        self.base = 0;
        self.delta = 0;
        self.run_len = 0;
        self.vals = Ghost(Seq::empty());
        proof {
            assert(self.lits@.map_values(|x: u64| x as int) =~= Seq::<int>::empty());
        }
    }

    /// Size estimate: staged bytes, plus one byte per buffered literal (a
    /// varint's first byte), plus a worst-case run residue.
    pub closed spec fn est(&self) -> nat {
        crate::encoder::byte_rle::sat_add(
            crate::encoder::byte_rle::sat_add(self.sink@.len(), self.lits@.len()),
            if self.run_len > 0 {
                12nat
            } else {
                0nat
            },
        )
    }

    /// Bytes already staged plus the buffered state's estimated residue.
    pub fn estimated_size(&self) -> (r: usize)
        ensures
            r as nat == self.est(),
    {
        let staged: usize = self.sink.buffered_len();
        let run: usize = if self.run_len > 0 {
            12
        } else {
            0
        };
        staged.saturating_add(self.lits.len()).saturating_add(run)
    }
}

} // verus!
