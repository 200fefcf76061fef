//! The data tree: one mutable node per column, isomorphic to the schema.
//! A leaf owns a PRESENT encoder, its kind-specific data encoders and a
//! statistics accumulator; a Struct node owns its children; a List node owns
//! one child and a LENGTH encoder.  At stripe flush each node emits its
//! streams in the fixed order PRESENT, DATA, LENGTH, SECONDARY, appending a
//! stream descriptor for each stream actually written; the PRESENT stream is
//! omitted exactly when the column saw no null.

use vstd::prelude::*;
use crate::compression::{CompressionStream, CountWrite};
use crate::encoder::boolean_rle::{boolean_rle_encode, BooleanRLE};
use crate::encoder::byte_rle::{byte_rle_encode, sat_add, ByteRLE};
use crate::encoder::int_rle::{int_rle_encode, SignedIntRLEv1, UnsignedIntRLEv1};
use crate::statistics::{BinaryStatistics, Decimal64Statistics, GenericStatistics, LongStatistics, Statistics};
use crate::encoding::svarint;
use vstd::string::StringSliceAdditionalSpecFns;
use crate::schema::{fields_columns, lemma_fields_columns_member, schema_columns, Field, Schema};
use crate::stripe::{StreamInfo, StreamKind};

verus! {

/// The number of true bits: the present count a PRESENT stream encodes.
pub open spec fn count_true(s: Seq<bool>) -> nat
    decreases s.len(),
{
    if s.len() == 0 {
        0
    } else {
        count_true(s.drop_last()) + if s.last() {
            1nat
        } else {
            0nat
        }
    }
}


/// The four little-endian bytes of a 32-bit pattern.
pub open spec fn le4(v: u32) -> Seq<u8> {
    seq![
        (v % 256) as u8,
        ((v / 256) % 256) as u8,
        ((v / 65536) % 256) as u8,
        ((v / 16777216) % 256) as u8,
    ]
}

/// The eight little-endian bytes of a 64-bit pattern.
pub open spec fn le8(v: u64) -> Seq<u8> {
    le4((v % 4294967296) as u32) + le4((v / 4294967296) as u32)
}

/// Data node for a Boolean column: PRESENT and DATA are both boolean RLE.
pub struct BooleanData {
    column_id: u32,
    present: BooleanRLE,
    data: BooleanRLE,
    stripe_stats: GenericStatistics,
}

impl BooleanData {
    /// This node's preorder column id.
    pub closed spec fn cid(&self) -> u32 {
        self.column_id
    }

    /// The present bits recorded this stripe, one per value written.
    pub closed spec fn present_bits(&self) -> Seq<bool> {
        self.present@
    }

    /// The data bits recorded this stripe, one per present value.
    pub closed spec fn data_vals(&self) -> Seq<bool> {
        self.data@
    }

    /// The stripe statistics accumulated so far.
    pub closed spec fn stats(&self) -> GenericStatistics {
        self.stripe_stats
    }

    /// Structural invariant: encoders and statistics are consistent.
    pub closed spec fn wf(&self) -> bool {
        &&& self.present.wf()
        &&& self.data.wf()
        &&& self.stripe_stats.wf()
    }

    /// Live invariant: the statistics count exactly the recorded bits.
    pub closed spec fn live(&self) -> bool {
        &&& self.stripe_stats.num_values == self.present@.len()
        &&& self.stripe_stats.num_present == count_true(self.present@)
        &&& self.data@.len() == self.stripe_stats.num_present
    }

    /// A fresh node for the given column id.
    pub fn new(column_id: u32) -> (r: BooleanData)
        ensures
            r.wf(),
            r.live(),
            r.cid() == column_id,
            r.present_bits().len() == 0,
            r.data_vals().len() == 0,
            r.stats().num_values == 0,
            r.stats().num_present == 0,
    {
        BooleanData {
            column_id,
            present: BooleanRLE::new(),
            data: BooleanRLE::new(),
            stripe_stats: GenericStatistics::new(),
        }
    }

    /// Records one value: `Some(v)` appends a true present bit and `v` to
    /// DATA; `None` appends only a false present bit.
    pub fn write(&mut self, x: Option<bool>)
        requires
            old(self).wf(),
            old(self).live(),
            old(self).stats().num_values < u64::MAX,
        ensures
            final(self).wf(),
            final(self).live(),
            final(self).cid() == old(self).cid(),
            final(self).present_bits() == old(self).present_bits().push(x is Some),
            final(self).data_vals() == if x is Some {
                old(self).data_vals().push(x->Some_0)
            } else {
                old(self).data_vals()
            },
            final(self).stats().num_values == old(self).stats().num_values + 1,
            final(self).stats().num_present == old(self).stats().num_present + if x is Some {
                1int
            } else {
                0int
            },
    {
        proof {
            assert(old(self).present@.push(x is Some).drop_last() =~= old(self).present@);
        }
        match x {
            Some(v) => {
                self.present.write(true);
                self.data.write(v);
            },
            None => {
                self.present.write(false);
            },
        }
        self.stripe_stats.update(x.is_some());
    }

    /// The PRESENT stream's bytes, empty when the stream is omitted.
    pub open spec fn present_part(&self) -> Seq<u8> {
        if self.stats().spec_has_null() {
            boolean_rle_encode(self.present_bits())
        } else {
            seq![]
        }
    }

    /// The bytes this node appends at stripe flush.
    pub open spec fn stream_bytes(&self) -> Seq<u8> {
        self.present_part() + boolean_rle_encode(self.data_vals())
    }

    /// The stream descriptors this node appends at stripe flush.
    pub open spec fn stream_infos(&self) -> Seq<StreamInfo> {
        (if self.stats().spec_has_null() {
            seq![
                (StreamInfo {
                    kind: StreamKind::Present,
                    column_id: self.cid(),
                    length: self.present_part().len() as u64,
                }),
            ]
        } else {
            seq![]
        }) + seq![
            (StreamInfo {
                kind: StreamKind::Data,
                column_id: self.cid(),
                length: boolean_rle_encode(self.data_vals()).len() as u64,
            }),
        ]
    }

    /// Emits this column's streams: PRESENT exactly when a null was
    /// recorded, then DATA, appending one descriptor per stream written.
    /// The encoders are left empty; the statistics are kept for the stripe
    /// footer and reset separately.
    pub fn write_data_streams(&mut self, out: &mut CountWrite, infos: &mut Vec<StreamInfo>)
        requires
            old(self).wf(),
        ensures
            final(self).wf(),
            final(self).cid() == old(self).cid(),
            final(self).stats() == old(self).stats(),
            final(self).present_bits().len() == 0,
            final(self).data_vals().len() == 0,
            final(self).est() == 0,
            final(out)@ == old(out)@ + old(self).stream_bytes(),
            final(infos)@ == old(infos)@ + old(self).stream_infos(),
    {
        if self.stripe_stats.has_null() {
            let start: usize = out.len();
            self.present.finish(out);
            let plen: usize = out.len() - start;
            infos.push(
                StreamInfo {
                    kind: StreamKind::Present,
                    column_id: self.column_id,
                    length: plen as u64,
                },
            );
        } else {
            self.present = BooleanRLE::new();
        }
        let dstart: usize = out.len();
        self.data.finish(out);
        let dlen: usize = out.len() - dstart;
        infos.push(
            StreamInfo { kind: StreamKind::Data, column_id: self.column_id, length: dlen as u64 },
        );
        proof {
            assert(out@ =~= old(out)@ + old(self).stream_bytes());
            assert(infos@ =~= old(infos)@ + old(self).stream_infos());
        }
    }

    /// The stripe statistics, for the stripe footer.
    pub fn statistics(&self) -> (r: Statistics)
        ensures
            r == (Statistics::Generic(self.stats())),
    {
        Statistics::Generic(self.stripe_stats)
    }

    /// Size estimate of the buffered state.
    pub closed spec fn est(&self) -> nat {
        sat_add(self.present.est(), self.data.est())
    }

    /// Buffered bytes of both encoders, saturating.
    pub fn estimated_size(&self) -> (r: usize)
        ensures
            r as nat == self.est(),
    {
        self.present.estimated_size().saturating_add(self.data.estimated_size())
    }

    /// Drops the stripe statistics for the next stripe.
    pub fn reset(&mut self)
        requires
            old(self).wf(),
            old(self).present_bits().len() == 0,
            old(self).data_vals().len() == 0,
        ensures
            final(self).wf(),
            final(self).live(),
            final(self).est() == old(self).est(),
            final(self).cid() == old(self).cid(),
            final(self).present_bits().len() == 0,
            final(self).data_vals().len() == 0,
            final(self).stats().num_values == 0,
            final(self).stats().num_present == 0,
    {
        self.stripe_stats = GenericStatistics::new();
    }
}


/// Data node for the integer-like columns Short, Int, Long and Date: DATA is
/// signed integer RLE of the values (days since epoch for Date).
pub struct LongData {
    column_id: u32,
    present: BooleanRLE,
    data: SignedIntRLEv1,
    stripe_stats: LongStatistics,
}

impl LongData {
    /// This node's preorder column id.
    pub closed spec fn cid(&self) -> u32 {
        self.column_id
    }

    /// The present bits recorded this stripe, one per value written.
    pub closed spec fn present_bits(&self) -> Seq<bool> {
        self.present@
    }

    /// The data recorded this stripe, one entry per present value.
    pub closed spec fn data_vals(&self) -> Seq<int> {
        self.data@
    }

    /// The stripe statistics accumulated so far.
    pub closed spec fn stats(&self) -> LongStatistics {
        self.stripe_stats
    }

    /// Structural invariant: encoders and statistics are consistent.
    pub closed spec fn wf(&self) -> bool {
        &&& self.present.wf()
        &&& self.data.wf()
        &&& self.stripe_stats.wf()
    }

    /// Live invariant: the statistics count exactly the recorded values.
    pub closed spec fn live(&self) -> bool {
        &&& self.stripe_stats.counts.num_values == self.present@.len()
        &&& self.stripe_stats.counts.num_present == count_true(self.present@)
        &&& self.data@.len() == self.stripe_stats.counts.num_present
    }

    /// A fresh node for the given column id.
    pub fn new(column_id: u32) -> (r: LongData)
        ensures
            r.wf(),
            r.live(),
            r.cid() == column_id,
            r.present_bits().len() == 0,
            r.data_vals().len() == 0,
            r.stats().counts.num_values == 0,
            r.stats().counts.num_present == 0,

    {
        LongData {
            column_id,
            present: BooleanRLE::new(),
            data: SignedIntRLEv1::new(),
            stripe_stats: LongStatistics::new(),
        }
    }

    /// Records one value: `Some` appends a true present bit and the value's
    /// encoding to the data streams; `None` appends only a false bit.
    pub fn write(&mut self, x: Option<i64>)
        requires
            old(self).wf(),
            old(self).live(),
            old(self).stats().counts.num_values < u64::MAX,

        ensures
            final(self).wf(),
            final(self).live(),
            final(self).cid() == old(self).cid(),

            final(self).present_bits() == old(self).present_bits().push(x is Some),
            final(self).data_vals() == if x is Some {
                old(self).data_vals().push(x->Some_0 as int)
            } else {
                old(self).data_vals()
            },
            final(self).stats().counts.num_values == old(self).stats().counts.num_values + 1,
            final(self).stats().counts.num_present == old(self).stats().counts.num_present + if x is Some {
                1int
            } else {
                0int
            },
    {
        proof {
            assert(old(self).present@.push(x is Some).drop_last() =~= old(self).present@);
        }
        match x {
            Some(v) => {
                self.present.write(true);
                self.data.write(v);
            },
            None => {
                self.present.write(false);
            },
        }
        self.stripe_stats.update(x);
    }

    /// The PRESENT stream's bytes, empty when the stream is omitted.
    pub open spec fn present_part(&self) -> Seq<u8> {
        if self.stats().counts.spec_has_null() {
            boolean_rle_encode(self.present_bits())
        } else {
            seq![]
        }
    }

    /// The bytes this node appends at stripe flush.
    pub open spec fn stream_bytes(&self) -> Seq<u8> {
        self.present_part() + int_rle_encode(self.data_vals(), true)
    }

    /// The stream descriptors this node appends at stripe flush.
    pub open spec fn stream_infos(&self) -> Seq<StreamInfo> {
        (if self.stats().counts.spec_has_null() {
            seq![
                (StreamInfo {
                    kind: StreamKind::Present,
                    column_id: self.cid(),
                    length: self.present_part().len() as u64,
                }),
            ]
        } else {
            seq![]
        }) + seq![
            (StreamInfo {
                kind: StreamKind::Data,
                column_id: self.cid(),
                length: (int_rle_encode(self.data_vals(), true)).len() as u64,
            }),
        ]
    }

    /// Emits this column's streams: PRESENT exactly when a null was
    /// recorded, then the data streams, appending one descriptor per stream
    /// written.  The encoders are left empty; the statistics are kept for
    /// the stripe footer and reset separately.
    pub fn write_data_streams(&mut self, out: &mut CountWrite, infos: &mut Vec<StreamInfo>)
        requires
            old(self).wf(),
        ensures
            final(self).wf(),
            final(self).cid() == old(self).cid(),
            final(self).stats() == old(self).stats(),

            final(self).present_bits().len() == 0,
            final(self).data_vals().len() == 0,
            final(self).est() == 0,
            final(out)@ == old(out)@ + old(self).stream_bytes(),
            final(infos)@ == old(infos)@ + old(self).stream_infos(),
    {
        if self.stripe_stats.counts.has_null() {
            let start: usize = out.len();
            self.present.finish(out);
            let plen: usize = out.len() - start;
            infos.push(
                StreamInfo {
                    kind: StreamKind::Present,
                    column_id: self.column_id,
                    length: plen as u64,
                },
            );
        } else {
            self.present = BooleanRLE::new();
        }
        let dstart: usize = out.len();
        self.data.finish(out);
        let dlen: usize = out.len() - dstart;
        infos.push(
            StreamInfo { kind: StreamKind::Data, column_id: self.column_id, length: dlen as u64 },
        );

        proof {
            assert(out@ =~= old(out)@ + old(self).stream_bytes());
            assert(infos@ =~= old(infos)@ + old(self).stream_infos());
        }
    }

    /// The stripe statistics, for the stripe footer.
    pub fn statistics(&self) -> (r: Statistics)
        ensures
            r == (Statistics::Long(self.stats())),
    {
        Statistics::Long(self.stripe_stats)
    }

    /// Size estimate of the buffered state.
    pub closed spec fn est(&self) -> nat {
        sat_add(self.present.est(), self.data.est())
    }

    /// Buffered bytes of the node's encoders, saturating.
    pub fn estimated_size(&self) -> (r: usize)
        ensures
            r as nat == self.est(),
    {
        self.present.estimated_size().saturating_add(self.data.estimated_size())
    }

    /// Drops the stripe statistics for the next stripe.
    pub fn reset(&mut self)
        requires
            old(self).wf(),
            old(self).present_bits().len() == 0,
            old(self).data_vals().len() == 0,

        ensures
            final(self).wf(),
            final(self).live(),
            final(self).est() == old(self).est(),
            final(self).cid() == old(self).cid(),

            final(self).present_bits().len() == 0,
            final(self).data_vals().len() == 0,
            final(self).stats().counts.num_values == 0,
            final(self).stats().counts.num_present == 0,
    {
        self.stripe_stats = LongStatistics::new();
    }
}

/// Data node for a Byte column: DATA is byte RLE of the raw bytes.
pub struct ByteData {
    column_id: u32,
    present: BooleanRLE,
    data: ByteRLE,
    stripe_stats: LongStatistics,
}

impl ByteData {
    /// This node's preorder column id.
    pub closed spec fn cid(&self) -> u32 {
        self.column_id
    }

    /// The present bits recorded this stripe, one per value written.
    pub closed spec fn present_bits(&self) -> Seq<bool> {
        self.present@
    }

    /// The data recorded this stripe, one entry per present value.
    pub closed spec fn data_vals(&self) -> Seq<u8> {
        self.data@
    }

    /// The stripe statistics accumulated so far.
    pub closed spec fn stats(&self) -> LongStatistics {
        self.stripe_stats
    }

    /// Structural invariant: encoders and statistics are consistent.
    pub closed spec fn wf(&self) -> bool {
        &&& self.present.wf()
        &&& self.data.wf()
        &&& self.stripe_stats.wf()
    }

    /// Live invariant: the statistics count exactly the recorded values.
    pub closed spec fn live(&self) -> bool {
        &&& self.stripe_stats.counts.num_values == self.present@.len()
        &&& self.stripe_stats.counts.num_present == count_true(self.present@)
        &&& self.data@.len() == self.stripe_stats.counts.num_present
    }

    /// A fresh node for the given column id.
    pub fn new(column_id: u32) -> (r: ByteData)
        ensures
            r.wf(),
            r.live(),
            r.cid() == column_id,
            r.present_bits().len() == 0,
            r.data_vals().len() == 0,
            r.stats().counts.num_values == 0,
            r.stats().counts.num_present == 0,

    {
        ByteData {
            column_id,
            present: BooleanRLE::new(),
            data: ByteRLE::new(),
            stripe_stats: LongStatistics::new(),
        }
    }

    /// Records one value: `Some` appends a true present bit and the value's
    /// encoding to the data streams; `None` appends only a false bit.
    pub fn write(&mut self, x: Option<u8>)
        requires
            old(self).wf(),
            old(self).live(),
            old(self).stats().counts.num_values < u64::MAX,

        ensures
            final(self).wf(),
            final(self).live(),
            final(self).cid() == old(self).cid(),

            final(self).present_bits() == old(self).present_bits().push(x is Some),
            final(self).data_vals() == if x is Some {
                old(self).data_vals().push(x->Some_0)
            } else {
                old(self).data_vals()
            },
            final(self).stats().counts.num_values == old(self).stats().counts.num_values + 1,
            final(self).stats().counts.num_present == old(self).stats().counts.num_present + if x is Some {
                1int
            } else {
                0int
            },
    {
        proof {
            assert(old(self).present@.push(x is Some).drop_last() =~= old(self).present@);
        }
        match x {
            Some(v) => {
                self.present.write(true);
                self.data.write(v);
            },
            None => {
                self.present.write(false);
            },
        }
        match x {
            Some(v) => self.stripe_stats.update(Some(v as i64)),
            None => self.stripe_stats.update(None),
        }
    }

    /// The PRESENT stream's bytes, empty when the stream is omitted.
    pub open spec fn present_part(&self) -> Seq<u8> {
        if self.stats().counts.spec_has_null() {
            boolean_rle_encode(self.present_bits())
        } else {
            seq![]
        }
    }

    /// The bytes this node appends at stripe flush.
    pub open spec fn stream_bytes(&self) -> Seq<u8> {
        self.present_part() + byte_rle_encode(self.data_vals())
    }

    /// The stream descriptors this node appends at stripe flush.
    pub open spec fn stream_infos(&self) -> Seq<StreamInfo> {
        (if self.stats().counts.spec_has_null() {
            seq![
                (StreamInfo {
                    kind: StreamKind::Present,
                    column_id: self.cid(),
                    length: self.present_part().len() as u64,
                }),
            ]
        } else {
            seq![]
        }) + seq![
            (StreamInfo {
                kind: StreamKind::Data,
                column_id: self.cid(),
                length: (byte_rle_encode(self.data_vals())).len() as u64,
            }),
        ]
    }

    /// Emits this column's streams: PRESENT exactly when a null was
    /// recorded, then the data streams, appending one descriptor per stream
    /// written.  The encoders are left empty; the statistics are kept for
    /// the stripe footer and reset separately.
    pub fn write_data_streams(&mut self, out: &mut CountWrite, infos: &mut Vec<StreamInfo>)
        requires
            old(self).wf(),
        ensures
            final(self).wf(),
            final(self).cid() == old(self).cid(),
            final(self).stats() == old(self).stats(),

            final(self).present_bits().len() == 0,
            final(self).data_vals().len() == 0,
            final(self).est() == 0,
            final(out)@ == old(out)@ + old(self).stream_bytes(),
            final(infos)@ == old(infos)@ + old(self).stream_infos(),
    {
        if self.stripe_stats.counts.has_null() {
            let start: usize = out.len();
            self.present.finish(out);
            let plen: usize = out.len() - start;
            infos.push(
                StreamInfo {
                    kind: StreamKind::Present,
                    column_id: self.column_id,
                    length: plen as u64,
                },
            );
        } else {
            self.present = BooleanRLE::new();
        }
        let dstart: usize = out.len();
        self.data.finish(out);
        let dlen: usize = out.len() - dstart;
        infos.push(
            StreamInfo { kind: StreamKind::Data, column_id: self.column_id, length: dlen as u64 },
        );

        proof {
            assert(out@ =~= old(out)@ + old(self).stream_bytes());
            assert(infos@ =~= old(infos)@ + old(self).stream_infos());
        }
    }

    /// The stripe statistics, for the stripe footer.
    pub fn statistics(&self) -> (r: Statistics)
        ensures
            r == (Statistics::Long(self.stats())),
    {
        Statistics::Long(self.stripe_stats)
    }

    /// Size estimate of the buffered state.
    pub closed spec fn est(&self) -> nat {
        sat_add(self.present.est(), self.data.est())
    }

    /// Buffered bytes of the node's encoders, saturating.
    pub fn estimated_size(&self) -> (r: usize)
        ensures
            r as nat == self.est(),
    {
        self.present.estimated_size().saturating_add(self.data.estimated_size())
    }

    /// Drops the stripe statistics for the next stripe.
    pub fn reset(&mut self)
        requires
            old(self).wf(),
            old(self).present_bits().len() == 0,
            old(self).data_vals().len() == 0,

        ensures
            final(self).wf(),
            final(self).live(),
            final(self).est() == old(self).est(),
            final(self).cid() == old(self).cid(),

            final(self).present_bits().len() == 0,
            final(self).data_vals().len() == 0,
            final(self).stats().counts.num_values == 0,
            final(self).stats().counts.num_present == 0,
    {
        self.stripe_stats = LongStatistics::new();
    }
}

/// Data node for a Float column: DATA is the raw little-endian 32-bit
/// patterns, four bytes per present value.  The caller passes the bit
/// pattern, keeping the node free of floating point.
pub struct FloatData {
    column_id: u32,
    present: BooleanRLE,
    data: CompressionStream,
    stripe_stats: GenericStatistics,
}

impl FloatData {
    /// This node's preorder column id.
    pub closed spec fn cid(&self) -> u32 {
        self.column_id
    }

    /// The present bits recorded this stripe, one per value written.
    pub closed spec fn present_bits(&self) -> Seq<bool> {
        self.present@
    }

    /// The data recorded this stripe, one entry per present value.
    pub closed spec fn data_vals(&self) -> Seq<u8> {
        self.data@
    }

    /// The stripe statistics accumulated so far.
    pub closed spec fn stats(&self) -> GenericStatistics {
        self.stripe_stats
    }

    /// Structural invariant: encoders and statistics are consistent.
    pub closed spec fn wf(&self) -> bool {
        &&& self.present.wf()

        &&& self.stripe_stats.wf()
    }

    /// Live invariant: the statistics count exactly the recorded values.
    pub closed spec fn live(&self) -> bool {
        &&& self.stripe_stats.num_values == self.present@.len()
        &&& self.stripe_stats.num_present == count_true(self.present@)
        &&& self.data@.len() == 4 * self.stripe_stats.num_present
    }

    /// A fresh node for the given column id.
    pub fn new(column_id: u32) -> (r: FloatData)
        ensures
            r.wf(),
            r.live(),
            r.cid() == column_id,
            r.present_bits().len() == 0,
            r.data_vals().len() == 0,
            r.stats().num_values == 0,
            r.stats().num_present == 0,

    {
        FloatData {
            column_id,
            present: BooleanRLE::new(),
            data: CompressionStream::new(),
            stripe_stats: GenericStatistics::new(),
        }
    }

    /// Records one value: `Some` appends a true present bit and the value's
    /// encoding to the data streams; `None` appends only a false bit.
    pub fn write(&mut self, x: Option<u32>)
        requires
            old(self).wf(),
            old(self).live(),
            old(self).stats().num_values < u64::MAX,

        ensures
            final(self).wf(),
            final(self).live(),
            final(self).cid() == old(self).cid(),

            final(self).present_bits() == old(self).present_bits().push(x is Some),
            final(self).data_vals() == if x is Some {
                old(self).data_vals() + le4(x->Some_0)
            } else {
                old(self).data_vals()
            },
            final(self).stats().num_values == old(self).stats().num_values + 1,
            final(self).stats().num_present == old(self).stats().num_present + if x is Some {
                1int
            } else {
                0int
            },
    {
        proof {
            assert(old(self).present@.push(x is Some).drop_last() =~= old(self).present@);
        }
        match x {
            Some(v) => {
                self.present.write(true);
                self.data.write_u8((v % 256) as u8);
                self.data.write_u8(((v / 256) % 256) as u8);
                self.data.write_u8(((v / 65536) % 256) as u8);
                self.data.write_u8(((v / 16777216) % 256) as u8);
                proof {
                    assert(self.data@ =~= old(self).data@ + le4(v));
                }
            },
            None => {
                self.present.write(false);
            },
        }
        self.stripe_stats.update(x.is_some());
    }

    /// The PRESENT stream's bytes, empty when the stream is omitted.
    pub open spec fn present_part(&self) -> Seq<u8> {
        if self.stats().spec_has_null() {
            boolean_rle_encode(self.present_bits())
        } else {
            seq![]
        }
    }

    /// The bytes this node appends at stripe flush.
    pub open spec fn stream_bytes(&self) -> Seq<u8> {
        self.present_part() + self.data_vals()
    }

    /// The stream descriptors this node appends at stripe flush.
    pub open spec fn stream_infos(&self) -> Seq<StreamInfo> {
        (if self.stats().spec_has_null() {
            seq![
                (StreamInfo {
                    kind: StreamKind::Present,
                    column_id: self.cid(),
                    length: self.present_part().len() as u64,
                }),
            ]
        } else {
            seq![]
        }) + seq![
            (StreamInfo {
                kind: StreamKind::Data,
                column_id: self.cid(),
                length: (self.data_vals()).len() as u64,
            }),
        ]
    }

    /// Emits this column's streams: PRESENT exactly when a null was
    /// recorded, then the data streams, appending one descriptor per stream
    /// written.  The encoders are left empty; the statistics are kept for
    /// the stripe footer and reset separately.
    pub fn write_data_streams(&mut self, out: &mut CountWrite, infos: &mut Vec<StreamInfo>)
        requires
            old(self).wf(),
        ensures
            final(self).wf(),
            final(self).cid() == old(self).cid(),
            final(self).stats() == old(self).stats(),

            final(self).present_bits().len() == 0,
            final(self).data_vals().len() == 0,
            final(self).est() == 0,
            final(out)@ == old(out)@ + old(self).stream_bytes(),
            final(infos)@ == old(infos)@ + old(self).stream_infos(),
    {
        if self.stripe_stats.has_null() {
            let start: usize = out.len();
            self.present.finish(out);
            let plen: usize = out.len() - start;
            infos.push(
                StreamInfo {
                    kind: StreamKind::Present,
                    column_id: self.column_id,
                    length: plen as u64,
                },
            );
        } else {
            self.present = BooleanRLE::new();
        }
        let dstart: usize = out.len();
        self.data.finish(out);
        let dlen: usize = out.len() - dstart;
        infos.push(
            StreamInfo { kind: StreamKind::Data, column_id: self.column_id, length: dlen as u64 },
        );

        proof {
            assert(out@ =~= old(out)@ + old(self).stream_bytes());
            assert(infos@ =~= old(infos)@ + old(self).stream_infos());
        }
    }

    /// The stripe statistics, for the stripe footer.
    pub fn statistics(&self) -> (r: Statistics)
        ensures
            r == (Statistics::Generic(self.stats())),
    {
        Statistics::Generic(self.stripe_stats)
    }

    /// Size estimate of the buffered state.
    pub closed spec fn est(&self) -> nat {
        sat_add(self.present.est(), self.data@.len())
    }

    /// Buffered bytes of the node's encoders, saturating.
    pub fn estimated_size(&self) -> (r: usize)
        ensures
            r as nat == self.est(),
    {
        self.present.estimated_size().saturating_add(self.data.buffered_len())
    }

    /// Drops the stripe statistics for the next stripe.
    pub fn reset(&mut self)
        requires
            old(self).wf(),
            old(self).present_bits().len() == 0,
            old(self).data_vals().len() == 0,

        ensures
            final(self).wf(),
            final(self).live(),
            final(self).est() == old(self).est(),
            final(self).cid() == old(self).cid(),

            final(self).present_bits().len() == 0,
            final(self).data_vals().len() == 0,
            final(self).stats().num_values == 0,
            final(self).stats().num_present == 0,
    {
        self.stripe_stats = GenericStatistics::new();
    }
}

/// Data node for a Double column: DATA is the raw little-endian 64-bit
/// patterns, eight bytes per present value.  The caller passes the bit
/// pattern, keeping the node free of floating point.
pub struct DoubleData {
    column_id: u32,
    present: BooleanRLE,
    data: CompressionStream,
    stripe_stats: GenericStatistics,
}

impl DoubleData {
    /// This node's preorder column id.
    pub closed spec fn cid(&self) -> u32 {
        self.column_id
    }

    /// The present bits recorded this stripe, one per value written.
    pub closed spec fn present_bits(&self) -> Seq<bool> {
        self.present@
    }

    /// The data recorded this stripe, one entry per present value.
    pub closed spec fn data_vals(&self) -> Seq<u8> {
        self.data@
    }

    /// The stripe statistics accumulated so far.
    pub closed spec fn stats(&self) -> GenericStatistics {
        self.stripe_stats
    }

    /// Structural invariant: encoders and statistics are consistent.
    pub closed spec fn wf(&self) -> bool {
        &&& self.present.wf()

        &&& self.stripe_stats.wf()
    }

    /// Live invariant: the statistics count exactly the recorded values.
    pub closed spec fn live(&self) -> bool {
        &&& self.stripe_stats.num_values == self.present@.len()
        &&& self.stripe_stats.num_present == count_true(self.present@)
        &&& self.data@.len() == 8 * self.stripe_stats.num_present
    }

    /// A fresh node for the given column id.
    pub fn new(column_id: u32) -> (r: DoubleData)
        ensures
            r.wf(),
            r.live(),
            r.cid() == column_id,
            r.present_bits().len() == 0,
            r.data_vals().len() == 0,
            r.stats().num_values == 0,
            r.stats().num_present == 0,

    {
        DoubleData {
            column_id,
            present: BooleanRLE::new(),
            data: CompressionStream::new(),
            stripe_stats: GenericStatistics::new(),
        }
    }

    /// Records one value: `Some` appends a true present bit and the value's
    /// encoding to the data streams; `None` appends only a false bit.
    pub fn write(&mut self, x: Option<u64>)
        requires
            old(self).wf(),
            old(self).live(),
            old(self).stats().num_values < u64::MAX,

        ensures
            final(self).wf(),
            final(self).live(),
            final(self).cid() == old(self).cid(),

            final(self).present_bits() == old(self).present_bits().push(x is Some),
            final(self).data_vals() == if x is Some {
                old(self).data_vals() + le8(x->Some_0)
            } else {
                old(self).data_vals()
            },
            final(self).stats().num_values == old(self).stats().num_values + 1,
            final(self).stats().num_present == old(self).stats().num_present + if x is Some {
                1int
            } else {
                0int
            },
    {
        proof {
            assert(old(self).present@.push(x is Some).drop_last() =~= old(self).present@);
        }
        match x {
            Some(v) => {
                self.present.write(true);
                let lo: u32 = (v % 4294967296) as u32;
                let hi: u32 = (v / 4294967296) as u32;
                self.data.write_u8((lo % 256) as u8);
                self.data.write_u8(((lo / 256) % 256) as u8);
                self.data.write_u8(((lo / 65536) % 256) as u8);
                self.data.write_u8(((lo / 16777216) % 256) as u8);
                self.data.write_u8((hi % 256) as u8);
                self.data.write_u8(((hi / 256) % 256) as u8);
                self.data.write_u8(((hi / 65536) % 256) as u8);
                self.data.write_u8(((hi / 16777216) % 256) as u8);
                proof {
                    assert(self.data@ =~= old(self).data@ + le8(v));
                }
            },
            None => {
                self.present.write(false);
            },
        }
        self.stripe_stats.update(x.is_some());
    }

    /// The PRESENT stream's bytes, empty when the stream is omitted.
    pub open spec fn present_part(&self) -> Seq<u8> {
        if self.stats().spec_has_null() {
            boolean_rle_encode(self.present_bits())
        } else {
            seq![]
        }
    }

    /// The bytes this node appends at stripe flush.
    pub open spec fn stream_bytes(&self) -> Seq<u8> {
        self.present_part() + self.data_vals()
    }

    /// The stream descriptors this node appends at stripe flush.
    pub open spec fn stream_infos(&self) -> Seq<StreamInfo> {
        (if self.stats().spec_has_null() {
            seq![
                (StreamInfo {
                    kind: StreamKind::Present,
                    column_id: self.cid(),
                    length: self.present_part().len() as u64,
                }),
            ]
        } else {
            seq![]
        }) + seq![
            (StreamInfo {
                kind: StreamKind::Data,
                column_id: self.cid(),
                length: (self.data_vals()).len() as u64,
            }),
        ]
    }

    /// Emits this column's streams: PRESENT exactly when a null was
    /// recorded, then the data streams, appending one descriptor per stream
    /// written.  The encoders are left empty; the statistics are kept for
    /// the stripe footer and reset separately.
    pub fn write_data_streams(&mut self, out: &mut CountWrite, infos: &mut Vec<StreamInfo>)
        requires
            old(self).wf(),
        ensures
            final(self).wf(),
            final(self).cid() == old(self).cid(),
            final(self).stats() == old(self).stats(),

            final(self).present_bits().len() == 0,
            final(self).data_vals().len() == 0,
            final(self).est() == 0,
            final(out)@ == old(out)@ + old(self).stream_bytes(),
            final(infos)@ == old(infos)@ + old(self).stream_infos(),
    {
        if self.stripe_stats.has_null() {
            let start: usize = out.len();
            self.present.finish(out);
            let plen: usize = out.len() - start;
            infos.push(
                StreamInfo {
                    kind: StreamKind::Present,
                    column_id: self.column_id,
                    length: plen as u64,
                },
            );
        } else {
            self.present = BooleanRLE::new();
        }
        let dstart: usize = out.len();
        self.data.finish(out);
        let dlen: usize = out.len() - dstart;
        infos.push(
            StreamInfo { kind: StreamKind::Data, column_id: self.column_id, length: dlen as u64 },
        );

        proof {
            assert(out@ =~= old(out)@ + old(self).stream_bytes());
            assert(infos@ =~= old(infos)@ + old(self).stream_infos());
        }
    }

    /// The stripe statistics, for the stripe footer.
    pub fn statistics(&self) -> (r: Statistics)
        ensures
            r == (Statistics::Generic(self.stats())),
    {
        Statistics::Generic(self.stripe_stats)
    }

    /// Size estimate of the buffered state.
    pub closed spec fn est(&self) -> nat {
        sat_add(self.present.est(), self.data@.len())
    }

    /// Buffered bytes of the node's encoders, saturating.
    pub fn estimated_size(&self) -> (r: usize)
        ensures
            r as nat == self.est(),
    {
        self.present.estimated_size().saturating_add(self.data.buffered_len())
    }

    /// Drops the stripe statistics for the next stripe.
    pub fn reset(&mut self)
        requires
            old(self).wf(),
            old(self).present_bits().len() == 0,
            old(self).data_vals().len() == 0,

        ensures
            final(self).wf(),
            final(self).live(),
            final(self).est() == old(self).est(),
            final(self).cid() == old(self).cid(),

            final(self).present_bits().len() == 0,
            final(self).data_vals().len() == 0,
            final(self).stats().num_values == 0,
            final(self).stats().num_present == 0,
    {
        self.stripe_stats = GenericStatistics::new();
    }
}


/// Strips trailing decimal zeros, at most eight in all, counting them.
pub open spec fn nanos_strip(m: nat, z: nat) -> (nat, nat)
    decreases 8 - z,
{
    if z < 8 && m % 10 == 0 {
        nanos_strip(m / 10, z + 1)
    } else {
        (m, z)
    }
}

/// The ORC trailing-zero form of a nanoseconds count: zero stays zero; a
/// count with fewer than two trailing zeros is shifted left three bits;
/// otherwise the zeros are stripped, at most eight, and their count less
/// one fills the low three bits (a reader restores one more zero than the
/// field says, so the flag 0 is free for the unstripped case).
pub open spec fn nanos_encoded(n: nat) -> nat {
    if n == 0 {
        0
    } else if n % 100 != 0 {
        n * 8
    } else {
        let (m, z) = nanos_strip(n / 100, 2);
        (m * 8 + (z - 1)) as nat
    }
}

/// Exec form of `nanos_encoded`.
pub fn nanos_encode(n: u32) -> (r: u64)
    ensures
        r as nat == nanos_encoded(n as nat),
{
    if n == 0 {
        0
    } else if n % 100 != 0 {
        (n as u64) * 8
    } else {
        let mut m: u32 = n / 100;
        let mut z: u32 = 2;
        while m % 10 == 0 && z < 8
            invariant
                2 <= z <= 8,
                nanos_strip(m as nat, z as nat) == nanos_strip((n / 100) as nat, 2),
            decreases 8 - z,
        {
            m = m / 10;
            z = z + 1;
        }
        (m as u64) * 8 + (z as u64 - 1)
    }
}

/// Data node for a String column: DATA is the concatenated UTF-8 bytes of
/// the present values, LENGTH the unsigned integer RLE of their byte counts.
pub struct StringData {
    column_id: u32,
    present: BooleanRLE,
    data: CompressionStream,
    lengths: UnsignedIntRLEv1,
    stripe_stats: BinaryStatistics,
}

impl StringData {
    /// This node's preorder column id.
    pub closed spec fn cid(&self) -> u32 {
        self.column_id
    }

    /// The present bits recorded this stripe, one per value written.
    pub closed spec fn present_bits(&self) -> Seq<bool> {
        self.present@
    }

    /// The DATA stream staged this stripe.
    pub closed spec fn data_vals(&self) -> Seq<u8> {
        self.data@
    }

    /// The values staged for the second stream this stripe.
    pub closed spec fn sec_vals(&self) -> Seq<int> {
        self.lengths@
    }

    /// The stripe statistics accumulated so far.
    pub closed spec fn stats(&self) -> BinaryStatistics {
        self.stripe_stats
    }

    /// Structural invariant: encoders and statistics are consistent.
    pub closed spec fn wf(&self) -> bool {
        &&& self.present.wf()
        &&& self.lengths.wf()
        &&& self.stripe_stats.wf()
    }

    /// Live invariant: the statistics count exactly the recorded values.
    pub closed spec fn live(&self) -> bool {
        &&& self.stripe_stats.num_values == self.present@.len()
        &&& self.stripe_stats.num_present == count_true(self.present@)
        &&& self.lengths@.len() == self.stripe_stats.num_present
        &&& self.data@.len() == self.stripe_stats.sum_lengths
        &&& (forall|i: int| 0 <= i < self.lengths@.len() ==> #[trigger] self.lengths@[i] >= 0)
    }

    /// A fresh node for the given column id.
    pub fn new(column_id: u32) -> (r: StringData)
        ensures
            r.wf(),
            r.live(),
            r.cid() == column_id,
            r.present_bits().len() == 0,
            r.data_vals().len() == 0,
            r.sec_vals().len() == 0,
            r.stats().num_values == 0,
            r.stats().num_present == 0,

    {
        StringData {
            column_id,
            present: BooleanRLE::new(),
            data: CompressionStream::new(),
            lengths: UnsignedIntRLEv1::new(),
            stripe_stats: BinaryStatistics::new(),
        }
    }

    /// Records one value: `Some` appends a true present bit and the value's
    /// encoding to the data streams; `None` appends only a false bit.
    pub fn write(&mut self, x: Option<&str>)
        requires
            old(self).wf(),
            old(self).live(),
            old(self).stats().num_values < u64::MAX,
            x is Some ==> old(self).stats().sum_lengths + x->Some_0.spec_bytes().len() <= u64::MAX,
        ensures
            final(self).wf(),
            final(self).live(),
            final(self).cid() == old(self).cid(),

            final(self).present_bits() == old(self).present_bits().push(x is Some),
            final(self).data_vals() == if x is Some {
                old(self).data_vals() + x->Some_0.spec_bytes()
            } else {
                old(self).data_vals()
            },
            final(self).sec_vals() == if x is Some {
                old(self).sec_vals().push(x->Some_0.spec_bytes().len() as int)
            } else {
                old(self).sec_vals()
            },
            final(self).stats().num_values == old(self).stats().num_values + 1,
            final(self).stats().num_present == old(self).stats().num_present + if x is Some {
                1int
            } else {
                0int
            },
    {
        proof {
            assert(old(self).present@.push(x is Some).drop_last() =~= old(self).present@);
        }
        match x {
            Some(v) => {
                self.present.write(true);
                let b: &[u8] = v.as_bytes();
                self.data.write_bytes(b);
                self.lengths.write(b.len() as u64);
                self.stripe_stats.update(Some(b));
            },
            None => {
                self.present.write(false);
                self.stripe_stats.update(None);
            },
        }
    }

    /// The PRESENT stream's bytes, empty when the stream is omitted.
    pub open spec fn present_part(&self) -> Seq<u8> {
        if self.stats().spec_has_null() {
            boolean_rle_encode(self.present_bits())
        } else {
            seq![]
        }
    }

    /// The bytes this node appends at stripe flush.
    pub open spec fn stream_bytes(&self) -> Seq<u8> {
        self.present_part() + self.data_vals() + int_rle_encode(self.sec_vals(), false)
    }

    /// The stream descriptors this node appends at stripe flush.
    pub open spec fn stream_infos(&self) -> Seq<StreamInfo> {
        (if self.stats().spec_has_null() {
            seq![
                (StreamInfo {
                    kind: StreamKind::Present,
                    column_id: self.cid(),
                    length: self.present_part().len() as u64,
                }),
            ]
        } else {
            seq![]
        }) + seq![
            (StreamInfo {
                kind: StreamKind::Data,
                column_id: self.cid(),
                length: (self.data_vals()).len() as u64,
            }),
            (StreamInfo {
                kind: StreamKind::Length,
                column_id: self.cid(),
                length: (int_rle_encode(self.sec_vals(), false)).len() as u64,
            }),
        ]
    }

    /// Emits this column's streams: PRESENT exactly when a null was
    /// recorded, then DATA, then LENGTH, appending one descriptor per
    /// stream written.  The encoders are left empty; the statistics are kept
    /// for the stripe footer and reset separately.
    pub fn write_data_streams(&mut self, out: &mut CountWrite, infos: &mut Vec<StreamInfo>)
        requires
            old(self).wf(),
        ensures
            final(self).wf(),
            final(self).cid() == old(self).cid(),
            final(self).stats() == old(self).stats(),

            final(self).present_bits().len() == 0,
            final(self).data_vals().len() == 0,
            final(self).sec_vals().len() == 0,
            final(self).est() == 0,
            final(out)@ == old(out)@ + old(self).stream_bytes(),
            final(infos)@ == old(infos)@ + old(self).stream_infos(),
    {
        if self.stripe_stats.has_null() {
            let start: usize = out.len();
            self.present.finish(out);
            let plen: usize = out.len() - start;
            infos.push(
                StreamInfo {
                    kind: StreamKind::Present,
                    column_id: self.column_id,
                    length: plen as u64,
                },
            );
        } else {
            self.present = BooleanRLE::new();
        }
        let dstart: usize = out.len();
        self.data.finish(out);
        let dlen: usize = out.len() - dstart;
        infos.push(
            StreamInfo { kind: StreamKind::Data, column_id: self.column_id, length: dlen as u64 },
        );
        let sstart: usize = out.len();
        self.lengths.finish(out);
        let slen: usize = out.len() - sstart;
        infos.push(
            StreamInfo {
                kind: StreamKind::Length,
                column_id: self.column_id,
                length: slen as u64,
            },
        );
        proof {
            assert(out@ =~= old(out)@ + old(self).stream_bytes());
            assert(infos@ =~= old(infos)@ + old(self).stream_infos());
        }
    }

    /// The stripe statistics, for the stripe footer.
    pub fn statistics(&self) -> (r: Statistics)
        ensures
            r == (Statistics::Binary(self.stats())),
    {
        Statistics::Binary(self.stripe_stats)
    }

    /// Size estimate of the buffered state.
    pub closed spec fn est(&self) -> nat {
        sat_add(sat_add(self.present.est(), self.data@.len()), self.lengths.est())
    }

    /// Buffered bytes of the node's encoders, saturating.
    pub fn estimated_size(&self) -> (r: usize)
        ensures
            r as nat == self.est(),
    {
        self.present.estimated_size().saturating_add(self.data.buffered_len()).saturating_add(
            self.lengths.estimated_size(),
        )
    }

    /// Drops the stripe statistics for the next stripe.
    pub fn reset(&mut self)
        requires
            old(self).wf(),
            old(self).present_bits().len() == 0,
            old(self).data_vals().len() == 0,
            old(self).sec_vals().len() == 0,
        ensures
            final(self).wf(),
            final(self).live(),
            final(self).est() == old(self).est(),
            final(self).cid() == old(self).cid(),

            final(self).present_bits().len() == 0,
            final(self).data_vals().len() == 0,
            final(self).sec_vals().len() == 0,
            final(self).stats().num_values == 0,
            final(self).stats().num_present == 0,
    {
        self.stripe_stats = BinaryStatistics::new();
    }
}

/// Data node for a Binary column: DATA is the concatenated bytes of the
/// present values, LENGTH the unsigned integer RLE of their byte counts.
pub struct BinaryData {
    column_id: u32,
    present: BooleanRLE,
    data: CompressionStream,
    lengths: UnsignedIntRLEv1,
    stripe_stats: BinaryStatistics,
}

impl BinaryData {
    /// This node's preorder column id.
    pub closed spec fn cid(&self) -> u32 {
        self.column_id
    }

    /// The present bits recorded this stripe, one per value written.
    pub closed spec fn present_bits(&self) -> Seq<bool> {
        self.present@
    }

    /// The DATA stream staged this stripe.
    pub closed spec fn data_vals(&self) -> Seq<u8> {
        self.data@
    }

    /// The values staged for the second stream this stripe.
    pub closed spec fn sec_vals(&self) -> Seq<int> {
        self.lengths@
    }

    /// The stripe statistics accumulated so far.
    pub closed spec fn stats(&self) -> BinaryStatistics {
        self.stripe_stats
    }

    /// Structural invariant: encoders and statistics are consistent.
    pub closed spec fn wf(&self) -> bool {
        &&& self.present.wf()
        &&& self.lengths.wf()
        &&& self.stripe_stats.wf()
    }

    /// Live invariant: the statistics count exactly the recorded values.
    pub closed spec fn live(&self) -> bool {
        &&& self.stripe_stats.num_values == self.present@.len()
        &&& self.stripe_stats.num_present == count_true(self.present@)
        &&& self.lengths@.len() == self.stripe_stats.num_present
        &&& self.data@.len() == self.stripe_stats.sum_lengths
        &&& (forall|i: int| 0 <= i < self.lengths@.len() ==> #[trigger] self.lengths@[i] >= 0)
    }

    /// A fresh node for the given column id.
    pub fn new(column_id: u32) -> (r: BinaryData)
        ensures
            r.wf(),
            r.live(),
            r.cid() == column_id,
            r.present_bits().len() == 0,
            r.data_vals().len() == 0,
            r.sec_vals().len() == 0,
            r.stats().num_values == 0,
            r.stats().num_present == 0,

    {
        BinaryData {
            column_id,
            present: BooleanRLE::new(),
            data: CompressionStream::new(),
            lengths: UnsignedIntRLEv1::new(),
            stripe_stats: BinaryStatistics::new(),
        }
    }

    /// Records one value: `Some` appends a true present bit and the value's
    /// encoding to the data streams; `None` appends only a false bit.
    pub fn write(&mut self, x: Option<&[u8]>)
        requires
            old(self).wf(),
            old(self).live(),
            old(self).stats().num_values < u64::MAX,
            x is Some ==> old(self).stats().sum_lengths + x->Some_0@.len() <= u64::MAX,
        ensures
            final(self).wf(),
            final(self).live(),
            final(self).cid() == old(self).cid(),

            final(self).present_bits() == old(self).present_bits().push(x is Some),
            final(self).data_vals() == if x is Some {
                old(self).data_vals() + x->Some_0@
            } else {
                old(self).data_vals()
            },
            final(self).sec_vals() == if x is Some {
                old(self).sec_vals().push(x->Some_0@.len() as int)
            } else {
                old(self).sec_vals()
            },
            final(self).stats().num_values == old(self).stats().num_values + 1,
            final(self).stats().num_present == old(self).stats().num_present + if x is Some {
                1int
            } else {
                0int
            },
    {
        proof {
            assert(old(self).present@.push(x is Some).drop_last() =~= old(self).present@);
        }
        match x {
            Some(v) => {
                self.present.write(true);
                self.data.write_bytes(v);
                self.lengths.write(v.len() as u64);
                self.stripe_stats.update(Some(v));
            },
            None => {
                self.present.write(false);
                self.stripe_stats.update(None);
            },
        }
    }

    /// The PRESENT stream's bytes, empty when the stream is omitted.
    pub open spec fn present_part(&self) -> Seq<u8> {
        if self.stats().spec_has_null() {
            boolean_rle_encode(self.present_bits())
        } else {
            seq![]
        }
    }

    /// The bytes this node appends at stripe flush.
    pub open spec fn stream_bytes(&self) -> Seq<u8> {
        self.present_part() + self.data_vals() + int_rle_encode(self.sec_vals(), false)
    }

    /// The stream descriptors this node appends at stripe flush.
    pub open spec fn stream_infos(&self) -> Seq<StreamInfo> {
        (if self.stats().spec_has_null() {
            seq![
                (StreamInfo {
                    kind: StreamKind::Present,
                    column_id: self.cid(),
                    length: self.present_part().len() as u64,
                }),
            ]
        } else {
            seq![]
        }) + seq![
            (StreamInfo {
                kind: StreamKind::Data,
                column_id: self.cid(),
                length: (self.data_vals()).len() as u64,
            }),
            (StreamInfo {
                kind: StreamKind::Length,
                column_id: self.cid(),
                length: (int_rle_encode(self.sec_vals(), false)).len() as u64,
            }),
        ]
    }

    /// Emits this column's streams: PRESENT exactly when a null was
    /// recorded, then DATA, then LENGTH, appending one descriptor per
    /// stream written.  The encoders are left empty; the statistics are kept
    /// for the stripe footer and reset separately.
    pub fn write_data_streams(&mut self, out: &mut CountWrite, infos: &mut Vec<StreamInfo>)
        requires
            old(self).wf(),
        ensures
            final(self).wf(),
            final(self).cid() == old(self).cid(),
            final(self).stats() == old(self).stats(),

            final(self).present_bits().len() == 0,
            final(self).data_vals().len() == 0,
            final(self).sec_vals().len() == 0,
            final(self).est() == 0,
            final(out)@ == old(out)@ + old(self).stream_bytes(),
            final(infos)@ == old(infos)@ + old(self).stream_infos(),
    {
        if self.stripe_stats.has_null() {
            let start: usize = out.len();
            self.present.finish(out);
            let plen: usize = out.len() - start;
            infos.push(
                StreamInfo {
                    kind: StreamKind::Present,
                    column_id: self.column_id,
                    length: plen as u64,
                },
            );
        } else {
            self.present = BooleanRLE::new();
        }
        let dstart: usize = out.len();
        self.data.finish(out);
        let dlen: usize = out.len() - dstart;
        infos.push(
            StreamInfo { kind: StreamKind::Data, column_id: self.column_id, length: dlen as u64 },
        );
        let sstart: usize = out.len();
        self.lengths.finish(out);
        let slen: usize = out.len() - sstart;
        infos.push(
            StreamInfo {
                kind: StreamKind::Length,
                column_id: self.column_id,
                length: slen as u64,
            },
        );
        proof {
            assert(out@ =~= old(out)@ + old(self).stream_bytes());
            assert(infos@ =~= old(infos)@ + old(self).stream_infos());
        }
    }

    /// The stripe statistics, for the stripe footer.
    pub fn statistics(&self) -> (r: Statistics)
        ensures
            r == (Statistics::Binary(self.stats())),
    {
        Statistics::Binary(self.stripe_stats)
    }

    /// Size estimate of the buffered state.
    pub closed spec fn est(&self) -> nat {
        sat_add(sat_add(self.present.est(), self.data@.len()), self.lengths.est())
    }

    /// Buffered bytes of the node's encoders, saturating.
    pub fn estimated_size(&self) -> (r: usize)
        ensures
            r as nat == self.est(),
    {
        self.present.estimated_size().saturating_add(self.data.buffered_len()).saturating_add(
            self.lengths.estimated_size(),
        )
    }

    /// Drops the stripe statistics for the next stripe.
    pub fn reset(&mut self)
        requires
            old(self).wf(),
            old(self).present_bits().len() == 0,
            old(self).data_vals().len() == 0,
            old(self).sec_vals().len() == 0,
        ensures
            final(self).wf(),
            final(self).live(),
            final(self).est() == old(self).est(),
            final(self).cid() == old(self).cid(),

            final(self).present_bits().len() == 0,
            final(self).data_vals().len() == 0,
            final(self).sec_vals().len() == 0,
            final(self).stats().num_values == 0,
            final(self).stats().num_present == 0,
    {
        self.stripe_stats = BinaryStatistics::new();
    }
}

/// Powers of ten.
pub open spec fn pow10(k: nat) -> nat
    decreases k,
{
    if k == 0 {
        1
    } else {
        10 * pow10((k - 1) as nat)
    }
}

/// Powers of ten grow with the exponent.
pub proof fn lemma_pow10_monotone(a: nat, b: nat)
    requires
        a <= b,
    ensures
        pow10(a) <= pow10(b),
    decreases b,
{
    if a < b {
        lemma_pow10_monotone(a, (b - 1) as nat);
    }
}

/// The Decimal(precision, scale) envelope: the unscaled value has at most
/// `precision` decimal digits.
pub open spec fn decimal_in_precision(v: int, precision: u32) -> bool {
    -(pow10(precision as nat) as int) < v < pow10(precision as nat) as int
}

/// Exec form of `pow10` for the exponents a Decimal64 column can carry.
fn pow10_exec(p: u32) -> (r: u64)
    requires
        p <= 18,
    ensures
        r == pow10(p as nat),
{
    let mut t: u64 = 1;
    let mut i: u32 = 0;
    while i < p
        invariant
            i <= p,
            p <= 18,
            t == pow10(i as nat),
        decreases p - i,
    {
        proof {
            lemma_pow10_monotone(i as nat + 1, 18);
            assert(pow10(18) == 1000000000000000000) by {
                reveal_with_fuel(pow10, 19);
            };
        }
        t = t * 10;
        i = i + 1;
    }
    t
}

/// Data node for a Decimal column with precision at most 18: DATA is the
/// signed varint of each unscaled value; SECONDARY repeats the column's
/// constant scale once per present row, as ORC v1 asks.
pub struct Decimal64Data {
    column_id: u32,
    precision: u32,
    scale: u32,
    present: BooleanRLE,
    data: CompressionStream,
    secondary_scale: SignedIntRLEv1,
    stripe_stats: Decimal64Statistics,
}

impl Decimal64Data {
    /// This node's preorder column id.
    pub closed spec fn cid(&self) -> u32 {
        self.column_id
    }

    /// The present bits recorded this stripe, one per value written.
    pub closed spec fn present_bits(&self) -> Seq<bool> {
        self.present@
    }

    /// The DATA stream staged this stripe.
    pub closed spec fn data_vals(&self) -> Seq<u8> {
        self.data@
    }

    /// The values staged for the second stream this stripe.
    pub closed spec fn sec_vals(&self) -> Seq<int> {
        self.secondary_scale@
    }

    /// The stripe statistics accumulated so far.
    pub closed spec fn stats(&self) -> Decimal64Statistics {
        self.stripe_stats
    }

    /// The column's declared precision.
    pub closed spec fn spec_precision(&self) -> u32 {
        self.precision
    }

    /// The column's declared scale.
    pub closed spec fn spec_scale(&self) -> u32 {
        self.scale
    }

    /// Structural invariant: encoders and statistics are consistent.
    pub closed spec fn wf(&self) -> bool {
        &&& self.present.wf()
        &&& self.secondary_scale.wf()
        &&& self.stripe_stats.wf()
    }

    /// Live invariant: the statistics count exactly the recorded values.
    pub closed spec fn live(&self) -> bool {
        &&& self.stripe_stats.longs.counts.num_values == self.present@.len()
        &&& self.stripe_stats.longs.counts.num_present == count_true(self.present@)
        &&& self.secondary_scale@.len() == self.stripe_stats.longs.counts.num_present
        &&& (forall|i: int|
            0 <= i < self.secondary_scale@.len() ==> #[trigger] self.secondary_scale@[i]
                == self.scale as int)
    }

    /// A fresh node for the given column id.
    pub fn new(column_id: u32, precision: u32, scale: u32) -> (r: Decimal64Data)
        ensures
            r.wf(),
            r.live(),
            r.cid() == column_id,
            r.present_bits().len() == 0,
            r.data_vals().len() == 0,
            r.sec_vals().len() == 0,
            r.stats().longs.counts.num_values == 0,
            r.stats().longs.counts.num_present == 0,
            r.spec_precision() == precision,
            r.spec_scale() == scale,
    {
        Decimal64Data {
            column_id,
            precision,
            scale,
            present: BooleanRLE::new(),
            data: CompressionStream::new(),
            secondary_scale: SignedIntRLEv1::new(),
            stripe_stats: Decimal64Statistics::new(scale),
        }
    }

    /// The column's declared precision.
    pub fn precision(&self) -> (r: u32)
        ensures
            r == self.spec_precision(),
    {
        self.precision
    }

    /// The column's declared scale.
    pub fn scale(&self) -> (r: u32)
        ensures
            r == self.spec_scale(),
    {
        self.scale
    }

    /// This node's preorder column id, for error reports.
    pub fn column_id(&self) -> (r: u32)
        ensures
            r == self.cid(),
    {
        self.column_id
    }

    /// Decides whether an unscaled value lies within this column's
    /// precision envelope.  A value outside it is a usage error, so `write`
    /// requires the envelope and callers test here first.
    pub fn fits_precision(&self, v: i64) -> (r: bool)
        ensures
            r == decimal_in_precision(v as int, self.spec_precision()),
    {
        if self.precision >= 19 {
            proof {
                lemma_pow10_monotone(19, self.precision as nat);
                assert(pow10(19) == 10000000000000000000) by {
                    reveal_with_fuel(pow10, 20);
                };
            }
            true
        } else {
            let t: u64 = pow10_exec(self.precision);
            if v >= 0 {
                (v as u64) < t
            } else {
                let m: u64 = ((-(v + 1)) as u64) + 1;
                m < t
            }
        }
    }

    /// Records one value: `Some` appends a true present bit and the value's
    /// encoding to the data streams; `None` appends only a false bit.
    pub fn write(&mut self, x: Option<i64>)
        requires
            old(self).wf(),
            old(self).live(),
            old(self).stats().longs.counts.num_values < u64::MAX,
            x is Some ==> decimal_in_precision(x->Some_0 as int, old(self).spec_precision()),
        ensures
            final(self).wf(),
            final(self).live(),
            final(self).cid() == old(self).cid(),
            final(self).spec_precision() == old(self).spec_precision(),
            final(self).spec_scale() == old(self).spec_scale(),
            final(self).present_bits() == old(self).present_bits().push(x is Some),
            final(self).data_vals() == if x is Some {
                old(self).data_vals() + svarint(x->Some_0 as int)
            } else {
                old(self).data_vals()
            },
            final(self).sec_vals() == if x is Some {
                old(self).sec_vals().push(old(self).spec_scale() as int)
            } else {
                old(self).sec_vals()
            },
            final(self).stats().longs.counts.num_values == old(self).stats().longs.counts.num_values + 1,
            final(self).stats().longs.counts.num_present == old(self).stats().longs.counts.num_present + if x is Some {
                1int
            } else {
                0int
            },
    {
        proof {
            assert(old(self).present@.push(x is Some).drop_last() =~= old(self).present@);
        }
        match x {
            Some(v) => {
                self.present.write(true);
                self.data.write_svarint(v);
                self.secondary_scale.write(self.scale as i64);
                self.stripe_stats.update(Some(v));
            },
            None => {
                self.present.write(false);
                self.stripe_stats.update(None);
            },
        }
    }

    /// The PRESENT stream's bytes, empty when the stream is omitted.
    pub open spec fn present_part(&self) -> Seq<u8> {
        if self.stats().longs.counts.spec_has_null() {
            boolean_rle_encode(self.present_bits())
        } else {
            seq![]
        }
    }

    /// The bytes this node appends at stripe flush.
    pub open spec fn stream_bytes(&self) -> Seq<u8> {
        self.present_part() + self.data_vals() + int_rle_encode(self.sec_vals(), true)
    }

    /// The stream descriptors this node appends at stripe flush.
    pub open spec fn stream_infos(&self) -> Seq<StreamInfo> {
        (if self.stats().longs.counts.spec_has_null() {
            seq![
                (StreamInfo {
                    kind: StreamKind::Present,
                    column_id: self.cid(),
                    length: self.present_part().len() as u64,
                }),
            ]
        } else {
            seq![]
        }) + seq![
            (StreamInfo {
                kind: StreamKind::Data,
                column_id: self.cid(),
                length: (self.data_vals()).len() as u64,
            }),
            (StreamInfo {
                kind: StreamKind::Secondary,
                column_id: self.cid(),
                length: (int_rle_encode(self.sec_vals(), true)).len() as u64,
            }),
        ]
    }

    /// Emits this column's streams: PRESENT exactly when a null was
    /// recorded, then DATA, then SECONDARY, appending one descriptor per
    /// stream written.  The encoders are left empty; the statistics are kept
    /// for the stripe footer and reset separately.
    pub fn write_data_streams(&mut self, out: &mut CountWrite, infos: &mut Vec<StreamInfo>)
        requires
            old(self).wf(),
        ensures
            final(self).wf(),
            final(self).cid() == old(self).cid(),
            final(self).stats() == old(self).stats(),
            final(self).spec_precision() == old(self).spec_precision(),
            final(self).spec_scale() == old(self).spec_scale(),
            final(self).present_bits().len() == 0,
            final(self).data_vals().len() == 0,
            final(self).sec_vals().len() == 0,
            final(self).est() == 0,
            final(out)@ == old(out)@ + old(self).stream_bytes(),
            final(infos)@ == old(infos)@ + old(self).stream_infos(),
    {
        if self.stripe_stats.longs.counts.has_null() {
            let start: usize = out.len();
            self.present.finish(out);
            let plen: usize = out.len() - start;
            infos.push(
                StreamInfo {
                    kind: StreamKind::Present,
                    column_id: self.column_id,
                    length: plen as u64,
                },
            );
        } else {
            self.present = BooleanRLE::new();
        }
        let dstart: usize = out.len();
        self.data.finish(out);
        let dlen: usize = out.len() - dstart;
        infos.push(
            StreamInfo { kind: StreamKind::Data, column_id: self.column_id, length: dlen as u64 },
        );
        let sstart: usize = out.len();
        self.secondary_scale.finish(out);
        let slen: usize = out.len() - sstart;
        infos.push(
            StreamInfo {
                kind: StreamKind::Secondary,
                column_id: self.column_id,
                length: slen as u64,
            },
        );
        proof {
            assert(out@ =~= old(out)@ + old(self).stream_bytes());
            assert(infos@ =~= old(infos)@ + old(self).stream_infos());
        }
    }

    /// The stripe statistics, for the stripe footer.
    pub fn statistics(&self) -> (r: Statistics)
        ensures
            r == (Statistics::Decimal64(self.stats())),
    {
        Statistics::Decimal64(self.stripe_stats)
    }

    /// Size estimate of the buffered state.
    pub closed spec fn est(&self) -> nat {
        sat_add(sat_add(self.present.est(), self.data@.len()), self.secondary_scale.est())
    }

    /// Buffered bytes of the node's encoders, saturating.
    pub fn estimated_size(&self) -> (r: usize)
        ensures
            r as nat == self.est(),
    {
        self.present.estimated_size().saturating_add(self.data.buffered_len()).saturating_add(
            self.secondary_scale.estimated_size(),
        )
    }

    /// Drops the stripe statistics for the next stripe.
    pub fn reset(&mut self)
        requires
            old(self).wf(),
            old(self).present_bits().len() == 0,
            old(self).data_vals().len() == 0,
            old(self).sec_vals().len() == 0,
        ensures
            final(self).wf(),
            final(self).live(),
            final(self).est() == old(self).est(),
            final(self).cid() == old(self).cid(),
            final(self).spec_precision() == old(self).spec_precision(),
            final(self).spec_scale() == old(self).spec_scale(),
            final(self).present_bits().len() == 0,
            final(self).data_vals().len() == 0,
            final(self).sec_vals().len() == 0,
            final(self).stats().longs.counts.num_values == 0,
            final(self).stats().longs.counts.num_present == 0,
    {
        self.stripe_stats = Decimal64Statistics::new(self.scale);
    }
}

/// Data node for a Timestamp column: DATA is the signed integer RLE of
/// seconds relative to the ORC epoch 2015-01-01 UTC (not the Unix epoch);
/// SECONDARY the unsigned RLE of nanoseconds with trailing decimal zeros
/// shifted off and their count, less one, carried in the low three bits.
pub struct TimestampData {
    column_id: u32,
    present: BooleanRLE,
    data: SignedIntRLEv1,
    secondary: UnsignedIntRLEv1,
    stripe_stats: GenericStatistics,
}

impl TimestampData {
    /// This node's preorder column id.
    pub closed spec fn cid(&self) -> u32 {
        self.column_id
    }

    /// The present bits recorded this stripe, one per value written.
    pub closed spec fn present_bits(&self) -> Seq<bool> {
        self.present@
    }

    /// The DATA stream staged this stripe.
    pub closed spec fn data_vals(&self) -> Seq<int> {
        self.data@
    }

    /// The values staged for the second stream this stripe.
    pub closed spec fn sec_vals(&self) -> Seq<int> {
        self.secondary@
    }

    /// The stripe statistics accumulated so far.
    pub closed spec fn stats(&self) -> GenericStatistics {
        self.stripe_stats
    }

    /// Structural invariant: encoders and statistics are consistent.
    pub closed spec fn wf(&self) -> bool {
        &&& self.present.wf()
        &&& self.data.wf()
        &&& self.secondary.wf()
        &&& self.stripe_stats.wf()
    }

    /// Live invariant: the statistics count exactly the recorded values.
    pub closed spec fn live(&self) -> bool {
        &&& self.stripe_stats.num_values == self.present@.len()
        &&& self.stripe_stats.num_present == count_true(self.present@)
        &&& self.data@.len() == self.stripe_stats.num_present
        &&& self.secondary@.len() == self.stripe_stats.num_present
    }

    /// A fresh node for the given column id.
    pub fn new(column_id: u32) -> (r: TimestampData)
        ensures
            r.wf(),
            r.live(),
            r.cid() == column_id,
            r.present_bits().len() == 0,
            r.data_vals().len() == 0,
            r.sec_vals().len() == 0,
            r.stats().num_values == 0,
            r.stats().num_present == 0,

    {
        TimestampData {
            column_id,
            present: BooleanRLE::new(),
            data: SignedIntRLEv1::new(),
            secondary: UnsignedIntRLEv1::new(),
            stripe_stats: GenericStatistics::new(),
        }
    }

    /// Records one value: `Some` appends a true present bit and the value's
    /// encoding to the data streams; `None` appends only a false bit.
    pub fn write(&mut self, x: Option<(i64, u32)>)
        requires
            old(self).wf(),
            old(self).live(),
            old(self).stats().num_values < u64::MAX,
            x is Some ==> x->Some_0.0 >= i64::MIN + 1420070400,
        ensures
            final(self).wf(),
            final(self).live(),
            final(self).cid() == old(self).cid(),

            final(self).present_bits() == old(self).present_bits().push(x is Some),
            final(self).data_vals() == if x is Some {
                old(self).data_vals().push(x->Some_0.0 - 1420070400)
            } else {
                old(self).data_vals()
            },
            final(self).sec_vals() == if x is Some {
                old(self).sec_vals().push(nanos_encoded(x->Some_0.1 as nat) as int)
            } else {
                old(self).sec_vals()
            },
            final(self).stats().num_values == old(self).stats().num_values + 1,
            final(self).stats().num_present == old(self).stats().num_present + if x is Some {
                1int
            } else {
                0int
            },
    {
        proof {
            assert(old(self).present@.push(x is Some).drop_last() =~= old(self).present@);
        }
        match x {
            Some(v) => {
                self.present.write(true);
                let (secs, nanos): (i64, u32) = v;
                self.data.write(secs - 1420070400);
                self.secondary.write(nanos_encode(nanos));
                self.stripe_stats.update(true);
            },
            None => {
                self.present.write(false);
                self.stripe_stats.update(false);
            },
        }
    }

    /// The PRESENT stream's bytes, empty when the stream is omitted.
    pub open spec fn present_part(&self) -> Seq<u8> {
        if self.stats().spec_has_null() {
            boolean_rle_encode(self.present_bits())
        } else {
            seq![]
        }
    }

    /// The bytes this node appends at stripe flush.
    pub open spec fn stream_bytes(&self) -> Seq<u8> {
        self.present_part() + int_rle_encode(self.data_vals(), true) + int_rle_encode(self.sec_vals(), false)
    }

    /// The stream descriptors this node appends at stripe flush.
    pub open spec fn stream_infos(&self) -> Seq<StreamInfo> {
        (if self.stats().spec_has_null() {
            seq![
                (StreamInfo {
                    kind: StreamKind::Present,
                    column_id: self.cid(),
                    length: self.present_part().len() as u64,
                }),
            ]
        } else {
            seq![]
        }) + seq![
            (StreamInfo {
                kind: StreamKind::Data,
                column_id: self.cid(),
                length: (int_rle_encode(self.data_vals(), true)).len() as u64,
            }),
            (StreamInfo {
                kind: StreamKind::Secondary,
                column_id: self.cid(),
                length: (int_rle_encode(self.sec_vals(), false)).len() as u64,
            }),
        ]
    }

    /// Emits this column's streams: PRESENT exactly when a null was
    /// recorded, then DATA, then SECONDARY, appending one descriptor per
    /// stream written.  The encoders are left empty; the statistics are kept
    /// for the stripe footer and reset separately.
    pub fn write_data_streams(&mut self, out: &mut CountWrite, infos: &mut Vec<StreamInfo>)
        requires
            old(self).wf(),
        ensures
            final(self).wf(),
            final(self).cid() == old(self).cid(),
            final(self).stats() == old(self).stats(),

            final(self).present_bits().len() == 0,
            final(self).data_vals().len() == 0,
            final(self).sec_vals().len() == 0,
            final(self).est() == 0,
            final(out)@ == old(out)@ + old(self).stream_bytes(),
            final(infos)@ == old(infos)@ + old(self).stream_infos(),
    {
        if self.stripe_stats.has_null() {
            let start: usize = out.len();
            self.present.finish(out);
            let plen: usize = out.len() - start;
            infos.push(
                StreamInfo {
                    kind: StreamKind::Present,
                    column_id: self.column_id,
                    length: plen as u64,
                },
            );
        } else {
            self.present = BooleanRLE::new();
        }
        let dstart: usize = out.len();
        self.data.finish(out);
        let dlen: usize = out.len() - dstart;
        infos.push(
            StreamInfo { kind: StreamKind::Data, column_id: self.column_id, length: dlen as u64 },
        );
        let sstart: usize = out.len();
        self.secondary.finish(out);
        let slen: usize = out.len() - sstart;
        infos.push(
            StreamInfo {
                kind: StreamKind::Secondary,
                column_id: self.column_id,
                length: slen as u64,
            },
        );
        proof {
            assert(out@ =~= old(out)@ + old(self).stream_bytes());
            assert(infos@ =~= old(infos)@ + old(self).stream_infos());
        }
    }

    /// The stripe statistics, for the stripe footer.
    pub fn statistics(&self) -> (r: Statistics)
        ensures
            r == (Statistics::Generic(self.stats())),
    {
        Statistics::Generic(self.stripe_stats)
    }

    /// Size estimate of the buffered state.
    pub closed spec fn est(&self) -> nat {
        sat_add(sat_add(self.present.est(), self.data.est()), self.secondary.est())
    }

    /// Buffered bytes of the node's encoders, saturating.
    pub fn estimated_size(&self) -> (r: usize)
        ensures
            r as nat == self.est(),
    {
        self.present.estimated_size().saturating_add(self.data.estimated_size()).saturating_add(
            self.secondary.estimated_size(),
        )
    }

    /// Drops the stripe statistics for the next stripe.
    pub fn reset(&mut self)
        requires
            old(self).wf(),
            old(self).present_bits().len() == 0,
            old(self).data_vals().len() == 0,
            old(self).sec_vals().len() == 0,
        ensures
            final(self).wf(),
            final(self).live(),
            final(self).est() == old(self).est(),
            final(self).cid() == old(self).cid(),

            final(self).present_bits().len() == 0,
            final(self).data_vals().len() == 0,
            final(self).sec_vals().len() == 0,
            final(self).stats().num_values == 0,
            final(self).stats().num_present == 0,
    {
        self.stripe_stats = GenericStatistics::new();
    }
}



/// Data node for a List column: PRESENT, a LENGTH stream of element counts,
/// and the single child column's streams.
pub struct ListData<'a> {
    column_id: u32,
    pub(crate) child: Box<Data<'a>>,
    present: BooleanRLE,
    lengths: UnsignedIntRLEv1,
    stripe_stats: GenericStatistics,
    num_child_values: u64,
}

/// The sum of a length sequence.
pub open spec fn sum_lens(s: Seq<int>) -> int
    decreases s.len(),
{
    if s.len() == 0 {
        0
    } else {
        sum_lens(s.drop_last()) + s.last()
    }
}

impl<'a> ListData<'a> {
    /// This node's preorder column id.
    pub closed spec fn cid(&self) -> u32 {
        self.column_id
    }

    /// The present bits recorded this stripe.
    pub closed spec fn present_bits(&self) -> Seq<bool> {
        self.present@
    }

    /// The element counts recorded this stripe, one per present row.
    pub closed spec fn len_vals(&self) -> Seq<int> {
        self.lengths@
    }

    /// The stripe statistics accumulated so far.
    pub closed spec fn stats(&self) -> GenericStatistics {
        self.stripe_stats
    }

    /// The number of element values the child must have received.
    pub closed spec fn spec_num_child_values(&self) -> u64 {
        self.num_child_values
    }

    /// The child column's node.
    pub closed spec fn spec_child(&self) -> Data<'a> {
        *self.child
    }

    /// Structural invariant of this node alone (the child has its own).
    pub closed spec fn own_wf(&self) -> bool {
        &&& self.present.wf()
        &&& self.lengths.wf()
        &&& self.stripe_stats.wf()
    }

    /// Live invariant of this node alone: statistics count the recorded
    /// rows and the child-value counter is the sum of the lengths.
    pub closed spec fn own_live(&self) -> bool {
        &&& self.stripe_stats.num_values == self.present@.len()
        &&& self.stripe_stats.num_present == count_true(self.present@)
        &&& self.lengths@.len() == self.stripe_stats.num_present
        &&& self.num_child_values == sum_lens(self.lengths@)
        &&& (forall|i: int| 0 <= i < self.lengths@.len() ==> #[trigger] self.lengths@[i] >= 0)
    }

    /// Records one present list of `len` elements; the caller must push
    /// exactly `len` values to the child before the batch closes.
    pub fn write(&mut self, len: u64)
        requires
            old(self).own_wf(),
            old(self).own_live(),
            old(self).stats().num_values < u64::MAX,
            old(self).spec_num_child_values() + len <= u64::MAX,
        ensures
            final(self).own_wf(),
            final(self).own_live(),
            final(self).cid() == old(self).cid(),
            final(self).spec_child() == old(self).spec_child(),
            final(self).present_bits() == old(self).present_bits().push(true),
            final(self).len_vals() == old(self).len_vals().push(len as int),
            final(self).stats().num_values == old(self).stats().num_values + 1,
            final(self).stats().num_present == old(self).stats().num_present + 1,
            final(self).spec_num_child_values() == old(self).spec_num_child_values() + len,
    {
        proof {
            assert(old(self).present@.push(true).drop_last() =~= old(self).present@);
            assert(old(self).lengths@.push(len as int).drop_last() =~= old(self).lengths@);
        }
        self.present.write(true);
        self.lengths.write(len);
        self.num_child_values = self.num_child_values + len;
        self.stripe_stats.update(true);
    }

    /// Records one null list: only a false present bit.
    pub fn write_null(&mut self)
        requires
            old(self).own_wf(),
            old(self).own_live(),
            old(self).stats().num_values < u64::MAX,
        ensures
            final(self).own_wf(),
            final(self).own_live(),
            final(self).cid() == old(self).cid(),
            final(self).spec_child() == old(self).spec_child(),
            final(self).present_bits() == old(self).present_bits().push(false),
            final(self).len_vals() == old(self).len_vals(),
            final(self).stats().num_values == old(self).stats().num_values + 1,
            final(self).stats().num_present == old(self).stats().num_present,
            final(self).spec_num_child_values() == old(self).spec_num_child_values(),
    {
        proof {
            assert(old(self).present@.push(false).drop_last() =~= old(self).present@);
        }
        self.present.write(false);
        self.stripe_stats.update(false);
    }

    /// The child column's node.
    pub fn child(&mut self) -> (c: &mut Data<'a>)
        ensures
            *c == old(self).spec_child(),
            final(self).spec_child() == *final(c),
            final(self).cid() == old(self).cid(),
            final(self).present_bits() == old(self).present_bits(),
            final(self).len_vals() == old(self).len_vals(),
            final(self).stats() == old(self).stats(),
            final(self).spec_num_child_values() == old(self).spec_num_child_values(),
            final(self).own_wf() == old(self).own_wf(),
            final(self).own_live() == old(self).own_live(),
    {
        &mut self.child
    }

    /// This node's preorder column id.
    pub fn column_id(&self) -> (r: u32)
        ensures
            r == self.cid(),
    {
        self.column_id
    }

    /// The PRESENT stream's bytes, empty when the stream is omitted.
    pub open spec fn present_part(&self) -> Seq<u8> {
        if self.stats().spec_has_null() {
            boolean_rle_encode(self.present_bits())
        } else {
            seq![]
        }
    }

    /// The bytes of this node's own streams (PRESENT and LENGTH).
    pub open spec fn own_stream_bytes(&self) -> Seq<u8> {
        self.present_part() + int_rle_encode(self.len_vals(), false)
    }

    /// This node's own stream descriptors.
    pub open spec fn own_stream_infos(&self) -> Seq<StreamInfo> {
        (if self.stats().spec_has_null() {
            seq![
                (StreamInfo {
                    kind: StreamKind::Present,
                    column_id: self.cid(),
                    length: self.present_part().len() as u64,
                }),
            ]
        } else {
            seq![]
        }) + seq![
            (StreamInfo {
                kind: StreamKind::Length,
                column_id: self.cid(),
                length: int_rle_encode(self.len_vals(), false).len() as u64,
            }),
        ]
    }

    /// Size estimate of this node's own buffered state.
    pub closed spec fn own_est(&self) -> nat {
        sat_add(self.present.est(), self.lengths.est())
    }

    /// Emits PRESENT (when a null was recorded) and LENGTH; the child's
    /// streams follow through the tree walk.
    fn emit_own_streams(&mut self, out: &mut CountWrite, infos: &mut Vec<StreamInfo>)
        requires
            old(self).own_wf(),
        ensures
            final(self).own_wf(),
            final(self).cid() == old(self).cid(),
            final(self).stats() == old(self).stats(),
            final(self).spec_child() == old(self).spec_child(),
            final(self).spec_num_child_values() == old(self).spec_num_child_values(),
            final(self).present_bits().len() == 0,
            final(self).len_vals().len() == 0,
            final(self).own_est() == 0,
            final(out)@ == old(out)@ + old(self).own_stream_bytes(),
            final(infos)@ == old(infos)@ + old(self).own_stream_infos(),
    {
        if self.stripe_stats.has_null() {
            let start: usize = out.len();
            self.present.finish(out);
            let plen: usize = out.len() - start;
            infos.push(
                StreamInfo {
                    kind: StreamKind::Present,
                    column_id: self.column_id,
                    length: plen as u64,
                },
            );
        } else {
            self.present = BooleanRLE::new();
        }
        let lstart: usize = out.len();
        self.lengths.finish(out);
        let llen: usize = out.len() - lstart;
        infos.push(
            StreamInfo {
                kind: StreamKind::Length,
                column_id: self.column_id,
                length: llen as u64,
            },
        );
        proof {
            assert(out@ =~= old(out)@ + old(self).own_stream_bytes());
            assert(infos@ =~= old(infos)@ + old(self).own_stream_infos());
        }
    }
}

/// Data node for a Struct column: PRESENT plus the children's streams.
pub struct StructData<'a> {
    column_id: u32,
    fields: &'a Vec<Field>,
    pub(crate) children: Vec<Data<'a>>,
    present: BooleanRLE,
    stripe_stats: GenericStatistics,
}

impl<'a> StructData<'a> {
    /// This node's preorder column id.
    pub closed spec fn cid(&self) -> u32 {
        self.column_id
    }

    /// The present bits recorded this stripe.
    pub closed spec fn present_bits(&self) -> Seq<bool> {
        self.present@
    }

    /// The stripe statistics accumulated so far.
    pub closed spec fn stats(&self) -> GenericStatistics {
        self.stripe_stats
    }

    /// The declared fields this node was built from.
    pub closed spec fn spec_fields(&self) -> Seq<Field> {
        self.fields@
    }

    /// The children, one per field, in field order.
    pub closed spec fn spec_children(&self) -> Seq<Data<'a>> {
        self.children@
    }

    /// Structural invariant of this node alone (children have their own).
    pub closed spec fn own_wf(&self) -> bool {
        &&& self.present.wf()
        &&& self.stripe_stats.wf()
    }

    /// Live invariant of this node alone.
    pub closed spec fn own_live(&self) -> bool {
        &&& self.stripe_stats.num_values == self.present@.len()
        &&& self.stripe_stats.num_present == count_true(self.present@)
    }

    /// The declared fields.
    pub fn fields(&self) -> (r: &'a [Field])
        ensures
            r@ == self.spec_fields(),
    {
        self.fields.as_slice()
    }

    /// The children, one node per field, in field order.
    pub fn children(&mut self) -> (cs: &mut Vec<Data<'a>>)
        ensures
            cs@ == old(self).spec_children(),
            final(self).spec_children() == final(cs)@,
            final(self).cid() == old(self).cid(),
            final(self).present_bits() == old(self).present_bits(),
            final(self).stats() == old(self).stats(),
            final(self).spec_fields() == old(self).spec_fields(),
            final(self).own_wf() == old(self).own_wf(),
            final(self).own_live() == old(self).own_live(),
    {
        &mut self.children
    }

    /// The i-th child's node.
    pub fn child(&mut self, i: usize) -> (c: &mut Data<'a>)
        requires
            i < old(self).spec_children().len(),
        ensures
            *c == old(self).spec_children()[i as int],
            final(self).spec_children() == old(self).spec_children().update(i as int, *final(c)),
            final(self).cid() == old(self).cid(),
            final(self).present_bits() == old(self).present_bits(),
            final(self).stats() == old(self).stats(),
            final(self).spec_fields() == old(self).spec_fields(),
            final(self).own_wf() == old(self).own_wf(),
            final(self).own_live() == old(self).own_live(),
    {
        &mut self.children[i]
    }

    /// Records one row: a true bit for a present row, false for a null row.
    /// Children receive values only for present rows.
    pub fn write(&mut self, present: bool)
        requires
            old(self).own_wf(),
            old(self).own_live(),
            old(self).stats().num_values < u64::MAX,
        ensures
            final(self).own_wf(),
            final(self).own_live(),
            final(self).cid() == old(self).cid(),
            final(self).spec_children() == old(self).spec_children(),
            final(self).spec_fields() == old(self).spec_fields(),
            final(self).present_bits() == old(self).present_bits().push(present),
            final(self).stats().num_values == old(self).stats().num_values + 1,
            final(self).stats().num_present == old(self).stats().num_present + if present {
                1int
            } else {
                0int
            },
    {
        proof {
            assert(old(self).present@.push(present).drop_last() =~= old(self).present@);
        }
        self.present.write(present);
        self.stripe_stats.update(present);
    }

    /// This node's preorder column id.
    pub fn column_id(&self) -> (r: u32)
        ensures
            r == self.cid(),
    {
        self.column_id
    }

    /// The PRESENT stream's bytes, empty when the stream is omitted.
    pub open spec fn present_part(&self) -> Seq<u8> {
        if self.stats().spec_has_null() {
            boolean_rle_encode(self.present_bits())
        } else {
            seq![]
        }
    }

    /// This node's own stream descriptors (PRESENT only, when kept).
    pub open spec fn own_stream_infos(&self) -> Seq<StreamInfo> {
        if self.stats().spec_has_null() {
            seq![
                (StreamInfo {
                    kind: StreamKind::Present,
                    column_id: self.cid(),
                    length: self.present_part().len() as u64,
                }),
            ]
        } else {
            seq![]
        }
    }

    /// Size estimate of this node's own buffered state.
    pub closed spec fn own_est(&self) -> nat {
        self.present.est()
    }

    /// Emits PRESENT when a null was recorded; the children's streams
    /// follow through the tree walk.
    fn emit_own_streams(&mut self, out: &mut CountWrite, infos: &mut Vec<StreamInfo>)
        requires
            old(self).own_wf(),
        ensures
            final(self).own_wf(),
            final(self).cid() == old(self).cid(),
            final(self).stats() == old(self).stats(),
            final(self).spec_children() == old(self).spec_children(),
            final(self).spec_fields() == old(self).spec_fields(),
            final(self).present_bits().len() == 0,
            final(self).own_est() == 0,
            final(out)@ == old(out)@ + old(self).present_part(),
            final(infos)@ == old(infos)@ + old(self).own_stream_infos(),
    {
        if self.stripe_stats.has_null() {
            let start: usize = out.len();
            self.present.finish(out);
            let plen: usize = out.len() - start;
            infos.push(
                StreamInfo {
                    kind: StreamKind::Present,
                    column_id: self.column_id,
                    length: plen as u64,
                },
            );
        } else {
            self.present = BooleanRLE::new();
        }
        proof {
            assert(out@ =~= old(out)@ + old(self).present_part());
            assert(infos@ =~= old(infos)@ + old(self).own_stream_infos());
        }
    }
}


/// The data tree: one node per column, tagged by the column's type.
pub enum Data<'a> {
    Boolean(BooleanData),
    Byte(ByteData),
    Long(LongData),
    Float(FloatData),
    Double(DoubleData),
    String(StringData),
    Binary(BinaryData),
    Timestamp(TimestampData),
    Decimal64(Decimal64Data),
    List(ListData<'a>),
    Struct(StructData<'a>),
}

/// The preorder column id of a node.
pub open spec fn data_cid<'a>(d: Data<'a>) -> u32 {
    match d {
        Data::Boolean(n) => n.cid(),
        Data::Byte(n) => n.cid(),
        Data::Long(n) => n.cid(),
        Data::Float(n) => n.cid(),
        Data::Double(n) => n.cid(),
        Data::String(n) => n.cid(),
        Data::Binary(n) => n.cid(),
        Data::Timestamp(n) => n.cid(),
        Data::Decimal64(n) => n.cid(),
        Data::List(n) => n.cid(),
        Data::Struct(n) => n.cid(),
    }
}

/// The number of values this node's statistics have counted.
pub open spec fn data_num_values<'a>(d: Data<'a>) -> nat {
    match d {
        Data::Boolean(n) => n.stats().num_values as nat,
        Data::Byte(n) => n.stats().counts.num_values as nat,
        Data::Long(n) => n.stats().counts.num_values as nat,
        Data::Float(n) => n.stats().num_values as nat,
        Data::Double(n) => n.stats().num_values as nat,
        Data::String(n) => n.stats().num_values as nat,
        Data::Binary(n) => n.stats().num_values as nat,
        Data::Timestamp(n) => n.stats().num_values as nat,
        Data::Decimal64(n) => n.stats().longs.counts.num_values as nat,
        Data::List(n) => n.stats().num_values as nat,
        Data::Struct(n) => n.stats().num_values as nat,
    }
}

/// The number of present values this node's statistics have counted.
pub open spec fn data_num_present<'a>(d: Data<'a>) -> nat {
    match d {
        Data::Boolean(n) => n.stats().num_present as nat,
        Data::Byte(n) => n.stats().counts.num_present as nat,
        Data::Long(n) => n.stats().counts.num_present as nat,
        Data::Float(n) => n.stats().num_present as nat,
        Data::Double(n) => n.stats().num_present as nat,
        Data::String(n) => n.stats().num_present as nat,
        Data::Binary(n) => n.stats().num_present as nat,
        Data::Timestamp(n) => n.stats().num_present as nat,
        Data::Decimal64(n) => n.stats().longs.counts.num_present as nat,
        Data::List(n) => n.stats().num_present as nat,
        Data::Struct(n) => n.stats().num_present as nat,
    }
}

/// The number of columns in the subtree: this node plus its descendants.
pub open spec fn data_count<'a>(d: Data<'a>) -> nat
    decreases d,
{
    match d {
        Data::List(n) => 1 + data_count(n.spec_child()),
        Data::Struct(n) => 1 + childs_count(n.spec_children()),
        _ => 1,
    }
}

/// Columns contributed by a sequence of children.
pub open spec fn childs_count<'a>(cs: Seq<Data<'a>>) -> nat
    decreases cs,
{
    if cs.len() == 0 {
        0
    } else {
        childs_count(cs.drop_last()) + data_count(cs.last())
    }
}

/// Structural invariant of a subtree: every node's encoders and statistics
/// are consistent and the column ids are the depth-first preorder numbering.
pub open spec fn data_wf<'a>(d: Data<'a>) -> bool
    decreases d,
{
    match d {
        Data::Boolean(n) => n.wf(),
        Data::Byte(n) => n.wf(),
        Data::Long(n) => n.wf(),
        Data::Float(n) => n.wf(),
        Data::Double(n) => n.wf(),
        Data::String(n) => n.wf(),
        Data::Binary(n) => n.wf(),
        Data::Timestamp(n) => n.wf(),
        Data::Decimal64(n) => n.wf(),
        Data::List(n) => n.own_wf() && data_wf(n.spec_child()) && data_cid(n.spec_child()) == n.cid() as int
            + 1,
        Data::Struct(n) => n.own_wf() && n.spec_children().len() == n.spec_fields().len()
            && childs_wf(n.spec_children(), n.cid() as int + 1),
    }
}

/// Children in order, each well-formed, ids contiguous from `next`.
pub open spec fn childs_wf<'a>(cs: Seq<Data<'a>>, next: int) -> bool
    decreases cs,
{
    if cs.len() == 0 {
        true
    } else {
        &&& childs_wf(cs.drop_last(), next)
        &&& data_wf(cs.last())
        &&& data_cid(cs.last()) == next + childs_count(cs.drop_last())
    }
}

/// A well-formed prefix of a well-formed child sequence.
pub proof fn lemma_childs_wf_prefix<'a>(cs: Seq<Data<'a>>, next: int, i: int)
    requires
        childs_wf(cs, next),
        0 <= i <= cs.len(),
    ensures
        childs_wf(cs.take(i), next),
    decreases cs.len(),
{
    if i < cs.len() {
        assert(cs.drop_last().take(i) =~= cs.take(i));
        lemma_childs_wf_prefix(cs.drop_last(), next, i);
    } else {
        assert(cs.take(i) =~= cs);
    }
}

/// A member's subtree is no larger than the whole sequence's.
pub proof fn lemma_childs_count_member<'a>(cs: Seq<Data<'a>>, i: int)
    requires
        0 <= i < cs.len(),
    ensures
        data_count(cs[i]) <= childs_count(cs),
    decreases cs.len(),
{
    if i < cs.len() - 1 {
        assert(cs.drop_last()[i] == cs[i]);
        lemma_childs_count_member(cs.drop_last(), i);
    }
}

/// Live invariant of a subtree: every node's statistics count exactly the
/// values recorded since the last reset.
pub open spec fn data_live<'a>(d: Data<'a>) -> bool
    decreases d,
{
    match d {
        Data::Boolean(n) => n.live(),
        Data::Byte(n) => n.live(),
        Data::Long(n) => n.live(),
        Data::Float(n) => n.live(),
        Data::Double(n) => n.live(),
        Data::String(n) => n.live(),
        Data::Binary(n) => n.live(),
        Data::Timestamp(n) => n.live(),
        Data::Decimal64(n) => n.live(),
        Data::List(n) => n.own_live() && data_live(n.spec_child()),
        Data::Struct(n) => n.own_live() && childs_live(n.spec_children()),
    }
}

/// All children live.
pub open spec fn childs_live<'a>(cs: Seq<Data<'a>>) -> bool
    decreases cs,
{
    if cs.len() == 0 {
        true
    } else {
        childs_live(cs.drop_last()) && data_live(cs.last())
    }
}

/// The stripe-closure row-count invariant: this node counted `expected`
/// values; each Struct child counted the parent's present rows; a List
/// child counted the sum of the recorded lengths.
pub open spec fn data_counts_ok<'a>(d: Data<'a>, expected: int) -> bool
    decreases d,
{
    &&& data_num_values(d) == expected
    &&& match d {
        Data::List(n) => data_counts_ok(n.spec_child(), n.spec_num_child_values() as int),
        Data::Struct(n) => childs_counts_ok(n.spec_children(), n.stats().num_present as int),
        _ => true,
    }
}

/// All children satisfy the row-count invariant against `expected`.
pub open spec fn childs_counts_ok<'a>(cs: Seq<Data<'a>>, expected: int) -> bool
    decreases cs,
{
    if cs.len() == 0 {
        true
    } else {
        childs_counts_ok(cs.drop_last(), expected) && data_counts_ok(cs.last(), expected)
    }
}

/// Every column's statistics are freshly zero: no values counted and no
/// present entries anywhere in the subtree, and no pending child-value debt
/// on a List — the state of a new tree and of one just reset.
pub open spec fn data_zeroed<'a>(d: Data<'a>) -> bool
    decreases d,
{
    &&& data_num_values(d) == 0
    &&& data_num_present(d) == 0
    &&& match d {
        Data::List(n) => n.spec_num_child_values() == 0 && data_zeroed(n.spec_child()),
        Data::Struct(n) => childs_zeroed(n.spec_children()),
        _ => true,
    }
}

/// All children freshly zero.
pub open spec fn childs_zeroed<'a>(cs: Seq<Data<'a>>) -> bool
    decreases cs,
{
    if cs.len() == 0 {
        true
    } else {
        childs_zeroed(cs.drop_last()) && data_zeroed(cs.last())
    }
}

/// Every encoder of the subtree is empty: the state right after a flush.
pub open spec fn data_flushed<'a>(d: Data<'a>) -> bool
    decreases d,
{
    match d {
        Data::Boolean(n) => n.present_bits().len() == 0 && n.data_vals().len() == 0,
        Data::Byte(n) => n.present_bits().len() == 0 && n.data_vals().len() == 0,
        Data::Long(n) => n.present_bits().len() == 0 && n.data_vals().len() == 0,
        Data::Float(n) => n.present_bits().len() == 0 && n.data_vals().len() == 0,
        Data::Double(n) => n.present_bits().len() == 0 && n.data_vals().len() == 0,
        Data::String(n) => n.present_bits().len() == 0 && n.data_vals().len() == 0
            && n.sec_vals().len() == 0,
        Data::Binary(n) => n.present_bits().len() == 0 && n.data_vals().len() == 0
            && n.sec_vals().len() == 0,
        Data::Timestamp(n) => n.present_bits().len() == 0 && n.data_vals().len() == 0
            && n.sec_vals().len() == 0,
        Data::Decimal64(n) => n.present_bits().len() == 0 && n.data_vals().len() == 0
            && n.sec_vals().len() == 0,
        Data::List(n) => n.present_bits().len() == 0 && n.len_vals().len() == 0 && data_flushed(
            n.spec_child(),
        ),
        Data::Struct(n) => n.present_bits().len() == 0 && childs_flushed(n.spec_children()),
    }
}

/// All children flushed.
pub open spec fn childs_flushed<'a>(cs: Seq<Data<'a>>) -> bool
    decreases cs,
{
    if cs.len() == 0 {
        true
    } else {
        childs_flushed(cs.drop_last()) && data_flushed(cs.last())
    }
}

/// The bytes the subtree appends at stripe flush, in preorder, each node's
/// streams in the order PRESENT, DATA, LENGTH, SECONDARY.
pub open spec fn data_stream_bytes<'a>(d: Data<'a>) -> Seq<u8>
    decreases d,
{
    match d {
        Data::Boolean(n) => n.stream_bytes(),
        Data::Byte(n) => n.stream_bytes(),
        Data::Long(n) => n.stream_bytes(),
        Data::Float(n) => n.stream_bytes(),
        Data::Double(n) => n.stream_bytes(),
        Data::String(n) => n.stream_bytes(),
        Data::Binary(n) => n.stream_bytes(),
        Data::Timestamp(n) => n.stream_bytes(),
        Data::Decimal64(n) => n.stream_bytes(),
        Data::List(n) => n.own_stream_bytes() + data_stream_bytes(n.spec_child()),
        Data::Struct(n) => n.present_part() + childs_stream_bytes(n.spec_children()),
    }
}

/// The children's flush bytes, in order.
pub open spec fn childs_stream_bytes<'a>(cs: Seq<Data<'a>>) -> Seq<u8>
    decreases cs,
{
    if cs.len() == 0 {
        seq![]
    } else {
        childs_stream_bytes(cs.drop_last()) + data_stream_bytes(cs.last())
    }
}

/// The stream descriptors the subtree appends at stripe flush.
pub open spec fn data_stream_infos<'a>(d: Data<'a>) -> Seq<StreamInfo>
    decreases d,
{
    match d {
        Data::Boolean(n) => n.stream_infos(),
        Data::Byte(n) => n.stream_infos(),
        Data::Long(n) => n.stream_infos(),
        Data::Float(n) => n.stream_infos(),
        Data::Double(n) => n.stream_infos(),
        Data::String(n) => n.stream_infos(),
        Data::Binary(n) => n.stream_infos(),
        Data::Timestamp(n) => n.stream_infos(),
        Data::Decimal64(n) => n.stream_infos(),
        Data::List(n) => n.own_stream_infos() + data_stream_infos(n.spec_child()),
        Data::Struct(n) => n.own_stream_infos() + childs_stream_infos(n.spec_children()),
    }
}

/// The children's stream descriptors, in order.
pub open spec fn childs_stream_infos<'a>(cs: Seq<Data<'a>>) -> Seq<StreamInfo>
    decreases cs,
{
    if cs.len() == 0 {
        seq![]
    } else {
        childs_stream_infos(cs.drop_last()) + data_stream_infos(cs.last())
    }
}

/// The subtree's statistics, one entry per column in preorder.
pub open spec fn data_stats_seq<'a>(d: Data<'a>) -> Seq<Statistics>
    decreases d,
{
    match d {
        Data::Boolean(n) => seq![(Statistics::Generic(n.stats()))],
        Data::Byte(n) => seq![(Statistics::Long(n.stats()))],
        Data::Long(n) => seq![(Statistics::Long(n.stats()))],
        Data::Float(n) => seq![(Statistics::Generic(n.stats()))],
        Data::Double(n) => seq![(Statistics::Generic(n.stats()))],
        Data::String(n) => seq![(Statistics::Binary(n.stats()))],
        Data::Binary(n) => seq![(Statistics::Binary(n.stats()))],
        Data::Timestamp(n) => seq![(Statistics::Generic(n.stats()))],
        Data::Decimal64(n) => seq![(Statistics::Decimal64(n.stats()))],
        Data::List(n) => seq![(Statistics::Generic(n.stats()))] + data_stats_seq(n.spec_child()),
        Data::Struct(n) => seq![(Statistics::Generic(n.stats()))] + childs_stats_seq(n.spec_children()),
    }
}

/// The children's statistics, in order.
pub open spec fn childs_stats_seq<'a>(cs: Seq<Data<'a>>) -> Seq<Statistics>
    decreases cs,
{
    if cs.len() == 0 {
        seq![]
    } else {
        childs_stats_seq(cs.drop_last()) + data_stats_seq(cs.last())
    }
}

/// The subtree's buffered-size estimate, saturating at the machine word.
pub open spec fn data_est<'a>(d: Data<'a>) -> nat
    decreases d,
{
    match d {
        Data::Boolean(n) => n.est(),
        Data::Byte(n) => n.est(),
        Data::Long(n) => n.est(),
        Data::Float(n) => n.est(),
        Data::Double(n) => n.est(),
        Data::String(n) => n.est(),
        Data::Binary(n) => n.est(),
        Data::Timestamp(n) => n.est(),
        Data::Decimal64(n) => n.est(),
        Data::List(n) => sat_add(n.own_est(), data_est(n.spec_child())),
        Data::Struct(n) => sat_add(n.own_est(), childs_est(n.spec_children())),
    }
}

/// The children's estimates, summed saturating.
pub open spec fn childs_est<'a>(cs: Seq<Data<'a>>) -> nat
    decreases cs,
{
    if cs.len() == 0 {
        0
    } else {
        sat_add(childs_est(cs.drop_last()), data_est(cs.last()))
    }
}

impl<'a> Data<'a> {
    /// Builds the node tree for a schema, assigning preorder column ids
    /// starting at `*column_id` and leaving the counter one past the
    /// subtree's last id.  Every node starts well-formed, live and empty.
    pub fn new(schema: &'a Schema, column_id: &mut u32) -> (r: Data<'a>)
        requires
            *old(column_id) + schema_columns(*schema) <= u32::MAX,
        ensures
            data_wf(r),
            data_live(r),
            data_flushed(r),
            data_fits(r, *schema),
            data_counts_ok(r, 0),
            data_zeroed(r),
            data_num_values(r) == 0,
            data_num_present(r) == 0,
            data_cid(r) == *old(column_id),
            data_count(r) == schema_columns(*schema),
            *final(column_id) == *old(column_id) + schema_columns(*schema),
        decreases schema_columns(*schema),
    {
        let cid: u32 = *column_id;
        *column_id = *column_id + 1;
        match schema {
            Schema::Boolean => Data::Boolean(BooleanData::new(cid)),
            Schema::Byte => Data::Byte(ByteData::new(cid)),
            Schema::Short => Data::Long(LongData::new(cid)),
            Schema::Int => Data::Long(LongData::new(cid)),
            Schema::Long => Data::Long(LongData::new(cid)),
            Schema::Float => Data::Float(FloatData::new(cid)),
            Schema::Double => Data::Double(DoubleData::new(cid)),
            Schema::String => Data::String(StringData::new(cid)),
            Schema::Binary => Data::Binary(BinaryData::new(cid)),
            Schema::Date => Data::Long(LongData::new(cid)),
            Schema::Timestamp => Data::Timestamp(TimestampData::new(cid)),
            Schema::Decimal(p, sc) => Data::Decimal64(Decimal64Data::new(cid, *p, *sc)),
            Schema::List(c) => {
                let child = Data::new(c, column_id);
                Data::List(
                    ListData {
                        column_id: cid,
                        child: Box::new(child),
                        present: BooleanRLE::new(),
                        lengths: UnsignedIntRLEv1::new(),
                        stripe_stats: GenericStatistics::new(),
                        num_child_values: 0,
                    },
                )
            },
            Schema::Struct(fs) => {
                let mut children: Vec<Data<'a>> = Vec::new();
                let mut i: usize = 0;
                while i < fs.len()
                    invariant
                        i <= fs.len(),
                        children@.len() == i,
                        childs_wf(children@, cid as int + 1),
                        childs_fit(children@, fs@),
                        childs_live(children@),
                        childs_flushed(children@),
                        childs_zeroed(children@),
                        childs_counts_ok(children@, 0),
                        childs_count(children@) == fields_columns(fs@.take(i as int)),
                        *column_id == cid + 1 + childs_count(children@),
                        schema_columns(*schema) == 1 + fields_columns(fs@),
                        cid as int + schema_columns(*schema) <= u32::MAX,
                        fields_columns(fs@.take(i as int)) <= fields_columns(fs@),
                    decreases fs.len() - i,
                {
                    proof {
                        lemma_fields_columns_member(fs@, i as int);
                        lemma_fields_columns_take_step(fs@, i as int);
                    }
                    let ghost cs_prev = children@;
                    let c = Data::new(&fs[i].1, column_id);
                    children.push(c);
                    proof {
                        assert(children@.drop_last() =~= cs_prev);
                    }
                    i = i + 1;
                }
                proof {
                    assert(fs@.take(fs@.len() as int) =~= fs@);
                }
                Data::Struct(
                    StructData {
                        column_id: cid,
                        fields: fs,
                        children,
                        present: BooleanRLE::new(),
                        stripe_stats: GenericStatistics::new(),
                    },
                )
            },
        }
    }

    /// This node's preorder column id.
    pub fn column_id(&self) -> (r: u32)
        ensures
            r == data_cid(*self),
    {
        match self {
            Data::Boolean(n) => n.column_id,
            Data::Byte(n) => n.column_id,
            Data::Long(n) => n.column_id,
            Data::Float(n) => n.column_id,
            Data::Double(n) => n.column_id,
            Data::String(n) => n.column_id,
            Data::Binary(n) => n.column_id,
            Data::Timestamp(n) => n.column_id,
            Data::Decimal64(n) => n.column_id,
            Data::List(n) => n.column_id,
            Data::Struct(n) => n.column_id,
        }
    }
}

/// A step of taking one more field keeps the running column total.
pub proof fn lemma_fields_columns_take_step(fs: Seq<Field>, i: int)
    requires
        0 <= i < fs.len(),
    ensures
        fields_columns(fs.take(i + 1)) == fields_columns(fs.take(i)) + schema_columns(fs[i].1),
        fields_columns(fs.take(i + 1)) <= fields_columns(fs),
{
    assert(fs.take(i + 1) =~= fs.take(i).push(fs[i]));
    crate::schema::lemma_fields_columns_push(fs.take(i), fs[i]);
    lemma_fields_columns_prefix(fs, i + 1);
}

/// A prefix contributes at most the whole sequence's columns.
pub proof fn lemma_fields_columns_prefix(fs: Seq<Field>, i: int)
    requires
        0 <= i <= fs.len(),
    ensures
        fields_columns(fs.take(i)) <= fields_columns(fs),
    decreases fs.len() - i,
{
    if i < fs.len() {
        lemma_fields_columns_take_step_only(fs, i);
        lemma_fields_columns_prefix(fs, i + 1);
    } else {
        assert(fs.take(i) =~= fs);
    }
}

/// The equation of `lemma_fields_columns_take_step` alone.
pub proof fn lemma_fields_columns_take_step_only(fs: Seq<Field>, i: int)
    requires
        0 <= i < fs.len(),
    ensures
        fields_columns(fs.take(i + 1)) == fields_columns(fs.take(i)) + schema_columns(fs[i].1),
{
    assert(fs.take(i + 1) =~= fs.take(i).push(fs[i]));
    crate::schema::lemma_fields_columns_push(fs.take(i), fs[i]);
}



/// A member of a flushed child sequence is flushed.
pub proof fn lemma_childs_flushed_member<'a>(cs: Seq<Data<'a>>, i: int)
    requires
        childs_flushed(cs),
        0 <= i < cs.len(),
    ensures
        data_flushed(cs[i]),
    decreases cs.len(),
{
    if i < cs.len() - 1 {
        assert(cs.drop_last()[i] == cs[i]);
        lemma_childs_flushed_member(cs.drop_last(), i);
    }
}


/// The statistics list has exactly one entry per column.
pub proof fn lemma_stats_seq_len<'a>(d: Data<'a>)
    ensures
        data_stats_seq(d).len() == data_count(d),
    decreases d,
{
    match d {
        Data::List(l) => {
            lemma_stats_seq_len(*l.child);
        },
        Data::Struct(s) => {
            lemma_childs_stats_seq_len(s.children@);
        },
        _ => {},
    }
}

/// The children's statistics list has one entry per column.
pub proof fn lemma_childs_stats_seq_len<'a>(cs: Seq<Data<'a>>)
    ensures
        childs_stats_seq(cs).len() == childs_count(cs),
    decreases cs,
{
    if cs.len() > 0 {
        lemma_childs_stats_seq_len(cs.drop_last());
        lemma_stats_seq_len(cs.last());
    }
}


/// True bits never outnumber the bits.
pub proof fn lemma_count_true_bound(s: Seq<bool>)
    ensures
        count_true(s) <= s.len(),
        count_true(s) == s.len() <==> (forall|i: int| 0 <= i < s.len() ==> s[i]),
    decreases s.len(),
{
    if s.len() > 0 {
        lemma_count_true_bound(s.drop_last());
        assert(forall|i: int| 0 <= i < s.len() - 1 ==> s.drop_last()[i] == s[i]);
        if count_true(s) == s.len() {
            assert(forall|i: int| 0 <= i < s.len() ==> s[i]) by {
                assert(count_true(s.drop_last()) == s.drop_last().len());
            };
        }
    }
}

/// PRESENT omission: a column whose statistics count its recorded present
/// bits reports a null — and so keeps its PRESENT stream at stripe flush —
/// exactly when some null was written to it in the stripe.
pub proof fn lemma_present_omission(bits: Seq<bool>, num_values: u64, num_present: u64)
    ensures
        num_values == bits.len() && num_present == count_true(bits) ==> ((num_values
            != num_present) <==> (exists|i: int| 0 <= i < bits.len() && !bits[i])),
{
    lemma_count_true_bound(bits);
    if num_values == bits.len() && num_present == count_true(bits) {
        if num_values != num_present {
            assert(!(forall|i: int| 0 <= i < bits.len() ==> bits[i]));
            assert(exists|i: int| 0 <= i < bits.len() && !bits[i]);
        } else {
            assert(forall|i: int| 0 <= i < bits.len() ==> bits[i]);
        }
    }
}


/// The node tree a schema asks for: the variants correspond, a Decimal
/// node carries the declared precision and scale, and a Struct's children
/// match its fields one to one, in order.
pub open spec fn data_fits<'a>(d: Data<'a>, s: Schema) -> bool
    decreases d,
{
    match d {
        Data::Boolean(_) => s is Boolean,
        Data::Byte(_) => s is Byte,
        Data::Long(_) => s is Short || s is Int || s is Long || s is Date,
        Data::Float(_) => s is Float,
        Data::Double(_) => s is Double,
        Data::String(_) => s is String,
        Data::Binary(_) => s is Binary,
        Data::Timestamp(_) => s is Timestamp,
        Data::Decimal64(n) => s matches Schema::Decimal(p, sc) && n.spec_precision() == p
            && n.spec_scale() == sc,
        Data::List(n) => s matches Schema::List(c) && data_fits(n.spec_child(), *c),
        Data::Struct(n) => s matches Schema::Struct(fs) && n.spec_fields() == fs@
            && n.spec_children().len() == fs@.len() && childs_fit(n.spec_children(), fs@),
    }
}

/// Children built for a prefix of the fields, each fitting its field's type.
pub open spec fn childs_fit<'a>(cs: Seq<Data<'a>>, fs: Seq<Field>) -> bool
    decreases cs,
{
    if cs.len() == 0 {
        true
    } else {
        &&& cs.len() <= fs.len()
        &&& childs_fit(cs.drop_last(), fs)
        &&& data_fits(cs.last(), fs[cs.len() - 1].1)
    }
}


/// Two trees of the same shape: variants, Decimal parameters, Struct fields
/// and child counts all agree, recursively.  Flushing and resetting keep
/// the shape, so a tree that fits its schema still fits it afterwards.
pub open spec fn data_same_kind<'a>(a: Data<'a>, b: Data<'a>) -> bool
    decreases a,
{
    match a {
        Data::Boolean(_) => b is Boolean,
        Data::Byte(_) => b is Byte,
        Data::Long(_) => b is Long,
        Data::Float(_) => b is Float,
        Data::Double(_) => b is Double,
        Data::String(_) => b is String,
        Data::Binary(_) => b is Binary,
        Data::Timestamp(_) => b is Timestamp,
        Data::Decimal64(x) => b matches Data::Decimal64(y) && y.spec_precision()
            == x.spec_precision() && y.spec_scale() == x.spec_scale(),
        Data::List(x) => b matches Data::List(y) && data_same_kind(x.spec_child(), y.spec_child()),
        Data::Struct(x) => b matches Data::Struct(y) && y.spec_fields() == x.spec_fields()
            && childs_same_kind(x.spec_children(), y.spec_children()),
    }
}

/// Child sequences of the same shape, element by element.
pub open spec fn childs_same_kind<'a>(a: Seq<Data<'a>>, b: Seq<Data<'a>>) -> bool
    decreases a,
{
    &&& a.len() == b.len()
    &&& (a.len() == 0 || (childs_same_kind(a.drop_last(), b.drop_last()) && data_same_kind(
        a.last(),
        b.last(),
    )))
}

/// A tree of the same shape as one that fits a schema fits it too.
pub proof fn lemma_same_kind_fits<'a>(a: Data<'a>, b: Data<'a>, s: Schema)
    requires
        data_same_kind(a, b),
        data_fits(a, s),
    ensures
        data_fits(b, s),
    decreases a,
{
    match a {
        Data::List(x) => match b {
            Data::List(y) => match s {
                Schema::List(c) => {
                    lemma_same_kind_fits(*x.child, *y.child, *c);
                },
                _ => {},
            },
            _ => {},
        },
        Data::Struct(x) => match b {
            Data::Struct(y) => match s {
                Schema::Struct(fs) => {
                    lemma_childs_same_kind_fit(x.children@, y.children@, fs@);
                },
                _ => {},
            },
            _ => {},
        },
        _ => {},
    }
}

/// Child sequences of the same shape fit the same fields.
pub proof fn lemma_childs_same_kind_fit<'a>(a: Seq<Data<'a>>, b: Seq<Data<'a>>, fs: Seq<Field>)
    requires
        childs_same_kind(a, b),
        childs_fit(a, fs),
    ensures
        childs_fit(b, fs),
    decreases a,
{
    if a.len() > 0 {
        lemma_childs_same_kind_fit(a.drop_last(), b.drop_last(), fs);
        lemma_same_kind_fits(a.last(), b.last(), fs[a.len() - 1].1);
    }
}

/// Stripe closure, column by column: when the row-count invariant holds of
/// a Struct's children against the parent's present count, it holds of each
/// child alone — each descendant of a Struct counted `expected` values.
pub proof fn lemma_counts_ok_member<'a>(cs: Seq<Data<'a>>, expected: int, i: int)
    requires
        childs_counts_ok(cs, expected),
        0 <= i < cs.len(),
    ensures
        data_counts_ok(cs[i], expected),
        data_num_values(cs[i]) == expected,
    decreases cs.len(),
{
    if i < cs.len() - 1 {
        assert(cs.drop_last()[i] == cs[i]);
        lemma_counts_ok_member(cs.drop_last(), expected, i);
    }
}

/// A mutable borrow of one vector element.
fn vec_index_mut<T>(v: &mut Vec<T>, i: usize) -> (element: &mut T)
    requires
        i < old(v).len(),
    ensures
        *element == old(v)@[i as int],
        final(v)@ == old(v)@.update(i as int, *final(element)),
{
    &mut v[i]
}

impl<'a> ListData<'a> {
    /// Buffered size of this node's own encoders.
    fn own_estimated_size(&self) -> (r: usize)
        ensures
            r as nat == self.own_est(),
    {
        self.present.estimated_size().saturating_add(self.lengths.estimated_size())
    }

    /// Drops this node's stripe statistics and child-value counter.
    fn reset_own(&mut self)
        requires
            old(self).own_wf(),
            old(self).present_bits().len() == 0,
            old(self).len_vals().len() == 0,
        ensures
            final(self).own_wf(),
            final(self).own_live(),
            final(self).own_est() == old(self).own_est(),
            final(self).cid() == old(self).cid(),
            final(self).spec_child() == old(self).spec_child(),
            final(self).present_bits().len() == 0,
            final(self).len_vals().len() == 0,
            final(self).stats().num_values == 0,
            final(self).stats().num_present == 0,
            final(self).spec_num_child_values() == 0,
    {
        self.stripe_stats = GenericStatistics::new();
        self.num_child_values = 0;
    }
}

impl<'a> StructData<'a> {
    /// Buffered size of this node's own encoder.
    fn own_estimated_size(&self) -> (r: usize)
        ensures
            r as nat == self.own_est(),
    {
        self.present.estimated_size()
    }

    /// Drops this node's stripe statistics.
    fn reset_own(&mut self)
        requires
            old(self).own_wf(),
            old(self).present_bits().len() == 0,
        ensures
            final(self).own_wf(),
            final(self).own_live(),
            final(self).own_est() == old(self).own_est(),
            final(self).cid() == old(self).cid(),
            final(self).spec_children() == old(self).spec_children(),
            final(self).spec_fields() == old(self).spec_fields(),
            final(self).present_bits().len() == 0,
            final(self).stats().num_values == 0,
            final(self).stats().num_present == 0,
    {
        self.stripe_stats = GenericStatistics::new();
    }
}

impl<'a> Data<'a> {
    /// Emits the subtree's streams in preorder — each column PRESENT (kept
    /// exactly when the column saw a null), then DATA, LENGTH, SECONDARY as
    /// its type asks — appending one descriptor per stream written.  The
    /// encoders are left empty; statistics are kept for the stripe footer.
    #[verifier::loop_isolation(false)]
    #[verifier::rlimit(60)]
    pub fn write_data_streams(&mut self, out: &mut CountWrite, infos: &mut Vec<StreamInfo>)
        requires
            data_wf(*old(self)),
        ensures
            data_wf(*final(self)),
            data_flushed(*final(self)),
            data_cid(*final(self)) == data_cid(*old(self)),
            data_count(*final(self)) == data_count(*old(self)),
            data_stats_seq(*final(self)) == data_stats_seq(*old(self)),
            data_same_kind(*old(self), *final(self)),
            data_est(*final(self)) == 0,
            final(out)@ == old(out)@ + data_stream_bytes(*old(self)),
            final(infos)@ == old(infos)@ + data_stream_infos(*old(self)),
        decreases data_count(*self),
    {
        match self {
            Data::Boolean(n) => n.write_data_streams(out, infos),
            Data::Byte(n) => n.write_data_streams(out, infos),
            Data::Long(n) => n.write_data_streams(out, infos),
            Data::Float(n) => n.write_data_streams(out, infos),
            Data::Double(n) => n.write_data_streams(out, infos),
            Data::String(n) => n.write_data_streams(out, infos),
            Data::Binary(n) => n.write_data_streams(out, infos),
            Data::Timestamp(n) => n.write_data_streams(out, infos),
            Data::Decimal64(n) => n.write_data_streams(out, infos),
            Data::List(l) => {
                l.emit_own_streams(out, infos);
                l.child.write_data_streams(out, infos);
                proof {
                    assert(out@ =~= old(out)@ + data_stream_bytes(*old(self)));
                    assert(infos@ =~= old(infos)@ + data_stream_infos(*old(self)));
                }
            },
            Data::Struct(s) => {
                let ghost cs0 = s.spec_children();
                let ghost scid = s.cid();
                s.emit_own_streams(out, infos);
                let ghost outbase = out@;
                let ghost infobase = infos@;
                let n: usize = s.children.len();
                let mut i: usize = 0;
                while i < n
                    invariant
                        i <= n,
                        s.spec_children().len() == n,
                        forall|j: int| i <= j < n ==> s.spec_children()[j] == cs0[j],
                        s.own_wf(),
                        s.own_est() == 0,
                        s.spec_fields() == old(self)->Struct_0.spec_fields(),
                        s.cid() == scid,
                        s.stats() == old(self)->Struct_0.stats(),
                        s.present_bits().len() == 0,
                        childs_wf(s.spec_children().take(i as int), scid as int + 1),
                        childs_flushed(s.spec_children().take(i as int)),
                        childs_same_kind(
                            cs0.take(i as int),
                            s.spec_children().take(i as int),
                        ),
                        childs_est(s.spec_children().take(i as int)) == 0,
                        childs_stats_seq(s.spec_children().take(i as int)) == childs_stats_seq(
                            cs0.take(i as int),
                        ),
                        childs_count(s.spec_children().take(i as int)) == childs_count(
                            cs0.take(i as int),
                        ),
                        out@ == outbase + childs_stream_bytes(cs0.take(i as int)),
                        infos@ == infobase + childs_stream_infos(cs0.take(i as int)),
                    decreases n - i,
                {
                    proof {
                        lemma_childs_wf_prefix(cs0, scid as int + 1, i as int + 1);
                        assert(cs0.take(i as int + 1).drop_last() =~= cs0.take(i as int));
                        assert(cs0.take(i as int + 1).last() == cs0[i as int]);
                        lemma_childs_count_member(cs0, i as int);
                    }
                    let ghost prev = s.spec_children();
                    let c = vec_index_mut(&mut s.children, i);
                    c.write_data_streams(out, infos);
                    proof {
                        let cs1 = s.spec_children();
                        assert(cs1.take(i as int) =~= prev.take(i as int));
                        assert(cs1.take(i as int + 1).drop_last() =~= cs1.take(i as int));
                        assert(cs1.take(i as int + 1).last() == cs1[i as int]);
                        assert(out@ =~= outbase + childs_stream_bytes(cs0.take(i as int + 1)));
                        assert(infos@ =~= infobase + childs_stream_infos(cs0.take(i as int + 1)));
                    }
                    i = i + 1;
                }
                proof {
                    assert(s.spec_children().take(n as int) =~= s.spec_children());
                    assert(cs0.take(n as int) =~= cs0);
                    assert(out@ =~= old(out)@ + data_stream_bytes(*old(self)));
                    assert(infos@ =~= old(infos)@ + data_stream_infos(*old(self)));
                    assert(data_stats_seq(*self) =~= data_stats_seq(*old(self)));
                }
            },
        }
    }

    /// Appends one statistics entry per column of the subtree, in preorder.
    #[verifier::loop_isolation(false)]
    pub fn statistics(&self, out: &mut Vec<Statistics>)
        ensures
            final(out)@ == old(out)@ + data_stats_seq(*self),
        decreases data_count(*self),
    {
        match self {
            Data::Boolean(n) => out.push(n.statistics()),
            Data::Byte(n) => out.push(n.statistics()),
            Data::Long(n) => out.push(n.statistics()),
            Data::Float(n) => out.push(n.statistics()),
            Data::Double(n) => out.push(n.statistics()),
            Data::String(n) => out.push(n.statistics()),
            Data::Binary(n) => out.push(n.statistics()),
            Data::Timestamp(n) => out.push(n.statistics()),
            Data::Decimal64(n) => out.push(n.statistics()),
            Data::List(l) => {
                out.push(Statistics::Generic(l.stripe_stats));
                l.child.statistics(out);
                proof {
                    assert(out@ =~= old(out)@ + data_stats_seq(*self));
                }
            },
            Data::Struct(s) => {
                out.push(Statistics::Generic(s.stripe_stats));
                let ghost outbase = out@;
                let ghost cs0 = s.spec_children();
                let n: usize = s.children.len();
                let mut i: usize = 0;
                while i < n
                    invariant
                        i <= n,
                        out@ == outbase + childs_stats_seq(cs0.take(i as int)),
                    decreases n - i,
                {
                    proof {
                        lemma_childs_count_member(cs0, i as int);
                        assert(cs0.take(i as int + 1).drop_last() =~= cs0.take(i as int));
                        assert(cs0.take(i as int + 1).last() == cs0[i as int]);
                    }
                    let c: &Data<'a> = &s.children[i];
                    c.statistics(out);
                    proof {
                        assert(out@ =~= outbase + childs_stats_seq(cs0.take(i as int + 1)));
                    }
                    i = i + 1;
                }
                proof {
                    assert(cs0.take(n as int) =~= cs0);
                    assert(out@ =~= old(out)@ + data_stats_seq(*self));
                }
            },
        }
    }

    /// The subtree's buffered-size estimate, saturating at the machine word.
    #[verifier::loop_isolation(false)]
    pub fn estimated_size(&self) -> (r: usize)
        ensures
            r as nat == data_est(*self),
        decreases data_count(*self),
    {
        match self {
            Data::Boolean(n) => n.estimated_size(),
            Data::Byte(n) => n.estimated_size(),
            Data::Long(n) => n.estimated_size(),
            Data::Float(n) => n.estimated_size(),
            Data::Double(n) => n.estimated_size(),
            Data::String(n) => n.estimated_size(),
            Data::Binary(n) => n.estimated_size(),
            Data::Timestamp(n) => n.estimated_size(),
            Data::Decimal64(n) => n.estimated_size(),
            Data::List(l) => l.own_estimated_size().saturating_add(l.child.estimated_size()),
            Data::Struct(s) => {
                let mut acc: usize = s.own_estimated_size();
                let ghost cs0 = s.spec_children();
                let n: usize = s.children.len();
                let mut i: usize = 0;
                while i < n
                    invariant
                        i <= n,
                        acc as nat == sat_add(s.own_est(), childs_est(cs0.take(i as int))),
                    decreases n - i,
                {
                    proof {
                        lemma_childs_count_member(cs0, i as int);
                        assert(cs0.take(i as int + 1).drop_last() =~= cs0.take(i as int));
                        assert(cs0.take(i as int + 1).last() == cs0[i as int]);
                    }
                    let c: &Data<'a> = &s.children[i];
                    let e: usize = c.estimated_size();
                    acc = acc.saturating_add(e);
                    i = i + 1;
                }
                proof {
                    assert(cs0.take(n as int) =~= cs0);
                }
                acc
            },
        }
    }

    /// Checks the stripe-closure row-count invariant: this subtree must have
    /// accumulated `expected` values, each Struct child its parent's present
    /// count, each List child the sum of the recorded lengths.  A caller
    /// that cannot establish the invariant calls this before closing a
    /// batch, as the row-count mismatch is a fatal usage error.
    #[verifier::loop_isolation(false)]
    pub fn verify_row_count(&self, expected: u64) -> (r: bool)
        ensures
            r == data_counts_ok(*self, expected as int),
        decreases data_count(*self),
    {
        let own: bool = match self {
            Data::Boolean(n) => n.stripe_stats.num_values == expected,
            Data::Byte(n) => n.stripe_stats.counts.num_values == expected,
            Data::Long(n) => n.stripe_stats.counts.num_values == expected,
            Data::Float(n) => n.stripe_stats.num_values == expected,
            Data::Double(n) => n.stripe_stats.num_values == expected,
            Data::String(n) => n.stripe_stats.num_values == expected,
            Data::Binary(n) => n.stripe_stats.num_values == expected,
            Data::Timestamp(n) => n.stripe_stats.num_values == expected,
            Data::Decimal64(n) => n.stripe_stats.longs.counts.num_values == expected,
            Data::List(n) => n.stripe_stats.num_values == expected,
            Data::Struct(n) => n.stripe_stats.num_values == expected,
        };
        match self {
            Data::List(l) => {
                let sub: bool = l.child.verify_row_count(l.num_child_values);
                own && sub
            },
            Data::Struct(s) => {
                let mut ok: bool = true;
                let ghost cs0 = s.spec_children();
                let expect: u64 = s.stripe_stats.num_present;
                let n: usize = s.children.len();
                let mut i: usize = 0;
                while i < n
                    invariant
                        i <= n,
                        ok == childs_counts_ok(cs0.take(i as int), expect as int),
                    decreases n - i,
                {
                    proof {
                        lemma_childs_count_member(cs0, i as int);
                        assert(cs0.take(i as int + 1).drop_last() =~= cs0.take(i as int));
                        assert(cs0.take(i as int + 1).last() == cs0[i as int]);
                    }
                    let c: &Data<'a> = &s.children[i];
                    let sub: bool = c.verify_row_count(expect);
                    ok = ok && sub;
                    i = i + 1;
                }
                proof {
                    assert(cs0.take(n as int) =~= cs0);
                }
                own && ok
            },
            _ => own,
        }
    }


    /// The first column, in preorder, whose accumulated value count is not
    /// the one it owes — `None` exactly when the stripe-closure invariant
    /// holds of the subtree.  The id names the offending column, as the
    /// row-count usage error report asks.
    #[verifier::loop_isolation(false)]
    pub fn first_row_count_mismatch(&self, expected: u64) -> (r: Option<u32>)
        ensures
            r is None <==> data_counts_ok(*self, expected as int),
        decreases data_count(*self),
    {
        let own_ok: bool = match self {
            Data::Boolean(n) => n.stripe_stats.num_values == expected,
            Data::Byte(n) => n.stripe_stats.counts.num_values == expected,
            Data::Long(n) => n.stripe_stats.counts.num_values == expected,
            Data::Float(n) => n.stripe_stats.num_values == expected,
            Data::Double(n) => n.stripe_stats.num_values == expected,
            Data::String(n) => n.stripe_stats.num_values == expected,
            Data::Binary(n) => n.stripe_stats.num_values == expected,
            Data::Timestamp(n) => n.stripe_stats.num_values == expected,
            Data::Decimal64(n) => n.stripe_stats.longs.counts.num_values == expected,
            Data::List(n) => n.stripe_stats.num_values == expected,
            Data::Struct(n) => n.stripe_stats.num_values == expected,
        };
        if !own_ok {
            return Some(self.column_id());
        }
        match self {
            Data::List(l) => l.child.first_row_count_mismatch(l.num_child_values),
            Data::Struct(s) => {
                let expect: u64 = s.stripe_stats.num_present;
                let ghost cs0 = s.spec_children();
                let mut found: Option<u32> = None;
                let n: usize = s.children.len();
                let mut i: usize = 0;
                while i < n
                    invariant
                        i <= n,
                        (found is None) == childs_counts_ok(cs0.take(i as int), expect as int),
                    decreases n - i,
                {
                    proof {
                        lemma_childs_count_member(cs0, i as int);
                        assert(cs0.take(i as int + 1).drop_last() =~= cs0.take(i as int));
                        assert(cs0.take(i as int + 1).last() == cs0[i as int]);
                    }
                    if found.is_none() {
                        let c: &Data<'a> = &s.children[i];
                        found = c.first_row_count_mismatch(expect);
                    }
                    i = i + 1;
                }
                proof {
                    assert(cs0.take(n as int) =~= cs0);
                }
                found
            },
            _ => None,
        }
    }

    /// Drops every node's stripe statistics for the next stripe; the
    /// encoders must already have been flushed.
    #[verifier::loop_isolation(false)]
    pub fn reset(&mut self)
        requires
            data_wf(*old(self)),
            data_flushed(*old(self)),
        ensures
            data_wf(*final(self)),
            data_live(*final(self)),
            data_flushed(*final(self)),
            data_counts_ok(*final(self), 0),
            data_zeroed(*final(self)),
            data_num_values(*final(self)) == 0,
            data_num_present(*final(self)) == 0,
            data_est(*final(self)) == data_est(*old(self)),
            data_same_kind(*old(self), *final(self)),
            data_cid(*final(self)) == data_cid(*old(self)),
            data_count(*final(self)) == data_count(*old(self)),
        decreases data_count(*self),
    {
        match self {
            Data::Boolean(n) => n.reset(),
            Data::Byte(n) => n.reset(),
            Data::Long(n) => n.reset(),
            Data::Float(n) => n.reset(),
            Data::Double(n) => n.reset(),
            Data::String(n) => n.reset(),
            Data::Binary(n) => n.reset(),
            Data::Timestamp(n) => n.reset(),
            Data::Decimal64(n) => n.reset(),
            Data::List(l) => {
                l.reset_own();
                l.child.reset();
            },
            Data::Struct(s) => {
                let ghost cs0 = s.spec_children();
                let ghost scid = s.cid();
                s.reset_own();
                let n: usize = s.children.len();
                let mut i: usize = 0;
                while i < n
                    invariant
                        i <= n,
                        s.spec_children().len() == n,
                        forall|j: int| i <= j < n ==> s.spec_children()[j] == cs0[j],
                        s.own_wf(),
                        s.own_live(),
                        s.own_est() == old(self)->Struct_0.own_est(),
                        s.spec_fields() == old(self)->Struct_0.spec_fields(),
                        s.cid() == scid,
                        s.stats().num_values == 0,
                        s.present_bits().len() == 0,
                        childs_wf(s.spec_children().take(i as int), scid as int + 1),
                        childs_live(s.spec_children().take(i as int)),
                        childs_flushed(s.spec_children().take(i as int)),
                        childs_counts_ok(s.spec_children().take(i as int), 0),
                        childs_zeroed(s.spec_children().take(i as int)),
                        childs_same_kind(
                            cs0.take(i as int),
                            s.spec_children().take(i as int),
                        ),
                        childs_est(s.spec_children().take(i as int)) == childs_est(
                            cs0.take(i as int),
                        ),
                        childs_count(s.spec_children().take(i as int)) == childs_count(
                            cs0.take(i as int),
                        ),
                    decreases n - i,
                {
                    proof {
                        lemma_childs_wf_prefix(cs0, scid as int + 1, i as int + 1);
                        assert(cs0.take(i as int + 1).drop_last() =~= cs0.take(i as int));
                        assert(cs0.take(i as int + 1).last() == cs0[i as int]);
                        lemma_childs_count_member(cs0, i as int);
                        lemma_childs_flushed_member(cs0, i as int);
                    }
                    let ghost prev = s.spec_children();
                    let c = vec_index_mut(&mut s.children, i);
                    c.reset();
                    proof {
                        let cs1 = s.spec_children();
                        assert(cs1.take(i as int) =~= prev.take(i as int));
                        assert(cs1.take(i as int + 1).drop_last() =~= cs1.take(i as int));
                        assert(cs1.take(i as int + 1).last() == cs1[i as int]);
                    }
                    i = i + 1;
                }
                proof {
                    assert(s.spec_children().take(n as int) =~= s.spec_children());
                    assert(cs0.take(n as int) =~= cs0);
                }
            },
        }
    }
}

} // verus!
