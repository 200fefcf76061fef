//! Protocol-buffer serialization of the metadata messages the file carries:
//! stripe footers, the file footer and the postscript.  Only the message
//! shapes this writer populates are implemented: varint fields, length-
//! delimited fields and packed id lists, written by hand.

use vstd::prelude::*;
use crate::compression::CompressionStream;
use crate::encoding::{svarint, uvarint};
use crate::schema::{fields_columns, lemma_fields_columns_member, schema_columns, Field, Schema};
use crate::statistics::{LongStatistics, Statistics};
use crate::stripe::{StreamInfo, StreamKind, StripeInfo};
use vstd::string::StringSliceAdditionalSpecFns;
use vstd::utf8::encode_utf8;

verus! {

/// The key of a protobuf field: field number and wire type.
pub open spec fn pb_key(field: nat, wire: nat) -> Seq<u8> {
    uvarint(field * 8 + wire)
}

/// A varint-valued field.
pub open spec fn pb_varint(field: nat, v: nat) -> Seq<u8> {
    pb_key(field, 0) + uvarint(v)
}

/// A length-delimited field.
pub open spec fn pb_len(field: nat, payload: Seq<u8>) -> Seq<u8> {
    pb_key(field, 2) + uvarint(payload.len()) + payload
}

/// A signed (ZigZag) varint-valued field.
pub open spec fn pb_svarint(field: nat, v: int) -> Seq<u8> {
    pb_key(field, 0) + svarint(v)
}

/// A varint is at most ten bytes for any 64-bit value.
pub proof fn lemma_uvarint_len(n: nat)
    requires
        n <= u64::MAX,
    ensures
        1 <= uvarint(n).len() <= 10,
{
    assert(pow128(10) > u64::MAX) by {
        reveal_with_fuel(pow128, 11);
    };
    lemma_uvarint_len_bound(n, 9);
}

/// A value below 128^(k+1) takes at most k+1 varint bytes.
pub proof fn lemma_uvarint_len_bound(n: nat, k: nat)
    requires
        n < pow128(k + 1),
    ensures
        1 <= uvarint(n).len() <= k + 1,
    decreases k,
{
    if n >= 128 {
        assert(k > 0) by {
            reveal_with_fuel(pow128, 2);
        };
        assert(pow128(((k - 1) + 1) as nat) * 128 == pow128((k + 1) as nat));
        assert(n / 128 < pow128(((k - 1) + 1) as nat)) by (nonlinear_arith)
            requires
                n < pow128((k + 1) as nat),
                pow128(((k - 1) + 1) as nat) * 128 == pow128((k + 1) as nat),
        ;
        lemma_uvarint_len_bound(n / 128, (k - 1) as nat);
    }
}

/// Powers of 128.
pub open spec fn pow128(k: nat) -> nat
    decreases k,
{
    if k == 0 {
        1
    } else {
        128 * pow128((k - 1) as nat)
    }
}

/// The PostScript message is short: at least one byte and at most 255, so
/// its length fits the file's final length byte and that byte locates the
/// message exactly.
pub proof fn lemma_postscript_len(footer_len: nat, block: u64, wv: u32)
    requires
        footer_len <= u64::MAX,
    ensures
        1 <= postscript_pb(footer_len, block, wv).len() <= 255,
{
    lemma_uvarint_len(footer_len);
    lemma_uvarint_len(block as nat);
    lemma_uvarint_len(wv as nat);
    lemma_uvarint_len(64002);
}

/// The wire code of a stream kind.
pub open spec fn stream_kind_code(k: StreamKind) -> nat {
    match k {
        StreamKind::Present => 0,
        StreamKind::Data => 1,
        StreamKind::Length => 2,
        StreamKind::DictionaryData => 3,
        StreamKind::Secondary => 5,
        StreamKind::RowIndex => 6,
    }
}

/// The Stream message: kind, column, length.
pub open spec fn stream_pb(s: StreamInfo) -> Seq<u8> {
    pb_varint(1, stream_kind_code(s.kind)) + pb_varint(2, s.column_id as nat) + pb_varint(
        3,
        s.length as nat,
    )
}

/// The stripe footer's stream list, each entry length-delimited.
pub open spec fn streams_pb(ss: Seq<StreamInfo>) -> Seq<u8>
    decreases ss.len(),
{
    if ss.len() == 0 {
        seq![]
    } else {
        streams_pb(ss.drop_last()) + pb_len(1, stream_pb(ss.last()))
    }
}

/// `n` DIRECT column encodings, one per column.
pub open spec fn encodings_pb(n: nat) -> Seq<u8>
    decreases n,
{
    if n == 0 {
        seq![]
    } else {
        encodings_pb((n - 1) as nat) + pb_len(2, pb_varint(1, 0))
    }
}

/// The StripeFooter message: the stream list, then the column encodings.
pub open spec fn stripe_footer_pb(ss: Seq<StreamInfo>, ncols: nat) -> Seq<u8> {
    streams_pb(ss) + encodings_pb(ncols)
}

/// The StripeInformation message.
pub open spec fn stripe_info_pb(si: StripeInfo) -> Seq<u8> {
    pb_varint(1, si.offset as nat) + pb_varint(2, si.index_length as nat) + pb_varint(
        3,
        si.data_length as nat,
    ) + pb_varint(4, si.footer_length as nat) + pb_varint(5, si.num_rows as nat)
}

/// The footer's stripe list.
pub open spec fn stripes_pb(ss: Seq<StripeInfo>) -> Seq<u8>
    decreases ss.len(),
{
    if ss.len() == 0 {
        seq![]
    } else {
        stripes_pb(ss.drop_last()) + pb_len(3, stripe_info_pb(ss.last()))
    }
}

/// The wire code of a schema node's type kind.
pub open spec fn type_kind_code(s: Schema) -> nat {
    match s {
        Schema::Boolean => 0,
        Schema::Byte => 1,
        Schema::Short => 2,
        Schema::Int => 3,
        Schema::Long => 4,
        Schema::Float => 5,
        Schema::Double => 6,
        Schema::String => 7,
        Schema::Binary => 8,
        Schema::Timestamp => 9,
        Schema::List(_) => 10,
        Schema::Struct(_) => 12,
        Schema::Decimal(_, _) => 14,
        Schema::Date => 15,
    }
}

/// The packed child-id payload of a struct's subtypes field.
pub open spec fn subtype_ids_pb(fs: Seq<Field>, next: int) -> Seq<u8>
    decreases fs,
{
    if fs.len() == 0 {
        seq![]
    } else {
        uvarint(next as nat) + subtype_ids_pb(fs.drop_first(), next + schema_columns(fs[0].1))
    }
}

/// The field-name fields of a struct's Type message.
pub open spec fn field_names_pb(fs: Seq<Field>) -> Seq<u8>
    decreases fs,
{
    if fs.len() == 0 {
        seq![]
    } else {
        pb_len(3, encode_utf8(fs[0].0@)) + field_names_pb(fs.drop_first())
    }
}

/// The Type message of one schema node with the given column id.
pub open spec fn type_msg_pb(s: Schema, id: int) -> Seq<u8> {
    match s {
        Schema::List(c) => pb_varint(1, 10) + pb_len(2, uvarint((id + 1) as nat)),
        Schema::Struct(fs) => pb_varint(1, 12) + pb_len(2, subtype_ids_pb(fs@, id + 1))
            + field_names_pb(fs@),
        Schema::Decimal(p, sc) => pb_varint(1, 14) + pb_varint(5, p as nat) + pb_varint(
            6,
            sc as nat,
        ),
        _ => pb_varint(1, type_kind_code(s)),
    }
}

/// The Type messages of a schema subtree, in preorder, each one a
/// length-delimited footer field.
pub open spec fn types_pb(s: Schema, id: int) -> Seq<u8>
    decreases s,
{
    pb_len(4, type_msg_pb(s, id)) + match s {
        Schema::List(c) => types_pb(*c, id + 1),
        Schema::Struct(fs) => fields_types_pb(fs@, id + 1),
        _ => seq![],
    }
}

/// The Type messages of a field sequence, ids assigned in preorder.
pub open spec fn fields_types_pb(fs: Seq<Field>, next: int) -> Seq<u8>
    decreases fs,
{
    if fs.len() == 0 {
        seq![]
    } else {
        types_pb(fs[0].1, next) + fields_types_pb(fs.drop_first(), next + schema_columns(fs[0].1))
    }
}

/// The IntegerStatistics message: minimum, maximum, and the sum while one
/// is held.
pub open spec fn intstats_pb(l: LongStatistics) -> Seq<u8> {
    pb_svarint(1, l.min as int) + pb_svarint(2, l.max as int) + if l.has_sum {
        pb_svarint(3, l.sum as int)
    } else {
        seq![]
    }
}

/// The kind-specific part of a ColumnStatistics message: integer aggregates
/// for the integer-like columns (once a value exists), the byte-length sum
/// for string and binary columns.  Decimal aggregates are kept as counts
/// only: the format stores decimal extremes as strings.
pub open spec fn stat_detail_pb(st: Statistics) -> Seq<u8> {
    match st {
        Statistics::Long(l) => if l.counts.num_present > 0 {
            pb_len(2, intstats_pb(l))
        } else {
            seq![]
        },
        Statistics::Binary(b) => pb_len(8, pb_svarint(1, b.sum_lengths as i64 as int)),
        _ => seq![],
    }
}

/// The ColumnStatistics message: the present count, the kind's aggregates,
/// and the null flag.
pub open spec fn stat_pb(st: Statistics) -> Seq<u8> {
    pb_varint(1, st.spec_num_present()) + stat_detail_pb(st) + pb_varint(
        10,
        if st.spec_has_null() {
            1nat
        } else {
            0nat
        },
    )
}

/// The footer's per-column statistics list.
pub open spec fn stats_list_pb(gs: Seq<Statistics>) -> Seq<u8>
    decreases gs.len(),
{
    if gs.len() == 0 {
        seq![]
    } else {
        stats_list_pb(gs.drop_last()) + pb_len(7, stat_pb(gs.last()))
    }
}

/// The Footer message: header length (the magic's three bytes), content
/// length, the stripe list, the schema's types in preorder, the overall row
/// count, the per-column file statistics, and the row-index stride.
pub open spec fn footer_pb(
    s: Schema,
    stripes: Seq<StripeInfo>,
    nrows: u64,
    stats: Seq<Statistics>,
    stride: u32,
    content_len: nat,
) -> Seq<u8> {
    pb_varint(1, 3) + pb_varint(2, content_len) + stripes_pb(stripes) + types_pb(s, 0) + pb_varint(
        6,
        nrows as nat,
    ) + stats_list_pb(stats) + pb_varint(8, stride as nat)
}

/// The PostScript message: the footer's length, compression kind NONE, the
/// compression block size, the format version pair, a zero metadata length,
/// the writer version, and the magic.
pub open spec fn postscript_pb(footer_len: nat, block: u64, wv: u32) -> Seq<u8> {
    pb_varint(1, footer_len) + pb_varint(2, 0) + pb_varint(3, block as nat) + pb_len(
        4,
        uvarint(0) + uvarint(12),
    ) + pb_varint(5, 0) + pb_varint(6, wv as nat) + pb_len(8000, seq![79u8, 82u8, 67u8])
}

/// Stages a varint field.
pub fn write_pb_varint(cs: &mut CompressionStream, field: u32, v: u64)
    ensures
        final(cs)@ == old(cs)@ + pb_varint(field as nat, v as nat),
{
    cs.write_uvarint((field as u64) * 8);
    cs.write_uvarint(v);
    proof {
        assert(cs@ =~= old(cs)@ + pb_varint(field as nat, v as nat));
    }
}

/// Stages a signed (ZigZag) varint field.
pub fn write_pb_svarint(cs: &mut CompressionStream, field: u32, v: i64)
    ensures
        final(cs)@ == old(cs)@ + pb_svarint(field as nat, v as int),
{
    cs.write_uvarint((field as u64) * 8);
    cs.write_svarint(v);
    proof {
        assert(cs@ =~= old(cs)@ + pb_svarint(field as nat, v as int));
    }
}

/// Stages a length-delimited field.
pub fn write_pb_bytes(cs: &mut CompressionStream, field: u32, b: &[u8])
    ensures
        final(cs)@ == old(cs)@ + pb_len(field as nat, b@),
{
    cs.write_uvarint((field as u64) * 8 + 2);
    cs.write_uvarint(b.len() as u64);
    cs.write_bytes(b);
    proof {
        assert(cs@ =~= old(cs)@ + pb_len(field as nat, b@));
    }
}

/// Stages one Stream message as a stripe footer field.
pub fn write_stream(cs: &mut CompressionStream, s: &StreamInfo)
    ensures
        final(cs)@ == old(cs)@ + pb_len(1, stream_pb(*s)),
{
    let code: u64 = match s.kind {
        StreamKind::Present => 0,
        StreamKind::Data => 1,
        StreamKind::Length => 2,
        StreamKind::DictionaryData => 3,
        StreamKind::Secondary => 5,
        StreamKind::RowIndex => 6,
    };
    let mut sub = CompressionStream::new();
    write_pb_varint(&mut sub, 1, code);
    write_pb_varint(&mut sub, 2, s.column_id as u64);
    write_pb_varint(&mut sub, 3, s.length);
    proof {
        assert(sub@ =~= stream_pb(*s));
    }
    let v = sub.into_bytes();
    write_pb_bytes(cs, 1, v.as_slice());
}

/// Stages a whole StripeFooter message: the stream list, then one DIRECT
/// encoding per column.
pub fn write_stripe_footer(cs: &mut CompressionStream, infos: &Vec<StreamInfo>, ncols: u32)
    ensures
        final(cs)@ == old(cs)@ + stripe_footer_pb(infos@, ncols as nat),
{
    let n: usize = infos.len();
    let mut i: usize = 0;
    while i < n
        invariant
            i <= n,
            n == infos@.len(),
            cs@ == old(cs)@ + streams_pb(infos@.take(i as int)),
        decreases n - i,
    {
        proof {
            assert(infos@.take(i as int + 1).drop_last() =~= infos@.take(i as int));
            assert(infos@.take(i as int + 1).last() == infos@[i as int]);
        }
        write_stream(cs, &infos[i]);
        proof {
            assert(cs@ =~= old(cs)@ + streams_pb(infos@.take(i as int + 1)));
        }
        i = i + 1;
    }
    proof {
        assert(infos@.take(n as int) =~= infos@);
    }
    let ghost base = cs@;
    let mut enc = CompressionStream::new();
    write_pb_varint(&mut enc, 1, 0);
    let encv = enc.into_bytes();
    let mut j: u32 = 0;
    while j < ncols
        invariant
            j <= ncols,
            encv@ == pb_varint(1, 0),
            cs@ == base + encodings_pb(j as nat),
        decreases ncols - j,
    {
        write_pb_bytes(cs, 2, encv.as_slice());
        proof {
            assert(cs@ =~= base + encodings_pb(j as nat + 1));
        }
        j = j + 1;
    }
    proof {
        assert(cs@ =~= old(cs)@ + stripe_footer_pb(infos@, ncols as nat));
    }
}

/// Stages one StripeInformation message as a footer field.
pub fn write_stripe_info(cs: &mut CompressionStream, si: &StripeInfo)
    ensures
        final(cs)@ == old(cs)@ + pb_len(3, stripe_info_pb(*si)),
{
    let mut sub = CompressionStream::new();
    write_pb_varint(&mut sub, 1, si.offset);
    write_pb_varint(&mut sub, 2, si.index_length);
    write_pb_varint(&mut sub, 3, si.data_length);
    write_pb_varint(&mut sub, 4, si.footer_length);
    write_pb_varint(&mut sub, 5, si.num_rows);
    proof {
        assert(sub@ =~= stripe_info_pb(*si));
    }
    let v = sub.into_bytes();
    write_pb_bytes(cs, 3, v.as_slice());
}

/// Stages one ColumnStatistics message as a footer field.
pub fn write_stat(cs: &mut CompressionStream, st: &Statistics)
    ensures
        final(cs)@ == old(cs)@ + pb_len(7, stat_pb(*st)),
{
    let mut sub = CompressionStream::new();
    let np: u64 = st.num_present();
    write_pb_varint(&mut sub, 1, np);
    match st {
        Statistics::Long(l) => {
            if l.counts.num_present > 0 {
                let mut is = CompressionStream::new();
                write_pb_svarint(&mut is, 1, l.min);
                write_pb_svarint(&mut is, 2, l.max);
                if l.has_sum {
                    write_pb_svarint(&mut is, 3, l.sum);
                }
                proof {
                    assert(is@ =~= intstats_pb(*l));
                }
                let v = is.into_bytes();
                write_pb_bytes(&mut sub, 2, v.as_slice());
            }
        },
        Statistics::Binary(b) => {
            let mut bs = CompressionStream::new();
            write_pb_svarint(&mut bs, 1, b.sum_lengths as i64);
            let v = bs.into_bytes();
            write_pb_bytes(&mut sub, 8, v.as_slice());
        },
        _ => {},
    }
    let hn: u64 = if st.has_null() {
        1
    } else {
        0
    };
    write_pb_varint(&mut sub, 10, hn);
    proof {
        assert(sub@ =~= stat_pb(*st));
    }
    let v = sub.into_bytes();
    write_pb_bytes(cs, 7, v.as_slice());
}

/// Stages the Type messages of a schema subtree, in preorder, advancing the
/// column-id counter past the subtree.
#[verifier::loop_isolation(false)]
pub fn write_types(cs: &mut CompressionStream, s: &Schema, id: &mut u32)
    requires
        *old(id) + schema_columns(*s) <= u32::MAX,
    ensures
        final(cs)@ == old(cs)@ + types_pb(*s, *old(id) as int),
        *final(id) == *old(id) + schema_columns(*s),
    decreases schema_columns(*s),
{
    let myid: u32 = *id;
    *id = *id + 1;
    let mut sub = CompressionStream::new();
    match s {
        Schema::List(c) => {
            write_pb_varint(&mut sub, 1, 10);
            let mut ids = CompressionStream::new();
            ids.write_uvarint(myid as u64 + 1);
            let idv = ids.into_bytes();
            write_pb_bytes(&mut sub, 2, idv.as_slice());
            proof {
                assert(sub@ =~= type_msg_pb(*s, myid as int));
            }
            let v = sub.into_bytes();
            write_pb_bytes(cs, 4, v.as_slice());
            write_types(cs, c, id);
            proof {
                assert(cs@ =~= old(cs)@ + types_pb(*s, *old(id) as int));
            }
        },
        Schema::Struct(fs) => {
            write_pb_varint(&mut sub, 1, 12);
            let mut ids = CompressionStream::new();
            let mut next: u32 = myid + 1;
            let n: usize = fs.len();
            let mut i: usize = 0;
            proof {
                assert(fs@.skip(0) =~= fs@);
                assert(ids@ + subtype_ids_pb(fs@, myid as int + 1) =~= subtype_ids_pb(
                    fs@,
                    myid as int + 1,
                ));
            }
            while i < n
                invariant
                    i <= n,
                    next == myid + 1 + fields_columns(fs@.take(i as int)),
                    ids@ + subtype_ids_pb(fs@.skip(i as int), next as int) == subtype_ids_pb(
                        fs@,
                        myid as int + 1,
                    ),
                decreases n - i,
            {
                proof {
                    crate::data::lemma_fields_columns_take_step(fs@, i as int);
                    lemma_fields_columns_member(fs@, i as int);
                    assert(fs@.skip(i as int).drop_first() =~= fs@.skip(i as int + 1));
                    assert(fs@.skip(i as int)[0] == fs@[i as int]);
                    assert((ids@ + uvarint(next as nat)) + subtype_ids_pb(
                        fs@.skip(i as int + 1),
                        next as int + schema_columns(fs@[i as int].1),
                    ) =~= ids@ + subtype_ids_pb(fs@.skip(i as int), next as int));
                }
                ids.write_uvarint(next as u64);
                let cols: u32 = schema_columns_exec(&fs[i].1);
                next = next + cols;
                i = i + 1;
            }
            proof {
                assert(fs@.skip(n as int) =~= Seq::<Field>::empty());
                assert(ids@ + subtype_ids_pb(Seq::<Field>::empty(), next as int) =~= ids@);
            }
            let idv = ids.into_bytes();
            write_pb_bytes(&mut sub, 2, idv.as_slice());
            let ghost base = sub@;
            let mut k: usize = 0;
            while k < n
                invariant
                    k <= n,
                    sub@ == base + field_names_pb(fs@.take(k as int)),
                decreases n - k,
            {
                let name: &str = fs[k].0.as_str();
                write_pb_bytes(&mut sub, 3, name.as_bytes());
                proof {
                    lemma_field_names_take_step(fs@, k as int);
                    assert(sub@ =~= base + field_names_pb(fs@.take(k as int + 1)));
                }
                k = k + 1;
            }
            proof {
                assert(fs@.take(n as int) =~= fs@);
                assert(sub@ =~= type_msg_pb(*s, myid as int));
            }
            let v = sub.into_bytes();
            write_pb_bytes(cs, 4, v.as_slice());
            let ghost csbase = cs@;
            let mut k2: usize = 0;
            let mut nexte: u32 = myid + 1;
            proof {
                assert(fs@.skip(0) =~= fs@);
                assert(cs@ + fields_types_pb(fs@, myid as int + 1) =~= csbase + fields_types_pb(
                    fs@,
                    myid as int + 1,
                ));
            }
            while k2 < n
                invariant
                    k2 <= n,
                    nexte == myid + 1 + fields_columns(fs@.take(k2 as int)),
                    cs@ + fields_types_pb(fs@.skip(k2 as int), nexte as int) == csbase
                        + fields_types_pb(fs@, myid as int + 1),
                decreases n - k2,
            {
                proof {
                    crate::data::lemma_fields_columns_take_step(fs@, k2 as int);
                    lemma_fields_columns_member(fs@, k2 as int);
                    assert(fs@.skip(k2 as int).drop_first() =~= fs@.skip(k2 as int + 1));
                    assert(fs@.skip(k2 as int)[0] == fs@[k2 as int]);
                }
                let mut cid: u32 = nexte;
                write_types(cs, &fs[k2].1, &mut cid);
                proof {
                    assert(cs@ + fields_types_pb(fs@.skip(k2 as int + 1), cid as int) =~= csbase
                        + fields_types_pb(fs@, myid as int + 1));
                }
                nexte = cid;
                k2 = k2 + 1;
            }
            proof {
                assert(fs@.skip(n as int) =~= Seq::<Field>::empty());
                assert(cs@ =~= old(cs)@ + types_pb(*s, *old(id) as int));
            }
            *id = nexte;
        },
        Schema::Decimal(p, sc) => {
            write_pb_varint(&mut sub, 1, 14);
            write_pb_varint(&mut sub, 5, *p as u64);
            write_pb_varint(&mut sub, 6, *sc as u64);
            proof {
                assert(sub@ =~= type_msg_pb(*s, myid as int));
            }
            let v = sub.into_bytes();
            write_pb_bytes(cs, 4, v.as_slice());
            proof {
                assert(cs@ =~= old(cs)@ + types_pb(*s, *old(id) as int));
            }
        },
        _ => {
            let code: u64 = match s {
                Schema::Boolean => 0,
                Schema::Byte => 1,
                Schema::Short => 2,
                Schema::Int => 3,
                Schema::Long => 4,
                Schema::Float => 5,
                Schema::Double => 6,
                Schema::String => 7,
                Schema::Binary => 8,
                Schema::Timestamp => 9,
                Schema::Date => 15,
                _ => 0,
            };
            write_pb_varint(&mut sub, 1, code);
            proof {
                assert(sub@ =~= type_msg_pb(*s, myid as int));
            }
            let v = sub.into_bytes();
            write_pb_bytes(cs, 4, v.as_slice());
            proof {
                assert(cs@ =~= old(cs)@ + types_pb(*s, *old(id) as int));
            }
        },
    }
}

/// A step of taking one more field name.
pub proof fn lemma_field_names_take_step(fs: Seq<Field>, i: int)
    requires
        0 <= i < fs.len(),
    ensures
        field_names_pb(fs.take(i + 1)) == field_names_pb(fs.take(i)) + pb_len(
            3,
            encode_utf8(fs[i].0@),
        ),
    decreases i,
{
    if i == 0 {
        assert(fs.take(1)[0] == fs[0]);
        assert(fs.take(1).drop_first() =~= Seq::<Field>::empty());
        assert(fs.take(0) =~= Seq::<Field>::empty());
        assert(field_names_pb(fs.take(1)) =~= field_names_pb(fs.take(0)) + pb_len(
            3,
            encode_utf8(fs[0].0@),
        ));
    } else {
        lemma_field_names_take_step(fs.drop_first(), i - 1);
        assert(fs.take(i + 1).drop_first() =~= fs.drop_first().take(i));
        assert(fs.take(i).drop_first() =~= fs.drop_first().take(i - 1));
        assert(fs.take(i + 1)[0] == fs[0]);
        assert(fs.take(i)[0] == fs[0]);
        assert(fs.drop_first()[i - 1] == fs[i]);
        assert(field_names_pb(fs.take(i + 1)) =~= field_names_pb(fs.take(i)) + pb_len(
            3,
            encode_utf8(fs[i].0@),
        ));
    }
}

/// Exec form of `schema_columns`.
#[verifier::loop_isolation(false)]
pub fn schema_columns_exec(s: &Schema) -> (r: u32)
    requires
        schema_columns(*s) <= u32::MAX,
    ensures
        r == schema_columns(*s),
    decreases schema_columns(*s),
{
    match s {
        Schema::List(c) => 1 + schema_columns_exec(c),
        Schema::Struct(fs) => {
            let mut acc: u32 = 1;
            let n: usize = fs.len();
            let mut i: usize = 0;
            while i < n
                invariant
                    i <= n,
                    acc == 1 + fields_columns(fs@.take(i as int)),
                decreases n - i,
            {
                proof {
                    crate::data::lemma_fields_columns_take_step(fs@, i as int);
                    lemma_fields_columns_member(fs@, i as int);
                }
                let c: u32 = schema_columns_exec(&fs[i].1);
                acc = acc + c;
                i = i + 1;
            }
            proof {
                assert(fs@.take(n as int) =~= fs@);
            }
            acc
        },
        _ => 1,
    }
}

} // verus!
