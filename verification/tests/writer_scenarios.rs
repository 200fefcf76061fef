//! End-to-end writer scenarios: one complete writer invocation each, checked
//! against the expected bytes and the metadata the produced file carries.

use orc_rs::data::Data;
use orc_rs::schema::{Field, Schema};
use orc_rs::writer::{Config, Writer};

/// Reads one unsigned LEB128 varint at `pos`, advancing it.
fn read_uvarint(b: &[u8], pos: &mut usize) -> u64 {
    let mut v: u64 = 0;
    let mut shift: u32 = 0;
    loop {
        let byte = b[*pos];
        *pos += 1;
        v |= ((byte & 0x7f) as u64) << shift;
        if byte < 0x80 {
            return v;
        }
        shift += 7;
    }
}

/// Parses a protobuf message, returning (field, value-or-0, payload range)
/// triples for varint and length-delimited fields.
fn parse_fields(b: &[u8]) -> Vec<(u64, u64, (usize, usize))> {
    let mut out = Vec::new();
    let mut pos = 0usize;
    while pos < b.len() {
        let key = read_uvarint(b, &mut pos);
        let field = key >> 3;
        match key & 7 {
            0 => {
                let v = read_uvarint(b, &mut pos);
                out.push((field, v, (0, 0)));
            }
            2 => {
                let n = read_uvarint(b, &mut pos) as usize;
                out.push((field, 0, (pos, pos + n)));
                pos += n;
            }
            w => panic!("unexpected wire type {}", w),
        }
    }
    out
}

#[test]
fn s1_single_long() {
    let schema = Schema::Long;
    let mut writer = Writer::new(&schema, Config::new());
    if let Data::Long(d) = writer.data() {
        d.write(Some(5));
    } else {
        panic!("schema mismatch");
    }
    assert!(writer.check_row_counts(1));
    writer.write_batch(1);
    assert_eq!(writer.row_count(), 1);
    let bytes = writer.finish();
    assert_eq!(&bytes[0..3], b"ORC");
    // one literal header, then ZigZag(5) = 10; no PRESENT stream precedes it
    assert_eq!(&bytes[3..5], &[0xff, 0x0a]);
}

fn s2_bytes() -> Vec<u8> {
    let schema = Schema::Struct(vec![
        Field("x".to_owned(), Schema::Long),
        Field("y".to_owned(), Schema::String),
    ]);
    let mut writer = Writer::new(&schema, Config::new());
    {
        let root = match writer.data() {
            Data::Struct(s) => s,
            _ => panic!("schema mismatch"),
        };
        match root.child(0) {
            Data::Long(x) => {
                x.write(None);
                x.write(Some(-1));
                x.write(Some(1));
            }
            _ => panic!("schema mismatch"),
        }
        match root.child(1) {
            Data::String(y) => {
                y.write(Some("a"));
                y.write(Some(""));
                y.write(Some("abc"));
            }
            _ => panic!("schema mismatch"),
        }
        root.write(true);
        root.write(true);
        root.write(true);
    }
    assert!(writer.check_row_counts(3));
    writer.write_batch(3);
    writer.finish()
}

#[test]
fn s2_struct_long_string() {
    let bytes = s2_bytes();
    assert_eq!(&bytes[0..3], b"ORC");
    // column 0 (struct): no PRESENT; column 1: PRESENT [0,1,1] packed 0x60,
    // DATA int RLE literal of ZigZag(-1), ZigZag(1); column 2: DATA "aabc",
    // LENGTH literal 1, 0, 3
    let expected: [u8; 13] = [
        0xff, 0x60, // column 1 PRESENT
        0xfe, 0x01, 0x02, // column 1 DATA
        b'a', b'a', b'b', b'c', // column 2 DATA
        0xfd, 1, 0, 3, // column 2 LENGTH
    ];
    assert_eq!(&bytes[3..16], &expected);
}

#[test]
fn determinism_same_input_same_bytes() {
    let a = s2_bytes();
    let b = s2_bytes();
    assert_eq!(a, b);
}

#[test]
fn s3_list_of_long() {
    let schema = Schema::List(Box::new(Schema::Long));
    let mut writer = Writer::new(&schema, Config::new());
    {
        let l = match writer.data() {
            Data::List(l) => l,
            _ => panic!("schema mismatch"),
        };
        match l.child() {
            Data::Long(c) => {
                for j in 0..6i64 {
                    c.write(Some(j));
                }
            }
            _ => panic!("schema mismatch"),
        }
        l.write(3);
        l.write(0);
        l.write(3);
    }
    assert!(writer.check_row_counts(3));
    writer.write_batch(3);
    let bytes = writer.finish();
    // list LENGTH literal [3, 0, 3]; child DATA a run of six from base 0
    // with delta 1
    assert_eq!(&bytes[3..7], &[0xfd, 3, 0, 3]);
    assert_eq!(&bytes[7..10], &[0x03, 0x01, 0x00]);
}

#[test]
fn s4_decimal_secondary_scale() {
    let schema = Schema::Decimal(5, 2);
    let mut writer = Writer::new(&schema, Config::new());
    if let Data::Decimal64(d) = writer.data() {
        assert_eq!(d.precision(), 5);
        assert_eq!(d.scale(), 2);
        d.write(Some(-50));
        d.write(None);
        d.write(Some(12345));
    } else {
        panic!("schema mismatch");
    }
    assert!(writer.check_row_counts(3));
    writer.write_batch(3);
    let bytes = writer.finish();
    // PRESENT [1,0,1] packed 0xa0; DATA ZigZag varints of -50 and 12345;
    // SECONDARY holds the scale 2 once per present row: two entries
    let expected: [u8; 9] = [0xff, 0xa0, 0x63, 0xf2, 0xc0, 0x01, 0xfe, 4, 4];
    assert_eq!(&bytes[3..12], &expected);
}

#[test]
fn s5_boolean_all_true() {
    let schema = Schema::Boolean;
    let mut writer = Writer::new(&schema, Config::new());
    if let Data::Boolean(d) = writer.data() {
        for _ in 0..10 {
            d.write(Some(true));
        }
    } else {
        panic!("schema mismatch");
    }
    assert!(writer.check_row_counts(10));
    writer.write_batch(10);
    let bytes = writer.finish();
    // no PRESENT; DATA: a byte RLE header, the full 0xff byte, and the
    // zero-padded partial byte
    assert_eq!(&bytes[3..6], &[0xfe, 0xff, 0xc0]);
}

#[test]
fn s6_many_stripes_row_totals() {
    let schema = Schema::Long;
    let config = Config::new().with_stripe_target_size(1024);
    let mut writer = Writer::new(&schema, config);
    let total: u64 = 100_000;
    let batch: u64 = 1000;
    let mut written: u64 = 0;
    let mut v: i64 = 1;
    while written < total {
        if let Data::Long(d) = writer.data() {
            for _ in 0..batch {
                // multiplicative scrambling avoids runs, so stripes fill
                v = v.wrapping_mul(1315423911).wrapping_add(17);
                d.write(Some(v));
            }
        } else {
            panic!("schema mismatch");
        }
        written += batch;
        writer.write_batch(batch);
    }
    assert_eq!(writer.row_count(), total);
    assert!(writer.stripes().len() > 1);
    let bytes = writer.finish();

    // postscript discoverability: last byte locates the postscript, whose
    // footer_length field locates the footer
    let n = bytes.len();
    let ps_len = bytes[n - 1] as usize;
    assert!(ps_len >= 1);
    let ps = &bytes[n - 1 - ps_len..n - 1];
    let ps_fields = parse_fields(ps);
    let footer_len = ps_fields.iter().find(|f| f.0 == 1).unwrap().1 as usize;
    let compression = ps_fields.iter().find(|f| f.0 == 2).unwrap().1;
    assert_eq!(compression, 0); // NONE
    let magic = ps_fields.iter().find(|f| f.0 == 8000).unwrap().2;
    assert_eq!(&ps[magic.0..magic.1], b"ORC");

    let footer = &bytes[n - 1 - ps_len - footer_len..n - 1 - ps_len];
    let fields = parse_fields(footer);
    let number_of_rows = fields.iter().find(|f| f.0 == 6).unwrap().1;
    assert_eq!(number_of_rows, total);

    // file footer row count equals the sum of the stripe row counts
    let mut sum_rows: u64 = 0;
    let mut stripe_count = 0;
    for f in &fields {
        if f.0 == 3 {
            let sub = parse_fields(&footer[f.2 .0..f.2 .1]);
            sum_rows += sub.iter().find(|g| g.0 == 5).unwrap().1;
            stripe_count += 1;
        }
    }
    assert_eq!(sum_rows, total);
    assert!(stripe_count > 1);

    // per-column file statistics are internally consistent
    for f in &fields {
        if f.0 == 7 {
            let sub = parse_fields(&footer[f.2 .0..f.2 .1]);
            let num_present = sub.iter().find(|g| g.0 == 1).unwrap().1;
            let has_null = sub.iter().find(|g| g.0 == 10).unwrap().1;
            assert_eq!(num_present, total);
            assert_eq!(has_null, 0);
        }
    }
}

#[test]
fn present_stream_appears_exactly_with_nulls() {
    // with a null: stripe carries PRESENT, so the data segment is longer
    let schema = Schema::Long;
    let mut w1 = Writer::new(&schema, Config::new());
    if let Data::Long(d) = w1.data() {
        d.write(Some(7));
        d.write(None);
    } else {
        panic!("schema mismatch");
    }
    w1.write_batch(2);
    let with_null = w1.finish();
    // PRESENT [1,0] packed 0x80 as a literal, then DATA of the single value
    assert_eq!(&with_null[3..7], &[0xff, 0x80, 0xff, 0x0e]);

    let mut w2 = Writer::new(&schema, Config::new());
    if let Data::Long(d) = w2.data() {
        d.write(Some(7));
        d.write(Some(7));
    } else {
        panic!("schema mismatch");
    }
    w2.write_batch(2);
    let without_null = w2.finish();
    assert_eq!(&without_null[3..6], &[0xfe, 0x0e, 0x0e]);
}

#[test]
fn row_count_mismatch_is_reported() {
    let schema = Schema::Struct(vec![
        Field("x".to_owned(), Schema::Long),
        Field("y".to_owned(), Schema::Long),
    ]);
    let mut writer = Writer::new(&schema, Config::new());
    {
        let root = match writer.data() {
            Data::Struct(s) => s,
            _ => panic!("schema mismatch"),
        };
        match root.child(0) {
            Data::Long(x) => x.write(Some(1)),
            _ => panic!("schema mismatch"),
        }
        // column y receives nothing
        root.write(true);
    }
    assert!(!writer.check_row_counts(1));
    // the usage error identifies the offending column: y has id 2
    assert_eq!(writer.first_row_count_mismatch(1), Some(2));
}

#[test]
fn decimal_precision_envelope() {
    let schema = Schema::Decimal(5, 2);
    let mut writer = Writer::new(&schema, Config::new());
    if let Data::Decimal64(d) = writer.data() {
        assert!(d.fits_precision(0));
        assert!(d.fits_precision(99999));
        assert!(d.fits_precision(-99999));
        assert!(!d.fits_precision(100000));
        assert!(!d.fits_precision(-100000));
        assert_eq!(d.column_id(), 0);
    } else {
        panic!("schema mismatch");
    }
    let schema_wide = Schema::Decimal(19, 2);
    let mut writer_wide = Writer::new(&schema_wide, Config::new());
    if let Data::Decimal64(d) = writer_wide.data() {
        // nineteen digits cover every 64-bit unscaled value
        assert!(d.fits_precision(i64::MAX));
        assert!(d.fits_precision(i64::MIN));
    } else {
        panic!("schema mismatch");
    }
}

#[test]
fn remaining_column_kinds_one_row() {
    let schema = Schema::Struct(vec![
        Field("b".to_owned(), Schema::Byte),
        Field("f".to_owned(), Schema::Float),
        Field("d".to_owned(), Schema::Double),
        Field("bin".to_owned(), Schema::Binary),
        Field("t".to_owned(), Schema::Timestamp),
    ]);
    let mut writer = Writer::new(&schema, Config::new());
    {
        let root = match writer.data() {
            Data::Struct(s) => s,
            _ => panic!("schema mismatch"),
        };
        match root.child(0) {
            Data::Byte(n) => n.write(Some(7)),
            _ => panic!("schema mismatch"),
        }
        match root.child(1) {
            Data::Float(n) => n.write(Some(1.0f32.to_bits())),
            _ => panic!("schema mismatch"),
        }
        match root.child(2) {
            Data::Double(n) => n.write(Some(1.0f64.to_bits())),
            _ => panic!("schema mismatch"),
        }
        match root.child(3) {
            Data::Binary(n) => n.write(Some(&[0xaa, 0xbb])),
            _ => panic!("schema mismatch"),
        }
        match root.child(4) {
            // one second past the ORC epoch, a microsecond of nanos
            Data::Timestamp(n) => n.write(Some((1_420_070_401, 1000))),
            _ => panic!("schema mismatch"),
        }
        root.write(true);
    }
    assert!(writer.check_row_counts(1));
    writer.write_batch(1);
    let bytes = writer.finish();
    let expected: [u8; 22] = [
        0xff, 7, // byte DATA
        0x00, 0x00, 0x80, 0x3f, // float DATA: 1.0 little-endian
        0x00, 0x00, 0x00, 0x00, 0x00, 0x00, 0xf0, 0x3f, // double DATA: 1.0
        0xaa, 0xbb, // binary DATA
        0xff, 2,    // binary LENGTH
        0xff, 2,    // timestamp DATA: ZigZag(1)
        0xff, 10,   // timestamp SECONDARY: 1000 with three zeros stripped
    ];
    assert_eq!(&bytes[3..25], &expected);
}

#[test]
fn footer_carries_integer_aggregates() {
    let schema = Schema::Long;
    let mut writer = Writer::new(&schema, Config::new());
    if let Data::Long(d) = writer.data() {
        d.write(Some(2));
        d.write(Some(5));
        d.write(None);
    } else {
        panic!("schema mismatch");
    }
    assert!(writer.check_row_counts(3));
    writer.write_batch(3);
    let bytes = writer.finish();

    let n = bytes.len();
    let ps_len = bytes[n - 1] as usize;
    let ps = &bytes[n - 1 - ps_len..n - 1];
    let footer_len = parse_fields(ps).iter().find(|f| f.0 == 1).unwrap().1 as usize;
    let footer = &bytes[n - 1 - ps_len - footer_len..n - 1 - ps_len];
    let fields = parse_fields(footer);

    let col = fields.iter().find(|f| f.0 == 7).unwrap().2;
    let sub = parse_fields(&footer[col.0..col.1]);
    assert_eq!(sub.iter().find(|g| g.0 == 1).unwrap().1, 2); // present values
    assert_eq!(sub.iter().find(|g| g.0 == 10).unwrap().1, 1); // a null was seen
    let ints = sub.iter().find(|g| g.0 == 2).unwrap().2;
    let base = col.0;
    let intstats = parse_fields(&footer[base + ints.0..base + ints.1]);
    // min 2, max 5, sum 7, each a ZigZag varint
    assert_eq!(intstats.iter().find(|g| g.0 == 1).unwrap().1, 4);
    assert_eq!(intstats.iter().find(|g| g.0 == 2).unwrap().1, 10);
    assert_eq!(intstats.iter().find(|g| g.0 == 3).unwrap().1, 14);
}
