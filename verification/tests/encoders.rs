//! Unit tests for the stream encoders and byte-level primitives.

use orc_rs::compression::{CompressionStream, CountWrite};
use orc_rs::data::nanos_encode;
use orc_rs::encoder::boolean_rle::BooleanRLE;
use orc_rs::encoder::byte_rle::ByteRLE;
use orc_rs::encoder::int_rle::{SignedIntRLEv1, UnsignedIntRLEv1};
use orc_rs::encoding::zigzag_encode;

fn byte_rle(vals: &[u8]) -> Vec<u8> {
    let mut e = ByteRLE::new();
    for v in vals {
        e.write(*v);
    }
    let mut out = CountWrite::new();
    e.finish(&mut out);
    out.into_bytes()
}

fn boolean_rle(bits: &[bool]) -> Vec<u8> {
    let mut e = BooleanRLE::new();
    for b in bits {
        e.write(*b);
    }
    let mut out = CountWrite::new();
    e.finish(&mut out);
    out.into_bytes()
}

fn signed_rle(vals: &[i64]) -> Vec<u8> {
    let mut e = SignedIntRLEv1::new();
    for v in vals {
        e.write(*v);
    }
    let mut out = CountWrite::new();
    e.finish(&mut out);
    out.into_bytes()
}

fn unsigned_rle(vals: &[u64]) -> Vec<u8> {
    let mut e = UnsignedIntRLEv1::new();
    for v in vals {
        e.write(*v);
    }
    let mut out = CountWrite::new();
    e.finish(&mut out);
    out.into_bytes()
}

#[test]
fn zigzag_values() {
    assert_eq!(zigzag_encode(0), 0);
    assert_eq!(zigzag_encode(-1), 1);
    assert_eq!(zigzag_encode(1), 2);
    assert_eq!(zigzag_encode(-2), 3);
    assert_eq!(zigzag_encode(5), 10);
    assert_eq!(zigzag_encode(i64::MIN), u64::MAX);
    assert_eq!(zigzag_encode(i64::MAX), u64::MAX - 1);
}

#[test]
fn varint_values() {
    let mut cs = CompressionStream::new();
    cs.write_uvarint(0);
    cs.write_uvarint(127);
    cs.write_uvarint(128);
    cs.write_uvarint(16383);
    cs.write_uvarint(16384);
    let b = cs.into_bytes();
    assert_eq!(
        b,
        vec![0x00, 0x7f, 0x80, 0x01, 0xff, 0x7f, 0x80, 0x80, 0x01]
    );
}

#[test]
fn byte_rle_run_and_literals() {
    // a run of three or more becomes control len-3 plus the byte
    assert_eq!(byte_rle(&[7, 7, 7]), vec![0x00, 7]);
    assert_eq!(byte_rle(&[7, 7, 7, 7, 7]), vec![0x02, 7]);
    // distinct bytes stay literal: control is the negative count
    assert_eq!(byte_rle(&[1, 2, 3]), vec![0xfd, 1, 2, 3]);
    // literals before a run are flushed first
    assert_eq!(byte_rle(&[9, 8, 5, 5, 5, 5]), vec![0xfe, 9, 8, 0x01, 5]);
}

#[test]
fn byte_rle_long_run_splits() {
    // 131 copies: a full 130-run, then a single literal
    let vals = vec![42u8; 131];
    assert_eq!(byte_rle(&vals), vec![127, 42, 0xff, 42]);
}

#[test]
fn byte_rle_literal_buffer_flush() {
    // 128 distinct bytes flush as one full literal group
    let vals: Vec<u8> = (0..128).map(|i| i as u8).collect();
    let out = byte_rle(&vals);
    assert_eq!(out[0], 0x80);
    assert_eq!(out.len(), 129);
    assert_eq!(&out[1..], &vals[..]);
}

#[test]
fn boolean_rle_packs_msb_first() {
    // 1,0,1 packs to 0b1010_0000 with zero padding
    assert_eq!(boolean_rle(&[true, false, true]), vec![0xff, 0xa0]);
    // 10 trues: 0xff then padded 0xc0
    assert_eq!(boolean_rle(&[true; 10]), vec![0xfe, 0xff, 0xc0]);
    // 24 trues: three 0xff bytes become a run
    assert_eq!(boolean_rle(&[true; 24]), vec![0x00, 0xff]);
}

#[test]
fn int_rle_delta_run() {
    // 0..=5 share delta 1: header 3 (six values), delta 1, base ZigZag(0)
    assert_eq!(signed_rle(&[0, 1, 2, 3, 4, 5]), vec![0x03, 0x01, 0x00]);
    // a descending run has a negative delta byte
    assert_eq!(signed_rle(&[10, 9, 8]), vec![0x00, 0xff, 20]);
}

#[test]
fn int_rle_literals() {
    assert_eq!(signed_rle(&[2, -3, 100]), vec![0xfd, 4, 5, 0xc8, 0x01]);
    assert_eq!(unsigned_rle(&[3, 0, 3]), vec![0xfd, 3, 0, 3]);
}

#[test]
fn int_rle_run_after_literals() {
    // two literals, then five equal values: literal group then run
    assert_eq!(
        unsigned_rle(&[9, 1, 4, 4, 4, 4, 4]),
        vec![0xfe, 9, 1, 0x02, 0x00, 4]
    );
}

#[test]
fn nanos_trailing_zero_encoding() {
    assert_eq!(nanos_encode(0), 0);
    assert_eq!(nanos_encode(1), 8);
    assert_eq!(nanos_encode(12345), 12345 * 8);
    // the low three bits carry one less than the stripped zero count, so a
    // reader multiplies a nonzero flag f by ten to the f+1
    assert_eq!(nanos_encode(1000), 0x0a);
    assert_eq!(nanos_encode(100_000), 0x0c);
    assert_eq!(nanos_encode(123_456_700), 1234567 * 8 + 1);
    assert_eq!(nanos_encode(100_000_000), 8 + 7);
}
