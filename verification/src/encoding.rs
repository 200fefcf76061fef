//! Byte-level encoding primitives shared by every stream encoder:
//! unsigned LEB128 varints, the ZigZag map for signed values, and
//! MSB-first bit packing for boolean streams.

use vstd::prelude::*;

verus! {

/// Unsigned LEB128 bytes of `n`: seven value bits per byte, least
/// significant group first; every byte but the last has its high bit set.
pub open spec fn uvarint(n: nat) -> Seq<u8>
    decreases n,
{
    if n < 128 {
        seq![n as u8]
    } else {
        seq![(128 + n % 128) as u8] + uvarint(n / 128)
    }
}

/// ZigZag map: a non-negative value x becomes 2x, a negative one -2x - 1,
/// so that values of small magnitude get short varints.
pub open spec fn zigzag(x: int) -> nat {
    if x >= 0 {
        (2 * x) as nat
    } else {
        (-2 * x - 1) as nat
    }
}

/// Signed varint bytes: ZigZag first, then LEB128.
pub open spec fn svarint(x: int) -> Seq<u8> {
    uvarint(zigzag(x))
}

/// Inverse of the ZigZag map.
pub open spec fn zigzag_decode(n: nat) -> int {
    if n % 2 == 0 {
        (n / 2) as int
    } else {
        -((n / 2) as int) - 1
    }
}

/// A varint parse result: the decoded value and how many bytes it took.
pub open spec fn uvarint_decode(s: Seq<u8>) -> Option<(nat, nat)>
    decreases s.len(),
{
    if s.len() == 0 {
        None
    } else if s[0] < 128 {
        Some((s[0] as nat, 1))
    } else {
        match uvarint_decode(s.skip(1)) {
            Some((v, used)) => Some(((s[0] - 128 + 128 * v) as nat, used + 1)),
            None => None,
        }
    }
}

/// ZigZag decoding inverts ZigZag encoding.
pub proof fn lemma_zigzag_roundtrip(x: int)
    ensures
        zigzag_decode(zigzag(x)) == x,
{
}

/// Varint decoding inverts varint encoding, from any position of a longer
/// byte sequence.
pub proof fn lemma_uvarint_roundtrip(n: nat, rest: Seq<u8>)
    ensures
        uvarint_decode(uvarint(n) + rest) == Some((n, uvarint(n).len())),
    decreases n,
{
    let s = uvarint(n) + rest;
    if n < 128 {
        assert(s[0] == n as u8);
    } else {
        assert(s[0] == (128 + n % 128) as u8);
        lemma_uvarint_roundtrip(n / 128, rest);
        assert(s.skip(1) =~= uvarint(n / 128) + rest);
        assert((s[0] - 128) + 128 * (n / 128) == n) by {
            assert(n % 128 + 128 * (n / 128) == n) by (nonlinear_arith);
        };
    }
}

/// The byte a sequence of up to eight bits packs into, MSB-first, the
/// missing low bits zero.
pub open spec fn bits_byte(bits: Seq<bool>) -> u8
    decreases bits.len(),
{
    if bits.len() == 0 {
        0
    } else {
        (bits_byte(bits.drop_last()) + if bits.last() {
            bit_weight(bits.len() - 1)
        } else {
            0
        }) as u8
    }
}

/// Weight of bit position i (0-based from the most significant end) in an
/// MSB-first packed byte.
pub open spec fn bit_weight(i: int) -> u8 {
    if i == 0 {
        128
    } else if i == 1 {
        64
    } else if i == 2 {
        32
    } else if i == 3 {
        16
    } else if i == 4 {
        8
    } else if i == 5 {
        4
    } else if i == 6 {
        2
    } else {
        1
    }
}

/// `bits_byte` of at most eight bits never overflows a byte: it is bounded
/// by the sum of the weights of its positions.
pub proof fn lemma_bits_byte_bound(bits: Seq<bool>)
    requires
        bits.len() <= 8,
    ensures
        bits.len() == 0 ==> bits_byte(bits) == 0,
        bits.len() > 0 ==> bits_byte(bits) as int <= 256 - bit_weight(bits.len() - 1) as int,
    decreases bits.len(),
{
    if bits.len() > 0 {
        lemma_bits_byte_bound(bits.drop_last());
    }
}

/// A boolean sequence packed into whole bytes, MSB-first, the final partial
/// byte padded with zero bits.
pub open spec fn bits_bytes(bits: Seq<bool>) -> Seq<u8>
    decreases bits.len(),
{
    if bits.len() == 0 {
        seq![]
    } else if bits.len() <= 8 {
        seq![bits_byte(bits)]
    } else {
        seq![bits_byte(bits.take(8))] + bits_bytes(bits.skip(8))
    }
}

/// Packing distributes over appending a final group of at most eight bits
/// to a whole number of bytes.
pub proof fn lemma_bits_bytes_append(a: Seq<bool>, t: Seq<bool>)
    requires
        a.len() % 8 == 0,
        0 < t.len() <= 8,
    ensures
        bits_bytes(a + t) == bits_bytes(a) + seq![bits_byte(t)],
    decreases a.len(),
{
    if a.len() == 0 {
        assert(a + t =~= t);
        assert(bits_bytes(a) + seq![bits_byte(t)] =~= seq![bits_byte(t)]);
    } else {
        let s = a + t;
        assert(s.len() > 8);
        assert(s.take(8) =~= a.take(8));
        assert(s.skip(8) =~= a.skip(8) + t);
        lemma_bits_bytes_append(a.skip(8), t);
        if a.len() == 8 {
            assert(a.take(8) =~= a);
            assert(a.skip(8) =~= Seq::<bool>::empty());
        }
        assert(bits_bytes(a) =~= seq![bits_byte(a.take(8))] + bits_bytes(a.skip(8)));
        assert(bits_bytes(s) =~= bits_bytes(a) + seq![bits_byte(t)]);
    }
}

/// Exec form of the ZigZag map.
pub fn zigzag_encode(x: i64) -> (r: u64)
    ensures
        r as nat == zigzag(x as int),
{
    if x >= 0 {
        (x as u64) * 2
    } else {
        let m: i64 = -(x + 1);
        (m as u64) * 2 + 1
    }
}

} // verus!
