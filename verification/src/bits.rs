//! The mathematical description of bit unpacking.

use vstd::arithmetic::power2::{lemma2_to64, pow2};
use vstd::prelude::*;

verus! {

/// The value of the leading bit of a byte. A byte is at least this large
/// exactly when its leading bit is set.
pub const LEADING_BIT: u8 = 128;

/// Place value of the bit at position `k` of a byte, counting from the most
/// significant bit: position 0 weighs 128, position 7 weighs 1.
pub open spec fn place_value(k: int) -> int {
    pow2((7 - k) as nat) as int
}

/// The bit of `byte` at position `k`, counting from the most significant bit.
pub open spec fn bit_at(byte: u8, k: int) -> u8 {
    if (byte as int / place_value(k)) % 2 == 1 {
        1u8
    } else {
        0u8
    }
}

/// The eight bits of one byte, most significant first.
pub open spec fn byte_bits(byte: u8) -> Seq<u8> {
    Seq::new(8, |k: int| bit_at(byte, k))
}

/// The bits of a run of bytes: the bytes keep their order, and each byte
/// contributes its eight bits, most significant first.
pub open spec fn unpacked_bits(bytes: Seq<u8>) -> Seq<u8> {
    Seq::new(8 * bytes.len(), |i: int| bit_at(bytes[i / 8], i % 8))
}

/// The eight bits of a byte written out: the quotients by 128, 64, ..., 1,
/// each taken modulo 2.
pub proof fn lemma_byte_bits_values(byte: u8)
    ensures
        byte_bits(byte) == seq![
            (byte / 128) % 2,
            (byte / 64) % 2,
            (byte / 32) % 2,
            (byte / 16) % 2,
            (byte / 8) % 2,
            (byte / 4) % 2,
            (byte / 2) % 2,
            byte % 2,
        ],
{
    lemma2_to64();
    let b = byte as int;
    assert(bit_at(byte, 0) == (b / 128) % 2);
    assert(bit_at(byte, 1) == (b / 64) % 2);
    assert(bit_at(byte, 2) == (b / 32) % 2);
    assert(bit_at(byte, 3) == (b / 16) % 2);
    assert(bit_at(byte, 4) == (b / 8) % 2);
    assert(bit_at(byte, 5) == (b / 4) % 2);
    assert(bit_at(byte, 6) == (b / 2) % 2);
    assert(bit_at(byte, 7) == (b / 1) % 2);
}

/// Unpacking loses nothing: the bits of a byte, each times its place value,
/// add up to the byte.
pub proof fn lemma_byte_bits_sum(byte: u8)
    ensures
        byte == 128 * byte_bits(byte)[0] + 64 * byte_bits(byte)[1] + 32 * byte_bits(byte)[2] + 16
            * byte_bits(byte)[3] + 8 * byte_bits(byte)[4] + 4 * byte_bits(byte)[5] + 2
            * byte_bits(byte)[6] + byte_bits(byte)[7],
{
    lemma_byte_bits_values(byte);
    assert(byte == 128 * ((byte / 128) % 2) + 64 * ((byte / 64) % 2) + 32 * ((byte / 32) % 2) + 16
        * ((byte / 16) % 2) + 8 * ((byte / 8) % 2) + 4 * ((byte / 4) % 2) + 2 * ((byte / 2) % 2)
        + byte % 2) by (bit_vector);
}

/// Unpacking one more byte appends the eight bits of that byte.
pub proof fn lemma_unpacked_bits_push(bytes: Seq<u8>, byte: u8)
    ensures
        unpacked_bits(bytes.push(byte)) == unpacked_bits(bytes) + byte_bits(byte),
{
    let whole = unpacked_bits(bytes.push(byte));
    let parts = unpacked_bits(bytes) + byte_bits(byte);
    assert(whole.len() == parts.len());
    assert forall|i: int| 0 <= i < whole.len() implies whole[i] == parts[i] by {
        if i >= 8 * bytes.len() {
            assert(i / 8 == bytes.len());
            assert(i % 8 == i - 8 * bytes.len());
        } else {
            assert(i / 8 < bytes.len());
        }
    }
}

/// What is left of `byte` in an eight-bit register after `t` left shifts by
/// one, each discarding the bit that leaves the register.
pub open spec fn shifted_left(byte: u8, t: nat) -> int {
    (byte as int * pow2(t) as int) % 256
}

/// No shift leaves the byte as it is, and the register always holds a byte.
pub proof fn lemma_shifted_left_range(byte: u8, t: nat)
    ensures
        shifted_left(byte, 0) == byte,
        0 <= shifted_left(byte, t) < 256,
{
    lemma2_to64();
}

/// After `t < 8` shifts the leading bit of the register is the bit of
/// `byte` at position `t`.
pub proof fn lemma_shifted_left_leading_bit(byte: u8, t: nat)
    requires
        t < 8,
    ensures
        (shifted_left(byte, t) >= 128) <==> bit_at(byte, t as int) == 1,
{
    lemma2_to64();
    lemma_byte_bits_values(byte);
    assert(bit_at(byte, t as int) == byte_bits(byte)[t as int]);
    if t == 0 {
        assert((byte * 1) % 256 >= 128 <==> (byte / 128) % 2 == 1) by (bit_vector);
    } else if t == 1 {
        assert((byte * 2) % 256 >= 128 <==> (byte / 64) % 2 == 1) by (bit_vector);
    } else if t == 2 {
        assert((byte * 4) % 256 >= 128 <==> (byte / 32) % 2 == 1) by (bit_vector);
    } else if t == 3 {
        assert((byte * 8) % 256 >= 128 <==> (byte / 16) % 2 == 1) by (bit_vector);
    } else if t == 4 {
        assert((byte * 16) % 256 >= 128 <==> (byte / 8) % 2 == 1) by (bit_vector);
    } else if t == 5 {
        assert((byte * 32) % 256 >= 128 <==> (byte / 4) % 2 == 1) by (bit_vector);
    } else if t == 6 {
        assert((byte * 64) % 256 >= 128 <==> (byte / 2) % 2 == 1) by (bit_vector);
    } else {
        assert((byte * 128) % 256 >= 128 <==> byte % 2 == 1) by (bit_vector);
    }
}

/// One more shift doubles the register modulo 256.
pub proof fn lemma_shifted_left_next(byte: u8, t: nat)
    ensures
        (2 * shifted_left(byte, t)) % 256 == shifted_left(byte, t + 1),
{
    let x = byte as int * pow2(t) as int;
    assert(pow2(t + 1) == 2 * pow2(t)) by {
        vstd::arithmetic::power2::lemma_pow2_unfold(t + 1);
    }
    assert(byte as int * (2 * pow2(t)) as int == 2 * x) by (nonlinear_arith)
        requires
            x == byte as int * pow2(t) as int,
    ;
    assert((2 * (x % 256)) % 256 == (2 * x) % 256);
}

} // verus!
