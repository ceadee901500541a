//! Little-endian byte views of integers, and the byte-order calls that read and
//! write them in a buffer.

use vstd::prelude::*;
use vstd::arithmetic::power2::pow2;
use byteorder::{ByteOrder, LittleEndian};

verus! {

/// The unsigned number that `bytes` stand for, least significant byte first.
pub open spec fn le_value(bytes: Seq<u8>) -> nat
    decreases bytes.len(),
{
    if bytes.len() == 0 {
        0
    } else {
        bytes[0] as nat + 256 * le_value(bytes.drop_first())
    }
}

/// The `n` bytes of `value` modulo `256^n`, least significant byte first.
pub open spec fn le_bytes(value: nat, n: nat) -> Seq<u8>
    decreases n,
{
    if n == 0 {
        seq![]
    } else {
        seq![(value % 256) as u8] + le_bytes(value / 256, (n - 1) as nat)
    }
}

/// The signed number that the `bits`-bit two's complement pattern `x` stands for.
pub open spec fn as_signed(x: nat, bits: nat) -> int {
    if x >= pow2((bits - 1) as nat) {
        x - pow2(bits)
    } else {
        x as int
    }
}

/// `value` reduced to `bits` bits of two's complement: the pattern that stores it.
pub open spec fn as_unsigned(value: int, bits: nat) -> nat {
    (value % (pow2(bits) as int)) as nat
}

/// The 32-bit little-endian word that starts at byte `at` of `bytes`.
pub open spec fn word_at(bytes: Seq<u8>, at: int) -> u32 {
    le_value(bytes.subrange(at, at + 4)) as u32
}

/// `bytes` with the four bytes at `at` replaced by the little-endian bytes of `word`.
pub open spec fn with_word_at(bytes: Seq<u8>, at: int, word: u32) -> Seq<u8> {
    bytes.subrange(0, at) + le_bytes(word as nat, 4) + bytes.subrange(at + 4, bytes.len() as int)
}

/// The four little-endian bytes of a word.
pub proof fn lemma_le_bytes4(w: u32)
    ensures
        le_bytes(w as nat, 4) == seq![
            (w % 256) as u8,
            (w / 0x100 % 256) as u8,
            (w / 0x10000 % 256) as u8,
            (w / 0x1000000 % 256) as u8,
        ],
        le_bytes(w as nat, 4).len() == 4,
{
    reveal_with_fuel(le_bytes, 5);
    let n = w as nat;
    assert(n / 256 / 256 == n / 0x10000) by (nonlinear_arith);
    assert(n / 256 / 256 / 256 == n / 0x1000000) by (nonlinear_arith);
    assert(le_bytes(w as nat, 4) =~= seq![
        (w % 256) as u8,
        (w / 0x100 % 256) as u8,
        (w / 0x10000 % 256) as u8,
        (w / 0x1000000 % 256) as u8,
    ]);
}

/// The value of four bytes, least significant first.
pub proof fn lemma_le_value4(s: Seq<u8>)
    requires
        s.len() == 4,
    ensures
        le_value(s) == s[0] as nat + 256 * (s[1] as nat + 256 * (s[2] as nat + 256 * s[3] as nat)),
        le_value(s) < 0x1_0000_0000,
{
    reveal_with_fuel(le_value, 5);
    assert(s.drop_first().drop_first().drop_first().drop_first() =~= Seq::<u8>::empty());
    let (a, b, c, d) = (s[0] as nat, s[1] as nat, s[2] as nat, s[3] as nat);
    assert(a + 256 * (b + 256 * (c + 256 * d)) < 0x1_0000_0000) by (nonlinear_arith)
        requires a < 256, b < 256, c < 256, d < 256;
}

/// Reading back the bytes of a word gives the word.
pub proof fn lemma_word_roundtrip(w: u32)
    ensures
        le_value(le_bytes(w as nat, 4)) == w as nat,
{
    lemma_le_bytes4(w);
    lemma_le_value4(le_bytes(w as nat, 4));
    assert(w == (w % 256) + 256 * ((w / 0x100 % 256) + 256 * ((w / 0x10000 % 256) + 256 * (w
        / 0x1000000 % 256)))) by (bit_vector);
}

/// A word written at `at` is read back from `at`, and the other bytes keep their values.
pub proof fn lemma_with_word_at(bytes: Seq<u8>, at: int, word: u32)
    requires
        0 <= at,
        at + 4 <= bytes.len(),
    ensures
        with_word_at(bytes, at, word).len() == bytes.len(),
        word_at(with_word_at(bytes, at, word), at) == word,
        forall|i: int|
            0 <= i < bytes.len() && !(at <= i < at + 4) ==> #[trigger] with_word_at(
                bytes,
                at,
                word,
            )[i] == bytes[i],
{
    lemma_le_bytes4(word);
    lemma_word_roundtrip(word);
    let nb = with_word_at(bytes, at, word);
    assert(nb.subrange(at, at + 4) =~= le_bytes(word as nat, 4));
}

/// Reading back the `n` bytes of `value` gives `value` modulo `2^(8n)`.
pub proof fn lemma_le_bytes_value(value: nat, n: nat)
    ensures
        le_bytes(value, n).len() == n,
        le_value(le_bytes(value, n)) == value % pow2(8 * n),
    decreases n,
{
    vstd::arithmetic::power2::lemma2_to64();
    if n == 0 {
        assert(value % 1 == 0);
    } else {
        let m = (n - 1) as nat;
        lemma_le_bytes_value(value / 256, m);
        let s = le_bytes(value, n);
        assert(s.drop_first() =~= le_bytes(value / 256, m));
        vstd::arithmetic::power2::lemma_pow2_adds(8, 8 * m);
        assert(8 + 8 * m == 8 * n);
        vstd::arithmetic::power2::lemma_pow2_pos(8 * m);
        vstd::arithmetic::div_mod::lemma_mod_breakdown(value as int, 256, pow2(8 * m) as int);
    }
}

/// A number that fits `bits` bits comes back from its two's complement pattern.
pub proof fn lemma_as_signed_inverse(v: int, bits: nat)
    requires
        1 <= bits,
        -(pow2((bits - 1) as nat) as int) <= v < pow2((bits - 1) as nat),
    ensures
        as_signed(as_unsigned(v, bits), bits) == v,
{
    let h = pow2((bits - 1) as nat) as int;
    let p = pow2(bits) as int;
    vstd::arithmetic::power2::lemma2_to64();
    vstd::arithmetic::power2::lemma_pow2_adds((bits - 1) as nat, 1);
    vstd::arithmetic::power2::lemma_pow2_pos((bits - 1) as nat);
    if v >= 0 {
        vstd::arithmetic::div_mod::lemma_fundamental_div_mod_converse(v, p, 0, v);
    } else {
        vstd::arithmetic::div_mod::lemma_fundamental_div_mod_converse(v, p, -1, v + p);
    }
}

/// Reads the little-endian `u32` that starts at byte `at` of `buf`.
///
/// Calls `byteorder::LittleEndian::read_u32` on the part of `buf` from `at` on; that call
/// reads the first four bytes, least significant first, and panics when fewer than four are
/// there, which `requires` rules out.
#[verifier::external_body]
pub(crate) fn read_u32_at(buf: &[u8], at: usize) -> (r: u32)
    requires
        at + 4 <= buf@.len(),
    ensures
        r == word_at(buf@, at as int),
{
    LittleEndian::read_u32(&buf[at..])
}

/// Writes `n` as four little-endian bytes at byte `at` of `buf`.
///
/// Calls `byteorder::LittleEndian::write_u32` on the part of `buf` from `at` on; that call
/// overwrites the first four bytes with `n`, least significant first, and leaves the rest
/// alone. It panics when fewer than four bytes are there, which `requires` rules out.
#[verifier::external_body]
pub(crate) fn write_u32_at(buf: &mut [u8], at: usize, n: u32)
    requires
        at + 4 <= old(buf)@.len(),
    ensures
        final(buf)@ == with_word_at(old(buf)@, at as int, n),
{
    LittleEndian::write_u32(&mut buf[at..], n)
}

/// Reads a little-endian `i16` from the start of `buf`.
///
/// Calls `byteorder::LittleEndian::read_i16`, which reads the first two bytes as a two's
/// complement number, least significant byte first; it panics on fewer than two bytes.
#[verifier::external_body]
pub(crate) fn read_i16(buf: &[u8]) -> (r: i16)
    requires
        2 <= buf@.len(),
    ensures
        r as int == as_signed(le_value(buf@.subrange(0, 2)), 16),
{
    LittleEndian::read_i16(buf)
}

/// Reads a little-endian `i32` from the start of `buf`.
///
/// Calls `byteorder::LittleEndian::read_i32`, which reads the first four bytes as a two's
/// complement number, least significant byte first; it panics on fewer than four bytes.
#[verifier::external_body]
pub(crate) fn read_i32(buf: &[u8]) -> (r: i32)
    requires
        4 <= buf@.len(),
    ensures
        r as int == as_signed(le_value(buf@.subrange(0, 4)), 32),
{
    LittleEndian::read_i32(buf)
}

/// Reads a little-endian `i64` from the start of `buf`.
///
/// Calls `byteorder::LittleEndian::read_i64`, which reads the first eight bytes as a two's
/// complement number, least significant byte first; it panics on fewer than eight bytes.
#[verifier::external_body]
pub(crate) fn read_i64(buf: &[u8]) -> (r: i64)
    requires
        8 <= buf@.len(),
    ensures
        r as int == as_signed(le_value(buf@.subrange(0, 8)), 64),
{
    LittleEndian::read_i64(buf)
}

/// Writes `n` as two little-endian bytes at the start of `buf`.
///
/// Calls `byteorder::LittleEndian::write_i16`, which overwrites the first two bytes with the
/// two's complement of `n`, least significant first; it panics on fewer than two bytes.
#[verifier::external_body]
pub(crate) fn write_i16(buf: &mut [u8], n: i16)
    requires
        2 <= old(buf)@.len(),
    ensures
        final(buf)@ == le_bytes(as_unsigned(n as int, 16), 2) + old(buf)@.subrange(
            2,
            old(buf)@.len() as int,
        ),
{
    LittleEndian::write_i16(buf, n)
}

/// Writes `n` as four little-endian bytes at the start of `buf`.
///
/// Calls `byteorder::LittleEndian::write_i32`, which overwrites the first four bytes with the
/// two's complement of `n`, least significant first; it panics on fewer than four bytes.
#[verifier::external_body]
pub(crate) fn write_i32(buf: &mut [u8], n: i32)
    requires
        4 <= old(buf)@.len(),
    ensures
        final(buf)@ == le_bytes(as_unsigned(n as int, 32), 4) + old(buf)@.subrange(
            4,
            old(buf)@.len() as int,
        ),
{
    LittleEndian::write_i32(buf, n)
}

/// Writes `n` as eight little-endian bytes at the start of `buf`.
///
/// Calls `byteorder::LittleEndian::write_i64`, which overwrites the first eight bytes with the
/// two's complement of `n`, least significant first; it panics on fewer than eight bytes.
#[verifier::external_body]
pub(crate) fn write_i64(buf: &mut [u8], n: i64)
    requires
        8 <= old(buf)@.len(),
    ensures
        final(buf)@ == le_bytes(as_unsigned(n as int, 64), 8) + old(buf)@.subrange(
            8,
            old(buf)@.len() as int,
        ),
{
    LittleEndian::write_i64(buf, n)
}

} // verus!
