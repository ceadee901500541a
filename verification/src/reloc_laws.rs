//! What a write and a read of the LoongArch relocations have to do with each other.

use vstd::prelude::*;
use vstd::arithmetic::power2::{pow2, lemma2_to64, lemma2_to64_rest, lemma_pow2_adds, lemma_pow2_pos};
use vstd::arithmetic::div_mod::{
    lemma_fundamental_div_mod, lemma_fundamental_div_mod_converse, lemma_mod_bound,
};
use crate::bytes::{word_at, with_word_at, lemma_with_word_at, lemma_le_bytes_value, lemma_as_signed_inverse, le_bytes, as_unsigned};
use crate::relocation::{fits_signed, sign_extend};
use crate::loongarch::{LoongArchRelocation, patch};

verus! {

/// Taking the low `bits` bits of a number that fits them, and sign-extending, gives it back.
pub proof fn lemma_sign_extend_inverse(v: int, bits: nat)
    requires
        1 <= bits < 64,
        fits_signed(v, bits),
    ensures
        sign_extend(v % (pow2(bits) as int), bits) == v,
{
    let h = pow2((bits - 1) as nat) as int;
    let p = pow2(bits) as int;
    lemma2_to64();
    lemma_pow2_adds((bits - 1) as nat, 1);
    assert(p == 2 * h);
    lemma_pow2_pos((bits - 1) as nat);
    if v >= 0 {
        lemma_fundamental_div_mod_converse(v, p, 0, v);
        lemma_fundamental_div_mod_converse(v, h, 0, v);
    } else {
        lemma_fundamental_div_mod_converse(v, p, -1, v + p);
        lemma_fundamental_div_mod_converse(v + p, h, 1, v + p - h);
    }
}

/// For a multiple `v` of `s`, the low bits of `v / s`, scaled back by `s`, are the low bits
/// of `v`.
pub proof fn lemma_scaled_mod(v: int, s: int, m: int)
    requires
        s > 0,
        m > 0,
        v % s == 0,
    ensures
        ((v / s) % m) * s == v % (s * m),
{
    lemma_fundamental_div_mod(v, s);
    let q = v / s;
    lemma_fundamental_div_mod(q, m);
    let a = q / m;
    let b = q % m;
    lemma_mod_bound(q, m);
    assert(v == (s * m) * a + s * b) by (nonlinear_arith)
        requires
            v == s * q + 0,
            q == m * a + b,
    ;
    assert(0 <= s * b < s * m) by (nonlinear_arith)
        requires
            0 <= b < m,
            s > 0,
    ;
    lemma_fundamental_div_mod_converse(v, s * m, a, s * b);
}

proof fn lemma_patch_hi20(t: u32, f: u32)
    requires
        f < 0x100000,
    ensures
        patch(t, 0xFE00_001F, f * 0x20) / 0x20 % 0x100000 == f,
{
    assert(((t & 0xFE00_001Fu32) | ((f * 0x20) as u32)) / 0x20 % 0x100000 == f) by (bit_vector)
        requires
            f < 0x100000,
    ;
}

proof fn lemma_patch_lo12(t: u32, f: u32)
    requires
        f < 0x1000,
    ensures
        patch(t, 0xFFC0_03FF, f * 0x400) / 0x400 % 0x1000 == f,
{
    assert(((t & 0xFFC0_03FFu32) | ((f * 0x400) as u32)) / 0x400 % 0x1000 == f) by (bit_vector)
        requires
            f < 0x1000,
    ;
}

proof fn lemma_patch_k16(t: u32, f: u32)
    requires
        f < 0x10000,
    ensures
        patch(t, 0xFC00_03FF, f * 0x400) / 0x400 % 0x10000 == f,
        f < 0x400 ==> patch(t, 0xFC00_03FF, f * 0x400) / 0x400 % 0x400 == f,
{
    assert(((t & 0xFC00_03FFu32) | ((f * 0x400) as u32)) / 0x400 % 0x10000 == f) by (bit_vector)
        requires
            f < 0x10000,
    ;
    assert(f < 0x400 ==> ((t & 0xFC00_03FFu32) | ((f * 0x400) as u32)) / 0x400 % 0x400 == f)
        by (bit_vector);
}

proof fn lemma_patch_b21(t: u32, lo: u32, hi: u32)
    requires
        lo < 0x10000,
        hi < 0x20,
    ensures
        patch(t, 0xFC00_03E0, lo * 0x400 + hi) % 0x20 == hi,
        patch(t, 0xFC00_03E0, lo * 0x400 + hi) / 0x400 % 0x10000 == lo,
{
    assert(((t & 0xFC00_03E0u32) | ((lo * 0x400 + hi) as u32)) % 0x20 == hi && ((t
        & 0xFC00_03E0u32) | ((lo * 0x400 + hi) as u32)) / 0x400 % 0x10000 == lo) by (bit_vector)
        requires
            lo < 0x10000,
            hi < 0x20,
    ;
}

proof fn lemma_patch_b26(t: u32, lo: u32, hi: u32)
    requires
        lo < 0x10000,
        hi < 0x400,
    ensures
        patch(t, 0xFC00_0000, lo * 0x400 + hi) % 0x400 == hi,
        patch(t, 0xFC00_0000, lo * 0x400 + hi) / 0x400 % 0x10000 == lo,
{
    assert(((t & 0xFC00_0000u32) | ((lo * 0x400 + hi) as u32)) % 0x400 == hi && ((t
        & 0xFC00_0000u32) | ((lo * 0x400 + hi) as u32)) / 0x400 % 0x10000 == lo) by (bit_vector)
        requires
            lo < 0x10000,
            hi < 0x400,
    ;
}

proof fn lemma_patch_si14(t: u32, f: u32)
    requires
        f < 0x4000,
    ensures
        patch(t, 0xFF00_03FF, f * 0x400) / 0x400 % 0x4000 == f,
{
    assert(((t & 0xFF00_03FFu32) | ((f * 0x400) as u32)) / 0x400 % 0x4000 == f) by (bit_vector)
        requires
            f < 0x4000,
    ;
}

/// The low bits of `q` below `m * n`, in two parts: those above `m` and those below.
proof fn lemma_split_mod(q: int, m: int, n: int)
    requires
        m > 0,
        n > 0,
    ensures
        (q / m % n) * m + q % m == q % (m * n),
{
    lemma_fundamental_div_mod(q, m);
    let d = q / m;
    lemma_fundamental_div_mod(d, n);
    lemma_mod_bound(q, m);
    lemma_mod_bound(d, n);
    let a = d / n;
    let b = d % n;
    let c = q % m;
    assert(q == (m * n) * a + (b * m + c)) by (nonlinear_arith)
        requires
            q == m * d + c,
            d == n * a + b,
    ;
    assert(0 <= b * m + c < m * n) by (nonlinear_arith)
        requires
            0 <= b < n,
            0 <= c < m,
    ;
    lemma_fundamental_div_mod_converse(q, m * n, a, b * m + c);
}

/// An aligned offset whose 4-byte units are split into a low 16-bit part and a high part
/// below `n` reads back from those parts as the offset.
proof fn lemma_branch_parts(v: int, n: int, bits: nat)
    requires
        v % 4 == 0,
        n > 0,
        1 <= bits < 64,
        pow2(bits) == 0x40000 * n,
        fits_signed(v, bits),
    ensures
        sign_extend(((v / 0x40000) % n * 0x10000 + (v / 4) % 0x10000) * 4, bits) == v,
{
    let q = v / 4;
    lemma_fundamental_div_mod(v, 4);
    lemma_fundamental_div_mod(q, 0x10000);
    lemma_fundamental_div_mod_converse(v, 0x40000, q / 0x10000, 4 * (q % 0x10000));
    lemma_split_mod(q, 0x10000, n);
    lemma_scaled_mod(v, 4, 0x10000 * n);
    assert(4 * (0x10000 * n) == 0x40000 * n);
    lemma_sign_extend_inverse(v, bits);
}

/// A single-word relocation reads back, from the word it patched, every value it keeps
/// exactly.
proof fn lemma_single_word_roundtrip(r: LoongArchRelocation, t: u32, v: int)
    requires
        !r.is_split(),
        !(r is Plain),
        r.reads_back_exactly(v),
    ensures
        r.encode_spec(v) is Some,
        r.decode_spec((t & r.spec_op_mask()) | r.encode_spec(v).unwrap()) == v,
{
    lemma2_to64();
    lemma2_to64_rest();
    match r {
        LoongArchRelocation::B16 => {
            let f = (v / 4) % 0x10000;
            lemma_patch_k16(t, f as u32);
            lemma_scaled_mod(v, 4, 0x10000);
            lemma_fundamental_div_mod(v, 4);
            lemma_sign_extend_inverse(v, 18);
        },
        LoongArchRelocation::B21 => {
            let lo = (v / 4) % 0x10000;
            let hi = (v / 0x40000) % 0x20;
            lemma_patch_b21(t, lo as u32, hi as u32);
            lemma_fundamental_div_mod(v, 4);
            lemma_branch_parts(v, 0x20, 23);
        },
        LoongArchRelocation::B26 => {
            let lo = (v / 4) % 0x10000;
            let hi = (v / 0x40000) % 0x400;
            lemma_patch_b26(t, lo as u32, hi as u32);
            lemma_fundamental_div_mod(v, 4);
            lemma_branch_parts(v, 0x400, 28);
        },
        LoongArchRelocation::SI14 => {
            let f = (v / 4) % 0x4000;
            lemma_patch_si14(t, f as u32);
            lemma_scaled_mod(v, 4, 0x4000);
            lemma_fundamental_div_mod(v, 4);
            lemma_sign_extend_inverse(v, 16);
        },
        LoongArchRelocation::ABS_HI20 => {
            let f = v % 0x100000;
            lemma_patch_hi20(t, f as u32);
            lemma_sign_extend_inverse(v, 20);
        },
        LoongArchRelocation::SI12 | LoongArchRelocation::PCALA_LO12 => {
            let f = v % 0x1000;
            lemma_patch_lo12(t, f as u32);
            lemma_sign_extend_inverse(v, 12);
        },
        LoongArchRelocation::PCADD_SHIFT2 => {
            let f = (v / 4) % 0x100000;
            lemma_patch_hi20(t, f as u32);
            lemma_scaled_mod(v, 4, 0x100000);
            lemma_fundamental_div_mod(v, 4);
            lemma_sign_extend_inverse(v, 22);
        },
        LoongArchRelocation::PCADD_SHIFT12 | LoongArchRelocation::PCALA_HI20 => {
            lemma_fundamental_div_mod(v, 0x1000);
            lemma_fundamental_div_mod_converse(v + 0x800, 0x1000, v / 0x1000, 0x800);
            let f = (v / 0x1000) % 0x100000;
            lemma_patch_hi20(t, f as u32);
            lemma_scaled_mod(v, 0x1000, 0x100000);
            lemma_sign_extend_inverse(v, 32);
        },
        LoongArchRelocation::PCADD_SHIFT18 => {
            lemma_fundamental_div_mod(v, 0x40000);
            lemma_fundamental_div_mod_converse(v + 0x20000, 0x40000, v / 0x40000, 0x20000);
            let f = (v / 0x40000) % 0x100000;
            lemma_patch_hi20(t, f as u32);
            lemma_scaled_mod(v, 0x40000, 0x100000);
            lemma_sign_extend_inverse(v, 38);
        },
        _ => {},
    }
}

/// A two-word relocation reads back, from the words it patched, every value it keeps
/// exactly.
proof fn lemma_split_roundtrip(r: LoongArchRelocation, w1: u32, w2: u32, v: int)
    requires
        r.is_split(),
        r.reads_back_exactly(v),
    ensures
        r.split_spec(w1, w2, v) matches Some((a, b)) && r.split_read_spec(a, b) == v,
{
    lemma2_to64();
    lemma2_to64_rest();
    match r {
        LoongArchRelocation::SPLIT_CALL30 => {
            let u = v % 0x1_0000_0000;
            let hi = u / 0x1000;
            let lo = (v / 4) % 0x400;
            lemma_patch_hi20(w1, hi as u32);
            lemma_patch_k16(w2, lo as u32);
            lemma_scaled_mod(v, 4, 0x400);
            vstd::arithmetic::div_mod::lemma_mod_mod(v, 0x1000, 0x100000);
            lemma_fundamental_div_mod(u, 0x1000);
            lemma_sign_extend_inverse(v, 32);
        },
        LoongArchRelocation::SPLIT_CALL36 => {
            let q = v / 4;
            lemma_fundamental_div_mod(v, 4);
            let j = (q + 0x8000) / 0x10000;
            lemma_fundamental_div_mod(q + 0x8000, 0x10000);
            let rest = q - j * 0x10000;
            assert(-0x8000 <= rest < 0x8000);
            lemma_fundamental_div_mod_converse(v + 0x20000, 0x40000, j, 4 * (rest + 0x8000));
            let hi = (v + 0x20000) / 0x40000 % 0x100000;
            let lo = q % 0x10000;
            assert(j >= -0x80000 && j < 0x80000);
            lemma_patch_hi20(w1, hi as u32);
            lemma_patch_k16(w2, lo as u32);
            lemma_sign_extend_inverse(j, 20);
            lemma_sign_extend_inverse(rest, 16);
            if rest < 0 {
                lemma_fundamental_div_mod_converse(q, 0x10000, j - 1, rest + 0x10000);
                lemma_fundamental_div_mod_converse(rest, 0x10000, -1, rest + 0x10000);
            } else {
                lemma_fundamental_div_mod_converse(q, 0x10000, j, rest);
                lemma_fundamental_div_mod_converse(rest, 0x10000, 0, rest);
            }
        },
        _ => {
            lemma_split_pcala_wraps(w1, w2, v);
            lemma_sign_extend_inverse(v, 32);
        },
    }
}

/// `SPLIT_PCALA` reads back every value it accepts modulo 2^32, taken as a signed 32-bit
/// number.
proof fn lemma_split_pcala_wraps(w1: u32, w2: u32, v: int)
    requires
        v % 4 == 0,
        -0x8000_0800 <= v <= 0x7FFF_F7FF,
    ensures
        LoongArchRelocation::SPLIT_PCALA.split_spec(w1, w2, v) matches Some((a, b))
            && LoongArchRelocation::SPLIT_PCALA.split_read_spec(a, b) == sign_extend(
            v % 0x1_0000_0000,
            32,
        ),
{
    lemma2_to64();
    lemma2_to64_rest();
    let p: int = 0x1_0000_0000;
    let lo12 = v % 0x1000;
    lemma_fundamental_div_mod(v, 0x1000);
    let a = v / 0x1000;
    lemma_patch_lo12(w2, lo12 as u32);
    let k = (v + 0x800) / p;
    let u = (v + 0x800) % p;
    lemma_fundamental_div_mod(v + 0x800, p);
    lemma_mod_bound(v + 0x800, p);
    lemma_fundamental_div_mod(v, p);
    lemma_mod_bound(v, p);
    let s = if lo12 < 0x800 {
        lemma_fundamental_div_mod_converse(u, 0x1000, a - 0x100000 * k, lo12 + 0x800);
        (a - 0x100000 * k) * 0x1000 + lo12
    } else {
        lemma_fundamental_div_mod_converse(u, 0x1000, a + 1 - 0x100000 * k, lo12 - 0x800);
        (a + 1 - 0x100000 * k) * 0x1000 + lo12 + 0xFFFF_F000
    };
    let h = u / 0x1000;
    lemma_patch_hi20(w1, h as u32);
    if lo12 < 0x800 {
        lemma_fundamental_div_mod_converse(s, p, v / p - k, v % p);
    } else {
        lemma_fundamental_div_mod_converse(s, p, v / p + 1 - k, v % p);
    }
}

/// The lowest offsets that `SPLIT_PCALA` accepts, below -2^31, read back 2^32 higher: the
/// high part of the pair wraps around.
pub proof fn lemma_split_pcala_low_edge(buf: Seq<u8>, v: int)
    requires
        buf.len() >= 8,
        v % 4 == 0,
        -0x8000_0800 <= v < -0x8000_0000,
    ensures
        LoongArchRelocation::SPLIT_PCALA.write_spec(buf, v) matches Some(b)
            && LoongArchRelocation::SPLIT_PCALA.read_spec(b) == v + 0x1_0000_0000,
{
    lemma2_to64();
    lemma2_to64_rest();
    let r = LoongArchRelocation::SPLIT_PCALA;
    let w1 = word_at(buf, 0);
    let w2 = word_at(buf, 4);
    lemma_split_pcala_wraps(w1, w2, v);
    lemma_fundamental_div_mod_converse(v, 0x1_0000_0000, -1, v + 0x1_0000_0000);
    lemma_fundamental_div_mod_converse(v + 0x1_0000_0000, 0x8000_0000, 0, v + 0x1_0000_0000);
    let (a, b) = r.split_spec(w1, w2, v).unwrap();
    lemma_with_word_at(buf, 0, a);
    let once = with_word_at(buf, 0, a);
    lemma_with_word_at(once, 4, b);
    let twice = with_word_at(once, 4, b);
    assert(twice.subrange(0, 4) =~= once.subrange(0, 4));
}

/// Reading back a written value gives the value, for every value that the relocation keeps
/// exactly (`reads_back_exactly`): the write is accepted, keeps the buffer's length, and a
/// read of the result returns `v`.
pub proof fn lemma_read_after_write(r: LoongArchRelocation, buf: Seq<u8>, v: int)
    requires
        buf.len() >= r.spec_size(),
        r.reads_back_exactly(v),
    ensures
        r.write_spec(buf, v) matches Some(b) && b.len() == buf.len() && r.read_spec(b) == v,
{
    lemma2_to64();
    lemma2_to64_rest();
    match r {
        LoongArchRelocation::Plain(s) => {
            let n = s.spec_size();
            let x = as_unsigned(v, 8 * n);
            vstd::arithmetic::power2::lemma_pow2_pos(8 * n);
            lemma_le_bytes_value(x, n);
            let b = r.write_spec(buf, v).unwrap();
            assert(b.subrange(0, n as int) =~= le_bytes(x, n));
            vstd::arithmetic::div_mod::lemma_mod_mod(v, pow2(8 * n) as int, 1);
            assert(x % pow2(8 * n) == x);
            lemma_as_signed_inverse(v, 8 * n);
        },
        _ => {
            if r.is_split() {
                let w1 = word_at(buf, 0);
                let w2 = word_at(buf, 4);
                lemma_split_roundtrip(r, w1, w2, v);
                let (a, b) = r.split_spec(w1, w2, v).unwrap();
                lemma_with_word_at(buf, 0, a);
                let once = with_word_at(buf, 0, a);
                lemma_with_word_at(once, 4, b);
                let twice = with_word_at(once, 4, b);
                assert(twice.subrange(0, 4) =~= once.subrange(0, 4));
            } else {
                let t = word_at(buf, 0);
                lemma_single_word_roundtrip(r, t, v);
                let e = r.encode_spec(v).unwrap();
                lemma_with_word_at(buf, 0, (t & r.spec_op_mask()) | e);
            }
        },
    }
}

/// Every value that a write accepts is read back unchanged, except by the relocations
/// whose field drops low bits of the value (`PCALA_HI20`, `PCADD_SHIFT2`, `PCADD_SHIFT12`
/// and `PCADD_SHIFT18`), which read back a multiple of their unit near the value, and
/// except the `SPLIT_PCALA` offsets below -2^31 (see `lemma_split_pcala_low_edge`).
pub proof fn lemma_accepted_value_reads_back(r: LoongArchRelocation, buf: Seq<u8>, v: int)
    requires
        buf.len() >= r.spec_size(),
        i64::MIN <= v <= i64::MAX,
        !(r is PCALA_HI20 || r is PCADD_SHIFT2 || r is PCADD_SHIFT12 || r is PCADD_SHIFT18),
        r is SPLIT_PCALA ==> v >= -0x8000_0000,
        r.write_spec(buf, v) is Some,
    ensures
        r.read_spec(r.write_spec(buf, v).unwrap()) == v,
{
    lemma2_to64();
    lemma2_to64_rest();
    if let LoongArchRelocation::Plain(s) = r {
        assert(s.write_spec(buf, v) is Some);
        assert(fits_signed(v, 8 * s.spec_size()));
    }
    assert(r.reads_back_exactly(v));
    lemma_read_after_write(r, buf, v);
}

/// A write changes only the words of the relocation: a single-word relocation leaves the
/// kept bits of the first word with the encoded fields put over them, a two-word one the
/// two patched words; every byte after them stays as it was.
pub proof fn lemma_write_words(r: LoongArchRelocation, buf: Seq<u8>, v: int)
    requires
        buf.len() >= r.spec_size(),
        !(r is Plain),
        r.write_spec(buf, v) is Some,
    ensures
        r.write_spec(buf, v).unwrap().len() == buf.len(),
        !r.is_split() ==> word_at(r.write_spec(buf, v).unwrap(), 0) == (word_at(buf, 0)
            & r.spec_op_mask()) | r.encode_spec(v).unwrap(),
        !r.is_split() ==> forall|i: int|
            4 <= i < buf.len() ==> #[trigger] r.write_spec(buf, v).unwrap()[i] == buf[i],
        r.is_split() ==> word_at(r.write_spec(buf, v).unwrap(), 0) == r.split_spec(
            word_at(buf, 0),
            word_at(buf, 4),
            v,
        ).unwrap().0,
        r.is_split() ==> word_at(r.write_spec(buf, v).unwrap(), 4) == r.split_spec(
            word_at(buf, 0),
            word_at(buf, 4),
            v,
        ).unwrap().1,
        r.is_split() ==> forall|i: int|
            8 <= i < buf.len() ==> #[trigger] r.write_spec(buf, v).unwrap()[i] == buf[i],
{
    if r.is_split() {
        let (a, b) = r.split_spec(word_at(buf, 0), word_at(buf, 4), v).unwrap();
        lemma_with_word_at(buf, 0, a);
        let once = with_word_at(buf, 0, a);
        lemma_with_word_at(once, 4, b);
        let twice = with_word_at(once, 4, b);
        assert(twice.subrange(0, 4) =~= once.subrange(0, 4));
    } else {
        let e = r.encode_spec(v).unwrap();
        lemma_with_word_at(buf, 0, (word_at(buf, 0) & r.spec_op_mask()) | e);
    }
}

/// The bits of the second word that a two-word relocation keeps.
pub open spec fn second_word_mask(r: LoongArchRelocation) -> u32 {
    if r is SPLIT_PCALA {
        0xFFC0_03FF
    } else {
        0xFC00_03FF
    }
}

/// The fields a single-word relocation writes lie outside the bits it keeps.
pub proof fn lemma_fields_outside_mask(r: LoongArchRelocation, v: int)
    requires
        r.encode_spec(v) is Some,
    ensures
        r.encode_spec(v).unwrap() & r.spec_op_mask() == 0,
{
    lemma2_to64();
    let e = r.encode_spec(v).unwrap();
    match r {
        LoongArchRelocation::B16 => {
            let f = ((v / 4) % 0x10000) as u32;
            assert(f < 0x10000 ==> ((f * 0x400) as u32) & 0xFC00_03FFu32 == 0) by (bit_vector);
        },
        LoongArchRelocation::B21 => {
            let f = ((v / 4) % 0x10000) as u32;
            let g = ((v / 0x40000) % 0x20) as u32;
            assert(f < 0x10000 && g < 0x20 ==> ((f * 0x400 + g) as u32) & 0xFC00_03E0u32 == 0)
                by (bit_vector);
        },
        LoongArchRelocation::B26 => {
            let f = ((v / 4) % 0x10000) as u32;
            let g = ((v / 0x40000) % 0x400) as u32;
            assert(f < 0x10000 && g < 0x400 ==> ((f * 0x400 + g) as u32) & 0xFC00_0000u32 == 0)
                by (bit_vector);
        },
        LoongArchRelocation::SI14 => {
            let f = ((v / 4) % 0x4000) as u32;
            assert(f < 0x4000 ==> ((f * 0x400) as u32) & 0xFF00_03FFu32 == 0) by (bit_vector);
        },
        LoongArchRelocation::SI12 | LoongArchRelocation::PCALA_LO12 => {
            let f = (v % 0x1000) as u32;
            assert(f < 0x1000 ==> ((f * 0x400) as u32) & 0xFFC0_03FFu32 == 0) by (bit_vector);
        },
        LoongArchRelocation::ABS_HI20 => {
            let f = (v % 0x100000) as u32;
            assert(f < 0x100000 ==> ((f * 0x20) as u32) & 0xFE00_001Fu32 == 0) by (bit_vector);
        },
        LoongArchRelocation::PCADD_SHIFT2 => {
            let f = ((v / 4) % 0x100000) as u32;
            assert(f < 0x100000 ==> ((f * 0x20) as u32) & 0xFE00_001Fu32 == 0) by (bit_vector);
        },
        LoongArchRelocation::PCADD_SHIFT12 | LoongArchRelocation::PCALA_HI20 => {
            let f = ((v + 0x800) / 0x1000 % 0x100000) as u32;
            assert(f < 0x100000 ==> ((f * 0x20) as u32) & 0xFE00_001Fu32 == 0) by (bit_vector);
        },
        LoongArchRelocation::PCADD_SHIFT18 => {
            let f = ((v + 0x20000) / 0x40000 % 0x100000) as u32;
            assert(f < 0x100000 ==> ((f * 0x20) as u32) & 0xFE00_001Fu32 == 0) by (bit_vector);
        },
        _ => {},
    }
}

/// A write changes only the relocation's fields: the bits of the patched instruction
/// words that the relocation keeps, and every byte after the relocation, keep their
/// values.
pub proof fn lemma_write_keeps_other_bits(r: LoongArchRelocation, buf: Seq<u8>, v: int)
    requires
        buf.len() >= r.spec_size(),
        r.write_spec(buf, v) is Some,
    ensures
        r.write_spec(buf, v).unwrap().len() == buf.len(),
        forall|i: int|
            r.spec_size() <= i < buf.len() ==> #[trigger] r.write_spec(buf, v).unwrap()[i]
                == buf[i],
        !r.is_split() && !(r is Plain) ==> word_at(r.write_spec(buf, v).unwrap(), 0)
            & r.spec_op_mask() == word_at(buf, 0) & r.spec_op_mask(),
        r.is_split() ==> word_at(r.write_spec(buf, v).unwrap(), 0) & 0xFE00_001F == word_at(buf, 0)
            & 0xFE00_001F,
        r.is_split() ==> word_at(r.write_spec(buf, v).unwrap(), 4) & second_word_mask(r) == word_at(
            buf,
            4,
        ) & second_word_mask(r),
{
    let b = r.write_spec(buf, v).unwrap();
    match r {
        LoongArchRelocation::Plain(s) => {
            let n = s.spec_size();
            lemma_le_bytes_value(as_unsigned(v, 8 * n), n);
        },
        _ => {
            if r.is_split() {
                let w1 = word_at(buf, 0);
                let w2 = word_at(buf, 4);
                let (a, c) = r.split_spec(w1, w2, v).unwrap();
                lemma_with_word_at(buf, 0, a);
                let once = with_word_at(buf, 0, a);
                lemma_with_word_at(once, 4, c);
                assert(b.subrange(0, 4) =~= once.subrange(0, 4));
                match r {
                    LoongArchRelocation::SPLIT_PCALA => {
                        lemma_keeps_hi20(w1, ((v + 0x800) % 0x1_0000_0000 / 0x1000) as u32);
                        lemma_keeps_k12(w2, (v % 0x1000) as u32);
                    },
                    LoongArchRelocation::SPLIT_CALL30 => {
                        lemma_keeps_hi20(w1, (v % 0x1_0000_0000 / 0x1000) as u32);
                        lemma_keeps_k16(w2, ((v / 4) % 0x400) as u32);
                    },
                    _ => {
                        lemma_keeps_hi20(w1, ((v + 0x20000) / 0x40000 % 0x100000) as u32);
                        lemma_keeps_k16(w2, ((v / 4) % 0x10000) as u32);
                    },
                }
            } else {
                let t = word_at(buf, 0);
                let e = r.encode_spec(v).unwrap();
                let m = r.spec_op_mask();
                lemma_fields_outside_mask(r, v);
                lemma_with_word_at(buf, 0, (t & m) | e);
                assert(e & m == 0 ==> ((t & m) | e) & m == t & m) by (bit_vector);
            }
        },
    }
}

proof fn lemma_keeps_hi20(w: u32, f: u32)
    requires
        f < 0x100000,
    ensures
        patch(w, 0xFE00_001F, f * 0x20) & 0xFE00_001F == w & 0xFE00_001F,
{
    assert(((w & 0xFE00_001Fu32) | ((f * 0x20) as u32)) & 0xFE00_001Fu32 == w & 0xFE00_001Fu32)
        by (bit_vector)
        requires
            f < 0x100000,
    ;
}

proof fn lemma_keeps_k12(w: u32, f: u32)
    requires
        f < 0x1000,
    ensures
        patch(w, 0xFFC0_03FF, f * 0x400) & 0xFFC0_03FF == w & 0xFFC0_03FF,
{
    assert(((w & 0xFFC0_03FFu32) | ((f * 0x400) as u32)) & 0xFFC0_03FFu32 == w & 0xFFC0_03FFu32)
        by (bit_vector)
        requires
            f < 0x1000,
    ;
}

proof fn lemma_keeps_k16(w: u32, f: u32)
    requires
        f < 0x10000,
    ensures
        patch(w, 0xFC00_03FF, f * 0x400) & 0xFC00_03FF == w & 0xFC00_03FF,
{
    assert(((w & 0xFC00_03FFu32) | ((f * 0x400) as u32)) & 0xFC00_03FFu32 == w & 0xFC00_03FFu32)
        by (bit_vector)
        requires
            f < 0x10000,
    ;
}

} // verus!
