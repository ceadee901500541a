//! What assembled code does with a field that is only known at run time: the check it makes
//! on the run-time value, and the field bits it computes from it.

use vstd::prelude::*;
use vstd::wrapping::{u32_specs, i32_specs};
use vstd::arithmetic::power2::{pow2, lemma2_to64, lemma2_to64_rest, lemma_pow2_pos};
use vstd::bits::{low_bits_mask, lemma_u32_low_bits_mask_is_mod, lemma_u32_pow2_no_overflow,
    lemma_u32_shr_is_div, lemma_u64_shl_is_mul, lemma_u64_pow2_no_overflow};
use crate::ast::{FlatArg, ImmExpr, RegFamily, RegId, Register};
use crate::compiler::{bitmask, bitmask_spec, half_spec, range_check, CompileError, DynamicField};
use crate::commands::{
    Encoded, rounded_high, high_field, low_field, slice, slice_of, step, wrapped, wide_step, wide_ok, bit_range_count, bit_ranges_after,
    bit_range_ok, is_bit_range, wide_lowest, wide_extent,
};
use crate::data::{Command, Relocation};

verus! {

/// Whether the check that assembled code makes on a run-time signed immediate stops on
/// `imm`, for a field whose smallest value is `min`: with a scale, when the low `scale` bits
/// are not zero; then when the immediate (shifted right by `scale`) less `min`, wrapping and
/// taken as unsigned, is above `range`.
pub open spec fn signed_check_fails(min: i32, range: u32, scale: u8, imm: i32) -> bool {
    let bias = (0 - min) as i32;
    if scale == 0 {
        if bias == 0 {
            (imm as u32) > range
        } else {
            (i32_specs::wrapping_add(imm, bias) as u32) > range
        }
    } else {
        (imm & (bitmask_spec(scale) as i32)) != 0 || if bias == 0 {
            ((imm >> (scale as u32)) as u32) > range
        } else {
            (i32_specs::wrapping_add(imm >> (scale as u32), bias) as u32) > range
        }
    }
}

/// Whether the check that assembled code makes on a run-time unsigned immediate stops on
/// `imm`: with a scale, when the low `scale` bits are not zero; then when the immediate
/// (shifted right by `scale`) less `bias`, wrapping, is above `range`.
pub open spec fn unsigned_check_fails(bias: u32, range: u32, scale: u8, imm: u32) -> bool {
    if scale == 0 {
        if bias == 0 {
            imm > range
        } else {
            u32_specs::wrapping_sub(imm, bias) > range
        }
    } else {
        (imm & bitmask_spec(scale)) != 0 || if bias == 0 {
            (imm >> (scale as u32)) > range
        } else {
            u32_specs::wrapping_sub(imm >> (scale as u32), bias) > range
        }
    }
}

/// Whether the check that assembled code makes on a run-time unsigned immediate stops on
/// `imm`.
pub fn dynamic_range_check_unsigned(bias: u32, range: u32, scale: u8, imm: u32) -> (r: bool)
    requires
        scale < 32,
    ensures
        r == unsigned_check_fails(bias, range, scale, imm),
{
    if scale == 0 {
        if bias == 0 {
            imm > range
        } else {
            imm.wrapping_sub(bias) > range
        }
    } else {
        let mask = bitmask(scale);
        if (imm & mask) != 0 {
            true
        } else if bias == 0 {
            (imm >> (scale as u32)) > range
        } else {
            (imm >> (scale as u32)).wrapping_sub(bias) > range
        }
    }
}

/// Whether the check that assembled code makes on a run-time signed immediate stops on
/// `imm`.
pub fn dynamic_range_check_signed(min: i32, range: u32, scale: u8, imm: i32) -> (r: bool)
    requires
        min > i32::MIN,
        scale < 32,
    ensures
        r == signed_check_fails(min, range, scale, imm),
{
    let bias = 0 - min;
    if scale == 0 {
        if bias == 0 {
            (imm as u32) > range
        } else {
            (imm.wrapping_add(bias) as u32) > range
        }
    } else {
        let mask = bitmask(scale) as i32;
        if (imm & mask) != 0 {
            true
        } else if bias == 0 {
            ((imm >> (scale as u32)) as u32) > range
        } else {
            ((imm >> (scale as u32)).wrapping_add(bias) as u32) > range
        }
    }
}

/// Whether assembled code can evaluate a field: the check of a signed field negates its
/// smallest value, and every shift stays within its type.
pub open spec fn field_ok(f: DynamicField) -> bool {
    match f {
        DynamicField::Signed { min, scale, shift, .. } => min > i32::MIN && scale < 32 && shift < 32,
        DynamicField::Bits { shift, .. } => shift < 32,
        DynamicField::High { shift, .. } => shift <= 63,
        DynamicField::Wide { shift, round, .. } => shift <= 63 && (round ==> shift >= 1),
        _ => true,
    }
}

/// The bits that assembled code puts into a field for the run-time value `x` of its
/// argument and `prev` of the argument before it, taken in the arguments' types (a `u8`
/// register number, a `u32` unsigned immediate, an `i32` signed one, an `i64` wide one), or
/// nothing when a check stops the program.
pub open spec fn runtime_field(f: DynamicField, x: int, prev: int) -> Option<u32> {
    match f {
        DynamicField::Register { nonzero, .. } => {
            let r = x as u8;
            if nonzero && r == 0 {
                None
            } else {
                Some((r & 0x1Fu8) as u32)
            }
        },
        DynamicField::Unsigned { mask, .. } => {
            let i = x as u32;
            if i > mask {
                None
            } else {
                Some(i & mask)
            }
        },
        DynamicField::Signed { min, range, scale, shift, mask, .. } => {
            let i = x as i32;
            if signed_check_fails(min, range, scale, i) {
                None
            } else {
                Some(((i >> (shift as u32)) as u32) & mask)
            }
        },
        DynamicField::Sum { mask, .. } => {
            let i = x as u32;
            let p = prev as u32;
            if i == 0 || p > mask || i - 1 > mask - p {
                None
            } else {
                Some(((p + i - 1) as u32) & mask)
            }
        },
        DynamicField::AtMost { mask, .. } => {
            let i = x as u32;
            let p = prev as u32;
            if i > p {
                None
            } else {
                Some(i & mask)
            }
        },
        DynamicField::SubOne { mask, .. } => {
            let i = x as u32;
            if i == 0 || i - 1 > mask {
                None
            } else {
                Some(((i - 1) as u32) & mask)
            }
        },
        DynamicField::Bits { bias, shift, mask, .. } => {
            let i = x as u32;
            Some((u32_specs::wrapping_add(i, bias) >> (shift as u32)) & mask)
        },
        DynamicField::High { shift, mask, .. } => {
            let i = x as i64;
            Some(slice(i as int, shift as nat, 32) & mask)
        },
        DynamicField::Wide { shift, mask, round, lowest, extent, .. } => {
            let i = x as i64;
            if (i - lowest) % pow2(64) as int > extent {
                None
            } else {
                let w = if round {
                    wrapped(i + pow2((shift - 1) as nat))
                } else {
                    i as int
                };
                Some(slice(w, shift as nat, 32) & mask)
            }
        },
    }
}

impl DynamicField {
    /// The bits that assembled code puts into this field for the run-time value `x` of its
    /// argument and `prev` of the argument before it (taken in the arguments' types), or
    /// nothing when a check stops the program.
    pub fn run_time_value(&self, x: i64, prev: i64) -> (r: Option<u32>)
        requires
            field_ok(*self),
        ensures
            r == runtime_field(*self, x as int, prev as int),
    {
        match self {
            DynamicField::Register { nonzero, .. } => {
                let r = #[verifier::truncate] (x as u8);
                if *nonzero && r == 0 {
                    None
                } else {
                    Some((r & 0x1Fu8) as u32)
                }
            },
            DynamicField::Unsigned { mask, .. } => {
                let i = #[verifier::truncate] (x as u32);
                if i > *mask {
                    None
                } else {
                    Some(i & *mask)
                }
            },
            DynamicField::Signed { min, range, scale, shift, mask, .. } => {
                let i = #[verifier::truncate] (x as i32);
                if dynamic_range_check_signed(*min, *range, *scale, i) {
                    None
                } else {
                    Some(((i >> (*shift as u32)) as u32) & *mask)
                }
            },
            DynamicField::Sum { mask, .. } => {
                let i = #[verifier::truncate] (x as u32);
                let p = #[verifier::truncate] (prev as u32);
                if i == 0 || p > *mask || i - 1 > *mask - p {
                    None
                } else {
                    Some((p + (i - 1)) & *mask)
                }
            },
            DynamicField::AtMost { mask, .. } => {
                let i = #[verifier::truncate] (x as u32);
                let p = #[verifier::truncate] (prev as u32);
                if i > p {
                    None
                } else {
                    Some(i & *mask)
                }
            },
            DynamicField::SubOne { mask, .. } => {
                let i = #[verifier::truncate] (x as u32);
                if i == 0 || i - 1 > *mask {
                    None
                } else {
                    Some((i - 1) & *mask)
                }
            },
            DynamicField::Bits { bias, shift, mask, .. } => {
                let i = #[verifier::truncate] (x as u32);
                Some((i.wrapping_add(*bias) >> (*shift as u32)) & *mask)
            },
            DynamicField::High { shift, mask, .. } => Some(slice_of(x as i128, *shift, 32) & *mask),
            DynamicField::Wide { shift, mask, round, lowest, extent, .. } => {
                proof {
                    lemma2_to64_rest();
                }
                let d0 = x as i128 - *lowest as i128;
                let d: i128 = if d0 < 0 {
                    d0 + 0x1_0000_0000_0000_0000
                } else {
                    d0
                };
                assert(d == (x as int - *lowest as int) % pow2(64) as int);
                if d > *extent as i128 {
                    None
                } else {
                    let w: i128 = if *round {
                        proof {
                            lemma_u64_pow2_no_overflow((*shift - 1) as nat);
                            lemma_u64_shl_is_mul(1, (*shift - 1) as u64);
                            vstd::arithmetic::power2::lemma_pow2_strictly_increases(
                                (*shift - 1) as nat,
                                63,
                            );
                        }
                        let t = x as i128 + (1u64 << ((*shift - 1) as u64)) as i128;
                        if t > 0x7FFF_FFFF_FFFF_FFFF {
                            t - 0x1_0000_0000_0000_0000
                        } else {
                            t
                        }
                    } else {
                        x as i128
                    };
                    Some(slice_of(w, *shift, 32) & *mask)
                }
            },
        }
    }
}

/// Bit facts about the fields: a full mask keeps every bit, a shift by nothing keeps the
/// value, a register code keeps its five bits, and a negative 32-bit value taken as
/// unsigned is that value plus `2^32`.
proof fn lemma_field_bits(u: u32, i: i32, c: u8, n: i32, x: i64)
    by (bit_vector)
    requires
        c < 32,
    ensures
        (x as u32) as int == x % 0x1_0000_0000,
        u & 0xFFFF_FFFFu32 == u,
        u >> 0u32 == u,
        n < 0 ==> (n as u32) >= 0x8000_0000u32,
        n < 0 ==> (n as u32) as int == n as int + 0x1_0000_0000,
        n >= 0 ==> (n as u32) == n,
        (i >> 0u32) == i,
        c & 0x1Fu8 == c,
{
}

/// The fields of a static encoding and of a run-time one agree for the value `v`: the
/// run-time encoding has run-time fields only, each of which the assembled code can
/// evaluate; when the static encoding succeeds, it has as many fields known now, at the same
/// offsets, each with the bits that the run-time field gives for `v`.
pub open spec fn encoded_alike(s: Result<Encoded, CompileError>, d: Result<Encoded, CompileError>, v: int) -> bool {
    &&& d is Ok
    &&& d.unwrap().0.len() == 0
    &&& d.unwrap().2.len() == 0
    &&& forall|j: int| 0 <= j < d.unwrap().1.len() ==> field_ok(#[trigger] d.unwrap().1[j].1)
    &&& s is Ok ==> {
        &&& s.unwrap().0.len() == d.unwrap().1.len()
        &&& s.unwrap().1.len() == 0
        &&& s.unwrap().2.len() == 0
        &&& forall|j: int|
            0 <= j < d.unwrap().1.len() ==> #[trigger] s.unwrap().0[j] == (
                d.unwrap().1[j].0,
                runtime_field(d.unwrap().1[j].1, v, 0).unwrap(),
            ) && runtime_field(d.unwrap().1[j].1, v, 0) is Some
    }
}

/// The immediate `v` known when assembling, or an immediate known only at run time.
pub open spec fn immediate_arg(number: Option<i64>, is_ident: bool) -> Seq<FlatArg> {
    seq![FlatArg::Immediate { value: ImmExpr { number, is_ident } }]
}

/// What a static and a run-time immediate make of command `cmd`: the encoding of `v` and
/// that of an immediate known only at run time.
pub open spec fn immediate_alike(cmd: Command, v: i64, is_ident: bool) -> bool {
    let s = step(seq![cmd], 0, immediate_arg(Some(v), is_ident), 0);
    let d = step(seq![cmd], 0, immediate_arg(None, is_ident), 0);
    &&& encoded_alike(s, d, v as int)
    &&& (cmd is UImm || cmd is SImm || cmd is Usubone || cmd == Command::Offset(Relocation::ABS_HI20)
        || cmd == Command::Offset(Relocation::SI12) || cmd == Command::Offset(
        Relocation::PCALA_LO12,
    )) ==> (s is Ok) == (runtime_field(
        d.unwrap().1[0].1,
        v as int,
        0,
    ) is Some)
}

/// A full mask, or one of `bits` bits above a value that fits in it, keeps the value.
proof fn lemma_mask_keeps(u: u32, bits: u8)
    requires
        u <= bitmask_spec(bits),
    ensures
        u & bitmask_spec(bits) == u,
{
    lemma2_to64();
    lemma_field_bits(u, 0, 0, 0, 0);
    if bits < 32 {
        lemma_u32_pow2_no_overflow(bits as nat);
        lemma_u32_low_bits_mask_is_mod(u, bits as nat);
        assert(low_bits_mask(bits as nat) == pow2(bits as nat) - 1);
        vstd::arithmetic::div_mod::lemma_small_mod(u as nat, pow2(bits as nat));
    }
}

/// Unsigned immediates are encoded alike.
proof fn lemma_unsigned_alike(o: u8, bits: u8, v: i64, is_ident: bool)
    requires
        0 <= v <= u32::MAX,
    ensures
        immediate_alike(Command::UImm(o, bits), v, is_ident),
{
    lemma2_to64();
    let u = v as u32;
    if u <= bitmask_spec(bits) {
        lemma_mask_keeps(u, bits);
    }
    assert(v as int / 1 == v);
    assert(seq![Command::UImm(o, bits)][0] == Command::UImm(o, bits));
}

/// Unsigned immediates stored less one are encoded alike.
proof fn lemma_sub_one_alike(o: u8, bits: u8, v: i64, is_ident: bool)
    requires
        0 <= v <= u32::MAX,
    ensures
        immediate_alike(Command::Usubone(o, bits), v, is_ident),
{
    lemma2_to64();
    let u = v as u32;
    if u >= 1 && u - 1 <= bitmask_spec(bits) {
        lemma_mask_keeps((u - 1) as u32, bits);
    }
    assert(v as int / 1 == v);
    assert(seq![Command::Usubone(o, bits)][0] == Command::Usubone(o, bits));
}

/// Signed immediates of up to 31 bits are encoded alike.
proof fn lemma_signed_alike(o: u8, bits: u8, v: i64, is_ident: bool)
    requires
        1 <= bits <= 31,
        i32::MIN <= v <= i32::MAX,
    ensures
        immediate_alike(Command::SImm(o, bits), v, is_ident),
{
    lemma2_to64();
    let i = v as i32;
    let b = pow2((bits - 1) as nat) as int;
    let w = i32_specs::wrapping_add(i, b as i32);
    lemma_field_bits(0, i, 0, w, 0);
    lemma_u32_pow2_no_overflow(bits as nat);
    vstd::arithmetic::power2::lemma_pow2_strictly_increases((bits - 1) as nat, bits as nat);
    if bits < 31 {
        vstd::arithmetic::power2::lemma_pow2_strictly_increases(bits as nat, 31);
    }
    vstd::arithmetic::power2::lemma_pow2_adds((bits - 1) as nat, 1);
    assert(half_spec(bits) as int == 0 - pow2((bits - 1) as nat));
    assert(seq![Command::SImm(o, bits)][0] == Command::SImm(o, bits));
}

/// The range check of a signed field of `bits` bits, made when assembling, accepts a 32-bit
/// value exactly when the run-time check lets it pass, and keeps the same low bits.
proof fn lemma_signed_range(ai: usize, bits: u8, v: i64)
    requires
        1 <= bits <= 31,
        i32::MIN <= v <= i32::MAX,
    ensures
        ({
            let r = range_check(ai, v, half_spec(bits), bitmask_spec(bits), 0);
            &&& (r is Ok) == !signed_check_fails(half_spec(bits), bitmask_spec(bits), 0, v as i32)
            &&& r is Ok ==> r.unwrap().1 & bitmask_spec(bits) == (((v as i32) >> 0u32) as u32)
                & bitmask_spec(bits)
            &&& r is Ok ==> r.unwrap().1 == v as u32
        }),
{
    lemma2_to64();
    let i = v as i32;
    let b = pow2((bits - 1) as nat) as int;
    let w = i32_specs::wrapping_add(i, b as i32);
    lemma_field_bits(0, i, 0, w, 0);
    lemma_u32_pow2_no_overflow(bits as nat);
    vstd::arithmetic::power2::lemma_pow2_strictly_increases((bits - 1) as nat, bits as nat);
    if bits < 31 {
        vstd::arithmetic::power2::lemma_pow2_strictly_increases(bits as nat, 31);
    }
    vstd::arithmetic::power2::lemma_pow2_adds((bits - 1) as nat, 1);
    assert(half_spec(bits) as int == 0 - pow2((bits - 1) as nat));
    assert(v as int / 1 == v);
}

/// Offsets that are stored without scaling (`ABS_HI20`, `SI12`, `PCALA_LO12`) are encoded
/// alike.
proof fn lemma_unscaled_offset_alike(rel: Relocation, v: i64, is_ident: bool)
    requires
        rel is ABS_HI20 || rel is SI12 || rel is PCALA_LO12,
        i32::MIN <= v <= i32::MAX,
    ensures
        immediate_alike(Command::Offset(rel), v, is_ident),
{
    lemma2_to64();
    reveal_with_fuel(crate::compiler::parts_width, 2);
    let parts = crate::commands::offset_parts(rel);
    let width: u8 = if rel is ABS_HI20 {
        20
    } else {
        12
    };
    assert(crate::compiler::parts_width(parts) == width);
    assert(crate::compiler::part_shift(parts, 0) == 0) by {
        assert(parts.take(1) =~= parts);
    }
    lemma_signed_range(0, width, v);
    let u = v as u32;
    lemma_field_bits(u, 0, 0, 0, 0);
    lemma_one_immediate(Command::Offset(rel), v, is_ident);
}

/// A number taken modulo `2^32`, divided by `d` and taken modulo `m`, where `d * m`
/// divides `2^32`, gives what the number itself gives.
proof fn lemma_low_word_slice(x: int, d: int, m: int, k: int)
    requires
        d > 0,
        m > 0,
        k > 0,
        d * m * k == 0x1_0000_0000,
    ensures
        ((x % 0x1_0000_0000) / d) % m == (x / d) % m,
{
    let w = 0x1_0000_0000int;
    let q = x / w;
    let r = x % w;
    vstd::arithmetic::div_mod::lemma_fundamental_div_mod(x, w);
    vstd::arithmetic::div_mod::lemma_fundamental_div_mod(r, d);
    let a = r / d;
    let b = r % d;
    assert(x == d * (m * (k * q) + a) + b) by (nonlinear_arith)
        requires
            x == w * q + r,
            r == d * a + b,
            d * m * k == w,
    ;
    vstd::arithmetic::div_mod::lemma_div_multiples_vanish_fancy(m * (k * q) + a, b, d);
    vstd::arithmetic::div_mod::lemma_mod_multiples_vanish(k * q, a, m);
}

/// At run time, a bit field of the low 32 bits of an immediate, offset by `bias`, gets
/// the bits of the offset immediate from bit `s` on: `w` of them, or the `32 - s` that the
/// low 32 bits hold when that is fewer.
proof fn lemma_bits_runtime(ai: usize, v: i64, bias: u32, s: u8, w: u8)
    requires
        s < 32,
        1 <= w < 32,
    ensures
        runtime_field(
            DynamicField::Bits { arg: ai, bias, shift: s, mask: bitmask_spec(w) },
            v as int,
            0,
        ) == Some(
            slice(
                v as int + bias,
                s as nat,
                (if s + w <= 32 {
                    w as int
                } else {
                    32 - s
                }) as nat,
            ),
        ),
{
    lemma2_to64();
    lemma2_to64_rest();
    lemma_field_bits(0, 0, 0, 0, v);
    let width: nat = (if s + w <= 32 {
        w as int
    } else {
        32 - s
    }) as nat;
    let u = v as u32;
    let t = u32_specs::wrapping_add(u, bias);
    vstd::arithmetic::div_mod::lemma_add_mod_noop(v as int, bias as int, 0x1_0000_0000);
    vstd::arithmetic::div_mod::lemma_small_mod(bias as nat, 0x1_0000_0000);
    if u + bias >= 0x1_0000_0000 {
        vstd::arithmetic::div_mod::lemma_mod_add_multiples_vanish(
            (u + bias - 0x1_0000_0000) as int,
            0x1_0000_0000,
        );
        vstd::arithmetic::div_mod::lemma_small_mod((u + bias - 0x1_0000_0000) as nat, 0x1_0000_0000);
    } else {
        vstd::arithmetic::div_mod::lemma_small_mod((u + bias) as nat, 0x1_0000_0000);
    }
    assert(t as int == (v as int + bias) % 0x1_0000_0000);
    lemma_u32_shr_is_div(t, s as u32);
    let y = t >> (s as u32);
    let ps = pow2(s as nat) as int;
    let pw = pow2(width) as int;
    let rest = (32 - s - width) as nat;
    lemma_pow2_pos(s as nat);
    lemma_pow2_pos(width);
    lemma_pow2_pos(rest);
    vstd::arithmetic::power2::lemma_pow2_adds(s as nat, width);
    vstd::arithmetic::power2::lemma_pow2_adds((s + width) as nat, rest);
    vstd::arithmetic::power2::lemma_pow2_adds(s as nat, (32 - s) as nat);
    assert(ps * pw * pow2(rest) == 0x1_0000_0000);
    lemma_low_word_slice(v as int + bias, ps, pw, pow2(rest) as int);
    assert(y < pow2((32 - s) as nat)) by (nonlinear_arith)
        requires
            y as int == t as int / ps,
            t < 0x1_0000_0000,
            ps * (pow2((32 - s) as nat) as int) == 0x1_0000_0000,
            ps > 0,
    ;
    lemma_u32_low_bits_mask_is_mod(y, w as nat);
    assert(low_bits_mask(w as nat) as u32 == bitmask_spec(w));
    lemma_u32_pow2_no_overflow(w as nat);
    if s + w > 32 {
        vstd::arithmetic::power2::lemma_pow2_adds(width, (w - width) as nat);
        lemma_pow2_pos((w - width) as nat);
        assert(y < pow2(w as nat)) by (nonlinear_arith)
            requires
                y < pw,
                pow2(w as nat) as int == pw * (pow2((w - width) as nat) as int),
                pow2((w - width) as nat) >= 1,
        ;
        vstd::arithmetic::div_mod::lemma_small_mod(y as nat, pow2(w as nat));
        vstd::arithmetic::div_mod::lemma_small_mod(y as nat, pw as nat);
    }
}

/// At run time, a bit field of a 64-bit immediate gets `w` of its bits from bit `s` on.
proof fn lemma_high_runtime(ai: usize, v: i64, s: u8, w: u8)
    requires
        s <= 63,
        1 <= w < 32,
    ensures
        runtime_field(DynamicField::High { arg: ai, shift: s, mask: bitmask_spec(w) }, v as int, 0)
            == Some(slice(v as int, s as nat, w as nat)),
{
    lemma2_to64();
    lemma2_to64_rest();
    let z = slice(v as int, s as nat, 32);
    lemma_pow2_pos(s as nat);
    let q = v as int / pow2(s as nat) as int;
    assert(0 <= q % 0x1_0000_0000 < 0x1_0000_0000);
    assert(z as int == q % 0x1_0000_0000);
    lemma_u32_low_bits_mask_is_mod(z, w as nat);
    lemma_u32_pow2_no_overflow(w as nat);
    assert(low_bits_mask(w as nat) as u32 == bitmask_spec(w));
    lemma_pow2_pos(w as nat);
    lemma_pow2_pos((32 - w) as nat);
    vstd::arithmetic::power2::lemma_pow2_adds(w as nat, (32 - w) as nat);
    vstd::arithmetic::div_mod::lemma_mod_mod(q, pow2(w as nat) as int, pow2((32 - w) as nat) as int);
}

/// The single immediate argument of a one-command form reads as `value`.
proof fn lemma_one_immediate(cmd: Command, v: i64, is_ident: bool)
    ensures
        seq![cmd][0] == cmd,
        immediate_arg(Some(v), is_ident)[0] == (FlatArg::Immediate {
            value: ImmExpr { number: Some(v), is_ident },
        }),
        immediate_arg(None, is_ident)[0] == (FlatArg::Immediate {
            value: ImmExpr { number: None, is_ident },
        }),
{
}

/// The rounded high part of a 32-bit offset, at run time, is the one the assembler stores.
proof fn lemma_rounded_high_runtime(v: i64)
    ensures
        runtime_field(high_field(0), v as int, 0) == Some(slice(rounded_high(v), 0, 20)),
        runtime_field(low_field(0), v as int, 0) == Some(slice(v as int, 0, 12)),
{
    lemma2_to64();
    lemma_bits_runtime(0, v, 0x800, 12, 20);
    lemma_bits_runtime(0, v, 0, 0, 12);
    let hi = rounded_high(v);
    assert(hi / 1 == hi);
}

/// High parts of 32-bit PC-relative offsets are encoded alike.
proof fn lemma_pc_high_alike(v: i64, is_ident: bool)
    ensures
        immediate_alike(Command::Offset(Relocation::PCALA_HI20), v, is_ident),
{
    lemma_rounded_high_runtime(v);
    lemma_one_immediate(Command::Offset(Relocation::PCALA_HI20), v, is_ident);
}

/// 32-bit values over two instructions are encoded alike.
proof fn lemma_pair_alike(cmd: Command, v: i64, is_ident: bool)
    requires
        cmd == Command::Offset(Relocation::SPLIT_PCALA) || cmd is LiW32,
    ensures
        immediate_alike(cmd, v, is_ident),
{
    lemma_rounded_high_runtime(v);
    lemma_one_immediate(cmd, v, is_ident);
}

/// Call offsets over `pcaddu12i` and `jirl` are encoded alike.
proof fn lemma_call30_alike(v: i64, is_ident: bool)
    ensures
        immediate_alike(Command::Offset(Relocation::SPLIT_CALL30), v, is_ident),
{
    lemma2_to64();
    lemma_bits_runtime(0, v, 0, 12, 20);
    lemma_bits_runtime(0, v, 0, 2, 10);
    lemma_one_immediate(Command::Offset(Relocation::SPLIT_CALL30), v, is_ident);
}

/// Call offsets over `pcaddu18i` and `jirl` are encoded alike.
proof fn lemma_call36_alike(v: i64, is_ident: bool)
    ensures
        immediate_alike(Command::Offset(Relocation::SPLIT_CALL36), v, is_ident),
{
    lemma2_to64();
    lemma_bits_runtime(0, v, 0x20000, 18, 20);
    lemma_bits_runtime(0, v, 0, 2, 16);
    lemma_one_immediate(Command::Offset(Relocation::SPLIT_CALL36), v, is_ident);
}

/// 64-bit values over four instructions are encoded alike.
proof fn lemma_li_d_alike(v: i64, is_ident: bool)
    ensures
        immediate_alike(Command::LiD64, v, is_ident),
{
    lemma2_to64();
    lemma_bits_runtime(0, v, 0x800, 12, 20);
    lemma_bits_runtime(0, v, 0, 0, 12);
    lemma_high_runtime(0, v, 32, 20);
    lemma_high_runtime(0, v, 52, 12);
    lemma_one_immediate(Command::LiD64, v, is_ident);
}

/// An immediate known when assembling and the same immediate given at run time are encoded
/// alike. For an unsigned field, a signed one of up to 31 bits, an unsigned one stored less
/// one and an offset stored without scaling (`ABS_HI20`, `SI12`, `PCALA_LO12`), the
/// assembler accepts the value exactly when the assembled code's check lets it pass, and
/// both put the same bits at the same place. For the immediates spread over the
/// words of two- and four-instruction sequences (the high part of a 32-bit PC-relative
/// offset, `pcalau12i` with `addi.d`, `li.w`, the two call offsets, `li.d`), a value that the
/// assembler accepts gets the same bits at run time.
pub proof fn lemma_runtime_matches_static_immediate(cmd: Command, v: i64, is_ident: bool)
    requires
        match cmd {
            Command::UImm(_, _) => 0 <= v <= u32::MAX,
            Command::Usubone(_, _) => 0 <= v <= u32::MAX,
            Command::SImm(_, bits) => 1 <= bits <= 31 && i32::MIN <= v <= i32::MAX,
            Command::Offset(rel) => ((rel is ABS_HI20 || rel is SI12 || rel is PCALA_LO12)
                && i32::MIN <= v <= i32::MAX) || rel is PCALA_HI20 || rel is SPLIT_PCALA
                || rel is SPLIT_CALL30 || rel is SPLIT_CALL36,
            Command::LiW32 => true,
            Command::LiD64 => true,
            _ => false,
        },
    ensures
        immediate_alike(cmd, v, is_ident),
{
    match cmd {
        Command::UImm(o, bits) => lemma_unsigned_alike(o, bits, v, is_ident),
        Command::Usubone(o, bits) => lemma_sub_one_alike(o, bits, v, is_ident),
        Command::SImm(o, bits) => lemma_signed_alike(o, bits, v, is_ident),
        Command::LiW32 => lemma_pair_alike(cmd, v, is_ident),
        Command::LiD64 => lemma_li_d_alike(v, is_ident),
        Command::Offset(Relocation::ABS_HI20) => lemma_unscaled_offset_alike(
            Relocation::ABS_HI20,
            v,
            is_ident,
        ),
        Command::Offset(Relocation::SI12) => lemma_unscaled_offset_alike(Relocation::SI12, v, is_ident),
        Command::Offset(Relocation::PCALA_LO12) => lemma_unscaled_offset_alike(
            Relocation::PCALA_LO12,
            v,
            is_ident,
        ),
        _ => if cmd == Command::Offset(Relocation::PCALA_HI20) {
            lemma_pc_high_alike(v, is_ident)
        } else if cmd == Command::Offset(Relocation::SPLIT_PCALA) {
            lemma_pair_alike(cmd, v, is_ident)
        } else if cmd == Command::Offset(Relocation::SPLIT_CALL30) {
            lemma_call30_alike(v, is_ident)
        } else {
            lemma_call36_alike(v, is_ident)
        },
    }
}

/// Two immediates `p` and `v`, known when assembling or only at run time.
pub open spec fn immediate_pair(p: Option<i64>, v: Option<i64>, is_ident: bool) -> Seq<FlatArg> {
    seq![
        FlatArg::Immediate { value: ImmExpr { number: p, is_ident } },
        FlatArg::Immediate { value: ImmExpr { number: v, is_ident } },
    ]
}

/// An immediate that is related to the one before it (added to it, or bounded by it) and
/// the same immediates given at run time are encoded alike: the assembler accepts the pair
/// exactly when the assembled code's check lets it pass, and both put the same bits at the
/// same place. For an immediate bounded by the one before, this holds when that one fits in
/// the field.
pub proof fn lemma_runtime_matches_static_related(cmd: Command, p: i64, v: i64, is_ident: bool)
    requires
        match cmd {
            Command::Usum(_, _) => true,
            Command::Ulep(_, bits) => p <= bitmask_spec(bits),
            _ => false,
        },
        0 <= p <= u32::MAX,
        0 <= v <= u32::MAX,
    ensures
        ({
            let s = step(seq![cmd], 0, immediate_pair(Some(p), Some(v), is_ident), 1);
            let d = step(seq![cmd], 0, immediate_pair(None, None, is_ident), 1);
            let f = d.unwrap().1[0];
            &&& d is Ok
            &&& d.unwrap().0.len() == 0 && d.unwrap().1.len() == 1 && d.unwrap().2.len() == 0
            &&& field_ok(f.1)
            &&& (s is Ok) == (runtime_field(f.1, v as int, p as int) is Some)
            &&& s is Ok ==> s.unwrap().0 == seq![(f.0, runtime_field(f.1, v as int, p as int).unwrap())]
                && s.unwrap().1.len() == 0 && s.unwrap().2.len() == 0
        }),
{
    lemma2_to64();
    assert(seq![cmd][0] == cmd);
    assert(immediate_pair(Some(p), Some(v), is_ident)[0] == (FlatArg::Immediate {
        value: ImmExpr { number: Some(p), is_ident },
    }));
    assert(immediate_pair(Some(p), Some(v), is_ident)[1] == (FlatArg::Immediate {
        value: ImmExpr { number: Some(v), is_ident },
    }));
    assert(immediate_pair(None, None, is_ident)[0] == (FlatArg::Immediate {
        value: ImmExpr { number: None, is_ident },
    }));
    assert(immediate_pair(None, None, is_ident)[1] == (FlatArg::Immediate {
        value: ImmExpr { number: None, is_ident },
    }));
    assert(v as int / 1 == v);
}

/// A register named when assembling and the same register chosen at run time are encoded
/// alike: in a general register field (one that may or may not hold r0), the assembler
/// accepts the register exactly when the assembled code's check lets its number pass, and
/// both put the same bits at the same place.
pub proof fn lemma_runtime_matches_static_register(cmd: Command, id: RegId, family: RegFamily)
    requires
        cmd is R || cmd is Rno0,
    ensures
        ({
            let s = step(seq![cmd], 0, seq![FlatArg::Register { reg: Register::Static(id) }], 0);
            let d = step(seq![cmd], 0, seq![FlatArg::Register { reg: Register::Dynamic(family) }], 0);
            &&& encoded_alike(s, d, id.spec_code() as int)
            &&& (s is Ok) == (runtime_field(d.unwrap().1[0].1, id.spec_code() as int, 0) is Some)
        }),
{
    lemma_field_bits(0, 0, id.spec_code(), 0, 0);
    assert(seq![cmd][0] == cmd);
}

/// A wide immediate known when assembling and the same immediate given at run time are
/// encoded alike: each bit range gets the same bits at the same place, and when there is at
/// least one bit range, the assembler accepts the value exactly when the assembled code's
/// check lets it pass.
pub proof fn lemma_runtime_matches_static_wide(cs: Seq<Command>, k: int, ai: usize, v: i64, bits: u8, is_ident: bool)
    requires
        0 <= k < cs.len(),
        wide_ok(cs, k, bits),
    ensures
        ({
            let s = wide_step(cs, k, ai, ImmExpr { number: Some(v), is_ident }, bits);
            let d = wide_step(cs, k, ai, ImmExpr { number: None, is_ident }, bits);
            &&& d is Ok
            &&& d.unwrap().0.len() == 0
            &&& forall|j: int| 0 <= j < d.unwrap().1.len() ==> field_ok(#[trigger] d.unwrap().1[j].1)
            &&& d.unwrap().1.len() >= 1 ==> (s is Ok) == (runtime_field(d.unwrap().1[0].1, v as int, 0) is Some)
            &&& s is Ok ==> {
                &&& s.unwrap().0.len() == d.unwrap().1.len()
                &&& s.unwrap().1.len() == 0
                &&& forall|j: int|
                    0 <= j < d.unwrap().1.len() ==> #[trigger] s.unwrap().0[j] == (
                        d.unwrap().1[j].0,
                        runtime_field(d.unwrap().1[j].1, v as int, 0).unwrap(),
                    ) && runtime_field(d.unwrap().1[j].1, v as int, 0) is Some
            }
        }),
{
    lemma2_to64();
    lemma2_to64_rest();
    let n = bit_range_count(cs, k + 1);
    let ranges = bit_ranges_after(cs, k);
    let lowest = wide_lowest(bits);
    let extent = wide_extent(bits);
    lemma_pow2_pos((bits - 1) as nat);
    if bits < 64 {
        vstd::arithmetic::power2::lemma_pow2_strictly_increases((bits - 1) as nat, 63);
        if bits < 63 {
            vstd::arithmetic::power2::lemma_pow2_strictly_increases(bits as nat, 63);
        }
    }
    vstd::arithmetic::power2::lemma_pow2_adds((bits - 1) as nat, 1);
    assert(lowest as i64 == lowest);
    assert(extent as u64 == extent);
    assert forall|j: int| 0 <= j < n implies #[trigger] ranges[j] == cs[k + 1 + j] && bit_range_ok(
        ranges[j],
    ) && is_bit_range(ranges[j]) by {
        crate::commands::lemma_bit_ranges(cs, k + 1, k + 1 + j);
        assert(bit_range_ok(cs[k + 1 + j]));
    }
    let ok = v >= lowest && v - lowest <= extent;
    let m = (v - lowest) % pow2(64) as int;
    if v >= lowest {
        vstd::arithmetic::div_mod::lemma_small_mod((v - lowest) as nat, pow2(64));
        assert(m == v - lowest);
    } else {
        assert(bits < 64);
        assert(m == v - lowest + pow2(64));
    }
    assert(ok == !(m > extent));
}

} // verus!
