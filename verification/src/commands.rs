//! What each encoding command makes of the argument it works on: fields known when
//! assembling, fields completed at run time, or an error.

use vstd::prelude::*;
use vstd::arithmetic::power2::{pow2, lemma_pow2_pos, lemma_pow2_strictly_increases, lemma2_to64};
use vstd::bits::{lemma_u64_shl_is_mul, lemma_u64_pow2_no_overflow};
use crate::ast::{FlatArg, ImmExpr, RegId, Register};
use crate::data::{Command, Relocation};
use crate::compiler::{
    CompileError, DynamicField, Stmt, StmtView, bitmask, bitmask_spec, half, half_spec, range_check, check_fits,
    static_range_check, parts_width, parts_ok, split_value, split_field,
};

verus! {

/// The fields one command adds: those known when assembling (bit offset, value) and those
/// completed at run time (bit offset, field).
pub type Fields = (Seq<(u8, u32)>, Seq<(u8, DynamicField)>);

/// What a command adds to an instruction: its fields and its relocations.
pub type Encoded = (Seq<(u8, u32)>, Seq<(u8, DynamicField)>, Seq<StmtView>);

/// Fields known when assembling only.
pub open spec fn fixed(s: Seq<(u8, u32)>) -> Fields {
    (s, seq![])
}

/// Fields completed at run time only.
pub open spec fn deferred(d: Seq<(u8, DynamicField)>) -> Fields {
    (seq![], d)
}

/// No fields.
pub open spec fn no_fields() -> Fields {
    (seq![], seq![])
}

/// How the field lists grow when an encoder runs: by the fields of `res` when it is `Ok`;
/// on an error the encoder returns that error.
pub open spec fn grows(
    s0: Seq<(u8, u32)>,
    d0: Seq<(u8, DynamicField)>,
    s1: Seq<(u8, u32)>,
    d1: Seq<(u8, DynamicField)>,
    r: Result<(), CompileError>,
    res: Result<Fields, CompileError>,
) -> bool {
    match res {
        Ok(p) => r is Ok && s1 =~= s0 + p.0 && d1 =~= d0 + p.1,
        Err(e) => r == Err::<(), CompileError>(e),
    }
}

/// `width` bits of `x` from bit `shift` on: `(x / 2^shift) % 2^width`, the division
/// rounding down.
pub open spec fn slice(x: int, shift: nat, width: nat) -> u32 {
    ((x / pow2(shift) as int) % pow2(width) as int) as u32
}

/// Computes `width` bits of `x` from bit `shift` on.
pub(crate) fn slice_of(x: i128, shift: u8, width: u8) -> (r: u32)
    requires
        shift <= 63,
        width <= 32,
        -0x1_0000_0000_0000_0000 <= x <= 0x1_0000_0000_0000_0000,
    ensures
        r == slice(x as int, shift as nat, width as nat),
        r as int == (x as int / pow2(shift as nat) as int) % pow2(width as nat) as int,
{
    proof {
        lemma_u64_pow2_no_overflow(shift as nat);
        lemma_u64_shl_is_mul(1, shift as u64);
        lemma_u64_pow2_no_overflow(width as nat);
        lemma_u64_shl_is_mul(1, width as u64);
        lemma_pow2_pos(shift as nat);
        lemma_pow2_pos(width as nat);
        lemma2_to64();
        if width < 32 {
            lemma_pow2_strictly_increases(width as nat, 32);
        }
    }
    let d: i128 = (1u64 << (shift as u64)) as i128;
    let m: i128 = (1u64 << (width as u64)) as i128;
    proof {
        let xi = x as int;
        let di = d as int;
        let q = xi / di;
        let rm = xi % di;
        vstd::arithmetic::div_mod::lemma_fundamental_div_mod(xi, di);
        assert(q >= -0x1_0000_0000_0000_0000 && q <= 0x1_0000_0000_0000_0000) by (nonlinear_arith)
            requires
                di >= 1,
                xi == di * q + rm,
                0 <= rm,
                rm < di,
                xi >= -0x1_0000_0000_0000_0000,
                xi <= 0x1_0000_0000_0000_0000,
        ;
    }
    let q = x.checked_div_euclid(d).unwrap();
    let r = q.checked_rem_euclid(m).unwrap();
    assert(0 <= r < m);
    r as u32
}

// ---------------------------------------------------------------------------------------
// Registers

/// What a register command makes of a register: its code at the field's offset, known now
/// for a named register and at run time for one whose number an expression gives; r0 is
/// refused where it is not allowed.
pub open spec fn register_step(cmd: Command, reg: Register, ai: usize) -> Result<
    Fields,
    CompileError,
> {
    match reg {
        Register::Static(id) => {
            let code = id.spec_code() as u32;
            match cmd {
                Command::Rno0(o) => if code == 0 {
                    Err(CompileError::RegisterIsR0 { arg: ai })
                } else {
                    Ok(fixed(seq![(o, code)]))
                },
                Command::R(o) => Ok(fixed(seq![(o, code)])),
                Command::F(o) => Ok(fixed(seq![(o, code)])),
                Command::C(o) => Ok(fixed(seq![(o, code)])),
                Command::V(o) => Ok(fixed(seq![(o, code)])),
                Command::X(o) => Ok(fixed(seq![(o, code)])),
                Command::Rdiff(o) => Ok(fixed(seq![(o, code)])),
                _ => Ok(no_fields()),
            }
        },
        Register::Dynamic(_) => match cmd {
            Command::R(o) => Ok(deferred(seq![(o, DynamicField::Register { arg: ai, nonzero: false })])),
            Command::Rno0(o) => Ok(deferred(seq![(o, DynamicField::Register { arg: ai, nonzero: true })])),
            _ => Ok(no_fields()),
        },
    }
}

/// Which commands take which registers: a named register goes to a field of any register
/// kind, one given at run time to a general register field.
pub open spec fn register_ok(cmd: Command, reg: Register) -> bool {
    match reg {
        Register::Static(_) => cmd is R || cmd is F || cmd is C || cmd is V || cmd is X || cmd is Rdiff
            || cmd is Rno0,
        Register::Dynamic(_) => cmd is R || cmd is Rno0,
    }
}

/// Encodes a register.
fn encode_register(
    cmd: Command,
    reg: Register,
    ai: usize,
    statics: &mut Vec<(u8, u32)>,
    dynamics: &mut Vec<(u8, DynamicField)>,
) -> (r: Result<(), CompileError>)
    requires
        register_ok(cmd, reg),
    ensures
        grows(
            old(statics)@,
            old(dynamics)@,
            final(statics)@,
            final(dynamics)@,
            r,
            register_step(cmd, reg, ai),
        ),
{
    let ghost s0 = statics@;
    let ghost d0 = dynamics@;
    match reg {
        Register::Static(id) => {
            let code = id.code() as u32;
            match cmd {
                Command::Rno0(o) => {
                    if code == 0 {
                        return Err(CompileError::RegisterIsR0 { arg: ai });
                    }
                    statics.push((o, code));
                },
                Command::R(o) => statics.push((o, code)),
                Command::F(o) => statics.push((o, code)),
                Command::C(o) => statics.push((o, code)),
                Command::V(o) => statics.push((o, code)),
                Command::X(o) => statics.push((o, code)),
                Command::Rdiff(o) => statics.push((o, code)),
                _ => {},
            }
        },
        Register::Dynamic(_) => match cmd {
            Command::R(o) => dynamics.push((o, DynamicField::Register { arg: ai, nonzero: false })),
            Command::Rno0(o) => dynamics.push((o, DynamicField::Register { arg: ai, nonzero: true })),
            _ => {},
        },
    }
    assert(statics@ =~= s0 + register_step(cmd, reg, ai).unwrap().0);
    assert(dynamics@ =~= d0 + register_step(cmd, reg, ai).unwrap().1);
    Ok(())
}

// ---------------------------------------------------------------------------------------
// Plain immediates

/// An unsigned immediate of `bits` bits: known now, it must lie in the field's range;
/// else the assembled code checks it.
pub open spec fn unsigned_step(offset: u8, bits: u8, ai: usize, value: ImmExpr) -> Result<
    Fields,
    CompileError,
> {
    let mask = bitmask_spec(bits);
    match value.number {
        None => Ok(deferred(seq![(offset, DynamicField::Unsigned { arg: ai, mask })])),
        Some(v) => match range_check(ai, v, 0, mask, 0) {
            Ok(p) => Ok(fixed(seq![(offset, p.0)])),
            Err(e) => Err(e),
        },
    }
}

/// A signed immediate of `bits` bits, stored in two's complement.
pub open spec fn signed_step(offset: u8, bits: u8, ai: usize, value: ImmExpr) -> Result<
    Fields,
    CompileError,
> {
    let mask = bitmask_spec(bits);
    let min = half_spec(bits);
    match value.number {
        None => Ok(
            deferred(
                seq![
                    (
                        offset,
                        DynamicField::Signed { arg: ai, min, range: mask, scale: 0, shift: 0, mask },
                    ),
                ],
            ),
        ),
        Some(v) => match range_check(ai, v, min, mask, 0) {
            Ok(p) => Ok(fixed(seq![(offset, p.1 & mask)])),
            Err(e) => Err(e),
        },
    }
}

/// An unsigned immediate stored less one: it must lie in `1..=2^bits`.
pub open spec fn sub_one_step(offset: u8, bits: u8, ai: usize, value: ImmExpr) -> Result<
    Fields,
    CompileError,
> {
    let mask = bitmask_spec(bits);
    match value.number {
        None => Ok(deferred(seq![(offset, DynamicField::SubOne { arg: ai, mask })])),
        Some(v) => match range_check(ai, v, 1, mask, 0) {
            Ok(p) => Ok(fixed(seq![(offset, p.0)])),
            Err(e) => Err(e),
        },
    }
}

/// The previous immediate as an unsigned number known when assembling, if it is one.
pub open spec fn unsigned_number(value: ImmExpr) -> Option<i64> {
    match value.number {
        Some(p) => if p >= 0 {
            Some(p)
        } else {
            None
        },
        None => None,
    }
}

/// An unsigned immediate that is added to the previous one (argument `ai - 1`), the field
/// holding `prev + imm - 1`. With both known now, the previous one must fit in the field and
/// this one must lie in `1..=mask - prev`; else the assembled code checks them.
pub open spec fn sum_step(offset: u8, bits: u8, ai: usize, value: ImmExpr, prev: ImmExpr) -> Result<
    Fields,
    CompileError,
> {
    let mask = bitmask_spec(bits);
    let later = deferred(
        seq![(offset, DynamicField::Sum { arg: ai, prev: (ai - 1) as usize, mask })],
    );
    match unsigned_number(prev) {
        None => Ok(later),
        Some(p) => if p > mask {
            Err(CompileError::ImpossibleCombination { arg: (ai - 1) as usize })
        } else {
            match value.number {
                None => Ok(later),
                Some(v) => match range_check(ai, v, 1, (mask - p) as u32, 0) {
                    Ok(q) => Ok(fixed(seq![(offset, ((q.0 + p) as u32) & mask)])),
                    Err(e) => Err(e),
                },
            }
        },
    }
}

/// An unsigned immediate that is at most the previous one (argument `ai - 1`). With both
/// known now, the previous one must fit in the field and this one must lie in `0..=prev`;
/// else the assembled code checks it.
pub open spec fn at_most_step(offset: u8, bits: u8, ai: usize, value: ImmExpr, prev: ImmExpr) -> Result<
    Fields,
    CompileError,
> {
    let mask = bitmask_spec(bits);
    let later = deferred(
        seq![(offset, DynamicField::AtMost { arg: ai, prev: (ai - 1) as usize, mask })],
    );
    match unsigned_number(prev) {
        None => Ok(later),
        Some(p) => if p > mask {
            Err(CompileError::ImpossibleCombination { arg: (ai - 1) as usize })
        } else {
            match value.number {
                None => Ok(later),
                Some(v) => match range_check(ai, v, 0, p as u32, 0) {
                    Ok(q) => Ok(fixed(seq![(offset, q.0 & mask)])),
                    Err(e) => Err(e),
                },
            }
        },
    }
}

/// Encodes an unsigned immediate.
fn encode_unsigned(
    offset: u8,
    bits: u8,
    ai: usize,
    value: ImmExpr,
    statics: &mut Vec<(u8, u32)>,
    dynamics: &mut Vec<(u8, DynamicField)>,
) -> (r: Result<(), CompileError>)
    ensures
        grows(
            old(statics)@,
            old(dynamics)@,
            final(statics)@,
            final(dynamics)@,
            r,
            unsigned_step(offset, bits, ai, value),
        ),
{
    let mask = bitmask(bits);
    proof {
        lemma2_to64();
    }
    match static_range_check(ai, value, 0, mask, 0) {
        Err(e) => Err(e),
        Ok(Some((biased, _))) => {
            statics.push((offset, biased));
            Ok(())
        },
        Ok(None) => {
            dynamics.push((offset, DynamicField::Unsigned { arg: ai, mask }));
            Ok(())
        },
    }
}

/// Encodes a signed immediate.
fn encode_signed(
    offset: u8,
    bits: u8,
    ai: usize,
    value: ImmExpr,
    statics: &mut Vec<(u8, u32)>,
    dynamics: &mut Vec<(u8, DynamicField)>,
) -> (r: Result<(), CompileError>)
    requires
        1 <= bits <= 32,
        value.number matches Some(v) ==> check_fits(v, half_spec(bits), 0),
    ensures
        grows(
            old(statics)@,
            old(dynamics)@,
            final(statics)@,
            final(dynamics)@,
            r,
            signed_step(offset, bits, ai, value),
        ),
{
    let mask = bitmask(bits);
    let min = half(bits);
    match static_range_check(ai, value, min, mask, 0) {
        Err(e) => Err(e),
        Ok(Some((_, scaled))) => {
            statics.push((offset, scaled & mask));
            Ok(())
        },
        Ok(None) => {
            dynamics.push(
                (offset, DynamicField::Signed { arg: ai, min, range: mask, scale: 0, shift: 0, mask }),
            );
            Ok(())
        },
    }
}

/// Encodes an unsigned immediate stored less one.
fn encode_sub_one(
    offset: u8,
    bits: u8,
    ai: usize,
    value: ImmExpr,
    statics: &mut Vec<(u8, u32)>,
    dynamics: &mut Vec<(u8, DynamicField)>,
) -> (r: Result<(), CompileError>)
    requires
        value.number matches Some(v) ==> check_fits(v, 1, 0),
    ensures
        grows(
            old(statics)@,
            old(dynamics)@,
            final(statics)@,
            final(dynamics)@,
            r,
            sub_one_step(offset, bits, ai, value),
        ),
{
    let mask = bitmask(bits);
    match static_range_check(ai, value, 1, mask, 0) {
        Err(e) => Err(e),
        Ok(Some((biased, _))) => {
            statics.push((offset, biased));
            Ok(())
        },
        Ok(None) => {
            dynamics.push((offset, DynamicField::SubOne { arg: ai, mask }));
            Ok(())
        },
    }
}

/// Whether an immediate added to the previous one can be encoded: a number known now must
/// stay within 64-bit arithmetic when one is subtracted from it.
pub open spec fn sum_ok(bits: u8, value: ImmExpr, prev: ImmExpr) -> bool {
    unsigned_number(prev) matches Some(p) && p <= bitmask_spec(bits) ==> (
    value.number matches Some(v) ==> check_fits(v, 1, 0))
}

/// Encodes an unsigned immediate added to the previous one.
fn encode_sum(
    offset: u8,
    bits: u8,
    ai: usize,
    value: ImmExpr,
    prev: ImmExpr,
    statics: &mut Vec<(u8, u32)>,
    dynamics: &mut Vec<(u8, DynamicField)>,
) -> (r: Result<(), CompileError>)
    requires
        ai >= 1,
        sum_ok(bits, value, prev),
    ensures
        grows(
            old(statics)@,
            old(dynamics)@,
            final(statics)@,
            final(dynamics)@,
            r,
            sum_step(offset, bits, ai, value, prev),
        ),
{
    let mask = bitmask(bits);
    let later = DynamicField::Sum { arg: ai, prev: ai - 1, mask };
    match prev.number {
        Some(p) => {
            if p >= 0 {
                if p > mask as i64 {
                    return Err(CompileError::ImpossibleCombination { arg: ai - 1 });
                }
                let pu = p as u32;
                match static_range_check(ai, value, 1, mask - pu, 0) {
                    Err(e) => {
                        return Err(e);
                    },
                    Ok(Some((biased, _))) => {
                        statics.push((offset, (biased + pu) & mask));
                    },
                    Ok(None) => {
                        dynamics.push((offset, later));
                    },
                }
            } else {
                dynamics.push((offset, later));
            }
        },
        None => {
            dynamics.push((offset, later));
        },
    }
    Ok(())
}

/// Encodes an unsigned immediate bounded by the previous one.
fn encode_at_most(
    offset: u8,
    bits: u8,
    ai: usize,
    value: ImmExpr,
    prev: ImmExpr,
    statics: &mut Vec<(u8, u32)>,
    dynamics: &mut Vec<(u8, DynamicField)>,
) -> (r: Result<(), CompileError>)
    requires
        ai >= 1,
    ensures
        grows(
            old(statics)@,
            old(dynamics)@,
            final(statics)@,
            final(dynamics)@,
            r,
            at_most_step(offset, bits, ai, value, prev),
        ),
{
    let mask = bitmask(bits);
    let later = DynamicField::AtMost { arg: ai, prev: ai - 1, mask };
    proof {
        lemma2_to64();
    }
    match prev.number {
        Some(p) => {
            if p >= 0 {
                if p > mask as i64 {
                    return Err(CompileError::ImpossibleCombination { arg: ai - 1 });
                }
                let pu = p as u32;
                match static_range_check(ai, value, 0, pu, 0) {
                    Err(e) => {
                        return Err(e);
                    },
                    Ok(Some((biased, _))) => {
                        statics.push((offset, biased & mask));
                    },
                    Ok(None) => {
                        dynamics.push((offset, later));
                    },
                }
            } else {
                dynamics.push((offset, later));
            }
        },
        None => {
            dynamics.push((offset, later));
        },
    }
    Ok(())
}

// ---------------------------------------------------------------------------------------
// Immediates split over several fields

/// The (offset, length) pairs that a list of numbers gives, two by two.
pub open spec fn pairs(s: Seq<u8>) -> Seq<(u8, u8)> {
    Seq::new(s.len() / 2, |j: int| (s[2 * j], s[2 * j + 1]))
}

/// Reads the (offset, length) pairs of a list of numbers.
fn pairs_of(arr: &[u8]) -> (r: Vec<(u8, u8)>)
    requires
        arr@.len() % 2 == 0,
    ensures
        r@ == pairs(arr@),
{
    let mut r: Vec<(u8, u8)> = Vec::new();
    let mut i: usize = 0;
    while i < arr.len()
        invariant
            i % 2 == 0,
            i <= arr.len(),
            arr@.len() % 2 == 0,
            r@ == pairs(arr@).take(i as int / 2),
        decreases arr.len() - i,
    {
        r.push((arr[i], arr[i + 1]));
        assert(pairs(arr@).take((i + 2) as int / 2) =~= pairs(arr@).take(i as int / 2).push(
            (arr@[i as int], arr@[i + 1]),
        ));
        i = i + 2;
    }
    assert(pairs(arr@).take(arr.len() as int / 2) =~= pairs(arr@));
    r
}

/// Whether an immediate split over the given parts can be encoded: the parts are valid, the
/// scale is below 63, a number known now keeps the range check within 64-bit arithmetic, and
/// a field checked at run time is at most 31 bits wide.
pub open spec fn split_ok(parts: Seq<(u8, u8)>, scale: u8, value: ImmExpr) -> bool {
    &&& parts_ok(parts)
    &&& scale < 63
    &&& match value.number {
        Some(v) => check_fits(v, half_spec(parts_width(parts) as u8), scale),
        None => parts_width(parts) <= 31,
    }
}

// ---------------------------------------------------------------------------------------
// Offsets given as immediates

/// The fields of an offset whose relocation patches one signed range: (offset, length)
/// parts, the most significant first. Relocations that do not are given no parts.
pub open spec fn offset_parts(rel: Relocation) -> Seq<(u8, u8)> {
    match rel {
        Relocation::B16 => seq![(10u8, 16u8)],
        Relocation::B21 => seq![(0u8, 5u8), (10u8, 16u8)],
        Relocation::B26 => seq![(0u8, 10u8), (10u8, 16u8)],
        Relocation::ABS_HI20 => seq![(5u8, 20u8)],
        Relocation::PCADD_SHIFT2 => seq![(5u8, 20u8)],
        Relocation::PCADD_SHIFT12 => seq![(5u8, 20u8)],
        Relocation::PCADD_SHIFT18 => seq![(5u8, 20u8)],
        Relocation::SI14 => seq![(10u8, 14u8)],
        Relocation::SI12 => seq![(10u8, 12u8)],
        Relocation::PCALA_LO12 => seq![(10u8, 12u8)],
        _ => seq![],
    }
}

/// The power of two that such an offset must be a multiple of, as its exponent.
pub open spec fn offset_scale(rel: Relocation) -> u8 {
    match rel {
        Relocation::B16 => 2,
        Relocation::B21 => 2,
        Relocation::B26 => 2,
        Relocation::PCADD_SHIFT2 => 2,
        Relocation::SI14 => 2,
        Relocation::PCADD_SHIFT12 => 12,
        Relocation::PCADD_SHIFT18 => 18,
        _ => 0,
    }
}

/// The high part of a PC-relative offset: the offset rounded by `0x800`, for the sign of
/// the low 12 bits that a following instruction adds, and divided by 4096.
pub open spec fn rounded_high(v: i64) -> int {
    (v as int + 0x800) / 0x1000
}

/// The run-time field of such a high part.
pub open spec fn high_field(ai: usize) -> DynamicField {
    DynamicField::Bits { arg: ai, bias: 0x800, shift: 12, mask: 0xFFFFF }
}

/// The low 12 bits of an immediate, at run time.
pub open spec fn low_field(ai: usize) -> DynamicField {
    DynamicField::Bits { arg: ai, bias: 0, shift: 0, mask: 0xFFF }
}

/// The high part of a 32-bit PC-relative offset (`pcalau12i`): the rounded high part must
/// fit in 20 signed bits.
pub open spec fn pc_high_step(ai: usize, value: ImmExpr) -> Result<Fields, CompileError> {
    match value.number {
        None => Ok(deferred(seq![(5u8, high_field(ai))])),
        Some(v) => {
            let hi = rounded_high(v);
            if hi < -0x80000 {
                Err(CompileError::TooLow { arg: ai })
            } else if hi > 0x7FFFF {
                Err(CompileError::TooHigh { arg: ai })
            } else {
                Ok(fixed(seq![(5u8, slice(hi, 0, 20))]))
            }
        },
    }
}

/// A 32-bit value over two instructions, the high part rounded (`pcalau12i` with `addi.d`,
/// `lu12i.w` with `ori`): the rounded high 20 bits go to the first word, the low 12 bits to
/// the second; `err` when the rounded high part does not fit in 20 signed bits.
pub open spec fn pair_step(ai: usize, value: ImmExpr, err: CompileError) -> Result<
    Fields,
    CompileError,
> {
    match value.number {
        None => Ok(deferred(seq![(5u8, high_field(ai)), (42u8, low_field(ai))])),
        Some(v) => {
            let hi = rounded_high(v);
            if hi < -0x80000 || hi > 0x7FFFF {
                Err(err)
            } else {
                Ok(fixed(seq![(5u8, slice(hi, 0, 20)), (42u8, slice(v as int, 0, 12))]))
            }
        },
    }
}

/// A call offset over `pcaddu12i` and `jirl`: bits 12 to 31 to the first word, bits 2 to 11
/// to the second, with no rounding and no check.
pub open spec fn call30_step(ai: usize, value: ImmExpr) -> Fields {
    match value.number {
        None => deferred(
            seq![
                (5u8, DynamicField::Bits { arg: ai, bias: 0, shift: 12, mask: 0xFFFFF }),
                (42u8, DynamicField::Bits { arg: ai, bias: 0, shift: 2, mask: 0x3FF }),
            ],
        ),
        Some(v) => fixed(seq![(5u8, slice(v as int, 12, 20)), (42u8, slice(v as int, 2, 10))]),
    }
}

/// A call offset over `pcaddu18i` and `jirl`: the offset rounded by `0x20000` and divided
/// by `2^18` must fit in 20 signed bits; the first word takes bits 18 to 31 of the low 32
/// bits of the rounded offset (only those reach the field), the second bits 2 to 17 of the
/// offset.
pub open spec fn call36_step(ai: usize, value: ImmExpr) -> Result<Fields, CompileError> {
    match value.number {
        None => Ok(
            deferred(
                seq![
                    (5u8, DynamicField::Bits { arg: ai, bias: 0x20000, shift: 18, mask: 0xFFFFF }),
                    (42u8, DynamicField::Bits { arg: ai, bias: 0, shift: 2, mask: 0xFFFF }),
                ],
            ),
        ),
        Some(v) => {
            let c = v as int + 0x20000;
            let hi = c / 0x40000;
            if hi < -0x80000 || hi > 0x7FFFF {
                Err(CompileError::SplitCall36OutOfRange { arg: ai })
            } else {
                Ok(fixed(seq![(5u8, slice(c, 18, 14)), (42u8, slice(v as int, 2, 16))]))
            }
        },
    }
}

/// A 64-bit value over `lu12i.w`, `ori`, `lu32i.d` and `lu52i.d`: the rounded bits 12 to 31,
/// bits 0 to 11, bits 32 to 51 and bits 52 to 63, with no check.
pub open spec fn li_d_step(ai: usize, value: ImmExpr) -> Fields {
    match value.number {
        None => deferred(
            seq![
                (5u8, high_field(ai)),
                (42u8, low_field(ai)),
                (69u8, DynamicField::High { arg: ai, shift: 32, mask: 0xFFFFF }),
                (106u8, DynamicField::High { arg: ai, shift: 52, mask: 0xFFF }),
            ],
        ),
        Some(v) => fixed(
            seq![
                (5u8, slice(v as int + 0x800, 12, 20)),
                (42u8, slice(v as int, 0, 12)),
                (69u8, slice(v as int, 32, 20)),
                (106u8, slice(v as int, 52, 12)),
            ],
        ),
    }
}

/// What an offset command makes of an immediate.
pub open spec fn offset_step(rel: Relocation, ai: usize, value: ImmExpr) -> Result<
    Fields,
    CompileError,
> {
    match rel {
        Relocation::PCALA_HI20 => pc_high_step(ai, value),
        Relocation::SPLIT_PCALA => pair_step(
            ai,
            value,
            CompileError::SplitPcalaOutOfRange { arg: ai },
        ),
        Relocation::SPLIT_CALL30 => Ok(call30_step(ai, value)),
        Relocation::SPLIT_CALL36 => call36_step(ai, value),
        _ => split_value(ai, value, offset_parts(rel), offset_scale(rel)),
    }
}

/// Whether an offset command can take an immediate: a literal relocation cannot; the
/// rounding of a number known now must stay within 64-bit arithmetic.
pub open spec fn offset_ok(rel: Relocation, value: ImmExpr) -> bool {
    match rel {
        Relocation::PCALA_HI20 => value.number matches Some(v) ==> v + 0x800 <= i64::MAX,
        Relocation::SPLIT_PCALA => value.number matches Some(v) ==> v + 0x800 <= i64::MAX,
        Relocation::SPLIT_CALL30 => true,
        Relocation::SPLIT_CALL36 => value.number matches Some(v) ==> v + 0x20000 <= i64::MAX,
        _ => split_ok(offset_parts(rel), offset_scale(rel), value),
    }
}

/// Computes the rounded high part of a PC-relative offset.
fn rounded_high_of(v: i64) -> (hi: i64)
    requires
        v + 0x800 <= i64::MAX,
    ensures
        hi == rounded_high(v),
{
    let c = v + 0x800;
    proof {
        vstd::arithmetic::div_mod::lemma_fundamental_div_mod(c as int, 0x1000);
    }
    c.checked_div_euclid(0x1000).unwrap()
}

/// Encodes the high part of a 32-bit PC-relative offset.
fn encode_pc_high(
    ai: usize,
    value: ImmExpr,
    statics: &mut Vec<(u8, u32)>,
    dynamics: &mut Vec<(u8, DynamicField)>,
) -> (r: Result<(), CompileError>)
    requires
        value.number matches Some(v) ==> v + 0x800 <= i64::MAX,
    ensures
        grows(
            old(statics)@,
            old(dynamics)@,
            final(statics)@,
            final(dynamics)@,
            r,
            pc_high_step(ai, value),
        ),
{
    match value.number {
        None => {
            dynamics.push((5u8, DynamicField::Bits { arg: ai, bias: 0x800, shift: 12, mask: 0xFFFFF }));
        },
        Some(v) => {
            let hi = rounded_high_of(v);
            if hi < -0x80000 {
                return Err(CompileError::TooLow { arg: ai });
            } else if hi > 0x7FFFF {
                return Err(CompileError::TooHigh { arg: ai });
            }
            statics.push((5u8, slice_of(hi as i128, 0, 20)));
        },
    }
    Ok(())
}

/// Encodes a 32-bit value over two instructions with a rounded high part.
fn encode_pair(
    ai: usize,
    value: ImmExpr,
    err: CompileError,
    statics: &mut Vec<(u8, u32)>,
    dynamics: &mut Vec<(u8, DynamicField)>,
) -> (r: Result<(), CompileError>)
    requires
        value.number matches Some(v) ==> v + 0x800 <= i64::MAX,
    ensures
        grows(
            old(statics)@,
            old(dynamics)@,
            final(statics)@,
            final(dynamics)@,
            r,
            pair_step(ai, value, err),
        ),
{
    match value.number {
        None => {
            dynamics.push((5u8, DynamicField::Bits { arg: ai, bias: 0x800, shift: 12, mask: 0xFFFFF }));
            dynamics.push((42u8, DynamicField::Bits { arg: ai, bias: 0, shift: 0, mask: 0xFFF }));
        },
        Some(v) => {
            let hi = rounded_high_of(v);
            if hi < -0x80000 || hi > 0x7FFFF {
                return Err(err);
            }
            statics.push((5u8, slice_of(hi as i128, 0, 20)));
            statics.push((42u8, slice_of(v as i128, 0, 12)));
        },
    }
    Ok(())
}

/// Encodes a call offset over `pcaddu12i` and `jirl`.
fn encode_call30(
    ai: usize,
    value: ImmExpr,
    statics: &mut Vec<(u8, u32)>,
    dynamics: &mut Vec<(u8, DynamicField)>,
) -> (r: Result<(), CompileError>)
    ensures
        grows(
            old(statics)@,
            old(dynamics)@,
            final(statics)@,
            final(dynamics)@,
            r,
            Ok(call30_step(ai, value)),
        ),
{
    match value.number {
        None => {
            dynamics.push((5u8, DynamicField::Bits { arg: ai, bias: 0, shift: 12, mask: 0xFFFFF }));
            dynamics.push((42u8, DynamicField::Bits { arg: ai, bias: 0, shift: 2, mask: 0x3FF }));
        },
        Some(v) => {
            statics.push((5u8, slice_of(v as i128, 12, 20)));
            statics.push((42u8, slice_of(v as i128, 2, 10)));
        },
    }
    Ok(())
}

/// Encodes a call offset over `pcaddu18i` and `jirl`.
fn encode_call36(
    ai: usize,
    value: ImmExpr,
    statics: &mut Vec<(u8, u32)>,
    dynamics: &mut Vec<(u8, DynamicField)>,
) -> (r: Result<(), CompileError>)
    requires
        value.number matches Some(v) ==> v + 0x20000 <= i64::MAX,
    ensures
        grows(
            old(statics)@,
            old(dynamics)@,
            final(statics)@,
            final(dynamics)@,
            r,
            call36_step(ai, value),
        ),
{
    match value.number {
        None => {
            dynamics.push(
                (5u8, DynamicField::Bits { arg: ai, bias: 0x20000, shift: 18, mask: 0xFFFFF }),
            );
            dynamics.push((42u8, DynamicField::Bits { arg: ai, bias: 0, shift: 2, mask: 0xFFFF }));
        },
        Some(v) => {
            let c = v + 0x20000;
            proof {
                vstd::arithmetic::div_mod::lemma_fundamental_div_mod(c as int, 0x40000);
            }
            let hi = c.checked_div_euclid(0x40000).unwrap();
            if hi < -0x80000 || hi > 0x7FFFF {
                return Err(CompileError::SplitCall36OutOfRange { arg: ai });
            }
            statics.push((5u8, slice_of(c as i128, 18, 14)));
            statics.push((42u8, slice_of(v as i128, 2, 16)));
        },
    }
    Ok(())
}

/// Encodes a 64-bit value over four instructions.
fn encode_li_d(
    ai: usize,
    value: ImmExpr,
    statics: &mut Vec<(u8, u32)>,
    dynamics: &mut Vec<(u8, DynamicField)>,
) -> (r: Result<(), CompileError>)
    requires
        value.number matches Some(v) ==> v + 0x800 <= i64::MAX,
    ensures
        grows(
            old(statics)@,
            old(dynamics)@,
            final(statics)@,
            final(dynamics)@,
            r,
            Ok(li_d_step(ai, value)),
        ),
{
    match value.number {
        None => {
            dynamics.push((5u8, DynamicField::Bits { arg: ai, bias: 0x800, shift: 12, mask: 0xFFFFF }));
            dynamics.push((42u8, DynamicField::Bits { arg: ai, bias: 0, shift: 0, mask: 0xFFF }));
            dynamics.push((69u8, DynamicField::High { arg: ai, shift: 32, mask: 0xFFFFF }));
            dynamics.push((106u8, DynamicField::High { arg: ai, shift: 52, mask: 0xFFF }));
        },
        Some(v) => {
            statics.push((5u8, slice_of(v as i128 + 0x800, 12, 20)));
            statics.push((42u8, slice_of(v as i128, 0, 12)));
            statics.push((69u8, slice_of(v as i128, 32, 20)));
            statics.push((106u8, slice_of(v as i128, 52, 12)));
        },
    }
    Ok(())
}

/// Encodes an offset given as an immediate.
fn encode_offset(
    rel: Relocation,
    ai: usize,
    value: ImmExpr,
    statics: &mut Vec<(u8, u32)>,
    dynamics: &mut Vec<(u8, DynamicField)>,
) -> (r: Result<(), CompileError>)
    requires
        offset_ok(rel, value),
    ensures
        grows(
            old(statics)@,
            old(dynamics)@,
            final(statics)@,
            final(dynamics)@,
            r,
            offset_step(rel, ai, value),
        ),
{
    match rel {
        Relocation::PCALA_HI20 => encode_pc_high(ai, value, statics, dynamics),
        Relocation::SPLIT_PCALA => encode_pair(
            ai,
            value,
            CompileError::SplitPcalaOutOfRange { arg: ai },
            statics,
            dynamics,
        ),
        Relocation::SPLIT_CALL30 => encode_call30(ai, value, statics, dynamics),
        Relocation::SPLIT_CALL36 => encode_call36(ai, value, statics, dynamics),
        _ => {
            let parts: Vec<(u8, u8)> = match rel {
                Relocation::B16 => vec![(10u8, 16u8)],
                Relocation::B21 => vec![(0u8, 5u8), (10u8, 16u8)],
                Relocation::B26 => vec![(0u8, 10u8), (10u8, 16u8)],
                Relocation::SI14 => vec![(10u8, 14u8)],
                Relocation::SI12 => vec![(10u8, 12u8)],
                Relocation::PCALA_LO12 => vec![(10u8, 12u8)],
                _ => vec![(5u8, 20u8)],
            };
            let scale: u8 = match rel {
                Relocation::B16 => 2,
                Relocation::B21 => 2,
                Relocation::B26 => 2,
                Relocation::PCADD_SHIFT2 => 2,
                Relocation::SI14 => 2,
                Relocation::PCADD_SHIFT12 => 12,
                Relocation::PCADD_SHIFT18 => 18,
                _ => 0,
            };
            proof {
                reveal_with_fuel(parts_width, 3);
            }
            assert(parts@ =~= offset_parts(rel));
            split_field(statics, dynamics, ai, value, &parts, scale)
        },
    }
}

// ---------------------------------------------------------------------------------------
// Wide immediates

/// A bit range of a wide immediate.
pub open spec fn is_bit_range(c: Command) -> bool {
    c is BitRange || c is RBitRange
}

/// Whether a command is a bit range.
fn is_bit_range_cmd(c: Command) -> (r: bool)
    ensures
        r == is_bit_range(c),
{
    match c {
        Command::BitRange(_, _, _) => true,
        Command::RBitRange(_, _, _) => true,
        _ => false,
    }
}

/// The number of bit ranges in a row from command `start` on.
pub open spec fn bit_range_count(cs: Seq<Command>, start: int) -> nat
    decreases cs.len() - start,
{
    if 0 <= start < cs.len() && is_bit_range(cs[start]) {
        1 + bit_range_count(cs, start + 1)
    } else {
        0
    }
}

/// The commands counted are bit ranges.
pub(crate) proof fn lemma_bit_ranges(cs: Seq<Command>, start: int, j: int)
    requires
        0 <= start <= j < start + bit_range_count(cs, start),
    ensures
        j < cs.len(),
        is_bit_range(cs[j]),
    decreases j - start,
{
    if j > start {
        lemma_bit_ranges(cs, start + 1, j);
    }
}

/// The smallest value of a signed immediate of `bits` bits: `-2^(bits - 1)`.
pub open spec fn wide_lowest(bits: u8) -> int {
    -pow2((bits - 1) as nat)
}

/// How far above the smallest value such an immediate may lie: `2^bits - 1`.
pub open spec fn wide_extent(bits: u8) -> int {
    pow2(bits as nat) - 1
}

/// What a wrapping 64-bit addition of a non-negative amount gives.
pub open spec fn wrapped(x: int) -> int {
    if x > i64::MAX {
        x - 0x1_0000_0000_0000_0000
    } else {
        x
    }
}

/// The field a bit range takes from a wide immediate known when assembling: bits from the
/// shift on, truncated to 32 bits and masked; a rounded range first adds half of the
/// shift's power of two (wrapping).
pub open spec fn bit_range_value(c: Command, v: i64) -> (u8, u32) {
    match c {
        Command::BitRange(o, b, s) => (o, slice(v as int, s as nat, 32) & bitmask_spec(b)),
        Command::RBitRange(o, b, s) => (
            o,
            slice(wrapped(v as int + pow2((s - 1) as nat)), s as nat, 32) & bitmask_spec(b),
        ),
        _ => (0, 0),
    }
}

/// The run-time field of a bit range of the wide immediate of argument `ai`, which must lie
/// in `lowest..=lowest + extent`.
pub open spec fn bit_range_field(c: Command, ai: usize, lowest: i64, extent: u64) -> (u8, DynamicField) {
    let (o, b, s) = match c {
        Command::BitRange(o, b, s) => (o, b, s),
        Command::RBitRange(o, b, s) => (o, b, s),
        _ => (0u8, 0u8, 0u8),
    };
    (
        o,
        DynamicField::Wide { arg: ai, shift: s, mask: bitmask_spec(b), round: c is RBitRange, lowest, extent },
    )
}

/// The bit ranges that follow command `k`.
pub open spec fn bit_ranges_after(cs: Seq<Command>, k: int) -> Seq<Command> {
    cs.subrange(k + 1, k + 1 + bit_range_count(cs, k + 1))
}

/// A signed immediate of `bits` bits spread by the bit ranges that follow command `k`:
/// known now, it must lie in `-2^(bits-1)..2^(bits-1)` and each range takes its field;
/// else each range is a run-time field, which checks the range.
pub open spec fn wide_step(cs: Seq<Command>, k: int, ai: usize, value: ImmExpr, bits: u8) -> Result<
    Fields,
    CompileError,
> {
    let ranges = bit_ranges_after(cs, k);
    match value.number {
        None => Ok(
            deferred(
                ranges.map_values(
                    |c: Command|
                        bit_range_field(c, ai, wide_lowest(bits) as i64, wide_extent(bits) as u64),
                ),
            ),
        ),
        Some(v) => if v < wide_lowest(bits) {
            Err(CompileError::TooLow { arg: ai })
        } else if v - wide_lowest(bits) > wide_extent(bits) {
            Err(CompileError::TooHigh { arg: ai })
        } else {
            Ok(fixed(ranges.map_values(|c: Command| bit_range_value(c, v))))
        },
    }
}

/// Whether a bit range's shift can be made: at most 63, and at least 1 when rounded.
pub open spec fn bit_range_ok(c: Command) -> bool {
    match c {
        Command::BitRange(_, _, s) => s <= 63,
        Command::RBitRange(_, _, s) => 1 <= s <= 63,
        _ => true,
    }
}

/// Whether the bit ranges after command `k` can be made and are ended by a `Next`.
pub open spec fn ranges_ok(cs: Seq<Command>, k: int) -> bool {
    let n = bit_range_count(cs, k + 1);
    &&& k + 1 + n < cs.len()
    &&& cs[k + 1 + n] is Next
    &&& forall|j: int| k + 1 <= j < k + 1 + n ==> bit_range_ok(#[trigger] cs[j])
}

/// Whether a wide immediate can be encoded: 1 to 64 bits wide, its bit ranges valid and
/// ended by a `Next`.
pub open spec fn wide_ok(cs: Seq<Command>, k: int, bits: u8) -> bool {
    1 <= bits <= 64 && ranges_ok(cs, k)
}

/// The bounds of a signed immediate of `bits` bits.
fn wide_bounds(bits: u8) -> (r: (i64, u64))
    requires
        1 <= bits <= 64,
    ensures
        r.0 == wide_lowest(bits),
        r.1 == wide_extent(bits),
{
    proof {
        lemma2_to64();
        vstd::arithmetic::power2::lemma2_to64_rest();
    }
    if bits == 64 {
        (i64::MIN, u64::MAX)
    } else {
        proof {
            lemma_u64_pow2_no_overflow(bits as nat);
            lemma_u64_shl_is_mul(1, bits as u64);
            lemma_u64_shl_is_mul(1, (bits - 1) as u64);
            lemma_pow2_strictly_increases((bits - 1) as nat, 63);
            if bits < 63 {
                lemma_pow2_strictly_increases(bits as nat, 63);
            }
        }
        let p = 1u64 << ((bits - 1) as u64);
        let q = 1u64 << (bits as u64);
        (0 - (p as i64), q - 1)
    }
}

/// Computes the field a bit range takes from a wide immediate known now.
fn bit_range_value_of(c: Command, v: i64) -> (r: (u8, u32))
    requires
        bit_range_ok(c),
        is_bit_range(c),
    ensures
        r == bit_range_value(c, v),
{
    match c {
        Command::BitRange(o, b, s) => (o, slice_of(v as i128, s, 32) & bitmask(b)),
        Command::RBitRange(o, b, s) => {
            proof {
                lemma_u64_pow2_no_overflow((s - 1) as nat);
                lemma_u64_shl_is_mul(1, (s - 1) as u64);
                lemma_pow2_strictly_increases((s - 1) as nat, 63);
                vstd::arithmetic::power2::lemma2_to64_rest();
            }
            let half_step = (1u64 << ((s - 1) as u64)) as i128;
            let t = v as i128 + half_step;
            let w: i128 = if t > 0x7FFF_FFFF_FFFF_FFFF {
                t - 0x1_0000_0000_0000_0000
            } else {
                t
            };
            (o, slice_of(w, s, 32) & bitmask(b))
        },
        _ => (0, 0),
    }
}

/// Gathers the fields of a wide immediate from the bit ranges that follow its command:
/// the fields known now when its value is, else the run-time fields, which are emitted
/// once the value's check is settled.
pub struct ImmediateEncoder {
    /// The argument that gives the immediate.
    pub arg: usize,
    /// The immediate's value when it is known when assembling.
    pub static_value: Option<i64>,
    /// The smallest value the immediate may take.
    pub lowest: i64,
    /// How far above `lowest` the immediate may lie.
    pub extent: u64,
    /// The run-time fields gathered so far.
    pub encodes: Vec<(u8, DynamicField)>,
}

impl ImmediateEncoder {
    /// An encoder of the immediate `value` of argument `arg`, which must lie in
    /// `lowest..=lowest + extent`, with no fields gathered yet.
    pub fn new(arg: usize, value: ImmExpr, lowest: i64, extent: u64) -> (r: ImmediateEncoder)
        ensures
            r.arg == arg,
            r.static_value == value.number,
            r.lowest == lowest,
            r.extent == extent,
            r.encodes@ == Seq::<(u8, DynamicField)>::empty(),
    {
        ImmediateEncoder { arg, static_value: value.number, lowest, extent, encodes: Vec::new() }
    }

    /// Gathers the fields of the bit ranges from command `index` on, up to the `Next` that
    /// ends them: for a value known now, each range's field goes to `statics`; else each
    /// range's run-time field is kept in `encodes`.
    pub fn gather_fields(&mut self, commands: &Vec<Command>, index: usize, statics: &mut Vec<(u8, u32)>)
        requires
            1 <= index <= commands.len(),
            ranges_ok(commands@, index - 1),
        ensures
            final(self).arg == old(self).arg,
            final(self).static_value == old(self).static_value,
            final(self).lowest == old(self).lowest,
            final(self).extent == old(self).extent,
            ({
                let ranges = bit_ranges_after(commands@, index - 1);
                match old(self).static_value {
                    Some(v) => final(statics)@ == old(statics)@ + ranges.map_values(
                        |c: Command| bit_range_value(c, v),
                    ) && final(self).encodes@ == old(self).encodes@,
                    None => final(self).encodes@ == old(self).encodes@ + ranges.map_values(
                        |c: Command| bit_range_field(c, old(self).arg, old(self).lowest, old(self).extent),
                    ) && final(statics)@ == old(statics)@,
                }
            }),
    {
        let ghost lowest = self.lowest;
        let ghost extent = self.extent;
        let ghost k = index - 1;
        let ghost n = bit_range_count(commands@, index as int);
        let ghost ranges = bit_ranges_after(commands@, k as int);
        let ghost s0 = statics@;
        let ghost e0 = self.encodes@;
        let ghost arg = self.arg;
        let known = self.static_value.is_some();
        let mut j: usize = index;
        while j < commands.len() && is_bit_range_cmd(commands[j])
            invariant
                index <= j <= index + n,
                k == index - 1,
                index <= commands.len(),
                n == bit_range_count(commands@, index as int),
                ranges == bit_ranges_after(commands@, k as int),
                ranges_ok(commands@, k as int),
                self.lowest == old(self).lowest,
                self.extent == old(self).extent,
                self.lowest == lowest,
                self.extent == extent,
                lowest == old(self).lowest,
                extent == old(self).extent,
                self.arg == arg,
                arg == old(self).arg,
                self.static_value == old(self).static_value,
                known == self.static_value is Some,
                known ==> statics@ == s0 + commands@.subrange(index as int, j as int).map_values(
                    |c: Command| bit_range_value(c, self.static_value.unwrap()),
                ) && self.encodes@ == e0,
                !known ==> self.encodes@ == e0 + commands@.subrange(index as int, j as int).map_values(
                    |c: Command| bit_range_field(c, arg, lowest, extent),
                ) && statics@ == s0,
            decreases commands.len() - j,
        {
            proof {
                if j == index + n {
                    assert(commands@[j as int] is Next);
                }
                assert(bit_range_ok(commands@[j as int]));
            }
            let c = commands[j];
            let ghost sub = commands@.subrange(index as int, j as int);
            assert(commands@.subrange(index as int, j + 1) =~= sub.push(c));
            match self.static_value {
                Some(v) => {
                    let f = bit_range_value_of(c, v);
                    statics.push(f);
                    assert(sub.push(c).map_values(|c: Command| bit_range_value(c, v))
                        =~= sub.map_values(|c: Command| bit_range_value(c, v)).push(f));
                },
                None => {
                    let (o, b, sh) = match c {
                        Command::BitRange(o, b, sh) => (o, b, sh),
                        Command::RBitRange(o, b, sh) => (o, b, sh),
                        _ => (0u8, 0u8, 0u8),
                    };
                    let round = match c {
                        Command::RBitRange(_, _, _) => true,
                        _ => false,
                    };
                    let f = (
                        o,
                        DynamicField::Wide {
                            arg: self.arg,
                            shift: sh,
                            mask: bitmask(b),
                            round,
                            lowest: self.lowest,
                            extent: self.extent,
                        },
                    );
                    self.encodes.push(f);
                    assert(sub.push(c).map_values(|c: Command| bit_range_field(c, arg, lowest, extent))
                        =~= sub.map_values(|c: Command| bit_range_field(c, arg, lowest, extent)).push(f));
                },
            }
            j = j + 1;
        }
        proof {
            if j < index + n {
                lemma_bit_ranges(commands@, index as int, j as int);
            }
            assert(j == index + n);
            assert(commands@.subrange(index as int, j as int) == ranges);
        }
    }

    /// Emits the gathered run-time fields, in order; each makes the immediate's check (the
    /// fields are grouped into their words when the instruction is assembled).
    pub fn emit_dynamic(self, dynamics: &mut Vec<(u8, DynamicField)>)
        ensures
            final(dynamics)@ == old(dynamics)@ + self.encodes@,
    {
        let mut encodes = self.encodes;
        let ghost before = dynamics@;
        let ghost e = encodes@;
        dynamics.append(&mut encodes);
        assert(dynamics@ =~= before + e);
    }
}

/// Encodes a wide immediate over the bit ranges that follow command `k`: its fields are
/// gathered first; a value known now is then checked, and the run-time fields of one that
/// is not are emitted.
fn encode_wide(
    cs: &Vec<Command>,
    k: usize,
    ai: usize,
    value: ImmExpr,
    bits: u8,
    statics: &mut Vec<(u8, u32)>,
    dynamics: &mut Vec<(u8, DynamicField)>,
) -> (r: Result<(), CompileError>)
    requires
        k < cs.len(),
        wide_ok(cs@, k as int, bits),
    ensures
        grows(
            old(statics)@,
            old(dynamics)@,
            final(statics)@,
            final(dynamics)@,
            r,
            wide_step(cs@, k as int, ai, value, bits),
        ),
{
    let ghost s0 = statics@;
    let ghost d0 = dynamics@;
    let (lowest, extent) = wide_bounds(bits);
    let mut encoder = ImmediateEncoder::new(ai, value, lowest, extent);
    encoder.gather_fields(cs, k + 1, statics);
    match encoder.static_value {
        Some(v) => {
            if v < lowest {
                return Err(CompileError::TooLow { arg: ai });
            }
            if (v as i128) - (lowest as i128) > extent as i128 {
                return Err(CompileError::TooHigh { arg: ai });
            }
            assert(dynamics@ =~= d0 + Seq::<(u8, DynamicField)>::empty());
        },
        None => {
            encoder.emit_dynamic(dynamics);
            assert(statics@ =~= s0 + Seq::<(u8, u32)>::empty());
        },
    }
    Ok(())
}

// ---------------------------------------------------------------------------------------
// One command on one argument

/// The immediate of the argument before argument `c` (a command that relates two
/// immediates needs one there).
pub open spec fn previous(args: Seq<FlatArg>, c: int) -> ImmExpr {
    match args[c - 1] {
        FlatArg::Immediate { value } => value,
        _ => ImmExpr { number: None, is_ident: false },
    }
}

/// What command `k` makes of the immediate of argument `c`.
pub open spec fn immediate_step(
    cs: Seq<Command>,
    k: int,
    args: Seq<FlatArg>,
    c: int,
    value: ImmExpr,
) -> Result<Fields, CompileError> {
    let ai = c as usize;
    match cs[k] {
        Command::UImm(o, b) => unsigned_step(o, b, ai, value),
        Command::SImm(o, b) => signed_step(o, b, ai, value),
        Command::Sfields(arr) => split_value(ai, value, pairs(arr@), 0),
        Command::Usum(o, b) => sum_step(o, b, ai, value, previous(args, c)),
        Command::Ulep(o, b) => at_most_step(o, b, ai, value, previous(args, c)),
        Command::Offset(rel) => offset_step(rel, ai, value),
        Command::Uscaled(o, l, sc) => split_value(ai, value, seq![(o, l)], sc),
        Command::Sscaled(o, l, sc) => split_value(ai, value, seq![(o, l)], sc),
        Command::Usubone(o, b) => sub_one_step(o, b, ai, value),
        Command::BigImm(bits) => wide_step(cs, k, ai, value, bits),
        Command::LiW32 => pair_step(ai, value, CompileError::LiWOutOfRange { arg: ai }),
        Command::LiD64 => Ok(li_d_step(ai, value)),
        _ => Ok(no_fields()),
    }
}

/// Whether command `k` can take the immediate of argument `c` without the encoder failing
/// on a broken form or on arithmetic beyond 64 bits.
pub open spec fn immediate_ok(
    cs: Seq<Command>,
    k: int,
    args: Seq<FlatArg>,
    c: int,
    value: ImmExpr,
) -> bool {
    match cs[k] {
        Command::UImm(_, _) => true,
        Command::SImm(_, bits) => 1 <= bits <= 32 && match value.number {
            Some(v) => check_fits(v, half_spec(bits), 0),
            None => bits <= 31,
        },
        Command::Sfields(arr) => arr@.len() % 2 == 0 && split_ok(pairs(arr@), 0, value),
        Command::Usum(_, bits) => c >= 1 && args[c - 1] is Immediate && sum_ok(
            bits,
            value,
            previous(args, c),
        ),
        Command::Ulep(_, _) => c >= 1 && args[c - 1] is Immediate,
        Command::Offset(rel) => offset_ok(rel, value),
        Command::Uscaled(o, l, sc) => split_ok(seq![(o, l)], sc, value),
        Command::Sscaled(o, l, sc) => split_ok(seq![(o, l)], sc, value),
        Command::Usubone(_, _) => value.number matches Some(v) ==> check_fits(v, 1, 0),
        Command::BigImm(bits) => wide_ok(cs, k, bits),
        Command::LiW32 => value.number matches Some(v) ==> v + 0x800 <= i64::MAX,
        Command::LiD64 => value.number matches Some(v) ==> v + 0x800 <= i64::MAX,
        _ => false,
    }
}

/// Encodes the immediate of argument `c` with command `k`.
fn encode_immediate(
    cs: &Vec<Command>,
    k: usize,
    args: &Vec<FlatArg>,
    c: usize,
    value: ImmExpr,
    statics: &mut Vec<(u8, u32)>,
    dynamics: &mut Vec<(u8, DynamicField)>,
) -> (r: Result<(), CompileError>)
    requires
        k < cs.len(),
        c < args.len(),
        immediate_ok(cs@, k as int, args@, c as int, value),
    ensures
        grows(
            old(statics)@,
            old(dynamics)@,
            final(statics)@,
            final(dynamics)@,
            r,
            immediate_step(cs@, k as int, args@, c as int, value),
        ),
{
    let ghost s0 = statics@;
    let ghost d0 = dynamics@;
    match cs[k] {
        Command::UImm(o, b) => encode_unsigned(o, b, c, value, statics, dynamics),
        Command::SImm(o, b) => encode_signed(o, b, c, value, statics, dynamics),
        Command::Sfields(arr) => {
            let parts = pairs_of(arr);
            split_field(statics, dynamics, c, value, &parts, 0)
        },
        Command::Usum(o, b) => {
            let prev = match args[c - 1] {
                FlatArg::Immediate { value } => value,
                _ => ImmExpr { number: None, is_ident: false },
            };
            encode_sum(o, b, c, value, prev, statics, dynamics)
        },
        Command::Ulep(o, b) => {
            let prev = match args[c - 1] {
                FlatArg::Immediate { value } => value,
                _ => ImmExpr { number: None, is_ident: false },
            };
            encode_at_most(o, b, c, value, prev, statics, dynamics)
        },
        Command::Offset(rel) => encode_offset(rel, c, value, statics, dynamics),
        Command::Uscaled(o, l, sc) => {
            let parts = vec![(o, l)];
            assert(parts@ =~= seq![(o, l)]);
            split_field(statics, dynamics, c, value, &parts, sc)
        },
        Command::Sscaled(o, l, sc) => {
            let parts = vec![(o, l)];
            assert(parts@ =~= seq![(o, l)]);
            split_field(statics, dynamics, c, value, &parts, sc)
        },
        Command::Usubone(o, b) => encode_sub_one(o, b, c, value, statics, dynamics),
        Command::BigImm(bits) => encode_wide(cs, k, c, value, bits, statics, dynamics),
        Command::LiW32 => encode_pair(
            c,
            value,
            CompileError::LiWOutOfRange { arg: c },
            statics,
            dynamics,
        ),
        Command::LiD64 => encode_li_d(c, value, statics, dynamics),
        _ => {
            assert(statics@ =~= s0 + no_fields().0);
            assert(dynamics@ =~= d0 + no_fields().1);
            Ok(())
        },
    }
}

/// What command `k` makes of argument `c`: fields known now, run-time fields and
/// relocations, or an error. A jump target becomes a relocation of the whole instruction.
pub open spec fn step(cs: Seq<Command>, k: int, args: Seq<FlatArg>, c: int) -> Result<
    Encoded,
    CompileError,
> {
    let ai = c as usize;
    let fields = match args[c] {
        FlatArg::Register { reg } => register_step(cs[k], reg, ai),
        FlatArg::Immediate { value } => immediate_step(cs, k, args, c, value),
        _ => Ok(no_fields()),
    };
    match fields {
        Err(e) => Err(e),
        Ok(p) => match (args[c], cs[k]) {
            (FlatArg::JumpTarget { .. }, Command::Offset(rel)) => Ok(
                (p.0, p.1, seq![StmtView::Relocation(ai, rel.spec_size(), rel.spec_id())]),
            ),
            _ => Ok((p.0, p.1, seq![])),
        },
    }
}

/// Whether command `k` can take argument `c`: a register goes to a register field, an
/// omitted offset to an immediate field, an immediate as `immediate_ok` says, a jump target
/// to an offset.
pub open spec fn compatible(cs: Seq<Command>, k: int, args: Seq<FlatArg>, c: int) -> bool {
    let cmd = cs[k];
    match args[c] {
        FlatArg::Register { reg } => register_ok(cmd, reg),
        FlatArg::Default => cmd is UImm || cmd is SImm || cmd is Ufields || cmd is Sfields,
        FlatArg::Immediate { value } => immediate_ok(cs, k, args, c, value),
        FlatArg::JumpTarget { .. } => cmd is Offset,
    }
}

/// The relocations' views.
pub open spec fn stmt_views(v: Seq<Stmt>) -> Seq<StmtView> {
    v.map_values(|x: Stmt| x@)
}

/// Encodes argument `c` with command `k`.
pub(crate) fn encode_arg(
    cs: &Vec<Command>,
    k: usize,
    args: &Vec<FlatArg>,
    c: usize,
    statics: &mut Vec<(u8, u32)>,
    dynamics: &mut Vec<(u8, DynamicField)>,
    relocations: &mut Vec<Stmt>,
) -> (r: Result<(), CompileError>)
    requires
        k < cs.len(),
        c < args.len(),
        compatible(cs@, k as int, args@, c as int),
    ensures
        match step(cs@, k as int, args@, c as int) {
            Ok(p) => r is Ok && final(statics)@ == old(statics)@ + p.0 && final(dynamics)@ == old(
                dynamics,
            )@ + p.1 && stmt_views(final(relocations)@) == stmt_views(old(relocations)@) + p.2,
            Err(e) => r == Err::<(), CompileError>(e),
        },
{
    let ghost r0 = stmt_views(relocations@);
    match args[c] {
        FlatArg::Register { reg } => {
            let res = encode_register(cs[k], reg, c, statics, dynamics);
            match res {
                Err(e) => {
                    return Err(e);
                },
                Ok(()) => {},
            }
        },
        FlatArg::Immediate { value } => {
            let res = encode_immediate(cs, k, args, c, value, statics, dynamics);
            match res {
                Err(e) => {
                    return Err(e);
                },
                Ok(()) => {},
            }
        },
        FlatArg::Default => {},
        FlatArg::JumpTarget { .. } => {
            match cs[k] {
                Command::Offset(rel) => {
                    relocations.push(Stmt::Relocation { arg: c, size: rel.size(), id: rel.to_id() });
                },
                _ => {},
            }
        },
    }
    proof {
        let p = step(cs@, k as int, args@, c as int).unwrap();
        assert(statics@ =~= old(statics)@ + p.0);
        assert(dynamics@ =~= old(dynamics)@ + p.1);
        assert(stmt_views(relocations@) =~= r0 + p.2);
    }
    Ok(())
}

/// The bit offset of a register command's field, for the commands that take a register.
pub open spec fn register_offset(cmd: Command) -> Option<u8> {
    match cmd {
        Command::R(o) | Command::Rno0(o) | Command::Rdiff(o) | Command::F(o) | Command::C(o)
        | Command::V(o) | Command::X(o) => Some(o),
        _ => None,
    }
}

/// Every register command places a named register at its own offset: the encoding is the
/// single field holding the register's 5-bit code at the command's offset, and nothing
/// else. The one refusal is r0 in a field that must not be r0.
pub proof fn lemma_named_register_at_offset(cs: Seq<Command>, k: int, args: Seq<FlatArg>, c: int, id: RegId)
    requires
        0 <= k < cs.len(),
        0 <= c < args.len(),
        register_offset(cs[k]) is Some,
        args[c] == (FlatArg::Register { reg: Register::Static(id) }),
    ensures
        cs[k] is Rno0 && id.spec_code() == 0 ==> step(cs, k, args, c) == Err::<Encoded, CompileError>(
            CompileError::RegisterIsR0 { arg: c as usize },
        ),
        !(cs[k] is Rno0 && id.spec_code() == 0) ==> step(cs, k, args, c) == Ok::<Encoded, CompileError>(
            (seq![(register_offset(cs[k]).unwrap(), id.spec_code() as u32)], seq![], seq![]),
        ),
{
}

/// A register given at run time in a general register field becomes one run-time field at
/// the command's offset, for that argument, marked nonzero exactly where r0 is refused.
pub proof fn lemma_dynamic_register_at_offset(cs: Seq<Command>, k: int, args: Seq<FlatArg>, c: int)
    requires
        0 <= k < cs.len(),
        0 <= c < args.len(),
        cs[k] is R || cs[k] is Rno0,
        args[c] matches FlatArg::Register { reg } && reg is Dynamic,
    ensures
        step(cs, k, args, c) == Ok::<Encoded, CompileError>(
            (
                seq![],
                seq![
                    (
                        register_offset(cs[k]).unwrap(),
                        DynamicField::Register { arg: c as usize, nonzero: cs[k] is Rno0 },
                    ),
                ],
                seq![],
            ),
        ),
{
}

} // verus!
