//! Encoding a matched instruction: the static arguments are checked and placed into the
//! instruction words of the form's template; the fields that are only known at run time
//! are described, with the checks the assembled code makes on them; jump targets become
//! relocations.

use vstd::prelude::*;
use vstd::arithmetic::power2::{pow2, lemma_pow2_pos};
use vstd::bits::{lemma_u32_shl_is_mul, lemma_u64_shl_is_mul, lemma_u32_pow2_no_overflow,
    lemma_u64_pow2_no_overflow};
use crate::ast::{FlatArg, ImmExpr, Jump, ParsedInstruction, RegId, Register};
use crate::data::{Command, Opdata, Template};
use crate::commands::{Encoded, step, compatible, encode_arg, stmt_views};
use crate::debug::table_describable;
use crate::matching::{MatchData, MatchError, match_found, is_match, is_match_error, match_instruction};
use crate::opmap::OpTable;
use crate::target::LoongArchTarget;
use crate::text::{push_str, push_decimal, push_signed_decimal, decimal, signed_decimal};

verus! {

/// A field of an instruction word whose value is only known at run time.
#[derive(Debug, Clone, Copy, PartialEq, Eq, Structural)]
pub enum DynamicField {
    /// The low five bits of the register number that argument `arg` gives; with `nonzero`,
    /// the assembled code stops when that number is 0.
    Register { arg: usize, nonzero: bool },
    /// The unsigned immediate that argument `arg` gives: the assembled code stops when it is
    /// above `mask`; the field is `imm & mask`.
    Unsigned { arg: usize, mask: u32 },
    /// The signed immediate that argument `arg` gives: the assembled code stops when it is
    /// not a multiple of `2^scale` or when `((imm >> scale) - min) as u32` is above `range`;
    /// the field is `((imm >> shift) as u32) & mask`.
    Signed { arg: usize, min: i32, range: u32, scale: u8, shift: u8, mask: u32 },
    /// The unsigned immediate that argument `arg` gives, added to the one that argument
    /// `prev` gives: the assembled code stops when `imm - 1` is above `mask - prev`; the
    /// field is `(prev + imm - 1) & mask`.
    Sum { arg: usize, prev: usize, mask: u32 },
    /// The unsigned immediate that argument `arg` gives, at most the one that argument
    /// `prev` gives: the assembled code stops when it is above that; the field is
    /// `imm & mask`.
    AtMost { arg: usize, prev: usize, mask: u32 },
    /// The unsigned immediate that argument `arg` gives, stored less one: the assembled code
    /// stops when `imm - 1` (wrapping) is above `mask`; the field is `(imm - 1) & mask`.
    SubOne { arg: usize, mask: u32 },
    /// Bits of the low 32 bits of the immediate that argument `arg` gives, with no check:
    /// `(imm as u32).wrapping_add(bias) >> shift & mask`.
    Bits { arg: usize, bias: u32, shift: u8, mask: u32 },
    /// Bits of the 64-bit immediate that argument `arg` gives, with no check:
    /// `((imm as i64 >> shift) as u32) & mask`.
    High { arg: usize, shift: u8, mask: u32 },
    /// A bit range of the wide signed immediate that argument `arg` gives:
    /// `((imm >> shift) as u32) & mask`, where `imm` is first rounded by `2^(shift - 1)`
    /// (wrapping) when `round` is set. The assembled code stops when the immediate is below
    /// `lowest` or more than `extent` above it.
    Wide { arg: usize, shift: u8, mask: u32, round: bool, lowest: i64, extent: u64 },
}

/// An item of assembled output.
#[derive(Debug)]
pub enum Stmt {
    /// A 4-byte instruction word known when assembling.
    Const(u32),
    /// A 4-byte instruction word completed at run time: `base` with each field, shifted left
    /// by its offset, or-ed in.
    Dynamic { base: u32, fields: Vec<(u8, DynamicField)> },
    /// A relocation for the jump target that argument `arg` gives: it covers the `size`
    /// bytes before this point and is identified by `id`.
    Relocation { arg: usize, size: u8, id: u8 },
    /// `size` bytes of zero, for data that a relocation fills in.
    Zeros { size: u8 },
    /// A relocation of plain data for the target `jump`: it covers the `size` bytes before
    /// this point and carries no identifier.
    DataRelocation { jump: Jump, size: u8 },
}

/// The value of an output item.
pub enum StmtView {
    /// A constant word.
    Const(u32),
    /// A word with run-time fields: the base and the fields with their offsets.
    Dynamic(u32, Seq<(u8, DynamicField)>),
    /// A relocation: the argument, the size and the identifier.
    Relocation(usize, u8, u8),
    /// Zero bytes: their number.
    Zeros(u8),
    /// A data relocation: the target and the size.
    DataRelocation(Jump, u8),
}

impl View for Stmt {
    type V = StmtView;

    open spec fn view(&self) -> StmtView {
        match self {
            Stmt::Const(w) => StmtView::Const(*w),
            Stmt::Dynamic { base, fields } => StmtView::Dynamic(*base, fields@),
            Stmt::Relocation { arg, size, id } => StmtView::Relocation(*arg, *size, *id),
            Stmt::Zeros { size } => StmtView::Zeros(*size),
            Stmt::DataRelocation { jump, size } => StmtView::DataRelocation(*jump, *size),
        }
    }
}

/// Why an instruction cannot be encoded.
#[derive(Debug, Clone, Copy, PartialEq, Eq, Structural)]
pub enum CompileError {
    /// Argument `arg` is r0 where r0 is not allowed.
    RegisterIsR0 { arg: usize },
    /// The immediate of argument `arg` is not a multiple of `2^scale`.
    Unrepresentable { arg: usize, scaled: i64, scale: u8, value: i64, min: i32, range: u32 },
    /// The immediate of argument `arg` is below the smallest value the field holds.
    TooLow { arg: usize },
    /// The immediate of argument `arg` is above the largest value the field holds.
    TooHigh { arg: usize },
    /// The immediate of argument `arg` is too large for the field that the next immediate
    /// is added to or bounded by.
    ImpossibleCombination { arg: usize },
    /// The `pcalau12i` and `addi.d` offset of argument `arg` does not fit.
    SplitPcalaOutOfRange { arg: usize },
    /// The `pcaddu18i` and `jirl` offset of argument `arg` does not fit.
    SplitCall36OutOfRange { arg: usize },
    /// The `li.w` immediate of argument `arg` does not fit in 32 bits.
    LiWOutOfRange { arg: usize },
}

/// The message of an encoding error.
pub open spec fn error_text(e: CompileError) -> Seq<char> {
    match e {
        CompileError::RegisterIsR0 { .. } => "This register must not be r0"@,
        CompileError::Unrepresentable { scaled, scale, value, min, range, .. } =>
            "Unrepresentable immediate scaled:"@ + signed_decimal(scaled as int) + " scale:"@
                + decimal(scale as nat) + " value:"@ + signed_decimal(value as int) + " min:"@
                + signed_decimal(min as int) + " range:"@ + decimal(range as nat),
        CompileError::TooLow { .. } => "Immediate too low"@,
        CompileError::TooHigh { .. } => "Immediate too high"@,
        CompileError::ImpossibleCombination { .. } => "Impossible immediate combination"@,
        CompileError::SplitPcalaOutOfRange { .. } => "SPLIT_PCALA immediate out of range"@,
        CompileError::SplitCall36OutOfRange { .. } => "SPLIT_CALL36 immediate out of range"@,
        CompileError::LiWOutOfRange { .. } => "li.w immediate out of 32-bit range"@,
    }
}

/// The argument an encoding error is about.
pub open spec fn error_arg(e: CompileError) -> usize {
    match e {
        CompileError::RegisterIsR0 { arg } => arg,
        CompileError::Unrepresentable { arg, .. } => arg,
        CompileError::TooLow { arg } => arg,
        CompileError::TooHigh { arg } => arg,
        CompileError::ImpossibleCombination { arg } => arg,
        CompileError::SplitPcalaOutOfRange { arg } => arg,
        CompileError::SplitCall36OutOfRange { arg } => arg,
        CompileError::LiWOutOfRange { arg } => arg,
    }
}

impl CompileError {
    /// The argument the error is about.
    pub fn arg(&self) -> (r: usize)
        ensures
            r == error_arg(*self),
    {
        match self {
            CompileError::RegisterIsR0 { arg } => *arg,
            CompileError::Unrepresentable { arg, .. } => *arg,
            CompileError::TooLow { arg } => *arg,
            CompileError::TooHigh { arg } => *arg,
            CompileError::ImpossibleCombination { arg } => *arg,
            CompileError::SplitPcalaOutOfRange { arg } => *arg,
            CompileError::SplitCall36OutOfRange { arg } => *arg,
            CompileError::LiWOutOfRange { arg } => *arg,
        }
    }

    /// The message reported at the argument.
    pub fn message(&self) -> (r: String)
        ensures
            r@ == error_text(*self),
    {
        match self {
            CompileError::RegisterIsR0 { .. } => String::from_str("This register must not be r0"),
            CompileError::Unrepresentable { scaled, scale, value, min, range, .. } => {
                let mut s = String::new();
                push_str(&mut s, "Unrepresentable immediate scaled:");
                push_signed_decimal(&mut s, *scaled as i128);
                push_str(&mut s, " scale:");
                push_decimal(&mut s, *scale as u128);
                push_str(&mut s, " value:");
                push_signed_decimal(&mut s, *value as i128);
                push_str(&mut s, " min:");
                push_signed_decimal(&mut s, *min as i128);
                push_str(&mut s, " range:");
                push_decimal(&mut s, *range as u128);
                s
            },
            CompileError::TooLow { .. } => String::from_str("Immediate too low"),
            CompileError::TooHigh { .. } => String::from_str("Immediate too high"),
            CompileError::ImpossibleCombination { .. } => String::from_str(
                "Impossible immediate combination",
            ),
            CompileError::SplitPcalaOutOfRange { .. } => String::from_str(
                "SPLIT_PCALA immediate out of range",
            ),
            CompileError::SplitCall36OutOfRange { .. } => String::from_str(
                "SPLIT_CALL36 immediate out of range",
            ),
            CompileError::LiWOutOfRange { .. } => String::from_str("li.w immediate out of 32-bit range"),
        }
    }
}

/// A mask of the low `n` bits (all 32 bits for `n` of 32 or more).
pub open spec fn bitmask_spec(n: u8) -> u32 {
    if n >= 32 {
        0xFFFF_FFFF
    } else {
        (pow2(n as nat) - 1) as u32
    }
}

/// A mask of the low `n` bits (all 32 bits for `n` of 32 or more).
pub(crate) fn bitmask(n: u8) -> (r: u32)
    ensures
        r == bitmask_spec(n),
{
    if n >= 32 {
        0xFFFF_FFFF
    } else {
        proof {
            lemma_u32_pow2_no_overflow(n as nat);
            lemma_u32_shl_is_mul(1, n as u32);
        }
        (1u32 << (n as u32)) - 1
    }
}

/// The smallest value of a signed field of `bits` bits: `-2^(bits - 1)`.
pub open spec fn half_spec(bits: u8) -> i32 {
    (0 - pow2((bits - 1) as nat)) as i32
}

/// The smallest value of a signed field of `bits` bits.
pub(crate) fn half(bits: u8) -> (r: i32)
    requires
        1 <= bits <= 32,
    ensures
        r == half_spec(bits),
        r as int == 0 - pow2((bits - 1) as nat),
{
    proof {
        lemma_u64_pow2_no_overflow((bits - 1) as nat);
        lemma_u64_shl_is_mul(1, (bits - 1) as u64);
        vstd::arithmetic::power2::lemma_pow2_strictly_increases((bits - 1) as nat, 32);
        vstd::arithmetic::power2::lemma2_to64();
    }
    let p: u64 = 1u64 << ((bits - 1) as u64);
    (0i64 - (p as i64)) as i32
}

/// What the static range check makes of an immediate: `value` divided by `2^scale` (the
/// scaled value) must be exact, and the scaled value less `min` (the biased value) must lie
/// in `0..=range`; then the biased and the scaled value, truncated to 32 bits.
pub open spec fn range_check(arg: usize, value: i64, min: i32, range: u32, scale: u8) -> Result<
    (u32, u32),
    CompileError,
> {
    let d = pow2(scale as nat) as int;
    let scaled = value as int / d;
    if value as int % d != 0 {
        Err(CompileError::Unrepresentable { arg, scaled: scaled as i64, scale, value, min, range })
    } else if scaled - min < 0 {
        Err(CompileError::TooLow { arg })
    } else if scaled - min > range {
        Err(CompileError::TooHigh { arg })
    } else {
        Ok(((scaled - min) as u32, scaled as u32))
    }
}

/// Whether the static range check of `value` stays within 64-bit arithmetic.
pub open spec fn check_fits(value: i64, min: i32, scale: u8) -> bool {
    i64::MIN <= value as int / pow2(scale as nat) as int - min <= i64::MAX
}

/// Checks an immediate that is known when assembling: nothing (`None`) for one that is only
/// known at run time, else the result of the range check.
pub(crate) fn static_range_check(arg: usize, value: ImmExpr, min: i32, range: u32, scale: u8) -> (r: Result<
    Option<(u32, u32)>,
    CompileError,
>)
    requires
        scale < 63,
        value.number matches Some(v) ==> check_fits(v, min, scale),
    ensures
        match value.number {
            None => r == Ok::<Option<(u32, u32)>, CompileError>(None),
            Some(v) => match range_check(arg, v, min, range, scale) {
                Ok(p) => r == Ok::<Option<(u32, u32)>, CompileError>(Some(p)),
                Err(e) => r == Err::<Option<(u32, u32)>, CompileError>(e),
            },
        },
{
    let v = match value.number {
        Some(v) => v,
        None => return Ok(None),
    };
    proof {
        lemma_u64_pow2_no_overflow(scale as nat);
        lemma_u64_shl_is_mul(1, scale as u64);
        lemma_pow2_pos(scale as nat);
        vstd::arithmetic::power2::lemma_pow2_strictly_increases(scale as nat, 63);
        vstd::arithmetic::power2::lemma2_to64_rest();
    }
    let d: i64 = (1u64 << (scale as u64)) as i64;
    assert(d as int == pow2(scale as nat));
    proof {
        let q = v as int / d as int;
        let m = v as int % d as int;
        vstd::arithmetic::div_mod::lemma_fundamental_div_mod(v as int, d as int);
        assert(i64::MIN <= q <= i64::MAX) by (nonlinear_arith)
            requires
                d >= 1,
                v as int == d * q + m,
                0 <= m < d,
                i64::MIN <= v <= i64::MAX,
        ;
    }
    let scaled = v.checked_div_euclid(d).unwrap();
    let rem = v.checked_rem_euclid(d).unwrap();
    if rem != 0 {
        return Err(CompileError::Unrepresentable { arg, scaled, scale, value: v, min, range });
    }
    let biased = scaled - (min as i64);
    if biased < 0 {
        Err(CompileError::TooLow { arg })
    } else if biased > range as i64 {
        Err(CompileError::TooHigh { arg })
    } else {
        Ok(Some((biased as u32, #[verifier::truncate] (scaled as u32))))
    }
}

/// The total width of the parts of a split field.
pub open spec fn parts_width(parts: Seq<(u8, u8)>) -> nat
    decreases parts.len(),
{
    if parts.len() == 0 {
        0
    } else {
        parts_width(parts.drop_last()) + parts.last().1 as nat
    }
}

/// How far the scaled value is shifted right for part `j` of a split field: the width of
/// the parts after it.
pub open spec fn part_shift(parts: Seq<(u8, u8)>, j: int) -> int {
    parts_width(parts) - parts_width(parts.take(j + 1))
}

/// The static parts of a split field: for each (offset, length) part, the bits of the scaled
/// value that fall into it, the first part taking the most significant bits.
pub open spec fn split_statics(parts: Seq<(u8, u8)>, scaled: u32) -> Seq<(u8, u32)> {
    Seq::new(
        parts.len(),
        |j: int| (parts[j].0, (scaled >> (part_shift(parts, j) as u32)) & bitmask_spec(parts[j].1)),
    )
}

/// The run-time parts of a split field of argument `arg`.
pub open spec fn split_dynamics(
    parts: Seq<(u8, u8)>,
    arg: usize,
    min: i32,
    range: u32,
    scale: u8,
) -> Seq<(u8, DynamicField)> {
    Seq::new(
        parts.len(),
        |j: int|
            (
                parts[j].0,
                DynamicField::Signed {
                    arg,
                    min,
                    range,
                    scale,
                    shift: part_shift(parts, j) as u8,
                    mask: bitmask_spec(parts[j].1),
                },
            ),
    )
}

/// A signed immediate split over several parts: its range is that of a signed field as wide
/// as all parts together, after scaling by `2^scale`.
pub open spec fn split_value(arg: usize, value: ImmExpr, parts: Seq<(u8, u8)>, scale: u8) -> Result<
    (Seq<(u8, u32)>, Seq<(u8, DynamicField)>),
    CompileError,
> {
    let width = parts_width(parts) as u8;
    let mask = bitmask_spec(width);
    let min = half_spec(width);
    match value.number {
        None => Ok((seq![], split_dynamics(parts, arg, min, mask, scale))),
        Some(v) => match range_check(arg, v, min, mask, scale) {
            Ok(p) => Ok((split_statics(parts, p.1), seq![])),
            Err(e) => Err(e),
        },
    }
}

/// The width of a prefix of the parts is at most the width of all of them.
proof fn lemma_parts_width_prefix(parts: Seq<(u8, u8)>, k: int)
    requires
        0 <= k <= parts.len(),
    ensures
        parts_width(parts.take(k)) <= parts_width(parts),
        k > 0 ==> parts_width(parts.take(k)) == parts_width(parts.take(k - 1)) + parts[k - 1].1,
    decreases parts.len() - k,
{
    if k > 0 {
        assert(parts.take(k).drop_last() =~= parts.take(k - 1));
    }
    if k < parts.len() {
        let n = parts.len() as int;
        lemma_parts_width_prefix(parts.drop_last(), k);
        assert(parts.drop_last().take(k) =~= parts.take(k));
    } else {
        assert(parts.take(k) =~= parts);
    }
}

/// Whether a split field can be encoded: its parts are non-empty and together 1 to 32 bits
/// wide.
pub open spec fn parts_ok(parts: Seq<(u8, u8)>) -> bool {
    &&& 1 <= parts_width(parts) <= 32
    &&& forall|j: int| 0 <= j < parts.len() ==> (#[trigger] parts[j]).1 >= 1
}

/// Encodes a signed immediate split over several fields (the immediate of a jump offset).
pub(crate) fn split_field(
    statics: &mut Vec<(u8, u32)>,
    dynamics: &mut Vec<(u8, DynamicField)>,
    arg: usize,
    value: ImmExpr,
    parts: &Vec<(u8, u8)>,
    scale: u8,
) -> (r: Result<(), CompileError>)
    requires
        parts_ok(parts@),
        scale < 63,
        value.number matches Some(v) ==> check_fits(v, half_spec(parts_width(parts@) as u8), scale),
    ensures
        match split_value(arg, value, parts@, scale) {
            Ok(p) => r is Ok && final(statics)@ == old(statics)@ + p.0 && final(dynamics)@ == old(
                dynamics,
            )@ + p.1,
            Err(e) => r == Err::<(), CompileError>(e),
        },
{
    let ghost ps = parts@;
    let mut bitlen: u8 = 0;
    let mut k: usize = 0;
    while k < parts.len()
        invariant
            k <= parts.len(),
            ps == parts@,
            parts_ok(ps),
            bitlen == parts_width(ps.take(k as int)),
        decreases parts.len() - k,
    {
        proof {
            lemma_parts_width_prefix(ps, k + 1);
        }
        bitlen = bitlen + parts[k].1;
        k = k + 1;
    }
    assert(ps.take(parts.len() as int) =~= ps);
    let mask = bitmask(bitlen);
    let min = half(bitlen);
    let checked = static_range_check(arg, value, min, mask, scale);
    let ghost s0 = statics@;
    let ghost d0 = dynamics@;
    match checked {
        Err(e) => {
            return Err(e);
        },
        Ok(Some((_, scaled))) => {
            let mut consumed: u8 = 0;
            let mut j: usize = 0;
            while j < parts.len()
                invariant
                    j <= parts.len(),
                    ps == parts@,
                    parts_ok(ps),
                    bitlen == parts_width(ps),
                    consumed == parts_width(ps.take(j as int)),
                    dynamics@ == d0,
                    statics@ == s0 + split_statics(ps, scaled).take(j as int),
                decreases parts.len() - j,
            {
                proof {
                    lemma_parts_width_prefix(ps, j + 1);
                    lemma_parts_width_prefix(ps, 1);
                    if j > 0 {
                        lemma_parts_width_prefix(ps, j as int);
                        lemma_parts_width_monotone(ps, 1, j as int);
                    }
                }
                let (offset, len) = parts[j];
                consumed = consumed + len;
                let part = (scaled >> ((bitlen - consumed) as u32)) & bitmask(len);
                statics.push((offset, part));
                assert(split_statics(ps, scaled).take(j + 1) =~= split_statics(ps, scaled).take(
                    j as int,
                ).push((offset, part)));
                j = j + 1;
            }
            assert(split_statics(ps, scaled).take(parts.len() as int) =~= split_statics(ps, scaled));
            assert(dynamics@ =~= d0 + Seq::<(u8, DynamicField)>::empty());
        },
        Ok(None) => {
            let mut consumed: u8 = 0;
            let mut j: usize = 0;
            while j < parts.len()
                invariant
                    j <= parts.len(),
                    ps == parts@,
                    parts_ok(ps),
                    bitlen == parts_width(ps),
                    consumed == parts_width(ps.take(j as int)),
                    statics@ == s0,
                    dynamics@ == d0 + split_dynamics(ps, arg, min, mask, scale).take(j as int),
                decreases parts.len() - j,
            {
                proof {
                    lemma_parts_width_prefix(ps, j + 1);
                }
                let (offset, len) = parts[j];
                consumed = consumed + len;
                let field = DynamicField::Signed {
                    arg,
                    min,
                    range: mask,
                    scale,
                    shift: bitlen - consumed,
                    mask: bitmask(len),
                };
                dynamics.push((offset, field));
                assert(split_dynamics(ps, arg, min, mask, scale).take(j + 1) =~= split_dynamics(
                    ps,
                    arg,
                    min,
                    mask,
                    scale,
                ).take(j as int).push((offset, field)));
                j = j + 1;
            }
            assert(split_dynamics(ps, arg, min, mask, scale).take(parts.len() as int)
                =~= split_dynamics(ps, arg, min, mask, scale));
            assert(statics@ =~= s0 + Seq::<(u8, u32)>::empty());
        },
    }
    Ok(())
}

/// The width of a longer prefix of the parts is at least that of a shorter one.
proof fn lemma_parts_width_monotone(parts: Seq<(u8, u8)>, a: int, b: int)
    requires
        0 <= a <= b <= parts.len(),
    ensures
        parts_width(parts.take(a)) <= parts_width(parts.take(b)),
    decreases b - a,
{
    if a < b {
        lemma_parts_width_prefix(parts, b);
        lemma_parts_width_monotone(parts, a, b - 1);
    }
}


// ---------------------------------------------------------------------------------------
// The instruction

/// Commands that encode nothing themselves: `Repeat` and `Next` move the argument cursor,
/// bit ranges are taken by the wide immediate before them.
pub open spec fn encodes_nothing(c: Command) -> bool {
    c is Repeat || c is Next || c is BitRange || c is RBitRange
}

/// The argument that command `k` works on: the cursor starts at the first argument, a
/// `Repeat` moves it back by one, a bit range leaves it, every other command moves it on by
/// one.
pub open spec fn cursor_at(cs: Seq<Command>, k: int) -> int
    decreases k,
{
    if k <= 0 {
        0
    } else if cs[k - 1] is Repeat {
        cursor_at(cs, k - 1) - 1
    } else if cs[k - 1] is BitRange || cs[k - 1] is RBitRange {
        cursor_at(cs, k - 1)
    } else {
        cursor_at(cs, k - 1) + 1
    }
}

/// No fields and no relocations.
pub open spec fn nothing() -> Encoded {
    (seq![], seq![], seq![])
}

/// What the first `k` commands make of the arguments, or the first error.
pub open spec fn run(cs: Seq<Command>, args: Seq<FlatArg>, k: int) -> Result<Encoded, CompileError>
    decreases k,
{
    if k <= 0 {
        Ok(nothing())
    } else {
        match run(cs, args, k - 1) {
            Err(e) => Err(e),
            Ok(p) => if encodes_nothing(cs[k - 1]) {
                Ok(p)
            } else {
                match step(cs, k - 1, args, cursor_at(cs, k - 1)) {
                    Err(e) => Err(e),
                    Ok(q) => Ok((p.0 + q.0, p.1 + q.1, p.2 + q.2)),
                }
            },
        }
    }
}

/// The words of a template.
pub open spec fn template_words(t: Template) -> Seq<u32> {
    match t {
        Template::Single(w) => seq![w],
        Template::Double(a, b) => seq![a, b],
        Template::Many(v) => v@,
    }
}

/// Word `i` with the fields known now that fall into it or-ed in: a field at bit offset `o`
/// belongs to word `o / 32` and is shifted left by `o % 32`.
pub open spec fn with_statics(word: u32, i: int, statics: Seq<(u8, u32)>) -> u32
    decreases statics.len(),
{
    if statics.len() == 0 {
        word
    } else {
        let w = with_statics(word, i, statics.drop_last());
        let s = statics.last();
        if (s.0 >> 5u8) as int == i {
            w | (s.1 << ((s.0 & 0x1Fu8) as u32))
        } else {
            w
        }
    }
}

/// The run-time fields that fall into word `i`, with their offsets within it, in order.
pub open spec fn fields_in_word(i: int, ds: Seq<(u8, DynamicField)>) -> Seq<(u8, DynamicField)>
    decreases ds.len(),
{
    if ds.len() == 0 {
        seq![]
    } else {
        let rest = fields_in_word(i, ds.drop_last());
        let d = ds.last();
        if (d.0 >> 5u8) as int == i {
            rest.push((d.0 & 0x1Fu8, d.1))
        } else {
            rest
        }
    }
}

/// The output for word `i` of the template: a constant when no run-time field falls into
/// it, else the word with its run-time fields.
pub open spec fn word_stmt(words: Seq<u32>, i: int, p: Encoded) -> StmtView {
    let w = with_statics(words[i], i, p.0);
    let fs = fields_in_word(i, p.1);
    if fs.len() == 0 {
        StmtView::Const(w)
    } else {
        StmtView::Dynamic(w, fs)
    }
}

/// The output of an encoded instruction: its words, then its relocations.
pub open spec fn assemble(t: Template, p: Encoded) -> Seq<StmtView> {
    let words = template_words(t);
    Seq::new(words.len(), |i: int| word_stmt(words, i, p)) + p.2
}

/// The output of a form and its arguments, or the first error.
pub open spec fn compile_spec(data: Opdata, args: Seq<FlatArg>) -> Result<Seq<StmtView>, CompileError> {
    match run(data.commands@, args, data.commands@.len() as int) {
        Err(e) => Err(e),
        Ok(p) => Ok(assemble(data.template, p)),
    }
}

/// Whether command `k` can run: a `Repeat` needs an argument before the cursor, an
/// encoding command needs the cursor on an argument that it can take.
pub open spec fn step_ok(cs: Seq<Command>, args: Seq<FlatArg>, k: int) -> bool {
    let c = cursor_at(cs, k);
    if cs[k] is Repeat {
        c >= 1
    } else if encodes_nothing(cs[k]) {
        true
    } else {
        0 <= c < args.len() && compatible(cs, k, args, c)
    }
}

/// Whether the commands of a form fit its arguments: each command can run on the argument
/// it takes, together they use up exactly the arguments, and the template has at most
/// eight words. These are the conditions of a well-made instruction table: the encoder
/// holds the words of an instruction in eight slots, and a form whose commands do not
/// match its arguments is a fault of the table, on which encoding stops ("Invalid
/// argument processor", "Not enough command processors"), not a fault of the source.
pub open spec fn encodable(data: Opdata, args: Seq<FlatArg>) -> bool {
    let cs = data.commands@;
    &&& cs.len() < usize::MAX
    &&& template_words(data.template).len() <= 8
    &&& forall|k: int| 0 <= k < cs.len() ==> #[trigger] step_ok(cs, args, k)
    &&& cursor_at(cs, cs.len() as int) == args.len()
}

/// Once the run has failed it stays failed with the same error.
proof fn lemma_run_error_stays(cs: Seq<Command>, args: Seq<FlatArg>, k: int, n: int)
    requires
        0 <= k <= n,
        run(cs, args, k) is Err,
    ensures
        run(cs, args, n) == run(cs, args, k),
    decreases n - k,
{
    if k < n {
        lemma_run_error_stays(cs, args, k, n - 1);
    }
}

/// The first command that fails decides the outcome: when the commands before command `k`
/// all succeed and command `k` fails on its argument, encoding fails with that error.
pub proof fn lemma_first_failure_decides(data: Opdata, args: Seq<FlatArg>, k: int)
    requires
        0 <= k < data.commands@.len(),
        run(data.commands@, args, k) is Ok,
        !encodes_nothing(data.commands@[k]),
        step(data.commands@, k, args, cursor_at(data.commands@, k)) is Err,
    ensures
        compile_spec(data, args) == Err::<Seq<StmtView>, CompileError>(
            step(data.commands@, k, args, cursor_at(data.commands@, k))->Err_0,
        ),
{
    let cs = data.commands@;
    lemma_run_error_stays(cs, args, k + 1, cs.len() as int);
}

/// A register field that refuses r0 stops the encoding when its argument is r0 and the
/// commands before it succeed: the error names that argument.
pub proof fn lemma_r0_refused(data: Opdata, args: Seq<FlatArg>, k: int)
    requires
        0 <= k < data.commands@.len(),
        run(data.commands@, args, k) is Ok,
        data.commands@[k] is Rno0,
        0 <= cursor_at(data.commands@, k) < args.len(),
        args[cursor_at(data.commands@, k)] == (FlatArg::Register {
            reg: Register::Static(RegId::R0),
        }),
    ensures
        compile_spec(data, args) == Err::<Seq<StmtView>, CompileError>(
            CompileError::RegisterIsR0 { arg: cursor_at(data.commands@, k) as usize },
        ),
{
    lemma_first_failure_decides(data, args, k);
}

/// The smallest and the largest value that a plain immediate field takes: `0..=2^bits - 1`
/// for an unsigned field, `-2^(bits - 1)..=2^(bits - 1) - 1` for a signed one.
pub open spec fn field_bounds(cmd: Command) -> (int, int) {
    match cmd {
        Command::UImm(_, bits) => (0, bitmask_spec(bits) as int),
        Command::SImm(_, bits) => (half_spec(bits) as int, half_spec(bits) + bitmask_spec(bits)),
        _ => (0, 0),
    }
}

/// An immediate known when assembling that lies outside its plain field stops the encoding
/// when the commands before it succeed: below the field with `TooLow`, above it with
/// `TooHigh`, naming that argument.
pub proof fn lemma_immediate_out_of_field(data: Opdata, args: Seq<FlatArg>, k: int, v: i64)
    requires
        0 <= k < data.commands@.len(),
        run(data.commands@, args, k) is Ok,
        data.commands@[k] is UImm || data.commands@[k] is SImm,
        0 <= cursor_at(data.commands@, k) < args.len(),
        args[cursor_at(data.commands@, k)] matches FlatArg::Immediate { value } && value.number
            == Some(v),
    ensures
        v < field_bounds(data.commands@[k]).0 ==> compile_spec(data, args) == Err::<
            Seq<StmtView>,
            CompileError,
        >(CompileError::TooLow { arg: cursor_at(data.commands@, k) as usize }),
        v > field_bounds(data.commands@[k]).1 ==> compile_spec(data, args) == Err::<
            Seq<StmtView>,
            CompileError,
        >(CompileError::TooHigh { arg: cursor_at(data.commands@, k) as usize }),
{
    vstd::arithmetic::power2::lemma2_to64();
    if v < field_bounds(data.commands@[k]).0 || v > field_bounds(data.commands@[k]).1 {
        lemma_first_failure_decides(data, args, k);
    }
}

/// The cursor stays within `0..=k` after `k` commands, when every `Repeat` so far had an
/// argument before the cursor.
proof fn lemma_cursor_bounds(cs: Seq<Command>, args: Seq<FlatArg>, k: int)
    requires
        0 <= k <= cs.len(),
        forall|j: int| 0 <= j < k ==> #[trigger] step_ok(cs, args, j),
    ensures
        0 <= cursor_at(cs, k) <= k,
    decreases k,
{
    if k > 0 {
        lemma_cursor_bounds(cs, args, k - 1);
        assert(step_ok(cs, args, k - 1));
    }
}

/// Encodes a matched instruction. The commands of the form run over the arguments in order:
/// registers and immediates known now are checked and placed into the template's words;
/// the fields that are only known at run time are listed for each word; jump targets
/// become relocations after the words. The first argument that does not fit stops the
/// encoding with its error.
pub fn compile_instruction(data: &MatchData) -> (r: Result<Vec<Stmt>, CompileError>)
    requires
        encodable(*data.data, data.args@),
    ensures
        match compile_spec(*data.data, data.args@) {
            Ok(s) => r matches Ok(v) && stmt_views(v@) == s,
            Err(e) => r matches Err(x) && x == e,
        },
{
    let form = data.data;
    let ghost cs = form.commands@;
    let ghost args = data.args@;
    let mut statics: Vec<(u8, u32)> = Vec::new();
    let mut dynamics: Vec<(u8, DynamicField)> = Vec::new();
    let mut relocations: Vec<Stmt> = Vec::new();
    let mut cursor: usize = 0;
    let mut i: usize = 0;
    assert(stmt_views(relocations@) =~= Seq::<StmtView>::empty());
    while i < form.commands.len()
        invariant
            i <= form.commands.len(),
            form == data.data,
            cs == form.commands@,
            args == data.args@,
            encodable(*form, args),
            cursor == cursor_at(cs, i as int),
            run(cs, args, i as int) == Ok::<Encoded, CompileError>(
                (statics@, dynamics@, stmt_views(relocations@)),
            ),
        decreases form.commands.len() - i,
    {
        proof {
            lemma_cursor_bounds(cs, args, i as int);
            assert(step_ok(cs, args, i as int));
        }
        let command = form.commands[i];
        match command {
            Command::Repeat => {
                cursor = cursor - 1;
            },
            Command::Next => {
                cursor = cursor + 1;
            },
            Command::BitRange(_, _, _) => {},
            Command::RBitRange(_, _, _) => {},
            _ => {
                match encode_arg(
                    &form.commands,
                    i,
                    &data.args,
                    cursor,
                    &mut statics,
                    &mut dynamics,
                    &mut relocations,
                ) {
                    Err(e) => {
                        proof {
                            assert(run(cs, args, i + 1) == Err::<Encoded, CompileError>(e));
                            lemma_run_error_stays(cs, args, i + 1, cs.len() as int);
                        }
                        return Err(e);
                    },
                    Ok(()) => {},
                }
                cursor = cursor + 1;
            },
        }
        i = i + 1;
    }
    let ghost p: Encoded = (statics@, dynamics@, stmt_views(relocations@));
    let ghost tw = template_words(form.template);
    let mut words: Vec<u32> = Vec::new();
    match &form.template {
        Template::Single(w) => {
            words.push(*w);
        },
        Template::Double(a, b) => {
            words.push(*a);
            words.push(*b);
        },
        Template::Many(v) => {
            let mut j: usize = 0;
            while j < v.len()
                invariant
                    j <= v.len(),
                    words@ == v@.take(j as int),
                decreases v.len() - j,
            {
                words.push(v[j]);
                assert(v@.take(j + 1) =~= v@.take(j as int).push(v@[j as int]));
                j = j + 1;
            }
            assert(v@.take(v.len() as int) =~= v@);
        },
    }
    assert(words@ =~= tw);
    let mut j: usize = 0;
    while j < statics.len()
        invariant
            j <= statics.len(),
            words@.len() == tw.len(),
            forall|k: int|
                0 <= k < tw.len() ==> #[trigger] words@[k] == with_statics(
                    tw[k],
                    k,
                    statics@.take(j as int),
                ),
        decreases statics.len() - j,
    {
        let (offset, value) = statics[j];
        let index = (offset >> 5u8) as usize;
        assert((offset & 0x1Fu8) < 32u8) by (bit_vector);
        if index < words.len() {
            let w = words[index] | (value << ((offset & 0x1Fu8) as u32));
            words.set(index, w);
        }
        assert forall|k: int| 0 <= k < tw.len() implies #[trigger] words@[k] == with_statics(
            tw[k],
            k,
            statics@.take(j + 1),
        ) by {
            assert(statics@.take(j + 1).drop_last() =~= statics@.take(j as int));
            assert(statics@.take(j + 1).last() == statics@[j as int]);
        }
        j = j + 1;
    }
    assert(statics@.take(statics.len() as int) =~= statics@);
    let mut out: Vec<Stmt> = Vec::new();
    let mut i: usize = 0;
    while i < words.len()
        invariant
            i <= words.len(),
            words@.len() == tw.len(),
            p.0 == statics@,
            p.1 == dynamics@,
            forall|k: int| 0 <= k < tw.len() ==> #[trigger] words@[k] == with_statics(tw[k], k, statics@),
            stmt_views(out@) == Seq::new(tw.len(), |k: int| word_stmt(tw, k, p)).take(i as int),
        decreases words.len() - i,
    {
        let mut fields: Vec<(u8, DynamicField)> = Vec::new();
        let mut j: usize = 0;
        while j < dynamics.len()
            invariant
                j <= dynamics.len(),
                fields@ == fields_in_word(i as int, dynamics@.take(j as int)),
            decreases dynamics.len() - j,
        {
            let (offset, field) = dynamics[j];
            assert(dynamics@.take(j + 1).drop_last() =~= dynamics@.take(j as int));
            if (offset >> 5u8) as usize == i {
                fields.push((offset & 0x1Fu8, field));
            }
            j = j + 1;
        }
        assert(dynamics@.take(dynamics.len() as int) =~= dynamics@);
        let ghost before = stmt_views(out@);
        if fields.len() == 0 {
            out.push(Stmt::Const(words[i]));
        } else {
            out.push(Stmt::Dynamic { base: words[i], fields });
        }
        assert(stmt_views(out@) =~= before.push(word_stmt(tw, i as int, p)));
        assert(Seq::new(tw.len(), |k: int| word_stmt(tw, k, p)).take(i + 1) =~= Seq::new(
            tw.len(),
            |k: int| word_stmt(tw, k, p),
        ).take(i as int).push(word_stmt(tw, i as int, p)));
        i = i + 1;
    }
    assert(Seq::new(tw.len(), |k: int| word_stmt(tw, k, p)).take(tw.len() as int) =~= Seq::new(
        tw.len(),
        |k: int| word_stmt(tw, k, p),
    ));
    let ghost words_part = stmt_views(out@);
    let mut relocations = relocations;
    let ghost rs = relocations@;
    let ghost before = out@;
    out.append(&mut relocations);
    assert(out@ =~= before + rs);
    assert(stmt_views(out@) =~= words_part + p.2);
    Ok(out)
}

/// Whether the match of the instruction, if it has one, can be encoded.
pub open spec fn match_encodable(table: OpTable, ins: ParsedInstruction) -> bool {
    forall|form: Opdata, flat: Seq<FlatArg>| #[trigger]
        is_match(table, ins, form, flat) ==> encodable(form, flat)
}

/// Assembles a parsed instruction: matches it against the forms of its mnemonic and encodes
/// the match. A matching error is returned as it is; an encoding error is reported at its
/// argument, with its message.
pub fn compile_instruction_inner(
    table: &OpTable,
    target: LoongArchTarget,
    instruction: ParsedInstruction,
) -> (r: Result<Vec<Stmt>, MatchError>)
    requires
        table.wf(),
        table_describable(*table),
        match_encodable(*table, instruction),
    ensures
        !match_found(*table, instruction) ==> (match r {
            Ok(_) => false,
            Err(e) => is_match_error(*table, instruction, e),
        }),
        match_found(*table, instruction) ==> exists|form: Opdata, flat: Seq<FlatArg>|
            #[trigger] is_match(*table, instruction, form, flat) && match compile_spec(form, flat) {
                Ok(s) => r matches Ok(v) && stmt_views(v@) == s,
                Err(e) => match r {
                    Err(MatchError::AtArgument { arg, message }) => arg == error_arg(e) && message@
                        == error_text(e),
                    _ => false,
                },
            },
{
    let ghost ins = instruction;
    let matched = match match_instruction(table, target, instruction) {
        Ok(m) => m,
        Err(e) => return Err(e),
    };
    assert(is_match(*table, ins, *matched.data, matched.args@));
    match compile_instruction(&matched) {
        Ok(stmts) => Ok(stmts),
        Err(e) => {
            let message = e.message();
            let arg = e.arg();
            Err(MatchError::AtArgument { arg, message })
        },
    }
}

/// Emits the data of a directive whose value is a label: `size` zero bytes, which the
/// relocation that follows them fills in at run time.
pub fn handle_static_reloc_inner(stmts: &mut Vec<Stmt>, jump: Jump, size: u8)
    ensures
        stmt_views(final(stmts)@) == stmt_views(old(stmts)@) + seq![
            StmtView::Zeros(size),
            StmtView::DataRelocation(jump, size),
        ],
{
    let ghost before = stmt_views(stmts@);
    stmts.push(Stmt::Zeros { size });
    stmts.push(Stmt::DataRelocation { jump, size });
    assert(stmt_views(stmts@) =~= before + seq![
        StmtView::Zeros(size),
        StmtView::DataRelocation(jump, size),
    ]);
}

} // verus!
