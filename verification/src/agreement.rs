//! How the encodings made when assembling agree with the relocations that the run-time
//! library patches: the identifier of a relocation names the same relocation at run time,
//! and an offset known when assembling is encoded as the relocation would patch it.

use vstd::prelude::*;
use vstd::bits::{lemma_u32_shl_is_mul, lemma_u32_shr_is_div};
use crate::ast::{FlatArg, ImmExpr};
use crate::commands::{step, offset_step, Encoded, offset_parts};
use crate::compiler::{with_statics, part_shift, parts_width, split_statics, CompileError};
use crate::data::{Command, Relocation};
use crate::loongarch::{
    LoongArchRelocation, lemma_quarter, lemma_field_b16, lemma_field_b21, lemma_field_b26,
    lemma_field_abs_hi20, lemma_field_si14, lemma_field_si12,
};
use crate::relocation::RelocationSize;

verus! {

/// The run-time relocation of the same name as a relocation of an instruction form; a
/// literal is plain data of its size.
pub open spec fn runtime_relocation(rel: Relocation) -> LoongArchRelocation {
    match rel {
        Relocation::B16 => LoongArchRelocation::B16,
        Relocation::B21 => LoongArchRelocation::B21,
        Relocation::B26 => LoongArchRelocation::B26,
        Relocation::ABS_HI20 => LoongArchRelocation::ABS_HI20,
        Relocation::SI14 => LoongArchRelocation::SI14,
        Relocation::SI12 => LoongArchRelocation::SI12,
        Relocation::PCALA_LO12 => LoongArchRelocation::PCALA_LO12,
        Relocation::PCALA_HI20 => LoongArchRelocation::PCALA_HI20,
        Relocation::PCADD_SHIFT2 => LoongArchRelocation::PCADD_SHIFT2,
        Relocation::PCADD_SHIFT12 => LoongArchRelocation::PCADD_SHIFT12,
        Relocation::PCADD_SHIFT18 => LoongArchRelocation::PCADD_SHIFT18,
        Relocation::SPLIT_PCALA => LoongArchRelocation::SPLIT_PCALA,
        Relocation::SPLIT_CALL30 => LoongArchRelocation::SPLIT_CALL30,
        Relocation::SPLIT_CALL36 => LoongArchRelocation::SPLIT_CALL36,
        Relocation::LITERAL8 => LoongArchRelocation::Plain(RelocationSize::Byte),
        Relocation::LITERAL16 => LoongArchRelocation::Plain(RelocationSize::Word),
        Relocation::LITERAL32 => LoongArchRelocation::Plain(RelocationSize::DWord),
        Relocation::LITERAL64 => LoongArchRelocation::Plain(RelocationSize::QWord),
    }
}

/// The identifier that the assembler gives a relocation of an instruction names, at run
/// time, the relocation of the same name, which covers as many bytes.
pub proof fn lemma_relocation_ids_agree(rel: Relocation)
    ensures
        rel.spec_size() == runtime_relocation(rel).spec_size(),
        !(rel is LITERAL8 || rel is LITERAL16 || rel is LITERAL32 || rel is LITERAL64) ==> {
            &&& LoongArchRelocation::is_encoding(rel.spec_id())
            &&& LoongArchRelocation::from_encoding_spec(rel.spec_id()) == runtime_relocation(rel)
        },
{
}

/// Offsets 0, 5 and 10 lie in the first word.
proof fn lemma_first_word_offsets()
    ensures
        10u8 >> 5u8 == 0u8,
        10u8 & 0x1Fu8 == 10u8,
        0u8 >> 5u8 == 0u8,
        0u8 & 0x1Fu8 == 0u8,
        5u8 >> 5u8 == 0u8,
        5u8 & 0x1Fu8 == 5u8,
{
    assert(10u8 >> 5u8 == 0u8 && 10u8 & 0x1Fu8 == 10u8 && 0u8 >> 5u8 == 0u8 && 0u8 & 0x1Fu8
        == 0u8 && 5u8 >> 5u8 == 0u8 && 5u8 & 0x1Fu8 == 5u8) by (bit_vector);
}

/// Or-ing a low field at bit 0 and a field at bit 10 into a word, one after the other.
proof fn lemma_or_two_fields(w: u32, a: u32, b: u32)
    ensures
        (w | (a << 0u32)) | (b << 10u32) == w | ((b << 10u32) | a),
{
    assert((w | (a << 0u32)) | (b << 10u32) == w | ((b << 10u32) | a)) by (bit_vector);
}

/// The relocations whose field a static offset fills exactly as the run-time relocation
/// patches it.
pub open spec fn agrees_statically(rel: Relocation) -> bool {
    rel is B16 || rel is B21 || rel is B26 || rel is ABS_HI20 || rel is SI14 || rel is SI12
        || rel is PCALA_LO12 || rel is PCALA_HI20
}

/// What an offset command makes of the offset `v` known when assembling.
pub open spec fn static_offset(rel: Relocation, v: i64, is_ident: bool) -> Result<
    Encoded,
    CompileError,
> {
    step(
        seq![Command::Offset(rel)],
        0,
        seq![FlatArg::Immediate { value: ImmExpr { number: Some(v), is_ident } }],
        0,
    )
}

/// What an offset command makes of an offset known now is what `offset_step` says.
proof fn lemma_static_offset_unfold(rel: Relocation, v: i64, is_ident: bool)
    ensures
        static_offset(rel, v, is_ident) == match offset_step(
            rel,
            0,
            ImmExpr { number: Some(v), is_ident },
        ) {
            Ok(p) => Ok::<Encoded, CompileError>((p.0, p.1, seq![])),
            Err(e) => Err(e),
        },
{
    let cmd = Command::Offset(rel);
    assert(seq![cmd][0] == cmd);
    let value = ImmExpr { number: Some(v), is_ident };
    assert(seq![FlatArg::Immediate { value }][0] == FlatArg::Immediate { value });
}

/// The high part of a PC-relative offset agrees with `PCALA_HI20`.
proof fn lemma_pc_high_agrees(v: i64, ai: usize, is_ident: bool, w: u32)
    ensures
        ({
            let s = offset_step(Relocation::PCALA_HI20, ai, ImmExpr { number: Some(v), is_ident });
            let enc = LoongArchRelocation::PCALA_HI20.encode_spec(v as int);
            &&& (s is Ok) == (enc is Some)
            &&& (enc is Some ==> with_statics(w, 0, s.unwrap().0) == w | enc.unwrap())
        }),
{
    vstd::arithmetic::power2::lemma2_to64();
    lemma_first_word_offsets();
    let hi = (v as int + 0x800) / 0x1000;
    if -0x80000 <= hi <= 0x7FFFF {
        let f = (hi % 0x100000) as u32;
        assert(hi / 1 == hi);
        lemma_u32_shl_is_mul(f, 5);
        reveal_with_fuel(with_statics, 2);
        assert(seq![(5u8, f)].drop_last() =~= Seq::<(u8, u32)>::empty());
        assert(seq![(5u8, f)].last() == (5u8, f));
        assert(with_statics(w, 0, seq![(5u8, f)]) == w | (f << 5u32));
    }
}

/// The value whose bits a one-range offset stores: the offset in 4-byte units, or the
/// offset itself, truncated to 32 bits.
pub open spec fn stored(rel: Relocation, v: i64) -> u32 {
    if rel is ABS_HI20 || rel is SI12 || rel is PCALA_LO12 {
        #[verifier::truncate] ((v as int) as u32)
    } else {
        #[verifier::truncate] ((v as int / 4) as u32)
    }
}

/// A one-range offset agrees with its relocation.
proof fn lemma_one_range_agrees(rel: Relocation, v: i64, ai: usize, is_ident: bool, w: u32)
    requires
        rel is B16 || rel is SI14 || rel is ABS_HI20 || rel is SI12 || rel is PCALA_LO12,
    ensures
        ({
            let s = offset_step(rel, ai, ImmExpr { number: Some(v), is_ident });
            let enc = runtime_relocation(rel).encode_spec(v as int);
            &&& (s is Ok) == (enc is Some)
            &&& (enc is Some ==> with_statics(w, 0, s.unwrap().0) == w | enc.unwrap())
        }),
{
    vstd::arithmetic::power2::lemma2_to64();
    lemma_first_word_offsets();
    reveal_with_fuel(parts_width, 2);
    let parts = offset_parts(rel);
    lemma_quarter(v);
    let st = stored(rel, v);
    lemma_u32_shr_is_div(st, 0);
    assert(st >> 0u32 == st);
    assert(v as int / 1 == v);
    assert(part_shift(parts, 0) == 0) by {
        assert(parts.take(1) =~= parts);
    }
    let stat = split_statics(parts, st);
    assert(stat.len() == 1);
    assert(stat.drop_last() =~= Seq::<(u8, u32)>::empty());
    reveal_with_fuel(with_statics, 2);
    if rel is B16 {
        lemma_field_b16(v);
    } else if rel is SI14 {
        lemma_field_si14(v);
    } else if rel is ABS_HI20 {
        lemma_field_abs_hi20(v);
    } else {
        lemma_field_si12(v);
    }
}

/// A two-range branch or jump offset agrees with its relocation.
proof fn lemma_two_ranges_agree(rel: Relocation, v: i64, ai: usize, is_ident: bool, w: u32)
    requires
        rel is B21 || rel is B26,
    ensures
        ({
            let s = offset_step(rel, ai, ImmExpr { number: Some(v), is_ident });
            let enc = runtime_relocation(rel).encode_spec(v as int);
            &&& (s is Ok) == (enc is Some)
            &&& (enc is Some ==> with_statics(w, 0, s.unwrap().0) == w | enc.unwrap())
        }),
{
    vstd::arithmetic::power2::lemma2_to64();
    lemma_first_word_offsets();
    reveal_with_fuel(parts_width, 3);
    reveal_with_fuel(with_statics, 3);
    let parts = offset_parts(rel);
    lemma_quarter(v);
    let st = stored(rel, v);
    lemma_u32_shr_is_div(st, 0);
    lemma_u32_shr_is_div(st, 16);
    assert(part_shift(parts, 0) == 16) by {
        assert(parts.take(1) =~= seq![parts[0]]);
    }
    assert(part_shift(parts, 1) == 0) by {
        assert(parts.take(2) =~= parts);
    }
    let stat = split_statics(parts, st);
    let lo = st & 0xFFFFu32;
    if rel is B21 {
        lemma_field_b21(v);
        let a = (st >> 16u32) & 0x1Fu32;
        lemma_or_two_fields(w, a, lo);
        assert(stat =~= seq![(0u8, a), (10u8, lo)]);
    } else {
        lemma_field_b26(v);
        let a = (st >> 16u32) & 0x3FFu32;
        lemma_or_two_fields(w, a, lo);
        assert(stat =~= seq![(0u8, a), (10u8, lo)]);
    }
    assert(stat.drop_last() =~= seq![stat[0]]);
    assert(stat.drop_last().drop_last() =~= Seq::<(u8, u32)>::empty());
}

/// An offset known when assembling is encoded as the run-time relocation of the same name
/// patches it: for branches and jumps (`B16`, `B21`, `B26`), the absolute and 12- and
/// 14-bit fields (`ABS_HI20`, `SI12`, `PCALA_LO12`, `SI14`) and the high part of a
/// PC-relative offset (`PCALA_HI20`), the assembler refuses the offset exactly when the
/// relocation does, and otherwise its fields, or-ed into an instruction word, give what the
/// relocation or-s in.
pub proof fn lemma_static_offsets_agree(rel: Relocation, v: i64, is_ident: bool, w: u32)
    requires
        agrees_statically(rel),
    ensures
        ({
            let s = static_offset(rel, v, is_ident);
            let enc = runtime_relocation(rel).encode_spec(v as int);
            &&& (s is Ok) == (enc is Some)
            &&& (enc is Some ==> with_statics(w, 0, s.unwrap().0) == w | enc.unwrap())
        }),
{
    lemma_static_offset_unfold(rel, v, is_ident);
    if rel is PCALA_HI20 {
        lemma_pc_high_agrees(v, 0, is_ident, w);
    } else if rel is B21 || rel is B26 {
        lemma_two_ranges_agree(rel, v, 0, is_ident, w);
    } else {
        lemma_one_range_agrees(rel, v, 0, is_ident, w);
    }
}

} // verus!
