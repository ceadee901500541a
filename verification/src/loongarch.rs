//! The LoongArch relocations: which bits of one or two instruction words hold a value,
//! how the value is checked, scaled and split over them, and how it is read back.

use vstd::prelude::*;
use vstd::arithmetic::power2::{pow2, lemma2_to64, lemma2_to64_rest};
use crate::text::{push_str, push_decimal, push_signed_decimal, signed_decimal, decimal};
use crate::bytes::{word_at, with_word_at, lemma_with_word_at, read_u32_at, write_u32_at};
use crate::relocation::{
    fits_signed, sign_extend, fits_signed_bitfield, sign_extended, ImpossibleRelocation,
    RelocationKind, RelocationSize,
};

verus! {

/// A relocation of the LoongArch target.
#[derive(Debug, Clone, Copy, PartialEq, Eq, Structural)]
#[allow(non_camel_case_types)]
pub enum LoongArchRelocation {
    /// Branches with a 16-bit offset (`beq`, `bne`, `jirl`): the offset in 4-byte units at
    /// bits [25:10].
    B16,
    /// Branches with a 21-bit offset (`beqz`, `bnez`, `bceqz`, `bcnez`): the low 16 bits of
    /// the offset in 4-byte units at [25:10], the high 5 at [4:0].
    B21,
    /// Jumps with a 26-bit offset (`b`, `bl`): the low 16 bits of the offset in 4-byte
    /// units at [25:10], the high 10 at [9:0].
    B26,
    /// A raw 20-bit field at [24:5], stored without a shift (`lu12i.w`, `lu32i.d`).
    ABS_HI20,
    /// A 14-bit offset in 4-byte units at [23:10] (`ll`, `sc`, `ldptr`, `stptr`).
    SI14,
    /// A 12-bit signed offset at [21:10] (loads and stores with register and offset).
    SI12,
    /// The low 12 bits of a PC-relative offset at [21:10].
    PCALA_LO12,
    /// The high 20 bits of a PC-relative offset at [24:5] (`pcalau12i`), rounded by
    /// `0x800` for the sign of the paired low 12 bits.
    PCALA_HI20,
    /// `pcaddi`: the offset in 4-byte units at [24:5].
    PCADD_SHIFT2,
    /// `pcaddu12i`: the offset in 4096-byte units at [24:5], rounded by `0x800`.
    PCADD_SHIFT12,
    /// `pcaddu18i`: the offset in 2^18-byte units at [24:5], rounded by `0x20000`.
    PCADD_SHIFT18,
    /// Eight bytes: `pcalau12i` and `addi.d`; the rounded high 20 bits go into the first
    /// word, the low 12 bits into the second.
    SPLIT_PCALA,
    /// Eight bytes: `pcaddu12i` and `jirl`; bits [31:12] into the first word, bits [11:2]
    /// into the second.
    SPLIT_CALL30,
    /// Eight bytes: `pcaddu18i` and `jirl`; bits [37:18] of the offset rounded by `0x20000`
    /// into the first word, bits [17:2] into the second.
    SPLIT_CALL36,
    /// Plain data of the given size.
    Plain(RelocationSize),
}

/// `word` with the bits outside `keep` replaced by `field`.
pub open spec fn patch(word: u32, keep: u32, field: int) -> u32 {
    (word & keep) | (field as u32)
}

impl LoongArchRelocation {
    /// The relocations that patch two instruction words.
    pub open spec fn is_split(self) -> bool {
        self is SPLIT_PCALA || self is SPLIT_CALL30 || self is SPLIT_CALL36
    }

    /// The bits of the instruction word that a single-word relocation leaves untouched.
    pub open spec fn spec_op_mask(self) -> u32 {
        match self {
            LoongArchRelocation::B16 => 0xFC00_03FF,
            LoongArchRelocation::B21 => 0xFC00_03E0,
            LoongArchRelocation::B26 => 0xFC00_0000,
            LoongArchRelocation::ABS_HI20 => 0xFE00_001F,
            LoongArchRelocation::PCADD_SHIFT2 => 0xFE00_001F,
            LoongArchRelocation::PCADD_SHIFT12 => 0xFE00_001F,
            LoongArchRelocation::PCADD_SHIFT18 => 0xFE00_001F,
            LoongArchRelocation::SI14 => 0xFF00_03FF,
            LoongArchRelocation::SI12 => 0xFFC0_03FF,
            LoongArchRelocation::PCALA_LO12 => 0xFFC0_03FF,
            LoongArchRelocation::PCALA_HI20 => 0xFE00_001F,
            _ => 0,
        }
    }

    /// The fields that a single-word relocation writes for `v`, or nothing when `v` is out
    /// of range or misaligned (or the relocation is not a single-word one).
    pub open spec fn encode_spec(self, v: int) -> Option<u32> {
        match self {
            LoongArchRelocation::B16 => if v % 4 == 0 && fits_signed(v / 4, 16) {
                Some(((v / 4) % 0x10000 * 0x400) as u32)
            } else {
                None
            },
            LoongArchRelocation::B21 => if v % 4 == 0 && fits_signed(v / 4, 21) {
                Some(((v / 4) % 0x10000 * 0x400 + (v / 0x40000) % 0x20) as u32)
            } else {
                None
            },
            LoongArchRelocation::B26 => if v % 4 == 0 && fits_signed(v / 4, 26) {
                Some(((v / 4) % 0x10000 * 0x400 + (v / 0x40000) % 0x400) as u32)
            } else {
                None
            },
            LoongArchRelocation::ABS_HI20 => if fits_signed(v, 20) {
                Some((v % 0x100000 * 0x20) as u32)
            } else {
                None
            },
            LoongArchRelocation::PCADD_SHIFT2 => if fits_signed(v / 4, 20) {
                Some(((v / 4) % 0x100000 * 0x20) as u32)
            } else {
                None
            },
            LoongArchRelocation::PCADD_SHIFT12 | LoongArchRelocation::PCALA_HI20 => if fits_signed(
                (v + 0x800) / 0x1000,
                20,
            ) {
                Some(((v + 0x800) / 0x1000 % 0x100000 * 0x20) as u32)
            } else {
                None
            },
            LoongArchRelocation::PCADD_SHIFT18 => if fits_signed((v + 0x20000) / 0x40000, 20) {
                Some(((v + 0x20000) / 0x40000 % 0x100000 * 0x20) as u32)
            } else {
                None
            },
            LoongArchRelocation::SI14 => if v % 4 == 0 && fits_signed(v / 4, 14) {
                Some(((v / 4) % 0x4000 * 0x400) as u32)
            } else {
                None
            },
            LoongArchRelocation::SI12 | LoongArchRelocation::PCALA_LO12 => if fits_signed(v, 12) {
                Some((v % 0x1000 * 0x400) as u32)
            } else {
                None
            },
            _ => None,
        }
    }

    /// The value that a single-word relocation reads back from instruction word `w`.
    pub open spec fn decode_spec(self, w: u32) -> int {
        match self {
            LoongArchRelocation::B16 => sign_extend(w / 0x400 % 0x10000 * 4, 18),
            LoongArchRelocation::B21 => sign_extend(
                (w % 0x20 * 0x10000 + w / 0x400 % 0x10000) * 4,
                23,
            ),
            LoongArchRelocation::B26 => sign_extend(
                (w % 0x400 * 0x10000 + w / 0x400 % 0x10000) * 4,
                28,
            ),
            LoongArchRelocation::ABS_HI20 => sign_extend((w / 0x20 % 0x100000) as int, 20),
            LoongArchRelocation::PCADD_SHIFT2 => sign_extend(w / 0x20 % 0x100000 * 4, 22),
            LoongArchRelocation::PCADD_SHIFT12 | LoongArchRelocation::PCALA_HI20 => sign_extend(
                w / 0x20 % 0x100000 * 0x1000,
                32,
            ),
            LoongArchRelocation::PCADD_SHIFT18 => sign_extend(w / 0x20 % 0x100000 * 0x40000, 38),
            LoongArchRelocation::SI14 => sign_extend(w / 0x400 % 0x4000 * 4, 16),
            LoongArchRelocation::SI12 | LoongArchRelocation::PCALA_LO12 => sign_extend(
                (w / 0x400 % 0x1000) as int,
                12,
            ),
            _ => 0,
        }
    }

    /// The two words that a two-word relocation leaves for `v` in place of `w1` and `w2`,
    /// or nothing when `v` is out of range or misaligned.
    pub open spec fn split_spec(self, w1: u32, w2: u32, v: int) -> Option<(u32, u32)> {
        match self {
            LoongArchRelocation::SPLIT_PCALA => if v % 4 == 0 && -0x8000_0800 <= v <= 0x7FFF_F7FF {
                Some(
                    (
                        patch(w1, 0xFE00_001F, (v + 0x800) % 0x1_0000_0000 / 0x1000 * 0x20),
                        patch(w2, 0xFFC0_03FF, v % 0x1000 * 0x400),
                    ),
                )
            } else {
                None
            },
            LoongArchRelocation::SPLIT_CALL30 => if fits_signed(v, 32) && v % 4 == 0 {
                Some(
                    (
                        patch(w1, 0xFE00_001F, v % 0x1_0000_0000 / 0x1000 * 0x20),
                        patch(w2, 0xFC00_03FF, (v / 4) % 0x400 * 0x400),
                    ),
                )
            } else {
                None
            },
            LoongArchRelocation::SPLIT_CALL36 => if v % 4 == 0 && fits_signed(v + 0x20000, 38) {
                Some(
                    (
                        patch(w1, 0xFE00_001F, (v + 0x20000) / 0x40000 % 0x100000 * 0x20),
                        patch(w2, 0xFC00_03FF, (v / 4) % 0x10000 * 0x400),
                    ),
                )
            } else {
                None
            },
            _ => None,
        }
    }

    /// The value that a two-word relocation reads back from words `w1` and `w2`.
    pub open spec fn split_read_spec(self, w1: u32, w2: u32) -> int {
        match self {
            LoongArchRelocation::SPLIT_PCALA => {
                let lo12 = w2 / 0x400 % 0x1000;
                let lo = if lo12 >= 0x800 { lo12 + 0xFFFF_F000 } else { lo12 as int };
                sign_extend((w1 / 0x20 % 0x100000 * 0x1000 + lo) % 0x1_0000_0000, 32)
            },
            LoongArchRelocation::SPLIT_CALL30 => sign_extend(
                w1 / 0x20 % 0x100000 * 0x1000 + w2 / 0x400 % 0x400 * 4,
                32,
            ),
            LoongArchRelocation::SPLIT_CALL36 => sign_extend((w1 / 0x20 % 0x100000) as int, 20) * 0x40000
                + sign_extend((w2 / 0x400 % 0x10000) as int, 16) * 4,
            _ => 0,
        }
    }

    /// The number of bytes the relocation covers.
    pub open spec fn spec_size(self) -> nat {
        match self {
            LoongArchRelocation::Plain(s) => s.spec_size(),
            _ => if self.is_split() {
                8
            } else {
                4
            },
        }
    }

    /// The buffer after writing `v`, or nothing when the write is refused.
    pub open spec fn write_spec(self, old: Seq<u8>, v: int) -> Option<Seq<u8>> {
        match self {
            LoongArchRelocation::Plain(s) => s.write_spec(old, v),
            _ => if self.is_split() {
                match self.split_spec(word_at(old, 0), word_at(old, 4), v) {
                    Some((a, b)) => Some(with_word_at(with_word_at(old, 0, a), 4, b)),
                    None => None,
                }
            } else {
                match self.encode_spec(v) {
                    Some(e) => Some(
                        with_word_at(old, 0, (word_at(old, 0) & self.spec_op_mask()) | e),
                    ),
                    None => None,
                }
            },
        }
    }

    /// The value read back from a buffer.
    pub open spec fn read_spec(self, bytes: Seq<u8>) -> int {
        match self {
            LoongArchRelocation::Plain(s) => s.read_spec(bytes),
            _ => if self.is_split() {
                self.split_read_spec(word_at(bytes, 0), word_at(bytes, 4))
            } else {
                self.decode_spec(word_at(bytes, 0))
            },
        }
    }

    /// The values for which the arithmetic of a write stays within 64 bits: where a write
    /// adds a rounding constant to `v`, the sum must not overflow. The other relocations
    /// do no such arithmetic and take every value.
    pub open spec fn in_arith_range(self, v: int) -> bool {
        match self {
            LoongArchRelocation::SPLIT_CALL36 => v % 4 == 0 ==> v + 0x20000 <= i64::MAX,
            _ => self.in_encode_range(v),
        }
    }

    /// The values for which `encode` stays within 64 bits: the relocations whose field is
    /// rounded add `0x800` or `0x20000` to `v` first, and the sum must not overflow.
    pub open spec fn in_encode_range(self, v: int) -> bool {
        match self {
            LoongArchRelocation::PCADD_SHIFT12 | LoongArchRelocation::PCALA_HI20 => v + 0x800
                <= i64::MAX,
            LoongArchRelocation::PCADD_SHIFT18 => v + 0x20000 <= i64::MAX,
            _ => true,
        }
    }

    /// The values that a write of this relocation keeps exactly, so that a read gives them
    /// back: every value that the write accepts, but for the rounded relocations, which
    /// keep only the multiples of their unit, and for the `SPLIT_PCALA` offsets below
    /// -2^31, whose high part wraps around.
    pub open spec fn reads_back_exactly(self, v: int) -> bool {
        match self {
            LoongArchRelocation::B16 => v % 4 == 0 && fits_signed(v / 4, 16),
            LoongArchRelocation::B21 => v % 4 == 0 && fits_signed(v / 4, 21),
            LoongArchRelocation::B26 => v % 4 == 0 && fits_signed(v / 4, 26),
            LoongArchRelocation::SI14 => v % 4 == 0 && fits_signed(v / 4, 14),
            LoongArchRelocation::ABS_HI20 => fits_signed(v, 20),
            LoongArchRelocation::SI12 | LoongArchRelocation::PCALA_LO12 => fits_signed(v, 12),
            LoongArchRelocation::PCADD_SHIFT2 => v % 4 == 0 && fits_signed(v / 4, 20),
            LoongArchRelocation::PCADD_SHIFT12 | LoongArchRelocation::PCALA_HI20 => v % 0x1000 == 0
                && fits_signed(v / 0x1000, 20),
            LoongArchRelocation::PCADD_SHIFT18 => v % 0x40000 == 0 && fits_signed(v / 0x40000, 20),
            LoongArchRelocation::SPLIT_PCALA => v % 4 == 0 && fits_signed(v, 32) && v <= 0x7FFF_F7FF,
            LoongArchRelocation::SPLIT_CALL30 => v % 4 == 0 && fits_signed(v, 32),
            LoongArchRelocation::SPLIT_CALL36 => v % 4 == 0 && fits_signed(v + 0x20000, 38),
            LoongArchRelocation::Plain(s) => -(pow2((8 * s.spec_size() - 1) as nat) as int) <= v < pow2(
                (8 * s.spec_size() - 1) as nat,
            ),
        }
    }

    /// The encodings that name a relocation.
    pub open spec fn is_encoding(encoding: u8) -> bool {
        encoding <= 2 || (4 <= encoding <= 8) || (13 <= encoding <= 19)
    }

    /// The relocation that an encoding names.
    pub open spec fn from_encoding_spec(encoding: u8) -> LoongArchRelocation {
        match encoding {
            0 => LoongArchRelocation::B16,
            1 => LoongArchRelocation::B21,
            2 => LoongArchRelocation::B26,
            4 => LoongArchRelocation::ABS_HI20,
            5 => LoongArchRelocation::SI14,
            6 => LoongArchRelocation::B16,
            7 => LoongArchRelocation::SI12,
            8 => LoongArchRelocation::PCALA_LO12,
            13 => LoongArchRelocation::PCALA_HI20,
            14 => LoongArchRelocation::PCADD_SHIFT2,
            15 => LoongArchRelocation::PCADD_SHIFT12,
            16 => LoongArchRelocation::PCADD_SHIFT18,
            17 => LoongArchRelocation::SPLIT_PCALA,
            18 => LoongArchRelocation::SPLIT_CALL30,
            _ => LoongArchRelocation::SPLIT_CALL36,
        }
    }

    /// The bits of the instruction word that a single-word relocation keeps; 0 for the
    /// others.
    pub fn op_mask(&self) -> (r: u32)
        ensures
            r == self.spec_op_mask(),
    {
        match self {
            LoongArchRelocation::B16 => 0xFC00_03FF,
            LoongArchRelocation::B21 => 0xFC00_03E0,
            LoongArchRelocation::B26 => 0xFC00_0000,
            LoongArchRelocation::ABS_HI20 => 0xFE00_001F,
            LoongArchRelocation::PCADD_SHIFT2 => 0xFE00_001F,
            LoongArchRelocation::PCADD_SHIFT12 => 0xFE00_001F,
            LoongArchRelocation::PCADD_SHIFT18 => 0xFE00_001F,
            LoongArchRelocation::SI14 => 0xFF00_03FF,
            LoongArchRelocation::SI12 => 0xFFC0_03FF,
            LoongArchRelocation::PCALA_LO12 => 0xFFC0_03FF,
            LoongArchRelocation::PCALA_HI20 => 0xFE00_001F,
            LoongArchRelocation::SPLIT_PCALA
            | LoongArchRelocation::SPLIT_CALL30
            | LoongArchRelocation::SPLIT_CALL36 => 0,
            LoongArchRelocation::Plain(_) => 0,
        }
    }

    /// Packs `value` into the fields of a single-word relocation, or refuses it when it is
    /// out of range or misaligned, or when the relocation is not a single-word one.
    pub fn encode(&self, value: isize) -> (r: Result<u32, ImpossibleRelocation>)
        requires
            self.in_encode_range(value as int),
        ensures
            match self.encode_spec(value as int) {
                Some(e) => r matches Ok(x) && x == e,
                None => r is Err,
            },
    {
        proof {
            lemma2_to64();
        }
        let value = value as i64;
        match self {
            LoongArchRelocation::B16 => {
                proof {
                    lemma_quarter(value);
                    lemma_field_b16(value);
                }
                if value & 3 != 0 || !fits_signed_bitfield(value >> 2, 16) {
                    return Err(ImpossibleRelocation {  });
                }
                let value = #[verifier::truncate] ((value >> 2) as u32);
                Ok((value & 0xFFFF) << 10)
            },
            LoongArchRelocation::B21 => {
                proof {
                    lemma_quarter(value);
                    lemma_field_b21(value);
                }
                if value & 3 != 0 || !fits_signed_bitfield(value >> 2, 21) {
                    return Err(ImpossibleRelocation {  });
                }
                let value = #[verifier::truncate] ((value >> 2) as u32);
                Ok((value & 0xFFFF) << 10 | ((value >> 16) & 0x1F))
            },
            LoongArchRelocation::B26 => {
                proof {
                    lemma_quarter(value);
                    lemma_field_b26(value);
                }
                if value & 3 != 0 || !fits_signed_bitfield(value >> 2, 26) {
                    return Err(ImpossibleRelocation {  });
                }
                let value = #[verifier::truncate] ((value >> 2) as u32);
                Ok(((value & 0xFFFF) << 10) | ((value >> 16) & 0x3FF))
            },
            LoongArchRelocation::ABS_HI20 => {
                proof {
                    lemma_field_abs_hi20(value);
                }
                if !fits_signed_bitfield(value, 20) {
                    return Err(ImpossibleRelocation {  });
                }
                Ok(((#[verifier::truncate] (value as u32)) & 0xF_FFFF) << 5)
            },
            LoongArchRelocation::PCADD_SHIFT2 => {
                proof {
                    lemma_quarter(value);
                    lemma_field_shift2(value);
                }
                if !fits_signed_bitfield(value >> 2, 20) {
                    return Err(ImpossibleRelocation {  });
                }
                Ok(((#[verifier::truncate] ((value >> 2) as u32)) & 0xF_FFFF) << 5)
            },
            LoongArchRelocation::PCADD_SHIFT12 | LoongArchRelocation::PCALA_HI20 => {
                let value = value + 0x800;
                proof {
                    lemma_field_shift12(value);
                }
                if !fits_signed_bitfield(value >> 12, 20) {
                    return Err(ImpossibleRelocation {  });
                }
                Ok(((#[verifier::truncate] ((value >> 12) as u32)) & 0xF_FFFF) << 5)
            },
            LoongArchRelocation::PCADD_SHIFT18 => {
                let value = value + 0x20000;
                proof {
                    lemma_field_shift18(value);
                }
                if !fits_signed_bitfield(value >> 18, 20) {
                    return Err(ImpossibleRelocation {  });
                }
                Ok(((#[verifier::truncate] ((value >> 18) as u32)) & 0xF_FFFF) << 5)
            },
            LoongArchRelocation::SI14 => {
                proof {
                    lemma_quarter(value);
                    lemma_field_si14(value);
                }
                if value & 3 != 0 || !fits_signed_bitfield(value >> 2, 14) {
                    return Err(ImpossibleRelocation {  });
                }
                let value = #[verifier::truncate] ((value >> 2) as u32);
                Ok((value & 0x3FFF) << 10)
            },
            LoongArchRelocation::SI12 | LoongArchRelocation::PCALA_LO12 => {
                proof {
                    lemma_field_si12(value);
                }
                if !fits_signed_bitfield(value, 12) {
                    return Err(ImpossibleRelocation {  });
                }
                Ok(((#[verifier::truncate] (value as u32)) & 0xFFF) << 10)
            },
            LoongArchRelocation::SPLIT_PCALA
            | LoongArchRelocation::SPLIT_CALL30
            | LoongArchRelocation::SPLIT_CALL36
            | LoongArchRelocation::Plain(_) => Err(ImpossibleRelocation {  }),
        }
    }

    /// The value a single-word relocation reads back from instruction word `w`.
    fn decode(&self, w: u32) -> (r: i64)
        ensures
            !self.is_split() && !(self is Plain) ==> r as int == self.decode_spec(w),
    {
        match self {
            LoongArchRelocation::B16 => sign_extended((w / 0x400 % 0x10000) as u64 * 4, 18),
            LoongArchRelocation::B21 => sign_extended(
                ((w % 0x20) as u64 * 0x10000 + (w / 0x400 % 0x10000) as u64) * 4,
                23,
            ),
            LoongArchRelocation::B26 => sign_extended(
                ((w % 0x400) as u64 * 0x10000 + (w / 0x400 % 0x10000) as u64) * 4,
                28,
            ),
            LoongArchRelocation::ABS_HI20 => sign_extended((w / 0x20 % 0x100000) as u64, 20),
            LoongArchRelocation::PCADD_SHIFT2 => sign_extended((w / 0x20 % 0x100000) as u64 * 4, 22),
            LoongArchRelocation::PCADD_SHIFT12 | LoongArchRelocation::PCALA_HI20 => sign_extended(
                (w / 0x20 % 0x100000) as u64 * 0x1000,
                32,
            ),
            LoongArchRelocation::PCADD_SHIFT18 => sign_extended(
                (w / 0x20 % 0x100000) as u64 * 0x40000,
                38,
            ),
            LoongArchRelocation::SI14 => sign_extended((w / 0x400 % 0x4000) as u64 * 4, 16),
            LoongArchRelocation::SI12 | LoongArchRelocation::PCALA_LO12 => sign_extended(
                (w / 0x400 % 0x1000) as u64,
                12,
            ),
            _ => 0,
        }
    }

    /// The value a two-word relocation reads back from words `w1` and `w2`.
    fn split_decode(&self, w1: u32, w2: u32) -> (r: i64)
        ensures
            self.is_split() ==> r as int == self.split_read_spec(w1, w2),
    {
        match self {
            LoongArchRelocation::SPLIT_PCALA => {
                let hi: u64 = (w1 / 0x20 % 0x100000) as u64 * 0x1000;
                let lo12: u64 = (w2 / 0x400 % 0x1000) as u64;
                let lo: u64 = if lo12 >= 0x800 {
                    lo12 + 0xFFFF_F000
                } else {
                    lo12
                };
                sign_extended((hi + lo) % 0x1_0000_0000, 32)
            },
            LoongArchRelocation::SPLIT_CALL30 => {
                let hi: u64 = (w1 / 0x20 % 0x100000) as u64 * 0x1000;
                let lo: u64 = (w2 / 0x400 % 0x400) as u64 * 4;
                sign_extended(hi + lo, 32)
            },
            LoongArchRelocation::SPLIT_CALL36 => {
                let hi = sign_extended((w1 / 0x20 % 0x100000) as u64, 20);
                let lo = sign_extended((w2 / 0x400 % 0x10000) as u64, 16);
                proof {
                    lemma2_to64();
                }
                hi * 0x40000 + lo * 4
            },
            _ => 0,
        }
    }

    /// Writes the two words of a two-word relocation, or refuses `value` (leaving `buf`
    /// alone) when it is out of range or misaligned.
    fn write_split(&self, buf: &mut [u8], value: isize) -> (r: Result<(), ImpossibleRelocation>)
        requires
            self.is_split(),
            old(buf)@.len() >= 8,
            self.in_arith_range(value as int),
        ensures
            match self.split_spec(word_at(old(buf)@, 0), word_at(old(buf)@, 4), value as int) {
                Some((a, b)) => r is Ok && final(buf)@ == with_word_at(
                    with_word_at(old(buf)@, 0, a),
                    4,
                    b,
                ),
                None => r is Err && final(buf)@ == old(buf)@,
            },
    {
        proof {
            lemma2_to64();
            lemma2_to64_rest();
        }
        let v = value as i64;
        let w1 = read_u32_at(buf, 0);
        let w2 = read_u32_at(buf, 4);
        let (instr1, instr2) = match self {
            LoongArchRelocation::SPLIT_PCALA => {
                if v < -0x8000_0800 || v > 0x7FFF_F7FF {
                    return Err(ImpossibleRelocation {  });
                }
                proof {
                    lemma_quarter(v);
                }
                if v & 3 != 0 {
                    return Err(ImpossibleRelocation {  });
                }
                let rounded = v + 0x800;
                proof {
                    lemma_split_pcala_fields(rounded, v);
                }
                let hi: u32 = ((#[verifier::truncate] (rounded as u32)) >> 12) & 0xF_FFFF;
                let lo: u32 = (#[verifier::truncate] (v as u32)) & 0xFFF;
                ((w1 & 0xFE00_001F) | (hi << 5), (w2 & 0xFFC0_03FF) | (lo << 10))
            },
            LoongArchRelocation::SPLIT_CALL30 => {
                if v < -0x8000_0000 || v > 0x7FFF_FFFF {
                    return Err(ImpossibleRelocation {  });
                }
                let val_cast = v as i32;
                proof {
                    lemma_quarter32(val_cast);
                    lemma_split_call30_fields(val_cast);
                }
                if val_cast & 3 != 0 {
                    return Err(ImpossibleRelocation {  });
                }
                let hi20: u32 = ((#[verifier::truncate] (val_cast as u32)) >> 12) & 0xF_FFFF;
                let lo10: u32 = ((#[verifier::truncate] (val_cast as u32)) >> 2) & 0x3FF;
                ((w1 & 0xFE00_001F) | (hi20 << 5), (w2 & 0xFC00_03FF) | (lo10 << 10))
            },
            _ => {
                proof {
                    lemma_quarter(v);
                }
                if v & 3 != 0 {
                    return Err(ImpossibleRelocation {  });
                }
                let compensated: i64 = v + 0x20000;
                if !fits_signed_bitfield(compensated, 38) {
                    return Err(ImpossibleRelocation {  });
                }
                proof {
                    lemma_split_call36_fields(compensated, v);
                }
                let hi20: u32 = #[verifier::truncate] ((((#[verifier::truncate] (compensated as u64)) >> 18) & 0xF_FFFF) as u32);
                let lo16: u32 = #[verifier::truncate] ((((#[verifier::truncate] (v as u64)) >> 2) & 0xFFFF) as u32);
                ((w1 & 0xFE00_001F) | (hi20 << 5), (w2 & 0xFC00_03FF) | (lo16 << 10))
            },
        };
        write_u32_at(buf, 0, instr1);
        proof {
            lemma_with_word_at(old(buf)@, 0, instr1);
        }
        write_u32_at(buf, 4, instr2);
        Ok(())
    }

    /// Writes `value` into `buf` as this relocation: the fields of one or two instruction
    /// words, keeping their other bits, or plain data. Refuses a value that is out of range
    /// or misaligned, and then leaves `buf` alone.
    pub fn write_value(&self, buf: &mut [u8], value: isize) -> (r: Result<(), ImpossibleRelocation>)
        requires
            old(buf)@.len() >= self.spec_size(),
            self.in_arith_range(value as int),
        ensures
            match self.write_spec(old(buf)@, value as int) {
                Some(b) => r is Ok && final(buf)@ == b,
                None => r is Err && final(buf)@ == old(buf)@,
            },
    {
        if let LoongArchRelocation::Plain(s) = self {
            return s.write_value(buf, value);
        }
        match self {
            LoongArchRelocation::SPLIT_PCALA
            | LoongArchRelocation::SPLIT_CALL30
            | LoongArchRelocation::SPLIT_CALL36 => {
                return self.write_split(buf, value);
            },
            _ => {},
        }
        let mask = self.op_mask();
        let template = read_u32_at(buf, 0) & mask;
        let packed = self.encode(value)?;
        write_u32_at(buf, 0, template | packed);
        Ok(())
    }

    /// Reads back the value that this relocation holds in `buf`.
    pub fn read_value(&self, buf: &[u8]) -> (r: isize)
        requires
            buf@.len() >= self.spec_size(),
        ensures
            r == self.read_spec(buf@) as isize,
    {
        if let LoongArchRelocation::Plain(s) = self {
            return s.read_value(buf);
        }
        let value: i64 = match self {
            LoongArchRelocation::SPLIT_PCALA
            | LoongArchRelocation::SPLIT_CALL30
            | LoongArchRelocation::SPLIT_CALL36 => {
                let instr1 = read_u32_at(buf, 0);
                let instr2 = read_u32_at(buf, 4);
                self.split_decode(instr1, instr2)
            },
            _ => self.decode(read_u32_at(buf, 0)),
        };
        #[verifier::truncate] (value as isize)
    }

    /// The relocation that an encoding names.
    pub fn from_encoding(encoding: (u8,)) -> (r: LoongArchRelocation)
        requires
            Self::is_encoding(encoding.0),
        ensures
            r == Self::from_encoding_spec(encoding.0),
    {
        match encoding.0 {
            0 => LoongArchRelocation::B16,
            1 => LoongArchRelocation::B21,
            2 => LoongArchRelocation::B26,
            4 => LoongArchRelocation::ABS_HI20,
            5 => LoongArchRelocation::SI14,
            6 => LoongArchRelocation::B16,
            7 => LoongArchRelocation::SI12,
            8 => LoongArchRelocation::PCALA_LO12,
            13 => LoongArchRelocation::PCALA_HI20,
            14 => LoongArchRelocation::PCADD_SHIFT2,
            15 => LoongArchRelocation::PCADD_SHIFT12,
            16 => LoongArchRelocation::PCADD_SHIFT18,
            17 => LoongArchRelocation::SPLIT_PCALA,
            18 => LoongArchRelocation::SPLIT_CALL30,
            19 => LoongArchRelocation::SPLIT_CALL36,
            x => LoongArchRelocation::Plain(RelocationSize::from_encoding((x,))),
        }
    }

    /// Plain data of the given size.
    pub fn from_size(size: RelocationSize) -> (r: LoongArchRelocation)
        ensures
            r == LoongArchRelocation::Plain(size),
    {
        LoongArchRelocation::Plain(size)
    }

    /// The number of bytes the relocation covers: 8 for the two-word ones, the data size
    /// for plain data, 4 otherwise.
    pub fn size(&self) -> (r: usize)
        ensures
            r == self.spec_size(),
    {
        match self {
            LoongArchRelocation::SPLIT_PCALA
            | LoongArchRelocation::SPLIT_CALL30
            | LoongArchRelocation::SPLIT_CALL36 => 8,
            LoongArchRelocation::Plain(s) => s.size(),
            _ => RelocationSize::DWord.size(),
        }
    }

    /// Every LoongArch relocation is relative to its own position.
    pub fn kind(&self) -> (r: RelocationKind)
        ensures
            r == RelocationKind::Relative,
    {
        RelocationKind::Relative
    }

    /// The page size of the target, in bytes.
    pub fn page_size() -> (r: usize)
        ensures
            r == 4096,
    {
        4096
    }
}

/// The message for an immediate that a LoongArch instruction cannot hold.
pub open spec fn out_of_range_text(immediate: int) -> Seq<char> {
    "Cannot assemble this LoongArch instruction. Immediate "@ + signed_decimal(immediate)
        + " is out of range."@
}

/// The message for a register number that an operand does not allow.
pub open spec fn invalid_register_text(register: nat) -> Seq<char> {
    "Cannot assemble this LoongArch instruction. Register number "@ + decimal(register)
        + " is invalid for this operand."@
}

/// The message with which assembled code stops on an immediate that is out of range.
pub fn immediate_out_of_range_message(immediate: i128) -> (r: String)
    requires
        immediate > i128::MIN,
    ensures
        r@ == out_of_range_text(immediate as int),
{
    let mut r = String::new();
    push_str(&mut r, "Cannot assemble this LoongArch instruction. Immediate ");
    push_signed_decimal(&mut r, immediate);
    push_str(&mut r, " is out of range.");
    r
}

/// The message with which assembled code stops on a register number that the operand
/// does not allow (such as r0 where r0 is forbidden).
pub fn invalid_register_message(register: u8) -> (r: String)
    ensures
        r@ == invalid_register_text(register as nat),
{
    let mut r = String::new();
    push_str(&mut r, "Cannot assemble this LoongArch instruction. Register number ");
    push_decimal(&mut r, register as u128);
    push_str(&mut r, " is invalid for this operand.");
    r
}

/// The low two bits of `v` are its remainder by 4; shifting right by two divides by 4.
pub(crate) proof fn lemma_quarter(v: i64)
    ensures
        (v & 3 == 0) == (v % 4 == 0),
        v >> 2u64 == v / 4,
{
    assert((v & 3 == 0) == (v % 4 == 0)) by (bit_vector);
    assert(v >> 2u64 == v / 4) by (bit_vector);
}

pub(crate) proof fn lemma_field_b16(v: i64)
    ensures
        ((((v >> 2u64) as u32) & 0xFFFFu32) << 10u32) == ((v / 4) % 0x10000 * 0x400) as u32,
{
    assert(((((v >> 2u64) as u32) & 0xFFFFu32) << 10u32) == ((v / 4) % 0x10000 * 0x400) as u32)
        by (bit_vector);
}

pub(crate) proof fn lemma_field_b21(v: i64)
    ensures
        (((v >> 2u64) as u32) & 0xFFFFu32) << 10u32 | ((((v >> 2u64) as u32) >> 16u32) & 0x1Fu32)
            == ((v / 4) % 0x10000 * 0x400 + (v / 0x40000) % 0x20) as u32,
{
    assert((((v >> 2u64) as u32) & 0xFFFFu32) << 10u32 | ((((v >> 2u64) as u32) >> 16u32)
        & 0x1Fu32) == ((v / 4) % 0x10000 * 0x400 + (v / 0x40000) % 0x20) as u32) by (bit_vector);
}

pub(crate) proof fn lemma_field_b26(v: i64)
    ensures
        ((((v >> 2u64) as u32) & 0xFFFFu32) << 10u32) | ((((v >> 2u64) as u32) >> 16u32)
            & 0x3FFu32) == ((v / 4) % 0x10000 * 0x400 + (v / 0x40000) % 0x400) as u32,
{
    assert(((((v >> 2u64) as u32) & 0xFFFFu32) << 10u32) | ((((v >> 2u64) as u32) >> 16u32)
        & 0x3FFu32) == ((v / 4) % 0x10000 * 0x400 + (v / 0x40000) % 0x400) as u32)
        by (bit_vector);
}

pub(crate) proof fn lemma_field_abs_hi20(v: i64)
    ensures
        (((v as u32) & 0xF_FFFFu32) << 5u32) == (v % 0x100000 * 0x20) as u32,
{
    assert((((v as u32) & 0xF_FFFFu32) << 5u32) == (v % 0x100000 * 0x20) as u32) by (bit_vector);
}

proof fn lemma_field_shift2(v: i64)
    ensures
        ((((v >> 2u64) as u32) & 0xF_FFFFu32) << 5u32) == ((v / 4) % 0x100000 * 0x20) as u32,
{
    assert(((((v >> 2u64) as u32) & 0xF_FFFFu32) << 5u32) == ((v / 4) % 0x100000 * 0x20) as u32)
        by (bit_vector);
}

proof fn lemma_field_shift12(c: i64)
    ensures
        c >> 12u64 == c / 0x1000,
        ((((c >> 12u64) as u32) & 0xF_FFFFu32) << 5u32) == (c / 0x1000 % 0x100000 * 0x20) as u32,
{
    assert(c >> 12u64 == c / 0x1000) by (bit_vector);
    assert(((((c >> 12u64) as u32) & 0xF_FFFFu32) << 5u32) == (c / 0x1000 % 0x100000 * 0x20) as u32)
        by (bit_vector);
}

proof fn lemma_field_shift18(c: i64)
    ensures
        c >> 18u64 == c / 0x40000,
        ((((c >> 18u64) as u32) & 0xF_FFFFu32) << 5u32) == (c / 0x40000 % 0x100000 * 0x20) as u32,
{
    assert(c >> 18u64 == c / 0x40000) by (bit_vector);
    assert(((((c >> 18u64) as u32) & 0xF_FFFFu32) << 5u32) == (c / 0x40000 % 0x100000 * 0x20)
        as u32) by (bit_vector);
}

pub(crate) proof fn lemma_field_si14(v: i64)
    ensures
        ((((v >> 2u64) as u32) & 0x3FFFu32) << 10u32) == ((v / 4) % 0x4000 * 0x400) as u32,
{
    assert(((((v >> 2u64) as u32) & 0x3FFFu32) << 10u32) == ((v / 4) % 0x4000 * 0x400) as u32)
        by (bit_vector);
}

pub(crate) proof fn lemma_field_si12(v: i64)
    ensures
        (((v as u32) & 0xFFFu32) << 10u32) == (v % 0x1000 * 0x400) as u32,
{
    assert((((v as u32) & 0xFFFu32) << 10u32) == (v % 0x1000 * 0x400) as u32) by (bit_vector);
}

proof fn lemma_quarter32(c: i32)
    ensures
        (c & 3 == 0) == (c % 4 == 0),
{
    assert((c & 3 == 0) == (c % 4 == 0)) by (bit_vector);
}

proof fn lemma_split_pcala_fields(r: i64, c: i64)
    ensures
        (((((r as u32) >> 12u32) & 0xF_FFFFu32) << 5u32) == (r % 0x1_0000_0000 / 0x1000 * 0x20) as u32),
        ((((c as u32) & 0xFFFu32) << 10u32) == (c % 0x1000 * 0x400) as u32),
{
    assert(((((r as u32) >> 12u32) & 0xF_FFFFu32) << 5u32) == (r % 0x1_0000_0000 / 0x1000 * 0x20)
        as u32) by (bit_vector);
    assert((((c as u32) & 0xFFFu32) << 10u32) == (c % 0x1000 * 0x400) as u32) by (bit_vector);
}

proof fn lemma_split_call30_fields(c: i32)
    ensures
        ((((c as u32) >> 12u32) & 0xF_FFFFu32) << 5u32) == ((c as i64) % 0x1_0000_0000 / 0x1000 * 0x20) as u32,
        ((((c as u32) >> 2u32) & 0x3FFu32) << 10u32) == ((c / 4) % 0x400 * 0x400) as u32,
{
    assert(((((c as u32) >> 12u32) & 0xF_FFFFu32) << 5u32) == ((c as i64) % 0x1_0000_0000 / 0x1000 * 0x20)
        as u32) by (bit_vector);
    assert(((((c as u32) >> 2u32) & 0x3FFu32) << 10u32) == ((c / 4) % 0x400 * 0x400) as u32)
        by (bit_vector);
}

proof fn lemma_split_call36_fields(k: i64, v: i64)
    ensures
        (((((k as u64) >> 18u64) & 0xF_FFFFu64) as u32) << 5u32) == (k / 0x40000 % 0x100000 * 0x20) as u32,
        (((((v as u64) >> 2u64) & 0xFFFFu64) as u32) << 10u32) == ((v / 4) % 0x10000 * 0x400) as u32,
{
    assert((((((k as u64) >> 18u64) & 0xF_FFFFu64) as u32) << 5u32) == (k / 0x40000 % 0x100000
        * 0x20) as u32) by (bit_vector);
    assert((((((v as u64) >> 2u64) & 0xFFFFu64) as u32) << 10u32) == ((v / 4) % 0x10000 * 0x400)
        as u32) by (bit_vector);
}

} // verus!
