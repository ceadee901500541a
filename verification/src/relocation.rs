//! Relocations of the LoongArch target: how a value (a label offset or an immediate) is
//! packed into the fields of one or two 32-bit instruction words in an assembled buffer,
//! and how it is read back.

use vstd::prelude::*;
use vstd::arithmetic::power2::{pow2, lemma2_to64, lemma2_to64_rest};
use vstd::bits::lemma_u64_shl_is_mul;
use crate::bytes::{le_bytes, le_value, as_signed, as_unsigned, read_i16, read_i32, read_i64, write_i16, write_i32, write_i64};

verus! {

/// A relocation could not be applied: the value does not fit, or is not aligned, or the
/// relocation kind cannot hold a value.
#[derive(Debug, Clone, Copy, PartialEq, Eq, Structural)]
pub struct ImpossibleRelocation {}

/// How a relocation's value relates to the place it is written to.
#[derive(Debug, Clone, Copy, PartialEq, Eq, Structural)]
pub enum RelocationKind {
    /// The value is the offset from the relocation's base to the target.
    Relative,
    /// The target is absolute; the value written is made relative to the relocation.
    AbsToRel,
    /// The target is relative; the value written is absolute.
    RelToAbs,
}

/// Whether `value` is a two's complement number of `bits` bits (always, from 64 bits on).
pub open spec fn fits_signed(value: int, bits: nat) -> bool {
    bits >= 64 || (-(pow2((bits - 1) as nat) as int) <= value < pow2((bits - 1) as nat))
}

/// `x`, whose bit `bits - 1` is taken as a sign bit: when it is set, `2^bits` is taken off.
/// For `x < 2^bits` this is the two's complement number that the `bits`-bit pattern `x`
/// stands for.
pub open spec fn sign_extend(x: int, bits: nat) -> int {
    if (x / pow2((bits - 1) as nat) as int) % 2 == 1 {
        x - pow2(bits)
    } else {
        x
    }
}

/// Checks whether `value` fits a signed bit field of `bits` bits.
pub fn fits_signed_bitfield(value: i64, bits: u8) -> (r: bool)
    requires
        bits >= 1,
    ensures
        r == fits_signed(value as int, bits as nat),
{
    if bits >= 64 {
        return true;
    }
    proof {
        lemma2_to64();
        lemma2_to64_rest();
        lemma_u64_shl_is_mul(1, (bits - 1) as u64);
        vstd::arithmetic::power2::lemma_pow2_strictly_increases((bits - 1) as nat, 63);
    }
    let half = (1u64 << ((bits - 1) as u64)) as i64;
    value < half && value >= -half
}

/// The number `x` whose bit `bits - 1` is a sign bit, as computed by `sign_extend`.
pub(crate) fn sign_extended(x: u64, bits: u64) -> (r: i64)
    requires
        1 <= bits <= 62,
        x < 0x4000_0000_0000_0000,
    ensures
        r as int == sign_extend(x as int, bits as nat),
{
    proof {
        lemma2_to64();
        lemma2_to64_rest();
        lemma_u64_shl_is_mul(1, (bits - 1) as u64);
        vstd::arithmetic::power2::lemma_pow2_strictly_increases((bits - 1) as nat, 62);
        vstd::arithmetic::power2::lemma_pow2_adds((bits - 1) as nat, 1);
    }
    let half: u64 = 1u64 << (bits - 1);
    if (x / half) % 2 == 1 {
        x as i64 - (2 * half) as i64
    } else {
        x as i64
    }
}

/// The plain data sizes a relocation can have.
#[derive(Debug, Clone, Copy, PartialEq, Eq, Structural)]
pub enum RelocationSize {
    /// One byte.
    Byte,
    /// Two bytes.
    Word,
    /// Four bytes.
    DWord,
    /// Eight bytes.
    QWord,
}

impl RelocationSize {
    /// The number of bytes.
    pub open spec fn spec_size(self) -> nat {
        match self {
            RelocationSize::Byte => 1,
            RelocationSize::Word => 2,
            RelocationSize::DWord => 4,
            RelocationSize::QWord => 8,
        }
    }

    /// The encodings that name a size: the size in bytes.
    pub open spec fn is_encoding(encoding: u8) -> bool {
        encoding == 1 || encoding == 2 || encoding == 4 || encoding == 8
    }

    /// The size that an encoding (its byte count) names.
    pub fn from_encoding(encoding: (u8,)) -> (r: RelocationSize)
        requires
            Self::is_encoding(encoding.0),
        ensures
            r.spec_size() == encoding.0,
    {
        match encoding.0 {
            1 => RelocationSize::Byte,
            2 => RelocationSize::Word,
            4 => RelocationSize::DWord,
            _ => RelocationSize::QWord,
        }
    }

    /// The size itself.
    pub fn from_size(size: RelocationSize) -> (r: RelocationSize)
        ensures
            r == size,
    {
        size
    }

    /// The number of bytes.
    pub fn size(&self) -> (r: usize)
        ensures
            r == self.spec_size(),
    {
        match self {
            RelocationSize::Byte => 1,
            RelocationSize::Word => 2,
            RelocationSize::DWord => 4,
            RelocationSize::QWord => 8,
        }
    }

    /// The buffer after writing `value`: its two's complement in the first `size` bytes,
    /// little-endian; nothing when it does not fit.
    pub open spec fn write_spec(self, old: Seq<u8>, value: int) -> Option<Seq<u8>> {
        let n = self.spec_size();
        if fits_signed(value, 8 * n) {
            Some(le_bytes(as_unsigned(value, 8 * n), n) + old.subrange(n as int, old.len() as int))
        } else {
            None
        }
    }

    /// The value stored in the first `size` bytes, as a little-endian two's complement number.
    pub open spec fn read_spec(self, bytes: Seq<u8>) -> int {
        let n = self.spec_size();
        as_signed(le_value(bytes.subrange(0, n as int)), 8 * n)
    }

    /// Writes `value` into the first `size` bytes of `buf`, or fails when it does not fit.
    pub fn write_value(&self, buf: &mut [u8], value: isize) -> (r: Result<(), ImpossibleRelocation>)
        requires
            old(buf)@.len() >= self.spec_size(),
        ensures
            match self.write_spec(old(buf)@, value as int) {
                Some(b) => r is Ok && final(buf)@ == b,
                None => r is Err && final(buf)@ == old(buf)@,
            },
    {
        proof {
            lemma2_to64();
            lemma2_to64_rest();
        }
        let value = value as i64;
        match self {
            RelocationSize::Byte => {
                if value < -128 || value > 127 {
                    return Err(ImpossibleRelocation {  });
                }
                let b = value as i8;
                let byte = #[verifier::truncate] (b as u8);
                proof {
                    assert((b as u8) as int == (b as int) % 256) by (bit_vector);
                    reveal_with_fuel(le_bytes, 2);
                }
                buf[0] = byte;
                assert(final(buf)@ =~= self.write_spec(old(buf)@, value as int).unwrap());
            },
            RelocationSize::Word => {
                if value < -0x8000 || value > 0x7FFF {
                    return Err(ImpossibleRelocation {  });
                }
                write_i16(buf, value as i16);
            },
            RelocationSize::DWord => {
                if value < -0x8000_0000 || value > 0x7FFF_FFFF {
                    return Err(ImpossibleRelocation {  });
                }
                write_i32(buf, value as i32);
            },
            RelocationSize::QWord => {
                write_i64(buf, value);
            },
        }
        Ok(())
    }

    /// Reads the value in the first `size` bytes of `buf`.
    pub fn read_value(&self, buf: &[u8]) -> (r: isize)
        requires
            buf@.len() >= self.spec_size(),
        ensures
            r == self.read_spec(buf@) as isize,
    {
        proof {
            lemma2_to64();
            lemma2_to64_rest();
        }
        match self {
            RelocationSize::Byte => {
                let b = buf[0];
                proof {
                    reveal_with_fuel(le_value, 2);
                    assert(buf@.subrange(0, 1).drop_first() =~= Seq::<u8>::empty());
                    assert((b as i8) as int == if b >= 128 { b - 256 } else { b as int })
                        by (bit_vector);
                }
                b as i8 as isize
            },
            RelocationSize::Word => read_i16(buf) as isize,
            RelocationSize::DWord => read_i32(buf) as isize,
            RelocationSize::QWord => read_i64(buf) as isize,
        }
    }
}

} // verus!
