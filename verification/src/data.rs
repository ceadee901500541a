//! The description of LoongArch instruction forms: encoding templates, the targets and
//! extensions a form needs, how its arguments are matched and how they are encoded.

use vstd::prelude::*;
use crate::ast::RegId;
use crate::text::{join, join_strings};

verus! {

/// The static part of an instruction's encoding.
#[derive(Debug, Clone, PartialEq, Eq)]
pub enum Template {
    /// A single 32-bit instruction.
    Single(u32),
    /// Two 32-bit instructions.
    Double(u32, u32),
    /// A sequence of instructions.
    Many(Vec<u32>),
}

/// The target bit for 32-bit LoongArch.
pub const ISA_LA32: u8 = 0x01;

/// The target bit for 64-bit LoongArch.
pub const ISA_LA64: u8 = 0x02;

/// The ISA targets an instruction is valid on.
#[derive(Debug, Clone, Copy, PartialEq, Eq, Structural)]
pub struct ISAFlags {
    /// The target bits; only `ISA_LA32` and `ISA_LA64` are ever set.
    pub bits: u8,
}

impl ISAFlags {
    /// The flags of `bits`, with the bits that name no target dropped.
    pub fn make(bits: u8) -> (r: ISAFlags)
        ensures
            r.bits == bits & 0x03,
    {
        ISAFlags { bits: bits & 0x03 }
    }

    /// Whether every bit of `flags` is set here.
    pub open spec fn spec_contains(self, flags: u8) -> bool {
        self.bits & flags == flags
    }

    /// Whether every bit of `flags` is set here.
    pub fn contains(&self, flags: u8) -> (r: bool)
        ensures
            r == self.spec_contains(flags),
    {
        self.bits & flags == flags
    }
}

/// Base integer instructions.
pub const EX_BASE: u64 = 0x0000_0000_0000_0001;

/// Bit manipulation instructions.
pub const EX_BIT: u64 = 0x0000_0000_0000_0002;

/// Single-precision floating point.
pub const EX_F: u64 = 0x0000_0000_0000_0004;

/// Double-precision floating point.
pub const EX_D: u64 = 0x0000_0000_0000_0008;

/// SIMD instructions (LSX).
pub const EX_LSX: u64 = 0x0000_0000_0000_0010;

/// Advanced SIMD instructions (LASX).
pub const EX_LASX: u64 = 0x0000_0000_0000_0020;

/// Virtualization instructions (LVZ).
pub const EX_LVZ: u64 = 0x0000_0000_0000_0040;

/// Binary translation instructions (LBT).
pub const EX_LBT: u64 = 0x0000_0000_0000_0080;

/// Privileged instructions.
pub const EX_PRIV: u64 = 0x0000_0000_0000_0100;

/// The bits that name an extension.
pub const EX_ALL: u64 = 0x0000_0000_0000_01FF;

/// The ISA extensions an instruction needs.
#[derive(Debug, Clone, Copy, PartialEq, Eq, Structural)]
pub struct ExtensionFlags {
    /// The extension bits; only the bits of `EX_ALL` are ever set.
    pub bits: u64,
}

/// The name of an extension bit when it is set in `bits`, as a one-element list, else none.
pub open spec fn flag_part(bits: u64, flag: u64, name: Seq<char>) -> Seq<Seq<char>> {
    if bits & flag != 0 {
        seq![name]
    } else {
        seq![]
    }
}

/// The names of the extensions set in `bits`, in declaration order.
pub open spec fn extension_names(bits: u64) -> Seq<Seq<char>> {
    flag_part(bits, EX_BASE, "BASE"@) + flag_part(bits, EX_BIT, "BIT"@) + flag_part(
        bits,
        EX_F,
        "F"@,
    ) + flag_part(bits, EX_D, "D"@) + flag_part(bits, EX_LSX, "LSX"@) + flag_part(
        bits,
        EX_LASX,
        "LASX"@,
    ) + flag_part(bits, EX_LVZ, "LVZ"@) + flag_part(bits, EX_LBT, "LBT"@) + flag_part(
        bits,
        EX_PRIV,
        "PRIV"@,
    )
}

/// Appends `name` to `names` when `flag` is set in `bits`.
fn push_flag_name(names: &mut Vec<String>, bits: u64, flag: u64, name: &str)
    ensures
        final(names)@.map_values(|x: String| x@) == old(names)@.map_values(|x: String| x@)
            + flag_part(bits, flag, name@),
{
    if bits & flag != 0 {
        names.push(String::from_str(name));
    }
    assert(final(names)@.map_values(|x: String| x@) =~= old(names)@.map_values(|x: String| x@)
        + flag_part(bits, flag, name@));
}

impl ExtensionFlags {
    /// The flags of `bits`, with the bits that name no extension dropped.
    pub fn make(bits: u64) -> (r: ExtensionFlags)
        ensures
            r.bits == bits & EX_ALL,
    {
        ExtensionFlags { bits: bits & EX_ALL }
    }

    /// Whether every bit of `flags` is set here.
    pub open spec fn spec_contains(self, flags: u64) -> bool {
        self.bits & flags == flags
    }

    /// Whether every bit of `flags` is set here.
    pub fn contains(&self, flags: u64) -> (r: bool)
        ensures
            r == self.spec_contains(flags),
    {
        self.bits & flags == flags
    }

    /// The names of the set extensions, joined by `_`, such as `BASE_F_D`.
    pub open spec fn spec_name(self) -> Seq<char> {
        join(extension_names(self.bits), "_"@)
    }

    /// The names of the set extensions, joined by `_`, such as `BASE_F_D`.
    pub fn to_string(&self) -> (r: String)
        ensures
            r@ == self.spec_name(),
    {
        let mut names: Vec<String> = Vec::new();
        assert(names@.map_values(|x: String| x@) =~= Seq::<Seq<char>>::empty());
        push_flag_name(&mut names, self.bits, EX_BASE, "BASE");
        push_flag_name(&mut names, self.bits, EX_BIT, "BIT");
        push_flag_name(&mut names, self.bits, EX_F, "F");
        push_flag_name(&mut names, self.bits, EX_D, "D");
        push_flag_name(&mut names, self.bits, EX_LSX, "LSX");
        push_flag_name(&mut names, self.bits, EX_LASX, "LASX");
        push_flag_name(&mut names, self.bits, EX_LVZ, "LVZ");
        push_flag_name(&mut names, self.bits, EX_LBT, "LBT");
        push_flag_name(&mut names, self.bits, EX_PRIV, "PRIV");
        assert(names@.map_values(|x: String| x@) =~= extension_names(self.bits));
        join_strings(&names, "_")
    }
}

impl Default for ExtensionFlags {
    /// The base integer instructions alone.
    fn default() -> (r: ExtensionFlags)
        ensures
            r.bits == EX_BASE,
    {
        ExtensionFlags { bits: EX_BASE }
    }
}

/// How an argument of an instruction form is matched.
#[derive(Debug, Clone, Copy, PartialEq, Eq, Structural)]
pub enum Matcher {
    /// A general purpose register.
    R,
    /// A floating point register.
    F,
    /// A specific register.
    Reg(RegId),
    /// An indirect reference through a register.
    Ref,
    /// An indirect reference with an offset.
    RefOffset,
    /// An indirect reference with a label offset.
    RefLabel,
    /// An immediate value.
    Imm,
    /// A jump offset.
    Offset,
    /// An identifier.
    Ident,
    /// A floating point condition flag register.
    C,
    /// A binary translation scratch register.
    T,
    /// An LSX vector register.
    V,
    /// An LSX or LASX vector register.
    X,
    /// A floating point control and status register.
    FCSR,
}

/// A relocation that an instruction form's jump offset needs.
#[derive(Debug, Clone, Copy, PartialEq, Eq, Structural)]
#[allow(non_camel_case_types)]
pub enum Relocation {
    /// Branches with a 16-bit offset in 4-byte units (`beq`, `bne`, `jirl`).
    B16,
    /// Branches with a 21-bit offset in 4-byte units (`beqz`, `bnez`, `bceqz`, `bcnez`).
    B21,
    /// Jumps with a 26-bit offset in 4-byte units (`b`, `bl`).
    B26,
    /// A raw 20-bit field at [24:5] (`lu12i.w`, `lu32i.d`).
    ABS_HI20,
    /// A 14-bit offset in 4-byte units at [23:10] (`ll`, `sc`, `ldptr`, `stptr`).
    SI14,
    /// A 12-bit signed offset at [21:10].
    SI12,
    /// The low 12 bits of a PC-relative offset at [21:10].
    PCALA_LO12,
    /// The high 20 bits of a PC-relative offset at [24:5] (`pcalau12i`).
    PCALA_HI20,
    /// `pcaddi`: the offset in 4-byte units at [24:5].
    PCADD_SHIFT2,
    /// `pcaddu12i`: the offset in 4096-byte units at [24:5].
    PCADD_SHIFT12,
    /// `pcaddu18i`: the offset in 2^18-byte units at [24:5].
    PCADD_SHIFT18,
    /// `pcalau12i` and `addi.d`: a 32-bit offset split over two instructions.
    SPLIT_PCALA,
    /// `pcaddu12i` and `jirl`: a 32-bit call offset split over two instructions.
    SPLIT_CALL30,
    /// `pcaddu18i` and `jirl`: a 38-bit call offset split over two instructions.
    SPLIT_CALL36,
    /// An 8-bit literal.
    LITERAL8,
    /// A 16-bit literal.
    LITERAL16,
    /// A 32-bit literal.
    LITERAL32,
    /// A 64-bit literal.
    LITERAL64,
}

impl Relocation {
    /// The relocation's identifier in the encoded relocation stream.
    pub open spec fn spec_id(self) -> u8 {
        match self {
            Relocation::B16 => 0,
            Relocation::B21 => 1,
            Relocation::B26 => 2,
            Relocation::ABS_HI20 => 4,
            Relocation::SI14 => 5,
            Relocation::SI12 => 7,
            Relocation::PCALA_LO12 => 8,
            Relocation::LITERAL8 => 9,
            Relocation::LITERAL16 => 10,
            Relocation::LITERAL32 => 11,
            Relocation::LITERAL64 => 12,
            Relocation::PCALA_HI20 => 13,
            Relocation::PCADD_SHIFT2 => 14,
            Relocation::PCADD_SHIFT12 => 15,
            Relocation::PCADD_SHIFT18 => 16,
            Relocation::SPLIT_PCALA => 17,
            Relocation::SPLIT_CALL30 => 18,
            Relocation::SPLIT_CALL36 => 19,
        }
    }

    /// The number of bytes the relocation covers.
    pub open spec fn spec_size(self) -> u8 {
        match self {
            Relocation::LITERAL8 => 1,
            Relocation::LITERAL16 => 2,
            Relocation::LITERAL64 => 8,
            Relocation::SPLIT_PCALA | Relocation::SPLIT_CALL30 | Relocation::SPLIT_CALL36 => 8,
            _ => 4,
        }
    }

    /// The relocation's identifier in the encoded relocation stream.
    pub fn to_id(self) -> (r: u8)
        ensures
            r == self.spec_id(),
    {
        match self {
            Relocation::B16 => 0,
            Relocation::B21 => 1,
            Relocation::B26 => 2,
            Relocation::ABS_HI20 => 4,
            Relocation::SI14 => 5,
            Relocation::SI12 => 7,
            Relocation::PCALA_LO12 => 8,
            Relocation::LITERAL8 => 9,
            Relocation::LITERAL16 => 10,
            Relocation::LITERAL32 => 11,
            Relocation::LITERAL64 => 12,
            Relocation::PCALA_HI20 => 13,
            Relocation::PCADD_SHIFT2 => 14,
            Relocation::PCADD_SHIFT12 => 15,
            Relocation::PCADD_SHIFT18 => 16,
            Relocation::SPLIT_PCALA => 17,
            Relocation::SPLIT_CALL30 => 18,
            Relocation::SPLIT_CALL36 => 19,
        }
    }

    /// The number of bytes the relocation covers: the literal's size, 8 for the two-word
    /// relocations, 4 for the others.
    pub fn size(self) -> (r: u8)
        ensures
            r == self.spec_size(),
    {
        match self {
            Relocation::LITERAL8 => 1,
            Relocation::LITERAL16 => 2,
            Relocation::LITERAL64 => 8,
            Relocation::SPLIT_PCALA | Relocation::SPLIT_CALL30 | Relocation::SPLIT_CALL36 => 8,
            _ => 4,
        }
    }
}

/// Distinct relocations have distinct identifiers.
pub proof fn lemma_relocation_ids_distinct(a: Relocation, b: Relocation)
    requires
        a.spec_id() == b.spec_id(),
    ensures
        a == b,
{
}

/// How the arguments of an instruction form are encoded.
#[derive(Debug, Clone, Copy)]
pub enum Command {
    /// Use the same argument again.
    Repeat,
    /// Go on to the next argument.
    Next,
    /// A 5-bit register field at the given bit offset.
    R(u8),
    /// A 5-bit register field at the given bit offset that cannot be r0.
    Rno0(u8),
    /// A 5-bit register field that should differ from the previous register.
    Rdiff(u8),
    /// A 5-bit floating point register field at the given bit offset.
    F(u8),
    /// A condition flag register field at the given bit offset.
    C(u8),
    /// A scratch register field at the given bit offset.
    T(u8),
    /// An LSX vector register field at the given bit offset.
    V(u8),
    /// An LASX vector register field at the given bit offset.
    X(u8),
    /// A floating point control and status register field at the given bit offset.
    FCSR(u8),
    /// An unsigned immediate field: offset and bit count.
    UImm(u8, u8),
    /// A signed immediate field: offset and bit count.
    SImm(u8, u8),
    /// An unsigned immediate split over fields: (offset, bit count) pairs.
    Ufields(&'static [u8]),
    /// A signed immediate split over fields: (offset, bit count) pairs, the most significant
    /// first.
    Sfields(&'static [u8]),
    /// An unsigned immediate added to the previous one: offset and bit count.
    Usum(u8, u8),
    /// An unsigned immediate at most the previous one: offset and bit count.
    Ulep(u8, u8),
    /// An immediate in units of `2^scale`: offset, bit count and scale. Its range is
    /// checked as that of a signed field of its width, as for `Sscaled`.
    Uscaled(u8, u8, u8),
    /// A signed immediate in units of `2^scale`: offset, bit count and scale.
    Sscaled(u8, u8, u8),
    /// An unsigned immediate stored less one: offset and bit count.
    Usubone(u8, u8),
    /// A jump offset.
    Offset(Relocation),
    /// A signed immediate of the given bit width, split by the bit ranges that follow.
    BigImm(u8),
    /// A bit range of the preceding wide immediate: offset, bit count and shift.
    BitRange(u8, u8, u8),
    /// A bit range of the preceding wide immediate, rounded: offset, bit count and shift.
    RBitRange(u8, u8, u8),
    /// `li.w`: a 32-bit immediate loaded by `lu12i.w` and `ori`.
    LiW32,
    /// `li.d`: a 64-bit immediate loaded by `lu12i.w`, `ori`, `lu32i.d` and `lu52i.d`.
    LiD64,
}

/// One form of an instruction.
#[derive(Debug, Clone)]
pub struct Opdata {
    /// The base template for the encoding.
    pub template: Template,
    /// The ISA targets this form is valid for.
    pub isa_flags: ISAFlags,
    /// The sets of extensions, any one of which enables this form.
    pub ext_flags: Vec<ExtensionFlags>,
    /// Matchers for the instruction's arguments.
    pub matchers: Vec<Matcher>,
    /// Encoding commands.
    pub commands: Vec<Command>,
}

} // verus!
