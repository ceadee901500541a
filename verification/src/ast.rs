//! Registers of the LoongArch assembly language: their identities, families and 5-bit
//! codes.

use vstd::prelude::*;
use crate::text::{decimal, push_str, push_decimal};

verus! {

/// The register banks.
#[derive(Debug, Clone, Copy, PartialEq, Eq, Hash, Structural)]
pub enum RegFamily {
    /// General purpose registers r0-r31.
    INTEGER,
    /// Floating point registers f0-f31.
    FP,
    /// LSX 128-bit vector registers v0-v31.
    LSX,
    /// LASX 256-bit vector registers x0-x31.
    LASX,
    /// Floating point condition flags fcc0-fcc7.
    FCC,
    /// Floating point control and status registers fcsr0-fcsr3.
    FCSR,
}

/// The family of the registers whose one-byte identifiers lie in block `block` of 32.
pub open spec fn family_of_block(block: int) -> RegFamily {
    if block == 0 {
        RegFamily::INTEGER
    } else if block == 1 {
        RegFamily::FP
    } else if block == 2 {
        RegFamily::LSX
    } else if block == 3 {
        RegFamily::FCC
    } else if block == 4 {
        RegFamily::FCSR
    } else {
        RegFamily::LASX
    }
}

/// The name prefix of a register family.
pub open spec fn family_prefix(family: RegFamily) -> Seq<char> {
    match family {
        RegFamily::INTEGER => "r"@,
        RegFamily::FP => "f"@,
        RegFamily::LSX => "v"@,
        RegFamily::LASX => "x"@,
        RegFamily::FCC => "fcc"@,
        RegFamily::FCSR => "fcsr"@,
    }
}

/// A specific register.
#[derive(Debug, Clone, Copy, PartialEq, Eq, Hash, Structural)]
pub enum RegId {
    R0,
    R1,
    R2,
    R3,
    R4,
    R5,
    R6,
    R7,
    R8,
    R9,
    R10,
    R11,
    R12,
    R13,
    R14,
    R15,
    R16,
    R17,
    R18,
    R19,
    R20,
    R21,
    R22,
    R23,
    R24,
    R25,
    R26,
    R27,
    R28,
    R29,
    R30,
    R31,
    F0,
    F1,
    F2,
    F3,
    F4,
    F5,
    F6,
    F7,
    F8,
    F9,
    F10,
    F11,
    F12,
    F13,
    F14,
    F15,
    F16,
    F17,
    F18,
    F19,
    F20,
    F21,
    F22,
    F23,
    F24,
    F25,
    F26,
    F27,
    F28,
    F29,
    F30,
    F31,
    V0,
    V1,
    V2,
    V3,
    V4,
    V5,
    V6,
    V7,
    V8,
    V9,
    V10,
    V11,
    V12,
    V13,
    V14,
    V15,
    V16,
    V17,
    V18,
    V19,
    V20,
    V21,
    V22,
    V23,
    V24,
    V25,
    V26,
    V27,
    V28,
    V29,
    V30,
    V31,
    X0,
    X1,
    X2,
    X3,
    X4,
    X5,
    X6,
    X7,
    X8,
    X9,
    X10,
    X11,
    X12,
    X13,
    X14,
    X15,
    X16,
    X17,
    X18,
    X19,
    X20,
    X21,
    X22,
    X23,
    X24,
    X25,
    X26,
    X27,
    X28,
    X29,
    X30,
    X31,
    FCC0,
    FCC1,
    FCC2,
    FCC3,
    FCC4,
    FCC5,
    FCC6,
    FCC7,
    FCSR0,
    FCSR1,
    FCSR2,
    FCSR3,
}

impl RegId {
    /// The register's one-byte identifier: its family's block of 32 and its code in it
    /// (r: 0x00, f: 0x20, v: 0x40, fcc: 0x60, fcsr: 0x80, x: 0xA0).
    pub open spec fn spec_id(self) -> u8 {
        match self {
            RegId::R0 => 0x00,
            RegId::R1 => 0x01,
            RegId::R2 => 0x02,
            RegId::R3 => 0x03,
            RegId::R4 => 0x04,
            RegId::R5 => 0x05,
            RegId::R6 => 0x06,
            RegId::R7 => 0x07,
            RegId::R8 => 0x08,
            RegId::R9 => 0x09,
            RegId::R10 => 0x0a,
            RegId::R11 => 0x0b,
            RegId::R12 => 0x0c,
            RegId::R13 => 0x0d,
            RegId::R14 => 0x0e,
            RegId::R15 => 0x0f,
            RegId::R16 => 0x10,
            RegId::R17 => 0x11,
            RegId::R18 => 0x12,
            RegId::R19 => 0x13,
            RegId::R20 => 0x14,
            RegId::R21 => 0x15,
            RegId::R22 => 0x16,
            RegId::R23 => 0x17,
            RegId::R24 => 0x18,
            RegId::R25 => 0x19,
            RegId::R26 => 0x1a,
            RegId::R27 => 0x1b,
            RegId::R28 => 0x1c,
            RegId::R29 => 0x1d,
            RegId::R30 => 0x1e,
            RegId::R31 => 0x1f,
            RegId::F0 => 0x20,
            RegId::F1 => 0x21,
            RegId::F2 => 0x22,
            RegId::F3 => 0x23,
            RegId::F4 => 0x24,
            RegId::F5 => 0x25,
            RegId::F6 => 0x26,
            RegId::F7 => 0x27,
            RegId::F8 => 0x28,
            RegId::F9 => 0x29,
            RegId::F10 => 0x2a,
            RegId::F11 => 0x2b,
            RegId::F12 => 0x2c,
            RegId::F13 => 0x2d,
            RegId::F14 => 0x2e,
            RegId::F15 => 0x2f,
            RegId::F16 => 0x30,
            RegId::F17 => 0x31,
            RegId::F18 => 0x32,
            RegId::F19 => 0x33,
            RegId::F20 => 0x34,
            RegId::F21 => 0x35,
            RegId::F22 => 0x36,
            RegId::F23 => 0x37,
            RegId::F24 => 0x38,
            RegId::F25 => 0x39,
            RegId::F26 => 0x3a,
            RegId::F27 => 0x3b,
            RegId::F28 => 0x3c,
            RegId::F29 => 0x3d,
            RegId::F30 => 0x3e,
            RegId::F31 => 0x3f,
            RegId::V0 => 0x40,
            RegId::V1 => 0x41,
            RegId::V2 => 0x42,
            RegId::V3 => 0x43,
            RegId::V4 => 0x44,
            RegId::V5 => 0x45,
            RegId::V6 => 0x46,
            RegId::V7 => 0x47,
            RegId::V8 => 0x48,
            RegId::V9 => 0x49,
            RegId::V10 => 0x4a,
            RegId::V11 => 0x4b,
            RegId::V12 => 0x4c,
            RegId::V13 => 0x4d,
            RegId::V14 => 0x4e,
            RegId::V15 => 0x4f,
            RegId::V16 => 0x50,
            RegId::V17 => 0x51,
            RegId::V18 => 0x52,
            RegId::V19 => 0x53,
            RegId::V20 => 0x54,
            RegId::V21 => 0x55,
            RegId::V22 => 0x56,
            RegId::V23 => 0x57,
            RegId::V24 => 0x58,
            RegId::V25 => 0x59,
            RegId::V26 => 0x5a,
            RegId::V27 => 0x5b,
            RegId::V28 => 0x5c,
            RegId::V29 => 0x5d,
            RegId::V30 => 0x5e,
            RegId::V31 => 0x5f,
            RegId::X0 => 0xa0,
            RegId::X1 => 0xa1,
            RegId::X2 => 0xa2,
            RegId::X3 => 0xa3,
            RegId::X4 => 0xa4,
            RegId::X5 => 0xa5,
            RegId::X6 => 0xa6,
            RegId::X7 => 0xa7,
            RegId::X8 => 0xa8,
            RegId::X9 => 0xa9,
            RegId::X10 => 0xaa,
            RegId::X11 => 0xab,
            RegId::X12 => 0xac,
            RegId::X13 => 0xad,
            RegId::X14 => 0xae,
            RegId::X15 => 0xaf,
            RegId::X16 => 0xb0,
            RegId::X17 => 0xb1,
            RegId::X18 => 0xb2,
            RegId::X19 => 0xb3,
            RegId::X20 => 0xb4,
            RegId::X21 => 0xb5,
            RegId::X22 => 0xb6,
            RegId::X23 => 0xb7,
            RegId::X24 => 0xb8,
            RegId::X25 => 0xb9,
            RegId::X26 => 0xba,
            RegId::X27 => 0xbb,
            RegId::X28 => 0xbc,
            RegId::X29 => 0xbd,
            RegId::X30 => 0xbe,
            RegId::X31 => 0xbf,
            RegId::FCC0 => 0x60,
            RegId::FCC1 => 0x61,
            RegId::FCC2 => 0x62,
            RegId::FCC3 => 0x63,
            RegId::FCC4 => 0x64,
            RegId::FCC5 => 0x65,
            RegId::FCC6 => 0x66,
            RegId::FCC7 => 0x67,
            RegId::FCSR0 => 0x80,
            RegId::FCSR1 => 0x81,
            RegId::FCSR2 => 0x82,
            RegId::FCSR3 => 0x83,
        }
    }

    /// The register with a given one-byte identifier.
    pub open spec fn from_id(id: u8) -> Option<RegId> {
        match id {
            0x00 => Some(RegId::R0),
            0x01 => Some(RegId::R1),
            0x02 => Some(RegId::R2),
            0x03 => Some(RegId::R3),
            0x04 => Some(RegId::R4),
            0x05 => Some(RegId::R5),
            0x06 => Some(RegId::R6),
            0x07 => Some(RegId::R7),
            0x08 => Some(RegId::R8),
            0x09 => Some(RegId::R9),
            0x0a => Some(RegId::R10),
            0x0b => Some(RegId::R11),
            0x0c => Some(RegId::R12),
            0x0d => Some(RegId::R13),
            0x0e => Some(RegId::R14),
            0x0f => Some(RegId::R15),
            0x10 => Some(RegId::R16),
            0x11 => Some(RegId::R17),
            0x12 => Some(RegId::R18),
            0x13 => Some(RegId::R19),
            0x14 => Some(RegId::R20),
            0x15 => Some(RegId::R21),
            0x16 => Some(RegId::R22),
            0x17 => Some(RegId::R23),
            0x18 => Some(RegId::R24),
            0x19 => Some(RegId::R25),
            0x1a => Some(RegId::R26),
            0x1b => Some(RegId::R27),
            0x1c => Some(RegId::R28),
            0x1d => Some(RegId::R29),
            0x1e => Some(RegId::R30),
            0x1f => Some(RegId::R31),
            0x20 => Some(RegId::F0),
            0x21 => Some(RegId::F1),
            0x22 => Some(RegId::F2),
            0x23 => Some(RegId::F3),
            0x24 => Some(RegId::F4),
            0x25 => Some(RegId::F5),
            0x26 => Some(RegId::F6),
            0x27 => Some(RegId::F7),
            0x28 => Some(RegId::F8),
            0x29 => Some(RegId::F9),
            0x2a => Some(RegId::F10),
            0x2b => Some(RegId::F11),
            0x2c => Some(RegId::F12),
            0x2d => Some(RegId::F13),
            0x2e => Some(RegId::F14),
            0x2f => Some(RegId::F15),
            0x30 => Some(RegId::F16),
            0x31 => Some(RegId::F17),
            0x32 => Some(RegId::F18),
            0x33 => Some(RegId::F19),
            0x34 => Some(RegId::F20),
            0x35 => Some(RegId::F21),
            0x36 => Some(RegId::F22),
            0x37 => Some(RegId::F23),
            0x38 => Some(RegId::F24),
            0x39 => Some(RegId::F25),
            0x3a => Some(RegId::F26),
            0x3b => Some(RegId::F27),
            0x3c => Some(RegId::F28),
            0x3d => Some(RegId::F29),
            0x3e => Some(RegId::F30),
            0x3f => Some(RegId::F31),
            0x40 => Some(RegId::V0),
            0x41 => Some(RegId::V1),
            0x42 => Some(RegId::V2),
            0x43 => Some(RegId::V3),
            0x44 => Some(RegId::V4),
            0x45 => Some(RegId::V5),
            0x46 => Some(RegId::V6),
            0x47 => Some(RegId::V7),
            0x48 => Some(RegId::V8),
            0x49 => Some(RegId::V9),
            0x4a => Some(RegId::V10),
            0x4b => Some(RegId::V11),
            0x4c => Some(RegId::V12),
            0x4d => Some(RegId::V13),
            0x4e => Some(RegId::V14),
            0x4f => Some(RegId::V15),
            0x50 => Some(RegId::V16),
            0x51 => Some(RegId::V17),
            0x52 => Some(RegId::V18),
            0x53 => Some(RegId::V19),
            0x54 => Some(RegId::V20),
            0x55 => Some(RegId::V21),
            0x56 => Some(RegId::V22),
            0x57 => Some(RegId::V23),
            0x58 => Some(RegId::V24),
            0x59 => Some(RegId::V25),
            0x5a => Some(RegId::V26),
            0x5b => Some(RegId::V27),
            0x5c => Some(RegId::V28),
            0x5d => Some(RegId::V29),
            0x5e => Some(RegId::V30),
            0x5f => Some(RegId::V31),
            0xa0 => Some(RegId::X0),
            0xa1 => Some(RegId::X1),
            0xa2 => Some(RegId::X2),
            0xa3 => Some(RegId::X3),
            0xa4 => Some(RegId::X4),
            0xa5 => Some(RegId::X5),
            0xa6 => Some(RegId::X6),
            0xa7 => Some(RegId::X7),
            0xa8 => Some(RegId::X8),
            0xa9 => Some(RegId::X9),
            0xaa => Some(RegId::X10),
            0xab => Some(RegId::X11),
            0xac => Some(RegId::X12),
            0xad => Some(RegId::X13),
            0xae => Some(RegId::X14),
            0xaf => Some(RegId::X15),
            0xb0 => Some(RegId::X16),
            0xb1 => Some(RegId::X17),
            0xb2 => Some(RegId::X18),
            0xb3 => Some(RegId::X19),
            0xb4 => Some(RegId::X20),
            0xb5 => Some(RegId::X21),
            0xb6 => Some(RegId::X22),
            0xb7 => Some(RegId::X23),
            0xb8 => Some(RegId::X24),
            0xb9 => Some(RegId::X25),
            0xba => Some(RegId::X26),
            0xbb => Some(RegId::X27),
            0xbc => Some(RegId::X28),
            0xbd => Some(RegId::X29),
            0xbe => Some(RegId::X30),
            0xbf => Some(RegId::X31),
            0x60 => Some(RegId::FCC0),
            0x61 => Some(RegId::FCC1),
            0x62 => Some(RegId::FCC2),
            0x63 => Some(RegId::FCC3),
            0x64 => Some(RegId::FCC4),
            0x65 => Some(RegId::FCC5),
            0x66 => Some(RegId::FCC6),
            0x67 => Some(RegId::FCC7),
            0x80 => Some(RegId::FCSR0),
            0x81 => Some(RegId::FCSR1),
            0x82 => Some(RegId::FCSR2),
            0x83 => Some(RegId::FCSR3),
            _ => None,
        }
    }

    /// The 5-bit code of the register.
    pub open spec fn spec_code(self) -> u8 {
        (self.spec_id() % 32) as u8
    }

    /// The family of the register.
    pub open spec fn spec_family(self) -> RegFamily {
        family_of_block((self.spec_id() / 32) as int)
    }

    /// The register's name: its family's prefix and its code.
    pub open spec fn spec_name(self) -> Seq<char> {
        family_prefix(self.spec_family()) + decimal(self.spec_code() as nat)
    }

    /// The register with a given one-byte identifier.
    pub(crate) fn from_id_exec(id: u8) -> (r: Option<RegId>)
        ensures
            r == RegId::from_id(id),
    {
        match id {
            0x00 => Some(RegId::R0),
            0x01 => Some(RegId::R1),
            0x02 => Some(RegId::R2),
            0x03 => Some(RegId::R3),
            0x04 => Some(RegId::R4),
            0x05 => Some(RegId::R5),
            0x06 => Some(RegId::R6),
            0x07 => Some(RegId::R7),
            0x08 => Some(RegId::R8),
            0x09 => Some(RegId::R9),
            0x0a => Some(RegId::R10),
            0x0b => Some(RegId::R11),
            0x0c => Some(RegId::R12),
            0x0d => Some(RegId::R13),
            0x0e => Some(RegId::R14),
            0x0f => Some(RegId::R15),
            0x10 => Some(RegId::R16),
            0x11 => Some(RegId::R17),
            0x12 => Some(RegId::R18),
            0x13 => Some(RegId::R19),
            0x14 => Some(RegId::R20),
            0x15 => Some(RegId::R21),
            0x16 => Some(RegId::R22),
            0x17 => Some(RegId::R23),
            0x18 => Some(RegId::R24),
            0x19 => Some(RegId::R25),
            0x1a => Some(RegId::R26),
            0x1b => Some(RegId::R27),
            0x1c => Some(RegId::R28),
            0x1d => Some(RegId::R29),
            0x1e => Some(RegId::R30),
            0x1f => Some(RegId::R31),
            0x20 => Some(RegId::F0),
            0x21 => Some(RegId::F1),
            0x22 => Some(RegId::F2),
            0x23 => Some(RegId::F3),
            0x24 => Some(RegId::F4),
            0x25 => Some(RegId::F5),
            0x26 => Some(RegId::F6),
            0x27 => Some(RegId::F7),
            0x28 => Some(RegId::F8),
            0x29 => Some(RegId::F9),
            0x2a => Some(RegId::F10),
            0x2b => Some(RegId::F11),
            0x2c => Some(RegId::F12),
            0x2d => Some(RegId::F13),
            0x2e => Some(RegId::F14),
            0x2f => Some(RegId::F15),
            0x30 => Some(RegId::F16),
            0x31 => Some(RegId::F17),
            0x32 => Some(RegId::F18),
            0x33 => Some(RegId::F19),
            0x34 => Some(RegId::F20),
            0x35 => Some(RegId::F21),
            0x36 => Some(RegId::F22),
            0x37 => Some(RegId::F23),
            0x38 => Some(RegId::F24),
            0x39 => Some(RegId::F25),
            0x3a => Some(RegId::F26),
            0x3b => Some(RegId::F27),
            0x3c => Some(RegId::F28),
            0x3d => Some(RegId::F29),
            0x3e => Some(RegId::F30),
            0x3f => Some(RegId::F31),
            0x40 => Some(RegId::V0),
            0x41 => Some(RegId::V1),
            0x42 => Some(RegId::V2),
            0x43 => Some(RegId::V3),
            0x44 => Some(RegId::V4),
            0x45 => Some(RegId::V5),
            0x46 => Some(RegId::V6),
            0x47 => Some(RegId::V7),
            0x48 => Some(RegId::V8),
            0x49 => Some(RegId::V9),
            0x4a => Some(RegId::V10),
            0x4b => Some(RegId::V11),
            0x4c => Some(RegId::V12),
            0x4d => Some(RegId::V13),
            0x4e => Some(RegId::V14),
            0x4f => Some(RegId::V15),
            0x50 => Some(RegId::V16),
            0x51 => Some(RegId::V17),
            0x52 => Some(RegId::V18),
            0x53 => Some(RegId::V19),
            0x54 => Some(RegId::V20),
            0x55 => Some(RegId::V21),
            0x56 => Some(RegId::V22),
            0x57 => Some(RegId::V23),
            0x58 => Some(RegId::V24),
            0x59 => Some(RegId::V25),
            0x5a => Some(RegId::V26),
            0x5b => Some(RegId::V27),
            0x5c => Some(RegId::V28),
            0x5d => Some(RegId::V29),
            0x5e => Some(RegId::V30),
            0x5f => Some(RegId::V31),
            0xa0 => Some(RegId::X0),
            0xa1 => Some(RegId::X1),
            0xa2 => Some(RegId::X2),
            0xa3 => Some(RegId::X3),
            0xa4 => Some(RegId::X4),
            0xa5 => Some(RegId::X5),
            0xa6 => Some(RegId::X6),
            0xa7 => Some(RegId::X7),
            0xa8 => Some(RegId::X8),
            0xa9 => Some(RegId::X9),
            0xaa => Some(RegId::X10),
            0xab => Some(RegId::X11),
            0xac => Some(RegId::X12),
            0xad => Some(RegId::X13),
            0xae => Some(RegId::X14),
            0xaf => Some(RegId::X15),
            0xb0 => Some(RegId::X16),
            0xb1 => Some(RegId::X17),
            0xb2 => Some(RegId::X18),
            0xb3 => Some(RegId::X19),
            0xb4 => Some(RegId::X20),
            0xb5 => Some(RegId::X21),
            0xb6 => Some(RegId::X22),
            0xb7 => Some(RegId::X23),
            0xb8 => Some(RegId::X24),
            0xb9 => Some(RegId::X25),
            0xba => Some(RegId::X26),
            0xbb => Some(RegId::X27),
            0xbc => Some(RegId::X28),
            0xbd => Some(RegId::X29),
            0xbe => Some(RegId::X30),
            0xbf => Some(RegId::X31),
            0x60 => Some(RegId::FCC0),
            0x61 => Some(RegId::FCC1),
            0x62 => Some(RegId::FCC2),
            0x63 => Some(RegId::FCC3),
            0x64 => Some(RegId::FCC4),
            0x65 => Some(RegId::FCC5),
            0x66 => Some(RegId::FCC6),
            0x67 => Some(RegId::FCC7),
            0x80 => Some(RegId::FCSR0),
            0x81 => Some(RegId::FCSR1),
            0x82 => Some(RegId::FCSR2),
            0x83 => Some(RegId::FCSR3),
            _ => None,
        }
    }

    fn id(self) -> (r: u8)
        ensures
            r == self.spec_id(),
    {
        match self {
            RegId::R0 => 0x00,
            RegId::R1 => 0x01,
            RegId::R2 => 0x02,
            RegId::R3 => 0x03,
            RegId::R4 => 0x04,
            RegId::R5 => 0x05,
            RegId::R6 => 0x06,
            RegId::R7 => 0x07,
            RegId::R8 => 0x08,
            RegId::R9 => 0x09,
            RegId::R10 => 0x0a,
            RegId::R11 => 0x0b,
            RegId::R12 => 0x0c,
            RegId::R13 => 0x0d,
            RegId::R14 => 0x0e,
            RegId::R15 => 0x0f,
            RegId::R16 => 0x10,
            RegId::R17 => 0x11,
            RegId::R18 => 0x12,
            RegId::R19 => 0x13,
            RegId::R20 => 0x14,
            RegId::R21 => 0x15,
            RegId::R22 => 0x16,
            RegId::R23 => 0x17,
            RegId::R24 => 0x18,
            RegId::R25 => 0x19,
            RegId::R26 => 0x1a,
            RegId::R27 => 0x1b,
            RegId::R28 => 0x1c,
            RegId::R29 => 0x1d,
            RegId::R30 => 0x1e,
            RegId::R31 => 0x1f,
            RegId::F0 => 0x20,
            RegId::F1 => 0x21,
            RegId::F2 => 0x22,
            RegId::F3 => 0x23,
            RegId::F4 => 0x24,
            RegId::F5 => 0x25,
            RegId::F6 => 0x26,
            RegId::F7 => 0x27,
            RegId::F8 => 0x28,
            RegId::F9 => 0x29,
            RegId::F10 => 0x2a,
            RegId::F11 => 0x2b,
            RegId::F12 => 0x2c,
            RegId::F13 => 0x2d,
            RegId::F14 => 0x2e,
            RegId::F15 => 0x2f,
            RegId::F16 => 0x30,
            RegId::F17 => 0x31,
            RegId::F18 => 0x32,
            RegId::F19 => 0x33,
            RegId::F20 => 0x34,
            RegId::F21 => 0x35,
            RegId::F22 => 0x36,
            RegId::F23 => 0x37,
            RegId::F24 => 0x38,
            RegId::F25 => 0x39,
            RegId::F26 => 0x3a,
            RegId::F27 => 0x3b,
            RegId::F28 => 0x3c,
            RegId::F29 => 0x3d,
            RegId::F30 => 0x3e,
            RegId::F31 => 0x3f,
            RegId::V0 => 0x40,
            RegId::V1 => 0x41,
            RegId::V2 => 0x42,
            RegId::V3 => 0x43,
            RegId::V4 => 0x44,
            RegId::V5 => 0x45,
            RegId::V6 => 0x46,
            RegId::V7 => 0x47,
            RegId::V8 => 0x48,
            RegId::V9 => 0x49,
            RegId::V10 => 0x4a,
            RegId::V11 => 0x4b,
            RegId::V12 => 0x4c,
            RegId::V13 => 0x4d,
            RegId::V14 => 0x4e,
            RegId::V15 => 0x4f,
            RegId::V16 => 0x50,
            RegId::V17 => 0x51,
            RegId::V18 => 0x52,
            RegId::V19 => 0x53,
            RegId::V20 => 0x54,
            RegId::V21 => 0x55,
            RegId::V22 => 0x56,
            RegId::V23 => 0x57,
            RegId::V24 => 0x58,
            RegId::V25 => 0x59,
            RegId::V26 => 0x5a,
            RegId::V27 => 0x5b,
            RegId::V28 => 0x5c,
            RegId::V29 => 0x5d,
            RegId::V30 => 0x5e,
            RegId::V31 => 0x5f,
            RegId::X0 => 0xa0,
            RegId::X1 => 0xa1,
            RegId::X2 => 0xa2,
            RegId::X3 => 0xa3,
            RegId::X4 => 0xa4,
            RegId::X5 => 0xa5,
            RegId::X6 => 0xa6,
            RegId::X7 => 0xa7,
            RegId::X8 => 0xa8,
            RegId::X9 => 0xa9,
            RegId::X10 => 0xaa,
            RegId::X11 => 0xab,
            RegId::X12 => 0xac,
            RegId::X13 => 0xad,
            RegId::X14 => 0xae,
            RegId::X15 => 0xaf,
            RegId::X16 => 0xb0,
            RegId::X17 => 0xb1,
            RegId::X18 => 0xb2,
            RegId::X19 => 0xb3,
            RegId::X20 => 0xb4,
            RegId::X21 => 0xb5,
            RegId::X22 => 0xb6,
            RegId::X23 => 0xb7,
            RegId::X24 => 0xb8,
            RegId::X25 => 0xb9,
            RegId::X26 => 0xba,
            RegId::X27 => 0xbb,
            RegId::X28 => 0xbc,
            RegId::X29 => 0xbd,
            RegId::X30 => 0xbe,
            RegId::X31 => 0xbf,
            RegId::FCC0 => 0x60,
            RegId::FCC1 => 0x61,
            RegId::FCC2 => 0x62,
            RegId::FCC3 => 0x63,
            RegId::FCC4 => 0x64,
            RegId::FCC5 => 0x65,
            RegId::FCC6 => 0x66,
            RegId::FCC7 => 0x67,
            RegId::FCSR0 => 0x80,
            RegId::FCSR1 => 0x81,
            RegId::FCSR2 => 0x82,
            RegId::FCSR3 => 0x83,
        }
    }

    /// Encodes this register in a 5-bit value.
    pub fn code(self) -> (r: u8)
        ensures
            r == self.spec_code(),
            r < 32,
    {
        let id = self.id();
        proof {
            assert(id & 0x1F == id % 32) by (bit_vector);
        }
        id & 0x1F
    }

    /// The family of this register.
    pub fn family(self) -> (r: RegFamily)
        ensures
            r == self.spec_family(),
    {
        let id = self.id();
        proof {
            assert(id >> 5 == id / 32) by (bit_vector);
        }
        match id >> 5 {
            0 => RegFamily::INTEGER,
            1 => RegFamily::FP,
            2 => RegFamily::LSX,
            3 => RegFamily::FCC,
            4 => RegFamily::FCSR,
            _ => RegFamily::LASX,
        }
    }

    /// The register's name, such as `r4`, `f14`, `fcc2` or `x31`.
    pub fn to_string(self) -> (r: String)
        ensures
            r@ == self.spec_name(),
    {
        let mut r = String::new();
        match self.family() {
            RegFamily::INTEGER => push_str(&mut r, "r"),
            RegFamily::FP => push_str(&mut r, "f"),
            RegFamily::LSX => push_str(&mut r, "v"),
            RegFamily::LASX => push_str(&mut r, "x"),
            RegFamily::FCC => push_str(&mut r, "fcc"),
            RegFamily::FCSR => push_str(&mut r, "fcsr"),
        }
        push_decimal(&mut r, self.code() as u128);
        r
    }
}


/// A register operand: a specific register, or one of a family chosen at run time.
#[derive(Debug, Clone, Copy, PartialEq, Eq, Structural)]
pub enum Register {
    /// A register named in the source.
    Static(RegId),
    /// A register of the family whose number an expression gives at run time.
    Dynamic(RegFamily),
}

impl Register {
    /// The family of the register.
    pub open spec fn spec_family(self) -> RegFamily {
        match self {
            Register::Static(id) => id.spec_family(),
            Register::Dynamic(family) => family,
        }
    }

    /// The 5-bit code of the register, if it is known statically.
    pub fn code(&self) -> (r: Option<u8>)
        ensures
            r == (match *self {
                Register::Static(id) => Some(id.spec_code()),
                Register::Dynamic(_) => None,
            }),
    {
        match self {
            Register::Static(id) => Some(id.code()),
            Register::Dynamic(_) => None,
        }
    }

    /// The family of the register.
    pub fn family(&self) -> (r: RegFamily)
        ensures
            r == self.spec_family(),
    {
        match self {
            Register::Static(id) => id.family(),
            Register::Dynamic(family) => *family,
        }
    }

    /// Whether the register is chosen at run time.
    pub fn is_dynamic(&self) -> (r: bool)
        ensures
            r == (*self is Dynamic),
    {
        match self {
            Register::Static(_) => false,
            Register::Dynamic(_) => true,
        }
    }

    /// The register, if it is named statically.
    pub fn as_id(&self) -> (r: Option<RegId>)
        ensures
            r == (match *self {
                Register::Static(id) => Some(id),
                Register::Dynamic(_) => None,
            }),
    {
        match self {
            Register::Static(id) => Some(*id),
            Register::Dynamic(_) => None,
        }
    }
}

/// What the assembler can tell of an immediate expression before run time.
#[derive(Debug, Clone, Copy, PartialEq, Eq, Structural)]
pub struct ImmExpr {
    /// The value of the expression when it is an integer literal, possibly negated.
    pub number: Option<i64>,
    /// Whether the expression is a bare identifier.
    pub is_ident: bool,
}

/// A jump target.
#[derive(Debug, Clone, Copy, PartialEq, Eq, Structural)]
pub struct Jump {
    /// Whether the target is a bare address outside the assembled code (an external
    /// relocation) rather than a label.
    pub bare: bool,
}

/// A parsed instruction argument.
#[derive(Debug, Clone, Copy, PartialEq, Eq, Structural)]
pub enum RawArg {
    /// An immediate value or an identifier.
    Immediate { value: ImmExpr },
    /// A label target.
    JumpTarget { jump: Jump },
    /// A register.
    Register { reg: Register },
    /// A memory reference through a base register, with an optional offset.
    Reference { offset: Option<ImmExpr>, base: Register },
    /// A PC-relative reference through a base register.
    LabelReference { jump: Jump, base: Register },
}

/// A parsed instruction: its dotted mnemonic and its arguments.
#[derive(Debug, Clone)]
pub struct ParsedInstruction {
    /// The mnemonic, such as `add.w`.
    pub name: String,
    /// The arguments, in order.
    pub args: Vec<RawArg>,
}

/// An argument of a matched instruction form, after references are split into their parts.
#[derive(Debug, Clone, Copy, PartialEq, Eq, Structural)]
pub enum FlatArg {
    /// An immediate.
    Immediate { value: ImmExpr },
    /// A jump target.
    JumpTarget { jump: Jump },
    /// A register.
    Register { reg: Register },
    /// The offset of a reference that has none: zero.
    Default,
}

/// Every register is named by its identifier.
pub proof fn lemma_id_names_register(r: RegId)
    ensures
        RegId::from_id(r.spec_id()) == Some(r),
{
}

/// A register is determined by its family and its 5-bit code: no two registers share both.
pub proof fn lemma_family_and_code_determine_register(a: RegId, b: RegId)
    requires
        a.spec_family() == b.spec_family(),
        a.spec_code() == b.spec_code(),
    ensures
        a == b,
{
    lemma_id_names_register(a);
    lemma_id_names_register(b);
    let (ia, ib) = (a.spec_id() as int, b.spec_id() as int);
    assert(ia / 32 <= 5 && ib / 32 <= 5);
    assert(ia / 32 == ib / 32);
    assert(ia == 32 * (ia / 32) + ia % 32);
    assert(ib == 32 * (ib / 32) + ib % 32);
}

} // verus!
