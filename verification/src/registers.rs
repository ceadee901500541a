//! The register banks of the LoongArch target, as the run-time assembler names them.

use vstd::prelude::*;

verus! {

/// General purpose registers (r0-r31).
#[derive(Debug, Clone, Copy, PartialEq, Eq, Hash, Structural)]
pub enum R {
    R0,
    R1,
    R2,
    R3,
    R4,
    R5,
    R6,
    R7,
    R8,
    R9,
    R10,
    R11,
    R12,
    R13,
    R14,
    R15,
    R16,
    R17,
    R18,
    R19,
    R20,
    R21,
    R22,
    R23,
    R24,
    R25,
    R26,
    R27,
    R28,
    R29,
    R30,
    R31,
}

impl R {
    /// The register's number in its bank.
    pub open spec fn spec_code(self) -> u8 {
        match self {
            R::R0 => 0,
            R::R1 => 1,
            R::R2 => 2,
            R::R3 => 3,
            R::R4 => 4,
            R::R5 => 5,
            R::R6 => 6,
            R::R7 => 7,
            R::R8 => 8,
            R::R9 => 9,
            R::R10 => 10,
            R::R11 => 11,
            R::R12 => 12,
            R::R13 => 13,
            R::R14 => 14,
            R::R15 => 15,
            R::R16 => 16,
            R::R17 => 17,
            R::R18 => 18,
            R::R19 => 19,
            R::R20 => 20,
            R::R21 => 21,
            R::R22 => 22,
            R::R23 => 23,
            R::R24 => 24,
            R::R25 => 25,
            R::R26 => 26,
            R::R27 => 27,
            R::R28 => 28,
            R::R29 => 29,
            R::R30 => 30,
            R::R31 => 31,
        }
    }

    /// The register's number in its bank, as encoded in an instruction.
    pub fn code(&self) -> (r: u8)
        ensures
            r == self.spec_code(),
            r < 32,
    {
        match self {
            R::R0 => 0,
            R::R1 => 1,
            R::R2 => 2,
            R::R3 => 3,
            R::R4 => 4,
            R::R5 => 5,
            R::R6 => 6,
            R::R7 => 7,
            R::R8 => 8,
            R::R9 => 9,
            R::R10 => 10,
            R::R11 => 11,
            R::R12 => 12,
            R::R13 => 13,
            R::R14 => 14,
            R::R15 => 15,
            R::R16 => 16,
            R::R17 => 17,
            R::R18 => 18,
            R::R19 => 19,
            R::R20 => 20,
            R::R21 => 21,
            R::R22 => 22,
            R::R23 => 23,
            R::R24 => 24,
            R::R25 => 25,
            R::R26 => 26,
            R::R27 => 27,
            R::R28 => 28,
            R::R29 => 29,
            R::R30 => 30,
            R::R31 => 31,
        }
    }
}

/// LSX 128-bit vector registers (v0-v31).
#[derive(Debug, Clone, Copy, PartialEq, Eq, Hash, Structural)]
pub enum RV {
    V0,
    V1,
    V2,
    V3,
    V4,
    V5,
    V6,
    V7,
    V8,
    V9,
    V10,
    V11,
    V12,
    V13,
    V14,
    V15,
    V16,
    V17,
    V18,
    V19,
    V20,
    V21,
    V22,
    V23,
    V24,
    V25,
    V26,
    V27,
    V28,
    V29,
    V30,
    V31,
}

impl RV {
    /// The register's number in its bank.
    pub open spec fn spec_code(self) -> u8 {
        match self {
            RV::V0 => 0,
            RV::V1 => 1,
            RV::V2 => 2,
            RV::V3 => 3,
            RV::V4 => 4,
            RV::V5 => 5,
            RV::V6 => 6,
            RV::V7 => 7,
            RV::V8 => 8,
            RV::V9 => 9,
            RV::V10 => 10,
            RV::V11 => 11,
            RV::V12 => 12,
            RV::V13 => 13,
            RV::V14 => 14,
            RV::V15 => 15,
            RV::V16 => 16,
            RV::V17 => 17,
            RV::V18 => 18,
            RV::V19 => 19,
            RV::V20 => 20,
            RV::V21 => 21,
            RV::V22 => 22,
            RV::V23 => 23,
            RV::V24 => 24,
            RV::V25 => 25,
            RV::V26 => 26,
            RV::V27 => 27,
            RV::V28 => 28,
            RV::V29 => 29,
            RV::V30 => 30,
            RV::V31 => 31,
        }
    }

    /// The register's number in its bank, as encoded in an instruction.
    pub fn code(&self) -> (r: u8)
        ensures
            r == self.spec_code(),
            r < 32,
    {
        match self {
            RV::V0 => 0,
            RV::V1 => 1,
            RV::V2 => 2,
            RV::V3 => 3,
            RV::V4 => 4,
            RV::V5 => 5,
            RV::V6 => 6,
            RV::V7 => 7,
            RV::V8 => 8,
            RV::V9 => 9,
            RV::V10 => 10,
            RV::V11 => 11,
            RV::V12 => 12,
            RV::V13 => 13,
            RV::V14 => 14,
            RV::V15 => 15,
            RV::V16 => 16,
            RV::V17 => 17,
            RV::V18 => 18,
            RV::V19 => 19,
            RV::V20 => 20,
            RV::V21 => 21,
            RV::V22 => 22,
            RV::V23 => 23,
            RV::V24 => 24,
            RV::V25 => 25,
            RV::V26 => 26,
            RV::V27 => 27,
            RV::V28 => 28,
            RV::V29 => 29,
            RV::V30 => 30,
            RV::V31 => 31,
        }
    }
}

/// Floating point registers (f0-f31).
#[derive(Debug, Clone, Copy, PartialEq, Eq, Hash, Structural)]
pub enum FR {
    F0,
    F1,
    F2,
    F3,
    F4,
    F5,
    F6,
    F7,
    F8,
    F9,
    F10,
    F11,
    F12,
    F13,
    F14,
    F15,
    F16,
    F17,
    F18,
    F19,
    F20,
    F21,
    F22,
    F23,
    F24,
    F25,
    F26,
    F27,
    F28,
    F29,
    F30,
    F31,
}

impl FR {
    /// The register's number in its bank.
    pub open spec fn spec_code(self) -> u8 {
        match self {
            FR::F0 => 0,
            FR::F1 => 1,
            FR::F2 => 2,
            FR::F3 => 3,
            FR::F4 => 4,
            FR::F5 => 5,
            FR::F6 => 6,
            FR::F7 => 7,
            FR::F8 => 8,
            FR::F9 => 9,
            FR::F10 => 10,
            FR::F11 => 11,
            FR::F12 => 12,
            FR::F13 => 13,
            FR::F14 => 14,
            FR::F15 => 15,
            FR::F16 => 16,
            FR::F17 => 17,
            FR::F18 => 18,
            FR::F19 => 19,
            FR::F20 => 20,
            FR::F21 => 21,
            FR::F22 => 22,
            FR::F23 => 23,
            FR::F24 => 24,
            FR::F25 => 25,
            FR::F26 => 26,
            FR::F27 => 27,
            FR::F28 => 28,
            FR::F29 => 29,
            FR::F30 => 30,
            FR::F31 => 31,
        }
    }

    /// The register's number in its bank, as encoded in an instruction.
    pub fn code(&self) -> (r: u8)
        ensures
            r == self.spec_code(),
            r < 32,
    {
        match self {
            FR::F0 => 0,
            FR::F1 => 1,
            FR::F2 => 2,
            FR::F3 => 3,
            FR::F4 => 4,
            FR::F5 => 5,
            FR::F6 => 6,
            FR::F7 => 7,
            FR::F8 => 8,
            FR::F9 => 9,
            FR::F10 => 10,
            FR::F11 => 11,
            FR::F12 => 12,
            FR::F13 => 13,
            FR::F14 => 14,
            FR::F15 => 15,
            FR::F16 => 16,
            FR::F17 => 17,
            FR::F18 => 18,
            FR::F19 => 19,
            FR::F20 => 20,
            FR::F21 => 21,
            FR::F22 => 22,
            FR::F23 => 23,
            FR::F24 => 24,
            FR::F25 => 25,
            FR::F26 => 26,
            FR::F27 => 27,
            FR::F28 => 28,
            FR::F29 => 29,
            FR::F30 => 30,
            FR::F31 => 31,
        }
    }
}

/// Floating point condition code registers (fcc0-fcc7).
#[derive(Debug, Clone, Copy, PartialEq, Eq, Hash, Structural)]
pub enum FCCR {
    FCC0,
    FCC1,
    FCC2,
    FCC3,
    FCC4,
    FCC5,
    FCC6,
    FCC7,
}

impl FCCR {
    /// The register's number in its bank.
    pub open spec fn spec_code(self) -> u8 {
        match self {
            FCCR::FCC0 => 0,
            FCCR::FCC1 => 1,
            FCCR::FCC2 => 2,
            FCCR::FCC3 => 3,
            FCCR::FCC4 => 4,
            FCCR::FCC5 => 5,
            FCCR::FCC6 => 6,
            FCCR::FCC7 => 7,
        }
    }

    /// The register's number in its bank, as encoded in an instruction.
    pub fn code(&self) -> (r: u8)
        ensures
            r == self.spec_code(),
            r < 8,
    {
        match self {
            FCCR::FCC0 => 0,
            FCCR::FCC1 => 1,
            FCCR::FCC2 => 2,
            FCCR::FCC3 => 3,
            FCCR::FCC4 => 4,
            FCCR::FCC5 => 5,
            FCCR::FCC6 => 6,
            FCCR::FCC7 => 7,
        }
    }
}

/// Floating point control and status registers (fcsr0-fcsr3).
#[derive(Debug, Clone, Copy, PartialEq, Eq, Hash, Structural)]
pub enum FCSR {
    FCSR0,
    FCSR1,
    FCSR2,
    FCSR3,
}

impl FCSR {
    /// The register's number in its bank.
    pub open spec fn spec_code(self) -> u8 {
        match self {
            FCSR::FCSR0 => 0,
            FCSR::FCSR1 => 1,
            FCSR::FCSR2 => 2,
            FCSR::FCSR3 => 3,
        }
    }

    /// The register's number in its bank, as encoded in an instruction.
    pub fn code(&self) -> (r: u8)
        ensures
            r == self.spec_code(),
            r < 4,
    {
        match self {
            FCSR::FCSR0 => 0,
            FCSR::FCSR1 => 1,
            FCSR::FCSR2 => 2,
            FCSR::FCSR3 => 3,
        }
    }
}

/// LASX 256-bit vector registers (x0-x31).
#[derive(Debug, Clone, Copy, PartialEq, Eq, Hash, Structural)]
pub enum XR {
    X0,
    X1,
    X2,
    X3,
    X4,
    X5,
    X6,
    X7,
    X8,
    X9,
    X10,
    X11,
    X12,
    X13,
    X14,
    X15,
    X16,
    X17,
    X18,
    X19,
    X20,
    X21,
    X22,
    X23,
    X24,
    X25,
    X26,
    X27,
    X28,
    X29,
    X30,
    X31,
}

impl XR {
    /// The register's number in its bank.
    pub open spec fn spec_code(self) -> u8 {
        match self {
            XR::X0 => 0,
            XR::X1 => 1,
            XR::X2 => 2,
            XR::X3 => 3,
            XR::X4 => 4,
            XR::X5 => 5,
            XR::X6 => 6,
            XR::X7 => 7,
            XR::X8 => 8,
            XR::X9 => 9,
            XR::X10 => 10,
            XR::X11 => 11,
            XR::X12 => 12,
            XR::X13 => 13,
            XR::X14 => 14,
            XR::X15 => 15,
            XR::X16 => 16,
            XR::X17 => 17,
            XR::X18 => 18,
            XR::X19 => 19,
            XR::X20 => 20,
            XR::X21 => 21,
            XR::X22 => 22,
            XR::X23 => 23,
            XR::X24 => 24,
            XR::X25 => 25,
            XR::X26 => 26,
            XR::X27 => 27,
            XR::X28 => 28,
            XR::X29 => 29,
            XR::X30 => 30,
            XR::X31 => 31,
        }
    }

    /// The register's number in its bank, as encoded in an instruction.
    pub fn code(&self) -> (r: u8)
        ensures
            r == self.spec_code(),
            r < 32,
    {
        match self {
            XR::X0 => 0,
            XR::X1 => 1,
            XR::X2 => 2,
            XR::X3 => 3,
            XR::X4 => 4,
            XR::X5 => 5,
            XR::X6 => 6,
            XR::X7 => 7,
            XR::X8 => 8,
            XR::X9 => 9,
            XR::X10 => 10,
            XR::X11 => 11,
            XR::X12 => 12,
            XR::X13 => 13,
            XR::X14 => 14,
            XR::X15 => 15,
            XR::X16 => 16,
            XR::X17 => 17,
            XR::X18 => 18,
            XR::X19 => 19,
            XR::X20 => 20,
            XR::X21 => 21,
            XR::X22 => 22,
            XR::X23 => 23,
            XR::X24 => 24,
            XR::X25 => 25,
            XR::X26 => 26,
            XR::X27 => 27,
            XR::X28 => 28,
            XR::X29 => 29,
            XR::X30 => 30,
            XR::X31 => 31,
        }
    }
}

} // verus!
