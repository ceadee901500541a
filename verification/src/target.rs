//! The LoongArch assembling targets and their settings.

use vstd::prelude::*;
use crate::ast::{FlatArg, Jump, ParsedInstruction};
use crate::commands::stmt_views;
use crate::compiler::{
    Stmt, StmtView, compile_instruction_inner, compile_spec, error_arg, error_text,
    handle_static_reloc_inner, match_encodable,
};
use crate::data::{ExtensionFlags, Opdata, EX_BASE};
use crate::debug::table_describable;
use crate::matching::{MatchError, is_match, is_match_error, match_found};
use crate::opmap::OpTable;

verus! {

/// The LoongArch architecture variants.
#[derive(Debug, Clone, Copy, PartialEq, Eq, Structural)]
pub enum LoongArchTarget {
    /// 32-bit LoongArch.
    LA32,
    /// 64-bit LoongArch.
    LA64,
}

impl LoongArchTarget {
    /// Whether this is the 64-bit target.
    pub fn is_64_bit(&self) -> (r: bool)
        ensures
            r == (*self is LA64),
    {
        match self {
            LoongArchTarget::LA32 => false,
            LoongArchTarget::LA64 => true,
        }
    }

    /// Whether this is the 32-bit target: exactly when it is not the 64-bit one.
    pub fn is_32_bit(&self) -> (r: bool)
        ensures
            r == !(*self is LA64),
            r == (*self is LA32),
    {
        !self.is_64_bit()
    }
}

/// The extensions selected by a list of feature names. No feature names are recognized
/// yet: the selection is always the base instruction set.
fn parse_features(_features: &[String]) -> (r: ExtensionFlags)
    ensures
        r.bits == EX_BASE,
{
    ExtensionFlags::default()
}

/// The 64-bit LoongArch assembling target.
#[derive(Clone, Debug)]
pub struct ArchLoongArch64 {
    /// The selected instruction set extensions.
    pub features: ExtensionFlags,
}

impl ArchLoongArch64 {
    /// The target with the base instruction set selected.
    pub fn new() -> (r: ArchLoongArch64)
        ensures
            r.features.bits == EX_BASE,
    {
        ArchLoongArch64 { features: ExtensionFlags::default() }
    }

    /// Selects the extensions that the feature names stand for.
    pub fn set_features(&mut self, features: &[String])
        ensures
            final(self).features.bits == EX_BASE,
    {
        self.features = parse_features(features);
    }

    /// The default alignment: none.
    pub fn default_align(&self) -> (r: u8)
        ensures
            r == 0,
    {
        0
    }

    /// The architecture variant instructions are assembled for.
    pub fn target(&self) -> (r: LoongArchTarget)
        ensures
            r == LoongArchTarget::LA64,
    {
        LoongArchTarget::LA64
    }

    /// Emits the data of a directive whose value is a label: zero bytes and their
    /// relocation.
    pub fn handle_static_reloc(&self, stmts: &mut Vec<Stmt>, jump: Jump, size: u8)
        ensures
            stmt_views(final(stmts)@) == stmt_views(old(stmts)@) + seq![
                StmtView::Zeros(size),
                StmtView::DataRelocation(jump, size),
            ],
    {
        handle_static_reloc_inner(stmts, jump, size);
    }

    /// Assembles a parsed instruction for this target: as `compile_instruction_inner` does
    /// with the target's architecture variant.
    pub fn compile_instruction(&self, table: &OpTable, instruction: ParsedInstruction) -> (r: Result<
        Vec<Stmt>,
        MatchError,
    >)
        requires
            table.wf(),
            table_describable(*table),
            match_encodable(*table, instruction),
        ensures
            !match_found(*table, instruction) ==> (match r {
                Ok(_) => false,
                Err(e) => is_match_error(*table, instruction, e),
            }),
            match_found(*table, instruction) ==> exists|form: Opdata, flat: Seq<FlatArg>|
                #[trigger] is_match(*table, instruction, form, flat) && match compile_spec(form, flat) {
                    Ok(s) => r matches Ok(v) && stmt_views(v@) == s,
                    Err(e) => match r {
                        Err(MatchError::AtArgument { arg, message }) => arg == error_arg(e)
                            && message@ == error_text(e),
                        _ => false,
                    },
                },
    {
        compile_instruction_inner(table, LoongArchTarget::LA64, instruction)
    }
}

/// The 32-bit LoongArch assembling target.
#[derive(Clone, Debug)]
pub struct ArchLoongArch32 {
    /// The selected instruction set extensions.
    pub features: ExtensionFlags,
}

impl ArchLoongArch32 {
    /// The target with the base instruction set selected.
    pub fn new() -> (r: ArchLoongArch32)
        ensures
            r.features.bits == EX_BASE,
    {
        ArchLoongArch32 { features: ExtensionFlags::default() }
    }

    /// Selects the extensions that the feature names stand for.
    pub fn set_features(&mut self, features: &[String])
        ensures
            final(self).features.bits == EX_BASE,
    {
        self.features = parse_features(features);
    }

    /// The default alignment: none.
    pub fn default_align(&self) -> (r: u8)
        ensures
            r == 0,
    {
        0
    }

    /// The architecture variant instructions are assembled for.
    pub fn target(&self) -> (r: LoongArchTarget)
        ensures
            r == LoongArchTarget::LA32,
    {
        LoongArchTarget::LA32
    }

    /// Emits the data of a directive whose value is a label: zero bytes and their
    /// relocation.
    pub fn handle_static_reloc(&self, stmts: &mut Vec<Stmt>, jump: Jump, size: u8)
        ensures
            stmt_views(final(stmts)@) == stmt_views(old(stmts)@) + seq![
                StmtView::Zeros(size),
                StmtView::DataRelocation(jump, size),
            ],
    {
        handle_static_reloc_inner(stmts, jump, size);
    }

    /// Assembles a parsed instruction for this target: as `compile_instruction_inner` does
    /// with the target's architecture variant.
    pub fn compile_instruction(&self, table: &OpTable, instruction: ParsedInstruction) -> (r: Result<
        Vec<Stmt>,
        MatchError,
    >)
        requires
            table.wf(),
            table_describable(*table),
            match_encodable(*table, instruction),
        ensures
            !match_found(*table, instruction) ==> (match r {
                Ok(_) => false,
                Err(e) => is_match_error(*table, instruction, e),
            }),
            match_found(*table, instruction) ==> exists|form: Opdata, flat: Seq<FlatArg>|
                #[trigger] is_match(*table, instruction, form, flat) && match compile_spec(form, flat) {
                    Ok(s) => r matches Ok(v) && stmt_views(v@) == s,
                    Err(e) => match r {
                        Err(MatchError::AtArgument { arg, message }) => arg == error_arg(e)
                            && message@ == error_text(e),
                        _ => false,
                    },
                },
    {
        compile_instruction_inner(table, LoongArchTarget::LA32, instruction)
    }
}

} // verus!
