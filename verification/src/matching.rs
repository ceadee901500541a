//! Matching a parsed instruction against the forms of its mnemonic, and flattening its
//! arguments for the encoder.

use vstd::prelude::*;
use crate::ast::{FlatArg, ParsedInstruction, RawArg, RegFamily, Register};
use crate::data::{Matcher, Opdata};
use crate::debug::{format_opdata_list, form_line, form_describable, table_describable};
use crate::opmap::{get_mnemonic_data, OpTable};
use crate::target::LoongArchTarget;
use crate::text::{join, push_str};

verus! {

/// A matched instruction: the form it matched and its flattened arguments.
pub struct MatchData<'a> {
    /// The matched form.
    pub data: &'a Opdata,
    /// The arguments, flattened.
    pub args: Vec<FlatArg>,
}

impl<'a> MatchData<'a> {
    /// A match of `data` with no arguments yet.
    pub fn new(data: &'a Opdata) -> (r: MatchData<'a>)
        ensures
            *r.data == *data,
            r.args@ == Seq::<FlatArg>::empty(),
    {
        MatchData { data, args: Vec::new() }
    }
}

/// Whether a matcher accepts an argument.
pub open spec fn matches_spec(m: Matcher, arg: RawArg) -> bool {
    match arg {
        RawArg::Immediate { value } => match m {
            Matcher::Imm | Matcher::Offset => true,
            Matcher::Ident => value.is_ident,
            _ => false,
        },
        RawArg::JumpTarget { .. } => m is Offset,
        RawArg::Register { reg } => match m {
            Matcher::R => reg.spec_family() == RegFamily::INTEGER,
            Matcher::F => reg.spec_family() == RegFamily::FP,
            Matcher::V => reg.spec_family() == RegFamily::LSX,
            Matcher::X => reg.spec_family() == RegFamily::LSX || reg.spec_family() == RegFamily::LASX,
            Matcher::C => reg.spec_family() == RegFamily::FCC,
            Matcher::Reg(id) => reg == Register::Static(id),
            _ => false,
        },
        RawArg::Reference { offset, .. } => match m {
            Matcher::Ref => offset is None,
            Matcher::RefOffset => true,
            _ => false,
        },
        RawArg::LabelReference { .. } => m is RefLabel,
    }
}

impl Matcher {
    /// Whether this matcher accepts the argument: immediates go to `imm`, `target` and
    /// (when they are identifiers) `ident`; jump targets to `target`; registers to the
    /// matcher of their family (LSX registers also to the LASX matcher) or of themselves;
    /// references to `[base]` (without offset) and `[base, offset]`; label references to
    /// the matcher of label references.
    pub fn matches(&self, arg: &RawArg) -> (r: bool)
        ensures
            r == matches_spec(*self, *arg),
    {
        match arg {
            RawArg::Immediate { value } => match self {
                Matcher::Imm => true,
                Matcher::Offset => true,
                Matcher::Ident => value.is_ident,
                _ => false,
            },
            RawArg::JumpTarget { .. } => match self {
                Matcher::Offset => true,
                _ => false,
            },
            RawArg::Register { reg } => match self {
                Matcher::R => reg.family() == RegFamily::INTEGER,
                Matcher::F => reg.family() == RegFamily::FP,
                Matcher::V => reg.family() == RegFamily::LSX,
                Matcher::X => {
                    let f = reg.family();
                    f == RegFamily::LSX || f == RegFamily::LASX
                },
                Matcher::C => reg.family() == RegFamily::FCC,
                Matcher::Reg(id) => match reg.as_id() {
                    Some(r) => r == *id,
                    None => false,
                },
                _ => false,
            },
            RawArg::Reference { offset, .. } => match self {
                Matcher::Ref => offset.is_none(),
                Matcher::RefOffset => true,
                _ => false,
            },
            RawArg::LabelReference { .. } => match self {
                Matcher::RefLabel => true,
                _ => false,
            },
        }
    }
}

/// Whether the arguments fit the matchers of a form: one argument per matcher, each
/// accepted by its matcher.
pub open spec fn args_match(args: Seq<RawArg>, ms: Seq<Matcher>) -> bool {
    &&& args.len() == ms.len()
    &&& forall|i: int| 0 <= i < args.len() ==> matches_spec(#[trigger] ms[i], args[i])
}

/// The match of a form by the arguments, if they fit it.
pub fn match_args<'a>(args: &[RawArg], data: &'a Opdata) -> (r: Option<MatchData<'a>>)
    ensures
        match r {
            Some(m) => args_match(args@, data.matchers@) && *m.data == *data && m.args@.len() == 0,
            None => !args_match(args@, data.matchers@),
        },
{
    if args.len() != data.matchers.len() {
        return None;
    }
    let mut i: usize = 0;
    while i < data.matchers.len()
        invariant
            i <= data.matchers.len(),
            args@.len() == data.matchers@.len(),
            forall|j: int| 0 <= j < i ==> matches_spec(#[trigger] data.matchers@[j], args@[j]),
        decreases data.matchers.len() - i,
    {
        if !data.matchers[i].matches(&args[i]) {
            return None;
        }
        i = i + 1;
    }
    Some(MatchData::new(data))
}

/// The flat arguments that one matched argument gives: a register named by the matcher
/// itself gives none; a reference gives its base register and, for `[base, offset]`, its
/// offset (or `Default` when it has none); a label reference gives its base register and
/// its jump target.
pub open spec fn flat_parts(arg: RawArg, m: Matcher) -> Seq<FlatArg> {
    match arg {
        RawArg::Immediate { value } => seq![FlatArg::Immediate { value }],
        RawArg::JumpTarget { jump } => seq![FlatArg::JumpTarget { jump }],
        RawArg::Register { reg } => if m is Reg {
            seq![]
        } else {
            seq![FlatArg::Register { reg }]
        },
        RawArg::Reference { offset, base } => if m is RefOffset {
            seq![
                FlatArg::Register { reg: base },
                match offset {
                    Some(value) => FlatArg::Immediate { value },
                    None => FlatArg::Default,
                },
            ]
        } else {
            seq![FlatArg::Register { reg: base }]
        },
        RawArg::LabelReference { jump, base } => seq![
            FlatArg::Register { reg: base },
            FlatArg::JumpTarget { jump },
        ],
    }
}

/// The flat arguments of a list of matched arguments, in order.
pub open spec fn flat_args(args: Seq<RawArg>, ms: Seq<Matcher>) -> Seq<FlatArg>
    decreases args.len(),
{
    if args.len() == 0 || ms.len() < args.len() {
        seq![]
    } else {
        let n = args.len() as int;
        flat_args(args.drop_last(), ms.take(n - 1)) + flat_parts(args.last(), ms[n - 1])
    }
}

/// Appends the flat arguments of `args`, matched against the matchers of the form.
fn flatten_args(args: Vec<RawArg>, data: &mut MatchData)
    requires
        args_match(args@, old(data).data.matchers@),
    ensures
        final(data).data == old(data).data,
        final(data).args@ == old(data).args@ + flat_args(args@, old(data).data.matchers@),
{
    let ghost ms = data.data.matchers@;
    let ghost start = data.args@;
    let ghost form = data.data;
    let mut i: usize = 0;
    while i < args.len()
        invariant
            i <= args.len(),
            form == old(data).data,
            data.data == form,
            ms == data.data.matchers@,
            args_match(args@, ms),
            data.args@ == start + flat_args(args@.take(i as int), ms.take(i as int)),
        decreases args.len() - i,
    {
        let arg = args[i];
        let matcher = data.data.matchers[i];
        let ghost before = data.args@;
        match arg {
            RawArg::Immediate { value } => data.args.push(FlatArg::Immediate { value }),
            RawArg::JumpTarget { jump } => data.args.push(FlatArg::JumpTarget { jump }),
            RawArg::Register { reg } => match matcher {
                Matcher::Reg(_) => {},
                _ => data.args.push(FlatArg::Register { reg }),
            },
            RawArg::Reference { offset, base } => match matcher {
                Matcher::RefOffset => {
                    data.args.push(FlatArg::Register { reg: base });
                    match offset {
                        Some(value) => data.args.push(FlatArg::Immediate { value }),
                        None => data.args.push(FlatArg::Default),
                    }
                },
                _ => data.args.push(FlatArg::Register { reg: base }),
            },
            RawArg::LabelReference { jump, base } => {
                data.args.push(FlatArg::Register { reg: base });
                data.args.push(FlatArg::JumpTarget { jump });
            },
        }
        proof {
            assert(args@.take(i + 1).drop_last() =~= args@.take(i as int));
            assert(ms.take(i + 1).take(i as int) =~= ms.take(i as int));
            assert(data.args@ =~= before + flat_parts(args@[i as int], ms[i as int]));
        }
        i = i + 1;
    }
    assert(args@.take(args.len() as int) =~= args@);
    assert(ms.take(args.len() as int) =~= ms);
}

/// An error found while matching an instruction.
#[derive(Debug, Clone)]
pub enum MatchError {
    /// An error at one argument (numbered from 0), with its message.
    AtArgument { arg: usize, message: String },
    /// An error about the whole instruction, with its message.
    Instruction { message: String },
}

/// The message for a reference whose base is not a general purpose register.
pub open spec fn base_register_text() -> Seq<char> {
    "Base register needs to be a regular (integer) register"@
}

/// The message for a jump to a bare address.
pub open spec fn external_relocation_text() -> Seq<char> {
    "External relocations not yet supported for LoongArch"@
}

/// The first problem of the argument, if any: a reference through a register that is
/// not a general purpose one, or a jump to a bare address.
pub open spec fn arg_problem(arg: RawArg) -> Option<Seq<char>> {
    match arg {
        RawArg::Reference { base, .. } => if base.spec_family() != RegFamily::INTEGER {
            Some(base_register_text())
        } else {
            None
        },
        RawArg::JumpTarget { jump } => if jump.bare {
            Some(external_relocation_text())
        } else {
            None
        },
        RawArg::LabelReference { base, jump } => if base.spec_family() != RegFamily::INTEGER {
            Some(base_register_text())
        } else if jump.bare {
            Some(external_relocation_text())
        } else {
            None
        },
        _ => None,
    }
}

/// The argument with a literal zero offset of a reference dropped.
pub open spec fn sanitized(arg: RawArg) -> RawArg {
    match arg {
        RawArg::Reference { offset: Some(o), base } => if o.number == Some(0i64) {
            RawArg::Reference { offset: None, base }
        } else {
            arg
        },
        _ => arg,
    }
}

/// Whether the first `n` arguments have no problem.
pub open spec fn no_problem_before(args: Seq<RawArg>, n: int) -> bool {
    forall|j: int| 0 <= j < n ==> #[trigger] arg_problem(args[j]) is None
}

/// Whether sanitizing `orig` into `fin` stopped at argument `k` with error `e`: the
/// arguments before `k` have no problem and are sanitized, `k` has a problem that `e`
/// reports, and the arguments from `k` on are unchanged.
pub open spec fn stopped_at(orig: Seq<RawArg>, fin: Seq<RawArg>, k: int, e: MatchError) -> bool {
    &&& 0 <= k < orig.len()
    &&& no_problem_before(orig, k)
    &&& arg_problem(orig[k]) is Some
    &&& match e {
        MatchError::AtArgument { arg, message } => arg == k && message@ == arg_problem(orig[k])->0,
        _ => false,
    }
    &&& forall|j: int| 0 <= j < k ==> #[trigger] fin[j] == sanitized(orig[j])
    &&& forall|j: int| k <= j < orig.len() ==> #[trigger] fin[j] == orig[j]
}

/// Checks the arguments in order and stops at the first problem: a reference through a
/// register that is not a general purpose one, or a jump to a bare address. A literal zero
/// offset of a reference is dropped, in each argument before the first problem.
fn sanitize_args(args: &mut Vec<RawArg>) -> (r: Result<(), MatchError>)
    ensures
        final(args)@.len() == old(args)@.len(),
        match r {
            Ok(()) => no_problem_before(old(args)@, old(args)@.len() as int) && forall|j: int|
                0 <= j < old(args)@.len() ==> #[trigger] final(args)@[j] == sanitized(old(args)@[j]),
            Err(e) => exists|k: int| #[trigger] stopped_at(old(args)@, final(args)@, k, e),
        },
{
    let ghost orig = args@;
    let mut i: usize = 0;
    while i < args.len()
        invariant
            i <= args.len(),
            orig == old(args)@,
            args@.len() == orig.len(),
            no_problem_before(orig, i as int),
            forall|j: int| 0 <= j < i ==> #[trigger] args@[j] == sanitized(orig[j]),
            forall|j: int| i <= j < orig.len() ==> #[trigger] args@[j] == orig[j],
        decreases args.len() - i,
    {
        let arg = args[i];
        match arg {
            RawArg::Reference { offset, base } => {
                if base.family() != RegFamily::INTEGER {
                    let e = MatchError::AtArgument { arg: i, message: String::from_str("Base register needs to be a regular (integer) register") };
                    assert(stopped_at(orig, args@, i as int, e));
                    return Err(e);
                }
                match offset {
                    Some(o) => {
                        if o.number == Some(0i64) {
                            args.set(i, RawArg::Reference { offset: None, base });
                        }
                    },
                    None => {},
                }
            },
            RawArg::JumpTarget { jump } => {
                if jump.bare {
                    let e = MatchError::AtArgument { arg: i, message: String::from_str("External relocations not yet supported for LoongArch") };
                    assert(stopped_at(orig, args@, i as int, e));
                    return Err(e);
                }
            },
            RawArg::LabelReference { base, jump } => {
                if base.family() != RegFamily::INTEGER {
                    let e = MatchError::AtArgument { arg: i, message: String::from_str("Base register needs to be a regular (integer) register") };
                    assert(stopped_at(orig, args@, i as int, e));
                    return Err(e);
                }
                if jump.bare {
                    let e = MatchError::AtArgument { arg: i, message: String::from_str("External relocations not yet supported for LoongArch") };
                    assert(stopped_at(orig, args@, i as int, e));
                    return Err(e);
                }
            },
            _ => {},
        }
        i = i + 1;
    }
    Ok(())
}

/// The message for a mnemonic that the table does not have.
pub open spec fn unknown_mnemonic_text(name: Seq<char>) -> Seq<char> {
    "Unknown instruction mnemonic '"@ + name + "'"@
}

/// The message for arguments that fit none of the forms: the mnemonic and the list of its
/// forms.
pub open spec fn mismatch_text(name: Seq<char>, forms: Seq<Opdata>) -> Seq<char> {
    "'"@ + name + "': instruction format mismatch, expected one of the following forms:\n"@
        + join(forms.map_values(|d: Opdata| form_line(name, d)), "\n"@)
}

/// Whether no argument has a problem.
pub open spec fn args_sound(args: Seq<RawArg>) -> bool {
    no_problem_before(args, args.len() as int)
}

/// The arguments with literal zero reference offsets dropped.
pub open spec fn sanitized_args(args: Seq<RawArg>) -> Seq<RawArg> {
    args.map_values(|a: RawArg| sanitized(a))
}

/// Whether form `k` is the first of `forms` that the arguments fit.
pub open spec fn first_fit(args: Seq<RawArg>, forms: Seq<Opdata>, k: int) -> bool {
    &&& 0 <= k < forms.len()
    &&& args_match(args, forms[k].matchers@)
    &&& forall|j: int| 0 <= j < k ==> !args_match(args, #[trigger] forms[j].matchers@)
}

/// Whether the instruction matches a form of the table: its arguments have no problem, the
/// table has its mnemonic, and some form of the mnemonic fits the arguments.
pub open spec fn match_found(table: OpTable, ins: ParsedInstruction) -> bool {
    &&& args_sound(ins.args@)
    &&& match table.lookup(ins.name@) {
        Some(forms) => exists|k: int| first_fit(sanitized_args(ins.args@), forms, k),
        None => false,
    }
}

/// Whether `form` with the arguments `flat` is the match of the instruction: the first form
/// of its mnemonic that fits, with the arguments flattened for it.
pub open spec fn is_match(table: OpTable, ins: ParsedInstruction, form: Opdata, flat: Seq<FlatArg>) -> bool {
    match table.lookup(ins.name@) {
        Some(forms) => exists|k: int|
            #[trigger] first_fit(sanitized_args(ins.args@), forms, k) && form == forms[k] && flat
                == flat_args(sanitized_args(ins.args@), forms[k].matchers@),
        None => false,
    }
}

/// Whether `e` is the error reported for an instruction that matches no form: the first
/// problem of its arguments; else an unknown mnemonic; else the list of the forms.
pub open spec fn is_match_error(table: OpTable, ins: ParsedInstruction, e: MatchError) -> bool {
    let args = ins.args@;
    let name = ins.name@;
    if !args_sound(args) {
        match e {
            MatchError::AtArgument { arg, message } => arg < args.len() && no_problem_before(
                args,
                arg as int,
            ) && arg_problem(args[arg as int]) == Some(message@),
            _ => false,
        }
    } else {
        match e {
            MatchError::Instruction { message } => match table.lookup(name) {
                None => message@ == unknown_mnemonic_text(name),
                Some(forms) => message@ == mismatch_text(name, forms),
            },
            _ => false,
        }
    }
}

/// Finds the form of the instruction that its arguments fit. The arguments are checked
/// first (a reference needs a general purpose base register, a jump may not go to a bare
/// address; the first problem is reported at its argument); then the mnemonic is looked up;
/// then the forms are tried in order and the first that fits is taken, with the arguments
/// flattened for it. When none fits, the error lists the forms.
pub fn match_instruction<'a>(
    table: &'a OpTable,
    target: LoongArchTarget,
    instruction: ParsedInstruction,
) -> (r: Result<MatchData<'a>, MatchError>)
    requires
        table.wf(),
        table_describable(*table),
    ensures
        match_found(*table, instruction) ==> (match r {
            Ok(m) => is_match(*table, instruction, *m.data, m.args@),
            Err(_) => false,
        }),
        !match_found(*table, instruction) ==> (match r {
            Ok(_) => false,
            Err(e) => is_match_error(*table, instruction, e),
        }),
{
    let ghost args0 = instruction.args@;
    let ghost name0 = instruction.name@;
    let name = instruction.name;
    let mut args = instruction.args;
    let checked = sanitize_args(&mut args);
    match checked {
        Err(e) => {
            proof {
                let k = choose|k: int| #[trigger] stopped_at(args0, args@, k, e);
                assert(!args_sound(args0));
            }
            return Err(e);
        },
        Ok(()) => {},
    }
    assert(args@ =~= sanitized_args(args0));
    let opdata = match get_mnemonic_data(table, name.as_str()) {
        Some(d) => d,
        None => {
            let mut message = String::from_str("Unknown instruction mnemonic '");
            push_str(&mut message, name.as_str());
            push_str(&mut message, "'");
            return Err(MatchError::Instruction { message });
        },
    };
    let ghost forms = opdata@;
    let mut k: usize = 0;
    while k < opdata.len()
        invariant
            k <= opdata@.len(),
            forms == opdata@,
            args0 == instruction.args@,
            name0 == instruction.name@,
            name@ == name0,
            args_sound(args0),
            table.lookup(name0) == Some(forms),
            args@ == sanitized_args(args0),
            forall|j: int| 0 <= j < k ==> !args_match(args@, #[trigger] forms[j].matchers@),
        decreases opdata.len() - k,
    {
        let data = &opdata[k];
        match match_args(args.as_slice(), data) {
            Some(mut m) => {
                assert(first_fit(args@, forms, k as int));
                let ghost fit_args = args@;
                flatten_args(args, &mut m);
                assert(first_fit(sanitized_args(args0), forms, k as int));
                assert(*m.data == forms[k as int]);
                assert(m.args@ =~= flat_args(sanitized_args(args0), forms[k as int].matchers@));
                return Ok(m);
            },
            None => {},
        }
        k = k + 1;
    }
    assert forall|j: int| !first_fit(sanitized_args(args0), forms, j) by {
        if 0 <= j < forms.len() {
            assert(!args_match(args@, forms[j].matchers@));
        }
    }
    proof {
        let idx = table.index_of(name0);
        assert forall|j: int| 0 <= j < opdata@.len() implies form_describable(#[trigger] opdata@[j]) by {
            assert(form_describable(table.entries@[idx].1@[j]));
        }
    }
    let list = format_opdata_list(name.as_str(), opdata, target);
    let mut message = String::from_str("'");
    push_str(&mut message, name.as_str());
    push_str(&mut message, "': instruction format mismatch, expected one of the following forms:\n");
    push_str(&mut message, list.as_str());
    Err(MatchError::Instruction { message })
}

} // verus!
