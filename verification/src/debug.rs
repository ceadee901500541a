//! Human-readable descriptions of instruction forms, as listed in error messages and in the
//! instruction reference, and their machine-readable extraction.

use vstd::prelude::*;
use crate::data::{
    Command, ExtensionFlags, ISAFlags, Matcher, Opdata, Relocation, EX_BASE, EX_BIT, EX_D, EX_F,
    EX_LASX, EX_LBT, EX_LSX, EX_LVZ, EX_PRIV, ISA_LA32, ISA_LA64,
};
use crate::target::LoongArchTarget;
use crate::opmap::OpTable;
use crate::text::{
    join, join_strings, push_str, push_char, push_decimal, push_signed_decimal, decimal,
    signed_decimal, ascii_lowercase,
    to_ascii_lowercase, chars_of,
};
use vstd::arithmetic::power2::pow2;

verus! {

/// How a matcher is shown in an instruction form.
pub open spec fn matcher_text(m: Matcher) -> Seq<char> {
    match m {
        Matcher::R => "rd"@,
        Matcher::F => "fd"@,
        Matcher::Reg(id) => id.spec_name(),
        Matcher::Ref => "[base]"@,
        Matcher::RefOffset => "[base, offset]"@,
        Matcher::Imm => "imm"@,
        Matcher::Offset => "target"@,
        Matcher::Ident => "ident"@,
        Matcher::C => "fcc"@,
        Matcher::T => "scratch"@,
        Matcher::V => "lsx-reg"@,
        Matcher::X => "lasx-reg"@,
        Matcher::FCSR => "fcsr"@,
        Matcher::RefLabel => "RefLabel"@,
    }
}

/// The value that a 16-bit sum stands for when it is taken as signed.
pub open spec fn as_i16(sum: int) -> int {
    if sum >= 0x8000 {
        sum - 0x10000
    } else {
        sum
    }
}

/// Division by 2, rounded toward zero.
pub open spec fn half_toward_zero(x: int) -> int {
    if x >= 0 {
        x / 2
    } else {
        -((-x) / 2)
    }
}

/// The range shown for a signed immediate split over fields whose lengths sum to `sum`.
pub open spec fn sfields_text(sum: int) -> Seq<char> {
    let s = as_i16(sum);
    signed_decimal(half_toward_zero(-s) - 1) + " <= imm <= "@ + signed_decimal(half_toward_zero(s))
}

/// The constraints that a command puts on its argument, as shown to the user.
pub open spec fn command_constraints(c: Command) -> Seq<Seq<char>> {
    match c {
        Command::Rno0(_) => seq!["rd cannot be r0"@],
        Command::Rdiff(_) => seq!["rd cannot eque previous "@],
        Command::Ufields(a) => seq!["0 <= imm <= "@ + decimal(adjacent_diff_sum(a@) as nat)],
        Command::Usum(_, bits) => seq!["1 <= value <= "@ + decimal(pow2(bits as nat)) + " - prev arg"@],
        Command::Ulep(_, _) => seq!["1 <= value <= prev arg"@],
        Command::Sfields(a) => seq![sfields_text(adjacent_diff_sum(a@))],
        Command::Offset(Relocation::B16) => seq!["16-bit offset, 2-byte aligned"@],
        Command::Offset(Relocation::B26) => seq!["26-bit offset, 2-byte aligned"@],
        Command::Offset(Relocation::PCALA_LO12) => seq!["12-bit PC-relative offset"@],
        Command::Offset(Relocation::PCALA_HI20) => seq!["20-bit PC-relative high offset"@],
        Command::FCSR(_) => seq!["fcsr: 0 - 3"@],
        Command::Uscaled(_, bits, scale) => seq![
            "value <= "@ + decimal((pow2((bits + scale) as nat) - 1) as nat) + ", value = "@ + decimal(
                pow2(scale as nat),
            ) + " * N"@,
        ],
        Command::Sscaled(_, bits, scale) => seq![
            "-"@ + decimal(pow2((bits + scale - 1) as nat)) + " <= value <= "@ + decimal(
                (pow2((bits + scale - 1) as nat) - 1) as nat,
            ) + ", value = "@ + decimal(pow2(scale as nat)) + " * N"@,
        ],
        Command::Usubone(_, bitlen) => seq!["1 <= value <= "@ + decimal(pow2(bitlen as nat))],
        _ => seq![],
    }
}

/// Whether the constraints of a command can be shown: split fields come in pairs whose
/// differences sum to a 16-bit number (not `0x8000` for signed ones), and the shifts that
/// compute the ranges stay below 32 bits.
pub open spec fn describable(c: Command) -> bool {
    match c {
        Command::Ufields(a) => a@.len() % 2 == 0 && adjacent_diff_sum(a@) <= u16::MAX,
        Command::Sfields(a) => a@.len() % 2 == 0 && adjacent_diff_sum(a@) <= u16::MAX
            && adjacent_diff_sum(a@) != 0x8000,
        Command::Usum(_, bits) => bits < 32,
        Command::Uscaled(_, bits, scale) => bits + scale < 32,
        Command::Sscaled(_, bits, scale) => 1 <= bits + scale <= 32,
        Command::Usubone(_, bitlen) => bitlen < 32,
        _ => true,
    }
}

/// Whether the constraints of every command of a form can be shown.
pub open spec fn form_describable(data: Opdata) -> bool {
    forall|k: int| 0 <= k < data.commands@.len() ==> describable(#[trigger] data.commands@[k])
}

/// The constraints of a list of commands, in order.
pub open spec fn constraint_list(cs: Seq<Command>) -> Seq<Seq<char>>
    decreases cs.len(),
{
    if cs.len() == 0 {
        seq![]
    } else {
        constraint_list(cs.drop_last()) + command_constraints(cs.last())
    }
}

/// An instruction form: `>>> name`, the matchers after a space and separated by `, `, and
/// the constraints of its commands in parentheses when there are any.
pub open spec fn opdata_text(name: Seq<char>, data: Opdata) -> Seq<char> {
    let ms = data.matchers@;
    let constraints = join(constraint_list(data.commands@), ", "@);
    ">>> "@ + name + (if ms.len() == 0 {
        seq![]
    } else {
        " "@ + join(ms.map_values(|m| matcher_text(m)), ", "@)
    }) + (if constraints.len() == 0 {
        seq![]
    } else {
        " ("@ + constraints + ")"@
    })
}

/// The target part of a form's feature label.
pub open spec fn isa_label(isa: ISAFlags) -> Seq<char> {
    if isa.spec_contains(ISA_LA32) && !isa.spec_contains(ISA_LA64) {
        "LA32"@
    } else if isa.spec_contains(ISA_LA64) && !isa.spec_contains(ISA_LA32) {
        "LA64"@
    } else {
        "LA32/64"@
    }
}

/// `text` when `flag` is set in `e`, else nothing.
pub open spec fn when_set(e: ExtensionFlags, flag: u64, text: Seq<char>) -> Seq<char> {
    if e.spec_contains(flag) {
        text
    } else {
        seq![]
    }
}

/// The label of one extension set: the target label, `_`, `BASE` when the base set is in,
/// then `_` and the name of each other extension in it.
pub open spec fn extension_label(start: Seq<char>, e: ExtensionFlags) -> Seq<char> {
    start + "_"@ + when_set(e, EX_BASE, "BASE"@) + when_set(e, EX_BIT, "_BIT"@) + when_set(
        e,
        EX_F,
        "_F"@,
    ) + when_set(e, EX_D, "_D"@) + when_set(e, EX_LSX, "_LSX"@) + when_set(e, EX_LASX, "_LASX"@)
        + when_set(e, EX_LVZ, "_LVZ"@) + when_set(e, EX_LBT, "_LBT"@) + when_set(
        e,
        EX_PRIV,
        "_PRIV"@,
    )
}

/// The feature label of a form: the label of each of its extension sets, separated by
/// ` or `, in parentheses.
pub open spec fn features_text(data: Opdata) -> Seq<char> {
    let start = isa_label(data.isa_flags);
    "("@ + join(data.ext_flags@.map_values(|e| extension_label(start, e)), " or "@) + ")"@
}

/// One line of a form list: the form and its feature label.
pub open spec fn form_line(name: Seq<char>, data: Opdata) -> Seq<char> {
    opdata_text(name, data) + " "@ + features_text(data)
}

/// The sum of `|s[2i] - s[2i + 1]|` over the pairs of `s`.
pub open spec fn adjacent_diff_sum(s: Seq<u8>) -> int
    decreases s.len(),
{
    if s.len() < 2 {
        0
    } else {
        let n = s.len() as int;
        adjacent_diff_sum(s.take(n - 2)) + (if s[n - 2] >= s[n - 1] {
            s[n - 2] - s[n - 1]
        } else {
            s[n - 1] - s[n - 2]
        })
    }
}

/// A power of two below 2^64.
pub(crate) fn power_of_two(n: u32) -> (r: u64)
    requires
        n < 64,
    ensures
        r as nat == pow2(n as nat),
        1 <= r <= 0x8000_0000_0000_0000,
{
    proof {
        vstd::bits::lemma_u64_pow2_no_overflow(n as nat);
        vstd::bits::lemma_u64_shl_is_mul(1, n as u64);
        vstd::arithmetic::power2::lemma_pow2_pos(n as nat);
        vstd::arithmetic::power2::lemma2_to64_rest();
        if n < 63 {
            vstd::arithmetic::power2::lemma_pow2_strictly_increases(n as nat, 63);
        }
    }
    1u64 << (n as u64)
}

/// Division by 2, rounded toward zero.
fn halve(x: i32) -> (r: i32)
    requires
        x > i32::MIN,
    ensures
        r as int == half_toward_zero(x as int),
{
    if x >= 0 {
        x / 2
    } else {
        0 - ((0 - x) / 2)
    }
}

/// Appends the constraints that a command puts on its argument.
fn push_command_constraints(out: &mut Vec<String>, c: Command)
    requires
        describable(c),
    ensures
        final(out)@.map_values(|x: String| x@) == old(out)@.map_values(|x: String| x@)
            + command_constraints(c),
{
    let ghost before = out@.map_values(|x: String| x@);
    match c {
        Command::Rno0(_) => out.push(String::from_str("rd cannot be r0")),
        Command::Rdiff(_) => out.push(String::from_str("rd cannot eque previous ")),
        Command::Ufields(array) => {
            let sum = sum_adjacent_diffs(&array);
            let mut t = String::from_str("0 <= imm <= ");
            push_decimal(&mut t, sum as u128);
            out.push(t);
        },
        Command::Usum(_, bits) => {
            let mut t = String::from_str("1 <= value <= ");
            push_decimal(&mut t, power_of_two(bits as u32) as u128);
            push_str(&mut t, " - prev arg");
            out.push(t);
        },
        Command::Ulep(_, _) => out.push(String::from_str("1 <= value <= prev arg")),
        Command::Sfields(array) => {
            let sum = sum_adjacent_diffs(&array) as i32;
            let s: i32 = if sum >= 0x8000 {
                sum - 0x10000
            } else {
                sum
            };
            let mut t = String::new();
            push_signed_decimal(&mut t, (halve(0 - s) - 1) as i128);
            push_str(&mut t, " <= imm <= ");
            push_signed_decimal(&mut t, halve(s) as i128);
            out.push(t);
        },
        Command::Offset(rel) => match rel {
            Relocation::B16 => out.push(String::from_str("16-bit offset, 2-byte aligned")),
            Relocation::B26 => out.push(String::from_str("26-bit offset, 2-byte aligned")),
            Relocation::PCALA_LO12 => out.push(String::from_str("12-bit PC-relative offset")),
            Relocation::PCALA_HI20 => out.push(String::from_str("20-bit PC-relative high offset")),
            _ => {},
        },
        Command::FCSR(_) => out.push(String::from_str("fcsr: 0 - 3")),
        Command::Uscaled(_, bits, scale) => {
            let mut t = String::from_str("value <= ");
            push_decimal(&mut t, (power_of_two((bits + scale) as u32) - 1) as u128);
            push_str(&mut t, ", value = ");
            push_decimal(&mut t, power_of_two(scale as u32) as u128);
            push_str(&mut t, " * N");
            out.push(t);
        },
        Command::Sscaled(_, bits, scale) => {
            let top = power_of_two((bits + scale - 1) as u32);
            proof {
                vstd::arithmetic::power2::lemma_pow2_pos((bits + scale - 1) as nat);
            }
            let mut t = String::from_str("-");
            push_decimal(&mut t, top as u128);
            push_str(&mut t, " <= value <= ");
            push_decimal(&mut t, (top - 1) as u128);
            push_str(&mut t, ", value = ");
            push_decimal(&mut t, power_of_two(scale as u32) as u128);
            push_str(&mut t, " * N");
            out.push(t);
        },
        Command::Usubone(_, bitlen) => {
            let mut t = String::from_str("1 <= value <= ");
            push_decimal(&mut t, power_of_two(bitlen as u32) as u128);
            out.push(t);
        },
        _ => {},
    }
    assert(out@.map_values(|x: String| x@) =~= before + command_constraints(c));
}

/// The constraints that the commands of `data` put on the arguments, separated by `, `.
fn format_constraints(data: &Opdata) -> (r: String)
    requires
        form_describable(*data),
    ensures
        r@ == join(constraint_list(data.commands@), ", "@),
{
    let mut constraints: Vec<String> = Vec::new();
    let mut i: usize = 0;
    while i < data.commands.len()
        invariant
            i <= data.commands.len(),
            form_describable(*data),
            constraints@.map_values(|x: String| x@) == constraint_list(data.commands@.take(i as int)),
        decreases data.commands.len() - i,
    {
        assert(describable(data.commands@[i as int]));
        push_command_constraints(&mut constraints, data.commands[i]);
        assert(data.commands@.take(i + 1).drop_last() =~= data.commands@.take(i as int));
        i = i + 1;
    }
    assert(data.commands@.take(data.commands.len() as int) =~= data.commands@);
    join_strings(&constraints, ", ")
}

/// Appends how a matcher is shown.
fn push_matcher(buf: &mut String, m: Matcher)
    ensures
        final(buf)@ == old(buf)@ + matcher_text(m),
{
    match m {
        Matcher::R => push_str(buf, "rd"),
        Matcher::F => push_str(buf, "fd"),
        Matcher::Reg(id) => {
            let s = id.to_string();
            push_str(buf, s.as_str());
        },
        Matcher::Ref => push_str(buf, "[base]"),
        Matcher::RefOffset => push_str(buf, "[base, offset]"),
        Matcher::Imm => push_str(buf, "imm"),
        Matcher::Offset => push_str(buf, "target"),
        Matcher::Ident => push_str(buf, "ident"),
        Matcher::C => push_str(buf, "fcc"),
        Matcher::T => push_str(buf, "scratch"),
        Matcher::V => push_str(buf, "lsx-reg"),
        Matcher::X => push_str(buf, "lasx-reg"),
        Matcher::FCSR => push_str(buf, "fcsr"),
        Matcher::RefLabel => push_str(buf, "RefLabel"),
    }
}

/// Describes an instruction form: `>>> name`, its matchers, and the constraints of its
/// commands in parentheses.
pub fn format_opdata(name: &str, data: &Opdata) -> (r: String)
    requires
        form_describable(*data),
    ensures
        r@ == opdata_text(name@, *data),
{
    let mut buf = String::new();
    push_str(&mut buf, ">>> ");
    push_str(&mut buf, name);
    let ghost head = buf@;
    let ghost texts = data.matchers@.map_values(|m| matcher_text(m));
    let mut i: usize = 0;
    while i < data.matchers.len()
        invariant
            i <= data.matchers.len(),
            head == ">>> "@ + name@,
            texts == data.matchers@.map_values(|m| matcher_text(m)),
            i == 0 ==> buf@ == head,
            i > 0 ==> buf@ == head + " "@ + join(texts.take(i as int), ", "@),
        decreases data.matchers.len() - i,
    {
        if i == 0 {
            push_str(&mut buf, " ");
        } else {
            push_str(&mut buf, ", ");
        }
        push_matcher(&mut buf, data.matchers[i]);
        proof {
            assert(texts.take(i + 1).drop_last() =~= texts.take(i as int));
            if i == 0 {
                assert(texts.take(1) =~= seq![texts[0]]);
            }
            assert(buf@ =~= head + " "@ + join(texts.take(i + 1), ", "@));
        }
        i = i + 1;
    }
    assert(texts.take(data.matchers.len() as int) =~= texts);
    let ghost with_matchers = buf@;
    let constraints = format_constraints(data);
    if constraints.as_str().unicode_len() != 0 {
        push_str(&mut buf, " (");
        push_str(&mut buf, constraints.as_str());
        push_str(&mut buf, ")");
    }
    assert(buf@ =~= opdata_text(name@, *data));
    buf
}

/// Appends `text` when `flag` is set in `e`.
fn push_when_set(buf: &mut String, e: &ExtensionFlags, flag: u64, text: &str)
    ensures
        final(buf)@ == old(buf)@ + when_set(*e, flag, text@),
{
    if e.contains(flag) {
        push_str(buf, text);
    } else {
        assert(old(buf)@ + when_set(*e, flag, text@) =~= old(buf)@);
    }
}

/// The feature label of a form: for each of its extension sets, the target (`LA32`,
/// `LA64` or `LA32/64`) and the extensions, separated by ` or `, in parentheses.
pub fn format_features(data: &Opdata) -> (r: String)
    ensures
        r@ == features_text(*data),
{
    let start = if data.isa_flags.contains(ISA_LA32) && !data.isa_flags.contains(ISA_LA64) {
        "LA32"
    } else if data.isa_flags.contains(ISA_LA64) && !data.isa_flags.contains(ISA_LA32) {
        "LA64"
    } else {
        "LA32/64"
    };
    let ghost label = isa_label(data.isa_flags);
    assert(start@ == label);
    let mut items: Vec<String> = Vec::new();
    let mut i: usize = 0;
    while i < data.ext_flags.len()
        invariant
            i <= data.ext_flags.len(),
            start@ == label,
            label == isa_label(data.isa_flags),
            items@.map_values(|x: String| x@) == data.ext_flags@.take(i as int).map_values(
                |e| extension_label(label, e),
            ),
        decreases data.ext_flags.len() - i,
    {
        let e = &data.ext_flags[i];
        let mut item = String::from_str(start);
        push_str(&mut item, "_");
        push_when_set(&mut item, e, EX_BASE, "BASE");
        push_when_set(&mut item, e, EX_BIT, "_BIT");
        push_when_set(&mut item, e, EX_F, "_F");
        push_when_set(&mut item, e, EX_D, "_D");
        push_when_set(&mut item, e, EX_LSX, "_LSX");
        push_when_set(&mut item, e, EX_LASX, "_LASX");
        push_when_set(&mut item, e, EX_LVZ, "_LVZ");
        push_when_set(&mut item, e, EX_LBT, "_LBT");
        push_when_set(&mut item, e, EX_PRIV, "_PRIV");
        assert(item@ =~= extension_label(label, *e));
        items.push(item);
        assert(data.ext_flags@.take(i + 1).map_values(|e| extension_label(label, e))
            =~= data.ext_flags@.take(i as int).map_values(|e| extension_label(label, e)).push(
            extension_label(label, data.ext_flags@[i as int]),
        ));
        assert(items@.map_values(|x: String| x@) =~= data.ext_flags@.take(i + 1).map_values(
            |e| extension_label(label, e),
        ));
        i = i + 1;
    }
    assert(data.ext_flags@.take(data.ext_flags.len() as int) =~= data.ext_flags@);
    let joined = join_strings(&items, " or ");
    let mut r = String::from_str("(");
    push_str(&mut r, joined.as_str());
    push_str(&mut r, ")");
    r
}

/// One line per form of `name`: the form and its feature label, separated by newlines.
pub fn format_opdata_list(name: &str, data: &[Opdata], _target: LoongArchTarget) -> (r: String)
    requires
        forall|k: int| 0 <= k < data@.len() ==> form_describable(#[trigger] data@[k]),
    ensures
        r@ == join(data@.map_values(|d: Opdata| form_line(name@, d)), "\n"@),
{
    let mut forms: Vec<String> = Vec::new();
    let mut i: usize = 0;
    while i < data.len()
        invariant
            i <= data@.len(),
            forall|k: int| 0 <= k < data@.len() ==> form_describable(#[trigger] data@[k]),
            forms@.map_values(|x: String| x@) == data@.take(i as int).map_values(
                |d: Opdata| form_line(name@, d),
            ),
        decreases data@.len() - i,
    {
        let mut line = format_opdata(name, &data[i]);
        push_str(&mut line, " ");
        let features = format_features(&data[i]);
        push_str(&mut line, features.as_str());
        forms.push(line);
        assert(data@.take(i + 1).map_values(|d: Opdata| form_line(name@, d)) =~= data@.take(
            i as int,
        ).map_values(|d: Opdata| form_line(name@, d)).push(form_line(name@, data@[i as int])));
        assert(forms@.map_values(|x: String| x@) =~= data@.take(i + 1).map_values(
            |d: Opdata| form_line(name@, d),
        ));
        i = i + 1;
    }
    assert(data@.take(data@.len() as int) =~= data@);
    join_strings(&forms, "\n")
}

/// The sum of the absolute differences of the pairs `array[2i]`, `array[2i + 1]`.
pub fn sum_adjacent_diffs(array: &&[u8]) -> (r: u16)
    requires
        array@.len() % 2 == 0,
        adjacent_diff_sum(array@) <= u16::MAX,
    ensures
        r == adjacent_diff_sum(array@),
{
    let a: &[u8] = *array;
    let mut sum: u16 = 0;
    let mut i: usize = 0;
    while i < a.len()
        invariant
            a@ == array@,
            i <= a@.len(),
            i % 2 == 0,
            a@.len() % 2 == 0,
            sum == adjacent_diff_sum(a@.take(i as int)),
            adjacent_diff_sum(a@) <= u16::MAX,
        decreases a@.len() - i,
    {
        proof {
            lemma_diff_sum_prefix_le(a@, i as int + 2);
            assert(a@.take(i + 2).take(i as int) =~= a@.take(i as int));
        }
        let x = a[i];
        let y = a[i + 1];
        let d: u16 = if x >= y {
            (x - y) as u16
        } else {
            (y - x) as u16
        };
        sum = sum + d;
        i = i + 2;
    }
    assert(a@.take(a@.len() as int) =~= a@);
    sum
}

/// The pair sums of an even-length prefix are at most those of the whole.
proof fn lemma_diff_sum_prefix_le(s: Seq<u8>, k: int)
    requires
        0 <= k <= s.len(),
        k % 2 == 0,
        s.len() % 2 == 0,
    ensures
        adjacent_diff_sum(s.take(k)) <= adjacent_diff_sum(s),
    decreases s.len() - k,
{
    if k < s.len() {
        let n = s.len() as int;
        lemma_diff_sum_prefix_le(s.take(n - 2), k);
        assert(s.take(n - 2).take(k) =~= s.take(k));
        assert(s.take(n) =~= s);
    } else {
        assert(s.take(k) =~= s);
    }
}

/// Each pair adds at most 255, so the pairs of up to 514 bytes sum to a 16-bit number.
pub proof fn lemma_adjacent_diff_sum_bound(s: Seq<u8>)
    ensures
        0 <= adjacent_diff_sum(s) <= 255 * (s.len() / 2),
        s.len() <= 514 ==> adjacent_diff_sum(s) <= u16::MAX,
    decreases s.len(),
{
    if s.len() >= 2 {
        lemma_adjacent_diff_sum_bound(s.take(s.len() - 2));
    }
}

/// Swapping the two bytes of a pair leaves the sum unchanged.
pub proof fn lemma_adjacent_diff_sum_swap_within(s: Seq<u8>, i: int)
    requires
        s.len() % 2 == 0,
        0 <= i,
        2 * i + 1 < s.len(),
    ensures
        adjacent_diff_sum(s.update(2 * i, s[2 * i + 1]).update(2 * i + 1, s[2 * i])) == adjacent_diff_sum(s),
    decreases s.len(),
{
    let n = s.len() as int;
    let t = s.update(2 * i, s[2 * i + 1]).update(2 * i + 1, s[2 * i]);
    if 2 * i + 1 == n - 1 {
        assert(t.take(n - 2) =~= s.take(n - 2));
    } else {
        let p = s.take(n - 2);
        lemma_adjacent_diff_sum_swap_within(p, i);
        assert(t.take(n - 2) =~= p.update(2 * i, p[2 * i + 1]).update(2 * i + 1, p[2 * i]));
    }
}

/// Exchanging two neighbouring pairs leaves the sum unchanged; as such exchanges reach
/// every order of the pairs, the sum does not depend on the order of the pairs.
pub proof fn lemma_adjacent_diff_sum_swap_pairs(s: Seq<u8>, i: int)
    requires
        s.len() % 2 == 0,
        0 <= i,
        2 * i + 3 < s.len(),
    ensures
        adjacent_diff_sum(
            s.update(2 * i, s[2 * i + 2]).update(2 * i + 1, s[2 * i + 3]).update(2 * i + 2, s[2 * i]).update(
                2 * i + 3,
                s[2 * i + 1],
            ),
        ) == adjacent_diff_sum(s),
    decreases s.len(),
{
    let n = s.len() as int;
    let t = s.update(2 * i, s[2 * i + 2]).update(2 * i + 1, s[2 * i + 3]).update(2 * i + 2, s[2 * i]).update(
        2 * i + 3,
        s[2 * i + 1],
    );
    if 2 * i + 3 == n - 1 {
        let a = s.take(n - 2);
        let b = t.take(n - 2);
        assert(b.take(n - 4) =~= a.take(n - 4));
        assert(adjacent_diff_sum(a) == adjacent_diff_sum(a.take(n - 4)) + (if a[n - 4] >= a[n - 3] {
            a[n - 4] - a[n - 3]
        } else {
            a[n - 3] - a[n - 4]
        }));
        assert(adjacent_diff_sum(b) == adjacent_diff_sum(b.take(n - 4)) + (if b[n - 4] >= b[n - 3] {
            b[n - 4] - b[n - 3]
        } else {
            b[n - 3] - b[n - 4]
        }));
    } else {
        let p = s.take(n - 2);
        lemma_adjacent_diff_sum_swap_pairs(p, i);
        assert(t.take(n - 2) =~= p.update(2 * i, p[2 * i + 2]).update(2 * i + 1, p[2 * i + 3]).update(
            2 * i + 2,
            p[2 * i],
        ).update(2 * i + 3, p[2 * i + 1]));
    }
}

/// How many argument slots a matcher takes in an extracted form: two for a reference
/// with an offset or a label, none for a specific register, one otherwise.
pub open spec fn matcher_step(m: Matcher) -> int {
    match m {
        Matcher::RefOffset | Matcher::RefLabel => 2,
        Matcher::Reg(_) => 0,
        _ => 1,
    }
}

/// The argument slot of the matcher after `ms`.
pub open spec fn arg_index(ms: Seq<Matcher>) -> int
    decreases ms.len(),
{
    if ms.len() == 0 {
        0
    } else {
        arg_index(ms.drop_last()) + matcher_step(ms.last())
    }
}

/// How a matcher at argument slot `i` is shown in an extracted form.
pub open spec fn extract_part(m: Matcher, i: int) -> Seq<char> {
    match m {
        Matcher::R => "<R,"@ + decimal(i as nat) + ">"@,
        Matcher::F => "<F,"@ + decimal(i as nat) + ">"@,
        Matcher::Reg(id) => id.spec_name(),
        Matcher::Ref => "[<R,"@ + decimal(i as nat) + ">]"@,
        Matcher::RefOffset => "[<R,"@ + decimal(i as nat) + ">, <Imm,"@ + decimal((i + 1) as nat)
            + ">]"@,
        Matcher::RefLabel => "[<R,"@ + decimal(i as nat) + ">, <Off,"@ + decimal((i + 1) as nat)
            + ">]"@,
        Matcher::Imm => "<Imm,"@ + decimal(i as nat) + ">"@,
        Matcher::Offset => "<Off,"@ + decimal(i as nat) + ">"@,
        Matcher::Ident => "<Ident,"@ + decimal(i as nat) + ">"@,
        Matcher::C => "<C,"@ + decimal(i as nat) + ">"@,
        Matcher::T => "<T,"@ + decimal(i as nat) + ">"@,
        Matcher::V => "<V,"@ + decimal(i as nat) + ">"@,
        Matcher::X => "<X,"@ + decimal(i as nat) + ">"@,
        Matcher::FCSR => "<FCSR,"@ + decimal(i as nat) + ">"@,
    }
}

/// The extracted matchers of a form, each with its argument slot.
pub open spec fn extract_parts(ms: Seq<Matcher>) -> Seq<Seq<char>> {
    Seq::new(ms.len(), |k: int| extract_part(ms[k], arg_index(ms.take(k))))
}

/// The commands that move the argument cursor without encoding: `Repeat` and `Next`.
pub open spec fn is_meta(c: Command) -> bool {
    c is Repeat || c is Next
}

/// The sum of the elements at odd positions.
pub open spec fn odd_sum(s: Seq<u8>) -> nat
    decreases s.len(),
{
    if s.len() == 0 {
        0
    } else {
        odd_sum(s.drop_last()) + if (s.len() - 1) % 2 == 1 {
            s.last() as nat
        } else {
            0
        }
    }
}

/// The commands whose constraint lines `extract_constraints` can write: the shifts that
/// compute their ranges stay below 32 bits.
pub open spec fn extractable_command(c: Command) -> bool {
    match c {
        Command::UImm(_, len) => len < 32,
        Command::SImm(_, len) => 1 <= len <= 32,
        Command::Ufields(a) => odd_sum(a@) < 32,
        Command::Sfields(a) => 2 <= odd_sum(a@) <= 32,
        Command::Usum(_, bits) => bits < 32,
        Command::Ulep(_, bits) => bits < 32,
        Command::Uscaled(_, len, shift) => len < 32 && shift < 32,
        Command::Sscaled(_, len, shift) => 1 <= len <= 32 && shift < 32,
        Command::Usubone(_, bitlen) => bitlen < 32,
        _ => true,
    }
}

/// Whether every command of a list is extractable.
pub open spec fn extractable(cs: Seq<Command>) -> bool {
    forall|k: int| 0 <= k < cs.len() ==> extractable_command(#[trigger] cs[k])
}

/// How `1 << shift` reads as a 32-bit signed number.
pub open spec fn i32_power_text(shift: u8) -> Seq<char> {
    if shift == 31 {
        "-2147483648"@
    } else {
        decimal(pow2(shift as nat))
    }
}

/// The range constraint of a command, in the machine-readable form.
pub open spec fn constraint_text(c: Command) -> Seq<char> {
    match c {
        Command::R(_) => "R(0xFFFFFFFF)"@,
        Command::Rdiff(_) => "Rdiff(0xFFFFFFFF)"@,
        Command::Rno0(_) => "R(0xFFFFFFFE)"@,
        Command::UImm(_, len) => "Range(0, "@ + decimal(pow2(len as nat)) + ", 1)"@,
        Command::SImm(_, len) => "Range(-"@ + decimal(pow2((len - 1) as nat)) + ", "@ + decimal(
            (pow2((len - 1) as nat) - 1) as nat,
        ) + ", 1)"@,
        Command::Offset(rel) => match rel {
            Relocation::B16 => "Range(-32768, 32768, 4)"@,
            Relocation::B21 => "Range(-1048576, 1048576, 4)"@,
            Relocation::B26 => "Range(-33554432, 33554432, 4)"@,
            Relocation::ABS_HI20 => "Range(-524288, 524288, 1)"@,
            Relocation::PCADD_SHIFT2 => "Range(-2097152, 2097152, 4)"@,
            Relocation::PCADD_SHIFT12 => "Range(-2147483648, 2147483648, 4096)"@,
            Relocation::PCADD_SHIFT18 => "Range(-137438953472, 137438953472, 262144)"@,
            Relocation::SI14 => "Range(-8192, 8192, 4)"@,
            Relocation::SI12 => "Range(-2048, 2048, 1)"@,
            Relocation::PCALA_LO12 => "Range(-2048, 2048, 1)"@,
            Relocation::PCALA_HI20 => "Range(-2147483648, 2147483648, 4096)"@,
            Relocation::LITERAL8 => "Range(--2147483648, -2147483648, 1)"@,
            Relocation::LITERAL32 => "Range(--2147483648, -2147483648, 1)"@,
            Relocation::LITERAL16 => "Range(-9223372036854775808, 9223372036854775808, 1)"@,
            Relocation::LITERAL64 => "Range(-9223372036854775808, 9223372036854775808, 1)"@,
            _ => seq![],
        },
        Command::F(_) => "F(0xFFFFFFFF)"@,
        Command::C(_) => "C(0x7)"@,
        Command::FCSR(_) => "FCSR(0x3)"@,
        Command::T(_) => "T(0xFFFFFFFF)"@,
        Command::V(_) => "V(0xFFFFFFFF)"@,
        Command::X(_) => "X(0xFFFFFFFF)"@,
        Command::Ufields(a) => "Range(0, "@ + decimal(pow2(odd_sum(a@))) + ", 1)"@,
        Command::Sfields(a) => "Range(-"@ + decimal(pow2((odd_sum(a@) - 1) as nat)) + ", "@ + decimal(
            pow2((odd_sum(a@) - 2) as nat),
        ) + ", 1)"@,
        Command::Usum(_, bits) => "Range2(1, "@ + decimal(pow2(bits as nat)) + "+1, 1)"@,
        Command::Ulep(_, bits) => "Range3(0, "@ + decimal(pow2(bits as nat)) + ", 1)"@,
        Command::Uscaled(_, len, shift) => "Range(0, "@ + decimal(pow2(len as nat)) + ", "@
            + i32_power_text(shift) + ")"@,
        Command::Sscaled(_, len, shift) => "Range(-"@ + decimal(pow2((len - 1) as nat)) + ", "@
            + decimal((pow2((len - 1) as nat) - 1) as nat) + ", "@ + i32_power_text(shift) + ")"@,
        Command::Usubone(_, bitlen) => "Range(1, "@ + decimal(pow2(bitlen as nat) + 1) + ", 1)"@,
        _ => seq![],
    }
}

/// The numbered constraint lines of a list of commands: `index: constraint` for each
/// command that encodes an argument, numbered from 0.
pub open spec fn constraint_lines(cs: Seq<Command>) -> Seq<Seq<char>>
    decreases cs.len(),
{
    if cs.len() == 0 {
        seq![]
    } else {
        let lines = constraint_lines(cs.drop_last());
        if is_meta(cs.last()) {
            lines
        } else {
            lines.push(decimal(lines.len()) + ": "@ + constraint_text(cs.last()))
        }
    }
}

/// The target entries of a form's extracted architecture flags.
pub open spec fn isa_entries(isa: ISAFlags) -> Seq<Seq<char>> {
    (if isa.spec_contains(ISA_LA32) {
        seq!["\"la32\""@]
    } else {
        seq![]
    }) + (if isa.spec_contains(ISA_LA64) {
        seq!["\"la64\""@]
    } else {
        seq![]
    })
}

/// An extension set as an extracted entry: its lower-case name in quotes.
pub open spec fn extension_entry(e: ExtensionFlags) -> Seq<char> {
    "\""@ + ascii_lowercase(e.spec_name()) + "\""@
}

/// The extracted architecture flags of a form: the targets and the extension sets, each
/// list in brackets, separated by a tab.
pub open spec fn arch_flags_text(data: Opdata) -> Seq<char> {
    "["@ + join(isa_entries(data.isa_flags), ", "@) + "]\t["@ + join(
        data.ext_flags@.map_values(|e| extension_entry(e)),
        ", "@,
    ) + "]"@
}

/// The extracted form: the quoted name and matchers, the constraints in braces, and the
/// architecture flags, separated by tabs.
pub open spec fn extract_text(name: Seq<char>, data: Opdata) -> Seq<char> {
    let ms = data.matchers@;
    "\""@ + name + (if ms.len() == 0 {
        seq![]
    } else {
        " "@ + join(extract_parts(ms), ", "@)
    }) + "\"\t{"@ + join(constraint_lines(data.commands@), ", "@) + "}\t"@ + arch_flags_text(data)
}

/// Appends `<tag,idx>`.
fn push_slot(buf: &mut String, tag: &str, idx: u128)
    ensures
        final(buf)@ == old(buf)@ + "<"@ + tag@ + ","@ + decimal(idx as nat) + ">"@,
{
    push_str(buf, "<");
    push_str(buf, tag);
    push_str(buf, ",");
    push_decimal(buf, idx);
    push_str(buf, ">");
}

/// Appends how a matcher at argument slot `idx` is shown in an extracted form.
fn push_extract_part(buf: &mut String, m: Matcher, idx: u128)
    requires
        idx < u128::MAX,
    ensures
        final(buf)@ == old(buf)@ + extract_part(m, idx as int),
{
    let ghost start = buf@;
    match m {
        Matcher::R => push_slot(buf, "R", idx),
        Matcher::F => push_slot(buf, "F", idx),
        Matcher::Reg(id) => {
            let s = id.to_string();
            push_str(buf, s.as_str());
        },
        Matcher::Ref => {
            push_str(buf, "[");
            push_slot(buf, "R", idx);
            push_str(buf, "]");
        },
        Matcher::RefOffset => {
            push_str(buf, "[");
            push_slot(buf, "R", idx);
            push_str(buf, ", ");
            push_slot(buf, "Imm", idx + 1);
            push_str(buf, "]");
        },
        Matcher::RefLabel => {
            push_str(buf, "[");
            push_slot(buf, "R", idx);
            push_str(buf, ", ");
            push_slot(buf, "Off", idx + 1);
            push_str(buf, "]");
        },
        Matcher::Imm => push_slot(buf, "Imm", idx),
        Matcher::Offset => push_slot(buf, "Off", idx),
        Matcher::Ident => push_slot(buf, "Ident", idx),
        Matcher::C => push_slot(buf, "C", idx),
        Matcher::T => push_slot(buf, "T", idx),
        Matcher::V => push_slot(buf, "V", idx),
        Matcher::X => push_slot(buf, "X", idx),
        Matcher::FCSR => push_slot(buf, "FCSR", idx),
    }
    proof {
        reveal_strlit("<");
        reveal_strlit(",");
        reveal_strlit(">");
        reveal_strlit("[");
        reveal_strlit("]");
        reveal_strlit(", ");
        reveal_strlit("R");
        reveal_strlit("F");
        reveal_strlit("Imm");
        reveal_strlit("Off");
        reveal_strlit("Ident");
        reveal_strlit("C");
        reveal_strlit("T");
        reveal_strlit("V");
        reveal_strlit("X");
        reveal_strlit("FCSR");
        reveal_strlit("<R,");
        reveal_strlit("<F,");
        reveal_strlit("<Imm,");
        reveal_strlit("<Off,");
        reveal_strlit("<Ident,");
        reveal_strlit("<C,");
        reveal_strlit("<T,");
        reveal_strlit("<V,");
        reveal_strlit("<X,");
        reveal_strlit("<FCSR,");
        reveal_strlit("[<R,");
        reveal_strlit(">]");
        reveal_strlit(">, <Imm,");
        reveal_strlit(">, <Off,");
    }
    assert(buf@ =~= start + extract_part(m, idx as int));
}

/// The argument slots are bounded by twice the number of matchers.
proof fn lemma_arg_index_bound(ms: Seq<Matcher>)
    ensures
        0 <= arg_index(ms) <= 2 * ms.len(),
    decreases ms.len(),
{
    if ms.len() > 0 {
        lemma_arg_index_bound(ms.drop_last());
    }
}

/// The sum of a prefix's elements at odd positions is at most that of the whole.
proof fn lemma_odd_sum_prefix(s: Seq<u8>, k: int)
    requires
        0 <= k <= s.len(),
    ensures
        odd_sum(s.take(k)) <= odd_sum(s),
    decreases s.len() - k,
{
    if k < s.len() {
        lemma_odd_sum_prefix(s.drop_last(), k);
        assert(s.drop_last().take(k) =~= s.take(k));
    } else {
        assert(s.take(k) =~= s);
    }
}

/// The sum of the elements at odd positions.
fn odd_sum_of(a: &[u8]) -> (r: u32)
    requires
        odd_sum(a@) <= 32,
    ensures
        r == odd_sum(a@),
{
    let mut sum: u32 = 0;
    let mut i: usize = 0;
    while i < a.len()
        invariant
            i <= a@.len(),
            odd_sum(a@) <= 32,
            sum == odd_sum(a@.take(i as int)),
        decreases a@.len() - i,
    {
        proof {
            lemma_odd_sum_prefix(a@, i + 1);
            assert(a@.take(i + 1).drop_last() =~= a@.take(i as int));
        }
        if i % 2 != 0 {
            sum = sum + a[i] as u32;
        }
        i = i + 1;
    }
    assert(a@.take(a@.len() as int) =~= a@);
    sum
}

/// Appends how `1 << shift` reads as a 32-bit signed number.
fn push_i32_power(buf: &mut String, shift: u8)
    requires
        shift < 32,
    ensures
        final(buf)@ == old(buf)@ + i32_power_text(shift),
{
    if shift == 31 {
        push_str(buf, "-2147483648");
    } else {
        push_decimal(buf, power_of_two(shift as u32) as u128);
    }
}

/// The range constraint of a command, in the machine-readable form.
fn push_constraint(buf: &mut String, c: Command)
    requires
        extractable_command(c),
    ensures
        final(buf)@ == old(buf)@ + constraint_text(c),
{
    let ghost start = buf@;
    match c {
        Command::R(_) => push_str(buf, "R(0xFFFFFFFF)"),
        Command::Rdiff(_) => push_str(buf, "Rdiff(0xFFFFFFFF)"),
        Command::Rno0(_) => push_str(buf, "R(0xFFFFFFFE)"),
        Command::UImm(_, len) => {
            push_str(buf, "Range(0, ");
            push_decimal(buf, power_of_two(len as u32) as u128);
            push_str(buf, ", 1)");
        },
        Command::SImm(_, len) => {
            let half = power_of_two((len - 1) as u32);
            proof {
                vstd::arithmetic::power2::lemma_pow2_pos((len - 1) as nat);
            }
            push_str(buf, "Range(-");
            push_decimal(buf, half as u128);
            push_str(buf, ", ");
            push_decimal(buf, (half - 1) as u128);
            push_str(buf, ", 1)");
        },
        Command::Offset(rel) => match rel {
            Relocation::B16 => push_str(buf, "Range(-32768, 32768, 4)"),
            Relocation::B21 => push_str(buf, "Range(-1048576, 1048576, 4)"),
            Relocation::B26 => push_str(buf, "Range(-33554432, 33554432, 4)"),
            Relocation::ABS_HI20 => push_str(buf, "Range(-524288, 524288, 1)"),
            Relocation::PCADD_SHIFT2 => push_str(buf, "Range(-2097152, 2097152, 4)"),
            Relocation::PCADD_SHIFT12 => push_str(buf, "Range(-2147483648, 2147483648, 4096)"),
            Relocation::PCADD_SHIFT18 => push_str(
                buf,
                "Range(-137438953472, 137438953472, 262144)",
            ),
            Relocation::SI14 => push_str(buf, "Range(-8192, 8192, 4)"),
            Relocation::SI12 => push_str(buf, "Range(-2048, 2048, 1)"),
            Relocation::PCALA_LO12 => push_str(buf, "Range(-2048, 2048, 1)"),
            Relocation::PCALA_HI20 => push_str(buf, "Range(-2147483648, 2147483648, 4096)"),
            Relocation::LITERAL8 => push_str(buf, "Range(--2147483648, -2147483648, 1)"),
            Relocation::LITERAL32 => push_str(buf, "Range(--2147483648, -2147483648, 1)"),
            Relocation::LITERAL16 => push_str(
                buf,
                "Range(-9223372036854775808, 9223372036854775808, 1)",
            ),
            Relocation::LITERAL64 => push_str(
                buf,
                "Range(-9223372036854775808, 9223372036854775808, 1)",
            ),
            _ => {},
        },
        Command::F(_) => push_str(buf, "F(0xFFFFFFFF)"),
        Command::C(_) => push_str(buf, "C(0x7)"),
        Command::FCSR(_) => push_str(buf, "FCSR(0x3)"),
        Command::T(_) => push_str(buf, "T(0xFFFFFFFF)"),
        Command::V(_) => push_str(buf, "V(0xFFFFFFFF)"),
        Command::X(_) => push_str(buf, "X(0xFFFFFFFF)"),
        Command::Ufields(items) => {
            let width = odd_sum_of(items);
            push_str(buf, "Range(0, ");
            push_decimal(buf, power_of_two(width) as u128);
            push_str(buf, ", 1)");
        },
        Command::Sfields(items) => {
            let l = odd_sum_of(items) - 1;
            push_str(buf, "Range(-");
            push_decimal(buf, power_of_two(l) as u128);
            push_str(buf, ", ");
            push_decimal(buf, power_of_two(l - 1) as u128);
            push_str(buf, ", 1)");
        },
        Command::Usum(_, bits) => {
            push_str(buf, "Range2(1, ");
            push_decimal(buf, power_of_two(bits as u32) as u128);
            push_str(buf, "+1, 1)");
        },
        Command::Ulep(_, bits) => {
            push_str(buf, "Range3(0, ");
            push_decimal(buf, power_of_two(bits as u32) as u128);
            push_str(buf, ", 1)");
        },
        Command::Uscaled(_, len, shift) => {
            push_str(buf, "Range(0, ");
            push_decimal(buf, power_of_two(len as u32) as u128);
            push_str(buf, ", ");
            push_i32_power(buf, shift);
            push_str(buf, ")");
        },
        Command::Sscaled(_, len, shift) => {
            let half = power_of_two((len - 1) as u32);
            proof {
                vstd::arithmetic::power2::lemma_pow2_pos((len - 1) as nat);
            }
            push_str(buf, "Range(-");
            push_decimal(buf, half as u128);
            push_str(buf, ", ");
            push_decimal(buf, (half - 1) as u128);
            push_str(buf, ", ");
            push_i32_power(buf, shift);
            push_str(buf, ")");
        },
        Command::Usubone(_, bitlen) => {
            push_str(buf, "Range(1, ");
            push_decimal(buf, (power_of_two(bitlen as u32) + 1) as u128);
            push_str(buf, ", 1)");
        },
        _ => {},
    }
    assert(buf@ =~= start + constraint_text(c));
}

/// The numbered constraint lines of a form's commands: `index: constraint` for each
/// command that encodes an argument.
fn extract_constraints(data: &Opdata) -> (r: Vec<String>)
    requires
        extractable(data.commands@),
    ensures
        r@.map_values(|x: String| x@) == constraint_lines(data.commands@),
{
    let mut constraints: Vec<String> = Vec::new();
    let mut arg_idx: usize = 0;
    let mut i: usize = 0;
    while i < data.commands.len()
        invariant
            i <= data.commands.len(),
            extractable(data.commands@),
            arg_idx == constraints.len() <= i,
            constraints@.map_values(|x: String| x@) == constraint_lines(data.commands@.take(i as int)),
        decreases data.commands.len() - i,
    {
        let c = data.commands[i];
        assert(data.commands@.take(i + 1).drop_last() =~= data.commands@.take(i as int));
        let meta = match c {
            Command::Repeat | Command::Next => true,
            _ => false,
        };
        if !meta {
            let mut line = String::new();
            push_decimal(&mut line, arg_idx as u128);
            push_str(&mut line, ": ");
            assert(extractable_command(data.commands@[i as int]));
            push_constraint(&mut line, c);
            let ghost before = constraints@.map_values(|x: String| x@);
            constraints.push(line);
            assert(constraints@.map_values(|x: String| x@) =~= before.push(line@));
            arg_idx = arg_idx + 1;
        }
        i = i + 1;
    }
    assert(data.commands@.take(data.commands.len() as int) =~= data.commands@);
    constraints
}

/// The extracted architecture flags of a form: the targets and the lower-case extension
/// sets, each list in brackets, separated by a tab.
fn extract_arch_flags(data: &Opdata) -> (r: String)
    ensures
        r@ == arch_flags_text(*data),
{
    let mut isa_entries_v: Vec<String> = Vec::new();
    if data.isa_flags.contains(ISA_LA32) {
        isa_entries_v.push(String::from_str("\"la32\""));
    }
    if data.isa_flags.contains(ISA_LA64) {
        isa_entries_v.push(String::from_str("\"la64\""));
    }
    assert(isa_entries_v@.map_values(|x: String| x@) =~= isa_entries(data.isa_flags));
    let mut ext_sets: Vec<String> = Vec::new();
    let mut i: usize = 0;
    while i < data.ext_flags.len()
        invariant
            i <= data.ext_flags.len(),
            ext_sets@.map_values(|x: String| x@) == data.ext_flags@.take(i as int).map_values(
                |e| extension_entry(e),
            ),
        decreases data.ext_flags.len() - i,
    {
        let name = data.ext_flags[i].to_string();
        let lower = to_ascii_lowercase(name.as_str());
        let mut entry = String::from_str("\"");
        push_str(&mut entry, lower.as_str());
        push_str(&mut entry, "\"");
        ext_sets.push(entry);
        assert(data.ext_flags@.take(i + 1).map_values(|e| extension_entry(e)) =~= data.ext_flags@.take(
            i as int,
        ).map_values(|e| extension_entry(e)).push(extension_entry(data.ext_flags@[i as int])));
        assert(ext_sets@.map_values(|x: String| x@) =~= data.ext_flags@.take(i + 1).map_values(
            |e| extension_entry(e),
        ));
        i = i + 1;
    }
    assert(data.ext_flags@.take(data.ext_flags.len() as int) =~= data.ext_flags@);
    let mut r = String::from_str("[");
    let isa = join_strings(&isa_entries_v, ", ");
    push_str(&mut r, isa.as_str());
    push_str(&mut r, "]\t[");
    let exts = join_strings(&ext_sets, ", ");
    push_str(&mut r, exts.as_str());
    push_str(&mut r, "]");
    r
}

/// The machine-readable form of an instruction form: the quoted name with its matchers
/// and their argument slots, the numbered constraints in braces, and the architecture
/// flags, separated by tabs.
pub fn extract_opdata(name: &str, data: &Opdata) -> (r: String)
    requires
        extractable(data.commands@),
    ensures
        r@ == extract_text(name@, *data),
{
    let mut buf = String::from_str("\"");
    push_str(&mut buf, name);
    let ghost head = buf@;
    let ghost ms = data.matchers@;
    let constraints = extract_constraints(data);
    let joined_constraints = join_strings(&constraints, ", ");
    let mut arg_idx: u128 = 0;
    let mut i: usize = 0;
    while i < data.matchers.len()
        invariant
            i <= data.matchers.len(),
            ms == data.matchers@,
            head == "\""@ + name@,
            arg_idx == arg_index(ms.take(i as int)),
            i == 0 ==> buf@ == head,
            i > 0 ==> buf@ == head + " "@ + join(extract_parts(ms.take(i as int)), ", "@),
        decreases data.matchers.len() - i,
    {
        proof {
            lemma_arg_index_bound(ms.take(i as int));
            assert(ms.take(i + 1).drop_last() =~= ms.take(i as int));
        }
        if i == 0 {
            push_str(&mut buf, " ");
        } else {
            push_str(&mut buf, ", ");
        }
        let m = data.matchers[i];
        push_extract_part(&mut buf, m, arg_idx);
        proof {
            let before = extract_parts(ms.take(i as int));
            let after = extract_parts(ms.take(i + 1));
            assert forall|k: int| 0 <= k < i implies ms.take(i + 1).take(k) =~= ms.take(
                i as int,
            ).take(k) by {}
            assert(after =~= before.push(extract_part(ms[i as int], arg_index(ms.take(i as int)))));
            assert(after.drop_last() =~= before);
            if i == 0 {
                assert(after =~= seq![after[0]]);
            }
            assert(buf@ =~= head + " "@ + join(after, ", "@));
        }
        arg_idx = match m {
            Matcher::RefOffset | Matcher::RefLabel => arg_idx + 2,
            Matcher::Reg(_) => arg_idx,
            _ => arg_idx + 1,
        };
        i = i + 1;
    }
    assert(ms.take(data.matchers.len() as int) =~= ms);
    push_str(&mut buf, "\"\t{");
    push_str(&mut buf, joined_constraints.as_str());
    push_str(&mut buf, "}\t");
    let flags = extract_arch_flags(data);
    push_str(&mut buf, flags.as_str());
    assert(buf@ =~= extract_text(name@, *data));
    buf
}

/// The marker that starts a form in error messages.
pub open spec fn form_marker() -> Seq<char> {
    seq!['>', '>', '>', ' ']
}

/// `s` with every occurrence of `pat` taken out, from left to right.
pub open spec fn remove_all(s: Seq<char>, pat: Seq<char>) -> Seq<char>
    decreases s.len(),
{
    if s.len() == 0 {
        s
    } else if pat.len() > 0 && s.len() >= pat.len() && s.take(pat.len() as int) == pat {
        remove_all(s.skip(pat.len() as int), pat)
    } else {
        seq![s[0]] + remove_all(s.drop_first(), pat)
    }
}

/// The texts of `ss` one after another.
pub open spec fn concat(ss: Seq<Seq<char>>) -> Seq<char>
    decreases ss.len(),
{
    if ss.len() == 0 {
        seq![]
    } else {
        concat(ss.drop_last()) + ss.last()
    }
}

/// The reference section of a mnemonic: a heading, and its form lines without the form
/// marker in an `insref` block.
pub open spec fn section_text(name: Seq<char>, forms: Seq<Opdata>) -> Seq<char> {
    "### "@ + name + "\n```insref\n"@ + join(
        forms.map_values(|x: Opdata| remove_all(form_line(name, x), form_marker())),
        "\n"@,
    ) + "\n```\n"@
}

/// The reference of a table: the section of each mnemonic, in the table's order.
pub open spec fn opmap_text(t: OpTable) -> Seq<char> {
    concat(
        Seq::new(
            t.entries@.len(),
            |i: int| section_text(t.names()[i], t.entries@[i].1@),
        ),
    )
}

/// The extracted forms of a table: the forms of each mnemonic in the table's order.
pub open spec fn extract_lines(t: OpTable) -> Seq<Seq<char>> {
    Seq::new(
        t.entries@.len(),
        |i: int| t.entries@[i].1@.map_values(|x: Opdata| extract_text(t.names()[i], x)),
    ).flatten()
}

/// Whether the constraints of every form of the table can be shown.
pub open spec fn table_describable(t: OpTable) -> bool {
    forall|i: int, j: int|
        0 <= i < t.entries@.len() && 0 <= j < t.entries@[i].1@.len() ==> form_describable(
            #[trigger] t.entries@[i].1@[j],
        )
}

/// Whether every form of the table has constraints that can be extracted.
pub open spec fn table_extractable(t: OpTable) -> bool {
    forall|i: int, j: int|
        0 <= i < t.entries@.len() && 0 <= j < t.entries@[i].1@.len() ==> extractable(
            #[trigger] t.entries@[i].1@[j].commands@,
        )
}

/// The text with every form marker taken out.
fn remove_markers(text: &str) -> (r: String)
    ensures
        r@ == remove_all(text@, form_marker()),
{
    let c = chars_of(text);
    let ghost pat = form_marker();
    let mut r = String::new();
    let mut i: usize = 0;
    assert(c@.skip(0) =~= c@);
    while i < c.len()
        invariant
            i <= c.len(),
            c@ == text@,
            pat == form_marker(),
            r@ + remove_all(c@.skip(i as int), pat) == remove_all(text@, pat),
        decreases c.len() - i,
    {
        let ghost rest = c@.skip(i as int);
        if c.len() - i >= 4 && c[i] == '>' && c[i + 1] == '>' && c[i + 2] == '>' && c[i + 3] == ' ' {
            assert(rest.take(4) =~= pat);
            assert(rest.skip(4) =~= c@.skip(i + 4));
            i = i + 4;
        } else {
            assert(!(rest.len() >= 4 && rest.take(4) == pat)) by {
                if rest.len() >= 4 && rest.take(4) == pat {
                    assert(rest.take(4)[0] == c@[i as int]);
                    assert(rest.take(4)[1] == c@[i + 1]);
                    assert(rest.take(4)[2] == c@[i + 2]);
                    assert(rest.take(4)[3] == c@[i + 3]);
                }
            }
            assert(rest.drop_first() =~= c@.skip(i + 1));
            let ghost before = r@;
            push_char(&mut r, c[i]);
            assert(r@ + remove_all(c@.skip(i + 1), pat) =~= before + (seq![rest[0]] + remove_all(
                rest.drop_first(),
                pat,
            )));
            i = i + 1;
        }
    }
    assert(c@.skip(c.len() as int) =~= Seq::<char>::empty());
    assert(r@ + remove_all(Seq::<char>::empty(), pat) =~= r@);
    r
}

/// The reference of all mnemonics in the table, in the table's (ascending) order: for
/// each, a heading and its forms with their feature labels in an `insref` block.
pub fn create_opmap(table: &OpTable) -> (r: String)
    requires
        table.wf(),
        table_describable(*table),
    ensures
        r@ == opmap_text(*table),
{
    let mut s = String::new();
    let ghost sections = Seq::new(
        table.entries@.len(),
        |i: int| section_text(table.names()[i], table.entries@[i].1@),
    );
    let mut k: usize = 0;
    while k < table.entries.len()
        invariant
            k <= table.entries.len(),
            table_describable(*table),
            sections == Seq::new(
                table.entries@.len(),
                |i: int| section_text(table.names()[i], table.entries@[i].1@),
            ),
            s@ == concat(sections.take(k as int)),
        decreases table.entries.len() - k,
    {
        let mnemonic = table.entries[k].0.as_str();
        let data = &table.entries[k].1;
        let ghost name = table.names()[k as int];
        assert(mnemonic@ == name);
        let mut formats: Vec<String> = Vec::new();
        let mut j: usize = 0;
        while j < data.len()
            invariant
                j <= data.len(),
                mnemonic@ == name,
                k < table.entries@.len(),
                data@ == table.entries@[k as int].1@,
                table_describable(*table),
                formats@.map_values(|x: String| x@) == data@.take(j as int).map_values(
                    |x: Opdata| remove_all(form_line(name, x), form_marker()),
                ),
            decreases data.len() - j,
        {
            assert(form_describable(table.entries@[k as int].1@[j as int]));
            let mut line = format_opdata(mnemonic, &data[j]);
            push_str(&mut line, " ");
            let features = format_features(&data[j]);
            push_str(&mut line, features.as_str());
            let cleaned = remove_markers(line.as_str());
            let ghost before = formats@.map_values(|x: String| x@);
            formats.push(cleaned);
            assert(formats@.map_values(|x: String| x@) =~= before.push(cleaned@));
            assert(data@.take(j + 1).map_values(|x: Opdata| remove_all(form_line(name, x), form_marker()))
                =~= data@.take(j as int).map_values(
                |x: Opdata| remove_all(form_line(name, x), form_marker()),
            ).push(remove_all(form_line(name, data@[j as int]), form_marker())));
            j = j + 1;
        }
        assert(data@.take(data.len() as int) =~= data@);
        push_str(&mut s, "### ");
        push_str(&mut s, mnemonic);
        push_str(&mut s, "\n```insref\n");
        let joined = join_strings(&formats, "\n");
        push_str(&mut s, joined.as_str());
        push_str(&mut s, "\n```\n");
        assert(sections.take(k + 1).drop_last() =~= sections.take(k as int));
        assert(s@ =~= concat(sections.take(k + 1)));
        k = k + 1;
    }
    assert(sections.take(table.entries.len() as int) =~= sections);
    s
}

/// The machine-readable forms of all mnemonics in the table, in the table's (ascending)
/// order, one per line.
pub fn extract_opmap(table: &OpTable) -> (r: String)
    requires
        table.wf(),
        table_extractable(*table),
    ensures
        r@ == join(extract_lines(*table), "\n"@),
{
    let mut buf: Vec<String> = Vec::new();
    let ghost groups = Seq::new(
        table.entries@.len(),
        |i: int| table.entries@[i].1@.map_values(|x: Opdata| extract_text(table.names()[i], x)),
    );
    let mut k: usize = 0;
    while k < table.entries.len()
        invariant
            k <= table.entries.len(),
            table_extractable(*table),
            groups == Seq::new(
                table.entries@.len(),
                |i: int| table.entries@[i].1@.map_values(|x: Opdata| extract_text(table.names()[i], x)),
            ),
            buf@.map_values(|x: String| x@) == groups.take(k as int).flatten(),
        decreases table.entries.len() - k,
    {
        let mnemonic = table.entries[k].0.as_str();
        let data = &table.entries[k].1;
        let ghost name = table.names()[k as int];
        let ghost start = buf@.map_values(|x: String| x@);
        let mut j: usize = 0;
        while j < data.len()
            invariant
                j <= data.len(),
                mnemonic@ == name,
                data@ == table.entries@[k as int].1@,
                k < table.entries@.len(),
                table_extractable(*table),
                buf@.map_values(|x: String| x@) == start + data@.take(j as int).map_values(
                    |x: Opdata| extract_text(name, x),
                ),
            decreases data.len() - j,
        {
            assert(extractable(table.entries@[k as int].1@[j as int].commands@));
            let line = extract_opdata(mnemonic, &data[j]);
            let ghost before = buf@.map_values(|x: String| x@);
            buf.push(line);
            assert(buf@.map_values(|x: String| x@) =~= before.push(line@));
            assert(data@.take(j + 1).map_values(|x: Opdata| extract_text(name, x)) =~= data@.take(
                j as int,
            ).map_values(|x: Opdata| extract_text(name, x)).push(extract_text(name, data@[j as int])));
            j = j + 1;
        }
        assert(data@.take(data.len() as int) =~= data@);
        proof {
            assert(groups.take(k + 1) =~= groups.take(k as int).push(groups[k as int]));
            groups.take(k as int).lemma_flatten_push(groups[k as int]);
        }
        k = k + 1;
    }
    assert(groups.take(table.entries.len() as int) =~= groups);
    join_strings(&buf, "\n")
}

} // verus!
