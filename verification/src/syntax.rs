//! The syntax of an instruction, read from the tokens of the assembler's input: a dotted
//! mnemonic, then arguments separated by commas. An argument is a label reference, a
//! memory reference, a register or an immediate:
//!
//! ```text
//! instruction : ident ("." (ident | integer))* (arg ("," arg)*)? ;
//! arg         : labelref | "[" register ("," (labelref | immediate))? "]" | register
//!             | "#"? "-"? integer "(" register ")" | immediate ;
//! register    : static_reg_name | dynamic_reg_family "(" expr ")" ;
//! labelref    : "extern" expr | ("->" | ">" | "<") ident (("+" | "-") expr)? | "=>" expr ;
//! immediate   : "#"? expr ;
//! ```
//!
//! An expression runs up to the next `,` or `;` outside parentheses, brackets and braces,
//! or to the end of the group it stands in. An immediate whose expression is an integer
//! literal followed by a register alone in parentheses (`-403(r2)`) is the memory reference
//! with that base and offset: no expression has that form.

use vstd::prelude::*;
use crate::ast::{ImmExpr, Jump, ParsedInstruction, RawArg, Register};
use crate::parser::{parse_reg, reg_named};
use crate::text::push_str;

verus! {

/// The kind of a group of tokens.
#[derive(Debug, Clone, Copy, PartialEq, Eq, Structural)]
pub enum Delimiter {
    /// `( ... )`
    Parenthesis,
    /// `[ ... ]`
    Bracket,
    /// `{ ... }`
    Brace,
}

/// A token of the assembler's input.
#[derive(Debug)]
pub enum Token {
    /// An identifier or a keyword.
    Ident(String),
    /// An integer literal: its value in decimal digits, and its type suffix (possibly
    /// empty).
    Int { digits: String, suffix: String },
    /// Any other literal, as written.
    Literal(String),
    /// A punctuation character; `joint` when the next character belongs to the same
    /// operator (the `-` of `->`).
    Punct { ch: char, joint: bool },
    /// The start of a group.
    Open(Delimiter),
    /// The end of a group.
    Close(Delimiter),
}

/// Where reading stopped (a token index) and why.
#[derive(Debug)]
pub struct SyntaxError {
    /// The index of the token where reading stopped.
    pub at: usize,
    /// The message.
    pub message: String,
}

/// A reading failure: the token index and the message.
pub type Failure = (int, Seq<char>);

/// Whether `r` is the failure `f`.
pub open spec fn failed_as<T>(r: Result<T, SyntaxError>, f: Failure) -> bool {
    r matches Err(e) && e.at as int == f.0 && e.message@ == f.1
}

/// A failure at token `at`.
fn fail<T>(at: usize, message: &str) -> (r: Result<T, SyntaxError>)
    ensures
        failed_as(r, (at as int, message@)),
{
    Err(SyntaxError { at, message: String::from_str(message) })
}

/// Whether a token is the punctuation character `c`.
pub open spec fn is_punct(t: Token, c: char) -> bool {
    t matches Token::Punct { ch, .. } && ch == c
}

/// Whether a token is the punctuation character `c`, joined to the next one.
pub open spec fn is_joint_punct(t: Token, c: char) -> bool {
    t matches Token::Punct { ch, joint } && ch == c && joint
}

/// Whether token `i` is the punctuation character `c`.
pub open spec fn punct_at(ts: Seq<Token>, i: int, c: char) -> bool {
    0 <= i < ts.len() && is_punct(ts[i], c)
}

/// Whether token `i` is the punctuation character `c`.
fn punct_at_exec(ts: &Vec<Token>, i: usize, c: char) -> (r: bool)
    ensures
        r == punct_at(ts@, i as int, c),
{
    if i < ts.len() {
        match &ts[i] {
            Token::Punct { ch, .. } => *ch == c,
            _ => false,
        }
    } else {
        false
    }
}

/// Whether token `i` is the punctuation character `c`, joined to the next one.
fn joint_punct_at_exec(ts: &Vec<Token>, i: usize, c: char) -> (r: bool)
    ensures
        r == (0 <= i < ts@.len() && is_joint_punct(ts@[i as int], c)),
{
    if i < ts.len() {
        match &ts[i] {
            Token::Punct { ch, joint } => *ch == c && *joint,
            _ => false,
        }
    } else {
        false
    }
}

// ---------------------------------------------------------------------------------------
// Groups and expressions

/// The index of the token that closes the group whose contents start at token `i`, when
/// `depth` groups opened since are still open.
pub open spec fn group_close(ts: Seq<Token>, i: int, depth: nat) -> Option<int>
    decreases ts.len() - i,
{
    if i < 0 || i >= ts.len() {
        None
    } else {
        match ts[i] {
            Token::Open(_) => group_close(ts, i + 1, depth + 1),
            Token::Close(_) => if depth == 0 {
                Some(i)
            } else {
                group_close(ts, i + 1, (depth - 1) as nat)
            },
            _ => group_close(ts, i + 1, depth),
        }
    }
}

/// Where an expression that starts at token `i` ends, when `depth` groups opened since
/// are still open: at the first `,` or `;` outside groups, at the end of the group it
/// stands in, or at the end of the tokens.
pub open spec fn run_end(ts: Seq<Token>, i: int, depth: nat) -> int
    decreases ts.len() - i,
{
    if i < 0 || i >= ts.len() {
        ts.len() as int
    } else {
        match ts[i] {
            Token::Open(_) => run_end(ts, i + 1, depth + 1),
            Token::Close(_) => if depth == 0 {
                i
            } else {
                run_end(ts, i + 1, (depth - 1) as nat)
            },
            Token::Punct { ch, .. } => if depth == 0 && (ch == ',' || ch == ';') {
                i
            } else {
                run_end(ts, i + 1, depth)
            },
            _ => run_end(ts, i + 1, depth),
        }
    }
}

/// A group's close lies at or after the start of its contents.
proof fn lemma_group_close_bounds(ts: Seq<Token>, i: int, depth: nat)
    requires
        0 <= i,
    ensures
        group_close(ts, i, depth) matches Some(c) ==> i <= c < ts.len(),
    decreases ts.len() - i,
{
    if i < ts.len() {
        match ts[i] {
            Token::Open(_) => lemma_group_close_bounds(ts, i + 1, depth + 1),
            Token::Close(_) => if depth > 0 {
                lemma_group_close_bounds(ts, i + 1, (depth - 1) as nat);
            },
            _ => lemma_group_close_bounds(ts, i + 1, depth),
        }
    }
}

/// An expression that starts within the tokens ends at or after its start, and at the
/// latest at their end; one that starts after them ends at their end.
proof fn lemma_run_end_bounds(ts: Seq<Token>, i: int, depth: nat)
    requires
        0 <= i,
    ensures
        i <= ts.len() ==> i <= run_end(ts, i, depth) <= ts.len(),
        i > ts.len() ==> run_end(ts, i, depth) == ts.len(),
    decreases ts.len() - i,
{
    if i < ts.len() {
        match ts[i] {
            Token::Open(_) => lemma_run_end_bounds(ts, i + 1, depth + 1),
            Token::Close(_) => if depth > 0 {
                lemma_run_end_bounds(ts, i + 1, (depth - 1) as nat);
            },
            Token::Punct { ch, .. } => if !(depth == 0 && (ch == ',' || ch == ';')) {
                lemma_run_end_bounds(ts, i + 1, depth);
            },
            _ => lemma_run_end_bounds(ts, i + 1, depth),
        }
    }
}

/// Finds the close of the group whose contents start at token `i`.
fn group_close_of(ts: &Vec<Token>, i: usize) -> (r: Option<usize>)
    ensures
        match group_close(ts@, i as int, 0) {
            Some(c) => r == Some(c as usize),
            None => r is None,
        },
{
    let mut j = i;
    let mut depth: usize = 0;
    while j < ts.len()
        invariant
            i <= j,
            depth <= j - i,
            group_close(ts@, j as int, depth as nat) == group_close(ts@, i as int, 0),
        decreases ts.len() - j,
    {
        match &ts[j] {
            Token::Open(_) => {
                depth = depth + 1;
            },
            Token::Close(_) => {
                if depth == 0 {
                    return Some(j);
                }
                depth = depth - 1;
            },
            _ => {},
        }
        j = j + 1;
    }
    None
}

/// Finds where an expression that starts at token `i` ends.
fn run_end_of(ts: &Vec<Token>, i: usize) -> (r: usize)
    ensures
        r as int == run_end(ts@, i as int, 0),
{
    let mut j = i;
    let mut depth: usize = 0;
    if i >= ts.len() {
        return ts.len();
    }
    while j < ts.len()
        invariant
            i <= j,
            depth <= j - i,
            run_end(ts@, j as int, depth as nat) == run_end(ts@, i as int, 0),
        decreases ts.len() - j,
    {
        match &ts[j] {
            Token::Open(_) => {
                depth = depth + 1;
            },
            Token::Close(_) => {
                if depth == 0 {
                    return j;
                }
                depth = depth - 1;
            },
            Token::Punct { ch, .. } => {
                if depth == 0 && (*ch == ',' || *ch == ';') {
                    return j;
                }
            },
            _ => {},
        }
        j = j + 1;
    }
    ts.len()
}

// ---------------------------------------------------------------------------------------
// Numbers

/// The value of a string of decimal digits.
pub open spec fn digits_value(d: Seq<char>) -> int
    decreases d.len(),
{
    if d.len() == 0 {
        0
    } else {
        digits_value(d.drop_last()) * 10 + (d.last() as int - '0' as int)
    }
}

/// Whether every character is a decimal digit.
pub open spec fn all_digits(d: Seq<char>) -> bool {
    forall|k: int| 0 <= k < d.len() ==> '0' <= #[trigger] d[k] <= '9'
}

/// The value of an integer literal's decimal digits, when there are some and the value
/// fits in 64 unsigned bits.
pub open spec fn literal_value(d: Seq<char>) -> Option<int> {
    if d.len() > 0 && all_digits(d) && 0 <= digits_value(d) <= u64::MAX {
        Some(digits_value(d))
    } else {
        None
    }
}

/// A string of digits is worth at least its first digits, ten times over for each digit
/// after them.
proof fn lemma_digits_value_nonneg(d: Seq<char>)
    requires
        all_digits(d),
    ensures
        digits_value(d) >= 0,
    decreases d.len(),
{
    if d.len() > 0 {
        lemma_digits_value_nonneg(d.drop_last());
    }
}

/// Reads the value of an integer literal's decimal digits.
fn literal_value_of(digits: &String) -> (r: Option<u64>)
    ensures
        match literal_value(digits@) {
            Some(v) => r == Some(v as u64),
            None => r is None,
        },
{
    broadcast use vstd::string::is_ascii_spec_bytes, vstd::utf8::is_ascii_chars_nat_bound;

    let s = digits.as_str();
    if !s.is_ascii() {
        assert(!all_digits(digits@) || digits@.len() == 0) by {
            if all_digits(digits@) {
                assert(vstd::utf8::is_ascii_chars(digits@));
            }
        }
        return None;
    }
    let b = s.as_bytes();
    if b.len() == 0 {
        return None;
    }
    let mut value: u64 = 0;
    let mut k: usize = 0;
    while k < b.len()
        invariant
            k <= b.len(),
            b@.len() == digits@.len(),
            vstd::utf8::is_ascii_chars(digits@),
            forall|m: int| 0 <= m < b@.len() ==> b@[m] == digits@[m] as u8,
            all_digits(digits@.take(k as int)),
            value as int == digits_value(digits@.take(k as int)),
        decreases b.len() - k,
    {
        let c = b[k];
        assert(digits@.take(k + 1).drop_last() =~= digits@.take(k as int));
        assert((digits@[k as int] as nat) < 128);
        if c < 48 || c > 57 {
            assert(!all_digits(digits@));
            return None;
        }
        assert('0' <= digits@[k as int] <= '9');
        let d = (c - 48) as u64;
        assert(digits@[k as int] as int - '0' as int == d);
        match value.checked_mul(10) {
            None => {
                proof {
                    if all_digits(digits@) {
                        lemma_digits_value_prefix(digits@, (k + 1) as int);
                    }
                }
                return None;
            },
            Some(t) => match t.checked_add(d) {
                None => {
                    proof {
                        if all_digits(digits@) {
                            lemma_digits_value_prefix(digits@, (k + 1) as int);
                        }
                    }
                    return None;
                },
                Some(u) => {
                    value = u;
                },
            },
        }
        k = k + 1;
    }
    assert(digits@.take(b.len() as int) =~= digits@);
    Some(value)
}

/// The value of a string of digits is at least that of any of its prefixes.
proof fn lemma_digits_value_prefix(d: Seq<char>, k: int)
    requires
        0 <= k <= d.len(),
        all_digits(d),
    ensures
        digits_value(d) >= digits_value(d.take(k)),
    decreases d.len() - k,
{
    if k < d.len() {
        lemma_digits_value_prefix(d.drop_last(), if k < d.len() { k } else { k - 1 });
        assert(d.drop_last().take(k) =~= d.take(k));
        lemma_digits_value_nonneg(d.drop_last());
        assert(all_digits(d.drop_last()));
    } else {
        assert(d.take(k) =~= d);
    }
}

/// The number that the tokens of an expression give when they are an integer literal,
/// possibly negated, that fits in 64 signed bits.
pub open spec fn literal_number(r: Seq<Token>) -> Option<i64> {
    if r.len() == 1 {
        match r[0] {
            Token::Int { digits, .. } => match literal_value(digits@) {
                Some(v) => if v <= i64::MAX {
                    Some(v as i64)
                } else {
                    None
                },
                None => None,
            },
            _ => None,
        }
    } else if r.len() == 2 && is_punct(r[0], '-') {
        match r[1] {
            Token::Int { digits, .. } => match literal_value(digits@) {
                Some(v) => if v <= 0x8000_0000_0000_0000 {
                    Some((-v) as i64)
                } else {
                    None
                },
                None => None,
            },
            _ => None,
        }
    } else {
        None
    }
}

/// What the assembler can tell of the expression that tokens `start..end` form.
pub open spec fn expression_of(ts: Seq<Token>, start: int, end: int) -> ImmExpr {
    let r = ts.subrange(start, end);
    ImmExpr { number: literal_number(r), is_ident: r.len() == 1 && r[0] is Ident }
}

/// Summarizes the expression that tokens `start..end` form.
fn expression_of_tokens(ts: &Vec<Token>, start: usize, end: usize) -> (r: ImmExpr)
    requires
        start <= end <= ts.len(),
    ensures
        r == expression_of(ts@, start as int, end as int),
{
    let ghost sub = ts@.subrange(start as int, end as int);
    let mut number: Option<i64> = None;
    let mut is_ident = false;
    if end > start {
        assert(sub[0] == ts@[start as int]);
    }
    if end - start == 1 {
        match &ts[start] {
            Token::Int { digits, .. } => {
                number = match literal_value_of(digits) {
                    Some(v) => if v <= 0x7FFF_FFFF_FFFF_FFFF {
                        Some(v as i64)
                    } else {
                        None
                    },
                    None => None,
                };
            },
            Token::Ident(_) => {
                is_ident = true;
            },
            _ => {},
        }
    } else if end - start == 2 && punct_at_exec(ts, start, '-') {
        assert(sub[0] == ts@[start as int]);
        assert(sub[1] == ts@[start + 1]);
        match &ts[start + 1] {
            Token::Int { digits, .. } => {
                number = match literal_value_of(digits) {
                    Some(v) => if v < 0x8000_0000_0000_0000 {
                        Some(0 - (v as i64))
                    } else if v == 0x8000_0000_0000_0000 {
                        Some(i64::MIN)
                    } else {
                        None
                    },
                    None => None,
                };
            },
            _ => {},
        }
    }
    ImmExpr { number, is_ident }
}

// ---------------------------------------------------------------------------------------
// Arguments

/// Where the expression of an immediate at token `i` starts: after an optional `#`.
pub open spec fn immediate_start(ts: Seq<Token>, i: int) -> int {
    if punct_at(ts, i, '#') {
        i + 1
    } else {
        i
    }
}

/// How many tokens an integer literal at token `s` takes, with an optional `-` before it;
/// 0 when none stands there.
pub open spec fn literal_len(ts: Seq<Token>, s: int) -> int {
    if 0 <= s < ts.len() && ts[s] is Int {
        1
    } else if punct_at(ts, s, '-') && 0 <= s + 1 < ts.len() && ts[s + 1] is Int {
        2
    } else {
        0
    }
}

/// A memory reference in the form `offset(base)` that fills tokens `s..end`: an integer
/// literal (optionally negated), then the base register alone in parentheses. It gives
/// where the offset ends and the base. No Rust expression has this form, as a literal
/// cannot be called, so an immediate never reads as one.
pub open spec fn offset_base(ts: Seq<Token>, s: int, end: int, aliases: Seq<(String, String)>) -> Option<
    (int, Register),
> {
    let p = s + literal_len(ts, s);
    if literal_len(ts, s) > 0 && opens_at(ts, p, Delimiter::Parenthesis) && group_close(ts, p + 1, 0)
        == Some(end - 1) {
        match register_at(ts, p + 1, aliases) {
            Ok(Some((base, q))) => if q == end - 1 {
                Some((p, base))
            } else {
                None
            },
            _ => None,
        }
    } else {
        None
    }
}

/// An immediate from token `i` on: an optional `#`, then an expression.
pub open spec fn immediate_at(ts: Seq<Token>, i: int) -> Result<(ImmExpr, int), Failure> {
    let start = immediate_start(ts, i);
    let end = run_end(ts, start, 0);
    if end <= start {
        Err((start, "expected expression"@))
    } else {
        Ok((expression_of(ts, start, end), end))
    }
}

/// The end of a label's optional offset (`+ expr` or `- expr`) from token `i` on.
pub open spec fn label_offset_end(ts: Seq<Token>, i: int) -> Result<int, Failure> {
    if punct_at(ts, i, '+') || punct_at(ts, i, '-') {
        let end = run_end(ts, i + 1, 0);
        if end <= i + 1 {
            Err((i + 1, "expected expression"@))
        } else {
            Ok(end)
        }
    } else {
        Ok(i)
    }
}

/// A named label from token `i` on: its name, then an optional offset.
pub open spec fn named_label(ts: Seq<Token>, i: int) -> Result<(Jump, int), Failure> {
    if 0 <= i < ts.len() && ts[i] is Ident {
        match label_offset_end(ts, i + 1) {
            Ok(end) => Ok((Jump { bare: false }, end)),
            Err(e) => Err(e),
        }
    } else {
        Err((i, "expected identifier"@))
    }
}

/// A label from token `i` on whose expression follows at token `start`.
pub open spec fn expression_label(ts: Seq<Token>, start: int, bare: bool) -> Result<(Jump, int), Failure> {
    let end = run_end(ts, start, 0);
    if end <= start {
        Err((start, "expected expression"@))
    } else {
        Ok((Jump { bare }, end))
    }
}

/// Whether a token is the keyword `extern`.
pub open spec fn is_extern_token(t: Token) -> bool {
    t matches Token::Ident(s) && s@ == "extern"@
}

/// Whether token `i` is the keyword `extern`.
pub open spec fn is_extern(ts: Seq<Token>, i: int) -> bool {
    0 <= i < ts.len() && is_extern_token(ts[i])
}

/// Whether token `i` opens a group of the given kind.
pub open spec fn opens_at(ts: Seq<Token>, i: int, d: Delimiter) -> bool {
    0 <= i < ts.len() && is_open(ts[i], d)
}

/// Whether a token opens a group of the given kind.
pub open spec fn is_open(t: Token, d: Delimiter) -> bool {
    t matches Token::Open(x) && x == d
}

/// A label reference from token `i` on, if one starts there: `extern expr` (an address
/// outside the assembled code), `->name`, `>name` or `<name` (each with an optional
/// offset), or `=>expr` (a dynamic label).
pub open spec fn label_at(ts: Seq<Token>, i: int) -> Option<Result<(Jump, int), Failure>> {
    if !(0 <= i < ts.len()) {
        None
    } else if is_extern(ts, i) {
        Some(expression_label(ts, i + 1, true))
    } else if punct_at(ts, i + 1, '>') && is_joint_punct(ts[i], '=') {
        Some(expression_label(ts, i + 2, false))
    } else if punct_at(ts, i + 1, '>') && is_joint_punct(ts[i], '-') {
        Some(named_label(ts, i + 2))
    } else if is_punct(ts[i], '>') || is_punct(ts[i], '<') {
        Some(named_label(ts, i + 1))
    } else {
        None
    }
}

/// A register from token `i` on, if one starts there: a register name (after alias
/// replacement), or a dynamic register family followed by its number in parentheses.
pub open spec fn register_at(ts: Seq<Token>, i: int, aliases: Seq<(String, String)>) -> Result<
    Option<(Register, int)>,
    Failure,
> {
    if !(0 <= i < ts.len()) {
        Ok(None)
    } else {
        match ts[i] {
            Token::Ident(name) => match reg_named(name@, aliases) {
                Some(Register::Dynamic(f)) => if opens_at(ts, i + 1, Delimiter::Parenthesis) {
                    match group_close(ts, i + 2, 0) {
                        None => Err((i + 1, "unclosed delimiter"@)),
                        Some(c) => if c == i + 2 {
                            Err((i + 2, "expected expression"@))
                        } else {
                            Ok(Some((Register::Dynamic(f), c + 1)))
                        },
                    }
                } else {
                    Err((i + 1, "expected parentheses"@))
                },
                Some(r) => Ok(Some((r, i + 1))),
                None => Ok(None),
            },
            _ => Ok(None),
        }
    }
}

/// A memory reference from token `i` on, which opens a bracket: a base register, then
/// optionally a comma and a label reference or an immediate offset.
pub open spec fn reference_at(ts: Seq<Token>, i: int, aliases: Seq<(String, String)>) -> Result<
    (RawArg, int),
    Failure,
> {
    match group_close(ts, i + 1, 0) {
        None => Err((i, "unclosed delimiter"@)),
        Some(c) => match register_at(ts, i + 1, aliases) {
            Err(e) => Err(e),
            Ok(None) => Err((i + 1, "Expected register"@)),
            Ok(Some((base, j))) => if j == c {
                Ok((RawArg::Reference { offset: None, base }, c + 1))
            } else if j < c && punct_at(ts, j, ',') {
                match label_at(ts, j + 1) {
                    Some(Err(e)) => Err(e),
                    Some(Ok((jump, k))) => if k == c {
                        Ok((RawArg::LabelReference { jump, base }, c + 1))
                    } else {
                        Err((k, "unexpected token"@))
                    },
                    None => match immediate_at(ts, j + 1) {
                        Err(e) => Err(e),
                        Ok((value, k)) => if k == c {
                            Ok((RawArg::Reference { offset: Some(value), base }, c + 1))
                        } else {
                            Err((k, "unexpected token"@))
                        },
                    },
                }
            } else {
                Err((j, "unexpected token"@))
            },
        },
    }
}

/// An argument from token `i` on: a label reference, a memory reference in brackets, a
/// register or an immediate, tried in that order; an immediate of the form `offset(base)`
/// is a memory reference too.
pub open spec fn arg_at(ts: Seq<Token>, i: int, aliases: Seq<(String, String)>) -> Result<
    (RawArg, int),
    Failure,
> {
    match label_at(ts, i) {
        Some(Ok((jump, k))) => Ok((RawArg::JumpTarget { jump }, k)),
        Some(Err(e)) => Err(e),
        None => if opens_at(ts, i, Delimiter::Bracket) {
            reference_at(ts, i, aliases)
        } else {
            match register_at(ts, i, aliases) {
                Err(e) => Err(e),
                Ok(Some((reg, k))) => Ok((RawArg::Register { reg }, k)),
                Ok(None) => match immediate_at(ts, i) {
                    Ok((value, k)) => match offset_base(ts, immediate_start(ts, i), k, aliases) {
                        Some((p, base)) => Ok(
                            (
                                RawArg::Reference {
                                    offset: Some(expression_of(ts, immediate_start(ts, i), p)),
                                    base,
                                },
                                k,
                            ),
                        ),
                        None => Ok((RawArg::Immediate { value }, k)),
                    },
                    Err(e) => Err(e),
                },
            }
        },
    }
}

/// A label reference read from token `i` ends after it.
proof fn lemma_label_advances(ts: Seq<Token>, i: int)
    requires
        0 <= i,
    ensures
        label_at(ts, i) matches Some(Ok((_, k))) ==> i < k <= ts.len(),
{
    lemma_run_end_bounds(ts, i + 1, 0);
    lemma_run_end_bounds(ts, i + 2, 0);
    lemma_run_end_bounds(ts, i + 3, 0);
    lemma_run_end_bounds(ts, i + 4, 0);
}

/// A register read from token `i` ends after it.
proof fn lemma_register_advances(ts: Seq<Token>, i: int, aliases: Seq<(String, String)>)
    requires
        0 <= i,
    ensures
        register_at(ts, i, aliases) matches Ok(Some((_, k))) ==> i < k <= ts.len(),
{
    lemma_group_close_bounds(ts, i + 2, 0);
}

/// An immediate read from token `i` ends after it.
proof fn lemma_immediate_advances(ts: Seq<Token>, i: int)
    requires
        0 <= i,
    ensures
        immediate_at(ts, i) matches Ok((_, k)) ==> i < k <= ts.len(),
{
    lemma_run_end_bounds(ts, i, 0);
    lemma_run_end_bounds(ts, i + 1, 0);
}

/// An argument read from token `i` ends after it.
pub proof fn lemma_arg_advances(ts: Seq<Token>, i: int, aliases: Seq<(String, String)>)
    requires
        0 <= i,
    ensures
        arg_at(ts, i, aliases) matches Ok((_, k)) ==> i < k <= ts.len(),
{
    lemma_label_advances(ts, i);
    lemma_register_advances(ts, i, aliases);
    lemma_immediate_advances(ts, i);
    lemma_group_close_bounds(ts, i + 1, 0);
}

/// The arguments after the first, each following a comma, from token `i` on, appended to
/// `acc`.
pub open spec fn more_args(ts: Seq<Token>, i: int, aliases: Seq<(String, String)>, acc: Seq<RawArg>) -> Result<
    (Seq<RawArg>, int),
    Failure,
>
    decreases ts.len() - i,
{
    if 0 <= i && punct_at(ts, i, ',') {
        match arg_at(ts, i + 1, aliases) {
            Err(e) => Err(e),
            Ok((a, k)) => {
                proof {
                    lemma_arg_advances(ts, i + 1, aliases);
                }
                more_args(ts, k, aliases, acc.push(a))
            },
        }
    } else {
        Ok((acc, i))
    }
}

/// The rest of a dotted mnemonic from token `i` on, appended to `acc`: each `.` followed
/// by an identifier or an integer.
pub open spec fn name_rest(ts: Seq<Token>, i: int, acc: Seq<char>) -> Result<(Seq<char>, int), Failure>
    decreases ts.len() - i,
{
    if 0 <= i && punct_at(ts, i, '.') {
        if i + 1 < ts.len() {
            match ts[i + 1] {
                Token::Ident(s) => name_rest(ts, i + 2, acc + "."@ + s@),
                Token::Int { digits, suffix } => name_rest(
                    ts,
                    i + 2,
                    acc + "."@ + digits@ + suffix@,
                ),
                _ => Err((i + 1, "expected identifier"@)),
            }
        } else {
            Err((i + 1, "expected identifier"@))
        }
    } else {
        Ok((acc, i))
    }
}

/// An instruction read from the start of the tokens: its mnemonic, its arguments and the
/// index of the first token after it. The arguments stop at the end of the tokens, at a
/// `;`, or where no comma follows an argument.
pub open spec fn instruction_at(ts: Seq<Token>, aliases: Seq<(String, String)>) -> Result<
    (Seq<char>, Seq<RawArg>, int),
    Failure,
> {
    let name = if ts.len() > 0 {
        match ts[0] {
            Token::Ident(s) => name_rest(ts, 1, s@),
            _ => Err((0, "expected identifier"@)),
        }
    } else {
        Err((0, "expected identifier"@))
    };
    match name {
        Err(e) => Err(e),
        Ok((name, i)) => if i >= ts.len() || punct_at(ts, i, ';') {
            Ok((name, seq![], i))
        } else {
            match arg_at(ts, i, aliases) {
                Err(e) => Err(e),
                Ok((a, k)) => match more_args(ts, k, aliases, seq![a]) {
                    Err(e) => Err(e),
                    Ok((args, j)) => Ok((name, args, j)),
                },
            }
        },
    }
}

// ---------------------------------------------------------------------------------------
// Reading

/// Whether `r` is what `s` says: the same value and end, or the same failure.
pub open spec fn same_result<T>(r: Result<(T, usize), SyntaxError>, s: Result<(T, int), Failure>) -> bool {
    match s {
        Ok((x, k)) => r matches Ok((y, j)) && y == x && j as int == k,
        Err(f) => failed_as(r, f),
    }
}

/// Reads an immediate from token `i` on.
fn immediate_at_exec(ts: &Vec<Token>, i: usize) -> (r: Result<(ImmExpr, usize), SyntaxError>)
    requires
        i <= ts.len(),
        ts.len() < usize::MAX - 8,
    ensures
        same_result(r, immediate_at(ts@, i as int)),
{
    let start = if punct_at_exec(ts, i, '#') {
        i + 1
    } else {
        i
    };
    let end = run_end_of(ts, start);
    if end <= start {
        return fail(start, "expected expression");
    }
    proof {
        lemma_run_end_bounds(ts@, start as int, 0);
    }
    Ok((expression_of_tokens(ts, start, end), end))
}

/// Reads the optional offset of a label from token `i` on.
fn label_offset_end_exec(ts: &Vec<Token>, i: usize) -> (r: Result<usize, SyntaxError>)
    requires
        i <= ts.len(),
        ts.len() < usize::MAX - 8,
    ensures
        match label_offset_end(ts@, i as int) {
            Ok(k) => r matches Ok(j) && j as int == k,
            Err(f) => failed_as(r, f),
        },
{
    if punct_at_exec(ts, i, '+') || punct_at_exec(ts, i, '-') {
        let end = run_end_of(ts, i + 1);
        if end <= i + 1 {
            return fail(i + 1, "expected expression");
        }
        Ok(end)
    } else {
        Ok(i)
    }
}

/// Reads a named label from token `i` on.
fn named_label_exec(ts: &Vec<Token>, i: usize) -> (r: Result<(Jump, usize), SyntaxError>)
    requires
        i <= ts.len(),
        ts.len() < usize::MAX - 8,
    ensures
        same_result(r, named_label(ts@, i as int)),
{
    if i < ts.len() {
        match &ts[i] {
            Token::Ident(_) => match label_offset_end_exec(ts, i + 1) {
                Ok(end) => Ok((Jump { bare: false }, end)),
                Err(e) => Err(e),
            },
            _ => fail(i, "expected identifier"),
        }
    } else {
        fail(i, "expected identifier")
    }
}

/// Reads a label whose expression starts at token `start`.
fn expression_label_exec(ts: &Vec<Token>, start: usize, bare: bool) -> (r: Result<(Jump, usize), SyntaxError>)
    requires
        start <= ts.len(),
        ts.len() < usize::MAX - 8,
    ensures
        same_result(r, expression_label(ts@, start as int, bare)),
{
    let end = run_end_of(ts, start);
    if end <= start {
        return fail(start, "expected expression");
    }
    Ok((Jump { bare }, end))
}

/// Reads a label reference from token `i` on, if one starts there.
fn label_at_exec(ts: &Vec<Token>, i: usize) -> (r: Option<Result<(Jump, usize), SyntaxError>>)
    requires
        i <= ts.len(),
        ts.len() < usize::MAX - 8,
    ensures
        match label_at(ts@, i as int) {
            None => r is None,
            Some(s) => r matches Some(x) && same_result(x, s),
        },
{
    if i >= ts.len() {
        return None;
    }
    let keyword = String::from_str("extern");
    let is_extern_kw = match &ts[i] {
        Token::Ident(s) => *s == keyword,
        _ => false,
    };
    if is_extern_kw {
        return Some(expression_label_exec(ts, i + 1, true));
    }
    if punct_at_exec(ts, i + 1, '>') && joint_punct_at_exec(ts, i, '=') {
        return Some(expression_label_exec(ts, i + 2, false));
    }
    if punct_at_exec(ts, i + 1, '>') && joint_punct_at_exec(ts, i, '-') {
        return Some(named_label_exec(ts, i + 2));
    }
    if punct_at_exec(ts, i, '>') || punct_at_exec(ts, i, '<') {
        return Some(named_label_exec(ts, i + 1));
    }
    None
}

/// Reads a register from token `i` on, if one starts there.
fn register_at_exec(ts: &Vec<Token>, i: usize, aliases: &[(String, String)]) -> (r: Result<
    Option<(Register, usize)>,
    SyntaxError,
>)
    requires
        i <= ts.len(),
        ts.len() < usize::MAX - 8,
    ensures
        match register_at(ts@, i as int, aliases@) {
            Ok(None) => r matches Ok(None),
            Ok(Some((reg, k))) => r matches Ok(Some((g, j))) && g == reg && j as int == k,
            Err(f) => failed_as(r, f),
        },
{
    if i >= ts.len() {
        return Ok(None);
    }
    match &ts[i] {
        Token::Ident(name) => match parse_reg(name.as_str(), aliases) {
            Some(Register::Dynamic(f)) => {
                let mut opens = false;
                if i + 1 < ts.len() {
                    if let Token::Open(Delimiter::Parenthesis) = &ts[i + 1] {
                        opens = true;
                    }
                }
                if !opens {
                    return fail(i + 1, "expected parentheses");
                }
                proof {
                    lemma_group_close_bounds(ts@, i + 2, 0);
                }
                match group_close_of(ts, i + 2) {
                    None => fail(i + 1, "unclosed delimiter"),
                    Some(c) => if c == i + 2 {
                        fail(i + 2, "expected expression")
                    } else {
                        Ok(Some((Register::Dynamic(f), c + 1)))
                    },
                }
            },
            Some(reg) => Ok(Some((reg, i + 1))),
            None => Ok(None),
        },
        _ => Ok(None),
    }
}

/// Reads a memory reference from token `i` on, which opens a bracket.
fn reference_at_exec(ts: &Vec<Token>, i: usize, aliases: &[(String, String)]) -> (r: Result<
    (RawArg, usize),
    SyntaxError,
>)
    requires
        i < ts.len(),
        ts.len() < usize::MAX - 8,
    ensures
        same_result(r, reference_at(ts@, i as int, aliases@)),
{
    proof {
        lemma_group_close_bounds(ts@, i + 1, 0);
    }
    let c = match group_close_of(ts, i + 1) {
        None => {
            return fail(i, "unclosed delimiter");
        },
        Some(c) => c,
    };
    let (base, j) = match register_at_exec(ts, i + 1, aliases) {
        Err(e) => {
            return Err(e);
        },
        Ok(None) => {
            return fail(i + 1, "Expected register");
        },
        Ok(Some(p)) => p,
    };
    if j == c {
        return Ok((RawArg::Reference { offset: None, base }, c + 1));
    }
    if !(j < c && punct_at_exec(ts, j, ',')) {
        return fail(j, "unexpected token");
    }
    match label_at_exec(ts, j + 1) {
        Some(Err(e)) => Err(e),
        Some(Ok((jump, k))) => if k == c {
            Ok((RawArg::LabelReference { jump, base }, c + 1))
        } else {
            fail(k, "unexpected token")
        },
        None => match immediate_at_exec(ts, j + 1) {
            Err(e) => Err(e),
            Ok((value, k)) => if k == c {
                Ok((RawArg::Reference { offset: Some(value), base }, c + 1))
            } else {
                fail(k, "unexpected token")
            },
        },
    }
}

/// Reads a memory reference of the form `offset(base)` that fills tokens `s..end`.
fn offset_base_exec(ts: &Vec<Token>, s: usize, end: usize, aliases: &[(String, String)]) -> (r: Option<
    (usize, Register),
>)
    requires
        s <= end <= ts.len(),
        ts.len() < usize::MAX - 8,
    ensures
        match offset_base(ts@, s as int, end as int, aliases@) {
            Some((p, base)) => r matches Some((q, b)) && q as int == p && b == base,
            None => r is None,
        },
{
    let mut n: usize = 0;
    if s < ts.len() {
        if let Token::Int { .. } = &ts[s] {
            n = 1;
        } else if punct_at_exec(ts, s, '-') && s + 1 < ts.len() {
            if let Token::Int { .. } = &ts[s + 1] {
                n = 2;
            }
        }
    }
    if n == 0 {
        return None;
    }
    let p = s + n;
    if !(p < ts.len()) {
        return None;
    }
    if let Token::Open(Delimiter::Parenthesis) = &ts[p] {
    } else {
        return None;
    }
    proof {
        lemma_group_close_bounds(ts@, p + 1, 0);
    }
    match group_close_of(ts, p + 1) {
        Some(c) => if c + 1 != end {
            return None;
        },
        None => {
            return None;
        },
    }
    match register_at_exec(ts, p + 1, aliases) {
        Ok(Some((base, q))) => if end > 0 && q == end - 1 {
            Some((p, base))
        } else {
            None
        },
        _ => None,
    }
}

/// Reads an argument from token `i` on: a label reference, a memory reference, a register
/// or an immediate, tried in that order; it returns the argument and the index of the token
/// after it.
pub fn parse_arg(tokens: &Vec<Token>, i: usize, aliases: &[(String, String)]) -> (r: Result<
    (RawArg, usize),
    SyntaxError,
>)
    requires
        i <= tokens.len(),
        tokens.len() < usize::MAX - 8,
    ensures
        same_result(r, arg_at(tokens@, i as int, aliases@)),
{
    match label_at_exec(tokens, i) {
        Some(Ok((jump, k))) => {
            return Ok((RawArg::JumpTarget { jump }, k));
        },
        Some(Err(e)) => {
            return Err(e);
        },
        None => {},
    }
    if i < tokens.len() {
        if let Token::Open(Delimiter::Bracket) = &tokens[i] {
            return reference_at_exec(tokens, i, aliases);
        }
    }
    match register_at_exec(tokens, i, aliases) {
        Err(e) => Err(e),
        Ok(Some((reg, k))) => Ok((RawArg::Register { reg }, k)),
        Ok(None) => match immediate_at_exec(tokens, i) {
            Ok((value, k)) => {
                let start = if punct_at_exec(tokens, i, '#') {
                    i + 1
                } else {
                    i
                };
                proof {
                    lemma_run_end_bounds(tokens@, start as int, 0);
                }
                match offset_base_exec(tokens, start, k, aliases) {
                    Some((p, base)) => Ok(
                        (
                            RawArg::Reference {
                                offset: Some(expression_of_tokens(tokens, start, p)),
                                base,
                            },
                            k,
                        ),
                    ),
                    None => Ok((RawArg::Immediate { value }, k)),
                }
            },
            Err(e) => Err(e),
        },
    }
}

/// Reads an instruction from the start of the tokens: its dotted mnemonic, then its
/// arguments separated by commas, up to the end of the tokens, a `;`, or the first argument
/// that no comma follows. It returns the instruction and the index of the token after it.
pub fn parse_instruction(tokens: &Vec<Token>, aliases: &[(String, String)]) -> (r: Result<
    (ParsedInstruction, usize),
    SyntaxError,
>)
    requires
        tokens.len() < usize::MAX - 8,
    ensures
        match instruction_at(tokens@, aliases@) {
            Ok((name, args, k)) => r matches Ok((ins, j)) && ins.name@ == name && ins.args@
                == args && j as int == k,
            Err(f) => failed_as(r, f),
        },
{
    let ghost ts = tokens@;
    let mut name = String::new();
    if tokens.len() == 0 {
        return fail(0, "expected identifier");
    }
    match &tokens[0] {
        Token::Ident(s) => push_str(&mut name, s.as_str()),
        _ => {
            return fail(0, "expected identifier");
        },
    }
    let ghost first = name@;
    assert(first == ts[0]->Ident_0@);
    let ghost whole = instruction_at(ts, aliases@);
    assert(forall|f: Failure|
        name_rest(ts, 1, first) == Err::<(Seq<char>, int), Failure>(f) ==> whole == Err::<
            (Seq<char>, Seq<RawArg>, int),
            Failure,
        >(f));
    let mut i: usize = 1;
    while punct_at_exec(tokens, i, '.')
        invariant
            1 <= i <= tokens.len(),
            ts == tokens@,
            tokens.len() < usize::MAX - 8,
            whole == instruction_at(ts, aliases@),
            forall|f: Failure|
                name_rest(ts, 1, first) == Err::<(Seq<char>, int), Failure>(f) ==> whole == Err::<
                    (Seq<char>, Seq<RawArg>, int),
                    Failure,
                >(f),
            name_rest(ts, i as int, name@) == name_rest(ts, 1, first),
        decreases tokens.len() - i,
    {
        if i + 1 >= tokens.len() {
            return fail(i + 1, "expected identifier");
        }
        match &tokens[i + 1] {
            Token::Ident(s) => {
                push_str(&mut name, ".");
                push_str(&mut name, s.as_str());
            },
            Token::Int { digits, suffix } => {
                push_str(&mut name, ".");
                push_str(&mut name, digits.as_str());
                push_str(&mut name, suffix.as_str());
            },
            _ => {
                return fail(i + 1, "expected identifier");
            },
        }
        i = i + 2;
    }
    if i >= tokens.len() || punct_at_exec(tokens, i, ';') {
        return Ok((ParsedInstruction { name, args: Vec::new() }, i));
    }
    let (first_arg, k0) = match parse_arg(tokens, i, aliases) {
        Err(e) => {
            return Err(e);
        },
        Ok(p) => p,
    };
    proof {
        lemma_arg_advances(ts, i as int, aliases@);
    }
    let mut args: Vec<RawArg> = Vec::new();
    args.push(first_arg);
    assert(args@ =~= seq![first_arg]);
    let mut k = k0;
    assert(whole == match more_args(ts, k0 as int, aliases@, seq![first_arg]) {
        Err(e) => Err(e),
        Ok((args, j)) => Ok((name@, args, j)),
    });
    while punct_at_exec(tokens, k, ',')
        invariant
            k <= tokens.len(),
            ts == tokens@,
            tokens.len() < usize::MAX - 8,
            whole == instruction_at(ts, aliases@),
            whole == match more_args(ts, k0 as int, aliases@, seq![first_arg]) {
                Err(e) => Err(e),
                Ok((args, j)) => Ok((name@, args, j)),
            },
            more_args(ts, k as int, aliases@, args@) == more_args(ts, k0 as int, aliases@, seq![first_arg]),
        decreases tokens.len() - k,
    {
        match parse_arg(tokens, k + 1, aliases) {
            Err(e) => {
                return Err(e);
            },
            Ok((a, next)) => {
                proof {
                    lemma_arg_advances(ts, k + 1, aliases@);
                }
                args.push(a);
                k = next;
            },
        }
    }
    Ok((ParsedInstruction { name, args }, k))
}

} // verus!
