//! Instruction format strings of the encoding-table generator: which operands a format
//! names, and the matcher and command lines generated for them.

use vstd::prelude::*;
use crate::text::{chars_of, decimal};

verus! {

/// An operand of an instruction format.
#[derive(Debug, Clone, Copy, PartialEq, Eq, Structural)]
pub enum OperandType {
    /// Destination register.
    Rd,
    /// First source register.
    Rj,
    /// Second source register.
    Rk,
    /// Floating point destination register.
    Fa,
    /// First floating point source register.
    Fj,
    /// Second floating point source register.
    Fk,
    /// Vector destination register.
    Va,
    /// First vector source register.
    Vj,
    /// Second vector source register.
    Vk,
    /// 5-bit unsigned immediate.
    Uk5,
    /// 6-bit unsigned immediate.
    Uk6,
    /// 12-bit unsigned immediate.
    Uk12,
    /// 12-bit signed immediate.
    Sk12,
    /// 14-bit signed immediate.
    Sk14,
    /// 16-bit signed immediate.
    Sk16,
    /// 20-bit signed jump immediate.
    Sj20,
    /// 20-bit signed immediate.
    Sk20,
    /// 26-bit signed immediate.
    Sk26,
}

/// An instruction format: its operands and its base encoding.
#[derive(Debug, Clone)]
pub struct InstructionFormat {
    /// The operands, in order.
    pub operands: Vec<OperandType>,
    /// The base encoding.
    pub encoding: u32,
}

/// The register operands named by the letters of `format`: `D`, `J`, `K` are general
/// registers; `F` and `V` are the destination when they come first, else the first source.
pub open spec fn register_operands(format: Seq<char>) -> Seq<OperandType>
    decreases format.len(),
{
    if format.len() == 0 {
        seq![]
    } else {
        let ops = register_operands(format.drop_last());
        let c = format.last();
        if c == 'D' {
            ops.push(OperandType::Rd)
        } else if c == 'J' {
            ops.push(OperandType::Rj)
        } else if c == 'K' {
            ops.push(OperandType::Rk)
        } else if c == 'F' {
            ops.push(if ops.len() == 0 { OperandType::Fa } else { OperandType::Fj })
        } else if c == 'V' {
            ops.push(if ops.len() == 0 { OperandType::Va } else { OperandType::Vj })
        } else {
            ops
        }
    }
}

/// The index of the first `c` in `s`, or -1.
pub open spec fn first_index(s: Seq<char>, c: char) -> int
    decreases s.len(),
{
    if s.len() == 0 {
        -1
    } else if s[0] == c {
        0
    } else {
        let i = first_index(s.drop_first(), c);
        if i < 0 {
            -1
        } else {
            i + 1
        }
    }
}

/// Whether `part` occurs in `s`.
pub open spec fn occurs_in(part: Seq<char>, s: Seq<char>) -> bool {
    exists|i: int| 0 <= i && i + part.len() <= s.len() && #[trigger] s.subrange(i, i + part.len()) == part
}

/// Whether `digits` are exactly the two characters `a` and `b`.
pub open spec fn two_digits(digits: Seq<char>, a: char, b: char) -> bool {
    digits.len() == 2 && digits[0] == a && digits[1] == b
}

/// The immediate operand that the digits after the first `k` of `format` name: nothing
/// when there is no `k`; no parse when the digits name no width.
pub open spec fn immediate_operand(format: Seq<char>) -> Option<Seq<OperandType>> {
    let k = first_index(format, 'k');
    if k < 0 {
        Some(seq![])
    } else {
        let digits = format.subrange(k + 1, format.len() as int);
        if digits.len() == 1 && digits[0] == '5' {
            Some(seq![OperandType::Uk5])
        } else if digits.len() == 1 && digits[0] == '6' {
            Some(seq![OperandType::Uk6])
        } else if two_digits(digits, '1', '2') {
            Some(seq![if format.contains('S') { OperandType::Sk12 } else { OperandType::Uk12 }])
        } else if two_digits(digits, '1', '4') {
            Some(seq![OperandType::Sk14])
        } else if two_digits(digits, '1', '6') {
            Some(seq![OperandType::Sk16])
        } else if two_digits(digits, '2', '0') {
            Some(seq![OperandType::Sk20])
        } else if two_digits(digits, '2', '6') {
            Some(seq![OperandType::Sk26])
        } else {
            None
        }
    }
}

/// The operands of `format`, or nothing when its immediate width is not known: the
/// registers, then the immediate, then a 20-bit jump immediate when `j20` occurs.
pub open spec fn parse_spec(format: Seq<char>) -> Option<Seq<OperandType>> {
    match immediate_operand(format) {
        None => None,
        Some(imm) => Some(
            register_operands(format) + imm + if occurs_in(seq!['j', '2', '0'], format) {
                seq![OperandType::Sj20]
            } else {
                seq![]
            },
        ),
    }
}

/// The matcher line generated for an operand.
pub open spec fn matcher_line(op: OperandType) -> Seq<char> {
    match op {
        OperandType::Rd | OperandType::Rj | OperandType::Rk => "Matcher::R"@,
        OperandType::Fa | OperandType::Fj | OperandType::Fk => "Matcher::F"@,
        OperandType::Va | OperandType::Vj | OperandType::Vk => "Matcher::V"@,
        OperandType::Uk5
        | OperandType::Uk6
        | OperandType::Uk12
        | OperandType::Sk12
        | OperandType::Sk14
        | OperandType::Sk16
        | OperandType::Sk20 => "Matcher::Imm"@,
        OperandType::Sj20 | OperandType::Sk26 => "Matcher::Offset"@,
    }
}

/// The command line generated for an operand.
pub open spec fn command_line(op: OperandType) -> Seq<char> {
    match op {
        OperandType::Rd => "Command::R(0)"@,
        OperandType::Rj => "Command::R(5)"@,
        OperandType::Rk => "Command::R(10)"@,
        OperandType::Fa => "Command::F(0)"@,
        OperandType::Fj => "Command::F(5)"@,
        OperandType::Fk => "Command::F(10)"@,
        OperandType::Va => "Command::V(0)"@,
        OperandType::Vj => "Command::V(5)"@,
        OperandType::Vk => "Command::V(10)"@,
        OperandType::Uk5 => "Command::UImm(5, 0)"@,
        OperandType::Uk6 => "Command::UImm(6, 0)"@,
        OperandType::Uk12 => "Command::UImm(12, 0)"@,
        OperandType::Sk12 => "Command::SImm(12, 0)"@,
        OperandType::Sk14 => "Command::SImm(14, 0)"@,
        OperandType::Sk16 => "Command::SImm(16, 0)"@,
        OperandType::Sj20 => "Command::Offset(Relocation::J)"@,
        OperandType::Sk20 => "Command::SImm(20, 0)"@,
        OperandType::Sk26 => "Command::Offset(Relocation::B)"@,
    }
}

/// The matcher lines of a list of operands.
pub open spec fn matcher_lines(ops: Seq<OperandType>) -> Seq<Seq<char>> {
    ops.map_values(|op| matcher_line(op))
}

/// The command lines of a list of operands.
pub open spec fn command_lines(ops: Seq<OperandType>) -> Seq<Seq<char>> {
    ops.map_values(|op| command_line(op))
}

/// Whether `c` occurs in `s`.
fn has_char(s: &Vec<char>, c: char) -> (r: bool)
    ensures
        r == s@.contains(c),
{
    let mut i: usize = 0;
    while i < s.len()
        invariant
            i <= s.len(),
            forall|j: int| 0 <= j < i ==> s@[j] != c,
        decreases s.len() - i,
    {
        if s[i] == c {
            return true;
        }
        i = i + 1;
    }
    false
}

/// Whether `j20` occurs in `s`.
fn has_j20(s: &Vec<char>) -> (r: bool)
    ensures
        r == occurs_in(seq!['j', '2', '0'], s@),
{
    let ghost pat = seq!['j', '2', '0'];
    if s.len() < 3 {
        assert(!occurs_in(pat, s@));
        return false;
    }
    let mut i: usize = 0;
    while i < s.len() - 2
        invariant
            s.len() >= 3,
            i <= s.len() - 2,
            pat == seq!['j', '2', '0'],
            forall|j: int| 0 <= j < i ==> #[trigger] s@.subrange(j, j + 3) != pat,
        decreases s.len() - i,
    {
        let ghost sub = s@.subrange(i as int, i + 3);
        assert(sub[0] == s@[i as int] && sub[1] == s@[i + 1] && sub[2] == s@[i + 2]);
        if s[i] == 'j' && s[i + 1] == '2' && s[i + 2] == '0' {
            assert(sub =~= pat);
            return true;
        }
        assert(sub != pat) by {
            if sub == pat {
                assert(pat[0] == 'j' && pat[1] == '2' && pat[2] == '0');
            }
        }
        i = i + 1;
    }
    assert(!occurs_in(pat, s@)) by {
        if occurs_in(pat, s@) {
            let j = choose|j: int|
                0 <= j && j + pat.len() <= s@.len() && #[trigger] s@.subrange(j, j + pat.len())
                    == pat;
            assert(s@.subrange(j, j + 3) == pat);
        }
    }
    false
}

/// The index of the first `c` in `s`, if there is one.
fn find_char(s: &Vec<char>, c: char) -> (r: Option<usize>)
    ensures
        match r {
            Some(k) => k == first_index(s@, c),
            None => first_index(s@, c) == -1,
        },
{
    let mut i: usize = 0;
    proof {
        assert(s@.subrange(0, s@.len() as int) =~= s@);
        lemma_first_index_bound(s@, c);
    }
    while i < s.len()
        invariant
            i <= s.len(),
            first_index(s@, c) == if first_index(s@.subrange(i as int, s@.len() as int), c) < 0 {
                -1
            } else {
                first_index(s@.subrange(i as int, s@.len() as int), c) + i
            },
        decreases s.len() - i,
    {
        let ghost here = s@.subrange(i as int, s@.len() as int);
        assert(here.drop_first() =~= s@.subrange(i + 1, s@.len() as int));
        if s[i] == c {
            return Some(i);
        }
        i = i + 1;
    }
    None
}

/// The first index of a character is -1 or an index of the sequence.
proof fn lemma_first_index_bound(s: Seq<char>, c: char)
    ensures
        -1 <= first_index(s, c) < s.len(),
        first_index(s, c) >= 0 ==> s[first_index(s, c)] == c,
    decreases s.len(),
{
    if s.len() > 0 && s[0] != c {
        lemma_first_index_bound(s.drop_first(), c);
    }
}

impl InstructionFormat {
    /// Parses a format string such as `DJk12` into its operands: one per register letter,
    /// then the immediate that the digits after the first `k` name, then a jump immediate
    /// when `j20` occurs. Fails when the digits after `k` name no known width.
    pub fn parse(format: &str, encoding: u32) -> (r: Option<InstructionFormat>)
        ensures
            match parse_spec(format@) {
                Some(ops) => r matches Some(f) && f.operands@ == ops && f.encoding == encoding,
                None => r is None,
            },
    {
        let chars = chars_of(format);
        let mut operands: Vec<OperandType> = Vec::new();
        let mut i: usize = 0;
        while i < chars.len()
            invariant
                i <= chars.len(),
                chars@ == format@,
                operands@ == register_operands(chars@.take(i as int)),
            decreases chars.len() - i,
        {
            let c = chars[i];
            assert(chars@.take(i + 1).drop_last() =~= chars@.take(i as int));
            if c == 'D' {
                operands.push(OperandType::Rd);
            } else if c == 'J' {
                operands.push(OperandType::Rj);
            } else if c == 'K' {
                operands.push(OperandType::Rk);
            } else if c == 'F' {
                if operands.len() == 0 {
                    operands.push(OperandType::Fa);
                } else {
                    operands.push(OperandType::Fj);
                }
            } else if c == 'V' {
                if operands.len() == 0 {
                    operands.push(OperandType::Va);
                } else {
                    operands.push(OperandType::Vj);
                }
            }
            i = i + 1;
        }
        assert(chars@.take(chars.len() as int) =~= chars@);
        let ghost regs = operands@;
        let found = find_char(&chars, 'k');
        proof {
            lemma_first_index_bound(chars@, 'k');
        }
        if let Some(k) = found {
            let start = k + 1;
            let n = chars.len() - start;
            let ghost digits = chars@.subrange(start as int, chars@.len() as int);
            if n == 1 && chars[start] == '5' {
                assert(digits =~= seq!['5']);
                operands.push(OperandType::Uk5);
            } else if n == 1 && chars[start] == '6' {
                assert(digits =~= seq!['6']);
                operands.push(OperandType::Uk6);
            } else if n == 2 && chars[start] == '1' && chars[start + 1] == '2' {
                assert(digits =~= seq!['1', '2']);
                if has_char(&chars, 'S') {
                    operands.push(OperandType::Sk12);
                } else {
                    operands.push(OperandType::Uk12);
                }
            } else if n == 2 && chars[start] == '1' && chars[start + 1] == '4' {
                assert(digits =~= seq!['1', '4']);
                operands.push(OperandType::Sk14);
            } else if n == 2 && chars[start] == '1' && chars[start + 1] == '6' {
                assert(digits =~= seq!['1', '6']);
                operands.push(OperandType::Sk16);
            } else if n == 2 && chars[start] == '2' && chars[start + 1] == '0' {
                assert(digits =~= seq!['2', '0']);
                operands.push(OperandType::Sk20);
            } else if n == 2 && chars[start] == '2' && chars[start + 1] == '6' {
                assert(digits =~= seq!['2', '6']);
                operands.push(OperandType::Sk26);
            } else {
                assert(immediate_operand(format@) is None) by {
                    if digits.len() == 1 {
                        assert(digits[0] == chars@[start as int]);
                    } else if digits.len() == 2 {
                        assert(digits[0] == chars@[start as int]);
                        assert(digits[1] == chars@[start + 1]);
                    }
                }
                return None;
            }
        }
        let ghost with_imm = operands@;
        assert(with_imm =~= regs + immediate_operand(format@).unwrap());
        if has_j20(&chars) {
            operands.push(OperandType::Sj20);
        }
        assert(operands@ =~= parse_spec(format@).unwrap());
        Some(InstructionFormat { operands, encoding })
    }

    /// The matcher line for each operand, in order.
    pub fn generate_matchers(&self) -> (r: Vec<String>)
        ensures
            r@.map_values(|s: String| s@) == matcher_lines(self.operands@),
    {
        let mut matchers: Vec<String> = Vec::new();
        let mut i: usize = 0;
        while i < self.operands.len()
            invariant
                i <= self.operands.len(),
                matchers@.map_values(|s: String| s@) == self.operands@.take(i as int).map_values(
                    |op| matcher_line(op),
                ),
            decreases self.operands.len() - i,
        {
            let matcher = match self.operands[i] {
                OperandType::Rd | OperandType::Rj | OperandType::Rk => String::from_str("Matcher::R"),
                OperandType::Fa | OperandType::Fj | OperandType::Fk => String::from_str("Matcher::F"),
                OperandType::Va | OperandType::Vj | OperandType::Vk => String::from_str("Matcher::V"),
                OperandType::Uk5
                | OperandType::Uk6
                | OperandType::Uk12
                | OperandType::Sk12
                | OperandType::Sk14
                | OperandType::Sk16
                | OperandType::Sk20 => String::from_str("Matcher::Imm"),
                OperandType::Sj20 | OperandType::Sk26 => String::from_str("Matcher::Offset"),
            };
            matchers.push(matcher);
            assert(self.operands@.take(i + 1).map_values(|op| matcher_line(op))
                =~= self.operands@.take(i as int).map_values(|op| matcher_line(op)).push(
                matcher_line(self.operands@[i as int]),
            ));
            assert(matchers@.map_values(|s: String| s@) =~= self.operands@.take(i + 1).map_values(
                |op| matcher_line(op),
            ));
            i = i + 1;
        }
        assert(self.operands@.take(self.operands.len() as int) =~= self.operands@);
        matchers
    }

    /// The command line for each operand, in order.
    pub fn generate_commands(&self) -> (r: Vec<String>)
        ensures
            r@.map_values(|s: String| s@) == command_lines(self.operands@),
    {
        let mut commands: Vec<String> = Vec::new();
        let mut i: usize = 0;
        while i < self.operands.len()
            invariant
                i <= self.operands.len(),
                commands@.map_values(|s: String| s@) == self.operands@.take(i as int).map_values(
                    |op| command_line(op),
                ),
            decreases self.operands.len() - i,
        {
            let command = match self.operands[i] {
                OperandType::Rd => String::from_str("Command::R(0)"),
                OperandType::Rj => String::from_str("Command::R(5)"),
                OperandType::Rk => String::from_str("Command::R(10)"),
                OperandType::Fa => String::from_str("Command::F(0)"),
                OperandType::Fj => String::from_str("Command::F(5)"),
                OperandType::Fk => String::from_str("Command::F(10)"),
                OperandType::Va => String::from_str("Command::V(0)"),
                OperandType::Vj => String::from_str("Command::V(5)"),
                OperandType::Vk => String::from_str("Command::V(10)"),
                OperandType::Uk5 => String::from_str("Command::UImm(5, 0)"),
                OperandType::Uk6 => String::from_str("Command::UImm(6, 0)"),
                OperandType::Uk12 => String::from_str("Command::UImm(12, 0)"),
                OperandType::Sk12 => String::from_str("Command::SImm(12, 0)"),
                OperandType::Sk14 => String::from_str("Command::SImm(14, 0)"),
                OperandType::Sk16 => String::from_str("Command::SImm(16, 0)"),
                OperandType::Sj20 => String::from_str("Command::Offset(Relocation::J)"),
                OperandType::Sk20 => String::from_str("Command::SImm(20, 0)"),
                OperandType::Sk26 => String::from_str("Command::Offset(Relocation::B)"),
            };
            commands.push(command);
            assert(self.operands@.take(i + 1).map_values(|op| command_line(op))
                =~= self.operands@.take(i as int).map_values(|op| command_line(op)).push(
                command_line(self.operands@[i as int]),
            ));
            assert(commands@.map_values(|s: String| s@) =~= self.operands@.take(i + 1).map_values(
                |op| command_line(op),
            ));
            i = i + 1;
        }
        assert(self.operands@.take(self.operands.len() as int) =~= self.operands@);
        commands
    }
}

/// The generated matcher lines and command lines pair up: one of each per operand, so that
/// the i-th matcher and the i-th command describe the same operand.
pub proof fn lemma_lines_pair_up(ops: Seq<OperandType>)
    ensures
        matcher_lines(ops).len() == ops.len(),
        command_lines(ops).len() == ops.len(),
        forall|i: int|
            0 <= i < ops.len() ==> #[trigger] matcher_lines(ops)[i] == matcher_line(ops[i])
                && command_lines(ops)[i] == command_line(ops[i]),
{
}

/// The lowest bit of the 5-bit field that a register operand occupies in a LoongArch
/// instruction word: the destination (`d`, or `a` for a first floating-point or vector
/// operand) at bits [4:0], the first source `j` at [9:5], the second source `k` at [14:10].
pub open spec fn register_field_low_bit(op: OperandType) -> Option<nat> {
    match op {
        OperandType::Rd | OperandType::Fa | OperandType::Va => Some(0),
        OperandType::Rj | OperandType::Fj | OperandType::Vj => Some(5),
        OperandType::Rk | OperandType::Fk | OperandType::Vk => Some(10),
        _ => None,
    }
}

/// The register file of a register operand: `R` general, `F` floating-point, `V` vector.
pub open spec fn register_file_letter(op: OperandType) -> char {
    match op {
        OperandType::Rd | OperandType::Rj | OperandType::Rk => 'R',
        OperandType::Fa | OperandType::Fj | OperandType::Fk => 'F',
        _ => 'V',
    }
}

/// Every register operand generates a matcher of its register file and a command that
/// places the register at the lowest bit of its field in the instruction word, so the
/// generated commands of a list of operands put each register where the LoongArch formats
/// have it.
pub proof fn lemma_register_commands_at_their_fields(ops: Seq<OperandType>)
    ensures
        forall|i: int|
            0 <= i < ops.len() && (#[trigger] register_field_low_bit(ops[i])) is Some ==> command_lines(
                ops,
            )[i] == "Command::"@ + seq![register_file_letter(ops[i])] + "("@ + decimal(
                register_field_low_bit(ops[i]).unwrap(),
            ) + ")"@ && matcher_lines(ops)[i] == "Matcher::"@ + seq![register_file_letter(ops[i])],
{
    assert forall|i: int|
        0 <= i < ops.len() && (#[trigger] register_field_low_bit(ops[i])) is Some implies command_lines(
            ops,
        )[i] == "Command::"@ + seq![register_file_letter(ops[i])] + "("@ + decimal(
            register_field_low_bit(ops[i]).unwrap(),
        ) + ")"@ && matcher_lines(ops)[i] == "Matcher::"@ + seq![register_file_letter(ops[i])] by {
        lemma_register_line(ops[i]);
    }
}

proof fn lemma_register_line(op: OperandType)
    requires
        register_field_low_bit(op) is Some,
    ensures
        command_line(op) == "Command::"@ + seq![register_file_letter(op)] + "("@ + decimal(
            register_field_low_bit(op).unwrap(),
        ) + ")"@,
        matcher_line(op) == "Matcher::"@ + seq![register_file_letter(op)],
{
    reveal_strlit("Command::");
    reveal_strlit("(");
    reveal_strlit(")");
    reveal_strlit("Matcher::");
    reveal_strlit("Matcher::R");
    reveal_strlit("Matcher::F");
    reveal_strlit("Matcher::V");
    reveal_strlit("Command::R(0)");
    reveal_strlit("Command::R(5)");
    reveal_strlit("Command::R(10)");
    reveal_strlit("Command::F(0)");
    reveal_strlit("Command::F(5)");
    reveal_strlit("Command::F(10)");
    reveal_strlit("Command::V(0)");
    reveal_strlit("Command::V(5)");
    reveal_strlit("Command::V(10)");
    assert(decimal(0) =~= seq!['0']);
    assert(decimal(5) =~= seq!['5']);
    assert(decimal(1) =~= seq!['1']);
    assert(decimal(10) =~= seq!['1', '0']);
    let l = register_file_letter(op);
    assert(matcher_line(op) =~= "Matcher::"@ + seq![l]);
    assert(command_line(op) =~= "Command::"@ + seq![l] + "("@ + decimal(
        register_field_low_bit(op).unwrap(),
    ) + ")"@);
}

/// The width in bits of an immediate operand's value, and whether it is signed: the number
/// and the `U`/`S` of its name.
pub open spec fn immediate_width(op: OperandType) -> Option<(nat, bool)> {
    match op {
        OperandType::Uk5 => Some((5, false)),
        OperandType::Uk6 => Some((6, false)),
        OperandType::Uk12 => Some((12, false)),
        OperandType::Sk12 => Some((12, true)),
        OperandType::Sk14 => Some((14, true)),
        OperandType::Sk16 => Some((16, true)),
        OperandType::Sk20 => Some((20, true)),
        _ => None,
    }
}

/// Every plain immediate operand generates an immediate matcher and a command of its
/// signedness that names its width; the jump offsets (`Sj20`, `Sk26`) generate an offset
/// matcher and an offset command.
pub proof fn lemma_immediate_commands_name_their_width(op: OperandType)
    requires
        !(register_field_low_bit(op) is Some),
    ensures
        immediate_width(op) matches Some((w, signed)) ==> command_line(op) == "Command::"@ + (if signed {
            "SImm("@
        } else {
            "UImm("@
        }) + decimal(w) + ", 0)"@ && matcher_line(op) == "Matcher::Imm"@,
        immediate_width(op) is None ==> matcher_line(op) == "Matcher::Offset"@
            && command_line(op).subrange(0, 16) == "Command::Offset("@,
{
    reveal_strlit("Command::");
    reveal_strlit("SImm(");
    reveal_strlit("UImm(");
    reveal_strlit(", 0)");
    reveal_strlit("Command::Offset(");
    reveal_strlit("Command::UImm(5, 0)");
    reveal_strlit("Command::UImm(6, 0)");
    reveal_strlit("Command::UImm(12, 0)");
    reveal_strlit("Command::SImm(12, 0)");
    reveal_strlit("Command::SImm(14, 0)");
    reveal_strlit("Command::SImm(16, 0)");
    reveal_strlit("Command::SImm(20, 0)");
    reveal_strlit("Command::Offset(Relocation::J)");
    reveal_strlit("Command::Offset(Relocation::B)");
    assert(decimal(1) =~= seq!['1']);
    assert(decimal(2) =~= seq!['2']);
    assert(decimal(5) =~= seq!['5']);
    assert(decimal(6) =~= seq!['6']);
    assert(decimal(12) =~= seq!['1', '2']);
    assert(decimal(14) =~= seq!['1', '4']);
    assert(decimal(16) =~= seq!['1', '6']);
    assert(decimal(20) =~= seq!['2', '0']);
    match immediate_width(op) {
        Some((w, signed)) => {
            assert(command_line(op) =~= "Command::"@ + (if signed {
                "SImm("@
            } else {
                "UImm("@
            }) + decimal(w) + ", 0)"@);
        },
        None => {
            assert(command_line(op).subrange(0, 16) =~= "Command::Offset("@);
        },
    }
}

/// Whether a format letter names a register operand.
pub open spec fn is_register_letter(c: char) -> bool {
    c == 'D' || c == 'J' || c == 'K' || c == 'F' || c == 'V'
}

/// How many letters of `format` name register operands.
pub open spec fn register_letter_count(format: Seq<char>) -> nat
    decreases format.len(),
{
    if format.len() == 0 {
        0
    } else {
        register_letter_count(format.drop_last()) + if is_register_letter(format.last()) {
            1nat
        } else {
            0nat
        }
    }
}

/// Whether an operand is a register.
pub open spec fn is_register_operand(op: OperandType) -> bool {
    match op {
        OperandType::Rd | OperandType::Rj | OperandType::Rk | OperandType::Fa | OperandType::Fj
        | OperandType::Fk | OperandType::Va | OperandType::Vj | OperandType::Vk => true,
        _ => false,
    }
}

proof fn lemma_register_operands(format: Seq<char>)
    ensures
        register_operands(format).len() == register_letter_count(format),
        forall|i: int|
            0 <= i < register_operands(format).len() ==> is_register_operand(
                #[trigger] register_operands(format)[i],
            ),
    decreases format.len(),
{
    if format.len() > 0 {
        lemma_register_operands(format.drop_last());
    }
}

proof fn lemma_first_index(s: Seq<char>, c: char)
    ensures
        first_index(s, c) >= 0 <==> s.contains(c),
    decreases s.len(),
{
    if s.len() > 0 {
        lemma_first_index(s.drop_first(), c);
        if s[0] != c {
            if s.contains(c) {
                let j = choose|j: int| 0 <= j < s.len() && s[j] == c;
                assert(s.drop_first()[j - 1] == c);
            }
            if s.drop_first().contains(c) {
                let j = choose|j: int| 0 <= j < s.drop_first().len() && s.drop_first()[j] == c;
                assert(s[j + 1] == c);
            }
        } else {
            assert(s[0] == c);
        }
    }
}

/// A format that parses has one operand per register letter, one more where it has a `k`
/// and one more where `j20` occurs in it; the registers come first, in the order of their
/// letters (`register_operands`).
pub proof fn lemma_operand_count(format: Seq<char>)
    requires
        parse_spec(format) is Some,
    ensures
        parse_spec(format).unwrap().len() == register_letter_count(format) + (if format.contains(
            'k',
        ) {
            1int
        } else {
            0int
        }) + (if occurs_in(seq!['j', '2', '0'], format) {
            1int
        } else {
            0int
        }),
        forall|i: int|
            0 <= i < register_letter_count(format) ==> is_register_operand(
                #[trigger] parse_spec(format).unwrap()[i],
            ),
        forall|i: int|
            register_letter_count(format) <= i < parse_spec(format).unwrap().len()
                ==> !is_register_operand(#[trigger] parse_spec(format).unwrap()[i]),
{
    lemma_register_operands(format);
    lemma_first_index(format, 'k');
    let regs = register_operands(format);
    let ops = parse_spec(format).unwrap();
    assert forall|i: int| 0 <= i < register_letter_count(format) implies is_register_operand(
        #[trigger] ops[i],
    ) by {
        assert(ops[i] == regs[i]);
    }
}

} // verus!
