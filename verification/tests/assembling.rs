use dynasm_loongarch::ast::{FlatArg, ImmExpr, Jump, ParsedInstruction, RawArg, RegFamily, RegId, Register};
use dynasm_loongarch::compiler::{
    compile_instruction, compile_instruction_inner, CompileError, DynamicField, Stmt,
};
use dynasm_loongarch::data::{
    Command, ExtensionFlags, ISAFlags, Matcher, Opdata, Relocation, Template, EX_BASE, ISA_LA32,
    ISA_LA64,
};
use dynasm_loongarch::loongarch::LoongArchRelocation;
use dynasm_loongarch::matching::{match_args, match_instruction, MatchData, MatchError};
use dynasm_loongarch::opmap::OpTable;
use dynasm_loongarch::syntax::{parse_instruction, Delimiter, Token};
use dynasm_loongarch::target::LoongArchTarget;

fn form(template: u32, matchers: Vec<Matcher>, commands: Vec<Command>) -> Opdata {
    Opdata {
        template: Template::Single(template),
        isa_flags: ISAFlags::make(ISA_LA32 | ISA_LA64),
        ext_flags: vec![ExtensionFlags::make(EX_BASE)],
        matchers,
        commands,
    }
}

fn load_store(template: u32, first: Matcher, first_cmd: Command) -> Vec<Opdata> {
    vec![
        form(
            template,
            vec![first, Matcher::RefOffset],
            vec![first_cmd, Command::R(5), Command::SImm(10, 12)],
        ),
        form(
            template,
            vec![first, Matcher::R, Matcher::Imm],
            vec![first_cmd, Command::R(5), Command::SImm(10, 12)],
        ),
    ]
}

fn table() -> OpTable {
    OpTable::new(vec![
        (String::from("fld.d"), load_store(0x2B80_0000, Matcher::F, Command::F(0))),
        (String::from("ld.d"), load_store(0x28C0_0000, Matcher::R, Command::R(0))),
        (String::from("st.w"), load_store(0x2980_0000, Matcher::R, Command::R(0))),
        (
            String::from("addi.w"),
            vec![form(
                0x0280_0000,
                vec![Matcher::R, Matcher::R, Matcher::Imm],
                vec![Command::Rno0(0), Command::R(5), Command::SImm(10, 12)],
            )],
        ),
        (
            String::from("andi"),
            vec![form(
                0x0340_0000,
                vec![Matcher::R, Matcher::R, Matcher::Imm],
                vec![Command::R(0), Command::R(5), Command::UImm(10, 12)],
            )],
        ),
        (
            String::from("beq"),
            vec![form(
                0x5800_0000,
                vec![Matcher::R, Matcher::R, Matcher::Offset],
                vec![Command::R(5), Command::R(0), Command::Offset(Relocation::B16)],
            )],
        ),
        (
            String::from("b"),
            vec![form(0x5000_0000, vec![Matcher::Offset], vec![Command::Offset(Relocation::B26)])],
        ),
        (
            String::from("jirl"),
            vec![form(
                0x4C00_0000,
                vec![Matcher::R, Matcher::Ref],
                vec![Command::R(0), Command::R(5)],
            )],
        ),
        (
            String::from("movgr2fcsr"),
            vec![form(
                0x0114_C000,
                vec![Matcher::Reg(RegId::FCSR0), Matcher::R],
                vec![Command::R(5)],
            )],
        ),
    ])
}

fn reg(id: RegId) -> RawArg {
    RawArg::Register { reg: Register::Static(id) }
}

fn imm(v: i64) -> ImmExpr {
    ImmExpr { number: Some(v), is_ident: false }
}

fn runtime() -> ImmExpr {
    ImmExpr { number: None, is_ident: false }
}

fn mem(base: RegId, offset: i64) -> RawArg {
    RawArg::Reference { offset: Some(imm(offset)), base: Register::Static(base) }
}

fn ins(name: &str, args: Vec<RawArg>) -> ParsedInstruction {
    ParsedInstruction { name: String::from(name), args }
}

fn assemble(name: &str, args: Vec<RawArg>) -> Result<Vec<Stmt>, MatchError> {
    compile_instruction_inner(&table(), LoongArchTarget::LA64, ins(name, args))
}

/// Splits simple assembly text into tokens: words, integer literals, groups and punctuation.
fn lex(text: &str) -> Vec<Token> {
    let chars: Vec<char> = text.chars().collect();
    let mut out = Vec::new();
    let mut i = 0;
    while i < chars.len() {
        let c = chars[i];
        if c.is_whitespace() {
            i += 1;
        } else if c.is_ascii_alphanumeric() || c == '_' {
            let start = i;
            while i < chars.len() && (chars[i].is_ascii_alphanumeric() || chars[i] == '_') {
                i += 1;
            }
            let word: String = chars[start..i].iter().collect();
            if c.is_ascii_digit() {
                out.push(Token::Int { digits: word, suffix: String::new() });
            } else {
                out.push(Token::Ident(word));
            }
        } else {
            out.push(match c {
                '(' => Token::Open(Delimiter::Parenthesis),
                '[' => Token::Open(Delimiter::Bracket),
                ')' => Token::Close(Delimiter::Parenthesis),
                ']' => Token::Close(Delimiter::Bracket),
                _ => {
                    let joint = i + 1 < chars.len() && "=->".contains(chars[i + 1]);
                    Token::Punct { ch: c, joint }
                },
            });
            i += 1;
        }
    }
    out
}

/// Reads an instruction from its text and assembles it.
fn assemble_text(text: &str) -> Result<Vec<Stmt>, MatchError> {
    let tokens = lex(text);
    let (parsed, end) = parse_instruction(&tokens, &[]).unwrap();
    assert_eq!(end, tokens.len());
    compile_instruction_inner(&table(), LoongArchTarget::LA64, parsed)
}

fn hex(stmts: &[Stmt]) -> String {
    let mut bytes = Vec::new();
    for s in stmts {
        match s {
            Stmt::Const(w) => bytes.extend(w.to_le_bytes()),
            other => panic!("not a constant: {:?}", other),
        }
    }
    bytes.iter().map(|x| format!("{:02X}", *x)).collect::<Vec<_>>().join(", ")
}

#[test]
fn test_fld_d_bracket_offset() {
    let out = assemble("fld.d", vec![reg(RegId::F14), mem(RegId::R2, -403)]).unwrap();
    assert_eq!(hex(&out), "4E, B4, B9, 2B", "fld.d f14, [r2, -403] via [base, offset]");
}

#[test]
fn test_fld_d_gas_syntax() {
    let out = assemble_text("fld.d f14, -403(r2)").unwrap();
    assert_eq!(hex(&out), "4E, B4, B9, 2B", "fld.d f14, -403(r2) via offset(base)");
}

#[test]
fn test_fld_d_original_syntax() {
    let out = assemble(
        "fld.d",
        vec![reg(RegId::F14), reg(RegId::R2), RawArg::Immediate { value: imm(-403) }],
    )
    .unwrap();
    assert_eq!(hex(&out), "4E, B4, B9, 2B", "fld.d f14, r2, -403 via bare arguments");
}

#[test]
fn test_ld_d_bracket_offset() {
    let out = assemble("ld.d", vec![reg(RegId::R4), mem(RegId::R3, 16)]).unwrap();
    assert_eq!(hex(&out), "64, 40, C0, 28", "ld.d r4, [r3, 16] via [base, offset]");
}

#[test]
fn test_ld_d_gas_syntax() {
    let out = assemble_text("ld.d r4, 16(r3)").unwrap();
    assert_eq!(hex(&out), "64, 40, C0, 28", "ld.d r4, 16(r3) via offset(base)");
}

#[test]
fn test_st_w_bracket_offset() {
    let out = assemble("st.w", vec![reg(RegId::R5), mem(RegId::R2, 100)]).unwrap();
    assert_eq!(hex(&out), "45, 90, 81, 29", "st.w r5, [r2, 100] via [base, offset]");
}

#[test]
fn test_st_w_gas_syntax() {
    let out = assemble_text("st.w r5, 100(r2)").unwrap();
    assert_eq!(hex(&out), "45, 90, 81, 29", "st.w r5, 100(r2) via offset(base)");
}

#[test]
fn offset_base_and_bracket_forms_agree() {
    assert_eq!(
        hex(&assemble_text("fld.d f14, [r2, -403]").unwrap()),
        hex(&assemble_text("fld.d f14, -403(r2)").unwrap())
    );
    assert_eq!(
        hex(&assemble_text("st.w r5, [r2, 100]").unwrap()),
        hex(&assemble_text("st.w r5, 100(r2)").unwrap())
    );
}

fn at_argument(r: Result<Vec<Stmt>, MatchError>) -> (usize, String) {
    match r {
        Err(MatchError::AtArgument { arg, message }) => (arg, message),
        other => panic!("expected an argument error, got {:?}", other),
    }
}

fn whole(r: Result<Vec<Stmt>, MatchError>) -> String {
    match r {
        Err(MatchError::Instruction { message }) => message,
        other => panic!("expected an instruction error, got {:?}", other),
    }
}

#[test]
fn r0_is_refused_where_forbidden() {
    let r = assemble(
        "addi.w",
        vec![reg(RegId::R0), reg(RegId::R1), RawArg::Immediate { value: imm(1) }],
    );
    assert_eq!(at_argument(r), (0, String::from("This register must not be r0")));
    let ok = assemble(
        "addi.w",
        vec![reg(RegId::R4), reg(RegId::R0), RawArg::Immediate { value: imm(-1) }],
    )
    .unwrap();
    assert_eq!(hex(&ok), format!("{}", {
        let w: u32 = 0x0280_0000 | (0xFFF << 10) | 4;
        w.to_le_bytes().iter().map(|x| format!("{:02X}", x)).collect::<Vec<_>>().join(", ")
    }));
}

#[test]
fn immediates_are_range_checked() {
    let high = assemble(
        "addi.w",
        vec![reg(RegId::R4), reg(RegId::R5), RawArg::Immediate { value: imm(2048) }],
    );
    assert_eq!(at_argument(high), (2, String::from("Immediate too high")));
    let low = assemble(
        "addi.w",
        vec![reg(RegId::R4), reg(RegId::R5), RawArg::Immediate { value: imm(-2049) }],
    );
    assert_eq!(at_argument(low), (2, String::from("Immediate too low")));
    let neg = assemble(
        "andi",
        vec![reg(RegId::R4), reg(RegId::R5), RawArg::Immediate { value: imm(-1) }],
    );
    assert_eq!(at_argument(neg), (2, String::from("Immediate too low")));
    let top = assemble(
        "andi",
        vec![reg(RegId::R4), reg(RegId::R5), RawArg::Immediate { value: imm(4095) }],
    )
    .unwrap();
    match top[0] {
        Stmt::Const(w) => assert_eq!(w, 0x0340_0000 | (4095 << 10) | (5 << 5) | 4),
        _ => panic!(),
    }
    let over = assemble(
        "andi",
        vec![reg(RegId::R4), reg(RegId::R5), RawArg::Immediate { value: imm(4096) }],
    );
    assert_eq!(at_argument(over), (2, String::from("Immediate too high")));
}

#[test]
fn branch_offsets_are_scaled_and_split() {
    let out = assemble(
        "beq",
        vec![reg(RegId::R4), reg(RegId::R5), RawArg::Immediate { value: imm(-8) }],
    )
    .unwrap();
    match out[0] {
        Stmt::Const(w) => assert_eq!(w, 0x5800_0000 | (0xFFFE << 10) | (4 << 5) | 5),
        _ => panic!(),
    }
    let out = assemble("b", vec![RawArg::Immediate { value: imm(0x10_0004) }]).unwrap();
    match out[0] {
        Stmt::Const(w) => assert_eq!(w, 0x5000_0000 | (1 << 10) | 4),
        _ => panic!(),
    }
    let odd = assemble(
        "beq",
        vec![reg(RegId::R4), reg(RegId::R5), RawArg::Immediate { value: imm(6) }],
    );
    let (arg, message) = at_argument(odd);
    assert_eq!(arg, 2);
    assert_eq!(message, "Unrepresentable immediate scaled:1 scale:2 value:6 min:-32768 range:65535");
}

#[test]
fn jump_targets_become_relocations() {
    let out = assemble(
        "beq",
        vec![reg(RegId::R4), reg(RegId::R5), RawArg::JumpTarget { jump: Jump { bare: false } }],
    )
    .unwrap();
    assert_eq!(out.len(), 2);
    match out[0] {
        Stmt::Const(w) => assert_eq!(w, 0x5800_0000 | (4 << 5) | 5),
        _ => panic!(),
    }
    match out[1] {
        Stmt::Relocation { arg, size, id } => assert_eq!((arg, size, id), (2, 4, 0)),
        _ => panic!(),
    }
}

#[test]
fn runtime_values_become_fields() {
    let out = assemble(
        "addi.w",
        vec![
            RawArg::Register { reg: Register::Dynamic(RegFamily::INTEGER) },
            reg(RegId::R5),
            RawArg::Immediate { value: runtime() },
        ],
    )
    .unwrap();
    assert_eq!(out.len(), 1);
    match &out[0] {
        Stmt::Dynamic { base, fields } => {
            assert_eq!(*base, 0x0280_0000 | (5 << 5));
            assert_eq!(
                fields,
                &vec![
                    (0u8, DynamicField::Register { arg: 0, nonzero: true }),
                    (
                        10u8,
                        DynamicField::Signed { arg: 2, min: -2048, range: 4095, scale: 0, shift: 0, mask: 4095 }
                    ),
                ]
            );
        },
        _ => panic!(),
    }
    let out = assemble("b", vec![RawArg::Immediate { value: runtime() }]).unwrap();
    match &out[0] {
        Stmt::Dynamic { base, fields } => {
            assert_eq!(*base, 0x5000_0000);
            let signed = |shift: u8, mask: u32| DynamicField::Signed {
                arg: 0,
                min: -(1 << 25),
                range: (1 << 26) - 1,
                scale: 2,
                shift,
                mask,
            };
            assert_eq!(fields, &vec![(0u8, signed(16, 0x3FF)), (10u8, signed(0, 0xFFFF))]);
        },
        _ => panic!(),
    }
}

#[test]
fn unsigned_runtime_immediates() {
    let out = assemble(
        "andi",
        vec![reg(RegId::R4), reg(RegId::R5), RawArg::Immediate { value: runtime() }],
    )
    .unwrap();
    match &out[0] {
        Stmt::Dynamic { fields, .. } => {
            assert_eq!(fields, &vec![(10u8, DynamicField::Unsigned { arg: 2, mask: 4095 })])
        },
        _ => panic!(),
    }
}

#[test]
fn matching_errors() {
    let unknown = assemble("nop.x", vec![]);
    assert_eq!(whole(unknown), "Unknown instruction mnemonic 'nop.x'");
    let mismatch = assemble("b", vec![reg(RegId::R1)]);
    assert_eq!(
        whole(mismatch),
        "'b': instruction format mismatch, expected one of the following forms:\n>>> b target (26-bit offset, 2-byte aligned) (LA32/64_BASE)"
    );
    let base = assemble("ld.d", vec![reg(RegId::R4), mem(RegId::F3, 16)]);
    assert_eq!(
        at_argument(base),
        (1, String::from("Base register needs to be a regular (integer) register"))
    );
    let bare = assemble("b", vec![RawArg::JumpTarget { jump: Jump { bare: true } }]);
    assert_eq!(
        at_argument(bare),
        (0, String::from("External relocations not yet supported for LoongArch"))
    );
}

#[test]
fn zero_offsets_are_dropped() {
    // `[r3, 0]` is read as `[r3]`, so it fits a form that takes a plain reference.
    let out = assemble("jirl", vec![reg(RegId::R1), mem(RegId::R3, 0)]).unwrap();
    match out[0] {
        Stmt::Const(w) => assert_eq!(w, 0x4C00_0000 | (3 << 5) | 1),
        _ => panic!(),
    }
    assert!(assemble("jirl", vec![reg(RegId::R1), mem(RegId::R3, 4)]).is_err());
}

#[test]
fn named_registers_take_no_argument() {
    let out = assemble("movgr2fcsr", vec![reg(RegId::FCSR0), reg(RegId::R7)]).unwrap();
    match out[0] {
        Stmt::Const(w) => assert_eq!(w, 0x0114_C000 | (7 << 5)),
        _ => panic!(),
    }
    assert!(assemble("movgr2fcsr", vec![reg(RegId::FCSR1), reg(RegId::R7)]).is_err());
}

#[test]
fn matchers_and_argument_lists() {
    let t = table();
    let m = match_instruction(&t, LoongArchTarget::LA64, ins("ld.d", vec![reg(RegId::R4), mem(RegId::R3, 8)]))
        .unwrap();
    assert_eq!(
        m.args,
        vec![
            FlatArg::Register { reg: Register::Static(RegId::R4) },
            FlatArg::Register { reg: Register::Static(RegId::R3) },
            FlatArg::Immediate { value: imm(8) },
        ]
    );
    assert!(Matcher::Imm.matches(&RawArg::Immediate { value: runtime() }));
    assert!(!Matcher::Ident.matches(&RawArg::Immediate { value: runtime() }));
    assert!(Matcher::Ident.matches(&RawArg::Immediate { value: ImmExpr { number: None, is_ident: true } }));
    assert!(Matcher::F.matches(&reg(RegId::F2)));
    assert!(!Matcher::R.matches(&reg(RegId::F2)));
    assert!(Matcher::Ref.matches(&RawArg::Reference { offset: None, base: Register::Static(RegId::R1) }));
    assert!(!Matcher::Ref.matches(&mem(RegId::R1, 4)));
    let f = form(0, vec![Matcher::R, Matcher::Imm], vec![]);
    assert!(match_args(&[reg(RegId::R1), RawArg::Immediate { value: imm(3) }], &f).is_some());
    assert!(match_args(&[reg(RegId::R1)], &f).is_none());
}

#[test]
fn default_offsets_encode_zero() {
    let f = form(
        0x28C0_0000,
        vec![Matcher::R, Matcher::RefOffset],
        vec![Command::R(0), Command::R(5), Command::SImm(10, 12)],
    );
    let mut m = MatchData::new(&f);
    m.args = vec![
        FlatArg::Register { reg: Register::Static(RegId::R4) },
        FlatArg::Register { reg: Register::Static(RegId::R3) },
        FlatArg::Default,
    ];
    let out = compile_instruction(&m).unwrap();
    assert_eq!(hex(&out), "64, 00, C0, 28");
}

#[test]
fn register_queries() {
    let s = Register::Static(RegId::F9);
    let d = Register::Dynamic(RegFamily::LSX);
    assert_eq!(s.code(), Some(9));
    assert_eq!(d.code(), None);
    assert_eq!(s.family(), RegFamily::FP);
    assert_eq!(d.family(), RegFamily::LSX);
    assert!(!s.is_dynamic());
    assert!(d.is_dynamic());
    assert_eq!(s.as_id(), Some(RegId::F9));
    assert_eq!(d.as_id(), None);
}

#[test]
fn error_values() {
    let e = CompileError::TooHigh { arg: 3 };
    assert_eq!(e.arg(), 3);
    assert_eq!(e.message(), "Immediate too high");
    let u = CompileError::Unrepresentable { arg: 1, scaled: -2, scale: 12, value: -5000, min: -524288, range: 1048575 };
    assert_eq!(u.message(), "Unrepresentable immediate scaled:-2 scale:12 value:-5000 min:-524288 range:1048575");
}

fn offset_only(template: u32, rel: Relocation, v: i64) -> Result<Vec<Stmt>, MatchError> {
    let t = OpTable::new(vec![(
        String::from("x"),
        vec![form(template, vec![Matcher::Offset], vec![Command::Offset(rel)])],
    )]);
    compile_instruction_inner(&t, LoongArchTarget::LA64, ins("x", vec![RawArg::Immediate { value: imm(v) }]))
}

#[test]
fn pcalau12i_rounds_the_offset() {
    // pcalau12i r4, offset: the high 20 bits are rounded by 0x800
    let t = OpTable::new(vec![(
        String::from("pcalau12i"),
        vec![form(
            0x1A00_0000,
            vec![Matcher::R, Matcher::Offset],
            vec![Command::R(0), Command::Offset(Relocation::PCALA_HI20)],
        )],
    )]);
    let word = |v: i64| -> u32 {
        let out = compile_instruction_inner(
            &t,
            LoongArchTarget::LA64,
            ins("pcalau12i", vec![reg(RegId::R4), RawArg::Immediate { value: imm(v) }]),
        )
        .unwrap();
        match out[0] {
            Stmt::Const(w) => w,
            _ => panic!(),
        }
    };
    let si20 = |w: u32| (w >> 5) & 0xF_FFFF;
    assert_eq!(si20(word(0x1234_5000)), 0x12345);
    assert_eq!(si20(word(0x1234_57FF)), 0x12345);
    assert_eq!(si20(word(0x1234_5800)), 0x12346);
    assert_eq!(si20(word(0x1234_6000)), 0x12346);
    assert_eq!(word(0x1234_5000) & 0x1F, 4);
    assert_eq!(si20(word(-0x1000)), 0xF_FFFF);
    assert!(offset_only(0, Relocation::PCALA_HI20, 0x7FFF_F800).is_err());
    assert!(offset_only(0, Relocation::PCALA_HI20, -0x8000_0801).is_err());
    assert!(offset_only(0, Relocation::PCALA_HI20, -0x8000_0800).is_ok());
}

#[test]
fn static_offsets_match_the_relocations() {
    let cases: &[(Relocation, LoongArchRelocation)] = &[
        (Relocation::B16, LoongArchRelocation::B16),
        (Relocation::B21, LoongArchRelocation::B21),
        (Relocation::B26, LoongArchRelocation::B26),
        (Relocation::ABS_HI20, LoongArchRelocation::ABS_HI20),
        (Relocation::SI14, LoongArchRelocation::SI14),
        (Relocation::SI12, LoongArchRelocation::SI12),
        (Relocation::PCALA_LO12, LoongArchRelocation::PCALA_LO12),
        (Relocation::PCALA_HI20, LoongArchRelocation::PCALA_HI20),
    ];
    let values: &[i64] = &[
        0, 4, -4, 6, 0x7FC, 0x800, -0x800, -0x804, 0x7FFC, 0x8000, -0x8000, 0x1FFFC, 0x20000, -0x20000,
        -0x20004, 0x7_FFFC, 0x8_0000, -0x8_0000, 0x7_FFFF, 0x1FF_FFFC, 0x200_0000, 0x1234_57FF,
        -0x7FFF_F000,
    ];
    for &(rel, rt) in cases {
        for &v in values {
            let compiled = offset_only(0xAC00_0000, rel, v);
            match rt.encode(v as isize) {
                Ok(e) => match compiled {
                    Ok(out) => match out[0] {
                        Stmt::Const(w) => assert_eq!(w, 0xAC00_0000 | e, "{:?} {}", rel, v),
                        _ => panic!(),
                    },
                    Err(err) => panic!("{:?} {} refused: {:?}", rel, v, err),
                },
                Err(_) => assert!(compiled.is_err(), "{:?} {}", rel, v),
            }
        }
    }
}

fn single_form_table(name: &str, template: Template, matchers: Vec<Matcher>, commands: Vec<Command>) -> OpTable {
    OpTable::new(vec![(
        String::from(name),
        vec![Opdata {
            template,
            isa_flags: ISAFlags::make(ISA_LA32 | ISA_LA64),
            ext_flags: vec![ExtensionFlags::make(EX_BASE)],
            matchers,
            commands,
        }],
    )])
}

fn words(out: &[Stmt]) -> Vec<u32> {
    out.iter()
        .map(|s| match s {
            Stmt::Const(w) => *w,
            other => panic!("not a constant: {:?}", other),
        })
        .collect()
}

/// `la rd, target`: `pcalau12i rd, target` then `addi.d rd, rd, target + 4`.
fn la_table() -> OpTable {
    single_form_table(
        "la",
        Template::Double(0x1A00_0000, 0x02C0_0000),
        vec![Matcher::R, Matcher::Offset],
        vec![
            Command::R(0),
            Command::Repeat,
            Command::R(32),
            Command::Repeat,
            Command::R(37),
            Command::Offset(Relocation::SPLIT_PCALA),
        ],
    )
}

#[test]
fn test_la_immediate() {
    let out = compile_instruction_inner(
        &la_table(),
        LoongArchTarget::LA64,
        ins("la", vec![reg(RegId::R10), RawArg::Immediate { value: imm(0x12340) }]),
    )
    .unwrap();
    let w = words(&out);
    assert_eq!(w.len(), 2, "Expected 2 instructions");
    let (insn1, insn2) = (w[0], w[1]);
    assert_eq!((insn1 >> 26) & 0x3F, 0b000110, "pcalau12i opcode");
    assert_eq!(insn1 & 0x1F, 10, "pcalau12i rd = r10");
    assert_eq!((insn2 >> 26) & 0x3F, 0b000000, "addi.d opcode");
    assert_eq!((insn2 >> 22) & 0xF, 0b1011, "addi.d func field");
    assert_eq!(insn2 & 0x1F, 10, "addi.d rd = r10");
    assert_eq!((insn2 >> 5) & 0x1F, 10, "addi.d rj = r10");
    assert_eq!((insn1 >> 5) & 0xF_FFFF, 0x12);
    assert_eq!((insn2 >> 10) & 0xFFF, 0x340);
}

#[test]
fn test_la_label_backward() {
    let out = compile_instruction_inner(
        &la_table(),
        LoongArchTarget::LA64,
        ins("la", vec![reg(RegId::R5), RawArg::JumpTarget { jump: Jump { bare: false } }]),
    )
    .unwrap();
    assert_eq!(out.len(), 3, "two words and their relocation");
    let insn1 = match out[0] {
        Stmt::Const(w) => w,
        _ => panic!(),
    };
    let insn2 = match out[1] {
        Stmt::Const(w) => w,
        _ => panic!(),
    };
    assert_eq!((insn1 >> 26) & 0x3F, 0b000110, "First instruction should be pcalau12i");
    assert_eq!(insn1 & 0x1F, 5, "pcalau12i rd should be r5");
    assert_eq!((insn2 >> 26) & 0x3F, 0b000000, "Second instruction should be addi.d");
    assert_eq!((insn2 >> 22) & 0xF, 0b1011, "addi.d func field should be 0b1011");
    assert_eq!(insn2 & 0x1F, 5, "addi.d rd should be r5");
    assert_eq!((insn2 >> 5) & 0x1F, 5, "addi.d rj should be r5");
    match out[2] {
        Stmt::Relocation { arg, size, id } => assert_eq!((arg, size, id), (1, 8, 17)),
        _ => panic!(),
    }
    let b = assemble("b", vec![RawArg::JumpTarget { jump: Jump { bare: false } }]).unwrap();
    match b[1] {
        Stmt::Relocation { arg, size, id } => assert_eq!((arg, size, id), (0, 4, 2)),
        _ => panic!(),
    }
}

fn one_imm(template: Template, commands: Vec<Command>, v: Option<i64>) -> Result<Vec<Stmt>, MatchError> {
    let t = single_form_table("x", template, vec![Matcher::Imm], commands);
    let value = ImmExpr { number: v, is_ident: false };
    compile_instruction_inner(&t, LoongArchTarget::LA64, ins("x", vec![RawArg::Immediate { value }]))
}

#[test]
fn split_pcala_pairs() {
    let two = Template::Double(0, 0);
    let w = words(&one_imm(two.clone(), vec![Command::Offset(Relocation::SPLIT_PCALA)], Some(0x1234_5FFF)).unwrap());
    assert_eq!(w, vec![0x12346 << 5, 0xFFF << 10]);
    let w = words(&one_imm(two.clone(), vec![Command::Offset(Relocation::SPLIT_PCALA)], Some(-4)).unwrap());
    assert_eq!(w, vec![0, 0xFFC << 10]);
    let far = one_imm(two.clone(), vec![Command::Offset(Relocation::SPLIT_PCALA)], Some(0x7FFF_F800));
    assert_eq!(at_argument(far), (0, String::from("SPLIT_PCALA immediate out of range")));
    let out = one_imm(two, vec![Command::Offset(Relocation::SPLIT_PCALA)], None).unwrap();
    match (&out[0], &out[1]) {
        (Stmt::Dynamic { base: 0, fields: a }, Stmt::Dynamic { base: 0, fields: b }) => {
            assert_eq!(a, &vec![(5u8, DynamicField::Bits { arg: 0, bias: 0x800, shift: 12, mask: 0xF_FFFF })]);
            assert_eq!(b, &vec![(10u8, DynamicField::Bits { arg: 0, bias: 0, shift: 0, mask: 0xFFF })]);
        },
        other => panic!("{:?}", other),
    }
}

#[test]
fn call_pairs() {
    let two = Template::Double(0, 0);
    let w = words(&one_imm(two.clone(), vec![Command::Offset(Relocation::SPLIT_CALL30)], Some(0x1234_5678)).unwrap());
    assert_eq!(w, vec![0x12345 << 5, ((0x678 >> 2) & 0x3FF) << 10]);
    let w = words(&one_imm(two.clone(), vec![Command::Offset(Relocation::SPLIT_CALL30)], Some(-8)).unwrap());
    assert_eq!(w, vec![0xF_FFFF << 5, 0x3FE << 10]);
    // only the low 32 bits of the rounded offset reach the high field
    let w = words(&one_imm(two.clone(), vec![Command::Offset(Relocation::SPLIT_CALL36)], Some(0x4_0000)).unwrap());
    assert_eq!(w, vec![1 << 5, 0]);
    let w = words(&one_imm(two.clone(), vec![Command::Offset(Relocation::SPLIT_CALL36)], Some(-4)).unwrap());
    assert_eq!(w, vec![0, 0xFFFF << 10]);
    let w = words(&one_imm(two.clone(), vec![Command::Offset(Relocation::SPLIT_CALL36)], Some(-0x4_0000)).unwrap());
    assert_eq!(w, vec![0x3FFF << 5, 0]);
    let far = one_imm(two, vec![Command::Offset(Relocation::SPLIT_CALL36)], Some(0x20_0000_0000));
    assert_eq!(at_argument(far), (0, String::from("SPLIT_CALL36 immediate out of range")));
}

#[test]
fn li_pseudo_instructions() {
    let two = Template::Double(0x1400_0000, 0x0380_0000);
    let w = words(&one_imm(two.clone(), vec![Command::LiW32], Some(0x1234_5FFF)).unwrap());
    assert_eq!(w, vec![0x1400_0000 | (0x12346 << 5), 0x0380_0000 | (0xFFF << 10)]);
    let bad = one_imm(two, vec![Command::LiW32], Some(0x8000_0000));
    assert_eq!(at_argument(bad), (0, String::from("li.w immediate out of 32-bit range")));
    let four = Template::Many(vec![0x1400_0000, 0x0380_0000, 0x1600_0000, 0x0300_0000]);
    let w = words(&one_imm(four.clone(), vec![Command::LiD64], Some(0x0123_4567_89AB_CDEF)).unwrap());
    assert_eq!(
        w,
        vec![
            0x1400_0000 | (0x89ABD << 5),
            0x0380_0000 | (0xDEF << 10),
            0x1600_0000 | (0x34567 << 5),
            0x0300_0000 | (0x012 << 10),
        ]
    );
    let out = one_imm(four, vec![Command::LiD64], None).unwrap();
    match &out[3] {
        Stmt::Dynamic { fields, .. } => {
            assert_eq!(fields, &vec![(10u8, DynamicField::High { arg: 0, shift: 52, mask: 0xFFF })])
        },
        other => panic!("{:?}", other),
    }
}

#[test]
fn wide_immediates_over_bit_ranges() {
    let commands = vec![
        Command::BigImm(32),
        Command::RBitRange(5, 20, 12),
        Command::BitRange(42, 12, 0),
        Command::Next,
    ];
    let two = Template::Double(0, 0);
    let w = words(&one_imm(two.clone(), commands.clone(), Some(0x1234_5800)).unwrap());
    assert_eq!(w, vec![0x12346 << 5, 0x800 << 10]);
    let w = words(&one_imm(two.clone(), commands.clone(), Some(-1)).unwrap());
    assert_eq!(w, vec![0, 0xFFF << 10]);
    assert_eq!(
        at_argument(one_imm(two.clone(), commands.clone(), Some(0x8000_0000))),
        (0, String::from("Immediate too high"))
    );
    assert_eq!(
        at_argument(one_imm(two.clone(), commands.clone(), Some(-0x8000_0001))),
        (0, String::from("Immediate too low"))
    );
    let out = one_imm(two, commands, None).unwrap();
    match &out[0] {
        Stmt::Dynamic { fields, .. } => assert_eq!(
            fields,
            &vec![(
                5u8,
                DynamicField::Wide {
                    arg: 0,
                    shift: 12,
                    mask: 0xF_FFFF,
                    round: true,
                    lowest: -0x8000_0000,
                    extent: 0xFFFF_FFFF
                }
            )]
        ),
        other => panic!("{:?}", other),
    }
}

fn two_imms(commands: Vec<Command>, a: Option<i64>, b: Option<i64>) -> Result<Vec<Stmt>, MatchError> {
    let t = single_form_table("x", Template::Single(0), vec![Matcher::Imm, Matcher::Imm], commands);
    let value = |v: Option<i64>| RawArg::Immediate { value: ImmExpr { number: v, is_ident: false } };
    compile_instruction_inner(&t, LoongArchTarget::LA64, ins("x", vec![value(a), value(b)]))
}

#[test]
fn related_immediates() {
    // bit position and size: the field holds position + size - 1
    let sum = vec![Command::UImm(10, 5), Command::Usum(16, 5)];
    assert_eq!(words(&two_imms(sum.clone(), Some(8), Some(4)).unwrap()), vec![(8 << 10) | (11 << 16)]);
    assert_eq!(at_argument(two_imms(sum.clone(), Some(8), Some(25))), (1, String::from("Immediate too high")));
    assert_eq!(at_argument(two_imms(sum.clone(), Some(8), Some(0))), (1, String::from("Immediate too low")));
    assert_eq!(
        at_argument(two_imms(vec![Command::UImm(10, 6), Command::Usum(16, 5)], Some(40), Some(1))),
        (0, String::from("Impossible immediate combination"))
    );
    match &two_imms(sum, None, Some(4)).unwrap()[0] {
        Stmt::Dynamic { fields, .. } => assert_eq!(
            fields,
            &vec![
                (10u8, DynamicField::Unsigned { arg: 0, mask: 31 }),
                (16u8, DynamicField::Sum { arg: 1, prev: 0, mask: 31 }),
            ]
        ),
        other => panic!("{:?}", other),
    }
    // msb and lsb: the second is at most the first
    let le = vec![Command::UImm(16, 5), Command::Ulep(10, 5)];
    assert_eq!(words(&two_imms(le.clone(), Some(9), Some(9)).unwrap()), vec![(9 << 16) | (9 << 10)]);
    assert_eq!(at_argument(two_imms(le, Some(9), Some(10))), (1, String::from("Immediate too high")));
}

#[test]
fn scaled_and_biased_immediates() {
    let one = Template::Single(0);
    assert_eq!(words(&one_imm(one.clone(), vec![Command::Usubone(10, 3)], Some(8)).unwrap()), vec![7 << 10]);
    assert_eq!(at_argument(one_imm(one.clone(), vec![Command::Usubone(10, 3)], Some(0))), (0, String::from("Immediate too low")));
    assert_eq!(at_argument(one_imm(one.clone(), vec![Command::Usubone(10, 3)], Some(9))), (0, String::from("Immediate too high")));
    assert_eq!(words(&one_imm(one.clone(), vec![Command::Sscaled(10, 14, 2)], Some(-8)).unwrap()), vec![0x3FFE << 10]);
    assert_eq!(words(&one_imm(one.clone(), vec![Command::Uscaled(10, 12, 3)], Some(16)).unwrap()), vec![2 << 10]);
    assert_eq!(
        at_argument(one_imm(one.clone(), vec![Command::Sscaled(10, 14, 2)], Some(6))),
        (0, String::from("Unrepresentable immediate scaled:1 scale:2 value:6 min:-8192 range:16383"))
    );
    static PARTS: [u8; 4] = [0, 5, 10, 16];
    assert_eq!(
        words(&one_imm(one.clone(), vec![Command::Sfields(&PARTS)], Some(-2)).unwrap()),
        vec![0x1F | (0xFFFE << 10)]
    );
    assert_eq!(
        words(&one_imm(one, vec![Command::Sfields(&PARTS)], Some(0x1_0005)).unwrap()),
        vec![1 | (5 << 10)]
    );
}

#[test]
fn other_offset_fields() {
    let one = Template::Single(0);
    let enc = |rel: Relocation, v: i64| words(&one_imm(one.clone(), vec![Command::Offset(rel)], Some(v)).unwrap())[0];
    assert_eq!(enc(Relocation::B21, -4), 0x1F | (0xFFFF << 10));
    assert_eq!(enc(Relocation::SI14, 8), 2 << 10);
    assert_eq!(enc(Relocation::ABS_HI20, -1), 0xF_FFFF << 5);
    assert_eq!(enc(Relocation::PCADD_SHIFT2, 12), 3 << 5);
    assert_eq!(enc(Relocation::PCADD_SHIFT12, 0x3000), 3 << 5);
    assert_eq!(enc(Relocation::PCADD_SHIFT18, -0x40000), 0xF_FFFF << 5);
    assert_eq!(enc(Relocation::PCALA_LO12, -1), 0xFFF << 10);
    let t = single_form_table("x", Template::Single(0), vec![Matcher::Imm], vec![Command::Offset(Relocation::PCADD_SHIFT12)]);
    let r = compile_instruction_inner(&t, LoongArchTarget::LA64, ins("x", vec![RawArg::Immediate { value: imm(0x800) }]));
    assert_eq!(at_argument(r).0, 0);
}

#[test]
fn other_register_fields() {
    let t = single_form_table(
        "x",
        Template::Single(0),
        vec![Matcher::C, Matcher::V, Matcher::X],
        vec![Command::C(0), Command::V(5), Command::X(10)],
    );
    let out = compile_instruction_inner(
        &t,
        LoongArchTarget::LA64,
        ins("x", vec![reg(RegId::FCC3), reg(RegId::V7), reg(RegId::X9)]),
    )
    .unwrap();
    assert_eq!(words(&out), vec![3 | (7 << 5) | (9 << 10)]);
}

#[test]
fn relocation_ids_name_the_runtime_relocations() {
    let cases: &[(Relocation, LoongArchRelocation)] = &[
        (Relocation::B16, LoongArchRelocation::B16),
        (Relocation::B21, LoongArchRelocation::B21),
        (Relocation::B26, LoongArchRelocation::B26),
        (Relocation::ABS_HI20, LoongArchRelocation::ABS_HI20),
        (Relocation::SI14, LoongArchRelocation::SI14),
        (Relocation::SI12, LoongArchRelocation::SI12),
        (Relocation::PCALA_LO12, LoongArchRelocation::PCALA_LO12),
        (Relocation::PCALA_HI20, LoongArchRelocation::PCALA_HI20),
        (Relocation::PCADD_SHIFT2, LoongArchRelocation::PCADD_SHIFT2),
        (Relocation::PCADD_SHIFT12, LoongArchRelocation::PCADD_SHIFT12),
        (Relocation::PCADD_SHIFT18, LoongArchRelocation::PCADD_SHIFT18),
        (Relocation::SPLIT_PCALA, LoongArchRelocation::SPLIT_PCALA),
        (Relocation::SPLIT_CALL30, LoongArchRelocation::SPLIT_CALL30),
        (Relocation::SPLIT_CALL36, LoongArchRelocation::SPLIT_CALL36),
    ];
    for &(rel, rt) in cases {
        assert_eq!(LoongArchRelocation::from_encoding((rel.to_id(),)), rt, "{:?}", rel);
        assert_eq!(rel.size() as usize, rt.size(), "{:?}", rel);
    }
}

#[test]
fn run_time_fields_give_the_static_bits() {
    let one = Template::Single(0);
    for &v in &[0i64, 1, 7, 2047, -1, -2048, 2048] {
        let stat = one_imm(one.clone(), vec![Command::SImm(10, 12)], Some(v));
        let dynamic = one_imm(one.clone(), vec![Command::SImm(10, 12)], None).unwrap();
        let field = match &dynamic[0] {
            Stmt::Dynamic { fields, .. } => fields[0].1,
            other => panic!("{:?}", other),
        };
        match stat {
            Ok(out) => assert_eq!(words(&out)[0], field.run_time_value(v, 0).unwrap() << 10, "{}", v),
            Err(_) => assert_eq!(field.run_time_value(v, 0), None, "{}", v),
        }
    }
    let words_alike = |template: Template, command: Command, v: i64| {
        let stat = words(&one_imm(template.clone(), vec![command], Some(v)).unwrap());
        let dynamic = one_imm(template, vec![command], None).unwrap();
        for (k, s) in dynamic.iter().enumerate() {
            match s {
                Stmt::Dynamic { fields, .. } => {
                    let (offset, field) = fields[0];
                    assert_eq!(stat[k], field.run_time_value(v, 0).unwrap() << offset, "{:?} {} {}", command, v, k);
                },
                other => panic!("{:?}", other),
            }
        }
    };
    for &v in &[0i64, 4, -4, 0x1234_5678, -0x1234_5678, 0x7FFF_FFFC, -0x8000_0000, 0x12_3456_789C] {
        words_alike(Template::Double(0, 0), Command::Offset(Relocation::SPLIT_CALL30), v);
    }
    for &v in &[0i64, 4, -4, 0x1_FFFC, 0x2_0000, -0x4_0000, 0x12_3456_789C, -0x12_3456_789C] {
        words_alike(Template::Double(0, 0), Command::Offset(Relocation::SPLIT_CALL36), v);
    }
    for &v in &[0i64, -1, 0x0123_4567_89AB_CDEF, i64::MIN, i64::MAX - 0x800, 0x7FF, 0x800] {
        words_alike(Template::Many(vec![0, 0, 0, 0]), Command::LiD64, v);
    }
    for &v in &[0i64, 1, -1, 2047, -2048, 2048, -2049, 0x7_FFFF, -0x8_0000, 0x8_0000] {
        for &rel in &[Relocation::SI12, Relocation::PCALA_LO12, Relocation::ABS_HI20] {
            let stat = one_imm(Template::Single(0), vec![Command::Offset(rel)], Some(v));
            let dynamic = one_imm(Template::Single(0), vec![Command::Offset(rel)], None).unwrap();
            let (offset, field) = match &dynamic[0] {
                Stmt::Dynamic { fields, .. } => fields[0],
                other => panic!("{:?}", other),
            };
            match stat {
                Ok(out) => assert_eq!(words(&out)[0], field.run_time_value(v, 0).unwrap() << offset, "{:?} {}", rel, v),
                Err(_) => assert_eq!(field.run_time_value(v, 0), None, "{:?} {}", rel, v),
            }
        }
    }
    let sum = vec![Command::UImm(10, 5), Command::Usum(16, 5)];
    for &(p, v) in &[(8i64, 4i64), (0, 1), (31, 1), (8, 24), (8, 25), (8, 0)] {
        let stat = two_imms(sum.clone(), Some(p), Some(v));
        let dynamic = two_imms(sum.clone(), None, None).unwrap();
        let field = match &dynamic[0] {
            Stmt::Dynamic { fields, .. } => fields[1].1,
            other => panic!("{:?}", other),
        };
        match stat {
            Ok(out) => assert_eq!(words(&out)[0] >> 16, field.run_time_value(v, p).unwrap(), "{} {}", p, v),
            Err(_) => assert_eq!(field.run_time_value(v, p), None, "{} {}", p, v),
        }
    }
    let two = Template::Double(0, 0);
    for &v in &[0i64, 0x1234_57FF, 0x1234_5800, -1, -0x8000_0000, 0x7FFF_F7FF] {
        let stat = words(&one_imm(two.clone(), vec![Command::LiW32], Some(v)).unwrap());
        let dynamic = one_imm(two.clone(), vec![Command::LiW32], None).unwrap();
        for (k, s) in dynamic.iter().enumerate() {
            match s {
                Stmt::Dynamic { fields, .. } => {
                    let (offset, field) = fields[0];
                    assert_eq!(stat[k], field.run_time_value(v, 0).unwrap() << offset, "{} {}", v, k);
                },
                other => panic!("{:?}", other),
            }
        }
    }
}
