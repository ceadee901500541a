use dynasm_loongarch::ast::{ImmExpr, Jump, RawArg, RegFamily, RegId, Register};
use dynasm_loongarch::syntax::{parse_arg, parse_instruction, Delimiter, SyntaxError, Token};

fn ident(s: &str) -> Token {
    Token::Ident(String::from(s))
}

fn lit(digits: &str) -> Token {
    Token::Int { digits: String::from(digits), suffix: String::new() }
}

fn punct(ch: char) -> Token {
    Token::Punct { ch, joint: false }
}

fn joint(ch: char) -> Token {
    Token::Punct { ch, joint: true }
}

fn open(d: Delimiter) -> Token {
    Token::Open(d)
}

fn close(d: Delimiter) -> Token {
    Token::Close(d)
}

fn reg(id: RegId) -> RawArg {
    RawArg::Register { reg: Register::Static(id) }
}

fn number(v: i64) -> ImmExpr {
    ImmExpr { number: Some(v), is_ident: false }
}

fn no_aliases() -> Vec<(String, String)> {
    Vec::new()
}

fn error(r: Result<(dynasm_loongarch::ast::ParsedInstruction, usize), SyntaxError>) -> (usize, String) {
    match r {
        Err(e) => (e.at, e.message),
        Ok((ins, k)) => panic!("read {} with {} arguments up to {}", ins.name, ins.args.len(), k),
    }
}

#[test]
fn reads_a_load_with_a_reference() {
    // ld.d r4, [r3, 16]
    let ts = vec![
        ident("ld"),
        punct('.'),
        ident("d"),
        ident("r4"),
        punct(','),
        open(Delimiter::Bracket),
        ident("r3"),
        punct(','),
        lit("16"),
        close(Delimiter::Bracket),
    ];
    let (ins, end) = parse_instruction(&ts, &no_aliases()).unwrap();
    assert_eq!(ins.name, "ld.d");
    assert_eq!(end, ts.len());
    assert_eq!(
        ins.args,
        vec![reg(RegId::R4), RawArg::Reference { offset: Some(number(16)), base: Register::Static(RegId::R3) }]
    );
}

#[test]
fn reads_offset_before_base_as_a_reference() {
    // fld.d f14, -403(r2)
    let ts = vec![
        ident("fld"),
        punct('.'),
        ident("d"),
        ident("f14"),
        punct(','),
        punct('-'),
        lit("403"),
        open(Delimiter::Parenthesis),
        ident("r2"),
        close(Delimiter::Parenthesis),
    ];
    let (ins, end) = parse_instruction(&ts, &no_aliases()).unwrap();
    assert_eq!(end, ts.len());
    assert_eq!(
        ins.args,
        vec![
            reg(RegId::F14),
            RawArg::Reference { offset: Some(number(-403)), base: Register::Static(RegId::R2) },
        ]
    );
    // a call of a named function stays an immediate expression
    let ts = vec![ident("x"), ident("f"), open(Delimiter::Parenthesis), ident("r2"), close(Delimiter::Parenthesis)];
    let (ins, _) = parse_instruction(&ts, &no_aliases()).unwrap();
    assert_eq!(ins.args, vec![RawArg::Immediate { value: ImmExpr { number: None, is_ident: false } }]);
    // more than a register inside the parentheses: an immediate expression
    let ts = vec![
        ident("x"),
        lit("4"),
        open(Delimiter::Parenthesis),
        ident("r2"),
        punct('+'),
        lit("1"),
        close(Delimiter::Parenthesis),
    ];
    let (ins, _) = parse_instruction(&ts, &no_aliases()).unwrap();
    assert_eq!(ins.args, vec![RawArg::Immediate { value: ImmExpr { number: None, is_ident: false } }]);
}

#[test]
fn reads_immediates() {
    // addi.w a0, sp, -1
    let ts = vec![
        ident("addi"),
        punct('.'),
        ident("w"),
        ident("a0"),
        punct(','),
        ident("sp"),
        punct(','),
        punct('-'),
        lit("1"),
    ];
    let (ins, _) = parse_instruction(&ts, &no_aliases()).unwrap();
    assert_eq!(ins.args, vec![reg(RegId::R4), reg(RegId::R3), RawArg::Immediate { value: number(-1) }]);
    // an immediate may start with `#`; an expression that is not a literal has no number
    let ts = vec![ident("x"), punct('#'), lit("5"), punct(','), ident("n"), punct(','), ident("n"), punct('+'), lit("1")];
    let (ins, _) = parse_instruction(&ts, &no_aliases()).unwrap();
    assert_eq!(
        ins.args,
        vec![
            RawArg::Immediate { value: number(5) },
            RawArg::Immediate { value: ImmExpr { number: None, is_ident: true } },
            RawArg::Immediate { value: ImmExpr { number: None, is_ident: false } },
        ]
    );
}

#[test]
fn reads_the_limits_of_literals() {
    let one = |toks: Vec<Token>| parse_arg(&toks, 0, &no_aliases()).unwrap().0;
    assert_eq!(one(vec![lit("9223372036854775807")]), RawArg::Immediate { value: number(i64::MAX) });
    assert_eq!(
        one(vec![lit("9223372036854775808")]),
        RawArg::Immediate { value: ImmExpr { number: None, is_ident: false } }
    );
    assert_eq!(one(vec![punct('-'), lit("9223372036854775808")]), RawArg::Immediate { value: number(i64::MIN) });
    assert_eq!(
        one(vec![punct('-'), lit("9223372036854775809")]),
        RawArg::Immediate { value: ImmExpr { number: None, is_ident: false } }
    );
    assert_eq!(
        one(vec![lit("18446744073709551616")]),
        RawArg::Immediate { value: ImmExpr { number: None, is_ident: false } }
    );
}

#[test]
fn reads_label_references() {
    let arg = |toks: Vec<Token>| parse_arg(&toks, 0, &no_aliases()).unwrap();
    let label = RawArg::JumpTarget { jump: Jump { bare: false } };
    assert_eq!(arg(vec![joint('-'), punct('>'), ident("target")]), (label, 3));
    assert_eq!(arg(vec![punct('>'), ident("next"), punct('+'), lit("4")]), (label, 4));
    assert_eq!(arg(vec![punct('<'), ident("back"), punct(','), ident("r1")]), (label, 2));
    assert_eq!(arg(vec![joint('='), punct('>'), ident("dynamic_label")]), (label, 3));
    assert_eq!(
        arg(vec![ident("extern"), ident("address")]),
        (RawArg::JumpTarget { jump: Jump { bare: true } }, 2)
    );
    // [r4, ->target + 4]
    let ts = vec![
        open(Delimiter::Bracket),
        ident("r4"),
        punct(','),
        joint('-'),
        punct('>'),
        ident("target"),
        punct('+'),
        lit("4"),
        close(Delimiter::Bracket),
    ];
    assert_eq!(
        arg(ts),
        (RawArg::LabelReference { jump: Jump { bare: false }, base: Register::Static(RegId::R4) }, 9)
    );
}

#[test]
fn reads_dynamic_registers_and_aliases() {
    // add.d R(dst), base, X(7)
    let ts = vec![
        ident("add"),
        punct('.'),
        ident("d"),
        ident("R"),
        open(Delimiter::Parenthesis),
        ident("dst"),
        close(Delimiter::Parenthesis),
        punct(','),
        ident("base"),
        punct(','),
        ident("X"),
        open(Delimiter::Parenthesis),
        lit("7"),
        close(Delimiter::Parenthesis),
    ];
    let aliases = vec![(String::from("base"), String::from("r21"))];
    let (ins, end) = parse_instruction(&ts, &aliases).unwrap();
    assert_eq!(end, ts.len());
    assert_eq!(
        ins.args,
        vec![
            RawArg::Register { reg: Register::Dynamic(RegFamily::INTEGER) },
            reg(RegId::R21),
            RawArg::Register { reg: Register::Dynamic(RegFamily::LASX) },
        ]
    );
    // a plain reference: [r3]
    let ts = vec![open(Delimiter::Bracket), ident("r3"), close(Delimiter::Bracket)];
    assert_eq!(
        parse_arg(&ts, 0, &no_aliases()).unwrap(),
        (RawArg::Reference { offset: None, base: Register::Static(RegId::R3) }, 3)
    );
}

#[test]
fn names_take_numbers_and_stop_at_semicolons() {
    // vldrepl.8 v1; ...
    let ts = vec![ident("vext2xv"), punct('.'), lit("8"), punct(';'), ident("nop")];
    let (ins, end) = parse_instruction(&ts, &no_aliases()).unwrap();
    assert_eq!(ins.name, "vext2xv.8");
    assert!(ins.args.is_empty());
    assert_eq!(end, 3);
    // arguments stop where no comma follows
    let ts = vec![ident("b"), punct('>'), ident("l"), ident("junk")];
    let (ins, end) = parse_instruction(&ts, &no_aliases()).unwrap();
    assert_eq!(ins.args.len(), 1);
    assert_eq!(end, 3);
}

#[test]
fn reports_syntax_errors() {
    let none = no_aliases();
    assert_eq!(error(parse_instruction(&vec![], &none)), (0, String::from("expected identifier")));
    assert_eq!(
        error(parse_instruction(&vec![ident("ld"), punct('.')], &none)),
        (2, String::from("expected identifier"))
    );
    assert_eq!(
        error(parse_instruction(&vec![ident("add"), ident("R"), ident("x")], &none)),
        (2, String::from("expected parentheses"))
    );
    assert_eq!(
        error(parse_instruction(&vec![ident("add"), ident("r1"), punct(',')], &none)),
        (3, String::from("expected expression"))
    );
    assert_eq!(
        error(parse_instruction(
            &vec![ident("ld"), open(Delimiter::Bracket), lit("5"), close(Delimiter::Bracket)],
            &none
        )),
        (2, String::from("Expected register"))
    );
    assert_eq!(
        error(parse_instruction(
            &vec![ident("ld"), open(Delimiter::Bracket), ident("r1"), ident("r2"), close(Delimiter::Bracket)],
            &none
        )),
        (3, String::from("unexpected token"))
    );
    assert_eq!(
        error(parse_instruction(&vec![ident("b"), joint('-'), punct('>'), lit("3")], &none)),
        (3, String::from("expected identifier"))
    );
}
