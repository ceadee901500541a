use dynasm_loongarch::instruction_format::{InstructionFormat, OperandType};

#[test]
fn parses_register_letters() {
    let f = InstructionFormat::parse("DJK", 0x0010_0000).unwrap();
    assert_eq!(f.operands, vec![OperandType::Rd, OperandType::Rj, OperandType::Rk]);
    assert_eq!(f.encoding, 0x0010_0000);
    let f = InstructionFormat::parse("FFF", 0).unwrap();
    assert_eq!(f.operands, vec![OperandType::Fa, OperandType::Fj, OperandType::Fj]);
    let f = InstructionFormat::parse("DV", 0).unwrap();
    assert_eq!(f.operands, vec![OperandType::Rd, OperandType::Vj]);
    let f = InstructionFormat::parse("", 7).unwrap();
    assert!(f.operands.is_empty());
}

#[test]
fn parses_immediates() {
    assert_eq!(
        InstructionFormat::parse("DJSk12", 0).unwrap().operands,
        vec![OperandType::Rd, OperandType::Rj, OperandType::Sk12]
    );
    assert_eq!(
        InstructionFormat::parse("DJk12", 0).unwrap().operands,
        vec![OperandType::Rd, OperandType::Rj, OperandType::Uk12]
    );
    assert_eq!(
        InstructionFormat::parse("VVk5", 0).unwrap().operands,
        vec![OperandType::Va, OperandType::Vj, OperandType::Uk5]
    );
    assert_eq!(InstructionFormat::parse("Dk6", 0).unwrap().operands, vec![OperandType::Rd, OperandType::Uk6]);
    assert_eq!(InstructionFormat::parse("DJk14", 0).unwrap().operands[2], OperandType::Sk14);
    assert_eq!(InstructionFormat::parse("DJk16", 0).unwrap().operands[2], OperandType::Sk16);
    assert_eq!(InstructionFormat::parse("Dk20", 0).unwrap().operands[1], OperandType::Sk20);
    assert_eq!(InstructionFormat::parse("k26", 0).unwrap().operands, vec![OperandType::Sk26]);
}

#[test]
fn parses_jump_immediates() {
    assert_eq!(
        InstructionFormat::parse("Dj20", 0).unwrap().operands,
        vec![OperandType::Rd, OperandType::Sj20]
    );
}

#[test]
fn rejects_unknown_widths() {
    assert!(InstructionFormat::parse("DJk7", 0).is_none());
    assert!(InstructionFormat::parse("DJk16j20", 0).is_none());
    assert!(InstructionFormat::parse("Dk", 0).is_none());
}

#[test]
fn generates_matchers_and_commands() {
    let f = InstructionFormat::parse("DJSk12", 0).unwrap();
    assert_eq!(f.generate_matchers(), vec!["Matcher::R", "Matcher::R", "Matcher::Imm"]);
    assert_eq!(f.generate_commands(), vec!["Command::R(0)", "Command::R(5)", "Command::SImm(12, 0)"]);
    let f = InstructionFormat::parse("Fj20", 0).unwrap();
    assert_eq!(f.generate_matchers(), vec!["Matcher::F", "Matcher::Offset"]);
    assert_eq!(f.generate_commands(), vec!["Command::F(0)", "Command::Offset(Relocation::J)"]);
    let f = InstructionFormat::parse("k26", 0).unwrap();
    assert_eq!(f.generate_commands(), vec!["Command::Offset(Relocation::B)"]);
    let f = InstructionFormat::parse("VVk5", 0).unwrap();
    assert_eq!(f.generate_matchers(), vec!["Matcher::V", "Matcher::V", "Matcher::Imm"]);
    assert_eq!(f.generate_commands(), vec!["Command::V(0)", "Command::V(5)", "Command::UImm(5, 0)"]);
}

#[test]
fn one_line_of_each_per_operand() {
    let f = InstructionFormat::parse("DJKk5j20", 0);
    assert!(f.is_none());
    let f = InstructionFormat::parse("DJKSk12", 0).unwrap();
    assert_eq!(f.generate_matchers().len(), f.operands.len());
    assert_eq!(f.generate_commands().len(), f.operands.len());
}

#[test]
fn one_operand_per_letter_immediate_and_jump() {
    // three register letters and a jump field: four operands
    let f = InstructionFormat::parse("DJFj20", 0).unwrap();
    assert_eq!(f.operands, vec![OperandType::Rd, OperandType::Rj, OperandType::Fj, OperandType::Sj20]);
    // digits after `k` other than a known width: no parse
    assert!(InstructionFormat::parse("DJSk12j20", 0).is_none());
    assert_eq!(InstructionFormat::parse("FVk5", 0).unwrap().operands.len(), 3);
}
