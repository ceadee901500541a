use dynasm_loongarch::ast::{RegFamily, RegId};
use dynasm_loongarch::data::{
    Command, ExtensionFlags, ISAFlags, Matcher, Opdata, Relocation, Template, EX_BASE, EX_F,
    ISA_LA32, ISA_LA64,
};
use dynasm_loongarch::debug::{
    create_opmap, extract_opdata, extract_opmap, format_features, format_opdata,
    format_opdata_list, sum_adjacent_diffs,
};
use dynasm_loongarch::opmap::{get_mnemonic_data, mnemonics, OpTable};
use dynasm_loongarch::registers::{FCCR, FCSR, FR, R, RV, XR};
use dynasm_loongarch::target::{ArchLoongArch32, ArchLoongArch64, LoongArchTarget};

fn add_w() -> Opdata {
    Opdata {
        template: Template::Single(0x0010_0000),
        isa_flags: ISAFlags::make(ISA_LA32 | ISA_LA64),
        ext_flags: vec![ExtensionFlags::make(EX_BASE)],
        matchers: vec![Matcher::R, Matcher::R, Matcher::R],
        commands: vec![Command::R(0), Command::R(5), Command::R(10)],
    }
}

fn beq() -> Opdata {
    Opdata {
        template: Template::Single(0x5800_0000),
        isa_flags: ISAFlags::make(ISA_LA64),
        ext_flags: vec![ExtensionFlags::make(EX_BASE), ExtensionFlags::make(EX_BASE | EX_F)],
        matchers: vec![Matcher::R, Matcher::R, Matcher::Offset],
        commands: vec![Command::R(5), Command::R(0), Command::Offset(Relocation::B16)],
    }
}

fn ld_w() -> Opdata {
    Opdata {
        template: Template::Single(0x2880_0000),
        isa_flags: ISAFlags::make(ISA_LA32 | ISA_LA64),
        ext_flags: vec![ExtensionFlags::make(EX_BASE)],
        matchers: vec![Matcher::R, Matcher::RefOffset],
        commands: vec![Command::Rno0(0), Command::R(5), Command::SImm(10, 12)],
    }
}

fn movcf() -> Opdata {
    Opdata {
        template: Template::Double(0x0114_d400, 0),
        isa_flags: ISAFlags::make(ISA_LA32),
        ext_flags: vec![],
        matchers: vec![Matcher::Reg(RegId::FCC2), Matcher::Imm, Matcher::Ident],
        commands: vec![Command::UImm(10, 5), Command::Next, Command::Repeat, Command::R(0)],
    }
}

#[test]
fn formats_a_plain_form() {
    assert_eq!(format_opdata("add.w", &add_w()), ">>> add.w rd, rd, rd");
    assert_eq!(format_features(&add_w()), "(LA32/64_BASE)");
}

#[test]
fn formats_constraints_and_features() {
    assert_eq!(
        format_opdata("beq", &beq()),
        ">>> beq rd, rd, target (16-bit offset, 2-byte aligned)"
    );
    assert_eq!(format_features(&beq()), "(LA64_BASE or LA64_BASE_F)");
    assert_eq!(format_opdata("ld.w", &ld_w()), ">>> ld.w rd, [base, offset] (rd cannot be r0)");
    assert_eq!(format_opdata("movcf", &movcf()), ">>> movcf fcc2, imm, ident");
    assert_eq!(format_features(&movcf()), "()");
}

#[test]
fn formats_a_list_of_forms() {
    let forms = vec![add_w(), beq()];
    assert_eq!(
        format_opdata_list("x", &forms, LoongArchTarget::LA64),
        ">>> x rd, rd, rd (LA32/64_BASE)\n>>> x rd, rd, target (16-bit offset, 2-byte aligned) (LA64_BASE or LA64_BASE_F)"
    );
    assert_eq!(format_opdata_list("x", &[], LoongArchTarget::LA32), "");
}

#[test]
fn formats_a_form_without_arguments() {
    let nop = Opdata {
        template: Template::Many(vec![0x0340_0000, 0x0340_0000]),
        isa_flags: ISAFlags::make(0),
        ext_flags: vec![ExtensionFlags::default()],
        matchers: vec![],
        commands: vec![],
    };
    assert_eq!(format_opdata("nop2", &nop), ">>> nop2");
    assert_eq!(format_features(&nop), "(LA32/64_BASE)");
}

#[test]
fn extracts_forms() {
    assert_eq!(
        extract_opdata("beq", &beq()),
        "\"beq <R,0>, <R,1>, <Off,2>\"\t{0: R(0xFFFFFFFF), 1: R(0xFFFFFFFF), 2: Range(-32768, 32768, 4)}\t[\"la64\"]\t[\"base\", \"base_f\"]"
    );
    assert_eq!(
        extract_opdata("ld.w", &ld_w()),
        "\"ld.w <R,0>, [<R,1>, <Imm,2>]\"\t{0: R(0xFFFFFFFE), 1: R(0xFFFFFFFF), 2: Range(-2048, 2047, 1)}\t[\"la32\", \"la64\"]\t[\"base\"]"
    );
    assert_eq!(
        extract_opdata("movcf", &movcf()),
        "\"movcf fcc2, <Imm,0>, <Ident,1>\"\t{0: Range(0, 32, 1), 1: R(0xFFFFFFFF)}\t[\"la32\"]\t[]"
    );
}

#[test]
fn extracts_relocation_ranges() {
    let mut jump = beq();
    jump.commands = vec![
        Command::Offset(Relocation::B26),
        Command::Offset(Relocation::PCALA_HI20),
        Command::Offset(Relocation::LITERAL8),
        Command::Offset(Relocation::LITERAL64),
    ];
    jump.matchers = vec![];
    assert_eq!(
        extract_opdata("j", &jump),
        "\"j\"\t{0: Range(-33554432, 33554432, 4), 1: Range(-2147483648, 2147483648, 4096), 2: Range(--2147483648, -2147483648, 1), 3: Range(-9223372036854775808, 9223372036854775808, 1)}\t[\"la64\"]\t[\"base\", \"base_f\"]"
    );
}

#[test]
fn sums_adjacent_differences() {
    let a: &[u8] = &[1, 5, 10, 2];
    assert_eq!(sum_adjacent_diffs(&a), 12);
    let e: &[u8] = &[];
    assert_eq!(sum_adjacent_diffs(&e), 0);
    let same: &[u8] = &[7, 7, 0, 255];
    assert_eq!(sum_adjacent_diffs(&same), 255);
}

fn table() -> OpTable {
    OpTable::new(vec![
        (String::from("beq"), vec![beq()]),
        (String::from("add.w"), vec![add_w()]),
        (String::from("ld.w"), vec![ld_w(), ld_w()]),
    ])
}

#[test]
fn table_orders_mnemonics() {
    let t = table();
    assert_eq!(mnemonics(&t), vec!["add.w".to_string(), "beq".to_string(), "ld.w".to_string()]);
    assert_eq!(get_mnemonic_data(&t, "ld.w").map(|d| d.len()), Some(2));
    assert_eq!(get_mnemonic_data(&t, "beq").map(|d| d.len()), Some(1));
    assert!(get_mnemonic_data(&t, "bne").is_none());
}

#[test]
fn later_entries_replace_earlier_ones() {
    let t = OpTable::new(vec![
        (String::from("beq"), vec![beq()]),
        (String::from("beq"), vec![beq(), beq(), beq()]),
    ]);
    assert_eq!(mnemonics(&t), vec!["beq".to_string()]);
    assert_eq!(get_mnemonic_data(&t, "beq").map(|d| d.len()), Some(3));
}

#[test]
fn creates_the_reference() {
    let t = OpTable::new(vec![
        (String::from("beq"), vec![beq()]),
        (String::from("add.w"), vec![add_w()]),
    ]);
    assert_eq!(
        create_opmap(&t),
        "### add.w\n```insref\nadd.w rd, rd, rd (LA32/64_BASE)\n```\n### beq\n```insref\nbeq rd, rd, target (16-bit offset, 2-byte aligned) (LA64_BASE or LA64_BASE_F)\n```\n"
    );
}

#[test]
fn extracts_the_table() {
    let t = OpTable::new(vec![
        (String::from("beq"), vec![beq()]),
        (String::from("add.w"), vec![add_w()]),
    ]);
    assert_eq!(
        extract_opmap(&t),
        format!(
            "{}\n{}",
            "\"add.w <R,0>, <R,1>, <R,2>\"\t{0: R(0xFFFFFFFF), 1: R(0xFFFFFFFF), 2: R(0xFFFFFFFF)}\t[\"la32\", \"la64\"]\t[\"base\"]",
            extract_opdata("beq", &beq())
        )
    );
    assert_eq!(extract_opmap(&OpTable::new(vec![])), "");
}

#[test]
fn extension_flags() {
    assert_eq!(ExtensionFlags::make(EX_BASE | EX_F).to_string(), "BASE_F");
    assert_eq!(ExtensionFlags::make(0xFFFF).bits, 0x1FF);
    assert_eq!(
        ExtensionFlags::make(0xFFFF).to_string(),
        "BASE_BIT_F_D_LSX_LASX_LVZ_LBT_PRIV"
    );
    assert_eq!(ExtensionFlags::make(0).to_string(), "");
    assert_eq!(ExtensionFlags::default().bits, EX_BASE);
    assert!(ExtensionFlags::make(0x7).contains(EX_F));
    assert!(!ExtensionFlags::make(0x3).contains(EX_F | EX_BASE));
    assert_eq!(ISAFlags::make(0xFF).bits, 3);
    assert!(ISAFlags::make(ISA_LA64).contains(ISA_LA64));
    assert!(!ISAFlags::make(ISA_LA64).contains(ISA_LA32));
}

#[test]
fn relocation_ids_and_sizes() {
    assert_eq!(Relocation::B16.to_id(), 0);
    assert_eq!(Relocation::B21.to_id(), 1);
    assert_eq!(Relocation::B26.to_id(), 2);
    assert_eq!(Relocation::PCALA_HI20.to_id(), 13);
    assert_eq!(Relocation::SPLIT_CALL36.to_id(), 19);
    assert_eq!(Relocation::LITERAL64.to_id(), 12);
    assert_eq!(Relocation::SPLIT_PCALA.size(), 8);
    assert_eq!(Relocation::LITERAL8.size(), 1);
    assert_eq!(Relocation::LITERAL16.size(), 2);
    assert_eq!(Relocation::PCALA_HI20.size(), 4);
    assert_eq!(Relocation::LITERAL64.size(), 8);
}

#[test]
fn register_names_and_codes() {
    assert_eq!(RegId::R4.to_string(), "r4");
    assert_eq!(RegId::F14.to_string(), "f14");
    assert_eq!(RegId::V0.to_string(), "v0");
    assert_eq!(RegId::X31.to_string(), "x31");
    assert_eq!(RegId::FCC7.to_string(), "fcc7");
    assert_eq!(RegId::FCSR3.to_string(), "fcsr3");
    assert_eq!(RegId::X31.code(), 31);
    assert_eq!(RegId::FCSR2.code(), 2);
    assert_eq!(RegId::R0.family(), RegFamily::INTEGER);
    assert_eq!(RegId::F3.family(), RegFamily::FP);
    assert_eq!(RegId::V9.family(), RegFamily::LSX);
    assert_eq!(RegId::X9.family(), RegFamily::LASX);
    assert_eq!(RegId::FCC1.family(), RegFamily::FCC);
    assert_eq!(RegId::FCSR1.family(), RegFamily::FCSR);
}

#[test]
fn register_banks() {
    assert_eq!(R::R31.code(), 31);
    assert_eq!(RV::V7.code(), 7);
    assert_eq!(FR::F20.code(), 20);
    assert_eq!(FCCR::FCC5.code(), 5);
    assert_eq!(FCSR::FCSR3.code(), 3);
    assert_eq!(XR::X0.code(), 0);
}

#[test]
fn targets() {
    assert!(LoongArchTarget::LA64.is_64_bit());
    assert!(!LoongArchTarget::LA64.is_32_bit());
    assert!(LoongArchTarget::LA32.is_32_bit());
    let mut a = ArchLoongArch64::new();
    a.set_features(&[String::from("lsx")]);
    assert_eq!(a.features.bits, EX_BASE);
    assert_eq!(a.default_align(), 0);
    assert_eq!(a.target(), LoongArchTarget::LA64);
    let b = ArchLoongArch32::new();
    assert_eq!(b.target(), LoongArchTarget::LA32);
    assert_eq!(b.default_align(), 0);
}

#[test]
fn pair_sums_ignore_order() {
    let a: &[u8] = &[9, 1, 0, 255, 7, 7];
    let swapped: &[u8] = &[1, 9, 255, 0, 7, 7];
    let moved: &[u8] = &[7, 7, 0, 255, 9, 1];
    assert_eq!(sum_adjacent_diffs(&a), 263);
    assert_eq!(sum_adjacent_diffs(&swapped), 263);
    assert_eq!(sum_adjacent_diffs(&moved), 263);
    let widest = [0u8, 255].repeat(257);
    let widest: &[u8] = &widest;
    assert_eq!(sum_adjacent_diffs(&widest), u16::MAX);
}
