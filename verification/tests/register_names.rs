use dynasm_loongarch::ast::{RegFamily, RegId, Register};
use dynasm_loongarch::parser::{family_by_name, parse_reg, register_by_name};

#[test]
fn canonical_names() {
    assert_eq!(register_by_name("r4"), Some(RegId::R4));
    assert_eq!(register_by_name("r31"), Some(RegId::R31));
    assert_eq!(register_by_name("f14"), Some(RegId::F14));
    assert_eq!(register_by_name("v0"), Some(RegId::V0));
    assert_eq!(register_by_name("x31"), Some(RegId::X31));
    assert_eq!(register_by_name("fcc7"), Some(RegId::FCC7));
    assert_eq!(register_by_name("fcsr3"), Some(RegId::FCSR3));
    assert_eq!(register_by_name("fcsr4"), None);
    assert_eq!(register_by_name("fcc8"), None);
    assert_eq!(register_by_name("r32"), None);
    assert_eq!(register_by_name("r04"), None);
    assert_eq!(register_by_name("R4"), None);
    assert_eq!(register_by_name(""), None);
}

#[test]
fn abi_names() {
    assert_eq!(register_by_name("zero"), Some(RegId::R0));
    assert_eq!(register_by_name("ra"), Some(RegId::R1));
    assert_eq!(register_by_name("tp"), Some(RegId::R2));
    assert_eq!(register_by_name("sp"), Some(RegId::R3));
    assert_eq!(register_by_name("a0"), Some(RegId::R4));
    assert_eq!(register_by_name("a7"), Some(RegId::R11));
    assert_eq!(register_by_name("a8"), None);
    assert_eq!(register_by_name("t0"), Some(RegId::R12));
    assert_eq!(register_by_name("t8"), Some(RegId::R20));
    assert_eq!(register_by_name("t9"), None);
    assert_eq!(register_by_name("u0"), Some(RegId::R21));
    assert_eq!(register_by_name("fp"), Some(RegId::R22));
    assert_eq!(register_by_name("s0"), Some(RegId::R23));
    assert_eq!(register_by_name("s8"), Some(RegId::R31));
    assert_eq!(register_by_name("fa0"), Some(RegId::F0));
    assert_eq!(register_by_name("fa7"), Some(RegId::F7));
    assert_eq!(register_by_name("ft0"), Some(RegId::F8));
    assert_eq!(register_by_name("ft15"), Some(RegId::F23));
    assert_eq!(register_by_name("fs0"), Some(RegId::F24));
    assert_eq!(register_by_name("fs7"), Some(RegId::F31));
    assert_eq!(register_by_name("fs8"), None);
}

#[test]
fn printed_names_read_back() {
    let families = [("r", 32), ("f", 32), ("v", 32), ("x", 32), ("fcc", 8), ("fcsr", 4)];
    for (prefix, count) in families {
        for n in 0..count {
            let name = format!("{}{}", prefix, n);
            let r = register_by_name(&name).unwrap();
            assert_eq!(r.to_string(), name);
            assert_eq!(r.code(), n as u8);
        }
    }
}

#[test]
fn family_names() {
    assert_eq!(family_by_name("R"), Some(RegFamily::INTEGER));
    assert_eq!(family_by_name("F"), Some(RegFamily::FP));
    assert_eq!(family_by_name("C"), Some(RegFamily::FCC));
    assert_eq!(family_by_name("V"), Some(RegFamily::LSX));
    assert_eq!(family_by_name("X"), Some(RegFamily::LASX));
    assert_eq!(family_by_name("r"), None);
}

#[test]
fn register_operands_with_aliases() {
    let aliases = vec![
        (String::from("base"), String::from("r12")),
        (String::from("R"), String::from("r1")),
        (String::from("bad"), String::from("q7")),
        (String::from("tmp"), String::from("t2")),
    ];
    assert_eq!(parse_reg("base", &aliases), Some(Register::Static(RegId::R12)));
    assert_eq!(parse_reg("tmp", &aliases), Some(Register::Static(RegId::R14)));
    assert_eq!(parse_reg("R", &aliases), Some(Register::Dynamic(RegFamily::INTEGER)));
    assert_eq!(parse_reg("bad", &aliases), None);
    assert_eq!(parse_reg("a1", &aliases), Some(Register::Static(RegId::R5)));
    assert_eq!(parse_reg("nothing", &aliases), None);
    assert_eq!(parse_reg("X", &[]), Some(Register::Dynamic(RegFamily::LASX)));
}
