//! The register names of the LoongArch assembly language: the canonical names (`r4`, `f14`,
//! `v0`, `x31`, `fcc2`, `fcsr3`), the ABI names of the general and floating point registers
//! (`zero`, `ra`, `sp`, `a0`, `ft3`, ...), and the families of the dynamic registers.

use vstd::prelude::*;
use crate::ast::{family_prefix, RegFamily, RegId, Register};
use crate::text::{decimal, digit_char, push_decimal, push_str};

verus! {

/// The digits of a number below 100.
proof fn lemma_decimal_small(n: nat)
    requires
        n < 100,
    ensures
        n < 10 ==> decimal(n) =~= seq![digit_char(n)],
        n >= 10 ==> decimal(n) =~= seq![digit_char(n / 10), digit_char(n % 10)],
{
    reveal_with_fuel(decimal, 2);
}

/// A digit character stands for its digit.
proof fn lemma_digit_char(d: nat)
    requires
        d < 10,
    ensures
        digit_char(d) as int == d + 48,
{
}

/// Numbers below 100 with the same digits are equal.
proof fn lemma_decimal_injective(a: nat, b: nat)
    requires
        a < 100,
        b < 100,
        decimal(a) == decimal(b),
    ensures
        a == b,
{
    lemma_decimal_small(a);
    lemma_decimal_small(b);
    if a < 10 && b >= 10 {
        assert(decimal(a).len() != decimal(b).len());
    } else if a >= 10 && b < 10 {
        assert(decimal(a).len() != decimal(b).len());
    } else if a >= 10 {
        lemma_digit_char(a / 10);
        lemma_digit_char(b / 10);
        lemma_digit_char(a % 10);
        lemma_digit_char(b % 10);
        assert(decimal(a)[0] == decimal(b)[0]);
        assert(decimal(a)[1] == decimal(b)[1]);
        vstd::arithmetic::div_mod::lemma_fundamental_div_mod(a as int, 10);
        vstd::arithmetic::div_mod::lemma_fundamental_div_mod(b as int, 10);
        assert(digit_char(a / 10) == digit_char(b / 10));
        assert(a / 10 == b / 10);
        assert(a % 10 == b % 10);
        assert(a == b);
    } else {
        lemma_digit_char(a);
        lemma_digit_char(b);
        assert(decimal(a) =~= seq![digit_char(a)]);
        assert(decimal(b) =~= seq![digit_char(b)]);
        assert(seq![digit_char(a)][0] == digit_char(a));
        assert(seq![digit_char(b)][0] == digit_char(b));
        assert(digit_char(a) == digit_char(b));
    }
}

/// No two registers have the same canonical name.
pub proof fn lemma_register_names_distinct(a: RegId, b: RegId)
    requires
        a.spec_name() == b.spec_name(),
    ensures
        a == b,
{
    reveal_strlit("r");
    reveal_strlit("f");
    reveal_strlit("v");
    reveal_strlit("x");
    reveal_strlit("fcc");
    reveal_strlit("fcsr");
    let ca = a.spec_code() as nat;
    let cb = b.spec_code() as nat;
    let pa = family_prefix(a.spec_family());
    let pb = family_prefix(b.spec_family());
    let da = decimal(ca);
    let db = decimal(cb);
    lemma_decimal_small(ca);
    lemma_decimal_small(cb);
    let na = pa + da;
    let nb = pb + db;
    assert(na == a.spec_name());
    assert(nb == b.spec_name());
    assert(na[0] == nb[0]);
    assert(na.len() == nb.len());
    if na.len() > 1 {
        assert(na[1] == nb[1]);
    }
    if na.len() > 2 {
        assert(na[2] == nb[2]);
    }
    assert(pa == pb);
    assert(a.spec_family() == b.spec_family());
    assert(da =~= na.subrange(pa.len() as int, na.len() as int));
    assert(db =~= nb.subrange(pb.len() as int, nb.len() as int));
    lemma_decimal_injective(ca, cb);
    crate::ast::lemma_family_and_code_determine_register(a, b);
}

/// The ABI names that stand alone: `zero`, `ra`, `tp`, `sp`, `u0` and `fp`, with the
/// identifiers of their registers.
pub open spec fn word_alias(name: Seq<char>) -> Option<u8> {
    if name == "zero"@ {
        Some(0x00)
    } else if name == "ra"@ {
        Some(0x01)
    } else if name == "tp"@ {
        Some(0x02)
    } else if name == "sp"@ {
        Some(0x03)
    } else if name == "u0"@ {
        Some(0x15)
    } else if name == "fp"@ {
        Some(0x16)
    } else {
        None
    }
}

/// A numbered ABI name: `prefix` and a number below `count` name the register whose
/// identifier is `first` plus the number.
pub open spec fn numbered_alias(name: Seq<char>, prefix: Seq<char>, count: nat, first: nat) -> Option<u8> {
    if exists|n: nat| n < count && name == prefix + decimal(n) {
        Some((first + choose|n: nat| n < count && name == prefix + decimal(n)) as u8)
    } else {
        None
    }
}

/// The numbered ABI names: arguments `a0`-`a7` (r4-r11), temporaries `t0`-`t8` (r12-r20),
/// saved registers `s0`-`s8` (r23-r31); floating point arguments `fa0`-`fa7` (f0-f7),
/// temporaries `ft0`-`ft15` (f8-f23) and saved registers `fs0`-`fs7` (f24-f31).
pub open spec fn alias_groups() -> Seq<(Seq<char>, nat, nat)> {
    seq![
        ("a"@, 8nat, 0x04nat),
        ("t"@, 9nat, 0x0cnat),
        ("s"@, 9nat, 0x17nat),
        ("fa"@, 8nat, 0x20nat),
        ("ft"@, 16nat, 0x28nat),
        ("fs"@, 8nat, 0x38nat),
    ]
}

/// The identifier that an ABI name stands for: a standalone name, else the first group whose
/// numbered names include it.
pub open spec fn alias_in_groups(name: Seq<char>, groups: Seq<(Seq<char>, nat, nat)>) -> Option<u8>
    decreases groups.len(),
{
    if groups.len() == 0 {
        None
    } else {
        match numbered_alias(name, groups[0].0, groups[0].1, groups[0].2) {
            Some(id) => Some(id),
            None => alias_in_groups(name, groups.drop_first()),
        }
    }
}

/// The identifier of the register that an ABI name stands for.
pub open spec fn alias_id(name: Seq<char>) -> Option<u8> {
    match word_alias(name) {
        Some(id) => Some(id),
        None => alias_in_groups(name, alias_groups()),
    }
}

/// The register a static register name stands for: the register of that canonical name,
/// else the register of that ABI name.
pub open spec fn register_named(name: Seq<char>) -> Option<RegId> {
    if exists|r: RegId| #[trigger] r.spec_name() == name {
        Some(choose|r: RegId| r.spec_name() == name)
    } else {
        match alias_id(name) {
            Some(id) => RegId::from_id(id),
            None => None,
        }
    }
}

/// The identifier of a numbered ABI name of one group.
fn find_numbered(key: &String, prefix: &str, count: u8, first: u8) -> (r: Option<u8>)
    requires
        count <= 16,
        first as int + count <= 0x40,
    ensures
        r == numbered_alias(key@, prefix@, count as nat, first as nat),
{
    let mut n: u8 = 0;
    while n < count
        invariant
            n <= count,
            count <= 16,
            first as int + count <= 0x40,
            forall|m: nat| m < n ==> key@ != prefix@ + #[trigger] decimal(m),
        decreases count - n,
    {
        let mut candidate = String::new();
        push_str(&mut candidate, prefix);
        push_decimal(&mut candidate, n as u128);
        if candidate == *key {
            proof {
                assert forall|m: nat| m < count && key@ == prefix@ + decimal(m) implies m == n by {
                    let k = prefix@.len() as int;
                    assert(decimal(m) =~= key@.subrange(k, key@.len() as int));
                    assert(decimal(n as nat) =~= key@.subrange(k, key@.len() as int));
                    lemma_decimal_injective(m, n as nat);
                }
                let c = choose|m: nat| m < count && key@ == prefix@ + decimal(m);
                assert(c == n);
            }
            return Some(first + n);
        }
        n = n + 1;
    }
    None
}

/// The identifier of the register that an ABI name stands for.
fn find_alias(key: &String) -> (r: Option<u8>)
    ensures
        r == alias_id(key@),
{
    if *key == String::from_str("zero") {
        return Some(0x00);
    }
    if *key == String::from_str("ra") {
        return Some(0x01);
    }
    if *key == String::from_str("tp") {
        return Some(0x02);
    }
    if *key == String::from_str("sp") {
        return Some(0x03);
    }
    if *key == String::from_str("u0") {
        return Some(0x15);
    }
    if *key == String::from_str("fp") {
        return Some(0x16);
    }
    let ghost groups = alias_groups();
    assert(groups.drop_first() =~= seq![
        ("t"@, 9nat, 0x0cnat),
        ("s"@, 9nat, 0x17nat),
        ("fa"@, 8nat, 0x20nat),
        ("ft"@, 16nat, 0x28nat),
        ("fs"@, 8nat, 0x38nat),
    ]);
    reveal_with_fuel(alias_in_groups, 7);
    if let Some(id) = find_numbered(key, "a", 8, 0x04) {
        return Some(id);
    }
    if let Some(id) = find_numbered(key, "t", 9, 0x0c) {
        return Some(id);
    }
    if let Some(id) = find_numbered(key, "s", 9, 0x17) {
        return Some(id);
    }
    if let Some(id) = find_numbered(key, "fa", 8, 0x20) {
        return Some(id);
    }
    if let Some(id) = find_numbered(key, "ft", 16, 0x28) {
        return Some(id);
    }
    find_numbered(key, "fs", 8, 0x38)
}

/// The register that a static register name stands for: by its canonical name (`r4`,
/// `f14`, `v0`, `x31`, `fcc2`, `fcsr3`) or by its ABI name (`zero`, `ra`, `tp`, `sp`,
/// `a0`-`a7`, `t0`-`t8`, `u0`, `fp`, `s0`-`s8`, `fa0`-`fa7`, `ft0`-`ft15`, `fs0`-`fs7`).
pub fn register_by_name(name: &str) -> (r: Option<RegId>)
    ensures
        r == register_named(name@),
{
    let key = String::from_str(name);
    let mut id: u16 = 0;
    while id < 0xC0
        invariant
            id <= 0xC0,
            key@ == name@,
            forall|r: RegId| #[trigger] r.spec_id() < id ==> r.spec_name() != name@,
        decreases 0xC0 - id,
    {
        let candidate = RegId::from_id_exec(id as u8);
        proof {
            assert forall|r: RegId| #[trigger] r.spec_id() == id implies RegId::from_id(id as u8) == Some(r) by {
                crate::ast::lemma_id_names_register(r);
            }
        }
        match candidate {
            Some(r) => {
                if r.to_string() == key {
                    proof {
                        let c = choose|q: RegId| q.spec_name() == name@;
                        lemma_register_names_distinct(c, r);
                    }
                    return Some(r);
                }
            },
            None => {},
        }
        id = id + 1;
    }
    assert forall|r: RegId| #[trigger] r.spec_name() != name@ by {
        crate::ast::lemma_id_names_register(r);
        assert(r.spec_id() < 0xC0);
    }
    match find_alias(&key) {
        Some(id) => RegId::from_id_exec(id),
        None => None,
    }
}

/// The register family that a dynamic register name stands for: `R` general, `F` floating
/// point, `C` condition flag, `V` LSX vector and `X` LASX vector registers.
pub open spec fn family_named(name: Seq<char>) -> Option<RegFamily> {
    if name == "R"@ {
        Some(RegFamily::INTEGER)
    } else if name == "F"@ {
        Some(RegFamily::FP)
    } else if name == "C"@ {
        Some(RegFamily::FCC)
    } else if name == "V"@ {
        Some(RegFamily::LSX)
    } else if name == "X"@ {
        Some(RegFamily::LASX)
    } else {
        None
    }
}

/// The register family that a dynamic register name stands for.
pub fn family_by_name(name: &str) -> (r: Option<RegFamily>)
    ensures
        r == family_named(name@),
{
    let key = String::from_str(name);
    if key == String::from_str("R") {
        Some(RegFamily::INTEGER)
    } else if key == String::from_str("F") {
        Some(RegFamily::FP)
    } else if key == String::from_str("C") {
        Some(RegFamily::FCC)
    } else if key == String::from_str("V") {
        Some(RegFamily::LSX)
    } else if key == String::from_str("X") {
        Some(RegFamily::LASX)
    } else {
        None
    }
}

/// The name an alias stands for: the replacement of the first alias of that name, else
/// the name itself.
pub open spec fn resolved(name: Seq<char>, aliases: Seq<(String, String)>) -> Seq<char>
    decreases aliases.len(),
{
    if aliases.len() == 0 {
        name
    } else if aliases[0].0@ == name {
        aliases[0].1@
    } else {
        resolved(name, aliases.drop_first())
    }
}

/// What a register name in an instruction stands for: a dynamic register family name
/// stands for a register of that family chosen at run time (its number follows in
/// parentheses); any other name is first replaced by its alias, if it has one, and then
/// stands for the register of that name, if there is one.
pub open spec fn reg_named(name: Seq<char>, aliases: Seq<(String, String)>) -> Option<Register> {
    match family_named(name) {
        Some(f) => Some(Register::Dynamic(f)),
        None => match register_named(resolved(name, aliases)) {
            Some(id) => Some(Register::Static(id)),
            None => None,
        },
    }
}

/// Reads a register name: a dynamic family name, or (after alias replacement) a static
/// register name; nothing when the name is neither.
pub fn parse_reg(name: &str, aliases: &[(String, String)]) -> (r: Option<Register>)
    ensures
        r == reg_named(name@, aliases@),
{
    if let Some(f) = family_by_name(name) {
        return Some(Register::Dynamic(f));
    }
    let key = String::from_str(name);
    let mut i: usize = 0;
    assert(aliases@.skip(0) =~= aliases@);
    while i < aliases.len()
        invariant
            i <= aliases.len(),
            key@ == name@,
            family_named(name@) is None,
            resolved(name@, aliases@) == resolved(name@, aliases@.skip(i as int)),
        decreases aliases.len() - i,
    {
        assert(aliases@.skip(i as int).drop_first() =~= aliases@.skip(i + 1));
        if aliases[i].0 == key {
            assert(aliases@.skip(i as int)[0] == aliases@[i as int]);
            assert(resolved(name@, aliases@) == aliases@[i as int].1@);
            return match register_by_name(aliases[i].1.as_str()) {
                Some(id) => Some(Register::Static(id)),
                None => None,
            };
        }
        i = i + 1;
    }
    assert(aliases@.skip(aliases.len() as int) =~= Seq::<(String, String)>::empty());
    match register_by_name(name) {
        Some(id) => Some(Register::Static(id)),
        None => None,
    }
}

/// Every register's canonical name, as the assembler prints it, is read back as that
/// register.
pub proof fn lemma_register_names_read_back(r: RegId)
    ensures
        register_named(r.spec_name()) == Some(r),
{
    let c = choose|q: RegId| q.spec_name() == r.spec_name();
    lemma_register_names_distinct(c, r);
}

} // verus!
