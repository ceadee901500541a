//! The table of instruction forms by mnemonic, kept sorted by mnemonic.

use vstd::prelude::*;
use crate::data::Opdata;
use crate::text::chars_of;

verus! {

/// Whether `a` comes before `b` in the order of their characters' code points (a prefix
/// comes first).
pub open spec fn name_less(a: Seq<char>, b: Seq<char>) -> bool
    decreases a.len(),
{
    if a.len() == 0 {
        b.len() > 0
    } else if b.len() == 0 {
        false
    } else if a[0] != b[0] {
        a[0] < b[0]
    } else {
        name_less(a.drop_first(), b.drop_first())
    }
}

/// No name comes before itself.
pub proof fn lemma_name_less_irreflexive(a: Seq<char>)
    ensures
        !name_less(a, a),
    decreases a.len(),
{
    if a.len() > 0 {
        lemma_name_less_irreflexive(a.drop_first());
    }
}

/// Of two different names, exactly one comes first.
pub proof fn lemma_name_less_total(a: Seq<char>, b: Seq<char>)
    ensures
        a != b ==> (name_less(a, b) || name_less(b, a)),
        !(name_less(a, b) && name_less(b, a)),
    decreases a.len(),
{
    if a.len() > 0 && b.len() > 0 {
        if a[0] == b[0] {
            lemma_name_less_total(a.drop_first(), b.drop_first());
            if a != b {
                assert(a.drop_first() != b.drop_first()) by {
                    if a.drop_first() == b.drop_first() {
                        assert forall|k: int| 0 <= k < a.len() implies a[k] == b[k] by {
                            if k > 0 {
                                assert(a[k] == a.drop_first()[k - 1]);
                                assert(b[k] == b.drop_first()[k - 1]);
                            }
                        }
                        assert(a =~= b);
                    }
                }
            }
        }
    } else if a.len() == 0 && b.len() == 0 {
        assert(a =~= b);
    }
}

/// The order of names is transitive.
pub proof fn lemma_name_less_transitive(a: Seq<char>, b: Seq<char>, c: Seq<char>)
    requires
        name_less(a, b),
        name_less(b, c),
    ensures
        name_less(a, c),
    decreases a.len(),
{
    if a.len() > 0 && b.len() > 0 && c.len() > 0 {
        if a[0] == b[0] && b[0] == c[0] {
            lemma_name_less_transitive(a.drop_first(), b.drop_first(), c.drop_first());
        }
    }
}

/// Comparing two names that agree on their first `i` characters comes down to comparing
/// what follows.
proof fn lemma_name_less_skip(a: Seq<char>, b: Seq<char>, i: int)
    requires
        0 <= i <= a.len(),
        i <= b.len(),
        a.take(i) == b.take(i),
    ensures
        name_less(a, b) == name_less(a.skip(i), b.skip(i)),
    decreases i,
{
    if i > 0 {
        assert(a[0] == a.take(i)[0]);
        assert(b[0] == b.take(i)[0]);
        assert(a.drop_first().take(i - 1) =~= a.take(i).drop_first());
        assert(b.drop_first().take(i - 1) =~= b.take(i).drop_first());
        lemma_name_less_skip(a.drop_first(), b.drop_first(), i - 1);
        assert(a.drop_first().skip(i - 1) =~= a.skip(i));
        assert(b.drop_first().skip(i - 1) =~= b.skip(i));
    } else {
        assert(a.skip(0) =~= a);
        assert(b.skip(0) =~= b);
    }
}

/// Whether `a` comes before `b`.
fn chars_less(a: &Vec<char>, b: &Vec<char>) -> (r: bool)
    ensures
        r == name_less(a@, b@),
{
    let mut i: usize = 0;
    while i < a.len() && i < b.len()
        invariant
            i <= a.len(),
            i <= b.len(),
            a@.take(i as int) == b@.take(i as int),
        decreases a.len() - i,
    {
        if a[i] != b[i] {
            proof {
                lemma_name_less_skip(a@, b@, i as int);
                assert(a@.skip(i as int)[0] == a@[i as int]);
                assert(b@.skip(i as int)[0] == b@[i as int]);
            }
            return a[i] < b[i];
        }
        assert(a@.take(i + 1) =~= a@.take(i as int).push(a@[i as int]));
        assert(b@.take(i + 1) =~= b@.take(i as int).push(b@[i as int]));
        i = i + 1;
    }
    proof {
        lemma_name_less_skip(a@, b@, i as int);
    }
    i == a.len() && i < b.len()
}

/// The instruction forms of each mnemonic, in the order of the mnemonics.
pub struct OpTable {
    /// Each mnemonic with its forms.
    pub entries: Vec<(String, Vec<Opdata>)>,
}

/// The mnemonics of a list of entries.
pub open spec fn entry_names(entries: Seq<(String, Vec<Opdata>)>) -> Seq<Seq<char>> {
    entries.map_values(|e: (String, Vec<Opdata>)| e.0@)
}

/// Every entry lists at least one form.
pub open spec fn all_have_forms(entries: Seq<(String, Vec<Opdata>)>) -> bool {
    forall|i: int| 0 <= i < entries.len() ==> (#[trigger] entries[i]).1@.len() >= 1
}

/// The map that a list of entries makes: each mnemonic maps to the forms of its last
/// entry (an entry counts unless a later one has the same mnemonic).
pub open spec fn collected(entries: Seq<(String, Vec<Opdata>)>) -> Map<Seq<char>, Seq<Opdata>>
    decreases entries.len(),
{
    if entries.len() == 0 {
        Map::empty()
    } else {
        let rest = collected(entries.drop_first());
        if rest.contains_key(entries[0].0@) {
            rest
        } else {
            rest.insert(entries[0].0@, entries[0].1@)
        }
    }
}

impl OpTable {
    /// The mnemonics, in the order of the table.
    pub open spec fn names(self) -> Seq<Seq<char>> {
        entry_names(self.entries@)
    }

    /// The table is sorted strictly by mnemonic, so no mnemonic occurs twice, and each
    /// mnemonic has at least one form.
    pub open spec fn wf(self) -> bool {
        &&& forall|i: int, j: int|
            0 <= i < j < self.names().len() ==> name_less(
                #[trigger] self.names()[i],
                #[trigger] self.names()[j],
            )
        &&& all_have_forms(self.entries@)
    }

    /// Whether a mnemonic is in the table.
    pub open spec fn has_name(self, name: Seq<char>) -> bool {
        exists|i: int| 0 <= i < self.names().len() && self.names()[i] == name
    }

    /// An index of the table where a mnemonic stands (if it is in the table).
    pub open spec fn index_of(self, name: Seq<char>) -> int {
        choose|i: int| 0 <= i < self.names().len() && self.names()[i] == name
    }

    /// The forms listed for a mnemonic, if it is in the table.
    pub open spec fn lookup(self, name: Seq<char>) -> Option<Seq<Opdata>> {
        if self.has_name(name) {
            Some(self.entries@[self.index_of(name)].1@)
        } else {
            None
        }
    }

    /// The map from mnemonics to forms that the table holds.
    pub open spec fn spec_map(self) -> Map<Seq<char>, Seq<Opdata>> {
        Map::new(|k: Seq<char>| self.lookup(k) is Some, |k: Seq<char>| self.lookup(k).unwrap())
    }

    /// A table made of `entries`; a later entry for a mnemonic replaces an earlier one.
    /// Each entry lists at least one form.
    pub fn new(entries: Vec<(String, Vec<Opdata>)>) -> (r: OpTable)
        requires
            all_have_forms(entries@),
        ensures
            r.wf(),
            r.spec_map() == collected(entries@),
    {
        let mut table = OpTable { entries: Vec::new() };
        assert(table.spec_map() =~= Map::<Seq<char>, Seq<Opdata>>::empty());
        let ghost all = entries@;
        let mut entries = entries;
        assert(all.skip(all.len() as int) =~= Seq::<(String, Vec<Opdata>)>::empty());
        while entries.len() > 0
            invariant
                table.wf(),
                all_have_forms(all),
                entries@.len() <= all.len(),
                entries@ == all.take(entries@.len() as int),
                table.spec_map() == collected(all.skip(entries@.len() as int)),
            decreases entries.len(),
        {
            let ghost n = entries@.len() as int;
            let (name, forms) = entries.pop().unwrap();
            proof {
                assert(all.take(n)[n - 1] == all[n - 1]);
                assert(all.skip(n - 1).drop_first() =~= all.skip(n));
                assert(all.skip(n - 1)[0] == all[n - 1]);
            }
            table.insert_if_absent(name, forms);
            assert(entries@ =~= all.take(entries@.len() as int));
        }
        assert(all.skip(0) =~= all);
        table
    }

    /// Puts the forms of `name` in the table, unless it has forms for `name` already.
    fn insert_if_absent(&mut self, name: String, forms: Vec<Opdata>)
        requires
            old(self).wf(),
            forms@.len() >= 1,
        ensures
            final(self).wf(),
            final(self).spec_map() == if old(self).spec_map().contains_key(name@) {
                old(self).spec_map()
            } else {
                old(self).spec_map().insert(name@, forms@)
            },
    {
        let key = chars_of(name.as_str());
        let mut p: usize = 0;
        while p < self.entries.len()
            invariant
                p <= self.entries.len(),
                key@ == name@,
                self.wf(),
                self == old(self),
                forall|i: int| 0 <= i < p ==> name_less(#[trigger] self.names()[i], name@),
            ensures
                p <= self.entries.len(),
                self == old(self),
                forall|i: int| 0 <= i < p ==> name_less(#[trigger] self.names()[i], name@),
                p < self.entries.len() ==> !name_less(self.names()[p as int], name@),
            decreases self.entries.len() - p,
        {
            let other = chars_of(self.entries[p].0.as_str());
            if !chars_less(&other, &key) {
                break;
            }
            p = p + 1;
        }
        let ghost old_names = self.names();
        proof {
            lemma_lookup_unique(*self);
        }
        if p < self.entries.len() && self.entries[p].0 == name {
            proof {
                assert(old_names[p as int] == name@);
                assert(self.spec_map().contains_key(name@));
                assert(self.spec_map() =~= old(self).spec_map());
            }
        } else {
            proof {
                if p < old_names.len() {
                    lemma_name_less_total(old_names[p as int], name@);
                }
                assert(!old(self).spec_map().contains_key(name@)) by {
                    if old(self).spec_map().contains_key(name@) {
                        let i = choose|i: int| 0 <= i < old_names.len() && old_names[i] == name@;
                        lemma_name_less_irreflexive(name@);
                        if i > p {
                            lemma_name_less_transitive(name@, old_names[p as int], old_names[i]);
                        }
                    }
                }
            }
            self.entries.insert(p, (name, forms));
            proof {
                assert(self.names() =~= old_names.insert(p as int, name@));
                assert forall|i: int, j: int| 0 <= i < j < self.names().len() implies name_less(
                    #[trigger] self.names()[i],
                    #[trigger] self.names()[j],
                ) by {
                    if j == p {
                    } else if i == p {
                        if j - 1 > p {
                            lemma_name_less_transitive(name@, old_names[p as int], old_names[j - 1]);
                        }
                    } else if i < p && j > p {
                        if j - 1 > p {
                            lemma_name_less_transitive(name@, old_names[p as int], old_names[j - 1]);
                        }
                        lemma_name_less_transitive(old_names[i], name@, old_names[j - 1]);
                    } else if i > p {
                        assert(self.names()[i] == old_names[i - 1]);
                        assert(self.names()[j] == old_names[j - 1]);
                    }
                }
                lemma_lookup_unique(*self);
                assert(self.spec_map() =~= old(self).spec_map().insert(name@, forms@)) by {
                    assert forall|k: Seq<char>| #[trigger] self.lookup(k) == old(self).spec_map().insert(
                        name@,
                        forms@,
                    ).get(k) by {
                        if k == name@ {
                            assert(self.names()[p as int] == k);
                        } else if exists|i: int| 0 <= i < old_names.len() && old_names[i] == k {
                            let i = choose|i: int| 0 <= i < old_names.len() && old_names[i] == k;
                            if i < p {
                                assert(self.names()[i] == k);
                            } else {
                                assert(self.names()[i + 1] == k);
                            }
                        } else {
                            if exists|i: int| 0 <= i < self.names().len() && self.names()[i] == k {
                                let i = choose|i: int| 0 <= i < self.names().len() && self.names()[i] == k;
                                if i < p {
                                    assert(old_names[i] == k);
                                } else if i > p {
                                    assert(old_names[i - 1] == k);
                                }
                            }
                        }
                    }
                }
            }
        }
    }
}

/// In a well-formed table, the forms looked up for the mnemonic at index `i` are the
/// forms at index `i`.
pub proof fn lemma_lookup_unique(t: OpTable)
    requires
        t.wf(),
    ensures
        forall|i: int|
            0 <= i < t.names().len() ==> t.lookup(#[trigger] t.names()[i]) == Some(
                t.entries@[i].1@,
            ),
{
    assert forall|i: int| 0 <= i < t.names().len() implies t.lookup(#[trigger] t.names()[i])
        == Some(t.entries@[i].1@) by {
        let k = t.names()[i];
        assert(t.has_name(k));
        let j = t.index_of(k);
        if j != i {
            lemma_name_less_irreflexive(k);
            if j < i {
                assert(name_less(t.names()[j], t.names()[i]));
            } else {
                assert(name_less(t.names()[i], t.names()[j]));
            }
        }
    }
}

/// A mnemonic is in the map of a list of entries exactly when an entry names it, and it
/// maps to the forms of the last such entry.
proof fn lemma_collected(e: Seq<(String, Vec<Opdata>)>, n: Seq<char>)
    ensures
        collected(e).contains_key(n) <==> exists|i: int| 0 <= i < e.len() && (#[trigger] e[i]).0@ == n,
        collected(e).contains_key(n) ==> exists|i: int|
            0 <= i < e.len() && (#[trigger] e[i]).0@ == n && collected(e)[n] == e[i].1@ && forall|j: int|
                i < j < e.len() ==> (#[trigger] e[j]).0@ != n,
    decreases e.len(),
{
    if e.len() > 0 {
        let rest = e.drop_first();
        lemma_collected(rest, n);
        if collected(rest).contains_key(n) {
            let i = choose|i: int|
                0 <= i < rest.len() && (#[trigger] rest[i]).0@ == n && collected(rest)[n] == rest[i].1@
                    && forall|j: int| i < j < rest.len() ==> (#[trigger] rest[j]).0@ != n;
            assert(e[i + 1] == rest[i]);
            assert forall|j: int| i + 1 < j < e.len() implies (#[trigger] e[j]).0@ != n by {
                assert(e[j] == rest[j - 1]);
            }
        } else if e[0].0@ == n {
            assert forall|j: int| 0 < j < e.len() implies (#[trigger] e[j]).0@ != n by {
                assert(e[j] == rest[j - 1]);
            }
        } else {
            assert forall|i: int| 0 <= i < e.len() implies (#[trigger] e[i]).0@ != n by {
                if i > 0 {
                    assert(e[i] == rest[i - 1]);
                }
            }
        }
    }
}

/// Looking up a mnemonic in a table made of a list of entries: it has forms exactly when an
/// entry names it, and they are the forms of the last entry that names it, at least one.
pub proof fn lemma_lookup_gives_last_entry(
    entries: Seq<(String, Vec<Opdata>)>,
    table: OpTable,
    name: Seq<char>,
)
    requires
        table.wf(),
        table.spec_map() == collected(entries),
    ensures
        (table.lookup(name) is Some) <==> (exists|i: int|
            0 <= i < entries.len() && (#[trigger] entries[i]).0@ == name),
        (table.lookup(name) is Some) <==> table.names().contains(name),
        table.lookup(name) matches Some(f) ==> f.len() >= 1 && exists|i: int|
            0 <= i < entries.len() && (#[trigger] entries[i]).0@ == name && entries[i].1@ == f
                && forall|j: int| i < j < entries.len() ==> (#[trigger] entries[j]).0@ != name,
{
    lemma_collected(entries, name);
    assert(table.spec_map().contains_key(name) == (table.lookup(name) is Some));
    if table.lookup(name) is Some {
        assert(table.spec_map()[name] == table.lookup(name).unwrap());
        let i = table.index_of(name);
        assert(table.entries@[i].1@.len() >= 1);
        assert(table.names()[i] == name);
    }
    if table.names().contains(name) {
        let i = choose|i: int| 0 <= i < table.names().len() && table.names()[i] == name;
        assert(table.has_name(name));
    }
}

/// The forms of a mnemonic, if the table has it.
pub fn get_mnemonic_data<'a>(table: &'a OpTable, name: &str) -> (r: Option<&'a [Opdata]>)
    requires
        table.wf(),
    ensures
        match table.lookup(name@) {
            Some(forms) => r matches Some(d) && d@ == forms,
            None => r is None,
        },
        r matches Some(d) ==> d@.len() >= 1,
{
    proof {
        lemma_lookup_unique(*table);
    }
    let key = String::from_str(name);
    let mut i: usize = 0;
    while i < table.entries.len()
        invariant
            i <= table.entries.len(),
            key@ == name@,
            table.wf(),
            forall|j: int| 0 <= j < i ==> table.names()[j] != name@,
        decreases table.entries.len() - i,
    {
        if table.entries[i].0 == key {
            assert(table.names()[i as int] == name@);
            proof {
                lemma_lookup_unique(*table);
            }
            let forms = table.entries[i].1.as_slice();
            assert(forms@ == table.entries@[i as int].1@);
            return Some(forms);
        }
        i = i + 1;
    }
    None
}

/// The mnemonics of the table, in its order.
pub fn mnemonics(table: &OpTable) -> (r: Vec<String>)
    ensures
        r@.map_values(|s: String| s@) == table.names(),
{
    let mut names: Vec<String> = Vec::new();
    let mut i: usize = 0;
    while i < table.entries.len()
        invariant
            i <= table.entries.len(),
            names@.map_values(|s: String| s@) == table.names().take(i as int),
        decreases table.entries.len() - i,
    {
        let ghost before = names@;
        let name = table.entries[i].0.clone();
        assert(name@ == table.names()[i as int]);
        names.push(name);
        assert(names@.map_values(|s: String| s@) =~= before.map_values(|s: String| s@).push(name@));
        assert(table.names().take(i + 1) =~= table.names().take(i as int).push(table.names()[i as int]));
        i = i + 1;
    }
    assert(table.names().take(table.entries.len() as int) =~= table.names());
    names
}

/// The mnemonics of a well-formed table are in ascending order, none occurs twice, and they
/// are exactly the mnemonics that have forms in the table.
pub proof fn lemma_mnemonics_sorted_and_complete(t: OpTable)
    requires
        t.wf(),
    ensures
        forall|i: int, j: int|
            0 <= i < j < t.names().len() ==> name_less(#[trigger] t.names()[i], #[trigger] t.names()[j])
                && t.names()[i] != t.names()[j],
        forall|k: Seq<char>| (#[trigger] t.lookup(k) is Some) == t.names().contains(k),
{
    assert forall|i: int, j: int| 0 <= i < j < t.names().len() implies name_less(
        #[trigger] t.names()[i],
        #[trigger] t.names()[j],
    ) && t.names()[i] != t.names()[j] by {
        lemma_name_less_irreflexive(t.names()[i]);
    }
    assert forall|k: Seq<char>| (#[trigger] t.lookup(k) is Some) == t.names().contains(k) by {
        if t.names().contains(k) {
            let i = choose|i: int| 0 <= i < t.names().len() && t.names()[i] == k;
            assert(t.has_name(k));
        }
    }
}

} // verus!
