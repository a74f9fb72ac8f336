//! The configuration document: defaults, aliases and lookup tables.
use vstd::prelude::*;
use crate::cfg::alias::{Alias, AliasView};
use crate::name_map::NameMap;
use crate::text::{ends_with, owned, split_on, starts_with, split_str, views};

verus! {

/// The `defaults` section.
#[derive(Clone, Copy, Debug, PartialEq, Eq, Structural)]
pub struct Defaults {
    pub version: i32,
}

/// The version a configuration declares when it names none.
pub fn default_version() -> (v: i32)
    ensures
        v == 1,
{
    1
}

/// The `defaults` section of a configuration that has none.
pub fn default_defaults() -> (d: Defaults)
    ensures
        d.version == 1,
{
    Defaults { version: default_version() }
}

impl Default for Defaults {
    fn default() -> (d: Self)
        ensures
            d.version == 0,
    {
        Defaults { version: 0 }
    }
}

/// A configuration document.
#[derive(Debug, PartialEq, Eq)]
pub struct Spec {
    pub defaults: Defaults,
    pub aliases: NameMap<Alias>,
    pub lookups: NameMap<NameMap<String>>,
}

impl Clone for Spec {
    fn clone(&self) -> (r: Self)
        ensures
            r.defaults == self.defaults,
            r.aliases.names() == self.aliases.names(),
            r.lookups.names() == self.lookups.names(),
    {
        Spec { defaults: self.defaults, aliases: self.aliases.clone(), lookups: self.lookups.clone() }
    }
}

impl Default for Spec {
    fn default() -> (s: Self)
        ensures
            s.defaults.version == 0,
            s.aliases@ == Map::<Seq<char>, AliasView>::empty(),
            s.lookups@ == Map::<Seq<char>, Map<Seq<char>, Seq<char>>>::empty(),
    {
        Spec { defaults: Defaults::default(), aliases: NameMap::new(), lookups: NameMap::new() }
    }
}

/// The names that one key of the `aliases` section defines: a key that
/// begins or ends with `|` names one alias as written; otherwise `|`
/// separates several names for the same alias.
pub open spec fn alias_names_of(key: Seq<char>) -> Seq<Seq<char>> {
    if starts_with(key, seq!['|']) || ends_with(key, seq!['|']) {
        seq![key]
    } else {
        split_on(key, '|')
    }
}

/// `a` renamed to `n`.
pub open spec fn renamed(a: AliasView, n: Seq<char>) -> AliasView {
    AliasView { name: n, ..a }
}

/// `m` with `a` stored under each of `names` in turn, named after the key.
pub open spec fn insert_named(
    m: Map<Seq<char>, AliasView>,
    names: Seq<Seq<char>>,
    a: AliasView,
) -> Map<Seq<char>, AliasView>
    decreases names.len(),
{
    if names.len() == 0 {
        m
    } else {
        insert_named(m.insert(names[0], renamed(a, names[0])), names.skip(1), a)
    }
}

/// Adds the alias that one key of the `aliases` section defines, under each
/// of the names that the key gives, with its `name` set to that name.
pub fn add_alias_entry(aliases: &mut NameMap<Alias>, key: &str, alias: &Alias)
    ensures
        final(aliases)@ == insert_named(old(aliases)@, alias_names_of(key@), alias@),
{
    let single = crate::text::starts_with_str(key, "|") || crate::text::ends_with_str(key, "|");
    proof {
        reveal_strlit("|");
        assert("|"@ =~= seq!['|']);
    }
    let names: Vec<String> = if single {
        let mut v: Vec<String> = Vec::new();
        v.push(owned(key));
        v
    } else {
        split_str(key, '|')
    };
    let ghost ns = views(names@);
    assert(ns == alias_names_of(key@)) by {
        if single {
            assert(ns =~= seq![key@]);
        }
    }
    let mut i: usize = 0;
    assert(ns.skip(0) =~= ns);
    let ghost m0 = aliases@;
    while i < names.len()
        invariant
            i <= names.len(),
            ns == views(names@),
            insert_named(aliases@, ns.skip(i as int), alias@) == insert_named(m0, ns, alias@),
        decreases names.len() - i,
    {
        let mut a = alias.clone();
        a.name = names[i].clone();
        assert(ns.skip(i as int)[0] == names@[i as int]@);
        assert(ns.skip(i as int).skip(1) =~= ns.skip(i + 1));
        assert(a@ == renamed(alias@, names@[i as int]@));
        aliases.insert(names[i].clone(), a);
        i = i + 1;
    }
}

/// The lookup table with each key split at `|` into several keys for the
/// same value, pairs taken in order (a later pair wins a shared key).
pub open spec fn expand_keys(ps: Seq<(Seq<char>, Seq<char>)>) -> Map<Seq<char>, Seq<char>>
    decreases ps.len(),
{
    if ps.len() == 0 {
        Map::empty()
    } else {
        insert_keys(expand_keys(ps.drop_last()), split_on(ps.last().0, '|'), ps.last().1)
    }
}

/// `m` with `v` stored under each of `keys` in turn.
pub open spec fn insert_keys(m: Map<Seq<char>, Seq<char>>, keys: Seq<Seq<char>>, v: Seq<char>) -> Map<
    Seq<char>,
    Seq<char>,
>
    decreases keys.len(),
{
    if keys.len() == 0 {
        m
    } else {
        insert_keys(m.insert(keys[0], v), keys.skip(1), v)
    }
}

/// One lookup table with `prod|apps: us-east-1` turned into one entry per key.
pub fn expand_lookup_table(table: &NameMap<String>) -> (r: NameMap<String>)
    ensures
        r@ == expand_keys(table.pairs()),
{
    let mut r: NameMap<String> = NameMap::new();
    let mut i: usize = 0;
    while i < table.len()
        invariant
            i <= table.pairs().len(),
            r@ == expand_keys(table.pairs().take(i as int)),
        decreases table.pairs().len() - i,
    {
        let pattern = table.name_at(i);
        let value = table.value_at(i);
        let keys = split_str(pattern.as_str(), '|');
        let ghost ks = views(keys@);
        let ghost m0 = r@;
        let mut k: usize = 0;
        assert(ks.skip(0) =~= ks);
        while k < keys.len()
            invariant
                k <= keys.len(),
                ks == views(keys@),
                insert_keys(r@, ks.skip(k as int), value@) == insert_keys(m0, ks, value@),
            decreases keys.len() - k,
        {
            assert(ks.skip(k as int)[0] == keys@[k as int]@);
            assert(ks.skip(k as int).skip(1) =~= ks.skip(k + 1));
            r.insert(keys[k].clone(), value.clone());
            k = k + 1;
        }
        assert(table.pairs().take(i + 1).drop_last() =~= table.pairs().take(i as int));
        i = i + 1;
    }
    assert(table.pairs().take(table.pairs().len() as int) =~= table.pairs());
    r
}

/// Every lookup table with its `|`-separated keys expanded.
pub fn expand_lookups(lookups: &NameMap<NameMap<String>>) -> (r: NameMap<NameMap<String>>)
    ensures
        r.names() == lookups.names(),
        r.pairs().len() == lookups.pairs().len(),
        forall|i: int|
            0 <= i < lookups.pairs().len() ==> #[trigger] r.pairs()[i].1 == expand_keys(
                lookups.value(i).pairs(),
            ),
{
    let mut r: NameMap<NameMap<String>> = NameMap::new();
    let mut i: usize = 0;
    while i < lookups.len()
        invariant
            i <= lookups.pairs().len(),
            r.names() == lookups.names().take(i as int),
            r.pairs().len() == i,
            forall|j: int| 0 <= j < i ==> #[trigger] r.pairs()[j].1 == expand_keys(lookups.value(j).pairs()),
        decreases lookups.pairs().len() - i,
    {
        let name = lookups.name_at(i);
        let table = lookups.value_at(i);
        let expanded = expand_lookup_table(table);
        let ghost before = r.pairs();
        assert(!r@.contains_key(name@)) by {
            NameMap::<NameMap<String>>::lemma_dom(&r);
            if r@.contains_key(name@) {
                let j = choose|j: int| 0 <= j < r.pairs().len() && (#[trigger] r.pairs()[j]).0 == name@;
                assert(r.names()[j] == lookups.names()[j]);
            }
        }
        r.insert(name.clone(), expanded);
        assert(r.pairs() == before.push((name@, expanded@)));
        assert(r.names() =~= lookups.names().take(i + 1));
        i = i + 1;
    }
    assert(lookups.names().take(lookups.pairs().len() as int) =~= lookups.names());
    r
}

} // verus!
