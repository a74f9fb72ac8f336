//! Validation of a configuration document.
use vstd::prelude::*;
use vstd::string::StringExecFns;
use crate::cfg::alias::{Alias, AliasView};
use crate::cfg::spec::Spec;
use crate::name_map::NameMap;
use crate::text::{decimal, decimal_text, chars_of, has_char, join, join_strings, occurs_at, occurs_at_vec, owned, string_of, views};

verus! {

// ---------------------------------------------------------------------------
// Messages
// ---------------------------------------------------------------------------

pub open spec fn msg_no_aliases(label: Seq<char>) -> Seq<char> {
    "No aliases defined in "@ + label
        + ". Add at least one alias to make the configuration useful."@
}

pub open spec fn msg_empty_alias_name() -> Seq<char> {
    "Empty alias name found. Alias names must be non-empty."@
}

pub open spec fn msg_alias_spaces(name: Seq<char>) -> Seq<char> {
    "Alias name '"@ + name + "' contains spaces. Use underscores or hyphens instead."@
}

pub open spec fn msg_alias_hyphen(name: Seq<char>) -> Seq<char> {
    "Alias name '"@ + name + "' starts with hyphen. This may conflict with command flags."@
}

pub open spec fn msg_alias_empty_value(name: Seq<char>) -> Seq<char> {
    "Alias '"@ + name + "' has empty value. Provide a command or value for the alias."@
}

pub open spec fn msg_empty_lookup_name() -> Seq<char> {
    "Empty lookup name found. Lookup names must be non-empty."@
}

pub open spec fn msg_lookup_empty(lname: Seq<char>) -> Seq<char> {
    "Lookup '"@ + lname + "' is empty. Add key-value pairs or remove it."@
}

pub open spec fn msg_lookup_empty_key(lname: Seq<char>) -> Seq<char> {
    "Empty key in lookup '"@ + lname + "'. Lookup keys must be non-empty."@
}

pub open spec fn msg_lookup_empty_value(key: Seq<char>, lname: Seq<char>) -> Seq<char> {
    "Empty value for key '"@ + key + "' in lookup '"@ + lname
        + "'. Lookup values must be non-empty."@
}

pub open spec fn msg_undefined_lookup(alias_name: Seq<char>, lookup: Seq<char>) -> Seq<char> {
    "Alias '"@ + alias_name + "' references undefined lookup '"@ + lookup
        + "'. Define the lookup or fix the reference."@
}

// ---------------------------------------------------------------------------
// What is wrong with a configuration
// ---------------------------------------------------------------------------

/// The problems with one alias definition.
pub open spec fn alias_entry_errors(name: Seq<char>, a: AliasView) -> Seq<Seq<char>> {
    if name.len() == 0 {
        seq![msg_empty_alias_name()]
    } else {
        (if name.contains(' ') {
            seq![msg_alias_spaces(name)]
        } else {
            Seq::empty()
        }) + (if name[0] == '-' {
            seq![msg_alias_hyphen(name)]
        } else {
            Seq::empty()
        }) + (if a.value.len() == 0 {
            seq![msg_alias_empty_value(name)]
        } else {
            Seq::empty()
        })
    }
}

/// The problems with the alias definitions, in order.
pub open spec fn alias_entries_errors(ps: Seq<(Seq<char>, AliasView)>) -> Seq<Seq<char>>
    decreases ps.len(),
{
    if ps.len() == 0 {
        Seq::empty()
    } else {
        alias_entries_errors(ps.drop_last()) + alias_entry_errors(ps.last().0, ps.last().1)
    }
}

/// The problems with the `aliases` section of the configuration at `label`.
pub open spec fn alias_errors(label: Seq<char>, ps: Seq<(Seq<char>, AliasView)>) -> Seq<Seq<char>> {
    (if ps.len() == 0 {
        seq![msg_no_aliases(label)]
    } else {
        Seq::empty()
    }) + alias_entries_errors(ps)
}

/// The problems with the keys and values of lookup table `lname`.
pub open spec fn lookup_key_errors(lname: Seq<char>, ps: Seq<(Seq<char>, Seq<char>)>) -> Seq<Seq<char>>
    decreases ps.len(),
{
    if ps.len() == 0 {
        Seq::empty()
    } else {
        let (k, v) = ps.last();
        lookup_key_errors(lname, ps.drop_last()) + (if k.len() == 0 {
            seq![msg_lookup_empty_key(lname)]
        } else {
            Seq::empty()
        }) + (if v.len() == 0 {
            seq![msg_lookup_empty_value(k, lname)]
        } else {
            Seq::empty()
        })
    }
}

/// The problems with lookup table `lname`.
pub open spec fn lookup_table_errors(lname: Seq<char>, ps: Seq<(Seq<char>, Seq<char>)>) -> Seq<
    Seq<char>,
> {
    if lname.len() == 0 {
        seq![msg_empty_lookup_name()]
    } else {
        (if ps.len() == 0 {
            seq![msg_lookup_empty(lname)]
        } else {
            Seq::empty()
        }) + lookup_key_errors(lname, ps)
    }
}

/// The problems with the first `n` lookup tables.
pub open spec fn lookup_errors(lk: NameMap<NameMap<String>>, n: int) -> Seq<Seq<char>>
    decreases n,
{
    if n <= 0 {
        Seq::empty()
    } else {
        lookup_errors(lk, n - 1) + lookup_table_errors(lk.pairs()[n - 1].0, lk.value(n - 1).pairs())
    }
}

/// The position of the first `c` in `s`.
pub open spec fn first_index_of(s: Seq<char>, c: char) -> Option<int>
    decreases s.len(),
{
    if s.len() == 0 {
        None
    } else if s[0] == c {
        Some(0)
    } else {
        match first_index_of(s.skip(1), c) {
            Some(i) => Some(i + 1),
            None => None,
        }
    }
}

/// The lookup reference that starts at `i`, if `lookup:name[` starts there
/// with a non-empty name.
pub open spec fn lookup_ref_at(v: Seq<char>, i: int) -> Seq<Seq<char>> {
    if occurs_at(v, "lookup:"@, i) {
        let rest = v.skip(i + 7);
        match first_index_of(rest, '[') {
            Some(b) => if b > 0 {
                seq![rest.take(b)]
            } else {
                Seq::empty()
            },
            None => Seq::empty(),
        }
    } else {
        Seq::empty()
    }
}

/// The table names of the `lookup:name[key]` references in `v` that start
/// before position `n`, in order.
pub open spec fn lookup_refs_upto(v: Seq<char>, n: int) -> Seq<Seq<char>>
    decreases n,
{
    if n <= 0 {
        Seq::empty()
    } else {
        lookup_refs_upto(v, n - 1) + lookup_ref_at(v, n - 1)
    }
}

/// The table names of the `lookup:name[key]` references in `v`, in order.
pub open spec fn lookup_refs(v: Seq<char>) -> Seq<Seq<char>> {
    lookup_refs_upto(v, v.len() as int)
}

/// The references among `refs` to tables that `tables` does not define.
pub open spec fn undefined_ref_errors(
    alias_name: Seq<char>,
    refs: Seq<Seq<char>>,
    tables: Map<Seq<char>, Map<Seq<char>, Seq<char>>>,
) -> Seq<Seq<char>>
    decreases refs.len(),
{
    if refs.len() == 0 {
        Seq::empty()
    } else {
        undefined_ref_errors(alias_name, refs.drop_last(), tables) + (if tables.contains_key(
            refs.last(),
        ) {
            Seq::empty()
        } else {
            seq![msg_undefined_lookup(alias_name, refs.last())]
        })
    }
}

/// The dangling lookup references of the alias definitions, in order.
pub open spec fn cross_ref_errors(
    ps: Seq<(Seq<char>, AliasView)>,
    tables: Map<Seq<char>, Map<Seq<char>, Seq<char>>>,
) -> Seq<Seq<char>>
    decreases ps.len(),
{
    if ps.len() == 0 {
        Seq::empty()
    } else {
        let (n, a) = ps.last();
        cross_ref_errors(ps.drop_last(), tables) + undefined_ref_errors(n, lookup_refs(a.value), tables)
    }
}

/// The error that a non-empty list of problems gives: a heading and one
/// problem per line.
pub open spec fn report(heading: Seq<char>, errors: Seq<Seq<char>>) -> Seq<char> {
    heading + join(errors, "\n"@)
}

/// The outcome of validating a configuration: the first section with
/// problems (aliases, then lookups, then cross references) is reported.
pub open spec fn validation_outcome(spec: Spec, label: Seq<char>) -> Option<Seq<char>> {
    let ae = alias_errors(label, spec.aliases.pairs());
    let le = lookup_errors(spec.lookups, spec.lookups.pairs().len() as int);
    let ce = cross_ref_errors(spec.aliases.pairs(), spec.lookups@);
    if ae.len() > 0 {
        Some(report("Alias validation failed:\n"@, ae))
    } else if le.len() > 0 {
        Some(report("Lookup validation failed:\n"@, le))
    } else if ce.len() > 0 {
        Some(report("Cross-reference validation failed:\n"@, ce))
    } else {
        None
    }
}

// ---------------------------------------------------------------------------
// When a configuration is sound
// ---------------------------------------------------------------------------

/// An alias definition with a name that is non-empty, has no space and
/// does not start with `-`, and a non-empty value.
pub open spec fn alias_entry_sound(name: Seq<char>, a: AliasView) -> bool {
    name.len() > 0 && !name.contains(' ') && name[0] != '-' && a.value.len() > 0
}

/// A lookup table with a non-empty name and at least one entry, whose keys
/// and values are all non-empty.
pub open spec fn table_sound(lname: Seq<char>, ps: Seq<(Seq<char>, Seq<char>)>) -> bool {
    &&& lname.len() > 0
    &&& ps.len() > 0
    &&& forall|k: int| 0 <= k < ps.len() ==> (#[trigger] ps[k]).0.len() > 0 && ps[k].1.len() > 0
}

/// Every `lookup:name[` reference in the alias values names a table.
pub open spec fn refs_defined(ps: Seq<(Seq<char>, AliasView)>, tables: Map<Seq<char>, Map<Seq<char>, Seq<char>>>) -> bool {
    forall|i: int, j: int|
        0 <= i < ps.len() && 0 <= j < lookup_refs(ps[i].1.value).len() ==> tables.contains_key(
            #[trigger] lookup_refs(#[trigger] ps[i].1.value)[j],
        )
}

/// A configuration with at least one alias, every alias definition and
/// lookup table sound, and every lookup reference defined.
pub open spec fn sound_config(spec: Spec) -> bool {
    let ps = spec.aliases.pairs();
    let ls = spec.lookups.pairs();
    &&& ps.len() > 0
    &&& forall|i: int| 0 <= i < ps.len() ==> alias_entry_sound(#[trigger] ps[i].0, ps[i].1)
    &&& forall|i: int| 0 <= i < ls.len() ==> table_sound(#[trigger] ls[i].0, spec.lookups.value(i).pairs())
    &&& refs_defined(ps, spec.lookups@)
}

proof fn lemma_alias_entries_clean(ps: Seq<(Seq<char>, AliasView)>)
    ensures
        alias_entries_errors(ps).len() == 0 <==> forall|i: int| 0 <= i < ps.len() ==> alias_entry_sound(
            #[trigger] ps[i].0,
            ps[i].1,
        ),
    decreases ps.len(),
{
    if ps.len() > 0 {
        lemma_alias_entries_clean(ps.drop_last());
        let (n, a) = ps.last();
        assert(alias_entry_errors(n, a).len() == 0 <==> alias_entry_sound(n, a));
        if alias_entries_errors(ps).len() == 0 {
            assert forall|i: int| 0 <= i < ps.len() implies alias_entry_sound(#[trigger] ps[i].0, ps[i].1) by {
                if i < ps.len() - 1 {
                    assert(ps.drop_last()[i] == ps[i]);
                }
            }
        }
        if forall|i: int| 0 <= i < ps.len() ==> alias_entry_sound(#[trigger] ps[i].0, ps[i].1) {
            assert forall|i: int| 0 <= i < ps.drop_last().len() implies alias_entry_sound(
                #[trigger] ps.drop_last()[i].0,
                ps.drop_last()[i].1,
            ) by {
                assert(ps.drop_last()[i] == ps[i]);
            }
            assert(alias_entry_sound(ps[ps.len() - 1].0, ps[ps.len() - 1].1));
        }
    }
}

proof fn lemma_lookup_keys_clean(lname: Seq<char>, ps: Seq<(Seq<char>, Seq<char>)>)
    ensures
        lookup_key_errors(lname, ps).len() == 0 <==> forall|k: int| 0 <= k < ps.len() ==> (#[trigger] ps[k]).0.len()
            > 0 && ps[k].1.len() > 0,
    decreases ps.len(),
{
    if ps.len() > 0 {
        lemma_lookup_keys_clean(lname, ps.drop_last());
        if lookup_key_errors(lname, ps).len() == 0 {
            assert forall|k: int| 0 <= k < ps.len() implies (#[trigger] ps[k]).0.len() > 0 && ps[k].1.len() > 0 by {
                if k < ps.len() - 1 {
                    assert(ps.drop_last()[k] == ps[k]);
                }
            }
        }
        if forall|k: int| 0 <= k < ps.len() ==> (#[trigger] ps[k]).0.len() > 0 && ps[k].1.len() > 0 {
            assert forall|k: int| 0 <= k < ps.drop_last().len() implies (#[trigger] ps.drop_last()[k]).0.len() > 0
                && ps.drop_last()[k].1.len() > 0 by {
                assert(ps.drop_last()[k] == ps[k]);
            }
            assert(ps[ps.len() - 1].0.len() > 0 && ps[ps.len() - 1].1.len() > 0);
        }
    }
}

proof fn lemma_lookup_tables_clean(lk: NameMap<NameMap<String>>, n: int)
    requires
        0 <= n <= lk.pairs().len(),
    ensures
        lookup_errors(lk, n).len() == 0 <==> forall|i: int| 0 <= i < n ==> table_sound(
            #[trigger] lk.pairs()[i].0,
            lk.value(i).pairs(),
        ),
    decreases n,
{
    if n > 0 {
        lemma_lookup_tables_clean(lk, n - 1);
        let lname = lk.pairs()[n - 1].0;
        let ps = lk.value(n - 1).pairs();
        lemma_lookup_keys_clean(lname, ps);
        assert(lookup_table_errors(lname, ps).len() == 0 <==> table_sound(lname, ps));
        if forall|i: int| 0 <= i < n ==> table_sound(#[trigger] lk.pairs()[i].0, lk.value(i).pairs()) {
            assert(table_sound(lk.pairs()[n - 1].0, lk.value(n - 1).pairs()));
        }
    }
}

proof fn lemma_refs_clean(
    name: Seq<char>,
    refs: Seq<Seq<char>>,
    tables: Map<Seq<char>, Map<Seq<char>, Seq<char>>>,
)
    ensures
        undefined_ref_errors(name, refs, tables).len() == 0 <==> forall|j: int| 0 <= j < refs.len() ==> tables.contains_key(
            #[trigger] refs[j],
        ),
    decreases refs.len(),
{
    if refs.len() > 0 {
        lemma_refs_clean(name, refs.drop_last(), tables);
        if undefined_ref_errors(name, refs, tables).len() == 0 {
            assert forall|j: int| 0 <= j < refs.len() implies tables.contains_key(#[trigger] refs[j]) by {
                if j < refs.len() - 1 {
                    assert(refs.drop_last()[j] == refs[j]);
                }
            }
        }
        if forall|j: int| 0 <= j < refs.len() ==> tables.contains_key(#[trigger] refs[j]) {
            assert forall|j: int| 0 <= j < refs.drop_last().len() implies tables.contains_key(
                #[trigger] refs.drop_last()[j],
            ) by {
                assert(refs.drop_last()[j] == refs[j]);
            }
            assert(tables.contains_key(refs[refs.len() - 1]));
        }
    }
}

proof fn lemma_cross_refs_clean(ps: Seq<(Seq<char>, AliasView)>, tables: Map<Seq<char>, Map<Seq<char>, Seq<char>>>)
    ensures
        cross_ref_errors(ps, tables).len() == 0 <==> refs_defined(ps, tables),
    decreases ps.len(),
{
    if ps.len() > 0 {
        let q = ps.drop_last();
        lemma_cross_refs_clean(q, tables);
        let (n, a) = ps.last();
        lemma_refs_clean(n, lookup_refs(a.value), tables);
        if cross_ref_errors(ps, tables).len() == 0 {
            assert forall|i: int, j: int|
                0 <= i < ps.len() && 0 <= j < lookup_refs(ps[i].1.value).len() implies tables.contains_key(
                #[trigger] lookup_refs(#[trigger] ps[i].1.value)[j],
            ) by {
                if i < ps.len() - 1 {
                    assert(q[i] == ps[i]);
                    assert(lookup_refs(q[i].1.value)[j] == lookup_refs(ps[i].1.value)[j]);
                } else {
                    assert(lookup_refs(a.value)[j] == lookup_refs(ps[i].1.value)[j]);
                }
            }
        }
        if refs_defined(ps, tables) {
            assert forall|i: int, j: int|
                0 <= i < q.len() && 0 <= j < lookup_refs(q[i].1.value).len() implies tables.contains_key(
                #[trigger] lookup_refs(#[trigger] q[i].1.value)[j],
            ) by {
                assert(q[i] == ps[i]);
                assert(lookup_refs(ps[i].1.value)[j] == lookup_refs(q[i].1.value)[j]);
            }
            assert forall|j: int| 0 <= j < lookup_refs(a.value).len() implies tables.contains_key(
                #[trigger] lookup_refs(a.value)[j],
            ) by {
                let i = ps.len() - 1;
                assert(lookup_refs(ps[i].1.value)[j] == lookup_refs(a.value)[j]);
            }
        }
    }
}

/// A configuration passes validation exactly when it is sound: it defines
/// an alias, every alias name is non-empty, without spaces and not starting
/// with `-`, every alias value is non-empty, every lookup table has a
/// non-empty name and entries with non-empty keys and values, and every
/// `lookup:name[` in an alias value names a table.
pub proof fn law_validation_iff_sound(spec: Spec, label: Seq<char>)
    ensures
        validation_outcome(spec, label) is None <==> sound_config(spec),
{
    let ps = spec.aliases.pairs();
    lemma_alias_entries_clean(ps);
    lemma_lookup_tables_clean(spec.lookups, spec.lookups.pairs().len() as int);
    lemma_cross_refs_clean(ps, spec.lookups@);
}

/// Of an alias name, validation refuses only an empty name, a space
/// anywhere in it and a `-` as its first character: a configuration passes
/// exactly when it defines an alias, every alias name is non-empty, has no
/// space and does not begin with `-` (a `-` further on, as in `docker-ps`,
/// is fine), every alias value is non-empty, every lookup table is sound and
/// every lookup reference is defined.
pub proof fn law_alias_names_refused_only_for_leading_hyphen(spec: Spec, label: Seq<char>)
    ensures
        validation_outcome(spec, label) is None <==> {
            let ps = spec.aliases.pairs();
            let ls = spec.lookups.pairs();
            &&& ps.len() > 0
            &&& forall|i: int|
                0 <= i < ps.len() ==> {
                    &&& (#[trigger] ps[i]).0.len() > 0
                    &&& ps[i].0[0] != '-'
                    &&& forall|k: int| 0 <= k < ps[i].0.len() ==> ps[i].0[k] != ' '
                    &&& ps[i].1.value.len() > 0
                }
            &&& forall|i: int| 0 <= i < ls.len() ==> table_sound(#[trigger] ls[i].0, spec.lookups.value(i).pairs())
            &&& refs_defined(ps, spec.lookups@)
        },
{
    law_validation_iff_sound(spec, label);
    let ps = spec.aliases.pairs();
    assert forall|i: int| 0 <= i < ps.len() implies (alias_entry_sound(#[trigger] ps[i].0, ps[i].1) <==> {
        &&& ps[i].0.len() > 0
        &&& ps[i].0[0] != '-'
        &&& forall|k: int| 0 <= k < ps[i].0.len() ==> ps[i].0[k] != ' '
        &&& ps[i].1.value.len() > 0
    }) by {
        let n = ps[i].0;
        if n.contains(' ') {
            let k = choose|k: int| 0 <= k < n.len() && n[k] == ' ';
            assert(n[k] == ' ');
        }
        if exists|k: int| 0 <= k < n.len() && n[k] == ' ' {
            let k = choose|k: int| 0 <= k < n.len() && n[k] == ' ';
            assert(n.contains(' '));
        }
    }
}

// ---------------------------------------------------------------------------
// Executable code
// ---------------------------------------------------------------------------

/// Appends the lines of `more` to `errors`.
fn push_all_lines(errors: &mut Vec<String>, more: Vec<String>)
    ensures
        views(final(errors)@) == views(old(errors)@) + views(more@),
{
    let mut more = more;
    let ghost before = views(errors@);
    let ghost added = views(more@);
    errors.append(&mut more);
    assert(views(errors@) =~= before + added);
}

/// The largest configuration file, in bytes, that is read.
pub const MAX_CONFIG_SIZE: u64 = 10485760;

/// Why a configuration file labelled `label` cannot be read, from what the
/// file system says of it: it must exist, be a regular file and hold at most
/// [`MAX_CONFIG_SIZE`] bytes.
pub open spec fn file_problem(exists: bool, is_file: bool, size: u64, label: Seq<char>) -> Option<Seq<char>> {
    if !exists {
        Some("Config file does not exist: "@ + label)
    } else if !is_file {
        Some("Config path is not a regular file: "@ + label)
    } else if size > MAX_CONFIG_SIZE {
        Some("Config file too large: "@ + label + " ("@ + decimal(size as nat) + " bytes, max 10485760 bytes)"@)
    } else {
        None
    }
}

/// Checks that a configuration file can be read; see [`file_problem`].
pub fn check_config_file(exists: bool, is_file: bool, size: u64, label: &str) -> (r: Result<(), String>)
    ensures
        r is Ok <==> file_problem(exists, is_file, size, label@) is None,
        r matches Err(m) ==> file_problem(exists, is_file, size, label@) == Some(m@),
{
    if !exists {
        let mut m = owned("Config file does not exist: ");
        m.append(label);
        Err(m)
    } else if !is_file {
        let mut m = owned("Config path is not a regular file: ");
        m.append(label);
        Err(m)
    } else if size > MAX_CONFIG_SIZE {
        let mut m = owned("Config file too large: ");
        m.append(label);
        m.append(" (");
        m.append(decimal_text(size).as_str());
        m.append(" bytes, max 10485760 bytes)");
        Err(m)
    } else {
        Ok(())
    }
}

/// Reads a configuration document's consistency: alias names and values,
/// lookup tables and the lookups that aliases reference.
#[derive(Debug, Clone, Copy, PartialEq, Eq)]
pub struct Loader {}

impl Default for Loader {
    fn default() -> (l: Self) {
        Loader {  }
    }
}

impl Loader {
    /// A loader.
    pub fn new() -> (l: Self) {
        Loader {  }
    }

    /// The problems with one alias definition.
    fn alias_entry_problems(name: &String, alias: &Alias) -> (r: Vec<String>)
        ensures
            views(r@) == alias_entry_errors(name@, alias@),
    {
        let mut r: Vec<String> = Vec::new();
        let nv = chars_of(name.as_str());
        if nv.len() == 0 {
            r.push(owned("Empty alias name found. Alias names must be non-empty."));
            assert(views(r@) =~= seq![msg_empty_alias_name()]);
            return r;
        }
        let ghost e1: Seq<Seq<char>> = if name@.contains(' ') { seq![msg_alias_spaces(name@)] } else { Seq::empty() };
        let ghost e2: Seq<Seq<char>> = if name@[0] == '-' { seq![msg_alias_hyphen(name@)] } else { Seq::empty() };
        let ghost e3: Seq<Seq<char>> = if alias.value@.len() == 0 { seq![msg_alias_empty_value(name@)] } else { Seq::empty() };
        if has_char(name.as_str(), ' ') {
            let mut m = owned("Alias name '");
            m.append(name.as_str());
            m.append("' contains spaces. Use underscores or hyphens instead.");
            r.push(m);
        }
        assert(views(r@) =~= e1);
        if nv[0] == '-' {
            let mut m = owned("Alias name '");
            m.append(name.as_str());
            m.append("' starts with hyphen. This may conflict with command flags.");
            r.push(m);
        }
        assert(views(r@) =~= e1 + e2);
        if chars_of(alias.value.as_str()).len() == 0 {
            let mut m = owned("Alias '");
            m.append(name.as_str());
            m.append("' has empty value. Provide a command or value for the alias.");
            r.push(m);
        }
        assert(views(r@) =~= e1 + e2 + e3);
        r
    }

    /// Checks the `aliases` section: there is at least one alias, names are
    /// non-empty, hold no space and do not start with `-`, and values are
    /// non-empty. `config_label` names the file in the message (as `{:?}`
    /// prints its path). Every problem is reported, one per line.
    pub fn validate_aliases(&self, aliases: &NameMap<Alias>, config_label: &str) -> (r: Result<(), String>)
        ensures
            r is Err <==> alias_errors(config_label@, aliases.pairs()).len() > 0,
            r matches Err(m) ==> m@ == report(
                "Alias validation failed:\n"@,
                alias_errors(config_label@, aliases.pairs()),
            ),
    {
        let mut errors: Vec<String> = Vec::new();
        if aliases.is_empty() {
            let mut m = owned("No aliases defined in ");
            m.append(config_label);
            m.append(". Add at least one alias to make the configuration useful.");
            errors.push(m);
        }
        let ghost head = views(errors@);
        let mut i: usize = 0;
        while i < aliases.len()
            invariant
                i <= aliases.pairs().len(),
                views(errors@) == head + alias_entries_errors(aliases.pairs().take(i as int)),
            decreases aliases.pairs().len() - i,
        {
            let name = aliases.name_at(i);
            let alias = aliases.value_at(i);
            let more = Self::alias_entry_problems(name, alias);
            push_all_lines(&mut errors, more);
            assert(aliases.pairs().take(i + 1).drop_last() =~= aliases.pairs().take(i as int));
            assert(views(errors@) =~= head + alias_entries_errors(aliases.pairs().take(i + 1)));
            i = i + 1;
        }
        assert(aliases.pairs().take(aliases.pairs().len() as int) =~= aliases.pairs());
        assert(views(errors@) =~= alias_errors(config_label@, aliases.pairs()));
        if errors.len() == 0 {
            Ok(())
        } else {
            let mut m = owned("Alias validation failed:\n");
            let body = join_strings(&errors, "\n");
            m.append(body.as_str());
            Err(m)
        }
    }

    /// The problems with one lookup table.
    fn lookup_table_problems(lname: &String, table: &NameMap<String>) -> (r: Vec<String>)
        ensures
            views(r@) == lookup_table_errors(lname@, table.pairs()),
    {
        let mut r: Vec<String> = Vec::new();
        if chars_of(lname.as_str()).len() == 0 {
            r.push(owned("Empty lookup name found. Lookup names must be non-empty."));
            assert(views(r@) =~= seq![msg_empty_lookup_name()]);
            return r;
        }
        if table.is_empty() {
            let mut m = owned("Lookup '");
            m.append(lname.as_str());
            m.append("' is empty. Add key-value pairs or remove it.");
            r.push(m);
        }
        let ghost head = views(r@);
        let mut i: usize = 0;
        while i < table.len()
            invariant
                i <= table.pairs().len(),
                views(r@) == head + lookup_key_errors(lname@, table.pairs().take(i as int)),
            decreases table.pairs().len() - i,
        {
            let key = table.name_at(i);
            let value = table.value_at(i);
            let ghost before = views(r@);
            let ghost ek: Seq<Seq<char>> = if key@.len() == 0 {
                seq![msg_lookup_empty_key(lname@)]
            } else {
                Seq::empty()
            };
            let ghost ev: Seq<Seq<char>> = if value@.len() == 0 {
                seq![msg_lookup_empty_value(key@, lname@)]
            } else {
                Seq::empty()
            };
            if chars_of(key.as_str()).len() == 0 {
                let mut m = owned("Empty key in lookup '");
                m.append(lname.as_str());
                m.append("'. Lookup keys must be non-empty.");
                r.push(m);
            }
            assert(views(r@) =~= before + ek);
            if chars_of(value.as_str()).len() == 0 {
                let mut m = owned("Empty value for key '");
                m.append(key.as_str());
                m.append("' in lookup '");
                m.append(lname.as_str());
                m.append("'. Lookup values must be non-empty.");
                r.push(m);
            }
            let ghost t = table.pairs().take(i + 1);
            assert(t.drop_last() =~= table.pairs().take(i as int));
            assert(t.last() == (key@, value@));
            assert(views(r@) =~= before + ek + ev);
            assert(lookup_key_errors(lname@, t) == lookup_key_errors(lname@, t.drop_last()) + ek + ev);
            assert(views(r@) =~= head + lookup_key_errors(lname@, t));
            i = i + 1;
        }
        assert(table.pairs().take(table.pairs().len() as int) =~= table.pairs());
        assert(views(r@) =~= lookup_table_errors(lname@, table.pairs()));
        r
    }

    /// Checks the `lookups` section: table names are non-empty, tables are
    /// not empty, and keys and values are non-empty. Every problem is
    /// reported, one per line.
    pub fn validate_lookups(&self, lookups: &NameMap<NameMap<String>>) -> (r: Result<(), String>)
        ensures
            r is Err <==> lookup_errors(*lookups, lookups.pairs().len() as int).len() > 0,
            r matches Err(m) ==> m@ == report(
                "Lookup validation failed:\n"@,
                lookup_errors(*lookups, lookups.pairs().len() as int),
            ),
    {
        let mut errors: Vec<String> = Vec::new();
        let mut i: usize = 0;
        assert(views(errors@) =~= lookup_errors(*lookups, 0));
        while i < lookups.len()
            invariant
                i <= lookups.pairs().len(),
                views(errors@) == lookup_errors(*lookups, i as int),
            decreases lookups.pairs().len() - i,
        {
            let lname = lookups.name_at(i);
            let table = lookups.value_at(i);
            let more = Self::lookup_table_problems(lname, table);
            push_all_lines(&mut errors, more);
            i = i + 1;
        }
        if errors.len() == 0 {
            Ok(())
        } else {
            let mut m = owned("Lookup validation failed:\n");
            let body = join_strings(&errors, "\n");
            m.append(body.as_str());
            Err(m)
        }
    }

    /// The table names of the `lookup:name[key]` references in `value`, in
    /// the order they appear; a reference without `[` or with an empty name
    /// does not count.
    pub fn extract_lookup_references(&self, value: &str) -> (r: Vec<String>)
        ensures
            views(r@) == lookup_refs(value@),
    {
        let v = chars_of(value);
        let pat = chars_of("lookup:");
        proof {
            reveal_strlit("lookup:");
        }
        let mut r: Vec<String> = Vec::new();
        let mut i: usize = 0;
        while i < v.len()
            invariant
                i <= v.len(),
                v@ == value@,
                pat@ == "lookup:"@,
                pat@.len() == 7,
                views(r@) == lookup_refs_upto(value@, i as int),
            decreases v.len() - i,
        {
            let ghost before = views(r@);
            if occurs_at_vec(&v, &pat, i) {
                let start = i + 7;
                let ghost rest = v@.skip(start as int);
                let mut b: usize = start;
                while b < v.len() && v[b] != '['
                    invariant
                        start <= b <= v.len(),
                        rest == v@.skip(start as int),
                        first_index_of(rest, '[') == match first_index_of(v@.skip(b as int), '[') {
                            Some(k) => Some(k + (b - start)),
                            None => None,
                        },
                    decreases v.len() - b,
                {
                    assert(v@.skip(b as int).skip(1) =~= v@.skip(b + 1));
                    b = b + 1;
                }
                if b < v.len() {
                    assert(v@.skip(b as int)[0] == '[');
                    if b > start {
                        let mut name: Vec<char> = Vec::new();
                        let mut k: usize = start;
                        while k < b
                            invariant
                                start <= k <= b,
                                b <= v.len(),
                                name@ == v@.subrange(start as int, k as int),
                            decreases b - k,
                        {
                            name.push(v[k]);
                            assert(v@.subrange(start as int, k as int).push(v@[k as int])
                                =~= v@.subrange(start as int, k + 1));
                            k = k + 1;
                        }
                        assert(rest.take(b - start) =~= v@.subrange(start as int, b as int));
                        r.push(string_of(name.as_slice()));
                    }
                } else {
                    assert(v@.skip(b as int).len() == 0);
                }
            }
            assert(views(r@) =~= before + lookup_ref_at(value@, i as int));
            i = i + 1;
        }
        r
    }

    /// Checks that every `lookup:name[...]` reference in an alias names a
    /// table that the configuration defines. Every dangling reference is
    /// reported, one per line.
    pub fn validate_cross_references(&self, spec: &Spec) -> (r: Result<(), String>)
        ensures
            r is Err <==> cross_ref_errors(spec.aliases.pairs(), spec.lookups@).len() > 0,
            r matches Err(m) ==> m@ == report(
                "Cross-reference validation failed:\n"@,
                cross_ref_errors(spec.aliases.pairs(), spec.lookups@),
            ),
    {
        let mut errors: Vec<String> = Vec::new();
        let mut i: usize = 0;
        let ghost ps = spec.aliases.pairs();
        while i < spec.aliases.len()
            invariant
                i <= ps.len(),
                ps == spec.aliases.pairs(),
                views(errors@) == cross_ref_errors(ps.take(i as int), spec.lookups@),
            decreases ps.len() - i,
        {
            let alias_name = spec.aliases.name_at(i);
            let alias = spec.aliases.value_at(i);
            let ghost before = views(errors@);
            let refs = self.extract_lookup_references(alias.value.as_str());
            let ghost rv = views(refs@);
            let mut k: usize = 0;
            while k < refs.len()
                invariant
                    k <= refs.len(),
                    rv == views(refs@),
                    views(errors@) == before + undefined_ref_errors(alias_name@, rv.take(k as int), spec.lookups@),
                decreases refs.len() - k,
            {
                let ghost mid = views(errors@);
                let ghost e: Seq<Seq<char>> = if spec.lookups@.contains_key(rv[k as int]) {
                    Seq::empty()
                } else {
                    seq![msg_undefined_lookup(alias_name@, rv[k as int])]
                };
                if !spec.lookups.contains_key(refs[k].as_str()) {
                    let mut m = owned("Alias '");
                    m.append(alias_name.as_str());
                    m.append("' references undefined lookup '");
                    m.append(refs[k].as_str());
                    m.append("'. Define the lookup or fix the reference.");
                    errors.push(m);
                }
                assert(views(errors@) =~= mid + e);
                assert(rv.take(k + 1).drop_last() =~= rv.take(k as int));
                assert(rv.take(k + 1).last() == rv[k as int]);
                assert(views(errors@) =~= before + undefined_ref_errors(alias_name@, rv.take(k + 1), spec.lookups@));
                k = k + 1;
            }
            assert(rv.take(refs.len() as int) =~= rv);
            assert(ps.take(i + 1).drop_last() =~= ps.take(i as int));
            i = i + 1;
        }
        assert(ps.take(ps.len() as int) =~= ps);
        if errors.len() == 0 {
            Ok(())
        } else {
            let mut m = owned("Cross-reference validation failed:\n");
            let body = join_strings(&errors, "\n");
            m.append(body.as_str());
            Err(m)
        }
    }

    /// Checks a configuration: aliases first, then lookup tables, then the
    /// lookups that aliases reference; the first section with problems is
    /// reported.
    pub fn validate_config(&self, spec: &Spec, config_label: &str) -> (r: Result<(), String>)
        ensures
            match validation_outcome(*spec, config_label@) {
                Some(m) => r matches Err(e) && e@ == m,
                None => r is Ok,
            },
    {
        match self.validate_aliases(&spec.aliases, config_label) {
            Ok(()) => {},
            Err(e) => return Err(e),
        }
        match self.validate_lookups(&spec.lookups) {
            Ok(()) => {},
            Err(e) => return Err(e),
        }
        self.validate_cross_references(spec)
    }
}

} // verus!
