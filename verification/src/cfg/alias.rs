//! One alias: its expansion text and how arguments are substituted into it.
use vstd::prelude::*;
use vstd::pervasive::VecAdditionalExecFns;
use vstd::string::StrSliceExecFns;
use crate::name_map::NameMap;
use crate::patterns::{find_all, match_views, regex_compiles, regex_matches};
use crate::text::{
    chars_of, contains, contains_str, join, join_strings, lemma_sort_dedup, owned, replace_all,
    replace_str, same_text, sort_dedup, sorted_unique, string_of, trim, views,
};

verus! {

/// The bash positional forms `$1`..`$9` and `${N...}` for `N` in 1..9.
pub const POSITIONAL_RE: &'static str = "\\$(?:\\{#?[1-9][^}]*\\}|[1-9])";

/// A reference to another alias by name: `$name`.
pub const VARIABLE_RE: &'static str = "\\$([A-Za-z][A-Za-z0-9_-]*)";

/// The abstract value of an [`Alias`].
pub struct AliasView {
    pub name: Seq<char>,
    pub value: Seq<char>,
    pub space: bool,
    pub global: bool,
    pub count: u64,
}

/// A named command-line expansion.
#[derive(Debug)]
pub struct Alias {
    pub name: String,
    pub value: String,
    pub space: bool,
    pub global: bool,
    pub count: u64,
}

impl View for Alias {
    type V = AliasView;

    open spec fn view(&self) -> AliasView {
        AliasView {
            name: self.name@,
            value: self.value@,
            space: self.space,
            global: self.global,
            count: self.count,
        }
    }
}

// ---------------------------------------------------------------------------
// Specification of positional parameters
// ---------------------------------------------------------------------------

/// The character just before the match that starts at byte offset `start`
/// is `$`: the match is an escaped `$$N`.
pub open spec fn escaped_at(value: Seq<char>, start: int) -> bool {
    let k = crate::display::chars_within(value, start);
    k > 0 && value[k - 1] == '$'
}

/// The digit character of a positional token: `$1` gives `1`, `${1:-.}`
/// gives `1`, `${#1}` gives `1`.
pub open spec fn positional_digit_of(token: Seq<char>) -> Option<char> {
    if token.len() > 0 && token[0] == '$' {
        let rest = token.skip(1);
        if rest.len() > 0 && rest[0] == '{' {
            let inner = rest.skip(1);
            let inner2 = if inner.len() > 0 && inner[0] == '#' {
                inner.skip(1)
            } else {
                inner
            };
            if inner2.len() > 0 {
                Some(inner2[0])
            } else {
                None
            }
        } else if rest.len() > 0 {
            Some(rest[0])
        } else {
            None
        }
    } else {
        None
    }
}

/// The length of `s` in UTF-8 bytes, as `str::len` counts.
pub open spec fn byte_len(s: Seq<char>) -> nat {
    vstd::utf8::encode_utf8(s).len()
}

/// The digit table kept in increasing digit order, with `tok` stored under
/// `d` unless a token at least as long (in bytes) is already there.
pub open spec fn upsert_digit(ps: Seq<(char, Seq<char>)>, d: char, tok: Seq<char>) -> Seq<
    (char, Seq<char>),
>
    decreases ps.len(),
{
    if ps.len() == 0 {
        seq![(d, tok)]
    } else if ps[0].0 == d {
        if byte_len(tok) > byte_len(ps[0].1) {
            ps.update(0, (d, tok))
        } else {
            ps
        }
    } else if (d as int) < (ps[0].0 as int) {
        seq![(d, tok)] + ps
    } else {
        seq![ps[0]] + upsert_digit(ps.skip(1), d, tok)
    }
}

/// The table from positional digit to the longest token for it, built from
/// the matches of [`POSITIONAL_RE`] in order, skipping escaped `$$N`.
pub open spec fn digit_entries(value: Seq<char>, ms: Seq<(int, Seq<char>)>) -> Seq<
    (char, Seq<char>),
>
    decreases ms.len(),
{
    if ms.len() == 0 {
        Seq::empty()
    } else {
        let ps = digit_entries(value, ms.drop_last());
        let m = ms.last();
        if escaped_at(value, m.0) {
            ps
        } else {
            match positional_digit_of(m.1) {
                Some(d) => upsert_digit(ps, d, m.1),
                None => ps,
            }
        }
    }
}

/// The positional tokens of `value` given the matches of the positional
/// pattern: one per digit, the longest, in increasing digit order.
pub open spec fn positionals_from(value: Seq<char>, ms: Seq<(int, Seq<char>)>) -> Seq<Seq<char>> {
    digit_entries(value, ms).map_values(|p: (char, Seq<char>)| p.1)
}

/// The positional tokens of `value`.
pub open spec fn positionals_of(value: Seq<char>) -> Seq<Seq<char>> {
    positionals_from(value, regex_matches(POSITIONAL_RE@, value))
}

// ---------------------------------------------------------------------------
// Specification of variable references and interpolation
// ---------------------------------------------------------------------------

/// The matched text without its leading `$`.
pub open spec fn drop_dollar(t: Seq<char>) -> Seq<char> {
    if t.len() > 0 {
        t.skip(1)
    } else {
        t
    }
}

/// The referenced names given the matches of [`VARIABLE_RE`]: sorted, each once.
pub open spec fn variable_refs_from(ms: Seq<(int, Seq<char>)>) -> Seq<Seq<char>> {
    sort_dedup(ms.map_values(|m: (int, Seq<char>)| drop_dollar(m.1)))
}

/// The names that `value` references as `$name`.
pub open spec fn variable_refs_of(value: Seq<char>) -> Seq<Seq<char>> {
    variable_refs_from(regex_matches(VARIABLE_RE@, value))
}

/// The aliases of `m` that are not on the resolution stack.
pub open spec fn unresolved(m: Map<Seq<char>, AliasView>, stack: Set<Seq<char>>) -> nat {
    m.dom().difference(stack).len()
}

pub proof fn lemma_unresolved_decreases(
    m: Map<Seq<char>, AliasView>,
    stack: Set<Seq<char>>,
    name: Seq<char>,
)
    requires
        m.dom().finite(),
        m.contains_key(name),
        !stack.contains(name),
    ensures
        unresolved(m, stack.insert(name)) < unresolved(m, stack),
{
    let d = m.dom().difference(stack);
    assert(m.dom().difference(stack.insert(name)) =~= d.remove(name));
    vstd::set_lib::lemma_set_subset_finite(m.dom(), d);
    assert(d.contains(name));
}

/// `value` with every `$name` of a known alias that is not on the
/// resolution stack replaced by that alias's own interpolated value, names
/// taken in increasing order; references to unknown aliases and cycles are
/// left as they are.
pub open spec fn interp(v: Seq<char>, m: Map<Seq<char>, AliasView>, stack: Set<Seq<char>>) -> Seq<
    char,
>
    decreases unresolved(m, stack), 1nat, 0nat,
    when m.dom().finite()
{
    interp_refs(v, variable_refs_of(v), m, stack)
}

/// The interpolation of `result` for the remaining referenced names `refs`.
pub open spec fn interp_refs(
    result: Seq<char>,
    refs: Seq<Seq<char>>,
    m: Map<Seq<char>, AliasView>,
    stack: Set<Seq<char>>,
) -> Seq<char>
    decreases unresolved(m, stack), 0nat, refs.len(),
    when m.dom().finite()
{
    if refs.len() == 0 {
        result
    } else {
        let name = refs[0];
        if stack.contains(name) || !m.contains_key(name) {
            interp_refs(result, refs.skip(1), m, stack)
        } else {
            proof {
                lemma_unresolved_decreases(m, stack, name);
            }
            let resolved = interp(m[name].value, m, stack.insert(name));
            interp_refs(replace_all(result, seq!['$'] + name, resolved), refs.skip(1), m, stack)
        }
    }
}

// ---------------------------------------------------------------------------
// Specification of replacement
// ---------------------------------------------------------------------------

/// Each positional token replaced, in order, by the argument in the same
/// place: the first token (lowest digit) takes the first remaining argument,
/// the second the second, and so on.
pub open spec fn substitute(r: Seq<char>, pos: Seq<Seq<char>>, rem: Seq<Seq<char>>) -> (
    Seq<char>,
    Seq<Seq<char>>,
)
    decreases pos.len(),
{
    if pos.len() == 0 || rem.len() == 0 {
        (r, rem)
    } else {
        substitute(replace_all(r, pos[0], rem[0]), pos.skip(1), rem.skip(1))
    }
}

/// `$$` turned back into `$`.
pub open spec fn unescape(s: Seq<char>) -> Seq<char> {
    replace_all(s, seq!['$', '$'], seq!['$'])
}

/// The result of expanding alias `a` against the remaining arguments `rem`:
/// the expansion, how many arguments it consumed, and the arguments left.
/// With positional tokens, all arguments are consumed if their number
/// matches, else the alias stays unexpanded (its own name). A variadic `$@`
/// takes all arguments at the end of a line and otherwise leaves the alias
/// unexpanded. `$$` becomes `$` in every case.
pub open spec fn expansion(
    a: AliasView,
    m: Map<Seq<char>, AliasView>,
    rem: Seq<Seq<char>>,
    eol: bool,
) -> (Seq<char>, nat, Seq<Seq<char>>) {
    let r0 = interp(a.value, m, Set::empty().insert(a.name));
    let pos = positionals_of(a.value);
    if pos.len() > 0 {
        if pos.len() == rem.len() {
            let (r1, rem1) = substitute(r0, pos, rem);
            (unescape(r1), pos.len(), rem1)
        } else {
            (unescape(a.name), 0, rem)
        }
    } else if contains(r0, seq!['$', '@']) {
        if eol {
            (unescape(replace_all(r0, seq!['$', '@'], join(rem, seq![' ']))), rem.len(), Seq::empty())
        } else {
            (unescape(a.name), 0, rem)
        }
    } else {
        (unescape(r0), 0, rem)
    }
}

/// Substituting as many arguments as there are tokens uses them all.
proof fn lemma_substitute_consumes(r: Seq<char>, pos: Seq<Seq<char>>, rem: Seq<Seq<char>>)
    requires
        pos.len() == rem.len(),
    ensures
        substitute(r, pos, rem).1 == Seq::<Seq<char>>::empty(),
    decreases pos.len(),
{
    if pos.len() == 0 {
        assert(rem =~= Seq::<Seq<char>>::empty());
    } else {
        lemma_substitute_consumes(replace_all(r, pos[0], rem[0]), pos.skip(1), rem.skip(1));
    }
}

/// Expanding an alias consumes either none of the arguments that follow it,
/// leaving them all, or every one of them, leaving none.
pub proof fn law_expansion_consumes_all_or_none(
    a: AliasView,
    m: Map<Seq<char>, AliasView>,
    rem: Seq<Seq<char>>,
    eol: bool,
)
    ensures
        ({
            let e = expansion(a, m, rem, eol);
            (e.1 == 0 && e.2 == rem) || (e.1 == rem.len() && e.2 == Seq::<Seq<char>>::empty())
        }),
{
    let r0 = interp(a.value, m, Set::empty().insert(a.name));
    let pos = positionals_of(a.value);
    if pos.len() > 0 && pos.len() == rem.len() {
        lemma_substitute_consumes(r0, pos, rem);
    }
}

/// Both patterns that expansion uses compile.
pub open spec fn patterns_compile() -> bool {
    regex_compiles(VARIABLE_RE@) && regex_compiles(POSITIONAL_RE@)
}

// ---------------------------------------------------------------------------
// Lemmas
// ---------------------------------------------------------------------------

proof fn lemma_upsert_at(ps: Seq<(char, Seq<char>)>, d: char, tok: Seq<char>, p: int)
    requires
        0 <= p <= ps.len(),
        forall|i: int| 0 <= i < p ==> ((#[trigger] ps[i]).0 as int) < (d as int),
        p < ps.len() ==> (d as int) <= (ps[p].0 as int),
    ensures
        p < ps.len() && ps[p].0 == d ==> upsert_digit(ps, d, tok) == (if byte_len(tok) > byte_len(
            ps[p].1,
        ) {
            ps.update(p, (d, tok))
        } else {
            ps
        }),
        !(p < ps.len() && ps[p].0 == d) ==> upsert_digit(ps, d, tok) == ps.insert(p, (d, tok)),
    decreases p,
{
    if p == 0 {
        if ps.len() == 0 {
            assert(ps.insert(0, (d, tok)) =~= seq![(d, tok)]);
        } else if ps[0].0 != d {
            assert((d as int) != (ps[0].0 as int));
            assert(ps.insert(0, (d, tok)) =~= seq![(d, tok)] + ps);
        }
    } else {
        let t = ps.skip(1);
        assert forall|i: int| 0 <= i < p - 1 implies ((#[trigger] t[i]).0 as int) < (d as int) by {
            assert(t[i] == ps[i + 1]);
        }
        assert((ps[0].0 as int) < (d as int));
        lemma_upsert_at(t, d, tok, p - 1);
        if p < ps.len() && ps[p].0 == d {
            if byte_len(tok) > byte_len(ps[p].1) {
                assert(seq![ps[0]] + t.update(p - 1, (d, tok)) =~= ps.update(p, (d, tok)));
            } else {
                assert(seq![ps[0]] + t =~= ps);
            }
        } else {
            assert(seq![ps[0]] + t.insert(p - 1, (d, tok)) =~= ps.insert(p, (d, tok)));
        }
    }
}

// ---------------------------------------------------------------------------
// Executable code
// ---------------------------------------------------------------------------

/// The digit character of a positional token.
fn positional_digit(token: &str) -> (r: Option<char>)
    ensures
        r == positional_digit_of(token@),
{
    let t = chars_of(token);
    if t.len() > 0 && t[0] == '$' {
        if t.len() > 1 {
            assert(token@.skip(1)[0] == t@[1]);
        }
        if t.len() > 1 && t[1] == '{' {
            if t.len() > 2 && t[2] == '#' {
                if t.len() > 3 {
                    assert(token@.skip(1).skip(1).skip(1)[0] == t@[3]);
                    Some(t[3])
                } else {
                    None
                }
            } else if t.len() > 2 {
                assert(token@.skip(1).skip(1)[0] == t@[2]);
                Some(t[2])
            } else {
                None
            }
        } else if t.len() > 1 {
            Some(t[1])
        } else {
            None
        }
    } else {
        None
    }
}

/// The positional tokens of `value` given the matches that
/// [`POSITIONAL_RE`] has in it (start byte offset and text): for each digit
/// the longest token, in increasing digit order; a match right after a `$`
/// (the escaped `$$N`) does not count.
pub fn positionals_from_matches(value: &str, matches: &Vec<(usize, String)>) -> (r: Vec<String>)
    ensures
        views(r@) == positionals_from(value@, match_views(matches@)),
{
    let vc = chars_of(value);
    let mut table: Vec<(char, String)> = Vec::new();
    let mut i: usize = 0;
    let ghost ms = match_views(matches@);
    while i < matches.len()
        invariant
            i <= matches.len(),
            vc@ == value@,
            ms == match_views(matches@),
            table@.map_values(|e: (char, String)| (e.0, e.1@)) == digit_entries(
                value@,
                ms.take(i as int),
            ),
        decreases matches.len() - i,
    {
        let ghost before = table@.map_values(|e: (char, String)| (e.0, e.1@));
        assert(ms.take(i + 1).drop_last() =~= ms.take(i as int));
        let start = matches[i].0;
        let token = &matches[i].1;
        assert(ms.take(i + 1).last() == (start as int, token@));
        let k = crate::display::char_index_at(&vc, start as u128);
        let escaped = k > 0 && vc[k - 1] == '$';
        assert(escaped == escaped_at(value@, start as int));
        if !escaped {
            match positional_digit(token.as_str()) {
                Some(d) => {
                    let mut p: usize = 0;
                    while p < table.len()
                        invariant
                            p <= table.len(),
                            forall|k: int| 0 <= k < p ==> ((#[trigger] table@[k]).0 as int) < (
                            d as int),
                        ensures
                            p <= table.len(),
                            forall|k: int| 0 <= k < p ==> ((#[trigger] table@[k]).0 as int) < (
                            d as int),
                            p < table.len() ==> (d as int) <= (table@[p as int].0 as int),
                        decreases table.len() - p,
                    {
                        if !(table[p].0 < d) {
                            break;
                        }
                        p = p + 1;
                    }
                    proof {
                        lemma_upsert_at(before, d, token@, p as int);
                    }
                    if p < table.len() && table[p].0 == d {
                        if token.as_str().as_bytes().len() > table[p].1.as_str().as_bytes().len() {
                            table.set(p, (d, owned(token.as_str())));
                            assert(table@.map_values(|e: (char, String)| (e.0, e.1@)) =~= before.update(
                                p as int,
                                (d, token@),
                            ));
                        }
                    } else {
                        table.insert(p, (d, owned(token.as_str())));
                        assert(table@.map_values(|e: (char, String)| (e.0, e.1@)) =~= before.insert(
                            p as int,
                            (d, token@),
                        ));
                    }
                },
                None => {},
            }
        }
        i = i + 1;
    }
    assert(ms.take(matches.len() as int) =~= ms);
    let mut r: Vec<String> = Vec::new();
    let mut k: usize = 0;
    let ghost vals = table@.map_values(|e: (char, String)| (e.0, e.1@)).map_values(
        |p: (char, Seq<char>)| p.1,
    );
    while k < table.len()
        invariant
            k <= table.len(),
            r@.len() == k,
            vals.len() == table@.len(),
            vals == table@.map_values(|e: (char, String)| (e.0, e.1@)).map_values(
                |p: (char, Seq<char>)| p.1,
            ),
            views(r@) == vals.take(k as int),
        decreases table.len() - k,
    {
        let item = owned(table[k].1.as_str());
        assert(item@ == vals[k as int]);
        let ghost old_r = r@;
        r.push(item);
        assert forall|j: int| 0 <= j < k + 1 implies views(r@)[j] == vals.take(k + 1)[j] by {
            if j < k {
                assert(views(old_r)[j] == vals.take(k as int)[j]);
            }
        }
        assert(views(r@) =~= vals.take(k + 1));
        k = k + 1;
    }
    assert(table@.map_values(|e: (char, String)| (e.0, e.1@)).map_values(
        |p: (char, Seq<char>)| p.1,
    ).take(table.len() as int) =~= table@.map_values(|e: (char, String)| (e.0, e.1@)).map_values(
        |p: (char, Seq<char>)| p.1,
    ));
    r
}

/// The referenced names given the matches that [`VARIABLE_RE`] has in an
/// alias value: each match without its `$`, sorted, each once.
pub fn variable_refs_from_matches(matches: &Vec<(usize, String)>) -> (r: Vec<String>)
    ensures
        views(r@) == variable_refs_from(match_views(matches@)),
{
    let mut names: Vec<String> = Vec::new();
    let mut i: usize = 0;
    while i < matches.len()
        invariant
            i <= matches.len(),
            names@.len() == i,
            views(names@) == match_views(matches@).take(i as int).map_values(
                |m: (int, Seq<char>)| drop_dollar(m.1),
            ),
        decreases matches.len() - i,
    {
        let t = &matches[i].1;
        let n = t.unicode_len();
        let name = if n > 0 {
            owned(t.substring_char(1, n))
        } else {
            owned(t.as_str())
        };
        proof {
            if n > 0 {
                assert(t@.subrange(1, n as int) =~= t@.skip(1));
            }
        }
        let ghost target = match_views(matches@).take(i + 1).map_values(
            |m: (int, Seq<char>)| drop_dollar(m.1),
        );
        assert(name@ == target[i as int]);
        let ghost old_names = names@;
        names.push(name);
        assert forall|j: int| 0 <= j < i + 1 implies views(names@)[j] == target[j] by {
            if j < i {
                assert(views(old_names)[j] == match_views(matches@).take(i as int).map_values(
                    |m: (int, Seq<char>)| drop_dollar(m.1),
                )[j]);
            }
        }
        assert(views(names@) =~= target);
        i = i + 1;
    }
    assert(match_views(matches@).take(matches.len() as int) =~= match_views(matches@));
    sorted_unique(&names)
}


impl Alias {
    /// An alias whose value is `text` without surrounding white space, with
    /// no name, expanding with a trailing space, not global, never used.
    pub fn from_value_text(text: &str) -> (a: Alias)
        ensures
            a@ == (AliasView {
                name: Seq::empty(),
                value: trim(text@),
                space: true,
                global: false,
                count: 0,
            }),
    {
        Alias { name: String::new(), value: crate::text::trim_str(text), space: true, global: false, count: 0 }
    }
}

impl Clone for Alias {
    fn clone(&self) -> (r: Self)
        ensures
            r@ == self@,
    {
        Alias {
            name: self.name.clone(),
            value: self.value.clone(),
            space: self.space,
            global: self.global,
            count: self.count,
        }
    }
}

impl Default for Alias {
    fn default() -> (r: Self)
        ensures
            r@ == (AliasView {
                name: Seq::empty(),
                value: Seq::empty(),
                space: false,
                global: false,
                count: 0,
            }),
    {
        Alias { name: String::new(), value: String::new(), space: false, global: false, count: 0 }
    }
}

impl PartialEq for Alias {
    fn eq(&self, other: &Self) -> (r: bool) {
        self.name == other.name && self.value == other.value && self.space == other.space
            && self.global == other.global && self.count == other.count
    }
}

impl Eq for Alias {

}

impl vstd::std_specs::cmp::PartialEqSpecImpl for Alias {
    open spec fn obeys_eq_spec() -> bool {
        true
    }

    open spec fn eq_spec(&self, other: &Alias) -> bool {
        self@ == other@
    }
}

impl std::str::FromStr for Alias {
    type Err = std::convert::Infallible;

    fn from_str(s: &str) -> (r: Result<Alias, std::convert::Infallible>)
        ensures
            r matches Ok(a) && a@ == (AliasView {
                name: Seq::empty(),
                value: trim(s@),
                space: true,
                global: false,
                count: 0,
            }),
    {
        Ok(Alias::from_value_text(s))
    }
}

/// `name` is on the resolution stack.
fn stack_contains(stack: &Vec<String>, name: &str) -> (b: bool)
    ensures
        b == views(stack@).contains(name@),
{
    let mut i: usize = 0;
    while i < stack.len()
        invariant
            i <= stack.len(),
            forall|j: int| 0 <= j < i ==> views(stack@)[j] != name@,
        decreases stack.len() - i,
    {
        if same_text(stack[i].as_str(), name) {
            assert(views(stack@)[i as int] == name@);
            return true;
        }
        i = i + 1;
    }
    false
}

impl Alias {
    /// The value with `$name` references to other aliases resolved
    /// recursively; names already on `stack` (being resolved) are left as
    /// they are, which breaks cycles.
    fn interpolate_variables(&self, alias_map: &NameMap<Alias>, stack: &mut Vec<String>) -> (r:
        Result<String, String>)
        requires
            alias_map@.dom().finite(),
        ensures
            final(stack)@ == old(stack)@,
            r is Ok <==> regex_compiles(VARIABLE_RE@),
            r matches Ok(s) ==> s@ == interp(self.value@, alias_map@, views(old(stack)@).to_set()),
        decreases unresolved(alias_map@, views(old(stack)@).to_set()),
    {
        let refs = match self.variable_references() {
            Ok(v) => v,
            Err(e) => return Err(e),
        };
        let ghost m = alias_map@;
        let ghost st = views(stack@).to_set();
        let ghost s0 = stack@;
        let ghost rv = views(refs@);
        let mut result = owned(self.value.as_str());
        let mut i: usize = 0;
        assert(rv.skip(0) =~= rv);
        while i < refs.len()
            invariant
                i <= refs.len(),
                stack@ == s0,
                s0 == old(stack)@,
                st == views(s0).to_set(),
                m == alias_map@,
                m.dom().finite(),
                rv == views(refs@),
                regex_compiles(VARIABLE_RE@),
                interp_refs(result@, rv.skip(i as int), m, st) == interp(self.value@, m, st),
            decreases refs.len() - i,
        {
            let var_name = &refs[i];
            let ghost name = var_name@;
            assert(rv.skip(i as int)[0] == name);
            assert(rv.skip(i as int).skip(1) =~= rv.skip(i + 1));
            let on_stack = stack_contains(stack, var_name.as_str());
            assert(on_stack == st.contains(name)) by {
                if st.contains(name) {
                    assert(views(s0).contains(name));
                }
            }
            if !on_stack {
                match alias_map.get(var_name.as_str()) {
                    Some(target) => {
                        stack.push(var_name.clone());
                        assert(views(stack@).to_set() =~= st.insert(name)) by {
                            assert(views(stack@) =~= views(s0).push(name));
                            assert forall|x: Seq<char>| views(stack@).to_set().contains(x) <==> st.insert(name).contains(x) by {
                                if views(stack@).contains(x) {
                                    let k = choose|k: int| 0 <= k < views(stack@).len() && views(stack@)[k] == x;
                                    if k < views(s0).len() {
                                        assert(views(s0)[k] == x);
                                    }
                                }
                                if views(s0).contains(x) {
                                    let k = choose|k: int| 0 <= k < views(s0).len() && views(s0)[k] == x;
                                    assert(views(stack@)[k] == x);
                                }
                                if x == name {
                                    assert(views(stack@)[views(s0).len() as int] == x);
                                }
                            }
                        }
                        proof {
                            lemma_unresolved_decreases(m, st, name);
                        }
                        let resolved = match target.interpolate_variables(alias_map, stack) {
                            Ok(v) => v,
                            Err(e) => {
                                stack.pop();
                                return Err(e);
                            },
                        };
                        stack.pop();
                        assert(stack@ =~= s0);
                        let mut placeholder = owned("$");
                        placeholder.append(var_name.as_str());
                        proof {
                            reveal_strlit("$");
                            assert(placeholder@ =~= seq!['$'] + name);
                        }
                        result = replace_str(result.as_str(), placeholder.as_str(), resolved.as_str());
                    },
                    None => {},
                }
            }
            i = i + 1;
        }
        Ok(result)
    }
}

impl Alias {
    /// The positional parameter tokens of the value, one per digit (the
    /// longest form written), in increasing digit order.
    pub fn positionals(&self) -> (r: Result<Vec<String>, String>)
        ensures
            r is Ok <==> regex_compiles(POSITIONAL_RE@),
            r matches Ok(v) ==> views(v@) == positionals_of(self.value@),
    {
        match find_all(POSITIONAL_RE, self.value.as_str()) {
            Some(ms) => Ok(positionals_from_matches(self.value.as_str(), &ms)),
            None => Err(owned("invalid positional pattern")),
        }
    }

    /// The names this alias references as `$name`, sorted and without
    /// repetition.
    pub fn variable_references(&self) -> (r: Result<Vec<String>, String>)
        ensures
            r is Ok <==> regex_compiles(VARIABLE_RE@),
            r matches Ok(v) ==> views(v@) == variable_refs_of(self.value@),
    {
        match find_all(VARIABLE_RE, self.value.as_str()) {
            Some(ms) => Ok(variable_refs_from_matches(&ms)),
            None => Err(owned("invalid variable pattern")),
        }
    }

    /// Expands this alias against the arguments that follow it on the
    /// command line (`remainders`): references to other aliases are
    /// interpolated, positional tokens take the arguments if their number
    /// matches (else the result is the alias's own name), `$@` takes all of
    /// them at the end of a line (else the name again), and `$$` becomes
    /// `$`. Returns the expansion and the number of arguments consumed;
    /// consumed arguments are removed from `remainders`.
    pub fn replace(&self, remainders: &mut Vec<String>, alias_map: &NameMap<Alias>, eol: bool) -> (r:
        Result<(String, usize), String>)
        ensures
            r is Ok <==> patterns_compile(),
            r matches Ok(p) ==> {
                let e = expansion(self@, alias_map@, views(old(remainders)@), eol);
                &&& p.0@ == e.0
                &&& p.1 == e.1
                &&& views(final(remainders)@) == e.2
            },
            r is Err ==> final(remainders)@ == old(remainders)@,
    {
        proof {
            NameMap::<Alias>::lemma_finite(alias_map);
        }
        let mut stack: Vec<String> = Vec::new();
        stack.push(self.name.clone());
        assert(views(stack@).to_set() =~= Set::<Seq<char>>::empty().insert(self.name@)) by {
            assert(views(stack@)[0] == self.name@);
            assert forall|x: Seq<char>| views(stack@).to_set().contains(x) <==> (x == self.name@) by {
                if views(stack@).contains(x) {
                    let k = choose|k: int| 0 <= k < views(stack@).len() && views(stack@)[k] == x;
                }
            }
        }
        let mut result = match self.interpolate_variables(alias_map, &mut stack) {
            Ok(v) => v,
            Err(e) => return Err(e),
        };
        let ghost r0 = result@;
        let ghost rem0 = views(remainders@);
        let mut count: usize = 0;
        let positionals = match self.positionals() {
            Ok(v) => v,
            Err(e) => return Err(e),
        };
        let ghost pos = views(positionals@);
        proof {
            reveal_strlit("$@");
            reveal_strlit("$$");
            reveal_strlit("$");
            reveal_strlit(" ");
        }
        if positionals.len() > 0 {
            if positionals.len() == remainders.len() {
                let mut k: usize = 0;
                assert(pos.skip(0) =~= pos);
                while k < positionals.len()
                    invariant
                        k <= positionals.len(),
                        pos == views(positionals@),
                        remainders@.len() == positionals.len() - k,
                        substitute(result@, pos.skip(k as int), views(remainders@)) == substitute(
                            r0,
                            pos,
                            rem0,
                        ),
                    decreases positionals.len() - k,
                {
                    let ghost before = views(remainders@);
                    let arg = remainders.remove(0);
                    assert(views(remainders@) =~= before.skip(1));
                    assert(pos.skip(k as int)[0] == positionals@[k as int]@);
                    assert(pos.skip(k as int).skip(1) =~= pos.skip(k + 1));
                    result = replace_str(result.as_str(), positionals[k].as_str(), arg.as_str());
                    k = k + 1;
                }
                assert(pos.skip(k as int).len() == 0);
                count = positionals.len();
            } else {
                result = self.name.clone();
            }
        } else if contains_str(result.as_str(), "$@") {
            assert("$@"@ =~= seq!['$', '@']);
            if eol {
                let joined = join_strings(remainders, " ");
                assert(" "@ =~= seq![' ']);
                result = replace_str(result.as_str(), "$@", joined.as_str());
                count = remainders.len();
                remainders.clear();
                assert(views(remainders@) =~= Seq::<Seq<char>>::empty());
            } else {
                result = self.name.clone();
                count = 0;
            }
        } else {
            assert("$@"@ =~= seq!['$', '@']);
        }
        let unescaped = replace_str(result.as_str(), "$$", "$");
        assert("$$"@ =~= seq!['$', '$']);
        assert("$"@ =~= seq!['$']);
        Ok((unescaped, count))
    }

    /// The value takes all remaining arguments (`$@`).
    pub fn is_variadic(&self) -> (b: bool)
        ensures
            b == contains(self.value@, seq!['$', '@']),
    {
        let b = contains_str(self.value.as_str(), "$@");
        proof {
            reveal_strlit("$@");
            assert("$@"@ =~= seq!['$', '@']);
        }
        b
    }
}

} // verus!
