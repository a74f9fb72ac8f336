//! Where the configuration lives, its fingerprint, and the cache of alias
//! use counts that survives edits of the configuration.
use vstd::prelude::*;
use crate::cfg::alias::{Alias, AliasView};
use crate::error::{join_path, path_join, AkaError};
use crate::name_map::{map_of, NameMap};
use crate::system::FileSystem;
use crate::text::{owned, same_text, views};

verus! {

// ---------------------------------------------------------------------------
// Locating the configuration
// ---------------------------------------------------------------------------

/// The file names tried in the home directory, in order.
pub open spec fn config_file_names() -> Seq<Seq<char>> {
    seq!["aka.yml"@, "aka.yaml"@, ".aka.yml"@, ".aka.yaml"@]
}

/// The configuration files tried for home directory `home`, in order:
/// `aka.yml` and `aka.yaml` in `~/.config/aka`, then each of
/// [`config_file_names`] in `~`.
pub open spec fn config_candidates(home: Seq<char>) -> Seq<Seq<char>> {
    let dir = path_join(path_join(home, ".config"@), "aka"@);
    seq![path_join(dir, "aka.yml"@), path_join(dir, "aka.yaml"@)] + config_file_names().map_values(
        |f: Seq<char>| path_join(home, f),
    )
}

/// The configuration files tried for `home_dir`; see [`config_candidates`].
pub fn config_candidate_paths(home_dir: &str) -> (r: Vec<String>)
    ensures
        views(r@) == config_candidates(home_dir@),
{
    let config_dir = join_path(join_path(home_dir, ".config").as_str(), "aka");
    let mut r: Vec<String> = Vec::new();
    r.push(join_path(config_dir.as_str(), "aka.yml"));
    r.push(join_path(config_dir.as_str(), "aka.yaml"));
    r.push(join_path(home_dir, "aka.yml"));
    r.push(join_path(home_dir, "aka.yaml"));
    r.push(join_path(home_dir, ".aka.yml"));
    r.push(join_path(home_dir, ".aka.yaml"));
    assert(views(r@) =~= config_candidates(home_dir@));
    r
}

/// The index of the first `true` in `s`, or `s.len()` when there is none.
pub open spec fn first_true(s: Seq<bool>) -> nat
    decreases s.len(),
{
    if s.len() == 0 {
        0
    } else if s[0] {
        0
    } else {
        1 + first_true(s.skip(1))
    }
}

proof fn lemma_first_true(s: Seq<bool>)
    ensures
        first_true(s) <= s.len(),
        first_true(s) < s.len() ==> s[first_true(s) as int],
        forall|j: int| 0 <= j < first_true(s) ==> !s[j],
    decreases s.len(),
{
    if s.len() > 0 && !s[0] {
        lemma_first_true(s.skip(1));
        assert forall|j: int| 0 <= j < first_true(s) implies !s[j] by {
            if j > 0 {
                assert(s[j] == s.skip(1)[j - 1]);
            }
        }
    }
}

/// The error for a configuration that is in none of the places tried.
pub open spec fn not_found_in(e: AkaError, tried: Seq<Seq<char>>, home: Seq<char>, custom: Option<Seq<char>>) -> bool {
    e matches AkaError::ConfigNotFound { attempted_paths, home_dir, custom_path }
        && views(attempted_paths@) == tried && home_dir@ == home && crate::patterns::opt_view(
        custom_path,
    ) == custom
}

/// The configuration found among `candidates`, given whether each is
/// present: the first present one; when none is, the error lists them all.
pub fn choose_config(candidates: &Vec<String>, present: &Vec<bool>, home_dir: &str) -> (r: Result<String, AkaError>)
    requires
        present.len() == candidates.len(),
    ensures
        first_true(present@) < present.len() ==> (r matches Ok(p) && p@ == candidates@[first_true(
            present@,
        ) as int]@),
        first_true(present@) == present.len() ==> (r matches Err(e) && not_found_in(
            e,
            views(candidates@),
            home_dir@,
            None,
        )),
{
    proof {
        lemma_first_true(present@);
    }
    let mut i: usize = 0;
    while i < candidates.len()
        invariant
            i <= candidates.len(),
            present.len() == candidates.len(),
            forall|j: int| 0 <= j < i ==> !present@[j],
            first_true(present@) <= present.len(),
            first_true(present@) < present.len() ==> present@[first_true(present@) as int],
            forall|j: int| 0 <= j < first_true(present@) ==> !present@[j],
        decreases candidates.len() - i,
    {
        if present[i] {
            assert(first_true(present@) == i);
            return Ok(candidates[i].clone());
        }
        i = i + 1;
    }
    Err(
        AkaError::ConfigNotFound {
            attempted_paths: candidates.clone(),
            home_dir: owned(home_dir),
            custom_path: None,
        },
    )
}

/// The configuration path for `home_dir`: the first of the candidates (see
/// [`config_candidates`]) that `fs` reports present, chosen by
/// [`choose_config`]; when it reports none, the error lists them all.
pub fn get_config_path<F: FileSystem>(fs: &F, home_dir: &str) -> (r: Result<String, AkaError>)
    ensures
        r matches Ok(p) ==> config_candidates(home_dir@).contains(p@),
        r matches Err(e) ==> not_found_in(e, config_candidates(home_dir@), home_dir@, None),
{
    let candidates = config_candidate_paths(home_dir);
    let mut present: Vec<bool> = Vec::new();
    let mut i: usize = 0;
    while i < candidates.len()
        invariant
            i <= candidates.len(),
            present.len() == i,
        decreases candidates.len() - i,
    {
        present.push(fs.path_exists(candidates[i].as_str()));
        i = i + 1;
    }
    proof {
        lemma_first_true(present@);
    }
    let r = choose_config(&candidates, &present, home_dir);
    proof {
        if first_true(present@) < present.len() {
            assert(views(candidates@)[first_true(present@) as int] == candidates@[first_true(present@) as int]@);
        }
    }
    r
}

/// The configuration named on the command line, given whether it is
/// present: that path, or an error naming it as the one place tried.
pub fn choose_override(path: &String, present: bool, home_dir: &str) -> (r: Result<String, AkaError>)
    ensures
        present ==> (r matches Ok(p) && p@ == path@),
        !present ==> (r matches Err(e) && not_found_in(e, seq![path@], home_dir@, Some(path@))),
{
    if present {
        Ok(path.clone())
    } else {
        let mut tried: Vec<String> = Vec::new();
        tried.push(path.clone());
        assert(views(tried@) =~= seq![path@]);
        Err(AkaError::ConfigNotFound { attempted_paths: tried, home_dir: owned(home_dir), custom_path: Some(path.clone()) })
    }
}

/// The configuration path: `override_path` when given (an error naming it
/// when `fs` reports it absent; see [`choose_override`]), else as
/// [`get_config_path`] finds it.
pub fn get_config_path_with_override<F: FileSystem>(
    fs: &F,
    home_dir: &str,
    override_path: &Option<String>,
) -> (r: Result<String, AkaError>)
    ensures
        override_path matches Some(o) ==> (r matches Ok(p) ==> p@ == o@),
        override_path matches Some(o) ==> (r matches Err(e) ==> not_found_in(
            e,
            seq![o@],
            home_dir@,
            Some(o@),
        )),
        override_path is None ==> (r matches Ok(p) ==> config_candidates(home_dir@).contains(p@)),
        override_path is None ==> (r matches Err(e) ==> not_found_in(
            e,
            config_candidates(home_dir@),
            home_dir@,
            None,
        )),
{
    match override_path {
        Some(path) => {
            let present = fs.path_exists(path.as_str());
            choose_override(path, present, home_dir)
        },
        None => get_config_path(fs, home_dir),
    }
}

/// `s` as `{:?}` writes a path: in double quotes, with `"`, `\`, tab,
/// carriage return and line feed escaped.
pub open spec fn quoted(s: Seq<char>) -> Seq<char> {
    seq!['"'] + escaped(s) + seq!['"']
}

/// The escaped characters of `s`; see [`quoted`].
pub open spec fn escaped(s: Seq<char>) -> Seq<char>
    decreases s.len(),
{
    if s.len() == 0 {
        Seq::empty()
    } else {
        escaped(s.drop_last()) + escape_char(s.last())
    }
}

/// One character as [`quoted`] writes it.
pub open spec fn escape_char(c: char) -> Seq<char> {
    if c == '"' {
        seq!['\\', '"']
    } else if c == '\\' {
        seq!['\\', '\\']
    } else if c == '\n' {
        seq!['\\', 'n']
    } else if c == '\r' {
        seq!['\\', 'r']
    } else if c == '\t' {
        seq!['\\', 't']
    } else {
        seq![c]
    }
}

/// `s` in double quotes with its special characters escaped; see
/// [`quoted`].
pub fn quote_path(s: &str) -> (r: String)
    ensures
        r@ == quoted(s@),
{
    let v = crate::text::chars_of(s);
    let mut r = String::new();
    crate::text::push_char(&mut r, '"');
    let mut i: usize = 0;
    while i < v.len()
        invariant
            i <= v.len(),
            v@ == s@,
            r@ == seq!['"'] + escaped(v@.take(i as int)),
        decreases v.len() - i,
    {
        let c = v[i];
        if c == '"' || c == '\\' {
            crate::text::push_char(&mut r, '\\');
            crate::text::push_char(&mut r, c);
        } else if c == '\n' {
            crate::text::push_char(&mut r, '\\');
            crate::text::push_char(&mut r, 'n');
        } else if c == '\r' {
            crate::text::push_char(&mut r, '\\');
            crate::text::push_char(&mut r, 'r');
        } else if c == '\t' {
            crate::text::push_char(&mut r, '\\');
            crate::text::push_char(&mut r, 't');
        } else {
            crate::text::push_char(&mut r, c);
        }
        assert(v@.take(i + 1).drop_last() =~= v@.take(i as int));
        i = i + 1;
    }
    assert(v@.take(v.len() as int) =~= v@);
    crate::text::push_char(&mut r, '"');
    r
}

/// Whether the use-count cache goes with the configuration at
/// `config_path`: only the default configuration (`default_path`, when one
/// was found) keeps its counts in the cache.
pub fn cache_applies(config_path: &str, default_path: &Option<String>) -> (b: bool)
    ensures
        b == (default_path matches Some(d) && d@ == config_path@),
{
    match default_path {
        Some(d) => same_text(d.as_str(), config_path),
        None => false,
    }
}

/// The outcome of testing for configuration `file`, given whether it is
/// present: the file, or the error `config "file" not found!`.
pub fn config_result(file: &str, present: bool) -> (r: Result<String, String>)
    ensures
        present ==> (r matches Ok(p) && p@ == file@),
        !present ==> (r matches Err(m) && m@ == "config "@ + quoted(file@) + " not found!"@),
{
    if present {
        return Ok(owned(file));
    }
    let mut m = owned("config ");
    m.append(quote_path(file).as_str());
    m.append(" not found!");
    Err(m)
}

/// `file` when `fs` reports it present; otherwise the error
/// `config "file" not found!` (see [`config_result`]).
pub fn test_config<F: FileSystem>(fs: &F, file: &str) -> (r: Result<String, String>)
    ensures
        r matches Ok(p) ==> p@ == file@,
        r matches Err(m) ==> m@ == "config "@ + quoted(file@) + " not found!"@,
{
    let present = fs.path_exists(file);
    config_result(file, present)
}

// ---------------------------------------------------------------------------
// The configuration's fingerprint
// ---------------------------------------------------------------------------

/// The 64-bit XXH3 hash of `bytes`, as `xxhash_rust::xxh3::xxh3_64` computes
/// it.
pub uninterp spec fn xxh3_hash(bytes: Seq<u8>) -> u64;

/// Hashes `bytes` with `xxhash_rust::xxh3::xxh3_64`. The contract claims
/// only that the result is the value `xxh3_hash` names for these bytes.
#[verifier::external_body]
fn xxh3(bytes: &[u8]) -> (h: u64)
    ensures
        h == xxh3_hash(bytes@),
{
    xxhash_rust::xxh3::xxh3_64(bytes)
}

/// The lowercase hexadecimal digit for `d < 16`.
pub open spec fn hex_digit(d: nat) -> char {
    if d < 10 {
        crate::text::digit_char(d)
    } else if d == 10 {
        'a'
    } else if d == 11 {
        'b'
    } else if d == 12 {
        'c'
    } else if d == 13 {
        'd'
    } else if d == 14 {
        'e'
    } else {
        'f'
    }
}

/// The last `n` hexadecimal digits of `h`, most significant first.
pub open spec fn hex_digits(h: nat, n: nat) -> Seq<char>
    decreases n,
{
    if n == 0 {
        Seq::empty()
    } else {
        hex_digits(h / 16, (n - 1) as nat) + seq![hex_digit(h % 16)]
    }
}

fn hex_digit_of(d: u64) -> (c: char)
    requires
        d < 16,
    ensures
        c == hex_digit(d as nat),
{
    if d < 10 {
        if d == 0 {
            '0'
        } else if d == 1 {
            '1'
        } else if d == 2 {
            '2'
        } else if d == 3 {
            '3'
        } else if d == 4 {
            '4'
        } else if d == 5 {
            '5'
        } else if d == 6 {
            '6'
        } else if d == 7 {
            '7'
        } else if d == 8 {
            '8'
        } else {
            '9'
        }
    } else if d == 10 {
        'a'
    } else if d == 11 {
        'b'
    } else if d == 12 {
        'c'
    } else if d == 13 {
        'd'
    } else if d == 14 {
        'e'
    } else {
        'f'
    }
}

/// `h` as sixteen lowercase hexadecimal digits, as `{:016x}` writes it.
pub fn hex16(h: u64) -> (r: String)
    ensures
        r@ == hex_digits(h as nat, 16),
{
    let mut digits: Vec<char> = Vec::new();
    let mut rest: u64 = h;
    let mut k: usize = 0;
    while k < 16
        invariant
            k <= 16,
            digits@.len() == k,
            hex_digits(h as nat, 16) == hex_digits(rest as nat, (16 - k) as nat) + digits@.reverse(),
        decreases 16 - k,
    {
        let ghost old_digits = digits@;
        let d = rest % 16;
        digits.push(hex_digit_of(d));
        assert(hex_digits(rest as nat, (16 - k) as nat) == hex_digits((rest / 16) as nat, (16 - k - 1) as nat)
            + seq![hex_digit(d as nat)]);
        assert(digits@.reverse() =~= seq![hex_digit(d as nat)] + old_digits.reverse());
        rest = rest / 16;
        k = k + 1;
    }
    let mut r = String::new();
    let mut j: usize = 16;
    assert(hex_digits(rest as nat, 0) =~= Seq::<char>::empty());
    while j > 0
        invariant
            j <= 16,
            digits@.len() == 16,
            hex_digits(h as nat, 16) == digits@.reverse(),
            r@ == digits@.reverse().take(16 - j),
        decreases j,
    {
        crate::text::push_char(&mut r, digits[j - 1]);
        assert(digits@.reverse().take(16 - j + 1) =~= digits@.reverse().take(16 - j).push(
            digits@[j - 1],
        ));
        j = j - 1;
    }
    assert(digits@.reverse().take(16) =~= digits@.reverse());
    r
}

/// The fingerprint of a configuration file's bytes: their XXH3 hash as
/// sixteen hexadecimal digits.
pub fn hash_config_content(content: &[u8]) -> (r: String)
    ensures
        r@ == hex_digits(xxh3_hash(content@) as nat, 16),
{
    hex16(xxh3(content))
}

// ---------------------------------------------------------------------------
// The cache of use counts
// ---------------------------------------------------------------------------

/// Alias `a`, stored under `k`, named `k` when it carries no name of its
/// own (as a cache file may store it).
pub open spec fn named_as(a: AliasView, k: Seq<char>) -> AliasView {
    if a.name.len() == 0 {
        AliasView { name: k, value: a.value, space: a.space, global: a.global, count: a.count }
    } else {
        a
    }
}

/// The aliases of `m`, each unnamed one named after its key.
pub open spec fn with_names(m: Map<Seq<char>, AliasView>) -> Map<Seq<char>, AliasView> {
    Map::new(|k: Seq<char>| m.contains_key(k), |k: Seq<char>| named_as(m[k], k))
}

/// The aliases read from a cache file, each one stored without a name
/// named after its key; see [`with_names`].
pub fn restore_alias_names(aliases: &NameMap<Alias>) -> (r: NameMap<Alias>)
    ensures
        r@ == with_names(aliases@),
{
    let mut r: NameMap<Alias> = NameMap::new();
    let n = aliases.len();
    let ghost ps = aliases.pairs();
    let mut i: usize = 0;
    while i < n
        invariant
            i <= n,
            n == ps.len(),
            ps == aliases.pairs(),
            forall|k: Seq<char>| #[trigger] r@.contains_key(k) <==> exists|j: int| 0 <= j < i && (#[trigger] ps[j]).0 == k,
            forall|j: int| 0 <= j < i ==> r@[(#[trigger] ps[j]).0] == named_as(aliases@[ps[j].0], ps[j].0),
        decreases n - i,
    {
        let key = aliases.name_at(i);
        let mut a = aliases.value_at(i).clone();
        if crate::text::chars_of(a.name.as_str()).len() == 0 {
            a.name = key.clone();
        }
        assert(a@ == named_as(aliases@[ps[i as int].0], ps[i as int].0));
        let ghost before = r@;
        r.insert(key.clone(), a);
        assert forall|k: Seq<char>| #[trigger] r@.contains_key(k) <==> exists|j: int| 0 <= j < i + 1 && (#[trigger] ps[j]).0 == k by {
            if r@.contains_key(k) && k != ps[i as int].0 {
                assert(before.contains_key(k));
            }
            if exists|j: int| 0 <= j < i + 1 && (#[trigger] ps[j]).0 == k {
                let j = choose|j: int| 0 <= j < i + 1 && (#[trigger] ps[j]).0 == k;
                if j < i {
                    assert(before.contains_key(k));
                }
            }
        }
        assert forall|j: int| 0 <= j < i + 1 implies r@[(#[trigger] ps[j]).0] == named_as(aliases@[ps[j].0], ps[j].0) by {
            if j < i && ps[j].0 != ps[i as int].0 {
                assert(before[ps[j].0] == named_as(aliases@[ps[j].0], ps[j].0));
            }
        }
        i = i + 1;
    }
    proof {
        NameMap::<Alias>::lemma_dom(aliases);
        assert forall|k: Seq<char>| #[trigger] r@.contains_key(k) implies r@[k] == named_as(aliases@[k], k) by {
            let j = choose|j: int| 0 <= j < n && (#[trigger] ps[j]).0 == k;
        }
        assert(r@ =~= with_names(aliases@));
    }
    r
}

/// The aliases with their use counts, and the fingerprint of the
/// configuration they were taken from.
pub struct AliasCache {
    pub hash: String,
    pub aliases: NameMap<Alias>,
}

impl Default for AliasCache {
    fn default() -> (c: Self)
        ensures
            c.hash@ == Seq::<char>::empty(),
            c.aliases@ == Map::<Seq<char>, AliasView>::empty(),
    {
        AliasCache { hash: String::new(), aliases: NameMap::new() }
    }
}

/// `a` with the use count that `old` records for `name`, if it records one.
pub open spec fn keep_count(a: AliasView, old: Map<Seq<char>, AliasView>, name: Seq<char>) -> AliasView {
    if old.contains_key(name) {
        AliasView { name: a.name, value: a.value, space: a.space, global: a.global, count: old[name].count }
    } else {
        a
    }
}

/// The aliases `ps`, each with the use count `old` records for its name.
pub open spec fn counts_kept(ps: Seq<(Seq<char>, AliasView)>, old: Map<Seq<char>, AliasView>) -> Map<
    Seq<char>,
    AliasView,
>
    decreases ps.len(),
{
    if ps.len() == 0 {
        Map::empty()
    } else {
        counts_kept(ps.drop_last(), old).insert(ps.last().0, keep_count(ps.last().1, old, ps.last().0))
    }
}

/// The merged aliases are those of the configuration, each carrying the
/// count the cache had for it.
pub proof fn lemma_counts_kept(ps: Seq<(Seq<char>, AliasView)>, old: Map<Seq<char>, AliasView>)
    ensures
        counts_kept(ps, old).dom() == map_of(ps).dom(),
        forall|k: Seq<char>|
            #[trigger] counts_kept(ps, old).contains_key(k) ==> counts_kept(ps, old)[k] == keep_count(
                map_of(ps)[k],
                old,
                k,
            ),
    decreases ps.len(),
{
    if ps.len() > 0 {
        lemma_counts_kept(ps.drop_last(), old);
        assert(counts_kept(ps, old).dom() =~= map_of(ps).dom());
    }
}

/// Merging a cache with a configuration gives exactly the configuration's
/// aliases, each equal to the configuration's definition in name, value,
/// `space` and `global`; only the use count comes from the old cache, where
/// it has the alias (otherwise the configuration's count stays).
pub proof fn law_merge_takes_only_counts_from_cache(
    config: Seq<(Seq<char>, AliasView)>,
    old: Map<Seq<char>, AliasView>,
)
    ensures
        counts_kept(config, old).dom() == map_of(config).dom(),
        forall|k: Seq<char>|
            #[trigger] counts_kept(config, old).contains_key(k) ==> {
                let m = counts_kept(config, old)[k];
                let a = map_of(config)[k];
                &&& m.name == a.name
                &&& m.value == a.value
                &&& m.space == a.space
                &&& m.global == a.global
                &&& m.count == (if old.contains_key(k) { old[k].count } else { a.count })
            },
{
    lemma_counts_kept(config, old);
}

/// A cache for the configuration with fingerprint `new_hash` and aliases
/// `config_aliases`: each alias keeps the use count `old_cache` had for it.
pub fn merge_cache_with_config(old_cache: &AliasCache, new_hash: String, config_aliases: &NameMap<Alias>) -> (r:
    AliasCache)
    ensures
        r.hash == new_hash,
        r.aliases@ == counts_kept(config_aliases.pairs(), old_cache.aliases@),
{
    let mut merged: NameMap<Alias> = NameMap::new();
    let mut i: usize = 0;
    while i < config_aliases.len()
        invariant
            i <= config_aliases.pairs().len(),
            merged@ == counts_kept(config_aliases.pairs().take(i as int), old_cache.aliases@),
        decreases config_aliases.pairs().len() - i,
    {
        let name = config_aliases.name_at(i);
        let mut alias = config_aliases.value_at(i).clone();
        match old_cache.aliases.get(name.as_str()) {
            Some(old_alias) => {
                alias.count = old_alias.count;
            },
            None => {},
        }
        merged.insert(name.clone(), alias);
        let ghost t = config_aliases.pairs().take(i + 1);
        assert(t.drop_last() =~= config_aliases.pairs().take(i as int));
        i = i + 1;
    }
    assert(config_aliases.pairs().take(config_aliases.pairs().len() as int) =~= config_aliases.pairs());
    AliasCache { hash: new_hash, aliases: merged }
}

/// The cache to use for the configuration with fingerprint `current_hash`:
/// the cache as it is when the fingerprints agree, else the merge of its
/// counts into `config_aliases`. The flag says whether it changed (and so
/// should be saved).
pub fn sync_cache_with_config(cache: AliasCache, current_hash: String, config_aliases: &NameMap<Alias>) -> (r:
    (AliasCache, bool))
    ensures
        cache.hash@ == current_hash@ ==> !r.1 && r.0 == cache,
        cache.hash@ != current_hash@ ==> r.1 && r.0.hash == current_hash && r.0.aliases@
            == counts_kept(config_aliases.pairs(), cache.aliases@),
{
    if same_text(cache.hash.as_str(), current_hash.as_str()) {
        (cache, false)
    } else {
        let merged = merge_cache_with_config(&cache, current_hash, config_aliases);
        (merged, true)
    }
}

/// The fingerprint the cache records, if it records one.
pub fn get_stored_hash(cache: &AliasCache) -> (r: Option<String>)
    ensures
        cache.hash@.len() == 0 ==> r is None,
        cache.hash@.len() > 0 ==> (r matches Some(h) && h@ == cache.hash@),
{
    if crate::text::chars_of(cache.hash.as_str()).len() == 0 {
        None
    } else {
        Some(cache.hash.clone())
    }
}

/// Recording the fingerprint needs nothing beyond saving the cache, which
/// carries it; this always succeeds.
pub fn store_hash(hash: &str, home_dir: &str) -> (r: Result<(), String>)
    ensures
        r is Ok,
{
    Ok(())
}

} // verus!
