//! The replacement engine: a command line in, the expanded command line out.
use vstd::prelude::*;
use crate::cfg::alias::{expansion, patterns_compile, Alias, AliasView};
use crate::cfg::loader::first_index_of;
use crate::cfg::spec::{expand_keys, expand_lookups, Spec};
use crate::name_map::NameMap;
use crate::protocol::DaemonResponse;
use crate::system::{lossy_text, CommandOutput, CommandRunner};
use crate::text::{
    chars_of, contains, contains_str, ends_with, has_char, join, join_strings, owned, same_text,
    sort_dedup, sorted_unique, starts_with, string_of_range,
    trim, trim_str, views,
};

verus! {

// ---------------------------------------------------------------------------
// Splitting a command line
// ---------------------------------------------------------------------------

/// The words found in the first `n` characters of `s`, the start of the word
/// being read, and whether a double quote is open. A space outside quotes
/// ends a word; a `!` outside quotes that is the last character of `s` ends a
/// word and is a word of its own.
pub open spec fn split_scan(s: Seq<char>, n: int) -> (Seq<Seq<char>>, int, bool)
    decreases n,
{
    if n <= 0 {
        (Seq::empty(), 0, false)
    } else {
        let (a, st, q) = split_scan(s, n - 1);
        let i = n - 1;
        if s[i] == '"' {
            (a, st, !q)
        } else if s[i] == ' ' && !q {
            (if st != i { a.push(s.subrange(st, i)) } else { a }, i + 1, q)
        } else if s[i] == '!' && !q && i == s.len() - 1 {
            ((if st != i { a.push(s.subrange(st, i)) } else { a }).push(seq!['!']), i + 1, q)
        } else {
            (a, st, q)
        }
    }
}

/// The words of a command line: split on spaces outside double quotes (the
/// quotes stay in the words), empty words dropped, and a trailing unquoted
/// `!` taken as a word of its own.
pub open spec fn split_quoted(s: Seq<char>) -> Seq<Seq<char>> {
    let (a, st, q) = split_scan(s, s.len() as int);
    if st != s.len() {
        a.push(s.subrange(st, s.len() as int))
    } else {
        a
    }
}

impl AKA {
    /// Splits a command line into words; see [`split_quoted`].
    pub fn split_respecting_quotes(cmdline: &str) -> (r: Vec<String>)
        ensures
            views(r@) == split_quoted(cmdline@),
    {
        let chars = chars_of(cmdline);
        let mut args: Vec<String> = Vec::new();
        let mut start: usize = 0;
        let mut in_quotes = false;
        let mut index: usize = 0;
        while index < chars.len()
            invariant
                index <= chars.len(),
                chars@ == cmdline@,
                start <= index,
                split_scan(cmdline@, index as int) == (views(args@), start as int, in_quotes),
            decreases chars.len() - index,
        {
            let ghost before = views(args@);
            let c = chars[index];
            if c == '"' {
                in_quotes = !in_quotes;
            } else if c == ' ' && !in_quotes {
                if start != index {
                    args.push(string_of_range(&chars, start, index));
                }
                start = index + 1;
            } else if c == '!' && !in_quotes && index == chars.len() - 1 {
                if start != index {
                    args.push(string_of_range(&chars, start, index));
                }
                args.push(owned("!"));
                proof {
                    reveal_strlit("!");
                    assert("!"@ =~= seq!['!']);
                }
                start = index + 1;
            }
            assert(views(args@) =~= split_scan(cmdline@, index + 1).0);
            index = index + 1;
        }
        if start != chars.len() {
            args.push(string_of_range(&chars, start, chars.len()));
        }
        assert(views(args@) =~= split_quoted(cmdline@));
        args
    }
}

// ---------------------------------------------------------------------------
// Lookups
// ---------------------------------------------------------------------------

/// `s` with every leading copy of `p` removed, as `str::trim_start_matches`
/// removes them.
pub open spec fn strip_leading(s: Seq<char>, p: Seq<char>) -> Seq<char>
    decreases s.len(),
{
    if p.len() > 0 && starts_with(s, p) {
        strip_leading(s.skip(p.len() as int), p)
    } else {
        s
    }
}

/// `s` with every trailing `c` removed, as `str::trim_end_matches` removes
/// them.
pub open spec fn strip_trailing(s: Seq<char>, c: char) -> Seq<char>
    decreases s.len(),
{
    if s.len() > 0 && s.last() == c {
        strip_trailing(s.drop_last(), c)
    } else {
        s
    }
}

/// A word of the form `lookup:table[key]`.
pub open spec fn is_lookup_word(w: Seq<char>) -> bool {
    starts_with(w, "lookup:"@) && w.contains('[') && ends_with(w, "]"@)
}

/// The table and key that a lookup word names: the table is what precedes
/// the first `[` without its `lookup:` prefixes, the key what follows it
/// without its closing brackets.
pub open spec fn lookup_parts(w: Seq<char>) -> (Seq<char>, Seq<char>) {
    let i = match first_index_of(w, '[') {
        Some(i) => i,
        None => w.len() as int,
    };
    (strip_leading(w.take(i), "lookup:"@), strip_trailing(w.skip(i + 1), ']'))
}

/// What a word is replaced by through the lookup tables, if it is a lookup
/// word whose table and key are defined.
pub open spec fn lookup_value(w: Seq<char>, tables: Map<Seq<char>, Map<Seq<char>, Seq<char>>>) -> Option<
    Seq<char>,
> {
    if is_lookup_word(w) {
        let (t, k) = lookup_parts(w);
        if tables.contains_key(t) && tables[t].contains_key(k) {
            Some(tables[t][k])
        } else {
            None
        }
    } else {
        None
    }
}

proof fn lemma_first_index_of(s: Seq<char>, c: char)
    ensures
        match first_index_of(s, c) {
            Some(i) => 0 <= i < s.len() && s[i] == c && forall|j: int| 0 <= j < i ==> s[j] != c,
            None => !s.contains(c),
        },
    decreases s.len(),
{
    if s.len() > 0 && s[0] != c {
        lemma_first_index_of(s.skip(1), c);
        match first_index_of(s.skip(1), c) {
            Some(i) => {
                assert forall|j: int| 0 <= j < i + 1 implies s[j] != c by {
                    if j > 0 {
                        assert(s[j] == s.skip(1)[j - 1]);
                    }
                }
            },
            None => {
                assert forall|j: int| 0 <= j < s.len() implies s[j] != c by {
                    if j > 0 {
                        assert(s[j] == s.skip(1)[j - 1]);
                    }
                }
            },
        }
    }
}

/// The lookup word's table and key (see [`lookup_parts`]), if `word` is a
/// lookup word.
pub fn parse_lookup_word(word: &str) -> (r: Option<(String, String)>)
    ensures
        r is Some <==> is_lookup_word(word@),
        r matches Some(p) ==> (p.0@, p.1@) == lookup_parts(word@),
{
    proof {
        reveal_strlit("lookup:");
        reveal_strlit("]");
    }
    let w = chars_of(word);
    let pre = chars_of("lookup:");
    if !(crate::text::occurs_at_vec(&w, &pre, 0) && has_char(word, '[') && crate::text::ends_with_str(
        word,
        "]",
    )) {
        return None;
    }
    assert(starts_with(word@, "lookup:"@)) by {
        assert(w@.subrange(0, pre@.len() as int) == pre@);
    }
    let mut i: usize = 0;
    assert(w@.skip(0) =~= w@);
    while i < w.len() && w[i] != '['
        invariant
            i <= w.len(),
            w@ == word@,
            forall|j: int| 0 <= j < i ==> w@[j] != '[',
            first_index_of(w@, '[') == match first_index_of(w@.skip(i as int), '[') {
                Some(k) => Some(k + i),
                None => None,
            },
        decreases w.len() - i,
    {
        assert(w@.skip(i as int).skip(1) =~= w@.skip(i + 1));
        i = i + 1;
    }
    proof {
        lemma_first_index_of(w@, '[');
        if i == w.len() {
            assert(!w@.contains('['));
        }
    }
    assert(i < w.len());
    assert(w@.skip(i as int)[0] == '[');
    assert(first_index_of(w@, '[') == Some(i as int));
    // the table: strip every leading "lookup:"
    let mut a: usize = 0;
    assert(w@.take(i as int).skip(0) =~= w@.take(i as int));
    while i - a >= 7 && crate::text::occurs_at_vec(&w, &pre, a)
        invariant
            a <= i,
            i < w.len(),
            w@ == word@,
            pre@ == "lookup:"@,
            pre@.len() == 7,
            strip_leading(w@.take(i as int), "lookup:"@) == strip_leading(
                w@.subrange(a as int, i as int),
                "lookup:"@,
            ),
        decreases i - a,
    {
        let ghost t = w@.subrange(a as int, i as int);
        assert(t.subrange(0, 7) =~= w@.subrange(a as int, a + 7));
        assert(starts_with(t, "lookup:"@));
        assert(t.skip(7) =~= w@.subrange(a + 7, i as int));
        a = a + 7;
    }
    proof {
        let t = w@.subrange(a as int, i as int);
        if t.len() >= 7 && starts_with(t, "lookup:"@) {
            assert(t.subrange(0, 7) =~= w@.subrange(a as int, a + 7));
        }
    }
    let table = string_of_range(&w, a, i);
    // the key: strip every trailing "]"
    let mut b: usize = w.len();
    assert(w@.skip(i + 1) =~= w@.subrange(i + 1, w.len() as int));
    while b > i + 1 && w[b - 1] == ']'
        invariant
            i + 1 <= b <= w.len(),
            w@ == word@,
            strip_trailing(w@.skip(i + 1), ']') == strip_trailing(
                w@.subrange(i + 1, b as int),
                ']',
            ),
        decreases b,
    {
        assert(w@.subrange(i + 1, b as int).drop_last() =~= w@.subrange(i + 1, b - 1));
        b = b - 1;
    }
    let key = string_of_range(&w, i + 1, b);
    Some((table, key))
}

// ---------------------------------------------------------------------------
// Running a command as root
// ---------------------------------------------------------------------------

/// The command is already written as `$(which ...)` (spaces around it
/// aside).
pub open spec fn already_wrapped(command: Seq<char>) -> bool {
    starts_with(trim(command), "$(which "@) && ends_with(trim(command), ")"@)
}

/// The command holds a space or a shell operator character.
pub open spec fn complex_command(command: Seq<char>) -> bool {
    command.contains(' ') || command.contains('|') || command.contains('&') || command.contains(
        '>',
    ) || command.contains('<') || command.contains(';')
}

/// A command that may be written as `$(which command)` for root: it is not
/// wrapped yet and is a single plain word.
pub open spec fn wrappable(command: Seq<char>) -> bool {
    !already_wrapped(command) && !complex_command(command)
}

/// Whether a command is already written as `$(which ...)`.
pub fn is_already_wrapped(command: &str) -> (b: bool)
    ensures
        b == already_wrapped(command@),
{
    let t = trim_str(command);
    crate::text::starts_with_str(t.as_str(), "$(which ") && crate::text::ends_with_str(
        t.as_str(),
        ")",
    )
}

/// Whether a command holds a space or one of `| & > < ;`.
pub fn is_complex_command(command: &str) -> (b: bool)
    ensures
        b == complex_command(command@),
{
    has_char(command, ' ') || has_char(command, '|') || has_char(command, '&') || has_char(
        command,
        '>',
    ) || has_char(command, '<') || has_char(command, ';')
}

/// The decision to write `command` as `$(which command)` under sudo, given
/// whether the user's `which` finds it and whether root's does: only a plain,
/// unwrapped command that the user has and root lacks.
pub fn sudo_wrap_decision(command: &str, user_has: bool, root_has: bool) -> (b: bool)
    ensures
        b == (wrappable(command@) && user_has && !root_has),
{
    !is_already_wrapped(command) && !is_complex_command(command) && user_has && !root_has
}

/// What a run reported, read as "it ran and succeeded".
pub open spec fn run_succeeded(result: Result<CommandOutput, std::io::Error>) -> bool {
    result matches Ok(out) && out.success
}

/// Whether a run that reported `result` ran and succeeded; see
/// [`run_succeeded`].
pub fn command_succeeded(result: &Result<CommandOutput, std::io::Error>) -> (b: bool)
    ensures
        b == run_succeeded(*result),
{
    match result {
        Ok(out) => out.success,
        Err(_) => false,
    }
}

/// The decision to write `command` as `$(which command)` under sudo, from
/// what `which command` reported as the user (`user_run`) and what
/// `sudo -n which command` reported (`root_run`); see [`sudo_wrap_decision`].
pub fn sudo_wrap_from_runs(
    command: &str,
    user_run: &Result<CommandOutput, std::io::Error>,
    root_run: &Result<CommandOutput, std::io::Error>,
) -> (b: bool)
    ensures
        b == (wrappable(command@) && run_succeeded(*user_run) && !run_succeeded(*root_run)),
{
    let user_has = command_succeeded(user_run);
    let root_has = command_succeeded(root_run);
    sudo_wrap_decision(command, user_has, root_has)
}

/// The views of a list of string slices.
pub open spec fn str_views(xs: Seq<&str>) -> Seq<Seq<char>> {
    xs.map_values(|x: &str| x@)
}

/// The query that asks the user's `which` for `command`: the program
/// `which` with `command` as its one argument.
pub fn which_query<'a>(command: &'a str) -> (q: (&'static str, Vec<&'a str>))
    ensures
        q.0@ == "which"@,
        str_views(q.1@) == seq![command@],
{
    let mut args: Vec<&'a str> = Vec::new();
    args.push(command);
    proof {
        assert(str_views(args@) =~= seq![command@]);
    }
    ("which", args)
}

/// The query that asks root's `which` for `command` without a password
/// prompt: the program `sudo` with the arguments `-n`, `which` and
/// `command`.
pub fn root_which_query<'a>(command: &'a str) -> (q: (&'static str, Vec<&'a str>))
    ensures
        q.0@ == "sudo"@,
        str_views(q.1@) == seq!["-n"@, "which"@, command@],
{
    let mut args: Vec<&'a str> = Vec::new();
    args.push("-n");
    args.push("which");
    args.push(command);
    proof {
        assert(str_views(args@) =~= seq!["-n"@, "which"@, command@]);
    }
    ("sudo", args)
}

/// Asks the runner what decides whether `command` is written as
/// `$(which command)` under sudo, and decides. Returns the decision, what
/// [`which_query`] reported and what [`root_which_query`] reported, each
/// when it was asked: the user's `which` only for a wrappable command
/// (not wrapped already, a single plain word), root's only when the user's
/// succeeded. The command is wrapped exactly when root's was asked and did
/// not succeed.
pub fn sudo_wrap_check<R: CommandRunner>(runner: &R, command: &str) -> (r: (
    bool,
    Option<Result<CommandOutput, std::io::Error>>,
    Option<Result<CommandOutput, std::io::Error>>,
))
    ensures
        r.1 is Some <==> wrappable(command@),
        r.2 is Some <==> (r.1 matches Some(u) && run_succeeded(u)),
        r.0 == (r.2 matches Some(rt) && !run_succeeded(rt)),
{
    if is_already_wrapped(command) || is_complex_command(command) {
        return (false, None, None);
    }
    let (program, args) = which_query(command);
    let user_run = runner.run(program, args.as_slice());
    if !command_succeeded(&user_run) {
        return (false, Some(user_run), None);
    }
    let (program, args) = root_which_query(command);
    let root_run = runner.run(program, args.as_slice());
    let b = sudo_wrap_from_runs(command, &user_run, &root_run);
    (b, Some(user_run), Some(root_run))
}

/// What [`sudo_wrap_check`] reports: the decision and, when they were
/// asked, the user's and root's `which` runs.
pub open spec fn sudo_check_outcome(
    command: Seq<char>,
    r: (bool, Option<Result<CommandOutput, std::io::Error>>, Option<Result<CommandOutput, std::io::Error>>),
) -> bool {
    &&& r.1 is Some <==> wrappable(command)
    &&& r.2 is Some <==> (r.1 matches Some(u) && run_succeeded(u))
    &&& r.0 == (r.2 matches Some(rt) && !run_succeeded(rt))
}

/// Under sudo a command is wrapped as `$(which command)` exactly when it is
/// a plain word, the user's `which` finds it and root's `which` does not: a
/// command root's `which` finds is left as written, and so is one the
/// user's `which` does not find.
pub proof fn law_sudo_wraps_only_what_root_lacks(
    command: Seq<char>,
    r: (bool, Option<Result<CommandOutput, std::io::Error>>, Option<Result<CommandOutput, std::io::Error>>),
)
    requires
        sudo_check_outcome(command, r),
    ensures
        r.2 matches Some(Ok(out)) && out.success ==> !r.0,
        r.1 matches Some(u) && !(u matches Ok(out) && out.success) ==> !r.0,
        r.0 ==> !already_wrapped(command) && !complex_command(command),
        (!already_wrapped(command) && !complex_command(command) && (r.1 matches Some(Ok(u)) && u.success)
            && !(r.2 matches Some(Ok(rt)) && rt.success)) ==> r.0,
{
}

/// Whether `command` should be written as `$(which command)` under sudo;
/// see [`sudo_wrap_check`], which also reports the runs it decided on. The
/// runner's answers are the machine's, so the contract states only that a
/// wrapped command is wrappable.
pub fn needs_sudo_wrapping<R: CommandRunner>(runner: &R, command: &str) -> (b: bool)
    ensures
        b ==> wrappable(command@),
{
    let (b, _, _) = sudo_wrap_check(runner, command);
    b
}

/// A path that `which` printed lies where a user installs tools.
pub open spec fn user_tool_location(path: Seq<char>, home: Seq<char>) -> bool {
    contains(path, "/.cargo/bin/"@) || contains(path, "/.local/bin/"@) || contains(path, "/home/"@)
        || starts_with(path, home)
}

/// Whether the (trimmed) path `which` printed is under `~/.cargo/bin`,
/// `~/.local/bin`, `/home/` or the home directory `home`.
pub fn is_user_tool_path(path: &str, home: &str) -> (b: bool)
    ensures
        b == user_tool_location(path@, home@),
{
    contains_str(path, "/.cargo/bin/") || contains_str(path, "/.local/bin/") || contains_str(
        path,
        "/home/",
    ) || crate::text::starts_with_str(path, home)
}

/// What `which` reported, read as "it found the command where a user
/// installs tools": it succeeded and printed (trimmed) such a path.
pub open spec fn found_user_tool(result: Result<CommandOutput, std::io::Error>, home: Seq<char>) -> bool {
    result matches Ok(out) && out.success && user_tool_location(trim(lossy_text(out.stdout@)), home)
}

/// Whether the `which` run that reported `result` found a user-installed
/// tool; see [`found_user_tool`].
pub fn user_tool_found(result: &Result<CommandOutput, std::io::Error>, home: &str) -> (b: bool)
    ensures
        b == found_user_tool(*result, home@),
{
    match result {
        Ok(out) => {
            if out.success {
                let printed = out.stdout_str();
                let path = trim_str(printed.as_str());
                is_user_tool_path(path.as_str(), home)
            } else {
                false
            }
        },
        Err(_) => false,
    }
}

/// Whether `which` finds `command` in a place where a user installs tools,
/// so that sudo should keep the user's environment: asks the runner
/// [`which_query`] and reads its answer with [`user_tool_found`]. The
/// runner's answer is the machine's, so nothing is stated of the result.
pub fn is_user_installed_tool<R: CommandRunner>(runner: &R, command: &str, home: &str) -> (b: bool) {
    let (program, args) = which_query(command);
    let result = runner.run(program, args.as_slice());
    user_tool_found(&result, home)
}

// ---------------------------------------------------------------------------
// Before expansion: `!`, `!binary` and `sudo`
// ---------------------------------------------------------------------------

/// A word that begins with `-`.
pub open spec fn is_flag(w: Seq<char>) -> bool {
    w.len() > 0 && w[0] == '-'
}

/// One of the shell operators `|`, `>` and `<`.
pub open spec fn is_shell_operator(w: Seq<char>) -> bool {
    w == seq!['|'] || w == seq!['>'] || w == seq!['<']
}

/// The words with every flag dropped, up to the first shell operator; from
/// there on every word stays.
pub open spec fn drop_flags(ws: Seq<Seq<char>>) -> Seq<Seq<char>>
    decreases ws.len(),
{
    if ws.len() == 0 {
        ws
    } else if is_flag(ws[0]) {
        drop_flags(ws.skip(1))
    } else if is_shell_operator(ws[0]) {
        ws
    } else {
        seq![ws[0]] + drop_flags(ws.skip(1))
    }
}

/// The words after the trailing `!` forms are read (only at the end of a
/// line): a last word `!` is dropped and asks for sudo; a last word `!bin`
/// puts `bin` in place of the first word, drops the flags before the first
/// shell operator and is dropped itself. Also returns whether sudo was asked
/// for and whether the words changed.
pub open spec fn bang_phase(args: Seq<Seq<char>>, eol: bool) -> (Seq<Seq<char>>, bool, bool) {
    if eol && args.len() > 0 {
        let last = args.last();
        if last == seq!['!'] {
            (args.drop_last(), true, false)
        } else if last.len() > 0 && last[0] == '!' {
            ((seq![last.skip(1)] + drop_flags(args.skip(1))).drop_last(), false, true)
        } else {
            (args, false, false)
        }
    } else {
        (args, false, false)
    }
}

/// The sudo options that take a value.
pub open spec fn takes_value(f: Seq<char>) -> bool {
    f == "-u"@ || f == "-g"@ || f == "-C"@ || f == "-s"@ || f == "-r"@ || f == "-t"@
}

/// The options that follow `sudo` (with the values of those that take one)
/// and the words after them.
pub open spec fn sudo_options(ws: Seq<Seq<char>>) -> (Seq<Seq<char>>, Seq<Seq<char>>)
    decreases ws.len(),
{
    if ws.len() > 0 && is_flag(ws[0]) {
        let f = ws[0];
        let ys = ws.skip(1);
        if takes_value(f) && ys.len() > 0 && !is_flag(ys[0]) {
            let (fl, r) = sudo_options(ys.skip(1));
            (seq![f, ys[0]] + fl, r)
        } else {
            let (fl, r) = sudo_options(ys);
            (seq![f] + fl, r)
        }
    } else {
        (Seq::empty(), ws)
    }
}

/// What a command line amounts to before its words are expanded.
pub enum Prep {
    /// Nothing to do: the answer is empty.
    Blank,
    /// Only `sudo` and its options: the answer is this text.
    SudoOnly(Seq<char>),
    /// Words to expand, whether to run them under sudo, whether they changed
    /// already, and the sudo command with its options.
    Ready { args: Seq<Seq<char>>, sudo: bool, replaced: bool, prefix: Seq<char> },
}

/// Reads the trailing `!` forms and a leading `sudo` off a command line.
pub open spec fn prepare(cmdline: Seq<char>, eol: bool) -> Prep {
    let a0 = split_quoted(cmdline);
    if a0.len() == 0 {
        Prep::Blank
    } else {
        let (a1, s1, r1) = bang_phase(a0, eol);
        if s1 && a1.len() == 0 {
            Prep::Blank
        } else if a1.len() > 0 && a1[0] == "sudo"@ {
            let (fl, rest) = sudo_options(a1.skip(1));
            let all = seq!["sudo"@] + fl;
            if rest.len() == 0 {
                Prep::SudoOnly(join(all, " "@) + " "@)
            } else {
                Prep::Ready { args: rest, sudo: true, replaced: r1, prefix: join(all, " "@) }
            }
        } else {
            Prep::Ready { args: a1, sudo: s1, replaced: r1, prefix: "sudo"@ }
        }
    }
}

// ---------------------------------------------------------------------------
// Expansion, one word at a time
// ---------------------------------------------------------------------------

/// The state of the expansion: the words, the position of the word at hand,
/// whether anything changed, the text that ends the line, and the aliases
/// (whose counts grow as they are used).
pub struct Pass {
    pub args: Seq<Seq<char>>,
    pub pos: nat,
    pub replaced: bool,
    pub space: Seq<char>,
    pub aliases: Map<Seq<char>, AliasView>,
}

/// One step of the expansion.
pub enum Step {
    Next(Pass),
    /// An alias could not be expanded (its patterns did not compile).
    Fail,
    /// A use count would pass its maximum.
    Stuck,
}

/// The text that ends the line after alias `a` was used.
pub open spec fn space_of(a: AliasView) -> Seq<char> {
    if a.space {
        seq![' ']
    } else {
        Seq::empty()
    }
}

/// An alias is not expanded when the command line already holds its
/// expansion: a global alias whose value occurs anywhere in it, or a
/// command alias whose value begins it.
pub open spec fn recursion_guard(a: AliasView, cmdline: Seq<char>, pos: nat) -> bool {
    (a.global && contains(cmdline, a.value)) || (!a.global && pos == 0 && starts_with(cmdline, a.value))
}

/// The word at `p.pos` replaced by `parts` and the `count` words after it
/// dropped; the position moves on by one.
pub open spec fn advance(
    p: Pass,
    aliases: Map<Seq<char>, AliasView>,
    parts: Seq<Seq<char>>,
    count: nat,
    used: bool,
    sp: Seq<char>,
) -> Pass {
    Pass {
        args: p.args.take(p.pos as int) + parts + p.args.skip((p.pos + 1 + count) as int),
        pos: p.pos + 1,
        replaced: p.replaced || used,
        space: if used { sp } else { p.space },
        aliases,
    }
}

/// `a` with its use count one higher.
pub open spec fn counted(a: AliasView) -> AliasView {
    AliasView { name: a.name, value: a.value, space: a.space, global: a.global, count: (a.count + 1) as u64 }
}

/// One step on the word at `p.pos`: a lookup word is replaced by its value
/// (and looked at again); an alias usable there (any alias as the first
/// word, a global one anywhere) is expanded against the words after it,
/// unless the recursion guard holds; the result is split into words.
pub open spec fn step(
    p: Pass,
    cmdline: Seq<char>,
    eol: bool,
    tables: Map<Seq<char>, Map<Seq<char>, Seq<char>>>,
) -> Step {
    let cur = p.args[p.pos as int];
    match lookup_value(cur, tables) {
        Some(rep) => Step::Next(
            Pass {
                args: p.args.update(p.pos as int, rep),
                pos: p.pos,
                replaced: true,
                space: p.space,
                aliases: p.aliases,
            },
        ),
        None => {
            if p.aliases.contains_key(cur) && (p.pos == 0 || p.aliases[cur].global) {
                let a = p.aliases[cur];
                if recursion_guard(a, cmdline, p.pos) {
                    Step::Next(advance(p, p.aliases, split_quoted(cur), 0, false, space_of(a)))
                } else if !patterns_compile() {
                    Step::Fail
                } else {
                    let e = expansion(a, p.aliases, p.args.skip(p.pos + 1 as int), eol);
                    let used = e.0 != a.name;
                    if used && a.count == u64::MAX {
                        Step::Stuck
                    } else {
                        let al = if used {
                            p.aliases.insert(cur, counted(a))
                        } else {
                            p.aliases
                        };
                        Step::Next(advance(p, al, split_quoted(e.0), e.1, used, space_of(a)))
                    }
                }
            } else {
                Step::Next(advance(p, p.aliases, split_quoted(cur), 0, false, seq![' ']))
            }
        }
    }
}

/// How the expansion ends.
pub enum Outcome {
    /// Every word was seen.
    Done(Pass),
    /// An alias could not be expanded; the aliases as they were then.
    Failed(Map<Seq<char>, AliasView>),
}

/// The expansion from `p` within `fuel` steps; `None` if it takes longer or
/// a use count would overflow.
pub open spec fn run(
    p: Pass,
    cmdline: Seq<char>,
    eol: bool,
    tables: Map<Seq<char>, Map<Seq<char>, Seq<char>>>,
    fuel: nat,
) -> Option<Outcome>
    decreases fuel,
{
    if fuel == 0 {
        None
    } else if p.pos >= p.args.len() {
        Some(Outcome::Done(p))
    } else {
        match step(p, cmdline, eol, tables) {
            Step::Next(q) => run(q, cmdline, eol, tables, (fuel - 1) as nat),
            Step::Fail => Some(Outcome::Failed(p.aliases)),
            Step::Stuck => None,
        }
    }
}

/// The state the expansion starts from.
pub open spec fn initial_pass(args: Seq<Seq<char>>, replaced: bool, aliases: Map<Seq<char>, AliasView>) -> Pass {
    Pass { args, pos: 0, replaced, space: seq![' '], aliases }
}

/// A number of steps within which the expansion from `p` ends, if there is
/// one.
pub open spec fn halting_fuel(
    p: Pass,
    cmdline: Seq<char>,
    eol: bool,
    tables: Map<Seq<char>, Map<Seq<char>, Seq<char>>>,
) -> nat {
    choose|f: nat| #[trigger] run(p, cmdline, eol, tables, f) is Some
}

/// How the expansion from `p` ends.
pub open spec fn outcome(
    p: Pass,
    cmdline: Seq<char>,
    eol: bool,
    tables: Map<Seq<char>, Map<Seq<char>, Seq<char>>>,
) -> Option<Outcome> {
    run(p, cmdline, eol, tables, halting_fuel(p, cmdline, eol, tables))
}

/// The line that the expanded words give: under sudo, the sudo command (with
/// `-E` added for a user-installed tool, `env`) goes first and the command is
/// written as `$(which ...)` when `wrap`; the line ends with `space`. When
/// nothing changed and no sudo was asked for, the answer is empty.
pub open spec fn finish(
    args: Seq<Seq<char>>,
    replaced: bool,
    space: Seq<char>,
    sudo: bool,
    prefix: Seq<char>,
    wrap: bool,
    env: bool,
) -> Seq<char> {
    if replaced || sudo {
        let words = if sudo {
            let a = if wrap {
                args.update(0, "$(which "@ + args[0] + ")"@)
            } else {
                args
            };
            let pre = if env && !contains(prefix, "-E"@) {
                prefix + " -E"@
            } else {
                prefix
            };
            seq![pre] + a
        } else {
            args
        };
        join(words, " "@) + space
    } else {
        Seq::empty()
    }
}

/// The expansion of a command line ends, without overflowing a use count,
/// and leaves a command when sudo is asked for. (Where it does not, the
/// replacement would not return.)
pub open spec fn replace_defined(
    cmdline: Seq<char>,
    eol: bool,
    aliases: Map<Seq<char>, AliasView>,
    tables: Map<Seq<char>, Map<Seq<char>, Seq<char>>>,
) -> bool {
    match prepare(cmdline, eol) {
        Prep::Ready { args, sudo, replaced, prefix } => {
            let p0 = initial_pass(args, replaced, aliases);
            &&& exists|f: nat| #[trigger] run(p0, cmdline, eol, tables, f) is Some
            &&& (sudo ==> (outcome(p0, cmdline, eol, tables) matches Some(Outcome::Done(p)) ==> p.args.len() > 0))
        },
        _ => true,
    }
}

/// `r` is the line that the expanded state `p` gives (see [`finish`]) for
/// some answers of the system about the command, where only a wrappable
/// command is ever wrapped.
pub open spec fn finished_as(r: Result<String, String>, p: Pass, sudo: bool, prefix: Seq<char>) -> bool {
    &&& r is Ok
    &&& exists|w: bool, e: bool|
        (w ==> wrappable(p.args[0])) && #[trigger] finish(p.args, p.replaced, p.space, sudo, prefix, w, e)
            == r->Ok_0@
}

/// What replacing a command line gives, `r`, and the aliases after it,
/// `after`: empty for a blank line or a lone `!`; the sudo options for a line
/// of only those; otherwise the expanded line (see [`finish`]), where only a
/// wrappable command is ever wrapped, or an error when an alias could not be
/// expanded.
pub open spec fn replacement(
    cmdline: Seq<char>,
    eol: bool,
    aliases: Map<Seq<char>, AliasView>,
    tables: Map<Seq<char>, Map<Seq<char>, Seq<char>>>,
    r: Result<String, String>,
    after: Map<Seq<char>, AliasView>,
) -> bool {
    match prepare(cmdline, eol) {
        Prep::Blank => r matches Ok(s) && s@ == Seq::<char>::empty() && after == aliases,
        Prep::SudoOnly(t) => r matches Ok(s) && s@ == t && after == aliases,
        Prep::Ready { args, sudo, replaced, prefix } => match outcome(
            initial_pass(args, replaced, aliases),
            cmdline,
            eol,
            tables,
        ) {
            Some(Outcome::Failed(m)) => r is Err && after == m,
            Some(Outcome::Done(p)) => after == p.aliases && finished_as(r, p, sudo, prefix),
            None => false,
        },
    }
}

/// The text that ends a line: one space, or nothing.
pub open spec fn space_text(on: bool) -> Seq<char> {
    if on {
        seq![' ']
    } else {
        Seq::empty()
    }
}

proof fn lemma_expansion_count(
    a: AliasView,
    m: Map<Seq<char>, AliasView>,
    rem: Seq<Seq<char>>,
    eol: bool,
)
    ensures
        expansion(a, m, rem, eol).1 <= rem.len(),
{
}

/// Runs with different fuel that both end agree.
proof fn lemma_run_fuel_agree(
    p: Pass,
    cmdline: Seq<char>,
    eol: bool,
    tables: Map<Seq<char>, Map<Seq<char>, Seq<char>>>,
    f1: nat,
    f2: nat,
)
    requires
        run(p, cmdline, eol, tables, f1) is Some,
        run(p, cmdline, eol, tables, f2) is Some,
    ensures
        run(p, cmdline, eol, tables, f1) == run(p, cmdline, eol, tables, f2),
    decreases f1,
{
    if p.pos < p.args.len() {
        match step(p, cmdline, eol, tables) {
            Step::Next(q) => {
                lemma_run_fuel_agree(q, cmdline, eol, tables, (f1 - 1) as nat, (f2 - 1) as nat);
            },
            _ => {},
        }
    }
}

/// A run that ends within `f` steps is how the expansion ends.
proof fn lemma_outcome_is_run(
    p: Pass,
    cmdline: Seq<char>,
    eol: bool,
    tables: Map<Seq<char>, Map<Seq<char>, Seq<char>>>,
    f: nat,
)
    ensures
        run(p, cmdline, eol, tables, f) is Some ==> outcome(p, cmdline, eol, tables) == run(p, cmdline, eol, tables, f),
{
    if run(p, cmdline, eol, tables, f) is Some {
        let h = halting_fuel(p, cmdline, eol, tables);
        assert(run(p, cmdline, eol, tables, h) is Some);
        lemma_run_fuel_agree(p, cmdline, eol, tables, f, h);
    }
}

/// The expansion of `cmdline` ends within `fuel` steps and, under sudo,
/// leaves a command to run.
pub open spec fn ends_within(
    cmdline: Seq<char>,
    eol: bool,
    aliases: Map<Seq<char>, AliasView>,
    tables: Map<Seq<char>, Map<Seq<char>, Seq<char>>>,
    fuel: nat,
) -> bool {
    match prepare(cmdline, eol) {
        Prep::Ready { args, sudo, replaced, prefix } => {
            let p0 = initial_pass(args, replaced, aliases);
            &&& run(p0, cmdline, eol, tables, fuel) is Some
            &&& (sudo ==> (run(p0, cmdline, eol, tables, fuel) matches Some(Outcome::Done(p)) ==> p.args.len() > 0))
        },
        _ => true,
    }
}

/// A copy of a map of aliases.
fn copy_aliases(m: &NameMap<Alias>) -> (r: NameMap<Alias>)
    ensures
        r@ == m@,
{
    let mut r: NameMap<Alias> = NameMap::new();
    let n = m.len();
    let ghost ps = m.pairs();
    let mut i: usize = 0;
    while i < n
        invariant
            i <= n,
            n == ps.len(),
            ps == m.pairs(),
            forall|k: Seq<char>| #[trigger] r@.contains_key(k) <==> exists|j: int| 0 <= j < i && (#[trigger] ps[j]).0 == k,
            forall|j: int| 0 <= j < i ==> r@[(#[trigger] ps[j]).0] == m@[ps[j].0],
        decreases n - i,
    {
        let key = m.name_at(i);
        let a = m.value_at(i).clone();
        let ghost before = r@;
        r.insert(key.clone(), a);
        assert forall|k: Seq<char>| #[trigger] r@.contains_key(k) <==> exists|j: int| 0 <= j < i + 1 && (#[trigger] ps[j]).0 == k by {
            if r@.contains_key(k) && k != ps[i as int].0 {
                assert(before.contains_key(k));
            }
            if exists|j: int| 0 <= j < i + 1 && (#[trigger] ps[j]).0 == k {
                let j = choose|j: int| 0 <= j < i + 1 && (#[trigger] ps[j]).0 == k;
                if j < i {
                    assert(before.contains_key(k));
                }
            }
        }
        assert forall|j: int| 0 <= j < i + 1 implies r@[(#[trigger] ps[j]).0] == m@[ps[j].0] by {
            if j < i && ps[j].0 != ps[i as int].0 {
                assert(before[ps[j].0] == m@[ps[j].0]);
            }
        }
        i = i + 1;
    }
    proof {
        NameMap::<Alias>::lemma_dom(m);
        assert forall|k: Seq<char>| #[trigger] r@.contains_key(k) implies r@[k] == m@[k] by {
            let j = choose|j: int| 0 <= j < n && (#[trigger] ps[j]).0 == k;
        }
        assert(r@ =~= m@);
    }
    r
}

proof fn lemma_replacement_done(
    cmdline: Seq<char>,
    eol: bool,
    aliases: Map<Seq<char>, AliasView>,
    tables: Map<Seq<char>, Map<Seq<char>, Seq<char>>>,
    r: Result<String, String>,
    after: Map<Seq<char>, AliasView>,
    args: Seq<Seq<char>>,
    sudo: bool,
    replaced: bool,
    prefix: Seq<char>,
    pf: Pass,
    w: bool,
    e: bool,
)
    requires
        prepare(cmdline, eol) == (Prep::Ready { args, sudo, replaced, prefix }),
        outcome(initial_pass(args, replaced, aliases), cmdline, eol, tables) == Some(
            Outcome::Done(pf),
        ),
        after == pf.aliases,
        w ==> wrappable(pf.args[0]),
        r matches Ok(s) && s@ == finish(pf.args, pf.replaced, pf.space, sudo, prefix, w, e),
    ensures
        replacement(cmdline, eol, aliases, tables, r, after),
{
    assert(finished_as(r, pf, sudo, prefix));
}

// ---------------------------------------------------------------------------
// Executable pieces
// ---------------------------------------------------------------------------

/// A copy of the words of `args` from `start` on.
fn words_from(args: &Vec<String>, start: usize) -> (r: Vec<String>)
    requires
        start <= args.len(),
    ensures
        views(r@) == views(args@).skip(start as int),
{
    let mut r: Vec<String> = Vec::new();
    let mut i: usize = start;
    while i < args.len()
        invariant
            start <= i <= args.len(),
            views(r@) == views(args@).subrange(start as int, i as int),
        decreases args.len() - i,
    {
        let w = args[i].clone();
        let ghost old_r = r@;
        r.push(w);
        assert(r@ == old_r.push(w));
        assert(views(r@) =~= views(old_r).push(w@));
        assert(views(r@) =~= views(args@).subrange(start as int, i + 1));
        i = i + 1;
    }
    assert(views(args@).subrange(start as int, args.len() as int) =~= views(args@).skip(start as int));
    r
}

/// `args` with the word at `pos` replaced by `parts` and the `skip` words
/// after it dropped.
fn splice_words(args: &Vec<String>, pos: usize, parts: &Vec<String>, skip: usize) -> (r: Vec<String>)
    requires
        pos < args.len(),
        skip <= args.len() - pos - 1,
    ensures
        views(r@) == views(args@).take(pos as int) + views(parts@) + views(args@).skip(
            pos + 1 + skip,
        ),
{
    let mut r: Vec<String> = Vec::new();
    let mut i: usize = 0;
    while i < pos
        invariant
            i <= pos < args.len(),
            views(r@) == views(args@).take(i as int),
        decreases pos - i,
    {
        let w = args[i].clone();
        let ghost old_r = r@;
        r.push(w);
        assert(r@ == old_r.push(w));
        assert(views(r@) =~= views(old_r).push(w@));
        assert(views(r@) =~= views(args@).take(i + 1));
        i = i + 1;
    }
    let mut j: usize = 0;
    while j < parts.len()
        invariant
            j <= parts.len(),
            views(r@) == views(args@).take(pos as int) + views(parts@).take(j as int),
        decreases parts.len() - j,
    {
        let w = parts[j].clone();
        let ghost old_r = r@;
        r.push(w);
        assert(r@ == old_r.push(w));
        assert(views(r@) =~= views(old_r).push(w@));
        assert(views(r@) =~= views(args@).take(pos as int) + views(parts@).take(j + 1));
        j = j + 1;
    }
    assert(views(parts@).take(parts.len() as int) =~= views(parts@));
    let mut rest = words_from(args, pos + 1 + skip);
    let ghost before = views(r@);
    let ghost added = views(rest@);
    r.append(&mut rest);
    assert(views(r@) =~= before + added);
    r
}

/// The word begins with `-`.
fn is_flag_word(w: &str) -> (b: bool)
    ensures
        b == is_flag(w@),
{
    let c = chars_of(w);
    c.len() > 0 && c[0] == '-'
}

/// The word is one of `|`, `>`, `<`.
fn is_shell_operator_word(w: &str) -> (b: bool)
    ensures
        b == is_shell_operator(w@),
{
    proof {
        reveal_strlit("|");
        reveal_strlit(">");
        reveal_strlit("<");
        assert("|"@ =~= seq!['|']);
        assert(">"@ =~= seq!['>']);
        assert("<"@ =~= seq!['<']);
    }
    same_text(w, "|") || same_text(w, ">") || same_text(w, "<")
}

/// The sudo option takes a value.
fn takes_value_word(f: &str) -> (b: bool)
    ensures
        b == takes_value(f@),
{
    same_text(f, "-u") || same_text(f, "-g") || same_text(f, "-C") || same_text(f, "-s")
        || same_text(f, "-r") || same_text(f, "-t")
}

/// Reads the trailing `!` forms; see [`bang_phase`].
fn apply_bang(args: Vec<String>, eol: bool) -> (r: (Vec<String>, bool, bool))
    requires
        args.len() > 0,
    ensures
        (views(r.0@), r.1, r.2) == bang_phase(views(args@), eol),
{
    if !eol {
        return (args, false, false);
    }
    let n = args.len();
    let ghost va = views(args@);
    proof {
        reveal_strlit("!");
        assert("!"@ =~= seq!['!']);
    }
    if same_text(args[n - 1].as_str(), "!") {
        let mut a = args;
        a.pop();
        assert(views(a@) =~= va.drop_last());
        return (a, true, false);
    }
    let lc = chars_of(args[n - 1].as_str());
    if lc.len() > 0 && lc[0] == '!' {
        let binary = string_of_range(&lc, 1, lc.len());
        assert(binary@ =~= va.last().skip(1));
        let ghost target = seq![va.last().skip(1)] + drop_flags(va.skip(1));
        let mut out: Vec<String> = Vec::new();
        out.push(binary);
        let mut i: usize = 1;
        while i < n
            invariant
                1 <= i <= n,
                n == args.len(),
                va == views(args@),
                views(out@) + drop_flags(va.skip(i as int)) == target,
            decreases n - i,
        {
            assert(va.skip(i as int)[0] == args@[i as int]@);
            assert(va.skip(i as int).skip(1) =~= va.skip(i + 1));
            if is_flag_word(args[i].as_str()) {
                i = i + 1;
            } else if is_shell_operator_word(args[i].as_str()) {
                let mut rest = words_from(&args, i);
                let ghost before = views(out@);
                let ghost added = views(rest@);
                out.append(&mut rest);
                assert(views(out@) =~= before + added);
                assert(va.skip(n as int) =~= Seq::<Seq<char>>::empty());
                assert(views(out@) =~= target);
                i = n;
            } else {
                let ghost before = views(out@);
                out.push(args[i].clone());
                assert(views(out@) =~= before.push(va[i as int]));
                assert(seq![va[i as int]] + drop_flags(va.skip(i + 1)) == drop_flags(va.skip(i as int)));
                assert(before + drop_flags(va.skip(i as int)) =~= views(out@) + drop_flags(va.skip(i + 1)));
                i = i + 1;
            }
        }
        assert(va.skip(n as int) =~= Seq::<Seq<char>>::empty());
        assert(views(out@) =~= target);
        let ghost before = views(out@);
        out.pop();
        assert(views(out@) =~= before.drop_last());
        return (out, false, true);
    }
    (args, false, false)
}

/// The options after `sudo` and the words after them, from position `start`
/// of `ws`; see [`sudo_options`].
fn take_sudo_options(ws: &Vec<String>, start: usize) -> (r: (Vec<String>, Vec<String>))
    requires
        start <= ws.len(),
    ensures
        (views(r.0@), views(r.1@)) == sudo_options(views(ws@).skip(start as int)),
{
    let ghost vw = views(ws@);
    let mut flags: Vec<String> = Vec::new();
    let mut i: usize = start;
    while i < ws.len() && is_flag_word(ws[i].as_str())
        invariant
            start <= i <= ws.len(),
            vw == views(ws@),
            sudo_options(vw.skip(start as int)) == (
                views(flags@) + sudo_options(vw.skip(i as int)).0,
                sudo_options(vw.skip(i as int)).1,
            ),
        decreases ws.len() - i,
    {
        let ghost xs = vw.skip(i as int);
        assert(xs[0] == ws@[i as int]@);
        assert(xs.skip(1) =~= vw.skip(i + 1));
        let ghost before = views(flags@);
        let f = ws[i].clone();
        let tv = takes_value_word(f.as_str());
        flags.push(f);
        i = i + 1;
        if tv && i < ws.len() && !is_flag_word(ws[i].as_str()) {
            assert(xs.skip(1)[0] == ws@[i as int]@);
            assert(xs.skip(1).skip(1) =~= vw.skip(i + 1));
            flags.push(ws[i].clone());
            i = i + 1;
            assert(views(flags@) =~= before + seq![xs[0], xs.skip(1)[0]]);
        } else {
            assert(views(flags@) =~= before + seq![xs[0]]);
        }
    }
    let rest = words_from(ws, i);
    (flags, rest)
}

/// Builds the final line; see [`finish`].
fn finish_line(
    args: &Vec<String>,
    replaced: bool,
    space_on: bool,
    sudo: bool,
    prefix: &String,
    wrap: bool,
    env: bool,
) -> (r: String)
    requires
        sudo ==> args.len() > 0,
    ensures
        r@ == finish(views(args@), replaced, space_text(space_on), sudo, prefix@, wrap, env),
{
    if !(replaced || sudo) {
        return String::new();
    }
    proof {
        reveal_strlit(" ");
        assert(" "@ =~= seq![' ']);
    }
    let mut words: Vec<String> = Vec::new();
    if sudo {
        let ghost va = views(args@);
        let pre = if env && !contains_str(prefix.as_str(), "-E") {
            let mut p = prefix.clone();
            p.append(" -E");
            p
        } else {
            prefix.clone()
        };
        words.push(pre);
        let mut from: usize = 0;
        if wrap {
            let mut w = owned("$(which ");
            w.append(args[0].as_str());
            w.append(")");
            words.push(w);
            from = 1;
        }
        let mut rest = words_from(args, from);
        let ghost before = views(words@);
        let ghost added = views(rest@);
        words.append(&mut rest);
        assert(views(words@) =~= before + added);
        proof {
            let a = if wrap {
                va.update(0, "$(which "@ + va[0] + ")"@)
            } else {
                va
            };
            if wrap {
                assert(a =~= seq![a[0]] + va.skip(1));
            } else {
                assert(va.skip(0) =~= va);
            }
            assert(views(words@) =~= seq![before[0]] + a);
        }
    } else {
        words = words_from(args, 0);
        assert(views(args@).skip(0) =~= views(args@));
    }
    let mut line = join_strings(&words, " ");
    if space_on {
        line.append(" ");
    }
    line
}

// ---------------------------------------------------------------------------
// The engine
// ---------------------------------------------------------------------------

/// Whether a command line is processed by the daemon or in the calling
/// process.
#[derive(Debug, Clone, Copy, PartialEq, Eq, Structural)]
pub enum ProcessingMode {
    Daemon,
    Direct,
}

/// The loaded configuration and what replacement needs besides: whether the
/// line is being completed at its end (`eol`), the hash of the configuration
/// file and the home directory.
pub struct AKA {
    pub eol: bool,
    pub spec: Spec,
    pub config_hash: String,
    pub home_dir: String,
}

impl AKA {
    /// Whether alias `alias` applies at word position `pos`: every alias as
    /// the first word, a global one anywhere.
    pub fn use_alias(&self, alias: &Alias, pos: usize) -> (b: bool)
        ensures
            b == (pos == 0 || alias.global),
    {
        if pos == 0 {
            true
        } else {
            alias.global
        }
    }

    /// The value stored under `key` in lookup table `lookup`.
    fn perform_lookup(&self, key: &str, lookup: &str) -> (r: Option<String>)
        ensures
            r is Some <==> (self.spec.lookups@.contains_key(lookup@)
                && self.spec.lookups@[lookup@].contains_key(key@)),
            r matches Some(v) ==> v@ == self.spec.lookups@[lookup@][key@],
    {
        match self.spec.lookups.get(lookup) {
            Some(table) => match table.get(key) {
                Some(v) => Some(v.clone()),
                None => None,
            },
            None => None,
        }
    }

    /// Expands `alias`, found for word `current_arg` at position `pos`,
    /// against the words after it (`remainders`): unless the recursion guard
    /// holds, in which case the word stays. Returns the text, the number of
    /// words consumed, whether the alias was used (its expansion differs from
    /// its name) and whether a space should end the line.
    fn process_alias_replacement(
        alias: &Alias,
        current_arg: &str,
        cmdline: &str,
        remainders: &mut Vec<String>,
        pos: usize,
        alias_map: &NameMap<Alias>,
        eol: bool,
    ) -> (r: Result<(String, usize, bool, bool), String>)
        ensures
            r matches Ok(t) ==> t.3 == alias.space,
            recursion_guard(alias@, cmdline@, pos as nat) ==> (r matches Ok(t) && t.0@ == current_arg@
                && t.1 == 0 && !t.2),
            !recursion_guard(alias@, cmdline@, pos as nat) ==> (r is Ok <==> patterns_compile()),
            !recursion_guard(alias@, cmdline@, pos as nat) ==> (r matches Ok(t) ==> {
                let e = expansion(alias@, alias_map@, views(old(remainders)@), eol);
                &&& t.0@ == e.0
                &&& t.1 == e.1
                &&& t.2 == (e.0 != alias@.name)
            }),
    {
        if (alias.global && contains_str(cmdline, alias.value.as_str())) || (!alias.global && pos
            == 0 && crate::text::starts_with_str(cmdline, alias.value.as_str())) {
            return Ok((owned(current_arg), 0, false, alias.space));
        }
        match alias.replace(remainders, alias_map, eol) {
            Ok((v, c)) => {
                let used = !same_text(v.as_str(), alias.name.as_str());
                Ok((v, c, used, alias.space))
            },
            Err(e) => Err(e),
        }
    }

    /// Replaces the aliases, lookups and trailing `!` forms of a command line
    /// as [`replacement`] states, counting each use of an alias, and asking
    /// `runner` (`which`, `sudo -n which`) how to run a command under sudo.
    /// The answer is empty when nothing changed. `mode` only says who asks.
    pub fn replace_with_mode<R: CommandRunner>(
        &mut self,
        cmdline: &str,
        mode: ProcessingMode,
        runner: &R,
    ) -> (r: Result<String, String>)
        requires
            replace_defined(cmdline@, old(self).eol, old(self).spec.aliases@, old(self).spec.lookups@),
        ensures
            final(self).eol == old(self).eol,
            final(self).spec.defaults == old(self).spec.defaults,
            final(self).spec.lookups == old(self).spec.lookups,
            final(self).config_hash == old(self).config_hash,
            final(self).home_dir == old(self).home_dir,
            replacement(
                cmdline@,
                old(self).eol,
                old(self).spec.aliases@,
                old(self).spec.lookups@,
                r,
                final(self).spec.aliases@,
            ),
    {
        match self.replace_core(cmdline, runner, None) {
            Some(r) => r,
            None => {
                proof {
                    assert(false);
                }
                Ok(String::new())
            },
        }
    }

    /// Replaces as [`AKA::replace_with_mode`] does when the expansion of
    /// `cmdline` ends within `max_steps` steps and, under sudo, leaves a
    /// command to run (see [`ends_within`]); otherwise changes nothing and
    /// answers `None`. An answer other than `None` shows that the line meets
    /// the condition that [`AKA::replace_with_mode`] requires.
    pub fn replace_within<R: CommandRunner>(
        &mut self,
        cmdline: &str,
        mode: ProcessingMode,
        runner: &R,
        max_steps: u64,
    ) -> (r: Option<Result<String, String>>)
        ensures
            final(self).eol == old(self).eol,
            final(self).spec.defaults == old(self).spec.defaults,
            final(self).spec.lookups == old(self).spec.lookups,
            final(self).config_hash == old(self).config_hash,
            final(self).home_dir == old(self).home_dir,
            r is None <==> !ends_within(
                cmdline@,
                old(self).eol,
                old(self).spec.aliases@,
                old(self).spec.lookups@,
                max_steps as nat,
            ),
            r is None ==> final(self).spec.aliases == old(self).spec.aliases,
            r matches Some(x) ==> replace_defined(cmdline@, old(self).eol, old(self).spec.aliases@, old(self).spec.lookups@)
                && replacement(
                cmdline@,
                old(self).eol,
                old(self).spec.aliases@,
                old(self).spec.lookups@,
                x,
                final(self).spec.aliases@,
            ),
    {
        let mut kept = copy_aliases(&self.spec.aliases);
        std::mem::swap(&mut kept, &mut self.spec.aliases);
        let r = self.replace_core(cmdline, runner, Some(max_steps));
        match r {
            None => {
                self.spec.aliases = kept;
                None
            },
            Some(x) => Some(x),
        }
    }

    /// Replaces the aliases, lookups and trailing `!` forms of a command line
    /// as [`replacement`] states, counting each use of an alias, and asking
    /// `runner` (`which`, `sudo -n which`) how to run a command under sudo.
    /// With a step budget, gives up (`None`) when the expansion does not end
    /// within it (see [`ends_within`]); without one, the expansion must end.
    #[verifier::rlimit(40)]
    #[verifier::spinoff_prover]
    fn replace_core<R: CommandRunner>(
        &mut self,
        cmdline: &str,
        runner: &R,
        budget: Option<u64>,
    ) -> (r: Option<Result<String, String>>)
        requires
            budget is None ==> replace_defined(cmdline@, old(self).eol, old(self).spec.aliases@, old(self).spec.lookups@),
        ensures
            final(self).eol == old(self).eol,
            final(self).spec.defaults == old(self).spec.defaults,
            final(self).spec.lookups == old(self).spec.lookups,
            final(self).config_hash == old(self).config_hash,
            final(self).home_dir == old(self).home_dir,
            r matches Some(x) ==> replace_defined(cmdline@, old(self).eol, old(self).spec.aliases@, old(self).spec.lookups@)
                && replacement(
                cmdline@,
                old(self).eol,
                old(self).spec.aliases@,
                old(self).spec.lookups@,
                x,
                final(self).spec.aliases@,
            ),
            r is None ==> budget is Some,
            budget matches Some(b) ==> (r is None <==> !ends_within(
                cmdline@,
                old(self).eol,
                old(self).spec.aliases@,
                old(self).spec.lookups@,
                b as nat,
            )),
    {
        let ghost eol = self.eol;
        let ghost tables = self.spec.lookups@;
        let ghost al0 = self.spec.aliases@;
        let args0 = Self::split_respecting_quotes(cmdline);
        if args0.len() == 0 {
            return Some(Ok(String::new()));
        }
        let (mut args, sudo_bang, mut replaced) = apply_bang(args0, self.eol);
        let mut sudo = sudo_bang;
        if sudo && args.len() == 0 {
            return Some(Ok(String::new()));
        }
        let mut prefix = owned("sudo");
        if args.len() > 0 && same_text(args[0].as_str(), "sudo") {
            let (mut flags, rest) = take_sudo_options(&args, 1);
            let mut all: Vec<String> = Vec::new();
            all.push(owned("sudo"));
            let ghost fl = views(flags@);
            all.append(&mut flags);
            assert(views(all@) =~= seq!["sudo"@] + fl);
            sudo = true;
            if rest.len() == 0 {
                let mut line = join_strings(&all, " ");
                line.append(" ");
                return Some(Ok(line));
            }
            prefix = join_strings(&all, " ");
            args = rest;
        }
        let ghost p0 = initial_pass(views(args@), replaced, al0);
        assert(prepare(cmdline@, eol) == Prep::Ready {
            args: views(args@),
            sudo,
            replaced,
            prefix: prefix@,
        });
        let ghost fuel0: nat = match budget {
            Some(b) => b as nat,
            None => halting_fuel(p0, cmdline@, eol, tables),
        };
        let ghost result = run(p0, cmdline@, eol, tables, fuel0);
        let ghost mut fuel: nat = fuel0;
        let mut steps_left: u64 = match budget {
            Some(b) => b,
            None => 0,
        };
        let mut pos: usize = 0;
        let mut space_on = true;
        assert(space_text(true) =~= seq![' ']);
        while pos < args.len()
            invariant
                budget is None ==> result is Some,
                budget is None ==> result == outcome(p0, cmdline@, eol, tables),
                result == run(p0, cmdline@, eol, tables, fuel0),
                budget matches Some(b) ==> fuel0 == b as nat && steps_left == fuel,
                run(
                    Pass {
                        args: views(args@),
                        pos: pos as nat,
                        replaced,
                        space: space_text(space_on),
                        aliases: self.spec.aliases@,
                    },
                    cmdline@,
                    eol,
                    tables,
                    fuel,
                ) == result,
                eol == old(self).eol,
                tables == old(self).spec.lookups@,
                al0 == old(self).spec.aliases@,
                p0 == initial_pass(p0.args, p0.replaced, al0),
                prepare(cmdline@, eol) == (Prep::Ready {
                    args: p0.args,
                    sudo,
                    replaced: p0.replaced,
                    prefix: prefix@,
                }),
                budget is None ==> replace_defined(cmdline@, eol, al0, tables),
                self.eol == old(self).eol,
                self.spec.lookups == old(self).spec.lookups,
                self.spec.lookups@ == tables,
                self.spec.defaults == old(self).spec.defaults,
                self.config_hash == old(self).config_hash,
                self.home_dir == old(self).home_dir,
            decreases fuel,
        {
            let ghost p = Pass {
                args: views(args@),
                pos: pos as nat,
                replaced,
                space: space_text(space_on),
                aliases: self.spec.aliases@,
            };
            if budget.is_some() && steps_left == 0 {
                return None;
            }
            assert(fuel > 0);
            let ghost fuel_now = fuel;
            let cur = args[pos].clone();
            assert(cur@ == p.args[pos as int]);
            let mut looked_up = false;
            match parse_lookup_word(cur.as_str()) {
                Some(parts) => {
                    let (table, key) = parts;
                    match self.perform_lookup(key.as_str(), table.as_str()) {
                        Some(rep) => {
                            let ghost rv = rep@;
                            args.set(pos, rep);
                            assert(views(args@) =~= p.args.update(pos as int, rv));
                            replaced = true;
                            looked_up = true;
                        },
                        None => {},
                    }
                },
                None => {},
            }
            if !looked_up {
                assert(lookup_value(cur@, tables) is None);
                let chosen: Option<Alias> = match self.spec.aliases.get(cur.as_str()) {
                    Some(a0) => {
                        if self.use_alias(a0, pos) {
                            Some(a0.clone())
                        } else {
                            None
                        }
                    },
                    None => None,
                };
                match chosen {
                    Some(a) => {
                        let ghost av = a@;
                        assert(p.aliases.contains_key(cur@) && p.aliases[cur@] == av);
                        let mut rem = words_from(&args, pos + 1);
                        let res = Self::process_alias_replacement(
                            &a,
                            cur.as_str(),
                            cmdline,
                            &mut rem,
                            pos,
                            &self.spec.aliases,
                            self.eol,
                        );
                        match res {
                            Err(e) => {
                                assert(step(p, cmdline@, eol, tables) == Step::Fail);
                                proof {
                                    lemma_outcome_is_run(p0, cmdline@, eol, tables, fuel0);
                                }
                                return Some(Err(e));
                            },
                            Ok(t) => {
                                let (value, count, used, sp) = t;
                                proof {
                                    if !recursion_guard(av, cmdline@, pos as nat) {
                                        lemma_expansion_count(
                                            av,
                                            p.aliases,
                                            p.args.skip(pos + 1),
                                            eol,
                                        );
                                    }
                                }
                                if used && a.count == u64::MAX {
                                    assert(step(p, cmdline@, eol, tables) == Step::Stuck);
                                    return None;
                                }
                                if used {
                                    assert(av.count < u64::MAX);
                                    let mut up = a.clone();
                                    up.count = up.count + 1;
                                    assert(up@ == counted(av));
                                    self.spec.aliases.insert(cur.clone(), up);
                                    replaced = true;
                                    space_on = sp;
                                }
                                let pieces = Self::split_respecting_quotes(value.as_str());
                                args = splice_words(&args, pos, &pieces, count);
                                pos = pos + 1;
                                assert(space_text(space_on) == (if used { space_of(av) } else { p.space }));
                            },
                        }
                    },
                    None => {
                        let pieces = Self::split_respecting_quotes(cur.as_str());
                        args = splice_words(&args, pos, &pieces, 0);
                        pos = pos + 1;
                    },
                }
            }
            if budget.is_some() {
                steps_left = steps_left - 1;
            }
            proof {
                fuel = (fuel - 1) as nat;
            }
        }
        if budget.is_some() && steps_left == 0 {
            return None;
        }
        let ghost pf = Pass {
            args: views(args@),
            pos: pos as nat,
            replaced,
            space: space_text(space_on),
            aliases: self.spec.aliases@,
        };
        assert(result == Some(Outcome::Done(pf)));
        let mut wrap = false;
        let mut env = false;
        proof {
            lemma_outcome_is_run(p0, cmdline@, eol, tables, fuel0);
        }
        if sudo && args.len() == 0 {
            return None;
        }
        if sudo {
            assert(pf.args.len() > 0);
            let command = args[0].clone();
            wrap = needs_sudo_wrapping(runner, command.as_str());
            env = is_user_installed_tool(runner, command.as_str(), self.home_dir.as_str());
        }
        let line = finish_line(&args, replaced, space_on, sudo, &prefix, wrap, env);
        assert(wrap ==> wrappable(pf.args[0]));
        assert(finish(pf.args, pf.replaced, pf.space, sudo, prefix@, wrap, env) == line@);
        let r: Result<String, String> = Ok(line);
        proof {
            lemma_replacement_done(
                cmdline@,
                old(self).eol,
                old(self).spec.aliases@,
                old(self).spec.lookups@,
                r,
                self.spec.aliases@,
                p0.args,
                sudo,
                p0.replaced,
                prefix@,
                pf,
                wrap,
                env,
            );
        }
        Some(r)
    }

    /// [`AKA::replace_with_mode`] for a line processed in the calling
    /// process.
    pub fn replace<R: CommandRunner>(&mut self, cmdline: &str, runner: &R) -> (r: Result<String, String>)
        requires
            replace_defined(cmdline@, old(self).eol, old(self).spec.aliases@, old(self).spec.lookups@),
        ensures
            final(self).eol == old(self).eol,
            final(self).spec.defaults == old(self).spec.defaults,
            final(self).spec.lookups == old(self).spec.lookups,
            final(self).config_hash == old(self).config_hash,
            final(self).home_dir == old(self).home_dir,
            replacement(
                cmdline@,
                old(self).eol,
                old(self).spec.aliases@,
                old(self).spec.lookups@,
                r,
                final(self).spec.aliases@,
            ),
    {
        self.replace_with_mode(cmdline, ProcessingMode::Direct, runner)
    }

    /// An engine for configuration `spec`, whose file has fingerprint
    /// `config_hash`: the lookup keys that list several names (`a|b`) are
    /// split, and the aliases are those of `cached_aliases` (the aliases with
    /// their use counts, from the cache of the default configuration) when
    /// given, else those of `spec`.
    pub fn new(
        eol: bool,
        home_dir: String,
        spec: Spec,
        config_hash: String,
        cached_aliases: Option<NameMap<Alias>>,
    ) -> (r: AKA)
        ensures
            r.eol == eol,
            r.home_dir == home_dir,
            r.config_hash == config_hash,
            r.spec.defaults == spec.defaults,
            r.spec.lookups.names() == spec.lookups.names(),
            r.spec.lookups.pairs().len() == spec.lookups.pairs().len(),
            forall|i: int|
                0 <= i < spec.lookups.pairs().len() ==> #[trigger] r.spec.lookups.pairs()[i].1
                    == expand_keys(spec.lookups.value(i).pairs()),
            cached_aliases matches Some(c) ==> r.spec.aliases == c,
            cached_aliases is None ==> r.spec.aliases == spec.aliases,
    {
        let lookups = expand_lookups(&spec.lookups);
        let aliases = match cached_aliases {
            Some(c) => c,
            None => spec.aliases,
        };
        AKA { eol, spec: Spec { defaults: spec.defaults, aliases, lookups }, config_hash, home_dir }
    }
}

/// The steps within which callers expect the expansion of a line to end
/// (one word is looked at per step): the largest `u64`, so that only an
/// expansion that does not end is refused.
pub const MAX_EXPANSION_STEPS: u64 = 18446744073709551615;

/// Whether an answer to a query means use counts must be written to the
/// cache: a non-empty expanded line.
pub fn marks_cache_dirty(result: &Result<String, String>) -> (b: bool)
    ensures
        b == (result matches Ok(s) && s@.len() > 0),
{
    match result {
        Ok(s) => crate::text::chars_of(s.as_str()).len() > 0,
        Err(_) => false,
    }
}

/// The message for a line whose expansion does not end within the steps
/// allowed.
pub open spec fn unending_message() -> Seq<char> {
    "Alias expansion did not end"@
}

/// What a daemon answers a query on its own configuration (with the end of
/// line flag `eol`), and whether use counts must be written to the cache:
/// the expanded line, marked for writing when it is not empty; the error
/// when an alias could not be expanded; and an error, with nothing changed,
/// when the expansion does not end within `max_steps` steps (see
/// [`ends_within`]).
pub fn answer_query<R: CommandRunner>(aka: &mut AKA, cmdline: &str, eol: bool, runner: &R, max_steps: u64) -> (r: (
    DaemonResponse,
    bool,
))
    ensures
        final(aka).eol == eol,
        final(aka).spec.defaults == old(aka).spec.defaults,
        final(aka).spec.lookups == old(aka).spec.lookups,
        final(aka).config_hash == old(aka).config_hash,
        final(aka).home_dir == old(aka).home_dir,
        r.0 is Success || r.0 is Error,
        !ends_within(cmdline@, eol, old(aka).spec.aliases@, old(aka).spec.lookups@, max_steps as nat) ==> {
            &&& r.0 matches DaemonResponse::Error { message } && message@ == unending_message()
            &&& !r.1
            &&& final(aka).spec.aliases == old(aka).spec.aliases
        },
        ends_within(cmdline@, eol, old(aka).spec.aliases@, old(aka).spec.lookups@, max_steps as nat) ==> {
            &&& r.0 matches DaemonResponse::Success { data } ==> replacement(
                cmdline@,
                eol,
                old(aka).spec.aliases@,
                old(aka).spec.lookups@,
                Ok(data),
                final(aka).spec.aliases@,
            ) && r.1 == (data@.len() > 0)
            &&& r.0 matches DaemonResponse::Error { message } ==> replacement(
                cmdline@,
                eol,
                old(aka).spec.aliases@,
                old(aka).spec.lookups@,
                Err(message),
                final(aka).spec.aliases@,
            ) && !r.1
        },
{
    aka.eol = eol;
    match aka.replace_within(cmdline, ProcessingMode::Daemon, runner, max_steps) {
        Some(Ok(data)) => {
            let dirty = marks_cache_dirty(&Ok(data.clone()));
            (DaemonResponse::Success { data }, dirty)
        },
        Some(Err(message)) => (DaemonResponse::Error { message }, false),
        None => (DaemonResponse::Error { message: owned("Alias expansion did not end") }, false),
    }
}

/// The alias names, sorted, for shell completion.
pub fn get_alias_names_for_completion(aka: &AKA) -> (r: Vec<String>)
    ensures
        views(r@) == sort_dedup(aka.spec.aliases.names()),
{
    let names = aka.spec.aliases.keys();
    sorted_unique(&names)
}

// ---------------------------------------------------------------------------
// Laws
// ---------------------------------------------------------------------------

/// `after` holds the same aliases as `before`, with the same names, values
/// and flags; only use counts may have grown.
pub open spec fn counts_only_grew(before: Map<Seq<char>, AliasView>, after: Map<Seq<char>, AliasView>) -> bool {
    &&& after.dom() == before.dom()
    &&& forall|k: Seq<char>|
        #[trigger] before.contains_key(k) ==> {
            &&& after[k].name == before[k].name
            &&& after[k].value == before[k].value
            &&& after[k].space == before[k].space
            &&& after[k].global == before[k].global
            &&& after[k].count >= before[k].count
        }
}

proof fn lemma_counts_only_grew_trans(
    a: Map<Seq<char>, AliasView>,
    b: Map<Seq<char>, AliasView>,
    c: Map<Seq<char>, AliasView>,
)
    requires
        counts_only_grew(a, b),
        counts_only_grew(b, c),
    ensures
        counts_only_grew(a, c),
{
    assert forall|k: Seq<char>| #[trigger] a.contains_key(k) implies {
        &&& c[k].name == a[k].name
        &&& c[k].value == a[k].value
        &&& c[k].space == a[k].space
        &&& c[k].global == a[k].global
        &&& c[k].count >= a[k].count
    } by {
        assert(b.contains_key(k));
    }
}

/// Expansion changes no alias but its use count, which only grows.
pub proof fn lemma_run_counts_only_grow(
    p: Pass,
    cmdline: Seq<char>,
    eol: bool,
    tables: Map<Seq<char>, Map<Seq<char>, Seq<char>>>,
    fuel: nat,
)
    ensures
        run(p, cmdline, eol, tables, fuel) matches Some(Outcome::Done(q)) ==> counts_only_grew(
            p.aliases,
            q.aliases,
        ),
        run(p, cmdline, eol, tables, fuel) matches Some(Outcome::Failed(m)) ==> counts_only_grew(
            p.aliases,
            m,
        ),
    decreases fuel,
{
    assert(counts_only_grew(p.aliases, p.aliases));
    if fuel > 0 && p.pos < p.args.len() {
        match step(p, cmdline, eol, tables) {
            Step::Next(q) => {
                lemma_run_counts_only_grow(q, cmdline, eol, tables, (fuel - 1) as nat);
                let cur = p.args[p.pos as int];
                assert(counts_only_grew(p.aliases, q.aliases)) by {
                    if q.aliases != p.aliases {
                        let a = p.aliases[cur];
                        assert(q.aliases == p.aliases.insert(cur, counted(a)));
                        assert(q.aliases.dom() =~= p.aliases.dom());
                    }
                }
                match run(q, cmdline, eol, tables, (fuel - 1) as nat) {
                    Some(Outcome::Done(r)) => {
                        lemma_counts_only_grew_trans(p.aliases, q.aliases, r.aliases);
                    },
                    Some(Outcome::Failed(m)) => {
                        lemma_counts_only_grew_trans(p.aliases, q.aliases, m);
                    },
                    None => {},
                }
            },
            _ => {},
        }
    }
}

/// Replacing a command line changes no alias of the configuration: names,
/// values and flags stay, and use counts only grow.
pub proof fn law_replacement_only_counts(
    cmdline: Seq<char>,
    eol: bool,
    aliases: Map<Seq<char>, AliasView>,
    tables: Map<Seq<char>, Map<Seq<char>, Seq<char>>>,
    r: Result<String, String>,
    after: Map<Seq<char>, AliasView>,
)
    requires
        replace_defined(cmdline, eol, aliases, tables),
        replacement(cmdline, eol, aliases, tables, r, after),
    ensures
        counts_only_grew(aliases, after),
{
    match prepare(cmdline, eol) {
        Prep::Ready { args, sudo, replaced, prefix } => {
            let p0 = initial_pass(args, replaced, aliases);
            lemma_run_counts_only_grow(p0, cmdline, eol, tables, halting_fuel(p0, cmdline, eol, tables));
        },
        _ => {
            assert(counts_only_grew(aliases, aliases));
        },
    }
}

/// A line of nothing but spaces has no words.
proof fn lemma_blank_scan(s: Seq<char>, n: int)
    requires
        0 <= n <= s.len(),
        forall|i: int| 0 <= i < s.len() ==> s[i] == ' ',
    ensures
        split_scan(s, n) == (Seq::<Seq<char>>::empty(), n, false),
    decreases n,
{
    if n > 0 {
        lemma_blank_scan(s, n - 1);
    }
}

/// A command line of nothing but spaces is answered with the empty line
/// and leaves the aliases as they are.
pub proof fn law_blank_line_unchanged(
    cmdline: Seq<char>,
    eol: bool,
    aliases: Map<Seq<char>, AliasView>,
    tables: Map<Seq<char>, Map<Seq<char>, Seq<char>>>,
    r: Result<String, String>,
    after: Map<Seq<char>, AliasView>,
)
    requires
        forall|i: int| 0 <= i < cmdline.len() ==> cmdline[i] == ' ',
        replacement(cmdline, eol, aliases, tables, r, after),
    ensures
        r matches Ok(s) && s@ == Seq::<char>::empty(),
        after == aliases,
{
    lemma_blank_scan(cmdline, cmdline.len() as int);
    assert(split_quoted(cmdline) =~= Seq::<Seq<char>>::empty());
}

/// Whether expanding `cmdline` changes it: a `sudo` or `!` form, or a
/// lookup or alias that the expansion replaced.
pub open spec fn changes_line(
    cmdline: Seq<char>,
    eol: bool,
    aliases: Map<Seq<char>, AliasView>,
    tables: Map<Seq<char>, Map<Seq<char>, Seq<char>>>,
) -> bool {
    match prepare(cmdline, eol) {
        Prep::Blank => false,
        Prep::SudoOnly(_) => true,
        Prep::Ready { args, sudo, replaced, prefix } => sudo || (outcome(
            initial_pass(args, replaced, aliases),
            cmdline,
            eol,
            tables,
        ) matches Some(Outcome::Done(p)) && p.replaced),
    }
}

/// Once a word was replaced, the expansion ends with the line marked as
/// changed.
proof fn lemma_replaced_stays(
    p: Pass,
    cmdline: Seq<char>,
    eol: bool,
    tables: Map<Seq<char>, Map<Seq<char>, Seq<char>>>,
    fuel: nat,
)
    ensures
        run(p, cmdline, eol, tables, fuel) matches Some(Outcome::Done(q)) ==> (p.replaced ==> q.replaced),
    decreases fuel,
{
    if fuel > 0 && p.pos < p.args.len() {
        match step(p, cmdline, eol, tables) {
            Step::Next(q) => {
                lemma_replaced_stays(q, cmdline, eol, tables, (fuel - 1) as nat);
            },
            _ => {},
        }
    }
}

/// An expansion that replaced no word counted no alias.
proof fn lemma_unreplaced_keeps_aliases(
    p: Pass,
    cmdline: Seq<char>,
    eol: bool,
    tables: Map<Seq<char>, Map<Seq<char>, Seq<char>>>,
    fuel: nat,
)
    ensures
        run(p, cmdline, eol, tables, fuel) matches Some(Outcome::Done(q)) ==> (!q.replaced ==> q.aliases
            == p.aliases),
    decreases fuel,
{
    if fuel > 0 && p.pos < p.args.len() {
        match step(p, cmdline, eol, tables) {
            Step::Next(q) => {
                lemma_unreplaced_keeps_aliases(q, cmdline, eol, tables, (fuel - 1) as nat);
                lemma_replaced_stays(q, cmdline, eol, tables, (fuel - 1) as nat);
            },
            _ => {},
        }
    }
}

/// A line that expansion leaves unchanged is answered with the empty text,
/// which leaves the line as typed, and no alias use is counted.
pub proof fn law_untouched_line_answered_empty(
    cmdline: Seq<char>,
    eol: bool,
    aliases: Map<Seq<char>, AliasView>,
    tables: Map<Seq<char>, Map<Seq<char>, Seq<char>>>,
    r: Result<String, String>,
    after: Map<Seq<char>, AliasView>,
)
    requires
        replacement(cmdline, eol, aliases, tables, r, after),
        !changes_line(cmdline, eol, aliases, tables),
        r is Ok,
    ensures
        r matches Ok(s) && s@ == Seq::<char>::empty(),
        after == aliases,
{
    match prepare(cmdline, eol) {
        Prep::Ready { args, sudo, replaced, prefix } => {
            let p0 = initial_pass(args, replaced, aliases);
            let f = halting_fuel(p0, cmdline, eol, tables);
            lemma_unreplaced_keeps_aliases(p0, cmdline, eol, tables, f);
            match outcome(p0, cmdline, eol, tables) {
                Some(Outcome::Done(p)) => {
                    let (w, e) = choose|w: bool, e: bool|
                        (w ==> wrappable(p.args[0])) && #[trigger] finish(p.args, p.replaced, p.space, sudo, prefix, w, e)
                            == r->Ok_0@;
                    assert(finish(p.args, p.replaced, p.space, sudo, prefix, w, e) == Seq::<char>::empty());
                },
                _ => {},
            }
        },
        _ => {},
    }
}

/// The line is to run under sudo (a trailing `!` or a leading `sudo`).
pub open spec fn runs_under_sudo(cmdline: Seq<char>, eol: bool) -> bool {
    prepare(cmdline, eol) matches Prep::Ready { sudo, .. } && sudo
}

/// Replacement is one relation whatever the processing mode: two answers
/// for the same line, switch and aliases leave the same aliases, succeed
/// together, and give the same text unless the line runs under sudo (where
/// the `$(which …)` and `-E` forms rest on what the runner reports). So
/// daemon and direct mode, and [`AKA::replace`] and
/// [`AKA::replace_with_mode`], answer alike.
pub proof fn law_replacement_determined(
    cmdline: Seq<char>,
    eol: bool,
    aliases: Map<Seq<char>, AliasView>,
    tables: Map<Seq<char>, Map<Seq<char>, Seq<char>>>,
    r1: Result<String, String>,
    after1: Map<Seq<char>, AliasView>,
    r2: Result<String, String>,
    after2: Map<Seq<char>, AliasView>,
)
    requires
        replacement(cmdline, eol, aliases, tables, r1, after1),
        replacement(cmdline, eol, aliases, tables, r2, after2),
    ensures
        after1 == after2,
        r1 is Ok <==> r2 is Ok,
        !runs_under_sudo(cmdline, eol) ==> (r1 matches Ok(s1) ==> (r2 matches Ok(s2) && s1@ == s2@)),
{
    match prepare(cmdline, eol) {
        Prep::Ready { args, sudo, replaced, prefix } => {
            match outcome(initial_pass(args, replaced, aliases), cmdline, eol, tables) {
                Some(Outcome::Done(p)) => {
                    if !sudo {
                        let (w1, e1) = choose|w: bool, e: bool|
                            (w ==> wrappable(p.args[0])) && #[trigger] finish(p.args, p.replaced, p.space, sudo, prefix, w, e)
                                == r1->Ok_0@;
                        let (w2, e2) = choose|w: bool, e: bool|
                            (w ==> wrappable(p.args[0])) && #[trigger] finish(p.args, p.replaced, p.space, sudo, prefix, w, e)
                                == r2->Ok_0@;
                        assert(finish(p.args, p.replaced, p.space, sudo, prefix, w1, e1) == finish(
                            p.args,
                            p.replaced,
                            p.space,
                            sudo,
                            prefix,
                            w2,
                            e2,
                        ));
                    }
                },
                _ => {},
            }
        },
        _ => {},
    }
}

/// The words stay as they are while no word is a lookup with a value or an
/// alias usable where it stands, and every word reads back as itself.
proof fn lemma_plain_words_run(
    p: Pass,
    cmdline: Seq<char>,
    eol: bool,
    tables: Map<Seq<char>, Map<Seq<char>, Seq<char>>>,
    fuel: nat,
)
    requires
        !p.replaced,
        forall|i: int| 0 <= i < p.args.len() ==> lookup_value(#[trigger] p.args[i], tables) is None,
        forall|i: int|
            0 <= i < p.args.len() && p.aliases.contains_key(#[trigger] p.args[i]) ==> i > 0
                && !p.aliases[p.args[i]].global,
        forall|i: int| 0 <= i < p.args.len() ==> split_quoted(#[trigger] p.args[i]) == seq![p.args[i]],
    ensures
        run(p, cmdline, eol, tables, fuel) matches Some(Outcome::Done(q)) ==> !q.replaced && q.aliases
            == p.aliases,
        !(run(p, cmdline, eol, tables, fuel) matches Some(Outcome::Failed(_))),
    decreases fuel,
{
    if fuel > 0 && p.pos < p.args.len() {
        let cur = p.args[p.pos as int];
        assert(lookup_value(cur, tables) is None);
        assert(split_quoted(cur) == seq![cur]);
        let q = advance(p, p.aliases, split_quoted(cur), 0, false, seq![' ']);
        assert(p.args.take(p.pos as int) + seq![cur] + p.args.skip((p.pos + 1) as int) =~= p.args);
        assert(q.args == p.args);
        assert(step(p, cmdline, eol, tables) == Step::Next(q));
        lemma_plain_words_run(q, cmdline, eol, tables, (fuel - 1) as nat);
    }
}

/// A line none of whose words is a lookup with a value or an alias usable
/// where it stands (any alias as the first word, a global one anywhere),
/// with no `!` form and no leading `sudo`, is answered with the empty text
/// and counts no alias use. The words must read back as themselves when
/// split again (a word such as `ab!` in mid-line is split further while the
/// line is expanded, and its pieces may be aliases).
pub proof fn law_plain_line_answered_empty(
    cmdline: Seq<char>,
    eol: bool,
    aliases: Map<Seq<char>, AliasView>,
    tables: Map<Seq<char>, Map<Seq<char>, Seq<char>>>,
    r: Result<String, String>,
    after: Map<Seq<char>, AliasView>,
)
    requires
        replacement(cmdline, eol, aliases, tables, r, after),
        prepare(cmdline, eol) matches Prep::Ready { args, sudo, replaced, .. } && !sudo && !replaced && {
            &&& forall|i: int| 0 <= i < args.len() ==> lookup_value(#[trigger] args[i], tables) is None
            &&& forall|i: int|
                0 <= i < args.len() && aliases.contains_key(#[trigger] args[i]) ==> i > 0
                    && !aliases[args[i]].global
            &&& forall|i: int| 0 <= i < args.len() ==> split_quoted(#[trigger] args[i]) == seq![args[i]]
        },
    ensures
        r matches Ok(s) && s@ == Seq::<char>::empty(),
        after == aliases,
{
    match prepare(cmdline, eol) {
        Prep::Ready { args, sudo, replaced, prefix } => {
            let p0 = initial_pass(args, replaced, aliases);
            let f = halting_fuel(p0, cmdline, eol, tables);
            lemma_plain_words_run(p0, cmdline, eol, tables, f);
            match outcome(p0, cmdline, eol, tables) {
                Some(Outcome::Done(p)) => {
                    let (w, e) = choose|w: bool, e: bool|
                        (w ==> wrappable(p.args[0])) && #[trigger] finish(p.args, p.replaced, p.space, sudo, prefix, w, e)
                            == r->Ok_0@;
                    assert(finish(p.args, p.replaced, p.space, sudo, prefix, w, e) == Seq::<char>::empty());
                },
                _ => {},
            }
        },
        _ => {},
    }
}

/// The words of a command line are never empty.
pub proof fn law_split_words_nonempty(s: Seq<char>)
    ensures
        forall|i: int| 0 <= i < split_quoted(s).len() ==> (#[trigger] split_quoted(s)[i]).len() > 0,
{
    lemma_scan_words_nonempty(s, s.len() as int);
}

proof fn lemma_scan_words_nonempty(s: Seq<char>, n: int)
    requires
        0 <= n <= s.len(),
    ensures
        ({
            let (a, st, q) = split_scan(s, n);
            &&& 0 <= st <= n
            &&& forall|i: int| 0 <= i < a.len() ==> (#[trigger] a[i]).len() > 0
        }),
    decreases n,
{
    if n > 0 {
        lemma_scan_words_nonempty(s, n - 1);
    }
}

/// `s` begins with `p`, which begins with `q`: `s` begins with `q`.
proof fn lemma_starts_with_trans(s: Seq<char>, p: Seq<char>, q: Seq<char>)
    requires
        starts_with(s, p),
        starts_with(p, q),
    ensures
        starts_with(s, q),
{
    assert(s.subrange(0, q.len() as int) =~= p.subrange(0, q.len() as int));
}

/// Words joined with a separator begin with the first word.
proof fn lemma_join_starts_with_first(ws: Seq<Seq<char>>, sep: Seq<char>)
    requires
        ws.len() > 0,
    ensures
        starts_with(join(ws, sep), ws[0]),
    decreases ws.len(),
{
    if ws.len() == 1 {
        assert(join(ws, sep).subrange(0, ws[0].len() as int) =~= ws[0]);
    } else {
        lemma_join_starts_with_first(ws.drop_last(), sep);
        let j = join(ws.drop_last(), sep);
        assert((j + sep + ws.last()).subrange(0, ws[0].len() as int) =~= j.subrange(0, ws[0].len() as int));
    }
}

/// A command line whose last word is `!` runs under sudo (at the end of
/// a line): a successful answer begins with `sudo`.
pub proof fn law_bang_runs_under_sudo(
    cmdline: Seq<char>,
    aliases: Map<Seq<char>, AliasView>,
    tables: Map<Seq<char>, Map<Seq<char>, Seq<char>>>,
    r: Result<String, String>,
    after: Map<Seq<char>, AliasView>,
)
    requires
        split_quoted(cmdline).len() >= 2,
        split_quoted(cmdline).last() == seq!['!'],
        replacement(cmdline, true, aliases, tables, r, after),
    ensures
        r matches Ok(s) ==> starts_with(s@, "sudo"@),
{
    let a0 = split_quoted(cmdline);
    let (a1, s1, r1) = bang_phase(a0, true);
    assert(s1 && a1.len() == a0.len() - 1);
    let sudo_word: Seq<char> = "sudo"@;
    assert(starts_with(sudo_word, sudo_word)) by {
        assert(sudo_word.subrange(0, sudo_word.len() as int) =~= sudo_word);
    }
    if a1.len() > 0 && a1[0] == "sudo"@ {
        let (fl, rest) = sudo_options(a1.skip(1));
        let all = seq![sudo_word] + fl;
        lemma_join_starts_with_first(all, " "@);
        if rest.len() == 0 {
            let t = join(all, " "@) + " "@;
            assert(starts_with(t, join(all, " "@))) by {
                assert(t.subrange(0, join(all, " "@).len() as int) =~= join(all, " "@));
            }
            lemma_starts_with_trans(t, join(all, " "@), sudo_word);
        } else {
            lemma_ready_sudo_answer(cmdline, aliases, tables, r, after, join(all, " "@));
        }
    } else {
        lemma_ready_sudo_answer(cmdline, aliases, tables, r, after, sudo_word);
    }
}

/// The answer for a line that runs under sudo with sudo command `prefix`
/// begins with `sudo` when `prefix` does.
proof fn lemma_ready_sudo_answer(
    cmdline: Seq<char>,
    aliases: Map<Seq<char>, AliasView>,
    tables: Map<Seq<char>, Map<Seq<char>, Seq<char>>>,
    r: Result<String, String>,
    after: Map<Seq<char>, AliasView>,
    prefix: Seq<char>,
)
    requires
        prepare(cmdline, true) matches Prep::Ready { sudo, prefix: pr, .. } && sudo && pr == prefix,
        starts_with(prefix, "sudo"@),
        replacement(cmdline, true, aliases, tables, r, after),
    ensures
        r matches Ok(s) ==> starts_with(s@, "sudo"@),
{
    match prepare(cmdline, true) {
        Prep::Ready { args, sudo, replaced, prefix: pr } => {
            match outcome(initial_pass(args, replaced, aliases), cmdline, true, tables) {
                Some(Outcome::Done(p)) => {
                    let (w, e) = choose|w: bool, e: bool|
                        (w ==> wrappable(p.args[0])) && #[trigger] finish(
                            p.args,
                            p.replaced,
                            p.space,
                            true,
                            prefix,
                            w,
                            e,
                        ) == r->Ok_0@;
                    let a = if w {
                        p.args.update(0, "$(which "@ + p.args[0] + ")"@)
                    } else {
                        p.args
                    };
                    let pre = if e && !contains(prefix, "-E"@) {
                        prefix + " -E"@
                    } else {
                        prefix
                    };
                    let words = seq![pre] + a;
                    lemma_join_starts_with_first(words, " "@);
                    assert(starts_with(pre, prefix)) by {
                        assert(pre.subrange(0, prefix.len() as int) =~= prefix);
                    }
                    let line = join(words, " "@) + p.space;
                    assert(starts_with(line, join(words, " "@))) by {
                        assert(line.subrange(0, join(words, " "@).len() as int) =~= join(words, " "@));
                    }
                    lemma_starts_with_trans(line, join(words, " "@), pre);
                    lemma_starts_with_trans(line, pre, prefix);
                    lemma_starts_with_trans(line, prefix, "sudo"@);
                },
                _ => {},
            }
        },
        _ => {},
    }
}

/// A command written as `$(which ...)` counts as wrapped, so sudo never
/// wraps it a second time.
pub proof fn law_wrapping_is_idempotent(command: Seq<char>)
    ensures
        already_wrapped("$(which "@ + command + ")"@),
        !wrappable("$(which "@ + command + ")"@),
{
    let w = "$(which "@ + command + ")"@;
    reveal_strlit("$(which ");
    reveal_strlit(")");
    assert(w[0] == '$');
    assert(w[w.len() - 1] == ')');
    assert(!crate::text::is_space_char(w[0]));
    assert(trim(w) == w) by {
        crate::text::lemma_trim_plain(w);
    }
    assert(w.subrange(0, 8) =~= "$(which "@);
    assert(w.subrange(w.len() - 1, w.len() as int) =~= ")"@);
}

} // verus!
