//! The alias listing of `aka ls` and `aka freq`: which aliases are shown, in
//! what order, and how each is laid out and coloured.
use vstd::prelude::*;
use crate::cfg::alias::{byte_len, Alias, AliasView};
use crate::patterns::{find_all, match_views, regex_compiles, regex_matches};
use crate::text::{chars_of, contains, decimal, decimal_text, lex_lt, owned, split_on, split_str, starts_with, string_of_range, views};

verus! {

// ---------------------------------------------------------------------------
// Colours
// ---------------------------------------------------------------------------

/// The colours the listing uses.
#[derive(Debug, Clone, Copy, PartialEq, Eq, Structural)]
pub enum Paint {
    Red,
    Orange,
    Green,
    Cyan,
    White,
}

/// The escape sequence that ends a colour.
pub open spec fn reset_code() -> Seq<char> {
    seq!['\x1B', '[', '0', 'm']
}

/// The foreground codes of the sixteen basic terminal colours.
pub open spec fn basic_fg_code(code: Seq<char>) -> bool {
    code.len() == 2 && (code[0] == '3' || code[0] == '9') && '0' <= code[1] <= '7'
}

/// A terminal colour as `colored` takes it: one of the basic colours the
/// listing uses, or a true colour given by its red, green and blue parts.
#[derive(Debug, Clone, Copy, PartialEq, Eq, Structural)]
pub enum TermColor {
    Red,
    Green,
    Cyan,
    White,
    Rgb(u8, u8, u8),
}

/// The terminal colour of each listing colour; orange is the true colour
/// (255, 165, 0).
pub open spec fn term_color(p: Paint) -> TermColor {
    match p {
        Paint::Red => TermColor::Red,
        Paint::Orange => TermColor::Rgb(255, 165, 0),
        Paint::Green => TermColor::Green,
        Paint::Cyan => TermColor::Cyan,
        Paint::White => TermColor::White,
    }
}

/// The terminal colour of `p`; see [`term_color`].
pub fn color_of(p: Paint) -> (c: TermColor)
    ensures
        c == term_color(p),
{
    match p {
        Paint::Red => TermColor::Red,
        Paint::Orange => TermColor::Rgb(255, 165, 0),
        Paint::Green => TermColor::Green,
        Paint::Cyan => TermColor::Cyan,
        Paint::White => TermColor::White,
    }
}

/// The foreground code `colored` may write for `c`: the fixed code of a
/// basic colour, and for a true colour `38;2;r;g;b` or, where the terminal
/// lacks true colour, the code of the nearest basic colour.
pub open spec fn color_code(c: TermColor, code: Seq<char>) -> bool {
    match c {
        TermColor::Red => code == seq!['3', '1'],
        TermColor::Green => code == seq!['3', '2'],
        TermColor::Cyan => code == seq!['3', '6'],
        TermColor::White => code == seq!['3', '7'],
        TermColor::Rgb(r, g, b) => code == seq!['3', '8', ';', '2', ';'] + decimal(r as nat) + seq![';']
            + decimal(g as nat) + seq![';'] + decimal(b as nat) || basic_fg_code(code),
    }
}

/// The foreground code that may be written for the listing colour `p`.
pub open spec fn paint_code(p: Paint, code: Seq<char>) -> bool {
    color_code(term_color(p), code)
}

/// `out` is `text` as written in colour `c`: unchanged when colours are
/// off, else wrapped in the colour's escape codes.
pub open spec fn colored_as(text: Seq<char>, c: TermColor, out: Seq<char>) -> bool {
    out == text || exists|code: Seq<char>|
        #![trigger color_code(c, code)]
        color_code(c, code) && out == seq!['\x1B', '['] + code + seq!['m'] + text + reset_code()
}

/// `out` is `text` as written with `paint`: unchanged when there is no
/// colour or colours are off, else wrapped in the colour's escape codes.
pub open spec fn rendered(text: Seq<char>, paint: Option<Paint>, out: Seq<char>) -> bool {
    match paint {
        None => out == text,
        Some(p) => colored_as(text, term_color(p), out),
    }
}

/// Writes `text` in colour `c` with the `colored` crate
/// (`Colorize::color`, then `Display`). The contract claims that, for a
/// text without a reset sequence, the result is the text itself (colours
/// off) or the text between the colour's escape code and the reset code;
/// `colored` decides which from the environment.
#[verifier::external_body]
fn paint(text: &str, c: TermColor) -> (r: String)
    ensures
        !contains(text@, reset_code()) ==> colored_as(text@, c, r@),
{
    let color = match c {
        TermColor::Red => colored::Color::Red,
        TermColor::Green => colored::Color::Green,
        TermColor::Cyan => colored::Color::Cyan,
        TermColor::White => colored::Color::White,
        TermColor::Rgb(r, g, b) => colored::Color::TrueColor { r, g, b },
    };
    colored::Colorize::color(text, color).to_string()
}

// ---------------------------------------------------------------------------
// Byte offsets
// ---------------------------------------------------------------------------

/// The number of UTF-8 bytes of `c`.
pub open spec fn char_width(c: char) -> nat {
    vstd::utf8::encode_scalar(c as u32).len()
}

/// How many leading characters of `v` fit in its first `b` bytes.
pub open spec fn chars_within(v: Seq<char>, b: int) -> nat
    decreases v.len(),
{
    if v.len() == 0 || char_width(v[0]) > b {
        0
    } else {
        1 + chars_within(v.skip(1), b - char_width(v[0]))
    }
}

/// The characters of `v` between byte offsets `a` and `b`.
pub open spec fn byte_range(v: Seq<char>, a: int, b: int) -> Seq<char> {
    v.subrange(chars_within(v, a) as int, chars_within(v, b) as int)
}

proof fn lemma_chars_within(v: Seq<char>, a: int, b: int)
    requires
        a <= b,
    ensures
        chars_within(v, a) <= chars_within(v, b) <= v.len(),
    decreases v.len(),
{
    if v.len() > 0 && char_width(v[0]) <= a {
        lemma_chars_within(v.skip(1), a - char_width(v[0]), b - char_width(v[0]));
    } else if v.len() > 0 && char_width(v[0]) <= b {
        lemma_chars_within(v.skip(1), b - char_width(v[0]), b - char_width(v[0]));
    }
}

/// The number of UTF-8 bytes of `c`.
fn utf8_width(c: char) -> (w: u128)
    ensures
        w == char_width(c),
{
    let u = c as u32;
    if u <= 0x7f {
        1
    } else if u <= 0x7ff {
        2
    } else if u <= 0xffff {
        proof {
            vstd::utf8::char_is_scalar(c);
        }
        3
    } else {
        4
    }
}

/// The number of leading characters of `v` that fit in `b` bytes.
pub(crate) fn char_index_at(v: &Vec<char>, b: u128) -> (k: usize)
    ensures
        k == chars_within(v@, b as int),
        k <= v.len(),
{
    let mut k: usize = 0;
    let mut used: u128 = 0;
    assert(v@.skip(0) =~= v@);
    while k < v.len() && utf8_width(v[k]) <= b - used
        invariant
            k <= v.len(),
            used <= b,
            chars_within(v@, b as int) == k + chars_within(v@.skip(k as int), b - used),
        decreases v.len() - k,
    {
        let w = utf8_width(v[k]);
        assert(v@.skip(k as int)[0] == v@[k as int]);
        assert(v@.skip(k as int).skip(1) =~= v@.skip(k + 1));
        used = used + w;
        k = k + 1;
    }
    if k < v.len() {
        assert(v@.skip(k as int)[0] == v@[k as int]);
    }
    k
}

// ---------------------------------------------------------------------------
// Colouring a value
// ---------------------------------------------------------------------------

/// The positional parameters that a value highlights: `$1`..`$9` and `$@`.
pub const POSITIONAL_PARAMETER_RE: &'static str = "\\$[@1-9]";

/// A piece of output text, with the colour it is written in.
pub type Piece = (Seq<char>, Option<Paint>);

/// The pieces of `v` up to the end of the matches `ms` (byte offset and
/// text), and the byte offset where the last match ends: the text before a
/// match in white, the match in cyan.
pub open spec fn color_scan(v: Seq<char>, ms: Seq<(int, Seq<char>)>) -> (Seq<Piece>, int)
    decreases ms.len(),
{
    if ms.len() == 0 {
        (Seq::empty(), 0)
    } else {
        let (ps, last) = color_scan(v, ms.drop_last());
        let m = ms.last();
        let before: Seq<Piece> = if m.0 > last {
            seq![(byte_range(v, last, m.0), Some(Paint::White))]
        } else {
            Seq::empty()
        };
        (ps + before + seq![(m.1, Some(Paint::Cyan))], m.0 + byte_len(m.1))
    }
}

/// Every piece is empty text.
pub open spec fn all_empty(ps: Seq<Piece>) -> bool {
    forall|i: int| 0 <= i < ps.len() ==> (#[trigger] ps[i]).0.len() == 0
}

/// The matches of the positional-parameter pattern in `v`.
pub open spec fn parameter_matches(v: Seq<char>) -> Seq<(int, Seq<char>)> {
    if regex_compiles(POSITIONAL_PARAMETER_RE@) {
        regex_matches(POSITIONAL_PARAMETER_RE@, v)
    } else {
        Seq::empty()
    }
}

/// A value as the listing colours it: positional parameters in cyan, the
/// rest in white; a value with nothing to show is written in white whole.
pub open spec fn colorized(v: Seq<char>) -> Seq<Piece> {
    let (ps, last) = color_scan(v, parameter_matches(v));
    let all: Seq<Piece> = if last < byte_len(v) {
        ps.push((byte_range(v, last, byte_len(v) as int), Some(Paint::White)))
    } else {
        ps
    };
    if all_empty(all) {
        seq![(v, Some(Paint::White))]
    } else {
        all
    }
}

/// The view of a list of pieces.
pub open spec fn piece_views(v: Seq<(String, Option<Paint>)>) -> Seq<Piece> {
    v.map_values(|p: (String, Option<Paint>)| (p.0@, p.1))
}

/// Appends one piece.
fn push_piece(out: &mut Vec<(String, Option<Paint>)>, text: String, p: Option<Paint>)
    ensures
        piece_views(final(out)@) == piece_views(old(out)@).push((text@, p)),
{
    let ghost before = piece_views(out@);
    out.push((text, p));
    assert(piece_views(out@) =~= before.push((text@, p)));
}

/// Appends pieces.
fn push_pieces(out: &mut Vec<(String, Option<Paint>)>, more: Vec<(String, Option<Paint>)>)
    ensures
        piece_views(final(out)@) == piece_views(old(out)@) + piece_views(more@),
{
    let mut more = more;
    let ghost before = piece_views(out@);
    let ghost added = piece_views(more@);
    out.append(&mut more);
    assert(piece_views(out@) =~= before + added);
}

/// The pieces of a value; see [`colorized`].
fn colorize_value(value: &str) -> (r: Vec<(String, Option<Paint>)>)
    ensures
        piece_views(r@) == colorized(value@),
{
    let v = chars_of(value);
    let ms: Vec<(usize, String)> = match find_all(POSITIONAL_PARAMETER_RE, value) {
        Some(found) => found,
        None => Vec::new(),
    };
    let ghost mv = parameter_matches(value@);
    assert(match_views(ms@) =~= mv);
    let mut out: Vec<(String, Option<Paint>)> = Vec::new();
    let mut last: u128 = 0;
    let mut i: usize = 0;
    assert(piece_views(out@) =~= Seq::<Piece>::empty());
    while i < ms.len()
        invariant
            i <= ms.len(),
            v@ == value@,
            match_views(ms@) == mv,
            color_scan(value@, mv.take(i as int)) == (piece_views(out@), last as int),
        decreases ms.len() - i,
    {
        let ghost t = mv.take(i + 1);
        assert(t.drop_last() =~= mv.take(i as int));
        let start = ms[i].0 as u128;
        assert(t.last() == (ms@[i as int].0 as int, ms@[i as int].1@));
        if start > last {
            let lo = char_index_at(&v, last);
            let hi = char_index_at(&v, start);
            proof {
                lemma_chars_within(value@, last as int, start as int);
            }
            push_piece(&mut out, string_of_range(&v, lo, hi), Some(Paint::White));
        }
        push_piece(&mut out, owned(ms[i].1.as_str()), Some(Paint::Cyan));
        last = start + (ms[i].1.as_str().as_bytes().len() as u128);
        i = i + 1;
    }
    assert(mv.take(ms.len() as int) =~= mv);
    let total = value.as_bytes().len() as u128;
    if last < total {
        let lo = char_index_at(&v, last);
        let hi = char_index_at(&v, total);
        proof {
            lemma_chars_within(value@, last as int, total as int);
        }
        push_piece(&mut out, string_of_range(&v, lo, hi), Some(Paint::White));
    }
    let mut any_text = false;
    let mut k: usize = 0;
    while k < out.len()
        invariant
            k <= out.len(),
            any_text <==> exists|j: int| 0 <= j < k && (#[trigger] piece_views(out@)[j]).0.len() > 0,
        decreases out.len() - k,
    {
        if chars_of(out[k].0.as_str()).len() > 0 {
            any_text = true;
            assert(piece_views(out@)[k as int].0.len() > 0);
        }
        k = k + 1;
    }
    if !any_text {
        let mut whole: Vec<(String, Option<Paint>)> = Vec::new();
        push_piece(&mut whole, owned(value), Some(Paint::White));
        assert(piece_views(whole@) =~= seq![(value@, Some(Paint::White))]);
        return whole;
    }
    out
}

// ---------------------------------------------------------------------------
// Laying out the listing
// ---------------------------------------------------------------------------

/// `n` spaces.
pub open spec fn spaces(n: nat) -> Seq<char> {
    Seq::new(n, |i: int| ' ')
}

/// `s` right-aligned in `w` characters, as `{:>w$}` writes it.
pub open spec fn pad_left(s: Seq<char>, w: nat) -> Seq<char> {
    if s.len() >= w {
        s
    } else {
        spaces((w - s.len()) as nat) + s
    }
}

/// The widest alias name, in UTF-8 bytes.
pub open spec fn name_width(aliases: Seq<AliasView>) -> nat
    decreases aliases.len(),
{
    if aliases.len() == 0 {
        0
    } else {
        let w = name_width(aliases.drop_last());
        let b = byte_len(aliases.last().name);
        if b > w {
            b
        } else {
            w
        }
    }
}

/// The second and later lines of a value, each on a new line indented by
/// `indent` spaces.
pub open spec fn later_lines(lines: Seq<Seq<char>>, indent: nat) -> Seq<Piece>
    decreases lines.len(),
{
    if lines.len() == 0 {
        Seq::empty()
    } else {
        later_lines(lines.drop_last(), indent) + seq![(seq!['\n'] + spaces(indent), None::<Paint>)]
            + colorized(lines.last())
    }
}

/// A value as the listing writes it: coloured, its later lines indented to
/// stand under the first.
pub open spec fn value_layout(value: Seq<char>, indent: nat) -> Seq<Piece> {
    if value.contains('\n') {
        let lines = split_on(value, '\n');
        colorized(lines[0]) + later_lines(lines.skip(1), indent)
    } else {
        colorized(value)
    }
}

/// One alias of the listing: the use count (right-aligned in four columns,
/// when counts are shown), the name right-aligned in `w` (red when global,
/// orange otherwise), a green arrow and the value.
pub open spec fn entry_layout(a: AliasView, w: nat, show_counts: bool) -> Seq<Piece> {
    let name: Piece = (pad_left(a.name, w), Some(if a.global { Paint::Red } else { Paint::Orange }));
    let arrow: Piece = ("->"@, Some(Paint::Green));
    let sp: Piece = (seq![' '], None);
    let prefix: Seq<Piece> = if show_counts {
        seq![(pad_left(decimal(a.count as nat), 4) + seq![' '], None), name, sp, arrow, sp]
    } else {
        seq![name, sp, arrow, sp]
    };
    let indent: nat = if show_counts {
        w + 9
    } else {
        w + 4
    };
    prefix + value_layout(a.value, indent)
}

/// The first `n` aliases of the listing, one per line.
pub open spec fn entries_layout(aliases: Seq<AliasView>, w: nat, show_counts: bool, n: int) -> Seq<Piece>
    decreases n,
{
    if n <= 0 {
        Seq::empty()
    } else if n == 1 {
        entry_layout(aliases[0], w, show_counts)
    } else {
        entries_layout(aliases, w, show_counts, n - 1) + seq![(seq!['\n'], None::<Paint>)] + entry_layout(
            aliases[n - 1],
            w,
            show_counts,
        )
    }
}

/// The whole listing: one line per alias, names aligned, then the number
/// of aliases; or a note that there is none.
pub open spec fn listing(aliases: Seq<AliasView>, show_counts: bool) -> Seq<Piece> {
    if aliases.len() == 0 {
        seq![("No aliases found.\n\ncount: 0"@, None)]
    } else {
        entries_layout(aliases, name_width(aliases), show_counts, aliases.len() as int) + seq![
            ("\n\ncount: "@ + decimal(aliases.len()), None),
        ]
    }
}

/// The views of a list of aliases.
pub open spec fn alias_views(s: Seq<Alias>) -> Seq<AliasView> {
    s.map_values(|a: Alias| a@)
}

/// `n` spaces.
fn spaces_text(n: usize) -> (r: String)
    ensures
        r@ == spaces(n as nat),
{
    let mut r = String::new();
    let mut i: usize = 0;
    while i < n
        invariant
            i <= n,
            r@ == spaces(i as nat),
        decreases n - i,
    {
        crate::text::push_char(&mut r, ' ');
        assert(spaces(i as nat).push(' ') =~= spaces((i + 1) as nat));
        i = i + 1;
    }
    r
}

/// `s` right-aligned in `w` characters.
fn pad_left_text(s: &str, w: usize) -> (r: String)
    ensures
        r@ == pad_left(s@, w as nat),
{
    let n = chars_of(s).len();
    if n >= w {
        owned(s)
    } else {
        let mut r = spaces_text(w - n);
        r.append(s);
        r
    }
}

/// The widest name, in bytes.
fn widest_name(aliases: &[Alias]) -> (w: usize)
    ensures
        w == name_width(alias_views(aliases@)),
{
    let ghost av = alias_views(aliases@);
    let mut w: usize = 0;
    let mut i: usize = 0;
    while i < aliases.len()
        invariant
            i <= aliases.len(),
            av == alias_views(aliases@),
            w == name_width(av.take(i as int)),
        decreases aliases.len() - i,
    {
        let b = aliases[i].name.as_str().as_bytes().len();
        assert(av.take(i + 1).drop_last() =~= av.take(i as int));
        assert(av.take(i + 1).last() == aliases@[i as int]@);
        if b > w {
            w = b;
        }
        i = i + 1;
    }
    assert(av.take(aliases.len() as int) =~= av);
    w
}

/// The pieces of a value; see [`value_layout`].
fn value_pieces(value: &str, indent: usize) -> (r: Vec<(String, Option<Paint>)>)
    ensures
        piece_views(r@) == value_layout(value@, indent as nat),
{
    if !crate::text::has_char(value, '\n') {
        return colorize_value(value);
    }
    let lines = split_str(value, '\n');
    let ghost lv = views(lines@);
    assert(lv.len() > 0) by {
        lemma_split_nonempty(value@, '\n');
    }
    let mut out = colorize_value(lines[0].as_str());
    let ghost head = piece_views(out@);
    let mut i: usize = 1;
    assert(lv.skip(1).take(0) =~= Seq::<Seq<char>>::empty());
    while i < lines.len()
        invariant
            1 <= i <= lines.len(),
            lv == views(lines@),
            piece_views(out@) == head + later_lines(lv.skip(1).take(i - 1), indent as nat),
        decreases lines.len() - i,
    {
        let mut nl = owned("\n");
        nl.append(spaces_text(indent).as_str());
        proof {
            reveal_strlit("\n");
            assert("\n"@ =~= seq!['\n']);
        }
        push_piece(&mut out, nl, None);
        let more = colorize_value(lines[i].as_str());
        push_pieces(&mut out, more);
        assert(lv.skip(1).take(i as int).drop_last() =~= lv.skip(1).take(i - 1));
        assert(lv.skip(1).take(i as int).last() == lv[i as int]);
        i = i + 1;
    }
    assert(lv.skip(1).take(lines.len() - 1) =~= lv.skip(1));
    out
}

proof fn lemma_split_nonempty(s: Seq<char>, c: char)
    ensures
        split_on(s, c).len() > 0,
    decreases s.len(),
{
    if s.len() > 0 {
        lemma_split_nonempty(s.skip(1), c);
    }
}

/// The pieces of one alias of the listing; see [`entry_layout`].
fn entry_pieces(a: &Alias, w: usize, show_counts: bool) -> (r: Vec<(String, Option<Paint>)>)
    requires
        w <= usize::MAX - 16,
    ensures
        piece_views(r@) == entry_layout(a@, w as nat, show_counts),
{
    let mut out: Vec<(String, Option<Paint>)> = Vec::new();
    proof {
        reveal_strlit(" ");
        assert(" "@ =~= seq![' ']);
    }
    if show_counts {
        let mut c = pad_left_text(decimal_text(a.count).as_str(), 4);
        c.append(" ");
        push_piece(&mut out, c, None);
    }
    let color = if a.global {
        Paint::Red
    } else {
        Paint::Orange
    };
    push_piece(&mut out, pad_left_text(a.name.as_str(), w), Some(color));
    push_piece(&mut out, owned(" "), None);
    push_piece(&mut out, owned("->"), Some(Paint::Green));
    push_piece(&mut out, owned(" "), None);
    let indent = if show_counts {
        w + 9
    } else {
        w + 4
    };
    let ghost prefix = piece_views(out@);
    let more = value_pieces(a.value.as_str(), indent);
    push_pieces(&mut out, more);
    assert(piece_views(out@) =~= entry_layout(a@, w as nat, show_counts));
    out
}

/// The pieces of the listing; see [`listing`].
fn listing_pieces(aliases: &[Alias], show_counts: bool) -> (r: Vec<(String, Option<Paint>)>)
    requires
        forall|i: int| 0 <= i < aliases@.len() ==> byte_len(#[trigger] aliases@[i].name@) <= isize::MAX,
    ensures
        piece_views(r@) == listing(alias_views(aliases@), show_counts),
{
    let mut out: Vec<(String, Option<Paint>)> = Vec::new();
    let ghost av = alias_views(aliases@);
    if aliases.len() == 0 {
        push_piece(&mut out, owned("No aliases found.\n\ncount: 0"), None);
        assert(piece_views(out@) =~= seq![("No aliases found.\n\ncount: 0"@, None::<Paint>)]);
        return out;
    }
    let w = widest_name(aliases);
    assert(w <= isize::MAX) by {
        lemma_name_width_bounded(av);
    }
    let mut i: usize = 0;
    assert(piece_views(out@) =~= Seq::<Piece>::empty());
    while i < aliases.len()
        invariant
            i <= aliases.len(),
            av == alias_views(aliases@),
            w == name_width(av),
            w <= isize::MAX,
            piece_views(out@) == entries_layout(av, w as nat, show_counts, i as int),
        decreases aliases.len() - i,
    {
        if i > 0 {
            proof {
                reveal_strlit("\n");
                assert("\n"@ =~= seq!['\n']);
            }
            push_piece(&mut out, owned("\n"), None);
        }
        let more = entry_pieces(&aliases[i], w, show_counts);
        push_pieces(&mut out, more);
        assert(av[i as int] == aliases@[i as int]@);
        if i == 0 {
            assert(piece_views(out@) =~= entries_layout(av, w as nat, show_counts, 1));
        }
        i = i + 1;
    }
    let mut tail = owned("\n\ncount: ");
    tail.append(decimal_text(aliases.len() as u64).as_str());
    push_piece(&mut out, tail, None);
    out
}

proof fn lemma_name_width_bounded(av: Seq<AliasView>)
    requires
        forall|i: int| 0 <= i < av.len() ==> byte_len(#[trigger] av[i].name) <= isize::MAX,
    ensures
        name_width(av) <= isize::MAX,
    decreases av.len(),
{
    if av.len() > 0 {
        assert forall|i: int| 0 <= i < av.drop_last().len() implies byte_len(
            #[trigger] av.drop_last()[i].name,
        ) <= isize::MAX by {
            assert(av.drop_last()[i] == av[i]);
        }
        lemma_name_width_bounded(av.drop_last());
        assert(byte_len(av.last().name) <= isize::MAX);
    }
}

// ---------------------------------------------------------------------------
// Writing the pieces
// ---------------------------------------------------------------------------

/// The texts joined end to end.
pub open spec fn concat(outs: Seq<Seq<char>>) -> Seq<char>
    decreases outs.len(),
{
    if outs.len() == 0 {
        Seq::empty()
    } else {
        concat(outs.drop_last()) + outs.last()
    }
}

/// `outs` are the pieces as written, each in its colour (or plain).
pub open spec fn renders(pieces: Seq<Piece>, outs: Seq<Seq<char>>) -> bool {
    &&& outs.len() == pieces.len()
    &&& forall|i: int| 0 <= i < pieces.len() ==> rendered(pieces[i].0, pieces[i].1, #[trigger] outs[i])
}

/// No piece holds a reset sequence.
pub open spec fn no_reset(pieces: Seq<Piece>) -> bool {
    forall|i: int| 0 <= i < pieces.len() ==> !contains((#[trigger] pieces[i]).0, reset_code())
}

/// The text of the pieces, each written in its colour.
fn render(pieces: &Vec<(String, Option<Paint>)>) -> (r: String)
    ensures
        no_reset(piece_views(pieces@)) ==> exists|outs: Seq<Seq<char>>|
            #[trigger] renders(piece_views(pieces@), outs) && r@ == concat(outs),
{
    let ghost pv = piece_views(pieces@);
    let mut r = String::new();
    let ghost mut outs: Seq<Seq<char>> = Seq::empty();
    let mut i: usize = 0;
    while i < pieces.len()
        invariant
            i <= pieces.len(),
            pv == piece_views(pieces@),
            outs.len() == i,
            forall|j: int|
                0 <= j < i ==> (!contains(pv[j].0, reset_code()) ==> rendered(
                    pv[j].0,
                    pv[j].1,
                    #[trigger] outs[j],
                )),
            r@ == concat(outs),
        decreases pieces.len() - i,
    {
        let text = pieces[i].0.as_str();
        assert(pv[i as int] == (text@, pieces@[i as int].1));
        let out = match pieces[i].1 {
            Some(p) => paint(text, color_of(p)),
            None => owned(text),
        };
        let ghost before = outs;
        proof {
            outs = outs.push(out@);
        }
        r.append(out.as_str());
        assert(outs.drop_last() =~= before);
        i = i + 1;
    }
    proof {
        if no_reset(pv) {
            assert(renders(pv, outs));
        }
    }
    r
}

/// The listing of `aliases` in the order given (see [`listing`]), with
/// colours where the terminal takes them: the result is the listing's
/// pieces written end to end, each plain or in its colour.
pub fn format_alias_output_from_iter(aliases: &[Alias], show_counts: bool) -> (r: String)
    requires
        forall|i: int| 0 <= i < aliases@.len() ==> byte_len(#[trigger] aliases@[i].name@) <= isize::MAX,
    ensures
        no_reset(listing(alias_views(aliases@), show_counts)) ==> exists|outs: Seq<Seq<char>>|
            #[trigger] renders(listing(alias_views(aliases@), show_counts), outs) && r@ == concat(
                outs,
            ),
{
    let pieces = listing_pieces(aliases, show_counts);
    render(&pieces)
}

// ---------------------------------------------------------------------------
// Which aliases are listed, and in what order
// ---------------------------------------------------------------------------

/// The name begins with one of the patterns, or there is no pattern.
pub open spec fn matches_patterns(name: Seq<char>, patterns: Seq<Seq<char>>) -> bool {
    patterns.len() == 0 || exists|i: int| 0 <= i < patterns.len() && starts_with(name, #[trigger] patterns[i])
}

/// An alias is listed when it is global (if only global ones are asked
/// for), its name matches the patterns, and it was used (if counts are shown
/// without `all`).
pub open spec fn shown(
    a: AliasView,
    show_counts: bool,
    show_all: bool,
    global_only: bool,
    patterns: Seq<Seq<char>>,
) -> bool {
    &&& (!global_only || a.global)
    &&& matches_patterns(a.name, patterns)
    &&& (!show_counts || show_all || a.count > 0)
}

/// The listed aliases, in the order given.
pub open spec fn shown_aliases(
    s: Seq<AliasView>,
    show_counts: bool,
    show_all: bool,
    global_only: bool,
    patterns: Seq<Seq<char>>,
) -> Seq<AliasView>
    decreases s.len(),
{
    if s.len() == 0 {
        Seq::empty()
    } else {
        shown_aliases(s.drop_last(), show_counts, show_all, global_only, patterns) + (if shown(
            s.last(),
            show_counts,
            show_all,
            global_only,
            patterns,
        ) {
            seq![s.last()]
        } else {
            Seq::empty()
        })
    }
}

/// `a` is listed before `b`: by use count, highest first, then by name
/// when counts are shown; by name otherwise.
pub open spec fn precedes(a: AliasView, b: AliasView, show_counts: bool) -> bool {
    if show_counts {
        a.count > b.count || (a.count == b.count && lex_lt(a.name, b.name))
    } else {
        lex_lt(a.name, b.name)
    }
}

/// Where `x` goes among `r`: before the first alias it precedes.
pub open spec fn insertion_point(r: Seq<AliasView>, x: AliasView, show_counts: bool) -> int
    decreases r.len(),
{
    if r.len() == 0 {
        0
    } else if precedes(x, r[0], show_counts) {
        0
    } else {
        1 + insertion_point(r.skip(1), x, show_counts)
    }
}

/// The aliases in listing order: each put before the first alias it
/// precedes, so that aliases that tie keep the order they came in.
pub open spec fn display_order(s: Seq<AliasView>, show_counts: bool) -> Seq<AliasView>
    decreases s.len(),
{
    if s.len() == 0 {
        Seq::empty()
    } else {
        let r = display_order(s.drop_last(), show_counts);
        r.insert(insertion_point(r, s.last(), show_counts), s.last())
    }
}

/// No alias precedes one listed before it.
pub open spec fn in_display_order(s: Seq<AliasView>, show_counts: bool) -> bool {
    forall|i: int, j: int| 0 <= i < j < s.len() ==> !precedes(#[trigger] s[j], #[trigger] s[i], show_counts)
}

proof fn lemma_precedes_order(a: AliasView, b: AliasView, c: AliasView, show_counts: bool)
    ensures
        !precedes(a, a, show_counts),
        precedes(a, b, show_counts) ==> !precedes(b, a, show_counts),
        precedes(a, b, show_counts) && precedes(b, c, show_counts) ==> precedes(a, c, show_counts),
{
    crate::text::lemma_lex_irreflexive(a.name);
    if lex_lt(a.name, b.name) {
        crate::text::lemma_lex_asymmetric(a.name, b.name);
    }
    if lex_lt(a.name, b.name) && lex_lt(b.name, c.name) {
        crate::text::lemma_lex_transitive(a.name, b.name, c.name);
    }
}

proof fn lemma_insertion_point(r: Seq<AliasView>, x: AliasView, show_counts: bool)
    ensures
        0 <= insertion_point(r, x, show_counts) <= r.len(),
        forall|j: int|
            0 <= j < insertion_point(r, x, show_counts) ==> !precedes(x, #[trigger] r[j], show_counts),
        insertion_point(r, x, show_counts) < r.len() ==> precedes(
            x,
            r[insertion_point(r, x, show_counts)],
            show_counts,
        ),
    decreases r.len(),
{
    if r.len() > 0 && !precedes(x, r[0], show_counts) {
        lemma_insertion_point(r.skip(1), x, show_counts);
        assert forall|j: int| 0 <= j < insertion_point(r, x, show_counts) implies !precedes(
            x,
            #[trigger] r[j],
            show_counts,
        ) by {
            if j > 0 {
                assert(r[j] == r.skip(1)[j - 1]);
            }
        }
    }
}

/// The listing order is sorted: by count (highest first) and then name
/// when counts are shown, by name otherwise.
pub proof fn lemma_display_order_sorted(s: Seq<AliasView>, show_counts: bool)
    ensures
        in_display_order(display_order(s, show_counts), show_counts),
    decreases s.len(),
{
    if s.len() > 0 {
        let r = display_order(s.drop_last(), show_counts);
        let x = s.last();
        lemma_display_order_sorted(s.drop_last(), show_counts);
        lemma_insertion_point(r, x, show_counts);
        let p = insertion_point(r, x, show_counts);
        let t = r.insert(p, x);
        assert forall|i: int, j: int| 0 <= i < j < t.len() implies !precedes(
            #[trigger] t[j],
            #[trigger] t[i],
            show_counts,
        ) by {
            if i < p && j < p {
                assert(t[i] == r[i] && t[j] == r[j]);
            } else if i < p && j == p {
                assert(t[i] == r[i] && t[j] == x);
            } else if i < p {
                assert(t[i] == r[i] && t[j] == r[j - 1]);
            } else if i == p {
                assert(t[i] == x && t[j] == r[j - 1]);
                lemma_precedes_order(r[j - 1], x, r[p], show_counts);
                lemma_precedes_order(x, r[p], r[p], show_counts);
                if j - 1 > p {
                    assert(!precedes(r[j - 1], r[p], show_counts));
                }
            } else {
                assert(t[i] == r[i - 1] && t[j] == r[j - 1]);
            }
        }
    }
}

/// The listing order holds the same aliases as its input.
pub proof fn lemma_display_order_permutes(s: Seq<AliasView>, show_counts: bool)
    ensures
        display_order(s, show_counts).to_multiset() == s.to_multiset(),
    decreases s.len(),
{
    broadcast use vstd::seq_lib::group_to_multiset_ensures;
    if s.len() > 0 {
        let r = display_order(s.drop_last(), show_counts);
        lemma_display_order_permutes(s.drop_last(), show_counts);
        lemma_insertion_point(r, s.last(), show_counts);
        vstd::seq_lib::to_multiset_insert(r, insertion_point(r, s.last(), show_counts), s.last());
        assert(s =~= s.drop_last().push(s.last()));
    }
}

/// The aliases a listing shows are exactly those selected by the switches
/// and patterns (see [`shown_aliases`]), each as often as it is selected,
/// in listing order: by count (highest first) and then name when counts are
/// shown, by name otherwise.
pub proof fn law_listing_is_sorted_selection(
    aliases: Seq<AliasView>,
    show_counts: bool,
    show_all: bool,
    global_only: bool,
    patterns: Seq<Seq<char>>,
)
    ensures
        ({
            let chosen = shown_aliases(aliases, show_counts, show_all, global_only, patterns);
            let listed = display_order(chosen, show_counts);
            &&& in_display_order(listed, show_counts)
            &&& listed.to_multiset() == chosen.to_multiset()
        }),
{
    let chosen = shown_aliases(aliases, show_counts, show_all, global_only, patterns);
    lemma_display_order_sorted(chosen, show_counts);
    lemma_display_order_permutes(chosen, show_counts);
}

proof fn lemma_shown_aliases_contains(
    s: Seq<AliasView>,
    show_counts: bool,
    show_all: bool,
    global_only: bool,
    patterns: Seq<Seq<char>>,
    a: AliasView,
)
    ensures
        shown_aliases(s, show_counts, show_all, global_only, patterns).contains(a) <==> s.contains(a) && shown(
            a,
            show_counts,
            show_all,
            global_only,
            patterns,
        ),
    decreases s.len(),
{
    if s.len() > 0 {
        let init = s.drop_last();
        lemma_shown_aliases_contains(init, show_counts, show_all, global_only, patterns, a);
        let c = shown_aliases(init, show_counts, show_all, global_only, patterns);
        assert(s =~= init.push(s.last()));
        vstd::seq_lib::lemma_seq_contains_after_push(init, s.last(), a);
        if shown(s.last(), show_counts, show_all, global_only, patterns) {
            assert(c + seq![s.last()] =~= c.push(s.last()));
            vstd::seq_lib::lemma_seq_contains_after_push(c, s.last(), a);
        } else {
            assert(c + Seq::<AliasView>::empty() =~= c);
        }
    }
}

/// An alias is listed exactly when it is one of the aliases, it is global
/// if only global ones are asked for, it was used if counts are shown
/// without `all`, and its name begins with at least one of the patterns,
/// wherever that pattern stands in the list (or no pattern is given).
pub proof fn law_listed_when_name_starts_with_any_pattern(
    aliases: Seq<AliasView>,
    show_counts: bool,
    show_all: bool,
    global_only: bool,
    patterns: Seq<Seq<char>>,
    a: AliasView,
)
    ensures
        display_order(shown_aliases(aliases, show_counts, show_all, global_only, patterns), show_counts).contains(a)
            <==> {
            &&& aliases.contains(a)
            &&& !global_only || a.global
            &&& !show_counts || show_all || a.count > 0
            &&& patterns.len() == 0 || exists|i: int|
                #![trigger patterns[i]]
                0 <= i < patterns.len() && patterns[i].len() <= a.name.len() && a.name.subrange(
                    0,
                    patterns[i].len() as int,
                ) == patterns[i]
        },
{
    let chosen = shown_aliases(aliases, show_counts, show_all, global_only, patterns);
    let listed = display_order(chosen, show_counts);
    lemma_display_order_permutes(chosen, show_counts);
    listed.to_multiset_ensures();
    chosen.to_multiset_ensures();
    assert(listed.to_multiset().count(a) == chosen.to_multiset().count(a));
    assert(listed.contains(a) <==> chosen.contains(a));
    lemma_shown_aliases_contains(aliases, show_counts, show_all, global_only, patterns, a);
    if patterns.len() > 0 {
        if matches_patterns(a.name, patterns) {
            let i = choose|i: int| 0 <= i < patterns.len() && starts_with(a.name, #[trigger] patterns[i]);
            assert(patterns[i].len() <= a.name.len() && a.name.subrange(0, patterns[i].len() as int) == patterns[i]);
        }
        if exists|i: int|
            #![trigger patterns[i]]
            0 <= i < patterns.len() && patterns[i].len() <= a.name.len() && a.name.subrange(0, patterns[i].len() as int)
                == patterns[i] {
            let i = choose|i: int|
                #![trigger patterns[i]]
                0 <= i < patterns.len() && patterns[i].len() <= a.name.len() && a.name.subrange(
                    0,
                    patterns[i].len() as int,
                ) == patterns[i];
            assert(starts_with(a.name, patterns[i]));
        }
    }
}

/// `a` is listed before `b`; see [`precedes`].
fn precedes_exec(a: &Alias, b: &Alias, show_counts: bool) -> (r: bool)
    ensures
        r == precedes(a@, b@, show_counts),
{
    let an = chars_of(a.name.as_str());
    let bn = chars_of(b.name.as_str());
    if show_counts {
        a.count > b.count || (a.count == b.count && crate::text::lex_less(&an, &bn))
    } else {
        crate::text::lex_less(&an, &bn)
    }
}

/// Whether the name begins with one of the patterns (or there is none).
fn name_matches(name: &str, patterns: &[String]) -> (r: bool)
    ensures
        r == matches_patterns(name@, views(patterns@)),
{
    if patterns.len() == 0 {
        return true;
    }
    let mut i: usize = 0;
    while i < patterns.len()
        invariant
            i <= patterns.len(),
            forall|j: int| 0 <= j < i ==> !starts_with(name@, #[trigger] views(patterns@)[j]),
        decreases patterns.len() - i,
    {
        if crate::text::starts_with_str(name, patterns[i].as_str()) {
            assert(starts_with(name@, views(patterns@)[i as int]));
            return true;
        }
        i = i + 1;
    }
    false
}

/// The aliases to list, in listing order: those that are [`shown`], sorted
/// as [`display_order`] sorts them.
pub fn prepare_aliases_for_display_iter(
    aliases: &[Alias],
    show_counts: bool,
    show_all: bool,
    global_only: bool,
    patterns: &[String],
) -> (r: Vec<Alias>)
    ensures
        alias_views(r@) == display_order(
            shown_aliases(alias_views(aliases@), show_counts, show_all, global_only, views(patterns@)),
            show_counts,
        ),
{
    let ghost av = alias_views(aliases@);
    let ghost pv = views(patterns@);
    let mut r: Vec<Alias> = Vec::new();
    let mut i: usize = 0;
    assert(alias_views(r@) =~= Seq::<AliasView>::empty());
    while i < aliases.len()
        invariant
            i <= aliases.len(),
            av == alias_views(aliases@),
            pv == views(patterns@),
            alias_views(r@) == display_order(
                shown_aliases(av.take(i as int), show_counts, show_all, global_only, pv),
                show_counts,
            ),
        decreases aliases.len() - i,
    {
        let a = &aliases[i];
        let ghost t = av.take(i + 1);
        assert(t.drop_last() =~= av.take(i as int));
        assert(t.last() == a@);
        let keep = (!global_only || a.global) && name_matches(a.name.as_str(), patterns) && (
        !show_counts || show_all || a.count > 0);
        if keep {
            let ghost rv = alias_views(r@);
            let mut p: usize = 0;
            assert(rv.skip(0) =~= rv);
            while p < r.len() && !precedes_exec(a, &r[p], show_counts)
                invariant
                    p <= r.len(),
                    rv == alias_views(r@),
                    insertion_point(rv, a@, show_counts) == p + insertion_point(
                        rv.skip(p as int),
                        a@,
                        show_counts,
                    ),
                decreases r.len() - p,
            {
                assert(rv.skip(p as int)[0] == r@[p as int]@);
                assert(rv.skip(p as int).skip(1) =~= rv.skip(p + 1));
                p = p + 1;
            }
            if p < r.len() {
                assert(rv.skip(p as int)[0] == r@[p as int]@);
            }
            let c = a.clone();
            r.insert(p, c);
            assert(alias_views(r@) =~= rv.insert(p as int, a@));
            assert(shown_aliases(t, show_counts, show_all, global_only, pv) =~= shown_aliases(
                av.take(i as int),
                show_counts,
                show_all,
                global_only,
                pv,
            ).push(a@));
            assert(shown_aliases(t, show_counts, show_all, global_only, pv).drop_last() =~= shown_aliases(
                av.take(i as int),
                show_counts,
                show_all,
                global_only,
                pv,
            ));
        } else {
            assert(shown_aliases(t, show_counts, show_all, global_only, pv) =~= shown_aliases(
                av.take(i as int),
                show_counts,
                show_all,
                global_only,
                pv,
            ));
        }
        i = i + 1;
    }
    assert(av.take(aliases.len() as int) =~= av);
    r
}

/// The listing of the aliases to list; see
/// [`prepare_aliases_for_display_iter`] and
/// [`format_alias_output_from_iter`].
pub fn format_aliases_efficiently(
    aliases: &[Alias],
    show_counts: bool,
    show_all: bool,
    global_only: bool,
    patterns: &[String],
) -> (r: String)
    requires
        forall|i: int| 0 <= i < aliases@.len() ==> byte_len(#[trigger] aliases@[i].name@) <= isize::MAX,
    ensures
        ({
            let listed = display_order(
                shown_aliases(alias_views(aliases@), show_counts, show_all, global_only, views(patterns@)),
                show_counts,
            );
            no_reset(listing(listed, show_counts)) ==> exists|outs: Seq<Seq<char>>|
                #[trigger] renders(listing(listed, show_counts), outs) && r@ == concat(outs)
        }),
{
    let prepared = prepare_aliases_for_display_iter(aliases, show_counts, show_all, global_only, patterns);
    proof {
        lemma_display_order_permutes(
            shown_aliases(alias_views(aliases@), show_counts, show_all, global_only, views(patterns@)),
            show_counts,
        );
        lemma_shown_subset(alias_views(aliases@), show_counts, show_all, global_only, views(patterns@));
        assert forall|i: int| 0 <= i < prepared@.len() implies byte_len(#[trigger] prepared@[i].name@)
            <= isize::MAX by {
            broadcast use vstd::seq_lib::group_to_multiset_ensures;
            let listed = alias_views(prepared@);
            assert(listed[i] == prepared@[i]@);
            assert(listed.contains(listed[i]));
            assert(listed.to_multiset().count(listed[i]) > 0);
            let shown_s = shown_aliases(alias_views(aliases@), show_counts, show_all, global_only, views(patterns@));
            assert(shown_s.to_multiset().count(listed[i]) > 0);
            assert(shown_s.contains(listed[i]));
            let k = choose|k: int| 0 <= k < shown_s.len() && shown_s[k] == listed[i];
            let m = choose|m: int| 0 <= m < aliases@.len() && alias_views(aliases@)[m] == shown_s[k];
            assert(alias_views(aliases@)[m] == aliases@[m]@);
        }
    }
    format_alias_output_from_iter(prepared.as_slice(), show_counts)
}

proof fn lemma_shown_subset(
    s: Seq<AliasView>,
    show_counts: bool,
    show_all: bool,
    global_only: bool,
    patterns: Seq<Seq<char>>,
)
    ensures
        forall|k: int|
            0 <= k < shown_aliases(s, show_counts, show_all, global_only, patterns).len() ==> exists|m: int|
                0 <= m < s.len() && s[m] == #[trigger] shown_aliases(
                    s,
                    show_counts,
                    show_all,
                    global_only,
                    patterns,
                )[k],
    decreases s.len(),
{
    if s.len() > 0 {
        lemma_shown_subset(s.drop_last(), show_counts, show_all, global_only, patterns);
        let prev = shown_aliases(s.drop_last(), show_counts, show_all, global_only, patterns);
        let cur = shown_aliases(s, show_counts, show_all, global_only, patterns);
        assert forall|k: int| 0 <= k < cur.len() implies exists|m: int| 0 <= m < s.len() && s[m] == #[trigger] cur[k] by {
            if k < prev.len() {
                assert(cur[k] == prev[k]);
                let m = choose|m: int| 0 <= m < s.drop_last().len() && s.drop_last()[m] == prev[k];
                assert(s[m] == s.drop_last()[m]);
            } else {
                assert(cur[k] == s.last());
                assert(s[s.len() - 1] == s.last());
            }
        }
    }
}

} // verus!
