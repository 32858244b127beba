use vstd::prelude::*;

use crate::errors::DotyError;

verus! {

// The lockfile is a small structured text document of three node kinds:
//
//     lockfileVersion 1
//     basePath "/some/base"
//     link source=nvim target="~/.config/nvim"
//
// one node per line. A value is written bare when it reads back as the
// same word, and quoted otherwise; quoting does not escape, so a value
// holding a quote or a line break cannot be represented (`safe_kdl_string`
// names the representable ones). The parser is total: it accepts exactly
// the shapes below and reports anything else as a configuration error.

/// Characters a bare word may consist of.
pub open spec fn is_ident_char(c: char) -> bool {
    ('a' <= c && c <= 'z') || ('A' <= c && c <= 'Z') || ('0' <= c && c <= '9') || c == '_' || c
        == '-' || c == '.'
}

/// Horizontal whitespace inside a line.
pub open spec fn is_ws(c: char) -> bool {
    c == ' ' || c == '\t'
}

/// Decimal digits.
pub open spec fn is_digit(c: char) -> bool {
    '0' <= c && c <= '9'
}

/// Every character of `s` is an identifier character.
pub open spec fn all_ident(s: Seq<char>) -> bool {
    forall|i: int| 0 <= i < s.len() ==> is_ident_char(s[i])
}

/// Every character of `s` is a digit.
pub open spec fn all_digits(s: Seq<char>) -> bool {
    forall|i: int| 0 <= i < s.len() ==> is_digit(s[i])
}

/// A string the document can carry: either a bare word, or free of the
/// quote and line-break characters that unescaped quoting cannot hold.
pub open spec fn safe_kdl_string(s: Seq<char>) -> bool {
    spec_is_bare(s) || (forall|i: int|
        0 <= i < s.len() ==> s[i] != '"' && s[i] != '\n')
}

/// A string written without quotes: a nonempty identifier word that is
/// not all digits (an all-digit word would read back as an integer).
pub open spec fn spec_is_bare(s: Seq<char>) -> bool {
    s.len() > 0 && all_ident(s) && !all_digits(s)
}

/// The first position at or after `i` that is not horizontal whitespace.
pub open spec fn spec_skip_ws(s: Seq<char>, i: int) -> int
    decreases s.len() - i,
{
    if i < 0 || i >= s.len() || !is_ws(s[i]) {
        i
    } else {
        spec_skip_ws(s, i + 1)
    }
}

/// The first position at or after `i` that is not an identifier
/// character.
pub open spec fn spec_ident_end(s: Seq<char>, i: int) -> int
    decreases s.len() - i,
{
    if i < 0 || i >= s.len() || !is_ident_char(s[i]) {
        i
    } else {
        spec_ident_end(s, i + 1)
    }
}

/// The first position at or after `i` holding a quote, or the length.
pub open spec fn spec_find_quote(s: Seq<char>, i: int) -> int
    decreases s.len() - i,
{
    if i < 0 || i >= s.len() {
        s.len() as int
    } else if s[i] == '"' {
        i
    } else {
        spec_find_quote(s, i + 1)
    }
}

/// The first position holding a line break, or the length.
pub open spec fn spec_find_nl(s: Seq<char>, i: int) -> int
    decreases s.len() - i,
{
    if i < 0 || i >= s.len() {
        s.len() as int
    } else if s[i] == '\n' {
        i
    } else {
        spec_find_nl(s, i + 1)
    }
}

/// A scanner run is pinned down by its span: if everything in `[i, j)`
/// continues the run and `j` stops it, the scanner stops at `j`.
pub proof fn lemma_skip_ws_span(s: Seq<char>, i: int, j: int)
    requires
        0 <= i <= j <= s.len(),
        forall|k: int| i <= k < j ==> is_ws(s[k]),
        j == s.len() || !is_ws(s[j]),
    ensures
        spec_skip_ws(s, i) == j,
    decreases j - i,
{
    if i < j {
        lemma_skip_ws_span(s, i + 1, j);
    }
}

/// See `lemma_skip_ws_span`.
pub proof fn lemma_ident_end_span(s: Seq<char>, i: int, j: int)
    requires
        0 <= i <= j <= s.len(),
        forall|k: int| i <= k < j ==> is_ident_char(s[k]),
        j == s.len() || !is_ident_char(s[j]),
    ensures
        spec_ident_end(s, i) == j,
    decreases j - i,
{
    if i < j {
        lemma_ident_end_span(s, i + 1, j);
    }
}

/// See `lemma_skip_ws_span`.
pub proof fn lemma_find_quote_span(s: Seq<char>, i: int, j: int)
    requires
        0 <= i <= j <= s.len(),
        forall|k: int| i <= k < j ==> s[k] != '"',
        j == s.len() || s[j] == '"',
    ensures
        spec_find_quote(s, i) == j,
    decreases j - i,
{
    if i < j {
        lemma_find_quote_span(s, i + 1, j);
    }
}

/// See `lemma_skip_ws_span`.
pub proof fn lemma_find_nl_span(s: Seq<char>, i: int, j: int)
    requires
        0 <= i <= j <= s.len(),
        forall|k: int| i <= k < j ==> s[k] != '\n',
        j == s.len() || s[j] == '\n',
    ensures
        spec_find_nl(s, i) == j,
    decreases j - i,
{
    if i < j {
        lemma_find_nl_span(s, i + 1, j);
    }
}

/// Wherever a scan for a line break starts, it stops within the text.
pub proof fn lemma_find_nl_bounds(s: Seq<char>, i: int)
    requires
        0 <= i <= s.len(),
    ensures
        i <= spec_find_nl(s, i) <= s.len(),
    decreases s.len() - i,
{
    if i < s.len() && s[i] != '\n' {
        lemma_find_nl_bounds(s, i + 1);
    }
}

/// What a line-break scan guarantees about the text it passed over.
pub proof fn lemma_find_nl_props(s: Seq<char>, i: int)
    requires
        0 <= i <= s.len(),
    ensures
        forall|k: int| i <= k < spec_find_nl(s, i) ==> s[k] != '\n',
        spec_find_nl(s, i) < s.len() ==> s[spec_find_nl(s, i)] == '\n',
    decreases s.len() - i,
{
    if i < s.len() && s[i] != '\n' {
        lemma_find_nl_props(s, i + 1);
    }
}

/// The lines of a document, split on line breaks; the break characters
/// belong to no line, and a trailing break opens no empty final line.
pub open spec fn spec_split_lines(s: Seq<char>) -> Seq<Seq<char>>
    decreases s.len() via spec_split_lines_decreases
{
    if s.len() == 0 {
        Seq::<Seq<char>>::empty()
    } else {
        let i = spec_find_nl(s, 0);
        if i == s.len() {
            seq![s]
        } else {
            seq![s.take(i)] + spec_split_lines(s.skip(i + 1))
        }
    }
}

#[via_fn]
proof fn spec_split_lines_decreases(s: Seq<char>) {
    if s.len() > 0 {
        lemma_find_nl_bounds(s, 0);
    }
}

/// Splitting takes one break-free line off the front at a time.
pub proof fn lemma_split_lines_step(a: Seq<char>, rest: Seq<char>)
    requires
        forall|k: int| 0 <= k < a.len() ==> a[k] != '\n',
    ensures
        spec_split_lines(a + seq!['\n'] + rest) == seq![a] + spec_split_lines(rest),
{
    let s = a + seq!['\n'] + rest;
    assert(s.len() > 0);
    assert(s[a.len() as int] == '\n');
    lemma_find_nl_span(s, 0, a.len() as int);
    assert(s.take(a.len() as int) =~= a);
    assert(s.skip(a.len() + 1int) =~= rest);
    assert(spec_split_lines(s) =~= seq![a] + spec_split_lines(rest));
}

/// The decimal numeral of `n`, most significant digit first.
pub open spec fn spec_dec(n: nat) -> Seq<char>
    decreases n,
{
    if n < 10 {
        seq![spec_digit_char(n)]
    } else {
        spec_dec(n / 10) + seq![spec_digit_char(n % 10)]
    }
}

/// The character for one digit.
pub open spec fn spec_digit_char(d: nat) -> char {
    if d == 0 {
        '0'
    } else if d == 1 {
        '1'
    } else if d == 2 {
        '2'
    } else if d == 3 {
        '3'
    } else if d == 4 {
        '4'
    } else if d == 5 {
        '5'
    } else if d == 6 {
        '6'
    } else if d == 7 {
        '7'
    } else if d == 8 {
        '8'
    } else {
        '9'
    }
}

/// The digit a character denotes.
pub open spec fn spec_digit_val(c: char) -> nat {
    ((c as int) - ('0' as int)) as nat
}

/// The number a digit string denotes.
pub open spec fn spec_digits_val(s: Seq<char>) -> nat
    decreases s.len(),
{
    if s.len() == 0 {
        0
    } else {
        spec_digits_val(s.drop_last()) * 10 + spec_digit_val(s.last())
    }
}

/// A numeral consists of digits and denotes its number back.
pub proof fn lemma_dec_val(n: nat)
    ensures
        spec_dec(n).len() >= 1,
        all_digits(spec_dec(n)),
        spec_digits_val(spec_dec(n)) == n,
    decreases n,
{
    if n < 10 {
        let w = seq![spec_digit_char(n)];
        assert(w.drop_last() =~= Seq::<char>::empty());
        assert(spec_digits_val(w.drop_last()) == 0);
        assert(w.last() == spec_digit_char(n));
        assert(spec_digits_val(w) == spec_digits_val(w.drop_last()) * 10 + spec_digit_val(
            w.last(),
        ));
        assert(spec_digit_val(spec_digit_char(n)) == n);
        assert(spec_digits_val(w) == n);
    } else {
        lemma_dec_val(n / 10);
        let a = spec_dec(n / 10);
        let w = a + seq![spec_digit_char(n % 10)];
        assert(w.drop_last() =~= a);
        assert(spec_digit_val(spec_digit_char(n % 10)) == n % 10);
        assert(spec_digits_val(w) == (n / 10) * 10 + n % 10);
        assert((n / 10) * 10 + n % 10 == n) by (nonlinear_arith);
        assert forall|i: int| 0 <= i < w.len() implies is_digit(w[i]) by {
            if i < a.len() {
                assert(is_digit(a[i]));
            }
        }
    }
}


/// A parsed entry value: an integer word (carrying its value when it
/// fits the version field, nothing when it is too large) or a string.
pub ghost enum ValueV {
    Int(Option<u32>),
    Str(Seq<char>),
}

/// One parsed entry: an optional property name and a value.
pub ghost struct EntryV {
    pub name: Option<Seq<char>>,
    pub value: ValueV,
}

/// What a bare word denotes: its number when it is all digits (usable
/// only when it fits `u32`), itself as a string otherwise.
pub open spec fn spec_classify(tok: Seq<char>) -> ValueV {
    if all_digits(tok) {
        ValueV::Int(
            if spec_digits_val(tok) <= u32::MAX {
                Some(spec_digits_val(tok) as u32)
            } else {
                None
            },
        )
    } else {
        ValueV::Str(tok)
    }
}

/// Parses one entry at position `j` (which must sit on a non-blank
/// character): a quoted string, a bare word, or `name=` followed by
/// either. Yields the entry and the position just past it.
pub open spec fn spec_parse_entry(s: Seq<char>, j: int) -> Option<(EntryV, int)> {
    if j < 0 || j >= s.len() {
        None
    } else if s[j] == '"' {
        let q = spec_find_quote(s, j + 1);
        if q >= s.len() {
            None
        } else {
            Some((EntryV { name: None, value: ValueV::Str(s.subrange(j + 1, q)) }, q + 1))
        }
    } else if is_ident_char(s[j]) {
        let e = spec_ident_end(s, j);
        if e < s.len() && s[e] == '=' {
            let name = s.subrange(j, e);
            if e + 1 < s.len() && s[e + 1] == '"' {
                let q = spec_find_quote(s, e + 2);
                if q >= s.len() {
                    None
                } else {
                    Some(
                        (
                            EntryV {
                                name: Some(name),
                                value: ValueV::Str(s.subrange(e + 2, q)),
                            },
                            q + 1,
                        ),
                    )
                }
            } else if e + 1 < s.len() && is_ident_char(s[e + 1]) {
                let e2 = spec_ident_end(s, e + 1);
                Some(
                    (
                        EntryV { name: Some(name), value: spec_classify(s.subrange(e + 1, e2)) },
                        e2,
                    ),
                )
            } else {
                None
            }
        } else {
            Some((EntryV { name: None, value: spec_classify(s.subrange(j, e)) }, e))
        }
    } else {
        None
    }
}

/// Wherever an identifier scan starts within the text, it stops within
/// the text.
pub proof fn lemma_ident_end_bounds(s: Seq<char>, i: int)
    requires
        0 <= i <= s.len(),
    ensures
        i <= spec_ident_end(s, i) <= s.len(),
    decreases s.len() - i,
{
    if i < s.len() && is_ident_char(s[i]) {
        lemma_ident_end_bounds(s, i + 1);
    }
}

/// Wherever a quote scan starts within the text, it stops within the
/// text.
pub proof fn lemma_find_quote_bounds(s: Seq<char>, i: int)
    requires
        0 <= i <= s.len(),
    ensures
        i <= spec_find_quote(s, i) <= s.len(),
    decreases s.len() - i,
{
    if i < s.len() && s[i] != '"' {
        lemma_find_quote_bounds(s, i + 1);
    }
}

/// A parsed entry ends past where it began and within the text.
pub proof fn lemma_parse_entry_bounds(s: Seq<char>, j: int)
    requires
        0 <= j < s.len(),
    ensures
        match spec_parse_entry(s, j) {
            Some((e, k)) => j < k <= s.len(),
            None => true,
        },
{
    if s[j] == '"' {
        lemma_find_quote_bounds(s, j + 1);
    } else if is_ident_char(s[j]) {
        lemma_ident_end_bounds(s, j + 1);
        let e = spec_ident_end(s, j);
        assert(e == spec_ident_end(s, j + 1));
        assert(e > j);
        if e < s.len() && s[e] == '=' {
            if e + 1 < s.len() && s[e + 1] == '"' {
                lemma_find_quote_bounds(s, e + 2);
            } else if e + 1 < s.len() && is_ident_char(s[e + 1]) {
                lemma_ident_end_bounds(s, e + 2);
                assert(spec_ident_end(s, e + 1) == spec_ident_end(s, e + 2));
                assert(spec_ident_end(s, e + 1) > e + 1);
            }
        }
    }
}

/// Parses the whitespace-separated entries from position `i` to the end
/// of the line; `None` on any malformed entry.
pub open spec fn spec_parse_entries(s: Seq<char>, i: int) -> Option<Seq<EntryV>>
    decreases s.len() - i via spec_parse_entries_decreases
{
    let j = spec_skip_ws(s, i);
    if j >= s.len() {
        Some(Seq::<EntryV>::empty())
    } else if j < i {
        None
    } else {
        match spec_parse_entry(s, j) {
            None => None,
            Some((e, k)) => if k <= j || k > s.len() {
                None
            } else {
                match spec_parse_entries(s, k) {
                    None => None,
                    Some(rest) => Some(seq![e] + rest),
                }
            },
        }
    }
}

#[via_fn]
proof fn spec_parse_entries_decreases(s: Seq<char>, i: int) {
}

/// The effect one line has on the document being read.
pub ghost enum LineEffV {
    Nothing,
    Version(u32),
    Base(Seq<char>),
    Link { target: Seq<char>, source: Seq<char> },
}

/// The `target` and `source` string properties a link node carries,
/// later entries overriding earlier ones, a non-string value clearing
/// the property, every other entry ignored.
pub open spec fn spec_link_props(entries: Seq<EntryV>) -> (Option<Seq<char>>, Option<Seq<char>>)
    decreases entries.len(),
{
    if entries.len() == 0 {
        (None, None)
    } else {
        let prev = spec_link_props(entries.drop_last());
        let e = entries.last();
        match e.name {
            Some(nm) => if nm == "target"@ {
                (
                    match e.value {
                        ValueV::Str(v) => Some(v),
                        ValueV::Int(n) => None,
                    },
                    prev.1,
                )
            } else if nm == "source"@ {
                (
                    prev.0,
                    match e.value {
                        ValueV::Str(v) => Some(v),
                        ValueV::Int(n) => None,
                    },
                )
            } else {
                prev
            },
            None => prev,
        }
    }
}

/// Parses one line. A blank line and an unknown node are without effect;
/// a version node needs a usable leading integer and a base-path node a
/// leading string to have one; a link node must carry both `target` and
/// `source` string properties. `None` is a malformed line.
pub open spec fn spec_parse_line(line: Seq<char>) -> Option<LineEffV> {
    let j = spec_skip_ws(line, 0);
    if j >= line.len() {
        Some(LineEffV::Nothing)
    } else if !is_ident_char(line[j]) {
        None
    } else {
        let e = spec_ident_end(line, j);
        let name = line.subrange(j, e);
        match spec_parse_entries(line, e) {
            None => None,
            Some(entries) => if name == "lockfileVersion"@ {
                if entries.len() > 0 {
                    match entries[0].value {
                        ValueV::Int(Some(v)) => Some(LineEffV::Version(v)),
                        _ => Some(LineEffV::Nothing),
                    }
                } else {
                    Some(LineEffV::Nothing)
                }
            } else if name == "basePath"@ {
                if entries.len() > 0 {
                    match entries[0].value {
                        ValueV::Str(b) => Some(LineEffV::Base(b)),
                        _ => Some(LineEffV::Nothing),
                    }
                } else {
                    Some(LineEffV::Nothing)
                }
            } else if name == "link"@ {
                match spec_link_props(entries) {
                    (Some(t), Some(src)) => Some(LineEffV::Link { target: t, source: src }),
                    _ => None,
                }
            } else {
                Some(LineEffV::Nothing)
            },
        }
    }
}

/// The in-memory shape of a parsed document.
pub ghost struct DocV {
    pub version: u32,
    pub base: Seq<char>,
    pub links: Seq<(Seq<char>, Seq<char>)>,
}

/// The position of target `t` among the pairs, or the length when absent.
pub open spec fn spec_key_index(links: Seq<(Seq<char>, Seq<char>)>, t: Seq<char>) -> int
    decreases links.len(),
{
    if links.len() == 0 {
        0
    } else if links[0].0 == t {
        0
    } else {
        1 + spec_key_index(links.skip(1), t)
    }
}

/// Recording a link: an existing pair for the same target is replaced in
/// place, a new target is appended.
pub open spec fn spec_links_update(
    links: Seq<(Seq<char>, Seq<char>)>,
    t: Seq<char>,
    src: Seq<char>,
) -> Seq<(Seq<char>, Seq<char>)> {
    let i = spec_key_index(links, t);
    if i < links.len() {
        links.update(i, (t, src))
    } else {
        links.push((t, src))
    }
}

/// How one line's effect folds into the document.
pub open spec fn spec_apply_line(d: DocV, eff: LineEffV) -> DocV {
    match eff {
        LineEffV::Nothing => d,
        LineEffV::Version(v) => DocV { version: v, ..d },
        LineEffV::Base(b) => DocV { base: b, ..d },
        LineEffV::Link { target, source } => DocV {
            links: spec_links_update(d.links, target, source),
            ..d
        },
    }
}

/// The document a reader starts from: version 1, base `.`, no links.
pub open spec fn spec_init_doc() -> DocV {
    DocV { version: 1, base: "."@, links: Seq::<(Seq<char>, Seq<char>)>::empty() }
}

/// Folds the lines into a starting document, front to back.
pub open spec fn spec_parse_doc_from(lines: Seq<Seq<char>>, acc: DocV) -> Option<DocV>
    decreases lines.len(),
{
    if lines.len() == 0 {
        Some(acc)
    } else {
        match spec_parse_line(lines[0]) {
            None => None,
            Some(eff) => spec_parse_doc_from(lines.skip(1), spec_apply_line(acc, eff)),
        }
    }
}

/// What a whole document text denotes, if anything.
pub open spec fn spec_parse(content: Seq<char>) -> Option<DocV> {
    spec_parse_doc_from(spec_split_lines(content), spec_init_doc())
}

/// How a value is written: bare when it reads back as the same word,
/// quoted (without escaping) otherwise.
pub open spec fn spec_render_value(s: Seq<char>) -> Seq<char> {
    if spec_is_bare(s) {
        s
    } else {
        seq!['"'] + s + seq!['"']
    }
}

/// The version marker line, without its line break.
pub open spec fn spec_version_core(v: u32) -> Seq<char> {
    "lockfileVersion"@ + seq![' '] + spec_dec(v as nat)
}

/// The version marker line.
pub open spec fn spec_version_line(v: u32) -> Seq<char> {
    spec_version_core(v) + seq!['\n']
}

/// The base-path marker line, without its line break.
pub open spec fn spec_base_core(b: Seq<char>) -> Seq<char> {
    "basePath"@ + seq![' '] + spec_render_value(b)
}

/// The base-path marker line.
pub open spec fn spec_base_line(b: Seq<char>) -> Seq<char> {
    spec_base_core(b) + seq!['\n']
}

/// One link record line, source before target, without its line break.
pub open spec fn spec_link_core(t: Seq<char>, src: Seq<char>) -> Seq<char> {
    "link"@ + seq![' '] + "source"@ + seq!['='] + spec_render_value(src) + seq![' ']
        + "target"@ + seq!['='] + spec_render_value(t)
}

/// One link record line, source before target.
pub open spec fn spec_link_line(t: Seq<char>, src: Seq<char>) -> Seq<char> {
    spec_link_core(t, src) + seq!['\n']
}

/// The link record lines, in stored order.
pub open spec fn spec_links_text(links: Seq<(Seq<char>, Seq<char>)>) -> Seq<char>
    decreases links.len(),
{
    if links.len() == 0 {
        Seq::<char>::empty()
    } else {
        spec_links_text(links.drop_last()) + spec_link_line(links.last().0, links.last().1)
    }
}

/// The whole document text a record is written as.
pub open spec fn spec_emit(v: u32, b: Seq<char>, links: Seq<(Seq<char>, Seq<char>)>) -> Seq<
    char,
> {
    spec_version_line(v) + spec_base_line(b) + spec_links_text(links)
}



/// Whether a character may stand in a bare word.
pub fn is_ident_char_x(c: char) -> (r: bool)
    ensures
        r == is_ident_char(c),
{
    ('a' <= c && c <= 'z') || ('A' <= c && c <= 'Z') || ('0' <= c && c <= '9') || c == '_' || c
        == '-' || c == '.'
}

/// Whether a character is horizontal whitespace.
pub fn is_ws_x(c: char) -> (r: bool)
    ensures
        r == is_ws(c),
{
    c == ' ' || c == '\t'
}

/// Whether a character is a decimal digit.
pub fn is_digit_x(c: char) -> (r: bool)
    ensures
        r == is_digit(c),
{
    '0' <= c && c <= '9'
}

/// The first position at or after `i` that is not horizontal whitespace.
fn skip_ws_at(s: &str, i: usize) -> (r: usize)
    requires
        i <= s@.len(),
    ensures
        r == spec_skip_ws(s@, i as int),
        i <= r <= s@.len(),
{
    let n = s.unicode_len();
    let mut j = i;
    while j < n && is_ws_x(s.get_char(j))
        invariant
            n == s@.len(),
            i <= j <= n,
            forall|k: int| i <= k < j ==> is_ws(s@[k]),
        decreases n - j,
    {
        j += 1;
    }
    proof {
        lemma_skip_ws_span(s@, i as int, j as int);
    }
    j
}

/// The first position at or after `i` that is not an identifier
/// character.
fn ident_end_at(s: &str, i: usize) -> (r: usize)
    requires
        i <= s@.len(),
    ensures
        r == spec_ident_end(s@, i as int),
        i <= r <= s@.len(),
{
    let n = s.unicode_len();
    let mut j = i;
    while j < n && is_ident_char_x(s.get_char(j))
        invariant
            n == s@.len(),
            i <= j <= n,
            forall|k: int| i <= k < j ==> is_ident_char(s@[k]),
        decreases n - j,
    {
        j += 1;
    }
    proof {
        lemma_ident_end_span(s@, i as int, j as int);
    }
    j
}

/// The first position at or after `i` holding a quote, or the length.
fn find_quote_at(s: &str, i: usize) -> (r: usize)
    requires
        i <= s@.len(),
    ensures
        r == spec_find_quote(s@, i as int),
        i <= r <= s@.len(),
{
    let n = s.unicode_len();
    let mut j = i;
    while j < n && s.get_char(j) != '"'
        invariant
            n == s@.len(),
            i <= j <= n,
            forall|k: int| i <= k < j ==> s@[k] != '"',
        decreases n - j,
    {
        j += 1;
    }
    proof {
        lemma_find_quote_span(s@, i as int, j as int);
    }
    j
}

/// The first position at or after `i` holding a line break, or the
/// length.
fn find_nl_at(s: &str, i: usize) -> (r: usize)
    requires
        i <= s@.len(),
    ensures
        r == spec_find_nl(s@, i as int),
        i <= r <= s@.len(),
{
    let n = s.unicode_len();
    let mut j = i;
    while j < n && s.get_char(j) != '\n'
        invariant
            n == s@.len(),
            i <= j <= n,
            forall|k: int| i <= k < j ==> s@[k] != '\n',
        decreases n - j,
    {
        j += 1;
    }
    proof {
        lemma_find_nl_span(s@, i as int, j as int);
    }
    j
}

/// Whether every character of the string is a digit.
fn all_digits_x(s: &str) -> (r: bool)
    ensures
        r == all_digits(s@),
{
    let n = s.unicode_len();
    let mut i: usize = 0;
    while i < n
        invariant
            n == s@.len(),
            i <= n,
            forall|k: int| 0 <= k < i ==> is_digit(s@[k]),
        decreases n - i,
    {
        if !is_digit_x(s.get_char(i)) {
            return false;
        }
        i += 1;
    }
    true
}

/// Whether every character of the string may stand in a bare word.
fn all_ident_x(s: &str) -> (r: bool)
    ensures
        r == all_ident(s@),
{
    let n = s.unicode_len();
    let mut i: usize = 0;
    while i < n
        invariant
            n == s@.len(),
            i <= n,
            forall|k: int| 0 <= k < i ==> is_ident_char(s@[k]),
        decreases n - i,
    {
        if !is_ident_char_x(s.get_char(i)) {
            return false;
        }
        i += 1;
    }
    true
}

/// Whether the string is written bare, following `spec_is_bare`.
pub fn is_bare_x(s: &str) -> (r: bool)
    ensures
        r == spec_is_bare(s@),
{
    s.unicode_len() > 0 && all_ident_x(s) && !all_digits_x(s)
}

/// The character for one digit.
fn digit_str(d: u32) -> (r: &'static str)
    requires
        d < 10,
    ensures
        r@ == seq![spec_digit_char(d as nat)],
{
    proof {
        reveal_strlit("0");
        reveal_strlit("1");
        reveal_strlit("2");
        reveal_strlit("3");
        reveal_strlit("4");
        reveal_strlit("5");
        reveal_strlit("6");
        reveal_strlit("7");
        reveal_strlit("8");
        reveal_strlit("9");
    }
    if d == 0 {
        proof {
            assert(("0")@ =~= seq![spec_digit_char(0)]);
        }
        "0"
    } else if d == 1 {
        proof {
            assert(("1")@ =~= seq![spec_digit_char(1)]);
        }
        "1"
    } else if d == 2 {
        proof {
            assert(("2")@ =~= seq![spec_digit_char(2)]);
        }
        "2"
    } else if d == 3 {
        proof {
            assert(("3")@ =~= seq![spec_digit_char(3)]);
        }
        "3"
    } else if d == 4 {
        proof {
            assert(("4")@ =~= seq![spec_digit_char(4)]);
        }
        "4"
    } else if d == 5 {
        proof {
            assert(("5")@ =~= seq![spec_digit_char(5)]);
        }
        "5"
    } else if d == 6 {
        proof {
            assert(("6")@ =~= seq![spec_digit_char(6)]);
        }
        "6"
    } else if d == 7 {
        proof {
            assert(("7")@ =~= seq![spec_digit_char(7)]);
        }
        "7"
    } else if d == 8 {
        proof {
            assert(("8")@ =~= seq![spec_digit_char(8)]);
        }
        "8"
    } else {
        proof {
            assert(("9")@ =~= seq![spec_digit_char(9)]);
        }
        "9"
    }
}

/// The decimal numeral of a number, following `spec_dec`.
pub fn dec_string(n: u32) -> (r: String)
    ensures
        r@ == spec_dec(n as nat),
    decreases n,
{
    if n < 10 {
        digit_str(n).to_owned()
    } else {
        let mut r = dec_string(n / 10);
        r.append(digit_str(n % 10));
        r
    }
}

/// Writes one value, following `spec_render_value`.
pub fn render_value(s: &str) -> (r: String)
    ensures
        r@ == spec_render_value(s@),
{
    if is_bare_x(s) {
        s.to_owned()
    } else {
        proof {
            reveal_strlit("\"");
            assert(("\"")@ =~= seq!['"']);
        }
        let mut r = String::from_str("\"");
        r.append(s);
        r.append("\"");
        proof {
            assert(r@ =~= spec_render_value(s@));
        }
        r
    }
}

/// A parsed entry value, the executable shape of `ValueV`.
#[derive(Debug, Clone)]
pub enum Value {
    Int(Option<u32>),
    Str(String),
}

/// The ghost shape of an executable value.
pub open spec fn value_view(v: Value) -> ValueV {
    match v {
        Value::Int(o) => ValueV::Int(o),
        Value::Str(s) => ValueV::Str(s@),
    }
}

/// Reads one bare word as a value, following `spec_classify`.
fn classify_token(tok: &str) -> (r: Value)
    ensures
        value_view(r) == spec_classify(tok@),
{
    if !all_digits_x(tok) {
        return Value::Str(tok.to_owned());
    }
    let n = tok.unicode_len();
    let mut acc: u64 = 0;
    let mut over = false;
    let mut i: usize = 0;
    while i < n
        invariant
            n == tok@.len(),
            i <= n,
            all_digits(tok@),
            !over ==> acc as nat == spec_digits_val(tok@.take(i as int)) && acc <= u32::MAX
                as u64,
            over ==> spec_digits_val(tok@.take(i as int)) > u32::MAX,
        decreases n - i,
    {
        let c = tok.get_char(i);
        proof {
            assert(is_digit(tok@[i as int]));
            assert(tok@.take(i + 1).drop_last() =~= tok@.take(i as int));
            assert(tok@.take(i + 1).last() == tok@[i as int]);
        }
        let d: u64 = (c as u32 - 48) as u64;
        proof {
            assert(spec_digit_val(c) == d);
            assert(spec_digits_val(tok@.take(i + 1)) == spec_digits_val(tok@.take(i as int)) * 10
                + d);
        }
        if !over {
            let next: u64 = acc * 10 + d;
            if next > 0xFFFF_FFFF {
                over = true;
            } else {
                acc = next;
            }
        } else {
            proof {
                assert(spec_digits_val(tok@.take(i as int)) * 10 >= spec_digits_val(
                    tok@.take(i as int),
                )) by (nonlinear_arith);
            }
        }
        i += 1;
    }
    proof {
        assert(tok@.take(n as int) =~= tok@);
    }
    if over {
        Value::Int(None)
    } else {
        Value::Int(Some(acc as u32))
    }
}



/// One parsed entry, the executable shape of `EntryV`.
#[derive(Debug, Clone)]
pub struct Entry {
    pub name: Option<String>,
    pub value: Value,
}

/// The ghost shape of an executable entry.
pub open spec fn entry_view(e: Entry) -> EntryV {
    EntryV { name: crate::paths::opt_str_view(e.name), value: value_view(e.value) }
}

/// Ghost shapes of a vector of entries.
pub open spec fn entries_views(s: Seq<Entry>) -> Seq<EntryV> {
    s.map_values(|e: Entry| entry_view(e))
}

/// Parses one entry at position `j`, following `spec_parse_entry`.
fn parse_entry_at(s: &str, j: usize) -> (r: Option<(Entry, usize)>)
    requires
        j < s@.len(),
    ensures
        match r {
            Some(ek) => spec_parse_entry(s@, j as int) == Some(
                (entry_view(ek.0), ek.1 as int),
            ) && j < ek.1 <= s@.len(),
            None => spec_parse_entry(s@, j as int) is None,
        },
{
    proof {
        lemma_parse_entry_bounds(s@, j as int);
    }
    let n = s.unicode_len();
    let c = s.get_char(j);
    if c == '"' {
        let q = find_quote_at(s, j + 1);
        if q >= n {
            return None;
        }
        let v = s.substring_char(j + 1, q);
        return Some((Entry { name: None, value: Value::Str(v.to_owned()) }, q + 1));
    }
    if !is_ident_char_x(c) {
        return None;
    }
    let e = ident_end_at(s, j);
    if e < n && s.get_char(e) == '=' {
        let name = s.substring_char(j, e);
        if e + 1 < n && s.get_char(e + 1) == '"' {
            let q = find_quote_at(s, e + 2);
            if q >= n {
                return None;
            }
            let v = s.substring_char(e + 2, q);
            return Some(
                (Entry { name: Some(name.to_owned()), value: Value::Str(v.to_owned()) }, q + 1),
            );
        }
        if e + 1 < n && is_ident_char_x(s.get_char(e + 1)) {
            let e2 = ident_end_at(s, e + 1);
            let tok = s.substring_char(e + 1, e2);
            return Some(
                (Entry { name: Some(name.to_owned()), value: classify_token(tok) }, e2),
            );
        }
        return None;
    }
    let tok = s.substring_char(j, e);
    Some((Entry { name: None, value: classify_token(tok) }, e))
}

/// What remains of an entry parse once a prefix is already in hand.
pub open spec fn spec_entries_cont(s: Seq<char>, i: int, pre: Seq<EntryV>) -> Option<
    Seq<EntryV>,
> {
    match spec_parse_entries(s, i) {
        None => None,
        Some(rest) => Some(pre + rest),
    }
}

/// Parses every entry from `start` to the end of the line, following
/// `spec_parse_entries`.
fn parse_entries_at(s: &str, start: usize) -> (r: Option<Vec<Entry>>)
    requires
        start <= s@.len(),
    ensures
        match r {
            Some(v) => spec_parse_entries(s@, start as int) == Some(entries_views(v@)),
            None => spec_parse_entries(s@, start as int) is None,
        },
{
    let n = s.unicode_len();
    let mut acc: Vec<Entry> = Vec::new();
    let mut i = start;
    loop
        invariant
            start <= i <= n,
            n == s@.len(),
            spec_parse_entries(s@, start as int) == spec_entries_cont(
                s@,
                i as int,
                entries_views(acc@),
            ),
        decreases n - i,
    {
        let j = skip_ws_at(s, i);
        if j >= n {
            proof {
                assert(spec_parse_entries(s@, i as int) == Some(Seq::<EntryV>::empty()));
                assert(entries_views(acc@) + Seq::<EntryV>::empty() =~= entries_views(acc@));
            }
            return Some(acc);
        }
        match parse_entry_at(s, j) {
            None => {
                proof {
                    assert(spec_parse_entries(s@, i as int) is None);
                }
                return None;
            },
            Some((e, k)) => {
                let ghost pre = entries_views(acc@);
                let ghost ev = entry_view(e);
                acc.push(e);
                proof {
                    assert(entries_views(acc@) =~= pre.push(ev));
                    assert(spec_parse_entries(s@, i as int) == match spec_parse_entries(
                        s@,
                        k as int,
                    ) {
                        None => None::<Seq<EntryV>>,
                        Some(rest) => Some(seq![ev] + rest),
                    });
                    assert(spec_parse_entries(s@, k as int) matches Some(rest) ==> pre.push(ev)
                        + rest =~= pre + (seq![ev] + rest));
                }
                i = k;
            },
        }
    }
}

/// The effect of one line, the executable shape of `LineEffV`.
#[derive(Debug, Clone)]
pub enum LineEff {
    Nothing,
    Version(u32),
    Base(String),
    Link { target: String, source: String },
}

/// The ghost shape of an executable line effect.
pub open spec fn line_eff_view(e: LineEff) -> LineEffV {
    match e {
        LineEff::Nothing => LineEffV::Nothing,
        LineEff::Version(v) => LineEffV::Version(v),
        LineEff::Base(b) => LineEffV::Base(b@),
        LineEff::Link { target, source } => LineEffV::Link { target: target@, source: source@ },
    }
}

/// The `target` and `source` string properties carried by a link node's
/// entries, following `spec_link_props`.
fn link_props(entries: &Vec<Entry>) -> (r: (Option<String>, Option<String>))
    ensures
        (
            crate::paths::opt_str_view(r.0),
            crate::paths::opt_str_view(r.1),
        ) == spec_link_props(entries_views(entries@)),
{
    let ghost ev = entries_views(entries@);
    let n = entries.len();
    let mut target: Option<String> = None;
    let mut source: Option<String> = None;
    let mut i: usize = 0;
    while i < n
        invariant
            n == entries@.len(),
            i <= n,
            ev == entries_views(entries@),
            (
                crate::paths::opt_str_view(target),
                crate::paths::opt_str_view(source),
            ) == spec_link_props(ev.take(i as int)),
        decreases n - i,
    {
        proof {
            assert(ev.take(i + 1).drop_last() =~= ev.take(i as int));
            assert(ev.take(i + 1).last() == ev[i as int]);
        }
        match &entries[i].name {
            Some(nm) => {
                if crate::paths::str_eq(nm.as_str(), "target") {
                    target = match &entries[i].value {
                        Value::Str(v) => Some(v.clone()),
                        Value::Int(x) => None,
                    };
                } else if crate::paths::str_eq(nm.as_str(), "source") {
                    source = match &entries[i].value {
                        Value::Str(v) => Some(v.clone()),
                        Value::Int(x) => None,
                    };
                }
            },
            None => {},
        }
        i += 1;
    }
    proof {
        assert(ev.take(n as int) =~= ev);
    }
    (target, source)
}

/// Parses one line, following `spec_parse_line`.
pub fn parse_line(line: &str) -> (r: Option<LineEff>)
    ensures
        match r {
            Some(eff) => spec_parse_line(line@) == Some(line_eff_view(eff)),
            None => spec_parse_line(line@) is None,
        },
{
    let n = line.unicode_len();
    let j = skip_ws_at(line, 0);
    if j >= n {
        return Some(LineEff::Nothing);
    }
    if !is_ident_char_x(line.get_char(j)) {
        return None;
    }
    let e = ident_end_at(line, j);
    let name = line.substring_char(j, e);
    match parse_entries_at(line, e) {
        None => None,
        Some(entries) => {
            if crate::paths::str_eq(name, "lockfileVersion") {
                if entries.len() > 0 {
                    match &entries[0].value {
                        Value::Int(Some(v)) => Some(LineEff::Version(*v)),
                        _ => Some(LineEff::Nothing),
                    }
                } else {
                    Some(LineEff::Nothing)
                }
            } else if crate::paths::str_eq(name, "basePath") {
                if entries.len() > 0 {
                    match &entries[0].value {
                        Value::Str(b) => Some(LineEff::Base(b.clone())),
                        _ => Some(LineEff::Nothing),
                    }
                } else {
                    Some(LineEff::Nothing)
                }
            } else if crate::paths::str_eq(name, "link") {
                let (t, src) = link_props(&entries);
                match t {
                    Some(tv) => match src {
                        Some(sv) => Some(LineEff::Link { target: tv, source: sv }),
                        None => None,
                    },
                    None => None,
                }
            } else {
                Some(LineEff::Nothing)
            }
        },
    }
}



/// `spec_key_index` is pinned down by a span of mismatches.
pub proof fn lemma_key_index_span(links: Seq<(Seq<char>, Seq<char>)>, t: Seq<char>, i: int)
    requires
        0 <= i <= links.len(),
        forall|m: int| 0 <= m < i ==> links[m].0 != t,
        i == links.len() || links[i].0 == t,
    ensures
        spec_key_index(links, t) == i,
    decreases i,
{
    if i > 0 {
        lemma_key_index_span(links.skip(1), t, i - 1);
    }
}

/// Records one link pair, following `spec_links_update`.
pub(crate) fn links_update(links: &mut Vec<(String, String)>, t: String, src: String)
    ensures
        crate::paths::spec_pair_views(final(links)@) == spec_links_update(
            crate::paths::spec_pair_views(old(links)@),
            t@,
            src@,
        ),
{
    let ghost lv = crate::paths::spec_pair_views(links@);
    let n = links.len();
    let mut i: usize = 0;
    while i < n
        invariant
            n == links@.len(),
            lv == crate::paths::spec_pair_views(links@),
            lv == crate::paths::spec_pair_views(old(links)@),
            i <= n,
            forall|m: int| 0 <= m < i ==> lv[m].0 != t@,
        decreases n - i,
    {
        if crate::paths::str_eq(links[i].0.as_str(), t.as_str()) {
            proof {
                lemma_key_index_span(lv, t@, i as int);
            }
            links.set(i, (t, src));
            proof {
                assert(spec_key_index(lv, t@) == i as int);
                assert(spec_links_update(lv, t@, src@) == lv.update(i as int, (t@, src@)));
                assert(crate::paths::spec_pair_views(links@) =~= lv.update(
                    i as int,
                    (t@, src@),
                ));
            }
            return ;
        }
        i += 1;
    }
    proof {
        lemma_key_index_span(lv, t@, n as int);
    }
    links.push((t, src));
    proof {
        assert(spec_key_index(lv, t@) == n as int);
        assert(spec_links_update(lv, t@, src@) == lv.push((t@, src@)));
        assert(crate::paths::spec_pair_views(links@) =~= lv.push((t@, src@)));
    }
}

/// Writes a whole document, following `spec_emit`: the version marker,
/// the base-path marker, then one link record per stored pair, in stored
/// order.
pub fn emit_document(version: u32, base: &str, links: &Vec<(String, String)>) -> (r: String)
    ensures
        r@ == spec_emit(version, base@, crate::paths::spec_pair_views(links@)),
{
    proof {
        reveal_strlit(" ");
        reveal_strlit("=");
        reveal_strlit("\n");
        assert((" ")@ =~= seq![' ']);
        assert(("=")@ =~= seq!['=']);
        assert(("\n")@ =~= seq!['\n']);
    }
    let ghost lv = crate::paths::spec_pair_views(links@);
    let mut r = String::from_str("lockfileVersion");
    r.append(" ");
    let num = dec_string(version);
    r.append(num.as_str());
    r.append("\n");
    proof {
        assert(r@ =~= spec_version_line(version));
    }
    r.append("basePath");
    r.append(" ");
    let bv = render_value(base);
    r.append(bv.as_str());
    r.append("\n");
    proof {
        assert(r@ =~= spec_version_line(version) + spec_base_line(base@));
    }
    let n = links.len();
    let mut i: usize = 0;
    while i < n
        invariant
            n == links@.len(),
            lv == crate::paths::spec_pair_views(links@),
            i <= n,
            r@ == spec_version_line(version) + spec_base_line(base@) + spec_links_text(
                lv.take(i as int),
            ),
        decreases n - i,
    {
        proof {
            reveal_strlit(" ");
            reveal_strlit("=");
            reveal_strlit("\n");
            assert((" ")@ =~= seq![' ']);
            assert(("=")@ =~= seq!['=']);
            assert(("\n")@ =~= seq!['\n']);
        }
        let ghost r0 = r@;
        r.append("link");
        r.append(" ");
        r.append("source");
        r.append("=");
        let sv = render_value(links[i].1.as_str());
        r.append(sv.as_str());
        r.append(" ");
        r.append("target");
        r.append("=");
        let tv = render_value(links[i].0.as_str());
        r.append(tv.as_str());
        r.append("\n");
        proof {
            assert(lv.take(i + 1).drop_last() =~= lv.take(i as int));
            assert(lv.take(i + 1).last() == lv[i as int]);
            assert(r@ =~= r0 + spec_link_line(lv[i as int].0, lv[i as int].1));
            assert(r@ =~= spec_version_line(version) + spec_base_line(base@) + spec_links_text(
                lv.take(i + 1),
            ));
        }
        i += 1;
    }
    proof {
        assert(lv.take(n as int) =~= lv);
        assert(r@ =~= spec_emit(version, base@, lv));
    }
    r
}

/// Reads a whole document, following `spec_parse`: line by line, each
/// line's effect folded into the record, any malformed line reported as
/// a configuration error.
pub fn parse_document(content: &str) -> (r: Result<(u32, String, Vec<(String, String)>), DotyError>)
    ensures
        match r {
            Ok(d) => spec_parse(content@) == Some(
                DocV { version: d.0, base: d.1@, links: crate::paths::spec_pair_views(d.2@) },
            ),
            Err(e) => spec_parse(content@) is None && e is ConfigError,
        },
{
    let n = content.unicode_len();
    let mut pos: usize = 0;
    let mut version: u32 = 1;
    let mut base: String = String::from_str(".");
    let mut links: Vec<(String, String)> = Vec::new();
    proof {
        assert(content@.skip(0) =~= content@);
        assert(crate::paths::spec_pair_views(links@) =~= Seq::<(Seq<char>, Seq<char>)>::empty());
        assert((DocV {
            version: version,
            base: base@,
            links: crate::paths::spec_pair_views(links@),
        }) == spec_init_doc());
    }
    while pos < n
        invariant
            pos <= n,
            n == content@.len(),
            spec_parse(content@) == spec_parse_doc_from(
                spec_split_lines(content@.skip(pos as int)),
                DocV {
                    version: version,
                    base: base@,
                    links: crate::paths::spec_pair_views(links@),
                },
            ),
        decreases n - pos,
    {
        let ghost d0 = DocV {
            version: version,
            base: base@,
            links: crate::paths::spec_pair_views(links@),
        };
        let ghost tail = content@.skip(pos as int);
        let i = find_nl_at(content, pos);
        let line = content.substring_char(pos, i);
        proof {
            lemma_find_nl_props(content@, pos as int);
            assert(line@ =~= tail.take(i - pos));
            assert(forall|k: int| 0 <= k < i - pos ==> tail[k] != '\n');
            if i < n {
                assert(tail[i - pos] == '\n');
                lemma_find_nl_span(tail, 0, i - pos);
                assert(tail.take(i - pos) =~= line@);
                assert(tail.skip(i - pos + 1) =~= content@.skip(i + 1));
                lemma_split_lines_step(line@, content@.skip(i + 1));
                assert(line@ + seq!['\n'] + content@.skip(i + 1) =~= tail);
                assert(spec_split_lines(tail) == seq![line@] + spec_split_lines(
                    content@.skip(i + 1),
                ));
            } else {
                lemma_find_nl_span(tail, 0, i - pos);
                assert(tail.len() > 0);
                assert(tail =~= line@);
                assert(spec_split_lines(tail) == seq![line@]);
            }
            assert(spec_split_lines(tail).len() > 0);
            assert(spec_split_lines(tail)[0] == line@);
        }
        match parse_line(line) {
            None => {
                proof {
                    assert(spec_parse_doc_from(spec_split_lines(tail), d0) is None);
                }
                return Err(
                    DotyError::ConfigError(
                        String::from_str("the lockfile holds a line this tool cannot read"),
                    ),
                );
            },
            Some(eff) => {
                let ghost effv = line_eff_view(eff);
                let ghost rest_lines = spec_split_lines(tail).skip(1);
                proof {
                    assert(spec_parse_doc_from(spec_split_lines(tail), d0)
                        == spec_parse_doc_from(rest_lines, spec_apply_line(d0, effv)));
                    if i < n {
                        assert(rest_lines =~= spec_split_lines(content@.skip(i + 1)));
                    } else {
                        assert(rest_lines =~= Seq::<Seq<char>>::empty());
                        assert(content@.skip(n as int) =~= Seq::<char>::empty());
                        assert(rest_lines =~= spec_split_lines(content@.skip(n as int)));
                    }
                }
                match eff {
                    LineEff::Nothing => {},
                    LineEff::Version(v) => {
                        version = v;
                    },
                    LineEff::Base(b) => {
                        base = b;
                    },
                    LineEff::Link { target, source } => {
                        links_update(&mut links, target, source);
                    },
                }
                if i >= n {
                    pos = n;
                } else {
                    pos = i + 1;
                }
            },
        }
    }
    proof {
        assert(content@.skip(pos as int) =~= Seq::<char>::empty());
        assert(spec_split_lines(content@.skip(pos as int)) =~= Seq::<Seq<char>>::empty());
    }
    Ok((version, base, links))
}





/// The identifier words the format uses, with their lengths.
proof fn lemma_format_words()
    ensures
        all_ident("lockfileVersion"@),
        "lockfileVersion"@.len() == 15,
        all_ident("basePath"@),
        "basePath"@.len() == 8,
        all_ident("link"@),
        "link"@.len() == 4,
        all_ident("source"@),
        "source"@.len() == 6,
        all_ident("target"@),
        "target"@.len() == 6,
        "link"@ != "lockfileVersion"@,
        "link"@ != "basePath"@,
        "basePath"@ != "lockfileVersion"@,
        "source"@ != "target"@,
{
    reveal_strlit("lockfileVersion");
    reveal_strlit("basePath");
    reveal_strlit("link");
    reveal_strlit("source");
    reveal_strlit("target");
    assert(("source"@)[0] == 's');
    assert(("target"@)[0] == 't');
}

/// A rendered value is nonempty, free of line breaks, and free of
/// whitespace and `=` at its first character.
proof fn lemma_render_props(s: Seq<char>)
    requires
        safe_kdl_string(s),
    ensures
        spec_render_value(s).len() >= 1,
        forall|k: int|
            0 <= k < spec_render_value(s).len() ==> #[trigger] spec_render_value(s)[k] != '\n',
{
    let rv = spec_render_value(s);
    if spec_is_bare(s) {
        assert forall|k: int| 0 <= k < rv.len() implies rv[k] != '\n' by {
            assert(is_ident_char(s[k]));
        }
    } else {
        assert forall|k: int| 0 <= k < rv.len() implies rv[k] != '\n' by {
            if 1 <= k < s.len() + 1 {
                assert(s[k - 1] != '\n');
            }
        }
    }
}

/// Parsing an unnamed rendered value: from position `p`, where the line
/// carries `spec_render_value(s)` followed by a space or the line's end,
/// one string entry is read.
proof fn lemma_parse_value_entry(line: Seq<char>, p: int, s: Seq<char>)
    requires
        safe_kdl_string(s),
        0 <= p,
        p + spec_render_value(s).len() <= line.len(),
        line.subrange(p, p + spec_render_value(s).len()) == spec_render_value(s),
        p + spec_render_value(s).len() == line.len() || line[p + spec_render_value(s).len()]
            == ' ',
    ensures
        spec_parse_entry(line, p) == Some(
            (
                EntryV { name: None, value: ValueV::Str(s) },
                p + spec_render_value(s).len(),
            ),
        ),
{
    let rv = spec_render_value(s);
    let q = p + rv.len();
    assert forall|k: int| p <= k < q implies line[k] == rv[k - p] by {
        assert(line.subrange(p, q)[k - p] == line[k]);
    }
    if spec_is_bare(s) {
        assert(forall|k: int| p <= k < q ==> is_ident_char(line[k]));
        assert(q == line.len() || !is_ident_char(line[q]));
        lemma_ident_end_span(line, p, q);
        assert(line[p] != '"');
        assert(line.subrange(p, q) =~= s);
        assert(!(q < line.len() && line[q] == '='));
        assert(spec_classify(s) == ValueV::Str(s));
    } else {
        assert(line[p] == '"');
        assert(rv[rv.len() - 1] == '"');
        assert(forall|k: int| 0 <= k < s.len() ==> s[k] != '"');
        assert forall|k: int| p + 1 <= k < q - 1 implies line[k] != '"' by {
            assert(rv[k - p] == s[k - p - 1]);
        }
        assert(line[q - 1] == '"');
        lemma_find_quote_span(line, p + 1, q - 1);
        assert(line.subrange(p + 1, q - 1) =~= s);
    }
}

/// Parsing a named rendered value `nm=VALUE`: from position `p`, where
/// the line carries the name, `=`, and the rendered value followed by a
/// space or the line's end, one named string entry is read.
proof fn lemma_parse_named_entry(line: Seq<char>, p: int, nm: Seq<char>, s: Seq<char>)
    requires
        safe_kdl_string(s),
        nm.len() > 0,
        all_ident(nm),
        0 <= p,
        p + nm.len() + 1 + spec_render_value(s).len() <= line.len(),
        line.subrange(p, p + nm.len()) == nm,
        line[p + nm.len()] == '=',
        line.subrange(
            p + nm.len() + 1,
            p + nm.len() + 1 + spec_render_value(s).len(),
        ) == spec_render_value(s),
        p + nm.len() + 1 + spec_render_value(s).len() == line.len() || line[p + nm.len() + 1
            + spec_render_value(s).len()] == ' ',
    ensures
        spec_parse_entry(line, p) == Some(
            (
                EntryV { name: Some(nm), value: ValueV::Str(s) },
                p + nm.len() + 1 + spec_render_value(s).len(),
            ),
        ),
{
    let rv = spec_render_value(s);
    let e = p + nm.len();
    let vp = e + 1;
    let q = vp + rv.len();
    assert forall|k: int| p <= k < e implies line[k] == nm[k - p] by {
        assert(line.subrange(p, e)[k - p] == line[k]);
    }
    assert(forall|k: int| p <= k < e ==> is_ident_char(line[k]));
    assert(!is_ident_char('='));
    lemma_ident_end_span(line, p, e);
    assert(is_ident_char(line[p]));
    assert(line[p] != '"');
    assert(line.subrange(p, e) =~= nm);
    assert forall|k: int| vp <= k < q implies line[k] == rv[k - vp] by {
        assert(line.subrange(vp, q)[k - vp] == line[k]);
    }
    if spec_is_bare(s) {
        assert(forall|k: int| vp <= k < q ==> is_ident_char(line[k]));
        assert(is_ident_char(line[vp]));
        assert(line[vp] != '"');
        assert(q == line.len() || !is_ident_char(line[q]));
        lemma_ident_end_span(line, vp, q);
        assert(line.subrange(vp, q) =~= s);
        assert(spec_classify(s) == ValueV::Str(s));
    } else {
        assert(line[vp] == '"');
        assert(rv[rv.len() - 1] == '"');
        assert(forall|k: int| 0 <= k < s.len() ==> s[k] != '"');
        assert forall|k: int| vp + 1 <= k < q - 1 implies line[k] != '"' by {
            assert(rv[k - vp] == s[k - vp - 1]);
        }
        assert(line[q - 1] == '"');
        lemma_find_quote_span(line, vp + 1, q - 1);
        assert(line.subrange(vp + 1, q - 1) =~= s);
    }
}

/// The version marker line reads back as its version.
proof fn lemma_parse_version_core(v: u32)
    ensures
        spec_parse_line(spec_version_core(v)) == Some(LineEffV::Version(v)),
        forall|k: int|
            0 <= k < spec_version_core(v).len() ==> #[trigger] spec_version_core(v)[k] != '\n',
{
    lemma_format_words();
    lemma_dec_val(v as nat);
    let line = spec_version_core(v);
    let d = spec_dec(v as nat);
    assert(line.len() == 16 + d.len());
    assert forall|k: int| 0 <= k < line.len() implies line[k] != '\n' by {
        if k < 15 {
            assert(is_ident_char(line[k]));
        } else if k == 15 {
            assert(line[k] == ' ');
        } else {
            assert(line[k] == d[k - 16]);
            assert(is_digit(d[k - 16]));
        }
    }
    assert(is_ident_char(line[0]));
    assert(!is_ws(line[0]));
    lemma_skip_ws_span(line, 0, 0);
    assert(forall|k: int| 0 <= k < 15 ==> is_ident_char(line[k]));
    assert(line[15] == ' ');
    assert(!is_ident_char(' '));
    lemma_ident_end_span(line, 0, 15);
    assert(line.subrange(0, 15) =~= "lockfileVersion"@);
    // entries: one bare integer word
    assert(is_ws(line[15]));
    assert(line[16] == d[0]);
    assert(is_digit(d[0]));
    assert(!is_ws(line[16]));
    lemma_skip_ws_span(line, 15, 16);
    assert forall|k: int| 16 <= k < line.len() implies is_ident_char(line[k]) by {
        assert(line[k] == d[k - 16]);
        assert(is_digit(d[k - 16]));
    }
    lemma_ident_end_span(line, 16, line.len() as int);
    assert(line[16] != '"');
    let tok = line.subrange(16, line.len() as int);
    assert(tok =~= d);
    assert(all_digits(tok));
    assert(spec_digits_val(tok) == v as nat);
    assert(spec_classify(tok) == ValueV::Int(Some(v)));
    let entry = EntryV { name: None, value: ValueV::Int(Some(v)) };
    assert(spec_parse_entry(line, 16) == Some((entry, line.len() as int)));
    lemma_skip_ws_span(line, line.len() as int, line.len() as int);
    assert(spec_parse_entries(line, line.len() as int) == Some(Seq::<EntryV>::empty()));
    assert(spec_parse_entries(line, 15) == Some(seq![entry] + Seq::<EntryV>::empty()));
    assert(seq![entry] + Seq::<EntryV>::empty() =~= seq![entry]);
    assert(spec_parse_line(line) == Some(LineEffV::Version(v)));
}

/// The base-path marker line reads back as its path.
proof fn lemma_parse_base_core(b: Seq<char>)
    requires
        safe_kdl_string(b),
    ensures
        spec_parse_line(spec_base_core(b)) == Some(LineEffV::Base(b)),
        forall|k: int|
            0 <= k < spec_base_core(b).len() ==> #[trigger] spec_base_core(b)[k] != '\n',
{
    lemma_format_words();
    lemma_render_props(b);
    let line = spec_base_core(b);
    let rv = spec_render_value(b);
    assert(line.len() == 9 + rv.len());
    assert forall|k: int| 0 <= k < line.len() implies line[k] != '\n' by {
        if k < 8 {
            assert(is_ident_char(line[k]));
        } else if k == 8 {
            assert(line[k] == ' ');
        } else {
            assert(line[k] == rv[k - 9]);
        }
    }
    assert(is_ident_char(line[0]));
    assert(!is_ws(line[0]));
    lemma_skip_ws_span(line, 0, 0);
    assert(forall|k: int| 0 <= k < 8 ==> is_ident_char(line[k]));
    assert(line[8] == ' ');
    lemma_ident_end_span(line, 0, 8);
    assert(line.subrange(0, 8) =~= "basePath"@);
    assert(is_ws(line[8]));
    assert(line.subrange(9, line.len() as int) =~= rv);
    if spec_is_bare(b) {
        assert(line[9] == rv[0]);
        assert(is_ident_char(line[9]));
        assert(!is_ws(line[9]));
    } else {
        assert(line[9] == '"');
        assert(!is_ws(line[9]));
    }
    lemma_skip_ws_span(line, 8, 9);
    lemma_parse_value_entry(line, 9, b);
    let entry = EntryV { name: None, value: ValueV::Str(b) };
    lemma_skip_ws_span(line, line.len() as int, line.len() as int);
    assert(spec_parse_entries(line, line.len() as int) == Some(Seq::<EntryV>::empty()));
    assert(spec_parse_entries(line, 8) == Some(seq![entry] + Seq::<EntryV>::empty()));
    assert(seq![entry] + Seq::<EntryV>::empty() =~= seq![entry]);
    assert(spec_parse_line(line) == Some(LineEffV::Base(b)));
}

/// A link record line reads back as its target and source.
#[verifier::rlimit(60)]
proof fn lemma_parse_link_core(t: Seq<char>, src: Seq<char>)
    requires
        safe_kdl_string(t),
        safe_kdl_string(src),
    ensures
        spec_parse_line(spec_link_core(t, src)) == Some(
            LineEffV::Link { target: t, source: src },
        ),
        forall|k: int|
            0 <= k < spec_link_core(t, src).len() ==> #[trigger] spec_link_core(t, src)[k]
                != '\n',
{
    lemma_format_words();
    lemma_render_props(t);
    lemma_render_props(src);
    let line = spec_link_core(t, src);
    let rs = spec_render_value(src);
    let rt = spec_render_value(t);
    let p1 = 5int;
    let v1 = p1 + 7;
    let q1 = v1 + rs.len();
    let p2 = q1 + 1;
    let v2 = p2 + 7;
    let q2 = v2 + rt.len();
    assert(line.len() == q2);
    assert forall|k: int| 0 <= k < line.len() implies line[k] != '\n' by {
        if k < 4 {
            assert(is_ident_char(line[k]));
        } else if k == 4 {
            assert(line[k] == ' ');
        } else if k < 11 {
            assert(line[k] == ("source"@)[k - 5]);
            assert(is_ident_char(line[k]));
        } else if k == 11 {
            assert(line[k] == '=');
        } else if k < q1 {
            assert(line[k] == rs[k - 12]);
        } else if k == q1 {
            assert(line[k] == ' ');
        } else if k < v2 - 1 {
            assert(line[k] == ("target"@)[k - p2]);
            assert(is_ident_char(line[k]));
        } else if k == v2 - 1 {
            assert(line[k] == '=');
        } else {
            assert(line[k] == rt[k - v2]);
        }
    }
    assert(is_ident_char(line[0]));
    assert(!is_ws(line[0]));
    lemma_skip_ws_span(line, 0, 0);
    assert(forall|k: int| 0 <= k < 4 ==> is_ident_char(line[k]));
    assert(line[4] == ' ');
    lemma_ident_end_span(line, 0, 4);
    assert(line.subrange(0, 4) =~= "link"@);
    assert(is_ws(line[4]));
    assert(line[5] == ("source"@)[0]);
    assert(is_ident_char(line[5]));
    assert(!is_ws(line[5]));
    lemma_skip_ws_span(line, 4, 5);
    assert(line.subrange(5, 11) =~= "source"@);
    assert(line[11] == '=');
    assert(line.subrange(12, q1) =~= rs);
    assert(line[q1] == ' ');
    lemma_parse_named_entry(line, 5, "source"@, src);
    let e1 = EntryV { name: Some("source"@), value: ValueV::Str(src) };
    assert(spec_parse_entry(line, 5) == Some((e1, q1)));
    assert(is_ws(line[q1]));
    assert(line[p2] == ("target"@)[0]);
    assert(is_ident_char(line[p2]));
    assert(!is_ws(line[p2]));
    lemma_skip_ws_span(line, q1, p2);
    assert(line.subrange(p2, p2 + 6) =~= "target"@);
    assert(line[p2 + 6] == '=');
    assert(line.subrange(v2, q2) =~= rt);
    lemma_parse_named_entry(line, p2, "target"@, t);
    let e2 = EntryV { name: Some("target"@), value: ValueV::Str(t) };
    assert(spec_parse_entry(line, p2) == Some((e2, q2)));
    lemma_skip_ws_span(line, q2, q2);
    assert(spec_parse_entries(line, q2) == Some(Seq::<EntryV>::empty()));
    assert(spec_parse_entries(line, q1) == Some(seq![e2] + Seq::<EntryV>::empty()));
    let es2 = seq![e2] + Seq::<EntryV>::empty();
    assert(spec_parse_entries(line, 4) == Some(seq![e1] + es2));
    let es = seq![e1] + es2;
    assert(es =~= seq![e1, e2]);
    assert(es.len() == 2);
    assert(es.drop_last() =~= seq![e1]);
    assert(es.last() == e2);
    assert(seq![e1].drop_last() =~= Seq::<EntryV>::empty());
    assert(seq![e1].last() == e1);
    assert(spec_link_props(Seq::<EntryV>::empty()) == (None::<Seq<char>>, None::<Seq<char>>));
    assert(spec_link_props(seq![e1]) == (None::<Seq<char>>, Some(src)));
    assert(spec_link_props(es) == (Some(t), Some(src)));
    assert(spec_parse_line(line) == Some(LineEffV::Link { target: t, source: src }));
}



/// The link lines can be peeled from the front as well.
proof fn lemma_links_text_front(links: Seq<(Seq<char>, Seq<char>)>)
    requires
        links.len() > 0,
    ensures
        spec_links_text(links) == spec_link_line(links[0].0, links[0].1) + spec_links_text(
            links.skip(1),
        ),
    decreases links.len(),
{
    if links.len() == 1 {
        assert(links.drop_last() =~= Seq::<(Seq<char>, Seq<char>)>::empty());
        assert(links.skip(1) =~= Seq::<(Seq<char>, Seq<char>)>::empty());
        assert(spec_links_text(links.skip(1)) == Seq::<char>::empty());
        assert(spec_links_text(links) =~= spec_link_line(links[0].0, links[0].1)
            + spec_links_text(links.skip(1)));
    } else {
        lemma_links_text_front(links.drop_last());
        assert(links.skip(1).drop_last() =~= links.drop_last().skip(1));
        assert(links.skip(1).last() == links.last());
        assert(links.drop_last()[0] == links[0]);
        assert(spec_links_text(links) == spec_links_text(links.drop_last()) + spec_link_line(
            links.last().0,
            links.last().1,
        ));
        assert(spec_links_text(links.skip(1)) == spec_links_text(links.skip(1).drop_last())
            + spec_link_line(links.skip(1).last().0, links.skip(1).last().1));
        assert(spec_links_text(links) =~= spec_link_line(links[0].0, links[0].1)
            + spec_links_text(links.skip(1)));
    }
}

/// Reading the emitted link lines onto a document appends exactly the
/// emitted pairs, provided no target repeats and none is already there.
#[verifier::rlimit(100)]
proof fn lemma_parse_links_fold(rest: Seq<(Seq<char>, Seq<char>)>, d: DocV)
    requires
        forall|i: int|
            0 <= i < rest.len() ==> safe_kdl_string(#[trigger] rest[i].0) && safe_kdl_string(
                rest[i].1,
            ),
        forall|i: int, j: int| 0 <= i < j < rest.len() ==> rest[i].0 != rest[j].0,
        forall|i: int, m: int|
            0 <= i < rest.len() && 0 <= m < d.links.len() ==> (#[trigger] rest[i]).0 != (
            #[trigger] d.links[m]).0,
    ensures
        spec_parse_doc_from(spec_split_lines(spec_links_text(rest)), d) == Some(
            DocV { version: d.version, base: d.base, links: d.links + rest, ..d },
        ),
    decreases rest.len(),
{
    if rest.len() == 0 {
        assert(spec_links_text(rest) == Seq::<char>::empty());
        assert(spec_split_lines(Seq::<char>::empty()) =~= Seq::<Seq<char>>::empty());
        assert(d.links + rest =~= d.links);
    } else {
        let t = rest[0].0;
        let src = rest[0].1;
        lemma_links_text_front(rest);
        lemma_parse_link_core(t, src);
        let core = spec_link_core(t, src);
        let tail_text = spec_links_text(rest.skip(1));
        assert(spec_links_text(rest) =~= core + seq!['\n'] + tail_text);
        lemma_split_lines_step(core, tail_text);
        let lines = spec_split_lines(spec_links_text(rest));
        assert(lines == seq![core] + spec_split_lines(tail_text));
        assert(lines.len() > 0);
        assert(lines[0] == core);
        assert(lines.skip(1) =~= spec_split_lines(tail_text));
        assert(spec_parse_line(core) == Some(LineEffV::Link { target: t, source: src }));
        let d2 = spec_apply_line(d, LineEffV::Link { target: t, source: src });
        assert(forall|m: int| 0 <= m < d.links.len() ==> (#[trigger] d.links[m]).0 != t);
        lemma_key_index_span(d.links, t, d.links.len() as int);
        assert(d2.links == d.links.push((t, src)));
        assert forall|i: int, m: int|
            0 <= i < rest.skip(1).len() && 0 <= m < d2.links.len() implies (#[trigger] rest.skip(
            1,
        )[i]).0 != (#[trigger] d2.links[m]).0 by {
            assert(rest.skip(1)[i] == rest[i + 1]);
            if m < d.links.len() {
                assert(rest[i + 1].0 != d.links[m].0);
            } else {
                assert(d2.links[m] == (t, src));
                assert(rest[i + 1].0 != rest[0].0);
            }
        }
        assert forall|i: int, j: int|
            0 <= i < j < rest.skip(1).len() implies (#[trigger] rest.skip(1)[i]).0 != (
        #[trigger] rest.skip(1)[j]).0 by {
            assert(rest.skip(1)[i] == rest[i + 1]);
            assert(rest.skip(1)[j] == rest[j + 1]);
        }
        assert forall|i: int|
            0 <= i < rest.skip(1).len() implies safe_kdl_string(
            (#[trigger] rest.skip(1)[i]).0,
        ) && safe_kdl_string(rest.skip(1)[i].1) by {
            assert(rest.skip(1)[i] == rest[i + 1]);
        }
        lemma_parse_links_fold(rest.skip(1), d2);
        assert(d2.links + rest.skip(1) =~= d.links + rest);
    }
}

/// The emitted text splits into the version line, the base line, and
/// the link lines.
proof fn lemma_emit_lines(v: u32, b: Seq<char>, links: Seq<(Seq<char>, Seq<char>)>)
    requires
        safe_kdl_string(b),
    ensures
        spec_split_lines(spec_emit(v, b, links)) == seq![spec_version_core(v)] + (
        seq![spec_base_core(b)] + spec_split_lines(spec_links_text(links))),
{
    lemma_parse_version_core(v);
    lemma_parse_base_core(b);
    let vc = spec_version_core(v);
    let bc = spec_base_core(b);
    let ltext = spec_links_text(links);
    let text = spec_emit(v, b, links);
    assert(text =~= vc + seq!['\n'] + (bc + seq!['\n'] + ltext));
    lemma_split_lines_step(vc, bc + seq!['\n'] + ltext);
    lemma_split_lines_step(bc, ltext);
    assert(spec_split_lines(text) == seq![vc] + (seq![bc] + spec_split_lines(ltext)));
}

/// Round trip: a document written by `spec_emit` reads back as the same
/// record, provided every stored string is representable and no target
/// repeats.
#[verifier::rlimit(100)]
pub proof fn lemma_codec_roundtrip(v: u32, b: Seq<char>, links: Seq<(Seq<char>, Seq<char>)>)
    requires
        safe_kdl_string(b),
        forall|i: int|
            0 <= i < links.len() ==> safe_kdl_string(#[trigger] links[i].0) && safe_kdl_string(
                links[i].1,
            ),
        forall|i: int, j: int| 0 <= i < j < links.len() ==> links[i].0 != links[j].0,
    ensures
        spec_parse(spec_emit(v, b, links)) == Some(DocV { version: v, base: b, links: links }),
{
    let vc = spec_version_core(v);
    let bc = spec_base_core(b);
    let ltext = spec_links_text(links);
    let text = spec_emit(v, b, links);
    lemma_emit_lines(v, b, links);
    let lines = spec_split_lines(text);
    assert(lines == seq![vc] + (seq![bc] + spec_split_lines(ltext)));
    assert(lines.len() >= 2);
    assert(lines[0] == vc);
    assert(lines.skip(1) =~= seq![bc] + spec_split_lines(ltext));
    assert(spec_parse_line(vc) == Some(LineEffV::Version(v))) by {
        lemma_parse_version_core(v);
    }
    let d0 = spec_init_doc();
    let d1 = spec_apply_line(d0, LineEffV::Version(v));
    assert(spec_parse_doc_from(lines, d0) == spec_parse_doc_from(lines.skip(1), d1));
    let lines1 = seq![bc] + spec_split_lines(ltext);
    assert(lines1[0] == bc);
    assert(lines1.skip(1) =~= spec_split_lines(ltext));
    assert(spec_parse_line(bc) == Some(LineEffV::Base(b))) by {
        lemma_parse_base_core(b);
    }
    let d2 = spec_apply_line(d1, LineEffV::Base(b));
    assert(spec_parse_doc_from(lines1, d1) == spec_parse_doc_from(lines1.skip(1), d2));
    assert(d2.version == v);
    assert(d2.base == b);
    assert(d2.links =~= Seq::<(Seq<char>, Seq<char>)>::empty());
    lemma_parse_links_fold(links, d2);
    assert(d2.links + links =~= links);
}


/// Finds the position of target `t` among the pairs, following
/// `spec_key_index`.
pub(crate) fn find_key(links: &Vec<(String, String)>, t: &str) -> (r: Option<usize>)
    ensures
        match r {
            Some(i) => i < links@.len() && spec_key_index(
                crate::paths::spec_pair_views(links@),
                t@,
            ) == i as int,
            None => spec_key_index(crate::paths::spec_pair_views(links@), t@)
                == links@.len(),
        },
{
    let ghost lv = crate::paths::spec_pair_views(links@);
    let n = links.len();
    let mut i: usize = 0;
    while i < n
        invariant
            n == links@.len(),
            lv == crate::paths::spec_pair_views(links@),
            i <= n,
            forall|m: int| 0 <= m < i ==> lv[m].0 != t@,
        decreases n - i,
    {
        if crate::paths::str_eq(links[i].0.as_str(), t) {
            proof {
                lemma_key_index_span(lv, t@, i as int);
            }
            return Some(i);
        }
        i += 1;
    }
    proof {
        lemma_key_index_span(lv, t@, n as int);
    }
    None
}

/// Replacing or adding one pair keeps targets unique.
pub proof fn lemma_links_update_unique(
    links: Seq<(Seq<char>, Seq<char>)>,
    t: Seq<char>,
    src: Seq<char>,
)
    requires
        forall|i: int, j: int| 0 <= i < j < links.len() ==> links[i].0 != links[j].0,
    ensures
        forall|i: int, j: int|
            0 <= i < j < spec_links_update(links, t, src).len() ==> spec_links_update(
                links,
                t,
                src,
            )[i].0 != spec_links_update(links, t, src)[j].0,
{
    let k = spec_key_index(links, t);
    lemma_key_index_props(links, t);
    let r = spec_links_update(links, t, src);
    if k < links.len() {
        assert forall|i: int, j: int| 0 <= i < j < r.len() implies r[i].0 != r[j].0 by {
            if i != k && j != k {
                assert(r[i].0 == links[i].0);
                assert(r[j].0 == links[j].0);
            } else if i == k {
                assert(r[i].0 == t);
                assert(r[j].0 == links[j].0);
                assert(links[k].0 == t);
            } else {
                assert(r[j].0 == t);
                assert(r[i].0 == links[i].0);
                assert(links[k].0 == t);
            }
        }
    } else {
        assert forall|i: int, j: int| 0 <= i < j < r.len() implies r[i].0 != r[j].0 by {
            if j == links.len() {
                assert(r[j].0 == t);
                assert(r[i].0 == links[i].0);
                assert(links[i].0 != t);
            } else {
                assert(r[i].0 == links[i].0);
                assert(r[j].0 == links[j].0);
            }
        }
    }
}

/// Where the key scan stops: at a matching pair when the target is
/// there, at the end when it is not.
pub proof fn lemma_key_index_props(links: Seq<(Seq<char>, Seq<char>)>, t: Seq<char>)
    ensures
        0 <= spec_key_index(links, t) <= links.len(),
        spec_key_index(links, t) < links.len() ==> links[spec_key_index(links, t)].0 == t,
        forall|m: int| 0 <= m < spec_key_index(links, t) ==> links[m].0 != t,
    decreases links.len(),
{
    if links.len() > 0 && links[0].0 != t {
        lemma_key_index_props(links.skip(1), t);
        let k = spec_key_index(links, t);
        assert(k == 1 + spec_key_index(links.skip(1), t));
        assert forall|m: int| 0 <= m < k implies links[m].0 != t by {
            if m > 0 {
                assert(links.skip(1)[m - 1] == links[m]);
            }
        }
        if k < links.len() {
            assert(links.skip(1)[k - 1] == links[k]);
        }
    }
}


} // verus!
