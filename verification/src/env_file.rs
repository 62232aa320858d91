//! `app.env` / `.env` parsing and rendering.
use vstd::prelude::*;

use crate::text::{
    chars_of, decimal, find_char, first_index, is_ascii_alnum, is_ascii_alpha, is_ws,
    lemma_first_index_found, lemma_first_index_props, trim_end, trim_start, owned, push_char, push_decimal, push_str, split_once, starts_with,
    string_of, strip_prefix_or_self, sub_chars, trim, trim_chars,
};

verus! {

/// One `KEY=value` entry of an env file.
#[derive(Debug, Clone, PartialEq, Eq)]
pub struct EnvFileEntry {
    pub key: String,
    pub value: String,
}

impl View for EnvFileEntry {
    type V = (Seq<char>, Seq<char>);

    open spec fn view(&self) -> (Seq<char>, Seq<char>) {
        (self.key@, self.value@)
    }
}

impl EnvFileEntry {
    pub fn new(key: &str, value: &str) -> (e: Self)
        ensures
            e.key@ == key@,
            e.value@ == value@,
    {
        EnvFileEntry { key: owned(key), value: owned(value) }
    }
}

/// A rejected env file line: its 1-based number and the reason.
#[derive(Debug, Clone, PartialEq, Eq)]
pub struct EnvFileError {
    pub line: usize,
    pub message: String,
}

impl EnvFileError {
    fn new(line: usize, message: &str) -> (e: Self)
        ensures
            e.line == line,
            e.message@ == message@,
    {
        EnvFileError { line, message: owned(message) }
    }

    /// The human-readable form of the error: `invalid env file line {line}: {message}`.
    pub fn to_display_string(&self) -> (s: String)
        ensures
            s@ == "invalid env file line "@ + decimal(self.line as nat) + ": "@ + self.message@,
    {
        let mut s = owned("invalid env file line ");
        push_decimal(&mut s, self.line as u64);
        push_str(&mut s, ": ");
        push_str(&mut s, self.message.as_str());
        s
    }
}

/// Views of a sequence of entries.
pub open spec fn entries_view(es: Seq<EnvFileEntry>) -> Seq<(Seq<char>, Seq<char>)> {
    es.map_values(|e: EnvFileEntry| e@)
}

// ---------------------------------------------------------------------------
// Specification
// ---------------------------------------------------------------------------

/// `line` without one trailing carriage return.
pub open spec fn strip_cr(line: Seq<char>) -> Seq<char> {
    if line.len() > 0 && line.last() == '\r' {
        line.drop_last()
    } else {
        line
    }
}

/// The lines of `s` as `str::lines` yields them: split after each `\n`, the
/// `\n` (and a `\r` before it) removed, no empty line after a final `\n`.
pub open spec fn lines(s: Seq<char>) -> Seq<Seq<char>>
    decreases s.len(),
{
    if s.len() == 0 {
        Seq::empty()
    } else {
        match first_index(s, '\n') {
            Some(k) => if 0 <= k < s.len() {
                seq![strip_cr(s.take(k))] + lines(s.skip(k + 1))
            } else {
                seq![s]
            },
            None => seq![s],
        }
    }
}

/// The `export ` keyword that may precede an assignment.
pub open spec fn export_prefix() -> Seq<char> {
    seq!['e', 'x', 'p', 'o', 'r', 't', ' ']
}

/// A valid env key: a letter or `_`, then letters, digits or `_`.
pub open spec fn valid_env_key(k: Seq<char>) -> bool {
    &&& k.len() > 0
    &&& (k[0] == '_' || is_ascii_alpha(k[0]))
    &&& forall|i: int| 1 <= i < k.len() ==> (#[trigger] k[i] == '_' || is_ascii_alnum(k[i]))
}

/// `v` without one pair of matching surrounding quotes (`"` or `'`).
pub open spec fn unquote(v: Seq<char>) -> Seq<char> {
    if v.len() >= 2 && ((v[0] == '"' && v.last() == '"') || (v[0] == '\'' && v.last() == '\'')) {
        v.subrange(1, v.len() - 1)
    } else {
        v
    }
}

/// What one line contributes: `None` for a blank or comment line, an entry,
/// or the reason the line is rejected.
pub open spec fn parse_line(line: Seq<char>) -> Option<Result<(Seq<char>, Seq<char>), Seq<char>>> {
    let t = trim(line);
    if t.len() == 0 || t[0] == '#' {
        None
    } else {
        let l = trim(strip_prefix_or_self(t, export_prefix()));
        match split_once(l, '=') {
            None => Some(Err("missing '='"@)),
            Some((k, v)) => if valid_env_key(trim(k)) {
                Some(Ok((trim(k), unquote(trim(v)))))
            } else {
                Some(Err("invalid key"@))
            },
        }
    }
}

/// Parses the lines `ls`, the first of which has number `n`.
pub open spec fn parse_lines(ls: Seq<Seq<char>>, n: int) -> Result<
    Seq<(Seq<char>, Seq<char>)>,
    (int, Seq<char>),
>
    decreases ls.len(),
{
    if ls.len() == 0 {
        Ok(Seq::empty())
    } else {
        match parse_line(ls[0]) {
            None => parse_lines(ls.drop_first(), n + 1),
            Some(Err(m)) => Err((n, m)),
            Some(Ok(e)) => match parse_lines(ls.drop_first(), n + 1) {
                Ok(es) => Ok(seq![e] + es),
                Err(x) => Err(x),
            },
        }
    }
}

/// The result of parsing the env file text `s`.
pub open spec fn parse_env(s: Seq<char>) -> Result<Seq<(Seq<char>, Seq<char>)>, (int, Seq<char>)> {
    parse_lines(lines(s), 1)
}

/// `es` prepended to the entries of a parse result.
pub open spec fn prepend_entries(
    es: Seq<(Seq<char>, Seq<char>)>,
    r: Result<Seq<(Seq<char>, Seq<char>)>, (int, Seq<char>)>,
) -> Result<Seq<(Seq<char>, Seq<char>)>, (int, Seq<char>)> {
    match r {
        Ok(rest) => Ok(es + rest),
        Err(x) => Err(x),
    }
}

/// The text of one rendered entry, without its newline.
pub open spec fn entry_text(e: (Seq<char>, Seq<char>)) -> Seq<char> {
    e.0 + seq!['='] + e.1
}

/// The rendered env file: one `KEY=value\n` line per entry, in order.
pub open spec fn render_env(es: Seq<(Seq<char>, Seq<char>)>) -> Seq<char>
    decreases es.len(),
{
    if es.len() == 0 {
        Seq::empty()
    } else {
        render_env(es.drop_last()) + entry_text(es.last()) + seq!['\n']
    }
}

/// An entry that rendering and parsing give back unchanged: a valid key, and
/// a value on one line, without surrounding whitespace or surrounding quotes.
pub open spec fn round_trips(e: (Seq<char>, Seq<char>)) -> bool {
    &&& valid_env_key(e.0)
    &&& forall|i: int| 0 <= i < e.1.len() ==> #[trigger] e.1[i] != '\n'
    &&& trim(e.1) == e.1
    &&& unquote(e.1) == e.1
}

// ---------------------------------------------------------------------------
// Executable code
// ---------------------------------------------------------------------------

/// Whether `k` is a valid env key.
fn is_valid_env_key(k: &[char]) -> (b: bool)
    ensures
        b == valid_env_key(k@),
{
    if k.len() == 0 {
        return false;
    }
    let first = k[0];
    if !(first == '_' || ('a' <= first && first <= 'z') || ('A' <= first && first <= 'Z')) {
        return false;
    }
    let mut i: usize = 1;
    while i < k.len()
        invariant
            1 <= i <= k.len(),
            forall|j: int| 1 <= j < i ==> (#[trigger] k@[j] == '_' || is_ascii_alnum(k@[j])),
        decreases k.len() - i,
    {
        let c = k[i];
        if !(c == '_' || ('a' <= c && c <= 'z') || ('A' <= c && c <= 'Z') || ('0' <= c && c
            <= '9')) {
            return false;
        }
        i = i + 1;
    }
    true
}

/// Removes one pair of matching surrounding quotes.
fn unquote_env_value(v: &[char]) -> (r: Vec<char>)
    ensures
        r@ == unquote(v@),
{
    let n = v.len();
    if n >= 2 && ((v[0] == '"' && v[n - 1] == '"') || (v[0] == '\'' && v[n - 1] == '\'')) {
        sub_chars(v, 1, n - 1)
    } else {
        sub_chars(v, 0, n)
    }
}

/// Interprets one line of an env file.
fn parse_env_line(line: &[char]) -> (r: Option<Result<EnvFileEntry, &'static str>>)
    ensures
        match (r, parse_line(line@)) {
            (None, None) => true,
            (Some(Ok(e)), Some(Ok(x))) => e@ == x,
            (Some(Err(m)), Some(Err(x))) => m@ == x,
            _ => false,
        },
{
    let t = trim_chars(line);
    if t.len() == 0 || t[0] == '#' {
        return None;
    }
    let prefix = vec!['e', 'x', 'p', 'o', 'r', 't', ' '];
    assert(prefix@ == export_prefix());
    let stripped = if starts_with(&t, &prefix) {
        sub_chars(&t, prefix.len(), t.len())
    } else {
        sub_chars(&t, 0, t.len())
    };
    assert(stripped@ =~= strip_prefix_or_self(t@, export_prefix()));
    let l = trim_chars(&stripped);
    match find_char(&l, '=') {
        None => Some(Err("missing '='")),
        Some(i) => {
            let k0 = sub_chars(&l, 0, i);
            let v0 = sub_chars(&l, i + 1, l.len());
            assert(k0@ =~= l@.take(i as int));
            assert(v0@ =~= l@.skip(i + 1));
            assert(split_once(l@, '=') == Some((k0@, v0@)));
            let k = trim_chars(&k0);
            if !is_valid_env_key(&k) {
                return Some(Err("invalid key"));
            }
            let v1 = trim_chars(&v0);
            let v = unquote_env_value(&v1);
            Some(Ok(EnvFileEntry { key: string_of(&k), value: string_of(&v) }))
        },
    }
}

proof fn lemma_lines_step(s: Seq<char>, k: int)
    requires
        0 <= k < s.len(),
        first_index(s, '\n') == Some(k),
    ensures
        lines(s) == seq![strip_cr(s.take(k))] + lines(s.skip(k + 1)),
{
}

proof fn lemma_lines_last(s: Seq<char>)
    requires
        s.len() > 0,
        first_index(s, '\n') == None::<int>,
    ensures
        lines(s) == seq![s],
{
}

/// Parses env file text into its entries, in order. Blank lines and lines
/// starting with `#` are skipped; `export ` before a key is allowed; one pair
/// of matching quotes around a value is removed.
pub fn parse_env_file(content: &str) -> (r: Result<Vec<EnvFileEntry>, EnvFileError>)
    ensures
        match (r, parse_env(content@)) {
            (Ok(es), Ok(xs)) => entries_view(es@) == xs,
            (Err(e), Err((n, m))) => e.line == n && e.message@ == m,
            _ => false,
        },
{
    let v = chars_of(content);
    let mut entries: Vec<EnvFileEntry> = Vec::new();
    let mut pos: usize = 0;
    let mut line_number: usize = 1;
    assert(v@.skip(0) == v@);
    while pos < v.len()
        invariant
            v@ == content@,
            0 <= pos <= v.len(),
            1 <= line_number <= pos + 1,
            parse_env(content@) == prepend_entries(
                entries_view(entries@),
                parse_lines(lines(v@.skip(pos as int)), line_number as int),
            ),
        decreases v.len() - pos,
    {
        let rest = sub_chars(&v, pos, v.len());
        let ghost old_entries = entries_view(entries@);
        let (line, next) = match find_char(&rest, '\n') {
            Some(k) => {
                proof {
                    lemma_first_index_props(rest@, '\n');
                    lemma_lines_step(rest@, k as int);
                    assert(rest@.skip(k + 1) == v@.skip(pos + k + 1));
                }
                let mut raw = sub_chars(&rest, 0, k);
                if raw.len() > 0 && raw[raw.len() - 1] == '\r' {
                    raw.pop();
                }
                assert(raw@ == strip_cr(rest@.take(k as int)));
                (raw, pos + k + 1)
            },
            None => {
                proof {
                    lemma_lines_last(rest@);
                    assert(v@.skip(v.len() as int).len() == 0);
                }
                (rest, v.len())
            },
        };
        let ghost ls = lines(v@.skip(pos as int));
        assert(ls.len() > 0 && ls[0] == line@);
        assert(lines(v@.skip(next as int)) == ls.drop_first());
        match parse_env_line(&line) {
            None => {},
            Some(Err(m)) => {
                return Err(EnvFileError::new(line_number, m));
            },
            Some(Ok(e)) => {
                entries.push(e);
                proof {
                    assert(entries_view(entries@) =~= old_entries.push(e@));
                    match parse_lines(ls.drop_first(), line_number + 1) {
                        Ok(es) => {
                            assert(old_entries + (seq![e@] + es) =~= old_entries.push(e@) + es);
                        },
                        Err(_) => {},
                    }
                }
            },
        }
        pos = next;
        if pos < v.len() {
            line_number = line_number + 1;
        }
    }
    proof {
        assert(v@.skip(pos as int).len() == 0);
        assert(entries_view(entries@) + Seq::<(Seq<char>, Seq<char>)>::empty() =~= entries_view(
            entries@,
        ));
    }
    Ok(entries)
}

/// Renders entries as env file text: `KEY=value` and a newline per entry, in
/// order, values written as they are.
pub fn render_env_file(entries: Vec<EnvFileEntry>) -> (s: String)
    ensures
        s@ == render_env(entries_view(entries@)),
{
    let mut output = String::new();
    let mut i: usize = 0;
    while i < entries.len()
        invariant
            0 <= i <= entries.len(),
            output@ == render_env(entries_view(entries@.take(i as int))),
        decreases entries.len() - i,
    {
        let entry = &entries[i];
        push_str(&mut output, entry.key.as_str());
        push_char(&mut output, '=');
        push_str(&mut output, entry.value.as_str());
        push_char(&mut output, '\n');
        i = i + 1;
        proof {
            let es = entries_view(entries@.take(i as int));
            assert(es.drop_last() =~= entries_view(entries@.take(i - 1)));
            assert(output@ =~= render_env(es));
        }
    }
    assert(entries@.take(entries.len() as int) == entries@);
    output
}


// ---------------------------------------------------------------------------
// Round trip of rendering and parsing
// ---------------------------------------------------------------------------

proof fn lemma_trim_start_len(s: Seq<char>)
    ensures
        trim_start(s).len() <= s.len(),
        trim_start(s).len() == s.len() ==> trim_start(s) == s,
    decreases s.len(),
{
    if s.len() > 0 && is_ws(s[0]) {
        lemma_trim_start_len(s.drop_first());
    }
}

proof fn lemma_trim_end_len(s: Seq<char>)
    ensures
        trim_end(s).len() <= s.len(),
        trim_end(s).len() == s.len() ==> trim_end(s) == s,
    decreases s.len(),
{
    if s.len() > 0 && is_ws(s.last()) {
        lemma_trim_end_len(s.drop_last());
    }
}

/// A trimmed non-empty text starts and ends with non-whitespace.
proof fn lemma_trimmed_ends(s: Seq<char>)
    requires
        trim(s) == s,
        s.len() > 0,
    ensures
        !is_ws(s[0]),
        !is_ws(s.last()),
{
    lemma_trim_start_len(s);
    lemma_trim_end_len(trim_start(s));
    if is_ws(s[0]) {
        lemma_trim_start_len(s.drop_first());
        assert(false);
    }
    assert(trim_start(s) == s);
    if is_ws(s.last()) {
        lemma_trim_end_len(s.drop_last());
        assert(false);
    }
}

/// Text without surrounding whitespace is left alone by `trim`.
proof fn lemma_trim_noop(s: Seq<char>)
    requires
        s.len() > 0 ==> !is_ws(s[0]) && !is_ws(s.last()),
    ensures
        trim(s) == s,
{
}

/// Appending one terminated line to newline-terminated text appends one line.
proof fn lemma_lines_append(a: Seq<char>, l: Seq<char>)
    requires
        a.len() == 0 || a.last() == '\n',
        forall|i: int| 0 <= i < l.len() ==> #[trigger] l[i] != '\n',
    ensures
        lines(a + l + seq!['\n']) == lines(a).push(strip_cr(l)),
    decreases a.len(),
{
    let s = a + l + seq!['\n'];
    if a.len() == 0 {
        assert(a + l == l);
        lemma_first_index_found(s, '\n', l.len() as int);
        assert(s.take(l.len() as int) == l);
        assert(s.skip(l.len() as int + 1).len() == 0);
        lemma_lines_step(s, l.len() as int);
        assert(lines(s.skip(l.len() as int + 1)) == Seq::<Seq<char>>::empty());
        assert(lines(a) == Seq::<Seq<char>>::empty());
        assert(lines(s) =~= lines(a).push(strip_cr(l)));
    } else {
        lemma_first_index_props(a, '\n');
        let k = first_index(a, '\n')->0;
        assert(0 <= k < a.len());
        assert forall|j: int| 0 <= j < k implies #[trigger] s[j] != '\n' by {
            assert(s[j] == a[j]);
        }
        lemma_first_index_found(s, '\n', k);
        let rest = a.skip(k + 1);
        assert(rest.len() == 0 || rest.last() == '\n');
        lemma_lines_append(rest, l);
        assert(s.take(k) == a.take(k));
        assert(s.skip(k + 1) == rest + l + seq!['\n']);
        assert(lines(s) == seq![strip_cr(a.take(k))] + lines(rest + l + seq!['\n']));
        assert(lines(a) == seq![strip_cr(a.take(k))] + lines(rest));
        assert(lines(s) =~= lines(a).push(strip_cr(l)));
    }
}

/// The lines of rendered entries are their `KEY=value` texts.
proof fn lemma_render_lines(es: Seq<(Seq<char>, Seq<char>)>)
    requires
        forall|i: int| 0 <= i < es.len() ==> round_trips(#[trigger] es[i]),
    ensures
        lines(render_env(es)) == es.map_values(|e: (Seq<char>, Seq<char>)| entry_text(e)),
    decreases es.len(),
{
    if es.len() == 0 {
        assert(lines(render_env(es)) =~= es.map_values(
            |e: (Seq<char>, Seq<char>)| entry_text(e),
        ));
    } else {
        let init = es.drop_last();
        let e = es.last();
        assert forall|i: int| 0 <= i < init.len() implies round_trips(#[trigger] init[i]) by {
            assert(init[i] == es[i]);
        }
        assert(round_trips(es[es.len() - 1]));
        lemma_render_lines(init);
        let r = render_env(init);
        if init.len() > 0 {
            assert(r.last() == '\n');
        }
        let t = entry_text(e);
        assert forall|i: int| 0 <= i < t.len() implies #[trigger] t[i] != '\n' by {
            if i < e.0.len() {
                assert(t[i] == e.0[i]);
                if i > 0 {
                    assert(e.0[i] == '_' || is_ascii_alnum(e.0[i]));
                }
            } else if i > e.0.len() {
                assert(t[i] == e.1[i - e.0.len() - 1]);
            }
        }
        lemma_lines_append(r, t);
        if e.1.len() > 0 {
            lemma_trimmed_ends(e.1);
            assert(t.last() == e.1.last());
        }
        assert(strip_cr(t) == t);
        assert(lines(render_env(es)) =~= es.map_values(
            |e: (Seq<char>, Seq<char>)| entry_text(e),
        ));
    }
}

/// A rendered entry line parses back to the entry.
proof fn lemma_parse_entry_line(e: (Seq<char>, Seq<char>))
    requires
        round_trips(e),
    ensures
        parse_line(entry_text(e)) == Some(Ok::<(Seq<char>, Seq<char>), Seq<char>>(e)),
{
    lemma_parse_assignment(e.0, e.1);
}

/// A line `KEY=value`, with a valid key and a value without surrounding
/// whitespace, parses to the key and the unquoted value.
proof fn lemma_parse_assignment(k: Seq<char>, v: Seq<char>)
    requires
        valid_env_key(k),
        trim(v) == v,
    ensures
        parse_line(k + seq!['='] + v) == Some(
            Ok::<(Seq<char>, Seq<char>), Seq<char>>((k, unquote(v))),
        ),
{
    let t = k + seq!['='] + v;
    assert(t[0] == k[0]);
    if v.len() > 0 {
        lemma_trimmed_ends(v);
        assert(t.last() == v.last());
    } else {
        assert(t.last() == '=');
    }
    lemma_trim_noop(t);
    let p = export_prefix();
    if p.is_prefix_of(t) {
        if k.len() >= 7 {
            assert(t[6] == k[6]);
            assert(t[6] == p[6]);
            assert(k[6] == '_' || is_ascii_alnum(k[6]));
        } else {
            let j = k.len() as int;
            assert(t[j] == '=');
            assert(t[j] == p[j]);
        }
        assert(false);
    }
    assert(strip_prefix_or_self(t, p) == t);
    assert forall|j: int| 0 <= j < k.len() implies #[trigger] t[j] != '=' by {
        assert(t[j] == k[j]);
        if j > 0 {
            assert(k[j] == '_' || is_ascii_alnum(k[j]));
        }
    }
    lemma_first_index_found(t, '=', k.len() as int);
    assert(t.take(k.len() as int) == k);
    assert(t.skip(k.len() as int + 1) == v);
    if k.len() > 1 {
        assert(k.last() == k[k.len() - 1]);
        assert(k[k.len() - 1] == '_' || is_ascii_alnum(k[k.len() - 1]));
    }
    lemma_trim_noop(k);
}

/// Parsing the texts of round-tripping entries gives the entries.
proof fn lemma_parse_texts(es: Seq<(Seq<char>, Seq<char>)>, n: int)
    requires
        forall|i: int| 0 <= i < es.len() ==> round_trips(#[trigger] es[i]),
    ensures
        parse_lines(es.map_values(|e: (Seq<char>, Seq<char>)| entry_text(e)), n) == Ok::<
            Seq<(Seq<char>, Seq<char>)>,
            (int, Seq<char>),
        >(es),
    decreases es.len(),
{
    let ls = es.map_values(|e: (Seq<char>, Seq<char>)| entry_text(e));
    if es.len() > 0 {
        let tail = es.drop_first();
        assert forall|i: int| 0 <= i < tail.len() implies round_trips(#[trigger] tail[i]) by {
            assert(tail[i] == es[i + 1]);
        }
        lemma_parse_texts(tail, n + 1);
        assert(ls.drop_first() =~= tail.map_values(|e: (Seq<char>, Seq<char>)| entry_text(e)));
        assert(round_trips(es[0]));
        lemma_parse_entry_line(es[0]);
        assert(seq![es[0]] + tail =~= es);
    } else {
        assert(es =~= Seq::<(Seq<char>, Seq<char>)>::empty());
    }
}

/// A value written between a pair of single quotes, or of double quotes,
/// is read without them: the one line `KEY='text'` (or `KEY="text"`) parses
/// to the single entry `(KEY, text)`, for a valid key and any text on one
/// line.
pub proof fn law_quoted_value_unquoted(key: Seq<char>, text: Seq<char>, quote: char)
    requires
        valid_env_key(key),
        quote == '\'' || quote == '"',
        forall|i: int| 0 <= i < text.len() ==> #[trigger] text[i] != '\n',
    ensures
        parse_env(key + seq!['=', quote] + text + seq![quote, '\n']) == Ok::<
            Seq<(Seq<char>, Seq<char>)>,
            (int, Seq<char>),
        >(seq![(key, text)]),
{
    let v = seq![quote] + text + seq![quote];
    let l = key + seq!['='] + v;
    lemma_trim_noop(v);
    lemma_parse_assignment(key, v);
    assert(unquote(v) =~= text);
    assert forall|i: int| 0 <= i < l.len() implies #[trigger] l[i] != '\n' by {
        if i < key.len() {
            assert(l[i] == key[i]);
            if i > 0 {
                assert(key[i] == '_' || is_ascii_alnum(key[i]));
            }
        } else if key.len() + 1 < i < l.len() - 1 {
            assert(l[i] == text[i - key.len() - 2]);
        }
    }
    let empty = Seq::<char>::empty();
    lemma_lines_append(empty, l);
    assert(empty + l + seq!['\n'] =~= key + seq!['=', quote] + text + seq![quote, '\n']);
    assert(strip_cr(l) == l);
    assert(lines(empty) == Seq::<Seq<char>>::empty());
    let ls = lines(key + seq!['=', quote] + text + seq![quote, '\n']);
    assert(ls =~= seq![l]);
    assert(ls.drop_first() =~= Seq::<Seq<char>>::empty());
    assert(ls[0] == l);
    assert(parse_line(ls[0]) == Some(Ok::<(Seq<char>, Seq<char>), Seq<char>>((key, text))));
    assert(parse_lines(ls.drop_first(), 2) == Ok::<Seq<(Seq<char>, Seq<char>)>, (int, Seq<char>)>(
        Seq::empty(),
    ));
    assert(seq![(key, text)] + Seq::<(Seq<char>, Seq<char>)>::empty() =~= seq![(key, text)]);
    assert(parse_lines(ls, 1) == Ok::<Seq<(Seq<char>, Seq<char>)>, (int, Seq<char>)>(
        seq![(key, text)],
    ));
}

/// Trailing whitespace removal keeps a first character that is not
/// whitespace.
proof fn lemma_trim_end_keeps_first(s: Seq<char>)
    requires
        s.len() > 0,
        !is_ws(s[0]),
    ensures
        trim_end(s).len() > 0,
        trim_end(s)[0] == s[0],
    decreases s.len(),
{
    if is_ws(s.last()) {
        assert(s.len() > 1);
        assert(s.drop_last()[0] == s[0]);
        lemma_trim_end_keeps_first(s.drop_last());
    }
}

/// A comment line, one starting with `#`, adds nothing and is not an error.
proof fn lemma_comment_line(c: Seq<char>)
    ensures
        parse_line(strip_cr(seq!['#'] + c)) == None::<Result<(Seq<char>, Seq<char>), Seq<char>>>,
{
    let l = strip_cr(seq!['#'] + c);
    assert(l.len() > 0 && l[0] == '#');
    assert(trim_start(l) == l);
    lemma_trim_end_keeps_first(l);
}

/// `KEY=value` as the rest of a text is parsed as one entry on line `n`.
proof fn lemma_entry_rest(key: Seq<char>, value: Seq<char>, n: int)
    requires
        round_trips((key, value)),
    ensures
        parse_lines(lines(key + seq!['='] + value + seq!['\n']), n) == Ok::<
            Seq<(Seq<char>, Seq<char>)>,
            (int, Seq<char>),
        >(seq![(key, value)]),
{
    let es = seq![(key, value)];
    assert(es[0] == (key, value));
    lemma_render_lines(es);
    lemma_parse_texts(es, n);
    assert(render_env(es.drop_last()) == Seq::<char>::empty());
    assert(render_env(es) =~= key + seq!['='] + value + seq!['\n']);
}

/// The keyword `export ` before an assignment is ignored: the one line
/// `export KEY=value` parses to the entry `(KEY, value)`, for a valid key and
/// a value on one line without surrounding whitespace or quotes.
pub proof fn law_export_prefix_ignored(key: Seq<char>, value: Seq<char>)
    requires
        round_trips((key, value)),
    ensures
        parse_env(seq!['e', 'x', 'p', 'o', 'r', 't', ' '] + key + seq!['='] + value + seq!['\n'])
            == Ok::<Seq<(Seq<char>, Seq<char>)>, (int, Seq<char>)>(seq![(key, value)]),
{
    let e = export_prefix();
    let t = key + seq!['='] + value;
    let l = e + t;
    lemma_parse_entry_line((key, value));
    assert(entry_text((key, value)) == t);
    // `t` itself does not start with the keyword, is trimmed and non-empty.
    if value.len() > 0 {
        lemma_trimmed_ends(value);
        assert(t.last() == value.last());
    } else {
        assert(t.last() == '=');
    }
    assert(t[0] == key[0]);
    lemma_trim_noop(t);
    if e.is_prefix_of(t) {
        if key.len() >= 7 {
            assert(t[6] == key[6]);
            assert(key[6] == '_' || is_ascii_alnum(key[6]));
        } else {
            assert(t[key.len() as int] == '=');
        }
        assert(false);
    }
    // `export t` is trimmed and loses exactly the keyword.
    assert(l.last() == t.last());
    assert(l[0] == 'e');
    lemma_trim_noop(l);
    assert(e.is_prefix_of(l));
    assert(l.skip(7) =~= t);
    assert(parse_line(l) == parse_line(t));
    assert forall|i: int| 0 <= i < l.len() implies #[trigger] l[i] != '\n' by {
        if i >= 7 {
            assert(l[i] == t[i - 7]);
            if i - 7 < key.len() {
                assert(t[i - 7] == key[i - 7]);
                if i > 7 {
                    assert(key[i - 7] == '_' || is_ascii_alnum(key[i - 7]));
                }
            } else if i - 7 > key.len() {
                assert(t[i - 7] == value[i - 8 - key.len()]);
            }
        }
    }
    let empty = Seq::<char>::empty();
    lemma_lines_append(empty, l);
    assert(empty + l + seq!['\n'] =~= e + key + seq!['='] + value + seq!['\n']);
    assert(strip_cr(l) == l);
    let ls = lines(e + key + seq!['='] + value + seq!['\n']);
    assert(ls =~= seq![l]);
    assert(ls.drop_first() =~= Seq::<Seq<char>>::empty());
    assert(parse_lines(ls.drop_first(), 2) == Ok::<Seq<(Seq<char>, Seq<char>)>, (int, Seq<char>)>(
        Seq::empty(),
    ));
    assert(seq![(key, value)] + Seq::<(Seq<char>, Seq<char>)>::empty() =~= seq![(key, value)]);
    assert(parse_lines(ls, 1) == Ok::<Seq<(Seq<char>, Seq<char>)>, (int, Seq<char>)>(
        seq![(key, value)],
    ));
}

/// A line starting with `#` is a comment and is skipped: a comment line
/// followed by `KEY=value` parses to that one entry.
pub proof fn law_comment_line_skipped(comment: Seq<char>, key: Seq<char>, value: Seq<char>)
    requires
        forall|i: int| 0 <= i < comment.len() ==> #[trigger] comment[i] != '\n',
        round_trips((key, value)),
    ensures
        parse_env(seq!['#'] + comment + seq!['\n'] + key + seq!['='] + value + seq!['\n'])
            == Ok::<Seq<(Seq<char>, Seq<char>)>, (int, Seq<char>)>(seq![(key, value)]),
{
    let c = seq!['#'] + comment;
    let rest = key + seq!['='] + value + seq!['\n'];
    let s = seq!['#'] + comment + seq!['\n'] + key + seq!['='] + value + seq!['\n'];
    assert forall|j: int| 0 <= j < c.len() implies #[trigger] s[j] != '\n' by {
        assert(s[j] == c[j]);
        if j > 0 {
            assert(c[j] == comment[j - 1]);
        }
    }
    assert(s[c.len() as int] == '\n');
    lemma_first_index_found(s, '\n', c.len() as int);
    lemma_lines_step(s, c.len() as int);
    assert(s.take(c.len() as int) =~= c);
    assert(s.skip(c.len() as int + 1) =~= rest);
    let ls = lines(s);
    assert(ls[0] == strip_cr(c));
    assert(ls.drop_first() =~= lines(rest));
    lemma_comment_line(comment);
    lemma_entry_rest(key, value, 2);
}

/// Rendering entries and parsing the rendered text gives the same entries
/// back, in order, for entries whose keys are valid and whose values lie on
/// one line without surrounding whitespace or surrounding quotes.
pub proof fn law_render_then_parse(es: Seq<(Seq<char>, Seq<char>)>)
    requires
        forall|i: int| 0 <= i < es.len() ==> round_trips(#[trigger] es[i]),
    ensures
        parse_env(render_env(es)) == Ok::<Seq<(Seq<char>, Seq<char>)>, (int, Seq<char>)>(es),
{
    lemma_render_lines(es);
    lemma_parse_texts(es, 1);
}

} // verus!
