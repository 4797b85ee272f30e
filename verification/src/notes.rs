//! Scratchpad notes: the IPC-facing note shapes plus the two pure
//! conversions the transform path needs, stored note HTML → plain text and
//! plain text → minimal HTML.
use vstd::prelude::*;
use crate::strs::{
    extend_str, join_char_vecs, lemma_trim_idempotent, is_ws, lemma_join_single_spaced,
    lemma_words_are_words, lemma_words_of_join, lemma_words_of_join_prefix, single_spaced,
    words_prefix_of, split_whitespace, words, extend_chars, from_chars, is_ascii_alnum, join, lead_len, lemma_trail_len_unique, run_end,
    slice_to_vec, to_chars, trail_len, trim, trim_bounds, trim_class, trim_end_class,
    trim_start_class, CharClass,
};

verus! {

/// Per-note version cap.
pub const NOTE_VERSION_CAP: i64 = 50;

/// Hard limit on a note body, in bytes.
pub const MAX_NOTE_CONTENT_BYTES: usize = 1_000_000;

/// Characters of preview text shown in the note list.
pub const PREVIEW_CHARS: usize = 120;

/// A full note for the editor.
#[derive(Debug, Clone, PartialEq, Eq)]
pub struct Note {
    pub id: String,
    pub title: String,
    pub content: String,
    /// Unix epoch milliseconds.
    pub created_at: i64,
    pub updated_at: i64,
    pub pinned: bool,
}

/// A note row for the list.
#[derive(Debug, Clone, PartialEq, Eq)]
pub struct NoteSummary {
    pub id: String,
    pub title: String,
    /// First characters of the body with tags stripped.
    pub preview: String,
    pub updated_at: i64,
    pub pinned: bool,
}

/// One immutable snapshot of a note's body.
#[derive(Debug, Clone, PartialEq, Eq)]
pub struct NoteVersion {
    pub id: String,
    pub note_id: String,
    pub content: String,
    /// "created", "transform", or "restore".
    pub source: String,
    pub transform_id: Option<String>,
    pub created_at: i64,
}

// ---- Specification: HTML → plain text --------------------------------------

/// Index of the first `c` in `s`.
pub open spec fn first_index(s: Seq<char>, c: char) -> Option<int>
    decreases s.len(),
{
    if s.len() == 0 {
        None
    } else if s[0] == c {
        Some(0)
    } else {
        match first_index(s.drop_first(), c) {
            Some(k) => Some(k + 1),
            None => None,
        }
    }
}

/// How many characters of `s` (the text after a `&`) an entity name takes,
/// having read `n` of them: ASCII alphanumerics, at most six, stopping at `;`.
pub open spec fn ent_len(s: Seq<char>, n: nat) -> nat
    decreases 7 - n,
{
    if n < s.len() && n < 6 && s[n as int] != ';' && is_ascii_alnum(s[n as int]) {
        ent_len(s, n + 1)
    } else {
        n
    }
}

/// The text an entity decodes to: the five known entities when terminated by
/// `;`, otherwise the literal characters.
pub open spec fn decode_entity(name: Seq<char>, terminated: bool) -> Seq<char> {
    if terminated && name == "amp"@ {
        seq!['&']
    } else if terminated && name == "lt"@ {
        seq!['<']
    } else if terminated && name == "gt"@ {
        seq!['>']
    } else if terminated && name == "quot"@ {
        seq!['"']
    } else if terminated && name == "nbsp"@ {
        seq![' ']
    } else {
        seq!['&'] + name + if terminated {
            seq![';']
        } else {
            Seq::empty()
        }
    }
}

pub open spec fn ascii_lower_char(c: char) -> char {
    if 'A' <= c && c <= 'Z' {
        ((c as u32) + 32) as char
    } else {
        c
    }
}

/// The lowercased tag word of a raw tag body: trimmed, leading `/` dropped,
/// the leading run of ASCII alphanumerics.
pub open spec fn tag_word(raw: Seq<char>) -> Seq<char> {
    let t = trim_start_class(trim(raw), CharClass::Slash);
    t.take(lead_len(t, CharClass::AsciiAlnum) as int).map_values(|c: char| ascii_lower_char(c))
}

/// How hard a tag breaks the line: 2 for `p`/`div`, 1 for `br`/`li`.
pub open spec fn break_weight(raw: Seq<char>) -> Option<nat> {
    let w = tag_word(raw);
    if w == "p"@ || w == "div"@ {
        Some(2)
    } else if w == "br"@ || w == "li"@ {
        Some(1)
    } else {
        None
    }
}

pub open spec fn newlines(n: nat) -> Seq<char> {
    Seq::new(n, |i: int| '\n')
}

/// `out` ends with at least `min(weight, 2)` newlines after trailing blanks
/// are dropped; an empty `out` is left alone.
pub open spec fn with_break(out: Seq<char>, weight: nat) -> Seq<char> {
    if out.len() == 0 {
        out
    } else {
        let o = trim_end_class(out, CharClass::SpaceOrTab);
        let existing = trail_len(o, CharClass::Newline);
        let want: nat = if weight < 2 {
            weight
        } else {
            2
        };
        if existing < want {
            o + newlines((want - existing) as nat)
        } else {
            o
        }
    }
}

/// The plain text produced from `s` when `out` has been produced so far.
pub open spec fn scan(s: Seq<char>, out: Seq<char>) -> Seq<char>
    decreases s.len(),
{
    if s.len() == 0 {
        out
    } else if s[0] == '<' {
        let rest = s.drop_first();
        match first_index(rest, '>') {
            None => out + s,
            Some(j) => {
                let name = rest.take(j);
                let next = match break_weight(name) {
                    Some(w) => with_break(out, w),
                    None => out,
                };
                if 0 <= j < rest.len() {
                    scan(rest.skip(j + 1), next)
                } else {
                    next
                }
            },
        }
    } else if s[0] == '&' {
        let rest = s.drop_first();
        let n = ent_len(rest, 0);
        let term = n < rest.len() && rest[n as int] == ';';
        let used: int = if term {
            n as int + 1
        } else {
            n as int
        };
        if used <= rest.len() {
            scan(rest.skip(used), out + decode_entity(rest.take(n as int), term))
        } else {
            out
        }
    } else {
        scan(s.drop_first(), out.push(s[0]))
    }
}

/// The plain text of stored note HTML.
pub open spec fn strip_tags_spec(html: Seq<char>) -> Seq<char> {
    trim_class(scan(html, Seq::empty()), CharClass::BreakOrBlank)
}

// ---- Specification: plain text → HTML --------------------------------------

/// `\r\n` and lone `\r` become `\n`.
pub open spec fn normalize_newlines(s: Seq<char>) -> Seq<char>
    decreases s.len(),
{
    if s.len() == 0 {
        s
    } else if s[0] == '\r' && s.len() >= 2 && s[1] == '\n' {
        seq!['\n'] + normalize_newlines(s.skip(2))
    } else if s[0] == '\r' {
        seq!['\n'] + normalize_newlines(s.drop_first())
    } else {
        seq![s[0]] + normalize_newlines(s.drop_first())
    }
}

/// Index of the first `"\n\n"` in `s`.
pub open spec fn find_blank_line(s: Seq<char>) -> Option<int>
    decreases s.len(),
{
    if s.len() < 2 {
        None
    } else if s[0] == '\n' && s[1] == '\n' {
        Some(0)
    } else {
        match find_blank_line(s.drop_first()) {
            Some(k) => Some(k + 1),
            None => None,
        }
    }
}

/// `s.split("\n\n")`.
pub open spec fn split_paragraphs(s: Seq<char>) -> Seq<Seq<char>>
    decreases s.len(),
{
    match find_blank_line(s) {
        None => seq![s],
        Some(k) => if 0 <= k && k + 2 <= s.len() {
            seq![s.take(k)] + split_paragraphs(s.skip(k + 2))
        } else {
            seq![s]
        },
    }
}

/// `s.split(c)`.
pub open spec fn split_on(s: Seq<char>, c: char) -> Seq<Seq<char>>
    decreases s.len(),
{
    match first_index(s, c) {
        None => seq![s],
        Some(k) => if 0 <= k < s.len() {
            seq![s.take(k)] + split_on(s.skip(k + 1), c)
        } else {
            seq![s]
        },
    }
}

/// `s.lines()`: split on `\n`, a final empty piece dropped, a trailing `\r`
/// removed from each line.
pub open spec fn lines(s: Seq<char>) -> Seq<Seq<char>> {
    let parts = split_on(s, '\n');
    let kept = if parts.last().len() == 0 {
        parts.drop_last()
    } else {
        parts
    };
    kept.map_values(
        |l: Seq<char>|
            if l.len() > 0 && l.last() == '\r' {
                l.drop_last()
            } else {
                l
            },
    )
}

/// `&`, `<` and `>` HTML-escaped.
pub open spec fn escape_html_spec(s: Seq<char>) -> Seq<char>
    decreases s.len(),
{
    if s.len() == 0 {
        s
    } else {
        escape_html_spec(s.drop_last()) + if s.last() == '&' {
            "&amp;"@
        } else if s.last() == '<' {
            "&lt;"@
        } else if s.last() == '>' {
            "&gt;"@
        } else {
            seq![s.last()]
        }
    }
}

/// One paragraph block as `<p>…</p>`, its lines escaped and joined by `<br>`.
pub open spec fn block_html(block: Seq<char>) -> Seq<char> {
    "<p>"@ + join(lines(block).map_values(|l: Seq<char>| escape_html_spec(l)), "<br>"@) + "</p>"@
}

/// The trimmed, non-empty paragraph blocks of `text`.
pub open spec fn blocks(text: Seq<char>) -> Seq<Seq<char>> {
    split_paragraphs(normalize_newlines(text)).map_values(|b: Seq<char>| trim(b)).filter(
        |b: Seq<char>| b.len() > 0,
    )
}

pub open spec fn concat(parts: Seq<Seq<char>>) -> Seq<char>
    decreases parts.len(),
{
    if parts.len() == 0 {
        Seq::empty()
    } else {
        concat(parts.drop_last()) + parts.last()
    }
}

/// Minimal HTML for plain text.
pub open spec fn text_to_html_spec(text: Seq<char>) -> Seq<char> {
    concat(blocks(text).map_values(|b: Seq<char>| block_html(b)))
}

// ---- Lemmas ----------------------------------------------------------------

pub proof fn lemma_first_index(s: Seq<char>, c: char)
    ensures
        match first_index(s, c) {
            Some(k) => 0 <= k < s.len() && s[k] == c && forall|m: int| 0 <= m < k ==> s[m] != c,
            None => forall|m: int| 0 <= m < s.len() ==> s[m] != c,
        },
    decreases s.len(),
{
    if s.len() > 0 && s[0] != c {
        lemma_first_index(s.drop_first(), c);
        match first_index(s.drop_first(), c) {
            Some(k) => {
                assert forall|m: int| 0 <= m < k + 1 implies s[m] != c by {
                    if m > 0 {
                        assert(s[m] == s.drop_first()[m - 1]);
                    }
                }
            },
            None => {
                assert forall|m: int| 0 <= m < s.len() implies s[m] != c by {
                    if m > 0 {
                        assert(s[m] == s.drop_first()[m - 1]);
                    }
                }
            },
        }
    }
}

pub proof fn lemma_first_index_at(s: Seq<char>, c: char, k: int)
    requires
        0 <= k <= s.len(),
        forall|m: int| 0 <= m < k ==> s[m] != c,
        k < s.len() ==> s[k] == c,
    ensures
        k < s.len() ==> first_index(s, c) == Some(k),
        k == s.len() ==> first_index(s, c) is None,
{
    lemma_first_index(s, c);
    match first_index(s, c) {
        Some(j) => {
            if j < k {
                assert(s[j] != c);
            }
            if k < j {
                assert(s[k] != c);
            }
        },
        None => {
            if k < s.len() {
                assert(s[k] != c);
            }
        },
    }
}

pub open spec fn blank_at(s: Seq<char>, m: int) -> bool {
    s[m] == '\n' && s[m + 1] == '\n'
}

pub proof fn lemma_find_blank_line(s: Seq<char>)
    ensures
        match find_blank_line(s) {
            Some(k) => 0 <= k && k + 1 < s.len() && s[k] == '\n' && s[k + 1] == '\n' && forall|m: int|
                0 <= m < k ==> !#[trigger] blank_at(s, m),
            None => forall|m: int| 0 <= m && m + 1 < s.len() ==> !#[trigger] blank_at(s, m),
        },
    decreases s.len(),
{
    if s.len() >= 2 && !(s[0] == '\n' && s[1] == '\n') {
        lemma_find_blank_line(s.drop_first());
        let t = s.drop_first();
        match find_blank_line(t) {
            Some(k) => {
                assert(s[k + 1] == t[k]);
                assert(s[k + 2] == t[k + 1]);
                assert forall|m: int| 0 <= m < k + 1 implies !blank_at(s, m) by {
                    if m > 0 {
                        assert(s[m] == t[m - 1]);
                        assert(s[m + 1] == t[m]);
                        assert(!blank_at(t, m - 1));
                    }
                }
            },
            None => {
                assert forall|m: int| 0 <= m && m + 1 < s.len() implies !blank_at(s, m) by {
                    if m > 0 {
                        assert(s[m] == t[m - 1]);
                        assert(s[m + 1] == t[m]);
                        assert(!blank_at(t, m - 1));
                    }
                }
            },
        }
    }
}

pub proof fn lemma_find_blank_line_at(s: Seq<char>, k: int)
    requires
        0 <= k,
        forall|m: int| 0 <= m < k && m + 1 < s.len() ==> !#[trigger] blank_at(s, m),
        k + 1 < s.len() ==> s[k] == '\n' && s[k + 1] == '\n',
        k + 1 >= s.len() ==> k >= s.len() - 1,
    ensures
        k + 1 < s.len() ==> find_blank_line(s) == Some(k),
        k + 1 >= s.len() ==> find_blank_line(s) is None,
{
    lemma_find_blank_line(s);
    match find_blank_line(s) {
        Some(j) => {
            if j < k {
                assert(!blank_at(s, j));
            }
            if k < j {
                assert(!blank_at(s, k));
            }
        },
        None => {
            if k + 1 < s.len() {
                assert(!blank_at(s, k));
            }
        },
    }
}

// ---- Implementation: HTML → plain text -------------------------------------

fn chars_eq_str(a: &[char], lit: &str) -> (b: bool)
    ensures
        b == (a@ == lit@),
{
    let l = to_chars(lit);
    if a.len() != l.len() {
        return false;
    }
    let mut i: usize = 0;
    while i < a.len()
        invariant
            i <= a@.len(),
            a@.len() == l@.len(),
            l@ == lit@,
            forall|m: int| 0 <= m < i ==> a@[m] == l@[m],
        decreases a@.len() - i,
    {
        if a[i] != l[i] {
            return false;
        }
        i = i + 1;
    }
    assert(a@ =~= l@);
    true
}

fn is_ascii_alnum_char(c: char) -> (b: bool)
    ensures
        b == is_ascii_alnum(c),
{
    ('0' <= c && c <= '9') || ('a' <= c && c <= 'z') || ('A' <= c && c <= 'Z')
}

fn ascii_lower(c: char) -> (r: char)
    ensures
        r == ascii_lower_char(c),
{
    if 'A' <= c && c <= 'Z' {
        let u: u8 = c as u8;
        proof {
            assert(65 <= (c as u32) <= 90);
            assert(u == c as u32);
        }
        ((u + 32) as char)
    } else {
        c
    }
}

/// How hard a tag breaks the line in the plain-text projection.
fn tag_break_weight(raw: &[char]) -> (w: Option<usize>)
    ensures
        match break_weight(raw@) {
            Some(n) => w == Some(n as usize),
            None => w is None,
        },
{
    let (lo, hi) = trim_bounds(raw, CharClass::Whitespace);
    let t = slice_to_vec(raw, lo, hi);
    let s0 = run_end(t.as_slice(), 0, CharClass::Slash);
    let e = run_end(t.as_slice(), s0, CharClass::AsciiAlnum);
    let mut word: Vec<char> = Vec::new();
    let mut i = s0;
    while i < e
        invariant
            s0 <= i <= e <= t@.len(),
            word@ == t@.subrange(s0 as int, i as int).map_values(|c: char| ascii_lower_char(c)),
        decreases e - i,
    {
        let lc = ascii_lower(t[i]);
        word.push(lc);
        i = i + 1;
        assert(word@ =~= t@.subrange(s0 as int, i as int).map_values(|c: char| ascii_lower_char(c)));
    }
    proof {
        assert(t@.skip(0) =~= t@);
        let u = trim_start_class(trim(raw@), CharClass::Slash);
        assert(u =~= t@.skip(s0 as int));
        assert(u.take(lead_len(u, CharClass::AsciiAlnum) as int) =~= t@.subrange(
            s0 as int,
            e as int,
        ));
    }
    if chars_eq_str(word.as_slice(), "p") || chars_eq_str(word.as_slice(), "div") {
        Some(2)
    } else if chars_eq_str(word.as_slice(), "br") || chars_eq_str(word.as_slice(), "li") {
        Some(1)
    } else {
        None
    }
}

/// Ensures `out` ends with at least `weight` newlines (never more than 2),
/// dropping trailing blanks first; a no-op while `out` is empty.
fn push_break(out: &mut Vec<char>, weight: usize)
    ensures
        final(out)@ == with_break(old(out)@, weight as nat),
{
    if out.len() == 0 {
        return;
    }
    let ghost orig = out@;
    while out.len() > 0 && (out[out.len() - 1] == ' ' || out[out.len() - 1] == '\t')
        invariant
            out@.len() <= orig.len(),
            out@ == orig.take(out@.len() as int),
            forall|j: int| out@.len() <= j < orig.len() ==> in_class_space_tab(#[trigger] orig[j]),
        decreases out@.len(),
    {
        out.pop();
        assert(out@ =~= orig.take(out@.len() as int));
    }
    proof {
        let i = orig.len() - out@.len();
        if out@.len() > 0 {
            assert(out@[out@.len() - 1] == orig[orig.len() - i - 1]);
        }
        lemma_trail_len_unique(orig, CharClass::SpaceOrTab, i);
        assert(trim_end_class(orig, CharClass::SpaceOrTab) =~= out@);
    }
    let ghost o = out@;
    let mut existing: usize = 0;
    while existing < out.len() && out[out.len() - 1 - existing] == '\n'
        invariant
            existing <= out@.len(),
            out@ == o,
            forall|j: int| out@.len() - existing <= j < out@.len() ==> #[trigger] out@[j] == '\n',
        decreases out@.len() - existing,
    {
        existing = existing + 1;
    }
    proof {
        lemma_trail_len_unique(o, CharClass::Newline, existing as int);
    }
    let want: usize = if weight < 2 {
        weight
    } else {
        2
    };
    if existing < want {
        let mut k = existing;
        while k < want
            invariant
                existing <= k <= want,
                out@ == o + newlines((k - existing) as nat),
            decreases want - k,
        {
            out.push('\n');
            k = k + 1;
            assert(out@ =~= o + newlines((k - existing) as nat));
        }
    }
}

pub open spec fn in_class_space_tab(c: char) -> bool {
    c == ' ' || c == '\t'
}

proof fn lemma_ent_len_bound(s: Seq<char>, n: nat)
    ensures
        ent_len(s, n) >= n,
        n <= 6 ==> ent_len(s, n) <= 6,
        n <= s.len() ==> ent_len(s, n) <= s.len(),
    decreases 7 - n,
{
    if n < s.len() && n < 6 && s[n as int] != ';' && is_ascii_alnum(s[n as int]) {
        lemma_ent_len_bound(s, n + 1);
    }
}

fn decode_entity_into(out: &mut Vec<char>, name: &[char], terminated: bool)
    ensures
        final(out)@ == old(out)@ + decode_entity(name@, terminated),
{
    if terminated && chars_eq_str(name, "amp") {
        out.push('&');
    } else if terminated && chars_eq_str(name, "lt") {
        out.push('<');
    } else if terminated && chars_eq_str(name, "gt") {
        out.push('>');
    } else if terminated && chars_eq_str(name, "quot") {
        out.push('"');
    } else if terminated && chars_eq_str(name, "nbsp") {
        out.push(' ');
    } else {
        let ghost before = out@;
        out.push('&');
        extend_chars(out, name);
        if terminated {
            out.push(';');
        }
        assert(out@ =~= before + decode_entity(name@, terminated));
    }
}

/// Plain text from the stored note HTML. A paragraph or `<div>` boundary
/// becomes a blank-line separator, a `<br>` or list item a new line, the
/// stronger break winning where they meet; the five entities the editor emits
/// are decoded; an unclosed `<` and unknown entities stay literal.
pub fn strip_tags(html: &str) -> (r: String)
    ensures
        r@ == strip_tags_spec(html@),
{
    let v = to_chars(html);
    let mut out: Vec<char> = Vec::new();
    let mut i: usize = 0;
    assert(v@.skip(0) =~= v@);
    while i < v.len()
        invariant
            i <= v@.len(),
            v@ == html@,
            scan(v@.skip(i as int), out@) == scan(v@, Seq::empty()),
        decreases v@.len() - i,
    {
        let ghost s = v@.skip(i as int);
        let ghost out0 = out@;
        let ch = v[i];
        assert(s[0] == ch);
        if ch == '<' {
            let mut j = i + 1;
            while j < v.len() && v[j] != '>'
                invariant
                    i + 1 <= j <= v@.len(),
                    forall|m: int| i + 1 <= m < j ==> v@[m] != '>',
                decreases v@.len() - j,
            {
                j = j + 1;
            }
            let ghost rest = s.drop_first();
            proof {
                assert(rest =~= v@.skip(i + 1));
                assert forall|m: int| 0 <= m < j - (i + 1) implies rest[m] != '>' by {
                    assert(rest[m] == v@[i + 1 + m]);
                }
                if j < v@.len() {
                    assert(rest[j - (i + 1)] == v@[j as int]);
                }
                lemma_first_index_at(rest, '>', j - (i + 1));
            }
            if j == v.len() {
                let t = slice_to_vec(v.as_slice(), i, v.len());
                extend_chars(&mut out, t.as_slice());
                proof {
                    assert(t@ =~= s);
                    assert(v@.skip(v@.len() as int) =~= Seq::<char>::empty());
                }
                i = v.len();
            } else {
                let name = slice_to_vec(v.as_slice(), i + 1, j);
                let w = tag_break_weight(name.as_slice());
                match w {
                    Some(w) => push_break(&mut out, w),
                    None => {},
                }
                proof {
                    assert(name@ =~= rest.take(j - (i + 1)));
                    assert(rest.skip(j - (i + 1) + 1) =~= v@.skip(j + 1));
                }
                i = j + 1;
            }
        } else if ch == '&' {
            let ghost rest = s.drop_first();
            let mut k = i + 1;
            proof {
                assert(rest =~= v@.skip(i + 1));
            }
            while k < v.len() && k - (i + 1) < 6 && v[k] != ';' && is_ascii_alnum_char(v[k])
                invariant
                    i + 1 <= k <= v@.len(),
                    k - (i + 1) <= 6,
                    rest == v@.skip(i + 1),
                    ent_len(rest, (k - (i + 1)) as nat) == ent_len(rest, 0),
                decreases v@.len() - k,
            {
                assert(rest[k - (i + 1)] == v@[k as int]);
                k = k + 1;
            }
            let ghost n = (k - (i + 1)) as nat;
            proof {
                if k < v@.len() {
                    assert(rest[n as int] == v@[k as int]);
                }
                assert(ent_len(rest, n) == n);
            }
            let terminated = k < v.len() && v[k] == ';';
            let name = slice_to_vec(v.as_slice(), i + 1, k);
            decode_entity_into(&mut out, name.as_slice(), terminated);
            proof {
                assert(name@ =~= rest.take(n as int));
                if k < v@.len() {
                    assert(rest[n as int] == v@[k as int]);
                }
            }
            if terminated {
                proof {
                    assert(rest.skip(n as int + 1) =~= v@.skip(k + 1));
                }
                i = k + 1;
            } else {
                proof {
                    assert(rest.skip(n as int) =~= v@.skip(k as int));
                }
                i = k;
            }
        } else {
            out.push(ch);
            proof {
                assert(s.drop_first() =~= v@.skip(i + 1));
            }
            i = i + 1;
        }
    }
    proof {
        assert(v@.skip(i as int) =~= Seq::<char>::empty());
    }
    trim_breaks(out.as_slice())
}

/// A single-line preview for the note list.
pub open spec fn preview_spec(html: Seq<char>) -> Seq<char> {
    let collapsed = join(words(strip_tags_spec(html)), " "@);
    if collapsed.len() <= PREVIEW_CHARS {
        collapsed
    } else {
        collapsed.take(PREVIEW_CHARS as int).push('…')
    }
}

/// The preview keeps the words of the note's plain text: when it fits, its
/// words are exactly the plain text's words, in order; when it is cut, it
/// is `PREVIEW_CHARS` characters and an ellipsis, and its words are how the
/// plain text's words begin (the last one possibly cut short). Either way it
/// is one line, with single spaces between words and none at the ends, so
/// no two words are ever glued together or split apart.
pub proof fn law_preview_keeps_the_words(html: Seq<char>)
    ensures
        ({
            let ws = words(strip_tags_spec(html));
            let p = preview_spec(html);
            &&& p.len() <= PREVIEW_CHARS ==> words(p) == ws
            &&& p.len() > PREVIEW_CHARS ==> p.len() == PREVIEW_CHARS + 1 && p.last() == '…'
                && words_prefix_of(words(p.drop_last()), ws)
            &&& single_spaced(p)
        }),
{
    let ws = words(strip_tags_spec(html));
    let c = join(ws, " "@);
    let p = preview_spec(html);
    lemma_words_are_words(strip_tags_spec(html));
    lemma_join_single_spaced(ws);
    if c.len() <= PREVIEW_CHARS {
        lemma_words_of_join(ws);
    } else {
        let t = c.take(PREVIEW_CHARS as int);
        assert(p == t.push('…'));
        assert(p.drop_last() =~= t);
        lemma_words_of_join_prefix(ws, PREVIEW_CHARS as int);
        assert(!is_ws('…'));
        assert forall|i: int| 0 <= i < p.len() && is_ws(#[trigger] p[i]) implies p[i] == ' ' && 0 < i
            && i + 1 < p.len() && !is_ws(p[i - 1]) && !is_ws(p[i + 1]) by {
            assert(i < PREVIEW_CHARS);
            assert(p[i] == c[i]);
            assert(is_ws(c[i]));
            assert(p[i - 1] == c[i - 1]);
            if i + 1 < PREVIEW_CHARS {
                assert(p[i + 1] == c[i + 1]);
            }
        }
    }
}

/// A single-line preview for the note list: the stripped body, whitespace
/// collapsed, truncated to `PREVIEW_CHARS` characters plus an ellipsis.
pub fn preview(html: &str) -> (r: String)
    ensures
        r@ == preview_spec(html@),
{
    let plain = strip_tags(html);
    let pv = to_chars(plain.as_str());
    let ws = split_whitespace(pv.as_slice());
    let sp = to_chars(" ");
    let collapsed = join_char_vecs(&ws, sp.as_slice());
    if collapsed.len() <= PREVIEW_CHARS {
        from_chars(collapsed.as_slice())
    } else {
        let mut t = slice_to_vec(collapsed.as_slice(), 0, PREVIEW_CHARS);
        t.push('…');
        from_chars(t.as_slice())
    }
}

// ---- Implementation: plain text → HTML -------------------------------------

fn normalize_newlines_vec(v: &[char]) -> (r: Vec<char>)
    ensures
        r@ == normalize_newlines(v@),
{
    let mut out: Vec<char> = Vec::new();
    let mut i: usize = 0;
    assert(v@.skip(0) =~= v@);
    while i < v.len()
        invariant
            i <= v@.len(),
            out@ + normalize_newlines(v@.skip(i as int)) == normalize_newlines(v@),
        decreases v@.len() - i,
    {
        let ghost s = v@.skip(i as int);
        let ghost o = out@;
        assert(s[0] == v@[i as int]);
        if v[i] == '\r' && i + 1 < v.len() && v[i + 1] == '\n' {
            assert(s[1] == v@[i + 1]);
            out.push('\n');
            assert(s.skip(2) =~= v@.skip(i + 2));
            assert(out@ + normalize_newlines(v@.skip(i + 2)) =~= o + normalize_newlines(s));
            i = i + 2;
        } else {
            if v[i] == '\r' {
                out.push('\n');
            } else {
                out.push(v[i]);
            }
            assert(s.drop_first() =~= v@.skip(i + 1));
            assert(out@ + normalize_newlines(v@.skip(i + 1)) =~= o + normalize_newlines(s));
            i = i + 1;
        }
    }
    assert(v@.skip(i as int) =~= Seq::<char>::empty());
    assert(out@ + Seq::<char>::empty() =~= out@);
    out
}

fn split_paragraphs_vec(v: &[char]) -> (r: Vec<Vec<char>>)
    ensures
        r@.map_values(|w: Vec<char>| w@) == split_paragraphs(v@),
{
    let mut r: Vec<Vec<char>> = Vec::new();
    let mut start: usize = 0;
    let mut i: usize = 0;
    assert(v@.skip(0) =~= v@);
    assert(r@.map_values(|w: Vec<char>| w@) + split_paragraphs(v@) =~= split_paragraphs(v@));
    while v.len() > 0 && i < v.len() - 1
        invariant
            start <= i <= v@.len(),
            r@.map_values(|w: Vec<char>| w@) + split_paragraphs(v@.skip(start as int))
                == split_paragraphs(v@),
            forall|m: int|
                start <= m < i && m + 1 < v@.len() ==> !#[trigger] blank_at(v@, m),
        decreases v@.len() - i,
    {
        if v[i] == '\n' && v[i + 1] == '\n' {
            let ghost s = v@.skip(start as int);
            let ghost old_r = r@;
            proof {
                assert forall|m: int| 0 <= m < i - start && m + 1 < s.len() implies !blank_at(s, m) by {
                    assert(s[m] == v@[start + m]);
                    assert(s[m + 1] == v@[start + m + 1]);
                    assert(!blank_at(v@, start + m));
                }
                assert(s[i - start] == v@[i as int]);
                assert(s[i - start + 1] == v@[i + 1]);
                lemma_find_blank_line_at(s, i - start);
            }
            let piece = slice_to_vec(v, start, i);
            r.push(piece);
            proof {
                assert(s.take(i - start) =~= v@.subrange(start as int, i as int));
                assert(s.skip(i - start + 2) =~= v@.skip(i + 2));
                assert(r@.map_values(|w: Vec<char>| w@) =~= old_r.map_values(|w: Vec<char>| w@).push(
                    v@.subrange(start as int, i as int),
                ));
                assert(r@.map_values(|w: Vec<char>| w@) + split_paragraphs(v@.skip(i + 2)) =~= old_r.map_values(
                    |w: Vec<char>| w@,
                ) + split_paragraphs(s));
            }
            start = i + 2;
            i = i + 2;
        } else {
            i = i + 1;
        }
    }
    let ghost s = v@.skip(start as int);
    let ghost old_r = r@;
    proof {
        assert forall|m: int| 0 <= m && m + 1 < s.len() implies !blank_at(s, m) by {
            assert(s[m] == v@[start + m]);
            assert(s[m + 1] == v@[start + m + 1]);
            assert(!blank_at(v@, start + m));
        }
        lemma_find_blank_line_at(s, s.len() as int);
    }
    let last = slice_to_vec(v, start, v.len());
    r.push(last);
    proof {
        assert(last@ =~= s);
        assert(r@.map_values(|w: Vec<char>| w@) =~= old_r.map_values(|w: Vec<char>| w@) + seq![s]);
    }
    r
}

pub(crate) fn split_on_vec(v: &[char], c: char) -> (r: Vec<Vec<char>>)
    ensures
        r@.map_values(|w: Vec<char>| w@) == split_on(v@, c),
{
    let mut r: Vec<Vec<char>> = Vec::new();
    let mut start: usize = 0;
    let mut i: usize = 0;
    assert(v@.skip(0) =~= v@);
    assert(r@.map_values(|w: Vec<char>| w@) + split_on(v@, c) =~= split_on(v@, c));
    while i < v.len()
        invariant
            start <= i <= v@.len(),
            r@.map_values(|w: Vec<char>| w@) + split_on(v@.skip(start as int), c) == split_on(v@, c),
            forall|m: int| start <= m < i ==> v@[m] != c,
        decreases v@.len() - i,
    {
        if v[i] == c {
            let ghost s = v@.skip(start as int);
            let ghost old_r = r@;
            proof {
                assert forall|m: int| 0 <= m < i - start implies s[m] != c by {
                    assert(s[m] == v@[start + m]);
                }
                assert(s[i - start] == v@[i as int]);
                lemma_first_index_at(s, c, i - start);
            }
            let piece = slice_to_vec(v, start, i);
            r.push(piece);
            proof {
                assert(s.take(i - start) =~= v@.subrange(start as int, i as int));
                assert(s.skip(i - start + 1) =~= v@.skip(i + 1));
                assert(r@.map_values(|w: Vec<char>| w@) =~= old_r.map_values(|w: Vec<char>| w@).push(
                    v@.subrange(start as int, i as int),
                ));
                assert(r@.map_values(|w: Vec<char>| w@) + split_on(v@.skip(i + 1), c) =~= old_r.map_values(
                    |w: Vec<char>| w@,
                ) + split_on(s, c));
            }
            start = i + 1;
        }
        i = i + 1;
    }
    let ghost s = v@.skip(start as int);
    let ghost old_r = r@;
    proof {
        assert forall|m: int| 0 <= m < s.len() implies s[m] != c by {
            assert(s[m] == v@[start + m]);
        }
        lemma_first_index_at(s, c, s.len() as int);
    }
    let last = slice_to_vec(v, start, v.len());
    r.push(last);
    proof {
        assert(last@ =~= s);
        assert(r@.map_values(|w: Vec<char>| w@) =~= old_r.map_values(|w: Vec<char>| w@) + seq![s]);
    }
    r
}

pub open spec fn strip_cr(l: Seq<char>) -> Seq<char> {
    if l.len() > 0 && l.last() == '\r' {
        l.drop_last()
    } else {
        l
    }
}

proof fn lemma_split_on_nonempty(s: Seq<char>, c: char)
    ensures
        split_on(s, c).len() >= 1,
    decreases s.len(),
{
    lemma_first_index(s, c);
    match first_index(s, c) {
        Some(k) => {
            lemma_split_on_nonempty(s.skip(k + 1), c);
        },
        None => {},
    }
}

/// `s.lines()`.
fn lines_vec(v: &[char]) -> (r: Vec<Vec<char>>)
    ensures
        r@.map_values(|w: Vec<char>| w@) == lines(v@),
{
    let parts = split_on_vec(v, '\n');
    proof {
        lemma_split_on_nonempty(v@, '\n');
    }
    let ghost pv = parts@.map_values(|w: Vec<char>| w@);
    let n = parts.len();
    assert(pv.last() == parts@[n - 1]@);
    let keep: usize = if parts[n - 1].len() == 0 {
        n - 1
    } else {
        n
    };
    let ghost kept = if pv.last().len() == 0 {
        pv.drop_last()
    } else {
        pv
    };
    assert(kept =~= pv.take(keep as int));
    let mut r: Vec<Vec<char>> = Vec::new();
    let mut i: usize = 0;
    while i < keep
        invariant
            i <= keep <= parts@.len(),
            pv == parts@.map_values(|w: Vec<char>| w@),
            r@.map_values(|w: Vec<char>| w@) == pv.take(i as int).map_values(|l: Seq<char>| strip_cr(l)),
        decreases keep - i,
    {
        let l = &parts[i];
        let ghost lv = l@;
        assert(pv[i as int] == lv);
        let line = if l.len() > 0 && l[l.len() - 1] == '\r' {
            slice_to_vec(l.as_slice(), 0, l.len() - 1)
        } else {
            slice_to_vec(l.as_slice(), 0, l.len())
        };
        assert(line@ =~= strip_cr(lv));
        let ghost old_r = r@;
        r.push(line);
        proof {
            assert(pv.take(i + 1) =~= pv.take(i as int).push(lv));
            assert(r@.map_values(|w: Vec<char>| w@) =~= old_r.map_values(|w: Vec<char>| w@).push(line@));
            assert(pv.take(i + 1).map_values(|l: Seq<char>| strip_cr(l)) =~= pv.take(i as int).map_values(
                |l: Seq<char>| strip_cr(l),
            ).push(strip_cr(lv)));
        }
        i = i + 1;
        assert(r@.map_values(|w: Vec<char>| w@) =~= pv.take(i as int).map_values(|l: Seq<char>| strip_cr(l)));
    }
    proof {
        assert(lines(v@) =~= kept.map_values(
            |l: Seq<char>|
                if l.len() > 0 && l.last() == '\r' {
                    l.drop_last()
                } else {
                    l
                },
        ));
        assert(kept.map_values(|l: Seq<char>| strip_cr(l)) =~= lines(v@));
    }
    r
}

fn escape_html(line: &[char]) -> (r: Vec<char>)
    ensures
        r@ == escape_html_spec(line@),
{
    let mut out: Vec<char> = Vec::new();
    let mut i: usize = 0;
    while i < line.len()
        invariant
            i <= line@.len(),
            out@ == escape_html_spec(line@.take(i as int)),
        decreases line@.len() - i,
    {
        let c = line[i];
        if c == '&' {
            extend_str_chars(&mut out, "&amp;");
        } else if c == '<' {
            extend_str_chars(&mut out, "&lt;");
        } else if c == '>' {
            extend_str_chars(&mut out, "&gt;");
        } else {
            out.push(c);
        }
        proof {
            let t = line@.take(i + 1);
            assert(t.drop_last() =~= line@.take(i as int));
            assert(t.last() == c);
        }
        i = i + 1;
    }
    assert(line@.take(i as int) =~= line@);
    out
}

fn extend_str_chars(out: &mut Vec<char>, s: &str)
    ensures
        final(out)@ == old(out)@ + s@,
{
    crate::strs::extend_str(out, s);
}

fn block_html_vec(block: &[char]) -> (r: Vec<char>)
    ensures
        r@ == block_html(block@),
{
    let ls = lines_vec(block);
    let mut escaped: Vec<Vec<char>> = Vec::new();
    let mut i: usize = 0;
    while i < ls.len()
        invariant
            i <= ls@.len(),
            escaped@.map_values(|w: Vec<char>| w@) == ls@.take(i as int).map_values(|w: Vec<char>| w@).map_values(
                |l: Seq<char>| escape_html_spec(l),
            ),
        decreases ls@.len() - i,
    {
        let e = escape_html(ls[i].as_slice());
        let ghost old_e = escaped@;
        escaped.push(e);
        proof {
            let lv = ls@.map_values(|w: Vec<char>| w@);
            assert(ls@.take(i + 1).map_values(|w: Vec<char>| w@) =~= ls@.take(i as int).map_values(
                |w: Vec<char>| w@,
            ).push(ls@[i as int]@));
            assert(escaped@.map_values(|w: Vec<char>| w@) =~= old_e.map_values(|w: Vec<char>| w@).push(e@));
        }
        i = i + 1;
        assert(escaped@.map_values(|w: Vec<char>| w@) =~= ls@.take(i as int).map_values(|w: Vec<char>| w@).map_values(
            |l: Seq<char>| escape_html_spec(l),
        ));
    }
    assert(ls@.take(i as int) =~= ls@);
    let br = to_chars("<br>");
    let joined = join_char_vecs(&escaped, br.as_slice());
    let mut out: Vec<char> = Vec::new();
    extend_str_chars(&mut out, "<p>");
    extend_chars(&mut out, joined.as_slice());
    extend_str_chars(&mut out, "</p>");
    out
}

/// `s` has one of the three tags the mapping writes, `<p>`, `</p>` or
/// `<br>`, starting at `i`.
pub open spec fn tag_at(s: Seq<char>, i: int) -> bool {
    ||| i + 3 <= s.len() && s.subrange(i, i + 3) == "<p>"@
    ||| i + 4 <= s.len() && s.subrange(i, i + 4) == "</p>"@
    ||| i + 4 <= s.len() && s.subrange(i, i + 4) == "<br>"@
}

/// Every `<` in `s` starts one of those tags.
pub open spec fn tags_only(s: Seq<char>) -> bool {
    forall|i: int| 0 <= i < s.len() && #[trigger] s[i] == '<' ==> tag_at(s, i)
}

proof fn lemma_tags_only_add(a: Seq<char>, b: Seq<char>)
    requires
        tags_only(a),
        tags_only(b),
    ensures
        tags_only(a + b),
{
    let c = a + b;
    assert forall|i: int| 0 <= i < c.len() && #[trigger] c[i] == '<' implies tag_at(c, i) by {
        if i < a.len() {
            assert(a[i] == '<');
            if i + 3 <= a.len() && a.subrange(i, i + 3) == "<p>"@ {
                assert(c.subrange(i, i + 3) =~= a.subrange(i, i + 3));
            } else if i + 4 <= a.len() && a.subrange(i, i + 4) == "</p>"@ {
                assert(c.subrange(i, i + 4) =~= a.subrange(i, i + 4));
            } else {
                assert(c.subrange(i, i + 4) =~= a.subrange(i, i + 4));
            }
        } else {
            let j = i - a.len();
            assert(b[j] == '<');
            if j + 3 <= b.len() && b.subrange(j, j + 3) == "<p>"@ {
                assert(c.subrange(i, i + 3) =~= b.subrange(j, j + 3));
            } else if j + 4 <= b.len() && b.subrange(j, j + 4) == "</p>"@ {
                assert(c.subrange(i, i + 4) =~= b.subrange(j, j + 4));
            } else {
                assert(c.subrange(i, i + 4) =~= b.subrange(j, j + 4));
            }
        }
    }
}

proof fn lemma_tag_literals()
    ensures
        tags_only("<p>"@),
        tags_only("</p>"@),
        tags_only("<br>"@),
{
    reveal_strlit("<p>");
    reveal_strlit("</p>");
    reveal_strlit("<br>");
    assert("<p>"@.subrange(0, 3) =~= "<p>"@);
    assert("</p>"@.subrange(0, 4) =~= "</p>"@);
    assert("<br>"@.subrange(0, 4) =~= "<br>"@);
}

proof fn lemma_escape_has_no_lt(s: Seq<char>)
    ensures
        forall|i: int| 0 <= i < escape_html_spec(s).len() ==> #[trigger] escape_html_spec(s)[i] != '<',
    decreases s.len(),
{
    if s.len() > 0 {
        lemma_escape_has_no_lt(s.drop_last());
        reveal_strlit("&amp;");
        reveal_strlit("&lt;");
        reveal_strlit("&gt;");
        let front = escape_html_spec(s.drop_last());
        let e = escape_html_spec(s);
        let tail = if s.last() == '&' {
            "&amp;"@
        } else if s.last() == '<' {
            "&lt;"@
        } else if s.last() == '>' {
            "&gt;"@
        } else {
            seq![s.last()]
        };
        assert(e == front + tail);
        assert forall|i: int| 0 <= i < e.len() implies #[trigger] e[i] != '<' by {
            if i < front.len() {
                assert(e[i] == front[i]);
            } else {
                assert(e[i] == tail[i - front.len()]);
            }
        }
    }
}

proof fn lemma_join_tags_only(parts: Seq<Seq<char>>)
    requires
        forall|k: int| 0 <= k < parts.len() ==> tags_only(#[trigger] parts[k]),
    ensures
        tags_only(join(parts, "<br>"@)),
    decreases parts.len(),
{
    lemma_tag_literals();
    if parts.len() == 1 {
        assert(tags_only(parts[0]));
    } else if parts.len() > 1 {
        assert forall|k: int| 0 <= k < parts.drop_last().len() implies tags_only(
            #[trigger] parts.drop_last()[k],
        ) by {
            assert(parts.drop_last()[k] == parts[k]);
        }
        lemma_join_tags_only(parts.drop_last());
        assert(tags_only(parts.last()));
        lemma_tags_only_add(join(parts.drop_last(), "<br>"@), "<br>"@);
        lemma_tags_only_add(join(parts.drop_last(), "<br>"@) + "<br>"@, parts.last());
    }
}

proof fn lemma_block_html_shape(block: Seq<char>)
    ensures
        tags_only(block_html(block)),
        block_html(block).len() > 0,
{
    lemma_tag_literals();
    reveal_strlit("<p>");
    let escaped = lines(block).map_values(|l: Seq<char>| escape_html_spec(l));
    assert forall|k: int| 0 <= k < escaped.len() implies tags_only(#[trigger] escaped[k]) by {
        lemma_escape_has_no_lt(lines(block)[k]);
    }
    lemma_join_tags_only(escaped);
    lemma_tags_only_add("<p>"@, join(escaped, "<br>"@));
    lemma_tags_only_add("<p>"@ + join(escaped, "<br>"@), "</p>"@);
}

proof fn lemma_concat_shape(parts: Seq<Seq<char>>)
    requires
        forall|k: int| 0 <= k < parts.len() ==> tags_only(#[trigger] parts[k]) && parts[k].len() > 0,
    ensures
        tags_only(concat(parts)),
        concat(parts).len() == 0 <==> parts.len() == 0,
    decreases parts.len(),
{
    if parts.len() > 0 {
        assert forall|k: int| 0 <= k < parts.drop_last().len() implies tags_only(
            #[trigger] parts.drop_last()[k],
        ) && parts.drop_last()[k].len() > 0 by {
            assert(parts.drop_last()[k] == parts[k]);
        }
        lemma_concat_shape(parts.drop_last());
        assert(tags_only(parts.last()) && parts.last().len() > 0);
        lemma_tags_only_add(concat(parts.drop_last()), parts.last());
    }
}

/// The shape of the HTML a text maps to: one `<p>…</p>` block per non-blank
/// paragraph, in order (so nothing at all exactly when the text is blank),
/// and every `<`
/// starts one of the tags `<p>`, `</p>` or `<br>` the mapping writes, since
/// the text's own `&`, `<` and `>` are escaped.
pub proof fn law_text_to_html_shape(text: Seq<char>)
    ensures
        text_to_html_spec(text) == concat(blocks(text).map_values(|b: Seq<char>| block_html(b))),
        forall|k: int|
            0 <= k < blocks(text).len() ==> ({
                let b = #[trigger] blocks(text)[k];
                &&& b.len() > 0
                &&& b == trim(b)
            }),
        text_to_html_spec(text).len() == 0 <==> blocks(text).len() == 0,
        blocks(text).len() == 0 <==> trim(text).len() == 0,
        text_to_html_spec(text).len() == 0 <==> trim(text).len() == 0,
        tags_only(text_to_html_spec(text)),
{
    crate::notes_round_trip::lemma_blocks_empty_iff_blank(text);
    broadcast use vstd::seq_lib::group_filter_ensures;

    let bs = blocks(text);
    let parts = bs.map_values(|b: Seq<char>| block_html(b));
    assert forall|k: int| 0 <= k < parts.len() implies tags_only(#[trigger] parts[k])
        && parts[k].len() > 0 by {
        lemma_block_html_shape(bs[k]);
    }
    lemma_concat_shape(parts);
    let trimmed = split_paragraphs(normalize_newlines(text)).map_values(|b: Seq<char>| trim(b));
    assert forall|k: int| 0 <= k < bs.len() implies ({
        let b = #[trigger] bs[k];
        &&& b.len() > 0
        &&& b == trim(b)
    }) by {
        let b = bs[k];
        assert(trimmed.filter(|b: Seq<char>| b.len() > 0).contains(b));
        trimmed.lemma_filter_contains_rev(|b: Seq<char>| b.len() > 0, b);
        let m = choose|m: int| 0 <= m < trimmed.len() && trimmed[m] == b;
        lemma_trim_idempotent(split_paragraphs(normalize_newlines(text))[m]);
    }
}

/// Minimal HTML from plain text: blank-line-separated blocks become `<p>`
/// paragraphs, single newlines inside a block become `<br>`, and `&`, `<`,
/// `>` are escaped. Empty input yields an empty string.
pub fn text_to_html(text: &str) -> (r: String)
    ensures
        r@ == text_to_html_spec(text@),
{
    let v = to_chars(text);
    let norm = normalize_newlines_vec(v.as_slice());
    let pieces = split_paragraphs_vec(norm.as_slice());
    let ghost pv = pieces@.map_values(|w: Vec<char>| w@);
    let ghost tp = pv.map_values(|b: Seq<char>| trim(b));
    let mut out: Vec<char> = Vec::new();
    let mut i: usize = 0;
    while i < pieces.len()
        invariant
            i <= pieces@.len(),
            pv == pieces@.map_values(|w: Vec<char>| w@),
            tp == pv.map_values(|b: Seq<char>| trim(b)),
            out@ == concat(tp.take(i as int).filter(|b: Seq<char>| b.len() > 0).map_values(
                |b: Seq<char>| block_html(b),
            )),
        decreases pieces@.len() - i,
    {
        let ghost o = out@;
        let (lo, hi) = trim_bounds(pieces[i].as_slice(), CharClass::Whitespace);
        proof {
            assert(pv[i as int] == pieces@[i as int]@);
            assert(tp[i as int] == trim(pieces@[i as int]@));
            assert(tp.take(i + 1).drop_last() =~= tp.take(i as int));
        }
        if lo < hi {
            let b = slice_to_vec(pieces[i].as_slice(), lo, hi);
            let h = block_html_vec(b.as_slice());
            extend_chars(&mut out, h.as_slice());
            proof {
                reveal(Seq::filter);
                let f = tp.take(i as int).filter(|b: Seq<char>| b.len() > 0);
                let f2 = tp.take(i + 1).filter(|b: Seq<char>| b.len() > 0);
                assert(tp.take(i + 1).last() == b@);
                assert(f2 =~= f.push(b@));
                let fm = f.map_values(|b: Seq<char>| block_html(b));
                let f2m = f2.map_values(|b: Seq<char>| block_html(b));
                assert(f2m =~= fm.push(block_html(b@)));
                assert(f2m.drop_last() =~= fm);
                assert(concat(f2m) == concat(fm) + block_html(b@));
            }
        } else {
            proof {
                reveal(Seq::filter);
                let f = tp.take(i as int).filter(|b: Seq<char>| b.len() > 0);
                let f2 = tp.take(i + 1).filter(|b: Seq<char>| b.len() > 0);
                assert(tp.take(i + 1).last() == tp[i as int]);
                assert(tp[i as int].len() == 0);
                assert(f2 =~= f);
            }
        }
        i = i + 1;
    }
    proof {
        assert(tp.take(i as int) =~= tp);
        assert(norm@ == normalize_newlines(text@));
    }
    from_chars(out.as_slice())
}

/// Drops the leading/trailing newlines and blanks the outermost tags leave.
fn trim_breaks(text: &[char]) -> (r: String)
    ensures
        r@ == trim_class(text@, CharClass::BreakOrBlank),
{
    let (lo, hi) = trim_bounds(text, CharClass::BreakOrBlank);
    let t = slice_to_vec(text, lo, hi);
    from_chars(t.as_slice())
}

} // verus!
