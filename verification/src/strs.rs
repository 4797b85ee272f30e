//! Character-sequence helpers shared by the text modules: the Unicode
//! whitespace class, edge trimming, splitting and joining, and the few std
//! string conversions the library needs.
use vstd::prelude::*;

verus! {

/// Unicode `White_Space`, the set `char::is_whitespace` tests.
pub open spec fn is_ws(c: char) -> bool {
    ||| c == ' '
    ||| ('\t' <= c && c <= '\r')
    ||| c == '\u{85}'
    ||| c == '\u{A0}'
    ||| c == '\u{1680}'
    ||| ('\u{2000}' <= c && c <= '\u{200A}')
    ||| c == '\u{2028}'
    ||| c == '\u{2029}'
    ||| c == '\u{202F}'
    ||| c == '\u{205F}'
    ||| c == '\u{3000}'
}

/// `char::is_whitespace`.
pub fn is_whitespace(c: char) -> (b: bool)
    ensures
        b == is_ws(c),
{
    c == ' ' || ('\t' <= c && c <= '\r') || c == '\u{85}' || c == '\u{A0}' || c == '\u{1680}'
        || ('\u{2000}' <= c && c <= '\u{200A}') || c == '\u{2028}' || c == '\u{2029}'
        || c == '\u{202F}' || c == '\u{205F}' || c == '\u{3000}'
}

/// What `char::is_alphanumeric` returns for a character (Unicode `Alphabetic`
/// or `Numeric`).
pub uninterp spec fn alphanumeric(c: char) -> bool;

/// What `char::is_alphabetic` returns for a character.
pub uninterp spec fn alphabetic(c: char) -> bool;

/// What `char::is_uppercase` returns for a character.
pub uninterp spec fn uppercase(c: char) -> bool;

/// What `str::to_lowercase` returns for a string.
pub uninterp spec fn lowercase(s: Seq<char>) -> Seq<char>;

/// Calls `char::is_alphanumeric`; the result is the named property of `c`.
#[verifier::external_body]
pub(crate) fn char_is_alphanumeric(c: char) -> (b: bool)
    ensures
        b == alphanumeric(c),
{
    c.is_alphanumeric()
}

/// Calls `char::is_alphabetic`; the result is the named property of `c`.
#[verifier::external_body]
pub(crate) fn char_is_alphabetic(c: char) -> (b: bool)
    ensures
        b == alphabetic(c),
{
    c.is_alphabetic()
}

/// Calls `char::is_uppercase`; the result is the named property of `c`.
#[verifier::external_body]
pub(crate) fn char_is_uppercase(c: char) -> (b: bool)
    ensures
        b == uppercase(c),
{
    c.is_uppercase()
}

/// Calls `str::to_lowercase`; the result is the named lowercase form of `s`.
#[verifier::external_body]
pub(crate) fn to_lowercase(s: &str) -> (r: String)
    ensures
        r@ == lowercase(s@),
{
    s.to_lowercase()
}

/// Collects the characters of `s` (`str::chars`); the vector holds exactly
/// the characters of `s`, in order.
#[verifier::external_body]
pub(crate) fn to_chars(s: &str) -> (v: Vec<char>)
    ensures
        v@ == s@,
{
    s.chars().collect()
}

/// Builds a `String` from characters (`FromIterator<char>`); the string holds
/// exactly these characters, in order.
#[verifier::external_body]
pub(crate) fn from_chars(v: &[char]) -> (s: String)
    ensures
        s@ == v@,
{
    v.iter().collect()
}

/// `a == b` on string slices.
pub fn str_eq(a: &str, b: &str) -> (r: bool)
    ensures
        r == (a@ == b@),
{
    let x = to_chars(a);
    let y = to_chars(b);
    if x.len() != y.len() {
        return false;
    }
    let mut i: usize = 0;
    while i < x.len()
        invariant
            i <= x@.len(),
            x@.len() == y@.len(),
            x@ == a@,
            y@ == b@,
            forall|m: int| 0 <= m < i ==> x@[m] == y@[m],
        decreases x@.len() - i,
    {
        if x[i] != y[i] {
            return false;
        }
        i = i + 1;
    }
    assert(x@ =~= y@);
    true
}

/// Whether `s` starts with `prefix`.
pub fn starts_with(s: &str, prefix: &str) -> (r: bool)
    ensures
        r == (prefix@.len() <= s@.len() && s@.take(prefix@.len() as int) == prefix@),
{
    let x = to_chars(s);
    let y = to_chars(prefix);
    if y.len() > x.len() {
        return false;
    }
    let mut i: usize = 0;
    while i < y.len()
        invariant
            i <= y@.len() <= x@.len(),
            x@ == s@,
            y@ == prefix@,
            forall|m: int| 0 <= m < i ==> x@[m] == y@[m],
        decreases y@.len() - i,
    {
        if x[i] != y[i] {
            assert(s@.take(prefix@.len() as int)[i as int] != prefix@[i as int]);
            return false;
        }
        i = i + 1;
    }
    assert(s@.take(prefix@.len() as int) =~= prefix@);
    true
}

/// `p` occurs in `s` at index `i`.
pub open spec fn occurs_at(s: Seq<char>, p: Seq<char>, i: int) -> bool {
    0 <= i && i + p.len() <= s.len() && s.subrange(i, i + p.len()) == p
}

/// The first occurrence of `p` in `s` at or after `i`.
pub open spec fn find_from(s: Seq<char>, p: Seq<char>, i: int) -> Option<int>
    decreases s.len() + 1 - i,
{
    if i < 0 || i + p.len() > s.len() {
        None
    } else if occurs_at(s, p, i) {
        Some(i)
    } else {
        find_from(s, p, i + 1)
    }
}

/// `str::find`: the first occurrence of `p` in `s`.
pub open spec fn find_first(s: Seq<char>, p: Seq<char>) -> Option<int> {
    find_from(s, p, 0)
}

/// The last occurrence of `p` in `s` at or before `i`.
pub open spec fn find_last_from(s: Seq<char>, p: Seq<char>, i: int) -> Option<int>
    decreases i + 1,
{
    if i < 0 {
        None
    } else if occurs_at(s, p, i) {
        Some(i)
    } else {
        find_last_from(s, p, i - 1)
    }
}

/// `str::rfind`: the last occurrence of `p` in `s`.
pub open spec fn find_last(s: Seq<char>, p: Seq<char>) -> Option<int> {
    find_last_from(s, p, s.len() - p.len())
}

pub proof fn lemma_find_from_some(s: Seq<char>, p: Seq<char>, i: int)
    ensures
        find_from(s, p, i) matches Some(k) ==> i <= k && occurs_at(s, p, k),
    decreases s.len() + 1 - i,
{
    if !(i < 0 || i + p.len() > s.len()) && !occurs_at(s, p, i) {
        lemma_find_from_some(s, p, i + 1);
    }
}

pub proof fn lemma_find_last_from_some(s: Seq<char>, p: Seq<char>, i: int)
    ensures
        find_last_from(s, p, i) matches Some(k) ==> k <= i && occurs_at(s, p, k),
    decreases i + 1,
{
    if i >= 0 && !occurs_at(s, p, i) {
        lemma_find_last_from_some(s, p, i - 1);
    }
}

/// Whether `p` occurs in `v` at `i`.
pub fn matches_at(v: &[char], p: &[char], i: usize) -> (r: bool)
    ensures
        r == occurs_at(v@, p@, i as int),
{
    if i > v.len() || p.len() > v.len() - i {
        return false;
    }
    let n = v.len();
    let mut k: usize = 0;
    while k < p.len()
        invariant
            k <= p@.len(),
            n == v@.len(),
            i <= v@.len(),
            i + p@.len() <= v@.len(),
            forall|m: int| 0 <= m < k ==> v@[i + m] == p@[m],
        decreases p@.len() - k,
    {
        assert(i + k < v@.len());
        if v[i + k] != p[k] {
            assert(v@.subrange(i as int, i + p@.len())[k as int] != p@[k as int]);
            return false;
        }
        k = k + 1;
    }
    assert(v@.subrange(i as int, i + p@.len()) =~= p@);
    true
}

/// `str::find` on characters.
pub fn find_first_exec(v: &[char], p: &[char]) -> (r: Option<usize>)
    ensures
        match find_first(v@, p@) {
            Some(k) => r == Some(k as usize),
            None => r is None,
        },
{
    if p.len() == 0 {
        assert(v@.subrange(0, 0) =~= p@);
        return Some(0);
    }
    let mut i: usize = 0;
    while i < v.len() && p.len() <= v.len() - i
        invariant
            i <= v@.len(),
            find_from(v@, p@, i as int) == find_first(v@, p@),
        decreases v@.len() + 1 - i,
    {
        if matches_at(v, p, i) {
            return Some(i);
        }
        i = i + 1;
    }
    None
}

/// `str::rfind` on characters.
pub fn find_last_exec(v: &[char], p: &[char]) -> (r: Option<usize>)
    ensures
        match find_last(v@, p@) {
            Some(k) => 0 <= k && r == Some(k as usize),
            None => r is None,
        },
{
    if p.len() > v.len() {
        return None;
    }
    let mut i: usize = v.len() - p.len();
    loop
        invariant
            i + p@.len() <= v@.len(),
            find_last_from(v@, p@, i as int) == find_last(v@, p@),
        decreases i,
    {
        if matches_at(v, p, i) {
            return Some(i);
        }
        if i == 0 {
            assert(find_last_from(v@, p@, -1) is None);
            return None;
        }
        i = i - 1;
    }
}

/// The character classes the library trims by.
#[derive(Clone, Copy, PartialEq, Eq, Debug)]
pub enum CharClass {
    /// Unicode whitespace (`char::is_whitespace`).
    Whitespace,
    /// `'\n'`, `' '` and `'\t'`.
    BreakOrBlank,
    /// Sentence-ending punctuation: `.`, `!`, `?`.
    SentenceEnd,
    /// Anything that is not alphanumeric.
    NotAlphanumeric,
    /// Anything that is not Unicode whitespace.
    NotWhitespace,
    /// `' '` and `'\t'`.
    SpaceOrTab,
    /// `'\n'`.
    Newline,
    /// `'/'`.
    Slash,
    /// ASCII letters and digits (`char::is_ascii_alphanumeric`).
    AsciiAlnum,
}

/// `char::is_ascii_alphanumeric`.
pub open spec fn is_ascii_alnum(c: char) -> bool {
    ('0' <= c && c <= '9') || ('a' <= c && c <= 'z') || ('A' <= c && c <= 'Z')
}

pub open spec fn in_class(c: char, k: CharClass) -> bool {
    match k {
        CharClass::Whitespace => is_ws(c),
        CharClass::BreakOrBlank => c == '\n' || c == ' ' || c == '\t',
        CharClass::SentenceEnd => c == '.' || c == '!' || c == '?',
        CharClass::NotAlphanumeric => !alphanumeric(c),
        CharClass::NotWhitespace => !is_ws(c),
        CharClass::SpaceOrTab => c == ' ' || c == '\t',
        CharClass::Newline => c == '\n',
        CharClass::Slash => c == '/',
        CharClass::AsciiAlnum => is_ascii_alnum(c),
    }
}

pub fn class_has(c: char, k: CharClass) -> (b: bool)
    ensures
        b == in_class(c, k),
{
    match k {
        CharClass::Whitespace => is_whitespace(c),
        CharClass::BreakOrBlank => c == '\n' || c == ' ' || c == '\t',
        CharClass::SentenceEnd => c == '.' || c == '!' || c == '?',
        CharClass::NotAlphanumeric => !char_is_alphanumeric(c),
        CharClass::NotWhitespace => !is_whitespace(c),
        CharClass::SpaceOrTab => c == ' ' || c == '\t',
        CharClass::Newline => c == '\n',
        CharClass::Slash => c == '/',
        CharClass::AsciiAlnum => ('0' <= c && c <= '9') || ('a' <= c && c <= 'z') || ('A' <= c
            && c <= 'Z'),
    }
}

/// Number of leading characters of `s` in class `k`.
pub open spec fn lead_len(s: Seq<char>, k: CharClass) -> nat
    decreases s.len(),
{
    if s.len() == 0 || !in_class(s[0], k) {
        0
    } else {
        1 + lead_len(s.drop_first(), k)
    }
}

/// Number of trailing characters of `s` in class `k`.
pub open spec fn trail_len(s: Seq<char>, k: CharClass) -> nat
    decreases s.len(),
{
    if s.len() == 0 || !in_class(s.last(), k) {
        0
    } else {
        1 + trail_len(s.drop_last(), k)
    }
}

/// `s` without its leading characters of class `k` (`trim_start_matches`).
pub open spec fn trim_start_class(s: Seq<char>, k: CharClass) -> Seq<char> {
    s.skip(lead_len(s, k) as int)
}

/// `s` without its trailing characters of class `k` (`trim_end_matches`).
pub open spec fn trim_end_class(s: Seq<char>, k: CharClass) -> Seq<char> {
    s.take(s.len() - trail_len(s, k))
}

/// `s` without leading or trailing characters of class `k` (`trim_matches`).
pub open spec fn trim_class(s: Seq<char>, k: CharClass) -> Seq<char> {
    trim_start_class(trim_end_class(s, k), k)
}

/// `str::trim`.
pub open spec fn trim(s: Seq<char>) -> Seq<char> {
    trim_class(s, CharClass::Whitespace)
}

/// Trimming twice is trimming once.
pub proof fn lemma_trim_idempotent(s: Seq<char>)
    ensures
        trim(trim(s)) == trim(s),
{
    let k = CharClass::Whitespace;
    let e = trim_end_class(s, k);
    let t = trim_start_class(e, k);
    lemma_trail_len(s, k);
    lemma_lead_len(e, k);
    if t.len() == 0 {
        assert(trim_end_class(t, k) =~= t);
        assert(trim(t) =~= t);
    } else {
        assert(t.last() == e[e.len() - 1]);
        assert(e[e.len() - 1] == s[s.len() - trail_len(s, k) - 1]);
        lemma_trail_len_unique(t, k, 0);
        assert(trim_end_class(t, k) =~= t);
        assert(t[0] == e[lead_len(e, k) as int]);
        lemma_lead_len_unique(t, k, 0);
        assert(t.skip(0) =~= t);
    }
}

/// `s` holds a character that is not whitespace.
pub open spec fn has_text(s: Seq<char>) -> bool {
    exists|i: int| 0 <= i < s.len() && !is_ws(#[trigger] s[i])
}

/// Trimming leaves something exactly when there is a non-whitespace
/// character.
pub proof fn lemma_trim_empty_iff_blank(s: Seq<char>)
    ensures
        trim(s).len() > 0 <==> has_text(s),
{
    let k = CharClass::Whitespace;
    let e = trim_end_class(s, k);
    let t = trim_start_class(e, k);
    lemma_trail_len(s, k);
    lemma_lead_len(e, k);
    if has_text(s) {
        let i = choose|i: int| 0 <= i < s.len() && !is_ws(#[trigger] s[i]);
        assert(i < s.len() - trail_len(s, k));
        assert(e[i] == s[i]);
        assert(i >= lead_len(e, k));
    }
    if t.len() > 0 {
        assert(t[0] == e[lead_len(e, k) as int]);
        assert(e[lead_len(e, k) as int] == s[lead_len(e, k) as int]);
    }
}

pub proof fn lemma_lead_len(s: Seq<char>, k: CharClass)
    ensures
        lead_len(s, k) <= s.len(),
        forall|j: int| 0 <= j < lead_len(s, k) ==> in_class(#[trigger] s[j], k),
        lead_len(s, k) < s.len() ==> !in_class(s[lead_len(s, k) as int], k),
    decreases s.len(),
{
    if s.len() > 0 && in_class(s[0], k) {
        lemma_lead_len(s.drop_first(), k);
        assert forall|j: int| 0 <= j < lead_len(s, k) implies in_class(#[trigger] s[j], k) by {
            if j > 0 {
                assert(s[j] == s.drop_first()[j - 1]);
            }
        }
    }
}

pub proof fn lemma_lead_len_unique(s: Seq<char>, k: CharClass, i: int)
    requires
        0 <= i <= s.len(),
        forall|j: int| 0 <= j < i ==> in_class(#[trigger] s[j], k),
        i < s.len() ==> !in_class(s[i], k),
    ensures
        lead_len(s, k) == i,
    decreases s.len(),
{
    if i > 0 {
        assert(in_class(s[0], k));
        assert forall|j: int| 0 <= j < i - 1 implies in_class(#[trigger] s.drop_first()[j], k) by {
            assert(s.drop_first()[j] == s[j + 1]);
        }
        lemma_lead_len_unique(s.drop_first(), k, i - 1);
    }
}

pub proof fn lemma_trail_len(s: Seq<char>, k: CharClass)
    ensures
        trail_len(s, k) <= s.len(),
        forall|j: int| s.len() - trail_len(s, k) <= j < s.len() ==> in_class(#[trigger] s[j], k),
        trail_len(s, k) < s.len() ==> !in_class(s[s.len() - trail_len(s, k) - 1], k),
    decreases s.len(),
{
    if s.len() > 0 && in_class(s.last(), k) {
        lemma_trail_len(s.drop_last(), k);
        assert forall|j: int| s.len() - trail_len(s, k) <= j < s.len() implies in_class(
            #[trigger] s[j],
            k,
        ) by {
            if j < s.len() - 1 {
                assert(s[j] == s.drop_last()[j]);
            }
        }
    }
}

pub proof fn lemma_trail_len_unique(s: Seq<char>, k: CharClass, i: int)
    requires
        0 <= i <= s.len(),
        forall|j: int| s.len() - i <= j < s.len() ==> in_class(#[trigger] s[j], k),
        i < s.len() ==> !in_class(s[s.len() - i - 1], k),
    ensures
        trail_len(s, k) == i,
    decreases s.len(),
{
    if i > 0 {
        assert(in_class(s[s.len() - 1], k));
        assert forall|j: int| s.drop_last().len() - (i - 1) <= j < s.drop_last().len() implies in_class(
            #[trigger] s.drop_last()[j],
            k,
        ) by {
            assert(s.drop_last()[j] == s[j]);
        }
        lemma_trail_len_unique(s.drop_last(), k, i - 1);
    }
}

/// The bounds `(lo, hi)` of `v` with class-`k` characters trimmed from both
/// ends: `v[lo..hi]` is `trim_class(v, k)`.
pub fn trim_bounds(v: &[char], k: CharClass) -> (r: (usize, usize))
    ensures
        r.0 <= r.1 <= v@.len(),
        v@.subrange(r.0 as int, r.1 as int) == trim_class(v@, k),
        r.1 == v@.len() - trail_len(v@, k),
{
    let mut hi = v.len();
    while hi > 0 && class_has(v[hi - 1], k)
        invariant
            hi <= v@.len(),
            forall|j: int| hi <= j < v@.len() ==> in_class(#[trigger] v@[j], k),
        decreases hi,
    {
        hi = hi - 1;
    }
    proof {
        lemma_trail_len_unique(v@, k, v@.len() - hi);
    }
    let mut lo: usize = 0;
    while lo < hi && class_has(v[lo], k)
        invariant
            lo <= hi <= v@.len(),
            forall|j: int| 0 <= j < lo ==> in_class(#[trigger] v@[j], k),
        decreases hi - lo,
    {
        lo = lo + 1;
    }
    proof {
        let e = trim_end_class(v@, k);
        assert(e == v@.take(hi as int));
        assert forall|j: int| 0 <= j < lo implies in_class(#[trigger] e[j], k) by {
            assert(e[j] == v@[j]);
        }
        if lo < hi {
            assert(e[lo as int] == v@[lo as int]);
        }
        lemma_lead_len_unique(e, k, lo as int);
        assert(v@.subrange(lo as int, hi as int) =~= e.skip(lo as int));
    }
    (lo, hi)
}

/// The characters `v[lo..hi]` as a new vector.
pub fn slice_to_vec(v: &[char], lo: usize, hi: usize) -> (r: Vec<char>)
    requires
        lo <= hi <= v@.len(),
    ensures
        r@ == v@.subrange(lo as int, hi as int),
{
    let mut r: Vec<char> = Vec::new();
    let mut i = lo;
    while i < hi
        invariant
            lo <= i <= hi <= v@.len(),
            r@ == v@.subrange(lo as int, i as int),
        decreases hi - i,
    {
        r.push(v[i]);
        i = i + 1;
        assert(r@ =~= v@.subrange(lo as int, i as int));
    }
    r
}

/// `s.trim_matches(class k)` as a new string.
pub fn trim_class_str(s: &str, k: CharClass) -> (r: String)
    ensures
        r@ == trim_class(s@, k),
{
    let v = to_chars(s);
    let (lo, hi) = trim_bounds(v.as_slice(), k);
    let t = slice_to_vec(v.as_slice(), lo, hi);
    from_chars(t.as_slice())
}

/// `str::trim` as a new string.
pub fn trim_str(s: &str) -> (r: String)
    ensures
        r@ == trim(s@),
{
    trim_class_str(s, CharClass::Whitespace)
}

/// Appends the characters of `src` to `dst`.
pub fn extend_chars(dst: &mut Vec<char>, src: &[char])
    ensures
        final(dst)@ == old(dst)@ + src@,
{
    let mut i: usize = 0;
    while i < src.len()
        invariant
            i <= src@.len(),
            dst@ == old(dst)@ + src@.take(i as int),
        decreases src@.len() - i,
    {
        dst.push(src[i]);
        i = i + 1;
        assert(dst@ =~= old(dst)@ + src@.take(i as int));
    }
    assert(src@.take(i as int) =~= src@);
}

/// Appends the characters of `s` to `dst`.
pub fn extend_str(dst: &mut Vec<char>, s: &str)
    ensures
        final(dst)@ == old(dst)@ + s@,
{
    let v = to_chars(s);
    extend_chars(dst, v.as_slice());
}

/// The index just past the run of class-`k` characters starting at `i`.
pub fn run_end(v: &[char], i: usize, k: CharClass) -> (j: usize)
    requires
        i <= v@.len(),
    ensures
        i <= j <= v@.len(),
        j - i == lead_len(v@.skip(i as int), k),
{
    let mut j = i;
    while j < v.len() && class_has(v[j], k)
        invariant
            i <= j <= v@.len(),
            forall|m: int| i <= m < j ==> in_class(#[trigger] v@[m], k),
        decreases v@.len() - j,
    {
        j = j + 1;
    }
    proof {
        let t = v@.skip(i as int);
        assert forall|m: int| 0 <= m < j - i implies in_class(#[trigger] t[m], k) by {
            assert(t[m] == v@[i + m]);
        }
        if j < v@.len() {
            assert(t[j - i] == v@[j as int]);
        }
        lemma_lead_len_unique(t, k, j - i);
    }
    j
}

/// The whitespace-separated words of `s` (`str::split_whitespace`).
pub open spec fn words(s: Seq<char>) -> Seq<Seq<char>>
    decreases s.len(),
{
    let t = trim_start_class(s, CharClass::Whitespace);
    if t.len() == 0 {
        Seq::empty()
    } else {
        let n = lead_len(t, CharClass::NotWhitespace);
        proof {
            lemma_lead_len(s, CharClass::Whitespace);
            lemma_lead_len(t, CharClass::NotWhitespace);
        }
        if n == 0 {
            Seq::empty()
        } else {
            seq![t.take(n as int)] + words(t.skip(n as int))
        }
    }
}

proof fn lemma_skip_skip(s: Seq<char>, a: int, b: int)
    requires
        0 <= a,
        0 <= b,
        a + b <= s.len(),
    ensures
        s.skip(a).skip(b) == s.skip(a + b),
{
    assert(s.skip(a).skip(b) =~= s.skip(a + b));
}

/// A non-empty run of non-whitespace characters.
pub open spec fn is_word(w: Seq<char>) -> bool {
    w.len() > 0 && forall|i: int| 0 <= i < w.len() ==> !is_ws(#[trigger] w[i])
}

/// Every whitespace character of `s` is a single space between two
/// non-whitespace characters: no leading, trailing or repeated whitespace.
pub open spec fn single_spaced(s: Seq<char>) -> bool {
    forall|i: int|
        0 <= i < s.len() && is_ws(#[trigger] s[i]) ==> s[i] == ' ' && 0 < i && i + 1 < s.len()
            && !is_ws(s[i - 1]) && !is_ws(s[i + 1])
}

/// `words` splits `s` into words.
pub proof fn lemma_words_are_words(s: Seq<char>)
    ensures
        forall|k: int| 0 <= k < words(s).len() ==> is_word(#[trigger] words(s)[k]),
    decreases s.len(),
{
    let t = trim_start_class(s, CharClass::Whitespace);
    lemma_lead_len(s, CharClass::Whitespace);
    if t.len() > 0 {
        let n = lead_len(t, CharClass::NotWhitespace);
        lemma_lead_len(t, CharClass::NotWhitespace);
        if n > 0 {
            lemma_words_are_words(t.skip(n as int));
            let w = t.take(n as int);
            assert(is_word(w)) by {
                assert forall|i: int| 0 <= i < w.len() implies !is_ws(#[trigger] w[i]) by {
                    assert(w[i] == t[i]);
                    assert(in_class(t[i], CharClass::NotWhitespace));
                }
            }
            assert forall|k: int| 0 <= k < words(s).len() implies is_word(#[trigger] words(s)[k]) by {
                if k > 0 {
                    assert(words(s)[k] == words(t.skip(n as int))[k - 1]);
                }
            }
        }
    }
}

/// A leading whitespace character does not change the words.
proof fn lemma_words_skip_space(c: char, x: Seq<char>)
    requires
        is_ws(c),
    ensures
        words(seq![c] + x) == words(x),
{
    let s = seq![c] + x;
    assert(s.drop_first() =~= x);
    assert(lead_len(s, CharClass::Whitespace) == 1 + lead_len(x, CharClass::Whitespace));
    lemma_lead_len(x, CharClass::Whitespace);
    assert(trim_start_class(s, CharClass::Whitespace) =~= trim_start_class(x, CharClass::Whitespace));
}

/// A word followed by whitespace (or nothing) is the first of the words.
proof fn lemma_words_word_front(w: Seq<char>, x: Seq<char>)
    requires
        is_word(w),
        x.len() == 0 || is_ws(x[0]),
    ensures
        words(w + x) == seq![w] + words(x),
{
    let s = w + x;
    assert(!is_ws(s[0]));
    assert(lead_len(s, CharClass::Whitespace) == 0);
    assert(trim_start_class(s, CharClass::Whitespace) =~= s);
    assert forall|j: int| 0 <= j < w.len() implies in_class(#[trigger] s[j], CharClass::NotWhitespace) by {
        assert(s[j] == w[j]);
    }
    if w.len() < s.len() {
        assert(s[w.len() as int] == x[0]);
    }
    lemma_lead_len_unique(s, CharClass::NotWhitespace, w.len() as int);
    assert(s.take(w.len() as int) =~= w);
    assert(s.skip(w.len() as int) =~= x);
}

/// `join` splits off its first part.
pub proof fn lemma_join_split_first(ws: Seq<Seq<char>>, sep: Seq<char>)
    requires
        ws.len() >= 2,
    ensures
        join(ws, sep) == ws[0] + sep + join(ws.drop_first(), sep),
    decreases ws.len(),
{
    if ws.len() == 2 {
        assert(ws.drop_last() =~= seq![ws[0]]);
        assert(ws.drop_first() =~= seq![ws[1]]);
        assert(join(ws, sep) == join(ws.drop_last(), sep) + sep + ws.last());
    } else {
        lemma_join_split_first(ws.drop_last(), sep);
        assert(ws.drop_last().drop_first() =~= ws.drop_first().drop_last());
        assert(ws.drop_first().last() == ws.last());
        assert(ws.drop_last()[0] == ws[0]);
        assert(join(ws, sep) == join(ws.drop_last(), sep) + sep + ws.last());
        assert(join(ws.drop_first(), sep) == join(ws.drop_first().drop_last(), sep) + sep
            + ws.drop_first().last());
        assert(ws[0] + sep + join(ws.drop_first().drop_last(), sep) + sep + ws.last() =~= ws[0] + sep
            + (join(ws.drop_first().drop_last(), sep) + sep + ws.drop_first().last()));
    }
}

/// Words joined by single spaces split back into the same words.
pub proof fn lemma_words_of_join(ws: Seq<Seq<char>>)
    requires
        forall|k: int| 0 <= k < ws.len() ==> is_word(#[trigger] ws[k]),
    ensures
        words(join(ws, " "@)) == ws,
    decreases ws.len(),
{
    reveal_strlit(" ");
    if ws.len() == 0 {
        assert(trim_start_class(Seq::<char>::empty(), CharClass::Whitespace).len() == 0);
        assert(words(Seq::<char>::empty()) =~= Seq::<Seq<char>>::empty());
    } else if ws.len() == 1 {
        assert(is_word(ws[0]));
        lemma_words_word_front(ws[0], Seq::empty());
        assert(ws[0] + Seq::<char>::empty() =~= ws[0]);
        assert(trim_start_class(Seq::<char>::empty(), CharClass::Whitespace).len() == 0);
        assert(words(Seq::<char>::empty()) =~= Seq::<Seq<char>>::empty());
        assert(seq![ws[0]] + Seq::<Seq<char>>::empty() =~= ws);
    } else {
        let rest = ws.drop_first();
        assert forall|k: int| 0 <= k < rest.len() implies is_word(#[trigger] rest[k]) by {
            assert(rest[k] == ws[k + 1]);
        }
        lemma_words_of_join(rest);
        lemma_join_split_first(ws, " "@);
        let tail = " "@ + join(rest, " "@);
        assert(join(ws, " "@) =~= ws[0] + tail);
        assert(is_word(ws[0]));
        assert(tail[0] == ' ');
        lemma_words_word_front(ws[0], tail);
        assert(tail =~= seq![' '] + join(rest, " "@));
        lemma_words_skip_space(' ', join(rest, " "@));
        assert(seq![ws[0]] + rest =~= ws);
    }
}

/// Words joined by single spaces are single-spaced.
pub proof fn lemma_join_single_spaced(ws: Seq<Seq<char>>)
    requires
        forall|k: int| 0 <= k < ws.len() ==> is_word(#[trigger] ws[k]),
    ensures
        single_spaced(join(ws, " "@)),
        ws.len() > 0 ==> join(ws, " "@).len() > 0,
    decreases ws.len(),
{
    reveal_strlit(" ");
    if ws.len() == 1 {
        assert(is_word(ws[0]));
    } else if ws.len() > 1 {
        let front = ws.drop_last();
        assert forall|k: int| 0 <= k < front.len() implies is_word(#[trigger] front[k]) by {
            assert(front[k] == ws[k]);
        }
        lemma_join_single_spaced(front);
        let a = join(front, " "@);
        let w = ws.last();
        assert(is_word(w));
        let s = a + " "@ + w;
        assert(join(ws, " "@) == s);
        assert forall|i: int|
            0 <= i < s.len() && is_ws(#[trigger] s[i]) implies s[i] == ' ' && 0 < i && i + 1 < s.len()
            && !is_ws(s[i - 1]) && !is_ws(s[i + 1]) by {
            if i < a.len() {
                assert(s[i] == a[i]);
                assert(s[i + 1] == a[i + 1] || i + 1 == a.len());
                assert(s[i - 1] == a[i - 1]);
            } else if i == a.len() {
                assert(s[i - 1] == a[a.len() - 1]);
                assert(s[i + 1] == w[0]);
                if is_ws(a[a.len() - 1]) {
                    assert(a.len() - 1 + 1 < a.len());
                }
            } else {
                assert(s[i] == w[i - a.len() - 1]);
            }
        }
    }
}

/// `q` is how the words `ws` begin: the first of them, the last one
/// possibly cut short.
pub open spec fn words_prefix_of(q: Seq<Seq<char>>, ws: Seq<Seq<char>>) -> bool {
    &&& q.len() <= ws.len()
    &&& forall|k: int| 0 <= k < q.len() - 1 ==> #[trigger] q[k] == ws[k]
    &&& q.len() > 0 ==> q.last().len() <= ws[q.len() - 1].len() && ws[q.len() - 1].take(
        q.last().len() as int,
    ) == q.last()
}

proof fn lemma_words_of_word_prefix(w: Seq<char>, m: int)
    requires
        is_word(w),
        0 < m <= w.len(),
    ensures
        words(w.take(m)) == seq![w.take(m)],
{
    let v = w.take(m);
    assert(is_word(v)) by {
        assert forall|i: int| 0 <= i < v.len() implies !is_ws(#[trigger] v[i]) by {
            assert(v[i] == w[i]);
        }
    }
    lemma_words_word_front(v, Seq::empty());
    assert(v + Seq::<char>::empty() =~= v);
    assert(trim_start_class(Seq::<char>::empty(), CharClass::Whitespace).len() == 0);
    assert(words(Seq::<char>::empty()) =~= Seq::<Seq<char>>::empty());
    assert(seq![v] + Seq::<Seq<char>>::empty() =~= seq![v]);
}

/// The words of the first `m` characters of single-spaced words are how
/// those words begin.
pub proof fn lemma_words_of_join_prefix(ws: Seq<Seq<char>>, m: int)
    requires
        forall|k: int| 0 <= k < ws.len() ==> is_word(#[trigger] ws[k]),
        0 <= m <= join(ws, " "@).len(),
    ensures
        words_prefix_of(words(join(ws, " "@).take(m)), ws),
    decreases ws.len(),
{
    reveal_strlit(" ");
    let e = Seq::<char>::empty();
    assert(trim_start_class(e, CharClass::Whitespace).len() == 0);
    assert(words(e) =~= Seq::<Seq<char>>::empty());
    if m == 0 {
        assert(join(ws, " "@).take(0) =~= e);
    } else if ws.len() == 1 {
        assert(is_word(ws[0]));
        lemma_words_of_word_prefix(ws[0], m);
    } else {
        assert(ws.len() >= 2);
        let w = ws[0];
        assert(is_word(w));
        let rest = ws.drop_first();
        assert forall|k: int| 0 <= k < rest.len() implies is_word(#[trigger] rest[k]) by {
            assert(rest[k] == ws[k + 1]);
        }
        lemma_join_split_first(ws, " "@);
        let j = join(rest, " "@);
        let s = join(ws, " "@);
        assert(s =~= w + (seq![' '] + j));
        if m <= w.len() {
            assert(s.take(m) =~= w.take(m));
            lemma_words_of_word_prefix(w, m);
        } else {
            let m2 = m - w.len() - 1;
            assert(s.take(m) =~= w + (seq![' '] + j.take(m2)));
            lemma_words_word_front(w, seq![' '] + j.take(m2));
            lemma_words_skip_space(' ', j.take(m2));
            lemma_words_of_join_prefix(rest, m2);
            let q2 = words(j.take(m2));
            let q = seq![w] + q2;
            assert(words(s.take(m)) == q);
            assert forall|k: int| 0 <= k < q.len() - 1 implies #[trigger] q[k] == ws[k] by {
                if k > 0 {
                    assert(q[k] == q2[k - 1]);
                    assert(rest[k - 1] == ws[k]);
                }
            }
            if q2.len() == 0 {
                assert(w.take(w.len() as int) =~= w);
            } else {
                assert(q.last() == q2.last());
                assert(ws[q.len() - 1] == rest[q2.len() - 1]);
            }
        }
    }
}

/// `s.split_whitespace()`, each word as a character vector.
pub fn split_whitespace(v: &[char]) -> (r: Vec<Vec<char>>)
    ensures
        r@.map_values(|w: Vec<char>| w@) == words(v@),
{
    let mut r: Vec<Vec<char>> = Vec::new();
    let mut i: usize = 0;
    assert(v@.skip(0) =~= v@);
    assert(r@.map_values(|w: Vec<char>| w@) + words(v@) =~= words(v@));
    while i < v.len()
        invariant
            i <= v@.len(),
            r@.map_values(|w: Vec<char>| w@) + words(v@.skip(i as int)) == words(v@),
        decreases v@.len() - i,
    {
        let ghost old_r = r@;
        let ghost rest = v@.skip(i as int);
        let j = run_end(v, i, CharClass::Whitespace);
        proof {
            lemma_lead_len(rest, CharClass::Whitespace);
            lemma_skip_skip(v@, i as int, j - i);
        }
        if j == v.len() {
            proof {
                assert(trim_start_class(rest, CharClass::Whitespace).len() == 0);
                assert(words(rest) =~= Seq::<Seq<char>>::empty());
                assert(v@.skip(j as int) =~= Seq::<char>::empty());
                assert(words(v@.skip(j as int)) =~= Seq::<Seq<char>>::empty());
            }
            i = j;
        } else {
            let e = run_end(v, j, CharClass::NotWhitespace);
            let w = slice_to_vec(v, j, e);
            proof {
                let t = trim_start_class(rest, CharClass::Whitespace);
                assert(t == v@.skip(j as int));
                assert(!is_ws(v@[j as int]));
                assert(t[0] == v@[j as int]);
                lemma_skip_skip(v@, j as int, e - j);
                assert(t.take(e - j) =~= v@.subrange(j as int, e as int));
                assert(words(rest) == seq![t.take(e - j)] + words(v@.skip(e as int)));
            }
            r.push(w);
            proof {
                assert(r@.map_values(|w: Vec<char>| w@) =~= old_r.map_values(|w: Vec<char>| w@).push(
                    v@.subrange(j as int, e as int),
                ));
                assert(r@.map_values(|w: Vec<char>| w@) + words(v@.skip(e as int)) =~= old_r.map_values(
                    |w: Vec<char>| w@,
                ) + words(rest));
            }
            i = e;
        }
    }
    proof {
        assert(v@.skip(i as int) =~= Seq::<char>::empty());
        assert(r@.map_values(|w: Vec<char>| w@) + Seq::<Seq<char>>::empty() =~= r@.map_values(
            |w: Vec<char>| w@,
        ));
    }
    r
}

/// Joins `parts` with `sep` between consecutive parts.
pub open spec fn join(parts: Seq<Seq<char>>, sep: Seq<char>) -> Seq<char>
    decreases parts.len(),
{
    if parts.len() == 0 {
        Seq::empty()
    } else if parts.len() == 1 {
        parts[0]
    } else {
        join(parts.drop_last(), sep) + sep + parts.last()
    }
}

/// The views of a vector of strings.
pub open spec fn views(v: Seq<String>) -> Seq<Seq<char>> {
    v.map_values(|s: String| s@)
}

/// `parts.join(sep)` over character vectors.
pub fn join_char_vecs(parts: &Vec<Vec<char>>, sep: &[char]) -> (r: Vec<char>)
    ensures
        r@ == join(parts@.map_values(|w: Vec<char>| w@), sep@),
{
    let mut out: Vec<char> = Vec::new();
    let mut i: usize = 0;
    while i < parts.len()
        invariant
            i <= parts@.len(),
            out@ == join(parts@.take(i as int).map_values(|w: Vec<char>| w@), sep@),
        decreases parts@.len() - i,
    {
        if i > 0 {
            extend_chars(&mut out, sep);
        }
        extend_chars(&mut out, parts[i].as_slice());
        proof {
            let pre = parts@.take(i as int).map_values(|w: Vec<char>| w@);
            let cur = parts@.take(i + 1).map_values(|w: Vec<char>| w@);
            assert(cur.drop_last() =~= pre);
            assert(cur.last() == parts@[i as int]@);
            if i == 0 {
                assert(pre.len() == 0);
            }
        }
        i = i + 1;
    }
    assert(parts@.take(i as int) =~= parts@);
    out
}

/// `parts.join(sep)`.
pub fn join_strings(parts: &[String], sep: &str) -> (r: String)
    ensures
        r@ == join(views(parts@), sep@),
{
    let mut out: Vec<char> = Vec::new();
    let sepv = to_chars(sep);
    let mut i: usize = 0;
    while i < parts.len()
        invariant
            i <= parts@.len(),
            sepv@ == sep@,
            out@ == join(views(parts@.take(i as int)), sep@),
        decreases parts@.len() - i,
    {
        if i > 0 {
            extend_chars(&mut out, sepv.as_slice());
        }
        extend_str(&mut out, parts[i].as_str());
        proof {
            let pre = views(parts@.take(i as int));
            let cur = views(parts@.take(i + 1));
            assert(cur.drop_last() =~= pre);
            assert(cur.last() == parts@[i as int]@);
            if i == 0 {
                assert(pre.len() == 0);
            }
        }
        i = i + 1;
    }
    assert(parts@.take(i as int) =~= parts@);
    from_chars(out.as_slice())
}

} // verus!
