//! Deterministic text processing: transcript cleanup and the single-pass,
//! whole-word phrase replacement behind the personal dictionary and snippet
//! expansion. Pattern matching itself is the `regex` crate's; this module
//! decides which patterns run and what is done with what they find.
use vstd::prelude::*;
use vstd::string::{StringExecFns, StringSliceAdditionalSpecFns};
use crate::notes::{split_on, split_on_vec};
use crate::settings::{DictionaryEntry, Snippet};
use vstd::utf8::{encode_utf8, encode_scalar};
use crate::strs::{
    alphanumeric, lowercase, char_is_alphanumeric, extend_str, join_strings, str_eq, to_lowercase,
    trim_str, trim_end_class,
    join, join_char_vecs, slice_to_vec, to_chars, from_chars, trim, trim_bounds, views, CharClass,
};

verus! {

/// Bracketed tags the transcriber emits for non-speech audio, such as
/// `[BLANK_AUDIO]`, `[MUSIC]` or `[ Silence ]`.
pub const BRACKET_TAG: &'static str = r"\[[ _A-Za-z]{1,30}\]";

/// Parenthesized non-speech annotations from a known list, such as
/// `(laughs)`; matched case-insensitively.
pub const PAREN_TAG: &'static str =
    r"\((?:laughs|laughter|laughing|music|applause|noise|silence|coughs|coughing|sighs|inaudible|unintelligible)\)";

/// Runs of music-note symbols.
pub const MUSIC_NOTES: &'static str = r"[♪♫]+";

/// Two or more spaces or tabs.
pub const MULTI_SPACE: &'static str = r"[ \t]{2,}";

/// Spaces before sentence punctuation (the punctuation is group 1).
pub const SPACE_BEFORE_PUNCT: &'static str = r" +([,.!?;:])";

// ---------------------------------------------------------------------------
// The regex crate.
// ---------------------------------------------------------------------------

/// What `Regex::replace_all(hay, rep)` returns for the regex that
/// `RegexBuilder::new(pattern).case_insensitive(case_insensitive).build()`
/// yields, or `None` where that build fails.
pub uninterp spec fn regex_replaced(
    pattern: Seq<char>,
    case_insensitive: bool,
    hay: Seq<char>,
    rep: Seq<char>,
) -> Option<Seq<char>>;

/// The texts of the matches `Regex::find_iter(hay)` yields, in order, for the
/// regex built from `pattern` as above, or `None` where the build fails.
pub uninterp spec fn regex_matches(
    pattern: Seq<char>,
    case_insensitive: bool,
    hay: Seq<char>,
) -> Option<Seq<Seq<char>>>;

/// The pieces `Regex::split(hay)` yields, in order, for the regex built from
/// `pattern` as above, or `None` where the build fails.
pub uninterp spec fn regex_pieces(
    pattern: Seq<char>,
    case_insensitive: bool,
    hay: Seq<char>,
) -> Option<Seq<Seq<char>>>;

/// `pieces[0] + fill[0] + pieces[1] + ... + fill[n-1] + pieces[n]`.
pub open spec fn interleave(pieces: Seq<Seq<char>>, fill: Seq<Seq<char>>) -> Seq<char>
    decreases pieces.len(),
{
    if pieces.len() == 0 {
        Seq::empty()
    } else if pieces.len() == 1 || fill.len() == 0 {
        pieces[0]
    } else {
        interleave(pieces.drop_last(), fill.drop_last()) + fill.last() + pieces.last()
    }
}

/// Builds the regex (`RegexBuilder::build`) and calls `Regex::replace_all`;
/// the result is the named outcome of those two calls on these arguments.
#[verifier::external_body]
fn regex_replace_all(pattern: &str, case_insensitive: bool, hay: &str, rep: &str) -> (r: Option<
    String,
>)
    ensures
        match r {
            Some(s) => regex_replaced(pattern@, case_insensitive, hay@, rep@) == Some(s@),
            None => regex_replaced(pattern@, case_insensitive, hay@, rep@) is None,
        },
{
    match regex::RegexBuilder::new(pattern).case_insensitive(case_insensitive).build() {
        Ok(re) => Some(re.replace_all(hay, rep).into_owned()),
        Err(_) => None,
    }
}

/// Builds the regex and collects the texts of `Regex::find_iter(hay)`; the
/// result is the named list of matches.
#[verifier::external_body]
fn regex_find_all(pattern: &str, case_insensitive: bool, hay: &str) -> (r: Option<Vec<String>>)
    ensures
        match r {
            Some(v) => regex_matches(pattern@, case_insensitive, hay@) == Some(views(v@)),
            None => regex_matches(pattern@, case_insensitive, hay@) is None,
        },
{
    match regex::RegexBuilder::new(pattern).case_insensitive(case_insensitive).build() {
        Ok(re) => Some(re.find_iter(hay).map(|m| m.as_str().to_string()).collect()),
        Err(_) => None,
    }
}

/// Builds the regex and collects the pieces of `Regex::split(hay)`. The
/// crate's source splits at the very matches `find_iter` yields: with `n`
/// matches there are `n + 1` pieces, and the pieces with the matches between
/// them make up the haystack again. The build succeeds or fails alike for
/// both calls.
#[verifier::external_body]
fn regex_split(pattern: &str, case_insensitive: bool, hay: &str) -> (r: Option<Vec<String>>)
    ensures
        match r {
            Some(v) => regex_pieces(pattern@, case_insensitive, hay@) == Some(views(v@)),
            None => regex_pieces(pattern@, case_insensitive, hay@) is None,
        },
        r is Some <==> regex_matches(pattern@, case_insensitive, hay@) is Some,
        r matches Some(v) ==> ({
            let m = regex_matches(pattern@, case_insensitive, hay@)->0;
            &&& v@.len() == m.len() + 1
            &&& interleave(views(v@), m) == hay@
        }),
{
    match regex::RegexBuilder::new(pattern).case_insensitive(case_insensitive).build() {
        Ok(re) => Some(re.split(hay).map(|p| p.to_string()).collect()),
        Err(_) => None,
    }
}

/// Calls `regex::escape`: every regex meta character of `s` gets a backslash
/// in front of it, as the crate's source does it.
#[verifier::external_body]
fn regex_escape(s: &str) -> (r: String)
    ensures
        r@ == escape_spec(s@),
{
    regex::escape(s)
}

/// The characters `regex::escape` prefixes with a backslash.
pub open spec fn is_meta(c: char) -> bool {
    c == '\\' || c == '.' || c == '+' || c == '*' || c == '?' || c == '(' || c == ')' || c == '|'
        || c == '[' || c == ']' || c == '{' || c == '}' || c == '^' || c == '$' || c == '#'
        || c == '&' || c == '-' || c == '~'
}

/// `s` with a backslash in front of each meta character.
pub open spec fn escape_spec(s: Seq<char>) -> Seq<char>
    decreases s.len(),
{
    if s.len() == 0 {
        Seq::empty()
    } else {
        let c = s.last();
        escape_spec(s.drop_last()) + if is_meta(c) {
            seq!['\\', c]
        } else {
            seq![c]
        }
    }
}

/// One replacement pass: the result of `regex_replaced`, or the text as it
/// was where the pattern does not build.
pub open spec fn replaced_or_same(
    pattern: Seq<char>,
    case_insensitive: bool,
    hay: Seq<char>,
    rep: Seq<char>,
) -> Seq<char> {
    match regex_replaced(pattern, case_insensitive, hay, rep) {
        Some(s) => s,
        None => hay,
    }
}

fn replace_or_keep(pattern: &str, case_insensitive: bool, hay: String, rep: &str) -> (r: String)
    ensures
        r@ == replaced_or_same(pattern@, case_insensitive, hay@, rep@),
{
    match regex_replace_all(pattern, case_insensitive, hay.as_str(), rep) {
        Some(s) => s,
        None => hay,
    }
}

// ---------------------------------------------------------------------------
// Transcript cleanup.
// ---------------------------------------------------------------------------

/// `s` ends with two line breaks.
pub open spec fn ends_with_two_breaks(s: Seq<char>) -> bool {
    s.len() >= 2 && s[s.len() - 1] == '\n' && s[s.len() - 2] == '\n'
}

/// `s` with every run of three or more line breaks shortened to two.
pub open spec fn collapse_breaks(s: Seq<char>) -> Seq<char>
    decreases s.len(),
{
    if s.len() == 0 {
        s
    } else {
        let prev = collapse_breaks(s.drop_last());
        if s.last() == '\n' && ends_with_two_breaks(prev) {
            prev
        } else {
            prev.push(s.last())
        }
    }
}

/// Each line trimmed, runs of blank lines kept to one, the whole trimmed.
pub open spec fn normalize_lines_spec(text: Seq<char>) -> Seq<char> {
    trim(
        collapse_breaks(join(split_on(text, '\n').map_values(|l: Seq<char>| trim(l)), seq!['\n'])),
    )
}

/// The whitespace rules after the spacing patterns: `text` split at line
/// breaks, each line trimmed, the lines joined again, every run of three or
/// more line breaks shortened to two, and the whole trimmed. Intentional
/// paragraph breaks survive; stray blank lines do not.
pub fn normalize_lines(text: &str) -> (r: String)
    ensures
        r@ == normalize_lines_spec(text@),
{
    let v = to_chars(text);
    let parts = split_on_vec(v.as_slice(), '\n');
    let mut trimmed: Vec<Vec<char>> = Vec::new();
    let mut i: usize = 0;
    while i < parts.len()
        invariant
            i <= parts@.len(),
            trimmed@.len() == i,
            forall|k: int| 0 <= k < i ==> #[trigger] trimmed@[k]@ == trim(parts@[k]@),
        decreases parts@.len() - i,
    {
        let (lo, hi) = trim_bounds(parts[i].as_slice(), CharClass::Whitespace);
        let t = slice_to_vec(parts[i].as_slice(), lo, hi);
        trimmed.push(t);
        i = i + 1;
    }
    proof {
        assert(trimmed@.map_values(|w: Vec<char>| w@) =~= split_on(v@, '\n').map_values(
            |l: Seq<char>| trim(l),
        ));
    }
    let nl: Vec<char> = vec!['\n'];
    assert(nl@ =~= seq!['\n']);
    let joined = join_char_vecs(&trimmed, nl.as_slice());
    let mut out: Vec<char> = Vec::new();
    let mut j: usize = 0;
    while j < joined.len()
        invariant
            j <= joined@.len(),
            out@ == collapse_breaks(joined@.take(j as int)),
        decreases joined@.len() - j,
    {
        let c = joined[j];
        let n = out.len();
        proof {
            assert(joined@.take(j + 1).drop_last() =~= joined@.take(j as int));
        }
        if !(c == '\n' && n >= 2 && out[n - 1] == '\n' && out[n - 2] == '\n') {
            out.push(c);
        }
        j = j + 1;
    }
    assert(joined@.take(j as int) =~= joined@);
    let (lo, hi) = trim_bounds(out.as_slice(), CharClass::Whitespace);
    let t = slice_to_vec(out.as_slice(), lo, hi);
    from_chars(t.as_slice())
}

/// Transcript cleanup as a function of the patterns' results: bracket tags,
/// listed parenthesized annotations and music notes each replaced by a space,
/// then runs of spaces and tabs shortened to one space, spaces before
/// punctuation dropped, and the line rules of `normalize_lines_spec`.
pub open spec fn clean_transcript_spec(raw: Seq<char>) -> Seq<char> {
    let t1 = replaced_or_same(BRACKET_TAG@, false, raw, " "@);
    let t2 = replaced_or_same(PAREN_TAG@, true, t1, " "@);
    let t3 = replaced_or_same(MUSIC_NOTES@, false, t2, " "@);
    normalize_whitespace_spec(t3)
}

/// The whitespace rules: spacing patterns, then `normalize_lines_spec`.
pub open spec fn normalize_whitespace_spec(text: Seq<char>) -> Seq<char> {
    let t1 = replaced_or_same(MULTI_SPACE@, false, text, " "@);
    let t2 = replaced_or_same(SPACE_BEFORE_PUNCT@, false, t1, "$1"@);
    normalize_lines_spec(t2)
}

/// Collapses runs of spaces and tabs, drops spaces before sentence
/// punctuation, and applies the line rules.
pub fn normalize_whitespace(text: &str) -> (r: String)
    ensures
        r@ == normalize_whitespace_spec(text@),
{
    let t = String::from_str(text);
    let t = replace_or_keep(MULTI_SPACE, false, t, " ");
    let t = replace_or_keep(SPACE_BEFORE_PUNCT, false, t, "$1");
    normalize_lines(t.as_str())
}

/// Strips transcriber artifacts and normalizes whitespace. Applied to every
/// transcript before insertion and before any prompt transform; prose and
/// filler words are left as they are.
pub fn clean_transcript(raw: &str) -> (r: String)
    ensures
        r@ == clean_transcript_spec(raw@),
{
    let t = String::from_str(raw);
    let t = replace_or_keep(BRACKET_TAG, false, t, " ");
    let t = replace_or_keep(PAREN_TAG, true, t, " ");
    let t = replace_or_keep(MUSIC_NOTES, false, t, " ");
    normalize_whitespace(t.as_str())
}

// ---------------------------------------------------------------------------
// Phrase replacement.
// ---------------------------------------------------------------------------

/// A character that `\b` treats as part of a word.
pub open spec fn is_word_char(c: char) -> bool {
    alphanumeric(c) || c == '_'
}

/// The regex alternative for one phrase: the escaped phrase, with a word
/// boundary on each edge that is a word character (a phrase like "c++" ends
/// on a symbol, where `\b` would never match).
pub open spec fn alternative(p: Seq<char>) -> Seq<char> {
    (if p.len() > 0 && is_word_char(p[0]) {
        seq!['\\', 'b']
    } else {
        Seq::empty()
    }) + escape_spec(p) + (if p.len() > 0 && is_word_char(p.last()) {
        seq!['\\', 'b']
    } else {
        Seq::empty()
    })
}

/// The length of a phrase in UTF-8 bytes, the key phrases are ordered by.
pub open spec fn phrase_len(p: Seq<char>) -> nat {
    encode_utf8(p).len()
}

/// The first position in `order` whose phrase is shorter than `n` bytes, or
/// `order.len()` where there is none.
pub open spec fn shorter_pos(order: Seq<int>, froms: Seq<Seq<char>>, n: nat) -> int
    decreases order.len(),
{
    if order.len() == 0 {
        0
    } else if phrase_len(froms[order[0]]) < n {
        0
    } else {
        1 + shorter_pos(order.drop_first(), froms, n)
    }
}

/// The non-empty phrases among the first `n`, as indices, longest first and
/// in their given order among equals (a stable sort by length, descending):
/// each phrase goes after every earlier one that is at least as long.
pub open spec fn order_upto(froms: Seq<Seq<char>>, n: nat) -> Seq<int>
    decreases n,
{
    if n == 0 {
        Seq::empty()
    } else {
        let prev = order_upto(froms, (n - 1) as nat);
        let i = n - 1;
        if froms[i].len() == 0 {
            prev
        } else {
            prev.insert(shorter_pos(prev, froms, phrase_len(froms[i])), i)
        }
    }
}

/// The order in which phrases compete: non-empty ones, longest first.
pub open spec fn phrase_order(froms: Seq<Seq<char>>) -> Seq<int> {
    order_upto(froms, froms.len())
}

/// The case-insensitive alternation of all phrases, longest first.
pub open spec fn phrase_pattern(froms: Seq<Seq<char>>) -> Seq<char> {
    join(phrase_order(froms).map_values(|k: int| alternative(froms[k])), seq!['|'])
}

/// The value of the last key equal to `key`, or `dflt` where none is.
pub open spec fn lookup_last(
    keys: Seq<Seq<char>>,
    vals: Seq<Seq<char>>,
    key: Seq<char>,
    dflt: Seq<char>,
) -> Seq<char>
    decreases keys.len(),
{
    if keys.len() == 0 {
        dflt
    } else if keys.last() == key {
        vals[keys.len() - 1]
    } else {
        lookup_last(keys.drop_last(), vals.drop_last(), key, dflt)
    }
}

/// What a matched text is replaced with: the replacement of the last phrase
/// (in competing order) whose lowercase form equals the match's, or the match
/// itself where none does.
pub open spec fn replacement_for(
    froms: Seq<Seq<char>>,
    tos: Seq<Seq<char>>,
    m: Seq<char>,
) -> Seq<char> {
    let order = phrase_order(froms);
    lookup_last(
        order.map_values(|k: int| lowercase(froms[k])),
        order.map_values(|k: int| tos[k]),
        lowercase(m),
        m,
    )
}

/// Single-pass, whole-word, case-insensitive replacement of many phrases:
/// the rewritten text and the number of replacements. Matches are found in
/// the original text only, and each is replaced verbatim between the
/// untouched pieces around it; a replacement is never scanned again.
pub open spec fn replace_phrases_spec(
    text: Seq<char>,
    froms: Seq<Seq<char>>,
    tos: Seq<Seq<char>>,
) -> (Seq<char>, nat) {
    let pattern = phrase_pattern(froms);
    if phrase_order(froms).len() == 0 {
        (text, 0)
    } else {
        match (regex_pieces(pattern, true, text), regex_matches(pattern, true, text)) {
            (Some(pieces), Some(found)) => (
                interleave(
                    pieces,
                    found.map_values(|m: Seq<char>| replacement_for(froms, tos, m)),
                ),
                found.len(),
            ),
            _ => (text, 0),
        }
    }
}

proof fn lemma_shorter_pos(order: Seq<int>, froms: Seq<Seq<char>>, n: nat, p: int)
    requires
        0 <= p <= order.len(),
        forall|q: int| 0 <= q < p ==> phrase_len(froms[#[trigger] order[q]]) >= n,
        p < order.len() ==> phrase_len(froms[order[p]]) < n,
    ensures
        shorter_pos(order, froms, n) == p,
    decreases order.len(),
{
    if order.len() > 0 && p > 0 {
        let t = order.drop_first();
        assert(phrase_len(froms[order[0]]) >= n);
        assert forall|q: int| 0 <= q < p - 1 implies phrase_len(froms[#[trigger] t[q]]) >= n by {
            assert(t[q] == order[q + 1]);
        }
        if p < order.len() {
            assert(t[p - 1] == order[p]);
        }
        lemma_shorter_pos(t, froms, n, p - 1);
    }
}

proof fn lemma_shorter_pos_props(order: Seq<int>, froms: Seq<Seq<char>>, n: nat)
    ensures
        0 <= shorter_pos(order, froms, n) <= order.len(),
        forall|q: int|
            0 <= q < shorter_pos(order, froms, n) ==> phrase_len(froms[#[trigger] order[q]]) >= n,
        shorter_pos(order, froms, n) < order.len() ==> phrase_len(
            froms[order[shorter_pos(order, froms, n)]],
        ) < n,
    decreases order.len(),
{
    if order.len() > 0 && phrase_len(froms[order[0]]) >= n {
        let t = order.drop_first();
        lemma_shorter_pos_props(t, froms, n);
        let sp = shorter_pos(order, froms, n);
        assert forall|q: int| 0 <= q < sp implies phrase_len(froms[#[trigger] order[q]]) >= n by {
            if q > 0 {
                assert(order[q] == t[q - 1]);
            }
        }
        if sp < order.len() {
            assert(order[sp] == t[sp - 1]);
        }
    }
}

proof fn lemma_order_upto(froms: Seq<Seq<char>>, n: nat)
    requires
        n <= froms.len(),
    ensures
        forall|a: int, b: int|
            #![trigger order_upto(froms, n)[a], order_upto(froms, n)[b]]
            0 <= a < b < order_upto(froms, n).len() ==> phrase_len(froms[order_upto(froms, n)[a]])
                >= phrase_len(froms[order_upto(froms, n)[b]]),
        forall|a: int|
            0 <= a < order_upto(froms, n).len() ==> 0 <= #[trigger] order_upto(froms, n)[a] < n
                && froms[order_upto(froms, n)[a]].len() > 0,
        forall|k: int|
            0 <= k < n && froms[k].len() > 0 ==> #[trigger] order_upto(froms, n).contains(k),
    decreases n,
{
    if n > 0 {
        let prev = order_upto(froms, (n - 1) as nat);
        lemma_order_upto(froms, (n - 1) as nat);
        let i = n - 1;
        if froms[i].len() > 0 {
            let key = phrase_len(froms[i]);
            let p = shorter_pos(prev, froms, key);
            lemma_shorter_pos_props(prev, froms, key);
            let cur = prev.insert(p, i);
            assert(cur == order_upto(froms, n));
            assert forall|a: int, b: int|
                #![trigger cur[a], cur[b]]
                0 <= a < b < cur.len() implies phrase_len(froms[cur[a]]) >= phrase_len(
                    froms[cur[b]],
                ) by {
                if a < p && b < p {
                    assert(cur[a] == prev[a] && cur[b] == prev[b]);
                } else if a < p && b == p {
                    assert(cur[a] == prev[a]);
                } else if a < p {
                    assert(cur[a] == prev[a] && cur[b] == prev[b - 1]);
                } else if a == p {
                    assert(cur[b] == prev[b - 1]);
                    assert(phrase_len(froms[prev[p]]) < key);
                    if b - 1 > p {
                        assert(phrase_len(froms[prev[p]]) >= phrase_len(froms[prev[b - 1]]));
                    }
                } else {
                    assert(cur[a] == prev[a - 1] && cur[b] == prev[b - 1]);
                }
            }
            assert forall|a: int| 0 <= a < cur.len() implies 0 <= #[trigger] cur[a] < n
                && froms[cur[a]].len() > 0 by {
                if a < p {
                    assert(cur[a] == prev[a]);
                } else if a > p {
                    assert(cur[a] == prev[a - 1]);
                }
            }
            assert forall|k: int| 0 <= k < n && froms[k].len() > 0 implies #[trigger] cur.contains(
                k,
            ) by {
                if k == i {
                    assert(cur[p] == i);
                } else {
                    assert(prev.contains(k));
                    let j = choose|j: int| 0 <= j < prev.len() && prev[j] == k;
                    if j < p {
                        assert(cur[j] == k);
                    } else {
                        assert(cur[j + 1] == k);
                    }
                }
            }
        } else {
            assert forall|k: int| 0 <= k < n && froms[k].len() > 0 implies #[trigger] prev.contains(
                k,
            ) by {
                assert(k != i);
            }
        }
    }
}

/// Phrases compete longest first: in the order the alternation lists them,
/// no phrase is longer than one before it, and every non-empty phrase takes
/// part while empty ones do not. With the leftmost-first alternation of the
/// regex crate, the longer of two phrases competing for a span is the one
/// that is tried first.
pub proof fn law_phrases_compete_longest_first(froms: Seq<Seq<char>>)
    ensures
        forall|a: int, b: int|
            #![trigger phrase_order(froms)[a], phrase_order(froms)[b]]
            0 <= a < b < phrase_order(froms).len() ==> phrase_len(froms[phrase_order(froms)[a]])
                >= phrase_len(froms[phrase_order(froms)[b]]),
        forall|k: int|
            0 <= k < froms.len() ==> (#[trigger] phrase_order(froms).contains(k) <==> froms[k].len()
                > 0),
{
    lemma_order_upto(froms, froms.len());
    let o = phrase_order(froms);
    assert forall|k: int| 0 <= k < froms.len() implies (#[trigger] o.contains(k) <==> froms[k].len()
        > 0) by {
        if o.contains(k) {
            let j = choose|j: int| 0 <= j < o.len() && o[j] == k;
            assert(froms[o[j]].len() > 0);
        }
    }
}

proof fn lemma_phrase_len_zero(p: Seq<char>)
    ensures
        phrase_len(p) == 0 <==> p.len() == 0,
{
    if p.len() > 0 {
        assert(encode_scalar(p[0] as u32).len() >= 1);
        assert(encode_utf8(p) == encode_scalar(p[0] as u32) + encode_utf8(p.drop_first()));
    } else {
        assert(encode_utf8(p) =~= Seq::<u8>::empty());
    }
}

fn phrase_order_exec(froms: &Vec<String>) -> (r: Vec<usize>)
    ensures
        r@.map_values(|x: usize| x as int) == phrase_order(views(froms@)),
        forall|a: int| 0 <= a < r@.len() ==> #[trigger] r@[a] < froms@.len(),
{
    let ghost fv = views(froms@);
    let mut order: Vec<usize> = Vec::new();
    let mut i: usize = 0;
    while i < froms.len()
        invariant
            i <= froms@.len(),
            fv == views(froms@),
            order@.map_values(|x: usize| x as int) == order_upto(fv, i as nat),
            forall|a: int| 0 <= a < order@.len() ==> #[trigger] order@[a] < i,
        decreases froms@.len() - i,
    {
        let ghost prev = order_upto(fv, i as nat);
        let s = froms[i].as_str();
        let n = s.as_bytes().len();
        proof {
            assert(s@ == fv[i as int]);
            lemma_phrase_len_zero(fv[i as int]);
        }
        if n > 0 {
            let mut p: usize = 0;
            while p < order.len() && froms[order[p]].as_str().as_bytes().len() >= n
                invariant
                    p <= order@.len(),
                    fv == views(froms@),
                    order@.map_values(|x: usize| x as int) == prev,
                    forall|a: int| 0 <= a < order@.len() ==> #[trigger] order@[a] < i,
                    i < froms@.len(),
                    phrase_len(fv[i as int]) == n,
                    forall|q: int| 0 <= q < p ==> phrase_len(fv[#[trigger] prev[q]]) >= n,
                decreases order@.len() - p,
            {
                proof {
                    assert(prev[p as int] == order@[p as int] as int);
                    assert(fv[prev[p as int]] == froms@[order@[p as int] as int]@);
                }
                p = p + 1;
            }
            proof {
                if p < order@.len() {
                    assert(prev[p as int] == order@[p as int] as int);
                    assert(fv[prev[p as int]] == froms@[order@[p as int] as int]@);
                }
                lemma_shorter_pos(prev, fv, n as nat, p as int);
            }
            let ghost old_order = order@;
            order.insert(p, i);
            proof {
                assert(order@.map_values(|x: usize| x as int) =~= prev.insert(p as int, i as int));
                assert(order_upto(fv, (i + 1) as nat) == prev.insert(p as int, i as int));
                assert forall|a: int| 0 <= a < order@.len() implies #[trigger] order@[a] < i + 1 by {
                    if a < p {
                        assert(order@[a] == old_order[a]);
                    } else if a > p {
                        assert(order@[a] == old_order[a - 1]);
                    }
                }
            }
        }
        i = i + 1;
    }
    order
}


fn is_word_exec(c: char) -> (b: bool)
    ensures
        b == is_word_char(c),
{
    char_is_alphanumeric(c) || c == '_'
}

fn alternative_exec(p: &str) -> (r: String)
    ensures
        r@ == alternative(p@),
{
    let v = to_chars(p);
    let esc = regex_escape(p);
    let mut out: Vec<char> = Vec::new();
    let n = v.len();
    if n > 0 && is_word_exec(v[0]) {
        out.push('\\');
        out.push('b');
    }
    let ghost lead = out@;
    extend_str(&mut out, esc.as_str());
    if n > 0 && is_word_exec(v[n - 1]) {
        out.push('\\');
        out.push('b');
    }
    proof {
        if n > 0 {
            assert(v@.last() == v@[n - 1]);
        }
        let tail = if n > 0 && is_word_char(p@.last()) {
            seq!['\\', 'b']
        } else {
            Seq::<char>::empty()
        };
        assert(out@ =~= lead + escape_spec(p@) + tail);
    }
    from_chars(out.as_slice())
}

fn lookup_replacement(keys: &Vec<String>, vals: &Vec<String>, m: &str) -> (r: String)
    requires
        keys@.len() == vals@.len(),
    ensures
        r@ == lookup_last(views(keys@), views(vals@), lowercase(m@), m@),
{
    let lm = to_lowercase(m);
    let ghost kv = views(keys@);
    let ghost vv = views(vals@);
    let mut k = keys.len();
    assert(kv.take(k as int) =~= kv && vv.take(k as int) =~= vv);
    while k > 0
        invariant
            k <= keys@.len(),
            keys@.len() == vals@.len(),
            kv == views(keys@),
            vv == views(vals@),
            lm@ == lowercase(m@),
            lookup_last(kv, vv, lm@, m@) == lookup_last(kv.take(k as int), vv.take(k as int), lm@, m@),
        decreases k,
    {
        let ghost kt = kv.take(k as int);
        let ghost vt = vv.take(k as int);
        assert(kt.last() == keys@[k - 1]@);
        if str_eq(keys[k - 1].as_str(), lm.as_str()) {
            assert(vt[k - 1] == vals@[k - 1]@);
            return vals[k - 1].clone();
        }
        assert(kt.drop_last() =~= kv.take(k - 1));
        assert(vt.drop_last() =~= vv.take(k - 1));
        k = k - 1;
    }
    String::from_str(m)
}

/// Puts the replacements for the regex matches `found` back between the
/// untouched `pieces` of the text: `pieces[0]`, then for each match its
/// replacement and the next piece. A match is replaced by the value of the
/// last key equal to its lowercase form, or kept where no key is.
pub fn splice_matches(
    pieces: &Vec<String>,
    found: &Vec<String>,
    keys: &Vec<String>,
    vals: &Vec<String>,
) -> (r: String)
    requires
        pieces@.len() == found@.len() + 1,
        keys@.len() == vals@.len(),
    ensures
        r@ == interleave(
            views(pieces@),
            views(found@).map_values(
                |m: Seq<char>| lookup_last(views(keys@), views(vals@), lowercase(m), m),
            ),
        ),
{
    let ghost pv = views(pieces@);
    let ghost fill = views(found@).map_values(
        |m: Seq<char>| lookup_last(views(keys@), views(vals@), lowercase(m), m),
    );
    let mut out: Vec<char> = Vec::new();
    extend_str(&mut out, pieces[0].as_str());
    proof {
        assert(pv.take(1).len() == 1);
        assert(out@ == interleave(pv.take(1), fill.take(0)));
    }
    let mut i: usize = 0;
    while i < found.len()
        invariant
            i <= found@.len(),
            pieces@.len() == found@.len() + 1,
            keys@.len() == vals@.len(),
            pv == views(pieces@),
            fill == views(found@).map_values(
                |m: Seq<char>| lookup_last(views(keys@), views(vals@), lowercase(m), m),
            ),
            out@ == interleave(pv.take(i + 1), fill.take(i as int)),
        decreases found@.len() - i,
    {
        let rep = lookup_replacement(keys, vals, found[i].as_str());
        extend_str(&mut out, rep.as_str());
        extend_str(&mut out, pieces[i + 1].as_str());
        proof {
            let pt = pv.take(i + 2);
            let ft = fill.take(i + 1);
            assert(pt.drop_last() =~= pv.take(i + 1));
            assert(ft.drop_last() =~= fill.take(i as int));
            assert(ft.last() == rep@);
            assert(pt.last() == pieces@[i + 1]@);
        }
        i = i + 1;
    }
    proof {
        assert(pv.take(i + 1) =~= pv);
        assert(fill.take(i as int) =~= fill);
    }
    from_chars(out.as_slice())
}

/// The replacement pass over `(froms[k], tos[k])`: each `from` is expected
/// trimmed; empty ones take no part. Returns the rewritten text and how many
/// matches were replaced.
fn replace_phrases(text: &str, froms: &Vec<String>, tos: &Vec<String>) -> (r: (String, usize))
    requires
        froms@.len() == tos@.len(),
    ensures
        (r.0@, r.1 as nat) == replace_phrases_spec(text@, views(froms@), views(tos@)),
        r.1 == 0 ==> r.0@ == text@,
{
    let ghost fv = views(froms@);
    let ghost tv = views(tos@);
    let order = phrase_order_exec(froms);
    if order.len() == 0 {
        return (String::from_str(text), 0);
    }
    let ghost ord = phrase_order(fv);
    let mut alts: Vec<String> = Vec::new();
    let mut keys: Vec<String> = Vec::new();
    let mut vals: Vec<String> = Vec::new();
    let mut k: usize = 0;
    while k < order.len()
        invariant
            k <= order@.len(),
            froms@.len() == tos@.len(),
            fv == views(froms@),
            tv == views(tos@),
            order@.map_values(|x: usize| x as int) == ord,
            forall|a: int| 0 <= a < order@.len() ==> #[trigger] order@[a] < froms@.len(),
            views(alts@) == ord.take(k as int).map_values(|j: int| alternative(fv[j])),
            views(keys@) == ord.take(k as int).map_values(|j: int| lowercase(fv[j])),
            views(vals@) == ord.take(k as int).map_values(|j: int| tv[j]),
        decreases order@.len() - k,
    {
        let j = order[k];
        assert(ord[k as int] == j as int);
        assert(fv[j as int] == froms@[j as int]@);
        let a = alternative_exec(froms[j].as_str());
        let l = to_lowercase(froms[j].as_str());
        let t = tos[j].clone();
        let ghost ao = alts@;
        let ghost ko = keys@;
        let ghost vo = vals@;
        assert(tv[j as int] == tos@[j as int]@);
        alts.push(a);
        keys.push(l);
        vals.push(t);
        proof {
            assert(views(alts@) =~= views(ao).push(alternative(fv[j as int])));
            assert(views(keys@) =~= views(ko).push(lowercase(fv[j as int])));
            assert(views(vals@) =~= views(vo).push(tv[j as int]));
            assert(ord.take(k + 1) =~= ord.take(k as int).push(j as int));
            assert(views(alts@) =~= ord.take(k + 1).map_values(|j: int| alternative(fv[j])));
            assert(views(keys@) =~= ord.take(k + 1).map_values(|j: int| lowercase(fv[j])));
            assert(views(vals@) =~= ord.take(k + 1).map_values(|j: int| tv[j]));
        }
        k = k + 1;
    }
    assert(ord.take(k as int) =~= ord);
    let pattern = join_strings(alts.as_slice(), "|");
    proof {
        reveal_strlit("|");
        assert("|"@ =~= seq!['|']);
        assert(pattern@ == phrase_pattern(fv));
    }
    let pieces = match regex_split(pattern.as_str(), true, text) {
        Some(p) => p,
        None => {
            return (String::from_str(text), 0);
        },
    };
    let found = match regex_find_all(pattern.as_str(), true, text) {
        Some(f) => f,
        None => {
            return (String::from_str(text), 0);
        },
    };
    let out = splice_matches(&pieces, &found, &keys, &vals);
    proof {
        assert(views(found@).map_values(
            |m: Seq<char>| lookup_last(views(keys@), views(vals@), lowercase(m), m),
        ) =~= views(found@).map_values(|m: Seq<char>| replacement_for(fv, tv, m)));
        if found.len() == 0 {
            assert(views(pieces@).len() == 1);
            assert(interleave(views(pieces@), views(found@)) == views(pieces@)[0]);
        }
    }
    (out, found.len())
}

/// The dictionary as phrase pairs: each entry's `from` trimmed, its `to` as
/// it is.
pub open spec fn dictionary_froms(entries: Seq<DictionaryEntry>) -> Seq<Seq<char>> {
    entries.map_values(|e: DictionaryEntry| trim(e.from@))
}

pub open spec fn dictionary_tos(entries: Seq<DictionaryEntry>) -> Seq<Seq<char>> {
    entries.map_values(|e: DictionaryEntry| e.to@)
}

/// Applies personal-dictionary replacements with whole-word, case-insensitive
/// matching; longer phrases win over shorter ones. Returns the rewritten text
/// and how many replacements were applied, counting occurrences replaced,
/// not entries that matched; with none applied the text comes back as it was.
pub fn apply_dictionary(text: &str, entries: &[DictionaryEntry]) -> (r: (String, usize))
    ensures
        (r.0@, r.1 as nat) == replace_phrases_spec(
            text@,
            dictionary_froms(entries@),
            dictionary_tos(entries@),
        ),
        r.1 == 0 ==> r.0@ == text@,
{
    let mut froms: Vec<String> = Vec::new();
    let mut tos: Vec<String> = Vec::new();
    let mut i: usize = 0;
    while i < entries.len()
        invariant
            i <= entries@.len(),
            views(froms@) == dictionary_froms(entries@.take(i as int)),
            views(tos@) == dictionary_tos(entries@.take(i as int)),
        decreases entries@.len() - i,
    {
        let f = trim_str(entries[i].from.as_str());
        let t = entries[i].to.clone();
        let ghost fo = froms@;
        let ghost to = tos@;
        froms.push(f);
        tos.push(t);
        proof {
            assert(views(froms@) =~= views(fo).push(trim(entries@[i as int].from@)));
            assert(views(tos@) =~= views(to).push(entries@[i as int].to@));
            assert(entries@.take(i + 1) =~= entries@.take(i as int).push(entries@[i as int]));
            assert(views(froms@) =~= dictionary_froms(entries@.take(i + 1)));
            assert(views(tos@) =~= dictionary_tos(entries@.take(i + 1)));
        }
        i = i + 1;
    }
    assert(entries@.take(i as int) =~= entries@);
    replace_phrases(text, &froms, &tos)
}

/// Normalizes a string for whole-utterance comparison: surrounding
/// whitespace and trailing sentence punctuation dropped, then lowercased.
pub open spec fn utterance_key_spec(t: Seq<char>) -> Seq<char> {
    lowercase(trim(trim_end_class(trim(t), CharClass::SentenceEnd)))
}

fn utterance_key(t: &str) -> (r: String)
    ensures
        r@ == utterance_key_spec(t@),
{
    let a = trim_str(t);
    let v = to_chars(a.as_str());
    let (lo, hi) = trim_bounds(v.as_slice(), CharClass::SentenceEnd);
    let w = slice_to_vec(v.as_slice(), 0, hi);
    proof {
        assert(w@ =~= trim_end_class(a@, CharClass::SentenceEnd));
    }
    let b = from_chars(w.as_slice());
    let c = trim_str(b.as_str());
    to_lowercase(c.as_str())
}

/// Snippet `k` is a whole-utterance snippet whose trimmed, non-empty trigger
/// is the whole dictation `spoken` (both as utterance keys).
pub open spec fn whole_utterance_hit(snips: Seq<Snippet>, spoken: Seq<char>, k: int) -> bool {
    &&& snips[k].whole_utterance
    &&& trim(snips[k].trigger@).len() > 0
    &&& spoken == utterance_key_spec(trim(snips[k].trigger@))
}

/// The first snippet from position `i` on that the whole dictation hits.
pub open spec fn first_hit_from(snips: Seq<Snippet>, spoken: Seq<char>, i: int) -> Option<int>
    decreases snips.len() - i,
{
    if i < 0 || i >= snips.len() {
        None
    } else if whole_utterance_hit(snips, spoken, i) {
        Some(i)
    } else {
        first_hit_from(snips, spoken, i + 1)
    }
}

/// The trimmed triggers of the inline (not whole-utterance) snippets.
pub open spec fn inline_froms(snips: Seq<Snippet>) -> Seq<Seq<char>>
    decreases snips.len(),
{
    if snips.len() == 0 {
        Seq::empty()
    } else if snips.last().whole_utterance {
        inline_froms(snips.drop_last())
    } else {
        inline_froms(snips.drop_last()).push(trim(snips.last().trigger@))
    }
}

/// The expansions of the inline snippets.
pub open spec fn inline_tos(snips: Seq<Snippet>) -> Seq<Seq<char>>
    decreases snips.len(),
{
    if snips.len() == 0 {
        Seq::empty()
    } else if snips.last().whole_utterance {
        inline_tos(snips.drop_last())
    } else {
        inline_tos(snips.drop_last()).push(snips.last().expansion@)
    }
}

/// Snippet expansion: a whole-utterance snippet whose trigger is the entire
/// dictation (trailing sentence punctuation ignored) replaces all of it; the
/// first such snippet wins. Otherwise the inline snippets expand whole-word
/// and case-insensitively, longest trigger first.
pub open spec fn apply_snippets_spec(text: Seq<char>, snips: Seq<Snippet>) -> Seq<char> {
    match first_hit_from(snips, utterance_key_spec(text), 0) {
        Some(k) => snips[k].expansion@,
        None => replace_phrases_spec(text, inline_froms(snips), inline_tos(snips)).0,
    }
}

/// Expands snippet triggers into their (possibly multi-line) replacements,
/// inserted verbatim. Runs after the dictionary so word fixes happen before
/// phrase expansion.
pub fn apply_snippets(text: &str, snippets: &[Snippet]) -> (r: String)
    ensures
        r@ == apply_snippets_spec(text@, snippets@),
{
    let spoken = utterance_key(text);
    let ghost sp = spoken@;
    let mut i: usize = 0;
    while i < snippets.len()
        invariant
            i <= snippets@.len(),
            sp == spoken@,
            sp == utterance_key_spec(text@),
            first_hit_from(snippets@, sp, 0) == first_hit_from(snippets@, sp, i as int),
        decreases snippets@.len() - i,
    {
        if snippets[i].whole_utterance {
            let trigger = trim_str(snippets[i].trigger.as_str());
            if !trigger.as_str().is_empty() {
                let key = utterance_key(trigger.as_str());
                if str_eq(spoken.as_str(), key.as_str()) {
                    assert(first_hit_from(snippets@, sp, i as int) == Some(i as int));
                    let e = snippets[i].expansion.clone();
                    assert(e@ == snippets@[i as int].expansion@);
                    return e;
                }
            }
        }
        i = i + 1;
    }
    let mut froms: Vec<String> = Vec::new();
    let mut tos: Vec<String> = Vec::new();
    let mut j: usize = 0;
    while j < snippets.len()
        invariant
            j <= snippets@.len(),
            views(froms@) == inline_froms(snippets@.take(j as int)),
            views(tos@) == inline_tos(snippets@.take(j as int)),
        decreases snippets@.len() - j,
    {
        proof {
            assert(snippets@.take(j + 1).drop_last() =~= snippets@.take(j as int));
        }
        if !snippets[j].whole_utterance {
            let f = trim_str(snippets[j].trigger.as_str());
            let t = snippets[j].expansion.clone();
            let ghost fo = froms@;
            let ghost to = tos@;
            froms.push(f);
            tos.push(t);
            proof {
                assert(views(froms@) =~= views(fo).push(trim(snippets@[j as int].trigger@)));
                assert(views(tos@) =~= views(to).push(snippets@[j as int].expansion@));
            }
        }
        j = j + 1;
    }
    assert(snippets@.take(j as int) =~= snippets@);
    proof {
        lemma_inline_lens(snippets@);
    }
    let (out, _count) = replace_phrases(text, &froms, &tos);
    out
}

proof fn lemma_inline_lens(snips: Seq<Snippet>)
    ensures
        inline_froms(snips).len() == inline_tos(snips).len(),
    decreases snips.len(),
{
    if snips.len() > 0 {
        lemma_inline_lens(snips.drop_last());
    }
}

} // verus!
