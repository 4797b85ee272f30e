//! Session-only dictionary suggestions: distinctive terms the user is likely
//! to want preserved (product names the transcriber writes with internal
//! capitals, such as TanStack, DeepSeek or OAuth), offered as one-click
//! dictionary additions. Only candidate tokens are tallied, never whole
//! transcripts, in a table of bounded size that lives in memory only.
use vstd::prelude::*;
use crate::lex::{compare_str, lemma_lex_total, lemma_lex_trans, lex_lt, Order};
use crate::settings::DictionaryEntry;
use crate::sorting::{insertion_sort, sorted, Ordered};
use crate::strs::{
    alphabetic, char_is_alphabetic, char_is_uppercase, from_chars, lowercase, slice_to_vec,
    split_whitespace, str_eq, views, to_chars, to_lowercase, trim_bounds, trim_class, uppercase, words,
    CharClass,
};

verus! {

/// Cap on distinct candidates held at once, so a long session cannot grow
/// the table without bound.
pub const MAX_CANDIDATES: usize = 500;

/// A term offered for the dictionary, with how often it was seen.
#[derive(Debug, PartialEq, Eq)]
pub struct DictionarySuggestion {
    pub term: String,
    pub count: u32,
}

impl Clone for DictionarySuggestion {
    fn clone(&self) -> (r: Self)
        ensures
            r == *self,
    {
        DictionarySuggestion { term: self.term.clone(), count: self.count }
    }
}

/// Higher counts first; equal counts alphabetically.
pub open spec fn suggestion_le(a: DictionarySuggestion, b: DictionarySuggestion) -> bool {
    a.count > b.count || (a.count == b.count && !lex_lt(b.term@, a.term@))
}

impl Ordered for DictionarySuggestion {
    open spec fn le(&self, other: &Self) -> bool {
        suggestion_le(*self, *other)
    }

    proof fn le_total(a: &Self, b: &Self) {
        lemma_lex_total(a.term@, b.term@);
    }

    proof fn le_trans(a: &Self, b: &Self, c: &Self) {
        lemma_lex_total(a.term@, b.term@);
        lemma_lex_total(b.term@, c.term@);
        lemma_lex_total(a.term@, c.term@);
        if lex_lt(a.term@, b.term@) && lex_lt(b.term@, c.term@) {
            lemma_lex_trans(a.term@, b.term@, c.term@);
        }
    }

    fn le_exec(&self, other: &Self) -> (r: bool) {
        if self.count != other.count {
            self.count > other.count
        } else {
            match compare_str(other.term.as_str(), self.term.as_str()) {
                Order::Less => false,
                _ => true,
            }
        }
    }
}

/// The in-memory tally and the terms dismissed this session.
pub struct Suggestions {
    counts: Vec<DictionarySuggestion>,
    dismissed: Vec<String>,
}

/// A multi-character token with an internal capital that is not all
/// capitals: mixed-case product names, not acronyms (API) or ordinary
/// capitalized words (Monday).
pub open spec fn is_candidate_spec(t: Seq<char>) -> bool {
    &&& t.len() >= 2
    &&& exists|i: int| 0 <= i < t.len() && #[trigger] alphabetic(t[i])
    &&& exists|i: int| 1 <= i < t.len() && #[trigger] uppercase(t[i])
    &&& !(forall|i: int| 0 <= i < t.len() && #[trigger] alphabetic(t[i]) ==> uppercase(t[i]))
}

/// A token without its leading and trailing non-alphanumerics ("OAuth," is
/// "OAuth"); punctuation inside is kept.
pub open spec fn strip_edges_spec(t: Seq<char>) -> Seq<char> {
    trim_class(t, CharClass::NotAlphanumeric)
}

/// The position of `t` in the tally.
pub open spec fn term_index(tally: Seq<(Seq<char>, u32)>, t: Seq<char>) -> Option<int>
    decreases tally.len(),
{
    if tally.len() == 0 {
        None
    } else if tally.last().0 == t {
        Some(tally.len() - 1)
    } else {
        term_index(tally.drop_last(), t)
    }
}

/// One more sighting.
pub open spec fn bump(c: u32) -> u32
    recommends
        c < u32::MAX,
{
    (c + 1) as u32
}

/// Tallying `t` keeps every count within `u32`: a candidate already seen
/// `u32::MAX` times cannot be counted again.
pub open spec fn fits_token(tally: Seq<(Seq<char>, u32)>, t: Seq<char>) -> bool {
    !is_candidate_spec(t) || match term_index(tally, t) {
        Some(i) => tally[i].1 < u32::MAX,
        None => true,
    }
}

/// Tallying the tokens in order keeps every count within `u32`.
pub open spec fn observe_fits(tally: Seq<(Seq<char>, u32)>, toks: Seq<Seq<char>>) -> bool
    decreases toks.len(),
{
    toks.len() == 0 || (observe_fits(tally, toks.drop_last()) && fits_token(
        observe_tokens(tally, toks.drop_last()),
        toks.last(),
    ))
}

/// The tokens of a transcript as the tally sees them.
pub open spec fn text_tokens(text: Seq<char>) -> Seq<Seq<char>> {
    words(text).map_values(|w: Seq<char>| strip_edges_spec(w))
}

proof fn lemma_observe_fits_prefix(tally: Seq<(Seq<char>, u32)>, toks: Seq<Seq<char>>, k: int)
    requires
        observe_fits(tally, toks),
        0 <= k <= toks.len(),
    ensures
        observe_fits(tally, toks.take(k)),
    decreases toks.len(),
{
    if k == toks.len() {
        assert(toks.take(k) =~= toks);
    } else {
        lemma_observe_fits_prefix(tally, toks.drop_last(), k);
        assert(toks.drop_last().take(k) =~= toks.take(k));
    }
}

/// Tallies one token: a candidate already in the table counts once more; a
/// new one joins at the end with a count of one, unless the table is full.
pub open spec fn observe_token(tally: Seq<(Seq<char>, u32)>, t: Seq<char>) -> Seq<
    (Seq<char>, u32),
> {
    if !is_candidate_spec(t) {
        tally
    } else {
        match term_index(tally, t) {
            Some(i) => tally.update(i, (t, bump(tally[i].1))),
            None => if tally.len() >= MAX_CANDIDATES {
                tally
            } else {
                tally.push((t, 1u32))
            },
        }
    }
}

/// Tallies tokens in order.
pub open spec fn observe_tokens(tally: Seq<(Seq<char>, u32)>, toks: Seq<Seq<char>>) -> Seq<
    (Seq<char>, u32),
>
    decreases toks.len(),
{
    if toks.len() == 0 {
        tally
    } else {
        observe_token(observe_tokens(tally, toks.drop_last()), toks.last())
    }
}

/// Only candidate tokens are ever tallied: observing text adds no other word
/// to a tally that holds candidates only (an empty one, to begin with).
pub proof fn law_only_candidates_are_tallied(tally: Seq<(Seq<char>, u32)>, toks: Seq<Seq<char>>)
    requires
        forall|i: int| 0 <= i < tally.len() ==> is_candidate_spec(#[trigger] tally[i].0),
    ensures
        forall|i: int|
            0 <= i < observe_tokens(tally, toks).len() ==> is_candidate_spec(
                #[trigger] observe_tokens(tally, toks)[i].0,
            ),
    decreases toks.len(),
{
    if toks.len() > 0 {
        law_only_candidates_are_tallied(tally, toks.drop_last());
        let before = observe_tokens(tally, toks.drop_last());
        let t = toks.last();
        let after = observe_token(before, t);
        lemma_term_index(before, t);
        assert(observe_tokens(tally, toks) == after);
        assert forall|i: int| 0 <= i < after.len() implies is_candidate_spec(#[trigger] after[i].0) by {
            if is_candidate_spec(t) {
                match term_index(before, t) {
                    Some(k) => {
                        if i != k {
                            assert(after[i] == before[i]);
                        }
                    },
                    None => {
                        if i < before.len() {
                            assert(after[i] == before[i]);
                        }
                    },
                }
            }
        }
    }
}

/// Each term is in the tally at most once, and the tally is within its cap.
pub open spec fn tally_wf(tally: Seq<(Seq<char>, u32)>) -> bool {
    &&& tally.len() <= MAX_CANDIDATES
    &&& forall|i: int, j: int|
        #![trigger tally[i], tally[j]]
        0 <= i < j < tally.len() ==> tally[i].0 != tally[j].0
}

/// The lowercase `from` and `to` of each dictionary entry.
pub open spec fn known_list(dict: Seq<DictionaryEntry>) -> Seq<Seq<char>>
    decreases dict.len(),
{
    if dict.len() == 0 {
        Seq::empty()
    } else {
        known_list(dict.drop_last()).push(lowercase(dict.last().from@)).push(
            lowercase(dict.last().to@),
        )
    }
}

/// The term is the dictionary's, as a `from` or a `to`, ignoring case.
pub open spec fn is_known(dict: Seq<DictionaryEntry>, t: Seq<char>) -> bool {
    known_list(dict).contains(lowercase(t))
}

/// The tallied entries still worth offering, in tally order.
pub open spec fn eligible(
    tally: Seq<DictionarySuggestion>,
    dismissed: Seq<Seq<char>>,
    dict: Seq<DictionaryEntry>,
) -> Seq<DictionarySuggestion>
    decreases tally.len(),
{
    if tally.len() == 0 {
        Seq::empty()
    } else {
        let prev = eligible(tally.drop_last(), dismissed, dict);
        let s = tally.last();
        if dismissed.contains(s.term@) || is_known(dict, s.term@) {
            prev
        } else {
            prev.push(s)
        }
    }
}

impl Suggestions {
    /// The tallied suggestions, in the order terms were first seen.
    pub closed spec fn entries(&self) -> Seq<DictionarySuggestion> {
        self.counts@
    }

    /// The tally as (term, count) pairs.
    pub open spec fn tally(&self) -> Seq<(Seq<char>, u32)> {
        self.entries().map_values(|e: DictionarySuggestion| (e.term@, e.count))
    }

    /// The dismissed terms.
    pub closed spec fn dismissed_terms(&self) -> Seq<Seq<char>> {
        self.dismissed@.map_values(|s: String| s@)
    }

    pub open spec fn wf(&self) -> bool {
        tally_wf(self.tally())
    }

    pub fn new() -> (s: Self)
        ensures
            s.wf(),
            s.tally() == Seq::<(Seq<char>, u32)>::empty(),
            s.dismissed_terms() == Seq::<Seq<char>>::empty(),
    {
        let s = Suggestions { counts: Vec::new(), dismissed: Vec::new() };
        assert(s.dismissed_terms() =~= Seq::<Seq<char>>::empty());
        assert(s.tally() =~= Seq::<(Seq<char>, u32)>::empty());
        s
    }

    fn find_term(&self, t: &str) -> (r: Option<usize>)
        ensures
            match term_index(self.tally(), t@) {
                Some(i) => r is Some && r->0 == i,
                None => r is None,
            },
    {
        let mut k = self.counts.len();
        assert(self.tally().take(k as int) =~= self.tally());
        while k > 0
            invariant
                k <= self.counts@.len(),
                term_index(self.tally(), t@) == term_index(self.tally().take(k as int), t@),
            decreases k,
        {
            let ghost tk = self.tally().take(k as int);
            assert(tk.last() == (self.counts@[k - 1].term@, self.counts@[k - 1].count));
            if str_eq(self.counts[k - 1].term.as_str(), t) {
                return Some(k - 1);
            }
            assert(tk.drop_last() =~= self.tally().take(k - 1));
            k = k - 1;
        }
        None
    }

    fn observe_one(&mut self, t: &str)
        requires
            old(self).wf(),
            fits_token(old(self).tally(), t@),
        ensures
            final(self).wf(),
            final(self).tally() == observe_token(old(self).tally(), t@),
            final(self).dismissed_terms() == old(self).dismissed_terms(),
    {
        if !is_candidate(t) {
            return;
        }
        match self.find_term(t) {
            Some(i) => {
                proof {
                    lemma_term_index(self.tally(), t@);
                }
                let c = self.counts[i].count + 1;
                self.counts[i].count = c;
                proof {
                    assert(self.tally() =~= observe_token(old(self).tally(), t@));
                }
            },
            None => {
                if self.counts.len() >= MAX_CANDIDATES {
                    return;
                }
                proof {
                    lemma_term_index(self.tally(), t@);
                }
                let term = from_chars(to_chars(t).as_slice());
                self.counts.push(DictionarySuggestion { term, count: 1 });
                proof {
                    assert(self.tally() =~= observe_token(old(self).tally(), t@));
                }
            },
        }
    }

    /// Tallies the candidate terms of a dictation transcript: each
    /// whitespace-separated token without its edge punctuation, in order.
    /// No count may pass `u32::MAX`.
    pub fn observe(&mut self, text: &str)
        requires
            old(self).wf(),
            observe_fits(old(self).tally(), text_tokens(text@)),
        ensures
            final(self).wf(),
            final(self).tally() == observe_tokens(old(self).tally(), text_tokens(text@)),
            final(self).dismissed_terms() == old(self).dismissed_terms(),
    {
        let v = to_chars(text);
        let toks = split_whitespace(v.as_slice());
        let ghost ws = words(text@).map_values(|w: Seq<char>| strip_edges_spec(w));
        let mut i: usize = 0;
        while i < toks.len()
            invariant
                i <= toks@.len(),
                toks@.map_values(|w: Vec<char>| w@) == words(text@),
                ws == words(text@).map_values(|w: Seq<char>| strip_edges_spec(w)),
                self.wf(),
                self.tally() == observe_tokens(old(self).tally(), ws.take(i as int)),
                self.dismissed_terms() == old(self).dismissed_terms(),
                observe_fits(old(self).tally(), ws),
            decreases toks@.len() - i,
        {
            let (lo, hi) = trim_bounds(toks[i].as_slice(), CharClass::NotAlphanumeric);
            let t = from_chars(slice_to_vec(toks[i].as_slice(), lo, hi).as_slice());
            proof {
                assert(toks@[i as int]@ == words(text@)[i as int]);
                assert(t@ == ws[i as int]);
                assert(ws.take(i + 1).drop_last() =~= ws.take(i as int));
                lemma_observe_fits_prefix(old(self).tally(), ws, i + 1);
                assert(ws.take(i + 1).last() == ws[i as int]);
            }
            self.observe_one(t.as_str());
            i = i + 1;
        }
        assert(ws.take(i as int) =~= ws);
    }

    fn fits_one(&self, t: &str) -> (r: bool)
        ensures
            r == fits_token(self.tally(), t@),
    {
        if !is_candidate(t) {
            return true;
        }
        match self.find_term(t) {
            Some(i) => {
                proof {
                    lemma_term_index(self.tally(), t@);
                    assert(self.tally()[i as int].1 == self.counts@[i as int].count);
                }
                self.counts[i].count < u32::MAX
            },
            None => true,
        }
    }

    /// Whether tallying `text` keeps every count within `u32`; tried on a
    /// copy of the tally.
    fn fits(&self, text: &str) -> (r: bool)
        requires
            self.wf(),
        ensures
            r == observe_fits(self.tally(), text_tokens(text@)),
    {
        let copied = self.counts.clone();
        proof {
            assert forall|k: int| 0 <= k < copied@.len() implies copied@[k] == self.counts@[k] by {
                assert(vstd::pervasive::cloned::<DictionarySuggestion>(self.counts@[k], copied@[k]));
            }
            assert(copied@ =~= self.counts@);
        }
        let mut scratch = Suggestions { counts: copied, dismissed: Vec::new() };
        assert(scratch.tally() == self.tally());
        let v = to_chars(text);
        let toks = split_whitespace(v.as_slice());
        let ghost ws = text_tokens(text@);
        let mut i: usize = 0;
        assert(ws.take(0) =~= Seq::<Seq<char>>::empty());
        while i < toks.len()
            invariant
                i <= toks@.len(),
                toks@.map_values(|w: Vec<char>| w@) == words(text@),
                ws == text_tokens(text@),
                scratch.wf(),
                scratch.tally() == observe_tokens(self.tally(), ws.take(i as int)),
                observe_fits(self.tally(), ws.take(i as int)),
            decreases toks@.len() - i,
        {
            let (lo, hi) = trim_bounds(toks[i].as_slice(), CharClass::NotAlphanumeric);
            let t = from_chars(slice_to_vec(toks[i].as_slice(), lo, hi).as_slice());
            proof {
                assert(toks@[i as int]@ == words(text@)[i as int]);
                assert(t@ == ws[i as int]);
                assert(ws.take(i + 1).drop_last() =~= ws.take(i as int));
                assert(ws.take(i + 1).last() == ws[i as int]);
            }
            if !scratch.fits_one(t.as_str()) {
                proof {
                    if observe_fits(self.tally(), ws) {
                        lemma_observe_fits_prefix(self.tally(), ws, i + 1);
                    }
                }
                return false;
            }
            scratch.observe_one(t.as_str());
            i = i + 1;
        }
        assert(ws.take(i as int) =~= ws);
        true
    }

    /// Tallies `text` where that keeps every count within `u32`, and says
    /// whether it did; otherwise the tally stays as it was.
    pub fn observe_checked(&mut self, text: &str) -> (observed: bool)
        requires
            old(self).wf(),
        ensures
            final(self).wf(),
            observed == observe_fits(old(self).tally(), text_tokens(text@)),
            observed ==> final(self).tally() == observe_tokens(old(self).tally(), text_tokens(text@)),
            !observed ==> final(self).tally() == old(self).tally(),
            final(self).dismissed_terms() == old(self).dismissed_terms(),
    {
        if self.fits(text) {
            self.observe(text);
            true
        } else {
            false
        }
    }

    fn is_dismissed(&self, t: &str) -> (r: bool)
        ensures
            r == self.dismissed_terms().contains(t@),
    {
        let mut k: usize = 0;
        while k < self.dismissed.len()
            invariant
                k <= self.dismissed@.len(),
                forall|m: int| 0 <= m < k ==> self.dismissed@[m]@ != t@,
            decreases self.dismissed@.len() - k,
        {
            if str_eq(self.dismissed[k].as_str(), t) {
                assert(self.dismissed_terms()[k as int] == t@);
                return true;
            }
            k = k + 1;
        }
        proof {
            if self.dismissed_terms().contains(t@) {
                let m = choose|m: int|
                    0 <= m < self.dismissed_terms().len() && self.dismissed_terms()[m] == t@;
                assert(self.dismissed@[m]@ == t@);
            }
        }
        false
    }

    /// The most-seen candidates that are neither in the dictionary (as a
    /// `from` or a `to`, ignoring case) nor dismissed, highest count first,
    /// equal counts alphabetically, at most `limit` of them.
    pub fn top(&self, dictionary: &[DictionaryEntry], limit: usize) -> (r: Vec<
        DictionarySuggestion,
    >)
        ensures
            exists|s: Seq<DictionarySuggestion>|
                #![trigger sorted(s)]
                s.to_multiset() =~= eligible(
                    self.entries(),
                    self.dismissed_terms(),
                    dictionary@,
                ).to_multiset() && sorted(s) && r@ == s.take(
                    if limit < s.len() {
                        limit as int
                    } else {
                        s.len() as int
                    },
                ),
            forall|i: int|
                0 <= i < r@.len() ==> !self.dismissed_terms().contains(#[trigger] r@[i].term@)
                    && !is_known(dictionary@, r@[i].term@),
    {
        let mut known: Vec<String> = Vec::new();
        let mut d: usize = 0;
        while d < dictionary.len()
            invariant
                d <= dictionary@.len(),
                views(known@) == known_list(dictionary@.take(d as int)),
            decreases dictionary@.len() - d,
        {
            let a = to_lowercase(dictionary[d].from.as_str());
            let b = to_lowercase(dictionary[d].to.as_str());
            let ghost before = known@;
            known.push(a);
            known.push(b);
            proof {
                let dt = dictionary@.take(d + 1);
                assert(dt.drop_last() =~= dictionary@.take(d as int));
                assert(views(known@) =~= views(before).push(a@).push(b@));
            }
            d = d + 1;
        }
        assert(dictionary@.take(d as int) =~= dictionary@);
        let mut items: Vec<DictionarySuggestion> = Vec::new();
        let mut k: usize = 0;
        while k < self.counts.len()
            invariant
                k <= self.counts@.len(),
                items@ == eligible(self.entries().take(k as int), self.dismissed_terms(), dictionary@),
                views(known@) == known_list(dictionary@),
            decreases self.counts@.len() - k,
        {
            let ghost tk = self.entries().take(k + 1);
            assert(tk.drop_last() =~= self.entries().take(k as int));
            assert(tk.last() == self.counts@[k as int]);
            let term = self.counts[k].term.as_str();
            let dismissed = self.is_dismissed(term);
            let lower = to_lowercase(term);
            let mut hit = false;
            let mut m: usize = 0;
            while m < known.len()
                invariant
                    m <= known@.len(),
                    hit <==> exists|q: int| 0 <= q < m && known@[q]@ == lower@,
                decreases known@.len() - m,
            {
                if str_eq(known[m].as_str(), lower.as_str()) {
                    hit = true;
                }
                m = m + 1;
            }
            proof {
                assert(lower@ == lowercase(term@));
                if hit {
                    let q = choose|q: int| 0 <= q < m && known@[q]@ == lower@;
                    assert(views(known@)[q] == lower@);
                }
                if views(known@).contains(lower@) {
                    let q = choose|q: int| 0 <= q < views(known@).len() && views(known@)[q] == lower@;
                    assert(known@[q]@ == lower@);
                }
            }
            if !dismissed && !hit {
                items.push(self.counts[k].clone());
            }
            k = k + 1;
        }
        assert(self.entries().take(k as int) =~= self.entries());
        let mut sorted_items = insertion_sort(items);
        let ghost s = sorted_items@;
        if limit < sorted_items.len() {
            sorted_items.truncate(limit);
        }
        proof {
            if limit >= s.len() {
                assert(s.take(s.len() as int) =~= s);
            }
            assert(sorted(s));
            let e = eligible(self.entries(), self.dismissed_terms(), dictionary@);
            lemma_eligible_excludes(self.entries(), self.dismissed_terms(), dictionary@);
            assert forall|i: int| 0 <= i < sorted_items@.len() implies !self.dismissed_terms().contains(
                #[trigger] sorted_items@[i].term@,
            ) && !is_known(dictionary@, sorted_items@[i].term@) by {
                let x = sorted_items@[i];
                assert(x == s[i]);
                assert(s.contains(x));
                vstd::seq_lib::to_multiset_contains(s, x);
                vstd::seq_lib::to_multiset_contains(e, x);
                assert(e.to_multiset().count(x) > 0);
                assert(e.contains(x));
            }
        }
        sorted_items
    }

    /// Suppresses a term for the rest of the session.
    pub fn dismiss(&mut self, term: &str)
        requires
            old(self).wf(),
        ensures
            final(self).wf(),
            final(self).tally() == old(self).tally(),
            forall|t: Seq<char>|
                #[trigger] final(self).dismissed_terms().contains(t) <==> (old(
                    self,
                ).dismissed_terms().contains(t) || t == term@),
    {
        if !self.is_dismissed(term) {
            let ghost before = self.dismissed_terms();
            self.dismissed.push(from_chars(to_chars(term).as_slice()));
            proof {
                assert(self.dismissed_terms() =~= before.push(term@));
                assert forall|t: Seq<char>|
                    #[trigger] self.dismissed_terms().contains(t) <==> (before.contains(t) || t
                        == term@) by {
                    if self.dismissed_terms().contains(t) && t != term@ {
                        let m = choose|m: int|
                            0 <= m < self.dismissed_terms().len() && self.dismissed_terms()[m] == t;
                        assert(before[m] == t);
                    }
                    if before.contains(t) {
                        let m = choose|m: int| 0 <= m < before.len() && before[m] == t;
                        assert(self.dismissed_terms()[m] == t);
                    }
                    if t == term@ {
                        assert(self.dismissed_terms()[before.len() as int] == t);
                    }
                }
            }
        }
    }
}

/// Every offered suggestion is a tallied one that is neither dismissed nor
/// already in the dictionary.
pub proof fn lemma_eligible_excludes(
    tally: Seq<DictionarySuggestion>,
    dismissed: Seq<Seq<char>>,
    dict: Seq<DictionaryEntry>,
)
    ensures
        forall|x: DictionarySuggestion|
            #[trigger] eligible(tally, dismissed, dict).contains(x) ==> tally.contains(x)
                && !dismissed.contains(x.term@) && !is_known(dict, x.term@),
    decreases tally.len(),
{
    if tally.len() > 0 {
        lemma_eligible_excludes(tally.drop_last(), dismissed, dict);
        let prev = eligible(tally.drop_last(), dismissed, dict);
        assert forall|x: DictionarySuggestion|
            #[trigger] eligible(tally, dismissed, dict).contains(x) implies tally.contains(x)
                && !dismissed.contains(x.term@) && !is_known(dict, x.term@) by {
            let e = eligible(tally, dismissed, dict);
            let k = choose|k: int| 0 <= k < e.len() && e[k] == x;
            if k < prev.len() {
                assert(prev[k] == x);
                assert(prev.contains(x));
                let j = choose|j: int| 0 <= j < tally.drop_last().len() && tally.drop_last()[j] == x;
                assert(tally[j] == x);
            } else {
                assert(x == tally.last());
                assert(tally[tally.len() - 1] == x);
            }
        }
    }
}

proof fn lemma_term_index(tally: Seq<(Seq<char>, u32)>, t: Seq<char>)
    ensures
        match term_index(tally, t) {
            Some(i) => 0 <= i < tally.len() && tally[i].0 == t,
            None => forall|j: int| 0 <= j < tally.len() ==> #[trigger] tally[j].0 != t,
        },
    decreases tally.len(),
{
    if tally.len() > 0 && tally.last().0 != t {
        lemma_term_index(tally.drop_last(), t);
        if term_index(tally, t) is None {
            assert forall|j: int| 0 <= j < tally.len() implies #[trigger] tally[j].0 != t by {
                if j < tally.len() - 1 {
                    assert(tally[j] == tally.drop_last()[j]);
                }
            }
        }
    }
}

/// How often `t` is among the tokens.
pub open spec fn occurrences(toks: Seq<Seq<char>>, t: Seq<char>) -> nat
    decreases toks.len(),
{
    if toks.len() == 0 {
        0
    } else {
        occurrences(toks.drop_last(), t) + if toks.last() == t {
            1nat
        } else {
            0nat
        }
    }
}

/// The count the tally holds for `t`; 0 where `t` is not tallied.
pub open spec fn count_of(tally: Seq<(Seq<char>, u32)>, t: Seq<char>) -> int {
    match term_index(tally, t) {
        Some(i) => tally[i].1 as int,
        None => 0,
    }
}

proof fn lemma_term_index_same_keys(a: Seq<(Seq<char>, u32)>, b: Seq<(Seq<char>, u32)>, t: Seq<char>)
    requires
        a.len() == b.len(),
        forall|i: int| 0 <= i < a.len() ==> #[trigger] a[i].0 == b[i].0,
    ensures
        term_index(a, t) == term_index(b, t),
    decreases a.len(),
{
    if a.len() > 0 {
        assert(a.last().0 == b.last().0);
        assert forall|i: int| 0 <= i < a.drop_last().len() implies #[trigger] a.drop_last()[i].0
            == b.drop_last()[i].0 by {
            assert(a.drop_last()[i] == a[i] && b.drop_last()[i] == b[i]);
        }
        lemma_term_index_same_keys(a.drop_last(), b.drop_last(), t);
    }
}

/// One token's effect on what the tally holds for another term `t`.
proof fn lemma_observe_token_for(tally: Seq<(Seq<char>, u32)>, x: Seq<char>, t: Seq<char>)
    requires
        fits_token(tally, x),
    ensures
        ({
            let after = observe_token(tally, x);
            &&& tally.len() <= after.len() <= (if tally.len() < MAX_CANDIDATES {
                MAX_CANDIDATES as int
            } else {
                tally.len() as int
            })
            &&& x != t || !is_candidate_spec(t) ==> term_index(after, t) == term_index(tally, t)
                && count_of(after, t) == count_of(tally, t)
            &&& x == t && is_candidate_spec(t) && term_index(tally, t) is Some ==> term_index(after, t)
                == term_index(tally, t) && count_of(after, t) == count_of(tally, t) + 1
            &&& x == t && is_candidate_spec(t) && term_index(tally, t) is None ==> (if tally.len()
                < MAX_CANDIDATES {
                term_index(after, t) is Some && count_of(after, t) == 1
            } else {
                term_index(after, t) is None && after == tally
            })
        }),
{
    let after = observe_token(tally, x);
    lemma_term_index(tally, x);
    if is_candidate_spec(x) {
        match term_index(tally, x) {
            Some(i) => {
                assert forall|j: int| 0 <= j < tally.len() implies #[trigger] tally[j].0 == after[j].0 by {
                    if j == i {
                        assert(after[j].0 == x);
                    }
                }
                lemma_term_index_same_keys(tally, after, t);
                if x == t {
                    assert(after[i].1 == tally[i].1 + 1);
                } else if let Some(k) = term_index(tally, t) {
                    lemma_term_index(tally, t);
                    assert(k != i);
                    assert(after[k] == tally[k]);
                }
            },
            None => {
                if tally.len() < MAX_CANDIDATES {
                    assert(after.drop_last() =~= tally);
                    if x != t {
                        assert(term_index(after, t) == term_index(tally, t));
                        if let Some(k) = term_index(tally, t) {
                            lemma_term_index(tally, t);
                            assert(after[k] == tally[k]);
                        }
                    }
                }
            },
        }
    }
}

proof fn lemma_observe_counts(tally: Seq<(Seq<char>, u32)>, toks: Seq<Seq<char>>, t: Seq<char>)
    requires
        observe_fits(tally, toks),
    ensures
        ({
            let after = observe_tokens(tally, toks);
            &&& tally.len() <= after.len() <= (if tally.len() < MAX_CANDIDATES {
                MAX_CANDIDATES as int
            } else {
                tally.len() as int
            })
            &&& !is_candidate_spec(t) ==> term_index(after, t) == term_index(tally, t) && count_of(
                after,
                t,
            ) == count_of(tally, t)
            &&& is_candidate_spec(t) && term_index(tally, t) is Some ==> term_index(after, t)
                == term_index(tally, t) && count_of(after, t) == count_of(tally, t) + occurrences(
                toks,
                t,
            )
            &&& is_candidate_spec(t) && term_index(tally, t) is None && term_index(after, t) is Some
                ==> count_of(after, t) == occurrences(toks, t)
            &&& is_candidate_spec(t) && term_index(tally, t) is None && term_index(after, t) is None
                ==> occurrences(toks, t) == 0 || after.len() >= MAX_CANDIDATES
        }),
    decreases toks.len(),
{
    if toks.len() > 0 {
        let front = toks.drop_last();
        let x = toks.last();
        lemma_observe_counts(tally, front, t);
        let before = observe_tokens(tally, front);
        lemma_observe_token_for(before, x, t);
    }
}

/// What observing a transcript does to the tally, term by term: nothing for
/// a word that is not a candidate; a candidate already tallied counts once
/// more for each time it occurs; a new candidate is added only while the
/// tally has room, and then counts every time it occurs (so one that occurs
/// and is not added found the tally full); the tally only grows, and never
/// past its cap.
pub proof fn law_observe_counts_each_occurrence(tally: Seq<(Seq<char>, u32)>, toks: Seq<Seq<char>>, t: Seq<char>)
    requires
        tally_wf(tally),
        observe_fits(tally, toks),
    ensures
        ({
            let after = observe_tokens(tally, toks);
            &&& tally.len() <= after.len() <= MAX_CANDIDATES
            &&& !is_candidate_spec(t) ==> term_index(after, t) == term_index(tally, t) && count_of(
                after,
                t,
            ) == count_of(tally, t)
            &&& is_candidate_spec(t) && term_index(tally, t) is Some ==> term_index(after, t)
                == term_index(tally, t) && count_of(after, t) == count_of(tally, t) + occurrences(
                toks,
                t,
            )
            &&& is_candidate_spec(t) && term_index(tally, t) is None && term_index(after, t) is Some
                ==> count_of(after, t) == occurrences(toks, t)
            &&& is_candidate_spec(t) && term_index(tally, t) is None && occurrences(toks, t) > 0
                && term_index(after, t) is None ==> after.len() == MAX_CANDIDATES
        }),
{
    lemma_observe_counts(tally, toks, t);
}

/// Whether a token is a candidate term.
pub fn is_candidate(token: &str) -> (b: bool)
    ensures
        b == is_candidate_spec(token@),
{
    let v = to_chars(token);
    if v.len() < 2 {
        return false;
    }
    let mut any_alpha = false;
    let mut inner_upper = false;
    let mut all_upper = true;
    let mut i: usize = 0;
    while i < v.len()
        invariant
            i <= v@.len(),
            v@ == token@,
            any_alpha <==> exists|j: int| 0 <= j < i && #[trigger] alphabetic(v@[j]),
            inner_upper <==> exists|j: int| 1 <= j < i && #[trigger] uppercase(v@[j]),
            all_upper <==> forall|j: int| 0 <= j < i && #[trigger] alphabetic(v@[j]) ==> uppercase(v@[j]),
        decreases v@.len() - i,
    {
        let c = v[i];
        let a = char_is_alphabetic(c);
        let u = char_is_uppercase(c);
        if a {
            any_alpha = true;
            if !u {
                all_upper = false;
            }
        }
        if i > 0 && u {
            inner_upper = true;
        }
        i = i + 1;
    }
    any_alpha && inner_upper && !all_upper
}

} // verus!
