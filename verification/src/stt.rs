//! Speech-to-text helpers that need no engine: the vocabulary-biasing prompt,
//! the language the transcriber is asked for, when the loaded model must be
//! replaced, the padding of short clips, and the transcript of the segments.
use vstd::prelude::*;
use vstd::string::StringExecFns;
use crate::settings::DictionaryEntry;
use crate::strs::{from_chars, join, str_eq, to_chars, extend_str, trim, trim_bounds, slice_to_vec, CharClass};

verus! {

/// The glossary of replacement spellings, in dictionary order.
pub open spec fn glossary(entries: Seq<DictionaryEntry>) -> Seq<Seq<char>> {
    entries.map_values(|e: DictionaryEntry| e.to@)
}

/// Builds the vocabulary-biasing prompt whisper sees before the audio:
/// `None` for an empty dictionary, else `Glossary: a, b.`.
pub fn initial_prompt_from_dictionary(entries: &[DictionaryEntry]) -> (r: Option<String>)
    ensures
        entries@.len() == 0 ==> r is None,
        entries@.len() > 0 ==> r is Some && r->0@ == "Glossary: "@ + join(glossary(entries@), ", "@)
            + "."@,
{
    if entries.len() == 0 {
        return None;
    }
    let mut words: Vec<String> = Vec::new();
    let mut i: usize = 0;
    while i < entries.len()
        invariant
            i <= entries@.len(),
            crate::strs::views(words@) == glossary(entries@.take(i as int)),
        decreases entries@.len() - i,
    {
        let w = entries[i].to.clone();
        let ghost old_w = words@;
        words.push(w);
        proof {
            assert(entries@.take(i + 1) =~= entries@.take(i as int).push(entries@[i as int]));
            assert(crate::strs::views(words@) =~= crate::strs::views(old_w).push(w@));
        }
        i = i + 1;
        assert(crate::strs::views(words@) =~= glossary(entries@.take(i as int)));
    }
    assert(entries@.take(i as int) =~= entries@);
    let joined = crate::strs::join_strings(words.as_slice(), ", ");
    let mut s = String::from_str("Glossary: ");
    s.append(joined.as_str());
    s.append(".");
    Some(s)
}

/// Clips shorter than this many samples (1.1 s at 16 kHz) are padded with
/// trailing silence; the transcriber misbehaves on very short audio.
pub const MIN_SAMPLES: usize = 17600;

/// The number of samples handed to the transcriber: the recording, padded
/// to the minimum length.
pub fn padded_len(len: usize) -> (r: usize)
    ensures
        r == (if len < MIN_SAMPLES {
            MIN_SAMPLES
        } else {
            len
        }),
{
    if len < MIN_SAMPLES {
        MIN_SAMPLES
    } else {
        len
    }
}

/// A model must be (re)loaded unless the loaded one has the requested id.
pub fn needs_load(loaded: Option<&str>, model_id: &str) -> (r: bool)
    ensures
        r == match loaded {
            Some(m) => m@ != model_id@,
            None => true,
        },
{
    match loaded {
        Some(m) => !str_eq(m, model_id),
        None => true,
    }
}

/// `s` ends with `suffix`.
pub open spec fn ends_with(s: Seq<char>, suffix: Seq<char>) -> bool {
    s.len() >= suffix.len() && s.skip(s.len() - suffix.len()) == suffix
}

/// The language the transcriber is asked for: English-only models (ids
/// ending in `.en`) always English; "auto" lets it detect; anything else is
/// passed on as a language code.
pub open spec fn whisper_language_spec(model_id: Seq<char>, language: Seq<char>) -> Option<
    Seq<char>,
> {
    if ends_with(model_id, ".en"@) {
        Some("en"@)
    } else if language == "auto"@ {
        None
    } else {
        Some(language)
    }
}

pub fn whisper_language(model_id: &str, language: &str) -> (r: Option<String>)
    ensures
        match whisper_language_spec(model_id@, language@) {
            Some(l) => r matches Some(s) && s@ == l,
            None => r is None,
        },
{
    let v = to_chars(model_id);
    let n = v.len();
    proof {
        reveal_strlit(".en");
    }
    let english_only = n >= 3 && v[n - 3] == '.' && v[n - 2] == 'e' && v[n - 1] == 'n';
    proof {
        if english_only {
            assert(model_id@.skip(n - 3) =~= ".en"@);
        } else if n >= 3 {
            if model_id@.skip(n - 3) == ".en"@ {
                assert(model_id@.skip(n - 3)[0] == v@[n - 3]);
                assert(model_id@.skip(n - 3)[1] == v@[n - 2]);
                assert(model_id@.skip(n - 3)[2] == v@[n - 1]);
            }
        }
    }
    if english_only {
        Some(String::from_str("en"))
    } else if str_eq(language, "auto") {
        None
    } else {
        Some(String::from_str(language))
    }
}

/// The transcript of a run: its segments' texts in order, joined, trimmed.
pub fn transcript_from_segments(segments: &[String]) -> (r: String)
    ensures
        r@ == trim(crate::notes::concat(crate::strs::views(segments@))),
{
    let mut out: Vec<char> = Vec::new();
    let mut i: usize = 0;
    while i < segments.len()
        invariant
            i <= segments@.len(),
            out@ == crate::notes::concat(crate::strs::views(segments@.take(i as int))),
        decreases segments@.len() - i,
    {
        extend_str(&mut out, segments[i].as_str());
        proof {
            let t = crate::strs::views(segments@.take(i + 1));
            assert(t.drop_last() =~= crate::strs::views(segments@.take(i as int)));
        }
        i = i + 1;
    }
    assert(segments@.take(i as int) =~= segments@);
    let (lo, hi) = trim_bounds(out.as_slice(), CharClass::Whitespace);
    let t = slice_to_vec(out.as_slice(), lo, hi);
    from_chars(t.as_slice())
}

} // verus!
