//! Cloud speech-to-text connections: one profile per engine that needs a URL
//! and a key (the local default needs none). The filename stem is the
//! identity. This module holds the profile shape, id validation and the
//! in-memory catalog; the directory scan and file writes are the caller's.
use vstd::prelude::*;
use vstd::string::StringExecFns;
use crate::lex::{compare_str, lemma_lex_total, lemma_lex_trans, lex_lt, Order};
use crate::profiles::{contains_char, ProfileError};
use crate::sorting::{insertion_sort, sorted, Ordered};
use crate::strs::{find_first, find_first_exec, starts_with, str_eq, to_chars, trim, trim_str};

verus! {

pub const STT_PROFILE_VERSION: u32 = 1;

/// `stt_model_id` prefix marking a cloud engine: `cloud:<profile-id>`.
/// Anything else is an on-device model id.
pub const CLOUD_STT_PREFIX: &'static str = "cloud:";

/// Which client transcribes: the generic OpenAI-audio multipart client.
#[derive(Debug, Clone, Copy, PartialEq, Eq)]
pub enum SttEngineKind {
    OpenaiAudio,
}

impl Default for SttEngineKind {
    fn default() -> (r: Self)
        ensures
            r == SttEngineKind::OpenaiAudio,
    {
        SttEngineKind::OpenaiAudio
    }
}

/// A named speech-to-text connection.
#[derive(Debug, PartialEq)]
pub struct SttProfile {
    pub version: u32,
    /// Identity; always equals the filename stem.
    pub id: String,
    pub name: String,
    pub engine: SttEngineKind,
    /// Display and prefill only; never changes request behavior.
    pub preset_id: String,
    pub base_url: String,
    pub api_key: String,
    pub model: String,
    pub timeout_secs: u64,
}

impl Clone for SttProfile {
    fn clone(&self) -> (r: Self)
        ensures
            r == *self,
    {
        SttProfile {
            version: self.version,
            id: self.id.clone(),
            name: self.name.clone(),
            engine: self.engine,
            preset_id: self.preset_id.clone(),
            base_url: self.base_url.clone(),
            api_key: self.api_key.clone(),
            model: self.model.clone(),
            timeout_secs: self.timeout_secs,
        }
    }
}

impl Default for SttProfile {
    fn default() -> (r: Self)
        ensures
            r.version == STT_PROFILE_VERSION,
            r.id@ == Seq::<char>::empty(),
            r.name@ == Seq::<char>::empty(),
            r.engine == SttEngineKind::OpenaiAudio,
            r.preset_id@ == Seq::<char>::empty(),
            r.base_url@ == Seq::<char>::empty(),
            r.api_key@ == Seq::<char>::empty(),
            r.model@ == Seq::<char>::empty(),
            r.timeout_secs == 30,
    {
        SttProfile {
            version: STT_PROFILE_VERSION,
            id: String::new(),
            name: String::new(),
            engine: SttEngineKind::OpenaiAudio,
            preset_id: String::new(),
            base_url: String::new(),
            api_key: String::new(),
            model: String::new(),
            timeout_secs: 30,
        }
    }
}

/// Profiles sort by name, then id.
pub open spec fn stt_profile_le(a: SttProfile, b: SttProfile) -> bool {
    lex_lt(a.name@, b.name@) || (a.name@ == b.name@ && !lex_lt(b.id@, a.id@))
}

impl Ordered for SttProfile {
    open spec fn le(&self, other: &Self) -> bool {
        stt_profile_le(*self, *other)
    }

    proof fn le_total(a: &Self, b: &Self) {
        lemma_lex_total(a.name@, b.name@);
        lemma_lex_total(a.id@, b.id@);
    }

    proof fn le_trans(a: &Self, b: &Self, c: &Self) {
        lemma_lex_total(a.name@, b.name@);
        lemma_lex_total(b.name@, c.name@);
        lemma_lex_total(a.id@, b.id@);
        lemma_lex_total(b.id@, c.id@);
        lemma_lex_total(a.id@, c.id@);
        if lex_lt(a.name@, b.name@) && lex_lt(b.name@, c.name@) {
            lemma_lex_trans(a.name@, b.name@, c.name@);
        }
        if lex_lt(a.id@, b.id@) && lex_lt(b.id@, c.id@) {
            lemma_lex_trans(a.id@, b.id@, c.id@);
        }
    }

    fn le_exec(&self, other: &Self) -> (r: bool) {
        match compare_str(self.name.as_str(), other.name.as_str()) {
            Order::Less => true,
            Order::Greater => false,
            Order::Equal => match compare_str(other.id.as_str(), self.id.as_str()) {
                Order::Less => false,
                _ => true,
            },
        }
    }
}

/// Ids double as filename stems: non-empty, at most 128 bytes, no `/`, `\`,
/// NUL or `..`, and not `.`.
pub open spec fn stt_safe_id_spec(id: Seq<char>) -> bool {
    &&& id.len() > 0
    &&& vstd::utf8::encode_utf8(id).len() <= 128
    &&& !id.contains('/')
    &&& !id.contains('\\')
    &&& !id.contains('\0')
    &&& find_first(id, ".."@) is None
    &&& id != "."@
}

/// Whether `id` is safe to use as a filename stem.
pub fn stt_safe_id(id: &str) -> (b: bool)
    ensures
        b == stt_safe_id_spec(id@),
{
    let v = to_chars(id);
    let dots = to_chars("..");
    let bytes = id.as_bytes();
    !id.is_empty() && bytes.len() <= 128 && !contains_char(id, '/') && !contains_char(id, '\\')
        && !contains_char(id, '\0') && find_first_exec(v.as_slice(), dots.as_slice()).is_none()
        && !str_eq(id, ".")
}

/// A profile ready to be written: the current version, and a default name
/// where the name is blank.
pub open spec fn stt_prepared(p: SttProfile, q: SttProfile) -> bool {
    &&& q.version == STT_PROFILE_VERSION
    &&& q.id == p.id
    &&& q.name@ == (if trim(p.name@).len() == 0 {
        "Untitled engine"@
    } else {
        p.name@
    })
    &&& q.engine == p.engine
    &&& q.preset_id == p.preset_id
    &&& q.base_url == p.base_url
    &&& q.api_key == p.api_key
    &&& q.model == p.model
    &&& q.timeout_secs == p.timeout_secs
}

/// Validates and normalizes a profile before it is written: an unsafe id is
/// rejected; the version is stamped and a blank name becomes
/// "Untitled engine".
pub fn prepare_stt_save(profile: SttProfile) -> (r: Result<SttProfile, ProfileError>)
    ensures
        stt_safe_id_spec(profile.id@) <==> r is Ok,
        r matches Ok(q) ==> stt_prepared(profile, q),
        r matches Err(ProfileError::InvalidId(id)) ==> id@ == profile.id@,
{
    if !stt_safe_id(profile.id.as_str()) {
        return Err(ProfileError::InvalidId(profile.id));
    }
    let mut profile = profile;
    profile.version = STT_PROFILE_VERSION;
    let t = trim_str(profile.name.as_str());
    if t.as_str().is_empty() {
        profile.name = String::from_str("Untitled engine");
    }
    Ok(profile)
}

/// Checks an id before its file is deleted.
pub fn check_stt_delete(id: &str) -> (r: Result<(), ProfileError>)
    ensures
        stt_safe_id_spec(id@) <==> r is Ok,
        r matches Err(ProfileError::InvalidId(s)) ==> s@ == id@,
{
    if stt_safe_id(id) {
        Ok(())
    } else {
        Err(ProfileError::InvalidId(String::from_str(id)))
    }
}

/// The first profile in `ps` with id `id`.
pub open spec fn find_stt_profile(ps: Seq<SttProfile>, id: Seq<char>) -> Option<SttProfile>
    decreases ps.len(),
{
    if ps.len() == 0 {
        None
    } else if ps[0].id@ == id {
        Some(ps[0])
    } else {
        find_stt_profile(ps.drop_first(), id)
    }
}

/// The cloud profile a model id selects: the rest of `cloud:<id>`.
pub open spec fn cloud_profile_id_spec(model_id: Seq<char>) -> Option<Seq<char>> {
    let p = CLOUD_STT_PREFIX@;
    if model_id.len() >= p.len() && model_id.take(p.len() as int) == p {
        Some(model_id.skip(p.len() as int))
    } else {
        None
    }
}

/// The profile id of a cloud model id, or `None` for an on-device model.
pub fn cloud_profile_id(model_id: &str) -> (r: Option<String>)
    ensures
        match cloud_profile_id_spec(model_id@) {
            Some(id) => r matches Some(s) && s@ == id,
            None => r is None,
        },
{
    proof {
        reveal_strlit("cloud:");
    }
    if !starts_with(model_id, CLOUD_STT_PREFIX) {
        return None;
    }
    let v = to_chars(model_id);
    let rest = crate::strs::slice_to_vec(v.as_slice(), 6, v.len());
    assert(rest@ =~= model_id@.skip(6));
    Some(crate::strs::from_chars(rest.as_slice()))
}

/// The model id that selects a cloud profile: `cloud:<id>`.
pub fn cloud_model_id(profile_id: &str) -> (r: String)
    ensures
        r@ == CLOUD_STT_PREFIX@ + profile_id@,
{
    let mut s = String::from_str(CLOUD_STT_PREFIX);
    s.append(profile_id);
    s
}

proof fn lemma_find_stt_profile_result(ps: Seq<SttProfile>, id: Seq<char>)
    ensures
        find_stt_profile(ps, id) matches Some(q) ==> ps.contains(q) && q.id@ == id,
        (exists|i: int| 0 <= i < ps.len() && #[trigger] ps[i].id@ == id) ==> find_stt_profile(ps, id) is Some,
    decreases ps.len(),
{
    if ps.len() > 0 {
        lemma_find_stt_profile_result(ps.drop_first(), id);
        if find_stt_profile(ps, id) is Some && ps[0].id@ != id {
            let q = find_stt_profile(ps, id)->0;
            let k = choose|k: int| 0 <= k < ps.drop_first().len() && ps.drop_first()[k] == q;
            assert(ps[k + 1] == q);
        }
        if ps[0].id@ != id && (exists|i: int| 0 <= i < ps.len() && #[trigger] ps[i].id@ == id) {
            let i = choose|i: int| 0 <= i < ps.len() && #[trigger] ps[i].id@ == id;
            assert(ps.drop_first()[i - 1].id@ == id);
        }
    }
}

/// Read after write: an engine profile that the last scan held is what `get`
/// returns for its id, the scan's ids being distinct (they are file names).
pub proof fn law_listed_stt_profile_is_found(cache: Seq<SttProfile>, scanned: Seq<SttProfile>, p: SttProfile)
    requires
        cache.to_multiset() =~= scanned.to_multiset(),
        scanned.contains(p),
        forall|i: int, j: int|
            0 <= i < scanned.len() && 0 <= j < scanned.len() && #[trigger] scanned[i].id@
                == #[trigger] scanned[j].id@ ==> i == j,
    ensures
        find_stt_profile(cache, p.id@) == Some(p),
{
    broadcast use vstd::seq_lib::group_to_multiset_ensures;

    assert(scanned.to_multiset().count(p) > 0);
    assert(cache.contains(p));
    let k = choose|k: int| 0 <= k < cache.len() && cache[k] == p;
    assert(cache[k].id@ == p.id@);
    lemma_find_stt_profile_result(cache, p.id@);
    let q = find_stt_profile(cache, p.id@)->0;
    assert(scanned.to_multiset().count(q) > 0);
    let a = choose|a: int| 0 <= a < scanned.len() && scanned[a] == q;
    let b = choose|b: int| 0 <= b < scanned.len() && scanned[b] == p;
    assert(scanned[a].id@ == scanned[b].id@);
}

/// The profiles directory and the profiles last read from it.
pub struct SttProfileManager {
    dir: String,
    cache: Vec<SttProfile>,
}

impl SttProfileManager {
    pub closed spec fn dir_spec(&self) -> Seq<char> {
        self.dir@
    }

    pub closed spec fn cache_spec(&self) -> Seq<SttProfile> {
        self.cache@
    }

    /// A catalog for `dir` holding `scanned`, sorted by name then id.
    pub fn new(dir: String, scanned: Vec<SttProfile>) -> (m: Self)
        ensures
            m.dir_spec() == dir@,
            sorted(m.cache_spec()),
            m.cache_spec().to_multiset() =~= scanned@.to_multiset(),
    {
        SttProfileManager { dir, cache: insertion_sort(scanned) }
    }

    /// The profiles directory.
    pub fn dir(&self) -> (d: &str)
        ensures
            d@ == self.dir_spec(),
    {
        self.dir.as_str()
    }

    /// Replaces the catalog with a fresh scan and returns it, sorted.
    pub fn list(&mut self, scanned: Vec<SttProfile>) -> (r: Vec<SttProfile>)
        ensures
            final(self).dir_spec() == old(self).dir_spec(),
            final(self).cache_spec() == r@,
            sorted(r@),
            r@.to_multiset() =~= scanned@.to_multiset(),
    {
        let fresh = insertion_sort(scanned);
        let out = fresh.clone();
        proof {
            assert forall|i: int| 0 <= i < out@.len() implies out@[i] == fresh@[i] by {
                assert(vstd::pervasive::cloned::<SttProfile>(fresh@[i], out@[i]));
            }
            assert(out@ =~= fresh@);
        }
        self.cache = fresh;
        out
    }

    /// The cached profile with `id`.
    pub fn get(&self, id: &str) -> (r: Option<SttProfile>)
        ensures
            r == find_stt_profile(self.cache_spec(), id@),
    {
        let mut i: usize = 0;
        assert(self.cache@.skip(0) =~= self.cache@);
        while i < self.cache.len()
            invariant
                i <= self.cache@.len(),
                find_stt_profile(self.cache@.skip(i as int), id@) == find_stt_profile(
                    self.cache@,
                    id@,
                ),
            decreases self.cache@.len() - i,
        {
            proof {
                let s = self.cache@.skip(i as int);
                assert(s[0] == self.cache@[i as int]);
                assert(s.drop_first() =~= self.cache@.skip(i + 1));
            }
            if str_eq(self.cache[i].id.as_str(), id) {
                return Some(self.cache[i].clone());
            }
            i = i + 1;
        }
        None
    }
}

} // verus!
