//! LLM profiles: named connections for refinement, one file per profile.
//! The filename stem is the identity. This module holds the profile shape,
//! id validation, the in-memory catalog, and the v1 migration decisions; the
//! directory scan and file writes are the caller's.
use vstd::prelude::*;
use vstd::string::StringExecFns;
use crate::lex::{compare_str, lemma_lex_total, lemma_lex_trans, lex_lt, Order};
use crate::settings::{LegacyLlmConfig, Settings};
use crate::sorting::{insertion_sort, sorted, Ordered};
use crate::strs::{find_first, find_first_exec, str_eq, to_chars, trim, trim_str};

verus! {

pub const PROFILE_VERSION: u32 = 1;

/// Id of the profile created from the v1 inline `llm` settings block.
pub const MIGRATED_PROFILE_ID: &'static str = "default";

#[derive(Debug, Clone, Copy, PartialEq, Eq)]
pub enum LlmProviderKind {
    Ollama,
    OpenaiCompatible,
}

/// A named LLM connection.
#[derive(Debug, PartialEq)]
pub struct LlmProfile {
    pub version: u32,
    /// Identity; always equals the filename stem.
    pub id: String,
    pub name: String,
    pub provider: LlmProviderKind,
    pub base_url: String,
    pub api_key: String,
    pub model: String,
    pub timeout_secs: u64,
}

impl Clone for LlmProfile {
    fn clone(&self) -> (r: Self)
        ensures
            r == *self,
    {
        LlmProfile {
            version: self.version,
            id: self.id.clone(),
            name: self.name.clone(),
            provider: self.provider,
            base_url: self.base_url.clone(),
            api_key: self.api_key.clone(),
            model: self.model.clone(),
            timeout_secs: self.timeout_secs,
        }
    }
}

impl Default for LlmProfile {
    fn default() -> (r: Self)
        ensures
            r.version == PROFILE_VERSION,
            r.id@ == Seq::<char>::empty(),
            r.name@ == Seq::<char>::empty(),
            r.provider == LlmProviderKind::Ollama,
            r.base_url@ == "http://localhost:11434"@,
            r.api_key@ == Seq::<char>::empty(),
            r.model@ == Seq::<char>::empty(),
            r.timeout_secs == 30,
    {
        LlmProfile {
            version: PROFILE_VERSION,
            id: String::new(),
            name: String::new(),
            provider: LlmProviderKind::Ollama,
            base_url: String::from_str("http://localhost:11434"),
            api_key: String::new(),
            model: String::new(),
            timeout_secs: 30,
        }
    }
}

/// Profiles sort by name, then id.
pub open spec fn profile_le(a: LlmProfile, b: LlmProfile) -> bool {
    lex_lt(a.name@, b.name@) || (a.name@ == b.name@ && !lex_lt(b.id@, a.id@))
}

impl Ordered for LlmProfile {
    open spec fn le(&self, other: &Self) -> bool {
        profile_le(*self, *other)
    }

    proof fn le_total(a: &Self, b: &Self) {
        lemma_lex_total(a.name@, b.name@);
        lemma_lex_total(a.id@, b.id@);
    }

    proof fn le_trans(a: &Self, b: &Self, c: &Self) {
        lemma_lex_total(a.name@, b.name@);
        lemma_lex_total(b.name@, c.name@);
        lemma_lex_total(a.id@, b.id@);
        lemma_lex_total(b.id@, c.id@);
        lemma_lex_total(a.id@, c.id@);
        if lex_lt(a.name@, b.name@) && lex_lt(b.name@, c.name@) {
            lemma_lex_trans(a.name@, b.name@, c.name@);
        }
        if lex_lt(a.id@, b.id@) && lex_lt(b.id@, c.id@) {
            lemma_lex_trans(a.id@, b.id@, c.id@);
        }
    }

    fn le_exec(&self, other: &Self) -> (r: bool) {
        match compare_str(self.name.as_str(), other.name.as_str()) {
            Order::Less => true,
            Order::Greater => false,
            Order::Equal => match compare_str(other.id.as_str(), self.id.as_str()) {
                Order::Less => false,
                _ => true,
            },
        }
    }
}

/// Ids double as filename stems: non-empty, at most 128 bytes, no `/`, `\`
/// or `..`, and not `.`.
pub open spec fn safe_id_spec(id: Seq<char>) -> bool {
    &&& id.len() > 0
    &&& vstd::utf8::encode_utf8(id).len() <= 128
    &&& !id.contains('/')
    &&& !id.contains('\\')
    &&& find_first(id, ".."@) is None
    &&& id != "."@
}

pub(crate) fn contains_char(s: &str, c: char) -> (b: bool)
    ensures
        b == s@.contains(c),
{
    let v = to_chars(s);
    let mut i: usize = 0;
    while i < v.len()
        invariant
            i <= v@.len(),
            v@ == s@,
            forall|j: int| 0 <= j < i ==> v@[j] != c,
        decreases v@.len() - i,
    {
        if v[i] == c {
            return true;
        }
        i = i + 1;
    }
    false
}

/// Whether `id` is safe to use as a filename stem.
pub fn safe_id(id: &str) -> (b: bool)
    ensures
        b == safe_id_spec(id@),
{
    let v = to_chars(id);
    let dots = to_chars("..");
    let bytes = id.as_bytes();
    !id.is_empty() && bytes.len() <= 128 && !contains_char(id, '/') && !contains_char(id, '\\')
        && find_first_exec(v.as_slice(), dots.as_slice()).is_none() && !str_eq(id, ".")
}

/// Why a profile could not be saved or deleted.
#[derive(Debug, Clone, PartialEq, Eq)]
pub enum ProfileError {
    /// The id could leave the profiles directory; carries the id.
    InvalidId(String),
}

/// A profile ready to be written: `profile` with the current version and a
/// default name when its name is blank.
pub open spec fn prepared(p: LlmProfile, q: LlmProfile) -> bool {
    &&& q.version == PROFILE_VERSION
    &&& q.id == p.id
    &&& q.name@ == (if trim(p.name@).len() == 0 {
        "Untitled profile"@
    } else {
        p.name@
    })
    &&& q.provider == p.provider
    &&& q.base_url == p.base_url
    &&& q.api_key == p.api_key
    &&& q.model == p.model
    &&& q.timeout_secs == p.timeout_secs
}

/// Validates and normalizes a profile before it is written: an unsafe id is
/// rejected; the version is stamped and a blank name becomes
/// "Untitled profile".
pub fn prepare_save(profile: LlmProfile) -> (r: Result<LlmProfile, ProfileError>)
    ensures
        safe_id_spec(profile.id@) <==> r is Ok,
        r matches Ok(q) ==> prepared(profile, q),
        r matches Err(ProfileError::InvalidId(id)) ==> id@ == profile.id@,
{
    if !safe_id(profile.id.as_str()) {
        return Err(ProfileError::InvalidId(profile.id));
    }
    let mut profile = profile;
    profile.version = PROFILE_VERSION;
    let t = trim_str(profile.name.as_str());
    if t.as_str().is_empty() {
        profile.name = String::from_str("Untitled profile");
    }
    Ok(profile)
}

/// Checks an id before its file is deleted.
pub fn check_delete(id: &str) -> (r: Result<(), ProfileError>)
    ensures
        safe_id_spec(id@) <==> r is Ok,
        r matches Err(ProfileError::InvalidId(s)) ==> s@ == id@,
{
    if safe_id(id) {
        Ok(())
    } else {
        Err(ProfileError::InvalidId(String::from_str(id)))
    }
}

/// Orders scanned profiles by name, then id.
pub fn sort_profiles(v: Vec<LlmProfile>) -> (r: Vec<LlmProfile>)
    ensures
        sorted(r@),
        r@.to_multiset() =~= v@.to_multiset(),
{
    insertion_sort(v)
}

/// The first profile in `ps` with id `id`.
pub open spec fn find_profile(ps: Seq<LlmProfile>, id: Seq<char>) -> Option<LlmProfile>
    decreases ps.len(),
{
    if ps.len() == 0 {
        None
    } else if ps[0].id@ == id {
        Some(ps[0])
    } else {
        find_profile(ps.drop_first(), id)
    }
}

proof fn lemma_find_profile_result(ps: Seq<LlmProfile>, id: Seq<char>)
    ensures
        find_profile(ps, id) matches Some(q) ==> ps.contains(q) && q.id@ == id,
        (exists|i: int| 0 <= i < ps.len() && #[trigger] ps[i].id@ == id) ==> find_profile(ps, id) is Some,
    decreases ps.len(),
{
    if ps.len() > 0 {
        lemma_find_profile_result(ps.drop_first(), id);
        if find_profile(ps, id) is Some && ps[0].id@ != id {
            let q = find_profile(ps, id)->0;
            let k = choose|k: int| 0 <= k < ps.drop_first().len() && ps.drop_first()[k] == q;
            assert(ps[k + 1] == q);
        }
        if ps[0].id@ != id && (exists|i: int| 0 <= i < ps.len() && #[trigger] ps[i].id@ == id) {
            let i = choose|i: int| 0 <= i < ps.len() && #[trigger] ps[i].id@ == id;
            assert(ps.drop_first()[i - 1].id@ == id);
        }
    }
}

/// Read after write: a profile that the last scan held is what `get`
/// returns for its id, the scan's ids being distinct (they are file names).
pub proof fn law_listed_profile_is_found(cache: Seq<LlmProfile>, scanned: Seq<LlmProfile>, p: LlmProfile)
    requires
        cache.to_multiset() =~= scanned.to_multiset(),
        scanned.contains(p),
        forall|i: int, j: int|
            0 <= i < scanned.len() && 0 <= j < scanned.len() && #[trigger] scanned[i].id@
                == #[trigger] scanned[j].id@ ==> i == j,
    ensures
        find_profile(cache, p.id@) == Some(p),
{
    broadcast use vstd::seq_lib::group_to_multiset_ensures;

    assert(scanned.to_multiset().count(p) > 0);
    assert(cache.contains(p));
    let k = choose|k: int| 0 <= k < cache.len() && cache[k] == p;
    assert(cache[k].id@ == p.id@);
    lemma_find_profile_result(cache, p.id@);
    let q = find_profile(cache, p.id@)->0;
    assert(scanned.to_multiset().count(q) > 0);
    let a = choose|a: int| 0 <= a < scanned.len() && scanned[a] == q;
    let b = choose|b: int| 0 <= b < scanned.len() && scanned[b] == p;
    assert(scanned[a].id@ == scanned[b].id@);
}

/// The profiles directory and the profiles last read from it.
pub struct ProfileManager {
    dir: String,
    cache: Vec<LlmProfile>,
}

impl ProfileManager {
    pub closed spec fn dir_spec(&self) -> Seq<char> {
        self.dir@
    }

    pub closed spec fn cache_spec(&self) -> Seq<LlmProfile> {
        self.cache@
    }

    /// A catalog for `dir` holding `scanned`, sorted by name then id.
    pub fn new(dir: String, scanned: Vec<LlmProfile>) -> (m: Self)
        ensures
            m.dir_spec() == dir@,
            sorted(m.cache_spec()),
            m.cache_spec().to_multiset() =~= scanned@.to_multiset(),
    {
        ProfileManager { dir, cache: sort_profiles(scanned) }
    }

    /// The profiles directory.
    pub fn dir(&self) -> (d: &str)
        ensures
            d@ == self.dir_spec(),
    {
        self.dir.as_str()
    }

    /// Replaces the catalog with a fresh scan and returns it, sorted.
    pub fn list(&mut self, scanned: Vec<LlmProfile>) -> (r: Vec<LlmProfile>)
        ensures
            final(self).dir_spec() == old(self).dir_spec(),
            final(self).cache_spec() == r@,
            sorted(r@),
            r@.to_multiset() =~= scanned@.to_multiset(),
    {
        let fresh = sort_profiles(scanned);
        let out = fresh.clone();
        proof {
            assert forall|i: int| 0 <= i < out@.len() implies out@[i] == fresh@[i] by {
                assert(vstd::pervasive::cloned::<LlmProfile>(fresh@[i], out@[i]));
            }
            assert(out@ =~= fresh@);
        }
        self.cache = fresh;
        out
    }

    /// The cached profile with `id`.
    pub fn get(&self, id: &str) -> (r: Option<LlmProfile>)
        ensures
            r == find_profile(self.cache_spec(), id@),
    {
        let mut i: usize = 0;
        assert(self.cache@.skip(0) =~= self.cache@);
        while i < self.cache.len()
            invariant
                i <= self.cache@.len(),
                find_profile(self.cache@.skip(i as int), id@) == find_profile(self.cache@, id@),
            decreases self.cache@.len() - i,
        {
            proof {
                let s = self.cache@.skip(i as int);
                assert(s[0] == self.cache@[i as int]);
                assert(s.drop_first() =~= self.cache@.skip(i + 1));
            }
            if str_eq(self.cache[i].id.as_str(), id) {
                return Some(self.cache[i].clone());
            }
            i = i + 1;
        }
        None
    }

    /// The selected profile, or `None` when "No AI" (`""`) is chosen or the
    /// pointer is dangling.
    pub fn active(&self, active_id: &str) -> (r: Option<LlmProfile>)
        ensures
            active_id@.len() == 0 ==> r is None,
            active_id@.len() > 0 ==> r == find_profile(self.cache_spec(), active_id@),
    {
        if active_id.is_empty() {
            None
        } else {
            self.get(active_id)
        }
    }
}

/// The provider a v1 block names, if it names one.
pub open spec fn legacy_provider(provider: Seq<char>) -> Option<LlmProviderKind> {
    if provider == "ollama"@ {
        Some(LlmProviderKind::Ollama)
    } else if provider == "openaiCompatible"@ {
        Some(LlmProviderKind::OpenaiCompatible)
    } else {
        None
    }
}

pub open spec fn provider_label(p: LlmProviderKind) -> Seq<char> {
    match p {
        LlmProviderKind::Ollama => "Ollama"@,
        LlmProviderKind::OpenaiCompatible => "OpenAI-compatible"@,
    }
}

/// The profile a v1 block migrates into.
pub open spec fn migrated(legacy: LegacyLlmConfig, provider: LlmProviderKind, p: LlmProfile) -> bool {
    &&& p.version == PROFILE_VERSION
    &&& p.id@ == MIGRATED_PROFILE_ID@
    &&& p.name@ == (if trim(legacy.model@).len() == 0 {
        provider_label(provider)
    } else {
        provider_label(provider) + " — "@ + legacy.model@
    })
    &&& p.provider == provider
    &&& p.base_url == legacy.base_url
    &&& p.api_key == legacy.api_key
    &&& p.model == legacy.model
    &&& p.timeout_secs == (if legacy.timeout_secs == 0 {
        30
    } else {
        legacy.timeout_secs
    })
}

/// The profile to create from a v1 inline block: `None` for "none" or an
/// unknown provider.
pub fn legacy_profile(legacy: &LegacyLlmConfig) -> (r: Option<LlmProfile>)
    ensures
        match legacy_provider(legacy.provider@) {
            None => r is None,
            Some(k) => r matches Some(p) && migrated(*legacy, k, p),
        },
{
    let provider = if str_eq(legacy.provider.as_str(), "ollama") {
        LlmProviderKind::Ollama
    } else if str_eq(legacy.provider.as_str(), "openaiCompatible") {
        LlmProviderKind::OpenaiCompatible
    } else {
        return None;
    };
    let label = match provider {
        LlmProviderKind::Ollama => "Ollama",
        LlmProviderKind::OpenaiCompatible => "OpenAI-compatible",
    };
    let t = trim_str(legacy.model.as_str());
    let name = if t.as_str().is_empty() {
        String::from_str(label)
    } else {
        let mut n = String::from_str(label);
        n.append(" — ");
        n.append(legacy.model.as_str());
        n
    };
    Some(
        LlmProfile {
            version: PROFILE_VERSION,
            id: String::from_str(MIGRATED_PROFILE_ID),
            name,
            provider,
            base_url: legacy.base_url.clone(),
            api_key: legacy.api_key.clone(),
            model: legacy.model.clone(),
            timeout_secs: if legacy.timeout_secs == 0 {
                30
            } else {
                legacy.timeout_secs
            },
        },
    )
}

/// Whether the v1 block must become a profile file first.
pub open spec fn needs_migration_file(s: Settings) -> bool {
    s.llm matches Some(l) && legacy_provider(l.provider@) is Some
}

/// The active pointer once any migration has landed.
pub open spec fn migrated_active(s: Settings) -> Seq<char> {
    if needs_migration_file(s) {
        MIGRATED_PROFILE_ID@
    } else {
        s.active_llm_profile_id@
    }
}

/// Whether that pointer names no cached profile.
pub open spec fn dangling(s: Settings, cache: Seq<LlmProfile>) -> bool {
    migrated_active(s).len() > 0 && find_profile(cache, migrated_active(s)) is None
}

/// One-time bridge from v1 settings plus pointer repair, given whether the
/// migrated profile file was written (`saved`; ignored when no file is
/// needed) and the catalog rescanned afterwards. Returns the settings to
/// persist, or `None` when nothing changes — or when the file could not be
/// written, so the v1 block stays for a retry.
pub fn reconcile(current: &Settings, saved: bool, profiles: &ProfileManager) -> (r: Option<Settings>)
    ensures
        needs_migration_file(*current) && !saved ==> r is None,
        !(needs_migration_file(*current) && !saved) ==> (if current.llm is None && !dangling(
            *current,
            profiles.cache_spec(),
        ) {
            r is None
        } else {
            r matches Some(n) && n.llm is None && n.active_llm_profile_id@ == (if dangling(
                *current,
                profiles.cache_spec(),
            ) {
                Seq::<char>::empty()
            } else {
                migrated_active(*current)
            }) && crate::settings::same_except_active_and_llm(*current, n)
        }),
{
    let needs_file = match &current.llm {
        Some(l) => {
            let p = legacy_profile(l);
            p.is_some()
        },
        None => false,
    };
    if needs_file && !saved {
        return None;
    }
    let mut next = current.clone();
    let mut dirty = false;
    if current.llm.is_some() {
        next.llm = None;
        dirty = true;
        if needs_file {
            next.active_llm_profile_id = String::from_str(MIGRATED_PROFILE_ID);
        }
    }
    if !next.active_llm_profile_id.as_str().is_empty() && profiles.get(
        next.active_llm_profile_id.as_str(),
    ).is_none() {
        next.active_llm_profile_id = String::new();
        dirty = true;
    }
    if dirty {
        Some(next)
    } else {
        None
    }
}

/// Reconciling settles: the settings a reconcile produces (no v1 block, and
/// the pointer either cleared or naming a profile of the same catalog) need
/// no migration file and hold no dangling pointer, so a second reconcile
/// against that catalog changes nothing.
pub proof fn law_reconcile_settles(current: Settings, next: Settings, cache: Seq<LlmProfile>)
    requires
        next.llm is None,
        next.active_llm_profile_id@ == (if dangling(current, cache) {
            Seq::<char>::empty()
        } else {
            migrated_active(current)
        }),
    ensures
        !needs_migration_file(next),
        !dangling(next, cache),
{
}

} // verus!
