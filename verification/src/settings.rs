//! The settings document: its shapes, defaults, and the repair rules applied
//! before every save. Reading and writing `settings.json` is the caller's job.
use vstd::prelude::*;
use vstd::string::StringExecFns;
use crate::models::DEFAULT_STT_MODEL_ID;
use crate::prompts;
use crate::strs::{lead_len, trail_len, trim, trim_str, CharClass};

verus! {

pub const SETTINGS_VERSION: u32 = 6;

pub const MAX_RECORDING_SECS: u64 = 300;

/// Emitted after every backend-initiated settings change.
pub const SETTINGS_CHANGED_EVENT: &'static str = "settings-changed";

#[derive(Debug, Clone, Copy, PartialEq, Eq)]
pub enum HotkeyBehavior {
    Hold,
    Toggle,
}

/// Window theme.
#[derive(Debug, Clone, Copy, PartialEq, Eq)]
pub enum Appearance {
    System,
    Light,
    Dark,
}

/// How synthesized text reaches the active app.
#[derive(Debug, Clone, Copy, PartialEq, Eq)]
pub enum InsertMethod {
    Paste,
    Clipboard,
}

/// The v1 inline LLM connection, read once for migration into a profile.
#[derive(Debug, PartialEq)]
pub struct LegacyLlmConfig {
    /// "none" | "ollama" | "openaiCompatible".
    pub provider: String,
    pub base_url: String,
    pub api_key: String,
    pub model: String,
    pub timeout_secs: u64,
}

impl Clone for LegacyLlmConfig {
    fn clone(&self) -> (r: Self)
        ensures
            r == *self,
    {
        LegacyLlmConfig {
            provider: self.provider.clone(),
            base_url: self.base_url.clone(),
            api_key: self.api_key.clone(),
            model: self.model.clone(),
            timeout_secs: self.timeout_secs,
        }
    }
}

impl Default for LegacyLlmConfig {
    fn default() -> (r: Self)
        ensures
            r.provider@ == Seq::<char>::empty(),
            r.base_url@ == Seq::<char>::empty(),
            r.api_key@ == Seq::<char>::empty(),
            r.model@ == Seq::<char>::empty(),
            r.timeout_secs == 0,
    {
        LegacyLlmConfig {
            provider: String::new(),
            base_url: String::new(),
            api_key: String::new(),
            model: String::new(),
            timeout_secs: 0,
        }
    }
}

/// A personal-dictionary entry: a misheard phrase and its fix.
#[derive(Debug, PartialEq)]
pub struct DictionaryEntry {
    pub from: String,
    pub to: String,
}

impl Clone for DictionaryEntry {
    fn clone(&self) -> (r: Self)
        ensures
            r == *self,
    {
        DictionaryEntry { from: self.from.clone(), to: self.to.clone() }
    }
}

/// A spoken shorthand that expands into a longer block on insert.
#[derive(Debug, PartialEq)]
pub struct Snippet {
    pub trigger: String,
    pub expansion: String,
    /// Expand only when the trigger is the whole dictation.
    pub whole_utterance: bool,
}

impl Clone for Snippet {
    fn clone(&self) -> (r: Self)
        ensures
            r == *self,
    {
        Snippet {
            trigger: self.trigger.clone(),
            expansion: self.expansion.clone(),
            whole_utterance: self.whole_utterance,
        }
    }
}

/// A named, shortcut-bound instruction applied to a selection.
#[derive(Debug, PartialEq)]
pub struct Prompt {
    pub id: String,
    pub name: String,
    pub instruction: String,
    /// Accelerator; empty = not yet bound.
    pub shortcut: String,
    /// Shipped by the app and restored if deleted.
    pub built_in: bool,
}

impl Clone for Prompt {
    fn clone(&self) -> (r: Self)
        ensures
            r == *self,
    {
        Prompt {
            id: self.id.clone(),
            name: self.name.clone(),
            instruction: self.instruction.clone(),
            shortcut: self.shortcut.clone(),
            built_in: self.built_in,
        }
    }
}

/// The whole settings document.
#[derive(Debug, PartialEq)]
pub struct Settings {
    pub version: u32,
    pub dictation_hotkey: String,
    pub dictation_hotkey_behavior: HotkeyBehavior,
    /// Reveals the word-level diff of the last result. "" disables it.
    pub change_overlay_hotkey: String,
    /// Active LLM profile id; "" = no AI.
    pub active_llm_profile_id: String,
    pub dictionary: Vec<DictionaryEntry>,
    pub snippets: Vec<Snippet>,
    pub prompts: Vec<Prompt>,
    /// Prompt run automatically after dictation, or None.
    pub post_dictation_transform_id: Option<String>,
    pub stt_model_id: String,
    pub language: String,
    /// Input device by exact name; None = system default.
    pub input_device_name: Option<String>,
    /// v1 migration only.
    pub llm: Option<LegacyLlmConfig>,
    pub launch_at_login: bool,
    pub appearance: Appearance,
    pub tips_enabled: bool,
    pub tips_seen: Vec<String>,
    pub dictation_count: u64,
    pub last_tip_shown_at: String,
    pub history_enabled: bool,
    /// Days a history entry is kept; 0 = keep forever.
    pub history_retention_days: u32,
    pub confirmed_stt_profiles: Vec<String>,
    pub show_in_dock: bool,
    pub scratchpad_enabled: bool,
    pub onboarding_completed: bool,
}

fn clone_opt_string(o: &Option<String>) -> (r: Option<String>)
    ensures
        r == *o,
{
    match o {
        Some(s) => Some(s.clone()),
        None => None,
    }
}

/// Two settings documents hold the same values (vectors compared by
/// contents).
pub open spec fn same_settings(a: Settings, b: Settings) -> bool {
    &&& a.version == b.version
    &&& a.dictation_hotkey == b.dictation_hotkey
    &&& a.dictation_hotkey_behavior == b.dictation_hotkey_behavior
    &&& a.change_overlay_hotkey == b.change_overlay_hotkey
    &&& a.active_llm_profile_id == b.active_llm_profile_id
    &&& a.dictionary@ == b.dictionary@
    &&& a.snippets@ == b.snippets@
    &&& a.prompts@ == b.prompts@
    &&& a.post_dictation_transform_id == b.post_dictation_transform_id
    &&& a.stt_model_id == b.stt_model_id
    &&& a.language == b.language
    &&& a.input_device_name == b.input_device_name
    &&& a.llm == b.llm
    &&& a.launch_at_login == b.launch_at_login
    &&& a.appearance == b.appearance
    &&& a.tips_enabled == b.tips_enabled
    &&& a.tips_seen@ == b.tips_seen@
    &&& a.dictation_count == b.dictation_count
    &&& a.last_tip_shown_at == b.last_tip_shown_at
    &&& a.history_enabled == b.history_enabled
    &&& a.history_retention_days == b.history_retention_days
    &&& a.confirmed_stt_profiles@ == b.confirmed_stt_profiles@
    &&& a.show_in_dock == b.show_in_dock
    &&& a.scratchpad_enabled == b.scratchpad_enabled
    &&& a.onboarding_completed == b.onboarding_completed
}

impl Clone for Settings {
    fn clone(&self) -> (r: Self)
        ensures
            same_settings(r, *self),
    {
        let llm = match &self.llm {
            Some(l) => Some(l.clone()),
            None => None,
        };
        let dictionary = self.dictionary.clone();
        let snippets = self.snippets.clone();
        let prompts = self.prompts.clone();
        let tips_seen = self.tips_seen.clone();
        let confirmed = self.confirmed_stt_profiles.clone();
        proof {
            assert forall|i: int| 0 <= i < dictionary@.len() implies dictionary@[i] == self.dictionary@[i] by {
                assert(cloned::<DictionaryEntry>(self.dictionary@[i], dictionary@[i]));
            }
            assert forall|i: int| 0 <= i < snippets@.len() implies snippets@[i] == self.snippets@[i] by {
                assert(cloned::<Snippet>(self.snippets@[i], snippets@[i]));
            }
            assert forall|i: int| 0 <= i < prompts@.len() implies prompts@[i] == self.prompts@[i] by {
                assert(cloned::<Prompt>(self.prompts@[i], prompts@[i]));
            }
            assert forall|i: int| 0 <= i < tips_seen@.len() implies tips_seen@[i] == self.tips_seen@[i] by {
                assert(cloned::<String>(self.tips_seen@[i], tips_seen@[i]));
            }
            assert forall|i: int| 0 <= i < confirmed@.len() implies confirmed@[i] == self.confirmed_stt_profiles@[i] by {
                assert(cloned::<String>(self.confirmed_stt_profiles@[i], confirmed@[i]));
            }
            assert(dictionary@ =~= self.dictionary@);
            assert(snippets@ =~= self.snippets@);
            assert(prompts@ =~= self.prompts@);
            assert(tips_seen@ =~= self.tips_seen@);
            assert(confirmed@ =~= self.confirmed_stt_profiles@);
        }
        Settings {
            version: self.version,
            dictation_hotkey: self.dictation_hotkey.clone(),
            dictation_hotkey_behavior: self.dictation_hotkey_behavior,
            change_overlay_hotkey: self.change_overlay_hotkey.clone(),
            active_llm_profile_id: self.active_llm_profile_id.clone(),
            dictionary,
            snippets,
            prompts,
            post_dictation_transform_id: clone_opt_string(&self.post_dictation_transform_id),
            stt_model_id: self.stt_model_id.clone(),
            language: self.language.clone(),
            input_device_name: clone_opt_string(&self.input_device_name),
            llm,
            launch_at_login: self.launch_at_login,
            appearance: self.appearance,
            tips_enabled: self.tips_enabled,
            tips_seen,
            dictation_count: self.dictation_count,
            last_tip_shown_at: self.last_tip_shown_at.clone(),
            history_enabled: self.history_enabled,
            history_retention_days: self.history_retention_days,
            confirmed_stt_profiles: confirmed,
            show_in_dock: self.show_in_dock,
            scratchpad_enabled: self.scratchpad_enabled,
            onboarding_completed: self.onboarding_completed,
        }
    }
}

/// What a fresh install starts with.
pub open spec fn is_default_settings(s: Settings) -> bool {
    &&& s.version == SETTINGS_VERSION
    &&& s.dictation_hotkey@ == "Alt+Space"@
    &&& s.dictation_hotkey_behavior == HotkeyBehavior::Hold
    &&& s.change_overlay_hotkey@ == "Alt+O"@
    &&& s.active_llm_profile_id@ == Seq::<char>::empty()
    &&& s.dictionary@.len() == 0
    &&& s.snippets@.len() == 0
    &&& s.prompts@.len() == 1
    &&& prompts::polish_prompt_spec(s.prompts@[0])
    &&& s.post_dictation_transform_id is None
    &&& s.stt_model_id@ == DEFAULT_STT_MODEL_ID@
    &&& s.language@ == "auto"@
    &&& s.input_device_name is None
    &&& s.llm is None
    &&& !s.launch_at_login
    &&& s.appearance == Appearance::System
    &&& s.tips_enabled
    &&& s.tips_seen@.len() == 0
    &&& s.dictation_count == 0
    &&& s.last_tip_shown_at@ == Seq::<char>::empty()
    &&& !s.history_enabled
    &&& s.history_retention_days == 0
    &&& s.confirmed_stt_profiles@.len() == 0
    &&& !s.show_in_dock
    &&& !s.scratchpad_enabled
    &&& !s.onboarding_completed
}

impl Default for Settings {
    fn default() -> (s: Self)
        ensures
            is_default_settings(s),
    {
        Settings {
            version: SETTINGS_VERSION,
            dictation_hotkey: String::from_str("Alt+Space"),
            dictation_hotkey_behavior: HotkeyBehavior::Hold,
            change_overlay_hotkey: String::from_str("Alt+O"),
            active_llm_profile_id: String::new(),
            dictionary: Vec::new(),
            snippets: Vec::new(),
            prompts: prompts::built_in_prompts(),
            post_dictation_transform_id: None,
            stt_model_id: String::from_str(DEFAULT_STT_MODEL_ID),
            language: String::from_str("auto"),
            input_device_name: None,
            llm: None,
            launch_at_login: false,
            appearance: Appearance::System,
            tips_enabled: true,
            tips_seen: Vec::new(),
            dictation_count: 0,
            last_tip_shown_at: String::new(),
            history_enabled: false,
            history_retention_days: 0,
            confirmed_stt_profiles: Vec::new(),
            show_in_dock: false,
            scratchpad_enabled: false,
            onboarding_completed: false,
        }
    }
}

/// A dictionary entry survives normalization when both sides are non-blank.
pub open spec fn keeps_entry(e: DictionaryEntry) -> bool {
    trim(e.from@).len() > 0 && trim(e.to@).len() > 0
}

/// A snippet survives when its trigger is non-blank and its expansion
/// non-empty.
pub open spec fn keeps_snippet(s: Snippet) -> bool {
    trim(s.trigger@).len() > 0 && s.expansion@.len() > 0
}

/// A prompt survives when it has a non-blank id.
pub open spec fn keeps_prompt(p: Prompt) -> bool {
    trim(p.id@).len() > 0
}

pub open spec fn has_prompt_id(prompts: Seq<Prompt>, id: Seq<char>) -> bool {
    exists|i: int| 0 <= i < prompts.len() && #[trigger] prompts[i].id@ == id
}

/// `kept` with each built-in whose id is missing appended, in order.
pub open spec fn restore_built_ins(kept: Seq<Prompt>, built_ins: Seq<Prompt>) -> Seq<Prompt>
    decreases built_ins.len(),
{
    if built_ins.len() == 0 {
        kept
    } else {
        let prev = restore_built_ins(kept, built_ins.drop_last());
        if has_prompt_id(prev, built_ins.last().id@) {
            prev
        } else {
            prev.push(built_ins.last())
        }
    }
}

/// The post-dictation transform id after repair: kept only when it is
/// non-blank and names an existing prompt.
pub open spec fn repaired_transform_id(id: Option<String>, prompts: Seq<Prompt>) -> Option<String> {
    match id {
        Some(s) => if trim(s@).len() == 0 || !has_prompt_id(prompts, s@) {
            None
        } else {
            Some(s)
        },
        None => None,
    }
}

/// `b` holds the values of `a` except possibly the active profile pointer and
/// the v1 block.
pub open spec fn same_except_active_and_llm(a: Settings, b: Settings) -> bool {
    &&& a.version == b.version
    &&& a.dictation_hotkey == b.dictation_hotkey
    &&& a.dictation_hotkey_behavior == b.dictation_hotkey_behavior
    &&& a.change_overlay_hotkey == b.change_overlay_hotkey
    &&& a.dictionary@ == b.dictionary@
    &&& a.snippets@ == b.snippets@
    &&& a.prompts@ == b.prompts@
    &&& a.post_dictation_transform_id == b.post_dictation_transform_id
    &&& a.stt_model_id == b.stt_model_id
    &&& a.language == b.language
    &&& a.input_device_name == b.input_device_name
    &&& a.launch_at_login == b.launch_at_login
    &&& a.appearance == b.appearance
    &&& a.tips_enabled == b.tips_enabled
    &&& a.tips_seen@ == b.tips_seen@
    &&& a.dictation_count == b.dictation_count
    &&& a.last_tip_shown_at == b.last_tip_shown_at
    &&& a.history_enabled == b.history_enabled
    &&& a.history_retention_days == b.history_retention_days
    &&& a.confirmed_stt_profiles@ == b.confirmed_stt_profiles@
    &&& a.show_in_dock == b.show_in_dock
    &&& a.scratchpad_enabled == b.scratchpad_enabled
    &&& a.onboarding_completed == b.onboarding_completed
}

/// True when `b` is `a` with everything but the normalized fields unchanged.
pub open spec fn same_except_normalized(a: Settings, b: Settings) -> bool {
    &&& b.dictation_hotkey == a.dictation_hotkey
    &&& b.dictation_hotkey_behavior == a.dictation_hotkey_behavior
    &&& b.change_overlay_hotkey == a.change_overlay_hotkey
    &&& b.active_llm_profile_id == a.active_llm_profile_id
    &&& b.stt_model_id == a.stt_model_id
    &&& b.language == a.language
    &&& b.input_device_name == a.input_device_name
    &&& b.llm == a.llm
    &&& b.launch_at_login == a.launch_at_login
    &&& b.appearance == a.appearance
    &&& b.tips_enabled == a.tips_enabled
    &&& b.tips_seen == a.tips_seen
    &&& b.dictation_count == a.dictation_count
    &&& b.last_tip_shown_at == a.last_tip_shown_at
    &&& b.history_enabled == a.history_enabled
    &&& b.history_retention_days == a.history_retention_days
    &&& b.confirmed_stt_profiles == a.confirmed_stt_profiles
    &&& b.show_in_dock == a.show_in_dock
    &&& b.scratchpad_enabled == a.scratchpad_enabled
    &&& b.onboarding_completed == a.onboarding_completed
}

/// The normalized form of a settings document.
pub open spec fn normalized(a: Settings, b: Settings, built_ins: Seq<Prompt>) -> bool {
    let prompts = restore_built_ins(a.prompts@.filter(|p: Prompt| keeps_prompt(p)), built_ins);
    &&& same_except_normalized(a, b)
    &&& b.version == SETTINGS_VERSION
    &&& b.dictionary@ == a.dictionary@.filter(|e: DictionaryEntry| keeps_entry(e))
    &&& b.snippets@ == a.snippets@.filter(|s: Snippet| keeps_snippet(s))
    &&& b.prompts@ == prompts
    &&& b.post_dictation_transform_id == repaired_transform_id(a.post_dictation_transform_id, prompts)
}

fn is_blank(s: &String) -> (b: bool)
    ensures
        b == (trim(s@).len() == 0),
{
    let t = trim_str(s.as_str());
    t.as_str().is_empty()
}

fn find_prompt_id(prompts: &Vec<Prompt>, id: &String) -> (b: bool)
    ensures
        b == has_prompt_id(prompts@, id@),
{
    let mut i: usize = 0;
    while i < prompts.len()
        invariant
            i <= prompts@.len(),
            forall|j: int| 0 <= j < i ==> prompts@[j].id@ != id@,
        decreases prompts@.len() - i,
    {
        if prompts[i].id == *id {
            return true;
        }
        i = i + 1;
    }
    false
}

impl Settings {
    /// Repairs invariants instead of rejecting input: blank dictionary rows
    /// and snippets are dropped, id-less prompts are dropped, a deleted
    /// built-in prompt is restored (an existing one is left as edited), a
    /// post-dictation transform id naming no prompt is cleared, and the
    /// version is stamped current.
    pub fn normalize(&mut self)
        ensures
            exists|b: Seq<Prompt>|
                b.len() == 1 && prompts::polish_prompt_spec(b[0]) && normalized(
                    *old(self),
                    *final(self),
                    b,
                ),
    {
        let ghost orig = *self;
        let mut dictionary: Vec<DictionaryEntry> = Vec::new();
        let mut i: usize = 0;
        while i < self.dictionary.len()
            invariant
                i <= self.dictionary@.len(),
                *self == orig,
                dictionary@ == self.dictionary@.take(i as int).filter(
                    |e: DictionaryEntry| keeps_entry(e),
                ),
            decreases self.dictionary@.len() - i,
        {
            let e = &self.dictionary[i];
            proof {
                reveal(Seq::filter);
                assert(self.dictionary@.take(i + 1).drop_last() =~= self.dictionary@.take(i as int));
            }
            if !is_blank(&e.from) && !is_blank(&e.to) {
                dictionary.push(e.clone());
            }
            i = i + 1;
        }
        assert(self.dictionary@.take(i as int) =~= self.dictionary@);
        let mut snippets: Vec<Snippet> = Vec::new();
        let mut i: usize = 0;
        while i < self.snippets.len()
            invariant
                i <= self.snippets@.len(),
                *self == orig,
                snippets@ == self.snippets@.take(i as int).filter(|s: Snippet| keeps_snippet(s)),
            decreases self.snippets@.len() - i,
        {
            let s = &self.snippets[i];
            proof {
                reveal(Seq::filter);
                assert(self.snippets@.take(i + 1).drop_last() =~= self.snippets@.take(i as int));
            }
            if !is_blank(&s.trigger) && !s.expansion.as_str().is_empty() {
                snippets.push(s.clone());
            }
            i = i + 1;
        }
        assert(self.snippets@.take(i as int) =~= self.snippets@);
        let mut prompts: Vec<Prompt> = Vec::new();
        let mut i: usize = 0;
        while i < self.prompts.len()
            invariant
                i <= self.prompts@.len(),
                *self == orig,
                prompts@ == self.prompts@.take(i as int).filter(|p: Prompt| keeps_prompt(p)),
            decreases self.prompts@.len() - i,
        {
            let p = &self.prompts[i];
            proof {
                reveal(Seq::filter);
                assert(self.prompts@.take(i + 1).drop_last() =~= self.prompts@.take(i as int));
            }
            if !is_blank(&p.id) {
                prompts.push(p.clone());
            }
            i = i + 1;
        }
        assert(self.prompts@.take(i as int) =~= self.prompts@);
        let ghost kept = prompts@;
        let built_ins = prompts::built_in_prompts();
        let mut k: usize = 0;
        while k < built_ins.len()
            invariant
                k <= built_ins@.len(),
                prompts@ == restore_built_ins(kept, built_ins@.take(k as int)),
            decreases built_ins@.len() - k,
        {
            proof {
                assert(built_ins@.take(k + 1).drop_last() =~= built_ins@.take(k as int));
            }
            if !find_prompt_id(&prompts, &built_ins[k].id) {
                prompts.push(built_ins[k].clone());
            }
            k = k + 1;
        }
        assert(built_ins@.take(k as int) =~= built_ins@);
        let transform = match &self.post_dictation_transform_id {
            Some(id) => {
                if is_blank(id) || !find_prompt_id(&prompts, id) {
                    None
                } else {
                    Some(id.clone())
                }
            },
            None => None,
        };
        self.dictionary = dictionary;
        self.snippets = snippets;
        self.prompts = prompts;
        self.post_dictation_transform_id = transform;
        self.version = SETTINGS_VERSION;
        proof {
            assert(normalized(orig, *self, built_ins@));
        }
    }
}

proof fn lemma_filter_idempotent<A>(s: Seq<A>, pred: spec_fn(A) -> bool)
    ensures
        s.filter(pred).filter(pred) == s.filter(pred),
    decreases s.len(),
{
    reveal(Seq::filter);
    if s.len() > 0 {
        lemma_filter_idempotent(s.drop_last(), pred);
        let f = s.drop_last().filter(pred);
        if pred(s.last()) {
            assert(f.push(s.last()).drop_last() =~= f);
        }
    }
}

proof fn lemma_all_kept(s: Seq<Prompt>)
    requires
        forall|i: int| 0 <= i < s.len() ==> keeps_prompt(#[trigger] s[i]),
    ensures
        s.filter(|p: Prompt| keeps_prompt(p)) == s,
    decreases s.len(),
{
    reveal(Seq::filter);
    if s.len() > 0 {
        assert forall|i: int| 0 <= i < s.drop_last().len() implies keeps_prompt(
            #[trigger] s.drop_last()[i],
        ) by {
            assert(s.drop_last()[i] == s[i]);
        }
        lemma_all_kept(s.drop_last());
        assert(keeps_prompt(s[s.len() - 1]));
        assert(s.drop_last().push(s.last()) =~= s);
    }
}

/// Normalizing is idempotent: normalizing an already normalized document
/// (as every save does) changes nothing.
pub proof fn law_normalize_is_idempotent(a: Settings, b: Settings, c: Settings, built_ins: Seq<Prompt>)
    requires
        built_ins.len() == 1,
        prompts::polish_prompt_spec(built_ins[0]),
        normalized(a, b, built_ins),
        normalized(b, c, built_ins),
    ensures
        same_settings(b, c),
{
    reveal_strlit("polish");
    let pol = built_ins[0];
    lemma_filter_idempotent(a.dictionary@, |e: DictionaryEntry| keeps_entry(e));
    lemma_filter_idempotent(a.snippets@, |s: Snippet| keeps_snippet(s));
    let kept = a.prompts@.filter(|p: Prompt| keeps_prompt(p));
    broadcast use vstd::seq_lib::group_filter_ensures;

    assert(built_ins.drop_last() =~= Seq::<Prompt>::empty());
    assert(restore_built_ins(kept, built_ins.drop_last()) == kept);
    assert(built_ins.last() == pol);
    // The polish id is not blank.
    assert(pol.id@ == "polish"@);
    assert(trail_len(pol.id@, CharClass::Whitespace) == 0);
    assert(pol.id@.take(pol.id@.len() as int) =~= pol.id@);
    assert(lead_len(pol.id@, CharClass::Whitespace) == 0);
    assert(pol.id@.skip(0) =~= pol.id@);
    assert(keeps_prompt(pol));
    let bp = b.prompts@;
    assert forall|i: int| 0 <= i < bp.len() implies keeps_prompt(#[trigger] bp[i]) by {
        if i < kept.len() {
            assert(bp[i] == kept[i]);
        } else {
            assert(bp[i] == pol);
        }
    }
    lemma_all_kept(bp);
    assert(has_prompt_id(bp, pol.id@)) by {
        if has_prompt_id(kept, pol.id@) {
            let j = choose|j: int| 0 <= j < kept.len() && #[trigger] kept[j].id@ == pol.id@;
            assert(bp[j].id@ == pol.id@);
        } else {
            assert(bp[kept.len() as int].id@ == pol.id@);
        }
    }
    assert(restore_built_ins(bp, built_ins.drop_last()) == bp);
    assert(c.prompts@ == bp);
}

/// What a save stores (`SettingsManager::set`, and `get` after it): the
/// version stamped current; the dictionary rows and snippets that survive,
/// in order; the prompts with a non-blank id, in order, and the built-in
/// Polish appended only when none of them has its id, so every stored prompt
/// has an id and Polish is always there; a post-dictation transform id only
/// where it names a stored prompt.
pub proof fn law_saved_settings_are_repaired(s: Settings, n: Settings, built_ins: Seq<Prompt>)
    requires
        built_ins.len() == 1,
        prompts::polish_prompt_spec(built_ins[0]),
        normalized(s, n, built_ins),
    ensures
        n.version == SETTINGS_VERSION,
        n.dictionary@ == s.dictionary@.filter(|e: DictionaryEntry| keeps_entry(e)),
        n.snippets@ == s.snippets@.filter(|t: Snippet| keeps_snippet(t)),
        ({
            let kept = s.prompts@.filter(|p: Prompt| keeps_prompt(p));
            n.prompts@ == (if has_prompt_id(kept, prompts::POLISH_PROMPT_ID@) {
                kept
            } else {
                kept.push(built_ins[0])
            })
        }),
        has_prompt_id(n.prompts@, prompts::POLISH_PROMPT_ID@),
        forall|i: int| 0 <= i < n.prompts@.len() ==> keeps_prompt(#[trigger] n.prompts@[i]),
        n.post_dictation_transform_id matches Some(id) ==> has_prompt_id(n.prompts@, id@),
{
    broadcast use vstd::seq_lib::group_filter_ensures;

    reveal_strlit("polish");
    let pol = built_ins[0];
    let kept = s.prompts@.filter(|p: Prompt| keeps_prompt(p));
    assert(built_ins.drop_last() =~= Seq::<Prompt>::empty());
    assert(restore_built_ins(kept, built_ins.drop_last()) == kept);
    assert(built_ins.last() == pol);
    assert(pol.id@ == prompts::POLISH_PROMPT_ID@);
    assert(pol.id@ == "polish"@);
    assert(trail_len(pol.id@, CharClass::Whitespace) == 0);
    assert(pol.id@.take(pol.id@.len() as int) =~= pol.id@);
    assert(lead_len(pol.id@, CharClass::Whitespace) == 0);
    assert(pol.id@.skip(0) =~= pol.id@);
    assert(keeps_prompt(pol));
    let bp = n.prompts@;
    assert forall|i: int| 0 <= i < bp.len() implies keeps_prompt(#[trigger] bp[i]) by {
        if i < kept.len() {
            assert(bp[i] == kept[i]);
        } else {
            assert(bp[i] == pol);
        }
    }
    assert(has_prompt_id(bp, pol.id@)) by {
        if has_prompt_id(kept, pol.id@) {
            let j = choose|j: int| 0 <= j < kept.len() && #[trigger] kept[j].id@ == pol.id@;
            assert(bp[j].id@ == pol.id@);
        } else {
            assert(bp[kept.len() as int].id@ == pol.id@);
        }
    }
}

/// The settings document held in memory, with the path it persists to.
pub struct SettingsManager {
    path: String,
    current: Settings,
}

impl SettingsManager {
    pub closed spec fn current_spec(&self) -> Settings {
        self.current
    }

    pub closed spec fn path_spec(&self) -> Seq<char> {
        self.path@
    }

    /// Holds `settings`, normalized, as the current document for `path`.
    pub fn new(path: String, settings: Settings) -> (m: Self)
        ensures
            m.path_spec() == path@,
            exists|b: Seq<Prompt>|
                b.len() == 1 && prompts::polish_prompt_spec(b[0]) && normalized(
                    settings,
                    m.current_spec(),
                    b,
                ),
    {
        let mut settings = settings;
        settings.normalize();
        SettingsManager { path, current: settings }
    }

    /// A snapshot of the current settings.
    pub fn get(&self) -> (s: Settings)
        ensures
            same_settings(s, self.current_spec()),
    {
        self.current.clone()
    }

    /// Normalizes `settings`, makes it current, and returns what was stored.
    pub fn set(&mut self, settings: Settings) -> (s: Settings)
        ensures
            same_settings(s, final(self).current_spec()),
            final(self).path_spec() == old(self).path_spec(),
            exists|b: Seq<Prompt>|
                b.len() == 1 && prompts::polish_prompt_spec(b[0]) && normalized(
                    settings,
                    final(self).current_spec(),
                    b,
                ),
    {
        let mut settings = settings;
        settings.normalize();
        let out = settings.clone();
        self.current = settings;
        out
    }

    /// Where the settings document lives.
    pub fn path(&self) -> (p: &str)
        ensures
            p@ == self.path_spec(),
    {
        self.path.as_str()
    }
}

} // verus!
