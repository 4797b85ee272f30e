//! The dictation pipeline's decisions. The flow is record, transcribe,
//! optionally transform, insert, for dictation, plus the no-recording
//! selection jobs. Each step here takes the pipeline's state and what just
//! happened and says what comes next: the caller runs the audio, the
//! transcriber, the provider and the output, and feeds the results back.
use vstd::prelude::*;
use vstd::string::StringExecFns;
use crate::error::{user_message_spec, describe_spec, AppError};
use crate::models::ModelInfoDto;
use crate::output::{CopyReason, InsertOutcome};
use crate::profiles::LlmProfile;
use crate::prompts::{
    selection_system_prompt, selection_system_prompt_spec, selection_user_prompt,
    selection_user_prompt_spec,
};
use crate::settings::{DictionaryEntry, HotkeyBehavior, Prompt, Settings, Snippet};
use crate::stt_profiles::{
    cloud_profile_id, cloud_profile_id_spec, find_stt_profile, SttProfile, SttProfileManager,
    CLOUD_STT_PREFIX,
};
use crate::strs::{find_first, find_first_exec, starts_with, str_eq, to_chars, views};
use crate::text::{
    apply_dictionary, apply_snippets, apply_snippets_spec, clean_transcript,
    clean_transcript_spec, dictionary_froms, dictionary_tos, replace_phrases_spec,
};

verus! {

pub const PIPELINE_STATE_EVENT: &'static str = "pipeline-state";

pub const AUDIO_LEVEL_EVENT: &'static str = "audio-level";

pub const RESULT_EVENT: &'static str = "transcription-result";

/// Fired once a history append has committed, so views refresh from durable
/// rows rather than racing the write.
pub const HISTORY_CHANGED_EVENT: &'static str = "history-changed";

/// Fired once the daily insights upsert has committed.
pub const INSIGHTS_CHANGED_EVENT: &'static str = "insights-changed";

/// Releases faster than this (milliseconds) are a tap, which switches the
/// hold-to-talk gesture into hands-free mode instead of stopping.
pub const TAP_THRESHOLD_MS: u64 = 350;

/// How long error and notice states stay visible, in milliseconds.
pub const TRANSIENT_STATE_TTL_MS: u64 = 4000;

/// How long the success flash lingers before idle, in milliseconds.
pub const SUCCESS_FLASH_TTL_MS: u64 = 1500;

/// Interval of the level meter while recording, in milliseconds.
pub const LEVEL_TICK_MS: u64 = 60;

pub const BUSY_MESSAGE: &'static str = "Still finishing the last one — try again in a moment.";

pub const NO_MODEL_MESSAGE: &'static str = "No speech model yet — open Settings to download one.";

pub const NEEDS_PROFILE_MESSAGE: &'static str =
    "This prompt needs an AI profile — add one in Settings.";

pub const NO_SELECTION_MESSAGE: &'static str =
    "Select some text first, then press the prompt's shortcut.";

pub const CLOUD_NOT_SET_UP_MESSAGE: &'static str =
    "Cloud transcription isn't set up — choose a speech engine in Settings → Models.";

pub const EMPTY_DICTATION_MESSAGE: &'static str = "Didn't catch that — try again.";

pub const LARGER_MODEL_MESSAGE: &'static str =
    "Didn't catch that. A larger speech model often helps — switch it in Settings → Models.";

pub const AI_UNAVAILABLE_MESSAGE: &'static str = "AI unavailable — inserted the plain transcript.";

pub const NO_ACCESSIBILITY_MESSAGE: &'static str =
    "Copied to clipboard — press ⌘V to paste (grant Accessibility to auto-paste)";

pub const PASTE_FAILED_MESSAGE: &'static str =
    "Paste didn't go through — the result is on the clipboard, press ⌘V";

pub const LATCH_TIP_ID: &'static str = "tip.latch";

pub const LATCH_TIP: &'static str = "Tip: tap the hotkey instead of holding to go hands-free.";

pub const ACCURACY_TIP_ID: &'static str = "tip.accuracy";

#[derive(Debug, Clone, Copy, PartialEq, Eq, Structural)]
pub enum Status {
    Idle,
    Recording,
    Transcribing,
    Polishing,
    Inserting,
    /// Brief success flash before fading back to idle.
    Inserted,
    Notice,
    Error,
}

#[derive(Debug, Clone, Copy, PartialEq, Eq, Structural)]
pub enum Job {
    Dictation,
    /// Apply a prompt's instruction to the selection; no recording.
    Transform,
}

/// What the HUD shows.
#[derive(Debug, PartialEq, Eq)]
pub struct PipelineState {
    pub status: Status,
    pub job: Option<Job>,
    pub message: Option<String>,
    /// A one-time tip shown on the success flash; set only when entering
    /// `Inserted`.
    pub hud_tip: Option<String>,
}

impl Clone for PipelineState {
    fn clone(&self) -> (r: Self)
        ensures
            r == *self,
    {
        PipelineState {
            status: self.status,
            job: self.job,
            message: clone_opt(&self.message),
            hud_tip: clone_opt(&self.hud_tip),
        }
    }
}

fn clone_opt(o: &Option<String>) -> (r: Option<String>)
    ensures
        r == *o,
{
    match o {
        Some(s) => Some(s.clone()),
        None => None,
    }
}

/// The last finished job's texts.
#[derive(Debug, PartialEq, Eq)]
pub struct TranscriptionResult {
    pub raw: String,
    /// What the change overlay diffs against: the transcript for dictation,
    /// the original selection for a prompt transform.
    pub original: String,
    pub text: String,
    pub polished: bool,
    pub duration_ms: u64,
}

impl Clone for TranscriptionResult {
    fn clone(&self) -> (r: Self)
        ensures
            r == *self,
    {
        TranscriptionResult {
            raw: self.raw.clone(),
            original: self.original.clone(),
            text: self.text.clone(),
            polished: self.polished,
            duration_ms: self.duration_ms,
        }
    }
}

/// How a job ended, short of an error.
#[derive(Debug, PartialEq, Eq)]
pub enum ProcessOutcome {
    /// Inserted cleanly: the text for the success flash and an optional
    /// one-time tip.
    Inserted(String, Option<String>),
    Notice(String),
}

// ---------------------------------------------------------------------------
// Hotkeys and job start.
// ---------------------------------------------------------------------------

/// The pipeline can take a new job: idle, or showing an error or notice.
pub open spec fn accepts_job(s: Status) -> bool {
    s == Status::Idle || s == Status::Error || s == Status::Notice
}

pub fn accepts_job_exec(s: Status) -> (b: bool)
    ensures
        b == accepts_job(s),
{
    match s {
        Status::Idle | Status::Error | Status::Notice => true,
        _ => false,
    }
}

/// What a hotkey press does.
#[derive(Debug, Clone, Copy, PartialEq, Eq)]
pub enum PressAction {
    /// Stop recording and process it.
    Finish,
    /// Start the job.
    Start,
    Ignore,
}

pub open spec fn press_action(status: Status, session_job: Option<Job>, job: Job) -> PressAction {
    if status == Status::Recording {
        if session_job == Some(job) {
            PressAction::Finish
        } else {
            PressAction::Ignore
        }
    } else if accepts_job(status) {
        PressAction::Start
    } else {
        PressAction::Ignore
    }
}

/// What a hotkey press does in each status: idle, after an error and while
/// a notice shows, it starts the job; while recording, the same job's press
/// finishes the recording and any other press is ignored; while the last job
/// is still being transcribed, polished, inserted, or its success flash
/// shows, the press is ignored.
pub proof fn law_press_by_status(session_job: Option<Job>, job: Job)
    ensures
        press_action(Status::Idle, session_job, job) == PressAction::Start,
        press_action(Status::Error, session_job, job) == PressAction::Start,
        press_action(Status::Notice, session_job, job) == PressAction::Start,
        press_action(Status::Recording, Some(job), job) == PressAction::Finish,
        session_job != Some(job) ==> press_action(Status::Recording, session_job, job)
            == PressAction::Ignore,
        press_action(Status::Transcribing, session_job, job) == PressAction::Ignore,
        press_action(Status::Polishing, session_job, job) == PressAction::Ignore,
        press_action(Status::Inserting, session_job, job) == PressAction::Ignore,
        press_action(Status::Inserted, session_job, job) == PressAction::Ignore,
{
}

/// A hotkey press: while recording, the same job's press stops it (the
/// second press of hands-free mode); when idle or showing an error or
/// notice, it starts the job; while busy processing, it is ignored.
pub fn on_hotkey_pressed(status: Status, session_job: Option<Job>, job: Job) -> (r: PressAction)
    ensures
        r == press_action(status, session_job, job),
{
    match status {
        Status::Recording => {
            if session_job == Some(job) {
                PressAction::Finish
            } else {
                PressAction::Ignore
            }
        },
        Status::Idle | Status::Error | Status::Notice => PressAction::Start,
        _ => PressAction::Ignore,
    }
}

/// A hotkey release stops the recording only for dictation held in hold
/// mode, for the job being recorded, and held at least the tap threshold; a
/// quicker tap means hands-free, recording on until the next press.
pub fn on_hotkey_released(job: Job, behavior: HotkeyBehavior, session: Option<(Job, u64)>) -> (r:
    bool)
    ensures
        r <==> (job == Job::Dictation && behavior == HotkeyBehavior::Hold && (session matches Some(
            (j, held),
        ) && j == job && held >= TAP_THRESHOLD_MS)),
{
    if job != Job::Dictation {
        return false;
    }
    match behavior {
        HotkeyBehavior::Toggle => {
            return false;
        },
        _ => {},
    }
    match session {
        Some((j, held)) => j == job && held >= TAP_THRESHOLD_MS,
        None => false,
    }
}

/// The model id names a cloud engine.
pub open spec fn is_cloud_model(model_id: Seq<char>) -> bool {
    model_id.len() >= CLOUD_STT_PREFIX@.len() && model_id.take(CLOUD_STT_PREFIX@.len() as int)
        == CLOUD_STT_PREFIX@
}

/// Whether a recording may start: not while busy, and not without an
/// installed speech model unless a cloud engine is selected.
pub fn check_start(status: Status, stt_model_id: &str, model_installed: bool) -> (r: Result<
    (),
    AppError,
>)
    ensures
        !accepts_job(status) ==> (r matches Err(AppError::State(m)) && m@ == BUSY_MESSAGE@),
        accepts_job(status) && !is_cloud_model(stt_model_id@) && !model_installed ==> (r matches Err(
            AppError::Model(m),
        ) && m@ == NO_MODEL_MESSAGE@),
        accepts_job(status) && (is_cloud_model(stt_model_id@) || model_installed) ==> r is Ok,
{
    if !accepts_job_exec(status) {
        return Err(AppError::State(String::from_str(BUSY_MESSAGE)));
    }
    if !starts_with(stt_model_id, CLOUD_STT_PREFIX) && !model_installed {
        return Err(AppError::Model(String::from_str(NO_MODEL_MESSAGE)));
    }
    Ok(())
}

/// A notice from outside the pipeline shows only while no job owns the HUD.
pub fn flash_notice_allowed(status: Status) -> (b: bool)
    ensures
        b <==> (accepts_job(status) || status == Status::Inserted),
{
    match status {
        Status::Idle | Status::Notice | Status::Error | Status::Inserted => true,
        _ => false,
    }
}

/// How a selection-prompt shortcut starts.
#[derive(Debug, Clone, Copy, PartialEq, Eq)]
pub enum SelectionStart {
    /// Busy with another job: nothing happens.
    Busy,
    /// No active AI profile: an error saying so.
    NeedsProfile,
    /// Capture the selection and run the prompt.
    Go,
}

pub fn selection_prompt_start(status: Status, has_profile: bool) -> (r: SelectionStart)
    ensures
        !accepts_job(status) ==> r == SelectionStart::Busy,
        accepts_job(status) && !has_profile ==> r == SelectionStart::NeedsProfile,
        accepts_job(status) && has_profile ==> r == SelectionStart::Go,
{
    if !accepts_job_exec(status) {
        SelectionStart::Busy
    } else if !has_profile {
        SelectionStart::NeedsProfile
    } else {
        SelectionStart::Go
    }
}

/// The first prompt with id `id`.
pub open spec fn find_prompt_spec(prompts: Seq<Prompt>, id: Seq<char>) -> Option<int>
    decreases prompts.len(),
{
    if prompts.len() == 0 {
        None
    } else {
        match find_prompt_spec(prompts.drop_last(), id) {
            Some(i) => Some(i),
            None => if prompts.last().id@ == id {
                Some(prompts.len() - 1)
            } else {
                None
            },
        }
    }
}

proof fn lemma_find_prompt(prompts: Seq<Prompt>, id: Seq<char>, k: int)
    requires
        0 <= k <= prompts.len(),
        forall|j: int| 0 <= j < k ==> #[trigger] prompts[j].id@ != id,
    ensures
        find_prompt_spec(prompts.take(k), id) is None,
    decreases k,
{
    if k > 0 {
        assert(prompts.take(k).drop_last() =~= prompts.take(k - 1));
        lemma_find_prompt(prompts, id, k - 1);
    }
}

proof fn lemma_find_prompt_prefix(prompts: Seq<Prompt>, id: Seq<char>, k: int)
    requires
        0 <= k < prompts.len(),
        find_prompt_spec(prompts.take(k), id) is None,
        prompts[k].id@ == id,
    ensures
        find_prompt_spec(prompts, id) == Some(k),
    decreases prompts.len(),
{
    if k < prompts.len() - 1 {
        assert(prompts.drop_last().take(k) =~= prompts.take(k));
        lemma_find_prompt_prefix(prompts.drop_last(), id, k);
    } else {
        assert(prompts.drop_last() =~= prompts.take(k));
    }
}

/// The prompt a shortcut names, resolved by id when it fires; `None` where
/// it was deleted meanwhile.
pub fn find_prompt<'a>(prompts: &'a [Prompt], id: &str) -> (r: Option<&'a Prompt>)
    ensures
        match find_prompt_spec(prompts@, id@) {
            Some(i) => r == Some(&prompts@[i]),
            None => r is None,
        },
{
    let mut i: usize = 0;
    while i < prompts.len()
        invariant
            i <= prompts@.len(),
            forall|j: int| 0 <= j < i ==> #[trigger] prompts@[j].id@ != id@,
        decreases prompts@.len() - i,
    {
        if str_eq(prompts[i].id.as_str(), id) {
            proof {
                lemma_find_prompt(prompts@, id@, i as int);
                lemma_find_prompt_prefix(prompts@, id@, i as int);
            }
            return Some(&prompts[i]);
        }
        i = i + 1;
    }
    proof {
        lemma_find_prompt(prompts@, id@, i as int);
        assert(prompts@.take(i as int) =~= prompts@);
    }
    None
}

/// The prompt the post-dictation transform runs, or `None` to insert the
/// plain transcript: no transform is set, or its id dangles (a prompt deleted
/// after it was chosen).
pub fn post_dictation_prompt(settings: &Settings) -> (r: Option<&Prompt>)
    ensures
        match settings.post_dictation_transform_id {
            None => r is None,
            Some(id) => match find_prompt_spec(settings.prompts@, id@) {
                Some(i) => r == Some(&settings.prompts@[i]),
                None => r is None,
            },
        },
{
    match &settings.post_dictation_transform_id {
        None => None,
        Some(id) => find_prompt(settings.prompts.as_slice(), id.as_str()),
    }
}

/// The error a selection prompt shows before any capture: the prompt needs
/// an AI profile. `None` when it is busy (nothing happens) or may go on.
pub fn selection_start_error(start: SelectionStart) -> (r: Option<String>)
    ensures
        start == SelectionStart::NeedsProfile <==> r is Some,
        r matches Some(m) ==> m@ == NEEDS_PROFILE_MESSAGE@,
{
    match start {
        SelectionStart::NeedsProfile => Some(String::from_str(NEEDS_PROFILE_MESSAGE)),
        _ => None,
    }
}

/// The text a selection prompt rewrites, from what the capture gave: the
/// selected text; or the error it shows: that nothing is selected, or the
/// capture's own error as the user reads it.
pub fn selection_from_capture(captured: Result<Option<String>, AppError>) -> (r: Result<
    String,
    String,
>)
    ensures
        match captured {
            Ok(Some(t)) => r == Ok::<String, String>(t),
            Ok(None) => r matches Err(m) && m@ == NO_SELECTION_MESSAGE@,
            Err(e) => r matches Err(m) && m@ == user_message_spec(e),
        },
{
    match captured {
        Ok(Some(t)) => Ok(t),
        Ok(None) => Err(String::from_str(NO_SELECTION_MESSAGE)),
        Err(e) => Err(e.user_message()),
    }
}

// ---------------------------------------------------------------------------
// Transcription.
// ---------------------------------------------------------------------------

/// Which transcriber a dictation goes to.
#[derive(Debug, PartialEq)]
pub enum Transcriber {
    /// The on-device model with this id.
    Local(String),
    /// The cloud engine of this profile.
    Cloud(SttProfile),
    /// A cloud engine is selected but its profile is missing or its upload
    /// not confirmed: nothing is uploaded, and a notice says so.
    NotSetUp,
}

/// What a dictation ends with before any transcription: a cloud engine
/// that is not set up ends it with a notice saying so (and nothing is
/// uploaded); every other route goes on to transcribe.
pub fn transcriber_outcome(t: &Transcriber) -> (r: Option<ProcessOutcome>)
    ensures
        (*t is NotSetUp) <==> r is Some,
        r matches Some(o) ==> o matches ProcessOutcome::Notice(m) && m@ == CLOUD_NOT_SET_UP_MESSAGE@,
{
    match t {
        Transcriber::NotSetUp => Some(ProcessOutcome::Notice(String::from_str(CLOUD_NOT_SET_UP_MESSAGE))),
        _ => None,
    }
}

pub open spec fn seq_contains_str(v: Seq<String>, s: Seq<char>) -> bool {
    exists|i: int| 0 <= i < v.len() && v[i]@ == s
}

pub open spec fn transcriber_spec(
    model_id: Seq<char>,
    confirmed: Seq<String>,
    profiles: Seq<SttProfile>,
    t: Transcriber,
) -> bool {
    match cloud_profile_id_spec(model_id) {
        None => t matches Transcriber::Local(m) && m@ == model_id,
        Some(pid) => if seq_contains_str(confirmed, pid) && find_stt_profile(profiles, pid) is Some {
            t == Transcriber::Cloud(find_stt_profile(profiles, pid)->0)
        } else {
            t == Transcriber::NotSetUp
        },
    }
}

fn contains_str(v: &[String], s: &str) -> (b: bool)
    ensures
        b == seq_contains_str(v@, s@),
{
    let mut i: usize = 0;
    while i < v.len()
        invariant
            i <= v@.len(),
            forall|j: int| 0 <= j < i ==> v@[j]@ != s@,
        decreases v@.len() - i,
    {
        if str_eq(v[i].as_str(), s) {
            return true;
        }
        i = i + 1;
    }
    false
}

/// Routes a dictation: an on-device model id goes to the local transcriber;
/// a cloud model id uploads audio only where its profile exists and its
/// upload was confirmed.
pub fn choose_transcriber(settings: &Settings, stt_profiles: &SttProfileManager) -> (r: Transcriber)
    ensures
        transcriber_spec(
            settings.stt_model_id@,
            settings.confirmed_stt_profiles@,
            stt_profiles.cache_spec(),
            r,
        ),
{
    match cloud_profile_id(settings.stt_model_id.as_str()) {
        None => Transcriber::Local(settings.stt_model_id.clone()),
        Some(pid) => {
            let confirmed = contains_str(settings.confirmed_stt_profiles.as_slice(), pid.as_str());
            match stt_profiles.get(pid.as_str()) {
                Some(profile) => {
                    if confirmed {
                        Transcriber::Cloud(profile)
                    } else {
                        Transcriber::NotSetUp
                    }
                },
                None => Transcriber::NotSetUp,
            }
        },
    }
}

/// The first installed model in the list.
pub open spec fn first_installed(models: Seq<ModelInfoDto>) -> Option<int>
    decreases models.len(),
{
    if models.len() == 0 {
        None
    } else {
        match first_installed(models.drop_last()) {
            Some(i) => Some(i),
            None => if models.last().installed {
                Some(models.len() - 1)
            } else {
                None
            },
        }
    }
}

/// An installed on-device model to fall back to: the global one where it is
/// local and installed, else the first installed model.
pub fn installed_local_model(stt_model_id: &str, global_installed: bool, models: &[ModelInfoDto]) -> (r:
    Option<String>)
    ensures
        !is_cloud_model(stt_model_id@) && global_installed ==> (r matches Some(m) && m@
            == stt_model_id@),
        !(!is_cloud_model(stt_model_id@) && global_installed) ==> match first_installed(models@) {
            Some(i) => r matches Some(m) && m@ == models@[i].id@,
            None => r is None,
        },
{
    if !starts_with(stt_model_id, CLOUD_STT_PREFIX) && global_installed {
        return Some(String::from_str(stt_model_id));
    }
    let mut i: usize = 0;
    while i < models.len()
        invariant
            i <= models@.len(),
            first_installed(models@.take(i as int)) is None,
            !(!is_cloud_model(stt_model_id@) && global_installed),
        decreases models@.len() - i,
    {
        proof {
            assert(models@.take(i + 1).drop_last() =~= models@.take(i as int));
        }
        if models[i].installed {
            proof {
                lemma_first_installed_prefix(models@, i as int);
            }
            return Some(String::from_str(models[i].id));
        }
        i = i + 1;
    }
    assert(models@.take(i as int) =~= models@);
    None
}

proof fn lemma_first_installed_prefix(models: Seq<ModelInfoDto>, k: int)
    requires
        0 <= k < models.len(),
        first_installed(models.take(k)) is None,
        models[k].installed,
    ensures
        first_installed(models) == Some(k),
    decreases models.len(),
{
    if k < models.len() - 1 {
        assert(models.drop_last().take(k) =~= models.take(k));
        lemma_first_installed_prefix(models.drop_last(), k);
    } else {
        assert(models.drop_last() =~= models.take(k));
    }
}

/// After a cloud transcription failed: fall back only toward less data
/// leaving the machine, to an installed on-device model, never dropping the
/// output silently; without one, an error naming the failure.
pub fn cloud_fallback(local: Option<String>, err: &AppError) -> (r: Result<String, AppError>)
    ensures
        match local {
            Some(m) => r == Ok::<String, AppError>(m),
            None => r matches Err(AppError::Stt(msg)) && msg@ == "Cloud transcription failed ("@
                + describe_spec(*err) + "). Switch to the on-device model in Settings."@,
        },
{
    match local {
        Some(m) => Ok(m),
        None => {
            let mut s = String::from_str("Cloud transcription failed (");
            let d = err.describe();
            s.append(d.as_str());
            s.append("). Switch to the on-device model in Settings.");
            Err(AppError::Stt(s))
        },
    }
}

/// What a raw transcript becomes before the job-specific steps.
#[derive(Debug, PartialEq, Eq)]
pub enum TranscriptStep {
    /// Nothing was said, once artifacts are stripped.
    Empty,
    /// The cleaned transcript with dictionary fixes, and how many fixes.
    Ready(String, usize),
}

/// Cleans the raw transcript; a non-empty result gets the dictionary.
pub fn prepare_transcript(raw: &str, dictionary: &[DictionaryEntry]) -> (r: TranscriptStep)
    ensures
        clean_transcript_spec(raw@).len() == 0 <==> r == TranscriptStep::Empty,
        r matches TranscriptStep::Ready(t, n) ==> (t@, n as nat) == replace_phrases_spec(
            clean_transcript_spec(raw@),
            dictionary_froms(dictionary@),
            dictionary_tos(dictionary@),
        ),
{
    let cleaned = clean_transcript(raw);
    if cleaned.as_str().is_empty() {
        return TranscriptStep::Empty;
    }
    let (t, n) = apply_dictionary(cleaned.as_str(), dictionary);
    TranscriptStep::Ready(t, n)
}

/// The notice for an empty dictation, and whether it is the one-time
/// suggestion of a larger model (which the caller then records as seen):
/// after two or more empty dictations in a row, with tips on, the
/// suggestion not yet seen, and neither a large nor a cloud model selected.
pub open spec fn suggests_larger_model(streak: u64, s: Settings) -> bool {
    &&& streak >= 2
    &&& s.tips_enabled
    &&& !seq_contains_str(s.tips_seen@, ACCURACY_TIP_ID@)
    &&& find_first(s.stt_model_id@, "large"@) is None
    &&& !is_cloud_model(s.stt_model_id@)
}

pub fn empty_dictation_notice(streak: u64, settings: &Settings) -> (r: (String, bool))
    ensures
        r.1 == suggests_larger_model(streak, *settings),
        r.0@ == (if r.1 {
            LARGER_MODEL_MESSAGE@
        } else {
            EMPTY_DICTATION_MESSAGE@
        }),
{
    if streak < 2 {
        return (String::from_str(EMPTY_DICTATION_MESSAGE), false);
    }
    let model = to_chars(settings.stt_model_id.as_str());
    let large = to_chars("large");
    if !settings.tips_enabled || contains_str(settings.tips_seen.as_slice(), ACCURACY_TIP_ID)
        || find_first_exec(model.as_slice(), large.as_slice()).is_some() || starts_with(
        settings.stt_model_id.as_str(),
        CLOUD_STT_PREFIX,
    ) {
        return (String::from_str(EMPTY_DICTATION_MESSAGE), false);
    }
    (String::from_str(LARGER_MODEL_MESSAGE), true)
}

/// Records a tip as seen.
pub fn mark_tip_seen(settings: &mut Settings, id: &str)
    ensures
        final(settings).tips_seen@.len() == old(settings).tips_seen@.len() + 1,
        final(settings).tips_seen@.drop_last() == old(settings).tips_seen@,
        final(settings).tips_seen@.last()@ == id@,
        *final(settings) == (Settings { tips_seen: final(settings).tips_seen, ..*old(settings) }),
{
    settings.tips_seen.push(String::from_str(id));
    assert(settings.tips_seen@.drop_last() =~= old(settings).tips_seen@);
}

// ---------------------------------------------------------------------------
// Finishing a dictation.
// ---------------------------------------------------------------------------

/// The provider request of the post-dictation transform, where it runs: a
/// transform is set and exists, and an AI profile is active.
pub fn transform_request(settings: &Settings, profile: Option<LlmProfile>, transcript: &str) -> (r:
    Option<(LlmProfile, String, String)>)
    ensures
        match (settings.post_dictation_transform_id, profile) {
            (Some(id), Some(p)) => match find_prompt_spec(settings.prompts@, id@) {
                Some(i) => r matches Some((q, sys, user)) && q == p && sys@
                    == selection_system_prompt_spec() && user@ == selection_user_prompt_spec(
                    transcript@,
                    settings.prompts@[i].instruction@,
                ),
                None => r is None,
            },
            _ => r is None,
        },
{
    match post_dictation_prompt(settings) {
        Some(prompt) => match profile {
            Some(p) => {
                let system = selection_system_prompt();
                let user = selection_user_prompt(transcript, prompt.instruction.as_str());
                Some((p, system, user))
            },
            None => None,
        },
        None => None,
    }
}

/// The text a dictation inserts.
#[derive(Debug, PartialEq, Eq)]
pub struct DictationText {
    /// The final text, snippets expanded.
    pub text: String,
    /// A provider rewrote it.
    pub polished: bool,
    /// The provider failed and the plain transcript was used.
    pub llm_warning: Option<String>,
}

/// The final text of a dictation: the provider's rewrite where the
/// transform ran and succeeded, the plain transcript otherwise (a failed
/// provider never loses a dictation, it only adds a warning); then snippets
/// expand on the final text, so an expansion is never reworded.
pub fn dictation_text(transcript: &str, chat: Option<Result<String, AppError>>, snippets: &[Snippet]) -> (r:
    DictationText)
    ensures
        match chat {
            None => r.text@ == apply_snippets_spec(transcript@, snippets@) && !r.polished
                && r.llm_warning is None,
            Some(Ok(t)) => r.text@ == apply_snippets_spec(t@, snippets@) && r.polished
                && r.llm_warning is None,
            Some(Err(_)) => {
                &&& r.text@ == apply_snippets_spec(transcript@, snippets@)
                &&& !r.polished
                &&& r.llm_warning matches Some(w) && w@ == AI_UNAVAILABLE_MESSAGE@
            },
        },
{
    let (base, polished, warning) = match chat {
        None => (String::from_str(transcript), false, None),
        Some(Ok(t)) => (t, true, None),
        Some(Err(_)) => (String::from_str(transcript), false, Some(String::from_str(AI_UNAVAILABLE_MESSAGE))),
    };
    let text = apply_snippets(base.as_str(), snippets);
    DictationText { text, polished, llm_warning: warning }
}

/// What the user is told after the output step: a clean paste (or the
/// chosen clipboard method) flashes the text; a clipboard fallback says to
/// paste by hand.
pub fn insert_outcome(outcome: InsertOutcome, text: String) -> (r: ProcessOutcome)
    ensures
        match outcome {
            InsertOutcome::Pasted | InsertOutcome::CopiedToClipboard(CopyReason::ChosenMethod) =>
                r == ProcessOutcome::Inserted(text, None),
            InsertOutcome::CopiedToClipboard(CopyReason::NoAccessibility) => r matches ProcessOutcome::Notice(
                m,
            ) && m@ == NO_ACCESSIBILITY_MESSAGE@,
            InsertOutcome::CopiedToClipboard(CopyReason::PasteFailed) => r matches ProcessOutcome::Notice(
                m,
            ) && m@ == PASTE_FAILED_MESSAGE@,
        },
{
    match outcome {
        InsertOutcome::Pasted => ProcessOutcome::Inserted(text, None),
        InsertOutcome::CopiedToClipboard(CopyReason::ChosenMethod) => ProcessOutcome::Inserted(
            text,
            None,
        ),
        InsertOutcome::CopiedToClipboard(CopyReason::NoAccessibility) => ProcessOutcome::Notice(
            String::from_str(NO_ACCESSIBILITY_MESSAGE),
        ),
        InsertOutcome::CopiedToClipboard(CopyReason::PasteFailed) => ProcessOutcome::Notice(
            String::from_str(PASTE_FAILED_MESSAGE),
        ),
    }
}

/// The tip that rides a successful dictation: teach hands-free mode at the
/// third hold-to-talk dictation, once per session and once ever.
pub open spec fn latch_tip_due(tip_shown_session: bool, s: Settings) -> bool {
    &&& !tip_shown_session
    &&& s.tips_enabled
    &&& !seq_contains_str(s.tips_seen@, LATCH_TIP_ID@)
    &&& s.dictation_hotkey_behavior == HotkeyBehavior::Hold
    &&& s.dictation_count == 3
}

/// Each tip shows once ever: once `mark_tip_seen` has recorded it, neither
/// the hands-free tip nor the larger-model suggestion is due again, and the
/// hands-free tip is never due twice in one session.
pub proof fn law_tips_show_once(before: Settings, after: Settings, session: bool, streak: u64)
    requires
        after.tips_seen@.len() == before.tips_seen@.len() + 1,
        after.tips_seen@.drop_last() == before.tips_seen@,
    ensures
        !latch_tip_due(true, before),
        after.tips_seen@.last()@ == LATCH_TIP_ID@ ==> !latch_tip_due(session, after),
        after.tips_seen@.last()@ == ACCURACY_TIP_ID@ ==> !suggests_larger_model(streak, after),
{
    let k = after.tips_seen@.len() - 1;
    assert(after.tips_seen@[k] == after.tips_seen@.last());
}

pub fn dictation_hud_tip(tip_shown_session: bool, settings: &Settings) -> (r: Option<String>)
    ensures
        latch_tip_due(tip_shown_session, *settings) <==> r is Some,
        r matches Some(t) ==> t@ == LATCH_TIP@,
{
    if tip_shown_session {
        return None;
    }
    if !settings.tips_enabled || contains_str(settings.tips_seen.as_slice(), LATCH_TIP_ID) {
        return None;
    }
    let hold = match settings.dictation_hotkey_behavior {
        HotkeyBehavior::Hold => true,
        _ => false,
    };
    if !hold || settings.dictation_count != 3 {
        return None;
    }
    Some(String::from_str(LATCH_TIP))
}

/// The outcome of a dictation once inserted, and whether the hands-free tip
/// was shown (the caller then records it as seen). A clipboard fallback
/// notice wins over everything, since the user must paste by hand; after a
/// clean insert, a provider warning replaces the flash; otherwise the flash
/// may carry the tip.
pub fn dictation_outcome(
    inserted: ProcessOutcome,
    llm_warning: Option<String>,
    tip_shown_session: bool,
    settings: &Settings,
) -> (r: (ProcessOutcome, bool))
    ensures
        match inserted {
            ProcessOutcome::Inserted(preview, _) => match llm_warning {
                Some(w) => r == (ProcessOutcome::Notice(w), false),
                None => {
                    &&& r.1 == latch_tip_due(tip_shown_session, *settings)
                    &&& r.0 matches ProcessOutcome::Inserted(p, tip) && p == preview && (tip is Some
                        <==> r.1) && (tip matches Some(t) ==> t@ == LATCH_TIP@)
                },
            },
            ProcessOutcome::Notice(m) => r == (ProcessOutcome::Notice(m), false),
        },
{
    match inserted {
        ProcessOutcome::Inserted(preview, _) => match llm_warning {
            Some(w) => (ProcessOutcome::Notice(w), false),
            None => {
                let tip = dictation_hud_tip(tip_shown_session, settings);
                let shown = tip.is_some();
                (ProcessOutcome::Inserted(preview, tip), shown)
            },
        },
        ProcessOutcome::Notice(m) => (ProcessOutcome::Notice(m), false),
    }
}

/// Counts one more successful dictation, saturating.
pub fn count_dictation(settings: &mut Settings)
    ensures
        final(settings).dictation_count == (if old(settings).dictation_count == u64::MAX {
            u64::MAX
        } else {
            (old(settings).dictation_count + 1) as u64
        }),
        *final(settings) == (Settings {
            dictation_count: final(settings).dictation_count,
            ..*old(settings)
        }),
{
    settings.dictation_count = settings.dictation_count.saturating_add(1);
}

// ---------------------------------------------------------------------------
// Publishing.
// ---------------------------------------------------------------------------

/// The HUD state a finished job ends in, and how long it stays before idle
/// (unless a newer state replaces it first).
pub fn published_state(result: &Result<ProcessOutcome, AppError>) -> (r: (PipelineState, u64))
    ensures
        match result {
            Ok(ProcessOutcome::Inserted(preview, tip)) => r.0 == (PipelineState {
                status: Status::Inserted,
                job: None,
                message: Some(*preview),
                hud_tip: *tip,
            }) && r.1 == SUCCESS_FLASH_TTL_MS,
            Ok(ProcessOutcome::Notice(m)) => r.0 == (PipelineState {
                status: Status::Notice,
                job: None,
                message: Some(*m),
                hud_tip: None,
            }) && r.1 == TRANSIENT_STATE_TTL_MS,
            Err(e) => {
                &&& r.0.status == Status::Error
                &&& r.0.job is None
                &&& r.0.hud_tip is None
                &&& r.1 == TRANSIENT_STATE_TTL_MS
                &&& r.0.message matches Some(m) && m@ == user_message_spec(*e)
            },
        },
{
    match result {
        Ok(ProcessOutcome::Inserted(preview, tip)) => (
            PipelineState {
                status: Status::Inserted,
                job: None,
                message: Some(preview.clone()),
                hud_tip: clone_opt(tip),
            },
            SUCCESS_FLASH_TTL_MS,
        ),
        Ok(ProcessOutcome::Notice(m)) => (
            PipelineState { status: Status::Notice, job: None, message: Some(m.clone()), hud_tip: None },
            TRANSIENT_STATE_TTL_MS,
        ),
        Err(e) => (
            PipelineState {
                status: Status::Error,
                job: None,
                message: Some(e.user_message()),
                hud_tip: None,
            },
            TRANSIENT_STATE_TTL_MS,
        ),
    }
}

/// A plain state change (no tip).
pub fn state_of(status: Status, job: Option<Job>, message: Option<String>) -> (r: PipelineState)
    ensures
        r == (PipelineState { status, job, message, hud_tip: None }),
{
    PipelineState { status, job, message, hud_tip: None }
}

/// A job's result is published only while it is still the newest job:
/// cancelling or starting another bumps the generation.
pub fn still_current(generation_now: u64, job_generation: u64) -> (b: bool)
    ensures
        b <==> generation_now == job_generation,
{
    generation_now == job_generation
}

} // verus!
