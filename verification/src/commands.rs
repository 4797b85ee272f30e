//! Decisions behind the app's commands: what a settings save must re-apply,
//! what a note transform asks the provider and which instruction it uses,
//! and how the speech-engine consent list follows profile edits and
//! deletions. The commands themselves (state
//! access, storage, events) are the caller's.
use vstd::prelude::*;
use vstd::string::StringExecFns;
use crate::error::AppError;
use crate::models::DEFAULT_STT_MODEL_ID;
use crate::notes::{strip_tags, strip_tags_spec, text_to_html, text_to_html_spec};
use crate::pipeline::{find_prompt, find_prompt_spec};
use crate::prompts::{
    selection_system_prompt, selection_system_prompt_spec, selection_user_prompt,
    selection_user_prompt_spec, DEFAULT_POLISH_INSTRUCTION, POLISH_PROMPT_ID,
};
use crate::settings::{same_settings, Appearance, Prompt, Settings};
use crate::stt_profiles::{SttProfile, CLOUD_STT_PREFIX};
use crate::strs::str_eq;

verus! {

/// The prompt shortcut bindings of a settings document: each prompt's id
/// with its shortcut, in order.
pub open spec fn bindings(prompts: Seq<Prompt>) -> Seq<(Seq<char>, Seq<char>)> {
    prompts.map_values(|p: Prompt| (p.id@, p.shortcut@))
}

/// What a settings save must re-apply beyond storing the document.
#[derive(Debug, PartialEq, Eq)]
pub struct SaveEffects {
    /// Register the hotkeys and prompt shortcuts again.
    pub reapply_hotkeys: bool,
    /// Turn launch-at-login on or off.
    pub autostart: Option<bool>,
    /// Show or hide the Dock icon.
    pub dock: Option<bool>,
    /// Switch the window theme.
    pub appearance: Option<Appearance>,
}

fn same_bindings(a: &Vec<Prompt>, b: &Vec<Prompt>) -> (r: bool)
    ensures
        r == (bindings(a@) == bindings(b@)),
{
    if a.len() != b.len() {
        proof {
            assert(bindings(a@).len() != bindings(b@).len());
        }
        return false;
    }
    let mut i: usize = 0;
    while i < a.len()
        invariant
            a@.len() == b@.len(),
            i <= a@.len(),
            forall|j: int| 0 <= j < i ==> #[trigger] bindings(a@)[j] == bindings(b@)[j],
        decreases a@.len() - i,
    {
        if !str_eq(a[i].id.as_str(), b[i].id.as_str()) || !str_eq(
            a[i].shortcut.as_str(),
            b[i].shortcut.as_str(),
        ) {
            proof {
                assert(bindings(a@)[i as int] != bindings(b@)[i as int]);
            }
            return false;
        }
        i = i + 1;
    }
    assert(bindings(a@) =~= bindings(b@));
    true
}

/// What saving `saved` over `previous` must re-apply. Prompt shortcuts are
/// re-registered only when an id↔shortcut binding changed (the handler reads
/// each instruction by id when it fires, so editing a name or an instruction
/// needs nothing); `hotkeys_differ` says whether the dictation and overlay
/// hotkeys changed. Launch at login, the Dock icon and the theme follow
/// their fields where those changed.
pub fn save_effects(previous: &Settings, saved: &Settings, hotkeys_differ: bool) -> (r: SaveEffects)
    ensures
        r.reapply_hotkeys == (hotkeys_differ || bindings(previous.prompts@) != bindings(
            saved.prompts@,
        )),
        r.autostart == (if previous.launch_at_login != saved.launch_at_login {
            Some(saved.launch_at_login)
        } else {
            None
        }),
        r.dock == (if previous.show_in_dock != saved.show_in_dock {
            Some(saved.show_in_dock)
        } else {
            None
        }),
        r.appearance == (if previous.appearance != saved.appearance {
            Some(saved.appearance)
        } else {
            None
        }),
{
    let reapply_hotkeys = hotkeys_differ || !same_bindings(&previous.prompts, &saved.prompts);
    let autostart = if previous.launch_at_login != saved.launch_at_login {
        Some(saved.launch_at_login)
    } else {
        None
    };
    let dock = if previous.show_in_dock != saved.show_in_dock {
        Some(saved.show_in_dock)
    } else {
        None
    };
    let appearance = if !same_appearance(previous.appearance, saved.appearance) {
        Some(saved.appearance)
    } else {
        None
    };
    SaveEffects { reapply_hotkeys, autostart, dock, appearance }
}

fn same_appearance(a: Appearance, b: Appearance) -> (r: bool)
    ensures
        r == (a == b),
{
    match (a, b) {
        (Appearance::System, Appearance::System) => true,
        (Appearance::Light, Appearance::Light) => true,
        (Appearance::Dark, Appearance::Dark) => true,
        _ => false,
    }
}

/// The document restored when the new shortcuts fail to register: what was
/// saved, with the prompts (and so every prompt shortcut) of the last
/// working set; the caller rolls its hotkeys back with them, as one unit.
pub fn rollback_shortcuts(saved: &Settings, previous: &Settings) -> (r: Settings)
    ensures
        same_settings(r, (Settings { prompts: r.prompts, ..*saved })),
        r.prompts@ == previous.prompts@,
{
    let mut r = saved.clone();
    r.prompts = previous.prompts.clone();
    r
}

pub const SCRATCHPAD_OFF_MESSAGE: &'static str = "Scratchpad is turned off.";

/// Every note command first checks that the Scratchpad is on.
pub fn scratchpad_gate(settings: &Settings) -> (r: Result<(), AppError>)
    ensures
        settings.scratchpad_enabled <==> r is Ok,
        r matches Err(e) ==> e matches AppError::Settings(m) && m@ == SCRATCHPAD_OFF_MESSAGE@,
{
    if settings.scratchpad_enabled {
        Ok(())
    } else {
        Err(AppError::Settings(String::from_str(SCRATCHPAD_OFF_MESSAGE)))
    }
}

/// Version and locations, for the about screen.
#[derive(Debug, PartialEq, Eq)]
pub struct AppInfo {
    pub version: String,
    pub data_dir: String,
    pub config_path: String,
}

pub const PROMPT_GONE_MESSAGE: &'static str = "that prompt no longer exists";

pub const NEEDS_PROVIDER_MESSAGE: &'static str = "Add an AI provider to use transforms.";

/// The instruction a note transform runs: a named prompt's, failing when it
/// no longer exists; with no id, the user's Polish prompt, or the default
/// polish instruction where that is gone too.
pub fn note_transform_instruction(prompts: &[Prompt], transform_id: Option<&str>) -> (r: Result<
    String,
    AppError,
>)
    ensures
        match transform_id {
            None => match find_prompt_spec(prompts@, POLISH_PROMPT_ID@) {
                Some(i) => r matches Ok(s) && s@ == prompts@[i].instruction@,
                None => r matches Ok(s) && s@ == DEFAULT_POLISH_INSTRUCTION@,
            },
            Some(id) => match find_prompt_spec(prompts@, id@) {
                Some(i) => r matches Ok(s) && s@ == prompts@[i].instruction@,
                None => r matches Err(AppError::State(m)) && m@ == PROMPT_GONE_MESSAGE@,
            },
        },
{
    match transform_id {
        None => match find_prompt(prompts, POLISH_PROMPT_ID) {
            Some(p) => Ok(p.instruction.clone()),
            None => Ok(String::from_str(DEFAULT_POLISH_INSTRUCTION)),
        },
        Some(id) => match find_prompt(prompts, id) {
            Some(p) => Ok(p.instruction.clone()),
            None => Err(AppError::State(String::from_str(PROMPT_GONE_MESSAGE))),
        },
    }
}

/// The provider request of a note transform: the note's stored HTML as plain
/// text, rewritten by the instruction as a selection would be.
pub fn note_transform_request(content_html: &str, instruction: &str) -> (r: (String, String))
    ensures
        r.0@ == selection_system_prompt_spec(),
        r.1@ == selection_user_prompt_spec(strip_tags_spec(content_html@), instruction@),
{
    let plain = strip_tags(content_html);
    (selection_system_prompt(), selection_user_prompt(plain.as_str(), instruction))
}

/// The note body stored after a transform: the provider's plain text as
/// minimal HTML.
pub fn note_transform_result(rewritten: &str) -> (r: String)
    ensures
        r@ == text_to_html_spec(rewritten@),
{
    text_to_html(rewritten)
}

/// `v` without the entries equal to `s`.
pub open spec fn without(v: Seq<String>, s: Seq<char>) -> Seq<Seq<char>> {
    v.map_values(|x: String| x@).filter(|x: Seq<char>| x != s)
}

fn remove_all(v: &mut Vec<String>, s: &str) -> (removed: bool)
    ensures
        final(v)@.map_values(|x: String| x@) == without(old(v)@, s@),
        !removed ==> final(v)@ == old(v)@,
        removed <==> old(v)@.map_values(|x: String| x@).contains(s@),
{
    let mut kept: Vec<String> = Vec::new();
    let mut removed = false;
    let mut i: usize = 0;
    while i < v.len()
        invariant
            i <= v@.len(),
            v@ == old(v)@,
            kept@.map_values(|x: String| x@) == without(v@.take(i as int), s@),
            removed <==> v@.take(i as int).map_values(|x: String| x@).contains(s@),
            !removed ==> kept@.map_values(|x: String| x@) == v@.take(i as int).map_values(
                |x: String| x@,
            ),
        decreases v@.len() - i,
    {
        let ghost before = kept@;
        proof {
            let t = v@.take(i + 1).map_values(|x: String| x@);
            assert(t.drop_last() =~= v@.take(i as int).map_values(|x: String| x@));
            assert(v@.take(i + 1).drop_last() =~= v@.take(i as int));
            reveal(Seq::filter);
            assert(t.last() == v@[i as int]@);
            if t.contains(s@) && !t.drop_last().contains(s@) {
                let k = choose|k: int| 0 <= k < t.len() && t[k] == s@;
                if k < t.len() - 1 {
                    assert(t.drop_last()[k] == s@);
                }
            }
            if t.drop_last().contains(s@) {
                let k = choose|k: int| 0 <= k < t.drop_last().len() && t.drop_last()[k] == s@;
                assert(t[k] == s@);
            }
        }
        if !str_eq(v[i].as_str(), s) {
            kept.push(v[i].clone());
            assert(kept@.map_values(|x: String| x@) =~= before.map_values(|x: String| x@).push(
                v@[i as int]@,
            ));
        } else {
            removed = true;
            assert(v@.take(i + 1).map_values(|x: String| x@)[i as int] == s@);
        }
        i = i + 1;
    }
    assert(v@.take(i as int) =~= v@);
    if removed {
        *v = kept;
    }
    removed
}

/// After a speech-engine profile is saved: a changed endpoint or key revokes
/// the consent given for the old one, since the audio would otherwise reach
/// a place the user never approved. Returns whether the settings changed.
pub fn revoke_consent_on_edit(settings: &mut Settings, previous: Option<&SttProfile>, saved: &SttProfile) -> (changed:
    bool)
    ensures
        ({
            let edited = previous matches Some(o) && (o.base_url@ != saved.base_url@ || o.api_key@
                != saved.api_key@);
            let had = old(settings).confirmed_stt_profiles@.map_values(|x: String| x@).contains(
                saved.id@,
            );
            &&& changed <==> edited && had
            &&& changed ==> final(settings).confirmed_stt_profiles@.map_values(|x: String| x@)
                == without(old(settings).confirmed_stt_profiles@, saved.id@)
            &&& !changed ==> final(settings).confirmed_stt_profiles@ == old(
                settings,
            ).confirmed_stt_profiles@
        }),
        *final(settings) == (Settings {
            confirmed_stt_profiles: final(settings).confirmed_stt_profiles,
            ..*old(settings)
        }),
{
    let edited = match previous {
        Some(o) => !str_eq(o.base_url.as_str(), saved.base_url.as_str()) || !str_eq(
            o.api_key.as_str(),
            saved.api_key.as_str(),
        ),
        None => false,
    };
    if !edited {
        return false;
    }
    remove_all(&mut settings.confirmed_stt_profiles, saved.id.as_str())
}

/// After a speech-engine profile is deleted: its consent is dropped (a
/// recreated id must not inherit it) and, where it was the active engine,
/// the on-device default takes over. Returns whether the settings changed.
pub fn forget_stt_profile(settings: &mut Settings, id: &str) -> (changed: bool)
    ensures
        ({
            let had = old(settings).confirmed_stt_profiles@.map_values(|x: String| x@).contains(
                id@,
            );
            let active = old(settings).stt_model_id@ == CLOUD_STT_PREFIX@ + id@;
            &&& changed <==> had || active
            &&& final(settings).confirmed_stt_profiles@.map_values(|x: String| x@) == without(
                old(settings).confirmed_stt_profiles@,
                id@,
            )
            &&& final(settings).stt_model_id@ == (if active {
                DEFAULT_STT_MODEL_ID@
            } else {
                old(settings).stt_model_id@
            })
        }),
        *final(settings) == (Settings {
            confirmed_stt_profiles: final(settings).confirmed_stt_profiles,
            stt_model_id: final(settings).stt_model_id,
            ..*old(settings)
        }),
{
    let had = remove_all(&mut settings.confirmed_stt_profiles, id);
    let mut cloud_id = String::from_str(CLOUD_STT_PREFIX);
    cloud_id.append(id);
    let active = str_eq(settings.stt_model_id.as_str(), cloud_id.as_str());
    if active {
        settings.stt_model_id = String::from_str(DEFAULT_STT_MODEL_ID);
    }
    had || active
}

} // verus!
