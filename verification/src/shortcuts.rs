//! Hotkey triggers: which trigger is the observable `fn` gesture, which
//! accelerators a settings document registers, and the rule that no two
//! registered hotkeys may be the same. Parsing accelerators and registering
//! them with the system is the caller's.
use vstd::prelude::*;
use vstd::string::StringExecFns;
use crate::settings::Prompt;
use crate::strs::{str_eq, trim, trim_str, views};

verus! {

/// Accelerator stand-in for the `fn`-key gesture when the `fn` monitor is not
/// live.
pub const PUSH_TO_TALK_FALLBACK: &'static str = "Alt+Space";

/// How a hotkey fires.
#[derive(Debug, Clone, Copy, PartialEq, Eq)]
pub enum HotkeyKind {
    /// An ordinary accelerator such as `Alt+O`.
    Accelerator,
    /// Hold to talk.
    Hold,
    /// Double-tap.
    DoubleTap,
}

/// A hotkey trigger: its kind and key.
#[derive(Debug, PartialEq)]
pub struct Hotkey {
    pub kind: HotkeyKind,
    pub key: String,
}

/// Whether a hotkey is the observable `fn`-key gesture: a `Hold` or
/// `DoubleTap` whose key is `fn`.
pub fn is_fn_gesture(hotkey: &Hotkey) -> (b: bool)
    ensures
        b == ((hotkey.kind == HotkeyKind::Hold || hotkey.kind == HotkeyKind::DoubleTap)
            && hotkey.key@ == "fn"@),
{
    match hotkey.kind {
        HotkeyKind::Hold | HotkeyKind::DoubleTap => str_eq(hotkey.key.as_str(), "fn"),
        HotkeyKind::Accelerator => false,
    }
}

/// The accelerator to register for a trigger: an `Accelerator` registers its
/// own trimmed key (an empty key disables it); a gesture falls back to
/// `fallback`.
pub fn resolve(hotkey: &Hotkey, fallback: &str) -> (r: Option<String>)
    ensures
        hotkey.kind == HotkeyKind::Accelerator ==> (if trim(hotkey.key@).len() == 0 {
            r is None
        } else {
            r is Some && r->0@ == trim(hotkey.key@)
        }),
        hotkey.kind != HotkeyKind::Accelerator ==> r is Some && r->0@ == fallback@,
{
    match hotkey.kind {
        HotkeyKind::Accelerator => {
            let key = trim_str(hotkey.key.as_str());
            if key.as_str().is_empty() {
                None
            } else {
                Some(key)
            }
        },
        HotkeyKind::Hold | HotkeyKind::DoubleTap => Some(String::from_str(fallback)),
    }
}

/// The accelerator the see-changes trigger falls back to.
pub const SEE_CHANGES_FALLBACK: &'static str = "Alt+O";

pub const DUPLICATE_HOTKEYS_MESSAGE: &'static str =
    "two hotkeys are the same — every hotkey must be different";

/// The accelerators a settings document registers, before parsing.
#[derive(Debug, PartialEq, Eq)]
pub struct HotkeyPlan {
    /// Push-to-talk (press starts, release stops, a quick tap latches
    /// hands-free), unless the live `fn` monitor owns it or it is disabled.
    pub push_to_talk: Option<String>,
    /// The optional separate hands-free toggle.
    pub hands_free: Option<String>,
    /// The see-changes toggle.
    pub see_changes: Option<String>,
    /// Each prompt with a bound shortcut: its id, name and shortcut as
    /// entered.
    pub prompts: Vec<(String, String, String)>,
}

pub open spec fn resolve_spec(kind: HotkeyKind, key: Seq<char>, fallback: Seq<char>) -> Option<Seq<char>> {
    if kind == HotkeyKind::Accelerator {
        if trim(key).len() == 0 {
            None
        } else {
            Some(trim(key))
        }
    } else {
        Some(fallback)
    }
}

pub open spec fn opt_view(o: Option<String>) -> Option<Seq<char>> {
    match o {
        Some(s) => Some(s@),
        None => None,
    }
}

/// The prompts with a bound (non-blank) shortcut, as (id, name, shortcut).
pub open spec fn bound_prompts(prompts: Seq<Prompt>) -> Seq<(Seq<char>, Seq<char>, Seq<char>)>
    decreases prompts.len(),
{
    if prompts.len() == 0 {
        Seq::empty()
    } else {
        let prev = bound_prompts(prompts.drop_last());
        let p = prompts.last();
        if trim(p.shortcut@).len() == 0 {
            prev
        } else {
            prev.push((p.id@, p.name@, p.shortcut@))
        }
    }
}

pub open spec fn plan_spec(
    push_to_talk: Hotkey,
    hands_free: Hotkey,
    see_changes: Hotkey,
    prompts: Seq<Prompt>,
    fn_active: bool,
    r: HotkeyPlan,
) -> bool {
    &&& opt_view(r.push_to_talk) == (if fn_active && (push_to_talk.kind == HotkeyKind::Hold
        || push_to_talk.kind == HotkeyKind::DoubleTap) && push_to_talk.key@ == "fn"@ {
        None
    } else {
        resolve_spec(push_to_talk.kind, push_to_talk.key@, PUSH_TO_TALK_FALLBACK@)
    })
    &&& opt_view(r.hands_free) == (if trim(hands_free.key@).len() == 0 {
        None
    } else {
        Some(trim(hands_free.key@))
    })
    &&& opt_view(r.see_changes) == resolve_spec(see_changes.kind, see_changes.key@, SEE_CHANGES_FALLBACK@)
    &&& r.prompts@.map_values(|t: (String, String, String)| (t.0@, t.1@, t.2@)) == bound_prompts(prompts)
}

/// The accelerators to register: push-to-talk registers nothing where the
/// live `fn` monitor owns its gesture, and otherwise resolves (a gesture
/// falls back to `Alt+Space`); hands-free is always an accelerator, disabled
/// when blank; see-changes resolves with `Alt+O` as fallback; every prompt
/// with a non-blank shortcut registers it.
pub fn hotkey_plan(
    push_to_talk: &Hotkey,
    hands_free: &Hotkey,
    see_changes: &Hotkey,
    prompts: &[Prompt],
    fn_active: bool,
) -> (r: HotkeyPlan)
    ensures
        plan_spec(*push_to_talk, *hands_free, *see_changes, prompts@, fn_active, r),
{
    let ptt = if fn_active && is_fn_gesture(push_to_talk) {
        None
    } else {
        resolve(push_to_talk, PUSH_TO_TALK_FALLBACK)
    };
    let hf_key = trim_str(hands_free.key.as_str());
    let hf = if hf_key.as_str().is_empty() {
        None
    } else {
        Some(hf_key)
    };
    let changes = resolve(see_changes, SEE_CHANGES_FALLBACK);
    let mut bound: Vec<(String, String, String)> = Vec::new();
    let mut i: usize = 0;
    while i < prompts.len()
        invariant
            i <= prompts@.len(),
            bound@.map_values(|t: (String, String, String)| (t.0@, t.1@, t.2@)) == bound_prompts(
                prompts@.take(i as int),
            ),
        decreases prompts@.len() - i,
    {
        proof {
            assert(prompts@.take(i + 1).drop_last() =~= prompts@.take(i as int));
        }
        let t = trim_str(prompts[i].shortcut.as_str());
        if !t.as_str().is_empty() {
            let ghost before = bound@;
            bound.push((prompts[i].id.clone(), prompts[i].name.clone(), prompts[i].shortcut.clone()));
            proof {
                assert(bound@.map_values(|t: (String, String, String)| (t.0@, t.1@, t.2@))
                    =~= before.map_values(|t: (String, String, String)| (t.0@, t.1@, t.2@)).push(
                    (prompts@[i as int].id@, prompts@[i as int].name@, prompts@[i as int].shortcut@),
                ));
            }
        }
        i = i + 1;
    }
    assert(prompts@.take(i as int) =~= prompts@);
    HotkeyPlan { push_to_talk: ptt, hands_free: hf, see_changes: changes, prompts: bound }
}

/// The hotkeys are pairwise different.
pub open spec fn pairwise_distinct(keys: Seq<u32>) -> bool {
    forall|i: int, j: int| #![trigger keys[i], keys[j]] 0 <= i < j < keys.len() ==> keys[i] != keys[j]
}

/// Every registered hotkey (push-to-talk, hands-free, see-changes and each
/// bound prompt shortcut, each identified by the number of its parsed
/// accelerator) must differ from every other; `Err` with the message the
/// user reads where two are the same.
pub fn check_distinct(keys: &[u32]) -> (r: Result<(), String>)
    ensures
        pairwise_distinct(keys@) <==> r is Ok,
        r matches Err(m) ==> m@ == DUPLICATE_HOTKEYS_MESSAGE@,
{
    let mut i: usize = 0;
    while i < keys.len()
        invariant
            i <= keys@.len(),
            forall|a: int, b: int| #![trigger keys@[a], keys@[b]] 0 <= a < i && a < b < keys@.len() ==> keys@[a] != keys@[b],
        decreases keys@.len() - i,
    {
        let mut j: usize = i + 1;
        while j < keys.len()
            invariant
                i < keys@.len(),
                i + 1 <= j <= keys@.len(),
                forall|a: int, b: int| #![trigger keys@[a], keys@[b]] 0 <= a < i && a < b < keys@.len() ==> keys@[a] != keys@[b],
                forall|b: int| i < b < j ==> keys@[i as int] != #[trigger] keys@[b],
            decreases keys@.len() - j,
        {
            if keys[i] == keys[j] {
                return Err(String::from_str(DUPLICATE_HOTKEYS_MESSAGE));
            }
            j = j + 1;
        }
        i = i + 1;
    }
    Ok(())
}

/// Which trigger an accelerator belongs to, for error messages.
#[derive(Debug, PartialEq)]
pub enum HotkeySlot {
    PushToTalk,
    HandsFree,
    SeeChanges,
    /// A prompt, by name.
    Prompt(String),
}

pub open spec fn parse_error_spec(slot: HotkeySlot, accel: Seq<char>, err: Seq<char>) -> Seq<char> {
    match slot {
        HotkeySlot::PushToTalk => "push-to-talk hotkey “"@ + accel + "”: "@ + err,
        HotkeySlot::HandsFree => "hands-free hotkey “"@ + accel + "”: "@ + err,
        HotkeySlot::SeeChanges => "see-changes hotkey “"@ + accel + "”: "@ + err,
        HotkeySlot::Prompt(name) => "prompt “"@ + name@ + "” shortcut “"@ + accel + "”: "@ + err,
    }
}

/// The message for an accelerator that does not parse.
pub fn parse_error_message(slot: &HotkeySlot, accel: &str, err: &str) -> (r: String)
    ensures
        r@ == parse_error_spec(*slot, accel@, err@),
{
    let mut s = match slot {
        HotkeySlot::PushToTalk => String::from_str("push-to-talk hotkey “"),
        HotkeySlot::HandsFree => String::from_str("hands-free hotkey “"),
        HotkeySlot::SeeChanges => String::from_str("see-changes hotkey “"),
        HotkeySlot::Prompt(name) => {
            let mut s = String::from_str("prompt “");
            s.append(name.as_str());
            s.append("” shortcut “");
            s
        },
    };
    s.append(accel);
    s.append("”: ");
    s.append(err);
    s
}

} // verus!
