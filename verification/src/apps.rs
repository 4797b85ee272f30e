//! Frontmost-app detection, best effort: a failed read just means no app
//! name is recorded; dictation never blocks on it.
use vstd::prelude::*;

verus! {

/// The identity of an app as the history row names it: its bundle id and
/// display name, which falls back to the bundle id when the system has none.
pub fn app_identity(bundle_id: String, display_name: Option<String>) -> (r: (String, String))
    ensures
        r.0 == bundle_id,
        r.1@ == match display_name {
            Some(n) => n@,
            None => bundle_id@,
        },
{
    let name = match display_name {
        Some(n) => n,
        None => bundle_id.clone(),
    };
    (bundle_id, name)
}

/// Where the platform offers no frontmost-app query, there is none.
pub fn frontmost_app() -> (r: Option<(String, String)>)
    ensures
        r is None,
{
    None
}

} // verus!
