//! Permission checks for synthetic keystrokes (Accessibility) and capture
//! (Microphone). The operating system is asked by the caller; this module
//! names its answers, and reports permissive defaults on platforms without
//! such permission systems.
use vstd::prelude::*;

verus! {

/// Deep link into the Accessibility privacy settings.
pub const ACCESSIBILITY_SETTINGS_URL: &'static str =
    "x-apple.systempreferences:com.apple.preference.security?Privacy_Accessibility";

/// Deep link into the Microphone privacy settings.
pub const MICROPHONE_SETTINGS_URL: &'static str =
    "x-apple.systempreferences:com.apple.preference.security?Privacy_Microphone";

/// Both permissions, for the settings screen.
#[derive(Debug, Clone, Copy, PartialEq, Eq)]
pub struct PermissionsState {
    /// "granted", "denied", "undetermined" or "unknown".
    pub microphone: &'static str,
    pub accessibility: bool,
}

/// The system's microphone authorization, as it reports it.
#[derive(Debug, Clone, Copy, PartialEq, Eq)]
pub enum MicAuthorization {
    Authorized,
    Denied,
    Restricted,
    NotDetermined,
    /// A status this app does not know, or no audio media type.
    Other,
}

/// The label of a microphone authorization.
pub fn microphone_label(a: MicAuthorization) -> (r: &'static str)
    ensures
        r@ == match a {
            MicAuthorization::Authorized => "granted"@,
            MicAuthorization::Denied | MicAuthorization::Restricted => "denied"@,
            MicAuthorization::NotDetermined => "undetermined"@,
            MicAuthorization::Other => "unknown"@,
        },
{
    match a {
        MicAuthorization::Authorized => "granted",
        MicAuthorization::Denied | MicAuthorization::Restricted => "denied",
        MicAuthorization::NotDetermined => "undetermined",
        MicAuthorization::Other => "unknown",
    }
}

/// Without an Accessibility permission system, keystrokes are allowed.
pub fn accessibility_trusted(_prompt: bool) -> (r: bool)
    ensures
        r,
{
    true
}

/// Without a microphone permission system, the status is unknown.
pub fn microphone_status() -> (r: &'static str)
    ensures
        r@ == "unknown"@,
{
    "unknown"
}

/// Without a microphone permission system there is nothing to request.
pub fn request_microphone() {
}

/// Both permissions as this platform reports them.
pub fn check() -> (r: PermissionsState)
    ensures
        r.microphone@ == "unknown"@,
        r.accessibility,
{
    PermissionsState { microphone: microphone_status(), accessibility: accessibility_trusted(false) }
}

} // verus!
