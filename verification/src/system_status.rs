//! Whether the window can be translucent in this desktop session.
use vstd::prelude::*;
use crate::text::str_eq;

verus! {

broadcast use vstd::string::group_string_axioms;

/// The window's background and why it is so.
pub struct BackgroundEffectStatus {
    pub background_effect: String,
    pub background_effect_reason: String,
}

/// The background of the window in a session of type `session_type` (unknown
/// where the environment does not say) on a compositor that does or does not
/// offer the background effect: translucent only under Wayland with the
/// effect, opaque otherwise, with the reason.
pub fn background_effect_status(session_type: Option<String>, available: bool) -> (r: BackgroundEffectStatus)
    ensures
        ({
            let session = match session_type {
                Some(s) => s@,
                None => "unknown"@,
            };
            if session == "wayland"@ && available {
                r.background_effect@ == "translucent"@ && r.background_effect_reason@
                    == "Using compositor-provided ext-background-effect-v1"@
            } else if session == "wayland"@ {
                r.background_effect@ == "opaque"@ && r.background_effect_reason@
                    == "Opaque fallback until ext-background-effect-v1 is reported"@
            } else {
                r.background_effect@ == "opaque"@ && r.background_effect_reason@
                    == "Opaque fallback for this desktop session"@
            }
        }),
{
    let session = match session_type {
        Some(s) => s,
        None => "unknown".to_string(),
    };
    let wayland = str_eq(session.as_str(), "wayland");
    if wayland && available {
        BackgroundEffectStatus {
            background_effect: "translucent".to_string(),
            background_effect_reason: "Using compositor-provided ext-background-effect-v1".to_string(),
        }
    } else if wayland {
        BackgroundEffectStatus {
            background_effect: "opaque".to_string(),
            background_effect_reason: "Opaque fallback until ext-background-effect-v1 is reported".to_string(),
        }
    } else {
        BackgroundEffectStatus {
            background_effect: "opaque".to_string(),
            background_effect_reason: "Opaque fallback for this desktop session".to_string(),
        }
    }
}

} // verus!
