//! Configuration consumed by the notification core. It is supplied by the
//! host; nothing here reads files.

use vstd::prelude::*;

verus! {

/// Settings for the retained list, the auto-expiry default and the popup
/// engine. Timeouts and durations are in milliseconds.
#[derive(Debug)]
pub struct NotificationsModuleConfig {
    pub max_notifications: usize,
    pub default_timeout: i32,
    pub popup_enabled: bool,
    pub popup_max_visible: usize,
    pub popup_duration_ms: u64,
    pub popup_animation_ms: u64,
}

} // verus!
