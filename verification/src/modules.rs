//! The user-facing modules built on the notification core.

pub mod notifications;
