//! Core of a desktop notification daemon.
//!
//! The crate holds the protocol-facing state of the daemon (id assignment,
//! hint decoding, expiry decisions), the retained notification list with its
//! replacement and trimming rules, and a time-driven popup lifecycle engine
//! whose animation phases and surface geometry are pure functions of a
//! supplied clock value. Bus transport, timers and rendering live outside;
//! everything here is plain state and arithmetic.

pub mod config;
pub mod daemon;
pub mod easing;
pub mod modules;
pub mod notification;
pub mod popup;
pub mod service;
pub mod text;
