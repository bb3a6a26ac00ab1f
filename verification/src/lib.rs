//! Core engine of a Caps-Lock keyboard-layout switcher.
//!
//! Pressing Caps Lock cycles through a selected set of keyboard layouts,
//! Alt+Caps Lock performs the native Caps-Lock toggle, and a keyboard LED
//! mirrors whether the active layout is English.  This crate holds the
//! verified logic of that engine: the layout catalog (language table,
//! sorting, code lookup and validation), the rotation state machine, the
//! LED-indicator decision, and the key-event dispatch of the global hook.
//! All interaction with the operating system (hook registration, layout
//! enumeration and activation, input synthesis, configuration files) lives
//! in the unverified front end that drives this library.

pub mod catalog;
pub mod config;
pub mod hook;
pub mod indicator;
pub mod rotation;
pub mod text;
pub mod version_stamp;

pub use config::Config;
