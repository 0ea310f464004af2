//! Verified core of a Linux gaming input remapper: key names, profiles,
//! assignment matching, the remap state machine, macro scheduling, HID
//! report decoding for supplemental drivers, and the text formats the
//! program reads and writes.
use vstd::prelude::*;

pub mod config;
pub mod devices;
pub mod drivers;
pub mod editor;
pub mod constants;
pub mod engine;
pub mod event_types;
pub mod hidraw;
pub mod keys;
pub mod monitor_view;
pub mod store;
pub mod text;
