//! The remapping engine's decisions: which binding a key event selects, what
//! the remap state machine does with each event, how macros unfold in time,
//! which keys a session needs, and the auto-detect scanner.
pub mod assoc;
pub mod detect;
pub mod keysets;
pub mod laws;
pub mod log;
pub mod matching;
pub mod processor;
pub mod schedule;
