//! Verified core of a desktop status aggregator.
//!
//! A fixed set of producers (clock, system statistics, temperature, network
//! link, audio volume) each own one text fragment of a shared display state.
//! A producer recomputes its fragment and writes it only when it changed; a
//! single consumer composes all fragments in a fixed order into one string
//! for the display sink.  This crate holds the state machine, the fragment
//! formatting, the minute-boundary scheduling arithmetic and the parsers for
//! the collaborators' textual output; process, thread and display plumbing
//! live outside it.
#![verifier::loop_isolation(false)]

pub mod bytes;
pub mod clock;
pub mod digits;
pub mod net;
pub mod stat;
pub mod state;
pub mod volume;
