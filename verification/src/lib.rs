//! Turns pad presses and axis samples of a drum controller into MIDI note
//! events placed at sample-frame offsets inside one audio cycle.
//!
//! Every function here works on plain values: the host reads the controller
//! and the audio engine, hands in what it read, and writes out what comes back.
//!
//! Three choices shape the kit:
//! - A note starts at the moment its pad was pressed, not at the later
//!   moment of the velocity sample that completes the hit.
//! - A note ends one beat after it starts, by the transport's tempo; a
//!   release of the button ends nothing.
//! - An axis value is a fixed-point integer, `midi::VELOCITY_UNIT` to 1.0.

pub mod midi;
pub mod pad;
pub mod timing;
pub mod scheduler;
pub mod emit;
pub mod processor;
