//! Domain model, non-destructive editing rules, bounded undo history and the
//! `.sonema` container layout of the Sonema audio workstation.
//!
//! Identifiers are the 128-bit values of UUIDs. Floating-point settings are
//! carried as their IEEE-754 bit patterns (`f32::to_bits`, `f64::to_bits`);
//! the library only ever compares them, and the audio code that computes with
//! them lives outside this crate.

pub mod bits;
pub mod clock;
pub mod model;
pub mod seqs;
pub mod media;
pub mod project;
pub mod text;
pub mod lookup;
pub mod construct;
pub mod order;
pub mod edit;
pub mod history;
pub mod validate;
pub mod bytes;
pub mod source;
pub mod container;
pub mod round_trip;
pub mod session;
pub mod wav;
pub mod devices;
pub mod recording;
pub mod timeline;
pub mod workflow;
