//! Small value types that travel between the parts of the synthesizer.
//!
//! Pitches and velocities are carried as the MIDI bytes they come from
//! (note number 0..127, velocity 0..127); converting them to a frequency
//! in Hz or an amplitude is the job of the audio side.
use vstd::prelude::*;

verus! {

/// Number of note slots of the MIDI message processor.
pub const NOSC: usize = 4;

/// Whether the band-limited impulse train is used.
#[derive(Clone, Copy, PartialEq, Eq, Structural, Debug)]
pub struct blit(pub bool);

/// Whether several notes may sound at once.
#[derive(Clone, Copy, PartialEq, Eq, Structural, Debug)]
pub struct polyphony(pub bool);

/// Whether several oscillators play one note.
#[derive(Clone, Copy, PartialEq, Eq, Structural, Debug)]
pub struct unison(pub bool);

/// Number of voices asked for by the user.
#[derive(Clone, Copy, PartialEq, Eq, Structural, Debug)]
pub struct nvoices(pub usize);

/// For each oscillator, the voice that drives it.
#[derive(Clone, Copy, Debug)]
pub struct note2osc(pub [u8; 11]);

/// Number of most recent notes that get a slot.
#[derive(Clone, Copy, PartialEq, Eq, Structural, Debug)]
pub struct maxnotes(pub u8);

/// A sounding note: note number and velocity.
#[derive(Clone, Copy, PartialEq, Eq, Structural, Debug)]
pub struct note(pub u8, pub u8);

/// A note that starts: note number, velocity, voice index.
#[derive(Clone, Copy, PartialEq, Eq, Structural, Debug)]
pub struct noteon(pub u8, pub u8, pub u8);

/// A note that stops: note number, voice index.
#[derive(Clone, Copy, PartialEq, Eq, Structural, Debug)]
pub struct noteoff(pub u8, pub u8);

/// The pitch a voice asks its oscillators to play, as a note number.
#[derive(Clone, Copy, PartialEq, Eq, Structural, Debug)]
pub struct f0(pub u8);

} // verus!
