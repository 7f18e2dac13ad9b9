//! Note handling, voice allocation and control logic of a small polyphonic
//! synthesizer, with its contracts proved by Verus.
#![allow(non_camel_case_types)]

pub mod midi;
pub mod lv2_plugin;
pub mod midiproc;
pub mod observer;
pub mod oscillator;
pub mod plugin;
pub mod polyphony;
pub mod slot_laws;
pub mod synth;
pub mod types;
pub mod ui;
pub mod voice;
