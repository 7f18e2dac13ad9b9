use yassy::midi::MidiMessage;
use yassy::observer::Node;
use yassy::plugin::Plugin;
use yassy::types::{f0, maxnotes, noteoff, noteon, nvoices, polyphony, unison};

fn on(n: u8, v: u8) -> MidiMessage {
    [0x90, n, v]
}

fn off(n: u8) -> MidiMessage {
    [0x80, n, 0]
}

fn ready() -> Plugin {
    let mut p = Plugin::new();
    p.connect();
    p
}

#[test]
fn a_note_on_reaches_the_voice_of_its_slot() {
    let mut p = ready();
    assert!(p.midi_message_processor.fits(on(60, 100)));
    p.take_midi(on(60, 100));
    assert_eq!(p.midi_message.item(), on(60, 100));
    assert_eq!(p.midi_message_processor.notes[0], Some(on(60, 100)));
    assert_eq!(p.poly.voices[0].vel, 100);
    assert_eq!(p.poly.voices[0].f0.item(), f0(60));
    assert_eq!(p.poly.voices[0].f0.take_pending(), vec![]);
    for v in 1..11 {
        assert_eq!(p.poly.voices[v].vel, 0);
    }
    assert_eq!(p.midi_message.take_pending(), vec![]);
    assert_eq!(p.midi_message_processor.noteon.take_pending(), vec![]);
}

#[test]
fn a_note_off_silences_the_voice_and_keeps_its_pitch() {
    let mut p = ready();
    p.take_midi(on(60, 100));
    p.take_midi(off(60));
    assert_eq!(p.midi_message_processor.notes[0], None);
    assert_eq!(p.poly.voices[0].vel, 0);
    assert_eq!(p.poly.voices[0].f0.item(), f0(60));
}

#[test]
fn one_note_at_a_time_moves_to_the_newest_key() {
    let mut p = ready();
    p.take_midi(on(60, 100));
    p.take_midi(on(64, 80));
    assert_eq!(p.midi_message_processor.notes[0], Some(on(64, 80)));
    assert_eq!(p.poly.voices[0].vel, 80);
    assert_eq!(p.poly.voices[0].f0.item(), f0(64));
    p.take_midi(off(64));
    assert_eq!(p.midi_message_processor.notes[0], Some(on(60, 100)));
    assert_eq!(p.poly.voices[0].vel, 100);
    assert_eq!(p.poly.voices[0].f0.item(), f0(60));
}

#[test]
fn polyphony_lets_several_notes_sound_on_their_own_voices() {
    let mut p = ready();
    p.set_nvoices(nvoices(3));
    assert_eq!(p.midi_message_processor.maxnotes, 1);
    p.set_polyphony(polyphony(true));
    assert_eq!(p.poly.maxnotes.item(), maxnotes(3));
    assert_eq!(p.midi_message_processor.maxnotes, 3);
    assert_eq!(p.poly.maxnotes.take_pending(), vec![]);
    assert_eq!(p.poly.voicevec.0, [0, 1, 2, 3, 4, 5, 6, 7, 8, 9, 10]);
    assert_eq!(p.poly.voices[2].f0.observers(), vec![Node::Oscillator(2)]);
    p.take_midi(on(60, 100));
    p.take_midi(on(64, 90));
    p.take_midi(on(67, 80));
    assert_eq!(p.poly.voices[0].vel, 100);
    assert_eq!(p.poly.voices[1].vel, 90);
    assert_eq!(p.poly.voices[2].vel, 80);
    assert_eq!(p.poly.voices[2].f0.take_pending(), vec![(Node::Oscillator(2), f0(67))]);
    p.take_midi(off(64));
    assert_eq!(p.poly.voices[1].vel, 0);
    assert_eq!(p.poly.voices[0].vel, 100);
}

#[test]
fn unison_with_polyphony_pairs_the_oscillators() {
    let mut p = ready();
    p.set_nvoices(nvoices(4));
    p.set_unison(unison(true));
    assert_eq!(p.poly.voicevec.0, [0, 0, 0, 0, 1, 1, 1, 1, 1, 1, 1]);
    assert_eq!(p.midi_message_processor.maxnotes, 1);
    p.set_polyphony(polyphony(true));
    assert_eq!(p.poly.voicevec.0, [0, 0, 1, 1, 2, 2, 3, 3, 4, 4, 5]);
    assert_eq!(p.midi_message_processor.maxnotes, 2);
    assert_eq!(p.params.polyphony.item(), polyphony(true));
}

#[test]
fn an_unchanged_switch_changes_nothing() {
    let mut p = ready();
    p.set_polyphony(polyphony(false));
    assert_eq!(p.poly.maxnotes.take_pending(), vec![]);
    assert_eq!(p.midi_message_processor.maxnotes, 1);
    assert_eq!(p.params.polyphony.item(), polyphony(false));
}

#[test]
fn too_many_notes_for_the_slots_do_not_fit() {
    let mut p = ready();
    p.set_nvoices(nvoices(6));
    p.set_polyphony(polyphony(true));
    assert_eq!(p.midi_message_processor.maxnotes, 6);
    for n in 0..4u8 {
        assert!(p.midi_message_processor.fits(on(60 + n, 100)));
        p.take_midi(on(60 + n, 100));
    }
    assert!(!p.midi_message_processor.fits(on(70, 100)));
}

#[test]
fn each_oscillator_sounds_with_the_velocity_of_its_voice() {
    let mut p = ready();
    p.take_midi(on(60, 100));
    assert_eq!(p.oscillator_velocities(), [100, 0, 0, 0, 0, 0, 0, 0, 0, 0, 0]);
    p.set_nvoices(nvoices(3));
    p.set_unison(unison(true));
    assert_eq!(p.oscillator_velocities(), [100, 100, 100, 0, 0, 0, 0, 0, 0, 0, 0]);
}

#[test]
fn a_new_plugin_is_silent() {
    let mut p = Plugin::new();
    for v in 0..11 {
        assert_eq!(p.poly.voices[v].vel, 0);
        assert_eq!(p.poly.voices[v].f0.item(), f0(0));
        assert_eq!(p.poly.voices[v].f0.observers(), vec![]);
        assert_eq!(p.poly.voices[v].f0.take_pending(), vec![]);
    }
    assert_eq!(p.midi_message_processor.notes_old, [None; 4]);
    assert_eq!(p.midi_message_processor.noteon.item(), noteon(0, 0, 0));
    assert_eq!(p.midi_message_processor.noteoff.item(), noteoff(0, 0));
    assert_eq!(p.poly.br.item().0, [0u8; 11]);
    assert_eq!(p.poly.br.observers(), vec![]);
    assert_eq!(p.oscillator_velocities(), [0u8; 11]);
}
