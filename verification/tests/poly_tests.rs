use yassy::midi::MidiMessage;
use yassy::observer::{Node, Observer};
use yassy::plugin::{ParamName, Plugin, NPARAMS};
use yassy::polyphony::Polyphony;
use yassy::synth::Synth;
use yassy::types::{f0, maxnotes, noteoff, noteon, nvoices, polyphony, unison};
use yassy::voice::Voice;

fn vv(p: &Polyphony) -> Vec<u8> {
    p.voicevec.0.to_vec()
}

fn watchers_of_voice(p: &Polyphony, v: usize) -> Vec<Node> {
    p.voices[v].f0.observers()
}

#[test]
fn new_allocator_maps_each_oscillator_to_its_own_voice() {
    let p = Polyphony::new();
    assert_eq!(vv(&p), (0u8..11).collect::<Vec<u8>>());
    assert_eq!(p.voices.len(), 11);
    assert_eq!(p.maxnotes.item(), maxnotes(1));
    assert_eq!(p.br.item().0, [0u8; 11]);
    assert_eq!(p.nvoices, nvoices(0));
}

#[test]
fn voice_vectors_of_each_mode() {
    let mut p = Polyphony::new();
    p.poly_unison();
    assert_eq!(vv(&p), vec![0, 0, 1, 1, 2, 2, 3, 3, 4, 4, 5]);
    p.poly();
    assert_eq!(vv(&p), (0u8..11).collect::<Vec<u8>>());
    p.nvoices = nvoices(3);
    p.mono_unison();
    assert_eq!(vv(&p), vec![0, 0, 0, 1, 1, 1, 1, 1, 1, 1, 1]);
    p.poly();
    p.mono();
    assert_eq!(vv(&p), (0u8..11).collect::<Vec<u8>>());
}

#[test]
fn switching_polyphony_remaps_and_tells_the_note_count() {
    let mut p = Polyphony::new();
    p.maxnotes.subscribe(Node::MidiProcessor);
    p.br.subscribe(Node::Polyphony);
    Observer::<nvoices>::next(&mut p, nvoices(6));
    // polyphony and unison off: oscillator 0 on voice 0, one note
    assert_eq!(p.maxnotes.take_pending(), vec![(Node::MidiProcessor, maxnotes(1))]);
    Observer::<polyphony>::next(&mut p, polyphony(true));
    assert_eq!(vv(&p), (0u8..11).collect::<Vec<u8>>());
    assert_eq!(p.maxnotes.take_pending(), vec![(Node::MidiProcessor, maxnotes(6))]);
    Observer::<unison>::next(&mut p, unison(true));
    assert_eq!(vv(&p), vec![0, 0, 1, 1, 2, 2, 3, 3, 4, 4, 5]);
    assert_eq!(p.maxnotes.take_pending(), vec![(Node::MidiProcessor, maxnotes(3))]);
    assert_eq!(watchers_of_voice(&p, 0), vec![Node::Oscillator(0), Node::Oscillator(1)]);
    assert_eq!(watchers_of_voice(&p, 5), vec![Node::Oscillator(10)]);
    assert_eq!(watchers_of_voice(&p, 6), vec![]);
    assert_eq!(p.br.take_pending().len(), 3);
    // the same value again changes nothing
    Observer::<unison>::next(&mut p, unison(true));
    assert_eq!(p.maxnotes.take_pending(), vec![]);
}

#[test]
fn unison_without_polyphony_drives_the_first_voices() {
    let mut p = Polyphony::new();
    Observer::<nvoices>::next(&mut p, nvoices(4));
    Observer::<unison>::next(&mut p, unison(true));
    assert_eq!(vv(&p), vec![0, 0, 0, 0, 1, 1, 1, 1, 1, 1, 1]);
    assert_eq!(p.maxnotes.item(), maxnotes(1));
    assert_eq!(
        watchers_of_voice(&p, 0),
        vec![Node::Oscillator(0), Node::Oscillator(1), Node::Oscillator(2), Node::Oscillator(3)]
    );
    assert_eq!(watchers_of_voice(&p, 1).len(), 7);
}

#[test]
fn unison_with_one_voice_keeps_one_note() {
    let mut p = Polyphony::new();
    Observer::<polyphony>::next(&mut p, polyphony(true));
    Observer::<nvoices>::next(&mut p, nvoices(1));
    Observer::<unison>::next(&mut p, unison(true));
    assert_eq!(p.maxnotes.item(), maxnotes(1));
    // the note count is truncated to a byte
    Observer::<nvoices>::next(&mut p, nvoices(600));
    assert_eq!(p.maxnotes.item(), maxnotes(44));
}

#[test]
fn note_events_reach_their_voice() {
    let mut p = Polyphony::new();
    Observer::<polyphony>::next(&mut p, polyphony(true));
    Observer::<noteon>::next(&mut p, noteon(69, 100, 2));
    assert_eq!(p.voices[2].vel, 100);
    assert_eq!(p.voices[2].f0.item(), f0(69));
    assert_eq!(p.voices[2].f0.take_pending(), vec![(Node::Oscillator(2), f0(69))]);
    assert_eq!(p.voices[1].vel, 0);
    Observer::<noteoff>::next(&mut p, noteoff(69, 2));
    assert_eq!(p.voices[2].vel, 0);
    assert_eq!(p.voices[2].f0.item(), f0(69));
}

#[test]
fn a_voice_follows_its_notes() {
    let mut v = Voice::new();
    v.f0.subscribe(Node::Oscillator(7));
    Observer::<noteon>::next(&mut v, noteon(60, 33, 0));
    assert_eq!(v.vel, 33);
    assert_eq!(v.f0.take_pending(), vec![(Node::Oscillator(7), f0(60))]);
    Observer::<noteoff>::next(&mut v, noteoff(60, 0));
    assert_eq!(v.vel, 0);
}

fn on(n: u8, v: u8) -> MidiMessage {
    [0x90, n, v]
}

fn off(n: u8) -> MidiMessage {
    [0x80, n, 0]
}

#[test]
fn the_synth_plays_the_newest_held_note() {
    let mut s = Synth::new();
    assert_eq!(s.note.observers(), vec![Node::Voice(0)]);
    Observer::<MidiMessage>::next(&mut s, on(60, 10));
    Observer::<MidiMessage>::next(&mut s, on(64, 20));
    assert_eq!(s.note.item(), noteon(64, 20, 0));
    // releasing an older note only forgets it
    Observer::<MidiMessage>::next(&mut s, off(60));
    assert_eq!(s.note_queue.len(), 1);
    assert_eq!(s.noteoff.take_pending(), vec![]);
    Observer::<MidiMessage>::next(&mut s, on(67, 30));
    Observer::<MidiMessage>::next(&mut s, off(67));
    assert_eq!(s.noteoff.take_pending(), vec![(Node::Voice(0), noteoff(67, 0))]);
    assert_eq!(s.note.item(), noteon(64, 20, 0));
    assert_eq!(
        s.note.take_pending(),
        vec![
            (Node::Voice(0), noteon(60, 10, 0)),
            (Node::Voice(0), noteon(64, 20, 0)),
            (Node::Voice(0), noteon(67, 30, 0)),
            (Node::Voice(0), noteon(64, 20, 0))
        ]
    );
    Observer::<MidiMessage>::next(&mut s, off(64));
    assert_eq!(s.note_queue.len(), 0);
    assert_eq!(s.note.take_pending(), vec![]);
    assert_eq!(s.noteoff.take_pending(), vec![(Node::Voice(0), noteoff(64, 0))]);
    s.next_blit(false);
    s.next_postfilter(false);
    assert_eq!(s.note_queue.len(), 0);
}

#[test]
fn the_plugin_starts_with_its_defaults_and_wires_its_parts() {
    let mut p = Plugin::new();
    assert_eq!(NPARAMS, 5);
    assert_eq!(ParamName::Detune as usize, 4);
    assert_eq!(p.note2osc, [0, 1, 2, 3, 4, 5, 6, 7, 8, 9, 10]);
    assert_eq!(p.params.nvoices.item(), nvoices(1));
    assert!(p.params.blit.item().0);
    assert_eq!(p.midi_message.item(), [0, 0, 0]);
    p.connect();
    assert_eq!(p.params.blit.observers(), (0..11).map(Node::Oscillator).collect::<Vec<Node>>());
    assert_eq!(p.params.polyphony.observers(), vec![Node::Polyphony]);
    assert_eq!(p.params.nvoices.observers(), vec![Node::Polyphony]);
    assert_eq!(p.params.unison.observers(), vec![Node::Polyphony]);
    assert_eq!(p.midi_message.observers(), vec![Node::MidiProcessor]);
    assert_eq!(p.poly.maxnotes.observers(), vec![Node::MidiProcessor]);
    assert_eq!(p.midi_message_processor.noteon.observers(), vec![Node::Polyphony]);
    assert_eq!(p.midi_message_processor.noteoff.observers(), vec![Node::Polyphony]);
    p.midi_message.update(on(60, 90));
    assert_eq!(p.midi_message.take_pending(), vec![(Node::MidiProcessor, on(60, 90))]);
}

#[test]
fn the_mono_synth_voice_follows_the_newest_note() {
    let mut s = Synth::new();
    s.take_midi(on(60, 100));
    assert_eq!(s.voice.vel, 100);
    assert_eq!(s.voice.f0.item(), f0(60));
    s.take_midi(on(64, 90));
    assert_eq!(s.voice.vel, 90);
    assert_eq!(s.voice.f0.item(), f0(64));
    // releasing an older note changes nothing
    s.take_midi(off(60));
    assert_eq!(s.voice.vel, 90);
    assert_eq!(s.voice.f0.item(), f0(64));
    s.take_midi(on(67, 80));
    // releasing the newest brings the one held before back
    s.take_midi(off(67));
    assert_eq!(s.voice.vel, 90);
    assert_eq!(s.voice.f0.item(), f0(64));
    assert_eq!(s.noteoff.item(), noteoff(67, 0));
    // releasing the last held note silences the voice, pitch kept
    s.take_midi(off(64));
    assert_eq!(s.voice.vel, 0);
    assert_eq!(s.voice.f0.item(), f0(64));
    assert_eq!(s.note.take_pending(), vec![]);
    assert_eq!(s.noteoff.take_pending(), vec![]);
}
