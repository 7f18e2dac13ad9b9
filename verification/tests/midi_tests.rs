use yassy::midi::{CcKind, MidiMessage, MidiTranslate};
use yassy::midiproc::MidiMessageProcessor;
use yassy::observer::{Node, Observable, Observer};
use yassy::types::{maxnotes, noteoff, noteon};

fn on(n: u8, v: u8) -> MidiMessage {
    [0x90, n, v]
}

fn off(n: u8) -> MidiMessage {
    [0x80, n, 0]
}

fn take(p: &mut MidiMessageProcessor, mm: MidiMessage) {
    assert!(p.fits(mm));
    Observer::<MidiMessage>::next(p, mm);
}

#[test]
fn note_on_and_off_on_every_channel() {
    for ch in 0u8..16 {
        let m: MidiMessage = [0x90 | ch, 60, 100];
        assert!(m.noteon());
        assert!(!m.noteoff());
        let m: MidiMessage = [0x80 | ch, 61, 0];
        assert!(m.noteoff());
        assert!(!m.noteon());
        assert_eq!(m.note_number(), 61);
    }
    let cc: MidiMessage = [0xB0, 7, 100];
    assert!(!cc.noteon() && !cc.noteoff());
    assert_ne!(CcKind::ChannelVolume, CcKind::Unknown);
}

#[test]
fn observable_queues_one_delivery_per_watcher() {
    let mut o = Observable::new(5u8);
    assert_eq!(o.item(), 5);
    o.update(6);
    assert_eq!(o.take_pending(), vec![]);
    o.subscribe(Node::Polyphony);
    o.subscribe(Node::Oscillator(3));
    o.update(7);
    assert_eq!(o.item(), 7);
    o.notify();
    assert_eq!(
        o.take_pending(),
        vec![
            (Node::Polyphony, 7),
            (Node::Oscillator(3), 7),
            (Node::Polyphony, 7),
            (Node::Oscillator(3), 7)
        ]
    );
    assert_eq!(o.take_pending(), vec![]);
    o.clear_observers();
    o.update(8);
    assert_eq!(o.take_pending(), vec![]);
    assert_eq!(o.observers().len(), 0);
}

#[test]
fn new_processor_is_empty() {
    let p = MidiMessageProcessor::new();
    assert_eq!(p.maxnotes, 1);
    assert!(p.note_stack.is_empty());
    assert_eq!(p.notes, [None; 4]);
    assert_eq!(p.noteon.item(), noteon(0, 0, 0));
    assert_eq!(p.noteoff.item(), noteoff(0, 0));
}

#[test]
fn one_note_at_a_time_follows_the_last_key() {
    let mut p = MidiMessageProcessor::new();
    p.noteon.subscribe(Node::Polyphony);
    p.noteoff.subscribe(Node::Polyphony);
    take(&mut p, on(60, 100));
    assert_eq!(p.notes, [Some(on(60, 100)), None, None, None]);
    assert_eq!(p.noteon.take_pending(), vec![(Node::Polyphony, noteon(60, 100, 0))]);
    take(&mut p, on(62, 90));
    assert_eq!(p.notes, [Some(on(62, 90)), None, None, None]);
    assert_eq!(p.noteon.take_pending(), vec![(Node::Polyphony, noteon(62, 90, 0))]);
    assert_eq!(p.noteoff.take_pending(), vec![]);
    // releasing the newest key brings the older one back
    take(&mut p, off(62));
    assert_eq!(p.note_stack, vec![on(60, 100)]);
    assert_eq!(p.notes, [Some(on(60, 100)), None, None, None]);
    assert_eq!(p.noteon.take_pending(), vec![(Node::Polyphony, noteon(60, 100, 0))]);
    take(&mut p, off(60));
    assert_eq!(p.notes, [None; 4]);
    assert_eq!(p.noteoff.take_pending(), vec![(Node::Polyphony, noteoff(60, 0))]);
    assert_eq!(p.notes_old, p.notes);
}

#[test]
fn several_notes_take_the_lowest_free_slots() {
    let mut p = MidiMessageProcessor::new();
    Observer::<maxnotes>::next(&mut p, maxnotes(4));
    assert_eq!(p.maxnotes, 4);
    p.noteon.subscribe(Node::Polyphony);
    p.noteoff.subscribe(Node::Polyphony);
    take(&mut p, on(60, 1));
    take(&mut p, on(64, 2));
    take(&mut p, on(67, 3));
    assert_eq!(p.notes, [Some(on(60, 1)), Some(on(64, 2)), Some(on(67, 3)), None]);
    assert_eq!(
        p.noteon.take_pending(),
        vec![
            (Node::Polyphony, noteon(60, 1, 0)),
            (Node::Polyphony, noteon(64, 2, 1)),
            (Node::Polyphony, noteon(67, 3, 2))
        ]
    );
    take(&mut p, off(64));
    assert_eq!(p.notes, [Some(on(60, 1)), None, Some(on(67, 3)), None]);
    assert_eq!(p.noteoff.take_pending(), vec![(Node::Polyphony, noteoff(64, 1))]);
    take(&mut p, on(71, 4));
    assert_eq!(p.notes, [Some(on(60, 1)), Some(on(71, 4)), Some(on(67, 3)), None]);
    assert_eq!(p.noteon.take_pending(), vec![(Node::Polyphony, noteon(71, 4, 1))]);
}

#[test]
fn a_repeated_key_keeps_one_slot() {
    let mut p = MidiMessageProcessor::new();
    Observer::<maxnotes>::next(&mut p, maxnotes(4));
    take(&mut p, on(60, 1));
    take(&mut p, on(60, 2));
    assert_eq!(p.note_stack, vec![on(60, 1), on(60, 2)]);
    assert_eq!(p.notes, [Some(on(60, 1)), None, None, None]);
    // a note-off removes the oldest entry of that note
    take(&mut p, off(60));
    assert_eq!(p.note_stack, vec![on(60, 2)]);
    assert_eq!(p.notes, [Some(on(60, 1)), None, None, None]);
}

#[test]
fn other_messages_leave_the_stack_alone() {
    let mut p = MidiMessageProcessor::new();
    take(&mut p, on(60, 1));
    take(&mut p, [0xB0, 7, 100]);
    take(&mut p, off(61));
    assert_eq!(p.note_stack, vec![on(60, 1)]);
    assert_eq!(p.notes, [Some(on(60, 1)), None, None, None]);
}

#[test]
fn more_recent_notes_than_slots_do_not_fit() {
    let mut p = MidiMessageProcessor::new();
    Observer::<maxnotes>::next(&mut p, maxnotes(5));
    for n in 60u8..64 {
        take(&mut p, on(n, 1));
    }
    assert!(!p.fits(on(64, 1)));
    assert!(p.fits(off(60)));
}

#[test]
fn shrinking_maxnotes_frees_one_slot_per_update() {
    let mut p = MidiMessageProcessor::new();
    Observer::<maxnotes>::next(&mut p, maxnotes(4));
    for n in 60u8..63 {
        take(&mut p, on(n, 1));
    }
    Observer::<maxnotes>::next(&mut p, maxnotes(1));
    p.update_notes();
    assert_eq!(p.notes, [None, Some(on(61, 1)), Some(on(62, 1)), None]);
    p.update_notes();
    assert_eq!(p.notes, [None, None, Some(on(62, 1)), None]);
}
