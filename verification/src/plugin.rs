//! The whole synthesizer: parameters, MIDI processing and voice allocation,
//! and how they are wired to each other.
use vstd::prelude::*;
use crate::midi::MidiMessage;
use crate::voice::{Voice, voice_started, voice_stopped};
use crate::midiproc::{
    MidiMessageProcessor, Slot, noteons_upto, noteoffs_upto, lemma_event_voices,
    lemma_events_per_slot, started, stopped, stack_after, allocation_for,
};
use crate::observer::{Observable, Observer, Node, fan_out, lemma_fan_out_single};
use crate::polyphony::{Polyphony, mode_defined};
use crate::types;
use crate::slot_laws::settled;

verus! {

/// Number of parameters.
pub const NPARAMS: usize = 5;

/// Number of oscillators.
pub const NOSC: usize = 11;

/// The parameters, in the order of their ports.
#[derive(Clone, Copy, PartialEq, Eq, Structural, Debug)]
pub enum ParamName {
    BLIT,
    Polyphony,
    Unison,
    Voices,
    Detune,
}

/// The switches and counts the user sets.
pub struct Params {
    pub blit: Observable<types::blit>,
    pub polyphony: Observable<types::polyphony>,
    pub unison: Observable<types::unison>,
    pub nvoices: Observable<types::nvoices>,
}

/// The synthesizer.
pub struct Plugin {
    pub params: Params,
    pub note2osc: [u8; NOSC],
    pub midi_message_processor: MidiMessageProcessor,
    pub midi_message: Observable<MidiMessage>,
    pub poly: Polyphony,
}

/// The oscillators `0..n`, in order.
pub open spec fn oscillators(n: nat) -> Seq<Node> {
    Seq::new(n, |i: int| Node::Oscillator(i as usize))
}

/// Voice `v` after the note slots went from `old` to `new`: the voice of a
/// slot that got a note plays it, the voice of a slot that was freed falls
/// silent, every other voice is as it was.
pub open spec fn voice_follows(post: Voice, pre: Voice, v: int, new: Seq<Slot>, old: Seq<Slot>) -> bool {
    if v < types::NOSC && started(new[v], old[v]) {
        voice_started(post, pre, new[v]->0)
    } else if v < types::NOSC && stopped(new[v], old[v]) {
        voice_stopped(post, pre)
    } else {
        post == pre
    }
}

/// Some of the first `k` note-ons names voice `v`.
pub open spec fn noteon_hits(evs: Seq<types::noteon>, k: int, v: int) -> bool {
    exists|a: int| 0 <= a < k && (#[trigger] evs[a]).2 == v
}

/// Some of the first `k` note-offs names voice `v`.
pub open spec fn noteoff_hits(evs: Seq<types::noteoff>, k: int, v: int) -> bool {
    exists|a: int| 0 <= a < k && (#[trigger] evs[a]).1 == v
}

impl Plugin {
    /// Nothing is wired and nothing queued yet.
    pub open spec fn unwired(&self) -> bool {
        &&& self.poly.wf()
        &&& self.midi_message.watchers().len() == 0
        &&& self.midi_message_processor.noteon.watchers().len() == 0
        &&& self.midi_message_processor.noteoff.watchers().len() == 0
        &&& self.midi_message.queued().len() == 0
        &&& self.midi_message_processor.noteon.queued().len() == 0
        &&& self.midi_message_processor.noteoff.queued().len() == 0
        &&& self.params.polyphony.watchers().len() == 0
        &&& self.params.unison.watchers().len() == 0
        &&& self.params.nvoices.watchers().len() == 0
        &&& self.poly.maxnotes.watchers().len() == 0
        &&& self.params.polyphony.queued().len() == 0
        &&& self.params.unison.queued().len() == 0
        &&& self.params.nvoices.queued().len() == 0
        &&& self.poly.maxnotes.queued().len() == 0
    }

    /// Wired for notes and switches: the MIDI processor alone watches the
    /// messages and the note count, the voice allocator alone watches the
    /// note events, the switches and the voice count; nothing is queued
    /// there.
    pub open spec fn ready(&self) -> bool {
        &&& self.poly.wf()
        &&& self.midi_message.watchers() == seq![Node::MidiProcessor]
        &&& self.midi_message_processor.noteon.watchers() == seq![Node::Polyphony]
        &&& self.midi_message_processor.noteoff.watchers() == seq![Node::Polyphony]
        &&& self.midi_message.queued().len() == 0
        &&& self.midi_message_processor.noteon.queued().len() == 0
        &&& self.midi_message_processor.noteoff.queued().len() == 0
        &&& self.params.polyphony.watchers() == seq![Node::Polyphony]
        &&& self.params.unison.watchers() == seq![Node::Polyphony]
        &&& self.params.nvoices.watchers() == seq![Node::Polyphony]
        &&& self.poly.maxnotes.watchers() == seq![Node::MidiProcessor]
        &&& self.params.polyphony.queued().len() == 0
        &&& self.params.unison.queued().len() == 0
        &&& self.params.nvoices.queued().len() == 0
        &&& self.poly.maxnotes.queued().len() == 0
    }
}

impl Plugin {
    /// Impulse train on, polyphony and unison off, one voice; oscillator
    /// `i` on note slot `i`; nothing wired yet.
    pub fn new() -> (p: Plugin)
        ensures
            p.params.blit.current() == types::blit(true),
            p.params.polyphony.current() == types::polyphony(false),
            p.params.unison.current() == types::unison(false),
            p.params.nvoices.current() == types::nvoices(1),
            p.params.blit.watchers().len() == 0,
            p.params.polyphony.watchers().len() == 0,
            p.params.unison.watchers().len() == 0,
            p.params.nvoices.watchers().len() == 0,
            forall|i: int| 0 <= i < NOSC ==> #[trigger] p.note2osc@[i] == i,
            p.midi_message.current() == [0u8, 0u8, 0u8],
            p.midi_message.watchers().len() == 0,
            p.poly.wf(),
            p.midi_message_processor.maxnotes == 1,
            p.midi_message_processor.note_stack@.len() == 0,
            p.midi_message_processor.noteon.watchers().len() == 0,
            p.midi_message_processor.noteoff.watchers().len() == 0,
            p.poly.maxnotes.watchers().len() == 0,
            p.unwired(),
            p.params.blit.queued().len() == 0,
            p.params.polyphony.queued().len() == 0,
            p.params.unison.queued().len() == 0,
            p.params.nvoices.queued().len() == 0,
            p.midi_message.queued().len() == 0,
            forall|i: int| 0 <= i < NOSC ==> #[trigger] p.poly.voicevec.0@[i] == i,
            p.poly.polyphony == types::polyphony(false),
            p.poly.unison == types::unison(false),
            p.poly.nvoices == types::nvoices(0),
            p.poly.maxnotes.current() == types::maxnotes(1),
            forall|i: int| 0 <= i < types::NOSC ==> #[trigger] p.midi_message_processor.notes@[i] is None,
            forall|i: int| 0 <= i < types::NOSC ==> #[trigger] p.midi_message_processor.notes_old@[i] is None,
            p.midi_message_processor.noteon.current() == types::noteon(0, 0, 0),
            p.midi_message_processor.noteoff.current() == types::noteoff(0, 0),
            settled(&p.midi_message_processor),
            forall|v: int|
                0 <= v < NOSC ==> {
                    &&& (#[trigger] p.poly.voices@[v]).vel == 0
                    &&& p.poly.voices@[v].f0.current() == types::f0(0)
                    &&& p.poly.voices@[v].f0.watchers().len() == 0
                    &&& p.poly.voices@[v].f0.queued().len() == 0
                },
            p.poly.br.current().0@ == Seq::new(NOSC as nat, |i: int| 0u8),
            p.poly.br.watchers().len() == 0,
            p.poly.br.queued().len() == 0,
            p.poly.maxnotes.queued().len() == 0,
    {
        let mut note2osc: [u8; NOSC] = [0; NOSC];
        let mut i: usize = 0;
        while i < NOSC
            invariant
                i <= NOSC,
                forall|j: int| 0 <= j < i ==> #[trigger] note2osc@[j] == j,
            decreases NOSC - i,
        {
            note2osc[i] = i as u8;
            i = i + 1;
        }
        Plugin {
            params: Params {
                blit: Observable::new(types::blit(true)),
                polyphony: Observable::new(types::polyphony(false)),
                unison: Observable::new(types::unison(false)),
                nvoices: Observable::new(types::nvoices(1)),
            },
            note2osc: note2osc,
            midi_message_processor: MidiMessageProcessor::new(),
            midi_message: Observable::new([0u8, 0u8, 0u8]),
            poly: Polyphony::new(),
        }
    }

    /// Wire the parts: every oscillator watches the impulse train switch;
    /// the voice allocator watches the polyphony, voice count and unison
    /// settings and the note events; the MIDI processor watches the
    /// incoming messages and the number of notes that may sound.
    pub fn connect(&mut self)
        ensures
            old(self).unwired() ==> final(self).ready(),
            final(self).params.blit.watchers() == old(self).params.blit.watchers() + oscillators(
                NOSC as nat,
            ),
            final(self).params.polyphony.watchers() == old(self).params.polyphony.watchers().push(
                Node::Polyphony,
            ),
            final(self).params.nvoices.watchers() == old(self).params.nvoices.watchers().push(
                Node::Polyphony,
            ),
            final(self).params.unison.watchers() == old(self).params.unison.watchers().push(
                Node::Polyphony,
            ),
            final(self).midi_message.watchers() == old(self).midi_message.watchers().push(
                Node::MidiProcessor,
            ),
            final(self).poly.maxnotes.watchers() == old(self).poly.maxnotes.watchers().push(
                Node::MidiProcessor,
            ),
            final(self).midi_message_processor.noteon.watchers() == old(
                self,
            ).midi_message_processor.noteon.watchers().push(Node::Polyphony),
            final(self).midi_message_processor.noteoff.watchers() == old(
                self,
            ).midi_message_processor.noteoff.watchers().push(Node::Polyphony),
            final(self).params.blit.current() == old(self).params.blit.current(),
            final(self).params.blit.queued() == old(self).params.blit.queued(),
            final(self).params.polyphony.current() == old(self).params.polyphony.current(),
            final(self).params.polyphony.queued() == old(self).params.polyphony.queued(),
            final(self).params.unison.current() == old(self).params.unison.current(),
            final(self).params.unison.queued() == old(self).params.unison.queued(),
            final(self).params.nvoices.current() == old(self).params.nvoices.current(),
            final(self).params.nvoices.queued() == old(self).params.nvoices.queued(),
            final(self).midi_message.current() == old(self).midi_message.current(),
            final(self).midi_message.queued() == old(self).midi_message.queued(),
            final(self).poly.maxnotes.current() == old(self).poly.maxnotes.current(),
            final(self).poly.maxnotes.queued() == old(self).poly.maxnotes.queued(),
            final(self).midi_message_processor.noteon.current() == old(
                self,
            ).midi_message_processor.noteon.current(),
            final(self).midi_message_processor.noteon.queued() == old(
                self,
            ).midi_message_processor.noteon.queued(),
            final(self).midi_message_processor.noteoff.current() == old(
                self,
            ).midi_message_processor.noteoff.current(),
            final(self).midi_message_processor.noteoff.queued() == old(
                self,
            ).midi_message_processor.noteoff.queued(),
            final(self).note2osc == old(self).note2osc,
            final(self).poly.voices@ == old(self).poly.voices@,
            final(self).poly.voicevec == old(self).poly.voicevec,
            final(self).poly.polyphony == old(self).poly.polyphony,
            final(self).poly.unison == old(self).poly.unison,
            final(self).poly.nvoices == old(self).poly.nvoices,
            final(self).poly.br == old(self).poly.br,
            final(self).midi_message_processor.note_stack@ == old(
                self,
            ).midi_message_processor.note_stack@,
            final(self).midi_message_processor.maxnotes == old(self).midi_message_processor.maxnotes,
            final(self).midi_message_processor.notes == old(self).midi_message_processor.notes,
            final(self).midi_message_processor.notes_old == old(
                self,
            ).midi_message_processor.notes_old,
    {
        let ghost start = self.params.blit.watchers();
        let mut i: usize = 0;
        while i < NOSC
            invariant
                i <= NOSC,
                self.params.blit.watchers() == start + oscillators(i as nat),
                self.params.blit.current() == old(self).params.blit.current(),
                self.params.blit.queued() == old(self).params.blit.queued(),
                self.params.polyphony == old(self).params.polyphony,
                self.params.unison == old(self).params.unison,
                self.params.nvoices == old(self).params.nvoices,
                self.midi_message == old(self).midi_message,
                self.poly == old(self).poly,
                self.midi_message_processor == old(self).midi_message_processor,
                self.note2osc == old(self).note2osc,
            decreases NOSC - i,
        {
            self.params.blit.subscribe(Node::Oscillator(i));
            proof {
                assert(oscillators((i + 1) as nat) =~= oscillators(i as nat).push(
                    Node::Oscillator(i),
                ));
            }
            i = i + 1;
        }
        self.params.polyphony.subscribe(Node::Polyphony);
        self.params.nvoices.subscribe(Node::Polyphony);
        self.params.unison.subscribe(Node::Polyphony);
        self.midi_message.subscribe(Node::MidiProcessor);
        self.poly.maxnotes.subscribe(Node::MidiProcessor);
        self.midi_message_processor.noteon.subscribe(Node::Polyphony);
        self.midi_message_processor.noteoff.subscribe(Node::Polyphony);
        proof {
            if old(self).unwired() {
                assert(old(self).midi_message.watchers() =~= Seq::<Node>::empty());
                assert(old(self).midi_message_processor.noteon.watchers() =~= Seq::<Node>::empty());
                assert(old(self).midi_message_processor.noteoff.watchers() =~= Seq::<Node>::empty());
                assert(Seq::<Node>::empty().push(Node::MidiProcessor) =~= seq![Node::MidiProcessor]);
                assert(old(self).params.polyphony.watchers() =~= Seq::<Node>::empty());
                assert(old(self).params.unison.watchers() =~= Seq::<Node>::empty());
                assert(old(self).params.nvoices.watchers() =~= Seq::<Node>::empty());
                assert(old(self).poly.maxnotes.watchers() =~= Seq::<Node>::empty());
                assert(Seq::<Node>::empty().push(Node::Polyphony) =~= seq![Node::Polyphony]);
            }
        }
    }
}

impl Plugin {
    /// Take one MIDI message: the MIDI processor updates its note stack and
    /// slots, and the voice allocator takes the note events that follow, so
    /// that the voice of every slot that got a note plays it and the voice
    /// of every slot that was freed falls silent. The new pitches stay
    /// queued for the oscillators.
    pub fn take_midi(&mut self, mm: MidiMessage)
        requires
            old(self).ready(),
            old(self).midi_message_processor.takes(mm),
        ensures
            final(self).ready(),
            final(self).midi_message.current() == mm,
            final(self).midi_message_processor.note_stack@ == stack_after(
                old(self).midi_message_processor.note_stack@,
                mm,
            ),
            final(self).midi_message_processor.maxnotes == old(self).midi_message_processor.maxnotes,
            final(self).midi_message_processor.notes@ == allocation_for(
                stack_after(old(self).midi_message_processor.note_stack@, mm),
                old(self).midi_message_processor.maxnotes as nat,
                old(self).midi_message_processor.notes@,
            )->0,
            final(self).midi_message_processor.notes_old@ == final(self).midi_message_processor.notes@,
            settled(&old(self).midi_message_processor) ==> settled(&final(self).midi_message_processor),
            forall|v: int|
                0 <= v < NOSC ==> voice_follows(
                    #[trigger] final(self).poly.voices@[v],
                    old(self).poly.voices@[v],
                    v,
                    final(self).midi_message_processor.notes@,
                    old(self).midi_message_processor.notes_old@,
                ),
            final(self).poly.voicevec == old(self).poly.voicevec,
            final(self).poly.polyphony == old(self).poly.polyphony,
            final(self).poly.unison == old(self).poly.unison,
            final(self).poly.nvoices == old(self).poly.nvoices,
            final(self).poly.br == old(self).poly.br,
            final(self).poly.maxnotes == old(self).poly.maxnotes,
            final(self).params == old(self).params,
            final(self).note2osc == old(self).note2osc,
    {
        let ghost oldn = self.midi_message_processor.notes_old@;
        self.midi_message.update(mm);
        let delivered = self.midi_message.take_pending();
        proof {
            assert(delivered@ =~= seq![(Node::MidiProcessor, mm)]);
        }
        self.midi_message_processor.next(mm);
        let ghost newn = self.midi_message_processor.notes@;
        let ghost ons = noteons_upto(newn, oldn, types::NOSC as int);
        let ghost offs = noteoffs_upto(newn, oldn, types::NOSC as int);
        let ghost p0 = self.poly;
        proof {
            lemma_event_voices(newn, oldn, types::NOSC as int);
            lemma_events_per_slot(newn, oldn, types::NOSC as int);
            lemma_fan_out_single(Node::Polyphony, ons);
            lemma_fan_out_single(Node::Polyphony, offs);
            assert(old(self).midi_message_processor.noteon.queued() =~= Seq::empty());
            assert(old(self).midi_message_processor.noteoff.queued() =~= Seq::empty());
        }
        let on_events = self.midi_message_processor.noteon.take_pending();
        let off_events = self.midi_message_processor.noteoff.take_pending();
        proof {
            assert(on_events@ =~= fan_out(seq![Node::Polyphony], ons));
            assert(off_events@ =~= fan_out(seq![Node::Polyphony], offs));
        }
        let ghost proc = self.midi_message_processor;
        let ghost msg = self.midi_message;
        let mut k: usize = 0;
        while k < on_events.len()
            invariant
                k <= on_events@.len(),
                on_events@.len() == ons.len(),
                forall|a: int| 0 <= a < ons.len() ==> #[trigger] on_events@[a] == (Node::Polyphony, ons[a]),
                forall|a: int|
                    0 <= a < ons.len() ==> {
                        let e = #[trigger] ons[a];
                        &&& (e.2 as int) < types::NOSC
                        &&& newn[e.2 as int] is Some
                        &&& newn[e.2 as int]->0[1] == e.0
                        &&& newn[e.2 as int]->0[2] == e.1
                    },
                forall|a: int, b: int| 0 <= a < b < ons.len() ==> (#[trigger] ons[a]).2 < (#[trigger] ons[b]).2,
                self.midi_message_processor == proc,
                self.midi_message == msg,
                self.params == old(self).params,
                self.note2osc == old(self).note2osc,
                self.poly.wf(),
                self.poly.voicevec == p0.voicevec,
                self.poly.polyphony == p0.polyphony,
                self.poly.unison == p0.unison,
                self.poly.nvoices == p0.nvoices,
                self.poly.br == p0.br,
                self.poly.maxnotes == p0.maxnotes,
                forall|v: int|
                    0 <= v < NOSC ==> if noteon_hits(ons, k as int, v) {
                        voice_started(#[trigger] self.poly.voices@[v], p0.voices@[v], newn[v]->0)
                    } else {
                        self.poly.voices@[v] == p0.voices@[v]
                    },
            decreases on_events@.len() - k,
        {
            let (node, ev) = on_events[k];
            match node {
                Node::Polyphony => {
                    let ghost pre = self.poly;
                    self.poly.next(ev);
                    proof {
                        let t = ev.2 as int;
                        assert(ev == ons[k as int]);
                        assert(!noteon_hits(ons, k as int, t));
                        assert(noteon_hits(ons, k + 1, t)) by {
                            assert(ons[k as int].2 == t);
                        }
                        assert forall|v: int| 0 <= v < NOSC && v != t implies noteon_hits(ons, k + 1, v)
                            == noteon_hits(ons, k as int, v) by {
                            if noteon_hits(ons, k + 1, v) {
                                let a = choose|a: int| 0 <= a < k + 1 && (#[trigger] ons[a]).2 == v;
                                assert(a != k);
                            }
                        }
                    }
                },
                _ => {
                    proof {
                        assert(false);
                    }
                },
            }
            k = k + 1;
        }
        let ghost p1 = self.poly;
        let mut k: usize = 0;
        while k < off_events.len()
            invariant
                k <= off_events@.len(),
                off_events@.len() == offs.len(),
                forall|a: int| 0 <= a < offs.len() ==> #[trigger] off_events@[a] == (Node::Polyphony, offs[a]),
                forall|a: int| 0 <= a < offs.len() ==> ((#[trigger] offs[a]).1 as int) < types::NOSC,
                forall|a: int, b: int| 0 <= a < b < offs.len() ==> (#[trigger] offs[a]).1 < (#[trigger] offs[b]).1,
                self.midi_message_processor == proc,
                self.midi_message == msg,
                self.params == old(self).params,
                self.note2osc == old(self).note2osc,
                self.poly.wf(),
                self.poly.voicevec == p0.voicevec,
                self.poly.polyphony == p0.polyphony,
                self.poly.unison == p0.unison,
                self.poly.nvoices == p0.nvoices,
                self.poly.br == p0.br,
                self.poly.maxnotes == p0.maxnotes,
                forall|v: int|
                    0 <= v < NOSC ==> if noteoff_hits(offs, k as int, v) {
                        voice_stopped(#[trigger] self.poly.voices@[v], p1.voices@[v])
                    } else {
                        self.poly.voices@[v] == p1.voices@[v]
                    },
            decreases off_events@.len() - k,
        {
            let (node, ev) = off_events[k];
            match node {
                Node::Polyphony => {
                    self.poly.next(ev);
                    proof {
                        let t = ev.1 as int;
                        assert(ev == offs[k as int]);
                        assert(!noteoff_hits(offs, k as int, t));
                        assert(noteoff_hits(offs, k + 1, t)) by {
                            assert(offs[k as int].1 == t);
                        }
                        assert forall|v: int| 0 <= v < NOSC && v != t implies noteoff_hits(offs, k + 1, v)
                            == noteoff_hits(offs, k as int, v) by {
                            if noteoff_hits(offs, k + 1, v) {
                                let a = choose|a: int| 0 <= a < k + 1 && (#[trigger] offs[a]).1 == v;
                                assert(a != k);
                            }
                        }
                    }
                },
                _ => {
                    proof {
                        assert(false);
                    }
                },
            }
            k = k + 1;
        }
        proof {
            assert forall|v: int| 0 <= v < NOSC implies voice_follows(
                #[trigger] self.poly.voices@[v],
                p0.voices@[v],
                v,
                newn,
                oldn,
            ) by {
                if noteon_hits(ons, ons.len() as int, v) {
                    let a = choose|a: int| 0 <= a < ons.len() && (#[trigger] ons[a]).2 == v;
                    assert(started(newn[v], oldn[v]));
                }
                if noteoff_hits(offs, offs.len() as int, v) {
                    let a = choose|a: int| 0 <= a < offs.len() && (#[trigger] offs[a]).1 == v;
                    assert(stopped(newn[v], oldn[v]));
                }
                if v < types::NOSC && started(newn[v], oldn[v]) {
                    let a = choose|a: int| 0 <= a < ons.len() && (#[trigger] ons[a]).2 == v;
                    assert(noteon_hits(ons, ons.len() as int, v));
                }
                if v < types::NOSC && stopped(newn[v], oldn[v]) {
                    let a = choose|a: int| 0 <= a < offs.len() && (#[trigger] offs[a]).1 == v;
                    assert(noteoff_hits(offs, offs.len() as int, v));
                }
            }
        }
    }
}

impl Plugin {
    /// The velocity each oscillator sounds with: that of the voice it plays.
    pub fn oscillator_velocities(&self) -> (r: [u8; NOSC])
        requires
            self.poly.wf(),
        ensures
            forall|i: int|
                0 <= i < NOSC ==> #[trigger] r@[i] == self.poly.voices@[self.poly.voicevec.0@[i] as int].vel,
    {
        let mut r: [u8; NOSC] = [0; NOSC];
        let mut i: usize = 0;
        while i < NOSC
            invariant
                i <= NOSC,
                self.poly.wf(),
                forall|j: int|
                    0 <= j < i ==> #[trigger] r@[j] == self.poly.voices@[self.poly.voicevec.0@[j] as int].vel,
            decreases NOSC - i,
        {
            let v = self.poly.voicevec.0[i] as usize;
            r[i] = self.poly.voices[v].vel;
            i = i + 1;
        }
        r
    }
}

/// The processor's notes and events are as they were.
pub open spec fn notes_kept(pre: &MidiMessageProcessor, post: &MidiMessageProcessor) -> bool {
    &&& post.note_stack@ == pre.note_stack@
    &&& post.notes@ == pre.notes@
    &&& post.notes_old@ == pre.notes_old@
    &&& post.noteon == pre.noteon
    &&& post.noteoff == pre.noteoff
}

/// The plugin after a switch or the voice count changed: the voice
/// allocator mapped the oscillators anew, and the MIDI processor took the
/// new number of notes and kept its notes. Growing that number up to the
/// number of note slots keeps the slots settled.
pub open spec fn rearranged(pre: &Plugin, post: &Plugin) -> bool {
    &&& Polyphony::mapped_for(&pre.poly, &post.poly)
    &&& post.midi_message_processor.maxnotes == post.poly.maxnotes.current().0 as usize
    &&& notes_kept(&pre.midi_message_processor, &post.midi_message_processor)
    &&& (settled(&pre.midi_message_processor) && pre.midi_message_processor.maxnotes
        <= post.midi_message_processor.maxnotes <= types::NOSC) ==> settled(
        &post.midi_message_processor,
    )
}

/// Hand the queued note count, if any, to the MIDI processor.
fn pass_maxnotes(src: &mut Observable<types::maxnotes>, dst: &mut MidiMessageProcessor)
    requires
        old(src).queued().len() <= 1,
        forall|k: int| 0 <= k < old(src).queued().len() ==> (#[trigger] old(src).queued()[k]).0 == Node::MidiProcessor,
    ensures
        final(src).current() == old(src).current(),
        final(src).watchers() == old(src).watchers(),
        final(src).queued().len() == 0,
        old(src).queued().len() == 0 ==> *final(dst) == *old(dst) && *final(src) == *old(src),
        old(src).queued().len() == 1 ==> {
            let m = old(src).queued()[0].1;
            &&& final(dst).maxnotes == m.0 as usize
            &&& notes_kept(&*old(dst), &*final(dst))
            &&& (settled(&*old(dst)) && old(dst).maxnotes <= m.0 as usize && m.0 as usize <= types::NOSC)
                ==> settled(&*final(dst))
        },
{
    if src.pending_len() > 0 {
        let pend = src.take_pending();
        let (node, m) = pend[0];
        match node {
            Node::MidiProcessor => {
                dst.next(m);
            },
            _ => {},
        }
    }
}

impl Plugin {
    /// Switch polyphony on or off; if it changed, the oscillators are
    /// mapped anew and the MIDI processor takes the new number of notes.
    pub fn set_polyphony(&mut self, p: types::polyphony)
        requires
            old(self).ready(),
            p.0 != old(self).poly.polyphony.0 ==> mode_defined(
                p.0,
                old(self).poly.unison.0,
                old(self).poly.nvoices.0,
            ),
        ensures
            final(self).ready(),
            final(self).params.polyphony.current() == p,
            final(self).poly.polyphony == p,
            final(self).poly.unison == old(self).poly.unison,
            final(self).poly.nvoices == old(self).poly.nvoices,
            p.0 != old(self).poly.polyphony.0 ==> rearranged(&*old(self), &*final(self)),
            p.0 == old(self).poly.polyphony.0 ==> final(self).poly == old(self).poly
                && final(self).midi_message_processor == old(self).midi_message_processor,
            final(self).params.blit == old(self).params.blit,
            final(self).params.unison == old(self).params.unison,
            final(self).params.nvoices == old(self).params.nvoices,
            final(self).midi_message == old(self).midi_message,
            final(self).note2osc == old(self).note2osc,
    {
        self.params.polyphony.update(p);
        let delivered = self.params.polyphony.take_pending();
        proof {
            assert(delivered@ =~= seq![(Node::Polyphony, p)]);
            assert(old(self).poly.maxnotes.queued() =~= Seq::empty());
        }
        self.poly.next(p);
        proof {
            if p.0 != old(self).poly.polyphony.0 {
                assert(self.poly.maxnotes.queued() =~= seq![(Node::MidiProcessor, self.poly.maxnotes.current())]);
            }
        }
        pass_maxnotes(&mut self.poly.maxnotes, &mut self.midi_message_processor);
    }

    /// Switch unison on or off; if it changed, the oscillators are mapped
    /// anew and the MIDI processor takes the new number of notes.
    pub fn set_unison(&mut self, u: types::unison)
        requires
            old(self).ready(),
            u.0 != old(self).poly.unison.0 ==> mode_defined(
                old(self).poly.polyphony.0,
                u.0,
                old(self).poly.nvoices.0,
            ),
        ensures
            final(self).ready(),
            final(self).params.unison.current() == u,
            final(self).poly.unison == u,
            final(self).poly.polyphony == old(self).poly.polyphony,
            final(self).poly.nvoices == old(self).poly.nvoices,
            u.0 != old(self).poly.unison.0 ==> rearranged(&*old(self), &*final(self)),
            u.0 == old(self).poly.unison.0 ==> final(self).poly == old(self).poly
                && final(self).midi_message_processor == old(self).midi_message_processor,
            final(self).params.blit == old(self).params.blit,
            final(self).params.polyphony == old(self).params.polyphony,
            final(self).params.nvoices == old(self).params.nvoices,
            final(self).midi_message == old(self).midi_message,
            final(self).note2osc == old(self).note2osc,
    {
        self.params.unison.update(u);
        let delivered = self.params.unison.take_pending();
        proof {
            assert(delivered@ =~= seq![(Node::Polyphony, u)]);
            assert(old(self).poly.maxnotes.queued() =~= Seq::empty());
        }
        self.poly.next(u);
        proof {
            if u.0 != old(self).poly.unison.0 {
                assert(self.poly.maxnotes.queued() =~= seq![(Node::MidiProcessor, self.poly.maxnotes.current())]);
            }
        }
        pass_maxnotes(&mut self.poly.maxnotes, &mut self.midi_message_processor);
    }

    /// Take a new voice count; if it changed, the oscillators are mapped
    /// anew and the MIDI processor takes the new number of notes.
    pub fn set_nvoices(&mut self, n: types::nvoices)
        requires
            old(self).ready(),
            n.0 != old(self).poly.nvoices.0 ==> mode_defined(
                old(self).poly.polyphony.0,
                old(self).poly.unison.0,
                n.0,
            ),
        ensures
            final(self).ready(),
            final(self).params.nvoices.current() == n,
            final(self).poly.nvoices == n,
            final(self).poly.polyphony == old(self).poly.polyphony,
            final(self).poly.unison == old(self).poly.unison,
            n.0 != old(self).poly.nvoices.0 ==> rearranged(&*old(self), &*final(self)),
            n.0 == old(self).poly.nvoices.0 ==> final(self).poly == old(self).poly
                && final(self).midi_message_processor == old(self).midi_message_processor,
            final(self).params.blit == old(self).params.blit,
            final(self).params.polyphony == old(self).params.polyphony,
            final(self).params.unison == old(self).params.unison,
            final(self).midi_message == old(self).midi_message,
            final(self).note2osc == old(self).note2osc,
    {
        self.params.nvoices.update(n);
        let delivered = self.params.nvoices.take_pending();
        proof {
            assert(delivered@ =~= seq![(Node::Polyphony, n)]);
            assert(old(self).poly.maxnotes.queued() =~= Seq::empty());
        }
        self.poly.next(n);
        proof {
            if n.0 != old(self).poly.nvoices.0 {
                assert(self.poly.maxnotes.queued() =~= seq![(Node::MidiProcessor, self.poly.maxnotes.current())]);
            }
        }
        pass_maxnotes(&mut self.poly.maxnotes, &mut self.midi_message_processor);
    }
}

/// The voice allocator takes every note event the MIDI processor sends:
/// each names one of the processor's slots, and there are fewer slots than
/// voices.
pub proof fn lemma_allocator_takes_processor_events(
    poly: &Polyphony,
    new: Seq<Slot>,
    old: Seq<Slot>,
)
    requires
        poly.wf(),
        new.len() == types::NOSC,
        old.len() == types::NOSC,
    ensures
        forall|k: int|
            0 <= k < noteons_upto(new, old, types::NOSC as int).len() ==> <Polyphony as Observer<
                types::noteon,
            >>::accepts(poly, #[trigger] noteons_upto(new, old, types::NOSC as int)[k]),
        forall|k: int|
            0 <= k < noteoffs_upto(new, old, types::NOSC as int).len() ==> <Polyphony as Observer<
                types::noteoff,
            >>::accepts(poly, #[trigger] noteoffs_upto(new, old, types::NOSC as int)[k]),
{
    lemma_event_voices(new, old, types::NOSC as int);
}

} // verus!
