//! A one-voice synthesizer with last-note priority.
//!
//! Held notes are queued, newest first. A note-on starts the new note; a
//! note-off of the newest note stops it and, if other notes are still
//! held, starts the newest of them again. Releasing a note that is not the
//! newest only forgets it.
use vstd::prelude::*;
use crate::midi::{MidiMessage, MidiTranslate, is_note_on, is_note_off, lemma_note_on_off_exclusive};
use crate::midiproc::{first_index_of, lemma_first_index_of};
use crate::observer::{Observable, Observer, Node, deliveries};
use crate::types;
use crate::voice::{Voice, voice_started, voice_stopped};
use std::collections::VecDeque;

verus! {

/// Number of parameters.
pub const NPARAMS: usize = 2;

/// The parameters of the synthesizer.
#[derive(Clone, Copy, PartialEq, Eq, Structural, Debug)]
pub enum ParamName {
    BLIT,
    Postfilter,
}

/// The note queue after a message: a note-on goes in front, a note-off
/// removes the first (newest) entry with the same note number.
pub open spec fn queue_after(q: Seq<MidiMessage>, mm: MidiMessage) -> Seq<MidiMessage> {
    if is_note_on(mm) {
        seq![mm] + q
    } else if is_note_off(mm) {
        let i = first_index_of(q, mm[1], 0);
        if i >= 0 {
            q.remove(i)
        } else {
            q
        }
    } else {
        q
    }
}

/// The law of the note queue: a note-on goes in front and drops nothing; a
/// note-off removes exactly one entry, the newest of its note, if there is
/// one, and keeps every other entry in order; any other message leaves the
/// queue as it is. So a held note stays queued until its own note-off.
pub proof fn lemma_queue_after(q: Seq<MidiMessage>, mm: MidiMessage)
    ensures
        is_note_on(mm) ==> {
            let r = queue_after(q, mm);
            &&& r.len() == q.len() + 1
            &&& r[0] == mm
            &&& forall|k: int| 0 <= k < q.len() ==> #[trigger] r[k + 1] == q[k]
        },
        is_note_off(mm) ==> {
            let r = queue_after(q, mm);
            ||| (forall|k: int| 0 <= k < q.len() ==> (#[trigger] q[k])[1] != mm[1]) && r == q
            ||| exists|j: int|
                0 <= j < q.len() && (#[trigger] q[j])[1] == mm[1] && (forall|k: int|
                    0 <= k < j ==> (#[trigger] q[k])[1] != mm[1]) && r.len() == q.len() - 1 && (
                forall|k: int| 0 <= k < j ==> #[trigger] r[k] == q[k]) && (forall|k: int|
                    j < k < q.len() ==> #[trigger] r[k - 1] == q[k])
        },
        !is_note_on(mm) && !is_note_off(mm) ==> queue_after(q, mm) == q,
        forall|k: int|
            0 <= k < q.len() && !(is_note_off(mm) && (#[trigger] q[k])[1] == mm[1]) ==> queue_after(
                q,
                mm,
            ).contains(q[k]),
{
    lemma_note_on_off_exclusive(mm);
    let r = queue_after(q, mm);
    if is_note_on(mm) {
        assert forall|k: int| 0 <= k < q.len() implies r.contains(q[k]) by {
            assert(r[k + 1] == q[k]);
        }
    } else if is_note_off(mm) {
        lemma_first_index_of(q, mm[1], 0);
        let j = first_index_of(q, mm[1], 0);
        if j >= 0 {
            assert forall|k: int| 0 <= k < q.len() && q[k][1] != mm[1] implies r.contains(q[k]) by {
                if k < j {
                    assert(r[k] == q[k]);
                } else {
                    assert(r[k - 1] == q[k]);
                }
            }
        } else {
            assert forall|k: int| 0 <= k < q.len() implies r.contains(q[k]) by {
                assert(r[k] == q[k]);
            }
        }
    } else {
        assert forall|k: int| 0 <= k < q.len() implies r.contains(q[k]) by {
            assert(r[k] == q[k]);
        }
    }
}

/// The event that starts a held note on the single voice.
pub open spec fn start_event(m: MidiMessage) -> types::noteon {
    types::noteon(m[1], m[2], 0)
}

/// The monophonic synthesizer.
pub struct Synth {
    pub note_queue: VecDeque<MidiMessage>,
    pub voice: Voice,
    pub note: Observable<types::noteon>,
    pub noteoff: Observable<types::noteoff>,
}

impl Synth {
    /// The voice plays the newest held note: whenever a note is held, the
    /// last note started is the newest one.
    pub open spec fn plays_newest(&self) -> bool {
        self.note_queue@.len() > 0 ==> self.note.current() == start_event(self.note_queue@[0])
    }

    /// The voice alone watches the note and the note-off, and nothing is
    /// queued for it.
    pub open spec fn wired(&self) -> bool {
        &&& self.note.watchers() == seq![Node::Voice(0)]
        &&& self.noteoff.watchers() == seq![Node::Voice(0)]
        &&& self.note.queued().len() == 0
        &&& self.noteoff.queued().len() == 0
    }

    /// No note held; the voice watches both the note and the note-off.
    pub fn new() -> (s: Synth)
        ensures
            s.note_queue@ == Seq::<MidiMessage>::empty(),
            s.plays_newest(),
            s.voice.vel == 0,
            s.note.current() == types::noteon(0, 0, 0),
            s.noteoff.current() == types::noteoff(0, 0),
            s.note.watchers() == seq![Node::Voice(0)],
            s.noteoff.watchers() == seq![Node::Voice(0)],
            s.note.queued().len() == 0,
            s.noteoff.queued().len() == 0,
            s.wired(),
    {
        let mut s = Synth {
            note_queue: VecDeque::with_capacity(10),
            voice: Voice::new(),
            note: Observable::new(types::noteon(0, 0, 0)),
            noteoff: Observable::new(types::noteoff(0, 0)),
        };
        s.note.subscribe(Node::Voice(0));
        s.noteoff.subscribe(Node::Voice(0));
        s
    }

    /// Switching the impulse train is not passed on.
    pub fn next_blit(&mut self, blit: bool)
        ensures
            *final(self) == *old(self),
    {
        self.notifyevent_blit(blit)
    }

    /// Switching the post filter is not passed on.
    pub fn next_postfilter(&mut self, pf: bool)
        ensures
            *final(self) == *old(self),
    {
        self.notifyevent_postfilter(pf);
    }

    /// Nobody is told about the impulse train switch.
    pub fn notifyevent_blit(&mut self, blit: bool)
        ensures
            *final(self) == *old(self),
    {
    }

    /// Nobody is told about the post filter switch.
    pub fn notifyevent_postfilter(&mut self, pf: bool)
        ensures
            *final(self) == *old(self),
    {
    }
}

/// The message releases the newest held note.
pub open spec fn releases_newest(q: Seq<MidiMessage>, mm: MidiMessage) -> bool {
    is_note_off(mm) && first_index_of(q, mm[1], 0) == 0
}

/// After the message the voice (re)starts the newest held note: a note-on,
/// or the release of the newest note while others are still held.
pub open spec fn restarts(q: Seq<MidiMessage>, mm: MidiMessage) -> bool {
    is_note_on(mm) || (releases_newest(q, mm) && queue_after(q, mm).len() > 0)
}

/// After the message the voice falls silent: the newest and last held note
/// is released.
pub open spec fn silences(q: Seq<MidiMessage>, mm: MidiMessage) -> bool {
    releases_newest(q, mm) && queue_after(q, mm).len() == 0
}

impl Synth {
    /// Take a MIDI message with last-note priority and hand the events to
    /// the voice, the note-off first: the voice plays the newest held note
    /// when the message starts one or releases the newest of several,
    /// falls silent when the last held note is released, and is left as it
    /// was otherwise. The new pitch stays queued for the oscillators.
    pub fn take_midi(&mut self, mm: MidiMessage)
        requires
            old(self).wired(),
        ensures
            final(self).wired(),
            final(self).note_queue@ == queue_after(old(self).note_queue@, mm),
            old(self).plays_newest() ==> final(self).plays_newest(),
            final(self).note.current() == if restarts(old(self).note_queue@, mm) {
                start_event(final(self).note_queue@[0])
            } else {
                old(self).note.current()
            },
            final(self).noteoff.current() == if releases_newest(old(self).note_queue@, mm) {
                types::noteoff(mm[1], 0)
            } else {
                old(self).noteoff.current()
            },
            restarts(old(self).note_queue@, mm) ==> voice_started(
                final(self).voice,
                old(self).voice,
                final(self).note_queue@[0],
            ),
            silences(old(self).note_queue@, mm) ==> voice_stopped(final(self).voice, old(self).voice),
            !restarts(old(self).note_queue@, mm) && !silences(old(self).note_queue@, mm)
                ==> final(self).voice == old(self).voice,
    {
        self.next(mm);
        if self.noteoff.pending_len() > 0 {
            let offs = self.noteoff.take_pending();
            proof {
                assert(offs@ =~= seq![(Node::Voice(0), types::noteoff(mm[1], 0))]);
            }
            let (node, ev) = offs[0];
            match node {
                Node::Voice(_) => {
                    self.voice.next(ev);
                },
                _ => {},
            }
        }
        if self.note.pending_len() > 0 {
            let ons = self.note.take_pending();
            proof {
                assert(ons@ =~= seq![(Node::Voice(0), start_event(self.note_queue@[0]))]);
            }
            let (node, ev) = ons[0];
            match node {
                Node::Voice(_) => {
                    self.voice.next(ev);
                },
                _ => {},
            }
        }
    }
}

/// The newest index of a queued message with note number `n`, if any.
fn queue_position(q: &VecDeque<MidiMessage>, n: u8) -> (r: Option<usize>)
    ensures
        match r {
            Some(i) => first_index_of(q@, n, 0) == i as int && i < q@.len(),
            None => first_index_of(q@, n, 0) == -1,
        },
{
    let mut i: usize = 0;
    while i < q.len()
        invariant
            i <= q@.len(),
            first_index_of(q@, n, 0) == first_index_of(q@, n, i as int),
        decreases q@.len() - i,
    {
        if q[i][1] == n {
            return Some(i);
        }
        i = i + 1;
    }
    None
}

impl Observer<MidiMessage> for Synth {
    open spec fn accepts(&self, mm: MidiMessage) -> bool {
        true
    }

    /// Take a MIDI message, with last-note priority.
    fn next(&mut self, mm: MidiMessage)
        ensures
            final(self).note_queue@ == queue_after(old(self).note_queue@, mm),
            final(self).voice == old(self).voice,
            final(self).note.watchers() == old(self).note.watchers(),
            final(self).noteoff.watchers() == old(self).noteoff.watchers(),
            old(self).plays_newest() ==> final(self).plays_newest(),
            is_note_on(mm) ==> {
                &&& final(self).note.current() == start_event(mm)
                &&& final(self).note.queued() == old(self).note.queued() + deliveries(
                    old(self).note.watchers(),
                    start_event(mm),
                )
                &&& final(self).noteoff == old(self).noteoff
            },
            (is_note_off(mm) && first_index_of(old(self).note_queue@, mm[1], 0) == 0) ==> {
                &&& final(self).noteoff.current() == types::noteoff(mm[1], 0)
                &&& final(self).noteoff.queued() == old(self).noteoff.queued() + deliveries(
                    old(self).noteoff.watchers(),
                    types::noteoff(mm[1], 0),
                )
                &&& final(self).note_queue@.len() > 0 ==> {
                    &&& final(self).note.current() == start_event(final(self).note_queue@[0])
                    &&& final(self).note.queued() == old(self).note.queued() + deliveries(
                        old(self).note.watchers(),
                        start_event(final(self).note_queue@[0]),
                    )
                }
                &&& final(self).note_queue@.len() == 0 ==> final(self).note == old(self).note
            },
            (!is_note_on(mm) && !(is_note_off(mm) && first_index_of(old(self).note_queue@, mm[1], 0)
                == 0)) ==> {
                &&& final(self).note == old(self).note
                &&& final(self).noteoff == old(self).noteoff
            },
    {
        if mm.noteon() {
            self.note_queue.push_front(mm);
            self.note.update(types::noteon(mm[1], mm[2], 0));
        } else if mm.noteoff() {
            match queue_position(&self.note_queue, mm[1]) {
                Some(i) => {
                    self.note_queue.remove(i);
                    if i == 0 {
                        self.noteoff.update(types::noteoff(mm[1], 0));
                        if self.note_queue.len() > 0 {
                            let front = self.note_queue[0];
                            self.note.update(types::noteon(front[1], front[2], 0));
                        }
                    }
                },
                None => {},
            }
        }
    }
}

} // verus!
