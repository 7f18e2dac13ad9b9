//! Turning incoming MIDI note messages into note-on and note-off events,
//! one note slot per sounding note.
//!
//! Pressed notes are kept on a stack, most recent last. Of them, the
//! `maxnotes` most recent ones are meant to sound; each gets one of the
//! `NOSC` slots. After every message the slots are brought up to date: a
//! slot whose note is no longer among the recent ones is freed (the first
//! such slot, one per update), then each recent note that has no slot yet,
//! most recent first, takes the lowest free slot. Every slot whose note
//! changed then yields a note-on (new note) or note-off (slot freed) event,
//! tagged with the slot index as the voice index.
use vstd::prelude::*;
use crate::midi::{MidiMessage, MidiTranslate, is_note_on, is_note_off};
use crate::observer::{Observable, Observer, fan_out, lemma_fan_out_push};
use crate::types;
use crate::types::NOSC;
use crate::slot_laws::{settled, no_stale, lemma_settled_never_runs_out};

verus! {

/// A note slot: the message of the note that holds it, if any.
pub type Slot = Option<MidiMessage>;

/// The `maxnotes` most recent messages of the stack (all of them if there
/// are fewer), most recent first.
pub open spec fn recent(stack: Seq<MidiMessage>, maxnotes: nat) -> Seq<MidiMessage> {
    let k = if maxnotes < stack.len() {
        maxnotes
    } else {
        stack.len()
    };
    Seq::new(k, |j: int| stack[stack.len() - 1 - j])
}

/// Some message of `msgs` has note number `n`.
pub open spec fn has_number(msgs: Seq<MidiMessage>, n: u8) -> bool {
    exists|j: int| 0 <= j < msgs.len() && msgs[j][1] == n
}

/// The slot holds a note with number `n`.
pub open spec fn slot_has(slot: Slot, n: u8) -> bool {
    slot matches Some(m) && m[1] == n
}

/// Some slot holds a note with number `n`.
pub open spec fn holds(slots: Seq<Slot>, n: u8) -> bool {
    exists|i: int| 0 <= i < slots.len() && #[trigger] slot_has(slots[i], n)
}

/// The slot holds a note that is not among the recent ones.
pub open spec fn stale(slot: Slot, recent: Seq<MidiMessage>) -> bool {
    slot matches Some(m) && !has_number(recent, m[1])
}

/// The first stale slot at index `i` or later, or -1.
pub open spec fn first_stale_from(slots: Seq<Slot>, recent: Seq<MidiMessage>, i: int) -> int
    decreases slots.len() - i,
{
    if i < 0 || i >= slots.len() {
        -1
    } else if stale(slots[i], recent) {
        i
    } else {
        first_stale_from(slots, recent, i + 1)
    }
}

/// The slots with the first stale one freed.
pub open spec fn pruned(slots: Seq<Slot>, recent: Seq<MidiMessage>) -> Seq<Slot> {
    let i = first_stale_from(slots, recent, 0);
    if i >= 0 {
        slots.update(i, None)
    } else {
        slots
    }
}

/// The first free slot at index `i` or later, or -1.
pub open spec fn first_free_from(slots: Seq<Slot>, i: int) -> int
    decreases slots.len() - i,
{
    if i < 0 || i >= slots.len() {
        -1
    } else if slots[i] is None {
        i
    } else {
        first_free_from(slots, i + 1)
    }
}

/// Give each message of `msgs` from index `j` on, in order, whose note has
/// no slot yet, the lowest free slot; `None` when one finds no free slot.
pub open spec fn assign_from(slots: Seq<Slot>, msgs: Seq<MidiMessage>, j: int) -> Option<
    Seq<Slot>,
>
    decreases msgs.len() - j,
{
    if j < 0 || j >= msgs.len() {
        Some(slots)
    } else if holds(slots, msgs[j][1]) {
        assign_from(slots, msgs, j + 1)
    } else {
        let f = first_free_from(slots, 0);
        if f < 0 {
            None
        } else {
            assign_from(slots.update(f, Some(msgs[j])), msgs, j + 1)
        }
    }
}

/// The slots after an update, or `None` when the update runs out of slots.
pub open spec fn allocation_for(stack: Seq<MidiMessage>, maxnotes: nat, slots: Seq<Slot>) -> Option<
    Seq<Slot>,
> {
    let r = recent(stack, maxnotes);
    assign_from(pruned(slots, r), r, 0)
}

/// The first index at `i` or later of a message with note number `n`, or -1.
pub open spec fn first_index_of(stack: Seq<MidiMessage>, n: u8, i: int) -> int
    decreases stack.len() - i,
{
    if i < 0 || i >= stack.len() {
        -1
    } else if stack[i][1] == n {
        i
    } else {
        first_index_of(stack, n, i + 1)
    }
}

/// The note stack after a message: a note-on is pushed, a note-off removes
/// the oldest entry with the same note number, anything else is ignored.
pub open spec fn stack_after(stack: Seq<MidiMessage>, mm: MidiMessage) -> Seq<MidiMessage> {
    if is_note_on(mm) {
        stack.push(mm)
    } else if is_note_off(mm) {
        let i = first_index_of(stack, mm[1], 0);
        if i >= 0 {
            stack.remove(i)
        } else {
            stack
        }
    } else {
        stack
    }
}

/// A slot gets a note it did not have before.
pub open spec fn started(new: Slot, old: Slot) -> bool {
    new matches Some(n) && (old matches Some(o) ==> o[1] != n[1])
}

/// A slot that held a note is now free.
pub open spec fn stopped(new: Slot, old: Slot) -> bool {
    new is None && old is Some
}

/// The note-on events of the first `i` slots, in slot order.
pub open spec fn noteons_upto(new: Seq<Slot>, old: Seq<Slot>, i: int) -> Seq<types::noteon>
    decreases i,
{
    if i <= 0 {
        Seq::empty()
    } else {
        let prev = noteons_upto(new, old, i - 1);
        if started(new[i - 1], old[i - 1]) {
            prev.push(types::noteon(new[i - 1]->0[1], new[i - 1]->0[2], (i - 1) as u8))
        } else {
            prev
        }
    }
}

/// The note-off events of the first `i` slots, in slot order.
pub open spec fn noteoffs_upto(new: Seq<Slot>, old: Seq<Slot>, i: int) -> Seq<types::noteoff>
    decreases i,
{
    if i <= 0 {
        Seq::empty()
    } else {
        let prev = noteoffs_upto(new, old, i - 1);
        if stopped(new[i - 1], old[i - 1]) {
            prev.push(types::noteoff(old[i - 1]->0[1], (i - 1) as u8))
        } else {
            prev
        }
    }
}

/// No two slots hold notes with the same number.
pub open spec fn distinct_notes(slots: Seq<Slot>) -> bool {
    forall|i: int, j: int|
        0 <= i < j < slots.len() && #[trigger] slots[i] is Some && #[trigger] slots[j] is Some
            ==> slots[i]->0[1] != slots[j]->0[1]
}

/// Turns MIDI messages into note events, one slot per sounding note.
pub struct MidiMessageProcessor {
    pub note_stack: Vec<MidiMessage>,
    pub maxnotes: usize,
    pub notes: [Slot; NOSC],
    pub notes_old: [Slot; NOSC],
    pub noteon: Observable<types::noteon>,
    pub noteoff: Observable<types::noteoff>,
}

/// Whether some message of `msgs` has note number `n`.
fn contains_number(msgs: &Vec<MidiMessage>, n: u8) -> (r: bool)
    ensures
        r == has_number(msgs@, n),
{
    let mut j: usize = 0;
    while j < msgs.len()
        invariant
            j <= msgs@.len(),
            forall|k: int| 0 <= k < j ==> msgs@[k][1] != n,
        decreases msgs@.len() - j,
    {
        if msgs[j][1] == n {
            return true;
        }
        j = j + 1;
    }
    false
}

/// The `maxnotes` most recent messages, most recent first.
fn recent_messages(stack: &Vec<MidiMessage>, maxnotes: usize) -> (r: Vec<MidiMessage>)
    ensures
        r@ == recent(stack@, maxnotes as nat),
{
    let len = stack.len();
    let k = if maxnotes < len {
        maxnotes
    } else {
        len
    };
    let mut r: Vec<MidiMessage> = Vec::new();
    let mut j: usize = 0;
    while j < k
        invariant
            k <= len,
            len == stack@.len(),
            k == recent(stack@, maxnotes as nat).len(),
            j <= k,
            r@ == recent(stack@, maxnotes as nat).take(j as int),
        decreases k - j,
    {
        r.push(stack[len - 1 - j]);
        proof {
            assert(r@ =~= recent(stack@, maxnotes as nat).take(j + 1));
        }
        j = j + 1;
    }
    proof {
        assert(r@ =~= recent(stack@, maxnotes as nat));
    }
    r
}

/// Whether some slot holds a note with number `n`.
fn holds_number(slots: &[Slot; NOSC], n: u8) -> (r: bool)
    ensures
        r == holds(slots@, n),
{
    let mut i: usize = 0;
    while i < NOSC
        invariant
            i <= NOSC,
            slots@.len() == NOSC,
            forall|k: int| 0 <= k < i ==> !#[trigger] slot_has(slots@[k], n),
        decreases NOSC - i,
    {
        match slots[i] {
            Some(m) => {
                if m[1] == n {
                    assert(slot_has(slots@[i as int], n));
                    return true;
                }
            },
            None => {},
        }
        i = i + 1;
    }
    false
}

/// The lowest free slot, if any.
fn first_free(slots: &[Slot; NOSC]) -> (r: Option<usize>)
    ensures
        match r {
            Some(i) => first_free_from(slots@, 0) == i as int && i < NOSC,
            None => first_free_from(slots@, 0) == -1,
        },
{
    let mut i: usize = 0;
    while i < NOSC
        invariant
            i <= NOSC,
            slots@.len() == NOSC,
            first_free_from(slots@, 0) == first_free_from(slots@, i as int),
        decreases NOSC - i,
    {
        if slots[i].is_none() {
            return Some(i);
        }
        i = i + 1;
    }
    None
}

/// Free the first slot whose note is not among `recent`.
fn prune(slots: [Slot; NOSC], recent: &Vec<MidiMessage>) -> (r: [Slot; NOSC])
    ensures
        r@ == pruned(slots@, recent@),
{
    let mut i: usize = 0;
    while i < NOSC
        invariant
            i <= NOSC,
            slots@.len() == NOSC,
            first_stale_from(slots@, recent@, 0) == first_stale_from(slots@, recent@, i as int),
        decreases NOSC - i,
    {
        match slots[i] {
            Some(note) => {
                if !contains_number(recent, note[1]) {
                    let mut out = slots;
                    out[i] = None;
                    proof {
                        assert(out@ =~= slots@.update(i as int, None));
                    }
                    return out;
                }
            },
            None => {},
        }
        i = i + 1;
    }
    slots
}

/// Give the recent notes without a slot the lowest free slots, most
/// recent first; `None` when no slot is free for one of them.
fn allocate(slots: [Slot; NOSC], msgs: &Vec<MidiMessage>) -> (r: Option<[Slot; NOSC]>)
    ensures
        match r {
            Some(s) => assign_from(slots@, msgs@, 0) == Some(s@),
            None => assign_from(slots@, msgs@, 0) is None,
        },
{
    let mut cur = slots;
    let mut j: usize = 0;
    while j < msgs.len()
        invariant
            j <= msgs@.len(),
            cur@.len() == NOSC,
            assign_from(cur@, msgs@, j as int) == assign_from(slots@, msgs@, 0),
        decreases msgs@.len() - j,
    {
        let m = msgs[j];
        if !holds_number(&cur, m[1]) {
            match first_free(&cur) {
                Some(f) => {
                    let ghost before = cur@;
                    cur[f] = Some(m);
                    proof {
                        assert(cur@ =~= before.update(f as int, Some(m)));
                    }
                },
                None => {
                    return None;
                },
            }
        }
        j = j + 1;
    }
    Some(cur)
}

/// The oldest index of a message with note number `n`, if any.
fn position_of(stack: &Vec<MidiMessage>, n: u8) -> (r: Option<usize>)
    ensures
        match r {
            Some(i) => first_index_of(stack@, n, 0) == i as int && i < stack@.len(),
            None => first_index_of(stack@, n, 0) == -1,
        },
{
    let mut i: usize = 0;
    while i < stack.len()
        invariant
            i <= stack@.len(),
            first_index_of(stack@, n, 0) == first_index_of(stack@, n, i as int),
        decreases stack@.len() - i,
    {
        if stack[i][1] == n {
            return Some(i);
        }
        i = i + 1;
    }
    None
}

/// Apply one message to the note stack.
fn apply_to_stack(stack: &mut Vec<MidiMessage>, mm: MidiMessage)
    ensures
        final(stack)@ == stack_after(old(stack)@, mm),
{
    if mm.noteon() {
        stack.push(mm);
    } else if mm.noteoff() {
        match position_of(stack, mm[1]) {
            Some(i) => {
                stack.remove(i);
            },
            None => {},
        }
    }
}

/// A copy of a list of messages.
fn copy_messages(v: &Vec<MidiMessage>) -> (r: Vec<MidiMessage>)
    ensures
        r@ == v@,
{
    let mut r: Vec<MidiMessage> = Vec::new();
    let mut i: usize = 0;
    while i < v.len()
        invariant
            i <= v@.len(),
            r@ == v@.take(i as int),
        decreases v@.len() - i,
    {
        r.push(v[i]);
        proof {
            assert(r@ =~= v@.take(i + 1));
        }
        i = i + 1;
    }
    proof {
        assert(r@ =~= v@);
    }
    r
}

impl MidiMessageProcessor {
    /// The recent notes that are meant to sound, most recent first.
    pub open spec fn window(&self) -> Seq<MidiMessage> {
        recent(self.note_stack@, self.maxnotes as nat)
    }

    /// The slots after an update, or `None` when it runs out of slots.
    pub open spec fn allocation(&self) -> Option<Seq<Slot>> {
        allocation_for(self.note_stack@, self.maxnotes as nat, self.notes@)
    }

    /// A processor with no notes, one note at a time, nobody watching.
    pub fn new() -> (p: MidiMessageProcessor)
        ensures
            p.note_stack@ == Seq::<MidiMessage>::empty(),
            p.maxnotes == 1,
            forall|i: int| 0 <= i < NOSC ==> p.notes@[i] is None && p.notes_old@[i] is None,
            p.noteon.current() == types::noteon(0, 0, 0),
            p.noteoff.current() == types::noteoff(0, 0),
            p.noteon.watchers() == Seq::<crate::observer::Node>::empty(),
            p.noteoff.watchers() == Seq::<crate::observer::Node>::empty(),
            p.noteon.queued().len() == 0,
            p.noteoff.queued().len() == 0,
            settled(&p),
    {
        MidiMessageProcessor {
            note_stack: Vec::with_capacity(10),
            maxnotes: 1,
            notes: [None; NOSC],
            notes_old: [None; NOSC],
            noteon: Observable::new(types::noteon(0, 0, 0)),
            noteoff: Observable::new(types::noteoff(0, 0)),
        }
    }

    /// Bring the slots up to date with the note stack and tell the
    /// watchers about every slot that changed since the last update.
    pub fn update_notes(&mut self)
        requires
            old(self).allocation() is Some,
        ensures
            final(self).notes@ == old(self).allocation()->0,
            final(self).notes_old@ == final(self).notes@,
            final(self).note_stack@ == old(self).note_stack@,
            final(self).maxnotes == old(self).maxnotes,
            final(self).noteon.watchers() == old(self).noteon.watchers(),
            final(self).noteoff.watchers() == old(self).noteoff.watchers(),
            final(self).noteon.queued() == old(self).noteon.queued() + fan_out(
                old(self).noteon.watchers(),
                noteons_upto(final(self).notes@, old(self).notes_old@, NOSC as int),
            ),
            final(self).noteoff.queued() == old(self).noteoff.queued() + fan_out(
                old(self).noteoff.watchers(),
                noteoffs_upto(final(self).notes@, old(self).notes_old@, NOSC as int),
            ),
            ({
                let ev = noteons_upto(final(self).notes@, old(self).notes_old@, NOSC as int);
                final(self).noteon.current() == if ev.len() > 0 {
                    ev.last()
                } else {
                    old(self).noteon.current()
                }
            }),
            ({
                let ev = noteoffs_upto(final(self).notes@, old(self).notes_old@, NOSC as int);
                final(self).noteoff.current() == if ev.len() > 0 {
                    ev.last()
                } else {
                    old(self).noteoff.current()
                }
            }),
    {
        let recent = recent_messages(&self.note_stack, self.maxnotes);
        let cleaned = prune(self.notes, &recent);
        let allocated = allocate(cleaned, &recent);
        let slots = match allocated {
            Some(s) => s,
            None => {
                proof {
                    assert(false);
                }
                cleaned
            },
        };
        self.notes = slots;
        let ghost old_notes = self.notes_old@;
        let ghost on_obs = self.noteon.watchers();
        let ghost off_obs = self.noteoff.watchers();
        let ghost on_start = self.noteon.queued();
        let ghost off_start = self.noteoff.queued();
        let ghost on_first = self.noteon.current();
        let ghost off_first = self.noteoff.current();
        let mut i: usize = 0;
        while i < NOSC
            invariant
                i <= NOSC,
                self.notes@ == slots@,
                self.notes_old@ == old_notes,
                slots@.len() == NOSC,
                old_notes.len() == NOSC,
                self.note_stack@ == old(self).note_stack@,
                self.maxnotes == old(self).maxnotes,
                self.noteon.watchers() == on_obs,
                self.noteoff.watchers() == off_obs,
                self.noteon.queued() == on_start + fan_out(
                    on_obs,
                    noteons_upto(slots@, old_notes, i as int),
                ),
                self.noteoff.queued() == off_start + fan_out(
                    off_obs,
                    noteoffs_upto(slots@, old_notes, i as int),
                ),
                ({
                    let ev = noteons_upto(slots@, old_notes, i as int);
                    self.noteon.current() == if ev.len() > 0 {
                        ev.last()
                    } else {
                        on_first
                    }
                }),
                ({
                    let ev = noteoffs_upto(slots@, old_notes, i as int);
                    self.noteoff.current() == if ev.len() > 0 {
                        ev.last()
                    } else {
                        off_first
                    }
                }),
            decreases NOSC - i,
        {
            let ghost ons = noteons_upto(slots@, old_notes, i as int);
            let ghost offs = noteoffs_upto(slots@, old_notes, i as int);
            match self.notes[i] {
                Some(note) => {
                    let start = match self.notes_old[i] {
                        Some(note2) => note[1] != note2[1],
                        None => true,
                    };
                    if start {
                        let ev = types::noteon(note[1], note[2], i as u8);
                        self.noteon.update(ev);
                        proof {
                            lemma_fan_out_push(on_obs, ons, ev);
                            assert(noteons_upto(slots@, old_notes, i + 1) == ons.push(ev));
                        }
                    }
                },
                None => {
                    match self.notes_old[i] {
                        Some(note) => {
                            let ev = types::noteoff(note[1], i as u8);
                            self.noteoff.update(ev);
                            proof {
                                lemma_fan_out_push(off_obs, offs, ev);
                                assert(noteoffs_upto(slots@, old_notes, i + 1) == offs.push(ev));
                            }
                        },
                        None => {},
                    }
                },
            }
            i = i + 1;
        }
        self.notes_old = self.notes;
    }
}


impl MidiMessageProcessor {
    /// Whether a message can be taken: the update that follows it finds a
    /// free slot for every recent note that needs one.
    pub open spec fn takes(&self, mm: MidiMessage) -> bool {
        allocation_for(stack_after(self.note_stack@, mm), self.maxnotes as nat, self.notes@) is Some
    }

    /// Whether `next` can take this message without running out of slots.
    pub fn fits(&self, mm: MidiMessage) -> (r: bool)
        ensures
            r == self.takes(mm),
    {
        let mut stack = copy_messages(&self.note_stack);
        apply_to_stack(&mut stack, mm);
        let recent = recent_messages(&stack, self.maxnotes);
        let cleaned = prune(self.notes, &recent);
        allocate(cleaned, &recent).is_some()
    }
}

impl Observer<MidiMessage> for MidiMessageProcessor {
    open spec fn accepts(&self, mm: MidiMessage) -> bool {
        self.takes(mm)
    }

    /// Take a MIDI message: a note-on pushes the note, a note-off removes
    /// the oldest entry of that note; then the slots are brought up to date.
    fn next(&mut self, mm: MidiMessage)
        ensures
            settled(&*old(self)) ==> settled(&*final(self)),
            final(self).note_stack@ == stack_after(old(self).note_stack@, mm),
            final(self).maxnotes == old(self).maxnotes,
            final(self).notes@ == allocation_for(
                stack_after(old(self).note_stack@, mm),
                old(self).maxnotes as nat,
                old(self).notes@,
            )->0,
            final(self).notes_old@ == final(self).notes@,
            final(self).noteon.watchers() == old(self).noteon.watchers(),
            final(self).noteoff.watchers() == old(self).noteoff.watchers(),
            final(self).noteon.queued() == old(self).noteon.queued() + fan_out(
                old(self).noteon.watchers(),
                noteons_upto(final(self).notes@, old(self).notes_old@, NOSC as int),
            ),
            final(self).noteoff.queued() == old(self).noteoff.queued() + fan_out(
                old(self).noteoff.watchers(),
                noteoffs_upto(final(self).notes@, old(self).notes_old@, NOSC as int),
            ),
            ({
                let ev = noteons_upto(final(self).notes@, old(self).notes_old@, NOSC as int);
                final(self).noteon.current() == if ev.len() > 0 {
                    ev.last()
                } else {
                    old(self).noteon.current()
                }
            }),
            ({
                let ev = noteoffs_upto(final(self).notes@, old(self).notes_old@, NOSC as int);
                final(self).noteoff.current() == if ev.len() > 0 {
                    ev.last()
                } else {
                    old(self).noteoff.current()
                }
            }),
    {
        proof {
            if settled(&*self) {
                lemma_settled_never_runs_out(self.note_stack@, self.maxnotes as nat, self.notes@, mm);
            }
        }
        apply_to_stack(&mut self.note_stack, mm);
        self.update_notes();
    }
}

impl Observer<types::maxnotes> for MidiMessageProcessor {
    open spec fn accepts(&self, m: types::maxnotes) -> bool {
        true
    }

    /// Take a new number of notes that may sound at once.
    fn next(&mut self, m: types::maxnotes)
        ensures
            (settled(&*old(self)) && old(self).maxnotes <= m.0 as usize && m.0 as usize <= NOSC)
                ==> settled(&*final(self)),
            final(self).maxnotes == m.0 as usize,
            final(self).note_stack@ == old(self).note_stack@,
            final(self).notes@ == old(self).notes@,
            final(self).notes_old@ == old(self).notes_old@,
            final(self).noteon == old(self).noteon,
            final(self).noteoff == old(self).noteoff,
    {
        let ghost before = self.window();
        let ghost grows = self.maxnotes <= m.0 as usize;
        self.maxnotes = m.0 as usize;
        proof {
            let after = self.window();
            if grows {
                assert forall|i: int|
                    0 <= i < self.notes@.len() && !stale(self.notes@[i], before) implies !stale(
                        #[trigger] self.notes@[i],
                        after,
                    ) by {
                    if self.notes@[i] is Some {
                        let n = self.notes@[i]->0[1];
                        let t = choose|t: int| 0 <= t < before.len() && before[t][1] == n;
                        assert(after[t][1] == before[t][1]);
                    }
                }
            }
        }
    }
}

/// Where the first entry of note `n` at or after `i` lies: -1 when there is
/// none, else an entry of `n` with no entry of `n` between `i` and it.
pub proof fn lemma_first_index_of(stack: Seq<MidiMessage>, n: u8, i: int)
    requires
        0 <= i,
    ensures
        ({
            let f = first_index_of(stack, n, i);
            &&& f == -1 ==> forall|k: int| i <= k < stack.len() ==> (#[trigger] stack[k])[1] != n
            &&& f != -1 ==> i <= f < stack.len() && stack[f][1] == n
            &&& forall|k: int| i <= k < f ==> (#[trigger] stack[k])[1] != n
        }),
    decreases stack.len() - i,
{
    if i < stack.len() && stack[i][1] != n {
        lemma_first_index_of(stack, n, i + 1);
    }
}

/// The law of the note stack: a note-on is pushed on top and drops
/// nothing; a note-off removes exactly one entry, the oldest of its note,
/// if there is one, and keeps every other entry in order; any other
/// message leaves the stack as it is.
pub proof fn lemma_stack_after(stack: Seq<MidiMessage>, mm: MidiMessage)
    ensures
        is_note_on(mm) ==> stack_after(stack, mm).len() == stack.len() + 1 && stack_after(
            stack,
            mm,
        ).last() == mm && forall|k: int|
            0 <= k < stack.len() ==> #[trigger] stack_after(stack, mm)[k] == stack[k],
        is_note_off(mm) ==> {
            let r = stack_after(stack, mm);
            ||| (forall|k: int| 0 <= k < stack.len() ==> (#[trigger] stack[k])[1] != mm[1]) && r
                == stack
            ||| exists|j: int|
                0 <= j < stack.len() && (#[trigger] stack[j])[1] == mm[1] && (forall|k: int|
                    0 <= k < j ==> (#[trigger] stack[k])[1] != mm[1]) && r.len() == stack.len() - 1
                    && (forall|k: int| 0 <= k < j ==> #[trigger] r[k] == stack[k]) && (forall|k: int|
                    j < k < stack.len() ==> #[trigger] r[k - 1] == stack[k])
        },
        !is_note_on(mm) && !is_note_off(mm) ==> stack_after(stack, mm) == stack,
{
    crate::midi::lemma_note_on_off_exclusive(mm);
    if is_note_off(mm) {
        lemma_first_index_of(stack, mm[1], 0);
    }
}

/// Where the first stale slot at or after `i` lies.
pub proof fn lemma_first_stale(slots: Seq<Slot>, recent: Seq<MidiMessage>, i: int)
    requires
        0 <= i,
    ensures
        ({
            let f = first_stale_from(slots, recent, i);
            &&& f == -1 || (i <= f < slots.len() && stale(slots[f], recent))
            &&& forall|k: int| i <= k < slots.len() && (f == -1 || k < f) ==> !stale(
                #[trigger] slots[k],
                recent,
            )
        }),
    decreases slots.len() - i,
{
    if i < slots.len() && !stale(slots[i], recent) {
        lemma_first_stale(slots, recent, i + 1);
    }
}

/// Where the first free slot at or after `i` lies.
pub proof fn lemma_first_free(slots: Seq<Slot>, i: int)
    requires
        0 <= i,
    ensures
        ({
            let f = first_free_from(slots, i);
            f == -1 || (i <= f < slots.len() && slots[f] is None)
        }),
    decreases slots.len() - i,
{
    if i < slots.len() && slots[i] is Some {
        lemma_first_free(slots, i + 1);
    }
}

/// What giving slots to the messages from index `j` on does: slots keep
/// their length, a slot that holds a note keeps it, every message's note
/// ends up in a slot, a newly filled slot holds one of the messages, and
/// no note is held twice if none was before.
pub proof fn lemma_assign(slots: Seq<Slot>, msgs: Seq<MidiMessage>, j: int)
    requires
        0 <= j,
        assign_from(slots, msgs, j) is Some,
    ensures
        ({
            let r = assign_from(slots, msgs, j)->0;
            &&& r.len() == slots.len()
            &&& forall|i: int| 0 <= i < slots.len() && slots[i] is Some ==> #[trigger] r[i] == slots[i]
            &&& forall|k: int| j <= k < msgs.len() ==> holds(r, #[trigger] msgs[k][1])
            &&& forall|i: int|
                0 <= i < slots.len() && slots[i] is None && #[trigger] r[i] is Some ==> exists|k: int|
                    j <= k < msgs.len() && r[i] == Some(#[trigger] msgs[k])
            &&& distinct_notes(slots) ==> distinct_notes(r)
        }),
    decreases msgs.len() - j,
{
    if j < msgs.len() {
        let m = msgs[j];
        if holds(slots, m[1]) {
            lemma_assign(slots, msgs, j + 1);
            let r = assign_from(slots, msgs, j + 1)->0;
            let w = choose|i: int| 0 <= i < slots.len() && #[trigger] slot_has(slots[i], m[1]);
            assert(r[w] == slots[w]);
            assert(slot_has(r[w], m[1]));
        } else {
            let f = first_free_from(slots, 0);
            lemma_first_free(slots, 0);
            let s2 = slots.update(f, Some(m));
            lemma_assign(s2, msgs, j + 1);
            let r = assign_from(s2, msgs, j + 1)->0;
            assert(r[f] == s2[f]);
            assert(slot_has(r[f], m[1]));
            assert forall|i: int|
                0 <= i < slots.len() && slots[i] is None && #[trigger] r[i] is Some implies exists|
                    k: int,
                | j <= k < msgs.len() && r[i] == Some(#[trigger] msgs[k]) by {
                if i == f {
                    assert(r[i] == Some(msgs[j]));
                } else {
                    assert(s2[i] is None);
                }
            }
            if distinct_notes(slots) {
                assert forall|a: int, b: int|
                    0 <= a < b < s2.len() && #[trigger] s2[a] is Some && #[trigger] s2[b] is Some
                        implies s2[a]->0[1] != s2[b]->0[1] by {
                    if a == f {
                        assert(!slot_has(slots[b], m[1]));
                    } else if b == f {
                        assert(!slot_has(slots[a], m[1]));
                    }
                }
            }
        }
    }
}

/// The law of an update: given that no slot runs out, no note is held
/// twice if none was before, every recent note holds a slot, every slot
/// whose note is still recent keeps it, and a slot that changed either was
/// freed (its note was no longer recent) or now holds a recent note.
pub proof fn lemma_allocation(stack: Seq<MidiMessage>, maxnotes: nat, slots: Seq<Slot>)
    requires
        allocation_for(stack, maxnotes, slots) is Some,
    ensures
        ({
            let w = recent(stack, maxnotes);
            let r = allocation_for(stack, maxnotes, slots)->0;
            &&& r.len() == slots.len()
            &&& distinct_notes(slots) ==> distinct_notes(r)
            &&& forall|k: int| 0 <= k < w.len() ==> holds(r, #[trigger] w[k][1])
            &&& forall|i: int|
                0 <= i < slots.len() && slots[i] is Some && !stale(slots[i], w) ==> #[trigger] r[i]
                    == slots[i]
            &&& forall|i: int|
                0 <= i < slots.len() && #[trigger] r[i] != slots[i] ==> (r[i] is None && stale(
                    slots[i],
                    w,
                )) || (exists|k: int| 0 <= k < w.len() && r[i] == Some(#[trigger] w[k]))
        }),
{
    let w = recent(stack, maxnotes);
    let p = pruned(slots, w);
    lemma_first_stale(slots, w, 0);
    lemma_assign(p, w, 0);
    let r = assign_from(p, w, 0)->0;
    let f = first_stale_from(slots, w, 0);
    if distinct_notes(slots) {
        assert forall|a: int, b: int|
            0 <= a < b < p.len() && #[trigger] p[a] is Some && #[trigger] p[b] is Some implies p[a]->0[1]
                != p[b]->0[1] by {
            assert(slots[a] is Some && slots[b] is Some);
        }
    }
    assert forall|i: int|
        0 <= i < slots.len() && #[trigger] r[i] != slots[i] implies (r[i] is None && stale(
            slots[i],
            w,
        )) || (exists|k: int| 0 <= k < w.len() && r[i] == Some(#[trigger] w[k])) by {
        if p[i] is Some {
            assert(p[i] == slots[i]);
        } else if slots[i] is Some {
            assert(i == f);
            if r[i] is Some {
            }
        } else {
        }
    }
}

/// An update that changes no slot tells nobody anything.
pub proof fn lemma_no_change_no_events(slots: Seq<Slot>, i: int)
    requires
        0 <= i <= slots.len(),
    ensures
        noteons_upto(slots, slots, i) == Seq::<types::noteon>::empty(),
        noteoffs_upto(slots, slots, i) == Seq::<types::noteoff>::empty(),
    decreases i,
{
    if i > 0 {
        lemma_no_change_no_events(slots, i - 1);
    }
}
/// Every note-on the processor emits names a voice below `NOSC` and the
/// note of that slot; so does every note-off, with the note the slot held.
pub proof fn lemma_event_voices(new: Seq<Slot>, old: Seq<Slot>, i: int)
    requires
        0 <= i <= new.len(),
        new.len() == old.len(),
        new.len() <= NOSC,
    ensures
        forall|k: int|
            0 <= k < noteons_upto(new, old, i).len() ==> {
                let e = #[trigger] noteons_upto(new, old, i)[k];
                &&& (e.2 as int) < i
                &&& new[e.2 as int] is Some
                &&& new[e.2 as int]->0[1] == e.0
                &&& new[e.2 as int]->0[2] == e.1
                &&& started(new[e.2 as int], old[e.2 as int])
            },
        forall|k: int|
            0 <= k < noteoffs_upto(new, old, i).len() ==> {
                let e = #[trigger] noteoffs_upto(new, old, i)[k];
                &&& (e.1 as int) < i
                &&& stopped(new[e.1 as int], old[e.1 as int])
                &&& old[e.1 as int]->0[1] == e.0
            },
    decreases i,
{
    if i > 0 {
        lemma_event_voices(new, old, i - 1);
    }
}

/// The events of an update come in slot order, one per changed slot: the
/// note-ons name strictly increasing slots and every started slot has one;
/// the same holds of the note-offs and the stopped slots.
pub proof fn lemma_events_per_slot(new: Seq<Slot>, old: Seq<Slot>, i: int)
    requires
        0 <= i <= new.len(),
        new.len() == old.len(),
        new.len() <= NOSC,
    ensures
        forall|a: int, b: int|
            0 <= a < b < noteons_upto(new, old, i).len() ==> (#[trigger] noteons_upto(
                new,
                old,
                i,
            )[a]).2 < (#[trigger] noteons_upto(new, old, i)[b]).2,
        forall|v: int|
            0 <= v < i && #[trigger] started(new[v], old[v]) ==> exists|k: int|
                0 <= k < noteons_upto(new, old, i).len() && (#[trigger] noteons_upto(
                    new,
                    old,
                    i,
                )[k]).2 == v,
        forall|a: int, b: int|
            0 <= a < b < noteoffs_upto(new, old, i).len() ==> (#[trigger] noteoffs_upto(
                new,
                old,
                i,
            )[a]).1 < (#[trigger] noteoffs_upto(new, old, i)[b]).1,
        forall|v: int|
            0 <= v < i && #[trigger] stopped(new[v], old[v]) ==> exists|k: int|
                0 <= k < noteoffs_upto(new, old, i).len() && (#[trigger] noteoffs_upto(
                    new,
                    old,
                    i,
                )[k]).1 == v,
    decreases i,
{
    if i > 0 {
        lemma_events_per_slot(new, old, i - 1);
        lemma_event_voices(new, old, i - 1);
        let pon = noteons_upto(new, old, i - 1);
        let poff = noteoffs_upto(new, old, i - 1);
        let on = noteons_upto(new, old, i);
        let off = noteoffs_upto(new, old, i);
        assert forall|v: int| 0 <= v < i && #[trigger] started(new[v], old[v]) implies exists|k: int|
            0 <= k < on.len() && (#[trigger] on[k]).2 == v by {
            if v < i - 1 {
                let k = choose|k: int| 0 <= k < pon.len() && (#[trigger] pon[k]).2 == v;
                assert(on[k] == pon[k]);
            } else {
                assert(on[on.len() - 1].2 == v);
            }
        }
        assert forall|v: int| 0 <= v < i && #[trigger] stopped(new[v], old[v]) implies exists|k: int|
            0 <= k < off.len() && (#[trigger] off[k]).1 == v by {
            if v < i - 1 {
                let k = choose|k: int| 0 <= k < poff.len() && (#[trigger] poff[k]).1 == v;
                assert(off[k] == poff[k]);
            } else {
                assert(off[off.len() - 1].1 == v);
            }
        }
        assert forall|a: int, b: int| 0 <= a < b < on.len() implies (#[trigger] on[a]).2 < (
        #[trigger] on[b]).2 by {
            if b < pon.len() {
                assert(on[a] == pon[a] && on[b] == pon[b]);
            } else {
                assert(on[a] == pon[a]);
                assert(pon[a].2 < i - 1);
            }
        }
        assert forall|a: int, b: int| 0 <= a < b < off.len() implies (#[trigger] off[a]).1 < (
        #[trigger] off[b]).1 by {
            if b < poff.len() {
                assert(off[a] == poff[a] && off[b] == poff[b]);
            } else {
                assert(off[a] == poff[a]);
                assert(poff[a].1 < i - 1);
            }
        }
    }
}

} // verus!
