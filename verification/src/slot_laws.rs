//! Why the note slots never run out while at most `NOSC` notes may sound.
//!
//! The processor's slots are *settled* when no note is held twice and every
//! held note is among the recent ones. A settled processor with
//! `maxnotes <= NOSC` takes every message without running out of slots and
//! is settled again afterwards: one message moves the window of recent
//! notes by at most one message, so at most one slot goes stale, which the
//! update frees; the recent notes then number at most `NOSC`, which leaves
//! a free slot for each of them that has none yet.
use vstd::prelude::*;
use crate::midi::MidiMessage;
use crate::midi::{is_note_on, is_note_off};
use crate::midiproc::{
    Slot, has_number, holds, slot_has, stale, distinct_notes, first_free_from, assign_from,
    allocation_for, recent, stack_after, first_index_of, pruned, first_stale_from,
    lemma_first_stale, lemma_first_free, lemma_assign, MidiMessageProcessor,
};
use crate::types::NOSC;

verus! {

/// The note numbers of some messages.
pub open spec fn numbers(msgs: Seq<MidiMessage>) -> Set<u8> {
    Set::new(|n: u8| has_number(msgs, n))
}

/// The note numbers held by some slots.
pub open spec fn held(slots: Seq<Slot>) -> Set<u8> {
    Set::new(|n: u8| holds(slots, n))
}

/// The note numbers held by the first `i` slots.
pub open spec fn held_prefix(slots: Seq<Slot>, i: int) -> Set<u8> {
    Set::new(|n: u8| exists|k: int| 0 <= k < i && #[trigger] slot_has(slots[k], n))
}

/// The number of occupied slots among the first `i`.
pub open spec fn occupied(slots: Seq<Slot>, i: int) -> nat
    decreases i,
{
    if i <= 0 {
        0
    } else {
        occupied(slots, i - 1) + if slots[i - 1] is Some {
            1nat
        } else {
            0nat
        }
    }
}

/// No slot holds a note that is not among the recent ones.
pub open spec fn no_stale(slots: Seq<Slot>, recent: Seq<MidiMessage>) -> bool {
    forall|i: int| 0 <= i < slots.len() ==> !stale(#[trigger] slots[i], recent)
}

/// At most one slot holds a note that is not among the recent ones.
pub open spec fn at_most_one_stale(slots: Seq<Slot>, recent: Seq<MidiMessage>) -> bool {
    forall|i: int, j: int|
        0 <= i < slots.len() && 0 <= j < slots.len() && stale(#[trigger] slots[i], recent) && stale(
            #[trigger] slots[j],
            recent,
        ) ==> i == j
}

/// The numbers of some messages are finite and no more than the messages.
proof fn lemma_numbers_len(msgs: Seq<MidiMessage>)
    ensures
        numbers(msgs).finite(),
        numbers(msgs).len() <= msgs.len(),
{
    let ns = msgs.map_values(|m: MidiMessage| m[1]);
    assert(numbers(msgs) =~= ns.to_set()) by {
        assert forall|n: u8| numbers(msgs).contains(n) implies ns.to_set().contains(n) by {
            let j = choose|j: int| 0 <= j < msgs.len() && msgs[j][1] == n;
            assert(ns[j] == n);
        }
        assert forall|n: u8| ns.to_set().contains(n) implies numbers(msgs).contains(n) by {
            let j = choose|j: int| 0 <= j < ns.len() && ns[j] == n;
            assert(msgs[j][1] == n);
        }
    }
    vstd::seq_lib::seq_to_set_is_finite(ns);
    ns.lemma_cardinality_of_set();
}

/// With no note held twice, the held numbers are as many as the occupied
/// slots.
proof fn lemma_held_len(slots: Seq<Slot>, i: int)
    requires
        0 <= i <= slots.len(),
        distinct_notes(slots),
    ensures
        held_prefix(slots, i).finite(),
        held_prefix(slots, i).len() == occupied(slots, i),
    decreases i,
{
    if i == 0 {
        assert(held_prefix(slots, 0) =~= Set::<u8>::empty());
    } else {
        lemma_held_len(slots, i - 1);
        let prev = held_prefix(slots, i - 1);
        match slots[i - 1] {
            Some(m) => {
                assert(held_prefix(slots, i) =~= prev.insert(m[1])) by {
                    assert(slot_has(slots[i - 1], m[1]));
                }
                assert(!prev.contains(m[1])) by {
                    if prev.contains(m[1]) {
                        let k = choose|k: int| 0 <= k < i - 1 && #[trigger] slot_has(slots[k], m[1]);
                        assert(slots[k] is Some && slots[i - 1] is Some);
                    }
                }
            },
            None => {
                assert(held_prefix(slots, i) =~= prev) by {
                    assert(!slot_has(slots[i - 1], 0));
                }
            },
        }
    }
}

/// Filling a free slot adds one occupied slot.
proof fn lemma_occupied_fill(slots: Seq<Slot>, f: int, m: MidiMessage, i: int)
    requires
        0 <= f < slots.len(),
        slots[f] is None,
        0 <= i <= slots.len(),
    ensures
        occupied(slots.update(f, Some(m)), i) == occupied(slots, i) + if f < i {
            1nat
        } else {
            0nat
        },
    decreases i,
{
    if i > 0 {
        lemma_occupied_fill(slots, f, m, i - 1);
    }
}

/// With no free slot, every slot is occupied.
proof fn lemma_no_free_all_occupied(slots: Seq<Slot>, i: int)
    requires
        0 <= i <= slots.len(),
        first_free_from(slots, 0) == -1,
    ensures
        occupied(slots, i) == i,
    decreases i,
{
    if i > 0 {
        lemma_no_free_all_occupied(slots, i - 1);
        lemma_free_scan(slots, 0, i - 1);
    }
}

/// The scan for a free slot skips only occupied slots.
proof fn lemma_free_scan(slots: Seq<Slot>, from: int, k: int)
    requires
        0 <= from <= k < slots.len(),
        first_free_from(slots, from) == -1,
    ensures
        slots[k] is Some,
    decreases k - from,
{
    if from < k {
        lemma_free_scan(slots, from + 1, k);
    }
}

/// Giving slots to the messages from `j` on succeeds when the numbers
/// still to place together with those held are at most `NOSC`.
proof fn lemma_assign_succeeds(slots: Seq<Slot>, w: Seq<MidiMessage>, j: int)
    requires
        slots.len() == NOSC,
        0 <= j <= w.len(),
        distinct_notes(slots),
        held(slots).finite(),
        held(slots).len() == occupied(slots, NOSC as int),
        numbers(w.subrange(j, w.len() as int)).union(held(slots)).len() <= NOSC,
    ensures
        assign_from(slots, w, j) is Some,
    decreases w.len() - j,
{
    let rest = w.subrange(j, w.len() as int);
    lemma_numbers_len(rest);
    let big = numbers(rest).union(held(slots));
    if j < w.len() {
        let m = w[j];
        let next = w.subrange(j + 1, w.len() as int);
        lemma_numbers_len(next);
        assert(numbers(next).subset_of(numbers(rest))) by {
            assert forall|n: u8| numbers(next).contains(n) implies numbers(rest).contains(n) by {
                let t = choose|t: int| 0 <= t < next.len() && next[t][1] == n;
                assert(rest[t + 1] == next[t]);
            }
        }
        assert(rest[0] == m);
        assert(numbers(rest).contains(m[1]));
        if holds(slots, m[1]) {
            vstd::set_lib::lemma_len_subset(numbers(next).union(held(slots)), big);
            lemma_assign_succeeds(slots, w, j + 1);
        } else {
            let hs = held(slots);
            assert(!hs.contains(m[1]));
            vstd::set_lib::lemma_len_subset(hs.insert(m[1]), big);
            assert(hs.len() < NOSC);
            let f = first_free_from(slots, 0);
            if f == -1 {
                lemma_no_free_all_occupied(slots, NOSC as int);
                assert(false);
            }
            lemma_first_free(slots, 0);
            let s2 = slots.update(f, Some(m));
            lemma_occupied_fill(slots, f, m, NOSC as int);
            assert(held(s2) =~= hs.insert(m[1])) by {
                assert(slot_has(s2[f], m[1]));
                assert forall|n: u8| held(s2).contains(n) implies hs.insert(m[1]).contains(n) by {
                    let k = choose|k: int| 0 <= k < s2.len() && #[trigger] slot_has(s2[k], n);
                    if k != f {
                        assert(slot_has(slots[k], n));
                    }
                }
                assert forall|n: u8| hs.insert(m[1]).contains(n) implies held(s2).contains(n) by {
                    if n != m[1] {
                        let k = choose|k: int| 0 <= k < slots.len() && #[trigger] slot_has(slots[k], n);
                        assert(slot_has(s2[k], n));
                    }
                }
            }
            assert forall|a: int, b: int|
                0 <= a < b < s2.len() && #[trigger] s2[a] is Some && #[trigger] s2[b] is Some
                    implies s2[a]->0[1] != s2[b]->0[1] by {
                if a == f {
                    assert(!slot_has(slots[b], m[1]));
                } else if b == f {
                    assert(!slot_has(slots[a], m[1]));
                }
            }
            vstd::set_lib::lemma_len_subset(numbers(next).union(held(s2)), big);
            lemma_assign_succeeds(s2, w, j + 1);
        }
    }
}

/// Slots with no note held twice and none stale find room for a window of
/// at most `NOSC` recent messages.
pub proof fn lemma_room_for_window(slots: Seq<Slot>, w: Seq<MidiMessage>)
    requires
        slots.len() == NOSC,
        w.len() <= NOSC,
        distinct_notes(slots),
        no_stale(slots, w),
    ensures
        assign_from(slots, w, 0) is Some,
{
    lemma_held_len(slots, NOSC as int);
    assert(held(slots) =~= held_prefix(slots, NOSC as int));
    lemma_numbers_len(w);
    assert(w.subrange(0, w.len() as int) =~= w);
    assert(held(slots).subset_of(numbers(w))) by {
        assert forall|n: u8| held(slots).contains(n) implies numbers(w).contains(n) by {
            let k = choose|k: int| 0 <= k < slots.len() && #[trigger] slot_has(slots[k], n);
            assert(!stale(slots[k], w));
        }
    }
    assert(numbers(w).union(held(slots)) =~= numbers(w));
    lemma_assign_succeeds(slots, w, 0);
}

/// Where the oldest entry of a note lies, when there is one.
proof fn lemma_first_index(stack: Seq<MidiMessage>, n: u8, i: int)
    requires
        0 <= i,
    ensures
        first_index_of(stack, n, i) == -1 || (i <= first_index_of(stack, n, i) < stack.len()),
    decreases stack.len() - i,
{
    if i < stack.len() && stack[i][1] != n {
        lemma_first_index(stack, n, i + 1);
    }
}

/// The index of the oldest entry of note `mm[1]`, or -1.
pub open spec fn removed_at(stack: Seq<MidiMessage>, mm: MidiMessage) -> int {
    if is_note_off(mm) {
        first_index_of(stack, mm[1], 0)
    } else {
        -1
    }
}

/// The index in the window that one message drops (or -1).
pub open spec fn dropped_index(stack: Seq<MidiMessage>, mm: MidiMessage, k: nat) -> int {
    if is_note_on(mm) {
        recent(stack, k).len() - 1
    } else if removed_at(stack, mm) >= 0 {
        stack.len() - 1 - removed_at(stack, mm)
    } else {
        -1
    }
}

/// Where window index `t` moves after one message.
pub open spec fn moved_index(stack: Seq<MidiMessage>, mm: MidiMessage, t: int) -> int {
    if is_note_on(mm) {
        t + 1
    } else if removed_at(stack, mm) >= 0 && stack.len() - 1 - t < removed_at(stack, mm) {
        t - 1
    } else {
        t
    }
}

/// One message moves the window of recent notes by at most one message:
/// every recent message but the dropped one is still recent after it.
proof fn lemma_window_shift(stack: Seq<MidiMessage>, mm: MidiMessage, k: nat, t: int)
    requires
        0 <= t < recent(stack, k).len(),
        t != dropped_index(stack, mm, k),
    ensures
        0 <= moved_index(stack, mm, t) < recent(stack_after(stack, mm), k).len(),
        recent(stack_after(stack, mm), k)[moved_index(stack, mm, t)] == recent(stack, k)[t],
{
    let w = recent(stack, k);
    let s2 = stack_after(stack, mm);
    let w2 = recent(s2, k);
    let len = stack.len() as int;
    let found = removed_at(stack, mm);
    lemma_first_index(stack, mm[1], 0);
    if is_note_on(mm) {
        assert(w2[t + 1] == s2[len - (t + 1)]);
    } else if found >= 0 {
        assert(s2 == stack.remove(found));
        let x = len - 1 - t;
        if x > found {
            assert(s2[len - 2 - t] == stack[len - 1 - t]);
        } else {
            assert(s2[x] == stack[x]);
        }
    } else {
        assert(s2 == stack);
    }
}

/// After one message, slots that held only recent notes, none twice, hold
/// at most one note that is no longer recent.
proof fn lemma_one_stale_after(slots: Seq<Slot>, stack: Seq<MidiMessage>, mm: MidiMessage, k: nat)
    requires
        distinct_notes(slots),
        no_stale(slots, recent(stack, k)),
    ensures
        at_most_one_stale(slots, recent(stack_after(stack, mm), k)),
{
    let w = recent(stack, k);
    let w2 = recent(stack_after(stack, mm), k);
    let drop = dropped_index(stack, mm, k);
    assert forall|i: int, j: int|
        0 <= i < slots.len() && 0 <= j < slots.len() && stale(#[trigger] slots[i], w2) && stale(
            #[trigger] slots[j],
            w2,
        ) implies i == j by {
        let a = slots[i]->0;
        let b = slots[j]->0;
        assert(!stale(slots[i], w));
        assert(!stale(slots[j], w));
        let ta = choose|t: int| 0 <= t < w.len() && w[t][1] == a[1];
        let tb = choose|t: int| 0 <= t < w.len() && w[t][1] == b[1];
        if ta != drop {
            lemma_window_shift(stack, mm, k, ta);
            assert(w2[moved_index(stack, mm, ta)][1] == a[1]);
            assert(has_number(w2, a[1]));
        }
        if tb != drop {
            lemma_window_shift(stack, mm, k, tb);
            assert(w2[moved_index(stack, mm, tb)][1] == b[1]);
            assert(has_number(w2, b[1]));
        }
        assert(a[1] == b[1]);
        if i < j {
            assert(slots[i] is Some && slots[j] is Some);
        } else if j < i {
            assert(slots[j] is Some && slots[i] is Some);
        }
    }
}

/// Freeing the first stale slot leaves none when there was at most one.
proof fn lemma_prune_clean(slots: Seq<Slot>, w: Seq<MidiMessage>)
    requires
        distinct_notes(slots),
        at_most_one_stale(slots, w),
    ensures
        distinct_notes(pruned(slots, w)),
        no_stale(pruned(slots, w), w),
        pruned(slots, w).len() == slots.len(),
{
    lemma_first_stale(slots, w, 0);
    let p = pruned(slots, w);
    let f = first_stale_from(slots, w, 0);
    assert forall|a: int, b: int|
        0 <= a < b < p.len() && #[trigger] p[a] is Some && #[trigger] p[b] is Some implies p[a]->0[1]
            != p[b]->0[1] by {
        assert(slots[a] is Some && slots[b] is Some);
    }
    assert forall|i: int| 0 <= i < p.len() implies !stale(#[trigger] p[i], w) by {
        if i != f && stale(slots[i], w) {
            assert(stale(slots[f], w));
        }
    }
}

/// The processor is settled: it may sound at most `NOSC` notes, holds no
/// note twice, and every note it holds is among the recent ones.
pub open spec fn settled(p: &MidiMessageProcessor) -> bool {
    &&& p.maxnotes <= NOSC
    &&& distinct_notes(p.notes@)
    &&& no_stale(p.notes@, p.window())
}

/// The law of the slots: settled slots take any message without running
/// out, and are settled again after the update.
pub proof fn lemma_settled_never_runs_out(
    stack: Seq<MidiMessage>,
    maxnotes: nat,
    slots: Seq<Slot>,
    mm: MidiMessage,
)
    requires
        slots.len() == NOSC,
        maxnotes <= NOSC,
        distinct_notes(slots),
        no_stale(slots, recent(stack, maxnotes)),
    ensures
        allocation_for(stack_after(stack, mm), maxnotes, slots) is Some,
        distinct_notes(allocation_for(stack_after(stack, mm), maxnotes, slots)->0),
        no_stale(
            allocation_for(stack_after(stack, mm), maxnotes, slots)->0,
            recent(stack_after(stack, mm), maxnotes),
        ),
{
    let s2 = stack_after(stack, mm);
    let w2 = recent(s2, maxnotes);
    lemma_one_stale_after(slots, stack, mm, maxnotes);
    lemma_prune_clean(slots, w2);
    let p = pruned(slots, w2);
    lemma_room_for_window(p, w2);
    lemma_assign(p, w2, 0);
    let r = assign_from(p, w2, 0)->0;
    assert forall|i: int| 0 <= i < r.len() implies !stale(#[trigger] r[i], w2) by {
        if p[i] is Some {
            assert(r[i] == p[i]);
        } else if r[i] is Some {
            let k = choose|k: int| 0 <= k < w2.len() && r[i] == Some(#[trigger] w2[k]);
            assert(has_number(w2, w2[k][1]));
        }
    }
}

/// A settled processor takes every message.
pub proof fn lemma_settled_takes(p: &MidiMessageProcessor, mm: MidiMessage)
    requires
        settled(p),
    ensures
        p.takes(mm),
{
    lemma_settled_never_runs_out(p.note_stack@, p.maxnotes as nat, p.notes@, mm);
}

/// Messages whose notes are all held change no slot.
proof fn lemma_assign_all_held(slots: Seq<Slot>, w: Seq<MidiMessage>, j: int)
    requires
        0 <= j <= w.len(),
        forall|k: int| 0 <= k < w.len() ==> holds(slots, #[trigger] w[k][1]),
    ensures
        assign_from(slots, w, j) == Some(slots),
    decreases w.len() - j,
{
    if j < w.len() {
        assert(holds(slots, w[j][1]));
        lemma_assign_all_held(slots, w, j + 1);
    }
}

/// Once the slots hold every recent note and no other, bringing them up to
/// date again changes nothing (and so tells nobody anything).
pub proof fn lemma_update_is_idempotent(stack: Seq<MidiMessage>, maxnotes: nat, slots: Seq<Slot>)
    requires
        no_stale(slots, recent(stack, maxnotes)),
        forall|k: int|
            0 <= k < recent(stack, maxnotes).len() ==> holds(
                slots,
                #[trigger] recent(stack, maxnotes)[k][1],
            ),
    ensures
        allocation_for(stack, maxnotes, slots) == Some(slots),
{
    let w = recent(stack, maxnotes);
    lemma_first_stale(slots, w, 0);
    assert(pruned(slots, w) == slots);
    lemma_assign_all_held(slots, w, 0);
}

} // verus!
