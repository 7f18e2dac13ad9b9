//! Which oscillator plays for which voice, and how many notes may sound.
//!
//! There are `NOSC` oscillators and as many voices. `voicevec[i]` names the
//! voice that drives oscillator `i`. The mapping depends on two switches:
//! without polyphony one note sounds (with unison, the first `nvoices`
//! oscillators all play voice 0 and the others voice 1); with polyphony
//! each oscillator has its own voice, or with unison two neighbouring
//! oscillators share one.
use vstd::prelude::*;
use crate::observer::{Observable, Observer, Node, deliveries};
use crate::types;
use crate::voice::Voice;

verus! {

/// Number of oscillators, and of voices.
pub const NOSC: usize = 11;

/// The voice of each oscillator for the given switches; without polyphony
/// nor unison only oscillator 0 is set (to voice 0), the others keep theirs.
pub open spec fn expected_voicevec(vv: Seq<u8>, poly: bool, unison: bool, nvoices: nat) -> Seq<u8> {
    if poly {
        if unison {
            Seq::new(NOSC as nat, |i: int| (i / 2) as u8)
        } else {
            Seq::new(NOSC as nat, |i: int| i as u8)
        }
    } else if unison {
        Seq::new(NOSC as nat, |i: int| if i < nvoices { 0u8 } else { 1u8 })
    } else {
        vv.update(0, 0u8)
    }
}

/// How many recent notes may sound for the given switches.
pub open spec fn expected_maxnotes(poly: bool, unison: bool, nvoices: usize) -> u8 {
    if poly {
        if unison {
            if nvoices > 1 {
                (nvoices / 2) as u8
            } else {
                1u8
            }
        } else {
            nvoices as u8
        }
    } else {
        1u8
    }
}

/// How many notes may sound, in terms of the voices asked for: one note
/// without polyphony; with polyphony one note per voice; with polyphony and
/// unison two voices per note, so that the notes never need more voices
/// than asked for (at least one note, and the count taken modulo 256 as a
/// byte holds it).
pub proof fn lemma_note_count(poly: bool, unison: bool, nvoices: usize)
    ensures
        !poly ==> expected_maxnotes(poly, unison, nvoices) == 1,
        poly && !unison ==> expected_maxnotes(poly, unison, nvoices) == nvoices % 256,
        poly && unison && nvoices <= 1 ==> expected_maxnotes(poly, unison, nvoices) == 1,
        poly && unison && 1 < nvoices < 512 ==> {
            let m = expected_maxnotes(poly, unison, nvoices);
            &&& 1 <= m
            &&& 2 * m <= nvoices
            &&& nvoices < 2 * m + 2
        },
{
    let m = expected_maxnotes(poly, unison, nvoices);
    if poly && !unison {
        assert(nvoices as u8 == nvoices % 256) by (bit_vector);
    }
    if poly && unison && 1 < nvoices < 512 {
        assert(m == nvoices / 2);
    }
}

/// The oscillators among the first `n` that play voice `v`, in order.
pub open spec fn routed(vv: Seq<u8>, v: int, n: int) -> Seq<Node>
    decreases n,
{
    if n <= 0 {
        Seq::empty()
    } else if vv[n - 1] == v {
        routed(vv, v, n - 1).push(Node::Oscillator((n - 1) as usize))
    } else {
        routed(vv, v, n - 1)
    }
}

/// The voice allocator.
pub struct Polyphony {
    pub voices: Vec<Voice>,
    pub polyphony: types::polyphony,
    pub unison: types::unison,
    pub nvoices: types::nvoices,
    pub br: Observable<types::note2osc>,
    pub voicevec: types::note2osc,
    pub maxnotes: Observable<types::maxnotes>,
}

/// Switching a mode on or off is only defined for a voice count of at
/// least one when it leaves unison without polyphony.
pub open spec fn mode_defined(poly: bool, unison: bool, nvoices: usize) -> bool {
    (!poly && unison) ==> nvoices >= 1
}

impl Polyphony {
    /// One voice per oscillator, every oscillator driven by a voice.
    pub open spec fn wf(&self) -> bool {
        &&& self.voices@.len() == NOSC
        &&& forall|i: int| 0 <= i < NOSC ==> #[trigger] self.voicevec.0@[i] < NOSC
    }

    /// `post` is `pre` after the oscillators were mapped anew for the
    /// switches of `post`: new voice vector, new note count and new voice
    /// vector told to their watchers, every voice watched by exactly the
    /// oscillators it drives.
    pub open spec fn remapped(pre: &Polyphony, post: &Polyphony) -> bool {
        &&& Polyphony::mapped_for(pre, post)
        &&& post.maxnotes.queued() == pre.maxnotes.queued() + deliveries(
            pre.maxnotes.watchers(),
            post.maxnotes.current(),
        )
    }

    /// What `remapped` says but for the queue of the note count: the voice
    /// vector, the note count, the voice vector told to its watchers, and
    /// every voice watched by exactly the oscillators it drives.
    pub open spec fn mapped_for(pre: &Polyphony, post: &Polyphony) -> bool {
        let vv = expected_voicevec(
            pre.voicevec.0@,
            post.polyphony.0,
            post.unison.0,
            post.nvoices.0 as nat,
        );
        let mx = types::maxnotes(
            expected_maxnotes(post.polyphony.0, post.unison.0, post.nvoices.0),
        );
        &&& post.wf()
        &&& post.voicevec.0@ == vv
        &&& post.maxnotes.current() == mx
        &&& post.maxnotes.watchers() == pre.maxnotes.watchers()
        &&& post.br.current() == post.voicevec
        &&& post.br.watchers() == pre.br.watchers()
        &&& post.br.queued() == pre.br.queued() + deliveries(pre.br.watchers(), post.voicevec)
        &&& forall|v: int|
            0 <= v < NOSC ==> {
                &&& (#[trigger] post.voices@[v]).vel == pre.voices@[v].vel
                &&& post.voices@[v].f0.current() == pre.voices@[v].f0.current()
                &&& post.voices@[v].f0.queued() == pre.voices@[v].f0.queued()
                &&& post.voices@[v].f0.watchers() == routed(vv, v, NOSC as int)
            }
    }

    /// Eleven silent voices, oscillator `i` on voice `i`, all switches off,
    /// no voice count yet, one note at a time.
    pub fn new() -> (p: Polyphony)
        ensures
            p.wf(),
            forall|i: int| 0 <= i < NOSC ==> #[trigger] p.voicevec.0@[i] == i,
            p.polyphony == types::polyphony(false),
            p.unison == types::unison(false),
            p.nvoices == types::nvoices(0),
            p.br.current().0@ == Seq::new(NOSC as nat, |i: int| 0u8),
            p.maxnotes.current() == types::maxnotes(1),
            p.br.watchers().len() == 0 && p.br.queued().len() == 0,
            p.maxnotes.watchers().len() == 0 && p.maxnotes.queued().len() == 0,
            forall|v: int|
                0 <= v < NOSC ==> {
                    &&& (#[trigger] p.voices@[v]).vel == 0
                    &&& p.voices@[v].f0.current() == types::f0(0)
                    &&& p.voices@[v].f0.watchers().len() == 0
                    &&& p.voices@[v].f0.queued().len() == 0
                },
    {
        let mut voices: Vec<Voice> = Vec::new();
        let mut k: usize = 0;
        while k < NOSC
            invariant
                k <= NOSC,
                voices@.len() == k,
                forall|v: int|
                    0 <= v < k ==> {
                        &&& (#[trigger] voices@[v]).vel == 0
                        &&& voices@[v].f0.current() == types::f0(0)
                        &&& voices@[v].f0.watchers().len() == 0
                        &&& voices@[v].f0.queued().len() == 0
                    },
            decreases NOSC - k,
        {
            voices.push(Voice::new());
            k = k + 1;
        }
        let mut p = Polyphony {
            voices: voices,
            polyphony: types::polyphony(false),
            unison: types::unison(false),
            nvoices: types::nvoices(0),
            br: Observable::new(types::note2osc([0;11])),
            voicevec: types::note2osc([0;11]),
            maxnotes: Observable::new(types::maxnotes(1)),
        };
        proof {
            assert(p.br.current().0@ =~= Seq::new(NOSC as nat, |i: int| 0u8));
        }
        let mut i: usize = 0;
        while i < NOSC
            invariant
                i <= NOSC,
                p.voices@ == voices@,
                p.polyphony == types::polyphony(false),
                p.unison == types::unison(false),
                p.nvoices == types::nvoices(0),
                p.br.current().0@ == Seq::new(NOSC as nat, |i: int| 0u8),
                p.maxnotes.current() == types::maxnotes(1),
                p.br.watchers().len() == 0 && p.br.queued().len() == 0,
                p.maxnotes.watchers().len() == 0 && p.maxnotes.queued().len() == 0,
                forall|j: int| 0 <= j < i ==> #[trigger] p.voicevec.0@[j] == j,
                forall|j: int| i <= j < NOSC ==> #[trigger] p.voicevec.0@[j] == 0,
            decreases NOSC - i,
        {
            p.voicevec.0[i] = i as u8;
            i = i + 1;
        }
        p
    }

    /// One note, one voice: oscillator 0 plays voice 0.
    pub fn mono(&mut self)
        ensures
            final(self).voicevec.0@ == old(self).voicevec.0@.update(0, 0u8),
            final(self).voices@ == old(self).voices@,
            final(self).polyphony == old(self).polyphony,
            final(self).unison == old(self).unison,
            final(self).nvoices == old(self).nvoices,
            final(self).br == old(self).br,
            final(self).maxnotes == old(self).maxnotes,
    {
        self.voicevec.0[0] = 0;
    }

    /// One note on several oscillators: the first `nvoices` play voice 0,
    /// the others voice 1, which stays silent.
    pub fn mono_unison(&mut self)
        requires
            old(self).nvoices.0 >= 1,
        ensures
            forall|i: int|
                0 <= i < NOSC ==> #[trigger] final(self).voicevec.0@[i] == if i < old(
                    self,
                ).nvoices.0 {
                    0u8
                } else {
                    1u8
                },
            final(self).voices@ == old(self).voices@,
            final(self).polyphony == old(self).polyphony,
            final(self).unison == old(self).unison,
            final(self).nvoices == old(self).nvoices,
            final(self).br == old(self).br,
            final(self).maxnotes == old(self).maxnotes,
    {
        let mut i: usize = 0;
        while i < NOSC
            invariant
                i <= NOSC,
                self.nvoices == old(self).nvoices,
                self.nvoices.0 >= 1,
                self.voices@ == old(self).voices@,
                self.polyphony == old(self).polyphony,
                self.unison == old(self).unison,
                self.br == old(self).br,
                self.maxnotes == old(self).maxnotes,
                forall|j: int|
                    0 <= j < i ==> #[trigger] self.voicevec.0@[j] == if j < self.nvoices.0 {
                        0u8
                    } else {
                        1u8
                    },
            decreases NOSC - i,
        {
            if i <= self.nvoices.0 - 1 {
                self.voicevec.0[i] = 0;
            } else {
                self.voicevec.0[i] = 1;
            }
            i = i + 1;
        }
    }

    /// One voice per oscillator: oscillator `i` plays voice `i`.
    pub fn poly(&mut self)
        ensures
            forall|i: int| 0 <= i < NOSC ==> #[trigger] final(self).voicevec.0@[i] == i,
            final(self).voices@ == old(self).voices@,
            final(self).polyphony == old(self).polyphony,
            final(self).unison == old(self).unison,
            final(self).nvoices == old(self).nvoices,
            final(self).br == old(self).br,
            final(self).maxnotes == old(self).maxnotes,
    {
        let mut i: usize = 0;
        while i < NOSC
            invariant
                i <= NOSC,
                self.voices@ == old(self).voices@,
                self.polyphony == old(self).polyphony,
                self.unison == old(self).unison,
                self.nvoices == old(self).nvoices,
                self.br == old(self).br,
                self.maxnotes == old(self).maxnotes,
                forall|j: int| 0 <= j < i ==> #[trigger] self.voicevec.0@[j] == j,
            decreases NOSC - i,
        {
            self.voicevec.0[i] = i as u8;
            i = i + 1;
        }
    }

    /// Two oscillators per voice: oscillator `i` plays voice `i / 2`.
    pub fn poly_unison(&mut self)
        ensures
            forall|i: int| 0 <= i < NOSC ==> #[trigger] final(self).voicevec.0@[i] == i / 2,
            final(self).voices@ == old(self).voices@,
            final(self).polyphony == old(self).polyphony,
            final(self).unison == old(self).unison,
            final(self).nvoices == old(self).nvoices,
            final(self).br == old(self).br,
            final(self).maxnotes == old(self).maxnotes,
    {
        let mut c: u8 = 0;
        let mut i: usize = 0;
        while i < NOSC
            invariant
                i <= NOSC,
                c == i / 2,
                self.voices@ == old(self).voices@,
                self.polyphony == old(self).polyphony,
                self.unison == old(self).unison,
                self.nvoices == old(self).nvoices,
                self.br == old(self).br,
                self.maxnotes == old(self).maxnotes,
                forall|j: int| 0 <= j < i ==> #[trigger] self.voicevec.0@[j] == j / 2,
            decreases NOSC - i,
        {
            self.voicevec.0[i] = c;
            c = c + (i as u8) % 2;
            i = i + 1;
        }
    }

    /// Map the oscillators anew for the current switches: set the voice
    /// vector, tell how many notes may sound, tell the new voice vector,
    /// and make every voice watched by exactly the oscillators it drives.
    pub fn map_oscillators(&mut self)
        requires
            old(self).wf(),
            mode_defined(old(self).polyphony.0, old(self).unison.0, old(self).nvoices.0),
        ensures
            Polyphony::remapped(&*old(self), &*final(self)),
            final(self).polyphony == old(self).polyphony,
            final(self).unison == old(self).unison,
            final(self).nvoices == old(self).nvoices,
    {
        let ghost pre = *self;
        if self.polyphony.0 {
            if self.unison.0 {
                self.poly_unison();
                if self.nvoices.0 > 1 {
                    self.maxnotes.update(types::maxnotes((self.nvoices.0 / 2) as u8));
                } else {
                    self.maxnotes.update(types::maxnotes(1));
                }
            } else {
                self.poly();
                self.maxnotes.update(types::maxnotes(self.nvoices.0 as u8));
            }
        } else {
            if self.unison.0 {
                self.mono_unison();
            } else {
                self.mono();
            }
            self.maxnotes.update(types::maxnotes(1));
        }
        proof {
            assert(self.voicevec.0@ =~= expected_voicevec(
                pre.voicevec.0@,
                pre.polyphony.0,
                pre.unison.0,
                pre.nvoices.0 as nat,
            ));
        }
        let vv = self.voicevec;
        self.br.update(vv);
        let ghost mid = *self;
        let mut v: usize = 0;
        while v < NOSC
            invariant
                v <= NOSC,
                self.voices@.len() == NOSC,
                self.voicevec == mid.voicevec,
                self.polyphony == mid.polyphony,
                self.unison == mid.unison,
                self.nvoices == mid.nvoices,
                self.br == mid.br,
                self.maxnotes == mid.maxnotes,
                forall|w: int|
                    0 <= w < NOSC ==> {
                        &&& (#[trigger] self.voices@[w]).vel == mid.voices@[w].vel
                        &&& self.voices@[w].f0.current() == mid.voices@[w].f0.current()
                        &&& self.voices@[w].f0.queued() == mid.voices@[w].f0.queued()
                        &&& w < v ==> self.voices@[w].f0.watchers() == Seq::<Node>::empty()
                    },
            decreases NOSC - v,
        {
            self.voices[v].f0.clear_observers();
            v = v + 1;
        }
        let mut i: usize = 0;
        while i < NOSC
            invariant
                i <= NOSC,
                self.voices@.len() == NOSC,
                self.voicevec == mid.voicevec,
                forall|j: int| 0 <= j < NOSC ==> #[trigger] self.voicevec.0@[j] < NOSC,
                self.polyphony == mid.polyphony,
                self.unison == mid.unison,
                self.nvoices == mid.nvoices,
                self.br == mid.br,
                self.maxnotes == mid.maxnotes,
                forall|w: int|
                    0 <= w < NOSC ==> {
                        &&& (#[trigger] self.voices@[w]).vel == mid.voices@[w].vel
                        &&& self.voices@[w].f0.current() == mid.voices@[w].f0.current()
                        &&& self.voices@[w].f0.queued() == mid.voices@[w].f0.queued()
                        &&& self.voices@[w].f0.watchers() == routed(
                            self.voicevec.0@,
                            w,
                            i as int,
                        )
                    },
            decreases NOSC - i,
        {
            let t = self.voicevec.0[i] as usize;
            self.voices[t].f0.subscribe(Node::Oscillator(i));
            proof {
                assert forall|w: int| 0 <= w < NOSC implies #[trigger] self.voices@[w].f0.watchers()
                    == routed(self.voicevec.0@, w, i + 1) by {
                    if w == t {
                    } else {
                    }
                }
            }
            i = i + 1;
        }
    }
}

impl Observer<types::polyphony> for Polyphony {
    open spec fn accepts(&self, p: types::polyphony) -> bool {
        &&& self.wf()
        &&& p.0 != self.polyphony.0 ==> mode_defined(p.0, self.unison.0, self.nvoices.0)
    }

    /// Switch polyphony; the oscillators are mapped anew if it changed.
    fn next(&mut self, p: types::polyphony)
        ensures
            final(self).polyphony == p,
            final(self).unison == old(self).unison,
            final(self).nvoices == old(self).nvoices,
            p.0 != old(self).polyphony.0 ==> Polyphony::remapped(&*old(self), &*final(self)),
            p.0 == old(self).polyphony.0 ==> *final(self) == *old(self),
    {
        if self.polyphony.0 != p.0 {
            self.polyphony.0 = p.0;
            self.map_oscillators();
        }
    }
}

impl Observer<types::unison> for Polyphony {
    open spec fn accepts(&self, u: types::unison) -> bool {
        &&& self.wf()
        &&& u.0 != self.unison.0 ==> mode_defined(self.polyphony.0, u.0, self.nvoices.0)
    }

    /// Switch unison; the oscillators are mapped anew if it changed.
    fn next(&mut self, u: types::unison)
        ensures
            final(self).unison == u,
            final(self).polyphony == old(self).polyphony,
            final(self).nvoices == old(self).nvoices,
            u.0 != old(self).unison.0 ==> Polyphony::remapped(&*old(self), &*final(self)),
            u.0 == old(self).unison.0 ==> *final(self) == *old(self),
    {
        if self.unison.0 != u.0 {
            self.unison.0 = u.0;
            self.map_oscillators();
        }
    }
}

impl Observer<types::nvoices> for Polyphony {
    open spec fn accepts(&self, n: types::nvoices) -> bool {
        &&& self.wf()
        &&& n.0 != self.nvoices.0 ==> mode_defined(self.polyphony.0, self.unison.0, n.0)
    }

    /// Take a new voice count; the oscillators are mapped anew if it changed.
    fn next(&mut self, n: types::nvoices)
        ensures
            final(self).nvoices == n,
            final(self).polyphony == old(self).polyphony,
            final(self).unison == old(self).unison,
            n.0 != old(self).nvoices.0 ==> Polyphony::remapped(&*old(self), &*final(self)),
            n.0 == old(self).nvoices.0 ==> *final(self) == *old(self),
    {
        if self.nvoices.0 != n.0 {
            self.nvoices.0 = n.0;
            self.map_oscillators();
        }
    }
}

impl Observer<types::noteon> for Polyphony {
    open spec fn accepts(&self, n: types::noteon) -> bool {
        &&& self.wf()
        &&& (n.2 as int) < NOSC
    }

    /// A note starts on voice `n.2`: that voice takes its pitch (and tells
    /// its oscillators) and its velocity.
    fn next(&mut self, n: types::noteon)
        ensures
            final(self).wf(),
            final(self).voices@[n.2 as int].vel == n.1,
            final(self).voices@[n.2 as int].f0.current() == types::f0(n.0),
            final(self).voices@[n.2 as int].f0.watchers() == old(
                self,
            ).voices@[n.2 as int].f0.watchers(),
            final(self).voices@[n.2 as int].f0.queued() == old(self).voices@[n.2 as int].f0.queued()
                + deliveries(old(self).voices@[n.2 as int].f0.watchers(), types::f0(n.0)),
            forall|v: int|
                0 <= v < NOSC && v != n.2 ==> #[trigger] final(self).voices@[v] == old(
                    self,
                ).voices@[v],
            final(self).voicevec == old(self).voicevec,
            final(self).polyphony == old(self).polyphony,
            final(self).unison == old(self).unison,
            final(self).nvoices == old(self).nvoices,
            final(self).br == old(self).br,
            final(self).maxnotes == old(self).maxnotes,
    {
        let ivoice = n.2 as usize;
        self.voices[ivoice].f0.update(types::f0(n.0));
        self.voices[ivoice].vel = n.1;
    }
}

impl Observer<types::noteoff> for Polyphony {
    open spec fn accepts(&self, n: types::noteoff) -> bool {
        &&& self.wf()
        &&& (n.1 as int) < NOSC
    }

    /// A note stops on voice `n.1`: that voice falls silent.
    fn next(&mut self, n: types::noteoff)
        ensures
            final(self).wf(),
            final(self).voices@[n.1 as int].vel == 0,
            final(self).voices@[n.1 as int].f0 == old(self).voices@[n.1 as int].f0,
            forall|v: int|
                0 <= v < NOSC && v != n.1 ==> #[trigger] final(self).voices@[v] == old(
                    self,
                ).voices@[v],
            final(self).voicevec == old(self).voicevec,
            final(self).polyphony == old(self).polyphony,
            final(self).unison == old(self).unison,
            final(self).nvoices == old(self).nvoices,
            final(self).br == old(self).br,
            final(self).maxnotes == old(self).maxnotes,
    {
        let ivoice = n.1 as usize;
        self.voices[ivoice].vel = 0;
    }
}

/// Every oscillator drives exactly one voice after a remapping: it is in
/// the watcher list of the voice the voice vector names for it, and in no
/// other.
pub proof fn lemma_routing_exact(vv: Seq<u8>, v: int, i: int)
    requires
        vv.len() == NOSC,
        0 <= i < NOSC,
    ensures
        routed(vv, v, NOSC as int).contains(Node::Oscillator(i as usize)) <==> vv[i] == v,
{
    lemma_routed_members(vv, v, NOSC as int);
    let r = routed(vv, v, NOSC as int);
    if r.contains(Node::Oscillator(i as usize)) {
        let k = choose|k: int| 0 <= k < r.len() && r[k] == Node::Oscillator(i as usize);
        assert(oscillator_of(r[k], vv, v, NOSC as int));
    }
}

/// The node is an oscillator below `n` that plays voice `v`.
pub open spec fn oscillator_of(node: Node, vv: Seq<u8>, v: int, n: int) -> bool {
    node matches Node::Oscillator(j) && (j as int) < n && vv[j as int] == v
}

/// The members of a routing list are oscillators below `n` on voice `v`,
/// and every such oscillator is a member.
proof fn lemma_routed_members(vv: Seq<u8>, v: int, n: int)
    requires
        0 <= n <= vv.len(),
        n <= NOSC,
    ensures
        forall|k: int|
            0 <= k < routed(vv, v, n).len() ==> oscillator_of(
                #[trigger] routed(vv, v, n)[k],
                vv,
                v,
                n,
            ),
        forall|j: int|
            0 <= j < n && vv[j] == v ==> routed(vv, v, n).contains(Node::Oscillator(j as usize)),
    decreases n,
{
    if n > 0 {
        lemma_routed_members(vv, v, n - 1);
        let prev = routed(vv, v, n - 1);
        if vv[n - 1] == v {
            let x = Node::Oscillator((n - 1) as usize);
            let cur = prev.push(x);
            assert forall|k: int| 0 <= k < cur.len() implies oscillator_of(
                #[trigger] cur[k],
                vv,
                v,
                n,
            ) by {
                if k < prev.len() {
                    assert(cur[k] == prev[k]);
                    assert(oscillator_of(prev[k], vv, v, n - 1));
                }
            }
            assert forall|j: int| 0 <= j < n && vv[j] == v implies cur.contains(
                Node::Oscillator(j as usize),
            ) by {
                if j == n - 1 {
                    assert(cur[cur.len() - 1] == x);
                } else {
                    let k = choose|k: int|
                        0 <= k < prev.len() && prev[k] == Node::Oscillator(j as usize);
                    assert(cur[k] == prev[k]);
                }
            }
        } else {
            assert forall|k: int| 0 <= k < prev.len() implies oscillator_of(
                #[trigger] prev[k],
                vv,
                v,
                n,
            ) by {
                assert(oscillator_of(prev[k], vv, v, n - 1));
            }
        }
    }
}

} // verus!
