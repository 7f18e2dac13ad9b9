//! One voice: the note it plays and how loud.
use vstd::prelude::*;
use crate::observer::{Observable, Observer, Node, deliveries};
use crate::types;
use crate::midi::MidiMessage;

verus! {

/// A voice: its velocity (0 when silent) and the pitch it hands to the
/// oscillators that watch it.
pub struct Voice {
    pub vel: u8,
    pub f0: Observable<types::f0>,
}

/// A voice after a note starts on it.
pub open spec fn voice_started(post: Voice, pre: Voice, m: MidiMessage) -> bool {
    &&& post.vel == m[2]
    &&& post.f0.current() == types::f0(m[1])
    &&& post.f0.watchers() == pre.f0.watchers()
    &&& post.f0.queued() == pre.f0.queued() + deliveries(pre.f0.watchers(), types::f0(m[1]))
}

/// A voice after its note stops.
pub open spec fn voice_stopped(post: Voice, pre: Voice) -> bool {
    post.vel == 0 && post.f0 == pre.f0
}

impl Voice {
    /// A silent voice, nobody watching.
    pub fn new() -> (v: Voice)
        ensures
            v.vel == 0,
            v.f0.current() == types::f0(0),
            v.f0.watchers() == Seq::<Node>::empty(),
            v.f0.queued().len() == 0,
    {
        Voice { vel: 0, f0: Observable::new(types::f0(0)) }
    }
}

impl Observer<types::noteon> for Voice {
    open spec fn accepts(&self, no: types::noteon) -> bool {
        true
    }

    /// Start a note: pass its pitch on and take its velocity.
    fn next(&mut self, no: types::noteon)
        ensures
            final(self).vel == no.1,
            final(self).f0.current() == types::f0(no.0),
            final(self).f0.watchers() == old(self).f0.watchers(),
            final(self).f0.queued() == old(self).f0.queued() + deliveries(
                old(self).f0.watchers(),
                types::f0(no.0),
            ),
    {
        self.f0.update(types::f0(no.0));
        self.vel = no.1;
    }
}

impl Observer<types::noteoff> for Voice {
    open spec fn accepts(&self, no: types::noteoff) -> bool {
        true
    }

    /// Stop the note: the voice falls silent.
    fn next(&mut self, no: types::noteoff)
        ensures
            final(self).vel == 0,
            final(self).f0 == old(self).f0,
    {
        self.vel = 0;
    }
}

} // verus!
