//! A value that others watch, and the trait of those who watch.
//!
//! An `Observable` holds its current value and the list of the parts of the
//! synthesizer that watch it. Changing the value does not call anyone
//! directly: it queues one delivery per watcher, in the order in which they
//! subscribed, and whoever drives the synthesizer hands each queued value
//! to its receiver by calling that receiver's `Observer::next`.
use vstd::prelude::*;

verus! {

/// The parts of the synthesizer that can watch an observable.
#[derive(Clone, Copy, PartialEq, Eq, Structural, Debug)]
pub enum Node {
    /// One oscillator, by index.
    Oscillator(usize),
    /// One voice, by index.
    Voice(usize),
    /// The MIDI message processor.
    MidiProcessor,
    /// The voice allocator.
    Polyphony,
}

/// Something that reacts to values of type `T`.
pub trait Observer<T> {
    /// Whether `next` can take this item in the current state.
    spec fn accepts(&self, item: T) -> bool;

    /// React to a new item.
    fn next(&mut self, mm: T)
        requires
            old(self).accepts(mm),
    ;
}

/// One delivery per watcher, in order, each carrying `item`.
pub open spec fn deliveries<T>(observers: Seq<Node>, item: T) -> Seq<(Node, T)> {
    Seq::new(observers.len(), |i: int| (observers[i], item))
}

/// The deliveries of a sequence of updates, one after the other.
pub open spec fn fan_out<T>(observers: Seq<Node>, items: Seq<T>) -> Seq<(Node, T)>
    decreases items.len(),
{
    if items.len() == 0 {
        Seq::empty()
    } else {
        fan_out(observers, items.drop_last()) + deliveries(observers, items.last())
    }
}

/// Appending one more item to a batch adds exactly its deliveries.
pub proof fn lemma_fan_out_push<T>(observers: Seq<Node>, items: Seq<T>, item: T)
    ensures
        fan_out(observers, items.push(item)) == fan_out(observers, items) + deliveries(
            observers,
            item,
        ),
{
    assert(items.push(item).drop_last() =~= items);
}

/// With a single watcher, a batch of updates delivers each item to it, in
/// order.
pub proof fn lemma_fan_out_single<T>(x: Node, items: Seq<T>)
    ensures
        fan_out(seq![x], items).len() == items.len(),
        forall|k: int| 0 <= k < items.len() ==> #[trigger] fan_out(seq![x], items)[k] == (x, items[k]),
    decreases items.len(),
{
    if items.len() > 0 {
        lemma_fan_out_single(x, items.drop_last());
        let prev = fan_out(seq![x], items.drop_last());
        assert forall|k: int| 0 <= k < items.len() implies #[trigger] fan_out(seq![x], items)[k] == (
            x,
            items[k],
        ) by {
            if k < items.len() - 1 {
                assert(fan_out(seq![x], items)[k] == prev[k]);
            }
        }
    }
}

/// A value with watchers.
pub struct Observable<T> {
    item: T,
    observers: Vec<Node>,
    pending: Vec<(Node, T)>,
}

impl<T: Copy> Observable<T> {
    /// The current value.
    pub closed spec fn current(&self) -> T {
        self.item
    }

    /// The watchers, in the order they subscribed.
    pub closed spec fn watchers(&self) -> Seq<Node> {
        self.observers@
    }

    /// The deliveries queued and not yet handed out.
    pub closed spec fn queued(&self) -> Seq<(Node, T)> {
        self.pending@
    }

    /// A value with no watchers and nothing queued.
    pub fn new(item: T) -> (o: Observable<T>)
        ensures
            o.current() == item,
            o.watchers() == Seq::<Node>::empty(),
            o.queued() == Seq::<(Node, T)>::empty(),
    {
        Observable { item: item, observers: Vec::with_capacity(10), pending: Vec::new() }
    }

    /// The current value.
    pub fn item(&self) -> (r: T)
        ensures
            r == self.current(),
    {
        self.item
    }

    /// The watchers, in the order they subscribed.
    pub fn observers(&self) -> (r: Vec<Node>)
        ensures
            r@ == self.watchers(),
    {
        let mut r: Vec<Node> = Vec::new();
        let mut i: usize = 0;
        while i < self.observers.len()
            invariant
                i <= self.observers@.len(),
                r@ == self.observers@.take(i as int),
            decreases self.observers@.len() - i,
        {
            r.push(self.observers[i]);
            proof {
                assert(self.observers@.take(i + 1) =~= self.observers@.take(i as int).push(self.observers@[i as int]));
            }
            i = i + 1;
        }
        proof {
            assert(self.observers@.take(i as int) =~= self.observers@);
        }
        r
    }

    /// Set the value and tell every watcher.
    pub fn update(&mut self, item: T)
        ensures
            final(self).current() == item,
            final(self).watchers() == old(self).watchers(),
            final(self).queued() == old(self).queued() + deliveries(old(self).watchers(), item),
    {
        self.item = item;
        self.notify();
    }

    /// Tell every watcher the current value, in the order they subscribed.
    pub fn notify(&mut self)
        ensures
            final(self).current() == old(self).current(),
            final(self).watchers() == old(self).watchers(),
            final(self).queued() == old(self).queued() + deliveries(
                old(self).watchers(),
                old(self).current(),
            ),
    {
        let n = self.observers.len();
        let ghost start = self.pending@;
        let mut i: usize = 0;
        while i < n
            invariant
                n == self.observers@.len(),
                i <= n,
                self.observers@ == old(self).watchers(),
                self.item == old(self).item,
                start == old(self).pending@,
                self.pending@ == start + deliveries(self.observers@.take(i as int), self.item),
            decreases n - i,
        {
            let o = self.observers[i];
            let it = self.item;
            self.pending.push((o, it));
            proof {
                assert(deliveries(self.observers@.take(i + 1), self.item) =~= deliveries(
                    self.observers@.take(i as int),
                    self.item,
                ).push((o, it)));
            }
            i = i + 1;
        }
        proof {
            assert(self.observers@.take(n as int) =~= self.observers@);
        }
    }

    /// Add a watcher at the end of the list.
    pub fn subscribe(&mut self, node: Node)
        ensures
            final(self).current() == old(self).current(),
            final(self).watchers() == old(self).watchers().push(node),
            final(self).queued() == old(self).queued(),
    {
        self.observers.push(node);
    }

    /// Remove every watcher; what is already queued stays.
    pub fn clear_observers(&mut self)
        ensures
            final(self).current() == old(self).current(),
            final(self).watchers() == Seq::<Node>::empty(),
            final(self).queued() == old(self).queued(),
    {
        while self.observers.len() > 0
            invariant
                self.item == old(self).item,
                self.pending@ == old(self).pending@,
            decreases self.observers@.len(),
        {
            self.observers.pop();
        }
    }

    /// How many deliveries are queued.
    pub fn pending_len(&self) -> (n: usize)
        ensures
            n == self.queued().len(),
    {
        self.pending.len()
    }

    /// Hand out everything queued, oldest first, and empty the queue.
    pub fn take_pending(&mut self) -> (r: Vec<(Node, T)>)
        ensures
            r@ == old(self).queued(),
            final(self).queued() == Seq::<(Node, T)>::empty(),
            final(self).current() == old(self).current(),
            final(self).watchers() == old(self).watchers(),
    {
        let mut out: Vec<(Node, T)> = Vec::new();
        std::mem::swap(&mut out, &mut self.pending);
        out
    }
}

} // verus!
