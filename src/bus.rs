//! A one-writer, many-reader broadcast queue. Every consumer owns its own FIFO: a push appends
//! the item to the FIFO of every live consumer, so a slow consumer never blocks or drops the
//! items of another.
use vstd::prelude::*;
use vstd::rwlock::{RwLock, RwLockPredicate};

use std::collections::VecDeque;
use std::sync::Arc;

use crate::packet::{Packet, PacketView};

verus! {

/// Values the bus can hand to several consumers: each gets a copy equal to the one pushed.
pub trait Duplicate: Sized {
    type Model;

    spec fn model(&self) -> Self::Model;

    fn duplicate(&self) -> (r: Self)
        ensures
            r.model() == self.model(),
    ;
}

impl Duplicate for u8 {
    type Model = u8;

    open spec fn model(&self) -> u8 {
        *self
    }

    fn duplicate(&self) -> (r: u8) {
        *self
    }
}

impl Duplicate for u32 {
    type Model = u32;

    open spec fn model(&self) -> u32 {
        *self
    }

    fn duplicate(&self) -> (r: u32) {
        *self
    }
}

impl Duplicate for u64 {
    type Model = u64;

    open spec fn model(&self) -> u64 {
        *self
    }

    fn duplicate(&self) -> (r: u64) {
        *self
    }
}

impl Duplicate for i32 {
    type Model = i32;

    open spec fn model(&self) -> i32 {
        *self
    }

    fn duplicate(&self) -> (r: i32) {
        *self
    }
}

impl Duplicate for Packet {
    type Model = PacketView;

    open spec fn model(&self) -> PacketView {
        self@
    }

    fn duplicate(&self) -> (r: Packet) {
        Packet::duplicate(self)
    }
}

/// The model of a bus item; `None` is a heartbeat (an adapter poll that returned nothing).
pub open spec fn item_model<T: Duplicate>(x: Option<T>) -> Option<T::Model> {
    match x {
        None => None,
        Some(t) => Some(t.model()),
    }
}

fn duplicate_item<T: Duplicate>(x: &Option<T>) -> (r: Option<T>)
    ensures
        item_model(r) == item_model(*x),
{
    match x {
        None => None,
        Some(t) => Some(t.duplicate()),
    }
}

/// Slot `s1` is slot `s0`, still running, after `item` was pushed: same consumer, same
/// position in the stream, the item appended to its FIFO.
pub open spec fn continues<T: Duplicate>(s1: Slot<T>, s0: Slot<T>, item: Option<T::Model>) -> bool {
    &&& s0.running
    &&& s1.running
    &&& s1.key == s0.key
    &&& s1.start == s0.start
    &&& s1.taken == s0.taken
    &&& s1.queue_model() == s0.queue_model().push(item)
}

/// Slot `j` of `after` continues slot `origin[j]` of `before`, for every `j`.
pub open spec fn continued_by<T: Duplicate>(
    after: Seq<Slot<T>>,
    before: Seq<Slot<T>>,
    item: Option<T::Model>,
    origin: Seq<int>,
) -> bool {
    &&& origin.len() == after.len()
    &&& forall|j: int|
        0 <= j < after.len() ==> 0 <= #[trigger] origin[j] < before.len() && continues(
            after[j],
            before[origin[j]],
            item,
        )
}

/// Every slot of `after` continues a running slot of `before`.
pub open spec fn only_continued<T: Duplicate>(
    after: Seq<Slot<T>>,
    before: Seq<Slot<T>>,
    item: Option<T::Model>,
) -> bool {
    exists|origin: Seq<int>| #[trigger] continued_by(after, before, item, origin)
}

/// One consumer's FIFO.
pub struct Slot<T> {
    pub key: u64,
    pub queue: VecDeque<Option<T>>,
    pub running: bool,
    /// How many items had been pushed when the consumer subscribed.
    pub start: Ghost<nat>,
    /// How many items the consumer has taken.
    pub taken: Ghost<nat>,
}

/// The registry of consumers, with the history of everything pushed.
pub struct FanoutCore<T: Duplicate> {
    pub slots: Vec<Slot<T>>,
    pub next_key: u64,
    pub history: Ghost<Seq<Option<T::Model>>>,
}

impl<T: Duplicate> Slot<T> {
    pub open spec fn queue_model(&self) -> Seq<Option<T::Model>> {
        self.queue@.map_values(|x: Option<T>| item_model(x))
    }

    /// Everything this consumer has been or will be handed, from its subscription on.
    pub open spec fn stream(&self, history: Seq<Option<T::Model>>) -> Seq<Option<T::Model>> {
        history.subrange(self.start@ as int, history.len() as int)
    }

    pub open spec fn wf(&self, history: Seq<Option<T::Model>>, next_key: u64) -> bool {
        &&& self.key < next_key
        &&& self.start@ + self.taken@ <= history.len()
        &&& self.running ==> self.queue_model() == history.subrange(
            (self.start@ + self.taken@) as int,
            history.len() as int,
        )
    }
}

impl<T: Duplicate> FanoutCore<T> {
    pub open spec fn wf(&self) -> bool {
        &&& forall|i: int|
            0 <= i < self.slots@.len() ==> (#[trigger] self.slots@[i]).wf(
                self.history@,
                self.next_key,
            )
        &&& forall|i: int, j: int|
            0 <= i < j < self.slots@.len() ==> (#[trigger] self.slots@[i]).key
                != (#[trigger] self.slots@[j]).key
    }

    /// The index of the slot of consumer `key`, if it is registered.
    pub open spec fn slot_of(&self, key: u64) -> Option<int> {
        if exists|i: int| 0 <= i < self.slots@.len() && self.slots@[i].key == key {
            Some(choose|i: int| 0 <= i < self.slots@.len() && self.slots@[i].key == key)
        } else {
            None
        }
    }

    pub fn new() -> (r: FanoutCore<T>)
        ensures
            r.wf(),
            r.slots@.len() == 0,
            r.history@.len() == 0,
            r.next_key == 0,
    {
        FanoutCore { slots: Vec::new(), next_key: 0, history: Ghost(Seq::empty()) }
    }

    /// Registers a new consumer; it will see every item pushed from now on.
    pub fn subscribe(&mut self) -> (key: u64)
        requires
            old(self).wf(),
            old(self).next_key < u64::MAX,
        ensures
            final(self).wf(),
            key == old(self).next_key,
            final(self).next_key == old(self).next_key + 1,
            final(self).history@ == old(self).history@,
            final(self).slots@ == old(self).slots@.push(final(self).slots@.last()),
            final(self).slots@.last().key == key,
            final(self).slots@.last().running,
            final(self).slots@.last().start@ == old(self).history@.len(),
            final(self).slots@.last().taken@ == 0,
            final(self).slots@.last().queue@.len() == 0,
    {
        let key = self.next_key;
        let slot = Slot {
            key,
            queue: VecDeque::new(),
            running: true,
            start: Ghost(self.history@.len()),
            taken: Ghost(0),
        };
        proof {
            assert(slot.queue_model() =~= self.history@.subrange(
                self.history@.len() as int,
                self.history@.len() as int,
            ));
        }
        self.slots.push(slot);
        self.next_key = key + 1;
        proof {
            assert forall|i: int| 0 <= i < self.slots@.len() implies (
            #[trigger] self.slots@[i]).wf(self.history@, self.next_key) by {
                if i < self.slots@.len() - 1 {
                    assert(self.slots@[i] == old(self).slots@[i]);
                }
            }
        }
        key
    }

    /// Drops the consumers that ended, then appends the item to the FIFO of every other one.
    pub fn push(&mut self, item: Option<T>)
        requires
            old(self).wf(),
        ensures
            final(self).wf(),
            final(self).history@ == old(self).history@.push(item_model(item)),
            final(self).next_key == old(self).next_key,
            forall|i: int|
                0 <= i < final(self).slots@.len() ==> (#[trigger] final(self).slots@[i]).running,
            forall|i: int|
                0 <= i < old(self).slots@.len() && (#[trigger] old(self).slots@[i]).running
                    ==> exists|j: int|
                    0 <= j < final(self).slots@.len() && final(self).slots@[j].key == old(
                        self,
                    ).slots@[i].key && final(self).slots@[j].start == old(self).slots@[i].start
                        && final(self).slots@[j].taken == old(self).slots@[i].taken,
            only_continued(final(self).slots@, old(self).slots@, item_model(item)),
    {
        let ghost h = self.history@;
        let ghost new_h = h.push(item_model(item));
        let mut rest: Vec<Slot<T>> = Vec::new();
        std::mem::swap(&mut self.slots, &mut rest);
        let ghost olds = rest@;
        let mut kept: Vec<Slot<T>> = Vec::new();
        let ghost mut origin: Seq<int> = Seq::empty();
        while rest.len() > 0
            invariant
                rest@ == olds.subrange(0, rest@.len() as int),
                rest@.len() <= olds.len(),
                self.next_key == old(self).next_key,
                olds == old(self).slots@,
                h == old(self).history@,
                new_h == h.push(item_model(item)),
                forall|k: int| 0 <= k < olds.len() ==> (#[trigger] olds[k]).wf(h, self.next_key),
                forall|k: int, l: int|
                    0 <= k < l < olds.len() ==> (#[trigger] olds[k]).key != (#[trigger] olds[l]).key,
                origin.len() == kept@.len(),
                forall|k: int|
                    0 <= k < origin.len() ==> rest@.len() <= #[trigger] origin[k] < olds.len()
                        && olds[origin[k]].running && kept@[k].key == olds[origin[k]].key
                        && kept@[k].start == olds[origin[k]].start && kept@[k].taken
                        == olds[origin[k]].taken && continues(kept@[k], olds[origin[k]], item_model(item)),
                forall|k: int, l: int|
                    0 <= k < l < origin.len() ==> #[trigger] origin[k] > #[trigger] origin[l],
                forall|m: int|
                    rest@.len() <= m < olds.len() && (#[trigger] olds[m]).running ==> exists|j: int|
                        0 <= j < origin.len() && origin[j] == m,
                forall|k: int|
                    0 <= k < kept@.len() ==> (#[trigger] kept@[k]).running && kept@[k].wf(
                        new_h,
                        self.next_key,
                    ),
            decreases rest@.len(),
        {
            let ghost idx = rest@.len() - 1;
            let ghost prev_origin = origin;
            let mut slot = rest.pop().unwrap();
            assert(slot == olds[idx]);
            if slot.running {
                let ghost before = slot.queue_model();
                slot.queue.push_back(duplicate_item(&item));
                proof {
                    assert(slot.queue_model() =~= before.push(item_model(item)));
                    assert(slot.queue_model() =~= new_h.subrange(
                        (slot.start@ + slot.taken@) as int,
                        new_h.len() as int,
                    ));
                }
                kept.push(slot);
                proof {
                    origin = origin.push(idx);
                }
            }
            proof {
                assert forall|m: int|
                    rest@.len() <= m < olds.len() && (#[trigger] olds[m]).running implies exists|j: int|
                        0 <= j < origin.len() && origin[j] == m by {
                    if m == idx {
                        assert(origin[origin.len() - 1] == m);
                    } else {
                        let j = choose|j: int| 0 <= j < prev_origin.len() && prev_origin[j] == m;
                        assert(origin[j] == m);
                    }
                }
            }
        }
        proof {
            assert forall|i: int, j: int|
                0 <= i < j < kept@.len() implies (#[trigger] kept@[i]).key != (#[trigger] kept@[j]).key by {
                assert(origin[i] > origin[j]);
            }
            assert forall|i: int|
                0 <= i < olds.len() && (#[trigger] olds[i]).running implies exists|j: int|
                    0 <= j < kept@.len() && kept@[j].key == olds[i].key && kept@[j].start
                        == olds[i].start && kept@[j].taken == olds[i].taken by {
                let j = choose|j: int| 0 <= j < origin.len() && origin[j] == i;
                assert(kept@[j].key == olds[i].key);
            }
        }
        self.slots = kept;
        self.history = Ghost(new_h);
        proof {
            assert forall|i: int|
                0 <= i < old(self).slots@.len() && (#[trigger] old(self).slots@[i]).running implies exists|j: int|
                    0 <= j < self.slots@.len() && self.slots@[j].key == old(self).slots@[i].key
                        && self.slots@[j].start == old(self).slots@[i].start && self.slots@[j].taken
                        == old(self).slots@[i].taken by {
                assert(olds[i] == old(self).slots@[i]);
                let j = choose|j: int| 0 <= j < origin.len() && origin[j] == i;
                assert(self.slots@[j].key == olds[i].key);
            }
            let ghost after = self.slots@;
            assert(continued_by(after, olds, item_model(item), origin));
            assert(only_continued(after, olds, item_model(item)));
        }
    }

    /// Whether some consumer has more than `limit` items waiting.
    pub fn stalled(&self, limit: usize) -> (r: bool)
        ensures
            r == exists|i: int|
                0 <= i < self.slots@.len() && (#[trigger] self.slots@[i]).queue@.len() > limit,
    {
        let mut i: usize = 0;
        while i < self.slots.len()
            invariant
                i <= self.slots@.len(),
                forall|k: int| 0 <= k < i ==> (#[trigger] self.slots@[k]).queue@.len() <= limit,
            decreases self.slots@.len() - i,
        {
            if self.slots[i].queue.len() > limit {
                return true;
            }
            i = i + 1;
        }
        false
    }

    /// Takes the next item of consumer `key`.
    pub fn take(&mut self, key: u64) -> (r: Taken<T>)
        requires
            old(self).wf(),
        ensures
            final(self).wf(),
            final(self).history@ == old(self).history@,
            final(self).next_key == old(self).next_key,
            final(self).slots@.len() == old(self).slots@.len(),
            forall|i: int|
                0 <= i < old(self).slots@.len() ==> {
                    let s0 = #[trigger] old(self).slots@[i];
                    let s1 = final(self).slots@[i];
                    &&& s1.key == s0.key
                    &&& s1.start == s0.start
                    &&& s1.running == s0.running
                    &&& s0.key != key ==> s1.taken == s0.taken
                    &&& s0.key == key && s0.running ==> match r {
                        Taken::Closed => false,
                        Taken::Empty => s1.taken == s0.taken && s0.start@ + s0.taken@ == old(
                            self,
                        ).history@.len(),
                        Taken::Item(x) => s0.start@ + s0.taken@ < old(self).history@.len()
                            && item_model(x) == old(self).history@[(s0.start@ + s0.taken@) as int]
                            && s1.taken@ == s0.taken@ + 1,
                    }
                },
            r is Closed <==> !exists|i: int|
                0 <= i < old(self).slots@.len() && old(self).slots@[i].key == key && old(
                    self,
                ).slots@[i].running,
    {
        let i = self.find_slot(key);
        if i == self.slots.len() || !self.slots[i].running {
            proof {
                if i < self.slots@.len() {
                    assert forall|k: int|
                        0 <= k < self.slots@.len() && self.slots@[k].key == key implies !self.slots@[k].running by {
                        if k != i {
                            assert(self.slots@[k].key != self.slots@[i as int].key);
                        }
                    }
                }
            }
            return Taken::Closed;
        }
        let ghost s0 = self.slots@[i as int];
        let popped = self.slots[i].queue.pop_front();
        let r = match popped {
            None => {
                proof {
                    assert(self.slots@[i as int].queue_model() =~= s0.queue_model());
                }
                Taken::Empty
            },
            Some(x) => {
                self.slots[i].taken = Ghost(s0.taken@ + 1);
                proof {
                    assert(s0.queue_model()[0] == item_model(x));
                    assert(self.slots@[i as int].queue_model() =~= s0.queue_model().drop_first());
                }
                Taken::Item(x)
            },
        };
        proof {
            assert forall|k: int| 0 <= k < self.slots@.len() implies (
            #[trigger] self.slots@[k]).wf(self.history@, self.next_key) by {
                if k != i {
                    assert(self.slots@[k] == old(self).slots@[k]);
                } else {
                    assert(s0.wf(self.history@, self.next_key));
                    assert(s0.running);
                    let s1 = self.slots@[k];
                    assert(s1.key == s0.key);
                    assert(s1.start == s0.start);
                    assert(s1.running);
                    assert(s1.start@ + s1.taken@ <= self.history@.len());
                    assert(s1.queue_model() == self.history@.subrange(
                        (s1.start@ + s1.taken@) as int,
                        self.history@.len() as int,
                    ));
                }
            }
            assert forall|k: int|
                0 <= k < old(self).slots@.len() && old(self).slots@[k].key == key && k != i implies false by {
                assert(old(self).slots@[k].key != old(self).slots@[i as int].key);
            }
        }
        r
    }

    /// The position of consumer `key` in the registry, or the registry's length.
    fn find_slot(&self, key: u64) -> (r: usize)
        ensures
            r <= self.slots@.len(),
            r < self.slots@.len() ==> self.slots@[r as int].key == key,
            r == self.slots@.len() ==> forall|k: int|
                0 <= k < self.slots@.len() ==> (#[trigger] self.slots@[k]).key != key,
    {
        let mut i: usize = 0;
        while i < self.slots.len() && self.slots[i].key != key
            invariant
                i <= self.slots@.len(),
                forall|k: int| 0 <= k < i ==> (#[trigger] self.slots@[k]).key != key,
            decreases self.slots@.len() - i,
        {
            i = i + 1;
        }
        i
    }

    /// Ends consumer `key`; it is dropped at the next push.
    pub fn release(&mut self, key: u64)
        requires
            old(self).wf(),
        ensures
            final(self).wf(),
            final(self).history@ == old(self).history@,
            final(self).next_key == old(self).next_key,
            final(self).slots@.len() == old(self).slots@.len(),
            forall|i: int|
                0 <= i < old(self).slots@.len() ==> {
                    let s0 = #[trigger] old(self).slots@[i];
                    let s1 = final(self).slots@[i];
                    &&& s1.key == s0.key
                    &&& s1.start == s0.start
                    &&& s1.taken == s0.taken
                    &&& s1.running == (s0.running && s0.key != key)
                },
    {
        let mut i: usize = 0;
        while i < self.slots.len()
            invariant
                i <= self.slots@.len(),
                self.history == old(self).history,
                self.next_key == old(self).next_key,
                self.slots@.len() == old(self).slots@.len(),
                forall|k: int|
                    i <= k < self.slots@.len() ==> #[trigger] self.slots@[k] == old(self).slots@[k],
                forall|k: int|
                    0 <= k < i ==> {
                        let s0 = #[trigger] old(self).slots@[k];
                        let s1 = self.slots@[k];
                        &&& s1.key == s0.key
                        &&& s1.start == s0.start
                        &&& s1.taken == s0.taken
                        &&& s1.queue == s0.queue
                        &&& s1.running == (s0.running && s0.key != key)
                    },
            decreases self.slots@.len() - i,
        {
            if self.slots[i].key == key {
                self.slots[i].running = false;
            }
            i = i + 1;
        }
        proof {
            assert forall|k: int| 0 <= k < self.slots@.len() implies (
            #[trigger] self.slots@[k]).wf(self.history@, self.next_key) by {
                assert(old(self).slots@[k].wf(self.history@, self.next_key));
                assert(self.slots@[k].queue_model() == old(self).slots@[k].queue_model());
            }
            assert forall|a: int, b: int|
                0 <= a < b < self.slots@.len() implies (#[trigger] self.slots@[a]).key
                    != (#[trigger] self.slots@[b]).key by {
                assert(old(self).slots@[a].key != old(self).slots@[b].key);
            }
        }
    }

    /// Ends every consumer.
    pub fn close_all(&mut self)
        requires
            old(self).wf(),
        ensures
            final(self).wf(),
            final(self).history@ == old(self).history@,
            final(self).next_key == old(self).next_key,
            final(self).slots@.len() == old(self).slots@.len(),
            forall|i: int|
                0 <= i < final(self).slots@.len() ==> !(#[trigger] final(self).slots@[i]).running,
    {
        let mut i: usize = 0;
        while i < self.slots.len()
            invariant
                i <= self.slots@.len(),
                self.history == old(self).history,
                self.next_key == old(self).next_key,
                self.slots@.len() == old(self).slots@.len(),
                forall|k: int|
                    i <= k < self.slots@.len() ==> #[trigger] self.slots@[k] == old(self).slots@[k],
                forall|k: int|
                    0 <= k < i ==> {
                        let s0 = #[trigger] old(self).slots@[k];
                        let s1 = self.slots@[k];
                        &&& s1.key == s0.key
                        &&& s1.start == s0.start
                        &&& s1.taken == s0.taken
                        &&& s1.queue == s0.queue
                        &&& !s1.running
                    },
            decreases self.slots@.len() - i,
        {
            self.slots[i].running = false;
            i = i + 1;
        }
        proof {
            assert forall|k: int| 0 <= k < self.slots@.len() implies (
            #[trigger] self.slots@[k]).wf(self.history@, self.next_key) && !self.slots@[k].running by {
                assert(old(self).slots@[k].wf(self.history@, self.next_key));
            }
            assert forall|a: int, b: int|
                0 <= a < b < self.slots@.len() implies (#[trigger] self.slots@[a]).key
                    != (#[trigger] self.slots@[b]).key by {
                assert(old(self).slots@[a].key != old(self).slots@[b].key);
            }
        }
    }
}

/// What a consumer finds when it looks at its FIFO.
pub enum Taken<T> {
    /// The consumer ended, or is unknown.
    Closed,
    /// Nothing new was pushed.
    Empty,
    /// The next item pushed after the consumer subscribed, in push order.
    Item(Option<T>),
}

/// A consumer that ended stays ended: once no running slot of `key` is registered, the
/// registry left by a push holds no slot of `key` at all, so it is handed no later item.
pub proof fn lemma_ended_stays_ended<T: Duplicate>(
    before: FanoutCore<T>,
    after: FanoutCore<T>,
    item: Option<T::Model>,
    key: u64,
)
    requires
        only_continued(after.slots@, before.slots@, item),
        forall|i: int|
            0 <= i < before.slots@.len() && (#[trigger] before.slots@[i]).key == key
                ==> !before.slots@[i].running,
    ensures
        forall|j: int| 0 <= j < after.slots@.len() ==> (#[trigger] after.slots@[j]).key != key,
{
    let origin = choose|origin: Seq<int>| continued_by(after.slots@, before.slots@, item, origin);
    assert forall|j: int| 0 <= j < after.slots@.len() implies (#[trigger] after.slots@[j]).key
        != key by {
        let i = origin[j];
        assert(continues(after.slots@[j], before.slots@[i], item));
    }
}

/// Two live consumers of one bus, the second subscribed no earlier than the first, see the
/// same items in the same order from the second one's subscription on: what the second is
/// handed is what the first is handed from that point, heartbeats or not, and each one's FIFO
/// holds exactly what it has yet to take of that stream.
pub proof fn lemma_fanout_fidelity<T: Duplicate>(bus: FanoutCore<T>, a: int, b: int)
    requires
        bus.wf(),
        0 <= a < bus.slots@.len(),
        0 <= b < bus.slots@.len(),
        bus.slots@[a].running,
        bus.slots@[b].running,
        bus.slots@[a].start@ <= bus.slots@[b].start@,
    ensures
        ({
            let h = bus.history@;
            let sa = bus.slots@[a];
            let sb = bus.slots@[b];
            &&& sb.stream(h) == sa.stream(h).subrange(
                sb.start@ - sa.start@,
                sa.stream(h).len() as int,
            )
            &&& sb.stream(h).filter(|x: Option<T::Model>| x is Some) == sa.stream(h).subrange(
                sb.start@ - sa.start@,
                sa.stream(h).len() as int,
            ).filter(|x: Option<T::Model>| x is Some)
            &&& sa.queue_model() == sa.stream(h).subrange(sa.taken@ as int, sa.stream(h).len() as int)
            &&& sb.queue_model() == sb.stream(h).subrange(sb.taken@ as int, sb.stream(h).len() as int)
        }),
{
    let h = bus.history@;
    let sa = bus.slots@[a];
    let sb = bus.slots@[b];
    assert(sa.wf(h, bus.next_key));
    assert(sb.wf(h, bus.next_key));
    assert(sb.stream(h) =~= sa.stream(h).subrange(sb.start@ - sa.start@, sa.stream(h).len() as int));
    assert(sa.queue_model() =~= sa.stream(h).subrange(sa.taken@ as int, sa.stream(h).len() as int));
    assert(sb.queue_model() =~= sb.stream(h).subrange(sb.taken@ as int, sb.stream(h).len() as int));
}

/// The FIFO depth past which a consumer counts as stalled.
pub const STALL_DEPTH: usize = 10_000;

/// The lock invariant of a shared bus: its registry is well formed.
pub struct CoreInv;

impl<T: Duplicate> RwLockPredicate<FanoutCore<T>> for CoreInv {
    open spec fn inv(self, v: FanoutCore<T>) -> bool {
        v.wf()
    }
}

/// A fan-out bus shared by every clone of it: all clones reach the same consumers.
#[derive(Clone)]
pub struct PushBus<T: Duplicate> {
    core: Arc<RwLock<FanoutCore<T>, CoreInv>>,
    name: String,
}

/// A consumer of a [`PushBus`], reading its own FIFO.
pub struct PushBusIter<T: Duplicate> {
    core: Arc<RwLock<FanoutCore<T>, CoreInv>>,
    key: u64,
}

impl<T: Duplicate> PushBus<T> {
    /// The name the bus was made with, used in diagnostics.
    pub closed spec fn label(&self) -> Seq<char> {
        self.name@
    }

    pub fn new(name: &str) -> (r: PushBus<T>)
        ensures
            r.label() == name@,
    {
        let core = FanoutCore::new();
        PushBus { core: Arc::new(RwLock::new(core, Ghost(CoreInv))), name: name.to_owned() }
    }

    /// Another handle on the same bus.
    pub fn clone_bus(&self) -> (r: PushBus<T>)
        ensures
            r.label() == self.label(),
    {
        PushBus { core: Arc::clone(&self.core), name: self.name.clone() }
    }

    /// A new consumer: it sees every item pushed from now on, in push order.
    pub fn iter(&self) -> PushBusIter<T> {
        let (mut core, handle) = self.core.acquire_write();
        let key = if core.next_key < u64::MAX {
            core.subscribe()
        } else {
            u64::MAX
        };
        handle.release_write(core);
        PushBusIter { core: Arc::clone(&self.core), key }
    }

    /// Drops the consumers that ended, then hands the item to every other one. Returns whether
    /// a consumer now has more than [`STALL_DEPTH`] items waiting, a sign that it stalled.
    pub fn push(&self, item: Option<T>) -> bool {
        let (mut core, handle) = self.core.acquire_write();
        core.push(item);
        let stalled = core.stalled(STALL_DEPTH);
        handle.release_write(core);
        stalled
    }

    /// Ends every consumer registered so far.
    pub fn close(&self) {
        let (mut core, handle) = self.core.acquire_write();
        core.close_all();
        handle.release_write(core);
    }
}

impl<T: Duplicate> PushBusIter<T> {
    /// `None` once the consumer ended; `Some(None)` when nothing new was pushed, or a heartbeat
    /// was; `Some(Some(item))` for the next item.
    pub fn next(&mut self) -> Option<Option<T>> {
        let (mut core, handle) = self.core.acquire_write();
        let taken = core.take(self.key);
        handle.release_write(core);
        match taken {
            Taken::Closed => None,
            Taken::Empty => Some(None),
            Taken::Item(x) => Some(x),
        }
    }

    /// Ends this consumer; the bus drops its FIFO at the next push.
    pub fn close(&mut self) {
        let (mut core, handle) = self.core.acquire_write();
        core.release(self.key);
        handle.release_write(core);
    }
}

} // verus!
