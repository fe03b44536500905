//! The event queue of the simulation: a circle of cycles, each with the events to
//! process at its beginning and those to process at its end.

use vstd::prelude::*;
use std::rc::Rc;
use crate::Phit;
use crate::topology::Location;
use crate::router::AcknowledgeMessage;

verus! {

///The events stored in the event queue.
pub enum Event {
    ///A phit that arrives at `new`, having left `previous`.
    PhitToLocation { phit: Rc<Phit>, previous: Location, new: Location },
    ///Acknowledge to the transmission status of the location by which a phit was sent.
    Acknowledge {
        ///Location by which the phit was sent, contaning the transmission status to be informed (such as credit counter).
        location: Location,
        message: AcknowledgeMessage,
    },
    ///A component of the simulation, by its index among the eventful components, is to be processed.
    Generic(usize),
}

///This is used to sort the processing of the events inside a cycle.
///If some event occurs at Begin then its result will be visible for events at End. Specifically, we ensure that all the phits have arrived before arbitring.
///Currently at Being: phit movements and clears.
///Currently at End: Generics.
#[derive(Clone, Copy, Debug, PartialEq, Eq, Structural)]
pub enum CyclePosition {
    Begin,
    End,
}

///Encapsulates a request for insertion on the event queue.
pub struct EventGeneration<E> {
    ///To insert the event after `delay` cycles.
    pub delay: usize,
    ///Whether the event should be processed at the begin or the end of its cycle.
    pub position: CyclePosition,
    ///The actual event to be inserted.
    pub event: E,
}

///The event queue structure managing the insertion and extraction of events.
pub struct EventQueue<E> {
    ///Events to be processed at the beginning of a cycle (mostly arrivals of phits)
    event_begin_circle: Vec<Vec<E>>,
    ///Events to be processed at the end of a cycle (mostly decisions on where to send phits)
    event_end_circle: Vec<Vec<E>>,
    current: usize,
}

///The lists of a circle seen from its current slot: the list at offset `d` is that of the cycle `d` cycles ahead.
pub open spec fn rotated<E>(circle: Seq<Vec<E>>, current: int) -> Seq<Seq<E>> {
    Seq::new(circle.len(), |d: int| circle[slot(current, d, circle.len() as int)]@)
}

///The slot of a circle of `n` slots that is `d` slots after `current`.
pub open spec fn slot(current: int, d: int, n: int) -> int {
    (current + d) % n
}

///A queue of lists after one advance: every list moves one cycle closer and an empty one enters at the far end.
pub open spec fn advanced<E>(q: Seq<Seq<E>>) -> Seq<Seq<E>> {
    q.drop_first().push(Seq::empty())
}

///A queue of lists after `k` advances.
pub open spec fn advanced_by<E>(q: Seq<Seq<E>>, k: nat) -> Seq<Seq<E>>
    decreases k,
{
    if k == 0 {
        q
    } else {
        advanced_by(advanced(q), (k - 1) as nat)
    }
}

///A queue of lists with an event added to the list `delay` cycles ahead.
pub open spec fn enqueued<E>(q: Seq<Seq<E>>, event: E, delay: int) -> Seq<Seq<E>> {
    q.update(delay, q[delay].push(event))
}

impl<E> EventQueue<E> {
    ///Both circles have the same positive size and the current slot is within them.
    pub closed spec fn wf(&self) -> bool {
        &&& self.event_begin_circle@.len() > 0
        &&& self.event_end_circle@.len() == self.event_begin_circle@.len()
        &&& self.current < self.event_begin_circle@.len()
    }

    ///The number of cycles the queue spans.
    pub closed spec fn size(&self) -> nat {
        self.event_begin_circle@.len()
    }

    ///A queue holds a begin list and an end list for each cycle it spans.
    pub proof fn lemma_views_span_size(&self)
        requires
            self.wf(),
        ensures
            self.begin_view().len() == self.size(),
            self.end_view().len() == self.size(),
    {
    }

    ///The begin lists, by how many cycles ahead they are processed.
    pub closed spec fn begin_view(&self) -> Seq<Seq<E>> {
        rotated(self.event_begin_circle@, self.current as int)
    }

    ///The end lists, by how many cycles ahead they are processed.
    pub closed spec fn end_view(&self) -> Seq<Seq<E>> {
        rotated(self.event_end_circle@, self.current as int)
    }

    ///Creates a new EventQueue. `size` should be greater than any possible delay.
    pub fn new(size: usize) -> (q: EventQueue<E>)
        requires
            size > 0,
        ensures
            q.wf(),
            q.size() == size,
            q.begin_view() == Seq::new(size as nat, |d: int| Seq::<E>::empty()),
            q.end_view() == Seq::new(size as nat, |d: int| Seq::<E>::empty()),
    {
        let mut begin: Vec<Vec<E>> = Vec::new();
        let mut end: Vec<Vec<E>> = Vec::new();
        let mut i: usize = 0;
        while i < size
            invariant
                i <= size,
                begin@.len() == i,
                end@.len() == i,
                forall|k: int| 0 <= k < i ==> (#[trigger] begin@[k])@ == Seq::<E>::empty(),
                forall|k: int| 0 <= k < i ==> (#[trigger] end@[k])@ == Seq::<E>::empty(),
            decreases size - i,
        {
            begin.push(Vec::new());
            end.push(Vec::new());
            i = i + 1;
        }
        let q = EventQueue { event_begin_circle: begin, event_end_circle: end, current: 0 };
        proof {
            assert(q.begin_view() =~= Seq::new(size as nat, |d: int| Seq::<E>::empty()));
            assert(q.end_view() =~= Seq::new(size as nat, |d: int| Seq::<E>::empty()));
        }
        q
    }

    ///Advances the queue by a cycle. This drops the events in the finished cycle.
    pub fn advance(&mut self)
        requires
            old(self).wf(),
        ensures
            final(self).wf(),
            final(self).size() == old(self).size(),
            final(self).begin_view() == advanced(old(self).begin_view()),
            final(self).end_view() == advanced(old(self).end_view()),
    {
        let ghost ob = self.begin_view();
        let ghost oe = self.end_view();
        let ghost n = self.event_begin_circle@.len() as int;
        let ghost c = self.current as int;
        let cur = self.current;
        self.event_begin_circle.set(cur, Vec::new());
        self.event_end_circle.set(cur, Vec::new());
        let len = self.event_begin_circle.len();
        self.current = if cur + 1 == len { 0 } else { cur + 1 };
        proof {
            let nc = self.current as int;
            assert forall|d: int| 0 <= d < n implies #[trigger] self.begin_view()[d] == advanced(ob)[d] by {
                lemma_mod_of_sum_below_twice(nc + d, n);
                lemma_mod_of_sum_below_twice(c + d + 1, n);
            }
            assert forall|d: int| 0 <= d < n implies #[trigger] self.end_view()[d] == advanced(oe)[d] by {
                lemma_mod_of_sum_below_twice(nc + d, n);
                lemma_mod_of_sum_below_twice(c + d + 1, n);
            }
            assert(self.begin_view() =~= advanced(ob));
            assert(self.end_view() =~= advanced(oe));
        }
    }

    ///Access to the event in the `ievent` index of the events to be executed at the begin of the cycle.
    pub fn access_begin(&self, ievent: usize) -> (r: Option<&E>)
        requires
            self.wf(),
        ensures
            ievent < self.begin_view()[0].len() ==> r == Some(&self.begin_view()[0][ievent as int]),
            ievent >= self.begin_view()[0].len() ==> r is None,
    {
        proof {
            vstd::arithmetic::div_mod::lemma_small_mod(self.current as nat, self.event_begin_circle@.len());
        }
        let v = &self.event_begin_circle[self.current];
        if ievent < v.len() {
            Some(&v[ievent])
        } else {
            None
        }
    }

    ///Access to the event in the `ievent` index of the events to be executed at the end of the cycle.
    pub fn access_end(&self, ievent: usize) -> (r: Option<&E>)
        requires
            self.wf(),
        ensures
            ievent < self.end_view()[0].len() ==> r == Some(&self.end_view()[0][ievent as int]),
            ievent >= self.end_view()[0].len() ==> r is None,
    {
        proof {
            vstd::arithmetic::div_mod::lemma_small_mod(self.current as nat, self.event_end_circle@.len());
        }
        let v = &self.event_end_circle[self.current];
        if ievent < v.len() {
            Some(&v[ievent])
        } else {
            None
        }
    }

    ///Adds an event to the list of events to be executed at the begin of the cycle `current_cycle + delay`.
    pub fn enqueue_begin(&mut self, event: E, delay: usize)
        requires
            old(self).wf(),
            delay < old(self).size(),
        ensures
            final(self).wf(),
            final(self).size() == old(self).size(),
            final(self).begin_view() == enqueued(old(self).begin_view(), event, delay as int),
            final(self).end_view() == old(self).end_view(),
    {
        let ghost ob = self.begin_view();
        let ghost n = self.event_begin_circle@.len() as int;
        let ghost c = self.current as int;
        let position = ((self.current as u128 + delay as u128) % self.event_begin_circle.len() as u128) as usize;
        self.event_begin_circle[position].push(event);
        proof {
            lemma_rotation_injective(c, n, delay as int);
            assert(self.begin_view() =~= enqueued(ob, event, delay as int));
        }
    }

    ///Adds an event to the list of events to be executed at the end of the cycle `current_cycle + delay`.
    pub fn enqueue_end(&mut self, event: E, delay: usize)
        requires
            old(self).wf(),
            delay < old(self).size(),
        ensures
            final(self).wf(),
            final(self).size() == old(self).size(),
            final(self).end_view() == enqueued(old(self).end_view(), event, delay as int),
            final(self).begin_view() == old(self).begin_view(),
    {
        let ghost oe = self.end_view();
        let ghost n = self.event_end_circle@.len() as int;
        let ghost c = self.current as int;
        let position = ((self.current as u128 + delay as u128) % self.event_end_circle.len() as u128) as usize;
        self.event_end_circle[position].push(event);
        proof {
            lemma_rotation_injective(c, n, delay as int);
            assert(self.end_view() =~= enqueued(oe, event, delay as int));
        }
    }

    ///Adds an event as it requests.
    pub fn enqueue(&mut self, event_generation: EventGeneration<E>)
        requires
            old(self).wf(),
            event_generation.delay < old(self).size(),
        ensures
            final(self).wf(),
            final(self).size() == old(self).size(),
            event_generation.position == CyclePosition::Begin ==> {
                &&& final(self).begin_view() == enqueued(old(self).begin_view(), event_generation.event, event_generation.delay as int)
                &&& final(self).end_view() == old(self).end_view()
            },
            event_generation.position == CyclePosition::End ==> {
                &&& final(self).end_view() == enqueued(old(self).end_view(), event_generation.event, event_generation.delay as int)
                &&& final(self).begin_view() == old(self).begin_view()
            },
    {
        match event_generation.position {
            CyclePosition::Begin => self.enqueue_begin(event_generation.event, event_generation.delay),
            CyclePosition::End => self.enqueue_end(event_generation.event, event_generation.delay),
        }
    }
}

///Distinct offsets of the circle fall in distinct slots, and the offset `d` is the slot `(c+d)%n`.
proof fn lemma_rotation_injective(c: int, n: int, d: int)
    requires
        0 <= c < n,
        0 <= d < n,
    ensures
        forall|e: int| 0 <= e < n && e != d ==> #[trigger] slot(c, e, n) != slot(c, d, n),
        0 <= slot(c, d, n) < n,
{
    assert forall|e: int| 0 <= e < n && e != d implies #[trigger] slot(c, e, n) != slot(c, d, n) by {
        lemma_mod_of_sum_below_twice(c + e, n);
        lemma_mod_of_sum_below_twice(c + d, n);
    }
    lemma_mod_of_sum_below_twice(c + d, n);
}

proof fn lemma_mod_of_sum_below_twice(x: int, n: int)
    requires
        0 <= x < 2 * n,
        n > 0,
    ensures
        x % n == if x < n { x } else { x - n },
{
    if x < n {
        vstd::arithmetic::div_mod::lemma_small_mod(x as nat, n as nat);
    } else {
        vstd::arithmetic::div_mod::lemma_mod_add_multiples_vanish(x - n, n);
        vstd::arithmetic::div_mod::lemma_small_mod((x - n) as nat, n as nat);
    }
}

///An event enqueued with a delay `d` smaller than the queue size is, after `d` advances, the last of the events of the current cycle, at the same position of the cycle it was asked for.
pub proof fn lemma_event_arrives_after_delay<E>(q: Seq<Seq<E>>, event: E, delay: nat)
    requires
        delay < q.len(),
    ensures
        advanced_by(enqueued(q, event, delay as int), delay)[0] == q[delay as int].push(event),
        advanced_by(enqueued(q, event, delay as int), delay).len() == q.len(),
    decreases delay,
{
    lemma_advanced_by_shifts(enqueued(q, event, delay as int), delay);
}

///After `k` advances, the list at offset `d` is the one that was at offset `d + k`, and those beyond the old end are empty.
pub proof fn lemma_advanced_by_shifts<E>(q: Seq<Seq<E>>, k: nat)
    requires
        k <= q.len(),
    ensures
        advanced_by(q, k).len() == q.len(),
        forall|d: int| 0 <= d < q.len() - k ==> #[trigger] advanced_by(q, k)[d] == q[d + k],
        forall|d: int| q.len() - k <= d < q.len() ==> #[trigger] advanced_by(q, k)[d] == Seq::<E>::empty(),
    decreases k,
{
    if k > 0 {
        let a = advanced(q);
        lemma_advanced_by_shifts(a, (k - 1) as nat);
        assert forall|d: int| 0 <= d < q.len() - k implies #[trigger] advanced_by(q, k)[d] == q[d + k] by {
            assert(advanced_by(q, k) == advanced_by(a, (k - 1) as nat));
            assert(advanced_by(a, (k - 1) as nat)[d] == a[d + k - 1]);
        }
        assert forall|d: int| q.len() - k <= d < q.len() implies #[trigger] advanced_by(q, k)[d] == Seq::<E>::empty() by {
            assert(advanced_by(q, k) == advanced_by(a, (k - 1) as nat));
            if d < q.len() - k + 1 {
                assert(advanced_by(a, (k - 1) as nat)[d] == a[d + k - 1]);
            }
        }
    }
}

} // verus!
