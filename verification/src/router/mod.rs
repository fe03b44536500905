//! Routers and the structures they use to store phits and to track the space of their neighbours.

pub mod basic;

use vstd::prelude::*;
use std::rc::Rc;
use std::collections::VecDeque;
use rand::rngs::StdRng;
use crate::{Phit, rc_clone};
use crate::rng::gen_range;
use std::collections::BTreeMap;

verus! {

///A step of a first-in first-out queue: the front is handed out and leaves, or nothing when it is empty.
pub open spec fn fifo_pop<T>(before: Seq<T>, r: Option<T>, after: Seq<T>) -> bool {
    if before.len() == 0 {
        r is None && after == before
    } else {
        r == Some(before[0]) && after == before.drop_first()
    }
}

///A queue that starts empty and gets `pushed`, one at a time at its back, holds them in that order.
pub proof fn lemma_pushes_in_order<T>(pushed: Seq<T>, states: Seq<Seq<T>>)
    requires
        states.len() == pushed.len() + 1,
        states[0] == Seq::<T>::empty(),
        forall|i: int| 0 <= i < pushed.len() ==> #[trigger] states[i + 1] == states[i].push(pushed[i]),
    ensures
        states[pushed.len() as int] == pushed,
{
    assert forall|k: int| 0 <= k <= pushed.len() implies #[trigger] states[k] == pushed.take(k) by {
        lemma_pushes_prefix(pushed, states, k);
    }
    assert(pushed.take(pushed.len() as int) == pushed);
}

proof fn lemma_pushes_prefix<T>(pushed: Seq<T>, states: Seq<Seq<T>>, k: int)
    requires
        states.len() == pushed.len() + 1,
        states[0] == Seq::<T>::empty(),
        forall|i: int| 0 <= i < pushed.len() ==> #[trigger] states[i + 1] == states[i].push(pushed[i]),
        0 <= k <= pushed.len(),
    ensures
        states[k] == pushed.take(k),
    decreases k,
{
    if k == 0 {
        assert(pushed.take(0) =~= Seq::<T>::empty());
    } else {
        lemma_pushes_prefix(pushed, states, k - 1);
        assert(states[k] == states[k - 1].push(pushed[k - 1]));
        assert(pushed.take(k) =~= pushed.take(k - 1).push(pushed[k - 1]));
    }
}

///A first-in first-out queue holding `contents` hands them out in that order, one per step, and then nothing, staying empty.
pub proof fn lemma_pops_in_order<T>(contents: Seq<T>, results: Seq<Option<T>>, states: Seq<Seq<T>>)
    requires
        states.len() == results.len() + 1,
        states[0] == contents,
        forall|i: int| 0 <= i < results.len() ==> fifo_pop(states[i], #[trigger] results[i], states[i + 1]),
    ensures
        forall|i: int| 0 <= i < results.len() && i < contents.len() ==> #[trigger] results[i] == Some(contents[i]),
        forall|i: int| contents.len() <= i < results.len() ==> #[trigger] results[i] is None,
        results.len() >= contents.len() ==> states[results.len() as int] == Seq::<T>::empty(),
{
    assert forall|k: int| 0 <= k <= results.len() implies #[trigger] states[k] == if k <= contents.len() { contents.skip(k) } else { Seq::<T>::empty() } by {
        lemma_pops_prefix(contents, results, states, k);
    }
    assert forall|i: int| 0 <= i < results.len() && i < contents.len() implies #[trigger] results[i] == Some(contents[i]) by {
        assert(states[i] == contents.skip(i));
        assert(fifo_pop(states[i], results[i], states[i + 1]));
    }
    assert forall|i: int| contents.len() <= i < results.len() implies #[trigger] results[i] is None by {
        assert(states[i].len() == 0) by {
            if i == contents.len() {
                assert(contents.skip(i).len() == 0);
            }
        }
        assert(fifo_pop(states[i], results[i], states[i + 1]));
    }
    if results.len() >= contents.len() {
        let n = results.len() as int;
        if n == contents.len() {
            assert(contents.skip(n) =~= Seq::<T>::empty());
        }
    }
}

proof fn lemma_pops_prefix<T>(contents: Seq<T>, results: Seq<Option<T>>, states: Seq<Seq<T>>, k: int)
    requires
        states.len() == results.len() + 1,
        states[0] == contents,
        forall|i: int| 0 <= i < results.len() ==> fifo_pop(states[i], #[trigger] results[i], states[i + 1]),
        0 <= k <= results.len(),
    ensures
        states[k] == if k <= contents.len() { contents.skip(k) } else { Seq::<T>::empty() },
    decreases k,
{
    if k == 0 {
        assert(contents.skip(0) =~= contents);
    } else {
        lemma_pops_prefix(contents, results, states, k - 1);
        assert(fifo_pop(states[k - 1], results[k - 1], states[k]));
        if k <= contents.len() {
            assert(contents.skip(k - 1).drop_first() =~= contents.skip(k));
        } else if k - 1 == contents.len() {
            assert(contents.skip(k - 1) =~= Seq::<T>::empty());
        }
    }
}

///An unbounded queue of phits.
pub struct Buffer {
    pub phits: VecDeque<Rc<Phit>>,
}

impl View for Buffer {
    type V = Seq<Rc<Phit>>;

    open spec fn view(&self) -> Seq<Rc<Phit>> {
        self.phits@
    }
}

impl Buffer {
    pub fn new() -> (b: Buffer)
        ensures
            b@ == Seq::<Rc<Phit>>::empty(),
    {
        Buffer { phits: VecDeque::new() }
    }

    ///Appends a phit at the back of the queue.
    pub fn push(&mut self, phit: Rc<Phit>)
        ensures
            final(self)@ == old(self)@.push(phit),
    {
        self.phits.push_back(phit);
    }

    ///Takes the phit at the front of the queue.
    pub fn pop(&mut self) -> (r: Option<Rc<Phit>>)
        ensures
            old(self)@.len() == 0 ==> r is None && final(self)@ == old(self)@,
            old(self)@.len() > 0 ==> r == Some(old(self)@[0]) && final(self)@ == old(self)@.drop_first(),
            fifo_pop(old(self)@, r, final(self)@),
    {
        self.phits.pop_front()
    }

    ///The phit at the front of the queue, which stays there.
    pub fn front(&self) -> (r: Option<Rc<Phit>>)
        ensures
            self@.len() == 0 ==> r is None,
            self@.len() > 0 ==> r == Some(self@[0]),
    {
        if self.phits.len() == 0 {
            None
        } else {
            Some(rc_clone(&self.phits[0]))
        }
    }

    ///How many phits are currently in the buffer.
    pub fn len(&self) -> (n: usize)
        ensures
            n == self@.len(),
    {
        self.phits.len()
    }

    ///The phits of the buffer, front first.
    pub fn iter_phits(&self) -> (v: Vec<Rc<Phit>>)
        ensures
            v@ == self@,
    {
        let mut v: Vec<Rc<Phit>> = Vec::new();
        let mut i: usize = 0;
        while i < self.phits.len()
            invariant
                i <= self@.len(),
                v@ == self@.take(i as int),
            decreases self@.len() - i,
        {
            v.push(rc_clone(&self.phits[i]));
            proof {
                assert(self@.take(i + 1) == self@.take(i as int).push(self@[i as int]));
            }
            i = i + 1;
        }
        proof {
            assert(self@.take(self@.len() as int) == self@);
        }
        v
    }
}

///An unbounded queue of phits with extra info.
///To use in routers to keep track of selections.
pub struct AugmentedBuffer<ExtraInfo> {
    phits: VecDeque<(Rc<Phit>, ExtraInfo)>,
}

impl<ExtraInfo> View for AugmentedBuffer<ExtraInfo> {
    type V = Seq<(Rc<Phit>, ExtraInfo)>;

    closed spec fn view(&self) -> Seq<(Rc<Phit>, ExtraInfo)> {
        self.phits@
    }
}

impl<ExtraInfo> AugmentedBuffer<ExtraInfo> {
    pub fn new() -> (b: AugmentedBuffer<ExtraInfo>)
        ensures
            b@ == Seq::<(Rc<Phit>, ExtraInfo)>::empty(),
    {
        AugmentedBuffer { phits: VecDeque::new() }
    }

    pub fn push(&mut self, phit: Rc<Phit>, extra: ExtraInfo)
        ensures
            final(self)@ == old(self)@.push((phit, extra)),
    {
        self.phits.push_back((phit, extra));
    }

    pub fn pop(&mut self) -> (r: Option<(Rc<Phit>, ExtraInfo)>)
        ensures
            old(self)@.len() == 0 ==> r is None && final(self)@ == old(self)@,
            old(self)@.len() > 0 ==> r == Some(old(self)@[0]) && final(self)@ == old(self)@.drop_first(),
    {
        self.phits.pop_front()
    }

    pub fn front(&self) -> (r: Option<(Rc<Phit>, ExtraInfo)>)
        where ExtraInfo: Copy,
        ensures
            self@.len() == 0 ==> r is None,
            self@.len() > 0 ==> r == Some(self@[0]),
    {
        if self.phits.len() == 0 {
            None
        } else {
            let entry = &self.phits[0];
            Some((rc_clone(&entry.0), entry.1))
        }
    }

    ///How many phits are currently in the buffer.
    pub fn len(&self) -> (n: usize)
        ensures
            n == self@.len(),
    {
        self.phits.len()
    }

    ///The phits of the buffer, front first, without their extra information.
    pub fn iter_phits(&self) -> (v: Vec<Rc<Phit>>)
        ensures
            v@.len() == self@.len(),
            forall|i: int| 0 <= i < v@.len() ==> v@[i] == (#[trigger] self@[i]).0,
    {
        let mut v: Vec<Rc<Phit>> = Vec::new();
        let mut i: usize = 0;
        while i < self.phits.len()
            invariant
                i <= self@.len(),
                v@.len() == i,
                forall|k: int| 0 <= k < i ==> v@[k] == (#[trigger] self@[k]).0,
            decreases self@.len() - i,
        {
            v.push(rc_clone(&self.phits[i].0));
            i = i + 1;
        }
        v
    }
}

///A message send from the receptor to the emissor when the receptor state changes.
///Usually a phit is extracted from the buffer and we want the emissor's credit counter to increase.
#[derive(Clone, Copy, Debug, PartialEq, Eq, Structural)]
pub struct AcknowledgeMessage {
    pub virtual_channel: Option<usize>,
    pub set_available_size: Option<usize>,
}

impl AcknowledgeMessage {
    pub fn ack_empty() -> (m: AcknowledgeMessage)
        ensures
            m.virtual_channel is None,
            m.set_available_size is None,
    {
        AcknowledgeMessage { virtual_channel: None, set_available_size: None }
    }

    pub fn ack_phit_clear_from_virtual_channel(virtual_channel: usize) -> (m: AcknowledgeMessage)
        ensures
            m.virtual_channel == Some(virtual_channel),
            m.set_available_size is None,
    {
        AcknowledgeMessage { virtual_channel: Some(virtual_channel), set_available_size: None }
    }

    pub fn ack_fix_available_size(amount: usize) -> (m: AcknowledgeMessage)
        ensures
            m.virtual_channel is None,
            m.set_available_size == Some(amount),
    {
        AcknowledgeMessage { virtual_channel: None, set_available_size: Some(amount) }
    }
}

///Structure for a port to contain the information necessary about the other endpoint, so that we can know if we can send data.
pub trait StatusAtEmissor {
    ///The status is consistent.
    spec fn status_inv(&self) -> bool;

    ///A virtual channel of the link.
    spec fn valid_vc(&self, virtual_channel: usize) -> bool;

    ///The status can take this acknowledgement.
    spec fn accepts(&self, message: AcknowledgeMessage) -> bool;

    ///A phit can be sent through this virtual channel now.
    spec fn may_notify(&self, virtual_channel: usize) -> bool;

    ///The status keeps a timestamp of the last transmission.
    spec fn keeps_last_transmission(&self) -> bool;

    ///Whether the status lets the phit be sent through the virtual channel now.
    spec fn transmittable(&self, phit: Phit, virtual_channel: usize) -> bool;

    ///The space known to be free in the receptor for the virtual channel, if known.
    spec fn available_space(&self, virtual_channel: usize) -> Option<usize>;

    ///Get the number of virtual channels used in the link.
    fn num_virtual_channels(&self) -> usize;

    ///Receive a phit acknowledge from the receiving endpoint.
    fn acknowledge(&mut self, message: AcknowledgeMessage)
        requires
            old(self).status_inv(),
            old(self).accepts(message),
        ensures
            final(self).status_inv(),
    ;

    ///Keep track of a outcoming phit.
    fn notify_outcoming_phit(&mut self, virtual_channel: usize, cycle: usize)
        requires
            old(self).status_inv(),
            old(self).may_notify(virtual_channel),
        ensures
            final(self).status_inv(),
    ;

    ///Check if we can transmit a given phit.
    fn can_transmit(&self, phit: &Rc<Phit>, virtual_channel: usize) -> (b: bool)
        requires
            self.status_inv(),
            self.valid_vc(virtual_channel),
        ensures
            b == self.transmittable(**phit, virtual_channel),
    ;

    ///Check if we can surely transmit and store the whole remaining of the packet.
    fn can_transmit_whole_packet(&self, phit: &Rc<Phit>, virtual_channel: usize) -> bool
        requires
            self.status_inv(),
            self.valid_vc(virtual_channel),
            phit.index <= phit.packet.size,
    ;

    ///Consult available space.
    fn known_available_space_for_virtual_channel(&self, virtual_channel: usize) -> (r: Option<usize>)
        requires
            self.status_inv(),
            self.valid_vc(virtual_channel),
        ensures
            r == self.available_space(virtual_channel),
    ;

    ///Get timestamp of last transmission.
    fn get_last_transmission(&self) -> usize
        requires
            self.keeps_last_transmission(),
    ;
}

///A simple status consisting of a credit counter per virtual channel.
pub struct CreditCounterVector {
    ///The known available space in the next router by the given index (usually for virtual channel).
    pub neighbour_credits: Vec<usize>,
    ///Cycle in which the last phit was trasmitted out of this port.
    pub last_transmission: usize,
    ///Credits required in the next router's virtual port to begin the transmission
    pub flit_size: usize,
}

impl StatusAtEmissor for CreditCounterVector {
    open spec fn status_inv(&self) -> bool {
        true
    }

    open spec fn transmittable(&self, phit: Phit, virtual_channel: usize) -> bool {
        self.neighbour_credits@[virtual_channel as int] >= if phit.index == 0 { self.flit_size } else { 1 }
    }

    open spec fn available_space(&self, virtual_channel: usize) -> Option<usize> {
        Some(self.neighbour_credits@[virtual_channel as int])
    }

    open spec fn valid_vc(&self, virtual_channel: usize) -> bool {
        virtual_channel < self.neighbour_credits@.len()
    }

    open spec fn accepts(&self, message: AcknowledgeMessage) -> bool {
        match message.virtual_channel {
            Some(vc) => vc < self.neighbour_credits@.len() && self.neighbour_credits@[vc as int] < usize::MAX,
            None => false,
        }
    }

    open spec fn may_notify(&self, virtual_channel: usize) -> bool {
        virtual_channel < self.neighbour_credits@.len() && self.neighbour_credits@[virtual_channel as int] > 0
    }

    open spec fn keeps_last_transmission(&self) -> bool {
        true
    }

    fn num_virtual_channels(&self) -> (n: usize)
        ensures
            n == self.neighbour_credits@.len(),
    {
        self.neighbour_credits.len()
    }

    ///One more credit for the acknowledged virtual channel.
    fn acknowledge(&mut self, message: AcknowledgeMessage)
        ensures
            ({
                let vc = message.virtual_channel->Some_0 as int;
                final(self).neighbour_credits@ == old(self).neighbour_credits@.update(vc, (old(self).neighbour_credits@[vc] + 1) as usize)
            }),
            final(self).last_transmission == old(self).last_transmission,
            final(self).flit_size == old(self).flit_size,
    {
        let vc = match message.virtual_channel {
            Some(vc) => vc,
            None => 0,
        };
        let c = self.neighbour_credits[vc];
        self.neighbour_credits.set(vc, c + 1);
    }

    ///One credit less for the virtual channel, and the cycle recorded.
    fn notify_outcoming_phit(&mut self, virtual_channel: usize, cycle: usize)
        ensures
            final(self).neighbour_credits@ == old(self).neighbour_credits@.update(
                virtual_channel as int,
                (old(self).neighbour_credits@[virtual_channel as int] - 1) as usize,
            ),
            final(self).last_transmission == cycle,
            final(self).flit_size == old(self).flit_size,
    {
        let c = self.neighbour_credits[virtual_channel];
        self.neighbour_credits.set(virtual_channel, c - 1);
        self.last_transmission = cycle;
    }

    ///A leading phit needs a whole flit of credits, any other phit a single one.
    fn can_transmit(&self, phit: &Rc<Phit>, virtual_channel: usize) -> (b: bool)
        ensures
            b == (self.neighbour_credits@[virtual_channel as int] >= if phit.index == 0 {
                self.flit_size
            } else {
                1
            }),
    {
        let mut necessary_credits: usize = 1;
        if phit.is_begin() {
            necessary_credits = self.flit_size;
        }
        self.neighbour_credits[virtual_channel] >= necessary_credits
    }

    ///There are credits for the rest of the packet, this phit included.
    fn can_transmit_whole_packet(&self, phit: &Rc<Phit>, virtual_channel: usize) -> (b: bool)
        ensures
            b == (self.neighbour_credits@[virtual_channel as int] >= phit.packet.size - phit.index),
    {
        let necessary_credits = phit.packet.size - phit.index;
        self.neighbour_credits[virtual_channel] >= necessary_credits
    }

    fn known_available_space_for_virtual_channel(&self, virtual_channel: usize) -> (r: Option<usize>)
        ensures
            r == Some(self.neighbour_credits@[virtual_channel as int]),
    {
        Some(self.neighbour_credits[virtual_channel])
    }

    fn get_last_transmission(&self) -> (r: usize)
        ensures
            r == self.last_transmission,
    {
        self.last_transmission
    }
}

///For senders that not care about the receptor or phantom senders that do not actually send anything.
pub struct EmptyStatus();

impl StatusAtEmissor for EmptyStatus {
    open spec fn status_inv(&self) -> bool {
        true
    }

    open spec fn transmittable(&self, phit: Phit, virtual_channel: usize) -> bool {
        true
    }

    open spec fn available_space(&self, virtual_channel: usize) -> Option<usize> {
        Some(1000usize)
    }

    open spec fn valid_vc(&self, virtual_channel: usize) -> bool {
        true
    }

    open spec fn accepts(&self, message: AcknowledgeMessage) -> bool {
        true
    }

    open spec fn may_notify(&self, virtual_channel: usize) -> bool {
        true
    }

    open spec fn keeps_last_transmission(&self) -> bool {
        true
    }

    fn num_virtual_channels(&self) -> (n: usize)
        ensures
            n == 1,
    {
        1
    }

    fn acknowledge(&mut self, _message: AcknowledgeMessage) {
    }

    fn notify_outcoming_phit(&mut self, _virtual_channel: usize, _cycle: usize) {
    }

    fn can_transmit(&self, _phit: &Rc<Phit>, _virtual_channel: usize) -> (b: bool)
        ensures
            b,
    {
        true
    }

    fn can_transmit_whole_packet(&self, _phit: &Rc<Phit>, _virtual_channel: usize) -> (b: bool)
        ensures
            b,
    {
        true
    }

    ///The space of a consumer is reported as a fixed amount.
    fn known_available_space_for_virtual_channel(&self, _virtual_channel: usize) -> (r: Option<usize>)
        ensures
            r == Some(1000usize),
    {
        Some(1000)
    }

    ///Senders without receptor have never transmitted: the timestamp is 0.
    fn get_last_transmission(&self) -> (r: usize)
        ensures
            r == 0,
    {
        0
    }
}

///What a server needs to know of a router to send it packets.
#[derive(Clone, Copy, Debug)]
pub struct StatusAtServer {
    pub available_size: usize,
    pub size_to_send: usize,
}

impl StatusAtEmissor for StatusAtServer {
    open spec fn status_inv(&self) -> bool {
        true
    }

    open spec fn transmittable(&self, phit: Phit, virtual_channel: usize) -> bool {
        phit.index != 0 || self.available_size >= self.size_to_send
    }

    open spec fn available_space(&self, virtual_channel: usize) -> Option<usize> {
        Some(self.available_size)
    }

    open spec fn valid_vc(&self, virtual_channel: usize) -> bool {
        true
    }

    open spec fn accepts(&self, message: AcknowledgeMessage) -> bool {
        message.set_available_size is Some
    }

    open spec fn may_notify(&self, virtual_channel: usize) -> bool {
        self.available_size > 0
    }

    ///A server link does not record its transmissions.
    open spec fn keeps_last_transmission(&self) -> bool {
        false
    }

    fn num_virtual_channels(&self) -> (n: usize)
        ensures
            n == 1,
    {
        1
    }

    ///The router tells the space it has.
    fn acknowledge(&mut self, message: AcknowledgeMessage)
        ensures
            final(self).available_size == message.set_available_size->Some_0,
            final(self).size_to_send == old(self).size_to_send,
    {
        self.available_size = match message.set_available_size {
            Some(s) => s,
            None => self.available_size,
        };
    }

    fn notify_outcoming_phit(&mut self, _virtual_channel: usize, _cycle: usize)
        ensures
            final(self).available_size == old(self).available_size - 1,
            final(self).size_to_send == old(self).size_to_send,
    {
        self.available_size = self.available_size - 1;
    }

    ///A leading phit waits until the router has room for a whole packet.
    fn can_transmit(&self, phit: &Rc<Phit>, _virtual_channel: usize) -> (b: bool)
        ensures
            b == (phit.index != 0 || self.available_size >= self.size_to_send),
    {
        if phit.is_begin() {
            self.available_size >= self.size_to_send
        } else {
            true
        }
    }

    fn can_transmit_whole_packet(&self, _phit: &Rc<Phit>, _virtual_channel: usize) -> (b: bool)
        ensures
            !b,
    {
        false
    }

    fn known_available_space_for_virtual_channel(&self, _virtual_channel: usize) -> (r: Option<usize>)
        ensures
            r == Some(self.available_size),
    {
        Some(self.available_size)
    }

    fn get_last_transmission(&self) -> usize {
        0
    }
}

///A structure to store incoming phits.
pub trait SpaceAtReceptor {
    ///The space is consistent.
    spec fn space_inv(&self) -> bool;

    ///The space actually stores phits; receptors that consume at once do not.
    spec fn stores_phits(&self) -> bool;

    ///A virtual channel of the space.
    spec fn valid_vc(&self, virtual_channel: usize) -> bool;

    ///The phit, of the packet identified by `packet_key`, can be stored now.
    spec fn can_insert(&self, phit: Phit, packet_key: usize) -> bool;

    ///inserts a phit in the buffer space. I may return an error if the phit cannot be inserted.
    ///`packet_key` identifies the packet of the phit among those in transit.
    fn insert(&mut self, phit: Phit, packet_key: usize, rng: &mut StdRng) -> (r: Result<(), ()>)
        requires
            old(self).space_inv(),
            old(self).stores_phits(),
            old(self).can_insert(phit, packet_key),
        ensures
            final(self).space_inv(),
            final(self).stores_phits(),
    ;

    ///The phits that can be processed by other structures, such as a crossbar.
    fn front_iter(&self) -> Vec<Rc<Phit>>
        requires
            self.space_inv(),
            self.stores_phits(),
    ;

    ///Consult if there is a processable phit in a given virtual channel.
    fn front_virtual_channel(&self, virtual_channel: usize) -> Option<Rc<Phit>>
        requires
            self.space_inv(),
            self.stores_phits(),
            self.valid_vc(virtual_channel),
    ;

    ///Extract a phit in a given virtual channel and returns it.
    fn extract(&mut self, virtual_channel: usize) -> (r: Result<(Rc<Phit>, Option<AcknowledgeMessage>), ()>)
        requires
            old(self).space_inv(),
            old(self).stores_phits(),
            old(self).valid_vc(virtual_channel),
        ensures
            final(self).space_inv(),
            final(self).stores_phits(),
    ;

    ///All the stored phits. Do not assume any ordering.
    fn iter_phits(&self) -> Vec<Rc<Phit>>
        requires
            self.space_inv(),
            self.stores_phits(),
    ;

    ///Consult currently available space in phits dedicated to a virtual channel.
    fn available_dedicated_space(&self, virtual_channel: usize) -> Option<usize>
        requires
            self.space_inv(),
            self.valid_vc(virtual_channel),
    ;

    ///Consult current number of phits in space dedicated to a virtual channel.
    fn occupied_dedicated_space(&self, virtual_channel: usize) -> Option<usize>
        requires
            self.space_inv(),
            self.valid_vc(virtual_channel),
    ;
}

///The views of a list of buffers.
pub open spec fn buffers_view(buffers: Seq<Buffer>) -> Seq<Seq<Rc<Phit>>> {
    buffers.map_values(|b: Buffer| b@)
}

///The phit as it is stored: with the virtual channel set.
pub open spec fn with_virtual_channel(phit: Phit, vc: usize) -> Phit {
    Phit { packet: phit.packet, index: phit.index, virtual_channel: Some(vc) }
}

///The stored phit went to buffer `vc`: the one given in the phit, else the one chosen
///for its packet, else one drawn for a leading phit; the choice is kept for the rest of
///the packet and dropped with its last phit.
pub open spec fn parallel_insert_outcome(
    old_buffers: Seq<Seq<Rc<Phit>>>,
    old_choices: Map<usize, usize>,
    new_buffers: Seq<Seq<Rc<Phit>>>,
    new_choices: Map<usize, usize>,
    phit: Phit,
    packet_key: usize,
    vc: usize,
) -> bool {
    &&& vc < old_buffers.len()
    &&& (phit.virtual_channel matches Some(v) ==> vc == v)
    &&& (phit.virtual_channel is None && phit.index != 0 ==> vc == old_choices[packet_key])
    &&& new_buffers == old_buffers.update(vc as int, old_buffers[vc as int].push(Rc::new(with_virtual_channel(phit, vc))))
    &&& new_choices == if phit.virtual_channel is Some {
        old_choices
    } else if phit.index == phit.packet.size - 1 {
        old_choices.remove(packet_key)
    } else {
        old_choices.insert(packet_key, vc)
    }
}

///Collects the fronts of the nonempty buffers, in buffer order.
fn buffer_fronts(buffers: &Vec<Buffer>) -> (v: Vec<Rc<Phit>>)
    ensures
        v@ == front_seq(buffers_view(buffers@)),
{
    let mut v: Vec<Rc<Phit>> = Vec::new();
    let mut i: usize = 0;
    while i < buffers.len()
        invariant
            i <= buffers@.len(),
            v@ == front_seq(buffers_view(buffers@).take(i as int)),
        decreases buffers@.len() - i,
    {
        let ghost bv = buffers_view(buffers@);
        proof {
            assert(bv.take(i + 1).drop_last() == bv.take(i as int));
            assert(bv.take(i + 1).last() == buffers@[i as int]@);
        }
        match buffers[i].front() {
            Some(p) => v.push(p),
            None => {},
        }
        i = i + 1;
    }
    proof {
        assert(buffers_view(buffers@).take(buffers@.len() as int) == buffers_view(buffers@));
    }
    v
}

///The phits at the front of each nonempty queue, in queue order.
pub open spec fn front_seq(queues: Seq<Seq<Rc<Phit>>>) -> Seq<Rc<Phit>>
    decreases queues.len(),
{
    if queues.len() == 0 {
        Seq::empty()
    } else {
        let rest = front_seq(queues.drop_last());
        if queues.last().len() > 0 {
            rest.push(queues.last()[0])
        } else {
            rest
        }
    }
}

///All the phits of the queues, queue after queue.
pub open spec fn all_phits(queues: Seq<Seq<Rc<Phit>>>) -> Seq<Rc<Phit>>
    decreases queues.len(),
{
    if queues.len() == 0 {
        Seq::empty()
    } else {
        all_phits(queues.drop_last()) + queues.last()
    }
}

///Collects the phits of all buffers, buffer after buffer.
fn buffers_phits(buffers: &Vec<Buffer>) -> (v: Vec<Rc<Phit>>)
    ensures
        v@ == all_phits(buffers_view(buffers@)),
{
    let mut v: Vec<Rc<Phit>> = Vec::new();
    let mut i: usize = 0;
    while i < buffers.len()
        invariant
            i <= buffers@.len(),
            v@ == all_phits(buffers_view(buffers@).take(i as int)),
        decreases buffers@.len() - i,
    {
        let ghost bv = buffers_view(buffers@);
        proof {
            assert(bv.take(i + 1).drop_last() == bv.take(i as int));
            assert(bv.take(i + 1).last() == buffers@[i as int]@);
        }
        let mut w = buffers[i].iter_phits();
        v.append(&mut w);
        i = i + 1;
    }
    proof {
        assert(buffers_view(buffers@).take(buffers@.len() as int) == buffers_view(buffers@));
    }
    v
}

///A simple collection of buffers. Normally each being dedicated to a virtual channel.
pub struct ParallelBuffers {
    ///The phits in the transit queue that came from the previous router/server
    buffers: Vec<Buffer>,
    ///Stores the virtual channels chosen for incoming packets without a virtual channel already selected.
    input_virtual_channel_choices: BTreeMap<usize, usize>,
}

impl ParallelBuffers {
    ///The contents of each buffer.
    pub closed spec fn spec_buffers(&self) -> Seq<Seq<Rc<Phit>>> {
        buffers_view(self.buffers@)
    }

    ///The virtual channel chosen for each packet in transit that came without one.
    pub closed spec fn spec_choices(&self) -> Map<usize, usize> {
        self.input_virtual_channel_choices@
    }

    ///A collection of `virtual_channels` empty buffers.
    pub fn new(virtual_channels: usize) -> (p: ParallelBuffers)
        ensures
            p.spec_buffers() == Seq::new(virtual_channels as nat, |i: int| Seq::<Rc<Phit>>::empty()),
            p.spec_choices() == Map::<usize, usize>::empty(),
            p.space_inv() <==> virtual_channels > 0,
    {
        let mut buffers: Vec<Buffer> = Vec::new();
        let mut i: usize = 0;
        while i < virtual_channels
            invariant
                i <= virtual_channels,
                buffers@.len() == i,
                forall|k: int| 0 <= k < i ==> (#[trigger] buffers@[k])@ == Seq::<Rc<Phit>>::empty(),
            decreases virtual_channels - i,
        {
            buffers.push(Buffer::new());
            i = i + 1;
        }
        assert(buffers_view(buffers@) =~= Seq::new(virtual_channels as nat, |k: int| Seq::<Rc<Phit>>::empty()));
        ParallelBuffers { buffers, input_virtual_channel_choices: BTreeMap::new() }
    }
}

impl SpaceAtReceptor for ParallelBuffers {
    closed spec fn space_inv(&self) -> bool {
        &&& self.buffers@.len() > 0
        &&& forall|k: usize| #[trigger] self.input_virtual_channel_choices@.contains_key(k)
            ==> self.input_virtual_channel_choices@[k] < self.buffers@.len()
    }

    open spec fn stores_phits(&self) -> bool {
        true
    }

    open spec fn valid_vc(&self, virtual_channel: usize) -> bool {
        virtual_channel < self.spec_buffers().len()
    }

    ///A phit with a virtual channel goes to that buffer; a leading phit without one
    ///has a buffer chosen at random for its whole packet; a later phit without one
    ///needs the choice made for its packet.
    open spec fn can_insert(&self, phit: Phit, packet_key: usize) -> bool {
        &&& phit.packet.size > 0
        &&& match phit.virtual_channel {
            Some(vc) => vc < self.spec_buffers().len(),
            None => phit.index == 0 || self.spec_choices().contains_key(packet_key),
        }
    }

    fn insert(&mut self, phit: Phit, packet_key: usize, rng: &mut StdRng) -> (r: Result<(), ()>)
        ensures
            r is Ok,
            exists|vc: usize|
                #[trigger] parallel_insert_outcome(
                    old(self).spec_buffers(),
                    old(self).spec_choices(),
                    final(self).spec_buffers(),
                    final(self).spec_choices(),
                    phit,
                    packet_key,
                    vc,
                ),
    {
        let vc = match phit.virtual_channel {
            None => {
                let vc = if phit.is_begin() {
                    let r = gen_range(rng, 0, self.buffers.len());
                    self.input_virtual_channel_choices.insert(packet_key, r);
                    r
                } else {
                    match self.input_virtual_channel_choices.get(&packet_key) {
                        Some(x) => *x,
                        None => 0,
                    }
                };
                if phit.is_end() {
                    self.input_virtual_channel_choices.remove(&packet_key);
                }
                vc
            },
            Some(vc) => vc,
        };
        let stored = Phit { packet: phit.packet, index: phit.index, virtual_channel: Some(vc) };
        let ghost old_bufs = self.buffers@;
        self.buffers[vc].push(Rc::new(stored));
        proof {
            assert(buffers_view(self.buffers@) == buffers_view(old_bufs).update(
                vc as int,
                buffers_view(old_bufs)[vc as int].push(Rc::new(with_virtual_channel(phit, vc))),
            ));
            assert(vc < old(self).spec_buffers().len());
            assert(phit.virtual_channel is None && phit.index != 0 ==> vc == old(self).spec_choices()[packet_key]);
            assert(self.spec_choices() == if phit.virtual_channel is Some {
                old(self).spec_choices()
            } else if phit.index == phit.packet.size - 1 {
                old(self).spec_choices().remove(packet_key)
            } else {
                old(self).spec_choices().insert(packet_key, vc)
            });
            assert(parallel_insert_outcome(
                old(self).spec_buffers(),
                old(self).spec_choices(),
                self.spec_buffers(),
                self.spec_choices(),
                phit,
                packet_key,
                vc,
            ));
        }
        Ok(())
    }

    fn front_iter(&self) -> (v: Vec<Rc<Phit>>)
        ensures
            v@ == front_seq(self.spec_buffers()),
    {
        buffer_fronts(&self.buffers)
    }

    fn front_virtual_channel(&self, virtual_channel: usize) -> (r: Option<Rc<Phit>>)
        ensures
            self.spec_buffers()[virtual_channel as int].len() == 0 ==> r is None,
            self.spec_buffers()[virtual_channel as int].len() > 0 ==> r == Some(self.spec_buffers()[virtual_channel as int][0]),
    {
        self.buffers[virtual_channel].front()
    }

    ///Takes the front phit of the virtual channel, acknowledging one phit cleared from it.
    fn extract(&mut self, virtual_channel: usize) -> (r: Result<(Rc<Phit>, Option<AcknowledgeMessage>), ()>)
        ensures
            old(self).spec_buffers()[virtual_channel as int].len() == 0 ==> r is Err && final(self).spec_buffers()
                == old(self).spec_buffers(),
            old(self).spec_buffers()[virtual_channel as int].len() > 0 ==> r == Ok::<(Rc<Phit>, Option<AcknowledgeMessage>), ()>((
                old(self).spec_buffers()[virtual_channel as int][0],
                Some(AcknowledgeMessage { virtual_channel: Some(virtual_channel), set_available_size: None }),
            )) && final(self).spec_buffers() == old(self).spec_buffers().update(
                virtual_channel as int,
                old(self).spec_buffers()[virtual_channel as int].drop_first(),
            ),
            final(self).spec_choices() == old(self).spec_choices(),
    {
        let ghost old_bufs = self.buffers@;
        let popped = self.buffers[virtual_channel].pop();
        proof {
            assert(buffers_view(self.buffers@) == buffers_view(old_bufs).update(
                virtual_channel as int,
                if old_bufs[virtual_channel as int]@.len() > 0 {
                    old_bufs[virtual_channel as int]@.drop_first()
                } else {
                    old_bufs[virtual_channel as int]@
                },
            ));
        }
        match popped {
            Some(phit) => {
                let message = AcknowledgeMessage::ack_phit_clear_from_virtual_channel(virtual_channel);
                Ok((phit, Some(message)))
            },
            _ => {
                proof {
                    assert(buffers_view(self.buffers@) == buffers_view(old_bufs));
                }
                Err(())
            },
        }
    }

    fn iter_phits(&self) -> (v: Vec<Rc<Phit>>)
        ensures
            v@ == all_phits(self.spec_buffers()),
    {
        buffers_phits(&self.buffers)
    }

    ///The size of the buffers is not stored.
    fn available_dedicated_space(&self, _virtual_channel: usize) -> (r: Option<usize>)
        ensures
            r is None,
    {
        None
    }

    fn occupied_dedicated_space(&self, virtual_channel: usize) -> (r: Option<usize>)
        ensures
            r == Some(self.spec_buffers()[virtual_channel as int].len() as usize),
    {
        Some(self.buffers[virtual_channel].len())
    }
}

///For receptors that do not require space, let it be because they consume it immediately or because they do not actually receive anything.
pub struct NoSpace();

impl SpaceAtReceptor for NoSpace {
    open spec fn space_inv(&self) -> bool {
        true
    }

    ///Nothing is ever stored here.
    open spec fn stores_phits(&self) -> bool {
        false
    }

    open spec fn valid_vc(&self, virtual_channel: usize) -> bool {
        true
    }

    open spec fn can_insert(&self, phit: Phit, packet_key: usize) -> bool {
        false
    }

    fn insert(&mut self, _phit: Phit, _packet_key: usize, _rng: &mut StdRng) -> (r: Result<(), ()>) {
        Err(())
    }

    fn front_iter(&self) -> Vec<Rc<Phit>> {
        Vec::new()
    }

    fn front_virtual_channel(&self, _virtual_channel: usize) -> Option<Rc<Phit>> {
        None
    }

    fn extract(&mut self, _virtual_channel: usize) -> (r: Result<(Rc<Phit>, Option<AcknowledgeMessage>), ()>) {
        Err(())
    }

    fn iter_phits(&self) -> Vec<Rc<Phit>> {
        Vec::new()
    }

    fn available_dedicated_space(&self, _virtual_channel: usize) -> (r: Option<usize>)
        ensures
            r == Some(0usize),
    {
        Some(0)
    }

    fn occupied_dedicated_space(&self, _virtual_channel: usize) -> (r: Option<usize>)
        ensures
            r == Some(0usize),
    {
        Some(0)
    }
}

///The largest free space among buffers of `size` phits holding the given queues.
pub open spec fn max_free_space(queues: Seq<Seq<Rc<Phit>>>, size: usize) -> int
    decreases queues.len(),
{
    if queues.len() == 0 {
        0
    } else {
        let rest = max_free_space(queues.drop_last(), size);
        let here = size - queues.last().len();
        if queues.len() == 1 || here > rest { here } else { rest }
    }
}

///A simple collection of buffers. The selected virtual channel of the emissor is ignored, the packet is inserted at random in any in which it fits.
pub struct AgnosticParallelBuffers {
    ///The phits in the transit queue that came from the previous router/server
    buffers: Vec<Buffer>,
    ///The size of each buffer.
    buffer_size: usize,
    ///The buffer in which we are injecting the current packet.
    currently_selected: usize,
}

impl AgnosticParallelBuffers {
    ///The contents of each buffer.
    pub closed spec fn spec_buffers(&self) -> Seq<Seq<Rc<Phit>>> {
        buffers_view(self.buffers@)
    }

    pub closed spec fn spec_buffer_size(&self) -> usize {
        self.buffer_size
    }

    ///The buffer receiving the packet being injected.
    pub closed spec fn spec_currently_selected(&self) -> usize {
        self.currently_selected
    }

    ///Whether a buffer has room for a packet of `size` phits.
    pub open spec fn fits(&self, k: int, size: usize) -> bool {
        self.spec_buffer_size() - self.spec_buffers()[k].len() >= size
    }

    ///`buffer_amount` empty buffers of `buffer_size` phits.
    pub fn new(buffer_amount: usize, buffer_size: usize) -> (p: AgnosticParallelBuffers)
        ensures
            p.spec_buffers() == Seq::new(buffer_amount as nat, |i: int| Seq::<Rc<Phit>>::empty()),
            p.spec_buffer_size() == buffer_size,
            p.spec_currently_selected() == 0,
            p.space_inv() <==> buffer_amount > 0,
    {
        let mut buffers: Vec<Buffer> = Vec::new();
        let mut i: usize = 0;
        while i < buffer_amount
            invariant
                i <= buffer_amount,
                buffers@.len() == i,
                forall|k: int| 0 <= k < i ==> (#[trigger] buffers@[k])@ == Seq::<Rc<Phit>>::empty(),
            decreases buffer_amount - i,
        {
            buffers.push(Buffer::new());
            i = i + 1;
        }
        assert(buffers_view(buffers@) =~= Seq::new(buffer_amount as nat, |k: int| Seq::<Rc<Phit>>::empty()));
        AgnosticParallelBuffers { buffers, buffer_size, currently_selected: 0 }
    }
}

impl SpaceAtReceptor for AgnosticParallelBuffers {
    closed spec fn space_inv(&self) -> bool {
        &&& self.buffers@.len() > 0
        &&& self.currently_selected < self.buffers@.len()
        &&& forall|k: int| 0 <= k < self.buffers@.len() ==> (#[trigger] self.buffers@[k])@.len() <= self.buffer_size
    }

    open spec fn stores_phits(&self) -> bool {
        true
    }

    open spec fn valid_vc(&self, virtual_channel: usize) -> bool {
        virtual_channel < self.spec_buffers().len()
    }

    ///A leading phit needs some buffer with room for its whole packet; a later phit
    ///goes to the buffer of its packet, which must have room for it.
    open spec fn can_insert(&self, phit: Phit, packet_key: usize) -> bool {
        if phit.index == 0 {
            phit.packet.size > 0 && exists|k: int| 0 <= k < self.spec_buffers().len() && #[trigger] self.fits(k, phit.packet.size)
        } else {
            self.spec_buffers()[self.spec_currently_selected() as int].len() < self.spec_buffer_size()
        }
    }

    ///A leading phit selects at random a buffer with room for its packet; every phit goes
    ///to the selected buffer, which becomes its virtual channel.
    fn insert(&mut self, phit: Phit, _packet_key: usize, rng: &mut StdRng) -> (r: Result<(), ()>)
        ensures
            r is Ok,
            phit.index != 0 ==> final(self).spec_currently_selected() == old(self).spec_currently_selected(),
            phit.index == 0 ==> old(self).fits(final(self).spec_currently_selected() as int, phit.packet.size),
            final(self).spec_currently_selected() < old(self).spec_buffers().len(),
            final(self).spec_buffer_size() == old(self).spec_buffer_size(),
            final(self).spec_buffers() == old(self).spec_buffers().update(
                final(self).spec_currently_selected() as int,
                old(self).spec_buffers()[final(self).spec_currently_selected() as int].push(
                    Rc::new(with_virtual_channel(phit, final(self).spec_currently_selected())),
                ),
            ),
    {
        if phit.is_begin() {
            let mut good: Vec<usize> = Vec::new();
            let mut index: usize = 0;
            while index < self.buffers.len()
                invariant
                    self.space_inv(),
                    self.buffers@ == old(self).buffers@,
                    self.buffer_size == old(self).buffer_size,
                    index <= self.buffers@.len(),
                    forall|j: int| 0 <= j < good@.len() ==> (#[trigger] good@[j]) < self.buffers@.len()
                        && self.fits(good@[j] as int, phit.packet.size),
                    forall|k: int| 0 <= k < index && #[trigger] self.fits(k, phit.packet.size) ==> good@.contains(k as usize),
                decreases self.buffers@.len() - index,
            {
                let available = self.buffer_size - self.buffers[index].len();
                let ghost good_before = good@;
                if available >= phit.packet.size {
                    good.push(index);
                    proof {
                        assert(good@[good@.len() - 1] == index);
                        assert forall|k: int| 0 <= k < index + 1 && #[trigger] self.fits(k, phit.packet.size) implies good@.contains(k as usize) by {
                            if k < index {
                                let j = choose|j: int| 0 <= j < good_before.len() && good_before[j] == k as usize;
                                assert(good@[j] == k as usize);
                            }
                        }
                    }
                }
                index = index + 1;
            }
            proof {
                let k = choose|k: int| 0 <= k < self.spec_buffers().len() && #[trigger] self.fits(k, phit.packet.size);
                assert(good@.contains(k as usize));
            }
            let r = gen_range(rng, 0, good.len());
            self.currently_selected = good[r];
            proof {
                assert(self.fits(good@[r as int] as int, phit.packet.size));
            }
        }
        let index = self.currently_selected;
        let stored = Phit { packet: phit.packet, index: phit.index, virtual_channel: Some(index) };
        let ghost old_bufs = self.buffers@;
        self.buffers[index].push(Rc::new(stored));
        proof {
            assert(buffers_view(self.buffers@) =~= buffers_view(old_bufs).update(
                index as int,
                buffers_view(old_bufs)[index as int].push(Rc::new(with_virtual_channel(phit, index))),
            ));
        }
        Ok(())
    }

    fn front_iter(&self) -> (v: Vec<Rc<Phit>>)
        ensures
            v@ == front_seq(self.spec_buffers()),
    {
        buffer_fronts(&self.buffers)
    }

    ///Although the emissor's virtual channel is ignored, the buffer index is the current virtual channel.
    fn front_virtual_channel(&self, virtual_channel: usize) -> (r: Option<Rc<Phit>>)
        ensures
            self.spec_buffers()[virtual_channel as int].len() == 0 ==> r is None,
            self.spec_buffers()[virtual_channel as int].len() > 0 ==> r == Some(self.spec_buffers()[virtual_channel as int][0]),
    {
        self.buffers[virtual_channel].front()
    }

    ///Takes the front phit of the buffer and tells the emissor the largest free space
    ///left in a buffer, one phit less to account for the link delay.
    fn extract(&mut self, virtual_channel: usize) -> (r: Result<(Rc<Phit>, Option<AcknowledgeMessage>), ()>)
        ensures
            old(self).spec_buffers()[virtual_channel as int].len() == 0 ==> r is Err && final(self).spec_buffers()
                == old(self).spec_buffers(),
            old(self).spec_buffers()[virtual_channel as int].len() > 0 ==> {
                let new_buffers = old(self).spec_buffers().update(
                    virtual_channel as int,
                    old(self).spec_buffers()[virtual_channel as int].drop_first(),
                );
                let space = max_free_space(new_buffers, old(self).spec_buffer_size());
                &&& final(self).spec_buffers() == new_buffers
                &&& r == Ok::<(Rc<Phit>, Option<AcknowledgeMessage>), ()>((
                    old(self).spec_buffers()[virtual_channel as int][0],
                    Some(AcknowledgeMessage {
                        virtual_channel: None,
                        set_available_size: Some(if space >= 1 { (space - 1) as usize } else { 0usize }),
                    }),
                ))
            },
            final(self).spec_buffer_size() == old(self).spec_buffer_size(),
            final(self).spec_currently_selected() == old(self).spec_currently_selected(),
    {
        let ghost old_bufs = self.buffers@;
        let popped = self.buffers[virtual_channel].pop();
        proof {
            assert(buffers_view(self.buffers@) =~= buffers_view(old_bufs).update(
                virtual_channel as int,
                if old_bufs[virtual_channel as int]@.len() > 0 {
                    old_bufs[virtual_channel as int]@.drop_first()
                } else {
                    old_bufs[virtual_channel as int]@
                },
            ));
        }
        match popped {
            Some(phit) => {
                let available_size = self.max_available();
                let available_size = if available_size >= 1 { available_size - 1 } else { 0 };
                let message = AcknowledgeMessage::ack_fix_available_size(available_size);
                Ok((phit, Some(message)))
            },
            _ => {
                proof {
                    assert(buffers_view(self.buffers@) =~= buffers_view(old_bufs));
                }
                Err(())
            },
        }
    }

    fn iter_phits(&self) -> (v: Vec<Rc<Phit>>)
        ensures
            v@ == all_phits(self.spec_buffers()),
    {
        buffers_phits(&self.buffers)
    }

    fn available_dedicated_space(&self, virtual_channel: usize) -> (r: Option<usize>)
        ensures
            r == Some((self.spec_buffer_size() - self.spec_buffers()[virtual_channel as int].len()) as usize),
    {
        Some(self.buffer_size - self.buffers[virtual_channel].len())
    }

    fn occupied_dedicated_space(&self, virtual_channel: usize) -> (r: Option<usize>)
        ensures
            r == Some(self.spec_buffers()[virtual_channel as int].len() as usize),
    {
        Some(self.buffers[virtual_channel].len())
    }
}

impl AgnosticParallelBuffers {
    ///The largest free space among the buffers.
    fn max_available(&self) -> (m: usize)
        requires
            self.buffers@.len() > 0,
            forall|k: int| 0 <= k < self.buffers@.len() ==> (#[trigger] self.buffers@[k])@.len() <= self.buffer_size,
        ensures
            m == max_free_space(self.spec_buffers(), self.buffer_size),
    {
        let mut m: usize = 0;
        let mut i: usize = 0;
        while i < self.buffers.len()
            invariant
                i <= self.buffers@.len(),
                forall|k: int| 0 <= k < self.buffers@.len() ==> (#[trigger] self.buffers@[k])@.len() <= self.buffer_size,
                m == max_free_space(buffers_view(self.buffers@).take(i as int), self.buffer_size),
            decreases self.buffers@.len() - i,
        {
            let ghost bv = buffers_view(self.buffers@);
            proof {
                assert(bv.take(i + 1).drop_last() == bv.take(i as int));
                assert(bv.take(i + 1).last() == self.buffers@[i as int]@);
            }
            let here = self.buffer_size - self.buffers[i].len();
            if i == 0 || here > m {
                m = here;
            }
            i = i + 1;
        }
        proof {
            assert(buffers_view(self.buffers@).take(self.buffers@.len() as int) == buffers_view(self.buffers@));
        }
        m
    }
}

///How packets left a router and reach the next.
///Declares a `StatusAtEmissor` to keep a register on the emissor of the status of the receptor, such as credit counters.
///Declares a `SpaceAtReceptor` necessary to store the incoming packets.
pub trait TransmissionMechanism {
    type StatusAtEmissor: StatusAtEmissor;
    type SpaceAtReceptor: SpaceAtReceptor;

    fn new_status_at_emissor(&self) -> Self::StatusAtEmissor;

    fn new_space_at_receptor(&self) -> Self::SpaceAtReceptor;
}

///A simple virtual channel mechanism
///There is an independent buffer for each of the `virtual_channels` with space for `buffer_size` phits.
///It keeps track of the space of the neighbour using credit counters.
pub struct SimpleVirtualChannels {
    ///The number of virtual channels = number of buffers.
    pub virtual_channels: usize,
    ///The size of each buffer.
    pub buffer_size: usize,
    ///Credits required in the next router's virtual port to begin the transmission
    pub flit_size: usize,
}

impl SimpleVirtualChannels {
    pub fn new(virtual_channels: usize, buffer_size: usize, flit_size: usize) -> (m: SimpleVirtualChannels)
        ensures
            m.virtual_channels == virtual_channels,
            m.buffer_size == buffer_size,
            m.flit_size == flit_size,
    {
        SimpleVirtualChannels { virtual_channels, buffer_size, flit_size }
    }
}

impl TransmissionMechanism for SimpleVirtualChannels {
    type StatusAtEmissor = CreditCounterVector;
    type SpaceAtReceptor = ParallelBuffers;

    ///A full credit counter, `buffer_size` for each virtual channel.
    fn new_status_at_emissor(&self) -> (s: CreditCounterVector)
        ensures
            s.neighbour_credits@ == Seq::new(self.virtual_channels as nat, |i: int| self.buffer_size),
            s.last_transmission == 0,
            s.flit_size == self.flit_size,
    {
        let mut credits: Vec<usize> = Vec::new();
        let mut i: usize = 0;
        while i < self.virtual_channels
            invariant
                i <= self.virtual_channels,
                credits@ == Seq::new(i as nat, |k: int| self.buffer_size),
            decreases self.virtual_channels - i,
        {
            credits.push(self.buffer_size);
            i = i + 1;
            proof {
                assert(credits@ =~= Seq::new(i as nat, |k: int| self.buffer_size));
            }
        }
        CreditCounterVector { neighbour_credits: credits, last_transmission: 0, flit_size: self.flit_size }
    }

    ///One empty buffer per virtual channel.
    fn new_space_at_receptor(&self) -> (p: ParallelBuffers)
        ensures
            p.spec_buffers() == Seq::new(self.virtual_channels as nat, |i: int| Seq::<Rc<Phit>>::empty()),
            p.spec_choices() == Map::<usize, usize>::empty(),
    {
        ParallelBuffers::new(self.virtual_channels)
    }
}

///A mechanism for sending phits to a server. We assume the server can consume all that comes via the link. Thus we do not require any check.
pub struct TransmissionToServer();

impl TransmissionMechanism for TransmissionToServer {
    type StatusAtEmissor = EmptyStatus;
    type SpaceAtReceptor = NoSpace;

    fn new_status_at_emissor(&self) -> EmptyStatus {
        EmptyStatus()
    }

    fn new_space_at_receptor(&self) -> NoSpace {
        NoSpace()
    }
}

///A mechanism to receive phits from a server.
pub struct TransmissionFromServer {
    ///Number of buffers in the receptor.
    pub buffer_amount: usize,
    ///Size of each buffer of the receptor.
    pub buffer_size: usize,
    ///Required available space in the receptor before sendind a packet.
    pub size_to_send: usize,
}

impl TransmissionFromServer {
    pub fn new(buffer_amount: usize, buffer_size: usize, size_to_send: usize) -> (m: TransmissionFromServer)
        ensures
            m.buffer_amount == buffer_amount,
            m.buffer_size == buffer_size,
            m.size_to_send == size_to_send,
    {
        TransmissionFromServer { buffer_amount, buffer_size, size_to_send }
    }
}

impl TransmissionMechanism for TransmissionFromServer {
    type StatusAtEmissor = StatusAtServer;
    type SpaceAtReceptor = AgnosticParallelBuffers;

    ///The server starts knowing the whole size of the router's buffer.
    fn new_status_at_emissor(&self) -> (s: StatusAtServer)
        ensures
            s.available_size == self.buffer_size,
            s.size_to_send == self.size_to_send,
    {
        StatusAtServer { available_size: self.buffer_size, size_to_send: self.size_to_send }
    }

    fn new_space_at_receptor(&self) -> (p: AgnosticParallelBuffers)
        ensures
            p.spec_buffers() == Seq::new(self.buffer_amount as nat, |i: int| Seq::<Rc<Phit>>::empty()),
            p.spec_buffer_size() == self.buffer_size,
            p.spec_currently_selected() == 0,
    {
        AgnosticParallelBuffers::new(self.buffer_amount, self.buffer_size)
    }
}


///The entry chosen for a packet stays as it was through the insertions of other packets.
proof fn lemma_choice_kept(
    bufs: Seq<Seq<Seq<Rc<Phit>>>>,
    choices: Seq<Map<usize, usize>>,
    phits: Seq<Phit>,
    keys: Seq<usize>,
    vcs: Seq<usize>,
    key: usize,
    from: int,
    to: int,
)
    requires
        0 <= from <= to <= phits.len(),
        bufs.len() == phits.len() + 1,
        choices.len() == phits.len() + 1,
        keys.len() == phits.len(),
        vcs.len() == phits.len(),
        forall|i: int| 0 <= i < phits.len() ==> #[trigger] parallel_insert_outcome(bufs[i], choices[i], bufs[i + 1], choices[i + 1], phits[i], keys[i], vcs[i]),
        forall|i: int| from <= i < to ==> #[trigger] keys[i] != key,
    ensures
        choices[to].contains_key(key) == choices[from].contains_key(key),
        choices[from].contains_key(key) ==> choices[to][key] == choices[from][key],
    decreases to - from,
{
    if from < to {
        lemma_choice_kept(bufs, choices, phits, keys, vcs, key, from, to - 1);
        let i = to - 1;
        assert(parallel_insert_outcome(bufs[i], choices[i], bufs[i + 1], choices[i + 1], phits[i], keys[i], vcs[i]));
        assert(keys[i] != key);
    }
}

///All the phits of a packet go to the same buffer: when they come without a virtual channel, in order, under one key that no
///other insertion in between uses, each goes to the buffer drawn for the first one, and the choice is forgotten after the last.
pub proof fn lemma_packet_in_one_buffer(
    bufs: Seq<Seq<Seq<Rc<Phit>>>>,
    choices: Seq<Map<usize, usize>>,
    phits: Seq<Phit>,
    keys: Seq<usize>,
    vcs: Seq<usize>,
    key: usize,
    steps: Seq<int>,
)
    requires
        bufs.len() == phits.len() + 1,
        choices.len() == phits.len() + 1,
        keys.len() == phits.len(),
        vcs.len() == phits.len(),
        forall|i: int| 0 <= i < phits.len() ==> #[trigger] parallel_insert_outcome(bufs[i], choices[i], bufs[i + 1], choices[i + 1], phits[i], keys[i], vcs[i]),
        steps.len() > 0,
        forall|j: int| 0 <= j < steps.len() ==> 0 <= #[trigger] steps[j] < phits.len(),
        forall|j: int| 0 < j < steps.len() ==> steps[j - 1] < #[trigger] steps[j],
        forall|j: int| 0 <= j < steps.len() ==> {
            &&& keys[#[trigger] steps[j]] == key
            &&& phits[steps[j]].virtual_channel is None
            &&& phits[steps[j]].index == j
            &&& phits[steps[j]].packet.size == steps.len()
        },
        forall|i: int| steps[0] <= i <= steps.last() && #[trigger] keys[i] == key ==> exists|j: int| 0 <= j < steps.len() && steps[j] == i,
    ensures
        forall|j: int| 0 <= j < steps.len() ==> vcs[#[trigger] steps[j]] == vcs[steps[0]],
        !choices[steps.last() + 1].contains_key(key),
{
    let n = steps.len();
    let v0 = vcs[steps[0]];
    assert forall|j: int| 0 <= j < n implies vcs[#[trigger] steps[j]] == v0
        && (j < n - 1 ==> choices[steps[j] + 1].contains_key(key) && choices[steps[j] + 1][key] == v0) by {
        lemma_packet_prefix(bufs, choices, phits, keys, vcs, key, steps, j);
    }
    let last = steps[n - 1];
    assert(parallel_insert_outcome(bufs[last], choices[last], bufs[last + 1], choices[last + 1], phits[last], keys[last], vcs[last]));
}

proof fn lemma_packet_prefix(
    bufs: Seq<Seq<Seq<Rc<Phit>>>>,
    choices: Seq<Map<usize, usize>>,
    phits: Seq<Phit>,
    keys: Seq<usize>,
    vcs: Seq<usize>,
    key: usize,
    steps: Seq<int>,
    j: int,
)
    requires
        bufs.len() == phits.len() + 1,
        choices.len() == phits.len() + 1,
        keys.len() == phits.len(),
        vcs.len() == phits.len(),
        forall|i: int| 0 <= i < phits.len() ==> #[trigger] parallel_insert_outcome(bufs[i], choices[i], bufs[i + 1], choices[i + 1], phits[i], keys[i], vcs[i]),
        steps.len() > 0,
        forall|m: int| 0 <= m < steps.len() ==> 0 <= #[trigger] steps[m] < phits.len(),
        forall|m: int| 0 < m < steps.len() ==> steps[m - 1] < #[trigger] steps[m],
        forall|m: int| 0 <= m < steps.len() ==> {
            &&& keys[#[trigger] steps[m]] == key
            &&& phits[steps[m]].virtual_channel is None
            &&& phits[steps[m]].index == m
            &&& phits[steps[m]].packet.size == steps.len()
        },
        forall|i: int| steps[0] <= i <= steps.last() && #[trigger] keys[i] == key ==> exists|m: int| 0 <= m < steps.len() && steps[m] == i,
        0 <= j < steps.len(),
    ensures
        vcs[steps[j]] == vcs[steps[0]],
        j < steps.len() - 1 ==> choices[steps[j] + 1].contains_key(key) && choices[steps[j] + 1][key] == vcs[steps[0]],
    decreases j,
{
    let n = steps.len();
    let s = steps[j];
    assert(parallel_insert_outcome(bufs[s], choices[s], bufs[s + 1], choices[s + 1], phits[s], keys[s], vcs[s]));
    if j > 0 {
        lemma_packet_prefix(bufs, choices, phits, keys, vcs, key, steps, j - 1);
        let prev = steps[j - 1];
        lemma_gap_other_keys(keys, key, steps, j);
        lemma_choice_kept(bufs, choices, phits, keys, vcs, key, prev + 1, s);
    }
}

///The steps of a packet are in increasing order.
proof fn lemma_steps_increasing(steps: Seq<int>, a: int, b: int)
    requires
        0 <= a <= b < steps.len(),
        forall|m: int| 0 < m < steps.len() ==> steps[m - 1] < #[trigger] steps[m],
    ensures
        steps[a] <= steps[b],
        a < b ==> steps[a] < steps[b],
    decreases b - a,
{
    if a < b {
        lemma_steps_increasing(steps, a, b - 1);
        assert(steps[b - 1] < steps[b]);
    }
}


///Between two consecutive steps of a packet no insertion uses its key.
proof fn lemma_gap_other_keys(keys: Seq<usize>, key: usize, steps: Seq<int>, j: int)
    requires
        0 < j < steps.len(),
        forall|m: int| 0 < m < steps.len() ==> steps[m - 1] < #[trigger] steps[m],
        forall|i: int| steps[0] <= i <= steps.last() && #[trigger] keys[i] == key ==> exists|m: int| 0 <= m < steps.len() && steps[m] == i,
    ensures
        forall|i: int| steps[j - 1] + 1 <= i < steps[j] ==> #[trigger] keys[i] != key,
{
    let n = steps.len();
    assert forall|i: int| steps[j - 1] + 1 <= i < steps[j] implies #[trigger] keys[i] != key by {
        if keys[i] == key {
            lemma_steps_increasing(steps, j, n - 1);
            lemma_steps_increasing(steps, 0, j - 1);
            let m = choose|m: int| 0 <= m < steps.len() && steps[m] == i;
            if m <= j - 1 {
                lemma_steps_increasing(steps, m, j - 1);
            } else {
                lemma_steps_increasing(steps, j, m);
            }
        }
    }
}

} // verus!
