//! The decisions of the basic router, very similar to FSIN's router: whether a
//! phit can advance, how requests are ordered by label and origin before the
//! arbitration, and how the physical output port picks among its virtual channels.

use vstd::prelude::*;
use std::rc::Rc;
use rand::rngs::StdRng;
use crate::{Phit, Packet, rc_clone};
use crate::event::{Event, EventGeneration, CyclePosition};
use crate::topology::{Location, TopologyTable};
use crate::rng::{gen_range, shuffle};
use crate::routing::{take_first, CandidateEgress};
use crate::policies::VirtualChannelPolicy;
use super::{StatusAtEmissor, SpaceAtReceptor, CreditCounterVector, ParallelBuffers, AcknowledgeMessage, AugmentedBuffer, with_virtual_channel, parallel_insert_outcome};

verus! {

///Strategy for the arbitration of the output port.
pub enum OutputArbiter {
    Random,
    Token { port_token: Vec<usize> },
}

///A phit in the virtual channel `virtual_channel` of the port `entry_port` is requesting to go to the virtual channel `requested_vc` of the port `requested_port`.
///The label is the one returned by the routing algorithm or 0 if it comes from a selection in a previous cycle.
pub struct PortRequest {
    pub packet: Rc<Packet>,
    pub entry_port: usize,
    pub entry_vc: usize,
    pub requested_port: usize,
    pub requested_vc: usize,
    pub label: i32,
}

///How the router sizes its buffers and packets.
#[derive(Clone, Copy)]
pub struct BufferSizes {
    ///If 0 then there are no output buffer, if greater than 0 then the size of each of them.
    pub output_buffer_size: usize,
    ///Credits required in the next router's virtual port to begin the transmission
    pub flit_size: usize,
    ///The maximum packet size that is allowed. Only for bubble consideration, that reserves space for a given packet plus maximum packet size.
    pub maximum_packet_size: usize,
}

///Whether a phit can advance to an exit virtual channel: through the transmission status when there are no output buffers
///(with room for its packet and a maximum one more when the bubble is in use), else into an output buffer with room for a
///phit, a flit for a leading phit, or the bubble's room.
pub open spec fn advance_allowed<S: StatusAtEmissor>(
    status: &S,
    sizes: BufferSizes,
    output_buffer_len: usize,
    phit: Phit,
    exit_vc: usize,
    bubble_in_use: bool,
) -> bool {
    if sizes.output_buffer_size == 0 {
        if bubble_in_use {
            status.transmittable(phit, exit_vc)
                && status.available_space(exit_vc)->0 >= phit.packet.size + sizes.maximum_packet_size
        } else {
            status.transmittable(phit, exit_vc)
        }
    } else {
        let needed = if phit.index == 0 {
            if bubble_in_use { phit.packet.size + sizes.maximum_packet_size } else { sizes.flit_size as int }
        } else {
            1
        };
        sizes.output_buffer_size - output_buffer_len >= needed
    }
}

///Whether a phit in an input buffer can advance.
///bubble_in_use should be true only for leading phits that require the additional space.
pub fn can_phit_advance<S: StatusAtEmissor>(
    status: &S,
    sizes: BufferSizes,
    output_buffer_len: usize,
    phit: &Rc<Phit>,
    exit_vc: usize,
    bubble_in_use: bool,
) -> (b: bool)
    requires
        status.status_inv(),
        status.valid_vc(exit_vc),
        sizes.output_buffer_size == 0 && bubble_in_use ==> status.available_space(exit_vc) is Some,
        sizes.output_buffer_size > 0 ==> output_buffer_len <= sizes.output_buffer_size,
        phit.packet.size + sizes.maximum_packet_size <= usize::MAX,
    ensures
        b == advance_allowed(status, sizes, output_buffer_len, **phit, exit_vc, bubble_in_use),
{
    if sizes.output_buffer_size == 0 {
        if bubble_in_use {
            match status.known_available_space_for_virtual_channel(exit_vc) {
                Some(space) => status.can_transmit(phit, exit_vc) && space >= phit.packet.size + sizes.maximum_packet_size,
                None => false,
            }
        } else {
            status.can_transmit(phit, exit_vc)
        }
    } else {
        let available_internal_space = sizes.output_buffer_size - output_buffer_len;
        let mut necessary_credits: usize = 1;
        if phit.is_begin() {
            necessary_credits = if bubble_in_use {
                phit.packet.size + sizes.maximum_packet_size
            } else {
                sizes.flit_size
            };
        }
        available_internal_space >= necessary_credits
    }
}

///The labels of some requests.
pub open spec fn request_labels(requests: Seq<PortRequest>) -> Seq<i32> {
    requests.map_values(|r: PortRequest| r.label)
}

///The lowest label, 0 for none.
pub open spec fn lowest_label(labels: Seq<i32>) -> i32
    decreases labels.len(),
{
    if labels.len() == 0 {
        0
    } else if labels.len() == 1 {
        labels[0]
    } else {
        let m = lowest_label(labels.drop_last());
        if labels.last() < m { labels.last() } else { m }
    }
}

///The highest label, 0 for none.
pub open spec fn highest_label(labels: Seq<i32>) -> i32
    decreases labels.len(),
{
    if labels.len() == 0 {
        0
    } else if labels.len() == 1 {
        labels[0]
    } else {
        let m = highest_label(labels.drop_last());
        if labels.last() > m { labels.last() } else { m }
    }
}

proof fn lemma_label_bounds(labels: Seq<i32>)
    ensures
        forall|i: int| 0 <= i < labels.len() ==> lowest_label(labels) <= #[trigger] labels[i] <= highest_label(labels),
        lowest_label(labels) <= highest_label(labels),
    decreases labels.len(),
{
    if labels.len() > 1 {
        lemma_label_bounds(labels.drop_last());
        assert forall|i: int| 0 <= i < labels.len() implies lowest_label(labels) <= #[trigger] labels[i] <= highest_label(labels) by {
            if i < labels.len() - 1 {
                assert(labels[i] == labels.drop_last()[i]);
            }
        }
    }
}

///The requests whose label is `label`, in their order.
pub open spec fn requests_with_label(requests: Seq<PortRequest>, label: int) -> Seq<PortRequest> {
    requests.filter(|r: PortRequest| r.label == label)
}

///The lowest and the highest label of some requests.
pub fn label_range(requests: &Vec<PortRequest>) -> (r: (i32, i32))
    ensures
        r.0 == lowest_label(request_labels(requests@)),
        r.1 == highest_label(request_labels(requests@)),
{
    let ghost labels = request_labels(requests@);
    if requests.len() == 0 {
        return (0, 0);
    }
    let mut low = requests[0].label;
    let mut high = requests[0].label;
    let mut i: usize = 1;
    while i < requests.len()
        invariant
            1 <= i <= requests@.len(),
            labels == request_labels(requests@),
            low == lowest_label(labels.take(i as int)),
            high == highest_label(labels.take(i as int)),
        decreases requests@.len() - i,
    {
        let l = requests[i].label;
        proof {
            assert(labels.take(i + 1).drop_last() == labels.take(i as int));
            assert(labels.take(i + 1).last() == l);
        }
        if l < low {
            low = l;
        }
        if l > high {
            high = l;
        }
        i = i + 1;
    }
    proof {
        assert(labels.take(i as int) == labels);
    }
    (low, high)
}

///Splits the requests in subsequences by label, from the lowest label to the highest, so that any request in a subsequence has more priority than any in a later one; each keeps the order of the requests.
pub fn split_by_label(requests: Vec<PortRequest>) -> (sequence: Vec<Vec<PortRequest>>)
    requires
        highest_label(request_labels(requests@)) - lowest_label(request_labels(requests@)) < usize::MAX,
    ensures
        ({
            let low = lowest_label(request_labels(requests@));
            let high = highest_label(request_labels(requests@));
            &&& sequence@.len() == high - low + 1
            &&& forall|k: int| 0 <= k < sequence@.len() ==> (#[trigger] sequence@[k])@ == requests_with_label(requests@, low + k)
        }),
{
    let (low, high) = label_range(&requests);
    let ghost labels = request_labels(requests@);
    proof {
        lemma_label_bounds(labels);
    }
    let width: usize = (high as i64 - low as i64) as usize + 1;
    let mut sequence: Vec<Vec<PortRequest>> = Vec::new();
    let mut k: usize = 0;
    while k < width
        invariant
            k <= width,
            sequence@.len() == k,
            forall|j: int| 0 <= j < k ==> (#[trigger] sequence@[j])@.len() == 0,
        decreases width - k,
    {
        sequence.push(Vec::new());
        k = k + 1;
    }
    let ghost orig = requests@;
    let mut rest = requests;
    let ghost mut i: int = 0;
    while rest.len() > 0
        invariant
            0 <= i <= orig.len(),
            rest@ == orig.skip(i),
            labels == request_labels(orig),
            low == lowest_label(labels),
            high == highest_label(labels),
            forall|j: int| 0 <= j < orig.len() ==> low <= #[trigger] labels[j] <= high,
            width == high - low + 1,
            sequence@.len() == width,
            forall|j: int| 0 <= j < width ==> (#[trigger] sequence@[j])@ == requests_with_label(orig.take(i), low + j),
        decreases rest@.len(),
    {
        let req = crate::routing::take_first(&mut rest);
        proof {
            assert(req == orig[i]);
            assert(labels[i] == req.label);
            assert(orig.take(i + 1) == orig.take(i).push(req));
            assert(orig.skip(i + 1) == orig.skip(i).drop_first());
        }
        let index: usize = (req.label as i64 - low as i64) as usize;
        let ghost label = req.label;
        let ghost before = sequence@;
        sequence[index].push(req);
        proof {
            assert forall|j: int| 0 <= j < width implies (#[trigger] sequence@[j])@ == requests_with_label(orig.take(i + 1), low + j) by {
                orig.take(i).lemma_filter_push(orig[i], |r: PortRequest| r.label == low + j);
                if j != index {
                    assert(sequence@[j] == before[j]);
                }
            }
            i = i + 1;
        }
    }
    proof {
        assert(orig.take(orig.len() as int) == orig);
    }
    sequence
}

///The circular distance from the token to a virtual channel: how many channels after the token it comes.
pub open spec fn token_distance(vc: int, token: int, nvc: int) -> int {
    if vc - token < 0 { vc - token + nvc } else { vc - token }
}

///The first candidate, in order, among those nearest after the token.
pub open spec fn token_choice(cand: Seq<usize>, token: int, nvc: int) -> usize
    decreases cand.len(),
{
    if cand.len() == 0 {
        0
    } else {
        let best = token_choice(cand.drop_last(), token, nvc);
        if cand.len() == 1 || token_distance(cand.last() as int, token, nvc) < token_distance(best as int, token, nvc) {
            if cand.len() == 1 { cand[0] } else { cand.last() }
        } else {
            best
        }
    }
}

///Arbitration by tokens as in FSIN: the virtual channel that comes first after the port token, circularly, among the candidates.
pub fn token_select(cand: &Vec<usize>, token: usize, nvc: usize) -> (best: usize)
    requires
        cand@.len() > 0,
        0 < nvc <= i64::MAX,
        token < nvc,
        forall|i: int| 0 <= i < cand@.len() ==> #[trigger] cand@[i] < nvc,
    ensures
        best == token_choice(cand@, token as int, nvc as int),
        cand@.contains(best),
        forall|i: int| 0 <= i < cand@.len() ==>
            token_distance(best as int, token as int, nvc as int) <= token_distance(#[trigger] cand@[i] as int, token as int, nvc as int),
{
    let n = nvc as i64;
    let t = token as i64;
    let mut best: usize = 0;
    let mut bestd: i64 = n;
    let mut i: usize = 0;
    while i < cand.len()
        invariant
            i <= cand@.len(),
            n == nvc,
            t == token,
            0 < nvc <= i64::MAX,
            token < nvc,
            forall|k: int| 0 <= k < cand@.len() ==> #[trigger] cand@[k] < nvc,
            i == 0 ==> bestd == n,
            i > 0 ==> best == token_choice(cand@.take(i as int), token as int, nvc as int),
            i > 0 ==> bestd == token_distance(best as int, token as int, nvc as int),
            i > 0 ==> cand@.take(i as int).contains(best),
            forall|k: int| 0 <= k < i ==> bestd <= token_distance(#[trigger] cand@[k] as int, token as int, nvc as int),
        decreases cand@.len() - i,
    {
        let vc = cand[i];
        let mut d: i64 = vc as i64 - t;
        if d < 0 {
            d = d + n;
        }
        proof {
            assert(cand@.take(i + 1).drop_last() == cand@.take(i as int));
            assert(cand@.take(i + 1).last() == vc);
            assert(d == token_distance(vc as int, token as int, nvc as int));
            assert(d < n);
        }
        let better = d < bestd;
        if better {
            best = vc;
            bestd = d;
        }
        proof {
            if i > 0 && !better {
                assert(cand@.take(i + 1).contains(best)) by {
                    let w = choose|w: int| 0 <= w < i && cand@.take(i as int)[w] == best;
                    assert(cand@.take(i as int)[w] == cand@[w]);
                    assert(cand@.take(i + 1)[w] == cand@[w]);
                }
            }
            if better || i == 0 {
                assert(cand@.take(i + 1)[i as int] == vc);
            }
        }
        i = i + 1;
    }
    proof {
        assert(cand@.take(cand@.len() as int) == cand@);
    }
    best
}

///The virtual channels that may use an output port this cycle, as gathered so far: packets already in transit go before new ones.
pub open spec fn gathered(cand: Seq<usize>, in_transit: bool, vc: usize, is_begin: bool) -> (Seq<usize>, bool) {
    if in_transit {
        if !is_begin { (cand.push(vc), true) } else { (cand, true) }
    } else {
        if is_begin { (cand.push(vc), false) } else { (seq![vc], true) }
    }
}

///Adds a virtual channel whose phit can advance to the candidates of an output port: once a phit in the middle of a packet is found only such phits are candidates.
pub fn gather_candidate(cand: &mut Vec<usize>, in_transit: &mut bool, vc: usize, is_begin: bool)
    ensures
        (final(cand)@, *final(in_transit)) == gathered(old(cand)@, *old(in_transit), vc, is_begin),
{
    if *in_transit {
        if !is_begin {
            cand.push(vc);
        }
    } else {
        if is_begin {
            cand.push(vc);
        } else {
            let mut single: Vec<usize> = Vec::new();
            single.push(vc);
            *cand = single;
            *in_transit = true;
        }
    }
}

///The token of a port after a packet ends: the next virtual channel, circularly.
pub fn advance_token(token: usize, nvc: usize) -> (next: usize)
    requires
        token < nvc,
    ensures
        next == (token + 1) % (nvc as int),
{
    (token + 1) % nvc
}


///The basic router, with a credit counter per virtual channel towards each neighbour and a parallel
///buffer per virtual channel at each input port.
pub struct Basic {
    ///Its index in the topology
    pub router_index: usize,
    ///The mechanisms to select virtual channels, applied in order to the candidates of the routing.
    pub virtual_channel_policies: Vec<VirtualChannelPolicy>,
    ///If the bubble mechanism is active
    pub bubble: bool,
    ///The flit size, the maximum packet size and the size of the output buffers, which this router does not have.
    pub sizes: BufferSizes,
    ///Size of each input buffer.
    pub buffer_size: usize,
    ///Give priority to in-transit packets over packets in injection queues.
    pub intransit_priority: bool,
    ///To allow to request a port even if some other packet is being transmitted throught it to a different virtual channel (as FSIN does).
    pub allow_request_busy_port: bool,
    ///Use the labels provided by the routing to sort the petitions in the output arbiter.
    pub output_priorize_lowest_label: bool,
    ///transmission_port_status[port] = status
    pub transmission_port_status: Vec<CreditCounterVector>,
    ///reception_port_space[port] = space
    pub reception_port_space: Vec<ParallelBuffers>,
    ///If not None then the input port+virtual_channel which is sending by this port+virtual_channel.
    pub selected_input: Vec<Vec<Option<(Rc<Packet>, usize, usize)>>>,
    ///If not None then all the phits should go through this port+virtual_channel, since they are part of the same packet.
    pub selected_output: Vec<Vec<Option<(Rc<Packet>, usize, usize)>>>,
    ///Number of cycles that the current phit, if any, in the head of a given (port,virtual channel) input buffer the phit has been waiting.
    pub time_at_input_head: Vec<Vec<usize>>,
    ///The output buffers, by output port and virtual channel, when `sizes.output_buffer_size` is not 0; each phit is
    ///stored with the input port and virtual channel it came from.
    pub output_buffers: Vec<Vec<AugmentedBuffer<(usize, usize)>>>,
    ///And arbiter of the physical output port.
    pub output_arbiter: OutputArbiter,
    ///The cycle number of the last time Basic::process was called.
    pub last_process_at_cycle: Option<usize>,
}

impl Basic {
    ///The number of ports.
    pub open spec fn num_ports(&self) -> int {
        self.transmission_port_status@.len() as int
    }

    ///The number of virtual channels of every port.
    pub open spec fn nvc(&self) -> int {
        self.transmission_port_status@[0].neighbour_credits@.len() as int
    }

    ///The phits stored at an input port and virtual channel.
    pub open spec fn input(&self, port: int, vc: int) -> Seq<Rc<Phit>> {
        self.reception_port_space@[port].spec_buffers()[vc]
    }

    ///The credits known towards the neighbour of a port in a virtual channel.
    pub open spec fn credits(&self, port: int, vc: int) -> usize {
        self.transmission_port_status@[port].neighbour_credits@[vc]
    }

    ///Every table has a row per port and a column per virtual channel, the selections point to existing ones,
    ///every stored phit has a packet no larger than the maximum, and there are no output buffers.
    pub open spec fn wf(&self) -> bool {
        let ports = self.num_ports();
        let nvc = self.nvc();
        &&& ports > 0 && nvc > 0 && nvc <= i64::MAX && nvc <= usize::MAX && ports <= usize::MAX
        &&& self.sizes.flit_size > 0
        &&& self.sizes.maximum_packet_size <= usize::MAX / 2
        &&& self.reception_port_space@.len() == ports
        &&& self.selected_input@.len() == ports
        &&& self.selected_output@.len() == ports
        &&& self.time_at_input_head@.len() == ports
        &&& forall|p: int| 0 <= p < ports ==> {
            &&& (#[trigger] self.transmission_port_status@[p]).neighbour_credits@.len() == nvc
            &&& self.transmission_port_status@[p].flit_size == self.sizes.flit_size
            &&& self.reception_port_space@[p].space_inv()
            &&& self.reception_port_space@[p].spec_buffers().len() == nvc
            &&& self.selected_input@[p]@.len() == nvc
            &&& self.selected_output@[p]@.len() == nvc
            &&& self.time_at_input_head@[p]@.len() == nvc
        }
        &&& forall|p: int, v: int| 0 <= p < ports && 0 <= v < nvc ==>
            ((#[trigger] self.selected_input@[p]@[v]) matches Some(t) ==> t.1 < ports && t.2 < nvc)
        &&& forall|p: int, v: int| 0 <= p < ports && 0 <= v < nvc ==>
            ((#[trigger] self.selected_output@[p]@[v]) matches Some(t) ==> t.1 < ports && t.2 < nvc)
        &&& forall|p: int, v: int, i: int| 0 <= p < ports && 0 <= v < nvc && 0 <= i < self.reception_port_space@[p].spec_buffers()[v].len() ==>
            0 < (#[trigger] self.reception_port_space@[p].spec_buffers()[v][i]).packet.size <= self.sizes.maximum_packet_size
        &&& (self.output_arbiter matches OutputArbiter::Token { port_token } ==> port_token@.len() == ports
            && forall|p: int| 0 <= p < ports ==> #[trigger] port_token@[p] < nvc)
        &&& self.sizes.output_buffer_size > 0 ==> self.output_buffers_wf()
    }

    ///The output buffers have a row per port and a column per virtual channel, none holds more than its size, and each
    ///phit has a packet no larger than the maximum and comes from an existing port.
    pub open spec fn output_buffers_wf(&self) -> bool {
        let ports = self.num_ports();
        let nvc = self.nvc();
        &&& self.output_buffers@.len() == ports
        &&& forall|p: int| 0 <= p < ports ==> (#[trigger] self.output_buffers@[p])@.len() == nvc
        &&& forall|p: int, v: int| 0 <= p < ports && 0 <= v < nvc ==>
            (#[trigger] self.output_buffers@[p]@[v])@.len() <= self.sizes.output_buffer_size
        &&& forall|p: int, v: int, i: int| 0 <= p < ports && 0 <= v < nvc && 0 <= i < self.output_buffers@[p]@[v]@.len() ==> {
            &&& 0 < (#[trigger] self.output_buffers@[p]@[v]@[i]).0.packet.size <= self.sizes.maximum_packet_size
            &&& self.output_buffers@[p]@[v]@[i].1.0 < ports
        }
    }

    ///The phits in the output buffer of a port and virtual channel.
    pub open spec fn outbuf(&self, port: int, vc: int) -> Seq<(Rc<Phit>, (usize, usize))> {
        self.output_buffers@[port]@[vc]@
    }

    ///How many phits the output buffer of a port and virtual channel holds, 0 when there are none.
    pub open spec fn buffer_len(&self, port: int, vc: int) -> usize {
        if self.sizes.output_buffer_size > 0 { self.outbuf(port, vc).len() as usize } else { 0 }
    }

    ///The tables of the surroundings fit the router: its ports in the topology, a delay for each link class,
    ///and whether going from one port to another changes direction.
    pub open spec fn fits(&self, topology: &TopologyTable, direction_change: &Vec<Vec<bool>>, link_delays: &Vec<usize>) -> bool {
        &&& self.links_fit(topology, link_delays)
        &&& direction_change@.len() == self.num_ports()
        &&& forall|p: int| 0 <= p < self.num_ports() ==> (#[trigger] direction_change@[p])@.len() == self.num_ports()
    }

    ///The router is in the topology with its ports, and each of its links has a delay.
    pub open spec fn links_fit(&self, topology: &TopologyTable, link_delays: &Vec<usize>) -> bool {
        &&& self.router_index < topology.spec_num_routers()
        &&& topology.spec_ports(self.router_index as int) == self.num_ports()
        &&& forall|p: int| 0 <= p < self.num_ports() ==> (#[trigger] topology.spec_neighbour(self.router_index as int, p)).1 < link_delays@.len()
    }

    ///The bubble is in use for a leading phit that changes direction from the entry to the exit port.
    pub open spec fn bubble_in_use(&self, direction_change: &Vec<Vec<bool>>, phit: Phit, entry_port: int, exit_port: int) -> bool {
        self.bubble && phit.index == 0 && direction_change@[entry_port]@[exit_port]
    }

    ///The input selected for an exit virtual channel has a phit at its front that can advance through it.
    pub open spec fn can_go(&self, direction_change: &Vec<Vec<bool>>, exit_port: int, vc: int) -> bool {
        match self.selected_input@[exit_port]@[vc] {
            Some((_, ip, ivc)) => self.input(ip as int, ivc as int).len() > 0 && advance_allowed(
                &self.transmission_port_status@[exit_port],
                self.sizes,
                0,
                *self.input(ip as int, ivc as int)[0],
                vc as usize,
                self.bubble_in_use(direction_change, *self.input(ip as int, ivc as int)[0], ip as int, exit_port),
            ),
            None => false,
        }
    }

    ///The input selected for an exit virtual channel has the leading phit of a packet at its front.
    pub open spec fn begins(&self, exit_port: int, vc: int) -> bool {
        match self.selected_input@[exit_port]@[vc] {
            Some((_, ip, ivc)) => self.input(ip as int, ivc as int).len() > 0 && self.input(ip as int, ivc as int)[0].index == 0,
            None => false,
        }
    }

    ///The candidates of an exit port among its first `k` virtual channels, and whether a packet in transit was found.
    pub open spec fn candidates_upto(&self, direction_change: &Vec<Vec<bool>>, exit_port: int, k: int) -> (Seq<usize>, bool)
        decreases k,
    {
        if k <= 0 {
            (Seq::empty(), false)
        } else {
            let prev = self.candidates_upto(direction_change, exit_port, k - 1);
            if self.can_go(direction_change, exit_port, k - 1) {
                gathered(prev.0, prev.1, (k - 1) as usize, self.begins(exit_port, k - 1))
            } else {
                prev
            }
        }
    }

    ///The virtual channels among the first `k` of an exit port whose selection may be undone: those with a packet that has not started.
    pub open spec fn undo_upto(&self, exit_port: int, k: int) -> Seq<usize>
        decreases k,
    {
        if k <= 0 {
            Seq::empty()
        } else if self.begins(exit_port, k - 1) {
            self.undo_upto(exit_port, k - 1).push((k - 1) as usize)
        } else {
            self.undo_upto(exit_port, k - 1)
        }
    }
}

///Every gathered candidate can go and is among the first `k` virtual channels.
pub proof fn lemma_candidates_can_go(router: &Basic, direction_change: &Vec<Vec<bool>>, exit_port: int, k: int)
    requires
        k <= usize::MAX,
    ensures
        forall|i: int| 0 <= i < router.candidates_upto(direction_change, exit_port, k).0.len() ==> {
            let v = #[trigger] router.candidates_upto(direction_change, exit_port, k).0[i];
            v < k && router.can_go(direction_change, exit_port, v as int)
        },
    decreases k,
{
    if k > 0 {
        lemma_candidates_can_go(router, direction_change, exit_port, k - 1);
        let prev = router.candidates_upto(direction_change, exit_port, k - 1);
        let cur = router.candidates_upto(direction_change, exit_port, k);
        assert forall|i: int| 0 <= i < cur.0.len() implies {
            let v = #[trigger] cur.0[i];
            v < k && router.can_go(direction_change, exit_port, v as int)
        } by {
            if i < prev.0.len() {
                let w = prev.0[i];
                assert(w < k - 1 && router.can_go(direction_change, exit_port, w as int));
            }
            if router.can_go(direction_change, exit_port, k - 1) {
                let b = router.begins(exit_port, k - 1);
                if prev.1 {
                    if !b {
                        assert(cur.0 == prev.0.push((k - 1) as usize));
                        if i < prev.0.len() {
                            assert(cur.0[i] == prev.0[i]);
                        }
                    } else {
                        assert(cur.0 == prev.0);
                    }
                } else {
                    if b {
                        assert(cur.0 == prev.0.push((k - 1) as usize));
                        if i < prev.0.len() {
                            assert(cur.0[i] == prev.0[i]);
                        }
                    } else {
                        assert(cur.0 == seq![(k - 1) as usize]);
                    }
                }
            } else {
                assert(cur.0 == prev.0);
            }
        }
    }
}

impl Basic {
    ///The virtual channels of an exit port that may send this cycle, with those carrying a packet already in transit
    ///before new ones, and those whose selection may be undone.
    pub fn port_candidates(&self, exit_port: usize, direction_change: &Vec<Vec<bool>>) -> (r: (Vec<usize>, Vec<usize>))
        requires
            self.wf(),
            exit_port < self.num_ports(),
            direction_change@.len() == self.num_ports(),
            forall|p: int| 0 <= p < self.num_ports() ==> (#[trigger] direction_change@[p])@.len() == self.num_ports(),
        ensures
            r.0@ == self.candidates_upto(direction_change, exit_port as int, self.nvc()).0,
            r.1@ == self.undo_upto(exit_port as int, self.nvc()),
    {
        let nvc = self.transmission_port_status[0].neighbour_credits.len();
        let mut cand: Vec<usize> = Vec::new();
        let mut in_transit = false;
        let mut undo: Vec<usize> = Vec::new();
        let mut exit_vc: usize = 0;
        while exit_vc < nvc
            invariant
                self.wf(),
                exit_port < self.num_ports(),
                direction_change@.len() == self.num_ports(),
                forall|p: int| 0 <= p < self.num_ports() ==> (#[trigger] direction_change@[p])@.len() == self.num_ports(),
                nvc == self.nvc(),
                exit_vc <= nvc,
                (cand@, in_transit) == self.candidates_upto(direction_change, exit_port as int, exit_vc as int),
                undo@ == self.undo_upto(exit_port as int, exit_vc as int),
            decreases nvc - exit_vc,
        {
            let ghost k = exit_vc as int;
            assert(self.transmission_port_status@[exit_port as int].neighbour_credits@.len() == nvc);
            match &self.selected_input[exit_port][exit_vc] {
                Some(t) => {
                    let entry_port = t.1;
                    let entry_vc = t.2;
                    assert(self.selected_input@[exit_port as int]@[exit_vc as int] matches Some(t) ==> t.1 < self.num_ports() && t.2 < nvc);
                    assert(self.transmission_port_status@[entry_port as int].neighbour_credits@.len() == nvc);
                    assert(self.reception_port_space@[entry_port as int].spec_buffers().len() == nvc);
                    let front = self.reception_port_space[entry_port].front_virtual_channel(entry_vc);
                    match front {
                        Some(phit) => {
                            let begin = phit.is_begin();
                            if begin {
                                undo.push(exit_vc);
                            }
                            let bubble_in_use = self.bubble && begin && direction_change[entry_port][exit_port];
                            assert(phit.packet.size <= self.sizes.maximum_packet_size) by {
                                assert(self.input(entry_port as int, entry_vc as int)[0] == phit);
                            }
                            if can_phit_advance(&self.transmission_port_status[exit_port], self.sizes, 0, &phit, exit_vc, bubble_in_use) {
                                gather_candidate(&mut cand, &mut in_transit, exit_vc, begin);
                            }
                        },
                        None => {},
                    }
                },
                None => {},
            }
            exit_vc = exit_vc + 1;
        }
        (cand, undo)
    }
}


///The acknowledgement sent back through an entry port for a phit cleared from one of its virtual channels.
pub open spec fn ack_event(topology: &TopologyTable, router: int, entry_port: int, entry_vc: usize, link_delays: &Vec<usize>) -> EventGeneration<Event> {
    let (location, class) = topology.spec_neighbour(router, entry_port);
    EventGeneration {
        delay: link_delays@[class as int],
        position: CyclePosition::Begin,
        event: Event::Acknowledge {
            location,
            message: AcknowledgeMessage { virtual_channel: Some(entry_vc), set_available_size: None },
        },
    }
}

///The arrival of a phit at the other end of an exit port, having left through the entry port.
pub open spec fn phit_event(topology: &TopologyTable, router: int, entry_port: int, exit_port: int, phit: Rc<Phit>, link_delays: &Vec<usize>) -> EventGeneration<Event> {
    let (location, class) = topology.spec_neighbour(router, exit_port);
    EventGeneration {
        delay: link_delays@[class as int],
        position: CyclePosition::Begin,
        event: Event::PhitToLocation {
            phit,
            previous: Location::RouterPort { router_index: router as usize, router_port: entry_port as usize },
            new: location,
        },
    }
}

///The selection of an exit virtual channel after the port sent (or not) this cycle: the one that sent is released
///with the last phit of its packet; any other whose packet has not started is undone so it can decide again.
pub open spec fn selection_after(old_sel: Option<(Rc<Packet>, usize, usize)>, chosen: bool, ends: bool, begins: bool) -> Option<(Rc<Packet>, usize, usize)> {
    if chosen {
        if ends { None } else { old_sel }
    } else if begins {
        None
    } else {
        old_sel
    }
}

impl Basic {
    ///The entry selected for an exit virtual channel.
    pub open spec fn selected(&self, exit_port: int, vc: int) -> (Rc<Packet>, usize, usize) {
        self.selected_input@[exit_port]@[vc]->Some_0
    }

    ///The front phit of the entry selected for an exit virtual channel.
    pub open spec fn selected_front(&self, exit_port: int, vc: int) -> Rc<Phit> {
        let (_, ip, ivc) = self.selected(exit_port, vc);
        self.input(ip as int, ivc as int)[0]
    }

    ///The state after the exit port sent the front phit of virtual channel `vc`, or nothing for `None`: the phit leaves its
    ///input buffer, one credit is spent and the cycle recorded, the selections follow `selection_after`, the waiting time of
    ///the input is reset and the token of the port, if any, moves past the channel when the packet ends.
    #[verifier::opaque]
    pub open spec fn after_port(&self, new: &Basic, exit_port: int, sent: Option<usize>, cycle: usize) -> bool {
        &&& new.router_index == self.router_index
        &&& new.bubble == self.bubble
        &&& new.sizes == self.sizes
        &&& new.buffer_size == self.buffer_size
        &&& new.intransit_priority == self.intransit_priority
        &&& new.allow_request_busy_port == self.allow_request_busy_port
        &&& new.output_priorize_lowest_label == self.output_priorize_lowest_label
        &&& new.output_buffers == self.output_buffers
        &&& new.last_process_at_cycle == self.last_process_at_cycle
        &&& new.selected_input@.len() == self.selected_input@.len()
        &&& forall|p: int| 0 <= p < self.num_ports() && p != exit_port ==> #[trigger] new.selected_input@[p] == self.selected_input@[p]
        &&& new.selected_input@[exit_port]@.len() == self.nvc()
        &&& forall|w: int| 0 <= w < self.nvc() ==> #[trigger] new.selected_input@[exit_port]@[w] == selection_after(
            self.selected_input@[exit_port]@[w],
            sent == Some(w as usize),
            sent == Some(w as usize) && self.selected_front(exit_port, w).index == self.selected_front(exit_port, w).packet.size - 1,
            self.begins(exit_port, w),
        )
        &&& match sent {
            None => {
                &&& new.reception_port_space@ == self.reception_port_space@
                &&& new.transmission_port_status@ == self.transmission_port_status@
                &&& new.selected_output@ == self.selected_output@
                &&& new.time_at_input_head@ == self.time_at_input_head@
                &&& new.output_arbiter == self.output_arbiter
            },
            Some(v) => {
                let (packet, ip, ivc) = self.selected(exit_port, v as int);
                let front = self.selected_front(exit_port, v as int);
                let ends = front.index == front.packet.size - 1;
                &&& new.reception_port_space@.len() == self.reception_port_space@.len()
                &&& forall|p: int| 0 <= p < self.num_ports() && p != ip ==> #[trigger] new.reception_port_space@[p] == self.reception_port_space@[p]
                &&& new.reception_port_space@[ip as int].spec_buffers() == self.reception_port_space@[ip as int].spec_buffers().update(
                    ivc as int, self.input(ip as int, ivc as int).drop_first())
                &&& new.reception_port_space@[ip as int].spec_choices() == self.reception_port_space@[ip as int].spec_choices()
                &&& new.reception_port_space@[ip as int].space_inv()
                &&& new.transmission_port_status@ == self.transmission_port_status@.update(exit_port, CreditCounterVector {
                    neighbour_credits: new.transmission_port_status@[exit_port].neighbour_credits,
                    last_transmission: cycle,
                    flit_size: self.sizes.flit_size,
                })
                &&& new.transmission_port_status@[exit_port].neighbour_credits@ == self.transmission_port_status@[exit_port].neighbour_credits@.update(
                    v as int, (self.credits(exit_port, v as int) - 1) as usize)
                &&& new.selected_output@.len() == self.selected_output@.len()
                &&& forall|p: int| 0 <= p < self.num_ports() && p != ip ==> #[trigger] new.selected_output@[p] == self.selected_output@[p]
                &&& new.selected_output@[ip as int]@ == self.selected_output@[ip as int]@.update(
                    ivc as int, if ends { None } else { Some((packet, exit_port as usize, v)) })
                &&& new.time_at_input_head@.len() == self.time_at_input_head@.len()
                &&& forall|p: int| 0 <= p < self.num_ports() && p != ip ==> #[trigger] new.time_at_input_head@[p] == self.time_at_input_head@[p]
                &&& new.time_at_input_head@[ip as int]@ == self.time_at_input_head@[ip as int]@.update(ivc as int, 0)
                &&& match self.output_arbiter {
                    OutputArbiter::Random => new.output_arbiter is Random,
                    OutputArbiter::Token { port_token } => new.output_arbiter matches OutputArbiter::Token { port_token: t }
                        && t@ == port_token@.update(exit_port, if ends { ((v + 1) % (self.nvc() as int)) as usize } else { v }),
                }
            },
        }
    }
}


///The virtual channels of an exit port whose selection is undone are exactly those with a packet that has not started.
pub proof fn lemma_undo_upto(router: &Basic, exit_port: int, k: int)
    requires
        0 <= k <= usize::MAX,
    ensures
        forall|w: usize|
            #![trigger router.undo_upto(exit_port, k).contains(w)]
            #![trigger router.begins(exit_port, w as int)]
            router.undo_upto(exit_port, k).contains(w) <==> w < k && router.begins(exit_port, w as int),
    decreases k,
{
    if k > 0 {
        lemma_undo_upto(router, exit_port, k - 1);
        let prev = router.undo_upto(exit_port, k - 1);
        let cur = router.undo_upto(exit_port, k);
        assert forall|w: usize| cur.contains(w) implies w < k && router.begins(exit_port, w as int) by {
            let j = choose|j: int| 0 <= j < cur.len() && #[trigger] cur[j] == w;
            if router.begins(exit_port, k - 1) {
                assert(cur == prev.push((k - 1) as usize));
                if j < prev.len() {
                    assert(prev[j] == w);
                    assert(prev.contains(w));
                    assert(w < k - 1 && router.begins(exit_port, w as int));
                } else {
                    assert(cur[j] == (k - 1) as usize);
                    assert(w as int == k - 1);
                }
            } else {
                assert(cur == prev);
                assert(prev.contains(w));
            }
        }
        assert forall|w: usize| w < k && router.begins(exit_port, w as int) implies cur.contains(w) by {
            if router.begins(exit_port, k - 1) {
                assert(cur == prev.push((k - 1) as usize));
                if w == k - 1 {
                    assert(cur[prev.len() as int] == w);
                } else {
                    assert(prev.contains(w));
                    let j = choose|j: int| 0 <= j < prev.len() && #[trigger] prev[j] == w;
                    assert(cur[j] == w);
                }
            } else {
                assert(cur == prev);
                assert(w != k - 1);
                assert(prev.contains(w));
            }
        }
    }
}

impl Basic {
    ///Picks the virtual channel that uses the exit port among the candidates: at random, or by the port token,
    ///which then points to the chosen channel.
    pub fn choose_virtual_channel(&mut self, exit_port: usize, cand: &Vec<usize>, rng: &mut StdRng) -> (v: usize)
        requires
            old(self).wf(),
            exit_port < old(self).num_ports(),
            cand@.len() > 0,
            forall|i: int| 0 <= i < cand@.len() ==> #[trigger] cand@[i] < old(self).nvc(),
        ensures
            cand@.contains(v),
            final(self).wf(),
            match old(self).output_arbiter {
                OutputArbiter::Random => *final(self) == *old(self),
                OutputArbiter::Token { port_token } => {
                    &&& v == token_choice(cand@, port_token@[exit_port as int] as int, old(self).nvc())
                    &&& final(self).output_arbiter matches OutputArbiter::Token { port_token: t } && t@ == port_token@.update(exit_port as int, v)
                    &&& *final(self) == (Basic { output_arbiter: final(self).output_arbiter, ..*old(self) })
                },
            },
    {
        let nvc = self.transmission_port_status[0].neighbour_credits.len();
        let mut arbiter = OutputArbiter::Random;
        std::mem::swap(&mut self.output_arbiter, &mut arbiter);
        match arbiter {
            OutputArbiter::Random => {
                let i = gen_range(rng, 0, cand.len());
                self.output_arbiter = OutputArbiter::Random;
                cand[i]
            },
            OutputArbiter::Token { port_token } => {
                let mut port_token = port_token;
                let best = token_select(cand, port_token[exit_port], nvc);
                port_token.set(exit_port, best);
                assert(forall|p: int| 0 <= p < port_token@.len() ==> #[trigger] port_token@[p] < nvc);
                self.output_arbiter = OutputArbiter::Token { port_token };
                best
            },
        }
    }
}


impl Basic {
    ///The state after the front phit of the input selected for virtual channel `v` of an exit port was sent through it:
    ///the phit leaves its input buffer, one credit is spent and the cycle recorded, the waiting time of the input is
    ///reset, and with the last phit of the packet the selections are released and the token, if any, moves on.
    pub open spec fn after_send(&self, new: &Basic, exit_port: int, v: usize, cycle: usize) -> bool {
        let (packet, ip, ivc) = self.selected(exit_port, v as int);
        let front = self.selected_front(exit_port, v as int);
        let ends = front.index == front.packet.size - 1;
        &&& new.router_index == self.router_index
        &&& new.bubble == self.bubble
        &&& new.sizes == self.sizes
        &&& new.buffer_size == self.buffer_size
        &&& new.intransit_priority == self.intransit_priority
        &&& new.allow_request_busy_port == self.allow_request_busy_port
        &&& new.output_priorize_lowest_label == self.output_priorize_lowest_label
        &&& new.output_buffers == self.output_buffers
        &&& new.last_process_at_cycle == self.last_process_at_cycle
        &&& new.selected_input@.len() == self.selected_input@.len()
        &&& forall|p: int| 0 <= p < self.num_ports() && p != exit_port ==> #[trigger] new.selected_input@[p] == self.selected_input@[p]
        &&& new.selected_input@[exit_port]@ == if ends {
            self.selected_input@[exit_port]@.update(v as int, None)
        } else {
            self.selected_input@[exit_port]@
        }
        &&& new.reception_port_space@.len() == self.reception_port_space@.len()
        &&& forall|p: int| 0 <= p < self.num_ports() && p != ip ==> #[trigger] new.reception_port_space@[p] == self.reception_port_space@[p]
        &&& new.reception_port_space@[ip as int].spec_buffers() == self.reception_port_space@[ip as int].spec_buffers().update(
            ivc as int, self.input(ip as int, ivc as int).drop_first())
        &&& new.reception_port_space@[ip as int].spec_choices() == self.reception_port_space@[ip as int].spec_choices()
        &&& new.reception_port_space@[ip as int].space_inv()
        &&& new.transmission_port_status@ == self.transmission_port_status@.update(exit_port, CreditCounterVector {
            neighbour_credits: new.transmission_port_status@[exit_port].neighbour_credits,
            last_transmission: cycle,
            flit_size: self.sizes.flit_size,
        })
        &&& new.transmission_port_status@[exit_port].neighbour_credits@ == self.transmission_port_status@[exit_port].neighbour_credits@.update(
            v as int, (self.credits(exit_port, v as int) - 1) as usize)
        &&& new.selected_output@.len() == self.selected_output@.len()
        &&& forall|p: int| 0 <= p < self.num_ports() && p != ip ==> #[trigger] new.selected_output@[p] == self.selected_output@[p]
        &&& new.selected_output@[ip as int]@ == self.selected_output@[ip as int]@.update(
            ivc as int, if ends { None } else { Some((packet, exit_port as usize, v)) })
        &&& new.time_at_input_head@.len() == self.time_at_input_head@.len()
        &&& forall|p: int| 0 <= p < self.num_ports() && p != ip ==> #[trigger] new.time_at_input_head@[p] == self.time_at_input_head@[p]
        &&& new.time_at_input_head@[ip as int]@ == self.time_at_input_head@[ip as int]@.update(ivc as int, 0)
        &&& match self.output_arbiter {
            OutputArbiter::Random => new.output_arbiter is Random,
            OutputArbiter::Token { port_token } => new.output_arbiter matches OutputArbiter::Token { port_token: t }
                && t@ == if ends { port_token@.update(exit_port, ((port_token@[exit_port] + 1) % (self.nvc() as int)) as usize) } else { port_token@ },
        }
    }

    ///Sends the front phit of the input selected for virtual channel `v` of an exit port through that port, and generates
    ///the acknowledgement towards the entry port and the arrival of the phit at the neighbour.
    pub fn send_front(
        &mut self,
        exit_port: usize,
        v: usize,
        cycle: usize,
        topology: &TopologyTable,
        link_delays: &Vec<usize>,
        events: &mut Vec<EventGeneration<Event>>,
    )
        requires
            old(self).wf(),
            old(self).links_fit(topology, link_delays),
            exit_port < old(self).num_ports(),
            v < old(self).nvc(),
            old(self).selected_input@[exit_port as int]@[v as int] is Some,
            old(self).input(old(self).selected(exit_port as int, v as int).1 as int, old(self).selected(exit_port as int, v as int).2 as int).len() > 0,
            old(self).credits(exit_port as int, v as int) > 0,
        ensures
            final(self).wf(),
            old(self).after_send(&*final(self), exit_port as int, v, cycle),
            final(events)@ == old(events)@ + seq![
                ack_event(topology, old(self).router_index as int, old(self).selected(exit_port as int, v as int).1 as int,
                    old(self).selected(exit_port as int, v as int).2, link_delays),
                phit_event(topology, old(self).router_index as int, old(self).selected(exit_port as int, v as int).1 as int, exit_port as int,
                    Rc::new(with_virtual_channel(*old(self).selected_front(exit_port as int, v as int), v)), link_delays),
            ],
    {
        let ghost pre = *self;
        let nvc = self.transmission_port_status[0].neighbour_credits.len();
        let t = self.selected_input[exit_port][v].as_ref().unwrap();
        let packet = rc_clone(&t.0);
        let ip = t.1;
        let ivc = t.2;
        assert(self.selected_input@[exit_port as int]@[v as int] matches Some(t) ==> t.1 < self.num_ports() && t.2 < nvc);
        assert(self.transmission_port_status@[ip as int].neighbour_credits@.len() == nvc);
        let extracted = self.reception_port_space[ip].extract(ivc);
        let phit = match extracted {
            Ok(x) => x.0,
            Err(_) => {
                proof {
                    assert(false);
                }
                return;
            },
        };
        assert(phit == pre.input(ip as int, ivc as int)[0]);
        assert(0 < phit.packet.size);
        let ends = phit.is_end();
        let moved = Rc::new(Phit { packet: rc_clone(&phit.packet), index: phit.index, virtual_channel: Some(v) });
        self.time_at_input_head[ip].set(ivc, 0);
        if ends {
            self.selected_input[exit_port].set(v, None);
            self.selected_output[ip].set(ivc, None);
        } else {
            self.selected_output[ip].set(ivc, Some((packet, exit_port, v)));
        }
        let (previous_location, previous_class) = topology.neighbour(self.router_index, ip);
        events.push(EventGeneration {
            delay: link_delays[previous_class],
            position: CyclePosition::Begin,
            event: Event::Acknowledge {
                location: previous_location,
                message: AcknowledgeMessage::ack_phit_clear_from_virtual_channel(ivc),
            },
        });
        let (new_location, class) = topology.neighbour(self.router_index, exit_port);
        events.push(EventGeneration {
            delay: link_delays[class],
            position: CyclePosition::Begin,
            event: Event::PhitToLocation {
                phit: moved,
                previous: Location::RouterPort { router_index: self.router_index, router_port: ip },
                new: new_location,
            },
        });
        self.transmission_port_status[exit_port].notify_outcoming_phit(v, cycle);
        if ends {
            let mut arbiter = OutputArbiter::Random;
            std::mem::swap(&mut self.output_arbiter, &mut arbiter);
            match arbiter {
                OutputArbiter::Random => {
                    self.output_arbiter = OutputArbiter::Random;
                },
                OutputArbiter::Token { port_token } => {
                    let mut port_token = port_token;
                    let next = advance_token(port_token[exit_port], nvc);
                    port_token.set(exit_port, next);
                    assert(forall|p: int| 0 <= p < port_token@.len() ==> #[trigger] port_token@[p] < nvc);
                    self.output_arbiter = OutputArbiter::Token { port_token };
                },
            }
        }
        proof {
            let ports = pre.num_ports();
            assert(self.transmission_port_status@[0].neighbour_credits@.len() == nvc);
            assert(self.nvc() == pre.nvc());
            assert forall|p: int| 0 <= p < ports implies {
                &&& (#[trigger] self.transmission_port_status@[p]).neighbour_credits@.len() == nvc
                &&& self.transmission_port_status@[p].flit_size == self.sizes.flit_size
                &&& self.reception_port_space@[p].space_inv()
                &&& self.reception_port_space@[p].spec_buffers().len() == nvc
                &&& self.selected_input@[p]@.len() == nvc
                &&& self.selected_output@[p]@.len() == nvc
                &&& self.time_at_input_head@[p]@.len() == nvc
            } by {
                assert(pre.transmission_port_status@[p].neighbour_credits@.len() == nvc);
            }
            assert forall|p: int, w: int| 0 <= p < ports && 0 <= w < nvc implies {
                &&& ((#[trigger] self.selected_input@[p]@[w]) matches Some(t) ==> t.1 < ports && t.2 < nvc)
                &&& (self.selected_output@[p]@[w] matches Some(t) ==> t.1 < ports && t.2 < nvc)
            } by {
                assert(pre.selected_input@[p]@[w] matches Some(t) ==> t.1 < ports && t.2 < nvc);
                assert(pre.selected_output@[p]@[w] matches Some(t) ==> t.1 < ports && t.2 < nvc);
            }
            assert forall|p: int, w: int, i: int| 0 <= p < ports && 0 <= w < nvc && 0 <= i < self.reception_port_space@[p].spec_buffers()[w].len() implies
                0 < (#[trigger] self.reception_port_space@[p].spec_buffers()[w][i]).packet.size <= self.sizes.maximum_packet_size by {
                if p == ip && w == ivc {
                    assert(self.reception_port_space@[p].spec_buffers()[w][i] == pre.reception_port_space@[p].spec_buffers()[w][i + 1]);
                } else {
                    assert(self.reception_port_space@[p].spec_buffers()[w][i] == pre.reception_port_space@[p].spec_buffers()[w][i]);
                }
            }
        }
    }
}


impl Basic {
    ///Undoes the selections of the listed virtual channels of an exit port, but the one that sent: packets that have
    ///not started to move can change their decision at the next cycle.
    pub fn undo_selections(&mut self, exit_port: usize, undo: &Vec<usize>, sent: Option<usize>)
        requires
            old(self).wf(),
            exit_port < old(self).num_ports(),
            forall|i: int| 0 <= i < undo@.len() ==> #[trigger] undo@[i] < old(self).nvc(),
        ensures
            final(self).wf(),
            *final(self) == (Basic { selected_input: final(self).selected_input, ..*old(self) }),
            final(self).selected_input@.len() == old(self).selected_input@.len(),
            forall|p: int| 0 <= p < old(self).num_ports() && p != exit_port ==> #[trigger] final(self).selected_input@[p] == old(self).selected_input@[p],
            final(self).selected_input@[exit_port as int]@.len() == old(self).nvc(),
            forall|w: int| 0 <= w < old(self).nvc() ==> #[trigger] final(self).selected_input@[exit_port as int]@[w] == if undo@.contains(w as usize) && sent != Some(w as usize) {
                None
            } else {
                old(self).selected_input@[exit_port as int]@[w]
            },
    {
        let ghost pre = *self;
        proof {
            assert(pre.transmission_port_status@[exit_port as int].neighbour_credits@.len() == pre.nvc());
            assert(undo@.take(0) =~= Seq::<usize>::empty());
        }
        let mut i: usize = 0;
        while i < undo.len()
            invariant
                pre.wf(),
                exit_port < pre.num_ports(),
                forall|j: int| 0 <= j < undo@.len() ==> #[trigger] undo@[j] < pre.nvc(),
                i <= undo@.len(),
                *self == (Basic { selected_input: self.selected_input, ..pre }),
                self.selected_input@.len() == pre.selected_input@.len(),
                forall|p: int| 0 <= p < pre.num_ports() && p != exit_port ==> #[trigger] self.selected_input@[p] == pre.selected_input@[p],
                self.selected_input@[exit_port as int]@.len() == pre.nvc(),
                forall|w: int| 0 <= w < pre.nvc() ==> #[trigger] self.selected_input@[exit_port as int]@[w] == if undo@.take(i as int).contains(w as usize) && sent != Some(w as usize) {
                    None
                } else {
                    pre.selected_input@[exit_port as int]@[w]
                },
            decreases undo@.len() - i,
        {
            let other = undo[i];
            let keep = match sent {
                Some(x) => x == other,
                None => false,
            };
            let ghost before = self.selected_input@[exit_port as int]@;
            assert(forall|w: int| 0 <= w < pre.nvc() ==> #[trigger] before[w] == if undo@.take(i as int).contains(w as usize) && sent != Some(w as usize) {
                None
            } else {
                pre.selected_input@[exit_port as int]@[w]
            });
            if !keep {
                self.selected_input[exit_port].set(other, None);
            }
            proof {
                if keep {
                    assert(self.selected_input@[exit_port as int]@ == before);
                } else {
                    assert(self.selected_input@[exit_port as int]@ == before.update(other as int, None));
                }
                assert forall|w: int| 0 <= w < pre.nvc() implies #[trigger] self.selected_input@[exit_port as int]@[w] == if undo@.take(i + 1).contains(w as usize) && sent != Some(w as usize) {
                    None
                } else {
                    pre.selected_input@[exit_port as int]@[w]
                } by {
                    assert(undo@.take(i + 1) == undo@.take(i as int).push(other));
                    assert(before[w] == if undo@.take(i as int).contains(w as usize) && sent != Some(w as usize) {
                        None
                    } else {
                        pre.selected_input@[exit_port as int]@[w]
                    });
                    if undo@.take(i as int).contains(w as usize) {
                        let j = choose|j: int| 0 <= j < i && #[trigger] undo@.take(i as int)[j] == w as usize;
                        assert(undo@.take(i + 1)[j] == w as usize);
                    }
                    if w as usize == other {
                        assert(undo@.take(i + 1)[i as int] == w as usize);
                    }
                    if undo@.take(i + 1).contains(w as usize) && w as usize != other {
                        let j = choose|j: int| 0 <= j < i + 1 && #[trigger] undo@.take(i + 1)[j] == w as usize;
                        assert(undo@.take(i as int)[j] == w as usize);
                    }
                    assert(undo@.take(i + 1).contains(w as usize) <==> (undo@.take(i as int).contains(w as usize) || w as usize == other));
                    if w as usize == other {
                        if keep {
                            assert(sent == Some(w as usize));
                            assert(self.selected_input@[exit_port as int]@[w] == before[w]);
                        } else {
                            assert(sent != Some(w as usize));
                            assert(w == other as int);
                            assert(self.selected_input@[exit_port as int]@ == before.update(other as int, None));
                            assert(self.selected_input@[exit_port as int]@[w] is None);
                        }
                    } else {
                        assert(self.selected_input@[exit_port as int]@[w] == before[w]);
                    }
                }
            }
            i = i + 1;
        }
        proof {
            assert(undo@.take(undo@.len() as int) == undo@);
            assert forall|p: int, w: int| 0 <= p < pre.num_ports() && 0 <= w < pre.nvc() implies
                ((#[trigger] self.selected_input@[p]@[w]) matches Some(t) ==> t.1 < pre.num_ports() && t.2 < pre.nvc()) by {
                assert(pre.selected_input@[p]@[w] matches Some(t) ==> t.1 < pre.num_ports() && t.2 < pre.nvc());
                if p == exit_port {
                    assert(self.selected_input@[exit_port as int]@[w] == if undo@.contains(w as usize) && sent != Some(w as usize) {
                        None
                    } else {
                        pre.selected_input@[exit_port as int]@[w]
                    });
                }
            }
            assert forall|p: int| 0 <= p < pre.num_ports() implies (#[trigger] self.selected_input@[p])@.len() == pre.nvc() by {
                assert(pre.transmission_port_status@[p].neighbour_credits@.len() == pre.nvc());
            }
        }
    }

    ///For one output port of a router without output buffers, decides which selected input actually uses it this cycle
    ///and sends its front phit, then undoes the selections of the packets of this port that have not started.
    pub fn transmit_port_direct(
        &mut self,
        exit_port: usize,
        cycle: usize,
        topology: &TopologyTable,
        direction_change: &Vec<Vec<bool>>,
        link_delays: &Vec<usize>,
        rng: &mut StdRng,
        events: &mut Vec<EventGeneration<Event>>,
    ) -> (sent: Option<usize>)
        requires
            old(self).wf(),
            old(self).sizes.output_buffer_size == 0,
            old(self).fits(topology, direction_change, link_delays),
            exit_port < old(self).num_ports(),
        ensures
            final(self).wf(),
            old(self).after_port(&*final(self), exit_port as int, sent, cycle),
            final(self).router_index == old(self).router_index,
            final(self).num_ports() == old(self).num_ports(),
            final(self).last_process_at_cycle == old(self).last_process_at_cycle,
            ({
                let cand = old(self).candidates_upto(direction_change, exit_port as int, old(self).nvc()).0;
                &&& (sent is None <==> cand.len() == 0)
                &&& (sent matches Some(v) ==> cand.contains(v) && old(self).can_go(direction_change, exit_port as int, v as int))
                &&& (sent matches Some(v) ==> (old(self).output_arbiter matches OutputArbiter::Token { port_token }
                    ==> v == token_choice(cand, port_token@[exit_port as int] as int, old(self).nvc())))
            }),
            sent is None ==> final(events)@ == old(events)@,
            sent matches Some(v) ==> final(events)@ == old(events)@ + seq![
                ack_event(topology, old(self).router_index as int, old(self).selected(exit_port as int, v as int).1 as int,
                    old(self).selected(exit_port as int, v as int).2, link_delays),
                phit_event(topology, old(self).router_index as int, old(self).selected(exit_port as int, v as int).1 as int, exit_port as int,
                    Rc::new(with_virtual_channel(*old(self).selected_front(exit_port as int, v as int), v)), link_delays),
            ],
    {
        let ghost s0 = *self;
        reveal(Basic::after_port);
        let nvc = self.transmission_port_status[0].neighbour_credits.len();
        let (cand, undo) = self.port_candidates(exit_port, direction_change);
        proof {
            lemma_candidates_can_go(&s0, direction_change, exit_port as int, s0.nvc());
            lemma_undo_upto(&s0, exit_port as int, s0.nvc());
            assert forall|i: int| 0 <= i < undo@.len() implies #[trigger] undo@[i] < s0.nvc() by {
                assert(undo@.contains(undo@[i]));
            }
        }
        let sent = if cand.len() > 0 {
            let v = self.choose_virtual_channel(exit_port, &cand, rng);
            let ghost s1 = *self;
            proof {
                let k = choose|k: int| 0 <= k < cand@.len() && #[trigger] cand@[k] == v;
                assert(s0.can_go(direction_change, exit_port as int, v as int));
                assert(s0.transmission_port_status@[exit_port as int].flit_size == s0.sizes.flit_size);
                assert(s1.selected(exit_port as int, v as int) == s0.selected(exit_port as int, v as int));
            }
            self.send_front(exit_port, v, cycle, topology, link_delays, events);
            Some(v)
        } else {
            None
        };
        let ghost s2 = *self;
        self.undo_selections(exit_port, &undo, sent);
        proof {
            assert forall|w: int| 0 <= w < s0.nvc() implies #[trigger] self.selected_input@[exit_port as int]@[w] == selection_after(
                s0.selected_input@[exit_port as int]@[w],
                sent == Some(w as usize),
                sent == Some(w as usize) && s0.selected_front(exit_port as int, w).index == s0.selected_front(exit_port as int, w).packet.size - 1,
                s0.begins(exit_port as int, w),
            ) by {
                assert(undo@.contains(w as usize) <==> s0.begins(exit_port as int, w));
            }
            if let Some(v) = sent {
                if let OutputArbiter::Token { port_token } = s0.output_arbiter {
                    let f = s0.selected_front(exit_port as int, v as int);
                    if f.index == f.packet.size - 1 {
                        assert(port_token@.update(exit_port as int, v).update(exit_port as int, ((v + 1) % (s0.nvc() as int)) as usize)
                            =~= port_token@.update(exit_port as int, ((v + 1) % (s0.nvc() as int)) as usize));
                    }
                }
            }
        }
        sent
    }
}


impl Basic {
    ///The choices of the routing and the policies for the front phits fit the router: a row per port, a column per
    ///virtual channel, and each choice an existing port and virtual channel.
    pub open spec fn choices_fit(&self, choices: &Vec<Vec<Option<(usize, usize, i32)>>>) -> bool {
        &&& choices@.len() == self.num_ports()
        &&& forall|p: int| 0 <= p < self.num_ports() ==> (#[trigger] choices@[p])@.len() == self.nvc()
        &&& forall|p: int, v: int| 0 <= p < self.num_ports() && 0 <= v < self.nvc() ==>
            ((#[trigger] choices@[p]@[v]) matches Some(c) ==> c.0 < self.num_ports() && c.1 < self.nvc())
    }

    ///Where the front phit of an input port and virtual channel asks to go, with the label of the request: the output
    ///already selected for its packet (label 0), else the choice made for it this cycle, if any.
    pub open spec fn request_target(&self, choices: &Vec<Vec<Option<(usize, usize, i32)>>>, p: int, v: int) -> Option<(usize, usize, i32)> {
        if self.input(p, v).len() == 0 {
            None
        } else {
            match self.selected_output@[p]@[v] {
                Some((_, port, vc)) => Some((port, vc, 0i32)),
                None => choices@[p]@[v],
            }
        }
    }

    ///The request of the front phit of an input port and virtual channel, made when its target has credits and no input selected.
    pub open spec fn request_of(&self, choices: &Vec<Vec<Option<(usize, usize, i32)>>>, p: int, v: int) -> Seq<PortRequest> {
        match self.request_target(choices, p, v) {
            Some((port, vc, label)) => if self.credits(port as int, vc as int) > 0 && self.selected_input@[port as int]@[vc as int] is None {
                seq![PortRequest {
                    packet: self.input(p, v)[0].packet,
                    entry_port: p as usize,
                    entry_vc: v as usize,
                    requested_port: port,
                    requested_vc: vc,
                    label,
                }]
            } else {
                Seq::empty()
            },
            None => Seq::empty(),
        }
    }

    ///The requests of the first `k` virtual channels of an input port, in order.
    pub open spec fn requests_of_port(&self, choices: &Vec<Vec<Option<(usize, usize, i32)>>>, p: int, k: int) -> Seq<PortRequest>
        decreases k,
    {
        if k <= 0 { Seq::empty() } else { self.requests_of_port(choices, p, k - 1) + self.request_of(choices, p, k - 1) }
    }

    ///The requests of the first `k` input ports, in order of port and then of virtual channel.
    pub open spec fn requests_upto(&self, choices: &Vec<Vec<Option<(usize, usize, i32)>>>, k: int) -> Seq<PortRequest>
        decreases k,
    {
        if k <= 0 { Seq::empty() } else { self.requests_upto(choices, k - 1) + self.requests_of_port(choices, k - 1, self.nvc()) }
    }

    ///No waiting time is at its limit.
    pub open spec fn times_below_max(&self) -> bool {
        forall|p: int, v: int| 0 <= p < self.num_ports() && 0 <= v < self.nvc() ==> #[trigger] self.time_at_input_head@[p]@[v] < usize::MAX
    }

    ///Collects the requests of the front phits of every input, in order of port and virtual channel, and counts one more
    ///cycle of waiting for each front phit that has somewhere to go.
    pub fn gather_requests(&mut self, choices: &Vec<Vec<Option<(usize, usize, i32)>>>) -> (requests: Vec<PortRequest>)
        requires
            old(self).wf(),
            old(self).choices_fit(choices),
            old(self).times_below_max(),
        ensures
            final(self).wf(),
            requests@ == old(self).requests_upto(choices, old(self).num_ports()),
            *final(self) == (Basic { time_at_input_head: final(self).time_at_input_head, ..*old(self) }),
            final(self).time_at_input_head@.len() == old(self).time_at_input_head@.len(),
            forall|p: int| 0 <= p < old(self).num_ports() ==> (#[trigger] final(self).time_at_input_head@[p])@.len() == old(self).nvc(),
            forall|p: int, v: int| 0 <= p < old(self).num_ports() && 0 <= v < old(self).nvc() ==>
                #[trigger] final(self).time_at_input_head@[p]@[v] == old(self).time_at_input_head@[p]@[v]
                    + if old(self).request_target(choices, p, v) is Some { 1int } else { 0int },
    {
        let ghost pre = *self;
        let ports = self.transmission_port_status.len();
        let nvc = self.transmission_port_status[0].neighbour_credits.len();
        let mut requests: Vec<PortRequest> = Vec::new();
        proof {
            assert forall|q: int| 0 <= q < ports implies (#[trigger] self.time_at_input_head@[q])@.len() == nvc by {
                assert(pre.transmission_port_status@[q].neighbour_credits@.len() == nvc);
            }
        }
        let mut p: usize = 0;
        while p < ports
            invariant
                pre.wf(),
                pre.choices_fit(choices),
                pre.times_below_max(),
                ports == pre.num_ports(),
                nvc == pre.nvc(),
                p <= ports,
                requests@ == pre.requests_upto(choices, p as int),
                *self == (Basic { time_at_input_head: self.time_at_input_head, ..pre }),
                self.time_at_input_head@.len() == ports,
                forall|q: int| 0 <= q < ports ==> (#[trigger] self.time_at_input_head@[q])@.len() == nvc,
                forall|q: int, w: int| 0 <= q < ports && 0 <= w < nvc ==>
                    #[trigger] self.time_at_input_head@[q]@[w] == pre.time_at_input_head@[q]@[w]
                        + if q < p && pre.request_target(choices, q, w) is Some { 1int } else { 0int },
            decreases ports - p,
        {
            assert(pre.transmission_port_status@[p as int].neighbour_credits@.len() == nvc);
            let mut v: usize = 0;
            while v < nvc
                invariant
                    pre.wf(),
                    pre.choices_fit(choices),
                    pre.times_below_max(),
                    ports == pre.num_ports(),
                    nvc == pre.nvc(),
                    p < ports,
                    v <= nvc,
                    requests@ == pre.requests_upto(choices, p as int) + pre.requests_of_port(choices, p as int, v as int),
                    *self == (Basic { time_at_input_head: self.time_at_input_head, ..pre }),
                    self.time_at_input_head@.len() == ports,
                    forall|q: int| 0 <= q < ports ==> (#[trigger] self.time_at_input_head@[q])@.len() == nvc,
                    forall|q: int, w: int| 0 <= q < ports && 0 <= w < nvc ==>
                        #[trigger] self.time_at_input_head@[q]@[w] == pre.time_at_input_head@[q]@[w]
                            + if (q < p || (q == p && w < v)) && pre.request_target(choices, q, w) is Some { 1int } else { 0int },
                decreases nvc - v,
            {
                assert(pre.transmission_port_status@[p as int].neighbour_credits@.len() == nvc);
                assert(pre.reception_port_space@[p as int].spec_buffers().len() == nvc);
                let front = self.reception_port_space[p].front_virtual_channel(v);
                let ghost before = requests@;
                let target: Option<(usize, usize, i32)> = match front {
                    None => None,
                    Some(_) => match &self.selected_output[p][v] {
                        Some(t) => Some((t.1, t.2, 0i32)),
                        None => choices[p][v],
                    },
                };
                assert(target == pre.request_target(choices, p as int, v as int));
                match target {
                    Some(t) => {
                        let port = t.0;
                        let vc = t.1;
                        assert(pre.selected_output@[p as int]@[v as int] matches Some(s) ==> s.1 < ports && s.2 < nvc);
                        assert(choices@[p as int]@[v as int] matches Some(c) ==> c.0 < ports && c.1 < nvc);
                        assert(pre.transmission_port_status@[port as int].neighbour_credits@.len() == nvc);
                        assert(pre.selected_input@[port as int]@.len() == nvc);
                        let credits = self.transmission_port_status[port].neighbour_credits[vc];
                        if credits > 0 && self.selected_input[port][vc].is_none() {
                            let phit = match front {
                                Some(f) => f,
                                None => {
                                    proof {
                                        assert(false);
                                    }
                                    return requests;
                                },
                            };
                            requests.push(PortRequest {
                                packet: rc_clone(&phit.packet),
                                entry_port: p,
                                entry_vc: v,
                                requested_port: port,
                                requested_vc: vc,
                                label: t.2,
                            });
                        }
                        let old_time = self.time_at_input_head[p][v];
                        assert(old_time == pre.time_at_input_head@[p as int]@[v as int]);
                        self.time_at_input_head[p].set(v, old_time + 1);
                    },
                    None => {},
                }
                proof {
                    assert(requests@ == before + pre.request_of(choices, p as int, v as int));
                    assert(pre.requests_of_port(choices, p as int, v + 1) == pre.requests_of_port(choices, p as int, v as int)
                        + pre.request_of(choices, p as int, v as int));
                    assert(requests@ == pre.requests_upto(choices, p as int) + pre.requests_of_port(choices, p as int, v + 1));
                }
                v = v + 1;
            }
            proof {
                assert(pre.requests_upto(choices, p + 1) == pre.requests_upto(choices, p as int) + pre.requests_of_port(choices, p as int, nvc as int));
            }
            p = p + 1;
        }
        proof {
            assert forall|q: int| 0 <= q < ports implies (#[trigger] self.time_at_input_head@[q])@.len() == nvc by {}
        }
        requests
    }
}


///Whether a request comes from another router rather than from a server.
pub open spec fn is_transit(topology: &TopologyTable, router: int, r: PortRequest) -> bool {
    topology.spec_neighbour(router, r.entry_port as int).0 is RouterPort
}

///Two sequences hold the same elements.
pub open spec fn same_elements(a: Seq<PortRequest>, b: Seq<PortRequest>) -> bool {
    forall|x: PortRequest| a.contains(x) <==> b.contains(x)
}

///A shuffle keeps the elements.
proof fn lemma_shuffle_same_elements(a: Seq<PortRequest>, b: Seq<PortRequest>)
    requires
        a.to_multiset() == b.to_multiset(),
    ensures
        same_elements(a, b),
{
    assert forall|x: PortRequest| a.contains(x) <==> b.contains(x) by {
        vstd::seq_lib::to_multiset_contains(a, x);
        vstd::seq_lib::to_multiset_contains(b, x);
    }
}

///The first request, in order, for an exit port and virtual channel: the one that is granted it when it is free.
pub open spec fn first_claim(order: Seq<PortRequest>, port: int, vc: int) -> Option<(Rc<Packet>, usize, usize)>
    decreases order.len(),
{
    if order.len() == 0 {
        None
    } else {
        match first_claim(order.drop_last(), port, vc) {
            Some(c) => Some(c),
            None => if order.last().requested_port == port && order.last().requested_vc == vc {
                Some((order.last().packet, order.last().entry_port, order.last().entry_vc))
            } else {
                None
            },
        }
    }
}

///A granted claim comes from a request for that port and virtual channel that no earlier request precedes.
pub proof fn lemma_first_claim(order: Seq<PortRequest>, port: int, vc: int)
    ensures
        first_claim(order, port, vc) is None <==> forall|j: int| 0 <= j < order.len() ==>
            !((#[trigger] order[j]).requested_port == port && order[j].requested_vc == vc),
        first_claim(order, port, vc) matches Some(c) ==> exists|i: int| 0 <= i < order.len()
            && (#[trigger] order[i]).requested_port == port && order[i].requested_vc == vc
            && c == (order[i].packet, order[i].entry_port, order[i].entry_vc)
            && forall|j: int| 0 <= j < i ==> !((#[trigger] order[j]).requested_port == port && order[j].requested_vc == vc),
    decreases order.len(),
{
    if order.len() > 0 {
        let prefix = order.drop_last();
        let n = order.len() - 1;
        lemma_first_claim(prefix, port, vc);
        assert forall|j: int| 0 <= j < prefix.len() implies #[trigger] prefix[j] == order[j] by {}
        if first_claim(prefix, port, vc) is None {
            assert forall|j: int| 0 <= j < n implies !((#[trigger] order[j]).requested_port == port && order[j].requested_vc == vc) by {
                assert(prefix[j] == order[j]);
            }
            if order[n].requested_port == port && order[n].requested_vc == vc {
                assert(order.last() == order[n]);
                assert(first_claim(order, port, vc) == Some((order[n].packet, order[n].entry_port, order[n].entry_vc)));
                assert(forall|j: int| 0 <= j < n ==> !((#[trigger] order[j]).requested_port == port && order[j].requested_vc == vc));
            } else {
                assert(order.last() == order[n]);
                assert(first_claim(order, port, vc) is None);
                assert forall|j: int| 0 <= j < order.len() implies !((#[trigger] order[j]).requested_port == port && order[j].requested_vc == vc) by {
                    if j < n {
                        assert(prefix[j] == order[j]);
                    }
                }
            }
        } else {
            let c = first_claim(prefix, port, vc)->Some_0;
            let i = choose|i: int| 0 <= i < prefix.len()
                && (#[trigger] prefix[i]).requested_port == port && prefix[i].requested_vc == vc
                && c == (prefix[i].packet, prefix[i].entry_port, prefix[i].entry_vc)
                && forall|j: int| 0 <= j < i ==> !((#[trigger] prefix[j]).requested_port == port && prefix[j].requested_vc == vc);
            assert(order[i] == prefix[i]);
            assert forall|j: int| 0 <= j < i implies !((#[trigger] order[j]).requested_port == port && order[j].requested_vc == vc) by {
                assert(prefix[j] == order[j]);
            }
            assert(first_claim(order, port, vc) == Some(c));
        }
    }
}

impl Basic {
    ///The priority of a request in the arbitration, lower first: its label, when the lowest labels go first, and then
    ///transit before injection, when in-transit packets have priority.
    pub open spec fn priority_rank(&self, topology: &TopologyTable, r: PortRequest) -> int {
        (if self.output_priorize_lowest_label { r.label as int * 2 } else { 0 })
            + (if self.intransit_priority && !is_transit(topology, self.router_index as int, r) { 1int } else { 0int })
    }

    ///The requests are in priority order.
    pub open spec fn in_priority_order(&self, topology: &TopologyTable, order: Seq<PortRequest>) -> bool {
        forall|i: int, j: int| 0 <= i < j < order.len() ==> self.priority_rank(topology, #[trigger] order[i]) <= self.priority_rank(topology, #[trigger] order[j])
    }

    ///The requests fit the router: they come from existing inputs and ask for existing outputs.
    pub open spec fn requests_fit(&self, requests: Seq<PortRequest>) -> bool {
        forall|i: int| 0 <= i < requests.len() ==> {
            &&& (#[trigger] requests[i]).entry_port < self.num_ports()
            &&& requests[i].entry_vc < self.nvc()
            &&& requests[i].requested_port < self.num_ports()
            &&& requests[i].requested_vc < self.nvc()
        }
    }

    ///Separates the requests from other routers from those of servers, each keeping its order.
    pub fn split_transit(&self, group: Vec<PortRequest>, topology: &TopologyTable) -> (r: (Vec<PortRequest>, Vec<PortRequest>))
        requires
            self.router_index < topology.spec_num_routers(),
            topology.spec_ports(self.router_index as int) == self.num_ports(),
            self.requests_fit(group@),
        ensures
            r.0@ == group@.filter(|x: PortRequest| is_transit(topology, self.router_index as int, x)),
            r.1@ == group@.filter(|x: PortRequest| !is_transit(topology, self.router_index as int, x)),
    {
        let ghost orig = group@;
        let ghost pt = |x: PortRequest| is_transit(topology, self.router_index as int, x);
        let ghost pi = |x: PortRequest| !is_transit(topology, self.router_index as int, x);
        let mut transit: Vec<PortRequest> = Vec::new();
        let mut injection: Vec<PortRequest> = Vec::new();
        let mut rest = group;
        let ghost mut i: int = 0;
        while rest.len() > 0
            invariant
                0 <= i <= orig.len(),
                rest@ == orig.skip(i),
                self.router_index < topology.spec_num_routers(),
                topology.spec_ports(self.router_index as int) == self.num_ports(),
                self.requests_fit(orig),
                pt == (|x: PortRequest| is_transit(topology, self.router_index as int, x)),
                pi == (|x: PortRequest| !is_transit(topology, self.router_index as int, x)),
                transit@ == orig.take(i).filter(pt),
                injection@ == orig.take(i).filter(pi),
            decreases rest@.len(),
        {
            let req = take_first_request(&mut rest);
            proof {
                assert(req == orig[i]);
                assert(orig.take(i + 1) == orig.take(i).push(req));
                assert(orig.skip(i + 1) == orig.skip(i).drop_first());
                orig.take(i).lemma_filter_push(req, pt);
                orig.take(i).lemma_filter_push(req, pi);
            }
            let (location, _class) = topology.neighbour(self.router_index, req.entry_port);
            proof {
                assert(pt(req) == (location is RouterPort));
                assert(pi(req) == !(location is RouterPort));
            }
            match location {
                Location::RouterPort { .. } => transit.push(req),
                _ => injection.push(req),
            }
            proof {
                i = i + 1;
            }
        }
        proof {
            assert(orig.take(orig.len() as int) == orig);
        }
        (transit, injection)
    }
}

///Removes and gives the first request.
fn take_first_request(v: &mut Vec<PortRequest>) -> (x: PortRequest)
    requires
        old(v)@.len() > 0,
    ensures
        x == old(v)@[0],
        final(v)@ == old(v)@.drop_first(),
{
    v.remove(0)
}

///Appends the requests of a chunk in their order.
fn append_requests(order: &mut Vec<PortRequest>, chunk: Vec<PortRequest>)
    ensures
        final(order)@ == old(order)@ + chunk@,
{
    let ghost orig = chunk@;
    let ghost start = order@;
    let mut rest = chunk;
    let ghost mut i: int = 0;
    while rest.len() > 0
        invariant
            0 <= i <= orig.len(),
            rest@ == orig.skip(i),
            order@ == start + orig.take(i),
        decreases rest@.len(),
    {
        let req = take_first_request(&mut rest);
        order.push(req);
        proof {
            assert(orig.take(i + 1) == orig.take(i).push(orig[i]));
            assert(orig.skip(i + 1) == orig.skip(i).drop_first());
            i = i + 1;
        }
    }
    proof {
        assert(orig.take(orig.len() as int) == orig);
    }
}


impl Basic {
    ///The rank shared by the requests of label group `k` (`k` after the lowest label), and whether they come from servers.
    pub open spec fn group_rank(&self, low: int, k: int, from_server: bool) -> int {
        (if self.output_priorize_lowest_label { (low + k) * 2 } else { 0 })
            + (if self.intransit_priority && from_server { 1int } else { 0int })
    }

    ///The label group of a request: its label after the lowest one, or 0 when labels do not order the requests.
    pub open spec fn group_of(&self, low: int, r: PortRequest) -> int {
        if self.output_priorize_lowest_label { r.label - low } else { 0 }
    }
}

///Appending requests of one rank, not below any rank before them, keeps the priority order.
proof fn lemma_append_in_order(router: &Basic, topology: &TopologyTable, order: Seq<PortRequest>, chunk: Seq<PortRequest>, rank: int)
    requires
        router.in_priority_order(topology, order),
        forall|i: int| 0 <= i < order.len() ==> router.priority_rank(topology, #[trigger] order[i]) <= rank,
        forall|j: int| 0 <= j < chunk.len() ==> router.priority_rank(topology, #[trigger] chunk[j]) == rank,
    ensures
        router.in_priority_order(topology, order + chunk),
        forall|i: int| 0 <= i < (order + chunk).len() ==> router.priority_rank(topology, #[trigger] (order + chunk)[i]) <= rank,
{
    let all = order + chunk;
    assert forall|i: int, j: int| 0 <= i < j < all.len() implies router.priority_rank(topology, #[trigger] all[i]) <= router.priority_rank(topology, #[trigger] all[j]) by {
        if j < order.len() {
            assert(all[i] == order[i] && all[j] == order[j]);
        } else if i < order.len() {
            assert(all[i] == order[i] && all[j] == chunk[j - order.len()]);
        } else {
            assert(all[i] == chunk[i - order.len()] && all[j] == chunk[j - order.len()]);
        }
    }
    assert forall|i: int| 0 <= i < all.len() implies router.priority_rank(topology, #[trigger] all[i]) <= rank by {
        if i < order.len() {
            assert(all[i] == order[i]);
        } else {
            assert(all[i] == chunk[i - order.len()]);
        }
    }
}

impl Basic {
    ///Arbitrates the requests: they are put in priority order (the lowest labels first, when so configured, and within a
    ///label those from other routers before those of servers, when so configured), each part shuffled, and each free exit
    ///virtual channel is granted to the first request for it. Returns the order used.
    pub fn arbitrate(&mut self, requests: Vec<PortRequest>, topology: &TopologyTable, rng: &mut StdRng) -> (order: Vec<PortRequest>)
        requires
            old(self).wf(),
            old(self).requests_fit(requests@),
            old(self).router_index < topology.spec_num_routers(),
            topology.spec_ports(old(self).router_index as int) == old(self).num_ports(),
            old(self).output_priorize_lowest_label ==> highest_label(request_labels(requests@)) - lowest_label(request_labels(requests@)) < usize::MAX,
        ensures
            final(self).wf(),
            same_elements(order@, requests@),
            old(self).in_priority_order(topology, order@),
            *final(self) == (Basic { selected_input: final(self).selected_input, ..*old(self) }),
            final(self).selected_input@.len() == old(self).num_ports(),
            forall|p: int| 0 <= p < old(self).num_ports() ==> (#[trigger] final(self).selected_input@[p])@.len() == old(self).nvc(),
            forall|p: int, v: int| 0 <= p < old(self).num_ports() && 0 <= v < old(self).nvc() ==>
                #[trigger] final(self).selected_input@[p]@[v] == match old(self).selected_input@[p]@[v] {
                    Some(x) => Some(x),
                    None => first_claim(order@, p, v),
                },
    {
        let ghost pre = *self;
        let ghost reqs = requests@;
        let ghost low = lowest_label(request_labels(reqs)) as int;
        let ghost high = highest_label(request_labels(reqs)) as int;
        proof {
            lemma_label_bounds(request_labels(reqs));
        }
        let priorize = self.output_priorize_lowest_label;
        let mut groups: Vec<Vec<PortRequest>> = if priorize {
            split_by_label(requests)
        } else {
            let mut g: Vec<Vec<PortRequest>> = Vec::new();
            g.push(requests);
            g
        };
        let ghost all_groups = groups@;
        proof {
            assert forall|k: int, x: PortRequest| #![trigger all_groups[k]@.contains(x)] 0 <= k < all_groups.len() implies
                all_groups[k]@.contains(x) == (reqs.contains(x) && pre.group_of(low, x) == k) by {
                if priorize {
                    let f = |r: PortRequest| r.label == low + k;
                    assert(all_groups[k]@ == reqs.filter(f));
                    if reqs.contains(x) && x.label == low + k {
                        let j = choose|j: int| 0 <= j < reqs.len() && reqs[j] == x;
                        reqs.lemma_filter_contains(f, j);
                    }
                    if all_groups[k]@.contains(x) {
                        let j = choose|j: int| 0 <= j < all_groups[k]@.len() && all_groups[k]@[j] == x;
                        reqs.lemma_filter_contains_rev(f, x);
                        reqs.lemma_filter_pred(f, j);
                    }
                }
            }
            assert forall|x: PortRequest| reqs.contains(x) implies 0 <= #[trigger] pre.group_of(low, x) < all_groups.len() by {
                if priorize {
                    let j = choose|j: int| 0 <= j < reqs.len() && reqs[j] == x;
                    assert(request_labels(reqs)[j] == x.label);
                }
            }
        }
        let mut order: Vec<PortRequest> = Vec::new();
        let ghost mut k: int = 0;
        while groups.len() > 0
            invariant
                pre.wf(),
                *self == pre,
                pre.requests_fit(reqs),
                pre.router_index < topology.spec_num_routers(),
                topology.spec_ports(pre.router_index as int) == pre.num_ports(),
                priorize == pre.output_priorize_lowest_label,
                0 <= k <= all_groups.len(),
                groups@ == all_groups.skip(k),
                !priorize ==> all_groups.len() == 1,
                forall|j: int, x: PortRequest| #![trigger all_groups[j]@.contains(x)] 0 <= j < all_groups.len() ==>
                    (all_groups[j]@.contains(x) == (reqs.contains(x) && pre.group_of(low, x) == j)),
                forall|x: PortRequest| reqs.contains(x) ==> 0 <= #[trigger] pre.group_of(low, x) < all_groups.len(),
                forall|x: PortRequest| #[trigger] order@.contains(x) ==> reqs.contains(x) && pre.group_of(low, x) < k,
                forall|x: PortRequest| reqs.contains(x) && pre.group_of(low, x) < k ==> #[trigger] order@.contains(x),
                pre.in_priority_order(topology, order@),
                k == 0 ==> order@.len() == 0,
                priorize ==> forall|i: int| 0 <= i < order@.len() ==> pre.priority_rank(topology, #[trigger] order@[i]) < pre.group_rank(low, k, false),
            decreases groups@.len(),
        {
            let group = take_first(&mut groups);
            let ghost g = group@;
            proof {
                assert(g == all_groups[k]@);
                assert(all_groups.skip(k + 1) == all_groups.skip(k).drop_first());
                assert forall|i: int| 0 <= i < g.len() implies (#[trigger] g[i]) == g[i] && reqs.contains(g[i]) && pre.group_of(low, g[i]) == k by {
                    assert(g.contains(g[i]));
                }
                assert(pre.requests_fit(g)) by {
                    assert forall|i: int| 0 <= i < g.len() implies {
                        &&& (#[trigger] g[i]).entry_port < pre.num_ports()
                        &&& g[i].entry_vc < pre.nvc()
                        &&& g[i].requested_port < pre.num_ports()
                        &&& g[i].requested_vc < pre.nvc()
                    } by {
                        assert(reqs.contains(g[i]));
                        let j = choose|j: int| 0 <= j < reqs.len() && reqs[j] == g[i];
                    }
                }
            }
            let ghost before = order@;
            let ghost mut chunk: Seq<PortRequest> = Seq::empty();
            if self.intransit_priority {
                let (mut transit, mut injection) = self.split_transit(group, topology);
                let ghost t0 = transit@;
                let ghost i0 = injection@;
                let ghost pt = |x: PortRequest| is_transit(topology, pre.router_index as int, x);
                let ghost pi = |x: PortRequest| !is_transit(topology, pre.router_index as int, x);
                shuffle(&mut transit, rng);
                shuffle(&mut injection, rng);
                proof {
                    lemma_shuffle_same_elements(transit@, t0);
                    lemma_shuffle_same_elements(injection@, i0);
                    assert forall|j: int| 0 <= j < transit@.len() implies pre.priority_rank(topology, #[trigger] transit@[j]) == pre.group_rank(low, k, false)
                        && reqs.contains(transit@[j]) && pre.group_of(low, transit@[j]) == k by {
                        assert(transit@.contains(transit@[j]));
                        assert(t0.contains(transit@[j]));
                        let m = choose|m: int| 0 <= m < t0.len() && t0[m] == transit@[j];
                        g.lemma_filter_contains_rev(pt, t0[m]);
                        g.lemma_filter_pred(pt, m);
                        assert(g.contains(transit@[j]));
                        assert(all_groups[k]@.contains(transit@[j]));
                    }
                    assert forall|j: int| 0 <= j < injection@.len() implies pre.priority_rank(topology, #[trigger] injection@[j]) == pre.group_rank(low, k, true)
                        && reqs.contains(injection@[j]) && pre.group_of(low, injection@[j]) == k by {
                        assert(injection@.contains(injection@[j]));
                        assert(i0.contains(injection@[j]));
                        let m = choose|m: int| 0 <= m < i0.len() && i0[m] == injection@[j];
                        g.lemma_filter_contains_rev(pi, i0[m]);
                        g.lemma_filter_pred(pi, m);
                        assert(g.contains(injection@[j]));
                        assert(all_groups[k]@.contains(injection@[j]));
                    }
                    lemma_append_in_order(&pre, topology, order@, transit@, pre.group_rank(low, k, false));
                    lemma_append_in_order(&pre, topology, order@ + transit@, injection@, pre.group_rank(low, k, true));
                    assert forall|x: PortRequest| reqs.contains(x) && pre.group_of(low, x) == k implies
                        (transit@ + injection@).contains(x) by {
                        assert(all_groups[k]@.contains(x));
                        let n = choose|n: int| 0 <= n < g.len() && g[n] == x;
                        if pt(x) {
                            g.lemma_filter_contains(pt, n);
                            assert(t0.contains(x));
                            let m = choose|m: int| 0 <= m < transit@.len() && transit@[m] == x;
                            assert((transit@ + injection@)[m] == x);
                        } else {
                            g.lemma_filter_contains(pi, n);
                            assert(i0.contains(x));
                            let m = choose|m: int| 0 <= m < injection@.len() && injection@[m] == x;
                            assert((transit@ + injection@)[transit@.len() + m] == x);
                        }
                    }
                    assert forall|x: PortRequest| (transit@ + injection@).contains(x) implies reqs.contains(x) && pre.group_of(low, x) == k by {
                        let m = choose|m: int| 0 <= m < (transit@ + injection@).len() && (transit@ + injection@)[m] == x;
                        if m < transit@.len() {
                            assert(transit@[m] == x);
                        } else {
                            assert(injection@[m - transit@.len()] == x);
                        }
                    }
                }
                proof {
                    chunk = transit@ + injection@;
                }
                append_requests(&mut order, transit);
                append_requests(&mut order, injection);
                proof {
                    assert(order@ == before + chunk);
                }
            } else {
                let mut shuffled = group;
                shuffle(&mut shuffled, rng);
                proof {
                    lemma_shuffle_same_elements(shuffled@, g);
                    assert forall|j: int| 0 <= j < shuffled@.len() implies pre.priority_rank(topology, #[trigger] shuffled@[j]) == pre.group_rank(low, k, false)
                        && reqs.contains(shuffled@[j]) && pre.group_of(low, shuffled@[j]) == k by {
                        assert(shuffled@.contains(shuffled@[j]));
                        assert(g.contains(shuffled@[j]));
                    }
                    lemma_append_in_order(&pre, topology, order@, shuffled@, pre.group_rank(low, k, false));
                    assert forall|x: PortRequest| reqs.contains(x) && pre.group_of(low, x) == k implies shuffled@.contains(x) by {
                        assert(all_groups[k]@.contains(x));
                        assert(g.contains(x));
                    }
                    assert forall|x: PortRequest| shuffled@.contains(x) implies reqs.contains(x) && pre.group_of(low, x) == k by {
                        assert(g.contains(x));
                        assert(all_groups[k]@.contains(x));
                    }
                    chunk = shuffled@;
                }
                append_requests(&mut order, shuffled);
                proof {
                    assert(order@ == before + chunk);
                }
            }
            proof {
                assert(forall|x: PortRequest| reqs.contains(x) && pre.group_of(low, x) == k ==> chunk.contains(x));
                assert forall|x: PortRequest| #[trigger] order@.contains(x) implies reqs.contains(x) && pre.group_of(low, x) < k + 1 by {
                    let m = choose|m: int| 0 <= m < order@.len() && order@[m] == x;
                    if m < before.len() {
                        assert(before[m] == x);
                        assert(before.contains(x));
                    } else {
                        assert(chunk[m - before.len()] == x);
                        assert(chunk.contains(x));
                    }
                }
                assert forall|x: PortRequest| reqs.contains(x) && pre.group_of(low, x) < k + 1 implies #[trigger] order@.contains(x) by {
                    if pre.group_of(low, x) < k {
                        assert(before.contains(x));
                        let m = choose|m: int| 0 <= m < before.len() && before[m] == x;
                        assert(order@[m] == x);
                    } else {
                        assert(chunk.contains(x));
                        let m = choose|m: int| 0 <= m < chunk.len() && chunk[m] == x;
                        assert(order@[before.len() + m] == x);
                    }
                }
                if priorize {
                    assert forall|i: int| 0 <= i < order@.len() implies pre.priority_rank(topology, #[trigger] order@[i]) < pre.group_rank(low, k + 1, false) by {
                        if i < before.len() {
                            assert(order@[i] == before[i]);
                        } else {
                            assert(order@[i] == chunk[i - before.len()]);
                        }
                    }
                }
                k = k + 1;
            }
        }
        proof {
            assert forall|x: PortRequest| #[trigger] order@.contains(x) <==> reqs.contains(x) by {
                if reqs.contains(x) {
                    assert(0 <= pre.group_of(low, x) < all_groups.len());
                }
            }
        }
        proof {
            assert forall|i: int| 0 <= i < order@.len() implies {
                &&& (#[trigger] order@[i]).entry_port < pre.num_ports()
                &&& order@[i].entry_vc < pre.nvc()
                &&& order@[i].requested_port < pre.num_ports()
                &&& order@[i].requested_vc < pre.nvc()
            } by {
                assert(order@.contains(order@[i]));
                assert(reqs.contains(order@[i]));
                let j = choose|j: int| 0 <= j < reqs.len() && reqs[j] == order@[i];
            }
        }
        self.grant_requests(&order);
        order
    }

    ///Grants each free exit virtual channel to the first request for it, in order.
    fn grant_requests(&mut self, order: &Vec<PortRequest>)
        requires
            old(self).wf(),
            old(self).requests_fit(order@),
        ensures
            final(self).wf(),
            *final(self) == (Basic { selected_input: final(self).selected_input, ..*old(self) }),
            final(self).selected_input@.len() == old(self).num_ports(),
            forall|p: int| 0 <= p < old(self).num_ports() ==> (#[trigger] final(self).selected_input@[p])@.len() == old(self).nvc(),
            forall|p: int, v: int| 0 <= p < old(self).num_ports() && 0 <= v < old(self).nvc() ==>
                #[trigger] final(self).selected_input@[p]@[v] == match old(self).selected_input@[p]@[v] {
                    Some(x) => Some(x),
                    None => first_claim(order@, p, v),
                },
    {
        let ghost pre = *self;
        proof {
            assert forall|p: int| 0 <= p < pre.num_ports() implies (#[trigger] self.selected_input@[p])@.len() == pre.nvc() by {
                assert(pre.transmission_port_status@[p].neighbour_credits@.len() == pre.nvc());
            }
            assert(order@.take(0) =~= Seq::<PortRequest>::empty());
        }
        let mut i: usize = 0;
        while i < order.len()
            invariant
                pre.wf(),
                pre.requests_fit(order@),
                i <= order@.len(),
                *self == (Basic { selected_input: self.selected_input, ..pre }),
                self.selected_input@.len() == pre.num_ports(),
                forall|p: int| 0 <= p < pre.num_ports() ==> (#[trigger] self.selected_input@[p])@.len() == pre.nvc(),
                forall|p: int, v: int| 0 <= p < pre.num_ports() && 0 <= v < pre.nvc() ==>
                    #[trigger] self.selected_input@[p]@[v] == match pre.selected_input@[p]@[v] {
                        Some(x) => Some(x),
                        None => first_claim(order@.take(i as int), p, v),
                    },
            decreases order@.len() - i,
        {
            let rp = order[i].requested_port;
            let rv = order[i].requested_vc;
            let ghost before = self.selected_input@;
            proof {
                assert(order@.take(i + 1).drop_last() == order@.take(i as int));
                assert(order@.take(i + 1).last() == order@[i as int]);
            }
            if self.selected_input[rp][rv].is_none() {
                self.selected_input[rp].set(rv, Some((rc_clone(&order[i].packet), order[i].entry_port, order[i].entry_vc)));
            }
            proof {
                assert forall|p: int, v: int| 0 <= p < pre.num_ports() && 0 <= v < pre.nvc() implies
                    #[trigger] self.selected_input@[p]@[v] == match pre.selected_input@[p]@[v] {
                        Some(x) => Some(x),
                        None => first_claim(order@.take(i + 1), p, v),
                    } by {
                    assert(before[p]@[v] == match pre.selected_input@[p]@[v] {
                        Some(x) => Some(x),
                        None => first_claim(order@.take(i as int), p, v),
                    });
                    if p != rp || v != rv {
                        assert(self.selected_input@[p]@[v] == before[p]@[v]);
                    }
                }
            }
            i = i + 1;
        }
        proof {
            assert(order@.take(order@.len() as int) == order@);
            assert forall|p: int, v: int| 0 <= p < pre.num_ports() && 0 <= v < pre.nvc() implies
                ((#[trigger] self.selected_input@[p]@[v]) matches Some(t) ==> t.1 < pre.num_ports() && t.2 < pre.nvc()) by {
                assert(pre.selected_input@[p]@[v] matches Some(t) ==> t.1 < pre.num_ports() && t.2 < pre.nvc());
                lemma_first_claim(order@, p, v);
            }
        }
    }
}


///The lowest and the highest label are labels of the requests, or 0 when there are none.
proof fn lemma_label_extremes(labels: Seq<i32>)
    ensures
        labels.len() == 0 ==> lowest_label(labels) == 0 && highest_label(labels) == 0,
        labels.len() > 0 ==> labels.contains(lowest_label(labels)) && labels.contains(highest_label(labels)),
    decreases labels.len(),
{
    if labels.len() > 1 {
        lemma_label_extremes(labels.drop_last());
        let pl = labels.drop_last();
        if pl.contains(lowest_label(pl)) {
            let j = choose|j: int| 0 <= j < pl.len() && pl[j] == lowest_label(pl);
            assert(labels[j] == pl[j]);
        }
        if pl.contains(highest_label(pl)) {
            let j = choose|j: int| 0 <= j < pl.len() && pl[j] == highest_label(pl);
            assert(labels[j] == pl[j]);
        }
        assert(labels[labels.len() - 1] == labels.last());
    } else if labels.len() == 1 {
        assert(labels[0] == lowest_label(labels));
    }
}

impl Basic {
    ///The labels that requests may carry this cycle (those of the choices, and 0 for the outputs already selected) are
    ///less than `i32::MAX` apart, so that the label groups can be counted.
    pub open spec fn labels_in_window(&self, choices: &Vec<Vec<Option<(usize, usize, i32)>>>) -> bool {
        &&& forall|p: int, v: int| 0 <= p < self.num_ports() && 0 <= v < self.nvc() ==>
            ((#[trigger] choices@[p]@[v]) matches Some(c) ==> -i32::MAX < c.2 < i32::MAX)
        &&& forall|p: int, v: int, q: int, w: int| 0 <= p < self.num_ports() && 0 <= v < self.nvc() && 0 <= q < self.num_ports() && 0 <= w < self.nvc() ==>
            ((#[trigger] choices@[p]@[v]) matches Some(c) ==> ((#[trigger] choices@[q]@[w]) matches Some(d) ==> c.2 - d.2 < i32::MAX))
    }

    ///Whether a front phit has no output selected yet.
    pub open spec fn undecided(&self, p: int, v: int) -> bool {
        self.input(p, v).len() > 0 && self.selected_output@[p]@[v] is None
    }

    ///Whether some front phit has no output selected yet.
    pub fn has_undecided(&self) -> (b: bool)
        requires
            self.wf(),
        ensures
            b == exists|p: int, v: int| 0 <= p < self.num_ports() && 0 <= v < self.nvc() && #[trigger] self.undecided(p, v),
    {
        let ports = self.transmission_port_status.len();
        let nvc = self.transmission_port_status[0].neighbour_credits.len();
        let mut p: usize = 0;
        while p < ports
            invariant
                self.wf(),
                ports == self.num_ports(),
                nvc == self.nvc(),
                p <= ports,
                forall|q: int, w: int| 0 <= q < p && 0 <= w < nvc ==> !#[trigger] self.undecided(q, w),
            decreases ports - p,
        {
            assert(self.transmission_port_status@[p as int].neighbour_credits@.len() == nvc);
            let mut v: usize = 0;
            while v < nvc
                invariant
                    self.wf(),
                    ports == self.num_ports(),
                    nvc == self.nvc(),
                    p < ports,
                    v <= nvc,
                    forall|q: int, w: int| 0 <= q < p && 0 <= w < nvc ==> !#[trigger] self.undecided(q, w),
                    forall|w: int| 0 <= w < v ==> !#[trigger] self.undecided(p as int, w),
                decreases nvc - v,
            {
                assert(self.transmission_port_status@[p as int].neighbour_credits@.len() == nvc);
                if self.reception_port_space[p].front_virtual_channel(v).is_some() && self.selected_output[p][v].is_none() {
                    assert(self.undecided(p as int, v as int));
                    return true;
                }
                v = v + 1;
            }
            p = p + 1;
        }
        false
    }
}

///Every request of the first `k` ports comes from an existing input, asks for an existing output, and carries the label
///of its choice or 0.
proof fn lemma_requests_fit(router: &Basic, choices: &Vec<Vec<Option<(usize, usize, i32)>>>, k: int)
    requires
        router.wf(),
        router.choices_fit(choices),
        0 <= k <= router.num_ports(),
    ensures
        router.requests_fit(router.requests_upto(choices, k)),
        forall|i: int| 0 <= i < router.requests_upto(choices, k).len() ==> {
            let r = #[trigger] router.requests_upto(choices, k)[i];
            r.label == 0 || (choices@[r.entry_port as int]@[r.entry_vc as int] matches Some(c) && c.2 == r.label)
        },
    decreases k,
{
    if k > 0 {
        lemma_requests_fit(router, choices, k - 1);
        lemma_port_requests_fit(router, choices, k - 1, router.nvc());
        let a = router.requests_upto(choices, k - 1);
        let b = router.requests_of_port(choices, k - 1, router.nvc());
        assert(router.requests_upto(choices, k) == a + b);
        assert forall|i: int| 0 <= i < (a + b).len() implies {
            &&& (#[trigger] (a + b)[i]).entry_port < router.num_ports()
            &&& (a + b)[i].entry_vc < router.nvc()
            &&& (a + b)[i].requested_port < router.num_ports()
            &&& (a + b)[i].requested_vc < router.nvc()
            &&& ((a + b)[i].label == 0 || (choices@[(a + b)[i].entry_port as int]@[(a + b)[i].entry_vc as int] matches Some(c) && c.2 == (a + b)[i].label))
        } by {
            if i < a.len() {
                assert((a + b)[i] == a[i]);
            } else {
                assert((a + b)[i] == b[i - a.len()]);
            }
        }
    }
}

proof fn lemma_port_requests_fit(router: &Basic, choices: &Vec<Vec<Option<(usize, usize, i32)>>>, p: int, k: int)
    requires
        router.wf(),
        router.choices_fit(choices),
        0 <= p < router.num_ports(),
        0 <= k <= router.nvc(),
    ensures
        forall|i: int| 0 <= i < router.requests_of_port(choices, p, k).len() ==> {
            let r = #[trigger] router.requests_of_port(choices, p, k)[i];
            &&& r.entry_port < router.num_ports()
            &&& r.entry_vc < router.nvc()
            &&& r.requested_port < router.num_ports()
            &&& r.requested_vc < router.nvc()
            &&& r.entry_port == p
            &&& (r.label == 0 || (choices@[r.entry_port as int]@[r.entry_vc as int] matches Some(c) && c.2 == r.label))
        },
    decreases k,
{
    if k > 0 {
        lemma_port_requests_fit(router, choices, p, k - 1);
        let a = router.requests_of_port(choices, p, k - 1);
        let b = router.request_of(choices, p, k - 1);
        assert(router.requests_of_port(choices, p, k) == a + b);
        assert(router.selected_output@[p]@[k - 1] matches Some(t) ==> t.1 < router.num_ports() && t.2 < router.nvc());
        assert(choices@[p]@[k - 1] matches Some(c) ==> c.0 < router.num_ports() && c.1 < router.nvc());
        assert forall|i: int| 0 <= i < (a + b).len() implies {
            let r = #[trigger] (a + b)[i];
            &&& r.entry_port < router.num_ports()
            &&& r.entry_vc < router.nvc()
            &&& r.requested_port < router.num_ports()
            &&& r.requested_vc < router.nvc()
            &&& r.entry_port == p
            &&& (r.label == 0 || (choices@[r.entry_port as int]@[r.entry_vc as int] matches Some(c) && c.2 == r.label))
        } by {
            if i < a.len() {
                assert((a + b)[i] == a[i]);
            } else {
                assert((a + b)[i] == b[i - a.len()]);
            }
        }
    }
}


///The events of an exit port: the acknowledgement and the arrival of the phit it sent, if it sent one.
pub open spec fn port_events(s: Basic, exit_port: int, sent: Option<usize>, topology: &TopologyTable, link_delays: &Vec<usize>) -> Seq<EventGeneration<Event>> {
    match sent {
        None => Seq::empty(),
        Some(v) => seq![
            ack_event(topology, s.router_index as int, s.selected(exit_port, v as int).1 as int, s.selected(exit_port, v as int).2, link_delays),
            phit_event(topology, s.router_index as int, s.selected(exit_port, v as int).1 as int, exit_port,
                Rc::new(with_virtual_channel(*s.selected_front(exit_port, v as int), v)), link_delays),
        ],
    }
}

///The events of the first `k` exit ports, one sequence per port, in order.
pub open spec fn ports_events(port_events: Seq<Seq<EventGeneration<Event>>>, k: int) -> Seq<EventGeneration<Event>>
    decreases k,
{
    if k <= 0 {
        Seq::empty()
    } else {
        ports_events(port_events, k - 1) + port_events[k - 1]
    }
}

///The first `k` exit ports were processed in order, each in the state left by the ports before it, giving the events in
///`port_evs`: without output buffers, each sent the front phit of a selected input that could advance, if it had any, as
///`after_port` describes; with output buffers, as `after_port_buffered` describes.
pub open spec fn ports_processed(
    states: Seq<Basic>,
    sents: Seq<Option<usize>>,
    port_evs: Seq<Seq<EventGeneration<Event>>>,
    k: int,
    direction_change: &Vec<Vec<bool>>,
    topology: &TopologyTable,
    link_delays: &Vec<usize>,
    cycle: usize,
) -> bool {
    forall|q: int| 0 <= q < k ==> if (#[trigger] states[q]).sizes.output_buffer_size == 0 {
        &&& states[q].after_port(&states[q + 1], q, sents[q], cycle)
        &&& (sents[q] is None <==> states[q].candidates_upto(direction_change, q, states[q].nvc()).0.len() == 0)
        &&& (sents[q] matches Some(v) ==> states[q].can_go(direction_change, q, v as int))
        &&& port_evs[q] == port_events(states[q], q, sents[q], topology, link_delays)
    } else {
        states[q].after_port_buffered(&states[q + 1], q, sents[q], cycle, direction_change, topology, link_delays, port_evs[q])
    }
}

///The event by which the router is processed again at the end of the next cycle.
pub open spec fn repeat_event(eventful_index: usize) -> EventGeneration<Event> {
    EventGeneration { delay: 1, position: CyclePosition::End, event: Event::Generic(eventful_index) }
}

impl Basic {
    ///The router after the request phase of a cycle: each front phit with somewhere to go waited one more cycle, and
    ///the requests, in `order` (their priority order), were granted the free exit virtual channels.
    pub open spec fn granted(&self, new: &Basic, choices: &Vec<Vec<Option<(usize, usize, i32)>>>, topology: &TopologyTable, cycle: usize, order: Seq<PortRequest>) -> bool {
        &&& *new == (Basic {
            selected_input: new.selected_input,
            time_at_input_head: new.time_at_input_head,
            last_process_at_cycle: Some(cycle),
            ..*self
        })
        &&& new.time_at_input_head@.len() == self.num_ports()
        &&& forall|p: int| 0 <= p < self.num_ports() ==> (#[trigger] new.time_at_input_head@[p])@.len() == self.nvc()
        &&& forall|p: int, v: int| 0 <= p < self.num_ports() && 0 <= v < self.nvc() ==>
            #[trigger] new.time_at_input_head@[p]@[v] == self.time_at_input_head@[p]@[v]
                + if self.request_target(choices, p, v) is Some { 1int } else { 0int }
        &&& same_elements(order, self.requests_upto(choices, self.num_ports()))
        &&& self.in_priority_order(topology, order)
        &&& new.selected_input@.len() == self.num_ports()
        &&& forall|p: int| 0 <= p < self.num_ports() ==> (#[trigger] new.selected_input@[p])@.len() == self.nvc()
        &&& forall|p: int, v: int| 0 <= p < self.num_ports() && 0 <= v < self.nvc() ==>
            #[trigger] new.selected_input@[p]@[v] == match self.selected_input@[p]@[v] {
                Some(x) => Some(x),
                None => first_claim(order, p, v),
            }
    }

    ///What a cycle of the router did: the request phase gave `granted`, then the exit ports were processed in order through
    ///`states`, sending as `sents` says, and the events are those of the ports, followed by the event to process the router
    ///again when it moved something, had requests or has front phits still to decide.
    pub open spec fn cycle_outcome(
        &self,
        new: &Basic,
        choices: &Vec<Vec<Option<(usize, usize, i32)>>>,
        topology: &TopologyTable,
        direction_change: &Vec<Vec<bool>>,
        link_delays: &Vec<usize>,
        cycle: usize,
        eventful_index: usize,
        order: Seq<PortRequest>,
        states: Seq<Basic>,
        sents: Seq<Option<usize>>,
        port_evs: Seq<Seq<EventGeneration<Event>>>,
        events: Seq<EventGeneration<Event>>,
    ) -> bool {
        let ports = self.num_ports();
        let sent_events = ports_events(port_evs, ports);
        let repeat = sent_events.len() > 0 || self.requests_upto(choices, ports).len() > 0
            || exists|p: int, v: int| 0 <= p < ports && 0 <= v < self.nvc() && #[trigger] self.undecided(p, v);
        &&& states.len() == ports + 1
        &&& sents.len() == ports
        &&& port_evs.len() == ports
        &&& self.granted(&states[0], choices, topology, cycle, order)
        &&& ports_processed(states, sents, port_evs, ports, direction_change, topology, link_delays, cycle)
        &&& *new == states[ports]
        &&& events == sent_events + if repeat { seq![repeat_event(eventful_index)] } else { Seq::empty() }
    }

    ///The request phase of a cycle: records the cycle, collects the requests of the front phits and arbitrates them.
    ///Returns the requests in the order in which they were granted.
    fn request_phase(&mut self, cycle: usize, choices: &Vec<Vec<Option<(usize, usize, i32)>>>, topology: &TopologyTable, rng: &mut StdRng) -> (order: Vec<PortRequest>)
        requires
            old(self).wf(),
            old(self).router_index < topology.spec_num_routers(),
            topology.spec_ports(old(self).router_index as int) == old(self).num_ports(),
            old(self).choices_fit(choices),
            old(self).times_below_max(),
            old(self).output_priorize_lowest_label ==> old(self).labels_in_window(choices),
        ensures
            final(self).wf(),
            old(self).granted(&*final(self), choices, topology, cycle, order@),
    {
        let ghost pre = *self;
        self.last_process_at_cycle = Some(cycle);
        let ghost mid = *self;
        proof {
            assert(mid.requests_upto(choices, mid.num_ports()) == pre.requests_upto(choices, pre.num_ports())) by {
                lemma_requests_same(&pre, &mid, choices, pre.num_ports());
            }
        }
        let requests = self.gather_requests(choices);
        proof {
            lemma_requests_fit(&pre, choices, pre.num_ports());
            let labels = request_labels(requests@);
            lemma_label_bounds(labels);
            lemma_label_extremes(labels);
            if labels.len() > 0 && pre.output_priorize_lowest_label {
                let a = choose|j: int| 0 <= j < labels.len() && labels[j] == lowest_label(labels);
                let b = choose|j: int| 0 <= j < labels.len() && labels[j] == highest_label(labels);
                assert(labels[a] == requests@[a].label);
                assert(labels[b] == requests@[b].label);
                let ra = requests@[a];
                let rb = requests@[b];
                assert(ra.entry_port < pre.num_ports() && ra.entry_vc < pre.nvc());
                assert(rb.entry_port < pre.num_ports() && rb.entry_vc < pre.nvc());
                assert(choices@[ra.entry_port as int]@[ra.entry_vc as int] matches Some(c) ==> -i32::MAX < c.2 < i32::MAX);
                assert(choices@[rb.entry_port as int]@[rb.entry_vc as int] matches Some(c) ==> -i32::MAX < c.2 < i32::MAX);
                assert(choices@[rb.entry_port as int]@[rb.entry_vc as int] matches Some(c) ==> (
                    choices@[ra.entry_port as int]@[ra.entry_vc as int] matches Some(d) ==> c.2 - d.2 < i32::MAX));
            }
        }
        let order = self.arbitrate(requests, topology, rng);
        order
    }

    ///Every exit port from `from` on is ready to use its output buffers this cycle: see `moves_fit` and `transmissions_due`.
    pub open spec fn ports_ready(&self, from: int) -> bool {
        forall|q: int| #![trigger self.port_ready(q)] from <= q < self.num_ports() ==> self.port_ready(q)
    }

    ///An exit port is ready to use its output buffers this cycle.
    pub open spec fn port_ready(&self, q: int) -> bool {
        self.moves_fit(q) && self.transmissions_due(q)
    }

    ///Processes the exit ports in order, each sending at most one phit. Returns the events and, as ghost values, the
    ///states between the ports, what each sent and the events of each.
    fn transmit_all(
        &mut self,
        cycle: usize,
        topology: &TopologyTable,
        direction_change: &Vec<Vec<bool>>,
        link_delays: &Vec<usize>,
        rng: &mut StdRng,
    ) -> (r: (Vec<EventGeneration<Event>>, Ghost<Seq<Basic>>, Ghost<Seq<Option<usize>>>, Ghost<Seq<Seq<EventGeneration<Event>>>>))
        requires
            old(self).wf(),
            old(self).fits(topology, direction_change, link_delays),
            old(self).sizes.output_buffer_size > 0 ==> old(self).ports_ready(0),
        ensures
            final(self).wf(),
            r.1@.len() == old(self).num_ports() + 1,
            r.2@.len() == old(self).num_ports(),
            r.3@.len() == old(self).num_ports(),
            r.1@[0] == *old(self),
            r.1@[old(self).num_ports() as int] == *final(self),
            ports_processed(r.1@, r.2@, r.3@, old(self).num_ports(), direction_change, topology, link_delays, cycle),
            r.0@ == ports_events(r.3@, old(self).num_ports()),
            final(self).last_process_at_cycle == old(self).last_process_at_cycle,
    {
        let ghost start = *self;
        let ghost mut states: Seq<Basic> = seq![start];
        let ghost mut sents: Seq<Option<usize>> = Seq::empty();
        let ghost mut port_evs: Seq<Seq<EventGeneration<Event>>> = Seq::empty();
        let mut events: Vec<EventGeneration<Event>> = Vec::new();
        let ports = self.transmission_port_status.len();
        let buffered = self.sizes.output_buffer_size > 0;
        let mut exit_port: usize = 0;
        while exit_port < ports
            invariant
                self.wf(),
                self.fits(topology, direction_change, link_delays),
                ports == start.num_ports(),
                self.num_ports() == ports,
                self.sizes == start.sizes,
                buffered == (start.sizes.output_buffer_size > 0),
                buffered ==> self.ports_ready(exit_port as int),
                self.last_process_at_cycle == start.last_process_at_cycle,
                exit_port <= ports,
                states.len() == exit_port + 1,
                sents.len() == exit_port,
                port_evs.len() == exit_port,
                states[0] == start,
                states[exit_port as int] == *self,
                ports_processed(states, sents, port_evs, exit_port as int, direction_change, topology, link_delays, cycle),
                events@ == ports_events(port_evs, exit_port as int),
            decreases ports - exit_port,
        {
            let ghost before = *self;
            let ghost events_before = events@;
            let sent = if buffered {
                assert(before.port_ready(exit_port as int));
                self.transmit_port_buffered(exit_port, cycle, topology, direction_change, link_delays, rng, &mut events)
            } else {
                self.transmit_port_direct(exit_port, cycle, topology, direction_change, link_delays, rng, &mut events)
            };
            proof {
                let these = events@.skip(events_before.len() as int);
                if buffered {
                    assert(events@ =~= events_before + these);
                    lemma_ports_ready_kept(&before, &*self, exit_port as int);
                } else {
                    assert(these =~= port_events(before, exit_port as int, sent, topology, link_delays));
                    assert(events@ =~= events_before + these);
                    assert(self.sizes == before.sizes) by {
                        reveal(Basic::after_port);
                    }
                }
                let old_states = states;
                let old_sents = sents;
                let old_evs = port_evs;
                states = states.push(*self);
                sents = sents.push(sent);
                port_evs = port_evs.push(these);
                assert forall|q: int| 0 <= q < exit_port + 1 implies if (#[trigger] states[q]).sizes.output_buffer_size == 0 {
                    &&& states[q].after_port(&states[q + 1], q, sents[q], cycle)
                    &&& (sents[q] is None <==> states[q].candidates_upto(direction_change, q, states[q].nvc()).0.len() == 0)
                    &&& (sents[q] matches Some(v) ==> states[q].can_go(direction_change, q, v as int))
                    &&& port_evs[q] == port_events(states[q], q, sents[q], topology, link_delays)
                } else {
                    states[q].after_port_buffered(&states[q + 1], q, sents[q], cycle, direction_change, topology, link_delays, port_evs[q])
                } by {
                    if q < exit_port {
                        assert(states[q] == old_states[q]);
                        assert(states[q + 1] == old_states[q + 1]);
                        assert(sents[q] == old_sents[q]);
                        assert(port_evs[q] == old_evs[q]);
                    } else {
                        assert(states[q] == before);
                    }
                }
                lemma_ports_events_prefix(old_evs, port_evs, exit_port as int);
                assert(port_evs[exit_port as int] == these);
            }
            exit_port = exit_port + 1;
        }
        (events, Ghost(states), Ghost(sents), Ghost(port_evs))
    }

    ///Main routine of the router: does all things that must be done in a cycle. The routing and the virtual channel
    ///policies have chosen, in `choices`, where each undecided front phit asks to go; the router makes the requests,
    ///arbitrates them and moves at most one phit through each exit port.
    pub fn process(
        &mut self,
        cycle: usize,
        choices: &Vec<Vec<Option<(usize, usize, i32)>>>,
        topology: &TopologyTable,
        direction_change: &Vec<Vec<bool>>,
        link_delays: &Vec<usize>,
        eventful_index: usize,
        rng: &mut StdRng,
    ) -> (events: Vec<EventGeneration<Event>>)
        requires
            old(self).wf(),
            old(self).fits(topology, direction_change, link_delays),
            old(self).choices_fit(choices),
            old(self).times_below_max(),
            old(self).output_priorize_lowest_label ==> old(self).labels_in_window(choices),
            old(self).last_process_at_cycle matches Some(last) ==> last < cycle,
            old(self).sizes.output_buffer_size > 0 ==> old(self).buffered_ready(choices),
        ensures
            final(self).wf(),
            final(self).last_process_at_cycle == Some(cycle),
            exists|order: Seq<PortRequest>, states: Seq<Basic>, sents: Seq<Option<usize>>, port_evs: Seq<Seq<EventGeneration<Event>>>|
                #[trigger] old(self).cycle_outcome(&*final(self), choices, topology, direction_change, link_delays, cycle, eventful_index,
                    order, states, sents, port_evs, events@),
    {
        let ghost pre = *self;
        let undecided = self.has_undecided();
        let order = self.request_phase(cycle, choices, topology, rng);
        let ghost granted = *self;
        proof {
            if pre.sizes.output_buffer_size > 0 {
                lemma_granted_ready(&pre, &granted, choices, topology, cycle, order@);
            }
        }
        let (mut events, Ghost(states), Ghost(sents), Ghost(port_evs)) = self.transmit_all(cycle, topology, direction_change, link_delays, rng);
        let request_len = order.len();
        proof {
            lemma_same_elements_len(order@, pre.requests_upto(choices, pre.num_ports()));
        }
        let ghost sent_events = events@;
        let repeat = undecided || events.len() > 0 || request_len > 0;
        if repeat {
            events.push(EventGeneration { delay: 1, position: CyclePosition::End, event: Event::Generic(eventful_index) });
        }
        proof {
            assert(sent_events == ports_events(port_evs, pre.num_ports()));
            assert(repeat == (sent_events.len() > 0 || pre.requests_upto(choices, pre.num_ports()).len() > 0
                || exists|p: int, v: int| 0 <= p < pre.num_ports() && 0 <= v < pre.nvc() && #[trigger] pre.undecided(p, v)));
            assert(events@ == sent_events + if repeat { seq![repeat_event(eventful_index)] } else { Seq::<EventGeneration<Event>>::empty() });
            let ports = pre.num_ports();
            assert(states.len() == ports + 1);
            assert(sents.len() == ports);
            assert(pre.granted(&states[0], choices, topology, cycle, order@));
            assert(ports_processed(states, sents, port_evs, ports, direction_change, topology, link_delays, cycle));
            assert(*self == states[ports]);
            assert(pre.cycle_outcome(&*self, choices, topology, direction_change, link_delays, cycle, eventful_index, order@, states, sents,
                port_evs, events@));
        }
        events
    }
}

///Two sequences with the same elements are both empty or both not.
proof fn lemma_same_elements_len(a: Seq<PortRequest>, b: Seq<PortRequest>)
    requires
        same_elements(a, b),
    ensures
        (a.len() > 0) == (b.len() > 0),
{
    if a.len() > 0 {
        assert(a.contains(a[0]));
    }
    if b.len() > 0 {
        assert(b.contains(b[0]));
    }
}

///The requests depend only on the inputs, the selections and the credits.
proof fn lemma_requests_same(r1: &Basic, r2: &Basic, choices: &Vec<Vec<Option<(usize, usize, i32)>>>, k: int)
    requires
        r1.reception_port_space == r2.reception_port_space,
        r1.selected_output == r2.selected_output,
        r1.selected_input == r2.selected_input,
        r1.transmission_port_status == r2.transmission_port_status,
    ensures
        r1.requests_upto(choices, k) == r2.requests_upto(choices, k),
    decreases k,
{
    if k > 0 {
        lemma_requests_same(r1, r2, choices, k - 1);
        lemma_port_requests_same(r1, r2, choices, k - 1, r1.nvc());
    }
}

proof fn lemma_port_requests_same(r1: &Basic, r2: &Basic, choices: &Vec<Vec<Option<(usize, usize, i32)>>>, p: int, k: int)
    requires
        r1.reception_port_space == r2.reception_port_space,
        r1.selected_output == r2.selected_output,
        r1.selected_input == r2.selected_input,
        r1.transmission_port_status == r2.transmission_port_status,
    ensures
        r1.requests_of_port(choices, p, k) == r2.requests_of_port(choices, p, k),
    decreases k,
{
    if k > 0 {
        lemma_port_requests_same(r1, r2, choices, p, k - 1);
    }
}

///The events of the first `k` ports depend only on the events of those ports.
proof fn lemma_ports_events_prefix(e1: Seq<Seq<EventGeneration<Event>>>, e2: Seq<Seq<EventGeneration<Event>>>, k: int)
    requires
        0 <= k <= e1.len(),
        k <= e2.len(),
        forall|q: int| 0 <= q < k ==> e1[q] == e2[q],
    ensures
        ports_events(e1, k) == ports_events(e2, k),
    decreases k,
{
    if k > 0 {
        lemma_ports_events_prefix(e1, e2, k - 1);
        assert(e1[k - 1] == e2[k - 1]);
    }
}


///The credits a new router knows towards each port: those of a full buffer towards routers, and no limit towards
///servers, which consume what arrives.
pub open spec fn initial_credits(server_port: bool, buffer_size: usize) -> usize {
    if server_port { usize::MAX } else { buffer_size }
}

impl Basic {
    ///A router with a port for each entry of `server_ports` (true for those that lead to a server), `virtual_channels`
    ///virtual channels per port, empty input buffers, full credits, nothing selected and the port tokens at 0.
    pub fn new(
        router_index: usize,
        server_ports: &Vec<bool>,
        virtual_channel_policies: Vec<VirtualChannelPolicy>,
        virtual_channels: usize,
        buffer_size: usize,
        sizes: BufferSizes,
        bubble: bool,
        intransit_priority: bool,
        allow_request_busy_port: bool,
        output_priorize_lowest_label: bool,
    ) -> (r: Basic)
        requires
            server_ports@.len() > 0,
            0 < virtual_channels <= i64::MAX,
            sizes.flit_size > 0,
            sizes.maximum_packet_size <= usize::MAX / 2,
        ensures
            r.wf(),
            r.router_index == router_index,
            r.virtual_channel_policies@ == virtual_channel_policies@,
            r.bubble == bubble,
            r.sizes == sizes,
            r.buffer_size == buffer_size,
            r.intransit_priority == intransit_priority,
            r.allow_request_busy_port == allow_request_busy_port,
            r.output_priorize_lowest_label == output_priorize_lowest_label,
            r.last_process_at_cycle is None,
            r.num_ports() == server_ports@.len(),
            r.nvc() == virtual_channels,
            forall|p: int, v: int| 0 <= p < r.num_ports() && 0 <= v < r.nvc() ==> {
                &&& #[trigger] r.credits(p, v) == initial_credits(server_ports@[p], buffer_size)
                &&& r.input(p, v).len() == 0
                &&& r.selected_input@[p]@[v] is None
                &&& r.selected_output@[p]@[v] is None
                &&& r.time_at_input_head@[p]@[v] == 0
            },
            forall|p: int| 0 <= p < r.num_ports() ==> (#[trigger] r.reception_port_space@[p]).spec_choices() == Map::<usize, usize>::empty(),
            r.output_arbiter matches OutputArbiter::Token { port_token } && port_token@ == Seq::new(server_ports@.len(), |p: int| 0usize),
            sizes.output_buffer_size > 0 ==> forall|p: int, v: int| 0 <= p < r.num_ports() && 0 <= v < r.nvc() ==> (#[trigger] r.outbuf(p, v)).len() == 0,
            sizes.output_buffer_size == 0 ==> r.output_buffers@.len() == 0,
    {
        let ports = server_ports.len();
        let mut transmission_port_status: Vec<CreditCounterVector> = Vec::new();
        let mut reception_port_space: Vec<ParallelBuffers> = Vec::new();
        let mut selected_input: Vec<Vec<Option<(Rc<Packet>, usize, usize)>>> = Vec::new();
        let mut selected_output: Vec<Vec<Option<(Rc<Packet>, usize, usize)>>> = Vec::new();
        let mut time_at_input_head: Vec<Vec<usize>> = Vec::new();
        let mut port_token: Vec<usize> = Vec::new();
        let mut p: usize = 0;
        while p < ports
            invariant
                ports == server_ports@.len(),
                0 < virtual_channels <= i64::MAX,
                p <= ports,
                transmission_port_status@.len() == p,
                reception_port_space@.len() == p,
                selected_input@.len() == p,
                selected_output@.len() == p,
                time_at_input_head@.len() == p,
                port_token@ == Seq::new(p as nat, |q: int| 0usize),
                forall|q: int| 0 <= q < p ==> {
                    &&& (#[trigger] transmission_port_status@[q]).neighbour_credits@ == Seq::new(virtual_channels as nat,
                        |v: int| initial_credits(server_ports@[q], buffer_size))
                    &&& transmission_port_status@[q].flit_size == sizes.flit_size
                    &&& reception_port_space@[q].space_inv()
                    &&& reception_port_space@[q].spec_buffers() == Seq::new(virtual_channels as nat, |v: int| Seq::<Rc<Phit>>::empty())
                    &&& reception_port_space@[q].spec_choices() == Map::<usize, usize>::empty()
                    &&& selected_input@[q]@ == Seq::new(virtual_channels as nat, |v: int| None::<(Rc<Packet>, usize, usize)>)
                    &&& selected_output@[q]@ == Seq::new(virtual_channels as nat, |v: int| None::<(Rc<Packet>, usize, usize)>)
                    &&& time_at_input_head@[q]@ == Seq::new(virtual_channels as nat, |v: int| 0usize)
                },
            decreases ports - p,
        {
            let credit = if server_ports[p] { usize::MAX } else { buffer_size };
            let mut credits: Vec<usize> = Vec::new();
            let mut sel_in: Vec<Option<(Rc<Packet>, usize, usize)>> = Vec::new();
            let mut sel_out: Vec<Option<(Rc<Packet>, usize, usize)>> = Vec::new();
            let mut times: Vec<usize> = Vec::new();
            let mut v: usize = 0;
            while v < virtual_channels
                invariant
                    v <= virtual_channels,
                    credits@ == Seq::new(v as nat, |w: int| credit),
                    sel_in@ == Seq::new(v as nat, |w: int| None::<(Rc<Packet>, usize, usize)>),
                    sel_out@ == Seq::new(v as nat, |w: int| None::<(Rc<Packet>, usize, usize)>),
                    times@ == Seq::new(v as nat, |w: int| 0usize),
                decreases virtual_channels - v,
            {
                credits.push(credit);
                sel_in.push(None);
                sel_out.push(None);
                times.push(0);
                v = v + 1;
                proof {
                    assert(credits@ =~= Seq::new(v as nat, |w: int| credit));
                    assert(sel_in@ =~= Seq::new(v as nat, |w: int| None::<(Rc<Packet>, usize, usize)>));
                    assert(sel_out@ =~= Seq::new(v as nat, |w: int| None::<(Rc<Packet>, usize, usize)>));
                    assert(times@ =~= Seq::new(v as nat, |w: int| 0usize));
                }
            }
            transmission_port_status.push(CreditCounterVector { neighbour_credits: credits, last_transmission: 0, flit_size: sizes.flit_size });
            reception_port_space.push(ParallelBuffers::new(virtual_channels));
            selected_input.push(sel_in);
            selected_output.push(sel_out);
            time_at_input_head.push(times);
            port_token.push(0);
            proof {
                assert(port_token@ =~= Seq::new((p + 1) as nat, |q: int| 0usize));
                assert(credits@ =~= Seq::new(virtual_channels as nat, |w: int| initial_credits(server_ports@[p as int], buffer_size)));
            }
            p = p + 1;
        }
        let mut output_buffers: Vec<Vec<AugmentedBuffer<(usize, usize)>>> = Vec::new();
        if sizes.output_buffer_size > 0 {
            let mut q: usize = 0;
            while q < ports
                invariant
                    q <= ports,
                    output_buffers@.len() == q,
                    forall|a: int| 0 <= a < q ==> (#[trigger] output_buffers@[a])@.len() == virtual_channels,
                    forall|a: int, v: int| 0 <= a < q && 0 <= v < virtual_channels ==> (#[trigger] output_buffers@[a]@[v])@.len() == 0,
                decreases ports - q,
            {
                let mut row: Vec<AugmentedBuffer<(usize, usize)>> = Vec::new();
                let mut v: usize = 0;
                while v < virtual_channels
                    invariant
                        v <= virtual_channels,
                        row@.len() == v,
                        forall|w: int| 0 <= w < v ==> (#[trigger] row@[w])@.len() == 0,
                    decreases virtual_channels - v,
                {
                    row.push(AugmentedBuffer::new());
                    v = v + 1;
                }
                output_buffers.push(row);
                q = q + 1;
            }
        }
        let r = Basic {
            output_buffers,
            virtual_channel_policies,
            router_index,
            bubble,
            sizes,
            buffer_size,
            intransit_priority,
            allow_request_busy_port,
            output_priorize_lowest_label,
            transmission_port_status,
            reception_port_space,
            selected_input,
            selected_output,
            time_at_input_head,
            output_arbiter: OutputArbiter::Token { port_token },
            last_process_at_cycle: None,
        };
        proof {
            assert(r.transmission_port_status@[0].neighbour_credits@.len() == virtual_channels);
            assert forall|q: int| 0 <= q < ports implies (#[trigger] r.reception_port_space@[q]).spec_choices() == Map::<usize, usize>::empty()
                && r.reception_port_space@[q].space_inv()
                && r.reception_port_space@[q].spec_buffers() == Seq::new(virtual_channels as nat, |v: int| Seq::<Rc<Phit>>::empty()) by {
                assert(r.transmission_port_status@[q].flit_size == sizes.flit_size);
            }
            assert forall|q: int, v: int, i: int| 0 <= q < ports && 0 <= v < virtual_channels && 0 <= i < r.reception_port_space@[q].spec_buffers()[v].len()
                implies 0 < (#[trigger] r.reception_port_space@[q].spec_buffers()[v][i]).packet.size <= sizes.maximum_packet_size by {
                assert(r.reception_port_space@[q].spec_buffers()[v].len() == 0);
            }
            assert(r.nvc() == virtual_channels);
            assert(r.num_ports() == ports);
            assert forall|q: int| 0 <= q < ports implies {
                &&& (#[trigger] r.transmission_port_status@[q]).neighbour_credits@.len() == virtual_channels
                &&& r.transmission_port_status@[q].flit_size == r.sizes.flit_size
                &&& r.reception_port_space@[q].space_inv()
                &&& r.reception_port_space@[q].spec_buffers().len() == virtual_channels
                &&& r.selected_input@[q]@.len() == virtual_channels
                &&& r.selected_output@[q]@.len() == virtual_channels
                &&& r.time_at_input_head@[q]@.len() == virtual_channels
            } by {}
            assert forall|q: int, v: int| 0 <= q < ports && 0 <= v < virtual_channels implies (#[trigger] r.selected_input@[q]@[v]) is None by {
                assert(r.transmission_port_status@[q].flit_size == sizes.flit_size);
            }
            assert forall|q: int, v: int| 0 <= q < ports && 0 <= v < virtual_channels implies (#[trigger] r.selected_output@[q]@[v]) is None by {
                assert(r.transmission_port_status@[q].flit_size == sizes.flit_size);
            }
            assert(r.output_arbiter matches OutputArbiter::Token { port_token } ==> port_token@.len() == ports
                && forall|q: int| 0 <= q < ports ==> #[trigger] port_token@[q] < virtual_channels);
            if sizes.output_buffer_size > 0 {
                assert forall|q: int, v: int, i: int| 0 <= q < ports && 0 <= v < virtual_channels && 0 <= i < r.output_buffers@[q]@[v]@.len() implies {
                    &&& 0 < (#[trigger] r.output_buffers@[q]@[v]@[i]).0.packet.size <= sizes.maximum_packet_size
                    &&& r.output_buffers@[q]@[v]@[i].1.0 < ports
                } by {
                    assert(r.output_buffers@[q]@[v]@.len() == 0);
                }
            }
        }
        r
    }
}


impl Basic {
    ///The packet selected for an exit virtual channel has its front phit ready to go through it now.
    pub open spec fn selected_moves(&self, port: int, v: int) -> bool {
        match self.selected_input@[port]@[v] {
            Some((_, ip, ivc)) => self.input(ip as int, ivc as int).len() > 0 && advance_allowed(
                &self.transmission_port_status@[port],
                self.sizes,
                self.buffer_len(port, v),
                *self.input(ip as int, ivc as int)[0],
                v as usize,
                false,
            ),
            None => false,
        }
    }

    ///A port is busy when some packet selected for one of its virtual channels can advance through it now.
    pub open spec fn port_busy(&self, port: int) -> bool {
        exists|v: int| 0 <= v < self.nvc() && #[trigger] self.selected_moves(port, v)
    }

    ///Which ports are busy.
    pub fn busy_ports(&self) -> (busy: Vec<bool>)
        requires
            self.wf(),
        ensures
            busy@.len() == self.num_ports(),
            forall|p: int| 0 <= p < self.num_ports() ==> #[trigger] busy@[p] == self.port_busy(p),
    {
        let ports = self.transmission_port_status.len();
        let nvc = self.transmission_port_status[0].neighbour_credits.len();
        let mut busy: Vec<bool> = Vec::new();
        let mut port: usize = 0;
        while port < ports
            invariant
                self.wf(),
                ports == self.num_ports(),
                nvc == self.nvc(),
                port <= ports,
                busy@.len() == port,
                forall|p: int| 0 <= p < port ==> #[trigger] busy@[p] == self.port_busy(p),
            decreases ports - port,
        {
            let mut is_busy = false;
            let mut v: usize = 0;
            while v < nvc
                invariant
                    self.wf(),
                    ports == self.num_ports(),
                    nvc == self.nvc(),
                    port < ports,
                    v <= nvc,
                    is_busy == exists|w: int| 0 <= w < v && #[trigger] self.selected_moves(port as int, w),
                decreases nvc - v,
            {
                assert(self.transmission_port_status@[port as int].neighbour_credits@.len() == nvc);
                let ghost was = is_busy;
                match &self.selected_input[port][v] {
                    Some(t) => {
                        let ip = t.1;
                        let ivc = t.2;
                        assert(self.selected_input@[port as int]@[v as int] matches Some(t) ==> t.1 < ports && t.2 < nvc);
                        assert(self.transmission_port_status@[ip as int].neighbour_credits@.len() == nvc);
                        match self.reception_port_space[ip].front_virtual_channel(ivc) {
                            Some(phit) => {
                                assert(self.input(ip as int, ivc as int)[0] == phit);
                                assert(phit.packet.size <= self.sizes.maximum_packet_size);
                                let obl = self.output_buffer_len(port, v);
                                if can_phit_advance(&self.transmission_port_status[port], self.sizes, obl, &phit, v, false) {
                                    is_busy = true;
                                }
                            },
                            None => {},
                        }
                    },
                    None => {},
                }
                proof {
                    assert(is_busy == (was || self.selected_moves(port as int, v as int)));
                    if self.selected_moves(port as int, v as int) {
                        assert(exists|w: int| 0 <= w < v + 1 && #[trigger] self.selected_moves(port as int, w));
                    }
                    if was {
                        let w = choose|w: int| 0 <= w < v && #[trigger] self.selected_moves(port as int, w);
                        assert(exists|x: int| 0 <= x < v + 1 && #[trigger] self.selected_moves(port as int, x));
                    }
                    if exists|w: int| 0 <= w < v + 1 && #[trigger] self.selected_moves(port as int, w) {
                        let w = choose|w: int| 0 <= w < v + 1 && #[trigger] self.selected_moves(port as int, w);
                        if w < v {
                            assert(exists|x: int| 0 <= x < v && #[trigger] self.selected_moves(port as int, x));
                        }
                    }
                }
                v = v + 1;
            }
            busy.push(is_busy);
            port = port + 1;
        }
        busy
    }

    ///Whether the router allows a front phit of an entry port to go to a candidate: it can advance through it now, and the
    ///port is not busy with another packet unless requests to busy ports are allowed.
    pub open spec fn allows(&self, direction_change: &Vec<Vec<bool>>, busy: Seq<bool>, entry_port: int, phit: Phit, c: CandidateEgress) -> bool {
        advance_allowed(
            &self.transmission_port_status@[c.port as int],
            self.sizes,
            self.buffer_len(c.port as int, c.virtual_channel as int),
            phit,
            c.virtual_channel,
            self.bubble_in_use(direction_change, phit, entry_port, c.port as int),
        ) && (self.allow_request_busy_port || !busy[c.port as int])
    }

    ///Whether the exit virtual channel of a candidate is free: no packet is selected for it.
    pub open spec fn candidate_free(&self, c: CandidateEgress) -> bool {
        self.selected_input@[c.port as int]@[c.virtual_channel as int] is None
    }

    ///The routing candidates of a front phit, as the router sees them: those of free exit virtual channels, each marked
    ///with whether the router allows it, in their order.
    pub fn mark_candidates(
        &self,
        entry_port: usize,
        phit: &Rc<Phit>,
        candidates: Vec<CandidateEgress>,
        busy: &Vec<bool>,
        direction_change: &Vec<Vec<bool>>,
    ) -> (r: Vec<CandidateEgress>)
        requires
            self.wf(),
            entry_port < self.num_ports(),
            0 < phit.packet.size <= self.sizes.maximum_packet_size,
            busy@.len() == self.num_ports(),
            direction_change@.len() == self.num_ports(),
            forall|p: int| 0 <= p < self.num_ports() ==> (#[trigger] direction_change@[p])@.len() == self.num_ports(),
            forall|i: int| 0 <= i < candidates@.len() ==> (#[trigger] candidates@[i]).port < self.num_ports()
                && candidates@[i].virtual_channel < self.nvc(),
        ensures
            r@.len() == candidates@.filter(|c: CandidateEgress| self.candidate_free(c)).len(),
            forall|i: int| 0 <= i < r@.len() ==> {
                let c = candidates@.filter(|c: CandidateEgress| self.candidate_free(c))[i];
                &&& (#[trigger] r@[i]).port == c.port
                &&& r@[i].virtual_channel == c.virtual_channel
                &&& r@[i].label == c.label
                &&& r@[i].estimated_remaining_hops == c.estimated_remaining_hops
                &&& r@[i].annotation == c.annotation
                &&& r@[i].router_allows == Some(self.allows(direction_change, busy@, entry_port as int, **phit, c))
            },
    {
        let ghost orig = candidates@;
        let ghost free = |c: CandidateEgress| self.candidate_free(c);
        let mut r: Vec<CandidateEgress> = Vec::new();
        let mut rest = candidates;
        let ghost mut i: int = 0;
        while rest.len() > 0
            invariant
                self.wf(),
                entry_port < self.num_ports(),
                0 < phit.packet.size <= self.sizes.maximum_packet_size,
                busy@.len() == self.num_ports(),
                direction_change@.len() == self.num_ports(),
                forall|p: int| 0 <= p < self.num_ports() ==> (#[trigger] direction_change@[p])@.len() == self.num_ports(),
                forall|j: int| 0 <= j < orig.len() ==> (#[trigger] orig[j]).port < self.num_ports() && orig[j].virtual_channel < self.nvc(),
                free == (|c: CandidateEgress| self.candidate_free(c)),
                0 <= i <= orig.len(),
                rest@ == orig.skip(i),
                r@.len() == orig.take(i).filter(free).len(),
                forall|j: int| 0 <= j < r@.len() ==> {
                    let c = orig.take(i).filter(free)[j];
                    &&& (#[trigger] r@[j]).port == c.port
                    &&& r@[j].virtual_channel == c.virtual_channel
                    &&& r@[j].label == c.label
                    &&& r@[j].estimated_remaining_hops == c.estimated_remaining_hops
                    &&& r@[j].annotation == c.annotation
                    &&& r@[j].router_allows == Some(self.allows(direction_change, busy@, entry_port as int, **phit, c))
                },
            decreases rest@.len(),
        {
            let c = take_first_candidate(&mut rest);
            proof {
                assert(c == orig[i]);
                assert(orig.take(i + 1) == orig.take(i).push(c));
                assert(orig.skip(i + 1) == orig.skip(i).drop_first());
                orig.take(i).lemma_filter_push(c, free);
            }
            let nvc = self.transmission_port_status[0].neighbour_credits.len();
            assert(self.transmission_port_status@[c.port as int].neighbour_credits@.len() == nvc);
            if self.selected_input[c.port][c.virtual_channel].is_none() {
                let bubble_in_use = self.bubble && phit.is_begin() && direction_change[entry_port][c.port];
                let obl = self.output_buffer_len(c.port, c.virtual_channel);
                let allowed = if can_phit_advance(&self.transmission_port_status[c.port], self.sizes, obl, phit, c.virtual_channel, bubble_in_use) {
                    if self.allow_request_busy_port { true } else { !busy[c.port] }
                } else {
                    false
                };
                r.push(CandidateEgress { router_allows: Some(allowed), ..c });
            }
            proof {
                i = i + 1;
            }
        }
        proof {
            assert(orig.take(orig.len() as int) == orig);
        }
        r
    }
}

///Removes and gives the first candidate.
fn take_first_candidate(v: &mut Vec<CandidateEgress>) -> (x: CandidateEgress)
    requires
        old(v)@.len() > 0,
    ensures
        x == old(v)@[0],
        final(v)@ == old(v)@.drop_first(),
{
    v.remove(0)
}


///The choice of a front phit once the virtual channel policies have narrowed its candidates: none when no candidate is
///left (it may be possible later), else the port, virtual channel and label of the only one.
pub fn choice_from_candidates(candidates: &Vec<CandidateEgress>) -> (r: Option<(usize, usize, i32)>)
    requires
        candidates@.len() <= 1,
    ensures
        candidates@.len() == 0 ==> r is None,
        candidates@.len() == 1 ==> r == Some((candidates@[0].port, candidates@[0].virtual_channel, candidates@[0].label)),
{
    if candidates.len() == 0 {
        None
    } else {
        Some((candidates[0].port, candidates[0].virtual_channel, candidates[0].label))
    }
}


impl Basic {
    ///Receives a phit through a port, of the packet identified by `packet_key`, into the buffers of that port.
    pub fn insert(&mut self, phit: Phit, port: usize, packet_key: usize, rng: &mut StdRng)
        requires
            old(self).wf(),
            port < old(self).num_ports(),
            old(self).reception_port_space@[port as int].can_insert(phit, packet_key),
            phit.packet.size <= old(self).sizes.maximum_packet_size,
        ensures
            final(self).wf(),
            *final(self) == (Basic { reception_port_space: final(self).reception_port_space, ..*old(self) }),
            final(self).reception_port_space@.len() == old(self).reception_port_space@.len(),
            forall|p: int| 0 <= p < old(self).num_ports() && p != port ==> #[trigger] final(self).reception_port_space@[p] == old(self).reception_port_space@[p],
            exists|vc: usize| #[trigger] parallel_insert_outcome(
                old(self).reception_port_space@[port as int].spec_buffers(),
                old(self).reception_port_space@[port as int].spec_choices(),
                final(self).reception_port_space@[port as int].spec_buffers(),
                final(self).reception_port_space@[port as int].spec_choices(),
                phit,
                packet_key,
                vc,
            ),
    {
        let ghost pre = *self;
        assert(pre.transmission_port_status@[port as int].neighbour_credits@.len() == pre.nvc());
        let _ = self.reception_port_space[port].insert(phit, packet_key, rng);
        proof {
            let vc = choose|vc: usize| #[trigger] parallel_insert_outcome(
                pre.reception_port_space@[port as int].spec_buffers(),
                pre.reception_port_space@[port as int].spec_choices(),
                self.reception_port_space@[port as int].spec_buffers(),
                self.reception_port_space@[port as int].spec_choices(),
                phit,
                packet_key,
                vc,
            );
            assert forall|p: int| 0 <= p < pre.num_ports() implies {
                &&& (#[trigger] self.transmission_port_status@[p]).neighbour_credits@.len() == pre.nvc()
                &&& self.transmission_port_status@[p].flit_size == self.sizes.flit_size
                &&& self.reception_port_space@[p].space_inv()
                &&& self.reception_port_space@[p].spec_buffers().len() == pre.nvc()
                &&& self.selected_input@[p]@.len() == pre.nvc()
                &&& self.selected_output@[p]@.len() == pre.nvc()
                &&& self.time_at_input_head@[p]@.len() == pre.nvc()
            } by {
                assert(pre.transmission_port_status@[p].neighbour_credits@.len() == pre.nvc());
            }
            assert forall|p: int, w: int, i: int| 0 <= p < pre.num_ports() && 0 <= w < pre.nvc() && 0 <= i < self.reception_port_space@[p].spec_buffers()[w].len() implies
                0 < (#[trigger] self.reception_port_space@[p].spec_buffers()[w][i]).packet.size <= self.sizes.maximum_packet_size by {
                if p == port && w == vc && i == pre.reception_port_space@[p].spec_buffers()[w].len() {
                    assert(self.reception_port_space@[p].spec_buffers()[w][i] == Rc::new(with_virtual_channel(phit, vc)));
                } else {
                    assert(self.reception_port_space@[p].spec_buffers()[w][i] == pre.reception_port_space@[p].spec_buffers()[w][i]);
                }
            }
        }
    }

    ///Receives an acknowledgement from the neighbour of a port: one more credit for its virtual channel.
    pub fn acknowledge(&mut self, port: usize, message: AcknowledgeMessage)
        requires
            old(self).wf(),
            port < old(self).num_ports(),
            old(self).transmission_port_status@[port as int].accepts(message),
        ensures
            final(self).wf(),
            *final(self) == (Basic { transmission_port_status: final(self).transmission_port_status, ..*old(self) }),
            final(self).transmission_port_status@.len() == old(self).transmission_port_status@.len(),
            forall|p: int| 0 <= p < old(self).num_ports() && p != port ==> #[trigger] final(self).transmission_port_status@[p] == old(self).transmission_port_status@[p],
            ({
                let vc = message.virtual_channel->Some_0 as int;
                final(self).transmission_port_status@[port as int].neighbour_credits@ == old(self).transmission_port_status@[port as int].neighbour_credits@.update(
                    vc, (old(self).credits(port as int, vc) + 1) as usize)
            }),
    {
        let ghost pre = *self;
        self.transmission_port_status[port].acknowledge(message);
        proof {
            assert(self.transmission_port_status@[0].neighbour_credits@.len() == pre.nvc());
            assert forall|p: int| 0 <= p < pre.num_ports() implies {
                &&& (#[trigger] self.transmission_port_status@[p]).neighbour_credits@.len() == pre.nvc()
                &&& self.transmission_port_status@[p].flit_size == self.sizes.flit_size
                &&& self.reception_port_space@[p].space_inv()
                &&& self.reception_port_space@[p].spec_buffers().len() == pre.nvc()
                &&& self.selected_input@[p]@.len() == pre.nvc()
                &&& self.selected_output@[p]@.len() == pre.nvc()
                &&& self.time_at_input_head@[p]@.len() == pre.nvc()
            } by {
                assert(pre.transmission_port_status@[p].neighbour_credits@.len() == pre.nvc());
            }
        }
    }
}


impl Basic {
    ///How many phits the output buffer of a port and virtual channel holds, 0 when there are none.
    pub fn output_buffer_len(&self, port: usize, vc: usize) -> (n: usize)
        requires
            self.wf(),
            port < self.num_ports(),
            vc < self.nvc(),
        ensures
            n == self.buffer_len(port as int, vc as int),
            self.sizes.output_buffer_size > 0 ==> n <= self.sizes.output_buffer_size,
    {
        if self.sizes.output_buffer_size > 0 {
            assert(self.output_buffers@[port as int]@.len() == self.nvc());
            assert(self.output_buffers@[port as int]@[vc as int]@.len() <= self.sizes.output_buffer_size);
            self.output_buffers[port][vc].len()
        } else {
            0
        }
    }
}


///A phit in the middle of the first flit of its packet: it must find credits, since its packet started with a whole flit of them.
pub open spec fn within_first_flit(phit: Phit, flit_size: usize) -> bool {
    0 < phit.index < flit_size
}

///No phit of a sequence is in the middle of the first flit of its packet.
pub open spec fn none_within_first_flit(phits: Seq<Rc<Phit>>, flit_size: usize) -> bool {
    forall|i: int| 0 <= i < phits.len() ==> !within_first_flit(*(#[trigger] phits[i]), flit_size)
}

impl Basic {
    ///The input selected for an exit virtual channel has a phit to move into its output buffer.
    pub open spec fn moves_in(&self, exit_port: int, vc: int) -> bool {
        self.selected_input@[exit_port]@[vc] is Some && self.input(self.selected(exit_port, vc).1 as int, self.selected(exit_port, vc).2 as int).len() > 0
    }

    ///The state after the front phit of the input selected for virtual channel `vc` of an exit port moved into its output
    ///buffer, when there is one: it leaves its input buffer, enters the output buffer with the channel set and the input
    ///recorded, the waiting time of the input is reset, and with the last phit of the packet the selections are released.
    pub open spec fn after_move(&self, new: &Basic, exit_port: int, vc: int) -> bool {
        if self.moves_in(exit_port, vc) {
            let (packet, ip, ivc) = self.selected(exit_port, vc);
            let front = self.selected_front(exit_port, vc);
            let ends = front.index == front.packet.size - 1;
            &&& *new == (Basic {
                reception_port_space: new.reception_port_space,
                output_buffers: new.output_buffers,
                selected_input: new.selected_input,
                selected_output: new.selected_output,
                time_at_input_head: new.time_at_input_head,
                ..*self
            })
            &&& new.reception_port_space@.len() == self.reception_port_space@.len()
            &&& forall|p: int| 0 <= p < self.num_ports() && p != ip ==> #[trigger] new.reception_port_space@[p] == self.reception_port_space@[p]
            &&& new.reception_port_space@[ip as int].spec_buffers() == self.reception_port_space@[ip as int].spec_buffers().update(
                ivc as int, self.input(ip as int, ivc as int).drop_first())
            &&& new.reception_port_space@[ip as int].spec_choices() == self.reception_port_space@[ip as int].spec_choices()
            &&& new.reception_port_space@[ip as int].space_inv()
            &&& new.output_buffers@.len() == self.output_buffers@.len()
            &&& forall|p: int| 0 <= p < self.num_ports() && p != exit_port ==> #[trigger] new.output_buffers@[p] == self.output_buffers@[p]
            &&& new.output_buffers@[exit_port]@.len() == self.output_buffers@[exit_port]@.len()
            &&& forall|w: int| 0 <= w < self.nvc() && w != vc ==> #[trigger] new.output_buffers@[exit_port]@[w] == self.output_buffers@[exit_port]@[w]
            &&& new.outbuf(exit_port, vc) == self.outbuf(exit_port, vc).push((Rc::new(with_virtual_channel(*front, vc as usize)), (ip, ivc)))
            &&& new.selected_input@.len() == self.selected_input@.len()
            &&& forall|p: int| 0 <= p < self.num_ports() && p != exit_port ==> #[trigger] new.selected_input@[p] == self.selected_input@[p]
            &&& new.selected_input@[exit_port]@ == if ends {
                self.selected_input@[exit_port]@.update(vc, None)
            } else {
                self.selected_input@[exit_port]@
            }
            &&& new.selected_output@.len() == self.selected_output@.len()
            &&& forall|p: int| 0 <= p < self.num_ports() && p != ip ==> #[trigger] new.selected_output@[p] == self.selected_output@[p]
            &&& new.selected_output@[ip as int]@ == self.selected_output@[ip as int]@.update(
                ivc as int, if ends { None } else { Some((packet, exit_port as usize, vc as usize)) })
            &&& new.time_at_input_head@.len() == self.time_at_input_head@.len()
            &&& forall|p: int| 0 <= p < self.num_ports() && p != ip ==> #[trigger] new.time_at_input_head@[p] == self.time_at_input_head@[p]
            &&& new.time_at_input_head@[ip as int]@ == self.time_at_input_head@[ip as int]@.update(ivc as int, 0)
        } else {
            *new == *self
        }
    }

    ///The acknowledgement sent back for the phit moved into the output buffer of an exit virtual channel, if one moved.
    pub open spec fn move_events(&self, exit_port: int, vc: int, topology: &TopologyTable, link_delays: &Vec<usize>) -> Seq<EventGeneration<Event>> {
        if self.moves_in(exit_port, vc) {
            seq![ack_event(topology, self.router_index as int, self.selected(exit_port, vc).1 as int, self.selected(exit_port, vc).2, link_delays)]
        } else {
            Seq::empty()
        }
    }

    ///Every output buffer of the exit port that may get a phit this cycle has room for it.
    pub open spec fn moves_fit(&self, exit_port: int) -> bool {
        forall|v: int| 0 <= v < self.nvc() && #[trigger] self.selected_input@[exit_port]@[v] is Some ==>
            self.outbuf(exit_port, v).len() < self.sizes.output_buffer_size
    }

    ///Where a virtual channel of the exit port has no credits, neither its output buffer nor the input selected for it
    ///holds a phit in the middle of the first flit of its packet.
    pub open spec fn transmissions_due(&self, exit_port: int) -> bool {
        forall|v: int| 0 <= v < self.nvc() && #[trigger] self.credits(exit_port, v) == 0 ==> {
            &&& forall|i: int| 0 <= i < self.outbuf(exit_port, v).len() ==> !within_first_flit(*(#[trigger] self.outbuf(exit_port, v)[i]).0, self.sizes.flit_size)
            &&& (self.selected_input@[exit_port]@[v] matches Some(t) ==> none_within_first_flit(self.input(t.1 as int, t.2 as int), self.sizes.flit_size))
        }
    }

    ///The phit at the front of the output buffer of an exit virtual channel can be sent now: with the status of the port as
    ///without output buffers, and the bubble counted from the input it came from.
    pub open spec fn out_can_go(&self, direction_change: &Vec<Vec<bool>>, exit_port: int, vc: int) -> bool {
        self.outbuf(exit_port, vc).len() > 0 && advance_allowed(
            &self.transmission_port_status@[exit_port],
            BufferSizes { output_buffer_size: 0, ..self.sizes },
            0,
            *self.outbuf(exit_port, vc)[0].0,
            vc as usize,
            self.bubble_in_use(direction_change, *self.outbuf(exit_port, vc)[0].0, self.outbuf(exit_port, vc)[0].1.0 as int, exit_port),
        )
    }

    ///The output buffer of an exit virtual channel has the leading phit of a packet at its front.
    pub open spec fn out_begins(&self, exit_port: int, vc: int) -> bool {
        self.outbuf(exit_port, vc).len() > 0 && self.outbuf(exit_port, vc)[0].0.index == 0
    }

    ///The candidates of an exit port among the output buffers of its first `k` virtual channels.
    pub open spec fn out_candidates_upto(&self, direction_change: &Vec<Vec<bool>>, exit_port: int, k: int) -> (Seq<usize>, bool)
        decreases k,
    {
        if k <= 0 {
            (Seq::empty(), false)
        } else {
            let prev = self.out_candidates_upto(direction_change, exit_port, k - 1);
            if self.out_can_go(direction_change, exit_port, k - 1) {
                gathered(prev.0, prev.1, (k - 1) as usize, self.out_begins(exit_port, k - 1))
            } else {
                prev
            }
        }
    }

    ///The state after the exit port sent the front phit of the output buffer of virtual channel `v`: it leaves the buffer,
    ///one credit is spent and the cycle recorded, and the token of the port, if any, points to the channel and moves past
    ///it when the packet ends.
    pub open spec fn after_out_send(&self, new: &Basic, exit_port: int, v: usize, cycle: usize) -> bool {
        let front = self.outbuf(exit_port, v as int)[0].0;
        let ends = front.index == front.packet.size - 1;
        &&& *new == (Basic {
            output_buffers: new.output_buffers,
            transmission_port_status: new.transmission_port_status,
            output_arbiter: new.output_arbiter,
            ..*self
        })
        &&& new.output_buffers@.len() == self.output_buffers@.len()
        &&& forall|p: int| 0 <= p < self.num_ports() && p != exit_port ==> #[trigger] new.output_buffers@[p] == self.output_buffers@[p]
        &&& new.output_buffers@[exit_port]@.len() == self.output_buffers@[exit_port]@.len()
        &&& forall|w: int| 0 <= w < self.nvc() && w != v ==> #[trigger] new.output_buffers@[exit_port]@[w] == self.output_buffers@[exit_port]@[w]
        &&& new.outbuf(exit_port, v as int) == self.outbuf(exit_port, v as int).drop_first()
        &&& new.transmission_port_status@ == self.transmission_port_status@.update(exit_port, CreditCounterVector {
            neighbour_credits: new.transmission_port_status@[exit_port].neighbour_credits,
            last_transmission: cycle,
            flit_size: self.sizes.flit_size,
        })
        &&& new.transmission_port_status@[exit_port].neighbour_credits@ == self.transmission_port_status@[exit_port].neighbour_credits@.update(
            v as int, (self.credits(exit_port, v as int) - 1) as usize)
        &&& match self.output_arbiter {
            OutputArbiter::Random => new.output_arbiter is Random,
            OutputArbiter::Token { port_token } => new.output_arbiter matches OutputArbiter::Token { port_token: t }
                && t@ == port_token@.update(exit_port, if ends { ((v + 1) % (self.nvc() as int)) as usize } else { v }),
        }
    }
}


impl Basic {
    ///The acknowledgements of the moves into the output buffers of the first `k` virtual channels of an exit port, each
    ///taken in the state left by the moves before it.
    pub open spec fn moves_events(mids: Seq<Basic>, exit_port: int, k: int, topology: &TopologyTable, link_delays: &Vec<usize>) -> Seq<EventGeneration<Event>>
        decreases k,
    {
        if k <= 0 {
            Seq::empty()
        } else {
            Self::moves_events(mids, exit_port, k - 1, topology, link_delays) + mids[k - 1].move_events(exit_port, k - 1, topology, link_delays)
        }
    }

    ///What one exit port of a router with output buffers did in a cycle, through the states `mids`: each virtual channel in
    ///order moved the front phit of its selected input into its output buffer, if it had one; then the port sent the front of
    ///one of the output buffers whose phit could go, chosen as `transmit_port_direct` chooses, or nothing if none could.
    pub open spec fn buffered_steps(
        &self,
        new: &Basic,
        exit_port: int,
        sent: Option<usize>,
        cycle: usize,
        direction_change: &Vec<Vec<bool>>,
        topology: &TopologyTable,
        link_delays: &Vec<usize>,
        events: Seq<EventGeneration<Event>>,
        mids: Seq<Basic>,
    ) -> bool {
        let nvc = self.nvc();
        let m = mids[nvc];
        let cand = m.out_candidates_upto(direction_change, exit_port, nvc).0;
        let moved = Self::moves_events(mids, exit_port, nvc, topology, link_delays);
        &&& mids.len() == nvc + 1
        &&& mids[0] == *self
        &&& forall|v: int| 0 <= v < nvc ==> #[trigger] mids[v].after_move(&mids[v + 1], exit_port, v)
        &&& (sent is None <==> cand.len() == 0)
        &&& match sent {
            None => *new == m && events == moved,
            Some(v) => {
                &&& cand.contains(v)
                &&& m.out_can_go(direction_change, exit_port, v as int)
                &&& (m.output_arbiter matches OutputArbiter::Token { port_token } ==> v == token_choice(cand, port_token@[exit_port] as int, nvc))
                &&& m.after_out_send(new, exit_port, v, cycle)
                &&& events == moved + seq![phit_event(topology, m.router_index as int, m.outbuf(exit_port, v as int)[0].1.0 as int, exit_port,
                    m.outbuf(exit_port, v as int)[0].0, link_delays)]
            },
        }
    }

    ///What one exit port of a router with output buffers did in a cycle, as `buffered_steps` describes for some states.
    pub open spec fn after_port_buffered(
        &self,
        new: &Basic,
        exit_port: int,
        sent: Option<usize>,
        cycle: usize,
        direction_change: &Vec<Vec<bool>>,
        topology: &TopologyTable,
        link_delays: &Vec<usize>,
        events: Seq<EventGeneration<Event>>,
    ) -> bool {
        exists|mids: Seq<Basic>| #[trigger] self.buffered_steps(new, exit_port, sent, cycle, direction_change, topology, link_delays, events, mids)
    }

    ///Moves the front phit of the input selected for a virtual channel of an exit port into its output buffer, if there is
    ///one, and generates the acknowledgement towards the input.
    pub fn move_to_output(
        &mut self,
        exit_port: usize,
        vc: usize,
        topology: &TopologyTable,
        link_delays: &Vec<usize>,
        events: &mut Vec<EventGeneration<Event>>,
    )
        requires
            old(self).wf(),
            old(self).sizes.output_buffer_size > 0,
            old(self).links_fit(topology, link_delays),
            exit_port < old(self).num_ports(),
            vc < old(self).nvc(),
            old(self).selected_input@[exit_port as int]@[vc as int] is Some ==> old(self).outbuf(exit_port as int, vc as int).len() < old(self).sizes.output_buffer_size,
        ensures
            final(self).wf(),
            old(self).after_move(&*final(self), exit_port as int, vc as int),
            final(events)@ == old(events)@ + old(self).move_events(exit_port as int, vc as int, topology, link_delays),
    {
        let ghost pre = *self;
        let nvc = self.transmission_port_status[0].neighbour_credits.len();
        assert(self.transmission_port_status@[exit_port as int].neighbour_credits@.len() == nvc);
        if self.selected_input[exit_port][vc].is_none() {
            return;
        }
        let t = self.selected_input[exit_port][vc].as_ref().unwrap();
        let packet = rc_clone(&t.0);
        let ip = t.1;
        let ivc = t.2;
        assert(self.selected_input@[exit_port as int]@[vc as int] matches Some(t) ==> t.1 < self.num_ports() && t.2 < nvc);
        assert(self.transmission_port_status@[ip as int].neighbour_credits@.len() == nvc);
        if self.reception_port_space[ip].front_virtual_channel(ivc).is_none() {
            return;
        }
        let extracted = self.reception_port_space[ip].extract(ivc);
        let phit = match extracted {
            Ok(x) => x.0,
            Err(_) => {
                proof {
                    assert(false);
                }
                return;
            },
        };
        assert(phit == pre.input(ip as int, ivc as int)[0]);
        assert(0 < phit.packet.size <= pre.sizes.maximum_packet_size);
        let ends = phit.is_end();
        let moved = Rc::new(Phit { packet: rc_clone(&phit.packet), index: phit.index, virtual_channel: Some(vc) });
        assert(pre.output_buffers@[exit_port as int]@.len() == nvc);
        self.output_buffers[exit_port][vc].push(moved, (ip, ivc));
        self.time_at_input_head[ip].set(ivc, 0);
        if ends {
            self.selected_input[exit_port].set(vc, None);
            self.selected_output[ip].set(ivc, None);
        } else {
            self.selected_output[ip].set(ivc, Some((packet, exit_port, vc)));
        }
        let (previous_location, previous_class) = topology.neighbour(self.router_index, ip);
        events.push(EventGeneration {
            delay: link_delays[previous_class],
            position: CyclePosition::Begin,
            event: Event::Acknowledge {
                location: previous_location,
                message: AcknowledgeMessage::ack_phit_clear_from_virtual_channel(ivc),
            },
        });
        proof {
            let ports = pre.num_ports();
            assert(self.transmission_port_status@[0].neighbour_credits@.len() == nvc);
            assert forall|p: int| 0 <= p < ports implies {
                &&& (#[trigger] self.transmission_port_status@[p]).neighbour_credits@.len() == nvc
                &&& self.transmission_port_status@[p].flit_size == self.sizes.flit_size
                &&& self.reception_port_space@[p].space_inv()
                &&& self.reception_port_space@[p].spec_buffers().len() == nvc
                &&& self.selected_input@[p]@.len() == nvc
                &&& self.selected_output@[p]@.len() == nvc
                &&& self.time_at_input_head@[p]@.len() == nvc
            } by {
                assert(pre.transmission_port_status@[p].neighbour_credits@.len() == nvc);
            }
            assert forall|p: int, w: int| 0 <= p < ports && 0 <= w < nvc implies
                ((#[trigger] self.selected_input@[p]@[w]) matches Some(t) ==> t.1 < ports && t.2 < nvc) by {
                assert(pre.selected_input@[p]@[w] matches Some(t) ==> t.1 < ports && t.2 < nvc);
            }
            assert forall|p: int, w: int| 0 <= p < ports && 0 <= w < nvc implies
                ((#[trigger] self.selected_output@[p]@[w]) matches Some(t) ==> t.1 < ports && t.2 < nvc) by {
                assert(pre.selected_output@[p]@[w] matches Some(t) ==> t.1 < ports && t.2 < nvc);
            }
            assert forall|p: int, w: int, i: int| 0 <= p < ports && 0 <= w < nvc && 0 <= i < self.reception_port_space@[p].spec_buffers()[w].len() implies
                0 < (#[trigger] self.reception_port_space@[p].spec_buffers()[w][i]).packet.size <= self.sizes.maximum_packet_size by {
                if p == ip && w == ivc {
                    assert(self.reception_port_space@[p].spec_buffers()[w][i] == pre.reception_port_space@[p].spec_buffers()[w][i + 1]);
                } else {
                    assert(self.reception_port_space@[p].spec_buffers()[w][i] == pre.reception_port_space@[p].spec_buffers()[w][i]);
                }
            }
            assert forall|p: int| 0 <= p < ports implies (#[trigger] self.output_buffers@[p])@.len() == nvc by {
                assert(pre.output_buffers@[p]@.len() == nvc);
            }
            assert forall|p: int, w: int| 0 <= p < ports && 0 <= w < nvc implies
                (#[trigger] self.output_buffers@[p]@[w])@.len() <= self.sizes.output_buffer_size by {
                assert(pre.output_buffers@[p]@[w]@.len() <= pre.sizes.output_buffer_size);
            }
            assert forall|p: int, w: int, i: int| 0 <= p < ports && 0 <= w < nvc && 0 <= i < self.output_buffers@[p]@[w]@.len() implies {
                &&& 0 < (#[trigger] self.output_buffers@[p]@[w]@[i]).0.packet.size <= self.sizes.maximum_packet_size
                &&& self.output_buffers@[p]@[w]@[i].1.0 < ports
            } by {
                if p == exit_port && w == vc && i == pre.output_buffers@[p]@[w]@.len() {
                } else {
                    assert(self.output_buffers@[p]@[w]@[i] == pre.output_buffers@[p]@[w]@[i]);
                }
            }
        }
    }
}


impl Basic {
    ///Where the front phit of an output buffer of the exit port is in the middle of the first flit of its packet, its
    ///virtual channel has credits.
    pub open spec fn out_fronts_due(&self, exit_port: int) -> bool {
        forall|v: int| 0 <= v < self.nvc() && self.outbuf(exit_port, v).len() > 0
            && within_first_flit(*(#[trigger] self.outbuf(exit_port, v))[0].0, self.sizes.flit_size) ==> self.credits(exit_port, v) > 0
    }

    ///The virtual channels of an exit port whose output buffer may send this cycle, with those carrying a packet already
    ///in transit before new ones.
    pub fn out_candidates(&self, exit_port: usize, direction_change: &Vec<Vec<bool>>) -> (cand: Vec<usize>)
        requires
            self.wf(),
            self.sizes.output_buffer_size > 0,
            exit_port < self.num_ports(),
            direction_change@.len() == self.num_ports(),
            forall|p: int| 0 <= p < self.num_ports() ==> (#[trigger] direction_change@[p])@.len() == self.num_ports(),
        ensures
            cand@ == self.out_candidates_upto(direction_change, exit_port as int, self.nvc()).0,
    {
        let nvc = self.transmission_port_status[0].neighbour_credits.len();
        let direct = BufferSizes { output_buffer_size: 0, ..self.sizes };
        let mut cand: Vec<usize> = Vec::new();
        let mut in_transit = false;
        let mut v: usize = 0;
        while v < nvc
            invariant
                self.wf(),
                self.sizes.output_buffer_size > 0,
                exit_port < self.num_ports(),
                direction_change@.len() == self.num_ports(),
                forall|p: int| 0 <= p < self.num_ports() ==> (#[trigger] direction_change@[p])@.len() == self.num_ports(),
                nvc == self.nvc(),
                direct == (BufferSizes { output_buffer_size: 0, ..self.sizes }),
                v <= nvc,
                (cand@, in_transit) == self.out_candidates_upto(direction_change, exit_port as int, v as int),
            decreases nvc - v,
        {
            assert(self.transmission_port_status@[exit_port as int].neighbour_credits@.len() == nvc);
            assert(self.output_buffers@[exit_port as int]@.len() == nvc);
            match self.output_buffers[exit_port][v].front() {
                Some(entry) => {
                    let phit = entry.0;
                    let entry_port = (entry.1).0;
                    assert(self.output_buffers@[exit_port as int]@[v as int]@[0] == entry);
                    let begin = phit.is_begin();
                    let bubble_in_use = self.bubble && begin && direction_change[entry_port][exit_port];
                    if can_phit_advance(&self.transmission_port_status[exit_port], direct, 0, &phit, v, bubble_in_use) {
                        gather_candidate(&mut cand, &mut in_transit, v, begin);
                    }
                },
                None => {},
            }
            v = v + 1;
        }
        cand
    }

    ///Sends the front phit of the output buffer of virtual channel `v` through the exit port, and generates its arrival at
    ///the neighbour.
    pub fn send_from_output(
        &mut self,
        exit_port: usize,
        v: usize,
        cycle: usize,
        topology: &TopologyTable,
        link_delays: &Vec<usize>,
        events: &mut Vec<EventGeneration<Event>>,
    )
        requires
            old(self).wf(),
            old(self).sizes.output_buffer_size > 0,
            old(self).links_fit(topology, link_delays),
            exit_port < old(self).num_ports(),
            v < old(self).nvc(),
            old(self).outbuf(exit_port as int, v as int).len() > 0,
            old(self).credits(exit_port as int, v as int) > 0,
        ensures
            final(self).wf(),
            ({
                let front = old(self).outbuf(exit_port as int, v as int)[0].0;
                let ends = front.index == front.packet.size - 1;
                &&& *final(self) == (Basic {
                    output_buffers: final(self).output_buffers,
                    transmission_port_status: final(self).transmission_port_status,
                    output_arbiter: final(self).output_arbiter,
                    ..*old(self)
                })
                &&& final(self).output_buffers@.len() == old(self).output_buffers@.len()
                &&& forall|p: int| 0 <= p < old(self).num_ports() && p != exit_port ==> #[trigger] final(self).output_buffers@[p] == old(self).output_buffers@[p]
                &&& final(self).output_buffers@[exit_port as int]@.len() == old(self).output_buffers@[exit_port as int]@.len()
                &&& forall|w: int| 0 <= w < old(self).nvc() && w != v ==> #[trigger] final(self).output_buffers@[exit_port as int]@[w] == old(self).output_buffers@[exit_port as int]@[w]
                &&& final(self).outbuf(exit_port as int, v as int) == old(self).outbuf(exit_port as int, v as int).drop_first()
                &&& final(self).transmission_port_status@ == old(self).transmission_port_status@.update(exit_port as int, CreditCounterVector {
                    neighbour_credits: final(self).transmission_port_status@[exit_port as int].neighbour_credits,
                    last_transmission: cycle,
                    flit_size: old(self).sizes.flit_size,
                })
                &&& final(self).transmission_port_status@[exit_port as int].neighbour_credits@ == old(self).transmission_port_status@[exit_port as int].neighbour_credits@.update(
                    v as int, (old(self).credits(exit_port as int, v as int) - 1) as usize)
                &&& match old(self).output_arbiter {
                    OutputArbiter::Random => final(self).output_arbiter is Random,
                    OutputArbiter::Token { port_token } => final(self).output_arbiter matches OutputArbiter::Token { port_token: t }
                        && t@ == if ends { port_token@.update(exit_port as int, ((port_token@[exit_port as int] + 1) % (old(self).nvc() as int)) as usize) } else { port_token@ },
                }
            }),
            final(events)@ == old(events)@ + seq![phit_event(topology, old(self).router_index as int,
                old(self).outbuf(exit_port as int, v as int)[0].1.0 as int, exit_port as int, old(self).outbuf(exit_port as int, v as int)[0].0, link_delays)],
    {
        let ghost pre = *self;
        let nvc = self.transmission_port_status[0].neighbour_credits.len();
        assert(self.transmission_port_status@[exit_port as int].neighbour_credits@.len() == nvc);
        assert(self.output_buffers@[exit_port as int]@.len() == nvc);
        let popped = self.output_buffers[exit_port][v].pop();
        let (phit, entry) = match popped {
            Some(x) => x,
            None => {
                proof {
                    assert(false);
                }
                return;
            },
        };
        let entry_port = entry.0;
        assert(0 < phit.packet.size);
        let ends = phit.is_end();
        let (new_location, class) = topology.neighbour(self.router_index, exit_port);
        events.push(EventGeneration {
            delay: link_delays[class],
            position: CyclePosition::Begin,
            event: Event::PhitToLocation {
                phit,
                previous: Location::RouterPort { router_index: self.router_index, router_port: entry_port },
                new: new_location,
            },
        });
        self.transmission_port_status[exit_port].notify_outcoming_phit(v, cycle);
        if ends {
            let mut arbiter = OutputArbiter::Random;
            std::mem::swap(&mut self.output_arbiter, &mut arbiter);
            match arbiter {
                OutputArbiter::Random => {
                    self.output_arbiter = OutputArbiter::Random;
                },
                OutputArbiter::Token { port_token } => {
                    let mut port_token = port_token;
                    let next = advance_token(port_token[exit_port], nvc);
                    port_token.set(exit_port, next);
                    assert(forall|p: int| 0 <= p < port_token@.len() ==> #[trigger] port_token@[p] < nvc);
                    self.output_arbiter = OutputArbiter::Token { port_token };
                },
            }
        }
        proof {
            let ports = pre.num_ports();
            assert(self.transmission_port_status@[0].neighbour_credits@.len() == nvc);
            assert forall|p: int| 0 <= p < ports implies {
                &&& (#[trigger] self.transmission_port_status@[p]).neighbour_credits@.len() == nvc
                &&& self.transmission_port_status@[p].flit_size == self.sizes.flit_size
                &&& self.reception_port_space@[p].space_inv()
                &&& self.reception_port_space@[p].spec_buffers().len() == nvc
                &&& self.selected_input@[p]@.len() == nvc
                &&& self.selected_output@[p]@.len() == nvc
                &&& self.time_at_input_head@[p]@.len() == nvc
            } by {
                assert(pre.transmission_port_status@[p].neighbour_credits@.len() == nvc);
            }
            assert forall|p: int| 0 <= p < ports implies (#[trigger] self.output_buffers@[p])@.len() == nvc by {
                assert(pre.output_buffers@[p]@.len() == nvc);
            }
            assert forall|p: int, w: int| 0 <= p < ports && 0 <= w < nvc implies
                (#[trigger] self.output_buffers@[p]@[w])@.len() <= self.sizes.output_buffer_size by {
                assert(pre.output_buffers@[p]@[w]@.len() <= pre.sizes.output_buffer_size);
            }
            assert forall|p: int, w: int, i: int| 0 <= p < ports && 0 <= w < nvc && 0 <= i < self.output_buffers@[p]@[w]@.len() implies {
                &&& 0 < (#[trigger] self.output_buffers@[p]@[w]@[i]).0.packet.size <= self.sizes.maximum_packet_size
                &&& self.output_buffers@[p]@[w]@[i].1.0 < ports
            } by {
                if p == exit_port && w == v {
                    assert(self.output_buffers@[p]@[w]@[i] == pre.output_buffers@[p]@[w]@[i + 1]);
                } else {
                    assert(self.output_buffers@[p]@[w]@[i] == pre.output_buffers@[p]@[w]@[i]);
                }
            }
        }
    }
}


///Every candidate of an output port, among its output buffers, can go and is among the first `k` virtual channels.
pub proof fn lemma_out_candidates_can_go(router: &Basic, direction_change: &Vec<Vec<bool>>, exit_port: int, k: int)
    requires
        k <= usize::MAX,
    ensures
        forall|i: int| 0 <= i < router.out_candidates_upto(direction_change, exit_port, k).0.len() ==> {
            let v = #[trigger] router.out_candidates_upto(direction_change, exit_port, k).0[i];
            v < k && router.out_can_go(direction_change, exit_port, v as int)
        },
    decreases k,
{
    if k > 0 {
        lemma_out_candidates_can_go(router, direction_change, exit_port, k - 1);
        let prev = router.out_candidates_upto(direction_change, exit_port, k - 1);
        let cur = router.out_candidates_upto(direction_change, exit_port, k);
        assert forall|i: int| 0 <= i < cur.0.len() implies {
            let v = #[trigger] cur.0[i];
            v < k && router.out_can_go(direction_change, exit_port, v as int)
        } by {
            if i < prev.0.len() {
                let w = prev.0[i];
                assert(w < k - 1 && router.out_can_go(direction_change, exit_port, w as int));
            }
            if router.out_can_go(direction_change, exit_port, k - 1) {
                let b = router.out_begins(exit_port, k - 1);
                if prev.1 {
                    if !b {
                        assert(cur.0 == prev.0.push((k - 1) as usize));
                        if i < prev.0.len() {
                            assert(cur.0[i] == prev.0[i]);
                        }
                    } else {
                        assert(cur.0 == prev.0);
                    }
                } else {
                    if b {
                        assert(cur.0 == prev.0.push((k - 1) as usize));
                        if i < prev.0.len() {
                            assert(cur.0[i] == prev.0[i]);
                        }
                    } else {
                        assert(cur.0 == seq![(k - 1) as usize]);
                    }
                }
            } else {
                assert(cur.0 == prev.0);
            }
        }
    }
}

impl Basic {
    ///For one output port of a router with output buffers: moves the front phit of each selected input into its output
    ///buffer, then decides which output buffer actually uses the port this cycle and sends its front phit.
    #[verifier::rlimit(40)]
    pub fn transmit_port_buffered(
        &mut self,
        exit_port: usize,
        cycle: usize,
        topology: &TopologyTable,
        direction_change: &Vec<Vec<bool>>,
        link_delays: &Vec<usize>,
        rng: &mut StdRng,
        events: &mut Vec<EventGeneration<Event>>,
    ) -> (sent: Option<usize>)
        requires
            old(self).wf(),
            old(self).sizes.output_buffer_size > 0,
            old(self).fits(topology, direction_change, link_delays),
            exit_port < old(self).num_ports(),
            old(self).moves_fit(exit_port as int),
            old(self).transmissions_due(exit_port as int),
        ensures
            final(self).wf(),
            final(self).router_index == old(self).router_index,
            final(self).num_ports() == old(self).num_ports(),
            final(self).last_process_at_cycle == old(self).last_process_at_cycle,
            final(events)@.len() >= old(events)@.len(),
            final(events)@.take(old(events)@.len() as int) == old(events)@,
            old(self).after_port_buffered(&*final(self), exit_port as int, sent, cycle, direction_change, topology, link_delays,
                final(events)@.skip(old(events)@.len() as int)),
            final(self).sizes == old(self).sizes,
            final(self).nvc() == old(self).nvc(),
            final(self).selected_input@.len() == old(self).selected_input@.len(),
            forall|p: int| 0 <= p < old(self).num_ports() && p != exit_port ==> #[trigger] final(self).selected_input@[p] == old(self).selected_input@[p],
            forall|p: int| 0 <= p < old(self).num_ports() && p != exit_port ==> #[trigger] final(self).output_buffers@[p] == old(self).output_buffers@[p],
            forall|p: int| 0 <= p < old(self).num_ports() && p != exit_port ==> #[trigger] final(self).transmission_port_status@[p] == old(self).transmission_port_status@[p],
            forall|p: int, w: int| 0 <= p < old(self).num_ports() && 0 <= w < old(self).nvc()
                && none_within_first_flit(old(self).input(p, w), old(self).sizes.flit_size) ==>
                none_within_first_flit(#[trigger] final(self).input(p, w), old(self).sizes.flit_size),
    {
        let ghost s0 = *self;
        let ghost ev0 = events@;
        let nvc = self.transmission_port_status[0].neighbour_credits.len();
        let ghost mut mids: Seq<Basic> = seq![s0];
        let mut v: usize = 0;
        while v < nvc
            invariant
                self.wf(),
                self.sizes == s0.sizes,
                self.sizes.output_buffer_size > 0,
                self.fits(topology, direction_change, link_delays),
                self.router_index == s0.router_index,
                self.num_ports() == s0.num_ports(),
                self.last_process_at_cycle == s0.last_process_at_cycle,
                exit_port < s0.num_ports(),
                nvc == s0.nvc(),
                nvc == self.nvc(),
                v <= nvc,
                mids.len() == v + 1,
                mids[0] == s0,
                mids[v as int] == *self,
                forall|w: int| 0 <= w < v ==> #[trigger] mids[w].after_move(&mids[w + 1], exit_port as int, w),
                events@ == ev0 + Self::moves_events(mids, exit_port as int, v as int, topology, link_delays),
                forall|w: int| v <= w < nvc && #[trigger] self.selected_input@[exit_port as int]@[w] is Some ==>
                    self.outbuf(exit_port as int, w).len() < self.sizes.output_buffer_size,
                self.transmission_port_status == s0.transmission_port_status,
                self.output_arbiter == s0.output_arbiter,
                forall|p: int| 0 <= p < s0.num_ports() && p != exit_port ==> #[trigger] self.selected_input@[p] == s0.selected_input@[p],
                forall|p: int| 0 <= p < s0.num_ports() && p != exit_port ==> #[trigger] self.output_buffers@[p] == s0.output_buffers@[p],
                forall|p: int, w: int| 0 <= p < s0.num_ports() && 0 <= w < nvc
                    && none_within_first_flit(s0.input(p, w), s0.sizes.flit_size) ==>
                    none_within_first_flit(#[trigger] self.input(p, w), s0.sizes.flit_size),
            decreases nvc - v,
        {
            let ghost before = *self;
            let ghost ev_before = events@;
            assert(before.selected_input@[exit_port as int]@[v as int] is Some ==> before.outbuf(exit_port as int, v as int).len() < before.sizes.output_buffer_size);
            self.move_to_output(exit_port, v, topology, link_delays, events);
            proof {
                assert(before.after_move(&*self, exit_port as int, v as int));
                if before.moves_in(exit_port as int, v as int) {
                    let (pk, ip, ivc) = before.selected(exit_port as int, v as int);
                    assert forall|p: int, w: int| 0 <= p < s0.num_ports() && 0 <= w < nvc
                        && none_within_first_flit(s0.input(p, w), s0.sizes.flit_size) implies
                        none_within_first_flit(#[trigger] self.input(p, w), s0.sizes.flit_size) by {
                        assert(none_within_first_flit(before.input(p, w), s0.sizes.flit_size));
                        if p == ip && w == ivc {
                            assert(before.reception_port_space@[ip as int].spec_buffers().len() == nvc) by {
                                assert(before.transmission_port_status@[ip as int].neighbour_credits@.len() == nvc);
                            }
                            assert(self.input(p, w) == before.input(p, w).drop_first());
                            assert forall|i: int| 0 <= i < self.input(p, w).len() implies !within_first_flit(*(#[trigger] self.input(p, w)[i]), s0.sizes.flit_size) by {
                                assert(self.input(p, w)[i] == before.input(p, w)[i + 1]);
                            }
                        } else if p != ip as int {
                            assert(self.reception_port_space@[p] == before.reception_port_space@[p]);
                        } else {
                            assert(w != ivc as int);
                            assert(before.reception_port_space@[ip as int].spec_buffers().len() == nvc) by {
                                assert(before.transmission_port_status@[ip as int].neighbour_credits@.len() == nvc);
                            }
                            assert(self.reception_port_space@[p].spec_buffers()[w] == before.reception_port_space@[p].spec_buffers()[w]);
                            assert(self.input(p, w) == before.input(p, w));
                        }
                    }
                }
                if before.moves_in(exit_port as int, v as int) {
                    assert forall|p: int| 0 <= p < s0.num_ports() && p != exit_port implies #[trigger] self.selected_input@[p] == s0.selected_input@[p] by {
                        assert(self.selected_input@[p] == before.selected_input@[p]);
                    }
                    assert forall|p: int| 0 <= p < s0.num_ports() && p != exit_port implies #[trigger] self.output_buffers@[p] == s0.output_buffers@[p] by {
                        assert(self.output_buffers@[p] == before.output_buffers@[p]);
                    }
                }
                let old_mids = mids;
                mids = mids.push(*self);
                assert forall|w: int| 0 <= w < v + 1 implies #[trigger] mids[w].after_move(&mids[w + 1], exit_port as int, w) by {
                    if w < v {
                        assert(mids[w] == old_mids[w]);
                        assert(mids[w + 1] == old_mids[w + 1]);
                    }
                }
                lemma_moves_events_prefix(old_mids, mids, exit_port as int, v as int, topology, link_delays);
                assert(mids[v as int] == before);
                assert(events@ == ev0 + Self::moves_events(mids, exit_port as int, v + 1, topology, link_delays));
                assert forall|w: int| v + 1 <= w < nvc && #[trigger] self.selected_input@[exit_port as int]@[w] is Some implies
                    self.outbuf(exit_port as int, w).len() < self.sizes.output_buffer_size by {
                    assert(before.after_move(&*self, exit_port as int, v as int));
                    if before.moves_in(exit_port as int, v as int) {
                        let row = before.selected_input@[exit_port as int]@;
                        assert(before.transmission_port_status@[exit_port as int].neighbour_credits@.len() == nvc);
                        assert(row.len() == nvc);
                        assert(self.selected_input@[exit_port as int]@ == row.update(v as int, None) || self.selected_input@[exit_port as int]@ == row);
                        assert(self.selected_input@[exit_port as int]@[w] == before.selected_input@[exit_port as int]@[w]);
                        assert(self.output_buffers@[exit_port as int]@[w] == before.output_buffers@[exit_port as int]@[w]);
                    } else {
                        assert(*self == before);
                    }
                }
            }
            v = v + 1;
        }
        let ghost m = *self;
        let ghost ev_moved = events@;
        let cand = self.out_candidates(exit_port, direction_change);
        proof {
            lemma_out_candidates_can_go(&m, direction_change, exit_port as int, nvc as int);
        }
        let sent = if cand.len() > 0 {
            let v = self.choose_virtual_channel(exit_port, &cand, rng);
            let ghost m1 = *self;
            proof {
                let k = choose|k: int| 0 <= k < cand@.len() && #[trigger] cand@[k] == v;
                assert(m.out_can_go(direction_change, exit_port as int, v as int));
                assert(m.transmission_port_status@[exit_port as int].flit_size == m.sizes.flit_size);
                assert(m1.outbuf(exit_port as int, v as int) == m.outbuf(exit_port as int, v as int));
            }
            self.send_from_output(exit_port, v, cycle, topology, link_delays, events);
            proof {
                if let OutputArbiter::Token { port_token } = m.output_arbiter {
                    let f = m.outbuf(exit_port as int, v as int)[0].0;
                    if f.index == f.packet.size - 1 {
                        assert(port_token@.update(exit_port as int, v).update(exit_port as int, ((v + 1) % (m.nvc() as int)) as usize)
                            =~= port_token@.update(exit_port as int, ((v + 1) % (m.nvc() as int)) as usize));
                    }
                }
                assert(m.after_out_send(&*self, exit_port as int, v, cycle));
            }
            Some(v)
        } else {
            None
        };
        proof {
            assert(self.reception_port_space == m.reception_port_space);
            assert(self.selected_input == m.selected_input);
            assert forall|p: int, w: int| 0 <= p < s0.num_ports() && 0 <= w < s0.nvc()
                && none_within_first_flit(s0.input(p, w), s0.sizes.flit_size) implies
                none_within_first_flit(#[trigger] self.input(p, w), s0.sizes.flit_size) by {
                assert(self.input(p, w) == m.input(p, w));
            }
            assert(m.transmission_port_status == s0.transmission_port_status);
            assert forall|p: int| 0 <= p < s0.num_ports() && p != exit_port implies #[trigger] self.selected_input@[p] == s0.selected_input@[p] by {
                assert(m.selected_input@[p] == s0.selected_input@[p]);
            }
            assert forall|p: int| 0 <= p < s0.num_ports() && p != exit_port implies #[trigger] self.output_buffers@[p] == s0.output_buffers@[p] by {
                assert(m.output_buffers@[p] == s0.output_buffers@[p]);
                assert(self.output_buffers@[p] == m.output_buffers@[p]);
            }
            assert forall|p: int| 0 <= p < s0.num_ports() && p != exit_port implies #[trigger] self.transmission_port_status@[p] == s0.transmission_port_status@[p] by {
                assert(self.transmission_port_status@[p] == m.transmission_port_status@[p]);
            }
            assert(events@.take(ev0.len() as int) =~= ev0);
            assert(events@.skip(ev0.len() as int) =~= events@.subrange(ev0.len() as int, events@.len() as int));
            let evs = events@.skip(ev0.len() as int);
            let nv = s0.nvc();
            assert(mids.len() == nv + 1);
            assert(mids[0] == s0);
            assert(mids[nv] == m);
            let cand_s = m.out_candidates_upto(direction_change, exit_port as int, nv).0;
            assert(sent is None <==> cand_s.len() == 0);
            match sent {
                None => {
                    assert(*self == m);
                    assert(evs == Self::moves_events(mids, exit_port as int, nv, topology, link_delays));
                },
                Some(v) => {
                    assert(cand_s.contains(v));
                    assert(m.out_can_go(direction_change, exit_port as int, v as int));
                    assert(m.after_out_send(&*self, exit_port as int, v, cycle));
                    assert(evs == Self::moves_events(mids, exit_port as int, nv, topology, link_delays) + seq![phit_event(topology, m.router_index as int, m.outbuf(exit_port as int, v as int)[0].1.0 as int, exit_port as int,
                        m.outbuf(exit_port as int, v as int)[0].0, link_delays)]);
                },
            }
            assert(s0.buffered_steps(&*self, exit_port as int, sent, cycle, direction_change, topology, link_delays,
                events@.skip(ev0.len() as int), mids));
        }
        sent
    }
}

///The acknowledgements of the first `k` moves depend only on the first `k` states.
proof fn lemma_moves_events_prefix(m1: Seq<Basic>, m2: Seq<Basic>, exit_port: int, k: int, topology: &TopologyTable, link_delays: &Vec<usize>)
    requires
        0 <= k <= m1.len(),
        k <= m2.len(),
        forall|q: int| 0 <= q < k ==> m1[q] == m2[q],
    ensures
        Basic::moves_events(m1, exit_port, k, topology, link_delays) == Basic::moves_events(m2, exit_port, k, topology, link_delays),
    decreases k,
{
    if k > 0 {
        lemma_moves_events_prefix(m1, m2, exit_port, k - 1, topology, link_delays);
        assert(m1[k - 1] == m2[k - 1]);
    }
}


impl Basic {
    ///Some front phit asks, this cycle, to go to an exit virtual channel.
    pub open spec fn targeted(&self, choices: &Vec<Vec<Option<(usize, usize, i32)>>>, exit_port: int, vc: int) -> bool {
        exists|p: int, w: int| 0 <= p < self.num_ports() && 0 <= w < self.nvc()
            && ((#[trigger] self.request_target(choices, p, w)) matches Some(t) && t.0 == exit_port && t.1 == vc)
    }

    ///A router with output buffers is ready for a cycle with these choices: every output buffer that may get a phit this
    ///cycle (its channel already has a packet selected, or has credits and is asked for) has room for it; and where a
    ///channel has no credits, neither its output buffer nor the input selected for it holds a phit in the middle of the
    ///first flit of its packet.
    pub open spec fn buffered_ready(&self, choices: &Vec<Vec<Option<(usize, usize, i32)>>>) -> bool {
        forall|e: int, v: int| 0 <= e < self.num_ports() && 0 <= v < self.nvc() ==> {
            &&& ((#[trigger] self.selected_input@[e]@[v]) is Some || (self.credits(e, v) > 0 && self.targeted(choices, e, v)))
                ==> self.outbuf(e, v).len() < self.sizes.output_buffer_size
            &&& self.credits(e, v) == 0 ==> {
                &&& forall|i: int| 0 <= i < self.outbuf(e, v).len() ==> !within_first_flit(*(#[trigger] self.outbuf(e, v)[i]).0, self.sizes.flit_size)
                &&& (self.selected_input@[e]@[v] matches Some(t) ==> none_within_first_flit(self.input(t.1 as int, t.2 as int), self.sizes.flit_size))
            }
        }
    }
}

///The exit ports after the one just processed stay ready: processing a port keeps the other ports' selections, output
///buffers and credits, and only removes phits from the inputs.
proof fn lemma_ports_ready_kept(before: &Basic, after: &Basic, q: int)
    requires
        before.wf(),
        before.sizes.output_buffer_size > 0,
        0 <= q < before.num_ports(),
        before.ports_ready(q),
        after.sizes == before.sizes,
        after.nvc() == before.nvc(),
        after.num_ports() == before.num_ports(),
        forall|p: int| 0 <= p < before.num_ports() && p != q ==> #[trigger] after.selected_input@[p] == before.selected_input@[p],
        forall|p: int| 0 <= p < before.num_ports() && p != q ==> #[trigger] after.output_buffers@[p] == before.output_buffers@[p],
        forall|p: int| 0 <= p < before.num_ports() && p != q ==> #[trigger] after.transmission_port_status@[p] == before.transmission_port_status@[p],
        forall|p: int, w: int| 0 <= p < before.num_ports() && 0 <= w < before.nvc()
            && none_within_first_flit(before.input(p, w), before.sizes.flit_size) ==>
            none_within_first_flit(#[trigger] after.input(p, w), before.sizes.flit_size),
    ensures
        after.ports_ready(q + 1),
{
    assert forall|r: int| q + 1 <= r < after.num_ports() implies #[trigger] after.port_ready(r) by {
        assert(before.port_ready(r));
        assert(after.selected_input@[r] == before.selected_input@[r]);
        assert(after.output_buffers@[r] == before.output_buffers@[r]);
        assert(after.transmission_port_status@[r] == before.transmission_port_status@[r]);
        assert forall|v: int| 0 <= v < after.nvc() && #[trigger] after.credits(r, v) == 0 implies {
            &&& forall|i: int| 0 <= i < after.outbuf(r, v).len() ==> !within_first_flit(*(#[trigger] after.outbuf(r, v)[i]).0, after.sizes.flit_size)
            &&& (after.selected_input@[r]@[v] matches Some(t) ==> none_within_first_flit(after.input(t.1 as int, t.2 as int), after.sizes.flit_size))
        } by {
            assert(before.credits(r, v) == 0);
            if let Some(t) = after.selected_input@[r]@[v] {
                assert(before.selected_input@[r]@[v] matches Some(t) ==> t.1 < before.num_ports() && t.2 < before.nvc());
                assert(none_within_first_flit(before.input(t.1 as int, t.2 as int), before.sizes.flit_size));
            }
        }
    }
}

///Every request of the first `k` ports is that of its input's target, which has credits.
proof fn lemma_requests_targets(router: &Basic, choices: &Vec<Vec<Option<(usize, usize, i32)>>>, k: int)
    requires
        router.wf(),
        router.choices_fit(choices),
        0 <= k <= router.num_ports(),
    ensures
        forall|i: int| 0 <= i < router.requests_upto(choices, k).len() ==> {
            let r = #[trigger] router.requests_upto(choices, k)[i];
            &&& router.request_target(choices, r.entry_port as int, r.entry_vc as int) == Some((r.requested_port, r.requested_vc, r.label))
            &&& router.credits(r.requested_port as int, r.requested_vc as int) > 0
            &&& r.entry_port < router.num_ports()
            &&& r.entry_vc < router.nvc()
        },
    decreases k,
{
    if k > 0 {
        lemma_requests_targets(router, choices, k - 1);
        lemma_port_requests_targets(router, choices, k - 1, router.nvc());
        let a = router.requests_upto(choices, k - 1);
        let b = router.requests_of_port(choices, k - 1, router.nvc());
        assert(router.requests_upto(choices, k) == a + b);
        assert forall|i: int| 0 <= i < (a + b).len() implies {
            let r = #[trigger] (a + b)[i];
            &&& router.request_target(choices, r.entry_port as int, r.entry_vc as int) == Some((r.requested_port, r.requested_vc, r.label))
            &&& router.credits(r.requested_port as int, r.requested_vc as int) > 0
            &&& r.entry_port < router.num_ports()
            &&& r.entry_vc < router.nvc()
        } by {
            if i < a.len() {
                assert((a + b)[i] == a[i]);
            } else {
                assert((a + b)[i] == b[i - a.len()]);
            }
        }
    }
}

proof fn lemma_port_requests_targets(router: &Basic, choices: &Vec<Vec<Option<(usize, usize, i32)>>>, p: int, k: int)
    requires
        router.wf(),
        router.choices_fit(choices),
        0 <= p < router.num_ports(),
        0 <= k <= router.nvc(),
    ensures
        forall|i: int| 0 <= i < router.requests_of_port(choices, p, k).len() ==> {
            let r = #[trigger] router.requests_of_port(choices, p, k)[i];
            &&& router.request_target(choices, r.entry_port as int, r.entry_vc as int) == Some((r.requested_port, r.requested_vc, r.label))
            &&& router.credits(r.requested_port as int, r.requested_vc as int) > 0
            &&& r.entry_port < router.num_ports()
            &&& r.entry_vc < router.nvc()
        },
    decreases k,
{
    if k > 0 {
        lemma_port_requests_targets(router, choices, p, k - 1);
        let a = router.requests_of_port(choices, p, k - 1);
        let b = router.request_of(choices, p, k - 1);
        assert(router.requests_of_port(choices, p, k) == a + b);
        assert forall|i: int| 0 <= i < (a + b).len() implies {
            let r = #[trigger] (a + b)[i];
            &&& router.request_target(choices, r.entry_port as int, r.entry_vc as int) == Some((r.requested_port, r.requested_vc, r.label))
            &&& router.credits(r.requested_port as int, r.requested_vc as int) > 0
            &&& r.entry_port < router.num_ports()
            &&& r.entry_vc < router.nvc()
        } by {
            if i < a.len() {
                assert((a + b)[i] == a[i]);
            } else {
                assert((a + b)[i] == b[i - a.len()]);
            }
        }
    }
}

///After the request phase of a router with output buffers that was ready for its choices, every exit port is ready: a
///new selection comes from a request, whose channel has credits and was asked for.
proof fn lemma_granted_ready(
    pre: &Basic,
    granted: &Basic,
    choices: &Vec<Vec<Option<(usize, usize, i32)>>>,
    topology: &TopologyTable,
    cycle: usize,
    order: Seq<PortRequest>,
)
    requires
        pre.wf(),
        pre.sizes.output_buffer_size > 0,
        pre.choices_fit(choices),
        pre.buffered_ready(choices),
        pre.granted(granted, choices, topology, cycle, order),
    ensures
        granted.ports_ready(0),
{
    lemma_requests_targets(pre, choices, pre.num_ports());
    let reqs = pre.requests_upto(choices, pre.num_ports());
    assert(granted.output_buffers == pre.output_buffers);
    assert(granted.reception_port_space == pre.reception_port_space);
    assert(granted.transmission_port_status == pre.transmission_port_status);
    assert(granted.sizes == pre.sizes);
    assert forall|q: int| 0 <= q < granted.num_ports() implies #[trigger] granted.port_ready(q) by {
        assert forall|v: int| 0 <= v < granted.nvc() && #[trigger] granted.selected_input@[q]@[v] is Some implies
            granted.outbuf(q, v).len() < granted.sizes.output_buffer_size by {
            assert(pre.selected_input@[q]@[v] is Some || (pre.credits(q, v) > 0 && pre.targeted(choices, q, v))) by {
                if pre.selected_input@[q]@[v] is None {
                    lemma_first_claim(order, q, v);
                    let i = choose|i: int| 0 <= i < order.len()
                        && (#[trigger] order[i]).requested_port == q && order[i].requested_vc == v
                        && first_claim(order, q, v)->Some_0 == (order[i].packet, order[i].entry_port, order[i].entry_vc)
                        && forall|j: int| 0 <= j < i ==> !((#[trigger] order[j]).requested_port == q && order[j].requested_vc == v);
                    let r = order[i];
                    assert(order.contains(r));
                    assert(reqs.contains(r));
                    let j = choose|j: int| 0 <= j < reqs.len() && reqs[j] == r;
                    assert(pre.request_target(choices, r.entry_port as int, r.entry_vc as int) == Some((r.requested_port, r.requested_vc, r.label)));
                    assert(pre.targeted(choices, q, v));
                }
            }
        }
        assert forall|v: int| 0 <= v < granted.nvc() && #[trigger] granted.credits(q, v) == 0 implies {
            &&& forall|i: int| 0 <= i < granted.outbuf(q, v).len() ==> !within_first_flit(*(#[trigger] granted.outbuf(q, v)[i]).0, granted.sizes.flit_size)
            &&& (granted.selected_input@[q]@[v] matches Some(t) ==> none_within_first_flit(granted.input(t.1 as int, t.2 as int), granted.sizes.flit_size))
        } by {
            assert(pre.credits(q, v) == 0);
            assert(pre.selected_input@[q]@[v] matches Some(t) ==> none_within_first_flit(pre.input(t.1 as int, t.2 as int), pre.sizes.flit_size));
            assert(granted.outbuf(q, v) == pre.outbuf(q, v));
            assert(forall|i: int| 0 <= i < pre.outbuf(q, v).len() ==> !within_first_flit(*(#[trigger] pre.outbuf(q, v)[i]).0, pre.sizes.flit_size));
            if pre.selected_input@[q]@[v] is None && granted.selected_input@[q]@[v] is Some {
                lemma_first_claim(order, q, v);
                let i = choose|i: int| 0 <= i < order.len()
                    && (#[trigger] order[i]).requested_port == q && order[i].requested_vc == v
                    && first_claim(order, q, v)->Some_0 == (order[i].packet, order[i].entry_port, order[i].entry_vc)
                    && forall|j: int| 0 <= j < i ==> !((#[trigger] order[j]).requested_port == q && order[j].requested_vc == v);
                let r = order[i];
                assert(order.contains(r));
                assert(reqs.contains(r));
                let j = choose|j: int| 0 <= j < reqs.len() && reqs[j] == r;
                assert(pre.credits(r.requested_port as int, r.requested_vc as int) > 0);
            }
        }
    }
}


///Processing the exit ports before `q` keeps the selections of port `q`.
#[verifier::rlimit(60)]
proof fn lemma_row_kept_before(
    states: Seq<Basic>,
    sents: Seq<Option<usize>>,
    port_evs: Seq<Seq<EventGeneration<Event>>>,
    ports: int,
    direction_change: &Vec<Vec<bool>>,
    topology: &TopologyTable,
    link_delays: &Vec<usize>,
    cycle: usize,
    q: int,
    j: int,
)
    requires
        0 <= j <= q < ports,
        states.len() == ports + 1,
        states[0].sizes.output_buffer_size == 0,
        states[0].num_ports() == ports,
        ports_processed(states, sents, port_evs, ports, direction_change, topology, link_delays, cycle),
    ensures
        states[j].selected_input@[q] == states[0].selected_input@[q],
        states[j].sizes == states[0].sizes,
        states[j].num_ports() == ports,
    decreases j,
{
    if j > 0 {
        lemma_row_kept_before(states, sents, port_evs, ports, direction_change, topology, link_delays, cycle, q, j - 1);
        let k = j - 1;
        assert(states[k].sizes.output_buffer_size == 0);
        let sk = states[k];
        let sj = states[j];
        assert(sk.after_port(&sj, k, sents[k], cycle));
        assert(sj.selected_input@[q] == sk.selected_input@[q] && sj.sizes == sk.sizes && sj.num_ports() == sk.num_ports()) by {
            reveal(Basic::after_port);
        }
    }
}

///In a cycle of a router without output buffers, an exit virtual channel that had a packet selected keeps that selection
///until its port is processed, and whatever the port sends on that channel then is the front phit of the selected input:
///the phits of a packet keep the channel given to it, and no other packet's phit goes through it meanwhile.
pub proof fn lemma_selected_channel_carries_its_input(
    pre: &Basic,
    new: &Basic,
    choices: &Vec<Vec<Option<(usize, usize, i32)>>>,
    topology: &TopologyTable,
    direction_change: &Vec<Vec<bool>>,
    link_delays: &Vec<usize>,
    cycle: usize,
    eventful_index: usize,
    order: Seq<PortRequest>,
    states: Seq<Basic>,
    sents: Seq<Option<usize>>,
    port_evs: Seq<Seq<EventGeneration<Event>>>,
    events: Seq<EventGeneration<Event>>,
    q: int,
    v: int,
)
    requires
        pre.wf(),
        pre.sizes.output_buffer_size == 0,
        pre.cycle_outcome(new, choices, topology, direction_change, link_delays, cycle, eventful_index, order, states, sents, port_evs, events),
        0 <= q < pre.num_ports(),
        0 <= v < pre.nvc(),
    ensures
        pre.selected_input@[q]@[v] matches Some(t) ==> states[q].selected_input@[q]@[v] == Some(t),
        pre.selected_input@[q]@[v] matches Some(t) ==> (sents[q] == Some(v as usize) ==>
            states[q].selected_front(q, v) == states[q].input(t.1 as int, t.2 as int)[0]),
{
    let ports = pre.num_ports();
    assert(states[0].sizes == pre.sizes);
    assert(states[0].num_ports() == ports);
    lemma_row_kept_before(states, sents, port_evs, ports, direction_change, topology, link_delays, cycle, q, q);
    assert(states[0].selected_input@[q]@[v] == match pre.selected_input@[q]@[v] {
        Some(x) => Some(x),
        None => first_claim(order, q, v),
    });
}

} // verus!
