//! Virtual channel policies: each one filters or relabels the candidate egresses
//! that a routing offers, to select the port and virtual channel to request.

use vstd::prelude::*;
use rand::rngs::StdRng;
use crate::routing::{CandidateEgress, with_label, set_label, take_first};
use crate::topology::{Location, TopologyTable};
use crate::rng::gen_range;

verus! {

broadcast use vstd::seq_lib::group_filter_ensures;

///Extra information to be used by the policies of virtual channels.
#[derive(Debug)]
pub struct RequestInfo {
    ///The index of the router to which the destination server is attached.
    pub target_router_index: usize,
    ///The port for which the packet has entered into the current router.
    pub entry_port: usize,
    ///The virtual_channel the packet used when it entered into the current router.
    pub entry_virtual_channel: usize,
    ///the amount of hops already made by the packet.
    pub performed_hops: usize,
    ///a list of which ports from the current router go to server.
    pub server_ports: Option<Vec<usize>>,
    ///a timestamp for each port of the last time that it was used.
    pub port_last_transmission: Option<Vec<usize>>,
    ///Number of phits currently in the output space of the current router at the indexed port.
    pub port_occupied_output_space: Option<Vec<usize>>,
    ///Number of available phits in the output space of the current router at the indexed port.
    pub port_available_output_space: Option<Vec<usize>>,
    ///Number of phits currently in the output space allocated to a virtual channel. Index by `[port_index][virtual_channel]`.
    pub virtual_channel_occupied_output_space: Option<Vec<Vec<usize>>>,
    ///Number of available phits in the output space allocated to a virtual channel. Index by `[port_index][virtual_channel]`.
    pub virtual_channel_available_output_space: Option<Vec<Vec<usize>>>,
    ///Number of cycles at the front of input space,
    pub time_at_front: Option<usize>,
    ///The current cycle of the simulation.
    pub current_cycle: usize,
}

///What a policy reads of the router making the request.
pub struct RouterView {
    ///The index of the router in the topology.
    pub index: usize,
    ///`available_space[port][vc]`: the space known to be free in the neighbour, as the transmission status of the port tells it.
    pub available_space: Vec<Vec<usize>>,
    ///`maximum_credits[port][vc]`: the most credits there can be towards the neighbour.
    pub maximum_credits: Vec<Vec<usize>>,
}

///Keeps, in order, the candidates for which `f` answers true; `f` answers as `pred`.
pub fn filter_candidates<F: Fn(&CandidateEgress) -> bool>(
    candidates: Vec<CandidateEgress>,
    f: F,
    Ghost(pred): Ghost<spec_fn(CandidateEgress) -> bool>,
) -> (r: Vec<CandidateEgress>)
    requires
        forall|c: CandidateEgress| #[trigger] f.requires((&c,)),
        forall|c: CandidateEgress, b: bool| f.ensures((&c,), b) ==> b == pred(c),
    ensures
        r@ == candidates@.filter(pred),
{
    let ghost orig = candidates@;
    let mut rest = candidates;
    let mut out: Vec<CandidateEgress> = Vec::new();
    let ghost mut i: int = 0;
    while rest.len() > 0
        invariant
            0 <= i <= orig.len(),
            rest@ == orig.skip(i),
            out@ == orig.take(i).filter(pred),
            forall|c: CandidateEgress| #[trigger] f.requires((&c,)),
            forall|c: CandidateEgress, b: bool| f.ensures((&c,), b) ==> b == pred(c),
        decreases rest@.len(),
    {
        let c = take_first(&mut rest);
        proof {
            assert(orig.take(i + 1) == orig.take(i).push(c));
            orig.take(i).lemma_filter_push(c, pred);
            assert(orig.skip(i + 1) == orig.skip(i).drop_first());
        }
        let keep = f(&c);
        if keep {
            out.push(c);
        }
        proof {
            i = i + 1;
        }
    }
    proof {
        assert(orig.take(orig.len() as int) == orig);
    }
    out
}

///Gives each candidate the label `f` computes, which equals `new_label`.
pub fn relabel_candidates<F: Fn(&CandidateEgress) -> i32>(
    candidates: Vec<CandidateEgress>,
    f: F,
    Ghost(new_label): Ghost<spec_fn(CandidateEgress) -> i32>,
) -> (r: Vec<CandidateEgress>)
    requires
        forall|i: int| 0 <= i < candidates@.len() ==> f.requires((&#[trigger] candidates@[i],)),
        forall|c: CandidateEgress, l: i32| f.ensures((&c,), l) ==> l == new_label(c),
    ensures
        r@ == candidates@.map_values(|c: CandidateEgress| with_label(c, new_label(c))),
{
    let ghost orig = candidates@;
    let mut rest = candidates;
    let mut out: Vec<CandidateEgress> = Vec::new();
    let ghost mut i: int = 0;
    while rest.len() > 0
        invariant
            0 <= i <= orig.len(),
            rest@ == orig.skip(i),
            out@ == orig.take(i).map_values(|c: CandidateEgress| with_label(c, new_label(c))),
            forall|k: int| 0 <= k < orig.len() ==> f.requires((&#[trigger] orig[k],)),
            forall|c: CandidateEgress, l: i32| f.ensures((&c,), l) ==> l == new_label(c),
        decreases rest@.len(),
    {
        let c = take_first(&mut rest);
        proof {
            assert(c == orig[i]);
            assert(orig.skip(i + 1) == orig.skip(i).drop_first());
        }
        let l = f(&c);
        out.push(set_label(c, l));
        proof {
            assert(orig.take(i + 1).map_values(|c: CandidateEgress| with_label(c, new_label(c)))
                == orig.take(i).map_values(|c: CandidateEgress| with_label(c, new_label(c))).push(with_label(orig[i], new_label(orig[i]))));
            i = i + 1;
        }
    }
    proof {
        assert(orig.take(orig.len() as int) == orig);
    }
    out
}

///Does not do anything. Just a placeholder for some operations.
#[derive(Debug)]
pub struct Identity {}

impl Identity {
    pub fn new() -> Identity {
        Identity {}
    }

    ///Every candidate is kept.
    pub fn filter(&self, candidates: Vec<CandidateEgress>) -> (r: Vec<CandidateEgress>)
        ensures
            r@ == candidates@,
    {
        candidates
    }

    pub fn need_server_ports(&self) -> (b: bool)
        ensures
            !b,
    {
        false
    }

    pub fn need_port_average_queue_length(&self) -> (b: bool)
        ensures
            !b,
    {
        false
    }

    pub fn need_port_last_transmission(&self) -> (b: bool)
        ensures
            !b,
    {
        false
    }
}

///Request a port+virtual channel at random from all available.
#[derive(Debug)]
pub struct Random {}

impl Random {
    pub fn new() -> Random {
        Random {}
    }

    ///One of the candidates, drawn at random.
    pub fn filter(&self, candidates: Vec<CandidateEgress>, rng: &mut StdRng) -> (r: Vec<CandidateEgress>)
        requires
            candidates@.len() > 0,
        ensures
            r@.len() == 1,
            candidates@.contains(r@[0]),
    {
        let index = gen_range(rng, 0, candidates.len());
        let mut candidates = candidates;
        let ghost orig = candidates@;
        let c = candidates.remove(index);
        proof {
            assert(orig[index as int] == c);
        }
        let mut r: Vec<CandidateEgress> = Vec::new();
        r.push(c);
        r
    }

    pub fn need_server_ports(&self) -> (b: bool)
        ensures
            !b,
    {
        false
    }

    pub fn need_port_average_queue_length(&self) -> (b: bool)
        ensures
            !b,
    {
        false
    }

    pub fn need_port_last_transmission(&self) -> (b: bool)
        ensures
            !b,
    {
        false
    }
}

///The credits known for the port and virtual channel of a candidate.
pub open spec fn candidate_credits(router: &RouterView, c: CandidateEgress) -> usize {
    router.available_space@[c.port as int]@[c.virtual_channel as int]
}

///The port and virtual channel of every candidate exist in the router.
pub open spec fn candidates_in_router(router: &RouterView, s: Seq<CandidateEgress>) -> bool {
    forall|i: int| 0 <= i < s.len() ==> {
        &&& (#[trigger] s[i]).port < router.available_space@.len()
        &&& s[i].virtual_channel < router.available_space@[s[i].port as int]@.len()
    }
}

///The most credits among the candidates, 0 for none.
pub open spec fn max_credits(router: &RouterView, s: Seq<CandidateEgress>) -> usize
    decreases s.len(),
{
    if s.len() == 0 {
        0
    } else {
        let m = max_credits(router, s.drop_last());
        let c = candidate_credits(router, s.last());
        if c > m { c } else { m }
    }
}

proof fn lemma_max_credits_bound(router: &RouterView, s: Seq<CandidateEgress>)
    ensures
        forall|i: int| 0 <= i < s.len() ==> candidate_credits(router, #[trigger] s[i]) <= max_credits(router, s),
    decreases s.len(),
{
    if s.len() > 0 {
        lemma_max_credits_bound(router, s.drop_last());
        assert forall|i: int| 0 <= i < s.len() implies candidate_credits(router, #[trigger] s[i]) <= max_credits(router, s) by {
            if i < s.len() - 1 {
                assert(s[i] == s.drop_last()[i]);
            }
        }
    }
}

///Request the port+virtual channel with more credits. Does not solve ties, so it needs to be followed by Random or something.
#[derive(Debug)]
pub struct Shortest {}

impl Shortest {
    pub fn new() -> Shortest {
        Shortest {}
    }

    ///The candidates with the most known free space in the neighbour, in their order.
    pub fn filter(&self, candidates: Vec<CandidateEgress>, router: &RouterView) -> (r: Vec<CandidateEgress>)
        requires
            candidates_in_router(router, candidates@),
        ensures
            r@ == candidates@.filter(|c: CandidateEgress| candidate_credits(router, c) == max_credits(router, candidates@)),
    {
        let ghost orig = candidates@;
        let mut rest = candidates;
        let mut best: Vec<CandidateEgress> = Vec::new();
        let mut best_credits: usize = 0;
        let ghost mut i: int = 0;
        while rest.len() > 0
            invariant
                0 <= i <= orig.len(),
                rest@ == orig.skip(i),
                candidates_in_router(router, orig),
                best_credits == max_credits(router, orig.take(i)),
                best@ == orig.take(i).filter(|c: CandidateEgress| candidate_credits(router, c) == best_credits),
            decreases rest@.len(),
        {
            let c = take_first(&mut rest);
            proof {
                assert(c == orig[i]);
                assert(orig.take(i + 1) == orig.take(i).push(c));
                assert(orig.take(i + 1).drop_last() == orig.take(i));
                assert(orig.skip(i + 1) == orig.skip(i).drop_first());
            }
            let next_credits = router.available_space[c.port][c.virtual_channel];
            let ghost prev = orig.take(i);
            if next_credits > best_credits {
                best_credits = next_credits;
                best = Vec::new();
                best.push(c);
                proof {
                    lemma_max_credits_bound(router, prev);
                    assert(prev.filter(|x: CandidateEgress| candidate_credits(router, x) == best_credits) =~= Seq::<CandidateEgress>::empty()) by {
                        let e = prev.filter(|x: CandidateEgress| candidate_credits(router, x) == best_credits);
                        if e.len() > 0 {
                            assert(e.contains(e[0]));
                            prev.lemma_filter_contains_rev(|x: CandidateEgress| candidate_credits(router, x) == best_credits, e[0]);
                            let k = choose|k: int| 0 <= k < prev.len() && prev[k] == e[0];
                            assert(candidate_credits(router, prev[k]) <= max_credits(router, prev));
                        }
                    }
                    prev.lemma_filter_push(c, |x: CandidateEgress| candidate_credits(router, x) == best_credits);
                }
            } else if next_credits == best_credits {
                best.push(c);
                proof {
                    prev.lemma_filter_push(c, |x: CandidateEgress| candidate_credits(router, x) == best_credits);
                }
            } else {
                proof {
                    prev.lemma_filter_push(c, |x: CandidateEgress| candidate_credits(router, x) == best_credits);
                }
            }
            proof {
                i = i + 1;
            }
        }
        proof {
            assert(orig.take(orig.len() as int) == orig);
        }
        best
    }

    pub fn need_server_ports(&self) -> (b: bool)
        ensures
            !b,
    {
        false
    }

    pub fn need_port_average_queue_length(&self) -> (b: bool)
        ensures
            !b,
    {
        false
    }

    pub fn need_port_last_transmission(&self) -> (b: bool)
        ensures
            !b,
    {
        false
    }
}

///Whether the port leads to a server, as the request information lists.
pub open spec fn is_server_port(info: &RequestInfo, port: usize) -> bool {
    match info.server_ports {
        Some(v) => v@.contains(port),
        None => false,
    }
}

///Whether a vector holds a value.
fn vec_contains(v: &Vec<usize>, x: usize) -> (b: bool)
    ensures
        b == v@.contains(x),
{
    let mut i: usize = 0;
    while i < v.len()
        invariant
            i <= v@.len(),
            forall|k: int| 0 <= k < i ==> v@[k] != x,
        decreases v@.len() - i,
    {
        if v[i] == x {
            proof {
                assert(v@[i as int] == x);
            }
            return true;
        }
        i = i + 1;
    }
    false
}

///Select virtual channel=packet.hops.
#[derive(Debug)]
pub struct Hops {}

impl Hops {
    pub fn new() -> Hops {
        Hops {}
    }

    ///Keeps the candidates on the virtual channel numbered as the hops made, and those towards servers.
    pub fn filter(&self, candidates: Vec<CandidateEgress>, info: &RequestInfo) -> (r: Vec<CandidateEgress>)
        requires
            info.server_ports is Some,
        ensures
            r@ == candidates@.filter(|c: CandidateEgress| c.virtual_channel == info.performed_hops || is_server_port(info, c.port)),
    {
        let server_ports = match &info.server_ports {
            Some(v) => v,
            None => {
                return Vec::new();
            },
        };
        let hops = info.performed_hops;
        filter_candidates(
            candidates,
            (|c: &CandidateEgress| -> (b: bool)
                ensures
                    b == (c.virtual_channel == hops || server_ports@.contains(c.port)),
                { c.virtual_channel == hops || vec_contains(server_ports, c.port) }),
            Ghost(|c: CandidateEgress| c.virtual_channel == info.performed_hops || is_server_port(info, c.port)),
        )
    }

    pub fn need_server_ports(&self) -> (b: bool)
        ensures
            b,
    {
        true
    }

    pub fn need_port_average_queue_length(&self) -> (b: bool)
        ensures
            !b,
    {
        false
    }

    pub fn need_port_last_transmission(&self) -> (b: bool)
        ensures
            !b,
    {
        false
    }
}

///Discards the candidates that the router has marked as failing its flow control.
#[derive(Debug)]
pub struct EnforceFlowControl {}

impl EnforceFlowControl {
    pub fn new() -> EnforceFlowControl {
        EnforceFlowControl {}
    }

    ///Keeps the candidates not marked as disallowed by the router.
    pub fn filter(&self, candidates: Vec<CandidateEgress>) -> (r: Vec<CandidateEgress>)
        ensures
            r@ == candidates@.filter(|c: CandidateEgress| c.router_allows != Some(false)),
    {
        filter_candidates(
            candidates,
            (|c: &CandidateEgress| -> (b: bool)
                ensures
                    b == (c.router_allows != Some(false)),
                {
                    match c.router_allows {
                        Some(x) => x,
                        None => true,
                    }
                }),
            Ghost(|c: CandidateEgress| c.router_allows != Some(false)),
        )
    }

    pub fn need_server_ports(&self) -> (b: bool)
        ensures
            !b,
    {
        false
    }

    pub fn need_port_average_queue_length(&self) -> (b: bool)
        ensures
            !b,
    {
        false
    }

    pub fn need_port_last_transmission(&self) -> (b: bool)
        ensures
            !b,
    {
        false
    }
}

///Select virtual channel in (width*packet.hops..width*(packet.hops+1)).
#[derive(Debug)]
pub struct WideHops {
    pub width: usize,
}

impl WideHops {
    pub fn new(width: usize) -> (p: WideHops)
        ensures
            p.width == width,
    {
        WideHops { width }
    }

    ///Keeps the candidates on the band of `width` virtual channels of the hop being made, and those towards servers.
    pub fn filter(&self, candidates: Vec<CandidateEgress>, info: &RequestInfo) -> (r: Vec<CandidateEgress>)
        requires
            info.server_ports is Some,
            self.width * (info.performed_hops + 1) <= usize::MAX,
        ensures
            r@ == candidates@.filter(|c: CandidateEgress|
                (self.width * info.performed_hops <= c.virtual_channel && c.virtual_channel < self.width * (info.performed_hops + 1))
                || is_server_port(info, c.port)),
    {
        let server_ports = match &info.server_ports {
            Some(v) => v,
            None => {
                return Vec::new();
            },
        };
        proof {
            assert(self.width * info.performed_hops <= self.width * (info.performed_hops + 1)) by (nonlinear_arith);
            assert(self.width * (info.performed_hops + 1) == self.width * info.performed_hops + self.width) by (nonlinear_arith);
        }
        let lower_limit = self.width * info.performed_hops;
        let upper_limit = lower_limit + self.width;
        filter_candidates(
            candidates,
            (|c: &CandidateEgress| -> (b: bool)
                ensures
                    b == ((lower_limit <= c.virtual_channel && c.virtual_channel < upper_limit) || server_ports@.contains(c.port)),
                { (lower_limit <= c.virtual_channel && c.virtual_channel < upper_limit) || vec_contains(server_ports, c.port) }),
            Ghost(|c: CandidateEgress|
                (self.width * info.performed_hops <= c.virtual_channel && c.virtual_channel < self.width * (info.performed_hops + 1))
                || is_server_port(info, c.port)),
        )
    }

    pub fn need_server_ports(&self) -> (b: bool)
        ensures
            b,
    {
        true
    }

    pub fn need_port_average_queue_length(&self) -> (b: bool)
        ensures
            !b,
    {
        false
    }

    pub fn need_port_last_transmission(&self) -> (b: bool)
        ensures
            !b,
    {
        false
    }
}


///The lowest of some weights, `i32::MAX` for none.
pub open spec fn min_weight(ws: Seq<i32>) -> i32
    decreases ws.len(),
{
    if ws.len() == 0 {
        i32::MAX
    } else {
        let m = min_weight(ws.drop_last());
        if ws.last() < m { ws.last() } else { m }
    }
}

///The candidates, in order, whose weight (at the same position) is `m`.
pub open spec fn with_weight(cs: Seq<CandidateEgress>, ws: Seq<i32>, m: i32) -> Seq<CandidateEgress>
    decreases cs.len(),
{
    if cs.len() == 0 {
        Seq::empty()
    } else {
        let rest = with_weight(cs.drop_last(), ws.take(cs.len() - 1), m);
        if ws[cs.len() - 1] == m { rest.push(cs.last()) } else { rest }
    }
}

///The candidates of lowest weight, in their order.
pub open spec fn lowest_weighted(cs: Seq<CandidateEgress>, ws: Seq<i32>) -> Seq<CandidateEgress> {
    with_weight(cs, ws, min_weight(ws))
}

proof fn lemma_min_weight_bound(ws: Seq<i32>)
    ensures
        forall|i: int| 0 <= i < ws.len() ==> min_weight(ws) <= #[trigger] ws[i],
    decreases ws.len(),
{
    if ws.len() > 0 {
        lemma_min_weight_bound(ws.drop_last());
        assert forall|i: int| 0 <= i < ws.len() implies min_weight(ws) <= #[trigger] ws[i] by {
            if i < ws.len() - 1 {
                assert(ws[i] == ws.drop_last()[i]);
            }
        }
    }
}

proof fn lemma_with_weight_none(cs: Seq<CandidateEgress>, ws: Seq<i32>, m: i32)
    requires
        cs.len() <= ws.len(),
        forall|i: int| 0 <= i < cs.len() ==> #[trigger] ws[i] != m,
    ensures
        with_weight(cs, ws, m) == Seq::<CandidateEgress>::empty(),
    decreases cs.len(),
{
    if cs.len() > 0 {
        let ws2 = ws.take(cs.len() - 1);
        assert forall|i: int| 0 <= i < cs.len() - 1 implies #[trigger] ws2[i] != m by {
            assert(ws2[i] == ws[i]);
        }
        lemma_with_weight_none(cs.drop_last(), ws2, m);
    }
}

proof fn lemma_with_weight_prefix(cs: Seq<CandidateEgress>, ws: Seq<i32>, m: i32)
    requires
        cs.len() <= ws.len(),
    ensures
        with_weight(cs, ws, m) == with_weight(cs, ws.take(cs.len() as int), m),
    decreases cs.len(),
{
    if cs.len() > 0 {
        assert(ws.take(cs.len() as int).take(cs.len() - 1) == ws.take(cs.len() - 1));
    }
}

///Keeps the candidates whose weight is the lowest; ties are all kept, in order.
fn select_lowest(candidates: Vec<CandidateEgress>, weights: Vec<i32>) -> (r: Vec<CandidateEgress>)
    requires
        weights@.len() == candidates@.len(),
    ensures
        r@ == lowest_weighted(candidates@, weights@),
{
    let ghost orig = candidates@;
    let ghost ws = weights@;
    assert(orig.len() == candidates.len());
    let mut rest = candidates;
    let mut best: Vec<CandidateEgress> = Vec::new();
    let mut best_weight: i32 = i32::MAX;
    let mut i: usize = 0;
    while rest.len() > 0
        invariant
            0 <= i <= orig.len(),
            orig.len() <= usize::MAX,
            ws.len() == orig.len(),
            weights@ == ws,
            rest@ == orig.skip(i as int),
            best_weight == min_weight(ws.take(i as int)),
            best@ == with_weight(orig.take(i as int), ws.take(i as int), best_weight),
        decreases rest@.len(),
    {
        proof {
            assert(rest@.len() == orig.len() - i);
        }
        let c = take_first(&mut rest);
        let w = weights[i];
        let ghost prev_c = orig.take(i as int);
        let ghost prev_w = ws.take(i as int);
        proof {
            assert(c == orig[i as int]);
            assert(orig.take(i + 1).drop_last() == prev_c);
            assert(orig.take(i + 1).last() == c);
            assert(ws.take(i + 1).drop_last() == prev_w);
            assert(ws.take(i + 1).take(i as int) == prev_w);
            assert(ws.take(i + 1)[i as int] == w);
            assert(orig.skip(i + 1) == orig.skip(i as int).drop_first());
        }
        if w < best_weight {
            best_weight = w;
            best = Vec::new();
            best.push(c);
            proof {
                lemma_min_weight_bound(prev_w);
                lemma_with_weight_none(prev_c, prev_w, w);
            }
        } else if w == best_weight {
            best.push(c);
        }
        i = i + 1;
    }
    proof {
        assert(orig.take(orig.len() as int) == orig);
        assert(ws.take(ws.len() as int) == ws);
    }
    best
}

///The labels of the candidates, in order.
pub open spec fn labels(cs: Seq<CandidateEgress>) -> Seq<i32> {
    cs.map_values(|c: CandidateEgress| c.label)
}

///Select the egresses with lowest label.
#[derive(Debug)]
pub struct LowestLabel {}

impl LowestLabel {
    pub fn new() -> LowestLabel {
        LowestLabel {}
    }

    ///The candidates of lowest label, in order; all of them when every label is `i32::MAX`.
    pub fn filter(&self, candidates: Vec<CandidateEgress>) -> (r: Vec<CandidateEgress>)
        ensures
            r@ == lowest_weighted(candidates@, labels(candidates@)),
    {
        let mut weights: Vec<i32> = Vec::new();
        let mut i: usize = 0;
        while i < candidates.len()
            invariant
                i <= candidates@.len(),
                weights@ == labels(candidates@.take(i as int)),
            decreases candidates@.len() - i,
        {
            weights.push(candidates[i].label);
            proof {
                assert(candidates@.take(i + 1) == candidates@.take(i as int).push(candidates@[i as int]));
            }
            i = i + 1;
        }
        proof {
            assert(candidates@.take(candidates@.len() as int) == candidates@);
        }
        select_lowest(candidates, weights)
    }

    pub fn need_server_ports(&self) -> (b: bool)
        ensures
            !b,
    {
        false
    }

    pub fn need_port_average_queue_length(&self) -> (b: bool)
        ensures
            !b,
    {
        false
    }

    pub fn need_port_last_transmission(&self) -> (b: bool)
        ensures
            !b,
    {
        false
    }
}

///The label a saturation gives: `max(label, value)` with `bottom`, else `min(label, value)`.
pub open spec fn saturated_label(label: i32, value: i32, bottom: bool) -> i32 {
    if bottom {
        if label < value { value } else { label }
    } else {
        if label < value { label } else { value }
    }
}

///New label = min{old_label,value} or max{old_label,value}
///(value,bottom)
#[derive(Debug)]
pub struct LabelSaturate {
    pub value: i32,
    pub bottom: bool,
}

impl LabelSaturate {
    pub fn new(value: i32, bottom: bool) -> (p: LabelSaturate)
        ensures
            p.value == value,
            p.bottom == bottom,
    {
        LabelSaturate { value, bottom }
    }

    ///Every candidate, its label saturated at `value`.
    pub fn filter(&self, candidates: Vec<CandidateEgress>) -> (r: Vec<CandidateEgress>)
        ensures
            r@ == candidates@.map_values(|c: CandidateEgress| with_label(c, saturated_label(c.label, self.value, self.bottom))),
    {
        let value = self.value;
        let bottom = self.bottom;
        relabel_candidates(
            candidates,
            (|c: &CandidateEgress| -> (l: i32)
                ensures
                    l == saturated_label(c.label, value, bottom),
                {
                    if bottom {
                        if c.label < value { value } else { c.label }
                    } else {
                        if c.label < value { c.label } else { value }
                    }
                }),
            Ghost(|c: CandidateEgress| saturated_label(c.label, self.value, self.bottom)),
        )
    }

    pub fn need_server_ports(&self) -> (b: bool)
        ensures
            !b,
    {
        false
    }

    pub fn need_port_average_queue_length(&self) -> (b: bool)
        ensures
            !b,
    {
        false
    }

    pub fn need_port_last_transmission(&self) -> (b: bool)
        ensures
            !b,
    {
        false
    }
}

///New label = old_label*multplier+summand.
///(multiplier,summand,saturate_bottom,saturate_top,minimum,maximum)
#[derive(Debug)]
pub struct LabelTransform {
    pub multiplier: i32,
    pub summand: i32,
    pub saturate_bottom: Option<i32>,
    pub saturate_top: Option<i32>,
    pub minimum: Option<i32>,
    pub maximum: Option<i32>,
}

impl LabelTransform {
    pub fn new(
        multiplier: i32,
        summand: i32,
        saturate_bottom: Option<i32>,
        saturate_top: Option<i32>,
        minimum: Option<i32>,
        maximum: Option<i32>,
    ) -> (p: LabelTransform)
        ensures
            p.multiplier == multiplier,
            p.summand == summand,
            p.saturate_bottom == saturate_bottom,
            p.saturate_top == saturate_top,
            p.minimum == minimum,
            p.maximum == maximum,
    {
        LabelTransform { multiplier, summand, saturate_bottom, saturate_top, minimum, maximum }
    }

    ///`label*multiplier + summand` fits in an `i32`.
    pub open spec fn fits(&self, label: i32) -> bool {
        &&& i32::MIN <= label * self.multiplier <= i32::MAX
        &&& i32::MIN <= label * self.multiplier + self.summand <= i32::MAX
    }

    ///The transformed label: `label*multiplier+summand`, raised to `saturate_bottom` and lowered to `saturate_top`.
    pub open spec fn transformed(&self, label: i32) -> int {
        let l = label * self.multiplier + self.summand;
        let l = match self.saturate_bottom {
            Some(v) => if v > l { v as int } else { l },
            None => l,
        };
        match self.saturate_top {
            Some(v) => if v < l { v as int } else { l },
            None => l,
        }
    }

    ///Whether the transformed label is within `minimum` and `maximum`.
    pub open spec fn accepts(&self, label: i32) -> bool {
        let l = self.transformed(label);
        &&& (match self.minimum { Some(v) => v <= l, None => true })
        &&& (match self.maximum { Some(v) => l <= v, None => true })
    }

    ///A label that the transformation accepts ends within `minimum` and `maximum`: a label past either bound is discarded.
    pub proof fn lemma_accepted_within_bounds(&self, label: i32)
        ensures
            self.accepts(label) && (self.maximum matches Some(top)) ==> self.transformed(label) <= self.maximum->Some_0,
            self.accepts(label) && (self.minimum matches Some(bottom)) ==> self.minimum->Some_0 <= self.transformed(label),
            (self.maximum matches Some(top)) && self.transformed(label) > self.maximum->Some_0 ==> !self.accepts(label),
            (self.minimum matches Some(bottom)) && self.transformed(label) < self.minimum->Some_0 ==> !self.accepts(label),
    {
    }

    fn transform_label(&self, label: i32) -> (r: Option<i32>)
        requires
            self.fits(label),
        ensures
            self.accepts(label) ==> r == Some(self.transformed(label) as i32),
            !self.accepts(label) ==> r is None,
    {
        let mut new_label = label * self.multiplier + self.summand;
        if let Some(value) = self.saturate_bottom {
            if value > new_label {
                new_label = value;
            }
        }
        if let Some(value) = self.saturate_top {
            if value < new_label {
                new_label = value;
            }
        }
        let mut good = true;
        if let Some(value) = self.minimum {
            if value > new_label {
                good = false;
            }
        }
        if let Some(value) = self.maximum {
            if value < new_label {
                good = false;
            }
        }
        if good { Some(new_label) } else { None }
    }

    ///The candidates whose transformed label is accepted, in order, each with its transformed label.
    pub fn filter(&self, candidates: Vec<CandidateEgress>) -> (r: Vec<CandidateEgress>)
        requires
            forall|i: int| 0 <= i < candidates@.len() ==> self.fits(#[trigger] candidates@[i].label),
        ensures
            r@ == candidates@.filter(|c: CandidateEgress| self.accepts(c.label)).map_values(
                |c: CandidateEgress| with_label(c, self.transformed(c.label) as i32)),
            r@.len() <= candidates@.len(),
            self.maximum matches Some(top) ==> forall|i: int| 0 <= i < r@.len() ==> (#[trigger] r@[i]).label <= top,
            self.minimum matches Some(bottom) ==> forall|i: int| 0 <= i < r@.len() ==> bottom <= (#[trigger] r@[i]).label,
    {
        let out = self.filter_relabel(candidates);
        proof {
            let ghost pred = |c: CandidateEgress| self.accepts(c.label);
            let f = candidates@.filter(pred);
            candidates@.lemma_filter_len(pred);
            assert forall|i: int| 0 <= i < out@.len() implies {
                &&& (self.maximum matches Some(top) ==> (#[trigger] out@[i]).label <= top)
                &&& (self.minimum matches Some(bottom) ==> bottom <= out@[i].label)
            } by {
                candidates@.lemma_filter_pred(pred, i);
                let c = f[i];
                assert(out@[i] == with_label(c, self.transformed(c.label) as i32));
                assert(self.accepts(c.label));
                assert(self.fits(c.label)) by {
                    candidates@.lemma_filter_contains_rev(pred, c);
                    assert(f.contains(c));
                }
            }
        }
        out
    }

    ///The candidates whose transformed label is accepted, in order, each with its transformed label.
    fn filter_relabel(&self, candidates: Vec<CandidateEgress>) -> (r: Vec<CandidateEgress>)
        requires
            forall|i: int| 0 <= i < candidates@.len() ==> self.fits(#[trigger] candidates@[i].label),
        ensures
            r@ == candidates@.filter(|c: CandidateEgress| self.accepts(c.label)).map_values(
                |c: CandidateEgress| with_label(c, self.transformed(c.label) as i32)),
    {
        let ghost orig = candidates@;
        let ghost pred = |c: CandidateEgress| self.accepts(c.label);
        let ghost relabel = |c: CandidateEgress| with_label(c, self.transformed(c.label) as i32);
        let mut rest = candidates;
        let mut out: Vec<CandidateEgress> = Vec::new();
        let ghost mut i: int = 0;
        while rest.len() > 0
            invariant
                0 <= i <= orig.len(),
                rest@ == orig.skip(i),
                forall|k: int| 0 <= k < orig.len() ==> self.fits(#[trigger] orig[k].label),
                pred == (|c: CandidateEgress| self.accepts(c.label)),
                relabel == (|c: CandidateEgress| with_label(c, self.transformed(c.label) as i32)),
                out@ == orig.take(i).filter(pred).map_values(relabel),
            decreases rest@.len(),
        {
            let c = take_first(&mut rest);
            proof {
                assert(c == orig[i]);
                assert(orig.take(i + 1) == orig.take(i).push(c));
                orig.take(i).lemma_filter_push(c, pred);
                assert(orig.skip(i + 1) == orig.skip(i).drop_first());
            }
            match self.transform_label(c.label) {
                Some(l) => {
                    proof {
                        assert(pred(c));
                        assert(relabel(c) == with_label(c, l));
                        assert(orig.take(i).filter(pred).push(c).map_values(relabel)
                            == orig.take(i).filter(pred).map_values(relabel).push(relabel(c)));
                    }
                    out.push(set_label(c, l));
                },
                None => {
                    proof {
                        assert(!pred(c));
                    }
                },
            }
            proof {
                i = i + 1;
            }
        }
        proof {
            assert(orig.take(orig.len() as int) == orig);
        }
        out
    }

    pub fn need_server_ports(&self) -> (b: bool)
        ensures
            !b,
    {
        false
    }

    pub fn need_port_average_queue_length(&self) -> (b: bool)
        ensures
            !b,
    {
        false
    }

    pub fn need_port_last_transmission(&self) -> (b: bool)
        ensures
            b,
    {
        true
    }
}

///New label = -old_label
///Just until I fix the grammar to accept preceding minuses.
#[derive(Debug)]
pub struct NegateLabel {}

impl NegateLabel {
    pub fn new() -> NegateLabel {
        NegateLabel {}
    }

    ///Every candidate with its label negated.
    pub fn filter(&self, candidates: Vec<CandidateEgress>) -> (r: Vec<CandidateEgress>)
        requires
            forall|i: int| 0 <= i < candidates@.len() ==> (#[trigger] candidates@[i]).label != i32::MIN,
        ensures
            r@ == candidates@.map_values(|c: CandidateEgress| with_label(c, (-c.label) as i32)),
    {
        relabel_candidates(
            candidates,
            (|c: &CandidateEgress| -> (l: i32)
                requires
                    c.label != i32::MIN,
                ensures
                    l == -c.label,
                { -c.label }),
            Ghost(|c: CandidateEgress| (-c.label) as i32),
        )
    }

    pub fn need_server_ports(&self) -> (b: bool)
        ensures
            !b,
    {
        false
    }

    pub fn need_port_average_queue_length(&self) -> (b: bool)
        ensures
            !b,
    {
        false
    }

    pub fn need_port_last_transmission(&self) -> (b: bool)
        ensures
            !b,
    {
        false
    }
}


///The distance from the router to the destination router.
pub open spec fn distance_to_target(router: &RouterView, info: &RequestInfo, topology: &TopologyTable) -> usize {
    topology.spec_distance(router.index as int, info.target_router_index as int)
}

///The router and the destination router exist in the topology.
pub open spec fn routers_known(router: &RouterView, info: &RequestInfo, topology: &TopologyTable) -> bool {
    &&& topology.wf()
    &&& router.index < topology.spec_num_routers()
    &&& info.target_router_index < topology.spec_num_routers()
}

///Occupation known of the neighbour's buffer of a virtual channel: maximum credits minus known free space.
pub open spec fn vc_neighbour_occupation(router: &RouterView, port: int, vc: int) -> int {
    router.maximum_credits@[port]@[vc] - router.available_space@[port]@[vc]
}

///Occupation known of the first `n` virtual channels of a port of the neighbour.
pub open spec fn port_neighbour_occupation(router: &RouterView, port: int, n: int) -> int
    decreases n,
{
    if n <= 0 {
        0
    } else {
        port_neighbour_occupation(router, port, n - 1) + vc_neighbour_occupation(router, port, n - 1)
    }
}

///An integer that an `i32` holds.
pub open spec fn in_i32(x: int) -> bool {
    i32::MIN <= x <= i32::MAX
}

///How occupancy is measured for a candidate.
pub struct OccupancyMeasure {
    ///Whether to include the own router output buffers.
    pub use_internal_space: bool,
    ///Whether to include the known state of the next router buffers.
    pub use_neighbour_space: bool,
    ///Whether to aggregate all virtual channels associated to the port.
    pub aggregate: bool,
}

impl OccupancyMeasure {
    ///The occupancy of the output buffers of the router for the candidate.
    pub open spec fn internal(&self, info: &RequestInfo, port: int, vc: int) -> int {
        if !self.use_internal_space {
            0
        } else if self.aggregate {
            info.port_occupied_output_space->0@[port] as int
        } else {
            info.virtual_channel_occupied_output_space->0@[port]@[vc] as int
        }
    }

    ///The occupancy known of the neighbour buffers for the candidate.
    pub open spec fn neighbour(&self, router: &RouterView, port: int, vc: int) -> int {
        if !self.use_neighbour_space {
            0
        } else if self.aggregate {
            port_neighbour_occupation(router, port, router.available_space@[port]@.len() as int)
        } else {
            vc_neighbour_occupation(router, port, vc)
        }
    }

    ///The occupancy measured for the candidate.
    pub open spec fn value(&self, router: &RouterView, info: &RequestInfo, port: int, vc: int) -> int {
        self.internal(info, port, vc) + self.neighbour(router, port, vc)
    }

    ///The values the measure reads are there, and each step of its computation fits in an `i32`.
    pub open spec fn defined(&self, router: &RouterView, info: &RequestInfo, port: int, vc: int) -> bool {
        &&& self.use_internal_space ==> (if self.aggregate {
            &&& info.port_occupied_output_space is Some
            &&& 0 <= port < info.port_occupied_output_space->0@.len()
            &&& info.port_occupied_output_space->0@[port] <= i32::MAX
        } else {
            &&& info.virtual_channel_occupied_output_space is Some
            &&& 0 <= port < info.virtual_channel_occupied_output_space->0@.len()
            &&& 0 <= vc < info.virtual_channel_occupied_output_space->0@[port]@.len()
            &&& info.virtual_channel_occupied_output_space->0@[port]@[vc] <= i32::MAX
        })
        &&& self.use_neighbour_space ==> {
            &&& 0 <= port < router.available_space@.len()
            &&& 0 <= port < router.maximum_credits@.len()
            &&& router.maximum_credits@[port]@.len() >= router.available_space@[port]@.len()
            &&& (if self.aggregate {
                forall|c: int| 0 <= c < router.available_space@[port]@.len() ==> {
                    &&& router.available_space@[port]@[c] <= i32::MAX
                    &&& router.maximum_credits@[port]@[c] <= i32::MAX
                    &&& in_i32(#[trigger] port_neighbour_occupation(router, port, c + 1))
                }
            } else {
                &&& 0 <= vc < router.available_space@[port]@.len()
                &&& router.available_space@[port]@[vc] <= i32::MAX
                &&& router.maximum_credits@[port]@[vc] <= i32::MAX
            })
        }
        &&& in_i32(self.value(router, info, port, vc))
    }

    ///Computes the occupancy of a port and virtual channel.
    pub fn measure(&self, router: &RouterView, info: &RequestInfo, port: usize, vc: usize) -> (q: i32)
        requires
            self.defined(router, info, port as int, vc as int),
        ensures
            q == self.value(router, info, port as int, vc as int),
    {
        let internal: i32 = if self.use_internal_space {
            if self.aggregate {
                match &info.port_occupied_output_space {
                    Some(v) => v[port] as i32,
                    None => 0,
                }
            } else {
                match &info.virtual_channel_occupied_output_space {
                    Some(v) => v[port][vc] as i32,
                    None => 0,
                }
            }
        } else {
            0
        };
        let neighbour: i32 = if self.use_neighbour_space {
            if self.aggregate {
                let n = router.available_space[port].len();
                let mut total: i32 = 0;
                let mut c: usize = 0;
                while c < n
                    invariant
                        c <= n,
                        n == router.available_space@[port as int]@.len(),
                        self.use_neighbour_space,
                        self.aggregate,
                        self.defined(router, info, port as int, vc as int),
                        total == port_neighbour_occupation(router, port as int, c as int),
                    decreases n - c,
                {
                    proof {
                        assert(in_i32(port_neighbour_occupation(router, port as int, c + 1)));
                    }
                    let m = router.maximum_credits[port][c] as i32;
                    let a = router.available_space[port][c] as i32;
                    total = total + (m - a);
                    c = c + 1;
                }
                total
            } else {
                router.maximum_credits[port][vc] as i32 - router.available_space[port][vc] as i32
            }
        } else {
            0
        };
        internal + neighbour
    }
}

///Transform (l,q) into new label a*l+b*q+c*l*q+d
///where l is the label and q is the occupancy.
#[derive(Debug)]
pub struct OccupancyFunction {
    ///Which multiplies the label.
    pub label_coefficient: i32,
    ///Which multiplies the occupancy.
    pub occupancy_coefficient: i32,
    ///Which multiplies the product of label and occupancy.
    pub product_coefficient: i32,
    ///Just added.
    pub constant_coefficient: i32,
    ///Whether to include the own router buffers in the calculation.
    pub use_internal_space: bool,
    ///Whether to include the known state of the next router buffers in the calculation.
    pub use_neighbour_space: bool,
    ///Whether to aggregate all virtual channels associated to the port.
    ///Defaults to true.
    pub aggregate: bool,
}

impl OccupancyFunction {
    pub fn new(
        label_coefficient: i32,
        occupancy_coefficient: i32,
        product_coefficient: i32,
        constant_coefficient: i32,
        use_internal_space: bool,
        use_neighbour_space: bool,
        aggregate: bool,
    ) -> (p: OccupancyFunction)
        ensures
            p.label_coefficient == label_coefficient,
            p.occupancy_coefficient == occupancy_coefficient,
            p.product_coefficient == product_coefficient,
            p.constant_coefficient == constant_coefficient,
            p.use_internal_space == use_internal_space,
            p.use_neighbour_space == use_neighbour_space,
            p.aggregate == aggregate,
    {
        OccupancyFunction {
            label_coefficient,
            occupancy_coefficient,
            product_coefficient,
            constant_coefficient,
            use_internal_space,
            use_neighbour_space,
            aggregate,
        }
    }

    pub open spec fn measure_spec(&self) -> OccupancyMeasure {
        OccupancyMeasure {
            use_internal_space: self.use_internal_space,
            use_neighbour_space: self.use_neighbour_space,
            aggregate: self.aggregate,
        }
    }

    ///The new label `a*l + b*q + c*l*q + d` for label `l` and occupancy `q`.
    pub open spec fn new_label(&self, l: int, q: int) -> int {
        self.label_coefficient * l + self.occupancy_coefficient * q + self.product_coefficient * l * q + self.constant_coefficient
    }

    ///Every partial result of the new label fits in an `i32`, as the computation goes.
    pub open spec fn label_fits(&self, l: int, q: int) -> bool {
        &&& in_i32(self.label_coefficient * l)
        &&& in_i32(self.occupancy_coefficient * q)
        &&& in_i32(self.label_coefficient * l + self.occupancy_coefficient * q)
        &&& in_i32(self.product_coefficient * l)
        &&& in_i32(self.product_coefficient * l * q)
        &&& in_i32(self.label_coefficient * l + self.occupancy_coefficient * q + self.product_coefficient * l * q)
        &&& in_i32(self.new_label(l, q))
    }

    ///The candidate can be relabelled.
    pub open spec fn candidate_ok(&self, router: &RouterView, info: &RequestInfo, c: CandidateEgress) -> bool {
        &&& self.measure_spec().defined(router, info, c.port as int, c.virtual_channel as int)
        &&& self.label_fits(c.label as int, self.measure_spec().value(router, info, c.port as int, c.virtual_channel as int))
    }

    ///The relabelled candidate.
    pub open spec fn relabelled(&self, router: &RouterView, info: &RequestInfo, c: CandidateEgress) -> CandidateEgress {
        with_label(c, self.new_label(c.label as int, self.measure_spec().value(router, info, c.port as int, c.virtual_channel as int)) as i32)
    }

    ///At the destination router the candidates are kept; elsewhere each is relabelled by the formula.
    pub fn filter(&self, candidates: Vec<CandidateEgress>, router: &RouterView, info: &RequestInfo, topology: &TopologyTable) -> (r: Vec<CandidateEgress>)
        requires
            routers_known(router, info, topology),
            distance_to_target(router, info, topology) != 0 ==>
                forall|i: int| 0 <= i < candidates@.len() ==> self.candidate_ok(router, info, #[trigger] candidates@[i]),
        ensures
            distance_to_target(router, info, topology) == 0 ==> r@ == candidates@,
            distance_to_target(router, info, topology) != 0 ==>
                r@ == candidates@.map_values(|c: CandidateEgress| self.relabelled(router, info, c)),
    {
        let dist = topology.distance(router.index, info.target_router_index);
        if dist == 0 {
            return candidates;
        }
        let measure = OccupancyMeasure {
            use_internal_space: self.use_internal_space,
            use_neighbour_space: self.use_neighbour_space,
            aggregate: self.aggregate,
        };
        let a = self.label_coefficient;
        let b = self.occupancy_coefficient;
        let pc = self.product_coefficient;
        let d = self.constant_coefficient;
        let r = relabel_candidates(
            candidates,
            (|c: &CandidateEgress| -> (l: i32)
                requires
                    self.candidate_ok(router, info, *c),
                ensures
                    l == self.new_label(c.label as int, self.measure_spec().value(router, info, c.port as int, c.virtual_channel as int)),
                {
                    let q = measure.measure(router, info, c.port, c.virtual_channel);
                    let label = c.label;
                    a * label + b * q + pc * label * q + d
                }),
            Ghost(|c: CandidateEgress| self.new_label(c.label as int, self.measure_spec().value(router, info, c.port as int, c.virtual_channel as int)) as i32),
        );
        proof {
            assert(r@ =~= candidates@.map_values(|c: CandidateEgress| self.relabelled(router, info, c)));
        }
        r
    }

    pub fn need_server_ports(&self) -> (b: bool)
        ensures
            !b,
    {
        false
    }

    pub fn need_port_average_queue_length(&self) -> (b: bool)
        ensures
            !b,
    {
        false
    }

    pub fn need_port_last_transmission(&self) -> (b: bool)
        ensures
            !b,
    {
        false
    }
}


///Select the lowest value of the product of the queue length (that is, consumed credits) times the estimated hop count (usually 1 plus the distance from next router to target router)
///This was initially proposed for the UGAL routing.
///parameters=(extra_congestion,extra_distance,aggregate_buffers), which are added in the formula to allow tuning. Firth two default to 0.
///aggregate_buffers indicates to use all buffers instead of just the selected one.
#[derive(Debug)]
pub struct LowestSinghWeight {
    ///constant added to the occupied space
    pub extra_congestion: usize,
    ///constant added to the distance to target
    pub extra_distance: usize,
    ///Whether we consider all the space in each port (when true) or we segregate by virtual channels (when false).
    ///defaults to false
    pub aggregate: bool,
    ///Whether to use internal output space in the calculations instead of the counters relative to the next router.
    ///defaults to false
    pub use_internal_space: bool,
    ///Whether to add the neighbour space.
    ///Defaults to true.
    pub use_neighbour_space: bool,
    ///Try `estimated_remaining_hops` before calling distance
    pub use_estimation: bool,
}

impl LowestSinghWeight {
    pub fn new(
        extra_congestion: usize,
        extra_distance: usize,
        aggregate: bool,
        use_internal_space: bool,
        use_neighbour_space: bool,
        use_estimation: bool,
    ) -> (p: LowestSinghWeight)
        ensures
            p.extra_congestion == extra_congestion,
            p.extra_distance == extra_distance,
            p.aggregate == aggregate,
            p.use_internal_space == use_internal_space,
            p.use_neighbour_space == use_neighbour_space,
            p.use_estimation == use_estimation,
    {
        LowestSinghWeight { extra_congestion, extra_distance, aggregate, use_internal_space, use_neighbour_space, use_estimation }
    }

    pub open spec fn measure_spec(&self) -> OccupancyMeasure {
        OccupancyMeasure {
            use_internal_space: self.use_internal_space,
            use_neighbour_space: self.use_neighbour_space,
            aggregate: self.aggregate,
        }
    }

    ///The congestion of a candidate: `extra_congestion` plus its measured occupancy.
    pub open spec fn congestion(&self, router: &RouterView, info: &RequestInfo, c: CandidateEgress) -> int {
        self.extra_congestion + self.measure_spec().value(router, info, c.port as int, c.virtual_channel as int)
    }

    ///The router the port of the candidate leads to, if a router.
    pub open spec fn next_router(router: &RouterView, topology: &TopologyTable, c: CandidateEgress) -> Option<usize> {
        match topology.spec_neighbour(router.index as int, c.port as int).0 {
            Location::RouterPort { router_index, router_port } => Some(router_index),
            _ => None,
        }
    }

    ///The hops counted for a candidate: `extra_distance` plus its estimation, or else one more than the distance from the next router.
    pub open spec fn hops(&self, router: &RouterView, info: &RequestInfo, topology: &TopologyTable, c: CandidateEgress) -> int {
        self.extra_distance + if self.use_estimation && c.estimated_remaining_hops is Some {
            c.estimated_remaining_hops->0 as int
        } else {
            1 + topology.spec_distance(Self::next_router(router, topology, c)->0 as int, info.target_router_index as int)
        }
    }

    ///The weight of a candidate: its congestion times its hops.
    pub open spec fn weight(&self, router: &RouterView, info: &RequestInfo, topology: &TopologyTable, c: CandidateEgress) -> int {
        self.congestion(router, info, c) * self.hops(router, info, topology, c)
    }

    ///The weight of the candidate can be computed: its port leads to a router, and every step fits its integer type.
    pub open spec fn candidate_ok(&self, router: &RouterView, info: &RequestInfo, topology: &TopologyTable, c: CandidateEgress) -> bool {
        &&& c.port < topology.spec_ports(router.index as int)
        &&& Self::next_router(router, topology, c) is Some
        &&& self.measure_spec().defined(router, info, c.port as int, c.virtual_channel as int)
        &&& self.extra_congestion <= i32::MAX
        &&& in_i32(self.congestion(router, info, c))
        &&& self.hops(router, info, topology, c) <= i32::MAX
        &&& in_i32(self.weight(router, info, topology, c))
    }

    fn candidate_weight(&self, router: &RouterView, info: &RequestInfo, topology: &TopologyTable, c: &CandidateEgress) -> (w: i32)
        requires
            routers_known(router, info, topology),
            self.candidate_ok(router, info, topology, *c),
        ensures
            w == self.weight(router, info, topology, *c),
    {
        let measure = OccupancyMeasure {
            use_internal_space: self.use_internal_space,
            use_neighbour_space: self.use_neighbour_space,
            aggregate: self.aggregate,
        };
        let q: i32 = (self.extra_congestion as i32) + measure.measure(router, info, c.port, c.virtual_channel);
        let next_router: usize = match topology.neighbour(router.index, c.port).0 {
            Location::RouterPort { router_index, router_port: _ } => router_index,
            _ => 0,
        };
        proof {
            assert(topology.wf());
            assert(next_router < topology.spec_num_routers());
        }
        let distance: usize = self.extra_distance + match (self.use_estimation, c.estimated_remaining_hops) {
            (true, Some(d)) => d,
            _ => 1 + topology.distance(next_router, info.target_router_index),
        };
        q * (distance as i32)
    }

    ///At the destination router the candidates are kept; elsewhere those of lowest weight, in order, ties kept.
    pub fn filter(&self, candidates: Vec<CandidateEgress>, router: &RouterView, info: &RequestInfo, topology: &TopologyTable) -> (r: Vec<CandidateEgress>)
        requires
            routers_known(router, info, topology),
            distance_to_target(router, info, topology) != 0 ==>
                forall|i: int| 0 <= i < candidates@.len() ==> self.candidate_ok(router, info, topology, #[trigger] candidates@[i]),
        ensures
            distance_to_target(router, info, topology) == 0 ==> r@ == candidates@,
            distance_to_target(router, info, topology) != 0 ==>
                r@ == lowest_weighted(candidates@, candidates@.map_values(|c: CandidateEgress| self.weight(router, info, topology, c) as i32)),
    {
        let dist = topology.distance(router.index, info.target_router_index);
        if dist == 0 {
            return candidates;
        }
        let ghost ws = candidates@.map_values(|c: CandidateEgress| self.weight(router, info, topology, c) as i32);
        let mut weights: Vec<i32> = Vec::new();
        let mut i: usize = 0;
        while i < candidates.len()
            invariant
                i <= candidates@.len(),
                routers_known(router, info, topology),
                forall|k: int| 0 <= k < candidates@.len() ==> self.candidate_ok(router, info, topology, #[trigger] candidates@[k]),
                ws == candidates@.map_values(|c: CandidateEgress| self.weight(router, info, topology, c) as i32),
                weights@ == ws.take(i as int),
            decreases candidates@.len() - i,
        {
            let w = self.candidate_weight(router, info, topology, &candidates[i]);
            weights.push(w);
            proof {
                assert(ws.take(i + 1) == ws.take(i as int).push(ws[i as int]));
            }
            i = i + 1;
        }
        proof {
            assert(ws.take(ws.len() as int) == ws);
        }
        select_lowest(candidates, weights)
    }

    pub fn need_server_ports(&self) -> (b: bool)
        ensures
            !b,
    {
        false
    }

    pub fn need_port_average_queue_length(&self) -> (b: bool)
        ensures
            !b,
    {
        false
    }

    pub fn need_port_last_transmission(&self) -> (b: bool)
        ensures
            !b,
    {
        false
    }
}

///Vector of labels
///`new_label = vector[old_label]`
#[derive(Debug)]
pub struct VecLabel {
    pub label_vector: Vec<i32>,
}

impl VecLabel {
    pub fn new(label_vector: Vec<i32>) -> (p: VecLabel)
        ensures
            p.label_vector@ == label_vector@,
    {
        VecLabel { label_vector }
    }

    ///At the destination router the candidates are kept; elsewhere each label `l` becomes `label_vector[l]`.
    pub fn filter(&self, candidates: Vec<CandidateEgress>, router: &RouterView, info: &RequestInfo, topology: &TopologyTable) -> (r: Vec<CandidateEgress>)
        requires
            routers_known(router, info, topology),
            distance_to_target(router, info, topology) != 0 ==>
                forall|i: int| 0 <= i < candidates@.len() ==>
                    0 <= (#[trigger] candidates@[i]).label < self.label_vector@.len(),
        ensures
            distance_to_target(router, info, topology) == 0 ==> r@ == candidates@,
            distance_to_target(router, info, topology) != 0 ==>
                r@ == candidates@.map_values(|c: CandidateEgress| with_label(c, self.label_vector@[c.label as int])),
    {
        let dist = topology.distance(router.index, info.target_router_index);
        if dist == 0 {
            return candidates;
        }
        let table = &self.label_vector;
        relabel_candidates(
            candidates,
            (|c: &CandidateEgress| -> (l: i32)
                requires
                    0 <= c.label < table@.len(),
                ensures
                    l == table@[c.label as int],
                { table[c.label as usize] }),
            Ghost(|c: CandidateEgress| self.label_vector@[c.label as int]),
        )
    }

    pub fn need_server_ports(&self) -> (b: bool)
        ensures
            !b,
    {
        false
    }

    pub fn need_port_average_queue_length(&self) -> (b: bool)
        ensures
            !b,
    {
        false
    }

    pub fn need_port_last_transmission(&self) -> (b: bool)
        ensures
            !b,
    {
        false
    }
}

///Whether a vector of shifts holds one.
fn shift_listed(v: &Vec<i32>, x: i32) -> (b: bool)
    ensures
        b == v@.contains(x),
{
    let mut i: usize = 0;
    while i < v.len()
        invariant
            i <= v@.len(),
            forall|k: int| 0 <= k < i ==> v@[k] != x,
        decreases v@.len() - i,
    {
        if v[i] == x {
            proof {
                assert(v@[i as int] == x);
            }
            return true;
        }
        i = i + 1;
    }
    false
}

///Only allows those candidates whose vc equals their entry vc plus some `s` in `shifts`.
#[derive(Debug)]
pub struct ShiftEntryVC {
    pub shifts: Vec<i32>,
}

impl ShiftEntryVC {
    pub fn new(shifts: Vec<i32>) -> (p: ShiftEntryVC)
        ensures
            p.shifts@ == shifts@,
    {
        ShiftEntryVC { shifts }
    }

    ///At the destination router the candidates are kept; elsewhere those whose virtual channel is the entry one plus a listed shift.
    pub fn filter(&self, candidates: Vec<CandidateEgress>, router: &RouterView, info: &RequestInfo, topology: &TopologyTable) -> (r: Vec<CandidateEgress>)
        requires
            routers_known(router, info, topology),
            info.entry_virtual_channel <= i32::MAX,
            forall|i: int| 0 <= i < candidates@.len() ==> (#[trigger] candidates@[i]).virtual_channel <= i32::MAX,
        ensures
            distance_to_target(router, info, topology) == 0 ==> r@ == candidates@,
            distance_to_target(router, info, topology) != 0 ==>
                r@ == candidates@.filter(|c: CandidateEgress| self.shifts@.contains((c.virtual_channel - info.entry_virtual_channel) as i32)),
    {
        let dist = topology.distance(router.index, info.target_router_index);
        if dist == 0 {
            return candidates;
        }
        let evc = info.entry_virtual_channel as i32;
        let shifts = &self.shifts;
        let ghost orig = candidates@;
        let ghost pred = |c: CandidateEgress| self.shifts@.contains((c.virtual_channel - info.entry_virtual_channel) as i32);
        let mut rest = candidates;
        let mut out: Vec<CandidateEgress> = Vec::new();
        let ghost mut i: int = 0;
        while rest.len() > 0
            invariant
                0 <= i <= orig.len(),
                rest@ == orig.skip(i),
                evc == info.entry_virtual_channel,
                shifts@ == self.shifts@,
                info.entry_virtual_channel <= i32::MAX,
                forall|k: int| 0 <= k < orig.len() ==> (#[trigger] orig[k]).virtual_channel <= i32::MAX,
                pred == (|c: CandidateEgress| self.shifts@.contains((c.virtual_channel - info.entry_virtual_channel) as i32)),
                out@ == orig.take(i).filter(pred),
            decreases rest@.len(),
        {
            let c = take_first(&mut rest);
            proof {
                assert(c == orig[i]);
                assert(orig.take(i + 1) == orig.take(i).push(c));
                orig.take(i).lemma_filter_push(c, pred);
                assert(orig.skip(i + 1) == orig.skip(i).drop_first());
            }
            let shift: i32 = (c.virtual_channel as i32) - evc;
            if shift_listed(shifts, shift) {
                out.push(c);
            }
            proof {
                i = i + 1;
            }
        }
        proof {
            assert(orig.take(orig.len() as int) == orig);
        }
        out
    }

    pub fn need_server_ports(&self) -> (b: bool)
        ensures
            !b,
    {
        false
    }

    pub fn need_port_average_queue_length(&self) -> (b: bool)
        ensures
            !b,
    {
        false
    }

    pub fn need_port_last_transmission(&self) -> (b: bool)
        ensures
            !b,
    {
        false
    }
}


///A virtual channel policy of any of the kinds: how virtual channels are selected for a packet.
#[derive(Debug)]
pub enum VirtualChannelPolicy {
    Identity(Identity),
    Random(Random),
    Shortest(Shortest),
    Hops(Hops),
    EnforceFlowControl(EnforceFlowControl),
    WideHops(WideHops),
    LowestSinghWeight(LowestSinghWeight),
    LowestLabel(LowestLabel),
    LabelSaturate(LabelSaturate),
    LabelTransform(LabelTransform),
    OccupancyFunction(OccupancyFunction),
    NegateLabel(NegateLabel),
    VecLabel(VecLabel),
    MapLabel(MapLabel),
    ShiftEntryVC(ShiftEntryVC),
}

///Apply a different policy to candidates with each label.
#[derive(Debug)]
pub struct MapLabel {
    pub label_to_policy: Vec<VirtualChannelPolicy>,
    pub below_policy: Box<VirtualChannelPolicy>,
    pub above_policy: Box<VirtualChannelPolicy>,
}

///The group of a label among `n` labelled policies: the label itself within `0..=n` (`n` holding those above), `n+1` for negative labels.
pub open spec fn label_group(label: i32, n: int) -> int {
    if label < 0 { n + 1 } else if label > n { n } else { label as int }
}

///The candidates of a label group, in order.
pub open spec fn group_candidates(cs: Seq<CandidateEgress>, n: int, k: int) -> Seq<CandidateEgress> {
    cs.filter(in_group(n, k))
}

///Whether a candidate's label falls in a group.
pub open spec fn in_group(n: int, k: int) -> spec_fn(CandidateEgress) -> bool {
    |c: CandidateEgress| label_group(c.label, n) == k
}

impl MapLabel {
    ///The policy of a label group: the one of its label, then the one for labels above, then the one for labels below.
    pub open spec fn policy_for(&self, k: int) -> VirtualChannelPolicy {
        if k < self.label_to_policy@.len() {
            self.label_to_policy@[k]
        } else if k == self.label_to_policy@.len() {
            *self.above_policy
        } else {
            *self.below_policy
        }
    }
}

impl VirtualChannelPolicy {
    ///The outputs the policy may give for the candidates.
    pub open spec fn outcomes(self, cs: Seq<CandidateEgress>, router: RouterView, info: RequestInfo, topology: TopologyTable) -> Set<Seq<CandidateEgress>>
        decreases self, 0nat,
    {
        match self {
            VirtualChannelPolicy::Identity(_) => set![cs],
            VirtualChannelPolicy::Random(_) => Set::new(|r: Seq<CandidateEgress>| r.len() == 1 && cs.contains(r[0])),
            VirtualChannelPolicy::Shortest(_) => set![cs.filter(|c: CandidateEgress| candidate_credits(&router, c) == max_credits(&router, cs))],
            VirtualChannelPolicy::Hops(_) => set![cs.filter(|c: CandidateEgress| c.virtual_channel == info.performed_hops || is_server_port(&info, c.port))],
            VirtualChannelPolicy::EnforceFlowControl(_) => set![cs.filter(|c: CandidateEgress| c.router_allows != Some(false))],
            VirtualChannelPolicy::WideHops(p) => set![cs.filter(|c: CandidateEgress|
                (p.width * info.performed_hops <= c.virtual_channel && c.virtual_channel < p.width * (info.performed_hops + 1))
                || is_server_port(&info, c.port))],
            VirtualChannelPolicy::LowestSinghWeight(p) => if distance_to_target(&router, &info, &topology) == 0 {
                set![cs]
            } else {
                set![lowest_weighted(cs, cs.map_values(|c: CandidateEgress| p.weight(&router, &info, &topology, c) as i32))]
            },
            VirtualChannelPolicy::LowestLabel(_) => set![lowest_weighted(cs, labels(cs))],
            VirtualChannelPolicy::LabelSaturate(p) => set![cs.map_values(|c: CandidateEgress| with_label(c, saturated_label(c.label, p.value, p.bottom)))],
            VirtualChannelPolicy::LabelTransform(p) => set![cs.filter(|c: CandidateEgress| p.accepts(c.label)).map_values(
                |c: CandidateEgress| with_label(c, p.transformed(c.label) as i32))],
            VirtualChannelPolicy::OccupancyFunction(p) => if distance_to_target(&router, &info, &topology) == 0 {
                set![cs]
            } else {
                set![cs.map_values(|c: CandidateEgress| p.relabelled(&router, &info, c))]
            },
            VirtualChannelPolicy::NegateLabel(_) => set![cs.map_values(|c: CandidateEgress| with_label(c, (-c.label) as i32))],
            VirtualChannelPolicy::VecLabel(p) => if distance_to_target(&router, &info, &topology) == 0 {
                set![cs]
            } else {
                set![cs.map_values(|c: CandidateEgress| with_label(c, p.label_vector@[c.label as int]))]
            },
            VirtualChannelPolicy::MapLabel(m) => if distance_to_target(&router, &info, &topology) == 0 {
                set![cs]
            } else {
                map_outcomes(m, cs, (m.label_to_policy@.len() + 2) as int, router, info, topology)
            },
            VirtualChannelPolicy::ShiftEntryVC(p) => if distance_to_target(&router, &info, &topology) == 0 {
                set![cs]
            } else {
                set![cs.filter(|c: CandidateEgress| p.shifts@.contains((c.virtual_channel - info.entry_virtual_channel) as i32))]
            },
        }
    }

    ///The policy can take the candidates: what its kind asks of them, of the router and of the request holds.
    pub open spec fn acceptable(self, cs: Seq<CandidateEgress>, router: RouterView, info: RequestInfo, topology: TopologyTable) -> bool
        decreases self, 0nat,
    {
        match self {
            VirtualChannelPolicy::Identity(_) => true,
            VirtualChannelPolicy::Random(_) => cs.len() > 0,
            VirtualChannelPolicy::Shortest(_) => candidates_in_router(&router, cs),
            VirtualChannelPolicy::Hops(_) => info.server_ports is Some,
            VirtualChannelPolicy::EnforceFlowControl(_) => true,
            VirtualChannelPolicy::WideHops(p) => info.server_ports is Some && p.width * (info.performed_hops + 1) <= usize::MAX,
            VirtualChannelPolicy::LowestSinghWeight(p) => routers_known(&router, &info, &topology)
                && (distance_to_target(&router, &info, &topology) != 0 ==>
                    forall|i: int| 0 <= i < cs.len() ==> p.candidate_ok(&router, &info, &topology, #[trigger] cs[i])),
            VirtualChannelPolicy::LowestLabel(_) => true,
            VirtualChannelPolicy::LabelSaturate(_) => true,
            VirtualChannelPolicy::LabelTransform(p) => forall|i: int| 0 <= i < cs.len() ==> p.fits(#[trigger] cs[i].label),
            VirtualChannelPolicy::OccupancyFunction(p) => routers_known(&router, &info, &topology)
                && (distance_to_target(&router, &info, &topology) != 0 ==>
                    forall|i: int| 0 <= i < cs.len() ==> p.candidate_ok(&router, &info, #[trigger] cs[i])),
            VirtualChannelPolicy::NegateLabel(_) => forall|i: int| 0 <= i < cs.len() ==> (#[trigger] cs[i]).label != i32::MIN,
            VirtualChannelPolicy::VecLabel(p) => routers_known(&router, &info, &topology)
                && (distance_to_target(&router, &info, &topology) != 0 ==>
                    forall|i: int| 0 <= i < cs.len() ==> 0 <= (#[trigger] cs[i]).label < p.label_vector@.len()),
            VirtualChannelPolicy::MapLabel(m) => routers_known(&router, &info, &topology)
                && (distance_to_target(&router, &info, &topology) != 0 ==> {
                    &&& m.label_to_policy@.len() <= i32::MAX
                    &&& map_acceptable(m, cs, (m.label_to_policy@.len() + 2) as int, router, info, topology)
                }),
            VirtualChannelPolicy::ShiftEntryVC(_) => routers_known(&router, &info, &topology)
                && info.entry_virtual_channel <= i32::MAX
                && forall|i: int| 0 <= i < cs.len() ==> (#[trigger] cs[i]).virtual_channel <= i32::MAX,
        }
    }
}

///The outputs the first `k` label groups may give, one after another.
pub open spec fn map_outcomes(m: MapLabel, cs: Seq<CandidateEgress>, k: int, router: RouterView, info: RequestInfo, topology: TopologyTable) -> Set<Seq<CandidateEgress>>
    decreases m, k,
{
    if k <= 0 {
        set![Seq::empty()]
    } else {
        let before = map_outcomes(m, cs, k - 1, router, info, topology);
        let group = group_candidates(cs, m.label_to_policy@.len() as int, k - 1);
        let last = m.policy_for(k - 1).outcomes(group, router, info, topology);
        Set::new(|r: Seq<CandidateEgress>| exists|a: Seq<CandidateEgress>, b: Seq<CandidateEgress>|
            #![trigger before.contains(a), last.contains(b)]
            before.contains(a) && last.contains(b) && r == a + b)
    }
}

///The first `k` label groups can be taken by their policies.
pub open spec fn map_acceptable(m: MapLabel, cs: Seq<CandidateEgress>, k: int, router: RouterView, info: RequestInfo, topology: TopologyTable) -> bool
    decreases m, k,
{
    if k <= 0 {
        true
    } else {
        &&& map_acceptable(m, cs, k - 1, router, info, topology)
        &&& m.policy_for(k - 1).acceptable(group_candidates(cs, m.label_to_policy@.len() as int, k - 1), router, info, topology)
    }
}

proof fn lemma_map_acceptable_prefix(m: MapLabel, cs: Seq<CandidateEgress>, k: int, j: int, router: RouterView, info: RequestInfo, topology: TopologyTable)
    requires
        map_acceptable(m, cs, k, router, info, topology),
        0 <= j < k,
    ensures
        m.policy_for(j).acceptable(group_candidates(cs, m.label_to_policy@.len() as int, j), router, info, topology),
    decreases k,
{
    if j < k - 1 {
        lemma_map_acceptable_prefix(m, cs, k - 1, j, router, info, topology);
    }
}

///Splits the candidates in the label groups of `n` labelled policies, keeping their order in each.
fn split_by_group(candidates: Vec<CandidateEgress>, n: usize) -> (groups: Vec<Vec<CandidateEgress>>)
    requires
        n + 2 <= usize::MAX,
        n <= i32::MAX,
    ensures
        groups@.len() == n + 2,
        forall|k: int| 0 <= k < n + 2 ==> (#[trigger] groups@[k])@ == group_candidates(candidates@, n as int, k),
{
    let mut groups: Vec<Vec<CandidateEgress>> = Vec::new();
    let mut k: usize = 0;
    while k < n + 2
        invariant
            n + 2 <= usize::MAX,
            k <= n + 2,
            groups@.len() == k,
            forall|j: int| 0 <= j < k ==> (#[trigger] groups@[j])@.len() == 0,
        decreases n + 2 - k,
    {
        groups.push(Vec::new());
        k = k + 1;
    }
    let ghost orig = candidates@;
    let mut rest = candidates;
    let ghost mut i: int = 0;
    while rest.len() > 0
        invariant
            0 <= i <= orig.len(),
            rest@ == orig.skip(i),
            n <= i32::MAX,
            groups@.len() == n + 2,
            forall|j: int| 0 <= j < n + 2 ==> (#[trigger] groups@[j])@ == orig.take(i).filter(in_group(n as int, j)),
        decreases rest@.len(),
    {
        let c = take_first(&mut rest);
        proof {
            assert(c == orig[i]);
            assert(orig.take(i + 1) == orig.take(i).push(c));
            assert(orig.skip(i + 1) == orig.skip(i).drop_first());
        }
        let index: usize = if c.label < 0 {
            n + 1
        } else if c.label > n as i32 {
            n
        } else {
            c.label as usize
        };
        proof {
            assert(index == label_group(c.label, n as int));
        }
        let ghost before = groups@;
        groups[index].push(c);
        proof {
            assert forall|j: int| 0 <= j < n + 2 implies (#[trigger] groups@[j])@ == orig.take(i + 1).filter(in_group(n as int, j)) by {
                orig.take(i).lemma_filter_push(orig[i], in_group(n as int, j));
                if j != index {
                    assert(groups@[j] == before[j]);
                }
            }
            i = i + 1;
        }
    }
    proof {
        assert(orig.take(orig.len() as int) == orig);
    }
    groups
}

impl VirtualChannelPolicy {
    ///Apply the policy over a list of candidates and return the candidates that fulfil the policy requirements.
    pub fn filter(&self, candidates: Vec<CandidateEgress>, router: &RouterView, info: &RequestInfo, topology: &TopologyTable, rng: &mut StdRng) -> (r: Vec<CandidateEgress>)
        requires
            self.acceptable(candidates@, *router, *info, *topology),
        ensures
            self.outcomes(candidates@, *router, *info, *topology).contains(r@),
        decreases self,
    {
        let ghost cs = candidates@;
        match self {
            VirtualChannelPolicy::Identity(p) => p.filter(candidates),
            VirtualChannelPolicy::Random(p) => p.filter(candidates, rng),
            VirtualChannelPolicy::Shortest(p) => p.filter(candidates, router),
            VirtualChannelPolicy::Hops(p) => p.filter(candidates, info),
            VirtualChannelPolicy::EnforceFlowControl(p) => p.filter(candidates),
            VirtualChannelPolicy::WideHops(p) => p.filter(candidates, info),
            VirtualChannelPolicy::LowestSinghWeight(p) => p.filter(candidates, router, info, topology),
            VirtualChannelPolicy::LowestLabel(p) => p.filter(candidates),
            VirtualChannelPolicy::LabelSaturate(p) => p.filter(candidates),
            VirtualChannelPolicy::LabelTransform(p) => p.filter(candidates),
            VirtualChannelPolicy::OccupancyFunction(p) => p.filter(candidates, router, info, topology),
            VirtualChannelPolicy::NegateLabel(p) => p.filter(candidates),
            VirtualChannelPolicy::VecLabel(p) => p.filter(candidates, router, info, topology),
            VirtualChannelPolicy::ShiftEntryVC(p) => p.filter(candidates, router, info, topology),
            VirtualChannelPolicy::MapLabel(m) => {
                let dist = topology.distance(router.index, info.target_router_index);
                if dist == 0 {
                    return candidates;
                }
                let n = m.label_to_policy.len();
                let groups = split_by_group(candidates, n);
                let ghost all_groups = groups@;
                let mut groups = groups;
                let mut r: Vec<CandidateEgress> = Vec::new();
                let mut k: usize = 0;
                proof {
                    assert forall|j: int| 0 <= j < n ==> decreases_to!(*self => #[trigger] m.label_to_policy@[j]) by {
                        assert(decreases_to!(*self => *m));
                        assert(decreases_to!(*m => m.label_to_policy));
                        assert(decreases_to!(m.label_to_policy => m.label_to_policy@));
                    }
                    assert(decreases_to!(*self => *m.above_policy));
                    assert(decreases_to!(*self => *m.below_policy));
                }
                while k < n + 2
                    invariant
                        k <= n + 2,
                        n == m.label_to_policy@.len(),
                        n <= i32::MAX,
                        all_groups.len() == n + 2,
                        groups@ == all_groups.skip(k as int),
                        forall|j: int| 0 <= j < n + 2 ==> (#[trigger] all_groups[j])@ == group_candidates(cs, n as int, j),
                        map_acceptable(*m, cs, n + 2, *router, *info, *topology),
                        map_outcomes(*m, cs, k as int, *router, *info, *topology).contains(r@),
                        forall|j: int| 0 <= j < n ==> decreases_to!(*self => #[trigger] m.label_to_policy@[j]),
                        decreases_to!(*self => *m.above_policy),
                        decreases_to!(*self => *m.below_policy),
                    decreases n + 2 - k,
                {
                    let group = take_first(&mut groups);
                    proof {
                        assert(group == all_groups[k as int]);
                        assert(all_groups.skip(k + 1) == all_groups.skip(k as int).drop_first());
                    }
                    proof {
                        lemma_map_acceptable_prefix(*m, cs, n + 2, k as int, *router, *info, *topology);
                    }
                    let part = if k < n {
                        m.label_to_policy[k].filter(group, router, info, topology, rng)
                    } else if k == n {
                        m.above_policy.filter(group, router, info, topology, rng)
                    } else {
                        m.below_policy.filter(group, router, info, topology, rng)
                    };
                    let ghost a = r@;
                    let mut part = part;
                    let ghost b = part@;
                    r.append(&mut part);
                    proof {
                        let before = map_outcomes(*m, cs, k as int, *router, *info, *topology);
                        let last = m.policy_for(k as int).outcomes(group_candidates(cs, n as int, k as int), *router, *info, *topology);
                        assert(before.contains(a) && last.contains(b) && r@ == a + b);
                    }
                    k = k + 1;
                }
                r
            },
        }
    }
}

} // verus!
