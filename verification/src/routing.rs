//! A routing defines the ways to select a next router to eventually reach the destination.

use vstd::prelude::*;
use crate::topology::{Location, TopologyTable};
use rand::rngs::StdRng;
use crate::rng::{gen_range, shuffle};

verus! {

///Information stored in the packet for the routing algorithms to operate.
#[derive(Debug)]
pub struct RoutingInfo {
    ///Number of edges traversed (Router--Router).
    pub hops: usize,
    ///Difference in coordinates from origin to destination
    pub routing_record: Option<Vec<i32>>,
    ///List of router indexes in the selected path from origin to destination
    pub selected_path: Option<Vec<usize>>,
    ///Some selections made by the routing
    pub selections: Option<Vec<i32>>,
    ///List of router indexes that have been visited already.
    pub visited_routers: Option<Vec<usize>>,
    ///Mostly for the generic Valiant scheme.
    pub meta: Option<Vec<RoutingInfo>>,
}

///The routing information of a packet that has not moved yet: no hops and nothing recorded.
pub open spec fn fresh_routing_info() -> RoutingInfo {
    RoutingInfo {
        hops: 0,
        routing_record: None,
        selected_path: None,
        selections: None,
        visited_routers: None,
        meta: None,
    }
}

impl RoutingInfo {
    pub fn new() -> (r: RoutingInfo)
        ensures
            r == fresh_routing_info(),
    {
        RoutingInfo {
            hops: 0,
            routing_record: None,
            selected_path: None,
            selections: None,
            visited_routers: None,
            meta: None,
        }
    }
}

///Annotations by the routing to keep track of the candidates.
#[derive(Debug)]
pub struct RoutingAnnotation {
    pub values: Vec<i32>,
    pub meta: Vec<Option<RoutingAnnotation>>,
}

///Represent a port plus additional information that a routing algorithm can determine on how a packet must advance to the next router or server.
#[derive(Debug)]
pub struct CandidateEgress {
    ///Candidate exit port
    pub port: usize,
    ///Candidate virtual channel in which being inserted.
    pub virtual_channel: usize,
    ///Value used to indicate priorities. Semantics defined per routing and policy. Routing should use low values for more priority.
    pub label: i32,
    ///An estimation of the number of hops pending. This include the hop we are requesting.
    pub estimated_remaining_hops: Option<usize>,
    ///The routing must set this to None.
    ///The router can set it to `Some(true)` when it satisfies all flow-cotrol criteria and to `Some(false)` when it fails any criterion.
    pub router_allows: Option<bool>,
    ///Annotations for the routing to know to what candidate the router refers.
    ///It should be preserved by the policies.
    pub annotation: Option<RoutingAnnotation>,
}

impl CandidateEgress {
    pub fn new(port: usize, virtual_channel: usize) -> (c: CandidateEgress)
        ensures
            c.port == port,
            c.virtual_channel == virtual_channel,
            c.label == 0,
            c.estimated_remaining_hops is None,
            c.router_allows is None,
            c.annotation is None,
    {
        CandidateEgress {
            port,
            virtual_channel,
            label: 0,
            estimated_remaining_hops: None,
            router_allows: None,
            annotation: None,
        }
    }
}

///The candidate with another label, everything else kept.
pub open spec fn with_label(c: CandidateEgress, label: i32) -> CandidateEgress {
    CandidateEgress {
        port: c.port,
        virtual_channel: c.virtual_channel,
        label,
        estimated_remaining_hops: c.estimated_remaining_hops,
        router_allows: c.router_allows,
        annotation: c.annotation,
    }
}

///Gives the candidate another label.
pub fn set_label(c: CandidateEgress, label: i32) -> (r: CandidateEgress)
    ensures
        r == with_label(c, label),
{
    CandidateEgress { label, ..c }
}

///Takes the first element out of a nonempty vector.
pub fn take_first<T>(v: &mut Vec<T>) -> (x: T)
    requires
        old(v)@.len() > 0,
    ensures
        x == old(v)@[0],
        final(v)@ == old(v)@.drop_first(),
{
    v.remove(0)
}


///A candidate for a port and virtual channel, with an estimation of the hops left and no label.
pub open spec fn egress(port: int, vc: int, estimated: Option<usize>) -> CandidateEgress {
    CandidateEgress {
        port: port as usize,
        virtual_channel: vc as usize,
        label: 0,
        estimated_remaining_hops: estimated,
        router_allows: None,
        annotation: None,
    }
}

///The candidates of a port: one per virtual channel, in order.
pub open spec fn port_candidates(port: int, num_virtual_channels: nat, estimated: Option<usize>) -> Seq<CandidateEgress> {
    Seq::new(num_virtual_channels, |vc: int| egress(port, vc, estimated))
}

///The candidates of the first `k` ports that `selected` picks, port after port.
pub open spec fn selected_candidates(
    selected: spec_fn(int) -> bool,
    k: int,
    num_virtual_channels: nat,
    estimated: Option<usize>,
) -> Seq<CandidateEgress>
    decreases k,
{
    if k <= 0 {
        Seq::empty()
    } else {
        selected_candidates(selected, k - 1, num_virtual_channels, estimated)
            + if selected(k - 1) { port_candidates(k - 1, num_virtual_channels, estimated) } else { Seq::empty() }
    }
}

///Appends the candidates of a port.
fn push_port_candidates(r: &mut Vec<CandidateEgress>, port: usize, num_virtual_channels: usize, estimated: Option<usize>)
    ensures
        final(r)@ == old(r)@ + port_candidates(port as int, num_virtual_channels as nat, estimated),
{
    let mut vc: usize = 0;
    while vc < num_virtual_channels
        invariant
            vc <= num_virtual_channels,
            r@ == old(r)@ + port_candidates(port as int, vc as nat, estimated),
        decreases num_virtual_channels - vc,
    {
        let mut c = CandidateEgress::new(port, vc);
        c.estimated_remaining_hops = estimated;
        r.push(c);
        proof {
            assert(port_candidates(port as int, (vc + 1) as nat, estimated)
                =~= port_candidates(port as int, vc as nat, estimated).push(egress(port as int, vc as int, estimated)));
        }
        vc = vc + 1;
    }
}

///The candidates of every port of the router that `keep` accepts, as `selected` tells, port after port.
fn collect_candidates<F: Fn(usize) -> bool>(
    topology: &TopologyTable,
    router: usize,
    num_virtual_channels: usize,
    estimated: Option<usize>,
    keep: F,
    Ghost(selected): Ghost<spec_fn(int) -> bool>,
) -> (r: Vec<CandidateEgress>)
    requires
        router < topology.spec_num_routers(),
        forall|p: usize| p < topology.spec_ports(router as int) ==> #[trigger] keep.requires((p,)),
        forall|p: usize, b: bool| keep.ensures((p,), b) ==> b == selected(p as int),
    ensures
        r@ == selected_candidates(selected, topology.spec_ports(router as int) as int, num_virtual_channels as nat, estimated),
{
    let num_ports = topology.ports(router);
    let mut r: Vec<CandidateEgress> = Vec::new();
    let mut i: usize = 0;
    while i < num_ports
        invariant
            i <= num_ports,
            num_ports == topology.spec_ports(router as int),
            forall|p: usize| p < topology.spec_ports(router as int) ==> #[trigger] keep.requires((p,)),
            forall|p: usize, b: bool| keep.ensures((p,), b) ==> b == selected(p as int),
            r@ == selected_candidates(selected, i as int, num_virtual_channels as nat, estimated),
        decreases num_ports - i,
    {
        if keep(i) {
            push_port_candidates(&mut r, i, num_virtual_channels, estimated);
        } else {
            proof {
                assert(r@ + Seq::<CandidateEgress>::empty() =~= r@);
            }
        }
        i = i + 1;
    }
    r
}

///Whether the port of the router leads to the server.
pub open spec fn leads_to_server(topology: &TopologyTable, router: int, port: int, server: usize) -> bool {
    topology.spec_neighbour(router, port).0 == Location::ServerPort(server)
}

///Some port of the router leads to the server.
pub open spec fn server_attached(topology: &TopologyTable, router: int, server: usize) -> bool {
    exists|p: int| 0 <= p < topology.spec_ports(router) && #[trigger] leads_to_server(topology, router, p, server)
}

///The candidates towards a server attached to the router: all the virtual channels of the first port that leads to it.
pub open spec fn candidates_to_server(topology: &TopologyTable, router: int, server: usize, num_virtual_channels: nat) -> Seq<CandidateEgress> {
    let p = choose|p: int| {
        &&& 0 <= p < topology.spec_ports(router)
        &&& #[trigger] leads_to_server(topology, router, p, server)
        &&& forall|q: int| 0 <= q < p ==> !leads_to_server(topology, router, q, server)
    };
    port_candidates(p, num_virtual_channels, None)
}

///The candidates towards a server attached to the current router.
fn to_attached_server(topology: &TopologyTable, router: usize, server: usize, num_virtual_channels: usize) -> (r: Vec<CandidateEgress>)
    requires
        router < topology.spec_num_routers(),
        server_attached(topology, router as int, server),
    ensures
        r@ == candidates_to_server(topology, router as int, server, num_virtual_channels as nat),
{
    let num_ports = topology.ports(router);
    let mut i: usize = 0;
    while i < num_ports
        invariant
            i <= num_ports,
            router < topology.spec_num_routers(),
            num_ports == topology.spec_ports(router as int),
            server_attached(topology, router as int, server),
            forall|q: int| 0 <= q < i ==> !leads_to_server(topology, router as int, q, server),
        decreases num_ports - i,
    {
        if let (Location::ServerPort(s), _) = topology.neighbour(router, i) {
            if s == server {
                let mut r: Vec<CandidateEgress> = Vec::new();
                push_port_candidates(&mut r, i, num_virtual_channels, None);
                proof {
                    assert(leads_to_server(topology, router as int, i as int, server));
                    let p = choose|p: int| {
                        &&& 0 <= p < topology.spec_ports(router as int)
                        &&& #[trigger] leads_to_server(topology, router as int, p, server)
                        &&& forall|q: int| 0 <= q < p ==> !leads_to_server(topology, router as int, q, server)
                    };
                    if p < i {
                    } else if p > i {
                        assert(!leads_to_server(topology, router as int, i as int, server));
                    }
                    assert(p == i);
                    assert(Seq::<CandidateEgress>::empty() + port_candidates(i as int, num_virtual_channels as nat, None)
                        =~= port_candidates(i as int, num_virtual_channels as nat, None));
                }
                return r;
            }
        }
        i = i + 1;
    }
    proof {
        let p = choose|p: int| 0 <= p < topology.spec_ports(router as int) && #[trigger] leads_to_server(topology, router as int, p, server);
        assert(!leads_to_server(topology, router as int, p, server));
    }
    Vec::new()
}

///The router the server is attached to.
pub open spec fn target_router_of(topology: &TopologyTable, server: usize) -> usize {
    topology.spec_server_router(server as int)->0
}

///The target server exists, is attached to a router, and the current router exists.
pub open spec fn routable(topology: &TopologyTable, router: usize, server: usize) -> bool {
    &&& topology.wf()
    &&& router < topology.spec_num_routers()
    &&& server < topology.servers@.len()
    &&& topology.spec_server_router(server as int) is Some
}

///The router to which a server is attached.
fn target_router(topology: &TopologyTable, server: usize) -> (t: usize)
    requires
        topology.wf(),
        server < topology.servers@.len(),
        topology.spec_server_router(server as int) is Some,
    ensures
        t == target_router_of(topology, server),
        t < topology.spec_num_routers(),
{
    match topology.server_neighbour(server).0 {
        Location::RouterPort { router_index, router_port: _ } => router_index,
        _ => 0,
    }
}

///The router a port leads to, if it leads to a router.
pub open spec fn next_router_of(topology: &TopologyTable, router: int, port: int) -> Option<usize> {
    match topology.spec_neighbour(router, port).0 {
        Location::RouterPort { router_index, router_port } => Some(router_index),
        _ => None,
    }
}

///Use the shortest path from origin to destination
#[derive(Debug)]
pub struct Shortest {}

impl Shortest {
    pub fn new() -> Shortest {
        Shortest {}
    }

    ///The ports that go one hop closer to the target router.
    pub open spec fn selects(topology: &TopologyTable, router: usize, target: usize, port: int) -> bool {
        match next_router_of(topology, router as int, port) {
            Some(n) => topology.spec_distance(n as int, target as int) + 1 == topology.spec_distance(router as int, target as int),
            None => false,
        }
    }

    ///At the target router, the port to the server; elsewhere every virtual channel of every port one hop closer, estimating the distance as the hops left.
    pub fn next(&self, topology: &TopologyTable, current_router: usize, target_server: usize, num_virtual_channels: usize) -> (r: Vec<CandidateEgress>)
        requires
            routable(topology, current_router, target_server),
            topology.spec_distance(current_router as int, target_router_of(topology, target_server) as int) == 0
                ==> server_attached(topology, current_router as int, target_server),
        ensures
            ({
                let t = target_router_of(topology, target_server);
                let d = topology.spec_distance(current_router as int, t as int);
                &&& d == 0 ==> r@ == candidates_to_server(topology, current_router as int, target_server, num_virtual_channels as nat)
                &&& d != 0 ==> r@ == selected_candidates(
                    |p: int| Self::selects(topology, current_router, t, p),
                    topology.spec_ports(current_router as int) as int,
                    num_virtual_channels as nat,
                    Some(d))
            }),
    {
        let target = target_router(topology, target_server);
        let distance = topology.distance(current_router, target);
        if distance == 0 {
            return to_attached_server(topology, current_router, target_server, num_virtual_channels);
        }
        collect_candidates(
            topology,
            current_router,
            num_virtual_channels,
            Some(distance),
            (|p: usize| -> (b: bool)
                requires
                    p < topology.spec_ports(current_router as int),
                ensures
                    b == Self::selects(topology, current_router, target, p as int),
                {
                    match topology.neighbour(current_router, p).0 {
                        Location::RouterPort { router_index, router_port: _ } => {
                            distance - 1 == topology.distance(router_index, target)
                        },
                        _ => false,
                    }
                }),
            Ghost(|p: int| Self::selects(topology, current_router, target, p)),
        )
    }
}

///Use any path that goes to another router, whatever its distance.
#[derive(Debug)]
pub struct Mindless {}

impl Mindless {
    pub fn new() -> Mindless {
        Mindless {}
    }

    ///The ports that lead to a router.
    pub open spec fn selects(topology: &TopologyTable, router: usize, port: int) -> bool {
        next_router_of(topology, router as int, port) is Some
    }

    ///At the target router, the port to the server; elsewhere every virtual channel of every port to another router.
    pub fn next(&self, topology: &TopologyTable, current_router: usize, target_server: usize, num_virtual_channels: usize) -> (r: Vec<CandidateEgress>)
        requires
            routable(topology, current_router, target_server),
            target_router_of(topology, target_server) == current_router ==> server_attached(topology, current_router as int, target_server),
        ensures
            target_router_of(topology, target_server) == current_router ==>
                r@ == candidates_to_server(topology, current_router as int, target_server, num_virtual_channels as nat),
            target_router_of(topology, target_server) != current_router ==>
                r@ == selected_candidates(
                    |p: int| Self::selects(topology, current_router, p),
                    topology.spec_ports(current_router as int) as int,
                    num_virtual_channels as nat,
                    None),
    {
        let target = target_router(topology, target_server);
        if target == current_router {
            return to_attached_server(topology, current_router, target_server, num_virtual_channels);
        }
        collect_candidates(
            topology,
            current_router,
            num_virtual_channels,
            None,
            (|p: usize| -> (b: bool)
                requires
                    p < topology.spec_ports(current_router as int),
                ensures
                    b == Self::selects(topology, current_router, p as int),
                {
                    match topology.neighbour(current_router, p).0 {
                        Location::RouterPort { router_index: _, router_port: _ } => true,
                        _ => false,
                    }
                }),
            Ghost(|p: int| Self::selects(topology, current_router, p)),
        )
    }
}

///Use the shortest path by weights of the link classes: a router matrix of weighted distances.
#[derive(Debug)]
pub struct WeighedShortest {
    ///The weights used for each link class. Only relevant links between routers.
    pub class_weight: Vec<usize>,
    ///The distance matrix computed, including weights.
    pub distance_matrix: Vec<Vec<usize>>,
}

impl WeighedShortest {
    pub fn new(class_weight: Vec<usize>) -> (r: WeighedShortest)
        ensures
            r.class_weight@ == class_weight@,
            r.distance_matrix@.len() == 0,
    {
        WeighedShortest { class_weight, distance_matrix: Vec::new() }
    }

    ///Sets the matrix of weighted distances between routers, as the topology computes it with the class weights.
    pub fn initialize(&mut self, distance_matrix: Vec<Vec<usize>>)
        ensures
            final(self).class_weight@ == old(self).class_weight@,
            final(self).distance_matrix@ == distance_matrix@,
    {
        self.distance_matrix = distance_matrix;
    }

    ///The weighted distance from a router to another.
    pub open spec fn weighted(&self, a: int, b: int) -> int {
        self.distance_matrix@[a]@[b] as int
    }

    ///The matrix covers the routers of the topology and the classes of its links between routers have weights.
    pub open spec fn fits(&self, topology: &TopologyTable) -> bool {
        &&& self.distance_matrix@.len() == topology.spec_num_routers()
        &&& forall|a: int| 0 <= a < self.distance_matrix@.len() ==> (#[trigger] self.distance_matrix@[a])@.len() == topology.spec_num_routers()
        &&& forall|r: int, p: int| 0 <= r < topology.spec_num_routers() && 0 <= p < topology.spec_ports(r)
            && (#[trigger] topology.spec_neighbour(r, p)).0 is RouterPort ==> topology.spec_neighbour(r, p).1 < self.class_weight@.len()
    }

    ///The ports whose link weight plus the weighted distance from the next router is the weighted distance from here.
    pub open spec fn selects(&self, topology: &TopologyTable, router: usize, target: usize, port: int) -> bool {
        match next_router_of(topology, router as int, port) {
            Some(n) => self.weighted(n as int, target as int) + self.class_weight@[topology.spec_neighbour(router as int, port).1 as int]
                == self.weighted(router as int, target as int),
            None => false,
        }
    }

    ///At the target router, the port to the server; elsewhere every virtual channel of every port on a path of least weight.
    pub fn next(&self, topology: &TopologyTable, current_router: usize, target_server: usize, num_virtual_channels: usize) -> (r: Vec<CandidateEgress>)
        requires
            routable(topology, current_router, target_server),
            self.fits(topology),
            self.weighted(current_router as int, target_router_of(topology, target_server) as int) == 0
                ==> server_attached(topology, current_router as int, target_server),
        ensures
            ({
                let t = target_router_of(topology, target_server);
                &&& self.weighted(current_router as int, t as int) == 0
                    ==> r@ == candidates_to_server(topology, current_router as int, target_server, num_virtual_channels as nat)
                &&& self.weighted(current_router as int, t as int) != 0 ==> r@ == selected_candidates(
                    |p: int| self.selects(topology, current_router, t, p),
                    topology.spec_ports(current_router as int) as int,
                    num_virtual_channels as nat,
                    None)
            }),
    {
        let target = target_router(topology, target_server);
        let distance = self.distance_matrix[current_router][target];
        if distance == 0 {
            return to_attached_server(topology, current_router, target_server, num_virtual_channels);
        }
        let weights = &self.class_weight;
        let matrix = &self.distance_matrix;
        collect_candidates(
            topology,
            current_router,
            num_virtual_channels,
            None,
            (|p: usize| -> (b: bool)
                requires
                    p < topology.spec_ports(current_router as int),
                ensures
                    b == self.selects(topology, current_router, target, p as int),
                {
                    let (location, link_class) = topology.neighbour(current_router, p);
                    match location {
                        Location::RouterPort { router_index, router_port: _ } => {
                            let link_weight = weights[link_class];
                            let new_distance = matrix[router_index][target];
                            new_distance <= distance && link_weight == distance - new_distance
                        },
                        _ => false,
                    }
                }),
            Ghost(|p: int| self.selects(topology, current_router, target, p)),
        )
    }
}

///Whether a step from up/down distances `(u, d)` to `(nu, nd)` shortens one and lengthens none.
pub open spec fn up_down_closer(u: usize, d: usize, nu: usize, nd: usize) -> bool {
    (nu < u && nd <= d) || (nu <= u && nd < d)
}

///The ports whose router is closer along up/down paths, as a table of up/down distances tells.
pub open spec fn up_down_selects(table: spec_fn(int, int) -> Option<(usize, usize)>, topology: &TopologyTable, router: usize, target: usize, port: int) -> bool {
    match next_router_of(topology, router as int, port) {
        Some(n) => match (table(router as int, target as int), table(n as int, target as int)) {
            (Some((u, d)), Some((nu, nd))) => up_down_closer(u, d, nu, nd),
            _ => false,
        },
        None => false,
    }
}

///Use a shortest up/down path from origin to destination.
///The up/down paths must be provided by the topology.
#[derive(Debug)]
pub struct UpDown {}

impl UpDown {
    pub fn new() -> UpDown {
        UpDown {}
    }

    ///At the target router, the port to the server; elsewhere every virtual channel of every port closer by up/down distance.
    pub fn next(&self, topology: &TopologyTable, current_router: usize, target_server: usize, num_virtual_channels: usize) -> (r: Vec<CandidateEgress>)
        requires
            routable(topology, current_router, target_server),
            topology.spec_up_down(current_router as int, target_router_of(topology, target_server) as int) is Some,
            ({
                let (u, d) = topology.spec_up_down(current_router as int, target_router_of(topology, target_server) as int)->0;
                &&& u + d <= usize::MAX
                &&& u + d == 0 ==> server_attached(topology, current_router as int, target_server)
            }),
        ensures
            ({
                let t = target_router_of(topology, target_server);
                let (u, d) = topology.spec_up_down(current_router as int, t as int)->0;
                &&& u + d == 0 ==> r@ == candidates_to_server(topology, current_router as int, target_server, num_virtual_channels as nat)
                &&& u + d != 0 ==> r@ == selected_candidates(
                    |p: int| up_down_selects(|a: int, b: int| topology.spec_up_down(a, b), topology, current_router, t, p),
                    topology.spec_ports(current_router as int) as int,
                    num_virtual_channels as nat,
                    None)
            }),
    {
        let target = target_router(topology, target_server);
        let (up_distance, down_distance) = match topology.up_down_distance(current_router, target) {
            Some(x) => x,
            None => (0, 0),
        };
        if up_distance + down_distance == 0 {
            return to_attached_server(topology, current_router, target_server, num_virtual_channels);
        }
        collect_candidates(
            topology,
            current_router,
            num_virtual_channels,
            None,
            (|p: usize| -> (b: bool)
                requires
                    p < topology.spec_ports(current_router as int),
                ensures
                    b == up_down_selects(|a: int, b: int| topology.spec_up_down(a, b), topology, current_router, target, p as int),
                {
                    match topology.neighbour(current_router, p).0 {
                        Location::RouterPort { router_index, router_port: _ } => {
                            match topology.up_down_distance(router_index, target) {
                                Some((new_u, new_d)) => (new_u < up_distance && new_d <= down_distance)
                                    || (new_u <= up_distance && new_d < down_distance),
                                None => false,
                            }
                        },
                        _ => false,
                    }
                }),
            Ghost(|p: int| up_down_selects(|a: int, b: int| topology.spec_up_down(a, b), topology, current_router, target, p)),
        )
    }
}

///Set the virtual channels to use in each hop.
///Sometimes the same can be achieved by the router policy `Hops`.
#[derive(Debug)]
pub struct ChannelsPerHop {
    ///channels[k] is the list of available VCs to use in the k-th hop.
    ///This includes the last hop towards the server.
    pub channels: Vec<Vec<usize>>,
}

impl ChannelsPerHop {
    pub fn new(channels: Vec<Vec<usize>>) -> (r: ChannelsPerHop)
        ensures
            r.channels@ == channels@,
    {
        ChannelsPerHop { channels }
    }

    ///Keeps, in order, the candidates of the base routing whose virtual channel is listed for the hop being made.
    pub fn filter(&self, hops: usize, candidates: Vec<CandidateEgress>) -> (r: Vec<CandidateEgress>)
        requires
            hops < self.channels@.len(),
        ensures
            r@ == candidates@.filter(|c: CandidateEgress| self.channels@[hops as int]@.contains(c.virtual_channel)),
    {
        let ghost orig = candidates@;
        let ghost pred = |c: CandidateEgress| self.channels@[hops as int]@.contains(c.virtual_channel);
        let vcs = &self.channels[hops];
        let mut rest = candidates;
        let mut out: Vec<CandidateEgress> = Vec::new();
        let ghost mut i: int = 0;
        while rest.len() > 0
            invariant
                0 <= i <= orig.len(),
                rest@ == orig.skip(i),
                vcs@ == self.channels@[hops as int]@,
                pred == (|c: CandidateEgress| self.channels@[hops as int]@.contains(c.virtual_channel)),
                out@ == orig.take(i).filter(pred),
            decreases rest@.len(),
        {
            let c = take_first(&mut rest);
            proof {
                assert(c == orig[i]);
                assert(orig.take(i + 1) == orig.take(i).push(c));
                orig.take(i).lemma_filter_push(c, pred);
                assert(orig.skip(i + 1) == orig.skip(i).drop_first());
            }
            if vec_has(vcs, c.virtual_channel) {
                out.push(c);
            }
            proof {
                i = i + 1;
            }
        }
        proof {
            assert(orig.take(orig.len() as int) == orig);
        }
        out
    }
}

///Whether a vector holds a value.
pub fn vec_has(v: &Vec<usize>, x: usize) -> (b: bool)
    ensures
        b == v@.contains(x),
{
    let mut i: usize = 0;
    while i < v.len()
        invariant
            i <= v@.len(),
            forall|k: int| 0 <= k < i ==> v@[k] != x,
        decreases v@.len() - i,
    {
        if v[i] == x {
            proof {
                assert(v@[i as int] == x);
            }
            return true;
        }
        i = i + 1;
    }
    false
}


///The base candidates paired with each virtual channel the map lists for their channel, in order.
pub open spec fn mapped_pairs(map: Seq<Vec<usize>>, cs: Seq<CandidateEgress>) -> Seq<(CandidateEgress, usize)>
    decreases cs.len(),
{
    if cs.len() == 0 {
        Seq::empty()
    } else {
        let c = cs.last();
        mapped_pairs(map, cs.drop_last()) + map[c.virtual_channel as int]@.map_values(|vc: usize| (c, vc))
    }
}

///`r` is the candidate `c` on the virtual channel `vc`, with a clone of its annotation.
pub open spec fn moved_to_channel(r: CandidateEgress, c: CandidateEgress, vc: usize) -> bool {
    &&& r.port == c.port
    &&& r.virtual_channel == vc
    &&& r.label == c.label
    &&& r.estimated_remaining_hops == c.estimated_remaining_hops
    &&& r.router_allows == c.router_allows
    &&& (c.annotation is None ==> r.annotation is None)
    &&& (c.annotation is Some ==> r.annotation is Some && copied_annotation(r.annotation->0, c.annotation->0))
}

///`r` copies the annotation `a`: the same values, and nested annotations where `a` has them.
pub open spec fn copied_annotation(r: RoutingAnnotation, a: RoutingAnnotation) -> bool {
    &&& r.values@ == a.values@
    &&& r.meta@.len() == a.meta@.len()
    &&& forall|k: int| 0 <= k < a.meta@.len() ==> ((#[trigger] r.meta@[k]) is Some <==> a.meta@[k] is Some)
}

///A copy of an annotation.
pub fn copy_annotation(a: &RoutingAnnotation) -> (r: RoutingAnnotation)
    ensures
        copied_annotation(r, *a),
    decreases a,
{
    let mut values: Vec<i32> = Vec::new();
    let mut i: usize = 0;
    while i < a.values.len()
        invariant
            i <= a.values@.len(),
            values@ == a.values@.take(i as int),
        decreases a.values@.len() - i,
    {
        values.push(a.values[i]);
        proof {
            assert(a.values@.take(i + 1) == a.values@.take(i as int).push(a.values@[i as int]));
        }
        i = i + 1;
    }
    proof {
        assert(a.values@.take(a.values@.len() as int) == a.values@);
        assert forall|k: int| 0 <= k < a.meta@.len() implies decreases_to!(a => #[trigger] a.meta@[k]) by {
            assert(decreases_to!(a => a.meta));
            assert(decreases_to!(a.meta => a.meta@));
        }
    }
    let mut meta: Vec<Option<RoutingAnnotation>> = Vec::new();
    let mut j: usize = 0;
    while j < a.meta.len()
        invariant
            j <= a.meta@.len(),
            meta@.len() == j,
            forall|k: int| 0 <= k < j ==> ((#[trigger] meta@[k]) is Some <==> a.meta@[k] is Some),
            forall|k: int| 0 <= k < a.meta@.len() ==> decreases_to!(a => #[trigger] a.meta@[k]),
        decreases a.meta@.len() - j,
    {
        let m = match &a.meta[j] {
            Some(inner) => {
                proof {
                    assert(decreases_to!(a.meta@[j as int] => a.meta@[j as int]->Some_0));
                }
                Some(copy_annotation(inner))
            },
            None => None,
        };
        meta.push(m);
        j = j + 1;
    }
    RoutingAnnotation { values, meta }
}

///Maps the virtual channels of a base routing to actual ones: the base is asked with as many channels as the map has, and each of its channels stands for the list the map gives.
#[derive(Debug)]
pub struct ChannelMap {
    pub map: Vec<Vec<usize>>,
}

impl ChannelMap {
    pub fn new(map: Vec<Vec<usize>>) -> (r: ChannelMap)
        ensures
            r.map@ == map@,
    {
        ChannelMap { map }
    }

    ///The number of virtual channels the base routing is asked for.
    pub fn base_virtual_channels(&self) -> (n: usize)
        ensures
            n == self.map@.len(),
    {
        self.map.len()
    }

    ///Each base candidate replaced by one candidate per virtual channel its channel maps to.
    pub fn expand(&self, candidates: Vec<CandidateEgress>) -> (r: Vec<CandidateEgress>)
        requires
            forall|i: int| 0 <= i < candidates@.len() ==> (#[trigger] candidates@[i]).virtual_channel < self.map@.len(),
        ensures
            r@.len() == mapped_pairs(self.map@, candidates@).len(),
            forall|i: int| 0 <= i < r@.len() ==> moved_to_channel(#[trigger] r@[i],
                mapped_pairs(self.map@, candidates@)[i].0, mapped_pairs(self.map@, candidates@)[i].1),
    {
        let mut r: Vec<CandidateEgress> = Vec::new();
        let mut i: usize = 0;
        while i < candidates.len()
            invariant
                i <= candidates@.len(),
                forall|k: int| 0 <= k < candidates@.len() ==> (#[trigger] candidates@[k]).virtual_channel < self.map@.len(),
                r@.len() == mapped_pairs(self.map@, candidates@.take(i as int)).len(),
                forall|k: int| 0 <= k < r@.len() ==> moved_to_channel(#[trigger] r@[k],
                    mapped_pairs(self.map@, candidates@.take(i as int))[k].0, mapped_pairs(self.map@, candidates@.take(i as int))[k].1),
            decreases candidates@.len() - i,
        {
            let c = &candidates[i];
            let vcs = &self.map[c.virtual_channel];
            let ghost before = mapped_pairs(self.map@, candidates@.take(i as int));
            let ghost added = vcs@.map_values(|vc: usize| (*c, vc));
            proof {
                assert(candidates@.take(i + 1).drop_last() == candidates@.take(i as int));
                assert(candidates@.take(i + 1).last() == *c);
                assert(mapped_pairs(self.map@, candidates@.take(i + 1)) == before + added);
            }
            let mut j: usize = 0;
            while j < vcs.len()
                invariant
                    j <= vcs@.len(),
                    added == vcs@.map_values(|vc: usize| (*c, vc)),
                    r@.len() == before.len() + j,
                    forall|k: int| 0 <= k < r@.len() ==> moved_to_channel(#[trigger] r@[k], (before + added)[k].0, (before + added)[k].1),
                decreases vcs@.len() - j,
            {
                let new = CandidateEgress {
                    port: c.port,
                    virtual_channel: vcs[j],
                    label: c.label,
                    estimated_remaining_hops: c.estimated_remaining_hops,
                    router_allows: c.router_allows,
                    annotation: match &c.annotation {
                        Some(a) => Some(copy_annotation(a)),
                        None => None,
                    },
                };
                r.push(new);
                proof {
                    assert((before + added)[before.len() + j] == (*c, vcs@[j as int]));
                }
                j = j + 1;
            }
            i = i + 1;
        }
        proof {
            assert(candidates@.take(candidates@.len() as int) == candidates@);
        }
        r
    }
}

///The virtual channel a hop through a link class must use: the mixed-radix number of the hops made since the last hop through each class at or above it, with the bases as radices.
pub open spec fn ascendant_channel(hops_since: Seq<i32>, bases: Seq<usize>, link_class: int) -> int
    decreases bases.len() - link_class,
{
    if link_class >= bases.len() || link_class < 0 {
        0
    } else {
        ascendant_channel(hops_since, bases, link_class + 1) * bases[link_class] + hops_since[link_class] as int
    }
}

///Uses the virtual channels in ascending order by link class: a hop through a class uses the channel numbered by the hops made since through the classes at or above it.
#[derive(Debug)]
pub struct AscendantChannelsWithLinkClass {
    pub bases: Vec<usize>,
}

impl AscendantChannelsWithLinkClass {
    pub fn new(bases: Vec<usize>) -> (r: AscendantChannelsWithLinkClass)
        ensures
            r.bases@ == bases@,
    {
        AscendantChannelsWithLinkClass { bases }
    }

    ///Whether the candidate's channel is the one for its link class; candidates through classes without a base are all kept.
    pub open spec fn keeps(&self, topology: &TopologyTable, router: usize, hops_since: Seq<i32>, c: CandidateEgress) -> bool {
        let link_class = topology.spec_neighbour(router as int, c.port as int).1;
        link_class >= self.bases@.len() || c.virtual_channel == ascendant_channel(hops_since, self.bases@, link_class as int)
    }

    ///The computation of the channel fits in a `usize` for every class.
    pub open spec fn channels_fit(&self, hops_since: Seq<i32>) -> bool {
        &&& hops_since.len() >= self.bases@.len()
        &&& forall|k: int| 0 <= k < self.bases@.len() ==> 0 <= #[trigger] hops_since[k]
        &&& forall|k: int| 0 <= k <= self.bases@.len() ==> 0 <= #[trigger] ascendant_channel(hops_since, self.bases@, k) <= usize::MAX
        &&& forall|k: int| 0 <= k < self.bases@.len() ==>
            #[trigger] ascendant_channel(hops_since, self.bases@, k + 1) * self.bases@[k] <= usize::MAX
    }

    fn channel_for(&self, hops_since: &Vec<i32>, link_class: usize) -> (vc: usize)
        requires
            link_class < self.bases@.len(),
            self.channels_fit(hops_since@),
        ensures
            vc == ascendant_channel(hops_since@, self.bases@, link_class as int),
    {
        let mut x: usize = 0;
        let mut class: usize = self.bases.len();
        while class > link_class
            invariant
                link_class <= class <= self.bases@.len(),
                self.channels_fit(hops_since@),
                x == ascendant_channel(hops_since@, self.bases@, class as int),
            decreases class,
        {
            class = class - 1;
            proof {
                assert(0 <= ascendant_channel(hops_since@, self.bases@, class as int) <= usize::MAX);
                assert(ascendant_channel(hops_since@, self.bases@, class + 1) * self.bases@[class as int] <= usize::MAX);
            }
            x = x * self.bases[class] + hops_since[class] as usize;
        }
        x
    }

    ///Keeps, in order, the base candidates whose virtual channel is the one their link class must use.
    pub fn filter(&self, candidates: Vec<CandidateEgress>, topology: &TopologyTable, current_router: usize, hops_since: &Vec<i32>) -> (r: Vec<CandidateEgress>)
        requires
            current_router < topology.spec_num_routers(),
            forall|i: int| 0 <= i < candidates@.len() ==> (#[trigger] candidates@[i]).port < topology.spec_ports(current_router as int),
            self.channels_fit(hops_since@),
        ensures
            r@ == candidates@.filter(|c: CandidateEgress| self.keeps(topology, current_router, hops_since@, c)),
    {
        let ghost orig = candidates@;
        let ghost pred = |c: CandidateEgress| self.keeps(topology, current_router, hops_since@, c);
        let mut rest = candidates;
        let mut out: Vec<CandidateEgress> = Vec::new();
        let ghost mut i: int = 0;
        while rest.len() > 0
            invariant
                0 <= i <= orig.len(),
                rest@ == orig.skip(i),
                current_router < topology.spec_num_routers(),
                forall|k: int| 0 <= k < orig.len() ==> (#[trigger] orig[k]).port < topology.spec_ports(current_router as int),
                self.channels_fit(hops_since@),
                pred == (|c: CandidateEgress| self.keeps(topology, current_router, hops_since@, c)),
                out@ == orig.take(i).filter(pred),
            decreases rest@.len(),
        {
            let c = take_first(&mut rest);
            proof {
                assert(c == orig[i]);
                assert(orig.take(i + 1) == orig.take(i).push(c));
                orig.take(i).lemma_filter_push(c, pred);
                assert(orig.skip(i + 1) == orig.skip(i).drop_first());
            }
            let link_class = topology.neighbour(current_router, c.port).1;
            let keep = if link_class >= self.bases.len() {
                true
            } else {
                c.virtual_channel == self.channel_for(hops_since, link_class)
            };
            if keep {
                out.push(c);
            }
            proof {
                i = i + 1;
            }
        }
        proof {
            assert(orig.take(orig.len() as int) == orig);
        }
        out
    }
}

///The hops made since the last hop through each class, after a hop through `link_class`: that class counts one more and the classes below it restart; the list grows with zeros if the class is new.
pub open spec fn hops_after(hops_since: Seq<i32>, link_class: int) -> Seq<i32> {
    let grown = if hops_since.len() <= link_class {
        hops_since + Seq::new((link_class + 1 - hops_since.len()) as nat, |i: int| 0i32)
    } else {
        hops_since
    };
    Seq::new(grown.len(), |k: int| if k < link_class { 0i32 } else if k == link_class { (grown[k] + 1) as i32 } else { grown[k] })
}

///Counts a hop through a link class in the hops made since each class.
pub fn count_link_class_hop(hops_since: &mut Vec<i32>, link_class: usize)
    requires
        link_class < usize::MAX,
        link_class < old(hops_since)@.len() ==> old(hops_since)@[link_class as int] < i32::MAX,
    ensures
        final(hops_since)@ == hops_after(old(hops_since)@, link_class as int),
{
    let ghost before = hops_since@;
    let ghost grown = if before.len() <= link_class {
        before + Seq::new((link_class + 1 - before.len()) as nat, |i: int| 0i32)
    } else {
        before
    };
    while hops_since.len() <= link_class
        invariant
            link_class < usize::MAX,
            before.len() <= hops_since@.len(),
            hops_since@.len() <= link_class + 1 || hops_since@ == before,
            hops_since@ == grown.take(hops_since@.len() as int),
            grown.len() >= hops_since@.len(),
            grown == (if before.len() <= link_class {
                before + Seq::new((link_class + 1 - before.len()) as nat, |i: int| 0i32)
            } else {
                before
            }),
        decreases link_class + 1 - hops_since@.len(),
    {
        hops_since.push(0);
        proof {
            assert(hops_since@ =~= grown.take(hops_since@.len() as int));
        }
    }
    proof {
        assert(hops_since@ == grown) by {
            assert(grown.take(grown.len() as int) == grown);
        }
    }
    let h = hops_since[link_class];
    hops_since.set(link_class, h + 1);
    let mut k: usize = 0;
    while k < link_class
        invariant
            k <= link_class < hops_since@.len(),
            hops_since@.len() == grown.len(),
            forall|m: int| 0 <= m < k ==> #[trigger] hops_since@[m] == 0,
            forall|m: int| k <= m < hops_since@.len() && m != link_class ==> #[trigger] hops_since@[m] == grown[m],
            hops_since@[link_class as int] == grown[link_class as int] + 1,
        decreases link_class - k,
    {
        hops_since.set(k, 0);
        k = k + 1;
    }
    proof {
        assert(hops_since@ =~= hops_after(before, link_class as int));
    }
}

///Stubborn routing
///Wraps a routing so that only one request is made in every router.
///The first time the router make a port request, that request is stored and repeated in further calls to `next` until reaching a new router.
///Stores port, virtual_channel, label into routing_info.selections.
#[derive(Debug)]
pub struct Stubborn {}

///`r` is the base candidate `c` annotated with its label and its own annotation, so that the request can be remembered.
pub open spec fn stubborn_copy(r: CandidateEgress, c: CandidateEgress) -> bool {
    &&& r.port == c.port
    &&& r.virtual_channel == c.virtual_channel
    &&& r.label == c.label
    &&& r.estimated_remaining_hops == c.estimated_remaining_hops
    &&& r.router_allows == c.router_allows
    &&& (r.annotation matches Some(a) && a.values@ == seq![c.label] && a.meta@ == seq![c.annotation])
}

impl Stubborn {
    pub fn new() -> Stubborn {
        Stubborn {}
    }

    ///The request already made in this router, if there was one; else the base candidates, each annotated with its label and annotation.
    pub fn next_from(&self, selections: &Option<Vec<i32>>, base: Vec<CandidateEgress>) -> (r: Vec<CandidateEgress>)
        requires
            selections matches Some(sel) ==> sel@.len() >= 3 && sel@[0] >= 0 && sel@[1] >= 0,
        ensures
            match selections {
                Some(sel) => r@ == seq![CandidateEgress {
                    port: sel@[0] as usize,
                    virtual_channel: sel@[1] as usize,
                    label: sel@[2],
                    estimated_remaining_hops: None,
                    router_allows: None,
                    annotation: None,
                }],
                None => r@.len() == base@.len() && forall|i: int| 0 <= i < base@.len() ==>
                    stubborn_copy(#[trigger] r@[i], base@[i]),
            },
    {
        match selections {
            Some(sel) => {
                let mut r: Vec<CandidateEgress> = Vec::new();
                let mut c = CandidateEgress::new(sel[0] as usize, sel[1] as usize);
                c.label = sel[2];
                r.push(c);
                proof {
                    assert(r@ =~= seq![c]);
                }
                r
            },
            None => {
                let ghost orig = base@;
                let mut rest = base;
                let mut r: Vec<CandidateEgress> = Vec::new();
                let ghost mut i: int = 0;
                while rest.len() > 0
                    invariant
                        0 <= i <= orig.len(),
                        rest@ == orig.skip(i),
                        r@.len() == i,
                        forall|k: int| 0 <= k < i ==> stubborn_copy(#[trigger] r@[k], orig[k]),
                    decreases rest@.len(),
                {
                    let c = take_first(&mut rest);
                    proof {
                        assert(c == orig[i]);
                        assert(orig.skip(i + 1) == orig.skip(i).drop_first());
                    }
                    let mut values: Vec<i32> = Vec::new();
                    values.push(c.label);
                    let mut meta: Vec<Option<RoutingAnnotation>> = Vec::new();
                    let label = c.label;
                    let CandidateEgress { port, virtual_channel, label: _, estimated_remaining_hops, router_allows, annotation } = c;
                    meta.push(annotation);
                    proof {
                        assert(values@ =~= seq![label]);
                        assert(meta@ =~= seq![orig[i].annotation]);
                    }
                    r.push(CandidateEgress {
                        port,
                        virtual_channel,
                        label,
                        estimated_remaining_hops,
                        router_allows,
                        annotation: Some(RoutingAnnotation { values, meta }),
                    });
                    proof {
                        i = i + 1;
                    }
                }
                r
            },
        }
    }

    ///The selections remembered once a request is performed: the port, virtual channel and label of an annotated request; `None` when the request carries no annotation, as those towards the server.
    pub fn remembered_selection(&self, requested: &CandidateEgress) -> (r: Option<Vec<i32>>)
        requires
            requested.port <= i32::MAX,
            requested.virtual_channel <= i32::MAX,
            requested.annotation matches Some(a) ==> a.values@.len() > 0,
        ensures
            match requested.annotation {
                Some(a) => r matches Some(v) && v@ == seq![requested.port as i32, requested.virtual_channel as i32, a.values@[0]],
                None => r is None,
            },
    {
        match &requested.annotation {
            Some(a) => {
                let mut v: Vec<i32> = Vec::new();
                v.push(requested.port as i32);
                v.push(requested.virtual_channel as i32);
                v.push(a.values[0]);
                proof {
                    assert(v@ =~= seq![requested.port as i32, requested.virtual_channel as i32, a.values@[0]]);
                }
                Some(v)
            },
            None => None,
        }
    }
}

///Whether a vector of reserved virtual channels holds one.
fn reserved(v: &Vec<usize>, vc: usize) -> (b: bool)
    ensures
        b == v@.contains(vc),
{
    vec_has(v, vc)
}

///Valiant scheme. Proceed to a random intermediate router and then to the destination.
///The intermediate routing and the final routing may reserve virtual channels for themselves.
#[derive(Debug)]
pub struct Valiant {
    ///Whether to avoid selecting routers without attached servers. This helps to apply it to indirect networks.
    pub selection_exclude_indirect_routers: bool,
    pub first_reserved_virtual_channels: Vec<usize>,
    pub second_reserved_virtual_channels: Vec<usize>,
}

impl Valiant {
    pub fn new(
        selection_exclude_indirect_routers: bool,
        first_reserved_virtual_channels: Vec<usize>,
        second_reserved_virtual_channels: Vec<usize>,
    ) -> (r: Valiant)
        ensures
            r.selection_exclude_indirect_routers == selection_exclude_indirect_routers,
            r.first_reserved_virtual_channels@ == first_reserved_virtual_channels@,
            r.second_reserved_virtual_channels@ == second_reserved_virtual_channels@,
    {
        Valiant { selection_exclude_indirect_routers, first_reserved_virtual_channels, second_reserved_virtual_channels }
    }

    ///In the second part, the candidates of the final routing that avoid the channels reserved for the first part.
    pub fn second_part(&self, candidates: Vec<CandidateEgress>) -> (r: Vec<CandidateEgress>)
        ensures
            r@ == candidates@.filter(|c: CandidateEgress| !self.first_reserved_virtual_channels@.contains(c.virtual_channel)),
    {
        let reserved_first = &self.first_reserved_virtual_channels;
        crate::policies::filter_candidates(
            candidates,
            (|c: &CandidateEgress| -> (b: bool)
                ensures
                    b == !reserved_first@.contains(c.virtual_channel),
                { !reserved(reserved_first, c.virtual_channel) }),
            Ghost(|c: CandidateEgress| !self.first_reserved_virtual_channels@.contains(c.virtual_channel)),
        )
    }

    ///In the first part, the candidates of the routing towards the intermediate router that avoid the channels reserved for the second part, their estimation of hops increased by the distance left after the intermediate.
    pub fn first_part(&self, candidates: Vec<CandidateEgress>, second_distance: usize) -> (r: Vec<CandidateEgress>)
        requires
            forall|i: int| 0 <= i < candidates@.len() ==>
                ((#[trigger] candidates@[i]).estimated_remaining_hops matches Some(h) ==> h + second_distance <= usize::MAX),
        ensures
            r@ == candidates@.filter(|c: CandidateEgress| !self.second_reserved_virtual_channels@.contains(c.virtual_channel))
                .map_values(|c: CandidateEgress| with_extra_hops(c, second_distance)),
    {
        let ghost orig = candidates@;
        let ghost pred = |c: CandidateEgress| !self.second_reserved_virtual_channels@.contains(c.virtual_channel);
        let ghost bump = |c: CandidateEgress| with_extra_hops(c, second_distance);
        let mut rest = candidates;
        let mut out: Vec<CandidateEgress> = Vec::new();
        let ghost mut i: int = 0;
        while rest.len() > 0
            invariant
                0 <= i <= orig.len(),
                rest@ == orig.skip(i),
                forall|k: int| 0 <= k < orig.len() ==>
                    ((#[trigger] orig[k]).estimated_remaining_hops matches Some(h) ==> h + second_distance <= usize::MAX),
                pred == (|c: CandidateEgress| !self.second_reserved_virtual_channels@.contains(c.virtual_channel)),
                bump == (|c: CandidateEgress| with_extra_hops(c, second_distance)),
                out@ == orig.take(i).filter(pred).map_values(bump),
            decreases rest@.len(),
        {
            let c = take_first(&mut rest);
            proof {
                assert(c == orig[i]);
                assert(orig.take(i + 1) == orig.take(i).push(c));
                orig.take(i).lemma_filter_push(c, pred);
                assert(orig.skip(i + 1) == orig.skip(i).drop_first());
            }
            if !reserved(&self.second_reserved_virtual_channels, c.virtual_channel) {
                let mut e = c;
                e.estimated_remaining_hops = match e.estimated_remaining_hops {
                    Some(h) => Some(h + second_distance),
                    None => None,
                };
                proof {
                    assert(e == bump(orig[i]));
                    assert(orig.take(i).filter(pred).push(orig[i]).map_values(bump)
                        =~= orig.take(i).filter(pred).map_values(bump).push(bump(orig[i])));
                }
                out.push(e);
            }
            proof {
                i = i + 1;
            }
        }
        proof {
            assert(orig.take(orig.len() as int) == orig);
        }
        out
    }
}

///The candidate with its estimation of hops increased, when it has one.
pub open spec fn with_extra_hops(c: CandidateEgress, extra: usize) -> CandidateEgress {
    CandidateEgress {
        estimated_remaining_hops: match c.estimated_remaining_hops {
            Some(h) => Some((h + extra) as usize),
            None => None,
        },
        ..c
    }
}


///A routing that chooses whole paths at the source: for each pair of routers, the paths (lists of routers, the source first) that may be taken.
pub trait SourceRouting {
    ///The paths from `source` to `target`.
    spec fn paths(&self, source: usize, target: usize) -> Seq<Vec<usize>>;

    ///The routing knows the paths between the routers.
    spec fn knows(&self, source: usize, target: usize) -> bool;

    fn get_paths(&self, source: usize, target: usize) -> (r: &Vec<Vec<usize>>)
        requires
            self.knows(source, target),
        ensures
            r@ == self.paths(source, target),
    ;
}

///A source routing whose paths are given as a table: `paths[source][target]`.
#[derive(Debug)]
pub struct PathTable {
    pub paths: Vec<Vec<Vec<Vec<usize>>>>,
}

impl SourceRouting for PathTable {
    open spec fn paths(&self, source: usize, target: usize) -> Seq<Vec<usize>> {
        self.paths@[source as int]@[target as int]@
    }

    open spec fn knows(&self, source: usize, target: usize) -> bool {
        source < self.paths@.len() && target < self.paths@[source as int]@.len()
    }

    fn get_paths(&self, source: usize, target: usize) -> (r: &Vec<Vec<usize>>) {
        &self.paths[source][target]
    }
}

///The ports that lead to a given router.
pub open spec fn leads_to_router(topology: &TopologyTable, router: usize, next: usize, port: int) -> bool {
    next_router_of(topology, router as int, port) == Some(next)
}

///A copy of a path.
fn copy_path(p: &Vec<usize>) -> (r: Vec<usize>)
    ensures
        r@ == p@,
{
    let mut r: Vec<usize> = Vec::new();
    let mut i: usize = 0;
    while i < p.len()
        invariant
            i <= p@.len(),
            r@ == p@.take(i as int),
        decreases p@.len() - i,
    {
        r.push(p[i]);
        proof {
            assert(p@.take(i + 1) == p@.take(i as int).push(p@[i as int]));
        }
        i = i + 1;
    }
    proof {
        assert(p@.take(p@.len() as int) == p@);
    }
    r
}

///The path selected at the source allows one more hop: it has the router after the hops made.
pub open spec fn path_continues(routing_info: &RoutingInfo) -> bool {
    routing_info.selected_path matches Some(path) && routing_info.hops + 1 < path@.len()
}

///At the target router, the port to the server; elsewhere every virtual channel of every port to the next router of the selected path,
///estimating as hops left those of the path still to make.
pub fn source_routing_next(routing_info: &RoutingInfo, topology: &TopologyTable, current_router: usize, target_server: usize, num_virtual_channels: usize) -> (r: Vec<CandidateEgress>)
    requires
        routable(topology, current_router, target_server),
        topology.spec_distance(current_router as int, target_router_of(topology, target_server) as int) == 0
            ==> server_attached(topology, current_router as int, target_server),
        topology.spec_distance(current_router as int, target_router_of(topology, target_server) as int) != 0
            ==> path_continues(routing_info),
    ensures
        ({
            let t = target_router_of(topology, target_server);
            let d = topology.spec_distance(current_router as int, t as int);
            &&& d == 0 ==> r@ == candidates_to_server(topology, current_router as int, target_server, num_virtual_channels as nat)
            &&& d != 0 ==> {
                let path = routing_info.selected_path->0@;
                r@ == selected_candidates(
                    |p: int| leads_to_router(topology, current_router, path[routing_info.hops + 1], p),
                    topology.spec_ports(current_router as int) as int,
                    num_virtual_channels as nat,
                    Some((path.len() - 1 - routing_info.hops) as usize))
            }
        }),
{
    let target = target_router(topology, target_server);
    let distance = topology.distance(current_router, target);
    if distance == 0 {
        return to_attached_server(topology, current_router, target_server, num_virtual_channels);
    }
    let path = match &routing_info.selected_path {
        Some(p) => p,
        None => {
            return Vec::new();
        },
    };
    let plen = path.len();
    proof {
        assert(routing_info.hops + 1 < plen);
    }
    let next_router = path[routing_info.hops + 1];
    let remain = plen - 1 - routing_info.hops;
    collect_candidates(
        topology,
        current_router,
        num_virtual_channels,
        Some(remain),
        (|p: usize| -> (b: bool)
            requires
                p < topology.spec_ports(current_router as int),
            ensures
                b == leads_to_router(topology, current_router, next_router, p as int),
            {
                match topology.neighbour(current_router, p).0 {
                    Location::RouterPort { router_index, router_port: _ } => router_index == next_router,
                    _ => false,
                }
            }),
        Ghost(|p: int| leads_to_router(topology, current_router, next_router, p)),
    )
}

///At the source, one of the paths to the target router drawn at random becomes the selected path; at the target router nothing is selected.
pub fn source_routing_initialize<R: SourceRouting>(routing: &R, routing_info: &mut RoutingInfo, topology: &TopologyTable, current_router: usize, target_server: usize, rng: &mut StdRng)
    requires
        topology.wf(),
        target_server < topology.servers@.len(),
        topology.spec_server_router(target_server as int) is Some,
        current_router != target_router_of(topology, target_server) ==> {
            &&& routing.knows(current_router, target_router_of(topology, target_server))
            &&& routing.paths(current_router, target_router_of(topology, target_server)).len() > 0
        },
    ensures
        current_router == target_router_of(topology, target_server) ==> *final(routing_info) == *old(routing_info),
        current_router != target_router_of(topology, target_server) ==> {
            &&& final(routing_info).selected_path matches Some(p)
                && routing.paths(current_router, target_router_of(topology, target_server)).map_values(|q: Vec<usize>| q@).contains(p@)
            &&& final(routing_info).hops == old(routing_info).hops
            &&& final(routing_info).selections == old(routing_info).selections
            &&& final(routing_info).visited_routers == old(routing_info).visited_routers
        },
{
    let target = target_router(topology, target_server);
    if current_router != target {
        let paths = routing.get_paths(current_router, target);
        let r = gen_range(rng, 0, paths.len());
        let path = copy_path(&paths[r]);
        proof {
            assert(paths@.map_values(|q: Vec<usize>| q@)[r as int] == path@);
        }
        routing_info.selected_path = Some(path);
    }
}

///Source adaptive routing: at the source a set of paths is chosen, and the packet may use the next hop of any of them that it is still following.
#[derive(Debug)]
pub struct SourceAdaptiveRouting<R> {
    ///The base routing
    pub routing: R,
    ///Maximum amount of paths to store
    pub amount: usize,
}

///The numbers `0..n` as selections.
pub open spec fn selection_indices(n: nat) -> Seq<i32> {
    Seq::new(n, |i: int| i as i32)
}

impl<R: SourceRouting> SourceAdaptiveRouting<R> {
    pub fn new(routing: R, amount: usize) -> (r: SourceAdaptiveRouting<R>)
        ensures
            r.routing == routing,
            r.amount == amount,
    {
        SourceAdaptiveRouting { routing, amount }
    }

    ///The source is visited; away from the target, the indices of the paths become the selections, all of them or, when there are more than `amount`, that many of them drawn at random.
    pub fn initialize_routing_info(&self, routing_info: &mut RoutingInfo, topology: &TopologyTable, current_router: usize, target_server: usize, rng: &mut StdRng)
        requires
            topology.wf(),
            target_server < topology.servers@.len(),
            topology.spec_server_router(target_server as int) is Some,
            current_router != target_router_of(topology, target_server) ==> {
                &&& self.routing.knows(current_router, target_router_of(topology, target_server))
                &&& 0 < self.routing.paths(current_router, target_router_of(topology, target_server)).len() <= i32::MAX
            },
        ensures
            final(routing_info).visited_routers matches Some(v) && v@ == seq![current_router],
            final(routing_info).hops == old(routing_info).hops,
            final(routing_info).selected_path == old(routing_info).selected_path,
            current_router == target_router_of(topology, target_server) ==> final(routing_info).selections == old(routing_info).selections,
            current_router != target_router_of(topology, target_server) ==> {
                let n = self.routing.paths(current_router, target_router_of(topology, target_server)).len();
                &&& final(routing_info).selections matches Some(sel) && {
                    &&& (n <= self.amount ==> sel@ == selection_indices(n))
                    &&& (n > self.amount ==> sel@.len() == self.amount
                        && sel@.to_multiset().subset_of(selection_indices(n).to_multiset()))
                }
            },
    {
        let target = target_router(topology, target_server);
        let mut visited: Vec<usize> = Vec::new();
        visited.push(current_router);
        proof {
            assert(visited@ =~= seq![current_router]);
        }
        routing_info.visited_routers = Some(visited);
        if current_router != target {
            let n = self.routing.get_paths(current_router, target).len();
            let mut selected: Vec<i32> = Vec::new();
            let mut i: usize = 0;
            while i < n
                invariant
                    i <= n <= i32::MAX,
                    selected@ == selection_indices(i as nat),
                decreases n - i,
            {
                selected.push(i as i32);
                proof {
                    assert(selected@ =~= selection_indices((i + 1) as nat));
                }
                i = i + 1;
            }
            if selected.len() > self.amount {
                let ghost all = selected@;
                shuffle(&mut selected, rng);
                let ghost shuffled = selected@;
                selected.truncate(self.amount);
                proof {
                    assert(shuffled == selected@ + shuffled.skip(self.amount as int));
                    vstd::seq_lib::lemma_multiset_commutative(selected@, shuffled.skip(self.amount as int));
                    assert(selected@.to_multiset().subset_of(all.to_multiset())) by {
                        assert forall|x: i32| selected@.to_multiset().count(x) <= all.to_multiset().count(x) by {
                            assert(shuffled.to_multiset() == selected@.to_multiset().add(shuffled.skip(self.amount as int).to_multiset()));
                        }
                    }
                }
            }
            routing_info.selections = Some(selected);
        }
    }
}


///The candidates of the selected paths, in the order of the selections: for each, every virtual channel of every port to the next router of that path, with the hops it has left.
pub open spec fn adaptive_candidates(
    paths: Seq<Vec<usize>>,
    selections: Seq<i32>,
    hops: usize,
    topology: &TopologyTable,
    router: usize,
    num_virtual_channels: nat,
) -> Seq<CandidateEgress>
    decreases selections.len(),
{
    if selections.len() == 0 {
        Seq::empty()
    } else {
        let path = paths[selections.last() as int]@;
        adaptive_candidates(paths, selections.drop_last(), hops, topology, router, num_virtual_channels)
            + selected_candidates(
                |p: int| leads_to_router(topology, router, path[hops + 1], p),
                topology.spec_ports(router as int) as int,
                num_virtual_channels,
                Some((path.len() - 1 - hops) as usize))
    }
}

///Each selection names a path that continues after the hops made.
pub open spec fn selections_continue(paths: Seq<Vec<usize>>, selections: Seq<i32>, hops: usize) -> bool {
    forall|k: int| 0 <= k < selections.len() ==> {
        &&& 0 <= #[trigger] selections[k] < paths.len()
        &&& hops + 1 < paths[selections[k] as int]@.len()
    }
}

///The selections whose path goes through `router` after `hops` hops, in order.
pub open spec fn selections_through(paths: Seq<Vec<usize>>, selections: Seq<i32>, hops: usize, router: usize) -> Seq<i32> {
    selections.filter(goes_through(paths, hops, router))
}

///Whether the path a selection names is at `router` after `hops` hops.
pub open spec fn goes_through(paths: Seq<Vec<usize>>, hops: usize, router: usize) -> spec_fn(i32) -> bool {
    |i: i32| paths[i as int]@[hops as int] == router
}

impl<R: SourceRouting> SourceAdaptiveRouting<R> {
    ///At the target router, the port to the server; elsewhere the candidates towards the next router of each selected path.
    pub fn next(&self, routing_info: &RoutingInfo, topology: &TopologyTable, current_router: usize, target_server: usize, num_virtual_channels: usize) -> (r: Vec<CandidateEgress>)
        requires
            routable(topology, current_router, target_server),
            topology.spec_distance(current_router as int, target_router_of(topology, target_server) as int) == 0
                ==> server_attached(topology, current_router as int, target_server),
            topology.spec_distance(current_router as int, target_router_of(topology, target_server) as int) != 0 ==> {
                &&& routing_info.visited_routers matches Some(v) && v@.len() > 0
                    && self.routing.knows(v@[0], target_router_of(topology, target_server))
                &&& routing_info.selections matches Some(sel) && selections_continue(
                    self.routing.paths(routing_info.visited_routers->0@[0], target_router_of(topology, target_server)),
                    sel@, routing_info.hops)
            },
        ensures
            ({
                let t = target_router_of(topology, target_server);
                let d = topology.spec_distance(current_router as int, t as int);
                &&& d == 0 ==> r@ == candidates_to_server(topology, current_router as int, target_server, num_virtual_channels as nat)
                &&& d != 0 ==> r@ == adaptive_candidates(
                    self.routing.paths(routing_info.visited_routers->0@[0], t),
                    routing_info.selections->0@,
                    routing_info.hops,
                    topology,
                    current_router,
                    num_virtual_channels as nat)
            }),
    {
        let target = target_router(topology, target_server);
        let distance = topology.distance(current_router, target);
        if distance == 0 {
            return to_attached_server(topology, current_router, target_server, num_virtual_channels);
        }
        let (visited, selections) = match (&routing_info.visited_routers, &routing_info.selections) {
            (Some(v), Some(s)) => (v, s),
            _ => {
                return Vec::new();
            },
        };
        let source_router = visited[0];
        let paths = self.routing.get_paths(source_router, target);
        let hops = routing_info.hops;
        let mut r: Vec<CandidateEgress> = Vec::new();
        let mut k: usize = 0;
        while k < selections.len()
            invariant
                k <= selections@.len(),
                routable(topology, current_router, target_server),
                selections_continue(paths@, selections@, hops),
                r@ == adaptive_candidates(paths@, selections@.take(k as int), hops, topology, current_router, num_virtual_channels as nat),
            decreases selections@.len() - k,
        {
            let index = selections[k] as usize;
            proof {
                assert(0 <= selections@[k as int] < paths@.len());
                assert(hops + 1 < paths@[index as int]@.len());
            }
            let path = &paths[index];
            let plen = path.len();
            let next_router = path[hops + 1];
            let remain = plen - 1 - hops;
            let part = collect_candidates(
                topology,
                current_router,
                num_virtual_channels,
                Some(remain),
                (|p: usize| -> (b: bool)
                    requires
                        p < topology.spec_ports(current_router as int),
                    ensures
                        b == leads_to_router(topology, current_router, next_router, p as int),
                    {
                        match topology.neighbour(current_router, p).0 {
                            Location::RouterPort { router_index, router_port: _ } => router_index == next_router,
                            _ => false,
                        }
                    }),
                Ghost(|p: int| leads_to_router(topology, current_router, next_router, p)),
            );
            let mut part = part;
            r.append(&mut part);
            proof {
                assert(selections@.take(k + 1).drop_last() == selections@.take(k as int));
                assert(selections@.take(k + 1).last() == selections@[k as int]);
            }
            k = k + 1;
        }
        proof {
            assert(selections@.take(selections@.len() as int) == selections@);
        }
        r
    }

    ///On reaching a router: it is visited, and only the selections whose path goes through it are kept.
    pub fn update_routing_info(&self, routing_info: &mut RoutingInfo, topology: &TopologyTable, current_router: usize, target_server: usize)
        requires
            topology.wf(),
            target_server < topology.servers@.len(),
            topology.spec_server_router(target_server as int) is Some,
            old(routing_info).visited_routers matches Some(v) ==> {
                &&& v@.len() > 0
                &&& self.routing.knows(v@[0], target_router_of(topology, target_server))
                &&& (old(routing_info).selections matches Some(sel) ==> {
                    let paths = self.routing.paths(v@[0], target_router_of(topology, target_server));
                    &&& forall|k: int| 0 <= k < sel@.len() ==> {
                        &&& 0 <= #[trigger] sel@[k] < paths.len()
                        &&& old(routing_info).hops < paths[sel@[k] as int]@.len()
                    }
                    &&& selections_through(paths, sel@, old(routing_info).hops, current_router).len() > 0
                })
            },
        ensures
            final(routing_info).hops == old(routing_info).hops,
            final(routing_info).selected_path == old(routing_info).selected_path,
            match old(routing_info).visited_routers {
                Some(v) => {
                    &&& final(routing_info).visited_routers matches Some(w) && w@ == v@.push(current_router)
                    &&& match old(routing_info).selections {
                        Some(sel) => final(routing_info).selections matches Some(s) && s@ == selections_through(
                            self.routing.paths(v@[0], target_router_of(topology, target_server)), sel@, old(routing_info).hops, current_router),
                        None => final(routing_info).selections is None,
                    }
                },
                None => final(routing_info).visited_routers is None && final(routing_info).selections == old(routing_info).selections,
            },
    {
        let target = target_router(topology, target_server);
        let hops = routing_info.hops;
        let source_router = match &routing_info.visited_routers {
            Some(v) => v[0],
            None => {
                return;
            },
        };
        match routing_info.visited_routers.take() {
            Some(v) => {
                let mut v = v;
                v.push(current_router);
                routing_info.visited_routers = Some(v);
            },
            None => {},
        }
        let paths = self.routing.get_paths(source_router, target);
        let old_selections = routing_info.selections.take();
        match old_selections {
            Some(sel) => {
                let ghost pred = goes_through(paths@, hops, current_router);
                let ghost orig = sel@;
                let mut kept: Vec<i32> = Vec::new();
                let mut k: usize = 0;
                while k < sel.len()
                    invariant
                        k <= sel@.len(),
                        orig == sel@,
                        forall|m: int| 0 <= m < orig.len() ==> {
                            &&& 0 <= #[trigger] orig[m] < paths@.len()
                            &&& hops < paths@[orig[m] as int]@.len()
                        },
                        pred == goes_through(paths@, hops, current_router),
                        kept@ == orig.take(k as int).filter(pred),
                    decreases sel@.len() - k,
                {
                    let i = sel[k];
                    proof {
                        assert(orig.take(k + 1) == orig.take(k as int).push(i));
                        orig.take(k as int).lemma_filter_push(i, pred);
                    }
                    if paths[i as usize][hops] == current_router {
                        kept.push(i);
                    }
                    k = k + 1;
                }
                proof {
                    assert(orig.take(orig.len() as int) == orig);
                    let spec_paths = self.routing.paths(source_router, target);
                    assert(paths@ == spec_paths);
                    assert(kept@ == selections_through(spec_paths, orig, hops, current_router));
                }
                routing_info.selections = Some(kept);
            },
            None => {},
        }
    }
}

} // verus!
