//! A topology given by its tables: the connections of every router port, the
//! router distances and the attachment of every server.

use vstd::prelude::*;

verus! {

///Where a link leads.
#[derive(Clone, Copy, Debug, PartialEq, Eq, Structural)]
pub enum Location {
    RouterPort { router_index: usize, router_port: usize },
    ServerPort(usize),
    Unconnected,
}

///A topology as tables of plain values.
pub struct TopologyTable {
    ///`neighbours[router][port]` is where the port leads and the class of its link.
    pub neighbours: Vec<Vec<(Location, usize)>>,
    ///`distances[a][b]` is the number of router hops from `a` to `b`.
    pub distances: Vec<Vec<usize>>,
    ///`servers[s]` is where server `s` is attached and the class of its link.
    pub servers: Vec<(Location, usize)>,
    ///`up_down[a][b]` is the pair of up and down hops of the shortest up/down path, if the topology defines them.
    pub up_down: Option<Vec<Vec<Option<(usize, usize)>>>>,
}

impl TopologyTable {
    ///The tables are square in the routers and point to existing routers and servers.
    pub open spec fn wf(&self) -> bool {
        &&& self.distances@.len() == self.neighbours@.len()
        &&& forall|a: int| 0 <= a < self.distances@.len() ==> (#[trigger] self.distances@[a])@.len() == self.neighbours@.len()
        &&& forall|a: int, p: int|
            0 <= a < self.neighbours@.len() && 0 <= p < self.neighbours@[a]@.len() ==> (match (#[trigger] self.neighbours@[a]@[p]).0 {
                Location::RouterPort { router_index, router_port } => router_index < self.neighbours@.len(),
                Location::ServerPort(s) => s < self.servers@.len(),
                Location::Unconnected => true,
            })
        &&& forall|s: int| 0 <= s < self.servers@.len() ==> (match (#[trigger] self.servers@[s]).0 {
                Location::RouterPort { router_index, router_port } => router_index < self.neighbours@.len(),
                _ => true,
            })
        &&& match self.up_down {
            Some(t) => t@.len() == self.neighbours@.len() && forall|a: int| 0 <= a < t@.len() ==> (#[trigger] t@[a])@.len() == self.neighbours@.len(),
            None => true,
        }
    }

    pub open spec fn spec_num_routers(&self) -> nat {
        self.neighbours@.len()
    }

    pub open spec fn spec_ports(&self, router: int) -> nat {
        self.neighbours@[router]@.len()
    }

    pub open spec fn spec_neighbour(&self, router: int, port: int) -> (Location, usize) {
        self.neighbours@[router]@[port]
    }

    pub open spec fn spec_distance(&self, a: int, b: int) -> usize {
        self.distances@[a]@[b]
    }

    pub open spec fn spec_up_down(&self, a: int, b: int) -> Option<(usize, usize)> {
        match self.up_down {
            Some(t) => t@[a]@[b],
            None => None,
        }
    }

    ///The router a server is attached to, if it is.
    pub open spec fn spec_server_router(&self, server: int) -> Option<usize> {
        match self.servers@[server].0 {
            Location::RouterPort { router_index, router_port } => Some(router_index),
            _ => None,
        }
    }

    pub fn num_routers(&self) -> (n: usize)
        ensures
            n == self.spec_num_routers(),
    {
        self.neighbours.len()
    }

    pub fn num_servers(&self) -> (n: usize)
        ensures
            n == self.servers@.len(),
    {
        self.servers.len()
    }

    pub fn ports(&self, router: usize) -> (n: usize)
        requires
            router < self.spec_num_routers(),
        ensures
            n == self.spec_ports(router as int),
    {
        self.neighbours[router].len()
    }

    pub fn neighbour(&self, router: usize, port: usize) -> (r: (Location, usize))
        requires
            router < self.spec_num_routers(),
            port < self.spec_ports(router as int),
        ensures
            r == self.spec_neighbour(router as int, port as int),
    {
        self.neighbours[router][port]
    }

    pub fn distance(&self, a: usize, b: usize) -> (d: usize)
        requires
            self.wf(),
            a < self.spec_num_routers(),
            b < self.spec_num_routers(),
        ensures
            d == self.spec_distance(a as int, b as int),
    {
        self.distances[a][b]
    }

    pub fn server_neighbour(&self, server: usize) -> (r: (Location, usize))
        requires
            server < self.servers@.len(),
        ensures
            r == self.servers@[server as int],
    {
        self.servers[server]
    }

    pub fn up_down_distance(&self, a: usize, b: usize) -> (r: Option<(usize, usize)>)
        requires
            self.wf(),
            a < self.spec_num_routers(),
            b < self.spec_num_routers(),
        ensures
            r == self.spec_up_down(a as int, b as int),
    {
        match &self.up_down {
            Some(t) => t[a][b],
            None => None,
        }
    }
}

} // verus!
