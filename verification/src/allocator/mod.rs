//! An allocator decides which requests of crossbar inputs (clients) for crossbar
//! outputs (resources) are granted in a cycle.

pub mod islip;
pub mod random;
pub mod random_priority;

use vstd::prelude::*;

verus! {

/// A client (input of crossbar) want a resource (output of crossbar) with a certain priority.
#[derive(Clone, Copy, Debug, PartialEq, Eq, Structural)]
pub struct Request {
    /// The input of the crossbar
    pub client: usize,
    /// The output of the crossbar
    pub resource: usize,
    /// The priority of the request (None if not specified).
    /// The lower the priority, the earlier the request is granted.
    /// A priority of 0 marks an intransit request.
    pub priority: Option<usize>,
}

/// A request of a phit at an input port and virtual channel for an output port and virtual channel.
#[derive(Clone, Copy, Debug, PartialEq, Eq, Structural)]
pub struct PortRequest {
    pub entry_port: usize,
    pub entry_vc: usize,
    pub requested_port: usize,
    pub requested_vc: usize,
    pub label: i32,
}

/// The label a port request carries for a request priority: -1 when there is none.
pub open spec fn priority_label(priority: Option<usize>) -> i32 {
    match priority {
        None => -1i32,
        Some(p) => p as i32,
    }
}

impl Request {
    pub fn new(client: usize, resource: usize, priority: Option<usize>) -> (r: Request)
        ensures
            r.client == client,
            r.resource == resource,
            r.priority == priority,
    {
        Request { client, resource, priority }
    }

    /// Splits the crossbar indices into port and virtual channel, `num_vcs` channels per port.
    pub fn to_port_request(&self, num_vcs: usize) -> (p: PortRequest)
        requires
            num_vcs > 0,
        ensures
            p.entry_port == self.client / num_vcs,
            p.entry_vc == self.client % num_vcs,
            p.requested_port == self.resource / num_vcs,
            p.requested_vc == self.resource % num_vcs,
            p.label == priority_label(self.priority),
    {
        let label: i32 = match self.priority {
            None => -1i32,
            Some(p) => p as i32,
        };
        PortRequest {
            entry_port: self.client / num_vcs,
            entry_vc: self.client % num_vcs,
            requested_port: self.resource / num_vcs,
            requested_vc: self.resource % num_vcs,
            label,
        }
    }
}

/// A collection of granted requests, handed out in the order they were granted.
pub struct GrantedRequests {
    granted_requests: Vec<Request>,
}

impl View for GrantedRequests {
    type V = Seq<Request>;

    closed spec fn view(&self) -> Seq<Request> {
        self.granted_requests@
    }
}

impl GrantedRequests {
    pub fn new() -> (g: GrantedRequests)
        ensures
            g@ == Seq::<Request>::empty(),
    {
        GrantedRequests { granted_requests: Vec::new() }
    }

    /// Add a granted request to the collection
    pub fn add_granted_request(&mut self, request: Request)
        ensures
            final(self)@ == old(self)@.push(request),
    {
        self.granted_requests.push(request);
    }

    /// Hands out the earliest granted request not yet handed out.
    pub fn next(&mut self) -> (r: Option<Request>)
        ensures
            old(self)@.len() == 0 ==> r is None && final(self)@ == old(self)@,
            old(self)@.len() > 0 ==> r == Some(old(self)@[0]) && final(self)@ == old(self)@.drop_first(),
            crate::router::fifo_pop(old(self)@, r, final(self)@),
    {
        if self.granted_requests.len() == 0 {
            None
        } else {
            let r = self.granted_requests.remove(0);
            Some(r)
        }
    }

    /// The number of requests still held.
    pub fn len(&self) -> (n: usize)
        ensures
            n == self@.len(),
    {
        self.granted_requests.len()
    }

    /// The requests still held, in grant order.
    pub fn to_vec(&self) -> (v: Vec<Request>)
        ensures
            v@ == self@,
    {
        self.granted_requests.clone()
    }
}

} // verus!
