//! An allocator that serves the requests by increasing priority, in random order
//! among equal priorities, granting each one whose resource is still free.

use vstd::prelude::*;
use rand::rngs::StdRng;
use crate::allocator::{Request, GrantedRequests};
use crate::allocator::random::requests_in_range;
use crate::rng::{rng_from_seed, shuffle};

verus! {

broadcast use vstd::seq_lib::group_to_multiset_ensures;

/// The state of a resource during an allocation.
pub struct Resource {
    /// Index of the client that has the resource (or None if the resource is free)
    client: Option<usize>,
}

/// The priority value of a request; requests of this allocator always carry one.
pub open spec fn priority_value(x: Request) -> usize {
    match x.priority {
        Some(p) => p,
        None => 0,
    }
}

/// The requests are in non-decreasing priority.
pub open spec fn sorted_by_priority(s: Seq<Request>) -> bool {
    forall|i: int, j: int| 0 <= i < j < s.len() ==> priority_value(s[i]) <= priority_value(s[j])
}

/// Whether an earlier grant already holds the resource of `x`.
pub open spec fn resource_taken(g: Seq<Request>, x: Request) -> bool {
    exists|i: int| 0 <= i < g.len() && g[i].resource == x.resource
}

/// The grants obtained by serving the requests of `s` in order: a request is granted,
/// as it is, when no earlier grant holds its resource.
pub open spec fn greedy_resource_allocation(s: Seq<Request>) -> Seq<Request>
    decreases s.len(),
{
    if s.len() == 0 {
        Seq::empty()
    } else {
        let g = greedy_resource_allocation(s.drop_last());
        if resource_taken(g, s.last()) {
            g
        } else {
            g.push(s.last())
        }
    }
}

/// The grants hold each resource at most once, are taken from the served requests in
/// their order of service, and every served request meets a grant on its resource.
pub proof fn lemma_greedy_resource_allocation(s: Seq<Request>)
    ensures
        forall|i: int, j: int|
            0 <= i < j < greedy_resource_allocation(s).len() ==> greedy_resource_allocation(s)[i].resource
                != greedy_resource_allocation(s)[j].resource,
        forall|k: int|
            0 <= k < greedy_resource_allocation(s).len() ==> s.contains(#[trigger] greedy_resource_allocation(s)[k]),
        forall|j: int| 0 <= j < s.len() ==> resource_taken(greedy_resource_allocation(s), #[trigger] s[j]),
    decreases s.len(),
{
    if s.len() > 0 {
        let t = s.drop_last();
        lemma_greedy_resource_allocation(t);
        let g = greedy_resource_allocation(t);
        let h = greedy_resource_allocation(s);
        assert forall|k: int| 0 <= k < h.len() implies s.contains(#[trigger] h[k]) by {
            if k < g.len() {
                assert(h[k] == g[k]);
                let j = choose|j: int| 0 <= j < t.len() && t[j] == g[k];
                assert(s[j] == t[j]);
            } else {
                assert(s[s.len() - 1] == h[k]);
            }
        }
        assert forall|j: int| 0 <= j < s.len() implies resource_taken(h, #[trigger] s[j]) by {
            if j < t.len() {
                assert(s[j] == t[j]);
                assert(resource_taken(g, t[j]));
                let i = choose|i: int| 0 <= i < g.len() && g[i].resource == t[j].resource;
                assert(h[i] == g[i]);
            } else if !resource_taken(g, s.last()) {
                assert(h[g.len() as int] == s[j]);
            }
        }
        if !resource_taken(g, s.last()) {
            assert forall|i: int, j: int| 0 <= i < j < h.len() implies h[i].resource != h[j].resource by {
                if j == g.len() {
                    assert(h[i] == g[i]);
                }
            }
        }
    }
}

/// The priority value of a request.
fn priority_of(x: &Request) -> (p: usize)
    ensures
        p == priority_value(*x),
{
    match x.priority {
        Some(p) => p,
        None => 0,
    }
}

/// Sorts requests by non-decreasing priority, keeping the order of equal priorities.
pub fn sort_by_priority(v: &Vec<Request>) -> (out: Vec<Request>)
    ensures
        out@.to_multiset() == v@.to_multiset(),
        out@.len() == v@.len(),
        sorted_by_priority(out@),
{
    let mut out: Vec<Request> = Vec::new();
    let mut i: usize = 0;
    while i < v.len()
        invariant
            i <= v@.len(),
            out@.to_multiset() == v@.take(i as int).to_multiset(),
            out@.len() == i,
            sorted_by_priority(out@),
        decreases v@.len() - i,
    {
        let x = v[i];
        let px = priority_of(&x);
        let mut j: usize = 0;
        while j < out.len() && priority_of(&out[j]) <= px
            invariant
                j <= out@.len(),
                px == priority_value(x),
                forall|k: int| 0 <= k < j ==> priority_value(out@[k]) <= px,
            decreases out@.len() - j,
        {
            j = j + 1;
        }
        let ghost before = out@;
        out.insert(j, x);
        proof {
            assert(out@ == before.insert(j as int, x));
            assert(v@.take(i + 1) == v@.take(i as int).push(x));
            assert forall|a: int, b: int| 0 <= a < b < out@.len() implies priority_value(out@[a])
                <= priority_value(out@[b]) by {
                if j < before.len() {
                    assert(px < priority_value(before[j as int]));
                }
            }
        }
        i = i + 1;
    }
    proof {
        assert(v@.take(v@.len() as int) == v@);
    }
    out
}

/// Serves the requests in the given order, granting each one whose resource is free.
pub fn allocate_resources_in_order(requests: &Vec<Request>, num_resources: usize) -> (gr: GrantedRequests)
    requires
        forall|k: int| 0 <= k < requests@.len() ==> (#[trigger] requests@[k]).resource < num_resources,
    ensures
        gr@ == greedy_resource_allocation(requests@),
{
    let mut gr = GrantedRequests::new();
    let mut resources: Vec<Resource> = Vec::new();
    let mut r: usize = 0;
    while r < num_resources
        invariant
            r <= num_resources,
            resources@.len() == r,
            forall|k: int| 0 <= k < r ==> (#[trigger] resources@[k]).client is None,
        decreases num_resources - r,
    {
        resources.push(Resource { client: None });
        r = r + 1;
    }
    let mut i: usize = 0;
    while i < requests.len()
        invariant
            i <= requests@.len(),
            forall|k: int| 0 <= k < requests@.len() ==> (#[trigger] requests@[k]).resource < num_resources,
            resources@.len() == num_resources,
            gr@ == greedy_resource_allocation(requests@.take(i as int)),
            forall|k: int|
                0 <= k < num_resources ==> ((#[trigger] resources@[k]).client is Some <==> exists|j: int|
                    0 <= j < gr@.len() && gr@[j].resource == k),
        decreases requests@.len() - i,
    {
        let req = requests[i];
        let ghost g = gr@;
        proof {
            assert(requests@.take(i + 1).drop_last() == requests@.take(i as int));
            assert(requests@.take(i + 1).last() == req);
            assert(req.resource < num_resources);
        }
        if resources[req.resource].client.is_none() {
            proof {
                if resource_taken(g, req) {
                    let j = choose|j: int| 0 <= j < g.len() && g[j].resource == req.resource;
                    assert(resources@[req.resource as int].client is Some);
                }
            }
            gr.add_granted_request(req);
            resources.set(req.resource, Resource { client: Some(req.client) });
            proof {
                assert(gr@ == g.push(req));
                assert forall|k: int|
                    0 <= k < num_resources implies ((#[trigger] resources@[k]).client is Some <==> exists|j: int|
                        0 <= j < gr@.len() && gr@[j].resource == k) by {
                    if k == req.resource {
                        assert(gr@[g.len() as int].resource == k);
                    } else if resources@[k].client is Some {
                        let j = choose|j: int| 0 <= j < g.len() && g[j].resource == k;
                        assert(gr@[j] == g[j]);
                    } else if exists|j: int| 0 <= j < gr@.len() && gr@[j].resource == k {
                        let j = choose|j: int| 0 <= j < gr@.len() && gr@[j].resource == k;
                        assert(g[j] == gr@[j]);
                    }
                }
            }
        } else {
            proof {
                let j = choose|j: int| 0 <= j < g.len() && g[j].resource == req.resource;
                assert(resource_taken(g, req));
            }
        }
        i = i + 1;
    }
    proof {
        assert(requests@.take(requests@.len() as int) == requests@);
    }
    gr
}

/// A random allocator that serves requests by priority
pub struct RandomPriorityAllocator {
    /// The max number of outputs of the router crossbar
    num_resources: usize,
    /// The max number of inputs of the router crossbar
    num_clients: usize,
    /// The requests of the clients
    requests: Vec<Request>,
    /// The RNG or None if the seed is not set
    rng: Option<StdRng>,
}

impl RandomPriorityAllocator {
    pub closed spec fn spec_num_clients(&self) -> usize {
        self.num_clients
    }

    pub closed spec fn spec_num_resources(&self) -> usize {
        self.num_resources
    }

    /// The pending requests, in the order they were added.
    pub closed spec fn spec_requests(&self) -> Seq<Request> {
        self.requests@
    }

    pub closed spec fn has_own_rng(&self) -> bool {
        self.rng is Some
    }

    pub open spec fn wf(&self) -> bool {
        &&& self.spec_num_clients() > 0
        &&& self.spec_num_resources() > 0
        &&& requests_in_range(self.spec_requests(), self.spec_num_clients(), self.spec_num_resources())
        &&& forall|k: int| 0 <= k < self.spec_requests().len() ==> (#[trigger] self.spec_requests()[k]).priority is Some
    }

    /// Creates the allocator; with a seed it draws its own random numbers, otherwise
    /// those of the generator handed to each allocation.
    pub fn new(num_clients: usize, num_resources: usize, seed: Option<u64>) -> (a: RandomPriorityAllocator)
        requires
            num_clients > 0,
            num_resources > 0,
        ensures
            a.wf(),
            a.spec_num_clients() == num_clients,
            a.spec_num_resources() == num_resources,
            a.spec_requests() == Seq::<Request>::empty(),
            a.has_own_rng() == (seed is Some),
    {
        let rng = match seed {
            Some(s) => Some(rng_from_seed(s)),
            None => None,
        };
        RandomPriorityAllocator { num_resources, num_clients, requests: Vec::new(), rng }
    }

    /// The request is valid if its client and resource lie in the crossbar and it has a priority.
    pub fn is_valid_request(&self, request: &Request) -> (b: bool)
        ensures
            b == (request.client < self.spec_num_clients() && request.resource < self.spec_num_resources()
                && request.priority is Some),
    {
        if request.client >= self.num_clients || request.resource >= self.num_resources || request.priority.is_none() {
            return false;
        }
        true
    }

    /// Adds a request, which must be valid: a client and a resource of the allocator.
    pub fn add_request(&mut self, request: Request)
        requires
            old(self).wf(),
            request.client < old(self).spec_num_clients(),
            request.resource < old(self).spec_num_resources(),
            request.priority is Some,
        ensures
            final(self).wf(),
            final(self).spec_num_clients() == old(self).spec_num_clients(),
            final(self).spec_num_resources() == old(self).spec_num_resources(),
            final(self).has_own_rng() == old(self).has_own_rng(),
            final(self).spec_requests() == old(self).spec_requests().push(request),
    {
        self.requests.push(request);
    }

    /// Shuffles the pending requests, with the allocator's own generator when it has
    /// one, sorts them by priority (least first), serves them in that order, granting a
    /// request when its resource is free, and clears them.
    pub fn perform_allocation(&mut self, rng: &mut StdRng) -> (gr: GrantedRequests)
        requires
            old(self).wf(),
        ensures
            final(self).wf(),
            final(self).spec_num_clients() == old(self).spec_num_clients(),
            final(self).spec_num_resources() == old(self).spec_num_resources(),
            final(self).has_own_rng() == old(self).has_own_rng(),
            final(self).spec_requests() == Seq::<Request>::empty(),
            exists|s: Seq<Request>|
                s.to_multiset() == old(self).spec_requests().to_multiset() && sorted_by_priority(s) && gr@
                    == #[trigger] greedy_resource_allocation(s),
    {
        match &mut self.rng {
            Some(own) => shuffle(&mut self.requests, own),
            None => shuffle(&mut self.requests, rng),
        }
        let sorted = sort_by_priority(&self.requests);
        let ghost s = sorted@;
        proof {
            assert forall|k: int| 0 <= k < s.len() implies (#[trigger] s[k]).resource < self.num_resources by {
                let x = s[k];
                assert(s.contains(x));
                assert(s.to_multiset().count(x) > 0);
                assert(old(self).requests@.to_multiset().count(x) > 0);
                assert(old(self).requests@.contains(x));
            }
        }
        let gr = allocate_resources_in_order(&sorted, self.num_resources);
        self.requests.clear();
        assert(gr@ == greedy_resource_allocation(s));
        gr
    }

    /// This allocator honours the priority of requests in transit.
    pub fn support_intransit_priority(&self) -> (b: bool)
        ensures
            b,
    {
        true
    }
}

} // verus!
