//! An allocator that serves the requests in a random order, granting each one
//! whose client and resource are both still free.

use vstd::prelude::*;
use rand::rngs::StdRng;
use crate::allocator::{Request, GrantedRequests};
use crate::rng::{rng_from_seed, shuffle};

verus! {

broadcast use vstd::seq_lib::group_to_multiset_ensures;

/// Whether an earlier grant already holds the client or the resource of `x`.
pub open spec fn client_or_resource_taken(g: Seq<Request>, x: Request) -> bool {
    exists|i: int| 0 <= i < g.len() && (g[i].client == x.client || g[i].resource == x.resource)
}

/// The grants obtained by serving the requests of `s` in order: a request is granted,
/// without priority, when no earlier grant holds its client or its resource.
pub open spec fn greedy_allocation(s: Seq<Request>) -> Seq<Request>
    decreases s.len(),
{
    if s.len() == 0 {
        Seq::empty()
    } else {
        let g = greedy_allocation(s.drop_last());
        let x = s.last();
        if client_or_resource_taken(g, x) {
            g
        } else {
            g.push(Request { client: x.client, resource: x.resource, priority: None })
        }
    }
}

/// The greedy grants are a matching of the served requests, and no served request could
/// be added to them: each one meets a grant on its client or its resource.
pub proof fn lemma_greedy_allocation_is_maximal_matching(s: Seq<Request>)
    ensures
        crate::allocator::islip::is_matching(greedy_allocation(s)),
        forall|k: int|
            0 <= k < greedy_allocation(s).len() ==> {
                let x = #[trigger] greedy_allocation(s)[k];
                x.priority is None && exists|j: int|
                    0 <= j < s.len() && s[j].client == x.client && s[j].resource == x.resource
            },
        forall|j: int| 0 <= j < s.len() ==> client_or_resource_taken(greedy_allocation(s), #[trigger] s[j]),
    decreases s.len(),
{
    if s.len() > 0 {
        let t = s.drop_last();
        lemma_greedy_allocation_is_maximal_matching(t);
        let g = greedy_allocation(t);
        let x = s.last();
        let h = greedy_allocation(s);
        assert forall|k: int| 0 <= k < h.len() implies {
            let y = #[trigger] h[k];
            y.priority is None && exists|j: int|
                0 <= j < s.len() && s[j].client == y.client && s[j].resource == y.resource
        } by {
            if k < g.len() {
                assert(h[k] == g[k]);
                let j = choose|j: int| 0 <= j < t.len() && t[j].client == g[k].client && t[j].resource == g[k].resource;
                assert(s[j] == t[j]);
            } else {
                assert(s[s.len() - 1] == x);
            }
        }
        assert forall|j: int| 0 <= j < s.len() implies client_or_resource_taken(h, #[trigger] s[j]) by {
            if j < t.len() {
                assert(s[j] == t[j]);
                assert(client_or_resource_taken(g, t[j]));
                let i = choose|i: int| 0 <= i < g.len() && (g[i].client == t[j].client || g[i].resource == t[j].resource);
                assert(h[i] == g[i]);
            } else {
                assert(s[j] == x);
                if !client_or_resource_taken(g, x) {
                    assert(h[g.len() as int].client == x.client);
                }
            }
        }
        if !client_or_resource_taken(g, x) {
            assert forall|i: int, j: int| 0 <= i < j < h.len() implies h[i].client != h[j].client
                && h[i].resource != h[j].resource by {
                if j == g.len() {
                    assert(h[i] == g[i]);
                }
            }
        }
    }
}

/// A random allocator that randomly allocates requests to resources
pub struct RandomAllocator {
    /// The max number of outputs of the router crossbar
    num_resources: usize,
    /// The max number of inputs of the router crossbar
    num_clients: usize,
    /// The requests of the clients
    requests: Vec<Request>,
    /// The RNG or None if the seed is not set
    rng: Option<StdRng>,
}

/// Clients and resources of a request lie in the crossbar.
pub open spec fn requests_in_range(s: Seq<Request>, num_clients: usize, num_resources: usize) -> bool {
    forall|k: int| 0 <= k < s.len() ==> (#[trigger] s[k]).client < num_clients && s[k].resource < num_resources
}

/// Serves the requests in the given order, granting each one whose client and resource
/// are both still free.
pub fn allocate_in_order(requests: &Vec<Request>, num_clients: usize, num_resources: usize) -> (gr: GrantedRequests)
    requires
        requests_in_range(requests@, num_clients, num_resources),
    ensures
        gr@ == greedy_allocation(requests@),
{
    let mut gr = GrantedRequests::new();
    let mut resource_taken: Vec<bool> = Vec::new();
    let mut client_taken: Vec<bool> = Vec::new();
    let mut r: usize = 0;
    while r < num_resources
        invariant
            r <= num_resources,
            resource_taken@.len() == r,
            forall|k: int| 0 <= k < r ==> !resource_taken@[k],
        decreases num_resources - r,
    {
        resource_taken.push(false);
        r = r + 1;
    }
    let mut c: usize = 0;
    while c < num_clients
        invariant
            c <= num_clients,
            client_taken@.len() == c,
            forall|k: int| 0 <= k < c ==> !client_taken@[k],
        decreases num_clients - c,
    {
        client_taken.push(false);
        c = c + 1;
    }
    let mut i: usize = 0;
    while i < requests.len()
        invariant
            i <= requests@.len(),
            requests_in_range(requests@, num_clients, num_resources),
            resource_taken@.len() == num_resources,
            client_taken@.len() == num_clients,
            gr@ == greedy_allocation(requests@.take(i as int)),
            forall|k: int|
                0 <= k < num_resources ==> (#[trigger] resource_taken@[k] <==> exists|j: int|
                    0 <= j < gr@.len() && gr@[j].resource == k),
            forall|k: int|
                0 <= k < num_clients ==> (#[trigger] client_taken@[k] <==> exists|j: int|
                    0 <= j < gr@.len() && gr@[j].client == k),
            forall|j: int|
                0 <= j < gr@.len() ==> (#[trigger] gr@[j]).client < num_clients && gr@[j].resource
                    < num_resources,
        decreases requests@.len() - i,
    {
        let req = requests[i];
        let ghost g = gr@;
        proof {
            assert(requests@.take(i + 1).drop_last() == requests@.take(i as int));
            assert(requests@.take(i + 1).last() == req);
            assert(req.client < num_clients && req.resource < num_resources);
        }
        if !resource_taken[req.resource] && !client_taken[req.client] {
            proof {
                if client_or_resource_taken(g, req) {
                    let j = choose|j: int| 0 <= j < g.len() && (g[j].client == req.client || g[j].resource == req.resource);
                    if g[j].client == req.client {
                        assert(client_taken@[req.client as int]);
                    } else {
                        assert(resource_taken@[req.resource as int]);
                    }
                }
            }
            let new_req = Request { client: req.client, resource: req.resource, priority: None };
            gr.add_granted_request(new_req);
            resource_taken.set(req.resource, true);
            client_taken.set(req.client, true);
            proof {
                assert(gr@ == g.push(new_req));
                assert forall|k: int|
                    0 <= k < num_resources implies (#[trigger] resource_taken@[k] <==> exists|j: int|
                        0 <= j < gr@.len() && gr@[j].resource == k) by {
                    if k == req.resource {
                        assert(gr@[g.len() as int].resource == k);
                    } else if resource_taken@[k] {
                        let j = choose|j: int| 0 <= j < g.len() && g[j].resource == k;
                        assert(gr@[j] == g[j]);
                    } else if exists|j: int| 0 <= j < gr@.len() && gr@[j].resource == k {
                        let j = choose|j: int| 0 <= j < gr@.len() && gr@[j].resource == k;
                        assert(g[j] == gr@[j]);
                    }
                }
                assert forall|k: int|
                    0 <= k < num_clients implies (#[trigger] client_taken@[k] <==> exists|j: int|
                        0 <= j < gr@.len() && gr@[j].client == k) by {
                    if k == req.client {
                        assert(gr@[g.len() as int].client == k);
                    } else if client_taken@[k] {
                        let j = choose|j: int| 0 <= j < g.len() && g[j].client == k;
                        assert(gr@[j] == g[j]);
                    } else if exists|j: int| 0 <= j < gr@.len() && gr@[j].client == k {
                        let j = choose|j: int| 0 <= j < gr@.len() && gr@[j].client == k;
                        assert(g[j] == gr@[j]);
                    }
                }
            }
        } else {
            proof {
                if resource_taken@[req.resource as int] {
                    let j = choose|j: int| 0 <= j < g.len() && g[j].resource == req.resource;
                    assert(client_or_resource_taken(g, req));
                } else {
                    let j = choose|j: int| 0 <= j < g.len() && g[j].client == req.client;
                    assert(client_or_resource_taken(g, req));
                }
            }
        }
        i = i + 1;
    }
    proof {
        assert(requests@.take(requests@.len() as int) == requests@);
    }
    gr
}

impl RandomAllocator {
    pub closed spec fn spec_num_clients(&self) -> usize {
        self.num_clients
    }

    pub closed spec fn spec_num_resources(&self) -> usize {
        self.num_resources
    }

    /// The pending requests, in the order they were added.
    pub closed spec fn spec_requests(&self) -> Seq<Request> {
        self.requests@
    }

    pub closed spec fn has_own_rng(&self) -> bool {
        self.rng is Some
    }

    pub open spec fn wf(&self) -> bool {
        &&& self.spec_num_clients() > 0
        &&& self.spec_num_resources() > 0
        &&& requests_in_range(self.spec_requests(), self.spec_num_clients(), self.spec_num_resources())
    }

    /// Creates the allocator; with a seed it draws its own random numbers, otherwise
    /// those of the generator handed to each allocation.
    pub fn new(num_clients: usize, num_resources: usize, seed: Option<u64>) -> (a: RandomAllocator)
        requires
            num_clients > 0,
            num_resources > 0,
        ensures
            a.wf(),
            a.spec_num_clients() == num_clients,
            a.spec_num_resources() == num_resources,
            a.spec_requests() == Seq::<Request>::empty(),
            a.has_own_rng() == (seed is Some),
    {
        let rng = match seed {
            Some(s) => Some(rng_from_seed(s)),
            None => None,
        };
        RandomAllocator { num_resources, num_clients, requests: Vec::new(), rng }
    }

    /// The request is valid if the client is in the range [0, num_clients) and the resource is in the range [0, num_resources)
    pub fn is_valid_request(&self, request: &Request) -> (b: bool)
        ensures
            b == (request.client < self.spec_num_clients() && request.resource < self.spec_num_resources()),
    {
        if request.client >= self.num_clients || request.resource >= self.num_resources {
            return false;
        }
        true
    }

    /// Adds a request, which must be valid: a client and a resource of the allocator.
    pub fn add_request(&mut self, request: Request)
        requires
            old(self).wf(),
            request.client < old(self).spec_num_clients(),
            request.resource < old(self).spec_num_resources(),
        ensures
            final(self).wf(),
            final(self).spec_num_clients() == old(self).spec_num_clients(),
            final(self).spec_num_resources() == old(self).spec_num_resources(),
            final(self).has_own_rng() == old(self).has_own_rng(),
            final(self).spec_requests() == old(self).spec_requests().push(request),
    {
        self.requests.push(request);
    }

    /// Shuffles the pending requests, with the allocator's own generator when it has
    /// one, serves them in that order and clears them.
    pub fn perform_allocation(&mut self, rng: &mut StdRng) -> (gr: GrantedRequests)
        requires
            old(self).wf(),
        ensures
            final(self).wf(),
            final(self).spec_num_clients() == old(self).spec_num_clients(),
            final(self).spec_num_resources() == old(self).spec_num_resources(),
            final(self).has_own_rng() == old(self).has_own_rng(),
            final(self).spec_requests() == Seq::<Request>::empty(),
            exists|s: Seq<Request>|
                s.to_multiset() == old(self).spec_requests().to_multiset() && gr@ == #[trigger] greedy_allocation(s),
    {
        match &mut self.rng {
            Some(own) => shuffle(&mut self.requests, own),
            None => shuffle(&mut self.requests, rng),
        }
        let ghost s = self.requests@;
        proof {
            assert forall|k: int| 0 <= k < s.len() implies (#[trigger] s[k]).client < self.num_clients
                && s[k].resource < self.num_resources by {
                let x = s[k];
                assert(s.contains(x));
                assert(s.to_multiset().count(x) > 0);
                assert(old(self).requests@.to_multiset().count(x) > 0);
                assert(old(self).requests@.contains(x));
            }
        }
        let gr = allocate_in_order(&self.requests, self.num_clients, self.num_resources);
        self.requests.clear();
        assert(gr@ == greedy_allocation(s));
        gr
    }

    /// This allocator gives no preference to requests in transit.
    pub fn support_intransit_priority(&self) -> (b: bool)
        ensures
            !b,
    {
        false
    }
}

} // verus!
