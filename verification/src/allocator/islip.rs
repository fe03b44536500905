//! The iSLIP allocator: rounds of grant and accept with round-robin pointers.

use vstd::prelude::*;
use crate::allocator::{Request, GrantedRequests};

verus! {

broadcast use vstd::seq_lib::group_to_multiset_ensures;

/// The position of `k` in the round that starts at `pointer`: indices from the
/// pointer on come first, then those below it, each group in increasing order.
pub open spec fn round_key(k: usize, pointer: usize) -> int {
    if k < pointer { k as int + usize::MAX as int + 1 } else { k as int }
}

/// A sequence is in round order from `pointer`.
pub open spec fn round_sorted(s: Seq<usize>, pointer: usize) -> bool {
    forall|i: int, j: int| 0 <= i < j < s.len() ==> round_key(s[i], pointer) <= round_key(s[j], pointer)
}

/// The requests of one port, with the round-robin pointer giving the port of highest priority.
#[derive(Debug)]
struct RoundVec {
    /// The client with the highest priority in the round.
    pointer: usize,
    /// The indices of the clients that have made requests.
    clients: Vec<usize>,
    /// The number of clients
    n: usize,
}

impl RoundVec {
    spec fn spec_pointer(&self) -> usize {
        self.pointer
    }

    spec fn spec_n(&self) -> usize {
        self.n
    }

    /// The pointer lies in the round and every held index too.
    spec fn wf(&self) -> bool {
        &&& self.pointer < self.n
        &&& forall|i: int| 0 <= i < self.clients@.len() ==> self.clients@[i] < self.n
    }

    fn new(size: usize) -> (r: RoundVec)
        requires
            size > 0,
        ensures
            r.wf(),
            r.spec_n() == size,
            r.spec_pointer() == 0,
            r.clients@ == Seq::<usize>::empty(),
    {
        RoundVec { pointer: 0, clients: Vec::new(), n: size }
    }

    /// Add an element to the round vector
    fn add(&mut self, element: usize)
        requires
            old(self).wf(),
            element < old(self).spec_n(),
        ensures
            final(self).wf(),
            final(self).clients@ == old(self).clients@.push(element),
            final(self).spec_n() == old(self).spec_n(),
            final(self).spec_pointer() == old(self).spec_pointer(),
    {
        self.clients.push(element);
    }

    /// Moves the pointer to the next index of the round, wrapping at its end.
    fn increment_pointer(&mut self)
        requires
            old(self).wf(),
        ensures
            final(self).wf(),
            final(self).spec_pointer() == (old(self).spec_pointer() + 1) % (old(self).spec_n() as int),
            final(self).clients@ == old(self).clients@,
            final(self).spec_n() == old(self).spec_n(),
    {
        self.pointer = (self.pointer + 1) % self.n;
    }

    /// Sort the clients using the pointer as the pivot
    fn sort(&mut self)
        requires
            old(self).wf(),
        ensures
            final(self).wf(),
            final(self).clients@.to_multiset() == old(self).clients@.to_multiset(),
            final(self).clients@.len() == old(self).clients@.len(),
            round_sorted(final(self).clients@, final(self).spec_pointer()),
            final(self).spec_n() == old(self).spec_n(),
            final(self).spec_pointer() == old(self).spec_pointer(),
    {
        let pointer = self.pointer;
        let mut out: Vec<usize> = Vec::new();
        let mut i: usize = 0;
        let ghost src = self.clients@;
        while i < self.clients.len()
            invariant
                self.clients@ == src,
                self.pointer == pointer,
                i <= src.len(),
                out@.to_multiset() == src.take(i as int).to_multiset(),
                out@.len() == i,
                round_sorted(out@, pointer),
                forall|k: int| 0 <= k < out@.len() ==> out@[k] < self.n,
                forall|k: int| 0 <= k < src.len() ==> src[k] < self.n,
            decreases src.len() - i,
        {
            let x = self.clients[i];
            let mut j: usize = 0;
            while j < out.len() && round_key_le(out[j], x, pointer)
                invariant
                    j <= out@.len(),
                    forall|k: int| 0 <= k < j ==> round_key(out@[k], pointer) <= round_key(x, pointer),
                decreases out@.len() - j,
            {
                j = j + 1;
            }
            let ghost before = out@;
            out.insert(j, x);
            proof {
                assert(out@ == before.insert(j as int, x));
                assert(src.take(i + 1) == src.take(i as int).push(x));
                assert forall|a: int, b: int| 0 <= a < b < out@.len() implies round_key(out@[a], pointer)
                    <= round_key(out@[b], pointer) by {
                    if j < before.len() {
                        assert(round_key(x, pointer) < round_key(before[j as int], pointer));
                    }
                }
            }
            i = i + 1;
        }
        proof {
            assert(src.take(src.len() as int) == src);
        }
        self.clients = out;
    }

    /// Get the size of the round vector
    fn size(&self) -> (n: usize)
        ensures
            n == self.spec_n(),
    {
        self.n
    }

    /// Check if the round vector is empty
    fn is_empty(&self) -> (b: bool)
        ensures
            b == (self.clients@.len() == 0),
    {
        self.clients.len() == 0
    }
}

/// A sequence with an element pushed holds what it held and that element.
proof fn lemma_push_contains(s: Seq<usize>, x: usize, y: usize)
    ensures
        s.push(x).contains(y) <==> (s.contains(y) || y == x),
{
    if s.contains(y) {
        let k = choose|k: int| 0 <= k < s.len() && s[k] == y;
        assert(s.push(x)[k] == y);
    }
    if y == x {
        assert(s.push(x)[s.len() as int] == y);
    }
    if s.push(x).contains(y) && y != x {
        let k = choose|k: int| 0 <= k < s.len() + 1 && s.push(x)[k] == y;
        assert(s[k] == y);
    }
}

/// Compares two indices by their place in the round starting at `pointer`.
fn round_key_le(a: usize, b: usize, pointer: usize) -> (r: bool)
    ensures
        r == (round_key(a, pointer) <= round_key(b, pointer)),
{
    if (a < pointer) == (b < pointer) {
        a <= b
    } else {
        b < pointer
    }
}

/// An iSLIP allocator, as in 'https://doi.org/10.1109/90.769767'.
pub struct IslipAllocator {
    /// The number of inputs ports
    num_clients: usize,
    /// The number of outputs ports
    num_resources: usize,
    /// The number of iterations to perform
    num_iterations: usize,
    /// The input match
    in_match: Vec<Option<usize>>,
    /// The output match
    out_match: Vec<Option<usize>>,
    /// The input requests, indexed by client
    in_requests: Vec<RoundVec>,
    /// The output requests, indexed by resource
    out_requests: Vec<RoundVec>,
}

/// `x` comes first, in the round that starts at `pointer`, among the clients of `s`.
pub open spec fn is_round_first(s: Seq<usize>, pointer: usize, x: usize) -> bool {
    &&& s.contains(x)
    &&& forall|i: int| 0 <= i < s.len() ==> round_key(x, pointer) <= round_key(#[trigger] s[i], pointer)
}

/// Distinct indices have distinct places in a round.
proof fn lemma_round_key_injective(a: usize, b: usize, pointer: usize)
    ensures
        round_key(a, pointer) == round_key(b, pointer) ==> a == b,
{
}

/// Some request of the list is of client `c`.
pub open spec fn grants_client(g: Seq<Request>, c: int) -> bool {
    exists|i: int| 0 <= i < g.len() && g[i].client == c
}

/// Some request of the list is for resource `r`.
pub open spec fn grants_resource(g: Seq<Request>, r: int) -> bool {
    exists|i: int| 0 <= i < g.len() && g[i].resource == r
}

/// A list of granted requests is a matching: no client and no resource occurs twice.
pub open spec fn is_matching(g: Seq<Request>) -> bool {
    forall|i: int, j: int|
        0 <= i < j < g.len() ==> g[i].client != g[j].client && g[i].resource != g[j].resource
}

/// Every request of the list carries priority 0.
pub open spec fn all_priority_zero(g: Seq<Request>) -> bool {
    forall|k: int| 0 <= k < g.len() ==> (#[trigger] g[k]).priority == Some(0usize)
}

impl IslipAllocator {
    pub closed spec fn spec_num_clients(&self) -> usize {
        self.num_clients
    }

    pub closed spec fn spec_num_resources(&self) -> usize {
        self.num_resources
    }

    pub closed spec fn spec_num_iterations(&self) -> usize {
        self.num_iterations
    }

    /// The round-robin pointer of client `c`: the resource it accepts first in its next round.
    pub closed spec fn client_pointer(&self, c: int) -> usize {
        self.in_requests@[c].pointer
    }

    /// The round-robin pointer of resource `r`: the client it grants first in its next round.
    pub closed spec fn resource_pointer(&self, r: int) -> usize {
        self.out_requests@[r].pointer
    }

    /// Both allocators have the same round-robin pointers.
    pub open spec fn same_pointers(&self, other: &IslipAllocator) -> bool {
        &&& forall|c: int| 0 <= c < self.spec_num_clients() ==> #[trigger] self.client_pointer(c) == other.client_pointer(c)
        &&& forall|r: int| 0 <= r < self.spec_num_resources() ==> #[trigger] self.resource_pointer(r) == other.resource_pointer(r)
    }

    /// The pointers of `new` are those of `self`, each moved one place on, circularly, for the clients and resources of
    /// the `accepted` requests, so that the one just served has the lowest priority in the next round.
    pub open spec fn pointers_advanced(&self, new: &IslipAllocator, accepted: Seq<Request>) -> bool {
        &&& forall|c: int| 0 <= c < self.spec_num_clients() ==> #[trigger] new.client_pointer(c) == if grants_client(accepted, c) {
            ((self.client_pointer(c) + 1) % (self.spec_num_resources() as int)) as usize
        } else {
            self.client_pointer(c)
        }
        &&& forall|r: int| 0 <= r < self.spec_num_resources() ==> #[trigger] new.resource_pointer(r) == if grants_resource(accepted, r) {
            ((self.resource_pointer(r) + 1) % (self.spec_num_clients() as int)) as usize
        } else {
            self.resource_pointer(r)
        }
    }

    /// The clients with a pending request for resource `r`, in the order they were made.
    pub closed spec fn requesters(&self, r: int) -> Seq<usize> {
        self.out_requests@[r].clients@
    }

    /// In the first round every resource with pending requests is granted to the requester that comes first from its
    /// pointer, and that client is served in that round: it is among the `accepted` requests.
    pub open spec fn first_round_served(&self, accepted: Seq<Request>) -> bool {
        forall|r: int, x: usize| 0 <= r < self.spec_num_resources() && #[trigger] is_round_first(self.requesters(r), self.resource_pointer(r), x)
            ==> grants_client(accepted, x as int)
    }

    /// Whether client `c` has a pending request for resource `r`.
    pub closed spec fn requested(&self, c: int, r: usize) -> bool {
        0 <= c < self.in_requests@.len() && self.in_requests@[c].clients@.contains(r)
    }

    /// The pending requests of client `c`, in the order they were made.
    pub closed spec fn requests_of(&self, c: int) -> Seq<usize> {
        self.in_requests@[c].clients@
    }

    pub closed spec fn wf(&self) -> bool {
        &&& self.num_clients > 0
        &&& self.num_resources > 0
        &&& self.in_match@.len() == self.num_clients
        &&& self.out_match@.len() == self.num_resources
        &&& self.in_requests@.len() == self.num_clients
        &&& self.out_requests@.len() == self.num_resources
        &&& forall|c: int| 0 <= c < self.num_clients ==> {
            &&& (#[trigger] self.in_requests@[c]).wf()
            &&& self.in_requests@[c].spec_n() == self.num_resources
        }
        &&& forall|r: int| 0 <= r < self.num_resources ==> {
            &&& (#[trigger] self.out_requests@[r]).wf()
            &&& self.out_requests@[r].spec_n() == self.num_clients
        }
    }

    /// Creates the allocator with no pending request; one iteration when none is given.
    pub fn new(num_clients: usize, num_resources: usize, num_iterations: Option<usize>) -> (a: IslipAllocator)
        requires
            num_clients > 0,
            num_resources > 0,
        ensures
            a.wf(),
            a.spec_num_clients() == num_clients,
            a.spec_num_resources() == num_resources,
            a.spec_num_iterations() == match num_iterations { Some(n) => n, None => 1 },
            forall|c: int, r: usize| !a.requested(c, r),
            a.consistent(),
            forall|c: int| 0 <= c < num_clients ==> #[trigger] a.client_pointer(c) == 0,
            forall|r: int| 0 <= r < num_resources ==> #[trigger] a.resource_pointer(r) == 0,
    {
        let num_iterations = match num_iterations {
            Some(n) => n,
            None => 1,
        };
        let mut in_match: Vec<Option<usize>> = Vec::new();
        let mut in_requests: Vec<RoundVec> = Vec::new();
        let mut i: usize = 0;
        while i < num_clients
            invariant
                i <= num_clients,
                num_resources > 0,
                in_match@.len() == i,
                in_requests@.len() == i,
                forall|c: int| 0 <= c < i ==> {
                    &&& (#[trigger] in_requests@[c]).wf()
                    &&& in_requests@[c].spec_n() == num_resources
                    &&& in_requests@[c].clients@.len() == 0
                    &&& in_requests@[c].spec_pointer() == 0
                },
            decreases num_clients - i,
        {
            in_match.push(None);
            in_requests.push(RoundVec::new(num_resources));
            i = i + 1;
        }
        let mut out_match: Vec<Option<usize>> = Vec::new();
        let mut out_requests: Vec<RoundVec> = Vec::new();
        let mut j: usize = 0;
        while j < num_resources
            invariant
                j <= num_resources,
                num_clients > 0,
                out_match@.len() == j,
                out_requests@.len() == j,
                forall|r: int| 0 <= r < j ==> {
                    &&& (#[trigger] out_requests@[r]).wf()
                    &&& out_requests@[r].spec_n() == num_clients
                    &&& out_requests@[r].clients@.len() == 0
                    &&& out_requests@[r].spec_pointer() == 0
                },
            decreases num_resources - j,
        {
            out_match.push(None);
            out_requests.push(RoundVec::new(num_clients));
            j = j + 1;
        }
        let a = IslipAllocator {
            num_clients,
            num_resources,
            num_iterations,
            in_match,
            out_match,
            in_requests,
            out_requests,
        };
        assert forall|c: int, r: usize| !a.requested(c, r) by {
            if 0 <= c < a.in_requests@.len() {
                assert(a.in_requests@[c].clients@.len() == 0);
            }
        }
        assert forall|c: int, r: int| 0 <= c < a.num_clients && 0 <= r < a.num_resources implies
            (a.in_requests@[c].clients@.contains(r as usize) <==> a.out_requests@[r].clients@.contains(c as usize)) by {
            assert(a.in_requests@[c].clients@.len() == 0);
        }
        a
    }

    /// The request is valid if the client is in the range [0, num_clients) and the resource is in the range [0, num_resources)
    pub fn is_valid_request(&self, request: &Request) -> (b: bool)
        ensures
            b == (request.client < self.spec_num_clients() && request.resource < self.spec_num_resources()),
    {
        if request.client >= self.num_clients || request.resource >= self.num_resources {
            return false;
        }
        true
    }

    /// Adds a request, which must be valid: a client and a resource of the allocator.
    pub fn add_request(&mut self, request: Request)
        requires
            old(self).wf(),
            old(self).consistent(),
            request.client < old(self).spec_num_clients(),
            request.resource < old(self).spec_num_resources(),
        ensures
            final(self).wf(),
            final(self).consistent(),
            final(self).same_pointers(old(self)),
            final(self).spec_num_clients() == old(self).spec_num_clients(),
            final(self).spec_num_resources() == old(self).spec_num_resources(),
            final(self).spec_num_iterations() == old(self).spec_num_iterations(),
            forall|c: int, r: usize|
                #![trigger final(self).requested(c, r)]
                final(self).requested(c, r) <==> (old(self).requested(c, r) || (c == request.client
                    && r == request.resource)),
            forall|c: int|
                0 <= c < old(self).spec_num_clients() ==> #[trigger] final(self).requests_of(c) == if c
                    == request.client {
                    old(self).requests_of(c).push(request.resource)
                } else {
                    old(self).requests_of(c)
                },
    {
        let client = request.client;
        let resource = request.resource;
        self.in_requests[client].add(resource);
        self.out_requests[resource].add(client);
        proof {
            assert forall|c: int, r: int| 0 <= c < self.num_clients && 0 <= r < self.num_resources implies
                (self.in_requests@[c].clients@.contains(r as usize) <==> self.out_requests@[r].clients@.contains(c as usize)) by {
                let oi = old(self).in_requests@[c].clients@;
                let oo = old(self).out_requests@[r].clients@;
                let ni = self.in_requests@[c].clients@;
                let no = self.out_requests@[r].clients@;
                assert(old(self).in_requests@[c].clients@.contains(r as usize) <==> old(self).out_requests@[r].clients@.contains(c as usize));
                if c == client {
                    assert(ni == oi.push(resource));
                    lemma_push_contains(oi, resource, r as usize);
                } else {
                    assert(ni == oi);
                }
                if r == resource {
                    assert(no == oo.push(client));
                    lemma_push_contains(oo, client, c as usize);
                } else {
                    assert(no == oo);
                }
            }
            assert forall|c: int, r: usize|
                #![trigger self.requested(c, r)]
                self.requested(c, r) <==> (old(self).requested(c, r) || (c == request.client && r
                    == request.resource)) by {
                if c == client {
                    assert(self.in_requests@[c].clients@ == old(self).in_requests@[c].clients@.push(
                        resource,
                    ));
                    if self.requested(c, r) && r != resource {
                        let k = choose|k: int|
                            0 <= k < self.in_requests@[c].clients@.len()
                                && self.in_requests@[c].clients@[k] == r;
                        assert(old(self).in_requests@[c].clients@[k] == r);
                    }
                    if old(self).requested(c, r) {
                        let k = choose|k: int|
                            0 <= k < old(self).in_requests@[c].clients@.len()
                                && old(self).in_requests@[c].clients@[k] == r;
                        assert(self.in_requests@[c].clients@[k] == r);
                    }
                    if r == resource {
                        assert(self.in_requests@[c].clients@[self.in_requests@[c].clients@.len()
                            - 1] == r);
                    }
                }
            }
        }
    }

    /// Performs the rounds of grant and accept over the pending requests, which are
    /// then cleared. The granted requests form a matching of pending requests, all
    /// with priority 0, with at least one grant when a request is pending and there are
    /// rounds; the round pointers persist to the next allocation.
    pub fn perform_allocation(&mut self) -> (gr: GrantedRequests)
        requires
            old(self).wf(),
            old(self).consistent(),
        ensures
            final(self).wf(),
            final(self).consistent(),
            old(self).spec_num_iterations() > 0 && (exists|c: int, r: usize| old(self).requested(c, r)) ==> gr@.len() > 0,
            exists|k: int| 0 <= k <= gr@.len() && (old(self).spec_num_iterations() <= 1 ==> k == gr@.len())
                && #[trigger] old(self).pointers_advanced(&*final(self), gr@.take(k))
                && (old(self).spec_num_iterations() > 0 ==> old(self).first_round_served(gr@.take(k))),
            final(self).spec_num_clients() == old(self).spec_num_clients(),
            final(self).spec_num_resources() == old(self).spec_num_resources(),
            final(self).spec_num_iterations() == old(self).spec_num_iterations(),
            is_matching(gr@),
            all_priority_zero(gr@),
            forall|k: int|
                0 <= k < gr@.len() ==> old(self).requested(#[trigger] gr@[k].client as int, gr@[k].resource),
            forall|c: int, r: usize| !final(self).requested(c, r),
    {
        let mut gr = GrantedRequests::new();
        let nc = self.num_clients;
        let nr = self.num_resources;
        let ghost pending = self.in_requests@.map_values(|v: RoundVec| v.clients@);
        let ghost out_pending = self.out_requests@.map_values(|v: RoundVec| v.clients@);
        let ghost any_pending = exists|c: int, r: usize| old(self).requested(c, r);
        // Sort the requests of each input and each output in round order.
        let mut client: usize = 0;
        while client < nc
            invariant
                self.same_pointers(old(self)),
                self.wf(),
                nc == self.num_clients,
                nr == self.num_resources,
                self.num_iterations == old(self).num_iterations,
                client <= nc,
                pending.len() == nc,
                forall|c: int| 0 <= c < nc ==> pending[c] == old(self).in_requests@[c].clients@,
                forall|c: int|
                    0 <= c < nc ==> (#[trigger] self.in_requests@[c]).clients@.to_multiset()
                        == pending[c].to_multiset(),
                forall|r: int|
                    0 <= r < nr ==> (#[trigger] self.out_requests@[r]).clients@.to_multiset()
                        == out_pending[r].to_multiset(),
                out_pending.len() == nr,
                forall|r: int| 0 <= r < nr ==> out_pending[r] == old(self).out_requests@[r].clients@,
            decreases nc - client,
        {
            let ghost b = *self;
            self.in_requests[client].sort();
            proof {
                assert forall|c: int| 0 <= c < self.spec_num_clients() implies #[trigger] self.client_pointer(c) == b.client_pointer(c) by {
                    assert(self.in_requests@[c].pointer == b.in_requests@[c].pointer);
                }
                assert forall|r: int| 0 <= r < self.spec_num_resources() implies #[trigger] self.resource_pointer(r) == b.resource_pointer(r) by {
                    assert(self.out_requests@[r].pointer == b.out_requests@[r].pointer);
                }
            }
            client = client + 1;
        }
        let mut resource: usize = 0;
        while resource < nr
            invariant
                self.same_pointers(old(self)),
                self.wf(),
                nc == self.num_clients,
                nr == self.num_resources,
                self.num_iterations == old(self).num_iterations,
                resource <= nr,
                pending.len() == nc,
                forall|c: int| 0 <= c < nc ==> pending[c] == old(self).in_requests@[c].clients@,
                forall|c: int|
                    0 <= c < nc ==> (#[trigger] self.in_requests@[c]).clients@.to_multiset()
                        == pending[c].to_multiset(),
                forall|r: int|
                    0 <= r < nr ==> (#[trigger] self.out_requests@[r]).clients@.to_multiset()
                        == out_pending[r].to_multiset(),
                out_pending.len() == nr,
                forall|r: int| 0 <= r < nr ==> out_pending[r] == old(self).out_requests@[r].clients@,
                forall|r: int| 0 <= r < resource ==> round_sorted((#[trigger] self.out_requests@[r]).clients@, self.out_requests@[r].pointer),
            decreases nr - resource,
        {
            let ghost b = *self;
            self.out_requests[resource].sort();
            proof {
                assert forall|c: int| 0 <= c < self.spec_num_clients() implies #[trigger] self.client_pointer(c) == b.client_pointer(c) by {
                    assert(self.in_requests@[c].pointer == b.in_requests@[c].pointer);
                }
                assert forall|r: int| 0 <= r < self.spec_num_resources() implies #[trigger] self.resource_pointer(r) == b.resource_pointer(r) by {
                    assert(self.out_requests@[r].pointer == b.out_requests@[r].pointer);
                }
            }
            resource = resource + 1;
        }
        let ghost sorted_state = *self;
        proof {
            assert forall|r: int| 0 <= r < sorted_state.num_resources implies {
                &&& round_sorted((#[trigger] sorted_state.out_requests@[r]).clients@, sorted_state.out_requests@[r].pointer)
                &&& sorted_state.out_requests@[r].clients@.to_multiset() == out_pending[r].to_multiset()
                &&& sorted_state.out_requests@[r].wf()
                &&& sorted_state.out_requests@[r].spec_n() == sorted_state.num_clients
            } by {
            }
            assert(sorted_state.sorted_from(old(self), out_pending));
        }
        // Reset the matches.
        let mut c0: usize = 0;
        while c0 < nc
            invariant
                sorted_state.sorted_from(old(self), out_pending),
                self.out_requests == sorted_state.out_requests,
                self.same_pointers(old(self)),
                self.wf(),
                nc == self.num_clients,
                nr == self.num_resources,
                self.num_iterations == old(self).num_iterations,
                c0 <= nc,
                pending.len() == nc,
                forall|c: int| 0 <= c < nc ==> pending[c] == old(self).in_requests@[c].clients@,
                forall|k: int|
                    0 <= k < gr@.len() ==> #[trigger] pending[gr@[k].client as int].contains(
                        gr@[k].resource,
                    ),
                is_matching(gr@),
                all_priority_zero(gr@),
                forall|c: int| 0 <= c < c0 ==> self.in_match@[c] is None,
                gr@.len() == 0,
                forall|c: int|
                    0 <= c < nc ==> (#[trigger] self.in_requests@[c]).clients@.to_multiset()
                        == pending[c].to_multiset(),
                forall|r: int|
                    0 <= r < nr ==> (#[trigger] self.out_requests@[r]).clients@.to_multiset()
                        == out_pending[r].to_multiset(),
                out_pending.len() == nr,
                forall|r: int| 0 <= r < nr ==> out_pending[r] == old(self).out_requests@[r].clients@,
            decreases nc - c0,
        {
            let ghost b = *self;
            self.in_match.set(c0, None);
            proof {
                assert forall|c: int| 0 <= c < self.spec_num_clients() implies #[trigger] self.client_pointer(c) == b.client_pointer(c) by {
                    assert(self.in_requests@[c].pointer == b.in_requests@[c].pointer);
                }
                assert forall|r: int| 0 <= r < self.spec_num_resources() implies #[trigger] self.resource_pointer(r) == b.resource_pointer(r) by {
                    assert(self.out_requests@[r].pointer == b.out_requests@[r].pointer);
                }
            }
            c0 = c0 + 1;
        }
        let mut r0: usize = 0;
        while r0 < nr
            invariant
                sorted_state.sorted_from(old(self), out_pending),
                self.out_requests == sorted_state.out_requests,
                self.same_pointers(old(self)),
                self.wf(),
                nc == self.num_clients,
                nr == self.num_resources,
                self.num_iterations == old(self).num_iterations,
                r0 <= nr,
                pending.len() == nc,
                forall|c: int| 0 <= c < nc ==> pending[c] == old(self).in_requests@[c].clients@,
                forall|k: int|
                    0 <= k < gr@.len() ==> #[trigger] pending[gr@[k].client as int].contains(
                        gr@[k].resource,
                    ),
                is_matching(gr@),
                all_priority_zero(gr@),
                forall|c: int| 0 <= c < nc ==> self.in_match@[c] is None,
                forall|r: int| 0 <= r < r0 ==> self.out_match@[r] is None,
                gr@.len() == 0,
                forall|c: int|
                    0 <= c < nc ==> (#[trigger] self.in_requests@[c]).clients@.to_multiset()
                        == pending[c].to_multiset(),
                forall|r: int|
                    0 <= r < nr ==> (#[trigger] self.out_requests@[r]).clients@.to_multiset()
                        == out_pending[r].to_multiset(),
                out_pending.len() == nr,
                forall|r: int| 0 <= r < nr ==> out_pending[r] == old(self).out_requests@[r].clients@,
            decreases nr - r0,
        {
            let ghost b = *self;
            self.out_match.set(r0, None);
            proof {
                assert forall|c: int| 0 <= c < self.spec_num_clients() implies #[trigger] self.client_pointer(c) == b.client_pointer(c) by {
                    assert(self.in_requests@[c].pointer == b.in_requests@[c].pointer);
                }
                assert forall|r: int| 0 <= r < self.spec_num_resources() implies #[trigger] self.resource_pointer(r) == b.resource_pointer(r) by {
                    assert(self.out_requests@[r].pointer == b.out_requests@[r].pointer);
                }
            }
            r0 = r0 + 1;
        }
        let ghost mut k0: int = 0;
        let ghost mut g0: Seq<Request> = Seq::empty();
        let mut islip_iter: usize = 0;
        while islip_iter < self.num_iterations
            invariant
                islip_iter <= self.num_iterations,
                sorted_state.sorted_from(old(self), out_pending),
                islip_iter == 0 ==> self.out_requests == sorted_state.out_requests,
                islip_iter > 0 ==> old(self).first_round_served(g0),
                islip_iter == 0 ==> self.same_pointers(old(self)),
                islip_iter > 0 ==> 0 <= k0 <= gr@.len() && gr@.take(k0) == g0 && old(self).pointers_advanced(&*self, g0),
                islip_iter == 1 ==> k0 == gr@.len(),
                old(self).consistent(),
                old(self).wf(),
                nc == old(self).num_clients,
                nr == old(self).num_resources,
                any_pending == exists|c: int, r: usize| old(self).requested(c, r),
                islip_iter == 0 ==> gr@.len() == 0,
                islip_iter == 0 ==> forall|c: int| 0 <= c < nc ==> self.in_match@[c] is None,
                islip_iter == 0 ==> forall|r: int| 0 <= r < nr ==> self.out_match@[r] is None,
                islip_iter > 0 && any_pending ==> gr@.len() > 0,
                self.wf(),
                nc == self.num_clients,
                nr == self.num_resources,
                self.num_iterations == old(self).num_iterations,
                forall|c: int|
                    0 <= c < nc ==> (#[trigger] self.in_requests@[c]).clients@.to_multiset()
                        == pending[c].to_multiset(),
                forall|r: int|
                    0 <= r < nr ==> (#[trigger] self.out_requests@[r]).clients@.to_multiset()
                        == out_pending[r].to_multiset(),
                out_pending.len() == nr,
                forall|r: int| 0 <= r < nr ==> out_pending[r] == old(self).out_requests@[r].clients@,
                self.matches_agree(gr@),
                all_priority_zero(gr@),
                pending.len() == nc,
                forall|c: int| 0 <= c < nc ==> pending[c] == old(self).in_requests@[c].clients@,
                forall|k: int|
                    0 <= k < gr@.len() ==> #[trigger] pending[gr@[k].client as int].contains(
                        gr@[k].resource,
                    ),
            decreases self.num_iterations - islip_iter,
        {
            let ghost in_match_before = self.in_match@;
            let ghost iter_start = *self;
            let ghost out_match_before = self.out_match@;
            // Grant phase: each free output grants the first requester in its round that is free.
            let mut grants: Vec<Option<usize>> = Vec::new();
            let mut k: usize = 0;
            while k < nr
                invariant
                    k <= nr,
                    grants@.len() == k,
                    forall|r: int| 0 <= r < k ==> grants@[r] is None,
                decreases nr - k,
            {
                grants.push(None);
                k = k + 1;
            }
            let mut resource: usize = 0;
            while resource < nr
                invariant
                    islip_iter == 0 ==> forall|c: int| 0 <= c < nc ==> in_match_before[c] is None,
                    islip_iter == 0 ==> forall|r: int| 0 <= r < nr ==> out_match_before[r] is None,
                    self.out_match@ == out_match_before,
                    forall|r: int| resource <= r < nr ==> grants@[r] is None,
                    islip_iter == 0 ==> forall|r: int| 0 <= r < resource ==> {
                        &&& (grants@[r] matches Some(c) ==> self.out_requests@[r].clients@.contains(c))
                        &&& (self.out_requests@[r].clients@.len() > 0 ==> grants@[r] is Some)
                        &&& (self.out_requests@[r].clients@.len() > 0 ==> grants@[r] == Some(self.out_requests@[r].clients@[0]))
                    },
                    sorted_state.sorted_from(old(self), out_pending),
                    islip_iter == 0 ==> self.out_requests == sorted_state.out_requests,
                    self.wf(),
                    nc == self.num_clients,
                    nr == self.num_resources,
                    self.num_iterations == old(self).num_iterations,
                    resource <= nr,
                    grants@.len() == nr,
                    self.in_match@ == in_match_before,
                    forall|c: int|
                        0 <= c < nc ==> (#[trigger] self.in_requests@[c]).clients@.to_multiset()
                            == pending[c].to_multiset(),
                    forall|r: int|
                        0 <= r < nr ==> (#[trigger] self.out_requests@[r]).clients@.to_multiset()
                            == out_pending[r].to_multiset(),
                    out_pending.len() == nr,
                    forall|r: int| 0 <= r < nr ==> out_pending[r] == old(self).out_requests@[r].clients@,
                    self.matches_agree(gr@),
                all_priority_zero(gr@),
                    forall|r: int| #![trigger grants@[r]] 0 <= r < nr ==> self.grant_ok(grants@[r], r),
                    pending.len() == nc,
                    forall|c: int| 0 <= c < nc ==> pending[c] == old(self).in_requests@[c].clients@,
                    forall|k: int|
                        0 <= k < gr@.len() ==> #[trigger] pending[gr@[k].client as int].contains(
                            gr@[k].resource,
                        ),
                decreases nr - resource,
            {
                let ghost old_grants = grants@;
                if self.out_match[resource].is_none() && !self.out_requests[resource].is_empty() {
                    let len = self.out_requests[resource].clients.len();
                    let mut idx: usize = 0;
                    while idx < len
                        invariant_except_break
                            grants@[resource as int] is None,
                            islip_iter == 0 ==> idx == 0,
                        invariant
                            self.in_match@ == in_match_before,
                            islip_iter == 0 ==> forall|c: int| 0 <= c < nc ==> in_match_before[c] is None,
                            forall|r: int| resource < r < nr ==> grants@[r] is None,
                            islip_iter == 0 ==> forall|r: int| 0 <= r < resource ==> {
                                &&& (grants@[r] matches Some(c) ==> self.out_requests@[r].clients@.contains(c))
                                &&& (self.out_requests@[r].clients@.len() > 0 ==> grants@[r] is Some)
                                &&& (self.out_requests@[r].clients@.len() > 0 ==> grants@[r] == Some(self.out_requests@[r].clients@[0]))
                            },
                            islip_iter == 0 ==> (idx == 0 && grants@[resource as int] is None) || (grants@[resource as int] matches Some(c)
                                && self.out_requests@[resource as int].clients@.contains(c)),
                            islip_iter == 0 ==> (idx == 0 && grants@[resource as int] is None)
                                || grants@[resource as int] == Some(self.out_requests@[resource as int].clients@[0]),
                            grants@[resource as int] matches Some(c) ==> self.out_requests@[resource as int].clients@.contains(c),
                            len > 0,
                            self.wf(),
                            nc == self.num_clients,
                            nr == self.num_resources,
                            resource < nr,
                            len == self.out_requests@[resource as int].clients@.len(),
                            grants@.len() == nr,
                            self.out_match@[resource as int] is None,
                            forall|r: int| #![trigger grants@[r]] 0 <= r < nr ==> self.grant_ok(grants@[r], r),
                            grants@.len() == old_grants.len(),
                            forall|r: int| 0 <= r < nr && r != resource ==> grants@[r] == old_grants[r],
                        ensures
                            islip_iter == 0 ==> (grants@[resource as int] matches Some(c) && self.out_requests@[resource as int].clients@.contains(c)),
                            islip_iter == 0 ==> grants@[resource as int] == Some(self.out_requests@[resource as int].clients@[0]),
                            forall|r: int| 0 <= r < nr && r != resource ==> grants@[r] == old_grants[r],
                        decreases len - idx,
                    {
                        let client = self.out_requests[resource].clients[idx];
                        if self.in_match[client].is_none() {
                            grants.set(resource, Some(client));
                            assert(self.out_requests@[resource as int].clients@[idx as int] == client);
                            break;
                        }
                        idx = idx + 1;
                    }
                    assert(islip_iter == 0 ==> (grants@[resource as int] matches Some(c) && self.out_requests@[resource as int].clients@.contains(c)));
                } else {
                    assert(islip_iter == 0 ==> self.out_requests@[resource as int].clients@.len() == 0);
                }
                assert(islip_iter == 0 ==> forall|r: int| 0 <= r < resource + 1 ==> {
                        &&& (grants@[r] matches Some(c) ==> self.out_requests@[r].clients@.contains(c))
                        &&& (self.out_requests@[r].clients@.len() > 0 ==> grants@[r] is Some)
                        &&& (self.out_requests@[r].clients@.len() > 0 ==> grants@[r] == Some(self.out_requests@[r].clients@[0]))
                    });
                resource = resource + 1;
            }
            // Accept phase: each input accepts the first output in its round that granted it.
            let ghost out_clients = self.out_requests@.map_values(|v: RoundVec| v.clients@);
            let ghost in_clients = self.in_requests@.map_values(|v: RoundVec| v.clients@);
            proof {
                if islip_iter == 0 {
                    assert forall|c: int| 0 <= c < old(self).spec_num_clients() implies #[trigger] self.client_pointer(c) == if grants_client(gr@, c) {
                        ((old(self).client_pointer(c) + 1) % (old(self).spec_num_resources() as int)) as usize
                    } else {
                        old(self).client_pointer(c)
                    } by {
                        assert(self.client_pointer(c) == old(self).client_pointer(c));
                    }
                    assert forall|r: int| 0 <= r < old(self).spec_num_resources() implies #[trigger] self.resource_pointer(r) == if grants_resource(gr@, r) {
                        ((old(self).resource_pointer(r) + 1) % (old(self).spec_num_clients() as int)) as usize
                    } else {
                        old(self).resource_pointer(r)
                    } by {
                        assert(self.resource_pointer(r) == old(self).resource_pointer(r));
                    }
                }
            }
            let mut client: usize = 0;
            while client < nc
                invariant
                    islip_iter == 0 ==> old(self).pointers_advanced(&*self, gr@),
                    islip_iter == 0 ==> forall|k: int| 0 <= k < gr@.len() ==> (#[trigger] gr@[k]).client < client,
                    islip_iter == 0 ==> forall|r: int| 0 <= r < nr ==> ((#[trigger] grants@[r]) matches Some(c) ==> (c < client ==> grants_client(gr@, c as int))),
                    islip_iter == 0 ==> forall|r: int| 0 <= r < nr ==> (out_clients[r].len() > 0 ==> (#[trigger] grants@[r]) == Some(out_clients[r][0])),
                    islip_iter == 0 ==> forall|r: int| 0 <= r < nr ==> #[trigger] out_clients[r] == sorted_state.out_requests@[r].clients@,
                    sorted_state.sorted_from(old(self), out_pending),
                    islip_iter == 0 ==> forall|c: int| 0 <= c < nc ==> #[trigger] in_match_before[c] is None,
                    islip_iter > 0 ==> self.same_pointers(&iter_start),
                    islip_iter > 0 ==> 0 <= k0 <= gr@.len() && gr@.take(k0) == g0,
                    iter_start.num_clients == nc,
                    iter_start.num_resources == nr,
                    old(self).consistent(),
                    old(self).wf(),
                    nc == old(self).num_clients,
                    nr == old(self).num_resources,
                    any_pending == exists|c: int, r: usize| old(self).requested(c, r),
                    out_clients.len() == nr,
                    in_clients.len() == nc,
                    forall|r: int| 0 <= r < nr ==> self.out_requests@[r].clients@ == out_clients[r],
                    forall|c: int| 0 <= c < nc ==> self.in_requests@[c].clients@ == in_clients[c],
                    islip_iter == 0 ==> forall|r: int| 0 <= r < nr ==> {
                        &&& (grants@[r] matches Some(c) ==> out_clients[r].contains(c))
                        &&& (out_clients[r].len() > 0 ==> grants@[r] is Some)
                    },
                    islip_iter == 0 ==> (gr@.len() > 0 || forall|r: int| 0 <= r < nr ==> ((#[trigger] grants@[r]) matches Some(c) ==> c >= client)),
                    islip_iter > 0 && any_pending ==> gr@.len() > 0,
                    self.wf(),
                    nc == self.num_clients,
                    nr == self.num_resources,
                    self.num_iterations == old(self).num_iterations,
                    client <= nc,
                    grants@.len() == nr,
                    pending.len() == nc,
                    forall|c: int| 0 <= c < nc ==> pending[c] == old(self).in_requests@[c].clients@,
                    islip_iter < self.num_iterations,
                    forall|c: int|
                        0 <= c < nc ==> (#[trigger] self.in_requests@[c]).clients@.to_multiset()
                            == pending[c].to_multiset(),
                    forall|r: int|
                        0 <= r < nr ==> (#[trigger] self.out_requests@[r]).clients@.to_multiset()
                            == out_pending[r].to_multiset(),
                    out_pending.len() == nr,
                    forall|r: int| 0 <= r < nr ==> out_pending[r] == old(self).out_requests@[r].clients@,
                    self.matches_agree(gr@),
                all_priority_zero(gr@),
                    forall|r: int|
                        #![trigger grants@[r]]
                        0 <= r < nr ==> self.later_grant_ok(grants@[r], r, client),
                    forall|k: int|
                        0 <= k < gr@.len() ==> #[trigger] pending[gr@[k].client as int].contains(
                            gr@[k].resource,
                        ),
                decreases nc - client,
            {
                let ghost top = *self;
                let ghost gr_top = gr@;
                let len = self.in_requests[client].clients.len();
                let mut idx: usize = 0;
                let mut found: Option<usize> = None;
                while idx < len
                    invariant
                        self.wf(),
                        nc == self.num_clients,
                        nr == self.num_resources,
                        client < nc,
                        len == self.in_requests@[client as int].clients@.len(),
                        grants@.len() == nr,
                        found matches Some(r) ==> r < nr && grants@[r as int] == Some(client)
                            && self.in_requests@[client as int].clients@.contains(r),
                        found is None ==> forall|k: int| 0 <= k < idx ==> grants@[#[trigger] self.in_requests@[client as int].clients@[k] as int] != Some(client),
                    ensures
                        found matches Some(r) ==> r < nr && grants@[r as int] == Some(client)
                            && self.in_requests@[client as int].clients@.contains(r),
                        found is None ==> forall|k: int| 0 <= k < len ==> grants@[#[trigger] self.in_requests@[client as int].clients@[k] as int] != Some(client),
                    decreases len - idx,
                {
                    let resource = self.in_requests[client].clients[idx];
                    if grants[resource] == Some(client) {
                        found = Some(resource);
                        proof {
                            assert(self.in_requests@[client as int].clients@[idx as int] == resource);
                        }
                        break;
                    }
                    idx = idx + 1;
                }
                proof {
                    if islip_iter == 0 && found is None {
                        assert forall|r: int| 0 <= r < nr implies (#[trigger] grants@[r]) != Some(client) by {
                            if grants@[r] == Some(client) {
                                assert(out_clients[r].contains(client));
                                self.lemma_request_mirrored(old(self), client as int, r, pending, out_pending);
                                let k = choose|k: int| 0 <= k < self.in_requests@[client as int].clients@.len()
                                    && self.in_requests@[client as int].clients@[k] == r as usize;
                                assert(grants@[self.in_requests@[client as int].clients@[k] as int] != Some(client));
                            }
                        }
                    }
                }
                if let Some(resource) = found {
                    proof {
                        self.lemma_in_pending(client as int, resource, pending[client as int]);
                    }
                    let ghost gr_before = gr@;
                    self.in_match.set(client, Some(resource));
                    self.out_match.set(resource, Some(client));
                    let req = Request { client, resource, priority: Some(0) };
                    gr.add_granted_request(req);
                    proof {
                        assert(gr@ == gr_before.push(req));
                        assert forall|k: int|
                            0 <= k < gr@.len() implies #[trigger] pending[gr@[k].client as int].contains(
                                gr@[k].resource,
                            ) by {
                            if k < gr_before.len() {
                                assert(gr@[k] == gr_before[k]);
                            } else {
                                assert(gr@[k] == req);
                                assert(pending[client as int].contains(resource));
                            }
                        }
                        assert forall|k: int| 0 <= k < gr@.len() implies (#[trigger] gr@[k]).priority == Some(0usize) by {
                            if k < gr_before.len() {
                                assert(gr@[k] == gr_before[k]);
                            }
                        }
                        assert forall|k: int| 0 <= k < gr_before.len() implies gr_before[k].client
                            != client && gr_before[k].resource != resource by {
                            assert(self.in_match@[gr_before[k].client as int] is Some);
                        }
                        assert forall|r: int|
                            #![trigger grants@[r]]
                            0 <= r < nr implies self.later_grant_ok(grants@[r], r, (client + 1) as usize) by {
                            if r == resource as int {
                                assert(grants@[r] == Some(client));
                            }
                        }
                    }
                    let ghost before_inc = *self;
                    proof {
                        assert forall|c: int| 0 <= c < self.spec_num_clients() implies #[trigger] before_inc.client_pointer(c) == top.client_pointer(c) by {
                            assert(before_inc.in_requests@[c] == top.in_requests@[c]);
                        }
                        assert forall|r: int| 0 <= r < self.spec_num_resources() implies #[trigger] before_inc.resource_pointer(r) == top.resource_pointer(r) by {
                            assert(before_inc.out_requests@[r] == top.out_requests@[r]);
                        }
                    }
                    if islip_iter == 0 {
                        self.in_requests[client].increment_pointer();
                        self.out_requests[resource].increment_pointer();
                    }
                    proof {
                        if islip_iter == 0 {
                            let g = gr@;
                            assert(g == gr_before.push(req));
                            assert(!grants_client(gr_before, client as int)) by {
                                if grants_client(gr_before, client as int) {
                                    let i = choose|i: int| 0 <= i < gr_before.len() && gr_before[i].client == client as int;
                                    assert(gr_before[i].client < client);
                                }
                            }
                            assert(!grants_resource(gr_before, resource as int)) by {
                                if grants_resource(gr_before, resource as int) {
                                    let i = choose|i: int| 0 <= i < gr_before.len() && gr_before[i].resource == resource as int;
                                    assert(g[i] == gr_before[i]);
                                    assert(g[gr_before.len() as int] == req);
                                }
                            }
                            assert forall|c: int| 0 <= c < old(self).spec_num_clients() implies #[trigger] self.client_pointer(c) == if grants_client(g, c) {
                                ((old(self).client_pointer(c) + 1) % (old(self).spec_num_resources() as int)) as usize
                            } else {
                                old(self).client_pointer(c)
                            } by {
                                assert(top.client_pointer(c) == if grants_client(gr_before, c) {
                                    ((old(self).client_pointer(c) + 1) % (old(self).spec_num_resources() as int)) as usize
                                } else {
                                    old(self).client_pointer(c)
                                });
                                if c == client as int {
                                    assert(g[gr_before.len() as int].client == c);
                                } else {
                                    assert(self.client_pointer(c) == before_inc.client_pointer(c));
                                    assert(grants_client(g, c) == grants_client(gr_before, c)) by {
                                        if grants_client(g, c) {
                                            let i = choose|i: int| 0 <= i < g.len() && g[i].client == c;
                                            assert(i < gr_before.len());
                                            assert(gr_before[i] == g[i]);
                                        }
                                        if grants_client(gr_before, c) {
                                            let i = choose|i: int| 0 <= i < gr_before.len() && gr_before[i].client == c;
                                            assert(g[i] == gr_before[i]);
                                        }
                                    }
                                }
                            }
                            assert forall|r: int| 0 <= r < old(self).spec_num_resources() implies #[trigger] self.resource_pointer(r) == if grants_resource(g, r) {
                                ((old(self).resource_pointer(r) + 1) % (old(self).spec_num_clients() as int)) as usize
                            } else {
                                old(self).resource_pointer(r)
                            } by {
                                assert(top.resource_pointer(r) == if grants_resource(gr_before, r) {
                                    ((old(self).resource_pointer(r) + 1) % (old(self).spec_num_clients() as int)) as usize
                                } else {
                                    old(self).resource_pointer(r)
                                });
                                if r == resource as int {
                                    assert(g[gr_before.len() as int].resource == r);
                                } else {
                                    assert(self.resource_pointer(r) == before_inc.resource_pointer(r));
                                    assert(grants_resource(g, r) == grants_resource(gr_before, r)) by {
                                        if grants_resource(g, r) {
                                            let i = choose|i: int| 0 <= i < g.len() && g[i].resource == r;
                                            assert(i < gr_before.len());
                                            assert(gr_before[i] == g[i]);
                                        }
                                        if grants_resource(gr_before, r) {
                                            let i = choose|i: int| 0 <= i < gr_before.len() && gr_before[i].resource == r;
                                            assert(g[i] == gr_before[i]);
                                        }
                                    }
                                }
                            }
                            assert forall|k: int| 0 <= k < g.len() implies (#[trigger] g[k]).client < client + 1 by {
                                if k < gr_before.len() {
                                    assert(g[k] == gr_before[k]);
                                }
                            }
                        } else {
                            assert(gr@.take(k0) =~= gr_before.take(k0));
                            assert forall|c: int| 0 <= c < self.spec_num_clients() implies #[trigger] self.client_pointer(c) == iter_start.client_pointer(c) by {
                                assert(self.client_pointer(c) == top.client_pointer(c));
                            }
                            assert forall|r: int| 0 <= r < self.spec_num_resources() implies #[trigger] self.resource_pointer(r) == iter_start.resource_pointer(r) by {
                                assert(self.resource_pointer(r) == top.resource_pointer(r));
                            }
                        }
                    }
                }
                proof {
                    assert(gr@.len() >= gr_top.len());
                    assert(forall|i: int| 0 <= i < gr_top.len() ==> gr@[i] == gr_top[i]);
                    assert(found is Some ==> gr@.len() == gr_top.len() + 1 && gr@[gr_top.len() as int].client == client);
                    assert(found is None ==> gr@ == gr_top);
                    if islip_iter == 0 {
                        assert forall|r: int| 0 <= r < nr implies ((#[trigger] grants@[r]) matches Some(c) ==> (c < client + 1 ==> grants_client(gr@, c as int))) by {
                            if let Some(c) = grants@[r] {
                                if c == client {
                                    assert(found is Some);
                                    assert(gr@[gr_top.len() as int].client == client);
                                } else if c < client {
                                    assert(grants_client(gr_top, c as int));
                                    let i = choose|i: int| 0 <= i < gr_top.len() && gr_top[i].client == c as int;
                                    assert(gr@[i] == gr_top[i]);
                                }
                            }
                        }
                    }
                }
                client = client + 1;
            }
            proof {
                if islip_iter == 0 && any_pending {
                    let (c, r) = choose|c: int, r: usize| old(self).requested(c, r);
                    assert(old(self).in_requests@[c].clients@.contains(r));
                    assert(r < nr) by {
                        let k = choose|k: int| 0 <= k < old(self).in_requests@[c].clients@.len() && old(self).in_requests@[c].clients@[k] == r;
                        assert(old(self).in_requests@[c].wf());
                    }
                    assert(old(self).out_requests@[r as int].clients@.contains(c as usize));
                    vstd::seq_lib::to_multiset_contains(out_pending[r as int], c as usize);
                    vstd::seq_lib::to_multiset_contains(self.out_requests@[r as int].clients@, c as usize);
                    assert(self.out_requests@[r as int].clients@.contains(c as usize));
                    assert(out_clients[r as int].len() > 0);
                    assert(grants@[r as int] is Some);
                    assert(self.later_grant_ok(grants@[r as int], r as int, nc));
                }
            }
            proof {
                if islip_iter == 0 {
                    k0 = gr@.len() as int;
                    g0 = gr@;
                    assert(gr@.take(k0) =~= g0);
                    assert forall|r: int, x: usize| 0 <= r < old(self).spec_num_resources()
                        && #[trigger] is_round_first(old(self).requesters(r), old(self).resource_pointer(r), x) implies grants_client(g0, x as int) by {
                        let pend = old(self).requesters(r);
                        let srt = sorted_state.out_requests@[r].clients@;
                        let p = old(self).resource_pointer(r);
                        assert(pend == out_pending[r]);
                        assert(srt.to_multiset() == pend.to_multiset());
                        assert(sorted_state.resource_pointer(r) == p);
                        assert(round_sorted(srt, sorted_state.out_requests@[r].pointer));
                        vstd::seq_lib::to_multiset_contains(pend, x);
                        vstd::seq_lib::to_multiset_contains(srt, x);
                        assert(srt.contains(x));
                        let j = choose|j: int| 0 <= j < srt.len() && srt[j] == x;
                        let y = srt[0];
                        assert(srt.contains(y));
                        vstd::seq_lib::to_multiset_contains(srt, y);
                        vstd::seq_lib::to_multiset_contains(pend, y);
                        assert(pend.contains(y));
                        let i = choose|i: int| 0 <= i < pend.len() && pend[i] == y;
                        assert(round_key(x, p) <= round_key(pend[i], p));
                        if j > 0 {
                            assert(round_key(srt[0], p) <= round_key(srt[j], p));
                        }
                        lemma_round_key_injective(x, y, p);
                        assert(x == y);
                        assert(out_clients[r] == srt);
                        assert(grants@[r] == Some(y));
                        assert(sorted_state.out_requests@[r].wf());
                        assert(y < nc);
                    }
                } else {
                    assert forall|c: int| 0 <= c < old(self).spec_num_clients() implies #[trigger] self.client_pointer(c) == if grants_client(g0, c) {
                        ((old(self).client_pointer(c) + 1) % (old(self).spec_num_resources() as int)) as usize
                    } else {
                        old(self).client_pointer(c)
                    } by {
                        assert(self.client_pointer(c) == iter_start.client_pointer(c));
                    }
                    assert forall|r: int| 0 <= r < old(self).spec_num_resources() implies #[trigger] self.resource_pointer(r) == if grants_resource(g0, r) {
                        ((old(self).resource_pointer(r) + 1) % (old(self).spec_num_clients() as int)) as usize
                    } else {
                        old(self).resource_pointer(r)
                    } by {
                        assert(self.resource_pointer(r) == iter_start.resource_pointer(r));
                    }
                }
            }
            islip_iter = islip_iter + 1;
        }
        let ghost after_rounds = *self;
        // The pending requests have been served: clear them, keeping the pointers.
        let mut c1: usize = 0;
        while c1 < nc
            invariant
                self.same_pointers(&after_rounds),
                after_rounds.num_clients == nc,
                after_rounds.num_resources == nr,
                self.wf(),
                nc == self.num_clients,
                nr == self.num_resources,
                self.num_iterations == old(self).num_iterations,
                c1 <= nc,
                pending.len() == nc,
                forall|c: int| 0 <= c < nc ==> pending[c] == old(self).in_requests@[c].clients@,
                forall|k: int|
                    0 <= k < gr@.len() ==> #[trigger] pending[gr@[k].client as int].contains(
                        gr@[k].resource,
                    ),
                is_matching(gr@),
                all_priority_zero(gr@),
                forall|c: int| 0 <= c < c1 ==> (#[trigger] self.in_requests@[c]).clients@.len() == 0,
            decreases nc - c1,
        {
            let ghost b = *self;
            self.in_requests[c1].clients.clear();
            proof {
                assert forall|c: int| 0 <= c < self.spec_num_clients() implies #[trigger] self.client_pointer(c) == b.client_pointer(c) by {
                    assert(self.in_requests@[c].pointer == b.in_requests@[c].pointer);
                }
                assert forall|r: int| 0 <= r < self.spec_num_resources() implies #[trigger] self.resource_pointer(r) == b.resource_pointer(r) by {
                    assert(self.out_requests@[r].pointer == b.out_requests@[r].pointer);
                }
            }
            c1 = c1 + 1;
        }
        let mut r1: usize = 0;
        while r1 < nr
            invariant
                self.same_pointers(&after_rounds),
                after_rounds.num_clients == nc,
                after_rounds.num_resources == nr,
                self.wf(),
                nc == self.num_clients,
                nr == self.num_resources,
                self.num_iterations == old(self).num_iterations,
                r1 <= nr,
                pending.len() == nc,
                forall|c: int| 0 <= c < nc ==> pending[c] == old(self).in_requests@[c].clients@,
                forall|k: int|
                    0 <= k < gr@.len() ==> #[trigger] pending[gr@[k].client as int].contains(
                        gr@[k].resource,
                    ),
                is_matching(gr@),
                all_priority_zero(gr@),
                forall|c: int| 0 <= c < nc ==> (#[trigger] self.in_requests@[c]).clients@.len() == 0,
                forall|r: int| 0 <= r < r1 ==> (#[trigger] self.out_requests@[r]).clients@.len() == 0,
            decreases nr - r1,
        {
            let ghost b = *self;
            self.out_requests[r1].clients.clear();
            proof {
                assert forall|c: int| 0 <= c < self.spec_num_clients() implies #[trigger] self.client_pointer(c) == b.client_pointer(c) by {
                    assert(self.in_requests@[c].pointer == b.in_requests@[c].pointer);
                }
                assert forall|r: int| 0 <= r < self.spec_num_resources() implies #[trigger] self.resource_pointer(r) == b.resource_pointer(r) by {
                    assert(self.out_requests@[r].pointer == b.out_requests@[r].pointer);
                }
            }
            r1 = r1 + 1;
        }
        proof {
            assert(after_rounds.num_iterations == old(self).num_iterations);
            let k = if old(self).num_iterations == 0 { 0int } else { k0 };
            if old(self).num_iterations == 0 {
                assert(gr@.take(0) =~= Seq::<Request>::empty());
                assert(after_rounds.same_pointers(old(self)));
            } else {
                assert(old(self).pointers_advanced(&after_rounds, g0));
                assert(gr@.take(k) == g0);
            }
            assert forall|c: int| 0 <= c < old(self).spec_num_clients() implies #[trigger] self.client_pointer(c) == if grants_client(gr@.take(k), c) {
                ((old(self).client_pointer(c) + 1) % (old(self).spec_num_resources() as int)) as usize
            } else {
                old(self).client_pointer(c)
            } by {
                assert(self.client_pointer(c) == after_rounds.client_pointer(c));
                if old(self).num_iterations == 0 {
                    assert(!grants_client(gr@.take(k), c));
                }
            }
            assert forall|r: int| 0 <= r < old(self).spec_num_resources() implies #[trigger] self.resource_pointer(r) == if grants_resource(gr@.take(k), r) {
                ((old(self).resource_pointer(r) + 1) % (old(self).spec_num_clients() as int)) as usize
            } else {
                old(self).resource_pointer(r)
            } by {
                assert(self.resource_pointer(r) == after_rounds.resource_pointer(r));
                if old(self).num_iterations == 0 {
                    assert(!grants_resource(gr@.take(k), r));
                }
            }
            assert(old(self).pointers_advanced(&*self, gr@.take(k)));
            assert forall|c: int, r: int| 0 <= c < self.num_clients && 0 <= r < self.num_resources implies
                (self.in_requests@[c].clients@.contains(r as usize) <==> self.out_requests@[r].clients@.contains(c as usize)) by {
                assert(self.in_requests@[c].clients@.len() == 0);
                assert(self.out_requests@[r].clients@.len() == 0);
            }
            assert forall|c: int, r: usize| !self.requested(c, r) by {
                if 0 <= c < nc {
                    assert(self.in_requests@[c].clients@.len() == 0);
                }
            }
            assert forall|k: int|
                0 <= k < gr@.len() implies old(self).requested(#[trigger] gr@[k].client as int, gr@[k].resource) by {
                assert(pending[gr@[k].client as int].contains(gr@[k].resource));
            }
        }
        gr
    }

    /// A client requests a resource exactly when the resource has the request from the client.
    pub closed spec fn consistent(&self) -> bool {
        forall|c: int, r: int|
            #![trigger self.in_requests@[c].clients@.contains(r as usize)]
            #![trigger self.out_requests@[r].clients@.contains(c as usize)]
            0 <= c < self.num_clients && 0 <= r < self.num_resources ==>
                (self.in_requests@[c].clients@.contains(r as usize) <==> self.out_requests@[r].clients@.contains(c as usize))
    }

    /// The requests of every resource are in round order from its pointer and are those of `out_pending`, and the pointers
    /// are those of `before`.
    closed spec fn sorted_from(&self, before: &Self, out_pending: Seq<Seq<usize>>) -> bool {
        &&& self.same_pointers(before)
        &&& self.num_clients == before.num_clients
        &&& self.num_resources == before.num_resources
        &&& out_pending.len() == self.num_resources
        &&& self.out_requests@.len() == self.num_resources
        &&& forall|r: int| 0 <= r < self.num_resources ==> {
            &&& round_sorted((#[trigger] self.out_requests@[r]).clients@, self.out_requests@[r].pointer)
            &&& self.out_requests@[r].clients@.to_multiset() == out_pending[r].to_multiset()
            &&& self.out_requests@[r].wf()
            &&& self.out_requests@[r].spec_n() == self.num_clients
        }
    }

    /// The matches recorded in the allocator agree with the granted list.
    closed spec fn matches_agree(&self, g: Seq<Request>) -> bool {
        &&& is_matching(g)
        &&& forall|k: int|
            0 <= k < g.len() ==> {
                &&& (#[trigger] g[k]).client < self.num_clients
                &&& g[k].resource < self.num_resources
                &&& self.in_match@[g[k].client as int] == Some(g[k].resource)
                &&& self.out_match@[g[k].resource as int] == Some(g[k].client)
            }
    }

    /// A grant of resource `r`, if any, goes to a free requester of a free resource.
    closed spec fn grant_ok(&self, g: Option<usize>, r: int) -> bool {
        g matches Some(c) ==> c < self.num_clients && self.in_match@[c as int] is None
            && self.out_match@[r] is None
    }

    /// A grant of resource `r` to a client from `from` on goes to a free client, the resource being free.
    closed spec fn later_grant_ok(&self, g: Option<usize>, r: int, from: usize) -> bool {
        match g {
            Some(c) => c >= from ==> c < self.num_clients && self.in_match@[c as int] is None
                && self.out_match@[r] is None,
            None => true,
        }
    }

    ///A request that a resource holds now, from a client, is also held by the client, when both hold what they held in a consistent state.
    proof fn lemma_request_mirrored(&self, before: &Self, c: int, r: int, pending: Seq<Seq<usize>>, out_pending: Seq<Seq<usize>>)
        requires
            before.consistent(),
            0 <= c < before.num_clients,
            0 <= r < before.num_resources,
            c < self.in_requests@.len(),
            r < self.out_requests@.len(),
            c < pending.len(),
            r < out_pending.len(),
            pending[c] == before.in_requests@[c].clients@,
            out_pending[r] == before.out_requests@[r].clients@,
            self.in_requests@[c].clients@.to_multiset() == pending[c].to_multiset(),
            self.out_requests@[r].clients@.to_multiset() == out_pending[r].to_multiset(),
            self.out_requests@[r].clients@.contains(c as usize),
        ensures
            self.in_requests@[c].clients@.contains(r as usize),
    {
        vstd::seq_lib::to_multiset_contains(self.out_requests@[r].clients@, c as usize);
        vstd::seq_lib::to_multiset_contains(out_pending[r], c as usize);
        assert(before.out_requests@[r].clients@.contains(c as usize));
        assert(before.in_requests@[c].clients@.contains(r as usize));
        vstd::seq_lib::to_multiset_contains(pending[c], r as usize);
        vstd::seq_lib::to_multiset_contains(self.in_requests@[c].clients@, r as usize);
    }

    proof fn lemma_in_pending(&self, c: int, x: usize, p: Seq<usize>)
        requires
            0 <= c < self.in_requests@.len(),
            self.in_requests@[c].clients@.contains(x),
            self.in_requests@[c].clients@.to_multiset() == p.to_multiset(),
        ensures
            p.contains(x),
    {
        let s = self.in_requests@[c].clients@;
        assert(s.contains(x));
        assert(s.to_multiset().count(x) > 0);
        assert(p.to_multiset().count(x) > 0);
    }
}


/// After the pointer moves past `c`, `c` comes after every other index of the round.
pub proof fn lemma_served_goes_last(c: usize, x: usize, n: usize)
    requires
        c < n,
        x < n,
        x != c,
    ensures
        round_key(x, ((c + 1) % (n as int)) as usize) < round_key(c, ((c + 1) % (n as int)) as usize),
{
    if c + 1 < n {
        vstd::arithmetic::div_mod::lemma_small_mod((c + 1) as nat, n as nat);
    } else {
        assert(c + 1 == n);
        assert((c + 1) % (n as int) == 0);
    }
}

impl IslipAllocator {
    /// Round-robin fairness of iSLIP: when a resource was served in an allocation to the client at its pointer, then in
    /// the next allocation, whatever requests were added in between, that client comes last in the resource's round, so
    /// another requester of the resource is granted it first in the first round.
    pub proof fn lemma_served_client_yields(
        first: &IslipAllocator,
        after: &IslipAllocator,
        accepted: Seq<Request>,
        next: &IslipAllocator,
        r: int,
        c: usize,
        x: usize,
    )
        requires
            first.pointers_advanced(after, accepted),
            next.same_pointers(after),
            next.spec_num_clients() == first.spec_num_clients(),
            next.spec_num_resources() == first.spec_num_resources(),
            0 <= r < first.spec_num_resources(),
            c < first.spec_num_clients(),
            first.resource_pointer(r) == c,
            exists|i: int| 0 <= i < accepted.len() && accepted[i].client == c && accepted[i].resource == r,
            next.requesters(r).contains(x),
            x < first.spec_num_clients(),
            x != c,
        ensures
            next.resource_pointer(r) == ((c + 1) % (first.spec_num_clients() as int)) as usize,
            !is_round_first(next.requesters(r), next.resource_pointer(r), c),
    {
        assert(grants_resource(accepted, r));
        assert(after.resource_pointer(r) == ((c + 1) % (first.spec_num_clients() as int)) as usize);
        assert(next.resource_pointer(r) == after.resource_pointer(r));
        lemma_served_goes_last(c, x, first.spec_num_clients());
        let i = choose|i: int| 0 <= i < next.requesters(r).len() && next.requesters(r)[i] == x;
    }
}

} // verus!
