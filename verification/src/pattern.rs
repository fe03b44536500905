//! Patterns: how a set of entities decides destinations into another set of entities.
//! The entities are initially servers, but after some operators it may mean router, rows/columns, or other agrupations.
//! The source and target set may be or not be the same. Or even be of different size.
//! Thus, a pattern is a generalization of the mathematical concept of function.

use vstd::prelude::*;
use rand::rngs::StdRng;
use crate::rng::{gen_range, shuffle};

verus! {

///Each destination request will be uniform random among all the range `0..size` minus the `origin`.
///Independently of past requests, decisions or origin.
#[derive(Debug)]
pub struct UniformPattern {
    pub size: usize,
}

///Build a random permutation on initialization, which is then kept constant.
///This allows self-messages; with a reasonable probability of having one.
///See `RandomInvolution` and `FileMap`.
#[derive(Debug)]
pub struct RandomPermutation {
    pub permutation: Vec<usize>,
}

///An involution is a permutation that is a pairing/matching; if `a` is the destination of `b` then `b` is the destination of `a`.
///It will panic if given an odd size.
///See `Randompermutation`.
#[derive(Debug)]
pub struct RandomInvolution {
    pub permutation: Vec<usize>,
}

///Use a permutation given via a file.
///See `RandomPermutation`.
#[derive(Debug)]
pub struct FileMap {
    pub permutation: Vec<usize>,
}

///A pattern given by blocks. The elements are divided by blocks of size `block_size`. The `global_pattern` is used to describe the communication among different blocks and the `block_pattern` to describe the communication inside a block.
///Seen as a graph, this is the Kronecker product of the block graph with the global graph.
///Thus the origin a position `i` in the block `j` will select the destination at position `b(i)` in the block `g(j)`, where `b(i)` is the destination via the `block_pattern` and `g(j)` is the destination via the `global_pattern`.
#[derive(Debug)]
pub struct ProductPattern {
    pub block_size: usize,
    pub block_pattern: Box<Pattern>,
    pub global_pattern: Box<Pattern>,
}

///The pattern resulting of composing a list of patterns.
///destination=patterns[len-1]( patterns[len-2] ( ... (patterns[1] ( patterns[0]( origin ) )) ) ).
#[derive(Debug)]
pub struct Composition {
    pub patterns: Vec<Pattern>,
}

///The pattern resulting of composing a pattern with itself a number of times..
#[derive(Debug)]
pub struct Pow {
    pub pattern: Box<Pattern>,
    pub exponent: usize,
}

///A pattern of any of the kinds.
#[derive(Debug)]
pub enum Pattern {
    Uniform(UniformPattern),
    RandomPermutation(RandomPermutation),
    RandomInvolution(RandomInvolution),
    FileMap(FileMap),
    Product(ProductPattern),
    Composition(Composition),
    Pow(Pow),
}

///The value a permutation table gives, if the origin is in it.
pub open spec fn table_destinations(table: Seq<usize>, origin: int) -> Set<int> {
    if 0 <= origin < table.len() { set![table[origin] as int] } else { Set::empty() }
}

///An origin a `usize` holds.
pub open spec fn in_usize(x: int) -> bool {
    0 <= x <= usize::MAX
}

impl Pattern {
    ///The destinations the pattern may give to `origin`.
    pub open spec fn destinations(self, origin: int) -> Set<int>
        decreases self, 0nat,
    {
        match self {
            Pattern::Uniform(p) => Set::new(|d: int| 0 <= d < p.size && (origin < p.size ==> d != origin)),
            Pattern::RandomPermutation(p) => table_destinations(p.permutation@, origin),
            Pattern::RandomInvolution(p) => table_destinations(p.permutation@, origin),
            Pattern::FileMap(p) => table_destinations(p.permutation@, origin),
            Pattern::Product(p) => {
                let bs = p.block_size as int;
                let locals = (*p.block_pattern).destinations(origin % bs);
                let globals = (*p.global_pattern).destinations(origin / bs);
                Set::new(|d: int| bs > 0 && exists|l: int, g: int| #![trigger locals.contains(l), globals.contains(g)]
                    locals.contains(l) && globals.contains(g) && d == g * bs + l)
            },
            Pattern::Composition(c) => chain_destinations(c.patterns@, origin),
            Pattern::Pow(p) => pow_destinations(*p.pattern, p.exponent as nat, origin),
        }
    }

    ///The origins to which the pattern can give a destination: within its tables, and every step can take what the previous gave.
    pub open spec fn ready_origins(self) -> Set<int>
        decreases self, 0nat,
    {
        match self {
            Pattern::Uniform(p) => Set::new(|o: int| in_usize(o) && if o < p.size { p.size >= 2 } else { p.size >= 1 }),
            Pattern::RandomPermutation(p) => Set::new(|o: int| 0 <= o < p.permutation@.len()),
            Pattern::RandomInvolution(p) => Set::new(|o: int| 0 <= o < p.permutation@.len()),
            Pattern::FileMap(p) => Set::new(|o: int| 0 <= o < p.permutation@.len()),
            Pattern::Product(p) => {
                let bs = p.block_size as int;
                let block_ready = (*p.block_pattern).ready_origins();
                let global_ready = (*p.global_pattern).ready_origins();
                Set::new(|o: int| {
                    &&& in_usize(o)
                    &&& bs > 0
                    &&& block_ready.contains(o % bs)
                    &&& global_ready.contains(o / bs)
                    &&& forall|l: int, g: int|
                        #![trigger (*p.block_pattern).destinations(o % bs).contains(l), (*p.global_pattern).destinations(o / bs).contains(g)]
                        (*p.block_pattern).destinations(o % bs).contains(l)
                        && (*p.global_pattern).destinations(o / bs).contains(g)
                        ==> g * bs + l <= usize::MAX
                })
            },
            Pattern::Composition(c) => chain_ready_origins(c.patterns@),
            Pattern::Pow(p) => pow_ready_origins(*p.pattern, p.exponent as nat),
        }
    }
}

///The destinations applying the patterns in order may take `origin` to.
pub open spec fn chain_destinations(ps: Seq<Pattern>, origin: int) -> Set<int>
    decreases ps, 0nat,
{
    if ps.len() == 0 {
        set![origin]
    } else {
        let mids = chain_destinations(ps.drop_last(), origin);
        let last = ps.last();
        Set::new(|d: int| exists|m: int| #[trigger] mids.contains(m) && last.destinations(m).contains(d))
    }
}

///The origins for which every pattern of the chain can take whatever the previous ones may give.
pub open spec fn chain_ready_origins(ps: Seq<Pattern>) -> Set<int>
    decreases ps, 0nat,
{
    if ps.len() == 0 {
        Set::new(|o: int| in_usize(o))
    } else {
        let before = chain_ready_origins(ps.drop_last());
        let last_ready = ps.last().ready_origins();
        Set::new(|o: int| before.contains(o) && forall|m: int| #[trigger] chain_destinations(ps.drop_last(), o).contains(m) ==> last_ready.contains(m))
    }
}

///The destinations applying the pattern `k` times may take `origin` to.
pub open spec fn pow_destinations(p: Pattern, k: nat, origin: int) -> Set<int>
    decreases p, k,
{
    if k == 0 {
        set![origin]
    } else {
        let mids = pow_destinations(p, (k - 1) as nat, origin);
        Set::new(|d: int| exists|m: int| #[trigger] mids.contains(m) && p.destinations(m).contains(d))
    }
}

///The origins for which each of the `k` applications can take what the previous one may give.
pub open spec fn pow_ready_origins(p: Pattern, k: nat) -> Set<int>
    decreases p, k,
{
    if k == 0 {
        Set::new(|o: int| in_usize(o))
    } else {
        let before = pow_ready_origins(p, (k - 1) as nat);
        let step_ready = p.ready_origins();
        Set::new(|o: int| before.contains(o) && forall|m: int| #[trigger] pow_destinations(p, (k - 1) as nat, o).contains(m) ==> step_ready.contains(m))
    }
}

proof fn lemma_chain_ready_prefix(ps: Seq<Pattern>, origin: int, k: int)
    requires
        chain_ready_origins(ps).contains(origin),
        0 <= k <= ps.len(),
    ensures
        chain_ready_origins(ps.take(k)).contains(origin),
    decreases ps.len(),
{
    if k < ps.len() {
        lemma_chain_ready_prefix(ps.drop_last(), origin, k);
        assert(ps.drop_last().take(k) == ps.take(k));
    } else {
        assert(ps.take(k) == ps);
    }
}

proof fn lemma_pow_ready_prefix(p: Pattern, k: nat, origin: int, j: nat)
    requires
        pow_ready_origins(p, k).contains(origin),
        j <= k,
    ensures
        pow_ready_origins(p, j).contains(origin),
    decreases k,
{
    if j < k {
        lemma_pow_ready_prefix(p, (k - 1) as nat, origin, j);
    }
}

impl Pattern {
    ///Obtain a destination of a source. This will be called repeteadly as the traffic requires destination for its messages.
    pub fn get_destination(&self, origin: usize, rng: &mut StdRng) -> (dest: usize)
        requires
            self.ready_origins().contains(origin as int),
        ensures
            self.destinations(origin as int).contains(dest as int),
        decreases self,
    {
        match self {
            Pattern::Uniform(p) => {
                let d = p.get_destination(origin, rng);
                proof {
                    assert(self.destinations(origin as int).contains(d as int));
                }
                d
            },
            Pattern::RandomPermutation(p) => {
                let d = p.permutation[origin];
                proof {
                    assert(self.destinations(origin as int).contains(d as int));
                }
                d
            },
            Pattern::RandomInvolution(p) => {
                let d = p.permutation[origin];
                proof {
                    assert(self.destinations(origin as int).contains(d as int));
                }
                d
            },
            Pattern::FileMap(p) => {
                let d = p.permutation[origin];
                proof {
                    assert(self.destinations(origin as int).contains(d as int));
                }
                d
            },
            Pattern::Product(p) => {
                let local = origin % p.block_size;
                let global = origin / p.block_size;
                let local_dest = p.block_pattern.get_destination(local, rng);
                let global_dest = p.global_pattern.get_destination(global, rng);
                proof {
                    assert((*p.block_pattern).destinations(origin as int % (p.block_size as int)).contains(local_dest as int));
                    assert((*p.global_pattern).destinations(origin as int / (p.block_size as int)).contains(global_dest as int));
                }
                global_dest * p.block_size + local_dest
            },
            Pattern::Composition(c) => {
                let ghost ps = c.patterns@;
                let mut destination = origin;
                let mut i: usize = 0;
                proof {
                    assert(ps.take(0) =~= Seq::<Pattern>::empty());
                    assert forall|k: int| 0 <= k < ps.len() implies decreases_to!(self => #[trigger] ps[k]) by {
                        assert(decreases_to!(self => c.patterns));
                        assert(decreases_to!(c.patterns => c.patterns@));
                        assert(decreases_to!(c.patterns@ => c.patterns@[k]));
                    }
                }
                while i < c.patterns.len()
                    invariant
                        ps == c.patterns@,
                        i <= ps.len(),
                        chain_ready_origins(ps).contains(origin as int),
                        chain_destinations(ps.take(i as int), origin as int).contains(destination as int),
                        forall|k: int| 0 <= k < ps.len() ==> decreases_to!(self => #[trigger] ps[k]),
                    decreases ps.len() - i,
                {
                    proof {
                        lemma_chain_ready_prefix(ps, origin as int, i + 1);
                        assert(ps.take(i + 1).drop_last() == ps.take(i as int));
                        assert(ps.take(i + 1).last() == ps[i as int]);
                        assert(decreases_to!(self => ps[i as int]));
                    }
                    let next = c.patterns[i].get_destination(destination, rng);
                    proof {
                        assert(chain_destinations(ps.take(i + 1).drop_last(), origin as int).contains(destination as int));
                        assert(chain_destinations(ps.take(i + 1), origin as int).contains(next as int));
                    }
                    destination = next;
                    i = i + 1;
                }
                proof {
                    assert(ps.take(ps.len() as int) == ps);
                }
                destination
            },
            Pattern::Pow(p) => {
                let mut destination = origin;
                let mut j: usize = 0;
                proof {
                    assert(decreases_to!(self => *p.pattern));
                }
                while j < p.exponent
                    invariant
                        j <= p.exponent,
                        decreases_to!(self => *p.pattern),
                        pow_ready_origins(*p.pattern, p.exponent as nat).contains(origin as int),
                        pow_destinations(*p.pattern, j as nat, origin as int).contains(destination as int),
                    decreases p.exponent - j,
                {
                    proof {
                        lemma_pow_ready_prefix(*p.pattern, p.exponent as nat, origin as int, (j + 1) as nat);
                    }
                    let next = p.pattern.get_destination(destination, rng);
                    proof {
                        assert(pow_destinations(*p.pattern, j as nat, origin as int).contains(destination as int));
                        assert(((j + 1) as nat - 1) as nat == j as nat);
                        assert(pow_destinations(*p.pattern, (j + 1) as nat, origin as int).contains(next as int));
                    }
                    destination = next;
                    j = j + 1;
                }
                destination
            },
        }
    }
}

impl Pattern {
    ///The sizes are accepted: equal for the kinds that need it, even for involutions, and blocks of positive size.
    pub open spec fn can_initialize(self, source_size: usize, target_size: usize) -> bool
        decreases self,
    {
        match self {
            Pattern::Uniform(_) => source_size == target_size,
            Pattern::RandomPermutation(_) => source_size == target_size,
            Pattern::RandomInvolution(_) => source_size == target_size && source_size % 2 == 0,
            Pattern::FileMap(_) => true,
            Pattern::Product(p) => {
                &&& source_size == target_size
                &&& p.block_size > 0
                &&& (*p.block_pattern).can_initialize(p.block_size, p.block_size)
                &&& (*p.global_pattern).can_initialize(
                    (source_size / p.block_size) as usize, (source_size / p.block_size) as usize)
            },
            Pattern::Composition(c) => forall|i: int| 0 <= i < c.patterns@.len() ==>
                (#[trigger] c.patterns@[i]).can_initialize(source_size, target_size),
            Pattern::Pow(p) => (*p.pattern).can_initialize(source_size, target_size),
        }
    }

    ///`self` is `old` initialized for the sizes: the same kinds and parameters, with the tables drawn.
    pub open spec fn initialized_from(self, old: Pattern, source_size: usize, target_size: usize) -> bool
        decreases self,
    {
        match (self, old) {
            (Pattern::Uniform(p), Pattern::Uniform(_)) => p.size == target_size,
            (Pattern::RandomPermutation(p), Pattern::RandomPermutation(_)) => is_permutation(p.permutation@, source_size as nat),
            (Pattern::RandomInvolution(p), Pattern::RandomInvolution(_)) => is_perfect_matching(p.permutation@, source_size as nat),
            (Pattern::FileMap(p), Pattern::FileMap(q)) => p.permutation@ == q.permutation@,
            (Pattern::Product(p), Pattern::Product(q)) => {
                &&& p.block_size == q.block_size
                &&& (*p.block_pattern).initialized_from(*q.block_pattern, p.block_size, p.block_size)
                &&& (*p.global_pattern).initialized_from(
                    *q.global_pattern, (source_size / p.block_size) as usize, (source_size / p.block_size) as usize)
            },
            (Pattern::Composition(c), Pattern::Composition(d)) => {
                &&& c.patterns@.len() == d.patterns@.len()
                &&& forall|i: int| 0 <= i < c.patterns@.len() ==>
                    (#[trigger] c.patterns@[i]).initialized_from(d.patterns@[i], source_size, target_size)
            },
            (Pattern::Pow(p), Pattern::Pow(q)) => {
                &&& p.exponent == q.exponent
                &&& (*p.pattern).initialized_from(*q.pattern, source_size, target_size)
            },
            _ => false,
        }
    }

    ///Fix the input and output size, drawing whatever the pattern draws.
    ///Careful with using toology in sub-patterns. For example, it may be misleading to use the dragonfly topology when
    ///building a pattern among groups or a pattern among the ruters of a single group.
    pub fn initialize(&mut self, source_size: usize, target_size: usize, rng: &mut StdRng)
        requires
            old(self).can_initialize(source_size, target_size),
        ensures
            final(self).initialized_from(*old(self), source_size, target_size),
        decreases *old(self),
    {
        match self {
            Pattern::Uniform(p) => p.initialize(source_size, target_size),
            Pattern::RandomPermutation(p) => p.initialize(source_size, target_size, rng),
            Pattern::RandomInvolution(p) => p.initialize(source_size, target_size, rng),
            Pattern::FileMap(_) => {},
            Pattern::Product(p) => {
                let bs = p.block_size;
                p.block_pattern.initialize(bs, bs, rng);
                let global_size = source_size / bs;
                p.global_pattern.initialize(global_size, global_size, rng);
            },
            Pattern::Composition(c) => {
                let ghost before = c.patterns@;
                proof {
                    assert forall|k: int| 0 <= k < before.len() implies decreases_to!(*old(self) => #[trigger] before[k]) by {
                        assert(decreases_to!(*old(self) => c.patterns));
                        assert(decreases_to!(c.patterns => c.patterns@));
                        assert(decreases_to!(c.patterns@ => c.patterns@[k]));
                    }
                }
                let mut i: usize = 0;
                while i < c.patterns.len()
                    invariant
                        i <= c.patterns@.len(),
                        forall|k: int| 0 <= k < before.len() ==> decreases_to!(*old(self) => #[trigger] before[k]),
                        c.patterns@.len() == before.len(),
                        forall|k: int| 0 <= k < before.len() ==> (#[trigger] before[k]).can_initialize(source_size, target_size),
                        forall|k: int| 0 <= k < i ==> (#[trigger] c.patterns@[k]).initialized_from(before[k], source_size, target_size),
                        forall|k: int| i <= k < before.len() ==> #[trigger] c.patterns@[k] == before[k],
                    decreases before.len() - i,
                {
                    c.patterns[i].initialize(source_size, target_size, rng);
                    i = i + 1;
                }
            },
            Pattern::Pow(p) => p.pattern.initialize(source_size, target_size, rng),
        }
    }
}

///The destination that a draw gives an origin: the draw below the origin, the draw plus one from it on.
pub open spec fn uniform_destination(origin: int, draw: int) -> int {
    if draw >= origin { draw + 1 } else { draw }
}

///The draws among `0..size-1` and the destinations other than the origin correspond one to one: every destination other
///than the origin comes from exactly one draw, and no two draws give the same destination, so a uniform draw gives a
///uniform destination among the others.
pub proof fn lemma_draws_cover_other_destinations(size: int, origin: int)
    requires
        0 <= origin < size,
    ensures
        forall|draw: int| 0 <= draw < size - 1 ==> {
            let d = #[trigger] uniform_destination(origin, draw);
            0 <= d < size && d != origin
        },
        forall|d: int| 0 <= d < size && d != origin ==> {
            let draw = #[trigger] draw_for(origin, d);
            0 <= draw < size - 1 && uniform_destination(origin, draw) == d
        },
        forall|a: int, b: int| 0 <= a < size - 1 && 0 <= b < size - 1 && a != b ==>
            #[trigger] uniform_destination(origin, a) != #[trigger] uniform_destination(origin, b),
{
}

///The draw that gives a destination other than the origin.
pub open spec fn draw_for(origin: int, d: int) -> int {
    if d > origin { d - 1 } else { d }
}

impl UniformPattern {
    pub fn new() -> (p: UniformPattern)
        ensures
            p.size == 0,
    {
        UniformPattern { size: 0 }
    }

    ///Fix the input and output size.
    pub fn initialize(&mut self, source_size: usize, target_size: usize)
        requires
            source_size == target_size,
        ensures
            final(self).size == target_size,
    {
        self.size = target_size;
    }

    ///The destination of an origin in range for a draw among `0..size-1`: the draw itself below the origin, the next
    ///one from the origin on, so that the draws and the other destinations correspond one to one.
    pub fn destination_from_draw(&self, origin: usize, draw: usize) -> (dest: usize)
        requires
            origin < self.size,
            draw < self.size - 1,
        ensures
            dest < self.size,
            dest != origin,
            dest == uniform_destination(origin as int, draw as int),
    {
        if draw >= origin { draw + 1 } else { draw }
    }

    ///A destination other than the origin, uniformly drawn: one of the `size-1` others when the origin is in range, else any.
    pub fn get_destination(&self, origin: usize, rng: &mut StdRng) -> (dest: usize)
        requires
            if origin < self.size { self.size >= 2 } else { self.size >= 1 },
        ensures
            dest < self.size,
            dest != origin,
    {
        if origin < self.size {
            let r = gen_range(rng, 0, self.size - 1);
            self.destination_from_draw(origin, r)
        } else {
            gen_range(rng, 0, self.size)
        }
    }
}

///The numbers `0..n` in order.
pub open spec fn identity(n: nat) -> Seq<usize> {
    Seq::new(n, |i: int| i as usize)
}

///The table holds each of `0..n` exactly once.
pub open spec fn is_permutation(table: Seq<usize>, n: nat) -> bool {
    &&& table.len() == n
    &&& table.to_multiset() == identity(n).to_multiset()
}

///The numbers `0..n` in a vector.
fn identity_vec(n: usize) -> (v: Vec<usize>)
    ensures
        v@ == identity(n as nat),
{
    let mut v: Vec<usize> = Vec::new();
    let mut i: usize = 0;
    while i < n
        invariant
            i <= n,
            v@ == identity(i as nat),
        decreases n - i,
    {
        v.push(i);
        proof {
            assert(v@ =~= identity((i + 1) as nat));
        }
        i = i + 1;
    }
    v
}

impl RandomPermutation {
    pub fn new() -> (p: RandomPermutation)
        ensures
            p.permutation@.len() == 0,
    {
        RandomPermutation { permutation: Vec::new() }
    }

    ///Draws a random permutation of `0..size`.
    pub fn initialize(&mut self, source_size: usize, target_size: usize, rng: &mut StdRng)
        requires
            source_size == target_size,
        ensures
            is_permutation(final(self).permutation@, source_size as nat),
    {
        let mut permutation = identity_vec(source_size);
        shuffle(&mut permutation, rng);
        self.permutation = permutation;
    }
}

///The table matches each of `0..n` with another, both ways: an involution without fixed points.
pub open spec fn is_perfect_matching(table: Seq<usize>, n: nat) -> bool {
    &&& table.len() == n
    &&& forall|i: int| 0 <= i < n ==> {
        &&& (#[trigger] table[i]) < n
        &&& table[i] != i
        &&& table[table[i] as int] == i
    }
}

///The first `m` entries match among themselves and the rest hold the filler `n`.
spec fn partial_matching(table: Seq<usize>, m: int, n: int) -> bool {
    &&& table.len() == n
    &&& 0 <= m <= n
    &&& forall|i: int| 0 <= i < m ==> {
        &&& (#[trigger] table[i]) < m
        &&& table[i] != i
        &&& table[table[i] as int] == i
    }
    &&& forall|i: int| m <= i < n ==> #[trigger] table[i] == n
}

impl RandomInvolution {
    pub fn new() -> (p: RandomInvolution)
        ensures
            p.permutation@.len() == 0,
    {
        RandomInvolution { permutation: Vec::new() }
    }

    ///Draws a random pairing of `0..size`: each step pairs two of the first elements and moves their former mates to the two entering ones.
    pub fn initialize(&mut self, source_size: usize, target_size: usize, rng: &mut StdRng)
        requires
            source_size == target_size,
            source_size % 2 == 0,
        ensures
            is_perfect_matching(final(self).permutation@, source_size as nat),
    {
        let n = source_size;
        let mut perm: Vec<usize> = Vec::new();
        let mut k: usize = 0;
        while k < n
            invariant
                k <= n,
                perm@.len() == k,
                forall|i: int| 0 <= i < k ==> #[trigger] perm@[i] == n,
            decreases n - k,
        {
            perm.push(n);
            k = k + 1;
        }
        let iterations = n / 2;
        let mut it: usize = 0;
        while it < iterations
            invariant
                n % 2 == 0,
                iterations == n / 2,
                it <= iterations,
                partial_matching(perm@, 2 * it, n as int),
            decreases iterations - it,
        {
            let max = 2 * it + 2;
            let first = gen_range(rng, 0, max);
            let second = gen_range(rng, 0, max - 1);
            let (low, high) = if second >= first { (first, second + 1) } else { (second, first) };
            let mut rep_low = max - 2;
            let mut rep_high = max - 1;
            if high == rep_low {
                rep_high = high;
                rep_low = max - 1;
            }
            let ghost old_perm = perm@;
            let ghost m = max - 2;
            let mut mate_low = perm[low];
            let mut mate_high = perm[high];
            if mate_low != n {
                if mate_low == high {
                    mate_low = rep_high;
                }
                perm.set(rep_low, mate_low);
                perm.set(mate_low, rep_low);
            }
            if mate_high != n {
                if mate_high == low {
                    mate_high = rep_low;
                }
                perm.set(rep_high, mate_high);
                perm.set(mate_high, rep_high);
            }
            perm.set(low, high);
            perm.set(high, low);
            proof {
                lemma_involution_step(old_perm, perm@, m as int, n as int, low as int, high as int);
            }
            it = it + 1;
        }
        self.permutation = perm;
    }
}

///One step of the pairing keeps a matching: the pairs of the first `m` elements plus the two entering ones form a matching of the first `m+2`.
proof fn lemma_involution_step(old_perm: Seq<usize>, new_perm: Seq<usize>, m: int, n: int, low: int, high: int)
    requires
        partial_matching(old_perm, m, n),
        m + 2 <= n <= usize::MAX,
        0 <= low < high < m + 2,
        new_perm == {
            let rep_low0 = m;
            let rep_high0 = m + 1;
            let (rep_low, rep_high) = if high == rep_low0 { (m + 1, high) } else { (rep_low0, rep_high0) };
            let mate_low0 = old_perm[low] as int;
            let mate_high0 = old_perm[high] as int;
            let p1 = if mate_low0 != n {
                let mate_low = if mate_low0 == high { rep_high } else { mate_low0 };
                old_perm.update(rep_low, mate_low as usize).update(mate_low, rep_low as usize)
            } else {
                old_perm
            };
            let p2 = if mate_high0 != n {
                let mate_high = if mate_high0 == low { rep_low } else { mate_high0 };
                p1.update(rep_high, mate_high as usize).update(mate_high, rep_high as usize)
            } else {
                p1
            };
            p2.update(low, high as usize).update(high, low as usize)
        },
    ensures
        partial_matching(new_perm, m + 2, n),
{
    let ml0 = old_perm[low] as int;
    let mh0 = old_perm[high] as int;
    assert forall|i: int| 0 <= i < m && old_perm[i] == low implies i == ml0 by {
        assert(old_perm[old_perm[i] as int] == i);
    }
    assert forall|i: int| 0 <= i < m && old_perm[i] == high implies i == mh0 by {
        assert(old_perm[old_perm[i] as int] == i);
    }
    if high < m {
        assert(old_perm[ml0] == low);
        assert(old_perm[mh0] == high);
        if ml0 == high {
            assert(mh0 == low);
            assert forall|i: int| 0 <= i < m + 2 implies {
                &&& (#[trigger] new_perm[i]) < m + 2
                &&& new_perm[i] != i
                &&& new_perm[new_perm[i] as int] == i
            } by {
                if i != low && i != high && i < m {
                    assert(old_perm[old_perm[i] as int] == i);
                }
            }
        } else {
            assert(mh0 != low);
            assert(ml0 != mh0);
            assert(new_perm[low] == high);
            assert(new_perm[high] == low);
            assert(new_perm[m] == ml0);
            assert(new_perm[ml0] == m);
            assert(new_perm[m + 1] == mh0);
            assert(new_perm[mh0] == m + 1);
            assert forall|i: int| 0 <= i < m + 2 implies {
                &&& (#[trigger] new_perm[i]) < m + 2
                &&& new_perm[i] != i
                &&& new_perm[new_perm[i] as int] == i
            } by {
                if i != low && i != high && i != ml0 && i != mh0 && i < m {
                    let j = old_perm[i] as int;
                    assert(old_perm[j] == i);
                    assert(j != low && j != high && j != ml0 && j != mh0 && j < m);
                    assert(new_perm[i] == old_perm[i]);
                    assert(new_perm[j] == old_perm[j]);
                }
            }
        }
    } else if high == m {
        assert(old_perm[ml0] == low);
        assert(mh0 == n);
        assert forall|i: int| 0 <= i < m + 2 implies {
            &&& (#[trigger] new_perm[i]) < m + 2
            &&& new_perm[i] != i
            &&& new_perm[new_perm[i] as int] == i
        } by {
            if i != low && i != ml0 && i < m {
                assert(old_perm[old_perm[i] as int] == i);
            }
        }
    } else if low < m {
        assert(old_perm[ml0] == low);
        assert(mh0 == n);
        assert forall|i: int| 0 <= i < m + 2 implies {
            &&& (#[trigger] new_perm[i]) < m + 2
            &&& new_perm[i] != i
            &&& new_perm[new_perm[i] as int] == i
        } by {
            if i != low && i != ml0 && i < m {
                assert(old_perm[old_perm[i] as int] == i);
            }
        }
    } else {
        assert(ml0 == n);
        assert(mh0 == n);
        assert forall|i: int| 0 <= i < m + 2 implies {
            &&& (#[trigger] new_perm[i]) < m + 2
            &&& new_perm[i] != i
            &&& new_perm[new_perm[i] as int] == i
        } by {
            if i < m {
                assert(old_perm[old_perm[i] as int] == i);
            }
        }
    }
    assert forall|i: int| m + 2 <= i < n implies #[trigger] new_perm[i] == n by {
        assert(old_perm[i] == n);
    }
}

impl FileMap {
    ///A map from `(origin, destination)` pairs: each origin gets its destination; the entries up to the largest index mentioned that no pair sets hold `usize::MAX`.
    pub fn new(pairs: Vec<(usize, usize)>) -> (p: FileMap)
        ensures
            p.permutation@.len() == map_length(pairs@),
            forall|i: int| 0 <= i < p.permutation@.len() ==>
                #[trigger] p.permutation@[i] == map_entry(pairs@, i),
    {
        let mut permutation: Vec<usize> = Vec::new();
        let mut k: usize = 0;
        while k < pairs.len()
            invariant
                k <= pairs@.len(),
                permutation@.len() == map_length(pairs@.take(k as int)),
                forall|i: int| 0 <= i < permutation@.len() ==>
                    #[trigger] permutation@[i] == map_entry(pairs@.take(k as int), i),
            decreases pairs@.len() - k,
        {
            let (origin, destination) = pairs[k];
            let ghost before = permutation@;
            proof {
                assert(pairs@.take(k + 1).drop_last() == pairs@.take(k as int));
                assert(pairs@.take(k + 1).last() == pairs@[k as int]);
            }
            while permutation.len() <= origin || permutation.len() <= destination
                invariant
                    before.len() <= permutation@.len(),
                    permutation@.len() == before.len() || permutation@.len() <= (if origin > destination { origin } else { destination }) + 1,
                    forall|i: int| 0 <= i < before.len() ==> #[trigger] permutation@[i] == before[i],
                    forall|i: int| before.len() <= i < permutation@.len() ==> #[trigger] permutation@[i] == usize::MAX,
                decreases (if origin > destination { origin } else { destination }) + 1 - permutation@.len(),
            {
                permutation.push(usize::MAX);
            }
            permutation.set(origin, destination);
            proof {
                let ghost prev = pairs@.take(k as int);
                let ghost next = pairs@.take(k + 1);
                lemma_map_entry_beyond(prev);
                assert(next.drop_last() == prev);
                assert(next.last() == (origin, destination));
                assert(permutation@.len() == map_length(next));
                assert forall|i: int| 0 <= i < permutation@.len() implies #[trigger] permutation@[i] == map_entry(next, i) by {
                    if i == origin {
                        assert(map_entry(next, i) == destination);
                    } else if i < before.len() {
                        assert(permutation@[i] == before[i]);
                        assert(map_entry(next, i) == map_entry(prev, i));
                    } else {
                        assert(permutation@[i] == usize::MAX);
                        assert(i >= map_length(prev));
                        assert(map_entry(prev, i) == usize::MAX);
                        assert(map_entry(next, i) == map_entry(prev, i));
                    }
                }
            }
            k = k + 1;
        }
        proof {
            assert(pairs@.take(pairs@.len() as int) == pairs@);
        }
        FileMap { permutation }
    }
}

///The length of the table built from some pairs: one past the largest index they mention.
pub open spec fn map_length(pairs: Seq<(usize, usize)>) -> nat
    decreases pairs.len(),
{
    if pairs.len() == 0 {
        0
    } else {
        let l = map_length(pairs.drop_last());
        let (o, d) = pairs.last();
        let needed = if o > d { o + 1 } else { d + 1 };
        if needed > l { needed as nat } else { l }
    }
}

proof fn lemma_map_entry_beyond(pairs: Seq<(usize, usize)>)
    ensures
        forall|i: int| i >= map_length(pairs) ==> #[trigger] map_entry(pairs, i) == usize::MAX,
    decreases pairs.len(),
{
    if pairs.len() > 0 {
        lemma_map_entry_beyond(pairs.drop_last());
        assert forall|i: int| i >= map_length(pairs) implies #[trigger] map_entry(pairs, i) == usize::MAX by {
            assert(map_length(pairs) >= map_length(pairs.drop_last()));
            assert(pairs.last().0 < map_length(pairs));
            assert(pairs.last().0 != i);
            assert(map_entry(pairs, i) == map_entry(pairs.drop_last(), i));
            assert(map_entry(pairs.drop_last(), i) == usize::MAX);
        }
    }
}

///The entry of the table built from some pairs: the destination of the last pair with that origin, or `usize::MAX`.
pub open spec fn map_entry(pairs: Seq<(usize, usize)>, i: int) -> usize
    decreases pairs.len(),
{
    if pairs.len() == 0 {
        usize::MAX
    } else if pairs.last().0 == i {
        pairs.last().1
    } else {
        map_entry(pairs.drop_last(), i)
    }
}

impl ProductPattern {
    pub fn new(block_size: usize, block_pattern: Pattern, global_pattern: Pattern) -> (p: ProductPattern)
        ensures
            p.block_size == block_size,
            *p.block_pattern == block_pattern,
            *p.global_pattern == global_pattern,
    {
        ProductPattern { block_size, block_pattern: Box::new(block_pattern), global_pattern: Box::new(global_pattern) }
    }
}

impl Composition {
    pub fn new(patterns: Vec<Pattern>) -> (p: Composition)
        ensures
            p.patterns@ == patterns@,
    {
        Composition { patterns }
    }
}

impl Pow {
    pub fn new(pattern: Pattern, exponent: usize) -> (p: Pow)
        ensures
            *p.pattern == pattern,
            p.exponent == exponent,
    {
        Pow { pattern: Box::new(pattern), exponent }
    }
}

} // verus!

verus! {

///An initialized involution pairs the elements: each origin has one destination, not itself, whose destination is the origin.
pub proof fn lemma_involution_pairs(p: RandomInvolution, n: nat, origin: int)
    requires
        is_perfect_matching(p.permutation@, n),
        0 <= origin < n,
    ensures
        Pattern::RandomInvolution(p).destinations(origin).len() == 1,
        forall|d: int| #[trigger] Pattern::RandomInvolution(p).destinations(origin).contains(d) ==> {
            &&& d != origin
            &&& Pattern::RandomInvolution(p).destinations(d) == set![origin]
        },
{
    let table = p.permutation@;
    let d = table[origin] as int;
    assert(Pattern::RandomInvolution(p).destinations(origin) == set![d]);
    assert(table[d] == origin);
    assert(set![d].len() == 1) by {
        assert(set![d] == Set::<int>::empty().insert(d));
    }
}

///An initialized random permutation is a bijection of `0..n`: distinct origins get distinct destinations, all within `0..n`.
pub proof fn lemma_permutation_is_bijection(p: RandomPermutation, n: nat)
    requires
        is_permutation(p.permutation@, n),
        n <= usize::MAX,
    ensures
        forall|i: int| 0 <= i < n ==> #[trigger] p.permutation@[i] < n,
        forall|i: int, j: int| 0 <= i < n && 0 <= j < n && i != j ==> p.permutation@[i] != p.permutation@[j],
{
    let t = p.permutation@;
    let id = identity(n);
    t.to_multiset_ensures();
    id.to_multiset_ensures();
    assert forall|i: int| 0 <= i < n implies #[trigger] t[i] < n by {
        assert(t.contains(t[i]));
        assert(t.to_multiset().count(t[i]) > 0);
        assert(id.to_multiset().count(t[i]) > 0);
        assert(id.contains(t[i]));
        let k = choose|k: int| 0 <= k < id.len() && id[k] == t[i];
        assert(id[k] == k as usize);
    }
    assert forall|i: int, j: int| 0 <= i < id.len() && 0 <= j < id.len() && i != j implies id[i] != id[j] by {
        assert(id[i] == i as usize);
        assert(id[j] == j as usize);
    }
    assert(id.no_duplicates());
    id.lemma_multiset_has_no_duplicates();
    t.lemma_multiset_has_no_duplicates_conv();
}

} // verus!
