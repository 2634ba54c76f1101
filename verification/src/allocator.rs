//! First-fit free-list heap allocator.
//!
//! The allocator owns a contiguous address range `[heap_start, heap_start +
//! heap_size)` and keeps an unordered list of free regions; a free region is
//! described by an in-place node written at its start, so every region the
//! allocator ever hands out or takes back must be large enough and aligned
//! enough to host such a node. Addresses and sizes are modeled as plain
//! `usize` values; the set of live (handed-out, not yet freed) blocks is
//! tracked in ghost state so that the central safety property — no two live
//! blocks overlap — is part of the allocator's invariant.

use vstd::prelude::*;

verus! {

/// In-memory footprint of a free-list node: a size word and a link word.
pub const NODE_SIZE: usize = 16;

/// Alignment of a free-list node.
pub const NODE_ALIGN: usize = 8;

/// `a` is a power of two.
pub open spec fn is_power_of_two(a: int) -> bool
    decreases a,
{
    if a <= 0 {
        false
    } else if a == 1 {
        true
    } else {
        a % 2 == 0 && is_power_of_two(a / 2)
    }
}

/// Runtime check for `is_power_of_two`, for callers that must validate an
/// alignment before requesting an allocation.
pub fn check_power_of_two(a: usize) -> (r: bool)
    ensures
        r == is_power_of_two(a as int),
{
    if a == 0 {
        return false;
    }
    let mut v: usize = a;
    while v > 1
        invariant
            v >= 1,
            is_power_of_two(a as int) == is_power_of_two(v as int),
        decreases v,
    {
        if v % 2 != 0 {
            return false;
        }
        v = v / 2;
    }
    true
}

/// The least multiple of `align` that is at least `addr`.
pub open spec fn spec_align_up(addr: int, align: int) -> int
    recommends
        addr >= 0,
        align >= 1,
{
    if addr % align == 0 {
        addr
    } else {
        addr + align - addr % align
    }
}

pub proof fn lemma_align_up(addr: int, align: int)
    requires
        addr >= 0,
        align >= 1,
    ensures
        spec_align_up(addr, align) % align == 0,
        addr <= spec_align_up(addr, align) < addr + align,
{
    let r = addr % align;
    vstd::arithmetic::div_mod::lemma_mod_bound(addr, align);
    if r != 0 {
        assert((addr + align - r) % align == 0) by (nonlinear_arith)
            requires
                align >= 1,
                r == addr % align,
                0 < r < align,
        ;
    }
}

/// Smaller powers of two divide larger ones.
pub proof fn lemma_pow2_divides(a: int, b: int)
    requires
        is_power_of_two(a),
        is_power_of_two(b),
        a <= b,
    ensures
        b % a == 0,
    decreases b,
{
    if a == b {
        assert(b % a == 0) by (nonlinear_arith)
            requires
                a == b,
                a >= 1,
        ;
    } else {
        assert(b > 1);
        lemma_pow2_ge_one(a);
        lemma_pow2_ge_one(b);
        assert(b % 2 == 0 && is_power_of_two(b / 2));
        lemma_pow2_le_half(a, b);
        lemma_pow2_divides(a, b / 2);
        let h = b / 2;
        vstd::arithmetic::div_mod::lemma_fundamental_div_mod(h, a);
        vstd::arithmetic::div_mod::lemma_fundamental_div_mod(b, 2);
        let k = h / a;
        assert(b == 2 * (a * k));
        assert(2 * (a * k) == (2 * k) * a) by (nonlinear_arith);
        vstd::arithmetic::div_mod::lemma_mod_multiples_basic(2 * k, a);
    }
}

pub proof fn lemma_pow2_ge_one(a: int)
    requires
        is_power_of_two(a),
    ensures
        a >= 1,
{
}

/// Of two distinct powers of two, the smaller is at most half the larger.
proof fn lemma_pow2_le_half(a: int, b: int)
    requires
        is_power_of_two(a),
        is_power_of_two(b),
        a < b,
    ensures
        a <= b / 2,
    decreases a,
{
    if a == 1 {
        assert(b >= 2);
    } else {
        assert(a % 2 == 0 && is_power_of_two(a / 2));
        assert(b > a > 1);
        assert(b % 2 == 0 && is_power_of_two(b / 2));
        assert(a / 2 < b / 2);
        lemma_pow2_le_half(a / 2, b / 2);
        assert(a <= b / 2) by (nonlinear_arith)
            requires
                a % 2 == 0,
                b % 2 == 0,
                a / 2 <= b / 2 / 2,
                a >= 2,
                b >= 2,
        ;
    }
}

/// If `m` divides `b` and `b` divides `x`, then `m` divides `x`.
pub proof fn lemma_mod_divides_trans(x: int, b: int, m: int)
    requires
        b >= 1,
        m >= 1,
        x >= 0,
        x % b == 0,
        b % m == 0,
    ensures
        x % m == 0,
{
    vstd::arithmetic::div_mod::lemma_fundamental_div_mod(x, b);
    vstd::arithmetic::div_mod::lemma_fundamental_div_mod(b, m);
    let k = x / b;
    let j = b / m;
    assert(x == (m * j) * k);
    assert((m * j) * k == (j * k) * m) by (nonlinear_arith);
    vstd::arithmetic::div_mod::lemma_mod_multiples_basic(j * k, m);
}

/// The adjusted size is at least the request and the node footprint and a
/// multiple of the node alignment; the adjusted alignment is a power of two
/// that both the requested and the node alignment divide.
pub proof fn lemma_size_align_props(size: int, align: int)
    requires
        size >= 0,
        is_power_of_two(align),
    ensures
        ({
            let (s2, a2) = spec_size_align(size, align);
            &&& a2 >= NODE_ALIGN
            &&& is_power_of_two(a2)
            &&& a2 % (NODE_ALIGN as int) == 0
            &&& a2 % align == 0
            &&& s2 >= NODE_SIZE
            &&& s2 >= size
            &&& s2 % (NODE_ALIGN as int) == 0
        }),
{
    assert(is_power_of_two(1));
    assert(is_power_of_two(2));
    assert(is_power_of_two(4));
    assert(is_power_of_two(8));
    let (s2, a2) = spec_size_align(size, align);
    lemma_pow2_ge_one(align);
    if align >= NODE_ALIGN as int {
        lemma_pow2_divides(NODE_ALIGN as int, a2);
    }
    lemma_pow2_divides(align, a2);
    lemma_align_up(size, a2);
    let padded = spec_align_up(size, a2);
    if padded >= NODE_SIZE as int {
        lemma_mod_divides_trans(s2, a2, NODE_ALIGN as int);
    }
}

/// The size and alignment actually served for a request, adjusted so that the
/// served block can later host a free-list node in place: the alignment is
/// raised to at least the node's alignment, the size is rounded up to a
/// multiple of that alignment and to at least the node's footprint.
pub open spec fn spec_size_align(size: int, align: int) -> (int, int) {
    let align2 = if align >= NODE_ALIGN as int {
        align
    } else {
        NODE_ALIGN as int
    };
    let padded = spec_align_up(size, align2);
    let size2 = if padded >= NODE_SIZE as int {
        padded
    } else {
        NODE_SIZE as int
    };
    (size2, align2)
}

/// Where an allocation of `size` bytes aligned to `align` would start inside
/// the free region `[raddr, raddr + rsize)`: the aligned start, unless the
/// block would overrun the region or would leave a leftover too small to ever
/// host a free-list node again.
pub open spec fn region_fit(raddr: int, rsize: int, size: int, align: int) -> Option<int> {
    let start = spec_align_up(raddr, align);
    let end = start + size;
    if end > raddr + rsize {
        None
    } else {
        let excess = raddr + rsize - end;
        if excess > 0 && excess < NODE_SIZE as int {
            None
        } else {
            Some(start)
        }
    }
}

/// First-fit search: the index of the first region of the list that can serve
/// the request, together with the start address of the served block.
pub open spec fn find_fit(regions: Seq<(nat, nat)>, size: int, align: int) -> Option<(int, int)>
    decreases regions.len(),
{
    if regions.len() == 0 {
        None
    } else {
        match region_fit(regions[0].0 as int, regions[0].1 as int, size, align) {
            Some(start) => Some((0, start)),
            None => match find_fit(regions.drop_first(), size, align) {
                Some((i, start)) => Some((i + 1, start)),
                None => None,
            },
        }
    }
}

/// The byte ranges `[a.0, a.0 + a.1)` and `[b.0, b.0 + b.1)` do not overlap.
pub open spec fn range_disjoint(a: (nat, nat), b: (nat, nat)) -> bool {
    a.0 + a.1 <= b.0 || b.0 + b.1 <= a.0
}

/// The range `x` lies entirely inside the range `r`.
pub open spec fn range_within(x: (nat, nat), r: (nat, nat)) -> bool {
    r.0 <= x.0 && x.0 + x.1 <= r.0 + r.1
}

/// A single range is inside the heap, big and aligned enough to host a
/// free-list node.
pub open spec fn range_ok(r: (nat, nat), lo: nat, hi: nat) -> bool {
    &&& lo <= r.0
    &&& r.0 + r.1 <= hi
    &&& r.1 >= NODE_SIZE
    &&& r.0 % NODE_ALIGN as nat == 0
}

/// Every range is well-placed and the ranges are pairwise disjoint.
pub open spec fn ranges_wf(rs: Seq<(nat, nat)>, lo: nat, hi: nat) -> bool {
    &&& forall|i: int| 0 <= i < rs.len() ==> range_ok(#[trigger] rs[i], lo, hi)
    &&& forall|i: int, j: int|
        0 <= i < j < rs.len() ==> range_disjoint(#[trigger] rs[i], #[trigger] rs[j])
}

/// Total number of bytes covered by a list of ranges.
pub open spec fn sum_sizes(rs: Seq<(nat, nat)>) -> nat
    decreases rs.len(),
{
    if rs.len() == 0 {
        0
    } else {
        rs[0].1 + sum_sizes(rs.drop_first())
    }
}

pub proof fn lemma_sum_concat(a: Seq<(nat, nat)>, b: Seq<(nat, nat)>)
    ensures
        sum_sizes(a + b) == sum_sizes(a) + sum_sizes(b),
    decreases a.len(),
{
    if a.len() == 0 {
        assert(a + b =~= b);
    } else {
        assert((a + b).drop_first() =~= a.drop_first() + b);
        lemma_sum_concat(a.drop_first(), b);
    }
}

pub proof fn lemma_sum_remove(rs: Seq<(nat, nat)>, i: int)
    requires
        0 <= i < rs.len(),
    ensures
        sum_sizes(rs) == sum_sizes(rs.remove(i)) + rs[i].1,
    decreases rs.len(),
{
    if i == 0 {
        assert(rs.remove(0) =~= rs.drop_first());
    } else {
        assert(rs.remove(i).drop_first() =~= rs.drop_first().remove(i - 1));
        lemma_sum_remove(rs.drop_first(), i - 1);
    }
}

pub proof fn lemma_sum_singleton(r: (nat, nat))
    ensures
        sum_sizes(seq![r]) == r.1,
{
    let s = seq![r];
    assert(s.len() == 1);
    assert(s[0] == r);
    assert(s.drop_first() =~= Seq::<(nat, nat)>::empty());
    assert(sum_sizes(s.drop_first()) == 0);
    assert(sum_sizes(s) == s[0].1 + sum_sizes(s.drop_first()));
}

pub proof fn lemma_sum_push(rs: Seq<(nat, nat)>, r: (nat, nat))
    ensures
        sum_sizes(rs.push(r)) == sum_sizes(rs) + r.1,
{
    assert(rs.push(r) =~= rs + seq![r]);
    lemma_sum_concat(rs, seq![r]);
    lemma_sum_singleton(r);
}

pub proof fn lemma_sum_element_le(rs: Seq<(nat, nat)>, i: int)
    requires
        0 <= i < rs.len(),
    ensures
        rs[i].1 <= sum_sizes(rs),
    decreases rs.len(),
{
    if i > 0 {
        lemma_sum_element_le(rs.drop_first(), i - 1);
    }
}

/// The views of a list of free-list nodes, as (address, size) pairs.
pub open spec fn nodes_view(s: Seq<ListNode>) -> Seq<(nat, nat)> {
    s.map(|k: int, n: ListNode| n@)
}

pub proof fn lemma_nodes_view(s: Seq<ListNode>)
    ensures
        nodes_view(s).len() == s.len(),
        forall|i: int| 0 <= i < s.len() ==> nodes_view(s)[i] == #[trigger] s[i]@,
{
}

/// A range inside `r` is disjoint from anything disjoint from `r`.
proof fn lemma_within_disjoint(x: (nat, nat), r: (nat, nat), o: (nat, nat))
    requires
        range_within(x, r),
        range_disjoint(r, o),
    ensures
        range_disjoint(x, o),
{
}

/// Rebuilding a well-formed list of ranges by removing the entry at `i` and
/// letting every new entry either copy a surviving old entry (each at most
/// once) or carve a well-placed piece out of the removed entry (the pieces
/// pairwise disjoint) keeps the list well-formed.
proof fn lemma_ranges_wf_rebuild(
    old_all: Seq<(nat, nat)>,
    new_all: Seq<(nat, nat)>,
    i: int,
    lo: nat,
    hi: nat,
    f: spec_fn(int) -> int,
)
    requires
        ranges_wf(old_all, lo, hi),
        0 <= i < old_all.len(),
        forall|p: int|
            0 <= p < new_all.len() ==> {
                let src = #[trigger] f(p);
                (0 <= src < old_all.len() && src != i && new_all[p] == old_all[src]) || (src == i
                    && range_ok(new_all[p], lo, hi) && range_within(new_all[p], old_all[i]))
            },
        forall|p: int, q: int|
            0 <= p < q < new_all.len() && #[trigger] f(p) != i ==> f(p) != #[trigger] f(q),
        forall|p: int, q: int|
            0 <= p < q < new_all.len() && #[trigger] f(p) == i && #[trigger] f(q) == i
                ==> range_disjoint(new_all[p], new_all[q]),
    ensures
        ranges_wf(new_all, lo, hi),
{
    assert forall|p: int| 0 <= p < new_all.len() implies range_ok(#[trigger] new_all[p], lo, hi) by {
        let src = f(p);
        if src != i {
            assert(range_ok(old_all[src], lo, hi));
        }
    }
    assert forall|p: int, q: int| 0 <= p < q < new_all.len() implies range_disjoint(
        #[trigger] new_all[p],
        #[trigger] new_all[q],
    ) by {
        let sp = f(p);
        let sq = f(q);
        if sp == i && sq == i {
        } else if sp == i {
            // new_all[p] is a piece of old_all[i]; new_all[q] copies another old entry
            if sq < i {
                assert(range_disjoint(old_all[sq], old_all[i]));
            } else {
                assert(range_disjoint(old_all[i], old_all[sq]));
            }
            lemma_within_disjoint(new_all[p], old_all[i], new_all[q]);
        } else if sq == i {
            if sp < i {
                assert(range_disjoint(old_all[sp], old_all[i]));
            } else {
                assert(range_disjoint(old_all[i], old_all[sp]));
            }
            lemma_within_disjoint(new_all[q], old_all[i], new_all[p]);
            assert(range_disjoint(new_all[p], new_all[q]));
        } else {
            if sp < sq {
                assert(range_disjoint(old_all[sp], old_all[sq]));
            } else {
                assert(range_disjoint(old_all[sq], old_all[sp]));
            }
        }
    }
}

/// First-fit search skips any prefix of regions that cannot serve the request.
proof fn lemma_find_fit_skip(rs: Seq<(nat, nat)>, size: int, align: int, i: int)
    requires
        0 <= i <= rs.len(),
        forall|k: int|
            0 <= k < i ==> region_fit(
                (#[trigger] rs[k]).0 as int,
                rs[k].1 as int,
                size,
                align,
            ) is None,
    ensures
        find_fit(rs, size, align) == match find_fit(rs.skip(i), size, align) {
            Some((j, start)) => Some((i + j, start)),
            None => None::<(int, int)>,
        },
    decreases i,
{
    if i == 0 {
        assert(rs.skip(0) =~= rs);
    } else {
        assert(rs.len() > 0);
        assert(region_fit(rs[0].0 as int, rs[0].1 as int, size, align) is None);
        let rest = rs.drop_first();
        assert(rest =~= rs.skip(1));
        assert forall|k: int| 0 <= k < i - 1 implies region_fit(
            (#[trigger] rest[k]).0 as int,
            rest[k].1 as int,
            size,
            align,
        ) is None by {
            assert(rest[k] == rs[k + 1]);
        }
        lemma_find_fit_skip(rest, size, align, i - 1);
        assert(rest.skip(i - 1) =~= rs.skip(i));
    }
}

/// What a first-fit allocation does to the free list: nothing on exhaustion;
/// otherwise the serving region is unlinked and, when the carve leaves a
/// usable leftover, the leftover is pushed onto the front of the list.
pub open spec fn spec_allocate(regions: Seq<(nat, nat)>, size: int, align: int) -> (
    Seq<(nat, nat)>,
    Option<int>,
) {
    let s2 = spec_size_align(size, align).0;
    let a2 = spec_size_align(size, align).1;
    match find_fit(regions, s2, a2) {
        None => (regions, None),
        Some((i, start)) => {
            let raddr = regions[i].0 as int;
            let rsize = regions[i].1 as int;
            let end = start + s2;
            let excess = raddr + rsize - end;
            let removed = regions.remove(i);
            if excess > 0 {
                (seq![(end as nat, excess as nat)] + removed, Some(start))
            } else {
                (removed, Some(start))
            }
        },
    }
}

/// A successful first-fit search points at a region that serves the request.
proof fn lemma_find_fit_props(rs: Seq<(nat, nat)>, size: int, align: int, i: int, st: int)
    requires
        find_fit(rs, size, align) == Some((i, st)),
    ensures
        0 <= i < rs.len(),
        region_fit(rs[i].0 as int, rs[i].1 as int, size, align) == Some(st),
    decreases rs.len(),
{
    if rs.len() > 0 {
        match region_fit(rs[0].0 as int, rs[0].1 as int, size, align) {
            Some(_) => {},
            None => {
                lemma_find_fit_props(rs.drop_first(), size, align, i - 1, st);
                assert(rs.drop_first()[i - 1] == rs[i]);
            },
        }
    }
}

/// A block can only be served from a region at least as large as it.
proof fn lemma_fit_le_sum(rs: Seq<(nat, nat)>, size: int, align: int)
    requires
        align >= 1,
        find_fit(rs, size, align) is Some,
        size >= 0,
    ensures
        size <= sum_sizes(rs),
    decreases rs.len(),
{
    if rs.len() > 0 {
        match region_fit(rs[0].0 as int, rs[0].1 as int, size, align) {
            Some(st) => {
                lemma_align_up(rs[0].0 as int, align);
                assert(st >= rs[0].0 as int);
                assert(size <= rs[0].1 as int);
            },
            None => {
                lemma_fit_le_sum(rs.drop_first(), size, align);
            },
        }
    }
}

/// A free region of the heap, described by the in-place node at its start:
/// the node records the region's size, and its own address is the region's
/// start address.
pub struct ListNode {
    addr: usize,
    size: usize,
}

impl View for ListNode {
    type V = (nat, nat);

    closed spec fn view(&self) -> (nat, nat) {
        (self.addr as nat, self.size as nat)
    }
}

impl ListNode {
    pub fn new(addr: usize, size: usize) -> (n: ListNode)
        ensures
            n@ == (addr as nat, size as nat),
    {
        ListNode { addr, size }
    }

    pub fn start_addr(&self) -> (r: usize)
        ensures
            r as nat == self@.0,
    {
        self.addr
    }

    pub fn end_addr(&self) -> (r: usize)
        requires
            self@.0 + self@.1 <= usize::MAX,
        ensures
            r as nat == self@.0 + self@.1,
    {
        self.addr + self.size
    }
}

/// The free-list heap allocator. `free_list` holds the free regions in list
/// order (most recently inserted first — insertion is always at the front);
/// the ghost `live` sequence records every block currently handed out.
pub struct LinkedListAllocator {
    free_list: Vec<ListNode>,
    heap_start: usize,
    heap_size: usize,
    live: Ghost<Seq<(nat, nat)>>,
}

impl LinkedListAllocator {
    /// The free regions, in first-fit search order.
    pub closed spec fn regions(&self) -> Seq<(nat, nat)> {
        nodes_view(self.free_list@)
    }

    /// The live allocations: blocks handed out and not yet freed, with the
    /// adjusted size they were served with.
    pub closed spec fn allocations(&self) -> Seq<(nat, nat)> {
        self.live@
    }

    pub closed spec fn heap_lo(&self) -> nat {
        self.heap_start as nat
    }

    pub closed spec fn heap_len(&self) -> nat {
        self.heap_size as nat
    }

    pub open spec fn heap_hi(&self) -> nat {
        (self.heap_lo() + self.heap_len()) as nat
    }

    /// Every byte range the allocator accounts for: free regions and live
    /// allocations.
    pub open spec fn all_ranges(&self) -> Seq<(nat, nat)> {
        self.regions() + self.allocations()
    }

    /// The allocator's invariant: all tracked ranges lie inside the heap, can
    /// host a free-list node, are pairwise disjoint — in particular no two
    /// live allocations overlap — and together never exceed the heap's size.
    pub open spec fn wf(&self) -> bool {
        &&& self.heap_hi() <= usize::MAX
        &&& ranges_wf(self.all_ranges(), self.heap_lo(), self.heap_hi())
        &&& sum_sizes(self.all_ranges()) <= self.heap_len()
    }

    /// An empty allocator; it serves nothing until `init` donates a heap.
    pub fn new() -> (a: LinkedListAllocator)
        ensures
            a.wf(),
            a.regions() == Seq::<(nat, nat)>::empty(),
            a.allocations() == Seq::<(nat, nat)>::empty(),
            a.heap_len() == 0,
    {
        let a = LinkedListAllocator {
            free_list: Vec::new(),
            heap_start: 0,
            heap_size: 0,
            live: Ghost(Seq::empty()),
        };
        proof {
            assert(a.regions() =~= Seq::<(nat, nat)>::empty());
            assert(a.all_ranges() =~= Seq::<(nat, nat)>::empty());
        }
        a
    }

    /// Donate the heap `[heap_start, heap_start + heap_size)` to the
    /// allocator: called exactly once, before any allocation, with a region
    /// aligned and large enough to host a free-list node.
    pub fn init(&mut self, heap_start: usize, heap_size: usize)
        requires
            old(self).regions().len() == 0,
            old(self).allocations().len() == 0,
            heap_start as int % (NODE_ALIGN as int) == 0,
            heap_size >= NODE_SIZE,
            heap_start + heap_size <= usize::MAX,
        ensures
            final(self).wf(),
            final(self).heap_lo() == heap_start as nat,
            final(self).heap_len() == heap_size as nat,
            final(self).regions() == seq![(heap_start as nat, heap_size as nat)],
            final(self).allocations() == old(self).allocations(),
    {
        self.heap_start = heap_start;
        self.heap_size = heap_size;
        self.add_free_region(heap_start, heap_size);
        proof {
            lemma_nodes_view(self.free_list@);
            assert(self.regions() =~= seq![(heap_start as nat, heap_size as nat)]);
            assert(self.all_ranges() =~= seq![(heap_start as nat, heap_size as nat)]);
            assert(sum_sizes(self.all_ranges().drop_first()) == 0);
        }
    }

    /// Push the free region `[addr, addr + size)` onto the front of the free
    /// list by writing a node at its start.
    fn add_free_region(&mut self, addr: usize, size: usize)
        requires
            addr as int % (NODE_ALIGN as int) == 0,
            size >= NODE_SIZE,
            addr + size <= usize::MAX,
        ensures
            final(self).regions() == seq![(addr as nat, size as nat)] + old(self).regions(),
            final(self).allocations() == old(self).allocations(),
            final(self).heap_lo() == old(self).heap_lo(),
            final(self).heap_len() == old(self).heap_len(),
    {
        let node = ListNode::new(addr, size);
        proof {
            self.free_list@.insert_ensures(0, node);
        }
        self.free_list.insert(0, node);
        proof {
            lemma_nodes_view(self.free_list@);
            lemma_nodes_view(old(self).free_list@);
            assert(self.regions() =~= seq![(addr as nat, size as nat)] + old(self).regions());
        }
    }

    /// The adjusted size and alignment served for a request, per
    /// `spec_size_align`. Overflow of the adjustment is a configuration
    /// error, excluded up front.
    pub fn size_align(size: usize, align: usize) -> (r: (usize, usize))
        requires
            is_power_of_two(align as int),
            spec_size_align(size as int, align as int).0 <= usize::MAX,
        ensures
            r.0 as int == spec_size_align(size as int, align as int).0,
            r.1 as int == spec_size_align(size as int, align as int).1,
    {
        let align2: usize = if align < NODE_ALIGN {
            NODE_ALIGN
        } else {
            align
        };
        let rem: usize = size % align2;
        let padded: usize = if rem == 0 {
            size
        } else {
            proof {
                assert(rem <= size) by (nonlinear_arith)
                    requires
                        rem == size as int % (align2 as int),
                        size >= 0,
                        align2 >= 1,
                ;
                let up = spec_align_up(size as int, align2 as int);
                assert(up == size - rem + align2);
                assert(up <= spec_size_align(size as int, align as int).0 || up < NODE_SIZE);
            }
            (size - rem) + align2
        };
        let size2: usize = if padded < NODE_SIZE {
            NODE_SIZE
        } else {
            padded
        };
        (size2, align2)
    }

    /// Try to carve a block of `size` bytes aligned to `align` out of
    /// `region`; per the first-fit policy, the carve is rejected when the
    /// block would overrun the region or leave a nonzero leftover too small
    /// to host a free-list node.
    pub fn alloc_from_region(region: &ListNode, size: usize, align: usize) -> (r: Result<
        usize,
        (),
    >)
        requires
            align >= 1,
            region@.0 + region@.1 <= usize::MAX,
        ensures
            match r {
                Ok(start) => region_fit(
                    region@.0 as int,
                    region@.1 as int,
                    size as int,
                    align as int,
                ) == Some(start as int),
                Err(()) => region_fit(
                    region@.0 as int,
                    region@.1 as int,
                    size as int,
                    align as int,
                ) is None,
            },
    {
        let start_addr: usize = region.start_addr();
        proof {
            lemma_align_up(start_addr as int, align as int);
        }
        let rem: usize = start_addr % align;
        let alloc_start: usize = if rem == 0 {
            start_addr
        } else {
            let bump: usize = align - rem;
            if bump > usize::MAX - start_addr {
                // the aligned start is not representable, so it lies beyond
                // the region's end and the region cannot serve the request
                return Err(());
            }
            start_addr + bump
        };
        if size > usize::MAX - alloc_start {
            // the block's end is not representable, so it overruns the region
            return Err(());
        }
        let alloc_end: usize = alloc_start + size;
        let region_end: usize = region.end_addr();
        if alloc_end > region_end {
            return Err(());
        }
        let excess_size: usize = region_end - alloc_end;
        if excess_size > 0 && excess_size < NODE_SIZE {
            return Err(());
        }
        Ok(alloc_start)
    }

    /// Walk the free list in order and unlink the first region that can
    /// serve the request, returning it with the start address of the block
    /// carved from it.
    pub fn find_region(&mut self, size: usize, align: usize) -> (r: Option<(ListNode, usize)>)
        requires
            old(self).wf(),
            align >= 1,
        ensures
            final(self).wf(),
            final(self).heap_lo() == old(self).heap_lo(),
            final(self).heap_len() == old(self).heap_len(),
            final(self).allocations() == old(self).allocations(),
            match r {
                Some((node, start)) => find_fit(
                    old(self).regions(),
                    size as int,
                    align as int,
                ) matches Some((i, st)) && node@ == old(self).regions()[i] && st == start as int
                    && final(self).regions() == old(self).regions().remove(i),
                None => find_fit(old(self).regions(), size as int, align as int) is None
                    && final(self).regions() == old(self).regions(),
            },
    {
        let mut idx: usize = 0;
        proof {
            lemma_nodes_view(self.free_list@);
        }
        while idx < self.free_list.len()
            invariant
                *self == *old(self),
                old(self).wf(),
                align >= 1,
                0 <= idx <= self.free_list.len(),
                self.regions().len() == self.free_list@.len(),
                forall|k: int|
                    0 <= k < idx ==> region_fit(
                        (#[trigger] self.regions()[k]).0 as int,
                        self.regions()[k].1 as int,
                        size as int,
                        align as int,
                    ) is None,
            decreases self.free_list.len() - idx,
        {
            proof {
                lemma_nodes_view(self.free_list@);
                assert(self.all_ranges()[idx as int] == self.regions()[idx as int]);
                assert(range_ok(self.regions()[idx as int], self.heap_lo(), self.heap_hi()));
            }
            let fit = Self::alloc_from_region(&self.free_list[idx], size, align);
            match fit {
                Ok(alloc_start) => {
                    let ghost old_regions = self.regions();
                    proof {
                        lemma_find_fit_skip(old_regions, size as int, align as int, idx as int);
                        assert(old_regions.skip(idx as int).len() > 0);
                        assert(old_regions.skip(idx as int)[0] == old_regions[idx as int]);
                        assert(find_fit(old_regions, size as int, align as int) == Some(
                            (idx as int, alloc_start as int),
                        ));
                    }
                    let node = self.free_list.remove(idx);
                    proof {
                        lemma_nodes_view(self.free_list@);
                        lemma_nodes_view(old(self).free_list@);
                        assert(self.regions() =~= old_regions.remove(idx as int)) by {
                            old(self).free_list@.remove_ensures(idx as int);
                            old_regions.remove_ensures(idx as int);
                        }
                        self.lemma_wf_after_region_removed(*old(self), idx as int);
                    }
                    return Some((node, alloc_start));
                },
                Err(()) => {
                    idx = idx + 1;
                },
            }
        }
        proof {
            lemma_find_fit_skip(self.regions(), size as int, align as int, idx as int);
            assert(self.regions().skip(idx as int).len() == 0);
        }
        None
    }

    /// Serve an allocation request of `size` bytes aligned to `align`: adjust
    /// the request so the served block can later host a free-list node, walk
    /// the free list first-fit, unlink the serving region and give back any
    /// usable leftover. Returns the block's address, or `None` when no free
    /// region can serve the request (exhaustion); exhaustion changes nothing.
    pub fn allocate(&mut self, size: usize, align: usize) -> (r: Option<usize>)
        requires
            old(self).wf(),
            is_power_of_two(align as int),
            spec_size_align(size as int, align as int).0 <= usize::MAX,
        ensures
            final(self).wf(),
            final(self).heap_lo() == old(self).heap_lo(),
            final(self).heap_len() == old(self).heap_len(),
            (final(self).regions(), match r {
                Some(a) => Some(a as int),
                None => None::<int>,
            }) == spec_allocate(old(self).regions(), size as int, align as int),
            match r {
                Some(a) => {
                    let s2 = spec_size_align(size as int, align as int).0;
                    &&& a as int % (align as int) == 0
                    &&& a as int % spec_size_align(size as int, align as int).1 == 0
                    &&& a as int % (NODE_ALIGN as int) == 0
                    &&& old(self).heap_lo() <= a as nat
                    &&& a + s2 <= old(self).heap_hi()
                    &&& s2 <= sum_sizes(old(self).regions())
                    &&& final(self).allocations() == old(self).allocations().push(
                        (a as nat, s2 as nat),
                    )
                },
                None => final(self).allocations() == old(self).allocations(),
            },
    {
        let (size2, align2) = Self::size_align(size, align);
        proof {
            lemma_size_align_props(size as int, align as int);
        }
        let found = self.find_region(size2, align2);
        match found {
            Some((region, alloc_start)) => {
                let ghost prev = *old(self);
                let ghost i = {
                    let fit = find_fit(prev.regions(), size2 as int, align2 as int);
                    fit->Some_0.0
                };
                proof {
                    lemma_find_fit_props(
                        prev.regions(),
                        size2 as int,
                        align2 as int,
                        i,
                        alloc_start as int,
                    );
                    assert(prev.all_ranges()[i] == prev.regions()[i]);
                    assert(range_ok(prev.regions()[i], prev.heap_lo(), prev.heap_hi()));
                    lemma_align_up(prev.regions()[i].0 as int, align2 as int);
                    lemma_mod_divides_trans(alloc_start as int, align2 as int, NODE_ALIGN as int);
                    lemma_mod_divides_trans(alloc_start as int, align2 as int, align as int);
                    vstd::arithmetic::div_mod::lemma_add_mod_noop(
                        alloc_start as int,
                        size2 as int,
                        NODE_ALIGN as int,
                    );
                }
                let alloc_end: usize = alloc_start + size2;
                let region_end: usize = region.end_addr();
                let excess_size: usize = region_end - alloc_end;
                if excess_size > 0 {
                    self.add_free_region(alloc_end, excess_size);
                }
                self.live = Ghost(self.live@.push((alloc_start as nat, size2 as nat)));
                proof {
                    Self::lemma_wf_after_carve(prev, *self, i, alloc_start as int, size2 as int);
                    lemma_sum_element_le(prev.regions(), i);
                }
                Some(alloc_start)
            },
            None => None,
        }
    }

    /// Take back the block at `addr` that was served for a request of `size`
    /// bytes aligned to `align`: the adjusted size used at allocation time is
    /// reconstructed and a free region of that size is pushed onto the front
    /// of the free list. No coalescing with neighbours takes place.
    pub fn free(&mut self, addr: usize, size: usize, align: usize)
        requires
            old(self).wf(),
            is_power_of_two(align as int),
            spec_size_align(size as int, align as int).0 <= usize::MAX,
            exists|k: int|
                0 <= k < old(self).allocations().len() && old(self).allocations()[k] == (
                    addr as nat,
                    spec_size_align(size as int, align as int).0 as nat,
                ),
        ensures
            final(self).wf(),
            final(self).heap_lo() == old(self).heap_lo(),
            final(self).heap_len() == old(self).heap_len(),
            final(self).regions() == seq![
                (addr as nat, spec_size_align(size as int, align as int).0 as nat),
            ] + old(self).regions(),
            exists|k: int|
                0 <= k < old(self).allocations().len() && old(self).allocations()[k] == (
                    addr as nat,
                    spec_size_align(size as int, align as int).0 as nat,
                ) && final(self).allocations() == old(self).allocations().remove(k),
    {
        let (size2, _align2) = Self::size_align(size, align);
        let ghost prev = *old(self);
        let ghost k = choose|k: int|
            0 <= k < prev.allocations().len() && prev.allocations()[k] == (
                addr as nat,
                size2 as nat,
            );
        proof {
            let m = prev.regions().len() as int;
            assert(prev.all_ranges()[m + k] == prev.allocations()[k]);
            assert(range_ok(prev.allocations()[k], prev.heap_lo(), prev.heap_hi()));
        }
        self.add_free_region(addr, size2);
        self.live = Ghost(self.live@.remove(k));
        proof {
            Self::lemma_wf_after_release(prev, *self, k, addr as nat, size2 as nat);
        }
    }

    /// Carving a served block (and possibly a leftover region) out of the
    /// region at index `i` keeps the allocator well-formed.
    #[verifier::rlimit(60)]
    proof fn lemma_wf_after_carve(prev: Self, next: Self, i: int, start: int, s2: int)
        requires
            prev.wf(),
            0 <= i < prev.regions().len(),
            s2 >= NODE_SIZE,
            start % (NODE_ALIGN as int) == 0,
            (start + s2) % (NODE_ALIGN as int) == 0,
            prev.regions()[i].0 <= start,
            start + s2 <= prev.regions()[i].0 + prev.regions()[i].1,
            ({
                let excess = prev.regions()[i].0 + prev.regions()[i].1 - (start + s2);
                &&& (excess == 0 || excess >= NODE_SIZE)
                &&& next.regions() == (if excess > 0 {
                    seq![(((start + s2) as nat), excess as nat)] + prev.regions().remove(i)
                } else {
                    prev.regions().remove(i)
                })
            }),
            next.allocations() == prev.allocations().push((start as nat, s2 as nat)),
            next.heap_lo() == prev.heap_lo(),
            next.heap_len() == prev.heap_len(),
        ensures
            next.wf(),
    {
        let m = prev.regions().len() as int;
        let l = prev.allocations().len() as int;
        let raddr = prev.regions()[i].0 as int;
        let rsize = prev.regions()[i].1 as int;
        let end = start + s2;
        let excess = raddr + rsize - end;
        let o: int = if excess > 0 {
            1
        } else {
            0
        };
        prev.regions().remove_ensures(i);
        assert(next.regions().len() == o + m - 1);
        assert(next.all_ranges().len() == o + m + l);
        let f = |p: int|
            if p < o {
                i
            } else if p == o + m - 1 + l {
                i
            } else if p - o < i {
                p - o
            } else {
                p - o + 1
            };
        assert(prev.all_ranges()[i] == prev.regions()[i]);
        assert forall|p: int| 0 <= p < next.all_ranges().len() implies {
            let src = f(p);
            (0 <= src < prev.all_ranges().len() && src != i && #[trigger] next.all_ranges()[p]
                == prev.all_ranges()[src]) || (src == i && range_ok(
                next.all_ranges()[p],
                next.heap_lo(),
                next.heap_hi(),
            ) && range_within(next.all_ranges()[p], prev.all_ranges()[i]))
        } by {
            if p < o {
                assert(next.all_ranges()[p] == next.regions()[0]);
                assert(next.regions()[0] == ((end as nat), excess as nat));
            } else if p < o + m - 1 {
                assert(next.all_ranges()[p] == next.regions()[p]);
                if p - o < i {
                    assert(next.regions()[p] == prev.regions()[p - o]);
                    assert(prev.all_ranges()[p - o] == prev.regions()[p - o]);
                } else {
                    assert(next.regions()[p] == prev.regions()[p - o + 1]);
                    assert(prev.all_ranges()[p - o + 1] == prev.regions()[p - o + 1]);
                }
            } else if p < o + m - 1 + l {
                assert(next.all_ranges()[p] == next.allocations()[p - (o + m - 1)]);
                assert(next.allocations()[p - (o + m - 1)] == prev.allocations()[p - (o + m - 1)]);
                assert(prev.all_ranges()[p - o + 1] == prev.allocations()[p - o + 1 - m]);
            } else {
                assert(next.all_ranges()[p] == next.allocations()[l]);
                assert(next.allocations()[l] == (start as nat, s2 as nat));
            }
        }
        lemma_ranges_wf_rebuild(
            prev.all_ranges(),
            next.all_ranges(),
            i,
            next.heap_lo(),
            next.heap_hi(),
            f,
        );
        // byte accounting: the served block plus the leftover never exceed
        // the region they were carved from
        lemma_sum_concat(prev.regions(), prev.allocations());
        lemma_sum_concat(next.regions(), next.allocations());
        lemma_sum_push(prev.allocations(), (start as nat, s2 as nat));
        lemma_sum_remove(prev.regions(), i);
        if excess > 0 {
            assert(next.regions() == seq![((end as nat), excess as nat)] + prev.regions().remove(
                i,
            ));
            lemma_sum_concat(seq![((end as nat), excess as nat)], prev.regions().remove(i));
            lemma_sum_singleton(((end as nat), excess as nat));
        }
    }

    /// Pushing a live block back onto the free list keeps the allocator
    /// well-formed.
    #[verifier::rlimit(60)]
    proof fn lemma_wf_after_release(prev: Self, next: Self, k: int, addr: nat, s2: nat)
        requires
            prev.wf(),
            0 <= k < prev.allocations().len(),
            prev.allocations()[k] == (addr, s2),
            next.regions() == seq![(addr, s2)] + prev.regions(),
            next.allocations() == prev.allocations().remove(k),
            next.heap_lo() == prev.heap_lo(),
            next.heap_len() == prev.heap_len(),
        ensures
            next.wf(),
    {
        let m = prev.regions().len() as int;
        let l = prev.allocations().len() as int;
        let i = m + k;
        prev.allocations().remove_ensures(k);
        assert(next.all_ranges().len() == m + l);
        let f = |p: int|
            if p == 0 {
                i
            } else if p < m + 1 {
                p - 1
            } else if p - (m + 1) < k {
                p - 1
            } else {
                p
            };
        assert(prev.all_ranges()[i] == prev.allocations()[k]);
        assert forall|p: int| 0 <= p < next.all_ranges().len() implies {
            let src = f(p);
            (0 <= src < prev.all_ranges().len() && src != i && #[trigger] next.all_ranges()[p]
                == prev.all_ranges()[src]) || (src == i && range_ok(
                next.all_ranges()[p],
                next.heap_lo(),
                next.heap_hi(),
            ) && range_within(next.all_ranges()[p], prev.all_ranges()[i]))
        } by {
            if p == 0 {
                assert(next.all_ranges()[0] == next.regions()[0]);
                assert(range_ok(prev.all_ranges()[i], prev.heap_lo(), prev.heap_hi()));
            } else if p < m + 1 {
                assert(next.all_ranges()[p] == next.regions()[p]);
                assert(next.regions()[p] == prev.regions()[p - 1]);
                assert(prev.all_ranges()[p - 1] == prev.regions()[p - 1]);
            } else if p - (m + 1) < k {
                assert(next.all_ranges()[p] == next.allocations()[p - (m + 1)]);
                assert(next.allocations()[p - (m + 1)] == prev.allocations()[p - (m + 1)]);
                assert(prev.all_ranges()[p - 1] == prev.allocations()[p - 1 - m]);
            } else {
                assert(next.all_ranges()[p] == next.allocations()[p - (m + 1)]);
                assert(next.allocations()[p - (m + 1)] == prev.allocations()[p - m]);
                assert(prev.all_ranges()[p] == prev.allocations()[p - m]);
            }
        }
        lemma_ranges_wf_rebuild(
            prev.all_ranges(),
            next.all_ranges(),
            i,
            next.heap_lo(),
            next.heap_hi(),
            f,
        );
        // byte accounting: the block moves from the live side to the free side
        lemma_sum_concat(prev.regions(), prev.allocations());
        lemma_sum_concat(next.regions(), next.allocations());
        lemma_sum_remove(prev.allocations(), k);
        lemma_sum_concat(seq![(addr, s2)], prev.regions());
        lemma_sum_singleton((addr, s2));
    }

    /// Unlinking one free region from a well-formed allocator keeps it
    /// well-formed.
    proof fn lemma_wf_after_region_removed(&self, prev: LinkedListAllocator, i: int)
        requires
            prev.wf(),
            0 <= i < prev.regions().len(),
            self.regions() == prev.regions().remove(i),
            self.allocations() == prev.allocations(),
            self.heap_lo() == prev.heap_lo(),
            self.heap_len() == prev.heap_len(),
        ensures
            self.wf(),
    {
        let m = prev.regions().len() as int;
        let l = prev.allocations().len() as int;
        prev.regions().remove_ensures(i);
        assert(self.all_ranges().len() == m - 1 + l);
        let f = |p: int| if p < i {
            p
        } else if p < m - 1 {
            p + 1
        } else {
            p + 1
        };
        assert forall|p: int| 0 <= p < self.all_ranges().len() implies #[trigger] self.all_ranges()[p]
            == prev.all_ranges()[f(p)] && 0 <= f(p) < prev.all_ranges().len() && f(p) != i by {
            if p < m - 1 {
                assert(self.all_ranges()[p] == self.regions()[p]);
                if p < i {
                    assert(prev.all_ranges()[p] == prev.regions()[p]);
                } else {
                    assert(prev.all_ranges()[p + 1] == prev.regions()[p + 1]);
                }
            } else {
                assert(self.all_ranges()[p] == self.allocations()[p - (m - 1)]);
                assert(prev.all_ranges()[p + 1] == prev.allocations()[p + 1 - m]);
            }
        }
        assert forall|p: int| 0 <= p < self.all_ranges().len() implies range_ok(
            #[trigger] self.all_ranges()[p],
            self.heap_lo(),
            self.heap_hi(),
        ) by {
            assert(range_ok(prev.all_ranges()[f(p)], prev.heap_lo(), prev.heap_hi()));
        }
        assert forall|p: int, q: int| 0 <= p < q < self.all_ranges().len() implies range_disjoint(
            #[trigger] self.all_ranges()[p],
            #[trigger] self.all_ranges()[q],
        ) by {
            if f(p) < f(q) {
                assert(range_disjoint(prev.all_ranges()[f(p)], prev.all_ranges()[f(q)]));
            } else {
                assert(range_disjoint(prev.all_ranges()[f(q)], prev.all_ranges()[f(p)]));
            }
        }
        // the total tracked bytes only shrink
        assert(prev.all_ranges() =~= prev.regions() + prev.allocations());
        assert(self.all_ranges() =~= prev.regions().remove(i) + prev.allocations());
        lemma_sum_concat(prev.regions(), prev.allocations());
        lemma_sum_concat(prev.regions().remove(i), prev.allocations());
        lemma_sum_remove(prev.regions(), i);
    }
}

/// Allocator safety: in a well-formed allocator — and `allocate` and `free`
/// keep the allocator well-formed across any finite sequence of calls — no
/// two live allocations' byte ranges overlap.
pub proof fn lemma_live_allocations_disjoint(a: &LinkedListAllocator, i: int, j: int)
    requires
        a.wf(),
        0 <= i < j < a.allocations().len(),
    ensures
        range_disjoint(a.allocations()[i], a.allocations()[j]),
{
    let m = a.regions().len() as int;
    assert(a.all_ranges()[m + i] == a.allocations()[i]);
    assert(a.all_ranges()[m + j] == a.allocations()[j]);
    assert(range_disjoint(a.all_ranges()[m + i], a.all_ranges()[m + j]));
}

/// Every live allocation lies inside the heap, and a well-formed allocator
/// never has more bytes outstanding — free or live — than its heap holds.
pub proof fn lemma_heap_accounting(a: &LinkedListAllocator)
    requires
        a.wf(),
    ensures
        sum_sizes(a.regions()) + sum_sizes(a.allocations()) <= a.heap_len(),
        forall|i: int|
            0 <= i < a.allocations().len() ==> a.heap_lo() <= (#[trigger] a.allocations()[i]).0
                && a.allocations()[i].0 + a.allocations()[i].1 <= a.heap_hi(),
{
    lemma_sum_concat(a.regions(), a.allocations());
    let m = a.regions().len() as int;
    assert forall|i: int| 0 <= i < a.allocations().len() implies a.heap_lo() <= (
    #[trigger] a.allocations()[i]).0 && a.allocations()[i].0 + a.allocations()[i].1
        <= a.heap_hi() by {
        assert(a.all_ranges()[m + i] == a.allocations()[i]);
        assert(range_ok(a.all_ranges()[m + i], a.heap_lo(), a.heap_hi()));
    }
}

/// Exhaustion: a request whose adjusted size exceeds the bytes of the free
/// list — in particular any request for more than the heap still has free —
/// is refused and leaves the allocator unchanged, rather than corrupting it.
pub proof fn lemma_exhaustion(a: &LinkedListAllocator, size: int, align: int)
    requires
        a.wf(),
        is_power_of_two(align),
        size >= 0,
        spec_size_align(size, align).0 > sum_sizes(a.regions()),
    ensures
        spec_allocate(a.regions(), size, align) == (a.regions(), None::<int>),
{
    let (s2, a2) = spec_size_align(size, align);
    lemma_size_align_props(size, align);
    if find_fit(a.regions(), s2, a2) is Some {
        lemma_fit_le_sum(a.regions(), s2, a2);
    }
}

/// Allocator reuse: when the block `[addr, addr + s)` has just been freed —
/// `free` pushes it onto the front of the free list — a request whose
/// adjusted size fits it exactly or leaves a usable leftover, with an
/// alignment the block's address satisfies, is served from that very block:
/// the same address comes back and no fresh heap space is taken.
pub proof fn lemma_allocator_reuse(
    regions: Seq<(nat, nat)>,
    addr: nat,
    s: nat,
    size: int,
    align: int,
)
    requires
        regions.len() > 0,
        regions[0] == (addr, s),
        is_power_of_two(align),
        size >= 0,
        ({
            let (s2, a2) = spec_size_align(size, align);
            &&& s2 <= s
            &&& addr as int % a2 == 0
            &&& (s2 == s || s - s2 >= NODE_SIZE)
        }),
    ensures
        spec_allocate(regions, size, align).1 == Some(addr as int),
{
    let (s2, a2) = spec_size_align(size, align);
    lemma_size_align_props(size, align);
    assert(spec_align_up(addr as int, a2) == addr as int);
    assert(region_fit(addr as int, s as int, s2, a2) == Some(addr as int));
}

} // verus!
