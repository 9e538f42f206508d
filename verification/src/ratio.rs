//! The ratio solver: dividing an integer amount of space among a sequence of
//! layout slots under per-slot fixed-size, ratio-weight and minimum-size
//! constraints, with exact integer arithmetic throughout.

use vstd::arithmetic::div_mod::{
    lemma_div_is_ordered, lemma_div_pos_is_pos, lemma_fundamental_div_mod,
    lemma_fundamental_div_mod_converse, lemma_hoist_over_denominator, lemma_mod_bound,
};
use vstd::arithmetic::mul::lemma_mul_upper_bound;
use vstd::prelude::*;
use vstd::slice::slice_index_get;

verus! {

/// A layout slot: an optional fixed size, a ratio weight for sharing
/// whatever space is flexible, and a minimum size.
#[derive(Clone, Copy, Debug)]
pub struct Edge {
    /// Fixed size, when the slot is not flexible.
    pub size: Option<u32>,
    /// Weight for dividing flexible space.
    pub ratio: u32,
    /// The fewest cells the slot accepts.
    pub minimum_size: u32,
}

impl Default for Edge {
    /// A flexible slot of weight one and minimum size one.
    fn default() -> (e: Self)
        ensures
            e.size is None,
            e.ratio == 1,
            e.minimum_size == 1,
    {
        Self { size: None, ratio: 1, minimum_size: 1 }
    }
}

/// Anything that describes an `Edge`: the solver's callers hand it their own
/// slot types.
pub trait HasEdge {
    /// The edge this value describes.
    spec fn edge_spec(&self) -> Edge;

    /// Produce the edge described.
    fn protocol(&self) -> (e: Edge)
        ensures
            e == self.edge_spec(),
    ;
}

impl HasEdge for Edge {
    open spec fn edge_spec(&self) -> Edge {
        *self
    }

    fn protocol(&self) -> (e: Edge) {
        *self
    }
}

/// The value of an assigned slot, or zero.
pub open spec fn opt_val(s: Option<u32>) -> int {
    match s {
        Some(v) => v as int,
        None => 0,
    }
}

/// The sum of the assigned sizes among the first `i` slots.
pub open spec fn sum_sizes(sizes: Seq<Option<u32>>, i: int) -> int
    decreases i,
{
    if i <= 0 {
        0
    } else {
        sum_sizes(sizes, i - 1) + opt_val(sizes[i - 1])
    }
}

/// How many of the first `i` slots are unassigned.
pub open spec fn none_count(sizes: Seq<Option<u32>>, i: int) -> nat
    decreases i,
{
    if i <= 0 {
        0
    } else {
        none_count(sizes, i - 1) + (if sizes[i - 1] is None {
            1nat
        } else {
            0nat
        })
    }
}

/// A ratio counted as at least one, as the portion denominator counts it.
pub open spec fn nz(r: u32) -> int {
    if r == 0 {
        1
    } else {
        r as int
    }
}

/// The portion denominator: the nonzero-adjusted ratios of the unassigned
/// slots among the first `i`, summed.
pub open spec fn flex_denom(edges: Seq<Edge>, sizes: Seq<Option<u32>>, i: int) -> int
    decreases i,
{
    if i <= 0 {
        0
    } else {
        flex_denom(edges, sizes, i - 1) + (if sizes[i - 1] is None {
            nz(edges[i - 1].ratio)
        } else {
            0
        })
    }
}

/// The first unassigned slot at or after `i` whose proportional share of
/// `rem` would not exceed its minimum size.
pub open spec fn first_violation(
    edges: Seq<Edge>,
    sizes: Seq<Option<u32>>,
    rem: int,
    denom: int,
    i: int,
) -> Option<int>
    decreases edges.len() - i,
{
    if i < 0 || i >= edges.len() {
        None
    } else if sizes[i] is None && rem * edges[i].ratio <= edges[i].minimum_size * denom {
        Some(i)
    } else {
        first_violation(edges, sizes, rem, denom, i + 1)
    }
}

/// Assign every unassigned slot from `i` on its proportional share of `rem`,
/// carrying the fractional remainder (a numerator over `denom`) forward to
/// the next slot.
pub open spec fn distribute(
    edges: Seq<Edge>,
    sizes: Seq<Option<u32>>,
    rem: int,
    denom: int,
    rem_num: int,
    i: int,
) -> Seq<Option<u32>>
    decreases edges.len() - i,
{
    if i < 0 || i >= edges.len() {
        sizes
    } else if sizes[i] is Some {
        distribute(edges, sizes, rem, denom, rem_num, i + 1)
    } else {
        let num = rem * edges[i].ratio + rem_num;
        distribute(edges, sizes.update(i, Some((num / denom) as u32)), rem, denom, num % denom, i
            + 1)
    }
}

/// A slot's minimum size, or one where the minimum is zero.
pub open spec fn min_or_one(e: Edge) -> u32 {
    if e.minimum_size != 0 {
        e.minimum_size
    } else {
        1
    }
}

/// Every assigned slot keeps its size; every unassigned one falls back to
/// its minimum size, or to one where that minimum is zero.
pub open spec fn finalize_min(edges: Seq<Edge>, sizes: Seq<Option<u32>>) -> Seq<u32> {
    Seq::new(
        sizes.len(),
        |i: int|
            match sizes[i] {
                Some(v) => v,
                None => min_or_one(edges[i]),
            },
    )
}

/// The assigned sizes, once every slot is assigned.
pub open spec fn unwrap_sizes(sizes: Seq<Option<u32>>) -> Seq<u32> {
    Seq::new(
        sizes.len(),
        |i: int|
            match sizes[i] {
                Some(v) => v,
                None => 0u32,
            },
    )
}

/// Assigning an unassigned slot lowers the number of unassigned slots by
/// one.
proof fn lemma_none_count_update(sizes: Seq<Option<u32>>, j: int, v: u32, i: int)
    requires
        0 <= j < sizes.len(),
        sizes[j] is None,
        0 <= i <= sizes.len(),
    ensures
        none_count(sizes.update(j, Some(v)), i) == if j < i {
            none_count(sizes, i) - 1
        } else {
            none_count(sizes, i) as int
        },
    decreases i,
{
    if i > 0 {
        lemma_none_count_update(sizes, j, v, i - 1);
    }
}

/// What a found violation says of the slot it names.
proof fn lemma_first_violation_some(
    edges: Seq<Edge>,
    sizes: Seq<Option<u32>>,
    rem: int,
    denom: int,
    i: int,
    j: int,
)
    requires
        0 <= i,
        first_violation(edges, sizes, rem, denom, i) == Some(j),
    ensures
        i <= j < edges.len(),
        sizes[j] is None,
        rem * edges[j].ratio <= edges[j].minimum_size * denom,
    decreases edges.len() - i,
{
    if i < edges.len() {
        if sizes[i] is None && rem * edges[i].ratio <= edges[i].minimum_size * denom {
        } else {
            lemma_first_violation_some(edges, sizes, rem, denom, i + 1, j);
        }
    }
}

/// The solver's loop: as long as any slot is unassigned, either give every
/// unassigned slot its minimum when no space remains, peg the first slot
/// whose share would fall below its minimum, or split the remaining space
/// among the unassigned slots by their ratios, carrying rounding remainders
/// forward.
pub open spec fn resolve_loop(total: int, edges: Seq<Edge>, sizes: Seq<Option<u32>>) -> Seq<u32>
    decreases none_count(sizes, sizes.len() as int),
    when sizes.len() == edges.len()
    via resolve_loop_decreases
{
    let n = sizes.len() as int;
    if none_count(sizes, n) == 0 {
        unwrap_sizes(sizes)
    } else {
        let remaining = total - sum_sizes(sizes, n);
        if remaining <= 0 {
            finalize_min(edges, sizes)
        } else {
            let denom = flex_denom(edges, sizes, n);
            match first_violation(edges, sizes, remaining, denom, 0) {
                Some(j) => resolve_loop(
                    total,
                    edges,
                    sizes.update(j, Some(edges[j].minimum_size)),
                ),
                None => unwrap_sizes(distribute(edges, sizes, remaining, denom, 0, 0)),
            }
        }
    }
}

#[via_fn]
proof fn resolve_loop_decreases(total: int, edges: Seq<Edge>, sizes: Seq<Option<u32>>) {
    let n = sizes.len() as int;
    if none_count(sizes, n) != 0 {
        let remaining = total - sum_sizes(sizes, n);
        if remaining > 0 {
            let denom = flex_denom(edges, sizes, n);
            match first_violation(edges, sizes, remaining, denom, 0) {
                Some(j) => {
                    lemma_first_violation_some(edges, sizes, remaining, denom, 0, j);
                    if j < sizes.len() {
                        lemma_none_count_update(
                            sizes,
                            j,
                            edges[j].minimum_size,
                            sizes.len() as int,
                        );
                    }
                },
                None => {},
            }
        }
    }
}

/// The edges that a sequence of slot descriptions describes.
pub open spec fn edge_views<E: HasEdge>(s: Seq<E>) -> Seq<Edge> {
    s.map_values(|e: E| e.edge_spec())
}

/// The sizes the slots start from: their fixed sizes, where given.
pub open spec fn initial_sizes(edges: Seq<Edge>) -> Seq<Option<u32>> {
    Seq::new(edges.len(), |i: int| edges[i].size)
}

/// What `ratio_resolve` returns for the given total and edges.
pub open spec fn ratio_resolve_spec(total: int, edges: Seq<Edge>) -> Seq<u32> {
    resolve_loop(total, edges, initial_sizes(edges))
}

/// Assigned sizes are single `u32` values, so their sum over the first `i`
/// slots is bounded by `i` times the largest one.
proof fn lemma_sum_sizes_bounds(sizes: Seq<Option<u32>>, i: int)
    requires
        0 <= i <= sizes.len(),
    ensures
        0 <= sum_sizes(sizes, i) <= i * 0xFFFF_FFFF,
    decreases i,
{
    if i > 0 {
        lemma_sum_sizes_bounds(sizes, i - 1);
    }
}

/// The portion denominator counts at least one for every unassigned slot
/// and at most the largest ratio for each slot.
proof fn lemma_flex_denom_bounds(edges: Seq<Edge>, sizes: Seq<Option<u32>>, i: int)
    requires
        0 <= i,
    ensures
        none_count(sizes, i) <= flex_denom(edges, sizes, i) <= i * 0xFFFF_FFFF,
    decreases i,
{
    if i > 0 {
        lemma_flex_denom_bounds(edges, sizes, i - 1);
    }
}

/// The portion denominator counts each unassigned slot's whole adjusted
/// ratio.
proof fn lemma_flex_denom_includes(edges: Seq<Edge>, sizes: Seq<Option<u32>>, i: int, j: int)
    requires
        0 <= j < i,
        sizes[j] is None,
    ensures
        flex_denom(edges, sizes, i) >= nz(edges[j].ratio),
    decreases i,
{
    lemma_flex_denom_bounds(edges, sizes, j);
    if j < i - 1 {
        lemma_flex_denom_includes(edges, sizes, i - 1, j);
    }
}

/// Where no violation was found, every unassigned slot's share strictly
/// exceeds its minimum.
proof fn lemma_first_violation_none(
    edges: Seq<Edge>,
    sizes: Seq<Option<u32>>,
    rem: int,
    denom: int,
    i: int,
    m: int,
)
    requires
        0 <= i <= m < edges.len(),
        first_violation(edges, sizes, rem, denom, i) is None,
        sizes[m] is None,
    ensures
        rem * edges[m].ratio > edges[m].minimum_size * denom,
    decreases m - i,
{
    if i < m {
        lemma_first_violation_none(edges, sizes, rem, denom, i + 1, m);
    }
}

/// A prefix of assigned slots holds no unassigned one.
proof fn lemma_none_count_zero(sizes: Seq<Option<u32>>, i: int)
    requires
        0 <= i <= sizes.len(),
        forall|m: int| 0 <= m < i ==> (#[trigger] sizes[m]) is Some,
    ensures
        none_count(sizes, i) == 0,
    decreases i,
{
    if i > 0 {
        lemma_none_count_zero(sizes, i - 1);
    }
}

/// Count the unassigned slots.
fn count_unassigned(sizes: &Vec<Option<u32>>) -> (c: usize)
    ensures
        c == none_count(sizes@, sizes@.len() as int),
{
    let mut c: usize = 0;
    let mut i: usize = 0;
    while i < sizes.len()
        invariant
            i <= sizes@.len(),
            c <= i,
            c == none_count(sizes@, i as int),
        decreases sizes@.len() - i,
    {
        if sizes[i].is_none() {
            c = c + 1;
        }
        i = i + 1;
    }
    c
}

/// Sum the assigned sizes.
fn sum_assigned(sizes: &Vec<Option<u32>>) -> (s: u64)
    requires
        sizes@.len() <= 0xFFFF_FFFF,
    ensures
        s == sum_sizes(sizes@, sizes@.len() as int),
{
    let mut s: u64 = 0;
    let mut i: usize = 0;
    while i < sizes.len()
        invariant
            i <= sizes@.len() <= 0xFFFF_FFFF,
            s == sum_sizes(sizes@, i as int),
            s <= i * 0xFFFF_FFFF,
        decreases sizes@.len() - i,
    {
        if let Some(v) = sizes[i] {
            s = s + v as u64;
        }
        i = i + 1;
    }
    s
}

/// Sum the adjusted ratios of the unassigned slots.
fn flex_denom_exec<E: HasEdge>(edges: &[E], sizes: &Vec<Option<u32>>) -> (d: u64)
    requires
        edges@.len() == sizes@.len(),
        edges@.len() <= 0xFFFF_FFFF,
    ensures
        d == flex_denom(edge_views(edges@), sizes@, edges@.len() as int),
{
    let ghost es = edge_views(edges@);
    let n = edges.len();
    let mut d: u64 = 0;
    let mut i: usize = 0;
    while i < n
        invariant
            es == edge_views(edges@),
            n == edges@.len() == sizes@.len(),
            n <= 0xFFFF_FFFF,
            i <= n,
            d == flex_denom(es, sizes@, i as int),
            d <= i * 0xFFFF_FFFF,
        decreases n - i,
    {
        if sizes[i].is_none() {
            let e = slice_index_get(edges, i).protocol();
            proof {
                assert(es[i as int] == edges@[i as int].edge_spec());
            }
            if e.ratio == 0 {
                d = d + 1;
            } else {
                d = d + e.ratio as u64;
            }
        }
        i = i + 1;
    }
    d
}

/// Scan for the first unassigned slot whose proportional share of `rem`
/// would not exceed its minimum size.
fn find_violation<E: HasEdge>(edges: &[E], sizes: &Vec<Option<u32>>, rem: u64, denom: u64) -> (r:
    Option<usize>)
    requires
        edges@.len() == sizes@.len(),
        rem <= 0xFFFF_FFFF,
    ensures
        match r {
            Some(j) => j < edges@.len() && first_violation(
                edge_views(edges@),
                sizes@,
                rem as int,
                denom as int,
                0,
            ) == Some(j as int),
            None => first_violation(
                edge_views(edges@),
                sizes@,
                rem as int,
                denom as int,
                0,
            ) is None,
        },
{
    let ghost es = edge_views(edges@);
    let n = edges.len();
    let mut j: usize = 0;
    while j < n
        invariant
            es == edge_views(edges@),
            n == edges@.len() == sizes@.len(),
            rem <= 0xFFFF_FFFF,
            j <= n,
            first_violation(es, sizes@, rem as int, denom as int, 0) == first_violation(
                es,
                sizes@,
                rem as int,
                denom as int,
                j as int,
            ),
        decreases n - j,
    {
        if sizes[j].is_none() {
            let e = slice_index_get(edges, j).protocol();
            proof {
                assert(es[j as int] == edges@[j as int].edge_spec());
            }
            proof {
                lemma_mul_upper_bound(rem as int, 0xFFFF_FFFF, e.ratio as int, 0xFFFF_FFFF);
                lemma_mul_upper_bound(
                    e.minimum_size as int,
                    0xFFFF_FFFF,
                    denom as int,
                    0xFFFF_FFFF_FFFF_FFFF,
                );
            }
            let lhs = rem * e.ratio as u64;
            let rhs = (e.minimum_size as u128) * (denom as u128);
            if (lhs as u128) <= rhs {
                return Some(j);
            }
        }
        j = j + 1;
    }
    None
}

/// Assign every unassigned slot its proportional share of `rem`, carrying
/// the fractional remainder forward, so that afterwards no slot is left
/// unassigned.
fn distribute_exec<E: HasEdge>(edges: &[E], sizes: &mut Vec<Option<u32>>, rem: u64, denom: u64)
    requires
        edges@.len() == old(sizes)@.len(),
        edges@.len() <= 0xFFFF_FFFF,
        1 <= rem <= 0xFFFF_FFFF,
        denom == flex_denom(edge_views(edges@), old(sizes)@, edges@.len() as int),
        denom >= 1,
        first_violation(
            edge_views(edges@),
            old(sizes)@,
            rem as int,
            denom as int,
            0,
        ) is None,
    ensures
        final(sizes)@ == distribute(
            edge_views(edges@),
            old(sizes)@,
            rem as int,
            denom as int,
            0,
            0,
        ),
        final(sizes)@.len() == old(sizes)@.len(),
        none_count(final(sizes)@, final(sizes)@.len() as int) == 0,
{
    let ghost es = edge_views(edges@);
    let ghost s0 = old(sizes)@;
    let n = edges.len();
    let mut rem_num: u64 = 0;
    let mut j: usize = 0;
    while j < n
        invariant
            es == edge_views(edges@),
            n == edges@.len(),
            n <= 0xFFFF_FFFF,
            s0.len() == n,
            sizes@.len() == n,
            1 <= rem <= 0xFFFF_FFFF,
            denom == flex_denom(es, s0, n as int),
            denom >= 1,
            first_violation(es, s0, rem as int, denom as int, 0) is None,
            j <= n,
            rem_num < denom,
            forall|m: int| 0 <= m < j ==> (#[trigger] sizes@[m]) is Some,
            forall|m: int| j <= m < n ==> sizes@[m] == s0[m],
            distribute(es, s0, rem as int, denom as int, 0, 0) == distribute(
                es,
                sizes@,
                rem as int,
                denom as int,
                rem_num as int,
                j as int,
            ),
        decreases n - j,
    {
        let ghost s_pre = sizes@;
        let ghost rn_pre = rem_num as int;
        if sizes[j].is_none() {
            let e = slice_index_get(edges, j).protocol();
            proof {
                assert(es[j as int] == edges@[j as int].edge_spec());
                lemma_first_violation_none(es, s0, rem as int, denom as int, 0, j as int);
                assert(es[j as int].minimum_size * denom >= 0) by (nonlinear_arith)
                    requires
                        es[j as int].minimum_size as int >= 0,
                        denom as int >= 0,
                ;
                assert(rem * es[j as int].ratio > 0) by (nonlinear_arith)
                    requires
                        rem as int * es[j as int].ratio as int > es[j as int].minimum_size as int
                            * (denom as int),
                        es[j as int].minimum_size as int * (denom as int) >= 0,
                ;
                assert(es[j as int].ratio >= 1) by (nonlinear_arith)
                    requires
                        rem as int * es[j as int].ratio as int > 0,
                        es[j as int].ratio as int >= 0,
                ;
                lemma_flex_denom_includes(es, s0, n as int, j as int);
                assert(denom >= es[j as int].ratio);
            }
            proof {
                lemma_mul_upper_bound(rem as int, 0xFFFF_FFFF, e.ratio as int, 0xFFFF_FFFF);
            }
            let num: u128 = (rem as u128) * (e.ratio as u128) + (rem_num as u128);
            let q: u128 = num / (denom as u128);
            let r2: u128 = num % (denom as u128);
            proof {
                let numi = rem as int * e.ratio as int + rem_num as int;
                assert(rem as int * e.ratio as int <= rem as int * denom as int)
                    by (nonlinear_arith)
                    requires
                        e.ratio as int <= denom as int,
                        rem as int >= 0,
                ;
                lemma_div_is_ordered(numi, rem as int * denom as int + denom as int - 1,
                    denom as int);
                lemma_fundamental_div_mod_converse(
                    rem as int * denom as int + denom as int - 1,
                    denom as int,
                    rem as int,
                    denom as int - 1,
                );
                assert(numi / denom as int <= rem as int);
                lemma_div_pos_is_pos(numi, denom as int);
                lemma_mod_bound(numi, denom as int);
                assert(num as int == numi);
                assert(q as int == numi / denom as int);
                assert(r2 as int == numi % denom as int);
            }
            let q32: u32 = q as u32;
            sizes.set(j, Some(q32));
            rem_num = r2 as u64;
            proof {
                assert(distribute(es, s_pre, rem as int, denom as int, rn_pre, j as int)
                    == distribute(es, sizes@, rem as int, denom as int, rem_num as int, j + 1));
            }
        } else {
            proof {
                assert(distribute(es, s_pre, rem as int, denom as int, rem_num as int, j as int)
                    == distribute(es, sizes@, rem as int, denom as int, rem_num as int, j + 1));
            }
        }
        j = j + 1;
    }
    proof {
        lemma_none_count_zero(sizes@, n as int);
    }
}

/// Read every assigned size out, falling back to the slot's minimum (or one
/// where the minimum is zero) for unassigned slots.
fn finalize_exec<E: HasEdge>(edges: &[E], sizes: &Vec<Option<u32>>) -> (r: Vec<u32>)
    requires
        edges@.len() == sizes@.len(),
    ensures
        r@ == finalize_min(edge_views(edges@), sizes@),
{
    let ghost es = edge_views(edges@);
    let n = edges.len();
    let mut r: Vec<u32> = Vec::new();
    let mut j: usize = 0;
    while j < n
        invariant
            es == edge_views(edges@),
            n == edges@.len() == sizes@.len(),
            j <= n,
            r@.len() == j,
            forall|m: int| 0 <= m < j ==> r@[m] == finalize_min(es, sizes@)[m],
        decreases n - j,
    {
        match sizes[j] {
            Some(v) => r.push(v),
            None => {
                let e = slice_index_get(edges, j).protocol();
                proof {
                    assert(es[j as int] == edges@[j as int].edge_spec());
                }
                if e.minimum_size != 0 {
                    r.push(e.minimum_size);
                } else {
                    r.push(1);
                }
            },
        }
        j = j + 1;
    }
    proof {
        assert(r@ =~= finalize_min(es, sizes@));
    }
    r
}

/// Read every assigned size out; an unassigned slot counts as zero.
fn unwrap_exec(sizes: &Vec<Option<u32>>) -> (r: Vec<u32>)
    ensures
        r@ == unwrap_sizes(sizes@),
{
    let n = sizes.len();
    let mut r: Vec<u32> = Vec::new();
    let mut j: usize = 0;
    while j < n
        invariant
            n == sizes@.len(),
            j <= n,
            r@.len() == j,
            forall|m: int| 0 <= m < j ==> r@[m] == unwrap_sizes(sizes@)[m],
        decreases n - j,
    {
        match sizes[j] {
            Some(v) => r.push(v),
            None => r.push(0),
        }
        j = j + 1;
    }
    proof {
        assert(r@ =~= unwrap_sizes(sizes@));
    }
    r
}

/// Divide `total` among the edges so as to satisfy their fixed-size, ratio
/// and minimum-size constraints: fixed slots keep their size, flexible ones
/// share what remains in proportion to their ratios with rounding
/// remainders carried to the next slot, any slot whose share would fall
/// below its minimum is pegged there and the division starts over, and when
/// nothing remains every unresolved slot falls back to its minimum (or one),
/// so the result may then exceed `total`.
pub fn ratio_resolve<E: HasEdge>(total: u32, edges: &[E]) -> (r: Vec<u32>)
    requires
        edges@.len() <= 0xFFFF_FFFF,
    ensures
        r@ == ratio_resolve_spec(total as int, edge_views(edges@)),
{
    let ghost es = edge_views(edges@);
    let n = edges.len();
    let mut sizes: Vec<Option<u32>> = Vec::new();
    let mut i: usize = 0;
    while i < n
        invariant
            es == edge_views(edges@),
            n == edges@.len(),
            i <= n,
            sizes@.len() == i,
            forall|m: int| 0 <= m < i ==> sizes@[m] == initial_sizes(es)[m],
        decreases n - i,
    {
        let e = slice_index_get(edges, i).protocol();
        proof {
            assert(es[i as int] == edges@[i as int].edge_spec());
        }
        sizes.push(e.size);
        i = i + 1;
    }
    proof {
        assert(sizes@ =~= initial_sizes(es));
    }
    let mut unassigned = count_unassigned(&sizes);
    while unassigned > 0
        invariant
            es == edge_views(edges@),
            n == edges@.len(),
            n <= 0xFFFF_FFFF,
            sizes@.len() == n,
            unassigned == none_count(sizes@, n as int),
            resolve_loop(total as int, es, sizes@) == ratio_resolve_spec(total as int, es),
        decreases unassigned,
    {
        let ghost s_pre = sizes@;
        let sum = sum_assigned(&sizes);
        if sum >= total as u64 {
            let r = finalize_exec(edges, &sizes);
            proof {
                assert(resolve_loop(total as int, es, s_pre) == finalize_min(es, s_pre));
            }
            return r;
        }
        let rem = total as u64 - sum;
        proof {
            lemma_sum_sizes_bounds(s_pre, n as int);
        }
        let denom = flex_denom_exec(edges, &sizes);
        proof {
            lemma_flex_denom_bounds(es, s_pre, n as int);
        }
        match find_violation(edges, &sizes, rem, denom) {
            Some(j) => {
                let e = slice_index_get(edges, j).protocol();
                proof {
                    assert(es[j as int] == edges@[j as int].edge_spec());
                    lemma_first_violation_some(
                        es,
                        s_pre,
                        rem as int,
                        denom as int,
                        0,
                        j as int,
                    );
                    lemma_none_count_update(s_pre, j as int, e.minimum_size, n as int);
                }
                sizes.set(j, Some(e.minimum_size));
                unassigned = unassigned - 1;
                proof {
                    assert(resolve_loop(total as int, es, s_pre) == resolve_loop(
                        total as int,
                        es,
                        sizes@,
                    ));
                }
            },
            None => {
                distribute_exec(edges, &mut sizes, rem, denom);
                unassigned = 0;
                proof {
                    assert(resolve_loop(total as int, es, s_pre) == unwrap_sizes(sizes@));
                    assert(resolve_loop(total as int, es, sizes@) == unwrap_sizes(sizes@));
                }
            },
        }
    }
    let r = unwrap_exec(&sizes);
    proof {
        assert(resolve_loop(total as int, es, sizes@) == unwrap_sizes(sizes@));
    }
    r
}

/// The sum of the first `i` resolved sizes.
pub open spec fn sum_resolved(s: Seq<u32>, i: int) -> int
    decreases i,
{
    if i <= 0 {
        0
    } else {
        sum_resolved(s, i - 1) + s[i - 1]
    }
}

/// The sum of the minimum sizes of the first `i` edges.
pub open spec fn sum_min(edges: Seq<Edge>, i: int) -> int
    decreases i,
{
    if i <= 0 {
        0
    } else {
        sum_min(edges, i - 1) + edges[i - 1].minimum_size
    }
}

/// The sum of the minimum sizes of the unassigned slots among the first `i`.
pub open spec fn sum_mins_none(edges: Seq<Edge>, sizes: Seq<Option<u32>>, i: int) -> int
    decreases i,
{
    if i <= 0 {
        0
    } else {
        sum_mins_none(edges, sizes, i - 1) + (if sizes[i - 1] is None {
            edges[i - 1].minimum_size as int
        } else {
            0
        })
    }
}

/// Reading the assigned sizes out preserves their sum; an unassigned slot
/// counts zero on both sides.
proof fn lemma_sum_unwrap(sizes: Seq<Option<u32>>, i: int)
    requires
        0 <= i <= sizes.len(),
    ensures
        sum_resolved(unwrap_sizes(sizes), i) == sum_sizes(sizes, i),
    decreases i,
{
    if i > 0 {
        lemma_sum_unwrap(sizes, i - 1);
    }
}

/// Where every minimum is at least one, the unassigned minimums sum to at
/// least the number of unassigned slots.
proof fn lemma_mins_none_ge_count(edges: Seq<Edge>, sizes: Seq<Option<u32>>, i: int)
    requires
        0 <= i <= sizes.len(),
        i <= edges.len(),
        forall|m: int| 0 <= m < edges.len() ==> (#[trigger] edges[m]).minimum_size >= 1,
    ensures
        sum_mins_none(edges, sizes, i) >= none_count(sizes, i),
    decreases i,
{
    if i > 0 {
        lemma_mins_none_ge_count(edges, sizes, i - 1);
    }
}

/// Assigning the unassigned slot `j` adds its value to the assigned sum,
/// removes its minimum from the unassigned minimums, and removes its
/// adjusted ratio from the portion denominator.
proof fn lemma_sums_update(edges: Seq<Edge>, sizes: Seq<Option<u32>>, j: int, v: u32, i: int)
    requires
        0 <= j < sizes.len(),
        sizes[j] is None,
        0 <= i <= sizes.len(),
    ensures
        sum_sizes(sizes.update(j, Some(v)), i) == sum_sizes(sizes, i) + (if j < i {
            v as int
        } else {
            0
        }),
        sum_mins_none(edges, sizes.update(j, Some(v)), i) == sum_mins_none(edges, sizes, i) - (
        if j < i {
            edges[j].minimum_size as int
        } else {
            0
        }),
        flex_denom(edges, sizes.update(j, Some(v)), i) == flex_denom(edges, sizes, i) - (if j
            < i {
            nz(edges[j].ratio)
        } else {
            0
        }),
    decreases i,
{
    if i > 0 {
        lemma_sums_update(edges, sizes, j, v, i - 1);
    }
}

/// A prefix with no unassigned slot contributes nothing to the unassigned
/// sums.
proof fn lemma_none_sums_zero(edges: Seq<Edge>, sizes: Seq<Option<u32>>, i: int)
    requires
        0 <= i <= sizes.len(),
        none_count(sizes, i) == 0,
    ensures
        sum_mins_none(edges, sizes, i) == 0,
        flex_denom(edges, sizes, i) == 0,
    decreases i,
{
    if i > 0 {
        lemma_none_sums_zero(edges, sizes, i - 1);
    }
}

/// An unassigned slot is counted.
proof fn lemma_none_count_at(sizes: Seq<Option<u32>>, j: int, i: int)
    requires
        0 <= j < i <= sizes.len(),
        sizes[j] is None,
    ensures
        none_count(sizes, i) >= 1,
    decreases i,
{
    if j < i - 1 {
        lemma_none_count_at(sizes, j, i - 1);
    }
}

/// When `j` is the only unassigned slot, the unassigned sums reduce to its
/// own minimum and adjusted ratio.
proof fn lemma_single_none(edges: Seq<Edge>, sizes: Seq<Option<u32>>, j: int, i: int)
    requires
        0 <= j < i <= sizes.len(),
        sizes[j] is None,
        none_count(sizes, i) == 1,
    ensures
        sum_mins_none(edges, sizes, i) == edges[j].minimum_size,
        flex_denom(edges, sizes, i) == nz(edges[j].ratio),
    decreases i,
{
    if j == i - 1 {
        lemma_none_sums_zero(edges, sizes, i - 1);
    } else {
        lemma_none_count_at(sizes, j, i - 1);
        lemma_single_none(edges, sizes, j, i - 1);
    }
}

/// Splitting the remaining space among the unassigned slots from `i` on
/// adds exactly the floor of the carried numerator over the denominator to
/// the assigned sum.
proof fn lemma_distribute_sum(
    edges: Seq<Edge>,
    sizes: Seq<Option<u32>>,
    rem: int,
    denom: int,
    rn: int,
    i: int,
)
    requires
        sizes.len() == edges.len(),
        0 <= i <= sizes.len(),
        1 <= rem <= 0xFFFF_FFFF,
        denom >= 1,
        0 <= rn < denom,
        forall|m: int| 0 <= m < edges.len() ==> (#[trigger] edges[m]).ratio >= 1,
        forall|m: int|
            i <= m < sizes.len() && (#[trigger] sizes[m]) is None ==> edges[m].ratio <= denom,
    ensures
        distribute(edges, sizes, rem, denom, rn, i).len() == sizes.len(),
        sum_sizes(distribute(edges, sizes, rem, denom, rn, i), sizes.len() as int) == sum_sizes(
            sizes,
            sizes.len() as int,
        ) + (rem * (flex_denom(edges, sizes, sizes.len() as int) - flex_denom(edges, sizes, i))
            + rn) / denom,
    decreases sizes.len() - i,
{
    let n = sizes.len() as int;
    if i == n {
        lemma_fundamental_div_mod_converse(rn, denom, 0, rn);
    } else if sizes[i] is Some {
        lemma_distribute_sum(edges, sizes, rem, denom, rn, i + 1);
    } else {
        let r_i = edges[i].ratio as int;
        let a = rem * r_i + rn;
        let q = a / denom;
        let rn2 = a % denom;
        assert(rem * r_i >= 1 && rem * r_i <= rem * denom) by (nonlinear_arith)
            requires
                1 <= rem,
                1 <= r_i,
                r_i <= denom,
        ;
        lemma_fundamental_div_mod_converse(rem * denom + denom - 1, denom, rem, denom - 1);
        lemma_div_is_ordered(a, rem * denom + denom - 1, denom);
        lemma_div_pos_is_pos(a, denom);
        lemma_mod_bound(a, denom);
        let s2 = sizes.update(i, Some(q as u32));
        lemma_sums_update(edges, sizes, i, q as u32, n);
        lemma_sums_update(edges, sizes, i, q as u32, i + 1);
        assert forall|m: int| i + 1 <= m < s2.len() && (#[trigger] s2[m]) is None implies edges[m].ratio
            <= denom by {
            assert(s2[m] == sizes[m]);
        }
        lemma_distribute_sum(edges, s2, rem, denom, rn2, i + 1);
        let d_next = flex_denom(edges, sizes, n) - flex_denom(edges, sizes, i + 1);
        assert(flex_denom(edges, s2, n) - flex_denom(edges, s2, i + 1) == d_next);
        assert(flex_denom(edges, sizes, i + 1) == flex_denom(edges, sizes, i) + r_i);
        lemma_fundamental_div_mod(a, denom);
        lemma_hoist_over_denominator(rem * d_next + rn2, q, denom as nat);
        assert(rem * d_next + rn2 + q * denom == rem * (d_next + r_i) + rn) by (nonlinear_arith)
            requires
                a == rem * r_i + rn,
                a == denom * q + rn2,
                q * denom == denom * q,
        ;
    }
}

/// While some slot is unassigned and the invariant holds that the assigned
/// sizes plus the unassigned minimums fit within `total`, the solver's loop
/// hands out exactly `total`.
proof fn lemma_resolve_loop_sum(total: int, edges: Seq<Edge>, sizes: Seq<Option<u32>>)
    requires
        sizes.len() == edges.len(),
        none_count(sizes, sizes.len() as int) >= 1,
        0 <= total <= 0xFFFF_FFFF,
        forall|m: int| 0 <= m < edges.len() ==> (#[trigger] edges[m]).ratio >= 1,
        forall|m: int| 0 <= m < edges.len() ==> (#[trigger] edges[m]).minimum_size >= 1,
        sum_sizes(sizes, sizes.len() as int) + sum_mins_none(edges, sizes, sizes.len() as int)
            <= total,
    ensures
        sum_resolved(resolve_loop(total, edges, sizes), sizes.len() as int) == total,
    decreases none_count(sizes, sizes.len() as int),
{
    let n = sizes.len() as int;
    let remaining = total - sum_sizes(sizes, n);
    lemma_mins_none_ge_count(edges, sizes, n);
    lemma_sum_sizes_bounds(sizes, n);
    assert(remaining >= 1);
    let denom = flex_denom(edges, sizes, n);
    lemma_flex_denom_bounds(edges, sizes, n);
    assert(denom >= 1);
    match first_violation(edges, sizes, remaining, denom, 0) {
        Some(j) => {
            lemma_first_violation_some(edges, sizes, remaining, denom, 0, j);
            let m_j = edges[j].minimum_size;
            let s2 = sizes.update(j, Some(m_j));
            lemma_none_count_update(sizes, j, m_j, n);
            lemma_sums_update(edges, sizes, j, m_j, n);
            if none_count(s2, n) == 0 {
                lemma_single_none(edges, sizes, j, n);
                assert(remaining <= m_j) by (nonlinear_arith)
                    requires
                        remaining * edges[j].ratio as int <= m_j as int * denom,
                        denom == edges[j].ratio as int,
                        edges[j].ratio as int >= 1,
                ;
                assert(m_j <= remaining);
                lemma_sum_unwrap(s2, n);
                assert(resolve_loop(total, edges, s2) == unwrap_sizes(s2));
            } else {
                lemma_resolve_loop_sum(total, edges, s2);
            }
        },
        None => {
            assert forall|m: int|
                0 <= m < sizes.len() && (#[trigger] sizes[m]) is None implies edges[m].ratio
                <= denom by {
                lemma_flex_denom_includes(edges, sizes, n, m);
            }
            lemma_distribute_sum(edges, sizes, remaining, denom, 0, 0);
            lemma_fundamental_div_mod_converse(remaining * denom, denom, remaining, 0);
            assert(flex_denom(edges, sizes, 0) == 0);
            lemma_sum_unwrap(distribute(edges, sizes, remaining, denom, 0, 0), n);
        },
    }
}

/// The sizes a fully flexible sequence of edges starts from: none assigned,
/// so their assigned sum is zero and the unassigned minimums are all the
/// minimums.
proof fn lemma_initial_sums(edges: Seq<Edge>, i: int)
    requires
        0 <= i <= edges.len(),
        forall|m: int| 0 <= m < edges.len() ==> (#[trigger] edges[m]).size is None,
    ensures
        none_count(initial_sizes(edges), i) == i,
        sum_sizes(initial_sizes(edges), i) == 0,
        sum_mins_none(edges, initial_sizes(edges), i) == sum_min(edges, i),
    decreases i,
{
    if i > 0 {
        lemma_initial_sums(edges, i - 1);
    }
}

/// Resolution is exact wherever it can be: when every edge is flexible with
/// a ratio weight and a minimum size of at least one, and the minimums
/// together fit within `total`, the resolved sizes sum to exactly `total`.
pub proof fn lemma_ratio_resolve_sums_to_total(total: int, edges: Seq<Edge>)
    requires
        1 <= edges.len(),
        0 <= total <= 0xFFFF_FFFF,
        forall|m: int| 0 <= m < edges.len() ==> (#[trigger] edges[m]).size is None,
        forall|m: int| 0 <= m < edges.len() ==> (#[trigger] edges[m]).ratio >= 1,
        forall|m: int| 0 <= m < edges.len() ==> (#[trigger] edges[m]).minimum_size >= 1,
        sum_min(edges, edges.len() as int) <= total,
    ensures
        sum_resolved(ratio_resolve_spec(total, edges), edges.len() as int) == total,
{
    let s0 = initial_sizes(edges);
    lemma_initial_sums(edges, edges.len() as int);
    lemma_resolve_loop_sum(total, edges, s0);
}

/// The smaller of two integers.
pub open spec fn min_int(a: int, b: int) -> int {
    if a <= b {
        a
    } else {
        b
    }
}

/// The larger of two integers.
pub open spec fn max_int(a: int, b: int) -> int {
    if a >= b {
        a
    } else {
        b
    }
}

/// The signed values of a sequence.
pub open spec fn int_values(s: Seq<i32>) -> Seq<int> {
    s.map_values(|v: i32| v as int)
}

/// A slot's ratio counted as zero wherever its paired maximum is zero.
pub open spec fn eff_ratio(ratio: i32, maximum: i32) -> int {
    if maximum == 0 {
        0
    } else {
        ratio as int
    }
}

/// The sum of the effective ratios of the first `i` slots.
pub open spec fn eff_ratio_sum(ratios: Seq<i32>, maximums: Seq<i32>, i: int) -> int
    decreases i,
{
    if i <= 0 {
        0
    } else {
        eff_ratio_sum(ratios, maximums, i - 1) + eff_ratio(ratios[i - 1], maximums[i - 1])
    }
}

/// The ratio `num / den` rounded to the nearest integer, halves away from
/// zero.
pub open spec fn round_ratio(num: int, den: int) -> int {
    if num >= 0 {
        (2 * num + den) / (2 * den)
    } else {
        -((2 * (-num) + den) / (2 * den))
    }
}

/// The reductions applied from slot `i` on, with `rem` still to shed and `t`
/// the ratio weight not yet consumed: a slot with effective ratio zero, or
/// reached once `t` is exhausted, keeps its value; any other is reduced by
/// its proportional share of `rem`, rounded to the nearest integer and
/// capped at its maximum, with no clamping below, so a slot may go negative.
pub open spec fn reduce_from(
    ratios: Seq<i32>,
    maximums: Seq<i32>,
    values: Seq<i32>,
    i: int,
    rem: int,
    t: int,
) -> Seq<int>
    decreases values.len() - i,
{
    if i < 0 || i >= values.len() {
        Seq::empty()
    } else {
        let er = eff_ratio(ratios[i], maximums[i]);
        if er != 0 && t > 0 {
            let d = min_int(maximums[i] as int, round_ratio(er * rem, t));
            seq![values[i] - d] + reduce_from(ratios, maximums, values, i + 1, rem - d, t - er)
        } else {
            seq![values[i] as int] + reduce_from(ratios, maximums, values, i + 1, rem, t)
        }
    }
}

/// Every reduced value stays within the machine's signed 32-bit range.
pub open spec fn reduce_fits(
    ratios: Seq<i32>,
    maximums: Seq<i32>,
    values: Seq<i32>,
    i: int,
    rem: int,
    t: int,
) -> bool
    decreases values.len() - i,
{
    if i < 0 || i >= values.len() {
        true
    } else {
        let er = eff_ratio(ratios[i], maximums[i]);
        if er != 0 && t > 0 {
            let d = min_int(maximums[i] as int, round_ratio(er * rem, t));
            i32::MIN <= values[i] - d <= i32::MAX && reduce_fits(
                ratios,
                maximums,
                values,
                i + 1,
                rem - d,
                t - er,
            )
        } else {
            reduce_fits(ratios, maximums, values, i + 1, rem, t)
        }
    }
}

/// What `ratio_reduce` returns: the values unchanged where no ratio weight
/// is active, and otherwise each value less its share of `total`.
pub open spec fn ratio_reduce_spec(
    total: int,
    ratios: Seq<i32>,
    maximums: Seq<i32>,
    values: Seq<i32>,
) -> Seq<int> {
    let t0 = eff_ratio_sum(ratios, maximums, ratios.len() as int);
    if t0 == 0 {
        int_values(values)
    } else {
        reduce_from(ratios, maximums, values, 0, total, t0)
    }
}

/// All the machine limits `ratio_reduce` needs: no reduced value leaves the
/// signed 32-bit range.
pub open spec fn ratio_reduce_fits(
    total: int,
    ratios: Seq<i32>,
    maximums: Seq<i32>,
    values: Seq<i32>,
) -> bool {
    let t0 = eff_ratio_sum(ratios, maximums, ratios.len() as int);
    t0 == 0 || reduce_fits(ratios, maximums, values, 0, total, t0)
}

/// Shrink `values` by amounts proportional to `ratios`, each slot's
/// reduction capped at its paired maximum (a slot whose maximum is zero is
/// left alone, as is every slot once the active ratio weight is consumed).
/// Proportions are computed against the sum of active ratios, renormalized
/// as each slot is consumed, with each share rounded to the nearest integer,
/// halves away from zero. The output is not clamped: a slot may go negative
/// when its reduction exceeds its value.
pub fn ratio_reduce(total: i32, ratios: &[i32], maximums: &[i32], values: Vec<i32>) -> (r: Vec<
    i32,
>)
    requires
        ratios@.len() == values@.len(),
        maximums@.len() == values@.len(),
        values@.len() <= 0xFFFF_FFFF,
        ratio_reduce_fits(total as int, ratios@, maximums@, values@),
    ensures
        int_values(r@) == ratio_reduce_spec(total as int, ratios@, maximums@, values@),
{
    let n = values.len();
    let mut t: i128 = 0;
    let mut i: usize = 0;
    while i < n
        invariant
            n == values@.len() == ratios@.len() == maximums@.len(),
            n <= 0xFFFF_FFFF,
            i <= n,
            t == eff_ratio_sum(ratios@, maximums@, i as int),
            -(i as int * 0x8000_0000) <= t <= i as int * 0x8000_0000,
        decreases n - i,
    {
        let m = *slice_index_get(maximums, i);
        if m != 0 {
            t = t + *slice_index_get(ratios, i) as i128;
        }
        i = i + 1;
    }
    if t == 0 {
        return values;
    }
    let mut rem: i128 = total as i128;
    let mut r: Vec<i32> = Vec::new();
    let mut j: usize = 0;
    while j < n
        invariant
            n == values@.len() == ratios@.len() == maximums@.len(),
            n <= 0xFFFF_FFFF,
            j <= n,
            r@.len() == j,
            -(0x8000_0000 + j as int * 0x1_0000_0000) <= rem <= 0x8000_0000 + j as int
                * 0x1_0000_0000,
            -(0x8000_0000_0000_0000 + j as int * 0x8000_0000) <= t <= 0x8000_0000_0000_0000
                + j as int * 0x8000_0000,
            reduce_fits(ratios@, maximums@, values@, j as int, rem as int, t as int),
            ratio_reduce_spec(total as int, ratios@, maximums@, values@) == int_values(r@)
                + reduce_from(ratios@, maximums@, values@, j as int, rem as int, t as int),
        decreases n - j,
    {
        let ghost r_pre = r@;
        let ratio = *slice_index_get(ratios, j);
        let maximum = *slice_index_get(maximums, j);
        let value = *slice_index_get(values.as_slice(), j);
        let er: i128 = if maximum == 0 {
            0
        } else {
            ratio as i128
        };
        if er != 0 && t > 0 {
            proof {
                assert(-(0x8000_0000 * 0x1_0000_0000_0000_0001) <= er as int * rem as int <= (
                0x8000_0000 * 0x1_0000_0000_0000_0001)) by (nonlinear_arith)
                    requires
                        -0x8000_0000 <= er as int <= 0x8000_0000,
                        -0x1_0000_0000_0000_0001 <= rem as int <= 0x1_0000_0000_0000_0001,
                ;
            }
            let num: i128 = er * rem;
            let mag: i128 = if num >= 0 {
                num
            } else {
                -num
            };
            proof {
                assert(2 * mag as int + t as int <= 2 * t as int * (mag as int + 1))
                    by (nonlinear_arith)
                    requires
                        t as int >= 1,
                        mag as int >= 0,
                ;
                lemma_fundamental_div_mod_converse(
                    2 * t as int * (mag as int + 1),
                    2 * t as int,
                    mag as int + 1,
                    0,
                );
                lemma_div_is_ordered(
                    2 * mag as int + t as int,
                    2 * t as int * (mag as int + 1),
                    2 * t as int,
                );
                lemma_div_pos_is_pos(2 * mag as int + t as int, 2 * t as int);
            }
            let half: i128 = (((2 * mag + t) as u128) / ((2 * t) as u128)) as i128;
            let rounded: i128 = if num >= 0 {
                half
            } else {
                -half
            };
            proof {
                assert(rounded as int == round_ratio(er as int * rem as int, t as int));
            }
            let d: i128 = if (maximum as i128) <= rounded {
                maximum as i128
            } else {
                rounded
            };
            proof {
                assert(d as int == min_int(maximum as int, round_ratio(
                    er as int * rem as int,
                    t as int,
                )));
                assert(i32::MIN <= value as int - d as int <= i32::MAX);
            }
            let x: i32 = (value as i128 - d) as i32;
            r.push(x);
            rem = rem - d;
            t = t - er;
            proof {
                assert(int_values(r@) =~= int_values(r_pre).push(value as int - d as int));
                assert((int_values(r_pre).push(value as int - d as int)) + reduce_from(
                    ratios@,
                    maximums@,
                    values@,
                    j + 1,
                    rem as int,
                    t as int,
                ) =~= int_values(r_pre) + (seq![value as int - d as int] + reduce_from(
                    ratios@,
                    maximums@,
                    values@,
                    j + 1,
                    rem as int,
                    t as int,
                )));
            }
        } else {
            r.push(value);
            proof {
                assert(int_values(r@) =~= int_values(r_pre).push(value as int));
                assert((int_values(r_pre).push(value as int)) + reduce_from(
                    ratios@,
                    maximums@,
                    values@,
                    j + 1,
                    rem as int,
                    t as int,
                ) =~= int_values(r_pre) + (seq![value as int] + reduce_from(
                    ratios@,
                    maximums@,
                    values@,
                    j + 1,
                    rem as int,
                    t as int,
                )));
            }
        }
        j = j + 1;
    }
    proof {
        assert(reduce_from(ratios@, maximums@, values@, n as int, rem as int, t as int)
            =~= Seq::<int>::empty());
        assert(int_values(r@) + Seq::<int>::empty() =~= int_values(r@));
    }
    r
}

/// The ratio `num / den` rounded up to the next integer.
pub open spec fn ceil_ratio(num: int, den: int) -> int {
    if num >= 0 {
        (num + den - 1) / den
    } else {
        -((-num) / den)
    }
}

/// The minimums of the slots: the given ones, or zero for every slot.
pub open spec fn mins_of(n: nat, minimums: Option<Seq<i32>>) -> Seq<int> {
    match minimums {
        Some(ms) => int_values(ms),
        None => Seq::new(n, |i: int| 0int),
    }
}

/// The ratios of the slots, zeroed wherever a given minimum is zero.
pub open spec fn adj_ratios(ratios: Seq<i32>, minimums: Option<Seq<i32>>) -> Seq<int> {
    match minimums {
        Some(ms) => Seq::new(
            ratios.len(),
            |i: int|
                if ms[i] == 0 {
                    0int
                } else {
                    ratios[i] as int
                },
        ),
        None => int_values(ratios),
    }
}

/// The sum of the first `i` entries.
pub open spec fn int_sum(s: Seq<int>, i: int) -> int
    decreases i,
{
    if i <= 0 {
        0
    } else {
        int_sum(s, i - 1) + s[i - 1]
    }
}

/// The shares handed out from slot `i` on, with `rem` still to hand out and
/// `t` the ratio weight not yet consumed: while weight is active, a slot
/// receives its proportional share rounded up, raised to its minimum;
/// once the weight is exhausted, the next slot receives everything left.
pub open spec fn distribute_from(rs: Seq<int>, ms: Seq<int>, i: int, rem: int, t: int) -> Seq<
    int,
>
    decreases rs.len() - i,
{
    if i < 0 || i >= rs.len() {
        Seq::empty()
    } else {
        let d = if t > 0 {
            max_int(ms[i], ceil_ratio(rs[i] * rem, t))
        } else {
            rem
        };
        seq![d] + distribute_from(rs, ms, i + 1, rem - d, t - rs[i])
    }
}

/// Every share handed out stays within the machine's signed 32-bit range.
pub open spec fn distribute_fits(rs: Seq<int>, ms: Seq<int>, i: int, rem: int, t: int) -> bool
    decreases rs.len() - i,
{
    if i < 0 || i >= rs.len() {
        true
    } else {
        let d = if t > 0 {
            max_int(ms[i], ceil_ratio(rs[i] * rem, t))
        } else {
            rem
        };
        i32::MIN <= d <= i32::MAX && distribute_fits(rs, ms, i + 1, rem - d, t - rs[i])
    }
}

/// The given minimums, as sequences, where minimums were given.
pub open spec fn min_views(m: Option<Vec<i32>>) -> Option<Seq<i32>> {
    match m {
        Some(v) => Some(v@),
        None => None,
    }
}

/// What `ratio_distribute` returns.
pub open spec fn ratio_distribute_spec(
    total: int,
    ratios: Seq<i32>,
    minimums: Option<Seq<i32>>,
) -> Seq<int> {
    let rs = adj_ratios(ratios, minimums);
    distribute_from(rs, mins_of(ratios.len(), minimums), 0, total, int_sum(rs, rs.len() as int))
}

/// All the machine limits `ratio_distribute` needs: no share leaves the
/// signed 32-bit range.
pub open spec fn ratio_distribute_fits(
    total: int,
    ratios: Seq<i32>,
    minimums: Option<Seq<i32>>,
) -> bool {
    let rs = adj_ratios(ratios, minimums);
    distribute_fits(rs, mins_of(ratios.len(), minimums), 0, total, int_sum(rs, rs.len() as int))
}

/// The sum of all the entries.
pub open spec fn seq_total(s: Seq<int>) -> int
    decreases s.len(),
{
    if s.len() == 0 {
        0
    } else {
        s[0] + seq_total(s.drop_first())
    }
}

/// Summing a prefix of every entry sums the head first.
proof fn lemma_int_sum_shift(s: Seq<int>, i: int)
    requires
        1 <= i <= s.len(),
    ensures
        int_sum(s, i) == s[0] + int_sum(s.drop_first(), i - 1),
    decreases i,
{
    if i == 1 {
        assert(int_sum(s, 1) == int_sum(s, 0) + s[0]);
        assert(int_sum(s, 0) == 0);
        assert(int_sum(s.drop_first(), 0) == 0);
    } else {
        lemma_int_sum_shift(s, i - 1);
        assert(s.drop_first()[i - 2] == s[i - 1]);
        assert(int_sum(s, i) == int_sum(s, i - 1) + s[i - 1]);
        assert(int_sum(s.drop_first(), i - 1) == int_sum(s.drop_first(), i - 2)
            + s.drop_first()[i - 2]);
    }
}

/// The two ways of summing a sequence agree.
proof fn lemma_seq_total_eq_int_sum(s: Seq<int>)
    ensures
        seq_total(s) == int_sum(s, s.len() as int),
    decreases s.len(),
{
    if s.len() > 0 {
        lemma_seq_total_eq_int_sum(s.drop_first());
        lemma_int_sum_shift(s, s.len() as int);
    }
}

/// With no minimums in play, the shares handed out from slot `i` on add up
/// to exactly the space still to hand out.
proof fn lemma_distribute_from_sum(rs: Seq<int>, ms: Seq<int>, i: int, rem: int, t: int)
    requires
        rs.len() == ms.len(),
        0 <= i <= rs.len(),
        rem >= 0,
        forall|m: int| 0 <= m < rs.len() ==> #[trigger] rs[m] >= 0,
        forall|m: int| 0 <= m < ms.len() ==> #[trigger] ms[m] == 0,
        t == seq_total(rs.skip(i)),
    ensures
        seq_total(distribute_from(rs, ms, i, rem, t)) == if i < rs.len() {
            rem
        } else {
            0
        },
    decreases rs.len() - i,
{
    let n = rs.len() as int;
    if i == n {
        assert(distribute_from(rs, ms, i, rem, t) =~= Seq::<int>::empty());
    } else {
        let r_i = rs[i];
        assert(rs.skip(i).drop_first() =~= rs.skip(i + 1));
        assert(rs.skip(i)[0] == r_i);
        assert(t == r_i + seq_total(rs.skip(i + 1)));
        let t2 = t - r_i;
        assert(t2 >= 0) by {
            lemma_skip_total_nonneg(rs, i + 1);
        }
        let d = if t > 0 {
            max_int(ms[i], ceil_ratio(r_i * rem, t))
        } else {
            rem
        };
        if t > 0 {
            assert(r_i * rem >= 0) by (nonlinear_arith)
                requires
                    r_i >= 0,
                    rem >= 0,
            ;
            assert(r_i * rem + t - 1 <= t * rem + t - 1) by (nonlinear_arith)
                requires
                    r_i <= t,
                    rem >= 0,
            ;
            lemma_fundamental_div_mod_converse(t * rem + t - 1, t, rem, t - 1);
            lemma_div_is_ordered(r_i * rem + t - 1, t * rem + t - 1, t);
            lemma_div_pos_is_pos(r_i * rem + t - 1, t);
            assert(0 <= ceil_ratio(r_i * rem, t) <= rem);
            assert(0 <= d <= rem);
            if t2 == 0 {
                assert(r_i == t);
                assert(ceil_ratio(r_i * rem, t) == rem) by {
                    lemma_fundamental_div_mod_converse(t * rem + t - 1, t, rem, t - 1);
                    assert(r_i * rem + t - 1 == t * rem + t - 1) by (nonlinear_arith)
                        requires
                            r_i == t,
                    ;
                }
                assert(d == rem);
            }
        } else {
            assert(t == 0);
            assert(d == rem);
        }
        lemma_distribute_from_sum(rs, ms, i + 1, rem - d, t2);
        let rest = distribute_from(rs, ms, i + 1, rem - d, t2);
        assert(distribute_from(rs, ms, i, rem, t) == seq![d] + rest);
        assert((seq![d] + rest).drop_first() =~= rest);
        assert((seq![d] + rest)[0] == d);
        if i + 1 < n {
            assert(seq_total(rest) == rem - d);
        } else {
            assert(rest =~= Seq::<int>::empty());
            assert(d == rem);
        }
    }
}

/// A suffix of nonnegative entries has a nonnegative sum.
proof fn lemma_skip_total_nonneg(rs: Seq<int>, i: int)
    requires
        0 <= i <= rs.len(),
        forall|m: int| 0 <= m < rs.len() ==> #[trigger] rs[m] >= 0,
    ensures
        seq_total(rs.skip(i)) >= 0,
    decreases rs.len() - i,
{
    if i < rs.len() {
        assert(rs.skip(i).drop_first() =~= rs.skip(i + 1));
        assert(rs.skip(i)[0] == rs[i]);
        lemma_skip_total_nonneg(rs, i + 1);
    } else {
        assert(rs.skip(i) =~= Seq::<int>::empty());
    }
}

/// Distribution is exact: with no minimums given and nonnegative ratios, the
/// shares handed out sum to exactly `total`.
pub proof fn lemma_ratio_distribute_sums_to_total(total: int, ratios: Seq<i32>)
    requires
        ratios.len() >= 1,
        total >= 0,
        forall|m: int| 0 <= m < ratios.len() ==> #[trigger] ratios[m] >= 0,
    ensures
        seq_total(ratio_distribute_spec(total, ratios, None)) == total,
{
    let rs = adj_ratios(ratios, None);
    let ms = mins_of(ratios.len(), None);
    assert(rs =~= int_values(ratios));
    assert(forall|m: int| 0 <= m < rs.len() ==> #[trigger] rs[m] >= 0);
    assert(forall|m: int| 0 <= m < ms.len() ==> #[trigger] ms[m] == 0);
    lemma_seq_total_eq_int_sum(rs);
    assert(rs.skip(0) =~= rs);
    lemma_distribute_from_sum(rs, ms, 0, total, int_sum(rs, rs.len() as int));
}

/// Distribute `total` into shares proportional to `ratios`, each share
/// rounded up and raised to its slot's minimum; a slot whose given minimum
/// is zero gets ratio zero, proportions are renormalized as each slot is
/// consumed, and once the ratio weight is exhausted the next slot receives
/// whatever remains.
pub fn ratio_distribute(total: i32, ratios: Vec<i32>, minimums: Option<Vec<i32>>) -> (r: Vec<
    i32,
>)
    requires
        ratios@.len() <= 0xFFFF_FFFF,
        match minimums {
            Some(ms) => ms@.len() == ratios@.len(),
            None => true,
        },
        ratio_distribute_fits(total as int, ratios@, min_views(minimums)),
    ensures
        int_values(r@) == ratio_distribute_spec(total as int, ratios@, min_views(minimums)),
{
    let ghost rs = adj_ratios(ratios@, min_views(minimums));
    let ghost msv = mins_of(ratios@.len(), min_views(minimums));
    let n = ratios.len();
    let mut adj: Vec<i32> = Vec::new();
    let mut mins: Vec<i32> = Vec::new();
    match &minimums {
        Some(ms) => {
            let mut i: usize = 0;
            while i < n
                invariant
                    rs == adj_ratios(ratios@, min_views(minimums)),
                    msv == mins_of(ratios@.len(), min_views(minimums)),
                    minimums == Some(*ms),
                    ms@.len() == n == ratios@.len(),
                    i <= n,
                    adj@.len() == i,
                    mins@.len() == i,
                    forall|m: int| 0 <= m < i ==> (#[trigger] adj@[m]) as int == rs[m],
                    forall|m: int| 0 <= m < i ==> (#[trigger] mins@[m]) as int == msv[m],
                decreases n - i,
            {
                let v = *slice_index_get(ms.as_slice(), i);
                if v == 0 {
                    adj.push(0);
                } else {
                    adj.push(*slice_index_get(ratios.as_slice(), i));
                }
                mins.push(v);
                i = i + 1;
            }
        },
        None => {
            let mut i: usize = 0;
            while i < n
                invariant
                    rs == adj_ratios(ratios@, min_views(minimums)),
                    msv == mins_of(ratios@.len(), min_views(minimums)),
                    minimums is None,
                    n == ratios@.len(),
                    i <= n,
                    adj@.len() == i,
                    mins@.len() == i,
                    forall|m: int| 0 <= m < i ==> (#[trigger] adj@[m]) as int == rs[m],
                    forall|m: int| 0 <= m < i ==> (#[trigger] mins@[m]) as int == msv[m],
                decreases n - i,
            {
                adj.push(*slice_index_get(ratios.as_slice(), i));
                mins.push(0);
                i = i + 1;
            }
        },
    }
    let mut t: i128 = 0;
    let mut i: usize = 0;
    while i < n
        invariant
            n == rs.len(),
            adj@.len() == n,
            i <= n,
            forall|m: int| 0 <= m < n ==> (#[trigger] adj@[m]) as int == rs[m],
            t == int_sum(rs, i as int),
            -(i as int * 0x8000_0000) <= t <= i as int * 0x8000_0000,
        decreases n - i,
    {
        t = t + *slice_index_get(adj.as_slice(), i) as i128;
        i = i + 1;
    }
    let mut rem: i128 = total as i128;
    let mut r: Vec<i32> = Vec::new();
    let mut j: usize = 0;
    while j < n
        invariant
            n == rs.len() == msv.len(),
            n <= 0xFFFF_FFFF,
            adj@.len() == n,
            mins@.len() == n,
            forall|m: int| 0 <= m < n ==> (#[trigger] adj@[m]) as int == rs[m],
            forall|m: int| 0 <= m < n ==> (#[trigger] mins@[m]) as int == msv[m],
            j <= n,
            r@.len() == j,
            -(0x8000_0000 + j as int * 0x8000_0000) <= rem <= 0x8000_0000 + j as int
                * 0x8000_0000,
            -(0x8000_0000_0000_0000 + j as int * 0x8000_0000) <= t <= 0x8000_0000_0000_0000
                + j as int * 0x8000_0000,
            distribute_fits(rs, msv, j as int, rem as int, t as int),
            ratio_distribute_spec(total as int, ratios@, min_views(minimums)) == int_values(r@)
                + distribute_from(rs, msv, j as int, rem as int, t as int),
        decreases n - j,
    {
        let ghost r_pre = r@;
        let ratio = *slice_index_get(adj.as_slice(), j);
        let minimum = *slice_index_get(mins.as_slice(), j);
        let d: i128 = if t > 0 {
            proof {
                assert(-(0x8000_0000 * 0x1_0000_0000_0000_0000) <= ratio as int * rem as int <= (
                0x8000_0000 * 0x1_0000_0000_0000_0000)) by (nonlinear_arith)
                    requires
                        -0x8000_0000 <= ratio as int <= 0x8000_0000,
                        -0x1_0000_0000_0000_0000 <= rem as int <= 0x1_0000_0000_0000_0000,
                ;
            }
            let num: i128 = (ratio as i128) * rem;
            let shared: i128 = if num >= 0 {
                proof {
                    assert(num as int + t as int - 1 <= t as int * (num as int + 1))
                        by (nonlinear_arith)
                        requires
                            t as int >= 1,
                            num as int >= 0,
                    ;
                    lemma_fundamental_div_mod_converse(
                        t as int * (num as int + 1),
                        t as int,
                        num as int + 1,
                        0,
                    );
                    lemma_div_is_ordered(
                        num as int + t as int - 1,
                        t as int * (num as int + 1),
                        t as int,
                    );
                    lemma_div_pos_is_pos(num as int + t as int - 1, t as int);
                }
                (((num + t - 1) as u128) / (t as u128)) as i128
            } else {
                proof {
                    assert((-num) as int <= t as int * (-num) as int) by (nonlinear_arith)
                        requires
                            t as int >= 1,
                            (-num) as int >= 0,
                    ;
                    lemma_fundamental_div_mod_converse(
                        t as int * (-num) as int,
                        t as int,
                        (-num) as int,
                        0,
                    );
                    lemma_div_is_ordered((-num) as int, t as int * (-num) as int, t as int);
                    lemma_div_pos_is_pos((-num) as int, t as int);
                }
                -((((-num) as u128) / (t as u128)) as i128)
            };
            proof {
                assert(shared as int == ceil_ratio(rs[j as int] * rem as int, t as int));
            }
            if (minimum as i128) >= shared {
                minimum as i128
            } else {
                shared
            }
        } else {
            rem
        };
        proof {
            assert(distribute_fits(rs, msv, j as int, rem as int, t as int));
            assert(i32::MIN <= d as int <= i32::MAX);
        }
        r.push(d as i32);
        rem = rem - d;
        t = t - ratio as i128;
        proof {
            assert(int_values(r@) =~= int_values(r_pre).push(d as int));
            assert((int_values(r_pre).push(d as int)) + distribute_from(
                rs,
                msv,
                j + 1,
                rem as int,
                t as int,
            ) =~= int_values(r_pre) + (seq![d as int] + distribute_from(
                rs,
                msv,
                j + 1,
                rem as int,
                t as int,
            )));
        }
        j = j + 1;
    }
    proof {
        assert(distribute_from(rs, msv, n as int, rem as int, t as int) =~= Seq::<int>::empty());
        assert(int_values(r@) + Seq::<int>::empty() =~= int_values(r@));
    }
    r
}

} // verus!
