//! Partitioning of the candidate space across workers.  The space
//! `[0, space)` is split into `nb_threads` contiguous ranges of
//! `floor(space / nb_threads)` candidates each; whatever remains goes to
//! the final range, whose upper limit is exactly `space`, so the union of
//! all ranges covers the space with no gap and no overlap.

use vstd::arithmetic::div_mod::lemma_fundamental_div_mod;
use vstd::arithmetic::mul::lemma_mul_inequality;
use vstd::prelude::*;

verus! {

/// One worker's half-open sub-range `[lower, upper)` of the candidate
/// space.
#[derive(Clone, Copy, PartialEq, Eq, Structural)]
pub struct WorkerRange {
    pub lower: u128,
    pub upper: u128,
}

impl WorkerRange {
    /// The candidate `v` belongs to this range.
    pub open spec fn spec_contains(self, v: u128) -> bool {
        self.lower <= v < self.upper
    }
}

/// The ranges tile an initial segment: each starts at zero or at its
/// predecessor's upper limit, and none runs backwards.
pub open spec fn ranges_contiguous(rs: Seq<WorkerRange>) -> bool {
    &&& forall|i: int| 0 <= i < rs.len() ==> (#[trigger] rs[i]).lower <= rs[i].upper
    &&& forall|i: int| 0 < i < rs.len() ==> (#[trigger] rs[i]).lower == rs[i - 1].upper
}

/// Relies on num::Integer::div_floor, which on unsigned integers is plain
/// truncating division.
#[verifier::external_body]
fn div_floor_u128(a: u128, b: u128) -> (r: u128)
    requires
        b != 0,
    ensures
        r == a / b,
{
    num::Integer::div_floor(&a, &b)
}

/// Splits `[0, space)` into `nb_threads` contiguous ranges: every range
/// but the last holds exactly `floor(space / nb_threads)` candidates, and
/// the last ends at `space` itself.
pub fn worker_ranges(space: u128, nb_threads: u32) -> (r: Vec<WorkerRange>)
    requires
        nb_threads >= 1,
    ensures
        r@.len() == nb_threads,
        r@[0].lower == 0,
        r@[r@.len() - 1].upper == space,
        ranges_contiguous(r@),
        forall|i: int|
            0 <= i < r@.len() - 1 ==> (#[trigger] r@[i]).upper - r@[i].lower == space / (
            nb_threads as u128),
{
    let chunk = div_floor_u128(space, nb_threads as u128);
    proof {
        lemma_fundamental_div_mod(space as int, nb_threads as int);
        assert(nb_threads * chunk <= space);
    }
    let mut ranges: Vec<WorkerRange> = Vec::new();
    let mut k: u32 = 0;
    while k < nb_threads
        invariant
            0 <= k <= nb_threads,
            chunk == space / (nb_threads as u128),
            nb_threads * chunk <= space,
            ranges@.len() == k,
            k > 0 ==> ranges@[0].lower == 0,
            k > 0 ==> ranges@[k - 1].upper == if k == nb_threads {
                space as int
            } else {
                k * chunk
            },
            ranges_contiguous(ranges@),
            forall|i: int|
                0 <= i < k && i < nb_threads - 1 ==> (#[trigger] ranges@[i]).upper
                    - ranges@[i].lower == chunk,
        decreases nb_threads - k,
    {
        proof {
            lemma_mul_inequality(k as int, nb_threads as int, chunk as int);
            lemma_mul_inequality(k + 1 as int, nb_threads as int, chunk as int);
        }
        let lower: u128 = (k as u128) * chunk;
        let upper: u128 = if k + 1 == nb_threads {
            space
        } else {
            (k as u128 + 1) * chunk
        };
        proof {
            assert((k + 1) * (chunk as int) == k * (chunk as int) + chunk) by {
                vstd::arithmetic::mul::lemma_mul_is_distributive_add_other_way(
                    chunk as int,
                    k as int,
                    1,
                );
            }
            assert(lower <= upper);
        }
        ranges.push(WorkerRange { lower, upper });
        k = k + 1;
    }
    ranges
}

/// The candidate `v` lies in at least one of the ranges.
pub open spec fn in_some_range(rs: Seq<WorkerRange>, v: u128) -> bool {
    exists|i: int| 0 <= i < rs.len() && #[trigger] rs[i].spec_contains(v)
}

/// Within a contiguous tiling the upper limits never decrease from one
/// range to a later one's lower limit.
proof fn lemma_ranges_sorted(rs: Seq<WorkerRange>, i: int, j: int)
    requires
        ranges_contiguous(rs),
        0 <= i < j < rs.len(),
    ensures
        rs[i].upper <= rs[j].lower,
    decreases j - i,
{
    if i + 1 < j {
        lemma_ranges_sorted(rs, i + 1, j);
    }
}

/// Every candidate below the last upper limit falls in some range.
proof fn lemma_ranges_reach(rs: Seq<WorkerRange>, v: u128)
    requires
        ranges_contiguous(rs),
        rs.len() >= 1,
        rs[0].lower == 0,
        v < rs[rs.len() - 1].upper,
    ensures
        in_some_range(rs, v),
    decreases rs.len(),
{
    let last = rs.len() - 1;
    if v >= rs[last].lower {
        assert(rs[last].spec_contains(v));
    } else {
        let prefix = rs.drop_last();
        assert(ranges_contiguous(prefix)) by {
            assert(forall|i: int| 0 <= i < prefix.len() ==> prefix[i] == rs[i]);
        }
        lemma_ranges_reach(prefix, v);
        let i = choose|i: int| 0 <= i < prefix.len() && #[trigger] prefix[i].spec_contains(v);
        assert(rs[i].spec_contains(v));
        assert(in_some_range(rs, v));
    }
}

/// Coverage: contiguous ranges that start at zero and end at `space`
/// split `[0, space)` exactly.  A candidate lies in some range if and only
/// if it lies below `space`, and never in two distinct ranges.
pub proof fn lemma_partition_exact_cover(rs: Seq<WorkerRange>, space: u128)
    requires
        rs.len() >= 1,
        rs[0].lower == 0,
        rs[rs.len() - 1].upper == space,
        ranges_contiguous(rs),
    ensures
        forall|v: u128| #[trigger] in_some_range(rs, v) <==> v < space,
        forall|i: int, j: int, v: u128|
            0 <= i < j < rs.len() && #[trigger] rs[i].spec_contains(v) ==> !#[trigger] rs[j].spec_contains(v),
{
    assert forall|v: u128| v < space implies #[trigger] in_some_range(rs, v) by {
        lemma_ranges_reach(rs, v);
    }
    assert forall|v: u128| #[trigger] in_some_range(rs, v) implies v < space by {
        let i = choose|i: int| 0 <= i < rs.len() && #[trigger] rs[i].spec_contains(v);
        if i < rs.len() - 1 {
            lemma_ranges_sorted(rs, i, rs.len() - 1);
        }
    }
    assert forall|i: int, j: int, v: u128|
        0 <= i < j < rs.len() && #[trigger] rs[i].spec_contains(v) implies !#[trigger] rs[j].spec_contains(v) by {
        lemma_ranges_sorted(rs, i, j);
    }
}

} // verus!
