//! Mathematical model of the estimation run.
//!
//! The executable code in `estimator` is specified against the functions
//! here. Distances are modelled exactly (an integer sum of squares under the
//! named square root); the density scores are modelled as f64 bit patterns
//! combined through the canonical score operations of `fbits` (NaN payloads
//! folded to one quiet NaN, so each is a pure function of its operand bits),
//! applied to two "influence" matrices that hold, for every ordered pair of
//! candidates, the decayed contribution of one to the other's potential or
//! suppression.
//!
//! An accepted center is recorded as `(potential_bits, candidate_index)`;
//! the run state is the ordered, append-only sequence of such records.

use vstd::prelude::*;
use crate::fbits::{add_score, sub_score, mul_score, div_u8_score, gt_bits, sqrt_of_int,
    INF_BITS};

verus! {

/// The errors of an estimation run: an empty candidate set, or a round in
/// which no candidate's net score rose strictly above the +0.0 baseline
/// while the stopping rule did not yet allow the run to end.
#[derive(Clone, Copy, Debug, PartialEq, Eq, Structural)]
pub enum EstimateError {
    EmptyInput,
    NoPeak,
}

// ---------------------------------------------------------------------------
// Distance
// ---------------------------------------------------------------------------

pub open spec fn sq(x: int) -> int {
    x * x
}

/// Sum of squared coordinate differences over the first `n` coordinates.
pub open spec fn dist_sq_to(p: Seq<i16>, q: Seq<i16>, n: int) -> int
    decreases n,
{
    if n <= 0 {
        0
    } else {
        dist_sq_to(p, q, n - 1) + sq(p[n - 1] - q[n - 1])
    }
}

/// Exact squared Euclidean distance between two equal-dimension points.
pub open spec fn dist_sq(p: Seq<i16>, q: Seq<i16>) -> int {
    dist_sq_to(p, q, p.len() as int)
}

/// The Euclidean distance as f64 bits: the square root of the exact integer
/// sum of squares. Meaningful whenever that sum fits in a `u64`, which the
/// executable code guarantees by bounding the dimension.
pub open spec fn dist_bits(p: Seq<i16>, q: Seq<i16>) -> u64 {
    sqrt_of_int(dist_sq(p, q) as u64)
}

pub proof fn lemma_sq_nonneg(x: int)
    ensures
        sq(x) >= 0,
{
    assert(x * x >= 0) by (nonlinear_arith);
}

pub proof fn lemma_dist_sq_to_nonneg(p: Seq<i16>, q: Seq<i16>, n: int)
    ensures
        dist_sq_to(p, q, n) >= 0,
    decreases n,
{
    if n > 0 {
        lemma_dist_sq_to_nonneg(p, q, n - 1);
        lemma_sq_nonneg(p[n - 1] - q[n - 1]);
    }
}

/// A point is at distance zero from itself: every squared difference is 0.
pub proof fn lemma_dist_sq_self(p: Seq<i16>, q: Seq<i16>, n: int)
    requires
        forall|i: int| 0 <= i < n ==> p[i] == q[i],
    ensures
        dist_sq_to(p, q, n) == 0,
    decreases n,
{
    if n > 0 {
        lemma_dist_sq_self(p, q, n - 1);
        assert(p[n - 1] == q[n - 1]);
        assert(sq(0) == 0);
    }
}

/// The distance is symmetric: each squared difference is, so the sum is,
/// and the square root of equal integers has equal bits.
pub proof fn lemma_dist_sq_symmetric(p: Seq<i16>, q: Seq<i16>, n: int)
    ensures
        dist_sq_to(p, q, n) == dist_sq_to(q, p, n),
    decreases n,
{
    if n > 0 {
        lemma_dist_sq_symmetric(p, q, n - 1);
        assert(sq(p[n - 1] - q[n - 1]) == sq(q[n - 1] - p[n - 1])) by (nonlinear_arith);
    }
}

/// Symmetry of the distance itself, at the level of f64 bits.
pub proof fn lemma_distance_symmetric(p: Seq<i16>, q: Seq<i16>)
    requires
        p.len() == q.len(),
    ensures
        dist_bits(p, q) == dist_bits(q, p),
{
    lemma_dist_sq_symmetric(p, q, p.len() as int);
}

proof fn lemma_unit_corner_dist_sq_to(p: Seq<i16>, q: Seq<i16>, n: int)
    requires
        0 <= n,
        forall|i: int| 0 <= i < n ==> p[i] == 0,
        forall|i: int| 0 <= i < n ==> q[i] == 1,
    ensures
        dist_sq_to(p, q, n) == n,
    decreases n,
{
    if n > 0 {
        lemma_unit_corner_dist_sq_to(p, q, n - 1);
        assert(p[n - 1] == 0 && q[n - 1] == 1);
        assert(sq(0 - 1) == 1);
    }
}

/// Between a corner of the unit hypercube and the opposite corner, the
/// squared distance is the dimension D itself, so the distance is the
/// square root of D.
pub proof fn lemma_unit_corner_distance(p: Seq<i16>, q: Seq<i16>)
    requires
        p.len() == q.len(),
        forall|i: int| 0 <= i < p.len() ==> p[i] == 0,
        forall|i: int| 0 <= i < q.len() ==> q[i] == 1,
    ensures
        dist_sq(p, q) == p.len(),
        dist_bits(p, q) == sqrt_of_int(p.len() as u64),
{
    lemma_unit_corner_dist_sq_to(p, q, p.len() as int);
}

// ---------------------------------------------------------------------------
// Scores over the influence matrices
// ---------------------------------------------------------------------------

/// The views of a vector of candidate points.
pub open spec fn point_views(points: Seq<Vec<i16>>) -> Seq<Seq<i16>> {
    Seq::new(points.len(), |i: int| points[i]@)
}

/// The views of the rows of an influence matrix.
pub open spec fn row_views(m: Seq<Vec<u64>>) -> Seq<Seq<u64>> {
    Seq::new(m.len(), |i: int| m[i]@)
}

/// All candidate points share one dimension.
pub open spec fn rect(points: Seq<Seq<i16>>) -> bool {
    forall|i: int| 0 <= i < points.len() ==> (#[trigger] points[i]).len() == points[0].len()
}

/// An `n` by `n` matrix.
pub open spec fn square(m: Seq<Seq<u64>>, n: int) -> bool {
    m.len() == n && forall|i: int| 0 <= i < n ==> (#[trigger] m[i]).len() == n
}

/// Every accepted record points at a candidate index below `n`.
pub open spec fn acc_wf(acc: Seq<(u64, usize)>, n: int) -> bool {
    forall|k: int| 0 <= k < acc.len() ==> (#[trigger] acc[k]).1 < n
}

/// The f64 left fold of the first `n` influence terms, starting from +0.0,
/// added in candidate order.
pub open spec fn fold_add(s: Seq<u64>, n: int) -> u64
    decreases n,
{
    if n <= 0 {
        0u64
    } else {
        add_score(fold_add(s, n - 1), s[n - 1])
    }
}

/// The potential of candidate `i`: the f64 sum of the influence of every
/// candidate on `i`, in candidate order.
pub open spec fn potential_at(pot: Seq<Seq<u64>>, i: int) -> u64 {
    fold_add(pot[i], pot[i].len() as int)
}

/// The suppression accumulated at candidate `i` from the first `k` accepted
/// records: each contributes its potential times its influence on `i`,
/// added in acceptance order.
pub open spec fn bias_to(acc: Seq<(u64, usize)>, biasm: Seq<Seq<u64>>, i: int, k: int) -> u64
    decreases k,
{
    if k <= 0 {
        0u64
    } else {
        add_score(
            bias_to(acc, biasm, i, k - 1),
            mul_score(acc[k - 1].0, biasm[acc[k - 1].1 as int][i]),
        )
    }
}

pub open spec fn bias_at(acc: Seq<(u64, usize)>, biasm: Seq<Seq<u64>>, i: int) -> u64 {
    bias_to(acc, biasm, i, acc.len() as int)
}

/// The net score of candidate `i`: potential minus suppression, in f64.
pub open spec fn net_at(
    pot: Seq<Seq<u64>>,
    biasm: Seq<Seq<u64>>,
    acc: Seq<(u64, usize)>,
    i: int,
) -> u64 {
    sub_score(potential_at(pot, i), bias_at(acc, biasm, i))
}

/// The peak search over the first `n` candidates: the running maximum starts
/// at +0.0 with no position, and a candidate takes it only by a strictly
/// greater net score, so the earliest of equals wins.
pub open spec fn scan_to(
    pot: Seq<Seq<u64>>,
    biasm: Seq<Seq<u64>>,
    acc: Seq<(u64, usize)>,
    n: int,
) -> (u64, Option<usize>)
    decreases n,
{
    if n <= 0 {
        (0u64, Option::<usize>::None)
    } else {
        let prev = scan_to(pot, biasm, acc, n - 1);
        let s = net_at(pot, biasm, acc, n - 1);
        if gt_bits(s, prev.0) {
            (s, Option::Some((n - 1) as usize))
        } else {
            prev
        }
    }
}

/// The peak search over the whole candidate set.
pub open spec fn scan(pot: Seq<Seq<u64>>, biasm: Seq<Seq<u64>>, acc: Seq<(u64, usize)>) -> (
    u64,
    Option<usize>,
) {
    scan_to(pot, biasm, acc, pot.len() as int)
}

/// The main loop from iteration `iters` on: stop (keeping `acc`) once more
/// than 99 further rounds ran or the threshold exceeds the peak; fail when a
/// round finds no peak and the stopping rule does not end the run; otherwise
/// accept the peak and continue.
pub open spec fn run_from(
    pot: Seq<Seq<u64>>,
    biasm: Seq<Seq<u64>>,
    edge: u64,
    acc: Seq<(u64, usize)>,
    iters: int,
) -> Option<Seq<(u64, usize)>>
    decreases 100 - iters,
{
    let peak = scan(pot, biasm, acc);
    if iters > 99 || gt_bits(edge, peak.0) {
        Option::Some(acc)
    } else {
        match peak.1 {
            Option::None => Option::None,
            Option::Some(b) => run_from(pot, biasm, edge, acc.push((peak.0, b)), iters + 1),
        }
    }
}

/// The whole run: reject an empty candidate set; find the first peak with no
/// suppression and accept it unconditionally; fix the threshold as that
/// peak's potential over the edge divisor; then loop.
pub open spec fn estimate_spec(pot: Seq<Seq<u64>>, biasm: Seq<Seq<u64>>, d: u8) -> Result<
    Seq<(u64, usize)>,
    EstimateError,
> {
    if pot.len() == 0 {
        Result::Err(EstimateError::EmptyInput)
    } else {
        let first = scan(pot, biasm, Seq::<(u64, usize)>::empty());
        match first.1 {
            Option::None => Result::Err(EstimateError::NoPeak),
            Option::Some(b0) => {
                let edge = div_u8_score(first.0, d);
                match run_from(pot, biasm, edge, seq![(first.0, b0)], 0) {
                    Option::None => Result::Err(EstimateError::NoPeak),
                    Option::Some(acc) => Result::Ok(acc),
                }
            },
        }
    }
}

/// The net peak of the round right after the unconditional first
/// acceptance: the maximum of the scan against the one-record list the run
/// starts with (+0.0 when the first scan already found nothing).
pub open spec fn second_round_peak(pot: Seq<Seq<u64>>, biasm: Seq<Seq<u64>>) -> u64 {
    let first = scan(pot, biasm, Seq::<(u64, usize)>::empty());
    match first.1 {
        Option::None => 0u64,
        Option::Some(b0) => scan(pot, biasm, seq![(first.0, b0)]).0,
    }
}

/// With the edge divisor 0 the threshold is `+infinity`, which exceeds the
/// second round's peak unless that peak is itself `+infinity`, so a
/// successful run keeps exactly the unconditional first center.
pub open spec fn edge_zero_single_row(
    pot: Seq<Seq<u64>>,
    biasm: Seq<Seq<u64>>,
    d: u8,
    r: Result<Vec<Vec<i16>>, EstimateError>,
) -> bool {
    d == 0 && second_round_peak(pot, biasm) != INF_BITS ==> (r matches Result::Ok(rows)
        ==> rows@.len() == 1)
}

/// The locations of the accepted records, in acceptance order.
pub open spec fn rows_of(points: Seq<Seq<i16>>, acc: Seq<(u64, usize)>) -> Seq<Seq<i16>> {
    Seq::new(acc.len(), |k: int| points[acc[k].1 as int])
}

/// What an estimation result must be, given the candidate set and its two
/// influence matrices: exactly the rows of the accepted records when the
/// model accepts, and exactly the model's error when it fails.
pub open spec fn result_matches(
    points: Seq<Seq<i16>>,
    pot: Seq<Seq<u64>>,
    biasm: Seq<Seq<u64>>,
    d: u8,
    r: Result<Vec<Vec<i16>>, EstimateError>,
) -> bool {
    match estimate_spec(pot, biasm, d) {
        Result::Ok(acc) => r matches Result::Ok(rows) && point_views(rows@) == rows_of(
            points,
            acc,
        ),
        Result::Err(e) => r == Result::<Vec<Vec<i16>>, EstimateError>::Err(e),
    }
}

// ---------------------------------------------------------------------------
// Laws of the peak search
// ---------------------------------------------------------------------------

/// What the peak search guarantees. When it returns a position: the position
/// is in range, the maximum is that candidate's net score, the score beat
/// the running maximum of the earlier candidates, and no later candidate
/// strictly beats it (under f64's `>`; ties keep the earlier candidate).
/// When it returns no position, no candidate's net score strictly exceeded
/// the +0.0 baseline.
pub proof fn lemma_scan_props(
    pot: Seq<Seq<u64>>,
    biasm: Seq<Seq<u64>>,
    acc: Seq<(u64, usize)>,
    n: int,
)
    requires
        n <= usize::MAX,
    ensures
        scan_to(pot, biasm, acc, n).1 matches Some(i) ==> {
            &&& 0 <= (i as int) && (i as int) < n
            &&& scan_to(pot, biasm, acc, n).0 == net_at(pot, biasm, acc, i as int)
            &&& gt_bits(net_at(pot, biasm, acc, i as int), scan_to(pot, biasm, acc, i as int).0)
            &&& forall|j: int|
                (i as int) < j < n ==> !gt_bits(
                    net_at(pot, biasm, acc, j),
                    scan_to(pot, biasm, acc, n).0,
                )
        },
        scan_to(pot, biasm, acc, n).1 is None ==> scan_to(pot, biasm, acc, n).0 == 0 && forall|
            j: int,
        |
            0 <= j < n ==> !gt_bits(net_at(pot, biasm, acc, j), 0),
    decreases n,
{
    if n > 0 {
        lemma_scan_props(pot, biasm, acc, n - 1);
    }
}

/// How far the loop can grow the accepted list, and what it preserves: the
/// records it started with stay in place (the list is append-only), every
/// accepted index is in range, and at most `100 - iters` further records are
/// added.
pub proof fn lemma_run_from_props(
    pot: Seq<Seq<u64>>,
    biasm: Seq<Seq<u64>>,
    edge: u64,
    acc: Seq<(u64, usize)>,
    iters: int,
)
    requires
        0 <= iters <= 100,
        acc_wf(acc, pot.len() as int),
        pot.len() <= usize::MAX,
    ensures
        run_from(pot, biasm, edge, acc, iters) matches Some(res) ==> {
            &&& res.len() >= acc.len()
            &&& res.len() <= acc.len() + 100 - iters
            &&& res.take(acc.len() as int) == acc
            &&& acc_wf(res, pot.len() as int)
        },
    decreases 100 - iters,
{
    let peak = scan(pot, biasm, acc);
    if iters > 99 || gt_bits(edge, peak.0) {
        assert(acc.take(acc.len() as int) =~= acc);
    } else {
        match peak.1 {
            Option::None => {},
            Option::Some(b) => {
                lemma_scan_props(pot, biasm, acc, pot.len() as int);
                let pushed = acc.push((peak.0, b));
                assert(acc_wf(pushed, pot.len() as int));
                lemma_run_from_props(pot, biasm, edge, pushed, iters + 1);
                match run_from(pot, biasm, edge, acc, iters) {
                    Option::Some(res) => {
                        assert(res.take(pushed.len() as int) == pushed);
                        assert(res.take(acc.len() as int) =~= acc) by {
                            assert(forall|t: int|
                                0 <= t < acc.len() ==> res.take(pushed.len() as int)[t]
                                    == #[trigger] res.take(acc.len() as int)[t]);
                        }
                    },
                    Option::None => {},
                }
            },
        }
    }
}

/// An accepted outcome holds between 1 and 101 records, each pointing at a
/// candidate in range.
pub proof fn lemma_estimate_spec_bounds(pot: Seq<Seq<u64>>, biasm: Seq<Seq<u64>>, d: u8)
    requires
        pot.len() <= usize::MAX,
    ensures
        estimate_spec(pot, biasm, d) matches Ok(acc) ==> {
            &&& 1 <= acc.len() <= 101
            &&& acc_wf(acc, pot.len() as int)
        },
{
    if pot.len() > 0 {
        let empty = Seq::<(u64, usize)>::empty();
        let first = scan(pot, biasm, empty);
        lemma_scan_props(pot, biasm, empty, pot.len() as int);
        match first.1 {
            Option::Some(b0) => {
                let init = seq![(first.0, b0)];
                assert(acc_wf(init, pot.len() as int));
                lemma_run_from_props(pot, biasm, div_u8_score(first.0, d), init, 0);
            },
            Option::None => {},
        }
    }
}

/// The first returned record is the peak of the suppression-free reference
/// scan: the run accepts it unconditionally before any further round, and
/// the loop only appends. Its score is the winner's raw net score (the
/// suppression term of an empty list is +0.0), it strictly beat the running
/// maximum of the earlier candidates, and no later candidate strictly beat
/// it, under f64's `>` (ties keep the earlier candidate).
pub proof fn lemma_first_center_is_reference_peak(pot: Seq<Seq<u64>>, biasm: Seq<Seq<u64>>, d: u8)
    requires
        pot.len() <= usize::MAX,
    ensures
        estimate_spec(pot, biasm, d) matches Ok(acc) ==> {
            let empty = Seq::<(u64, usize)>::empty();
            let first = scan(pot, biasm, empty);
            &&& first.1 matches Some(b0) && {
                &&& acc[0] == (first.0, b0)
                &&& first.0 == net_at(pot, biasm, empty, b0 as int)
                &&& gt_bits(first.0, scan_to(pot, biasm, empty, b0 as int).0)
                &&& forall|j: int|
                    (b0 as int) < j < pot.len() ==> !gt_bits(net_at(pot, biasm, empty, j), first.0)
            }
        },
{
    if pot.len() > 0 {
        let empty = Seq::<(u64, usize)>::empty();
        let first = scan(pot, biasm, empty);
        lemma_scan_props(pot, biasm, empty, pot.len() as int);
        match first.1 {
            Option::Some(b0) => {
                let init = seq![(first.0, b0)];
                assert(acc_wf(init, pot.len() as int));
                lemma_run_from_props(pot, biasm, div_u8_score(first.0, d), init, 0);
                match run_from(pot, biasm, div_u8_score(first.0, d), init, 0) {
                    Option::Some(res) => {
                        assert(res.take(1) == init);
                        assert(res[0] == res.take(1)[0]);
                    },
                    Option::None => {},
                }
            },
            Option::None => {},
        }
    }
}

/// Determinism: the outcome of a run is a function of the candidate set's
/// influence matrices and the edge divisor alone; two runs over the same
/// values agree exactly. (Whether two executions see the same influence
/// values rests on `f64::exp` alone; every step after it is pinned.)
pub proof fn lemma_estimate_deterministic(
    pot: Seq<Seq<u64>>,
    biasm: Seq<Seq<u64>>,
    d: u8,
    r1: Result<Seq<(u64, usize)>, EstimateError>,
    r2: Result<Seq<(u64, usize)>, EstimateError>,
)
    requires
        r1 == estimate_spec(pot, biasm, d),
        r2 == estimate_spec(pot, biasm, d),
    ensures
        r1 == r2,
{
}

} // verus!
