//! The executable estimator, verified against the model.
//!
//! `ECluster` holds the parameters of one run; the candidate set is handed
//! to each call and the accepted records grow in a local, append-only list,
//! so independent runs share nothing. The decay coefficients `alpha` and
//! `beta` travel as f64 bit patterns (`f64::to_bits`), as every score does.

use vstd::prelude::*;
use crate::fbits::{score_add, score_sub, score_mul, score_div_u8, f64_gt, f64_sqrt_of_int,
    f64_exp, div_u8_score, is_nonneg_bits, is_pos_bits, lemma_zero_is_nonneg,
    lemma_below_inf_is_nonneg, NEG_ONE_BITS, INF_BITS};
use crate::model::{EstimateError, dist_bits, dist_sq, dist_sq_to, lemma_dist_sq_self,
    lemma_dist_sq_to_nonneg, sq, point_views, row_views, rect, square,
    acc_wf, fold_add, potential_at, bias_to, bias_at, net_at, scan_to, scan, run_from,
    estimate_spec, rows_of, result_matches, second_round_peak, edge_zero_single_row,
    lemma_scan_props, lemma_run_from_props, lemma_estimate_spec_bounds};

verus! {

/// The parameters of one estimation run: the potential decay `alpha`, the
/// suppression decay `beta` (both f64 bit patterns) and the edge divisor of
/// the stopping threshold.
pub struct ECluster {
    alpha: u64,
    beta: u64,
    edge_divider: u8,
}

impl ECluster {
    /// The Euclidean distance between two points of equal dimension, as the
    /// bits of the f64 value `sqrt(sum of (zh[i] - vi[i])^2)`. The
    /// subtraction is widened before squaring, and the sum of squares is
    /// exact; the dimension bound keeps it within `u64`.
    pub fn euclidean_distance(zh: &Vec<i16>, vi: &Vec<i16>) -> (r: u64)
        requires
            zh@.len() == vi@.len(),
            zh@.len() <= 0xFFFF_FFFF,
        ensures
            r == dist_bits(zh@, vi@),
            r < INF_BITS,
            is_nonneg_bits(r),
            zh@ == vi@ ==> r == 0,
    {
        let n: usize = zh.len();
        let mut sum: u64 = 0;
        let mut i: usize = 0;
        while i < n
            invariant
                n == zh@.len(),
                zh@.len() == vi@.len(),
                n <= 0xFFFF_FFFF,
                i <= n,
                sum == dist_sq_to(zh@, vi@, i as int),
                sum <= (i as int) * 0xFFFE_0001,
            decreases n - i,
        {
            let d: i64 = (zh[i] as i64) - (vi[i] as i64);
            proof {
                assert(-65535 <= d <= 65535);
                assert(0 <= d * d <= 0xFFFE_0001) by (nonlinear_arith)
                    requires
                        -65535 <= d <= 65535,
                ;
                assert((i as int) * 0xFFFE_0001 + 0xFFFE_0001 == (i as int + 1) * 0xFFFE_0001)
                    by (nonlinear_arith);
                assert((i as int + 1) * 0xFFFE_0001 <= 0xFFFF_FFFF * 0xFFFE_0001)
                    by (nonlinear_arith)
                    requires
                        i as int + 1 <= 0xFFFF_FFFF,
                ;
            }
            let s: u64 = (d * d) as u64;
            assert(s == sq(zh@[i as int] - vi@[i as int]));
            sum = sum + s;
            i = i + 1;
        }
        proof {
            lemma_dist_sq_to_nonneg(zh@, vi@, n as int);
            if zh@ == vi@ {
                lemma_dist_sq_self(zh@, vi@, n as int);
            }
            assert(dist_sq(zh@, vi@) as u64 == sum);
        }
        let r: u64 = f64_sqrt_of_int(sum);
        proof {
            lemma_below_inf_is_nonneg(r);
        }
        r
    }

    /// One influence matrix: entry `(i, j)` holds the bits of
    /// `exp((-1.0 * coeff) * distance(points[i], points[j]))`. The exp
    /// values themselves are not pinned (see `fbits::f64_exp`); only the
    /// shape is stated, and everything after is verified for every value.
    fn influence_matrix(points: &Vec<Vec<i16>>, coeff: u64) -> (m: Vec<Vec<u64>>)
        requires
            rect(point_views(points@)),
            points@.len() > 0 ==> points@[0]@.len() <= 0xFFFF_FFFF,
        ensures
            square(row_views(m@), points@.len() as int),
    {
        let n: usize = points.len();
        let mut m: Vec<Vec<u64>> = Vec::new();
        let mut i: usize = 0;
        while i < n
            invariant
                n == points@.len(),
                rect(point_views(points@)),
                n > 0 ==> points@[0]@.len() <= 0xFFFF_FFFF,
                i <= n,
                m@.len() == i,
                forall|k: int| 0 <= k < i ==> (#[trigger] m@[k])@.len() == n,
            decreases n - i,
        {
            let mut row: Vec<u64> = Vec::new();
            let mut j: usize = 0;
            while j < n
                invariant
                    n == points@.len(),
                    rect(point_views(points@)),
                    n > 0 ==> points@[0]@.len() <= 0xFFFF_FFFF,
                    i < n,
                    j <= n,
                    row@.len() == j,
                decreases n - j,
            {
                proof {
                    assert(point_views(points@)[i as int].len() == point_views(
                        points@,
                    )[0].len());
                    assert(point_views(points@)[j as int].len() == point_views(
                        points@,
                    )[0].len());
                }
                let dist: u64 = Self::euclidean_distance(&points[i], &points[j]);
                let t: u64 = score_mul(score_mul(NEG_ONE_BITS, coeff), dist);
                row.push(f64_exp(t));
                j = j + 1;
            }
            m.push(row);
            i = i + 1;
        }
        proof {
            assert(forall|k: int|
                0 <= k < n ==> (#[trigger] row_views(m@)[k]).len() == n);
        }
        m
    }

    /// The potential of one candidate: the f64 sum of its influence row, in
    /// candidate order, starting from +0.0.
    fn eval_potential(pot_infl: &Vec<Vec<u64>>, i: usize) -> (r: u64)
        requires
            i < pot_infl@.len(),
        ensures
            r == potential_at(row_views(pot_infl@), i as int),
    {
        let len: usize = pot_infl[i].len();
        let mut potential: u64 = 0;
        let mut j: usize = 0;
        while j < len
            invariant
                i < pot_infl@.len(),
                len == pot_infl@[i as int]@.len(),
                j <= len,
                potential == fold_add(pot_infl@[i as int]@, j as int),
            decreases len - j,
        {
            potential = score_add(potential, pot_infl[i][j]);
            j = j + 1;
        }
        proof {
            assert(row_views(pot_infl@)[i as int] == pot_infl@[i as int]@);
        }
        potential
    }

    /// The suppression at one candidate: every accepted record contributes
    /// its potential times its influence on the candidate, summed in f64 in
    /// acceptance order, starting from +0.0. An empty list yields +0.0.
    fn calculate_bias(accepted: &Vec<(u64, usize)>, bias_infl: &Vec<Vec<u64>>, i: usize) -> (r:
        u64)
        requires
            acc_wf(accepted@, bias_infl@.len() as int),
            square(row_views(bias_infl@), bias_infl@.len() as int),
            i < bias_infl@.len(),
        ensures
            r == bias_at(accepted@, row_views(bias_infl@), i as int),
    {
        let mut bias: u64 = 0;
        let mut k: usize = 0;
        while k < accepted.len()
            invariant
                acc_wf(accepted@, bias_infl@.len() as int),
                square(row_views(bias_infl@), bias_infl@.len() as int),
                i < bias_infl@.len(),
                k <= accepted@.len(),
                bias == bias_to(accepted@, row_views(bias_infl@), i as int, k as int),
            decreases accepted@.len() - k,
        {
            let potential: u64 = accepted[k].0;
            let location: usize = accepted[k].1;
            proof {
                assert(accepted@[k as int].1 < bias_infl@.len());
                assert(row_views(bias_infl@)[location as int].len() == bias_infl@.len());
            }
            bias = score_add(bias, score_mul(potential, bias_infl[location][i]));
            k = k + 1;
        }
        bias
    }

    /// One round of the peak search: scan every candidate, compute its net
    /// score (potential minus suppression), and keep the first candidate
    /// whose score strictly exceeds the running maximum, which starts at
    /// +0.0. Returns the maximum and the winning position, if any candidate
    /// rose above the baseline.
    fn evaluate_maximum_potential(
        pot_infl: &Vec<Vec<u64>>,
        bias_infl: &Vec<Vec<u64>>,
        accepted: &Vec<(u64, usize)>,
    ) -> (r: (u64, Option<usize>))
        requires
            square(row_views(pot_infl@), pot_infl@.len() as int),
            square(row_views(bias_infl@), bias_infl@.len() as int),
            bias_infl@.len() == pot_infl@.len(),
            acc_wf(accepted@, pot_infl@.len() as int),
        ensures
            r == scan(row_views(pot_infl@), row_views(bias_infl@), accepted@),
            is_nonneg_bits(r.0),
            r.1 is Some ==> is_pos_bits(r.0),
    {
        let n: usize = pot_infl.len();
        let mut maximum_potential: u64 = 0;
        let mut maximum_potential_position: Option<usize> = None;
        let mut i: usize = 0;
        proof {
            lemma_zero_is_nonneg();
        }
        while i < n
            invariant
                n == pot_infl@.len(),
                square(row_views(pot_infl@), n as int),
                square(row_views(bias_infl@), n as int),
                bias_infl@.len() == n,
                acc_wf(accepted@, n as int),
                i <= n,
                (maximum_potential, maximum_potential_position) == scan_to(
                    row_views(pot_infl@),
                    row_views(bias_infl@),
                    accepted@,
                    i as int,
                ),
                is_nonneg_bits(maximum_potential),
                maximum_potential_position is Some ==> is_pos_bits(maximum_potential),
            decreases n - i,
        {
            let bias: u64 = Self::calculate_bias(accepted, bias_infl, i);
            let potential: u64 = score_sub(Self::eval_potential(pot_infl, i), bias);
            if f64_gt(potential, maximum_potential) {
                maximum_potential = potential;
                maximum_potential_position = Some(i);
            }
            i = i + 1;
        }
        (maximum_potential, maximum_potential_position)
    }

    /// One output row: a fresh copy of the candidate at `idx`.
    fn copy_row(points: &Vec<Vec<i16>>, idx: usize) -> (row: Vec<i16>)
        requires
            idx < points@.len(),
        ensures
            row@ == points@[idx as int]@,
    {
        let len: usize = points[idx].len();
        let mut row: Vec<i16> = Vec::new();
        let mut j: usize = 0;
        while j < len
            invariant
                idx < points@.len(),
                len == points@[idx as int]@.len(),
                j <= len,
                row@ == points@[idx as int]@.take(j as int),
            decreases len - j,
        {
            row.push(points[idx][j]);
            proof {
                assert(row@ =~= points@[idx as int]@.take(j as int + 1));
            }
            j = j + 1;
        }
        proof {
            assert(row@ =~= points@[idx as int]@);
        }
        row
    }

    /// The output matrix: the location of every accepted record, in
    /// acceptance order.
    fn to_rows(points: &Vec<Vec<i16>>, accepted: &Vec<(u64, usize)>) -> (rows: Vec<Vec<i16>>)
        requires
            acc_wf(accepted@, points@.len() as int),
        ensures
            point_views(rows@) == rows_of(point_views(points@), accepted@),
            rows@.len() == accepted@.len(),
    {
        let mut rows: Vec<Vec<i16>> = Vec::new();
        let mut k: usize = 0;
        while k < accepted.len()
            invariant
                acc_wf(accepted@, points@.len() as int),
                k <= accepted@.len(),
                rows@.len() == k,
                forall|t: int| 0 <= t < k ==> (#[trigger] rows@[t])@ == points@[accepted@[t].1 as int]@,
            decreases accepted@.len() - k,
        {
            let idx: usize = accepted[k].1;
            let row: Vec<i16> = Self::copy_row(points, idx);
            rows.push(row);
            k = k + 1;
        }
        proof {
            assert(point_views(rows@) =~= rows_of(point_views(points@), accepted@));
        }
        rows
    }

    /// The run protocol over given influence matrices: reject an empty set;
    /// find the first peak with no suppression and accept it
    /// unconditionally; fix the threshold as that peak's potential divided
    /// by the edge divisor (an infinite threshold when the divisor is 0);
    /// then, for at most 100 further rounds, accept each round's peak until
    /// the threshold exceeds it. A round that finds no peak while the run
    /// may not stop would have to record a malformed placeholder, and fails
    /// instead. The result is pinned exactly to the model's outcome.
    pub fn estimate_from_influence(
        points: &Vec<Vec<i16>>,
        pot_infl: &Vec<Vec<u64>>,
        bias_infl: &Vec<Vec<u64>>,
        edge_div: u8,
    ) -> (r: Result<Vec<Vec<i16>>, EstimateError>)
        requires
            pot_infl@.len() == points@.len(),
            bias_infl@.len() == points@.len(),
            square(row_views(pot_infl@), points@.len() as int),
            square(row_views(bias_infl@), points@.len() as int),
        ensures
            result_matches(
                point_views(points@),
                row_views(pot_infl@),
                row_views(bias_infl@),
                edge_div,
                r,
            ),
            edge_zero_single_row(row_views(pot_infl@), row_views(bias_infl@), edge_div, r),
    {
        let ghost potv = row_views(pot_infl@);
        let ghost biasv = row_views(bias_infl@);
        let n: usize = points.len();
        if n == 0 {
            return Err(EstimateError::EmptyInput);
        }
        let mut estimated: Vec<(u64, usize)> = Vec::new();
        let first = Self::evaluate_maximum_potential(pot_infl, bias_infl, &estimated);
        proof {
            assert(estimated@ =~= Seq::<(u64, usize)>::empty());
        }
        let b0: usize = match first.1 {
            Some(b) => b,
            None => {
                return Err(EstimateError::NoPeak);
            },
        };
        let edge: u64 = score_div_u8(first.0, edge_div);
        estimated.push((first.0, b0));
        proof {
            lemma_scan_props(potv, biasv, Seq::<(u64, usize)>::empty(), n as int);
            assert(estimated@ =~= seq![(first.0, b0)]);
        }
        let mut iterations: usize = 0;
        loop
            invariant
                n == points@.len(),
                n > 0,
                potv == row_views(pot_infl@),
                biasv == row_views(bias_infl@),
                pot_infl@.len() == n,
                bias_infl@.len() == n,
                square(potv, n as int),
                square(biasv, n as int),
                iterations <= 100,
                1 <= estimated@.len() <= iterations + 1,
                acc_wf(estimated@, n as int),
                scan(potv, biasv, Seq::<(u64, usize)>::empty()) == (first.0, Option::Some(b0)),
                edge == div_u8_score(first.0, edge_div),
                is_pos_bits(first.0),
                edge_div == 0 ==> edge == INF_BITS,
                edge_div == 0 && second_round_peak(potv, biasv) != INF_BITS ==> iterations == 0
                    && estimated@ == seq![(first.0, b0)],
                run_from(potv, biasv, edge, estimated@, iterations as int) == run_from(
                    potv,
                    biasv,
                    edge,
                    seq![(first.0, b0)],
                    0,
                ),
            ensures
                run_from(potv, biasv, edge, seq![(first.0, b0)], 0) == Some(estimated@),
                estimated@.len() <= 101,
                acc_wf(estimated@, n as int),
                edge_div == 0 && second_round_peak(potv, biasv) != INF_BITS ==> estimated@.len()
                    == 1,
            decreases 100 - iterations,
        {
            let peak = Self::evaluate_maximum_potential(pot_infl, bias_infl, &estimated);
            if iterations > 99 || f64_gt(edge, peak.0) {
                break;
            }
            match peak.1 {
                None => {
                    proof {
                        assert(run_from(potv, biasv, edge, estimated@, iterations as int)
                            is None);
                        assert(estimate_spec(potv, biasv, edge_div) == Result::<
                            Seq<(u64, usize)>,
                            EstimateError,
                        >::Err(EstimateError::NoPeak));
                    }
                    return Err(EstimateError::NoPeak);
                },
                Some(bi) => {
                    proof {
                        lemma_scan_props(potv, biasv, estimated@, n as int);
                        if edge_div == 0 && second_round_peak(potv, biasv) != INF_BITS {
                            // The threshold is +infinity and this round's
                            // peak is not, so the run must have stopped.
                            assert(peak.0 == second_round_peak(potv, biasv));
                            assert(false);
                        }
                    }
                    estimated.push((peak.0, bi));
                    iterations = iterations + 1;
                },
            }
        }
        proof {
            assert(estimate_spec(potv, biasv, edge_div) == Result::<
                Seq<(u64, usize)>,
                EstimateError,
            >::Ok(estimated@));
        }
        let rows = Self::to_rows(points, &estimated);
        proof {
            assert(rows@.len() == estimated@.len());
        }
        Ok(rows)
    }

    /// The full estimation: build the two influence matrices for the run's
    /// decay coefficients, then extract peaks. See `estimate`.
    fn run(&self, points: &Vec<Vec<i16>>) -> (r: Result<Vec<Vec<i16>>, EstimateError>)
        requires
            rect(point_views(points@)),
            points@.len() > 0 ==> points@[0]@.len() <= 0xFFFF_FFFF,
        ensures
            (r matches Err(e) && e == EstimateError::EmptyInput) <==> points@.len() == 0,
            r matches Ok(rows) ==> 1 <= rows@.len() <= 101,
            r matches Ok(rows) ==> forall|k: int|
                0 <= k < rows@.len() ==> exists|i: int|
                    0 <= i < points@.len() && (#[trigger] rows@[k])@ == points@[i]@,
            exists|pot: Seq<Seq<u64>>, biasm: Seq<Seq<u64>>|
                square(pot, points@.len() as int) && square(biasm, points@.len() as int)
                    && result_matches(point_views(points@), pot, biasm, self.edge_divider, r)
                    && edge_zero_single_row(pot, biasm, self.edge_divider, r),
    {
        let n: usize = points.len();
        let pot_infl = Self::influence_matrix(points, self.alpha);
        let bias_infl = Self::influence_matrix(points, self.beta);
        let r = Self::estimate_from_influence(points, &pot_infl, &bias_infl, self.edge_divider);
        proof {
            let potv = row_views(pot_infl@);
            let biasv = row_views(bias_infl@);
            assert(potv.len() == n);
            lemma_estimate_spec_bounds(potv, biasv, self.edge_divider);
            assert(square(potv, points@.len() as int) && square(biasv, points@.len() as int)
                && result_matches(point_views(points@), potv, biasv, self.edge_divider, r)
                && edge_zero_single_row(potv, biasv, self.edge_divider, r));
            match r {
                Ok(ref rows) => {
                    match estimate_spec(potv, biasv, self.edge_divider) {
                        Ok(acc) => {
                            assert(point_views(rows@) == rows_of(point_views(points@), acc));
                            assert(rows@.len() == acc.len());
                            assert forall|k: int| 0 <= k < rows@.len() implies exists|i: int|
                                0 <= i < points@.len() && (#[trigger] rows@[k])@ == points@[i]@ by {
                                let i = acc[k].1 as int;
                                assert(acc_wf(acc, points@.len() as int));
                                assert(0 <= i < points@.len());
                                assert(point_views(rows@)[k] == rows_of(
                                    point_views(points@),
                                    acc,
                                )[k]);
                                assert(rows@[k]@ == point_views(points@)[i]);
                                assert(point_views(points@)[i] == points@[i]@);
                            }
                        },
                        _ => {
                            assert(false);
                        },
                    }
                },
                _ => {},
            }
        }
        r
    }

    /// Estimates cluster centers from the candidate set: every candidate is
    /// scored by the density of candidates around it, decayed by `alpha`;
    /// accepted centers suppress their neighborhood, decayed by `beta` and
    /// weighted by their own potential; the highest net scorer of each round
    /// is accepted, the first one unconditionally, the rest until the
    /// threshold (the first potential over `edge_div`) exceeds the round's
    /// peak or 100 further rounds ran. Returns the accepted locations in
    /// acceptance order; `alpha` and `beta` are f64 bit patterns.
    ///
    /// An empty candidate set is rejected as `EmptyInput`; a round that
    /// finds no peak while the stopping rule does not yet allow the run to
    /// end is rejected as `NoPeak` (with decaying coefficients this takes a
    /// degenerate input, such as a NaN coefficient).
    pub fn estimate(points: &Vec<Vec<i16>>, edge_div: u8, alpha: u64, beta: u64) -> (r: Result<
        Vec<Vec<i16>>,
        EstimateError,
    >)
        requires
            rect(point_views(points@)),
            points@.len() > 0 ==> points@[0]@.len() <= 0xFFFF_FFFF,
        ensures
            (r matches Err(e) && e == EstimateError::EmptyInput) <==> points@.len() == 0,
            r matches Ok(rows) ==> 1 <= rows@.len() <= 101,
            r matches Ok(rows) ==> forall|k: int|
                0 <= k < rows@.len() ==> exists|i: int|
                    0 <= i < points@.len() && (#[trigger] rows@[k])@ == points@[i]@,
            r matches Ok(rows) ==> forall|k: int|
                0 <= k < rows@.len() ==> (#[trigger] rows@[k])@.len() == points@[0]@.len(),
            exists|pot: Seq<Seq<u64>>, biasm: Seq<Seq<u64>>|
                square(pot, points@.len() as int) && square(biasm, points@.len() as int)
                    && result_matches(point_views(points@), pot, biasm, edge_div, r)
                    && edge_zero_single_row(pot, biasm, edge_div, r),
    {
        let cluster = ECluster { alpha, beta, edge_divider: edge_div };
        let r = cluster.run(points);
        proof {
            match r {
                Ok(ref rows) => {
                    assert forall|k: int|
                        0 <= k < rows@.len() implies (#[trigger] rows@[k])@.len()
                        == points@[0]@.len() by {
                        let i = choose|i: int|
                            0 <= i < points@.len() && rows@[k]@ == points@[i]@;
                        assert(point_views(points@)[i].len() == point_views(points@)[0].len());
                        assert(point_views(points@)[i] == points@[i]@);
                        assert(point_views(points@)[0] == points@[0]@);
                    }
                },
                _ => {},
            }
        }
        r
    }
}

} // verus!
