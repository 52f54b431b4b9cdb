//! The combinatorial part of attractor detection: parameter checks, the
//! detection window, the periods to try, the terms averaged for each phase, the
//! shortest period a cycle repeats with, whether two cycles coincide up to a
//! rotation (and so whether a cycle is new among those found), and the
//! classification of a sequence's behavior.
//!
//! Whether two complex values are close is decided by the caller, which hands
//! these functions the closeness relation as a matrix of booleans.
use vstd::prelude::*;

use crate::models::{AttractorKind, AttractorSummary, BehaviorKind};

verus! {

/// Why a set of analysis parameters was refused.
#[derive(Debug, Clone, Copy, PartialEq, Eq, Structural)]
pub enum AnalysisError {
    MaxTermsTooSmall,
    DivergenceLimitNotPositive,
    ToleranceNotPositive,
    WindowTooSmall,
    MaxPeriodTooSmall,
    MinRepetitionsTooSmall,
    StabilityRatioOutOfRange,
    ClusterToleranceNotPositive,
    TransientTermsOutOfRange,
}

impl AnalysisError {
    /// The message reported for this error.
    pub fn message(&self) -> (r: &'static str)
        ensures
            r@ == match self {
                AnalysisError::MaxTermsTooSmall => "max_terms must be at least 2"@,
                AnalysisError::DivergenceLimitNotPositive => "divergence_limit must be positive"@,
                AnalysisError::ToleranceNotPositive => "tolerance must be positive"@,
                AnalysisError::WindowTooSmall => "attractor_window must be at least 2"@,
                AnalysisError::MaxPeriodTooSmall => "max_period must be at least 1"@,
                AnalysisError::MinRepetitionsTooSmall => "min_repetitions must be at least 1"@,
                AnalysisError::StabilityRatioOutOfRange => "stability_ratio must be in the interval (0, 1]"@,
                AnalysisError::ClusterToleranceNotPositive => "cluster_tolerance must be positive"@,
                AnalysisError::TransientTermsOutOfRange => "transient_terms out of range"@,
            },
    {
        match self {
            AnalysisError::MaxTermsTooSmall => "max_terms must be at least 2",
            AnalysisError::DivergenceLimitNotPositive => "divergence_limit must be positive",
            AnalysisError::ToleranceNotPositive => "tolerance must be positive",
            AnalysisError::WindowTooSmall => "attractor_window must be at least 2",
            AnalysisError::MaxPeriodTooSmall => "max_period must be at least 1",
            AnalysisError::MinRepetitionsTooSmall => "min_repetitions must be at least 1",
            AnalysisError::StabilityRatioOutOfRange => "stability_ratio must be in the interval (0, 1]",
            AnalysisError::ClusterToleranceNotPositive => "cluster_tolerance must be positive",
            AnalysisError::TransientTermsOutOfRange => "transient_terms out of range",
        }
    }
}

/// The outcome of checking detection parameters, the first failing check
/// deciding the error. The real-valued checks come in already decided:
/// whether the tolerance is positive, whether the stability ratio lies in
/// (0, 1], and whether the cluster tolerance, when given, is positive.
pub open spec fn detection_check(
    tolerance_positive: bool,
    attractor_window: int,
    max_period: int,
    min_repetitions: int,
    transient_terms: int,
    stability_ratio_in_range: bool,
    cluster_tolerance_ok: bool,
) -> Result<(), AnalysisError> {
    if !tolerance_positive {
        Err(AnalysisError::ToleranceNotPositive)
    } else if attractor_window < 2 {
        Err(AnalysisError::WindowTooSmall)
    } else if max_period < 1 {
        Err(AnalysisError::MaxPeriodTooSmall)
    } else if min_repetitions < 1 {
        Err(AnalysisError::MinRepetitionsTooSmall)
    } else if !stability_ratio_in_range {
        Err(AnalysisError::StabilityRatioOutOfRange)
    } else if !cluster_tolerance_ok {
        Err(AnalysisError::ClusterToleranceNotPositive)
    } else if transient_terms > usize::MAX / 2 {
        Err(AnalysisError::TransientTermsOutOfRange)
    } else {
        Ok(())
    }
}

/// Checks the parameters of attractor detection.
pub fn validate_detection_parameters(
    tolerance_positive: bool,
    attractor_window: usize,
    max_period: usize,
    min_repetitions: usize,
    transient_terms: usize,
    stability_ratio_in_range: bool,
    cluster_tolerance_ok: bool,
) -> (r: Result<(), AnalysisError>)
    ensures
        r == detection_check(
            tolerance_positive,
            attractor_window as int,
            max_period as int,
            min_repetitions as int,
            transient_terms as int,
            stability_ratio_in_range,
            cluster_tolerance_ok,
        ),
{
    if !tolerance_positive {
        return Err(AnalysisError::ToleranceNotPositive);
    }
    if attractor_window < 2 {
        return Err(AnalysisError::WindowTooSmall);
    }
    if max_period < 1 {
        return Err(AnalysisError::MaxPeriodTooSmall);
    }
    if min_repetitions < 1 {
        return Err(AnalysisError::MinRepetitionsTooSmall);
    }
    if !stability_ratio_in_range {
        return Err(AnalysisError::StabilityRatioOutOfRange);
    }
    if !cluster_tolerance_ok {
        return Err(AnalysisError::ClusterToleranceNotPositive);
    }
    if transient_terms > usize::MAX / 2 {
        return Err(AnalysisError::TransientTermsOutOfRange);
    }
    Ok(())
}

/// Checks the parameters of a whole analysis: at least two terms, a positive
/// divergence limit (decided by the caller), then the detection parameters.
pub fn validate_analysis_parameters(
    max_terms: usize,
    divergence_limit_positive: bool,
    tolerance_positive: bool,
    attractor_window: usize,
    max_period: usize,
    min_repetitions: usize,
    transient_terms: usize,
    stability_ratio_in_range: bool,
    cluster_tolerance_ok: bool,
) -> (r: Result<(), AnalysisError>)
    ensures
        r == (if max_terms < 2 {
            Err(AnalysisError::MaxTermsTooSmall)
        } else if !divergence_limit_positive {
            Err(AnalysisError::DivergenceLimitNotPositive)
        } else {
            detection_check(
                tolerance_positive,
                attractor_window as int,
                max_period as int,
                min_repetitions as int,
                transient_terms as int,
                stability_ratio_in_range,
                cluster_tolerance_ok,
            )
        }),
{
    if max_terms < 2 {
        return Err(AnalysisError::MaxTermsTooSmall);
    }
    if !divergence_limit_positive {
        return Err(AnalysisError::DivergenceLimitNotPositive);
    }
    validate_detection_parameters(
        tolerance_positive,
        attractor_window,
        max_period,
        min_repetitions,
        transient_terms,
        stability_ratio_in_range,
        cluster_tolerance_ok,
    )
}

/// The last terms examined for attractors: from `start` on, `size` of them.
#[derive(Debug, Clone, Copy, PartialEq, Eq, Structural)]
pub struct DetectionWindow {
    pub start: usize,
    pub size: usize,
}

/// Where detection starts in a sequence of `len` terms: after the transient
/// terms, and no earlier than `attractor_window` terms before the end.
pub open spec fn window_start(len: int, transient_terms: int, attractor_window: int) -> int {
    let tail = if len >= attractor_window {
        len - attractor_window
    } else {
        0
    };
    if transient_terms >= tail {
        transient_terms
    } else {
        tail
    }
}

/// Attractors are sought over the tail of a sequence, after its transient:
/// detection starts no earlier than the transient terms and no earlier than
/// `attractor_window` terms before the end, at the later of the two, so the
/// window holds at most `attractor_window` terms unless the transient alone
/// pushes its start later.
pub proof fn law_window_is_the_tail_after_the_transient(
    len: int,
    transient_terms: int,
    attractor_window: int,
)
    requires
        0 <= len,
        0 <= transient_terms,
        0 <= attractor_window,
    ensures
        window_start(len, transient_terms, attractor_window) >= transient_terms,
        len >= attractor_window ==> window_start(len, transient_terms, attractor_window) >= len
            - attractor_window,
        window_start(len, transient_terms, attractor_window) == transient_terms || (len
            >= attractor_window && window_start(len, transient_terms, attractor_window) == len
            - attractor_window) || (len < attractor_window && window_start(
            len,
            transient_terms,
            attractor_window,
        ) == 0),
        len - window_start(len, transient_terms, attractor_window) <= attractor_window
            || window_start(len, transient_terms, attractor_window) == transient_terms,
{
}

/// The window of a sequence of `len` terms in which attractors are sought, or
/// `None` when fewer than two terms, or fewer than two terms in the window,
/// leave nothing to detect.
pub fn detection_window(len: usize, transient_terms: usize, attractor_window: usize) -> (r: Option<
    DetectionWindow,
>)
    requires
        len >= 2 ==> transient_terms <= len,
    ensures
        r is None <==> len < 2 || len - window_start(
            len as int,
            transient_terms as int,
            attractor_window as int,
        ) < 2,
        r matches Some(w) ==> w.start == window_start(
            len as int,
            transient_terms as int,
            attractor_window as int,
        ) && w.size == len - w.start && w.size >= 2,
{
    if len < 2 {
        return None;
    }
    let tail = len.saturating_sub(attractor_window);
    let start = if transient_terms >= tail {
        transient_terms
    } else {
        tail
    };
    let size = len - start;
    if size < 2 {
        return None;
    }
    Some(DetectionWindow { start, size })
}

/// The longest period tried in a window of `size` terms.
pub open spec fn period_limit(size: int, max_period: int) -> int {
    if max_period <= size / 2 {
        max_period
    } else {
        size / 2
    }
}

/// Whether `period` is tried: it is at most the period limit, and the window
/// leaves at least `min_repetitions` comparisons per phase.
pub open spec fn is_tried_period(size: int, max_period: int, min_repetitions: int, period: int) -> bool {
    &&& 1 <= period <= period_limit(size, max_period)
    &&& size - period >= period * min_repetitions
}

/// The tried periods among `1..=n`, in increasing order.
pub open spec fn tried_periods(size: int, max_period: int, min_repetitions: int, n: int) -> Seq<int>
    decreases n,
{
    if n <= 0 {
        seq![]
    } else {
        tried_periods(size, max_period, min_repetitions, n - 1) + if is_tried_period(
            size,
            max_period,
            min_repetitions,
            n,
        ) {
            seq![n]
        } else {
            seq![]
        }
    }
}

/// The periods tried in a window of `size` terms, in increasing order.
pub fn candidate_periods(size: usize, max_period: usize, min_repetitions: usize) -> (r: Vec<usize>)
    requires
        period_limit(size as int, max_period as int) * min_repetitions <= usize::MAX,
    ensures
        r@.map_values(|p: usize| p as int) == tried_periods(
            size as int,
            max_period as int,
            min_repetitions as int,
            period_limit(size as int, max_period as int),
        ),
{
    let limit: usize = if max_period <= size / 2 {
        max_period
    } else {
        size / 2
    };
    let ghost f = |p: usize| p as int;
    let mut r: Vec<usize> = Vec::new();
    let mut period: usize = 1;
    while period <= limit
        invariant
            1 <= period <= limit + 1,
            limit == period_limit(size as int, max_period as int),
            limit * min_repetitions <= usize::MAX,
            limit <= size,
            f == (|p: usize| p as int),
            r@.map_values(f) == tried_periods(
                size as int,
                max_period as int,
                min_repetitions as int,
                period - 1,
            ),
        decreases limit + 1 - period,
    {
        assert(period * min_repetitions <= limit * min_repetitions) by (nonlinear_arith)
            requires
                period <= limit,
        ;
        let total_checks = size - period;
        let required_checks = period * min_repetitions;
        let ghost before = r@;
        if total_checks >= required_checks {
            r.push(period);
            assert(r@.map_values(f) =~= before.map_values(f) + seq![period as int]);
        } else {
            assert(r@.map_values(f) =~= before.map_values(f) + Seq::<int>::empty());
        }
        period = period + 1;
    }
    r
}

/// The terms averaged for phase `phase` of a cycle of `period` terms found in a
/// sequence of `len` terms whose window starts at `start`: the term at
/// `len - period + phase`, then every `period` terms earlier while the term
/// just taken lies at or after `start + period`.
pub open spec fn phase_terms(len: int, start: int, period: int, phase: int) -> Seq<int> {
    let first = len - period + phase;
    Seq::new(
        ((first - start) / period + 1) as nat,
        |k: int| first - k * period,
    )
}

/// The indices of the terms averaged for one phase of a cycle.
pub fn phase_indices(len: usize, start: usize, period: usize, phase: usize) -> (r: Vec<usize>)
    requires
        period >= 1,
        start + 2 * period <= len,
        phase < period,
    ensures
        r@.map_values(|i: usize| i as int) == phase_terms(
            len as int,
            start as int,
            period as int,
            phase as int,
        ),
{
    let first: usize = len - period + phase;
    let ghost target = phase_terms(len as int, start as int, period as int, phase as int);
    let ghost f = |i: usize| i as int;
    let ghost count = (first - start) / (period as int) + 1;
    let mut r: Vec<usize> = Vec::new();
    let mut index: usize = first;
    let mut k: usize = 0;
    loop
        invariant_except_break
            r@.len() == k,
            r@.map_values(f) == target.take(k as int),
        invariant
            period >= 1,
            start + 2 * period <= len,
            first == len - period + phase,
            first >= start + period,
            start <= index,
            index == first - k * period,
            target == phase_terms(len as int, start as int, period as int, phase as int),
            count == (first - start) / (period as int) + 1,
            k < count,
            f == (|i: usize| i as int),
        ensures
            r@.map_values(f) == target,
        decreases index,
    {
        assert(target[k as int] == index);
        let ghost before = r@;
        r.push(index);
        assert forall|j: int| 0 <= j < k + 1 implies #[trigger] r@.map_values(f)[j] == target.take(
            k as int + 1,
        )[j] by {
            if j < k {
                assert(r@[j] == before[j]);
                assert(before.map_values(f)[j] == target.take(k as int)[j]);
            }
        }
        assert(r@.map_values(f) =~= target.take(k as int + 1));
        if index < start + period {
            assert((first - start) / (period as int) == k) by (nonlinear_arith)
                requires
                    first - start - k * period >= 0,
                    first - start - k * period < period,
                    period >= 1,
                    k >= 0,
            ;
            assert(target.take(k as int + 1) =~= target);
            break ;
        }
        assert(k + 1 < count) by (nonlinear_arith)
            requires
                first - start - k * period >= period,
                period >= 1,
                k >= 0,
                count == (first - start) / (period as int) + 1,
        ;
        assert(index - period == first - (k + 1) * period) by (nonlinear_arith)
            requires
                index == first - k * period,
        ;
        index = index - period;
        k = k + 1;
    }
    r
}

/// Whether a cycle of `period` values repeats with the shorter period `c`: each
/// value is close to the value `c` divides it back to (`close[i][i % c]`).
pub open spec fn repeats_with(close: Seq<Seq<bool>>, period: int, c: int) -> bool {
    &&& 1 <= c < period
    &&& period % c == 0
    &&& forall|i: int| 0 <= i < period ==> #[trigger] close[i][i % c]
}

/// The rows of a boolean matrix.
pub open spec fn rows(close: Seq<Vec<bool>>) -> Seq<Seq<bool>> {
    close.map_values(|row: Vec<bool>| row@)
}

/// Whether `close` is a `period` by `period` matrix.
pub open spec fn is_square(close: Seq<Seq<bool>>, period: int) -> bool {
    &&& close.len() == period
    &&& forall|i: int| 0 <= i < period ==> #[trigger] close[i].len() == period
}

/// The shortest period a cycle of `close.len()` values repeats with, where
/// `close[i][j]` tells whether values `i` and `j` are close: the smallest
/// proper divisor with which it repeats, or the full period.
pub fn reduced_period(close: &Vec<Vec<bool>>) -> (r: usize)
    requires
        close@.len() >= 1,
        is_square(rows(close@), close@.len() as int),
    ensures
        1 <= r <= close@.len(),
        r < close@.len() ==> repeats_with(
            rows(close@),
            close@.len() as int,
            r as int,
        ),
        forall|c: int|
            1 <= c < r ==> !#[trigger] repeats_with(
                rows(close@),
                close@.len() as int,
                c,
            ),
{
    let ghost m = rows(close@);
    let period = close.len();
    let mut c: usize = 1;
    while c < period
        invariant
            1 <= c <= period,
            period == close@.len(),
            m == rows(close@),
            is_square(m, period as int),
            forall|d: int| 1 <= d < c ==> !#[trigger] repeats_with(m, period as int, d),
        decreases period - c,
    {
        if period % c == 0 {
            let mut all = true;
            let mut i: usize = 0;
            while i < period
                invariant
                    1 <= c < period,
                    period == close@.len(),
                    m == rows(close@),
                    is_square(m, period as int),
                    i <= period,
                    all ==> forall|k: int| 0 <= k < i ==> #[trigger] m[k][k % (c as int)],
                    !all ==> exists|k: int| 0 <= k < period && !#[trigger] m[k][k % (c as int)],
                decreases period - i,
            {
                assert(close@[i as int]@ == m[i as int]);
                assert(m[i as int].len() == period);
                if !close[i][i % c] {
                    all = false;
                }
                i = i + 1;
            }
            if all {
                return c;
            }
        }
        c = c + 1;
    }
    period
}

/// Whether value `i` of the first cycle is close to value `i + shift` (taken
/// around the cycle) of the second, for every `i`.
pub open spec fn aligned(close: Seq<Seq<bool>>, period: int, shift: int) -> bool {
    forall|i: int| 0 <= i < period ==> #[trigger] close[i][(i + shift) % period]
}

/// Whether two cycles of `period` values coincide up to a rotation, where
/// `close[i][j]` tells whether value `i` of the first is close to value `j`
/// of the second.
pub open spec fn cycles_coincide(close: Seq<Seq<bool>>, period: int) -> bool {
    exists|shift: int| 0 <= shift < period && #[trigger] aligned(close, period, shift)
}

/// Whether two cycles coincide up to a rotation.
pub fn cycles_match(close: &Vec<Vec<bool>>) -> (r: bool)
    requires
        is_square(rows(close@), close@.len() as int),
    ensures
        r == cycles_coincide(rows(close@), close@.len() as int),
{
    let ghost m = rows(close@);
    let period = close.len();
    let mut shift: usize = 0;
    while shift < period
        invariant
            shift <= period,
            period == close@.len(),
            m == rows(close@),
            is_square(m, period as int),
            forall|s: int| 0 <= s < shift ==> !#[trigger] aligned(m, period as int, s),
        decreases period - shift,
    {
        let mut all = true;
        let mut i: usize = 0;
        while i < period
            invariant
                shift < period,
                period == close@.len(),
                m == rows(close@),
                is_square(m, period as int),
                i <= period,
                all ==> forall|k: int|
                    0 <= k < i ==> #[trigger] m[k][(k + shift) % (period as int)],
                !all ==> !aligned(m, period as int, shift as int),
            decreases period - i,
        {
            assert(close@[i as int]@ == m[i as int]);
            let j: usize = if i < period - shift {
                i + shift
            } else {
                i - (period - shift)
            };
            assert(j == (i + shift) % (period as int)) by (nonlinear_arith)
                requires
                    i < period,
                    shift < period,
                    i < period - shift ==> j == i + shift,
                    i >= period - shift ==> j == i + shift - period,
            ;
            if !close[i][j] {
                all = false;
            }
            i = i + 1;
        }
        if all {
            assert(aligned(m, period as int, shift as int));
            return true;
        }
        shift = shift + 1;
    }
    false
}

/// The closeness matrices of a list of attractors, as sequences.
pub open spec fn matrices(closeness: Seq<Vec<Vec<bool>>>) -> Seq<Seq<Seq<bool>>> {
    closeness.map_values(|c: Vec<Vec<bool>>| rows(c@))
}

/// Whether a candidate cycle of `period` values is new among the attractors
/// found so far (with periods `periods`): no earlier attractor of the same
/// period coincides with it up to a rotation, `closeness[k][i][j]` telling
/// whether value `i` of the candidate is close to value `j` of attractor `k`.
pub open spec fn is_new_cycle(
    period: int,
    periods: Seq<usize>,
    closeness: Seq<Seq<Seq<bool>>>,
) -> bool {
    forall|k: int|
        0 <= k < periods.len() && periods[k] == period ==> !#[trigger] cycles_coincide(
            closeness[k],
            period,
        )
}

/// Whether a candidate cycle of `period` values is new among the attractors
/// found so far. Only the closeness matrices of the attractors of the same
/// period are read.
pub fn is_new_attractor(
    period: usize,
    periods: &Vec<usize>,
    closeness: &Vec<Vec<Vec<bool>>>,
) -> (r: bool)
    requires
        closeness@.len() == periods@.len(),
        forall|k: int|
            0 <= k < periods@.len() && periods@[k] == period ==> is_square(
                #[trigger] matrices(closeness@)[k],
                period as int,
            ),
    ensures
        r == is_new_cycle(period as int, periods@, matrices(closeness@)),
{
    let ghost ms = matrices(closeness@);
    let mut k: usize = 0;
    while k < periods.len()
        invariant
            k <= periods@.len(),
            closeness@.len() == periods@.len(),
            ms == matrices(closeness@),
            forall|m: int|
                0 <= m < periods@.len() && periods@[m] == period ==> is_square(
                    #[trigger] ms[m],
                    period as int,
                ),
            forall|m: int|
                0 <= m < k && periods@[m] == period ==> !#[trigger] cycles_coincide(
                    ms[m],
                    period as int,
                ),
        decreases periods.len() - k,
    {
        if periods[k] == period {
            assert(ms[k as int] == rows(closeness@[k as int]@));
            assert(is_square(ms[k as int], period as int));
            assert(closeness@[k as int]@.len() == period);
            if cycles_match(&closeness[k]) {
                return false;
            }
        }
        k = k + 1;
    }
    true
}

/// The kind of an attractor repeating with `period` terms: a fixed point for a
/// single value, a cycle otherwise.
pub fn kind_for_period(period: usize) -> (r: AttractorKind)
    ensures
        r == (if period == 1 {
            AttractorKind::FixedPoint
        } else {
            AttractorKind::Cycle
        }),
{
    if period == 1 {
        AttractorKind::FixedPoint
    } else {
        AttractorKind::Cycle
    }
}

/// The behavior of a sequence of `terms_len` terms given the first attractor
/// found in it, with the reason reported for it.
pub open spec fn behavior_of(
    terms_len: int,
    first: Option<AttractorSummary>,
    attractor_window: int,
) -> (BehaviorKind, Seq<char>) {
    if terms_len < 2 {
        (BehaviorKind::InsufficientData, "insufficient data"@)
    } else if first is Some {
        (
            if first->0.period == 1 {
                BehaviorKind::FixedPoint
            } else {
                BehaviorKind::Periodic
            },
            first->0.kind.name() + " detected"@,
        )
    } else if terms_len < attractor_window {
        (BehaviorKind::InsufficientData, "insufficient data for attractor detection"@)
    } else {
        (BehaviorKind::ChaoticOrUnresolved, "no stable attractor detected"@)
    }
}

/// Classifies a sequence of `terms_len` terms by the first attractor found in
/// it: too short, a fixed point or periodic, too short for the detection
/// window, or unresolved.
pub fn classify_behavior(
    terms_len: usize,
    first_attractor: Option<AttractorSummary>,
    attractor_window: usize,
) -> (r: (BehaviorKind, String))
    ensures
        (r.0, r.1@) == behavior_of(terms_len as int, first_attractor, attractor_window as int),
{
    if terms_len < 2 {
        return (BehaviorKind::InsufficientData, String::from_str("insufficient data"));
    }
    match first_attractor {
        Some(first) => {
            let behavior = if first.period == 1 {
                BehaviorKind::FixedPoint
            } else {
                BehaviorKind::Periodic
            };
            let mut reason = String::from_str(first.kind.name_str());
            reason.append(" detected");
            (behavior, reason)
        },
        None => {
            if terms_len < attractor_window {
                (
                    BehaviorKind::InsufficientData,
                    String::from_str("insufficient data for attractor detection"),
                )
            } else {
                (BehaviorKind::ChaoticOrUnresolved, String::from_str("no stable attractor detected"))
            }
        },
    }
}

/// A sequence with an attractor is classified by the attractor's period: as a
/// fixed point exactly when the period is 1, and as periodic for every longer
/// period. So an attractor whose kind is the one of its period is a fixed
/// point exactly when its kind is, and a cycle is never taken for a fixed
/// point.
pub proof fn law_behavior_follows_the_period(
    terms_len: int,
    first: AttractorSummary,
    attractor_window: int,
)
    requires
        terms_len >= 2,
    ensures
        behavior_of(terms_len, Some(first), attractor_window).0 == BehaviorKind::FixedPoint
            <==> first.period == 1,
        first.period != 1 ==> behavior_of(terms_len, Some(first), attractor_window).0
            == BehaviorKind::Periodic,
        first.kind == (if first.period == 1 {
            AttractorKind::FixedPoint
        } else {
            AttractorKind::Cycle
        }) ==> (behavior_of(terms_len, Some(first), attractor_window).0 == BehaviorKind::FixedPoint
            <==> first.kind == AttractorKind::FixedPoint),
        first.kind == AttractorKind::Cycle && first.period != 1 ==> behavior_of(
            terms_len,
            Some(first),
            attractor_window,
        ).0 != BehaviorKind::FixedPoint,
{
}

/// The terms averaged for a phase are the terms of the window that share the
/// phase: they start at the phase's last occurrence, step back one period at a
/// time, and stop within the first period of the window.
pub proof fn law_phase_terms_in_window(len: int, start: int, period: int, phase: int)
    requires
        period >= 1,
        0 <= start,
        start + 2 * period <= len,
        0 <= phase < period,
    ensures
        phase_terms(len, start, period, phase).len() >= 1,
        phase_terms(len, start, period, phase)[0] == len - period + phase,
        forall|k: int|
            0 <= k < phase_terms(len, start, period, phase).len() ==> start <= #[trigger] phase_terms(
                len,
                start,
                period,
                phase,
            )[k] < len,
        forall|k: int|
            1 <= k < phase_terms(len, start, period, phase).len() ==> #[trigger] phase_terms(
                len,
                start,
                period,
                phase,
            )[k] == phase_terms(len, start, period, phase)[k - 1] - period,
        phase_terms(len, start, period, phase).last() < start + period,
{
    let first = len - period + phase;
    let n = (first - start) / period + 1;
    assert(n >= 1) by (nonlinear_arith)
        requires
            first - start >= 0,
            period >= 1,
            n == (first - start) / period + 1,
    ;
    let t = phase_terms(len, start, period, phase);
    assert forall|k: int| 0 <= k < t.len() implies start <= #[trigger] t[k] < len by {
        assert(start <= first - k * period < len) by (nonlinear_arith)
            requires
                0 <= k < n,
                n == (first - start) / period + 1,
                period >= 1,
                first - start >= 0,
                first < len,
        ;
    }
    assert forall|k: int| 1 <= k < t.len() implies #[trigger] t[k] == t[k - 1] - period by {
        assert(first - k * period == first - (k - 1) * period - period) by (nonlinear_arith);
    }
    assert(first - (n - 1) * period < start + period) by (nonlinear_arith)
        requires
            n == (first - start) / period + 1,
            period >= 1,
            first - start >= 0,
    ;
}

} // verus!
