use fractal_music::analyzer::{
    AnalysisError, DetectionWindow, candidate_periods, classify_behavior, cycles_match,
    detection_window, is_new_attractor, kind_for_period, phase_indices, reduced_period,
    validate_analysis_parameters, validate_detection_parameters,
};
use fractal_music::models::{AttractorKind, AttractorSummary, BehaviorKind};

#[test]
fn detection_parameters_are_checked_in_order() {
    assert_eq!(validate_detection_parameters(true, 100, 20, 5, 0, true, true), Ok(()));
    assert_eq!(validate_detection_parameters(false, 1, 0, 0, usize::MAX, false, false), Err(AnalysisError::ToleranceNotPositive));
    assert_eq!(validate_detection_parameters(true, 1, 0, 0, usize::MAX, false, false), Err(AnalysisError::WindowTooSmall));
    assert_eq!(validate_detection_parameters(true, 2, 0, 0, usize::MAX, false, false), Err(AnalysisError::MaxPeriodTooSmall));
    assert_eq!(validate_detection_parameters(true, 2, 1, 0, usize::MAX, false, false), Err(AnalysisError::MinRepetitionsTooSmall));
    assert_eq!(validate_detection_parameters(true, 2, 1, 1, usize::MAX, false, false), Err(AnalysisError::StabilityRatioOutOfRange));
    assert_eq!(validate_detection_parameters(true, 2, 1, 1, usize::MAX, true, false), Err(AnalysisError::ClusterToleranceNotPositive));
    assert_eq!(validate_detection_parameters(true, 2, 1, 1, usize::MAX, true, true), Err(AnalysisError::TransientTermsOutOfRange));
    assert_eq!(validate_detection_parameters(true, 2, 1, 1, usize::MAX / 2, true, true), Ok(()));
    assert_eq!(validate_analysis_parameters(1, false, false, 0, 0, 0, 0, false, false), Err(AnalysisError::MaxTermsTooSmall));
    assert_eq!(validate_analysis_parameters(2, false, false, 0, 0, 0, 0, false, false), Err(AnalysisError::DivergenceLimitNotPositive));
    assert_eq!(validate_analysis_parameters(2, true, false, 0, 0, 0, 0, false, false), Err(AnalysisError::ToleranceNotPositive));
    assert_eq!(AnalysisError::WindowTooSmall.message(), "attractor_window must be at least 2");
    assert_eq!(AnalysisError::StabilityRatioOutOfRange.message(), "stability_ratio must be in the interval (0, 1]");
}

#[test]
fn window_starts_after_transient_and_within_reach_of_the_end() {
    assert_eq!(detection_window(40, 0, 20), Some(DetectionWindow { start: 20, size: 20 }));
    assert_eq!(detection_window(40, 30, 20), Some(DetectionWindow { start: 30, size: 10 }));
    assert_eq!(detection_window(10, 0, 20), Some(DetectionWindow { start: 0, size: 10 }));
    assert_eq!(detection_window(40, 39, 20), None);
    assert_eq!(detection_window(1, 0, 20), None);
    assert_eq!(detection_window(0, 500, 20), None);
}

#[test]
fn tried_periods_leave_enough_repetitions() {
    assert_eq!(candidate_periods(20, 6, 5), vec![1, 2, 3]);
    assert_eq!(candidate_periods(60, 6, 5), vec![1, 2, 3, 4, 5, 6]);
    assert_eq!(candidate_periods(20, 20, 1), (1..=10).collect::<Vec<usize>>());
    assert_eq!(candidate_periods(3, 8, 5), Vec::<usize>::new());
}

#[test]
fn phases_are_averaged_over_the_window() {
    // 10 terms, window from 4, period 2: the phases end at 8 and 9.
    assert_eq!(phase_indices(10, 4, 2, 0), vec![8, 6, 4]);
    assert_eq!(phase_indices(10, 4, 2, 1), vec![9, 7, 5]);
    assert_eq!(phase_indices(9, 2, 3, 0), vec![6, 3]);
    assert_eq!(phase_indices(9, 2, 3, 2), vec![8, 5, 2]);
}

fn closeness(values: &[i32], other: &[i32]) -> Vec<Vec<bool>> {
    values.iter().map(|a| other.iter().map(|b| a == b).collect()).collect()
}

#[test]
fn cycles_reduce_to_their_shortest_period() {
    assert_eq!(reduced_period(&closeness(&[1, 2, 1, 2], &[1, 2, 1, 2])), 2);
    assert_eq!(reduced_period(&closeness(&[5, 5, 5], &[5, 5, 5])), 1);
    assert_eq!(reduced_period(&closeness(&[1, 2, 3], &[1, 2, 3])), 3);
    assert_eq!(reduced_period(&closeness(&[1, 2, 1, 3], &[1, 2, 1, 3])), 4);
    assert_eq!(reduced_period(&closeness(&[7], &[7])), 1);
    assert_eq!(kind_for_period(1), AttractorKind::FixedPoint);
    assert_eq!(kind_for_period(3), AttractorKind::Cycle);
}

#[test]
fn cycles_match_up_to_rotation() {
    assert!(cycles_match(&closeness(&[1, 2, 3], &[2, 3, 1])));
    assert!(cycles_match(&closeness(&[1, 2, 3], &[1, 2, 3])));
    assert!(!cycles_match(&closeness(&[1, 2, 3], &[3, 2, 1])));
    assert!(!cycles_match(&closeness(&[], &[])));
}

#[test]
fn behavior_follows_the_first_attractor() {
    let cycle = AttractorSummary { period: 2, kind: AttractorKind::Cycle };
    let fixed = AttractorSummary { period: 1, kind: AttractorKind::FixedPoint };
    assert_eq!(classify_behavior(1, Some(cycle), 2), (BehaviorKind::InsufficientData, String::from("insufficient data")));
    assert_eq!(classify_behavior(40, Some(cycle), 20), (BehaviorKind::Periodic, String::from("cycle detected")));
    assert_eq!(classify_behavior(40, Some(fixed), 20), (BehaviorKind::FixedPoint, String::from("fixed_point detected")));
    assert_eq!(
        classify_behavior(10, None, 20),
        (BehaviorKind::InsufficientData, String::from("insufficient data for attractor detection"))
    );
    assert_eq!(classify_behavior(40, None, 20), (BehaviorKind::ChaoticOrUnresolved, String::from("no stable attractor detected")));
    assert_eq!(AttractorKind::Cycle.name_str(), "cycle");
    assert_eq!(BehaviorKind::ChaoticOrUnresolved.name_str(), "chaotic_or_unresolved");
}

#[test]
fn only_new_cycles_are_kept() {
    // Found so far: a fixed point at 5 and the cycle 1, 2, 3.
    let periods = vec![1, 3];
    let rotated = vec![Vec::new(), closeness(&[2, 3, 1], &[1, 2, 3])];
    assert!(!is_new_attractor(3, &periods, &rotated));
    let reversed = vec![Vec::new(), closeness(&[3, 2, 1], &[1, 2, 3])];
    assert!(is_new_attractor(3, &periods, &reversed));
    let same_point = vec![closeness(&[5], &[5]), Vec::new()];
    assert!(!is_new_attractor(1, &periods, &same_point));
    let other_point = vec![closeness(&[4], &[5]), Vec::new()];
    assert!(is_new_attractor(1, &periods, &other_point));
    assert!(is_new_attractor(2, &periods, &vec![Vec::new(), Vec::new()]));
    assert!(is_new_attractor(2, &vec![], &vec![]));
}
