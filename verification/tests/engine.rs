use delegation_oracle::arbitrage::build_arbitrage_opportunities;
use delegation_oracle::conflicts::{detect_conflicts, ConflictType};
use delegation_oracle::criteria::CriteriaSet;
use delegation_oracle::differ::{
    build_drift_report, classify_drift_impact, diff_criteria, ChangeType, DriftImpact,
};
use delegation_oracle::evaluator::{
    estimate_effort, evaluate_criterion, evaluate_validator, EffortLevel,
};
use delegation_oracle::metric::{Constraint, Criterion, MetricKey};
use delegation_oracle::metrics::ValidatorMetrics;
use delegation_oracle::program::ProgramId;
use delegation_oracle::whatif::{dedupe_metric_changes, simulate_whatif};

fn sample_metrics() -> ValidatorMetrics {
    ValidatorMetrics::sample(String::from("TestVote1111111111111111111111111111111111"))
}

fn criterion(name: &str, metric: MetricKey, constraint: Constraint, weight: Option<i64>) -> Criterion {
    Criterion {
        name: String::from(name),
        metric,
        constraint,
        weight,
        description: String::from("test rule"),
    }
}

fn set_of(program: ProgramId, criteria: Vec<Criterion>) -> CriteriaSet {
    CriteriaSet::with_hash(program, String::from("https://example.test/criteria"), criteria)
}

#[test]
fn commission_gap_against_max_seven() {
    // A participant at 9.0 against Max(7.0): failed, delta 2.0, trivial effort.
    let mut metrics = sample_metrics();
    metrics.commission = 90_000;
    let c = criterion("Commission cap", MetricKey::Commission, Constraint::Max(70_000), None);
    let result = evaluate_criterion(&metrics, &c);
    assert!(!result.passed);
    let gap = result.gap.expect("numeric failure must carry a gap");
    assert_eq!(gap.delta, 20_000);
    assert_eq!(gap.current_value, 90_000);
    assert_eq!(gap.required_value, 70_000);
    assert_eq!(gap.effort_estimate, EffortLevel::Trivial);
}

#[test]
fn eligibility_gate_is_unweighted_and_over_all_criteria() {
    let mut metrics = sample_metrics();
    metrics.commission = 50_000;
    metrics.skip_rate = 90_000;
    let criteria = vec![
        criterion("low fee", MetricKey::Commission, Constraint::Max(70_000), Some(0)),
        criterion("low skips", MetricKey::SkipRate, Constraint::Max(40_000), Some(0)),
    ];
    let set = set_of(ProgramId::Marinade, criteria);
    let result = evaluate_validator(ProgramId::Marinade, &metrics, &set, Some(1_000_000));
    assert!(!result.eligible);
    assert_eq!(result.criterion_results.len(), 2);
    assert!(result.criterion_results[0].passed);
    assert!(!result.criterion_results[1].passed);
    assert_eq!(result.estimated_delegation_sol, None);

    let passing = vec![criterion("low fee", MetricKey::Commission, Constraint::Max(70_000), None)];
    let set = set_of(ProgramId::Marinade, passing);
    let result = evaluate_validator(ProgramId::Marinade, &metrics, &set, Some(1_000_000));
    assert!(result.eligible);
    assert_eq!(result.estimated_delegation_sol, Some(1_000_000));
}

#[test]
fn weighted_score_is_the_passed_share() {
    let mut metrics = sample_metrics();
    metrics.commission = 50_000;
    metrics.skip_rate = 90_000;
    let criteria = vec![
        criterion("passes", MetricKey::Commission, Constraint::Max(70_000), Some(10_000)),
        criterion("fails", MetricKey::SkipRate, Constraint::Max(40_000), Some(30_000)),
    ];
    let set = set_of(ProgramId::Jito, criteria);
    let result = evaluate_validator(ProgramId::Jito, &metrics, &set, None);
    // 1.0 of 4.0 total weight passed: score 0.25.
    assert_eq!(result.score, Some(2_500));
}

#[test]
fn omitted_weight_acts_as_one_and_negative_as_zero() {
    let mut metrics = sample_metrics();
    metrics.commission = 50_000;
    metrics.skip_rate = 90_000;
    let omitted = vec![
        criterion("passes", MetricKey::Commission, Constraint::Max(70_000), None),
        criterion("fails", MetricKey::SkipRate, Constraint::Max(40_000), None),
    ];
    let explicit = vec![
        criterion("passes", MetricKey::Commission, Constraint::Max(70_000), Some(10_000)),
        criterion("fails", MetricKey::SkipRate, Constraint::Max(40_000), Some(10_000)),
    ];
    let a = evaluate_validator(
        ProgramId::Sfdp,
        &metrics,
        &set_of(ProgramId::Sfdp, omitted),
        None,
    );
    let b = evaluate_validator(
        ProgramId::Sfdp,
        &metrics,
        &set_of(ProgramId::Sfdp, explicit),
        None,
    );
    assert_eq!(a.score, b.score);
    assert_eq!(a.eligible, b.eligible);

    let negative = vec![
        criterion("passes", MetricKey::Commission, Constraint::Max(70_000), Some(-50_000)),
        criterion("fails", MetricKey::SkipRate, Constraint::Max(40_000), Some(10_000)),
    ];
    let zero = vec![
        criterion("passes", MetricKey::Commission, Constraint::Max(70_000), Some(0)),
        criterion("fails", MetricKey::SkipRate, Constraint::Max(40_000), Some(10_000)),
    ];
    let a = evaluate_validator(
        ProgramId::Sfdp,
        &metrics,
        &set_of(ProgramId::Sfdp, negative),
        None,
    );
    let b = evaluate_validator(ProgramId::Sfdp, &metrics, &set_of(ProgramId::Sfdp, zero), None);
    assert_eq!(a.score, b.score);
    assert_eq!(a.eligible, b.eligible);
}

#[test]
fn custom_constraints_always_pass() {
    let metrics = sample_metrics();
    let c = criterion(
        "escape hatch",
        MetricKey::SolanaVersion,
        Constraint::Custom(String::from("manual review")),
        None,
    );
    let result = evaluate_criterion(&metrics, &c);
    assert!(result.passed);
    assert!(result.gap.is_none());
}

#[test]
fn type_mismatch_fails_without_gap() {
    let metrics = sample_metrics();
    let c = criterion(
        "version floor",
        MetricKey::SolanaVersion,
        Constraint::Min(10_000),
        None,
    );
    let result = evaluate_criterion(&metrics, &c);
    assert!(!result.passed);
    assert!(result.gap.is_none());
}

#[test]
fn stake_effort_table_uses_relative_distance() {
    // ratio <= 0.10 is moderate, <= 0.35 hard, above impossible.
    let key = MetricKey::ActivatedStake;
    assert_eq!(estimate_effort(&key, 100_000, 1_000_000), EffortLevel::Moderate);
    assert_eq!(estimate_effort(&key, 350_000, 1_000_000), EffortLevel::Hard);
    assert_eq!(estimate_effort(&key, 350_001, 1_000_000), EffortLevel::Impossible);
    assert_eq!(estimate_effort(&key, 1, 0), EffortLevel::Impossible);
    assert_eq!(estimate_effort(&MetricKey::SuperminorityStatus, 0, 0), EffortLevel::Impossible);
    assert_eq!(estimate_effort(&MetricKey::SkipRate, 10_000, 0), EffortLevel::Moderate);
    assert_eq!(estimate_effort(&MetricKey::SkipRate, 10_001, 0), EffortLevel::Hard);
}

#[test]
fn identical_sets_produce_no_diff_and_no_drift() {
    let criteria = vec![criterion(
        "low fee",
        MetricKey::Commission,
        Constraint::Max(70_000),
        None,
    )];
    let a = set_of(ProgramId::Sfdp, criteria);
    let changes = diff_criteria(&a, &a);
    assert!(changes.is_empty());
    assert!(build_drift_report(&a, &a, None, None).is_none());
}

#[test]
fn equal_content_hashes_alike_and_different_content_differs() {
    let mk = || vec![criterion("low fee", MetricKey::Commission, Constraint::Max(70_000), None)];
    let a = set_of(ProgramId::Sfdp, mk());
    let b = set_of(ProgramId::Sfdp, mk());
    assert_eq!(a.raw_hash, b.raw_hash);
    assert_eq!(a.raw_hash.len(), 64);
    assert!(a.raw_hash.chars().all(|c| c.is_ascii_hexdigit()));
    let c = set_of(
        ProgramId::Sfdp,
        vec![criterion("low fee", MetricKey::Commission, Constraint::Max(80_000), None)],
    );
    assert_ne!(a.raw_hash, c.raw_hash);
    assert!(build_drift_report(&a, &b, None, None).is_none());
    assert!(build_drift_report(&a, &c, None, None).is_some());
}

#[test]
fn description_only_change_reports_one_description_entry() {
    let old_set = set_of(
        ProgramId::JPool,
        vec![criterion("uptime", MetricKey::UptimePercent, Constraint::Min(980_000), None)],
    );
    let mut changed = criterion("uptime", MetricKey::UptimePercent, Constraint::Min(980_000), None);
    changed.description = String::from("a new wording");
    let new_set = set_of(ProgramId::JPool, vec![changed]);
    let changes = diff_criteria(&old_set, &new_set);
    assert_eq!(changes.len(), 1);
    assert_eq!(changes[0].change_type, ChangeType::DescriptionChanged);
}

#[test]
fn threshold_and_weight_checks_are_independent() {
    let old_set = set_of(
        ProgramId::JPool,
        vec![criterion("uptime", MetricKey::UptimePercent, Constraint::Min(980_000), Some(10_000))],
    );
    let new_set = set_of(
        ProgramId::JPool,
        vec![criterion("uptime", MetricKey::UptimePercent, Constraint::Min(990_000), Some(20_000))],
    );
    let changes = diff_criteria(&old_set, &new_set);
    assert_eq!(changes.len(), 2);
    assert_eq!(changes[0].change_type, ChangeType::ThresholdChanged);
    assert_eq!(changes[0].old_value.as_deref(), Some(">= 98"));
    assert_eq!(changes[0].new_value.as_deref(), Some(">= 99"));
    assert_eq!(changes[1].change_type, ChangeType::WeightChanged);
    assert_eq!(changes[1].old_value.as_deref(), Some("1.0000"));
    assert_eq!(changes[1].new_value.as_deref(), Some("2.0000"));
}

#[test]
fn added_and_removed_rules_are_reported() {
    let old_set = set_of(
        ProgramId::Jito,
        vec![criterion("gone", MetricKey::SkipRate, Constraint::Max(30_000), None)],
    );
    let new_set = set_of(
        ProgramId::Jito,
        vec![criterion("fresh", MetricKey::Commission, Constraint::Max(50_000), None)],
    );
    let changes = diff_criteria(&old_set, &new_set);
    assert_eq!(changes.len(), 2);
    // Names are scanned in ascending order: "fresh" before "gone".
    assert_eq!(changes[0].change_type, ChangeType::Added);
    assert_eq!(changes[0].criterion_name, "fresh");
    assert_eq!(changes[0].new_value.as_deref(), Some("<= 5"));
    assert_eq!(changes[1].change_type, ChangeType::Removed);
    assert_eq!(changes[1].criterion_name, "gone");
}

#[test]
fn diff_scans_names_ascending_and_last_duplicate_governs() {
    // Removals of two rules come out in ascending name order.
    let old_set = set_of(
        ProgramId::Jito,
        vec![
            criterion("zeta", MetricKey::SkipRate, Constraint::Max(30_000), None),
            criterion("alpha", MetricKey::Commission, Constraint::Max(50_000), None),
        ],
    );
    let empty_set = set_of(ProgramId::Jito, Vec::new());
    let changes = diff_criteria(&old_set, &empty_set);
    assert_eq!(changes.len(), 2);
    assert_eq!(changes[0].criterion_name, "alpha");
    assert_eq!(changes[1].criterion_name, "zeta");

    // With a repeated name, the last criterion governs the comparison:
    // a change to it alone is still reported.
    let mk_dup = |description: &str| {
        let mut later = criterion("fee", MetricKey::Commission, Constraint::Max(70_000), None);
        later.description = String::from(description);
        vec![
            criterion("fee", MetricKey::Commission, Constraint::Max(70_000), None),
            later,
        ]
    };
    let old_dup = set_of(ProgramId::Sfdp, mk_dup("first wording"));
    let new_dup = set_of(ProgramId::Sfdp, mk_dup("second wording"));
    let changes = diff_criteria(&old_dup, &new_dup);
    assert_eq!(changes.len(), 1);
    assert_eq!(changes[0].change_type, ChangeType::DescriptionChanged);
    assert_eq!(changes[0].old_value.as_deref(), Some("first wording"));
    assert_eq!(changes[0].new_value.as_deref(), Some("second wording"));
}

#[test]
fn unset_custom_metric_degrades_to_the_failing_sentinel() {
    // An unset custom reading must not default to zero and slip past a cap.
    let metrics = sample_metrics();
    let capped = criterion(
        "made-up cap",
        MetricKey::Custom(String::from("made_up")),
        Constraint::Max(1_000_000),
        None,
    );
    let result = evaluate_criterion(&metrics, &capped);
    assert!(!result.passed);
    assert!(result.gap.is_none());
    assert!(matches!(
        result.your_value,
        delegation_oracle::metric::MetricValue::Text(ref t) if t == "unknown"
    ));

    // A custom constraint still passes whatever the reading.
    let escape = criterion(
        "escape",
        MetricKey::Custom(String::from("made_up")),
        Constraint::Custom(String::from("manual")),
        None,
    );
    assert!(evaluate_criterion(&metrics, &escape).passed);

    // A stored custom reading is used as before.
    let mut with_reading = sample_metrics();
    assert!(with_reading.apply_numeric_change(&MetricKey::Custom(String::from("made_up")), 5));
    let result = evaluate_criterion(&with_reading, &capped);
    assert!(result.passed);
}

#[test]
fn tension_zone_tracks_the_floor_magnitude_exactly() {
    // A window wider than a tenth of the floor's magnitude is no
    // conflict, even near zero.
    let a = set_of(
        ProgramId::Sfdp,
        vec![criterion("floor", MetricKey::StakeConcentration, Constraint::Min(2_000), None)],
    );
    let b = set_of(
        ProgramId::Marinade,
        vec![criterion("cap", MetricKey::StakeConcentration, Constraint::Max(2_900), None)],
    );
    assert!(detect_conflicts(&[a, b]).is_empty());

    // At a tenth exactly, the window is a tension zone.
    let a = set_of(
        ProgramId::Sfdp,
        vec![criterion("floor", MetricKey::StakeConcentration, Constraint::Min(2_000), None)],
    );
    let b = set_of(
        ProgramId::Marinade,
        vec![criterion("cap", MetricKey::StakeConcentration, Constraint::Max(2_200), None)],
    );
    let conflicts = detect_conflicts(&[a, b]);
    assert_eq!(conflicts.len(), 1);
    assert_eq!(conflicts[0].conflict_type, ConflictType::TensionZone);
}

#[test]
fn requested_changes_collapse_to_one_per_key_in_key_order() {
    let changes = vec![
        (MetricKey::SkipRate, 10_000i64),
        (MetricKey::Custom(String::from("alpha")), 7i64),
        (MetricKey::Commission, 40_000i64),
        (MetricKey::SkipRate, 25_000i64),
    ];
    let deduped = dedupe_metric_changes(&changes);
    assert_eq!(deduped.len(), 3);
    assert!(deduped[0].0.eqv(&MetricKey::Commission));
    assert_eq!(deduped[0].1, 40_000);
    assert!(deduped[1].0.eqv(&MetricKey::SkipRate));
    // The last requested value for a repeated key wins.
    assert_eq!(deduped[1].1, 25_000);
    assert!(deduped[2].0.eqv(&MetricKey::Custom(String::from("alpha"))));
}

#[test]
fn drift_impact_covers_every_transition() {
    let mut metrics = sample_metrics();
    metrics.commission = 50_000;
    let pass_set = set_of(
        ProgramId::Sfdp,
        vec![criterion("fee", MetricKey::Commission, Constraint::Max(70_000), None)],
    );
    let fail_set = set_of(
        ProgramId::Sfdp,
        vec![criterion("fee", MetricKey::Commission, Constraint::Max(10_000), None)],
    );
    let pass = evaluate_validator(ProgramId::Sfdp, &metrics, &pass_set, None);
    let fail = evaluate_validator(ProgramId::Sfdp, &metrics, &fail_set, None);
    assert_eq!(classify_drift_impact(None, None), DriftImpact::NotApplicable);
    assert_eq!(classify_drift_impact(Some(&pass), None), DriftImpact::NotApplicable);
    assert_eq!(classify_drift_impact(Some(&fail), Some(&pass)), DriftImpact::NowEligible);
    assert_eq!(classify_drift_impact(Some(&pass), Some(&fail)), DriftImpact::NowIneligible);
    assert_eq!(classify_drift_impact(Some(&fail), Some(&fail)), DriftImpact::NotApplicable);
    assert_eq!(classify_drift_impact(Some(&pass), Some(&pass)), DriftImpact::StillEligible);

    // An eligible snapshot carries no gaps, so staying eligible stays calm.
    let mut close = sample_metrics();
    close.commission = 69_000;
    let close_pass = evaluate_validator(ProgramId::Sfdp, &close, &pass_set, None);
    assert_eq!(classify_drift_impact(Some(&pass), Some(&close_pass)), DriftImpact::StillEligible);
}

#[test]
fn opportunities_rank_by_gain_per_effort_descending() {
    let mut metrics = sample_metrics();
    metrics.commission = 90_000;
    metrics.skip_rate = 90_000;
    let cheap = set_of(
        ProgramId::Sfdp,
        vec![criterion("fee", MetricKey::Commission, Constraint::Max(70_000), None)],
    );
    let harder = set_of(
        ProgramId::Jito,
        vec![criterion("skips", MetricKey::SkipRate, Constraint::Max(40_000), None)],
    );
    let results = vec![
        evaluate_validator(ProgramId::Sfdp, &metrics, &cheap, None),
        evaluate_validator(ProgramId::Jito, &metrics, &harder, None),
    ];
    let estimates = vec![(ProgramId::Sfdp, 100_000_000i64), (ProgramId::Jito, 100_000_000i64)];
    let opportunities = build_arbitrage_opportunities(&results, &estimates);
    assert_eq!(opportunities.len(), 2);
    // Trivial effort (cost 1) beats hard effort (cost 4) at equal gain.
    assert_eq!(opportunities[0].program, ProgramId::Sfdp);
    assert_eq!(opportunities[0].total_effort, EffortLevel::Trivial);
    assert_eq!(opportunities[0].roi_score, 100_000_000);
    assert_eq!(opportunities[1].roi_score, 25_000_000);
    assert!(opportunities[0].roi_score >= opportunities[1].roi_score);
}

#[test]
fn eligible_results_and_gapless_failures_yield_no_opportunity() {
    let mut metrics = sample_metrics();
    metrics.commission = 50_000;
    let pass_set = set_of(
        ProgramId::Sfdp,
        vec![criterion("fee", MetricKey::Commission, Constraint::Max(70_000), None)],
    );
    let text_fail = set_of(
        ProgramId::Jito,
        vec![criterion(
            "version",
            MetricKey::SolanaVersion,
            Constraint::Equals(String::from("9.9.9")),
            None,
        )],
    );
    let results = vec![
        evaluate_validator(ProgramId::Sfdp, &metrics, &pass_set, Some(1)),
        evaluate_validator(ProgramId::Jito, &metrics, &text_fail, None),
    ];
    let opportunities = build_arbitrage_opportunities(&results, &[]);
    assert!(opportunities.is_empty());
}

#[test]
fn min_against_max_on_one_metric_is_one_direct_contradiction() {
    // Min(200000) vs Max(100000) on the same metric: exactly one conflict.
    let a = set_of(
        ProgramId::Sfdp,
        vec![criterion("floor", MetricKey::ActivatedStake, Constraint::Min(2_000_000_000), None)],
    );
    let b = set_of(
        ProgramId::Marinade,
        vec![criterion("cap", MetricKey::ActivatedStake, Constraint::Max(1_000_000_000), None)],
    );
    let conflicts = detect_conflicts(&[a, b]);
    assert_eq!(conflicts.len(), 1);
    assert_eq!(conflicts[0].conflict_type, ConflictType::DirectContradiction);
}

#[test]
fn conflict_detection_is_symmetric_in_input_order() {
    let mk_a = || {
        set_of(
            ProgramId::Sfdp,
            vec![criterion("floor", MetricKey::ActivatedStake, Constraint::Min(2_000_000_000), None)],
        )
    };
    let mk_b = || {
        set_of(
            ProgramId::Marinade,
            vec![criterion("cap", MetricKey::ActivatedStake, Constraint::Max(1_000_000_000), None)],
        )
    };
    let forward = detect_conflicts(&[mk_a(), mk_b()]);
    let backward = detect_conflicts(&[mk_b(), mk_a()]);
    assert_eq!(forward.len(), 1);
    assert_eq!(backward.len(), 1);
    assert_eq!(forward[0].conflict_type, backward[0].conflict_type);
    assert!(forward[0].metric.eqv(&backward[0].metric));
}

#[test]
fn fee_metrics_always_surface_an_indirect_impact() {
    let a = set_of(
        ProgramId::Sfdp,
        vec![criterion("fee", MetricKey::Commission, Constraint::Max(70_000), None)],
    );
    let b = set_of(
        ProgramId::Marinade,
        vec![criterion("fee cap", MetricKey::Commission, Constraint::Max(80_000), None)],
    );
    let conflicts = detect_conflicts(&[a, b]);
    assert_eq!(conflicts.len(), 1);
    assert_eq!(conflicts[0].conflict_type, ConflictType::IndirectImpact);
}

#[test]
fn narrow_min_max_window_is_a_tension_zone() {
    let a = set_of(
        ProgramId::Sfdp,
        vec![criterion("floor", MetricKey::UptimePercent, Constraint::Min(980_000), None)],
    );
    let b = set_of(
        ProgramId::Marinade,
        vec![criterion("cap", MetricKey::UptimePercent, Constraint::Max(990_000), None)],
    );
    let conflicts = detect_conflicts(&[a, b]);
    assert_eq!(conflicts.len(), 1);
    assert_eq!(conflicts[0].conflict_type, ConflictType::TensionZone);
}

#[test]
fn empty_change_set_round_trips() {
    let metrics = sample_metrics();
    let sets = vec![
        set_of(
            ProgramId::Sfdp,
            vec![criterion("fee", MetricKey::Commission, Constraint::Max(70_000), None)],
        ),
        set_of(
            ProgramId::Jito,
            vec![criterion("skips", MetricKey::SkipRate, Constraint::Max(10_000), None)],
        ),
    ];
    let estimates = vec![(ProgramId::Sfdp, 5_000_000i64), (ProgramId::Jito, 7_000_000i64)];
    let outcome = simulate_whatif(&sets, &estimates, &metrics, &[], None);
    assert!(outcome.changes_applied.is_empty());
    assert_eq!(outcome.net_delegation_change_sol, 0);
    assert!(outcome.programs_gained.is_empty());
    assert!(outcome.programs_lost.is_empty());
    assert_eq!(outcome.before.len(), outcome.after.len());
    for (b, a) in outcome.before.iter().zip(outcome.after.iter()) {
        assert_eq!(b.eligible, a.eligible);
        assert_eq!(b.score, a.score);
        assert_eq!(b.estimated_delegation_sol, a.estimated_delegation_sol);
    }
}

#[test]
fn whatif_applies_numeric_changes_and_reports_flips() {
    let mut metrics = sample_metrics();
    metrics.commission = 90_000;
    let sets = vec![set_of(
        ProgramId::Sfdp,
        vec![criterion("fee", MetricKey::Commission, Constraint::Max(70_000), None)],
    )];
    let estimates = vec![(ProgramId::Sfdp, 5_000_000i64)];
    let changes = vec![(MetricKey::Commission, 50_000i64)];
    let outcome = simulate_whatif(&sets, &estimates, &metrics, &changes, None);
    assert_eq!(outcome.changes_applied.len(), 1);
    assert_eq!(outcome.changes_applied[0].from, 90_000);
    assert_eq!(outcome.changes_applied[0].to, 50_000);
    assert_eq!(outcome.programs_gained, vec![ProgramId::Sfdp]);
    assert!(outcome.programs_lost.is_empty());
    assert_eq!(outcome.net_delegation_change_sol, 5_000_000);
}

#[test]
fn whatif_rejects_text_and_flag_changes_silently() {
    let metrics = sample_metrics();
    let sets: Vec<CriteriaSet> = Vec::new();
    let changes = vec![
        (MetricKey::SolanaVersion, 10_000i64),
        (MetricKey::SuperminorityStatus, 1i64),
        (MetricKey::SkipRate, 1_000i64),
    ];
    let outcome = simulate_whatif(&sets, &[], &metrics, &changes, None);
    assert_eq!(outcome.changes_applied.len(), 1);
    assert!(outcome.changes_applied[0].metric.eqv(&MetricKey::SkipRate));
}
