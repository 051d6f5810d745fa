use delegation_oracle::alerts::{apply_alert_rules, evaluate_alerts, AlertEventKind};
use delegation_oracle::arbitrage::build_arbitrage_opportunities;
use delegation_oracle::config::Config;
use delegation_oracle::conflicts::detect_conflicts;
use delegation_oracle::criteria::CriteriaSet;
use delegation_oracle::differ::{build_drift_report, diff_criteria, DriftImpact};
use delegation_oracle::evaluator::evaluate_validator;
use delegation_oracle::metric::{Constraint, Criterion, MetricKey};
use delegation_oracle::metrics::ValidatorMetrics;
use delegation_oracle::program::ProgramId;
use delegation_oracle::programs::{MarinadeProgram, SfdpProgram};
use delegation_oracle::recommend::build_recommendations;
use delegation_oracle::analysis::record_from_result;
use delegation_oracle::insights::{
    assess_threats, queue_standing, summarize_cohorts, summarize_scan, ProgramStatus,
};
use delegation_oracle::programs::{Difficulty, EligibleValidator, RegistrationStatus};
use delegation_oracle::vulnerability::{
    analyze_vulnerabilities, sample_competitors, CompetitorSnapshot, TrendDirection,
};

fn criterion(name: &str, metric: MetricKey, constraint: Constraint) -> Criterion {
    Criterion {
        name: String::from(name),
        metric,
        constraint,
        weight: None,
        description: String::from("test rule"),
    }
}

fn set_of(program: ProgramId, criteria: Vec<Criterion>) -> CriteriaSet {
    CriteriaSet::with_hash(program, String::from("https://example.test/criteria"), criteria)
}

#[test]
fn peers_near_a_boundary_are_flagged_with_trend_and_eta() {
    // Passing at 96 against Min(95): margin just over one percent.
    let mut current = ValidatorMetrics::sample(String::from("PeerVote111111111111111111111111111111"));
    current.uptime_percent = 960_000;
    let mut previous = ValidatorMetrics::sample(String::from("PeerVote111111111111111111111111111111"));
    previous.uptime_percent = 970_000;
    let peer = CompetitorSnapshot {
        metrics: current,
        previous_metrics: Some(previous),
        current_delegation_sol: 75_000_000,
    };
    let set = set_of(
        ProgramId::Sfdp,
        vec![criterion("uptime floor", MetricKey::UptimePercent, Constraint::Min(950_000))],
    );
    // Margin allowance of five percent (fixed point).
    let vulnerable = analyze_vulnerabilities(ProgramId::Sfdp, &set, &[peer], 50_000);
    assert_eq!(vulnerable.len(), 1);
    assert_eq!(vulnerable[0].metrics_at_risk.len(), 1);
    let at_risk = &vulnerable[0].metrics_at_risk[0];
    assert_eq!(at_risk.current_value, 960_000);
    assert_eq!(at_risk.threshold, 950_000);
    assert_eq!(at_risk.trend, TrendDirection::Deteriorating);
    // Distance 1.0 closing at 1.0 per epoch: one epoch left.
    assert_eq!(vulnerable[0].epochs_until_likely_loss, Some(1));
    assert_eq!(vulnerable[0].current_delegation_sol, 75_000_000);
}

#[test]
fn peers_outside_the_margin_are_omitted() {
    let mut comfortable = ValidatorMetrics::sample(String::from("SafeVote11111111111111111111111111111"));
    comfortable.uptime_percent = 990_000;
    let peer = CompetitorSnapshot {
        metrics: comfortable,
        previous_metrics: None,
        current_delegation_sol: 1,
    };
    let set = set_of(
        ProgramId::Sfdp,
        vec![criterion("uptime floor", MetricKey::UptimePercent, Constraint::Min(900_000))],
    );
    let vulnerable = analyze_vulnerabilities(ProgramId::Sfdp, &set, &[peer], 50_000);
    assert!(vulnerable.is_empty());
}

#[test]
fn stable_trend_without_previous_snapshot() {
    let mut current = ValidatorMetrics::sample(String::from("StabVote11111111111111111111111111111"));
    current.uptime_percent = 960_000;
    let peer = CompetitorSnapshot {
        metrics: current,
        previous_metrics: None,
        current_delegation_sol: 0,
    };
    let set = set_of(
        ProgramId::Sfdp,
        vec![criterion("uptime floor", MetricKey::UptimePercent, Constraint::Min(950_000))],
    );
    let vulnerable = analyze_vulnerabilities(ProgramId::Sfdp, &set, &[peer], 50_000);
    assert_eq!(vulnerable.len(), 1);
    assert_eq!(vulnerable[0].metrics_at_risk[0].trend, TrendDirection::Stable);
    assert_eq!(vulnerable[0].epochs_until_likely_loss, None);
}

#[test]
fn recommendations_take_opportunities_then_contradictions() {
    let mut metrics = ValidatorMetrics::sample(String::from("RecVote111111111111111111111111111111"));
    metrics.commission = 90_000;
    let fee_set = set_of(
        ProgramId::Sfdp,
        vec![criterion("fee", MetricKey::Commission, Constraint::Max(70_000))],
    );
    let results = vec![evaluate_validator(ProgramId::Sfdp, &metrics, &fee_set, None)];
    let estimates = vec![(ProgramId::Sfdp, 50_000_000i64)];
    let opportunities = build_arbitrage_opportunities(&results, &estimates);

    let a = set_of(
        ProgramId::Jito,
        vec![criterion("floor", MetricKey::ActivatedStake, Constraint::Min(2_000_000_000))],
    );
    let b = set_of(
        ProgramId::Marinade,
        vec![criterion("cap", MetricKey::ActivatedStake, Constraint::Max(1_000_000_000))],
    );
    let conflicts = detect_conflicts(&[a, b]);

    let recommendations = build_recommendations(&opportunities, &conflicts, 5);
    assert_eq!(recommendations.len(), 2);
    assert_eq!(recommendations[0].priority, 1);
    assert_eq!(recommendations[0].title, "Target SFDP");
    assert_eq!(recommendations[0].effort, "trivial");
    assert_eq!(recommendations[0].expected_gain_sol, 50_000_000);
    assert_eq!(
        recommendations[0].rationale,
        "Estimated +5000 SOL if eligible. Required changes: commission (delta 2.000)."
    );
    assert_eq!(recommendations[1].priority, 2);
    assert_eq!(recommendations[1].expected_gain_sol, 0);
    assert_eq!(recommendations[1].effort, "high");

    let only_one = build_recommendations(&opportunities, &conflicts, 1);
    assert_eq!(only_one.len(), 1);
    assert_eq!(only_one[0].title, "Target SFDP");
}

#[test]
fn alerts_cover_drift_vulnerability_and_transitions() {
    let mut metrics = ValidatorMetrics::sample(String::from("AlrtVote11111111111111111111111111111"));
    metrics.commission = 50_000;
    let pass_set = set_of(
        ProgramId::Marinade,
        vec![criterion("fee", MetricKey::Commission, Constraint::Max(70_000))],
    );
    let fail_set = set_of(
        ProgramId::Marinade,
        vec![criterion("fee", MetricKey::Commission, Constraint::Max(10_000))],
    );
    let before = vec![evaluate_validator(ProgramId::Marinade, &metrics, &pass_set, None)];
    let after = vec![evaluate_validator(ProgramId::Marinade, &metrics, &fail_set, None)];
    let drift = build_drift_report(&pass_set, &fail_set, Some(&before[0]), Some(&after[0]))
        .expect("differing hashes must report drift");
    assert_eq!(drift.impact_on_you, DriftImpact::NowIneligible);
    assert_eq!(diff_criteria(&pass_set, &fail_set).len(), 1);

    let events = evaluate_alerts(Some(&before), &after, &[drift], &[]);
    assert_eq!(events.len(), 2);
    assert_eq!(events[0].kind, AlertEventKind::CriteriaDrift);
    assert_eq!(events[0].title, "Criteria drift detected in Marinade");
    assert_eq!(events[0].body, "1 changes detected; impact: NowIneligible");
    assert_eq!(events[1].kind, AlertEventKind::EligibilityLost);
    assert_eq!(events[1].title, "Eligibility lost in Marinade");

    let config = Config::default_config();
    let mut rules = config.alerts.rules;
    rules.eligibility_lost = false;
    let kept = apply_alert_rules(events, &rules);
    assert_eq!(kept.len(), 1);
    assert_eq!(kept[0].kind, AlertEventKind::CriteriaDrift);
}

#[test]
fn threat_scores_follow_the_fixed_bands() {
    let mut metrics = ValidatorMetrics::sample(String::from("ThrVote111111111111111111111111111111"));
    metrics.commission = 90_000;
    let fail_set = set_of(
        ProgramId::Sfdp,
        vec![criterion("fee", MetricKey::Commission, Constraint::Max(70_000))],
    );
    let pass_set = set_of(
        ProgramId::Jito,
        vec![criterion("fee", MetricKey::Commission, Constraint::Max(100_000))],
    );
    let results = vec![
        delegation_oracle::evaluator::evaluate_validator(ProgramId::Sfdp, &metrics, &fail_set, None),
        delegation_oracle::evaluator::evaluate_validator(ProgramId::Jito, &metrics, &pass_set, None),
    ];
    let estimates = vec![(ProgramId::Sfdp, 9_000_000i64)];
    let (threats, overall) = assess_threats(&results, &estimates);
    assert_eq!(threats.len(), 2);
    assert_eq!(threats[0].risk_score, 7_800);
    assert_eq!(threats[0].threat_level, "high");
    assert_eq!(threats[0].estimated_stake_at_risk_sol, 9_000_000);
    assert_eq!(threats[0].notes, vec![String::from("fee")]);
    assert_eq!(threats[1].risk_score, 1_200);
    assert_eq!(threats[1].threat_level, "low");
    assert_eq!(threats[1].estimated_stake_at_risk_sol, 0);
    assert_eq!(overall, (7_800 + 1_200) / 2);
}

#[test]
fn scan_summary_totals_and_action_items() {
    let programs = vec![
        ProgramStatus {
            name: String::from("jito"),
            display_name: String::from("Jito StakeNet"),
            status: RegistrationStatus::NotRegistered,
            current_stake_sol: 0,
            potential_stake_sol: 8_000_000,
            gap_sol: 8_000_000,
            registration_url: Some(String::from("https://example.test/register")),
        },
        ProgramStatus {
            name: String::from("sfdp"),
            display_name: String::from("SFDP"),
            status: RegistrationStatus::Ineligible,
            current_stake_sol: 0,
            potential_stake_sol: 250_000_000,
            gap_sol: 250_000_000,
            registration_url: None,
        },
        ProgramStatus {
            name: String::from("marinade"),
            display_name: String::from("Marinade"),
            status: RegistrationStatus::Active,
            current_stake_sol: 5_000_000,
            potential_stake_sol: 5_000_000,
            gap_sol: 0,
            registration_url: None,
        },
    ];
    let summary = summarize_scan(&programs);
    assert_eq!(summary.total_current_sol, 5_000_000);
    assert_eq!(summary.total_potential_sol, 263_000_000);
    assert_eq!(summary.missed_revenue_sol, 258_000_000);
    assert_eq!(summary.missed_revenue_usd, 258_000_000 * 200);
    // Only the registrable program with a gap earns an action item.
    assert_eq!(summary.action_items.len(), 1);
    assert_eq!(summary.action_items[0].program, "jito");
    assert_eq!(summary.action_items[0].action, "Register with Jito StakeNet");
    assert_eq!(summary.action_items[0].difficulty, Difficulty::Easy);
}

#[test]
fn queue_standing_ranks_by_delegation_then_score() {
    let entries = vec![
        EligibleValidator {
            vote_pubkey: String::from("Small"),
            score: Some(9_000),
            delegated_sol: Some(1_000_000),
        },
        EligibleValidator {
            vote_pubkey: String::from("Big"),
            score: Some(1_000),
            delegated_sol: Some(9_000_000),
        },
        EligibleValidator {
            vote_pubkey: String::from("Tie"),
            score: Some(2_000),
            delegated_sol: Some(1_000_000),
        },
    ];
    let (ranked, standing) = queue_standing(entries, "Small");
    assert_eq!(ranked[0].vote_pubkey, "Big");
    assert_eq!(ranked[1].vote_pubkey, "Small");
    assert_eq!(ranked[2].vote_pubkey, "Tie");
    assert_eq!(standing.total, 3);
    assert_eq!(standing.position, Some(2));
    // Two of three entries sit at or below this position.
    assert_eq!(standing.percentile, Some(666_666));
    let (_, missing) = queue_standing(Vec::new(), "Nobody");
    assert_eq!(missing.position, None);
    assert_eq!(missing.percentile, None);
}

#[test]
fn cohort_flows_count_flips_over_epochs() {
    let metrics = ValidatorMetrics::sample(String::from("CohVote111111111111111111111111111111"));
    let pass_set = set_of(
        ProgramId::Sfdp,
        vec![criterion("fee", MetricKey::Commission, Constraint::Max(70_000))],
    );
    let fail_set = set_of(
        ProgramId::Sfdp,
        vec![criterion("fee", MetricKey::Commission, Constraint::Max(10_000))],
    );
    let good = evaluate_validator(ProgramId::Sfdp, &metrics, &pass_set, Some(4_000_000));
    let bad = evaluate_validator(ProgramId::Sfdp, &metrics, &fail_set, None);
    // Out-of-order epochs: the aggregation orders them before counting flips.
    let records = vec![
        record_from_result(String::from("v"), 3, &good),
        record_from_result(String::from("v"), 1, &good),
        record_from_result(String::from("v"), 2, &bad),
    ];
    let cohorts = summarize_cohorts(&records);
    assert_eq!(cohorts.len(), 1);
    assert_eq!(cohorts[0].program, ProgramId::Sfdp);
    assert_eq!(cohorts[0].samples, 3);
    // Eligible 2 of 3, in fixed point.
    assert_eq!(cohorts[0].eligible_ratio, 6_666);
    // Ordered by epoch: eligible, ineligible, eligible.
    assert_eq!(cohorts[0].gain_events, 1);
    assert_eq!(cohorts[0].loss_events, 1);
    assert_eq!(cohorts[0].avg_delegation_sol, 8_000_000 / 3);
}

#[test]
fn sampled_peers_carry_previous_snapshots() {
    let base = ValidatorMetrics::sample(String::from("BaseVote11111111111111111111111111111"));
    let peers = sample_competitors(&base);
    assert_eq!(peers.len(), 8);
    assert_eq!(peers[0].current_delegation_sol, 75_000_000);
    assert_eq!(peers[7].current_delegation_sol, 75_000_000 + 7 * 25_000_000);
    assert!(peers.iter().all(|p| p.previous_metrics.is_some()));
    assert_eq!(peers[3].metrics.vote_pubkey, "CompetitorVote03");
    assert_eq!(peers[2].metrics.skip_rate, base.skip_rate + 2 * 2_500);
}

#[test]
fn program_tables_evaluate_uniformly() {
    let metrics = ValidatorMetrics::sample(String::from("ProgVote11111111111111111111111111111"));
    let sfdp = SfdpProgram;
    let set = set_of(ProgramId::Sfdp, sfdp.default_criteria());
    let result = sfdp.evaluate(&metrics, &set);
    assert_eq!(result.program, ProgramId::Sfdp);
    assert_eq!(result.criterion_results.len(), 6);
    // The sample snapshot passes every fallback rule of SFDP.
    assert!(result.eligible);
    // Estimate: 40000 + 156000 * 0.06 = 49360 SOL, under the cap.
    assert_eq!(result.estimated_delegation_sol, Some(493_600_000));

    let marinade = MarinadeProgram;
    let est = marinade.estimate_delegation(&metrics).expect("estimate");
    // 18000 + ((98.5 + 99.1) / 2) * 190 + (10 - 5) * 900 = 41272 SOL.
    assert_eq!(est, 412_720_000);
}
