use delegation_oracle::analysis::{
    bps_to_percent_if_needed, lamports_to_sol_if_needed, percentile, record_from_result,
    summarize_timeline,
};
use delegation_oracle::config::{default_programs_enabled, default_requests_per_second, Config};
use delegation_oracle::criteria::CriteriaSet;
use delegation_oracle::evaluator::evaluate_validator;
use delegation_oracle::metric::{Constraint, Criterion, MetricKey};
use delegation_oracle::metrics::{apply_overrides, MetricOverrides, ValidatorMetrics};
use delegation_oracle::program::{all_programs, parse_programs, ProgramId};
use delegation_oracle::recommend::effort_label;
use delegation_oracle::evaluator::EffortLevel;
use delegation_oracle::text::{fp_to_string, fp_to_string3, fp_to_string4, u64_to_string};

#[test]
fn parses_program_names() {
    let programs = parse_programs(&["sfdp".to_string(), "jito".to_string()])
        .expect("failed to parse programs");
    assert_eq!(programs.len(), 2);
}

#[test]
fn program_parsing_trims_folds_case_and_sorts() {
    let programs = parse_programs(&[
        " JITO ".to_string(),
        "sfdp".to_string(),
        "jito".to_string(),
        "solana-foundation".to_string(),
    ])
    .expect("aliases must parse");
    assert_eq!(programs, vec![ProgramId::Sfdp, ProgramId::Jito]);
    assert!(parse_programs(&[]).is_err());
    assert!(parse_programs(&["sfdp".to_string(), "nonsense".to_string()]).is_err());
}

#[test]
fn program_slugs_round_trip() {
    for p in all_programs() {
        let parsed = ProgramId::from_str(p.as_slug()).expect("slug must parse");
        assert_eq!(parsed, p);
    }
    assert!(ProgramId::from_str("unknown-program").is_err());
}

#[test]
fn metric_names_fold_dashes_and_case() {
    assert!(matches!(
        MetricKey::from_str("MEV-Commission"),
        Ok(MetricKey::MevCommission)
    ));
    assert!(matches!(MetricKey::from_str(" uptime "), Ok(MetricKey::UptimePercent)));
    match MetricKey::from_str("My-Custom Metric?") {
        Ok(MetricKey::Custom(name)) => assert_eq!(name, "my_custom metric?"),
        other => panic!("expected a custom key, got {:?}", other),
    }
    assert!(MetricKey::from_str("   ").is_err());
}

#[test]
fn fixed_point_rendering_matches_decimal_forms() {
    assert_eq!(u64_to_string(0), "0");
    assert_eq!(u64_to_string(1234), "1234");
    assert_eq!(fp_to_string(70_000), "7");
    assert_eq!(fp_to_string(985_000), "98.5");
    assert_eq!(fp_to_string(-15_000), "-1.5");
    assert_eq!(fp_to_string(25), "0.0025");
    assert_eq!(fp_to_string4(15_000), "1.5000");
    assert_eq!(fp_to_string4(-10_001), "-1.0001");
    assert_eq!(fp_to_string3(20_000), "2.000");
    assert_eq!(fp_to_string3(12_345), "1.235");
}

#[test]
fn effort_labels_match_their_levels() {
    assert_eq!(effort_label(EffortLevel::Trivial), "trivial");
    assert_eq!(effort_label(EffortLevel::Moderate), "moderate");
    assert_eq!(effort_label(EffortLevel::Hard), "hard");
    assert_eq!(effort_label(EffortLevel::Impossible), "impossible");
}

#[test]
fn converts_lamports_and_bps_when_needed() {
    assert_eq!(lamports_to_sol_if_needed(20_000_000_000_000), 20_000);
    assert_eq!(bps_to_percent_if_needed(8_500_000), 85_000);
    assert_eq!(bps_to_percent_if_needed(85_000), 85_000);
}

#[test]
fn percentile_handles_empty_and_basic_values() {
    assert!(percentile(&vec![], 5_000).is_none());
    let values = vec![10_000, 20_000, 100_000, 40_000];
    let p50 = percentile(&values, 5_000).expect("missing percentile");
    assert!(p50 >= 20_000 && p50 <= 40_000);
    let p0 = percentile(&values, 0).expect("missing percentile");
    assert_eq!(p0, 10_000);
    let p100 = percentile(&values, 10_000).expect("missing percentile");
    assert_eq!(p100, 100_000);
}

#[test]
fn timeline_summary_reports_the_eligible_share() {
    let metrics = ValidatorMetrics::sample(String::from("HistVote111111111111111111111111111111"));
    let pass_set = CriteriaSet::with_hash(
        ProgramId::Sfdp,
        String::from("https://example.test"),
        vec![Criterion {
            name: String::from("fee"),
            metric: MetricKey::Commission,
            constraint: Constraint::Max(70_000),
            weight: None,
            description: String::from("r"),
        }],
    );
    let fail_set = CriteriaSet::with_hash(
        ProgramId::Sfdp,
        String::from("https://example.test"),
        vec![Criterion {
            name: String::from("fee"),
            metric: MetricKey::Commission,
            constraint: Constraint::Max(10_000),
            weight: None,
            description: String::from("r"),
        }],
    );
    let good = evaluate_validator(ProgramId::Sfdp, &metrics, &pass_set, None);
    let bad = evaluate_validator(ProgramId::Sfdp, &metrics, &fail_set, None);
    let records = vec![
        record_from_result(String::from("v"), 1, &good),
        record_from_result(String::from("v"), 2, &bad),
    ];
    assert_eq!(summarize_timeline(&records, None), "Eligibility ratio: 1/2 (50.0%)");
    assert_eq!(summarize_timeline(&[], None), "No history records found.");
    assert_eq!(
        summarize_timeline(&records, Some(ProgramId::Jito)),
        "No matching records for selected program."
    );
}

#[test]
fn overrides_replace_only_supplied_fields() {
    let mut metrics = ValidatorMetrics::sample(String::from("OvrVote1111111111111111111111111111111"));
    let mut overrides = MetricOverrides::none();
    overrides.commission = Some(10_000);
    overrides.solana_version = Some(String::from("1.19.0"));
    apply_overrides(&mut metrics, &overrides);
    assert_eq!(metrics.commission, 10_000);
    assert_eq!(metrics.solana_version, "1.19.0");
    assert_eq!(metrics.skip_rate, 32_000);
}

#[test]
fn metric_changes_apply_only_to_numeric_fields() {
    let mut metrics = ValidatorMetrics::sample(String::from("ChgVote1111111111111111111111111111111"));
    assert!(metrics.apply_numeric_change(&MetricKey::Commission, 20_000));
    assert_eq!(metrics.commission, 20_000);
    assert!(!metrics.apply_numeric_change(&MetricKey::SolanaVersion, 1));
    assert!(metrics.apply_numeric_change(&MetricKey::Custom(String::from("weight")), 77));
    match metrics.metric_value(&MetricKey::Custom(String::from("weight"))) {
        Some(delegation_oracle::metric::MetricValue::Numeric(v)) => assert_eq!(v, 77),
        other => panic!("expected a numeric reading, got {:?}", other),
    }
    assert!(metrics.metric_value(&MetricKey::Custom(String::from("absent"))).is_none());
    // The simulator still counts an unset custom name as a zero reading.
    assert_eq!(metrics.numeric_metric(&MetricKey::Custom(String::from("absent"))), Some(0));
    assert_eq!(metrics.numeric_metric(&MetricKey::SolanaVersion), None);
}

#[test]
fn default_configuration_holds_the_documented_values() {
    let config = Config::default_config();
    assert_eq!(config.rpc.requests_per_second, default_requests_per_second());
    assert_eq!(config.analysis.vulnerability_margin_pct, 50_000);
    assert_eq!(config.analysis.lookback_epochs, 20);
    assert_eq!(default_programs_enabled().len(), 6);
    assert!(config.alerts.rules.criteria_drift);
}
