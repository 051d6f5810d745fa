use vstd::prelude::*;

use crate::config::AlertRulesConfig;
use crate::differ::{CriteriaDrift, DriftImpact};
use crate::evaluator::EligibilityResult;
use crate::program::spec_display;
use crate::text::{dec_digits, fp_str0, fp_to_string0, u64_to_string};
use crate::vulnerability::VulnerableValidator;
use crate::whatif::find_result;

verus! {

/// The kinds of notification rule a configuration can switch on or off.
#[derive(Debug, Clone, Copy, PartialEq, Eq, Structural)]
pub enum AlertRule {
    CriteriaDrift,
    VulnerabilityDetected,
    EligibilityLost,
    EligibilityGained,
}

/// The kind of event an alert reports.
#[derive(Debug, Clone, Copy, PartialEq, Eq, Structural)]
pub enum AlertEventKind {
    CriteriaDrift,
    VulnerabilityDetected,
    EligibilityLost,
    EligibilityGained,
}

/// One notification: its kind and rendered title and body.
#[derive(Debug)]
pub struct AlertEvent {
    pub kind: AlertEventKind,
    pub title: String,
    pub body: String,
}

/// The mathematical content of one notification.
pub struct AlertView {
    pub kind: AlertEventKind,
    pub title: Seq<char>,
    pub body: Seq<char>,
}

pub open spec fn alert_view(a: AlertEvent) -> AlertView {
    AlertView { kind: a.kind, title: a.title@, body: a.body@ }
}

pub open spec fn alerts_view(s: Seq<AlertEvent>) -> Seq<AlertView> {
    s.map_values(|a: AlertEvent| alert_view(a))
}

/// The rendered name of an impact classification.
pub open spec fn impact_text(d: DriftImpact) -> Seq<char> {
    match d {
        DriftImpact::NowEligible => "NowEligible"@,
        DriftImpact::StillEligible => "StillEligible"@,
        DriftImpact::AtRisk => "AtRisk"@,
        DriftImpact::NowIneligible => "NowIneligible"@,
        DriftImpact::NotApplicable => "NotApplicable"@,
    }
}

#[verifier::opaque]
pub open spec fn drift_alert(d: CriteriaDrift) -> AlertView {
    AlertView {
        kind: AlertEventKind::CriteriaDrift,
        title: "Criteria drift detected in "@ + spec_display(d.program),
        body: dec_digits(d.changes@.len()) + " changes detected; impact: "@ + impact_text(
            d.impact_on_you,
        ),
    }
}

#[verifier::opaque]
pub open spec fn vulnerability_alert(v: VulnerableValidator) -> AlertView {
    AlertView {
        kind: AlertEventKind::VulnerabilityDetected,
        title: "Validator "@ + v.vote_pubkey@ + " is vulnerable"@,
        body: dec_digits(v.metrics_at_risk@.len()) + " at-risk metrics in "@ + spec_display(
            v.program,
        ) + " with "@ + fp_str0(v.current_delegation_sol as int) + " SOL delegated"@,
    }
}

#[verifier::opaque]
pub open spec fn lost_alert(after: EligibilityResult) -> AlertView {
    AlertView {
        kind: AlertEventKind::EligibilityLost,
        title: "Eligibility lost in "@ + spec_display(after.program),
        body: "One or more criteria no longer pass."@,
    }
}

#[verifier::opaque]
pub open spec fn gained_alert(after: EligibilityResult) -> AlertView {
    AlertView {
        kind: AlertEventKind::EligibilityGained,
        title: "Eligibility gained in "@ + spec_display(after.program),
        body: "Validator now qualifies for delegation."@,
    }
}

pub open spec fn drift_alerts(drifts: Seq<CriteriaDrift>) -> Seq<AlertView>
    decreases drifts.len(),
{
    if drifts.len() == 0 {
        Seq::empty()
    } else {
        drift_alerts(drifts.drop_last()) + seq![drift_alert(drifts.last())]
    }
}

pub open spec fn vulnerability_alerts(vulns: Seq<VulnerableValidator>) -> Seq<AlertView>
    decreases vulns.len(),
{
    if vulns.len() == 0 {
        Seq::empty()
    } else {
        vulnerability_alerts(vulns.drop_last()) + seq![vulnerability_alert(vulns.last())]
    }
}

/// The transition alerts: one per earlier result whose program is found
/// again with the opposite verdict.
pub open spec fn transition_alerts(
    previous: Seq<EligibilityResult>,
    current: Seq<EligibilityResult>,
) -> Seq<AlertView>
    decreases previous.len(),
{
    if previous.len() == 0 {
        Seq::empty()
    } else {
        transition_alerts(previous.drop_last(), current) + (match find_result(
            current,
            previous.last().program,
        ) {
            Some(after) => if previous.last().eligible && !after.eligible {
                seq![lost_alert(after)]
            } else if !previous.last().eligible && after.eligible {
                seq![gained_alert(after)]
            } else {
                Seq::empty()
            },
            None => Seq::empty(),
        })
    }
}

/// Everything `evaluate_alerts` reports: drift events, then
/// vulnerability events, then gate transitions (none without an earlier
/// batch).
pub open spec fn spec_alerts(
    previous: Option<Seq<EligibilityResult>>,
    current: Seq<EligibilityResult>,
    drifts: Seq<CriteriaDrift>,
    vulns: Seq<VulnerableValidator>,
) -> Seq<AlertView> {
    drift_alerts(drifts) + vulnerability_alerts(vulns) + (match previous {
        Some(p) => transition_alerts(p, current),
        None => Seq::empty(),
    })
}

/// Maps fresh analysis output to notification events: one per drift
/// report, one per vulnerable peer, and one per program whose gate
/// flipped since the previous batch.
pub fn evaluate_alerts(
    previous: Option<&[EligibilityResult]>,
    current: &Vec<EligibilityResult>,
    drifts: &[CriteriaDrift],
    vulnerabilities: &[VulnerableValidator],
) -> (r: Vec<AlertEvent>)
    ensures
        alerts_view(r@) == spec_alerts(
            match previous {
                Some(p) => Some(p@),
                None => None,
            },
            current@,
            drifts@,
            vulnerabilities@,
        ),
{
    let mut events: Vec<AlertEvent> = Vec::new();
    let mut i: usize = 0;
    while i < drifts.len()
        invariant
            0 <= i <= drifts@.len(),
            alerts_view(events@) == drift_alerts(drifts@.take(i as int)),
        decreases drifts@.len() - i,
    {
        proof {
            assert(drifts@.take(i as int + 1).drop_last() =~= drifts@.take(i as int));
            assert(drifts@.take(i as int + 1).last() == drifts@[i as int]);
        }
        let drift = &drifts[i];
        let mut title = String::from_str("Criteria drift detected in ");
        title.append(drift.program.display_name());
        let mut body = u64_to_string(drift.changes.len() as u64);
        body.append(" changes detected; impact: ");
        body.append(
            match drift.impact_on_you {
                DriftImpact::NowEligible => "NowEligible",
                DriftImpact::StillEligible => "StillEligible",
                DriftImpact::AtRisk => "AtRisk",
                DriftImpact::NowIneligible => "NowIneligible",
                DriftImpact::NotApplicable => "NotApplicable",
            },
        );
        events.push(AlertEvent { kind: AlertEventKind::CriteriaDrift, title, body });
        proof {
            reveal(drift_alert);
            assert(alert_view(events@.last()) == drift_alert(drifts@[i as int]));
            assert(alerts_view(events@) =~= drift_alerts(drifts@.take(i as int + 1)));
        }
        i = i + 1;
    }
    proof {
        assert(drifts@.take(drifts@.len() as int) =~= drifts@);
    }
    let ghost drift_part = alerts_view(events@);
    let mut j: usize = 0;
    while j < vulnerabilities.len()
        invariant
            0 <= j <= vulnerabilities@.len(),
            drift_part == drift_alerts(drifts@),
            alerts_view(events@) == drift_part + vulnerability_alerts(
                vulnerabilities@.take(j as int),
            ),
        decreases vulnerabilities@.len() - j,
    {
        proof {
            assert(vulnerabilities@.take(j as int + 1).drop_last() =~= vulnerabilities@.take(
                j as int,
            ));
            assert(vulnerabilities@.take(j as int + 1).last() == vulnerabilities@[j as int]);
        }
        let item = &vulnerabilities[j];
        let mut title = String::from_str("Validator ");
        title.append(item.vote_pubkey.as_str());
        title.append(" is vulnerable");
        let mut body = u64_to_string(item.metrics_at_risk.len() as u64);
        body.append(" at-risk metrics in ");
        body.append(item.program.display_name());
        body.append(" with ");
        body.append(fp_to_string0(item.current_delegation_sol).as_str());
        body.append(" SOL delegated");
        let ghost pre = events@;
        events.push(AlertEvent { kind: AlertEventKind::VulnerabilityDetected, title, body });
        proof {
            reveal(vulnerability_alert);
            assert(alert_view(events@.last()) == vulnerability_alert(vulnerabilities@[j as int]));
            assert(alerts_view(events@) =~= alerts_view(pre).push(alert_view(events@.last())));
            assert(vulnerability_alerts(vulnerabilities@.take(j as int + 1))
                =~= vulnerability_alerts(vulnerabilities@.take(j as int)).push(
                vulnerability_alert(vulnerabilities@[j as int]),
            ));
            assert(alerts_view(events@) =~= drift_part + vulnerability_alerts(
                vulnerabilities@.take(j as int + 1),
            ));
        }
        j = j + 1;
    }
    proof {
        assert(vulnerabilities@.take(vulnerabilities@.len() as int) =~= vulnerabilities@);
    }
    let ghost fixed_part = alerts_view(events@);
    match previous {
        None => {},
        Some(previous) => {
            let mut k: usize = 0;
            while k < previous.len()
                invariant
                    0 <= k <= previous@.len(),
                    fixed_part == drift_alerts(drifts@) + vulnerability_alerts(vulnerabilities@),
                    alerts_view(events@) == fixed_part + transition_alerts(
                        previous@.take(k as int),
                        current@,
                    ),
                decreases previous@.len() - k,
            {
                proof {
                    assert(previous@.take(k as int + 1).drop_last() =~= previous@.take(k as int));
                    assert(previous@.take(k as int + 1).last() == previous@[k as int]);
                }
                let before = &previous[k];
                let ghost pre = events@;
                match crate::whatif::find_result_ex(current, before.program) {
                    Some(after) => {
                        if before.eligible && !after.eligible {
                            let mut title = String::from_str("Eligibility lost in ");
                            title.append(after.program.display_name());
                            let body = String::from_str("One or more criteria no longer pass.");
                            events.push(
                                AlertEvent { kind: AlertEventKind::EligibilityLost, title, body },
                            );
                            proof {
                                reveal(lost_alert);
                                assert(alert_view(events@.last()) == lost_alert(*after));
                                assert(alerts_view(events@) =~= alerts_view(pre).push(
                                    alert_view(events@.last()),
                                ));
                            }
                        } else if !before.eligible && after.eligible {
                            let mut title = String::from_str("Eligibility gained in ");
                            title.append(after.program.display_name());
                            let body = String::from_str(
                                "Validator now qualifies for delegation.",
                            );
                            events.push(
                                AlertEvent { kind: AlertEventKind::EligibilityGained, title, body },
                            );
                            proof {
                                reveal(gained_alert);
                                assert(alert_view(events@.last()) == gained_alert(*after));
                                assert(alerts_view(events@) =~= alerts_view(pre).push(
                                    alert_view(events@.last()),
                                ));
                            }
                        }
                    },
                    None => {},
                }
                proof {
                    assert(transition_alerts(previous@.take(k as int + 1), current@)
                        =~= transition_alerts(previous@.take(k as int), current@) + (
                    match find_result(current@, previous@[k as int].program) {
                        Some(after) => if previous@[k as int].eligible && !after.eligible {
                            seq![lost_alert(after)]
                        } else if !previous@[k as int].eligible && after.eligible {
                            seq![gained_alert(after)]
                        } else {
                            Seq::<AlertView>::empty()
                        },
                        None => Seq::<AlertView>::empty(),
                    }));
                    assert(alerts_view(events@) =~= fixed_part + transition_alerts(
                        previous@.take(k as int + 1),
                        current@,
                    ));
                }
                k = k + 1;
            }
            proof {
                assert(previous@.take(previous@.len() as int) =~= previous@);
            }
        },
    }
    proof {
        assert(alerts_view(events@) =~= spec_alerts(
            match previous {
                Some(p) => Some(p@),
                None => None,
            },
            current@,
            drifts@,
            vulnerabilities@,
        ));
    }
    events
}

/// Whether a configuration keeps an event of a kind.
pub open spec fn rule_keeps(rules: AlertRulesConfig, kind: AlertEventKind) -> bool {
    match kind {
        AlertEventKind::CriteriaDrift => rules.criteria_drift,
        AlertEventKind::VulnerabilityDetected => rules.vulnerability_detected,
        AlertEventKind::EligibilityLost => rules.eligibility_lost,
        AlertEventKind::EligibilityGained => rules.eligibility_gained,
    }
}

/// The events kept by a configuration, in order.
pub open spec fn spec_kept(alerts: Seq<AlertEvent>, rules: AlertRulesConfig) -> Seq<AlertView>
    decreases alerts.len(),
{
    if alerts.len() == 0 {
        Seq::empty()
    } else {
        spec_kept(alerts.drop_last(), rules) + (if rule_keeps(rules, alerts.last().kind) {
            seq![alert_view(alerts.last())]
        } else {
            Seq::empty()
        })
    }
}

impl Clone for AlertEvent {
    fn clone(&self) -> (r: Self)
        ensures
            r == *self,
    {
        AlertEvent { kind: self.kind, title: self.title.clone(), body: self.body.clone() }
    }
}

/// Drops the events whose kind the configuration switches off.
pub fn apply_alert_rules(alerts: Vec<AlertEvent>, rules: &AlertRulesConfig) -> (r: Vec<AlertEvent>)
    ensures
        alerts_view(r@) == spec_kept(alerts@, *rules),
{
    let mut out: Vec<AlertEvent> = Vec::new();
    let mut i: usize = 0;
    while i < alerts.len()
        invariant
            0 <= i <= alerts@.len(),
            alerts_view(out@) == spec_kept(alerts@.take(i as int), *rules),
        decreases alerts@.len() - i,
    {
        proof {
            assert(alerts@.take(i as int + 1).drop_last() =~= alerts@.take(i as int));
            assert(alerts@.take(i as int + 1).last() == alerts@[i as int]);
        }
        let event = &alerts[i];
        let keep = match event.kind {
            AlertEventKind::CriteriaDrift => rules.criteria_drift,
            AlertEventKind::VulnerabilityDetected => rules.vulnerability_detected,
            AlertEventKind::EligibilityLost => rules.eligibility_lost,
            AlertEventKind::EligibilityGained => rules.eligibility_gained,
        };
        if keep {
            out.push(event.clone());
        }
        proof {
            assert(alerts_view(out@) =~= spec_kept(alerts@.take(i as int + 1), *rules));
        }
        i = i + 1;
    }
    proof {
        assert(alerts@.take(alerts@.len() as int) =~= alerts@);
    }
    out
}

} // verus!
