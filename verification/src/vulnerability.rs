use vstd::prelude::*;

use crate::criteria::CriteriaSet;
use crate::metric::{Constraint, Criterion, MetricKey, MetricValue};
use crate::metrics::{spec_metric_value, ValidatorMetrics};
use crate::program::ProgramId;
use crate::FP_SCALE;

verus! {

/// Movement of a passing reading relative to its boundary between two
/// snapshots.
#[derive(Debug, Clone, Copy, PartialEq, Eq, Structural)]
pub enum TrendDirection {
    Improving,
    Stable,
    Deteriorating,
}

/// One passing numeric reading that sits close to its boundary: the
/// margin is the relative distance in fixed-point percent.
#[derive(Debug)]
pub struct AtRiskMetric {
    pub metric: MetricKey,
    pub current_value: i64,
    pub threshold: i64,
    pub margin: i64,
    pub trend: TrendDirection,
}

/// A peer whose standing under one program is fragile: the readings at
/// risk, and a coarse estimate of the epochs of standing left.
#[derive(Debug)]
pub struct VulnerableValidator {
    pub vote_pubkey: String,
    pub program: ProgramId,
    pub metrics_at_risk: Vec<AtRiskMetric>,
    pub epochs_until_likely_loss: Option<u32>,
    pub current_delegation_sol: i64,
}

/// One peer's sampled state: the current snapshot, the previous one
/// when known, and the delegation it currently holds.
#[derive(Debug)]
pub struct CompetitorSnapshot {
    pub metrics: ValidatorMetrics,
    pub previous_metrics: Option<ValidatorMetrics>,
    pub current_delegation_sol: i64,
}

/// Movements smaller than this (in fixed point) count as noise, not as
/// a trend. A tunable heuristic, not a contractual constant.
pub const TREND_NOISE: i64 = 100;

/// A demonstration cohort around a base snapshot: eight peers with
/// readings nudged away from the base, each with a slightly better
/// previous snapshot and a delegation that grows with the index.
pub fn sample_competitors(base: &ValidatorMetrics) -> (r: Vec<CompetitorSnapshot>)
    requires
        base.wf(),
        -crate::FP_LIMIT + 600_000_000 <= base.skip_rate,
        base.skip_rate <= crate::FP_LIMIT - 600_000_000,
        base.commission <= crate::FP_LIMIT - 600_000_000,
        base.mev_commission <= crate::FP_LIMIT - 600_000_000,
        -crate::FP_LIMIT + 600_000_000 <= base.uptime_percent,
        base.uptime_percent <= crate::FP_LIMIT - 600_000_000,
        base.activated_stake <= crate::FP_LIMIT - 600_000_000,
    ensures
        r@.len() == 8,
        forall|i: int|
            0 <= i < 8 ==> (#[trigger] r@[i]).metrics.wf() && r@[i].previous_metrics is Some
                && r@[i].current_delegation_sol == 75_000_000 + i * 25_000_000,
{
    let mut out: Vec<CompetitorSnapshot> = Vec::new();
    let mut idx: u64 = 0;
    while idx < 8
        invariant
            0 <= idx <= 8,
            base.wf(),
            -crate::FP_LIMIT + 600_000_000 <= base.skip_rate,
            base.skip_rate <= crate::FP_LIMIT - 600_000_000,
            base.commission <= crate::FP_LIMIT - 600_000_000,
            base.mev_commission <= crate::FP_LIMIT - 600_000_000,
            -crate::FP_LIMIT + 600_000_000 <= base.uptime_percent,
            base.uptime_percent <= crate::FP_LIMIT - 600_000_000,
            base.activated_stake <= crate::FP_LIMIT - 600_000_000,
            out@.len() == idx,
            forall|i: int|
                0 <= i < idx ==> (#[trigger] out@[i]).metrics.wf() && out@[i].previous_metrics
                    is Some && out@[i].current_delegation_sol == 75_000_000 + i * 25_000_000,
        decreases 8 - idx,
    {
        let mut metrics = base.clone();
        metrics.vote_pubkey = competitor_name(idx).to_owned();
        metrics.skip_rate = metrics.skip_rate + (idx as i64) * 2_500;
        metrics.commission = metrics.commission + ((idx % 3) as i64) * 5_000;
        metrics.mev_commission = metrics.mev_commission + ((idx % 4) as i64) * 6_000;
        metrics.uptime_percent = metrics.uptime_percent - (idx as i64) * 1_500;
        metrics.activated_stake = metrics.activated_stake + (idx as i64) * 80_000_000;
        let mut previous = metrics.clone();
        previous.skip_rate = previous.skip_rate - 1_500;
        previous.uptime_percent = previous.uptime_percent + 1_000;
        let current_delegation_sol = 75_000_000 + (idx as i64) * 25_000_000;
        out.push(
            CompetitorSnapshot { metrics, previous_metrics: Some(previous), current_delegation_sol },
        );
        idx = idx + 1;
    }
    out
}

/// The synthetic identity of the sampled peer at one index.
fn competitor_name(idx: u64) -> (r: &'static str)
    requires
        idx < 8,
{
    match idx {
        0 => "CompetitorVote00",
        1 => "CompetitorVote01",
        2 => "CompetitorVote02",
        3 => "CompetitorVote03",
        4 => "CompetitorVote04",
        5 => "CompetitorVote05",
        6 => "CompetitorVote06",
        _ => "CompetitorVote07",
    }
}

/// The distance of a passing numeric reading from the nearest boundary
/// of its constraint, and that boundary. Absent when the reading fails
/// the constraint or the constraint has no numeric boundary.
pub open spec fn spec_boundary(c: Constraint, v: int) -> Option<(int, int)> {
    match c {
        Constraint::Min(t) => if v >= t {
            Some((v - t, t as int))
        } else {
            None
        },
        Constraint::Max(t) => if v <= t {
            Some((t - v, t as int))
        } else {
            None
        },
        Constraint::Range { min, max } => if min <= v && v <= max {
            if v - min <= max - v {
                Some((v - min, min as int))
            } else {
                Some((max - v, max as int))
            }
        } else {
            None
        },
        _ => None,
    }
}

/// The integer absolute value.
pub open spec fn iabs(v: int) -> int {
    if v >= 0 {
        v
    } else {
        -v
    }
}

/// Whether a distance sits within a relative percentage margin of a
/// boundary: dist / |threshold| <= margin_pct / 100, exactly.
pub open spec fn within_margin(dist: int, threshold: int, margin_pct: int) -> bool {
    threshold != 0 && dist * 100 * (FP_SCALE as int) <= margin_pct * iabs(threshold)
}

/// The relative distance as fixed-point percent, saturated at the
/// largest representable value.
pub open spec fn spec_margin(dist: int, threshold: int) -> i64 {
    let exact = (dist * 100 * (FP_SCALE as int)) / iabs(threshold);
    if exact > i64::MAX as int {
        i64::MAX
    } else {
        exact as i64
    }
}

/// The trend of a reading against its boundary: improving when it moved
/// away by more than the noise threshold, deteriorating when it moved
/// toward it by more, stable otherwise or without a previous snapshot.
pub open spec fn spec_trend(dist: int, prev_dist: Option<int>) -> TrendDirection {
    match prev_dist {
        None => TrendDirection::Stable,
        Some(pd) => if dist > pd + TREND_NOISE {
            TrendDirection::Improving
        } else if dist + TREND_NOISE < pd {
            TrendDirection::Deteriorating
        } else {
            TrendDirection::Stable
        },
    }
}

/// The previous distance of a reading from the boundary chosen for the
/// current snapshot, when a previous snapshot is known.
pub open spec fn spec_prev_dist(
    c: Criterion,
    prev: Option<ValidatorMetrics>,
    threshold: int,
    is_lower_bound: bool,
) -> Option<int> {
    match prev {
        None => None,
        Some(pm) => match spec_metric_value(pm, c.metric) {
            Some(MetricValue::Numeric(pv)) => if is_lower_bound {
                Some(pv - threshold)
            } else {
                Some(threshold - pv)
            },
            _ => None,
        },
    }
}

/// Whether the boundary chosen for a reading is a lower bound (the
/// reading must stay above it).
pub open spec fn spec_is_lower(c: Constraint, v: int) -> bool {
    match c {
        Constraint::Min(_) => true,
        Constraint::Max(_) => false,
        Constraint::Range { min, max } => v - min <= max - v,
        _ => true,
    }
}

/// The at-risk record one criterion contributes for one peer, if any:
/// the reading must be numeric, pass the constraint, have a non-zero
/// boundary, and sit within the margin.
pub open spec fn spec_assess(
    c: Criterion,
    m: ValidatorMetrics,
    prev: Option<ValidatorMetrics>,
    margin_pct: int,
) -> Option<AtRiskMetric> {
    match spec_metric_value(m, c.metric) {
        Some(MetricValue::Numeric(v)) => match spec_boundary(c.constraint, v as int) {
            Some((dist, threshold)) => if within_margin(dist, threshold, margin_pct) {
                Some(
                    AtRiskMetric {
                        metric: c.metric,
                        current_value: v,
                        threshold: threshold as i64,
                        margin: spec_margin(dist, threshold),
                        trend: spec_trend(
                            dist,
                            spec_prev_dist(
                                c,
                                prev,
                                threshold,
                                spec_is_lower(c.constraint, v as int),
                            ),
                        ),
                    },
                )
            } else {
                None
            },
            None => None,
        },
        _ => None,
    }
}

/// The at-risk records of all rules of a set, in rule order.
pub open spec fn spec_risks(
    cs: Seq<Criterion>,
    m: ValidatorMetrics,
    prev: Option<ValidatorMetrics>,
    margin_pct: int,
) -> Seq<AtRiskMetric>
    decreases cs.len(),
{
    if cs.len() == 0 {
        Seq::empty()
    } else {
        spec_risks(cs.drop_last(), m, prev, margin_pct) + (match spec_assess(
            cs.last(),
            m,
            prev,
            margin_pct,
        ) {
            Some(r) => seq![r],
            None => Seq::empty(),
        })
    }
}

/// The epochs left before a deteriorating reading crosses its boundary
/// at the observed per-epoch rate, rounded up and saturated.
pub open spec fn spec_eta_one(
    c: Criterion,
    m: ValidatorMetrics,
    prev: Option<ValidatorMetrics>,
    margin_pct: int,
) -> Option<u32> {
    match spec_assess(c, m, prev, margin_pct) {
        Some(r) => if r.trend is Deteriorating {
            match spec_metric_value(m, c.metric) {
                Some(MetricValue::Numeric(v)) => {
                    let dist = if spec_is_lower(c.constraint, v as int) {
                        v - r.threshold
                    } else {
                        r.threshold - v
                    };
                    let pd = spec_prev_dist(
                        c,
                        prev,
                        r.threshold as int,
                        spec_is_lower(c.constraint, v as int),
                    );
                    match pd {
                        Some(pdv) => {
                            let rate = pdv - dist;
                            let eta = (dist + rate - 1) / rate;
                            if eta > u32::MAX as int {
                                Some(u32::MAX)
                            } else if eta < 0 {
                                Some(0u32)
                            } else {
                                Some(eta as u32)
                            }
                        },
                        None => None,
                    }
                },
                _ => None,
            }
        } else {
            None
        },
        None => None,
    }
}

/// The smaller of two optional epoch estimates.
pub open spec fn min_eta(a: Option<u32>, b: Option<u32>) -> Option<u32> {
    match (a, b) {
        (Some(x), Some(y)) => if x <= y {
            Some(x)
        } else {
            Some(y)
        },
        (Some(x), None) => Some(x),
        (None, Some(y)) => Some(y),
        (None, None) => None,
    }
}

/// The soonest boundary crossing over all rules, if any reading is
/// deteriorating.
pub open spec fn spec_eta(
    cs: Seq<Criterion>,
    m: ValidatorMetrics,
    prev: Option<ValidatorMetrics>,
    margin_pct: int,
) -> Option<u32>
    decreases cs.len(),
{
    if cs.len() == 0 {
        None
    } else {
        min_eta(
            spec_eta(cs.drop_last(), m, prev, margin_pct),
            spec_eta_one(cs.last(), m, prev, margin_pct),
        )
    }
}

/// The mathematical content of one vulnerability report.
pub struct VulnView {
    pub vote_pubkey: Seq<char>,
    pub program: ProgramId,
    pub metrics_at_risk: Seq<AtRiskMetric>,
    pub epochs_until_likely_loss: Option<u32>,
    pub current_delegation_sol: i64,
}

pub open spec fn vuln_view(v: VulnerableValidator) -> VulnView {
    VulnView {
        vote_pubkey: v.vote_pubkey@,
        program: v.program,
        metrics_at_risk: v.metrics_at_risk@,
        epochs_until_likely_loss: v.epochs_until_likely_loss,
        current_delegation_sol: v.current_delegation_sol,
    }
}

pub open spec fn vulns_view(s: Seq<VulnerableValidator>) -> Seq<VulnView> {
    s.map_values(|v: VulnerableValidator| vuln_view(v))
}

/// The report one peer contributes: present exactly when at least one
/// reading is at risk.
pub open spec fn spec_peer_report(
    peer: CompetitorSnapshot,
    program: ProgramId,
    cs: Seq<Criterion>,
    margin_pct: int,
) -> Seq<VulnView> {
    let risks = spec_risks(cs, peer.metrics, peer.previous_metrics, margin_pct);
    if risks.len() == 0 {
        Seq::empty()
    } else {
        seq![
            VulnView {
                vote_pubkey: peer.metrics.vote_pubkey@,
                program,
                metrics_at_risk: risks,
                epochs_until_likely_loss: spec_eta(
                    cs,
                    peer.metrics,
                    peer.previous_metrics,
                    margin_pct,
                ),
                current_delegation_sol: peer.current_delegation_sol,
            },
        ]
    }
}

/// Everything `analyze_vulnerabilities` reports, in peer order.
pub open spec fn spec_vulns(
    peers: Seq<CompetitorSnapshot>,
    program: ProgramId,
    cs: Seq<Criterion>,
    margin_pct: int,
) -> Seq<VulnView>
    decreases peers.len(),
{
    if peers.len() == 0 {
        Seq::empty()
    } else {
        spec_vulns(peers.drop_last(), program, cs, margin_pct) + spec_peer_report(
            peers.last(),
            program,
            cs,
            margin_pct,
        )
    }
}

/// Assesses one rule against one peer: the at-risk record when the
/// reading is numeric, passes, and sits within the relative margin of a
/// non-zero boundary; beside it the epoch estimate when the reading is
/// deteriorating.
fn assess_criterion(
    c: &Criterion,
    m: &ValidatorMetrics,
    prev: Option<&ValidatorMetrics>,
    margin_pct: i64,
) -> (r: (Option<AtRiskMetric>, Option<u32>))
    requires
        m.wf(),
        crate::criteria::criterion_wf(*c),
    ensures
        r.0 == spec_assess(
            *c,
            *m,
            match prev {
                Some(p) => Some(*p),
                None => None,
            },
            margin_pct as int,
        ),
        r.1 == spec_eta_one(
            *c,
            *m,
            match prev {
                Some(p) => Some(*p),
                None => None,
            },
            margin_pct as int,
        ),
{
    let v = match m.metric_value(&c.metric) {
        Some(MetricValue::Numeric(v)) => v,
        _ => {
            return (None, None);
        },
    };
    proof {
        crate::metrics::lemma_metric_value_valid(*m, c.metric);
    }
    let (dist, threshold, is_lower): (i64, i64, bool) = match &c.constraint {
        Constraint::Min(t) => {
            if v >= *t {
                (v - *t, *t, true)
            } else {
                return (None, None);
            }
        },
        Constraint::Max(t) => {
            if v <= *t {
                (*t - v, *t, false)
            } else {
                return (None, None);
            }
        },
        Constraint::Range { min, max } => {
            if *min <= v && v <= *max {
                let low_gap = v - *min;
                let high_gap = *max - v;
                if low_gap <= high_gap {
                    (low_gap, *min, true)
                } else {
                    (high_gap, *max, false)
                }
            } else {
                return (None, None);
            }
        },
        _ => {
            return (None, None);
        },
    };
    if threshold == 0 {
        return (None, None);
    }
    let tabs: i128 = if threshold >= 0 {
        threshold as i128
    } else {
        -(threshold as i128)
    };
    proof {
        let b: int = 0x8000_0000_0000_0000;
        assert((dist as i128) * 100 * (FP_SCALE as i128) <= 2 * b * 100 * 10000 && -(b * b) <= (
        margin_pct as i128) * tabs <= b * b) by (nonlinear_arith)
            requires
                0 <= dist as i128 <= 2 * b,
                0 < tabs <= b,
                -b <= margin_pct as i128 <= b,
        ;
    }
    if !((dist as i128) * 100 * (FP_SCALE as i128) <= (margin_pct as i128) * tabs) {
        return (None, None);
    }
    let exact: i128 = (dist as i128) * 100 * (FP_SCALE as i128) / tabs;
    proof {
        vstd::arithmetic::div_mod::lemma_div_pos_is_pos(
            (dist as int) * 100 * (FP_SCALE as int),
            tabs as int,
        );
    }
    let margin: i64 = if exact > i64::MAX as i128 {
        i64::MAX
    } else {
        exact as i64
    };
    let mut eta: Option<u32> = None;
    let trend = match prev {
        None => TrendDirection::Stable,
        Some(pm) => {
            match pm.metric_value(&c.metric) {
                Some(MetricValue::Numeric(pv)) => {
                    let pd: i128 = if is_lower {
                        pv as i128 - threshold as i128
                    } else {
                        threshold as i128 - pv as i128
                    };
                    if (dist as i128) > pd + (TREND_NOISE as i128) {
                        TrendDirection::Improving
                    } else if (dist as i128) + (TREND_NOISE as i128) < pd {
                        let rate = pd - (dist as i128);
                        let e = ((dist as i128) + rate - 1) / rate;
                        proof {
                            vstd::arithmetic::div_mod::lemma_div_pos_is_pos(
                                dist as int + (rate as int) - 1,
                                rate as int,
                            );
                        }
                        eta = if e > u32::MAX as i128 {
                            Some(u32::MAX)
                        } else {
                            Some(e as u32)
                        };
                        TrendDirection::Deteriorating
                    } else {
                        TrendDirection::Stable
                    }
                },
                _ => TrendDirection::Stable,
            }
        },
    };
    proof {
        assert(spec_boundary(c.constraint, v as int) == Some((dist as int, threshold as int)));
        assert(within_margin(dist as int, threshold as int, margin_pct as int));
        assert(margin == spec_margin(dist as int, threshold as int));
    }
    (
        Some(AtRiskMetric { metric: c.metric.clone(), current_value: v, threshold, margin, trend }),
        eta,
    )
}

/// Scans a cohort of peers against one program's rules: each peer with
/// at least one passing numeric reading within the relative margin
/// `margin_pct` (fixed-point percent) of its boundary is reported, with
/// the trend of each fragile reading and a coarse estimate of the epochs
/// of standing left. Peers fully outside the margins are omitted.
pub fn analyze_vulnerabilities(
    program: ProgramId,
    criteria_set: &CriteriaSet,
    peer_snapshots: &[CompetitorSnapshot],
    margin_pct: i64,
) -> (r: Vec<VulnerableValidator>)
    requires
        criteria_set.wf(),
        forall|i: int|
            0 <= i < peer_snapshots@.len() ==> (#[trigger] peer_snapshots@[i]).metrics.wf(),
    ensures
        vulns_view(r@) == spec_vulns(peer_snapshots@, program, criteria_set.criteria@, margin_pct as int),
{
    let mut out: Vec<VulnerableValidator> = Vec::new();
    let mut p: usize = 0;
    while p < peer_snapshots.len()
        invariant
            0 <= p <= peer_snapshots@.len(),
            criteria_set.wf(),
            forall|j: int|
                0 <= j < peer_snapshots@.len() ==> (#[trigger] peer_snapshots@[j]).metrics.wf(),
            vulns_view(out@) == spec_vulns(
                peer_snapshots@.take(p as int),
                program,
                criteria_set.criteria@,
                margin_pct as int,
            ),
        decreases peer_snapshots@.len() - p,
    {
        proof {
            assert(peer_snapshots@.take(p as int + 1).drop_last() =~= peer_snapshots@.take(
                p as int,
            ));
            assert(peer_snapshots@.take(p as int + 1).last() == peer_snapshots@[p as int]);
        }
        let peer = &peer_snapshots[p];
        let ghost gprev: Option<ValidatorMetrics> = peer.previous_metrics;
        let mut risks: Vec<AtRiskMetric> = Vec::new();
        let mut eta: Option<u32> = None;
        let mut c: usize = 0;
        while c < criteria_set.criteria.len()
            invariant
                0 <= c <= criteria_set.criteria@.len(),
                criteria_set.wf(),
                peer.metrics.wf(),
                gprev == peer.previous_metrics,
                risks@ == spec_risks(
                    criteria_set.criteria@.take(c as int),
                    peer.metrics,
                    gprev,
                    margin_pct as int,
                ),
                eta == spec_eta(
                    criteria_set.criteria@.take(c as int),
                    peer.metrics,
                    gprev,
                    margin_pct as int,
                ),
            decreases criteria_set.criteria@.len() - c,
        {
            proof {
                assert(criteria_set.criteria@.take(c as int + 1).drop_last() =~= criteria_set
                    .criteria@.take(c as int));
                assert(criteria_set.criteria@.take(c as int + 1).last() == criteria_set.criteria@[
                c as int]);
            }
            let prev_ref: Option<&ValidatorMetrics> = match &peer.previous_metrics {
                Some(pm) => Some(pm),
                None => None,
            };
            let (risk, e1) = assess_criterion(
                &criteria_set.criteria[c],
                &peer.metrics,
                prev_ref,
                margin_pct,
            );
            match risk {
                Some(rm) => {
                    risks.push(rm);
                },
                None => {},
            }
            eta = match (eta, e1) {
                (Some(x), Some(y)) => if x <= y {
                    Some(x)
                } else {
                    Some(y)
                },
                (Some(x), None) => Some(x),
                (None, Some(y)) => Some(y),
                (None, None) => None,
            };
            proof {
                assert(risks@ =~= spec_risks(
                    criteria_set.criteria@.take(c as int + 1),
                    peer.metrics,
                    gprev,
                    margin_pct as int,
                ));
            }
            c = c + 1;
        }
        proof {
            assert(criteria_set.criteria@.take(criteria_set.criteria@.len() as int)
                =~= criteria_set.criteria@);
        }
        if risks.len() > 0 {
            let ghost pre = out@;
            out.push(
                VulnerableValidator {
                    vote_pubkey: peer.metrics.vote_pubkey.clone(),
                    program,
                    metrics_at_risk: risks,
                    epochs_until_likely_loss: eta,
                    current_delegation_sol: peer.current_delegation_sol,
                },
            );
            proof {
                assert(vulns_view(out@) =~= spec_vulns(
                    peer_snapshots@.take(p as int + 1),
                    program,
                    criteria_set.criteria@,
                    margin_pct as int,
                ));
            }
        } else {
            proof {
                assert(vulns_view(out@) =~= spec_vulns(
                    peer_snapshots@.take(p as int + 1),
                    program,
                    criteria_set.criteria@,
                    margin_pct as int,
                ));
            }
        }
        p = p + 1;
    }
    proof {
        assert(peer_snapshots@.take(peer_snapshots@.len() as int) =~= peer_snapshots@);
    }
    out
}

} // verus!
