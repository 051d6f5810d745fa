use vstd::multiset::Multiset;
use vstd::prelude::*;

use crate::analysis::EligibilityRecord;
use crate::arbitrage::est_lookup;
use crate::evaluator::{count_passed, lemma_count_passed_bounds, EligibilityResult};
use crate::program::ProgramId;
use crate::programs::{Difficulty, EligibleValidator, RegistrationStatus};
use crate::text::str_eq;
use crate::{fp_valid, FP_LIMIT};

verus! {

/// One program's standing in a quick scan, as the boundary reports it.
#[derive(Debug)]
pub struct ProgramStatus {
    pub name: String,
    pub display_name: String,
    pub status: RegistrationStatus,
    pub current_stake_sol: i64,
    pub potential_stake_sol: i64,
    pub gap_sol: i64,
    pub registration_url: Option<String>,
}

/// One suggested registration step of a scan summary.
#[derive(Debug)]
pub struct ActionItem {
    pub program: String,
    pub action: String,
    pub potential_gain_sol: i64,
    pub url: Option<String>,
    pub difficulty: Difficulty,
}

/// The totals and suggested steps of one scan.
#[derive(Debug)]
pub struct ScanSummary {
    pub total_current_sol: i64,
    pub total_potential_sol: i64,
    pub missed_revenue_sol: i64,
    pub missed_revenue_usd: i64,
    pub action_items: Vec<ActionItem>,
}

/// One program's threat assessment: how fragile the standing is and
/// what stake is exposed.
#[derive(Debug)]
pub struct ProgramThreat {
    pub program: ProgramId,
    pub eligible: bool,
    pub failed_criteria: usize,
    pub risk_score: i64,
    pub threat_level: String,
    pub estimated_stake_at_risk_sol: i64,
    pub notes: Vec<String>,
}

/// The fixed risk heuristic (fixed-point, one is 10000): an ineligible
/// program scores a base plus a step per failed criterion, capped at
/// one; an eligible program with failures scores the middle band; a
/// clean one the floor.
pub open spec fn spec_risk_score(eligible: bool, failed: int) -> int {
    if !eligible {
        if 7_000 + failed * 800 <= 10_000 {
            7_000 + failed * 800
        } else {
            10_000
        }
    } else if failed > 0 {
        4_500
    } else {
        1_200
    }
}

/// The label of a risk band.
pub open spec fn spec_threat_level(risk: int) -> Seq<char> {
    if risk >= 7_000 {
        "high"@
    } else if risk >= 3_500 {
        "moderate"@
    } else {
        "low"@
    }
}

/// The mathematical content of one threat row.
pub struct ThreatView {
    pub program: ProgramId,
    pub eligible: bool,
    pub failed_criteria: int,
    pub risk_score: i64,
    pub threat_level: Seq<char>,
    pub estimated_stake_at_risk_sol: i64,
    pub notes: Seq<Seq<char>>,
}

pub open spec fn threat_view(t: ProgramThreat) -> ThreatView {
    ThreatView {
        program: t.program,
        eligible: t.eligible,
        failed_criteria: t.failed_criteria as int,
        risk_score: t.risk_score,
        threat_level: t.threat_level@,
        estimated_stake_at_risk_sol: t.estimated_stake_at_risk_sol,
        notes: t.notes@.map_values(|s: String| s@),
    }
}

pub open spec fn threats_view(s: Seq<ProgramThreat>) -> Seq<ThreatView> {
    s.map_values(|t: ProgramThreat| threat_view(t))
}

/// The names of the failed criteria of one verdict, in order.
pub open spec fn failed_names(s: Seq<crate::evaluator::CriterionResult>) -> Seq<Seq<char>>
    decreases s.len(),
{
    if s.len() == 0 {
        Seq::empty()
    } else {
        failed_names(s.drop_last()) + (if s.last().passed {
            Seq::empty()
        } else {
            seq![s.last().criterion_name@]
        })
    }
}

/// The threat row one verdict yields.
pub open spec fn spec_threat(r: EligibilityResult, est: Seq<(ProgramId, i64)>) -> ThreatView {
    let failed = r.criterion_results@.len() - count_passed(r.criterion_results@);
    ThreatView {
        program: r.program,
        eligible: r.eligible,
        failed_criteria: failed,
        risk_score: spec_risk_score(r.eligible, failed) as i64,
        threat_level: spec_threat_level(spec_risk_score(r.eligible, failed)),
        estimated_stake_at_risk_sol: if r.eligible {
            0
        } else {
            match est_lookup(est, r.program) {
                Some(v) => v,
                None => 0,
            }
        },
        notes: failed_names(r.criterion_results@),
    }
}

pub open spec fn spec_threats(
    results: Seq<EligibilityResult>,
    est: Seq<(ProgramId, i64)>,
) -> Seq<ThreatView>
    decreases results.len(),
{
    if results.len() == 0 {
        Seq::empty()
    } else {
        spec_threats(results.drop_last(), est) + seq![spec_threat(results.last(), est)]
    }
}

/// The sum of the risk scores of some threat rows.
pub open spec fn risk_sum(s: Seq<ThreatView>) -> int
    decreases s.len(),
{
    if s.len() == 0 {
        0
    } else {
        risk_sum(s.drop_last()) + s.last().risk_score
    }
}

/// The names of the failed criteria of one verdict.
fn collect_failed_names(results: &Vec<crate::evaluator::CriterionResult>) -> (r: Vec<String>)
    ensures
        r@.map_values(|s: String| s@) == failed_names(results@),
{
    let mut out: Vec<String> = Vec::new();
    let mut i: usize = 0;
    while i < results.len()
        invariant
            0 <= i <= results@.len(),
            out@.map_values(|s: String| s@) == failed_names(results@.take(i as int)),
        decreases results@.len() - i,
    {
        proof {
            assert(results@.take(i as int + 1).drop_last() =~= results@.take(i as int));
            assert(results@.take(i as int + 1).last() == results@[i as int]);
        }
        if !results[i].passed {
            out.push(results[i].criterion_name.clone());
        }
        proof {
            assert(out@.map_values(|s: String| s@) =~= failed_names(results@.take(i as int + 1)));
        }
        i = i + 1;
    }
    proof {
        assert(results@.take(results@.len() as int) =~= results@);
    }
    out
}

/// Scores each verdict with the fixed risk heuristic and returns the
/// rows beside the average risk (fixed point; zero for no rows).
pub fn assess_threats(results: &[EligibilityResult], estimates: &[(ProgramId, i64)]) -> (r: (
    Vec<ProgramThreat>,
    i64,
))
    ensures
        threats_view(r.0@) == spec_threats(results@, estimates@),
        r.0@.len() == results@.len(),
        results@.len() == 0 ==> r.1 == 0,
        results@.len() > 0 ==> r.1 as int == risk_sum(spec_threats(results@, estimates@)) / (
        results@.len() as int),
{
    let mut threats: Vec<ProgramThreat> = Vec::new();
    let mut sum: i128 = 0;
    let mut i: usize = 0;
    while i < results.len()
        invariant
            0 <= i <= results@.len(),
            threats@.len() == i,
            threats_view(threats@) == spec_threats(results@.take(i as int), estimates@),
            sum as int == risk_sum(spec_threats(results@.take(i as int), estimates@)),
            0 <= sum <= (i as int) * 10_000,
        decreases results@.len() - i,
    {
        proof {
            assert(results@.take(i as int + 1).drop_last() =~= results@.take(i as int));
            assert(results@.take(i as int + 1).last() == results@[i as int]);
            lemma_count_passed_bounds(results@[i as int].criterion_results@);
            vstd::arithmetic::mul::lemma_mul_inequality(
                i as int + 1,
                usize::MAX as int + 1,
                10_000,
            );
        }
        let result = &results[i];
        let failed = result.failed_count();
        let risk_score: i64 = if !result.eligible {
            let raw: i128 = 7_000 + (failed as i128) * 800;
            if raw <= 10_000 {
                raw as i64
            } else {
                10_000
            }
        } else if failed > 0 {
            4_500
        } else {
            1_200
        };
        let threat_level = if risk_score >= 7_000 {
            String::from_str("high")
        } else if risk_score >= 3_500 {
            String::from_str("moderate")
        } else {
            String::from_str("low")
        };
        let estimated_stake_at_risk_sol = if result.eligible {
            0
        } else {
            match lookup_est(estimates, result.program) {
                Some(v) => v,
                None => 0,
            }
        };
        let notes = collect_failed_names(&result.criterion_results);
        let ghost pre = threats@;
        threats.push(
            ProgramThreat {
                program: result.program,
                eligible: result.eligible,
                failed_criteria: failed,
                risk_score,
                threat_level,
                estimated_stake_at_risk_sol,
                notes,
            },
        );
        sum = sum + risk_score as i128;
        proof {
            assert(threat_view(threats@.last()) == spec_threat(results@[i as int], estimates@));
            assert(threats_view(threats@) =~= spec_threats(
                results@.take(i as int + 1),
                estimates@,
            ));
            let grown = spec_threats(results@.take(i as int + 1), estimates@);
            assert(grown.drop_last() =~= spec_threats(results@.take(i as int), estimates@));
            assert(grown.last() == spec_threat(results@[i as int], estimates@));
            assert(risk_sum(grown) == risk_sum(spec_threats(results@.take(i as int), estimates@))
                + risk_score as int);
        }
        i = i + 1;
    }
    proof {
        assert(results@.take(results@.len() as int) =~= results@);
    }
    let overall: i64 = if threats.len() == 0 {
        0
    } else {
        proof {
            vstd::arithmetic::div_mod::lemma_div_pos_is_pos(sum as int, threats@.len() as int);
            vstd::arithmetic::div_mod::lemma_div_is_ordered(
                sum as int,
                (threats@.len() as int) * 10_000,
                threats@.len() as int,
            );
            vstd::arithmetic::div_mod::lemma_div_by_multiple(10_000, threats@.len() as int);
            assert((threats@.len() as int) * 10_000 == 10_000 * (threats@.len() as int))
                by (nonlinear_arith);
        }
        (sum / (threats.len() as i128)) as i64
    };
    (threats, overall)
}

/// The first estimate recorded for a program, if any.
fn lookup_est(est: &[(ProgramId, i64)], p: ProgramId) -> (r: Option<i64>)
    ensures
        r == est_lookup(est@, p),
{
    let mut i: usize = 0;
    proof {
        assert(est@.skip(0) =~= est@);
    }
    while i < est.len()
        invariant
            0 <= i <= est@.len(),
            est_lookup(est@, p) == est_lookup(est@.skip(i as int), p),
        decreases est@.len() - i,
    {
        proof {
            assert(est@.skip(i as int)[0] == est@[i as int]);
            assert(est@.skip(i as int).skip(1) =~= est@.skip(i as int + 1));
        }
        if est[i].0 == p {
            return Some(est[i].1);
        }
        i = i + 1;
    }
    None
}

/// The sums a scan reports over the per-program standings.
pub open spec fn sum_current(s: Seq<ProgramStatus>) -> int
    decreases s.len(),
{
    if s.len() == 0 {
        0
    } else {
        sum_current(s.drop_last()) + s.last().current_stake_sol
    }
}

pub open spec fn sum_potential(s: Seq<ProgramStatus>) -> int
    decreases s.len(),
{
    if s.len() == 0 {
        0
    } else {
        sum_potential(s.drop_last()) + s.last().potential_stake_sol
    }
}

/// Totals a scan: the current and potential sums, the missed difference
/// (also in dollars at the fixed price of two hundred per SOL), and one
/// action item per program with a positive gap that is not ineligible.
pub fn summarize_scan(programs: &Vec<ProgramStatus>) -> (r: ScanSummary)
    requires
        programs@.len() <= 100,
        forall|i: int|
            0 <= i < programs@.len() ==> fp_valid((#[trigger] programs@[i]).current_stake_sol)
                && fp_valid(programs@[i].potential_stake_sol) && fp_valid(programs@[i].gap_sol),
    ensures
        r.total_current_sol as int == sum_current(programs@),
        r.total_potential_sol as int == sum_potential(programs@),
        r.missed_revenue_sol as int == sum_potential(programs@) - sum_current(programs@),
        r.missed_revenue_usd as int == (sum_potential(programs@) - sum_current(programs@)) * 200,
        r.action_items@.len() <= programs@.len(),
        forall|k: int|
            0 <= k < r.action_items@.len() ==> (#[trigger] r.action_items@[k]).potential_gain_sol
                > 0,
{
    let mut total_current: i128 = 0;
    let mut total_potential: i128 = 0;
    let mut action_items: Vec<ActionItem> = Vec::new();
    let mut i: usize = 0;
    while i < programs.len()
        invariant
            0 <= i <= programs@.len(),
            programs@.len() <= 100,
            forall|j: int|
                0 <= j < programs@.len() ==> fp_valid((#[trigger] programs@[j]).current_stake_sol)
                    && fp_valid(programs@[j].potential_stake_sol) && fp_valid(
                    programs@[j].gap_sol,
                ),
            total_current as int == sum_current(programs@.take(i as int)),
            total_potential as int == sum_potential(programs@.take(i as int)),
            -(i as int) * (FP_LIMIT as int) <= total_current as int <= (i as int) * (
            FP_LIMIT as int),
            -(i as int) * (FP_LIMIT as int) <= total_potential as int <= (i as int) * (
            FP_LIMIT as int),
            action_items@.len() <= i,
            forall|k: int|
                0 <= k < action_items@.len() ==> (#[trigger] action_items@[k]).potential_gain_sol
                    > 0,
        decreases programs@.len() - i,
    {
        proof {
            assert(programs@.take(i as int + 1).drop_last() =~= programs@.take(i as int));
            assert(programs@.take(i as int + 1).last() == programs@[i as int]);
            vstd::arithmetic::mul::lemma_mul_inequality(i as int + 1, 100, FP_LIMIT as int);
            vstd::arithmetic::mul::lemma_mul_inequality(i as int, 100, FP_LIMIT as int);
        }
        let p = &programs[i];
        total_current = total_current + p.current_stake_sol as i128;
        total_potential = total_potential + p.potential_stake_sol as i128;
        let ineligible = match p.status {
            RegistrationStatus::Ineligible => true,
            _ => false,
        };
        if p.gap_sol > 0 && !ineligible {
            let mut action = String::from_str("Register with ");
            action.append(p.display_name.as_str());
            let difficulty = if str_eq(p.name.as_str(), "jito") || str_eq(
                p.name.as_str(),
                "marinade",
            ) {
                Difficulty::Easy
            } else if str_eq(p.name.as_str(), "sfdp") {
                Difficulty::Hard
            } else {
                Difficulty::Medium
            };
            let url = match &p.registration_url {
                Some(u) => Some(u.clone()),
                None => None,
            };
            action_items.push(
                ActionItem {
                    program: p.name.clone(),
                    action,
                    potential_gain_sol: p.gap_sol,
                    url,
                    difficulty,
                },
            );
        }
        i = i + 1;
    }
    proof {
        assert(programs@.take(programs@.len() as int) =~= programs@);
        vstd::arithmetic::mul::lemma_mul_inequality(
            programs@.len() as int,
            100,
            FP_LIMIT as int,
        );
    }
    let missed: i128 = total_potential - total_current;
    ScanSummary {
        total_current_sol: total_current as i64,
        total_potential_sol: total_potential as i64,
        missed_revenue_sol: missed as i64,
        missed_revenue_usd: (missed * 200) as i64,
        action_items,
    }
}

/// The sort key of a published set entry: delegated stake first, then
/// score, both treated as zero when absent.
pub open spec fn entry_key(e: EligibleValidator) -> (int, int) {
    (
        match e.delegated_sol {
            Some(d) => d as int,
            None => 0,
        },
        match e.score {
            Some(s) => s as int,
            None => 0,
        },
    )
}

/// Descending order on set entries.
pub open spec fn entry_ge(a: EligibleValidator, b: EligibleValidator) -> bool {
    entry_key(a).0 > entry_key(b).0 || (entry_key(a).0 == entry_key(b).0 && entry_key(a).1
        >= entry_key(b).1)
}

pub open spec fn entries_view(s: Seq<EligibleValidator>) -> Seq<(Seq<char>, Option<i64>, Option<
    i64,
>)> {
    s.map_values(|e: EligibleValidator| (e.vote_pubkey@, e.score, e.delegated_sol))
}

/// A queue standing: the validator's one-based position in the ranked
/// set and the share of the set at or below it (fixed-point percent).
#[derive(Debug)]
pub struct QueueStanding {
    pub position: Option<usize>,
    pub total: usize,
    pub percentile: Option<i64>,
}

/// Ranks a published set by delegated stake, then score, and locates a
/// validator in it: the position is one-based; the percentile is the
/// share of the set at or below that position.
pub fn queue_standing(eligible_set: Vec<EligibleValidator>, validator: &str) -> (r: (
    Vec<EligibleValidator>,
    QueueStanding,
))
    ensures
        entries_view(r.0@).to_multiset() == entries_view(eligible_set@).to_multiset(),
        forall|p: int, q: int| 0 <= p < q < r.0@.len() ==> entry_ge(r.0@[p], r.0@[q]),
        r.1.total == eligible_set@.len(),
        match r.1.position {
            Some(pos) => 1 <= pos <= r.0@.len() && r.0@[pos - 1].vote_pubkey@ == validator@,
            None => forall|k: int| 0 <= k < r.0@.len() ==> (#[trigger] r.0@[k]).vote_pubkey@ != validator@,
        },
        r.1.percentile is Some <==> r.1.position is Some,
        match (r.1.position, r.1.percentile) {
            (Some(pos), Some(pct)) => pct as int == ((r.0@.len() - pos + 1) * 1_000_000) / (
            r.0@.len() as int),
            (None, None) => true,
            _ => false,
        },
{
    broadcast use vstd::seq_lib::group_to_multiset_ensures;

    let ghost target = entries_view(eligible_set@).to_multiset();
    let ghost total_len = eligible_set@.len();
    let mut rest = eligible_set;
    let mut sorted: Vec<EligibleValidator> = Vec::new();
    while rest.len() > 0
        invariant
            entries_view(sorted@).to_multiset().add(entries_view(rest@).to_multiset()) =~= target,
            sorted@.len() + rest@.len() == total_len,
            forall|p: int, q: int| 0 <= p < q < sorted@.len() ==> entry_ge(sorted@[p], sorted@[q]),
            forall|p: int, q: int|
                0 <= p < sorted@.len() && 0 <= q < rest@.len() ==> entry_ge(sorted@[p], rest@[q]),
        decreases rest@.len(),
    {
        let mut best: usize = 0;
        let mut m: usize = 1;
        while m < rest.len()
            invariant
                0 <= best < m <= rest@.len(),
                rest@.len() > 0,
                forall|k: int| 0 <= k < m ==> entry_ge(rest@[best as int], rest@[k]),
            decreases rest@.len() - m,
        {
            let better = {
                let cand_d = match rest[m].delegated_sol {
                    Some(d) => d,
                    None => 0,
                };
                let best_d = match rest[best].delegated_sol {
                    Some(d) => d,
                    None => 0,
                };
                if cand_d > best_d {
                    true
                } else if cand_d == best_d {
                    let cand_s = match rest[m].score {
                        Some(s) => s,
                        None => 0,
                    };
                    let best_s = match rest[best].score {
                        Some(s) => s,
                        None => 0,
                    };
                    cand_s > best_s
                } else {
                    false
                }
            };
            if better {
                best = m;
            }
            m = m + 1;
        }
        let ghost pre_rest = rest@;
        let ghost pre_sorted = sorted@;
        let picked = rest.remove(best);
        sorted.push(picked);
        proof {
            let s = entries_view(pre_rest);
            let pv = (picked.vote_pubkey@, picked.score, picked.delegated_sol);
            s.to_multiset_ensures();
            entries_view(pre_sorted).to_multiset_ensures();
            assert(s[best as int] == pv);
            assert(entries_view(rest@) =~= s.remove(best as int));
            assert(s.remove(best as int).to_multiset() =~= s.to_multiset().remove(pv));
            assert(s.contains(pv));
            assert(s.to_multiset().count(pv) > 0);
            assert(entries_view(sorted@) =~= entries_view(pre_sorted).push(pv));
            assert((entries_view(pre_sorted).push(pv)).to_multiset() =~= entries_view(
                pre_sorted,
            ).to_multiset().insert(pv));
            assert(entries_view(sorted@).to_multiset().add(entries_view(rest@).to_multiset())
                =~= target);
        }
    }
    proof {
        entries_view(rest@).to_multiset_ensures();
        vstd::multiset::lemma_multiset_empty_len(entries_view(rest@).to_multiset());
        assert(entries_view(rest@).to_multiset() =~= Multiset::<
            (Seq<char>, Option<i64>, Option<i64>),
        >::empty());
        assert(entries_view(sorted@).to_multiset() =~= target);
    }
    let total = sorted.len();
    let position = find_position(&sorted, validator);
    let percentile: Option<i64> = match position {
        Some(pos) => {
            proof {
                let head = ((total - pos + 1) as int) * 1_000_000;
                assert(0 <= (total - pos + 1) as int * 1_000_000 <= (total as int) * 1_000_000)
                    by (nonlinear_arith)
                    requires
                        1 <= pos as int <= total as int,
                ;
                assert((total as int) * 1_000_000 <= 0xffff_ffff_ffff_ffffi128 * 1_000_000)
                    by (nonlinear_arith)
                    requires
                        0 <= total as int <= 0xffff_ffff_ffff_ffffi128,
                ;
                vstd::arithmetic::div_mod::lemma_div_pos_is_pos(head, total as int);
                vstd::arithmetic::div_mod::lemma_div_is_ordered(
                    head,
                    (total as int) * 1_000_000,
                    total as int,
                );
                vstd::arithmetic::div_mod::lemma_div_by_multiple(1_000_000, total as int);
                assert((total as int) * 1_000_000 == 1_000_000 * (total as int))
                    by (nonlinear_arith);
            }
            Some(((((total - pos) as i128 + 1) * 1_000_000) / (total as i128)) as i64)
        },
        None => None,
    };
    let standing = QueueStanding { position, total, percentile };
    (sorted, standing)
}

/// One program's history aggregate: how often the participant was
/// eligible, how the verdict flipped over time, and the average
/// delegation across the samples.
#[derive(Debug)]
pub struct ProgramCohortFlow {
    pub program: ProgramId,
    pub samples: usize,
    pub eligible_ratio: i64,
    pub gain_events: usize,
    pub loss_events: usize,
    pub avg_delegation_sol: i64,
}

/// The records of one program, in their given order.
pub open spec fn records_of(s: Seq<EligibilityRecord>, p: ProgramId) -> Seq<EligibilityRecord>
    decreases s.len(),
{
    if s.len() == 0 {
        Seq::empty()
    } else {
        records_of(s.drop_last(), p) + (if s.last().program == p {
            seq![s.last()]
        } else {
            Seq::empty()
        })
    }
}

/// Whether records are ordered by epoch, earliest first.
pub open spec fn epoch_sorted(s: Seq<EligibilityRecord>) -> bool {
    forall|i: int, j: int| 0 <= i < j < s.len() ==> s[i].epoch <= s[j].epoch
}

/// How many kept records were eligible.
pub open spec fn eligible_in(s: Seq<EligibilityRecord>) -> int
    decreases s.len(),
{
    if s.len() == 0 {
        0
    } else {
        eligible_in(s.drop_last()) + (if s.last().eligible {
            1int
        } else {
            0int
        })
    }
}

/// The sum of the recorded delegations (absent ones count as zero).
pub open spec fn delegation_total(s: Seq<EligibilityRecord>) -> int
    decreases s.len(),
{
    if s.len() == 0 {
        0
    } else {
        delegation_total(s.drop_last()) + (match s.last().delegation_sol {
            Some(d) => d as int,
            None => 0,
        })
    }
}

/// How many adjacent pairs flip from ineligible to eligible.
pub open spec fn gains_in(s: Seq<EligibilityRecord>) -> int
    decreases s.len(),
{
    if s.len() < 2 {
        0
    } else {
        gains_in(s.drop_last()) + (if !s[s.len() - 2].eligible && s.last().eligible {
            1int
        } else {
            0int
        })
    }
}

/// How many adjacent pairs flip from eligible to ineligible.
pub open spec fn losses_in(s: Seq<EligibilityRecord>) -> int
    decreases s.len(),
{
    if s.len() < 2 {
        0
    } else {
        losses_in(s.drop_last()) + (if s[s.len() - 2].eligible && !s.last().eligible {
            1int
        } else {
            0int
        })
    }
}

pub open spec fn record_view(r: EligibilityRecord) -> (Seq<char>, ProgramId, u64, bool, Option<
    i64,
>, Option<i64>, i64) {
    (r.vote_pubkey@, r.program, r.epoch, r.eligible, r.score, r.delegation_sol, r.captured_at)
}

pub open spec fn records_view(s: Seq<EligibilityRecord>) -> Seq<
    (Seq<char>, ProgramId, u64, bool, Option<i64>, Option<i64>, i64),
> {
    s.map_values(|r: EligibilityRecord| record_view(r))
}

/// Whether a cohort row faithfully aggregates a program's records: its
/// counts come from some epoch-ordered arrangement of exactly those
/// records.
pub open spec fn cohort_row_ok(
    row: ProgramCohortFlow,
    records: Seq<EligibilityRecord>,
    p: ProgramId,
) -> bool {
    let mine = records_of(records, p);
    exists|s: Seq<EligibilityRecord>|
        {
            &&& #[trigger] records_view(s).to_multiset() == records_view(mine).to_multiset()
            &&& epoch_sorted(s)
            &&& s.len() == mine.len()
            &&& row.program == p
            &&& row.samples == mine.len()
            &&& row.eligible_ratio as int == eligible_in(s) * 10_000 / (s.len() as int)
            &&& row.gain_events as int == gains_in(s)
            &&& row.loss_events as int == losses_in(s)
            &&& row.avg_delegation_sol as int == crate::tdiv(delegation_total(s), s.len() as int)
        }
}

/// A copy of one history row.
fn clone_record(r: &EligibilityRecord) -> (c: EligibilityRecord)
    ensures
        record_view(c) == record_view(*r),
        c.program == r.program,
        c.epoch == r.epoch,
        c.eligible == r.eligible,
        c.delegation_sol == r.delegation_sol,
{
    EligibilityRecord {
        vote_pubkey: r.vote_pubkey.clone(),
        program: r.program,
        epoch: r.epoch,
        eligible: r.eligible,
        score: match r.score {
            Some(v) => Some(v),
            None => None,
        },
        delegation_sol: match r.delegation_sol {
            Some(v) => Some(v),
            None => None,
        },
        captured_at: r.captured_at,
    }
}

/// Aggregates a history into one row per program that appears in it, in
/// the programs' stable order: each row counts its program's records,
/// the eligible share (fixed point), the verdict flips over the
/// epoch-ordered run, and the average recorded delegation.
pub fn summarize_cohorts(records: &[EligibilityRecord]) -> (r: Vec<ProgramCohortFlow>)
    requires
        records@.len() <= 10_000,
        forall|i: int|
            0 <= i < records@.len() ==> match (#[trigger] records@[i]).delegation_sol {
                Some(d) => fp_valid(d),
                None => true,
            },
    ensures
        forall|k: int|
            0 <= k < r@.len() ==> cohort_row_ok(
                #[trigger] r@[k],
                records@,
                r@[k].program,
            ),
        forall|k1: int, k2: int|
            0 <= k1 < k2 < r@.len() ==> crate::program::spec_rank(r@[k1].program)
                < crate::program::spec_rank(r@[k2].program),
{
    broadcast use vstd::seq_lib::group_to_multiset_ensures;

    let all = crate::program::all_programs();
    let mut out: Vec<ProgramCohortFlow> = Vec::new();
    let mut gi: usize = 0;
    while gi < all.len()
        invariant
            0 <= gi <= all@.len(),
            all@.len() == 6,
            forall|i2: int| 0 <= i2 < 6 ==> crate::program::spec_rank(#[trigger] all@[i2]) == i2,
            records@.len() <= 10_000,
            forall|i2: int|
                0 <= i2 < records@.len() ==> match (#[trigger] records@[i2]).delegation_sol {
                    Some(d) => fp_valid(d),
                    None => true,
                },
            forall|k: int|
                0 <= k < out@.len() ==> cohort_row_ok(#[trigger] out@[k], records@, out@[k].program),
            forall|k: int|
                0 <= k < out@.len() ==> crate::program::spec_rank(#[trigger] out@[k].program)
                    < gi,
            forall|k1: int, k2: int|
                0 <= k1 < k2 < out@.len() ==> crate::program::spec_rank(out@[k1].program)
                    < crate::program::spec_rank(out@[k2].program),
        decreases all@.len() - gi,
    {
        let p = all[gi];
        let mut mine: Vec<EligibilityRecord> = Vec::new();
        let mut i: usize = 0;
        while i < records.len()
            invariant
                0 <= i <= records@.len(),
                records@.len() <= 10_000,
                forall|i2: int|
                    0 <= i2 < records@.len() ==> match (#[trigger] records@[i2]).delegation_sol {
                        Some(d) => fp_valid(d),
                        None => true,
                    },
                records_view(mine@) == records_view(records_of(records@.take(i as int), p)),
                mine@.len() == records_of(records@.take(i as int), p).len(),
                forall|k: int|
                    0 <= k < mine@.len() ==> (#[trigger] mine@[k]).program == p && (match mine@[k].delegation_sol {
                        Some(d) => fp_valid(d),
                        None => true,
                    }),
            decreases records@.len() - i,
        {
            proof {
                assert(records@.take(i as int + 1).drop_last() =~= records@.take(i as int));
                assert(records@.take(i as int + 1).last() == records@[i as int]);
            }
            if records[i].program == p {
                let ghost pre = mine@;
                mine.push(clone_record(&records[i]));
                proof {
                    assert(record_view(mine@.last()) == record_view(records@[i as int]));
                    assert(records_view(mine@) =~= records_view(pre).push(
                        record_view(mine@.last()),
                    ));
                    assert(records_of(records@.take(i as int + 1), p) =~= records_of(
                        records@.take(i as int),
                        p,
                    ).push(records@[i as int]));
                    assert(records_view(mine@) =~= records_view(
                        records_of(records@.take(i as int + 1), p),
                    ));
                }
            } else {
                proof {
                    assert(records_view(mine@) =~= records_view(
                        records_of(records@.take(i as int + 1), p),
                    ));
                }
            }
            i = i + 1;
        }
        proof {
            assert(records@.take(records@.len() as int) =~= records@);
        }
        if mine.len() > 0 {
            let ghost mine_pre = mine@;
            let sorted = sort_by_epoch(mine);
            let n = sorted.len();
            proof {
                lemma_records_of_len(records@, p);
                assert forall|k: int| 0 <= k < sorted@.len() implies match (
                #[trigger] sorted@[k]).delegation_sol {
                    Some(d) => fp_valid(d),
                    None => true,
                } by {
                    let k2 = choose|k2: int|
                        0 <= k2 < mine_pre.len() && record_view(sorted@[k]) == record_view(
                            mine_pre[k2],
                        ) && sorted@[k].program == mine_pre[k2].program && sorted@[k].delegation_sol
                            == mine_pre[k2].delegation_sol;
                }
            }
            let mut eligible: u64 = 0;
            let mut delegation: i128 = 0;
            let mut gains: u64 = 0;
            let mut losses: u64 = 0;
            let mut j: usize = 0;
            while j < n
                invariant
                    0 <= j <= n,
                    n == sorted@.len(),
                    n <= 10_000,
                    forall|k: int|
                        0 <= k < sorted@.len() ==> match (#[trigger] sorted@[k]).delegation_sol {
                            Some(d) => fp_valid(d),
                            None => true,
                        },
                    eligible as int == eligible_in(sorted@.take(j as int)),
                    delegation as int == delegation_total(sorted@.take(j as int)),
                    gains as int == gains_in(sorted@.take(j as int)),
                    losses as int == losses_in(sorted@.take(j as int)),
                    eligible <= j,
                    gains <= j,
                    losses <= j,
                    -(j as int) * (FP_LIMIT as int) <= delegation as int <= (j as int) * (
                    FP_LIMIT as int),
                decreases n - j,
            {
                proof {
                    assert(sorted@.take(j as int + 1).drop_last() =~= sorted@.take(j as int));
                    assert(sorted@.take(j as int + 1).last() == sorted@[j as int]);
                    vstd::arithmetic::mul::lemma_mul_inequality(
                        j as int + 1,
                        10_000,
                        FP_LIMIT as int,
                    );
                    vstd::arithmetic::mul::lemma_mul_inequality(j as int, 10_000, FP_LIMIT as int);
                }
                if sorted[j].eligible {
                    eligible = eligible + 1;
                }
                match sorted[j].delegation_sol {
                    Some(d) => {
                        delegation = delegation + d as i128;
                    },
                    None => {},
                }
                if j > 0 {
                    if !sorted[j - 1].eligible && sorted[j].eligible {
                        gains = gains + 1;
                    }
                    if sorted[j - 1].eligible && !sorted[j].eligible {
                        losses = losses + 1;
                    }
                }
                j = j + 1;
            }
            proof {
                assert(sorted@.take(n as int) =~= sorted@);
                vstd::arithmetic::div_mod::lemma_div_pos_is_pos(
                    eligible as int * 10_000,
                    n as int,
                );
                vstd::arithmetic::mul::lemma_mul_inequality(eligible as int, n as int, 10_000);
                vstd::arithmetic::div_mod::lemma_div_is_ordered(
                    eligible as int * 10_000,
                    n as int * 10_000,
                    n as int,
                );
                vstd::arithmetic::div_mod::lemma_div_by_multiple(10_000, n as int);
                assert(n as int * 10_000 == 10_000 * (n as int)) by (nonlinear_arith);
                vstd::arithmetic::mul::lemma_mul_inequality(n as int, 10_000, FP_LIMIT as int);
            }
            let eligible_ratio: i64 = (((eligible as i128) * 10_000) / (n as i128)) as i64;
            let avg_delegation_sol: i64 = (delegation / (n as i128)) as i64;
            let ghost pre = out@;
            let row = ProgramCohortFlow {
                program: p,
                samples: n,
                eligible_ratio,
                gain_events: gains as usize,
                loss_events: losses as usize,
                avg_delegation_sol,
            };
            proof {
                let s = sorted@;
                assert(records_view(s).to_multiset() == records_view(
                    records_of(records@, p),
                ).to_multiset());
                assert(epoch_sorted(s));
                assert(s.len() == records_of(records@, p).len());
                assert(row.samples == records_of(records@, p).len());
                assert(row.eligible_ratio as int == eligible_in(s) * 10_000 / (s.len() as int));
                assert(row.gain_events as int == gains_in(s));
                assert(row.loss_events as int == losses_in(s));
                assert(row.avg_delegation_sol as int == crate::tdiv(
                    delegation_total(s),
                    s.len() as int,
                ));
                assert(cohort_row_ok(row, records@, p));
            }
            out.push(row);
            proof {
                assert forall|k: int| 0 <= k < out@.len() implies cohort_row_ok(
                    #[trigger] out@[k],
                    records@,
                    out@[k].program,
                ) by {
                    if k < pre.len() {
                        assert(out@[k] == pre[k]);
                    }
                }
            }
        }
        gi = gi + 1;
    }
    out
}

/// A program's records are never more numerous than the history.
proof fn lemma_records_of_len(s: Seq<EligibilityRecord>, p: ProgramId)
    ensures
        records_of(s, p).len() <= s.len(),
    decreases s.len(),
{
    if s.len() > 0 {
        lemma_records_of_len(s.drop_last(), p);
    }
}

/// An epoch-ordered copy of some records, as a permutation.
fn sort_by_epoch(records: Vec<EligibilityRecord>) -> (r: Vec<EligibilityRecord>)
    ensures
        records_view(r@).to_multiset() == records_view(records@).to_multiset(),
        epoch_sorted(r@),
        r@.len() == records@.len(),
        forall|k: int|
            0 <= k < r@.len() ==> exists|k2: int|
                0 <= k2 < records@.len() && record_view(#[trigger] r@[k]) == record_view(
                    records@[k2],
                ) && r@[k].program == records@[k2].program && r@[k].delegation_sol == records@[
                k2].delegation_sol,
{
    broadcast use vstd::seq_lib::group_to_multiset_ensures;

    let ghost target = records_view(records@).to_multiset();
    let ghost total = records@.len();
    let ghost given = records@;
    let mut rest = records;
    let mut out: Vec<EligibilityRecord> = Vec::new();
    proof {
        assert forall|k: int| 0 <= k < rest@.len() implies exists|k2: int|
            0 <= k2 < given.len() && record_view(#[trigger] rest@[k]) == record_view(
                given[k2],
            ) && rest@[k].program == given[k2].program && rest@[k].delegation_sol == given[
            k2].delegation_sol by {
            assert(record_view(rest@[k]) == record_view(given[k]));
        }
    }
    while rest.len() > 0
        invariant
            records_view(out@).to_multiset().add(records_view(rest@).to_multiset()) =~= target,
            out@.len() + rest@.len() == total,
            epoch_sorted(out@),
            forall|p2: int, q2: int|
                0 <= p2 < out@.len() && 0 <= q2 < rest@.len() ==> out@[p2].epoch
                    <= rest@[q2].epoch,
            forall|k: int|
                0 <= k < out@.len() ==> exists|k2: int|
                    0 <= k2 < given.len() && record_view(#[trigger] out@[k]) == record_view(
                        given[k2],
                    ) && out@[k].program == given[k2].program && out@[k].delegation_sol
                        == given[k2].delegation_sol,
            forall|k: int|
                0 <= k < rest@.len() ==> exists|k2: int|
                    0 <= k2 < given.len() && record_view(#[trigger] rest@[k]) == record_view(
                        given[k2],
                    ) && rest@[k].program == given[k2].program && rest@[k].delegation_sol
                        == given[k2].delegation_sol,
        decreases rest@.len(),
    {
        let mut best: usize = 0;
        let mut m: usize = 1;
        while m < rest.len()
            invariant
                0 <= best < m <= rest@.len(),
                rest@.len() > 0,
                forall|k: int| 0 <= k < m ==> rest@[best as int].epoch <= rest@[k].epoch,
            decreases rest@.len() - m,
        {
            if rest[m].epoch < rest[best].epoch {
                best = m;
            }
            m = m + 1;
        }
        let ghost pre_rest = rest@;
        let ghost pre_out = out@;
        let picked = rest.remove(best);
        out.push(picked);
        proof {
            let s = records_view(pre_rest);
            let pv = record_view(picked);
            s.to_multiset_ensures();
            records_view(pre_out).to_multiset_ensures();
            assert(s[best as int] == pv);
            assert(records_view(rest@) =~= s.remove(best as int));
            assert(s.remove(best as int).to_multiset() =~= s.to_multiset().remove(pv));
            assert(s.contains(pv));
            assert(s.to_multiset().count(pv) > 0);
            assert(records_view(out@) =~= records_view(pre_out).push(pv));
            assert((records_view(pre_out).push(pv)).to_multiset() =~= records_view(
                pre_out,
            ).to_multiset().insert(pv));
            assert(records_view(out@).to_multiset().add(records_view(rest@).to_multiset())
                =~= target);
            assert forall|k: int| 0 <= k < rest@.len() implies exists|k2: int|
                0 <= k2 < given.len() && record_view(#[trigger] rest@[k]) == record_view(
                    given[k2],
                ) && rest@[k].program == given[k2].program && rest@[k].delegation_sol
                    == given[k2].delegation_sol by {
                if k < best {
                    assert(rest@[k] == pre_rest[k]);
                } else {
                    assert(rest@[k] == pre_rest[k + 1]);
                }
            }
        }
    }
    proof {
        records_view(rest@).to_multiset_ensures();
        vstd::multiset::lemma_multiset_empty_len(records_view(rest@).to_multiset());
        assert(records_view(rest@).to_multiset() =~= Multiset::<
            (Seq<char>, ProgramId, u64, bool, Option<i64>, Option<i64>, i64),
        >::empty());
        assert(records_view(out@).to_multiset() =~= target);
    }
    out
}

/// The one-based position of the first entry carrying a name.
fn find_position(sorted: &Vec<EligibleValidator>, validator: &str) -> (r: Option<usize>)
    ensures
        match r {
            Some(pos) => 1 <= pos <= sorted@.len() && sorted@[pos - 1].vote_pubkey@ == validator@,
            None => forall|k: int|
                0 <= k < sorted@.len() ==> (#[trigger] sorted@[k]).vote_pubkey@ != validator@,
        },
{
    let mut i: usize = 0;
    while i < sorted.len()
        invariant
            0 <= i <= sorted@.len(),
            forall|k: int| 0 <= k < i ==> (#[trigger] sorted@[k]).vote_pubkey@ != validator@,
        decreases sorted@.len() - i,
    {
        if str_eq(sorted[i].vote_pubkey.as_str(), validator) {
            return Some(i + 1);
        }
        i = i + 1;
    }
    None
}

} // verus!
