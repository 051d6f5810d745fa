use vstd::prelude::*;

use crate::arbitrage::est_lookup;
use crate::criteria::CriteriaSet;
use crate::evaluator::{
    passed_weight, result_matches, spec_eval_ok, CriterionResult, EligibilityResult,
};
use crate::metric::constraint_eqv;
use crate::metric::{key_eqv, MetricKey, MetricValue};
use crate::metrics::{key_is_numeric, spec_metric_value, ValidatorMetrics};
use crate::program::ProgramId;
use crate::{fp_valid, FP_LIMIT};

verus! {

/// One applied hypothetical change: the metric, its reading before, and
/// the target value.
#[derive(Debug)]
pub struct MetricChange {
    pub metric: MetricKey,
    pub from: i64,
    pub to: i64,
}

/// The outcome of one hypothetical run: the changes that took effect,
/// both evaluation batches, the programs whose gate flipped either way,
/// and the net delegation difference.
#[derive(Debug)]
pub struct WhatIfResult {
    pub changes_applied: Vec<MetricChange>,
    pub before: Vec<EligibilityResult>,
    pub after: Vec<EligibilityResult>,
    pub programs_gained: Vec<ProgramId>,
    pub programs_lost: Vec<ProgramId>,
    pub net_delegation_change_sol: i64,
}

/// The criteria sets selected by a program filter, in order.
pub open spec fn filtered_sets(sets: Seq<CriteriaSet>, filter: Option<Seq<ProgramId>>) -> Seq<
    CriteriaSet,
>
    decreases sets.len(),
{
    if sets.len() == 0 {
        Seq::empty()
    } else {
        filtered_sets(sets.drop_last(), filter) + (match filter {
            None => seq![sets.last()],
            Some(ids) => if ids.contains(sets.last().program) {
                seq![sets.last()]
            } else {
                Seq::empty()
            },
        })
    }
}

/// The reading a key holds after a list of hypothetical changes is
/// applied in order: the last numeric change to the key wins; text and
/// flag metrics are never changed.
pub open spec fn changed_value(
    m: ValidatorMetrics,
    changes: Seq<(MetricKey, i64)>,
    k: MetricKey,
) -> Option<MetricValue>
    decreases changes.len(),
{
    if changes.len() == 0 {
        spec_metric_value(m, k)
    } else if key_is_numeric(changes.last().0) && key_eqv(k, changes.last().0) {
        Some(MetricValue::Numeric(changes.last().1))
    } else {
        changed_value(m, changes.drop_last(), k)
    }
}

/// The numeric part of a reading (zero for text, flag, and unresolved
/// readings).
pub open spec fn num_of(v: Option<MetricValue>) -> i64 {
    match v {
        Some(MetricValue::Numeric(x)) => x,
        _ => 0,
    }
}

/// Whether a snapshot holds exactly the readings of a base snapshot
/// with a change list applied.
pub open spec fn reads_as(
    m2: ValidatorMetrics,
    base: ValidatorMetrics,
    changes: Seq<(MetricKey, i64)>,
) -> bool {
    forall|k: MetricKey| spec_metric_value(m2, k) == changed_value(base, changes, k)
}

/// The change records the simulator keeps: one per numeric change, with
/// the reading it replaced at that point of the list.
pub open spec fn spec_changes_applied(
    m: ValidatorMetrics,
    changes: Seq<(MetricKey, i64)>,
) -> Seq<MetricChange>
    decreases changes.len(),
{
    if changes.len() == 0 {
        Seq::empty()
    } else {
        spec_changes_applied(m, changes.drop_last()) + (if key_is_numeric(changes.last().0) {
            seq![
                MetricChange {
                    metric: changes.last().0,
                    from: num_of(changed_value(m, changes.drop_last(), changes.last().0)),
                    to: changes.last().1,
                },
            ]
        } else {
            Seq::empty()
        })
    }
}

/// The sum of the delegation estimates of a batch (ineligible results
/// carry none and contribute nothing).
pub open spec fn sum_delegation(rs: Seq<EligibilityResult>) -> int
    decreases rs.len(),
{
    if rs.len() == 0 {
        0
    } else {
        sum_delegation(rs.drop_last()) + (match rs.last().estimated_delegation_sol {
            Some(d) => d as int,
            None => 0,
        })
    }
}

/// The first result of a batch for a program, if any.
pub open spec fn find_result(rs: Seq<EligibilityResult>, p: ProgramId) -> Option<EligibilityResult>
    decreases rs.len(),
{
    if rs.len() == 0 {
        None
    } else if rs[0].program == p {
        Some(rs[0])
    } else {
        find_result(rs.skip(1), p)
    }
}

/// The programs that flipped from ineligible to eligible, in the order
/// of the earlier batch.
pub open spec fn spec_gained(before: Seq<EligibilityResult>, after: Seq<EligibilityResult>) -> Seq<
    ProgramId,
>
    decreases before.len(),
{
    if before.len() == 0 {
        Seq::empty()
    } else {
        spec_gained(before.drop_last(), after) + (match find_result(after, before.last().program) {
            Some(n) => if !before.last().eligible && n.eligible {
                seq![n.program]
            } else {
                Seq::empty()
            },
            None => Seq::empty(),
        })
    }
}

/// The programs that flipped from eligible to ineligible.
pub open spec fn spec_lost(before: Seq<EligibilityResult>, after: Seq<EligibilityResult>) -> Seq<
    ProgramId,
>
    decreases before.len(),
{
    if before.len() == 0 {
        Seq::empty()
    } else {
        spec_lost(before.drop_last(), after) + (match find_result(after, before.last().program) {
            Some(n) => if before.last().eligible && !n.eligible {
                seq![n.program]
            } else {
                Seq::empty()
            },
            None => Seq::empty(),
        })
    }
}

/// Whether a batch is the faithful evaluation of a set list over a
/// snapshot, with the given per-program estimates.
pub open spec fn batch_eval_ok(
    rs: Seq<EligibilityResult>,
    sets: Seq<CriteriaSet>,
    est: Seq<(ProgramId, i64)>,
    m: ValidatorMetrics,
) -> bool {
    &&& rs.len() == sets.len()
    &&& forall|i: int|
        0 <= i < sets.len() ==> spec_eval_ok(
            rs[i],
            (#[trigger] sets[i]).program,
            m,
            sets[i],
            est_lookup(est, sets[i].program),
        )
}

/// Everything `simulate_whatif` promises of its outcome.
pub open spec fn whatif_ok(
    r: WhatIfResult,
    sets: Seq<CriteriaSet>,
    est: Seq<(ProgramId, i64)>,
    m: ValidatorMetrics,
    changes: Seq<(MetricKey, i64)>,
    filter: Option<Seq<ProgramId>>,
) -> bool {
    let flt = filtered_sets(sets, filter);
    &&& batch_eval_ok(r.before@, flt, est, m)
    &&& r.changes_applied@ == spec_changes_applied(m, changes)
    &&& exists|m2: ValidatorMetrics|
        (#[trigger] reads_as(m2, m, changes)) && m2.wf() && batch_eval_ok(r.after@, flt, est, m2)
    &&& r.programs_gained@ == spec_gained(r.before@, r.after@)
    &&& r.programs_lost@ == spec_lost(r.before@, r.after@)
    &&& r.net_delegation_change_sol as int == sum_delegation(r.after@) - sum_delegation(r.before@)
}

/// Evaluates a snapshot against each given criteria set, passing each
/// program its delegation estimate.
pub fn evaluate_all_programs(
    sets: &[CriteriaSet],
    estimates: &[(ProgramId, i64)],
    metrics: &ValidatorMetrics,
    filter: Option<&[ProgramId]>,
) -> (r: Vec<EligibilityResult>)
    requires
        metrics.wf(),
        forall|i: int| 0 <= i < sets@.len() ==> (#[trigger] sets@[i]).wf(),
    ensures
        batch_eval_ok(
            r@,
            filtered_sets(
                sets@,
                match filter {
                    Some(ids) => Some(ids@),
                    None => None,
                },
            ),
            estimates@,
            *metrics,
        ),
{
    let ghost gfilter: Option<Seq<ProgramId>> = match filter {
        Some(ids) => Some(ids@),
        None => None,
    };
    let mut out: Vec<EligibilityResult> = Vec::new();
    let mut i: usize = 0;
    while i < sets.len()
        invariant
            0 <= i <= sets@.len(),
            metrics.wf(),
            forall|j: int| 0 <= j < sets@.len() ==> (#[trigger] sets@[j]).wf(),
            gfilter == (match filter {
                Some(ids) => Some(ids@),
                None => None,
            }),
            batch_eval_ok(out@, filtered_sets(sets@.take(i as int), gfilter), estimates@, *metrics),
        decreases sets@.len() - i,
    {
        proof {
            assert(sets@.take(i as int + 1).drop_last() =~= sets@.take(i as int));
            assert(sets@.take(i as int + 1).last() == sets@[i as int]);
        }
        let set = &sets[i];
        let selected = match filter {
            None => true,
            Some(ids) => contains_id(ids, set.program),
        };
        if selected {
            let est = lookup_estimate_slice(estimates, set.program);
            let result = crate::evaluator::evaluate_validator(set.program, metrics, set, est);
            let ghost pre = out@;
            out.push(result);
            proof {
                let flt = filtered_sets(sets@.take(i as int + 1), gfilter);
                assert(flt =~= filtered_sets(sets@.take(i as int), gfilter).push(sets@[i as int]));
                assert forall|j: int| 0 <= j < flt.len() implies spec_eval_ok(
                    out@[j],
                    (#[trigger] flt[j]).program,
                    *metrics,
                    flt[j],
                    est_lookup(estimates@, flt[j].program),
                ) by {
                    if j < flt.len() - 1 {
                        assert(out@[j] == pre[j]);
                        assert(flt[j] == filtered_sets(sets@.take(i as int), gfilter)[j]);
                    } else {
                        assert(flt[j] == sets@[i as int]);
                        assert(out@[j] == result);
                    }
                }
            }
        } else {
            proof {
                assert(filtered_sets(sets@.take(i as int + 1), gfilter) =~= filtered_sets(
                    sets@.take(i as int),
                    gfilter,
                ));
            }
        }
        i = i + 1;
    }
    proof {
        assert(sets@.take(sets@.len() as int) =~= sets@);
    }
    out
}

/// Whether a program list contains a given program.
fn contains_id(ids: &[ProgramId], p: ProgramId) -> (r: bool)
    ensures
        r == ids@.contains(p),
{
    let mut i: usize = 0;
    while i < ids.len()
        invariant
            0 <= i <= ids@.len(),
            forall|j: int| 0 <= j < i ==> ids@[j] != p,
        decreases ids@.len() - i,
    {
        if ids[i] == p {
            return true;
        }
        i = i + 1;
    }
    false
}

/// The first estimate recorded for a program, if any.
fn lookup_estimate_slice(est: &[(ProgramId, i64)], p: ProgramId) -> (r: Option<i64>)
    ensures
        r == est_lookup(est@, p),
{
    let mut i: usize = 0;
    proof {
        assert(est@.skip(0) =~= est@);
    }
    while i < est.len()
        invariant
            0 <= i <= est@.len(),
            est_lookup(est@, p) == est_lookup(est@.skip(i as int), p),
        decreases est@.len() - i,
    {
        proof {
            assert(est@.skip(i as int)[0] == est@[i as int]);
            assert(est@.skip(i as int).skip(1) =~= est@.skip(i as int + 1));
        }
        if est[i].0 == p {
            return Some(est[i].1);
        }
        i = i + 1;
    }
    None
}

/// The first result of a batch for a program, if any.
pub fn find_result_ex<'a>(rs: &'a Vec<EligibilityResult>, p: ProgramId) -> (r: Option<
    &'a EligibilityResult,
>)
    ensures
        match r {
            Some(x) => find_result(rs@, p) == Some(*x),
            None => find_result(rs@, p) is None,
        },
{
    let mut i: usize = 0;
    proof {
        assert(rs@.skip(0) =~= rs@);
    }
    while i < rs.len()
        invariant
            0 <= i <= rs@.len(),
            find_result(rs@, p) == find_result(rs@.skip(i as int), p),
        decreases rs@.len() - i,
    {
        proof {
            assert(rs@.skip(i as int)[0] == rs@[i as int]);
            assert(rs@.skip(i as int).skip(1) =~= rs@.skip(i as int + 1));
        }
        if rs[i].program == p {
            return Some(&rs[i]);
        }
        i = i + 1;
    }
    None
}

/// The programs whose gate flipped from ineligible to eligible.
fn gained_programs(before: &Vec<EligibilityResult>, after: &Vec<EligibilityResult>) -> (r: Vec<
    ProgramId,
>)
    ensures
        r@ == spec_gained(before@, after@),
{
    let mut out: Vec<ProgramId> = Vec::new();
    let mut i: usize = 0;
    while i < before.len()
        invariant
            0 <= i <= before@.len(),
            out@ == spec_gained(before@.take(i as int), after@),
        decreases before@.len() - i,
    {
        proof {
            assert(before@.take(i as int + 1).drop_last() =~= before@.take(i as int));
            assert(before@.take(i as int + 1).last() == before@[i as int]);
        }
        match find_result_ex(after, before[i].program) {
            Some(n) => {
                if !before[i].eligible && n.eligible {
                    out.push(n.program);
                }
            },
            None => {},
        }
        proof {
            assert(out@ =~= spec_gained(before@.take(i as int + 1), after@));
        }
        i = i + 1;
    }
    proof {
        assert(before@.take(before@.len() as int) =~= before@);
    }
    out
}

/// The programs whose gate flipped from eligible to ineligible.
fn lost_programs(before: &Vec<EligibilityResult>, after: &Vec<EligibilityResult>) -> (r: Vec<
    ProgramId,
>)
    ensures
        r@ == spec_lost(before@, after@),
{
    let mut out: Vec<ProgramId> = Vec::new();
    let mut i: usize = 0;
    while i < before.len()
        invariant
            0 <= i <= before@.len(),
            out@ == spec_lost(before@.take(i as int), after@),
        decreases before@.len() - i,
    {
        proof {
            assert(before@.take(i as int + 1).drop_last() =~= before@.take(i as int));
            assert(before@.take(i as int + 1).last() == before@[i as int]);
        }
        match find_result_ex(after, before[i].program) {
            Some(n) => {
                if before[i].eligible && !n.eligible {
                    out.push(n.program);
                }
            },
            None => {},
        }
        proof {
            assert(out@ =~= spec_lost(before@.take(i as int + 1), after@));
        }
        i = i + 1;
    }
    proof {
        assert(before@.take(before@.len() as int) =~= before@);
    }
    out
}

/// The sum of the delegation estimates of a batch.
fn delegation_sum(rs: &Vec<EligibilityResult>) -> (r: i128)
    requires
        forall|i: int|
            0 <= i < rs@.len() ==> match (#[trigger] rs@[i]).estimated_delegation_sol {
                Some(d) => fp_valid(d),
                None => true,
            },
    ensures
        r as int == sum_delegation(rs@),
        -(rs@.len() as int) * (FP_LIMIT as int) <= r as int <= (rs@.len() as int) * (
        FP_LIMIT as int),
{
    let mut sum: i128 = 0;
    let mut i: usize = 0;
    while i < rs.len()
        invariant
            0 <= i <= rs@.len(),
            forall|j: int|
                0 <= j < rs@.len() ==> match (#[trigger] rs@[j]).estimated_delegation_sol {
                    Some(d) => fp_valid(d),
                    None => true,
                },
            sum as int == sum_delegation(rs@.take(i as int)),
            -(i as int) * (FP_LIMIT as int) <= sum as int <= (i as int) * (FP_LIMIT as int),
        decreases rs@.len() - i,
    {
        proof {
            assert(rs@.take(i as int + 1).drop_last() =~= rs@.take(i as int));
            assert(rs@.take(i as int + 1).last() == rs@[i as int]);
            vstd::arithmetic::mul::lemma_mul_inequality(
                i as int + 1,
                usize::MAX as int + 1,
                FP_LIMIT as int,
            );
            vstd::arithmetic::mul::lemma_mul_inequality(
                i as int,
                usize::MAX as int + 1,
                FP_LIMIT as int,
            );
        }
        match rs[i].estimated_delegation_sol {
            Some(d) => {
                sum = sum + d as i128;
            },
            None => {},
        }
        i = i + 1;
    }
    proof {
        assert(rs@.take(rs@.len() as int) =~= rs@);
        vstd::arithmetic::mul::lemma_mul_inequality(
            i as int,
            usize::MAX as int + 1,
            FP_LIMIT as int,
        );
    }
    sum
}

/// Runs one hypothetical: evaluates the (filtered) programs on the
/// current snapshot, applies each numeric change to a copy (text and
/// flag metrics reject the change silently), re-evaluates, and reports
/// the flipped programs and the net delegation difference.
pub fn simulate_whatif(
    sets: &[CriteriaSet],
    estimates: &[(ProgramId, i64)],
    current_metrics: &ValidatorMetrics,
    target_changes: &[(MetricKey, i64)],
    filter: Option<&[ProgramId]>,
) -> (r: WhatIfResult)
    requires
        current_metrics.wf(),
        forall|i: int| 0 <= i < sets@.len() ==> (#[trigger] sets@[i]).wf(),
        forall|i: int| 0 <= i < estimates@.len() ==> fp_valid((#[trigger] estimates@[i]).1),
        forall|i: int| 0 <= i < target_changes@.len() ==> fp_valid((#[trigger] target_changes@[i]).1),
        sets@.len() <= 10_000,
    ensures
        whatif_ok(
            r,
            sets@,
            estimates@,
            *current_metrics,
            target_changes@,
            match filter {
                Some(ids) => Some(ids@),
                None => None,
            },
        ),
{
    let ghost gfilter: Option<Seq<ProgramId>> = match filter {
        Some(ids) => Some(ids@),
        None => None,
    };
    let before = evaluate_all_programs(sets, estimates, current_metrics, filter);
    let mut changed = current_metrics.clone();
    proof {
        crate::metrics::lemma_metrics_eqv_same_readings(changed, *current_metrics);
        assert(reads_as(changed, *current_metrics, target_changes@.take(0)));
        assert(target_changes@.take(0) =~= Seq::<(MetricKey, i64)>::empty());
    }
    let mut changes_applied: Vec<MetricChange> = Vec::new();
    let mut i: usize = 0;
    while i < target_changes.len()
        invariant
            0 <= i <= target_changes@.len(),
            forall|j: int|
                0 <= j < target_changes@.len() ==> fp_valid((#[trigger] target_changes@[j]).1),
            changed.wf(),
            reads_as(changed, *current_metrics, target_changes@.take(i as int)),
            changes_applied@ == spec_changes_applied(
                *current_metrics,
                target_changes@.take(i as int),
            ),
        decreases target_changes@.len() - i,
    {
        proof {
            assert(target_changes@.take(i as int + 1).drop_last() =~= target_changes@.take(
                i as int,
            ));
            assert(target_changes@.take(i as int + 1).last() == target_changes@[i as int]);
        }
        let (metric, to) = (&target_changes[i].0, target_changes[i].1);
        let ghost pre_changed = changed;
        match changed.numeric_metric(metric) {
            Some(from) => {
                let applied = changed.apply_numeric_change(metric, to);
                proof {
                    assert(applied);
                    assert forall|k: MetricKey|
                        spec_metric_value(changed, k) == changed_value(
                            *current_metrics,
                            target_changes@.take(i as int + 1),
                            k,
                        ) by {
                        if key_eqv(k, target_changes@[i as int].0) {
                            assert(key_eqv(k, *metric));
                            crate::metrics::lemma_key_eqv_same_reading(changed, k, *metric);
                        } else {
                            assert(spec_metric_value(changed, k) == spec_metric_value(
                                pre_changed,
                                k,
                            ));
                        }
                    }
                }
                changes_applied.push(MetricChange { metric: metric.clone(), from, to });
                proof {
                    assert(changes_applied@ =~= spec_changes_applied(
                        *current_metrics,
                        target_changes@.take(i as int + 1),
                    ));
                }
            },
            None => {
                proof {
                    assert(!key_is_numeric(*metric));
                    assert(changes_applied@ =~= spec_changes_applied(
                        *current_metrics,
                        target_changes@.take(i as int + 1),
                    ));
                    assert forall|k: MetricKey|
                        spec_metric_value(changed, k) == changed_value(
                            *current_metrics,
                            target_changes@.take(i as int + 1),
                            k,
                        ) by {}
                }
            },
        }
        i = i + 1;
    }
    proof {
        assert(target_changes@.take(target_changes@.len() as int) =~= target_changes@);
    }
    let after = evaluate_all_programs(sets, estimates, &changed, filter);
    let programs_gained = gained_programs(&before, &after);
    let programs_lost = lost_programs(&before, &after);
    proof {
        lemma_batch_estimates_valid(
            before@,
            filtered_sets(sets@, gfilter),
            estimates@,
            *current_metrics,
        );
        lemma_batch_estimates_valid(after@, filtered_sets(sets@, gfilter), estimates@, changed);
        lemma_filtered_len(sets@, gfilter);
    }
    let after_sum = delegation_sum(&after);
    let before_sum = delegation_sum(&before);
    proof {
        vstd::arithmetic::mul::lemma_mul_inequality(
            before@.len() as int,
            10_000,
            FP_LIMIT as int,
        );
        vstd::arithmetic::mul::lemma_mul_inequality(after@.len() as int, 10_000, FP_LIMIT as int);
    }
    let net_delegation_change_sol = (after_sum - before_sum) as i64;
    let r = WhatIfResult {
        changes_applied,
        before,
        after,
        programs_gained,
        programs_lost,
        net_delegation_change_sol,
    };
    proof {
        assert(reads_as(changed, *current_metrics, target_changes@));
        assert(whatif_ok(r, sets@, estimates@, *current_metrics, target_changes@, gfilter));
    }
    r
}

/// Whether two readings agree in content (texts by content).
pub open spec fn value_eqv(a: MetricValue, b: MetricValue) -> bool {
    match (a, b) {
        (MetricValue::Numeric(x), MetricValue::Numeric(y)) => x == y,
        (MetricValue::Text(x), MetricValue::Text(y)) => x@ == y@,
        (MetricValue::Bool(x), MetricValue::Bool(y)) => x == y,
        _ => false,
    }
}

/// Whether two recorded outcomes agree in content (texts by content).
pub open spec fn criterion_result_eqv(a: CriterionResult, b: CriterionResult) -> bool {
    &&& a.criterion_name@ == b.criterion_name@
    &&& a.metric_key == b.metric_key
    &&& value_eqv(a.your_value, b.your_value)
    &&& constraint_eqv(a.required, b.required)
    &&& a.passed == b.passed
    &&& a.gap == b.gap
}

/// Whether two verdicts agree in content.
pub open spec fn result_eqv(a: EligibilityResult, b: EligibilityResult) -> bool {
    &&& a.program == b.program
    &&& a.eligible == b.eligible
    &&& a.score == b.score
    &&& a.estimated_delegation_sol == b.estimated_delegation_sol
    &&& a.criterion_results@.len() == b.criterion_results@.len()
    &&& forall|i: int|
        0 <= i < a.criterion_results@.len() ==> criterion_result_eqv(
            #[trigger] a.criterion_results@[i],
            b.criterion_results@[i],
        )
}

/// Whether two batches agree in content, element by element.
pub open spec fn results_eqv(a: Seq<EligibilityResult>, b: Seq<EligibilityResult>) -> bool {
    a.len() == b.len() && forall|i: int| 0 <= i < a.len() ==> result_eqv(#[trigger] a[i], b[i])
}

/// The weighted pass sum depends on a snapshot only through its
/// readings.
proof fn lemma_passed_weight_same_readings(
    s: Seq<crate::metric::Criterion>,
    m1: ValidatorMetrics,
    m2: ValidatorMetrics,
)
    requires
        forall|k: MetricKey| spec_metric_value(m1, k) == spec_metric_value(m2, k),
    ensures
        passed_weight(s, m1) == passed_weight(s, m2),
    decreases s.len(),
{
    if s.len() > 0 {
        lemma_passed_weight_same_readings(s.drop_last(), m1, m2);
    }
}

/// A verdict computed over one snapshot is a faithful verdict over any
/// snapshot with the same readings.
proof fn lemma_eval_ok_same_readings(
    r: EligibilityResult,
    p: ProgramId,
    m1: ValidatorMetrics,
    m2: ValidatorMetrics,
    cs: CriteriaSet,
    est: Option<i64>,
)
    requires
        spec_eval_ok(r, p, m1, cs, est),
        forall|k: MetricKey| spec_metric_value(m1, k) == spec_metric_value(m2, k),
    ensures
        spec_eval_ok(r, p, m2, cs, est),
{
    lemma_passed_weight_same_readings(cs.criteria@, m1, m2);
    assert forall|i: int| 0 <= i < cs.criteria@.len() implies result_matches(
        #[trigger] cs.criteria@[i],
        m2,
        r.criterion_results@[i],
    ) by {
        assert(result_matches(cs.criteria@[i], m1, r.criterion_results@[i]));
        assert(spec_metric_value(m1, cs.criteria@[i].metric) == spec_metric_value(
            m2,
            cs.criteria@[i].metric,
        ));
    }
}

/// Two faithful verdicts over the same rules, snapshot, and estimate
/// agree in content.
proof fn lemma_eval_ok_unique(
    r1: EligibilityResult,
    r2: EligibilityResult,
    p: ProgramId,
    m: ValidatorMetrics,
    cs: CriteriaSet,
    est: Option<i64>,
)
    requires
        spec_eval_ok(r1, p, m, cs, est),
        spec_eval_ok(r2, p, m, cs, est),
    ensures
        result_eqv(r1, r2),
{
    assert forall|i: int| 0 <= i < r1.criterion_results@.len() implies criterion_result_eqv(
        #[trigger] r1.criterion_results@[i],
        r2.criterion_results@[i],
    ) by {
        assert(result_matches(cs.criteria@[i], m, r1.criterion_results@[i]));
        assert(result_matches(cs.criteria@[i], m, r2.criterion_results@[i]));
        let c = cs.criteria@[i];
        match (r1.criterion_results@[i].required, r2.criterion_results@[i].required, c.constraint) {
            (
                crate::metric::Constraint::OneOf(xs),
                crate::metric::Constraint::OneOf(ys),
                crate::metric::Constraint::OneOf(cs_items),
            ) => {
                assert forall|j: int| 0 <= j < xs@.len() implies #[trigger] xs@[j]@ == ys@[j]@ by {
                    assert(xs@[j]@ == cs_items@[j]@);
                    assert(ys@[j]@ == cs_items@[j]@);
                }
            },
            _ => {},
        }
    }
}

/// Equal batches carry equal delegation sums.
proof fn lemma_sum_delegation_eqv(a: Seq<EligibilityResult>, b: Seq<EligibilityResult>)
    requires
        results_eqv(a, b),
    ensures
        sum_delegation(a) == sum_delegation(b),
    decreases a.len(),
{
    if a.len() > 0 {
        assert(results_eqv(a.drop_last(), b.drop_last())) by {
            assert forall|i: int| 0 <= i < a.len() - 1 implies result_eqv(
                #[trigger] a.drop_last()[i],
                b.drop_last()[i],
            ) by {
                assert(result_eqv(a[i], b[i]));
            }
        }
        lemma_sum_delegation_eqv(a.drop_last(), b.drop_last());
        assert(result_eqv(a.last(), b.last()));
    }
}

/// Applying an empty change set round-trips: the simulation records no
/// changes, the before and after batches agree in content, and the net
/// delegation change is zero.
pub proof fn lemma_whatif_empty_roundtrip(
    r: WhatIfResult,
    sets: Seq<CriteriaSet>,
    est: Seq<(ProgramId, i64)>,
    m: ValidatorMetrics,
    filter: Option<Seq<ProgramId>>,
)
    requires
        whatif_ok(r, sets, est, m, Seq::empty(), filter),
    ensures
        r.changes_applied@ == Seq::<MetricChange>::empty(),
        results_eqv(r.before@, r.after@),
        r.net_delegation_change_sol == 0,
{
    let flt = filtered_sets(sets, filter);
    let m2 = choose|m2: ValidatorMetrics|
        (#[trigger] reads_as(m2, m, Seq::empty())) && m2.wf() && batch_eval_ok(
            r.after@,
            flt,
            est,
            m2,
        );
    assert forall|k: MetricKey| spec_metric_value(m2, k) == spec_metric_value(m, k) by {
        assert(spec_metric_value(m2, k) == changed_value(m, Seq::empty(), k));
    }
    assert forall|i: int| 0 <= i < r.before@.len() implies result_eqv(
        #[trigger] r.before@[i],
        r.after@[i],
    ) by {
        assert(spec_eval_ok(
            r.after@[i],
            flt[i].program,
            m2,
            flt[i],
            est_lookup(est, flt[i].program),
        ));
        lemma_eval_ok_same_readings(
            r.after@[i],
            flt[i].program,
            m2,
            m,
            flt[i],
            est_lookup(est, flt[i].program),
        );
        lemma_eval_ok_unique(
            r.before@[i],
            r.after@[i],
            flt[i].program,
            m,
            flt[i],
            est_lookup(est, flt[i].program),
        );
    }
    lemma_sum_delegation_eqv(r.before@, r.after@);
}

/// Every estimate a faithful batch records comes from the estimate list
/// (or is absent), so it stays within the global bound.
proof fn lemma_batch_estimates_valid(
    rs: Seq<EligibilityResult>,
    sets: Seq<CriteriaSet>,
    est: Seq<(ProgramId, i64)>,
    m: ValidatorMetrics,
)
    requires
        batch_eval_ok(rs, sets, est, m),
        forall|i: int| 0 <= i < est.len() ==> fp_valid((#[trigger] est[i]).1),
    ensures
        forall|i: int|
            0 <= i < rs.len() ==> match (#[trigger] rs[i]).estimated_delegation_sol {
                Some(d) => fp_valid(d),
                None => true,
            },
{
    assert forall|i: int| 0 <= i < rs.len() implies match (
    #[trigger] rs[i]).estimated_delegation_sol {
        Some(d) => fp_valid(d),
        None => true,
    } by {
        assert(spec_eval_ok(rs[i], sets[i].program, m, sets[i], est_lookup(est, sets[i].program)));
        lemma_est_lookup_valid(est, sets[i].program);
    }
}

/// A lookup in a list of bounded estimates yields a bounded value.
proof fn lemma_est_lookup_valid(est: Seq<(ProgramId, i64)>, p: ProgramId)
    requires
        forall|i: int| 0 <= i < est.len() ==> fp_valid((#[trigger] est[i]).1),
    ensures
        match est_lookup(est, p) {
            Some(v) => fp_valid(v),
            None => true,
        },
    decreases est.len(),
{
    if est.len() > 0 && est[0].0 != p {
        assert(forall|i: int|
            0 <= i < est.skip(1).len() ==> fp_valid((#[trigger] est.skip(1)[i]).1));
        lemma_est_lookup_valid(est.skip(1), p);
    }
}

/// A filtered set list is never longer than the unfiltered one.
proof fn lemma_filtered_len(sets: Seq<CriteriaSet>, filter: Option<Seq<ProgramId>>)
    ensures
        filtered_sets(sets, filter).len() <= sets.len(),
    decreases sets.len(),
{
    if sets.len() > 0 {
        lemma_filtered_len(sets.drop_last(), filter);
    }
}

/// The stable position of a key among the well-known metrics; custom
/// keys come after all of them.
pub open spec fn key_rank(k: MetricKey) -> int {
    match k {
        MetricKey::Commission => 0,
        MetricKey::ActivatedStake => 1,
        MetricKey::SkipRate => 2,
        MetricKey::VoteCredits => 3,
        MetricKey::UptimePercent => 4,
        MetricKey::SolanaVersion => 5,
        MetricKey::DatacenterConcentration => 6,
        MetricKey::SuperminorityStatus => 7,
        MetricKey::MevCommission => 8,
        MetricKey::StakeConcentration => 9,
        MetricKey::InfrastructureDiversity => 10,
        MetricKey::Custom(_) => 11,
    }
}

/// The order a name-keyed collection of metric keys iterates in:
/// well-known keys in declaration order, then custom keys by name.
pub open spec fn key_lt(a: MetricKey, b: MetricKey) -> bool {
    ||| key_rank(a) < key_rank(b)
    ||| match (a, b) {
        (MetricKey::Custom(x), MetricKey::Custom(y)) => crate::text::lex_lt(x@, y@),
        _ => false,
    }
}

/// The key order is transitive, also across keys equal as attributes.
pub proof fn lemma_key_lt_trans(a: MetricKey, b: MetricKey, c: MetricKey)
    requires
        key_lt(a, b),
        key_lt(b, c) || key_eqv(b, c),
    ensures
        key_lt(a, c),
{
    match (a, b, c) {
        (MetricKey::Custom(x), MetricKey::Custom(y), MetricKey::Custom(z)) => {
            if key_lt(b, c) {
                crate::text::lemma_lex_trans(x@, y@, z@);
            }
        },
        _ => {},
    }
}

/// Keys that are not the same attribute are ordered one way or the
/// other.
pub proof fn lemma_key_order_total(a: MetricKey, b: MetricKey)
    requires
        !key_eqv(a, b),
    ensures
        key_lt(a, b) || key_lt(b, a),
{
    match (a, b) {
        (MetricKey::Custom(x), MetricKey::Custom(y)) => {
            crate::text::lemma_lex_total(x@, y@);
        },
        _ => {},
    }
}

/// The last target requested for a key, if any.
pub open spec fn last_change(changes: Seq<(MetricKey, i64)>, k: MetricKey) -> Option<i64>
    decreases changes.len(),
{
    if changes.len() == 0 {
        None
    } else if key_eqv(changes.last().0, k) {
        Some(changes.last().1)
    } else {
        last_change(changes.drop_last(), k)
    }
}

/// Whether a change list holds an entry for a key.
pub open spec fn holds_key(s: Seq<(MetricKey, i64)>, k: MetricKey) -> bool {
    exists|i: int| 0 <= i < s.len() && key_eqv((#[trigger] s[i]).0, k)
}

/// The last change of a concatenation: the right part wins when it
/// holds the key at all.
proof fn lemma_last_change_concat(a: Seq<(MetricKey, i64)>, b: Seq<(MetricKey, i64)>, k: MetricKey)
    ensures
        last_change(a + b, k) == (if last_change(b, k) is Some {
            last_change(b, k)
        } else {
            last_change(a, k)
        }),
    decreases b.len(),
{
    if b.len() == 0 {
        assert(a + b =~= a);
    } else {
        assert((a + b).last() == b.last());
        assert((a + b).drop_last() =~= a + b.drop_last());
        if !key_eqv(b.last().0, k) {
            lemma_last_change_concat(a, b.drop_last(), k);
        }
    }
}

/// A list holds a key exactly when it records a last change for it.
proof fn lemma_holds_key_last_change(s: Seq<(MetricKey, i64)>, k: MetricKey)
    ensures
        holds_key(s, k) <==> last_change(s, k) is Some,
    decreases s.len(),
{
    if s.len() > 0 {
        lemma_holds_key_last_change(s.drop_last(), k);
        if holds_key(s, k) && !key_eqv(s.last().0, k) {
            let i = choose|i: int| 0 <= i < s.len() && key_eqv((#[trigger] s[i]).0, k);
            assert(s.drop_last()[i] == s[i]);
            assert(holds_key(s.drop_last(), k));
        }
        if holds_key(s.drop_last(), k) {
            let i = choose|i: int|
                0 <= i < s.drop_last().len() && key_eqv((#[trigger] s.drop_last()[i]).0, k);
            assert(s[i] == s.drop_last()[i]);
            assert(holds_key(s, k));
        }
        if key_eqv(s.last().0, k) {
            assert(holds_key(s, k)) by {
                assert(key_eqv(s[s.len() - 1].0, k));
            }
        }
    }
}

/// Whether a change list holds an entry for a key.
fn holds_key_ex(s: &Vec<(MetricKey, i64)>, k: &MetricKey) -> (r: bool)
    ensures
        r == holds_key(s@, *k),
{
    let mut i: usize = 0;
    while i < s.len()
        invariant
            0 <= i <= s@.len(),
            forall|j: int| 0 <= j < i ==> !key_eqv((#[trigger] s@[j]).0, *k),
        decreases s@.len() - i,
    {
        if s[i].0.eqv(k) {
            return true;
        }
        i = i + 1;
    }
    false
}

/// Whether one key comes at or before another in the iteration order.
fn key_le_ex(a: &MetricKey, b: &MetricKey) -> (r: bool)
    ensures
        r == (key_lt(*a, *b) || key_eqv(*a, *b)),
{
    let ra = rank_ex(a);
    let rb = rank_ex(b);
    if ra < rb {
        return true;
    }
    if ra > rb {
        return false;
    }
    match (a, b) {
        (MetricKey::Custom(x), MetricKey::Custom(y)) => {
            crate::text::str_lt(x.as_str(), y.as_str()) || crate::text::str_eq(
                x.as_str(),
                y.as_str(),
            )
        },
        _ => true,
    }
}

fn rank_ex(k: &MetricKey) -> (r: u8)
    ensures
        r as int == key_rank(*k),
{
    match k {
        MetricKey::Commission => 0,
        MetricKey::ActivatedStake => 1,
        MetricKey::SkipRate => 2,
        MetricKey::VoteCredits => 3,
        MetricKey::UptimePercent => 4,
        MetricKey::SolanaVersion => 5,
        MetricKey::DatacenterConcentration => 6,
        MetricKey::SuperminorityStatus => 7,
        MetricKey::MevCommission => 8,
        MetricKey::StakeConcentration => 9,
        MetricKey::InfrastructureDiversity => 10,
        MetricKey::Custom(_) => 11,
    }
}

/// Collapses requested changes to one per key — the last requested
/// value wins — and orders them as a name-keyed collection of keys
/// iterates: well-known keys first in declaration order, then custom
/// keys by name.
pub fn dedupe_metric_changes(changes: &[(MetricKey, i64)]) -> (r: Vec<(MetricKey, i64)>)
    ensures
        forall|i: int, j: int| 0 <= i < j < r@.len() ==> key_lt(r@[i].0, r@[j].0),
        forall|i: int|
            0 <= i < r@.len() ==> last_change(changes@, (#[trigger] r@[i]).0) == Some(r@[i].1),
        forall|k: MetricKey| #[trigger] holds_key(r@, k) <==> holds_key(changes@, k),
{
    let mut uniq: Vec<(MetricKey, i64)> = Vec::new();
    let mut i: usize = changes.len();
    proof {
        assert(changes@.skip(changes@.len() as int) =~= Seq::<(MetricKey, i64)>::empty());
    }
    while i > 0
        invariant
            0 <= i <= changes@.len(),
            forall|j: int|
                0 <= j < uniq@.len() ==> last_change(changes@, (#[trigger] uniq@[j]).0) == Some(
                    uniq@[j].1,
                ),
            forall|k: MetricKey| #[trigger]
                holds_key(uniq@, k) <==> holds_key(changes@.skip(i as int), k),
            forall|j1: int, j2: int|
                0 <= j1 < j2 < uniq@.len() ==> !key_eqv(
                    (#[trigger] uniq@[j1]).0,
                    (#[trigger] uniq@[j2]).0,
                ),
        decreases i,
    {
        i = i - 1;
        let ghost pre = uniq@;
        proof {
            assert(changes@.skip(i as int) =~= seq![changes@[i as int]] + changes@.skip(
                i as int + 1,
            ));
        }
        if !holds_key_ex(&uniq, &changes[i].0) {
            uniq.push((changes[i].0.clone(), changes[i].1));
            proof {
                let k = changes@[i as int].0;
                lemma_holds_key_last_change(changes@.skip(i as int + 1), k);
                assert(last_change(changes@.skip(i as int + 1), k) is None);
                assert(changes@ =~= changes@.take(i as int + 1) + changes@.skip(i as int + 1));
                lemma_last_change_concat(
                    changes@.take(i as int + 1),
                    changes@.skip(i as int + 1),
                    k,
                );
                assert(changes@.take(i as int + 1).last() == changes@[i as int]);
                assert(last_change(changes@, k) == Some(changes@[i as int].1));
                assert(uniq@.last().0 == k);
                assert forall|k2: MetricKey| #[trigger]
                    holds_key(uniq@, k2) implies holds_key(changes@.skip(i as int), k2) by {
                    let j = choose|j: int| 0 <= j < uniq@.len() && key_eqv((#[trigger] uniq@[j]).0, k2);
                    if j < pre.len() {
                        assert(pre[j] == uniq@[j]);
                        assert(holds_key(pre, k2));
                        lemma_holds_key_last_change(changes@.skip(i as int + 1), k2);
                        lemma_last_change_concat(
                            seq![changes@[i as int]],
                            changes@.skip(i as int + 1),
                            k2,
                        );
                        let m = choose|m: int|
                            0 <= m < changes@.skip(i as int + 1).len() && key_eqv(
                                (#[trigger] changes@.skip(i as int + 1)[m]).0,
                                k2,
                            );
                        assert(changes@.skip(i as int)[m + 1] == changes@.skip(i as int + 1)[m]);
                        assert(holds_key(changes@.skip(i as int), k2));
                    } else {
                        assert(key_eqv(changes@.skip(i as int)[0].0, k2));
                        assert(holds_key(changes@.skip(i as int), k2));
                    }
                }
                assert forall|k2: MetricKey| #[trigger]
                    holds_key(changes@.skip(i as int), k2) implies holds_key(uniq@, k2) by {
                    let m = choose|m: int|
                        0 <= m < changes@.skip(i as int).len() && key_eqv(
                            (#[trigger] changes@.skip(i as int)[m]).0,
                            k2,
                        );
                    if m == 0 {
                        assert(key_eqv(uniq@[uniq@.len() - 1].0, k2));
                    } else {
                        assert(changes@.skip(i as int + 1)[m - 1] == changes@.skip(i as int)[m]);
                        assert(holds_key(changes@.skip(i as int + 1), k2));
                        assert(holds_key(pre, k2));
                        let j = choose|j: int|
                            0 <= j < pre.len() && key_eqv((#[trigger] pre[j]).0, k2);
                        assert(key_eqv(uniq@[j].0, k2));
                    }
                }
            }
        } else {
            proof {
                let x = changes@[i as int];
                assert forall|k2: MetricKey| #[trigger]
                    holds_key(changes@.skip(i as int), k2) implies holds_key(uniq@, k2) by {
                    let m = choose|m: int|
                        0 <= m < changes@.skip(i as int).len() && key_eqv(
                            (#[trigger] changes@.skip(i as int)[m]).0,
                            k2,
                        );
                    if m == 0 {
                        assert(key_eqv(x.0, k2));
                        let j = choose|j: int|
                            0 <= j < uniq@.len() && key_eqv((#[trigger] uniq@[j]).0, x.0);
                        assert(key_eqv(uniq@[j].0, k2));
                    } else {
                        assert(changes@.skip(i as int + 1)[m - 1] == changes@.skip(i as int)[m]);
                        assert(holds_key(changes@.skip(i as int + 1), k2));
                    }
                }
                assert forall|k2: MetricKey| #[trigger]
                    holds_key(uniq@, k2) implies holds_key(changes@.skip(i as int), k2) by {
                    assert(holds_key(changes@.skip(i as int + 1), k2));
                    let m = choose|m: int|
                        0 <= m < changes@.skip(i as int + 1).len() && key_eqv(
                            (#[trigger] changes@.skip(i as int + 1)[m]).0,
                            k2,
                        );
                    assert(changes@.skip(i as int)[m + 1] == changes@.skip(i as int + 1)[m]);
                }
            }
        }
    }
    proof {
        assert(changes@.skip(0) =~= changes@);
    }
    let ghost whole = changes@;
    let mut out: Vec<(MetricKey, i64)> = Vec::new();
    let mut rest = uniq;
    while rest.len() > 0
        invariant
            forall|j: int|
                0 <= j < out@.len() ==> last_change(whole, (#[trigger] out@[j]).0) == Some(
                    out@[j].1,
                ),
            forall|j: int|
                0 <= j < rest@.len() ==> last_change(whole, (#[trigger] rest@[j]).0) == Some(
                    rest@[j].1,
                ),
            forall|k: MetricKey| #[trigger]
                holds_key(whole, k) <==> (holds_key(out@, k) || holds_key(rest@, k)),
            forall|j1: int, j2: int|
                0 <= j1 < j2 < out@.len() ==> !key_eqv(
                    (#[trigger] out@[j1]).0,
                    (#[trigger] out@[j2]).0,
                ),
            forall|j1: int, j2: int|
                0 <= j1 < j2 < rest@.len() ==> !key_eqv(
                    (#[trigger] rest@[j1]).0,
                    (#[trigger] rest@[j2]).0,
                ),
            forall|j1: int, j2: int|
                0 <= j1 < out@.len() && 0 <= j2 < rest@.len() ==> !key_eqv(
                    (#[trigger] out@[j1]).0,
                    (#[trigger] rest@[j2]).0,
                ),
            forall|i2: int, j2: int|
                0 <= i2 < j2 < out@.len() ==> key_lt(
                    (#[trigger] out@[i2]).0,
                    (#[trigger] out@[j2]).0,
                ),
            forall|i2: int, j2: int|
                0 <= i2 < out@.len() && 0 <= j2 < rest@.len() ==> key_lt(
                    (#[trigger] out@[i2]).0,
                    (#[trigger] rest@[j2]).0,
                ),
        decreases rest@.len(),
    {
        let mut best: usize = 0;
        let mut m: usize = 1;
        while m < rest.len()
            invariant
                0 <= best < m <= rest@.len(),
                rest@.len() > 0,
                forall|k: int|
                    0 <= k < m ==> (key_lt(rest@[best as int].0, (#[trigger] rest@[k]).0)
                        || key_eqv(rest@[best as int].0, rest@[k].0)),
            decreases rest@.len() - m,
        {
            if !key_le_ex(&rest[best].0, &rest[m].0) {
                proof {
                    lemma_key_order_total(rest@[best as int].0, rest@[m as int].0);
                    assert(key_lt(rest@[m as int].0, rest@[best as int].0));
                    assert forall|k: int| 0 <= k < m + 1 implies (key_lt(
                        rest@[m as int].0,
                        (#[trigger] rest@[k]).0,
                    ) || key_eqv(rest@[m as int].0, rest@[k].0)) by {
                        if k < m {
                            lemma_key_lt_trans(
                                rest@[m as int].0,
                                rest@[best as int].0,
                                rest@[k].0,
                            );
                        }
                    }
                }
                best = m;
            }
            m = m + 1;
        }
        let ghost pre_rest = rest@;
        let ghost pre_out = out@;
        let picked = rest.remove(best);
        out.push(picked);
        proof {
            assert(rest@ =~= pre_rest.remove(best as int));
            assert(out@ =~= pre_out.push(picked));
            assert forall|j: int| 0 <= j < rest@.len() implies last_change(
                whole,
                (#[trigger] rest@[j]).0,
            ) == Some(rest@[j].1) by {
                if j < best {
                    assert(rest@[j] == pre_rest[j]);
                } else {
                    assert(rest@[j] == pre_rest[j + 1]);
                }
            }
            assert forall|k: MetricKey| #[trigger]
                holds_key(whole, k) implies (holds_key(out@, k) || holds_key(rest@, k)) by {
                if holds_key(pre_out, k) {
                    let j = choose|j: int| 0 <= j < pre_out.len() && key_eqv((#[trigger] pre_out[j]).0, k);
                    assert(key_eqv(out@[j].0, k));
                } else {
                    let j = choose|j: int|
                        0 <= j < pre_rest.len() && key_eqv((#[trigger] pre_rest[j]).0, k);
                    if j == best {
                        assert(key_eqv(out@[out@.len() - 1].0, k));
                    } else if j < best {
                        assert(rest@[j] == pre_rest[j]);
                        assert(key_eqv(rest@[j].0, k));
                    } else {
                        assert(rest@[j - 1] == pre_rest[j]);
                        assert(key_eqv(rest@[j - 1].0, k));
                    }
                }
            }
            assert forall|k: MetricKey| (holds_key(out@, k) || holds_key(rest@, k)) implies #[trigger] holds_key(
                whole,
                k,
            ) by {
                if holds_key(out@, k) {
                    let j = choose|j: int| 0 <= j < out@.len() && key_eqv((#[trigger] out@[j]).0, k);
                    if j < pre_out.len() {
                        assert(key_eqv(pre_out[j].0, k));
                        assert(holds_key(pre_out, k));
                    } else {
                        assert(key_eqv(pre_rest[best as int].0, k));
                        assert(holds_key(pre_rest, k));
                    }
                } else {
                    let j = choose|j: int| 0 <= j < rest@.len() && key_eqv((#[trigger] rest@[j]).0, k);
                    if j < best {
                        assert(key_eqv(pre_rest[j].0, k));
                    } else {
                        assert(key_eqv(pre_rest[j + 1].0, k));
                    }
                    assert(holds_key(pre_rest, k));
                }
            }
            assert forall|i2: int, j2: int|
                0 <= i2 < out@.len() && 0 <= j2 < rest@.len() implies key_lt(
                (#[trigger] out@[i2]).0,
                (#[trigger] rest@[j2]).0,
            ) by {
                let r0 = if j2 < best {
                    pre_rest[j2]
                } else {
                    pre_rest[j2 + 1]
                };
                assert(rest@[j2] == r0);
                if i2 < pre_out.len() {
                    assert(key_lt(pre_out[i2].0, r0.0));
                } else {
                    assert(out@[i2] == picked);
                    assert(key_lt(picked.0, r0.0) || key_eqv(picked.0, r0.0));
                    assert(!key_eqv(picked.0, r0.0));
                }
            }
        }
    }
    proof {
        assert forall|k: MetricKey| #[trigger]
            holds_key(out@, k) <==> holds_key(changes@, k) by {
            assert(!holds_key(rest@, k));
        }
    }
    out
}

} // verus!
