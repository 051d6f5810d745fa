use vstd::multiset::Multiset;
use vstd::prelude::*;

use crate::evaluator::{
    spec_effort_cost, spec_level, CriterionResult, EffortLevel, EligibilityResult, GapDetail,
};
use crate::program::ProgramId;

verus! {

/// An ineligible program with actionable numeric gaps, ranked by the
/// estimated delegation gained per unit of effort.
#[derive(Debug)]
pub struct ArbitrageOpportunity {
    pub program: ProgramId,
    pub current_eligible: bool,
    pub gaps: Vec<GapDetail>,
    pub total_effort: EffortLevel,
    pub estimated_delegation_gain_sol: i64,
    pub roi_score: i64,
}

/// The mathematical content of one opportunity.
pub struct OppView {
    pub program: ProgramId,
    pub current_eligible: bool,
    pub gaps: Seq<GapDetail>,
    pub total_effort: EffortLevel,
    pub gain: i64,
    pub roi: i64,
}

pub open spec fn opp_view(o: ArbitrageOpportunity) -> OppView {
    OppView {
        program: o.program,
        current_eligible: o.current_eligible,
        gaps: o.gaps@,
        total_effort: o.total_effort,
        gain: o.estimated_delegation_gain_sol,
        roi: o.roi_score,
    }
}

pub open spec fn opps_view(s: Seq<ArbitrageOpportunity>) -> Seq<OppView> {
    s.map_values(|o: ArbitrageOpportunity| opp_view(o))
}

/// The gaps of the failed criteria, in order.
pub open spec fn gaps_of(s: Seq<CriterionResult>) -> Seq<GapDetail>
    decreases s.len(),
{
    if s.len() == 0 {
        Seq::empty()
    } else {
        gaps_of(s.drop_last()) + match s.last().gap {
            Some(g) => seq![g],
            None => Seq::empty(),
        }
    }
}

/// The hardest effort level among some gaps (the weakest link); an
/// empty list counts as not remediable.
pub open spec fn max_effort(gaps: Seq<GapDetail>) -> EffortLevel
    decreases gaps.len(),
{
    if gaps.len() == 0 {
        EffortLevel::Impossible
    } else if gaps.len() == 1 {
        gaps[0].effort_estimate
    } else {
        let rest = max_effort(gaps.drop_last());
        if spec_level(gaps.last().effort_estimate) >= spec_level(rest) {
            gaps.last().effort_estimate
        } else {
            rest
        }
    }
}

/// The first estimate recorded for a program, if any.
pub open spec fn est_lookup(est: Seq<(ProgramId, i64)>, p: ProgramId) -> Option<i64>
    decreases est.len(),
{
    if est.len() == 0 {
        None
    } else if est[0].0 == p {
        Some(est[0].1)
    } else {
        est_lookup(est.skip(1), p)
    }
}

/// The gain used for ranking: the per-program estimate when recorded,
/// else the result's own estimate, else zero.
pub open spec fn spec_gain(r: EligibilityResult, est: Seq<(ProgramId, i64)>) -> i64 {
    match est_lookup(est, r.program) {
        Some(v) => v,
        None => match r.estimated_delegation_sol {
            Some(d) => d,
            None => 0,
        },
    }
}

/// Gain per unit of effort; zero when the effort cost is not positive.
pub open spec fn spec_roi(gain: int, cost: int) -> int {
    if cost > 0 {
        gain / cost
    } else {
        0
    }
}

/// An effort cost of zero yields a zero gain-per-effort score, whatever
/// the gain.
pub proof fn lemma_zero_cost_zero_roi(gain: int)
    ensures
        spec_roi(gain, 0) == 0,
{
}

/// The opportunity built from one ineligible result.
pub open spec fn spec_opp(r: EligibilityResult, est: Seq<(ProgramId, i64)>) -> OppView {
    let gaps = gaps_of(r.criterion_results@);
    OppView {
        program: r.program,
        current_eligible: r.eligible,
        gaps,
        total_effort: max_effort(gaps),
        gain: spec_gain(r, est),
        roi: spec_roi(spec_gain(r, est) as int, spec_effort_cost(max_effort(gaps))) as i64,
    }
}

/// The opportunities of a result list, in result order: eligible
/// results and results without numeric gaps contribute nothing.
pub open spec fn spec_opps(results: Seq<EligibilityResult>, est: Seq<(ProgramId, i64)>) -> Seq<
    OppView,
>
    decreases results.len(),
{
    if results.len() == 0 {
        Seq::empty()
    } else {
        spec_opps(results.drop_last(), est) + (if results.last().eligible || gaps_of(
            results.last().criterion_results@,
        ).len() == 0 {
            Seq::empty()
        } else {
            seq![spec_opp(results.last(), est)]
        })
    }
}

/// An opportunity's recorded fields are internally consistent.
pub open spec fn opp_wf(o: ArbitrageOpportunity) -> bool {
    &&& o.total_effort == max_effort(o.gaps@)
    &&& o.roi_score as int == spec_roi(
        o.estimated_delegation_gain_sol as int,
        spec_effort_cost(o.total_effort),
    )
}

/// A lookup in a list of non-negative estimates yields a non-negative
/// value.
proof fn lemma_est_lookup_nonneg(est: Seq<(ProgramId, i64)>, p: ProgramId)
    requires
        forall|i: int| 0 <= i < est.len() ==> (#[trigger] est[i]).1 >= 0,
    ensures
        match est_lookup(est, p) {
            Some(v) => v >= 0,
            None => true,
        },
    decreases est.len(),
{
    if est.len() > 0 && est[0].0 != p {
        assert(forall|i: int| 0 <= i < est.skip(1).len() ==> (#[trigger] est.skip(1)[i]).1 >= 0);
        lemma_est_lookup_nonneg(est.skip(1), p);
    }
}

/// The gaps of the failed criteria of one result.
fn collect_gaps(results: &Vec<CriterionResult>) -> (r: Vec<GapDetail>)
    ensures
        r@ == gaps_of(results@),
{
    let mut out: Vec<GapDetail> = Vec::new();
    let mut i: usize = 0;
    while i < results.len()
        invariant
            0 <= i <= results@.len(),
            out@ == gaps_of(results@.take(i as int)),
        decreases results@.len() - i,
    {
        proof {
            assert(results@.take(i as int + 1).drop_last() =~= results@.take(i as int));
            assert(results@.take(i as int + 1).last() == results@[i as int]);
        }
        match &results[i].gap {
            Some(g) => {
                out.push(g.clone());
                proof {
                    assert(out@ =~= gaps_of(results@.take(i as int + 1)));
                }
            },
            None => {
                proof {
                    assert(out@ =~= gaps_of(results@.take(i as int + 1)));
                }
            },
        }
        i = i + 1;
    }
    proof {
        assert(results@.take(results@.len() as int) =~= results@);
    }
    out
}

/// The hardest effort level among some gaps.
fn max_effort_ex(gaps: &Vec<GapDetail>) -> (r: EffortLevel)
    ensures
        r == max_effort(gaps@),
{
    let mut acc = EffortLevel::Impossible;
    let mut started = false;
    let mut i: usize = 0;
    while i < gaps.len()
        invariant
            0 <= i <= gaps@.len(),
            started == (i > 0),
            started ==> acc == max_effort(gaps@.take(i as int)),
            !started ==> acc == EffortLevel::Impossible,
        decreases gaps@.len() - i,
    {
        proof {
            assert(gaps@.take(i as int + 1).drop_last() =~= gaps@.take(i as int));
            assert(gaps@.take(i as int + 1).last() == gaps@[i as int]);
        }
        let cur = gaps[i].effort_estimate;
        if !started {
            acc = cur;
            started = true;
            proof {
                assert(gaps@.take(1).drop_last() =~= Seq::<GapDetail>::empty());
            }
        } else {
            if cur.level() >= acc.level() {
                acc = cur;
            }
        }
        i = i + 1;
    }
    proof {
        assert(i as int == gaps@.len());
        assert(gaps@.take(i as int) =~= gaps@);
        if gaps@.len() == 0 {
            assert(max_effort(gaps@) == EffortLevel::Impossible);
            assert(acc == EffortLevel::Impossible);
        } else {
            assert(started);
            assert(acc == max_effort(gaps@.take(i as int)));
            assert(acc == max_effort(gaps@));
        }
    }
    acc
}

/// The first estimate recorded for a program, if any.
fn lookup_estimate(est: &[(ProgramId, i64)], p: ProgramId) -> (r: Option<i64>)
    ensures
        r == est_lookup(est@, p),
{
    let mut i: usize = 0;
    proof {
        assert(est@.skip(0) =~= est@);
    }
    while i < est.len()
        invariant
            0 <= i <= est@.len(),
            est_lookup(est@, p) == est_lookup(est@.skip(i as int), p),
        decreases est@.len() - i,
    {
        proof {
            assert(est@.skip(i as int)[0] == est@[i as int]);
            assert(est@.skip(i as int).skip(1) =~= est@.skip(i as int + 1));
        }
        if est[i].0 == p {
            return Some(est[i].1);
        }
        i = i + 1;
    }
    None
}

/// Collects the actionable opportunities from a batch of results and
/// ranks them by gain per unit of effort, highest first. Eligible
/// programs and failures without numeric gaps are skipped; the total
/// effort is the hardest gap's level; the score divides the estimated
/// gain by the fixed cost of that level.
pub fn build_arbitrage_opportunities(
    results: &[EligibilityResult],
    estimate_by_program: &[(ProgramId, i64)],
) -> (r: Vec<ArbitrageOpportunity>)
    requires
        forall|i: int|
            0 <= i < estimate_by_program@.len() ==> (#[trigger] estimate_by_program@[i]).1 >= 0,
        forall|i: int|
            0 <= i < results@.len() ==> match (#[trigger] results@[i]).estimated_delegation_sol {
                Some(d) => d >= 0,
                None => true,
            },
    ensures
        opps_view(r@).to_multiset() == spec_opps(results@, estimate_by_program@).to_multiset(),
        forall|p: int, q: int| 0 <= p < q < r@.len() ==> r@[p].roi_score >= r@[q].roi_score,
        forall|k: int| 0 <= k < r@.len() ==> opp_wf(#[trigger] r@[k]),
{
    broadcast use vstd::seq_lib::group_to_multiset_ensures;

    let mut built: Vec<ArbitrageOpportunity> = Vec::new();
    let mut i: usize = 0;
    while i < results.len()
        invariant
            0 <= i <= results@.len(),
            forall|j: int|
                0 <= j < results@.len() ==> match (
                #[trigger] results@[j]).estimated_delegation_sol {
                    Some(d) => d >= 0,
                    None => true,
                },
            forall|j: int|
                0 <= j < estimate_by_program@.len() ==> (#[trigger] estimate_by_program@[j]).1
                    >= 0,
            opps_view(built@) == spec_opps(results@.take(i as int), estimate_by_program@),
            forall|k: int| 0 <= k < built@.len() ==> opp_wf(#[trigger] built@[k]),
        decreases results@.len() - i,
    {
        proof {
            assert(results@.take(i as int + 1).drop_last() =~= results@.take(i as int));
            assert(results@.take(i as int + 1).last() == results@[i as int]);
        }
        let result = &results[i];
        if !result.eligible {
            let gaps = collect_gaps(&result.criterion_results);
            if gaps.len() > 0 {
                let total_effort = max_effort_ex(&gaps);
                let estimated_delegation_gain_sol = match lookup_estimate(
                    estimate_by_program,
                    result.program,
                ) {
                    Some(v) => v,
                    None => match result.estimated_delegation_sol {
                        Some(d) => d,
                        None => 0,
                    },
                };
                proof {
                    lemma_est_lookup_nonneg(estimate_by_program@, result.program);
                }
                let cost = total_effort.score();
                let roi_score = if cost > 0 {
                    proof {
                        vstd::arithmetic::div_mod::lemma_div_pos_is_pos(
                            estimated_delegation_gain_sol as int,
                            cost as int,
                        );
                        vstd::arithmetic::div_mod::lemma_div_nonincreasing(
                            estimated_delegation_gain_sol as int,
                            cost as int,
                        );
                    }
                    estimated_delegation_gain_sol / cost
                } else {
                    0
                };
                let ghost pre = built@;
                built.push(
                    ArbitrageOpportunity {
                        program: result.program,
                        current_eligible: result.eligible,
                        gaps,
                        total_effort,
                        estimated_delegation_gain_sol,
                        roi_score,
                    },
                );
                proof {
                    assert(opp_view(built@.last()) == spec_opp(
                        results@[i as int],
                        estimate_by_program@,
                    ));
                    assert(opps_view(built@) =~= spec_opps(
                        results@.take(i as int + 1),
                        estimate_by_program@,
                    ));
                }
            } else {
                proof {
                    assert(opps_view(built@) =~= spec_opps(
                        results@.take(i as int + 1),
                        estimate_by_program@,
                    ));
                }
            }
        } else {
            proof {
                assert(opps_view(built@) =~= spec_opps(
                    results@.take(i as int + 1),
                    estimate_by_program@,
                ));
            }
        }
        i = i + 1;
    }
    proof {
        assert(results@.take(results@.len() as int) =~= results@);
    }
    let ghost target = opps_view(built@).to_multiset();
    let mut out: Vec<ArbitrageOpportunity> = Vec::new();
    while built.len() > 0
        invariant
            opps_view(out@).to_multiset().add(opps_view(built@).to_multiset()) =~= target,
            forall|p: int, q: int| 0 <= p < q < out@.len() ==> out@[p].roi_score >= out@[q].roi_score,
            forall|p: int, q: int|
                0 <= p < out@.len() && 0 <= q < built@.len() ==> out@[p].roi_score
                    >= built@[q].roi_score,
            forall|k: int| 0 <= k < out@.len() ==> opp_wf(#[trigger] out@[k]),
            forall|k: int| 0 <= k < built@.len() ==> opp_wf(#[trigger] built@[k]),
        decreases built@.len(),
    {
        let mut best: usize = 0;
        let mut m: usize = 1;
        while m < built.len()
            invariant
                0 <= best < m <= built@.len(),
                built@.len() > 0,
                forall|k: int| 0 <= k < m ==> built@[best as int].roi_score >= built@[k].roi_score,
            decreases built@.len() - m,
        {
            if built[m].roi_score > built[best].roi_score {
                best = m;
            }
            m = m + 1;
        }
        let ghost pre_built = built@;
        let ghost pre_out = out@;
        let picked = built.remove(best);
        out.push(picked);
        proof {
            let s = opps_view(pre_built);
            let pv = opp_view(picked);
            s.to_multiset_ensures();
            opps_view(pre_out).to_multiset_ensures();
            assert(s[best as int] == pv);
            assert(opps_view(built@) =~= s.remove(best as int));
            assert(s.remove(best as int).to_multiset() =~= s.to_multiset().remove(pv));
            assert(s.contains(pv));
            assert(s.to_multiset().count(pv) > 0);
            assert(opps_view(out@) =~= opps_view(pre_out).push(pv));
            assert((opps_view(pre_out).push(pv)).to_multiset() =~= opps_view(
                pre_out,
            ).to_multiset().insert(pv));
            assert(opps_view(out@).to_multiset().add(opps_view(built@).to_multiset()) =~= target);
        }
    }
    proof {
        opps_view(built@).to_multiset_ensures();
        vstd::multiset::lemma_multiset_empty_len(opps_view(built@).to_multiset());
        assert(opps_view(built@).to_multiset() =~= Multiset::<OppView>::empty());
        assert(opps_view(out@).to_multiset() =~= target);
    }
    out
}

} // verus!
