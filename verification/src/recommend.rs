use vstd::prelude::*;

use crate::arbitrage::ArbitrageOpportunity;
use crate::conflicts::{ConflictType, ProgramConflict};
use crate::evaluator::{EffortLevel, GapDetail};
use crate::metric::key_text;
use crate::program::spec_display;
use crate::text::{fp_str0, fp_str3, fp_to_string0, fp_to_string3};

verus! {

/// One prioritised action: what to target, why, what it is worth, and
/// how hard it is.
#[derive(Debug)]
pub struct OptimizationRecommendation {
    pub priority: usize,
    pub title: String,
    pub rationale: String,
    pub expected_gain_sol: i64,
    pub effort: String,
}

/// The rendered name of an effort level.
pub open spec fn spec_effort_label(e: EffortLevel) -> Seq<char> {
    match e {
        EffortLevel::Trivial => "trivial"@,
        EffortLevel::Moderate => "moderate"@,
        EffortLevel::Hard => "hard"@,
        EffortLevel::Impossible => "impossible"@,
    }
}

/// The rendered name of an effort level.
pub fn effort_label(effort: EffortLevel) -> (r: &'static str)
    ensures
        r@ == spec_effort_label(effort),
{
    match effort {
        EffortLevel::Trivial => "trivial",
        EffortLevel::Moderate => "moderate",
        EffortLevel::Hard => "hard",
        EffortLevel::Impossible => "impossible",
    }
}

/// The rendered change list of an opportunity: each gap's metric and
/// delta, comma separated.
pub open spec fn actions_text(gaps: Seq<GapDetail>) -> Seq<char>
    decreases gaps.len(),
{
    if gaps.len() == 0 {
        Seq::empty()
    } else if gaps.len() == 1 {
        gap_action_text(gaps[0])
    } else {
        actions_text(gaps.drop_last()) + ", "@ + gap_action_text(gaps.last())
    }
}

#[verifier::opaque]
pub open spec fn gap_action_text(g: GapDetail) -> Seq<char> {
    key_text(g.metric_key) + " (delta "@ + fp_str3(g.delta as int) + ")"@
}

/// The mathematical content of one recommendation.
pub struct RecView {
    pub priority: int,
    pub title: Seq<char>,
    pub rationale: Seq<char>,
    pub expected_gain_sol: i64,
    pub effort: Seq<char>,
}

pub open spec fn rec_view(r: OptimizationRecommendation) -> RecView {
    RecView {
        priority: r.priority as int,
        title: r.title@,
        rationale: r.rationale@,
        expected_gain_sol: r.expected_gain_sol,
        effort: r.effort@,
    }
}

pub open spec fn recs_view(s: Seq<OptimizationRecommendation>) -> Seq<RecView> {
    s.map_values(|r: OptimizationRecommendation| rec_view(r))
}

/// The recommendation built from one opportunity.
#[verifier::opaque]
pub open spec fn opp_rec(o: ArbitrageOpportunity, priority: int) -> RecView {
    RecView {
        priority,
        title: "Target "@ + spec_display(o.program),
        rationale: "Estimated +"@ + fp_str0(o.estimated_delegation_gain_sol as int)
            + " SOL if eligible. Required changes: "@ + actions_text(o.gaps@) + "."@,
        expected_gain_sol: o.estimated_delegation_gain_sol,
        effort: spec_effort_label(o.total_effort),
    }
}

/// The recommendation built from one contradictory conflict.
#[verifier::opaque]
pub open spec fn conflict_rec(c: ProgramConflict, priority: int) -> RecView {
    RecView {
        priority,
        title: "Resolve "@ + key_text(c.metric) + " conflict ("@ + spec_display(c.program_a)
            + " vs "@ + spec_display(c.program_b) + ")"@,
        rationale: c.recommendation@,
        expected_gain_sol: 0,
        effort: "high"@,
    }
}

/// The recommendations taken from the opportunity list: the first
/// `max_items` opportunities, with priorities counted from one.
pub open spec fn opp_recs(opps: Seq<ArbitrageOpportunity>, k: int) -> Seq<RecView>
    decreases k,
{
    if k <= 0 {
        Seq::empty()
    } else {
        opp_recs(opps, k - 1) + seq![opp_rec(opps[k - 1], k)]
    }
}

/// The recommendations taken from the conflicts: contradictions only,
/// up to the remaining budget, with priorities continuing the count.
pub open spec fn conflict_recs(
    conflicts: Seq<ProgramConflict>,
    budget: int,
    next_priority: int,
) -> Seq<RecView>
    decreases conflicts.len(),
{
    if conflicts.len() == 0 || budget <= 0 {
        Seq::empty()
    } else if conflicts[0].conflict_type is DirectContradiction {
        seq![conflict_rec(conflicts[0], next_priority)] + conflict_recs(
            conflicts.skip(1),
            budget - 1,
            next_priority + 1,
        )
    } else {
        conflict_recs(conflicts.skip(1), budget, next_priority)
    }
}

/// Everything `build_recommendations` returns: the top opportunities in
/// their given order, then contradiction conflicts filling the leftover
/// slots, priorities counted from one in insertion order.
pub open spec fn spec_recommendations(
    opps: Seq<ArbitrageOpportunity>,
    conflicts: Seq<ProgramConflict>,
    max_items: int,
) -> Seq<RecView> {
    let taken = if opps.len() <= max_items {
        opps.len() as int
    } else {
        max_items
    };
    opp_recs(opps, taken) + conflict_recs(conflicts, max_items - taken, taken + 1)
}

/// The rendered change list of an opportunity.
fn actions_text_ex(gaps: &Vec<GapDetail>) -> (r: String)
    ensures
        r@ == actions_text(gaps@),
{
    let mut s = String::new();
    let mut i: usize = 0;
    while i < gaps.len()
        invariant
            0 <= i <= gaps@.len(),
            s@ == actions_text(gaps@.take(i as int)),
        decreases gaps@.len() - i,
    {
        proof {
            assert(gaps@.take(i as int + 1).drop_last() =~= gaps@.take(i as int));
            assert(gaps@.take(i as int + 1).last() == gaps@[i as int]);
        }
        if i > 0 {
            s.append(", ");
        }
        s.append(gaps[i].metric_key.display_string().as_str());
        s.append(" (delta ");
        s.append(fp_to_string3(gaps[i].delta).as_str());
        s.append(")");
        proof {
            reveal(gap_action_text);
            assert(s@ =~= actions_text(gaps@.take(i as int + 1)));
        }
        i = i + 1;
    }
    proof {
        assert(gaps@.take(gaps@.len() as int) =~= gaps@);
    }
    s
}

/// Merges ranked opportunities and detected conflicts into a prioritised
/// action list: up to `max_items` opportunities in their given order,
/// then direct contradictions filling the remaining slots (tension and
/// indirect conflicts are informational and not actioned here).
pub fn build_recommendations(
    opportunities: &[ArbitrageOpportunity],
    conflicts: &[ProgramConflict],
    max_items: usize,
) -> (r: Vec<OptimizationRecommendation>)
    ensures
        recs_view(r@) == spec_recommendations(opportunities@, conflicts@, max_items as int),
{
    let mut recommendations: Vec<OptimizationRecommendation> = Vec::new();
    let taken = if opportunities.len() <= max_items {
        opportunities.len()
    } else {
        max_items
    };
    let mut i: usize = 0;
    while i < taken
        invariant
            0 <= i <= taken <= opportunities@.len(),
            taken <= max_items,
            recommendations@.len() == i,
            recs_view(recommendations@) == opp_recs(opportunities@, i as int),
        decreases taken - i,
    {
        let opportunity = &opportunities[i];
        let mut title = String::from_str("Target ");
        title.append(opportunity.program.display_name());
        let mut rationale = String::from_str("Estimated +");
        rationale.append(fp_to_string0(opportunity.estimated_delegation_gain_sol).as_str());
        rationale.append(" SOL if eligible. Required changes: ");
        rationale.append(actions_text_ex(&opportunity.gaps).as_str());
        rationale.append(".");
        let effort = effort_label(opportunity.total_effort).to_owned();
        recommendations.push(
            OptimizationRecommendation {
                priority: i + 1,
                title,
                rationale,
                expected_gain_sol: opportunity.estimated_delegation_gain_sol,
                effort,
            },
        );
        proof {
            reveal(opp_rec);
            assert(rec_view(recommendations@.last()) == opp_rec(
                opportunities@[i as int],
                i as int + 1,
            ));
            assert(recs_view(recommendations@) =~= opp_recs(opportunities@, i as int + 1));
        }
        i = i + 1;
    }
    let mut budget = max_items - taken;
    let mut j: usize = 0;
    proof {
        assert(conflicts@.skip(0) =~= conflicts@);
    }
    while j < conflicts.len()
        invariant
            0 <= j <= conflicts@.len(),
            recommendations@.len() + budget <= max_items,
            recs_view(recommendations@) + conflict_recs(
                conflicts@.skip(j as int),
                budget as int,
                recommendations@.len() as int + 1,
            ) == spec_recommendations(opportunities@, conflicts@, max_items as int),
        decreases conflicts@.len() - j,
    {
        proof {
            assert(conflicts@.skip(j as int)[0] == conflicts@[j as int]);
            assert(conflicts@.skip(j as int).skip(1) =~= conflicts@.skip(j as int + 1));
        }
        let conflict = &conflicts[j];
        let is_direct = match conflict.conflict_type {
            ConflictType::DirectContradiction => true,
            _ => false,
        };
        if budget > 0 && is_direct {
            let mut title = String::from_str("Resolve ");
            title.append(conflict.metric.display_string().as_str());
            title.append(" conflict (");
            title.append(conflict.program_a.display_name());
            title.append(" vs ");
            title.append(conflict.program_b.display_name());
            title.append(")");
            let rationale = clone_string(&conflict.recommendation);
            let priority = recommendations.len() + 1;
            let ghost pre = recommendations@;
            recommendations.push(
                OptimizationRecommendation {
                    priority,
                    title,
                    rationale,
                    expected_gain_sol: 0,
                    effort: String::from_str("high"),
                },
            );
            budget = budget - 1;
            proof {
                reveal(conflict_rec);
                assert(rec_view(recommendations@.last()) == conflict_rec(
                    conflicts@[j as int],
                    pre.len() as int + 1,
                ));
                assert(recs_view(recommendations@) =~= recs_view(pre).push(
                    rec_view(recommendations@.last()),
                ));
                assert(recs_view(pre) + conflict_recs(
                    conflicts@.skip(j as int),
                    budget as int + 1,
                    pre.len() as int + 1,
                ) =~= recs_view(recommendations@) + conflict_recs(
                    conflicts@.skip(j as int + 1),
                    budget as int,
                    recommendations@.len() as int + 1,
                ));
            }
        } else if budget == 0 {
            proof {
                assert(conflict_recs(
                    conflicts@.skip(j as int),
                    0,
                    recommendations@.len() as int + 1,
                ) =~= Seq::<RecView>::empty());
                assert(conflict_recs(
                    conflicts@.skip(j as int + 1),
                    0,
                    recommendations@.len() as int + 1,
                ) =~= Seq::<RecView>::empty());
            }
        }
        j = j + 1;
    }
    proof {
        assert(conflicts@.skip(conflicts@.len() as int) =~= Seq::<ProgramConflict>::empty());
        assert(recs_view(recommendations@) =~= spec_recommendations(
            opportunities@,
            conflicts@,
            max_items as int,
        ));
    }
    recommendations
}

/// A copy of a text.
fn clone_string(s: &String) -> (r: String)
    ensures
        r@ == s@,
{
    s.clone()
}

} // verus!
