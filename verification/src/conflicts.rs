use vstd::prelude::*;

use crate::criteria::CriteriaSet;
use crate::metric::{
    constraint_view, key_eqv, key_text, lemma_constraint_eqv_view, Constraint, ConstraintView,
    MetricKey,
};
use crate::program::{spec_display, ProgramId};
use crate::text::{fp_str, fp_to_string};

verus! {

/// How two programs' demands on one metric can collide: mutually
/// unsatisfiable, jointly satisfiable only in a narrow window, or
/// satisfiable but pulling against revenue.
#[derive(Debug, Clone, Copy, PartialEq, Eq, Structural)]
pub enum ConflictType {
    DirectContradiction,
    TensionZone,
    IndirectImpact,
}

/// One detected collision between two programs' demands on a metric,
/// with a rendered resolution hint.
#[derive(Debug)]
pub struct ProgramConflict {
    pub metric: MetricKey,
    pub program_a: ProgramId,
    pub program_a_wants: Constraint,
    pub program_b: ProgramId,
    pub program_b_wants: Constraint,
    pub conflict_type: ConflictType,
    pub recommendation: String,
}

/// One demand: a program, the metric it constrains, and the constraint.
#[derive(Debug)]
pub struct MetricConstraintRef {
    pub program: ProgramId,
    pub metric: MetricKey,
    pub constraint: Constraint,
}

/// The mathematical content of one demand.
pub struct RefView {
    pub program: ProgramId,
    pub metric: MetricKey,
    pub constraint: ConstraintView,
}

pub open spec fn ref_view(r: MetricConstraintRef) -> RefView {
    RefView { program: r.program, metric: r.metric, constraint: constraint_view(r.constraint) }
}

/// The mathematical content of one detected conflict.
pub struct ConflictView {
    pub metric: MetricKey,
    pub program_a: ProgramId,
    pub a_wants: ConstraintView,
    pub program_b: ProgramId,
    pub b_wants: ConstraintView,
    pub kind: ConflictType,
    pub recommendation: Seq<char>,
}

pub open spec fn conflict_view(c: ProgramConflict) -> ConflictView {
    ConflictView {
        metric: c.metric,
        program_a: c.program_a,
        a_wants: constraint_view(c.program_a_wants),
        program_b: c.program_b,
        b_wants: constraint_view(c.program_b_wants),
        kind: c.conflict_type,
        recommendation: c.recommendation@,
    }
}

pub open spec fn conflicts_view(s: Seq<ProgramConflict>) -> Seq<ConflictView> {
    s.map_values(|c: ProgramConflict| conflict_view(c))
}

#[verifier::opaque]
pub open spec fn rec_minmax_direct(pa: ProgramId, pb: ProgramId, mn: int, mx: int) -> Seq<char> {
    spec_display(pa) + " requires >= "@ + fp_str(mn) + ", but "@ + spec_display(pb)
        + " requires <= "@ + fp_str(mx) + ". Prioritize program ROI and pick one target."@
}

#[verifier::opaque]
pub open spec fn rec_minmax_tension(mn: int, mx: int, metric: MetricKey) -> Seq<char> {
    "Constraint window is narrow ("@ + fp_str(mn) + ".."@ + fp_str(mx)
        + "). Introduce monitoring guardrails before changing "@ + key_text(metric) + "."@
}

#[verifier::opaque]
pub open spec fn rec_range_direct() -> Seq<char> {
    "No overlapping range between programs for this metric."@
}

#[verifier::opaque]
pub open spec fn rec_range_tension(omin: int, omax: int) -> Seq<char> {
    "Shared feasible range is tight: ["@ + fp_str(omin) + ", "@ + fp_str(omax) + "]"@
}

#[verifier::opaque]
pub open spec fn rec_indirect(metric: MetricKey) -> Seq<char> {
    "Lower "@ + key_text(metric)
        + " may improve eligibility but can reduce validator revenue; model infra budget impact."@
}

/// The magnitude of a bound.
pub open spec fn mag_of(mn: int) -> int {
    if mn >= 0 {
        mn
    } else {
        -mn
    }
}

/// A min-versus-max pair: contradictory when the floor exceeds the cap;
/// a tension zone when the window is at most a tenth of the floor's
/// magnitude.
pub open spec fn minmax_outcome(
    pa: ProgramId,
    pb: ProgramId,
    mn: int,
    mx: int,
    metric: MetricKey,
    fallback: Option<(ConflictType, Seq<char>)>,
) -> Option<(ConflictType, Seq<char>)> {
    if mn > mx {
        Some((ConflictType::DirectContradiction, rec_minmax_direct(pa, pb, mn, mx)))
    } else if 10 * (mx - mn) <= mag_of(mn) {
        Some((ConflictType::TensionZone, rec_minmax_tension(mn, mx, metric)))
    } else {
        fallback
    }
}

/// Two ranges: contradictory when they do not overlap; a tension zone
/// when the overlap is at most a fifth of the smaller range's width.
pub open spec fn range_outcome(
    al: int,
    ah: int,
    bl: int,
    bh: int,
    fallback: Option<(ConflictType, Seq<char>)>,
) -> Option<(ConflictType, Seq<char>)> {
    let omin = if al >= bl {
        al
    } else {
        bl
    };
    let omax = if ah <= bh {
        ah
    } else {
        bh
    };
    let aw = if ah >= al {
        ah - al
    } else {
        al - ah
    };
    let bw = if bh >= bl {
        bh - bl
    } else {
        bl - bh
    };
    let smaller = if aw <= bw {
        aw
    } else {
        bw
    };
    if omin > omax {
        Some((ConflictType::DirectContradiction, rec_range_direct()))
    } else if 5 * (omax - omin) <= smaller {
        Some((ConflictType::TensionZone, rec_range_tension(omin, omax)))
    } else {
        fallback
    }
}

/// What one ordered pair of demands on the same metric yields: the
/// numeric-bound comparisons first, and for fee-like metrics an
/// indirect-impact note when no harder conflict was found.
pub open spec fn spec_pair(x: RefView, y: RefView) -> Option<(ConflictType, Seq<char>)> {
    let fallback: Option<(ConflictType, Seq<char>)> = if x.metric is Commission
        || x.metric is MevCommission {
        Some((ConflictType::IndirectImpact, rec_indirect(x.metric)))
    } else {
        None
    };
    match (x.constraint, y.constraint) {
        (ConstraintView::Min(mn), ConstraintView::Max(mx)) => minmax_outcome(
            x.program,
            y.program,
            mn,
            mx,
            x.metric,
            fallback,
        ),
        (ConstraintView::Max(mx), ConstraintView::Min(mn)) => minmax_outcome(
            x.program,
            y.program,
            mn,
            mx,
            x.metric,
            fallback,
        ),
        (ConstraintView::Range(al, ah), ConstraintView::Range(bl, bh)) => range_outcome(
            al,
            ah,
            bl,
            bh,
            fallback,
        ),
        _ => fallback,
    }
}

/// The conflict one ordered pair of demands contributes, if any: the
/// pair is examined only when it shares a metric across two programs.
pub open spec fn pair_view(refs: Seq<RefView>, i: int, j: int) -> Seq<ConflictView> {
    let x = refs[i];
    let y = refs[j];
    if !key_eqv(x.metric, y.metric) || x.program == y.program {
        Seq::empty()
    } else {
        match spec_pair(x, y) {
            None => Seq::empty(),
            Some((t, rec)) => seq![
                ConflictView {
                    metric: x.metric,
                    program_a: x.program,
                    a_wants: x.constraint,
                    program_b: y.program,
                    b_wants: y.constraint,
                    kind: t,
                    recommendation: rec,
                },
            ],
        }
    }
}

/// The conflicts the pairs (i, i+1) .. (i, j-1) contribute.
pub open spec fn inner_upto(refs: Seq<RefView>, i: int, j: int) -> Seq<ConflictView>
    decreases j - i,
{
    if j <= i + 1 {
        Seq::empty()
    } else {
        inner_upto(refs, i, j - 1) + pair_view(refs, i, j - 1)
    }
}

/// The conflicts of all ordered pairs drawn from the first k demands.
pub open spec fn outer_upto(refs: Seq<RefView>, k: int) -> Seq<ConflictView>
    decreases k,
{
    if k <= 0 {
        Seq::empty()
    } else {
        outer_upto(refs, k - 1) + inner_upto(refs, k - 1, refs.len() as int)
    }
}

/// Everything `detect_conflicts` reports over a flat demand list.
pub open spec fn spec_conflicts(refs: Seq<RefView>) -> Seq<ConflictView> {
    outer_upto(refs, refs.len() as int)
}

/// One criteria set's demands, in rule order.
pub open spec fn set_refs(s: CriteriaSet) -> Seq<RefView> {
    s.criteria@.map_values(
        |c: crate::metric::Criterion|
            RefView { program: s.program, metric: c.metric, constraint: constraint_view(
                c.constraint,
            ) },
    )
}

/// All sets' demands, flattened in order.
pub open spec fn flat_refs(sets: Seq<CriteriaSet>) -> Seq<RefView>
    decreases sets.len(),
{
    if sets.len() == 0 {
        Seq::empty()
    } else {
        flat_refs(sets.drop_last()) + set_refs(sets.last())
    }
}

/// Conflict detection is symmetric: swapping the two demands on a
/// shared metric yields a conflict of the same kind, or none either way,
/// independently of their order in the input.
pub proof fn lemma_pair_symmetric(x: RefView, y: RefView)
    requires
        key_eqv(x.metric, y.metric),
    ensures
        match (spec_pair(x, y), spec_pair(y, x)) {
            (Some((t1, _)), Some((t2, _))) => t1 == t2,
            (None, None) => true,
            _ => false,
        },
{
}

/// Compares one ordered pair of demands on a shared metric.
#[verifier::rlimit(100)]
fn compare_constraints(a: &MetricConstraintRef, b: &MetricConstraintRef) -> (r: Option<
    ProgramConflict,
>)
    ensures
        match spec_pair(ref_view(*a), ref_view(*b)) {
            Some((t, rec)) => match r {
                Some(c) => {
                    &&& conflict_view(c) == (ConflictView {
                        metric: a.metric,
                        program_a: a.program,
                        a_wants: constraint_view(a.constraint),
                        program_b: b.program,
                        b_wants: constraint_view(b.constraint),
                        kind: t,
                        recommendation: rec,
                    })
                },
                None => false,
            },
            None => r is None,
        },
{
    let fee_metric = match &a.metric {
        MetricKey::Commission | MetricKey::MevCommission => true,
        _ => false,
    };
    let outcome: Option<(ConflictType, String)> = match (&a.constraint, &b.constraint) {
        (Constraint::Min(mn), Constraint::Max(mx)) => minmax_outcome_ex(
            a.program,
            b.program,
            *mn,
            *mx,
            &a.metric,
            fee_metric,
        ),
        (Constraint::Max(mx), Constraint::Min(mn)) => minmax_outcome_ex(
            a.program,
            b.program,
            *mn,
            *mx,
            &a.metric,
            fee_metric,
        ),
        (
            Constraint::Range { min: al, max: ah },
            Constraint::Range { min: bl, max: bh },
        ) => range_outcome_ex(*al, *ah, *bl, *bh, &a.metric, fee_metric),
        _ => fee_fallback(&a.metric, fee_metric),
    };
    match outcome {
        None => None,
        Some((conflict_type, recommendation)) => {
            let c = ProgramConflict {
                metric: a.metric.clone(),
                program_a: a.program,
                program_a_wants: a.constraint.clone(),
                program_b: b.program,
                program_b_wants: b.constraint.clone(),
                conflict_type,
                recommendation,
            };
            proof {
                lemma_constraint_eqv_view(c.program_a_wants, a.constraint);
                lemma_constraint_eqv_view(c.program_b_wants, b.constraint);
            }
            Some(c)
        },
    }
}

/// The fee-metric fallback: an indirect-impact note, or nothing.
fn fee_fallback(metric: &MetricKey, fee_metric: bool) -> (r: Option<(ConflictType, String)>)
    requires
        fee_metric == (*metric is Commission || *metric is MevCommission),
    ensures
        match r {
            Some((t, rec)) => fee_metric && t == ConflictType::IndirectImpact && rec@
                == rec_indirect(*metric),
            None => !fee_metric,
        },
{
    if fee_metric {
        let mut s = String::from_str("Lower ");
        s.append(metric.display_string().as_str());
        s.append(
            " may improve eligibility but can reduce validator revenue; model infra budget impact.",
        );
        proof {
            reveal(rec_indirect);
            assert(s@ =~= rec_indirect(*metric));
        }
        Some((ConflictType::IndirectImpact, s))
    } else {
        None
    }
}

fn minmax_outcome_ex(
    pa: ProgramId,
    pb: ProgramId,
    mn: i64,
    mx: i64,
    metric: &MetricKey,
    fee_metric: bool,
) -> (r: Option<(ConflictType, String)>)
    requires
        fee_metric == (*metric is Commission || *metric is MevCommission),
    ensures
        match (
            minmax_outcome(
                pa,
                pb,
                mn as int,
                mx as int,
                *metric,
                if fee_metric {
                    Some((ConflictType::IndirectImpact, rec_indirect(*metric)))
                } else {
                    None
                },
            ),
            r,
        ) {
            (Some((t, rec)), Some((rt, rrec))) => rt == t && rrec@ == rec,
            (None, None) => true,
            _ => false,
        },
{
    if mn > mx {
        let mut s = String::from_str("");
        s.append(pa.display_name());
        s.append(" requires >= ");
        s.append(fp_to_string(mn).as_str());
        s.append(", but ");
        s.append(pb.display_name());
        s.append(" requires <= ");
        s.append(fp_to_string(mx).as_str());
        s.append(". Prioritize program ROI and pick one target.");
        proof {
            reveal_strlit("");
            reveal(rec_minmax_direct);
            assert(s@ =~= rec_minmax_direct(pa, pb, mn as int, mx as int));
        }
        return Some((ConflictType::DirectContradiction, s));
    }
    let floor: i128 = if mn >= 0 {
        mn as i128
    } else {
        -(mn as i128)
    };
    if 10 * ((mx as i128) - (mn as i128)) <= floor {
        let mut s = String::from_str("Constraint window is narrow (");
        s.append(fp_to_string(mn).as_str());
        s.append("..");
        s.append(fp_to_string(mx).as_str());
        s.append("). Introduce monitoring guardrails before changing ");
        s.append(metric.display_string().as_str());
        s.append(".");
        proof {
            reveal(rec_minmax_tension);
            assert(s@ =~= rec_minmax_tension(mn as int, mx as int, *metric));
        }
        return Some((ConflictType::TensionZone, s));
    }
    fee_fallback(metric, fee_metric)
}

fn range_outcome_ex(
    al: i64,
    ah: i64,
    bl: i64,
    bh: i64,
    metric: &MetricKey,
    fee_metric: bool,
) -> (r: Option<(ConflictType, String)>)
    requires
        fee_metric == (*metric is Commission || *metric is MevCommission),
    ensures
        match (
            range_outcome(
                al as int,
                ah as int,
                bl as int,
                bh as int,
                if fee_metric {
                    Some((ConflictType::IndirectImpact, rec_indirect(*metric)))
                } else {
                    None
                },
            ),
            r,
        ) {
            (Some((t, rec)), Some((rt, rrec))) => rt == t && rrec@ == rec,
            (None, None) => true,
            _ => false,
        },
{
    let omin = if al >= bl {
        al
    } else {
        bl
    };
    let omax = if ah <= bh {
        ah
    } else {
        bh
    };
    if omin > omax {
        let s = String::from_str("No overlapping range between programs for this metric.");
        proof {
            reveal(rec_range_direct);
        }
        return Some((ConflictType::DirectContradiction, s));
    }
    let aw: i128 = if ah >= al {
        (ah as i128) - (al as i128)
    } else {
        (al as i128) - (ah as i128)
    };
    let bw: i128 = if bh >= bl {
        (bh as i128) - (bl as i128)
    } else {
        (bl as i128) - (bh as i128)
    };
    let smaller = if aw <= bw {
        aw
    } else {
        bw
    };
    if 5 * ((omax as i128) - (omin as i128)) <= smaller {
        let mut s = String::from_str("Shared feasible range is tight: [");
        s.append(fp_to_string(omin).as_str());
        s.append(", ");
        s.append(fp_to_string(omax).as_str());
        s.append("]");
        proof {
            reveal(rec_range_tension);
            assert(s@ =~= rec_range_tension(omin as int, omax as int));
        }
        return Some((ConflictType::TensionZone, s));
    }
    fee_fallback(metric, fee_metric)
}

/// Scans every pair of demands that two different programs place on the
/// same metric, across all given criteria sets, and reports each
/// collision found. No overlapping demands means an empty report, not an
/// error.
#[verifier::rlimit(100)]
pub fn detect_conflicts(criteria_sets: &[CriteriaSet]) -> (r: Vec<ProgramConflict>)
    ensures
        conflicts_view(r@) == spec_conflicts(flat_refs(criteria_sets@)),
{
    let mut refs: Vec<MetricConstraintRef> = Vec::new();
    let mut si: usize = 0;
    while si < criteria_sets.len()
        invariant
            0 <= si <= criteria_sets@.len(),
            refs@.map_values(|x: MetricConstraintRef| ref_view(x)) == flat_refs(
                criteria_sets@.take(si as int),
            ),
        decreases criteria_sets@.len() - si,
    {
        let set = &criteria_sets[si];
        let mut ci: usize = 0;
        while ci < set.criteria.len()
            invariant
                0 <= ci <= set.criteria@.len(),
                set == criteria_sets@[si as int],
                0 <= si < criteria_sets@.len(),
                refs@.map_values(|x: MetricConstraintRef| ref_view(x)) == flat_refs(
                    criteria_sets@.take(si as int),
                ) + set_refs(*set).take(ci as int),
            decreases set.criteria@.len() - ci,
        {
            let criterion = &set.criteria[ci];
            let ghost pre = refs@;
            refs.push(
                MetricConstraintRef {
                    program: set.program,
                    metric: criterion.metric.clone(),
                    constraint: criterion.constraint.clone(),
                },
            );
            proof {
                let ghost last = refs@.last();
                lemma_constraint_eqv_view(last.constraint, criterion.constraint);
                assert(last.metric == criterion.metric);
                assert(set_refs(*set)[ci as int] == RefView {
                    program: set.program,
                    metric: set.criteria@[ci as int].metric,
                    constraint: constraint_view(set.criteria@[ci as int].constraint),
                });
                assert(ref_view(last) == set_refs(*set)[ci as int]);
                assert(refs@.map_values(|x: MetricConstraintRef| ref_view(x)) =~= pre.map_values(
                    |x: MetricConstraintRef| ref_view(x),
                ).push(ref_view(last)));
                assert(refs@.map_values(|x: MetricConstraintRef| ref_view(x)) =~= flat_refs(
                    criteria_sets@.take(si as int),
                ) + set_refs(*set).take(ci as int + 1));
            }
            ci = ci + 1;
        }
        proof {
            assert(set_refs(*set).take(set.criteria@.len() as int) =~= set_refs(*set));
            assert(criteria_sets@.take(si as int + 1).drop_last() =~= criteria_sets@.take(
                si as int,
            ));
            assert(criteria_sets@.take(si as int + 1).last() == criteria_sets@[si as int]);
            assert(refs@.map_values(|x: MetricConstraintRef| ref_view(x)) =~= flat_refs(
                criteria_sets@.take(si as int + 1),
            ));
        }
        si = si + 1;
    }
    proof {
        assert(criteria_sets@.take(criteria_sets@.len() as int) =~= criteria_sets@);
    }
    let ghost rv = refs@.map_values(|x: MetricConstraintRef| ref_view(x));
    let n = refs.len();
    let mut conflicts: Vec<ProgramConflict> = Vec::new();
    let mut i: usize = 0;
    while i < n
        invariant
            0 <= i <= n,
            n == refs@.len(),
            rv == refs@.map_values(|x: MetricConstraintRef| ref_view(x)),
            rv == flat_refs(criteria_sets@),
            rv.len() == n,
            conflicts_view(conflicts@) == outer_upto(rv, i as int),
        decreases n - i,
    {
        let mut j: usize = i + 1;
        while j < n
            invariant
                0 <= i < j <= n || (i as int) + 1 == j as int,
                i < n,
                j >= i + 1,
                n == refs@.len(),
                rv == refs@.map_values(|x: MetricConstraintRef| ref_view(x)),
                rv.len() == n,
                conflicts_view(conflicts@) == outer_upto(rv, i as int) + inner_upto(
                    rv,
                    i as int,
                    j as int,
                ),
            decreases n - j,
        {
            let a = &refs[i];
            let b = &refs[j];
            let ghost pre = conflicts@;
            proof {
                assert(ref_view(refs@[i as int]) == rv[i as int]);
                assert(ref_view(refs@[j as int]) == rv[j as int]);
            }
            if a.metric.eqv(&b.metric) && !(a.program == b.program) {
                match compare_constraints(a, b) {
                    Some(conflict) => {
                        proof {
                            assert(pair_view(rv, i as int, j as int) =~= seq![
                                conflict_view(conflict),
                            ]);
                        }
                        conflicts.push(conflict);
                        proof {
                            assert(conflicts@.drop_last() =~= pre);
                            assert(conflicts_view(conflicts@) =~= conflicts_view(pre).push(
                                conflict_view(conflicts@.last()),
                            ));
                        }
                    },
                    None => {
                        proof {
                            assert(pair_view(rv, i as int, j as int) =~= Seq::<
                                ConflictView,
                            >::empty());
                        }
                    },
                }
            } else {
                proof {
                    assert(pair_view(rv, i as int, j as int) =~= Seq::<ConflictView>::empty());
                }
            }
            proof {
                assert(conflicts_view(conflicts@) =~= outer_upto(rv, i as int) + inner_upto(
                    rv,
                    i as int,
                    j as int + 1,
                ));
            }
            j = j + 1;
        }
        proof {
            assert(conflicts_view(conflicts@) =~= outer_upto(rv, i as int + 1));
        }
        i = i + 1;
    }
    proof {
        assert(conflicts_view(conflicts@) =~= spec_conflicts(rv));
    }
    conflicts
}

} // verus!
