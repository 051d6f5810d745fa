use vstd::prelude::*;

use crate::criteria::{criterion_wf, CriteriaSet};
use crate::metric::{constraint_eqv, Constraint, Criterion, MetricKey, MetricValue};
use crate::metrics::{spec_metric_value, ValidatorMetrics};
use crate::program::ProgramId;
use crate::{fp_valid, FP_LIMIT, FP_SCALE};

verus! {

/// How costly closing a gap is judged to be, from routine configuration
/// work up to structurally unreachable.
#[derive(Debug, Clone, Copy, PartialEq, Eq, Structural, PartialOrd, Ord)]
pub enum EffortLevel {
    Trivial,
    Moderate,
    Hard,
    Impossible,
}

/// The position of a level in the declared order.
pub open spec fn spec_level(e: EffortLevel) -> int {
    match e {
        EffortLevel::Trivial => 0,
        EffortLevel::Moderate => 1,
        EffortLevel::Hard => 2,
        EffortLevel::Impossible => 3,
    }
}

/// The fixed cost a level contributes to gain-per-effort ranking.
pub open spec fn spec_effort_cost(e: EffortLevel) -> int {
    match e {
        EffortLevel::Trivial => 1,
        EffortLevel::Moderate => 2,
        EffortLevel::Hard => 4,
        EffortLevel::Impossible => 1000,
    }
}

impl EffortLevel {
    /// The position of this level in the declared order.
    pub fn level(&self) -> (r: u8)
        ensures
            r as int == spec_level(*self),
    {
        match self {
            EffortLevel::Trivial => 0,
            EffortLevel::Moderate => 1,
            EffortLevel::Hard => 2,
            EffortLevel::Impossible => 3,
        }
    }

    /// The fixed cost used for gain-per-effort division, never for
    /// ordering comparisons.
    pub fn score(&self) -> (r: i64)
        ensures
            r as int == spec_effort_cost(*self),
            r > 0,
    {
        match self {
            EffortLevel::Trivial => 1,
            EffortLevel::Moderate => 2,
            EffortLevel::Hard => 4,
            EffortLevel::Impossible => 1000,
        }
    }
}

/// The numeric shortfall behind one failed numeric criterion.
#[derive(Debug)]
pub struct GapDetail {
    pub metric_key: MetricKey,
    pub current_value: i64,
    pub required_value: i64,
    pub delta: i64,
    pub effort_estimate: EffortLevel,
}

impl Clone for GapDetail {
    fn clone(&self) -> (r: Self)
        ensures
            r == *self,
    {
        GapDetail {
            metric_key: self.metric_key.clone(),
            current_value: self.current_value,
            required_value: self.required_value,
            delta: self.delta,
            effort_estimate: self.effort_estimate,
        }
    }
}

/// The outcome of matching one criterion against one snapshot.
#[derive(Debug)]
pub struct CriterionResult {
    pub criterion_name: String,
    pub metric_key: MetricKey,
    pub your_value: MetricValue,
    pub required: Constraint,
    pub passed: bool,
    pub gap: Option<GapDetail>,
}

/// One program's verdict over a snapshot: the unweighted AND gate, the
/// independent weighted score, the per-criterion outcomes, and the
/// delegation estimate (populated only when eligible).
#[derive(Debug)]
pub struct EligibilityResult {
    pub program: ProgramId,
    pub eligible: bool,
    pub score: Option<i64>,
    pub criterion_results: Vec<CriterionResult>,
    pub estimated_delegation_sol: Option<i64>,
}

/// How many recorded outcomes passed.
pub open spec fn count_passed(s: Seq<CriterionResult>) -> int
    decreases s.len(),
{
    if s.len() == 0 {
        0
    } else {
        count_passed(s.drop_last()) + if s.last().passed {
            1int
        } else {
            0int
        }
    }
}

/// Whether a gap sits within a relative distance of its bound:
/// the bound is non-zero and |delta| / |required| stays at or under the
/// fixed-point ratio `eps`.
pub open spec fn gap_is_marginal(g: GapDetail, eps: int) -> bool {
    g.required_value != 0 && vstd::math::abs(g.delta as int) * (FP_SCALE as int) <= eps
        * vstd::math::abs(g.required_value as int)
}

/// How many recorded outcomes carry a gap within the relative margin.
pub open spec fn count_marginal(s: Seq<CriterionResult>, eps: int) -> int
    decreases s.len(),
{
    if s.len() == 0 {
        0
    } else {
        count_marginal(s.drop_last(), eps) + match s.last().gap {
            Some(g) => if gap_is_marginal(g, eps) {
                1int
            } else {
                0int
            },
            None => 0int,
        }
    }
}

impl EligibilityResult {
    /// How many criteria passed.
    pub fn passed_count(&self) -> (r: usize)
        ensures
            r as int == count_passed(self.criterion_results@),
    {
        let n = self.criterion_results.len();
        let mut count: usize = 0;
        let mut i: usize = 0;
        while i < n
            invariant
                0 <= i <= n,
                n == self.criterion_results@.len(),
                count as int == count_passed(self.criterion_results@.take(i as int)),
                count <= i,
            decreases n - i,
        {
            proof {
                assert(self.criterion_results@.take(i as int + 1).drop_last()
                    =~= self.criterion_results@.take(i as int));
            }
            if self.criterion_results[i].passed {
                count = count + 1;
            }
            i = i + 1;
        }
        proof {
            assert(self.criterion_results@.take(n as int) =~= self.criterion_results@);
        }
        count
    }

    /// How many criteria failed.
    pub fn failed_count(&self) -> (r: usize)
        ensures
            r as int == self.criterion_results@.len() - count_passed(self.criterion_results@),
    {
        proof {
            lemma_count_passed_bounds(self.criterion_results@);
        }
        self.criterion_results.len() - self.passed_count()
    }

    /// How many failed numeric criteria sit within the relative margin
    /// `epsilon_ratio` (a fixed-point ratio) of their bound.
    pub fn marginal_count(&self, epsilon_ratio: i64) -> (r: usize)
        ensures
            r as int == count_marginal(self.criterion_results@, epsilon_ratio as int),
    {
        let n = self.criterion_results.len();
        let mut count: usize = 0;
        let mut i: usize = 0;
        while i < n
            invariant
                0 <= i <= n,
                n == self.criterion_results@.len(),
                count as int == count_marginal(
                    self.criterion_results@.take(i as int),
                    epsilon_ratio as int,
                ),
                count <= i,
            decreases n - i,
        {
            proof {
                assert(self.criterion_results@.take(i as int + 1).drop_last()
                    =~= self.criterion_results@.take(i as int));
            }
            match &self.criterion_results[i].gap {
                Some(g) => {
                    if g.required_value != 0 {
                        let da: i128 = if g.delta >= 0 {
                            g.delta as i128
                        } else {
                            -(g.delta as i128)
                        };
                        let ra: i128 = if g.required_value >= 0 {
                            g.required_value as i128
                        } else {
                            -(g.required_value as i128)
                        };
                        proof {
                            let b: int = 0x8000_0000_0000_0000;
                            assert(da * (FP_SCALE as i128) <= b * 10000 && -(b * b) <= (
                            epsilon_ratio as i128) * ra <= b * b) by (nonlinear_arith)
                                requires
                                    0 <= da <= b,
                                    0 <= ra <= b,
                                    -b <= epsilon_ratio as i128 <= b,
                            ;
                        }
                        if da * (FP_SCALE as i128) <= (epsilon_ratio as i128) * ra {
                            count = count + 1;
                        }
                    }
                },
                None => {},
            }
            i = i + 1;
        }
        proof {
            assert(self.criterion_results@.take(n as int) =~= self.criterion_results@);
        }
        count
    }
}

/// The passed count never exceeds the number of outcomes.
pub proof fn lemma_count_passed_bounds(s: Seq<CriterionResult>)
    ensures
        0 <= count_passed(s) <= s.len(),
    decreases s.len(),
{
    if s.len() > 0 {
        lemma_count_passed_bounds(s.drop_last());
    }
}

/// Whether a reading satisfies a constraint. `Custom` constraints pass
/// whatever the reading; any other mismatched pairing fails.
pub open spec fn spec_passes(v: MetricValue, c: Constraint) -> bool {
    match c {
        Constraint::Custom(_) => true,
        Constraint::Min(m) => v matches MetricValue::Numeric(x) && x >= m,
        Constraint::Max(m) => v matches MetricValue::Numeric(x) && x <= m,
        Constraint::Range { min, max } => v matches MetricValue::Numeric(x) && min <= x && x
            <= max,
        Constraint::Equals(e) => v matches MetricValue::Text(t) && t@ == e@,
        Constraint::OneOf(opts) => v matches MetricValue::Text(t) && (exists|i: int|
            0 <= i < opts@.len() && #[trigger] opts@[i]@ == t@),
        Constraint::Boolean(b) => v matches MetricValue::Bool(x) && x == b,
    }
}

/// The fixed effort table, by metric kind. `delta` and `required` are
/// exact (unbounded) quantities so the ratio tests are exact.
pub open spec fn spec_effort(metric: MetricKey, delta: int, required: int) -> EffortLevel {
    match metric {
        MetricKey::Commission => EffortLevel::Trivial,
        MetricKey::MevCommission => EffortLevel::Trivial,
        MetricKey::SkipRate | MetricKey::VoteCredits | MetricKey::UptimePercent => if delta
            <= FP_SCALE {
            EffortLevel::Moderate
        } else {
            EffortLevel::Hard
        },
        MetricKey::ActivatedStake => if required <= 0 {
            EffortLevel::Impossible
        } else if delta * 10 <= required {
            EffortLevel::Moderate
        } else if delta * 100 <= required * 35 {
            EffortLevel::Hard
        } else {
            EffortLevel::Impossible
        },
        MetricKey::DatacenterConcentration
        | MetricKey::InfrastructureDiversity
        | MetricKey::StakeConcentration => EffortLevel::Hard,
        MetricKey::SolanaVersion => EffortLevel::Trivial,
        MetricKey::SuperminorityStatus => EffortLevel::Impossible,
        MetricKey::Custom(_) => EffortLevel::Moderate,
    }
}

/// The gap recorded for a reading against a constraint: present exactly
/// when a numeric reading fails a numeric bound.
pub open spec fn spec_gap(metric: MetricKey, v: MetricValue, c: Constraint) -> Option<GapDetail> {
    match (v, c) {
        (MetricValue::Numeric(x), Constraint::Min(m)) => if x >= m {
            None
        } else {
            Some(
                GapDetail {
                    metric_key: metric,
                    current_value: x,
                    required_value: m,
                    delta: (m - x) as i64,
                    effort_estimate: spec_effort(metric, m - x, m as int),
                },
            )
        },
        (MetricValue::Numeric(x), Constraint::Max(m)) => if x <= m {
            None
        } else {
            Some(
                GapDetail {
                    metric_key: metric,
                    current_value: x,
                    required_value: m,
                    delta: (x - m) as i64,
                    effort_estimate: spec_effort(metric, x - m, m as int),
                },
            )
        },
        (MetricValue::Numeric(x), Constraint::Range { min, max }) => if min <= x && x <= max {
            None
        } else if x < min {
            Some(
                GapDetail {
                    metric_key: metric,
                    current_value: x,
                    required_value: min,
                    delta: (min - x) as i64,
                    effort_estimate: spec_effort(metric, min - x, min as int),
                },
            )
        } else {
            Some(
                GapDetail {
                    metric_key: metric,
                    current_value: x,
                    required_value: max,
                    delta: (x - max) as i64,
                    effort_estimate: spec_effort(metric, x - max, max as int),
                },
            )
        },
        _ => None,
    }
}

/// The effective weight of a criterion: one when absent, floored at zero.
pub open spec fn weight_of(c: Criterion) -> int {
    let w = match c.weight {
        Some(w) => w as int,
        None => FP_SCALE as int,
    };
    if w < 0 {
        0
    } else {
        w
    }
}

/// The sum of effective weights over a rule list.
pub open spec fn total_weight(s: Seq<Criterion>) -> int
    decreases s.len(),
{
    if s.len() == 0 {
        0
    } else {
        total_weight(s.drop_last()) + weight_of(s.last())
    }
}

/// Whether the failing sentinel (the text "unknown") satisfies a
/// constraint: only a custom constraint, an equality with that very
/// text, or a membership list carrying it.
pub open spec fn sentinel_passes(c: Constraint) -> bool {
    match c {
        Constraint::Custom(_) => true,
        Constraint::Equals(e) => e@ == "unknown"@,
        Constraint::OneOf(opts) => exists|i: int|
            0 <= i < opts@.len() && #[trigger] opts@[i]@ == "unknown"@,
        _ => false,
    }
}

/// Whether a snapshot passes one rule: its resolved reading against the
/// constraint, or the sentinel when the reading is unresolved.
pub open spec fn spec_passes_at(m: ValidatorMetrics, c: Criterion) -> bool {
    match spec_metric_value(m, c.metric) {
        Some(v) => spec_passes(v, c.constraint),
        None => sentinel_passes(c.constraint),
    }
}

/// The gap one rule records: only a resolved numeric reading that fails
/// a numeric bound carries one (the sentinel is text and never does).
pub open spec fn spec_gap_at(m: ValidatorMetrics, c: Criterion) -> Option<GapDetail> {
    match spec_metric_value(m, c.metric) {
        Some(v) => spec_gap(c.metric, v, c.constraint),
        None => None,
    }
}

/// The sum of effective weights over the rules a snapshot passes.
pub open spec fn passed_weight(s: Seq<Criterion>, m: ValidatorMetrics) -> int
    decreases s.len(),
{
    if s.len() == 0 {
        0
    } else {
        passed_weight(s.drop_last(), m) + if spec_passes_at(m, s.last()) {
            weight_of(s.last())
        } else {
            0
        }
    }
}

/// Whether a snapshot passes every rule of a list.
pub open spec fn all_pass(s: Seq<Criterion>, m: ValidatorMetrics) -> bool {
    forall|i: int| 0 <= i < s.len() ==> spec_passes_at(m, #[trigger] s[i])
}

/// The weighted pass ratio: absent when the total weight is zero,
/// otherwise the passed share of the total, in fixed point.
pub open spec fn spec_score(s: Seq<Criterion>, m: ValidatorMetrics) -> Option<i64> {
    if total_weight(s) > 0 {
        Some(((passed_weight(s, m) * FP_SCALE) / total_weight(s)) as i64)
    } else {
        None
    }
}

/// An omitted weight contributes exactly as a weight of one; a negative
/// weight contributes exactly as a weight of zero.
pub proof fn lemma_weight_normalisation(c: Criterion)
    ensures
        c.weight is None ==> weight_of(c) == FP_SCALE as int,
        match c.weight {
            Some(w) => w < 0 ==> weight_of(c) == 0,
            None => true,
        },
{
}

/// Equivalent constraints pass and fail the same readings.
pub proof fn lemma_passes_constraint_eqv(v: MetricValue, c1: Constraint, c2: Constraint)
    requires
        constraint_eqv(c1, c2),
    ensures
        spec_passes(v, c1) == spec_passes(v, c2),
{
    match (c1, c2) {
        (Constraint::OneOf(xs), Constraint::OneOf(ys)) => {
            match v {
                MetricValue::Text(t) => {
                    if spec_passes(v, c1) {
                        let i = choose|i: int| 0 <= i < xs@.len() && #[trigger] xs@[i]@ == t@;
                        assert(ys@[i]@ == t@);
                    }
                    if spec_passes(v, c2) {
                        let i = choose|i: int| 0 <= i < ys@.len() && #[trigger] ys@[i]@ == t@;
                        assert(xs@[i]@ == t@);
                    }
                },
                _ => {},
            }
        },
        _ => {},
    }
}

/// Equivalent constraints judge the sentinel alike.
pub proof fn lemma_sentinel_passes_eqv(c1: Constraint, c2: Constraint)
    requires
        constraint_eqv(c1, c2),
    ensures
        sentinel_passes(c1) == sentinel_passes(c2),
{
    match (c1, c2) {
        (Constraint::OneOf(xs), Constraint::OneOf(ys)) => {
            if sentinel_passes(c1) {
                let i = choose|i: int| 0 <= i < xs@.len() && #[trigger] xs@[i]@ == "unknown"@;
                assert(ys@[i]@ == "unknown"@);
            }
            if sentinel_passes(c2) {
                let i = choose|i: int| 0 <= i < ys@.len() && #[trigger] ys@[i]@ == "unknown"@;
                assert(xs@[i]@ == "unknown"@);
            }
        },
        _ => {},
    }
}

/// Rules that agree on metric and constraint pass and fail together on
/// every snapshot.
pub proof fn lemma_passes_at_eqv(m: ValidatorMetrics, c1: Criterion, c2: Criterion)
    requires
        crate::metric::key_eqv(c1.metric, c2.metric),
        constraint_eqv(c1.constraint, c2.constraint),
    ensures
        spec_passes_at(m, c1) == spec_passes_at(m, c2),
{
    crate::metrics::lemma_key_eqv_same_reading(m, c1.metric, c2.metric);
    match spec_metric_value(m, c1.metric) {
        Some(v) => {
            lemma_passes_constraint_eqv(v, c1.constraint, c2.constraint);
        },
        None => {
            lemma_sentinel_passes_eqv(c1.constraint, c2.constraint);
        },
    }
}

/// Rule lists that agree rule by rule on metric, constraint, and
/// effective weight behave identically: the same gate and the same
/// weighted score, over every snapshot. In particular a rule with its
/// weight omitted behaves as one weighted one, and a rule with a
/// negative weight as one weighted zero.
pub proof fn lemma_weight_equivalence(
    s1: Seq<Criterion>,
    s2: Seq<Criterion>,
    m: ValidatorMetrics,
)
    requires
        s1.len() == s2.len(),
        forall|i: int|
            0 <= i < s1.len() ==> crate::metric::key_eqv((#[trigger] s1[i]).metric, s2[i].metric)
                && constraint_eqv(s1[i].constraint, s2[i].constraint) && weight_of(s1[i])
                == weight_of(s2[i]),
    ensures
        all_pass(s1, m) == all_pass(s2, m),
        spec_score(s1, m) == spec_score(s2, m),
{
    lemma_pass_weight_equivalence(s1, s2, m);
    assert forall|i: int| 0 <= i < s1.len() implies spec_passes_at(m, #[trigger] s1[i])
        == spec_passes_at(m, s2[i]) by {
        lemma_passes_at_eqv(m, s1[i], s2[i]);
    }
    if all_pass(s1, m) {
        assert forall|i: int| 0 <= i < s2.len() implies spec_passes_at(m, #[trigger] s2[i]) by {
            assert(spec_passes_at(m, s1[i]));
        }
    }
    if all_pass(s2, m) {
        assert forall|i: int| 0 <= i < s1.len() implies spec_passes_at(m, #[trigger] s1[i]) by {
            assert(spec_passes_at(m, s2[i]));
        }
    }
}

proof fn lemma_pass_weight_equivalence(s1: Seq<Criterion>, s2: Seq<Criterion>, m: ValidatorMetrics)
    requires
        s1.len() == s2.len(),
        forall|i: int|
            0 <= i < s1.len() ==> crate::metric::key_eqv((#[trigger] s1[i]).metric, s2[i].metric)
                && constraint_eqv(s1[i].constraint, s2[i].constraint) && weight_of(s1[i])
                == weight_of(s2[i]),
    ensures
        total_weight(s1) == total_weight(s2),
        passed_weight(s1, m) == passed_weight(s2, m),
    decreases s1.len(),
{
    if s1.len() > 0 {
        assert forall|i: int|
            0 <= i < s1.len() - 1 implies crate::metric::key_eqv(
            (#[trigger] s1.drop_last()[i]).metric,
            s2.drop_last()[i].metric,
        ) && constraint_eqv(s1.drop_last()[i].constraint, s2.drop_last()[i].constraint)
            && weight_of(s1.drop_last()[i]) == weight_of(s2.drop_last()[i]) by {
            assert(s1.drop_last()[i] == s1[i]);
            assert(s2.drop_last()[i] == s2[i]);
        }
        lemma_pass_weight_equivalence(s1.drop_last(), s2.drop_last(), m);
        lemma_passes_at_eqv(m, s1.last(), s2.last());
    }
}

/// How one criterion's recorded outcome relates to the rule and the
/// snapshot it was computed from: an unresolved reading is recorded as
/// the sentinel text.
pub open spec fn result_matches(c: Criterion, m: ValidatorMetrics, r: CriterionResult) -> bool {
    &&& r.criterion_name@ == c.name@
    &&& r.metric_key == c.metric
    &&& match spec_metric_value(m, c.metric) {
        Some(v) => r.your_value == v,
        None => r.your_value matches MetricValue::Text(t) && t@ == "unknown"@,
    }
    &&& constraint_eqv(r.required, c.constraint)
    &&& r.passed == spec_passes_at(m, c)
    &&& r.gap == spec_gap_at(m, c)
}

/// Whether a text list holds a given text (by content).
fn contains_string(opts: &Vec<String>, t: &String) -> (r: bool)
    ensures
        r == exists|i: int| 0 <= i < opts@.len() && #[trigger] opts@[i]@ == t@,
{
    let mut i: usize = 0;
    while i < opts.len()
        invariant
            0 <= i <= opts@.len(),
            forall|j: int| 0 <= j < i ==> #[trigger] opts@[j]@ != t@,
        decreases opts@.len() - i,
    {
        if opts[i] == *t {
            return true;
        }
        i = i + 1;
    }
    false
}

/// The fixed effort table by metric kind (§ effort heuristics): fee
/// metrics are trivial, reliability metrics depend on the distance,
/// stake size on the relative distance, concentration metrics are hard,
/// superminority standing is not remediable.
pub fn estimate_effort(metric: &MetricKey, delta: i64, required: i64) -> (r: EffortLevel)
    ensures
        r == spec_effort(*metric, delta as int, required as int),
{
    match metric {
        MetricKey::Commission | MetricKey::MevCommission => EffortLevel::Trivial,
        MetricKey::SkipRate | MetricKey::VoteCredits | MetricKey::UptimePercent => {
            if delta <= FP_SCALE {
                EffortLevel::Moderate
            } else {
                EffortLevel::Hard
            }
        },
        MetricKey::ActivatedStake => {
            if required <= 0 {
                EffortLevel::Impossible
            } else if (delta as i128) * 10 <= (required as i128) {
                EffortLevel::Moderate
            } else if (delta as i128) * 100 <= (required as i128) * 35 {
                EffortLevel::Hard
            } else {
                EffortLevel::Impossible
            }
        },
        MetricKey::DatacenterConcentration
        | MetricKey::InfrastructureDiversity
        | MetricKey::StakeConcentration => EffortLevel::Hard,
        MetricKey::SolanaVersion => EffortLevel::Trivial,
        MetricKey::SuperminorityStatus => EffortLevel::Impossible,
        MetricKey::Custom(_) => EffortLevel::Moderate,
    }
}

/// Matches one criterion against a snapshot: resolves the reading (an
/// unresolved custom name degrades to the failing sentinel text),
/// decides pass or fail, and records the numeric gap on a failed bound.
pub fn evaluate_criterion(validator: &ValidatorMetrics, criterion: &Criterion) -> (r:
    CriterionResult)
    requires
        validator.wf(),
        criterion_wf(*criterion),
    ensures
        result_matches(*criterion, *validator, r),
{
    let your_value = match validator.metric_value(&criterion.metric) {
        Some(v) => v,
        None => MetricValue::Text(String::from_str("unknown")),
    };
    proof {
        crate::metrics::lemma_metric_value_valid(*validator, criterion.metric);
    }
    let (passed, gap): (bool, Option<GapDetail>) = match (&your_value, &criterion.constraint) {
        (_, Constraint::Custom(_)) => (true, None),
        (MetricValue::Numeric(v), Constraint::Min(required)) => {
            if *v >= *required {
                (true, None)
            } else {
                let delta = *required - *v;
                (
                    false,
                    Some(
                        GapDetail {
                            metric_key: criterion.metric.clone(),
                            current_value: *v,
                            required_value: *required,
                            delta,
                            effort_estimate: estimate_effort(&criterion.metric, delta, *required),
                        },
                    ),
                )
            }
        },
        (MetricValue::Numeric(v), Constraint::Max(required)) => {
            if *v <= *required {
                (true, None)
            } else {
                let delta = *v - *required;
                (
                    false,
                    Some(
                        GapDetail {
                            metric_key: criterion.metric.clone(),
                            current_value: *v,
                            required_value: *required,
                            delta,
                            effort_estimate: estimate_effort(&criterion.metric, delta, *required),
                        },
                    ),
                )
            }
        },
        (MetricValue::Numeric(v), Constraint::Range { min, max }) => {
            if *min <= *v && *v <= *max {
                (true, None)
            } else if *v < *min {
                let delta = *min - *v;
                (
                    false,
                    Some(
                        GapDetail {
                            metric_key: criterion.metric.clone(),
                            current_value: *v,
                            required_value: *min,
                            delta,
                            effort_estimate: estimate_effort(&criterion.metric, delta, *min),
                        },
                    ),
                )
            } else {
                let delta = *v - *max;
                (
                    false,
                    Some(
                        GapDetail {
                            metric_key: criterion.metric.clone(),
                            current_value: *v,
                            required_value: *max,
                            delta,
                            effort_estimate: estimate_effort(&criterion.metric, delta, *max),
                        },
                    ),
                )
            }
        },
        (MetricValue::Text(v), Constraint::Equals(required)) => (str_equal(v, required), None),
        (MetricValue::Text(v), Constraint::OneOf(required)) => (contains_string(required, v), None),
        (MetricValue::Bool(v), Constraint::Boolean(required)) => (*v == *required, None),
        _ => (false, None),
    };

    CriterionResult {
        criterion_name: criterion.name.clone(),
        metric_key: criterion.metric.clone(),
        your_value,
        required: criterion.constraint.clone(),
        passed,
        gap,
    }
}

/// Whether two texts hold the same characters.
fn str_equal(a: &String, b: &String) -> (r: bool)
    ensures
        r == (a@ == b@),
{
    *a == *b
}

/// Everything `evaluate_validator` promises of its result, in one
/// predicate: the recorded program, one faithful outcome per rule, the
/// unweighted AND gate, the weighted score, and the estimate kept only
/// when eligible.
pub open spec fn spec_eval_ok(
    r: EligibilityResult,
    program: ProgramId,
    m: ValidatorMetrics,
    cs: CriteriaSet,
    est: Option<i64>,
) -> bool {
    &&& r.program == program
    &&& r.criterion_results@.len() == cs.criteria@.len()
    &&& forall|i: int|
        0 <= i < cs.criteria@.len() ==> result_matches(
            #[trigger] cs.criteria@[i],
            m,
            r.criterion_results@[i],
        )
    &&& r.eligible == all_pass(cs.criteria@, m)
    &&& r.score == spec_score(cs.criteria@, m)
    &&& r.estimated_delegation_sol == if r.eligible {
        est
    } else {
        None::<i64>
    }
}

/// Evaluates a snapshot against a program's rule set. The eligibility
/// gate is the unweighted AND over the per-criterion outcomes; the score
/// is the independent weighted pass ratio; the delegation estimate is
/// kept only when eligible.
pub fn evaluate_validator(
    program: ProgramId,
    validator: &ValidatorMetrics,
    criteria_set: &CriteriaSet,
    estimated_delegation_if_eligible: Option<i64>,
) -> (r: EligibilityResult)
    requires
        validator.wf(),
        criteria_set.wf(),
    ensures
        r.program == program,
        r.criterion_results@.len() == criteria_set.criteria@.len(),
        forall|i: int|
            0 <= i < criteria_set.criteria@.len() ==> result_matches(
                #[trigger] criteria_set.criteria@[i],
                *validator,
                r.criterion_results@[i],
            ),
        r.eligible == all_pass(criteria_set.criteria@, *validator),
        r.eligible == (forall|i: int|
            0 <= i < r.criterion_results@.len() ==> (#[trigger] r.criterion_results@[i]).passed),
        r.score == spec_score(criteria_set.criteria@, *validator),
        r.estimated_delegation_sol == if r.eligible {
            estimated_delegation_if_eligible
        } else {
            None::<i64>
        },
        spec_eval_ok(r, program, *validator, *criteria_set, estimated_delegation_if_eligible),
{
    let n = criteria_set.criteria.len();
    let mut criterion_results: Vec<CriterionResult> = Vec::new();
    let mut weighted_pass: i128 = 0;
    let mut weighted_total: i128 = 0;
    let mut eligible = true;
    let mut i: usize = 0;
    while i < n
        invariant
            0 <= i <= n,
            n == criteria_set.criteria@.len(),
            validator.wf(),
            criteria_set.wf(),
            criterion_results@.len() == i,
            forall|j: int|
                0 <= j < i ==> result_matches(
                    #[trigger] criteria_set.criteria@[j],
                    *validator,
                    criterion_results@[j],
                ),
            eligible == all_pass(criteria_set.criteria@.take(i as int), *validator),
            weighted_total == total_weight(criteria_set.criteria@.take(i as int)),
            weighted_pass == passed_weight(criteria_set.criteria@.take(i as int), *validator),
            0 <= weighted_pass <= weighted_total,
            weighted_total <= (i as int) * (FP_LIMIT as int),
        decreases n - i,
    {
        let criterion = &criteria_set.criteria[i];
        let result = evaluate_criterion(validator, criterion);
        let weight = match criterion.weight {
            Some(w) => {
                if w < 0 {
                    0i64
                } else {
                    w
                }
            },
            None => FP_SCALE,
        };
        proof {
            assert(weight as int == weight_of(criteria_set.criteria@[i as int]));
            assert(0 <= weight as int <= FP_LIMIT as int);
            vstd::arithmetic::mul::lemma_mul_inequality(
                i as int + 1,
                usize::MAX as int + 1,
                FP_LIMIT as int,
            );
            assert(criteria_set.criteria@.take(i as int + 1).drop_last() =~= criteria_set.criteria@
                .take(i as int));
            assert(criteria_set.criteria@.take(i as int + 1).last() == criteria_set.criteria@[
            i as int]);
        }
        weighted_total = weighted_total + weight as i128;
        if result.passed {
            weighted_pass = weighted_pass + weight as i128;
        }
        let ghost pre = criterion_results@;
        if !result.passed {
            eligible = false;
        }
        criterion_results.push(result);
        proof {
            assert forall|j: int| 0 <= j < i + 1 implies result_matches(
                #[trigger] criteria_set.criteria@[j],
                *validator,
                criterion_results@[j],
            ) by {
                if j < i {
                    assert(criterion_results@[j] == pre[j]);
                }
            }
            let s1 = criteria_set.criteria@.take(i as int + 1);
            assert(eligible == all_pass(s1, *validator)) by {
                let s0 = criteria_set.criteria@.take(i as int);
                if eligible {
                    assert forall|k: int| 0 <= k < s1.len() implies spec_passes_at(
                        *validator,
                        #[trigger] s1[k],
                    ) by {
                        if k < i {
                            assert(s0[k] == s1[k]);
                        } else {
                            assert(s1[k] == criteria_set.criteria@[i as int]);
                        }
                    }
                } else {
                    if !all_pass(s0, *validator) {
                        let k = choose|k: int|
                            0 <= k < s0.len() && !spec_passes_at(*validator, #[trigger] s0[k]);
                        assert(s1[k] == s0[k]);
                        assert(!all_pass(s1, *validator));
                    } else {
                        assert(s1[i as int] == criteria_set.criteria@[i as int]);
                        assert(!all_pass(s1, *validator));
                    }
                }
            }
        }
        i = i + 1;
    }
    proof {
        assert(criteria_set.criteria@.take(n as int) =~= criteria_set.criteria@);
    }
    let score: Option<i64> = if weighted_total > 0 {
        proof {
            vstd::arithmetic::mul::lemma_mul_inequality(
                weighted_pass as int,
                weighted_total as int,
                FP_SCALE as int,
            );
            vstd::arithmetic::div_mod::lemma_div_is_ordered(
                weighted_pass as int * FP_SCALE as int,
                weighted_total as int * FP_SCALE as int,
                weighted_total as int,
            );
            vstd::arithmetic::div_mod::lemma_div_by_multiple(
                FP_SCALE as int,
                weighted_total as int,
            );
            assert(weighted_total as int * FP_SCALE as int == FP_SCALE as int * weighted_total
                as int) by (nonlinear_arith);
            vstd::arithmetic::div_mod::lemma_div_is_ordered(
                0,
                weighted_pass as int * FP_SCALE as int,
                weighted_total as int,
            );
        }
        Some(((weighted_pass * (FP_SCALE as i128)) / weighted_total) as i64)
    } else {
        None
    };
    let estimated_delegation_sol = if eligible {
        estimated_delegation_if_eligible
    } else {
        None
    };
    proof {
        if eligible {
            assert forall|j: int| 0 <= j < criterion_results@.len() implies (
            #[trigger] criterion_results@[j]).passed by {
                assert(result_matches(
                    criteria_set.criteria@[j],
                    *validator,
                    criterion_results@[j],
                ));
            }
        } else {
            let k = choose|k: int|
                0 <= k < criteria_set.criteria@.len() && !spec_passes_at(
                    *validator,
                    #[trigger] criteria_set.criteria@[k],
                );
            assert(result_matches(criteria_set.criteria@[k], *validator, criterion_results@[k]));
            assert(!criterion_results@[k].passed);
        }
    }
    EligibilityResult { program, eligible, score, criterion_results, estimated_delegation_sol }
}

} // verus!
