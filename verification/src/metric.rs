use vstd::prelude::*;

use crate::text::{chars_to_string, norm_metric_ident, normalize_chars, str_eq};

verus! {

/// A measurable attribute of a validator. The well-known attributes are
/// closed variants; `Custom` carries an opaque attribute name.
#[derive(Debug)]
pub enum MetricKey {
    Commission,
    ActivatedStake,
    SkipRate,
    VoteCredits,
    UptimePercent,
    SolanaVersion,
    DatacenterConcentration,
    SuperminorityStatus,
    MevCommission,
    StakeConcentration,
    InfrastructureDiversity,
    Custom(String),
}

/// A reading of one metric: a fixed-point number, a text, or a flag.
#[derive(Debug)]
pub enum MetricValue {
    Numeric(i64),
    Text(String),
    Bool(bool),
}

/// A requirement a program places on one metric. Numeric bounds are
/// fixed-point quantities. `Custom` constraints always pass.
#[derive(Debug)]
pub enum Constraint {
    Min(i64),
    Max(i64),
    Range { min: i64, max: i64 },
    Equals(String),
    OneOf(Vec<String>),
    Boolean(bool),
    Custom(String),
}

/// One named rule: a metric, a constraint on it, an optional weight
/// (fixed-point; absent means one), and a description.
#[derive(Debug)]
pub struct Criterion {
    pub name: String,
    pub metric: MetricKey,
    pub constraint: Constraint,
    pub weight: Option<i64>,
    pub description: String,
}

/// Whether two metric keys denote the same attribute (custom keys
/// compare by name).
pub open spec fn key_eqv(a: MetricKey, b: MetricKey) -> bool {
    match (a, b) {
        (MetricKey::Commission, MetricKey::Commission) => true,
        (MetricKey::ActivatedStake, MetricKey::ActivatedStake) => true,
        (MetricKey::SkipRate, MetricKey::SkipRate) => true,
        (MetricKey::VoteCredits, MetricKey::VoteCredits) => true,
        (MetricKey::UptimePercent, MetricKey::UptimePercent) => true,
        (MetricKey::SolanaVersion, MetricKey::SolanaVersion) => true,
        (MetricKey::DatacenterConcentration, MetricKey::DatacenterConcentration) => true,
        (MetricKey::SuperminorityStatus, MetricKey::SuperminorityStatus) => true,
        (MetricKey::MevCommission, MetricKey::MevCommission) => true,
        (MetricKey::StakeConcentration, MetricKey::StakeConcentration) => true,
        (MetricKey::InfrastructureDiversity, MetricKey::InfrastructureDiversity) => true,
        (MetricKey::Custom(x), MetricKey::Custom(y)) => x@ == y@,
        _ => false,
    }
}

/// Whether two constraints are the same requirement (texts compare by
/// content).
pub open spec fn constraint_eqv(a: Constraint, b: Constraint) -> bool {
    match (a, b) {
        (Constraint::Min(x), Constraint::Min(y)) => x == y,
        (Constraint::Max(x), Constraint::Max(y)) => x == y,
        (Constraint::Range { min: xl, max: xh }, Constraint::Range { min: yl, max: yh }) => xl
            == yl && xh == yh,
        (Constraint::Equals(x), Constraint::Equals(y)) => x@ == y@,
        (Constraint::OneOf(xs), Constraint::OneOf(ys)) => xs@.len() == ys@.len() && (forall|i: int|
            0 <= i < xs@.len() ==> xs@[i]@ == ys@[i]@),
        (Constraint::Boolean(x), Constraint::Boolean(y)) => x == y,
        (Constraint::Custom(x), Constraint::Custom(y)) => x@ == y@,
        _ => false,
    }
}

/// The mathematical content of a constraint: numeric payloads as exact
/// integers, texts as character sequences.
pub enum ConstraintView {
    Min(int),
    Max(int),
    Range(int, int),
    Equals(Seq<char>),
    OneOf(Seq<Seq<char>>),
    Boolean(bool),
    Custom(Seq<char>),
}

pub open spec fn constraint_view(c: Constraint) -> ConstraintView {
    match c {
        Constraint::Min(v) => ConstraintView::Min(v as int),
        Constraint::Max(v) => ConstraintView::Max(v as int),
        Constraint::Range { min, max } => ConstraintView::Range(min as int, max as int),
        Constraint::Equals(s) => ConstraintView::Equals(s@),
        Constraint::OneOf(items) => ConstraintView::OneOf(
            items@.map_values(|s: String| s@),
        ),
        Constraint::Boolean(b) => ConstraintView::Boolean(b),
        Constraint::Custom(s) => ConstraintView::Custom(s@),
    }
}

/// Equivalent constraints have equal views.
pub proof fn lemma_constraint_eqv_view(a: Constraint, b: Constraint)
    requires
        constraint_eqv(a, b),
    ensures
        constraint_view(a) == constraint_view(b),
{
    match (a, b) {
        (Constraint::OneOf(xs), Constraint::OneOf(ys)) => {
            assert(xs@.map_values(|s: String| s@) =~= ys@.map_values(|s: String| s@));
        },
        _ => {},
    }
}

/// The rendered name of a metric key.
pub open spec fn key_text(k: MetricKey) -> Seq<char> {
    match k {
        MetricKey::Commission => "commission"@,
        MetricKey::ActivatedStake => "activated_stake"@,
        MetricKey::SkipRate => "skip_rate"@,
        MetricKey::VoteCredits => "vote_credits"@,
        MetricKey::UptimePercent => "uptime_percent"@,
        MetricKey::SolanaVersion => "solana_version"@,
        MetricKey::DatacenterConcentration => "datacenter_concentration"@,
        MetricKey::SuperminorityStatus => "superminority_status"@,
        MetricKey::MevCommission => "mev_commission"@,
        MetricKey::StakeConcentration => "stake_concentration"@,
        MetricKey::InfrastructureDiversity => "infrastructure_diversity"@,
        MetricKey::Custom(name) => name@,
    }
}

impl MetricKey {
    /// The rendered name of this key, as reports show it.
    pub fn display_string(&self) -> (r: String)
        ensures
            r@ == key_text(*self),
    {
        match self {
            MetricKey::Commission => String::from_str("commission"),
            MetricKey::ActivatedStake => String::from_str("activated_stake"),
            MetricKey::SkipRate => String::from_str("skip_rate"),
            MetricKey::VoteCredits => String::from_str("vote_credits"),
            MetricKey::UptimePercent => String::from_str("uptime_percent"),
            MetricKey::SolanaVersion => String::from_str("solana_version"),
            MetricKey::DatacenterConcentration => String::from_str("datacenter_concentration"),
            MetricKey::SuperminorityStatus => String::from_str("superminority_status"),
            MetricKey::MevCommission => String::from_str("mev_commission"),
            MetricKey::StakeConcentration => String::from_str("stake_concentration"),
            MetricKey::InfrastructureDiversity => String::from_str("infrastructure_diversity"),
            MetricKey::Custom(name) => name.clone(),
        }
    }
}

/// Whether two criteria agree in every field (texts compare by content).
pub open spec fn criterion_eqv(a: Criterion, b: Criterion) -> bool {
    &&& a.name@ == b.name@
    &&& key_eqv(a.metric, b.metric)
    &&& constraint_eqv(a.constraint, b.constraint)
    &&& a.weight == b.weight
    &&& a.description@ == b.description@
}

impl MetricKey {
    /// Equality test whose result is `key_eqv`.
    pub fn eqv(&self, other: &MetricKey) -> (r: bool)
        ensures
            r == key_eqv(*self, *other),
    {
        match (self, other) {
            (MetricKey::Commission, MetricKey::Commission) => true,
            (MetricKey::ActivatedStake, MetricKey::ActivatedStake) => true,
            (MetricKey::SkipRate, MetricKey::SkipRate) => true,
            (MetricKey::VoteCredits, MetricKey::VoteCredits) => true,
            (MetricKey::UptimePercent, MetricKey::UptimePercent) => true,
            (MetricKey::SolanaVersion, MetricKey::SolanaVersion) => true,
            (MetricKey::DatacenterConcentration, MetricKey::DatacenterConcentration) => true,
            (MetricKey::SuperminorityStatus, MetricKey::SuperminorityStatus) => true,
            (MetricKey::MevCommission, MetricKey::MevCommission) => true,
            (MetricKey::StakeConcentration, MetricKey::StakeConcentration) => true,
            (MetricKey::InfrastructureDiversity, MetricKey::InfrastructureDiversity) => true,
            (MetricKey::Custom(x), MetricKey::Custom(y)) => *x == *y,
            _ => false,
        }
    }
}

impl Constraint {
    /// Equality test whose result is `constraint_eqv`.
    pub fn eqv(&self, other: &Constraint) -> (r: bool)
        ensures
            r == constraint_eqv(*self, *other),
    {
        match (self, other) {
            (Constraint::Min(x), Constraint::Min(y)) => *x == *y,
            (Constraint::Max(x), Constraint::Max(y)) => *x == *y,
            (Constraint::Range { min: xl, max: xh }, Constraint::Range { min: yl, max: yh }) => *xl
                == *yl && *xh == *yh,
            (Constraint::Equals(x), Constraint::Equals(y)) => *x == *y,
            (Constraint::OneOf(xs), Constraint::OneOf(ys)) => string_lists_equal(xs, ys),
            (Constraint::Boolean(x), Constraint::Boolean(y)) => *x == *y,
            (Constraint::Custom(x), Constraint::Custom(y)) => *x == *y,
            _ => false,
        }
    }
}

/// Whether two text lists agree element by element.
fn string_lists_equal(xs: &Vec<String>, ys: &Vec<String>) -> (r: bool)
    ensures
        r == (xs@.len() == ys@.len() && (forall|i: int|
            0 <= i < xs@.len() ==> #[trigger] xs@[i]@ == ys@[i]@)),
{
    if xs.len() != ys.len() {
        return false;
    }
    let mut i: usize = 0;
    while i < xs.len()
        invariant
            0 <= i <= xs@.len(),
            xs@.len() == ys@.len(),
            forall|j: int| 0 <= j < i ==> #[trigger] xs@[j]@ == ys@[j]@,
        decreases xs@.len() - i,
    {
        if !(xs[i] == ys[i]) {
            return false;
        }
        i = i + 1;
    }
    true
}

/// An empty metric name, returned with the raw input inside.
#[derive(Debug)]
pub struct MetricKeyParseError(pub String);

impl MetricKey {
    /// Recognises a metric name, after trimming, lower-casing, and
    /// folding dashes to underscores. The well-known names and their
    /// aliases map to the closed variants; any other non-empty name maps
    /// to a custom key carrying the folded form; an empty name is
    /// rejected with the raw input.
    pub fn from_str(s: &str) -> (r: Result<MetricKey, MetricKeyParseError>)
        ensures
            match r {
                Ok(k) => {
                    let n = norm_metric_ident(s@);
                    match k {
                        MetricKey::Commission => n == "commission"@,
                        MetricKey::ActivatedStake => n == "activated_stake"@ || n == "stake"@ || n
                            == "active_stake"@,
                        MetricKey::SkipRate => n == "skip_rate"@,
                        MetricKey::VoteCredits => n == "vote_credits"@ || n == "credits"@,
                        MetricKey::UptimePercent => n == "uptime_percent"@ || n == "uptime"@,
                        MetricKey::SolanaVersion => n == "solana_version"@ || n == "version"@,
                        MetricKey::DatacenterConcentration => n == "datacenter_concentration"@ || n
                            == "dc_concentration"@,
                        MetricKey::SuperminorityStatus => n == "superminority_status"@ || n
                            == "superminority"@,
                        MetricKey::MevCommission => n == "mev_commission"@,
                        MetricKey::StakeConcentration => n == "stake_concentration"@,
                        MetricKey::InfrastructureDiversity => n == "infrastructure_diversity"@ || n
                            == "infra_diversity"@,
                        MetricKey::Custom(name) => name@ == n && n.len() > 0,
                    }
                },
                Err(e) => norm_metric_ident(s@).len() == 0 && e.0@ == s@,
            },
    {
        let chars = normalize_chars(s, true);
        let norm = chars_to_string(&chars);
        let n = norm.as_str();
        if str_eq(n, "commission") {
            Ok(MetricKey::Commission)
        } else if str_eq(n, "activated_stake") || str_eq(n, "stake") || str_eq(n, "active_stake") {
            Ok(MetricKey::ActivatedStake)
        } else if str_eq(n, "skip_rate") {
            Ok(MetricKey::SkipRate)
        } else if str_eq(n, "vote_credits") || str_eq(n, "credits") {
            Ok(MetricKey::VoteCredits)
        } else if str_eq(n, "uptime_percent") || str_eq(n, "uptime") {
            Ok(MetricKey::UptimePercent)
        } else if str_eq(n, "solana_version") || str_eq(n, "version") {
            Ok(MetricKey::SolanaVersion)
        } else if str_eq(n, "datacenter_concentration") || str_eq(n, "dc_concentration") {
            Ok(MetricKey::DatacenterConcentration)
        } else if str_eq(n, "superminority_status") || str_eq(n, "superminority") {
            Ok(MetricKey::SuperminorityStatus)
        } else if str_eq(n, "mev_commission") {
            Ok(MetricKey::MevCommission)
        } else if str_eq(n, "stake_concentration") {
            Ok(MetricKey::StakeConcentration)
        } else if str_eq(n, "infrastructure_diversity") || str_eq(n, "infra_diversity") {
            Ok(MetricKey::InfrastructureDiversity)
        } else if norm.as_str().unicode_len() == 0 {
            Err(MetricKeyParseError(s.to_owned()))
        } else {
            Ok(MetricKey::Custom(norm))
        }
    }
}

impl Clone for MetricKey {
    fn clone(&self) -> (r: Self)
        ensures
            r == *self,
    {
        match self {
            MetricKey::Commission => MetricKey::Commission,
            MetricKey::ActivatedStake => MetricKey::ActivatedStake,
            MetricKey::SkipRate => MetricKey::SkipRate,
            MetricKey::VoteCredits => MetricKey::VoteCredits,
            MetricKey::UptimePercent => MetricKey::UptimePercent,
            MetricKey::SolanaVersion => MetricKey::SolanaVersion,
            MetricKey::DatacenterConcentration => MetricKey::DatacenterConcentration,
            MetricKey::SuperminorityStatus => MetricKey::SuperminorityStatus,
            MetricKey::MevCommission => MetricKey::MevCommission,
            MetricKey::StakeConcentration => MetricKey::StakeConcentration,
            MetricKey::InfrastructureDiversity => MetricKey::InfrastructureDiversity,
            MetricKey::Custom(s) => MetricKey::Custom(s.clone()),
        }
    }
}

impl Clone for MetricValue {
    fn clone(&self) -> (r: Self)
        ensures
            r == *self,
    {
        match self {
            MetricValue::Numeric(v) => MetricValue::Numeric(*v),
            MetricValue::Text(s) => MetricValue::Text(s.clone()),
            MetricValue::Bool(b) => MetricValue::Bool(*b),
        }
    }
}

impl Clone for Constraint {
    fn clone(&self) -> (r: Self)
        ensures
            constraint_eqv(r, *self),
    {
        match self {
            Constraint::Min(v) => Constraint::Min(*v),
            Constraint::Max(v) => Constraint::Max(*v),
            Constraint::Range { min, max } => Constraint::Range { min: *min, max: *max },
            Constraint::Equals(s) => Constraint::Equals(s.clone()),
            Constraint::OneOf(items) => Constraint::OneOf(clone_strings(items)),
            Constraint::Boolean(b) => Constraint::Boolean(*b),
            Constraint::Custom(s) => Constraint::Custom(s.clone()),
        }
    }
}

impl Clone for Criterion {
    fn clone(&self) -> (r: Self)
        ensures
            criterion_eqv(r, *self),
    {
        Criterion {
            name: self.name.clone(),
            metric: self.metric.clone(),
            constraint: self.constraint.clone(),
            weight: match &self.weight {
                Some(w) => Some(*w),
                None => None,
            },
            description: self.description.clone(),
        }
    }
}

/// Element-wise copy of a list of strings.
fn clone_strings(items: &Vec<String>) -> (r: Vec<String>)
    ensures
        r@ == items@,
{
    let mut out: Vec<String> = Vec::new();
    let mut i: usize = 0;
    while i < items.len()
        invariant
            0 <= i <= items@.len(),
            out@ =~= items@.subrange(0, i as int),
        decreases items@.len() - i,
    {
        out.push(items[i].clone());
        i = i + 1;
    }
    proof {
        assert(out@ =~= items@);
    }
    out
}

} // verus!
