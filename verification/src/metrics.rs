use vstd::prelude::*;

use crate::metric::{key_eqv, MetricKey, MetricValue};
use crate::{fp_valid, FP_LIMIT, FP_SCALE};

verus! {

/// One snapshot of a validator's measurable attributes. Fractional
/// quantities are fixed-point (multiples of one ten-thousandth).
/// `custom_numeric` is a name-keyed list of extension readings in which
/// an earlier entry shadows any later entry with the same name.
#[derive(Debug)]
pub struct ValidatorMetrics {
    pub vote_pubkey: String,
    pub commission: i64,
    pub activated_stake: i64,
    pub skip_rate: i64,
    pub vote_credits: i64,
    pub uptime_percent: i64,
    pub solana_version: String,
    pub datacenter_concentration: i64,
    pub superminority_status: bool,
    pub mev_commission: i64,
    pub stake_concentration: i64,
    pub infrastructure_diversity: i64,
    pub custom_numeric: Vec<(String, i64)>,
}

/// The reading stored for a custom metric name: the value of the first
/// entry with that name, absent when no entry carries it.
pub open spec fn custom_value(entries: Seq<(String, i64)>, name: Seq<char>) -> Option<i64>
    decreases entries.len(),
{
    if entries.len() == 0 {
        None
    } else if entries[0].0@ == name {
        Some(entries[0].1)
    } else {
        custom_value(entries.skip(1), name)
    }
}

/// The reading a metrics snapshot holds for a key: every well-known key
/// resolves to its typed field; a custom key resolves only when an entry
/// carries its name. An unresolved key degrades, in the evaluator, to
/// the failing sentinel rather than to any default reading.
pub open spec fn spec_metric_value(m: ValidatorMetrics, key: MetricKey) -> Option<MetricValue> {
    match key {
        MetricKey::Commission => Some(MetricValue::Numeric(m.commission)),
        MetricKey::ActivatedStake => Some(MetricValue::Numeric(m.activated_stake)),
        MetricKey::SkipRate => Some(MetricValue::Numeric(m.skip_rate)),
        MetricKey::VoteCredits => Some(MetricValue::Numeric(m.vote_credits)),
        MetricKey::UptimePercent => Some(MetricValue::Numeric(m.uptime_percent)),
        MetricKey::SolanaVersion => Some(MetricValue::Text(m.solana_version)),
        MetricKey::DatacenterConcentration => Some(MetricValue::Numeric(m.datacenter_concentration)),
        MetricKey::SuperminorityStatus => Some(MetricValue::Bool(m.superminority_status)),
        MetricKey::MevCommission => Some(MetricValue::Numeric(m.mev_commission)),
        MetricKey::StakeConcentration => Some(MetricValue::Numeric(m.stake_concentration)),
        MetricKey::InfrastructureDiversity => Some(MetricValue::Numeric(m.infrastructure_diversity)),
        MetricKey::Custom(name) => match custom_value(m.custom_numeric@, name@) {
            Some(v) => Some(MetricValue::Numeric(v)),
            None => None,
        },
    }
}

/// Whether a key maps to a numeric field that simulation may rewrite.
pub open spec fn key_is_numeric(key: MetricKey) -> bool {
    !(key is SolanaVersion) && !(key is SuperminorityStatus)
}

impl ValidatorMetrics {
    /// All numeric readings stay within the global fixed-point bound.
    pub open spec fn wf(self) -> bool {
        &&& fp_valid(self.commission)
        &&& fp_valid(self.activated_stake)
        &&& fp_valid(self.skip_rate)
        &&& fp_valid(self.vote_credits)
        &&& fp_valid(self.uptime_percent)
        &&& fp_valid(self.datacenter_concentration)
        &&& fp_valid(self.mev_commission)
        &&& fp_valid(self.stake_concentration)
        &&& fp_valid(self.infrastructure_diversity)
        &&& forall|i: int|
            0 <= i < self.custom_numeric@.len() ==> fp_valid(#[trigger] self.custom_numeric@[i].1)
    }

    /// A demonstration snapshot with plausible mid-field readings.
    pub fn sample(vote_pubkey: String) -> (r: ValidatorMetrics)
        ensures
            r.vote_pubkey == vote_pubkey,
            r.commission == 50_000int,
            r.activated_stake == 1_560_000_000int,
            r.skip_rate == 32_000int,
            r.vote_credits == 985_000int,
            r.uptime_percent == 991_000int,
            r.solana_version@ == "1.18.26"@,
            r.datacenter_concentration == 560_000int,
            r.superminority_status == false,
            r.mev_commission == 80_000int,
            r.stake_concentration == 1_800int,
            r.infrastructure_diversity == 6_500int,
            r.custom_numeric@.len() == 0,
            r.wf(),
    {
        ValidatorMetrics {
            vote_pubkey,
            commission: 50_000,
            activated_stake: 1_560_000_000,
            skip_rate: 32_000,
            vote_credits: 985_000,
            uptime_percent: 991_000,
            solana_version: String::from_str("1.18.26"),
            datacenter_concentration: 560_000,
            superminority_status: false,
            mev_commission: 80_000,
            stake_concentration: 1_800,
            infrastructure_diversity: 6_500,
            custom_numeric: Vec::new(),
        }
    }

    /// The reading for a key, absent when a custom name is unset (the
    /// evaluator then substitutes the failing sentinel).
    pub fn metric_value(&self, key: &MetricKey) -> (r: Option<MetricValue>)
        ensures
            r == spec_metric_value(*self, *key),
    {
        match key {
            MetricKey::Commission => Some(MetricValue::Numeric(self.commission)),
            MetricKey::ActivatedStake => Some(MetricValue::Numeric(self.activated_stake)),
            MetricKey::SkipRate => Some(MetricValue::Numeric(self.skip_rate)),
            MetricKey::VoteCredits => Some(MetricValue::Numeric(self.vote_credits)),
            MetricKey::UptimePercent => Some(MetricValue::Numeric(self.uptime_percent)),
            MetricKey::SolanaVersion => Some(MetricValue::Text(self.solana_version.clone())),
            MetricKey::DatacenterConcentration => Some(
                MetricValue::Numeric(self.datacenter_concentration),
            ),
            MetricKey::SuperminorityStatus => Some(MetricValue::Bool(self.superminority_status)),
            MetricKey::MevCommission => Some(MetricValue::Numeric(self.mev_commission)),
            MetricKey::StakeConcentration => Some(MetricValue::Numeric(self.stake_concentration)),
            MetricKey::InfrastructureDiversity => Some(
                MetricValue::Numeric(self.infrastructure_diversity),
            ),
            MetricKey::Custom(name) => match self.custom_lookup(name) {
                Some(v) => Some(MetricValue::Numeric(v)),
                None => None,
            },
        }
    }

    /// The numeric reading a simulation works with: text and flag metrics
    /// have none; every other key reads its value, an unset custom name
    /// counting as zero.
    pub fn numeric_metric(&self, key: &MetricKey) -> (r: Option<i64>)
        ensures
            r == if key_is_numeric(*key) {
                Some(spec_numeric_default(*self, *key))
            } else {
                None::<i64>
            },
    {
        match self.metric_value(key) {
            Some(MetricValue::Numeric(v)) => Some(v),
            Some(_) => None,
            None => Some(0),
        }
    }

    /// First-match lookup in the custom readings.
    fn custom_lookup(&self, name: &String) -> (r: Option<i64>)
        ensures
            r == custom_value(self.custom_numeric@, name@),
    {
        let n = self.custom_numeric.len();
        let mut i: usize = 0;
        proof {
            assert(self.custom_numeric@.skip(0) =~= self.custom_numeric@);
        }
        while i < n
            invariant
                0 <= i <= n,
                n == self.custom_numeric@.len(),
                custom_value(self.custom_numeric@, name@) == custom_value(
                    self.custom_numeric@.skip(i as int),
                    name@,
                ),
            decreases n - i,
        {
            if self.custom_numeric[i].0 == *name {
                proof {
                    assert(self.custom_numeric@.skip(i as int)[0] == self.custom_numeric@[
                    i as int]);
                }
                return Some(self.custom_numeric[i].1);
            }
            proof {
                assert(self.custom_numeric@.skip(i as int).skip(1) =~= self.custom_numeric@.skip(
                    i as int + 1,
                ));
            }
            i = i + 1;
        }
        None
    }

    /// Rewrites the reading of one numeric metric; text and flag metrics
    /// reject the change and leave the snapshot untouched.
    pub fn apply_numeric_change(&mut self, key: &MetricKey, to: i64) -> (r: bool)
        ensures
            r == key_is_numeric(*key),
            r ==> spec_metric_value(*final(self), *key) == Some(MetricValue::Numeric(to)),
            r ==> forall|k2: MetricKey|
                !key_eqv(k2, *key) ==> #[trigger] spec_metric_value(*final(self), k2)
                    == spec_metric_value(*old(self), k2),
            r ==> final(self).vote_pubkey == old(self).vote_pubkey && final(self).solana_version
                == old(self).solana_version && final(self).superminority_status == old(
                self,
            ).superminority_status,
            !r ==> *final(self) == *old(self),
            old(self).wf() && fp_valid(to) ==> final(self).wf(),
    {
        match key {
            MetricKey::Commission => {
                self.commission = to;
                true
            },
            MetricKey::ActivatedStake => {
                self.activated_stake = to;
                true
            },
            MetricKey::SkipRate => {
                self.skip_rate = to;
                true
            },
            MetricKey::VoteCredits => {
                self.vote_credits = to;
                true
            },
            MetricKey::UptimePercent => {
                self.uptime_percent = to;
                true
            },
            MetricKey::DatacenterConcentration => {
                self.datacenter_concentration = to;
                true
            },
            MetricKey::MevCommission => {
                self.mev_commission = to;
                true
            },
            MetricKey::StakeConcentration => {
                self.stake_concentration = to;
                true
            },
            MetricKey::InfrastructureDiversity => {
                self.infrastructure_diversity = to;
                true
            },
            MetricKey::Custom(name) => {
                self.custom_numeric.insert(0, (name.clone(), to));
                proof {
                    assert(self.custom_numeric@.skip(1) =~= old(self).custom_numeric@);
                }
                true
            },
            MetricKey::SolanaVersion | MetricKey::SuperminorityStatus => false,
        }
    }
}

/// Whether two snapshots agree in every field (the custom readings by
/// content).
pub open spec fn metrics_eqv(a: ValidatorMetrics, b: ValidatorMetrics) -> bool {
    &&& a.vote_pubkey == b.vote_pubkey
    &&& a.commission == b.commission
    &&& a.activated_stake == b.activated_stake
    &&& a.skip_rate == b.skip_rate
    &&& a.vote_credits == b.vote_credits
    &&& a.uptime_percent == b.uptime_percent
    &&& a.solana_version == b.solana_version
    &&& a.datacenter_concentration == b.datacenter_concentration
    &&& a.superminority_status == b.superminority_status
    &&& a.mev_commission == b.mev_commission
    &&& a.stake_concentration == b.stake_concentration
    &&& a.infrastructure_diversity == b.infrastructure_diversity
    &&& a.custom_numeric@ == b.custom_numeric@
}

/// Keys that denote the same attribute read the same value from any
/// snapshot.
pub proof fn lemma_key_eqv_same_reading(m: ValidatorMetrics, a: MetricKey, b: MetricKey)
    requires
        key_eqv(a, b),
    ensures
        spec_metric_value(m, a) == spec_metric_value(m, b),
{
}

/// Snapshots that agree in every field hold the same readings.
pub proof fn lemma_metrics_eqv_same_readings(a: ValidatorMetrics, b: ValidatorMetrics)
    requires
        metrics_eqv(a, b),
    ensures
        forall|k: MetricKey| spec_metric_value(a, k) == spec_metric_value(b, k),
{
}

impl Clone for ValidatorMetrics {
    fn clone(&self) -> (r: Self)
        ensures
            metrics_eqv(r, *self),
    {
        let mut custom_numeric: Vec<(String, i64)> = Vec::new();
        let mut i: usize = 0;
        while i < self.custom_numeric.len()
            invariant
                0 <= i <= self.custom_numeric@.len(),
                custom_numeric@ =~= self.custom_numeric@.subrange(0, i as int),
            decreases self.custom_numeric@.len() - i,
        {
            custom_numeric.push((self.custom_numeric[i].0.clone(), self.custom_numeric[i].1));
            i = i + 1;
        }
        proof {
            assert(custom_numeric@ =~= self.custom_numeric@);
        }
        ValidatorMetrics {
            vote_pubkey: self.vote_pubkey.clone(),
            commission: self.commission,
            activated_stake: self.activated_stake,
            skip_rate: self.skip_rate,
            vote_credits: self.vote_credits,
            uptime_percent: self.uptime_percent,
            solana_version: self.solana_version.clone(),
            datacenter_concentration: self.datacenter_concentration,
            superminority_status: self.superminority_status,
            mev_commission: self.mev_commission,
            stake_concentration: self.stake_concentration,
            infrastructure_diversity: self.infrastructure_diversity,
            custom_numeric,
        }
    }
}

/// A stored custom reading stays within the global bound when every
/// stored entry does.
pub proof fn lemma_custom_value_valid(entries: Seq<(String, i64)>, name: Seq<char>)
    requires
        forall|i: int| 0 <= i < entries.len() ==> fp_valid(#[trigger] entries[i].1),
    ensures
        match custom_value(entries, name) {
            Some(v) => fp_valid(v),
            None => true,
        },
    decreases entries.len(),
{
    if entries.len() > 0 && entries[0].0@ != name {
        lemma_custom_value_valid(entries.skip(1), name);
    }
}

/// Every numeric reading of a well-formed snapshot stays within the
/// global bound.
pub proof fn lemma_metric_value_valid(m: ValidatorMetrics, key: MetricKey)
    requires
        m.wf(),
    ensures
        spec_metric_value(m, key) matches Some(MetricValue::Numeric(x)) ==> fp_valid(x),
{
    if let MetricKey::Custom(name) = key {
        lemma_custom_value_valid(m.custom_numeric@, name@);
    }
}

/// Optional replacement readings supplied at a boundary (command line
/// or request body) and applied over a collected snapshot.
#[derive(Debug)]
pub struct MetricOverrides {
    pub commission: Option<i64>,
    pub activated_stake: Option<i64>,
    pub skip_rate: Option<i64>,
    pub vote_credits: Option<i64>,
    pub uptime_percent: Option<i64>,
    pub solana_version: Option<String>,
    pub datacenter_concentration: Option<i64>,
    pub superminority_status: Option<bool>,
    pub mev_commission: Option<i64>,
    pub stake_concentration: Option<i64>,
    pub infrastructure_diversity: Option<i64>,
}

impl MetricOverrides {
    /// No replacements at all.
    pub fn none() -> (r: MetricOverrides)
        ensures
            r.commission is None,
            r.activated_stake is None,
            r.skip_rate is None,
            r.vote_credits is None,
            r.uptime_percent is None,
            r.solana_version is None,
            r.datacenter_concentration is None,
            r.superminority_status is None,
            r.mev_commission is None,
            r.stake_concentration is None,
            r.infrastructure_diversity is None,
    {
        MetricOverrides {
            commission: None,
            activated_stake: None,
            skip_rate: None,
            vote_credits: None,
            uptime_percent: None,
            solana_version: None,
            datacenter_concentration: None,
            superminority_status: None,
            mev_commission: None,
            stake_concentration: None,
            infrastructure_diversity: None,
        }
    }
}

/// The value an override leaves in a field.
pub open spec fn overridden(field: i64, o: Option<i64>) -> i64 {
    match o {
        Some(v) => v,
        None => field,
    }
}

/// Replaces each field for which an override value was supplied.
pub fn apply_overrides(metrics: &mut ValidatorMetrics, overrides: &MetricOverrides)
    ensures
        final(metrics).commission == overridden(old(metrics).commission, overrides.commission),
        final(metrics).activated_stake == overridden(
            old(metrics).activated_stake,
            overrides.activated_stake,
        ),
        final(metrics).skip_rate == overridden(old(metrics).skip_rate, overrides.skip_rate),
        final(metrics).vote_credits == overridden(
            old(metrics).vote_credits,
            overrides.vote_credits,
        ),
        final(metrics).uptime_percent == overridden(
            old(metrics).uptime_percent,
            overrides.uptime_percent,
        ),
        final(metrics).solana_version@ == (match overrides.solana_version {
            Some(v) => v@,
            None => old(metrics).solana_version@,
        }),
        final(metrics).datacenter_concentration == overridden(
            old(metrics).datacenter_concentration,
            overrides.datacenter_concentration,
        ),
        final(metrics).superminority_status == (match overrides.superminority_status {
            Some(v) => v,
            None => old(metrics).superminority_status,
        }),
        final(metrics).mev_commission == overridden(
            old(metrics).mev_commission,
            overrides.mev_commission,
        ),
        final(metrics).stake_concentration == overridden(
            old(metrics).stake_concentration,
            overrides.stake_concentration,
        ),
        final(metrics).infrastructure_diversity == overridden(
            old(metrics).infrastructure_diversity,
            overrides.infrastructure_diversity,
        ),
        final(metrics).vote_pubkey == old(metrics).vote_pubkey,
        final(metrics).custom_numeric == old(metrics).custom_numeric,
{
    match overrides.commission {
        Some(v) => {
            metrics.commission = v;
        },
        None => {},
    }
    match overrides.activated_stake {
        Some(v) => {
            metrics.activated_stake = v;
        },
        None => {},
    }
    match overrides.skip_rate {
        Some(v) => {
            metrics.skip_rate = v;
        },
        None => {},
    }
    match overrides.vote_credits {
        Some(v) => {
            metrics.vote_credits = v;
        },
        None => {},
    }
    match overrides.uptime_percent {
        Some(v) => {
            metrics.uptime_percent = v;
        },
        None => {},
    }
    match &overrides.solana_version {
        Some(v) => {
            metrics.solana_version = v.clone();
        },
        None => {},
    }
    match overrides.datacenter_concentration {
        Some(v) => {
            metrics.datacenter_concentration = v;
        },
        None => {},
    }
    match overrides.superminority_status {
        Some(v) => {
            metrics.superminority_status = v;
        },
        None => {},
    }
    match overrides.mev_commission {
        Some(v) => {
            metrics.mev_commission = v;
        },
        None => {},
    }
    match overrides.stake_concentration {
        Some(v) => {
            metrics.stake_concentration = v;
        },
        None => {},
    }
    match overrides.infrastructure_diversity {
        Some(v) => {
            metrics.infrastructure_diversity = v;
        },
        None => {},
    }
}

/// A collected snapshot: the demonstration sample for the identity, with
/// any supplied overrides applied. The RPC endpoint is carried for the
/// boundary layer and does not influence the readings here.
pub fn collect_validator_metrics(
    vote_pubkey: Option<&str>,
    _rpc_url: &str,
    overrides: &MetricOverrides,
) -> (r: ValidatorMetrics)
    ensures
        r.vote_pubkey@ == (match vote_pubkey {
            Some(v) => v@,
            None => "DemoVote11111111111111111111111111111111111"@,
        }),
{
    let base = match vote_pubkey {
        Some(v) => v.to_owned(),
        None => String::from_str("DemoVote11111111111111111111111111111111111"),
    };
    let mut metrics = ValidatorMetrics::sample(base);
    apply_overrides(&mut metrics, overrides);
    metrics
}

/// A percentage held into its meaningful band (fixed point).
pub open spec fn clamp_percent(value: i64) -> int {
    if value < 0 {
        0
    } else if value > 1_000_000 {
        1_000_000
    } else {
        value as int
    }
}

/// A ratio held into the unit band (fixed point).
pub open spec fn clamp_ratio(value: i64) -> int {
    if value < 0 {
        0
    } else if value > FP_SCALE {
        FP_SCALE as int
    } else {
        value as int
    }
}

/// A percentage clamped to its meaningful band (fixed point).
pub fn normalize_percent(value: i64) -> (r: i64)
    ensures
        r == clamp_percent(value),
{
    if value < 0 {
        0
    } else if value > 1_000_000 {
        1_000_000
    } else {
        value
    }
}

/// A ratio clamped to the unit band (fixed point).
pub fn normalize_ratio(value: i64) -> (r: i64)
    ensures
        r == clamp_ratio(value),
{
    if value < 0 {
        0
    } else if value > FP_SCALE {
        FP_SCALE
    } else {
        value
    }
}

/// Clamps every percentage and ratio reading to its meaningful band and
/// floors the stake at zero; the result is well formed whatever came in.
pub fn normalize_metrics(metrics: &mut ValidatorMetrics)
    ensures
        final(metrics).commission == clamp_percent(old(metrics).commission),
        final(metrics).skip_rate == clamp_percent(old(metrics).skip_rate),
        final(metrics).vote_credits == clamp_percent(old(metrics).vote_credits),
        final(metrics).uptime_percent == clamp_percent(old(metrics).uptime_percent),
        final(metrics).datacenter_concentration == clamp_percent(
            old(metrics).datacenter_concentration,
        ),
        final(metrics).mev_commission == clamp_percent(old(metrics).mev_commission),
        final(metrics).stake_concentration == clamp_ratio(old(metrics).stake_concentration),
        final(metrics).infrastructure_diversity == clamp_ratio(
            old(metrics).infrastructure_diversity,
        ),
        final(metrics).activated_stake == if old(metrics).activated_stake < 0 {
            0int
        } else {
            old(metrics).activated_stake as int
        },
        final(metrics).vote_pubkey == old(metrics).vote_pubkey,
        final(metrics).solana_version == old(metrics).solana_version,
        final(metrics).superminority_status == old(metrics).superminority_status,
        final(metrics).custom_numeric == old(metrics).custom_numeric,
        old(metrics).activated_stake <= FP_LIMIT && (forall|i: int|
            0 <= i < old(metrics).custom_numeric@.len() ==> fp_valid(
                #[trigger] old(metrics).custom_numeric@[i].1,
            )) ==> final(metrics).wf(),
{
    metrics.commission = normalize_percent(metrics.commission);
    metrics.skip_rate = normalize_percent(metrics.skip_rate);
    metrics.vote_credits = normalize_percent(metrics.vote_credits);
    metrics.uptime_percent = normalize_percent(metrics.uptime_percent);
    metrics.datacenter_concentration = normalize_percent(metrics.datacenter_concentration);
    metrics.mev_commission = normalize_percent(metrics.mev_commission);
    metrics.stake_concentration = normalize_ratio(metrics.stake_concentration);
    metrics.infrastructure_diversity = normalize_ratio(metrics.infrastructure_diversity);
    if metrics.activated_stake < 0 {
        metrics.activated_stake = 0;
    }
}

/// The numeric reading behind `numeric_metric`: the stored value, with
/// an unset custom name counting as zero.
pub open spec fn spec_numeric_default(m: ValidatorMetrics, key: MetricKey) -> i64 {
    match spec_metric_value(m, key) {
        Some(MetricValue::Numeric(v)) => v,
        _ => 0,
    }
}

} // verus!
