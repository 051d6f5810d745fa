use vstd::prelude::*;

use crate::criteria::{criterion_wf, CriteriaSet};
use crate::evaluator::{evaluate_validator, spec_eval_ok, EligibilityResult};
use crate::metric::{Constraint, Criterion, MetricKey};
use crate::metrics::ValidatorMetrics;
use crate::program::{spec_display, ProgramId};
use crate::{fp_valid, tdiv, FP_LIMIT};

verus! {

/// Where a validator stands with one program's registration.
#[derive(Debug, Clone, Copy, PartialEq, Eq, Structural)]
pub enum RegistrationStatus {
    Active,
    Eligible,
    NotRegistered,
    Ineligible,
    Unknown,
}

/// How hard joining a program is judged to be.
#[derive(Debug, Clone, Copy, PartialEq, Eq, Structural)]
pub enum Difficulty {
    Easy,
    Medium,
    Hard,
}

/// One entry of a program's published delegation set.
#[derive(Debug)]
pub struct EligibleValidator {
    pub vote_pubkey: String,
    pub score: Option<i64>,
    pub delegated_sol: Option<i64>,
}

/// Builds one rule; numeric payloads are expected within the global
/// bound.
fn mk_criterion(
    name: &str,
    metric: MetricKey,
    constraint: Constraint,
    weight: Option<i64>,
    description: &str,
) -> (r: Criterion)
    requires
        match constraint {
            Constraint::Min(v) => fp_valid(v),
            Constraint::Max(v) => fp_valid(v),
            Constraint::Range { min, max } => fp_valid(min) && fp_valid(max),
            _ => true,
        },
        match weight {
            Some(w) => fp_valid(w),
            None => true,
        },
    ensures
        r.name@ == name@,
        r.metric == metric,
        r.constraint == constraint,
        r.weight == weight,
        r.description@ == description@,
        criterion_wf(r),
{
    Criterion { name: name.to_owned(), metric, constraint, weight, description: description.to_owned() }
}

/// A rule list in which every rule stays within the global bounds.
pub open spec fn criteria_all_wf(s: Seq<Criterion>) -> bool {
    forall|i: int| 0 <= i < s.len() ==> criterion_wf(#[trigger] s[i])
}

/// The Solana Foundation delegation program.
#[derive(Debug, Clone, Copy)]
pub struct SfdpProgram;

/// Marinade's delegation strategy.
#[derive(Debug, Clone, Copy)]
pub struct MarinadeProgram;

/// The JPool delegation strategy.
#[derive(Debug, Clone, Copy)]
pub struct JPoolProgram;

/// The BlazeStake delegation strategy.
#[derive(Debug, Clone, Copy)]
pub struct BlazeStakeProgram;

/// The Jito StakeNet delegation strategy.
#[derive(Debug, Clone, Copy)]
pub struct JitoProgram;

/// The Sanctum gauge delegation strategy.
#[derive(Debug, Clone, Copy)]
pub struct SanctumProgram;

/// SFDP's delegation estimate: a base plus a stake share, capped.
pub open spec fn spec_sfdp_estimate(m: ValidatorMetrics) -> int {
    let base = 400_000_000 + tdiv((m.activated_stake as int) * 6, 100);
    if base <= 1_200_000_000 {
        base
    } else {
        1_200_000_000
    }
}

/// Marinade's delegation estimate: a base plus performance and a bonus
/// for fees under ten percent.
pub open spec fn spec_marinade_estimate(m: ValidatorMetrics) -> int {
    let performance = tdiv((m.vote_credits as int) + (m.uptime_percent as int), 2);
    let commission_bonus = if 100_000 - (m.commission as int) >= 0 {
        (100_000 - (m.commission as int)) * 900
    } else {
        0
    };
    180_000_000 + performance * 190 + commission_bonus
}

/// JPool's delegation estimate: a base plus availability performance.
pub open spec fn spec_jpool_estimate(m: ValidatorMetrics) -> int {
    80_000_000 + ((m.uptime_percent as int) + (m.vote_credits as int)) * 55
}

/// BlazeStake's delegation estimate: a base plus performance, less a
/// capped skip-rate penalty, floored at zero.
pub open spec fn spec_blazestake_estimate(m: ValidatorMetrics) -> int {
    let performance = tdiv((m.vote_credits as int) + (m.uptime_percent as int), 2);
    let skip_penalty = if (m.skip_rate as int) * 400 <= 20_000_000 {
        (m.skip_rate as int) * 400
    } else {
        20_000_000
    };
    let v = 220_000_000 + performance * 120 - skip_penalty;
    if v >= 0 {
        v
    } else {
        0
    }
}

/// Jito's delegation estimate: a base plus a bonus for MEV fees under
/// eight percent and a vote-credit share.
pub open spec fn spec_jito_estimate(m: ValidatorMetrics) -> int {
    let mev_bonus = if 80_000 - (m.mev_commission as int) >= 0 {
        (80_000 - (m.mev_commission as int)) * 600
    } else {
        0
    };
    65_000_000 + mev_bonus + (m.vote_credits as int) * 35
}

/// Sanctum's delegation estimate: a base plus a stake factor and a bonus
/// for MEV fees under six percent.
pub open spec fn spec_sanctum_estimate(m: ValidatorMetrics) -> int {
    let stake_factor = tdiv((m.activated_stake as int) * 35, 1_000);
    let mev_factor = if 60_000 - (m.mev_commission as int) >= 0 {
        (60_000 - (m.mev_commission as int)) * 800
    } else {
        0
    };
    100_000_000 + stake_factor + mev_factor
}

impl SfdpProgram {
    pub fn id(&self) -> (r: ProgramId)
        ensures
            r == ProgramId::Sfdp,
    {
        ProgramId::Sfdp
    }

    pub fn name(&self) -> (r: &'static str)
        ensures
            r@ == spec_display(ProgramId::Sfdp),
    {
        "SFDP"
    }

    /// The fallback rules used when the published configuration cannot
    /// be fetched.
    pub fn default_criteria(&self) -> (r: Vec<Criterion>)
        ensures
            r@.len() == 6,
            criteria_all_wf(r@),
            r@[0].metric is Commission && r@[0].constraint == Constraint::Max(70_000i64),
            r@[1].metric is ActivatedStake && r@[1].constraint == Constraint::Min(500_000_000i64),
            r@[2].metric is SkipRate && r@[2].constraint == Constraint::Max(40_000i64),
            r@[3].metric is UptimePercent && r@[3].constraint == Constraint::Min(970_000i64),
            r@[4].metric is SuperminorityStatus && r@[4].constraint == Constraint::Boolean(false),
            r@[5].metric is SolanaVersion && r@[5].constraint is OneOf,
    {
        let mut v: Vec<Criterion> = Vec::new();
        v.push(
            mk_criterion(
                "Commission cap",
                MetricKey::Commission,
                Constraint::Max(70_000),
                None,
                "Validator commission must remain competitive",
            ),
        );
        v.push(
            mk_criterion(
                "Minimum activated stake",
                MetricKey::ActivatedStake,
                Constraint::Min(500_000_000),
                None,
                "Minimum stake floor for program inclusion",
            ),
        );
        v.push(
            mk_criterion(
                "Skip rate maximum",
                MetricKey::SkipRate,
                Constraint::Max(40_000),
                None,
                "High skip-rate validators are excluded",
            ),
        );
        v.push(
            mk_criterion(
                "Uptime minimum",
                MetricKey::UptimePercent,
                Constraint::Min(970_000),
                None,
                "Reliability requirement",
            ),
        );
        v.push(
            mk_criterion(
                "Outside superminority",
                MetricKey::SuperminorityStatus,
                Constraint::Boolean(false),
                None,
                "Superminority risk mitigation",
            ),
        );
        let mut releases: Vec<String> = Vec::new();
        releases.push(String::from_str("1.18.26"));
        releases.push(String::from_str("1.18.27"));
        releases.push(String::from_str("1.19.0"));
        v.push(
            mk_criterion(
                "Supported Solana release",
                MetricKey::SolanaVersion,
                Constraint::OneOf(releases),
                None,
                "Version must match approved release window",
            ),
        );
        v
    }

    /// The program-specific monetary heuristic.
    pub fn estimate_delegation(&self, validator: &ValidatorMetrics) -> (r: Option<i64>)
        requires
            validator.wf(),
        ensures
            r == Some(spec_sfdp_estimate(*validator) as i64),
    {
        let base: i128 = 400_000_000 + (validator.activated_stake as i128) * 6 / 100;
        let capped = if base <= 1_200_000_000 {
            base
        } else {
            1_200_000_000
        };
        Some(capped as i64)
    }

    /// Evaluates a snapshot against fetched rules, attaching this
    /// program's delegation estimate.
    pub fn evaluate(&self, validator: &ValidatorMetrics, criteria: &CriteriaSet) -> (r:
        EligibilityResult)
        requires
            validator.wf(),
            criteria.wf(),
        ensures
            spec_eval_ok(
                r,
                ProgramId::Sfdp,
                *validator,
                *criteria,
                Some(spec_sfdp_estimate(*validator) as i64),
            ),
    {
        evaluate_validator(ProgramId::Sfdp, validator, criteria, self.estimate_delegation(validator))
    }

    /// The entries reported when the published set cannot be fetched.
    pub fn fallback_eligible_set(&self) -> (r: Vec<EligibleValidator>)
        ensures
            r@.len() == 2,
    {
        let mut v: Vec<EligibleValidator> = Vec::new();
        v.push(
            EligibleValidator {
                vote_pubkey: String::from_str("SfdpEligible01"),
                score: None,
                delegated_sol: Some(500_000_000),
            },
        );
        v.push(
            EligibleValidator {
                vote_pubkey: String::from_str("SfdpEligible02"),
                score: None,
                delegated_sol: Some(435_000_000),
            },
        );
        v
    }
}

impl MarinadeProgram {
    pub fn id(&self) -> (r: ProgramId)
        ensures
            r == ProgramId::Marinade,
    {
        ProgramId::Marinade
    }

    pub fn name(&self) -> (r: &'static str)
        ensures
            r@ == spec_display(ProgramId::Marinade),
    {
        "Marinade"
    }

    /// The fallback rules used when the cohort data cannot be fetched.
    pub fn default_criteria(&self) -> (r: Vec<Criterion>)
        ensures
            r@.len() == 6,
            criteria_all_wf(r@),
            r@[0].metric is Commission && r@[0].constraint == Constraint::Max(80_000i64),
            r@[1].metric is SkipRate && r@[1].constraint == Constraint::Max(30_000i64),
            r@[2].metric is VoteCredits && r@[2].constraint == Constraint::Min(975_000i64),
            r@[3].metric is UptimePercent && r@[3].constraint == Constraint::Min(985_000i64),
            r@[4].metric is DatacenterConcentration && r@[4].constraint == Constraint::Max(
                600_000i64,
            ),
            r@[5].metric is InfrastructureDiversity && r@[5].constraint == Constraint::Min(
                6_000i64,
            ),
    {
        let mut v: Vec<Criterion> = Vec::new();
        v.push(
            mk_criterion(
                "Commission",
                MetricKey::Commission,
                Constraint::Max(80_000),
                Some(14_000),
                "Competitive validator fees improve score",
            ),
        );
        v.push(
            mk_criterion(
                "Skip rate",
                MetricKey::SkipRate,
                Constraint::Max(30_000),
                Some(20_000),
                "Block production quality signal",
            ),
        );
        v.push(
            mk_criterion(
                "Vote credits",
                MetricKey::VoteCredits,
                Constraint::Min(975_000),
                Some(22_000),
                "Consensus participation score",
            ),
        );
        v.push(
            mk_criterion(
                "Uptime",
                MetricKey::UptimePercent,
                Constraint::Min(985_000),
                Some(18_000),
                "Runtime reliability baseline",
            ),
        );
        v.push(
            mk_criterion(
                "Datacenter concentration",
                MetricKey::DatacenterConcentration,
                Constraint::Max(600_000),
                Some(10_000),
                "Diversity pressure against centralization",
            ),
        );
        v.push(
            mk_criterion(
                "Infrastructure diversity",
                MetricKey::InfrastructureDiversity,
                Constraint::Min(6_000),
                Some(10_000),
                "Redundancy and independent failover",
            ),
        );
        v
    }

    pub fn estimate_delegation(&self, validator: &ValidatorMetrics) -> (r: Option<i64>)
        requires
            validator.wf(),
        ensures
            r == Some(spec_marinade_estimate(*validator) as i64),
    {
        let performance: i128 = ((validator.vote_credits as i128) + (validator.uptime_percent
            as i128)) / 2;
        let head: i128 = 100_000 - (validator.commission as i128);
        let commission_bonus: i128 = if head >= 0 {
            head * 900
        } else {
            0
        };
        Some((180_000_000 + performance * 190 + commission_bonus) as i64)
    }

    pub fn evaluate(&self, validator: &ValidatorMetrics, criteria: &CriteriaSet) -> (r:
        EligibilityResult)
        requires
            validator.wf(),
            criteria.wf(),
        ensures
            spec_eval_ok(
                r,
                ProgramId::Marinade,
                *validator,
                *criteria,
                Some(spec_marinade_estimate(*validator) as i64),
            ),
    {
        evaluate_validator(
            ProgramId::Marinade,
            validator,
            criteria,
            self.estimate_delegation(validator),
        )
    }

    pub fn fallback_eligible_set(&self) -> (r: Vec<EligibleValidator>)
        ensures
            r@.len() == 2,
    {
        let mut v: Vec<EligibleValidator> = Vec::new();
        v.push(
            EligibleValidator {
                vote_pubkey: String::from_str("MarinadeSet01"),
                score: Some(8_800),
                delegated_sol: Some(410_000_000),
            },
        );
        v.push(
            EligibleValidator {
                vote_pubkey: String::from_str("MarinadeSet02"),
                score: Some(8_400),
                delegated_sol: Some(355_000_000),
            },
        );
        v
    }
}

impl JPoolProgram {
    pub fn id(&self) -> (r: ProgramId)
        ensures
            r == ProgramId::JPool,
    {
        ProgramId::JPool
    }

    pub fn name(&self) -> (r: &'static str)
        ensures
            r@ == spec_display(ProgramId::JPool),
    {
        "JPool"
    }

    pub fn default_criteria(&self) -> (r: Vec<Criterion>)
        ensures
            r@.len() == 5,
            criteria_all_wf(r@),
            r@[0].metric is Commission && r@[0].constraint == Constraint::Max(100_000i64),
            r@[1].metric is SkipRate && r@[1].constraint == Constraint::Max(35_000i64),
            r@[2].metric is UptimePercent && r@[2].constraint == Constraint::Min(980_000i64),
            r@[3].metric is VoteCredits && r@[3].constraint == Constraint::Min(970_000i64),
            r@[4].metric is ActivatedStake && r@[4].constraint == Constraint::Min(250_000_000i64),
    {
        let mut v: Vec<Criterion> = Vec::new();
        v.push(
            mk_criterion(
                "Commission",
                MetricKey::Commission,
                Constraint::Max(100_000),
                Some(12_000),
                "Fee competitiveness",
            ),
        );
        v.push(
            mk_criterion(
                "Skip rate",
                MetricKey::SkipRate,
                Constraint::Max(35_000),
                Some(18_000),
                "Reliability signal",
            ),
        );
        v.push(
            mk_criterion(
                "Uptime",
                MetricKey::UptimePercent,
                Constraint::Min(980_000),
                Some(18_000),
                "Operational availability",
            ),
        );
        v.push(
            mk_criterion(
                "Vote credits",
                MetricKey::VoteCredits,
                Constraint::Min(970_000),
                Some(16_000),
                "Consensus participation",
            ),
        );
        v.push(
            mk_criterion(
                "Min stake",
                MetricKey::ActivatedStake,
                Constraint::Min(250_000_000),
                Some(8_000),
                "Small viability floor",
            ),
        );
        v
    }

    pub fn estimate_delegation(&self, validator: &ValidatorMetrics) -> (r: Option<i64>)
        requires
            validator.wf(),
        ensures
            r == Some(spec_jpool_estimate(*validator) as i64),
    {
        let performance: i128 = ((validator.uptime_percent as i128) + (validator.vote_credits
            as i128)) * 55;
        Some((80_000_000 + performance) as i64)
    }

    pub fn evaluate(&self, validator: &ValidatorMetrics, criteria: &CriteriaSet) -> (r:
        EligibilityResult)
        requires
            validator.wf(),
            criteria.wf(),
        ensures
            spec_eval_ok(
                r,
                ProgramId::JPool,
                *validator,
                *criteria,
                Some(spec_jpool_estimate(*validator) as i64),
            ),
    {
        evaluate_validator(
            ProgramId::JPool,
            validator,
            criteria,
            self.estimate_delegation(validator),
        )
    }

    pub fn fallback_eligible_set(&self) -> (r: Vec<EligibleValidator>)
        ensures
            r@.len() == 2,
    {
        let mut v: Vec<EligibleValidator> = Vec::new();
        v.push(
            EligibleValidator {
                vote_pubkey: String::from_str("JpoolSet01"),
                score: Some(8_000),
                delegated_sol: Some(142_000_000),
            },
        );
        v.push(
            EligibleValidator {
                vote_pubkey: String::from_str("JpoolSet02"),
                score: Some(7_700),
                delegated_sol: Some(129_000_000),
            },
        );
        v
    }
}

impl BlazeStakeProgram {
    pub fn id(&self) -> (r: ProgramId)
        ensures
            r == ProgramId::BlazeStake,
    {
        ProgramId::BlazeStake
    }

    pub fn name(&self) -> (r: &'static str)
        ensures
            r@ == spec_display(ProgramId::BlazeStake),
    {
        "BlazeStake"
    }

    pub fn default_criteria(&self) -> (r: Vec<Criterion>)
        ensures
            r@.len() == 6,
            criteria_all_wf(r@),
            r@[0].metric is Commission && r@[0].constraint == Constraint::Max(70_000i64),
            r@[1].metric is SkipRate && r@[1].constraint == Constraint::Max(25_000i64),
            r@[2].metric is UptimePercent && r@[2].constraint == Constraint::Min(985_000i64),
            r@[3].metric is VoteCredits && r@[3].constraint == Constraint::Min(975_000i64),
            r@[4].metric is DatacenterConcentration && r@[4].constraint == Constraint::Max(
                500_000i64,
            ),
            r@[5].metric is InfrastructureDiversity && r@[5].constraint == Constraint::Min(
                7_000i64,
            ),
    {
        let mut v: Vec<Criterion> = Vec::new();
        v.push(
            mk_criterion(
                "Commission",
                MetricKey::Commission,
                Constraint::Max(70_000),
                Some(12_000),
                "Fees must remain low for pool delegators",
            ),
        );
        v.push(
            mk_criterion(
                "Skip rate strict",
                MetricKey::SkipRate,
                Constraint::Max(25_000),
                Some(22_000),
                "BlazeStake strongly prefers low skip-rate validators",
            ),
        );
        v.push(
            mk_criterion(
                "Uptime",
                MetricKey::UptimePercent,
                Constraint::Min(985_000),
                Some(19_000),
                "Reliability SLO for delegation set",
            ),
        );
        v.push(
            mk_criterion(
                "Vote credits",
                MetricKey::VoteCredits,
                Constraint::Min(975_000),
                Some(17_000),
                "Consensus efficiency",
            ),
        );
        v.push(
            mk_criterion(
                "Datacenter concentration",
                MetricKey::DatacenterConcentration,
                Constraint::Max(500_000),
                Some(10_000),
                "Concentration risk ceiling",
            ),
        );
        v.push(
            mk_criterion(
                "Infrastructure diversity",
                MetricKey::InfrastructureDiversity,
                Constraint::Min(7_000),
                Some(10_000),
                "Hardware/network redundancy expectation",
            ),
        );
        v
    }

    pub fn estimate_delegation(&self, validator: &ValidatorMetrics) -> (r: Option<i64>)
        requires
            validator.wf(),
        ensures
            r == Some(spec_blazestake_estimate(*validator) as i64),
    {
        let performance: i128 = ((validator.vote_credits as i128) + (validator.uptime_percent
            as i128)) / 2;
        let raw_penalty: i128 = (validator.skip_rate as i128) * 400;
        let skip_penalty: i128 = if raw_penalty <= 20_000_000 {
            raw_penalty
        } else {
            20_000_000
        };
        let v: i128 = 220_000_000 + performance * 120 - skip_penalty;
        Some(
            if v >= 0 {
                v as i64
            } else {
                0
            },
        )
    }

    pub fn evaluate(&self, validator: &ValidatorMetrics, criteria: &CriteriaSet) -> (r:
        EligibilityResult)
        requires
            validator.wf(),
            criteria.wf(),
        ensures
            spec_eval_ok(
                r,
                ProgramId::BlazeStake,
                *validator,
                *criteria,
                Some(spec_blazestake_estimate(*validator) as i64),
            ),
    {
        evaluate_validator(
            ProgramId::BlazeStake,
            validator,
            criteria,
            self.estimate_delegation(validator),
        )
    }

    pub fn fallback_eligible_set(&self) -> (r: Vec<EligibleValidator>)
        ensures
            r@.len() == 2,
    {
        let mut v: Vec<EligibleValidator> = Vec::new();
        v.push(
            EligibleValidator {
                vote_pubkey: String::from_str("BlazeSet01"),
                score: Some(7_900),
                delegated_sol: Some(162_000_000),
            },
        );
        v.push(
            EligibleValidator {
                vote_pubkey: String::from_str("BlazeSet02"),
                score: Some(7_500),
                delegated_sol: Some(149_000_000),
            },
        );
        v
    }
}

impl JitoProgram {
    pub fn id(&self) -> (r: ProgramId)
        ensures
            r == ProgramId::Jito,
    {
        ProgramId::Jito
    }

    pub fn name(&self) -> (r: &'static str)
        ensures
            r@ == spec_display(ProgramId::Jito),
    {
        "Jito"
    }

    pub fn default_criteria(&self) -> (r: Vec<Criterion>)
        ensures
            r@.len() == 3,
            criteria_all_wf(r@),
            r@[0].metric is MevCommission && r@[0].constraint == Constraint::Max(80_000i64),
            r@[1].metric is SkipRate && r@[1].constraint == Constraint::Max(30_000i64),
            r@[2].metric is VoteCredits && r@[2].constraint == Constraint::Min(978_000i64),
    {
        let mut v: Vec<Criterion> = Vec::new();
        v.push(
            mk_criterion(
                "MEV commission cap",
                MetricKey::MevCommission,
                Constraint::Max(80_000),
                Some(20_000),
                "Jito set favors low MEV fee settings",
            ),
        );
        v.push(
            mk_criterion(
                "Skip rate",
                MetricKey::SkipRate,
                Constraint::Max(30_000),
                Some(18_000),
                "Execution quality baseline",
            ),
        );
        v.push(
            mk_criterion(
                "Vote credits",
                MetricKey::VoteCredits,
                Constraint::Min(978_000),
                Some(18_000),
                "Consensus participation threshold",
            ),
        );
        v
    }

    pub fn estimate_delegation(&self, validator: &ValidatorMetrics) -> (r: Option<i64>)
        requires
            validator.wf(),
        ensures
            r == Some(spec_jito_estimate(*validator) as i64),
    {
        let head: i128 = 80_000 - (validator.mev_commission as i128);
        let mev_bonus: i128 = if head >= 0 {
            head * 600
        } else {
            0
        };
        Some((65_000_000 + mev_bonus + (validator.vote_credits as i128) * 35) as i64)
    }

    pub fn evaluate(&self, validator: &ValidatorMetrics, criteria: &CriteriaSet) -> (r:
        EligibilityResult)
        requires
            validator.wf(),
            criteria.wf(),
        ensures
            spec_eval_ok(
                r,
                ProgramId::Jito,
                *validator,
                *criteria,
                Some(spec_jito_estimate(*validator) as i64),
            ),
    {
        evaluate_validator(
            ProgramId::Jito,
            validator,
            criteria,
            self.estimate_delegation(validator),
        )
    }

    pub fn fallback_eligible_set(&self) -> (r: Vec<EligibleValidator>)
        ensures
            r@.len() == 2,
    {
        let mut v: Vec<EligibleValidator> = Vec::new();
        v.push(
            EligibleValidator {
                vote_pubkey: String::from_str("JitoSet01"),
                score: None,
                delegated_sol: Some(85_000_000),
            },
        );
        v.push(
            EligibleValidator {
                vote_pubkey: String::from_str("JitoSet02"),
                score: None,
                delegated_sol: Some(78_000_000),
            },
        );
        v
    }
}

impl SanctumProgram {
    pub fn id(&self) -> (r: ProgramId)
        ensures
            r == ProgramId::Sanctum,
    {
        ProgramId::Sanctum
    }

    pub fn name(&self) -> (r: &'static str)
        ensures
            r@ == spec_display(ProgramId::Sanctum),
    {
        "Sanctum"
    }

    pub fn default_criteria(&self) -> (r: Vec<Criterion>)
        ensures
            r@.len() == 4,
            criteria_all_wf(r@),
            r@[0].metric is ActivatedStake && r@[0].constraint == Constraint::Min(
                2_000_000_000i64,
            ),
            r@[1].metric is MevCommission && r@[1].constraint == Constraint::Max(50_000i64),
            r@[2].metric is Commission && r@[2].constraint == Constraint::Max(70_000i64),
            r@[3].metric is InfrastructureDiversity && r@[3].constraint == Constraint::Min(
                7_000i64,
            ),
    {
        let mut v: Vec<Criterion> = Vec::new();
        v.push(
            mk_criterion(
                "Minimum activated stake",
                MetricKey::ActivatedStake,
                Constraint::Min(2_000_000_000),
                Some(15_000),
                "LST integrations prefer deeper liquidity",
            ),
        );
        v.push(
            mk_criterion(
                "MEV commission",
                MetricKey::MevCommission,
                Constraint::Max(50_000),
                Some(17_000),
                "Fee competitiveness for orderflow",
            ),
        );
        v.push(
            mk_criterion(
                "Commission",
                MetricKey::Commission,
                Constraint::Max(70_000),
                Some(11_000),
                "User-facing fee baseline",
            ),
        );
        v.push(
            mk_criterion(
                "Infrastructure diversity",
                MetricKey::InfrastructureDiversity,
                Constraint::Min(7_000),
                Some(12_000),
                "Diversity requirement for resilient routing",
            ),
        );
        v
    }

    pub fn estimate_delegation(&self, validator: &ValidatorMetrics) -> (r: Option<i64>)
        requires
            validator.wf(),
        ensures
            r == Some(spec_sanctum_estimate(*validator) as i64),
    {
        let stake_factor: i128 = (validator.activated_stake as i128) * 35 / 1_000;
        let head: i128 = 60_000 - (validator.mev_commission as i128);
        let mev_factor: i128 = if head >= 0 {
            head * 800
        } else {
            0
        };
        Some((100_000_000 + stake_factor + mev_factor) as i64)
    }

    pub fn evaluate(&self, validator: &ValidatorMetrics, criteria: &CriteriaSet) -> (r:
        EligibilityResult)
        requires
            validator.wf(),
            criteria.wf(),
        ensures
            spec_eval_ok(
                r,
                ProgramId::Sanctum,
                *validator,
                *criteria,
                Some(spec_sanctum_estimate(*validator) as i64),
            ),
    {
        evaluate_validator(
            ProgramId::Sanctum,
            validator,
            criteria,
            self.estimate_delegation(validator),
        )
    }

    pub fn fallback_eligible_set(&self) -> (r: Vec<EligibleValidator>)
        ensures
            r@.len() == 2,
    {
        let mut v: Vec<EligibleValidator> = Vec::new();
        v.push(
            EligibleValidator {
                vote_pubkey: String::from_str("SanctumSet01"),
                score: None,
                delegated_sol: Some(190_000_000),
            },
        );
        v.push(
            EligibleValidator {
                vote_pubkey: String::from_str("SanctumSet02"),
                score: None,
                delegated_sol: Some(174_000_000),
            },
        );
        v
    }
}

/// The fallback rules of a program, by identity: the closed dispatch
/// table behind the uniform evaluation contract.
pub fn default_criteria_for(id: ProgramId) -> (r: Vec<Criterion>)
    ensures
        criteria_all_wf(r@),
        r@.len() > 0,
{
    match id {
        ProgramId::Sfdp => SfdpProgram.default_criteria(),
        ProgramId::Marinade => MarinadeProgram.default_criteria(),
        ProgramId::JPool => JPoolProgram.default_criteria(),
        ProgramId::BlazeStake => BlazeStakeProgram.default_criteria(),
        ProgramId::Jito => JitoProgram.default_criteria(),
        ProgramId::Sanctum => SanctumProgram.default_criteria(),
    }
}

/// A program's delegation estimate, by identity.
pub fn estimate_delegation_for(id: ProgramId, validator: &ValidatorMetrics) -> (r: Option<i64>)
    requires
        validator.wf(),
    ensures
        r == Some(spec_estimate_for(id, *validator) as i64),
{
    match id {
        ProgramId::Sfdp => SfdpProgram.estimate_delegation(validator),
        ProgramId::Marinade => MarinadeProgram.estimate_delegation(validator),
        ProgramId::JPool => JPoolProgram.estimate_delegation(validator),
        ProgramId::BlazeStake => BlazeStakeProgram.estimate_delegation(validator),
        ProgramId::Jito => JitoProgram.estimate_delegation(validator),
        ProgramId::Sanctum => SanctumProgram.estimate_delegation(validator),
    }
}

/// The per-program estimate table behind `estimate_delegation_for`.
pub open spec fn spec_estimate_for(id: ProgramId, m: ValidatorMetrics) -> int {
    match id {
        ProgramId::Sfdp => spec_sfdp_estimate(m),
        ProgramId::Marinade => spec_marinade_estimate(m),
        ProgramId::JPool => spec_jpool_estimate(m),
        ProgramId::BlazeStake => spec_blazestake_estimate(m),
        ProgramId::Jito => spec_jito_estimate(m),
        ProgramId::Sanctum => spec_sanctum_estimate(m),
    }
}

} // verus!
