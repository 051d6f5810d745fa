use vstd::prelude::*;

verus! {

/// The participant under watch.
#[derive(Debug)]
pub struct ValidatorConfig {
    pub vote_pubkey: String,
}

/// How the chain is queried.
#[derive(Debug)]
pub struct RpcConfig {
    pub url: String,
    pub requests_per_second: u32,
}

/// Where history snapshots are kept.
#[derive(Debug)]
pub struct StorageConfig {
    pub db_path: String,
}

/// Which programs are watched, by slug.
#[derive(Debug)]
pub struct ProgramsConfig {
    pub enabled: Vec<String>,
}

/// The analysis heuristics: the vulnerability margin (fixed-point
/// percent), the history lookback, and the drift check cadence.
#[derive(Debug)]
pub struct AnalysisConfig {
    pub vulnerability_margin_pct: i64,
    pub lookback_epochs: u32,
    pub drift_check_interval_hours: u32,
}

/// The revenue model used by recommendations (fixed-point quantities).
#[derive(Debug)]
pub struct OptimizerConfig {
    pub revenue_per_sol_per_epoch: i64,
    pub monthly_infra_cost_usd: i64,
}

/// Which event kinds are delivered.
#[derive(Debug, Clone, Copy, PartialEq, Eq, Structural)]
pub struct AlertRulesConfig {
    pub criteria_drift: bool,
    pub vulnerability_detected: bool,
    pub eligibility_lost: bool,
    pub eligibility_gained: bool,
}

/// Where alerts go.
#[derive(Debug)]
pub struct AlertsConfig {
    pub discord_webhook: String,
    pub telegram_bot_token: String,
    pub telegram_chat_id: String,
    pub enable_stdout: bool,
    pub rules: AlertRulesConfig,
}

/// The whole configuration.
#[derive(Debug)]
pub struct Config {
    pub validator: ValidatorConfig,
    pub rpc: RpcConfig,
    pub storage: StorageConfig,
    pub programs: ProgramsConfig,
    pub analysis: AnalysisConfig,
    pub optimizer: OptimizerConfig,
    pub alerts: AlertsConfig,
}

/// Command-line overrides applied on top of a loaded configuration.
#[derive(Debug)]
pub struct ConfigOverrides {
    pub vote_pubkey: Option<String>,
    pub rpc_url: Option<String>,
    pub enabled_programs: Option<Vec<String>>,
}

pub fn default_rpc_url() -> (r: String)
    ensures
        r@ == "https://api.mainnet-beta.solana.com"@,
{
    String::from_str("https://api.mainnet-beta.solana.com")
}

pub fn default_requests_per_second() -> (r: u32)
    ensures
        r == 5u32,
{
    5
}

pub fn default_db_path() -> (r: String)
    ensures
        r@ == "~/.local/share/delegation-oracle/oracle.db"@,
{
    String::from_str("~/.local/share/delegation-oracle/oracle.db")
}

pub fn default_programs_enabled() -> (r: Vec<String>)
    ensures
        r@.len() == 6,
        r@[0]@ == "sfdp"@,
        r@[1]@ == "marinade"@,
        r@[2]@ == "jpool"@,
        r@[3]@ == "blazestake"@,
        r@[4]@ == "jito"@,
        r@[5]@ == "sanctum"@,
{
    let mut v: Vec<String> = Vec::new();
    v.push(String::from_str("sfdp"));
    v.push(String::from_str("marinade"));
    v.push(String::from_str("jpool"));
    v.push(String::from_str("blazestake"));
    v.push(String::from_str("jito"));
    v.push(String::from_str("sanctum"));
    v
}

/// Five percent, in fixed point.
pub fn default_vulnerability_margin() -> (r: i64)
    ensures
        r == 50_000i64,
{
    50_000
}

pub fn default_lookback_epochs() -> (r: u32)
    ensures
        r == 20u32,
{
    20
}

pub fn default_drift_hours() -> (r: u32)
    ensures
        r == 6u32,
{
    6
}

/// One ten-thousandth of a SOL per delegated SOL per epoch.
pub fn default_revenue_per_sol_per_epoch() -> (r: i64)
    ensures
        r == 1i64,
{
    1
}

pub fn default_monthly_infra_cost_usd() -> (r: i64)
    ensures
        r == 8_000_000i64,
{
    8_000_000
}

pub fn default_enable_stdout() -> (r: bool)
    ensures
        r == true,
{
    true
}

pub fn default_true() -> (r: bool)
    ensures
        r == true,
{
    true
}

impl Config {
    /// The configuration used when no file is present.
    pub fn default_config() -> (r: Config)
        ensures
            r.validator.vote_pubkey@ == Seq::<char>::empty(),
            r.rpc.url@ == "https://api.mainnet-beta.solana.com"@,
            r.rpc.requests_per_second == 5u32,
            r.storage.db_path@ == "~/.local/share/delegation-oracle/oracle.db"@,
            r.programs.enabled@.len() == 6,
            r.analysis.vulnerability_margin_pct == 50_000i64,
            r.analysis.lookback_epochs == 20u32,
            r.analysis.drift_check_interval_hours == 6u32,
            r.optimizer.revenue_per_sol_per_epoch == 1i64,
            r.optimizer.monthly_infra_cost_usd == 8_000_000i64,
            r.alerts.enable_stdout == true,
            r.alerts.rules == (AlertRulesConfig {
                criteria_drift: true,
                vulnerability_detected: true,
                eligibility_lost: true,
                eligibility_gained: true,
            }),
    {
        Config {
            validator: ValidatorConfig { vote_pubkey: String::new() },
            rpc: RpcConfig {
                url: default_rpc_url(),
                requests_per_second: default_requests_per_second(),
            },
            storage: StorageConfig { db_path: default_db_path() },
            programs: ProgramsConfig { enabled: default_programs_enabled() },
            analysis: AnalysisConfig {
                vulnerability_margin_pct: default_vulnerability_margin(),
                lookback_epochs: default_lookback_epochs(),
                drift_check_interval_hours: default_drift_hours(),
            },
            optimizer: OptimizerConfig {
                revenue_per_sol_per_epoch: default_revenue_per_sol_per_epoch(),
                monthly_infra_cost_usd: default_monthly_infra_cost_usd(),
            },
            alerts: AlertsConfig {
                discord_webhook: String::new(),
                telegram_bot_token: String::new(),
                telegram_chat_id: String::new(),
                enable_stdout: default_enable_stdout(),
                rules: AlertRulesConfig {
                    criteria_drift: true,
                    vulnerability_detected: true,
                    eligibility_lost: true,
                    eligibility_gained: true,
                },
            },
        }
    }

    /// Applies command-line overrides: each given value replaces the
    /// configured one, everything else stays.
    pub fn apply_overrides(&mut self, overrides: ConfigOverrides)
        ensures
            final(self).validator.vote_pubkey == (match overrides.vote_pubkey {
                Some(v) => v,
                None => old(self).validator.vote_pubkey,
            }),
            final(self).rpc.url == (match overrides.rpc_url {
                Some(v) => v,
                None => old(self).rpc.url,
            }),
            final(self).rpc.requests_per_second == old(self).rpc.requests_per_second,
            (match overrides.enabled_programs {
                Some(v) => final(self).programs.enabled == v,
                None => final(self).programs.enabled == old(self).programs.enabled,
            }),
            final(self).storage == old(self).storage,
            final(self).analysis == old(self).analysis,
            final(self).optimizer == old(self).optimizer,
            final(self).alerts == old(self).alerts,
    {
        match overrides.vote_pubkey {
            Some(vote_pubkey) => {
                self.validator.vote_pubkey = vote_pubkey;
            },
            None => {},
        }
        match overrides.rpc_url {
            Some(rpc_url) => {
                self.rpc.url = rpc_url;
            },
            None => {},
        }
        match overrides.enabled_programs {
            Some(programs) => {
                self.programs.enabled = programs;
            },
            None => {},
        }
    }
}

} // verus!
