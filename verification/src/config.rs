//! The kernel's configuration sections, their defaults, and the rules a
//! configuration must meet. Reading the TOML file is the program's work; it
//! hands the parsed sections here to be checked.
use vstd::prelude::*;

use crate::error::HawkError;
use crate::text::{push_str, push_string, str_eq, to_string};

verus! {

#[derive(Debug, Clone)]
pub struct CoreConfig {
    pub log_level: String,
    pub session_retention_days: u32,
    pub pattern_retention_days: u32,
}

impl Default for CoreConfig {
    fn default() -> (c: Self)
        ensures
            c.log_level@ == "info"@,
            c.session_retention_days == 30,
            c.pattern_retention_days == 90,
    {
        CoreConfig {
            log_level: to_string("info"),
            session_retention_days: 30,
            pattern_retention_days: 90,
        }
    }
}

#[derive(Debug, Clone)]
pub struct PrivacyConfig {
    pub mode: String,
}

impl Default for PrivacyConfig {
    fn default() -> (c: Self)
        ensures
            c.mode@ == "standard"@,
    {
        PrivacyConfig { mode: to_string("standard") }
    }
}

/// A model provider as the configuration file lists it.
#[derive(Debug, Clone)]
pub struct LlmProvider {
    pub name: String,
    pub endpoint: String,
    pub priority: u32,
}

#[derive(Debug, Clone, Copy, PartialEq, Eq, Structural)]
pub struct SavepointConfig {
    pub auto_snapshot: bool,
    pub max_snapshots_per_agent: u32,
}

impl Default for SavepointConfig {
    fn default() -> (c: Self)
        ensures
            c.auto_snapshot,
            c.max_snapshots_per_agent == 50,
    {
        SavepointConfig { auto_snapshot: true, max_snapshots_per_agent: 50 }
    }
}

#[derive(Debug, Clone, Copy, PartialEq, Eq, Structural)]
pub struct BusConfig {
    pub message_retention_seconds: u64,
    pub max_queue_size: u64,
}

impl Default for BusConfig {
    fn default() -> (c: Self)
        ensures
            c.message_retention_seconds == 3600,
            c.max_queue_size == 10000,
    {
        BusConfig { message_retention_seconds: 3600, max_queue_size: 10000 }
    }
}

#[derive(Debug, Clone)]
pub struct SyncConfig {
    pub enabled: bool,
    pub conflict_strategy: String,
}

impl Default for SyncConfig {
    fn default() -> (c: Self)
        ensures
            !c.enabled,
            c.conflict_strategy@ == "last-writer-wins"@,
    {
        SyncConfig { enabled: false, conflict_strategy: to_string("last-writer-wins") }
    }
}

#[derive(Debug, Clone, Copy, PartialEq, Eq, Structural)]
pub struct CompressConfig {
    pub token_threshold: u32,
    pub cache_max_entries: u32,
}

impl Default for CompressConfig {
    fn default() -> (c: Self)
        ensures
            c.token_threshold == 4000,
            c.cache_max_entries == 1000,
    {
        CompressConfig { token_threshold: 4000, cache_max_entries: 1000 }
    }
}

#[derive(Debug, Clone, Copy, PartialEq, Eq, Structural)]
pub struct HealingConfig {
    pub max_retries: u32,
    pub enabled: bool,
}

impl Default for HealingConfig {
    fn default() -> (c: Self)
        ensures
            c.max_retries == 3,
            c.enabled,
    {
        HealingConfig { max_retries: 3, enabled: true }
    }
}

// ── Validation ───────────────────────────────────────────────────────────────

pub open spec fn valid_log_levels() -> Seq<Seq<char>> {
    seq!["error"@, "warn"@, "info"@, "debug"@, "trace"@]
}

pub open spec fn valid_privacy_modes() -> Seq<Seq<char>> {
    seq!["standard"@, "local-only"@, "air-gapped"@]
}

/// The first rule a configuration breaks, with its message; none when it
/// meets them all. The rules, in order: a known log level, a known privacy
/// mode, sessions kept at least a day, and at least one healing retry.
pub open spec fn config_problem(core: CoreConfig, privacy: PrivacyConfig, healing: HealingConfig) -> Option<
    Seq<char>,
> {
    if !valid_log_levels().contains(core.log_level@) {
        Some(
            "[core] log_level \""@ + core.log_level@
                + "\" is invalid; expected one of: error, warn, info, debug, trace"@,
        )
    } else if !valid_privacy_modes().contains(privacy.mode@) {
        Some(
            "[privacy] mode \""@ + privacy.mode@
                + "\" is invalid; expected one of: standard, local-only, air-gapped"@,
        )
    } else if core.session_retention_days == 0 {
        Some("[core] session_retention_days must be greater than 0"@)
    } else if healing.max_retries < 1 {
        Some("[healing] max_retries must be at least 1"@)
    } else {
        None
    }
}

fn is_one_of(s: &str, options: &[&str]) -> (b: bool)
    ensures
        b == options@.map_values(|o: &str| o@).contains(s@),
{
    let ghost views = options@.map_values(|o: &str| o@);
    let mut i: usize = 0;
    while i < options.len()
        invariant
            i <= options@.len(),
            views == options@.map_values(|o: &str| o@),
            forall|j: int| 0 <= j < i ==> views[j] != s@,
        decreases options.len() - i,
    {
        if str_eq(s, options[i]) {
            assert(views[i as int] == s@);
            return true;
        }
        i = i + 1;
    }
    false
}

/// Checks a parsed configuration's sections: `Ok` when every rule holds,
/// otherwise the configuration error of the first rule broken.
pub fn validate(core: &CoreConfig, privacy: &PrivacyConfig, healing: &HealingConfig) -> (r: Result<
    (),
    HawkError,
>)
    ensures
        match config_problem(*core, *privacy, *healing) {
            None => r is Ok,
            Some(m) => r matches Err(HawkError::Config(e)) && e@ == m,
        },
{
    let levels: [&str; 5] = ["error", "warn", "info", "debug", "trace"];
    let modes: [&str; 3] = ["standard", "local-only", "air-gapped"];
    proof {
        assert(levels@.map_values(|o: &str| o@) =~= valid_log_levels());
        assert(modes@.map_values(|o: &str| o@) =~= valid_privacy_modes());
    }
    if !is_one_of(core.log_level.as_str(), &levels) {
        let mut m = to_string("[core] log_level \"");
        push_string(&mut m, &core.log_level);
        push_str(&mut m, "\" is invalid; expected one of: error, warn, info, debug, trace");
        return Err(HawkError::Config(m));
    }
    if !is_one_of(privacy.mode.as_str(), &modes) {
        let mut m = to_string("[privacy] mode \"");
        push_string(&mut m, &privacy.mode);
        push_str(&mut m, "\" is invalid; expected one of: standard, local-only, air-gapped");
        return Err(HawkError::Config(m));
    }
    if core.session_retention_days == 0 {
        return Err(HawkError::Config(to_string("[core] session_retention_days must be greater than 0")));
    }
    if healing.max_retries < 1 {
        return Err(HawkError::Config(to_string("[healing] max_retries must be at least 1")));
    }
    Ok(())
}

/// The default sections pass validation.
pub proof fn defaults_are_valid(core: CoreConfig, privacy: PrivacyConfig, healing: HealingConfig)
    requires
        core.log_level@ == "info"@,
        core.session_retention_days == 30,
        privacy.mode@ == "standard"@,
        healing.max_retries == 3,
    ensures
        config_problem(core, privacy, healing) is None,
{
    assert(valid_log_levels()[2] == "info"@);
    assert(valid_privacy_modes()[0] == "standard"@);
}

} // verus!
