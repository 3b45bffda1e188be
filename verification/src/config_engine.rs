//! Layered configuration: a project layer over a global one. Here are the
//! rules that pick the layer a value comes from, the layer a write goes to,
//! how a dotted key splits into TOML table names, and how a key is written
//! into a file's TOML text. Reading and writing the files is the program's
//! work.
use vstd::prelude::*;

use crate::config::{
    LlmProvider, BusConfig, CompressConfig, CoreConfig, HealingConfig, PrivacyConfig, SavepointConfig, SyncConfig,
};
use crate::error::HawkError;
use crate::text::{
    chars_of, dec, find_from, first_match, push_decimal, str_eq, string_of_range, to_string,
    lemma_first_match_bounds,
};

verus! {

#[derive(Debug, Clone, PartialEq, Eq)]
pub enum ConfigScope {
    Global,
    Project,
    Agent(String),
}

/// A configuration value and the layer it came from.
#[derive(Debug, Clone)]
pub struct ConfigValue {
    pub value: String,
    pub source: ConfigScope,
}

/// The effective value of a key: the project layer's when it sets the key,
/// else the global layer's, else none.
pub fn effective_value(project: Option<String>, global: Option<String>) -> (r: Option<ConfigValue>)
    ensures
        match project {
            Some(p) => r matches Some(cv) && cv.value == p && cv.source is Project,
            None => match global {
                Some(g) => r matches Some(cv) && cv.value == g && cv.source is Global,
                None => r is None,
            },
        },
{
    match project {
        Some(value) => Some(ConfigValue { value, source: ConfigScope::Project }),
        None => match global {
            Some(value) => Some(ConfigValue { value, source: ConfigScope::Global }),
            None => None,
        },
    }
}

/// Where a write for `scope` goes: the global file, the project file when a
/// project directory is known, and never an agent (agents are configured by
/// their manifests).
pub fn write_target(scope: &ConfigScope, has_project_dir: bool) -> (r: Result<ConfigScope, HawkError>)
    ensures
        match *scope {
            ConfigScope::Global => r matches Ok(s) && s is Global,
            ConfigScope::Project => if has_project_dir {
                r matches Ok(s) && s is Project
            } else {
                r matches Err(HawkError::Config(m)) && m@ == "no project directory set"@
            },
            ConfigScope::Agent(_) => r matches Err(HawkError::Config(m)) && m@
                == "agent-level config is managed via the agent manifest"@,
        },
{
    match scope {
        ConfigScope::Global => Ok(ConfigScope::Global),
        ConfigScope::Project => {
            if has_project_dir {
                Ok(ConfigScope::Project)
            } else {
                Err(HawkError::Config(to_string("no project directory set")))
            }
        },
        ConfigScope::Agent(_) => Err(
            HawkError::Config(to_string("agent-level config is managed via the agent manifest")),
        ),
    }
}

/// A dotted key split at its first two dots (`splitn(3, '.')`): a field, a
/// table and a field, or a table, a sub-table and a field.
pub open spec fn key_segments(k: Seq<char>) -> Seq<Seq<char>> {
    let i = first_match(k, "."@, 0);
    if i < 0 {
        seq![k]
    } else {
        let j = first_match(k, "."@, i + 1);
        if j < 0 {
            seq![k.subrange(0, i), k.subrange(i + 1, k.len() as int)]
        } else {
            seq![k.subrange(0, i), k.subrange(i + 1, j), k.subrange(j + 1, k.len() as int)]
        }
    }
}

pub open spec fn texts_of(v: Seq<String>) -> Seq<Seq<char>> {
    v.map_values(|s: String| s@)
}

/// Splits a dotted configuration key into at most three segments.
pub fn split_key(key: &str) -> (r: Vec<String>)
    ensures
        texts_of(r@) == key_segments(key@),
        1 <= r@.len() <= 3,
{
    let v = chars_of(key);
    let dot: Vec<char> = vec!['.'];
    proof {
        reveal_strlit(".");
        assert(dot@ =~= "."@);
        lemma_first_match_bounds(v@, dot@, 0);
    }
    let n = v.len();
    let mut out: Vec<String> = Vec::new();
    match find_from(&v, &dot, 0) {
        None => {
            out.push(string_of_range(&v, 0, n));
            assert(v@.subrange(0, n as int) =~= v@);
        },
        Some(i) => {
            proof {
                lemma_first_match_bounds(v@, dot@, i + 1);
            }
            out.push(string_of_range(&v, 0, i));
            match find_from(&v, &dot, i + 1) {
                None => {
                    out.push(string_of_range(&v, i + 1, n));
                },
                Some(j) => {
                    out.push(string_of_range(&v, i + 1, j));
                    out.push(string_of_range(&v, j + 1, n));
                },
            }
        },
    }
    assert(texts_of(out@) =~= key_segments(key@));
    out
}

/// The configuration sections whose values are text, integers and flags.
#[derive(Debug, Clone)]
pub struct HawkSettings {
    pub core: CoreConfig,
    pub privacy: PrivacyConfig,
    pub savepoint: SavepointConfig,
    pub bus: BusConfig,
    pub sync: SyncConfig,
    pub compress: CompressConfig,
    pub healing: HealingConfig,
}

/// `bool::to_string`.
pub open spec fn flag_text(b: bool) -> Seq<char> {
    if b {
        "true"@
    } else {
        "false"@
    }
}

/// The text of the setting at dotted `key`, as `config get` prints it; none
/// for a key that names no such setting.
pub open spec fn extracted(cfg: HawkSettings, key: Seq<char>) -> Option<Seq<char>> {
    if key == "core.log_level"@ {
        Some(cfg.core.log_level@)
    } else if key == "core.session_retention_days"@ {
        Some(dec(cfg.core.session_retention_days as nat))
    } else if key == "core.pattern_retention_days"@ {
        Some(dec(cfg.core.pattern_retention_days as nat))
    } else if key == "privacy.mode"@ {
        Some(cfg.privacy.mode@)
    } else if key == "savepoint.auto_snapshot"@ {
        Some(flag_text(cfg.savepoint.auto_snapshot))
    } else if key == "savepoint.max_snapshots_per_agent"@ {
        Some(dec(cfg.savepoint.max_snapshots_per_agent as nat))
    } else if key == "bus.message_retention_seconds"@ {
        Some(dec(cfg.bus.message_retention_seconds as nat))
    } else if key == "bus.max_queue_size"@ {
        Some(dec(cfg.bus.max_queue_size as nat))
    } else if key == "sync.enabled"@ {
        Some(flag_text(cfg.sync.enabled))
    } else if key == "sync.conflict_strategy"@ {
        Some(cfg.sync.conflict_strategy@)
    } else if key == "compress.token_threshold"@ {
        Some(dec(cfg.compress.token_threshold as nat))
    } else if key == "compress.cache_max_entries"@ {
        Some(dec(cfg.compress.cache_max_entries as nat))
    } else if key == "healing.max_retries"@ {
        Some(dec(cfg.healing.max_retries as nat))
    } else if key == "healing.enabled"@ {
        Some(flag_text(cfg.healing.enabled))
    } else {
        None
    }
}

/// `config get` reads the setting its key names: each key of the settings
/// gives the text of the field of that section and name (numbers in
/// decimal, flags as `true`/`false`), and a key naming no setting gives
/// nothing.
pub proof fn extract_reads_the_named_field(cfg: HawkSettings, key: Seq<char>)
    ensures
        extracted(cfg, "core.log_level"@) == Some(cfg.core.log_level@),
        extracted(cfg, "core.session_retention_days"@) == Some(dec(cfg.core.session_retention_days as nat)),
        extracted(cfg, "core.pattern_retention_days"@) == Some(dec(cfg.core.pattern_retention_days as nat)),
        extracted(cfg, "privacy.mode"@) == Some(cfg.privacy.mode@),
        extracted(cfg, "savepoint.auto_snapshot"@) == Some(if cfg.savepoint.auto_snapshot {
            "true"@
        } else {
            "false"@
        }),
        extracted(cfg, "savepoint.max_snapshots_per_agent"@) == Some(dec(cfg.savepoint.max_snapshots_per_agent as nat)),
        extracted(cfg, "bus.message_retention_seconds"@) == Some(dec(cfg.bus.message_retention_seconds as nat)),
        extracted(cfg, "bus.max_queue_size"@) == Some(dec(cfg.bus.max_queue_size as nat)),
        extracted(cfg, "sync.enabled"@) == Some(if cfg.sync.enabled {
            "true"@
        } else {
            "false"@
        }),
        extracted(cfg, "sync.conflict_strategy"@) == Some(cfg.sync.conflict_strategy@),
        extracted(cfg, "compress.token_threshold"@) == Some(dec(cfg.compress.token_threshold as nat)),
        extracted(cfg, "compress.cache_max_entries"@) == Some(dec(cfg.compress.cache_max_entries as nat)),
        extracted(cfg, "healing.max_retries"@) == Some(dec(cfg.healing.max_retries as nat)),
        extracted(cfg, "healing.enabled"@) == Some(if cfg.healing.enabled {
            "true"@
        } else {
            "false"@
        }),
        !(key == "core.log_level"@ || key == "core.session_retention_days"@ || key == "core.pattern_retention_days"@
            || key == "privacy.mode"@ || key == "savepoint.auto_snapshot"@ || key
            == "savepoint.max_snapshots_per_agent"@ || key == "bus.message_retention_seconds"@ || key
            == "bus.max_queue_size"@ || key == "sync.enabled"@ || key == "sync.conflict_strategy"@ || key
            == "compress.token_threshold"@ || key == "compress.cache_max_entries"@ || key == "healing.max_retries"@
            || key == "healing.enabled"@) ==> extracted(cfg, key) is None,
{
    reveal_strlit("core.log_level");
    reveal_strlit("core.session_retention_days");
    reveal_strlit("core.pattern_retention_days");
    reveal_strlit("privacy.mode");
    reveal_strlit("savepoint.auto_snapshot");
    reveal_strlit("savepoint.max_snapshots_per_agent");
    reveal_strlit("bus.message_retention_seconds");
    reveal_strlit("bus.max_queue_size");
    reveal_strlit("sync.enabled");
    reveal_strlit("sync.conflict_strategy");
    reveal_strlit("compress.token_threshold");
    reveal_strlit("compress.cache_max_entries");
    reveal_strlit("healing.max_retries");
    reveal_strlit("healing.enabled");
    assert("core.log_level"@.len() == 14);
    assert("core.session_retention_days"@.len() == 27);
    assert("core.pattern_retention_days"@.len() == 27);
    assert("privacy.mode"@.len() == 12);
    assert("savepoint.auto_snapshot"@.len() == 23);
    assert("savepoint.max_snapshots_per_agent"@.len() == 33);
    assert("bus.message_retention_seconds"@.len() == 29);
    assert("bus.max_queue_size"@.len() == 18);
    assert("sync.enabled"@.len() == 12);
    assert("sync.conflict_strategy"@.len() == 22);
    assert("compress.token_threshold"@.len() == 24);
    assert("compress.cache_max_entries"@.len() == 26);
    assert("healing.max_retries"@.len() == 19);
    assert("healing.enabled"@.len() == 15);
    assert("core.session_retention_days"@[5] != "core.pattern_retention_days"@[5]);
    assert("privacy.mode"@[0] != "sync.enabled"@[0]);
}

fn decimal_text(n: u64) -> (s: String)
    ensures
        s@ == dec(n as nat),
{
    let mut s = String::new();
    push_decimal(&mut s, n);
    s
}

fn flag_string(b: bool) -> (s: String)
    ensures
        s@ == flag_text(b),
{
    if b {
        to_string("true")
    } else {
        to_string("false")
    }
}

/// The text of the setting at dotted `key`. The `llm` keys are not among
/// these settings: provider lists and prices are read from the full file.
pub fn extract(cfg: &HawkSettings, key: &str) -> (r: Option<String>)
    ensures
        match r {
            Some(s) => extracted(*cfg, key@) == Some(s@),
            None => extracted(*cfg, key@) is None,
        },
{
    if str_eq(key, "core.log_level") {
        Some(to_string(cfg.core.log_level.as_str()))
    } else if str_eq(key, "core.session_retention_days") {
        Some(decimal_text(cfg.core.session_retention_days as u64))
    } else if str_eq(key, "core.pattern_retention_days") {
        Some(decimal_text(cfg.core.pattern_retention_days as u64))
    } else if str_eq(key, "privacy.mode") {
        Some(to_string(cfg.privacy.mode.as_str()))
    } else if str_eq(key, "savepoint.auto_snapshot") {
        Some(flag_string(cfg.savepoint.auto_snapshot))
    } else if str_eq(key, "savepoint.max_snapshots_per_agent") {
        Some(decimal_text(cfg.savepoint.max_snapshots_per_agent as u64))
    } else if str_eq(key, "bus.message_retention_seconds") {
        Some(decimal_text(cfg.bus.message_retention_seconds))
    } else if str_eq(key, "bus.max_queue_size") {
        Some(decimal_text(cfg.bus.max_queue_size))
    } else if str_eq(key, "sync.enabled") {
        Some(flag_string(cfg.sync.enabled))
    } else if str_eq(key, "sync.conflict_strategy") {
        Some(to_string(cfg.sync.conflict_strategy.as_str()))
    } else if str_eq(key, "compress.token_threshold") {
        Some(decimal_text(cfg.compress.token_threshold as u64))
    } else if str_eq(key, "compress.cache_max_entries") {
        Some(decimal_text(cfg.compress.cache_max_entries as u64))
    } else if str_eq(key, "healing.max_retries") {
        Some(decimal_text(cfg.healing.max_retries as u64))
    } else if str_eq(key, "healing.enabled") {
        Some(flag_string(cfg.healing.enabled))
    } else {
        None
    }
}

/// The providers of the merged configuration: the project layer's when it
/// names any, otherwise the global layer's (none without a global file).
pub fn merged_providers(global: Option<Vec<LlmProvider>>, project: Option<Vec<LlmProvider>>) -> (r: Vec<LlmProvider>)
    ensures
        r@ == match project {
            Some(p) => if p@.len() > 0 {
                p@
            } else {
                match global {
                    Some(g) => g@,
                    None => Seq::empty(),
                }
            },
            None => match global {
                Some(g) => g@,
                None => Seq::empty(),
            },
        },
{
    let base = match global {
        Some(g) => g,
        None => Vec::new(),
    };
    match project {
        Some(p) => if p.len() > 0 {
            p
        } else {
            base
        },
        None => base,
    }
}

// ── Writing a key into TOML text ─────────────────────────────────────────────

/// What `toml_edit` reports when `text` is not a TOML document, if anything.
pub uninterp spec fn toml_parse_refusal(text: Seq<char>) -> Option<Seq<char>>;

/// Whether one of the `tables` on a key's path, walked from the root of the
/// document `text` (each missing one created as a table), is an item that
/// is not a table, so that nothing can be written under it.
pub uninterp spec fn toml_table_clash(text: Seq<char>, tables: Seq<Seq<char>>) -> bool;

/// The document `text`, as `toml_edit` prints it back, with the string
/// `value` written at the path `parts` (missing tables created, every other
/// item and its formatting kept).
pub uninterp spec fn toml_with(text: Seq<char>, parts: Seq<Seq<char>>, value: Seq<char>) -> Seq<char>;

/// `toml_edit`: parses `text` as a `DocumentMut`, writes `value` at
/// top-level `field`, prints the document. Claimed: the parse refusal, or
/// the edited text.
#[verifier::external_body]
fn toml_set_top(text: &str, field: &str, value: &str) -> (r: Result<String, Option<String>>)
    ensures
        match r {
            Ok(s) => toml_parse_refusal(text@) is None && s@ == toml_with(text@, seq![field@], value@),
            Err(Some(m)) => toml_parse_refusal(text@) == Some(m@),
            Err(None) => false,
        },
{
    let mut doc = text.parse::<toml_edit::DocumentMut>().map_err(|e| Some(e.to_string()))?;
    doc[field] = toml_edit::value(value);
    Ok(doc.to_string())
}

/// `toml_edit`: parses `text`, takes (or inserts) table `section`, writes
/// `value` at its `field`, prints the document. Claimed: the parse refusal,
/// the clash when `section` holds something other than a table (`None`), or
/// the edited text.
#[verifier::external_body]
fn toml_set_in_table(text: &str, section: &str, field: &str, value: &str) -> (r: Result<String, Option<String>>)
    ensures
        match r {
            Ok(s) => toml_parse_refusal(text@) is None && !toml_table_clash(text@, seq![section@]) && s@
                == toml_with(text@, seq![section@, field@], value@),
            Err(Some(m)) => toml_parse_refusal(text@) == Some(m@),
            Err(None) => toml_parse_refusal(text@) is None && toml_table_clash(text@, seq![section@]),
        },
{
    let mut doc = text.parse::<toml_edit::DocumentMut>().map_err(|e| Some(e.to_string()))?;
    let table = doc[section].or_insert(toml_edit::table());
    if !table.is_table_like() {
        return Err(None);
    }
    table[field] = toml_edit::value(value);
    Ok(doc.to_string())
}

/// `toml_edit`: as `toml_set_in_table`, one table deeper: `subsection`
/// inside `section`.
#[verifier::external_body]
fn toml_set_in_subtable(text: &str, section: &str, subsection: &str, field: &str, value: &str) -> (r: Result<
    String,
    Option<String>,
>)
    ensures
        match r {
            Ok(s) => toml_parse_refusal(text@) is None && !toml_table_clash(text@, seq![section@, subsection@])
                && s@ == toml_with(text@, seq![section@, subsection@, field@], value@),
            Err(Some(m)) => toml_parse_refusal(text@) == Some(m@),
            Err(None) => toml_parse_refusal(text@) is None && toml_table_clash(text@, seq![section@, subsection@]),
        },
{
    let mut doc = text.parse::<toml_edit::DocumentMut>().map_err(|e| Some(e.to_string()))?;
    let outer = doc[section].or_insert(toml_edit::table());
    if !outer.is_table_like() {
        return Err(None);
    }
    let inner = outer[subsection].or_insert(toml_edit::table());
    if !inner.is_table_like() {
        return Err(None);
    }
    inner[field] = toml_edit::value(value);
    Ok(doc.to_string())
}

/// Why a key could not be written into a TOML document.
#[derive(Debug, Clone, PartialEq, Eq)]
pub enum TomlEditError {
    /// The text is not TOML; `toml_edit`'s message.
    Parse(String),
    /// A table on the key's path is a value, so nothing can be put in it.
    NotATable,
}

/// The tables a key's segments pass through: all but the last.
pub open spec fn key_tables(parts: Seq<Seq<char>>) -> Seq<Seq<char>> {
    parts.drop_last()
}

/// Writes the string `value` at dotted `key` (split as `split_key` splits
/// it) into the TOML document `text`, creating missing tables and keeping
/// everything else. A missing file is the empty document.
pub fn set_in_toml(text: &str, key: &str, value: &str) -> (r: Result<String, TomlEditError>)
    ensures
        match toml_parse_refusal(text@) {
            Some(m) => r matches Err(TomlEditError::Parse(e)) && e@ == m,
            None => if key_segments(key@).len() > 1 && toml_table_clash(text@, key_tables(key_segments(key@))) {
                r matches Err(TomlEditError::NotATable)
            } else {
                r matches Ok(s) && s@ == toml_with(text@, key_segments(key@), value@)
            },
        },
{
    let parts = split_key(key);
    let res = if parts.len() == 1 {
        toml_set_top(text, parts[0].as_str(), value)
    } else if parts.len() == 2 {
        toml_set_in_table(text, parts[0].as_str(), parts[1].as_str(), value)
    } else {
        toml_set_in_subtable(text, parts[0].as_str(), parts[1].as_str(), parts[2].as_str(), value)
    };
    proof {
        let ks = key_segments(key@);
        assert(ks.len() == parts@.len());
        assert(ks[0] == parts@[0]@);
        if parts@.len() >= 2 {
            assert(ks[1] == parts@[1]@);
        }
        if parts@.len() == 3 {
            assert(ks[2] == parts@[2]@);
        }
        if ks.len() == 1 {
            assert(ks =~= seq![parts@[0]@]);
        } else if ks.len() == 2 {
            assert(ks =~= seq![parts@[0]@, parts@[1]@]);
            assert(key_tables(ks) =~= seq![parts@[0]@]);
        } else {
            assert(ks =~= seq![parts@[0]@, parts@[1]@, parts@[2]@]);
            assert(key_tables(ks) =~= seq![parts@[0]@, parts@[1]@]);
        }
    }
    match res {
        Ok(s) => Ok(s),
        Err(Some(m)) => Err(TomlEditError::Parse(m)),
        Err(None) => Err(TomlEditError::NotATable),
    }
}

} // verus!
