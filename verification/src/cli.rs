//! The `hawk` command line: its commands as values, and the helpers the
//! commands print with.
use vstd::prelude::*;
use vstd::utf8::{decode_utf8, encode_utf8, encode_utf8_decode_utf8, is_char_boundary};

use crate::text::{contains_seq, push_str, str_contains, to_string};
use crate::ui::uptime_text;

verus! {

#[derive(Debug, Clone, PartialEq)]
pub enum VaultCommand {
    SetValue { key: String, value: String },
    Get { key: String },
    Rm { key: String },
    List,
}

#[derive(Debug, Clone, PartialEq)]
pub enum ConfigCommand {
    Show,
    SetValue { key: String, value: String },
    Llm,
}

#[derive(Debug, Clone, PartialEq)]
pub enum BusCommand {
    Inspect,
}

#[derive(Debug, Clone, PartialEq)]
pub enum WatchCommand {
    Start,
    Stop,
    Alerts,
    Report,
    Scan { agent: String, path: String },
}

#[derive(Debug, Clone, PartialEq)]
pub enum StatsCommand {
    Show,
    Tokens,
    Cost,
}

#[derive(Debug, Clone, PartialEq)]
pub enum TalonCommand {
    List,
    Install { name: String },
    Remove { name: String },
}

#[derive(Debug, Clone, PartialEq)]
pub enum NestCommand {
    Search { query: String },
    Install { name: String },
    Publish { path: String },
}

#[derive(Debug, Clone, PartialEq)]
pub enum SdkCommand {
    Info,
    Init { language: String, name: String, output: Option<String> },
}

#[derive(Debug, Clone, PartialEq)]
pub enum SyncCommand {
    Enable { shared_secret: String },
    Select { item: String },
    Status,
    Peers,
    Resolve { strategy: String },
}

#[derive(Debug, Clone, PartialEq)]
pub enum PatternsCommand {
    List,
    Reset,
    Accept { pattern_id: String },
    Decline { pattern_id: String },
}

#[derive(Debug, Clone, PartialEq)]
pub enum HealingCommand {
    Status,
    History { agent_id: u32 },
}

/// Every `hawk` command.
#[derive(Debug, Clone, PartialEq)]
pub enum HawkCommand {
    Run { agent_command: String },
    Stop { process_id: u32 },
    Pause { process_id: u32 },
    Resume { process_id: u32 },
    Ps,
    Undo { snapshot_id: Option<String> },
    Diff { snapshot_id: String },
    Eye,
    Verify {
        session_id: String,
        transcript: Option<String>,
        project_dir: Option<String>,
        baseline: Option<String>,
        retest: bool,
    },
    Replay { session_id: String, step: Option<usize> },
    Vault(VaultCommand),
    Bus(BusCommand),
    Watch(WatchCommand),
    Stats(StatsCommand),
    Config(ConfigCommand),
    Talon(TalonCommand),
    Nest(NestCommand),
    Sdk(SdkCommand),
    Sync(SyncCommand),
    Orchestrate { task_description: String },
    Trust { agent_name: String },
    Patterns(PatternsCommand),
    Healing(HealingCommand),
    Setup { yes: bool, force: bool, only: Vec<String>, skip: Vec<String> },
}

/// Whether a provider endpoint is taken to answer: local endpoints are,
/// remote ones are not known without a network call.
pub open spec fn ping_answer(endpoint: Seq<char>) -> Seq<char> {
    if contains_seq(endpoint, "localhost"@) || contains_seq(endpoint, "127.0.0.1"@) {
        "available"@
    } else {
        "unknown"@
    }
}

pub fn ping_provider(endpoint: &str) -> (s: &'static str)
    ensures
        s@ == ping_answer(endpoint@),
{
    if str_contains(endpoint, "localhost") || str_contains(endpoint, "127.0.0.1") {
        "available"
    } else {
        "unknown"
    }
}

/// `HH:MM:SS` for a duration.
pub fn format_uptime(d: std::time::Duration) -> (s: String)
    ensures
        s@ == uptime_text(crate::ui::duration_secs(d) as nat),
{
    crate::ui::format_uptime(d)
}

/// `s` if it is at most `max` bytes long, else its first `max - 1` bytes
/// followed by an ellipsis.
pub fn truncate(s: &str, max: usize) -> (r: String)
    requires
        encode_utf8(s@).len() > max ==> is_char_boundary(encode_utf8(s@), if max > 0 { max - 1 } else { 0 }),
    ensures
        encode_utf8(s@).len() <= max ==> r@ == s@,
        encode_utf8(s@).len() > max ==> r@ == decode_utf8(
            encode_utf8(s@).subrange(0, if max > 0 { max - 1 } else { 0 }),
        ) + "…"@,
{
    let n = s.as_bytes().len();
    if n <= max {
        to_string(s)
    } else {
        let k = if max > 0 { max - 1 } else { 0 };
        let (head, _) = s.split_at(k);
        let mut r = to_string(head);
        push_str(&mut r, "…");
        proof {
            encode_utf8_decode_utf8(head@);
            assert(encode_utf8(head@) == encode_utf8(s@).subrange(0, k as int));
            assert(decode_utf8(encode_utf8(s@).subrange(0, k as int)) == head@);
            assert(r@ == head@ + "…"@);
            assert(k as int == if max > 0 { max - 1 } else { 0 });
        }
        r
    }
}

} // verus!
