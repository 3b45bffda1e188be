//! The HawkEye dashboard's state and its key handling: which agent is
//! selected, which panel is shown, what the status line says, plus the
//! renderings of uptimes and byte counts.
use vstd::prelude::*;

use crate::text::{
    contains_seq, dec, dec2, digit_char, ends_with, push_char, push_decimal, push_decimal2, push_str,
    str_contains, to_lowercase, to_string, unicode_lower,
};
use crate::types::{AgentStatus, LifecycleState};

verus! {

#[derive(Debug, Clone, Copy, PartialEq, Eq, Structural)]
pub enum AlertSeverity {
    Info,
    Warning,
    Error,
}

#[derive(Debug, Clone)]
pub struct Alert {
    pub timestamp: String,
    pub message: String,
    pub severity: AlertSeverity,
}

/// A node of the orchestration graph shown on the dashboard.
#[derive(Debug, Clone)]
pub struct OrchestrationNode {
    pub index: usize,
    pub description: String,
    pub assigned_agent: Option<u32>,
    pub status: OrchestrationNodeStatus,
    pub depends_on: Vec<usize>,
}

#[derive(Debug, Clone, PartialEq)]
pub enum OrchestrationNodeStatus {
    Pending,
    Running,
    Completed,
    Failed(String),
}

impl OrchestrationNodeStatus {
    pub fn label(&self) -> (s: &'static str)
        ensures
            s@ == match self {
                OrchestrationNodeStatus::Pending => "Pending"@,
                OrchestrationNodeStatus::Running => "Running"@,
                OrchestrationNodeStatus::Completed => "Completed"@,
                OrchestrationNodeStatus::Failed(_) => "Failed"@,
            },
    {
        match self {
            OrchestrationNodeStatus::Pending => "Pending",
            OrchestrationNodeStatus::Running => "Running",
            OrchestrationNodeStatus::Completed => "Completed",
            OrchestrationNodeStatus::Failed(_) => "Failed",
        }
    }
}

#[derive(Debug, Clone, Copy, PartialEq, Eq, Structural)]
pub enum HawkEyeView {
    Dashboard,
    AgentDetail(u32),
    AlertsPanel,
    OrchestrationGraph,
}

#[derive(Debug, Clone, PartialEq)]
pub enum AppAction {
    SelectNext,
    SelectPrev,
    OpenDetail,
    CloseDetail,
    Quit,
    StartSearch,
    SwitchPanel,
    UndoSelected,
    SetStatusMessage(String),
}

/// A key press, as the terminal reports it.
#[derive(Debug, Clone, Copy, PartialEq, Eq, Structural)]
pub enum Key {
    Char(char),
    Up,
    Down,
    Enter,
    Esc,
    Tab,
    Other,
}

pub struct HawkEyeApp {
    pub agents: Vec<AgentStatus>,
    pub alerts: Vec<Alert>,
    pub selected_agent: Option<usize>,
    pub view: HawkEyeView,
    pub search_query: String,
    pub status_message: Option<String>,
    pub orchestration_nodes: Vec<OrchestrationNode>,
}

// ── Specification ────────────────────────────────────────────────────────────

/// The action bound to a key.
pub open spec fn key_action(key: Key) -> Option<AppAction> {
    match key {
        Key::Char('q') => Some(AppAction::Quit),
        Key::Char('j') | Key::Down => Some(AppAction::SelectNext),
        Key::Char('k') | Key::Up => Some(AppAction::SelectPrev),
        Key::Enter => Some(AppAction::OpenDetail),
        Key::Esc => Some(AppAction::CloseDetail),
        Key::Char('/') => Some(AppAction::StartSearch),
        Key::Tab => Some(AppAction::SwitchPanel),
        Key::Char('u') => Some(AppAction::UndoSelected),
        _ => None,
    }
}

/// The agents whose lower-cased name contains the lower-cased query, in
/// order; every agent when the query is empty.
pub open spec fn agents_matching(agents: Seq<AgentStatus>, q: Seq<char>) -> Seq<AgentStatus>
    decreases agents.len(),
{
    if q.len() == 0 {
        agents
    } else if agents.len() == 0 {
        Seq::empty()
    } else if contains_seq(unicode_lower(agents.last().name@), unicode_lower(q)) {
        agents_matching(agents.drop_last(), q).push(agents.last())
    } else {
        agents_matching(agents.drop_last(), q)
    }
}

/// Selection after moving down a list of `n` entries.
pub open spec fn next_selection(sel: Option<usize>, n: nat) -> Option<usize> {
    if n == 0 {
        sel
    } else {
        Some(
            match sel {
                None => 0usize,
                Some(i) => if i + 1 < n { (i + 1) as usize } else { (n - 1) as usize },
            },
        )
    }
}

/// Selection after moving up a list of `n` entries.
pub open spec fn prev_selection(sel: Option<usize>, n: nat) -> Option<usize> {
    if n == 0 {
        sel
    } else {
        Some(
            match sel {
                None => 0usize,
                Some(i) => if i == 0 { 0usize } else { (i - 1) as usize },
            },
        )
    }
}

/// The panel shown after switching from `v`.
pub open spec fn next_panel(v: HawkEyeView) -> HawkEyeView {
    match v {
        HawkEyeView::Dashboard => HawkEyeView::AlertsPanel,
        HawkEyeView::AlertsPanel => HawkEyeView::OrchestrationGraph,
        HawkEyeView::OrchestrationGraph => HawkEyeView::Dashboard,
        HawkEyeView::AgentDetail(_) => HawkEyeView::Dashboard,
    }
}

pub open spec fn no_agent_selected_msg() -> Seq<char> {
    "No agent selected."@
}

/// `a` and `b` hold the same agents, alerts, query and graph.
pub open spec fn same_data(a: HawkEyeApp, b: HawkEyeApp) -> bool {
    &&& a.agents == b.agents
    &&& a.alerts == b.alerts
    &&& a.search_query == b.search_query
    &&& a.orchestration_nodes == b.orchestration_nodes
}

// ── Laws ─────────────────────────────────────────────────────────────────────

/// Moving the selection over a non-empty list lands on an entry of it, as
/// long as the selection was on an entry (or absent) before.
pub proof fn selection_stays_in_range(sel: Option<usize>, n: nat)
    requires
        n > 0,
        n <= usize::MAX,
        sel matches Some(i) ==> i < n,
    ensures
        next_selection(sel, n) matches Some(j) && j < n,
        prev_selection(sel, n) matches Some(j) && j < n,
{
}

/// Switching panels three times from the dashboard comes back to it, and
/// from any view the dashboard is reached within three switches.
pub proof fn panels_cycle(v: HawkEyeView)
    ensures
        next_panel(next_panel(next_panel(HawkEyeView::Dashboard))) == HawkEyeView::Dashboard,
        v == HawkEyeView::Dashboard || next_panel(v) == HawkEyeView::Dashboard || next_panel(next_panel(v))
            == HawkEyeView::Dashboard,
{
}

// ── The app ──────────────────────────────────────────────────────────────────

impl HawkEyeApp {
    pub fn new() -> (app: Self)
        ensures
            app.agents@.len() == 0,
            app.alerts@.len() == 0,
            app.selected_agent is None,
            app.view == HawkEyeView::Dashboard,
            app.search_query@.len() == 0,
            app.status_message is None,
            app.orchestration_nodes@.len() == 0,
    {
        HawkEyeApp {
            agents: Vec::new(),
            alerts: Vec::new(),
            selected_agent: None,
            view: HawkEyeView::Dashboard,
            search_query: String::new(),
            status_message: None,
            orchestration_nodes: Vec::new(),
        }
    }

    pub fn handle_key(&self, key: Key) -> (a: Option<AppAction>)
        ensures
            a == key_action(key),
    {
        match key {
            Key::Char('q') => Some(AppAction::Quit),
            Key::Char('j') | Key::Down => Some(AppAction::SelectNext),
            Key::Char('k') | Key::Up => Some(AppAction::SelectPrev),
            Key::Enter => Some(AppAction::OpenDetail),
            Key::Esc => Some(AppAction::CloseDetail),
            Key::Char('/') => Some(AppAction::StartSearch),
            Key::Tab => Some(AppAction::SwitchPanel),
            Key::Char('u') => Some(AppAction::UndoSelected),
            _ => None,
        }
    }

    /// The agents shown: those matching the search query.
    pub fn filtered_agents(&self) -> (r: Vec<&AgentStatus>)
        ensures
            r@.map_values(|a: &AgentStatus| *a) == agents_matching(self.agents@, self.search_query@),
    {
        let mut out: Vec<&AgentStatus> = Vec::new();
        if self.search_query.unicode_len() == 0 {
            let mut i: usize = 0;
            while i < self.agents.len()
                invariant
                    i <= self.agents@.len(),
                    out@.map_values(|a: &AgentStatus| *a) == self.agents@.take(i as int),
                decreases self.agents.len() - i,
            {
                let ghost before = out@;
                out.push(&self.agents[i]);
                proof {
                    assert(out@.map_values(|a: &AgentStatus| *a) =~= before.map_values(|a: &AgentStatus| *a).push(self.agents@[i as int]));
                    assert(self.agents@.take(i + 1) =~= self.agents@.take(i as int).push(self.agents@[i as int]));
                }
                i = i + 1;
            }
            assert(self.agents@.take(self.agents@.len() as int) =~= self.agents@);
            return out;
        }
        let q = to_lowercase(self.search_query.as_str());
        let mut i: usize = 0;
        while i < self.agents.len()
            invariant
                i <= self.agents@.len(),
                self.search_query@.len() > 0,
                q@ == unicode_lower(self.search_query@),
                out@.map_values(|a: &AgentStatus| *a) == agents_matching(self.agents@.take(i as int), self.search_query@),
            decreases self.agents.len() - i,
        {
            let name = to_lowercase(self.agents[i].name.as_str());
            let ghost before = out@;
            proof {
                assert(self.agents@.take(i + 1).drop_last() =~= self.agents@.take(i as int));
            }
            if str_contains(name.as_str(), q.as_str()) {
                out.push(&self.agents[i]);
                assert(out@.map_values(|a: &AgentStatus| *a) =~= before.map_values(|a: &AgentStatus| *a).push(self.agents@[i as int]));
            }
            i = i + 1;
        }
        assert(self.agents@.take(self.agents@.len() as int) =~= self.agents@);
        out
    }

    /// Applies `action`. Undoing the selected agent is left to the caller:
    /// the agent's id comes back, and the caller reports the rollback with
    /// `SetStatusMessage`.
    pub fn apply_action(&mut self, action: AppAction) -> (rollback: Option<u32>)
        ensures
            same_data(*final(self), *old(self)),
            ({
                let shown = agents_matching(old(self).agents@, old(self).search_query@);
                let n = shown.len();
                let sel = old(self).selected_agent;
                let picked = sel matches Some(i) && i < n;
                match action {
                    AppAction::SelectNext => final(self).selected_agent == next_selection(sel, n)
                        && final(self).view == old(self).view && final(self).status_message == old(self).status_message
                        && rollback is None,
                    AppAction::SelectPrev => final(self).selected_agent == prev_selection(sel, n)
                        && final(self).view == old(self).view && final(self).status_message == old(self).status_message
                        && rollback is None,
                    AppAction::OpenDetail => final(self).selected_agent == sel
                        && final(self).view == (if picked { HawkEyeView::AgentDetail(shown[sel->0 as int].pid) } else { old(self).view })
                        && final(self).status_message == old(self).status_message && rollback is None,
                    AppAction::CloseDetail => final(self).selected_agent == sel && final(self).view == HawkEyeView::Dashboard
                        && final(self).status_message == old(self).status_message && rollback is None,
                    AppAction::SwitchPanel => final(self).selected_agent == sel && final(self).view == next_panel(old(self).view)
                        && final(self).status_message == old(self).status_message && rollback is None,
                    AppAction::StartSearch => final(self).selected_agent == sel && final(self).view == old(self).view
                        && (final(self).status_message matches Some(m) && m@ == "Search: "@) && rollback is None,
                    AppAction::UndoSelected => final(self).selected_agent == sel && final(self).view == old(self).view
                        && if picked {
                            rollback == Some(shown[sel->0 as int].pid) && final(self).status_message == old(self).status_message
                        } else {
                            rollback is None && (final(self).status_message matches Some(m) && m@ == no_agent_selected_msg())
                        },
                    AppAction::SetStatusMessage(m) => final(self).selected_agent == sel && final(self).view == old(self).view
                        && final(self).status_message == Some(m) && rollback is None,
                    AppAction::Quit => final(self).selected_agent == sel && final(self).view == old(self).view
                        && final(self).status_message == old(self).status_message && rollback is None,
                }
            }),
    {
        match action {
            AppAction::SelectNext => {
                let len = self.filtered_agents().len();
                if len == 0 {
                    return None;
                }
                self.selected_agent = Some(
                    match self.selected_agent {
                        None => 0,
                        Some(i) => if i < len - 1 { i + 1 } else { len - 1 },
                    },
                );
                None
            },
            AppAction::SelectPrev => {
                let len = self.filtered_agents().len();
                if len == 0 {
                    return None;
                }
                self.selected_agent = Some(
                    match self.selected_agent {
                        None => 0,
                        Some(0) => 0,
                        Some(i) => i - 1,
                    },
                );
                None
            },
            AppAction::OpenDetail => {
                if let Some(idx) = self.selected_agent {
                    let filtered = self.filtered_agents();
                    if idx < filtered.len() {
                        let pid = filtered[idx].pid;
                        assert(filtered@.map_values(|a: &AgentStatus| *a)[idx as int] == *filtered@[idx as int]);
                        self.view = HawkEyeView::AgentDetail(pid);
                    }
                }
                None
            },
            AppAction::CloseDetail => {
                self.view = HawkEyeView::Dashboard;
                None
            },
            AppAction::SwitchPanel => {
                self.view = match self.view {
                    HawkEyeView::Dashboard => HawkEyeView::AlertsPanel,
                    HawkEyeView::AlertsPanel => HawkEyeView::OrchestrationGraph,
                    HawkEyeView::OrchestrationGraph => HawkEyeView::Dashboard,
                    HawkEyeView::AgentDetail(_) => HawkEyeView::Dashboard,
                };
                None
            },
            AppAction::StartSearch => {
                self.status_message = Some(to_string("Search: "));
                None
            },
            AppAction::UndoSelected => {
                if let Some(idx) = self.selected_agent {
                    let filtered = self.filtered_agents();
                    if idx < filtered.len() {
                        let pid = filtered[idx].pid;
                        assert(filtered@.map_values(|a: &AgentStatus| *a)[idx as int] == *filtered@[idx as int]);
                        return Some(pid);
                    }
                }
                self.status_message = Some(to_string("No agent selected."));
                None
            },
            AppAction::SetStatusMessage(msg) => {
                self.status_message = Some(msg);
                None
            },
            AppAction::Quit => None,
        }
    }
}

impl Default for HawkEyeApp {
    fn default() -> (app: Self)
        ensures
            app.agents@.len() == 0,
            app.alerts@.len() == 0,
            app.selected_agent is None,
            app.view == HawkEyeView::Dashboard,
            app.search_query@.len() == 0,
            app.status_message is None,
            app.orchestration_nodes@.len() == 0,
    {
        Self::new()
    }
}

// ── Renderings ───────────────────────────────────────────────────────────────

/// `HH:MM:SS` for a number of seconds; the hours grow past two digits.
pub open spec fn uptime_text(total: nat) -> Seq<char> {
    dec2(total / 3600) + ":"@ + dec2((total % 3600) / 60) + ":"@ + dec2(total % 60)
}

/// `HH:MM:SS` for `total` seconds.
pub fn uptime_from_secs(total: u64) -> (s: String)
    ensures
        s@ == uptime_text(total as nat),
{
    let mut s = String::new();
    push_decimal2(&mut s, total / 3600);
    push_str(&mut s, ":");
    push_decimal2(&mut s, (total % 3600) / 60);
    push_str(&mut s, ":");
    push_decimal2(&mut s, total % 60);
    proof {
        reveal_strlit(":");
    }
    s
}

/// The whole seconds of a duration.
pub uninterp spec fn duration_secs(d: std::time::Duration) -> u64;

/// `Duration::as_secs`: the whole seconds of `d`.
#[verifier::external_body]
fn whole_secs(d: &std::time::Duration) -> (n: u64)
    ensures
        n == duration_secs(*d),
{
    d.as_secs()
}

/// `HH:MM:SS` for a duration.
pub fn format_uptime(d: std::time::Duration) -> (s: String)
    ensures
        s@ == uptime_text(duration_secs(d) as nat),
{
    uptime_from_secs(whole_secs(&d))
}

/// `a / b` rounded to the nearest integer, ties to the even one.
pub open spec fn round_half_even(a: nat, b: nat) -> nat {
    let q = a / b;
    let r = a % b;
    if 2 * r > b || (2 * r == b && q % 2 == 1) {
        q + 1
    } else {
        q
    }
}

/// The power of two that an integer's `f64` is a multiple of: 1 below
/// 2^53, doubling with each further bit.
pub open spec fn f64_scale(m: nat) -> nat
    decreases m,
{
    if m < 0x20_0000_0000_0000 {
        1
    } else {
        2 * f64_scale(m / 2)
    }
}

/// The value of `n as f64`: `n` rounded to 53 significant bits, ties to
/// even.
pub open spec fn f64_of(n: nat) -> nat {
    round_half_even(n, f64_scale(n)) * f64_scale(n)
}

/// `t` tenths rendered with one decimal.
pub open spec fn one_decimal(t: nat) -> Seq<char> {
    dec(t / 10) + "."@ + seq![digit_char(t % 10)]
}

/// A byte count: exact below 1024, else in KB or MB with one decimal,
/// rounded as `{:.1}` rounds the `f64` quotient.
pub open spec fn bytes_text(b: nat) -> Seq<char> {
    if b < 1024 {
        dec(b) + "B"@
    } else if b < 1048576 {
        one_decimal(round_half_even(f64_of(b) * 10, 1024)) + "KB"@
    } else {
        one_decimal(round_half_even(f64_of(b) * 10, 1048576)) + "MB"@
    }
}

/// The unit of a formatted size: bytes below 1024, kilobytes below 1024
/// kilobytes, megabytes above.
pub proof fn bytes_text_unit(b: nat)
    ensures
        b < 1024 ==> bytes_text(b) == dec(b) + "B"@,
        1024 <= b < 1048576 ==> ends_with(bytes_text(b), "KB"@),
        1048576 <= b ==> ends_with(bytes_text(b), "MB"@),
{
    let x = one_decimal(round_half_even(f64_of(b) * 10, 1024));
    let y = one_decimal(round_half_even(f64_of(b) * 10, 1048576));
    reveal_strlit("KB");
    reveal_strlit("MB");
    assert((x + "KB"@).subrange((x + "KB"@).len() - 2, (x + "KB"@).len() as int) =~= "KB"@);
    assert((y + "MB"@).subrange((y + "MB"@).len() - 2, (y + "MB"@).len() as int) =~= "MB"@);
}

fn round_half_even_exec(a: u128, b: u128) -> (r: u128)
    requires
        0 < b <= 0x1_0000_0000,
        a < 0x1_0000_0000_0000_0000_0000_0000_0000,
    ensures
        r == round_half_even(a as nat, b as nat),
        r <= a as int / (b as int) + 1,
{
    let q = a / b;
    let r = a % b;
    if 2 * r > b || (2 * r == b && q % 2 == 1) {
        q + 1
    } else {
        q
    }
}

fn f64_value(n: u64) -> (v: u128)
    ensures
        v == f64_of(n as nat),
        v <= 0x1_0000_0000_0000_1000,
{
    let mut m: u64 = n;
    let mut s: u128 = 1;
    while m >= 0x20_0000_0000_0000
        invariant
            1 <= s <= 0x1000,
            m == (n as int) / (s as int),
            s * f64_scale(m as nat) == f64_scale(n as nat),
            s * m <= n,
        decreases m,
    {
        proof {
            vstd::arithmetic::div_mod::lemma_div_denominator(n as int, s as int, 2);
            assert((s * 2) as int == (s as int) * 2);
            assert(s * 0x20_0000_0000_0000 <= s * m) by (nonlinear_arith)
                requires m >= 0x20_0000_0000_0000, s >= 1;
            assert(s * 2 <= 0x1000) by (nonlinear_arith)
                requires s * 0x20_0000_0000_0000 <= n, n < 0x1_0000_0000_0000_0000, s >= 1;
            assert((s * 2) * (m / 2) <= s * m) by (nonlinear_arith)
                requires s >= 1;
            assert(s * f64_scale(m as nat) == (s * 2) * f64_scale((m / 2) as nat)) by (nonlinear_arith)
                requires f64_scale(m as nat) == 2 * f64_scale((m / 2) as nat);
        }
        m = m / 2;
        s = s * 2;
    }
    let q = (n as u128) / s;
    let r = (n as u128) % s;
    let q2 = if 2 * r > s || (2 * r == s && q % 2 == 1) { q + 1 } else { q };
    proof {
        assert(f64_scale(m as nat) == 1);
        let fm = f64_scale(m as nat);
        let fnn = f64_scale(n as nat);
        assert(fnn == s) by (nonlinear_arith)
            requires s * fm == fnn, fm == 1;
        assert(q2 * s <= (n as u128) + s) by (nonlinear_arith)
            requires q == (n as int) / (s as int), q2 <= q + 1, s >= 1, n >= 0;
    }
    q2 * s
}

fn push_one_decimal(out: &mut String, t: u128)
    requires
        t < 0x1_0000_0000_0000_0000,
    ensures
        final(out)@ == old(out)@ + one_decimal(t as nat),
{
    push_decimal(out, (t / 10) as u64);
    push_char(out, '.');
    let d = (t % 10) as u64;
    let c: char = ((d as u8) + 48) as char;
    push_char(out, c);
    proof {
        reveal_strlit(".");
        assert(((t / 10) as u64) as nat == (t as nat) / 10);
        assert(c == digit_char((t % 10) as nat));
        assert(final(out)@ =~= old(out)@ + one_decimal(t as nat));
    }
}

/// A byte count as `512B`, `2.0KB` or `1.0MB`.
pub fn format_bytes(bytes: u64) -> (s: String)
    ensures
        s@ == bytes_text(bytes as nat),
{
    let mut s = String::new();
    if bytes < 1024 {
        push_decimal(&mut s, bytes);
        push_str(&mut s, "B");
    } else {
        let v = f64_value(bytes);
        let unit: u128 = if bytes < 1048576 { 1024 } else { 1048576 };
        let t = round_half_even_exec(v * 10, unit);
        proof {
            assert(t <= (v * 10) as int / (unit as int) + 1);
            assert((v * 10) as int / (unit as int) <= (v * 10) as int / 1024) by (nonlinear_arith)
                requires unit >= 1024, v >= 0;
        }
        push_one_decimal(&mut s, t);
        if bytes < 1048576 {
            push_str(&mut s, "KB");
        } else {
            push_str(&mut s, "MB");
        }
    }
    s
}

pub fn state_label(state: &LifecycleState) -> (s: &'static str)
    ensures
        s@ == match *state {
            LifecycleState::Starting => "Starting"@,
            LifecycleState::Running => "Running"@,
            LifecycleState::Paused => "Paused"@,
            LifecycleState::Stopping => "Stopping"@,
            LifecycleState::Stopped => "Stopped"@,
            LifecycleState::Failed => "Failed"@,
        },
{
    match state {
        LifecycleState::Starting => "Starting",
        LifecycleState::Running => "Running",
        LifecycleState::Paused => "Paused",
        LifecycleState::Stopping => "Stopping",
        LifecycleState::Stopped => "Stopped",
        LifecycleState::Failed => "Failed",
    }
}

// ── Alerts, newest first ─────────────────────────────────────────────────────

/// `a` sorts before `b` as strings do: by code point, a proper prefix
/// first.
pub open spec fn text_lt(a: Seq<char>, b: Seq<char>) -> bool
    decreases a.len(),
{
    if a.len() == 0 {
        b.len() > 0
    } else if b.len() == 0 {
        false
    } else if (a[0] as u32) != (b[0] as u32) {
        (a[0] as u32) < (b[0] as u32)
    } else {
        text_lt(a.drop_first(), b.drop_first())
    }
}

fn text_lt_exec(a: &str, b: &str) -> (r: bool)
    ensures
        r == text_lt(a@, b@),
{
    let x = crate::text::chars_of(a);
    let y = crate::text::chars_of(b);
    let mut i: usize = 0;
    assert(a@.skip(0) =~= a@);
    assert(b@.skip(0) =~= b@);
    while i < x.len() && i < y.len() && (x[i] as u32) == (y[i] as u32)
        invariant
            i <= x@.len(),
            i <= y@.len(),
            x@ == a@,
            y@ == b@,
            text_lt(a@, b@) == text_lt(a@.skip(i as int), b@.skip(i as int)),
        decreases x.len() - i,
    {
        proof {
            assert(a@.skip(i as int).drop_first() =~= a@.skip(i + 1));
            assert(b@.skip(i as int).drop_first() =~= b@.skip(i + 1));
        }
        i = i + 1;
    }
    if i == x.len() {
        i < y.len()
    } else if i == y.len() {
        false
    } else {
        (x[i] as u32) < (y[i] as u32)
    }
}

/// One step of a stable sort, newest first: `a` goes after every alert at
/// least as new.
pub open spec fn insert_newest(s: Seq<Alert>, a: Alert) -> Seq<Alert>
    decreases s.len(),
{
    if s.len() == 0 {
        seq![a]
    } else if !text_lt(s.last().timestamp@, a.timestamp@) {
        s.push(a)
    } else {
        insert_newest(s.drop_last(), a).push(s.last())
    }
}

/// The alerts stably sorted by timestamp, newest first (a sort on the
/// reversed timestamp order).
pub open spec fn newest_first(s: Seq<Alert>) -> Seq<Alert>
    decreases s.len(),
{
    if s.len() == 0 {
        Seq::empty()
    } else {
        insert_newest(newest_first(s.drop_last()), s.last())
    }
}

proof fn lemma_insert_newest_at(s: Seq<Alert>, a: Alert, j: int)
    requires
        0 <= j <= s.len(),
        forall|i: int| j <= i < s.len() ==> text_lt((#[trigger] s[i]).timestamp@, a.timestamp@),
        j == 0 || !text_lt(s[j - 1].timestamp@, a.timestamp@),
    ensures
        insert_newest(s, a) == s.insert(j, a),
    decreases s.len(),
{
    if s.len() == 0 {
        assert(s.insert(j, a) =~= seq![a]);
    } else if j == s.len() {
        assert(s.insert(j, a) =~= s.push(a));
    } else {
        lemma_insert_newest_at(s.drop_last(), a, j);
        assert(s.drop_last().insert(j, a).push(s.last()) =~= s.insert(j, a));
    }
}

/// Text order is asymmetric.
pub proof fn text_lt_asymmetric(a: Seq<char>, b: Seq<char>)
    ensures
        text_lt(a, b) ==> !text_lt(b, a),
    decreases a.len(),
{
    if a.len() > 0 && b.len() > 0 && (a[0] as u32) == (b[0] as u32) {
        text_lt_asymmetric(a.drop_first(), b.drop_first());
    }
}

/// If `a` sorts before `c`, any `b` sorts after `a` or before `c`.
pub proof fn text_lt_splits(a: Seq<char>, b: Seq<char>, c: Seq<char>)
    ensures
        text_lt(a, c) ==> text_lt(a, b) || text_lt(b, c),
    decreases a.len(),
{
    if a.len() > 0 && b.len() > 0 && c.len() > 0 {
        if (a[0] as u32) == (b[0] as u32) && (b[0] as u32) == (c[0] as u32) {
            text_lt_splits(a.drop_first(), b.drop_first(), c.drop_first());
        }
    }
}

/// Alert `x` is at least as new as alert `y`.
pub open spec fn at_least_as_new(x: Alert, y: Alert) -> bool {
    !text_lt(x.timestamp@, y.timestamp@)
}

/// Every alert is at least as new as each one after it.
pub open spec fn ordered_newest_first(s: Seq<Alert>) -> bool {
    forall|i: int, j: int| 0 <= i < j < s.len() ==> #[trigger] at_least_as_new(s[i], s[j])
}

proof fn lemma_at_least_as_new_trans(x: Alert, y: Alert, z: Alert)
    requires
        at_least_as_new(x, y),
        at_least_as_new(y, z),
    ensures
        at_least_as_new(x, z),
{
    text_lt_splits(x.timestamp@, y.timestamp@, z.timestamp@);
}

proof fn lemma_insert_newest_bound(t: Seq<Alert>, a: Alert, z: Alert)
    requires
        forall|i: int| 0 <= i < t.len() ==> #[trigger] at_least_as_new(t[i], z),
        at_least_as_new(a, z),
    ensures
        forall|i: int| 0 <= i < insert_newest(t, a).len() ==> #[trigger] at_least_as_new(insert_newest(t, a)[i], z),
    decreases t.len(),
{
    if t.len() > 0 && text_lt(t.last().timestamp@, a.timestamp@) {
        let u = t.drop_last();
        assert forall|i: int| 0 <= i < u.len() implies #[trigger] at_least_as_new(u[i], z) by {
            assert(u[i] == t[i]);
        }
        lemma_insert_newest_bound(u, a, z);
        let r = insert_newest(u, a).push(t.last());
        assert forall|i: int| 0 <= i < r.len() implies #[trigger] at_least_as_new(r[i], z) by {
            if i < r.len() - 1 {
                assert(r[i] == insert_newest(u, a)[i]);
            } else {
                assert(at_least_as_new(t[t.len() - 1], z));
            }
        }
    } else if t.len() > 0 {
        let r = t.push(a);
        assert forall|i: int| 0 <= i < r.len() implies #[trigger] at_least_as_new(r[i], z) by {
            if i < t.len() {
                assert(r[i] == t[i]);
            }
        }
    }
}

proof fn lemma_insert_newest_ordered(t: Seq<Alert>, a: Alert)
    requires
        ordered_newest_first(t),
    ensures
        ordered_newest_first(insert_newest(t, a)),
        insert_newest(t, a).to_multiset() == t.to_multiset().insert(a),
    decreases t.len(),
{
    broadcast use vstd::seq_lib::group_to_multiset_ensures;
    if t.len() == 0 {
        assert(seq![a] =~= t.push(a));
    } else if !text_lt(t.last().timestamp@, a.timestamp@) {
        let r = t.push(a);
        assert forall|i: int, j: int| 0 <= i < j < r.len() implies #[trigger] at_least_as_new(r[i], r[j]) by {
            if j == t.len() {
                assert(r[i] == t[i]);
                if i < t.len() - 1 {
                    assert(at_least_as_new(t[i], t[t.len() - 1]));
                    lemma_at_least_as_new_trans(t[i], t[t.len() - 1], a);
                }
            } else {
                assert(r[i] == t[i] && r[j] == t[j]);
            }
        }
    } else {
        let u = t.drop_last();
        let last = t.last();
        assert forall|i: int, j: int| 0 <= i < j < u.len() implies #[trigger] at_least_as_new(u[i], u[j]) by {
            assert(u[i] == t[i] && u[j] == t[j]);
        }
        lemma_insert_newest_ordered(u, a);
        let m = insert_newest(u, a);
        assert forall|i: int| 0 <= i < u.len() implies #[trigger] at_least_as_new(u[i], last) by {
            assert(u[i] == t[i]);
            assert(at_least_as_new(t[i], t[t.len() - 1]));
        }
        text_lt_asymmetric(last.timestamp@, a.timestamp@);
        lemma_insert_newest_bound(u, a, last);
        let r = m.push(last);
        assert forall|i: int, j: int| 0 <= i < j < r.len() implies #[trigger] at_least_as_new(r[i], r[j]) by {
            assert(r[i] == m[i]);
            if j < m.len() {
                assert(r[j] == m[j]);
            }
        }
        assert(t =~= u.push(last));
        assert(t.to_multiset() == u.to_multiset().insert(last));
    }
}

/// `newest_first` sorts: its result is ordered newest first and holds the
/// same alerts, each as often, as its input.
pub proof fn newest_first_sorts(s: Seq<Alert>)
    ensures
        ordered_newest_first(newest_first(s)),
        newest_first(s).to_multiset() == s.to_multiset(),
    decreases s.len(),
{
    broadcast use vstd::seq_lib::group_to_multiset_ensures;
    if s.len() > 0 {
        newest_first_sorts(s.drop_last());
        lemma_insert_newest_ordered(newest_first(s.drop_last()), s.last());
        assert(s =~= s.drop_last().push(s.last()));
    }
}

/// The agent `a` is shown for query `q`: the query is empty, or the agent's
/// lower-cased name contains the lower-cased query.
pub open spec fn agent_shown(a: AgentStatus, q: Seq<char>) -> bool {
    q.len() == 0 || contains_seq(unicode_lower(a.name@), unicode_lower(q))
}

/// The agents shown for a query are exactly those `agent_shown` keeps, in
/// their order.
pub proof fn agents_matching_is_filter(agents: Seq<AgentStatus>, q: Seq<char>)
    ensures
        agents_matching(agents, q) == agents.filter(|a: AgentStatus| agent_shown(a, q)),
    decreases agents.len(),
{
    let p = |a: AgentStatus| agent_shown(a, q);
    if agents.len() > 0 {
        agents_matching_is_filter(agents.drop_last(), q);
        agents.drop_last().lemma_filter_push(agents.last(), p);
        assert(agents.drop_last().push(agents.last()) =~= agents);
    } else {
        reveal(Seq::filter);
        assert(agents.filter(p) =~= agents);
    }
}

pub open spec fn derefs(v: Seq<&Alert>) -> Seq<Alert> {
    v.map_values(|r: &Alert| *r)
}

impl HawkEyeApp {
    /// The alerts, newest first; alerts with the same time keep their order.
    pub fn sorted_alerts(&self) -> (r: Vec<&Alert>)
        ensures
            derefs(r@) == newest_first(self.alerts@),
    {
        let mut out: Vec<&Alert> = Vec::new();
        let mut k: usize = 0;
        while k < self.alerts.len()
            invariant
                k <= self.alerts@.len(),
                derefs(out@) == newest_first(self.alerts@.take(k as int)),
            decreases self.alerts.len() - k,
        {
            let a = &self.alerts[k];
            let ghost sorted = derefs(out@);
            let mut j = out.len();
            while j > 0 && text_lt_exec(out[j - 1].timestamp.as_str(), a.timestamp.as_str())
                invariant
                    j <= out@.len(),
                    sorted == derefs(out@),
                    forall|i: int| j <= i < sorted.len() ==> text_lt((#[trigger] sorted[i]).timestamp@, a.timestamp@),
                decreases j,
            {
                j = j - 1;
            }
            proof {
                lemma_insert_newest_at(sorted, *a, j as int);
                assert(self.alerts@.take(k + 1).drop_last() =~= self.alerts@.take(k as int));
                assert(self.alerts@.take(k + 1).last() == *a);
            }
            out.insert(j, a);
            proof {
                assert(derefs(out@) =~= sorted.insert(j as int, *a));
            }
            k = k + 1;
        }
        proof {
            assert(self.alerts@.take(k as int) =~= self.alerts@);
        }
        out
    }
}

} // verus!
