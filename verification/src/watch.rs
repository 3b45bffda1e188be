//! Watch alerts: API drift found by Etch and phantom dependencies found by
//! GhostDep. Here are the alert records, the choice of which scanner findings
//! become alerts, the split of stored alerts into a report, and the report's
//! text. Running the scanners and storing alerts is the program's work.
use vstd::prelude::*;

use crate::text::{contains_seq, dec, lemma_contains_in_concat, push_char, push_decimal, push_str, push_string, str_eq, to_string};

verus! {

/// One changed field of an API response.
#[derive(Debug, Clone, PartialEq)]
pub struct FieldChange {
    pub field: String,
    pub change_type: String,
}

#[derive(Debug, Clone, PartialEq)]
pub enum WatchAlert {
    ApiDrift { endpoint: String, field_changes: Vec<FieldChange>, timestamp: String },
    PhantomDependency { agent_name: String, dependency: String, timestamp: String },
}

/// Alerts grouped by kind, with the time the report was made.
#[derive(Debug, Clone)]
pub struct WatchReport {
    pub api_drifts: Vec<WatchAlert>,
    pub phantom_deps: Vec<WatchAlert>,
    pub generated_at: String,
}

/// The name an alert kind is stored under.
pub open spec fn alert_type_text(a: WatchAlert) -> Seq<char> {
    match a {
        WatchAlert::ApiDrift { .. } => "api_drift"@,
        WatchAlert::PhantomDependency { .. } => "phantom_dep"@,
    }
}

pub open spec fn alert_timestamp(a: WatchAlert) -> Seq<char> {
    match a {
        WatchAlert::ApiDrift { timestamp, .. } => timestamp@,
        WatchAlert::PhantomDependency { timestamp, .. } => timestamp@,
    }
}

impl WatchAlert {
    /// `"api_drift"` or `"phantom_dep"`.
    pub fn alert_type(&self) -> (s: &'static str)
        ensures
            s@ == alert_type_text(*self),
    {
        match self {
            WatchAlert::ApiDrift { .. } => "api_drift",
            WatchAlert::PhantomDependency { .. } => "phantom_dep",
        }
    }

    /// When the alert was raised.
    pub fn timestamp(&self) -> (s: &str)
        ensures
            s@ == alert_timestamp(*self),
    {
        match self {
            WatchAlert::ApiDrift { timestamp, .. } => timestamp.as_str(),
            WatchAlert::PhantomDependency { timestamp, .. } => timestamp.as_str(),
        }
    }

    /// The agent a phantom dependency belongs to; API drift has none.
    pub fn agent_name(&self) -> (r: Option<&str>)
        ensures
            match *self {
                WatchAlert::PhantomDependency { agent_name, .. } => r matches Some(n) && n@
                    == agent_name@,
                WatchAlert::ApiDrift { .. } => r is None,
            },
    {
        match self {
            WatchAlert::PhantomDependency { agent_name, .. } => Some(agent_name.as_str()),
            _ => None,
        }
    }
}

// ── Grouping alerts into a report ────────────────────────────────────────────

pub open spec fn is_drift(a: WatchAlert) -> bool {
    a is ApiDrift
}

/// The API-drift alerts of `s`, in order.
pub open spec fn drifts_of(s: Seq<WatchAlert>) -> Seq<WatchAlert>
    decreases s.len(),
{
    if s.len() == 0 {
        Seq::empty()
    } else if is_drift(s.last()) {
        drifts_of(s.drop_last()).push(s.last())
    } else {
        drifts_of(s.drop_last())
    }
}

/// The phantom-dependency alerts of `s`, in order.
pub open spec fn deps_of(s: Seq<WatchAlert>) -> Seq<WatchAlert>
    decreases s.len(),
{
    if s.len() == 0 {
        Seq::empty()
    } else if !is_drift(s.last()) {
        deps_of(s.drop_last()).push(s.last())
    } else {
        deps_of(s.drop_last())
    }
}

/// Splits stored alerts into API drift and phantom dependencies, each in the
/// order given.
pub fn partition_alerts(alerts: Vec<WatchAlert>) -> (r: (Vec<WatchAlert>, Vec<WatchAlert>))
    ensures
        r.0@ == drifts_of(alerts@),
        r.1@ == deps_of(alerts@),
{
    let ghost all = alerts@;
    let total = alerts.len();
    let mut rest = alerts;
    let mut drifts: Vec<WatchAlert> = Vec::new();
    let mut deps: Vec<WatchAlert> = Vec::new();
    let mut k: usize = 0;
    while rest.len() > 0
        invariant
            k <= all.len(),
            all.len() == total,
            k + rest@.len() == all.len(),
            rest@ == all.skip(k as int),
            drifts@ == drifts_of(all.take(k as int)),
            deps@ == deps_of(all.take(k as int)),
        decreases rest.len(),
    {
        let a = rest.remove(0);
        proof {
            assert(all.take(k + 1).drop_last() =~= all.take(k as int));
            assert(all.take(k + 1).last() == a);
            assert(rest@ =~= all.skip(k + 1));
        }
        match a {
            WatchAlert::ApiDrift { .. } => drifts.push(a),
            WatchAlert::PhantomDependency { .. } => deps.push(a),
        }
        k = k + 1;
    }
    proof {
        assert(all.take(k as int) =~= all);
    }
    (drifts, deps)
}

/// A report of `alerts`, made at `generated_at`.
pub fn build_report(alerts: Vec<WatchAlert>, generated_at: String) -> (r: WatchReport)
    ensures
        r.api_drifts@ == drifts_of(alerts@),
        r.phantom_deps@ == deps_of(alerts@),
        r.generated_at == generated_at,
{
    let (api_drifts, phantom_deps) = partition_alerts(alerts);
    WatchReport { api_drifts, phantom_deps, generated_at }
}

/// Every alert lands in exactly one group, and no alert is lost or made up.
pub proof fn partition_keeps_every_alert(s: Seq<WatchAlert>)
    ensures
        drifts_of(s).len() + deps_of(s).len() == s.len(),
        forall|i: int| 0 <= i < drifts_of(s).len() ==> is_drift(#[trigger] drifts_of(s)[i]),
        forall|i: int| 0 <= i < deps_of(s).len() ==> !is_drift(#[trigger] deps_of(s)[i]),
    decreases s.len(),
{
    if s.len() > 0 {
        partition_keeps_every_alert(s.drop_last());
    }
}

// ── Choosing which scanner findings become alerts ────────────────────────────

/// One GhostDep finding: its kind (`"phantom"`, `"unused"`, ...), the
/// package name and the confidence, if given.
#[derive(Debug, Clone)]
pub struct DepFinding {
    pub finding_type: String,
    pub name: String,
    pub confidence: Option<String>,
}

/// A finding is reported when it is a phantom or unused package found with
/// high confidence (a finding with no confidence counts as high).
pub open spec fn finding_kept(f: DepFinding) -> bool {
    &&& (f.finding_type@ == "phantom"@ || f.finding_type@ == "unused"@)
    &&& match f.confidence {
        Some(c) => c@ == "high"@,
        None => true,
    }
}

/// How a reported finding reads: `[kind] name`.
pub open spec fn finding_text(f: DepFinding) -> Seq<char> {
    "["@ + f.finding_type@ + "] "@ + f.name@
}

pub open spec fn kept_findings(s: Seq<DepFinding>) -> Seq<Seq<char>>
    decreases s.len(),
{
    if s.len() == 0 {
        Seq::empty()
    } else if finding_kept(s.last()) {
        kept_findings(s.drop_last()).push(finding_text(s.last()))
    } else {
        kept_findings(s.drop_last())
    }
}

pub open spec fn texts_of(v: Seq<String>) -> Seq<Seq<char>> {
    v.map_values(|s: String| s@)
}

/// The GhostDep findings worth an alert, as `[kind] name`, in order.
pub fn select_dep_findings(findings: &Vec<DepFinding>) -> (r: Vec<String>)
    ensures
        texts_of(r@) == kept_findings(findings@),
{
    let mut out: Vec<String> = Vec::new();
    let mut i: usize = 0;
    while i < findings.len()
        invariant
            i <= findings@.len(),
            texts_of(out@) == kept_findings(findings@.take(i as int)),
        decreases findings.len() - i,
    {
        let f = &findings[i];
        let kind_ok = str_eq(f.finding_type.as_str(), "phantom") || str_eq(
            f.finding_type.as_str(),
            "unused",
        );
        let conf_ok = match &f.confidence {
            Some(c) => str_eq(c.as_str(), "high"),
            None => true,
        };
        proof {
            assert(findings@.take(i + 1).drop_last() =~= findings@.take(i as int));
            assert(findings@.take(i + 1).last() == *f);
        }
        if kind_ok && conf_ok {
            let mut s = String::new();
            push_str(&mut s, "[");
            push_string(&mut s, &f.finding_type);
            push_str(&mut s, "] ");
            push_string(&mut s, &f.name);
            let ghost before = out@;
            out.push(s);
            proof {
                assert(texts_of(out@) =~= texts_of(before).push(finding_text(*f)));
            }
        }
        i = i + 1;
    }
    proof {
        assert(findings@.take(i as int) =~= findings@);
    }
    out
}

/// One changed field as Etch reports it; a missing severity reads as
/// `"modified"`.
#[derive(Debug, Clone)]
pub struct EtchDiff {
    pub field: String,
    pub severity: Option<String>,
}

/// One endpoint Etch checked, with the fields that changed.
#[derive(Debug, Clone)]
pub struct EtchResult {
    pub endpoint: String,
    pub diffs: Vec<EtchDiff>,
}

pub open spec fn change_of(d: EtchDiff) -> (Seq<char>, Seq<char>) {
    (
        d.field@,
        match d.severity {
            Some(s) => s@,
            None => "modified"@,
        },
    )
}

pub open spec fn changes_of(ds: Seq<EtchDiff>) -> Seq<(Seq<char>, Seq<char>)> {
    ds.map_values(|d: EtchDiff| change_of(d))
}

pub open spec fn field_change_view(c: FieldChange) -> (Seq<char>, Seq<char>) {
    (c.field@, c.change_type@)
}

pub open spec fn field_changes_view(cs: Seq<FieldChange>) -> Seq<(Seq<char>, Seq<char>)> {
    cs.map_values(|c: FieldChange| field_change_view(c))
}

/// The endpoints with at least one changed field, each with its changes.
pub open spec fn drifted(rs: Seq<EtchResult>) -> Seq<(Seq<char>, Seq<(Seq<char>, Seq<char>)>)>
    decreases rs.len(),
{
    if rs.len() == 0 {
        Seq::empty()
    } else if rs.last().diffs@.len() > 0 {
        drifted(rs.drop_last()).push((rs.last().endpoint@, changes_of(rs.last().diffs@)))
    } else {
        drifted(rs.drop_last())
    }
}

pub open spec fn drift_view(d: (String, Vec<FieldChange>)) -> (
    Seq<char>,
    Seq<(Seq<char>, Seq<char>)>,
) {
    (d.0@, field_changes_view(d.1@))
}

pub open spec fn drifts_view(v: Seq<(String, Vec<FieldChange>)>) -> Seq<
    (Seq<char>, Seq<(Seq<char>, Seq<char>)>),
> {
    v.map_values(|d: (String, Vec<FieldChange>)| drift_view(d))
}

fn copy_text(s: &String) -> (r: String)
    ensures
        r@ == s@,
{
    to_string(s.as_str())
}

fn field_changes_from(diffs: &Vec<EtchDiff>) -> (r: Vec<FieldChange>)
    ensures
        field_changes_view(r@) == changes_of(diffs@),
{
    let mut out: Vec<FieldChange> = Vec::new();
    let mut i: usize = 0;
    while i < diffs.len()
        invariant
            i <= diffs@.len(),
            field_changes_view(out@) == changes_of(diffs@.take(i as int)),
        decreases diffs.len() - i,
    {
        let d = &diffs[i];
        let change_type = match &d.severity {
            Some(s) => copy_text(s),
            None => to_string("modified"),
        };
        let ghost before = out@;
        out.push(FieldChange { field: copy_text(&d.field), change_type });
        proof {
            assert(diffs@.take(i + 1) =~= diffs@.take(i as int).push(*d));
            assert(field_changes_view(out@) =~= field_changes_view(before).push(change_of(*d)));
            assert(changes_of(diffs@.take(i + 1)) =~= changes_of(diffs@.take(i as int)).push(
                change_of(*d),
            ));
        }
        i = i + 1;
    }
    proof {
        assert(diffs@.take(i as int) =~= diffs@);
    }
    out
}

/// The Etch results worth an alert: each endpoint with changed fields, with
/// its changes, in order.
pub fn select_etch_drifts(results: &Vec<EtchResult>) -> (r: Vec<(String, Vec<FieldChange>)>)
    ensures
        drifts_view(r@) == drifted(results@),
{
    let mut out: Vec<(String, Vec<FieldChange>)> = Vec::new();
    let mut i: usize = 0;
    while i < results.len()
        invariant
            i <= results@.len(),
            drifts_view(out@) == drifted(results@.take(i as int)),
        decreases results.len() - i,
    {
        let r = &results[i];
        proof {
            assert(results@.take(i + 1).drop_last() =~= results@.take(i as int));
            assert(results@.take(i + 1).last() == *r);
        }
        if r.diffs.len() > 0 {
            let changes = field_changes_from(&r.diffs);
            let ghost before = out@;
            out.push((copy_text(&r.endpoint), changes));
            proof {
                assert(drifts_view(out@) =~= drifts_view(before).push(
                    (r.endpoint@, changes_of(r.diffs@)),
                ));
            }
        }
        i = i + 1;
    }
    proof {
        assert(results@.take(i as int) =~= results@);
    }
    out
}

// ── The report's text ────────────────────────────────────────────────────────

pub open spec fn change_lines(cs: Seq<FieldChange>) -> Seq<char>
    decreases cs.len(),
{
    if cs.len() == 0 {
        Seq::empty()
    } else {
        change_lines(cs.drop_last()) + "    "@ + cs.last().change_type@ + " "@ + cs.last().field@
            + "\n"@
    }
}

/// The lines of one API-drift alert; other alerts print nothing here.
pub open spec fn drift_block(a: WatchAlert) -> Seq<char> {
    match a {
        WatchAlert::ApiDrift { endpoint, field_changes, timestamp } => "  ["@ + timestamp@ + "] "@
            + endpoint@ + "\n"@ + change_lines(field_changes@),
        _ => Seq::empty(),
    }
}

/// The line of one phantom-dependency alert; other alerts print nothing here.
pub open spec fn dep_line(a: WatchAlert) -> Seq<char> {
    match a {
        WatchAlert::PhantomDependency { agent_name, dependency, timestamp } => "  ["@
            + timestamp@ + "] agent="@ + agent_name@ + " dep="@ + dependency@ + "\n"@,
        _ => Seq::empty(),
    }
}

pub open spec fn drift_blocks(s: Seq<WatchAlert>) -> Seq<char>
    decreases s.len(),
{
    if s.len() == 0 {
        Seq::empty()
    } else {
        drift_blocks(s.drop_last()) + drift_block(s.last())
    }
}

pub open spec fn dep_lines(s: Seq<WatchAlert>) -> Seq<char>
    decreases s.len(),
{
    if s.len() == 0 {
        Seq::empty()
    } else {
        dep_lines(s.drop_last()) + dep_line(s.last())
    }
}

pub open spec fn etch_tip() -> Seq<char> {
    "  tip: install etch to enable real API drift detection\n"@
        + "       go install github.com/ojuschugh1/etch/cmd/etch@latest\n"@
}

pub open spec fn ghostdep_tip() -> Seq<char> {
    "  tip: install ghostdep to enable real dependency scanning\n"@
        + "       cargo install --git https://github.com/ojuschugh1/ghostdep\n"@
}

pub open spec fn drift_section(s: Seq<WatchAlert>, etch_installed: bool) -> Seq<char> {
    "\nAPI Drifts ("@ + dec(s.len()) + ")\n"@ + if s.len() == 0 {
        "  (none)\n"@ + if etch_installed {
            Seq::empty()
        } else {
            etch_tip()
        }
    } else {
        drift_blocks(s)
    }
}

pub open spec fn dep_section(s: Seq<WatchAlert>, ghostdep_installed: bool) -> Seq<char> {
    "\nPhantom Dependencies ("@ + dec(s.len()) + ")\n"@ + if s.len() == 0 {
        "  (none)\n"@ + if ghostdep_installed {
            Seq::empty()
        } else {
            ghostdep_tip()
        }
    } else {
        dep_lines(s)
    }
}

/// The whole report: a heading, the API drifts, then the phantom
/// dependencies; an empty section says `(none)` and, when its scanner is
/// not installed, how to install it.
pub open spec fn report_text(r: WatchReport, etch_installed: bool, ghostdep_installed: bool) -> Seq<
    char,
> {
    "Watch Report — generated at "@ + r.generated_at@ + "\n"@ + Seq::new(60, |i: int| '=')
        + "\n"@ + drift_section(r.api_drifts@, etch_installed) + dep_section(
        r.phantom_deps@,
        ghostdep_installed,
    )
}

/// Installation tips only ever stand under an empty section: with findings
/// in both sections, the report reads the same whether or not the scanners
/// are installed.
pub proof fn report_tips_only_under_empty_sections(r: WatchReport, e1: bool, g1: bool, e2: bool, g2: bool)
    requires
        r.api_drifts@.len() > 0,
        r.phantom_deps@.len() > 0,
    ensures
        report_text(r, e1, g1) == report_text(r, e2, g2),
{
}

proof fn lemma_blocks_contain(s: Seq<WatchAlert>, i: int)
    requires
        0 <= i < s.len(),
    ensures
        contains_seq(drift_blocks(s), drift_block(s[i])),
        contains_seq(dep_lines(s), dep_line(s[i])),
    decreases s.len(),
{
    let d = s.drop_last();
    if i < s.len() - 1 {
        lemma_blocks_contain(d, i);
        assert(d[i] == s[i]);
        lemma_contains_in_concat(drift_block(s.last()), drift_blocks(d), drift_block(s[i]));
        lemma_contains_in_concat(dep_line(s.last()), dep_lines(d), dep_line(s[i]));
    } else {
        lemma_contains_in_concat(drift_blocks(d), drift_block(s[i]), drift_block(s[i]));
        lemma_contains_in_concat(dep_lines(d), dep_line(s[i]), dep_line(s[i]));
    }
}

/// The report shows each section's count in its heading, `(none)` under an
/// empty section, every API-drift alert's block (its time, endpoint and one
/// line per field change) and every phantom-dependency alert's line.
pub proof fn report_shows_counts_and_rows(r: WatchReport, etch_installed: bool, ghostdep_installed: bool)
    ensures
        contains_seq(report_text(r, etch_installed, ghostdep_installed), "\nAPI Drifts ("@ + dec(r.api_drifts@.len())
            + ")\n"@),
        contains_seq(report_text(r, etch_installed, ghostdep_installed), "\nPhantom Dependencies ("@ + dec(
            r.phantom_deps@.len(),
        ) + ")\n"@),
        r.api_drifts@.len() == 0 || r.phantom_deps@.len() == 0 ==> contains_seq(
            report_text(r, etch_installed, ghostdep_installed),
            "  (none)\n"@,
        ),
        forall|i: int|
            0 <= i < r.api_drifts@.len() ==> contains_seq(
                report_text(r, etch_installed, ghostdep_installed),
                drift_block(#[trigger] r.api_drifts@[i]),
            ),
        forall|i: int|
            0 <= i < r.phantom_deps@.len() ==> contains_seq(
                report_text(r, etch_installed, ghostdep_installed),
                dep_line(#[trigger] r.phantom_deps@[i]),
            ),
{
    let a = r.api_drifts@;
    let p = r.phantom_deps@;
    let head = "Watch Report — generated at "@ + r.generated_at@ + "\n"@ + Seq::new(60, |i: int| '=') + "\n"@;
    let ds = drift_section(a, etch_installed);
    let ps = dep_section(p, ghostdep_installed);
    let all = report_text(r, etch_installed, ghostdep_installed);
    assert(all =~= (head + ds) + ps);
    let dt = "\nAPI Drifts ("@ + dec(a.len()) + ")\n"@;
    let pt = "\nPhantom Dependencies ("@ + dec(p.len()) + ")\n"@;
    let dtail = if a.len() == 0 {
        "  (none)\n"@ + if etch_installed { Seq::empty() } else { etch_tip() }
    } else {
        drift_blocks(a)
    };
    let ptail = if p.len() == 0 {
        "  (none)\n"@ + if ghostdep_installed { Seq::empty() } else { ghostdep_tip() }
    } else {
        dep_lines(p)
    };
    assert(ds =~= dt + dtail);
    assert(ps =~= pt + ptail);
    lemma_contains_in_concat(dtail, dt, dt);
    lemma_contains_in_concat(head, ds, dt);
    lemma_contains_in_concat(ps, head + ds, dt);
    lemma_contains_in_concat(ptail, pt, pt);
    lemma_contains_in_concat(head + ds, ps, pt);
    let none = "  (none)\n"@;
    if a.len() == 0 {
        let rest = if etch_installed { Seq::empty() } else { etch_tip() };
        lemma_contains_in_concat(rest, none, none);
        lemma_contains_in_concat(dt, dtail, none);
        lemma_contains_in_concat(head, ds, none);
        lemma_contains_in_concat(ps, head + ds, none);
    } else if p.len() == 0 {
        let rest = if ghostdep_installed { Seq::empty() } else { ghostdep_tip() };
        lemma_contains_in_concat(rest, none, none);
        lemma_contains_in_concat(pt, ptail, none);
        lemma_contains_in_concat(head + ds, ps, none);
    }
    assert forall|i: int| 0 <= i < a.len() implies contains_seq(all, drift_block(#[trigger] a[i])) by {
        let t = drift_block(a[i]);
        lemma_blocks_contain(a, i);
        lemma_contains_in_concat(dt, dtail, t);
        lemma_contains_in_concat(head, ds, t);
        lemma_contains_in_concat(ps, head + ds, t);
    }
    assert forall|i: int| 0 <= i < p.len() implies contains_seq(all, dep_line(#[trigger] p[i])) by {
        let t = dep_line(p[i]);
        lemma_blocks_contain(p, i);
        lemma_contains_in_concat(pt, ptail, t);
        lemma_contains_in_concat(head + ds, ps, t);
    }
}

fn push_change_lines(out: &mut String, cs: &Vec<FieldChange>)
    ensures
        final(out)@ == old(out)@ + change_lines(cs@),
{
    let mut i: usize = 0;
    while i < cs.len()
        invariant
            i <= cs@.len(),
            out@ == old(out)@ + change_lines(cs@.take(i as int)),
        decreases cs.len() - i,
    {
        let c = &cs[i];
        push_str(out, "    ");
        push_string(out, &c.change_type);
        push_str(out, " ");
        push_string(out, &c.field);
        push_str(out, "\n");
        proof {
            assert(cs@.take(i + 1).drop_last() =~= cs@.take(i as int));
            assert(cs@.take(i + 1).last() == *c);
            assert(out@ =~= old(out)@ + change_lines(cs@.take(i + 1)));
        }
        i = i + 1;
    }
    proof {
        assert(cs@.take(i as int) =~= cs@);
    }
}

fn push_drift_block(out: &mut String, a: &WatchAlert)
    ensures
        final(out)@ == old(out)@ + drift_block(*a),
{
    match a {
        WatchAlert::ApiDrift { endpoint, field_changes, timestamp } => {
            push_str(out, "  [");
            push_string(out, timestamp);
            push_str(out, "] ");
            push_string(out, endpoint);
            push_str(out, "\n");
            push_change_lines(out, field_changes);
            proof {
                assert(final(out)@ =~= old(out)@ + drift_block(*a));
            }
        },
        _ => {
            assert(old(out)@ + drift_block(*a) =~= old(out)@);
        },
    }
}

fn push_dep_line(out: &mut String, a: &WatchAlert)
    ensures
        final(out)@ == old(out)@ + dep_line(*a),
{
    match a {
        WatchAlert::PhantomDependency { agent_name, dependency, timestamp } => {
            push_str(out, "  [");
            push_string(out, timestamp);
            push_str(out, "] agent=");
            push_string(out, agent_name);
            push_str(out, " dep=");
            push_string(out, dependency);
            push_str(out, "\n");
            proof {
                assert(final(out)@ =~= old(out)@ + dep_line(*a));
            }
        },
        _ => {
            assert(old(out)@ + dep_line(*a) =~= old(out)@);
        },
    }
}

fn push_drift_section(out: &mut String, s: &Vec<WatchAlert>, etch_installed: bool)
    ensures
        final(out)@ == old(out)@ + drift_section(s@, etch_installed),
{
    push_str(out, "\nAPI Drifts (");
    push_decimal(out, s.len() as u64);
    push_str(out, ")\n");
    let ghost head = out@;
    if s.len() == 0 {
        push_str(out, "  (none)\n");
        if !etch_installed {
            push_str(out, "  tip: install etch to enable real API drift detection\n");
            push_str(out, "       go install github.com/ojuschugh1/etch/cmd/etch@latest\n");
        }
        proof {
            assert(final(out)@ =~= old(out)@ + drift_section(s@, etch_installed));
        }
    } else {
        let mut i: usize = 0;
        while i < s.len()
            invariant
                i <= s@.len(),
                out@ == head + drift_blocks(s@.take(i as int)),
            decreases s.len() - i,
        {
            push_drift_block(out, &s[i]);
            proof {
                assert(s@.take(i + 1).drop_last() =~= s@.take(i as int));
                assert(s@.take(i + 1).last() == s@[i as int]);
            }
            i = i + 1;
        }
        proof {
            assert(s@.take(i as int) =~= s@);
            assert(final(out)@ =~= old(out)@ + drift_section(s@, etch_installed));
        }
    }
}

fn push_dep_section(out: &mut String, s: &Vec<WatchAlert>, ghostdep_installed: bool)
    ensures
        final(out)@ == old(out)@ + dep_section(s@, ghostdep_installed),
{
    push_str(out, "\nPhantom Dependencies (");
    push_decimal(out, s.len() as u64);
    push_str(out, ")\n");
    let ghost head = out@;
    if s.len() == 0 {
        push_str(out, "  (none)\n");
        if !ghostdep_installed {
            push_str(out, "  tip: install ghostdep to enable real dependency scanning\n");
            push_str(out, "       cargo install --git https://github.com/ojuschugh1/ghostdep\n");
        }
        proof {
            assert(final(out)@ =~= old(out)@ + dep_section(s@, ghostdep_installed));
        }
    } else {
        let mut i: usize = 0;
        while i < s.len()
            invariant
                i <= s@.len(),
                out@ == head + dep_lines(s@.take(i as int)),
            decreases s.len() - i,
        {
            push_dep_line(out, &s[i]);
            proof {
                assert(s@.take(i + 1).drop_last() =~= s@.take(i as int));
                assert(s@.take(i + 1).last() == s@[i as int]);
            }
            i = i + 1;
        }
        proof {
            assert(s@.take(i as int) =~= s@);
            assert(final(out)@ =~= old(out)@ + dep_section(s@, ghostdep_installed));
        }
    }
}

/// Renders a watch report for the terminal. Whether Etch and GhostDep are
/// installed decides the tips under an empty section.
pub fn format_report(report: &WatchReport, etch_installed: bool, ghostdep_installed: bool) -> (s:
    String)
    ensures
        s@ == report_text(*report, etch_installed, ghostdep_installed),
{
    let mut out = String::new();
    push_str(&mut out, "Watch Report — generated at ");
    push_string(&mut out, &report.generated_at);
    push_str(&mut out, "\n");
    let ghost head = out@;
    let mut i: usize = 0;
    while i < 60
        invariant
            i <= 60,
            out@ == head + Seq::new(i as nat, |j: int| '='),
        decreases 60 - i,
    {
        push_char(&mut out, '=');
        i = i + 1;
        assert(out@ =~= head + Seq::new(i as nat, |j: int| '='));
    }
    push_str(&mut out, "\n");
    push_drift_section(&mut out, &report.api_drifts, etch_installed);
    push_dep_section(&mut out, &report.phantom_deps, ghostdep_installed);
    proof {
        assert(out@ =~= report_text(*report, etch_installed, ghostdep_installed));
    }
    out
}

} // verus!
