//! The companion tools `hawk setup` installs, how each is installed, and the
//! choices the setup flow makes: which tools it considers, which it
//! installs, and what an installation attempt amounts to.
use vstd::prelude::*;

use crate::text::{
    chars_of, dec, push_decimal, push_str, str_eq, string_of_range, texts, to_lowercase, to_string, trim,
    trim_bounds, unicode_lower,
};

verus! {

/// A companion tool.
#[derive(Debug, Clone, Copy)]
pub struct Tool {
    pub name: &'static str,
    pub description: &'static str,
    pub check_cmd: &'static str,
    pub install: InstallMethod,
    pub repo: &'static str,
}

/// How a tool is installed.
#[derive(Debug, Clone, Copy)]
pub enum InstallMethod {
    /// `curl -fsSL <url> | sh`, with extra environment variables (an empty
    /// value stands for the user's `~/.local/bin`).
    CurlSh { url: &'static str, env: &'static [(&'static str, &'static str)] },
    /// `cargo install --git <url> --force`.
    CargoGit(&'static str),
    /// `go install <pkg>@latest`, falling back to a clone and build.
    GoInstall { pkg: &'static str, repo: &'static str, bin: &'static str },
}

#[derive(Debug)]
pub enum InstallResult {
    AlreadyInstalled,
    Installed,
    Updated,
    Failed(String),
}

pub struct SetupOptions {
    pub skip_installed: bool,
    pub force_update: bool,
    pub yes: bool,
    pub only: Vec<String>,
    pub skip: Vec<String>,
}

impl Default for SetupOptions {
    fn default() -> (o: Self)
        ensures
            o.skip_installed,
            !o.force_update,
            !o.yes,
            o.only@.len() == 0,
            o.skip@.len() == 0,
    {
        SetupOptions { skip_installed: true, force_update: false, yes: false, only: Vec::new(), skip: Vec::new() }
    }
}

/// The names of the companion tools, in install order.
pub open spec fn tool_names() -> Seq<Seq<char>> {
    seq!["sqz"@, "ghostdep"@, "claimcheck"@, "etch"@, "aura"@]
}

/// What each tool does, in the order of `tool_names`.
pub open spec fn tool_descriptions() -> Seq<Seq<char>> {
    seq![
        "LLM token compression — saves 60-92% on repeated file reads"@,
        "Phantom dependency detector — finds unused and missing packages"@,
        "Agent claim verifier — checks files, git, lockfiles against agent claims"@,
        "API drift detector — records and diffs real API responses"@,
        "Persistent cross-tool memory, wiki, MCP proxy, OWASP scoring"@,
    ]
}

/// Each tool's repository, in the order of `tool_names`.
pub open spec fn tool_repos() -> Seq<Seq<char>> {
    seq![
        "https://github.com/ojuschugh1/sqz"@,
        "https://github.com/ojuschugh1/ghostdep"@,
        "https://github.com/ojuschugh1/claimcheck"@,
        "https://github.com/ojuschugh1/etch"@,
        "https://github.com/ojuschugh1/aura"@,
    ]
}

/// The companion tools: sqz, ghostdep, claimcheck, etch and aura. Each is
/// checked for by running its own name.
pub fn all_tools() -> (tools: Vec<Tool>)
    ensures
        tools@.len() == 5,
        forall|i: int| 0 <= i < 5 ==> #[trigger] tools@[i].name@ == tool_names()[i],
        forall|i: int| 0 <= i < 5 ==> #[trigger] tools@[i].check_cmd@ == tool_names()[i],
        forall|i: int| 0 <= i < 5 ==> #[trigger] tools@[i].description@ == tool_descriptions()[i],
        forall|i: int| 0 <= i < 5 ==> #[trigger] tools@[i].repo@ == tool_repos()[i],
        tools@[0].install matches InstallMethod::CurlSh { url, env } && url@
            == "https://raw.githubusercontent.com/ojuschugh1/sqz/main/install.sh"@ && env@.len() == 0,
        tools@[1].install matches InstallMethod::CurlSh { url, env } && url@
            == "https://raw.githubusercontent.com/ojuschugh1/ghostdep/main/install.sh"@ && env@.len() == 0,
        tools@[2].install matches InstallMethod::CargoGit(git) && git@ == "https://github.com/ojuschugh1/claimcheck"@,
        tools@[3].install matches InstallMethod::GoInstall { pkg, repo, bin } && pkg@
            == "github.com/ojuschugh1/etch/cmd/etch"@ && repo@ == "https://github.com/ojuschugh1/etch"@ && bin@
            == "etch"@,
        tools@[4].install matches InstallMethod::CurlSh { url, env } && url@
            == "https://raw.githubusercontent.com/ojuschugh1/Aura/main/install.sh"@ && env@.len() == 1 && env@[0].0@
            == "INSTALL_DIR"@ && env@[0].1@.len() == 0,
{
    let none: &'static [(&'static str, &'static str)] = &[];
    let aura_env: &'static [(&'static str, &'static str)] = &[("INSTALL_DIR", "")];
    proof {
        reveal_strlit("");
    }
    vec![
        Tool {
            name: "sqz",
            description: "LLM token compression — saves 60-92% on repeated file reads",
            check_cmd: "sqz",
            install: InstallMethod::CurlSh {
                url: "https://raw.githubusercontent.com/ojuschugh1/sqz/main/install.sh",
                env: none,
            },
            repo: "https://github.com/ojuschugh1/sqz",
        },
        Tool {
            name: "ghostdep",
            description: "Phantom dependency detector — finds unused and missing packages",
            check_cmd: "ghostdep",
            install: InstallMethod::CurlSh {
                url: "https://raw.githubusercontent.com/ojuschugh1/ghostdep/main/install.sh",
                env: none,
            },
            repo: "https://github.com/ojuschugh1/ghostdep",
        },
        Tool {
            name: "claimcheck",
            description: "Agent claim verifier — checks files, git, lockfiles against agent claims",
            check_cmd: "claimcheck",
            install: InstallMethod::CargoGit("https://github.com/ojuschugh1/claimcheck"),
            repo: "https://github.com/ojuschugh1/claimcheck",
        },
        Tool {
            name: "etch",
            description: "API drift detector — records and diffs real API responses",
            check_cmd: "etch",
            install: InstallMethod::GoInstall {
                pkg: "github.com/ojuschugh1/etch/cmd/etch",
                repo: "https://github.com/ojuschugh1/etch",
                bin: "etch",
            },
            repo: "https://github.com/ojuschugh1/etch",
        },
        Tool {
            name: "aura",
            description: "Persistent cross-tool memory, wiki, MCP proxy, OWASP scoring",
            check_cmd: "aura",
            install: InstallMethod::CurlSh {
                url: "https://raw.githubusercontent.com/ojuschugh1/Aura/main/install.sh",
                env: aura_env,
            },
            repo: "https://github.com/ojuschugh1/aura",
        },
    ]
}

/// Every tool name is given once.
pub proof fn tool_names_are_distinct()
    ensures
        tool_names().no_duplicates(),
{
    reveal_strlit("sqz");
    reveal_strlit("ghostdep");
    reveal_strlit("claimcheck");
    reveal_strlit("etch");
    reveal_strlit("aura");
    let t = tool_names();
    assert forall|i: int, j: int| 0 <= i < t.len() && 0 <= j < t.len() && i != j implies t[i] != t[j] by {
        assert(t[i].len() != t[j].len() || t[i][0] != t[j][0]);
    }
}

/// Whether the setup run considers the tool named `name`: when `only` is
/// given, exactly the tools it names; otherwise every tool not in `skip`.
pub open spec fn considered(name: Seq<char>, only: Seq<Seq<char>>, skip: Seq<Seq<char>>) -> bool {
    if only.len() > 0 {
        only.contains(name)
    } else {
        !skip.contains(name)
    }
}

fn names_contain(v: &Vec<String>, x: &str) -> (b: bool)
    ensures
        b == crate::text::texts(v@).contains(x@),
{
    let mut i: usize = 0;
    while i < v.len()
        invariant
            i <= v.len(),
            forall|j: int| 0 <= j < i ==> v@[j]@ != x@,
        decreases v.len() - i,
    {
        if str_eq(v[i].as_str(), x) {
            assert(crate::text::texts(v@)[i as int] == x@);
            return true;
        }
        i = i + 1;
    }
    proof {
        if crate::text::texts(v@).contains(x@) {
            let j = choose|j: int| 0 <= j < v@.len() && crate::text::texts(v@)[j] == x@;
            assert(v@[j]@ == x@);
        }
    }
    false
}

/// Whether the setup run with `opts` considers `tool`.
pub fn is_considered(tool: &Tool, opts: &SetupOptions) -> (b: bool)
    ensures
        b == considered(tool.name@, crate::text::texts(opts.only@), crate::text::texts(opts.skip@)),
{
    if opts.only.len() > 0 {
        return names_contain(&opts.only, tool.name);
    }
    !names_contain(&opts.skip, tool.name)
}

/// What to do about one tool: nothing, because it is there and no update
/// was asked for, or run its installer.
pub open spec fn needs_install(already: bool, force_update: bool) -> bool {
    !already || force_update
}

/// Whether a tool's installer is to run: when the tool is missing, or an
/// update is forced.
pub fn should_install(already: bool, force_update: bool) -> (b: bool)
    ensures
        b == needs_install(already, force_update),
{
    !already || force_update
}

/// What an installation attempt amounts to, given whether the tool was
/// there before and how its installer ended (`None` when it was not run).
pub fn install_tool(already: bool, force_update: bool, run: Option<Result<(), String>>) -> (r: InstallResult)
    requires
        needs_install(already, force_update) <==> run is Some,
    ensures
        !needs_install(already, force_update) ==> r is AlreadyInstalled,
        run matches Some(Ok(())) ==> (if already { r is Updated } else { r is Installed }),
        run matches Some(Err(e)) ==> r matches InstallResult::Failed(m) && m == e,
{
    match run {
        None => InstallResult::AlreadyInstalled,
        Some(Ok(())) => if already {
            InstallResult::Updated
        } else {
            InstallResult::Installed
        },
        Some(Err(e)) => InstallResult::Failed(e),
    }
}

/// One tool's setup, whole: a tool already there is left alone (its
/// installer does not run) unless an update is forced; otherwise its
/// installer runs and its outcome decides the result — updated or installed
/// on success, failed with the installer's message otherwise.
pub proof fn install_outcome_law(already: bool, force_update: bool, run: Option<Result<(), String>>, r: InstallResult)
    requires
        needs_install(already, force_update) <==> run is Some,
        !needs_install(already, force_update) ==> r is AlreadyInstalled,
        run matches Some(Ok(())) ==> (if already { r is Updated } else { r is Installed }),
        run matches Some(Err(e)) ==> r matches InstallResult::Failed(m) && m == e,
    ensures
        already && !force_update ==> run is None && r is AlreadyInstalled,
        !(already && !force_update) ==> run is Some && match run {
            Some(Ok(())) => if already { r is Updated } else { r is Installed },
            Some(Err(e)) => r matches InstallResult::Failed(m) && m == e,
            None => false,
        },
{
}

// ── The setup run ────────────────────────────────────────────────────────────

/// The tools of `s` that a run with `only` and `skip` considers, in order.
pub open spec fn considered_tools(s: Seq<Tool>, only: Seq<Seq<char>>, skip: Seq<Seq<char>>) -> Seq<Tool>
    decreases s.len(),
{
    if s.len() == 0 {
        Seq::empty()
    } else if considered(s.last().name@, only, skip) {
        considered_tools(s.drop_last(), only, skip).push(s.last())
    } else {
        considered_tools(s.drop_last(), only, skip)
    }
}

/// The tools a setup run with `opts` considers, in the given order.
pub fn select_tools(tools: &Vec<Tool>, opts: &SetupOptions) -> (r: Vec<Tool>)
    ensures
        r@ == considered_tools(tools@, texts(opts.only@), texts(opts.skip@)),
{
    let mut out: Vec<Tool> = Vec::new();
    let mut i: usize = 0;
    while i < tools.len()
        invariant
            i <= tools@.len(),
            out@ == considered_tools(tools@.take(i as int), texts(opts.only@), texts(opts.skip@)),
        decreases tools.len() - i,
    {
        let t = tools[i];
        proof {
            assert(tools@.take(i + 1).drop_last() =~= tools@.take(i as int));
            assert(tools@.take(i + 1).last() == t);
        }
        if is_considered(&t, opts) {
            out.push(t);
        }
        i = i + 1;
    }
    proof {
        assert(tools@.take(i as int) =~= tools@);
    }
    out
}

/// The answer to "Proceed? [Y/n]" declines when, trimmed and lower-cased,
/// it is `n` or `no`; anything else, an empty answer too, goes ahead.
pub open spec fn declines(answer: Seq<char>) -> bool {
    unicode_lower(trim(answer)) == "n"@ || unicode_lower(trim(answer)) == "no"@
}

/// Whether the user's answer declines the installation.
pub fn declined(answer: &str) -> (b: bool)
    ensures
        b == declines(answer@),
{
    let v = chars_of(answer);
    let (a, e) = trim_bounds(&v, 0, v.len());
    let trimmed = string_of_range(&v, a, e);
    proof {
        assert(v@.subrange(0, v@.len() as int) =~= v@);
    }
    let lowered = to_lowercase(trimmed.as_str());
    str_eq(lowered.as_str(), "n") || str_eq(lowered.as_str(), "no")
}

pub open spec fn counts_as_installed(r: InstallResult) -> bool {
    r is Installed || r is Updated
}

/// How many of the results are installs or updates, and how many failed.
pub open spec fn tally_spec(rs: Seq<InstallResult>) -> (nat, nat)
    decreases rs.len(),
{
    if rs.len() == 0 {
        (0, 0)
    } else {
        let t = tally_spec(rs.drop_last());
        (
            t.0 + if counts_as_installed(rs.last()) { 1nat } else { 0nat },
            t.1 + if rs.last() is Failed { 1nat } else { 0nat },
        )
    }
}

proof fn lemma_tally_bounded(rs: Seq<InstallResult>)
    ensures
        tally_spec(rs).0 <= rs.len(),
        tally_spec(rs).1 <= rs.len(),
    decreases rs.len(),
{
    if rs.len() > 0 {
        lemma_tally_bounded(rs.drop_last());
    }
}

/// Counts a run's results: installs and updates, and failures.
pub fn tally(results: &Vec<InstallResult>) -> (r: (usize, usize))
    ensures
        r.0 == tally_spec(results@).0,
        r.1 == tally_spec(results@).1,
{
    let mut installed: usize = 0;
    let mut failed: usize = 0;
    let mut i: usize = 0;
    while i < results.len()
        invariant
            i <= results@.len(),
            installed == tally_spec(results@.take(i as int)).0,
            failed == tally_spec(results@.take(i as int)).1,
        decreases results.len() - i,
    {
        proof {
            assert(results@.take(i + 1).drop_last() =~= results@.take(i as int));
            lemma_tally_bounded(results@.take(i + 1));
        }
        match &results[i] {
            InstallResult::Installed | InstallResult::Updated => {
                installed = installed + 1;
            },
            InstallResult::Failed(_) => {
                failed = failed + 1;
            },
            InstallResult::AlreadyInstalled => {},
        }
        i = i + 1;
    }
    proof {
        assert(results@.take(i as int) =~= results@);
    }
    (installed, failed)
}

/// The closing line of a setup run.
pub fn summary_line(installed: usize, failed: usize) -> (s: String)
    ensures
        s@ == "Setup complete: "@ + dec(installed as nat) + " installed, "@ + dec(failed as nat)
            + " failed."@,
{
    let mut s = to_string("Setup complete: ");
    push_decimal(&mut s, installed as u64);
    push_str(&mut s, " installed, ");
    push_decimal(&mut s, failed as u64);
    push_str(&mut s, " failed.");
    s
}

} // verus!
