//! HawkNest, the package marketplace: package kinds and listings, semantic
//! version checks, version extraction from a manifest, and the checks made
//! before a package is installed or published.
use vstd::prelude::*;

use crate::signature::{expected_signature, signature_text, verify_signature};
use crate::text::{
    chars_of, first_match, find_from, split_exec, split_on, starts_with, starts_with_exec, str_eq, string_of_range,
    sub_vec, to_string, trim, trim_bounds,
};

verus! {

/// `rusqlite::Error`, carried through unchanged.
#[verifier::external_type_specification]
#[verifier::external_body]
pub struct ExRusqliteError(rusqlite::Error);

#[derive(Debug)]
pub enum NestError {
    AlreadyInstalled(String),
    InvalidSignature(String),
    InvalidPackage(String),
    InvalidVersion(String),
    Db(rusqlite::Error),
    Io(std::io::Error),
}

#[derive(Debug, Clone, Copy, PartialEq, Eq, Structural)]
pub enum PackageType {
    Flight,
    Talon,
    Driver,
}

impl PackageType {
    pub fn as_str(&self) -> (s: &'static str)
        ensures
            s@ == package_type_name(*self),
    {
        match self {
            PackageType::Flight => "Flight",
            PackageType::Talon => "Talon",
            PackageType::Driver => "Driver",
        }
    }

    pub fn from_str(s: &str) -> (r: Option<Self>)
        ensures
            match r {
                Some(t) => package_type_name(t) == s@,
                None => s@ != "Flight"@ && s@ != "Talon"@ && s@ != "Driver"@,
            },
    {
        if str_eq(s, "Flight") {
            Some(PackageType::Flight)
        } else if str_eq(s, "Talon") {
            Some(PackageType::Talon)
        } else if str_eq(s, "Driver") {
            Some(PackageType::Driver)
        } else {
            None
        }
    }
}

pub open spec fn package_type_name(t: PackageType) -> Seq<char> {
    match t {
        PackageType::Flight => "Flight"@,
        PackageType::Talon => "Talon"@,
        PackageType::Driver => "Driver"@,
    }
}

/// Reading a package type back from its name gives the same type.
pub proof fn package_type_name_round_trip(t: PackageType, u: PackageType)
    ensures
        package_type_name(t) == package_type_name(u) ==> t == u,
{
    reveal_strlit("Flight");
    reveal_strlit("Talon");
    reveal_strlit("Driver");
    if t != u {
        assert(package_type_name(t).len() != package_type_name(u).len() || package_type_name(t)[0] != package_type_name(
            u,
        )[0]);
    }
}

#[derive(Debug, Clone)]
pub struct PackageListing {
    pub name: String,
    pub description: String,
    pub author: String,
    pub version: String,
    pub download_count: u64,
    pub package_type: PackageType,
    pub compatibility: String,
}

#[derive(Debug, Clone)]
pub struct InstalledPackage {
    pub name: String,
    pub version: String,
    pub package_type: PackageType,
    pub signature: String,
    pub installed_at: String,
    pub capabilities: Vec<String>,
}

// ── Versions ─────────────────────────────────────────────────────────────────

pub open spec fn all_digits(s: Seq<char>) -> bool {
    forall|i: int| 0 <= i < s.len() ==> '0' <= #[trigger] s[i] <= '9'
}

/// `MAJOR.MINOR.PATCH`: three non-empty runs of ASCII digits.
pub open spec fn is_semver(v: Seq<char>) -> bool {
    let parts = split_on(v, "."@);
    parts.len() == 3 && forall|k: int| 0 <= k < 3 ==> #[trigger] parts[k].len() > 0 && all_digits(parts[k])
}

fn digits_only(v: &Vec<char>, a: usize, b: usize) -> (r: bool)
    requires
        a <= b <= v.len(),
    ensures
        r == (b > a && all_digits(v@.subrange(a as int, b as int))),
{
    if a == b {
        return false;
    }
    let mut i = a;
    while i < b
        invariant
            a <= i <= b,
            b <= v.len(),
            forall|j: int| a <= j < i ==> '0' <= #[trigger] v@[j] <= '9',
        decreases b - i,
    {
        if !('0' <= v[i] && v[i] <= '9') {
            assert(v@.subrange(a as int, b as int)[i - a] == v@[i as int]);
            return false;
        }
        i = i + 1;
    }
    assert forall|j: int| 0 <= j < b - a implies '0' <= #[trigger] v@.subrange(a as int, b as int)[j] <= '9' by {
        assert(v@.subrange(a as int, b as int)[j] == v@[a + j]);
    }
    true
}

/// Whether `version` is `MAJOR.MINOR.PATCH` in digits.
pub fn is_valid_semver(version: &str) -> (b: bool)
    ensures
        b == is_semver(version@),
{
    let v = chars_of(version);
    let dot: Vec<char> = vec!['.'];
    proof {
        reveal_strlit(".");
        assert(dot@ =~= "."@);
    }
    let parts = split_exec(&v, &dot);
    if parts.len() != 3 {
        return false;
    }
    let mut k: usize = 0;
    while k < 3
        invariant
            k <= 3,
            v@ == version@,
            parts@.len() == 3,
            split_on(v@, "."@).len() == 3,
            dot@ == "."@,
            forall|j: int| 0 <= j < parts@.len() ==> piece_at_ok(v@, parts@[j], j),
            forall|j: int| 0 <= j < k ==> #[trigger] split_on(v@, "."@)[j].len() > 0 && all_digits(split_on(v@, "."@)[j]),
        decreases 3 - k,
    {
        let (a, b) = parts[k];
        assert(piece_at_ok(v@, parts@[k as int], k as int));
        if !digits_only(&v, a, b) {
            proof {
                let p = split_on(v@, "."@)[k as int];
                assert(p == v@.subrange(a as int, b as int));
                assert(!(p.len() > 0 && all_digits(p)));
            }
            return false;
        }
        k = k + 1;
    }
    true
}

pub open spec fn piece_at_ok(s: Seq<char>, part: (usize, usize), k: int) -> bool {
    crate::text::piece_at(s, "."@, part, k)
}

// ── Manifest version ─────────────────────────────────────────────────────────

/// `s` with every leading and trailing `"` removed (`trim_matches('"')`).
pub open spec fn trim_quotes(s: Seq<char>) -> Seq<char>
    decreases s.len(),
{
    if s.len() > 0 && s[0] == '"' {
        trim_quotes(s.drop_first())
    } else if s.len() > 0 && s.last() == '"' {
        trim_quotes(s.drop_last())
    } else {
        s
    }
}

/// The version a manifest line gives, if it gives one: a trimmed line that
/// starts with `version` and has an `=`, the non-empty text after the first
/// `=`, trimmed and without surrounding quotes.
pub open spec fn line_version(line: Seq<char>) -> Option<Seq<char>> {
    let t = trim(line);
    let k = first_match(t, "="@, 0);
    if starts_with(t, "version"@) && k >= 0 && trim_quotes(trim(t.subrange(k + 1, t.len() as int))).len() > 0 {
        Some(trim_quotes(trim(t.subrange(k + 1, t.len() as int))))
    } else {
        None
    }
}

/// The first version given by one of `lines`.
pub open spec fn first_version(lines: Seq<Seq<char>>) -> Option<Seq<char>>
    decreases lines.len(),
{
    if lines.len() == 0 {
        None
    } else if line_version(lines[0]) is Some {
        line_version(lines[0])
    } else {
        first_version(lines.drop_first())
    }
}

fn trim_quotes_exec(v: &Vec<char>, a: usize, b: usize) -> (r: (usize, usize))
    requires
        a <= b <= v.len(),
    ensures
        a <= r.0 <= r.1 <= b,
        v@.subrange(r.0 as int, r.1 as int) == trim_quotes(v@.subrange(a as int, b as int)),
    decreases b - a,
{
    if a < b && v[a] == '"' {
        proof {
            assert(v@.subrange(a as int, b as int).drop_first() =~= v@.subrange(a + 1, b as int));
        }
        trim_quotes_exec(v, a + 1, b)
    } else if a < b && v[b - 1] == '"' {
        proof {
            assert(v@.subrange(a as int, b as int).drop_last() =~= v@.subrange(a as int, b - 1));
        }
        trim_quotes_exec(v, a, b - 1)
    } else {
        (a, b)
    }
}

fn version_of_line(line: &Vec<char>) -> (r: Option<String>)
    ensures
        match r {
            Some(s) => line_version(line@) == Some(s@),
            None => line_version(line@) is None,
        },
{
    let (a, b) = trim_bounds(line, 0, line.len());
    assert(line@.subrange(0, line@.len() as int) =~= line@);
    let t = sub_vec(line, a, b);
    let version_word = chars_of("version");
    if !starts_with_exec(&t, &version_word) {
        return None;
    }
    let eq: Vec<char> = vec!['='];
    proof {
        reveal_strlit("=");
        assert(eq@ =~= "="@);
    }
    let k = match find_from(&t, &eq, 0) {
        Some(k) => k,
        None => return None,
    };
    proof {
        crate::text::lemma_first_match_bounds(t@, eq@, 0);
    }
    let (c, d) = trim_bounds(&t, k + 1, t.len());
    let (e, f) = trim_quotes_exec(&t, c, d);
    if e == f {
        return None;
    }
    Some(string_of_range(&t, e, f))
}

/// The version a manifest's text declares: the first line that gives one.
pub fn extract_version_from_manifest(src: &str) -> (r: Option<String>)
    ensures
        match r {
            Some(s) => first_version(split_on(src@, "\n"@)) == Some(s@),
            None => first_version(split_on(src@, "\n"@)) is None,
        },
{
    let v = chars_of(src);
    let nl: Vec<char> = vec!['\n'];
    proof {
        reveal_strlit("\n");
        assert(nl@ =~= "\n"@);
    }
    let parts = split_exec(&v, &nl);
    let ghost lines = split_on(v@, nl@);
    let mut i: usize = 0;
    assert(lines.skip(0) =~= lines);
    while i < parts.len()
        invariant
            i <= parts@.len(),
            parts@.len() == lines.len(),
            lines == split_on(v@, nl@),
            nl@ == "\n"@,
            v@ == src@,
            forall|k: int| 0 <= k < parts@.len() ==> crate::text::piece_at(v@, nl@, #[trigger] parts@[k], k),
            first_version(lines) == first_version(lines.skip(i as int)),
        decreases parts.len() - i,
    {
        let (a, b) = parts[i];
        assert(crate::text::piece_at(v@, nl@, parts@[i as int], i as int));
        let line = sub_vec(&v, a, b);
        proof {
            assert(lines.skip(i as int)[0] == lines[i as int]);
            assert(lines.skip(i as int).drop_first() =~= lines.skip(i + 1));
        }
        match version_of_line(&line) {
            Some(s) => return Some(s),
            None => {},
        }
        i = i + 1;
    }
    None
}

// ── Installing and publishing ────────────────────────────────────────────────

/// The signature a package named `name` at `version` must carry.
pub fn make_signature(name: &str, version: &str) -> (s: String)
    ensures
        s@ == signature_text(name@, version@),
        s@.len() == 64,
{
    expected_signature(name, version)
}

/// The checks before installing `package_name` from `listing`: the signature
/// must be that of the name at the listed version, and the package must not
/// be installed yet.
pub fn check_install(package_name: &str, listing: &PackageListing, signature: &str, already_installed: bool) -> (r: Result<(), NestError>)
    ensures
        signature@ != signature_text(package_name@, listing.version@) ==> (r matches Err(NestError::InvalidSignature(n))
            && n@ == package_name@),
        signature@ == signature_text(package_name@, listing.version@) && already_installed ==> (r matches Err(
            NestError::AlreadyInstalled(n),
        ) && n@ == package_name@),
        signature@ == signature_text(package_name@, listing.version@) && !already_installed ==> r is Ok,
{
    if !verify_signature(package_name, listing.version.as_str(), signature) {
        return Err(NestError::InvalidSignature(to_string(package_name)));
    }
    if already_installed {
        return Err(NestError::AlreadyInstalled(to_string(package_name)));
    }
    Ok(())
}

/// The checks before publishing a package whose manifest text is
/// `manifest_src` (`None` when the package has no manifest).
pub fn check_publish(manifest_src: Option<&str>) -> (r: Result<(), NestError>)
    ensures
        manifest_src is None ==> (r matches Err(NestError::InvalidPackage(m)) && m@
            == "Agent_Manifest.toml not found at package root"@),
        manifest_src matches Some(src) ==> match first_version(split_on(src@, "\n"@)) {
            None => r matches Err(NestError::InvalidPackage(m)) && m@ == "version field missing from Agent_Manifest.toml"@,
            Some(v) => if is_semver(v) {
                r is Ok
            } else {
                r matches Err(NestError::InvalidVersion(x)) && x@ == v
            },
        },
{
    let src = match manifest_src {
        Some(s) => s,
        None => return Err(NestError::InvalidPackage(to_string("Agent_Manifest.toml not found at package root"))),
    };
    let version = match extract_version_from_manifest(src) {
        Some(v) => v,
        None => return Err(NestError::InvalidPackage(to_string("version field missing from Agent_Manifest.toml"))),
    };
    if !is_valid_semver(version.as_str()) {
        return Err(NestError::InvalidVersion(version));
    }
    Ok(())
}


fn quoted(prefix: &str, m: &String) -> (s: String)
    ensures
        s@ == prefix@ + m@ + "'"@,
{
    let mut s = crate::error::prefixed(prefix, m);
    crate::text::push_str(&mut s, "'");
    s
}

impl NestError {
    /// The error's message, as the program prints it.
    pub fn message(&self) -> (s: String)
        ensures
            match *self {
                NestError::AlreadyInstalled(m) => s@ == "package already installed: '"@ + m@ + "'"@,
                NestError::InvalidSignature(m) => s@ == "invalid signature for '"@ + m@ + "'"@,
                NestError::InvalidPackage(m) => s@ == "invalid package: "@ + m@,
                NestError::InvalidVersion(m) => s@ == "invalid semver version '"@ + m@
                    + "': expected MAJOR.MINOR.PATCH"@,
                NestError::Db(_) => crate::text::starts_with(s@, "database error: "@),
                NestError::Io(_) => crate::text::starts_with(s@, "io error: "@),
            },
    {
        match self {
            NestError::AlreadyInstalled(m) => quoted("package already installed: '", m),
            NestError::InvalidSignature(m) => quoted("invalid signature for '", m),
            NestError::InvalidPackage(m) => crate::error::prefixed("invalid package: ", m),
            NestError::InvalidVersion(m) => {
                let mut s = crate::error::prefixed("invalid semver version '", m);
                crate::text::push_str(&mut s, "': expected MAJOR.MINOR.PATCH");
                s
            },
            NestError::Db(e) => {
                let t = crate::token_tracker::db_error_message(e);
                crate::error::prefixed("database error: ", &t)
            },
            NestError::Io(e) => {
                let t = crate::error::io_error_message(e);
                crate::error::prefixed("io error: ", &t)
            },
        }
    }
}

} // verus!
