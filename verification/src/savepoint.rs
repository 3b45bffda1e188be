//! Savepoints: snapshots of an agent's working directory. Here are the
//! snapshot strategy (chosen from the filesystem a directory lives on), the
//! snapshot records, and the comparison of a snapshot's file manifest with
//! the directory's current files.
use vstd::prelude::*;

use crate::signature::{hex_encode, hex_lower, hex_lower_len, sha256, sha256_digest};
use crate::text::{texts, chars_of, split_exec, split_on, starts_with, starts_with_exec, str_eq, to_string};

verus! {

#[derive(Debug, Clone, Copy, PartialEq, Eq, Structural)]
pub enum SnapshotStrategy {
    ApfsReflink,
    BtrfsCow,
    FileCopyFallback,
}

pub open spec fn strategy_db_text(s: SnapshotStrategy) -> Seq<char> {
    match s {
        SnapshotStrategy::ApfsReflink => "apfs_reflink"@,
        SnapshotStrategy::BtrfsCow => "btrfs_cow"@,
        SnapshotStrategy::FileCopyFallback => "file_copy"@,
    }
}

/// The strategy stored under a name; unknown names read as plain copies.
pub open spec fn strategy_from_db_text(t: Seq<char>) -> SnapshotStrategy {
    if t == "apfs_reflink"@ {
        SnapshotStrategy::ApfsReflink
    } else if t == "btrfs_cow"@ {
        SnapshotStrategy::BtrfsCow
    } else {
        SnapshotStrategy::FileCopyFallback
    }
}

/// Reading back the name a strategy is stored under gives the strategy.
pub proof fn strategy_name_round_trip(s: SnapshotStrategy)
    ensures
        strategy_from_db_text(strategy_db_text(s)) == s,
{
    reveal_strlit("apfs_reflink");
    reveal_strlit("btrfs_cow");
    reveal_strlit("file_copy");
    assert("apfs_reflink"@.len() == 12);
    assert("btrfs_cow"@.len() == 9);
    assert("file_copy"@.len() == 9);
    assert("file_copy"@[0] != "btrfs_cow"@[0]);
}

// ── Choosing a strategy ──────────────────────────────────────────────────────

/// One mount-table line's fields split on single spaces, at most four.
pub open spec fn mount_fields(line: Seq<char>) -> Seq<Seq<char>> {
    let ps = split_on(line, " "@);
    if ps.len() <= 4 {
        ps
    } else {
        ps.take(3).push(line.skip((ps[0].len() + ps[1].len() + ps[2].len() + 3) as int))
    }
}

/// Scanning mount-table lines: the longest mount point that `dir` starts
/// with so far (its length) and whether it is Btrfs.
pub open spec fn best_mount(dir: Seq<char>, lines: Seq<Seq<char>>) -> (int, bool)
    decreases lines.len(),
{
    if lines.len() == 0 {
        (0, false)
    } else {
        let prev = best_mount(dir, lines.drop_last());
        let f = mount_fields(lines.last());
        if f.len() >= 3 && starts_with(dir, f[1]) && f[1].len() > prev.0 {
            (f[1].len() as int, f[2] == "btrfs"@)
        } else {
            prev
        }
    }
}

impl SnapshotStrategy {
    /// The name a strategy is stored under.
    pub fn as_db_str(&self) -> (s: &'static str)
        ensures
            s@ == strategy_db_text(*self),
    {
        match self {
            SnapshotStrategy::ApfsReflink => "apfs_reflink",
            SnapshotStrategy::BtrfsCow => "btrfs_cow",
            SnapshotStrategy::FileCopyFallback => "file_copy",
        }
    }

    /// The strategy stored under `s`; unknown names read as plain copies.
    pub fn from_db_str(s: &str) -> (r: Self)
        ensures
            r == strategy_from_db_text(s@),
    {
        proof {
            reveal_strlit("apfs_reflink");
            reveal_strlit("btrfs_cow");
            assert("apfs_reflink"@.len() == 12);
            assert("btrfs_cow"@.len() == 9);
            assert("apfs_reflink"@ != "btrfs_cow"@);
        }
        if str_eq(s, "apfs_reflink") {
            SnapshotStrategy::ApfsReflink
        } else if str_eq(s, "btrfs_cow") {
            SnapshotStrategy::BtrfsCow
        } else {
            SnapshotStrategy::FileCopyFallback
        }
    }

    /// On macOS: reflinks when the directory's filesystem is APFS.
    pub fn from_fs_type(fs_type_name: &str) -> (r: Self)
        ensures
            r == if fs_type_name@ == "apfs"@ {
                SnapshotStrategy::ApfsReflink
            } else {
                SnapshotStrategy::FileCopyFallback
            },
    {
        if str_eq(fs_type_name, "apfs") {
            SnapshotStrategy::ApfsReflink
        } else {
            SnapshotStrategy::FileCopyFallback
        }
    }

    /// On Linux: copy-on-write when the mount holding the canonical
    /// directory `dir` (the longest mount point of the mount table `mounts`
    /// that `dir` starts with) is Btrfs.
    pub fn from_mounts(dir: &str, mounts: &str) -> (r: Self)
        ensures
            r == if best_mount(dir@, split_on(mounts@, "\n"@)).1 {
                SnapshotStrategy::BtrfsCow
            } else {
                SnapshotStrategy::FileCopyFallback
            },
    {
        let d = chars_of(dir);
        let m = chars_of(mounts);
        let nl: Vec<char> = vec!['\n'];
        let sp: Vec<char> = vec![' '];
        let btrfs = chars_of("btrfs");
        proof {
            reveal_strlit("\n");
            reveal_strlit(" ");
            assert(nl@ =~= "\n"@);
            assert(sp@ =~= " "@);
        }
        let lines = split_exec(&m, &nl);
        let ghost ls = split_on(m@, nl@);
        let mut best_len: usize = 0;
        let mut best_btrfs = false;
        let mut i: usize = 0;
        while i < lines.len()
            invariant
                i <= lines@.len(),
                lines@.len() == ls.len(),
                ls == split_on(m@, nl@),
                nl@ == "\n"@,
                sp@ == " "@,
                sp.len() == 1,
                d@ == dir@,
                btrfs@ == "btrfs"@,
                forall|k: int| 0 <= k < lines@.len() ==> crate::text::piece_at(m@, nl@, #[trigger] lines@[k], k),
                best_mount(dir@, ls.take(i as int)) == (best_len as int, best_btrfs),
            decreases lines.len() - i,
        {
            let (a, b) = lines[i];
            assert(crate::text::piece_at(m@, nl@, lines@[i as int], i as int));
            let line = crate::text::sub_vec(&m, a, b);
            let fields = split_exec(&line, &sp);
            proof {
                assert(ls.take(i + 1).drop_last() =~= ls.take(i as int));
                assert(ls.take(i + 1).last() == line@);
            }
            if fields.len() >= 3 {
                let (p0, p1) = fields[1];
                let (q0, q1) = fields[2];
                assert(crate::text::piece_at(line@, sp@, fields@[1], 1));
                assert(crate::text::piece_at(line@, sp@, fields@[2], 2));
                let mp = crate::text::sub_vec(&line, p0, p1);
                let fs = crate::text::sub_vec(&line, q0, q1);
                proof {
                    let ps = split_on(line@, " "@);
                    let f = mount_fields(line@);
                    if ps.len() > 4 {
                        assert(f[1] == ps[1]);
                        assert(f[2] == ps[2]);
                    }
                    assert(f[1] == mp@);
                    assert(f[2] == fs@);
                }
                if starts_with_exec(&d, &mp) && mp.len() > best_len {
                    best_len = mp.len();
                    best_btrfs = crate::text::chars_eq(&fs, &btrfs);
                }
            }
            i = i + 1;
        }
        proof {
            assert(ls.take(i as int) =~= ls);
        }
        if best_btrfs {
            SnapshotStrategy::BtrfsCow
        } else {
            SnapshotStrategy::FileCopyFallback
        }
    }
}

// ── Records ──────────────────────────────────────────────────────────────────

pub struct SnapshotMetadata {
    pub id: String,
    pub timestamp: String,
    pub agent_pid: u32,
    pub task_description: String,
    pub file_count: u32,
    pub strategy: SnapshotStrategy,
    pub working_dir: String,
    pub session_id: String,
}

pub struct RollbackResult {
    pub snapshot_id: String,
    pub files_restored: u32,
}

pub struct FileDiff {
    pub path: String,
    pub change_type: ChangeType,
    pub old_hash: Option<String>,
    pub new_hash: Option<String>,
}

#[derive(Debug, Clone, Copy, PartialEq, Eq, Structural)]
pub enum ChangeType {
    Added,
    Modified,
    Deleted,
}

// ── Hashing a file ───────────────────────────────────────────────────────────

/// The hash a snapshot records for a file with `contents`: the lowercase hex
/// SHA-256 digest, 64 characters.
pub fn content_hash(contents: &[u8]) -> (h: String)
    ensures
        h@ == hex_lower(sha256_digest(contents@)),
        h@.len() == 64,
{
    let d = sha256(contents);
    proof {
        hex_lower_len(d@);
    }
    hex_encode(d.as_slice())
}

// ── Comparing a snapshot with the directory ─────────────────────────────────

/// A file list read as a map from path to hash: the last entry of a path
/// counts.
pub open spec fn lookup(entries: Seq<(String, String)>, path: Seq<char>) -> Option<Seq<char>>
    decreases entries.len(),
{
    if entries.len() == 0 {
        None
    } else if entries.last().0@ == path {
        Some(entries.last().1@)
    } else {
        lookup(entries.drop_last(), path)
    }
}

/// Entry `i` is the last one of its path.
pub open spec fn is_last(entries: Seq<(String, String)>, i: int) -> bool {
    forall|j: int| i < j < entries.len() ==> #[trigger] entries[j].0@ != entries[i].0@
}

/// A change as a mathematical value: path, kind, old hash, new hash.
pub type DiffView = (Seq<char>, ChangeType, Option<Seq<char>>, Option<Seq<char>>);

pub open spec fn diff_view(d: FileDiff) -> DiffView {
    (
        d.path@,
        d.change_type,
        match d.old_hash {
            Some(h) => Some(h@),
            None => None,
        },
        match d.new_hash {
            Some(h) => Some(h@),
            None => None,
        },
    )
}

/// The change, if any, recorded for snapshot entry `i`.
pub open spec fn snapshot_change(snap: Seq<(String, String)>, cur: Seq<(String, String)>, i: int) -> Seq<DiffView> {
    let p = snap[i].0@;
    let h = snap[i].1@;
    if !is_last(snap, i) {
        Seq::empty()
    } else {
        match lookup(cur, p) {
            None => seq![(p, ChangeType::Deleted, Some(h), None)],
            Some(n) => if n != h {
                seq![(p, ChangeType::Modified, Some(h), Some(n))]
            } else {
                Seq::empty()
            },
        }
    }
}

/// The change, if any, recorded for current entry `j`.
pub open spec fn current_change(snap: Seq<(String, String)>, cur: Seq<(String, String)>, j: int) -> Seq<DiffView> {
    if is_last(cur, j) && lookup(snap, cur[j].0@) is None {
        seq![(cur[j].0@, ChangeType::Added, None, Some(cur[j].1@))]
    } else {
        Seq::empty()
    }
}

/// The changes for the first `k` snapshot entries.
pub open spec fn snapshot_changes(snap: Seq<(String, String)>, cur: Seq<(String, String)>, k: int) -> Seq<DiffView>
    decreases k,
{
    if k <= 0 {
        Seq::empty()
    } else {
        snapshot_changes(snap, cur, k - 1) + snapshot_change(snap, cur, k - 1)
    }
}

/// The changes for the first `k` current entries.
pub open spec fn current_changes(snap: Seq<(String, String)>, cur: Seq<(String, String)>, k: int) -> Seq<DiffView>
    decreases k,
{
    if k <= 0 {
        Seq::empty()
    } else {
        current_changes(snap, cur, k - 1) + current_change(snap, cur, k - 1)
    }
}

/// How the directory differs from the snapshot: deleted and modified files
/// in snapshot order, then added files in directory order.
pub open spec fn manifest_diff(snap: Seq<(String, String)>, cur: Seq<(String, String)>) -> Seq<DiffView> {
    snapshot_changes(snap, cur, snap.len() as int) + current_changes(snap, cur, cur.len() as int)
}

fn lookup_exec(entries: &Vec<(String, String)>, path: &String) -> (r: Option<usize>)
    ensures
        match r {
            Some(i) => i < entries@.len() && lookup(entries@, path@) == Some(entries@[i as int].1@),
            None => lookup(entries@, path@) is None,
        },
{
    let mut k = entries.len();
    assert(entries@.take(k as int) =~= entries@);
    while k > 0
        invariant
            k <= entries@.len(),
            lookup(entries@, path@) == lookup(entries@.take(k as int), path@),
        decreases k,
    {
        proof {
            assert(entries@.take(k as int).drop_last() =~= entries@.take(k - 1));
        }
        if str_eq(entries[k - 1].0.as_str(), path.as_str()) {
            return Some(k - 1);
        }
        k = k - 1;
    }
    None
}

fn last_of_path(entries: &Vec<(String, String)>, i: usize) -> (b: bool)
    requires
        i < entries@.len(),
    ensures
        b == is_last(entries@, i as int),
{
    let n = entries.len();
    let mut j = i + 1;
    while j < n
        invariant
            i < j <= entries@.len(),
            n == entries@.len(),
            forall|k: int| i < k < j ==> #[trigger] entries@[k].0@ != entries@[i as int].0@,
        decreases entries.len() - j,
    {
        if str_eq(entries[j].0.as_str(), entries[i].0.as_str()) {
            return false;
        }
        j = j + 1;
    }
    true
}

fn copy_text(s: &String) -> (r: String)
    ensures
        r@ == s@,
{
    to_string(s.as_str())
}

/// The changes between a snapshot's files and the directory's current files,
/// each given as (path, hash).
pub fn diff_manifests(snapshot: &Vec<(String, String)>, current: &Vec<(String, String)>) -> (r: Vec<FileDiff>)
    ensures
        r@.map_values(|d: FileDiff| diff_view(d)) == manifest_diff(snapshot@, current@),
{
    let mut out: Vec<FileDiff> = Vec::new();
    let mut i: usize = 0;
    while i < snapshot.len()
        invariant
            i <= snapshot@.len(),
            out@.map_values(|d: FileDiff| diff_view(d)) == snapshot_changes(snapshot@, current@, i as int),
        decreases snapshot.len() - i,
    {
        let ghost before = out@.map_values(|d: FileDiff| diff_view(d));
        if last_of_path(snapshot, i) {
            let path = &snapshot[i].0;
            let old_hash = &snapshot[i].1;
            match lookup_exec(current, path) {
                None => {
                    out.push(FileDiff {
                        path: copy_text(path),
                        change_type: ChangeType::Deleted,
                        old_hash: Some(copy_text(old_hash)),
                        new_hash: None,
                    });
                },
                Some(j) => {
                    if !str_eq(current[j].1.as_str(), old_hash.as_str()) {
                        out.push(FileDiff {
                            path: copy_text(path),
                            change_type: ChangeType::Modified,
                            old_hash: Some(copy_text(old_hash)),
                            new_hash: Some(copy_text(&current[j].1)),
                        });
                    }
                },
            }
        }
        proof {
            assert(out@.map_values(|d: FileDiff| diff_view(d)) =~= before + snapshot_change(snapshot@, current@, i as int));
        }
        i = i + 1;
    }
    let ghost mid = out@.map_values(|d: FileDiff| diff_view(d));
    let mut j: usize = 0;
    assert(mid + current_changes(snapshot@, current@, 0) =~= mid);
    while j < current.len()
        invariant
            j <= current@.len(),
            mid == snapshot_changes(snapshot@, current@, snapshot@.len() as int),
            out@.map_values(|d: FileDiff| diff_view(d)) == mid + current_changes(snapshot@, current@, j as int),
        decreases current.len() - j,
    {
        let ghost before = out@.map_values(|d: FileDiff| diff_view(d));
        if last_of_path(current, j) {
            let path = &current[j].0;
            match lookup_exec(snapshot, path) {
                None => {
                    out.push(FileDiff {
                        path: copy_text(path),
                        change_type: ChangeType::Added,
                        old_hash: None,
                        new_hash: Some(copy_text(&current[j].1)),
                    });
                },
                Some(_) => {},
            }
        }
        proof {
            assert(out@.map_values(|d: FileDiff| diff_view(d)) =~= before + current_change(snapshot@, current@, j as int));
            assert(mid + current_changes(snapshot@, current@, j + 1) =~= mid + current_changes(snapshot@, current@, j as int)
                + current_change(snapshot@, current@, j as int));
        }
        j = j + 1;
    }
    out
}

/// A snapshot file whose hash the directory still has is not reported.
pub proof fn unchanged_files_are_not_reported(snap: Seq<(String, String)>, cur: Seq<(String, String)>, i: int)
    requires
        0 <= i < snap.len(),
        lookup(cur, snap[i].0@) == Some(snap[i].1@),
    ensures
        snapshot_change(snap, cur, i).len() == 0,
{
}

/// Path `p` differs between the snapshot and the directory: it is in only
/// one of them, or its hash changed.
#[verifier::opaque]
pub open spec fn path_changed(snap: Seq<(String, String)>, cur: Seq<(String, String)>, p: Seq<char>) -> bool {
    lookup(snap, p) != lookup(cur, p)
}

/// The change to report for path `p`.
#[verifier::opaque]
pub open spec fn change_for(snap: Seq<(String, String)>, cur: Seq<(String, String)>, p: Seq<char>) -> DiffView {
    match (lookup(snap, p), lookup(cur, p)) {
        (Some(h), None) => (p, ChangeType::Deleted, Some(h), None),
        (Some(h), Some(n)) => (p, ChangeType::Modified, Some(h), Some(n)),
        (None, n) => (p, ChangeType::Added, None, n),
    }
}

/// Every change of `d` is the change of its path, its path changed, and no
/// path is reported twice.
#[verifier::opaque]
pub open spec fn sound_changes(snap: Seq<(String, String)>, cur: Seq<(String, String)>, d: Seq<DiffView>) -> bool {
    &&& forall|m: int| 0 <= m < d.len() ==> #[trigger] d[m] == change_for(snap, cur, d[m].0)
    &&& forall|m: int| 0 <= m < d.len() ==> path_changed(snap, cur, #[trigger] d[m].0)
    &&& forall|a: int, b: int| 0 <= a < b < d.len() ==> #[trigger] d[a].0 != #[trigger] d[b].0
}

spec fn last_path(e: Seq<(String, String)>, p: Seq<char>, k: int) -> bool {
    exists|i: int| 0 <= i < k && is_last(e, i) && #[trigger] e[i].0@ == p
}

#[verifier::opaque]
spec fn from_last(e: Seq<(String, String)>, d: Seq<DiffView>, k: int) -> bool {
    forall|m: int| 0 <= m < d.len() ==> #[trigger] last_path(e, d[m].0, k)
}

#[verifier::opaque]
spec fn covers_snapshot(snap: Seq<(String, String)>, cur: Seq<(String, String)>, d: Seq<DiffView>, k: int) -> bool {
    forall|i: int| 0 <= i < k && is_last(snap, i) && path_changed(snap, cur, #[trigger] snap[i].0@) ==> exists|m: int|
        0 <= m < d.len() && #[trigger] d[m].0 == snap[i].0@
}

#[verifier::opaque]
spec fn covers_current(snap: Seq<(String, String)>, cur: Seq<(String, String)>, d: Seq<DiffView>, k: int) -> bool {
    forall|j: int| 0 <= j < k && is_last(cur, j) && lookup(snap, #[trigger] cur[j].0@) is None ==> exists|m: int|
        0 <= m < d.len() && #[trigger] d[m].0 == cur[j].0@
}

#[verifier::opaque]
spec fn not_in_snapshot(snap: Seq<(String, String)>, d: Seq<DiffView>) -> bool {
    forall|m: int| 0 <= m < d.len() ==> lookup(snap, (#[trigger] d[m]).0) is None
}

proof fn lemma_lookup_last(e: Seq<(String, String)>, i: int)
    requires
        0 <= i < e.len(),
        is_last(e, i),
    ensures
        lookup(e, e[i].0@) == Some(e[i].1@),
    decreases e.len(),
{
    if i < e.len() - 1 {
        let d = e.drop_last();
        assert(e[e.len() - 1].0@ != e[i].0@);
        assert forall|j: int| i < j < d.len() implies #[trigger] d[j].0@ != d[i].0@ by {
            assert(d[j] == e[j]);
        }
        lemma_lookup_last(d, i);
    }
}

proof fn lemma_snapshot_change_one(snap: Seq<(String, String)>, cur: Seq<(String, String)>, i: int)
    requires
        0 <= i < snap.len(),
    ensures
        snapshot_change(snap, cur, i).len() <= 1,
        snapshot_change(snap, cur, i).len() == 1 ==> is_last(snap, i) && snapshot_change(snap, cur, i)[0].0
            == snap[i].0@,
        sound_changes(snap, cur, snapshot_change(snap, cur, i)),
        is_last(snap, i) && path_changed(snap, cur, snap[i].0@) ==> snapshot_change(snap, cur, i).len() == 1,
{
    reveal(path_changed);
    reveal(change_for);
    reveal(sound_changes);
    if is_last(snap, i) {
        lemma_lookup_last(snap, i);
    }
}

proof fn lemma_current_change_one(snap: Seq<(String, String)>, cur: Seq<(String, String)>, j: int)
    requires
        0 <= j < cur.len(),
    ensures
        current_change(snap, cur, j).len() <= 1,
        current_change(snap, cur, j).len() == 1 ==> is_last(cur, j) && current_change(snap, cur, j)[0].0
            == cur[j].0@,
        sound_changes(snap, cur, current_change(snap, cur, j)),
        not_in_snapshot(snap, current_change(snap, cur, j)),
        is_last(cur, j) && lookup(snap, cur[j].0@) is None ==> current_change(snap, cur, j).len() == 1,
{
    reveal(path_changed);
    reveal(change_for);
    reveal(sound_changes);
    reveal(not_in_snapshot);
    if is_last(cur, j) {
        lemma_lookup_last(cur, j);
    }
}

proof fn lemma_append_sound(snap: Seq<(String, String)>, cur: Seq<(String, String)>, a: Seq<DiffView>, b: Seq<DiffView>)
    requires
        sound_changes(snap, cur, a),
        sound_changes(snap, cur, b),
        forall|x: int, y: int| 0 <= x < a.len() && 0 <= y < b.len() ==> #[trigger] a[x].0 != #[trigger] b[y].0,
    ensures
        sound_changes(snap, cur, a + b),
{
    reveal(sound_changes);
    let d = a + b;
    assert forall|m: int| 0 <= m < d.len() implies #[trigger] d[m] == change_for(snap, cur, d[m].0) && path_changed(
        snap,
        cur,
        d[m].0,
    ) by {
        if m < a.len() {
            assert(d[m] == a[m]);
        } else {
            assert(d[m] == b[m - a.len()]);
        }
    }
    assert forall|x: int, y: int| 0 <= x < y < d.len() implies #[trigger] d[x].0 != #[trigger] d[y].0 by {
        if y < a.len() {
            assert(d[x] == a[x] && d[y] == a[y]);
        } else if x >= a.len() {
            assert(d[x] == b[x - a.len()] && d[y] == b[y - a.len()]);
        } else {
            assert(d[x] == a[x] && d[y] == b[y - a.len()]);
        }
    }
}

proof fn lemma_from_last_append(e: Seq<(String, String)>, prev: Seq<DiffView>, c: Seq<DiffView>, k: int)
    requires
        0 < k <= e.len(),
        from_last(e, prev, k - 1),
        c.len() <= 1,
        c.len() == 1 ==> is_last(e, k - 1) && c[0].0 == e[k - 1].0@,
    ensures
        from_last(e, prev + c, k),
{
    reveal(from_last);
    assert forall|m: int| 0 <= m < (prev + c).len() implies #[trigger] last_path(e, (prev + c)[m].0, k) by {
        if m < prev.len() {
            assert((prev + c)[m] == prev[m]);
            assert(last_path(e, prev[m].0, k - 1));
            let i = choose|i: int| 0 <= i < k - 1 && is_last(e, i) && #[trigger] e[i].0@ == prev[m].0;
            assert(e[i].0@ == (prev + c)[m].0);
        } else {
            assert((prev + c)[m] == c[0]);
            assert(e[k - 1].0@ == (prev + c)[m].0);
        }
    }
}

proof fn lemma_snapshot_changes(snap: Seq<(String, String)>, cur: Seq<(String, String)>, k: int)
    requires
        0 <= k <= snap.len(),
    ensures
        sound_changes(snap, cur, snapshot_changes(snap, cur, k)),
        from_last(snap, snapshot_changes(snap, cur, k), k),
        covers_snapshot(snap, cur, snapshot_changes(snap, cur, k), k),
    decreases k,
{
    if k == 0 {
        reveal(sound_changes);
        reveal(from_last);
        reveal(covers_snapshot);
    } else {
        lemma_snapshot_changes(snap, cur, k - 1);
        lemma_snapshot_change_one(snap, cur, k - 1);
        let prev = snapshot_changes(snap, cur, k - 1);
        let c = snapshot_change(snap, cur, k - 1);
        assert(snapshot_changes(snap, cur, k) == (prev + c));
        assert forall|x: int, y: int| 0 <= x < prev.len() && 0 <= y < c.len() implies #[trigger] prev[x].0
            != #[trigger] c[y].0 by {
            reveal(from_last);
            assert(last_path(snap, prev[x].0, k - 1));
            let i = choose|i: int| 0 <= i < k - 1 && is_last(snap, i) && #[trigger] snap[i].0@ == prev[x].0;
            assert(snap[k - 1].0@ != snap[i].0@);
        }
        lemma_append_sound(snap, cur, prev, c);
        lemma_from_last_append(snap, prev, c, k);
        assert(from_last(snap, (prev + c), k));
        assert(covers_snapshot(snap, cur, (prev + c), k)) by {
            reveal(covers_snapshot);
            assert forall|i: int|
                0 <= i < k && is_last(snap, i) && path_changed(snap, cur, #[trigger] snap[i].0@) implies exists|m: int|
                    0 <= m < (prev + c).len() && #[trigger] (prev + c)[m].0 == snap[i].0@ by {
                if i < k - 1 {
                    let m = choose|m: int| 0 <= m < prev.len() && #[trigger] prev[m].0 == snap[i].0@;
                    assert((prev + c)[m] == prev[m]);
                } else {
                    assert((prev + c)[prev.len() as int] == c[0]);
                }
            }
        }
    }
}

proof fn lemma_current_changes(snap: Seq<(String, String)>, cur: Seq<(String, String)>, k: int)
    requires
        0 <= k <= cur.len(),
    ensures
        sound_changes(snap, cur, current_changes(snap, cur, k)),
        not_in_snapshot(snap, current_changes(snap, cur, k)),
        from_last(cur, current_changes(snap, cur, k), k),
        covers_current(snap, cur, current_changes(snap, cur, k), k),
    decreases k,
{
    if k == 0 {
        reveal(sound_changes);
        reveal(not_in_snapshot);
        reveal(from_last);
        reveal(covers_current);
    } else {
        lemma_current_changes(snap, cur, k - 1);
        lemma_current_change_one(snap, cur, k - 1);
        let prev = current_changes(snap, cur, k - 1);
        let c = current_change(snap, cur, k - 1);
        assert(current_changes(snap, cur, k) == (prev + c));
        assert forall|x: int, y: int| 0 <= x < prev.len() && 0 <= y < c.len() implies #[trigger] prev[x].0
            != #[trigger] c[y].0 by {
            reveal(from_last);
            assert(last_path(cur, prev[x].0, k - 1));
            let j = choose|j: int| 0 <= j < k - 1 && is_last(cur, j) && #[trigger] cur[j].0@ == prev[x].0;
            assert(cur[k - 1].0@ != cur[j].0@);
        }
        lemma_append_sound(snap, cur, prev, c);
        assert(not_in_snapshot(snap, (prev + c))) by {
            reveal(not_in_snapshot);
            assert forall|m: int| 0 <= m < (prev + c).len() implies lookup(snap, (#[trigger] (prev + c)[m]).0) is None by {
                if m < prev.len() {
                    assert((prev + c)[m] == prev[m]);
                } else {
                    assert((prev + c)[m] == c[m - prev.len()]);
                }
            }
        }
        lemma_from_last_append(cur, prev, c, k);
        assert(from_last(cur, (prev + c), k));
        assert(covers_current(snap, cur, (prev + c), k)) by {
            reveal(covers_current);
            assert forall|j: int|
                0 <= j < k && is_last(cur, j) && lookup(snap, #[trigger] cur[j].0@) is None implies exists|m: int|
                    0 <= m < (prev + c).len() && #[trigger] (prev + c)[m].0 == cur[j].0@ by {
                if j < k - 1 {
                    let m = choose|m: int| 0 <= m < prev.len() && #[trigger] prev[m].0 == cur[j].0@;
                    assert((prev + c)[m] == prev[m]);
                } else {
                    assert((prev + c)[prev.len() as int] == c[0]);
                }
            }
        }
    }
}

/// The diff reports each changed path of the snapshot and the directory
/// exactly once, as the change that path underwent, and nothing else: every
/// reported change is that of its path, no path is reported twice, and a
/// path is reported exactly when it changed.
pub proof fn diff_reports_each_changed_path_once(snap: Seq<(String, String)>, cur: Seq<(String, String)>, p: Seq<char>)
    ensures
        sound_changes(snap, cur, manifest_diff(snap, cur)),
        path_changed(snap, cur, p) <==> exists|m: int|
            0 <= m < manifest_diff(snap, cur).len() && #[trigger] manifest_diff(snap, cur)[m].0 == p,
{
    let a = snapshot_changes(snap, cur, snap.len() as int);
    let b = current_changes(snap, cur, cur.len() as int);
    let d = a + b;
    lemma_snapshot_changes(snap, cur, snap.len() as int);
    lemma_current_changes(snap, cur, cur.len() as int);
    assert(manifest_diff(snap, cur) == d);
    assert forall|x: int, y: int| 0 <= x < a.len() && 0 <= y < b.len() implies #[trigger] a[x].0 != #[trigger] b[y].0 by {
        reveal(from_last);
        reveal(not_in_snapshot);
        assert(last_path(snap, a[x].0, snap.len() as int));
        let i = choose|i: int| 0 <= i < snap.len() && is_last(snap, i) && #[trigger] snap[i].0@ == a[x].0;
        lemma_lookup_last(snap, i);
        assert(lookup(snap, b[y].0) is None);
    }
    lemma_append_sound(snap, cur, a, b);
    if path_changed(snap, cur, p) {
        if lookup(snap, p) is Some {
            lemma_lookup_some(snap, p);
            let i = choose|i: int| 0 <= i < snap.len() && #[trigger] snap[i].0@ == p;
            lemma_last_occurrence(snap, i);
            let i2 = choose|k: int| 0 <= k < snap.len() && is_last(snap, k) && #[trigger] snap[k].0@ == snap[i].0@;
            reveal(covers_snapshot);
            assert(path_changed(snap, cur, snap[i2].0@));
            let m = choose|m: int| 0 <= m < a.len() && #[trigger] a[m].0 == snap[i2].0@;
            assert(d[m] == a[m]);
        } else {
            assert(lookup(cur, p) is Some) by {
                reveal(path_changed);
            }
            lemma_lookup_some(cur, p);
            let j = choose|j: int| 0 <= j < cur.len() && #[trigger] cur[j].0@ == p;
            lemma_last_occurrence(cur, j);
            let j2 = choose|k: int| 0 <= k < cur.len() && is_last(cur, k) && #[trigger] cur[k].0@ == cur[j].0@;
            reveal(covers_current);
            assert(lookup(snap, cur[j2].0@) is None);
            let m = choose|m: int| 0 <= m < b.len() && #[trigger] b[m].0 == cur[j2].0@;
            assert(d[a.len() + m] == b[m]);
        }
    }
    if exists|m: int| 0 <= m < d.len() && #[trigger] d[m].0 == p {
        let m = choose|m: int| 0 <= m < d.len() && #[trigger] d[m].0 == p;
        reveal(sound_changes);
        assert(path_changed(snap, cur, d[m].0));
    }
}

// ── Planning a rollback ──────────────────────────────────────────────────────

/// What a rollback does to the directory: the snapshot files to copy back
/// and the directory files to delete.
pub struct RollbackPlan {
    pub restore: Vec<String>,
    pub remove: Vec<String>,
}

/// The paths of the first `k` snapshot entries, each once (at its last
/// entry), in order.
pub open spec fn restore_paths(snap: Seq<(String, String)>, k: int) -> Seq<Seq<char>>
    decreases k,
{
    if k <= 0 {
        Seq::empty()
    } else if is_last(snap, k - 1) {
        restore_paths(snap, k - 1).push(snap[k - 1].0@)
    } else {
        restore_paths(snap, k - 1)
    }
}

/// The first `k` directory paths that the snapshot does not have, in order.
pub open spec fn remove_paths(snap: Seq<(String, String)>, cur: Seq<Seq<char>>, k: int) -> Seq<Seq<char>>
    decreases k,
{
    if k <= 0 {
        Seq::empty()
    } else if lookup(snap, cur[k - 1]) is None {
        remove_paths(snap, cur, k - 1).push(cur[k - 1])
    } else {
        remove_paths(snap, cur, k - 1)
    }
}

/// Plans the rollback of a directory holding the files `current` to a
/// snapshot whose files are `snapshot` (path, hash): every snapshot path is
/// restored once, and every directory file the snapshot lacks is deleted.
pub fn plan_rollback(snapshot: &Vec<(String, String)>, current: &Vec<String>) -> (r: RollbackPlan)
    ensures
        texts(r.restore@) == restore_paths(snapshot@, snapshot@.len() as int),
        texts(r.remove@) == remove_paths(snapshot@, texts(current@), current@.len() as int),
{
    let mut restore: Vec<String> = Vec::new();
    let mut i: usize = 0;
    while i < snapshot.len()
        invariant
            i <= snapshot@.len(),
            texts(restore@) == restore_paths(snapshot@, i as int),
        decreases snapshot.len() - i,
    {
        if last_of_path(snapshot, i) {
            let ghost before = restore@;
            restore.push(copy_text(&snapshot[i].0));
            assert(texts(restore@) =~= texts(before).push(snapshot@[i as int].0@));
        }
        i = i + 1;
    }
    let ghost cur = texts(current@);
    let mut remove: Vec<String> = Vec::new();
    let mut j: usize = 0;
    while j < current.len()
        invariant
            j <= current@.len(),
            cur == texts(current@),
            texts(remove@) == remove_paths(snapshot@, cur, j as int),
        decreases current.len() - j,
    {
        if lookup_exec(snapshot, &current[j]).is_none() {
            let ghost before = remove@;
            remove.push(copy_text(&current[j]));
            assert(texts(remove@) =~= texts(before).push(cur[j as int]));
        }
        j = j + 1;
    }
    RollbackPlan { restore, remove }
}

proof fn lemma_lookup_some(snap: Seq<(String, String)>, p: Seq<char>)
    ensures
        lookup(snap, p) is Some <==> exists|i: int| 0 <= i < snap.len() && #[trigger] snap[i].0@ == p,
    decreases snap.len(),
{
    if snap.len() > 0 {
        lemma_lookup_some(snap.drop_last(), p);
        if lookup(snap.drop_last(), p) is Some {
            let i = choose|i: int| 0 <= i < snap.drop_last().len() && #[trigger] snap.drop_last()[i].0@ == p;
            assert(snap[i].0@ == p);
        }
        if exists|i: int| 0 <= i < snap.len() && #[trigger] snap[i].0@ == p {
            let i = choose|i: int| 0 <= i < snap.len() && #[trigger] snap[i].0@ == p;
            if i < snap.len() - 1 {
                assert(snap.drop_last()[i].0@ == p);
            }
        }
    }
}

proof fn lemma_last_occurrence(snap: Seq<(String, String)>, i: int)
    requires
        0 <= i < snap.len(),
    ensures
        exists|k: int| 0 <= k < snap.len() && is_last(snap, k) && #[trigger] snap[k].0@ == snap[i].0@,
    decreases snap.len() - i,
{
    if is_last(snap, i) {
        assert(snap[i].0@ == snap[i].0@);
    } else {
        let j = choose|j: int| i < j < snap.len() && #[trigger] snap[j].0@ == snap[i].0@;
        lemma_last_occurrence(snap, j);
    }
}

proof fn lemma_restore_contains(snap: Seq<(String, String)>, k: int, p: Seq<char>)
    requires
        0 <= k <= snap.len(),
    ensures
        restore_paths(snap, k).contains(p) <==> exists|i: int|
            0 <= i < k && is_last(snap, i) && #[trigger] snap[i].0@ == p,
    decreases k,
{
    if k > 0 {
        lemma_restore_contains(snap, k - 1, p);
        let prev = restore_paths(snap, k - 1);
        if is_last(snap, k - 1) {
            let next = prev.push(snap[k - 1].0@);
            assert(restore_paths(snap, k) == next);
            if next.contains(p) {
                let m = choose|m: int| 0 <= m < next.len() && #[trigger] next[m] == p;
                if m < prev.len() {
                    assert(prev[m] == p);
                }
            }
            if exists|i: int| 0 <= i < k && is_last(snap, i) && #[trigger] snap[i].0@ == p {
                let i = choose|i: int| 0 <= i < k && is_last(snap, i) && #[trigger] snap[i].0@ == p;
                if i < k - 1 {
                    assert(prev.contains(p));
                    let m = choose|m: int| 0 <= m < prev.len() && #[trigger] prev[m] == p;
                    assert(next[m] == p);
                } else {
                    assert(next[prev.len() as int] == p);
                }
            }
        }
    }
}

proof fn lemma_remove_contains(snap: Seq<(String, String)>, cur: Seq<Seq<char>>, k: int, p: Seq<char>)
    requires
        0 <= k <= cur.len(),
    ensures
        remove_paths(snap, cur, k).contains(p) <==> (lookup(snap, p) is None && exists|j: int|
            0 <= j < k && #[trigger] cur[j] == p),
    decreases k,
{
    if k > 0 {
        lemma_remove_contains(snap, cur, k - 1, p);
        let prev = remove_paths(snap, cur, k - 1);
        if lookup(snap, cur[k - 1]) is None {
            let next = prev.push(cur[k - 1]);
            if next.contains(p) {
                let m = choose|m: int| 0 <= m < next.len() && #[trigger] next[m] == p;
                if m < prev.len() {
                    assert(prev[m] == p);
                } else {
                    assert(cur[k - 1] == p);
                }
            }
            if lookup(snap, p) is None && exists|j: int| 0 <= j < k && #[trigger] cur[j] == p {
                let j = choose|j: int| 0 <= j < k && #[trigger] cur[j] == p;
                if j < k - 1 {
                    assert(prev.contains(p));
                    let m = choose|m: int| 0 <= m < prev.len() && #[trigger] prev[m] == p;
                    assert(next[m] == p);
                } else {
                    assert(next[prev.len() as int] == p);
                }
            }
        } else {
            if lookup(snap, p) is None && exists|j: int| 0 <= j < k && #[trigger] cur[j] == p {
                let j = choose|j: int| 0 <= j < k && #[trigger] cur[j] == p;
                assert(j != k - 1);
            }
        }
    }
}

proof fn lemma_restore_distinct(snap: Seq<(String, String)>, k: int)
    requires
        0 <= k <= snap.len(),
    ensures
        restore_paths(snap, k).no_duplicates(),
    decreases k,
{
    if k > 0 {
        lemma_restore_distinct(snap, k - 1);
        if is_last(snap, k - 1) {
            let p = snap[k - 1].0@;
            lemma_restore_contains(snap, k - 1, p);
            if restore_paths(snap, k - 1).contains(p) {
                let i = choose|i: int| 0 <= i < k - 1 && is_last(snap, i) && #[trigger] snap[i].0@ == p;
                assert(snap[k - 1].0@ == snap[i].0@);
            }
            let prev = restore_paths(snap, k - 1);
            let next = prev.push(p);
            assert forall|a: int, b: int| 0 <= a < b < next.len() implies next[a] != next[b] by {
                if b == prev.len() {
                    assert(next[a] == prev[a]);
                    if next[a] == next[b] {
                        assert(prev.contains(p));
                    }
                } else {
                    assert(next[a] == prev[a] && next[b] == prev[b]);
                }
            }
        }
    }
}

/// A rollback restores each path of the snapshot exactly once: the paths it
/// restores are distinct, and they are the snapshot's paths.
pub proof fn rollback_restores_each_snapshot_path_once(snap: Seq<(String, String)>, p: Seq<char>)
    ensures
        restore_paths(snap, snap.len() as int).no_duplicates(),
        restore_paths(snap, snap.len() as int).contains(p) <==> lookup(snap, p) is Some,
{
    lemma_restore_distinct(snap, snap.len() as int);
    lemma_lookup_some(snap, p);
    lemma_restore_contains(snap, snap.len() as int, p);
    if lookup(snap, p) is Some {
        let i = choose|i: int| 0 <= i < snap.len() && #[trigger] snap[i].0@ == p;
        lemma_last_occurrence(snap, i);
    }
}

/// After a rollback the directory holds exactly the snapshot's files: a path
/// is there (restored, or kept because it was not deleted) if and only if
/// the snapshot has it.
pub proof fn rollback_restores_exactly_the_snapshot(snap: Seq<(String, String)>, cur: Seq<Seq<char>>, p: Seq<char>)
    ensures
        (restore_paths(snap, snap.len() as int).contains(p) || (cur.contains(p) && !remove_paths(
            snap,
            cur,
            cur.len() as int,
        ).contains(p))) <==> lookup(snap, p) is Some,
{
    lemma_lookup_some(snap, p);
    lemma_restore_contains(snap, snap.len() as int, p);
    lemma_remove_contains(snap, cur, cur.len() as int, p);
    if lookup(snap, p) is Some {
        let i = choose|i: int| 0 <= i < snap.len() && #[trigger] snap[i].0@ == p;
        lemma_last_occurrence(snap, i);
    }
    if cur.contains(p) {
        let j = choose|j: int| 0 <= j < cur.len() && #[trigger] cur[j] == p;
        assert(cur[j] == p);
    }
}

} // verus!
