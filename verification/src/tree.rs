//! An in-memory model of a directory tree, and the recursive size of it.
//!
//! The walk and the size computation work on this model; the binary around the
//! library reads the real filesystem into it and hands the result here.

use vstd::prelude::*;
use crate::record::{PathInfo, PathInfoView, views_of};

verus! {

/// One entry of a directory: a regular file with its byte length, or a
/// subdirectory. Entries that are neither (symlinks, devices) are not
/// represented; the walk ignores them and the size of a tree counts only
/// regular files, so leaving them out loses nothing.
pub enum FsEntry {
    File { name: String, size: u64 },
    Dir(FsDir),
}

/// A directory: its base name, its absolute path, the modification time of
/// the directory's own metadata (seconds since the Unix epoch), and its
/// immediate entries.
pub struct FsDir {
    pub name: String,
    pub path: String,
    pub modified_secs: u64,
    pub entries: Vec<FsEntry>,
}

/// Total bytes of all regular files reachable from the entries `s`:
/// a file contributes its length, a directory the size of its own entries.
pub open spec fn entries_size(s: Seq<FsEntry>) -> nat
    decreases s,
{
    if s.len() == 0 {
        0
    } else {
        (match s[0] {
            FsEntry::File { size, .. } => size as nat,
            FsEntry::Dir(d) => entries_size(d.entries@),
        }) + entries_size(s.subrange(1, s.len() as int))
    }
}

/// Total bytes of all regular files transitively under the directory `d`.
pub open spec fn dir_size(d: FsDir) -> nat {
    entries_size(d.entries@)
}

/// The size of a tree is invariant under how the work is split: summing two
/// groups of entries separately and adding the partial sums gives the same
/// total as summing them together, whatever the split.
pub proof fn lemma_entries_size_concat(a: Seq<FsEntry>, b: Seq<FsEntry>)
    ensures
        entries_size(a + b) == entries_size(a) + entries_size(b),
    decreases a,
{
    if a.len() == 0 {
        assert(a + b =~= b);
    } else {
        assert((a + b)[0] == a[0]);
        assert((a + b).subrange(1, (a + b).len() as int) =~= a.subrange(1, a.len() as int) + b);
        lemma_entries_size_concat(a.subrange(1, a.len() as int), b);
    }
}

/// Computes the total size of all regular files under `d`, or `None` where
/// the total does not fit in a `u64`.
pub fn dir_size_checked(d: &FsDir) -> (r: Option<u64>)
    ensures
        r is Some <==> dir_size(*d) <= u64::MAX,
        r matches Some(v) ==> v == dir_size(*d),
    decreases *d,
{
    let ghost s = d.entries@;
    proof {
        assert(s.subrange(0, s.len() as int) =~= s);
    }
    let mut total: u64 = 0;
    let n = d.entries.len();
    let mut i: usize = 0;
    while i < n
        invariant
            0 <= i <= n,
            n == s.len(),
            s == d.entries@,
            total + entries_size(s.subrange(i as int, n as int)) == entries_size(s),
        decreases n - i,
    {
        proof {
            assert(s.subrange(i as int, n as int)[0] == s[i as int]);
            assert(s.subrange(i as int, n as int).subrange(
                1,
                s.subrange(i as int, n as int).len() as int,
            ) =~= s.subrange(i + 1, n as int));
        }
        let step: u64 = match &d.entries[i] {
            FsEntry::File { size, .. } => *size,
            FsEntry::Dir(c) => {
                match dir_size_checked(c) {
                    Some(v) => v,
                    None => {
                        return None;
                    },
                }
            },
        };
        total = match total.checked_add(step) {
            Some(t) => t,
            None => {
                return None;
            },
        };
        i = i + 1;
    }
    proof {
        assert(s.subrange(n as int, n as int) =~= Seq::<FsEntry>::empty());
    }
    Some(total)
}

/// The name of version-control metadata directories, always pruned.
pub open spec fn git_marker() -> Seq<char> {
    ".git"@
}

/// The name of a build-output directory that may be an artifact root.
pub open spec fn target_marker() -> Seq<char> {
    "target"@
}

/// The project-manifest filename whose presence beside a directory named
/// like the artifact marker confirms a genuine artifact root.
pub open spec fn manifest_name() -> Seq<char> {
    "Cargo.toml"@
}

/// Whether the entry is a regular file named like the project manifest.
pub open spec fn is_manifest_entry(e: FsEntry) -> bool {
    e matches FsEntry::File { name, .. } && name@ == manifest_name()
}

/// Whether some entry among `s` is the project manifest.
pub open spec fn has_manifest(s: Seq<FsEntry>) -> bool {
    exists|i: int| 0 <= i < s.len() && is_manifest_entry(#[trigger] s[i])
}

/// The record the walk emits for the artifact root `d`, owned by the
/// directory named `parent_name`.
pub open spec fn artifact_record(d: FsDir, parent_name: Seq<char>) -> PathInfoView {
    PathInfoView {
        path: d.path@,
        project: parent_name,
        last_modified_secs: d.modified_secs,
        size: dir_size(d),
    }
}

/// The records the walk emits under the directory `d`, in recursion order.
///
/// A directory named like the version-control marker is pruned without a
/// record. One named like the artifact marker whose parent holds the manifest
/// yields exactly one record and is not descended into. Any other directory
/// contributes the records of its subdirectories, each walked with this
/// directory as parent.
pub open spec fn walk_dir_spec(d: FsDir, parent_name: Seq<char>, parent_has_manifest: bool) -> Seq<
    PathInfoView,
>
    decreases d,
{
    if d.name@ == git_marker() {
        Seq::empty()
    } else if d.name@ == target_marker() && parent_has_manifest {
        seq![artifact_record(d, parent_name)]
    } else {
        walk_entries_spec(d.entries@, d.name@, has_manifest(d.entries@))
    }
}

/// The records of the subdirectories among the entries `s`, in order; files
/// contribute nothing at this level.
pub open spec fn walk_entries_spec(s: Seq<FsEntry>, parent_name: Seq<char>, parent_has_manifest: bool) -> Seq<
    PathInfoView,
>
    decreases s,
{
    if s.len() == 0 {
        Seq::empty()
    } else {
        (match s[0] {
            FsEntry::Dir(c) => walk_dir_spec(c, parent_name, parent_has_manifest),
            FsEntry::File { .. } => Seq::empty(),
        }) + walk_entries_spec(s.subrange(1, s.len() as int), parent_name, parent_has_manifest)
    }
}

/// Whether every record's size fits in a `u64`.
pub open spec fn records_fit(recs: Seq<PathInfoView>) -> bool {
    forall|i: int| 0 <= i < recs.len() ==> (#[trigger] recs[i]).size <= u64::MAX
}

proof fn lemma_fits_concat(a: Seq<PathInfoView>, b: Seq<PathInfoView>)
    ensures
        records_fit(a + b) <==> records_fit(a) && records_fit(b),
{
    assert forall|i: int| 0 <= i < a.len() implies a[i] == (a + b)[i] by {}
    assert forall|i: int| 0 <= i < b.len() implies b[i] == (a + b)[a.len() + i] by {}
    if records_fit(a) && records_fit(b) {
        assert forall|i: int| 0 <= i < (a + b).len() implies (#[trigger] (a + b)[i]).size
            <= u64::MAX by {
            if i < a.len() {
                assert((a + b)[i] == a[i]);
            } else {
                assert((a + b)[i] == b[i - a.len()]);
            }
        }
    }
}

/// The walk's decision for one visited directory.
pub enum DirStep {
    /// Version-control metadata: do not descend, emit nothing.
    Prune,
    /// A genuine artifact root: emit one record, do not descend.
    ArtifactRoot,
    /// Any other directory: descend into its subdirectories.
    Ordinary,
}

/// The per-directory decision of the walk, from the directory's base name
/// and whether its parent holds the manifest: exactly the branch
/// `walk_dir_spec` takes at that directory.
pub fn classify_dir(name: &String, parent_has_manifest: bool) -> (r: DirStep)
    ensures
        r is Prune <==> name@ == git_marker(),
        r is ArtifactRoot <==> name@ != git_marker() && name@ == target_marker()
            && parent_has_manifest,
        r is Ordinary <==> name@ != git_marker() && !(name@ == target_marker()
            && parent_has_manifest),
{
    let git = String::from_str(".git");
    if name.eq(&git) {
        return DirStep::Prune;
    }
    let target = String::from_str("target");
    if name.eq(&target) && parent_has_manifest {
        return DirStep::ArtifactRoot;
    }
    DirStep::Ordinary
}

/// Whether the entries `entries` hold the project manifest.
pub fn contains_manifest(entries: &Vec<FsEntry>) -> (r: bool)
    ensures
        r == has_manifest(entries@),
{
    let m = String::from_str("Cargo.toml");
    let n = entries.len();
    let mut i: usize = 0;
    while i < n
        invariant
            0 <= i <= n,
            n == entries@.len(),
            m@ == manifest_name(),
            forall|j: int| 0 <= j < i ==> !is_manifest_entry(#[trigger] entries@[j]),
        decreases n - i,
    {
        match &entries[i] {
            FsEntry::File { name, .. } => {
                if name.eq(&m) {
                    return true;
                }
            },
            FsEntry::Dir(_) => {},
        }
        i = i + 1;
    }
    false
}

/// Walks the directory `d` (whose parent is named `parent_name` and holds the
/// manifest iff `parent_has_manifest`) and returns the artifact-root records
/// found, in recursion order; `None` where some record's recursive size does
/// not fit in a `u64`.
pub fn walk_dir(d: &FsDir, parent_name: &String, parent_has_manifest: bool) -> (r: Option<
    Vec<PathInfo>,
>)
    ensures
        r is Some <==> records_fit(walk_dir_spec(*d, parent_name@, parent_has_manifest)),
        r matches Some(v) ==> views_of(v@) == walk_dir_spec(*d, parent_name@, parent_has_manifest),
    decreases *d,
{
    let ghost whole = walk_dir_spec(*d, parent_name@, parent_has_manifest);
    let git = String::from_str(".git");
    if d.name.eq(&git) {
        let out: Vec<PathInfo> = Vec::new();
        proof {
            assert(views_of(out@) =~= whole);
        }
        return Some(out);
    }
    let target = String::from_str("target");
    if d.name.eq(&target) && parent_has_manifest {
        match dir_size_checked(d) {
            Some(sz) => {
                let info = PathInfo {
                    path: d.path.clone(),
                    project: parent_name.clone(),
                    last_modified_secs: d.modified_secs,
                    size: sz,
                };
                let mut out: Vec<PathInfo> = Vec::new();
                out.push(info);
                proof {
                    assert(views_of(out@) =~= whole);
                }
                return Some(out);
            },
            None => {
                proof {
                    assert(whole[0].size > u64::MAX);
                }
                return None;
            },
        }
    }
    let pm = contains_manifest(&d.entries);
    let ghost s = d.entries@;
    proof {
        assert(s.subrange(0, s.len() as int) =~= s);
        assert(whole == walk_entries_spec(s, d.name@, has_manifest(s)));
    }
    let mut out: Vec<PathInfo> = Vec::new();
    let n = d.entries.len();
    let mut i: usize = 0;
    while i < n
        invariant
            0 <= i <= n,
            n == s.len(),
            s == d.entries@,
            pm == has_manifest(s),
            whole == walk_dir_spec(*d, parent_name@, parent_has_manifest),
            whole == walk_entries_spec(s, d.name@, pm),
            views_of(out@) + walk_entries_spec(s.subrange(i as int, n as int), d.name@, pm)
                == whole,
        decreases n - i,
    {
        let ghost suffix = s.subrange(i as int, n as int);
        proof {
            assert(suffix[0] == s[i as int]);
            assert(suffix.subrange(1, suffix.len() as int) =~= s.subrange(i + 1, n as int));
        }
        match &d.entries[i] {
            FsEntry::File { .. } => {
                proof {
                    assert(Seq::<PathInfoView>::empty() + walk_entries_spec(
                        s.subrange(i + 1, n as int),
                        d.name@,
                        pm,
                    ) =~= walk_entries_spec(s.subrange(i + 1, n as int), d.name@, pm));
                }
            },
            FsEntry::Dir(c) => {
                let ghost sub = walk_dir_spec(*c, d.name@, pm);
                let ghost rest = walk_entries_spec(s.subrange(i + 1, n as int), d.name@, pm);
                proof {
                    assert(walk_entries_spec(suffix, d.name@, pm) == sub + rest);
                    lemma_fits_concat(views_of(out@), sub + rest);
                    lemma_fits_concat(sub, rest);
                }
                match walk_dir(c, &d.name, pm) {
                    Some(mut v) => {
                        proof {
                            assert(views_of(out@ + v@) =~= views_of(out@) + views_of(v@));
                        }
                        out.append(&mut v);
                    },
                    None => {
                        return None;
                    },
                }
            },
        }
        i = i + 1;
    }
    proof {
        assert(s.subrange(n as int, n as int) =~= Seq::<FsEntry>::empty());
        assert(views_of(out@) + Seq::<PathInfoView>::empty() =~= views_of(out@));
        assert forall|k: int| 0 <= k < views_of(out@).len() implies (#[trigger] views_of(out@)[k]).size
            <= u64::MAX by {
            assert(views_of(out@)[k] == out@[k]@);
        }
    }
    Some(out)
}

/// A directory named like the artifact marker is an artifact root exactly
/// when the manifest stands beside it: with the manifest the walk emits one
/// record for it and does not descend; without it the walk treats the
/// directory as ordinary and descends into its subdirectories.
pub proof fn lemma_artifact_root_iff(d: FsDir, parent_name: Seq<char>, parent_has_manifest: bool)
    requires
        d.name@ == target_marker(),
    ensures
        parent_has_manifest ==> walk_dir_spec(d, parent_name, parent_has_manifest) == seq![
            artifact_record(d, parent_name),
        ],
        !parent_has_manifest ==> walk_dir_spec(d, parent_name, parent_has_manifest)
            == walk_entries_spec(d.entries@, d.name@, has_manifest(d.entries@)),
{
    reveal_strlit(".git");
    reveal_strlit("target");
    assert(git_marker().len() == 4);
    assert(target_marker().len() == 6);
}

/// A directory named like the version-control marker is pruned whole: no
/// record is emitted from it or from anything beneath it.
pub proof fn lemma_version_control_pruned(
    d: FsDir,
    parent_name: Seq<char>,
    parent_has_manifest: bool,
)
    requires
        d.name@ == git_marker(),
    ensures
        walk_dir_spec(d, parent_name, parent_has_manifest) == Seq::<PathInfoView>::empty(),
{
}

} // verus!
