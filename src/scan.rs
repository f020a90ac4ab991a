//! Project discovery over a bounded, pruned directory walk.
//!
//! The host walks the filesystem and describes each entry it visits as a
//! `WalkEntry`: the entry's path below the scan root, split into components,
//! and, for a manifest, what it found next to it. Everything decided about
//! those entries is decided here.
use vstd::prelude::*;
use vstd::string::*;
use crate::text::{same_text, text_seq};

verus! {

/// Deepest level below the scan root that the walk visits.
pub const MAX_DEPTH: usize = 5;

/// The walk neither yields nor enters an entry whose basename is hidden
/// (starts with a dot) or is a dependency tree.
pub open spec fn pruned(name: Seq<char>) -> bool {
    (name.len() > 0 && name[0] == '.') || name == "node_modules"@
}

/// The basename that marks a project root.
pub open spec fn manifest_name(name: Seq<char>) -> bool {
    name == "package.json"@
}

/// An entry, given by its path components below the scan root, is visited:
/// it lies at depth 1 to `MAX_DEPTH` and no component on its path is pruned.
pub open spec fn visited(components: Seq<Seq<char>>) -> bool {
    &&& 1 <= components.len() <= MAX_DEPTH
    &&& forall|j: int| 0 <= j < components.len() ==> !#[trigger] pruned(components[j])
}

/// A visited entry that is a project manifest.
pub open spec fn manifest_entry(components: Seq<Seq<char>>) -> bool {
    visited(components) && manifest_name(components.last())
}

/// Whether the walk prunes an entry with this basename.
pub fn is_pruned_name(name: &str) -> (r: bool)
    ensures
        r == pruned(name@),
{
    let hidden = name.unicode_len() > 0 && name.get_char(0) == '.';
    hidden || same_text(name, "node_modules")
}

/// Whether a basename is the project manifest `package.json`.
pub fn is_manifest_name(name: &str) -> (r: bool)
    ensures
        r == manifest_name(name@),
{
    same_text(name, "package.json")
}

/// Whether an entry with these path components below the scan root is a
/// manifest that the walk reaches.
pub fn is_project_manifest(components: &Vec<String>) -> (r: bool)
    ensures
        r == manifest_entry(text_seq(components@)),
{
    let ghost cs = text_seq(components@);
    let n = components.len();
    if n < 1 || n > MAX_DEPTH {
        return false;
    }
    let mut i: usize = 0;
    while i < n
        invariant
            n == components.len(),
            cs == text_seq(components@),
            0 <= i <= n,
            forall|j: int| 0 <= j < i ==> !#[trigger] pruned(cs[j]),
        decreases n - i,
    {
        if is_pruned_name(components[i].as_str()) {
            assert(cs[i as int] == components@[i as int]@);
            return false;
        }
        i += 1;
    }
    assert(cs.last() == components@[n - 1]@);
    is_manifest_name(components[n - 1].as_str())
}

/// One entry met while measuring an artifact directory: whether it is a
/// regular file, and its length in bytes.
#[derive(Clone, Copy, Debug, PartialEq, Eq)]
pub struct FileStat {
    pub is_file: bool,
    pub len: u64,
}

/// Bytes held by the regular files among `entries`; other entries count zero.
pub open spec fn file_bytes(entries: Seq<FileStat>) -> int
    decreases entries.len(),
{
    if entries.len() == 0 {
        0
    } else {
        file_bytes(entries.drop_last()) + if entries.last().is_file {
            entries.last().len as int
        } else {
            0
        }
    }
}

pub proof fn lemma_file_bytes_nonneg(entries: Seq<FileStat>)
    ensures
        file_bytes(entries) >= 0,
    decreases entries.len(),
{
    if entries.len() > 0 {
        lemma_file_bytes_nonneg(entries.drop_last());
    }
}

/// A byte count as a `u64`, held at `u64::MAX` past it.
pub open spec fn saturate(x: int) -> u64 {
    if x >= u64::MAX {
        u64::MAX
    } else {
        x as u64
    }
}

/// Total size of the regular files met while walking one directory.
pub fn get_directory_size(entries: &Vec<FileStat>) -> (r: u64)
    ensures
        r == saturate(file_bytes(entries@)),
{
    let mut total: u64 = 0;
    let mut i: usize = 0;
    while i < entries.len()
        invariant
            0 <= i <= entries.len(),
            total == saturate(file_bytes(entries@.subrange(0, i as int))),
        decreases entries.len() - i,
    {
        let e = entries[i];
        if e.is_file {
            total = total.saturating_add(e.len);
        }
        proof {
            let next = entries@.subrange(0, i + 1);
            assert(next.drop_last() =~= entries@.subrange(0, i as int));
            assert(next.last() == e);
            lemma_file_bytes_nonneg(entries@.subrange(0, i as int));
        }
        i += 1;
    }
    proof {
        assert(entries@.subrange(0, entries.len() as int) =~= entries@);
    }
    total
}

/// The artifact directory basenames, in the order a project is probed.
pub open spec fn artifact_names() -> Seq<Seq<char>> {
    seq![
        "node_modules"@,
        "dist"@,
        "build"@,
        ".next"@,
        "out"@,
        ".cache"@,
        ".parcel-cache"@,
        ".webpack"@,
    ]
}

/// The artifact directory basenames, in probing order; the first one,
/// `node_modules`, also dates the project.
pub fn artifact_kinds() -> (r: Vec<String>)
    ensures
        text_seq(r@) == artifact_names(),
{
    let mut r: Vec<String> = Vec::new();
    r.push(String::from_str("node_modules"));
    r.push(String::from_str("dist"));
    r.push(String::from_str("build"));
    r.push(String::from_str(".next"));
    r.push(String::from_str("out"));
    r.push(String::from_str(".cache"));
    r.push(String::from_str(".parcel-cache"));
    r.push(String::from_str(".webpack"));
    assert(text_seq(r@) =~= artifact_names());
    r
}

/// A discovered project: its root, the time its `node_modules` was last
/// modified (seconds since the Unix epoch), and the bytes held by its
/// artifact directories.
#[derive(Clone, Debug, PartialEq, Eq)]
pub struct ProjectInfo {
    pub path: String,
    pub last_modified: u64,
    pub size: u64,
}

pub struct ProjectView {
    pub path: Seq<char>,
    pub last_modified: u64,
    pub size: u64,
}

impl View for ProjectInfo {
    type V = ProjectView;

    open spec fn view(&self) -> ProjectView {
        ProjectView { path: self.path@, last_modified: self.last_modified, size: self.size }
    }
}

/// Bytes held by the artifact directories found; `None` stands for one that
/// is absent.
pub open spec fn present_bytes(artifacts: Seq<Option<u64>>) -> int
    decreases artifacts.len(),
{
    if artifacts.len() == 0 {
        0
    } else {
        present_bytes(artifacts.drop_last()) + match artifacts.last() {
            Some(n) => n as int,
            None => 0,
        }
    }
}

pub open spec fn any_present(artifacts: Seq<Option<u64>>) -> bool {
    exists|i: int| 0 <= i < artifacts.len() && #[trigger] artifacts[i] is Some
}

/// The descriptor of a project root `dir`, given the size of each artifact
/// directory found there and the modification time of its `node_modules`.
/// A project with no artifact directory, or whose `node_modules` cannot be
/// dated, is not reported.
pub open spec fn project_model(
    dir: Seq<char>,
    artifacts: Seq<Option<u64>>,
    node_modules_mtime: Option<u64>,
) -> Option<ProjectView> {
    if any_present(artifacts) && node_modules_mtime is Some {
        Some(
            ProjectView {
                path: dir,
                last_modified: node_modules_mtime->0,
                size: saturate(present_bytes(artifacts)),
            },
        )
    } else {
        None
    }
}

pub open spec fn project_opt_view(p: Option<ProjectInfo>) -> Option<ProjectView> {
    match p {
        Some(info) => Some(info@),
        None => None,
    }
}

/// The descriptor of the project rooted at `project_dir`. `artifacts` holds,
/// for each artifact directory probed, its size when it exists; the
/// modification time is that of `node_modules`, `None` where it is missing,
/// unreadable or before the epoch.
pub fn get_project_info(
    project_dir: String,
    artifacts: &Vec<Option<u64>>,
    node_modules_mtime: Option<u64>,
) -> (r: Option<ProjectInfo>)
    ensures
        project_opt_view(r) == project_model(project_dir@, artifacts@, node_modules_mtime),
{
    let mut total: u64 = 0;
    let mut found = false;
    let mut i: usize = 0;
    while i < artifacts.len()
        invariant
            0 <= i <= artifacts.len(),
            total == saturate(present_bytes(artifacts@.subrange(0, i as int))),
            found == any_present(artifacts@.subrange(0, i as int)),
        decreases artifacts.len() - i,
    {
        let ghost prefix = artifacts@.subrange(0, i as int);
        let ghost next = artifacts@.subrange(0, i + 1);
        proof {
            assert(next.drop_last() =~= prefix);
            assert(next.last() == artifacts@[i as int]);
            lemma_present_bytes_nonneg(prefix);
            if found {
                let k = choose|k: int| 0 <= k < prefix.len() && #[trigger] prefix[k] is Some;
                assert(next[k] is Some);
            }
            if any_present(next) {
                let k = choose|k: int| 0 <= k < next.len() && #[trigger] next[k] is Some;
                if k < i {
                    assert(prefix[k] is Some);
                }
            }
        }
        match artifacts[i] {
            Some(n) => {
                assert(next[i as int] is Some);
                total = total.saturating_add(n);
                found = true;
            },
            None => {},
        }
        i += 1;
    }
    assert(artifacts@.subrange(0, artifacts.len() as int) =~= artifacts@);
    if !found {
        return None;
    }
    match node_modules_mtime {
        Some(t) => Some(ProjectInfo { path: project_dir, last_modified: t, size: total }),
        None => None,
    }
}

pub proof fn lemma_present_bytes_nonneg(artifacts: Seq<Option<u64>>)
    ensures
        present_bytes(artifacts) >= 0,
    decreases artifacts.len(),
{
    if artifacts.len() > 0 {
        lemma_present_bytes_nonneg(artifacts.drop_last());
    }
}

/// One entry yielded by the walk below the scan root. `components` is its
/// path below the root. For a manifest, `project_dir` is the directory that
/// holds it, and `artifacts` and `node_modules_mtime` are what was found
/// there, as `get_project_info` takes them; for other entries they are not
/// read.
#[derive(Debug, PartialEq, Eq)]
pub struct WalkEntry {
    pub components: Vec<String>,
    pub project_dir: String,
    pub artifacts: Vec<Option<u64>>,
    pub node_modules_mtime: Option<u64>,
}

pub struct WalkEntryView {
    pub components: Seq<Seq<char>>,
    pub project_dir: Seq<char>,
    pub artifacts: Seq<Option<u64>>,
    pub node_modules_mtime: Option<u64>,
}

impl View for WalkEntry {
    type V = WalkEntryView;

    open spec fn view(&self) -> WalkEntryView {
        WalkEntryView {
            components: text_seq(self.components@),
            project_dir: self.project_dir@,
            artifacts: self.artifacts@,
            node_modules_mtime: self.node_modules_mtime,
        }
    }
}

/// The descriptor that one walk entry contributes, if any.
pub open spec fn entry_project(e: WalkEntryView) -> Option<ProjectView> {
    if manifest_entry(e.components) {
        project_model(e.project_dir, e.artifacts, e.node_modules_mtime)
    } else {
        None
    }
}

/// The descriptors of a walk, in the order their manifests were met.
pub open spec fn scan_model(entries: Seq<WalkEntryView>) -> Seq<ProjectView>
    decreases entries.len(),
{
    if entries.len() == 0 {
        Seq::empty()
    } else {
        let rest = scan_model(entries.drop_last());
        match entry_project(entries.last()) {
            Some(p) => rest.push(p),
            None => rest,
        }
    }
}

pub open spec fn walk_view(entries: Seq<WalkEntry>) -> Seq<WalkEntryView> {
    entries.map_values(|e: WalkEntry| e@)
}

pub open spec fn projects_view(projects: Seq<ProjectInfo>) -> Seq<ProjectView> {
    projects.map_values(|p: ProjectInfo| p@)
}

/// The projects found by a walk, in walk order.
pub fn scan_for_projects(entries: &Vec<WalkEntry>) -> (r: Vec<ProjectInfo>)
    ensures
        projects_view(r@) == scan_model(walk_view(entries@)),
{
    let ghost all = walk_view(entries@);
    let mut r: Vec<ProjectInfo> = Vec::new();
    let mut i: usize = 0;
    while i < entries.len()
        invariant
            0 <= i <= entries.len(),
            all == walk_view(entries@),
            projects_view(r@) == scan_model(all.subrange(0, i as int)),
        decreases entries.len() - i,
    {
        let ghost next = all.subrange(0, i + 1);
        proof {
            assert(next.drop_last() =~= all.subrange(0, i as int));
            assert(next.last() == entries@[i as int]@);
        }
        let e = &entries[i];
        if is_project_manifest(&e.components) {
            let found = get_project_info(e.project_dir.clone(), &e.artifacts, e.node_modules_mtime);
            match found {
                Some(p) => {
                    let ghost before = r@;
                    r.push(p);
                    proof {
                        assert(projects_view(r@) =~= projects_view(before).push(p@));
                    }
                },
                None => {},
            }
        }
        i += 1;
    }
    proof {
        assert(all.subrange(0, entries.len() as int) =~= all);
    }
    r
}

/// The descriptors of two walks run one after the other are those of each,
/// in turn.
pub proof fn lemma_scan_concat(a: Seq<WalkEntryView>, b: Seq<WalkEntryView>)
    ensures
        scan_model(a + b) == scan_model(a) + scan_model(b),
    decreases b.len(),
{
    if b.len() == 0 {
        assert(a + b =~= a);
        assert(scan_model(a) + scan_model(b) =~= scan_model(a));
    } else {
        lemma_scan_concat(a, b.drop_last());
        assert((a + b).drop_last() =~= a + b.drop_last());
        assert((a + b).last() == b.last());
        match entry_project(b.last()) {
            Some(p) => {
                assert(scan_model(a) + scan_model(b) =~= (scan_model(a) + scan_model(
                    b.drop_last(),
                )).push(p));
            },
            None => {},
        }
    }
}

/// An entry that contributes no descriptor can be left out of the walk
/// without changing the result.
pub proof fn lemma_silent_entry(entries: Seq<WalkEntryView>, i: int)
    requires
        0 <= i < entries.len(),
        entry_project(entries[i]) is None,
    ensures
        scan_model(entries.remove(i)) == scan_model(entries),
{
    let a = entries.subrange(0, i);
    let b = entries.subrange(i + 1, entries.len() as int);
    let one = seq![entries[i]];
    assert(entries.remove(i) =~= a + b);
    assert(entries =~= (a + one) + b);
    lemma_scan_concat(a, b);
    lemma_scan_concat(a + one, b);
    lemma_scan_concat(a, one);
    assert(one.drop_last() =~= Seq::<WalkEntryView>::empty());
    assert(scan_model(one.drop_last()) =~= Seq::<ProjectView>::empty());
    assert(one.last() == entries[i]);
    assert(scan_model(one) =~= Seq::<ProjectView>::empty());
    assert(scan_model(a) + scan_model(one) =~= scan_model(a));
}

/// Depth bound: a manifest deeper than `MAX_DEPTH` below the scan root
/// contributes nothing to the scan.
pub proof fn law_depth_bound(entries: Seq<WalkEntryView>, i: int)
    requires
        0 <= i < entries.len(),
        entries[i].components.len() > MAX_DEPTH,
    ensures
        scan_model(entries.remove(i)) == scan_model(entries),
{
    lemma_silent_entry(entries, i);
}

/// Pruning: an entry with a hidden or `node_modules` component anywhere on
/// its path, such as a project root under a hidden or dependency directory,
/// contributes nothing to the scan.
pub proof fn law_pruned_path(entries: Seq<WalkEntryView>, i: int, j: int)
    requires
        0 <= i < entries.len(),
        0 <= j < entries[i].components.len(),
        pruned(entries[i].components[j]),
    ensures
        scan_model(entries.remove(i)) == scan_model(entries),
{
    lemma_silent_entry(entries, i);
}

/// Witness gating: a project whose `node_modules` cannot be dated
/// contributes nothing to the scan, whatever other artifacts it holds.
pub proof fn law_witness_gating(entries: Seq<WalkEntryView>, i: int)
    requires
        0 <= i < entries.len(),
        entries[i].node_modules_mtime is None,
    ensures
        scan_model(entries.remove(i)) == scan_model(entries),
{
    lemma_silent_entry(entries, i);
}

/// The size that measuring each listed directory gives; `None` for a
/// directory that is absent.
pub open spec fn measured(listings: Seq<Option<Seq<FileStat>>>) -> Seq<Option<u64>> {
    listings.map_values(
        |l: Option<Seq<FileStat>>|
            match l {
                Some(entries) => Some(saturate(file_bytes(entries))),
                None => None,
            },
    )
}

/// Bytes of the regular files under all listed directories together.
pub open spec fn listed_bytes(listings: Seq<Option<Seq<FileStat>>>) -> int
    decreases listings.len(),
{
    if listings.len() == 0 {
        0
    } else {
        listed_bytes(listings.drop_last()) + match listings.last() {
            Some(entries) => file_bytes(entries),
            None => 0,
        }
    }
}

/// Size additivity: where each artifact directory's size is measured by
/// `get_directory_size`, a reported project's size is the number of bytes in
/// regular files under all of its artifact directories, as long as that
/// number fits in a `u64`.
pub proof fn law_size_additivity(
    dir: Seq<char>,
    listings: Seq<Option<Seq<FileStat>>>,
    node_modules_mtime: Option<u64>,
)
    requires
        listed_bytes(listings) <= u64::MAX,
    ensures
        project_model(dir, measured(listings), node_modules_mtime) matches Some(p) ==> p.size
            == listed_bytes(listings),
{
    lemma_measured_bytes(listings);
}

proof fn lemma_measured_bytes(listings: Seq<Option<Seq<FileStat>>>)
    requires
        listed_bytes(listings) <= u64::MAX,
    ensures
        present_bytes(measured(listings)) == listed_bytes(listings),
        listed_bytes(listings) >= 0,
    decreases listings.len(),
{
    if listings.len() > 0 {
        let init = listings.drop_last();
        assert(measured(listings).drop_last() =~= measured(init));
        match listings.last() {
            Some(entries) => lemma_file_bytes_nonneg(entries),
            None => {},
        }
        lemma_listed_bytes_nonneg(init);
        lemma_measured_bytes(init);
    }
}

proof fn lemma_listed_bytes_nonneg(listings: Seq<Option<Seq<FileStat>>>)
    ensures
        listed_bytes(listings) >= 0,
    decreases listings.len(),
{
    if listings.len() > 0 {
        match listings.last() {
            Some(entries) => lemma_file_bytes_nonneg(entries),
            None => {},
        }
        lemma_listed_bytes_nonneg(listings.drop_last());
    }
}

} // verus!
