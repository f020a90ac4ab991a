//! Storage roots a user may choose to scan.
//!
//! Which locations are candidates depends on the host platform; the host
//! checks each candidate on disk and `select_drives` keeps those that are
//! usable, in order.
use vstd::prelude::*;
use vstd::string::*;

verus! {

/// The kind of host the library runs on.
#[derive(Clone, Copy, Debug, PartialEq, Eq)]
pub enum HostPlatform {
    Windows,
    MacOs,
    Linux,
    Other,
}

/// Where the candidate storage roots of a platform come from.
#[derive(Clone, Debug, PartialEq, Eq)]
pub enum RootSource {
    /// The roots `A:\` to `Z:\` that exist.
    DriveLetters,
    /// The directories directly inside this one.
    MountDirectory(String),
    /// The platform has no recognised storage roots.
    Unsupported,
}

pub open spec fn mount_directory(platform: HostPlatform) -> Option<Seq<char>> {
    match platform {
        HostPlatform::MacOs => Some("/Volumes"@),
        HostPlatform::Linux => Some("/media"@),
        _ => None,
    }
}

/// Where to look for storage roots on `platform`.
pub fn root_source(platform: HostPlatform) -> (r: RootSource)
    ensures
        platform is Windows <==> r is DriveLetters,
        mount_directory(platform) is Some <==> r is MountDirectory,
        r matches RootSource::MountDirectory(dir) ==> dir@ == mount_directory(platform)->0,
{
    match platform {
        HostPlatform::Windows => RootSource::DriveLetters,
        HostPlatform::MacOs => RootSource::MountDirectory(String::from_str("/Volumes")),
        HostPlatform::Linux => RootSource::MountDirectory(String::from_str("/media")),
        HostPlatform::Other => RootSource::Unsupported,
    }
}

pub open spec fn drive_letters() -> Seq<char> {
    "ABCDEFGHIJKLMNOPQRSTUVWXYZ"@
}

/// The root of the drive with the `i`-th letter, such as `C:\`.
pub open spec fn drive_root(i: int) -> Seq<char> {
    seq![drive_letters()[i], ':', '\\']
}

/// The roots `A:\` through `Z:\`, in letter order.
pub fn windows_drive_roots() -> (r: Vec<String>)
    ensures
        r@.len() == 26,
        forall|i: int| 0 <= i < 26 ==> #[trigger] r@[i]@ == drive_root(i),
{
    let letters = "ABCDEFGHIJKLMNOPQRSTUVWXYZ";
    proof {
        reveal_strlit("ABCDEFGHIJKLMNOPQRSTUVWXYZ");
        reveal_strlit(":\\");
    }
    let mut r: Vec<String> = Vec::new();
    let mut i: usize = 0;
    while i < 26
        invariant
            letters@ == drive_letters(),
            letters@.len() == 26,
            ":\\"@ == seq![':', '\\'],
            0 <= i <= 26,
            r@.len() == i,
            forall|j: int| 0 <= j < i ==> #[trigger] r@[j]@ == drive_root(j),
        decreases 26 - i,
    {
        let letter = letters.substring_char(i, i + 1);
        let root = String::from_str(letter).concat(":\\");
        assert(root@ =~= drive_root(i as int));
        r.push(root);
        i += 1;
    }
    r
}

/// A storage root offered to the user: where it is, and what to call it.
#[derive(Clone, Debug, PartialEq, Eq)]
pub struct DriveInfo {
    pub path: String,
    pub name: String,
}

/// A candidate storage root, and whether the host found it usable (an
/// existing drive, or a directory).
#[derive(Debug, PartialEq, Eq)]
pub struct RootCandidate {
    pub path: String,
    pub name: String,
    pub usable: bool,
}

pub struct DriveView {
    pub path: Seq<char>,
    pub name: Seq<char>,
}

impl View for DriveInfo {
    type V = DriveView;

    open spec fn view(&self) -> DriveView {
        DriveView { path: self.path@, name: self.name@ }
    }
}

/// The usable candidates, in order.
pub open spec fn usable_roots(candidates: Seq<RootCandidate>) -> Seq<DriveView>
    decreases candidates.len(),
{
    if candidates.len() == 0 {
        Seq::empty()
    } else {
        let rest = usable_roots(candidates.drop_last());
        let c = candidates.last();
        if c.usable {
            rest.push(DriveView { path: c.path@, name: c.name@ })
        } else {
            rest
        }
    }
}

/// The storage roots to offer: the usable candidates, in order.
pub fn select_drives(candidates: &Vec<RootCandidate>) -> (r: Vec<DriveInfo>)
    ensures
        r@.map_values(|d: DriveInfo| d@) == usable_roots(candidates@),
{
    let ghost all = candidates@;
    let mut r: Vec<DriveInfo> = Vec::new();
    let mut i: usize = 0;
    while i < candidates.len()
        invariant
            all == candidates@,
            0 <= i <= all.len(),
            r@.map_values(|d: DriveInfo| d@) == usable_roots(all.subrange(0, i as int)),
        decreases all.len() - i,
    {
        let c = &candidates[i];
        let ghost next = all.subrange(0, i + 1);
        proof {
            assert(next.drop_last() =~= all.subrange(0, i as int));
            assert(next.last() == *c);
        }
        if c.usable {
            let ghost before = r@;
            r.push(DriveInfo { path: c.path.clone(), name: c.name.clone() });
            proof {
                assert(r@.map_values(|d: DriveInfo| d@) =~= before.map_values(|d: DriveInfo| d@).push(
                    DriveView { path: c.path@, name: c.name@ },
                ));
            }
        }
        i += 1;
    }
    proof {
        assert(all.subrange(0, i as int) =~= all);
    }
    r
}

} // verus!
