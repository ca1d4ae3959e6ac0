//! What a look at a managed binary on disk found, and what that means.
//!
//! Paths are returned as their components, the app data directory first;
//! joined in order they give the path on the machine.

use vstd::prelude::*;

verus! {

/// What was found at a managed binary's path.
#[derive(Debug, Clone, Copy, Eq, PartialEq, Structural)]
pub enum LocalProbe {
    /// Nothing at the path.
    Missing,
    /// Something is there, but its metadata could not be read.
    NoMetadata,
    /// A file of this many bytes.
    Size(u64),
}

/// The verdict on a managed binary.
#[derive(Debug, Clone, Copy, Eq, PartialEq, Structural)]
pub enum LocalBinary {
    /// Large enough to be a real download: use it.
    Usable,
    /// Too small to be a real download: delete it.
    Corrupt,
    /// Not there, or unreadable: look elsewhere.
    Absent,
}

/// Smallest size, in bytes, a managed binary must exceed to be trusted.
pub const MIN_BINARY_BYTES: u64 = 1_000_000;

pub open spec fn local_binary(probe: LocalProbe) -> LocalBinary {
    match probe {
        LocalProbe::Size(n) => if n > MIN_BINARY_BYTES {
            LocalBinary::Usable
        } else {
            LocalBinary::Corrupt
        },
        _ => LocalBinary::Absent,
    }
}

/// Judges a managed binary by what was found at its path: a file over a
/// megabyte is usable, a smaller one is a broken download.
pub fn classify_local_binary(probe: LocalProbe) -> (r: LocalBinary)
    ensures
        r == local_binary(probe),
{
    match probe {
        LocalProbe::Size(n) => if n > MIN_BINARY_BYTES {
            LocalBinary::Usable
        } else {
            LocalBinary::Corrupt
        },
        _ => LocalBinary::Absent,
    }
}

/// Which copy of a tool to run.
#[derive(Debug, Clone, Copy, PartialEq, Eq, Structural)]
pub enum BinaryLocation {
    /// The managed copy under the app data directory.
    Managed,
    /// The one found on the PATH.
    OnPath,
}

/// The copy to run: the managed one when it is usable, else the one on the
/// PATH, if there is one.
pub open spec fn binary_location(local: LocalProbe, on_path: bool) -> Option<BinaryLocation> {
    if local_binary(local) == LocalBinary::Usable {
        Some(BinaryLocation::Managed)
    } else if on_path {
        Some(BinaryLocation::OnPath)
    } else {
        None
    }
}

/// Picks the copy to run from what was found of the managed one and whether
/// one is on the PATH.
pub fn locate_binary(local: LocalProbe, on_path: bool) -> (r: Option<BinaryLocation>)
    ensures
        r == binary_location(local, on_path),
{
    match classify_local_binary(local) {
        LocalBinary::Usable => Some(BinaryLocation::Managed),
        _ => if on_path {
            Some(BinaryLocation::OnPath)
        } else {
            None
        },
    }
}

/// The characters of each path component.
pub open spec fn components(v: Seq<String>) -> Seq<Seq<char>> {
    v.map_values(|s: String| s@)
}

/// The path made of `base` followed by `rest`.
pub fn path_under(base: &str, rest: &[&str]) -> (p: Vec<String>)
    ensures
        components(p@) == seq![base@] + rest@.map_values(|s: &str| s@),
{
    let mut p: Vec<String> = Vec::new();
    p.push(base.to_string());
    let mut i: usize = 0;
    while i < rest.len()
        invariant
            i <= rest@.len(),
            components(p@) == seq![base@] + rest@.subrange(0, i as int).map_values(|s: &str| s@),
        decreases rest@.len() - i,
    {
        let ghost before = p@;
        p.push(rest[i].to_string());
        assert(rest@.subrange(0, i + 1) =~= rest@.subrange(0, i as int).push(rest@[i as int]));
        assert(components(p@) =~= components(before).push(rest@[i as int]@));
        assert(seq![base@] + rest@.subrange(0, i + 1).map_values(|s: &str| s@) =~= (seq![base@]
            + rest@.subrange(0, i as int).map_values(|s: &str| s@)).push(rest@[i as int]@));
        i = i + 1;
    }
    assert(rest@.subrange(0, rest@.len() as int) =~= rest@);
    p
}

} // verus!
