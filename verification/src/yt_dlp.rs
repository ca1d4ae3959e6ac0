//! Where the managed yt-dlp lives, where it is downloaded from, and when it
//! is installed or due for a fresh download.

use vstd::prelude::*;

use crate::binaries::{classify_local_binary, components, local_binary, path_under, LocalBinary, LocalProbe};
use crate::llama::TargetPlatform;

verus! {

pub open spec fn yt_dlp_name(platform: TargetPlatform) -> Seq<char> {
    if platform == TargetPlatform::Windows {
        "yt-dlp.exe"@
    } else {
        "yt-dlp"@
    }
}

/// The yt-dlp binary name on `platform`.
pub fn yt_dlp_binary_name(platform: TargetPlatform) -> (s: &'static str)
    ensures
        s@ == yt_dlp_name(platform),
{
    match platform {
        TargetPlatform::Windows => "yt-dlp.exe",
        _ => "yt-dlp",
    }
}

pub open spec fn yt_dlp_url(platform: TargetPlatform) -> Seq<char> {
    match platform {
        TargetPlatform::Windows => "https://github.com/yt-dlp/yt-dlp/releases/latest/download/yt-dlp.exe"@,
        TargetPlatform::MacOsArm64 | TargetPlatform::MacOsX64 =>
            "https://github.com/yt-dlp/yt-dlp/releases/latest/download/yt-dlp_macos"@,
        _ => "https://github.com/yt-dlp/yt-dlp/releases/latest/download/yt-dlp_linux"@,
    }
}

/// The release asset of yt-dlp built for `platform`.
pub fn yt_dlp_download_url(platform: TargetPlatform) -> (s: &'static str)
    ensures
        s@ == yt_dlp_url(platform),
{
    match platform {
        TargetPlatform::Windows => "https://github.com/yt-dlp/yt-dlp/releases/latest/download/yt-dlp.exe",
        TargetPlatform::MacOsArm64 | TargetPlatform::MacOsX64 =>
            "https://github.com/yt-dlp/yt-dlp/releases/latest/download/yt-dlp_macos",
        _ => "https://github.com/yt-dlp/yt-dlp/releases/latest/download/yt-dlp_linux",
    }
}

/// The managed yt-dlp: `bin/<name>` under the app data directory.
pub fn get_yt_dlp_path(data_dir: &str, platform: TargetPlatform) -> (p: Vec<String>)
    ensures
        components(p@) == seq![data_dir@, "bin"@, yt_dlp_name(platform)],
{
    let name = yt_dlp_binary_name(platform);
    let rest: [&str; 2] = ["bin", name];
    let p = path_under(data_dir, rest.as_slice());
    assert(rest@.map_values(|s: &str| s@) =~= seq!["bin"@, yt_dlp_name(platform)]);
    assert(seq![data_dir@] + seq!["bin"@, yt_dlp_name(platform)] =~= seq![data_dir@, "bin"@, yt_dlp_name(platform)]);
    p
}

/// Only the managed copy counts: a system yt-dlp may be too old to extract.
pub fn is_installed(local: LocalProbe) -> (r: bool)
    ensures
        r == (local_binary(local) == LocalBinary::Usable),
{
    match classify_local_binary(local) {
        LocalBinary::Usable => true,
        _ => false,
    }
}

/// Seven days, in seconds: the age past which yt-dlp is downloaded again.
pub const UPDATE_INTERVAL_SECS: u64 = 604_800;

/// How old the managed yt-dlp is, as far as could be told.
#[derive(Debug, Clone, Copy, Eq, PartialEq, Structural)]
pub enum BinaryAge {
    /// No file at the path.
    Missing,
    /// The file is there but its modification time could not be read.
    Unknown,
    /// Whole seconds and the nanoseconds beyond them since it was written
    /// (zero when the clock stands before the file's time).
    Age { secs: u64, nanos: u32 },
}

pub open spec fn update_due(age: BinaryAge) -> bool {
    match age {
        BinaryAge::Missing => true,
        BinaryAge::Unknown => false,
        BinaryAge::Age { secs, nanos } => secs > UPDATE_INTERVAL_SECS || (secs == UPDATE_INTERVAL_SECS
            && nanos > 0),
    }
}

/// Whether yt-dlp should be downloaded: when missing, or older than seven days.
/// An unreadable modification time skips the update.
pub fn needs_download(age: BinaryAge) -> (r: bool)
    ensures
        r == update_due(age),
{
    match age {
        BinaryAge::Missing => true,
        BinaryAge::Unknown => false,
        BinaryAge::Age { secs, nanos } => secs > UPDATE_INTERVAL_SECS || (secs == UPDATE_INTERVAL_SECS
            && nanos > 0),
    }
}

} // verus!
