//! Where the managed ffmpeg lives, where it is downloaded from, and when it
//! counts as installed.

use vstd::prelude::*;

use crate::binaries::{
    binary_location, components, local_binary, locate_binary, path_under, BinaryLocation, LocalBinary, LocalProbe,
};
use crate::llama::TargetPlatform;
use crate::text::{contains_str, contains_text, str_eq};
use crate::yt_download::{ends_with, text_ends_with};

verus! {

pub open spec fn ffmpeg_name(platform: TargetPlatform) -> Seq<char> {
    if platform == TargetPlatform::Windows {
        "ffmpeg.exe"@
    } else {
        "ffmpeg"@
    }
}

/// The ffmpeg binary name on `platform`.
pub fn ffmpeg_binary_name(platform: TargetPlatform) -> (s: &'static str)
    ensures
        s@ == ffmpeg_name(platform),
{
    match platform {
        TargetPlatform::Windows => "ffmpeg.exe",
        _ => "ffmpeg",
    }
}

pub open spec fn ffmpeg_url(platform: TargetPlatform) -> Seq<char> {
    match platform {
        TargetPlatform::Windows =>
            "https://github.com/yt-dlp/FFmpeg-Builds/releases/latest/download/ffmpeg-master-latest-win64-gpl.zip"@,
        TargetPlatform::MacOsArm64 | TargetPlatform::MacOsX64 =>
            "https://evermeet.cx/ffmpeg/getrelease/ffmpeg/zip"@,
        _ =>
            "https://github.com/yt-dlp/FFmpeg-Builds/releases/latest/download/ffmpeg-master-latest-linux64-gpl.tar.xz"@,
    }
}

/// Where ffmpeg is downloaded from on `platform`: a zip on Windows and macOS,
/// a tar.xz elsewhere.
pub fn ffmpeg_download_url(platform: TargetPlatform) -> (s: &'static str)
    ensures
        s@ == ffmpeg_url(platform),
{
    match platform {
        TargetPlatform::Windows =>
            "https://github.com/yt-dlp/FFmpeg-Builds/releases/latest/download/ffmpeg-master-latest-win64-gpl.zip",
        TargetPlatform::MacOsArm64 | TargetPlatform::MacOsX64 =>
            "https://evermeet.cx/ffmpeg/getrelease/ffmpeg/zip",
        _ =>
            "https://github.com/yt-dlp/FFmpeg-Builds/releases/latest/download/ffmpeg-master-latest-linux64-gpl.tar.xz",
    }
}

/// The managed ffmpeg: `bin/<name>` under the app data directory, beside yt-dlp.
pub fn get_ffmpeg_path(data_dir: &str, platform: TargetPlatform) -> (p: Vec<String>)
    ensures
        components(p@) == seq![data_dir@, "bin"@, ffmpeg_name(platform)],
{
    let name = ffmpeg_binary_name(platform);
    let rest: [&str; 2] = ["bin", name];
    let p = path_under(data_dir, rest.as_slice());
    assert(rest@.map_values(|s: &str| s@) =~= seq!["bin"@, ffmpeg_name(platform)]);
    assert(seq![data_dir@] + seq!["bin"@, ffmpeg_name(platform)] =~= seq![data_dir@, "bin"@, ffmpeg_name(platform)]);
    p
}

/// The ffmpeg to run: the managed copy when it is usable, else the one on the
/// PATH, if any.
pub fn find_ffmpeg(local: LocalProbe, on_path: bool) -> (r: Option<BinaryLocation>)
    ensures
        r == binary_location(local, on_path),
{
    locate_binary(local, on_path)
}

/// ffmpeg is installed when the managed copy is usable or one is on the PATH.
pub fn is_installed(local: LocalProbe, on_path: bool) -> (r: bool)
    ensures
        r == (local_binary(local) == LocalBinary::Usable || on_path),
{
    locate_binary(local, on_path).is_some()
}

/// The ffmpeg binary inside a downloaded archive: a `bin` directory entry
/// ending with the binary name, or the binary name alone at the root.
pub fn is_ffmpeg_entry(name: &str, platform: TargetPlatform) -> (r: bool)
    ensures
        r == ((ends_with(name@, ffmpeg_name(platform)) && (contains_text(name@, "/bin/"@) || contains_text(
            name@,
            "\\bin\\"@,
        ))) || name@ == ffmpeg_name(platform)),
{
    let bin = ffmpeg_binary_name(platform);
    let in_bin = text_ends_with(name, bin) && (contains_str(name, "/bin/") || contains_str(name, "\\bin\\"));
    in_bin || str_eq(name, bin)
}


} // verus!
