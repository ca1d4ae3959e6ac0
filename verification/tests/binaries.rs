use keytomusic::binaries::{classify_local_binary, locate_binary, BinaryLocation, LocalBinary, LocalProbe};
use keytomusic::ffmpeg::{
    ffmpeg_binary_name, ffmpeg_download_url, find_ffmpeg, get_ffmpeg_path, is_ffmpeg_entry,
};
use keytomusic::llama::{
    get_llama_server_path, get_mmproj_path, get_model_path, get_models_dir, is_llama_server_installed,
    is_model_downloaded, TargetPlatform,
};
use keytomusic::yt_dlp::{get_yt_dlp_path, needs_download, yt_dlp_download_url, BinaryAge};

#[test]
fn binary_probe_thresholds() {
    assert_eq!(classify_local_binary(LocalProbe::Size(1_000_001)), LocalBinary::Usable);
    assert_eq!(classify_local_binary(LocalProbe::Size(1_000_000)), LocalBinary::Corrupt);
    assert_eq!(classify_local_binary(LocalProbe::Missing), LocalBinary::Absent);
    assert_eq!(classify_local_binary(LocalProbe::NoMetadata), LocalBinary::Absent);
    assert!(keytomusic::ffmpeg::is_installed(LocalProbe::Size(5_000_000), false));
    assert!(keytomusic::ffmpeg::is_installed(LocalProbe::Size(10), true));
    assert!(!keytomusic::ffmpeg::is_installed(LocalProbe::Size(10), false));
    assert!(!keytomusic::yt_dlp::is_installed(LocalProbe::Missing));
    assert!(keytomusic::yt_dlp::is_installed(LocalProbe::Size(20_000_000)));
    assert!(is_llama_server_installed(LocalProbe::Missing, true));
    assert!(!is_llama_server_installed(LocalProbe::Size(3), false));
}

#[test]
fn binary_paths_per_platform() {
    assert_eq!(get_ffmpeg_path("/d", TargetPlatform::Windows), vec!["/d", "bin", "ffmpeg.exe"]);
    assert_eq!(get_ffmpeg_path("/d", TargetPlatform::Linux), vec!["/d", "bin", "ffmpeg"]);
    assert_eq!(get_yt_dlp_path("/d", TargetPlatform::MacOsArm64), vec!["/d", "bin", "yt-dlp"]);
    assert_eq!(
        get_llama_server_path("/d", TargetPlatform::Windows),
        vec!["/d", "bin", "llama-server", "llama-server.exe"]
    );
    assert_eq!(get_models_dir("/d"), vec!["/d", "models"]);
    assert_eq!(get_model_path("/d"), vec!["/d", "models", "Qwen3VL-2B-Instruct-Q4_K_M.gguf"]);
    assert_eq!(get_mmproj_path("/d"), vec!["/d", "models", "mmproj-Qwen3VL-2B-Instruct-F16.gguf"]);
    assert_eq!(ffmpeg_binary_name(TargetPlatform::Linux), "ffmpeg");
    assert!(ffmpeg_download_url(TargetPlatform::MacOsX64).starts_with("https://evermeet.cx"));
    assert!(ffmpeg_download_url(TargetPlatform::Linux).ends_with(".tar.xz"));
    assert!(yt_dlp_download_url(TargetPlatform::Windows).ends_with("yt-dlp.exe"));
}

#[test]
fn model_download_floors() {
    assert!(is_model_downloaded(Some(1_100_000_000), Some(780_000_000)));
    assert!(!is_model_downloaded(Some(500_000_000), Some(780_000_000)));
    assert!(!is_model_downloaded(Some(1_100_000_000), None));
    assert!(!is_model_downloaded(None, Some(780_000_000)));
}

#[test]
fn yt_dlp_update_interval() {
    assert!(needs_download(BinaryAge::Missing));
    assert!(!needs_download(BinaryAge::Unknown));
    assert!(!needs_download(BinaryAge::Age { secs: 604_800, nanos: 0 }));
    assert!(needs_download(BinaryAge::Age { secs: 604_800, nanos: 1 }));
    assert!(needs_download(BinaryAge::Age { secs: 700_000, nanos: 0 }));
    assert!(!needs_download(BinaryAge::Age { secs: 10, nanos: 0 }));
}

#[test]
fn ffmpeg_archive_entries() {
    assert!(is_ffmpeg_entry("ffmpeg-master-latest-win64-gpl/bin/ffmpeg.exe", TargetPlatform::Windows));
    assert!(is_ffmpeg_entry("ffmpeg", TargetPlatform::MacOsArm64));
    assert!(!is_ffmpeg_entry("ffmpeg-master/bin/ffprobe.exe", TargetPlatform::Windows));
    assert!(!is_ffmpeg_entry("doc/ffmpeg", TargetPlatform::Linux));
}

#[test]
fn ffmpeg_found_managed_then_path() {
    assert_eq!(find_ffmpeg(LocalProbe::Size(2_000_000), true), Some(BinaryLocation::Managed));
    assert_eq!(find_ffmpeg(LocalProbe::Size(2_000_000), false), Some(BinaryLocation::Managed));
    assert_eq!(find_ffmpeg(LocalProbe::Size(500), true), Some(BinaryLocation::OnPath));
    assert_eq!(find_ffmpeg(LocalProbe::Missing, true), Some(BinaryLocation::OnPath));
    assert_eq!(find_ffmpeg(LocalProbe::Missing, false), None);
}

#[test]
fn llama_server_found_managed_then_path() {
    assert_eq!(locate_binary(LocalProbe::Size(1_000_001), false), Some(BinaryLocation::Managed));
    assert_eq!(locate_binary(LocalProbe::NoMetadata, true), Some(BinaryLocation::OnPath));
    assert_eq!(locate_binary(LocalProbe::Size(1_000_000), false), None);
}
