use keytomusic::llama::{
    asset_search_patterns, ensure_mood_runtime_supported, existing_link_ok, latest_versioned, runtime_link_names, llama_server_binary_name, normalize_backend,
    release_asset_url, resolve_linux_runtime_mode, LinuxRuntimeMode, ReleaseAsset, TargetPlatform,
};

#[test]
fn linux_runtime_prefers_vulkan_when_available() {
    assert_eq!(resolve_linux_runtime_mode(None, true), LinuxRuntimeMode::Vulkan);
}

#[test]
fn linux_runtime_requires_explicit_cpu_override() {
    assert_eq!(resolve_linux_runtime_mode(None, false), LinuxRuntimeMode::Unsupported);
    assert_eq!(resolve_linux_runtime_mode(Some("cpu"), false), LinuxRuntimeMode::CpuExplicit);
}

#[test]
fn linux_runtime_vulkan_override_needs_vulkan() {
    assert_eq!(resolve_linux_runtime_mode(Some("vulkan"), true), LinuxRuntimeMode::Vulkan);
    assert_eq!(resolve_linux_runtime_mode(Some("vulkan"), false), LinuxRuntimeMode::Unsupported);
    assert_eq!(resolve_linux_runtime_mode(Some("cuda"), true), LinuxRuntimeMode::Unsupported);
    assert_eq!(normalize_backend("  CPU "), Some("cpu".to_string()));
    assert_eq!(normalize_backend("   "), None);
}

#[test]
fn llama_platform_names_and_patterns() {
    assert_eq!(llama_server_binary_name(TargetPlatform::Windows), "llama-server.exe");
    assert_eq!(llama_server_binary_name(TargetPlatform::Linux), "llama-server");
    assert_eq!(
        asset_search_patterns(TargetPlatform::Windows, LinuxRuntimeMode::Unsupported),
        Ok(vec!["win-vulkan-x64"])
    );
    assert_eq!(asset_search_patterns(TargetPlatform::Linux, LinuxRuntimeMode::CpuExplicit), Ok(vec!["ubuntu-x64"]));
    assert!(asset_search_patterns(TargetPlatform::Linux, LinuxRuntimeMode::Unsupported).is_err());
    assert_eq!(ensure_mood_runtime_supported(TargetPlatform::MacOsArm64, LinuxRuntimeMode::Unsupported), Ok(()));
    let err = ensure_mood_runtime_supported(TargetPlatform::Linux, LinuxRuntimeMode::Unsupported).unwrap_err();
    assert!(err.starts_with("Manga mood requires GPU acceleration on Linux."));
}

fn asset(name: &str, url: Option<&str>) -> ReleaseAsset {
    ReleaseAsset { name: name.to_string(), url: url.map(|u| u.to_string()) }
}

#[test]
fn llama_release_asset_selection() {
    let assets = vec![
        asset("llama-b1-bin-ubuntu-vulkan-x64.zip", Some("https://x/vulkan")),
        asset("llama-b1-bin-ubuntu-x64.zip", Some("https://x/cpu")),
        asset("llama-b1-bin-win-vulkan-x64.zip", Some("https://x/win")),
    ];
    assert_eq!(
        release_asset_url(TargetPlatform::Linux, LinuxRuntimeMode::CpuExplicit, Some(&assets)),
        Ok("https://x/cpu".to_string())
    );
    assert_eq!(
        release_asset_url(TargetPlatform::Windows, LinuxRuntimeMode::Unsupported, Some(&assets)),
        Ok("https://x/win".to_string())
    );
    assert_eq!(
        release_asset_url(TargetPlatform::MacOsX64, LinuxRuntimeMode::Unsupported, Some(&assets)),
        Err("No llama-server release found for platform patterns [\"macos-x64\"]".to_string())
    );
    assert_eq!(
        release_asset_url(TargetPlatform::Windows, LinuxRuntimeMode::Unsupported, None),
        Err("No assets in release".to_string())
    );
    let no_url = vec![asset("llama-macos-arm64.zip", None)];
    assert_eq!(
        release_asset_url(TargetPlatform::MacOsArm64, LinuxRuntimeMode::Unsupported, Some(&no_url)),
        Err("No download URL for asset".to_string())
    );
}

#[test]
fn linux_runtime_links_pick_latest_version() {
    let names = vec![
        "libllama.so.0.0.9".to_string(),
        "libllama.so.0.0.10".to_string(),
        "libggml.so.0.1".to_string(),
        "readme.txt".to_string(),
    ];
    assert_eq!(latest_versioned(&names, "libllama.so.0.").as_deref(), Some("libllama.so.0.0.9"));
    assert_eq!(latest_versioned(&names, "libggml.so.0.").as_deref(), Some("libggml.so.0.1"));
    assert_eq!(latest_versioned(&names, "libmtmd.so.0."), None);
    assert_eq!(runtime_link_names().len(), 4);
    assert_eq!(runtime_link_names()[3], ("libggml-base.so.0", "libggml-base.so.0."));
    assert!(existing_link_ok(true, 0));
    assert!(existing_link_ok(false, 2_000_000));
    assert!(!existing_link_ok(false, 10));
}
