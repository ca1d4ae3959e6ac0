use keytomusic::runtime::{candidate_failure_line, reasoning_format, server_args, startup_failure_message};
use keytomusic::runtime::{
    build_runtime_candidates, choose_gpu_layers, context_fallbacks, default_context_size, default_parallel_slots,
    derive_runtime_intent, gpu_layer_fallbacks, min_supported_vram_mib, parse_positive_setting, parse_vram_report,
    resolve_runtime_profile, runtime_intent_name, LlamaRuntimeIntent, LlamaServerStartOptions, ResolvedRuntimeProfile,
};

#[test]
fn research_runtime_defaults_to_parallel_four() {
    assert_eq!(default_parallel_slots(LlamaRuntimeIntent::ResearchLarge, None), 4);
    assert_eq!(default_parallel_slots(LlamaRuntimeIntent::AppDefault, None), 1);
}

#[test]
fn runtime_candidates_reduce_gpu_and_context_progressively() {
    let base = ResolvedRuntimeProfile { context_size: 32_768, parallel_slots: 4, gpu_layers: 99 };

    let candidates = build_runtime_candidates(base, false, false, false);

    assert_eq!(candidates.first().copied(), Some(base));
    assert!(candidates.contains(&ResolvedRuntimeProfile { context_size: 32_768, parallel_slots: 1, gpu_layers: 99 }));
    assert!(candidates.contains(&ResolvedRuntimeProfile { context_size: 12_288, parallel_slots: 1, gpu_layers: 48 }));
}

#[test]
fn runtime_intent_prefers_explicit_value() {
    let options = LlamaServerStartOptions {
        reasoning_format: None,
        context_size: Some(8_192),
        parallel_slots: Some(1),
        gpu_layers: None,
        runtime_intent: Some(LlamaRuntimeIntent::BenchmarkPrimary),
    };

    assert_eq!(derive_runtime_intent(&options), LlamaRuntimeIntent::BenchmarkPrimary);
}

#[test]
fn runtime_intent_inferred_from_size_and_slots() {
    let mut options = LlamaServerStartOptions::default();
    assert_eq!(derive_runtime_intent(&options), LlamaRuntimeIntent::AppDefault);
    options.context_size = Some(32_768);
    assert_eq!(derive_runtime_intent(&options), LlamaRuntimeIntent::ResearchLarge);
    options.context_size = Some(8_192);
    options.parallel_slots = Some(2);
    assert_eq!(derive_runtime_intent(&options), LlamaRuntimeIntent::ResearchLarge);
    assert_eq!(LlamaRuntimeIntent::default(), LlamaRuntimeIntent::AppDefault);
    assert_eq!(runtime_intent_name(LlamaRuntimeIntent::ResearchLarge), "research_large");
}

#[test]
fn runtime_defaults_and_environment_settings() {
    assert_eq!(default_context_size(LlamaRuntimeIntent::AppDefault, None, None), 8_192);
    assert_eq!(default_context_size(LlamaRuntimeIntent::ResearchLarge, Some(1), None), 32_768);
    assert_eq!(default_context_size(LlamaRuntimeIntent::ResearchLarge, None, Some(2048)), 2048);
    assert_eq!(default_parallel_slots(LlamaRuntimeIntent::AppDefault, Some(3)), 3);
    assert_eq!(parse_positive_setting("  4096 "), Some(4096));
    assert_eq!(parse_positive_setting("+7"), Some(7));
    assert_eq!(parse_positive_setting("0"), None);
    assert_eq!(parse_positive_setting("-3"), None);
    assert_eq!(parse_positive_setting("12a"), None);
    assert_eq!(parse_positive_setting("4294967296"), None);
    assert_eq!(parse_positive_setting("4294967295"), Some(4294967295));
}

#[test]
fn runtime_vram_minimums_and_layers() {
    assert_eq!(min_supported_vram_mib(None), 6_144);
    assert_eq!(min_supported_vram_mib(Some(2_000_000_000)), 4_096);
    assert_eq!(min_supported_vram_mib(Some(5_000_000_000)), 6_144);
    assert_eq!(min_supported_vram_mib(Some(7_000_000_000)), 8_192);
    assert_eq!(choose_gpu_layers(Some(12), Some(40), None, Some(100)), Ok(12));
    assert_eq!(choose_gpu_layers(None, Some(40), None, Some(100)), Ok(40));
    assert_eq!(choose_gpu_layers(None, None, Some(2_000_000_000), Some(24_000)), Ok(99));
    assert_eq!(choose_gpu_layers(None, None, Some(2_000_000_000), Some(8_192)), Ok(32));
    assert_eq!(choose_gpu_layers(None, None, Some(2_000_000_000), Some(4_096)), Ok(16));
    assert_eq!(
        choose_gpu_layers(None, None, None, Some(4_000)),
        Err("GPU memory too low for manga mood (4000 MiB detected, need roughly >= 6144 MiB).".to_string())
    );
    assert_eq!(choose_gpu_layers(None, None, Some(2_000_000_000), None), Ok(64));
    assert_eq!(choose_gpu_layers(None, None, None, None), Ok(32));
}

#[test]
fn runtime_fallback_steps() {
    assert_eq!(gpu_layer_fallbacks(99), vec![99, 80, 64, 48, 32, 24, 16]);
    assert_eq!(gpu_layer_fallbacks(40), vec![40, 32, 24, 16]);
    assert_eq!(gpu_layer_fallbacks(16), vec![16]);
    assert_eq!(context_fallbacks(32_768), vec![32_768, 12_288, 8_192, 4_096]);
    assert_eq!(context_fallbacks(8_192), vec![8_192, 4_096]);
}

#[test]
fn runtime_candidates_order_and_locks() {
    let base = ResolvedRuntimeProfile { context_size: 8_192, parallel_slots: 2, gpu_layers: 24 };
    let all = build_runtime_candidates(base, false, false, false);
    let expected = vec![
        (8_192, 2, 24),
        (8_192, 2, 16),
        (8_192, 1, 24),
        (8_192, 1, 16),
        (4_096, 2, 24),
        (4_096, 2, 16),
        (4_096, 1, 24),
        (4_096, 1, 16),
    ];
    let got: Vec<(u32, u32, u32)> = all.iter().map(|p| (p.context_size, p.parallel_slots, p.gpu_layers)).collect();
    assert_eq!(got, expected);
    let locked = build_runtime_candidates(base, true, true, true);
    assert_eq!(locked, vec![base]);
    let one_slot = ResolvedRuntimeProfile { context_size: 4_096, parallel_slots: 1, gpu_layers: 16 };
    assert_eq!(build_runtime_candidates(one_slot, false, false, false), vec![one_slot]);
}

#[test]
fn runtime_profile_resolution() {
    let options = LlamaServerStartOptions::default();
    let profile = resolve_runtime_profile(&options, None, None, None, None, None).expect("no GPU probe needed");
    assert_eq!(profile, ResolvedRuntimeProfile { context_size: 8_192, parallel_slots: 1, gpu_layers: 32 });
    let explicit = LlamaServerStartOptions {
        reasoning_format: None,
        context_size: Some(16_000),
        parallel_slots: Some(0),
        gpu_layers: Some(7),
        runtime_intent: None,
    };
    let p = resolve_runtime_profile(&explicit, None, None, None, None, Some(1)).expect("explicit layers");
    assert_eq!(p, ResolvedRuntimeProfile { context_size: 16_000, parallel_slots: 1, gpu_layers: 7 });
    assert!(resolve_runtime_profile(&options, Some(9_000_000_000), None, None, None, Some(6_000)).is_err());
}

#[test]
fn runtime_vram_report_reading() {
    assert_eq!(parse_vram_report("24576\n"), Some(24_576));
    assert_eq!(parse_vram_report(" 8192 \r\n12288\n"), Some(8_192));
    assert_eq!(parse_vram_report(""), None);
    assert_eq!(parse_vram_report("N/A\n"), None);
}

#[test]
fn runtime_reasoning_format_setting() {
    assert_eq!(reasoning_format(None).as_deref(), Some("none"));
    assert_eq!(reasoning_format(Some("")), None);
    assert_eq!(reasoning_format(Some("omit")), None);
    assert_eq!(reasoning_format(Some("default")), None);
    assert_eq!(reasoning_format(Some("deepseek")).as_deref(), Some("deepseek"));
}

#[test]
fn runtime_server_command_line() {
    let profile = ResolvedRuntimeProfile { context_size: 8192, parallel_slots: 2, gpu_layers: 99 };
    let args = server_args("/m/model.gguf", "/m/mmproj.gguf", 41234, profile, Some("none"));
    assert_eq!(
        args,
        vec![
            "-m", "/m/model.gguf", "--mmproj", "/m/mmproj.gguf", "--port", "41234", "-c", "8192", "-np", "2",
            "--flash-attn", "auto", "--cache-type-k", "q8_0", "--cache-type-v", "q8_0", "-ngl", "99",
            "--image-min-tokens", "1024", "--reasoning-format", "none",
        ]
    );
    assert_eq!(server_args("a", "b", 1, profile, None).len(), 20);
    let f = candidate_failure_line(profile, "timeout");
    assert_eq!(f, "c=8192 np=2 ngl=99 => timeout");
    assert_eq!(
        startup_failure_message(2, &vec![f.clone(), "c=4096 np=1 ngl=0 => crash".to_string()]),
        "Failed to start llama-server after 2 runtime candidate(s): c=8192 np=2 ngl=99 => timeout | c=4096 np=1 ngl=0 => crash"
    );
}
