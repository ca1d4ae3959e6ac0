use keytomusic::api::{
    check_trigger_mood, collect_members, decode_members, decode_page_image, lookup_answer, mood_list,
    plan_window_request, record_window_verdict, status_answer, LiveCancelRegistry, ServerSlot, StatusAnswer,
    WindowMemberImage, WindowRequestPlan,
};
use keytomusic::cache::{CachedMoodSource, MoodCache};
use keytomusic::director::{MoodScores, NarrativeRole};
use keytomusic::types::{BaseMood, MoodIntensity};
use base64::Engine;
use keytomusic::winner::AggregatedPrediction;

#[test]
fn api_decodes_base64_images() {
    assert_eq!(decode_page_image("aGVsbG8=").unwrap(), b"hello".to_vec());
    let err = decode_page_image("not base64!").unwrap_err();
    assert!(err.starts_with("Invalid base64 image: "));
}

#[test]
fn api_decodes_members_in_order() {
    let members = vec![
        WindowMemberImage { page: 3, image: "AQID".to_string() },
        WindowMemberImage { page: 4, image: "BAU=".to_string() },
    ];
    let pages = decode_members(&members).unwrap();
    assert_eq!(pages.len(), 2);
    assert_eq!(pages[0].page, 3);
    assert_eq!(pages[0].raw_bytes, vec![1, 2, 3]);
    assert_eq!(pages[1].raw_bytes, vec![4, 5]);
    let bad = vec![
        WindowMemberImage { page: 3, image: "AQID".to_string() },
        WindowMemberImage { page: 9, image: "%%%".to_string() },
    ];
    assert!(decode_members(&bad).unwrap_err().starts_with("Invalid base64 for page 9: "));
}

#[test]
fn api_collect_members_reports_first_failure() {
    let r = collect_members(
        &vec![1, 2, 3],
        vec![Ok(vec![7]), Err("bad".to_string()), Err("worse".to_string())],
    );
    assert_eq!(r.unwrap_err(), "Invalid base64 for page 2: bad");
    let ok = collect_members(&vec![5], vec![Ok(vec![1, 2])]).unwrap();
    assert_eq!(ok[0].page, 5);
    assert_eq!(ok[0].raw_bytes, vec![1, 2]);
}

fn verdict(mood: BaseMood) -> AggregatedPrediction {
    AggregatedPrediction {
        mood,
        intensity: MoodIntensity::Medium,
        winner_score: 3,
        runner_up_score: 1,
        scores: MoodScores::from_single(mood),
        narrative_role: NarrativeRole::Continuation,
        note: None,
    }
}

#[test]
fn api_window_request_plan() {
    let mut cache = MoodCache::new();
    assert!(matches!(plan_window_request(&cache, "ch1", 4, 10, 0), WindowRequestPlan::MissingMembers));
    match plan_window_request(&cache, "ch1", 12, 10, 3) {
        WindowRequestPlan::Analyze { total_pages } => assert_eq!(total_pages, 13),
        _ => panic!("expected an analysis"),
    }
    match plan_window_request(&cache, "ch1", 4, 10, 3) {
        WindowRequestPlan::Analyze { total_pages } => assert_eq!(total_pages, 10),
        _ => panic!("expected an analysis"),
    }
    record_window_verdict(&mut cache, "ch1", 4, &verdict(BaseMood::Horror));
    match plan_window_request(&cache, "ch1", 4, 10, 3) {
        WindowRequestPlan::Cached(e) => {
            assert_eq!(e.mood, BaseMood::Horror);
            assert_eq!(e.source, CachedMoodSource::VisibleWindowAnalyze);
            assert!(e.finalized);
        }
        _ => panic!("expected the cached verdict"),
    }
    let hit = lookup_answer(&cache, "ch1", 4);
    assert!(hit.hit);
    assert_eq!(hit.mood, Some("horror"));
    assert_eq!(hit.finalized, Some(true));
    assert_eq!(hit.source, Some("visible_window"));
    let miss = lookup_answer(&cache, "ch2", 4);
    assert!(!miss.hit);
    assert_eq!(miss.mood, None);
}

#[test]
fn api_trigger_mood_names() {
    assert!(check_trigger_mood("tension").is_ok());
    assert_eq!(check_trigger_mood("epic_battle").unwrap_err(), "Unknown mood: epic_battle");
    assert_eq!(
        mood_list(),
        vec!["epic", "tension", "sadness", "comedy", "romance", "horror", "peaceful", "mystery"]
    );
}

#[test]
fn api_status_answers() {
    let busy = status_answer(ServerSlot::Busy);
    assert_eq!(busy, StatusAnswer { running: true, port: 0, drop_server: false });
    assert_eq!(busy.server_text(), "running");
    assert_eq!(busy.model_text(), "loaded");
    let dead = status_answer(ServerSlot::Present { port: 8080, running: false });
    assert_eq!(dead, StatusAnswer { running: false, port: 0, drop_server: true });
    assert_eq!(dead.server_text(), "stopped");
    assert_eq!(dead.model_text(), "not_loaded");
    assert_eq!(status_answer(ServerSlot::Present { port: 8080, running: true }).port, 8080);
    assert!(!status_answer(ServerSlot::Empty).running);
}

#[test]
fn api_live_cancel_registry() {
    let mut reg: LiveCancelRegistry<&'static str> = LiveCancelRegistry::new();
    let (first, prev) = reg.register(7, "token-a");
    assert_eq!(first, 1);
    assert_eq!(prev, None);
    assert_eq!(reg.cancel_target(7), Some(&"token-a"));
    assert_eq!(reg.cancel_target(8), None);
    let (second, prev) = reg.register(8, "token-b");
    assert_eq!(second, 2);
    assert_eq!(prev, Some("token-a"));
    reg.clear_if_current(first);
    assert_eq!(reg.cancel_target(8), Some(&"token-b"));
    reg.clear_if_current(second);
    assert_eq!(reg.cancel_target(8), None);
}

#[test]
fn decode_errors_carry_the_decoder_text() {
    let decoder_error = base64::engine::general_purpose::STANDARD.decode("a@b=").unwrap_err().to_string();
    assert_eq!(decode_page_image("a@b=").unwrap_err(), format!("Invalid base64 image: {}", decoder_error));
    let members = vec![
        WindowMemberImage { page: 2, image: "aGk=".to_string() },
        WindowMemberImage { page: 3, image: "a@b=".to_string() },
    ];
    assert_eq!(decode_members(&members).unwrap_err(), format!("Invalid base64 for page 3: {}", decoder_error));
}
