use keytomusic::director::{MoodScores, NarrativeRole};
use keytomusic::pipeline::{ChapterMoodPipeline, PipelineActionRequest, PipelineActionResult};
use keytomusic::types::{BaseMood, MoodIntensity};
use keytomusic::winner::{infer_narrative_role, wide_context_indices, AggregatedPrediction, WindowPrediction};

fn base_prediction(mood: BaseMood) -> AggregatedPrediction {
    AggregatedPrediction {
        mood,
        intensity: MoodIntensity::High,
        winner_score: 0,
        runner_up_score: 0,
        scores: MoodScores::from_single(mood),
        narrative_role: infer_narrative_role(mood, MoodIntensity::High),
        note: None,
    }
}

#[test]
fn winner_wide_context_indices_clamp_on_edges() {
    assert_eq!(wide_context_indices(0, 10), vec![0, 0, 0, 1, 2]);
    assert_eq!(wide_context_indices(9, 10), vec![7, 8, 9, 9, 9]);
}

#[test]
fn structural_bridge_hold_promotes_first_two_tension_pages() {
    let mut pipeline = ChapterMoodPipeline::new();
    pipeline.current_chapter = Some("BL/1".to_string());
    let moods = [
        BaseMood::Epic,
        BaseMood::Epic,
        BaseMood::Tension,
        BaseMood::Tension,
        BaseMood::Tension,
        BaseMood::Tension,
        BaseMood::Tension,
        BaseMood::Epic,
        BaseMood::Epic,
        BaseMood::Epic,
        BaseMood::Epic,
    ];
    for (page, mood) in moods.into_iter().enumerate() {
        let prediction = base_prediction(mood);
        pipeline.base_predictions.insert(page as u32, prediction.clone());
        pipeline.effective_predictions.insert(page as u32, prediction);
    }

    let updates = pipeline.apply_structural_repairs();

    assert_eq!(updates.len(), 2);
    assert_eq!(pipeline.effective_predictions.get(&2).map(|p| p.mood), Some(BaseMood::Epic));
    assert_eq!(pipeline.effective_predictions.get(&3).map(|p| p.mood), Some(BaseMood::Epic));
    assert_eq!(
        pipeline.effective_predictions.get(&2).and_then(|p| p.note.as_deref()),
        Some("action_bridge_hold_epic")
    );
}

#[test]
fn focus_priority_prefers_forward_hot_zone() {
    let mut pipeline = ChapterMoodPipeline::new();
    pipeline.update_focus("BL/1", 6, 1, Some(30));

    assert!(pipeline.priority_key(7) < pipeline.priority_key(5));
    assert!(pipeline.priority_key(8) < pipeline.priority_key(5));
    assert!(pipeline.priority_key(5) < pipeline.priority_key(9));
    assert!(pipeline.priority_key(9) < pipeline.priority_key(4));
}

#[test]
fn next_action_prefers_ready_focus_window_over_chapter_start() {
    let mut pipeline = ChapterMoodPipeline::new();
    pipeline.update_focus("BL/1", 6, 1, Some(20));

    for page in 4..=8 {
        pipeline.register_page("BL/1", page, Some(20), vec![page as u8]);
    }

    let request = pipeline.next_action();
    match request {
        Some(PipelineActionRequest::Window { center, .. }) => assert_eq!(center, 6),
        other => panic!("expected focus window request, got {:?}", other),
    }
}

#[test]
fn finalize_ready_pages_can_publish_hot_zone_without_earlier_pages() {
    let mut pipeline = ChapterMoodPipeline::new();
    pipeline.update_focus("BL/1", 6, 1, Some(20));
    pipeline.total_pages = Some(20);

    for center in 4..=8 {
        pipeline.window_predictions.insert(
            center,
            WindowPrediction {
                members: wide_context_indices(center, 20),
                center,
                mood: BaseMood::Tension,
                intensity: MoodIntensity::Medium,
            },
        );
    }

    let updates = pipeline.finalize_ready_pages();

    assert!(updates.iter().any(|update| update.page == 6));
    assert!(pipeline.base_predictions.contains_key(&6));
    assert!(!pipeline.base_predictions.contains_key(&0));
}

#[test]
fn pipeline_focus_order_of_finalized_pages() {
    let mut pipeline = ChapterMoodPipeline::new();
    pipeline.update_focus("BL/1", 6, 1, Some(20));
    for center in 4..=8 {
        pipeline.window_predictions.insert(
            center,
            WindowPrediction {
                members: wide_context_indices(center, 20),
                center,
                mood: BaseMood::Tension,
                intensity: MoodIntensity::Medium,
            },
        );
    }
    let updates = pipeline.finalize_ready_pages();
    let pages: Vec<u32> = updates.iter().map(|u| u.page).collect();
    assert_eq!(pages, vec![6]);
    assert!(updates.iter().all(|u| u.finalized && u.chapter == "BL/1"));
    assert_eq!(updates[0].mood, BaseMood::Tension);
    assert_eq!(updates[0].intensity, MoodIntensity::Medium);
}

#[test]
fn pipeline_chapter_switch_resets_everything() {
    let mut pipeline = ChapterMoodPipeline::new();
    pipeline.register_page("A", 0, Some(3), vec![1, 2, 3]);
    pipeline.register_page("A", 1, Some(3), vec![4]);
    assert_eq!(pipeline.registered_pages(), vec![0, 1]);
    pipeline.register_page("B", 2, Some(5), vec![9]);
    assert_eq!(pipeline.registered_pages(), vec![2]);
    assert_eq!(pipeline.total_pages, Some(5));
    assert_eq!(pipeline.focus_page(), None);
}

#[test]
fn pipeline_register_keeps_first_image_and_largest_count() {
    let mut pipeline = ChapterMoodPipeline::new();
    pipeline.register_page("A", 0, Some(10), vec![1]);
    pipeline.register_page("A", 0, Some(4), vec![2]);
    assert_eq!(pipeline.total_pages, Some(10));
    assert_eq!(pipeline.pages.get(&0).map(|p| p.raw_bytes.clone()), Some(vec![1]));
}

#[test]
fn pipeline_processing_slot_and_errors() {
    let mut pipeline = ChapterMoodPipeline::new();
    assert!(pipeline.start_processing_if_idle());
    assert!(!pipeline.start_processing_if_idle());
    pipeline.record_error("boom".to_string());
    assert_eq!(pipeline.last_error(), Some("boom".to_string()));
    pipeline.finish_processing();
    assert!(!pipeline.is_processing());
    assert!(pipeline.start_processing_if_idle());
    assert_eq!(pipeline.last_error(), None);
}

#[test]
fn pipeline_without_page_count_has_no_action() {
    let mut pipeline = ChapterMoodPipeline::new();
    pipeline.register_page("A", 0, None, vec![1]);
    assert!(pipeline.next_action().is_none());
    assert!(pipeline.active_activity().is_none());
}

#[test]
fn pipeline_window_commit_marks_activity_and_publishes() {
    let mut pipeline = ChapterMoodPipeline::new();
    for page in 0..3 {
        pipeline.register_page("C", page, Some(3), vec![page as u8]);
    }
    let request = pipeline.next_action_at(1234).expect("a window is ready");
    let activity = pipeline.active_activity().expect("activity recorded");
    assert_eq!(activity.phase, "window");
    assert_eq!(activity.started_at_ms, 1234);
    let (center, members) = match &request {
        PipelineActionRequest::Window { center, members, .. } => (*center, members.clone()),
        other => panic!("expected a window, got {:?}", other),
    };
    assert_eq!(center, 0);
    assert_eq!(members.iter().map(|m| m.page).collect::<Vec<_>>(), vec![0, 0, 0, 1, 2]);
    assert!(pipeline.pending_windows.contains(&0));

    let updates = pipeline.commit_success(
        &request,
        PipelineActionResult::Window(WindowPrediction {
            members: wide_context_indices(0, 3),
            center: 0,
            mood: BaseMood::Comedy,
            intensity: MoodIntensity::Low,
        }),
    );
    assert!(!pipeline.pending_windows.contains(&0));
    assert!(pipeline.window_predictions.contains_key(&0));
    assert!(pipeline.active_activity().is_none());
    // Page 0 still waits for the windows centered on 1 and 2.
    assert!(updates.is_empty());
}

#[test]
fn pipeline_commit_failure_releases_window() {
    let mut pipeline = ChapterMoodPipeline::new();
    for page in 0..3 {
        pipeline.register_page("C", page, Some(3), vec![page as u8]);
    }
    let request = pipeline.next_action_at(5).expect("a window is ready");
    pipeline.commit_failure(&request);
    assert!(pipeline.pending_windows.is_empty());
    let again = pipeline.next_action_at(6).expect("the window can run again");
    assert_eq!(again.anchor_page(), request.anchor_page());
}

#[test]
fn pipeline_repair_request_and_accepted_repair() {
    let mut pipeline = ChapterMoodPipeline::new();
    pipeline.update_focus("T", 0, 1, Some(12));
    for page in 0..12 {
        pipeline.register_page("T", page, Some(12), vec![page as u8]);
        let mood = if page < 10 { BaseMood::Tension } else { BaseMood::Epic };
        let prediction = base_prediction(mood);
        pipeline.base_predictions.insert(page, prediction.clone());
        pipeline.effective_predictions.insert(page, prediction);
        pipeline.window_predictions.insert(
            page,
            WindowPrediction {
                members: wide_context_indices(page, 12),
                center: page,
                mood,
                intensity: MoodIntensity::High,
            },
        );
    }
    let request = pipeline.next_action_at(7).expect("a repair is planned");
    let (key, first, second) = match &request {
        PipelineActionRequest::RepairPair { key, first_page, second_page, reason, first_triplet, .. } => {
            assert_eq!(*reason, "tension_run_open_mystery");
            assert_eq!(first_triplet.left.page, 0);
            assert_eq!(first_triplet.center.page, 0);
            assert_eq!(first_triplet.right.page, 1);
            (key.clone(), *first_page, *second_page)
        }
        other => panic!("expected a pair repair, got {:?}", other),
    };
    assert_eq!(key, "tension_open:0-1");
    assert_eq!((first, second), (0, 1));
    assert_eq!(pipeline.active_activity().map(|a| a.phase), Some("repair_pair"));

    let mystery = base_prediction(BaseMood::Mystery);
    let updates = pipeline.commit_success(
        &request,
        PipelineActionResult::RepairPair(Some((mystery.clone(), mystery))),
    );
    assert_eq!(updates.iter().map(|u| u.page).collect::<Vec<_>>(), vec![0, 1]);
    assert_eq!(pipeline.effective_predictions.get(&0).map(|p| p.mood), Some(BaseMood::Mystery));
    assert_eq!(
        pipeline.effective_predictions.get(&1).and_then(|p| p.note.clone()),
        Some("tension_run_open_mystery".to_string())
    );
    assert!(pipeline.completed_repair_keys.contains("tension_open:0-1"));
    assert!(!pipeline.in_flight_repair_keys.contains("tension_open:0-1"));

    // The next repair is the closing pair; the open pair is done.
    let next = pipeline.next_action_at(8).expect("the closing repair is planned");
    match next {
        PipelineActionRequest::RepairPair { key, .. } => assert_eq!(key, "tension_close:8-9"),
        other => panic!("expected the closing repair, got {:?}", other),
    }
}

#[test]
fn pipeline_rejected_repair_counts_as_done() {
    let mut pipeline = ChapterMoodPipeline::new();
    pipeline.current_chapter = Some("X".to_string());
    let request = PipelineActionRequest::RepairSingle {
        key: "short_epic_open:4".to_string(),
        page: 4,
        total_pages: 9,
        prompt_kind: keytomusic::winner::SelectivePrompt::Narrative,
        reason: "short_epic_open_tension",
        accept: keytomusic::winner::RepairAcceptSingle::Tension,
        triplet: keytomusic::pipeline::ActionTriplet {
            left: keytomusic::pipeline::ActionPage { page: 3, raw_bytes: vec![] },
            center: keytomusic::pipeline::ActionPage { page: 4, raw_bytes: vec![] },
            right: keytomusic::pipeline::ActionPage { page: 5, raw_bytes: vec![] },
        },
    };
    pipeline.in_flight_repair_keys.insert("short_epic_open:4".to_string());
    let updates = pipeline.commit_success(&request, PipelineActionResult::RepairSingle(None));
    assert!(updates.is_empty());
    assert!(pipeline.completed_repair_keys.contains("short_epic_open:4"));
    assert!(!pipeline.in_flight_repair_keys.contains("short_epic_open:4"));
    assert_eq!(request.phase_name(), "repair_single");
    assert_eq!(request.anchor_page(), 4);
}
