use keytomusic::director::{MoodScores, NarrativeRole};
use keytomusic::page_map::PageMap;
use keytomusic::types::{BaseMood, MoodIntensity};
use keytomusic::winner::{
    accepts_pair, accepts_single, aggregate_majority, aggregate_prediction, apply_action_bridge_holds,
    build_focus_prompt, build_mood_runs, build_narrative_focus_prompt, build_vote_stats, build_wide_sequence_prompt,
    infer_narrative_role, page_verdict, plan_selective_repairs, winner_runtime_intent, AggregatedPrediction,
    RepairAcceptPair, RepairAcceptSingle, RepairPlan, SelectivePrompt, WindowPrediction,
};
use keytomusic::runtime::LlamaRuntimeIntent;

fn aggregated_prediction(mood: BaseMood) -> AggregatedPrediction {
    AggregatedPrediction {
        mood,
        intensity: MoodIntensity::High,
        winner_score: 100,
        runner_up_score: 0,
        scores: MoodScores::from_single(mood),
        narrative_role: infer_narrative_role(mood, MoodIntensity::High),
        note: None,
    }
}

fn window(center: u32, total: u32, mood: BaseMood, intensity: MoodIntensity) -> WindowPrediction {
    WindowPrediction { members: keytomusic::winner::wide_context_indices(center, total), center, mood, intensity }
}

#[test]
fn plans_tension_open_and_close_repairs() {
    let page_order: Vec<u32> = (0..12).collect();
    let mut base = PageMap::new();
    for &page in &page_order {
        let mood = if page < 10 { BaseMood::Tension } else { BaseMood::Epic };
        base.insert(page, aggregated_prediction(mood));
    }

    let plans = plan_selective_repairs(&page_order, &base);
    assert!(plans.iter().any(|plan| matches!(plan, RepairPlan::Pair { reason: "tension_run_open_mystery", .. })));
    assert!(plans.iter().any(|plan| matches!(plan, RepairPlan::Pair { reason: "tension_run_close_epic", .. })));
}

#[test]
fn action_bridge_hold_promotes_first_two_tension_pages() {
    let page_order: Vec<u32> = (0..11).collect();
    let base_moods = [
        BaseMood::Epic,
        BaseMood::Epic,
        BaseMood::Tension,
        BaseMood::Tension,
        BaseMood::Tension,
        BaseMood::Tension,
        BaseMood::Tension,
        BaseMood::Epic,
        BaseMood::Epic,
        BaseMood::Epic,
        BaseMood::Epic,
    ];
    let mut base = PageMap::new();
    let mut effective = PageMap::new();
    for (&page, mood) in page_order.iter().zip(base_moods) {
        base.insert(page, aggregated_prediction(mood));
        effective.insert(page, aggregated_prediction(mood));
    }

    apply_action_bridge_holds(&page_order, &base, &mut effective);

    assert_eq!(effective.get(&2).map(|prediction| prediction.mood), Some(BaseMood::Epic));
    assert_eq!(effective.get(&3).map(|prediction| prediction.mood), Some(BaseMood::Epic));
}

#[test]
fn bridge_hold_leaves_other_pages_alone() {
    let page_order: Vec<u32> = (0..11).collect();
    let moods = [
        BaseMood::Epic,
        BaseMood::Epic,
        BaseMood::Tension,
        BaseMood::Tension,
        BaseMood::Tension,
        BaseMood::Tension,
        BaseMood::Tension,
        BaseMood::Epic,
        BaseMood::Epic,
        BaseMood::Epic,
        BaseMood::Epic,
    ];
    let mut base = PageMap::new();
    let mut effective = PageMap::new();
    for (&page, mood) in page_order.iter().zip(moods) {
        base.insert(page, aggregated_prediction(mood));
        effective.insert(page, aggregated_prediction(mood));
    }
    apply_action_bridge_holds(&page_order, &base, &mut effective);
    for page in [0u32, 1, 4, 5, 6, 7, 8, 9, 10] {
        assert_eq!(effective.get(&page).map(|p| p.mood), Some(moods[page as usize]));
        assert_eq!(effective.get(&page).and_then(|p| p.note.clone()), None);
    }
    assert_eq!(effective.get(&2).map(|p| p.scores.weights), Some(MoodScores::from_single(BaseMood::Epic).weights));
}

#[test]
fn long_tension_run_plans_exact_keys() {
    let page_order: Vec<u32> = (0..12).collect();
    let mut base = PageMap::new();
    for &page in &page_order {
        let mood = if page < 10 { BaseMood::Tension } else { BaseMood::Epic };
        base.insert(page, aggregated_prediction(mood));
    }
    let plans = plan_selective_repairs(&page_order, &base);
    let keys: Vec<String> = plans
        .iter()
        .map(|p| match p {
            RepairPlan::Single { key, .. } => key.clone(),
            RepairPlan::Pair { key, .. } => key.clone(),
        })
        .collect();
    assert_eq!(keys, vec!["tension_open:0-1", "tension_close:8-9", "short_epic_open:10"]);
}

#[test]
fn missing_prediction_plans_nothing() {
    let page_order: Vec<u32> = vec![0, 1, 2];
    let mut base = PageMap::new();
    base.insert(0, aggregated_prediction(BaseMood::Epic));
    assert!(plan_selective_repairs(&page_order, &base).is_empty());
}

#[test]
fn mood_runs_split_at_changes() {
    let runs = build_mood_runs(&[BaseMood::Epic, BaseMood::Epic, BaseMood::Comedy, BaseMood::Epic]);
    let pairs: Vec<(usize, usize)> = runs.iter().map(|r| (r.start, r.end)).collect();
    assert_eq!(pairs, vec![(0, 1), (2, 2), (3, 3)]);
    assert_eq!(runs[0].len(), 2);
    assert!(build_mood_runs(&[]).is_empty());
}

#[test]
fn vote_stats_weigh_center_window_more() {
    let votes = vec![
        window(2, 10, BaseMood::Tension, MoodIntensity::High),
        window(3, 10, BaseMood::Epic, MoodIntensity::Low),
        window(4, 10, BaseMood::Epic, MoodIntensity::Medium),
        window(9, 10, BaseMood::Comedy, MoodIntensity::Low),
    ];
    let stats = build_vote_stats(&votes, 2);
    assert_eq!(stats.counts[BaseMood::Tension.index()], 1);
    assert_eq!(stats.counts[BaseMood::Epic.index()], 2);
    assert_eq!(stats.counts[BaseMood::Comedy.index()], 0);
    assert_eq!(stats.weighted[BaseMood::Tension.index()], 135);
    assert_eq!(stats.weighted[BaseMood::Epic.index()], 200);
    assert_eq!(stats.center_vote, Some(BaseMood::Tension));
    assert_eq!(stats.winner_score, 200);
    assert_eq!(stats.runner_up_score, 135);

    let verdict = aggregate_prediction(&stats);
    assert_eq!(verdict.mood, BaseMood::Epic);
    assert_eq!(verdict.intensity, MoodIntensity::Medium);
    assert_eq!(verdict.winner_score, 200);
    assert_eq!(verdict.runner_up_score, 135);
}

#[test]
fn page_verdict_matches_majority_map() {
    let votes = vec![
        window(0, 3, BaseMood::Romance, MoodIntensity::Low),
        window(1, 3, BaseMood::Romance, MoodIntensity::Low),
        window(2, 3, BaseMood::Horror, MoodIntensity::High),
    ];
    let map = aggregate_majority(&[0, 1, 2], &votes);
    for page in 0..3u32 {
        let single = page_verdict(&votes, page);
        let from_map = map.get(&page).expect("every page has a verdict");
        assert_eq!(single.mood, from_map.mood);
        assert_eq!(single.intensity, from_map.intensity);
    }
    assert_eq!(map.get(&0).map(|p| p.mood), Some(BaseMood::Romance));
    assert!(map.get(&3).is_none());
}

#[test]
fn repair_acceptance_rules() {
    let tension = aggregated_prediction(BaseMood::Tension);
    let mystery = aggregated_prediction(BaseMood::Mystery);
    let epic = aggregated_prediction(BaseMood::Epic);
    assert!(accepts_single(&tension, RepairAcceptSingle::Tension));
    assert!(!accepts_single(&mystery, RepairAcceptSingle::Tension));
    assert!(accepts_single(&mystery, RepairAcceptSingle::MysteryOrTension));
    assert!(!accepts_single(&epic, RepairAcceptSingle::MysteryOrTension));
    assert!(accepts_pair(&epic, &epic, RepairAcceptPair::BothEpic));
    assert!(!accepts_pair(&epic, &mystery, RepairAcceptPair::BothEpic));
    assert!(accepts_pair(&mystery, &mystery, RepairAcceptPair::BothMystery));
    assert!(accepts_pair(&tension, &tension, RepairAcceptPair::BothTension));
}

#[test]
fn narrative_roles_follow_mood_and_intensity() {
    assert_eq!(infer_narrative_role(BaseMood::Epic, MoodIntensity::High), NarrativeRole::Climax);
    assert_eq!(SelectivePrompt::Focus.note(), "selective_focus");
    assert_eq!(SelectivePrompt::Narrative.note(), "selective_narrative");
    assert_eq!(winner_runtime_intent(), LlamaRuntimeIntent::BenchmarkPrimary);
}

#[test]
fn prompts_name_pages_one_based() {
    let wide = build_wide_sequence_prompt(&[0, 0, 0, 1, 2], 10);
    assert!(wide.starts_with(
        "These are 5 consecutive manga pages from the same chapter (pages 1, 1, 1, 2, 3 out of 10).\n"
    ));
    assert!(wide.ends_with("Reply format: mood intensity\nExample: tension 2"));
    let focus = build_focus_prompt(4, 12);
    assert!(focus.contains("Current page number: 5 out of 12.\n"));
    assert!(focus.ends_with("Allowed moods: epic, tension, sadness, comedy, romance, horror, peaceful, mystery"));
    let narrative = build_narrative_focus_prompt(0, 3);
    assert!(narrative.contains("Current page number: 1 out of 3.\n"));
    assert!(narrative.ends_with("Reply with ONLY: mood intensity\nExample: tension 2"));
}

#[test]
fn plan_keys_are_distinct_and_pairs_adjacent() {
    // comedy run of 4, epic run of 4 then tension run of 10, epic run of 8
    let mut moods = Vec::new();
    moods.extend([BaseMood::Comedy; 4]);
    moods.extend([BaseMood::Epic; 4]);
    moods.extend([BaseMood::Tension; 10]);
    moods.extend([BaseMood::Epic; 8]);
    let page_order: Vec<u32> = (0..moods.len() as u32).map(|p| p * 3 + 1).collect();
    let mut base = PageMap::new();
    for (&page, &mood) in page_order.iter().zip(moods.iter()) {
        base.insert(page, aggregated_prediction(mood));
    }
    let plans = plan_selective_repairs(&page_order, &base);
    assert!(plans.len() >= 8);
    let mut keys: Vec<String> = Vec::new();
    for plan in &plans {
        let key = match plan {
            RepairPlan::Single { key, .. } => key.clone(),
            RepairPlan::Pair { key, first_page, second_page, .. } => {
                let i = page_order.iter().position(|p| p == first_page).unwrap();
                assert_eq!(page_order[i + 1], *second_page);
                key.clone()
            }
        };
        assert!(!keys.contains(&key), "repeated key {}", key);
        keys.push(key);
    }
}
