use keytomusic::director::{CoreDecision, DirectorCore, DirectorSignals, MoodScores, NarrativeRole};
use keytomusic::types::{BaseMood, MoodIntensity};

fn signals(candidate: BaseMood, strong: bool, met: bool, intensity: MoodIntensity) -> DirectorSignals {
    DirectorSignals { smoothed_intensity: intensity, candidate, strong_override: strong, thresholds_met: met }
}

fn step(
    core: &mut DirectorCore<u32>,
    page: u32,
    chapter: Option<&str>,
    raw: BaseMood,
    role: NarrativeRole,
    sig: DirectorSignals,
) -> CoreDecision {
    core.take_page(page, chapter, 5);
    core.decide(raw, MoodIntensity::Medium, role, sig, 2)
}

#[test]
fn director_first_page_commits_immediately() {
    let mut core: DirectorCore<u32> = DirectorCore::new();
    let d = step(
        &mut core,
        0,
        None,
        BaseMood::Tension,
        NarrativeRole::Continuation,
        signals(BaseMood::Tension, false, false, MoodIntensity::Medium),
    );
    assert!(d.mood_changed);
    assert!(!d.intensity_changed);
    assert_eq!(d.committed_mood, BaseMood::Tension);
    assert_eq!(d.dwell_count, 1);
}

#[test]
fn director_candidate_waits_for_dwell() {
    let mut core: DirectorCore<u32> = DirectorCore::new();
    core.take_page(0, None, 5);
    core.decide(
        BaseMood::Tension,
        MoodIntensity::Medium,
        NarrativeRole::Continuation,
        signals(BaseMood::Tension, false, false, MoodIntensity::Medium),
        3,
    );
    let push = signals(BaseMood::Epic, false, true, MoodIntensity::High);
    core.take_page(1, None, 5);
    let d1 = core.decide(BaseMood::Epic, MoodIntensity::High, NarrativeRole::Escalation, push, 3);
    assert!(!d1.mood_changed);
    assert_eq!(d1.dwell_count, 2);
    assert!(d1.intensity_changed);
    assert_eq!(d1.committed_mood, BaseMood::Tension);
    core.take_page(2, None, 5);
    let d2 = core.decide(BaseMood::Epic, MoodIntensity::High, NarrativeRole::Escalation, push, 3);
    assert!(d2.mood_changed);
    assert_eq!(d2.committed_mood, BaseMood::Epic);
    assert_eq!(d2.dwell_count, 1);
}

#[test]
fn director_strong_override_ignores_dwell() {
    let mut core: DirectorCore<u32> = DirectorCore::new();
    step(
        &mut core,
        0,
        None,
        BaseMood::Peaceful,
        NarrativeRole::Continuation,
        signals(BaseMood::Peaceful, false, false, MoodIntensity::Low),
    );
    let d = step(
        &mut core,
        1,
        None,
        BaseMood::Epic,
        NarrativeRole::Climax,
        signals(BaseMood::Peaceful, true, false, MoodIntensity::High),
    );
    assert!(d.mood_changed);
    assert_eq!(d.committed_mood, BaseMood::Epic);
    assert_eq!(d.committed_intensity, MoodIntensity::High);
}

#[test]
fn director_chapter_change_resets() {
    let mut core: DirectorCore<u32> = DirectorCore::new();
    step(
        &mut core,
        0,
        Some("/chapter/1"),
        BaseMood::Tension,
        NarrativeRole::Continuation,
        signals(BaseMood::Tension, false, false, MoodIntensity::Medium),
    );
    let d = step(
        &mut core,
        1,
        Some("/chapter/2"),
        BaseMood::Comedy,
        NarrativeRole::Continuation,
        signals(BaseMood::Tension, false, false, MoodIntensity::Medium),
    );
    assert!(d.mood_changed);
    assert_eq!(d.committed_mood, BaseMood::Comedy);
    assert_eq!(core.window, vec![1]);
}

#[test]
fn director_window_keeps_latest_pages() {
    let mut core: DirectorCore<u32> = DirectorCore::new();
    for page in 0..8 {
        core.take_page(page, None, 3);
    }
    assert_eq!(core.window, vec![5, 6, 7]);
    core.trim_window(1);
    assert_eq!(core.window, vec![7]);
    core.reset();
    assert!(core.window.is_empty());
    assert_eq!(core.committed_mood, None);
}

#[test]
fn director_climax_shortens_dwell() {
    let first = signals(BaseMood::Sadness, false, false, MoodIntensity::Low);
    let push = signals(BaseMood::Epic, false, true, MoodIntensity::High);
    let mut plain: DirectorCore<u32> = DirectorCore::new();
    plain.take_page(0, None, 5);
    plain.decide(BaseMood::Sadness, MoodIntensity::Low, NarrativeRole::Continuation, first, 3);
    plain.take_page(1, None, 5);
    let d = plain.decide(BaseMood::Epic, MoodIntensity::High, NarrativeRole::Escalation, push, 3);
    assert!(!d.mood_changed);

    let mut climax: DirectorCore<u32> = DirectorCore::new();
    climax.take_page(0, None, 5);
    climax.decide(BaseMood::Sadness, MoodIntensity::Low, NarrativeRole::Continuation, first, 3);
    climax.take_page(1, None, 5);
    let d = climax.decide(BaseMood::Epic, MoodIntensity::High, NarrativeRole::Climax, push, 3);
    assert!(d.mood_changed);
    assert_eq!(d.committed_mood, BaseMood::Epic);
}

#[test]
fn mood_scores_dominant_and_single() {
    let mut s = MoodScores::new();
    s.set(BaseMood::Comedy, 65);
    s.set(BaseMood::Tension, 20);
    s.set(BaseMood::Peaceful, 15);
    assert_eq!(s.dominant(), BaseMood::Comedy);
    assert_eq!(s.get(BaseMood::Tension), 20);
    assert_eq!(MoodScores::new().dominant(), BaseMood::Epic);
    let one = MoodScores::from_single(BaseMood::Horror);
    assert_eq!(one.get(BaseMood::Horror), 100);
    assert_eq!(one.dominant(), BaseMood::Horror);
}

#[test]
fn narrative_role_names() {
    assert_eq!(NarrativeRole::from_str_opt("  De-Escalation "), Some(NarrativeRole::DeEscalation));
    assert_eq!(NarrativeRole::from_str_opt("CLIMAX"), Some(NarrativeRole::Climax));
    assert_eq!(NarrativeRole::from_str_opt("finale"), None);
    assert_eq!(NarrativeRole::DeEscalation.as_str(), "de_escalation");
}

#[test]
fn narrative_role_names_read_back() {
    for r in [
        NarrativeRole::Continuation,
        NarrativeRole::Escalation,
        NarrativeRole::DeEscalation,
        NarrativeRole::Transition,
        NarrativeRole::Climax,
    ] {
        assert_eq!(NarrativeRole::from_str_opt(r.as_str()), Some(r));
        let padded = format!("  {}\n", r.as_str().to_uppercase());
        assert_eq!(NarrativeRole::from_str_opt(&padded), Some(r));
    }
    assert_eq!(NarrativeRole::from_str_opt("  De-Escalation\n"), Some(NarrativeRole::DeEscalation));
    assert_eq!(NarrativeRole::from_str_opt("rising"), None);
}
