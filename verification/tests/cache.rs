use keytomusic::cache::{CachedMoodSource, MoodCache};
use keytomusic::director::{MoodScores, NarrativeRole};
use keytomusic::types::{BaseMood, MoodIntensity};

#[test]
fn pages_returns_sorted_pages_for_current_chapter_only() {
    let mut cache = MoodCache::new();

    cache.insert(
        "/chapter-1",
        5,
        BaseMood::Tension,
        MoodIntensity::Medium,
        MoodScores::new(),
        NarrativeRole::Continuation,
        CachedMoodSource::ChapterPipeline,
        true,
    );
    cache.insert(
        "/chapter-1",
        2,
        BaseMood::Epic,
        MoodIntensity::High,
        MoodScores::new(),
        NarrativeRole::Continuation,
        CachedMoodSource::VisibleWindowAnalyze,
        true,
    );

    assert_eq!(cache.pages(), vec![2, 5]);

    cache.insert(
        "/chapter-2",
        1,
        BaseMood::Comedy,
        MoodIntensity::Low,
        MoodScores::new(),
        NarrativeRole::Continuation,
        CachedMoodSource::ChapterPipeline,
        true,
    );

    assert_eq!(cache.pages(), vec![1]);
}

#[test]
fn mood_cache_get_returns_what_was_stored() {
    let mut cache = MoodCache::new();
    assert!(cache.get("/c", 0).is_none());
    cache.insert(
        "/c",
        3,
        BaseMood::Horror,
        MoodIntensity::High,
        MoodScores::from_single(BaseMood::Horror),
        NarrativeRole::Escalation,
        CachedMoodSource::ChapterPipeline,
        false,
    );
    let e = cache.get("/c", 3).expect("stored entry");
    assert_eq!(e.mood, BaseMood::Horror);
    assert_eq!(e.intensity, MoodIntensity::High);
    assert!(!e.finalized);
    assert!(cache.get("/other", 3).is_none());
    assert!(cache.get("/c", 4).is_none());
    assert_eq!(cache.len(), 1);
    assert_eq!(cache.current_chapter(), Some("/c"));
    cache.insert(
        "/c",
        3,
        BaseMood::Peaceful,
        MoodIntensity::Low,
        MoodScores::new(),
        NarrativeRole::Continuation,
        CachedMoodSource::VisibleWindowAnalyze,
        true,
    );
    assert_eq!(cache.get("/c", 3).map(|e| e.mood), Some(BaseMood::Peaceful));
    assert_eq!(cache.len(), 1);
    cache.clear();
    assert_eq!(cache.len(), 0);
    assert_eq!(cache.current_chapter(), None);
    assert!(cache.pages().is_empty());
}

#[test]
fn cache_count_grows_only_for_new_pages() {
    let mut cache = MoodCache::new();
    let put = |c: &mut MoodCache, ch: &str, p: u32| {
        c.insert(
            ch,
            p,
            BaseMood::Mystery,
            MoodIntensity::Low,
            MoodScores::new(),
            NarrativeRole::Continuation,
            CachedMoodSource::ChapterPipeline,
            false,
        )
    };
    put(&mut cache, "/a", 1);
    assert_eq!(cache.len(), 1);
    put(&mut cache, "/a", 2);
    assert_eq!(cache.len(), 2);
    put(&mut cache, "/a", 1);
    assert_eq!(cache.len(), 2);
    put(&mut cache, "/b", 7);
    assert_eq!(cache.len(), 1);
    assert_eq!(cache.pages(), vec![7]);
}
