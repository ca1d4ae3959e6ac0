use keytomusic::youtube_cache::{is_audio_extension, is_unused_entry, listed, rfc3339_of_clock, CacheEntry, CacheIndex, VideoRemoval, YouTubeCache};

fn entry(url: &str, path: &str, title: &str) -> CacheEntry {
    CacheEntry {
        url: url.to_string(),
        cached_path: path.to_string(),
        title: title.to_string(),
        downloaded_at: "2024-01-01T00:00:00+00:00".to_string(),
        file_size: 10,
    }
}

fn fresh() -> YouTubeCache {
    YouTubeCache::new("/data/cache".to_string(), "/data/cache/cache_index.json".to_string())
}

#[test]
fn cache_add_then_get_returns_entry() {
    let mut c = fresh();
    c.ensure_loaded(None);
    assert!(c.is_loaded());
    let e = c.add_entry_at(
        "https://www.youtube.com/watch?v=abc".to_string(),
        "/data/cache/abc.m4a".to_string(),
        "Song".to_string(),
        "2024-05-01T10:00:00+00:00".to_string(),
        1234,
    );
    assert_eq!(e.title, "Song");
    let got = c.get("https://www.youtube.com/watch?v=abc").unwrap();
    assert_eq!(got.cached_path, "/data/cache/abc.m4a");
    assert_eq!(got.downloaded_at, "2024-05-01T10:00:00+00:00");
    assert_eq!(got.file_size, 1234);
    assert!(c.get("https://www.youtube.com/watch?v=zzz").is_none());
}

#[test]
fn cache_add_entry_stamps_a_time() {
    let mut c = fresh();
    let e = c.add_entry("u".to_string(), "/c/vid.m4a".to_string(), "t".to_string(), 5);
    assert!(!e.downloaded_at.is_empty());
    assert_eq!(c.get("u").unwrap().downloaded_at, e.downloaded_at);
}

#[test]
fn cache_load_keeps_last_entry_per_url() {
    let mut c = fresh();
    let index = CacheIndex {
        entries: vec![entry("u1", "/c/a.m4a", "first"), entry("u2", "/c/b.m4a", "b"), entry("u1", "/c/c.m4a", "second")],
    };
    c.ensure_loaded(Some(index));
    assert_eq!(c.get("u1").unwrap().title, "second");
    assert_eq!(c.get("u2").unwrap().title, "b");
    // a second load is ignored once loaded
    c.ensure_loaded(Some(CacheIndex { entries: vec![] }));
    assert!(c.get("u1").is_some());
    let saved = c.to_index();
    assert_eq!(saved.entries.len(), 2);
}

#[test]
fn cache_failed_read_keeps_entries_and_marks_loaded() {
    let mut c = fresh();
    c.add_entry_at("u".to_string(), "/c/v.m4a".to_string(), "t".to_string(), "d".to_string(), 1);
    c.ensure_loaded(None);
    assert!(c.is_loaded());
    assert!(c.get("u").is_some());
}

#[test]
fn cache_save_then_load_round_trips() {
    let mut c = fresh();
    c.add_entry_at("u1".to_string(), "/c/a.m4a".to_string(), "A".to_string(), "d1".to_string(), 1);
    c.add_entry_at("u2".to_string(), "/c/b.m4a".to_string(), "B".to_string(), "d2".to_string(), 2);
    let saved = c.to_index();
    let mut d = fresh();
    d.ensure_loaded(Some(saved));
    assert_eq!(d.get("u1").unwrap().title, "A");
    assert_eq!(d.get("u2").unwrap().file_size, 2);
}

#[test]
fn cache_remove_by_video_id() {
    let mut c = fresh();
    c.add_entry_at("u1".to_string(), "/c/abc.m4a".to_string(), "A".to_string(), "d".to_string(), 1);
    match c.remove_entry_by_video_id("abc") {
        VideoRemoval::Removed { url, entry } => {
            assert_eq!(url, "u1");
            assert_eq!(entry.unwrap().cached_path, "/c/abc.m4a");
        }
        VideoRemoval::NotIndexed => panic!("expected a removal"),
    }
    assert!(c.get("u1").is_none());
    assert!(matches!(c.remove_entry_by_video_id("abc"), VideoRemoval::NotIndexed));
}

#[test]
fn cache_verify_integrity_drops_missing() {
    let mut c = fresh();
    c.add_entry_at("u1".to_string(), "/c/a.m4a".to_string(), "A".to_string(), "d".to_string(), 1);
    c.add_entry_at("u2".to_string(), "/c/b.m4a".to_string(), "B".to_string(), "d".to_string(), 1);
    c.verify_integrity(&vec!["u1".to_string(), "nope".to_string()]);
    assert!(c.get("u1").is_none());
    assert!(c.get("u2").is_some());
    assert!(matches!(c.remove_entry_by_video_id("a"), VideoRemoval::NotIndexed));
}

#[test]
fn cache_cleanup_keeps_used_and_discovery() {
    let mut c = fresh();
    c.add_entry_at("u1".to_string(), "/c/a.m4a".to_string(), "A".to_string(), "d".to_string(), 1);
    c.add_entry_at("u2".to_string(), "/c/b.m4a".to_string(), "B".to_string(), "d".to_string(), 1);
    c.add_entry_at("u3".to_string(), "/c/keep.m4a".to_string(), "C".to_string(), "d".to_string(), 1);
    let removed = c.cleanup_unused(&vec!["/c/a.m4a".to_string()], &vec!["keep".to_string()]);
    assert_eq!(removed.len(), 1);
    assert_eq!(removed[0].url, "u2");
    assert!(c.get("u1").is_some());
    assert!(c.get("u2").is_none());
    assert!(c.get("u3").is_some());
}

#[test]
fn cache_untracked_leftovers() {
    let mut c = fresh();
    c.add_entry_at("u1".to_string(), "/c/a.m4a".to_string(), "A".to_string(), "d".to_string(), 1);
    let used = vec!["/c/used.mp3".to_string()];
    let disc = vec!["promo".to_string()];
    assert!(c.is_untracked_leftover("/c/old.opus", "opus", &used, &disc));
    assert!(!c.is_untracked_leftover("/c/a.m4a", "m4a", &used, &disc));
    assert!(!c.is_untracked_leftover("/c/used.mp3", "mp3", &used, &disc));
    assert!(!c.is_untracked_leftover("/c/promo.webm", "webm", &used, &disc));
    assert!(!c.is_untracked_leftover("/c/cache_index.json", "json", &used, &disc));
    assert!(is_audio_extension("flac"));
    assert!(!is_audio_extension("txt"));
    assert!(listed(&used, "/c/used.mp3"));
    assert!(!listed(&used, "/c/other.mp3"));
}

#[test]
fn cache_unused_entry_and_leftover_by_stem() {
    let used = vec!["/c/used.mp3".to_string()];
    let disc = vec!["promo".to_string()];
    assert!(is_unused_entry("/c/x.m4a", Some("x"), &used, &disc));
    assert!(!is_unused_entry("/c/used.mp3", Some("used"), &used, &disc));
    assert!(!is_unused_entry("/c/promo.m4a", Some("promo"), &used, &disc));
    assert!(is_unused_entry("/c/noname", None, &used, &disc));
    let mut c = fresh();
    c.add_entry_at("u1".to_string(), "/c/a.m4a".to_string(), "A".to_string(), "d".to_string(), 1);
    assert!(c.leftover_with_stem("/c/z.webm", "webm", Some("z"), &used, &disc));
    assert!(!c.leftover_with_stem("/c/z.webm", "webm", Some("promo"), &used, &disc));
    assert!(!c.leftover_with_stem("/c/a.m4a", "m4a", Some("a"), &used, &disc));
    assert!(!c.leftover_with_stem("/c/z.txt", "txt", Some("z"), &used, &disc));
}

#[test]
fn cache_load_with_stems_indexes_video_ids() {
    let mut c = fresh();
    let index = CacheIndex {
        entries: vec![entry("u1", "/c/a.m4a", "A"), entry("u2", "/c/noext", "B"), entry("u3", "/c/a.webm", "C")],
    };
    let stems = vec![Some("a".to_string()), None, Some("a".to_string())];
    c.load_index_with_stems(index, &stems);
    match c.remove_entry_by_video_id("a") {
        VideoRemoval::Removed { url, entry } => {
            assert_eq!(url, "u3");
            assert_eq!(entry.unwrap().title, "C");
        }
        VideoRemoval::NotIndexed => panic!("expected a removal"),
    }
    assert!(c.get("u1").is_some());
    assert!(c.get("u2").is_some());
    assert!(matches!(c.remove_entry_by_video_id("noext"), VideoRemoval::NotIndexed));
}

#[test]
fn cache_load_indexes_file_stems() {
    let mut c = fresh();
    c.load_index(CacheIndex { entries: vec![entry("u1", "/c/xyz.m4a", "A")] });
    assert!(matches!(c.remove_entry_by_video_id("xyz"), VideoRemoval::Removed { .. }));
}

#[test]
fn cache_download_time_from_clock() {
    assert_eq!(rfc3339_of_clock(Ok((0, 0))), "1970-01-01T00:00:00+00:00");
    assert_eq!(rfc3339_of_clock(Ok((1431648000, 0))), "2015-05-15T00:00:00+00:00");
    assert_eq!(rfc3339_of_clock(Err((86400, 0))), "1969-12-31T00:00:00+00:00");
    assert_eq!(rfc3339_of_clock(Err((1, 500_000_000))), "1969-12-31T23:59:58.500+00:00");
    assert_eq!(rfc3339_of_clock(Ok((i64::MAX as u64, 0))), "");
    assert_eq!(rfc3339_of_clock(Ok((u64::MAX, 0))), "");
}

#[test]
fn profiles_and_discovery_caches_are_read() {
    let profile = r#"{"name": "P", "sounds": [
        {"source": {"type": "youtube", "cachedPath": "/c/a.m4a"}},
        {"source": {"type": "local", "path": "/x.mp3"}},
        {"source": {"type": "youtube"}},
        {"other": 1},
        {"source": {"type": "youtube", "cachedPath": "/c/b.m4a"}}
    ]}"#;
    assert_eq!(keytomusic::youtube_cache::profile_cached_paths(profile), vec!["/c/a.m4a", "/c/b.m4a"]);
    assert!(keytomusic::youtube_cache::profile_cached_paths("{").is_empty());
    assert!(keytomusic::youtube_cache::profile_cached_paths(r#"{"sounds": {}}"#).is_empty());
    let discovery = r#"{"suggestions": [{"videoId": "v1"}, {"title": "x"}, {"videoId": "v2"}]}"#;
    assert_eq!(keytomusic::youtube_cache::discovery_video_ids(discovery), vec!["v1", "v2"]);
    assert!(keytomusic::youtube_cache::discovery_video_ids("[]").is_empty());
}
