use keytomusic::yt_listing::{
    is_gone_title, listed_video, parse_stream_output, playlist_line, search_max, search_query,
    stream_failure_message, stream_link_fresh, DumpedVideo, JsonField, ThumbValue,
};

fn text(s: &str) -> JsonField {
    JsonField::Text(s.to_string())
}

fn dumped(id: &str, title: &str) -> DumpedVideo {
    DumpedVideo {
        id: text(id),
        title: text(title),
        channel: JsonField::Absent,
        uploader: text("Uploader"),
        thumbnail: None,
        thumbnails_last: Some(ThumbValue::Object(text("https://i.ytimg.com/last.jpg"))),
        playlist_title: JsonField::Absent,
        playlist: text("My list"),
    }
}

#[test]
fn listing_reads_dumped_fields() {
    let v = listed_video(&dumped("abc", "Song")).unwrap();
    assert_eq!(v.video_id, "abc");
    assert_eq!(v.title, "Song");
    assert_eq!(v.channel, "Uploader");
    assert_eq!(v.thumbnail_url, "https://i.ytimg.com/last.jpg");
    assert_eq!(v.url, "https://www.youtube.com/watch?v=abc");
    let mut other = dumped("abc", "Song");
    other.title = JsonField::NotText;
    other.channel = JsonField::NotText;
    other.thumbnail = Some(ThumbValue::Link("https://t/1.jpg".to_string()));
    let v = listed_video(&other).unwrap();
    assert_eq!(v.title, "Unknown");
    assert_eq!(v.channel, "");
    assert_eq!(v.thumbnail_url, "https://t/1.jpg");
    assert!(listed_video(&dumped("", "x")).is_none());
}

#[test]
fn playlist_skips_gone_videos_but_takes_title() {
    let mut title = String::new();
    assert!(playlist_line(&mut title, &dumped("", "x")).is_none());
    assert_eq!(title, "");
    assert!(playlist_line(&mut title, &dumped("a1", "[Deleted video]")).is_none());
    assert_eq!(title, "My list");
    let kept = playlist_line(&mut title, &dumped("a2", "Track")).unwrap();
    assert_eq!(kept.video_id, "a2");
    assert!(is_gone_title("[PRIVATE VIDEO]"));
    assert!(is_gone_title("x [unavailable]"));
    assert!(!is_gone_title("Fine"));
}

#[test]
fn search_terms() {
    assert_eq!(search_max(0), 1);
    assert_eq!(search_max(7), 7);
    assert_eq!(search_max(50), 20);
    assert_eq!(search_query(5, "lofi beats"), "ytsearch5:lofi beats");
}

#[test]
fn stream_output_lines() {
    let f = parse_stream_output("  https://cdn/x\n212.5\nwebm\n").unwrap();
    assert_eq!(f.url, "https://cdn/x");
    assert_eq!(f.duration_text.as_deref(), Some("212.5"));
    assert_eq!(f.format, "webm");
    let g = parse_stream_output("https://cdn/y").unwrap();
    assert_eq!(g.duration_text, None);
    assert_eq!(g.format, "m4a");
    assert_eq!(parse_stream_output("  \n ").unwrap_err(), "No output from yt-dlp stream extraction");
    assert_eq!(parse_stream_output("\nx").unwrap().url, "x");
    assert_eq!(stream_failure_message("  boom \n"), "yt-dlp stream extraction failed: boom");
    assert!(stream_link_fresh(14_399));
    assert!(!stream_link_fresh(14_400));
}

#[test]
fn dumped_lines_are_read_from_json() {
    let line = r#"  {"id": "abc", "title": "Song", "uploader": "Up", "duration": 212.5, "thumbnails": [{"url": "t0"}, {"url": "t1"}]}  "#;
    let (v, duration) = keytomusic::yt_listing::search_line(line).unwrap();
    assert_eq!(v.video_id, "abc");
    assert_eq!(v.title, "Song");
    assert_eq!(v.channel, "Up");
    assert_eq!(v.thumbnail_url, "t1");
    assert_eq!(v.url, "https://www.youtube.com/watch?v=abc");
    assert_eq!(duration.as_deref(), Some("212.5"));
    let with_thumb = r#"{"id": "x", "thumbnail": "direct", "channel": "C", "uploader": "U"}"#;
    let (w, d) = keytomusic::yt_listing::search_line(with_thumb).unwrap();
    assert_eq!(w.thumbnail_url, "direct");
    assert_eq!(w.channel, "C");
    assert_eq!(w.title, "Unknown");
    assert!(d.is_none());
    assert!(keytomusic::yt_listing::search_line("   ").is_none());
    assert!(keytomusic::yt_listing::search_line("not json").is_none());
    assert!(keytomusic::yt_listing::search_line(r#"{"title": "no id"}"#).is_none());
}

#[test]
fn playlist_entries_take_title_and_skip_gone_videos() {
    let mut title = String::new();
    assert!(keytomusic::yt_listing::playlist_entry(&mut title, "garbage").is_none());
    assert_eq!(title, "");
    let first = r#"{"id": "a1", "title": "[Deleted video]", "playlist_title": "Mix"}"#;
    assert!(keytomusic::yt_listing::playlist_entry(&mut title, first).is_none());
    assert_eq!(title, "Mix");
    let second = r#"{"id": "b2", "title": "Good", "playlist_title": "Other", "duration": 60}"#;
    let (v, d) = keytomusic::yt_listing::playlist_entry(&mut title, second).unwrap();
    assert_eq!(v.video_id, "b2");
    assert_eq!(d.as_deref(), Some("60"));
    assert_eq!(title, "Mix");
}
