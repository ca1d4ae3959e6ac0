use keytomusic::youtube::{
    canonical_url, extract_video_id, has_playlist_param, is_pure_playlist, is_retryable_error, is_valid_youtube_url,
    parse_yt_dlp_error, progress_number_text, strip_playlist_param, text_lines,
};

#[test]
fn youtube_video_ids_from_all_link_forms() {
    assert_eq!(
        extract_video_id("https://www.youtube.com/watch?v=dQw4w9WgXcQ&list=PL1").as_deref(),
        Some("dQw4w9WgXcQ")
    );
    assert_eq!(extract_video_id("https://youtube.com/watch?v=dQw4w9WgXcQxyz").as_deref(), Some("dQw4w9WgXcQ"));
    assert_eq!(extract_video_id("https://youtu.be/abc-_12?t=3").as_deref(), Some("abc-_12"));
    assert_eq!(extract_video_id("https://www.youtube.com/shorts/Short_ID9").as_deref(), Some("Short_ID9"));
    assert_eq!(extract_video_id("https://example.com/page"), None);
    assert_eq!(extract_video_id("https://www.youtube.com/watch?v=&x=1"), None);
}

#[test]
fn youtube_link_validity_and_playlists() {
    assert!(is_valid_youtube_url("https://WWW.YOUTUBE.COM/watch?v=dQw4w9WgXcQ"));
    assert!(!is_valid_youtube_url("https://vimeo.com/watch?v=123"));
    assert!(!is_valid_youtube_url("https://www.youtube.com/playlist?list=PL123"));
    assert_eq!(canonical_url("abc"), "https://www.youtube.com/watch?v=abc");
    assert_eq!(
        strip_playlist_param("https://www.youtube.com/watch?v=dQw4w9WgXcQ&list=PL123"),
        "https://www.youtube.com/watch?v=dQw4w9WgXcQ"
    );
    assert_eq!(strip_playlist_param("not a link"), "not a link");
    assert!(has_playlist_param("https://www.youtube.com/playlist?list=PL123"));
    assert!(is_pure_playlist("https://www.youtube.com/playlist?list=PL123"));
    assert!(!is_pure_playlist("https://www.youtube.com/watch?v=dQw4w9WgXcQ&list=PL123"));
    assert!(is_pure_playlist("https://youtu.be/dQw4w9WgXcQ?list=PL123"));
    assert!(!is_pure_playlist("https://www.youtube.com/watch?v=dQw4w9WgXcQ"));
}

#[test]
fn youtube_error_messages() {
    assert!(is_retryable_error("ERROR: Connection reset by peer"));
    assert!(is_retryable_error("read operation TIMED OUT"));
    assert!(!is_retryable_error("ERROR: Private video"));
    assert_eq!(parse_yt_dlp_error("ERROR: Private video. Sign in"), "This video is private or requires sign-in");
    assert_eq!(parse_yt_dlp_error("Video unavailable"), "This video is not available");
    assert_eq!(parse_yt_dlp_error("ERROR: Unsupported URL: x"), "Invalid YouTube URL");
    assert_eq!(parse_yt_dlp_error("network is down"), "Network error. Check your internet connection");
    assert_eq!(parse_yt_dlp_error("blocked in your country"), "This video is not available in your region");
    assert_eq!(parse_yt_dlp_error("warning: a\nERROR:  disk full  \nmore"), "Download failed: ERROR:  disk full");
    assert_eq!(parse_yt_dlp_error("first line\nsecond"), "Download failed: first line");
    assert_eq!(parse_yt_dlp_error(""), "Download failed: Unknown error");
}

#[test]
fn youtube_progress_lines() {
    assert_eq!(progress_number_text("[download]  45.2% of 5.43MiB at 1.23MiB/s").as_deref(), Some("45.2"));
    assert_eq!(progress_number_text("[download] Destination: x.m4a"), None);
    assert_eq!(progress_number_text("100% done"), None);
}

#[test]
fn youtube_lines_split_like_str_lines() {
    assert_eq!(text_lines("a\r\nb\n\nc\n"), vec!["a", "b", "", "c"]);
    assert!(text_lines("").is_empty());
    assert_eq!(text_lines("\n"), vec![""]);
}

#[test]
fn youtube_ascii_ids_and_strip_twice() {
    assert_eq!(extract_video_id("https://www.youtube.com/watch?v=abcdefghijklmnop").as_deref(), Some("abcdefghijk"));
    assert_eq!(extract_video_id("https://youtu.be/abcdefghijklmnop").as_deref(), Some("abcdefghijklmnop"));
    assert_eq!(extract_video_id("https://www.youtube.com/shorts/ab.cd").as_deref(), Some("ab"));
    assert_eq!(extract_video_id("https://www.youtube.com/watch?v=&x=1"), None);
    let once = strip_playlist_param("https://www.youtube.com/watch?v=dQw4w9WgXcQ&list=PL123&index=2");
    assert_eq!(once, "https://www.youtube.com/watch?v=dQw4w9WgXcQ");
    assert_eq!(strip_playlist_param(&once), once);
}
