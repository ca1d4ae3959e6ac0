use keytomusic::yt_download::{
    download_target, download_title, failure_outcome, is_error_line, is_processing_line, is_video_file,
    join_lines, pick_downloaded_file, AttemptOutcome, MAX_DOWNLOAD_ATTEMPTS,
};

#[test]
fn download_target_uses_canonical_link() {
    let t = download_target("https://www.youtube.com/watch?v=dQw4w9WgXcQ&list=PL1&pp=x").unwrap();
    assert_eq!(t.video_id, "dQw4w9WgXcQ");
    assert_eq!(t.cache_url, "https://www.youtube.com/watch?v=dQw4w9WgXcQ");
    assert_eq!(download_target("https://vimeo.com/123").err().unwrap(), "Invalid YouTube URL");
}

#[test]
fn download_line_kinds() {
    assert!(is_error_line("ERROR: [youtube] abc: Video unavailable"));
    assert!(is_error_line("some error: happened"));
    assert!(!is_error_line("[download]  12.0% of 3MiB"));
    assert!(is_processing_line("[FixupM4a] Correcting container"));
    assert!(is_processing_line("[Remux] Remuxing"));
    assert!(!is_processing_line("[download] Destination: x.m4a"));
}

#[test]
fn download_failures_retry_then_give_up() {
    let net = vec!["ERROR: Unable to download webpage: connection reset".to_string()];
    assert!(matches!(failure_outcome(1, &net), AttemptOutcome::Retry));
    match failure_outcome(MAX_DOWNLOAD_ATTEMPTS, &net) {
        AttemptOutcome::Fail(m) => assert_eq!(m, "Network error. Check your internet connection"),
        AttemptOutcome::Retry => panic!("no attempts left"),
    }
    let private = vec!["ERROR: Private video. Sign in if you've been granted access".to_string()];
    match failure_outcome(1, &private) {
        AttemptOutcome::Fail(m) => assert_eq!(m, "This video is private or requires sign-in"),
        AttemptOutcome::Retry => panic!("not a network failure"),
    }
    match failure_outcome(2, &vec![]) {
        AttemptOutcome::Fail(m) => assert_eq!(m, "Download failed. Check the URL and try again."),
        AttemptOutcome::Retry => panic!("nothing to retry on"),
    }
    assert_eq!(join_lines(&vec!["a".to_string(), "b".to_string()]), "a\nb");
    assert_eq!(join_lines(&vec![]), "");
}

#[test]
fn download_title_falls_back_to_id() {
    assert_eq!(download_title(Some("Song"), "abc"), "Song");
    assert_eq!(download_title(Some(""), "abc"), "abc");
    assert_eq!(download_title(None, "abc"), "abc");
}

#[test]
fn downloaded_file_prefers_exact_names() {
    let names = vec![
        "abc.info.json".to_string(),
        "abc-old.opus".to_string(),
        "abc.webm".to_string(),
        "abc.m4a".to_string(),
    ];
    assert_eq!(pick_downloaded_file("abc", &names).unwrap(), "abc.m4a");
    let partial = vec!["zzz.m4a".to_string(), "abc.f140.opus".to_string()];
    assert_eq!(pick_downloaded_file("abc", &partial).unwrap(), "abc.f140.opus");
    assert_eq!(
        pick_downloaded_file("abc", &vec!["abc.info.json".to_string()]).unwrap_err(),
        "Downloaded file not found for video abc"
    );
    assert!(is_video_file("abc.m4a.part", "abc"));
    assert!(!is_video_file("xabc.m4a", "abc"));
}

#[test]
fn download_title_from_info_file() {
    assert_eq!(keytomusic::yt_download::info_json_title(r#"{"title": "Theme", "id": "v"}"#).as_deref(), Some("Theme"));
    assert_eq!(keytomusic::yt_download::info_json_title(r#"{"title": 5}"#), None);
    assert_eq!(keytomusic::yt_download::info_json_title("{broken"), None);
    assert_eq!(keytomusic::yt_download::title_from_info(Some(r#"{"title": "Theme"}"#), "vid"), "Theme");
    assert_eq!(keytomusic::yt_download::title_from_info(Some(r#"{"title": ""}"#), "vid"), "vid");
    assert_eq!(keytomusic::yt_download::title_from_info(Some("nope"), "vid"), "vid");
    assert_eq!(keytomusic::yt_download::title_from_info(None, "vid"), "vid");
}
