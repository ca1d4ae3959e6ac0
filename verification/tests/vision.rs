use keytomusic::vision::{encoding_mime, page_encoding, unparsed_window_error, ImageRole, PageEncoding, PrepMode};

#[test]
fn page_encodings_by_mode_and_role() {
    assert_eq!(page_encoding(PrepMode::Legacy672Jpeg, ImageRole::Center), PageEncoding::Jpeg672);
    assert_eq!(page_encoding(PrepMode::CenterPng1024, ImageRole::Center), PageEncoding::Png1024);
    assert_eq!(page_encoding(PrepMode::CenterPng1024, ImageRole::Context), PageEncoding::Jpeg672);
    assert_eq!(page_encoding(PrepMode::AllPng1024, ImageRole::Context), PageEncoding::Png1024);
    assert_eq!(encoding_mime(PageEncoding::Jpeg672), "image/jpeg");
    assert_eq!(encoding_mime(PageEncoding::Png1024), "image/png");
}

#[test]
fn unparsed_window_reply_is_quoted_on_one_line() {
    assert_eq!(
        unparsed_window_error(Some("line one\nline two")),
        "Failed to parse visible-window prediction. Raw model output: line one line two"
    );
    assert_eq!(
        unparsed_window_error(None),
        "Failed to parse visible-window prediction. Raw model output: <no content>"
    );
    let long = "é".repeat(200);
    let m = unparsed_window_error(Some(&long));
    assert_eq!(m, format!("Failed to parse visible-window prediction. Raw model output: {}", "é".repeat(120)));
}
