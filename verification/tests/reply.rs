use keytomusic::mood_parse::{
    parse_hybrid_response, parse_mood_intensity_response, parse_prediction, parse_structured_response,
};
use keytomusic::reply::{
    default_mood_categories, emotion_to_mood_fallback, extract_content, first_sentence, normalize_emotion, ChatReply,
    ContentPart, MessageContent,
};
use keytomusic::types::{BaseMood, MoodIntensity};

fn segments(text: &str) -> ChatReply {
    ChatReply {
        content: Some(MessageContent::Parts(vec![ContentPart::Object { text: Some(text.to_string()) }])),
        reasoning_content: None,
    }
}

fn plain(text: &str) -> ChatReply {
    ChatReply { content: Some(MessageContent::Text(text.to_string())), reasoning_content: None }
}

#[test]
fn extract_content_supports_segment_arrays() {
    let reply = segments("epic 2");
    assert_eq!(extract_content(&reply).as_deref(), Some("epic 2"));
}

#[test]
fn parse_mood_intensity_response_supports_segment_arrays() {
    let reply = segments("tension 3");
    let parsed = parse_mood_intensity_response(&reply).expect("segment array should parse");
    assert_eq!(parsed.mood, BaseMood::Tension);
    assert_eq!(parsed.intensity, MoodIntensity::High);
}

#[test]
fn reply_content_joins_parts_and_falls_back_to_reasoning() {
    let reply = ChatReply {
        content: Some(MessageContent::Parts(vec![
            ContentPart::Text("  first ".to_string()),
            ContentPart::Other,
            ContentPart::Object { text: None },
            ContentPart::Text("   ".to_string()),
            ContentPart::Object { text: Some("second".to_string()) },
        ])),
        reasoning_content: None,
    };
    assert_eq!(extract_content(&reply).as_deref(), Some("first\nsecond"));
    let empty = ChatReply {
        content: Some(MessageContent::Text("   ".to_string())),
        reasoning_content: Some(MessageContent::Text(" thought ".to_string())),
    };
    assert_eq!(extract_content(&empty).as_deref(), Some("thought"));
    let nothing = ChatReply { content: Some(MessageContent::Other), reasoning_content: None };
    assert_eq!(extract_content(&nothing), None);
}

#[test]
fn mood_parser_prefers_last_compact_answer() {
    let tag = parse_mood_intensity_response(&plain("<think>maybe comedy 1</think> Final: Horror 3")).unwrap();
    assert_eq!(tag.mood, BaseMood::Horror);
    assert_eq!(tag.intensity, MoodIntensity::High);
    let both = parse_mood_intensity_response(&plain("sadness 1 ... then epic 2")).unwrap();
    assert_eq!(both.mood, BaseMood::Epic);
    assert_eq!(both.intensity, MoodIntensity::Medium);
}

#[test]
fn mood_parser_reads_fields_and_keywords() {
    let fields = parse_mood_intensity_response(&plain("Mood: romance, Intensity: 1")).unwrap();
    assert_eq!(fields.mood, BaseMood::Romance);
    assert_eq!(fields.intensity, MoodIntensity::Low);
    let reversed = parse_mood_intensity_response(&plain("intensity: 3; mood: mystery")).unwrap();
    assert_eq!(reversed.mood, BaseMood::Mystery);
    assert_eq!(reversed.intensity, MoodIntensity::High);
    let keyword = parse_mood_intensity_response(&plain("It feels peaceful, intensity = 1, overall calm")).unwrap();
    assert_eq!(keyword.mood, BaseMood::Peaceful);
    assert_eq!(keyword.intensity, MoodIntensity::Low);
    let bare = parse_mood_intensity_response(&plain("probably comedy")).unwrap();
    assert_eq!(bare.intensity, MoodIntensity::Medium);
}

#[test]
fn mood_parser_errors() {
    let none = ChatReply { content: None, reasoning_content: None };
    assert_eq!(parse_mood_intensity_response(&none).unwrap_err(), "No content in response");
    assert_eq!(parse_mood_intensity_response(&plain("Nothing Here")).unwrap_err(), "No mood found in response: 'nothing here'");
    let long = "x".repeat(100);
    let err = parse_mood_intensity_response(&plain(&long)).unwrap_err();
    assert_eq!(err, format!("No mood found in response: '{}'", "x".repeat(80)));
}

#[test]
fn prediction_falls_back_to_keywords() {
    assert_eq!(parse_prediction(&plain("tension 2")), Ok((BaseMood::Tension, MoodIntensity::Medium)));
    assert_eq!(parse_prediction(&plain("Horror")), Ok((BaseMood::Horror, MoodIntensity::Medium)));
    assert_eq!(
        parse_prediction(&plain("?")),
        Err("No mood found in response: '?'".to_string())
    );
}

#[test]
fn structured_response_fields_and_defaults() {
    let text = "<think>x</think>EMOTION:  Sadness \nINTENSITY: 14\nNARRATIVE: a Flashback scene\nATMOSPHERE: dark, quiet \nCONTENT: A memory.";
    let f = parse_structured_response(text).expect("emotion present");
    assert_eq!(f.emotion, "sadness");
    assert_eq!(f.intensity, 10);
    assert_eq!(f.narrative, "flashback");
    assert_eq!(f.atmosphere, "dark, quiet");
    assert_eq!(f.content, "A memory.");
    let minimal = parse_structured_response("emotion: JOY").unwrap();
    assert_eq!(minimal.intensity, 5);
    assert_eq!(minimal.narrative, "present");
    assert_eq!(minimal.atmosphere, "neutral");
    assert_eq!(minimal.content, "Unknown content");
    assert_eq!(
        parse_structured_response("no fields").unwrap_err(),
        "EMOTION field not found in: 'no fields'"
    );
}

#[test]
fn hybrid_response_mood_fallbacks() {
    let h = parse_hybrid_response("MOOD: tension\nEMOTION: Rage\nINTENSITY: 0").unwrap();
    assert_eq!(h.mood, BaseMood::Tension);
    assert_eq!(h.features.emotion, "anger");
    assert_eq!(h.features.intensity, 1);
    let scanned = parse_hybrid_response("MOOD: mostly epic, then sadness").unwrap();
    assert_eq!(scanned.mood, BaseMood::Sadness);
    assert_eq!(scanned.features.emotion, "neutral");
    let from_emotion = parse_hybrid_response("EMOTION: stunned").unwrap();
    assert_eq!(from_emotion.mood, BaseMood::Tension);
    assert_eq!(from_emotion.features.emotion, "shock");
}

#[test]
fn emotions_are_normalized() {
    assert_eq!(normalize_emotion("  Joy "), "joy");
    assert_eq!(normalize_emotion("SURPRISED"), "shock");
    assert_eq!(normalize_emotion("happy"), "joy");
    assert_eq!(normalize_emotion("ambitious"), "determination");
    assert_eq!(normalize_emotion("regret"), "nostalgia");
    assert_eq!(normalize_emotion("grief"), "sadness");
    assert_eq!(normalize_emotion("dread"), "fear");
    assert_eq!(normalize_emotion("hostile"), "anger");
    assert_eq!(normalize_emotion("boredom"), "neutral");
    assert_eq!(emotion_to_mood_fallback("joy"), BaseMood::Comedy);
    assert_eq!(emotion_to_mood_fallback("fear"), BaseMood::Horror);
    assert_eq!(emotion_to_mood_fallback("determination"), BaseMood::Epic);
    assert_eq!(emotion_to_mood_fallback("whatever"), BaseMood::Peaceful);
}

#[test]
fn sentences_and_categories() {
    assert_eq!(first_sentence("He runs. Then stops!"), "He runs.");
    assert_eq!(first_sentence("Who? Me"), "Who?");
    assert_eq!(first_sentence("no end"), "no end");
    let cats = default_mood_categories();
    assert_eq!(cats.len(), 8);
    assert_eq!(cats[0], ("epic", "Heroic moments, battles, triumph, power display"));
    assert_eq!(cats[7].0, "mystery");
}

#[test]
fn trim_follows_unicode_white_space() {
    assert_eq!(keytomusic::text::trim("\u{3000}\t a b \u{2028}\u{85}\u{a0}"), "a b");
    assert_eq!(keytomusic::text::trim("\u{200b}x"), "\u{200b}x");
    for c in ['\u{1680}', '\u{2000}', '\u{200a}', '\u{2029}', '\u{202f}', '\u{205f}', '\u{0b}', '\u{0c}'] {
        let s = format!("{}y{}", c, c);
        assert_eq!(keytomusic::text::trim(&s), "y");
        assert!(c.is_whitespace());
    }
}

#[test]
fn reply_string_content_only() {
    let r = keytomusic::reply::ChatReply { content: Some(keytomusic::reply::MessageContent::Text("hi".to_string())), reasoning_content: None };
    assert_eq!(keytomusic::reply::content_string(&r).as_deref(), Some("hi"));
    let p = keytomusic::reply::ChatReply { content: Some(keytomusic::reply::MessageContent::Parts(vec![])), reasoning_content: None };
    assert_eq!(keytomusic::reply::content_string(&p), None);
    let n = keytomusic::reply::ChatReply { content: None, reasoning_content: None };
    assert_eq!(keytomusic::reply::content_string(&n), None);
}
