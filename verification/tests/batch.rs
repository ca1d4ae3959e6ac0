use keytomusic::mood_parse::{parse_page_moods, PageFeatures};
use keytomusic::prompts::{
    context_prompt, correction_prompt, descriptions_batch_prompt, features_batch_prompt, labels_refinement_prompt,
    summary_prompt, CONTEXT_TAIL,
};
use keytomusic::types::BaseMood;

#[test]
fn batch_reply_page_moods() {
    let reply = "<think>PAGE 9: epic</think>\nPAGE 1: Tension\npage 2: mood = comedy\nMOOD 3: unknownword\nPAGE 4: sadness";
    let v = parse_page_moods(reply, "classify_batch").unwrap();
    assert_eq!(v, vec![(1, BaseMood::Tension), (2, BaseMood::Comedy), (4, BaseMood::Sadness)]);
    let alias = parse_page_moods("PAGE 7: epic_battle", "refinement").unwrap();
    assert_eq!(alias, vec![(7, BaseMood::Epic)]);
    let err = parse_page_moods("nothing useful", "correction").unwrap_err();
    assert_eq!(err, "No moods parsed from correction: 'nothing useful'");
}

#[test]
fn batch_reply_error_is_cut_at_300_bytes() {
    let long = "x".repeat(400);
    let err = parse_page_moods(&long, "classify_batch").unwrap_err();
    assert_eq!(err, format!("No moods parsed from classify_batch: '{}'", "x".repeat(300)));
}

#[test]
fn features_prompt_lists_categories_and_pages() {
    assert_eq!(features_batch_prompt(&vec![], &vec![]), None);
    let f = PageFeatures {
        emotion: "fear".to_string(),
        intensity: 7,
        narrative: "present".to_string(),
        atmosphere: "dark alley".to_string(),
        content: "A chase".to_string(),
    };
    let p = features_batch_prompt(
        &vec![(3, f)],
        &vec![("tension".to_string(), "suspense and danger".to_string())],
    )
    .unwrap();
    assert!(p.starts_with("You are a manga soundtrack director."));
    assert!(p.contains("CATEGORIES:\n- tension: suspense and danger\n\nPAGES:\n"));
    assert!(p.contains(
        "Page 3:  EMOTION=fear(7) NARRATIVE=present ATMOSPHERE=dark alley\n         CONTENT=\"A chase\"\n\nRULES:\n"
    ));
    assert!(p.ends_with("For each page, output: PAGE N: category"));
}

#[test]
fn text_batch_prompts() {
    assert_eq!(descriptions_batch_prompt(&vec![]), None);
    let d = descriptions_batch_prompt(&vec![(1, "A fight".to_string()), (2, "Tears".to_string())]).unwrap();
    assert!(d.contains("soundtrack purposes.\n\nPage 1: \"A fight\"\nPage 2: \"Tears\"\n\nCategories: epic"));
    assert!(d.ends_with("For each page, output: PAGE N: mood"));
    let l = labels_refinement_prompt(&vec![(4, "tension".to_string())]).unwrap();
    assert!(l.contains("vision AI model.\n\nPage 4: tension\n\nFor each page, determine the FINAL mood"));
    let c = correction_prompt(&vec![(5, "epic".to_string(), "He wins".to_string())]).unwrap();
    assert!(c.contains("Pages:\nPage 5: mood=epic | \"He wins\"\n\nFor each page, reply: PAGE N: mood"));
    assert_eq!(correction_prompt(&vec![]), None);
    let s = summary_prompt(&vec![(1, "x".to_string())]).unwrap();
    assert!(s.starts_with("Here are descriptions of consecutive manga pages:\n\nPage 1: x\n\n\nSummarize"));
    assert_eq!(context_prompt(&vec![], &vec![], ""), CONTEXT_TAIL);
    let ctx = context_prompt(&vec![(3, "prev".to_string())], &vec![(5, "next".to_string())], "arc");
    assert!(ctx.starts_with(
        "Narrative arc of earlier pages:\narc\n\nPrevious pages (detailed):\n- Page 3: \"prev\"\n\nUpcoming pages:\n- Page 5: next\n\nLook at this manga page."
    ));
}

#[test]
fn summary_text_drops_thinking_and_whitespace() {
    assert_eq!(keytomusic::mood_parse::summary_text("<think>plan</think>\n  The hero wins. \n"), "The hero wins.");
    assert_eq!(keytomusic::mood_parse::summary_text("  plain  "), "plain");
}
