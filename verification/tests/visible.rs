use keytomusic::pipeline::ActionPage;
use keytomusic::types::{BaseMood, MoodIntensity};
use keytomusic::visible::VisibleWindow;
use keytomusic::winner::{wide_context_indices, WindowPrediction};

fn pages(range: std::ops::Range<u32>) -> Vec<ActionPage> {
    range.map(|p| ActionPage { page: p, raw_bytes: vec![p as u8] }).collect()
}

#[test]
fn visible_window_needs_a_complete_window() {
    match VisibleWindow::start(1, 10, pages(0..2)) {
        Err(e) => assert_eq!(e, "Visible winner window is incomplete. Need a wider local chapter neighborhood."),
        Ok(_) => panic!("two pages cannot fill a five-page window"),
    }
}

#[test]
fn visible_window_votes_and_finishes() {
    let mut w = VisibleWindow::start(2, 5, pages(0..5)).unwrap();
    assert!(!w.window_centers.is_empty());
    assert_eq!(w.page_order, vec![0, 1, 2, 3, 4]);
    let votes: Vec<WindowPrediction> = w
        .window_centers
        .iter()
        .map(|&c| WindowPrediction {
            members: wide_context_indices(c, 5),
            center: c,
            mood: BaseMood::Tension,
            intensity: MoodIntensity::High,
        })
        .collect();
    let _plans = w.aggregate(&votes);
    let local = w.local_triplet(2).unwrap();
    assert_eq!((local.left.page, local.center.page, local.right.page), (1, 2, 3));
    let verdict = w.finish().unwrap();
    assert_eq!(verdict.mood, BaseMood::Tension);
    assert_eq!(verdict.intensity, MoodIntensity::High);
    match w.finish() {
        Err(e) => assert_eq!(e, "Visible page 3 not produced by winner aggregation"),
        Ok(_) => panic!("the verdict was already taken"),
    }
}

#[test]
fn visible_window_later_member_wins() {
    let mut members = pages(0..5);
    members.push(ActionPage { page: 2, raw_bytes: vec![99] });
    let w = VisibleWindow::start(2, 5, members).unwrap();
    assert_eq!(w.member(2).unwrap().raw_bytes, vec![99]);
    assert!(w.member(7).is_none());
}
