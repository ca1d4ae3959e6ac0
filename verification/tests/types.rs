use keytomusic::types::{
    default_chord_window_ms, default_mood_api_port, default_mood_dwell_pages, default_mood_window_size, BaseMood,
    MomentumModifier, MoodIntensity,
};

#[test]
fn base_mood_names_and_indices_round_trip() {
    for (i, mood) in BaseMood::ALL.iter().enumerate() {
        assert_eq!(mood.index(), i);
        assert_eq!(BaseMood::from_index(i), *mood);
        assert_eq!(BaseMood::from_str_opt(mood.as_str()), Some(*mood));
    }
    assert_eq!(BaseMood::from_index(42), BaseMood::Peaceful);
    assert_eq!(BaseMood::from_str_opt("epic_battle"), Some(BaseMood::Epic));
    assert_eq!(BaseMood::from_str_opt("chase_action"), Some(BaseMood::Tension));
    assert_eq!(BaseMood::from_str_opt("Epic"), None);
}

#[test]
fn intensity_levels() {
    assert_eq!(MoodIntensity::from_u8(0), MoodIntensity::Low);
    assert_eq!(MoodIntensity::from_u8(2), MoodIntensity::Medium);
    assert_eq!(MoodIntensity::from_u8(9), MoodIntensity::High);
    assert_eq!(MoodIntensity::High.as_u8(), 3);
    assert_eq!(MoodIntensity::Low.as_str(), "low");
}

#[test]
fn config_defaults() {
    assert_eq!(default_chord_window_ms(), 30);
    assert_eq!(default_mood_api_port(), 8765);
    assert_eq!(default_mood_dwell_pages(), 2);
    assert_eq!(default_mood_window_size(), 5);
    assert_eq!(MomentumModifier::default(), MomentumModifier::Shift);
}
