//! The mood vocabulary: base moods, intensities and the data types of a soundboard profile.

use vstd::prelude::*;

use crate::text::str_eq;

verus! {

/// Base mood axis: eight values.
#[derive(Debug, Clone, Copy, PartialEq, Eq, Hash, Structural)]
pub enum BaseMood {
    Epic,
    Tension,
    Sadness,
    Comedy,
    Romance,
    Horror,
    Peaceful,
    Mystery,
}

/// Position of a mood in the fixed mood order (epic, tension, sadness, comedy,
/// romance, horror, peaceful, mystery).
pub open spec fn mood_idx(m: BaseMood) -> nat {
    match m {
        BaseMood::Epic => 0,
        BaseMood::Tension => 1,
        BaseMood::Sadness => 2,
        BaseMood::Comedy => 3,
        BaseMood::Romance => 4,
        BaseMood::Horror => 5,
        BaseMood::Peaceful => 6,
        BaseMood::Mystery => 7,
    }
}

/// The mood at a position of the mood order; positions past the end give peaceful.
pub open spec fn mood_at(i: int) -> BaseMood {
    if i == 0 {
        BaseMood::Epic
    } else if i == 1 {
        BaseMood::Tension
    } else if i == 2 {
        BaseMood::Sadness
    } else if i == 3 {
        BaseMood::Comedy
    } else if i == 4 {
        BaseMood::Romance
    } else if i == 5 {
        BaseMood::Horror
    } else if i == 6 {
        BaseMood::Peaceful
    } else if i == 7 {
        BaseMood::Mystery
    } else {
        BaseMood::Peaceful
    }
}

/// The lowercase name of a mood.
pub open spec fn mood_name(m: BaseMood) -> Seq<char> {
    match m {
        BaseMood::Epic => "epic"@,
        BaseMood::Tension => "tension"@,
        BaseMood::Sadness => "sadness"@,
        BaseMood::Comedy => "comedy"@,
        BaseMood::Romance => "romance"@,
        BaseMood::Horror => "horror"@,
        BaseMood::Peaceful => "peaceful"@,
        BaseMood::Mystery => "mystery"@,
    }
}

/// Mood named by a text: the eight names, plus the legacy names
/// `epic_battle` (epic) and `chase_action` (tension).
pub open spec fn mood_from_name(s: Seq<char>) -> Option<BaseMood> {
    if s == "epic"@ {
        Some(BaseMood::Epic)
    } else if s == "tension"@ {
        Some(BaseMood::Tension)
    } else if s == "sadness"@ {
        Some(BaseMood::Sadness)
    } else if s == "comedy"@ {
        Some(BaseMood::Comedy)
    } else if s == "romance"@ {
        Some(BaseMood::Romance)
    } else if s == "horror"@ {
        Some(BaseMood::Horror)
    } else if s == "peaceful"@ {
        Some(BaseMood::Peaceful)
    } else if s == "mystery"@ {
        Some(BaseMood::Mystery)
    } else if s == "epic_battle"@ {
        Some(BaseMood::Epic)
    } else if s == "chase_action"@ {
        Some(BaseMood::Tension)
    } else {
        None
    }
}

impl BaseMood {
    pub const ALL: [BaseMood; 8] = [
        BaseMood::Epic,
        BaseMood::Tension,
        BaseMood::Sadness,
        BaseMood::Comedy,
        BaseMood::Romance,
        BaseMood::Horror,
        BaseMood::Peaceful,
        BaseMood::Mystery,
    ];

    pub fn index(&self) -> (i: usize)
        ensures
            i == mood_idx(*self),
            i < 8,
    {
        match self {
            BaseMood::Epic => 0,
            BaseMood::Tension => 1,
            BaseMood::Sadness => 2,
            BaseMood::Comedy => 3,
            BaseMood::Romance => 4,
            BaseMood::Horror => 5,
            BaseMood::Peaceful => 6,
            BaseMood::Mystery => 7,
        }
    }

    pub fn from_index(i: usize) -> (m: Self)
        ensures
            m == mood_at(i as int),
    {
        if i == 0 {
            BaseMood::Epic
        } else if i == 1 {
            BaseMood::Tension
        } else if i == 2 {
            BaseMood::Sadness
        } else if i == 3 {
            BaseMood::Comedy
        } else if i == 4 {
            BaseMood::Romance
        } else if i == 5 {
            BaseMood::Horror
        } else if i == 6 {
            BaseMood::Peaceful
        } else if i == 7 {
            BaseMood::Mystery
        } else {
            BaseMood::Peaceful
        }
    }

    pub fn as_str(&self) -> (s: &'static str)
        ensures
            s@ == mood_name(*self),
    {
        match self {
            BaseMood::Epic => "epic",
            BaseMood::Tension => "tension",
            BaseMood::Sadness => "sadness",
            BaseMood::Comedy => "comedy",
            BaseMood::Romance => "romance",
            BaseMood::Horror => "horror",
            BaseMood::Peaceful => "peaceful",
            BaseMood::Mystery => "mystery",
        }
    }

    pub fn from_str_opt(s: &str) -> (r: Option<Self>)
        ensures
            r == mood_from_name(s@),
    {
        if str_eq(s, "epic") {
            Some(BaseMood::Epic)
        } else if str_eq(s, "tension") {
            Some(BaseMood::Tension)
        } else if str_eq(s, "sadness") {
            Some(BaseMood::Sadness)
        } else if str_eq(s, "comedy") {
            Some(BaseMood::Comedy)
        } else if str_eq(s, "romance") {
            Some(BaseMood::Romance)
        } else if str_eq(s, "horror") {
            Some(BaseMood::Horror)
        } else if str_eq(s, "peaceful") {
            Some(BaseMood::Peaceful)
        } else if str_eq(s, "mystery") {
            Some(BaseMood::Mystery)
        } else if str_eq(s, "epic_battle") {
            Some(BaseMood::Epic)
        } else if str_eq(s, "chase_action") {
            Some(BaseMood::Tension)
        } else {
            None
        }
    }
}

/// Mood index and mood order invert each other.
pub proof fn lemma_mood_index_roundtrip(m: BaseMood)
    ensures
        mood_at(mood_idx(m) as int) == m,
        mood_idx(m) < 8,
{
}

/// Every mood name parses back to the same mood.
pub proof fn lemma_mood_name_roundtrip(m: BaseMood)
    ensures
        mood_from_name(mood_name(m)) == Some(m),
{
    reveal_strlit("epic");
    reveal_strlit("tension");
    reveal_strlit("sadness");
    reveal_strlit("comedy");
    reveal_strlit("romance");
    reveal_strlit("horror");
    reveal_strlit("peaceful");
    reveal_strlit("mystery");
    assert("epic"@[0] == 'e');
    assert("tension"@[0] == 't');
    assert("sadness"@[0] == 's');
    assert("comedy"@[0] == 'c');
    assert("romance"@[0] == 'r');
    assert("horror"@[0] == 'h');
    assert("peaceful"@[0] == 'p');
    assert("mystery"@[0] == 'm');
}

/// Intensity axis: three levels.
#[derive(Debug, Clone, Copy, PartialEq, Eq, Hash, Structural)]
pub enum MoodIntensity {
    Low,
    Medium,
    High,
}

/// Numeric level of an intensity (1 to 3).
pub open spec fn intensity_level(i: MoodIntensity) -> nat {
    match i {
        MoodIntensity::Low => 1,
        MoodIntensity::Medium => 2,
        MoodIntensity::High => 3,
    }
}

/// Intensity of a numeric level: 0 and 1 are low, 2 medium, anything above high.
pub open spec fn intensity_of_level(n: nat) -> MoodIntensity {
    if n <= 1 {
        MoodIntensity::Low
    } else if n == 2 {
        MoodIntensity::Medium
    } else {
        MoodIntensity::High
    }
}

pub open spec fn intensity_name(i: MoodIntensity) -> Seq<char> {
    match i {
        MoodIntensity::Low => "low"@,
        MoodIntensity::Medium => "medium"@,
        MoodIntensity::High => "high"@,
    }
}

impl MoodIntensity {
    pub fn as_u8(&self) -> (n: u8)
        ensures
            n == intensity_level(*self),
    {
        match self {
            MoodIntensity::Low => 1,
            MoodIntensity::Medium => 2,
            MoodIntensity::High => 3,
        }
    }

    pub fn from_u8(n: u8) -> (i: Self)
        ensures
            i == intensity_of_level(n as nat),
    {
        if n <= 1 {
            MoodIntensity::Low
        } else if n == 2 {
            MoodIntensity::Medium
        } else {
            MoodIntensity::High
        }
    }

    pub fn as_str(&self) -> (s: &'static str)
        ensures
            s@ == intensity_name(*self),
    {
        match self {
            MoodIntensity::Low => "low",
            MoodIntensity::Medium => "medium",
            MoodIntensity::High => "high",
        }
    }
}

/// An intensity survives the trip through its numeric level.
pub proof fn lemma_intensity_level_roundtrip(i: MoodIntensity)
    ensures
        intensity_of_level(intensity_level(i)) == i,
        1 <= intensity_level(i) <= 3,
{
}

/// The former name of the base mood, still used by stored profiles.
pub type MoodCategory = BaseMood;

/// Combined mood and intensity tag.
#[derive(Debug, Clone, Copy, PartialEq, Eq, Hash, Structural)]
pub struct MoodTag {
    pub mood: BaseMood,
    pub intensity: MoodIntensity,
}

/// Where a sound's audio comes from.
#[derive(Debug, Clone)]
pub enum SoundSource {
    Local { path: String },
    YouTube { url: String, cached_path: String },
}

/// How a key binding cycles through its sounds.
#[derive(Debug, Clone, Copy, PartialEq, Eq, Structural)]
pub enum LoopMode {
    Off,
    Random,
    Single,
    Sequential,
}

/// Modifier key that triggers momentum playback.
#[derive(Debug, Clone, Copy, PartialEq, Eq, Structural)]
pub enum MomentumModifier {
    Shift,
    Ctrl,
    Alt,
    NoModifier,
}

impl Default for MomentumModifier {
    fn default() -> (m: Self)
        ensures
            m == MomentumModifier::Shift,
    {
        MomentumModifier::Shift
    }
}

/// A key bound to one or more sounds of a track.
#[derive(Debug, Clone)]
pub struct KeyBinding {
    pub key_code: String,
    pub track_id: String,
    pub sound_ids: Vec<String>,
    pub loop_mode: LoopMode,
    pub current_index: usize,
    pub name: Option<String>,
    pub mood: Option<BaseMood>,
    pub mood_intensity: Option<MoodIntensity>,
}

/// The listing entry of a saved profile.
#[derive(Debug, Clone)]
pub struct ProfileSummary {
    pub id: String,
    pub name: String,
    pub created_at: String,
    pub updated_at: String,
}

/// Default chord detection window, in milliseconds.
pub fn default_chord_window_ms() -> (v: u32)
    ensures
        v == 30,
{
    30
}

/// Default port of the local mood API.
pub fn default_mood_api_port() -> (v: u16)
    ensures
        v == 8765,
{
    8765
}

/// Default number of pages a new mood must hold before it is committed.
pub fn default_mood_dwell_pages() -> (v: u32)
    ensures
        v == 2,
{
    2
}

/// Default size of the mood smoothing window, in pages.
pub fn default_mood_window_size() -> (v: usize)
    ensures
        v == 5,
{
    5
}

} // verus!
