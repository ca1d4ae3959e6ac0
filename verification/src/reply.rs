//! Reading the vision model's replies: the text of a chat completion, the
//! mood it names, and the emotion vocabulary of the feature extraction.

use vstd::prelude::*;

use crate::text::{contains_text, find_text, last_occurrence, lowercased, rfind_text, str_eq, to_lowercase, trim, trim_seq};
use crate::types::{mood_at, mood_name, BaseMood, MoodIntensity};

verus! {

/// One part of a segmented message content.
#[derive(Debug, Clone)]
pub enum ContentPart {
    /// A bare text part.
    Text(String),
    /// An object part, with its `text` field when that field is text.
    Object { text: Option<String> },
    /// Any other value.
    Other,
}

/// The content of a reply message: a text, a list of parts, or something else.
#[derive(Debug, Clone)]
pub enum MessageContent {
    Text(String),
    Parts(Vec<ContentPart>),
    Other,
}

/// The message of the first choice of a chat completion: its content and its
/// reasoning content, each when present.
#[derive(Debug, Clone)]
pub struct ChatReply {
    pub content: Option<MessageContent>,
    pub reasoning_content: Option<MessageContent>,
}

/// The content of a reply when it is a plain string.
pub open spec fn content_string_of(r: ChatReply) -> Option<Seq<char>> {
    match r.content {
        Some(MessageContent::Text(t)) => Some(t@),
        _ => None,
    }
}

/// The content of a reply when it is a plain string.
pub fn content_string(reply: &ChatReply) -> (r: Option<String>)
    ensures
        match r {
            Some(t) => content_string_of(*reply) == Some(t@),
            None => content_string_of(*reply) is None,
        },
{
    match &reply.content {
        Some(MessageContent::Text(t)) => Some(t.clone()),
        _ => None,
    }
}

/// The text a part contributes, trimmed.
pub open spec fn part_text(p: ContentPart) -> Option<Seq<char>> {
    match p {
        ContentPart::Text(t) => Some(trim_seq(t@)),
        ContentPart::Object { text: Some(t) } => Some(trim_seq(t@)),
        _ => None,
    }
}

/// The non-empty trimmed texts of the first `n` parts, in order.
pub open spec fn part_texts(ps: Seq<ContentPart>, n: int) -> Seq<Seq<char>>
    decreases n,
{
    if n <= 0 {
        Seq::empty()
    } else {
        let prev = part_texts(ps, n - 1);
        match part_text(ps[n - 1]) {
            Some(t) => if t.len() > 0 {
                prev.push(t)
            } else {
                prev
            },
            None => prev,
        }
    }
}

/// Texts joined with line feeds.
pub open spec fn join_lines(ts: Seq<Seq<char>>) -> Seq<char>
    decreases ts.len(),
{
    if ts.len() == 0 {
        Seq::empty()
    } else if ts.len() == 1 {
        ts[0]
    } else {
        join_lines(ts.drop_last()) + "\n"@ + ts.last()
    }
}

/// The text of a message content: a trimmed text, or the non-empty parts joined
/// by line feeds; none when that is empty.
pub open spec fn content_text(c: MessageContent) -> Option<Seq<char>> {
    match c {
        MessageContent::Text(t) => if trim_seq(t@).len() > 0 {
            Some(trim_seq(t@))
        } else {
            None
        },
        MessageContent::Parts(ps) => {
            let j = join_lines(part_texts(ps@, ps@.len() as int));
            if j.len() > 0 {
                Some(j)
            } else {
                None
            }
        },
        MessageContent::Other => None,
    }
}

/// The text of a reply: its content, else its reasoning content.
pub open spec fn reply_text(r: ChatReply) -> Option<Seq<char>> {
    let from_content = match r.content {
        Some(c) => content_text(c),
        None => None,
    };
    match from_content {
        Some(t) => Some(t),
        None => match r.reasoning_content {
            Some(c) => content_text(c),
            None => None,
        },
    }
}

pub open spec fn opt_view(s: Option<String>) -> Option<Seq<char>> {
    match s {
        Some(t) => Some(t@),
        None => None,
    }
}

fn text_of_part(p: &ContentPart) -> (r: Option<String>)
    ensures
        opt_view(r) == part_text(*p),
{
    match p {
        ContentPart::Text(t) => Some(trim(t.as_str()).to_string()),
        ContentPart::Object { text: Some(t) } => Some(trim(t.as_str()).to_string()),
        _ => None,
    }
}

fn extract_text(c: &MessageContent) -> (r: Option<String>)
    ensures
        opt_view(r) == content_text(*c),
{
    match c {
        MessageContent::Text(t) => {
            let trimmed = trim(t.as_str());
            if trimmed.unicode_len() > 0 {
                Some(trimmed.to_string())
            } else {
                None
            }
        },
        MessageContent::Parts(parts) => {
            let mut joined = String::new();
            let mut any = false;
            let mut i: usize = 0;
            while i < parts.len()
                invariant
                    i <= parts@.len(),
                    any == (part_texts(parts@, i as int).len() > 0),
                    joined@ == join_lines(part_texts(parts@, i as int)),
                    forall|k: int| 0 <= k < part_texts(parts@, i as int).len() ==> #[trigger] part_texts(parts@, i as int)[k].len() > 0,
                decreases parts@.len() - i,
            {
                let ghost prev = part_texts(parts@, i as int);
                match text_of_part(&parts[i]) {
                    Some(t) => {
                        if t.as_str().unicode_len() > 0 {
                            if any {
                                joined.append("\n");
                            }
                            joined.append(t.as_str());
                            proof {
                                let cur = prev.push(t@);
                                assert(cur.drop_last() =~= prev);
                                if any {
                                    assert(joined@ =~= join_lines(prev) + "\n"@ + t@);
                                } else {
                                    assert(prev.len() == 0);
                                    assert(joined@ =~= t@);
                                }
                            }
                            any = true;
                        }
                    },
                    None => {},
                }
                i = i + 1;
            }
            proof {
                let ts = part_texts(parts@, parts@.len() as int);
                if ts.len() > 0 {
                    lemma_join_nonempty(ts);
                }
            }
            if any {
                Some(joined)
            } else {
                None
            }
        },
        MessageContent::Other => None,
    }
}

proof fn lemma_join_nonempty(ts: Seq<Seq<char>>)
    requires
        ts.len() > 0,
        forall|k: int| 0 <= k < ts.len() ==> #[trigger] ts[k].len() > 0,
    ensures
        join_lines(ts).len() > 0,
    decreases ts.len(),
{
    if ts.len() > 1 {
        lemma_join_nonempty(ts.drop_last());
    }
}

/// The text of a model reply, trimmed: from its content, else from its reasoning.
pub fn extract_content(reply: &ChatReply) -> (r: Option<String>)
    ensures
        opt_view(r) == reply_text(*reply),
{
    let from_content = match &reply.content {
        Some(c) => extract_text(c),
        None => None,
    };
    match from_content {
        Some(t) => Some(t),
        None => match &reply.reasoning_content {
            Some(c) => extract_text(c),
            None => None,
        },
    }
}

// ─── Sentences and emotions ─────────────────────────────────────────────────

pub open spec fn ends_sentence(c: char) -> bool {
    c == '.' || c == '!' || c == '?'
}

/// The text up to and including its first `.`, `!` or `?`; all of it when there is none.
pub open spec fn first_sentence_of(s: Seq<char>) -> Seq<char> {
    if exists|i: int| 0 <= i < s.len() && #[trigger] ends_sentence(s[i]) {
        let i = choose|i: int|
            0 <= i < s.len() && #[trigger] ends_sentence(s[i]) && forall|j: int| 0 <= j < i ==> !ends_sentence(s[j]);
        s.take(i + 1)
    } else {
        s
    }
}

/// The first sentence of a description.
pub fn first_sentence(text: &str) -> (r: &str)
    ensures
        r@ == first_sentence_of(text@),
{
    let v = crate::text::chars_of(text);
    let mut i: usize = 0;
    while i < v.len()
        invariant
            v@ == text@,
            i <= v@.len(),
            forall|j: int| 0 <= j < i ==> !#[trigger] ends_sentence(text@[j]),
        decreases v@.len() - i,
    {
        if v[i] == '.' || v[i] == '!' || v[i] == '?' {
            proof {
                let c = choose|c: int|
                    0 <= c < text@.len() && #[trigger] ends_sentence(text@[c]) && forall|j: int| 0 <= j < c ==> !ends_sentence(text@[j]);
                assert(ends_sentence(text@[i as int]));
                if c < i {
                } else if c > i {
                }
            }
            return text.substring_char(0, i + 1);
        }
        i = i + 1;
    }
    text
}

/// Whether `s` is one of `words`.
pub open spec fn one_of(s: Seq<char>, words: Seq<&'static str>) -> bool {
    exists|i: int| 0 <= i < words.len() && #[trigger] words[i]@ == s
}

fn is_one_of(s: &str, words: &[&'static str]) -> (r: bool)
    ensures
        r == one_of(s@, words@),
{
    let mut i: usize = 0;
    while i < words.len()
        invariant
            i <= words@.len(),
            forall|j: int| 0 <= j < i ==> #[trigger] words@[j]@ != s@,
        decreases words@.len() - i,
    {
        if str_eq(words[i], s) {
            return true;
        }
        i = i + 1;
    }
    false
}

pub open spec fn canonical_emotions() -> Seq<&'static str> {
    seq!["joy", "sadness", "anger", "fear", "determination", "shock", "nostalgia", "neutral"]
}

pub open spec fn shock_words() -> Seq<&'static str> {
    seq!["surprise", "surprised", "stunned", "astonished", "amazed", "disbelief"]
}

pub open spec fn joy_words() -> Seq<&'static str> {
    seq!["excitement", "excited", "triumph", "triumphant", "happiness", "happy", "delight", "elation", "pride", "proud", "cheerful"]
}

pub open spec fn determination_words() -> Seq<&'static str> {
    seq!["resolve", "resolved", "willpower", "ambition", "ambitious", "focused", "motivated", "driven", "confident", "confidence", "intensity", "intense"]
}

pub open spec fn nostalgia_words() -> Seq<&'static str> {
    seq!["longing", "wistful", "bittersweet", "reminiscence", "reminiscing", "yearning", "melancholy", "regret"]
}

pub open spec fn sadness_words() -> Seq<&'static str> {
    seq!["sorrow", "grief", "mourning", "despair", "heartbreak", "pain", "anguish"]
}

pub open spec fn fear_words() -> Seq<&'static str> {
    seq!["terror", "dread", "horror", "panic", "scared", "frightened", "anxious", "anxiety"]
}

pub open spec fn anger_words() -> Seq<&'static str> {
    seq!["rage", "fury", "furious", "frustrated", "frustration", "aggression", "aggressive", "hostile"]
}

/// The canonical emotion of an already trimmed and lowercased emotion word.
pub open spec fn canonical_emotion(lower: Seq<char>) -> Seq<char> {
    if one_of(lower, canonical_emotions()) {
        lower
    } else if one_of(lower, shock_words()) {
        "shock"@
    } else if one_of(lower, joy_words()) {
        "joy"@
    } else if one_of(lower, determination_words()) {
        "determination"@
    } else if one_of(lower, nostalgia_words()) {
        "nostalgia"@
    } else if one_of(lower, sadness_words()) {
        "sadness"@
    } else if one_of(lower, fear_words()) {
        "fear"@
    } else if one_of(lower, anger_words()) {
        "anger"@
    } else {
        "neutral"@
    }
}

/// Maps an emotion word onto the eight canonical emotions: joy, sadness, anger,
/// fear, determination, shock, nostalgia, neutral.
pub fn normalize_emotion(raw: &str) -> (r: String)
    ensures
        r@ == canonical_emotion(lowercased(trim_seq(raw@))),
{
    let lower = to_lowercase(trim(raw));
    let l = lower.as_str();
    let canonical: [&'static str; 8] = ["joy", "sadness", "anger", "fear", "determination", "shock", "nostalgia", "neutral"];
    let shock: [&'static str; 6] = ["surprise", "surprised", "stunned", "astonished", "amazed", "disbelief"];
    let joy: [&'static str; 11] = [
        "excitement",
        "excited",
        "triumph",
        "triumphant",
        "happiness",
        "happy",
        "delight",
        "elation",
        "pride",
        "proud",
        "cheerful",
    ];
    let determination: [&'static str; 12] = [
        "resolve",
        "resolved",
        "willpower",
        "ambition",
        "ambitious",
        "focused",
        "motivated",
        "driven",
        "confident",
        "confidence",
        "intensity",
        "intense",
    ];
    let nostalgia: [&'static str; 8] = [
        "longing",
        "wistful",
        "bittersweet",
        "reminiscence",
        "reminiscing",
        "yearning",
        "melancholy",
        "regret",
    ];
    let sadness: [&'static str; 7] = ["sorrow", "grief", "mourning", "despair", "heartbreak", "pain", "anguish"];
    let fear: [&'static str; 8] = ["terror", "dread", "horror", "panic", "scared", "frightened", "anxious", "anxiety"];
    let anger: [&'static str; 8] = [
        "rage",
        "fury",
        "furious",
        "frustrated",
        "frustration",
        "aggression",
        "aggressive",
        "hostile",
    ];
    assert(canonical@ =~= canonical_emotions());
    assert(shock@ =~= shock_words());
    assert(joy@ =~= joy_words());
    assert(determination@ =~= determination_words());
    assert(nostalgia@ =~= nostalgia_words());
    assert(sadness@ =~= sadness_words());
    assert(fear@ =~= fear_words());
    assert(anger@ =~= anger_words());
    if is_one_of(l, &canonical) {
        lower
    } else if is_one_of(l, &shock) {
        "shock".to_string()
    } else if is_one_of(l, &joy) {
        "joy".to_string()
    } else if is_one_of(l, &determination) {
        "determination".to_string()
    } else if is_one_of(l, &nostalgia) {
        "nostalgia".to_string()
    } else if is_one_of(l, &sadness) {
        "sadness".to_string()
    } else if is_one_of(l, &fear) {
        "fear".to_string()
    } else if is_one_of(l, &anger) {
        "anger".to_string()
    } else {
        "neutral".to_string()
    }
}

/// The mood an emotion falls back to when the reply names no mood.
pub open spec fn emotion_mood(emotion: Seq<char>) -> BaseMood {
    if emotion == "joy"@ {
        BaseMood::Comedy
    } else if emotion == "sadness"@ {
        BaseMood::Sadness
    } else if emotion == "anger"@ {
        BaseMood::Tension
    } else if emotion == "fear"@ {
        BaseMood::Horror
    } else if emotion == "determination"@ {
        BaseMood::Epic
    } else if emotion == "shock"@ {
        BaseMood::Tension
    } else if emotion == "nostalgia"@ {
        BaseMood::Sadness
    } else {
        BaseMood::Peaceful
    }
}

pub fn emotion_to_mood_fallback(emotion: &str) -> (m: BaseMood)
    ensures
        m == emotion_mood(emotion@),
{
    if str_eq(emotion, "joy") {
        BaseMood::Comedy
    } else if str_eq(emotion, "sadness") {
        BaseMood::Sadness
    } else if str_eq(emotion, "anger") {
        BaseMood::Tension
    } else if str_eq(emotion, "fear") {
        BaseMood::Horror
    } else if str_eq(emotion, "determination") {
        BaseMood::Epic
    } else if str_eq(emotion, "shock") {
        BaseMood::Tension
    } else if str_eq(emotion, "nostalgia") {
        BaseMood::Sadness
    } else {
        BaseMood::Peaceful
    }
}

pub open spec fn mood_categories() -> Seq<(Seq<char>, Seq<char>)> {
    seq![
        ("epic"@, "Heroic moments, battles, triumph, power display"@),
        ("tension"@, "Conflict, confrontation, suspense, buildup"@),
        ("sadness"@, "Grief, loss, tears, regret, melancholy"@),
        ("comedy"@, "Humor, funny situations, lighthearted"@),
        ("romance"@, "Love, affection, tender connection"@),
        ("horror"@, "Fear, dread, disturbing atmosphere"@),
        ("peaceful"@, "Calm daily life, relaxation, serene"@),
        ("mystery"@, "Unknown, intrigue, investigation"@),
    ]
}

/// The eight base moods with their descriptions.
pub fn default_mood_categories() -> (v: Vec<(&'static str, &'static str)>)
    ensures
        v@.map_values(|p: (&'static str, &'static str)| (p.0@, p.1@)) == mood_categories(),
{
    let v = vec![
        ("epic", "Heroic moments, battles, triumph, power display"),
        ("tension", "Conflict, confrontation, suspense, buildup"),
        ("sadness", "Grief, loss, tears, regret, melancholy"),
        ("comedy", "Humor, funny situations, lighthearted"),
        ("romance", "Love, affection, tender connection"),
        ("horror", "Fear, dread, disturbing atmosphere"),
        ("peaceful", "Calm daily life, relaxation, serene"),
        ("mystery", "Unknown, intrigue, investigation"),
    ];
    assert(v@.map_values(|p: (&'static str, &'static str)| (p.0@, p.1@)) =~= mood_categories());
    v
}

} // verus!
