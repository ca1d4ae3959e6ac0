//! Parsing the mood, intensity and page features out of the model's answers.
//! The patterns are matched with the `regex` crate; what they match is named
//! `regex_captures`, and the parsers are stated over it.

use vstd::prelude::*;

use crate::reply::{canonical_emotion, emotion_mood, extract_content, normalize_emotion, opt_view, reply_text, ChatReply};
use crate::text::{ascii_lower_char, is_white_space, lemma_ascii_lower_char, occurs_at};
use crate::text::{
    byte_prefix, contains_str, contains_text, find_text, first_occurrence, last_occurrence, lowercased, parse_u32,
    parse_u32_spec, prefix_within_bytes, rfind_text, to_lowercase, trim, trim_seq,
};
use crate::types::{intensity_of_level, mood_at, mood_from_name, mood_name, BaseMood, MoodIntensity, MoodTag};

verus! {

/// Whether `regex::Regex::new` accepts a pattern.
pub uninterp spec fn regex_compiles(pattern: Seq<char>) -> bool;

/// What `regex::Regex::captures_iter` finds: for each successive non-overlapping
/// match, left to right, the text of each capture group after the whole match
/// (none for a group that took no part).
pub uninterp spec fn regex_captures(pattern: Seq<char>, text: Seq<char>) -> Seq<Seq<Option<Seq<char>>>>;

pub open spec fn captures_view(ms: Seq<Vec<Option<String>>>) -> Seq<Seq<Option<Seq<char>>>> {
    ms.map_values(|m: Vec<Option<String>>| m@.map_values(|g: Option<String>| opt_view(g)))
}

/// Compiles `pattern` with `regex::Regex::new` and collects the capture groups
/// of every match of `regex::Regex::captures_iter` over `text`. It succeeds
/// exactly when the pattern compiles; the matches are named `regex_captures`.
#[verifier::external_body]
fn find_captures(pattern: &str, text: &str) -> (r: Result<Vec<Vec<Option<String>>>, String>)
    ensures
        r is Ok <==> regex_compiles(pattern@),
        r matches Ok(ms) ==> captures_view(ms@) == regex_captures(pattern@, text@),
{
    let re = regex::Regex::new(pattern).map_err(|e| e.to_string())?;
    Ok(re.captures_iter(text).map(|c| c.iter().skip(1).map(|g| g.map(|m| m.as_str().to_string())).collect()).collect())
}

// ─── Patterns ───────────────────────────────────────────────────────────────

pub open spec fn compact_pattern() -> Seq<char> {
    "(?i)\\b(epic|tension|sadness|comedy|romance|horror|peaceful|mystery)\\s+([123])\\b"@
}

pub open spec fn mood_first_pattern() -> Seq<char> {
    "(?is)mood\\s*[:=]\\s*[\"`']?(epic|tension|sadness|comedy|romance|horror|peaceful|mystery)[\"`']?[^a-z0-9]{0,80}intensity\\s*[:=]\\s*[\"`']?([123])[\"`']?"@
}

pub open spec fn intensity_first_pattern() -> Seq<char> {
    "(?is)intensity\\s*[:=]\\s*[\"`']?([123])[\"`']?[^a-z0-9]{0,80}mood\\s*[:=]\\s*[\"`']?(epic|tension|sadness|comedy|romance|horror|peaceful|mystery)[\"`']?"@
}

pub open spec fn answer_line_pattern() -> Seq<char> {
    "(?im)^\\s*(?:mood|answer|final answer)\\s*[:=-]?\\s*(epic|tension|sadness|comedy|romance|horror|peaceful|mystery)(?:\\s*[,;:-]\\s*|\\s+)([123])\\s*$"@
}

pub open spec fn intensity_field_pattern() -> Seq<char> {
    "(?i)intensity\\s*[:=]\\s*[\"`']?([123])"@
}

fn compact_re() -> (s: &'static str)
    ensures
        s@ == compact_pattern(),
{
    "(?i)\\b(epic|tension|sadness|comedy|romance|horror|peaceful|mystery)\\s+([123])\\b"
}

fn mood_first_re() -> (s: &'static str)
    ensures
        s@ == mood_first_pattern(),
{
    "(?is)mood\\s*[:=]\\s*[\"`']?(epic|tension|sadness|comedy|romance|horror|peaceful|mystery)[\"`']?[^a-z0-9]{0,80}intensity\\s*[:=]\\s*[\"`']?([123])[\"`']?"
}

fn intensity_first_re() -> (s: &'static str)
    ensures
        s@ == intensity_first_pattern(),
{
    "(?is)intensity\\s*[:=]\\s*[\"`']?([123])[\"`']?[^a-z0-9]{0,80}mood\\s*[:=]\\s*[\"`']?(epic|tension|sadness|comedy|romance|horror|peaceful|mystery)[\"`']?"
}

fn answer_line_re() -> (s: &'static str)
    ensures
        s@ == answer_line_pattern(),
{
    "(?im)^\\s*(?:mood|answer|final answer)\\s*[:=-]?\\s*(epic|tension|sadness|comedy|romance|horror|peaceful|mystery)(?:\\s*[,;:-]\\s*|\\s+)([123])\\s*$"
}

fn intensity_field_re() -> (s: &'static str)
    ensures
        s@ == intensity_field_pattern(),
{
    "(?i)intensity\\s*[:=]\\s*[\"`']?([123])"
}

// ─── Mood and intensity ─────────────────────────────────────────────────────

/// What `str::parse::<u8>` gives.
pub open spec fn parse_u8_spec(s: Seq<char>) -> Option<u8> {
    match parse_u32_spec(s) {
        Some(v) => if v <= 255 {
            Some(v as u8)
        } else {
            None
        },
        None => None,
    }
}

fn parse_u8(s: &str) -> (r: Option<u8>)
    ensures
        r == parse_u8_spec(s@),
{
    match parse_u32(s) {
        Some(v) => if v <= 255 {
            Some(v as u8)
        } else {
            None
        },
        None => None,
    }
}

/// The text of capture group `i` of a match (empty when it took no part).
pub open spec fn group(m: Seq<Option<Seq<char>>>, i: int) -> Seq<char> {
    if 0 <= i < m.len() {
        match m[i] {
            Some(t) => t,
            None => Seq::empty(),
        }
    } else {
        Seq::empty()
    }
}

/// The intensity an intensity digit names; 2 when it is not a number.
pub open spec fn level_intensity(t: Seq<char>) -> MoodIntensity {
    match parse_u8_spec(t) {
        Some(v) => intensity_of_level(v as nat),
        None => MoodIntensity::Medium,
    }
}

/// The mood and intensity of the last of the first `n` matches whose mood group names a mood.
pub open spec fn last_tagged(ms: Seq<Seq<Option<Seq<char>>>>, n: int) -> Option<MoodTag>
    decreases n,
{
    if n <= 0 {
        None
    } else {
        match mood_from_name(group(ms[n - 1], 0)) {
            Some(mood) => Some(MoodTag { mood, intensity: level_intensity(group(ms[n - 1], 1)) }),
            None => last_tagged(ms, n - 1),
        }
    }
}

/// The mood and intensity of the last match, when its mood group names a mood.
pub open spec fn field_tag(ms: Seq<Seq<Option<Seq<char>>>>, mood_group: int, level_group: int) -> Option<MoodTag> {
    if ms.len() == 0 {
        None
    } else {
        match mood_from_name(group(ms.last(), mood_group)) {
            Some(mood) => Some(MoodTag { mood, intensity: level_intensity(group(ms.last(), level_group)) }),
            None => None,
        }
    }
}

/// Among the first `k` moods, the one whose name occurs last in `text`, with
/// that position; the earlier mood on equal positions.
pub open spec fn latest_mood(text: Seq<char>, k: int) -> Option<(BaseMood, int)>
    decreases k,
{
    if k <= 0 {
        None
    } else {
        let prev = latest_mood(text, k - 1);
        match last_occurrence(text, mood_name(mood_at(k - 1))) {
            Some(pos) => match prev {
                Some(best) => if pos > best.1 {
                    Some((mood_at(k - 1), pos))
                } else {
                    prev
                },
                None => Some((mood_at(k - 1), pos)),
            },
            None => prev,
        }
    }
}

/// The intensity of the last intensity field, medium when there is none.
pub open spec fn field_intensity(ms: Seq<Seq<Option<Seq<char>>>>) -> MoodIntensity {
    if ms.len() > 0 && ms.last().len() > 0 && ms.last()[0] is Some {
        match parse_u8_spec(group(ms.last(), 0)) {
            Some(v) => intensity_of_level(v as nat),
            None => MoodIntensity::Medium,
        }
    } else {
        MoodIntensity::Medium
    }
}

/// The reply text as the parser reads it: trimmed and lowercased, after the
/// closing `</think>` tag when there is one (trimmed again).
pub open spec fn cleaned_reply(content: Seq<char>) -> Seq<char> {
    let text = lowercased(trim_seq(content));
    match first_occurrence(text, "</think>"@) {
        Some(pos) => trim_seq(text.subrange(pos + 8, text.len() as int)),
        None => text,
    }
}

pub open spec fn no_mood_message(text: Seq<char>, max: nat) -> Seq<char> {
    "No mood found in response: '"@ + byte_prefix(text, max) + "'"@
}

/// The mood and intensity read from a cleaned reply: the last compact
/// `mood digit` answer; else a `mood:`/`intensity:` field pair, an
/// `intensity:`/`mood:` pair, an answer line, tried in this order (the last
/// match of each); else the mood named last, with the last intensity field.
/// None when a pattern it gets to does not compile.
pub open spec fn mood_from_reply(c: Seq<char>) -> Option<Result<MoodTag, Seq<char>>> {
    let compact = regex_captures(compact_pattern(), c);
    if !regex_compiles(compact_pattern()) {
        None
    } else if last_tagged(compact, compact.len() as int) is Some {
        Some(Ok(last_tagged(compact, compact.len() as int)->0))
    } else if !regex_compiles(mood_first_pattern()) {
        None
    } else if field_tag(regex_captures(mood_first_pattern(), c), 0, 1) is Some {
        Some(Ok(field_tag(regex_captures(mood_first_pattern(), c), 0, 1)->0))
    } else if !regex_compiles(intensity_first_pattern()) {
        None
    } else if field_tag(regex_captures(intensity_first_pattern(), c), 1, 0) is Some {
        Some(Ok(field_tag(regex_captures(intensity_first_pattern(), c), 1, 0)->0))
    } else if !regex_compiles(answer_line_pattern()) {
        None
    } else if field_tag(regex_captures(answer_line_pattern(), c), 0, 1) is Some {
        Some(Ok(field_tag(regex_captures(answer_line_pattern(), c), 0, 1)->0))
    } else {
        match latest_mood(c, 8) {
            Some(found) => if regex_compiles(intensity_field_pattern()) {
                Some(
                    Ok(
                        MoodTag {
                            mood: found.0,
                            intensity: field_intensity(regex_captures(intensity_field_pattern(), c)),
                        },
                    ),
                )
            } else {
                None
            },
            None => Some(Err(no_mood_message(c, 80))),
        }
    }
}

pub open spec fn tag_result(r: Result<MoodTag, String>) -> Result<MoodTag, Seq<char>> {
    match r {
        Ok(t) => Ok(t),
        Err(e) => Err(e@),
    }
}

fn group_text(m: &Vec<Option<String>>, i: usize) -> (s: &str)
    ensures
        s@ == group(m@.map_values(|g: Option<String>| opt_view(g)), i as int),
{
    proof {
        reveal_strlit("");
    }
    if i < m.len() {
        assert(m@.map_values(|g: Option<String>| opt_view(g))[i as int] == opt_view(m@[i as int]));
        match &m[i] {
            Some(t) => t.as_str(),
            None => "",
        }
    } else {
        ""
    }
}

fn level_of(t: &str) -> (i: MoodIntensity)
    ensures
        i == level_intensity(t@),
{
    match parse_u8(t) {
        Some(v) => MoodIntensity::from_u8(v),
        None => MoodIntensity::Medium,
    }
}

fn last_tagged_exec(ms: &Vec<Vec<Option<String>>>) -> (r: Option<MoodTag>)
    ensures
        r == last_tagged(captures_view(ms@), ms@.len() as int),
{
    let ghost cv = captures_view(ms@);
    let mut best: Option<MoodTag> = None;
    let mut i: usize = 0;
    while i < ms.len()
        invariant
            cv == captures_view(ms@),
            i <= ms@.len(),
            best == last_tagged(cv, i as int),
        decreases ms@.len() - i,
    {
        assert(cv[i as int] == ms@[i as int]@.map_values(|g: Option<String>| opt_view(g)));
        match BaseMood::from_str_opt(group_text(&ms[i], 0)) {
            Some(mood) => {
                best = Some(MoodTag { mood, intensity: level_of(group_text(&ms[i], 1)) });
            },
            None => {},
        }
        i = i + 1;
    }
    best
}

fn field_tag_exec(ms: &Vec<Vec<Option<String>>>, mood_group: usize, level_group: usize) -> (r: Option<MoodTag>)
    ensures
        r == field_tag(captures_view(ms@), mood_group as int, level_group as int),
{
    if ms.len() == 0 {
        return None;
    }
    let last = &ms[ms.len() - 1];
    assert(captures_view(ms@).last() == last@.map_values(|g: Option<String>| opt_view(g)));
    match BaseMood::from_str_opt(group_text(last, mood_group)) {
        Some(mood) => Some(MoodTag { mood, intensity: level_of(group_text(last, level_group)) }),
        None => None,
    }
}

/// The mood named last in `text`, with its position.
fn latest_mood_exec(text: &str) -> (r: Option<(BaseMood, usize)>)
    ensures
        match r {
            Some(found) => latest_mood(text@, 8) == Some((found.0, found.1 as int)),
            None => latest_mood(text@, 8) is None,
        },
{
    let mut best: Option<(BaseMood, usize)> = None;
    let mut k: usize = 0;
    while k < 8
        invariant
            k <= 8,
            match best {
                Some(found) => latest_mood(text@, k as int) == Some((found.0, found.1 as int)),
                None => latest_mood(text@, k as int) is None,
            },
        decreases 8 - k,
    {
        let mood = BaseMood::from_index(k);
        match rfind_text(text, mood.as_str()) {
            Some(pos) => {
                match best {
                    Some(found) => {
                        if pos > found.1 {
                            best = Some((mood, pos));
                        }
                    },
                    None => {
                        best = Some((mood, pos));
                    },
                }
            },
            None => {},
        }
        k = k + 1;
    }
    best
}

fn field_intensity_exec(ms: &Vec<Vec<Option<String>>>) -> (i: MoodIntensity)
    ensures
        i == field_intensity(captures_view(ms@)),
{
    if ms.len() == 0 {
        return MoodIntensity::Medium;
    }
    let last = &ms[ms.len() - 1];
    assert(captures_view(ms@).last() == last@.map_values(|g: Option<String>| opt_view(g)));
    if last.len() > 0 {
        match &last[0] {
            Some(t) => match parse_u8(t.as_str()) {
                Some(v) => MoodIntensity::from_u8(v),
                None => MoodIntensity::Medium,
            },
            None => MoodIntensity::Medium,
        }
    } else {
        MoodIntensity::Medium
    }
}

/// Lowercases and trims a reply, keeping what follows `</think>`.
fn clean_reply(content: &str) -> (c: String)
    ensures
        c@ == cleaned_reply(content@),
{
    let text = to_lowercase(trim(content));
    proof {
        reveal_strlit("</think>");
    }
    match find_text(text.as_str(), "</think>") {
        Some(pos) => {
            proof {
                crate::text::lemma_first_occurrence(text@, "</think>"@);
            }
            let n = text.as_str().unicode_len();
            let rest = text.as_str().substring_char(pos + 8, n);
            trim(rest).to_string()
        },
        None => text,
    }
}

/// End of the answer text once trailing whitespace is removed (0 when it is
/// all whitespace).
spec fn answer_end(a: Seq<char>) -> int {
    let ia = crate::text::skip_ws_forward(a, 0);
    let ja = crate::text::skip_ws_backward(a, ia, a.len() as int);
    if ia < ja {
        ja
    } else {
        0
    }
}

/// A reply made of a reasoning block and an answer.
spec fn think_reply(t: Seq<char>, a: Seq<char>) -> Seq<char> {
    "<think>"@ + t + "</think>"@ + a
}

/// Trimming such a reply cuts only the answer's trailing whitespace.
proof fn lemma_think_reply_trim(t: Seq<char>, a: Seq<char>)
    ensures
        0 <= answer_end(a) <= a.len(),
        trim_seq(think_reply(t, a)) == think_reply(t, a).subrange(0, 15 + t.len() + answer_end(a)),
        answer_end(a) == 0 ==> trim_seq(a).len() == 0,
        answer_end(a) > 0 ==> trim_seq(a) == a.subrange(crate::text::skip_ws_forward(a, 0), answer_end(a)),
        forall|m: int| answer_end(a) <= m < a.len() ==> is_white_space(#[trigger] a[m]),
{
    reveal_strlit("<think>");
    reveal_strlit("</think>");
    let p = "<think>"@;
    let mk = "</think>"@;
    let x = think_reply(t, a);
    let nt = t.len() as int;
    let na = a.len() as int;
    assert(x.len() == 15 + nt + na);
    crate::text::lemma_trim_bounds(a);
    let ia = crate::text::skip_ws_forward(a, 0);
    let ja = crate::text::skip_ws_backward(a, ia, na);
    let e = answer_end(a);
    let n = 15 + nt + e;
    assert forall|m: int| e <= m < na implies is_white_space(#[trigger] a[m]) by {
        if m < ia {
        } else {
        }
    }
    assert forall|m: int| n <= m < x.len() implies is_white_space(#[trigger] x[m]) by {
        assert(x[m] == a[m - 15 - nt]);
    }
    assert(!is_white_space(x[n - 1])) by {
        if ia < ja {
            assert(x[n - 1] == a[ja - 1]);
        } else {
            assert(x[n - 1] == mk[7]);
        }
    }
    assert(!is_white_space(x[0])) by {
        assert(x[0] == p[0]);
    }
    crate::text::lemma_trim_is(x, 0, n);
}

proof fn lemma_no_tag_before(l: Seq<char>, lt: Seq<char>, j: int)
    requires
        l.len() >= 15 + lt.len(),
        0 <= j < 7 + lt.len(),
        forall|k: int| 0 <= k < 7 ==> #[trigger] l[k] == "<think>"@[k],
        forall|k: int| 7 <= k < 7 + lt.len() ==> #[trigger] l[k] == lt[k - 7],
        forall|k: int| 7 + lt.len() <= k < 15 + lt.len() ==> #[trigger] l[k] == "</think>"@[k - 7 - lt.len()],
        !contains_text(lt, "</think>"@),
    ensures
        !occurs_at(l, "</think>"@, j),
{
    reveal_strlit("<think>");
    reveal_strlit("</think>");
    let mk = "</think>"@;
    let nt = lt.len() as int;
    if occurs_at(l, mk, j) {
        let w = l.subrange(j, j + 8);
        assert(w == mk);
        if j == 0 {
            assert(w[1] == l[1]);
            assert(l[1] == "<think>"@[1]);
        } else if j < 7 {
            assert(w[0] == l[j]);
            assert(l[j] == "<think>"@[j]);
        } else if j + 8 <= 7 + nt {
            assert(lt.subrange(j - 7, j + 1) =~= mk) by {
                assert forall|k: int| 0 <= k < 8 implies #[trigger] lt.subrange(j - 7, j + 1)[k] == mk[k] by {
                    assert(w[k] == l[j + k]);
                    assert(l[j + k] == lt[j + k - 7]);
                }
            }
            assert(occurs_at(lt, mk, j - 7));
        } else {
            let k = 7 + nt - j;
            assert(w[k] == l[7 + nt]);
            assert(l[7 + nt] == mk[0]);
        }
    }
}

/// A text that opens with `<think>`, then a text without a closing tag, then
/// `</think>`, has its first closing tag right after that text.
proof fn lemma_first_tag_at(l: Seq<char>, lt: Seq<char>)
    requires
        l.len() >= 15 + lt.len(),
        forall|k: int| 0 <= k < 7 ==> #[trigger] l[k] == "<think>"@[k],
        forall|k: int| 7 <= k < 7 + lt.len() ==> #[trigger] l[k] == lt[k - 7],
        forall|k: int| 7 + lt.len() <= k < 15 + lt.len() ==> #[trigger] l[k] == "</think>"@[k - 7 - lt.len()],
        !contains_text(lt, "</think>"@),
    ensures
        first_occurrence(l, "</think>"@) == Some(7 + lt.len() as int),
{
    reveal_strlit("</think>");
    let mk = "</think>"@;
    let nt = lt.len() as int;
    assert(l.subrange(7 + nt, 15 + nt) =~= mk);
    assert(occurs_at(l, mk, 7 + nt));
    assert forall|j: int| 0 <= j < 7 + nt implies !#[trigger] occurs_at(l, mk, j) by {
        lemma_no_tag_before(l, lt, j);
    }
    crate::text::lemma_first_occurrence(l, mk);
}

/// In the lowercased trimmed reply the first closing tag is the one that ends
/// the reasoning block.
proof fn lemma_think_reply_tag(t: Seq<char>, a: Seq<char>)
    requires
        crate::text::is_ascii_seq(t),
        crate::text::is_ascii_seq(a),
        !contains_text(lowercased(t), "</think>"@),
        0 <= answer_end(a) <= a.len(),
    ensures
        ({
            let tx = think_reply(t, a).subrange(0, 15 + t.len() + answer_end(a));
            &&& lowercased(tx) == tx.map_values(|c: char| ascii_lower_char(c))
            &&& first_occurrence(lowercased(tx), "</think>"@) == Some(7 + t.len() as int)
        }),
{
    reveal_strlit("<think>");
    reveal_strlit("</think>");
    let p = "<think>"@;
    let mk = "</think>"@;
    let x = think_reply(t, a);
    let nt = t.len() as int;
    let na = a.len() as int;
    let e = answer_end(a);
    let n = 15 + nt + e;
    assert(x.len() == 15 + nt + na);
    let tx = x.subrange(0, n);
    assert forall|k: int| 0 <= k < tx.len() implies (#[trigger] tx[k] as u32) < 128 by {
        assert(tx[k] == x[k]);
        if k < 7 {
            assert(x[k] == p[k]);
        } else if k < 7 + nt {
            assert(x[k] == t[k - 7]);
        } else if k < 15 + nt {
            assert(x[k] == mk[k - 7 - nt]);
        } else {
            assert(x[k] == a[k - 15 - nt]);
        }
    }
    let l = tx.map_values(|c: char| ascii_lower_char(c));
    assert(lowercased(tx) == l);
    let lt = t.map_values(|c: char| ascii_lower_char(c));
    assert(lowercased(t) == lt);
    assert forall|k: int| 0 <= k < 7 implies #[trigger] l[k] == p[k] by {
        assert(l[k] == ascii_lower_char(tx[k]));
        assert(x[k] == p[k]);
    }
    assert forall|k: int| 7 <= k < 7 + nt implies #[trigger] l[k] == lt[k - 7] by {
        assert(l[k] == ascii_lower_char(tx[k]));
        assert(x[k] == t[k - 7]);
    }
    assert forall|k: int| 7 + nt <= k < 15 + nt implies #[trigger] l[k] == mk[k - 7 - nt] by {
        assert(l[k] == ascii_lower_char(tx[k]));
        assert(x[k] == mk[k - 7 - nt]);
    }
    lemma_first_tag_at(l, lt);
}

/// An ASCII reply without a closing tag is read trimmed and lowercased.
proof fn lemma_cleaned_plain(a: Seq<char>)
    requires
        crate::text::is_ascii_seq(a),
        !contains_text(lowercased(a), "</think>"@),
    ensures
        cleaned_reply(a) == lowercased(trim_seq(a)),
        lowercased(trim_seq(a)) == trim_seq(a).map_values(|c: char| ascii_lower_char(c)),
{
    reveal_strlit("</think>");
    crate::text::lemma_trim_bounds(a);
    let ia = crate::text::skip_ws_forward(a, 0);
    let sa = trim_seq(a);
    assert(crate::text::is_ascii_seq(sa)) by {
        assert forall|k: int| 0 <= k < sa.len() implies (#[trigger] sa[k] as u32) < 128 by {
            assert(sa[k] == a[ia + k]);
        }
    }
    let la = sa.map_values(|c: char| ascii_lower_char(c));
    assert(lowercased(sa) == la);
    let lw = a.map_values(|c: char| ascii_lower_char(c));
    assert(lowercased(a) == lw);
    assert(!contains_text(la, "</think>"@)) by {
        if contains_text(la, "</think>"@) {
            let w = choose|w: int| #[trigger] occurs_at(la, "</think>"@, w);
            assert(lw.subrange(ia + w, ia + w + 8) =~= la.subrange(w, w + 8));
            assert(occurs_at(lw, "</think>"@, ia + w));
        }
    }
    crate::text::lemma_first_occurrence(la, "</think>"@);
}

/// Lowercasing the answer up to its trailing whitespace, then trimming,
/// gives the answer trimmed and lowercased.
proof fn lemma_trim_lower_answer(a: Seq<char>)
    requires
        crate::text::is_ascii_seq(a),
    ensures
        0 <= answer_end(a) <= a.len(),
        trim_seq(a.subrange(0, answer_end(a)).map_values(|c: char| ascii_lower_char(c)))
            == trim_seq(a).map_values(|c: char| ascii_lower_char(c)),
{
    lemma_think_reply_trim(Seq::empty(), a);
    crate::text::lemma_trim_bounds(a);
    let ia = crate::text::skip_ws_forward(a, 0);
    let e = answer_end(a);
    let r = a.subrange(0, e).map_values(|c: char| ascii_lower_char(c));
    let la = trim_seq(a).map_values(|c: char| ascii_lower_char(c));
    if e > 0 {
        assert forall|m: int| 0 <= m < ia implies is_white_space(#[trigger] r[m]) by {
            lemma_ascii_lower_char(a[m]);
        }
        lemma_ascii_lower_char(a[ia]);
        lemma_ascii_lower_char(a[e - 1]);
        assert(r[ia] == ascii_lower_char(a[ia]));
        assert(r[e - 1] == ascii_lower_char(a[e - 1]));
        crate::text::lemma_trim_is(r, ia, e);
        assert(r.subrange(ia, e) =~= la);
    } else {
        crate::text::lemma_trim_is(r, 0, 0);
        assert(r.subrange(0, 0) =~= la);
    }
}

#[verifier::spinoff_prover]
#[verifier::rlimit(100)]
proof fn lemma_cleaned_after_think(t: Seq<char>, a: Seq<char>)
    requires
        crate::text::is_ascii_seq(t),
        crate::text::is_ascii_seq(a),
        !contains_text(lowercased(t), "</think>"@),
        !contains_text(lowercased(a), "</think>"@),
    ensures
        cleaned_reply(think_reply(t, a)) == lowercased(trim_seq(a)),
        cleaned_reply(a) == lowercased(trim_seq(a)),
{
    lemma_think_reply_trim(t, a);
    lemma_think_reply_tag(t, a);
    lemma_cleaned_plain(a);
    lemma_trim_lower_answer(a);
    reveal_strlit("<think>");
    reveal_strlit("</think>");
    let x = think_reply(t, a);
    let nt = t.len() as int;
    assert(x.len() == 15 + nt + a.len());
    let e = answer_end(a);
    let n = 15 + nt + e;
    let tx = x.subrange(0, n);
    let l = tx.map_values(|c: char| ascii_lower_char(c));
    let r = l.subrange(15 + nt, n);
    assert(trim_seq(x) == tx);
    assert(lowercased(trim_seq(x)) == l);
    assert(first_occurrence(l, "</think>"@) == Some(7 + nt));
    assert(l.len() == n);
    assert(cleaned_reply(x) == trim_seq(l.subrange(7 + nt + 8, n)));
    assert(cleaned_reply(x) == trim_seq(r));
    assert(r =~= a.subrange(0, e).map_values(|c: char| ascii_lower_char(c))) by {
        assert forall|k: int| 0 <= k < e implies #[trigger] r[k] == ascii_lower_char(a[k]) by {
            assert(r[k] == l[15 + nt + k]);
            assert(tx[15 + nt + k] == a[k]);
        }
    }
}

/// The reasoning block never decides the answer: for an ASCII reasoning text
/// `t` and answer `a` (neither holding a closing tag), the reply
/// `<think>` + `t` + `</think>` + `a` is read as `a` alone, trimmed and
/// lowercased, and parses to what `a` parses to.
pub proof fn lemma_reasoning_ignored(t: Seq<char>, a: Seq<char>)
    requires
        crate::text::is_ascii_seq(t),
        crate::text::is_ascii_seq(a),
        !contains_text(lowercased(t), "</think>"@),
        !contains_text(lowercased(a), "</think>"@),
    ensures
        cleaned_reply("<think>"@ + t + "</think>"@ + a) == lowercased(trim_seq(a)),
        cleaned_reply(a) == lowercased(trim_seq(a)),
        mood_from_reply(cleaned_reply("<think>"@ + t + "</think>"@ + a)) == mood_from_reply(cleaned_reply(a)),
{
    lemma_cleaned_after_think(t, a);
    assert(think_reply(t, a) == "<think>"@ + t + "</think>"@ + a);
}

/// Parses the mood and intensity out of a model reply; see `mood_from_reply`.
/// When a pattern it gets to does not compile the result is an error whose
/// text is not stated.
pub fn parse_mood_intensity_response(reply: &ChatReply) -> (r: Result<MoodTag, String>)
    ensures
        match reply_text(*reply) {
            None => tag_result(r) == Err::<MoodTag, Seq<char>>("No content in response"@),
            Some(content) => match mood_from_reply(cleaned_reply(content)) {
                Some(res) => tag_result(r) == res,
                None => r is Err,
            },
        },
{
    let content = match extract_content(reply) {
        Some(c) => c,
        None => {
            return Err("No content in response".to_string());
        },
    };
    let cleaned = clean_reply(content.as_str());
    let c = cleaned.as_str();
    let compact = find_captures(compact_re(), c)?;
    match last_tagged_exec(&compact) {
        Some(t) => {
            return Ok(t);
        },
        None => {},
    }
    let first = find_captures(mood_first_re(), c)?;
    match field_tag_exec(&first, 0, 1) {
        Some(t) => {
            return Ok(t);
        },
        None => {},
    }
    let second = find_captures(intensity_first_re(), c)?;
    match field_tag_exec(&second, 1, 0) {
        Some(t) => {
            return Ok(t);
        },
        None => {},
    }
    let third = find_captures(answer_line_re(), c)?;
    match field_tag_exec(&third, 0, 1) {
        Some(t) => {
            return Ok(t);
        },
        None => {},
    }
    match latest_mood_exec(c) {
        Some(found) => {
            let fields = find_captures(intensity_field_re(), c)?;
            Ok(MoodTag { mood: found.0, intensity: field_intensity_exec(&fields) })
        },
        None => {
            let mut msg = "No mood found in response: '".to_string();
            msg.append(prefix_within_bytes(c, 80));
            msg.append("'");
            Err(msg)
        },
    }
}


// ─── Page features ──────────────────────────────────────────────────────────

/// Structured features of a manga page, independent of any mood categories.
#[derive(Debug, Clone)]
pub struct PageFeatures {
    /// Dominant emotion (joy, sadness, anger, fear, determination, shock, nostalgia, neutral).
    pub emotion: String,
    /// Emotional intensity, 1 to 10.
    pub intensity: u8,
    /// Narrative mode: present, flashback, dream or thought.
    pub narrative: String,
    /// Visual atmosphere in a few words.
    pub atmosphere: String,
    /// Content summary in one sentence.
    pub content: String,
}

/// A mood label with the page features, from one answer.
#[derive(Debug, Clone)]
pub struct HybridResult {
    pub mood: BaseMood,
    pub features: PageFeatures,
}

pub struct FeaturesView {
    pub emotion: Seq<char>,
    pub intensity: u8,
    pub narrative: Seq<char>,
    pub atmosphere: Seq<char>,
    pub content: Seq<char>,
}

impl PageFeatures {
    pub open spec fn view(&self) -> FeaturesView {
        FeaturesView {
            emotion: self.emotion@,
            intensity: self.intensity,
            narrative: self.narrative@,
            atmosphere: self.atmosphere@,
            content: self.content@,
        }
    }
}

pub open spec fn emotion_pattern() -> Seq<char> {
    "(?i)EMOTION:\\s*(.+)"@
}

pub open spec fn intensity_pattern() -> Seq<char> {
    "(?i)INTENSITY:\\s*(\\d+)"@
}

pub open spec fn narrative_pattern() -> Seq<char> {
    "(?i)NARRATIVE:\\s*(.+)"@
}

pub open spec fn atmosphere_pattern() -> Seq<char> {
    "(?i)ATMOSPHERE:\\s*(.+)"@
}

pub open spec fn content_pattern() -> Seq<char> {
    "(?i)CONTENT:\\s*(.+)"@
}

pub open spec fn mood_pattern() -> Seq<char> {
    "(?i)MOOD:\\s*(.+)"@
}

fn emotion_re() -> (s: &'static str)
    ensures
        s@ == emotion_pattern(),
{
    "(?i)EMOTION:\\s*(.+)"
}

fn intensity_re() -> (s: &'static str)
    ensures
        s@ == intensity_pattern(),
{
    "(?i)INTENSITY:\\s*(\\d+)"
}

fn narrative_re() -> (s: &'static str)
    ensures
        s@ == narrative_pattern(),
{
    "(?i)NARRATIVE:\\s*(.+)"
}

fn atmosphere_re() -> (s: &'static str)
    ensures
        s@ == atmosphere_pattern(),
{
    "(?i)ATMOSPHERE:\\s*(.+)"
}

fn content_re() -> (s: &'static str)
    ensures
        s@ == content_pattern(),
{
    "(?i)CONTENT:\\s*(.+)"
}

fn mood_re() -> (s: &'static str)
    ensures
        s@ == mood_pattern(),
{
    "(?i)MOOD:\\s*(.+)"
}

/// The text after the closing `</think>` tag, or all of it.
pub open spec fn after_think(s: Seq<char>) -> Seq<char> {
    match first_occurrence(s, "</think>"@) {
        Some(pos) => s.subrange(pos + 8, s.len() as int),
        None => s,
    }
}

fn strip_think(s: &str) -> (r: &str)
    ensures
        r@ == after_think(s@),
{
    proof {
        reveal_strlit("</think>");
        crate::text::lemma_first_occurrence(s@, "</think>"@);
    }
    match find_text(s, "</think>") {
        Some(pos) => {
            let n = s.unicode_len();
            s.substring_char(pos + 8, n)
        },
        None => s,
    }
}

/// The text of a summary reply: what follows any `</think>`, without
/// surrounding whitespace.
pub fn summary_text(content: &str) -> (r: &str)
    ensures
        r@ == trim_seq(after_think(content@)),
{
    trim(strip_think(content))
}

/// Group 1 of the first match, when there is a match and the group took part.
pub open spec fn first_group(ms: Seq<Seq<Option<Seq<char>>>>) -> Option<Seq<char>> {
    if ms.len() > 0 && ms[0].len() > 0 {
        ms[0][0]
    } else {
        None
    }
}

fn first_group_exec(ms: &Vec<Vec<Option<String>>>) -> (r: Option<String>)
    ensures
        opt_view(r) == first_group(captures_view(ms@)),
{
    if ms.len() > 0 && ms[0].len() > 0 {
        assert(captures_view(ms@)[0] == ms@[0]@.map_values(|g: Option<String>| opt_view(g)));
        assert(captures_view(ms@)[0][0] == opt_view(ms@[0]@[0]));
        ms[0][0].clone()
    } else {
        None
    }
}

/// The narrative mode a narrative field names.
pub open spec fn narrative_mode(raw: Seq<char>) -> Seq<char> {
    if contains_text(raw, "flashback"@) {
        "flashback"@
    } else if contains_text(raw, "dream"@) {
        "dream"@
    } else if contains_text(raw, "thought"@) {
        "thought"@
    } else {
        "present"@
    }
}

fn narrative_mode_exec(raw: &str) -> (r: String)
    ensures
        r@ == narrative_mode(raw@),
{
    if contains_str(raw, "flashback") {
        "flashback".to_string()
    } else if contains_str(raw, "dream") {
        "dream".to_string()
    } else if contains_str(raw, "thought") {
        "thought".to_string()
    } else {
        "present".to_string()
    }
}

pub open spec fn clamp_u8(v: u8, lo: u8, hi: u8) -> u8 {
    if v < lo {
        lo
    } else if v > hi {
        hi
    } else {
        v
    }
}

/// The intensity field read as a number (5 when absent or not a number), kept within 1 to 10.
pub open spec fn feature_intensity(ms: Seq<Seq<Option<Seq<char>>>>) -> u8 {
    let v = match first_group(ms) {
        Some(t) => match parse_u8_spec(trim_seq(t)) {
            Some(n) => n,
            None => 5u8,
        },
        None => 5u8,
    };
    clamp_u8(v, 1, 10)
}

fn feature_intensity_exec(ms: &Vec<Vec<Option<String>>>) -> (r: u8)
    ensures
        r == feature_intensity(captures_view(ms@)),
{
    let v: u8 = match first_group_exec(ms) {
        Some(t) => match parse_u8(trim(t.as_str())) {
            Some(n) => n,
            None => 5,
        },
        None => 5,
    };
    if v < 1 {
        1
    } else if v > 10 {
        10
    } else {
        v
    }
}

/// The trimmed text of a field, or `default` when it is absent.
pub open spec fn field_or(ms: Seq<Seq<Option<Seq<char>>>>, default: Seq<char>) -> Seq<char> {
    match first_group(ms) {
        Some(t) => trim_seq(t),
        None => default,
    }
}

fn field_or_exec(ms: &Vec<Vec<Option<String>>>, default: &str) -> (r: String)
    ensures
        r@ == field_or(captures_view(ms@), default@),
{
    match first_group_exec(ms) {
        Some(t) => trim(t.as_str()).to_string(),
        None => default.to_string(),
    }
}

/// The narrative field's mode, present when the field is absent.
pub open spec fn narrative_field(ms: Seq<Seq<Option<Seq<char>>>>) -> Seq<char> {
    match first_group(ms) {
        Some(t) => narrative_mode(lowercased(trim_seq(t))),
        None => "present"@,
    }
}

fn narrative_field_exec(ms: &Vec<Vec<Option<String>>>) -> (r: String)
    ensures
        r@ == narrative_field(captures_view(ms@)),
{
    match first_group_exec(ms) {
        Some(t) => {
            let lower = to_lowercase(trim(t.as_str()));
            narrative_mode_exec(lower.as_str())
        },
        None => "present".to_string(),
    }
}

/// Every pattern of the feature parsers compiles.
pub open spec fn feature_patterns_compile() -> bool {
    &&& regex_compiles(emotion_pattern())
    &&& regex_compiles(intensity_pattern())
    &&& regex_compiles(narrative_pattern())
    &&& regex_compiles(atmosphere_pattern())
    &&& regex_compiles(content_pattern())
}

/// The features of a structured answer (after any `</think>`): the emotion
/// trimmed and lowercased, which must be there; the other fields with their defaults.
pub open spec fn structured_features(text: Seq<char>) -> Result<FeaturesView, Seq<char>> {
    match first_group(regex_captures(emotion_pattern(), text)) {
        None => Err("EMOTION field not found in: '"@ + byte_prefix(text, 200) + "'"@),
        Some(e) => Ok(
            FeaturesView {
                emotion: lowercased(trim_seq(e)),
                intensity: feature_intensity(regex_captures(intensity_pattern(), text)),
                narrative: narrative_field(regex_captures(narrative_pattern(), text)),
                atmosphere: field_or(regex_captures(atmosphere_pattern(), text), "neutral"@),
                content: field_or(regex_captures(content_pattern(), text), "Unknown content"@),
            },
        ),
    }
}

pub open spec fn features_result(r: Result<PageFeatures, String>) -> Result<FeaturesView, Seq<char>> {
    match r {
        Ok(f) => Ok(f@),
        Err(e) => Err(e@),
    }
}

fn regex_error_message(e: String) -> (m: String)
    ensures
        m@ == "Regex error: "@ + e@,
{
    let mut m = "Regex error: ".to_string();
    m.append(e.as_str());
    m
}

/// Finds the captures of `pattern`, turning a compile error into a message.
fn captures_or_error(pattern: &str, text: &str) -> (r: Result<Vec<Vec<Option<String>>>, String>)
    ensures
        r is Ok <==> regex_compiles(pattern@),
        r matches Ok(ms) ==> captures_view(ms@) == regex_captures(pattern@, text@),
{
    match find_captures(pattern, text) {
        Ok(ms) => Ok(ms),
        Err(e) => Err(regex_error_message(e)),
    }
}

/// Parses the answer of the structured extraction prompt, one `FIELD: value`
/// per line. A pattern that does not compile gives an error.
pub fn parse_structured_response(content: &str) -> (r: Result<PageFeatures, String>)
    ensures
        feature_patterns_compile() ==> features_result(r) == structured_features(after_think(content@)),
        !feature_patterns_compile() ==> r is Err,
{
    let text = strip_think(content);
    let emotion_ms = captures_or_error(emotion_re(), text)?;
    let intensity_ms = captures_or_error(intensity_re(), text)?;
    let narrative_ms = captures_or_error(narrative_re(), text)?;
    let atmosphere_ms = captures_or_error(atmosphere_re(), text)?;
    let content_ms = captures_or_error(content_re(), text)?;
    let emotion = match first_group_exec(&emotion_ms) {
        Some(e) => to_lowercase(trim(e.as_str())),
        None => {
            let mut msg = "EMOTION field not found in: '".to_string();
            msg.append(prefix_within_bytes(text, 200));
            msg.append("'");
            return Err(msg);
        },
    };
    let intensity = feature_intensity_exec(&intensity_ms);
    let narrative = narrative_field_exec(&narrative_ms);
    let atmosphere = field_or_exec(&atmosphere_ms, "neutral");
    let content_val = field_or_exec(&content_ms, "Unknown content");
    Ok(PageFeatures { emotion, intensity, narrative, atmosphere, content: content_val })
}

/// The mood of a mood field: the name itself, else the mood named last in it,
/// else the fallback of the emotion.
pub open spec fn mood_field(raw_mood: Seq<char>, emotion: Seq<char>) -> BaseMood {
    match mood_from_name(raw_mood) {
        Some(m) => m,
        None => match latest_mood(raw_mood, 8) {
            Some(found) => found.0,
            None => emotion_mood(emotion),
        },
    }
}

pub open spec fn hybrid_view(r: HybridResult) -> (BaseMood, FeaturesView) {
    (r.mood, r.features@)
}

/// The mood and features of a hybrid answer (after any `</think>`): the emotion
/// normalized (neutral when absent), the mood from the mood field or, without
/// one, from the emotion; the other fields with their defaults.
pub open spec fn hybrid_features(text: Seq<char>) -> (BaseMood, FeaturesView) {
    let raw_emotion = match first_group(regex_captures(emotion_pattern(), text)) {
        Some(e) => lowercased(trim_seq(e)),
        None => "neutral"@,
    };
    let emotion = canonical_emotion(lowercased(trim_seq(raw_emotion)));
    let ms = regex_captures(mood_pattern(), text);
    let mood = if ms.len() > 0 {
        mood_field(lowercased(trim_seq(group(ms[0], 0))), emotion)
    } else {
        emotion_mood(emotion)
    };
    (
        mood,
        FeaturesView {
            emotion,
            intensity: feature_intensity(regex_captures(intensity_pattern(), text)),
            narrative: narrative_field(regex_captures(narrative_pattern(), text)),
            atmosphere: field_or(regex_captures(atmosphere_pattern(), text), "neutral"@),
            content: field_or(regex_captures(content_pattern(), text), "Unknown content"@),
        },
    )
}

/// Parses the answer of the hybrid prompt: a `MOOD:` line and the feature
/// lines. A pattern that does not compile gives an error.
pub fn parse_hybrid_response(content: &str) -> (r: Result<HybridResult, String>)
    ensures
        (feature_patterns_compile() && regex_compiles(mood_pattern())) ==> (r matches Ok(h) && hybrid_view(h)
            == hybrid_features(after_think(content@))),
        !(feature_patterns_compile() && regex_compiles(mood_pattern())) ==> r is Err,
{
    let text = strip_think(content);
    let mood_ms = captures_or_error(mood_re(), text)?;
    let emotion_ms = captures_or_error(emotion_re(), text)?;
    let intensity_ms = captures_or_error(intensity_re(), text)?;
    let narrative_ms = captures_or_error(narrative_re(), text)?;
    let atmosphere_ms = captures_or_error(atmosphere_re(), text)?;
    let content_ms = captures_or_error(content_re(), text)?;
    let raw_emotion = match first_group_exec(&emotion_ms) {
        Some(e) => to_lowercase(trim(e.as_str())),
        None => "neutral".to_string(),
    };
    let emotion = normalize_emotion(raw_emotion.as_str());
    let mood = if mood_ms.len() > 0 {
        assert(captures_view(mood_ms@)[0] == mood_ms@[0]@.map_values(|g: Option<String>| opt_view(g)));
        let raw_mood = to_lowercase(trim(group_text(&mood_ms[0], 0)));
        match BaseMood::from_str_opt(raw_mood.as_str()) {
            Some(m) => m,
            None => match latest_mood_exec(raw_mood.as_str()) {
                Some(found) => found.0,
                None => crate::reply::emotion_to_mood_fallback(emotion.as_str()),
            },
        }
    } else {
        crate::reply::emotion_to_mood_fallback(emotion.as_str())
    };
    let intensity = feature_intensity_exec(&intensity_ms);
    let narrative = narrative_field_exec(&narrative_ms);
    let atmosphere = field_or_exec(&atmosphere_ms, "neutral");
    let content_val = field_or_exec(&content_ms, "Unknown content");
    Ok(HybridResult { mood, features: PageFeatures { emotion, intensity, narrative, atmosphere, content: content_val } })
}


// ─── Window predictions ─────────────────────────────────────────────────────

/// The mood and intensity of a window answer: the parsed answer; failing that,
/// the mood named last after any `</think>` of the lowercased reply, at medium
/// intensity.
pub open spec fn prediction_of(reply: ChatReply) -> Result<(BaseMood, MoodIntensity), Seq<char>> {
    match reply_text(reply) {
        None => Err("No content in response"@),
        Some(c) => {
            match mood_from_reply(cleaned_reply(c)) {
                Some(Ok(t)) => Ok((t.mood, t.intensity)),
                _ => {
                    let cl = after_think(lowercased(c));
                    match latest_mood(cl, 8) {
                        Some(found) => Ok((found.0, MoodIntensity::Medium)),
                        None => Err(no_mood_message(cl, 120)),
                    }
                },
            }
        },
    }
}

pub open spec fn prediction_result(r: Result<(BaseMood, MoodIntensity), String>) -> Result<
    (BaseMood, MoodIntensity),
    Seq<char>,
> {
    match r {
        Ok(p) => Ok(p),
        Err(e) => Err(e@),
    }
}

/// Reads the mood and intensity a window answer gives.
pub fn parse_prediction(reply: &ChatReply) -> (r: Result<(BaseMood, MoodIntensity), String>)
    ensures
        prediction_result(r) == prediction_of(*reply),
{
    match parse_mood_intensity_response(reply) {
        Ok(tag) => Ok((tag.mood, tag.intensity)),
        Err(_) => {
            let raw = match extract_content(reply) {
                Some(c) => c,
                None => {
                    return Err("No content in response".to_string());
                },
            };
            let lower = to_lowercase(raw.as_str());
            let cleaned = strip_think(lower.as_str());
            match latest_mood_exec(cleaned) {
                Some(found) => Ok((found.0, MoodIntensity::Medium)),
                None => {
                    let mut msg = "No mood found in response: '".to_string();
                    msg.append(prefix_within_bytes(cleaned, 120));
                    msg.append("'");
                    Err(msg)
                },
            }
        },
    }
}

// ─── Page lists ─────────────────────────────────────────────────────────────

/// `PAGE n: mood` (or `MOOD n: mood`, optionally `mood = word`), any case.
pub open spec fn page_list_pattern() -> Seq<char> {
    "(?i)(?:PAGE|MOOD)\\s+(\\d+)\\s*:\\s*(?:mood\\s*=\\s*)?(\\w+)"@
}

fn page_list_re() -> (s: &'static str)
    ensures
        s@ == page_list_pattern(),
{
    "(?i)(?:PAGE|MOOD)\\s+(\\d+)\\s*:\\s*(?:mood\\s*=\\s*)?(\\w+)"
}

/// The pages and moods read from the matches, in order: a match counts when
/// its number is a `u32` and its word, lowercased, names a mood.
pub open spec fn page_moods(ms: Seq<Seq<Option<Seq<char>>>>) -> Seq<(u32, BaseMood)>
    decreases ms.len(),
{
    if ms.len() == 0 {
        Seq::empty()
    } else {
        let prev = page_moods(ms.drop_last());
        let m = ms.last();
        match (parse_u32_spec(group(m, 0)), mood_from_name(lowercased(group(m, 1)))) {
            (Some(n), Some(mood)) => prev.push((n, mood)),
            _ => prev,
        }
    }
}

pub open spec fn no_page_moods_message(label: Seq<char>, text: Seq<char>) -> Seq<char> {
    "No moods parsed from "@ + label + ": '"@ + byte_prefix(text, 300) + "'"@
}

/// The page moods of a model reply, or the error naming the request `label`
/// when none could be read.
pub open spec fn page_moods_result(content: Seq<char>, label: Seq<char>) -> Result<Seq<(u32, BaseMood)>, Seq<char>> {
    let text = after_think(content);
    let ps = page_moods(regex_captures(page_list_pattern(), text));
    if ps.len() == 0 {
        Err(no_page_moods_message(label, text))
    } else {
        Ok(ps)
    }
}

/// Reads the `PAGE n: mood` lines of a batch reply (after any `</think>`);
/// `label` names the request in the error when no line could be read.
pub fn parse_page_moods(content: &str, label: &str) -> (r: Result<Vec<(u32, BaseMood)>, String>)
    ensures
        regex_compiles(page_list_pattern()) ==> match r {
            Ok(v) => page_moods_result(content@, label@) == Ok::<Seq<(u32, BaseMood)>, Seq<char>>(v@),
            Err(e) => page_moods_result(content@, label@) == Err::<Seq<(u32, BaseMood)>, Seq<char>>(e@),
        },
        !regex_compiles(page_list_pattern()) ==> r is Err,
{
    let text = strip_think(content);
    let ms = captures_or_error(page_list_re(), text)?;
    let ghost cv = captures_view(ms@);
    let mut out: Vec<(u32, BaseMood)> = Vec::new();
    let mut i: usize = 0;
    while i < ms.len()
        invariant
            i <= ms@.len(),
            cv == captures_view(ms@),
            out@ == page_moods(cv.take(i as int)),
        decreases ms@.len() - i,
    {
        let m = &ms[i];
        let ghost mv = m@.map_values(|g: Option<String>| opt_view(g));
        assert(cv[i as int] == mv);
        assert(cv.take(i + 1).drop_last() =~= cv.take(i as int));
        assert(cv.take(i + 1).last() == mv);
        let num = parse_u32(group_text(m, 0));
        let word = to_lowercase(group_text(m, 1));
        match (num, BaseMood::from_str_opt(word.as_str())) {
            (Some(n), Some(mood)) => out.push((n, mood)),
            _ => {},
        }
        i = i + 1;
    }
    assert(cv.take(ms@.len() as int) =~= cv);
    if out.len() == 0 {
        let mut msg = "No moods parsed from ".to_string();
        msg.append(label);
        msg.append(": '");
        msg.append(prefix_within_bytes(text, 300));
        msg.append("'");
        return Err(msg);
    }
    Ok(out)
}

} // verus!
