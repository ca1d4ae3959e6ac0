//! Reading what yt-dlp prints when searching, listing a playlist or asking
//! for a stream link: each dumped line is parsed as JSON and the fields these
//! rules read are taken from it; running yt-dlp stays with the app.

use vstd::prelude::*;

use crate::text::{contains_str, contains_text, dec, lowercased, push_dec, to_lowercase, trim, trim_seq};
use crate::json::{json_at, json_item_at, json_valid, member_of, member_pointer, element_of, index_pointer, JsonItem};
use crate::youtube::{canonical, canonical_url, lines, text_lines};

verus! {

/// A field of a JSON object: missing, a string, or some other value.
#[derive(Debug)]
pub enum JsonField {
    Absent,
    Text(String),
    NotText,
}

/// A thumbnail value: a link, an object (with its `url` field), or something else.
#[derive(Debug)]
pub enum ThumbValue {
    Link(String),
    Object(JsonField),
    Other,
}

/// The fields of one line of yt-dlp's flat JSON dump that the listing reads.
#[derive(Debug)]
pub struct DumpedVideo {
    pub id: JsonField,
    pub title: JsonField,
    pub channel: JsonField,
    pub uploader: JsonField,
    /// The `thumbnail` field, when present.
    pub thumbnail: Option<ThumbValue>,
    /// The last element of the `thumbnails` array, when it is a non-empty array.
    pub thumbnails_last: Option<ThumbValue>,
    pub playlist_title: JsonField,
    pub playlist: JsonField,
}

/// A video found by a search or in a playlist.
#[derive(Debug)]
pub struct ListedVideo {
    pub video_id: String,
    pub title: String,
    pub channel: String,
    pub thumbnail_url: String,
    pub url: String,
}

/// The string of a field, or `default` when it is missing or not a string.
pub open spec fn text_or(f: JsonField, default: Seq<char>) -> Seq<char> {
    match f {
        JsonField::Text(s) => s@,
        _ => default,
    }
}

/// The first field when present, else the second.
pub open spec fn present_or(a: JsonField, b: JsonField) -> JsonField {
    match a {
        JsonField::Absent => b,
        _ => a,
    }
}

pub open spec fn thumb_link(t: Option<ThumbValue>) -> Seq<char> {
    match t {
        Some(ThumbValue::Link(s)) => s@,
        Some(ThumbValue::Object(JsonField::Text(u))) => u@,
        _ => Seq::empty(),
    }
}

/// The thumbnail link: the `thumbnail` field when present, else the last of
/// `thumbnails`; a string is the link, an object gives its `url`.
pub open spec fn thumbnail_of(v: DumpedVideo) -> Seq<char> {
    match v.thumbnail {
        Some(t) => thumb_link(Some(t)),
        None => thumb_link(v.thumbnails_last),
    }
}

pub open spec fn listed(v: DumpedVideo, r: ListedVideo) -> bool {
    &&& r.video_id@ == text_or(v.id, Seq::empty())
    &&& r.title@ == text_or(v.title, "Unknown"@)
    &&& r.channel@ == text_or(present_or(v.channel, v.uploader), Seq::empty())
    &&& r.thumbnail_url@ == thumbnail_of(v)
    &&& r.url@ == canonical(r.video_id@)
}

fn text_or_exec(f: &JsonField, default: &str) -> (r: String)
    ensures
        r@ == text_or(*f, default@),
{
    match f {
        JsonField::Text(s) => s.clone(),
        _ => default.to_string(),
    }
}

fn thumb_link_exec(t: &Option<ThumbValue>) -> (r: String)
    ensures
        r@ == thumb_link(*t),
{
    match t {
        Some(ThumbValue::Link(s)) => s.clone(),
        Some(ThumbValue::Object(JsonField::Text(u))) => u.clone(),
        _ => String::new(),
    }
}

/// The video a dumped line describes; none when it has no id.
pub fn listed_video(v: &DumpedVideo) -> (r: Option<ListedVideo>)
    ensures
        match r {
            Some(x) => text_or(v.id, Seq::empty()).len() > 0 && listed(*v, x),
            None => text_or(v.id, Seq::empty()).len() == 0,
        },
{
    proof {
        reveal_strlit("");
    }
    let video_id = text_or_exec(&v.id, "");
    if video_id.as_str().unicode_len() == 0 {
        return None;
    }
    let title = text_or_exec(&v.title, "Unknown");
    let channel = match &v.channel {
        JsonField::Absent => text_or_exec(&v.uploader, ""),
        c => text_or_exec(c, ""),
    };
    let thumbnail_url = match &v.thumbnail {
        Some(_) => thumb_link_exec(&v.thumbnail),
        None => thumb_link_exec(&v.thumbnails_last),
    };
    let url = canonical_url(video_id.as_str());
    assert(video_id@ == text_or(v.id, Seq::empty()));
    assert(title@ == text_or(v.title, "Unknown"@));
    assert(channel@ == text_or(present_or(v.channel, v.uploader), Seq::empty()));
    assert(thumbnail_url@ == thumbnail_of(*v));
    Some(ListedVideo { video_id, title, channel, thumbnail_url, url })
}

/// A playlist entry that stands for a deleted, private or unavailable video.
pub open spec fn gone_title(title: Seq<char>) -> bool {
    let lower = lowercased(title);
    contains_text(lower, "[deleted video]"@) || contains_text(lower, "[private video]"@) || contains_text(
        lower,
        "[unavailable]"@,
    )
}

pub fn is_gone_title(title: &str) -> (r: bool)
    ensures
        r == gone_title(title@),
{
    let lower = to_lowercase(title);
    let l = lower.as_str();
    contains_str(l, "[deleted video]") || contains_str(l, "[private video]") || contains_str(l, "[unavailable]")
}

/// The JSON text of one line that yt-dlp dumped: the line without its
/// surrounding whitespace, or none when nothing is left.
pub fn dumped_json_text(line: &str) -> (r: Option<&str>)
    ensures
        match r {
            Some(t) => t@ == trim_seq(line@) && t@.len() > 0,
            None => trim_seq(line@).len() == 0,
        },
{
    let t = trim(line);
    if t.unicode_len() == 0 {
        None
    } else {
        Some(t)
    }
}

/// Takes one dumped line of a playlist: the playlist's title is taken from
/// the first line with an id while it is still empty; the entry is kept unless
/// it has no id or stands for a video that is gone.
pub fn playlist_line(title: &mut String, v: &DumpedVideo) -> (r: Option<ListedVideo>)
    ensures
        text_or(v.id, Seq::empty()).len() == 0 ==> r is None && final(title)@ == old(title)@,
        text_or(v.id, Seq::empty()).len() > 0 ==> {
            &&& final(title)@ == (if old(title)@.len() == 0 {
                text_or(present_or(v.playlist_title, v.playlist), "Playlist"@)
            } else {
                old(title)@
            })
            &&& match r {
                Some(x) => listed(*v, x) && !gone_title(x.title@),
                None => gone_title(text_or(v.title, "Unknown"@)),
            }
        },
{
    match listed_video(v) {
        None => None,
        Some(x) => {
            if title.as_str().unicode_len() == 0 {
                let t = match &v.playlist_title {
                    JsonField::Absent => text_or_exec(&v.playlist, "Playlist"),
                    p => text_or_exec(p, "Playlist"),
                };
                *title = t;
            }
            if is_gone_title(x.title.as_str()) {
                None
            } else {
                Some(x)
            }
        },
    }
}

// ─── Reading a dumped line ──────────────────────────────────────────────────

/// A JSON item as a field: a string, missing, or some other value.
pub open spec fn field_of_item(i: Option<JsonItem>) -> JsonField {
    match i {
        Some(JsonItem::Text(s)) => JsonField::Text(s),
        Some(JsonItem::Absent) => JsonField::Absent,
        _ => JsonField::NotText,
    }
}

/// The member `key` of the top-level object of `text`.
pub open spec fn field_at(text: Seq<char>, key: Seq<char>) -> JsonField {
    field_of_item(json_item_at(text, member_pointer(""@, key)))
}

/// The thumbnail value at pointer `p`: none when missing; a string is a
/// link, an object gives its `url` member.
pub open spec fn thumb_at(text: Seq<char>, p: Seq<char>) -> Option<ThumbValue> {
    match json_item_at(text, p) {
        Some(JsonItem::Absent) => None,
        Some(JsonItem::Text(s)) => Some(ThumbValue::Link(s)),
        Some(JsonItem::Object) => Some(ThumbValue::Object(field_of_item(json_item_at(text, member_pointer(p, "url"@))))),
        _ => Some(ThumbValue::Other),
    }
}

/// The last element of the `thumbnails` array, when it is a non-empty array.
pub open spec fn last_thumb_at(text: Seq<char>) -> Option<ThumbValue> {
    match json_item_at(text, "/thumbnails"@) {
        Some(JsonItem::Array(n)) => if n > 0 {
            thumb_at(text, index_pointer("/thumbnails"@, (n - 1) as nat))
        } else {
            None
        },
        _ => None,
    }
}

/// The fields a listing reads from a JSON document; none when the text is
/// not JSON.
pub open spec fn dumped_of(text: Seq<char>) -> Option<DumpedVideo> {
    if json_valid(text) {
        Some(
            DumpedVideo {
                id: field_at(text, "id"@),
                title: field_at(text, "title"@),
                channel: field_at(text, "channel"@),
                uploader: field_at(text, "uploader"@),
                thumbnail: thumb_at(text, "/thumbnail"@),
                thumbnails_last: last_thumb_at(text),
                playlist_title: field_at(text, "playlist_title"@),
                playlist: field_at(text, "playlist"@),
            },
        )
    } else {
        None
    }
}

/// The text of the `duration` number of a JSON document, if it is a number.
pub open spec fn duration_at(text: Seq<char>) -> Option<Seq<char>> {
    match json_item_at(text, "/duration"@) {
        Some(JsonItem::Number(t)) => Some(t@),
        _ => None,
    }
}

/// What one dumped line holds: nothing for a blank line or one that is not
/// JSON, else the fields of its trimmed text.
pub open spec fn dumped_line_of(line: Seq<char>) -> Option<DumpedVideo> {
    if trim_seq(line).len() == 0 {
        None
    } else {
        dumped_of(trim_seq(line))
    }
}

pub open spec fn opt_seq(s: Option<String>) -> Option<Seq<char>> {
    match s {
        Some(t) => Some(t@),
        None => None,
    }
}

fn read_field(text: &str, key: &str) -> (f: JsonField)
    ensures
        f == field_at(text@, key@),
{
    let p = member_of("", key);
    proof {
        reveal_strlit("");
    }
    match json_at(text, p.as_str()) {
        Some(JsonItem::Text(s)) => JsonField::Text(s),
        Some(JsonItem::Absent) => JsonField::Absent,
        _ => JsonField::NotText,
    }
}

fn read_thumb(text: &str, p: &str) -> (t: Option<ThumbValue>)
    ensures
        t == thumb_at(text@, p@),
{
    match json_at(text, p) {
        Some(JsonItem::Absent) => None,
        Some(JsonItem::Text(s)) => Some(ThumbValue::Link(s)),
        Some(JsonItem::Object) => {
            let u = member_of(p, "url");
            let f = match json_at(text, u.as_str()) {
                Some(JsonItem::Text(s)) => JsonField::Text(s),
                Some(JsonItem::Absent) => JsonField::Absent,
                _ => JsonField::NotText,
            };
            Some(ThumbValue::Object(f))
        },
        _ => Some(ThumbValue::Other),
    }
}

fn read_last_thumb(text: &str) -> (t: Option<ThumbValue>)
    ensures
        t == last_thumb_at(text@),
{
    proof {
        reveal_strlit("/thumbnails");
    }
    match json_at(text, "/thumbnails") {
        Some(JsonItem::Array(n)) => if n > 0 {
            let p = element_of("/thumbnails", n - 1);
            read_thumb(text, p.as_str())
        } else {
            None
        },
        _ => None,
    }
}

/// Parses one dumped line: nothing for a blank line or one that is not JSON.
pub fn dumped_line(line: &str) -> (r: Option<DumpedVideo>)
    ensures
        r == dumped_line_of(line@),
{
    let text = match dumped_json_text(line) {
        Some(t) => t,
        None => {
            return None;
        },
    };
    proof {
        reveal_strlit("");
        reveal_strlit("/thumbnail");
    }
    if json_at(text, "").is_none() {
        return None;
    }
    Some(
        DumpedVideo {
            id: read_field(text, "id"),
            title: read_field(text, "title"),
            channel: read_field(text, "channel"),
            uploader: read_field(text, "uploader"),
            thumbnail: read_thumb(text, "/thumbnail"),
            thumbnails_last: read_last_thumb(text),
            playlist_title: read_field(text, "playlist_title"),
            playlist: read_field(text, "playlist"),
        },
    )
}

/// The text of the `duration` number of a dumped line, if it is one.
pub fn dumped_duration(line: &str) -> (r: Option<String>)
    ensures
        opt_seq(r) == duration_at(trim_seq(line@)),
{
    let text = trim(line);
    proof {
        reveal_strlit("/duration");
    }
    match json_at(text, "/duration") {
        Some(JsonItem::Number(t)) => Some(t),
        _ => None,
    }
}

/// One line of a search's dump: the video it lists, if any, with the text of
/// its duration.
pub fn search_line(line: &str) -> (r: Option<(ListedVideo, Option<String>)>)
    ensures
        match dumped_line_of(line@) {
            None => r is None,
            Some(v) => match r {
                Some((x, d)) => text_or(v.id, Seq::empty()).len() > 0 && listed(v, x) && opt_seq(d)
                    == duration_at(trim_seq(line@)),
                None => text_or(v.id, Seq::empty()).len() == 0,
            },
        },
{
    let v = match dumped_line(line) {
        Some(v) => v,
        None => {
            return None;
        },
    };
    match listed_video(&v) {
        Some(x) => Some((x, dumped_duration(line))),
        None => None,
    }
}

/// One line of a playlist's dump: as `playlist_line` takes the fields of the
/// line, with the text of its duration; a blank line or one that is not JSON
/// gives nothing and leaves the title as it was.
pub fn playlist_entry(title: &mut String, line: &str) -> (r: Option<(ListedVideo, Option<String>)>)
    ensures
        match dumped_line_of(line@) {
            None => r is None && final(title)@ == old(title)@,
            Some(v) => {
                &&& text_or(v.id, Seq::empty()).len() == 0 ==> r is None && final(title)@ == old(title)@
                &&& text_or(v.id, Seq::empty()).len() > 0 ==> {
                    &&& final(title)@ == (if old(title)@.len() == 0 {
                        text_or(present_or(v.playlist_title, v.playlist), "Playlist"@)
                    } else {
                        old(title)@
                    })
                    &&& match r {
                        Some((x, d)) => listed(v, x) && !gone_title(x.title@) && opt_seq(d) == duration_at(
                            trim_seq(line@),
                        ),
                        None => gone_title(text_or(v.title, "Unknown"@)),
                    }
                }
            },
        },
{
    let v = match dumped_line(line) {
        Some(v) => v,
        None => {
            return None;
        },
    };
    match playlist_line(title, &v) {
        Some(x) => Some((x, dumped_duration(line))),
        None => None,
    }
}

/// How many results a search asks for: between 1 and 20.
pub fn search_max(max_results: u32) -> (r: u32)
    ensures
        r == (if max_results > 20 {
            20
        } else if max_results < 1 {
            1
        } else {
            max_results
        }),
{
    let m = if max_results < 20 {
        max_results
    } else {
        20
    };
    if m > 1 {
        m
    } else {
        1
    }
}

/// The yt-dlp search term: `ytsearch<max>:<query>`.
pub fn search_query(max: u32, query: &str) -> (r: String)
    ensures
        r@ == "ytsearch"@ + dec(max as nat) + ":"@ + query@,
{
    let mut r = "ytsearch".to_string();
    push_dec(&mut r, max);
    r.append(":");
    r.append(query);
    r
}

/// What yt-dlp printed for a stream: the link, the duration text if any, and the format.
#[derive(Debug)]
pub struct StreamFields {
    pub url: String,
    pub duration_text: Option<String>,
    pub format: String,
}

pub open spec fn stream_lines(stdout: Seq<char>) -> Seq<Seq<char>> {
    lines(trim_seq(stdout))
}

/// Reads the printed link, duration and extension, one per line, of the
/// trimmed output; the format defaults to `m4a`.
pub fn parse_stream_output(stdout: &str) -> (r: Result<StreamFields, String>)
    ensures
        ({
            let ls = stream_lines(stdout@);
            match r {
                Ok(f) => {
                    &&& ls.len() > 0 && ls[0].len() > 0
                    &&& f.url@ == ls[0]
                    &&& f.duration_text matches Some(d) ==> ls.len() > 1 && d@ == ls[1]
                    &&& f.duration_text is None ==> ls.len() <= 1
                    &&& f.format@ == (if ls.len() > 2 {
                        ls[2]
                    } else {
                        "m4a"@
                    })
                },
                Err(e) => (ls.len() == 0 && e@ == "No output from yt-dlp stream extraction"@) || (ls.len() > 0
                    && ls[0].len() == 0 && e@ == "No stream URL in yt-dlp output"@),
            }
        }),
{
    let t = trim(stdout);
    let ls = text_lines(t);
    let ghost lv = ls@.map_values(|l: String| l@);
    if ls.len() == 0 {
        return Err("No output from yt-dlp stream extraction".to_string());
    }
    assert(lv[0] == ls@[0]@);
    if ls[0].as_str().unicode_len() == 0 {
        return Err("No stream URL in yt-dlp output".to_string());
    }
    let url = ls[0].clone();
    let duration_text = if ls.len() > 1 {
        assert(lv[1] == ls@[1]@);
        Some(ls[1].clone())
    } else {
        None
    };
    let format = if ls.len() > 2 {
        assert(lv[2] == ls@[2]@);
        ls[2].clone()
    } else {
        "m4a".to_string()
    };
    Ok(StreamFields { url, duration_text, format })
}

pub open spec fn stream_failure(stderr: Seq<char>) -> Seq<char> {
    "yt-dlp stream extraction failed: "@ + trim_seq(stderr)
}

/// The message for a failed stream extraction.
pub fn stream_failure_message(stderr: &str) -> (r: String)
    ensures
        r@ == stream_failure(stderr@),
{
    let mut r = "yt-dlp stream extraction failed: ".to_string();
    r.append(trim(stderr));
    r
}

/// How long, in seconds, a stream link is reused: four hours.
pub const STREAM_URL_TTL_SECS: u64 = 14_400;

/// A remembered stream link is reused while younger than four hours.
pub fn stream_link_fresh(elapsed_secs: u64) -> (r: bool)
    ensures
        r == (elapsed_secs < STREAM_URL_TTL_SECS),
{
    elapsed_secs < STREAM_URL_TTL_SECS
}

} // verus!
