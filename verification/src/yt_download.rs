//! The decisions of an audio download with yt-dlp: which link may be
//! downloaded and under which cache key, what the error output says, when a
//! failed attempt is retried, and which file in the cache directory is the
//! result. Running yt-dlp and touching files are the app's part.

use vstd::prelude::*;

use crate::binaries::components;
use crate::json::{json_at, json_item_at, JsonItem};
use crate::text::{contains_str, contains_text, str_eq};
use crate::youtube::{
    canonical, canonical_url, extract_video_id, is_retryable_error, is_valid_youtube_url, parse_yt_dlp_error,
    retryable, valid_youtube_url, video_id_of, yt_dlp_error_message,
};

verus! {

/// How many times a download is tried before giving up.
pub const MAX_DOWNLOAD_ATTEMPTS: u32 = 3;

/// What a download is about: the video and the key it is cached under.
pub struct DownloadTarget {
    pub video_id: String,
    pub cache_url: String,
}

/// Checks a link before downloading: only a YouTube video link is accepted,
/// and its canonical watch link is the cache key.
pub fn download_target(url: &str) -> (r: Result<DownloadTarget, String>)
    ensures
        match r {
            Ok(t) => valid_youtube_url(url@) && video_id_of(url@) == Some(t.video_id@) && t.cache_url@
                == canonical(t.video_id@),
            Err(e) => !valid_youtube_url(url@) && e@ == "Invalid YouTube URL"@,
        },
{
    if !is_valid_youtube_url(url) {
        return Err("Invalid YouTube URL".to_string());
    }
    match extract_video_id(url) {
        Some(id) => {
            let cache_url = canonical_url(id.as_str());
            Ok(DownloadTarget { video_id: id, cache_url })
        },
        None => {
            assert(false);
            Err("Could not extract video ID from URL".to_string())
        },
    }
}

/// An error output line worth reporting.
pub fn is_error_line(line: &str) -> (r: bool)
    ensures
        r == (contains_text(line@, "ERROR"@) || contains_text(line@, "error:"@)),
{
    contains_str(line, "ERROR") || contains_str(line, "error:")
}

/// A line telling that yt-dlp is fixing up or remuxing the audio.
pub fn is_processing_line(line: &str) -> (r: bool)
    ensures
        r == (contains_text(line@, "[FixupM4a]"@) || contains_text(line@, "[Remux]"@)),
{
    contains_str(line, "[FixupM4a]") || contains_str(line, "[Remux]")
}

/// The lines joined with line feeds.
pub open spec fn joined(ls: Seq<Seq<char>>) -> Seq<char>
    decreases ls.len(),
{
    if ls.len() == 0 {
        Seq::empty()
    } else if ls.len() == 1 {
        ls[0]
    } else {
        joined(ls.drop_last()) + "\n"@ + ls.last()
    }
}

/// Joins the lines with line feeds.
pub fn join_lines(lines: &Vec<String>) -> (r: String)
    ensures
        r@ == joined(components(lines@)),
{
    let mut r = String::new();
    let mut i: usize = 0;
    while i < lines.len()
        invariant
            i <= lines@.len(),
            r@ == joined(components(lines@.subrange(0, i as int))),
        decreases lines@.len() - i,
    {
        let ghost before = components(lines@.subrange(0, i as int));
        let ghost after = components(lines@.subrange(0, i + 1));
        assert(after.drop_last() =~= before);
        assert(after.last() == lines@[i as int]@);
        if i > 0 {
            r.append("\n");
        }
        r.append(lines[i].as_str());
        i = i + 1;
    }
    assert(lines@.subrange(0, lines@.len() as int) =~= lines@);
    r
}

/// What follows a failed attempt.
#[derive(Debug)]
pub enum AttemptOutcome {
    /// A network failure with attempts left: clean up and try again.
    Retry,
    /// Give up with this message.
    Fail(String),
}

pub open spec fn failure_message(text: Seq<char>) -> Seq<char> {
    if text.len() == 0 {
        "Download failed. Check the URL and try again."@
    } else {
        yt_dlp_error_message(text)
    }
}

/// Decides after attempt `attempt` failed with these error lines: a network
/// failure is retried while attempts are left; otherwise the error output is
/// turned into a message.
pub fn failure_outcome(attempt: u32, error_lines: &Vec<String>) -> (r: AttemptOutcome)
    requires
        1 <= attempt <= MAX_DOWNLOAD_ATTEMPTS,
    ensures
        ({
            let text = joined(components(error_lines@));
            if !retryable(text) || attempt == MAX_DOWNLOAD_ATTEMPTS {
                r matches AttemptOutcome::Fail(m) && m@ == failure_message(text)
            } else {
                r is Retry
            }
        }),
{
    let text = join_lines(error_lines);
    if !is_retryable_error(text.as_str()) || attempt == MAX_DOWNLOAD_ATTEMPTS {
        if text.as_str().unicode_len() == 0 {
            return AttemptOutcome::Fail("Download failed. Check the URL and try again.".to_string());
        }
        return AttemptOutcome::Fail(parse_yt_dlp_error(text.as_str()));
    }
    AttemptOutcome::Retry
}

/// The `title` string of the info file yt-dlp wrote, when the file is JSON
/// and has one.
pub open spec fn info_title_at(text: Seq<char>) -> Option<Seq<char>> {
    match json_item_at(text, "/title"@) {
        Some(JsonItem::Text(t)) => Some(t@),
        _ => None,
    }
}

/// Reads the `title` string of the info file yt-dlp wrote.
pub fn info_json_title(text: &str) -> (r: Option<String>)
    ensures
        match r {
            Some(t) => info_title_at(text@) == Some(t@),
            None => info_title_at(text@) is None,
        },
{
    proof {
        reveal_strlit("/title");
    }
    match json_at(text, "/title") {
        Some(JsonItem::Text(t)) => Some(t),
        _ => None,
    }
}

/// The title of the download: the one yt-dlp wrote, unless missing or empty,
/// else the video id.
pub fn download_title(title: Option<&str>, video_id: &str) -> (r: String)
    ensures
        r@ == (match title {
            Some(t) => if t@.len() > 0 {
                t@
            } else {
                video_id@
            },
            None => video_id@,
        }),
{
    match title {
        Some(t) => if t.unicode_len() > 0 {
            t.to_string()
        } else {
            video_id.to_string()
        },
        None => video_id.to_string(),
    }
}

/// The title of a download from the text of the info file yt-dlp wrote, if
/// there is one: its `title` unless missing or empty, else the video id.
pub fn title_from_info(info_text: Option<&str>, video_id: &str) -> (r: String)
    ensures
        r@ == (match info_text {
            Some(t) => match info_title_at(t@) {
                Some(title) => if title.len() > 0 {
                    title
                } else {
                    video_id@
                },
                None => video_id@,
            },
            None => video_id@,
        }),
{
    match info_text {
        Some(t) => {
            let title = info_json_title(t);
            match &title {
                Some(x) => download_title(Some(x.as_str()), video_id),
                None => download_title(None, video_id),
            }
        },
        None => download_title(None, video_id),
    }
}

pub open spec fn starts_with(s: Seq<char>, prefix: Seq<char>) -> bool {
    prefix.len() <= s.len() && s.subrange(0, prefix.len() as int) == prefix
}

pub open spec fn ends_with(s: Seq<char>, suffix: Seq<char>) -> bool {
    suffix.len() <= s.len() && s.subrange(s.len() - suffix.len(), s.len() as int) == suffix
}

/// Whether `s` begins with `prefix`.
pub fn text_starts_with(s: &str, prefix: &str) -> (r: bool)
    ensures
        r == starts_with(s@, prefix@),
{
    let n = s.unicode_len();
    let m = prefix.unicode_len();
    if m > n {
        return false;
    }
    str_eq(s.substring_char(0, m), prefix)
}

/// Whether `s` ends with `suffix`.
pub fn text_ends_with(s: &str, suffix: &str) -> (r: bool)
    ensures
        r == ends_with(s@, suffix@),
{
    let n = s.unicode_len();
    let m = suffix.unicode_len();
    if m > n {
        return false;
    }
    str_eq(s.substring_char(n - m, n), suffix)
}

/// A file of an earlier attempt for the video: its name begins with the video id.
pub fn is_video_file(name: &str, video_id: &str) -> (r: bool)
    ensures
        r == starts_with(name@, video_id@),
{
    text_starts_with(name, video_id)
}

/// The extensions, with their dot, of the audio files yt-dlp may leave.
pub open spec fn audio_suffixes() -> Seq<Seq<char>> {
    seq![".m4a"@, ".mp3"@, ".opus"@, ".webm"@, ".ogg"@, ".wav"@, ".flac"@, ".aac"@]
}

pub open spec fn has_audio_suffix(name: Seq<char>) -> bool {
    exists|k: int| 0 <= k < 8 && #[trigger] ends_with(name, audio_suffixes()[k])
}

/// The first `<id><ext>`, in the order of the extensions from `k` on, that is
/// among the names.
pub open spec fn first_exact(id: Seq<char>, names: Seq<Seq<char>>, k: int) -> Option<Seq<char>>
    decreases 8 - k,
{
    if k < 0 || k >= 8 {
        None
    } else if names.contains(id + audio_suffixes()[k]) {
        Some(id + audio_suffixes()[k])
    } else {
        first_exact(id, names, k + 1)
    }
}

/// The first name from position `i` on that begins with the id and has an audio extension.
pub open spec fn first_prefixed(id: Seq<char>, names: Seq<Seq<char>>, i: int) -> Option<Seq<char>>
    decreases names.len() - i,
{
    if i < 0 || i >= names.len() {
        None
    } else if starts_with(names[i], id) && has_audio_suffix(names[i]) {
        Some(names[i])
    } else {
        first_prefixed(id, names, i + 1)
    }
}

pub open spec fn downloaded_file(id: Seq<char>, names: Seq<Seq<char>>) -> Option<Seq<char>> {
    match first_exact(id, names, 0) {
        Some(n) => Some(n),
        None => first_prefixed(id, names, 0),
    }
}

pub open spec fn not_found_message(id: Seq<char>) -> Seq<char> {
    "Downloaded file not found for video "@ + id
}

fn audio_suffix_list() -> (v: Vec<&'static str>)
    ensures
        v@.len() == 8,
        forall|t: int| 0 <= t < 8 ==> #[trigger] v@[t]@ == audio_suffixes()[t],
{
    let v = vec![".m4a", ".mp3", ".opus", ".webm", ".ogg", ".wav", ".flac", ".aac"];
    assert(v@.map_values(|s: &str| s@) =~= audio_suffixes());
    assert forall|t: int| 0 <= t < 8 implies #[trigger] v@[t]@ == audio_suffixes()[t] by {
        assert(v@.map_values(|s: &str| s@)[t] == v@[t]@);
    }
    v
}

/// Finds the downloaded file among the names in the cache directory:
/// `<id><ext>` for the first audio extension that has one, else the first name
/// that begins with the id and ends with an audio extension.
pub fn pick_downloaded_file(video_id: &str, names: &Vec<String>) -> (r: Result<String, String>)
    ensures
        match r {
            Ok(n) => downloaded_file(video_id@, components(names@)) == Some(n@),
            Err(e) => downloaded_file(video_id@, components(names@)) is None && e@ == not_found_message(
                video_id@,
            ),
        },
{
    let exts = audio_suffix_list();
    let ghost ns = components(names@);
    let mut k: usize = 0;
    while k < 8
        invariant
            k <= 8,
            exts@.len() == 8,
            forall|t: int| 0 <= t < 8 ==> #[trigger] exts@[t]@ == audio_suffixes()[t],
            ns == components(names@),
            first_exact(video_id@, ns, 0) == first_exact(video_id@, ns, k as int),
        decreases 8 - k,
    {
        let mut candidate = video_id.to_string();
        candidate.append(exts[k]);
        assert(candidate@ == video_id@ + audio_suffixes()[k as int]);
        let mut j: usize = 0;
        let mut found = false;
        while j < names.len()
            invariant
                j <= names@.len(),
                ns == components(names@),
                !found,
                k < 8,
                candidate@ == video_id@ + audio_suffixes()[k as int],
                first_exact(video_id@, ns, 0) == first_exact(video_id@, ns, k as int),
                forall|t: int| 0 <= t < j ==> #[trigger] names@[t]@ != candidate@,
            decreases names@.len() - j,
        {
            if str_eq(names[j].as_str(), candidate.as_str()) {
                assert(ns[j as int] == candidate@);
                assert(ns.contains(candidate@));
                assert(first_exact(video_id@, ns, k as int) == Some(candidate@));
                return Ok(candidate);
            }
            j = j + 1;
        }
        assert(!ns.contains(candidate@)) by {
            if ns.contains(candidate@) {
                let t = choose|t: int| 0 <= t < ns.len() && ns[t] == candidate@;
                assert(names@[t]@ == candidate@);
            }
        }
        k = k + 1;
    }
    let mut i: usize = 0;
    while i < names.len()
        invariant
            i <= names@.len(),
            exts@.len() == 8,
            forall|t: int| 0 <= t < 8 ==> #[trigger] exts@[t]@ == audio_suffixes()[t],
            ns == components(names@),
            first_exact(video_id@, ns, 0) is None,
            first_prefixed(video_id@, ns, 0) == first_prefixed(video_id@, ns, i as int),
        decreases names@.len() - i,
    {
        let name = names[i].as_str();
        if text_starts_with(name, video_id) {
            let mut k2: usize = 0;
            let mut audio = false;
            while k2 < 8
                invariant
                    k2 <= 8,
                    exts@.len() == 8,
            forall|t: int| 0 <= t < 8 ==> #[trigger] exts@[t]@ == audio_suffixes()[t],
                    audio == exists|t: int| 0 <= t < k2 && #[trigger] ends_with(name@, audio_suffixes()[t]),
                decreases 8 - k2,
            {
                if text_ends_with(name, exts[k2]) {
                    assert(ends_with(name@, audio_suffixes()[k2 as int]));
                    audio = true;
                }
                k2 = k2 + 1;
            }
            if audio {
                assert(ns[i as int] == name@);
                return Ok(name.to_string());
            }
        }
        i = i + 1;
    }
    let mut msg = "Downloaded file not found for video ".to_string();
    msg.append(video_id);
    Err(msg)
}

} // verus!
