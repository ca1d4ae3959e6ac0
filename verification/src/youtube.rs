//! YouTube links and yt-dlp output: video ids, canonical links, playlist links,
//! download progress and error messages.

use vstd::prelude::*;

use crate::text::{
    byte_len, byte_prefix, chars_of, contains_str, contains_text, find_text, first_occurrence, lemma_first_occurrence,
    is_ascii_seq, lowercased, occurs_at, prefix_within_bytes, rfind_text, last_occurrence, lemma_last_occurrence, to_lowercase, trim,
    trim_seq,
};

verus! {

/// Whether a character is alphabetic or numeric in Unicode.
pub uninterp spec fn is_alphanumeric(c: char) -> bool;

/// An ASCII letter or digit.
pub open spec fn ascii_alphanumeric(c: char) -> bool {
    ('a' <= c && c <= 'z') || ('A' <= c && c <= 'Z') || ('0' <= c && c <= '9')
}

/// Whether a character is alphabetic or numeric: among ASCII characters the
/// letters and digits, elsewhere as `is_alphanumeric` names it.
pub open spec fn alphanumeric(c: char) -> bool {
    if (c as u32) < 128 {
        ascii_alphanumeric(c)
    } else {
        is_alphanumeric(c)
    }
}

/// Calls `char::is_alphanumeric`, whose result is named `is_alphanumeric`. Among
/// ASCII characters it holds exactly of letters and digits.
#[verifier::external_body]
pub(crate) fn char_is_alphanumeric(c: char) -> (r: bool)
    ensures
        r == is_alphanumeric(c),
        (c as u32) < 128 ==> (r <==> (('a' <= c && c <= 'z') || ('A' <= c && c <= 'Z') || ('0' <= c && c <= '9'))),
        r == alphanumeric(c),
{
    c.is_alphanumeric()
}

/// A character that may appear in a video id.
pub open spec fn id_char(c: char) -> bool {
    alphanumeric(c) || c == '-' || c == '_'
}

/// An ASCII character that may appear in a video id: a letter, a digit, `-`
/// or `_`.
pub open spec fn ascii_id_char(c: char) -> bool {
    ascii_alphanumeric(c) || c == '-' || c == '_'
}

/// End of the run of id characters starting at `i`.
pub open spec fn id_end(s: Seq<char>, i: int) -> int
    decreases s.len() - i,
{
    if 0 <= i < s.len() && id_char(s[i]) {
        id_end(s, i + 1)
    } else {
        i
    }
}

proof fn lemma_id_end(s: Seq<char>, i: int)
    requires
        0 <= i <= s.len(),
    ensures
        i <= id_end(s, i) <= s.len(),
    decreases s.len() - i,
{
    if 0 <= i < s.len() && id_char(s[i]) {
        lemma_id_end(s, i + 1);
    }
}

/// The id characters right after `marker`, when it occurs.
pub open spec fn id_after(url: Seq<char>, marker: Seq<char>) -> Option<Seq<char>> {
    match first_occurrence(url, marker) {
        Some(pos) => {
            let start = pos + marker.len();
            Some(url.subrange(start, id_end(url, start)))
        },
        None => None,
    }
}

/// The video id of a link: after `v=` (its first 11 bytes when longer), else
/// after `youtu.be/`, else after `/shorts/`; an empty id does not count.
pub open spec fn video_id_of(url: Seq<char>) -> Option<Seq<char>> {
    let from_v = match id_after(url, "v="@) {
        Some(id) => if byte_len(id) >= 11 {
            Some(byte_prefix(id, 11))
        } else if id.len() > 0 {
            Some(id)
        } else {
            None
        },
        None => None,
    };
    let from_short = nonempty_id(url, "youtu.be/"@);
    let from_shorts = nonempty_id(url, "/shorts/"@);
    if from_v is Some {
        from_v
    } else if from_short is Some {
        from_short
    } else {
        from_shorts
    }
}

pub open spec fn text_opt(s: Option<String>) -> Option<Seq<char>> {
    match s {
        Some(t) => Some(t@),
        None => None,
    }
}

/// The id characters after `marker` in `url`, when the marker occurs.
fn id_after_exec<'a>(url: &'a str, marker: &str) -> (r: Option<&'a str>)
    ensures
        match r {
            Some(id) => id_after(url@, marker@) == Some(id@),
            None => id_after(url@, marker@) is None,
        },
{
    proof {
        lemma_first_occurrence(url@, marker@);
    }
    match find_text(url, marker) {
        Some(pos) => {
            let v = chars_of(url);
            let m = chars_of(marker);
            let vn = v.len();
            assert(pos + m@.len() <= vn);
            let start = pos + m.len();
            let mut end = start;
            while end < v.len() && (char_is_alphanumeric(v[end]) || v[end] == '-' || v[end] == '_')
                invariant
                    v@ == url@,
                    start <= end <= v@.len(),
                    id_end(url@, end as int) == id_end(url@, start as int),
                decreases v@.len() - end,
            {
                end = end + 1;
            }
            Some(url.substring_char(start, end))
        },
        None => None,
    }
}

/// Extracts the video id from a YouTube link (`watch?v=`, `youtu.be/` or
/// `/shorts/`). Where an id of 11 bytes or more is cut inside a character, the
/// characters that fit in 11 bytes are kept.
pub fn extract_video_id(url: &str) -> (r: Option<String>)
    ensures
        text_opt(r) == video_id_of(url@),
        is_ascii_seq(url@) ==> (r matches Some(id) ==> id@.len() > 0 && forall|k: int|
            0 <= k < id@.len() ==> ascii_id_char(#[trigger] id@[k])),
{
    proof {
        reveal_strlit("v=");
        reveal_strlit("youtu.be/");
        reveal_strlit("/shorts/");
        if is_ascii_seq(url@) {
            lemma_ascii_video_id(url@);
        }
    }
    match id_after_exec(url, "v=") {
        Some(id) => {
            if crate::text::byte_count_capped(id, 11) >= 11 {
                return Some(prefix_within_bytes(id, 11).to_string());
            }
            if id.unicode_len() > 0 {
                return Some(id.to_string());
            }
        },
        None => {},
    }
    match nonempty_id_after(url, "youtu.be/") {
        Some(id) => Some(id),
        None => nonempty_id_after(url, "/shorts/"),
    }
}

/// The id after `marker`, when the marker occurs and the id is not empty.
pub open spec fn nonempty_id(url: Seq<char>, marker: Seq<char>) -> Option<Seq<char>> {
    match id_after(url, marker) {
        Some(id) => if id.len() > 0 {
            Some(id)
        } else {
            None
        },
        None => None,
    }
}

fn nonempty_id_after(url: &str, marker: &str) -> (r: Option<String>)
    ensures
        text_opt(r) == nonempty_id(url@, marker@),
{
    match id_after_exec(url, marker) {
        Some(id) => if id.unicode_len() > 0 {
            Some(id.to_string())
        } else {
            None
        },
        None => None,
    }
}

/// A YouTube watch, short-link or shorts link from which a video id can be read.
pub open spec fn valid_youtube_url(url: Seq<char>) -> bool {
    let lower = lowercased(url);
    &&& (contains_text(lower, "youtube.com/watch"@) || contains_text(lower, "youtu.be/"@) || contains_text(
        lower,
        "youtube.com/shorts/"@,
    ))
    &&& video_id_of(url) is Some
}

pub fn is_valid_youtube_url(url: &str) -> (r: bool)
    ensures
        r == valid_youtube_url(url@),
{
    let lower = to_lowercase(url);
    let l = lower.as_str();
    (contains_str(l, "youtube.com/watch") || contains_str(l, "youtu.be/") || contains_str(l, "youtube.com/shorts/"))
        && extract_video_id(url).is_some()
}

pub open spec fn canonical(video_id: Seq<char>) -> Seq<char> {
    "https://www.youtube.com/watch?v="@ + video_id
}

/// The canonical watch link of a video, used as cache key.
pub fn canonical_url(video_id: &str) -> (r: String)
    ensures
        r@ == canonical(video_id@),
{
    let mut r = "https://www.youtube.com/watch?v=".to_string();
    r.append(video_id);
    r
}

/// A link without its playlist: the canonical link of its video, or the
/// link itself when it names no video.
pub open spec fn stripped(url: Seq<char>) -> Seq<char> {
    match video_id_of(url) {
        Some(id) => canonical(id),
        None => url,
    }
}

/// The link without its playlist: the canonical link of its video, or the link itself.
pub fn strip_playlist_param(url: &str) -> (r: String)
    ensures
        r@ == stripped(url@),
{
    match extract_video_id(url) {
        Some(id) => canonical_url(id.as_str()),
        None => url.to_string(),
    }
}

/// Whether the link names a playlist.
pub fn has_playlist_param(url: &str) -> (r: bool)
    ensures
        r == contains_text(url@, "list="@),
{
    contains_str(url, "list=")
}

/// A pure playlist link: it has `list=` but no `v=`.
pub fn is_pure_playlist(url: &str) -> (r: bool)
    ensures
        r == (contains_text(url@, "list="@) && !contains_text(url@, "v="@)),
{
    has_playlist_param(url) && !contains_str(url, "v=")
}

// ─── yt-dlp output ──────────────────────────────────────────────────────────

pub open spec fn contains_any(s: Seq<char>, words: Seq<&'static str>) -> bool {
    exists|i: int| 0 <= i < words.len() && #[trigger] contains_text(s, words[i]@)
}

fn contains_any_exec(s: &str, words: &[&'static str]) -> (r: bool)
    ensures
        r == contains_any(s@, words@),
{
    let mut i: usize = 0;
    while i < words.len()
        invariant
            i <= words@.len(),
            forall|j: int| 0 <= j < i ==> !#[trigger] contains_text(s@, words@[j]@),
        decreases words@.len() - i,
    {
        if contains_str(s, words[i]) {
            return true;
        }
        i = i + 1;
    }
    false
}

pub open spec fn network_words() -> Seq<&'static str> {
    seq![
        "unable to download",
        "connection",
        "network",
        "timed out",
        "timeout",
        "urlopen error",
        "incomplete read",
        "errno 22",
    ]
}

/// A transient network failure worth retrying.
pub open spec fn retryable(stderr: Seq<char>) -> bool {
    contains_any(lowercased(stderr), network_words())
}

pub fn is_retryable_error(stderr: &str) -> (r: bool)
    ensures
        r == retryable(stderr@),
{
    let lower = to_lowercase(stderr);
    let words: [&'static str; 8] = [
        "unable to download",
        "connection",
        "network",
        "timed out",
        "timeout",
        "urlopen error",
        "incomplete read",
        "errno 22",
    ];
    assert(words@ =~= network_words());
    contains_any_exec(lower.as_str(), &words)
}

/// Position of the first line feed at or after `i`, or the length when none.
pub open spec fn next_newline(s: Seq<char>, i: int) -> int
    decreases s.len() - i,
{
    if i >= s.len() {
        s.len() as int
    } else if s[i] == '\n' {
        i
    } else {
        next_newline(s, i + 1)
    }
}

pub proof fn lemma_next_newline(s: Seq<char>, i: int)
    requires
        0 <= i <= s.len(),
    ensures
        i <= next_newline(s, i) <= s.len(),
        next_newline(s, i) < s.len() ==> s[next_newline(s, i)] == '\n',
    decreases s.len() - i,
{
    if i < s.len() && s[i] != '\n' {
        lemma_next_newline(s, i + 1);
    }
}

/// A line without its carriage return.
pub open spec fn strip_cr(l: Seq<char>) -> Seq<char> {
    if l.len() > 0 && l.last() == '\r' {
        l.drop_last()
    } else {
        l
    }
}

/// The lines of `s` from position `i` on, as `str::lines` gives them: split at
/// line feeds, a carriage return before one removed, no line after a final feed.
pub open spec fn lines_from(s: Seq<char>, i: int) -> Seq<Seq<char>>
    decreases s.len() - i,
{
    if i < 0 || i >= s.len() {
        Seq::empty()
    } else {
        let e = next_newline(s, i);
        proof {
            lemma_next_newline(s, i);
        }
        if e >= s.len() {
            seq![strip_cr(s.subrange(i, e))]
        } else {
            seq![strip_cr(s.subrange(i, e))] + lines_from(s, e + 1)
        }
    }
}

pub open spec fn lines(s: Seq<char>) -> Seq<Seq<char>> {
    lines_from(s, 0)
}

/// The first line holding `ERROR`, else the first line, else `Unknown error`.
pub open spec fn error_line(stderr: Seq<char>) -> Seq<char> {
    let ls = lines(stderr);
    if exists|i: int| 0 <= i < ls.len() && #[trigger] contains_text(ls[i], "ERROR"@) {
        ls[choose|i: int|
            0 <= i < ls.len() && #[trigger] contains_text(ls[i], "ERROR"@) && forall|j: int|
                0 <= j < i ==> !contains_text(ls[j], "ERROR"@)]
    } else if ls.len() > 0 {
        ls[0]
    } else {
        "Unknown error"@
    }
}

/// A readable message for a failed download.
pub open spec fn yt_dlp_error_message(stderr: Seq<char>) -> Seq<char> {
    let lower = lowercased(stderr);
    if contains_text(lower, "private video"@) || contains_text(lower, "sign in"@) {
        "This video is private or requires sign-in"@
    } else if contains_text(lower, "not available"@) || contains_text(lower, "unavailable"@) {
        "This video is not available"@
    } else if contains_text(lower, "not a valid url"@) || contains_text(lower, "unsupported url"@) {
        "Invalid YouTube URL"@
    } else if contains_text(lower, "unable to download"@) || contains_text(lower, "connection"@) || contains_text(
        lower,
        "network"@,
    ) {
        "Network error. Check your internet connection"@
    } else if contains_text(lower, "geo"@) || contains_text(lower, "country"@) {
        "This video is not available in your region"@
    } else {
        "Download failed: "@ + trim_seq(error_line(stderr))
    }
}

/// The lines of a text.
pub fn text_lines(s: &str) -> (ls: Vec<String>)
    ensures
        ls@.map_values(|l: String| l@) == lines(s@),
{
    let v = chars_of(s);
    let n = v.len();
    let mut out: Vec<String> = Vec::new();
    let mut i: usize = 0;
    while i < n
        invariant
            v@ == s@,
            n == v@.len(),
            i <= n,
            out@.map_values(|l: String| l@) + lines_from(s@, i as int) == lines(s@),
        decreases n - i,
    {
        let mut e = i;
        while e < n && v[e] != '\n'
            invariant
                v@ == s@,
                n == v@.len(),
                i <= e <= n,
                next_newline(s@, e as int) == next_newline(s@, i as int),
            decreases n - e,
        {
            e = e + 1;
        }
        let line = if e > i && v[e - 1] == '\r' {
            s.substring_char(i, e - 1)
        } else {
            s.substring_char(i, e)
        };
        let ghost prev = out@.map_values(|l: String| l@);
        proof {
            lemma_next_newline(s@, i as int);
            assert(line@ == strip_cr(s@.subrange(i as int, e as int)));
            if e < n {
                assert(lines_from(s@, i as int) == seq![line@] + lines_from(s@, e + 1));
            } else {
                assert(lines_from(s@, i as int) == seq![line@]);
                assert(lines_from(s@, n as int) == Seq::<Seq<char>>::empty());
            }
        }
        out.push(line.to_string());
        proof {
            assert(out@.map_values(|l: String| l@) =~= prev.push(line@));
            if e < n {
                assert(prev + (seq![line@] + lines_from(s@, e + 1)) =~= prev.push(line@) + lines_from(s@, e + 1));
            } else {
                assert(prev + seq![line@] =~= prev.push(line@) + lines_from(s@, n as int));
            }
        }
        if e >= n {
            i = n;
        } else {
            i = e + 1;
        }
    }
    proof {
        assert(lines_from(s@, i as int) == Seq::<Seq<char>>::empty());
        assert(out@.map_values(|l: String| l@) =~= lines(s@));
    }
    out
}

fn error_line_exec(stderr: &str) -> (r: String)
    ensures
        r@ == error_line(stderr@),
{
    let ls = text_lines(stderr);
    let ghost lv = ls@.map_values(|l: String| l@);
    proof {
        reveal_strlit("ERROR");
    }
    let mut i: usize = 0;
    while i < ls.len()
        invariant
            lv == ls@.map_values(|l: String| l@),
            lv == lines(stderr@),
            i <= ls@.len(),
            forall|j: int| 0 <= j < i ==> !#[trigger] contains_text(lv[j], "ERROR"@),
        decreases ls@.len() - i,
    {
        assert(lv[i as int] == ls@[i as int]@);
        if contains_str(ls[i].as_str(), "ERROR") {
            proof {
                let c = choose|c: int|
                    0 <= c < lv.len() && #[trigger] contains_text(lv[c], "ERROR"@) && forall|j: int|
                        0 <= j < c ==> !contains_text(lv[j], "ERROR"@);
                assert(contains_text(lv[i as int], "ERROR"@));
                if c < i {
                } else if c > i {
                }
            }
            return ls[i].clone();
        }
        i = i + 1;
    }
    if ls.len() > 0 {
        assert(lv[0] == ls@[0]@);
        ls[0].clone()
    } else {
        "Unknown error".to_string()
    }
}

/// Turns the error output of yt-dlp into a message for the user.
pub fn parse_yt_dlp_error(stderr: &str) -> (r: String)
    ensures
        r@ == yt_dlp_error_message(stderr@),
{
    let lower = to_lowercase(stderr);
    let l = lower.as_str();
    if contains_str(l, "private video") || contains_str(l, "sign in") {
        return "This video is private or requires sign-in".to_string();
    }
    if contains_str(l, "not available") || contains_str(l, "unavailable") {
        return "This video is not available".to_string();
    }
    if contains_str(l, "not a valid url") || contains_str(l, "unsupported url") {
        return "Invalid YouTube URL".to_string();
    }
    if contains_str(l, "unable to download") || contains_str(l, "connection") || contains_str(l, "network") {
        return "Network error. Check your internet connection".to_string();
    }
    if contains_str(l, "geo") || contains_str(l, "country") {
        return "This video is not available in your region".to_string();
    }
    let line = error_line_exec(stderr);
    let mut msg = "Download failed: ".to_string();
    msg.append(trim(line.as_str()));
    msg
}

/// The number text of a download progress line such as
/// `[download]  45.2% of 5.43MiB`: what stands between the last `]` before the
/// first `%` and that `%`, trimmed.
pub open spec fn progress_text(line: Seq<char>) -> Option<Seq<char>> {
    if !contains_text(line, "[download]"@) || !contains_text(line, "%"@) {
        None
    } else {
        let head = trim_seq(line.take(first_occurrence(line, "%"@)->0));
        match last_occurrence(head, "]"@) {
            Some(p) => Some(trim_seq(head.subrange(p + 1, head.len() as int))),
            None => None,
        }
    }
}

/// Finds the percentage text of a yt-dlp progress line.
pub fn progress_number_text(line: &str) -> (r: Option<String>)
    ensures
        text_opt(r) == progress_text(line@),
{
    proof {
        reveal_strlit("[download]");
        reveal_strlit("%");
        reveal_strlit("]");
        lemma_first_occurrence(line@, "%"@);
    }
    if !contains_str(line, "[download]") || !contains_str(line, "%") {
        return None;
    }
    let pos = match find_text(line, "%") {
        Some(p) => p,
        None => {
            return None;
        },
    };
    let head = trim(line.substring_char(0, pos));
    proof {
        lemma_last_occurrence(head@, "]"@);
    }
    match rfind_text(head, "]") {
        Some(p) => {
            let n = head.unicode_len();
            Some(trim(head.substring_char(p + 1, n)).to_string())
        },
        None => None,
    }
}


// ─── Laws ───────────────────────────────────────────────────────────────────

proof fn lemma_id_end_all(s: Seq<char>, i: int)
    requires
        0 <= i <= s.len(),
        forall|k: int| i <= k < s.len() ==> id_char(#[trigger] s[k]),
    ensures
        id_end(s, i) == s.len(),
    decreases s.len() - i,
{
    if i < s.len() {
        lemma_id_end_all(s, i + 1);
    }
}

proof fn lemma_ascii_byte_len(s: Seq<char>)
    requires
        forall|k: int| 0 <= k < s.len() ==> (#[trigger] s[k] as u32) < 0x80,
    ensures
        byte_len(s) == s.len(),
    decreases s.len(),
{
    if s.len() > 0 {
        lemma_ascii_byte_len(s.drop_last());
    }
}

proof fn lemma_ascii_fitting(s: Seq<char>, max: nat, k: int)
    requires
        0 <= k <= s.len(),
        k <= max,
        forall|j: int| 0 <= j < s.len() ==> (#[trigger] s[j] as u32) < 0x80,
    ensures
        crate::text::fitting_chars(s, max, k) == if s.len() <= max { s.len() as int } else { max as int },
    decreases s.len() - k,
{
    if k < s.len() {
        lemma_ascii_byte_len(s.take(k + 1));
        if k + 1 <= max {
            lemma_ascii_fitting(s, max, k + 1);
        }
    }
}

/// The canonical link of a video gives its id back (cut to 11 characters).
pub proof fn lemma_canonical_round_trip(id: Seq<char>)
    requires
        id.len() > 0,
        forall|k: int| 0 <= k < id.len() ==> id_char(#[trigger] id[k]) && (id[k] as u32) < 0x80,
    ensures
        video_id_of(canonical(id)) == Some(if id.len() >= 11 { id.take(11) } else { id }),
{
    reveal_strlit("https://www.youtube.com/watch?v=");
    reveal_strlit("v=");
    let u = canonical(id);
    let prefix = "https://www.youtube.com/watch?v="@;
    assert(prefix.len() == 32);
    assert(u.len() == 32 + id.len());
    assert(occurs_at(u, "v="@, 30)) by {
        assert(u.subrange(30, 32) =~= "v="@);
    }
    assert forall|j: int| 0 <= j < 30 implies !occurs_at(u, "v="@, j) by {
        assert(u[j] == prefix[j]);
        if occurs_at(u, "v="@, j) {
            assert(u.subrange(j, j + 2)[0] == u[j]);
        }
    }
    lemma_first_occurrence(u, "v="@);
    let fo = first_occurrence(u, "v="@);
    assert(fo == Some(30int)) by {
        let p = fo->0;
        if p < 30 {
        } else if p > 30 {
        }
    }
    assert forall|k: int| 32 <= k < u.len() implies id_char(#[trigger] u[k]) by {
        assert(u[k] == id[k - 32]);
    }
    lemma_id_end_all(u, 32);
    let got = u.subrange(32, u.len() as int);
    assert(got =~= id);
    lemma_ascii_byte_len(id);
    lemma_ascii_fitting(id, 11, 0);
}

/// A video id is never empty.
pub proof fn lemma_video_id_nonempty(url: Seq<char>)
    ensures
        video_id_of(url) matches Some(id) ==> id.len() > 0,
{
    match id_after(url, "v="@) {
        Some(id) => {
            if byte_len(id) >= 11 {
                assert(id.len() > 0);
                let one = id.take(1);
                assert(one.drop_last() =~= Seq::<char>::empty());
                assert(byte_len(Seq::<char>::empty()) == 0);
                assert(byte_len(one) == byte_len(one.drop_last()) + crate::text::utf8_len(one.last()));
                assert(byte_len(one) <= 4);
                crate::text::lemma_fitting_bounds(id, 11, 0);
                assert(crate::text::fitting_chars(id, 11, 0) >= 1) by {
                    reveal_with_fuel(crate::text::fitting_chars, 2);
                    lemma_fitting_grows(id, 11, 1);
                }
            }
        },
        None => {},
    }
}

proof fn lemma_fitting_grows(s: Seq<char>, max: nat, k: int)
    requires
        0 <= k <= s.len(),
    ensures
        crate::text::fitting_chars(s, max, k) >= k,
    decreases s.len() - k,
{
    if 0 <= k < s.len() && byte_len(s.take(k + 1)) <= max {
        lemma_fitting_grows(s, max, k + 1);
    }
}

proof fn lemma_id_run(s: Seq<char>, i: int)
    requires
        0 <= i <= s.len(),
    ensures
        forall|k: int| i <= k < id_end(s, i) ==> id_char(#[trigger] s[k]),
    decreases s.len() - i,
{
    lemma_id_end(s, i);
    if 0 <= i < s.len() && id_char(s[i]) {
        lemma_id_run(s, i + 1);
    }
}

/// The id after a marker in ASCII text is a run of ASCII id characters.
proof fn lemma_ascii_id_after(url: Seq<char>, marker: Seq<char>)
    requires
        is_ascii_seq(url),
    ensures
        id_after(url, marker) matches Some(id) ==> forall|k: int| 0 <= k < id.len() ==> ascii_id_char(#[trigger] id[k]),
{
    lemma_first_occurrence(url, marker);
    if let Some(pos) = first_occurrence(url, marker) {
        let start = pos + marker.len();
        lemma_id_end(url, start);
        lemma_id_run(url, start);
        let id = url.subrange(start, id_end(url, start));
        assert forall|k: int| 0 <= k < id.len() implies ascii_id_char(#[trigger] id[k]) by {
            assert(id[k] == url[start + k]);
            assert(id_char(url[start + k]));
            assert((url[start + k] as u32) < 128);
        }
    }
}

proof fn lemma_ascii_id_chars(id: Seq<char>)
    requires
        forall|k: int| 0 <= k < id.len() ==> ascii_id_char(#[trigger] id[k]),
    ensures
        forall|k: int| 0 <= k < id.len() ==> (#[trigger] id[k] as u32) < 0x80,
{
    assert forall|k: int| 0 <= k < id.len() implies (#[trigger] id[k] as u32) < 0x80 by {
        assert(ascii_id_char(id[k]));
    }
}

pub open spec fn all_ascii_id(t: Seq<char>) -> bool {
    forall|k: int| 0 <= k < t.len() ==> ascii_id_char(#[trigger] t[k])
}

proof fn lemma_take_ascii_id(t: Seq<char>, n: int)
    requires
        all_ascii_id(t),
        0 <= n <= t.len(),
    ensures
        all_ascii_id(t.take(n)),
{
    assert forall|k: int| 0 <= k < t.take(n).len() implies ascii_id_char(#[trigger] t.take(n)[k]) by {
        assert(t.take(n)[k] == t[k]);
    }
}

proof fn lemma_ascii_video_id_chars(url: Seq<char>)
    requires
        is_ascii_seq(url),
    ensures
        video_id_of(url) matches Some(id) ==> all_ascii_id(id),
{
    lemma_ascii_id_after(url, "v="@);
    lemma_ascii_id_after(url, "youtu.be/"@);
    lemma_ascii_id_after(url, "/shorts/"@);
    let v = id_after(url, "v="@);
    if let Some(id) = v {
        assert(all_ascii_id(id));
        crate::text::lemma_fitting_bounds(id, 11, 0);
        lemma_take_ascii_id(id, crate::text::fitting_chars(id, 11, 0));
        assert(all_ascii_id(byte_prefix(id, 11)));
    }
    let a = nonempty_id(url, "youtu.be/"@);
    let c = nonempty_id(url, "/shorts/"@);
    assert(a matches Some(id) ==> all_ascii_id(id));
    assert(c matches Some(id) ==> all_ascii_id(id));
}

proof fn lemma_ascii_v_id(url: Seq<char>)
    requires
        is_ascii_seq(url),
    ensures
        match id_after(url, "v="@) {
            Some(id) => id.len() > 0 ==> video_id_of(url) == Some(
                if id.len() >= 11 {
                    id.take(11)
                } else {
                    id
                },
            ),
            None => true,
        },
{
    lemma_ascii_id_after(url, "v="@);
    if let Some(id) = id_after(url, "v="@) {
        lemma_ascii_id_chars(id);
        lemma_ascii_byte_len(id);
        lemma_ascii_fitting(id, 11, 0);
    }
}

/// On ASCII links a video id is a non-empty run of ASCII letters, digits,
/// `-` and `_`; an id after `v=` is cut to its first 11 characters.
pub proof fn lemma_ascii_video_id(url: Seq<char>)
    requires
        is_ascii_seq(url),
    ensures
        video_id_of(url) matches Some(id) ==> id.len() > 0 && forall|k: int|
            0 <= k < id.len() ==> ascii_id_char(#[trigger] id[k]),
        match id_after(url, "v="@) {
            Some(id) => id.len() > 0 ==> video_id_of(url) == Some(
                if id.len() >= 11 {
                    id.take(11)
                } else {
                    id
                },
            ),
            None => true,
        },
{
    lemma_video_id_nonempty(url);
    lemma_ascii_video_id_chars(url);
    lemma_ascii_v_id(url);
    if let Some(id) = video_id_of(url) {
        assert(all_ascii_id(id));
    }
}

/// Removing the playlist from an ASCII link twice is the same as once, when
/// its video id has at most 11 characters.
pub proof fn lemma_strip_playlist_idempotent_ascii(url: Seq<char>)
    requires
        is_ascii_seq(url),
        video_id_of(url) matches Some(id) ==> id.len() <= 11,
    ensures
        stripped(stripped(url)) == stripped(url),
{
    if let Some(id) = video_id_of(url) {
        lemma_ascii_video_id(url);
        assert forall|k: int| 0 <= k < id.len() implies id_char(#[trigger] id[k]) && (id[k] as u32) < 0x80 by {
            assert(ascii_id_char(id[k]));
        }
        lemma_strip_playlist_idempotent(url);
    }
}

/// Removing the playlist from a link twice is the same as once, for links
/// whose video id is plain ASCII of at most 11 characters.
pub proof fn lemma_strip_playlist_idempotent(url: Seq<char>)
    requires
        video_id_of(url) matches Some(id) && id.len() <= 11 && forall|k: int|
            0 <= k < id.len() ==> id_char(#[trigger] id[k]) && (id[k] as u32) < 0x80,
    ensures
        video_id_of(canonical(video_id_of(url)->0)) == video_id_of(url),
{
    let id = video_id_of(url)->0;
    lemma_video_id_nonempty(url);
    lemma_canonical_round_trip(id);
    if id.len() == 11 {
        assert(id.take(11) =~= id);
    }
}

} // verus!
