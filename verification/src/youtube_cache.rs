//! The index of downloaded YouTube audio: which url was saved to which file,
//! and which video id names which url.
//!
//! Reading and writing the index file, and looking at the files on disk, are
//! the app's part; it hands the parsed index and what it found to these
//! functions.

use vstd::prelude::*;

use crate::binaries::components;
use crate::json::{element_of, index_pointer, json_at, json_item_at, member_of, member_pointer, JsonItem};
use crate::text::str_eq;
use crate::text_map::TextMap;

verus! {

/// One downloaded audio file.
#[derive(Debug)]
pub struct CacheEntry {
    pub url: String,
    pub cached_path: String,
    pub title: String,
    pub downloaded_at: String,
    pub file_size: u64,
}

pub struct CacheEntryView {
    pub url: Seq<char>,
    pub cached_path: Seq<char>,
    pub title: Seq<char>,
    pub downloaded_at: Seq<char>,
    pub file_size: u64,
}

impl View for CacheEntry {
    type V = CacheEntryView;

    open spec fn view(&self) -> CacheEntryView {
        CacheEntryView {
            url: self.url@,
            cached_path: self.cached_path@,
            title: self.title@,
            downloaded_at: self.downloaded_at@,
            file_size: self.file_size,
        }
    }
}

impl CacheEntry {
    /// A field-by-field copy.
    pub fn copied(&self) -> (r: CacheEntry)
        ensures
            r@ == self@,
    {
        CacheEntry {
            url: self.url.clone(),
            cached_path: self.cached_path.clone(),
            title: self.title.clone(),
            downloaded_at: self.downloaded_at.clone(),
            file_size: self.file_size,
        }
    }
}

/// The index file's contents.
#[derive(Debug)]
pub struct CacheIndex {
    pub entries: Vec<CacheEntry>,
}

pub open spec fn entry_views(s: Seq<CacheEntry>) -> Seq<CacheEntryView> {
    s.map_values(|e: CacheEntry| e@)
}

/// The url map that loading `s` in order builds: a later entry for a url wins.
pub open spec fn index_map(s: Seq<CacheEntryView>) -> Map<Seq<char>, CacheEntryView>
    decreases s.len(),
{
    if s.len() == 0 {
        Map::empty()
    } else {
        index_map(s.drop_last()).insert(s.last().url, s.last())
    }
}

/// The video id map that loading `s` builds when the file of its `i`th entry
/// has the stem `stems[i]`: each stem names its entry's url, a later one
/// winning.
pub open spec fn id_map(s: Seq<CacheEntryView>, stems: Seq<Option<Seq<char>>>) -> Map<Seq<char>, Seq<char>>
    decreases s.len(),
{
    if s.len() == 0 || stems.len() == 0 {
        Map::empty()
    } else {
        let rest = id_map(s.drop_last(), stems.drop_last());
        match stems.last() {
            Some(v) => rest.insert(v, s.last().url),
            None => rest,
        }
    }
}

/// The texts of optional strings.
pub open spec fn opt_texts(v: Seq<Option<String>>) -> Seq<Option<Seq<char>>> {
    v.map_values(|o: Option<String>| opt_text_of(o))
}

pub open spec fn opt_text_of(o: Option<String>) -> Option<Seq<char>> {
    match o {
        Some(t) => Some(t@),
        None => None,
    }
}

/// The urls of a listing, in order.
pub open spec fn urls_of(s: Seq<CacheEntryView>) -> Seq<Seq<char>> {
    s.map_values(|e: CacheEntryView| e.url)
}

/// Loading a listing keeps, for each url in it, the last entry with that url.
pub proof fn lemma_index_map_last_wins(s: Seq<CacheEntryView>, k: Seq<char>)
    ensures
        index_map(s).contains_key(k) <==> urls_of(s).contains(k),
        urls_of(s).contains(k) ==> exists|i: int|
            0 <= i < s.len() && s[i].url == k && index_map(s)[k] == s[i] && forall|j: int|
                i < j < s.len() ==> #[trigger] s[j].url != k,
    decreases s.len(),
{
    if s.len() > 0 {
        let p = s.drop_last();
        lemma_index_map_last_wins(p, k);
        assert(urls_of(p) =~= urls_of(s).drop_last());
        let n = s.len() - 1;
        if s.last().url == k {
            assert(urls_of(s)[n] == k);
        } else {
            if urls_of(s).contains(k) {
                let j = choose|j: int| 0 <= j < urls_of(s).len() && urls_of(s)[j] == k;
                assert(j != n);
                assert(urls_of(p)[j] == k);
            }
            if urls_of(p).contains(k) {
                let j = choose|j: int| 0 <= j < urls_of(p).len() && urls_of(p)[j] == k;
                assert(urls_of(s)[j] == k);
                let i = choose|i: int|
                    0 <= i < p.len() && p[i].url == k && index_map(p)[k] == p[i] && forall|j: int|
                        i < j < p.len() ==> #[trigger] p[j].url != k;
                assert(s[i] == p[i]);
                assert forall|j: int| i < j < s.len() implies #[trigger] s[j].url != k by {
                    if j < n {
                        assert(s[j] == p[j]);
                    }
                }
            }
        }
    }
}

/// Each video id that loading a listing records names the url of one of its
/// entries.
pub proof fn lemma_id_map_names_urls(s: Seq<CacheEntryView>, stems: Seq<Option<Seq<char>>>, v: Seq<char>)
    ensures
        id_map(s, stems).contains_key(v) ==> urls_of(s).contains(id_map(s, stems)[v]),
    decreases s.len(),
{
    if s.len() > 0 && stems.len() > 0 {
        let p = s.drop_last();
        lemma_id_map_names_urls(p, stems.drop_last(), v);
        assert(urls_of(p) =~= urls_of(s).drop_last());
        let n = s.len() - 1;
        assert(urls_of(s)[n] == s.last().url);
        if id_map(p, stems.drop_last()).contains_key(v) {
            let u = id_map(p, stems.drop_last())[v];
            if urls_of(p).contains(u) {
                let j = choose|j: int| 0 <= j < urls_of(p).len() && urls_of(p)[j] == u;
                assert(urls_of(s)[j] == u);
            }
        }
    }
}

/// A listing of `m` without repeated urls loads back to `m`.
pub proof fn lemma_listing_loads_back(s: Seq<CacheEntryView>, m: Map<Seq<char>, CacheEntryView>)
    requires
        urls_of(s).no_duplicates(),
        forall|i: int| 0 <= i < s.len() ==> m.contains_key(#[trigger] s[i].url) && m[s[i].url] == s[i],
        forall|k: Seq<char>| #[trigger] m.contains_key(k) ==> urls_of(s).contains(k),
    ensures
        index_map(s) == m,
{
    assert forall|k: Seq<char>| #[trigger] index_map(s).contains_key(k) <==> m.contains_key(k) by {
        lemma_index_map_last_wins(s, k);
        if urls_of(s).contains(k) {
            let j = choose|j: int| 0 <= j < urls_of(s).len() && urls_of(s)[j] == k;
            assert(s[j].url == k);
        }
    }
    assert forall|k: Seq<char>| #[trigger] index_map(s).contains_key(k) implies index_map(s)[k] == m[k] by {
        lemma_index_map_last_wins(s, k);
        let i = choose|i: int|
            0 <= i < s.len() && s[i].url == k && index_map(s)[k] == s[i] && forall|j: int|
                i < j < s.len() ==> #[trigger] s[j].url != k;
        assert(m[s[i].url] == s[i]);
    }
    assert(index_map(s) =~= m);
}

/// Recording an entry with its video id and then removing that id drops the
/// id and the entry of its url, and nothing else.
pub proof fn lemma_remove_after_insert(c: YouTubeCacheView, e: CacheEntryView, vid: Seq<char>)
    ensures
        ({
            let ids = c.video_ids.insert(vid, e.url);
            let entries = c.entries.insert(e.url, e);
            &&& ids.contains_key(vid) && ids[vid] == e.url
            &&& !ids.remove(vid).contains_key(vid)
            &&& !entries.remove(ids[vid]).contains_key(e.url)
            &&& forall|k: Seq<char>| k != e.url ==> #[trigger] entries.remove(ids[vid]).contains_key(k)
                == c.entries.contains_key(k)
        }),
{
}

/// The file stem of `cached_path` (`std::path::Path::file_stem`), as text.
/// Cached files are named after their video id, so the stem is the id.
/// The result depends on the platform's path separators; nothing is stated
/// of it.
#[verifier::external_body]
fn video_id_from_path(cached_path: &str) -> (r: Option<String>) {
    match std::path::Path::new(cached_path).file_stem() {
        Some(stem) => match stem.to_str() {
            Some(s) => Some(s.to_string()),
            None => None,
        },
        None => None,
    }
}

/// A clock reading as `SystemTime::duration_since(UNIX_EPOCH)` gives it:
/// `Ok` with the whole seconds and nanoseconds after the epoch, or `Err` with
/// those before it when the clock reads earlier.
pub type ClockReading = Result<(u64, u32), (u64, u32)>;

/// Reads the wall clock (`std::time::SystemTime::now`) against the Unix epoch
/// with `duration_since`. Claimed: the nanoseconds are below one second
/// (`Duration::subsec_nanos`); the reading itself is the machine's and is not
/// described.
#[verifier::external_body]
fn clock_since_epoch() -> (r: ClockReading)
    ensures
        match r {
            Ok((_, n)) => n < 1_000_000_000,
            Err((_, n)) => n < 1_000_000_000,
        },
{
    match std::time::SystemTime::now().duration_since(std::time::UNIX_EPOCH) {
        Ok(d) => Ok((d.as_secs(), d.subsec_nanos())),
        Err(e) => Err((e.duration().as_secs(), e.duration().subsec_nanos())),
    }
}

/// The RFC 3339 text that chrono writes for the instant `secs` seconds and
/// `nanos` nanoseconds after the Unix epoch in UTC; none when chrono cannot
/// represent that instant.
pub uninterp spec fn rfc3339_text(secs: i64, nanos: u32) -> Option<Seq<char>>;

/// `chrono::DateTime::<Utc>::from_timestamp(secs, nanos)` written by
/// `to_rfc3339`. Claimed: the result is the named `rfc3339_text`, none exactly
/// when `from_timestamp` refuses the instant. Neither call panics.
#[verifier::external_body]
fn rfc3339_at(secs: i64, nanos: u32) -> (r: Option<String>)
    ensures
        opt_text_of(r) == rfc3339_text(secs, nanos),
{
    match chrono::DateTime::<chrono::Utc>::from_timestamp(secs, nanos) {
        Some(t) => Some(t.to_rfc3339()),
        None => None,
    }
}

/// The instant of a clock reading as signed seconds and nanoseconds after
/// the epoch (the nanoseconds below one second); none when the seconds do
/// not fit in an `i64`.
pub open spec fn clock_instant(t: ClockReading) -> Option<(i64, u32)> {
    match t {
        Ok((s, n)) => if s <= i64::MAX {
            Some((s as i64, n))
        } else {
            None
        },
        Err((s, n)) => if s > i64::MAX {
            None
        } else if n == 0 {
            Some(((-s) as i64, 0u32))
        } else {
            Some(((-s - 1) as i64, (1_000_000_000 - n) as u32))
        },
    }
}

/// The download time written for a clock reading: its RFC 3339 text, or
/// the empty text when the instant cannot be written.
pub open spec fn clock_text(t: ClockReading) -> Seq<char> {
    match clock_instant(t) {
        Some((s, n)) => match rfc3339_text(s, n) {
            Some(x) => x,
            None => ""@,
        },
        None => ""@,
    }
}

pub open spec fn valid_reading(t: ClockReading) -> bool {
    match t {
        Ok((_, n)) => n < 1_000_000_000,
        Err((_, n)) => n < 1_000_000_000,
    }
}

/// Writes a clock reading in RFC 3339; a reading before the epoch is written
/// as the instant it stands for, and one chrono cannot represent as empty.
pub fn rfc3339_of_clock(t: ClockReading) -> (r: String)
    requires
        valid_reading(t),
    ensures
        r@ == clock_text(t),
{
    let instant: Option<(i64, u32)> = match t {
        Ok((s, n)) => if s <= 9_223_372_036_854_775_807u64 {
            Some((s as i64, n))
        } else {
            None
        },
        Err((s, n)) => if s > 9_223_372_036_854_775_807u64 {
            None
        } else if n == 0 {
            Some((-(s as i64), 0u32))
        } else {
            Some((-(s as i64) - 1, 1_000_000_000 - n))
        },
    };
    proof {
        reveal_strlit("");
    }
    match instant {
        Some((s, n)) => match rfc3339_at(s, n) {
            Some(x) => x,
            None => String::new(),
        },
        None => String::new(),
    }
}

/// The current time in RFC 3339 (empty when it cannot be written).
fn now_rfc3339() -> (r: String)
    ensures
        exists|t: ClockReading| valid_reading(t) && r@ == #[trigger] clock_text(t),
{
    let t = clock_since_epoch();
    rfc3339_of_clock(t)
}

/// Whether `s` is one of the texts in `list`.
pub fn listed(list: &Vec<String>, s: &str) -> (r: bool)
    ensures
        r == components(list@).contains(s@),
{
    let mut i: usize = 0;
    while i < list.len()
        invariant
            i <= list@.len(),
            forall|j: int| 0 <= j < i ==> #[trigger] list@[j]@ != s@,
        decreases list@.len() - i,
    {
        if str_eq(list[i].as_str(), s) {
            assert(components(list@)[i as int] == s@);
            return true;
        }
        i = i + 1;
    }
    assert(!components(list@).contains(s@)) by {
        if components(list@).contains(s@) {
            let j = choose|j: int| 0 <= j < components(list@).len() && components(list@)[j] == s@;
            assert(list@[j]@ == s@);
        }
    }
    false
}

/// The extensions of the audio files the cache holds.
pub open spec fn audio_extensions() -> Seq<Seq<char>> {
    seq!["m4a"@, "mp3"@, "opus"@, "webm"@, "ogg"@, "wav"@, "flac"@, "aac"@]
}

/// Whether `ext` is one of the cached audio extensions.
pub fn is_audio_extension(ext: &str) -> (r: bool)
    ensures
        r == audio_extensions().contains(ext@),
{
    let known: [&str; 8] = ["m4a", "mp3", "opus", "webm", "ogg", "wav", "flac", "aac"];
    let mut i: usize = 0;
    while i < 8
        invariant
            i <= 8,
            known@.map_values(|s: &str| s@) == audio_extensions(),
            forall|j: int| 0 <= j < i ==> #[trigger] audio_extensions()[j] != ext@,
        decreases 8 - i,
    {
        if str_eq(known[i], ext) {
            assert(audio_extensions()[i as int] == ext@);
            return true;
        }
        i = i + 1;
    }
    assert(!audio_extensions().contains(ext@)) by {
        if audio_extensions().contains(ext@) {
            let j = choose|j: int| 0 <= j < 8 && audio_extensions()[j] == ext@;
        }
    }
    false
}

pub open spec fn opt_text(s: Option<&str>) -> Option<Seq<char>> {
    match s {
        Some(t) => Some(t@),
        None => None,
    }
}

/// An entry is unused when no profile uses its file and its file stem is no
/// video id a discovery suggestion offers.
pub open spec fn unused_entry(
    cached_path: Seq<char>,
    stem: Option<Seq<char>>,
    used_paths: Seq<Seq<char>>,
    discovery_video_ids: Seq<Seq<char>>,
) -> bool {
    &&& !used_paths.contains(cached_path)
    &&& !(stem matches Some(s) && discovery_video_ids.contains(s))
}

/// Decides whether an entry is unused, from its file and the file's stem.
pub fn is_unused_entry(
    cached_path: &str,
    stem: Option<&str>,
    used_paths: &Vec<String>,
    discovery_video_ids: &Vec<String>,
) -> (r: bool)
    ensures
        r == unused_entry(cached_path@, opt_text(stem), components(used_paths@), components(discovery_video_ids@)),
{
    if listed(used_paths, cached_path) {
        return false;
    }
    match stem {
        Some(s) => !listed(discovery_video_ids, s),
        None => true,
    }
}

/// Whether `kept` is what the unused rule gives for a file at `path` under
/// some file stem: the one the path's file had when the rule was applied.
pub open spec fn kept_by_stem_rule(
    kept: bool,
    path: Seq<char>,
    used_paths: Seq<Seq<char>>,
    discovery_video_ids: Seq<Seq<char>>,
) -> bool {
    exists|stem: Option<Seq<char>>| kept == !#[trigger] unused_entry(path, stem, used_paths, discovery_video_ids)
}

// ─── Profiles and discovery caches ──────────────────────────────────────────

/// Pointer to the member `key` of the source of sound `i` of a profile.
pub open spec fn source_pointer(i: nat, key: Seq<char>) -> Seq<char> {
    member_pointer(member_pointer(index_pointer("/sounds"@, i), "source"@), key)
}

/// The cached file of sound `i` of a profile, when its source is a YouTube
/// one with a cached path.
pub open spec fn youtube_path_at(text: Seq<char>, i: nat) -> Option<Seq<char>> {
    match (json_item_at(text, source_pointer(i, "type"@)), json_item_at(text, source_pointer(i, "cachedPath"@))) {
        (Some(JsonItem::Text(t)), Some(JsonItem::Text(p))) => if t@ == "youtube"@ {
            Some(p@)
        } else {
            None
        },
        _ => None,
    }
}

pub open spec fn youtube_paths_upto(text: Seq<char>, n: nat) -> Seq<Seq<char>>
    decreases n,
{
    if n == 0 {
        Seq::empty()
    } else {
        youtube_paths_upto(text, (n - 1) as nat) + match youtube_path_at(text, (n - 1) as nat) {
            Some(p) => seq![p],
            None => Seq::empty(),
        }
    }
}

/// The cached files the YouTube sounds of a profile use, in order; none when
/// the profile is not JSON or has no array of sounds.
pub open spec fn profile_paths(text: Seq<char>) -> Seq<Seq<char>> {
    match json_item_at(text, "/sounds"@) {
        Some(JsonItem::Array(n)) => youtube_paths_upto(text, n as nat),
        _ => Seq::empty(),
    }
}

fn source_member(i: usize, key: &str) -> (p: String)
    ensures
        p@ == source_pointer(i as nat, key@),
{
    proof {
        reveal_strlit("/sounds");
        reveal_strlit("source");
    }
    let s = element_of("/sounds", i);
    let src = member_of(s.as_str(), "source");
    member_of(src.as_str(), key)
}

/// Reads, from the text of a profile, the cached files its YouTube sounds use.
pub fn profile_cached_paths(text: &str) -> (r: Vec<String>)
    ensures
        components(r@) == profile_paths(text@),
{
    proof {
        reveal_strlit("/sounds");
    }
    let n = match json_at(text, "/sounds") {
        Some(JsonItem::Array(n)) => n,
        _ => {
            let v: Vec<String> = Vec::new();
            assert(components(v@) =~= Seq::<Seq<char>>::empty());
            return v;
        },
    };
    let mut out: Vec<String> = Vec::new();
    let mut i: usize = 0;
    while i < n
        invariant
            i <= n,
            components(out@) == youtube_paths_upto(text@, i as nat),
        decreases n - i,
    {
        let tp = source_member(i, "type");
        let pp = source_member(i, "cachedPath");
        let ghost before = out@;
        match (json_at(text, tp.as_str()), json_at(text, pp.as_str())) {
            (Some(JsonItem::Text(t)), Some(JsonItem::Text(p))) => {
                proof {
                    reveal_strlit("youtube");
                }
                if str_eq(t.as_str(), "youtube") {
                    out.push(p);
                }
            },
            _ => {},
        }
        proof {
            assert(components(out@) =~= youtube_paths_upto(text@, (i + 1) as nat)) by {
                assert(components(before) == youtube_paths_upto(text@, i as nat));
            }
        }
        i = i + 1;
    }
    out
}

/// The video id of suggestion `i` of a discovery cache, when it is a string.
pub open spec fn suggestion_id_at(text: Seq<char>, i: nat) -> Option<Seq<char>> {
    match json_item_at(text, member_pointer(index_pointer("/suggestions"@, i), "videoId"@)) {
        Some(JsonItem::Text(v)) => Some(v@),
        _ => None,
    }
}

pub open spec fn suggestion_ids_upto(text: Seq<char>, n: nat) -> Seq<Seq<char>>
    decreases n,
{
    if n == 0 {
        Seq::empty()
    } else {
        suggestion_ids_upto(text, (n - 1) as nat) + match suggestion_id_at(text, (n - 1) as nat) {
            Some(v) => seq![v],
            None => Seq::empty(),
        }
    }
}

/// The video ids a discovery cache suggests, in order; none when it is not
/// JSON or has no array of suggestions.
pub open spec fn suggestion_ids(text: Seq<char>) -> Seq<Seq<char>> {
    match json_item_at(text, "/suggestions"@) {
        Some(JsonItem::Array(n)) => suggestion_ids_upto(text, n as nat),
        _ => Seq::empty(),
    }
}

/// Reads, from the text of a discovery cache, the video ids it suggests.
pub fn discovery_video_ids(text: &str) -> (r: Vec<String>)
    ensures
        components(r@) == suggestion_ids(text@),
{
    proof {
        reveal_strlit("/suggestions");
        reveal_strlit("videoId");
    }
    let n = match json_at(text, "/suggestions") {
        Some(JsonItem::Array(n)) => n,
        _ => {
            let v: Vec<String> = Vec::new();
            assert(components(v@) =~= Seq::<Seq<char>>::empty());
            return v;
        },
    };
    let mut out: Vec<String> = Vec::new();
    let mut i: usize = 0;
    while i < n
        invariant
            i <= n,
            components(out@) == suggestion_ids_upto(text@, i as nat),
        decreases n - i,
    {
        let e = element_of("/suggestions", i);
        let p = member_of(e.as_str(), "videoId");
        let ghost before = out@;
        match json_at(text, p.as_str()) {
            Some(JsonItem::Text(v)) => {
                out.push(v);
            },
            _ => {},
        }
        proof {
            assert(components(out@) =~= suggestion_ids_upto(text@, (i + 1) as nat)) by {
                assert(components(before) == suggestion_ids_upto(text@, i as nat));
            }
        }
        i = i + 1;
    }
    out
}

/// What removing by video id did.
#[derive(Debug)]
pub enum VideoRemoval {
    /// The video id was not in the index; nothing changed.
    NotIndexed,
    /// The id and its url were dropped; `entry` is the url's entry, if it had one,
    /// whose file is to be deleted. The index is to be saved either way.
    Removed { url: String, entry: Option<CacheEntry> },
}

/// The cache index in memory.
pub struct YouTubeCache {
    cache_dir: String,
    index_path: String,
    entries: TextMap<CacheEntry>,
    video_id_index: TextMap<String>,
    loaded: bool,
}

pub struct YouTubeCacheView {
    /// url -> entry.
    pub entries: Map<Seq<char>, CacheEntryView>,
    /// video id -> url.
    pub video_ids: Map<Seq<char>, Seq<char>>,
    /// Whether the index file has been read.
    pub loaded: bool,
    pub cache_dir: Seq<char>,
    pub index_path: Seq<char>,
}

impl YouTubeCache {
    pub closed spec fn view(&self) -> YouTubeCacheView {
        YouTubeCacheView {
            entries: self.entries@.map_values(|e: CacheEntry| e@),
            video_ids: self.video_id_index@.map_values(|u: String| u@),
            loaded: self.loaded,
            cache_dir: self.cache_dir@,
            index_path: self.index_path@,
        }
    }

    /// Both maps keep each key once, and each entry sits under its own url.
    pub closed spec fn wf(&self) -> bool {
        &&& self.entries.wf()
        &&& self.video_id_index.wf()
        &&& forall|k: Seq<char>| #[trigger] self.entries@.contains_key(k) ==> self.entries@[k].url@ == k
    }

    /// An empty cache that has not read its index yet.
    pub fn new(cache_dir: String, index_path: String) -> (c: Self)
        ensures
            c.wf(),
            c@.entries == Map::<Seq<char>, CacheEntryView>::empty(),
            c@.video_ids == Map::<Seq<char>, Seq<char>>::empty(),
            !c@.loaded,
            c@.cache_dir == cache_dir@,
            c@.index_path == index_path@,
    {
        let c = YouTubeCache {
            cache_dir,
            index_path,
            entries: TextMap::new(),
            video_id_index: TextMap::new(),
            loaded: false,
        };
        assert(c@.entries =~= Map::<Seq<char>, CacheEntryView>::empty());
        assert(c@.video_ids =~= Map::<Seq<char>, Seq<char>>::empty());
        c
    }

    /// The directory the downloads are kept in.
    pub fn cache_dir(&self) -> (r: &str)
        ensures
            r@ == self@.cache_dir,
    {
        self.cache_dir.as_str()
    }

    /// The index file.
    pub fn index_path(&self) -> (r: &str)
        ensures
            r@ == self@.index_path,
    {
        self.index_path.as_str()
    }

    pub fn is_loaded(&self) -> (r: bool)
        ensures
            r == self@.loaded,
    {
        self.loaded
    }

    /// Records `entry` under its url, and `video_id`, if given, as naming that url.
    pub fn insert_entry(&mut self, entry: CacheEntry, video_id: Option<String>)
        requires
            old(self).wf(),
        ensures
            final(self).wf(),
            final(self)@.entries == old(self)@.entries.insert(entry.url@, entry@),
            final(self)@.video_ids == (match video_id {
                Some(v) => old(self)@.video_ids.insert(v@, entry.url@),
                None => old(self)@.video_ids,
            }),
            final(self)@.loaded == old(self)@.loaded,
            final(self)@.cache_dir == old(self)@.cache_dir,
            final(self)@.index_path == old(self)@.index_path,
    {
        let ghost e = entry@;
        let ghost old_ids = self@.video_ids;
        match video_id {
            Some(v) => {
                let ghost vv = v@;
                let url = entry.url.clone();
                self.video_id_index.insert(v, url);
                assert(self@.video_ids =~= old_ids.insert(vv, e.url));
            },
            None => {},
        }
        let ghost old_entries = self.entries@;
        let key = entry.url.clone();
        self.entries.insert(key, entry);
        proof {
            assert forall|k: Seq<char>| #[trigger] self.entries@.contains_key(k) implies self.entries@[k].url@
                == k by {
                if k != e.url {
                    assert(old_entries.contains_key(k));
                }
            }
            assert(self@.entries =~= old(self)@.entries.insert(e.url, e));
        }
    }

    /// Replaces the contents with the index read from disk: each entry goes
    /// under its url, a later one for the same url winning, and each entry's
    /// video id (its file stem) names its url.
    pub fn load_index(&mut self, index: CacheIndex)
        requires
            old(self).wf(),
        ensures
            final(self).wf(),
            final(self)@.entries == index_map(entry_views(index.entries@)),
            forall|v: Seq<char>| #[trigger] final(self)@.video_ids.contains_key(v)
                ==> final(self)@.entries.contains_key(final(self)@.video_ids[v]),
            final(self)@.loaded == old(self)@.loaded,
            final(self)@.cache_dir == old(self)@.cache_dir,
            final(self)@.index_path == old(self)@.index_path,
    {
        let mut stems: Vec<Option<String>> = Vec::new();
        let mut i: usize = 0;
        while i < index.entries.len()
            invariant
                i <= index.entries@.len(),
                stems@.len() == i,
            decreases index.entries@.len() - i,
        {
            stems.push(video_id_from_path(index.entries[i].cached_path.as_str()));
            i = i + 1;
        }
        let ghost all = entry_views(index.entries@);
        let ghost sv = opt_texts(stems@);
        self.load_index_with_stems(index, &stems);
        proof {
            assert forall|v: Seq<char>| #[trigger] self@.video_ids.contains_key(v)
                implies self@.entries.contains_key(self@.video_ids[v]) by {
                lemma_id_map_names_urls(all, sv, v);
                lemma_index_map_last_wins(all, self@.video_ids[v]);
            }
        }
    }

    /// Replaces the contents with the index read from disk, the file of its
    /// `i`th entry having the stem `stems[i]`: each entry goes under its url,
    /// a later one for the same url winning, and each stem names its entry's
    /// url, a later one for the same stem winning.
    pub fn load_index_with_stems(&mut self, index: CacheIndex, stems: &Vec<Option<String>>)
        requires
            old(self).wf(),
            stems@.len() == index.entries@.len(),
        ensures
            final(self).wf(),
            final(self)@.entries == index_map(entry_views(index.entries@)),
            final(self)@.video_ids == id_map(entry_views(index.entries@), opt_texts(stems@)),
            final(self)@.loaded == old(self)@.loaded,
            final(self)@.cache_dir == old(self)@.cache_dir,
            final(self)@.index_path == old(self)@.index_path,
    {
        self.entries.clear();
        self.video_id_index.clear();
        assert(self@.entries =~= Map::<Seq<char>, CacheEntryView>::empty());
        assert(self@.video_ids =~= Map::<Seq<char>, Seq<char>>::empty());
        let ghost all = entry_views(index.entries@);
        let ghost sv = opt_texts(stems@);
        let mut i: usize = 0;
        while i < index.entries.len()
            invariant
                self.wf(),
                i <= index.entries@.len(),
                stems@.len() == index.entries@.len(),
                all == entry_views(index.entries@),
                sv == opt_texts(stems@),
                self@.entries == index_map(all.subrange(0, i as int)),
                self@.video_ids == id_map(all.subrange(0, i as int), sv.subrange(0, i as int)),
                self@.loaded == old(self)@.loaded,
                self@.cache_dir == old(self)@.cache_dir,
                self@.index_path == old(self)@.index_path,
            decreases index.entries@.len() - i,
        {
            let e = index.entries[i].copied();
            let vid = match &stems[i] {
                Some(v) => Some(v.clone()),
                None => None,
            };
            self.insert_entry(e, vid);
            proof {
                let next = all.subrange(0, i + 1);
                let nexts = sv.subrange(0, i + 1);
                assert(next.drop_last() =~= all.subrange(0, i as int));
                assert(nexts.drop_last() =~= sv.subrange(0, i as int));
                assert(next.last() == all[i as int]);
                assert(nexts.last() == sv[i as int]);
            }
            i = i + 1;
        }
        assert(all.subrange(0, index.entries@.len() as int) =~= all);
        assert(sv.subrange(0, index.entries@.len() as int) =~= sv);
    }

    /// Reads the index on first use: with `index` the contents read from disk,
    /// or none when there is no file or it could not be read. Once loaded,
    /// later calls change nothing.
    pub fn ensure_loaded(&mut self, index: Option<CacheIndex>)
        requires
            old(self).wf(),
        ensures
            final(self).wf(),
            final(self)@.loaded,
            old(self)@.loaded ==> final(self)@ == old(self)@,
            !old(self)@.loaded ==> match index {
                Some(ix) => final(self)@.entries == index_map(entry_views(ix.entries@)),
                None => final(self)@.entries == old(self)@.entries && final(self)@.video_ids
                    == old(self)@.video_ids,
            },
            final(self)@.cache_dir == old(self)@.cache_dir,
            final(self)@.index_path == old(self)@.index_path,
    {
        if !self.loaded {
            match index {
                Some(ix) => self.load_index(ix),
                None => {},
            }
            self.loaded = true;
        }
    }

    /// The index to write to disk: every entry once.
    pub fn to_index(&self) -> (r: CacheIndex)
        requires
            self.wf(),
        ensures
            urls_of(entry_views(r.entries@)).no_duplicates(),
            r.entries@.len() == self@.entries.len(),
            forall|i: int|
                0 <= i < r.entries@.len() ==> self@.entries.contains_key(#[trigger] r.entries@[i]@.url)
                    && self@.entries[r.entries@[i]@.url] == r.entries@[i]@,
            index_map(entry_views(r.entries@)) == self@.entries,
    {
        let mut out: Vec<CacheEntry> = Vec::new();
        let n = self.entries.size();
        let mut i: usize = 0;
        while i < n
            invariant
                self.wf(),
                n == self.entries.stored().len(),
                i <= n,
                out@.len() == i,
                forall|j: int| 0 <= j < i ==> #[trigger] out@[j]@ == self.entries.stored()[j].1@,
            decreases n - i,
        {
            let e = self.entries.value_at(i).copied();
            out.push(e);
            i = i + 1;
        }
        proof {
            let vs = entry_views(out@);
            self.entries.lemma_dom();
            assert(self@.entries.dom() =~= self.entries@.dom());
            assert forall|j: int| 0 <= j < out@.len() implies self@.entries.contains_key(#[trigger] out@[j]@.url)
                && self@.entries[out@[j]@.url] == out@[j]@ by {
                self.entries.lemma_pos(j);
                let k = self.entries.stored()[j].0@;
                assert(self.entries@.contains_key(k));
                assert(self.entries@[k].url@ == k);
            }
            assert(urls_of(vs) =~= self.entries.key_views()) by {
                assert forall|j: int| 0 <= j < vs.len() implies urls_of(vs)[j] == self.entries.key_views()[j] by {
                    self.entries.lemma_pos(j);
                    let k = self.entries.stored()[j].0@;
                    assert(self.entries@.contains_key(k));
                }
            }
            assert forall|k: Seq<char>| #[trigger] self@.entries.contains_key(k) implies urls_of(vs).contains(k) by {
                assert(self.entries@.dom().contains(k));
                assert(self.entries.key_views().to_set().contains(k));
            }
            assert forall|j: int| 0 <= j < vs.len() implies self@.entries.contains_key(#[trigger] vs[j].url)
                && self@.entries[vs[j].url] == vs[j] by {
                assert(vs[j] == out@[j]@);
            }
            lemma_listing_loads_back(vs, self@.entries);
        }
        CacheIndex { entries: out }
    }

    /// The entry recorded for `url`; the caller confirms its file is still there.
    pub fn get(&self, url: &str) -> (r: Option<&CacheEntry>)
        requires
            self.wf(),
        ensures
            r matches Some(e) ==> self@.entries.contains_key(url@) && e@ == self@.entries[url@],
            r is None ==> !self@.entries.contains_key(url@),
    {
        self.entries.get(url)
    }

    /// Records a download made at time `downloaded_at`, and returns the entry.
    pub fn add_entry_at(
        &mut self,
        url: String,
        cached_path: String,
        title: String,
        downloaded_at: String,
        file_size: u64,
    ) -> (r: CacheEntry)
        requires
            old(self).wf(),
        ensures
            final(self).wf(),
            r@ == (CacheEntryView {
                url: url@,
                cached_path: cached_path@,
                title: title@,
                downloaded_at: downloaded_at@,
                file_size,
            }),
            final(self)@.entries == old(self)@.entries.insert(url@, r@),
            final(self)@.video_ids == old(self)@.video_ids || exists|v: Seq<char>|
                final(self)@.video_ids == old(self)@.video_ids.insert(v, url@),
            final(self)@.loaded == old(self)@.loaded,
            final(self)@.cache_dir == old(self)@.cache_dir,
            final(self)@.index_path == old(self)@.index_path,
    {
        let vid = video_id_from_path(cached_path.as_str());
        let entry = CacheEntry { url, cached_path, title, downloaded_at, file_size };
        let kept = entry.copied();
        let ghost vv = vid;
        self.insert_entry(entry, vid);
        proof {
            if let Some(v) = vv {
                assert(self@.video_ids == old(self)@.video_ids.insert(v@, kept@.url));
            }
        }
        kept
    }

    /// Records a download made now, its time written from a clock reading,
    /// and returns the entry.
    pub fn add_entry(&mut self, url: String, cached_path: String, title: String, file_size: u64) -> (r:
        CacheEntry)
        requires
            old(self).wf(),
        ensures
            final(self).wf(),
            r@.url == url@,
            r@.cached_path == cached_path@,
            r@.title == title@,
            r@.file_size == file_size,
            exists|t: ClockReading| valid_reading(t) && r@.downloaded_at == #[trigger] clock_text(t),
            final(self)@.entries == old(self)@.entries.insert(url@, r@),
            final(self)@.video_ids == old(self)@.video_ids || exists|v: Seq<char>|
                final(self)@.video_ids == old(self)@.video_ids.insert(v, url@),
            final(self)@.loaded == old(self)@.loaded,
            final(self)@.cache_dir == old(self)@.cache_dir,
            final(self)@.index_path == old(self)@.index_path,
    {
        let now = now_rfc3339();
        self.add_entry_at(url, cached_path, title, now, file_size)
    }

    /// Drops the video id and the entry of the url it names.
    pub fn remove_entry_by_video_id(&mut self, video_id: &str) -> (r: VideoRemoval)
        requires
            old(self).wf(),
        ensures
            final(self).wf(),
            final(self)@.loaded == old(self)@.loaded,
            !old(self)@.video_ids.contains_key(video_id@) ==> r is NotIndexed && final(self)@
                == old(self)@,
            old(self)@.video_ids.contains_key(video_id@) ==> match r {
                VideoRemoval::Removed { url, entry } => {
                    &&& url@ == old(self)@.video_ids[video_id@]
                    &&& final(self)@.video_ids == old(self)@.video_ids.remove(video_id@)
                    &&& final(self)@.entries == old(self)@.entries.remove(url@)
                    &&& (entry matches Some(e) ==> old(self)@.entries.contains_key(url@) && e@
                        == old(self)@.entries[url@])
                    &&& (entry is None ==> !old(self)@.entries.contains_key(url@))
                },
                VideoRemoval::NotIndexed => false,
            },
    {
        let ghost old_ids = self.video_id_index@;
        let url = match self.video_id_index.remove(video_id) {
            Some(u) => u,
            None => {
                assert(self@.video_ids =~= old(self)@.video_ids);
                return VideoRemoval::NotIndexed;
            },
        };
        assert(self@.video_ids =~= old(self)@.video_ids.remove(video_id@));
        let ghost old_entries = self.entries@;
        let entry = self.entries.remove(url.as_str());
        proof {
            assert forall|k: Seq<char>| #[trigger] self.entries@.contains_key(k) implies self.entries@[k].url@
                == k by {
                assert(old_entries.contains_key(k));
            }
            assert(self@.entries =~= old(self)@.entries.remove(url@));
        }
        VideoRemoval::Removed { url, entry }
    }

    /// Drops the entries whose files no profile uses, except those whose file
    /// stem is a video id a discovery suggestion still offers; returns the
    /// dropped entries, whose files are to be deleted. Each entry is kept or
    /// dropped by `unused_entry` under the stem its file path gave; that stem
    /// depends on the platform, so the contract speaks of some stem.
    pub fn cleanup_unused(&mut self, used_paths: &Vec<String>, discovery_video_ids: &Vec<String>) -> (removed:
        Vec<CacheEntry>)
        requires
            old(self).wf(),
        ensures
            final(self).wf(),
            final(self)@.entries == old(self)@.entries.remove_keys(
                urls_of(entry_views(removed@)).to_set(),
            ),
            forall|i: int|
                0 <= i < removed@.len() ==> old(self)@.entries.contains_key(#[trigger] removed@[i]@.url)
                    && old(self)@.entries[removed@[i]@.url] == removed@[i]@ && !components(
                    used_paths@,
                ).contains(removed@[i]@.cached_path),
            forall|k: Seq<char>| #[trigger] old(self)@.entries.contains_key(k) ==> kept_by_stem_rule(
                final(self)@.entries.contains_key(k),
                old(self)@.entries[k].cached_path,
                components(used_paths@),
                components(discovery_video_ids@),
            ),
            final(self)@.video_ids.submap_of(old(self)@.video_ids),
            final(self)@.loaded == old(self)@.loaded,
            final(self)@.cache_dir == old(self)@.cache_dir,
            final(self)@.index_path == old(self)@.index_path,
    {
        let ghost used_v = components(used_paths@);
        let ghost disc_v = components(discovery_video_ids@);
        let mut unused: Vec<CacheEntry> = Vec::new();
        let mut urls: Vec<String> = Vec::new();
        let n = self.entries.size();
        let mut i: usize = 0;
        while i < n
            invariant
                self.wf(),
                self@ == old(self)@,
                n == self.entries.stored().len(),
                i <= n,
                urls@.len() == unused@.len(),
                forall|j: int| 0 <= j < unused@.len() ==> #[trigger] urls@[j]@ == unused@[j]@.url,
                forall|j: int|
                    0 <= j < unused@.len() ==> self@.entries.contains_key(#[trigger] unused@[j]@.url)
                        && self@.entries[unused@[j]@.url] == unused@[j]@ && !components(used_paths@).contains(
                        unused@[j]@.cached_path,
                    ),
                used_v == components(used_paths@),
                disc_v == components(discovery_video_ids@),
                forall|m: int|
                    0 <= m < urls@.len() ==> self.entries.key_views().subrange(0, i as int).contains(
                        #[trigger] urls@[m]@,
                    ),
                forall|j: int|
                    0 <= j < i ==> kept_by_stem_rule(
                        !components(urls@).contains(#[trigger] self.entries.key_views()[j]),
                        self.entries.stored()[j].1.cached_path@,
                        used_v,
                        disc_v,
                    ),
            decreases n - i,
        {
            let e = self.entries.value_at(i);
            proof {
                self.entries.lemma_pos(i as int);
                let k = self.entries.stored()[i as int].0@;
                assert(self.entries@.contains_key(k));
                assert(self@.entries.contains_key(k));
            }
            let stem = video_id_from_path(e.cached_path.as_str());
            let ghost stem_v: Option<Seq<char>> = opt_text_of(stem);
            let unused_here = match &stem {
                Some(v) => is_unused_entry(e.cached_path.as_str(), Some(v.as_str()), used_paths, discovery_video_ids),
                None => is_unused_entry(e.cached_path.as_str(), None, used_paths, discovery_video_ids),
            };
            let ghost urls_before = urls@;
            let ghost ki = self.entries.key_views()[i as int];
            proof {
                self.entries.lemma_pos(i as int);
                assert(self.entries.stored()[i as int].1 == *e);
                assert(e.url@ == ki);
                assert(unused_here == unused_entry(e.cached_path@, stem_v, used_v, disc_v));
                assert(!components(urls_before).contains(ki)) by {
                    if components(urls_before).contains(ki) {
                        let m = choose|m: int| 0 <= m < components(urls_before).len() && components(urls_before)[m] == ki;
                        assert(urls_before[m]@ == ki);
                        assert(self.entries.key_views().subrange(0, i as int).contains(urls_before[m]@));
                        let j = choose|j: int| 0 <= j < i && self.entries.key_views().subrange(0, i as int)[j] == ki;
                        assert(self.entries.key_views()[j] == self.entries.key_views()[i as int]);
                    }
                }
            }
            if unused_here {
                urls.push(e.url.clone());
                unused.push(e.copied());
            }
            proof {
                assert forall|m: int| 0 <= m < urls@.len() implies self.entries.key_views().subrange(0, i + 1).contains(
                    #[trigger] urls@[m]@,
                ) by {
                    if m < urls_before.len() {
                        assert(urls@[m] == urls_before[m]);
                        assert(self.entries.key_views().subrange(0, i as int).contains(urls_before[m]@));
                        let j = choose|j: int| 0 <= j < i && self.entries.key_views().subrange(0, i as int)[j] == urls_before[m]@;
                        assert(self.entries.key_views().subrange(0, i + 1)[j] == urls_before[m]@);
                    } else {
                        assert(urls@[m]@ == ki);
                        assert(self.entries.key_views().subrange(0, i + 1)[i as int] == ki);
                    }
                }
                assert forall|j: int| 0 <= j < i + 1 implies kept_by_stem_rule(
                    !components(urls@).contains(#[trigger] self.entries.key_views()[j]),
                    self.entries.stored()[j].1.cached_path@,
                    used_v,
                    disc_v,
                ) by {
                    let kj = self.entries.key_views()[j];
                    if j < i {
                        assert(kj != ki) by {
                            assert(self.entries.key_views().no_duplicates());
                        }
                        assert(components(urls@).contains(kj) == components(urls_before).contains(kj)) by {
                            if unused_here {
                                let a = components(urls_before);
                                assert(components(urls@) =~= a.push(ki));
                                if a.push(ki).contains(kj) {
                                    let m = choose|m: int| 0 <= m < a.push(ki).len() && a.push(ki)[m] == kj;
                                    assert(m < a.len());
                                    assert(a[m] == kj);
                                }
                                if a.contains(kj) {
                                    let m = choose|m: int| 0 <= m < a.len() && a[m] == kj;
                                    assert(a.push(ki)[m] == kj);
                                }
                            } else {
                                assert(components(urls@) =~= components(urls_before));
                            }
                        }
                    } else {
                        assert(kj == ki);
                        if unused_here {
                            assert(components(urls@) =~= components(urls_before).push(ki));
                            assert(components(urls@)[urls_before.len() as int] == ki);
                        } else {
                            assert(components(urls@) =~= components(urls_before));
                        }
                        assert(!components(urls@).contains(kj) == !unused_entry(e.cached_path@, stem_v, used_v, disc_v));
                    }
                }
            }
            i = i + 1;
        }
        proof {
            assert(components(urls@) =~= urls_of(entry_views(unused@)));
        }
        let ghost urls_final = components(urls@);
        self.drop_urls(&urls);
        proof {
            assert forall|k: Seq<char>| #[trigger] old(self)@.entries.contains_key(k) implies kept_by_stem_rule(
                self@.entries.contains_key(k),
                old(self)@.entries[k].cached_path,
                used_v,
                disc_v,
            ) by {
                let j = old(self).entries.pos(k);
                old(self).entries.lemma_pos(j);
                assert(old(self).entries.key_views()[j] == k);
                assert(self@.entries.contains_key(k) == !urls_final.to_set().contains(k));
            }
        }
        unused
    }

    /// Whether a file found in the cache directory is a leftover to delete:
    /// an audio file that no entry records and no profile uses, and whose file
    /// stem is no video id a discovery suggestion offers. The stem depends on
    /// the platform, so the contract speaks of some stem; `leftover_with_stem`
    /// is exact for a given one.
    pub fn is_untracked_leftover(
        &self,
        path: &str,
        extension: &str,
        used_paths: &Vec<String>,
        discovery_video_ids: &Vec<String>,
    ) -> (r: bool)
        requires
            self.wf(),
        ensures
            r ==> audio_extensions().contains(extension@) && !components(used_paths@).contains(path@)
                && !(exists|k: Seq<char>| #[trigger] self@.entries.contains_key(k) && self@.entries[k].cached_path
                == path@),
            !audio_extensions().contains(extension@) ==> !r,
            exists|stem: Option<Seq<char>>|
                r == (audio_extensions().contains(extension@) && !(exists|k: Seq<char>|
                    #[trigger] self@.entries.contains_key(k) && self@.entries[k].cached_path == path@)
                    && #[trigger] unused_entry(
                    path@,
                    stem,
                    components(used_paths@),
                    components(discovery_video_ids@),
                )),
    {
        let stem = video_id_from_path(path);
        let ghost stem_v: Option<Seq<char>> = opt_text_of(stem);
        let r = match &stem {
            Some(v) => self.leftover_with_stem(path, extension, Some(v.as_str()), used_paths, discovery_video_ids),
            None => self.leftover_with_stem(path, extension, None, used_paths, discovery_video_ids),
        };
        proof {
            let u = unused_entry(path@, stem_v, components(used_paths@), components(discovery_video_ids@));
            assert(r == (audio_extensions().contains(extension@) && !(exists|k: Seq<char>|
                #[trigger] self@.entries.contains_key(k) && self@.entries[k].cached_path == path@) && u));
        }
        r
    }

    /// Whether a file of the cache directory whose file stem is `stem` is a
    /// leftover: an audio file that no entry records and that is unused.
    pub fn leftover_with_stem(
        &self,
        path: &str,
        extension: &str,
        stem: Option<&str>,
        used_paths: &Vec<String>,
        discovery_video_ids: &Vec<String>,
    ) -> (r: bool)
        requires
            self.wf(),
        ensures
            r == (audio_extensions().contains(extension@) && !(exists|k: Seq<char>|
                #[trigger] self@.entries.contains_key(k) && self@.entries[k].cached_path == path@) && unused_entry(
                path@,
                opt_text(stem),
                components(used_paths@),
                components(discovery_video_ids@),
            )),
    {
        if !is_audio_extension(extension) {
            return false;
        }
        let n = self.entries.size();
        let mut i: usize = 0;
        while i < n
            invariant
                self.wf(),
                n == self.entries.stored().len(),
                i <= n,
                forall|j: int| 0 <= j < i ==> #[trigger] self.entries.stored()[j].1.cached_path@ != path@,
            decreases n - i,
        {
            if str_eq(self.entries.value_at(i).cached_path.as_str(), path) {
                proof {
                    self.entries.lemma_pos(i as int);
                    let k = self.entries.stored()[i as int].0@;
                    assert(self.entries@.contains_key(k));
                    assert(self@.entries.contains_key(k) && self@.entries[k].cached_path == path@);
                }
                return false;
            }
            i = i + 1;
        }
        proof {
            assert forall|k: Seq<char>| #[trigger] self@.entries.contains_key(k) implies self@.entries[k].cached_path
                != path@ by {
                assert(self.entries@.contains_key(k));
                let j = self.entries.pos(k);
                self.entries.lemma_pos(j);
            }
        }
        is_unused_entry(path, stem, used_paths, discovery_video_ids)
    }

    /// Drops the entries of `missing_urls`, whose files are gone, and the video
    /// ids of their files.
    pub fn verify_integrity(&mut self, missing_urls: &Vec<String>)
        requires
            old(self).wf(),
        ensures
            final(self).wf(),
            final(self)@.entries == old(self)@.entries.remove_keys(components(missing_urls@).to_set()),
            final(self)@.video_ids.submap_of(old(self)@.video_ids),
            final(self)@.loaded == old(self)@.loaded,
            final(self)@.cache_dir == old(self)@.cache_dir,
            final(self)@.index_path == old(self)@.index_path,
    {
        self.drop_urls(missing_urls);
    }

    /// Drops the entries of `urls` and the video ids of their files.
    fn drop_urls(&mut self, missing_urls: &Vec<String>)
        requires
            old(self).wf(),
        ensures
            final(self).wf(),
            final(self)@.entries == old(self)@.entries.remove_keys(components(missing_urls@).to_set()),
            final(self)@.video_ids.submap_of(old(self)@.video_ids),
            final(self)@.loaded == old(self)@.loaded,
            final(self)@.cache_dir == old(self)@.cache_dir,
            final(self)@.index_path == old(self)@.index_path,
    {
        let mut i: usize = 0;
        while i < missing_urls.len()
            invariant
                self.wf(),
                i <= missing_urls@.len(),
                self@.entries == old(self)@.entries.remove_keys(
                    components(missing_urls@.subrange(0, i as int)).to_set(),
                ),
                self@.video_ids.submap_of(old(self)@.video_ids),
                self@.loaded == old(self)@.loaded,
                self@.cache_dir == old(self)@.cache_dir,
                self@.index_path == old(self)@.index_path,
            decreases missing_urls@.len() - i,
        {
            let ghost before = self@;
            assert(before.video_ids.submap_of(old(self)@.video_ids));
            let ghost old_entries = self.entries@;
            let url = missing_urls[i].as_str();
            match self.entries.remove(url) {
                Some(e) => {
                    match video_id_from_path(e.cached_path.as_str()) {
                        Some(vid) => {
                            let ghost ids = self.video_id_index@;
                            self.video_id_index.remove(vid.as_str());
                            assert(self@.video_ids =~= before.video_ids.remove(vid@));
                        },
                        None => {},
                    }
                },
                None => {},
            }
            proof {
                assert forall|k: Seq<char>| #[trigger] self.entries@.contains_key(k) implies self.entries@[k].url@
                    == k by {
                    assert(old_entries.contains_key(k));
                }
                assert(self@.entries =~= before.entries.remove(url@));
                let pre = components(missing_urls@.subrange(0, i as int)).to_set();
                let next = components(missing_urls@.subrange(0, i + 1)).to_set();
                assert(components(missing_urls@.subrange(0, i + 1)) =~= components(
                    missing_urls@.subrange(0, i as int),
                ).push(url@));
                let pc = components(missing_urls@.subrange(0, i as int));
                assert forall|x: Seq<char>| #[trigger] next.contains(x) <==> pre.insert(url@).contains(x) by {
                    if next.contains(x) {
                        let j = choose|j: int| 0 <= j < pc.push(url@).len() && pc.push(url@)[j] == x;
                        if j < pc.len() {
                            assert(pc[j] == x);
                        }
                    }
                    if pre.contains(x) {
                        let j = choose|j: int| 0 <= j < pc.len() && pc[j] == x;
                        assert(pc.push(url@)[j] == x);
                    }
                    if x == url@ {
                        assert(pc.push(url@)[pc.len() as int] == x);
                    }
                }
                assert(next =~= pre.insert(url@));
                assert(self@.entries =~= old(self)@.entries.remove_keys(next));
                assert forall|k: Seq<char>| #[trigger] self@.video_ids.contains_key(k) implies old(self)@.video_ids.contains_key(k)
                    && self@.video_ids[k] == old(self)@.video_ids[k] by {
                    assert(before.video_ids.contains_key(k) && self@.video_ids[k] == before.video_ids[k]);
                    assert(before.video_ids.submap_of(old(self)@.video_ids));
                    assert(before.video_ids.dom().contains(k));
                    assert(old(self)@.video_ids.dom().contains(k));
                }
            }
            i = i + 1;
        }
        assert(missing_urls@.subrange(0, missing_urls@.len() as int) =~= missing_urls@);
    }
}

} // verus!
