//! The decisions behind the local HTTP API: checking and decoding requests,
//! answering from the mood cache, and tracking which live request may be
//! cancelled. Routing, JSON and the model calls are the app's part.

use vstd::prelude::*;

use crate::cache::{lookup, stored, CachedMoodEntry, CachedMoodSource, MoodCache};
use crate::pipeline::ActionPage;
use crate::text::{dec, push_dec, str_eq};
use crate::types::{mood_name, BaseMood};
use crate::winner::AggregatedPrediction;

verus! {

/// What the standard base64 alphabet, with padding, decodes `text` to;
/// none when it is not valid base64.
pub uninterp spec fn base64_decoded(text: Seq<char>) -> Option<Seq<u8>>;

/// The text of the error the standard base64 decoder gives for `text`
/// (the `Display` of its `DecodeError`, which depends on the text alone).
pub uninterp spec fn base64_error_text(text: Seq<char>) -> Seq<char>;

/// `base64::engine::general_purpose::STANDARD.decode`: the bytes `text` stands
/// for, or the decoder's error as text. Claimed: it succeeds exactly when the
/// text is valid base64, with the decoded bytes; otherwise the error text is
/// the named one.
#[verifier::external_body]
fn decode_base64(text: &str) -> (r: Result<Vec<u8>, String>)
    ensures
        match r {
            Ok(b) => base64_decoded(text@) == Some(b@),
            Err(e) => base64_decoded(text@) is None && e@ == base64_error_text(text@),
        },
{
    match base64::Engine::decode(&base64::engine::general_purpose::STANDARD, text) {
        Ok(bytes) => Ok(bytes),
        Err(e) => Err(e.to_string()),
    }
}

pub open spec fn image_error(detail: Seq<char>) -> Seq<char> {
    "Invalid base64 image: "@ + detail
}

/// Decodes the base64 image of a chapter page.
pub fn decode_page_image(image: &str) -> (r: Result<Vec<u8>, String>)
    ensures
        match r {
            Ok(b) => base64_decoded(image@) == Some(b@),
            Err(e) => base64_decoded(image@) is None && e@ == image_error(base64_error_text(image@)),
        },
{
    match decode_base64(image) {
        Ok(b) => Ok(b),
        Err(d) => {
            let mut msg = "Invalid base64 image: ".to_string();
            msg.append(d.as_str());
            assert(msg@ == image_error(d@));
            Err(msg)
        },
    }
}

/// A visible page as the reader sends it: its number and its image in base64.
pub struct WindowMemberImage {
    pub page: u32,
    pub image: String,
}

pub open spec fn member_error(page: u32, detail: Seq<char>) -> Seq<char> {
    "Invalid base64 for page "@ + dec(page as nat) + ": "@ + detail
}

/// The members built from each page and its decoding: the decoded pages in
/// order, or the error of the first page that did not decode.
pub fn collect_members(pages: &Vec<u32>, decoded: Vec<Result<Vec<u8>, String>>) -> (r: Result<
    Vec<ActionPage>,
    String,
>)
    requires
        pages@.len() == decoded@.len(),
    ensures
        match r {
            Ok(v) => {
                &&& v@.len() == pages@.len()
                &&& forall|i: int| 0 <= i < v@.len() ==> #[trigger] v@[i].page == pages@[i] && (decoded@[i]
                    matches Ok(b) && v@[i].raw_bytes@ == b@)
            },
            Err(e) => exists|i: int|
                #![trigger pages@[i]]
                0 <= i < pages@.len() && (forall|j: int| 0 <= j < i ==> #[trigger] decoded@[j] is Ok) && match
                    decoded@[i] {
                    Err(d) => e@ == member_error(pages@[i], d@),
                    Ok(_) => false,
                },
        },
{
    let mut out: Vec<ActionPage> = Vec::new();
    let mut i: usize = 0;
    while i < pages.len()
        invariant
            i <= pages@.len(),
            pages@.len() == decoded@.len(),
            out@.len() == i,
            forall|j: int| 0 <= j < i ==> #[trigger] out@[j].page == pages@[j] && (decoded@[j] matches Ok(b)
                && out@[j].raw_bytes@ == b@),
        decreases pages@.len() - i,
    {
        match &decoded[i] {
            Ok(bytes) => {
                out.push(ActionPage { page: pages[i], raw_bytes: copy_bytes(bytes) });
            },
            Err(d) => {
                let mut msg = "Invalid base64 for page ".to_string();
                push_dec(&mut msg, pages[i]);
                msg.append(": ");
                msg.append(d.as_str());
                assert forall|j: int| 0 <= j < i implies #[trigger] decoded@[j] is Ok by {
                    assert(out@[j].page == pages@[j]);
                }
                assert(msg@ == member_error(pages@[i as int], d@));
                return Err(msg);
            },
        }
        i = i + 1;
    }
    Ok(out)
}

/// A copy of `b`.
fn copy_bytes(b: &Vec<u8>) -> (r: Vec<u8>)
    ensures
        r@ == b@,
{
    let mut r: Vec<u8> = Vec::new();
    let mut i: usize = 0;
    while i < b.len()
        invariant
            i <= b@.len(),
            r@ == b@.subrange(0, i as int),
        decreases b@.len() - i,
    {
        r.push(b[i]);
        assert(b@.subrange(0, i + 1) =~= b@.subrange(0, i as int).push(b@[i as int]));
        i = i + 1;
    }
    assert(b@.subrange(0, b@.len() as int) =~= b@);
    r
}

/// Decodes the images of the visible pages; the first that is not valid base64
/// refuses the request.
pub fn decode_members(members: &Vec<WindowMemberImage>) -> (r: Result<Vec<ActionPage>, String>)
    ensures
        match r {
            Ok(v) => {
                &&& v@.len() == members@.len()
                &&& forall|i: int| 0 <= i < v@.len() ==> #[trigger] v@[i].page == members@[i].page && base64_decoded(
                    members@[i].image@,
                ) == Some(v@[i].raw_bytes@)
            },
            Err(e) => exists|i: int|
                #![trigger members@[i]]
                0 <= i < members@.len() && base64_decoded(members@[i].image@) is None && (forall|j: int|
                    0 <= j < i ==> base64_decoded(#[trigger] members@[j].image@) is Some) && e@ == member_error(
                    members@[i].page,
                    base64_error_text(members@[i].image@),
                ),
        },
{
    let mut pages: Vec<u32> = Vec::new();
    let mut decoded: Vec<Result<Vec<u8>, String>> = Vec::new();
    let mut i: usize = 0;
    while i < members.len()
        invariant
            i <= members@.len(),
            pages@.len() == i,
            decoded@.len() == i,
            forall|j: int| 0 <= j < i ==> #[trigger] pages@[j] == members@[j].page,
            forall|j: int|
                0 <= j < i ==> match #[trigger] decoded@[j] {
                    Ok(b) => base64_decoded(members@[j].image@) == Some(b@),
                    Err(d) => base64_decoded(members@[j].image@) is None && d@ == base64_error_text(members@[j].image@),
                },
        decreases members@.len() - i,
    {
        pages.push(members[i].page);
        decoded.push(decode_base64(members[i].image.as_str()));
        i = i + 1;
    }
    let r = collect_members(&pages, decoded);
    proof {
        match &r {
            Ok(v) => {
                assert forall|i: int| 0 <= i < v@.len() implies #[trigger] v@[i].page == members@[i].page
                    && base64_decoded(members@[i].image@) == Some(v@[i].raw_bytes@) by {
                    assert(v@[i].page == pages@[i]);
                }
            },
            Err(e) => {
                let i = choose|i: int|
                    #![trigger pages@[i]]
                    0 <= i < pages@.len() && (forall|j: int| 0 <= j < i ==> #[trigger] decoded@[j] is Ok) && match
                        decoded@[i] {
                        Err(d) => e@ == member_error(pages@[i], d@),
                        Ok(_) => false,
                    };
                let d = decoded@[i]->Err_0@;
                assert forall|j: int| 0 <= j < i implies base64_decoded(#[trigger] members@[j].image@) is Some by {
                    assert(decoded@[j] is Ok);
                }
                assert(base64_decoded(members@[i].image@) is None);
                assert(e@ == member_error(members@[i].page, d));
            },
        }
    }
    r
}

/// What the analyze-window request calls for.
#[derive(Debug)]
pub enum WindowRequestPlan {
    /// No visible pages were sent: refuse the request.
    MissingMembers,
    /// The page's verdict is cached: reply with it.
    Cached(CachedMoodEntry),
    /// Analyze the visible pages, with this many pages in the chapter.
    Analyze { total_pages: u32 },
}

pub open spec fn window_plan(
    cached: Option<CachedMoodEntry>,
    page: u32,
    total_pages: u32,
    member_count: nat,
) -> WindowRequestPlan {
    if member_count == 0 {
        WindowRequestPlan::MissingMembers
    } else if cached is Some {
        WindowRequestPlan::Cached(cached->Some_0)
    } else {
        WindowRequestPlan::Analyze {
            total_pages: if total_pages >= page + 1 {
                total_pages
            } else {
                (page + 1) as u32
            },
        }
    }
}

/// Decides an analyze-window request: refused without members, answered
/// from the cache when the page has a verdict, and otherwise analyzed with the
/// chapter at least long enough to hold the page.
pub fn plan_window_request(
    cache: &MoodCache,
    chapter: &str,
    page: u32,
    total_pages: u32,
    member_count: usize,
) -> (r: WindowRequestPlan)
    requires
        cache.wf(),
        member_count == 0 || lookup(cache@, chapter@, page) is Some || page < u32::MAX,
    ensures
        r == window_plan(lookup(cache@, chapter@, page), page, total_pages, member_count as nat),
{
    if member_count == 0 {
        return WindowRequestPlan::MissingMembers;
    }
    match cache.get(chapter, page) {
        Some(e) => WindowRequestPlan::Cached(*e),
        None => {
            let t = if total_pages >= page + 1 {
                total_pages
            } else {
                page + 1
            };
            WindowRequestPlan::Analyze { total_pages: t }
        },
    }
}

/// Stores the verdict of a visible-window analysis as final.
pub fn record_window_verdict(cache: &mut MoodCache, chapter: &str, page: u32, verdict: &AggregatedPrediction)
    requires
        old(cache).wf(),
    ensures
        final(cache).wf(),
        final(cache)@ == stored(
            old(cache)@,
            chapter@,
            page,
            CachedMoodEntry {
                mood: verdict.mood,
                intensity: verdict.intensity,
                scores: verdict.scores,
                narrative_role: verdict.narrative_role,
                source: CachedMoodSource::VisibleWindowAnalyze,
                finalized: true,
            },
        ),
{
    cache.insert(
        chapter,
        page,
        verdict.mood,
        verdict.intensity,
        verdict.scores,
        verdict.narrative_role,
        CachedMoodSource::VisibleWindowAnalyze,
        true,
    );
}

/// Whether `name` is one of the eight mood names.
pub open spec fn is_mood_name(name: Seq<char>) -> bool {
    exists|m: BaseMood| mood_name(m) == name
}

pub open spec fn unknown_mood(name: Seq<char>) -> Seq<char> {
    "Unknown mood: "@ + name
}

/// Accepts a mood to re-emit only when it is one of the eight mood names.
pub fn check_trigger_mood(mood: &str) -> (r: Result<(), String>)
    ensures
        match r {
            Ok(()) => is_mood_name(mood@),
            Err(e) => !is_mood_name(mood@) && e@ == unknown_mood(mood@),
        },
{
    let names = mood_list();
    let mut i: usize = 0;
    while i < names.len()
        invariant
            i <= names@.len(),
            names@.len() == 8,
            forall|k: int| 0 <= k < 8 ==> #[trigger] names@[k]@ == mood_name(BaseMood::ALL@[k]),
            forall|k: int| 0 <= k < i ==> #[trigger] names@[k]@ != mood@,
        decreases names@.len() - i,
    {
        if str_eq(names[i], mood) {
            assert(mood_name(BaseMood::ALL@[i as int]) == mood@);
            return Ok(());
        }
        i = i + 1;
    }
    assert(!is_mood_name(mood@)) by {
        if is_mood_name(mood@) {
            let m = choose|m: BaseMood| mood_name(m) == mood@;
            assert(names@[crate::types::mood_idx(m) as int]@ == mood@);
        }
    }
    let mut msg = "Unknown mood: ".to_string();
    msg.append(mood);
    Err(msg)
}

/// The eight mood names, in the fixed mood order.
pub fn mood_list() -> (v: Vec<&'static str>)
    ensures
        v@.len() == 8,
        forall|k: int| 0 <= k < 8 ==> #[trigger] v@[k]@ == mood_name(BaseMood::ALL@[k]),
{
    let mut v: Vec<&'static str> = Vec::new();
    let mut i: usize = 0;
    while i < 8
        invariant
            i <= 8,
            v@.len() == i,
            forall|k: int| 0 <= k < i ==> #[trigger] v@[k]@ == mood_name(BaseMood::ALL@[k]),
        decreases 8 - i,
    {
        let m = BaseMood::ALL[i];
        v.push(m.as_str());
        i = i + 1;
    }
    v
}

/// The name under which a cache source is reported.
pub open spec fn source_label(s: CachedMoodSource) -> Seq<char> {
    match s {
        CachedMoodSource::VisibleWindowAnalyze => "visible_window"@,
        CachedMoodSource::ChapterPipeline => "chapter_pipeline"@,
    }
}

pub fn source_name(s: CachedMoodSource) -> (r: &'static str)
    ensures
        r@ == source_label(s),
{
    match s {
        CachedMoodSource::VisibleWindowAnalyze => "visible_window",
        CachedMoodSource::ChapterPipeline => "chapter_pipeline",
    }
}

/// The answer to a cache lookup.
#[derive(Debug)]
pub struct LookupAnswer {
    pub hit: bool,
    pub mood: Option<&'static str>,
    pub finalized: Option<bool>,
    pub source: Option<&'static str>,
}

/// Looks `page` of `chapter` up in the cache, without side effects.
pub fn lookup_answer(cache: &MoodCache, chapter: &str, page: u32) -> (r: LookupAnswer)
    requires
        cache.wf(),
    ensures
        match lookup(cache@, chapter@, page) {
            Some(e) => {
                &&& r.hit
                &&& r.mood matches Some(m) && m@ == mood_name(e.mood)
                &&& r.finalized == Some(e.finalized)
                &&& r.source matches Some(s) && s@ == source_label(e.source)
            },
            None => !r.hit && r.mood is None && r.finalized is None && r.source is None,
        },
{
    match cache.get(chapter, page) {
        Some(e) => LookupAnswer {
            hit: true,
            mood: Some(e.mood.as_str()),
            finalized: Some(e.finalized),
            source: Some(source_name(e.source)),
        },
        None => LookupAnswer { hit: false, mood: None, finalized: None, source: None },
    }
}

/// What was found when looking at the llama-server slot.
#[derive(Debug, Clone, Copy, Eq, PartialEq, Structural)]
pub enum ServerSlot {
    /// The slot is in use by a request: the server is busy, so running.
    Busy,
    /// No server.
    Empty,
    /// A server on `port`; `running` tells whether its process is alive.
    Present { port: u16, running: bool },
}

/// The status report, and whether a dead server is to be dropped from the slot.
#[derive(Debug, Clone, Copy, Eq, PartialEq, Structural)]
pub struct StatusAnswer {
    pub running: bool,
    pub port: u16,
    pub drop_server: bool,
}

/// Reports the server as running (model loaded) when busy or alive, with
/// its port when known; a server whose process ended is dropped.
pub fn status_answer(slot: ServerSlot) -> (r: StatusAnswer)
    ensures
        r == (match slot {
            ServerSlot::Busy => StatusAnswer { running: true, port: 0, drop_server: false },
            ServerSlot::Empty => StatusAnswer { running: false, port: 0, drop_server: false },
            ServerSlot::Present { port, running } => if running {
                StatusAnswer { running: true, port, drop_server: false }
            } else {
                StatusAnswer { running: false, port: 0, drop_server: true }
            },
        }),
{
    match slot {
        ServerSlot::Busy => StatusAnswer { running: true, port: 0, drop_server: false },
        ServerSlot::Empty => StatusAnswer { running: false, port: 0, drop_server: false },
        ServerSlot::Present { port, running } => if running {
            StatusAnswer { running: true, port, drop_server: false }
        } else {
            StatusAnswer { running: false, port: 0, drop_server: true }
        },
    }
}

impl StatusAnswer {
    pub fn server_text(&self) -> (s: &'static str)
        ensures
            s@ == (if self.running { "running"@ } else { "stopped"@ }),
    {
        if self.running {
            "running"
        } else {
            "stopped"
        }
    }

    pub fn model_text(&self) -> (s: &'static str)
        ensures
            s@ == (if self.running { "loaded"@ } else { "not_loaded"@ }),
    {
        if self.running {
            "loaded"
        } else {
            "not_loaded"
        }
    }
}

/// The live analysis that may currently be cancelled: its handle id, the
/// request id the reader gave it, and its cancellation token.
pub struct LiveCancelHandle<T> {
    pub id: usize,
    pub request_id: usize,
    pub token: T,
}

/// Hands out handle ids and remembers the one live request in flight; a new
/// live request takes the place of the previous one, which is cancelled.
pub struct LiveCancelRegistry<T> {
    pub issued: usize,
    pub active: Option<LiveCancelHandle<T>>,
}

impl<T> LiveCancelRegistry<T> {
    pub fn new() -> (r: Self)
        ensures
            r.issued == 0,
            r.active is None,
    {
        LiveCancelRegistry { issued: 0, active: None }
    }

    /// Registers a live request: it gets the next handle id and becomes the
    /// active one; the token of the request it replaces is returned to be
    /// cancelled.
    pub fn register(&mut self, request_id: usize, token: T) -> (r: (usize, Option<T>))
        requires
            old(self).issued < usize::MAX,
        ensures
            r.0 == old(self).issued + 1,
            final(self).issued == r.0,
            final(self).active matches Some(h) && h.id == r.0 && h.request_id == request_id && h.token == token,
            r.1 == (match old(self).active {
                Some(h) => Some(h.token),
                None => None,
            }),
    {
        let id = self.issued + 1;
        self.issued = id;
        let previous = self.active.take();
        self.active = Some(LiveCancelHandle { id, request_id, token });
        match previous {
            Some(h) => (id, Some(h.token)),
            None => (id, None),
        }
    }

    /// Forgets the handle `id` when it is still the active one.
    pub fn clear_if_current(&mut self, id: usize)
        ensures
            final(self).issued == old(self).issued,
            (old(self).active matches Some(h) && h.id == id) ==> final(self).active is None,
            !(old(self).active matches Some(h) && h.id == id) ==> final(self).active == old(self).active,
    {
        let current = match &self.active {
            Some(h) => h.id == id,
            None => false,
        };
        if current {
            self.active = None;
        }
    }

    /// The token to cancel for the reader's `request_id`: that of the active
    /// request when it has that id.
    pub fn cancel_target(&self, request_id: usize) -> (r: Option<&T>)
        ensures
            r == (match self.active {
                Some(h) => if h.request_id == request_id {
                    Some(&h.token)
                } else {
                    None
                },
                None => None,
            }),
    {
        match &self.active {
            Some(h) => if h.request_id == request_id {
                Some(&h.token)
            } else {
                None
            },
            None => None,
        }
    }
}

} // verus!
