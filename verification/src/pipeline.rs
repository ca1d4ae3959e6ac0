//! The chapter pipeline: pages of the chapter being read arrive one by one, and
//! the pipeline decides which five-page window or selective repair the vision
//! model runs next (nearest the reader's focus first), then folds the answers
//! into per-page verdicts that it publishes.

use vstd::prelude::*;

use std::collections::HashSet;

use crate::cache::CachedMoodSource;
use crate::director::{MoodScores, NarrativeRole};
use crate::page_map::{sorted_keys, values_by_page, KeySet, PageMap};
use crate::text::str_eq;
use crate::types::{BaseMood, MoodIntensity};
use crate::winner::{
    all_pages_in, lemma_repair_plans_pages, plan_pages_in, plan_selective_repairs, plans_view, repair_plans,
    PlanView, RepairPlan, all_present, apply_action_bridge_holds, holds_applied, lemma_same_votes_verdict, moods_along, page_verdict, same_vote, same_votes, verdict_of, wide_context,
    AggregatedPrediction, RepairAcceptPair, RepairAcceptSingle, SelectivePrompt, WindowPrediction,
};

verus! {

/// Largest page number and page count the pipeline handles.
pub const MAX_PAGES: u32 = 0x7fff_ffff;

/// What the pipeline is working on.
#[derive(Clone, Copy, Debug)]
pub struct PipelineActivity {
    pub phase: &'static str,
    pub page: u32,
    pub started_at_ms: u64,
}

pub struct ActivityView {
    pub phase: Seq<char>,
    pub page: u32,
    pub started_at_ms: u64,
}

impl PipelineActivity {
    pub open spec fn view(&self) -> ActivityView {
        ActivityView { phase: self.phase@, page: self.page, started_at_ms: self.started_at_ms }
    }
}

/// The image bytes of a registered page.
#[derive(Debug)]
pub struct StoredPage {
    pub raw_bytes: Vec<u8>,
}

/// A page handed to the vision model.
#[derive(Debug)]
pub struct ActionPage {
    pub page: u32,
    pub raw_bytes: Vec<u8>,
}

impl Clone for ActionPage {
    fn clone(&self) -> (r: Self)
        ensures
            r.page == self.page,
            r.raw_bytes@ == self.raw_bytes@,
    {
        ActionPage { page: self.page, raw_bytes: self.raw_bytes.clone() }
    }
}

/// A page with its two neighbours.
#[derive(Clone, Debug)]
pub struct ActionTriplet {
    pub left: ActionPage,
    pub center: ActionPage,
    pub right: ActionPage,
}

/// The next piece of work for the vision model.
#[derive(Clone, Debug)]
pub enum PipelineActionRequest {
    Window { center: u32, total_pages: u32, members: Vec<ActionPage> },
    RepairSingle {
        key: String,
        page: u32,
        total_pages: u32,
        prompt_kind: SelectivePrompt,
        reason: &'static str,
        accept: RepairAcceptSingle,
        triplet: ActionTriplet,
    },
    RepairPair {
        key: String,
        first_page: u32,
        second_page: u32,
        total_pages: u32,
        prompt_kind: SelectivePrompt,
        reason: &'static str,
        accept: RepairAcceptPair,
        first_triplet: ActionTriplet,
        second_triplet: ActionTriplet,
    },
}

/// The answer of the vision model to a request.
#[derive(Debug)]
pub enum PipelineActionResult {
    Window(WindowPrediction),
    RepairSingle(Option<AggregatedPrediction>),
    RepairPair(Option<(AggregatedPrediction, AggregatedPrediction)>),
}

/// A page verdict to publish to the mood cache.
#[derive(Debug)]
pub struct PublishedPageUpdate {
    pub chapter: String,
    pub page: u32,
    pub mood: BaseMood,
    pub intensity: MoodIntensity,
    pub scores: MoodScores,
    pub narrative_role: NarrativeRole,
    pub source: CachedMoodSource,
    pub finalized: bool,
}

/// An update with its chapter taken as a character sequence.
pub struct UpdateView {
    pub chapter: Seq<char>,
    pub page: u32,
    pub mood: BaseMood,
    pub intensity: MoodIntensity,
    pub weights: Seq<u64>,
    pub narrative_role: NarrativeRole,
    pub source: CachedMoodSource,
    pub finalized: bool,
}

impl PublishedPageUpdate {
    pub open spec fn view(&self) -> UpdateView {
        UpdateView {
            chapter: self.chapter@,
            page: self.page,
            mood: self.mood,
            intensity: self.intensity,
            weights: self.scores.weights@,
            narrative_role: self.narrative_role,
            source: self.source,
            finalized: self.finalized,
        }
    }
}

/// The update that announces a page verdict; it is final and its source is the chapter pipeline.
pub open spec fn update_of(chapter: Seq<char>, page: u32, p: AggregatedPrediction) -> UpdateView {
    UpdateView {
        chapter,
        page,
        mood: p.mood,
        intensity: p.intensity,
        weights: p.scores.weights@,
        narrative_role: p.narrative_role,
        source: CachedMoodSource::ChapterPipeline,
        finalized: true,
    }
}

/// Reads the wall clock in milliseconds since the Unix epoch (through
/// `SystemTime::now`); nothing is promised of the value.
#[verifier::external_body]
pub(crate) fn now_ms() -> u64 {
    std::time::SystemTime::now().duration_since(std::time::UNIX_EPOCH).unwrap_or_default().as_millis() as u64
}

/// The state of the pipeline for the chapter being read.
pub struct ChapterMoodPipeline {
    pub current_chapter: Option<String>,
    pub total_pages: Option<u32>,
    pub focus_page: Option<u32>,
    pub focus_direction: i8,
    pub pages: PageMap<StoredPage>,
    pub window_predictions: PageMap<WindowPrediction>,
    pub base_predictions: PageMap<AggregatedPrediction>,
    pub effective_predictions: PageMap<AggregatedPrediction>,
    pub processing: bool,
    pub active_activity: Option<PipelineActivity>,
    pub last_error: Option<String>,
    pub pending_windows: HashSet<u32>,
    pub in_flight_repair_keys: KeySet,
    pub completed_repair_keys: KeySet,
}

/// The pipeline state as mathematical values.
#[verifier::ext_equal]
pub struct PipelineView {
    pub chapter: Option<Seq<char>>,
    pub total_pages: Option<u32>,
    pub focus_page: Option<u32>,
    pub focus_direction: i8,
    pub pages: Map<u32, Seq<u8>>,
    pub windows: Map<u32, WindowPrediction>,
    pub base: Map<u32, AggregatedPrediction>,
    pub effective: Map<u32, AggregatedPrediction>,
    pub processing: bool,
    pub activity: Option<ActivityView>,
    pub last_error: Option<Seq<char>>,
    pub pending: Set<u32>,
    pub in_flight: Set<Seq<char>>,
    pub completed: Set<Seq<char>>,
}

pub open spec fn opt_text(s: Option<String>) -> Option<Seq<char>> {
    match s {
        Some(t) => Some(t@),
        None => None,
    }
}

/// The state right after switching to `chapter`: nothing known yet.
pub open spec fn reset_view(chapter: Seq<char>) -> PipelineView {
    PipelineView {
        chapter: Some(chapter),
        total_pages: None,
        focus_page: None,
        focus_direction: 0,
        pages: Map::empty(),
        windows: Map::empty(),
        base: Map::empty(),
        effective: Map::empty(),
        processing: false,
        activity: None,
        last_error: None,
        pending: Set::empty(),
        in_flight: Set::empty(),
        completed: Set::empty(),
    }
}

/// The state once `chapter` is the current chapter: unchanged when it already
/// was, reset otherwise.
pub open spec fn enter_chapter(v: PipelineView, chapter: Seq<char>) -> PipelineView {
    if v.chapter == Some(chapter) {
        v
    } else {
        reset_view(chapter)
    }
}

/// The page count once a reported count is taken in: the larger of the two.
pub open spec fn merge_total(old: Option<u32>, total: Option<u32>) -> Option<u32> {
    match total {
        Some(t) => match old {
            Some(o) => if o >= t {
                Some(o)
            } else {
                Some(t)
            },
            None => Some(t),
        },
        None => old,
    }
}

/// The state after a page image is registered; a page keeps its first image.
pub open spec fn registered(
    v: PipelineView,
    chapter: Seq<char>,
    page: u32,
    total: Option<u32>,
    raw: Seq<u8>,
) -> PipelineView {
    let w = enter_chapter(v, chapter);
    PipelineView {
        total_pages: merge_total(w.total_pages, total),
        pages: if w.pages.contains_key(page) {
            w.pages
        } else {
            w.pages.insert(page, raw)
        },
        ..w
    }
}

pub open spec fn clamp_direction(d: i8) -> i8 {
    if d < -1 {
        -1i8
    } else if d > 1 {
        1i8
    } else {
        d
    }
}

/// The state after the reader's focus moves to `page`.
pub open spec fn focused(
    v: PipelineView,
    chapter: Seq<char>,
    page: u32,
    direction: i8,
    total: Option<u32>,
) -> PipelineView {
    let w = enter_chapter(v, chapter);
    PipelineView {
        total_pages: merge_total(w.total_pages, total),
        focus_page: Some(page),
        focus_direction: clamp_direction(direction),
        ..w
    }
}

impl ChapterMoodPipeline {
    pub open spec fn view(&self) -> PipelineView {
        PipelineView {
            chapter: opt_text(self.current_chapter),
            total_pages: self.total_pages,
            focus_page: self.focus_page,
            focus_direction: self.focus_direction,
            pages: self.pages@.map_values(|p: StoredPage| p.raw_bytes@),
            windows: self.window_predictions@,
            base: self.base_predictions@,
            effective: self.effective_predictions@,
            processing: self.processing,
            activity: match self.active_activity {
                Some(a) => Some(a@),
                None => None,
            },
            last_error: opt_text(self.last_error),
            pending: self.pending_windows@,
            in_flight: self.in_flight_repair_keys@,
            completed: self.completed_repair_keys@,
        }
    }

    /// The maps and key sets are well formed, page numbers stay within
    /// `MAX_PAGES`, and verdicts exist only for pages of the chapter.
    pub open spec fn wf(&self) -> bool {
        &&& self.maps_wf()
        &&& self.total_pages matches Some(t) ==> t <= MAX_PAGES
        &&& self.focus_page matches Some(f) ==> f <= MAX_PAGES
        &&& forall|k: u32| #[trigger]
            self.base_predictions@.contains_key(k) ==> (self.total_pages matches Some(t) && k < t)
    }

    pub open spec fn maps_wf(&self) -> bool {
        &&& self.pages.wf()
        &&& self.window_predictions.wf()
        &&& self.base_predictions.wf()
        &&& self.effective_predictions.wf()
        &&& self.in_flight_repair_keys.wf()
        &&& self.completed_repair_keys.wf()
    }

    pub fn new() -> (p: Self)
        ensures
            p.wf(),
            p@ == (PipelineView {
                chapter: None,
                ..reset_view(Seq::empty())
            }),
    {
        let p = ChapterMoodPipeline {
            current_chapter: None,
            total_pages: None,
            focus_page: None,
            focus_direction: 0,
            pages: PageMap::new(),
            window_predictions: PageMap::new(),
            base_predictions: PageMap::new(),
            effective_predictions: PageMap::new(),
            processing: false,
            active_activity: None,
            last_error: None,
            pending_windows: HashSet::new(),
            in_flight_repair_keys: KeySet::new(),
            completed_repair_keys: KeySet::new(),
        };
        assert(p@ =~= (PipelineView { chapter: None, ..reset_view(Seq::empty()) }));
        p
    }

    fn in_chapter(&self, chapter: &str) -> (r: bool)
        ensures
            r == (self@.chapter == Some(chapter@)),
    {
        match &self.current_chapter {
            Some(c) => str_eq(c.as_str(), chapter),
            None => false,
        }
    }

    fn reset_for_chapter(&mut self, chapter: &str)
        ensures
            final(self).wf(),
            final(self)@ == reset_view(chapter@),
    {
        self.current_chapter = Some(chapter.to_string());
        self.total_pages = None;
        self.focus_page = None;
        self.focus_direction = 0;
        self.pages.clear();
        self.window_predictions.clear();
        self.base_predictions.clear();
        self.effective_predictions.clear();
        self.pending_windows.clear();
        self.active_activity = None;
        self.last_error = None;
        self.in_flight_repair_keys.clear();
        self.completed_repair_keys.clear();
        self.processing = false;
        assert(self@ =~= reset_view(chapter@));
    }

    fn enter(&mut self, chapter: &str)
        requires
            old(self).wf(),
        ensures
            final(self).wf(),
            final(self)@ == enter_chapter(old(self)@, chapter@),
    {
        if !self.in_chapter(chapter) {
            self.reset_for_chapter(chapter);
        }
    }

    fn take_total(&mut self, total_pages: Option<u32>)
        requires
            old(self).wf(),
            total_pages matches Some(t) ==> t <= MAX_PAGES,
        ensures
            final(self).wf(),
            final(self)@ == (PipelineView {
                total_pages: merge_total(old(self)@.total_pages, total_pages),
                ..old(self)@
            }),
    {
        if let Some(total) = total_pages {
            let merged = match self.total_pages {
                Some(old_total) => if old_total >= total {
                    old_total
                } else {
                    total
                },
                None => total,
            };
            self.total_pages = Some(merged);
        }
        assert(self@ =~= (PipelineView {
            total_pages: merge_total(old(self)@.total_pages, total_pages),
            ..old(self)@
        }));
    }

    /// Registers the image of a page; switching chapters starts over.
    pub fn register_page(
        &mut self,
        chapter: &str,
        page: u32,
        total_pages: Option<u32>,
        raw_bytes: Vec<u8>,
    )
        requires
            old(self).wf(),
            total_pages matches Some(t) ==> t <= MAX_PAGES,
        ensures
            final(self).wf(),
            final(self)@ == registered(old(self)@, chapter@, page, total_pages, raw_bytes@),
    {
        self.enter(chapter);
        self.take_total(total_pages);
        let ghost before = self@;
        let ghost raw = raw_bytes@;
        if !self.pages.contains_key(&page) {
            self.pages.insert(page, StoredPage { raw_bytes });
            assert(self@.pages =~= before.pages.insert(page, raw));
        }
        assert(self@ =~= registered(old(self)@, chapter@, page, total_pages, raw));
    }

    /// Moves the reader's focus; switching chapters starts over.
    pub fn update_focus(&mut self, chapter: &str, page: u32, direction: i8, total_pages: Option<u32>)
        requires
            old(self).wf(),
            page <= MAX_PAGES,
            total_pages matches Some(t) ==> t <= MAX_PAGES,
        ensures
            final(self).wf(),
            final(self)@ == focused(old(self)@, chapter@, page, direction, total_pages),
    {
        self.enter(chapter);
        self.take_total(total_pages);
        self.focus_page = Some(page);
        self.focus_direction = if direction < -1 {
            -1
        } else if direction > 1 {
            1
        } else {
            direction
        };
        assert(self@ =~= focused(old(self)@, chapter@, page, direction, total_pages));
    }

    /// The registered pages, ascending.
    pub fn registered_pages(&self) -> (r: Vec<u32>)
        requires
            self.wf(),
        ensures
            r@ == sorted_keys(self@.pages),
    {
        proof {
            self.pages.lemma_sorted();
            assert(self@.pages.dom() =~= self.pages@.dom());
        }
        self.pages.keys()
    }

    pub fn focus_page(&self) -> (r: Option<u32>)
        ensures
            r == self.focus_page,
    {
        self.focus_page
    }

    pub fn is_processing(&self) -> (r: bool)
        ensures
            r == self.processing,
    {
        self.processing
    }

    pub fn active_activity(&self) -> (r: Option<PipelineActivity>)
        ensures
            r == self.active_activity,
    {
        self.active_activity
    }

    pub fn last_error(&self) -> (r: Option<String>)
        ensures
            r == self.last_error,
    {
        self.last_error.clone()
    }

    /// Claims the worker slot: false when a worker already runs; otherwise marks
    /// processing and clears the last error.
    pub fn start_processing_if_idle(&mut self) -> (started: bool)
        ensures
            started == !old(self)@.processing,
            final(self)@ == if started {
                PipelineView { processing: true, last_error: None, ..old(self)@ }
            } else {
                old(self)@
            },
            old(self).wf() ==> final(self).wf(),
    {
        if self.processing {
            return false;
        }
        self.processing = true;
        self.last_error = None;
        assert(self@ =~= PipelineView { processing: true, last_error: None, ..old(self)@ });
        true
    }

    /// Releases the worker slot.
    pub fn finish_processing(&mut self)
        ensures
            final(self)@ == (PipelineView { processing: false, activity: None, ..old(self)@ }),
            old(self).wf() ==> final(self).wf(),
    {
        self.processing = false;
        self.active_activity = None;
        assert(self@ =~= PipelineView { processing: false, activity: None, ..old(self)@ });
    }

    /// Records a failure of the current step.
    pub fn record_error(&mut self, error: String)
        ensures
            final(self)@ == (PipelineView {
                activity: None,
                last_error: Some(error@),
                ..old(self)@
            }),
            old(self).wf() ==> final(self).wf(),
    {
        self.active_activity = None;
        let ghost e = error@;
        self.last_error = Some(error);
        assert(self@ =~= PipelineView { activity: None, last_error: Some(e), ..old(self)@ });
    }

    /// Gives up on a request: the window or repair key is no longer in flight.
    pub fn commit_failure(&mut self, request: &PipelineActionRequest)
        requires
            old(self).wf(),
        ensures
            final(self).wf(),
            final(self)@ == failed(old(self)@, *request),
    {
        self.active_activity = None;
        match request {
            PipelineActionRequest::Window { center, .. } => {
                self.pending_windows.remove(center);
            },
            PipelineActionRequest::RepairSingle { key, .. }
            | PipelineActionRequest::RepairPair { key, .. } => {
                self.in_flight_repair_keys.remove(key.as_str());
            },
        }
        proof {
            match request {
                PipelineActionRequest::Window { center, .. } => {
                    assert(self@ =~= PipelineView {
                        activity: None,
                        pending: old(self)@.pending.remove(*center),
                        ..old(self)@
                    });
                },
                PipelineActionRequest::RepairSingle { key, .. }
                | PipelineActionRequest::RepairPair { key, .. } => {
                    assert(self@ =~= PipelineView {
                        activity: None,
                        in_flight: old(self)@.in_flight.remove(key@),
                        ..old(self)@
                    });
                },
            }
        }
    }
}


/// The state after giving up on `request`: no activity, and the window or
/// repair key no longer in flight.
pub open spec fn failed(v: PipelineView, request: PipelineActionRequest) -> PipelineView {
    match request {
        PipelineActionRequest::Window { center, .. } => PipelineView {
            activity: None,
            pending: v.pending.remove(center),
            ..v
        },
        PipelineActionRequest::RepairSingle { key, .. }
        | PipelineActionRequest::RepairPair { key, .. } => PipelineView {
            activity: None,
            in_flight: v.in_flight.remove(key@),
            ..v
        },
    }
}

// ─── Focus priority and windows ─────────────────────────────────────────────

/// Scheduling key of a page: pages nearer the focus come first, pages ahead in
/// the reading direction before pages behind, then by page number.
pub open spec fn priority(focus: Option<u32>, direction: i8, page: u32) -> (int, int, int) {
    match focus {
        None => (0x7fff_ffff, page as int, page as int),
        Some(f) => if page == f {
            (0, 0, page as int)
        } else {
            let forward = if direction == 0 {
                1
            } else {
                direction as int
            };
            if forward >= 0 {
                if page > f {
                    let d = page - f;
                    (((d - 1) / 2) * 2 + 1, d, page as int)
                } else {
                    let d = f - page;
                    (d * 2, d, page as int)
                }
            } else if page < f {
                let d = f - page;
                (((d - 1) / 2) * 2 + 1, d, page as int)
            } else {
                let d = page - f;
                (d * 2, d, page as int)
            }
        },
    }
}

pub open spec fn lex_lt(a: (int, int, int), b: (int, int, int)) -> bool {
    a.0 < b.0 || (a.0 == b.0 && (a.1 < b.1 || (a.1 == b.1 && a.2 < b.2)))
}

pub open spec fn key_of(v: PipelineView, page: u32) -> (int, int, int) {
    priority(v.focus_page, v.focus_direction, page)
}

/// Every page of the window centered on `center` is registered.
pub open spec fn window_ready(v: PipelineView, center: u32, total: u32) -> bool {
    forall|i: int|
        0 <= i < 5 ==> v.pages.contains_key(#[trigger] wide_context(center as int, total as int)[i])
}

/// A window that can run: not done, not in flight, all its pages registered.
pub open spec fn ready_center(v: PipelineView, total: u32, c: u32) -> bool {
    &&& c < total
    &&& !v.windows.contains_key(c)
    &&& !v.pending.contains(c)
    &&& window_ready(v, c, total)
}

/// The ready window with the smallest scheduling key.
pub open spec fn best_ready_center(v: PipelineView, total: u32, c: u32) -> bool {
    &&& ready_center(v, total, c)
    &&& forall|d: u32| #[trigger] ready_center(v, total, d) && d != c ==> lex_lt(key_of(v, c), key_of(v, d))
}

/// Some window can run.
pub open spec fn has_ready_window(v: PipelineView, total: u32) -> bool {
    exists|c: u32| #[trigger] ready_center(v, total, c)
}

/// `r` and `w` are the outcome of looking for a window: the ready window
/// nearest the focus, with its pages, marked in flight; nothing when no window
/// is ready.
pub open spec fn window_chosen(v: PipelineView, total: u32, r: Option<PipelineActionRequest>, w: PipelineView) -> bool {
    if has_ready_window(v, total) {
        &&& r matches Some(PipelineActionRequest::Window { center, total_pages: t, members })
        &&& t == total
        &&& best_ready_center(v, total, center)
        &&& action_pages_ok(v, wide_context(center as int, total as int), members@)
        &&& w == (PipelineView { pending: v.pending.insert(center), ..v })
    } else {
        r is None && w == v
    }
}

/// The pages handed to the model, with the images registered for them.
pub open spec fn action_pages_ok(v: PipelineView, pages: Seq<u32>, members: Seq<ActionPage>) -> bool {
    &&& members.len() == pages.len()
    &&& forall|i: int|
        0 <= i < members.len() ==> (#[trigger] members[i]).page == pages[i] && v.pages.contains_key(pages[i])
            && members[i].raw_bytes@ == v.pages[pages[i]]
}

fn lex_lt_exec(a: (u32, u32, u32), b: (u32, u32, u32)) -> (r: bool)
    ensures
        r == lex_lt((a.0 as int, a.1 as int, a.2 as int), (b.0 as int, b.1 as int, b.2 as int)),
{
    a.0 < b.0 || (a.0 == b.0 && (a.1 < b.1 || (a.1 == b.1 && a.2 < b.2)))
}

pub open spec fn key_triple(k: (u32, u32, u32)) -> (int, int, int) {
    (k.0 as int, k.1 as int, k.2 as int)
}

impl ChapterMoodPipeline {
    /// Scheduling key of a page; its first part must fit in 32 bits.
    pub fn priority_key(&self, page: u32) -> (k: (u32, u32, u32))
        requires
            priority(self.focus_page, self.focus_direction, page).0 <= u32::MAX,
        ensures
            key_triple(k) == priority(self.focus_page, self.focus_direction, page),
    {
        let focus = match self.focus_page {
            None => {
                return (0x7fff_ffff, page, page);
            },
            Some(f) => f,
        };
        if page == focus {
            return (0, 0, page);
        }
        let forward_bias: i8 = if self.focus_direction == 0 {
            1
        } else {
            self.focus_direction
        };
        if forward_bias >= 0 {
            if page > focus {
                let delta = page - focus;
                ((((delta - 1) / 2) * 2) + 1, delta, page)
            } else {
                let delta = focus - page;
                (delta * 2, delta, page)
            }
        } else if page < focus {
            let delta = focus - page;
            ((((delta - 1) / 2) * 2) + 1, delta, page)
        } else {
            let delta = page - focus;
            (delta * 2, delta, page)
        }
    }

    fn action_page(&self, page: u32) -> (r: Option<ActionPage>)
        requires
            self.pages.wf(),
        ensures
            r matches Some(a) ==> a.page == page && self@.pages.contains_key(page) && a.raw_bytes@
                == self@.pages[page],
            r is None ==> !self@.pages.contains_key(page),
    {
        match self.pages.get(&page) {
            Some(stored) => Some(ActionPage { page, raw_bytes: stored.raw_bytes.clone() }),
            None => None,
        }
    }

    fn action_pages(&self, pages: &Vec<u32>) -> (r: Option<Vec<ActionPage>>)
        requires
            self.pages.wf(),
        ensures
            r matches Some(m) ==> action_pages_ok(self@, pages@, m@),
            r is None ==> exists|i: int| 0 <= i < pages@.len() && !self@.pages.contains_key(#[trigger] pages@[i]),
    {
        let mut members: Vec<ActionPage> = Vec::new();
        let mut i: usize = 0;
        while i < pages.len()
            invariant
                self.pages.wf(),
                i <= pages@.len(),
                action_pages_ok(self@, pages@.take(i as int), members@),
            decreases pages@.len() - i,
        {
            let ghost prev = members@;
            match self.action_page(pages[i]) {
                Some(a) => {
                    members.push(a);
                },
                None => {
                    return None;
                },
            }
            i = i + 1;
            assert forall|j: int| 0 <= j < members@.len() implies (#[trigger] members@[j]).page
                == pages@.take(i as int)[j] && self@.pages.contains_key(pages@.take(i as int)[j])
                && members@[j].raw_bytes@ == self@.pages[pages@.take(i as int)[j]] by {
                if j < i - 1 {
                    assert(members@[j] == prev[j]);
                    assert(pages@.take(i as int)[j] == pages@.take((i - 1) as int)[j]);
                } else {
                    assert(pages@.take(i as int)[j] == pages@[i - 1]);
                }
            }
        }
        assert(pages@.take(i as int) =~= pages@);
        Some(members)
    }

    fn window_is_ready(&self, center: u32, total_pages: u32) -> (r: bool)
        requires
            self.pages.wf(),
        ensures
            r == window_ready(self@, center, total_pages),
    {
        let ctx = crate::winner::wide_context_indices(center, total_pages);
        let mut i: usize = 0;
        while i < 5
            invariant
                self.pages.wf(),
                ctx@ == wide_context(center as int, total_pages as int),
                i <= 5,
                forall|j: int| 0 <= j < i ==> self@.pages.contains_key(#[trigger] wide_context(center as int, total_pages as int)[j]),
            decreases 5 - i,
        {
            if !self.pages.contains_key(&ctx[i]) {
                return false;
            }
            i = i + 1;
        }
        true
    }

    /// Picks the ready window nearest the focus and marks it in flight.
    fn next_window_action(&mut self, total_pages: u32) -> (r: Option<PipelineActionRequest>)
        requires
            old(self).wf(),
            total_pages <= MAX_PAGES,
        ensures
            final(self).wf(),
            window_chosen(old(self)@, total_pages, r, final(self)@),
    {
        let mut best: Option<u32> = None;
        let mut c: u32 = 0;
        while c < total_pages
            invariant
                self.wf(),
                self@ == old(self)@,
                total_pages <= MAX_PAGES,
                c <= total_pages,
                best matches Some(b) ==> b < c && ready_center(self@, total_pages, b) && forall|d: u32|
                    d < c && #[trigger] ready_center(self@, total_pages, d) && d != b ==> lex_lt(
                        key_of(self@, b),
                        key_of(self@, d),
                    ),
                best is None ==> forall|d: u32| d < c ==> !#[trigger] ready_center(self@, total_pages, d),
            decreases total_pages - c,
        {
            if !self.window_predictions.contains_key(&c) && !self.pending_windows.contains(&c)
                && self.window_is_ready(c, total_pages) {
                match best {
                    None => {
                        best = Some(c);
                    },
                    Some(b) => {
                        let kc = self.priority_key(c);
                        let kb = self.priority_key(b);
                        if lex_lt_exec(kc, kb) {
                            best = Some(c);
                            proof {
                                assert forall|d: u32|
                                    d < c + 1 && #[trigger] ready_center(self@, total_pages, d) && d
                                        != c implies lex_lt(key_of(self@, c), key_of(self@, d)) by {
                                    if d != b {
                                        assert(lex_lt(key_of(self@, b), key_of(self@, d)));
                                    }
                                }
                            }
                        } else {
                            proof {
                                assert(key_of(self@, c).2 == c && key_of(self@, b).2 == b);
                            }
                        }
                    },
                }
            }
            c = c + 1;
        }
        match best {
            None => None,
            Some(center) => {
                let ctx = crate::winner::wide_context_indices(center, total_pages);
                let members = match self.action_pages(&ctx) {
                    Some(m) => m,
                    None => {
                        proof {
                            let i = choose|i: int| 0 <= i < ctx@.len() && !self@.pages.contains_key(#[trigger] ctx@[i]);
                            assert(window_ready(self@, center, total_pages));
                        }
                        return None;
                    },
                };
                self.pending_windows.insert(center);
                assert(self@ =~= PipelineView { pending: old(self)@.pending.insert(center), ..old(self)@ });
                Some(PipelineActionRequest::Window { center, total_pages, members })
            },
        }
    }
}


// ─── Finalizing pages ───────────────────────────────────────────────────────

/// First center whose window covers `page`.
pub open spec fn span_start(page: u32) -> int {
    if page >= 2 {
        page - 2
    } else {
        0
    }
}

/// Last center whose window covers `page`, within the chapter.
pub open spec fn span_end(page: u32, total: u32) -> int {
    let last = if total >= 1 {
        total - 1
    } else {
        0
    };
    if page + 2 <= last {
        page + 2
    } else {
        last
    }
}

/// Every window whose center lies within two pages of `page` has voted.
pub open spec fn page_ready(v: PipelineView, page: u32, total: u32) -> bool {
    forall|c: u32| span_start(page) <= c <= span_end(page, total) ==> #[trigger] v.windows.contains_key(c)
}

/// A page of the chapter without a verdict whose surrounding windows have all voted.
pub open spec fn ready_page(v: PipelineView, total: u32, page: u32) -> bool {
    &&& page < total
    &&& !v.base.contains_key(page)
    &&& page_ready(v, page, total)
}

/// The pages strictly ascend by scheduling key.
pub open spec fn by_priority(v: PipelineView, ps: Seq<u32>) -> bool {
    forall|i: int, j: int| 0 <= i < j < ps.len() ==> lex_lt(key_of(v, #[trigger] ps[i]), key_of(v, #[trigger] ps[j]))
}

/// The verdicts of the windows, in ascending page order of their centers.
pub open spec fn window_votes_of(v: PipelineView) -> Seq<WindowPrediction> {
    values_by_page(v.windows)
}

/// `w` is `v` after every ready page got its verdict, in both the base and the
/// effective predictions.
pub open spec fn finalized(v: PipelineView, total: u32, w: PipelineView) -> bool {
    &&& w == PipelineView { base: w.base, effective: w.effective, ..v }
    &&& forall|k: u32| #[trigger] w.base.contains_key(k) <==> v.base.contains_key(k) || ready_page(v, total, k)
    &&& forall|k: u32| #[trigger] w.effective.contains_key(k) <==> v.effective.contains_key(k) || ready_page(v, total, k)
    &&& forall|k: u32| #[trigger] ready_page(v, total, k) ==> verdict_of(window_votes_of(v), k, w.base[k])
        && w.effective[k] == w.base[k]
    &&& forall|k: u32| !ready_page(v, total, k) && #[trigger] v.base.contains_key(k) ==> w.base[k] == v.base[k]
    &&& forall|k: u32| !ready_page(v, total, k) && #[trigger] v.effective.contains_key(k) ==> w.effective[k] == v.effective[k]
}

pub open spec fn update_pages(us: Seq<PublishedPageUpdate>) -> Seq<u32> {
    us.map_values(|u: PublishedPageUpdate| u.page)
}

/// `us` publishes the verdicts of `w` for `ps`, one update per page, in that order.
pub open spec fn publishes(chapter: Seq<char>, w: PipelineView, ps: Seq<u32>, us: Seq<PublishedPageUpdate>) -> bool {
    &&& update_pages(us) == ps
    &&& forall|i: int| 0 <= i < us.len() ==> (#[trigger] us[i])@ == update_of(chapter, ps[i], w.effective[ps[i]])
}

/// The updates of finalizing: for a known chapter, one per ready page in
/// scheduling order; none otherwise.
pub open spec fn finalize_updates(v: PipelineView, total: u32, w: PipelineView, us: Seq<PublishedPageUpdate>) -> bool {
    match v.chapter {
        None => us.len() == 0,
        Some(ch) => {
            &&& by_priority(v, update_pages(us))
            &&& forall|k: u32| update_pages(us).contains(k) <==> ready_page(v, total, k)
            &&& publishes(ch, w, update_pages(us), us)
        },
    }
}

/// The outcome of finalizing the ready pages of `v`.
pub open spec fn finalize_step(v: PipelineView, w: PipelineView, us: Seq<PublishedPageUpdate>) -> bool {
    match v.total_pages {
        None => us.len() == 0 && w == v,
        Some(total) => finalized(v, total, w) && finalize_updates(v, total, w, us),
    }
}

impl ChapterMoodPipeline {
    fn page_is_ready(&self, page: u32, total: u32) -> (r: bool)
        requires
            self.window_predictions.wf(),
            page < total,
            total <= MAX_PAGES,
        ensures
            r == page_ready(self@, page, total),
    {
        let start: u32 = if page >= 2 { page - 2 } else { 0 };
        let end: u32 = if page + 2 <= total - 1 { page + 2 } else { total - 1 };
        let mut c: u32 = start;
        while c <= end
            invariant
                self.window_predictions.wf(),
                start == span_start(page),
                end == span_end(page, total),
                end < MAX_PAGES,
                start <= c <= end + 1,
                forall|x: u32| start <= x < c ==> #[trigger] self@.windows.contains_key(x),
            decreases end + 1 - c,
        {
            if !self.window_predictions.contains_key(&c) {
                assert(!self@.windows.contains_key(c));
                return false;
            }
            c = c + 1;
        }
        true
    }

    /// Inserts `page` into `out`, kept ascending by scheduling key.
    fn insert_by_priority(&self, out: &mut Vec<u32>, page: u32)
        requires
            self.focus_page matches Some(f) ==> f <= MAX_PAGES,
            page <= MAX_PAGES,
            forall|i: int| 0 <= i < old(out)@.len() ==> #[trigger] old(out)@[i] <= MAX_PAGES,
            by_priority(self@, old(out)@),
            !old(out)@.contains(page),
        ensures
            by_priority(self@, final(out)@),
            final(out)@.to_set() == old(out)@.to_set().insert(page),
            final(out)@.len() == old(out)@.len() + 1,
            forall|i: int| 0 <= i < final(out)@.len() ==> #[trigger] final(out)@[i] <= MAX_PAGES,
    {
        let kp = self.priority_key(page);
        let mut i: usize = 0;
        let mut stop = false;
        while !stop && i < out.len()
            invariant
                self.focus_page matches Some(f) ==> f <= MAX_PAGES,
                key_triple(kp) == key_of(self@, page),
                i <= out@.len(),
                out@ == old(out)@,
                forall|j: int| 0 <= j < out@.len() ==> #[trigger] out@[j] <= MAX_PAGES,
                forall|j: int| 0 <= j < i ==> lex_lt(key_of(self@, #[trigger] out@[j]), key_of(self@, page)),
                stop ==> i < out@.len() && lex_lt(key_of(self@, page), key_of(self@, out@[i as int])),
                !out@.contains(page),
            decreases out@.len() - i, (if stop { 0int } else { 1int }),
        {
            let ko = self.priority_key(out[i]);
            if lex_lt_exec(kp, ko) {
                stop = true;
            } else {
                proof {
                    assert(out@[i as int] != page);
                    assert(key_of(self@, out@[i as int]).2 == out@[i as int]);
                    assert(key_of(self@, page).2 == page);
                }
                i = i + 1;
            }
        }
        let ghost prev = out@;
        out.insert(i, page);
        proof {
            assert(out@ == prev.insert(i as int, page));
            assert forall|a: int, b: int| 0 <= a < b < out@.len() implies lex_lt(
                key_of(self@, #[trigger] out@[a]),
                key_of(self@, #[trigger] out@[b]),
            ) by {
                if b < i {
                    assert(out@[a] == prev[a] && out@[b] == prev[b]);
                } else if b == i {
                    assert(out@[a] == prev[a]);
                } else if a == i {
                    assert(out@[b] == prev[b - 1]);
                    if b - 1 > i {
                        assert(lex_lt(key_of(self@, prev[i as int]), key_of(self@, prev[b - 1])));
                    }
                } else if a < i {
                    assert(out@[a] == prev[a] && out@[b] == prev[b - 1]);
                    if a < b - 1 {
                        assert(lex_lt(key_of(self@, prev[a]), key_of(self@, prev[b - 1])));
                    }
                } else {
                    assert(out@[a] == prev[a - 1] && out@[b] == prev[b - 1]);
                    assert(lex_lt(key_of(self@, prev[a - 1]), key_of(self@, prev[b - 1])));
                }
            }
            assert(out@.to_set() =~= prev.to_set().insert(page)) by {
                assert forall|x: u32| out@.to_set().contains(x) implies prev.to_set().insert(page).contains(x) by {
                    let j = choose|j: int| 0 <= j < out@.len() && out@[j] == x;
                    if j < i {
                        assert(prev[j] == x);
                    } else if j > i {
                        assert(prev[j - 1] == x);
                    }
                }
                assert forall|x: u32| prev.to_set().insert(page).contains(x) implies out@.to_set().contains(x) by {
                    if x == page {
                        assert(out@[i as int] == page);
                    } else {
                        let j = choose|j: int| 0 <= j < prev.len() && prev[j] == x;
                        if j < i {
                            assert(out@[j] == x);
                        } else {
                            assert(out@[j + 1] == x);
                        }
                    }
                }
            }
            assert forall|j: int| 0 <= j < out@.len() implies #[trigger] out@[j] <= MAX_PAGES by {
                if j < i {
                    assert(out@[j] == prev[j]);
                } else if j > i {
                    assert(out@[j] == prev[j - 1]);
                }
            }
        }
    }

    /// The pages ready to be finalized, in scheduling order.
    fn ready_pages(&self, total: u32) -> (out: Vec<u32>)
        requires
            self.wf(),
            total <= MAX_PAGES,
        ensures
            by_priority(self@, out@),
            forall|k: u32| out@.contains(k) <==> ready_page(self@, total, k),
    {
        let mut out: Vec<u32> = Vec::new();
        let mut p: u32 = 0;
        while p < total
            invariant
                self.wf(),
                total <= MAX_PAGES,
                p <= total,
                by_priority(self@, out@),
                forall|j: int| 0 <= j < out@.len() ==> #[trigger] out@[j] <= MAX_PAGES,
                forall|k: u32| out@.contains(k) <==> (k < p && ready_page(self@, total, k)),
            decreases total - p,
        {
            if !self.base_predictions.contains_key(&p) && self.page_is_ready(p, total) {
                let ghost prev = out@;
                self.insert_by_priority(&mut out, p);
                proof {
                    assert forall|k: u32| out@.contains(k) <==> (k < p + 1 && ready_page(self@, total, k)) by {
                        assert(out@.to_set().contains(k) == out@.contains(k));
                        assert(prev.to_set().contains(k) == prev.contains(k));
                    }
                }
            }
            p = p + 1;
        }
        out
    }

    /// Copies of the window verdicts, in ascending page order of their centers.
    fn window_votes(&self) -> (votes: Vec<WindowPrediction>)
        requires
            self.window_predictions.wf(),
        ensures
            same_votes(votes@, window_votes_of(self@)),
            votes@.len() <= 0x1_0000_0000,
    {
        proof {
            self.window_predictions.lemma_sorted();
            self.window_predictions.lemma_keys();
        }
        let n = self.window_predictions.len();
        let mut votes: Vec<WindowPrediction> = Vec::new();
        let mut i: usize = 0;
        while i < n
            invariant
                self.window_predictions.wf(),
                n == self.window_predictions.value_seq().len(),
                self.window_predictions.value_seq() == window_votes_of(self@),
                i <= n,
                votes@.len() == i,
                forall|j: int| 0 <= j < i ==> #[trigger] same_vote(votes@[j], window_votes_of(self@)[j]),
            decreases n - i,
        {
            let w = self.window_predictions.value_at(i).clone();
            votes.push(w);
            i = i + 1;
        }
        votes
    }

    /// The update published for a verdict, when the chapter is known.
    fn build_update(&self, page: u32, prediction: &AggregatedPrediction) -> (r: Option<PublishedPageUpdate>)
        ensures
            match self@.chapter {
                None => r is None,
                Some(ch) => r matches Some(u) && u@ == update_of(ch, page, *prediction),
            },
    {
        match &self.current_chapter {
            None => None,
            Some(ch) => Some(PublishedPageUpdate {
                chapter: ch.clone(),
                page,
                mood: prediction.mood,
                intensity: prediction.intensity,
                scores: prediction.scores,
                narrative_role: prediction.narrative_role,
                source: CachedMoodSource::ChapterPipeline,
                finalized: true,
            }),
        }
    }

    /// Gives every ready page its verdict from the window votes and publishes
    /// the verdicts, nearest the focus first.
    pub fn finalize_ready_pages(&mut self) -> (updates: Vec<PublishedPageUpdate>)
        requires
            old(self).wf(),
        ensures
            final(self).wf(),
            finalize_step(old(self)@, final(self)@, updates@),
    {
        let mut updates: Vec<PublishedPageUpdate> = Vec::new();
        let total = match self.total_pages {
            None => {
                return updates;
            },
            Some(t) => t,
        };
        let order = self.ready_pages(total);
        let votes = self.window_votes();
        let ghost v0 = self@;
        let mut i: usize = 0;
        proof {
            assert(order@.take(0) =~= Seq::<u32>::empty());
            assert(update_pages(updates@) =~= Seq::<u32>::empty());
        }
        while i < order.len()
            invariant
                self.wf(),
                self.total_pages == Some(total),
                by_priority(v0, order@),
                forall|k: u32| order@.contains(k) <==> ready_page(v0, total, k),
                same_votes(votes@, window_votes_of(v0)),
                votes@.len() <= 0x1_0000_0000,
                i <= order@.len(),
                self@ == (PipelineView { base: self@.base, effective: self@.effective, ..v0 }),
                forall|k: u32| #[trigger] self@.base.contains_key(k) <==> v0.base.contains_key(k)
                    || order@.take(i as int).contains(k),
                forall|k: u32| #[trigger] self@.effective.contains_key(k) <==> v0.effective.contains_key(k)
                    || order@.take(i as int).contains(k),
                forall|k: u32| #[trigger] order@.take(i as int).contains(k) ==> verdict_of(window_votes_of(v0), k, self@.base[k])
                    && self@.effective[k] == self@.base[k],
                forall|k: u32| !order@.take(i as int).contains(k) && #[trigger] v0.base.contains_key(k) ==> self@.base[k] == v0.base[k],
                forall|k: u32| !order@.take(i as int).contains(k) && #[trigger] v0.effective.contains_key(k) ==> self@.effective[k] == v0.effective[k],
                match v0.chapter {
                    None => updates@.len() == 0,
                    Some(ch) => publishes(ch, self@, order@.take(i as int), updates@),
                },
            decreases order@.len() - i,
        {
            let page = order[i];
            let prediction = page_verdict(votes.as_slice(), page);
            proof {
                lemma_same_votes_verdict(votes@, window_votes_of(v0), page, prediction);
                assert(order@.contains(page));
            }
            self.base_predictions.insert(page, prediction.clone());
            self.effective_predictions.insert(page, prediction.clone());
            let ghost prev_updates = updates@;
            match self.build_update(page, &prediction) {
                Some(u) => {
                    updates.push(u);
                },
                None => {},
            }
            let ghost prev_take = order@.take(i as int);
            i = i + 1;
            proof {
                assert(order@.take(i as int) == prev_take.push(page));
                assert forall|k: u32| order@.take(i as int).contains(k) <==> (prev_take.contains(k) || k == page) by {
                    if order@.take(i as int).contains(k) && k != page {
                        let j = choose|j: int| 0 <= j < i && order@.take(i as int)[j] == k;
                        assert(prev_take[j] == k);
                    }
                    if prev_take.contains(k) {
                        let j = choose|j: int| 0 <= j < prev_take.len() && prev_take[j] == k;
                        assert(order@.take(i as int)[j] == k);
                    }
                    if k == page {
                        assert(order@.take(i as int)[i - 1] == k);
                    }
                }
                assert forall|k: u32| #[trigger] order@.take(i as int).contains(k) implies verdict_of(
                    window_votes_of(v0),
                    k,
                    self@.base[k],
                ) && self@.effective[k] == self@.base[k] by {
                    if k != page {
                        assert(prev_take.contains(k));
                    }
                }
                assert(!prev_take.contains(page)) by {
                    if prev_take.contains(page) {
                        let j = choose|j: int| 0 <= j < prev_take.len() && prev_take[j] == page;
                        assert(lex_lt(key_of(v0, order@[j]), key_of(v0, order@[i - 1])));
                    }
                }
                match v0.chapter {
                    None => {},
                    Some(ch) => {
                        assert(update_pages(updates@) =~= update_pages(prev_updates).push(page));
                        assert forall|j: int| 0 <= j < updates@.len() implies (#[trigger] updates@[j])@
                            == update_of(ch, order@.take(i as int)[j], self@.effective[order@.take(i as int)[j]]) by {
                            if j < updates@.len() - 1 {
                                assert(updates@[j] == prev_updates[j]);
                                assert(order@.take(i as int)[j] == prev_take[j]);
                                assert(prev_take.contains(prev_take[j]));
                            }
                        }
                    },
                }
            }
        }
        proof {
            assert(order@.take(i as int) == order@);
            match v0.chapter {
                None => {},
                Some(ch) => {
                    assert(update_pages(updates@) == order@);
                },
            }
        }
        updates
    }
}


// ─── Structural repairs ─────────────────────────────────────────────────────

/// The published parts of two verdicts differ: mood, intensity or note.
pub open spec fn differs(a: AggregatedPrediction, b: AggregatedPrediction) -> bool {
    !(a.mood == b.mood && a.intensity == b.intensity && opt_text(a.note) == opt_text(b.note))
}

/// Whether `page` gets a new update when `before` becomes `after`.
pub open spec fn changed(before: Map<u32, AggregatedPrediction>, after: Map<u32, AggregatedPrediction>, page: u32) -> bool {
    &&& after.contains_key(page)
    &&& !(before.contains_key(page) && !differs(before[page], after[page]))
}

/// The pages among the first `n` of `order` whose verdict changed, in that order.
pub open spec fn changed_upto(
    order: Seq<u32>,
    before: Map<u32, AggregatedPrediction>,
    after: Map<u32, AggregatedPrediction>,
    n: int,
) -> Seq<u32>
    decreases n,
{
    if n <= 0 {
        Seq::empty()
    } else if changed(before, after, order[n - 1]) {
        changed_upto(order, before, after, n - 1).push(order[n - 1])
    } else {
        changed_upto(order, before, after, n - 1)
    }
}

/// The outcome of applying the action bridge holds to `v`: the effective
/// verdicts along the finalized pages, and an update per changed page.
pub open spec fn structural_step(v: PipelineView, w: PipelineView, us: Seq<PublishedPageUpdate>) -> bool {
    let order = sorted_keys(v.base);
    &&& w == (PipelineView { effective: w.effective, ..v })
    &&& holds_applied(v.effective, w.effective, order, moods_along(order, v.base), order.len() as int)
    &&& match v.chapter {
        None => us.len() == 0,
        Some(ch) => publishes(ch, w, changed_upto(order, v.effective, w.effective, order.len() as int), us),
    }
}

fn same_note(a: &Option<String>, b: &Option<String>) -> (r: bool)
    ensures
        r == (opt_text(*a) == opt_text(*b)),
{
    match (a, b) {
        (Some(x), Some(y)) => str_eq(x.as_str(), y.as_str()),
        (None, None) => true,
        _ => false,
    }
}

/// A copy of a map of verdicts.
fn snapshot(m: &PageMap<AggregatedPrediction>) -> (r: PageMap<AggregatedPrediction>)
    requires
        m.wf(),
    ensures
        r.wf(),
        r@ == m@,
{
    proof {
        m.lemma_keys();
    }
    let mut r: PageMap<AggregatedPrediction> = PageMap::new();
    let n = m.len();
    let mut i: usize = 0;
    while i < n
        invariant
            m.wf(),
            r.wf(),
            n == m.key_seq().len(),
            i <= n,
            forall|k: u32| m@.contains_key(k) <==> m.key_seq().contains(k),
            forall|j: int| 0 <= j < m.key_seq().len() ==> #[trigger] m@[m.key_seq()[j]] == m.value_seq()[j],
            m.key_seq().len() == m.value_seq().len(),
            forall|k: u32| #[trigger] r@.contains_key(k) <==> m.key_seq().take(i as int).contains(k),
            forall|k: u32| #[trigger] r@.contains_key(k) ==> r@[k] == m@[k],
        decreases n - i,
    {
        let k = m.key_at(i);
        let v = m.value_at(i).clone();
        let ghost prev = m.key_seq().take(i as int);
        r.insert(k, v);
        i = i + 1;
        proof {
            assert(m.key_seq().take(i as int) == prev.push(k));
            assert forall|x: u32| #[trigger] r@.contains_key(x) <==> m.key_seq().take(i as int).contains(x) by {
                if m.key_seq().take(i as int).contains(x) && x != k {
                    let j = choose|j: int| 0 <= j < i && m.key_seq().take(i as int)[j] == x;
                    assert(prev[j] == x);
                }
                if prev.contains(x) {
                    let j = choose|j: int| 0 <= j < prev.len() && prev[j] == x;
                    assert(m.key_seq().take(i as int)[j] == x);
                }
                if x == k {
                    assert(m.key_seq().take(i as int)[i - 1] == x);
                }
            }
            assert(m@[k] == m.value_seq()[i - 1]);
        }
    }
    proof {
        assert(m.key_seq().take(i as int) =~= m.key_seq());
        assert(r@ =~= m@);
    }
    r
}

impl ChapterMoodPipeline {
    /// Applies the action bridge holds to the effective verdicts, along the
    /// finalized pages in ascending order, and publishes the pages whose
    /// verdict changed.
    pub fn apply_structural_repairs(&mut self) -> (updates: Vec<PublishedPageUpdate>)
        requires
            old(self).maps_wf(),
        ensures
            final(self).maps_wf(),
            old(self).wf() ==> final(self).wf(),
            structural_step(old(self)@, final(self)@, updates@),
    {
        proof {
            self.base_predictions.lemma_sorted();
            self.base_predictions.lemma_keys();
        }
        let page_order = self.base_predictions.keys();
        let ghost order = page_order@;
        let ghost v0 = self@;
        if page_order.len() == 0 {
            proof {
                assert(self@.effective =~= v0.effective);
                assert(order.len() == 0);
                assert(changed_upto(order, v0.effective, v0.effective, 0) =~= Seq::<u32>::empty());
                assert(update_pages(Seq::<PublishedPageUpdate>::empty()) =~= Seq::<u32>::empty());
            }
            return Vec::new();
        }
        let before = snapshot(&self.effective_predictions);
        proof {
            assert(all_present(order, v0.base));
        }
        apply_action_bridge_holds(page_order.as_slice(), &self.base_predictions, &mut self.effective_predictions);
        let mut updates: Vec<PublishedPageUpdate> = Vec::new();
        let mut i: usize = 0;
        proof {
            assert(update_pages(updates@) =~= Seq::<u32>::empty());
        }
        while i < page_order.len()
            invariant
                self.maps_wf(),
                old(self).wf() ==> self.wf(),
                before.wf(),
                before@ == v0.effective,
                page_order@ == order,
                self@ == (PipelineView { effective: self@.effective, ..v0 }),
                i <= order.len(),
                match v0.chapter {
                    None => updates@.len() == 0,
                    Some(ch) => publishes(ch, self@, changed_upto(order, v0.effective, self@.effective, i as int), updates@),
                },
            decreases order.len() - i,
        {
            let page = page_order[i];
            let ghost prev_updates = updates@;
            match self.effective_predictions.get(&page) {
                Some(after) => {
                    let unchanged = match before.get(&page) {
                        Some(b) => b.mood == after.mood && b.intensity == after.intensity && same_note(&b.note, &after.note),
                        None => false,
                    };
                    if !unchanged {
                        match self.build_update(page, after) {
                            Some(u) => {
                                updates.push(u);
                            },
                            None => {},
                        }
                    }
                },
                None => {},
            }
            i = i + 1;
            proof {
                match v0.chapter {
                    None => {},
                    Some(ch) => {
                        let cs = changed_upto(order, v0.effective, self@.effective, i as int);
                        let pcs = changed_upto(order, v0.effective, self@.effective, i - 1);
                        if changed(v0.effective, self@.effective, page) {
                            assert(update_pages(updates@) =~= update_pages(prev_updates).push(page));
                            assert forall|j: int| 0 <= j < updates@.len() implies (#[trigger] updates@[j])@
                                == update_of(ch, cs[j], self@.effective[cs[j]]) by {
                                if j < updates@.len() - 1 {
                                    assert(updates@[j] == prev_updates[j]);
                                }
                            }
                        } else {
                            assert(updates@ == prev_updates);
                        }
                    },
                }
            }
        }
        updates
    }
}


// ─── Selective repair requests ──────────────────────────────────────────────

pub open spec fn plan_key(p: PlanView) -> Seq<char> {
    match p {
        PlanView::Single { key, .. } => key,
        PlanView::Pair { key, .. } => key,
    }
}

/// The page a plan is scheduled by: its page, or the first of its pair.
pub open spec fn plan_anchor(p: PlanView) -> u32 {
    match p {
        PlanView::Single { page, .. } => page,
        PlanView::Pair { first_page, .. } => first_page,
    }
}

pub open spec fn left_of(page: u32) -> u32 {
    if page >= 1 {
        (page - 1) as u32
    } else {
        0
    }
}

pub open spec fn right_of(page: u32, total: u32) -> u32 {
    let last: int = if total >= 1 {
        total - 1
    } else {
        0
    };
    if page + 1 <= last {
        (page + 1) as u32
    } else {
        last as u32
    }
}

/// The page and both its neighbours are registered.
pub open spec fn triplet_available(v: PipelineView, page: u32, total: u32) -> bool {
    &&& v.pages.contains_key(left_of(page))
    &&& v.pages.contains_key(page)
    &&& v.pages.contains_key(right_of(page, total))
}

pub open spec fn action_page_ok(v: PipelineView, page: u32, a: ActionPage) -> bool {
    &&& a.page == page
    &&& v.pages.contains_key(page)
    &&& a.raw_bytes@ == v.pages[page]
}

/// `t` holds the registered images of `page` and its neighbours.
pub open spec fn triplet_ok(v: PipelineView, page: u32, total: u32, t: ActionTriplet) -> bool {
    &&& action_page_ok(v, left_of(page), t.left)
    &&& action_page_ok(v, page, t.center)
    &&& action_page_ok(v, right_of(page, total), t.right)
}

/// A plan that can be sent: its key neither done nor in flight, its pages and
/// their neighbours registered.
pub open spec fn makeable(v: PipelineView, total: u32, p: PlanView) -> bool {
    &&& !v.completed.contains(plan_key(p))
    &&& !v.in_flight.contains(plan_key(p))
    &&& match p {
        PlanView::Single { page, .. } => triplet_available(v, page, total),
        PlanView::Pair { first_page, second_page, .. } => triplet_available(v, first_page, total)
            && triplet_available(v, second_page, total),
    }
}

/// Plan `j` comes before plan `i`: a smaller scheduling key, or the same page
/// and an earlier place in the plan list.
pub open spec fn plan_precedes(v: PipelineView, plans: Seq<PlanView>, j: int, i: int) -> bool {
    ||| lex_lt(key_of(v, plan_anchor(plans[j])), key_of(v, plan_anchor(plans[i])))
    ||| (plan_anchor(plans[j]) == plan_anchor(plans[i]) && j < i)
}

/// Plan `j` is the first makeable plan in scheduling order.
pub open spec fn best_plan(v: PipelineView, total: u32, plans: Seq<PlanView>, j: int) -> bool {
    &&& 0 <= j < plans.len()
    &&& makeable(v, total, plans[j])
    &&& forall|i: int|
        0 <= i < plans.len() && i != j && #[trigger] makeable(v, total, plans[i]) ==> plan_precedes(v, plans, j, i)
}

/// `r` is the request that carries out plan `p`.
pub open spec fn repair_request(v: PipelineView, total: u32, p: PlanView, r: PipelineActionRequest) -> bool {
    match p {
        PlanView::Single { key, page, prompt_kind, reason, accept } => {
            &&& r matches PipelineActionRequest::RepairSingle {
                key: k,
                page: pg,
                total_pages: t,
                prompt_kind: pk,
                reason: rs,
                accept: ac,
                triplet,
            }
            &&& k@ == key
            &&& pg == page
            &&& t == total
            &&& pk == prompt_kind
            &&& rs@ == reason
            &&& ac == accept
            &&& triplet_ok(v, page, total, triplet)
        },
        PlanView::Pair { key, first_page, second_page, prompt_kind, reason, accept } => {
            &&& r matches PipelineActionRequest::RepairPair {
                key: k,
                first_page: fp,
                second_page: sp,
                total_pages: t,
                prompt_kind: pk,
                reason: rs,
                accept: ac,
                first_triplet,
                second_triplet,
            }
            &&& k@ == key
            &&& fp == first_page
            &&& sp == second_page
            &&& t == total
            &&& pk == prompt_kind
            &&& rs@ == reason
            &&& ac == accept
            &&& triplet_ok(v, first_page, total, first_triplet)
            &&& triplet_ok(v, second_page, total, second_triplet)
        },
    }
}

/// The repair plans for the finalized pages, in ascending page order.
pub open spec fn repair_plans_of(v: PipelineView) -> Seq<PlanView> {
    repair_plans(sorted_keys(v.base), moods_along(sorted_keys(v.base), v.base))
}

/// `r` and `w` are the outcome of looking for a repair: the first makeable plan
/// in scheduling order, with its key marked in flight; nothing when no plan
/// can be made.
pub open spec fn repair_chosen(v: PipelineView, total: u32, r: Option<PipelineActionRequest>, w: PipelineView) -> bool {
    let plans = repair_plans_of(v);
    if exists|j: int| 0 <= j < plans.len() && #[trigger] makeable(v, total, plans[j]) {
        exists|j: int|
            #[trigger] best_plan(v, total, plans, j) && (r matches Some(req) && repair_request(v, total, plans[j], req))
                && w == (PipelineView { in_flight: v.in_flight.insert(plan_key(plans[j])), ..v })
    } else {
        r is None && w == v
    }
}

impl ChapterMoodPipeline {
    fn make_triplet(&self, page: u32, total: u32) -> (r: Option<ActionTriplet>)
        requires
            self.pages.wf(),
            page <= MAX_PAGES,
        ensures
            r matches Some(t) ==> triplet_ok(self@, page, total, t),
            r is None ==> !triplet_available(self@, page, total),
    {
        let left: u32 = if page >= 1 { page - 1 } else { 0 };
        let last: u32 = if total >= 1 { total - 1 } else { 0 };
        let right: u32 = if page + 1 <= last { page + 1 } else { last };
        let l = match self.action_page(left) {
            Some(a) => a,
            None => {
                return None;
            },
        };
        let c = match self.action_page(page) {
            Some(a) => a,
            None => {
                return None;
            },
        };
        let r = match self.action_page(right) {
            Some(a) => a,
            None => {
                return None;
            },
        };
        Some(ActionTriplet { left: l, center: c, right: r })
    }

    fn has_triplet(&self, page: u32, total: u32) -> (r: bool)
        requires
            self.pages.wf(),
            page <= MAX_PAGES,
        ensures
            r == triplet_available(self@, page, total),
    {
        let left: u32 = if page >= 1 { page - 1 } else { 0 };
        let last: u32 = if total >= 1 { total - 1 } else { 0 };
        let right: u32 = if page + 1 <= last { page + 1 } else { last };
        self.pages.contains_key(&left) && self.pages.contains_key(&page) && self.pages.contains_key(&right)
    }

    fn plan_makeable(&self, plan: &RepairPlan, total: u32) -> (r: bool)
        requires
            self.wf(),
            plan_pages_in(plan@, sorted_keys(self@.base)),
        ensures
            r == makeable(self@, total, plan@),
    {
        proof {
            self.base_predictions.lemma_sorted();
            self.base_predictions.lemma_keys();
        }
        match plan {
            RepairPlan::Single { key, page, .. } => {
                proof {
                    assert(self@.base.contains_key(*page));
                }
                !self.completed_repair_keys.contains(key.as_str()) && !self.in_flight_repair_keys.contains(
                    key.as_str(),
                ) && self.has_triplet(*page, total)
            },
            RepairPlan::Pair { key, first_page, second_page, .. } => {
                proof {
                    assert(self@.base.contains_key(*first_page));
                    assert(self@.base.contains_key(*second_page));
                }
                !self.completed_repair_keys.contains(key.as_str()) && !self.in_flight_repair_keys.contains(
                    key.as_str(),
                ) && self.has_triplet(*first_page, total) && self.has_triplet(*second_page, total)
            },
        }
    }

    fn plan_anchor_page(plan: &RepairPlan) -> (p: u32)
        ensures
            p == plan_anchor(plan@),
    {
        match plan {
            RepairPlan::Single { page, .. } => *page,
            RepairPlan::Pair { first_page, .. } => *first_page,
        }
    }

    /// Picks the first makeable repair plan in scheduling order and marks its
    /// key in flight.
    fn next_repair_action(&mut self, total_pages: u32) -> (r: Option<PipelineActionRequest>)
        requires
            old(self).wf(),
        ensures
            final(self).wf(),
            repair_chosen(old(self)@, total_pages, r, final(self)@),
    {
        proof {
            self.base_predictions.lemma_sorted();
            self.base_predictions.lemma_keys();
        }
        let page_order = self.base_predictions.keys();
        let ghost order = page_order@;
        let ghost v = self@;
        let ghost moods = moods_along(order, v.base);
        proof {
            assert(all_present(order, v.base));
            lemma_repair_plans_pages(order, moods);
        }
        let plans = plan_selective_repairs(page_order.as_slice(), &self.base_predictions);
        let ghost pv = repair_plans_of(v);
        proof {
            assert(plans_view(plans@) == pv);
            assert(plans_view(plans@).len() == plans@.len());
        }
        let mut best: Option<usize> = None;
        let mut j: usize = 0;
        while j < plans.len()
            invariant
                self.wf(),
                self@ == v,
                order == sorted_keys(v.base),
                forall|k: u32| v.base.contains_key(k) <==> order.contains(k),
                plans_view(plans@) == pv,
                pv.len() == plans@.len(),
                all_pages_in(pv, order),
                j <= plans@.len(),
                best matches Some(b) ==> b < j && makeable(v, total_pages, pv[b as int]) && forall|i: int|
                    0 <= i < j && i != b && #[trigger] makeable(v, total_pages, pv[i]) ==> plan_precedes(v, pv, b as int, i),
                best is None ==> forall|i: int| 0 <= i < j ==> !#[trigger] makeable(v, total_pages, pv[i]),
            decreases plans@.len() - j,
        {
            proof {
                assert(plans@[j as int]@ == pv[j as int]);
                assert(plan_pages_in(pv[j as int], order));
            }
            if self.plan_makeable(&plans[j], total_pages) {
                match best {
                    None => {
                        best = Some(j);
                    },
                    Some(b) => {
                        proof {
                            assert(plans@[b as int]@ == pv[b as int]);
                            assert(plan_pages_in(pv[b as int], order));
                            let aj = plan_anchor(pv[j as int]);
                            let ab = plan_anchor(pv[b as int]);
                            assert(order.contains(aj) && order.contains(ab));
                            assert(v.base.contains_key(aj) && v.base.contains_key(ab));
                        }
                        let kj = self.priority_key(Self::plan_anchor_page(&plans[j]));
                        let kb = self.priority_key(Self::plan_anchor_page(&plans[b]));
                        if lex_lt_exec(kj, kb) {
                            best = Some(j);
                        } else {
                            proof {
                                assert(key_of(v, plan_anchor(pv[j as int])).2 == plan_anchor(pv[j as int]));
                                assert(key_of(v, plan_anchor(pv[b as int])).2 == plan_anchor(pv[b as int]));
                            }
                        }
                    },
                }
            }
            j = j + 1;
        }
        let b = match best {
            None => {
                return None;
            },
            Some(b) => b,
        };
        proof {
            assert(plans@[b as int]@ == pv[b as int]);
            assert(plan_pages_in(pv[b as int], order));
            assert(best_plan(v, total_pages, pv, b as int));
        }
        match &plans[b] {
            RepairPlan::Single { key, page, prompt_kind, reason, accept } => {
                proof {
                    assert(order.contains(*page));
                    assert(v.base.contains_key(*page));
                }
                let triplet = match self.make_triplet(*page, total_pages) {
                    Some(t) => t,
                    None => {
                        return None;
                    },
                };
                self.in_flight_repair_keys.insert(key.clone());
                assert(self@ =~= (PipelineView { in_flight: v.in_flight.insert(key@), ..v }));
                Some(
                    PipelineActionRequest::RepairSingle {
                        key: key.clone(),
                        page: *page,
                        total_pages,
                        prompt_kind: *prompt_kind,
                        reason: *reason,
                        accept: *accept,
                        triplet,
                    },
                )
            },
            RepairPlan::Pair { key, first_page, second_page, prompt_kind, reason, accept } => {
                proof {
                    assert(order.contains(*first_page) && order.contains(*second_page));
                    assert(v.base.contains_key(*first_page) && v.base.contains_key(*second_page));
                }
                let first_triplet = match self.make_triplet(*first_page, total_pages) {
                    Some(t) => t,
                    None => {
                        return None;
                    },
                };
                let second_triplet = match self.make_triplet(*second_page, total_pages) {
                    Some(t) => t,
                    None => {
                        return None;
                    },
                };
                self.in_flight_repair_keys.insert(key.clone());
                assert(self@ =~= (PipelineView { in_flight: v.in_flight.insert(key@), ..v }));
                Some(
                    PipelineActionRequest::RepairPair {
                        key: key.clone(),
                        first_page: *first_page,
                        second_page: *second_page,
                        total_pages,
                        prompt_kind: *prompt_kind,
                        reason: *reason,
                        accept: *accept,
                        first_triplet,
                        second_triplet,
                    },
                )
            },
        }
    }
}


// ─── Steps of the worker ────────────────────────────────────────────────────

/// The page a request is about: the window center, the page, or the first page of a pair.
pub open spec fn anchor_of(r: PipelineActionRequest) -> u32 {
    match r {
        PipelineActionRequest::Window { center, .. } => center,
        PipelineActionRequest::RepairSingle { page, .. } => page,
        PipelineActionRequest::RepairPair { first_page, .. } => first_page,
    }
}

pub open spec fn phase_of(r: PipelineActionRequest) -> Seq<char> {
    match r {
        PipelineActionRequest::Window { .. } => "window"@,
        PipelineActionRequest::RepairSingle { .. } => "repair_single"@,
        PipelineActionRequest::RepairPair { .. } => "repair_pair"@,
    }
}

impl PipelineActionRequest {
    pub fn anchor_page(&self) -> (p: u32)
        ensures
            p == anchor_of(*self),
    {
        match self {
            PipelineActionRequest::Window { center, .. } => *center,
            PipelineActionRequest::RepairSingle { page, .. } => *page,
            PipelineActionRequest::RepairPair { first_page, .. } => *first_page,
        }
    }

    pub fn phase_name(&self) -> (s: &'static str)
        ensures
            s@ == phase_of(*self),
    {
        match self {
            PipelineActionRequest::Window { .. } => "window",
            PipelineActionRequest::RepairSingle { .. } => "repair_single",
            PipelineActionRequest::RepairPair { .. } => "repair_pair",
        }
    }
}

/// The outcome of asking for the next piece of work at time `now`: a ready
/// window first, else a repair; the activity records the request, or is
/// cleared when there is none. Nothing happens while the page count is unknown.
pub open spec fn next_action_outcome(v: PipelineView, r: Option<PipelineActionRequest>, w: PipelineView, now: u64) -> bool {
    match v.total_pages {
        None => r is None && w == v,
        Some(total) => {
            let mid = PipelineView { activity: v.activity, last_error: v.last_error, ..w };
            &&& has_ready_window(v, total) ==> window_chosen(v, total, r, mid)
            &&& !has_ready_window(v, total) ==> repair_chosen(v, total, r, mid)
            &&& match r {
                Some(req) => w.activity == Some(
                    ActivityView { phase: phase_of(req), page: anchor_of(req), started_at_ms: now },
                ) && w.last_error is None,
                None => w.activity is None && w.last_error == v.last_error,
            }
        },
    }
}

/// The time an outcome recorded (0 when it recorded none).
pub open spec fn recorded_time(w: PipelineView) -> u64 {
    match w.activity {
        Some(a) => a.started_at_ms,
        None => 0,
    }
}

/// `q` is `p` with its note set to `note`.
pub open spec fn noted(p: AggregatedPrediction, q: AggregatedPrediction, note: Seq<char>) -> bool {
    &&& q.mood == p.mood
    &&& q.intensity == p.intensity
    &&& q.winner_score == p.winner_score
    &&& q.runner_up_score == p.runner_up_score
    &&& q.scores == p.scores
    &&& q.narrative_role == p.narrative_role
    &&& opt_text(q.note) == Some(note)
}

/// The outcome of an accepted repair of `page`: its effective verdict becomes
/// `q`, and the update for it is published when the chapter is known.
pub open spec fn repaired(v: PipelineView, page: u32, q: AggregatedPrediction, w: PipelineView, us: Seq<PublishedPageUpdate>) -> bool {
    &&& w == (PipelineView { effective: v.effective.insert(page, q), ..v })
    &&& match v.chapter {
        None => us.len() == 0,
        Some(ch) => us.len() == 1 && us[0]@ == update_of(ch, page, q),
    }
}

/// The activity and last error cleared.
pub open spec fn cleared(v: PipelineView) -> PipelineView {
    PipelineView { activity: None, last_error: None, ..v }
}

/// `key` done: no longer in flight, and completed.
pub open spec fn key_done(v: PipelineView, key: Seq<char>) -> PipelineView {
    PipelineView { in_flight: v.in_flight.remove(key), completed: v.completed.insert(key), ..v }
}

/// The outcome of committing the answer `result` to `request`.
pub open spec fn committed(
    v: PipelineView,
    request: PipelineActionRequest,
    result: PipelineActionResult,
    w: PipelineView,
    us: Seq<PublishedPageUpdate>,
) -> bool {
    let c = cleared(v);
    match (request, result) {
        (PipelineActionRequest::Window { center, .. }, PipelineActionResult::Window(prediction)) => {
            let v1 = PipelineView {
                pending: c.pending.remove(center),
                windows: c.windows.insert(center, prediction),
                ..c
            };
            exists|v2: PipelineView, n: int|
                0 <= n <= us.len() && #[trigger] finalize_step(v1, v2, us.take(n)) && structural_step(
                    v2,
                    w,
                    us.skip(n),
                )
        },
        (
            PipelineActionRequest::RepairSingle { key, page, reason, .. },
            PipelineActionResult::RepairSingle(Some(prediction)),
        ) => {
            &&& w.effective.contains_key(page)
            &&& noted(prediction, w.effective[page], reason@)
            &&& repaired(key_done(c, key@), page, w.effective[page], w, us)
        },
        (
            PipelineActionRequest::RepairPair { key, first_page, second_page, reason, .. },
            PipelineActionResult::RepairPair(Some((first, second))),
        ) => {
            &&& w.effective.contains_key(second_page)
            &&& noted(second, w.effective[second_page], reason@)
            &&& exists|q1: AggregatedPrediction, v1: PipelineView|
                noted(first, q1, reason@) && #[trigger] repaired(
                    key_done(c, key@),
                    first_page,
                    q1,
                    v1,
                    us.take(us.len() - repaired_count(v)),
                ) && repaired(v1, second_page, w.effective[second_page], w, us.skip(us.len() - repaired_count(v)))
        },
        (PipelineActionRequest::RepairSingle { key, .. }, PipelineActionResult::RepairSingle(None)) => w
            == key_done(c, key@) && us.len() == 0,
        (PipelineActionRequest::RepairPair { key, .. }, PipelineActionResult::RepairPair(None)) => w
            == key_done(c, key@) && us.len() == 0,
        _ => w == c && us.len() == 0,
    }
}

/// Number of updates one accepted repair publishes: one for a known chapter.
pub open spec fn repaired_count(v: PipelineView) -> int {
    if v.chapter is Some {
        1
    } else {
        0
    }
}

impl ChapterMoodPipeline {
    /// Asks for the next piece of work at time `now`.
    pub fn next_action_at(&mut self, now: u64) -> (r: Option<PipelineActionRequest>)
        requires
            old(self).wf(),
        ensures
            final(self).wf(),
            next_action_outcome(old(self)@, r, final(self)@, now),
    {
        let total = match self.total_pages {
            None => {
                return None;
            },
            Some(t) => t,
        };
        let ghost v = self@;
        let request = match self.next_window_action(total) {
            Some(req) => Some(req),
            None => self.next_repair_action(total),
        };
        let ghost mid = self@;
        match &request {
            Some(req) => {
                self.active_activity = Some(
                    PipelineActivity { phase: req.phase_name(), page: req.anchor_page(), started_at_ms: now },
                );
                self.last_error = None;
            },
            None => {
                self.active_activity = None;
            },
        }
        proof {
            assert((PipelineView { activity: v.activity, last_error: v.last_error, ..self@ }) =~= mid);
        }
        request
    }

    /// Asks for the next piece of work, stamped with the wall clock.
    pub fn next_action(&mut self) -> (r: Option<PipelineActionRequest>)
        requires
            old(self).wf(),
        ensures
            final(self).wf(),
            next_action_outcome(old(self)@, r, final(self)@, recorded_time(final(self)@)),
    {
        let now = now_ms();
        self.next_action_at(now)
    }

    /// Applies an accepted repair of `page`, noted with `reason`.
    fn apply_repair(&mut self, page: u32, prediction: AggregatedPrediction, reason: &str) -> (us: Vec<
        PublishedPageUpdate,
    >)
        requires
            old(self).wf(),
        ensures
            final(self).wf(),
            final(self)@.effective.contains_key(page),
            noted(prediction, final(self)@.effective[page], reason@),
            repaired(old(self)@, page, final(self)@.effective[page], final(self)@, us@),
    {
        let mut prediction = prediction;
        prediction.note = Some(reason.to_string());
        let ghost v = self@;
        self.effective_predictions.insert(page, prediction.clone());
        assert(self@ =~= (PipelineView { effective: v.effective.insert(page, prediction), ..v }));
        let mut us: Vec<PublishedPageUpdate> = Vec::new();
        match self.build_update(page, &prediction) {
            Some(u) => {
                us.push(u);
            },
            None => {},
        }
        us
    }

    /// Takes in the answer to `request`: stores a window vote and finalizes
    /// and repairs what it makes ready, or applies an accepted repair. The
    /// repair key counts as done either way. Returns the updates to publish.
    pub fn commit_success(&mut self, request: &PipelineActionRequest, result: PipelineActionResult) -> (us: Vec<
        PublishedPageUpdate,
    >)
        requires
            old(self).wf(),
        ensures
            final(self).wf(),
            committed(old(self)@, *request, result, final(self)@, us@),
    {
        self.active_activity = None;
        self.last_error = None;
        let ghost c = self@;
        match (request, result) {
            (PipelineActionRequest::Window { center, .. }, PipelineActionResult::Window(prediction)) => {
                self.pending_windows.remove(center);
                self.window_predictions.insert(*center, prediction);
                let ghost v1 = self@;
                assert(v1 =~= (PipelineView {
                    pending: c.pending.remove(*center),
                    windows: c.windows.insert(*center, prediction),
                    ..c
                }));
                let mut updates = self.finalize_ready_pages();
                let ghost v2 = self@;
                let ghost first = updates@;
                let mut more = self.apply_structural_repairs();
                let ghost second = more@;
                updates.append(&mut more);
                proof {
                    let n = first.len() as int;
                    assert(updates@.take(n) =~= first);
                    assert(updates@.skip(n) =~= second);
                    assert(finalize_step(v1, v2, updates@.take(n)));
                }
                updates
            },
            (
                PipelineActionRequest::RepairSingle { key, page, reason, .. },
                PipelineActionResult::RepairSingle(Some(prediction)),
            ) => {
                self.in_flight_repair_keys.remove(key.as_str());
                self.completed_repair_keys.insert(key.clone());
                assert(self@ =~= key_done(c, key@));
                self.apply_repair(*page, prediction, reason)
            },
            (PipelineActionRequest::RepairSingle { key, .. }, PipelineActionResult::RepairSingle(None)) => {
                self.in_flight_repair_keys.remove(key.as_str());
                self.completed_repair_keys.insert(key.clone());
                assert(self@ =~= key_done(c, key@));
                Vec::new()
            },
            (
                PipelineActionRequest::RepairPair { key, first_page, second_page, reason, .. },
                PipelineActionResult::RepairPair(Some((first, second))),
            ) => {
                self.in_flight_repair_keys.remove(key.as_str());
                self.completed_repair_keys.insert(key.clone());
                assert(self@ =~= key_done(c, key@));
                let ghost (f0, s0) = (first, second);
                let mut updates = self.apply_repair(*first_page, first, reason);
                let ghost v1 = self@;
                let ghost q1 = self@.effective[*first_page];
                let ghost u1 = updates@;
                let mut more = self.apply_repair(*second_page, second, reason);
                let ghost q2 = self@.effective[*second_page];
                let ghost u2 = more@;
                updates.append(&mut more);
                proof {
                    let n = u1.len() as int;
                    assert(n == repaired_count(c));
                    assert(updates@.len() - repaired_count(old(self)@) == n);
                    assert(updates@.take(n) =~= u1);
                    assert(updates@.skip(n) =~= u2);
                    assert(noted(f0, q1, reason@) && noted(s0, q2, reason@));
                    assert(repaired(key_done(c, key@), *first_page, q1, v1, updates@.take(n)));
                }
                updates
            },
            (PipelineActionRequest::RepairPair { key, .. }, PipelineActionResult::RepairPair(None)) => {
                self.in_flight_repair_keys.remove(key.as_str());
                self.completed_repair_keys.insert(key.clone());
                assert(self@ =~= key_done(c, key@));
                Vec::new()
            },
            _ => Vec::new(),
        }
    }
}


// ─── Laws ───────────────────────────────────────────────────────────────────

/// The focus page is scheduled before every other page.
pub proof fn lemma_focus_first(focus: u32, direction: i8, page: u32)
    requires
        page != focus,
    ensures
        lex_lt(priority(Some(focus), direction, focus), priority(Some(focus), direction, page)),
{
}

/// Reading forward (or without a direction), a page ahead of the focus comes
/// before the page at the same distance behind it; reading backward, the
/// page behind comes first.
pub proof fn lemma_reading_direction_first(focus: u32, direction: i8, d: u32)
    requires
        1 <= d <= focus,
        focus + d <= u32::MAX,
    ensures
        direction >= 0 ==> lex_lt(
            priority(Some(focus), direction, (focus + d) as u32),
            priority(Some(focus), direction, (focus - d) as u32),
        ),
        direction < 0 ==> lex_lt(
            priority(Some(focus), direction, (focus - d) as u32),
            priority(Some(focus), direction, (focus + d) as u32),
        ),
{
    assert(((d - 1) / 2) * 2 + 1 <= d);
}

/// On each side of the focus, nearer pages are scheduled first.
pub proof fn lemma_nearer_first(focus: u32, direction: i8, d1: u32, d2: u32)
    requires
        1 <= d1 < d2,
    ensures
        focus + d2 <= u32::MAX ==> lex_lt(
            priority(Some(focus), direction, (focus + d1) as u32),
            priority(Some(focus), direction, (focus + d2) as u32),
        ),
        d2 <= focus ==> lex_lt(
            priority(Some(focus), direction, (focus - d1) as u32),
            priority(Some(focus), direction, (focus - d2) as u32),
        ),
{
    assert((d1 - 1) / 2 <= (d2 - 1) / 2);
}

/// Within a chapter, registering a page never drops a registered page nor
/// changes its image, and the page count never shrinks.
pub proof fn lemma_register_keeps_pages(
    v: PipelineView,
    chapter: Seq<char>,
    page: u32,
    total: Option<u32>,
    raw: Seq<u8>,
    other: u32,
)
    requires
        v.chapter == Some(chapter),
    ensures
        v.pages.contains_key(other) ==> registered(v, chapter, page, total, raw).pages.contains_key(other)
            && registered(v, chapter, page, total, raw).pages[other] == v.pages[other],
        registered(v, chapter, page, total, raw).pages.contains_key(page),
        v.total_pages matches Some(t) ==> registered(v, chapter, page, total, raw).total_pages matches Some(
            u,
        ) && u >= t,
{
}

/// Registering a page of another chapter starts over: only that page is
/// known, with nothing analysed, nothing in flight and no focus.
pub proof fn lemma_register_new_chapter_resets(
    v: PipelineView,
    chapter: Seq<char>,
    page: u32,
    total: Option<u32>,
    raw: Seq<u8>,
)
    requires
        v.chapter != Some(chapter),
    ensures
        registered(v, chapter, page, total, raw) == (PipelineView {
            total_pages: total,
            pages: Map::empty().insert(page, raw),
            ..reset_view(chapter)
        }),
{
}

/// Finalizing never changes a verdict already given.
pub proof fn lemma_finalize_keeps_verdicts(v: PipelineView, total: u32, w: PipelineView, page: u32)
    requires
        finalized(v, total, w),
        v.base.contains_key(page),
    ensures
        w.base.contains_key(page),
        w.base[page] == v.base[page],
{
}

/// The action bridge holds leave the base verdicts alone and change an
/// effective verdict only from tension to epic.
pub proof fn lemma_holds_only_turn_tension_epic(
    v: PipelineView,
    w: PipelineView,
    us: Seq<PublishedPageUpdate>,
    page: u32,
)
    requires
        structural_step(v, w, us),
        v.effective.contains_key(page),
        w.effective[page] != v.effective[page],
    ensures
        w.base == v.base,
        v.effective[page].mood == BaseMood::Tension,
        w.effective[page].mood == BaseMood::Epic,
{
}

/// The key of a repair request.
pub open spec fn request_key(r: PipelineActionRequest) -> Seq<char> {
    match r {
        PipelineActionRequest::Window { .. } => Seq::empty(),
        PipelineActionRequest::RepairSingle { key, .. } => key@,
        PipelineActionRequest::RepairPair { key, .. } => key@,
    }
}

/// A repair is never requested twice: its key was neither done nor in
/// flight, and it is in flight afterwards.
pub proof fn lemma_repair_not_repeated(v: PipelineView, total: u32, req: PipelineActionRequest, w: PipelineView)
    requires
        repair_chosen(v, total, Some(req), w),
    ensures
        !v.completed.contains(request_key(req)),
        !v.in_flight.contains(request_key(req)),
        w.in_flight.contains(request_key(req)),
        w.completed == v.completed,
{
    let plans = repair_plans_of(v);
    let j = choose|j: int|
        #[trigger] best_plan(v, total, plans, j) && (Some(req) matches Some(r) && repair_request(v, total, plans[j], r))
            && w == (PipelineView { in_flight: v.in_flight.insert(plan_key(plans[j])), ..v });
    assert(request_key(req) == plan_key(plans[j]));
}

/// A window is never requested twice: the chosen window had no vote and was
/// not in flight, and it is in flight afterwards.
pub proof fn lemma_window_not_repeated(v: PipelineView, total: u32, req: PipelineActionRequest, w: PipelineView)
    requires
        window_chosen(v, total, Some(req), w),
    ensures
        req matches PipelineActionRequest::Window { center, .. } && !v.windows.contains_key(center)
            && !v.pending.contains(center) && w.pending.contains(center),
{
}

/// Giving up on a window just chosen releases exactly what choosing it
/// reserved: the state is the one before the choice, without an activity.
pub proof fn lemma_window_failure_releases(v: PipelineView, total: u32, req: PipelineActionRequest, w: PipelineView)
    requires
        window_chosen(v, total, Some(req), w),
    ensures
        failed(w, req) == (PipelineView { activity: None, ..v }),
{
    if let PipelineActionRequest::Window { center, .. } = req {
        assert(v.pending.insert(center).remove(center) =~= v.pending);
    }
}

/// Giving up on a repair just chosen releases exactly what choosing it
/// reserved: the state is the one before the choice, without an activity.
pub proof fn lemma_repair_failure_releases(v: PipelineView, total: u32, req: PipelineActionRequest, w: PipelineView)
    requires
        repair_chosen(v, total, Some(req), w),
    ensures
        failed(w, req) == (PipelineView { activity: None, ..v }),
{
    lemma_repair_not_repeated(v, total, req, w);
    let k = request_key(req);
    assert(w.in_flight == v.in_flight.insert(k));
    assert(v.in_flight.insert(k).remove(k) =~= v.in_flight);
    match req {
        PipelineActionRequest::Window { .. } => {
            let plans = repair_plans_of(v);
            let j = choose|j: int|
                #[trigger] best_plan(v, total, plans, j) && (Some(req) matches Some(r) && repair_request(v, total, plans[j], r))
                    && w == (PipelineView { in_flight: v.in_flight.insert(plan_key(plans[j])), ..v });
            assert(false);
        },
        _ => {},
    }
}

/// Committing the answer to a repair, accepted or rejected, completes its
/// key: it is no longer in flight, and it will not be asked again.
pub proof fn lemma_repair_commit_completes(
    v: PipelineView,
    request: PipelineActionRequest,
    result: PipelineActionResult,
    w: PipelineView,
    us: Seq<PublishedPageUpdate>,
)
    requires
        committed(v, request, result, w, us),
        (request is RepairSingle && result is RepairSingle) || (request is RepairPair && result is RepairPair),
    ensures
        w.completed == v.completed.insert(request_key(request)),
        w.in_flight == v.in_flight.remove(request_key(request)),
        w.activity is None,
{
    match (request, result) {
        (
            PipelineActionRequest::RepairPair { key, first_page, second_page, reason, .. },
            PipelineActionResult::RepairPair(Some((first, second))),
        ) => {
            let c = cleared(v);
            let (q1, v1) = choose|q1: AggregatedPrediction, v1: PipelineView|
                noted(first, q1, reason@) && #[trigger] repaired(
                    key_done(c, key@),
                    first_page,
                    q1,
                    v1,
                    us.take(us.len() - repaired_count(v)),
                ) && repaired(v1, second_page, w.effective[second_page], w, us.skip(us.len() - repaired_count(v)));
        },
        _ => {},
    }
}

/// Every update is a finalized verdict of the pipeline for chapter `ch`.
pub open spec fn pipeline_updates(ch: Seq<char>, us: Seq<PublishedPageUpdate>) -> bool {
    forall|i: int|
        0 <= i < us.len() ==> (#[trigger] us[i])@.chapter == ch && us[i]@.finalized && us[i]@.source
            == CachedMoodSource::ChapterPipeline
}

proof fn lemma_publishes_pipeline(ch: Seq<char>, w: PipelineView, ps: Seq<u32>, us: Seq<PublishedPageUpdate>)
    requires
        publishes(ch, w, ps, us),
    ensures
        pipeline_updates(ch, us),
{
    assert forall|i: int| 0 <= i < us.len() implies (#[trigger] us[i])@.chapter == ch && us[i]@.finalized
        && us[i]@.source == CachedMoodSource::ChapterPipeline by {
        assert(us[i]@ == update_of(ch, ps[i], w.effective[ps[i]]));
    }
}

proof fn lemma_pipeline_updates_join(ch: Seq<char>, us: Seq<PublishedPageUpdate>, n: int)
    requires
        0 <= n <= us.len(),
        pipeline_updates(ch, us.take(n)),
        pipeline_updates(ch, us.skip(n)),
    ensures
        pipeline_updates(ch, us),
{
    assert forall|i: int| 0 <= i < us.len() implies (#[trigger] us[i])@.chapter == ch && us[i]@.finalized
        && us[i]@.source == CachedMoodSource::ChapterPipeline by {
        if i < n {
            assert(us.take(n)[i] == us[i]);
        } else {
            assert(us.skip(n)[i - n] == us[i]);
        }
    }
}

/// Committing an answer clears the activity and the last error; every update
/// it publishes is a finalized verdict of the pipeline for the current
/// chapter, and without a chapter nothing is published.
pub proof fn lemma_commit_publishes_finalized(
    v: PipelineView,
    request: PipelineActionRequest,
    result: PipelineActionResult,
    w: PipelineView,
    us: Seq<PublishedPageUpdate>,
)
    requires
        committed(v, request, result, w, us),
    ensures
        w.activity is None,
        w.last_error is None,
        w.chapter == v.chapter,
        v.chapter is None ==> us.len() == 0,
        v.chapter matches Some(ch) ==> pipeline_updates(ch, us),
{
    let c = cleared(v);
    match (request, result) {
        (PipelineActionRequest::Window { center, .. }, PipelineActionResult::Window(prediction)) => {
            let v1 = PipelineView {
                pending: c.pending.remove(center),
                windows: c.windows.insert(center, prediction),
                ..c
            };
            let (v2, n) = choose|v2: PipelineView, n: int|
                0 <= n <= us.len() && #[trigger] finalize_step(v1, v2, us.take(n)) && structural_step(
                    v2,
                    w,
                    us.skip(n),
                );
            assert(v2.chapter == v.chapter && v2.activity is None && v2.last_error is None);
            match v.chapter {
                None => {
                    assert(us.take(n).len() == 0);
                    assert(us.skip(n).len() == 0);
                },
                Some(ch) => {
                    match v1.total_pages {
                        None => {
                            assert(us.take(n).len() == 0);
                        },
                        Some(total) => {
                            lemma_publishes_pipeline(ch, v2, update_pages(us.take(n)), us.take(n));
                        },
                    }
                    let order = sorted_keys(v2.base);
                    lemma_publishes_pipeline(
                        ch,
                        w,
                        changed_upto(order, v2.effective, w.effective, order.len() as int),
                        us.skip(n),
                    );
                    lemma_pipeline_updates_join(ch, us, n);
                },
            }
        },
        (
            PipelineActionRequest::RepairPair { key, first_page, second_page, reason, .. },
            PipelineActionResult::RepairPair(Some((first, second))),
        ) => {
            let (q1, v1) = choose|q1: AggregatedPrediction, v1: PipelineView|
                noted(first, q1, reason@) && #[trigger] repaired(
                    key_done(c, key@),
                    first_page,
                    q1,
                    v1,
                    us.take(us.len() - repaired_count(v)),
                ) && repaired(v1, second_page, w.effective[second_page], w, us.skip(us.len() - repaired_count(v)));
            let n = us.len() - repaired_count(v);
            match v.chapter {
                None => {
                    assert(us.take(n).len() == 0);
                    assert(us.skip(n).len() == 0);
                    assert(us =~= us.take(n) + us.skip(n));
                },
                Some(ch) => {
                    if us.len() > 0 {
                        assert(us.take(n)[0]@ == update_of(ch, first_page, q1));
                        assert(us.skip(n)[0]@ == update_of(ch, second_page, w.effective[second_page]));
                        lemma_pipeline_updates_join(ch, us, n);
                    }
                },
            }
        },
        _ => {},
    }
}

// ─── Laws over sequences of calls ───────────────────────────────────────────

pub open spec fn started_view(v: PipelineView) -> PipelineView {
    PipelineView { processing: true, last_error: None, ..v }
}

pub open spec fn finished_view(v: PipelineView) -> PipelineView {
    PipelineView { processing: false, activity: None, ..v }
}

pub open spec fn errored_view(v: PipelineView, e: Seq<char>) -> PipelineView {
    PipelineView { activity: None, last_error: Some(e), ..v }
}

/// `w` is what one call of the pipeline's mutating methods can leave of `v`,
/// as their contracts state it.
pub open spec fn api_step(v: PipelineView, w: PipelineView) -> bool {
    ||| exists|ch: Seq<char>, page: u32, total: Option<u32>, raw: Seq<u8>|
        w == #[trigger] registered(v, ch, page, total, raw)
    ||| exists|ch: Seq<char>, page: u32, dir: i8, total: Option<u32>|
        w == #[trigger] focused(v, ch, page, dir, total)
    ||| w == started_view(v)
    ||| w == finished_view(v)
    ||| exists|e: Seq<char>| w == #[trigger] errored_view(v, e)
    ||| exists|req: PipelineActionRequest| w == #[trigger] failed(v, req)
    ||| exists|us: Seq<PublishedPageUpdate>| #[trigger] finalize_step(v, w, us)
    ||| exists|us: Seq<PublishedPageUpdate>| #[trigger] structural_step(v, w, us)
    ||| exists|r: Option<PipelineActionRequest>, now: u64| #[trigger] next_action_outcome(v, r, w, now)
    ||| exists|req: PipelineActionRequest, res: PipelineActionResult, us: Seq<PublishedPageUpdate>|
        #[trigger] committed(v, req, res, w, us)
}

/// The step from `v` to `w` gives an answer to, or gives up on, the window
/// centred on `c`.
pub open spec fn window_commit_step(v: PipelineView, w: PipelineView, c: u32) -> bool {
    ||| exists|req: PipelineActionRequest|
        #![trigger failed(v, req)]
        (req matches PipelineActionRequest::Window { center, .. } && center == c) && w == failed(v, req)
    ||| exists|req: PipelineActionRequest, res: PipelineActionResult, us: Seq<PublishedPageUpdate>|
        #![trigger committed(v, req, res, w, us)]
        (req matches PipelineActionRequest::Window { center, .. } && center == c) && committed(v, req, res, w, us)
}

/// Within a chapter, one call keeps every window vote and every completed
/// repair key, and a pending window stays pending unless the call answers or
/// gives up on it.
pub proof fn lemma_step_keeps_progress(v: PipelineView, w: PipelineView, c: u32, k: Seq<char>)
    requires
        api_step(v, w),
        w.chapter == v.chapter,
    ensures
        v.windows.contains_key(c) ==> w.windows.contains_key(c),
        v.completed.contains(k) ==> w.completed.contains(k),
        v.pending.contains(c) ==> w.pending.contains(c) || window_commit_step(v, w, c),
{
    if exists|ch: Seq<char>, page: u32, total: Option<u32>, raw: Seq<u8>| w == #[trigger] registered(v, ch, page, total, raw) {
        let (ch, page, total, raw) = choose|ch: Seq<char>, page: u32, total: Option<u32>, raw: Seq<u8>|
            w == #[trigger] registered(v, ch, page, total, raw);
        assert(v.chapter == Some(ch));
    } else if exists|ch: Seq<char>, page: u32, dir: i8, total: Option<u32>| w == #[trigger] focused(v, ch, page, dir, total) {
        let (ch, page, dir, total) = choose|ch: Seq<char>, page: u32, dir: i8, total: Option<u32>|
            w == #[trigger] focused(v, ch, page, dir, total);
        assert(v.chapter == Some(ch));
    } else if exists|req: PipelineActionRequest| w == #[trigger] failed(v, req) {
        let req = choose|req: PipelineActionRequest| w == #[trigger] failed(v, req);
        if v.pending.contains(c) && !w.pending.contains(c) {
            assert(req matches PipelineActionRequest::Window { center, .. } && center == c);
        }
    } else if exists|us: Seq<PublishedPageUpdate>| #[trigger] finalize_step(v, w, us) {
    } else if exists|us: Seq<PublishedPageUpdate>| #[trigger] structural_step(v, w, us) {
    } else if exists|r: Option<PipelineActionRequest>, now: u64| #[trigger] next_action_outcome(v, r, w, now) {
        let (r, now) = choose|r: Option<PipelineActionRequest>, now: u64| #[trigger] next_action_outcome(v, r, w, now);
        if let Some(total) = v.total_pages {
            let mid = PipelineView { activity: v.activity, last_error: v.last_error, ..w };
            if has_ready_window(v, total) {
                assert(window_chosen(v, total, r, mid));
            } else {
                assert(repair_chosen(v, total, r, mid));
                let plans = repair_plans_of(v);
                if exists|j: int| 0 <= j < plans.len() && #[trigger] makeable(v, total, plans[j]) {
                    let j = choose|j: int|
                        #[trigger] best_plan(v, total, plans, j) && (r matches Some(req) && repair_request(v, total, plans[j], req))
                            && mid == (PipelineView { in_flight: v.in_flight.insert(plan_key(plans[j])), ..v });
                }
            }
        }
    } else if exists|req: PipelineActionRequest, res: PipelineActionResult, us: Seq<PublishedPageUpdate>| #[trigger] committed(v, req, res, w, us) {
        let (req, res, us) = choose|req: PipelineActionRequest, res: PipelineActionResult, us: Seq<PublishedPageUpdate>|
            #[trigger] committed(v, req, res, w, us);
        let cl = cleared(v);
        match (req, res) {
            (PipelineActionRequest::Window { center, .. }, PipelineActionResult::Window(prediction)) => {
                let v1 = PipelineView {
                    pending: cl.pending.remove(center),
                    windows: cl.windows.insert(center, prediction),
                    ..cl
                };
                let (v2, n) = choose|v2: PipelineView, n: int|
                    0 <= n <= us.len() && #[trigger] finalize_step(v1, v2, us.take(n)) && structural_step(
                        v2,
                        w,
                        us.skip(n),
                    );
                assert(v2.windows == v1.windows && v2.pending == v1.pending && v2.completed == v1.completed);
                if v.pending.contains(c) && !w.pending.contains(c) {
                    assert(center == c);
                }
            },
            (
                PipelineActionRequest::RepairPair { key, first_page, second_page, reason, .. },
                PipelineActionResult::RepairPair(Some((first, second))),
            ) => {
                let (q1, v1) = choose|q1: AggregatedPrediction, v1: PipelineView|
                    noted(first, q1, reason@) && #[trigger] repaired(
                        key_done(cl, key@),
                        first_page,
                        q1,
                        v1,
                        us.take(us.len() - repaired_count(v)),
                    ) && repaired(v1, second_page, w.effective[second_page], w, us.skip(us.len() - repaired_count(v)));
            },
            _ => {},
        }
    }
}

/// The views of a sequence of calls: each step is one call.
pub open spec fn steps(t: Seq<PipelineView>) -> bool {
    forall|i: int| 0 <= i < t.len() - 1 ==> api_step(#[trigger] t[i], t[i + 1])
}

/// Every view of the sequence is in the same chapter.
pub open spec fn one_chapter(t: Seq<PipelineView>) -> bool {
    forall|i: int| 0 <= i < t.len() ==> (#[trigger] t[i]).chapter == t[0].chapter
}

proof fn lemma_progress_along(t: Seq<PipelineView>, c: u32, k: Seq<char>, n: int)
    requires
        0 < n <= t.len(),
        steps(t),
        one_chapter(t),
    ensures
        t[0].windows.contains_key(c) ==> t[n - 1].windows.contains_key(c),
        t[0].completed.contains(k) ==> t[n - 1].completed.contains(k),
        (t[0].pending.contains(c) && forall|i: int| 0 <= i < n - 1 ==> !window_commit_step(#[trigger] t[i], t[i + 1], c))
            ==> t[n - 1].pending.contains(c),
    decreases n,
{
    if n > 1 {
        lemma_progress_along(t, c, k, n - 1);
        assert(api_step(t[n - 2], t[n - 1]));
        assert(t[n - 1].chapter == t[n - 2].chapter);
        lemma_step_keeps_progress(t[n - 2], t[n - 1], c, k);
    }
}

/// A window whose answer was committed is never asked for again in the same
/// chapter: after any calls, the next action offers another centre.
pub proof fn lemma_committed_window_not_offered(
    t: Seq<PipelineView>,
    c: u32,
    r: Option<PipelineActionRequest>,
    w: PipelineView,
    now: u64,
)
    requires
        t.len() > 0,
        steps(t),
        one_chapter(t),
        t[0].windows.contains_key(c),
        next_action_outcome(t[t.len() - 1], r, w, now),
    ensures
        !(r matches Some(PipelineActionRequest::Window { center, .. }) && center == c),
{
    lemma_progress_along(t, c, Seq::empty(), t.len() as int);
    lemma_offer_is_fresh(t[t.len() - 1], r, w, now);
}

/// A completed repair key is never asked for again in the same chapter: after
/// any calls, the next action asks for another key.
pub proof fn lemma_completed_repair_not_offered(
    t: Seq<PipelineView>,
    k: Seq<char>,
    r: Option<PipelineActionRequest>,
    w: PipelineView,
    now: u64,
)
    requires
        t.len() > 0,
        steps(t),
        one_chapter(t),
        t[0].completed.contains(k),
        next_action_outcome(t[t.len() - 1], r, w, now),
    ensures
        match r {
            Some(PipelineActionRequest::Window { .. }) => true,
            Some(req) => request_key(req) != k,
            None => true,
        },
{
    lemma_progress_along(t, 0, k, t.len() as int);
    lemma_offer_is_fresh(t[t.len() - 1], r, w, now);
}

/// A window that was offered is not offered again until its answer is
/// committed or it is given up: after any other calls in the same chapter,
/// the next action offers another centre.
pub proof fn lemma_pending_window_not_offered_again(
    t: Seq<PipelineView>,
    c: u32,
    r: Option<PipelineActionRequest>,
    w: PipelineView,
    now: u64,
)
    requires
        t.len() > 0,
        steps(t),
        one_chapter(t),
        t[0].pending.contains(c),
        forall|i: int| 0 <= i < t.len() - 1 ==> !window_commit_step(#[trigger] t[i], t[i + 1], c),
        next_action_outcome(t[t.len() - 1], r, w, now),
    ensures
        !(r matches Some(PipelineActionRequest::Window { center, .. }) && center == c),
{
    lemma_progress_along(t, c, Seq::empty(), t.len() as int);
    lemma_offer_is_fresh(t[t.len() - 1], r, w, now);
}

/// What the next action offers is fresh: a window with no vote that is not
/// pending, or a repair whose key is neither completed nor in flight; the
/// offered window becomes pending and the repair key in flight.
pub proof fn lemma_offer_is_fresh(v: PipelineView, r: Option<PipelineActionRequest>, w: PipelineView, now: u64)
    requires
        next_action_outcome(v, r, w, now),
    ensures
        match r {
            Some(PipelineActionRequest::Window { center, .. }) => !v.windows.contains_key(center)
                && !v.pending.contains(center) && w.pending.contains(center),
            Some(req) => !v.completed.contains(request_key(req)) && !v.in_flight.contains(request_key(req))
                && w.in_flight.contains(request_key(req)),
            None => true,
        },
{
    if let Some(total) = v.total_pages {
        let mid = PipelineView { activity: v.activity, last_error: v.last_error, ..w };
        if has_ready_window(v, total) {
            assert(window_chosen(v, total, r, mid));
        } else {
            assert(repair_chosen(v, total, r, mid));
            if let Some(req) = r {
                lemma_repair_not_repeated(v, total, req, mid);
                let plans = repair_plans_of(v);
                let j = choose|j: int|
                    #[trigger] best_plan(v, total, plans, j) && (Some(req) matches Some(q) && repair_request(v, total, plans[j], q))
                        && mid == (PipelineView { in_flight: v.in_flight.insert(plan_key(plans[j])), ..v });
            }
        }
    }
}

/// Committing a window's answer stores its vote.
pub proof fn lemma_window_commit_stores(
    v: PipelineView,
    req: PipelineActionRequest,
    res: PipelineActionResult,
    w: PipelineView,
    us: Seq<PublishedPageUpdate>,
)
    requires
        committed(v, req, res, w, us),
        req is Window,
        res is Window,
    ensures
        req matches PipelineActionRequest::Window { center, .. } && w.windows.contains_key(center),
{
    let cl = cleared(v);
    if let (PipelineActionRequest::Window { center, .. }, PipelineActionResult::Window(prediction)) = (req, res) {
        let v1 = PipelineView { pending: cl.pending.remove(center), windows: cl.windows.insert(center, prediction), ..cl };
        let (v2, n) = choose|v2: PipelineView, n: int|
            0 <= n <= us.len() && #[trigger] finalize_step(v1, v2, us.take(n)) && structural_step(v2, w, us.skip(n));
        assert(v2.windows == v1.windows);
    }
}

} // verus!
