//! Window voting: five-page windows vote for the pages they contain, the votes
//! are aggregated per page, and structural rules plan selective repairs.

use vstd::prelude::*;

use crate::director::{first_argmax, single_weights, MoodScores, NarrativeRole};
use crate::page_map::PageMap;
use crate::runtime::LlamaRuntimeIntent;
use crate::text::{dec, digits_value, lemma_dec_digits, push_dec};
use crate::types::{intensity_level, intensity_of_level, mood_at, mood_idx, BaseMood, MoodIntensity};

verus! {

pub const WINNER_BACKBONE_MAX_TOKENS: u32 = 8192;

pub const WINNER_SELECTIVE_MAX_TOKENS: u32 = 512;

/// An image ready to be sent to the vision model.
#[derive(Clone, Debug)]
pub struct EncodedImage {
    pub mime: &'static str,
    pub b64: String,
}

/// Whether an image is the page being classified or one of its neighbours.
#[derive(Clone, Copy, Debug, Eq, PartialEq, Structural)]
pub enum ImageRole {
    Context,
    Center,
}

/// How images are prepared before encoding.
#[derive(Clone, Copy, Debug, Eq, PartialEq, Structural)]
pub enum PrepMode {
    Legacy672Jpeg,
    CenterPng1024,
    AllPng1024,
}

/// The vote of one five-page window: the pages it covers, its center page and
/// the mood and intensity the model gave the whole window.
#[derive(Debug)]
pub struct WindowPrediction {
    pub members: Vec<u32>,
    pub center: u32,
    pub mood: BaseMood,
    pub intensity: MoodIntensity,
}

impl Clone for WindowPrediction {
    fn clone(&self) -> (r: Self)
        ensures
            r.members@ == self.members@,
            r.center == self.center,
            r.mood == self.mood,
            r.intensity == self.intensity,
    {
        WindowPrediction {
            members: self.members.clone(),
            center: self.center,
            mood: self.mood,
            intensity: self.intensity,
        }
    }
}

/// Votes gathered for one page. Weights are in hundredths of a vote: a window
/// centered on the page weighs 135, any other window containing it 100.
#[derive(Clone, Copy, Debug)]
pub struct VoteStats {
    pub counts: [u64; 8],
    pub weighted: [u64; 8],
    pub intensity_sum: [u64; 8],
    pub intensity_count: [u64; 8],
    pub center_vote: Option<BaseMood>,
    pub center_intensity: Option<MoodIntensity>,
    pub winner_score: u64,
    pub runner_up_score: u64,
}

/// The verdict for one page.
#[derive(Debug)]
pub struct AggregatedPrediction {
    pub mood: BaseMood,
    pub intensity: MoodIntensity,
    pub winner_score: u64,
    pub runner_up_score: u64,
    pub scores: MoodScores,
    pub narrative_role: NarrativeRole,
    pub note: Option<String>,
}

impl Clone for AggregatedPrediction {
    fn clone(&self) -> (r: Self)
        ensures
            r == *self,
    {
        AggregatedPrediction {
            mood: self.mood,
            intensity: self.intensity,
            winner_score: self.winner_score,
            runner_up_score: self.runner_up_score,
            scores: self.scores,
            narrative_role: self.narrative_role,
            note: self.note.clone(),
        }
    }
}

/// Which selective prompt re-examines a page.
#[derive(Clone, Copy, Debug, Eq, PartialEq, Hash, Structural)]
pub enum SelectivePrompt {
    Focus,
    Narrative,
}

impl SelectivePrompt {
    pub fn note(self) -> (s: &'static str)
        ensures
            s@ == (match self {
                SelectivePrompt::Focus => "selective_focus"@,
                SelectivePrompt::Narrative => "selective_narrative"@,
            }),
    {
        match self {
            SelectivePrompt::Focus => "selective_focus",
            SelectivePrompt::Narrative => "selective_narrative",
        }
    }
}

/// Which answers accept a single-page repair.
#[derive(Clone, Copy, Debug, Eq, PartialEq, Structural)]
pub enum RepairAcceptSingle {
    Tension,
    Mystery,
    MysteryOrTension,
}

/// Which answers accept a two-page repair.
#[derive(Clone, Copy, Debug, Eq, PartialEq, Structural)]
pub enum RepairAcceptPair {
    BothMystery,
    BothEpic,
    BothTension,
}

/// A planned re-examination of one page or of two neighbouring pages.
#[derive(Clone, Debug)]
pub enum RepairPlan {
    Single {
        key: String,
        page: u32,
        prompt_kind: SelectivePrompt,
        reason: &'static str,
        accept: RepairAcceptSingle,
    },
    Pair {
        key: String,
        first_page: u32,
        second_page: u32,
        prompt_kind: SelectivePrompt,
        reason: &'static str,
        accept: RepairAcceptPair,
    },
}

/// A repair plan with its texts taken as character sequences.
pub enum PlanView {
    Single {
        key: Seq<char>,
        page: u32,
        prompt_kind: SelectivePrompt,
        reason: Seq<char>,
        accept: RepairAcceptSingle,
    },
    Pair {
        key: Seq<char>,
        first_page: u32,
        second_page: u32,
        prompt_kind: SelectivePrompt,
        reason: Seq<char>,
        accept: RepairAcceptPair,
    },
}

impl RepairPlan {
    pub open spec fn view(&self) -> PlanView {
        match self {
            RepairPlan::Single { key, page, prompt_kind, reason, accept } => PlanView::Single {
                key: key@,
                page: *page,
                prompt_kind: *prompt_kind,
                reason: reason@,
                accept: *accept,
            },
            RepairPlan::Pair { key, first_page, second_page, prompt_kind, reason, accept } =>
                PlanView::Pair {
                key: key@,
                first_page: *first_page,
                second_page: *second_page,
                prompt_kind: *prompt_kind,
                reason: reason@,
                accept: *accept,
            },
        }
    }
}

pub open spec fn plans_view(plans: Seq<RepairPlan>) -> Seq<PlanView> {
    plans.map_values(|p: RepairPlan| p@)
}

/// The runtime the window analysis runs the server with.
pub fn winner_runtime_intent() -> (r: LlamaRuntimeIntent)
    ensures
        r == LlamaRuntimeIntent::BenchmarkPrimary,
{
    LlamaRuntimeIntent::BenchmarkPrimary
}

// ─── Window geometry ────────────────────────────────────────────────────────

pub open spec fn clamp_int(x: int, lo: int, hi: int) -> int {
    if x < lo {
        lo
    } else if x > hi {
        hi
    } else {
        x
    }
}

/// Last page index of a chapter (0 for an empty chapter).
pub open spec fn last_page(total_pages: int) -> int {
    if total_pages >= 1 {
        total_pages - 1
    } else {
        0
    }
}

/// The five pages of the window centered on `center`, clamped to the chapter.
pub open spec fn wide_context(center: int, total_pages: int) -> Seq<u32> {
    Seq::new(5, |i: int| clamp_int(center + i - 2, 0, last_page(total_pages)) as u32)
}

pub fn wide_context_indices(center: u32, total_pages: u32) -> (v: Vec<u32>)
    ensures
        v@ == wide_context(center as int, total_pages as int),
{
    let max_page: u32 = if total_pages >= 1 { total_pages - 1 } else { 0 };
    let mut v: Vec<u32> = Vec::new();
    let mut k: u32 = 0;
    while k < 5
        invariant
            k <= 5,
            max_page as int == last_page(total_pages as int),
            v@ == wide_context(center as int, total_pages as int).take(k as int),
        decreases 5 - k,
    {
        let page: u32 = if k < 2 && center < 2 - k {
            0
        } else if center as u64 + k as u64 - 2 > max_page as u64 {
            max_page
        } else {
            (center as u64 + k as u64 - 2) as u32
        };
        v.push(page);
        k = k + 1;
        assert(v@ =~= wide_context(center as int, total_pages as int).take(k as int));
    }
    assert(v@ =~= wide_context(center as int, total_pages as int));
    v
}

// ─── Vote tallies ───────────────────────────────────────────────────────────

/// Exact tallies of the votes for a page.
pub struct VoteTally {
    pub counts: Seq<int>,
    pub weighted: Seq<int>,
    pub intensity_sum: Seq<int>,
    pub intensity_count: Seq<int>,
    pub center_vote: Option<BaseMood>,
    pub center_intensity: Option<MoodIntensity>,
}

pub open spec fn empty_tally() -> VoteTally {
    VoteTally {
        counts: Seq::new(8, |i: int| 0),
        weighted: Seq::new(8, |i: int| 0),
        intensity_sum: Seq::new(8, |i: int| 0),
        intensity_count: Seq::new(8, |i: int| 0),
        center_vote: None,
        center_intensity: None,
    }
}

/// Weight of a window's vote for `page`, in hundredths.
pub open spec fn vote_weight(w: WindowPrediction, page: u32) -> int {
    if w.center == page {
        135
    } else {
        100
    }
}

pub open spec fn add_vote(t: VoteTally, w: WindowPrediction, page: u32) -> VoteTally {
    let i = mood_idx(w.mood) as int;
    VoteTally {
        counts: t.counts.update(i, t.counts[i] + 1),
        weighted: t.weighted.update(i, t.weighted[i] + vote_weight(w, page)),
        intensity_sum: t.intensity_sum.update(i, t.intensity_sum[i] + intensity_level(w.intensity)),
        intensity_count: t.intensity_count.update(i, t.intensity_count[i] + 1),
        center_vote: if w.center == page { Some(w.mood) } else { t.center_vote },
        center_intensity: if w.center == page { Some(w.intensity) } else { t.center_intensity },
    }
}

/// Tally of the first `n` windows for `page`; a window votes when its members hold the page.
pub open spec fn tally(votes: Seq<WindowPrediction>, page: u32, n: int) -> VoteTally
    decreases n,
{
    if n <= 0 {
        empty_tally()
    } else {
        let t = tally(votes, page, n - 1);
        if votes[n - 1].members@.contains(page) {
            add_vote(t, votes[n - 1], page)
        } else {
            t
        }
    }
}

/// Largest of the first `n` values, leaving out position `skip` (0 when none remains).
pub open spec fn max_excluding(w: Seq<u64>, skip: int, n: int) -> int
    decreases n,
{
    if n <= 0 {
        0
    } else {
        let m = max_excluding(w, skip, n - 1);
        if n - 1 == skip || w[n - 1] <= m {
            m
        } else {
            w[n - 1] as int
        }
    }
}

proof fn lemma_tally_bounds(votes: Seq<WindowPrediction>, page: u32, n: int)
    requires
        0 <= n <= votes.len(),
    ensures
        tally(votes, page, n).counts.len() == 8,
        tally(votes, page, n).weighted.len() == 8,
        tally(votes, page, n).intensity_sum.len() == 8,
        tally(votes, page, n).intensity_count.len() == 8,
        forall|i: int|
            0 <= i < 8 ==> 0 <= #[trigger] tally(votes, page, n).counts[i] <= n
                && 0 <= tally(votes, page, n).weighted[i] <= 135 * n && 0 <= tally(
                votes,
                page,
                n,
            ).intensity_sum[i] <= 3 * n && 0 <= tally(votes, page, n).intensity_count[i] <= n,
    decreases n,
{
    if n > 0 {
        lemma_tally_bounds(votes, page, n - 1);
        let t = tally(votes, page, n - 1);
        assert forall|i: int| 0 <= i < 8 implies 0 <= #[trigger] tally(votes, page, n).counts[i] <= n
            && 0 <= tally(votes, page, n).weighted[i] <= 135 * n && 0 <= tally(
            votes,
            page,
            n,
        ).intensity_sum[i] <= 3 * n && 0 <= tally(votes, page, n).intensity_count[i] <= n by {
            assert(0 <= t.counts[i] <= n - 1);
            assert(0 <= t.weighted[i] <= 135 * (n - 1));
            assert(0 <= t.intensity_sum[i] <= 3 * (n - 1));
            assert(0 <= t.intensity_count[i] <= n - 1);
        }
    }
}

impl VoteStats {
    /// The stats hold the tally, with winner and runner-up taken from the weights.
    pub open spec fn matches_tally(&self, t: VoteTally) -> bool {
        &&& forall|i: int|
            0 <= i < 8 ==> {
                &&& #[trigger] self.counts@[i] == t.counts[i]
                &&& self.weighted@[i] == t.weighted[i]
                &&& self.intensity_sum@[i] == t.intensity_sum[i]
                &&& self.intensity_count@[i] == t.intensity_count[i]
            }
        &&& self.center_vote == t.center_vote
        &&& self.center_intensity == t.center_intensity
        &&& self.winner_score == max_excluding(self.weighted@, -1, 8)
        &&& self.runner_up_score == max_excluding(
            self.weighted@,
            first_argmax(self.weighted@, 8),
            8,
        )
    }
}

fn max_excluding_exec(w: &[u64; 8], skip: usize) -> (m: u64)
    ensures
        m == max_excluding(w@, skip as int, 8),
{
    let mut m: u64 = 0;
    let mut i: usize = 0;
    while i < 8
        invariant
            i <= 8,
            m == max_excluding(w@, skip as int, i as int),
        decreases 8 - i,
    {
        if i != skip && w[i] > m {
            m = w[i];
        }
        i = i + 1;
    }
    m
}

fn first_argmax_exec(w: &[u64; 8]) -> (a: usize)
    ensures
        a == first_argmax(w@, 8),
        a < 8,
{
    let mut best: usize = 0;
    let mut i: usize = 1;
    while i < 8
        invariant
            1 <= i <= 8,
            best < i,
            best as int == first_argmax(w@, i as int),
        decreases 8 - i,
    {
        if w[i] > w[best] {
            best = i;
        }
        i = i + 1;
    }
    best
}

fn members_contain(members: &Vec<u32>, page: u32) -> (r: bool)
    ensures
        r == members@.contains(page),
{
    let mut i: usize = 0;
    while i < members.len()
        invariant
            i <= members.len(),
            forall|j: int| 0 <= j < i ==> members@[j] != page,
        decreases members.len() - i,
    {
        if members[i] == page {
            assert(members@[i as int] == page);
            return true;
        }
        i = i + 1;
    }
    false
}

/// Counts one window's vote into running tallies.
fn count_vote(
    counts: &mut [u64; 8],
    weighted: &mut [u64; 8],
    intensity_sum: &mut [u64; 8],
    intensity_count: &mut [u64; 8],
    center_vote: &mut Option<BaseMood>,
    center_intensity: &mut Option<MoodIntensity>,
    vote: &WindowPrediction,
    page: u32,
    Ghost(t): Ghost<VoteTally>,
    Ghost(bound): Ghost<int>,
)
    requires
        bound <= 0x1_0000_0000,
        forall|i: int|
            0 <= i < 8 ==> {
                &&& #[trigger] old(counts)@[i] == t.counts[i]
                &&& old(weighted)@[i] == t.weighted[i]
                &&& old(intensity_sum)@[i] == t.intensity_sum[i]
                &&& old(intensity_count)@[i] == t.intensity_count[i]
                &&& t.counts[i] < bound
                &&& t.weighted[i] <= 135 * (bound - 1)
                &&& t.intensity_sum[i] <= 3 * (bound - 1)
                &&& t.intensity_count[i] < bound
            },
        t.counts.len() == 8,
        t.weighted.len() == 8,
        t.intensity_sum.len() == 8,
        t.intensity_count.len() == 8,
        *old(center_vote) == t.center_vote,
        *old(center_intensity) == t.center_intensity,
    ensures
        ({
            let t2 = add_vote(t, *vote, page);
            &&& forall|i: int|
                0 <= i < 8 ==> {
                    &&& #[trigger] final(counts)@[i] == t2.counts[i]
                    &&& final(weighted)@[i] == t2.weighted[i]
                    &&& final(intensity_sum)@[i] == t2.intensity_sum[i]
                    &&& final(intensity_count)@[i] == t2.intensity_count[i]
                }
            &&& *final(center_vote) == t2.center_vote
            &&& *final(center_intensity) == t2.center_intensity
        }),
{
    let idx = vote.mood.index();
    counts[idx] = counts[idx] + 1;
    let role_weight: u64 = if vote.center == page { 135 } else { 100 };
    weighted[idx] = weighted[idx] + role_weight;
    intensity_sum[idx] = intensity_sum[idx] + vote.intensity.as_u8() as u64;
    intensity_count[idx] = intensity_count[idx] + 1;
    if vote.center == page {
        *center_vote = Some(vote.mood);
        *center_intensity = Some(vote.intensity);
    }
    proof {
        let t2 = add_vote(t, *vote, page);
        assert forall|i: int| 0 <= i < 8 implies {
            &&& #[trigger] counts@[i] == t2.counts[i]
            &&& weighted@[i] == t2.weighted[i]
            &&& intensity_sum@[i] == t2.intensity_sum[i]
            &&& intensity_count@[i] == t2.intensity_count[i]
        } by {
            assert(old(counts)@[i] == t.counts[i]);
            assert(old(weighted)@[i] == t.weighted[i]);
            assert(old(intensity_sum)@[i] == t.intensity_sum[i]);
            assert(old(intensity_count)@[i] == t.intensity_count[i]);
        }
    }
}

/// Gathers the votes of every window that contains `page`.
pub fn build_vote_stats(window_predictions: &[WindowPrediction], page: u32) -> (s: VoteStats)
    requires
        window_predictions@.len() <= 0x1_0000_0000,
    ensures
        s.matches_tally(tally(window_predictions@, page, window_predictions@.len() as int)),
{
    let mut counts = [0u64; 8];
    let mut weighted = [0u64; 8];
    let mut intensity_sum = [0u64; 8];
    let mut intensity_count = [0u64; 8];
    let mut center_vote: Option<BaseMood> = None;
    let mut center_intensity: Option<MoodIntensity> = None;
    let n = window_predictions.len();
    let mut k: usize = 0;
    while k < n
        invariant
            n == window_predictions@.len(),
            n <= 0x1_0000_0000,
            k <= n,
            forall|i: int|
                0 <= i < 8 ==> {
                    &&& #[trigger] counts@[i] == tally(window_predictions@, page, k as int).counts[i]
                    &&& weighted@[i] == tally(window_predictions@, page, k as int).weighted[i]
                    &&& intensity_sum@[i] == tally(
                        window_predictions@,
                        page,
                        k as int,
                    ).intensity_sum[i]
                    &&& intensity_count@[i] == tally(
                        window_predictions@,
                        page,
                        k as int,
                    ).intensity_count[i]
                },
            center_vote == tally(window_predictions@, page, k as int).center_vote,
            center_intensity == tally(window_predictions@, page, k as int).center_intensity,
        decreases n - k,
    {
        let vote = &window_predictions[k];
        proof {
            lemma_tally_bounds(window_predictions@, page, k as int);
        }
        if members_contain(&vote.members, page) {
            count_vote(
                &mut counts,
                &mut weighted,
                &mut intensity_sum,
                &mut intensity_count,
                &mut center_vote,
                &mut center_intensity,
                vote,
                page,
                Ghost(tally(window_predictions@, page, k as int)),
                Ghost((k + 1) as int),
            );
        }
        k = k + 1;
    }
    let a = first_argmax_exec(&weighted);
    let winner_score = max_excluding_exec(&weighted, 8);
    let runner_up_score = max_excluding_exec(&weighted, a);
    proof {
        assert(max_excluding(weighted@, 8, 8) == max_excluding(weighted@, -1, 8)) by {
            lemma_max_excluding_out_of_range(weighted@, 8, -1, 8);
        }
    }
    VoteStats {
        counts,
        weighted,
        intensity_sum,
        intensity_count,
        center_vote,
        center_intensity,
        winner_score,
        runner_up_score,
    }
}

proof fn lemma_max_excluding_out_of_range(w: Seq<u64>, s1: int, s2: int, n: int)
    requires
        s1 >= n || s1 < 0,
        s2 >= n || s2 < 0,
    ensures
        max_excluding(w, s1, n) == max_excluding(w, s2, n),
    decreases n,
{
    if n > 0 {
        lemma_max_excluding_out_of_range(w, s1, s2, n - 1);
    }
}


// ─── Aggregation ────────────────────────────────────────────────────────────

/// Role a mood and intensity usually play in the story.
pub open spec fn role_for(mood: BaseMood, intensity: MoodIntensity) -> NarrativeRole {
    match (mood, intensity) {
        (BaseMood::Epic, MoodIntensity::Medium) | (BaseMood::Epic, MoodIntensity::High) =>
            NarrativeRole::Climax,
        (BaseMood::Tension, MoodIntensity::Medium)
        | (BaseMood::Tension, MoodIntensity::High)
        | (BaseMood::Mystery, MoodIntensity::Medium)
        | (BaseMood::Mystery, MoodIntensity::High)
        | (BaseMood::Horror, MoodIntensity::Medium)
        | (BaseMood::Horror, MoodIntensity::High) => NarrativeRole::Escalation,
        (BaseMood::Peaceful, MoodIntensity::Low)
        | (BaseMood::Sadness, MoodIntensity::Low)
        | (BaseMood::Sadness, MoodIntensity::Medium) => NarrativeRole::DeEscalation,
        _ => NarrativeRole::Continuation,
    }
}

pub fn infer_narrative_role(mood: BaseMood, intensity: MoodIntensity) -> (r: NarrativeRole)
    ensures
        r == role_for(mood, intensity),
{
    match (mood, intensity) {
        (BaseMood::Epic, MoodIntensity::Medium) | (BaseMood::Epic, MoodIntensity::High) =>
            NarrativeRole::Climax,
        (BaseMood::Tension, MoodIntensity::Medium)
        | (BaseMood::Tension, MoodIntensity::High)
        | (BaseMood::Mystery, MoodIntensity::Medium)
        | (BaseMood::Mystery, MoodIntensity::High)
        | (BaseMood::Horror, MoodIntensity::Medium)
        | (BaseMood::Horror, MoodIntensity::High) => NarrativeRole::Escalation,
        (BaseMood::Peaceful, MoodIntensity::Low)
        | (BaseMood::Sadness, MoodIntensity::Low)
        | (BaseMood::Sadness, MoodIntensity::Medium) => NarrativeRole::DeEscalation,
        _ => NarrativeRole::Continuation,
    }
}

/// Mean of `count` intensity levels summing to `sum`, rounded half up and kept in 1..=3.
pub open spec fn mean_level(sum: int, count: int) -> int {
    clamp_int((2 * sum + count) / (2 * count), 1, 3)
}

/// Average intensity of the votes for a mood, if it got any.
pub open spec fn average_intensity_of(stats: VoteStats, mood_idx: int) -> Option<MoodIntensity> {
    if stats.intensity_count@[mood_idx] == 0 {
        None
    } else {
        Some(
            intensity_of_level(
                mean_level(
                    stats.intensity_sum@[mood_idx] as int,
                    stats.intensity_count@[mood_idx] as int,
                ) as nat,
            ),
        )
    }
}

/// Levels and counts small enough that a double-precision mean is exact.
pub open spec fn exact_means(stats: VoteStats) -> bool {
    forall|i: int|
        0 <= i < 8 ==> #[trigger] stats.intensity_sum@[i] <= 0x20_0000_0000_0000
            && stats.intensity_count@[i] <= 0x20_0000_0000_0000
}

pub fn average_intensity(stats: &VoteStats, mood_idx: usize) -> (r: Option<MoodIntensity>)
    requires
        mood_idx < 8,
        stats.intensity_sum@[mood_idx as int] <= 0x20_0000_0000_0000,
        stats.intensity_count@[mood_idx as int] <= 0x20_0000_0000_0000,
    ensures
        r == average_intensity_of(*stats, mood_idx as int),
{
    let count = stats.intensity_count[mood_idx];
    if count == 0 {
        return None;
    }
    let sum = stats.intensity_sum[mood_idx];
    let q: u64 = (2 * sum + count) / (2 * count);
    let level: u8 = if q < 1 {
        1
    } else if q > 3 {
        3
    } else {
        q as u8
    };
    Some(MoodIntensity::from_u8(level))
}

/// Whether another of the first `n` positions reaches the value at position `a`.
pub open spec fn tied_with(w: Seq<u64>, a: int, n: int) -> bool {
    exists|j: int| 0 <= j < n && j != a && #[trigger] w[j] == w[a]
}

/// Mood index chosen for a page: the most counted mood; tension when no window
/// voted; the centered window's mood (or the first in mood order) on a tie.
pub open spec fn winner_index(stats: VoteStats) -> int {
    let a = first_argmax(stats.counts@, 8);
    if stats.counts@[a] == 0 {
        1
    } else if tied_with(stats.counts@, a, 8) {
        match stats.center_vote {
            Some(m) => mood_idx(m) as int,
            None => a,
        }
    } else {
        a
    }
}

pub open spec fn aggregate_ok(stats: VoteStats, r: AggregatedPrediction) -> bool {
    let mood = mood_at(winner_index(stats));
    let intensity = match average_intensity_of(stats, winner_index(stats)) {
        Some(i) => i,
        None => MoodIntensity::Medium,
    };
    &&& r.mood == mood
    &&& r.intensity == intensity
    &&& r.winner_score == stats.winner_score
    &&& r.runner_up_score == stats.runner_up_score
    &&& r.scores.weights@ == stats.weighted@
    &&& r.narrative_role == role_for(mood, intensity)
    &&& r.note is None
}

proof fn lemma_first_argmax_bounds(w: Seq<u64>, n: int)
    requires
        1 <= n <= w.len(),
    ensures
        0 <= first_argmax(w, n) < n,
        forall|j: int| 0 <= j < n ==> #[trigger] w[j] <= w[first_argmax(w, n)],
    decreases n,
{
    if n > 1 {
        lemma_first_argmax_bounds(w, n - 1);
    }
}

/// The verdict of the votes gathered for one page.
pub fn aggregate_prediction(stats: &VoteStats) -> (r: AggregatedPrediction)
    requires
        exact_means(*stats),
    ensures
        aggregate_ok(*stats, r),
{
    let a = first_argmax_exec(&stats.counts);
    proof {
        lemma_first_argmax_bounds(stats.counts@, 8);
    }
    let winner_idx: usize = if stats.counts[a] == 0 {
        1
    } else {
        let mut tie = false;
        let mut j: usize = 0;
        while j < 8
            invariant
                j <= 8,
                a < 8,
                tie == (exists|k: int| 0 <= k < j && k != a && #[trigger] stats.counts@[k] == stats.counts@[a as int]),
            decreases 8 - j,
        {
            if j != a && stats.counts[j] == stats.counts[a] {
                tie = true;
            }
            j = j + 1;
        }
        if tie {
            match stats.center_vote {
                Some(m) => m.index(),
                None => a,
            }
        } else {
            a
        }
    };
    let mood = BaseMood::from_index(winner_idx);
    let intensity = match average_intensity(stats, winner_idx) {
        Some(i) => i,
        None => MoodIntensity::Medium,
    };
    AggregatedPrediction {
        mood,
        intensity,
        winner_score: stats.winner_score,
        runner_up_score: stats.runner_up_score,
        scores: MoodScores { weights: stats.weighted },
        narrative_role: infer_narrative_role(mood, intensity),
        note: None,
    }
}

/// When the highest vote count is shared by two moods, the verdict is the
/// mood of the window centered on the page, if that window voted.
pub proof fn lemma_tie_goes_to_center(stats: VoteStats, r: AggregatedPrediction, i: int, j: int, m: BaseMood)
    requires
        aggregate_ok(stats, r),
        0 <= i < 8,
        0 <= j < 8,
        i != j,
        stats.counts@[i] > 0,
        stats.counts@[i] == stats.counts@[j],
        forall|k: int| 0 <= k < 8 ==> stats.counts@[k] <= stats.counts@[i],
        stats.center_vote == Some(m),
    ensures
        r.mood == m,
{
    let w = stats.counts@;
    lemma_first_argmax_bounds(w, 8);
    let a = first_argmax(w, 8);
    assert(w[a] == w[i]);
    if a != i {
        assert(tied_with(w, a, 8));
    } else {
        assert(w[j] == w[a]);
        assert(tied_with(w, a, 8));
    }
    crate::types::lemma_mood_index_roundtrip(m);
}

/// When one mood has strictly more votes than every other, it is the verdict.
pub proof fn lemma_unique_top_wins(stats: VoteStats, r: AggregatedPrediction, i: int)
    requires
        aggregate_ok(stats, r),
        0 <= i < 8,
        forall|k: int| 0 <= k < 8 && k != i ==> stats.counts@[k] < stats.counts@[i],
    ensures
        r.mood == mood_at(i),
{
    let w = stats.counts@;
    lemma_first_argmax_bounds(w, 8);
    let a = first_argmax(w, 8);
    assert(w[i] <= w[a]);
    assert(a == i);
    let other: int = if i == 0 { 1 } else { 0 };
    assert(w[other] < w[i]);
    assert(w[a] > 0);
    assert(!tied_with(w, a, 8)) by {
        assert forall|k: int| 0 <= k < 8 && k != a implies w[k] != w[a] by {
            assert(w[k] < w[i]);
        }
    }
    assert(winner_index(stats) == i);
}

/// A page no window voted on is judged tension.
pub proof fn lemma_no_votes_tension(stats: VoteStats, r: AggregatedPrediction)
    requires
        aggregate_ok(stats, r),
        forall|k: int| 0 <= k < 8 ==> stats.counts@[k] == 0,
    ensures
        r.mood == BaseMood::Tension,
{
    lemma_first_argmax_bounds(stats.counts@, 8);
}

/// Whether a re-examined page with `mood` is accepted under `rule`.
pub open spec fn accepted_single(mood: BaseMood, rule: RepairAcceptSingle) -> bool {
    match rule {
        RepairAcceptSingle::Tension => mood == BaseMood::Tension,
        RepairAcceptSingle::Mystery => mood == BaseMood::Mystery,
        RepairAcceptSingle::MysteryOrTension => mood == BaseMood::Mystery || mood == BaseMood::Tension,
    }
}

/// Whether two re-examined pages with these moods are accepted under `rule`.
pub open spec fn accepted_pair(first: BaseMood, second: BaseMood, rule: RepairAcceptPair) -> bool {
    match rule {
        RepairAcceptPair::BothMystery => first == BaseMood::Mystery && second == BaseMood::Mystery,
        RepairAcceptPair::BothEpic => first == BaseMood::Epic && second == BaseMood::Epic,
        RepairAcceptPair::BothTension => first == BaseMood::Tension && second == BaseMood::Tension,
    }
}

pub fn accepts_single(prediction: &AggregatedPrediction, rule: RepairAcceptSingle) -> (r: bool)
    ensures
        r == accepted_single(prediction.mood, rule),
{
    match rule {
        RepairAcceptSingle::Tension => prediction.mood == BaseMood::Tension,
        RepairAcceptSingle::Mystery => prediction.mood == BaseMood::Mystery,
        RepairAcceptSingle::MysteryOrTension => prediction.mood == BaseMood::Mystery
            || prediction.mood == BaseMood::Tension,
    }
}

pub fn accepts_pair(
    first: &AggregatedPrediction,
    second: &AggregatedPrediction,
    rule: RepairAcceptPair,
) -> (r: bool)
    ensures
        r == accepted_pair(first.mood, second.mood, rule),
{
    match rule {
        RepairAcceptPair::BothMystery => first.mood == BaseMood::Mystery && second.mood
            == BaseMood::Mystery,
        RepairAcceptPair::BothEpic => first.mood == BaseMood::Epic && second.mood
            == BaseMood::Epic,
        RepairAcceptPair::BothTension => first.mood == BaseMood::Tension && second.mood
            == BaseMood::Tension,
    }
}


/// The acceptance rules of a single re-examined page: `Tension` takes only
/// tension, `Mystery` only mystery, `MysteryOrTension` exactly those two.
pub proof fn lemma_single_acceptance(mood: BaseMood)
    ensures
        accepted_single(mood, RepairAcceptSingle::Tension) <==> mood == BaseMood::Tension,
        accepted_single(mood, RepairAcceptSingle::Mystery) <==> mood == BaseMood::Mystery,
        accepted_single(mood, RepairAcceptSingle::MysteryOrTension) <==> (mood == BaseMood::Mystery || mood
            == BaseMood::Tension),
{
}

/// The acceptance rules of a re-examined pair: both pages must come back with
/// the rule's mood.
pub proof fn lemma_pair_acceptance(first: BaseMood, second: BaseMood)
    ensures
        accepted_pair(first, second, RepairAcceptPair::BothMystery) <==> (first == BaseMood::Mystery && second
            == BaseMood::Mystery),
        accepted_pair(first, second, RepairAcceptPair::BothEpic) <==> (first == BaseMood::Epic && second
            == BaseMood::Epic),
        accepted_pair(first, second, RepairAcceptPair::BothTension) <==> (first == BaseMood::Tension && second
            == BaseMood::Tension),
{
}

// ─── Mood runs ──────────────────────────────────────────────────────────────

/// A maximal stretch `start..=end` of pages sharing one mood.
#[derive(Clone, Copy, Debug)]
pub struct MoodRun {
    pub start: usize,
    pub end: usize,
}

impl MoodRun {
    pub open spec fn pair(self) -> (int, int) {
        (self.start as int, self.end as int)
    }

    pub fn len(self) -> (n: usize)
        requires
            self.start <= self.end < usize::MAX,
        ensures
            n == self.end - self.start + 1,
    {
        self.end - self.start + 1
    }
}

/// Last position of the run that starts at `s`, scanning on from `e`.
pub open spec fn run_end_from(moods: Seq<BaseMood>, s: int, e: int) -> int
    decreases moods.len() - e,
{
    if 0 <= s && 0 <= e && e + 1 < moods.len() && moods[e + 1] == moods[s] {
        run_end_from(moods, s, e + 1)
    } else {
        e
    }
}

pub proof fn lemma_run_end(moods: Seq<BaseMood>, s: int, e: int)
    requires
        0 <= s <= e < moods.len(),
        forall|k: int| s <= k <= e ==> moods[k] == moods[s],
    ensures
        e <= run_end_from(moods, s, e) < moods.len(),
        forall|k: int| s <= k <= run_end_from(moods, s, e) ==> moods[k] == moods[s],
        run_end_from(moods, s, e) + 1 < moods.len() ==> moods[run_end_from(moods, s, e) + 1]
            != moods[s],
    decreases moods.len() - e,
{
    if e + 1 < moods.len() && moods[e + 1] == moods[s] {
        lemma_run_end(moods, s, e + 1);
    }
}

/// The maximal same-mood runs from position `start` on, in order.
pub open spec fn runs_from(moods: Seq<BaseMood>, start: int) -> Seq<(int, int)>
    decreases moods.len() - start,
{
    if start < 0 || start >= moods.len() {
        Seq::empty()
    } else {
        let e = run_end_from(moods, start, start);
        proof {
            lemma_run_end(moods, start, start);
        }
        seq![(start, e)] + runs_from(moods, e + 1)
    }
}

/// The maximal same-mood runs of a mood sequence.
pub open spec fn mood_runs(moods: Seq<BaseMood>) -> Seq<(int, int)> {
    runs_from(moods, 0)
}

/// Runs cover the positions from `start` on in order, each a maximal same-mood stretch.
pub proof fn lemma_runs_from(moods: Seq<BaseMood>, start: int)
    requires
        0 <= start <= moods.len(),
    ensures
        ({
            let rs = runs_from(moods, start);
            &&& forall|r: int|
                0 <= r < rs.len() ==> start <= (#[trigger] rs[r]).0 <= rs[r].1 < moods.len()
            &&& forall|r: int, k: int|
                #![trigger rs[r], moods[k]]
                0 <= r < rs.len() && rs[r].0 <= k <= rs[r].1 ==> moods[k] == moods[rs[r].0]
            &&& forall|r: int| 0 < r < rs.len() ==> (#[trigger] rs[r]).0 == rs[r - 1].1 + 1
            &&& forall|r: int| 0 < r < rs.len() ==> moods[(#[trigger] rs[r]).0] != moods[rs[r - 1].0]
            &&& forall|a: int, b: int|
                0 <= a < b < rs.len() ==> (#[trigger] rs[a]).1 < (#[trigger] rs[b]).0
            &&& rs.len() > 0 ==> rs[0].0 == start
            &&& rs.len() > 0 ==> rs[rs.len() - 1].1 == moods.len() - 1
            &&& rs.len() == 0 <==> start == moods.len()
        }),
    decreases moods.len() - start,
{
    if start < moods.len() {
        let e = run_end_from(moods, start, start);
        lemma_run_end(moods, start, start);
        lemma_runs_from(moods, e + 1);
        let rs = runs_from(moods, start);
        let tail = runs_from(moods, e + 1);
        assert(rs == seq![(start, e)] + tail);
        assert forall|r: int, k: int|
            #![trigger rs[r], moods[k]]
            0 <= r < rs.len() && rs[r].0 <= k <= rs[r].1 implies moods[k] == moods[rs[r].0] by {
            if r > 0 {
                assert(rs[r] == tail[r - 1]);
            }
        }
        assert(rs[0] == (start, e));
        assert forall|a: int, b: int| 0 <= a < b < rs.len() implies (#[trigger] rs[a]).1 < (
        #[trigger] rs[b]).0 by {
            assert(rs[b] == tail[b - 1]);
            if a > 0 {
                assert(rs[a] == tail[a - 1]);
            } else {
                assert(tail[0].0 == e + 1);
                assert(tail[0].0 <= tail[b - 1].0);
            }
        }
        assert forall|r: int| 0 < r < rs.len() implies (#[trigger] rs[r]).0 == rs[r - 1].1 + 1 by {
            assert(rs[r] == tail[r - 1]);
            if r > 1 {
                assert(rs[r - 1] == tail[r - 2]);
            }
        }
        assert forall|r: int| 0 < r < rs.len() implies moods[(#[trigger] rs[r]).0] != moods[rs[r
            - 1].0] by {
            assert(rs[r] == tail[r - 1]);
            if r > 1 {
                assert(rs[r - 1] == tail[r - 2]);
            }
        }
    }
}

/// Splits a mood sequence into its maximal same-mood runs.
pub fn build_mood_runs(moods: &[BaseMood]) -> (runs: Vec<MoodRun>)
    ensures
        runs@.map_values(|r: MoodRun| r.pair()) == mood_runs(moods@),
{
    let mut runs: Vec<MoodRun> = Vec::new();
    let n = moods.len();
    let mut start: usize = 0;
    while start < n
        invariant
            n == moods@.len(),
            start <= n,
            runs@.map_values(|r: MoodRun| r.pair()) + runs_from(moods@, start as int)
                == mood_runs(moods@),
        decreases n - start,
    {
        let mut end = start;
        while end + 1 < n && moods[end + 1] == moods[start]
            invariant
                n == moods@.len(),
                start <= end < n,
                run_end_from(moods@, start as int, end as int) == run_end_from(
                    moods@,
                    start as int,
                    start as int,
                ),
            decreases n - end,
        {
            end = end + 1;
        }
        proof {
            lemma_run_end(moods@, start as int, start as int);
        }
        let ghost before = runs@.map_values(|r: MoodRun| r.pair());
        runs.push(MoodRun { start, end });
        assert(runs@.map_values(|r: MoodRun| r.pair()) =~= before.push((start as int, end as int)));
        assert(runs_from(moods@, start as int) == seq![(start as int, end as int)] + runs_from(
            moods@,
            end + 1,
        ));
        assert(runs@.map_values(|r: MoodRun| r.pair()) + runs_from(moods@, (end + 1) as int)
            =~= before + runs_from(moods@, start as int));
        start = end + 1;
    }
    assert(runs_from(moods@, start as int) =~= Seq::<(int, int)>::empty());
    assert(runs@.map_values(|r: MoodRun| r.pair()) + Seq::<(int, int)>::empty() =~= runs@.map_values(
        |r: MoodRun| r.pair(),
    ));
    runs
}

// ─── Selective repair planning ──────────────────────────────────────────────

pub open spec fn single_plan(
    prefix: Seq<char>,
    page: u32,
    prompt_kind: SelectivePrompt,
    reason: Seq<char>,
    accept: RepairAcceptSingle,
) -> PlanView {
    PlanView::Single { key: prefix + dec(page as nat), page, prompt_kind, reason, accept }
}

pub open spec fn pair_plan(
    prefix: Seq<char>,
    first_page: u32,
    second_page: u32,
    prompt_kind: SelectivePrompt,
    reason: Seq<char>,
    accept: RepairAcceptPair,
) -> PlanView {
    PlanView::Pair {
        key: prefix + dec(first_page as nat) + "-"@ + dec(second_page as nat),
        first_page,
        second_page,
        prompt_kind,
        reason,
        accept,
    }
}

pub open spec fn run_len(run: (int, int)) -> int {
    run.1 - run.0 + 1
}

/// Position before the end of a run (the end itself when the run ends at 0).
pub open spec fn before_end(run: (int, int)) -> int {
    if run.1 >= 1 {
        run.1 - 1
    } else {
        0
    }
}

/// Long comedy runs: re-examine both edges.
pub open spec fn comedy_plans(order: Seq<u32>, moods: Seq<BaseMood>, run: (int, int)) -> Seq<PlanView> {
    if moods[run.0] == BaseMood::Comedy && run_len(run) >= 4 {
        seq![
            single_plan("comedy_edge:"@, order[run.0], SelectivePrompt::Focus, "comedy_edge"@, RepairAcceptSingle::MysteryOrTension),
            single_plan("comedy_edge:"@, order[run.1], SelectivePrompt::Focus, "comedy_edge"@, RepairAcceptSingle::MysteryOrTension),
        ]
    } else {
        Seq::empty()
    }
}

/// Long tension runs: the opening pair may be mystery, the closing pair epic.
pub open spec fn tension_plans(order: Seq<u32>, moods: Seq<BaseMood>, run: (int, int)) -> Seq<PlanView> {
    if moods[run.0] == BaseMood::Tension && run_len(run) >= 10 {
        seq![
            pair_plan("tension_open:"@, order[run.0], order[run.0 + 1], SelectivePrompt::Narrative, "tension_run_open_mystery"@, RepairAcceptPair::BothMystery),
            pair_plan("tension_close:"@, order[before_end(run)], order[run.1], SelectivePrompt::Narrative, "tension_run_close_epic"@, RepairAcceptPair::BothEpic),
        ]
    } else {
        Seq::empty()
    }
}

/// Short epic runs after the first page: the opening page may be tension.
pub open spec fn short_epic_plans(order: Seq<u32>, moods: Seq<BaseMood>, run: (int, int)) -> Seq<PlanView> {
    if moods[run.0] == BaseMood::Epic && run_len(run) <= 4 && run.0 > 0 {
        seq![
            single_plan("short_epic_open:"@, order[run.0], SelectivePrompt::Narrative, "short_epic_open_tension"@, RepairAcceptSingle::Tension),
        ]
    } else {
        Seq::empty()
    }
}

/// Epic runs of four or more pages before a long tension run: the last two pages may be mystery.
pub open spec fn epic_bridge_plans(
    order: Seq<u32>,
    moods: Seq<BaseMood>,
    runs: Seq<(int, int)>,
    r: int,
) -> Seq<PlanView> {
    let run = runs[r];
    if moods[run.0] == BaseMood::Epic && run_len(run) >= 4 && r + 1 < runs.len() && moods[runs[r
        + 1].0] == BaseMood::Tension && run_len(runs[r + 1]) >= 10 {
        seq![
            single_plan("epic_bridge_penultimate:"@, order[before_end(run)], SelectivePrompt::Focus, "epic_bridge_penultimate_mystery"@, RepairAcceptSingle::Mystery),
            single_plan("epic_bridge_end:"@, order[run.1], SelectivePrompt::Narrative, "epic_bridge_final_mystery"@, RepairAcceptSingle::Mystery),
        ]
    } else {
        Seq::empty()
    }
}

/// Epic runs of eight or more pages: the closing pair may be tension.
pub open spec fn long_epic_plans(order: Seq<u32>, moods: Seq<BaseMood>, run: (int, int)) -> Seq<PlanView> {
    if moods[run.0] == BaseMood::Epic && run_len(run) >= 8 {
        seq![
            pair_plan("long_epic_tail:"@, order[before_end(run)], order[run.1], SelectivePrompt::Focus, "long_epic_tail_tension"@, RepairAcceptPair::BothTension),
        ]
    } else {
        Seq::empty()
    }
}

/// Plans of one run, in the order the rules are tried.
pub open spec fn plans_for_run(
    order: Seq<u32>,
    moods: Seq<BaseMood>,
    runs: Seq<(int, int)>,
    r: int,
) -> Seq<PlanView> {
    comedy_plans(order, moods, runs[r]) + tension_plans(order, moods, runs[r]) + short_epic_plans(
        order,
        moods,
        runs[r],
    ) + epic_bridge_plans(order, moods, runs, r) + long_epic_plans(order, moods, runs[r])
}

/// Plans of the first `n` runs.
pub open spec fn plans_upto(
    order: Seq<u32>,
    moods: Seq<BaseMood>,
    runs: Seq<(int, int)>,
    n: int,
) -> Seq<PlanView>
    decreases n,
{
    if n <= 0 {
        Seq::empty()
    } else {
        plans_upto(order, moods, runs, n - 1) + plans_for_run(order, moods, runs, n - 1)
    }
}

/// All plans for pages in `order` whose moods are `moods`.
pub open spec fn repair_plans(order: Seq<u32>, moods: Seq<BaseMood>) -> Seq<PlanView> {
    plans_upto(order, moods, mood_runs(moods), mood_runs(moods).len() as int)
}

/// Whether every page of `order` has a prediction.
pub open spec fn all_present(order: Seq<u32>, m: Map<u32, AggregatedPrediction>) -> bool {
    forall|i: int| 0 <= i < order.len() ==> m.contains_key(#[trigger] order[i])
}

/// Moods of the pages of `order`.
pub open spec fn moods_along(order: Seq<u32>, m: Map<u32, AggregatedPrediction>) -> Seq<BaseMood> {
    order.map_values(|p: u32| m[p].mood)
}

/// The pages a plan re-examines all stand in `order`, a pair's second page
/// right after its first.
pub open spec fn plan_pages_in(p: PlanView, order: Seq<u32>) -> bool {
    match p {
        PlanView::Single { page, .. } => order.contains(page),
        PlanView::Pair { first_page, second_page, .. } => {
            &&& order.contains(first_page)
            &&& order.contains(second_page)
            &&& exists|j: int| #![trigger order[j]] 0 <= j && j + 1 < order.len() && order[j] == first_page && order[j + 1] == second_page
        },
    }
}

pub open spec fn all_pages_in(plans: Seq<PlanView>, order: Seq<u32>) -> bool {
    forall|i: int| 0 <= i < plans.len() ==> #[trigger] plan_pages_in(plans[i], order)
}

proof fn lemma_all_pages_in_add(a: Seq<PlanView>, b: Seq<PlanView>, order: Seq<u32>)
    requires
        all_pages_in(a, order),
        all_pages_in(b, order),
    ensures
        all_pages_in(a + b, order),
{
    assert forall|i: int| 0 <= i < (a + b).len() implies #[trigger] plan_pages_in((a + b)[i], order) by {
        if i < a.len() {
            assert((a + b)[i] == a[i]);
        } else {
            assert((a + b)[i] == b[i - a.len()]);
        }
    }
}

proof fn lemma_run_plans_pages(order: Seq<u32>, moods: Seq<BaseMood>, runs: Seq<(int, int)>, r: int)
    requires
        0 <= r < runs.len(),
        0 <= runs[r].0 <= runs[r].1 < order.len(),
    ensures
        all_pages_in(plans_for_run(order, moods, runs, r), order),
{
    let run = runs[r];
    assert(order.contains(order[run.0]));
    assert(order.contains(order[run.1]));
    assert(order.contains(order[before_end(run)]));
    if run.0 + 1 <= run.1 {
        assert(order.contains(order[run.0 + 1]));
        assert(order[run.0] == order[run.0]);
        let b = before_end(run);
        assert(b == run.1 - 1);
        assert(order[b] == order[b]);
        assert(order[b + 1] == order[run.1]);
    }
    let a = comedy_plans(order, moods, run);
    let b = tension_plans(order, moods, run);
    let c = short_epic_plans(order, moods, run);
    let d = epic_bridge_plans(order, moods, runs, r);
    let e = long_epic_plans(order, moods, run);
    assert(all_pages_in(a, order));
    assert(all_pages_in(b, order));
    assert(all_pages_in(c, order));
    assert(all_pages_in(d, order));
    assert(all_pages_in(e, order));
    lemma_all_pages_in_add(a, b, order);
    lemma_all_pages_in_add(a + b, c, order);
    lemma_all_pages_in_add(a + b + c, d, order);
    lemma_all_pages_in_add(a + b + c + d, e, order);
}

proof fn lemma_plans_upto_pages(order: Seq<u32>, moods: Seq<BaseMood>, n: int)
    requires
        moods.len() == order.len(),
        0 <= n <= mood_runs(moods).len(),
    ensures
        all_pages_in(plans_upto(order, moods, mood_runs(moods), n), order),
    decreases n,
{
    if n > 0 {
        lemma_plans_upto_pages(order, moods, n - 1);
        lemma_runs_from(moods, 0);
        let rs = mood_runs(moods);
        assert(0 <= rs[n - 1].0 <= rs[n - 1].1 < moods.len());
        lemma_run_plans_pages(order, moods, rs, n - 1);
        lemma_all_pages_in_add(
            plans_upto(order, moods, rs, n - 1),
            plans_for_run(order, moods, rs, n - 1),
            order,
        );
    }
}

/// The plans depend on the pages' moods alone: two sets of predictions that
/// give every page of `order` the same mood give the same plans.
pub proof fn lemma_plans_depend_on_moods(
    order: Seq<u32>,
    m1: Map<u32, AggregatedPrediction>,
    m2: Map<u32, AggregatedPrediction>,
)
    requires
        forall|i: int| 0 <= i < order.len() ==> #[trigger] m1[order[i]].mood == m2[order[i]].mood,
    ensures
        moods_along(order, m1) == moods_along(order, m2),
        repair_plans(order, moods_along(order, m1)) == repair_plans(order, moods_along(order, m2)),
{
    assert(moods_along(order, m1) =~= moods_along(order, m2));
}

// ─── Plan keys ──────────────────────────────────────────────────────────────

/// A key prefix: ends with its only `:`.
pub open spec fn colon_tag(t: Seq<char>) -> bool {
    &&& t.len() > 0
    &&& t[t.len() - 1] == ':'
    &&& forall|i: int| 0 <= i < t.len() - 1 ==> t[i] != ':'
}

pub open spec fn colon_free(s: Seq<char>) -> bool {
    forall|i: int| 0 <= i < s.len() ==> s[i] != ':'
}

/// The key of a plan.
pub open spec fn plan_view_key(p: PlanView) -> Seq<char> {
    match p {
        PlanView::Single { key, .. } => key,
        PlanView::Pair { key, .. } => key,
    }
}

/// The page a plan names first.
pub open spec fn plan_first(p: PlanView) -> u32 {
    match p {
        PlanView::Single { page, .. } => page,
        PlanView::Pair { first_page, .. } => first_page,
    }
}

/// What follows a plan key's prefix: its page, or its pages joined by `-`.
pub open spec fn plan_rest(p: PlanView) -> Seq<char> {
    match p {
        PlanView::Single { page, .. } => dec(page as nat),
        PlanView::Pair { first_page, second_page, .. } => dec(first_page as nat) + "-"@ + dec(second_page as nat),
    }
}

/// The key is a prefix ending in its only `:`, then the rest.
pub open spec fn tagged(p: PlanView) -> bool {
    exists|t: Seq<char>| #[trigger] colon_tag(t) && plan_view_key(p) == t + plan_rest(p)
}

/// Keys that end in their first `:` and then go on without one split the same
/// way.
proof fn lemma_tag_split(t: Seq<char>, u: Seq<char>, x: Seq<char>, y: Seq<char>)
    requires
        colon_tag(t),
        colon_tag(u),
        colon_free(x),
        colon_free(y),
        t + x == u + y,
    ensures
        t == u,
        x == y,
{
    if t.len() < u.len() {
        assert((t + x)[t.len() - 1] == ':');
        assert((u + y)[t.len() - 1] == u[t.len() - 1]);
        assert(false);
    } else if u.len() < t.len() {
        assert((u + y)[u.len() - 1] == ':');
        assert((t + x)[u.len() - 1] == t[u.len() - 1]);
        assert(false);
    }
    assert(t =~= (t + x).take(t.len() as int));
    assert(u =~= (u + y).take(u.len() as int));
    assert(x =~= (t + x).skip(t.len() as int));
    assert(y =~= (u + y).skip(u.len() as int));
}

proof fn lemma_rest_colon_free(p: PlanView)
    ensures
        colon_free(plan_rest(p)),
{
    reveal_strlit("-");
    match p {
        PlanView::Single { page, .. } => {
            lemma_dec_digits(page as nat);
        },
        PlanView::Pair { first_page, second_page, .. } => {
            lemma_dec_digits(first_page as nat);
            lemma_dec_digits(second_page as nat);
            let a = dec(first_page as nat);
            let b = dec(second_page as nat);
            let r = a + "-"@ + b;
            assert forall|i: int| 0 <= i < r.len() implies r[i] != ':' by {
                if i < a.len() {
                    assert(r[i] == a[i]);
                } else if i == a.len() {
                    assert(r[i] == '-');
                } else {
                    assert(r[i] == b[i - a.len() - 1]);
                }
            }
        },
    }
}

/// Two plans whose rests are equal name the same first page.
proof fn lemma_rest_first(p: PlanView, q: PlanView)
    requires
        plan_rest(p) == plan_rest(q),
    ensures
        plan_first(p) == plan_first(q),
{
    reveal_strlit("-");
    lemma_dec_digits(plan_first(p) as nat);
    lemma_dec_digits(plan_first(q) as nat);
    let a = dec(plan_first(p) as nat);
    let c = dec(plan_first(q) as nat);
    match (p, q) {
        (PlanView::Single { .. }, PlanView::Single { .. }) => {},
        (PlanView::Pair { second_page, .. }, PlanView::Single { .. }) => {
            let r = plan_rest(p);
            assert(r[a.len() as int] == '-');
            assert(r.len() > a.len());
            assert(c[a.len() as int] == '-');
            assert(false);
        },
        (PlanView::Single { .. }, PlanView::Pair { .. }) => {
            let r = plan_rest(q);
            assert(r[c.len() as int] == '-');
            assert(a[c.len() as int] == '-');
            assert(false);
        },
        (PlanView::Pair { .. }, PlanView::Pair { .. }) => {
            let r = plan_rest(p);
            if a.len() < c.len() {
                assert(r[a.len() as int] == '-');
                assert(plan_rest(q)[a.len() as int] == c[a.len() as int]);
                assert(false);
            } else if c.len() < a.len() {
                assert(plan_rest(q)[c.len() as int] == '-');
                assert(r[c.len() as int] == a[c.len() as int]);
                assert(false);
            }
            assert(a =~= r.take(a.len() as int));
            assert(c =~= plan_rest(q).take(c.len() as int));
        },
    }
}

/// Two tagged plans with the same key name the same first page.
proof fn lemma_same_key_first(p: PlanView, q: PlanView)
    requires
        tagged(p),
        tagged(q),
        plan_view_key(p) == plan_view_key(q),
    ensures
        plan_first(p) == plan_first(q),
{
    let t = choose|t: Seq<char>| #[trigger] colon_tag(t) && plan_view_key(p) == t + plan_rest(p);
    let u = choose|u: Seq<char>| #[trigger] colon_tag(u) && plan_view_key(q) == u + plan_rest(q);
    lemma_rest_colon_free(p);
    lemma_rest_colon_free(q);
    lemma_tag_split(t, u, plan_rest(p), plan_rest(q));
    lemma_rest_first(p, q);
}

proof fn lemma_prefix_tags()
    ensures
        colon_tag("comedy_edge:"@),
        colon_tag("tension_open:"@),
        colon_tag("tension_close:"@),
        colon_tag("short_epic_open:"@),
        colon_tag("epic_bridge_penultimate:"@),
        colon_tag("epic_bridge_end:"@),
        colon_tag("long_epic_tail:"@),
        "tension_open:"@ != "tension_close:"@,
        "short_epic_open:"@ != "epic_bridge_penultimate:"@,
        "short_epic_open:"@ != "epic_bridge_end:"@,
        "epic_bridge_penultimate:"@ != "epic_bridge_end:"@,
        "long_epic_tail:"@ != "epic_bridge_penultimate:"@,
        "long_epic_tail:"@ != "epic_bridge_end:"@,
{
    reveal_strlit("comedy_edge:");
    reveal_strlit("tension_open:");
    reveal_strlit("tension_close:");
    reveal_strlit("short_epic_open:");
    reveal_strlit("epic_bridge_penultimate:");
    reveal_strlit("epic_bridge_end:");
    reveal_strlit("long_epic_tail:");
    assert("short_epic_open:"@[0] != "epic_bridge_end:"@[0]);
}

/// The key of `p` is the prefix `t` followed by its rest.
pub open spec fn key_under(p: PlanView, t: Seq<char>) -> bool {
    colon_tag(t) && plan_view_key(p) == t + plan_rest(p)
}

/// Plans whose prefixes or first pages differ have different keys.
proof fn lemma_keys_differ(p: PlanView, q: PlanView, t: Seq<char>, u: Seq<char>)
    requires
        key_under(p, t),
        key_under(q, u),
        t != u || plan_first(p) != plan_first(q),
    ensures
        plan_view_key(p) != plan_view_key(q),
{
    if plan_view_key(p) == plan_view_key(q) {
        lemma_rest_colon_free(p);
        lemma_rest_colon_free(q);
        lemma_tag_split(t, u, plan_rest(p), plan_rest(q));
        lemma_rest_first(p, q);
    }
}

proof fn lemma_single_key(t: Seq<char>, page: u32, k: SelectivePrompt, reason: Seq<char>, a: RepairAcceptSingle)
    requires
        colon_tag(t),
    ensures
        key_under(single_plan(t, page, k, reason, a), t),
        tagged(single_plan(t, page, k, reason, a)),
        plan_first(single_plan(t, page, k, reason, a)) == page,
{
}

proof fn lemma_pair_key(t: Seq<char>, first: u32, second: u32, k: SelectivePrompt, reason: Seq<char>, a: RepairAcceptPair)
    requires
        colon_tag(t),
    ensures
        key_under(pair_plan(t, first, second, k, reason, a), t),
        tagged(pair_plan(t, first, second, k, reason, a)),
        plan_first(pair_plan(t, first, second, k, reason, a)) == first,
{
    let p = pair_plan(t, first, second, k, reason, a);
    assert(t + dec(first as nat) + "-"@ + dec(second as nat) =~= t + (dec(first as nat) + "-"@ + dec(second as nat)));
    assert(key_under(p, t));
}

/// No two plans of the list share a key.
pub open spec fn keys_distinct(ps: Seq<PlanView>) -> bool {
    forall|i: int, j: int| 0 <= i < j < ps.len() ==> plan_view_key(#[trigger] ps[i]) != plan_view_key(#[trigger] ps[j])
}

proof fn lemma_keys_distinct_concat(a: Seq<PlanView>, b: Seq<PlanView>)
    requires
        keys_distinct(a),
        keys_distinct(b),
        forall|i: int, j: int| 0 <= i < a.len() && 0 <= j < b.len() ==> plan_view_key(#[trigger] a[i]) != plan_view_key(#[trigger] b[j]),
    ensures
        keys_distinct(a + b),
{
    assert forall|i: int, j: int| 0 <= i < j < (a + b).len() implies plan_view_key(#[trigger] (a + b)[i]) != plan_view_key(#[trigger] (a + b)[j]) by {
        if j < a.len() {
            assert((a + b)[i] == a[i] && (a + b)[j] == a[j]);
        } else if i < a.len() {
            assert((a + b)[i] == a[i] && (a + b)[j] == b[j - a.len()]);
        } else {
            assert((a + b)[i] == b[i - a.len()] && (a + b)[j] == b[j - a.len()]);
        }
    }
}

/// The first page of `p` stands in `order` between positions `lo` and `hi`.
pub open spec fn first_within(p: PlanView, order: Seq<u32>, lo: int, hi: int) -> bool {
    exists|k: int| lo <= k <= hi && #[trigger] order[k] == plan_first(p)
}

/// What each plan of a run keeps: a tagged key and a first page in the run.
pub open spec fn run_plans_ok(ps: Seq<PlanView>, order: Seq<u32>, lo: int, hi: int) -> bool {
    forall|i: int| 0 <= i < ps.len() ==> tagged(#[trigger] ps[i]) && first_within(ps[i], order, lo, hi)
}

proof fn lemma_run_plans_ok_concat(a: Seq<PlanView>, b: Seq<PlanView>, order: Seq<u32>, lo: int, hi: int)
    requires
        run_plans_ok(a, order, lo, hi),
        run_plans_ok(b, order, lo, hi),
    ensures
        run_plans_ok(a + b, order, lo, hi),
{
    assert forall|i: int| 0 <= i < (a + b).len() implies tagged(#[trigger] (a + b)[i]) && first_within((a + b)[i], order, lo, hi) by {
        if i < a.len() {
            assert((a + b)[i] == a[i]);
        } else {
            assert((a + b)[i] == b[i - a.len()]);
        }
    }
}

proof fn lemma_run_plan_keys(order: Seq<u32>, moods: Seq<BaseMood>, runs: Seq<(int, int)>, r: int)
    requires
        0 <= r < runs.len(),
        0 <= runs[r].0 <= runs[r].1 < order.len(),
        order.no_duplicates(),
        moods.len() == order.len(),
    ensures
        keys_distinct(plans_for_run(order, moods, runs, r)),
        run_plans_ok(plans_for_run(order, moods, runs, r), order, runs[r].0, runs[r].1),
{
    lemma_prefix_tags();
    let run = runs[r];
    let (lo, hi) = (run.0, run.1);
    let a = comedy_plans(order, moods, run);
    let b = tension_plans(order, moods, run);
    let c = short_epic_plans(order, moods, run);
    let d = epic_bridge_plans(order, moods, runs, r);
    let e = long_epic_plans(order, moods, run);
    let ce = "comedy_edge:"@;
    let to = "tension_open:"@;
    let tc = "tension_close:"@;
    let se = "short_epic_open:"@;
    let bp = "epic_bridge_penultimate:"@;
    let be = "epic_bridge_end:"@;
    let le = "long_epic_tail:"@;
    assert(order[lo] == order[lo]);
    assert(order[hi] == order[hi]);
    assert(order[before_end(run)] == order[before_end(run)]);
    if a.len() > 0 {
        lemma_single_key(ce, order[lo], SelectivePrompt::Focus, "comedy_edge"@, RepairAcceptSingle::MysteryOrTension);
        lemma_single_key(ce, order[hi], SelectivePrompt::Focus, "comedy_edge"@, RepairAcceptSingle::MysteryOrTension);
        assert(order[lo] != order[hi]);
        lemma_keys_differ(a[0], a[1], ce, ce);
    }
    if b.len() > 0 {
        lemma_pair_key(to, order[lo], order[lo + 1], SelectivePrompt::Narrative, "tension_run_open_mystery"@, RepairAcceptPair::BothMystery);
        lemma_pair_key(tc, order[before_end(run)], order[hi], SelectivePrompt::Narrative, "tension_run_close_epic"@, RepairAcceptPair::BothEpic);
        lemma_keys_differ(b[0], b[1], to, tc);
    }
    if c.len() > 0 {
        lemma_single_key(se, order[lo], SelectivePrompt::Narrative, "short_epic_open_tension"@, RepairAcceptSingle::Tension);
    }
    if d.len() > 0 {
        lemma_single_key(bp, order[before_end(run)], SelectivePrompt::Focus, "epic_bridge_penultimate_mystery"@, RepairAcceptSingle::Mystery);
        lemma_single_key(be, order[hi], SelectivePrompt::Narrative, "epic_bridge_final_mystery"@, RepairAcceptSingle::Mystery);
        lemma_keys_differ(d[0], d[1], bp, be);
    }
    if e.len() > 0 {
        lemma_pair_key(le, order[before_end(run)], order[hi], SelectivePrompt::Focus, "long_epic_tail_tension"@, RepairAcceptPair::BothTension);
    }
    if c.len() > 0 && d.len() > 0 {
        lemma_keys_differ(c[0], d[0], se, bp);
        lemma_keys_differ(c[0], d[1], se, be);
    }
    if d.len() > 0 && e.len() > 0 {
        lemma_keys_differ(d[0], e[0], bp, le);
        lemma_keys_differ(d[1], e[0], be, le);
    }
    assert(keys_distinct(a));
    assert(keys_distinct(b));
    assert(keys_distinct(c));
    assert(keys_distinct(d));
    assert(keys_distinct(e));
    assert(run_plans_ok(a, order, lo, hi));
    assert(run_plans_ok(b, order, lo, hi));
    assert(run_plans_ok(c, order, lo, hi));
    assert(run_plans_ok(d, order, lo, hi));
    assert(run_plans_ok(e, order, lo, hi));
    lemma_keys_distinct_concat(a, b);
    lemma_keys_distinct_concat(a + b, c);
    lemma_keys_distinct_concat(a + b + c, d);
    lemma_keys_distinct_concat(a + b + c + d, e);
    lemma_run_plans_ok_concat(a, b, order, lo, hi);
    lemma_run_plans_ok_concat(a + b, c, order, lo, hi);
    lemma_run_plans_ok_concat(a + b + c, d, order, lo, hi);
    lemma_run_plans_ok_concat(a + b + c + d, e, order, lo, hi);
}

#[verifier::spinoff_prover]
proof fn lemma_plans_upto_keys(order: Seq<u32>, moods: Seq<BaseMood>, n: int)
    requires
        moods.len() == order.len(),
        order.no_duplicates(),
        0 <= n <= mood_runs(moods).len(),
    ensures
        keys_distinct(plans_upto(order, moods, mood_runs(moods), n)),
        n > 0 ==> run_plans_ok(plans_upto(order, moods, mood_runs(moods), n), order, 0, mood_runs(moods)[n - 1].1),
    decreases n,
{
    let rs = mood_runs(moods);
    if n > 0 {
        lemma_runs_from(moods, 0);
        lemma_plans_upto_keys(order, moods, n - 1);
        lemma_run_plan_keys(order, moods, rs, n - 1);
        let a = plans_upto(order, moods, rs, n - 1);
        let b = plans_for_run(order, moods, rs, n - 1);
        let hi = rs[n - 1].1;
        assert forall|i: int, j: int| 0 <= i < a.len() && 0 <= j < b.len() implies plan_view_key(#[trigger] a[i])
            != plan_view_key(#[trigger] b[j]) by {
            assert(n - 1 > 0);
            let prev = rs[n - 2].1;
            assert(tagged(a[i]) && first_within(a[i], order, 0, prev));
            assert(tagged(b[j]) && first_within(b[j], order, rs[n - 1].0, hi));
            let ka = choose|k: int| 0 <= k <= prev && #[trigger] order[k] == plan_first(a[i]);
            let kb = choose|k: int| rs[n - 1].0 <= k <= hi && #[trigger] order[k] == plan_first(b[j]);
            assert(ka < kb);
            assert(order[ka] != order[kb]);
            if plan_view_key(a[i]) == plan_view_key(b[j]) {
                lemma_same_key_first(a[i], b[j]);
            }
        }
        lemma_keys_distinct_concat(a, b);
        if n > 1 {
            let prev = rs[n - 2].1;
            assert forall|i: int| 0 <= i < a.len() implies tagged(#[trigger] a[i]) && first_within(a[i], order, 0, hi) by {
                assert(first_within(a[i], order, 0, prev));
                let k = choose|k: int| 0 <= k <= prev && #[trigger] order[k] == plan_first(a[i]);
                assert(order[k] == plan_first(a[i]));
            }
        }
        assert forall|i: int| 0 <= i < b.len() implies tagged(#[trigger] b[i]) && first_within(b[i], order, 0, hi) by {
            let k = choose|k: int| rs[n - 1].0 <= k <= hi && #[trigger] order[k] == plan_first(b[i]);
            assert(order[k] == plan_first(b[i]));
        }
        lemma_run_plans_ok_concat(a, b, order, 0, hi);
    }
}

/// No two planned repairs share a key, when the pages of `order` are
/// distinct.
pub proof fn lemma_repair_plan_keys_distinct(order: Seq<u32>, moods: Seq<BaseMood>)
    requires
        moods.len() == order.len(),
        order.no_duplicates(),
    ensures
        keys_distinct(repair_plans(order, moods)),
{
    lemma_runs_from(moods, 0);
    lemma_plans_upto_keys(order, moods, mood_runs(moods).len() as int);
}

/// A short-epic opening plan names an epic page that follows a page of
/// another mood: never the first page of the order.
pub open spec fn short_open_ok(p: PlanView, order: Seq<u32>, moods: Seq<BaseMood>) -> bool {
    match p {
        PlanView::Single { page, reason, .. } => reason == "short_epic_open_tension"@ ==> exists|s: int|
            0 < s < order.len() && #[trigger] order[s] == page && moods[s] == BaseMood::Epic && moods[s - 1]
                != BaseMood::Epic,
        PlanView::Pair { .. } => true,
    }
}

pub open spec fn all_short_open_ok(ps: Seq<PlanView>, order: Seq<u32>, moods: Seq<BaseMood>) -> bool {
    forall|i: int| 0 <= i < ps.len() ==> short_open_ok(#[trigger] ps[i], order, moods)
}

proof fn lemma_short_open_concat(a: Seq<PlanView>, b: Seq<PlanView>, order: Seq<u32>, moods: Seq<BaseMood>)
    requires
        all_short_open_ok(a, order, moods),
        all_short_open_ok(b, order, moods),
    ensures
        all_short_open_ok(a + b, order, moods),
{
    assert forall|i: int| 0 <= i < (a + b).len() implies short_open_ok(#[trigger] (a + b)[i], order, moods) by {
        if i < a.len() {
            assert((a + b)[i] == a[i]);
        } else {
            assert((a + b)[i] == b[i - a.len()]);
        }
    }
}

proof fn lemma_reasons_differ()
    ensures
        "comedy_edge"@ != "short_epic_open_tension"@,
        "epic_bridge_penultimate_mystery"@ != "short_epic_open_tension"@,
        "epic_bridge_final_mystery"@ != "short_epic_open_tension"@,
{
    reveal_strlit("short_epic_open_tension");
    reveal_strlit("comedy_edge");
    reveal_strlit("epic_bridge_penultimate_mystery");
    reveal_strlit("epic_bridge_final_mystery");
    assert("comedy_edge"@[0] != "short_epic_open_tension"@[0]);
    assert("epic_bridge_penultimate_mystery"@[0] != "short_epic_open_tension"@[0]);
    assert("epic_bridge_final_mystery"@[0] != "short_epic_open_tension"@[0]);
}

#[verifier::spinoff_prover]
proof fn lemma_run_short_open(order: Seq<u32>, moods: Seq<BaseMood>, rs: Seq<(int, int)>, r: int)
    requires
        moods.len() == order.len(),
        0 <= r < rs.len(),
        0 <= rs[r].0 <= rs[r].1 < order.len(),
        rs[r].0 > 0 ==> moods[rs[r].0 - 1] != moods[rs[r].0],
    ensures
        all_short_open_ok(plans_for_run(order, moods, rs, r), order, moods),
{
    lemma_reasons_differ();
    let run = rs[r];
    let a = comedy_plans(order, moods, run);
    let b = tension_plans(order, moods, run);
    let c = short_epic_plans(order, moods, run);
    let d = epic_bridge_plans(order, moods, rs, r);
    let e = long_epic_plans(order, moods, run);
    assert(all_short_open_ok(a, order, moods));
    assert(all_short_open_ok(b, order, moods));
    if c.len() > 0 {
        assert(order[run.0] == order[run.0]);
        assert(short_open_ok(c[0], order, moods));
    }
    assert(all_short_open_ok(c, order, moods));
    assert(all_short_open_ok(d, order, moods));
    assert(all_short_open_ok(e, order, moods));
    lemma_short_open_concat(a, b, order, moods);
    lemma_short_open_concat(a + b, c, order, moods);
    lemma_short_open_concat(a + b + c, d, order, moods);
    lemma_short_open_concat(a + b + c + d, e, order, moods);
}

proof fn lemma_upto_short_open(order: Seq<u32>, moods: Seq<BaseMood>, n: int)
    requires
        moods.len() == order.len(),
        0 <= n <= mood_runs(moods).len(),
    ensures
        all_short_open_ok(plans_upto(order, moods, mood_runs(moods), n), order, moods),
    decreases n,
{
    if n > 0 {
        let rs = mood_runs(moods);
        lemma_upto_short_open(order, moods, n - 1);
        assert(0 <= rs[n - 1].0 <= rs[n - 1].1 < order.len() && (rs[n - 1].0 > 0 ==> moods[rs[n - 1].0 - 1]
            != moods[rs[n - 1].0])) by {
            lemma_runs_from(moods, 0);
            if rs[n - 1].0 > 0 {
                assert(n - 1 > 0);
                let prev = rs[n - 2];
                assert(rs[n - 1].0 == prev.1 + 1);
                assert(moods[prev.1] == moods[prev.0]);
            }
        }
        lemma_run_short_open(order, moods, rs, n - 1);
        lemma_short_open_concat(
            plans_upto(order, moods, rs, n - 1),
            plans_for_run(order, moods, rs, n - 1),
            order,
            moods,
        );
    }
}

/// A short epic run is only re-examined where it opens after a page of
/// another mood: no short-epic plan names the first page of the order.
pub proof fn lemma_short_epic_not_at_start(order: Seq<u32>, moods: Seq<BaseMood>)
    requires
        moods.len() == order.len(),
    ensures
        all_short_open_ok(repair_plans(order, moods), order, moods),
{
    lemma_runs_from(moods, 0);
    lemma_upto_short_open(order, moods, mood_runs(moods).len() as int);
}

/// Every page a plan re-examines is a page of `order`, and the two pages of
/// a pair follow each other in `order`.
pub proof fn lemma_repair_plans_pages(order: Seq<u32>, moods: Seq<BaseMood>)
    requires
        moods.len() == order.len(),
    ensures
        all_pages_in(repair_plans(order, moods), order),
{
    lemma_runs_from(moods, 0);
    lemma_plans_upto_pages(order, moods, mood_runs(moods).len() as int);
}

fn make_single(
    prefix: &str,
    page: u32,
    prompt_kind: SelectivePrompt,
    reason: &'static str,
    accept: RepairAcceptSingle,
) -> (p: RepairPlan)
    ensures
        p@ == single_plan(prefix@, page, prompt_kind, reason@, accept),
{
    let mut key = prefix.to_string();
    push_dec(&mut key, page);
    RepairPlan::Single { key, page, prompt_kind, reason, accept }
}

fn make_pair(
    prefix: &str,
    first_page: u32,
    second_page: u32,
    prompt_kind: SelectivePrompt,
    reason: &'static str,
    accept: RepairAcceptPair,
) -> (p: RepairPlan)
    ensures
        p@ == pair_plan(prefix@, first_page, second_page, prompt_kind, reason@, accept),
{
    let mut key = prefix.to_string();
    push_dec(&mut key, first_page);
    key.append("-");
    push_dec(&mut key, second_page);
    RepairPlan::Pair { key, first_page, second_page, prompt_kind, reason, accept }
}

fn comedy_plans_exec(order: &[u32], moods: &Vec<BaseMood>, run: MoodRun) -> (plans: Vec<
    RepairPlan,
>)
    requires
        run.start <= run.end < order@.len(),
        moods@.len() == order@.len(),
    ensures
        plans_view(plans@) == comedy_plans(order@, moods@, run.pair()),
{
    let mut plans: Vec<RepairPlan> = Vec::new();
    if moods[run.start] == BaseMood::Comedy && run.end - run.start >= 3 {
        let p1 = make_single("comedy_edge:", order[run.start], SelectivePrompt::Focus, "comedy_edge", RepairAcceptSingle::MysteryOrTension);
        plans.push(p1);
        let p2 = make_single("comedy_edge:", order[run.end], SelectivePrompt::Focus, "comedy_edge", RepairAcceptSingle::MysteryOrTension);
        plans.push(p2);
    }
    assert(plans_view(plans@) =~= comedy_plans(order@, moods@, run.pair()));
    plans
}

fn tension_plans_exec(order: &[u32], moods: &Vec<BaseMood>, run: MoodRun) -> (plans: Vec<
    RepairPlan,
>)
    requires
        run.start <= run.end < order@.len(),
        moods@.len() == order@.len(),
    ensures
        plans_view(plans@) == tension_plans(order@, moods@, run.pair()),
{
    let mut plans: Vec<RepairPlan> = Vec::new();
    let pen = if run.end >= 1 { run.end - 1 } else { 0 };
    if moods[run.start] == BaseMood::Tension && run.end - run.start >= 9 {
        let p1 = make_pair("tension_open:", order[run.start], order[run.start + 1], SelectivePrompt::Narrative, "tension_run_open_mystery", RepairAcceptPair::BothMystery);
        plans.push(p1);
        let p2 = make_pair("tension_close:", order[pen], order[run.end], SelectivePrompt::Narrative, "tension_run_close_epic", RepairAcceptPair::BothEpic);
        plans.push(p2);
    }
    assert(plans_view(plans@) =~= tension_plans(order@, moods@, run.pair()));
    plans
}

fn short_epic_plans_exec(order: &[u32], moods: &Vec<BaseMood>, run: MoodRun) -> (plans: Vec<
    RepairPlan,
>)
    requires
        run.start <= run.end < order@.len(),
        moods@.len() == order@.len(),
    ensures
        plans_view(plans@) == short_epic_plans(order@, moods@, run.pair()),
{
    let mut plans: Vec<RepairPlan> = Vec::new();
    if moods[run.start] == BaseMood::Epic && run.end - run.start <= 3 && run.start > 0 {
        let p1 = make_single("short_epic_open:", order[run.start], SelectivePrompt::Narrative, "short_epic_open_tension", RepairAcceptSingle::Tension);
        plans.push(p1);
    }
    assert(plans_view(plans@) =~= short_epic_plans(order@, moods@, run.pair()));
    plans
}

fn long_epic_plans_exec(order: &[u32], moods: &Vec<BaseMood>, run: MoodRun) -> (plans: Vec<
    RepairPlan,
>)
    requires
        run.start <= run.end < order@.len(),
        moods@.len() == order@.len(),
    ensures
        plans_view(plans@) == long_epic_plans(order@, moods@, run.pair()),
{
    let mut plans: Vec<RepairPlan> = Vec::new();
    let pen = if run.end >= 1 { run.end - 1 } else { 0 };
    if moods[run.start] == BaseMood::Epic && run.end - run.start >= 7 {
        let p1 = make_pair("long_epic_tail:", order[pen], order[run.end], SelectivePrompt::Focus, "long_epic_tail_tension", RepairAcceptPair::BothTension);
        plans.push(p1);
    }
    assert(plans_view(plans@) =~= long_epic_plans(order@, moods@, run.pair()));
    plans
}

fn epic_bridge_plans_exec(
    order: &[u32],
    moods: &Vec<BaseMood>,
    run: MoodRun,
    next: Option<MoodRun>,
    Ghost(rs): Ghost<Seq<(int, int)>>,
    Ghost(r): Ghost<int>,
) -> (plans: Vec<RepairPlan>)
    requires
        moods@.len() == order@.len(),
        0 <= r < rs.len(),
        run.pair() == rs[r],
        run.start <= run.end < order@.len(),
        next matches Some(n) ==> r + 1 < rs.len() && n.pair() == rs[r + 1] && n.start <= n.end
            < order@.len(),
        next is None ==> r + 1 >= rs.len(),
    ensures
        plans_view(plans@) == epic_bridge_plans(order@, moods@, rs, r),
{
    let pen = if run.end >= 1 { run.end - 1 } else { 0 };
    let bridge = if moods[run.start] == BaseMood::Epic && run.end - run.start >= 3 {
        match next {
            Some(n) => moods[n.start] == BaseMood::Tension && n.end - n.start >= 9,
            None => false,
        }
    } else {
        false
    };
    let mut plans: Vec<RepairPlan> = Vec::new();
    if bridge {
        let p1 = make_single("epic_bridge_penultimate:", order[pen], SelectivePrompt::Focus, "epic_bridge_penultimate_mystery", RepairAcceptSingle::Mystery);
        plans.push(p1);
        let p2 = make_single("epic_bridge_end:", order[run.end], SelectivePrompt::Narrative, "epic_bridge_final_mystery", RepairAcceptSingle::Mystery);
        plans.push(p2);
    }
    assert(plans_view(plans@) =~= epic_bridge_plans(order@, moods@, rs, r));
    plans
}

proof fn lemma_plans_view_add(a: Seq<RepairPlan>, b: Seq<RepairPlan>)
    ensures
        plans_view(a + b) == plans_view(a) + plans_view(b),
{
    assert(plans_view(a + b) =~= plans_view(a) + plans_view(b));
}

fn run_plans(
    order: &[u32],
    moods: &Vec<BaseMood>,
    runs: &Vec<MoodRun>,
    r: usize,
) -> (plans: Vec<RepairPlan>)
    requires
        moods@.len() == order@.len(),
        runs@.map_values(|x: MoodRun| x.pair()) == mood_runs(moods@),
        r < runs@.len(),
    ensures
        plans_view(plans@) == plans_for_run(order@, moods@, mood_runs(moods@), r as int),
{
    let ghost rs = mood_runs(moods@);
    let _moods_len = moods.len();
    proof {
        lemma_runs_from(moods@, 0);
        assert(rs[r as int] == runs@[r as int].pair());
        assert(rs[r as int].1 < moods@.len());
    }
    let run = runs[r];
    let mut plans = comedy_plans_exec(order, moods, run);
    let mut b = tension_plans_exec(order, moods, run);
    let mut c = short_epic_plans_exec(order, moods, run);
    let nruns = runs.len();
    let next = if r < nruns - 1 {
        proof {
            assert(rs[r + 1] == runs@[r + 1].pair());
            assert(rs[r + 1].1 < moods@.len());
        }
        Some(runs[r + 1])
    } else {
        None
    };
    let mut d = epic_bridge_plans_exec(order, moods, run, next, Ghost(rs), Ghost(r as int));
    let mut e = long_epic_plans_exec(order, moods, run);
    let ghost (pa, pb, pc, pd, pe) = (plans@, b@, c@, d@, e@);
    plans.append(&mut b);
    plans.append(&mut c);
    plans.append(&mut d);
    plans.append(&mut e);
    proof {
        assert(plans@ == pa + pb + pc + pd + pe);
        lemma_plans_view_add(pa, pb);
        lemma_plans_view_add(pa + pb, pc);
        lemma_plans_view_add(pa + pb + pc, pd);
        lemma_plans_view_add(pa + pb + pc + pd, pe);
    }
    plans
}

/// Plans the selective re-examinations suggested by the run structure of the
/// page moods; nothing when a page of `page_order` has no prediction.
pub fn plan_selective_repairs(
    page_order: &[u32],
    base_predictions: &PageMap<AggregatedPrediction>,
) -> (plans: Vec<RepairPlan>)
    requires
        base_predictions.wf(),
    ensures
        all_present(page_order@, base_predictions@) ==> plans_view(plans@) == repair_plans(
            page_order@,
            moods_along(page_order@, base_predictions@),
        ),
        !all_present(page_order@, base_predictions@) ==> plans@.len() == 0,
{
    let mut moods: Vec<BaseMood> = Vec::new();
    let mut i: usize = 0;
    while i < page_order.len()
        invariant
            base_predictions.wf(),
            i <= page_order@.len(),
            all_present(page_order@.take(i as int), base_predictions@),
            moods@ == moods_along(page_order@.take(i as int), base_predictions@),
        decreases page_order@.len() - i,
    {
        match base_predictions.get(&page_order[i]) {
            Some(prediction) => {
                moods.push(prediction.mood);
            },
            None => {
                assert(!all_present(page_order@, base_predictions@));
                return Vec::new();
            },
        }
        i = i + 1;
        assert(page_order@.take(i as int) =~= page_order@.take((i - 1) as int).push(page_order@[i - 1]));
        assert(moods@ =~= moods_along(page_order@.take(i as int), base_predictions@));
    }
    assert(page_order@.take(i as int) =~= page_order@);
    let runs = build_mood_runs(moods.as_slice());
    let mut plans: Vec<RepairPlan> = Vec::new();
    let mut r: usize = 0;
    while r < runs.len()
        invariant
            moods@.len() == page_order@.len(),
            runs@.map_values(|x: MoodRun| x.pair()) == mood_runs(moods@),
            r <= runs@.len(),
            plans_view(plans@) == plans_upto(page_order@, moods@, mood_runs(moods@), r as int),
        decreases runs@.len() - r,
    {
        let mut more = run_plans(page_order, &moods, &runs, r);
        let ghost before = plans@;
        let ghost extra = more@;
        plans.append(&mut more);
        assert(plans_view(plans@) =~= plans_view(before) + plans_view(extra));
        r = r + 1;
    }
    assert(runs@.map_values(|x: MoodRun| x.pair()).len() == runs@.len());
    plans
}


// ─── Action bridge holds ────────────────────────────────────────────────────

/// A short tension run (four to six pages) between a short epic run (at most
/// three pages) and a long one (at least four pages).
pub open spec fn bridge_hold_run(moods: Seq<BaseMood>, rs: Seq<(int, int)>, r: int) -> bool {
    &&& 0 < r
    &&& r + 1 < rs.len()
    &&& moods[rs[r].0] == BaseMood::Tension
    &&& moods[rs[r - 1].0] == BaseMood::Epic
    &&& moods[rs[r + 1].0] == BaseMood::Epic
    &&& 4 <= run_len(rs[r]) <= 6
    &&& run_len(rs[r - 1]) <= 3
    &&& run_len(rs[r + 1]) >= 4
}

/// The first two positions of a run.
pub open spec fn in_hold_range(run: (int, int), i: int) -> bool {
    run.0 <= i && i <= run.0 + 1 && i <= run.1
}

/// Whether position `i` opens a bridge-hold run.
pub open spec fn held_position(moods: Seq<BaseMood>, i: int) -> bool {
    exists|r: int|
        0 <= r < mood_runs(moods).len() && bridge_hold_run(moods, mood_runs(moods), r)
            && #[trigger] in_hold_range(mood_runs(moods)[r], i)
}

/// Whether page `k` stands at a held position before `c`.
pub open spec fn held_before(order: Seq<u32>, moods: Seq<BaseMood>, c: int, k: u32) -> bool {
    exists|i: int| 0 <= i < c && #[trigger] order[i] == k && held_position(moods, i)
}

/// `q` is `p` held as epic.
pub open spec fn is_bridge_hold_of(p: AggregatedPrediction, q: AggregatedPrediction) -> bool {
    &&& q.mood == BaseMood::Epic
    &&& q.intensity == p.intensity
    &&& q.winner_score == p.winner_score
    &&& q.runner_up_score == p.runner_up_score
    &&& q.scores.weights@ == single_weights(BaseMood::Epic)
    &&& q.narrative_role == role_for(BaseMood::Epic, p.intensity)
    &&& q.note matches Some(n) && n@ == "action_bridge_hold_epic"@
}

/// `cur` is `old` with the tension pages held before `c` turned epic.
pub open spec fn holds_applied(
    old: Map<u32, AggregatedPrediction>,
    cur: Map<u32, AggregatedPrediction>,
    order: Seq<u32>,
    moods: Seq<BaseMood>,
    c: int,
) -> bool {
    &&& cur.dom() == old.dom()
    &&& forall|k: u32|
        #[trigger] old.contains_key(k) ==> if held_before(order, moods, c, k) && old[k].mood
            == BaseMood::Tension {
            is_bridge_hold_of(old[k], cur[k])
        } else {
            cur[k] == old[k]
        }
}

/// Turns the prediction of `page` epic when it is tension.
fn hold_page(effective: &mut PageMap<AggregatedPrediction>, page: u32)
    requires
        old(effective).wf(),
    ensures
        final(effective).wf(),
        final(effective)@.dom() == old(effective)@.dom(),
        forall|k: u32| k != page ==> #[trigger] final(effective)@.contains_key(k) ==> final(effective)@[k] == old(effective)@[k],
        old(effective)@.contains_key(page) ==> if old(effective)@[page].mood == BaseMood::Tension {
            is_bridge_hold_of(old(effective)@[page], final(effective)@[page])
        } else {
            final(effective)@[page] == old(effective)@[page]
        },
{
    let original = match effective.get(&page) {
        Some(p) => p.clone(),
        None => {
            return;
        },
    };
    if original.mood != BaseMood::Tension {
        return;
    }
    let intensity = original.intensity;
    let replacement = AggregatedPrediction {
        mood: BaseMood::Epic,
        intensity,
        winner_score: original.winner_score,
        runner_up_score: original.runner_up_score,
        scores: MoodScores::from_single(BaseMood::Epic),
        narrative_role: infer_narrative_role(BaseMood::Epic, intensity),
        note: Some("action_bridge_hold_epic".to_string()),
    };
    effective.insert(page, replacement);
    assert(final(effective)@.dom() =~= old(effective)@.dom());
}

proof fn lemma_held_position_in_run(moods: Seq<BaseMood>, r: int, i: int)
    requires
        0 <= r < mood_runs(moods).len(),
        mood_runs(moods)[r].0 <= i <= mood_runs(moods)[r].1,
    ensures
        held_position(moods, i) <==> bridge_hold_run(moods, mood_runs(moods), r) && in_hold_range(
            mood_runs(moods)[r],
            i,
        ),
{
    let rs = mood_runs(moods);
    lemma_runs_from(moods, 0);
    if held_position(moods, i) {
        let q = choose|q: int|
            0 <= q < rs.len() && bridge_hold_run(moods, rs, q) && #[trigger] in_hold_range(rs[q], i);
        if q < r {
            assert(rs[q].1 < rs[r].0);
        } else if q > r {
            assert(rs[r].1 < rs[q].0);
        }
    }
    if bridge_hold_run(moods, rs, r) && in_hold_range(rs[r], i) {
        assert(held_position(moods, i));
    }
}

/// Moving past a stretch of positions none of which is held keeps the state.
proof fn lemma_skip_unheld(
    old: Map<u32, AggregatedPrediction>,
    cur: Map<u32, AggregatedPrediction>,
    order: Seq<u32>,
    moods: Seq<BaseMood>,
    c: int,
    d: int,
)
    requires
        holds_applied(old, cur, order, moods, c),
        c <= d,
        forall|i: int| c <= i < d ==> !held_position(moods, i),
    ensures
        holds_applied(old, cur, order, moods, d),
{
    assert forall|k: u32| held_before(order, moods, d, k) implies held_before(order, moods, c, k) by {
        let i = choose|i: int| 0 <= i < d && #[trigger] order[i] == k && held_position(moods, i);
        assert(i < c);
    }
    assert forall|k: u32| held_before(order, moods, c, k) implies held_before(order, moods, d, k) by {
        let i = choose|i: int| 0 <= i < c && #[trigger] order[i] == k && held_position(moods, i);
        assert(0 <= i < d && order[i] == k && held_position(moods, i));
    }
}

/// Holding the page at a held position `c` extends the state to `c + 1`.
proof fn lemma_hold_step(
    old: Map<u32, AggregatedPrediction>,
    cur: Map<u32, AggregatedPrediction>,
    next: Map<u32, AggregatedPrediction>,
    order: Seq<u32>,
    moods: Seq<BaseMood>,
    c: int,
)
    requires
        holds_applied(old, cur, order, moods, c),
        0 <= c < order.len(),
        held_position(moods, c),
        next.dom() == cur.dom(),
        forall|k: u32| k != order[c] ==> #[trigger] next.contains_key(k) ==> next[k] == cur[k],
        cur.contains_key(order[c]) ==> if cur[order[c]].mood == BaseMood::Tension {
            is_bridge_hold_of(cur[order[c]], next[order[c]])
        } else {
            next[order[c]] == cur[order[c]]
        },
    ensures
        holds_applied(old, next, order, moods, c + 1),
{
    let p = order[c];
    assert(held_before(order, moods, c + 1, p));
    assert forall|k: u32| k != p && held_before(order, moods, c + 1, k) implies held_before(
        order,
        moods,
        c,
        k,
    ) by {
        let i = choose|i: int| 0 <= i < c + 1 && #[trigger] order[i] == k && held_position(moods, i);
        assert(i != c);
    }
    assert forall|k: u32| held_before(order, moods, c, k) implies held_before(order, moods, c + 1, k) by {
        let i = choose|i: int| 0 <= i < c && #[trigger] order[i] == k && held_position(moods, i);
        assert(0 <= i < c + 1);
    }
    assert forall|k: u32| #[trigger] old.contains_key(k) implies if held_before(
        order,
        moods,
        c + 1,
        k,
    ) && old[k].mood == BaseMood::Tension {
        is_bridge_hold_of(old[k], next[k])
    } else {
        next[k] == old[k]
    } by {
        if k == p {
            if held_before(order, moods, c, k) && old[k].mood == BaseMood::Tension {
                assert(cur[k].mood == BaseMood::Epic);
            }
        }
    }
}

/// Holds action bridges: in the run structure of the base moods along
/// `page_order`, the first two pages of a short tension run between a short
/// and a long epic run keep the epic mood when their prediction is tension.
#[verifier::spinoff_prover]
#[verifier::rlimit(30)]
pub fn apply_action_bridge_holds(
    page_order: &[u32],
    base_predictions: &PageMap<AggregatedPrediction>,
    effective_predictions: &mut PageMap<AggregatedPrediction>,
)
    requires
        base_predictions.wf(),
        old(effective_predictions).wf(),
    ensures
        final(effective_predictions).wf(),
        !all_present(page_order@, base_predictions@) ==> final(effective_predictions)@ == old(
            effective_predictions,
        )@,
        all_present(page_order@, base_predictions@) ==> holds_applied(
            old(effective_predictions)@,
            final(effective_predictions)@,
            page_order@,
            moods_along(page_order@, base_predictions@),
            page_order@.len() as int,
        ),
{
    let mut moods: Vec<BaseMood> = Vec::new();
    let mut i: usize = 0;
    while i < page_order.len()
        invariant
            base_predictions.wf(),
            effective_predictions.wf(),
            effective_predictions@ == old(effective_predictions)@,
            i <= page_order@.len(),
            all_present(page_order@.take(i as int), base_predictions@),
            moods@ == moods_along(page_order@.take(i as int), base_predictions@),
        decreases page_order@.len() - i,
    {
        match base_predictions.get(&page_order[i]) {
            Some(prediction) => {
                moods.push(prediction.mood);
            },
            None => {
                assert(!all_present(page_order@, base_predictions@));
                return;
            },
        }
        i = i + 1;
        assert(page_order@.take(i as int) =~= page_order@.take((i - 1) as int).push(page_order@[i - 1]));
        assert(moods@ =~= moods_along(page_order@.take(i as int), base_predictions@));
    }
    assert(page_order@.take(i as int) =~= page_order@);
    let ghost ms = moods@;
    let ghost o = page_order@;
    let ghost old_eff = effective_predictions@;
    let ghost rs = mood_runs(ms);
    let runs = build_mood_runs(moods.as_slice());
    proof {
        lemma_runs_from(ms, 0);
        assert(runs@.len() == rs.len());
        assert forall|q: int| 0 <= q < rs.len() implies #[trigger] rs[q] == runs@[q].pair() by {
            assert(runs@.map_values(|x: MoodRun| x.pair())[q] == runs@[q].pair());
        }
        assert(holds_applied(old_eff, effective_predictions@, o, ms, 0));
    }
    let nruns = runs.len();
    if nruns < 3 {
        proof {
            assert forall|p: int| 0 <= p < o.len() implies !held_position(ms, p) by {
                if held_position(ms, p) {
                    let q = choose|q: int|
                        0 <= q < rs.len() && bridge_hold_run(ms, rs, q) && #[trigger] in_hold_range(rs[q], p);
                }
            }
            lemma_skip_unheld(old_eff, effective_predictions@, o, ms, 0, o.len() as int);
        }
        return;
    }
    proof {
        assert forall|p: int| 0 <= p < rs[1].0 implies !held_position(ms, p) by {
            assert(rs[0].0 == 0);
            assert(rs[1].0 == rs[0].1 + 1);
            lemma_held_position_in_run(ms, 0, p);
        }
        lemma_skip_unheld(old_eff, effective_predictions@, o, ms, 0, rs[1].0);
    }
    let mut r: usize = 1;
    while r < nruns - 1
        invariant
            nruns == runs@.len(),
            nruns == rs.len(),
            nruns >= 3,
            1 <= r <= nruns - 1,
            ms.len() == o.len(),
            o == page_order@,
            rs == mood_runs(ms),
            forall|q: int| 0 <= q < rs.len() ==> #[trigger] rs[q] == runs@[q].pair(),
            forall|q: int|
                0 <= q < rs.len() ==> 0 <= (#[trigger] rs[q]).0 <= rs[q].1 < ms.len(),
            forall|q: int| 0 < q < rs.len() ==> (#[trigger] rs[q]).0 == rs[q - 1].1 + 1,
            moods@ == ms,
            effective_predictions.wf(),
            holds_applied(old_eff, effective_predictions@, o, ms, rs[r as int].0),
        decreases nruns - r,
    {
        let previous = runs[r - 1];
        let current = runs[r];
        let next = runs[r + 1];
        proof {
            assert(rs[r + 1] == runs@[r + 1].pair());
            assert(rs[r + 1].0 <= rs[r + 1].1 < ms.len());
        }
        let qualifies = moods[current.start] == BaseMood::Tension && moods[previous.start]
            == BaseMood::Epic && moods[next.start] == BaseMood::Epic && current.end - current.start
            >= 3 && current.end - current.start <= 5 && previous.end - previous.start <= 2
            && next.end - next.start >= 3;
        proof {
            assert(qualifies == bridge_hold_run(ms, rs, r as int));
        }
        if qualifies {
            let ghost c0 = current.start as int;
            proof {
                lemma_held_position_in_run(ms, r as int, c0);
            }
            let ghost before = effective_predictions@;
            hold_page(effective_predictions, page_order[current.start]);
            proof {
                lemma_hold_step(old_eff, before, effective_predictions@, o, ms, c0);
            }
            if current.start + 1 <= current.end {
                proof {
                    lemma_held_position_in_run(ms, r as int, c0 + 1);
                }
                let ghost before2 = effective_predictions@;
                hold_page(effective_predictions, page_order[current.start + 1]);
                proof {
                    lemma_hold_step(old_eff, before2, effective_predictions@, o, ms, c0 + 1);
                }
            }
            proof {
                let c1 = if c0 + 1 <= rs[r as int].1 { c0 + 2 } else { c0 + 1 };
                assert forall|p: int| c1 <= p < rs[r + 1].0 implies !held_position(ms, p) by {
                    lemma_held_position_in_run(ms, r as int, p);
                }
                lemma_skip_unheld(old_eff, effective_predictions@, o, ms, c1, rs[r + 1].0);
            }
        } else {
            proof {
                assert forall|p: int| rs[r as int].0 <= p < rs[r + 1].0 implies !held_position(ms, p) by {
                    lemma_held_position_in_run(ms, r as int, p);
                }
                lemma_skip_unheld(
                    old_eff,
                    effective_predictions@,
                    o,
                    ms,
                    rs[r as int].0,
                    rs[r + 1].0,
                );
            }
        }
        r = r + 1;
    }
    proof {
        let last = (nruns - 1) as int;
        assert(rs[last].1 == ms.len() - 1);
        assert forall|p: int| rs[last].0 <= p < o.len() implies !held_position(ms, p) by {
            lemma_held_position_in_run(ms, last, p);
        }
        lemma_skip_unheld(old_eff, effective_predictions@, o, ms, rs[last].0, o.len() as int);
    }
}


// ─── Prompts ────────────────────────────────────────────────────────────────

pub const WIDE_PROMPT_HEAD: &'static str = "These are 5 consecutive manga pages from the same chapter (pages ";

pub const PROMPT_OUT_OF: &'static str = " out of ";

pub const WIDE_PROMPT_TAIL: &'static str = ").\n\
        They are shown in reading order from earliest to latest.\n\
        \n\
        Considering the short narrative flow across all 5 pages, what is the dominant mood of this sequence for soundtrack purposes?\n\
        \n\
        Classify as ONE mood that best represents the 5-page segment:\n\
        - epic: climactic moments, declarations of resolve, power unleashed, clear payoff or triumph\n\
        - tension: buildup, uncertainty, standoffs, unresolved threats, pressure without release\n\
        - sadness: grief, defeat, crying, emotional pain, aftermath\n\
        - comedy: comic relief, gags, slapstick, funny reactions\n\
        - romance: intimacy, affection, tender moments\n\
        - horror: fear, monsters, gore, nightmare imagery\n\
        - peaceful: calm pause, daily life, quiet contemplation, friendly conversation\n\
        - mystery: secrets, scheming, ominous reveal, hidden motives, foreshadowing\n\
        \n\
        Rate the intensity from 1 (low) to 3 (high).\n\
        \n\
        Reply format: mood intensity\n\
        Example: tension 2";

pub const FOCUS_PROMPT_HEAD: &'static str = "These are 3 consecutive manga pages from the same chapter.\n\
        Image 1 is the PREVIOUS page, Image 2 is the CURRENT page, Image 3 is the NEXT page.\n\
        \n\
        Classify the CURRENT page only (Image 2) for soundtrack purposes.\n\
        Use the neighboring pages only to disambiguate the current page.\n\
        \n\
        Current page number: ";

pub const FOCUS_PROMPT_TAIL: &'static str = ".\n\
        \n\
        Reply format: mood intensity\n\
        Allowed moods: epic, tension, sadness, comedy, romance, horror, peaceful, mystery";

pub const NARRATIVE_PROMPT_HEAD: &'static str = "These are 3 consecutive manga pages from the same chapter.\n\
        Image 1 is the PREVIOUS page, Image 2 is the CURRENT page, Image 3 is the NEXT page.\n\
        \n\
        Classify the CURRENT page only (Image 2) for soundtrack purposes.\n\
        Use neighboring pages only to understand the narrative function of the CURRENT page.\n\
        \n\
        First decide whether the CURRENT page is mainly:\n\
        - payoff / climax / release -> epic\n\
        - buildup / standoff / unresolved threat / evaluation -> tension\n\
        - grief / loss / crying / aftermath -> sadness\n\
        - comic relief / gag / silly reaction -> comedy\n\
        - tenderness / intimacy / affection -> romance\n\
        - fear / monster / nightmare / shock -> horror\n\
        - quiet pause / daily life / calm reflection -> peaceful\n\
        - reveal / secret / foreshadowing / scheming -> mystery\n\
        \n\
        Critical rules:\n\
        - action without release or payoff is tension, not epic\n\
        - hidden motives, reveals, and ominous setup are mystery, not epic\n\
        - a single quiet page can still be peaceful even between intense pages\n\
        - crying, regret, or aftermath are sadness, not epic\n\
        \n\
        Current page number: ";

pub const NARRATIVE_PROMPT_TAIL: &'static str = ".\n\
        \n\
        Reply with ONLY: mood intensity\n\
        Example: tension 2";

/// One-based page numbers of page indices, separated by ", ".
pub open spec fn page_numbers(s: Seq<u32>) -> Seq<char>
    decreases s.len(),
{
    if s.len() == 0 {
        Seq::empty()
    } else if s.len() == 1 {
        dec((s[0] + 1) as nat)
    } else {
        page_numbers(s.drop_last()) + ", "@ + dec((s.last() + 1) as nat)
    }
}

pub open spec fn wide_sequence_prompt(context_indices: Seq<u32>, total_pages: u32) -> Seq<char> {
    WIDE_PROMPT_HEAD@ + page_numbers(context_indices) + PROMPT_OUT_OF@ + dec(total_pages as nat)
        + WIDE_PROMPT_TAIL@
}

pub open spec fn focus_prompt(page_idx: u32, total_pages: u32) -> Seq<char> {
    FOCUS_PROMPT_HEAD@ + dec((page_idx + 1) as nat) + PROMPT_OUT_OF@ + dec(total_pages as nat)
        + FOCUS_PROMPT_TAIL@
}

pub open spec fn narrative_focus_prompt(page_idx: u32, total_pages: u32) -> Seq<char> {
    NARRATIVE_PROMPT_HEAD@ + dec((page_idx + 1) as nat) + PROMPT_OUT_OF@ + dec(
        total_pages as nat,
    ) + NARRATIVE_PROMPT_TAIL@
}

/// The prompt asking for the dominant mood of a five-page window.
pub fn build_wide_sequence_prompt(context_indices: &[u32], total_pages: u32) -> (p: String)
    requires
        forall|i: int| 0 <= i < context_indices@.len() ==> #[trigger] context_indices@[i] < u32::MAX,
    ensures
        p@ == wide_sequence_prompt(context_indices@, total_pages),
{
    let mut numbers = String::new();
    let mut i: usize = 0;
    while i < context_indices.len()
        invariant
            i <= context_indices@.len(),
            forall|j: int| 0 <= j < context_indices@.len() ==> #[trigger] context_indices@[j] < u32::MAX,
            numbers@ == page_numbers(context_indices@.take(i as int)),
        decreases context_indices@.len() - i,
    {
        if i > 0 {
            numbers.append(", ");
        }
        push_dec(&mut numbers, context_indices[i] + 1);
        i = i + 1;
        assert(context_indices@.take(i as int).drop_last() =~= context_indices@.take((i - 1) as int));
    }
    assert(context_indices@.take(i as int) =~= context_indices@);
    let mut p = WIDE_PROMPT_HEAD.to_string();
    p.append(numbers.as_str());
    p.append(PROMPT_OUT_OF);
    push_dec(&mut p, total_pages);
    p.append(WIDE_PROMPT_TAIL);
    p
}

/// The prompt asking for the mood of the middle page of three.
pub fn build_focus_prompt(page_idx: u32, total_pages: u32) -> (p: String)
    requires
        page_idx < u32::MAX,
    ensures
        p@ == focus_prompt(page_idx, total_pages),
{
    let mut p = FOCUS_PROMPT_HEAD.to_string();
    push_dec(&mut p, page_idx + 1);
    p.append(PROMPT_OUT_OF);
    push_dec(&mut p, total_pages);
    p.append(FOCUS_PROMPT_TAIL);
    p
}

/// The prompt asking for the narrative function, then the mood, of the middle page of three.
pub fn build_narrative_focus_prompt(page_idx: u32, total_pages: u32) -> (p: String)
    requires
        page_idx < u32::MAX,
    ensures
        p@ == narrative_focus_prompt(page_idx, total_pages),
{
    let mut p = NARRATIVE_PROMPT_HEAD.to_string();
    push_dec(&mut p, page_idx + 1);
    p.append(PROMPT_OUT_OF);
    push_dec(&mut p, total_pages);
    p.append(NARRATIVE_PROMPT_TAIL);
    p
}

// ─── Majority aggregation ───────────────────────────────────────────────────

/// `r` is the verdict of the votes that `votes` give `page`.
pub open spec fn verdict_of(votes: Seq<WindowPrediction>, page: u32, r: AggregatedPrediction) -> bool {
    exists|s: VoteStats|
        #[trigger] s.matches_tally(tally(votes, page, votes.len() as int)) && aggregate_ok(s, r)
}

proof fn lemma_tally_exact(votes: Seq<WindowPrediction>, page: u32, s: VoteStats)
    requires
        votes.len() <= 0x1_0000_0000,
        s.matches_tally(tally(votes, page, votes.len() as int)),
    ensures
        exact_means(s),
{
    lemma_tally_bounds(votes, page, votes.len() as int);
    assert forall|i: int| 0 <= i < 8 implies #[trigger] s.intensity_sum@[i] <= 0x20_0000_0000_0000
        && s.intensity_count@[i] <= 0x20_0000_0000_0000 by {
        assert(s.counts@[i] == tally(votes, page, votes.len() as int).counts[i]);
        assert(s.intensity_sum@[i] == tally(votes, page, votes.len() as int).intensity_sum[i]);
        assert(s.intensity_count@[i] == tally(votes, page, votes.len() as int).intensity_count[i]);
    }
}

/// Two windows that cast the same vote.
pub open spec fn same_vote(a: WindowPrediction, b: WindowPrediction) -> bool {
    &&& a.members@ == b.members@
    &&& a.center == b.center
    &&& a.mood == b.mood
    &&& a.intensity == b.intensity
}

/// Two vote sequences that agree window by window.
pub open spec fn same_votes(a: Seq<WindowPrediction>, b: Seq<WindowPrediction>) -> bool {
    &&& a.len() == b.len()
    &&& forall|i: int| 0 <= i < a.len() ==> #[trigger] same_vote(a[i], b[i])
}

proof fn lemma_same_votes_tally(a: Seq<WindowPrediction>, b: Seq<WindowPrediction>, page: u32, n: int)
    requires
        same_votes(a, b),
        0 <= n <= a.len(),
    ensures
        tally(a, page, n) == tally(b, page, n),
    decreases n,
{
    if n > 0 {
        lemma_same_votes_tally(a, b, page, n - 1);
        assert(same_vote(a[n - 1], b[n - 1]));
    }
}

/// Sequences casting the same votes give every page the same verdicts.
pub proof fn lemma_same_votes_verdict(
    a: Seq<WindowPrediction>,
    b: Seq<WindowPrediction>,
    page: u32,
    r: AggregatedPrediction,
)
    requires
        same_votes(a, b),
    ensures
        verdict_of(a, page, r) == verdict_of(b, page, r),
{
    lemma_same_votes_tally(a, b, page, a.len() as int);
}

/// The verdict for one page, from the votes of all windows.
pub fn page_verdict(window_predictions: &[WindowPrediction], page: u32) -> (r: AggregatedPrediction)
    requires
        window_predictions@.len() <= 0x1_0000_0000,
    ensures
        verdict_of(window_predictions@, page, r),
{
    let stats = build_vote_stats(window_predictions, page);
    proof {
        lemma_tally_exact(window_predictions@, page, stats);
    }
    aggregate_prediction(&stats)
}

/// The majority verdict of every page of `page_order`.
pub fn aggregate_majority(page_order: &[u32], window_predictions: &[WindowPrediction]) -> (m:
    PageMap<AggregatedPrediction>)
    requires
        window_predictions@.len() <= 0x1_0000_0000,
    ensures
        m.wf(),
        forall|p: u32| #[trigger] m@.contains_key(p) <==> page_order@.contains(p),
        forall|p: u32| #[trigger] m@.contains_key(p) ==> verdict_of(window_predictions@, p, m@[p]),
{
    let mut m: PageMap<AggregatedPrediction> = PageMap::new();
    let mut i: usize = 0;
    while i < page_order.len()
        invariant
            window_predictions@.len() <= 0x1_0000_0000,
            i <= page_order@.len(),
            m.wf(),
            forall|p: u32| #[trigger] m@.contains_key(p) <==> page_order@.take(i as int).contains(p),
            forall|p: u32| #[trigger] m@.contains_key(p) ==> verdict_of(window_predictions@, p, m@[p]),
        decreases page_order@.len() - i,
    {
        let page = page_order[i];
        let prediction = page_verdict(window_predictions, page);
        let ghost prev = page_order@.take(i as int);
        m.insert(page, prediction);
        i = i + 1;
        assert(page_order@.take(i as int) =~= prev.push(page));
        assert forall|p: u32| #[trigger] m@.contains_key(p) <==> page_order@.take(i as int).contains(p) by {
            let cur = page_order@.take(i as int);
            if prev.contains(p) {
                let j = choose|j: int| 0 <= j < prev.len() && prev[j] == p;
                assert(cur[j] == p);
            }
            if cur.contains(p) && p != page {
                let j = choose|j: int| 0 <= j < cur.len() && cur[j] == p;
                assert(prev[j] == p);
            }
            if p == page {
                assert(cur[cur.len() - 1] == p);
            }
        }
    }
    assert(page_order@.take(i as int) =~= page_order@);
    m
}


// ─── Laws ───────────────────────────────────────────────────────────────────

/// The five window pages lie within the chapter, in reading order, with the
/// center (clamped to the chapter) in the middle.
pub proof fn lemma_wide_context(center: u32, total: u32)
    ensures
        wide_context(center as int, total as int).len() == 5,
        forall|i: int| 0 <= i < 5 ==> #[trigger] wide_context(center as int, total as int)[i] <= last_page(total as int),
        forall|i: int, j: int|
            0 <= i <= j < 5 ==> wide_context(center as int, total as int)[i] <= wide_context(center as int, total as int)[j],
        center < total ==> wide_context(center as int, total as int)[2] == center,
{
}

/// Every window containing `page` among the first `n` votes for `mood`.
pub open spec fn unanimous(votes: Seq<WindowPrediction>, page: u32, mood: BaseMood, n: int) -> bool {
    forall|k: int| 0 <= k < n && (#[trigger] votes[k]).members@.contains(page) ==> votes[k].mood == mood
}

proof fn lemma_unanimous_tally(votes: Seq<WindowPrediction>, page: u32, mood: BaseMood, n: int)
    requires
        0 <= n <= votes.len(),
        unanimous(votes, page, mood, n),
    ensures
        forall|i: int| 0 <= i < 8 && i != mood_idx(mood) ==> #[trigger] tally(votes, page, n).counts[i] == 0,
        (exists|k: int| 0 <= k < n && (#[trigger] votes[k]).members@.contains(page)) ==> tally(votes, page, n).counts[mood_idx(mood) as int] > 0,
    decreases n,
{
    lemma_tally_bounds(votes, page, n);
    if n > 0 {
        lemma_unanimous_tally(votes, page, mood, n - 1);
        lemma_tally_bounds(votes, page, n - 1);
        if exists|k: int| 0 <= k < n && (#[trigger] votes[k]).members@.contains(page) {
            if !votes[n - 1].members@.contains(page) {
                let k = choose|k: int| 0 <= k < n && (#[trigger] votes[k]).members@.contains(page);
                assert(k < n - 1);
            }
        }
    }
}

proof fn lemma_single_argmax(w: Seq<u64>, a: int, n: int)
    requires
        0 <= a < n <= w.len(),
        w[a] > 0,
        forall|i: int| 0 <= i < n && i != a ==> w[i] == 0,
    ensures
        first_argmax(w, n) == a,
    decreases n,
{
    if n > a + 1 {
        lemma_single_argmax(w, a, n - 1);
    } else if n == a + 1 && a > 0 {
        lemma_first_argmax_zero(w, a);
    }
}

proof fn lemma_first_argmax_zero(w: Seq<u64>, n: int)
    requires
        0 < n <= w.len(),
        forall|i: int| 0 <= i < n ==> w[i] == 0,
    ensures
        w[first_argmax(w, n)] == 0,
        0 <= first_argmax(w, n) < n,
    decreases n,
{
    if n > 1 {
        lemma_first_argmax_zero(w, n - 1);
    }
}

/// When every window containing a page votes the same mood (and some window
/// contains it), the page gets that mood.
pub proof fn lemma_unanimous_verdict(votes: Seq<WindowPrediction>, page: u32, mood: BaseMood, r: AggregatedPrediction)
    requires
        verdict_of(votes, page, r),
        unanimous(votes, page, mood, votes.len() as int),
        exists|k: int| 0 <= k < votes.len() && (#[trigger] votes[k]).members@.contains(page),
    ensures
        r.mood == mood,
{
    let s = choose|s: VoteStats| #[trigger] s.matches_tally(tally(votes, page, votes.len() as int)) && aggregate_ok(s, r);
    let t = tally(votes, page, votes.len() as int);
    lemma_unanimous_tally(votes, page, mood, votes.len() as int);
    let m = mood_idx(mood) as int;
    assert forall|i: int| 0 <= i < 8 && i != m implies s.counts@[i] == 0 by {
        assert(s.counts@[i] == t.counts[i]);
    }
    assert(s.counts@[m] == t.counts[m]);
    lemma_single_argmax(s.counts@, m, 8);
    assert(!tied_with(s.counts@, m, 8));
    crate::types::lemma_mood_index_roundtrip(mood);
}

} // verus!
