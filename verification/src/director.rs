//! Mood scores and narrative roles.

use vstd::prelude::*;

use crate::text::{is_ascii_seq, lemma_normalized_ascii, lemma_plain_lower, lowercased, to_lowercase, trim, trim_seq, str_eq};
use crate::types::{mood_at, mood_idx, BaseMood, MoodIntensity};

verus! {

/// Scores of the eight moods, kept as vote weights in hundredths of a vote and
/// indexed by the mood order. The normalized score of a mood is its weight
/// divided by the sum of the weights (0 for every mood when the sum is 0).
#[derive(Debug, Clone, Copy)]
pub struct MoodScores {
    pub weights: [u64; 8],
}

/// Index of the first largest weight among the first `n`.
pub open spec fn first_argmax(w: Seq<u64>, n: int) -> int
    decreases n,
{
    if n <= 1 {
        0
    } else {
        let b = first_argmax(w, n - 1);
        if w[n - 1] > w[b] {
            n - 1
        } else {
            b
        }
    }
}

/// Weights with one full vote on a single mood.
pub open spec fn single_weights(m: BaseMood) -> Seq<u64> {
    Seq::new(8, |i: int| if i == mood_idx(m) { 100u64 } else { 0u64 })
}

impl MoodScores {
    pub fn new() -> (s: Self)
        ensures
            s.weights@ == Seq::new(8, |i: int| 0u64),
    {
        let s = MoodScores { weights: [0u64; 8] };
        assert(s.weights@ =~= Seq::new(8, |i: int| 0u64));
        s
    }

    /// One full vote for `mood`, none for the others.
    pub fn from_single(mood: BaseMood) -> (s: Self)
        ensures
            s.weights@ == single_weights(mood),
    {
        let mut weights = [0u64; 8];
        weights[mood.index()] = 100;
        let s = MoodScores { weights };
        assert(s.weights@ =~= single_weights(mood));
        s
    }

    pub fn get(&self, mood: BaseMood) -> (v: u64)
        ensures
            v == self.weights@[mood_idx(mood) as int],
    {
        self.weights[mood.index()]
    }

    pub fn set(&mut self, mood: BaseMood, value: u64)
        ensures
            final(self).weights@ == old(self).weights@.update(mood_idx(mood) as int, value),
    {
        self.weights[mood.index()] = value;
        assert(self.weights@ =~= old(self).weights@.update(mood_idx(mood) as int, value));
    }

    /// The mood with the highest score; the first in mood order on ties.
    pub fn dominant(&self) -> (m: BaseMood)
        ensures
            m == mood_at(first_argmax(self.weights@, 8)),
    {
        let mut best_idx: usize = 0;
        let mut best_val = self.weights[0];
        let mut i: usize = 1;
        while i < 8
            invariant
                1 <= i <= 8,
                best_idx < i,
                best_idx as int == first_argmax(self.weights@, i as int),
                best_val == self.weights@[best_idx as int],
            decreases 8 - i,
        {
            if self.weights[i] > best_val {
                best_val = self.weights[i];
                best_idx = i;
            }
            i = i + 1;
        }
        BaseMood::from_index(best_idx)
    }
}

/// Narrative role of a page relative to the story flow.
#[derive(Debug, Clone, Copy, PartialEq, Eq, Structural)]
pub enum NarrativeRole {
    Continuation,
    Escalation,
    DeEscalation,
    Transition,
    Climax,
}

pub open spec fn role_name(r: NarrativeRole) -> Seq<char> {
    match r {
        NarrativeRole::Continuation => "continuation"@,
        NarrativeRole::Escalation => "escalation"@,
        NarrativeRole::DeEscalation => "de_escalation"@,
        NarrativeRole::Transition => "transition"@,
        NarrativeRole::Climax => "climax"@,
    }
}

/// Role named by an already trimmed and lowercased text.
pub open spec fn role_from_name(s: Seq<char>) -> Option<NarrativeRole> {
    if s == "continuation"@ {
        Some(NarrativeRole::Continuation)
    } else if s == "escalation"@ {
        Some(NarrativeRole::Escalation)
    } else if s == "de_escalation"@ || s == "de-escalation"@ {
        Some(NarrativeRole::DeEscalation)
    } else if s == "transition"@ {
        Some(NarrativeRole::Transition)
    } else if s == "climax"@ {
        Some(NarrativeRole::Climax)
    } else {
        None
    }
}

impl NarrativeRole {
    /// Parses a role name, ignoring surrounding whitespace and case.
    pub fn from_str_opt(s: &str) -> (r: Option<Self>)
        ensures
            r == role_from_name(lowercased(trim_seq(s@))),
    {
        let lower = to_lowercase(trim(s));
        let t = lower.as_str();
        if str_eq(t, "continuation") {
            Some(NarrativeRole::Continuation)
        } else if str_eq(t, "escalation") {
            Some(NarrativeRole::Escalation)
        } else if str_eq(t, "de_escalation") || str_eq(t, "de-escalation") {
            Some(NarrativeRole::DeEscalation)
        } else if str_eq(t, "transition") {
            Some(NarrativeRole::Transition)
        } else if str_eq(t, "climax") {
            Some(NarrativeRole::Climax)
        } else {
            None
        }
    }

    pub fn as_str(&self) -> (s: &'static str)
        ensures
            s@ == role_name(*self),
    {
        match self {
            NarrativeRole::Continuation => "continuation",
            NarrativeRole::Escalation => "escalation",
            NarrativeRole::DeEscalation => "de_escalation",
            NarrativeRole::Transition => "transition",
            NarrativeRole::Climax => "climax",
        }
    }
}


// ─── Mood director ──────────────────────────────────────────────────────────

/// Keeps the last `size` items: pushes `item` and drops the oldest one when
/// the window overflows.
pub open spec fn pushed_window<A>(w: Seq<A>, item: A, size: nat) -> Seq<A> {
    let p = w.push(item);
    if p.len() > size {
        p.drop_first()
    } else {
        p
    }
}

/// The state once a page of chapter `ch` joined the window: a page of another
/// chapter starts from a fresh state of that chapter.
pub open spec fn taken<A>(v: DirectorView<A>, item: A, ch: Option<Seq<char>>, size: nat) -> DirectorView<A> {
    let base = if v.chapter == ch {
        v
    } else {
        DirectorView { chapter: ch, ..fresh::<A>() }
    };
    DirectorView { window: pushed_window(base.window, item, size), ..base }
}

/// A state the director can be in with a window of `size` pages: the window
/// holds at most `size` pages, and a mood is committed exactly when an
/// intensity is.
pub open spec fn reachable<A>(v: DirectorView<A>, size: nat) -> bool {
    &&& v.window.len() <= size
    &&& (v.committed_mood is Some <==> v.committed_intensity is Some)
}

/// What the director reads of the scores around a page, worked out from the
/// window after the page joined it.
#[derive(Debug, Clone, Copy)]
pub struct DirectorSignals {
    /// Weighted intensity of the window, rounded to a level.
    pub smoothed_intensity: MoodIntensity,
    /// The best mood of the window once weighed by how plausible a move from the
    /// committed mood to it is.
    pub candidate: BaseMood,
    /// The page's own score for its raw mood is overwhelming.
    pub strong_override: bool,
    /// The committed mood scores below the exit threshold and the candidate
    /// above the entry threshold.
    pub thresholds_met: bool,
}

/// The director's decision for one page.
#[derive(Debug, Clone, Copy)]
pub struct CoreDecision {
    pub committed_mood: BaseMood,
    pub committed_intensity: MoodIntensity,
    pub mood_changed: bool,
    pub intensity_changed: bool,
    pub dwell_count: u32,
}

/// Debounced mood state of the reader: the committed mood and intensity, how
/// long the mood has been held, and the recent page analyses.
pub struct DirectorCore<A> {
    pub window: Vec<A>,
    pub committed_mood: Option<BaseMood>,
    pub committed_intensity: Option<MoodIntensity>,
    pub dwell_counter: u32,
    pub current_chapter: Option<String>,
}

pub struct DirectorView<A> {
    pub window: Seq<A>,
    pub committed_mood: Option<BaseMood>,
    pub committed_intensity: Option<MoodIntensity>,
    pub dwell: u32,
    pub chapter: Option<Seq<char>>,
}

/// The state after a reset: nothing committed, empty window, no chapter.
pub open spec fn fresh<A>() -> DirectorView<A> {
    DirectorView { window: Seq::empty(), committed_mood: None, committed_intensity: None, dwell: 0, chapter: None }
}

/// Dwell a change needs: the configured one, one page less (but at least one) at a climax.
pub open spec fn effective_dwell(min_dwell: u32, role: NarrativeRole) -> u32 {
    if role == NarrativeRole::Climax {
        if min_dwell >= 2 {
            (min_dwell - 1) as u32
        } else {
            1
        }
    } else {
        min_dwell
    }
}

/// Whether the committed mood gives way: to an overwhelming raw mood at once,
/// otherwise to a different candidate that meets the thresholds after the dwell.
pub open spec fn should_change(
    committed: BaseMood,
    raw_mood: BaseMood,
    sig: DirectorSignals,
    dwell: int,
    min_dwell: u32,
    role: NarrativeRole,
) -> bool {
    if raw_mood != committed && sig.strong_override {
        true
    } else if sig.candidate == committed {
        false
    } else {
        sig.thresholds_met && dwell >= effective_dwell(min_dwell, role)
    }
}

/// The state and decision after one page, once it joined the window.
pub open spec fn decided<A>(
    v: DirectorView<A>,
    raw_mood: BaseMood,
    raw_intensity: MoodIntensity,
    role: NarrativeRole,
    sig: DirectorSignals,
    min_dwell: u32,
    w: DirectorView<A>,
    d: CoreDecision,
) -> bool {
    match v.committed_mood {
        None => {
            &&& w == DirectorView {
                committed_mood: Some(raw_mood),
                committed_intensity: Some(raw_intensity),
                dwell: 1u32,
                ..v
            }
            &&& d == CoreDecision {
                committed_mood: raw_mood,
                committed_intensity: raw_intensity,
                mood_changed: true,
                intensity_changed: false,
                dwell_count: 1,
            }
        },
        Some(committed) => {
            let prev_intensity = match v.committed_intensity {
                Some(i) => i,
                None => MoodIntensity::Medium,
            };
            let dwell = v.dwell + 1;
            if should_change(committed, raw_mood, sig, dwell, min_dwell, role) {
                let new_mood = if raw_mood != committed && sig.strong_override {
                    raw_mood
                } else {
                    sig.candidate
                };
                &&& w == DirectorView {
                    committed_mood: Some(new_mood),
                    committed_intensity: Some(sig.smoothed_intensity),
                    dwell: 1u32,
                    ..v
                }
                &&& d == CoreDecision {
                    committed_mood: new_mood,
                    committed_intensity: sig.smoothed_intensity,
                    mood_changed: true,
                    intensity_changed: sig.smoothed_intensity != prev_intensity,
                    dwell_count: 1,
                }
            } else {
                &&& w == DirectorView {
                    committed_intensity: if sig.smoothed_intensity != prev_intensity {
                        Some(sig.smoothed_intensity)
                    } else {
                        v.committed_intensity
                    },
                    dwell: dwell as u32,
                    ..v
                }
                &&& d == CoreDecision {
                    committed_mood: committed,
                    committed_intensity: sig.smoothed_intensity,
                    mood_changed: false,
                    intensity_changed: sig.smoothed_intensity != prev_intensity,
                    dwell_count: dwell as u32,
                }
            }
        },
    }
}

impl<A> DirectorCore<A> {
    pub open spec fn view(&self) -> DirectorView<A> {
        DirectorView {
            window: self.window@,
            committed_mood: self.committed_mood,
            committed_intensity: self.committed_intensity,
            dwell: self.dwell_counter,
            chapter: match self.current_chapter {
                Some(c) => Some(c@),
                None => None,
            },
        }
    }

    pub fn new() -> (c: Self)
        ensures
            c@ == fresh::<A>(),
    {
        let c = DirectorCore {
            window: Vec::new(),
            committed_mood: None,
            committed_intensity: None,
            dwell_counter: 0,
            current_chapter: None,
        };
        assert(c@.window =~= Seq::<A>::empty());
        c
    }

    /// Forgets everything: window, committed mood and intensity, dwell, chapter.
    pub fn reset(&mut self)
        ensures
            final(self)@ == fresh::<A>(),
    {
        self.window.clear();
        self.committed_mood = None;
        self.committed_intensity = None;
        self.dwell_counter = 0;
        self.current_chapter = None;
        assert(self@.window =~= Seq::<A>::empty());
    }

    /// Takes a page of `chapter` into the window, starting over when the chapter
    /// changed; returns the committed mood the page is weighed against.
    pub fn take_page(&mut self, item: A, chapter: Option<&str>, window_size: usize) -> (committed: Option<BaseMood>)
        ensures
            ({
                let ch = match chapter {
                    Some(c) => Some(c@),
                    None => None,
                };
                &&& final(self)@ == taken(old(self)@, item, ch, window_size as nat)
                &&& committed == final(self)@.committed_mood
            }),
    {
        let same = match (&self.current_chapter, chapter) {
            (Some(c), Some(d)) => str_eq(c.as_str(), d),
            (None, None) => true,
            _ => false,
        };
        if !same {
            self.reset();
            self.current_chapter = match chapter {
                Some(c) => Some(c.to_string()),
                None => None,
            };
        }
        let ghost before = self.window@;
        self.window.push(item);
        if self.window.len() > window_size {
            self.window.remove(0);
        }
        proof {
            let p = before.push(item);
            if p.len() > window_size {
                assert(self.window@ =~= p.drop_first());
            }
        }
        self.committed_mood
    }

    /// Decides on the page that just joined the window, from the signals the
    /// window gives; `min_dwell` is the configured dwell.
    pub fn decide(
        &mut self,
        raw_mood: BaseMood,
        raw_intensity: MoodIntensity,
        role: NarrativeRole,
        signals: DirectorSignals,
        min_dwell: u32,
    ) -> (d: CoreDecision)
        requires
            old(self).dwell_counter < u32::MAX,
        ensures
            decided(old(self)@, raw_mood, raw_intensity, role, signals, min_dwell, final(self)@, d),
    {
        let committed = match self.committed_mood {
            None => {
                self.committed_mood = Some(raw_mood);
                self.committed_intensity = Some(raw_intensity);
                self.dwell_counter = 1;
                return CoreDecision {
                    committed_mood: raw_mood,
                    committed_intensity: raw_intensity,
                    mood_changed: true,
                    intensity_changed: false,
                    dwell_count: 1,
                };
            },
            Some(m) => m,
        };
        let prev_intensity = match self.committed_intensity {
            Some(i) => i,
            None => MoodIntensity::Medium,
        };
        self.dwell_counter = self.dwell_counter + 1;
        let mut effective: u32 = min_dwell;
        if role == NarrativeRole::Climax {
            effective = if min_dwell >= 2 {
                min_dwell - 1
            } else {
                1
            };
        }
        let strong = raw_mood != committed && signals.strong_override;
        let change = if strong {
            true
        } else if signals.candidate == committed {
            false
        } else {
            signals.thresholds_met && self.dwell_counter >= effective
        };
        if change {
            let new_mood = if strong {
                raw_mood
            } else {
                signals.candidate
            };
            self.committed_mood = Some(new_mood);
            self.committed_intensity = Some(signals.smoothed_intensity);
            self.dwell_counter = 1;
            CoreDecision {
                committed_mood: new_mood,
                committed_intensity: signals.smoothed_intensity,
                mood_changed: true,
                intensity_changed: signals.smoothed_intensity != prev_intensity,
                dwell_count: 1,
            }
        } else {
            let intensity_changed = signals.smoothed_intensity != prev_intensity;
            if intensity_changed {
                self.committed_intensity = Some(signals.smoothed_intensity);
            }
            CoreDecision {
                committed_mood: committed,
                committed_intensity: signals.smoothed_intensity,
                mood_changed: false,
                intensity_changed,
                dwell_count: self.dwell_counter,
            }
        }
    }

    /// Trims the window to `window_size`, dropping the oldest items.
    pub fn trim_window(&mut self, window_size: usize)
        ensures
            final(self)@ == (DirectorView {
                window: if old(self)@.window.len() > window_size {
                    old(self)@.window.skip(old(self)@.window.len() - window_size)
                } else {
                    old(self)@.window
                },
                ..old(self)@
            }),
    {
        let ghost w0 = self.window@;
        assert(w0.skip(0) =~= w0);
        while self.window.len() > window_size
            invariant
                self.window@ == w0.skip(w0.len() - self.window@.len()),
                self.window@.len() <= w0.len(),
                (self.window@.len() < w0.len()) ==> (self.window@.len() >= window_size),
                self.committed_mood == old(self).committed_mood,
                self.committed_intensity == old(self).committed_intensity,
                self.dwell_counter == old(self).dwell_counter,
                self.current_chapter == old(self).current_chapter,
            decreases self.window@.len(),
        {
            let ghost before = self.window@;
            self.window.remove(0);
            assert(self.window@ =~= w0.skip(w0.len() - self.window@.len()));
        }
        proof {
            if w0.len() <= window_size {
                assert(w0.skip(0) =~= w0);
            }
        }
    }
}


/// The first page after a reset commits its own mood at once, with a dwell of one page.
pub proof fn lemma_first_page_commits<A>(
    v: DirectorView<A>,
    raw_mood: BaseMood,
    raw_intensity: MoodIntensity,
    role: NarrativeRole,
    sig: DirectorSignals,
    min_dwell: u32,
    w: DirectorView<A>,
    d: CoreDecision,
)
    requires
        v.committed_mood is None,
        decided(v, raw_mood, raw_intensity, role, sig, min_dwell, w, d),
    ensures
        d.mood_changed,
        d.committed_mood == raw_mood,
        d.committed_intensity == raw_intensity,
        w.committed_mood == Some(raw_mood),
        w.dwell == 1,
{
}

/// An overwhelming raw mood replaces the committed mood whatever the dwell.
pub proof fn lemma_strong_override_wins<A>(
    v: DirectorView<A>,
    raw_mood: BaseMood,
    raw_intensity: MoodIntensity,
    role: NarrativeRole,
    sig: DirectorSignals,
    min_dwell: u32,
    w: DirectorView<A>,
    d: CoreDecision,
)
    requires
        v.committed_mood matches Some(c) && c != raw_mood,
        sig.strong_override,
        decided(v, raw_mood, raw_intensity, role, sig, min_dwell, w, d),
    ensures
        d.mood_changed,
        d.committed_mood == raw_mood,
        w.committed_mood == Some(raw_mood),
        w.dwell == 1,
{
}

/// Without an overwhelming raw mood, the committed mood holds until it has
/// been held for the effective dwell.
pub proof fn lemma_dwell_holds_mood<A>(
    v: DirectorView<A>,
    raw_mood: BaseMood,
    raw_intensity: MoodIntensity,
    role: NarrativeRole,
    sig: DirectorSignals,
    min_dwell: u32,
    w: DirectorView<A>,
    d: CoreDecision,
)
    requires
        v.committed_mood matches Some(c) && !(c != raw_mood && sig.strong_override),
        v.dwell + 1 < effective_dwell(min_dwell, role),
        decided(v, raw_mood, raw_intensity, role, sig, min_dwell, w, d),
    ensures
        !d.mood_changed,
        w.committed_mood == v.committed_mood,
        w.dwell == v.dwell + 1,
{
}

/// A change of mood always restarts the dwell, and the decision reports the
/// committed mood of the new state.
pub proof fn lemma_change_restarts_dwell<A>(
    v: DirectorView<A>,
    raw_mood: BaseMood,
    raw_intensity: MoodIntensity,
    role: NarrativeRole,
    sig: DirectorSignals,
    min_dwell: u32,
    w: DirectorView<A>,
    d: CoreDecision,
)
    requires
        decided(v, raw_mood, raw_intensity, role, sig, min_dwell, w, d),
    ensures
        d.mood_changed ==> w.dwell == 1 && d.dwell_count == 1,
        w.committed_mood == Some(d.committed_mood),
        w.window == v.window,
        w.chapter == v.chapter,
{
}

/// A fresh director is in a reachable state, whatever its window size.
pub proof fn lemma_fresh_reachable<A>(size: nat)
    ensures
        reachable(fresh::<A>(), size),
{
}

/// One page through the director from a reachable state of the same chapter:
/// the new state holds the committed mood, intensity and dwell the decision
/// reports; a change restarts the dwell with another mood, and otherwise the
/// mood stays and the dwell grows by one; the state stays reachable.
pub proof fn lemma_page_decision<A>(
    v: DirectorView<A>,
    item: A,
    size: nat,
    raw_mood: BaseMood,
    raw_intensity: MoodIntensity,
    role: NarrativeRole,
    sig: DirectorSignals,
    min_dwell: u32,
    w: DirectorView<A>,
    d: CoreDecision,
)
    requires
        reachable(v, size),
        v.dwell < u32::MAX,
        decided(taken(v, item, v.chapter, size), raw_mood, raw_intensity, role, sig, min_dwell, w, d),
    ensures
        w.committed_mood == Some(d.committed_mood),
        w.committed_intensity == Some(d.committed_intensity),
        w.dwell == d.dwell_count,
        d.mood_changed ==> d.dwell_count == 1 && Some(d.committed_mood) != v.committed_mood,
        !d.mood_changed ==> Some(d.committed_mood) == v.committed_mood && d.dwell_count == v.dwell + 1,
        w.window.len() <= size,
        reachable(w, size),
{
}

/// Taking a page of any chapter keeps a state reachable.
pub proof fn lemma_taken_reachable<A>(v: DirectorView<A>, item: A, ch: Option<Seq<char>>, size: nat)
    requires
        reachable(v, size),
    ensures
        reachable(taken(v, item, ch, size), size),
{
}

/// Every role's name reads back as that role.
pub proof fn lemma_role_name_roundtrip(r: NarrativeRole)
    ensures
        role_from_name(lowercased(trim_seq(role_name(r)))) == Some(r),
{
    reveal_strlit("continuation");
    reveal_strlit("escalation");
    reveal_strlit("de_escalation");
    reveal_strlit("de-escalation");
    reveal_strlit("transition");
    reveal_strlit("climax");
    lemma_plain_lower(role_name(r));
}

/// On ASCII text, reading a role ignores case and surrounding whitespace:
/// the text trimmed and lowercased reads as the same role as the text.
pub proof fn lemma_role_normalization(s: Seq<char>)
    requires
        is_ascii_seq(s),
    ensures
        role_from_name(lowercased(trim_seq(lowercased(trim_seq(s))))) == role_from_name(lowercased(trim_seq(s))),
{
    lemma_normalized_ascii(s);
}

/// The effective dwell is never below one page, and a climax shortens it by one.
pub proof fn lemma_effective_dwell(min_dwell: u32, role: NarrativeRole)
    ensures
        role == NarrativeRole::Climax ==> effective_dwell(min_dwell, role) >= 1,
        role == NarrativeRole::Climax && min_dwell >= 2 ==> effective_dwell(min_dwell, role) == min_dwell - 1,
        role != NarrativeRole::Climax ==> effective_dwell(min_dwell, role) == min_dwell,
{
}

} // verus!
