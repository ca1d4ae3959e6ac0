//! Live analysis of the pages the reader has on screen: the complete
//! five-page windows among them vote, the votes are aggregated per page, the
//! selective repairs are applied, and the verdict for the focused page is
//! returned. The model calls in between are made by the caller.

use vstd::prelude::*;

use crate::director::{single_weights, MoodScores};
use crate::page_map::{sorted_keys, sorted_set, PageMap};
use crate::pipeline::{action_page_ok, left_of, noted, right_of, ActionPage, ActionTriplet};
use crate::text::{dec, push_dec};
use crate::types::{BaseMood, MoodIntensity};
use crate::winner::{
    accepted_pair, accepted_single, accepts_pair, accepts_single, aggregate_majority, all_present, infer_narrative_role,
    moods_along, plan_selective_repairs, plans_view, repair_plans, role_for, verdict_of, wide_context,
    AggregatedPrediction, RepairAcceptPair, RepairAcceptSingle, RepairPlan, SelectivePrompt, WindowPrediction,
};

verus! {

/// Page `p` occurs among the members from position `from` on.
pub open spec fn has_member(ms: Seq<ActionPage>, p: u32, from: int) -> bool {
    exists|i: int| from <= i < ms.len() && #[trigger] ms[i].page == p
}

/// `a` is the member of page `p` at the last position, from `from` on, that holds page `p`.
pub open spec fn last_member(ms: Seq<ActionPage>, p: u32, from: int, a: ActionPage) -> bool {
    exists|i: int|
        from <= i < ms.len() && #[trigger] ms[i].page == p && ms[i] == a && forall|j: int|
            i < j < ms.len() ==> ms[j].page != p
}

/// The pages among the members.
pub open spec fn member_pages(ms: Seq<ActionPage>) -> Set<u32> {
    Set::new(|p: u32| has_member(ms, p, 0))
}

/// Every page of the window centered on `c` is among `pages`.
pub open spec fn window_complete(pages: Set<u32>, c: u32, total: u32) -> bool {
    forall|i: int| 0 <= i < 5 ==> pages.contains(#[trigger] wide_context(c as int, total as int)[i])
}

/// The pages among the first `n` of `order` whose windows are complete, in order.
pub open spec fn complete_centers(order: Seq<u32>, pages: Set<u32>, total: u32, n: int) -> Seq<u32>
    decreases n,
{
    if n <= 0 {
        Seq::empty()
    } else if window_complete(pages, order[n - 1], total) {
        complete_centers(order, pages, total, n - 1).push(order[n - 1])
    } else {
        complete_centers(order, pages, total, n - 1)
    }
}

/// The centers of the complete windows among the members, ascending.
pub open spec fn visible_centers(ms: Seq<ActionPage>, total: u32) -> Seq<u32> {
    let order = sorted_set(member_pages(ms));
    complete_centers(order, member_pages(ms), total, order.len() as int)
}

pub open spec fn incomplete_message() -> Seq<char> {
    "Visible winner window is incomplete. Need a wider local chapter neighborhood."@
}

/// The repair prediction the model gave for a page, noted with the prompt used.
pub open spec fn repair_prediction_of(
    mood: BaseMood,
    intensity: MoodIntensity,
    prompt_kind: SelectivePrompt,
    p: AggregatedPrediction,
) -> bool {
    &&& p.mood == mood
    &&& p.intensity == intensity
    &&& p.winner_score == 0
    &&& p.runner_up_score == 0
    &&& p.scores.weights@ == single_weights(mood)
    &&& p.narrative_role == role_for(mood, intensity)
    &&& p.note matches Some(n) && n@ == (match prompt_kind {
        SelectivePrompt::Focus => "selective_focus"@,
        SelectivePrompt::Narrative => "selective_narrative"@,
    })
}

/// The prediction of a selective re-examination: the model's mood and
/// intensity, a full vote for that mood, noted with the prompt used.
pub fn repair_prediction(mood: BaseMood, intensity: MoodIntensity, prompt_kind: SelectivePrompt) -> (p:
    AggregatedPrediction)
    ensures
        repair_prediction_of(mood, intensity, prompt_kind, p),
{
    AggregatedPrediction {
        mood,
        intensity,
        winner_score: 0,
        runner_up_score: 0,
        scores: MoodScores::from_single(mood),
        narrative_role: infer_narrative_role(mood, intensity),
        note: Some(prompt_kind.note().to_string()),
    }
}

/// The visible pages under analysis and the verdicts gathered so far.
pub struct VisibleWindow {
    pub center: u32,
    pub total_pages: u32,
    pub members: PageMap<ActionPage>,
    pub page_order: Vec<u32>,
    pub window_centers: Vec<u32>,
    pub predictions: PageMap<AggregatedPrediction>,
}

impl VisibleWindow {
    /// Members are stored by their own page, ascending, and the window centers
    /// are the pages whose windows are complete.
    pub open spec fn wf(&self) -> bool {
        &&& self.members.wf()
        &&& self.predictions.wf()
        &&& forall|p: u32| #[trigger] self.members@.contains_key(p) ==> self.members@[p].page == p
        &&& self.page_order@ == sorted_keys(self.members@)
        &&& self.window_centers@ == complete_centers(
            self.page_order@,
            self.members@.dom(),
            self.total_pages,
            self.page_order@.len() as int,
        )
    }

    /// Takes the visible pages; a later member replaces an earlier one of the
    /// same page. Refused when no five-page window is complete.
    pub fn start(center: u32, total_pages: u32, members: Vec<ActionPage>) -> (r: Result<Self, String>)
        ensures
            match r {
                Ok(w) => {
                    &&& w.wf()
                    &&& w.center == center
                    &&& w.total_pages == total_pages
                    &&& w.members@.dom() == member_pages(members@)
                    &&& forall|p: u32| #[trigger]
                        w.members@.contains_key(p) ==> last_member(members@, p, 0, w.members@[p])
                    &&& w.window_centers@ == visible_centers(members@, total_pages)
                    &&& w.window_centers@.len() > 0
                    &&& w.predictions@ == Map::<u32, AggregatedPrediction>::empty()
                },
                Err(e) => e@ == incomplete_message() && visible_centers(members@, total_pages).len() == 0,
            },
    {
        let ghost ms = members@;
        let mut rest = members;
        let mut map: PageMap<ActionPage> = PageMap::new();
        while rest.len() > 0
            invariant
                map.wf(),
                rest@ == ms.take(rest@.len() as int),
                rest@.len() <= ms.len(),
                forall|p: u32| #[trigger] map@.contains_key(p) <==> has_member(ms, p, rest@.len() as int),
                forall|p: u32| #[trigger] map@.contains_key(p) ==> last_member(ms, p, rest@.len() as int, map@[p]),
                forall|p: u32| #[trigger] map@.contains_key(p) ==> map@[p].page == p,
            decreases rest@.len(),
        {
            let ghost k = (rest@.len() - 1) as int;
            let ghost m0 = map@;
            assert(forall|p: u32| #[trigger] m0.contains_key(p) ==> last_member(ms, p, k + 1, m0[p]));
            let a = rest.pop().unwrap();
            proof {
                assert(ms[k] == a);
                assert(rest@ =~= ms.take(k));
            }
            if !map.contains_key(&a.page) {
                let page = a.page;
                map.insert(page, a);
                proof {
                    assert forall|p: u32| #[trigger] map@.contains_key(p) implies last_member(ms, p, k, map@[p]) by {
                        if p == page {
                            assert forall|j: int| k < j < ms.len() implies ms[j].page != p by {
                                if ms[j].page == p {
                                    assert(has_member(ms, p, k + 1));
                                }
                            }
                            assert(ms[k].page == p && ms[k] == map@[p]);
                        } else {
                            assert(m0.contains_key(p) && map@[p] == m0[p]);
                            let i = choose|i: int|
                                k + 1 <= i < ms.len() && #[trigger] ms[i].page == p && ms[i] == m0[p] && forall|j: int|
                                    i < j < ms.len() ==> ms[j].page != p;
                            assert(k <= i);
                        }
                    }
                }
            } else {
                proof {
                    assert forall|p: u32| #[trigger] map@.contains_key(p) implies last_member(ms, p, k, map@[p]) by {
                        assert(m0.contains_key(p) && map@[p] == m0[p]);
                        let i = choose|i: int|
                            k + 1 <= i < ms.len() && #[trigger] ms[i].page == p && ms[i] == m0[p] && forall|j: int|
                                i < j < ms.len() ==> ms[j].page != p;
                        assert(k <= i);
                    }
                }
            }
            proof {
                assert forall|p: u32| #[trigger] map@.contains_key(p) <==> has_member(ms, p, k) by {
                    if has_member(ms, p, k) && p != ms[k].page {
                        let i = choose|i: int| k <= i < ms.len() && #[trigger] ms[i].page == p;
                        assert(i != k);
                        assert(has_member(ms, p, k + 1));
                    }
                    if map@.contains_key(p) && !has_member(ms, p, k) {
                        assert(p != ms[k].page);
                    }
                }
            }
        }
        proof {
            map.lemma_sorted();
            map.lemma_keys();
        }
        let page_order = map.keys();
        let mut window_centers: Vec<u32> = Vec::new();
        let mut i: usize = 0;
        while i < page_order.len()
            invariant
                map.wf(),
                page_order@ == sorted_keys(map@),
                i <= page_order@.len(),
                window_centers@ == complete_centers(page_order@, map@.dom(), total_pages, i as int),
            decreases page_order@.len() - i,
        {
            let c = page_order[i];
            let ctx = crate::winner::wide_context_indices(c, total_pages);
            let mut complete = true;
            let mut k: usize = 0;
            while k < 5
                invariant
                    map.wf(),
                    ctx@ == wide_context(c as int, total_pages as int),
                    k <= 5,
                    complete == (forall|j: int| 0 <= j < k ==> map@.contains_key(#[trigger] wide_context(c as int, total_pages as int)[j])),
                decreases 5 - k,
            {
                if !map.contains_key(&ctx[k]) {
                    complete = false;
                }
                k = k + 1;
            }
            if complete {
                window_centers.push(c);
            }
            i = i + 1;
        }
        proof {
            assert(map@.dom() =~= member_pages(ms));
        }
        if window_centers.len() == 0 {
            return Err("Visible winner window is incomplete. Need a wider local chapter neighborhood.".to_string());
        }
        Ok(
            VisibleWindow {
                center,
                total_pages,
                members: map,
                page_order,
                window_centers,
                predictions: PageMap::new(),
            },
        )
    }
}


/// `t` holds copies of the members for `page` and its neighbours.
pub open spec fn local_triplet_ok(m: Map<u32, ActionPage>, page: u32, total: u32, t: ActionTriplet) -> bool {
    &&& t.left.page == left_of(page) && t.left.raw_bytes@ == m[left_of(page)].raw_bytes@
    &&& t.center.page == page && t.center.raw_bytes@ == m[page].raw_bytes@
    &&& t.right.page == right_of(page, total) && t.right.raw_bytes@ == m[right_of(page, total)].raw_bytes@
}

pub open spec fn missing_page_message(center: u32) -> Seq<char> {
    "Visible page "@ + dec((center + 1) as nat) + " not produced by winner aggregation"@
}

impl VisibleWindow {
    /// The member holding `page`.
    pub fn member(&self, page: u32) -> (r: Option<&ActionPage>)
        requires
            self.wf(),
        ensures
            match r {
                Some(a) => self.members@.contains_key(page) && *a == self.members@[page],
                None => !self.members@.contains_key(page),
            },
    {
        self.members.get(&page)
    }

    /// Aggregates the votes of the windows per visible page and plans the
    /// selective repairs along the visible pages.
    pub fn aggregate(&mut self, votes: &Vec<WindowPrediction>) -> (plans: Vec<RepairPlan>)
        requires
            old(self).wf(),
            votes@.len() <= 0x1_0000_0000,
        ensures
            final(self).wf(),
            final(self).center == old(self).center,
            final(self).total_pages == old(self).total_pages,
            final(self).members@ == old(self).members@,
            final(self).page_order@ == old(self).page_order@,
            final(self).predictions@.dom() == old(self).members@.dom(),
            forall|p: u32| #[trigger]
                final(self).predictions@.contains_key(p) ==> verdict_of(votes@, p, final(self).predictions@[p]),
            plans_view(plans@) == repair_plans(
                old(self).page_order@,
                moods_along(old(self).page_order@, final(self).predictions@),
            ),
    {
        proof {
            self.members.lemma_sorted();
            self.members.lemma_keys();
        }
        let m = aggregate_majority(self.page_order.as_slice(), votes.as_slice());
        self.predictions = m;
        proof {
            assert(self.predictions@.dom() =~= old(self).members@.dom());
            assert(all_present(self.page_order@, self.predictions@));
        }
        plan_selective_repairs(self.page_order.as_slice(), &self.predictions)
    }

    /// The members for `page` and its neighbours, when all three are visible.
    pub fn local_triplet(&self, page: u32) -> (r: Option<ActionTriplet>)
        requires
            self.wf(),
            page < u32::MAX,
        ensures
            match r {
                Some(t) => self.members@.contains_key(left_of(page)) && self.members@.contains_key(page)
                    && self.members@.contains_key(right_of(page, self.total_pages)) && local_triplet_ok(
                    self.members@,
                    page,
                    self.total_pages,
                    t,
                ),
                None => !(self.members@.contains_key(left_of(page)) && self.members@.contains_key(page)
                    && self.members@.contains_key(right_of(page, self.total_pages))),
            },
    {
        let left: u32 = if page >= 1 { page - 1 } else { 0 };
        let last: u32 = if self.total_pages >= 1 { self.total_pages - 1 } else { 0 };
        let right: u32 = if page + 1 <= last { page + 1 } else { last };
        let l = match self.members.get(&left) {
            Some(a) => a.clone(),
            None => {
                return None;
            },
        };
        let c = match self.members.get(&page) {
            Some(a) => a.clone(),
            None => {
                return None;
            },
        };
        let r = match self.members.get(&right) {
            Some(a) => a.clone(),
            None => {
                return None;
            },
        };
        Some(ActionTriplet { left: l, center: c, right: r })
    }

    /// Takes in the re-examination of one page: an accepted answer replaces
    /// the page's verdict, noted with `reason`.
    pub fn apply_single(
        &mut self,
        page: u32,
        prediction: Option<AggregatedPrediction>,
        accept: RepairAcceptSingle,
        reason: &str,
    )
        requires
            old(self).wf(),
        ensures
            final(self).wf(),
            final(self).members@ == old(self).members@,
            final(self).page_order@ == old(self).page_order@,
            final(self).center == old(self).center,
            final(self).total_pages == old(self).total_pages,
            match prediction {
                Some(p) if accepted_single(p.mood, accept) => final(self).predictions@.contains_key(page) && noted(
                    p,
                    final(self).predictions@[page],
                    reason@,
                ) && final(self).predictions@ == old(self).predictions@.insert(page, final(self).predictions@[page]),
                _ => final(self).predictions@ == old(self).predictions@,
            },
    {
        match prediction {
            Some(p) => {
                if accepts_single(&p, accept) {
                    let mut replacement = p;
                    replacement.note = Some(reason.to_string());
                    self.predictions.insert(page, replacement);
                }
            },
            None => {},
        }
    }

    /// Takes in the re-examination of two pages: when both answers exist and
    /// are accepted together, they replace the verdicts, noted with `reason`.
    pub fn apply_pair(
        &mut self,
        first_page: u32,
        second_page: u32,
        first: Option<AggregatedPrediction>,
        second: Option<AggregatedPrediction>,
        accept: RepairAcceptPair,
        reason: &str,
    )
        requires
            old(self).wf(),
        ensures
            final(self).wf(),
            final(self).members@ == old(self).members@,
            final(self).page_order@ == old(self).page_order@,
            final(self).center == old(self).center,
            final(self).total_pages == old(self).total_pages,
            match (first, second) {
                (Some(a), Some(b)) if accepted_pair(a.mood, b.mood, accept) => exists|qa: AggregatedPrediction, qb: AggregatedPrediction|
                    #![trigger noted(a, qa, reason@), noted(b, qb, reason@)]
                    noted(a, qa, reason@) && noted(b, qb, reason@) && final(self).predictions@
                        == old(self).predictions@.insert(first_page, qa).insert(second_page, qb),
                _ => final(self).predictions@ == old(self).predictions@,
            },
    {
        match (first, second) {
            (Some(a), Some(b)) => {
                if accepts_pair(&a, &b, accept) {
                    let mut qa = a;
                    qa.note = Some(reason.to_string());
                    let mut qb = b;
                    qb.note = Some(reason.to_string());
                    let ghost (ga, gb) = (qa, qb);
                    self.predictions.insert(first_page, qa);
                    self.predictions.insert(second_page, qb);
                    assert(noted(a, ga, reason@) && noted(b, gb, reason@));
                }
            },
            _ => {},
        }
    }

    /// The verdict of the focused page, taken out of the verdicts.
    pub fn finish(&mut self) -> (r: Result<AggregatedPrediction, String>)
        requires
            old(self).wf(),
            old(self).center < u32::MAX || old(self).predictions@.contains_key(old(self).center),
        ensures
            final(self).wf(),
            final(self).predictions@ == old(self).predictions@.remove(old(self).center),
            match r {
                Ok(p) => old(self).predictions@.contains_key(old(self).center) && p == old(self).predictions@[old(
                    self,
                ).center],
                Err(e) => !old(self).predictions@.contains_key(old(self).center) && e@ == missing_page_message(
                    old(self).center,
                ),
            },
    {
        match self.predictions.remove(&self.center) {
            Some(p) => Ok(p),
            None => {
                let mut msg = "Visible page ".to_string();
                push_dec(&mut msg, self.center + 1);
                msg.append(" not produced by winner aggregation");
                Err(msg)
            },
        }
    }
}

} // verus!
