//! The in-memory cache of page moods for the chapter being read.
//!
//! Entries are keyed by page and belong to the current chapter: storing a mood
//! for another chapter first empties the cache.

use vstd::prelude::*;

use crate::director::{MoodScores, NarrativeRole};
use crate::page_map::{sorted_keys, PageMap};
use crate::text::str_eq;
use crate::types::{BaseMood, MoodIntensity};

verus! {

/// Which analysis produced a cached mood.
#[derive(Debug, Clone, Copy, PartialEq, Eq, Structural)]
pub enum CachedMoodSource {
    VisibleWindowAnalyze,
    ChapterPipeline,
}

/// A cached analysis result: mood, intensity, scores and narrative role.
#[derive(Debug, Clone, Copy)]
pub struct CachedMoodEntry {
    pub mood: BaseMood,
    pub intensity: MoodIntensity,
    pub scores: MoodScores,
    pub narrative_role: NarrativeRole,
    pub source: CachedMoodSource,
    pub finalized: bool,
}

/// Moods of the pages of the current chapter.
pub struct MoodCache {
    entries: PageMap<CachedMoodEntry>,
    current_chapter: Option<String>,
}

/// The cache as mathematical values: the current chapter and its entries by page.
pub struct MoodCacheView {
    pub chapter: Option<Seq<char>>,
    pub entries: Map<u32, CachedMoodEntry>,
}

/// The entry cached for `page` of `chapter`.
pub open spec fn lookup(v: MoodCacheView, chapter: Seq<char>, page: u32) -> Option<CachedMoodEntry> {
    if v.chapter == Some(chapter) && v.entries.contains_key(page) {
        Some(v.entries[page])
    } else {
        None
    }
}

/// The cache after storing `e` for `page` of `chapter`.
pub open spec fn stored(v: MoodCacheView, chapter: Seq<char>, page: u32, e: CachedMoodEntry) -> MoodCacheView {
    if v.chapter == Some(chapter) {
        MoodCacheView { chapter: v.chapter, entries: v.entries.insert(page, e) }
    } else {
        MoodCacheView { chapter: Some(chapter), entries: Map::empty().insert(page, e) }
    }
}

impl MoodCache {
    pub closed spec fn view(&self) -> MoodCacheView {
        MoodCacheView {
            chapter: match self.current_chapter {
                Some(c) => Some(c@),
                None => None,
            },
            entries: self.entries@,
        }
    }

    /// Without a current chapter the cache is empty.
    pub closed spec fn wf(&self) -> bool {
        &&& self.entries.wf()
        &&& self.current_chapter is None ==> self.entries@ == Map::<u32, CachedMoodEntry>::empty()
    }

    pub fn new() -> (c: Self)
        ensures
            c.wf(),
            c@.chapter is None,
            c@.entries == Map::<u32, CachedMoodEntry>::empty(),
    {
        MoodCache { entries: PageMap::new(), current_chapter: None }
    }

    /// Stores a result; a result for another chapter first empties the cache.
    pub fn insert(
        &mut self,
        chapter: &str,
        page: u32,
        mood: BaseMood,
        intensity: MoodIntensity,
        scores: MoodScores,
        narrative_role: NarrativeRole,
        source: CachedMoodSource,
        finalized: bool,
    )
        requires
            old(self).wf(),
        ensures
            final(self).wf(),
            final(self)@ == stored(
                old(self)@,
                chapter@,
                page,
                CachedMoodEntry { mood, intensity, scores, narrative_role, source, finalized },
            ),
    {
        let same = match &self.current_chapter {
            Some(c) => str_eq(c.as_str(), chapter),
            None => false,
        };
        if !same {
            self.entries.clear();
            self.current_chapter = Some(chapter.to_string());
        }
        let e = CachedMoodEntry { mood, intensity, scores, narrative_role, source, finalized };
        self.entries.insert(page, e);
        proof {
            if !same {
                assert(self.entries@ =~= Map::<u32, CachedMoodEntry>::empty().insert(page, e));
            }
        }
    }

    /// The entry cached for `page` of `chapter`.
    pub fn get(&self, chapter: &str, page: u32) -> (r: Option<&CachedMoodEntry>)
        requires
            self.wf(),
        ensures
            r matches Some(e) ==> lookup(self@, chapter@, page) == Some(*e),
            r is None ==> lookup(self@, chapter@, page) is None,
    {
        match &self.current_chapter {
            Some(c) => {
                if str_eq(c.as_str(), chapter) {
                    self.entries.get(&page)
                } else {
                    None
                }
            },
            None => None,
        }
    }

    /// Forgets every entry and the current chapter.
    pub fn clear(&mut self)
        ensures
            final(self).wf(),
            final(self)@.chapter is None,
            final(self)@.entries == Map::<u32, CachedMoodEntry>::empty(),
    {
        self.entries.clear();
        self.current_chapter = None;
    }

    /// Number of cached entries.
    pub fn len(&self) -> (n: usize)
        requires
            self.wf(),
        ensures
            n == self@.entries.dom().len(),
    {
        self.entries.len()
    }

    /// The cached pages of the current chapter, ascending.
    pub fn pages(&self) -> (ps: Vec<u32>)
        requires
            self.wf(),
        ensures
            ps@ == sorted_keys(self@.entries),
    {
        proof {
            self.entries.lemma_sorted();
        }
        self.entries.keys()
    }

    /// The cached pages form a finite set.
    pub proof fn lemma_finite(&self)
        requires
            self.wf(),
        ensures
            self@.entries.dom().finite(),
    {
        self.entries.lemma_keys();
        assert(self.entries@.dom() =~= self.entries.key_seq().to_set());
        vstd::seq_lib::seq_to_set_is_finite(self.entries.key_seq());
    }

    /// The current chapter, if any.
    pub fn current_chapter(&self) -> (r: Option<&str>)
        ensures
            match r {
                Some(s) => self@.chapter == Some(s@),
                None => self@.chapter is None,
            },
    {
        match &self.current_chapter {
            Some(c) => Some(c.as_str()),
            None => None,
        }
    }
}


/// A stored mood is what a lookup of the same chapter and page gives back.
pub proof fn lemma_lookup_after_store(v: MoodCacheView, chapter: Seq<char>, page: u32, e: CachedMoodEntry)
    ensures
        lookup(stored(v, chapter, page, e), chapter, page) == Some(e),
{
}

/// Storing a mood leaves the other pages of the same chapter as they were.
pub proof fn lemma_store_keeps_other_pages(
    v: MoodCacheView,
    chapter: Seq<char>,
    page: u32,
    other: u32,
    e: CachedMoodEntry,
)
    requires
        v.chapter == Some(chapter),
        other != page,
    ensures
        lookup(stored(v, chapter, page, e), chapter, other) == lookup(v, chapter, other),
{
}

/// Storing a mood for another chapter forgets every mood of the previous one,
/// and nothing but the stored page is left.
pub proof fn lemma_chapter_change_clears(
    v: MoodCacheView,
    old_chapter: Seq<char>,
    chapter: Seq<char>,
    page: u32,
    other: u32,
    e: CachedMoodEntry,
)
    requires
        v.chapter == Some(old_chapter),
        old_chapter != chapter,
    ensures
        lookup(stored(v, chapter, page, e), old_chapter, other) is None,
        other != page ==> lookup(stored(v, chapter, page, e), chapter, other) is None,
        stored(v, chapter, page, e).entries.dom() == set![page],
{
    assert(stored(v, chapter, page, e).entries.dom() =~= set![page]);
}

/// Storing a mood for a page the current chapter has not cached adds one
/// entry, storing one for a cached page keeps the count, and storing one for
/// another chapter leaves a single entry.
pub proof fn lemma_store_count(v: MoodCacheView, chapter: Seq<char>, page: u32, e: CachedMoodEntry)
    requires
        v.entries.dom().finite(),
    ensures
        stored(v, chapter, page, e).entries.dom().finite(),
        stored(v, chapter, page, e).entries.dom().len() == if v.chapter == Some(chapter) {
            if v.entries.contains_key(page) {
                v.entries.dom().len()
            } else {
                v.entries.dom().len() + 1
            }
        } else {
            1
        },
{
    if v.chapter == Some(chapter) {
        assert(v.entries.insert(page, e).dom() =~= v.entries.dom().insert(page));
    } else {
        assert(stored(v, chapter, page, e).entries.dom() =~= set![page]);
    }
}

} // verus!
