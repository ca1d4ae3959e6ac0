//! The text of the requests sent to the vision model when it classifies,
//! revises or summarizes pages from text about them.

use vstd::prelude::*;

use crate::mood_parse::{FeaturesView, PageFeatures};
use crate::text::{dec, push_dec};

verus! {

pub open spec fn category_line(c: (Seq<char>, Seq<char>)) -> Seq<char> {
    "- "@ + c.0 + ": "@ + c.1 + "\n"@
}

/// One line per category, `- name: description`.
pub open spec fn category_lines(cats: Seq<(Seq<char>, Seq<char>)>) -> Seq<char>
    decreases cats.len(),
{
    if cats.len() == 0 {
        Seq::empty()
    } else {
        category_lines(cats.drop_last()) + category_line(cats.last())
    }
}

pub open spec fn feature_line(page: u32, f: FeaturesView) -> Seq<char> {
    "Page "@ + dec(page as nat) + ":  EMOTION="@ + f.emotion + "("@ + dec(f.intensity as nat) + ") NARRATIVE="@
        + f.narrative + " ATMOSPHERE="@ + f.atmosphere + "\n         CONTENT=\""@ + f.content + "\"\n"@
}

/// Two lines per page: its features, then its content in quotes.
pub open spec fn feature_lines(fs: Seq<(u32, FeaturesView)>) -> Seq<char>
    decreases fs.len(),
{
    if fs.len() == 0 {
        Seq::empty()
    } else {
        feature_lines(fs.drop_last()) + feature_line(fs.last().0, fs.last().1)
    }
}

pub open spec fn prompt_head() -> Seq<char> {
    "You are a manga soundtrack director. Assign a soundtrack category to each page based on its emotional profile and narrative context.\n\nCATEGORIES:\n"@
}

pub open spec fn prompt_tail() -> Seq<char> {
    "\nRULES:\n- Flashback/dream/thought pages: the MOOD comes from the emotional ARC, not the literal visual content. A dream of victory within a sadness arc = sadness, not triumph.\n- High intensity should reinforce the base mood, not create a separate category.\n- Pages in the same scene usually share a mood.\n- Consider the narrative flow across the full sequence.\n\nFor each page, output: PAGE N: category"@
}

/// The request text: the categories, the pages' features and the rules.
pub open spec fn features_prompt(cats: Seq<(Seq<char>, Seq<char>)>, fs: Seq<(u32, FeaturesView)>) -> Seq<char> {
    prompt_head() + category_lines(cats) + "\nPAGES:\n"@ + feature_lines(fs) + prompt_tail()
}

pub open spec fn cats_view(cats: Seq<(String, String)>) -> Seq<(Seq<char>, Seq<char>)> {
    cats.map_values(|c: (String, String)| (c.0@, c.1@))
}

pub open spec fn features_view(fs: Seq<(u32, PageFeatures)>) -> Seq<(u32, FeaturesView)> {
    fs.map_values(|f: (u32, PageFeatures)| (f.0, f.1.view()))
}

/// The classification request for a batch of pages described by their
/// features; none for an empty batch, which needs no request.
pub fn features_batch_prompt(features: &Vec<(u32, PageFeatures)>, categories: &Vec<(String, String)>) -> (r: Option<
    String,
>)
    ensures
        match r {
            Some(p) => features@.len() > 0 && p@ == features_prompt(cats_view(categories@), features_view(features@)),
            None => features@.len() == 0,
        },
{
    if features.len() == 0 {
        return None;
    }
    let mut p = String::new();
    p.append(
        "You are a manga soundtrack director. Assign a soundtrack category to each page based on its emotional profile and narrative context.\n\nCATEGORIES:\n",
    );
    let ghost cv = cats_view(categories@);
    let mut i: usize = 0;
    while i < categories.len()
        invariant
            i <= categories@.len(),
            cv == cats_view(categories@),
            p@ == prompt_head() + category_lines(cv.take(i as int)),
        decreases categories@.len() - i,
    {
        assert(cv.take(i + 1).drop_last() =~= cv.take(i as int));
        assert(cv.take(i + 1).last() == (categories@[i as int].0@, categories@[i as int].1@));
        p.append("- ");
        p.append(categories[i].0.as_str());
        p.append(": ");
        p.append(categories[i].1.as_str());
        p.append("\n");
        i = i + 1;
    }
    assert(cv.take(categories@.len() as int) =~= cv);
    p.append("\nPAGES:\n");
    let ghost head = p@;
    let ghost fv = features_view(features@);
    let mut j: usize = 0;
    while j < features.len()
        invariant
            j <= features@.len(),
            fv == features_view(features@),
            p@ == head + feature_lines(fv.take(j as int)),
        decreases features@.len() - j,
    {
        assert(fv.take(j + 1).drop_last() =~= fv.take(j as int));
        assert(fv.take(j + 1).last() == (features@[j as int].0, features@[j as int].1.view()));
        let page = features[j].0;
        let f = &features[j].1;
        p.append("Page ");
        push_dec(&mut p, page);
        p.append(":  EMOTION=");
        p.append(f.emotion.as_str());
        p.append("(");
        push_dec(&mut p, f.intensity as u32);
        p.append(") NARRATIVE=");
        p.append(f.narrative.as_str());
        p.append(" ATMOSPHERE=");
        p.append(f.atmosphere.as_str());
        p.append("\n         CONTENT=\"");
        p.append(f.content.as_str());
        p.append("\"\n");
        j = j + 1;
    }
    assert(fv.take(features@.len() as int) =~= fv);
    p.append(
        "\nRULES:\n- Flashback/dream/thought pages: the MOOD comes from the emotional ARC, not the literal visual content. A dream of victory within a sadness arc = sadness, not triumph.\n- High intensity should reinforce the base mood, not create a separate category.\n- Pages in the same scene usually share a mood.\n- Consider the narrative flow across the full sequence.\n\nFor each page, output: PAGE N: category",
    );
    Some(p)
}

/// Opening of the request that classifies pages from their descriptions.
pub const CLASSIFY_HEAD: &'static str = "You are a manga soundtrack director. Based on these page descriptions, assign a mood to each page for soundtrack purposes.\n\n";

/// Close of the request that classifies pages from their descriptions.
pub const CLASSIFY_TAIL: &'static str = "\nCategories: epic, tension, sadness, comedy, romance, horror, peaceful (calm daily life), mystery\n\nKeep the base mood even when the scene is very intense. Intensity is handled separately from the mood label.\n\nFor each page, output: PAGE N: mood";

/// Opening of the request that revises the moods read page by page.
pub const LABELS_HEAD: &'static str = "You are a narrative mood director for manga soundtrack selection.\n\nBelow are visual mood analysis results for consecutive manga pages, each analyzed independently by a vision AI model.\n\n";

/// Close of the request that revises the moods read page by page.
pub const LABELS_TAIL: &'static str = "\nFor each page, determine the FINAL mood for soundtrack selection.\n\nGuidelines:\n- The visual analysis is usually correct — only change if narrative context clearly suggests an error\n- Isolated outliers (one different mood surrounded by 3+ pages of the same mood) are likely errors\n- Common manga arcs: mystery/peaceful → tension → epic → sadness → peaceful\n- Same mood typically persists for 3-8 consecutive pages\n- Genuine transitions should be preserved — don't over-smooth\n- When unsure, keep the original visual analysis result\n\nReply with EXACTLY one line per page:\nPAGE [number]: [mood_name]\n\nAvailable moods: epic, tension, sadness, comedy, romance, horror, peaceful, mystery";

/// Opening of the request that confirms or corrects proposed moods.
pub const CORRECT_HEAD: &'static str = "You are a music director for a manga reader app. A vision model analyzed each page and proposed a mood for the soundtrack. It is usually correct, but it sometimes confuses visual intensity with the type of scene.\n\nFor each page you have:\n- The mood proposed by the vision model\n- A description of what happens on the page\n\nYour task: confirm the mood if correct, or correct it based on narrative context.\n\nAvailable moods: epic, tension, sadness, comedy, romance, horror, peaceful, mystery\n\nKey distinctions:\n- Intense crying/despair stays sadness\n- Intense confrontation or unresolved threat stays tension until there is real payoff\n- Clear payoff, triumph, or release belongs to epic\n- A scene can be visually intense but emotionally sad — trust the description\n- When unsure, keep the proposed mood\n\nPages:\n";

/// Close of the request that confirms or corrects proposed moods.
pub const CORRECT_TAIL: &'static str = "\nFor each page, reply: PAGE N: mood";

/// Close of the request that summarizes the arc of described pages.
pub const SUMMARY_TAIL: &'static str = "\nSummarize the narrative arc of these pages in 2-3 sentences. Focus on: what is happening, the emotional progression, and the atmosphere. Be factual and concise.";

/// The question asked about a page after its narrative context.
pub const CONTEXT_TAIL: &'static str = "Look at this manga page. Based on what you see AND the narrative context above, what is the mood of THIS page for soundtrack purposes?\n\nAnalyze step by step:\n1. What are the characters expressing? (faces, posture, gestures)\n2. What feeling does the author want the reader to experience?\n3. Classify as ONE mood from the list below.\n4. Rate the intensity from 1 (low) to 3 (high).\n\nMoods: epic, tension, sadness, comedy, romance, horror, peaceful, mystery\n\nReply format: mood intensity\nExample: tension 2";

// ─── Text-only batch requests ───────────────────────────────────────────────

/// `pre`, the page number, `mid`, the text and `post`, for each item in order.
pub open spec fn page_text_lines(items: Seq<(u32, Seq<char>)>, pre: Seq<char>, mid: Seq<char>, post: Seq<char>) -> Seq<
    char,
>
    decreases items.len(),
{
    if items.len() == 0 {
        Seq::empty()
    } else {
        page_text_lines(items.drop_last(), pre, mid, post) + pre + dec(items.last().0 as nat) + mid + items.last().1
            + post
    }
}

pub open spec fn items_view(items: Seq<(u32, String)>) -> Seq<(u32, Seq<char>)> {
    items.map_values(|i: (u32, String)| (i.0, i.1@))
}

fn push_page_text_lines(p: &mut String, items: &Vec<(u32, String)>, pre: &str, mid: &str, post: &str)
    ensures
        final(p)@ == old(p)@ + page_text_lines(items_view(items@), pre@, mid@, post@),
{
    let ghost start = p@;
    let ghost iv = items_view(items@);
    let mut i: usize = 0;
    while i < items.len()
        invariant
            i <= items@.len(),
            iv == items_view(items@),
            p@ == start + page_text_lines(iv.take(i as int), pre@, mid@, post@),
        decreases items@.len() - i,
    {
        assert(iv.take(i + 1).drop_last() =~= iv.take(i as int));
        assert(iv.take(i + 1).last() == (items@[i as int].0, items@[i as int].1@));
        p.append(pre);
        push_dec(p, items[i].0);
        p.append(mid);
        p.append(items[i].1.as_str());
        p.append(post);
        i = i + 1;
    }
    assert(iv.take(items@.len() as int) =~= iv);
}

pub open spec fn descriptions_prompt(descs: Seq<(u32, Seq<char>)>) -> Seq<char> {
    CLASSIFY_HEAD@ + page_text_lines(descs, "Page "@, ": \""@, "\"\n"@) + CLASSIFY_TAIL@
}

/// The request to give each described page a mood; none for no pages.
pub fn descriptions_batch_prompt(descriptions: &Vec<(u32, String)>) -> (r: Option<String>)
    ensures
        match r {
            Some(p) => descriptions@.len() > 0 && p@ == descriptions_prompt(items_view(descriptions@)),
            None => descriptions@.len() == 0,
        },
{
    if descriptions.len() == 0 {
        return None;
    }
    let mut p = String::new();
    p.append(CLASSIFY_HEAD);
    push_page_text_lines(&mut p, descriptions, "Page ", ": \"", "\"\n");
    p.append(CLASSIFY_TAIL);
    Some(p)
}

pub open spec fn labels_prompt(labels: Seq<(u32, Seq<char>)>) -> Seq<char> {
    LABELS_HEAD@ + page_text_lines(labels, "Page "@, ": "@, "\n"@) + LABELS_TAIL@
}

/// The request to revise the moods read page by page, from their sequence;
/// none for no pages.
pub fn labels_refinement_prompt(labels: &Vec<(u32, String)>) -> (r: Option<String>)
    ensures
        match r {
            Some(p) => labels@.len() > 0 && p@ == labels_prompt(items_view(labels@)),
            None => labels@.len() == 0,
        },
{
    if labels.len() == 0 {
        return None;
    }
    let mut p = String::new();
    p.append(LABELS_HEAD);
    push_page_text_lines(&mut p, labels, "Page ", ": ", "\n");
    p.append(LABELS_TAIL);
    Some(p)
}

pub open spec fn correction_line(page: u32, mood: Seq<char>, description: Seq<char>) -> Seq<char> {
    "Page "@ + dec(page as nat) + ": mood="@ + mood + " | \""@ + description + "\"\n"@
}

pub open spec fn correction_lines(pages: Seq<(u32, Seq<char>, Seq<char>)>) -> Seq<char>
    decreases pages.len(),
{
    if pages.len() == 0 {
        Seq::empty()
    } else {
        correction_lines(pages.drop_last()) + correction_line(pages.last().0, pages.last().1, pages.last().2)
    }
}

pub open spec fn triples_view(pages: Seq<(u32, String, String)>) -> Seq<(u32, Seq<char>, Seq<char>)> {
    pages.map_values(|t: (u32, String, String)| (t.0, t.1@, t.2@))
}

pub open spec fn correction_prompt_text(pages: Seq<(u32, Seq<char>, Seq<char>)>) -> Seq<char> {
    CORRECT_HEAD@ + correction_lines(pages) + CORRECT_TAIL@
}

/// The request to confirm or correct proposed moods from the pages'
/// descriptions; none for no pages.
pub fn correction_prompt(pages: &Vec<(u32, String, String)>) -> (r: Option<String>)
    ensures
        match r {
            Some(p) => pages@.len() > 0 && p@ == correction_prompt_text(triples_view(pages@)),
            None => pages@.len() == 0,
        },
{
    if pages.len() == 0 {
        return None;
    }
    let mut p = String::new();
    p.append(CORRECT_HEAD);
    let ghost start = p@;
    let ghost tv = triples_view(pages@);
    let mut i: usize = 0;
    while i < pages.len()
        invariant
            i <= pages@.len(),
            tv == triples_view(pages@),
            p@ == start + correction_lines(tv.take(i as int)),
        decreases pages@.len() - i,
    {
        assert(tv.take(i + 1).drop_last() =~= tv.take(i as int));
        assert(tv.take(i + 1).last() == (pages@[i as int].0, pages@[i as int].1@, pages@[i as int].2@));
        p.append("Page ");
        push_dec(&mut p, pages[i].0);
        p.append(": mood=");
        p.append(pages[i].1.as_str());
        p.append(" | \"");
        p.append(pages[i].2.as_str());
        p.append("\"\n");
        i = i + 1;
    }
    assert(tv.take(pages@.len() as int) =~= tv);
    p.append(CORRECT_TAIL);
    Some(p)
}

pub open spec fn summary_prompt_text(descs: Seq<(u32, Seq<char>)>) -> Seq<char> {
    "Here are descriptions of consecutive manga pages:\n\n"@ + page_text_lines(descs, "Page "@, ": "@, "\n\n"@)
        + SUMMARY_TAIL@
}

/// The request to summarize the arc of the described pages; none for no pages.
pub fn summary_prompt(descriptions: &Vec<(u32, String)>) -> (r: Option<String>)
    ensures
        match r {
            Some(p) => descriptions@.len() > 0 && p@ == summary_prompt_text(items_view(descriptions@)),
            None => descriptions@.len() == 0,
        },
{
    if descriptions.len() == 0 {
        return None;
    }
    let mut p = String::new();
    p.append("Here are descriptions of consecutive manga pages:\n\n");
    push_page_text_lines(&mut p, descriptions, "Page ", ": ", "\n\n");
    p.append(SUMMARY_TAIL);
    Some(p)
}

/// The context given before a page: the arc summary, the detailed previous
/// pages and the upcoming pages, each part only when there is something in it.
pub open spec fn context_block(
    previous: Seq<(u32, Seq<char>)>,
    next: Seq<(u32, Seq<char>)>,
    summary: Seq<char>,
) -> Seq<char> {
    (if summary.len() > 0 {
        "Narrative arc of earlier pages:\n"@ + summary + "\n\n"@
    } else {
        Seq::empty()
    }) + (if previous.len() > 0 {
        "Previous pages (detailed):\n"@ + page_text_lines(previous, "- Page "@, ": \""@, "\"\n"@) + "\n"@
    } else {
        Seq::empty()
    }) + (if next.len() > 0 {
        "Upcoming pages:\n"@ + page_text_lines(next, "- Page "@, ": "@, "\n"@) + "\n"@
    } else {
        Seq::empty()
    })
}

/// The request for one page's mood and intensity, after its narrative context.
pub fn context_prompt(previous: &Vec<(u32, String)>, next: &Vec<(u32, String)>, summary: &str) -> (p: String)
    ensures
        p@ == context_block(items_view(previous@), items_view(next@), summary@) + CONTEXT_TAIL@,
{
    let mut p = String::new();
    proof {
        reveal_strlit("");
    }
    let ghost s0 = p@;
    if summary.unicode_len() > 0 {
        p.append("Narrative arc of earlier pages:\n");
        p.append(summary);
        p.append("\n\n");
    }
    let ghost s1 = p@;
    if previous.len() > 0 {
        p.append("Previous pages (detailed):\n");
        push_page_text_lines(&mut p, previous, "- Page ", ": \"", "\"\n");
        p.append("\n");
    }
    let ghost s2 = p@;
    if next.len() > 0 {
        p.append("Upcoming pages:\n");
        push_page_text_lines(&mut p, next, "- Page ", ": ", "\n");
        p.append("\n");
    }
    assert(p@ =~= context_block(items_view(previous@), items_view(next@), summary@));
    p.append(CONTEXT_TAIL);
    p
}

} // verus!
