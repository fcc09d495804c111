//! Rendering a Markdown document: heading anchors and the table of contents,
//! highlighted code blocks, math, and image sources.
use vstd::prelude::*;
use vstd::string::*;
use crate::document::MarkdownSource;
use crate::markdown::events::{
    MdEvent, MdEventView, OPTION_FOOTNOTES, OPTION_HEADING_ATTRIBUTES, OPTION_MATH,
    OPTION_STRIKETHROUGH, OPTION_TABLES, OPTION_TASKLISTS, cmark_html, events_view,
    markdown_events, parse_events, push_html,
};
use crate::markdown::sanitize::{allowed_attributes, allowed_schemes, allowed_tags, ammonia_clean, clean, RelativeUrls};
use crate::path::{file_stem_of, path_file_stem};
use crate::markdown::highlight::{Highlighter, highlighted_code, mocha_view, plain_code, plain_code_html};
use crate::markdown::math::{math_html, render};
use crate::markdown::toc::{
    Slugger, TocItem, append_open, collect_from, count_occurrences, heading_rank,
    lemma_slug_results_after_fresh, slug_results, slug_results_after,
    lemma_numbered_anchors_distinct,
    numbered_anchor, rank_of, slug_base, toc_views,
};
use crate::text::{first_token, first_word, push_str, str_eq, trim, trim_seq};

verus! {

/// Index of the first event at or after `j` that ends a heading, or the
/// number of events.
pub open spec fn heading_close(ev: Seq<MdEventView>, j: int) -> int
    decreases ev.len() - j,
{
    if j >= ev.len() {
        ev.len() as int
    } else if j >= 0 && ev[j] is HeadingEnd {
        j
    } else {
        heading_close(ev, j + 1)
    }
}

/// Index of the first event at or after `j` that ends a code block, or the
/// number of events.
pub open spec fn code_close(ev: Seq<MdEventView>, j: int) -> int
    decreases ev.len() - j,
{
    if j >= ev.len() {
        ev.len() as int
    } else if j >= 0 && ev[j] is CodeBlockEnd {
        j
    } else {
        code_close(ev, j + 1)
    }
}

/// The text that an event inside a heading adds to the heading's text.
pub open spec fn heading_piece(e: MdEventView) -> Seq<char> {
    match e {
        MdEventView::Text(v) => v,
        MdEventView::Code(v) => v,
        MdEventView::InlineMath(v) => v,
        _ => Seq::empty(),
    }
}

/// An event inside a heading as it is written out: text, code and math
/// become plain text.
pub open spec fn heading_inner_event(e: MdEventView) -> MdEventView {
    match e {
        MdEventView::Text(v) => MdEventView::Text(v),
        MdEventView::Code(v) => MdEventView::Text(v),
        MdEventView::InlineMath(v) => MdEventView::Text(v),
        other => other,
    }
}

/// The text that an event inside a code block adds to its code.
pub open spec fn code_piece(e: MdEventView) -> Seq<char> {
    match e {
        MdEventView::Text(v) => v,
        MdEventView::Code(v) => v,
        _ => Seq::empty(),
    }
}

/// The text of the events `ev[a..b]` inside a heading.
pub open spec fn heading_text(ev: Seq<MdEventView>, a: int, b: int) -> Seq<char>
    decreases b - a,
{
    if b <= a {
        Seq::empty()
    } else {
        heading_text(ev, a, b - 1) + heading_piece(ev[b - 1])
    }
}

/// The events `ev[a..b]` inside a heading as they are written out.
pub open spec fn heading_inner(ev: Seq<MdEventView>, a: int, b: int) -> Seq<MdEventView>
    decreases b - a,
{
    if b <= a {
        Seq::empty()
    } else {
        heading_inner(ev, a, b - 1).push(heading_inner_event(ev[b - 1]))
    }
}

/// The code in the events `ev[a..b]` inside a code block.
pub open spec fn code_text(ev: Seq<MdEventView>, a: int, b: int) -> Seq<char>
    decreases b - a,
{
    if b <= a {
        Seq::empty()
    } else {
        code_text(ev, a, b - 1) + code_piece(ev[b - 1])
    }
}

/// The source that replaces an image's destination: the data URL resolved
/// for it (the first entry for that destination), or nothing.
pub open spec fn image_lookup(images: Seq<(Seq<char>, Seq<char>)>, raw: Seq<char>, k: int) -> Seq<char>
    decreases images.len() - k,
{
    if k < 0 || k >= images.len() {
        Seq::empty()
    } else if images[k].0 == raw {
        images[k].1
    } else {
        image_lookup(images, raw, k + 1)
    }
}

/// The HTML for a code block with the given fence info string.
pub open spec fn code_block_html(fence: Option<Seq<char>>, code: Seq<char>) -> Seq<char> {
    let language = match fence {
        Some(info) => first_token(info),
        None => Seq::empty(),
    };
    if language.len() == 0 {
        plain_code_html(language, code)
    } else {
        highlighted_code(mocha_view(), language, code)
    }
}

/// The index after a closing event at `j`, or the end when none was found.
pub open spec fn after(ev: Seq<MdEventView>, j: int) -> int {
    if j < ev.len() {
        j + 1
    } else {
        ev.len() as int
    }
}

pub proof fn lemma_heading_close(ev: Seq<MdEventView>, j: int)
    requires
        0 <= j <= ev.len(),
    ensures
        j <= heading_close(ev, j) <= ev.len(),
        heading_close(ev, j) < ev.len() ==> ev[heading_close(ev, j)] is HeadingEnd,
    decreases ev.len() - j,
{
    if j < ev.len() && !(ev[j] is HeadingEnd) {
        lemma_heading_close(ev, j + 1);
    }
}

pub proof fn lemma_code_close(ev: Seq<MdEventView>, j: int)
    requires
        0 <= j <= ev.len(),
    ensures
        j <= code_close(ev, j) <= ev.len(),
        code_close(ev, j) < ev.len() ==> ev[code_close(ev, j)] is CodeBlockEnd,
    decreases ev.len() - j,
{
    if j < ev.len() && !(ev[j] is CodeBlockEnd) {
        lemma_code_close(ev, j + 1);
    }
}

/// The events and table-of-contents entries that rendering writes for the
/// events from index `i` on, given the slug bases handed out before and the
/// resolved image sources.
///
/// A heading gets the anchor of its trimmed text (the `n`-th heading with
/// the same slug base gets `base-n`), its inner text, code and math are
/// written as text, and headings `H1`-`H4` with non-empty text enter the
/// table of contents. A code block becomes one HTML event, highlighted when
/// its fence names a language. Inline and display math become HTML spans.
/// An image's destination is replaced by its resolved source. All else is
/// written unchanged.
pub open spec fn render_from(
    ev: Seq<MdEventView>,
    i: int,
    seen: Seq<Seq<char>>,
    images: Seq<(Seq<char>, Seq<char>)>,
) -> (Seq<MdEventView>, Seq<(u8, Seq<char>, Seq<char>)>)
    decreases ev.len() - i,
{
    if i < 0 || i >= ev.len() {
        (Seq::empty(), Seq::empty())
    } else {
        match ev[i] {
            MdEventView::HeadingStart { level, id: _, classes, attrs } => {
                proof {
                    lemma_heading_close(ev, i + 1);
                }
                let j = heading_close(ev, i + 1);
                let text = trim_seq(heading_text(ev, i + 1, j));
                let base = slug_base(text);
                let anchor = numbered_anchor(base, count_occurrences(seen, base) + 1);
                let rank = rank_of(level);
                let items = if rank <= 4 && text.len() > 0 {
                    seq![(rank, anchor, text)]
                } else {
                    Seq::empty()
                };
                let written = seq![MdEventView::HeadingStart { level, id: Some(anchor), classes, attrs }]
                    + heading_inner(ev, i + 1, j).push(MdEventView::HeadingEnd { level });
                let rest = render_from(ev, after(ev, j), seen.push(base), images);
                (written + rest.0, items + rest.1)
            },
            MdEventView::CodeBlockStart { fence } => {
                proof {
                    lemma_code_close(ev, i + 1);
                }
                let j = code_close(ev, i + 1);
                let html = code_block_html(fence, code_text(ev, i + 1, j));
                let rest = render_from(ev, after(ev, j), seen, images);
                (seq![MdEventView::Html(html)] + rest.0, rest.1)
            },
            MdEventView::InlineMath(v) => {
                let rest = render_from(ev, i + 1, seen, images);
                (seq![MdEventView::Html(math_html(v, false))] + rest.0, rest.1)
            },
            MdEventView::DisplayMath(v) => {
                let rest = render_from(ev, i + 1, seen, images);
                (seq![MdEventView::Html(math_html(v, true))] + rest.0, rest.1)
            },
            MdEventView::ImageStart { link_type, dest_url, title, label } => {
                let rest = render_from(ev, i + 1, seen, images);
                (
                    seq![
                        MdEventView::ImageStart {
                            link_type,
                            dest_url: image_lookup(images, dest_url, 0),
                            title,
                            label,
                        },
                    ] + rest.0,
                    rest.1,
                )
            },
            other => {
                let rest = render_from(ev, i + 1, seen, images);
                (seq![other] + rest.0, rest.1)
            },
        }
    }
}

/// The views of a table of resolved image sources.
pub open spec fn images_view(images: Seq<(String, String)>) -> Seq<(Seq<char>, Seq<char>)> {
    images.map_values(|p: (String, String)| (p.0@, p.1@))
}

/// Takes the event at `i` out of the list, leaving a placeholder.
fn take_event(events: &mut Vec<MdEvent>, i: usize) -> (e: MdEvent)
    requires
        i < old(events)@.len(),
    ensures
        e == old(events)@[i as int],
        final(events)@.len() == old(events)@.len(),
        forall|k: int| 0 <= k < final(events)@.len() && k != i ==> final(events)@[k] == old(events)@[k],
{
    let mut slot = MdEvent::CodeBlockEnd;
    std::mem::swap(&mut events[i], &mut slot);
    slot
}

/// Takes the events of a heading from `start` up to and including its end:
/// returns the heading's text, its inner events as written, and the index
/// after its end.
fn collect_heading(events: &mut Vec<MdEvent>, start: usize, Ghost(ev): Ghost<Seq<MdEventView>>) -> (r: (
    String,
    Vec<MdEvent>,
    usize,
))
    requires
        start <= old(events)@.len() == ev.len(),
        forall|k: int| start <= k < ev.len() ==> (#[trigger] old(events)@[k])@ == ev[k],
    ensures
        r.2 == after(ev, heading_close(ev, start as int)),
        r.0@ == heading_text(ev, start as int, heading_close(ev, start as int)),
        events_view(r.1@) == heading_inner(ev, start as int, heading_close(ev, start as int)),
        final(events)@.len() == ev.len(),
        forall|k: int| r.2 <= k < ev.len() ==> (#[trigger] final(events)@[k])@ == ev[k],
{
    let n = events.len();
    let mut text = String::new();
    let mut inner: Vec<MdEvent> = Vec::new();
    let mut i = start;
    let mut closed = false;
    proof {
        lemma_heading_close(ev, start as int);
        assert(events_view(inner@) =~= heading_inner(ev, start as int, start as int));
    }
    while i < n && !closed
        invariant
            start <= i <= n == ev.len() == events@.len(),
            forall|k: int| i <= k < n ==> (#[trigger] events@[k])@ == ev[k],
            !closed ==> heading_close(ev, start as int) == heading_close(ev, i as int),
            !closed ==> text@ == heading_text(ev, start as int, i as int),
            !closed ==> events_view(inner@) == heading_inner(ev, start as int, i as int),
            closed ==> i >= 1 && heading_close(ev, start as int) == i - 1,
            closed ==> text@ == heading_text(ev, start as int, i - 1),
            closed ==> events_view(inner@) == heading_inner(ev, start as int, i - 1),
        decreases n - i,
    {
        let e = take_event(events, i);
        proof {
            lemma_heading_close(ev, i as int);
        }
        let ghost before = events_view(inner@);
        match e {
            MdEvent::HeadingEnd { .. } => {
                closed = true;
            },
            MdEvent::Text(v) => {
                push_str(&mut text, v.as_str());
                inner.push(MdEvent::Text(v));
            },
            MdEvent::Code(v) => {
                push_str(&mut text, v.as_str());
                inner.push(MdEvent::Text(v));
            },
            MdEvent::InlineMath(v) => {
                push_str(&mut text, v.as_str());
                inner.push(MdEvent::Text(v));
            },
            other => {
                inner.push(other);
            },
        }
        proof {
            if !closed {
                assert(events_view(inner@) =~= before.push(heading_inner_event(ev[i as int])));
            }
        }
        i = i + 1;
    }
    proof {
        if !closed {
            assert(heading_close(ev, i as int) == n);
        }
    }
    (text, inner, i)
}

/// Takes the events of a code block from `start` up to and including its
/// end: returns its code and the index after its end.
fn collect_code(events: &mut Vec<MdEvent>, start: usize, Ghost(ev): Ghost<Seq<MdEventView>>) -> (r: (
    String,
    usize,
))
    requires
        start <= old(events)@.len() == ev.len(),
        forall|k: int| start <= k < ev.len() ==> (#[trigger] old(events)@[k])@ == ev[k],
    ensures
        r.1 == after(ev, code_close(ev, start as int)),
        r.0@ == code_text(ev, start as int, code_close(ev, start as int)),
        final(events)@.len() == ev.len(),
        forall|k: int| r.1 <= k < ev.len() ==> (#[trigger] final(events)@[k])@ == ev[k],
{
    let n = events.len();
    let mut code = String::new();
    let mut i = start;
    let mut closed = false;
    proof {
        lemma_code_close(ev, start as int);
    }
    while i < n && !closed
        invariant
            start <= i <= n == ev.len() == events@.len(),
            forall|k: int| i <= k < n ==> (#[trigger] events@[k])@ == ev[k],
            !closed ==> code_close(ev, start as int) == code_close(ev, i as int),
            !closed ==> code@ == code_text(ev, start as int, i as int),
            closed ==> i >= 1 && code_close(ev, start as int) == i - 1,
            closed ==> code@ == code_text(ev, start as int, i - 1),
        decreases n - i,
    {
        let e = take_event(events, i);
        proof {
            lemma_code_close(ev, i as int);
        }
        match e {
            MdEvent::CodeBlockEnd => {
                closed = true;
            },
            MdEvent::Text(v) => {
                push_str(&mut code, v.as_str());
            },
            MdEvent::Code(v) => {
                push_str(&mut code, v.as_str());
            },
            _ => {},
        }
        i = i + 1;
    }
    proof {
        if !closed {
            assert(code_close(ev, i as int) == n);
        }
    }
    (code, i)
}

/// Rewrites the events of a document for display and collects its table of
/// contents: see `render_from`.
pub fn render_events(events: Vec<MdEvent>, images: &Vec<(String, String)>) -> (r: (
    Vec<MdEvent>,
    Vec<TocItem>,
))
    ensures
        events_view(r.0@) == render_from(events_view(events@), 0, Seq::empty(), images_view(images@)).0,
        toc_views(r.1@) == render_from(events_view(events@), 0, Seq::empty(), images_view(images@)).1,
{
    let ghost ev = events_view(events@);
    let ghost imgs = images_view(images@);
    let ghost total = render_from(ev, 0, Seq::empty(), imgs);
    let mut events = events;
    let n = events.len();
    let mut out: Vec<MdEvent> = Vec::new();
    let mut toc: Vec<TocItem> = Vec::new();
    let mut slugger = Slugger::new();
    let mut highlighter: Option<Highlighter> = None;
    let mut i: usize = 0;
    proof {
        assert(events_view(out@) + total.0 =~= total.0);
        assert(toc_views(toc@) + total.1 =~= total.1);
    }
    while i < n
        invariant
            i <= n == ev.len() == events@.len(),
            imgs == images_view(images@),
            total == render_from(ev, 0, Seq::empty(), imgs),
            forall|k: int| i <= k < n ==> (#[trigger] events@[k])@ == ev[k],
            slugger@.len() <= i,
            events_view(out@) + render_from(ev, i as int, slugger@, imgs).0 == total.0,
            toc_views(toc@) + render_from(ev, i as int, slugger@, imgs).1 == total.1,
            highlighter matches Some(h) ==> h.theme_view() == mocha_view(),
        decreases n - i,
    {
        let ghost out_before = events_view(out@);
        let ghost toc_before = toc_views(toc@);
        let ghost seen = slugger@;
        let ghost step = render_from(ev, i as int, seen, imgs);
        let ghost old_i = i as int;
        let event = take_event(&mut events, i);
        proof {
            assert(event@ == ev[i as int]);
        }
        match event {
            MdEvent::HeadingStart { level, id: _, classes, attrs } => {
                proof {
                    lemma_heading_close(ev, i + 1);
                }
                let (text, mut inner, next) = collect_heading(&mut events, i + 1, Ghost(ev));
                let trimmed = trim(text.as_str());
                let rank = heading_rank(level);
                let id = slugger.slug(trimmed.as_str());
                if rank <= 4 && !trimmed.as_str().is_empty() {
                    toc.push(TocItem { level: rank, id: id.clone(), text: trimmed });
                }
                let ghost inner_v = events_view(inner@);
                out.push(MdEvent::HeadingStart { level, id: Some(id), classes, attrs });
                out.append(&mut inner);
                out.push(MdEvent::HeadingEnd { level });
                i = next;
                proof {
                    let j = heading_close(ev, old_i + 1);
                    let written = seq![
                        MdEventView::HeadingStart {
                            level,
                            id: Some(id@),
                            classes: classes@,
                            attrs: attrs@,
                        },
                    ] + inner_v.push(MdEventView::HeadingEnd { level });
                    assert(events_view(out@) =~= out_before + written);
                    assert(out_before + written + render_from(ev, i as int, slugger@, imgs).0
                        =~= out_before + step.0);
                    assert(toc_views(toc@) + render_from(ev, i as int, slugger@, imgs).1
                        =~= toc_before + step.1);
                }
            },
            MdEvent::CodeBlockStart { fence } => {
                proof {
                    lemma_code_close(ev, i + 1);
                }
                let (code, next) = collect_code(&mut events, i + 1, Ghost(ev));
                let language = match &fence {
                    Some(info) => first_language_token(info.as_str()),
                    None => String::new(),
                };
                let html = if language.as_str().is_empty() {
                    plain_code(language.as_str(), code.as_str())
                } else {
                    let h = match highlighter {
                        Some(h) => h,
                        None => Highlighter::new(),
                    };
                    let html = h.highlight(language.as_str(), code.as_str());
                    highlighter = Some(h);
                    html
                };
                out.push(MdEvent::Html(html));
                i = next;
                proof {
                    assert(events_view(out@) =~= out_before.push(out@.last()@));
                    assert(out_before.push(out@.last()@) + render_from(ev, i as int, slugger@, imgs).0
                        =~= out_before + step.0);
                }
            },
            MdEvent::InlineMath(v) => {
                out.push(MdEvent::Html(render(v.as_str(), false)));
                i = i + 1;
                proof {
                    assert(events_view(out@) =~= out_before.push(out@.last()@));
                    assert(out_before.push(out@.last()@) + render_from(ev, i as int, slugger@, imgs).0
                        =~= out_before + step.0);
                }
            },
            MdEvent::DisplayMath(v) => {
                out.push(MdEvent::Html(render(v.as_str(), true)));
                i = i + 1;
                proof {
                    assert(events_view(out@) =~= out_before.push(out@.last()@));
                    assert(out_before.push(out@.last()@) + render_from(ev, i as int, slugger@, imgs).0
                        =~= out_before + step.0);
                }
            },
            MdEvent::ImageStart { link_type, dest_url, title, label } => {
                let src = image_src(images, dest_url.as_str());
                out.push(MdEvent::ImageStart { link_type, dest_url: src, title, label });
                i = i + 1;
                proof {
                    assert(events_view(out@) =~= out_before.push(out@.last()@));
                    assert(out_before.push(out@.last()@) + render_from(ev, i as int, slugger@, imgs).0
                        =~= out_before + step.0);
                }
            },
            other => {
                out.push(other);
                i = i + 1;
                proof {
                    assert(events_view(out@) =~= out_before.push(out@.last()@));
                    assert(out_before.push(out@.last()@) + render_from(ev, i as int, slugger@, imgs).0
                        =~= out_before + step.0);
                }
            },
        }
    }
    proof {
        assert(events_view(out@) =~= total.0);
        assert(toc_views(toc@) =~= total.1);
    }
    (out, toc)
}

/// The source for an image: the resolved data URL for its destination, or
/// the empty string.
pub fn image_src(images: &Vec<(String, String)>, raw: &str) -> (r: String)
    ensures
        r@ == image_lookup(images_view(images@), raw@, 0),
{
    let ghost tbl = images_view(images@);
    let mut k: usize = 0;
    while k < images.len()
        invariant
            k <= images@.len(),
            tbl == images_view(images@),
            image_lookup(tbl, raw@, 0) == image_lookup(tbl, raw@, k as int),
        decreases images@.len() - k,
    {
        if str_eq(images[k].0.as_str(), raw) {
            return images[k].1.clone();
        }
        k = k + 1;
    }
    String::new()
}

/// The first word of a code fence's info string: the block's language.
pub fn first_language_token(info: &str) -> (r: String)
    ensures
        r@ == first_token(info@),
{
    first_word(info)
}

/// Whether an event starts a heading whose anchor is `anchor`.
pub open spec fn starts_heading_with(e: MdEventView, anchor: Seq<char>) -> bool {
    match e {
        MdEventView::HeadingStart { id: Some(a), .. } => a == anchor,
        _ => false,
    }
}

/// Every table-of-contents entry has a level from 1 to 4 and non-empty text.
pub proof fn lemma_toc_entries_shape(
    ev: Seq<MdEventView>,
    i: int,
    seen: Seq<Seq<char>>,
    images: Seq<(Seq<char>, Seq<char>)>,
)
    ensures
        forall|k: int|
            0 <= k < render_from(ev, i, seen, images).1.len() ==> toc_entry_ok(
                #[trigger] render_from(ev, i, seen, images).1[k],
            ),
    decreases ev.len() - i,
{
    let r = render_from(ev, i, seen, images);
    if 0 <= i < ev.len() {
        match ev[i] {
            MdEventView::HeadingStart { level, .. } => {
                lemma_heading_close(ev, i + 1);
                let j = heading_close(ev, i + 1);
                let text = trim_seq(heading_text(ev, i + 1, j));
                let base = slug_base(text);
                let anchor = numbered_anchor(base, count_occurrences(seen, base) + 1);
                let rank = rank_of(level);
                let items: Seq<(u8, Seq<char>, Seq<char>)> = if rank <= 4 && text.len() > 0 {
                    seq![(rank, anchor, text)]
                } else {
                    Seq::empty()
                };
                let rest = render_from(ev, after(ev, j), seen.push(base), images);
                lemma_toc_entries_shape(ev, after(ev, j), seen.push(base), images);
                assert(r.1 == items + rest.1);
                assert forall|k: int| 0 <= k < r.1.len() implies toc_entry_ok(#[trigger] r.1[k]) by {
                    if k < items.len() {
                        assert(r.1[k] == items[k]);
                    } else {
                        assert(r.1[k] == rest.1[k - items.len()]);
                    }
                }
            },
            MdEventView::CodeBlockStart { .. } => {
                lemma_code_close(ev, i + 1);
                lemma_toc_entries_shape(ev, after(ev, code_close(ev, i + 1)), seen, images);
                assert(r.1 == render_from(ev, after(ev, code_close(ev, i + 1)), seen, images).1);
            },
            _ => {
                lemma_toc_entries_shape(ev, i + 1, seen, images);
                assert(r.1 == render_from(ev, i + 1, seen, images).1);
            },
        }
    } else {
        assert(r.1.len() == 0);
    }
}

/// A table-of-contents entry has a level from 1 to 4 and non-empty text.
pub open spec fn toc_entry_ok(e: (u8, Seq<char>, Seq<char>)) -> bool {
    1 <= e.0 <= 4 && e.2.len() > 0
}

/// Every entry of `toc` is the anchor of some heading among `events`.
pub open spec fn toc_linked(events: Seq<MdEventView>, toc: Seq<(u8, Seq<char>, Seq<char>)>) -> bool {
    forall|k: int| 0 <= k < toc.len() ==> anchored(events, #[trigger] toc[k].1)
}

/// Some heading among `events` carries `anchor` as its id.
pub open spec fn anchored(events: Seq<MdEventView>, anchor: Seq<char>) -> bool {
    exists|j: int| 0 <= j < events.len() && starts_heading_with(#[trigger] events[j], anchor)
}

/// Links that survive a prefix of extra events.
pub proof fn lemma_toc_linked_shift(
    head: Seq<MdEventView>,
    rest: Seq<MdEventView>,
    toc: Seq<(u8, Seq<char>, Seq<char>)>,
)
    requires
        toc_linked(rest, toc),
    ensures
        toc_linked(head + rest, toc),
{
    assert forall|k: int| 0 <= k < toc.len() implies anchored(head + rest, #[trigger] toc[k].1) by {
        let t = toc[k];
        assert(anchored(rest, t.1));
        let x = choose|x: int| 0 <= x < rest.len() && starts_heading_with(#[trigger] rest[x], t.1);
        assert((head + rest)[x + head.len()] == rest[x]);
    }
}

/// Every table-of-contents entry links to a heading of the rendered
/// document: some written heading carries the entry's anchor as its id.
pub proof fn lemma_toc_anchors_written(
    ev: Seq<MdEventView>,
    i: int,
    seen: Seq<Seq<char>>,
    images: Seq<(Seq<char>, Seq<char>)>,
)
    ensures
        toc_linked(render_from(ev, i, seen, images).0, render_from(ev, i, seen, images).1),
    decreases ev.len() - i,
{
    let r = render_from(ev, i, seen, images);
    if 0 <= i < ev.len() {
        match ev[i] {
            MdEventView::HeadingStart { level, id: _, classes, attrs } => {
                lemma_heading_close(ev, i + 1);
                let j = heading_close(ev, i + 1);
                let text = trim_seq(heading_text(ev, i + 1, j));
                let base = slug_base(text);
                let anchor = numbered_anchor(base, count_occurrences(seen, base) + 1);
                let rank = rank_of(level);
                let items: Seq<(u8, Seq<char>, Seq<char>)> = if rank <= 4 && text.len() > 0 {
                    seq![(rank, anchor, text)]
                } else {
                    Seq::empty()
                };
                let written = seq![MdEventView::HeadingStart { level, id: Some(anchor), classes, attrs }]
                    + heading_inner(ev, i + 1, j).push(MdEventView::HeadingEnd { level });
                let rest = render_from(ev, after(ev, j), seen.push(base), images);
                lemma_toc_anchors_written(ev, after(ev, j), seen.push(base), images);
                lemma_toc_linked_shift(written, rest.0, rest.1);
                assert(r.0 == written + rest.0);
                assert(r.1 == items + rest.1);
                assert forall|k: int| 0 <= k < r.1.len() implies anchored(r.0, #[trigger] r.1[k].1) by {
                    if k < items.len() {
                        assert(r.1[k] == items[k]);
                        assert(r.0[0] == written[0]);
                        assert(starts_heading_with(r.0[0], r.1[k].1));
                    } else {
                        assert(r.1[k] == rest.1[k - items.len()]);
                    }
                }
                assert(toc_linked(r.0, r.1));
            },
            MdEventView::CodeBlockStart { fence } => {
                lemma_code_close(ev, i + 1);
                let j = code_close(ev, i + 1);
                let rest = render_from(ev, after(ev, j), seen, images);
                lemma_toc_anchors_written(ev, after(ev, j), seen, images);
                let head = seq![MdEventView::Html(code_block_html(fence, code_text(ev, i + 1, j)))];
                lemma_toc_linked_shift(head, rest.0, rest.1);
                assert(r.0 == head + rest.0);
                assert(r.1 == rest.1);
                assert(toc_linked(r.0, r.1));
            },
            _ => {
                let rest = render_from(ev, i + 1, seen, images);
                lemma_toc_anchors_written(ev, i + 1, seen, images);
                lemma_toc_linked_shift(seq![r.0[0]], rest.0, rest.1);
                assert(r.1 == rest.1);
                assert(r.0 == seq![r.0[0]] + rest.0);
                assert(toc_linked(r.0, r.1));
            },
        }
    }
}

/// For each table-of-contents entry, which occurrence of its slug base it
/// is (counting every heading, listed or not, and the bases in `seen`).
pub open spec fn toc_numbers(
    ev: Seq<MdEventView>,
    i: int,
    seen: Seq<Seq<char>>,
    images: Seq<(Seq<char>, Seq<char>)>,
) -> Seq<nat>
    decreases ev.len() - i,
{
    if i < 0 || i >= ev.len() {
        Seq::empty()
    } else {
        match ev[i] {
            MdEventView::HeadingStart { level, .. } => {
                proof {
                    lemma_heading_close(ev, i + 1);
                }
                let j = heading_close(ev, i + 1);
                let text = trim_seq(heading_text(ev, i + 1, j));
                let base = slug_base(text);
                let rest = toc_numbers(ev, after(ev, j), seen.push(base), images);
                if rank_of(level) <= 4 && text.len() > 0 {
                    seq![count_occurrences(seen, base) + 1] + rest
                } else {
                    rest
                }
            },
            MdEventView::CodeBlockStart { .. } => {
                proof {
                    lemma_code_close(ev, i + 1);
                }
                toc_numbers(ev, after(ev, code_close(ev, i + 1)), seen, images)
            },
            _ => toc_numbers(ev, i + 1, seen, images),
        }
    }
}

pub proof fn lemma_count_push(seen: Seq<Seq<char>>, x: Seq<char>, key: Seq<char>)
    ensures
        count_occurrences(seen.push(x), key) == count_occurrences(seen, key) + if x == key {
            1nat
        } else {
            0nat
        },
{
    assert(seen.push(x).drop_last() =~= seen);
}

/// The anchor of each table-of-contents entry is the numbered anchor of its
/// slug base, numbered after the bases in `seen`, and later entries with the
/// same base have higher numbers.
pub proof fn lemma_toc_numbering(
    ev: Seq<MdEventView>,
    i: int,
    seen: Seq<Seq<char>>,
    images: Seq<(Seq<char>, Seq<char>)>,
)
    ensures
        ({
            let toc = render_from(ev, i, seen, images).1;
            let nums = toc_numbers(ev, i, seen, images);
            &&& nums.len() == toc.len()
            &&& forall|k: int|
                0 <= k < toc.len() ==> (#[trigger] toc[k]).1 == numbered_anchor(
                    slug_base(toc[k].2),
                    nums[k],
                )
            &&& forall|k: int|
                0 <= k < toc.len() ==> #[trigger] nums[k] >= count_occurrences(seen, slug_base(toc[k].2)) + 1
            &&& forall|a: int, b: int|
                0 <= a < b < toc.len() && slug_base(toc[a].2) == slug_base(toc[b].2) ==> #[trigger] nums[a]
                    < #[trigger] nums[b]
        }),
    decreases ev.len() - i,
{
    let toc = render_from(ev, i, seen, images).1;
    let nums = toc_numbers(ev, i, seen, images);
    if 0 <= i < ev.len() {
        match ev[i] {
            MdEventView::HeadingStart { level, .. } => {
                lemma_heading_close(ev, i + 1);
                let j = heading_close(ev, i + 1);
                let text = trim_seq(heading_text(ev, i + 1, j));
                let base = slug_base(text);
                let seen2 = seen.push(base);
                let rt = render_from(ev, after(ev, j), seen2, images).1;
                let rn = toc_numbers(ev, after(ev, j), seen2, images);
                lemma_toc_numbering(ev, after(ev, j), seen2, images);
                assert forall|k: int| 0 <= k < rt.len() implies #[trigger] rn[k] >= count_occurrences(
                    seen,
                    slug_base(rt[k].2),
                ) + 1 + (if slug_base(rt[k].2) == base {
                    1nat
                } else {
                    0nat
                }) by {
                    lemma_count_push(seen, base, slug_base(rt[k].2));
                }
                if rank_of(level) <= 4 && text.len() > 0 {
                    let n0 = count_occurrences(seen, base) + 1;
                    let anchor = numbered_anchor(base, n0);
                    let item = (rank_of(level), anchor, text);
                    assert(toc == seq![item] + rt);
                    assert(nums == seq![n0] + rn);
                    assert forall|k: int| 0 <= k < toc.len() implies (#[trigger] toc[k]).1 == numbered_anchor(
                        slug_base(toc[k].2),
                        nums[k],
                    ) by {
                        if k > 0 {
                            assert(toc[k] == rt[k - 1]);
                            assert(nums[k] == rn[k - 1]);
                        }
                    }
                    assert forall|k: int| 0 <= k < toc.len() implies #[trigger] nums[k]
                        >= count_occurrences(seen, slug_base(toc[k].2)) + 1 by {
                        if k > 0 {
                            assert(toc[k] == rt[k - 1]);
                            assert(nums[k] == rn[k - 1]);
                        }
                    }
                    assert forall|a: int, b: int|
                        0 <= a < b < toc.len() && slug_base(toc[a].2) == slug_base(toc[b].2) implies #[trigger] nums[a]
                        < #[trigger] nums[b] by {
                        assert(toc[b] == rt[b - 1]);
                        assert(nums[b] == rn[b - 1]);
                        if a > 0 {
                            assert(toc[a] == rt[a - 1]);
                            assert(nums[a] == rn[a - 1]);
                        } else {
                            assert(toc[0] == item);
                            assert(slug_base(rt[b - 1].2) == base);
                        }
                    }
                } else {
                    assert(toc == rt);
                    assert(nums == rn);
                }
            },
            MdEventView::CodeBlockStart { .. } => {
                lemma_code_close(ev, i + 1);
                lemma_toc_numbering(ev, after(ev, code_close(ev, i + 1)), seen, images);
                assert(toc == render_from(ev, after(ev, code_close(ev, i + 1)), seen, images).1);
            },
            _ => {
                lemma_toc_numbering(ev, i + 1, seen, images);
                assert(toc == render_from(ev, i + 1, seen, images).1);
            },
        }
    } else {
        assert(toc.len() == 0);
    }
}

/// Two table-of-contents entries whose texts have the same slug base (two
/// headings with the same title, for instance) never share an anchor.
pub proof fn lemma_toc_anchors_distinct(
    ev: Seq<MdEventView>,
    images: Seq<(Seq<char>, Seq<char>)>,
    a: int,
    b: int,
)
    requires
        0 <= a < b < render_from(ev, 0, Seq::empty(), images).1.len(),
        slug_base(render_from(ev, 0, Seq::empty(), images).1[a].2) == slug_base(
            render_from(ev, 0, Seq::empty(), images).1[b].2,
        ),
    ensures
        render_from(ev, 0, Seq::empty(), images).1[a].1 != render_from(ev, 0, Seq::empty(), images).1[b].1,
{
    let toc = render_from(ev, 0, Seq::empty(), images).1;
    let nums = toc_numbers(ev, 0, Seq::empty(), images);
    lemma_toc_numbering(ev, 0, Seq::empty(), images);
    assert(toc[a].1 == numbered_anchor(slug_base(toc[a].2), nums[a]));
    assert(toc[b].1 == numbered_anchor(slug_base(toc[b].2), nums[b]));
    assert(nums[a] < nums[b]);
    assert(nums[a] >= 1);
    lemma_numbered_anchors_distinct(slug_base(toc[a].2), nums[a], nums[b]);
}

#[verifier::external_type_specification]
#[verifier::external_body]
pub struct ExInstant(std::time::Instant);

/// `Instant::now`. Nothing is stated of the reading.
#[verifier::external_body]
fn clock_now() -> std::time::Instant {
    std::time::Instant::now()
}

/// `Instant::elapsed` in whole milliseconds. Nothing is stated of it: it
/// depends on the time.
#[verifier::external_body]
fn elapsed_millis(start: &std::time::Instant) -> u128 {
    start.elapsed().as_millis()
}

/// The option bits the reader parses with: tables, footnotes,
/// strikethrough, task lists, heading attributes and math.
pub open spec fn reader_options() -> u32 {
    OPTION_TABLES | OPTION_FOOTNOTES | OPTION_STRIKETHROUGH | OPTION_TASKLISTS
        | OPTION_HEADING_ATTRIBUTES | OPTION_MATH
}

/// The option bits the reader parses with.
pub fn markdown_options() -> (r: u32)
    ensures
        r == reader_options(),
{
    OPTION_TABLES | OPTION_FOOTNOTES | OPTION_STRIKETHROUGH | OPTION_TASKLISTS
        | OPTION_HEADING_ATTRIBUTES | OPTION_MATH
}

/// The events and table of contents that rendering makes of a text.
pub open spec fn rendered(text: Seq<char>, options: u32, images: Seq<(Seq<char>, Seq<char>)>) -> (
    Seq<MdEventView>,
    Seq<(u8, Seq<char>, Seq<char>)>,
) {
    render_from(markdown_events(text, options), 0, Seq::empty(), images)
}

/// Renders Markdown to HTML (before cleaning), with its table of contents.
pub fn render_html(markdown: &str, options: u32, images: &Vec<(String, String)>) -> (r: (
    String,
    Vec<TocItem>,
))
    ensures
        r.0@ == cmark_html(rendered(markdown@, options, images_view(images@)).0),
        toc_views(r.1@) == rendered(markdown@, options, images_view(images@)).1,
{
    let events = parse_events(markdown, options);
    let (out, toc) = render_events(events, images);
    let html = push_html(out);
    (html, toc)
}

/// A rendered document: its title, path, clean HTML, table of contents and
/// how long rendering took.
pub struct RenderedDocument {
    pub title: String,
    pub path: String,
    pub html: String,
    pub toc: Vec<TocItem>,
    pub render_ms: u128,
}

/// A document's title: its first table-of-contents entry, else its file
/// name without extension, else `Markdown Reader`.
pub open spec fn document_title(toc: Seq<(u8, Seq<char>, Seq<char>)>, path: Seq<char>) -> Seq<char> {
    if toc.len() > 0 {
        toc[0].2
    } else {
        match path_file_stem(path) {
            Some(stem) => stem,
            None => "Markdown Reader"@,
        }
    }
}

/// A document's title is the text of the first entry of its table of
/// contents (its first heading `H1`-`H4` with text, in document order);
/// without one, the stem of its file name, else `Markdown Reader`.
pub proof fn lemma_document_title(toc: Seq<(u8, Seq<char>, Seq<char>)>, path: Seq<char>)
    ensures
        toc.len() > 0 ==> document_title(toc, path) == toc.first().2,
        toc.len() == 0 ==> document_title(toc, path) == match path_file_stem(path) {
            Some(stem) => stem,
            None => "Markdown Reader"@,
        },
{
}

/// The clean HTML of a rendered text.
pub open spec fn document_html(text: Seq<char>, images: Seq<(Seq<char>, Seq<char>)>) -> Seq<char> {
    ammonia_clean(
        cmark_html(rendered(text, reader_options(), images).0),
        allowed_tags(),
        allowed_attributes(),
        allowed_schemes(),
        RelativeUrls::Deny,
    )
}

/// Renders a document. `images` holds, for the image destinations that
/// name readable local files, the data URLs that inline them; every other
/// image gets an empty source.
pub fn render_document(source: &MarkdownSource, images: &Vec<(String, String)>) -> (r: RenderedDocument)
    ensures
        r.html@ == document_html(source.content@, images_view(images@)),
        toc_views(r.toc@) == rendered(source.content@, reader_options(), images_view(images@)).1,
        r.title@ == document_title(toc_views(r.toc@), source.path@),
        r.toc@.len() > 0 ==> r.title@ == r.toc@[0].text@,
        r.toc@.len() == 0 ==> r.title@ == match path_file_stem(source.path@) {
            Some(stem) => stem,
            None => "Markdown Reader"@,
        },
        r.path@ == source.path@,
{
    let started = clock_now();
    let options = markdown_options();
    let (html, toc) = render_html(source.content.as_str(), options, images);
    let html = clean(html.as_str());
    let title = if toc.len() > 0 {
        toc[0].text.clone()
    } else {
        match file_stem_of(source.path.as_str()) {
            Some(stem) => stem,
            None => String::from_str("Markdown Reader"),
        }
    };
    proof {
        lemma_document_title(toc_views(toc@), source.path@);
    }
    RenderedDocument {
        title,
        path: source.path.clone(),
        html,
        toc,
        render_ms: elapsed_millis(&started),
    }
}

/// The destinations of the images that rendering resolves, from index `i`
/// on, in order: images outside headings (an image inside a heading is
/// written unchanged).
pub open spec fn image_dests(ev: Seq<MdEventView>, i: int) -> Seq<Seq<char>>
    decreases ev.len() - i,
{
    if i < 0 || i >= ev.len() {
        Seq::empty()
    } else {
        match ev[i] {
            MdEventView::HeadingStart { .. } => {
                proof {
                    lemma_heading_close(ev, i + 1);
                }
                image_dests(ev, after(ev, heading_close(ev, i + 1)))
            },
            MdEventView::CodeBlockStart { .. } => {
                proof {
                    lemma_code_close(ev, i + 1);
                }
                image_dests(ev, after(ev, code_close(ev, i + 1)))
            },
            MdEventView::ImageStart { dest_url, .. } => seq![dest_url] + image_dests(ev, i + 1),
            _ => image_dests(ev, i + 1),
        }
    }
}

/// The index after the end of the heading or code block that starts just
/// before `start`.
fn skip_to_close(events: &Vec<MdEvent>, start: usize, heading: bool) -> (r: usize)
    requires
        start <= events@.len(),
    ensures
        heading ==> r == after(events_view(events@), heading_close(events_view(events@), start as int)),
        !heading ==> r == after(events_view(events@), code_close(events_view(events@), start as int)),
{
    let ghost ev = events_view(events@);
    let mut i = start;
    proof {
        lemma_heading_close(ev, start as int);
        lemma_code_close(ev, start as int);
    }
    while i < events.len()
        invariant
            start <= i <= events@.len(),
            ev == events_view(events@),
            heading ==> heading_close(ev, start as int) == heading_close(ev, i as int),
            !heading ==> code_close(ev, start as int) == code_close(ev, i as int),
        decreases events@.len() - i,
    {
        assert(ev[i as int] == events@[i as int]@);
        let closes = match &events[i] {
            MdEvent::HeadingEnd { .. } => heading,
            MdEvent::CodeBlockEnd => !heading,
            _ => false,
        };
        if closes {
            return i + 1;
        }
        i = i + 1;
    }
    i
}

/// The destinations of the images of a Markdown text that rendering
/// resolves, in order: the ones whose sources the caller looks up before
/// rendering.
pub fn image_destinations(markdown: &str) -> (r: Vec<String>)
    ensures
        r@.map_values(|s: String| s@) == image_dests(markdown_events(markdown@, reader_options()), 0),
{
    let events = parse_events(markdown, markdown_options());
    let ghost ev = events_view(events@);
    let ghost total = image_dests(ev, 0);
    let mut r: Vec<String> = Vec::new();
    let mut i: usize = 0;
    proof {
        assert(r@.map_values(|s: String| s@) + total =~= total);
    }
    while i < events.len()
        invariant
            i <= events@.len(),
            ev == events_view(events@),
            total == image_dests(ev, 0),
            r@.map_values(|s: String| s@) + image_dests(ev, i as int) == total,
        decreases events@.len() - i,
    {
        let ghost before = r@.map_values(|s: String| s@);
        let ghost old_i = i as int;
        proof {
            assert(ev[i as int] == events@[i as int]@);
            lemma_heading_close(ev, i + 1);
            lemma_code_close(ev, i + 1);
        }
        match &events[i] {
            MdEvent::HeadingStart { .. } => {
                i = skip_to_close(&events, i + 1, true);
            },
            MdEvent::CodeBlockStart { .. } => {
                i = skip_to_close(&events, i + 1, false);
            },
            MdEvent::ImageStart { dest_url, .. } => {
                r.push(dest_url.clone());
                i = i + 1;
                assert(r@.map_values(|s: String| s@) =~= before.push(dest_url@));
                assert(before.push(dest_url@) + image_dests(ev, i as int) =~= before + image_dests(
                    ev,
                    old_i,
                ));
            },
            _ => {
                i = i + 1;
            },
        }
    }
    proof {
        assert(r@.map_values(|s: String| s@) =~= total);
    }
    r
}

/// Whether no heading starts among the events `ev[a..b]`.
pub open spec fn no_heading_start(ev: Seq<MdEventView>, a: int, b: int) -> bool {
    forall|k: int| a <= k < b ==> !(#[trigger] ev[k] is HeadingStart)
}

/// Whether every heading of an event list has level `H1`-`H4`, a closing
/// event, no heading inside it and non-empty trimmed text, and no heading
/// starts inside a code block.
pub open spec fn toc_complete(ev: Seq<MdEventView>) -> bool {
    &&& forall|i: int|
        0 <= i < ev.len() && #[trigger] ev[i] is HeadingStart ==> {
            let j = heading_close(ev, i + 1);
            &&& j < ev.len()
            &&& rank_of(ev[i]->HeadingStart_level) <= 4
            &&& trim_seq(heading_text(ev, i + 1, j)).len() > 0
            &&& no_heading_start(ev, i + 1, j)
        }
    &&& forall|i: int|
        0 <= i < ev.len() && #[trigger] ev[i] is CodeBlockStart ==> no_heading_start(
            ev,
            i + 1,
            code_close(ev, i + 1),
        )
}

proof fn lemma_heading_close_first(ev: Seq<MdEventView>, j: int, k: int)
    requires
        0 <= j <= k < heading_close(ev, j),
        heading_close(ev, j) <= ev.len(),
    ensures
        !(ev[k] is HeadingEnd),
    decreases k - j,
{
    if j < k {
        lemma_heading_close_first(ev, j + 1, k);
    }
}

proof fn lemma_code_close_first(ev: Seq<MdEventView>, j: int, k: int)
    requires
        0 <= j <= k < code_close(ev, j),
        code_close(ev, j) <= ev.len(),
    ensures
        !(ev[k] is CodeBlockEnd),
    decreases k - j,
{
    if j < k {
        lemma_code_close_first(ev, j + 1, k);
    }
}

proof fn lemma_heading_text_front(ev: Seq<MdEventView>, a: int, b: int)
    requires
        a < b,
    ensures
        heading_text(ev, a, b) == heading_piece(ev[a]) + heading_text(ev, a + 1, b),
    decreases b - a,
{
    assert(heading_text(ev, a, b) == heading_text(ev, a, b - 1) + heading_piece(ev[b - 1]));
    if a + 1 < b {
        lemma_heading_text_front(ev, a, b - 1);
        assert(heading_text(ev, a + 1, b) == heading_text(ev, a + 1, b - 1) + heading_piece(ev[b - 1]));
        assert(heading_text(ev, a, b) =~= heading_piece(ev[a]) + heading_text(ev, a + 1, b));
    } else {
        assert(heading_text(ev, a, a) == Seq::<char>::empty());
        assert(heading_text(ev, b, b) == Seq::<char>::empty());
        assert(heading_text(ev, a, b) =~= heading_piece(ev[a]) + heading_text(ev, a + 1, b));
    }
}

/// Collecting through the inside of a heading gathers its text.
proof fn lemma_collect_heading_walk(
    ev: Seq<MdEventView>,
    h: int,
    k: int,
    level: u8,
    t: Seq<char>,
    seen: Seq<Seq<char>>,
)
    requires
        0 <= h < k <= heading_close(ev, h + 1) <= ev.len(),
        no_heading_start(ev, h + 1, heading_close(ev, h + 1)),
    ensures
        collect_from(ev, k, Some((level, t)), seen) == collect_from(
            ev,
            heading_close(ev, h + 1),
            Some((level, t + heading_text(ev, k, heading_close(ev, h + 1)))),
            seen,
        ),
    decreases heading_close(ev, h + 1) - k,
{
    let j = heading_close(ev, h + 1);
    if k < j {
        lemma_heading_close_first(ev, h + 1, k);
        assert(!(ev[k] is HeadingStart));
        lemma_heading_text_front(ev, k, j);
        let t2 = t + heading_piece(ev[k]);
        lemma_collect_heading_walk(ev, h, k + 1, level, t2, seen);
        assert(t2 + heading_text(ev, k + 1, j) =~= t + heading_text(ev, k, j));
        match ev[k] {
            MdEventView::Text(v) => {},
            MdEventView::Code(v) => {},
            MdEventView::InlineMath(v) => {},
            _ => {
                assert(t2 =~= t);
            },
        }
    } else {
        assert(t + heading_text(ev, k, j) =~= t);
    }
}

/// Collecting through the inside of a code block adds nothing.
proof fn lemma_collect_code_walk(ev: Seq<MdEventView>, c: int, k: int, seen: Seq<Seq<char>>)
    requires
        0 <= c < k <= code_close(ev, c + 1) <= ev.len(),
        no_heading_start(ev, c + 1, code_close(ev, c + 1)),
    ensures
        collect_from(ev, k, None, seen) == collect_from(ev, after(ev, code_close(ev, c + 1)), None, seen),
    decreases code_close(ev, c + 1) - k,
{
    let j = code_close(ev, c + 1);
    if k < j {
        lemma_code_close_first(ev, c + 1, k);
        assert(!(ev[k] is HeadingStart));
        lemma_collect_code_walk(ev, c, k + 1, seen);
    } else if j < ev.len() {
        lemma_code_close(ev, c + 1);
        assert(ev[j] is CodeBlockEnd);
    }
}

proof fn lemma_render_toc_from(
    ev: Seq<MdEventView>,
    i: int,
    seen: Seq<Seq<char>>,
    images: Seq<(Seq<char>, Seq<char>)>,
)
    requires
        0 <= i <= ev.len(),
        toc_complete(ev),
    ensures
        render_from(ev, i, seen, images).1 == collect_from(ev, i, None, seen),
    decreases ev.len() - i,
{
    if i < ev.len() {
        match ev[i] {
            MdEventView::HeadingStart { level, .. } => {
                lemma_heading_close(ev, i + 1);
                let j = heading_close(ev, i + 1);
                assert(j < ev.len());
                lemma_render_toc_from(ev, j + 1, seen.push(slug_base(trim_seq(heading_text(ev, i + 1, j)))), images);
                lemma_collect_heading_walk(ev, i, i + 1, rank_of(level), Seq::empty(), seen);
                assert(Seq::<char>::empty() + heading_text(ev, i + 1, j) =~= heading_text(ev, i + 1, j));
            },
            MdEventView::CodeBlockStart { .. } => {
                lemma_code_close(ev, i + 1);
                let j = code_close(ev, i + 1);
                lemma_render_toc_from(ev, after(ev, j), seen, images);
                lemma_collect_code_walk(ev, i, i + 1, seen);
            },
            _ => {
                lemma_render_toc_from(ev, i + 1, seen, images);
            },
        }
    }
}

/// When every heading has level `H1`-`H4`, a closing event, no heading
/// inside it and non-empty text, and no heading starts inside a code block,
/// the table of contents that rendering writes is the one that `collect`
/// gathers from the same events.
pub proof fn lemma_render_toc_matches_collect(ev: Seq<MdEventView>, images: Seq<(Seq<char>, Seq<char>)>)
    requires
        toc_complete(ev),
    ensures
        render_from(ev, 0, Seq::empty(), images).1 == collect_from(ev, 0, None, Seq::empty()),
{
    lemma_render_toc_from(ev, 0, Seq::empty(), images);
}

/// The trimmed texts of the headings from index `i` on, in document order,
/// as rendering meets them (a code block is passed over whole).
pub open spec fn heading_texts_from(ev: Seq<MdEventView>, i: int) -> Seq<Seq<char>>
    decreases ev.len() - i,
{
    if i < 0 || i >= ev.len() {
        Seq::empty()
    } else {
        match ev[i] {
            MdEventView::HeadingStart { .. } => {
                proof {
                    lemma_heading_close(ev, i + 1);
                }
                let j = heading_close(ev, i + 1);
                seq![trim_seq(heading_text(ev, i + 1, j))] + heading_texts_from(ev, after(ev, j))
            },
            MdEventView::CodeBlockStart { .. } => {
                proof {
                    lemma_code_close(ev, i + 1);
                }
                heading_texts_from(ev, after(ev, code_close(ev, i + 1)))
            },
            _ => heading_texts_from(ev, i + 1),
        }
    }
}

/// The ids on the heading starts of a list of events, in order.
pub open spec fn heading_ids(out: Seq<MdEventView>) -> Seq<Option<Seq<char>>>
    decreases out.len(),
{
    if out.len() == 0 {
        Seq::empty()
    } else {
        let first = match out[0] {
            MdEventView::HeadingStart { id, .. } => seq![id],
            _ => Seq::empty(),
        };
        first + heading_ids(out.drop_first())
    }
}

/// Whether no heading starts inside another heading.
pub open spec fn headings_flat(ev: Seq<MdEventView>) -> bool {
    forall|i: int|
        0 <= i < ev.len() && #[trigger] ev[i] is HeadingStart ==> no_heading_start(
            ev,
            i + 1,
            heading_close(ev, i + 1),
        )
}

proof fn lemma_heading_ids_concat(a: Seq<MdEventView>, b: Seq<MdEventView>)
    ensures
        heading_ids(a + b) == heading_ids(a) + heading_ids(b),
    decreases a.len(),
{
    if a.len() == 0 {
        assert(a + b =~= b);
        assert(heading_ids(a) + heading_ids(b) =~= heading_ids(b));
    } else {
        lemma_heading_ids_concat(a.drop_first(), b);
        assert((a + b).drop_first() =~= a.drop_first() + b);
        assert((a + b)[0] == a[0]);
    }
}

proof fn lemma_heading_ids_single(e: MdEventView)
    requires
        !(e is HeadingStart),
    ensures
        heading_ids(seq![e]) == Seq::<Option<Seq<char>>>::empty(),
{
    assert(seq![e].drop_first() =~= Seq::<MdEventView>::empty());
    assert(heading_ids(Seq::<MdEventView>::empty()) =~= Seq::<Option<Seq<char>>>::empty());
    assert(seq![e][0] == e);
    assert(heading_ids(seq![e]) =~= Seq::<Option<Seq<char>>>::empty());
}

proof fn lemma_heading_inner_ids(ev: Seq<MdEventView>, a: int, b: int)
    requires
        no_heading_start(ev, a, b),
    ensures
        heading_ids(heading_inner(ev, a, b)) == Seq::<Option<Seq<char>>>::empty(),
    decreases b - a,
{
    if b > a {
        lemma_heading_inner_ids(ev, a, b - 1);
        let e = heading_inner_event(ev[b - 1]);
        assert(!(ev[b - 1] is HeadingStart));
        lemma_heading_ids_single(e);
        lemma_heading_ids_concat(heading_inner(ev, a, b - 1), seq![e]);
        assert(heading_inner(ev, a, b - 1).push(e) =~= heading_inner(ev, a, b - 1) + seq![e]);
        assert(heading_ids(heading_inner(ev, a, b - 1)) + heading_ids(seq![e]) =~= Seq::<Option<Seq<char>>>::empty());
    } else {
        assert(heading_ids(Seq::<MdEventView>::empty()) =~= Seq::<Option<Seq<char>>>::empty());
    }
}

proof fn lemma_heading_ids_from(
    ev: Seq<MdEventView>,
    i: int,
    seen: Seq<Seq<char>>,
    images: Seq<(Seq<char>, Seq<char>)>,
)
    requires
        0 <= i <= ev.len(),
        headings_flat(ev),
    ensures
        heading_ids(render_from(ev, i, seen, images).0) == slug_results_after(
            seen,
            heading_texts_from(ev, i),
        ).map_values(|a: Seq<char>| Some(a)),
    decreases ev.len() - i,
{
    let out = render_from(ev, i, seen, images).0;
    if i < ev.len() {
        match ev[i] {
            MdEventView::HeadingStart { level, id: _, classes, attrs } => {
                lemma_heading_close(ev, i + 1);
                let j = heading_close(ev, i + 1);
                let text = trim_seq(heading_text(ev, i + 1, j));
                let base = slug_base(text);
                let anchor = numbered_anchor(base, count_occurrences(seen, base) + 1);
                let start = MdEventView::HeadingStart { level, id: Some(anchor), classes, attrs };
                let inner = heading_inner(ev, i + 1, j);
                let end = MdEventView::HeadingEnd { level };
                let rest = render_from(ev, after(ev, j), seen.push(base), images).0;
                lemma_heading_ids_from(ev, after(ev, j), seen.push(base), images);
                lemma_heading_inner_ids(ev, i + 1, j);
                lemma_heading_ids_single(end);
                assert(out == seq![start] + inner.push(end) + rest);
                assert(seq![start] + inner.push(end) + rest =~= seq![start] + (inner + (seq![end] + rest)));
                lemma_heading_ids_concat(seq![start], inner + (seq![end] + rest));
                lemma_heading_ids_concat(inner, seq![end] + rest);
                lemma_heading_ids_concat(seq![end], rest);
                assert(seq![start].drop_first() =~= Seq::<MdEventView>::empty());
                assert(heading_ids(Seq::<MdEventView>::empty()) =~= Seq::<Option<Seq<char>>>::empty());
                assert(seq![start][0] == start);
                assert(heading_ids(seq![start]) =~= seq![Some(anchor)]);
                let texts = heading_texts_from(ev, i);
                assert(texts == seq![text] + heading_texts_from(ev, after(ev, j)));
                assert(texts[0] == text);
                assert(texts.drop_first() =~= heading_texts_from(ev, after(ev, j)));
                let r = slug_results_after(seen, texts);
                assert(r == seq![anchor] + slug_results_after(seen.push(base), texts.drop_first()));
                assert(heading_ids(out) =~= r.map_values(|a: Seq<char>| Some(a)));
            },
            MdEventView::CodeBlockStart { fence } => {
                lemma_code_close(ev, i + 1);
                let j = code_close(ev, i + 1);
                lemma_heading_ids_from(ev, after(ev, j), seen, images);
                let html = MdEventView::Html(code_block_html(fence, code_text(ev, i + 1, j)));
                lemma_heading_ids_single(html);
                lemma_heading_ids_concat(seq![html], render_from(ev, after(ev, j), seen, images).0);
                assert(heading_ids(seq![html]) + heading_ids(render_from(ev, after(ev, j), seen, images).0)
                    =~= heading_ids(render_from(ev, after(ev, j), seen, images).0));
            },
            _ => {
                lemma_heading_ids_from(ev, i + 1, seen, images);
                let rest = render_from(ev, i + 1, seen, images).0;
                assert(out.len() > 0 && out.drop_first() =~= rest);
                assert(!(out[0] is HeadingStart));
                assert(heading_ids(out) =~= heading_ids(out.drop_first()));
            },
        }
    } else {
        assert(heading_texts_from(ev, i) =~= Seq::<Seq<char>>::empty());
        assert(heading_ids(out) =~= Seq::<Option<Seq<char>>>::empty());
        assert(slug_results_after(seen, Seq::empty()).map_values(|a: Seq<char>| Some(a))
            =~= Seq::<Option<Seq<char>>>::empty());
    }
}

/// When no heading starts inside another, rendering gives the headings, in
/// document order, exactly the anchors that successive `slug` calls on a
/// fresh slugger give their trimmed texts (any id the source had is
/// replaced).
pub proof fn lemma_heading_ids(ev: Seq<MdEventView>, images: Seq<(Seq<char>, Seq<char>)>)
    requires
        headings_flat(ev),
    ensures
        heading_ids(render_from(ev, 0, Seq::empty(), images).0) == slug_results(
            heading_texts_from(ev, 0),
        ).map_values(|a: Seq<char>| Some(a)),
{
    lemma_heading_ids_from(ev, 0, Seq::empty(), images);
    lemma_slug_results_after_fresh(heading_texts_from(ev, 0));
}

/// How rendering writes an event outside headings and code blocks: inline
/// and display math become their HTML, an image's destination becomes its
/// resolved source, and every other event is kept.
pub open spec fn rewrite_event(e: MdEventView, images: Seq<(Seq<char>, Seq<char>)>) -> MdEventView {
    match e {
        MdEventView::InlineMath(v) => MdEventView::Html(math_html(v, false)),
        MdEventView::DisplayMath(v) => MdEventView::Html(math_html(v, true)),
        MdEventView::ImageStart { link_type, dest_url, title, label } => MdEventView::ImageStart {
            link_type,
            dest_url: image_lookup(images, dest_url, 0),
            title,
            label,
        },
        other => other,
    }
}

/// Where no heading and no code block starts from index `i` on, rendering
/// rewrites each event on its own (math to HTML, image destinations to
/// their resolved sources, the rest unchanged) and adds nothing to the
/// table of contents.
pub proof fn lemma_render_inline(
    ev: Seq<MdEventView>,
    i: int,
    seen: Seq<Seq<char>>,
    images: Seq<(Seq<char>, Seq<char>)>,
)
    requires
        0 <= i <= ev.len(),
        forall|k: int| i <= k < ev.len() ==> !(#[trigger] ev[k] is HeadingStart) && !(ev[k] is CodeBlockStart),
    ensures
        render_from(ev, i, seen, images).0 == ev.subrange(i, ev.len() as int).map_values(
            |e: MdEventView| rewrite_event(e, images),
        ),
        render_from(ev, i, seen, images).1 == Seq::<(u8, Seq<char>, Seq<char>)>::empty(),
    decreases ev.len() - i,
{
    if i < ev.len() {
        lemma_render_inline(ev, i + 1, seen, images);
        assert(!(ev[i] is HeadingStart) && !(ev[i] is CodeBlockStart));
        let m = ev.subrange(i, ev.len() as int).map_values(|e: MdEventView| rewrite_event(e, images));
        let m1 = ev.subrange(i + 1, ev.len() as int).map_values(|e: MdEventView| rewrite_event(e, images));
        assert(m =~= seq![rewrite_event(ev[i], images)] + m1);
    } else {
        assert(ev.subrange(i, ev.len() as int).map_values(|e: MdEventView| rewrite_event(e, images))
            =~= Seq::<MdEventView>::empty());
    }
}

/// A code block is written as one HTML event in its place: the plain block
/// when its fence names no language, else the block highlighted in the
/// reader's Catppuccin Mocha theme for the first word of the fence.
pub proof fn lemma_render_code_block(
    ev: Seq<MdEventView>,
    i: int,
    seen: Seq<Seq<char>>,
    images: Seq<(Seq<char>, Seq<char>)>,
)
    requires
        0 <= i < ev.len(),
        ev[i] is CodeBlockStart,
    ensures
        ({
            let j = code_close(ev, i + 1);
            let code = code_text(ev, i + 1, j);
            let language = match ev[i]->CodeBlockStart_fence {
                Some(info) => first_token(info),
                None => Seq::empty(),
            };
            &&& render_from(ev, i, seen, images).0 == seq![
                MdEventView::Html(
                    if language.len() == 0 {
                        plain_code_html(language, code)
                    } else {
                        highlighted_code(mocha_view(), language, code)
                    },
                ),
            ] + render_from(ev, after(ev, j), seen, images).0
            &&& render_from(ev, i, seen, images).1 == render_from(ev, after(ev, j), seen, images).1
        }),
{
}

} // verus!
