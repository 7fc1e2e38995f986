//! Layout engine and anchor tracking.
//!
//! Lengths are integral layout units. Measuring text is done by the caller,
//! which hands the measured height of each element's display text to `layout`.
use vstd::prelude::*;

use crate::document::{display_text_of, is_heading, Document, DocumentElement};

verus! {

/// A measured, positioned element; one per document element, same index.
#[derive(Debug, Clone)]
pub struct LaidOutElement {
    pub text: String,
    pub y_position: u64,
    pub height: u64,
}

/// Bottom edge of a laid-out element.
pub open spec fn bottom(e: LaidOutElement) -> int {
    e.y_position + e.height
}

/// Vertical space that follows an element.
pub open spec fn gap_after(e: DocumentElement, spacing: u64) -> int {
    if is_heading(e) {
        2 * spacing
    } else {
        spacing as int
    }
}

/// The running cursor before element `i`: the sum of heights and gaps of the
/// elements before it.
pub open spec fn cursor(elems: Seq<DocumentElement>, heights: Seq<u64>, spacing: u64, i: nat) -> int
    decreases i,
{
    if i == 0 {
        0
    } else {
        cursor(elems, heights, spacing, (i - 1) as nat) + heights[i - 1] + gap_after(
            elems[i - 1],
            spacing,
        )
    }
}

/// `r` is the layout of `elems` with the given measured heights and spacing.
pub open spec fn is_layout_of(
    r: Seq<LaidOutElement>,
    elems: Seq<DocumentElement>,
    heights: Seq<u64>,
    spacing: u64,
) -> bool {
    &&& r.len() == elems.len()
    &&& forall|i: int|
        0 <= i < r.len() ==> {
            &&& #[trigger] r[i].y_position == cursor(elems, heights, spacing, i as nat)
            &&& r[i].height == heights[i]
            &&& r[i].text@ == display_text_of(elems[i])
        }
}

/// Each element starts at or below the bottom of the one before it.
pub open spec fn stacked(l: Seq<LaidOutElement>) -> bool {
    forall|i: int| 0 <= i < l.len() - 1 ==> bottom(#[trigger] l[i]) <= l[i + 1].y_position
}

/// The cursor never decreases.
pub proof fn lemma_cursor_monotone(
    elems: Seq<DocumentElement>,
    heights: Seq<u64>,
    spacing: u64,
    i: nat,
    j: nat,
)
    requires
        i <= j <= elems.len(),
        heights.len() == elems.len(),
    ensures
        cursor(elems, heights, spacing, i) <= cursor(elems, heights, spacing, j),
    decreases j - i,
{
    if i < j {
        lemma_cursor_monotone(elems, heights, spacing, i, (j - 1) as nat);
    }
}

/// Lays out the document: element `i` starts where the cursor stands after
/// the elements before it, and the cursor advances by the measured height plus
/// the paragraph spacing, twice that after a heading.
pub fn layout(doc: &Document, heights: &Vec<u64>, paragraph_spacing: u64) -> (r: Vec<LaidOutElement>)
    requires
        heights.len() == doc.elements.len(),
        cursor(doc.elements@, heights@, paragraph_spacing, doc.elements.len() as nat)
            <= u64::MAX,
    ensures
        is_layout_of(r@, doc.elements@, heights@, paragraph_spacing),
        stacked(r@),
{
    let n = doc.elements.len();
    let ghost elems = doc.elements@;
    let mut r: Vec<LaidOutElement> = Vec::new();
    let mut current_y: u64 = 0;
    let mut i: usize = 0;
    while i < n
        invariant
            n == elems.len(),
            elems == doc.elements@,
            heights.len() == n,
            0 <= i <= n,
            current_y == cursor(elems, heights@, paragraph_spacing, i as nat),
            cursor(elems, heights@, paragraph_spacing, n as nat) <= u64::MAX,
            is_layout_of(r@, elems.subrange(0, i as int), heights@, paragraph_spacing),
            stacked(r@),
            i > 0 ==> bottom(r@[i - 1]) <= current_y,
        decreases n - i,
    {
        let element = &doc.elements[i];
        let text = element.display_text();
        let h = heights[i];
        proof {
            lemma_cursor_monotone(elems, heights@, paragraph_spacing, (i + 1) as nat, n as nat);
        }
        let spacing: u64 = if element.is_heading() {
            2 * paragraph_spacing
        } else {
            paragraph_spacing
        };
        r.push(LaidOutElement { text, y_position: current_y, height: h });
        current_y = current_y + h + spacing;
        i += 1;
        proof {
            assert forall|k: int| 0 <= k < r@.len() implies {
                &&& #[trigger] r@[k].y_position == cursor(
                    elems.subrange(0, i as int),
                    heights@,
                    paragraph_spacing,
                    k as nat,
                )
                &&& r@[k].height == heights@[k]
                &&& r@[k].text@ == display_text_of(elems.subrange(0, i as int)[k])
            } by {
                lemma_cursor_prefix(elems, i as int, heights@, paragraph_spacing, k as nat);
                if k < i - 1 {
                    lemma_cursor_prefix(elems, i - 1, heights@, paragraph_spacing, k as nat);
                }
            }
        }
    }
    assert(elems.subrange(0, n as int) == elems);
    r
}

/// The cursor before element `k` depends only on the elements before it.
proof fn lemma_cursor_prefix(
    elems: Seq<DocumentElement>,
    m: int,
    heights: Seq<u64>,
    spacing: u64,
    k: nat,
)
    requires
        0 <= k <= m <= elems.len(),
    ensures
        cursor(elems.subrange(0, m), heights, spacing, k) == cursor(elems, heights, spacing, k),
    decreases k,
{
    if k > 0 {
        lemma_cursor_prefix(elems, m, heights, spacing, (k - 1) as nat);
    }
}

/// Laying out twice with the same inputs gives the same positions and heights.
pub proof fn lemma_layout_idempotent(
    elems: Seq<DocumentElement>,
    heights: Seq<u64>,
    spacing: u64,
    first: Seq<LaidOutElement>,
    second: Seq<LaidOutElement>,
)
    requires
        is_layout_of(first, elems, heights, spacing),
        is_layout_of(second, elems, heights, spacing),
    ensures
        first.len() == second.len(),
        forall|i: int|
            0 <= i < first.len() ==> #[trigger] first[i].y_position == second[i].y_position
                && first[i].height == second[i].height && first[i].text@ == second[i].text@,
{
    assert forall|i: int| 0 <= i < first.len() implies #[trigger] first[i].y_position
        == second[i].y_position && first[i].height == second[i].height && first[i].text@
        == second[i].text@ by {
        assert(first[i].y_position == cursor(elems, heights, spacing, i as nat));
        assert(second[i].y_position == cursor(elems, heights, spacing, i as nat));
    }
}

/// `i` is the first element whose bottom edge lies below `y`.
pub open spec fn is_first_past(l: Seq<LaidOutElement>, y: int, i: int) -> bool {
    &&& 0 <= i < l.len()
    &&& bottom(l[i]) > y
    &&& forall|j: int| 0 <= j < i ==> bottom(#[trigger] l[j]) <= y
}

/// No element's bottom edge lies below `y`.
pub open spec fn none_past(l: Seq<LaidOutElement>, y: int) -> bool {
    forall|j: int| 0 <= j < l.len() ==> bottom(#[trigger] l[j]) <= y
}

/// The index of the first element whose bottom edge lies below `y`, if any.
pub fn first_past(l: &Vec<LaidOutElement>, y: u64) -> (r: Option<usize>)
    ensures
        match r {
            Some(i) => is_first_past(l@, y as int, i as int),
            None => none_past(l@, y as int),
        },
{
    let mut i: usize = 0;
    while i < l.len()
        invariant
            0 <= i <= l.len(),
            forall|j: int| 0 <= j < i ==> bottom(#[trigger] l@[j]) <= y,
        decreases l.len() - i,
    {
        let e = &l[i];
        if e.y_position > y || e.height > y - e.y_position {
            return Some(i);
        }
        i += 1;
    }
    None
}

/// Captures the anchor before a reflow: the first element whose bottom edge
/// lies below the viewport center.
pub fn capture_anchor(l: &Vec<LaidOutElement>, viewport_center_y: u64) -> (r: Option<usize>)
    ensures
        match r {
            Some(i) => is_first_past(l@, viewport_center_y as int, i as int),
            None => none_past(l@, viewport_center_y as int),
        },
{
    first_past(l, viewport_center_y)
}

/// Scroll offset that puts element `anchor` at the viewport center, or
/// `current_scroll` when `anchor` is out of bounds.
pub open spec fn restored_scroll(
    l: Seq<LaidOutElement>,
    anchor: int,
    viewport_height: u64,
    current_scroll: u64,
) -> int {
    if 0 <= anchor < l.len() {
        let y = l[anchor].y_position - viewport_height / 2;
        if y > 0 {
            y
        } else {
            0
        }
    } else {
        current_scroll as int
    }
}

/// Restores the scroll offset after a reflow so that the anchor element is
/// at the viewport center (clamped at the top).
pub fn restore_scroll(
    l: &Vec<LaidOutElement>,
    anchor: usize,
    viewport_height: u64,
    current_scroll: u64,
) -> (r: u64)
    ensures
        r == restored_scroll(l@, anchor as int, viewport_height, current_scroll),
{
    if anchor < l.len() {
        let half = viewport_height / 2;
        let y = l[anchor].y_position;
        if y > half {
            y - half
        } else {
            0
        }
    } else {
        current_scroll
    }
}

/// In a stacked layout, an element ends at or above the start of any later one.
proof fn lemma_stacked_before(l: Seq<LaidOutElement>, j: int, a: int)
    requires
        stacked(l),
        0 <= j < a < l.len(),
    ensures
        bottom(l[j]) <= l[a].y_position,
    decreases a - j,
{
    if j < a - 1 {
        lemma_stacked_before(l, j, a - 1);
        assert(bottom(l[a - 1]) <= l[a].y_position);
    }
}

/// Across a reflow that keeps the element count, capturing the anchor at the
/// viewport center and restoring the scroll from it puts the same element at
/// the viewport center again, as long as the anchor has a height in the new
/// layout and starts at least half a viewport below the top.
pub proof fn lemma_anchor_preserved(
    old_layout: Seq<LaidOutElement>,
    new_layout: Seq<LaidOutElement>,
    viewport_center_y: int,
    viewport_height: u64,
    anchor: int,
)
    requires
        old_layout.len() == new_layout.len(),
        stacked(new_layout),
        is_first_past(old_layout, viewport_center_y, anchor),
        new_layout[anchor].height > 0,
        new_layout[anchor].y_position >= viewport_height / 2,
    ensures
        is_first_past(
            new_layout,
            restored_scroll(new_layout, anchor, viewport_height, 0) + viewport_height / 2,
            anchor,
        ),
{
    let c = restored_scroll(new_layout, anchor, viewport_height, 0) + viewport_height / 2;
    assert(c == new_layout[anchor].y_position);
    assert forall|j: int| 0 <= j < anchor implies bottom(#[trigger] new_layout[j]) <= c by {
        lemma_stacked_before(new_layout, j, anchor);
    }
}

/// The range of element indices visible in a viewport: the first element
/// whose bottom lies below the scroll offset (0 if none), and the first whose
/// bottom lies below the viewport's lower edge (the last element if none).
pub open spec fn visible_range_of(l: Seq<LaidOutElement>, scroll: u64, viewport_height: u64) -> (
    int,
    int,
) {
    let first = if exists|i: int| #[trigger] is_first_past(l, scroll as int, i) {
        choose|i: int| #[trigger] is_first_past(l, scroll as int, i)
    } else {
        0
    };
    let last = if exists|i: int| #[trigger] is_first_past(l, scroll + viewport_height, i) {
        choose|i: int| #[trigger] is_first_past(l, scroll + viewport_height, i)
    } else if l.len() > 0 {
        l.len() - 1
    } else {
        0
    };
    (first, last)
}

/// There is at most one first element past a given line.
proof fn lemma_first_past_unique(l: Seq<LaidOutElement>, y: int, i: int, k: int)
    requires
        is_first_past(l, y, i),
        is_first_past(l, y, k),
    ensures
        i == k,
{
    if i < k {
        assert(bottom(l[i]) <= y);
    } else if k < i {
        assert(bottom(l[k]) <= y);
    }
}

/// The index of the first element whose bottom edge lies below `scroll + extent`.
fn first_past_edge(l: &Vec<LaidOutElement>, scroll: u64, extent: u64) -> (r: Option<usize>)
    ensures
        match r {
            Some(i) => is_first_past(l@, scroll + extent, i as int),
            None => none_past(l@, scroll + extent),
        },
{
    let edge: u128 = scroll as u128 + extent as u128;
    let mut i: usize = 0;
    while i < l.len()
        invariant
            0 <= i <= l.len(),
            edge == scroll + extent,
            forall|j: int| 0 <= j < i ==> bottom(#[trigger] l@[j]) <= edge,
        decreases l.len() - i,
    {
        let e = &l[i];
        if e.y_position as u128 + e.height as u128 > edge {
            return Some(i);
        }
        i += 1;
    }
    None
}

/// Computes the visible range of the viewport at `scroll` with the given height.
pub fn visible_range(l: &Vec<LaidOutElement>, scroll: u64, viewport_height: u64) -> (r: (
    usize,
    usize,
))
    ensures
        (r.0 as int, r.1 as int) == visible_range_of(l@, scroll, viewport_height),
{
    let fp = first_past(l, scroll);
    let first = match fp {
        Some(i) => i,
        None => 0,
    };
    let last = first_past_edge(l, scroll, viewport_height);
    let last_index = match last {
        Some(k) => k,
        None => if l.len() > 0 {
            l.len() - 1
        } else {
            0
        },
    };
    proof {
        let s = visible_range_of(l@, scroll, viewport_height);
        if fp is None {
            assert forall|i: int| !#[trigger] is_first_past(l@, scroll as int, i) by {
                if 0 <= i < l@.len() {
                    assert(bottom(l@[i]) <= scroll);
                }
            }
        }
        if exists|i: int| #[trigger] is_first_past(l@, scroll as int, i) {
            let c = choose|i: int| #[trigger] is_first_past(l@, scroll as int, i);
            lemma_first_past_unique(l@, scroll as int, c, first as int);
        }
        if let Some(k) = last {
            assert(is_first_past(l@, scroll + viewport_height, k as int));
            let c = choose|i: int| #[trigger] is_first_past(l@, scroll + viewport_height, i);
            lemma_first_past_unique(l@, scroll + viewport_height, c, k as int);
        } else {
            assert forall|i: int| !#[trigger] is_first_past(l@, scroll + viewport_height, i) by {
                if 0 <= i < l@.len() {
                    assert(bottom(l@[i]) <= scroll + viewport_height);
                }
            }
        }
    }
    (first, last_index)
}

/// The viewport center line for a scroll offset, saturated into `u64`.
pub open spec fn center_line(scroll: u64, viewport_height: u64) -> int {
    if scroll + viewport_height / 2 > u64::MAX {
        u64::MAX as int
    } else {
        scroll + viewport_height / 2
    }
}

/// The anchor captured from a layout at a center line, if any.
pub open spec fn anchor_of(l: Seq<LaidOutElement>, center: int) -> Option<int> {
    if exists|i: int| #[trigger] is_first_past(l, center, i) {
        Some(choose|i: int| #[trigger] is_first_past(l, center, i))
    } else {
        None
    }
}

/// Recomputes the layout and keeps the reader's place: the anchor is taken
/// from the stale layout at the viewport center, and the scroll offset is
/// restored from it in the new layout; without an anchor it is kept.
pub fn reflow(
    doc: &Document,
    heights: &Vec<u64>,
    paragraph_spacing: u64,
    stale: &Vec<LaidOutElement>,
    scroll: u64,
    viewport_height: u64,
) -> (r: (Vec<LaidOutElement>, u64))
    requires
        heights.len() == doc.elements.len(),
        cursor(doc.elements@, heights@, paragraph_spacing, doc.elements.len() as nat)
            <= u64::MAX,
    ensures
        is_layout_of(r.0@, doc.elements@, heights@, paragraph_spacing),
        stacked(r.0@),
        match anchor_of(stale@, center_line(scroll, viewport_height)) {
            Some(a) => r.1 == restored_scroll(r.0@, a, viewport_height, scroll),
            None => r.1 == scroll,
        },
{
    let center = scroll.saturating_add(viewport_height / 2);
    let anchor = capture_anchor(stale, center);
    let fresh = layout(doc, heights, paragraph_spacing);
    proof {
        let c = center_line(scroll, viewport_height);
        assert(center == c);
        match anchor {
            Some(a) => {
                let k = choose|i: int| #[trigger] is_first_past(stale@, c, i);
                lemma_first_past_unique(stale@, c, k, a as int);
            },
            None => {
                assert forall|i: int| !#[trigger] is_first_past(stale@, c, i) by {
                    if 0 <= i < stale@.len() {
                        assert(bottom(stale@[i]) <= c);
                    }
                }
            },
        }
    }
    let new_scroll = match anchor {
        Some(a) => restore_scroll(&fresh, a, viewport_height, scroll),
        None => scroll,
    };
    (fresh, new_scroll)
}

} // verus!
