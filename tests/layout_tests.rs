use friend_reader::document::{Document, DocumentElement, DocumentMetadata};
use friend_reader::layout::{
    capture_anchor, layout, reflow, restore_scroll, visible_range, LaidOutElement,
};

fn doc(elements: Vec<DocumentElement>) -> Document {
    Document {
        metadata: DocumentMetadata { title: Some("T".to_string()), language: None, author: None },
        elements,
    }
}

fn text(s: &str) -> DocumentElement {
    DocumentElement::Text { content: s.to_string() }
}

fn uniform(n: usize) -> Document {
    doc((0..n).map(|i| text(&format!("p{}", i))).collect())
}

fn positions(l: &[LaidOutElement]) -> Vec<(u64, u64)> {
    l.iter().map(|e| (e.y_position, e.height)).collect()
}

#[test]
fn layout_stacks_elements_with_spacing() {
    let d = doc(vec![
        text("Hello"),
        DocumentElement::Heading { content: "Title".to_string(), level: 2 },
        DocumentElement::Image { id: "pic.png".to_string(), url: "/images/pic.png".to_string() },
        text(""),
    ]);
    let l = layout(&d, &vec![10, 20, 30, 0], 5);
    assert_eq!(positions(&l), vec![(0, 10), (15, 20), (45, 30), (80, 0)]);
    assert_eq!(l[0].text, "Hello");
    assert_eq!(l[1].text, "[HEADING LEVEL 2] Title");
    assert_eq!(l[2].text, "[IMAGE: pic.png]");
    assert_eq!(l[3].text, "");
}

#[test]
fn heading_level_is_written_in_decimal() {
    let d = doc(vec![DocumentElement::Heading { content: "X".to_string(), level: 255 }]);
    let l = layout(&d, &vec![1], 0);
    assert_eq!(l[0].text, "[HEADING LEVEL 255] X");
}

#[test]
fn layout_is_idempotent() {
    let d = doc(vec![text("a"), DocumentElement::Heading { content: "b".to_string(), level: 1 }, text("c")]);
    let h = vec![12, 40, 7];
    let first = layout(&d, &h, 9);
    let second = layout(&d, &h, 9);
    assert_eq!(positions(&first), positions(&second));
    assert_eq!(positions(&first), vec![(0, 12), (21, 40), (79, 7)]);
}

#[test]
fn empty_document_has_empty_layout() {
    let d = doc(vec![]);
    assert!(layout(&d, &vec![], 10).is_empty());
    let l = layout(&d, &vec![], 10);
    assert_eq!(capture_anchor(&l, 0), None);
    assert_eq!(visible_range(&l, 0, 100), (0, 0));
}

#[test]
fn anchor_is_first_element_below_center() {
    let d = uniform(4);
    let l = layout(&d, &vec![100, 100, 100, 100], 0);
    assert_eq!(capture_anchor(&l, 200), Some(2));
    assert_eq!(capture_anchor(&l, 199), Some(1));
    assert_eq!(capture_anchor(&l, 0), Some(0));
    assert_eq!(capture_anchor(&l, 400), None);
}

#[test]
fn anchor_survives_reflow() {
    let d = uniform(4);
    let old = layout(&d, &vec![100, 100, 100, 100], 0);
    let viewport = 100;
    let scroll = 150;
    let anchor = capture_anchor(&old, scroll + viewport / 2).unwrap();
    assert_eq!(anchor, 2);
    let new = layout(&d, &vec![200, 200, 200, 200], 0);
    let restored = restore_scroll(&new, anchor, viewport, scroll);
    assert_eq!(restored, 350);
    assert_eq!(capture_anchor(&new, restored + viewport / 2), Some(anchor));
}

#[test]
fn restore_scroll_clamps_at_top_and_checks_bounds() {
    let d = uniform(3);
    let l = layout(&d, &vec![10, 10, 10], 0);
    assert_eq!(restore_scroll(&l, 1, 100, 77), 0);
    assert_eq!(restore_scroll(&l, 5, 100, 77), 77);
}

#[test]
fn visible_range_uses_bottom_edges() {
    let d = uniform(5);
    let l = layout(&d, &vec![100, 100, 100, 100, 100], 0);
    assert_eq!(visible_range(&l, 0, 250), (0, 2));
    assert_eq!(visible_range(&l, 100, 100), (1, 2));
    assert_eq!(visible_range(&l, 350, 1000), (3, 4));
    assert_eq!(visible_range(&l, 600, 10), (0, 4));
}

#[test]
fn reflow_keeps_the_anchor_at_the_center() {
    let d = uniform(4);
    let stale = layout(&d, &vec![100, 100, 100, 100], 0);
    let (fresh, scroll) = reflow(&d, &vec![200, 200, 200, 200], 0, &stale, 150, 100);
    assert_eq!(positions(&fresh), vec![(0, 200), (200, 200), (400, 200), (600, 200)]);
    assert_eq!(scroll, 350);
    assert_eq!(capture_anchor(&fresh, scroll + 50), Some(2));
}

#[test]
fn reflow_without_anchor_keeps_scroll() {
    let d = uniform(2);
    let (fresh, scroll) = reflow(&d, &vec![10, 10], 5, &vec![], 42, 100);
    assert_eq!(positions(&fresh), vec![(0, 10), (15, 10)]);
    assert_eq!(scroll, 42);
}
