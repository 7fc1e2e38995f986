//! The document model: metadata and an ordered sequence of elements.
use vstd::prelude::*;

use crate::text::{chars_of, decimal, decimal_u8, push_all, string_from};

verus! {

/// Optional descriptive data of a document.
#[derive(Debug, Clone)]
pub struct DocumentMetadata {
    pub title: Option<String>,
    pub language: Option<String>,
    pub author: Option<String>,
}

/// One element of a document. Its ordinal position in `Document::elements`
/// is the element index that positions refer to.
#[derive(Debug, Clone)]
pub enum DocumentElement {
    Text { content: String },
    Heading { content: String, level: u8 },
    Image { id: String, url: String },
}

/// A read-only document: metadata plus elements in reading order.
#[derive(Debug, Clone)]
pub struct Document {
    pub metadata: DocumentMetadata,
    pub elements: Vec<DocumentElement>,
}

/// The text that stands for an element on screen: headings carry a level
/// marker, images a placeholder label with their id.
pub open spec fn display_text_of(e: DocumentElement) -> Seq<char> {
    match e {
        DocumentElement::Text { content } => content@,
        DocumentElement::Heading { content, level } => "[HEADING LEVEL "@ + decimal(level as nat)
            + "] "@ + content@,
        DocumentElement::Image { id, .. } => "[IMAGE: "@ + id@ + "]"@,
    }
}

/// Whether an element is a heading.
pub open spec fn is_heading(e: DocumentElement) -> bool {
    e is Heading
}

impl DocumentElement {
    /// The text that the layout measures and the renderer draws for this element.
    pub fn display_text(&self) -> (r: String)
        ensures
            r@ == display_text_of(*self),
    {
        match self {
            DocumentElement::Text { content } => content.clone(),
            DocumentElement::Heading { content, level } => {
                let mut out = chars_of("[HEADING LEVEL ");
                let digits = decimal_u8(*level);
                push_all(&mut out, &digits);
                let sep = chars_of("] ");
                push_all(&mut out, &sep);
                let body = chars_of(content.as_str());
                push_all(&mut out, &body);
                string_from(&out)
            },
            DocumentElement::Image { id, .. } => {
                let mut out = chars_of("[IMAGE: ");
                let body = chars_of(id.as_str());
                push_all(&mut out, &body);
                let close = chars_of("]");
                push_all(&mut out, &close);
                string_from(&out)
            },
        }
    }

    /// Whether this element is a heading.
    pub fn is_heading(&self) -> (r: bool)
        ensures
            r == is_heading(*self),
    {
        match self {
            DocumentElement::Heading { .. } => true,
            _ => false,
        }
    }
}

} // verus!
