//! Reading elements out of an HTML document.
//!
//! Parsing HTML and matching CSS selectors is the `scraper` crate's work.
//! What it finds is handed on as plain values: for each matching element the
//! value of one attribute and the text inside the element.

use vstd::prelude::*;
use scraper::{Html, Selector};

verus! {

/// What is read from one element of a document.
#[derive(Debug, PartialEq, Eq)]
pub struct Element {
    /// The value of the attribute asked for, where the element has it.
    pub attr: Option<String>,
    /// The text inside the element, its descendants' text included.
    pub text: String,
}

/// An [`Element`] as characters.
pub struct ElementView {
    pub attr: Option<Seq<char>>,
    pub text: Seq<char>,
}

impl View for Element {
    type V = ElementView;

    open spec fn view(&self) -> ElementView {
        ElementView {
            attr: match self.attr {
                Some(value) => Some(value@),
                None => None,
            },
            text: self.text@,
        }
    }
}

/// The elements as characters, one for one.
pub open spec fn element_views(elements: Seq<Element>) -> Seq<ElementView> {
    Seq::new(elements.len(), |i: int| elements[i]@)
}

/// What a selection found, as characters.
pub open spec fn found_views(found: Option<Vec<Element>>) -> Option<Seq<ElementView>> {
    match found {
        Some(elements) => Some(element_views(elements@)),
        None => None,
    }
}

/// The longest document that is read, in bytes. The parser holds a text in
/// no more than 4 GiB and may make a text longer than its source; this limit
/// leaves it sixteen times the room.
pub const MAX_DOCUMENT_BYTES: usize = 0x1000_0000;

/// Whether `document` is short enough to be read.
pub open spec fn readable(document: &str) -> bool {
    document.len() <= MAX_DOCUMENT_BYTES
}

/// Executable form of [`readable`].
pub fn is_readable(document: &str) -> (r: bool)
    ensures
        r == readable(document),
{
    document.len() <= MAX_DOCUMENT_BYTES
}

/// The elements of the HTML document `document` that match the CSS selector
/// group `selector`, in the order in which the parsed document holds them,
/// each with the value of its attribute `attr` and its text; none where
/// `selector` is no selector group.
pub uninterp spec fn selection(document: Seq<char>, selector: Seq<char>, attr: Seq<char>) -> Option<
    Seq<ElementView>,
>;

/// Runs `scraper`: `Selector::parse` on `selector`, `Html::parse_document` on
/// `document`, then `Html::select`, and reads `attr` and `text` off each
/// element that comes out. The contract gives that result its name,
/// [`selection`], and claims nothing else of it; `None` stands for a
/// selector that does not parse. The parser panics on a text beyond 4 GiB,
/// so only a document within [`MAX_DOCUMENT_BYTES`] may be handed in.
#[verifier::external_body]
pub(crate) fn select(document: &str, selector: &str, attr: &str) -> (found: Option<Vec<Element>>)
    requires
        document.len() <= MAX_DOCUMENT_BYTES,
    ensures
        found_views(found) == selection(document@, selector@, attr@),
{
    let selector = match Selector::parse(selector) {
        Ok(selector) => selector,
        Err(_) => return None,
    };
    let html = Html::parse_document(document);
    Some(
        html.select(&selector).map(
            |e| Element { attr: e.attr(attr).map(|v| v.to_string()), text: e.text().collect() },
        ).collect(),
    )
}

} // verus!
