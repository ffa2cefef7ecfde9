//! The markup events that flow through the pipeline, reduced to the plain
//! values the traversal logic reads: tag names, attribute lists, character
//! data, and an end-of-stream marker.

use vstd::prelude::*;

verus! {

/// One attribute of a start-tag, reduced to its local name and value.
#[derive(Clone, Debug, PartialEq)]
pub struct Attribute {
    pub name: String,
    pub value: String,
}

/// A markup event as the buffer stores it. `Insignificant` stands for the
/// tokenizer events the pipeline filters out before buffering (document
/// start, processing instructions, whitespace-only text, comments, and the
/// document type declaration); it never reaches a buffer slot.
#[derive(Clone, Debug, PartialEq)]
pub enum XmlEvent {
    StartElement { name: String, attributes: Vec<Attribute> },
    EndElement { name: String },
    Characters(String),
    EndDocument,
    Insignificant,
}

/// Whether an event may appear in the shared buffer: everything but the
/// filtered-out marker.
pub open spec fn is_significant(e: XmlEvent) -> bool {
    !(e matches XmlEvent::Insignificant)
}

/// Whether an event closes the enclosing scope: the end-tag of the
/// surrounding element, or the end of the document.
pub open spec fn closes_scope(e: XmlEvent) -> bool {
    e matches XmlEvent::EndElement { .. } || e matches XmlEvent::EndDocument
}

} // verus!
