//! The event source: the outside tokenizer, pulled one raw event at a
//! time over an in-memory document. Everything the pipeline reads of a raw
//! event is converted here to the plain values of `events::XmlEvent`.

use vstd::prelude::*;

use crate::error::Error;
use crate::events::{Attribute, XmlEvent};
use xml::reader::XmlEvent as RawEvent;

verus! {

/// The pull-only source of raw tokenizer events. Opaque: which event the
/// next pull yields depends on the document position inside the tokenizer,
/// which nothing here models. The tokenizer's reader type is generic over
/// `std::io::Read`, which Verus cannot declare, so the whole source is an
/// opaque struct.
#[verifier::external_body]
pub struct EventSource {
    reader: xml::reader::EventReader<std::io::Cursor<Vec<u8>>>,
}

impl EventSource {
    /// Relies on `xml::reader::EventReader::new`: a tokenizer positioned at
    /// the start of the given document bytes.
    #[verifier::external_body]
    pub fn from_bytes(bytes: Vec<u8>) -> (s: EventSource) {
        EventSource { reader: xml::reader::EventReader::new(std::io::Cursor::new(bytes)) }
    }

    /// Relies on `xml::reader::EventReader::next`: pulls the next raw event,
    /// or reports the tokenizer's failure; after the document's end it keeps
    /// returning the end-of-document event. Nothing can be promised of which
    /// event comes; a failure is always handed on as a syntax error, since
    /// the conversion wraps the tokenizer's message in nothing else. The
    /// conversion maps each raw variant to the matching plain one, and the
    /// filtered-out kinds to `Insignificant`.
    #[verifier::external_body]
    pub fn next_raw(&mut self) -> (r: Result<XmlEvent, Error>)
        ensures
            r matches Err(er) ==> er matches Error::Syntax(_),
    {
        match self.reader.next() {
            Ok(RawEvent::StartElement { name, attributes, .. }) => Ok(XmlEvent::StartElement {
                name: name.local_name,
                attributes: attributes
                    .into_iter()
                    .map(|a| Attribute { name: a.name.local_name, value: a.value })
                    .collect(),
            }),
            Ok(RawEvent::EndElement { name }) => Ok(XmlEvent::EndElement { name: name.local_name }),
            Ok(RawEvent::Characters(s)) => Ok(XmlEvent::Characters(s)),
            Ok(RawEvent::CData(s)) => Ok(XmlEvent::Characters(s)),
            Ok(RawEvent::EndDocument) => Ok(XmlEvent::EndDocument),
            Ok(_) => Ok(XmlEvent::Insignificant),
            Err(e) => Err(Error::Syntax(e.to_string())),
        }
    }
}

} // verus!
