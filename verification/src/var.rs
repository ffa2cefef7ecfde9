//! The tagged-union access objects: one reads the discriminant that says
//! which variant is present, the other decodes the variant's payload.
//! The unit and newtype payload shapes are decoded here; tuple- and
//! struct-shaped payloads belong to the map/tuple access machinery, a
//! collaborator this crate does not provide.

use vstd::prelude::*;

use crate::buffer::{
    child_consumed, consume_n, first_live, lemma_peek_caches, live_events, peek_spec, peeked,
    CachedXmlEvent, ChildXmlBuffer, RootXmlBuffer,
};
use crate::de::{decode_element, decode_value_spec, expect_end_element, next_tracked};
use crate::error::Error;
use crate::events::XmlEvent;
use crate::state::{DeserializerState, MAX_DEPTH};

verus! {

/// Reads a tag or text token as a variant discriminant.
pub struct EnumAccess {
    pub de: ChildXmlBuffer,
}

/// Decodes the payload of the variant whose discriminant was just read.
pub struct VariantAccess {
    pub de: ChildXmlBuffer,
}

impl EnumAccess {
    /// Bind a tagged-union read to a view.
    pub fn new(de: ChildXmlBuffer) -> (ea: EnumAccess)
        ensures
            ea.de == de,
    {
        EnumAccess { de }
    }

    /// Read the next event as the discriminant: bare character data or a
    /// start-tag name both name the variant, and neither is consumed —
    /// the payload decode consumes them. Sets the one-shot value flag so
    /// the payload is read in value position. Anything else in
    /// discriminant position is refused.
    pub fn read_discriminant(
        self,
        root: &mut RootXmlBuffer,
        state: &mut DeserializerState,
    ) -> (r: Result<(String, VariantAccess), Error>)
        requires
            old(root).wf(),
            0 <= self.de.pos() <= old(root).buf().len(),
        ensures
            final(root).wf(),
            old(root).buf().len() <= final(root).buf().len(),
            r matches Ok(p) ==> final(state).map_value && final(state).depth == old(state).depth
                && p.1.de.pos() == self.de.pos(),
            r matches Ok(p) ==> exists|e: XmlEvent|
                {
                    &&& #[trigger] peeked(old(root).buf(), self.de.pos(), final(root).buf(), e)
                    &&& e matches XmlEvent::Characters(s) ==> p.0 == s
                    &&& e matches XmlEvent::StartElement { name, .. } ==> p.0 == name
                    &&& (e matches XmlEvent::Characters(_) || e matches XmlEvent::StartElement {
                        ..
                    })
                },
            r matches Err(_) ==> *final(state) == *old(state),
            r matches Err(_) ==> final(root).buf() == old(root).buf() || exists|e: XmlEvent|
                {
                    &&& #[trigger] peeked(old(root).buf(), self.de.pos(), final(root).buf(), e)
                    &&& !(e matches XmlEvent::Characters(_))
                    &&& !(e matches XmlEvent::StartElement { .. })
                },
            ({
                let pk = peek_spec(old(root).buf(), self.de.pos());
                &&& (pk matches Some(e) ==> (e matches XmlEvent::Characters(s) ==> (r matches Ok(p)
                    && p.0 == s && final(root).buf() == old(root).buf())))
                &&& (pk matches Some(e) ==> (e matches XmlEvent::StartElement { name, .. } ==> (r
                    matches Ok(p) && p.0 == name && final(root).buf() == old(root).buf())))
                &&& (pk matches Some(e) ==> ((e matches XmlEvent::EndElement { .. } || e
                    matches XmlEvent::EndDocument) ==> r == Err::<(String, VariantAccess), Error>(
                    Error::UnexpectedToken,
                )))
            }),
    {
        let ghost b0 = root.buf();
        let ghost c0: int = self.de.pos();
        let ghost mut ge: XmlEvent = XmlEvent::EndDocument;
        let name: String;
        let named: bool;
        match self.de.peek(root) {
            Err(e) => {
                return Err(e);
            },
            Ok(ev) => {
                proof {
                    ge = *ev;
                }
                match ev {
                    XmlEvent::Characters(s) => {
                        name = s.clone();
                        named = true;
                    },
                    XmlEvent::StartElement { name: n, .. } => {
                        name = n.clone();
                        named = true;
                    },
                    _ => {
                        name = String::new();
                        named = false;
                    },
                }
            },
        }
        proof {
            lemma_peek_caches(b0, c0, root.buf(), ge);
            assert(peeked(b0, c0, root.buf(), ge));
        }
        if !named {
            return Err(Error::UnexpectedToken);
        }
        state.set_map_value();
        Ok((name, VariantAccess::new(self.de)))
    }
}

impl VariantAccess {
    /// Bind a payload decode to a view.
    pub fn new(de: ChildXmlBuffer) -> (va: VariantAccess)
        ensures
            va.de == de,
    {
        VariantAccess { de }
    }

    /// Decode a unit payload: bare character data needs no further token;
    /// a start-tag must carry no attributes — else the decode fails,
    /// reporting the unexpected attribute count — and must be closed at
    /// once by its matching end-tag. Clears the one-shot value flag.
    pub fn unit_variant(
        &mut self,
        root: &mut RootXmlBuffer,
        state: &mut DeserializerState,
    ) -> (r: Result<(), Error>)
        requires
            old(root).wf(),
            0 <= old(self).de.pos() <= old(root).buf().len(),
        ensures
            final(root).wf(),
            0 <= final(self).de.pos() <= final(root).buf().len(),
            !final(state).map_value,
            ({
                let pk = peek_spec(old(root).buf(), old(self).de.pos());
                &&& (pk matches Some(e) ==> (e matches XmlEvent::Characters(_) ==> (r == Ok::<
                    (),
                    Error,
                >(()) && final(state).depth == old(state).depth && child_consumed(
                    old(root).buf(),
                    old(self).de.pos(),
                    final(root).buf(),
                    final(self).de.pos(),
                    e,
                ))))
                &&& (pk matches Some(e) ==> (e matches XmlEvent::StartElement {
                    attributes,
                    ..
                } ==> ((attributes@.len() > 0 && old(state).depth < MAX_DEPTH) ==> (r == Err::<
                    (),
                    Error,
                >(Error::InvalidLength(attributes@.len() as usize)) && final(root).buf() == old(root).buf().update(
                    first_live(old(root).buf(), old(self).de.pos()),
                    CachedXmlEvent::Used,
                ) && final(self).de.pos() == first_live(old(root).buf(), old(self).de.pos())
                    + 1))))
                &&& (pk matches Some(e) ==> (e matches XmlEvent::StartElement {
                    name,
                    attributes,
                } ==> ((attributes@.len() == 0 && old(state).depth < MAX_DEPTH) ==> ({
                    let i = first_live(old(root).buf(), old(self).de.pos());
                    let b1 = old(root).buf().update(i, CachedXmlEvent::Used);
                    let pk2 = peek_spec(b1, i + 1);
                    &&& (pk2 matches Some(e2) ==> (e2 matches XmlEvent::EndElement { name: n2 }
                        ==> (n2@ == name@ ==> (r == Ok::<(), Error>(()) && final(state).depth
                        == old(state).depth && final(root).buf() == b1.update(
                        first_live(b1, i + 1),
                        CachedXmlEvent::Used,
                    ) && final(self).de.pos() == first_live(b1, i + 1) + 1))))
                    &&& (pk2 matches Some(e2) ==> (e2 matches XmlEvent::EndElement { name: n2 }
                        ==> (n2@ != name@ ==> r == Err::<(), Error>(Error::UnexpectedToken))))
                    &&& (pk2 matches Some(e2) ==> ((e2 matches XmlEvent::Characters(_) || e2
                        matches XmlEvent::EndDocument) ==> r == Err::<(), Error>(
                        Error::UnexpectedToken,
                    )))
                }))))
                &&& (pk matches Some(e) ==> ((e matches XmlEvent::EndElement { .. } || e
                    matches XmlEvent::EndDocument) ==> r == Err::<(), Error>(
                    Error::UnexpectedToken,
                )))
            }),
    {
        let _ = state.unset_map_value();
        match next_tracked(&mut self.de, root, state) {
            Err(e) => Err(e),
            Ok(XmlEvent::Characters(_)) => Ok(()),
            Ok(XmlEvent::StartElement { name, attributes }) => {
                if attributes.len() > 0 {
                    Err(Error::InvalidLength(attributes.len()))
                } else {
                    expect_end_element(&name, &mut self.de, root, state)
                }
            },
            Ok(_) => Err(Error::UnexpectedToken),
        }
    }

    /// Decode a newtype payload: exactly one nested value, read through
    /// the current view.
    pub fn newtype_variant(
        &mut self,
        root: &mut RootXmlBuffer,
        state: &mut DeserializerState,
    ) -> (r: Result<String, Error>)
        requires
            old(root).wf(),
            0 <= old(self).de.pos() <= old(root).buf().len(),
        ensures
            final(root).wf(),
            0 <= final(self).de.pos() <= final(root).buf().len(),
            !final(state).map_value,
            r matches Ok(_) ==> final(state).depth == old(state).depth,
            ({
                let pk = peek_spec(old(root).buf(), old(self).de.pos());
                &&& (pk matches Some(e) ==> (e matches XmlEvent::Characters(s) ==> (r == Ok::<
                    String,
                    Error,
                >(s) && child_consumed(
                    old(root).buf(),
                    old(self).de.pos(),
                    final(root).buf(),
                    final(self).de.pos(),
                    e,
                ))))
                &&& (pk matches Some(e) ==> ((e matches XmlEvent::EndElement { .. } || e
                    matches XmlEvent::EndDocument) ==> r == Err::<String, Error>(
                    Error::UnexpectedToken,
                )))
            }),
            ({
                let evs = live_events(old(root).buf(), old(self).de.pos());
                decode_value_spec(evs) matches Some(p) ==> ((old(state).depth as int) + p.1
                    <= MAX_DEPTH as int ==> ((r matches Ok(t) && t@ == p.0) && final(root).buf()
                    == consume_n(old(root).buf(), old(self).de.pos(), p.1).0 && final(self).de.pos() == consume_n(old(root).buf(), old(self).de.pos(), p.1).1 && final(state).depth == old(state).depth))
            }),
    {
        decode_element(&mut self.de, root, state)
    }
}

} // verus!
