//! The sequence access object: enumerates the repeated values that
//! together form one sequence-typed field, deciding per call whether
//! another value belongs to the sequence and where the sequence ends.

use vstd::prelude::*;

use crate::buffer::{
    child_consumed, consume_n, first_live, lemma_peek_caches, live_events, peek_spec, peeked,
    CachedXmlEvent, ChildXmlBuffer, RootXmlBuffer,
};
use crate::de::{decode_element, decode_value_spec, next_tracked, skip_tracked};
use crate::error::Error;
use crate::events::{closes_scope, XmlEvent};
use crate::state::{DeserializerState, MAX_DEPTH};

verus! {

/// Which events continue the sequence.
pub enum SeqType {
    /// Sequence of elements with the same name: only a start-tag carrying
    /// the expected name continues it.
    SameElement { expected_name: String },
    /// Sequence of values of several kinds: runs of character data are
    /// its one supported form; sibling variants out of order are not.
    AnyType,
}

/// The sequence access object: a bound child view, the depth the
/// sequence started at, an optional remaining-count limit, and the kind
/// of event that continues the sequence.
pub struct SeqAccess {
    pub child: ChildXmlBuffer,
    pub starting_depth: usize,
    pub max_size: Option<usize>,
    pub seq_type: SeqType,
}

/// Whether the cached slot after the view's next one holds an event that
/// closes the enclosing scope — so a view that passes over its next event
/// finds the scope's end right behind it.
pub open spec fn second_cached_closes(b: Seq<CachedXmlEvent>, c: int) -> bool {
    let pk2 = peek_spec(b, first_live(b, c) + 1);
    pk2 matches Some(e2) && closes_scope(e2)
}

/// How a call that decodes the next cached value in place relates the
/// state before (`b`, `c`, depth `d`) to the result and the state after:
/// when the cached stream begins with a complete value whose decode stays
/// under the depth bound, the call yields exactly that value's character
/// data, tombstones exactly its events, and keeps the depth.
pub open spec fn decoded_cached_value(
    b: Seq<CachedXmlEvent>,
    c: int,
    d: int,
    r: Result<Option<String>, Error>,
    b2: Seq<CachedXmlEvent>,
    c2: int,
    d2: int,
    map2: bool,
) -> bool {
    decode_value_spec(live_events(b, c)) matches Some(p) ==> (d + p.1 <= MAX_DEPTH as int ==> ({
        &&& r matches Ok(o) && o matches Some(t) && t@ == p.0
        &&& b2 == consume_n(b, c, p.1).0
        &&& c2 == consume_n(b, c, p.1).1
        &&& d2 == d
        &&& !map2
    }))
}

/// Pass the cursor over trailing events — adjusting the depth as they
/// go by — until the depth comes back to `sd`, where a sequence access
/// may decide again. Where the depth is already there, nothing happens.
fn recover_depth(
    child: &mut ChildXmlBuffer,
    root: &mut RootXmlBuffer,
    state: &mut DeserializerState,
    sd: usize,
) -> (r: Result<(), Error>)
    requires
        old(root).wf(),
        0 <= old(child).pos() <= old(root).buf().len(),
        sd <= old(state).depth,
    ensures
        final(root).wf(),
        0 <= final(child).pos() <= final(root).buf().len(),
        final(state).map_value == old(state).map_value,
        sd <= final(state).depth,
        r matches Ok(_) ==> final(state).depth == sd,
        old(state).depth == sd ==> r == Ok::<(), Error>(()) && final(root).buf() == old(root).buf() && final(child).pos() == old(child).pos() && final(state).depth == sd,
{
    let mut fuel: u64 = u64::MAX;
    loop
        invariant
            root.wf(),
            0 <= child.pos() <= root.buf().len(),
            state.map_value == old(state).map_value,
            sd <= state.depth,
            old(state).depth == sd ==> root.buf() == old(root).buf() && child.pos() == old(child).pos() && state.depth == sd,
        ensures
            state.depth == sd,
        decreases fuel,
    {
        if state.depth <= sd {
            break ;
        }
        if fuel == 0 {
            return Err(Error::UnexpectedEof);
        }
        fuel = fuel - 1;
        match skip_tracked(child, root, state) {
            Err(e) => {
                return Err(e);
            },
            Ok(_) => {},
        }
    }
    Ok(())
}

impl SeqAccess {
    /// Build a sequence access over a child view. When the traversal
    /// state says a field's value is next, the sequence is made of
    /// elements named like the next start-tag — anything else in that
    /// position is refused; otherwise it is a sequence of untagged
    /// values. The one-shot value flag is consumed either way.
    pub fn new(
        child: ChildXmlBuffer,
        root: &mut RootXmlBuffer,
        state: &mut DeserializerState,
        starting_depth: usize,
        max_size: Option<usize>,
    ) -> (r: Result<SeqAccess, Error>)
        requires
            old(root).wf(),
            0 <= child.pos() <= old(root).buf().len(),
        ensures
            final(root).wf(),
            old(root).buf().len() <= final(root).buf().len(),
            final(state).depth == old(state).depth,
            !final(state).map_value,
            r matches Err(_) ==> old(state).map_value,
            r matches Ok(sa) ==> sa.starting_depth == starting_depth && sa.max_size == max_size
                && sa.child.pos() == child.pos(),
            r matches Ok(sa) ==> (!old(state).map_value ==> (sa.seq_type
                matches SeqType::AnyType) && final(root).buf() == old(root).buf()),
            r matches Ok(sa) ==> (old(state).map_value ==> exists|e: XmlEvent|
                {
                    &&& #[trigger] peeked(old(root).buf(), child.pos(), final(root).buf(), e)
                    &&& e matches XmlEvent::StartElement { name, .. } ==> sa.seq_type == (
                    SeqType::SameElement { expected_name: name })
                    &&& e matches XmlEvent::StartElement { .. }
                }),
            ({
                let pk = peek_spec(old(root).buf(), child.pos());
                &&& (old(state).map_value ==> (pk matches Some(e) ==> (e
                    matches XmlEvent::StartElement { name, .. } ==> (r matches Ok(sa)
                    && sa.seq_type == (SeqType::SameElement { expected_name: name })))))
                &&& (old(state).map_value ==> (pk matches Some(e) ==> (!(e
                    matches XmlEvent::StartElement { .. }) ==> r == Err::<SeqAccess, Error>(
                    Error::UnexpectedToken,
                ))))
            }),
    {
        let ghost b0 = root.buf();
        let ghost c0: int = child.pos();
        let seq_type: SeqType;
        if state.unset_map_value() {
            let ghost mut ge: XmlEvent = XmlEvent::EndDocument;
            let name: String;
            match child.peek(root) {
                Err(e) => {
                    return Err(e);
                },
                Ok(ev) => {
                    proof {
                        ge = *ev;
                    }
                    match ev {
                        XmlEvent::StartElement { name: n, .. } => {
                            name = n.clone();
                        },
                        _ => {
                            return Err(Error::UnexpectedToken);
                        },
                    }
                },
            }
            proof {
                lemma_peek_caches(b0, c0, root.buf(), ge);
                assert(peeked(b0, c0, root.buf(), ge));
            }
            seq_type = SeqType::SameElement { expected_name: name };
        } else {
            seq_type = SeqType::AnyType;
        }
        Ok(SeqAccess { child, starting_depth, max_size, seq_type })
    }

    /// The remaining-count limit, when one was configured.
    pub fn size_hint(&self) -> (r: Option<usize>)
        ensures
            r == self.max_size,
    {
        self.max_size
    }

    /// Decode the next value of the sequence, or report that the
    /// sequence is over. A configured remaining count of zero ends it at
    /// once. For a same-name sequence: after recovering the starting
    /// depth over any trailing events of a previous value, a start-tag
    /// with the expected name is decoded as the next value; an end-tag or
    /// the end of the document ends the sequence, both left unconsumed
    /// for the enclosing scope; anything else is passed over without
    /// being consumed, and the decision is made again at the next event.
    /// For an untagged sequence: character data is the next value; an
    /// end-tag or the end of the document ends the sequence; a start-tag
    /// would begin an out-of-order variant sequence, which is not
    /// supported. Every call must re-enter at the sequence's starting
    /// depth; whenever a call succeeds it leaves the depth there again.
    pub fn next_element(
        &mut self,
        root: &mut RootXmlBuffer,
        state: &mut DeserializerState,
    ) -> (r: Result<Option<String>, Error>)
        requires
            old(root).wf(),
            0 <= old(self).child.pos() <= old(root).buf().len(),
            old(state).depth == old(self).starting_depth,
        ensures
            final(root).wf(),
            0 <= final(self).child.pos() <= final(root).buf().len(),
            final(self).starting_depth == old(self).starting_depth,
            final(self).seq_type == old(self).seq_type,
            r matches Ok(_) ==> final(state).depth == old(self).starting_depth,
            old(self).max_size == Some(0usize) ==> r == Ok::<Option<String>, Error>(None)
                && *final(self) == *old(self) && final(root).buf() == old(root).buf() && *final(state) == *old(state),
            r matches Ok(o) ==> (o matches Some(_) ==> (old(self).max_size != Some(0usize)
                && !final(state).map_value && (old(self).max_size matches Some(n)
                ==> final(self).max_size == Some((n - 1) as usize)))),
            r matches Ok(o) ==> (o is None ==> final(state).map_value == old(state).map_value),
            ({
                let pk = peek_spec(old(root).buf(), old(self).child.pos());
                &&& (old(self).max_size != Some(0usize) ==> (pk matches Some(e) ==> ((e
                    matches XmlEvent::EndElement { .. } || e matches XmlEvent::EndDocument) ==> (r
                    == Ok::<Option<String>, Error>(None) && final(root).buf() == old(root).buf()
                    && final(self).child.pos() == old(self).child.pos() && final(state).depth
                    == old(state).depth))))
                &&& (old(self).max_size != Some(0usize) ==> (old(self).seq_type
                    matches SeqType::SameElement { expected_name } ==> (pk matches Some(e) ==> (e
                    matches XmlEvent::StartElement { name, .. } ==> (name@ == expected_name@ ==> (r
                    matches Ok(o) ==> o is Some))))))
                &&& (old(self).max_size != Some(0usize) ==> (old(self).seq_type
                    matches SeqType::AnyType ==> (pk matches Some(e) ==> (e
                    matches XmlEvent::Characters(s) ==> (r == Ok::<Option<String>, Error>(
                    Some(s),
                ) && child_consumed(
                    old(root).buf(),
                    old(self).child.pos(),
                    final(root).buf(),
                    final(self).child.pos(),
                    e,
                ) && final(state).depth == old(state).depth)))))
                &&& (old(self).max_size != Some(0usize) ==> (old(self).seq_type
                    matches SeqType::SameElement { expected_name } ==> (pk matches Some(e) ==> (e
                    matches XmlEvent::StartElement { name, .. } ==> (name@ == expected_name@
                    ==> decoded_cached_value(
                    old(root).buf(),
                    old(self).child.pos(),
                    old(state).depth as int,
                    r,
                    final(root).buf(),
                    final(self).child.pos(),
                    final(state).depth as int,
                    final(state).map_value,
                ))))))
                &&& (old(self).max_size != Some(0usize) ==> (old(self).seq_type
                    matches SeqType::SameElement { expected_name } ==> (pk matches Some(e) ==> (e
                    matches XmlEvent::StartElement { name, .. } ==> (name@ != expected_name@
                    && second_cached_closes(old(root).buf(), old(self).child.pos()) ==> (r
                    == Ok::<Option<String>, Error>(None) && final(root).buf() == old(root).buf()
                    && final(self).child.pos() == first_live(old(root).buf(), old(self).child.pos())
                    + 1 && final(state).depth == old(state).depth))))))
                &&& (old(self).max_size != Some(0usize) ==> (old(self).seq_type
                    matches SeqType::AnyType ==> (pk matches Some(e) ==> (e
                    matches XmlEvent::StartElement { .. } ==> r == Err::<Option<String>, Error>(
                    Error::Unsupported,
                )))))
            }),
    {
        match self.max_size {
            Some(0) => {
                return Ok(None);
            },
            Some(n) => {
                self.max_size = Some(n - 1);
            },
            None => {},
        }
        let ghost b0 = root.buf();
        let ghost c0: int = self.child.pos();
        let ghost ms1 = self.max_size;
        let sd: usize = self.starting_depth;
        match &self.seq_type {
            SeqType::SameElement { expected_name } => {
                let ghost mut started: bool = false;
                let mut fuel: u64 = u64::MAX;
                loop
                    invariant
                        b0 == old(root).buf(),
                        c0 == old(self).child.pos(),
                        root.wf(),
                        0 <= self.child.pos() <= root.buf().len(),
                        sd == old(self).starting_depth,
                        old(state).depth == sd,
                        self.starting_depth == old(self).starting_depth,
                        self.seq_type == old(self).seq_type,
                        old(self).seq_type == (SeqType::SameElement {
                            expected_name: *expected_name,
                        }),
                        self.max_size == ms1,
                        old(self).max_size != Some(0usize),
                        (old(self).max_size matches Some(n) ==> ms1 == Some((n - 1) as usize)),
                        sd <= state.depth,
                        state.map_value == old(state).map_value,
                        !started ==> root.buf() == b0 && self.child.pos() == c0 && state.depth
                            == old(state).depth && state.depth == sd && fuel == u64::MAX,
                        started ==> ({
                            let pk = peek_spec(b0, c0);
                            pk matches Some(e) ==> !(e matches XmlEvent::EndElement { .. }) && !(e
                                matches XmlEvent::EndDocument) && (e
                                matches XmlEvent::StartElement { name, .. } ==> name@
                                != expected_name@)
                        }),
                        started ==> ({
                            let pk = peek_spec(b0, c0);
                            pk matches Some(e) ==> (e matches XmlEvent::StartElement { .. } ==> (
                            second_cached_closes(b0, c0) ==> (root.buf() == b0 && self.child.pos()
                                == first_live(b0, c0) + 1 && state.depth == old(state).depth
                                && fuel as int >= u64::MAX - 1)))
                        }),
                    decreases fuel,
                {
                    if fuel == 0 {
                        return Err(Error::UnexpectedEof);
                    }
                    fuel = fuel - 1;
                    // depth recovery: drain the trailing events of a
                    // previously decoded value until the sequence's own
                    // depth is restored
                    match recover_depth(&mut self.child, root, state, sd) {
                        Err(e) => {
                            return Err(e);
                        },
                        Ok(_) => {},
                    }
                    // decide at the next event
                    let ghost bb = root.buf();
                    let ghost cc: int = self.child.pos();
                    let ghost mut ge: XmlEvent = XmlEvent::EndDocument;
                    let decision: u8;
                    match self.child.peek(root) {
                        Err(e) => {
                            return Err(e);
                        },
                        Ok(ev) => {
                            proof {
                                ge = *ev;
                            }
                            decision = match ev {
                                XmlEvent::StartElement { name, .. } => {
                                    if *name == *expected_name {
                                        0
                                    } else {
                                        2
                                    }
                                },
                                XmlEvent::EndElement { .. } => 1,
                                XmlEvent::EndDocument => 1,
                                _ => 2,
                            };
                        },
                    }
                    proof {
                        lemma_peek_caches(bb, cc, root.buf(), ge);
                    }
                    if decision == 0 {
                        state.set_map_value();
                        return match decode_element(&mut self.child, root, state) {
                            Ok(t) => Ok(Some(t)),
                            Err(e) => Err(e),
                        };
                    } else if decision == 1 {
                        return Ok(None);
                    } else {
                        self.child.skip(root);
                        proof {
                            started = true;
                        }
                    }
                }
            },
            SeqType::AnyType => {
                let ghost mut ge: XmlEvent = XmlEvent::EndDocument;
                let decision: u8;
                match self.child.peek(root) {
                    Err(e) => {
                        return Err(e);
                    },
                    Ok(ev) => {
                        proof {
                            ge = *ev;
                        }
                        decision = match ev {
                            XmlEvent::Characters(_) => 0,
                            XmlEvent::EndElement { .. } => 1,
                            XmlEvent::EndDocument => 1,
                            XmlEvent::StartElement { .. } => 2,
                            XmlEvent::Insignificant => 3,
                        };
                    },
                }
                proof {
                    lemma_peek_caches(b0, c0, root.buf(), ge);
                }
                if decision == 0 {
                    let _ = state.unset_map_value();
                    match next_tracked(&mut self.child, root, state) {
                        Err(e) => Err(e),
                        Ok(XmlEvent::Characters(s)) => Ok(Some(s)),
                        Ok(_) => vstd::pervasive::unreached(),
                    }
                } else if decision == 1 {
                    Ok(None)
                } else if decision == 2 {
                    Err(Error::Unsupported)
                } else {
                    vstd::pervasive::unreached()
                }
            },
        }
    }
}

} // verus!
