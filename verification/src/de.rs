//! The glue between the buffer views and the traversal state: consumption
//! and skipping that keep the nesting depth in step, the end-tag check,
//! and the decoding of one simple value — bare character data, or one
//! whole element whose character data is gathered up.

use vstd::prelude::*;

use crate::buffer::{
    child_consumed, consume_n, first_live, lemma_buf_len_bounded, lemma_consume_n,
    lemma_live_events_len, lemma_live_events_step, lemma_peek_caches, live_events, peek_spec,
    peeked, ChildXmlBuffer, RootXmlBuffer,
};
use crate::error::Error;
use crate::events::{is_significant, XmlEvent};
use crate::state::{DeserializerState, MAX_DEPTH};

verus! {

/// The nesting depth after consuming one event: up on a start-tag, down
/// on an end-tag, never below the document root.
pub open spec fn depth_after(d: int, e: XmlEvent) -> int {
    match e {
        XmlEvent::StartElement { .. } => d + 1,
        XmlEvent::EndElement { .. } => if d > 0 {
            d - 1
        } else {
            0
        },
        _ => d,
    }
}

/// Consume the next significant event through a child view, keeping the
/// traversal depth in step. A start-tag at the defensive depth bound is
/// refused with a dedicated error.
pub fn next_tracked(
    child: &mut ChildXmlBuffer,
    root: &mut RootXmlBuffer,
    state: &mut DeserializerState,
) -> (r: Result<XmlEvent, Error>)
    requires
        old(root).wf(),
        0 <= old(child).pos() <= old(root).buf().len(),
    ensures
        final(root).wf(),
        0 <= final(child).pos() <= final(root).buf().len(),
        final(state).map_value == old(state).map_value,
        r matches Ok(e) ==> is_significant(e) && child_consumed(
            old(root).buf(),
            old(child).pos(),
            final(root).buf(),
            final(child).pos(),
            e,
        ) && final(state).depth as int == depth_after(old(state).depth as int, e) && (
        e matches XmlEvent::StartElement { .. } ==> old(state).depth < MAX_DEPTH),
        r matches Err(_) ==> final(state).depth == old(state).depth,
        ({
            let pk = peek_spec(old(root).buf(), old(child).pos());
            pk matches Some(e) ==> if e matches XmlEvent::StartElement { .. } && old(state).depth
                >= MAX_DEPTH {
                r == Err::<XmlEvent, Error>(Error::DepthLimitExceeded)
            } else {
                r == Ok::<XmlEvent, Error>(e)
            }
        }),
{
    match child.next(root) {
        Err(e) => Err(e),
        Ok(ev) => {
            match &ev {
                XmlEvent::StartElement { .. } => {
                    if state.depth >= MAX_DEPTH {
                        return Err(Error::DepthLimitExceeded);
                    }
                    state.depth = state.depth + 1;
                },
                XmlEvent::EndElement { .. } => {
                    if state.depth > 0 {
                        state.depth = state.depth - 1;
                    }
                },
                _ => {},
            }
            Ok(ev)
        },
    }
}

/// Skip the next significant event for this view only — peek it, pass the
/// cursor over it — while keeping the traversal depth in step, so that a
/// sequence access can recover its depth over trailing events without
/// consuming what the enclosing scope still needs.
pub fn skip_tracked(
    child: &mut ChildXmlBuffer,
    root: &mut RootXmlBuffer,
    state: &mut DeserializerState,
) -> (r: Result<(), Error>)
    requires
        old(root).wf(),
        0 <= old(child).pos() <= old(root).buf().len(),
    ensures
        final(root).wf(),
        0 <= final(child).pos() <= final(root).buf().len(),
        final(state).map_value == old(state).map_value,
        r matches Ok(_) ==> exists|e: XmlEvent|
            #[trigger] peeked(old(root).buf(), old(child).pos(), final(root).buf(), e) && final(child).pos() == first_live(final(root).buf(), old(child).pos()) + 1 && final(state).depth as int == depth_after(old(state).depth as int, e) && (
            e matches XmlEvent::StartElement { .. } ==> old(state).depth < MAX_DEPTH),
        r matches Err(_) ==> final(child).pos() == old(child).pos() && final(state).depth == old(state).depth,
        ({
            let pk = peek_spec(old(root).buf(), old(child).pos());
            pk matches Some(e) ==> final(root).buf() == old(root).buf() && if e
                matches XmlEvent::StartElement { .. } && old(state).depth >= MAX_DEPTH {
                r == Err::<(), Error>(Error::DepthLimitExceeded)
            } else {
                r == Ok::<(), Error>(()) && final(child).pos() == first_live(
                    old(root).buf(),
                    old(child).pos(),
                ) + 1 && final(state).depth as int == depth_after(old(state).depth as int, e)
            }
        }),
{
    let ghost b0 = root.buf();
    let ghost c0: int = child.pos();
    let ghost mut ge: XmlEvent = XmlEvent::EndDocument;
    let kind: u8;
    match child.peek(root) {
        Err(e) => {
            return Err(e);
        },
        Ok(ev) => {
            proof {
                ge = *ev;
            }
            kind = match ev {
                XmlEvent::StartElement { .. } => 1,
                XmlEvent::EndElement { .. } => 2,
                _ => 0,
            };
        },
    }
    proof {
        lemma_peek_caches(b0, c0, root.buf(), ge);
    }
    if kind == 1 && state.depth >= MAX_DEPTH {
        return Err(Error::DepthLimitExceeded);
    }
    child.skip(root);
    if kind == 1 {
        state.depth = state.depth + 1;
    } else if kind == 2 {
        if state.depth > 0 {
            state.depth = state.depth - 1;
        }
    }
    Ok(())
}

/// Consume the next event and demand that it is the end-tag closing the
/// element named `expected`.
pub fn expect_end_element(
    expected: &String,
    child: &mut ChildXmlBuffer,
    root: &mut RootXmlBuffer,
    state: &mut DeserializerState,
) -> (r: Result<(), Error>)
    requires
        old(root).wf(),
        0 <= old(child).pos() <= old(root).buf().len(),
    ensures
        final(root).wf(),
        0 <= final(child).pos() <= final(root).buf().len(),
        final(state).map_value == old(state).map_value,
        r matches Ok(_) ==> exists|e: XmlEvent|
            {
                &&& #[trigger] child_consumed(
                    old(root).buf(),
                    old(child).pos(),
                    final(root).buf(),
                    final(child).pos(),
                    e,
                )
                &&& e matches XmlEvent::EndElement { name } && name@ == expected@ && final(state).depth as int == depth_after(old(state).depth as int, e)
            },
        ({
            let pk = peek_spec(old(root).buf(), old(child).pos());
            &&& (pk matches Some(e) ==> (e matches XmlEvent::EndElement { name } ==> (name@
                == expected@ ==> (r == Ok::<(), Error>(()) && child_consumed(
                old(root).buf(),
                old(child).pos(),
                final(root).buf(),
                final(child).pos(),
                e,
            )))))
            &&& (pk matches Some(e) ==> (e matches XmlEvent::EndElement { name } ==> (name@
                != expected@ ==> r == Err::<(), Error>(Error::UnexpectedToken))))
            &&& (pk matches Some(e) ==> ((e matches XmlEvent::Characters(_) || e
                matches XmlEvent::EndDocument) ==> r == Err::<(), Error>(Error::UnexpectedToken)))
        }),
{
    match next_tracked(child, root, state) {
        Err(e) => Err(e),
        Ok(XmlEvent::EndElement { name }) => {
            if name == *expected {
                Ok(())
            } else {
                Err(Error::UnexpectedToken)
            }
        },
        Ok(_) => Err(Error::UnexpectedToken),
    }
}

/// The character data gathered from the event stream `s` starting at
/// `i`, with `d` elements of the value still open, together with the
/// position just past the end-tag that closes the value — when the
/// stream from `i` on completes the value, and nothing otherwise.
pub open spec fn gather_text(s: Seq<XmlEvent>, i: int, d: int) -> Option<(Seq<char>, int)>
    decreases s.len() - i,
{
    if i < 0 || i >= s.len() || d <= 0 {
        None
    } else {
        match s[i] {
            XmlEvent::Characters(t) => match gather_text(s, i + 1, d) {
                Some(p) => Some((t@ + p.0, p.1)),
                None => None,
            },
            XmlEvent::StartElement { .. } => gather_text(s, i + 1, d + 1),
            XmlEvent::EndElement { .. } => if d == 1 {
                Some((Seq::<char>::empty(), i + 1))
            } else {
                gather_text(s, i + 1, d - 1)
            },
            _ => None,
        }
    }
}

/// What decoding one value from the event stream `s` yields, when `s`
/// begins with a complete value: the value's character data, and how
/// many events the decode consumes.
pub open spec fn decode_value_spec(s: Seq<XmlEvent>) -> Option<(Seq<char>, int)> {
    if s.len() == 0 {
        None
    } else {
        match s[0] {
            XmlEvent::Characters(t) => Some((t@, 1)),
            XmlEvent::StartElement { .. } => gather_text(s, 1, 1),
            _ => None,
        }
    }
}

/// A completed gather ends past where it started and within the stream.
pub proof fn lemma_gather_bounds(s: Seq<XmlEvent>, i: int, d: int)
    ensures
        gather_text(s, i, d) matches Some(p) ==> i < p.1 <= s.len(),
    decreases s.len() - i,
{
    if 0 <= i < s.len() && d > 0 {
        match s[i] {
            XmlEvent::Characters(_) => lemma_gather_bounds(s, i + 1, d),
            XmlEvent::StartElement { .. } => lemma_gather_bounds(s, i + 1, d + 1),
            XmlEvent::EndElement { .. } => lemma_gather_bounds(s, i + 1, d - 1),
            _ => {},
        }
    }
}

/// Decode one simple value through a child view: bare character data
/// yields itself; a start-tag opens an element whose whole subtree is
/// consumed, gathering all its character data, up to and including the
/// matching end-tag. Clears the one-shot value flag, and restores the
/// depth it entered with whenever it succeeds. An end-tag or the end of
/// the document in value position is refused without being consumed.
pub fn decode_element(
    child: &mut ChildXmlBuffer,
    root: &mut RootXmlBuffer,
    state: &mut DeserializerState,
) -> (r: Result<String, Error>)
    requires
        old(root).wf(),
        0 <= old(child).pos() <= old(root).buf().len(),
    ensures
        final(root).wf(),
        0 <= final(child).pos() <= final(root).buf().len(),
        !final(state).map_value,
        r matches Ok(_) ==> final(state).depth == old(state).depth,
        ({
            let pk = peek_spec(old(root).buf(), old(child).pos());
            &&& (pk matches Some(e) ==> (e matches XmlEvent::Characters(s) ==> (r == Ok::<
                String,
                Error,
            >(s) && child_consumed(
                old(root).buf(),
                old(child).pos(),
                final(root).buf(),
                final(child).pos(),
                e,
            ) && final(state).depth == old(state).depth)))
            &&& (pk matches Some(e) ==> ((e matches XmlEvent::EndElement { .. } || e
                matches XmlEvent::EndDocument) ==> (r == Err::<String, Error>(
                Error::UnexpectedToken,
            ) && final(root).buf() == old(root).buf() && final(child).pos() == old(child).pos()
                && final(state).depth == old(state).depth)))
        }),
        ({
            let evs = live_events(old(root).buf(), old(child).pos());
            decode_value_spec(evs) matches Some(p) ==> ((old(state).depth as int) + p.1
                <= MAX_DEPTH as int ==> ((r matches Ok(t) && t@ == p.0) && final(root).buf()
                == consume_n(old(root).buf(), old(child).pos(), p.1).0 && final(child).pos()
                == consume_n(old(root).buf(), old(child).pos(), p.1).1 && final(state).depth
                == old(state).depth))
        }),
{
    let _ = state.unset_map_value();
    let ghost b0 = root.buf();
    let ghost c0: int = child.pos();
    let ghost d0: int = state.depth as int;
    let ghost evs0 = live_events(b0, c0);
    let ghost dv = decode_value_spec(evs0);
    let ghost pr: (Seq<char>, int) = match dv {
        Some(p) => p,
        None => (Seq::<char>::empty(), 0),
    };
    let ghost txt0 = pr.0;
    let ghost n0 = pr.1;
    let ghost cached: bool = dv is Some && d0 + n0 <= MAX_DEPTH as int;
    let ghost mut ge: XmlEvent = XmlEvent::EndDocument;
    let kind: u8;
    match child.peek(root) {
        Err(e) => {
            proof {
                if cached {
                    lemma_live_events_len(b0, c0);
                }
            }
            return Err(e);
        },
        Ok(ev) => {
            proof {
                ge = *ev;
            }
            kind = match ev {
                XmlEvent::Characters(_) => 0,
                XmlEvent::StartElement { .. } => 1,
                _ => 2,
            };
        },
    }
    proof {
        lemma_peek_caches(b0, c0, root.buf(), ge);
        if cached {
            lemma_live_events_len(b0, c0);
            lemma_live_events_step(b0, c0);
            lemma_consume_n(b0, c0, 0);
            assert(ge == evs0[0]);
        }
    }
    if kind == 2 {
        return Err(Error::UnexpectedToken);
    }
    if kind == 0 {
        match next_tracked(child, root, state) {
            Err(e) => Err(e),
            Ok(XmlEvent::Characters(s)) => {
                proof {
                    if cached {
                        assert(evs0[0] == XmlEvent::Characters(s));
                        assert(decode_value_spec(evs0) == Some((s@, 1int)));
                    }
                }
                Ok(s)
            },
            Ok(_) => vstd::pervasive::unreached(),
        }
    } else {
        let entry_depth: usize = state.depth;
        proof {
            if cached {
                lemma_gather_bounds(evs0, 1, 1);
                assert(decode_value_spec(evs0) == gather_text(evs0, 1, 1));
            }
        }
        match next_tracked(child, root, state) {
            Err(e) => {
                proof {
                    if cached {
                        assert(false);
                    }
                }
                return Err(e);
            },
            Ok(XmlEvent::StartElement { .. }) => {},
            Ok(_) => {
                return vstd::pervasive::unreached();
            },
        }
        let mut text = String::new();
        let ghost mut k: int = 1;
        let ghost mut rest: Seq<char> = txt0;
        let mut fuel: u64 = u64::MAX;
        proof {
            if cached {
                assert(text@ + rest =~= txt0);
            }
        }
        loop
            invariant
                root.wf(),
                0 <= child.pos() <= root.buf().len(),
                !state.map_value,
                entry_depth == old(state).depth,
                entry_depth < state.depth,
                b0 == old(root).buf(),
                c0 == old(child).pos(),
                d0 == old(state).depth as int,
                evs0 == live_events(b0, c0),
                dv == decode_value_spec(evs0),
                dv matches Some(q) ==> q.0 == txt0 && q.1 == n0,
                cached == (decode_value_spec(evs0) is Some && d0 + n0 <= MAX_DEPTH as int),
                cached ==> decode_value_spec(evs0) == Some((txt0, n0)),
                ({
                    let pk = peek_spec(old(root).buf(), old(child).pos());
                    pk matches Some(e) ==> e matches XmlEvent::StartElement { .. }
                }),
                cached ==> ({
                    &&& 1 <= k < n0
                    &&& n0 <= evs0.len()
                    &&& root.buf() == consume_n(b0, c0, k).0
                    &&& child.pos() == consume_n(b0, c0, k).1
                    &&& gather_text(evs0, k, state.depth as int - d0) == Some((rest, n0))
                    &&& text@ + rest == txt0
                    &&& state.depth as int - d0 <= k
                    &&& fuel as int == u64::MAX - (k - 1)
                }),
            decreases fuel,
        {
            if fuel == 0 {
                proof {
                    if cached {
                        lemma_live_events_len(b0, c0);
                        lemma_consume_n(b0, c0, k);
                        lemma_buf_len_bounded(root);
                        assert(false);
                    }
                }
                return Err(Error::UnexpectedEof);
            }
            fuel = fuel - 1;
            let ghost bc = root.buf();
            let ghost cc: int = child.pos();
            let ghost d_pre: int = state.depth as int;
            proof {
                if cached {
                    lemma_consume_n(b0, c0, k);
                    lemma_live_events_len(bc, cc);
                    lemma_live_events_step(bc, cc);
                    assert(live_events(bc, cc) == evs0.skip(k));
                    assert(live_events(bc, cc)[0] == evs0[k]);
                    assert(peek_spec(bc, cc) == Some(evs0[k]));
                }
            }
            match next_tracked(child, root, state) {
                Err(e) => {
                    proof {
                        if cached {
                            assert(false);
                        }
                    }
                    return Err(e);
                },
                Ok(XmlEvent::Characters(s)) => {
                    let ghost t_pre = text@;
                    proof {
                        if cached {
                            assert(evs0[k] == XmlEvent::Characters(s));
                            let d = d_pre - d0;
                            let inner = gather_text(evs0, k + 1, d);
                            assert(inner is Some && rest == s@ + (inner->0).0 && n0 == (inner->0).1);
                            lemma_gather_bounds(evs0, k + 1, d);
                            assert((s@ + (inner->0).0).skip(s@.len() as int) =~= (inner->0).0);
                            rest = rest.skip(s@.len() as int);
                        }
                    }
                    text.push_str(s.as_str());
                    proof {
                        if cached {
                            assert(text@ == t_pre + s@);
                            assert((t_pre + s@) + rest =~= t_pre + (s@ + rest));
                        }
                        k = k + 1;
                    }
                },
                Ok(XmlEvent::StartElement { .. }) => {
                    proof {
                        if cached {
                            assert(evs0[k] matches XmlEvent::StartElement { .. });
                            let d = d_pre - d0;
                            assert(gather_text(evs0, k, d) == gather_text(evs0, k + 1, d + 1));
                            lemma_gather_bounds(evs0, k + 1, d + 1);
                        }
                        k = k + 1;
                    }
                },
                Ok(XmlEvent::EndElement { .. }) => {
                    proof {
                        if cached {
                            assert(evs0[k] matches XmlEvent::EndElement { .. });
                            let d = d_pre - d0;
                            if d == 1 {
                                assert(gather_text(evs0, k, d) == Some((
                                    Seq::<char>::empty(),
                                    k + 1,
                                )));
                                assert(text@ + rest =~= text@);
                            } else {
                                assert(gather_text(evs0, k, d) == gather_text(evs0, k + 1, d - 1));
                                lemma_gather_bounds(evs0, k + 1, d - 1);
                            }
                        }
                        k = k + 1;
                    }
                    if state.depth == entry_depth {
                        return Ok(text);
                    }
                },
                Ok(XmlEvent::EndDocument) => {
                    proof {
                        if cached {
                            assert(false);
                        }
                    }
                    return Err(Error::UnexpectedEof);
                },
                Ok(XmlEvent::Insignificant) => {
                    return vstd::pervasive::unreached();
                },
            }
        }
    }
}

} // verus!
