//! The lookahead buffer: one shared, ordered queue of cached events, a
//! root view that owns the queue and the source and really consumes, and
//! child views that consume by tombstone so that other views keep their
//! positions.

use vstd::prelude::*;

use crate::error::Error;
use crate::events::{is_significant, XmlEvent};
use crate::source::EventSource;

verus! {

/// A buffer slot: an event no view has consumed yet, or the tombstone a
/// child view leaves behind when it consumes without removing.
pub enum CachedXmlEvent {
    Unused(XmlEvent),
    Used,
}

/// Whether a slot still holds an event.
pub open spec fn is_live(s: CachedXmlEvent) -> bool {
    s matches CachedXmlEvent::Unused(_)
}

/// The event a live slot holds.
pub open spec fn live_event(s: CachedXmlEvent) -> XmlEvent
    recommends
        is_live(s),
{
    s->0
}

/// The index of the first unconsumed slot at or after `from`, or the
/// buffer's length when every slot from there on is a tombstone.
pub open spec fn first_live(b: Seq<CachedXmlEvent>, from: int) -> int
    decreases b.len() - from,
{
    if from < 0 || from >= b.len() {
        b.len() as int
    } else if is_live(b[from]) {
        from
    } else {
        first_live(b, from + 1)
    }
}

/// What a view cursored at `c` sees next among the cached slots, if
/// anything is cached there at all.
pub open spec fn peek_spec(b: Seq<CachedXmlEvent>, c: int) -> Option<XmlEvent> {
    let i = first_live(b, c);
    if i < b.len() {
        Some(live_event(b[i]))
    } else {
        None
    }
}

/// Every live slot holds a significant event: the pipeline filters before
/// it buffers.
pub open spec fn buf_wf(b: Seq<CachedXmlEvent>) -> bool {
    forall|i: int| 0 <= i < b.len() && is_live(#[trigger] b[i]) ==> is_significant(live_event(b[i]))
}

/// `first_live` stays between `from` and the buffer's length, lands on a
/// live slot when it lands inside the buffer, and passes only tombstones.
pub proof fn lemma_first_live_bounds(b: Seq<CachedXmlEvent>, from: int)
    requires
        0 <= from <= b.len(),
    ensures
        from <= first_live(b, from) <= b.len(),
        first_live(b, from) < b.len() ==> is_live(b[first_live(b, from)]),
        forall|k: int| from <= k < first_live(b, from) ==> !is_live(#[trigger] b[k]),
    decreases b.len() - from,
{
    if from < b.len() && !is_live(b[from]) {
        lemma_first_live_bounds(b, from + 1);
    }
}

/// Appending a slot does not move an existing first live slot; where none
/// existed, the appended slot is the first live one exactly when it is
/// live.
pub proof fn lemma_first_live_push(b: Seq<CachedXmlEvent>, from: int, s: CachedXmlEvent)
    requires
        0 <= from <= b.len(),
    ensures
        first_live(b, from) < b.len() ==> first_live(b.push(s), from) == first_live(b, from),
        first_live(b, from) == b.len() && is_live(s) ==> first_live(b.push(s), from) == b.len(),
        first_live(b, from) == b.len() && !is_live(s) ==> first_live(b.push(s), from) == b.len()
            + 1,
    decreases b.len() - from,
{
    if from < b.len() {
        assert(b.push(s)[from] == b[from]);
        if !is_live(b[from]) {
            lemma_first_live_push(b, from + 1, s);
        }
    } else {
        assert(b.push(s)[from] == s);
        if !is_live(s) {
            assert(first_live(b.push(s), from + 1) == b.len() + 1);
        }
    }
}

/// Marking one slot used moves nothing for a view whose first live slot is
/// a different one.
pub proof fn lemma_first_live_update_other(b: Seq<CachedXmlEvent>, c: int, i: int)
    requires
        0 <= c <= b.len(),
        0 <= i < b.len(),
        first_live(b, c) != i,
    ensures
        first_live(b.update(i, CachedXmlEvent::Used), c) == first_live(b, c),
    decreases b.len() - c,
{
    let b2 = b.update(i, CachedXmlEvent::Used);
    if c < b.len() {
        if c == i {
            assert(is_live(b[c]) ==> first_live(b, c) == c);
            assert(!is_live(b2[c]));
            lemma_first_live_update_other(b, c + 1, i);
        } else if is_live(b[c]) {
            assert(b2[c] == b[c]);
        } else {
            assert(b2[c] == b[c]);
            lemma_first_live_update_other(b, c + 1, i);
        }
    }
}

/// Well-formedness survives cutting the buffer down to a range.
pub proof fn lemma_wf_subrange(b: Seq<CachedXmlEvent>, lo: int, hi: int)
    requires
        buf_wf(b),
        0 <= lo <= hi <= b.len(),
    ensures
        buf_wf(b.subrange(lo, hi)),
{
    assert forall|i: int|
        0 <= i < hi - lo && is_live(#[trigger] b.subrange(lo, hi)[i]) implies is_significant(
        live_event(b.subrange(lo, hi)[i]),
    ) by {
        assert(b.subrange(lo, hi)[i] == b[lo + i]);
    }
}

/// Well-formedness survives appending a significant event.
pub proof fn lemma_wf_push(b: Seq<CachedXmlEvent>, e: XmlEvent)
    requires
        buf_wf(b),
        is_significant(e),
    ensures
        buf_wf(b.push(CachedXmlEvent::Unused(e))),
{
    let b2 = b.push(CachedXmlEvent::Unused(e));
    assert forall|i: int| 0 <= i < b2.len() && is_live(#[trigger] b2[i]) implies is_significant(
        live_event(b2[i]),
    ) by {
        if i < b.len() {
            assert(b2[i] == b[i]);
        }
    }
}

/// Well-formedness survives marking a slot used.
pub proof fn lemma_wf_update_used(b: Seq<CachedXmlEvent>, i: int)
    requires
        buf_wf(b),
        0 <= i < b.len(),
    ensures
        buf_wf(b.update(i, CachedXmlEvent::Used)),
{
    let b2 = b.update(i, CachedXmlEvent::Used);
    assert forall|k: int| 0 <= k < b2.len() && is_live(#[trigger] b2[k]) implies is_significant(
        live_event(b2[k]),
    ) by {
        assert(k != i);
        assert(b2[k] == b[k]);
    }
}

/// How one `peek` through a view cursored at `c` relates the buffer before
/// (`b`) and after (`b2`) to the event it returned (`e`): either the event
/// was already cached, and nothing changes, or nothing live was cached
/// from `c` on, and the one event pulled from the source is appended.
pub open spec fn peeked(b: Seq<CachedXmlEvent>, c: int, b2: Seq<CachedXmlEvent>, e: XmlEvent) -> bool {
    if first_live(b, c) < b.len() {
        b2 == b && peek_spec(b, c) == Some(e)
    } else {
        b2 == b.push(CachedXmlEvent::Unused(e))
    }
}

/// How one consuming step of a child view cursored at `c` relates the
/// buffer and cursor before and after to the event returned: the first
/// live slot becomes a tombstone and the cursor moves past it; when
/// nothing live is cached, the buffer is untouched, the cursor rests at
/// its end, and the event came straight from the source.
pub open spec fn child_consumed(
    b: Seq<CachedXmlEvent>,
    c: int,
    b2: Seq<CachedXmlEvent>,
    c2: int,
    e: XmlEvent,
) -> bool {
    let i = first_live(b, c);
    if i < b.len() {
        b2 == b.update(i, CachedXmlEvent::Used) && e == live_event(b[i]) && c2 == i + 1
    } else {
        b2 == b && c2 == b.len()
    }
}

/// How one consuming step of the root view relates the buffer before and
/// after to the event returned: the leading tombstones and the consumed
/// slot are discarded for good; when nothing live is cached, the whole
/// buffer is drained and the event came straight from the source.
pub open spec fn root_consumed(b: Seq<CachedXmlEvent>, b2: Seq<CachedXmlEvent>, e: XmlEvent) -> bool {
    let i = first_live(b, 0);
    if i < b.len() {
        b2 == b.subrange(i + 1, b.len() as int) && e == live_event(b[i])
    } else {
        b2 == Seq::<CachedXmlEvent>::empty()
    }
}

/// After a peek, the peeked event is cached: looking again from the same
/// cursor finds exactly it.
pub proof fn lemma_peek_caches(b: Seq<CachedXmlEvent>, c: int, b2: Seq<CachedXmlEvent>, e: XmlEvent)
    requires
        0 <= c <= b.len(),
        peeked(b, c, b2, e),
    ensures
        peek_spec(b2, c) == Some(e),
        first_live(b2, c) < b2.len(),
        b.len() <= b2.len(),
        c <= b2.len(),
{
    if first_live(b, c) < b.len() {
    } else {
        lemma_first_live_bounds(b, c);
        lemma_first_live_push(b, c, CachedXmlEvent::Unused(e));
        assert(b2[b.len() as int] == CachedXmlEvent::Unused(e));
    }
}

/// Peek idempotence: two peeks through the same view with no intervening
/// consumption yield the same event, and the second changes nothing.
pub proof fn lemma_peek_idempotent(
    b: Seq<CachedXmlEvent>,
    c: int,
    b2: Seq<CachedXmlEvent>,
    e: XmlEvent,
    b3: Seq<CachedXmlEvent>,
    e2: XmlEvent,
)
    requires
        0 <= c <= b.len(),
        peeked(b, c, b2, e),
        peeked(b2, c, b3, e2),
    ensures
        e2 == e,
        b3 == b2,
{
    if first_live(b, c) < b.len() {
    } else {
        lemma_first_live_bounds(b, c);
        lemma_first_live_push(b, c, CachedXmlEvent::Unused(e));
        assert(b2[b.len() as int] == CachedXmlEvent::Unused(e));
        assert(first_live(b2, c) == b.len());
    }
}

/// Peek/next agreement for a child view: a peek followed immediately by a
/// consuming step through the same view yields the same event.
pub proof fn lemma_peek_next_agreement(
    b: Seq<CachedXmlEvent>,
    c: int,
    b2: Seq<CachedXmlEvent>,
    e: XmlEvent,
    b3: Seq<CachedXmlEvent>,
    c3: int,
    e2: XmlEvent,
)
    requires
        0 <= c <= b.len(),
        peeked(b, c, b2, e),
        child_consumed(b2, c, b3, c3, e2),
    ensures
        e2 == e,
{
    if first_live(b, c) < b.len() {
    } else {
        lemma_first_live_bounds(b, c);
        lemma_first_live_push(b, c, CachedXmlEvent::Unused(e));
        assert(b2[b.len() as int] == CachedXmlEvent::Unused(e));
        assert(first_live(b2, c) == b.len());
    }
}

/// Peek/next agreement for the root view.
pub proof fn lemma_peek_next_agreement_root(
    b: Seq<CachedXmlEvent>,
    b2: Seq<CachedXmlEvent>,
    e: XmlEvent,
    b3: Seq<CachedXmlEvent>,
    e2: XmlEvent,
)
    requires
        0 <= b.len(),
        peeked(b, 0, b2, e),
        root_consumed(b2, b3, e2),
    ensures
        e2 == e,
{
    if first_live(b, 0) < b.len() {
    } else {
        lemma_first_live_bounds(b, 0);
        lemma_first_live_push(b, 0, CachedXmlEvent::Unused(e));
        assert(b2[b.len() as int] == CachedXmlEvent::Unused(e));
        assert(first_live(b2, 0) == b.len());
    }
}

/// Child isolation, consumption: a child view consuming its next cached
/// event changes nothing for any view — the root or a sibling — whose own
/// next unconsumed slot is a different one.
pub proof fn lemma_child_isolation(b: Seq<CachedXmlEvent>, c: int, c2: int)
    requires
        0 <= c <= b.len(),
        0 <= c2 <= b.len(),
        first_live(b, c) < b.len(),
        first_live(b, c2) != first_live(b, c),
    ensures
        peek_spec(b.update(first_live(b, c), CachedXmlEvent::Used), c2) == peek_spec(b, c2),
{
    let i = first_live(b, c);
    lemma_first_live_bounds(b, c);
    lemma_first_live_update_other(b, c2, i);
    lemma_first_live_bounds(b, c2);
}

/// Child isolation over any number of consuming steps: turning slots
/// into tombstones — as child views do, one slot per consuming step —
/// never changes what another view sees next, as long as that view's own
/// next unconsumed slot is not among the consumed ones.
pub proof fn lemma_isolation_many(b: Seq<CachedXmlEvent>, b2: Seq<CachedXmlEvent>, c2: int)
    requires
        0 <= c2 <= b.len(),
        b2.len() == b.len(),
        forall|k: int|
            0 <= k < b.len() ==> #[trigger] b2[k] == b[k] || b2[k] == CachedXmlEvent::Used,
        first_live(b, c2) < b.len() ==> b2[first_live(b, c2)] == b[first_live(b, c2)],
    ensures
        peek_spec(b2, c2) == peek_spec(b, c2),
    decreases b.len() - c2,
{
    if c2 < b.len() {
        if is_live(b[c2]) {
            assert(first_live(b, c2) == c2);
            assert(b2[c2] == b[c2]);
        } else {
            assert(!is_live(b2[c2]));
            assert(first_live(b, c2) == first_live(b, c2 + 1));
            lemma_isolation_many(b, b2, c2 + 1);
        }
    }
}

/// Child isolation, lookahead: the slot a peek appends changes nothing
/// for any view that still has a cached event of its own to see.
pub proof fn lemma_append_isolation(b: Seq<CachedXmlEvent>, c2: int, e: XmlEvent)
    requires
        0 <= c2 <= b.len(),
        first_live(b, c2) < b.len(),
    ensures
        peek_spec(b.push(CachedXmlEvent::Unused(e)), c2) == peek_spec(b, c2),
{
    lemma_first_live_push(b, c2, CachedXmlEvent::Unused(e));
    lemma_first_live_bounds(b, c2);
    assert(b.push(CachedXmlEvent::Unused(e))[first_live(b, c2)] == b[first_live(b, c2)]);
}

/// The events of the live slots at or after `c`, in order: the cached
/// stream still in front of a view cursored at `c`.
pub open spec fn live_events(b: Seq<CachedXmlEvent>, c: int) -> Seq<XmlEvent>
    decreases b.len() - c,
{
    if c < 0 || c >= b.len() {
        Seq::empty()
    } else if is_live(b[c]) {
        seq![live_event(b[c])] + live_events(b, c + 1)
    } else {
        live_events(b, c + 1)
    }
}

/// The buffer and cursor after a child view consumes `n` cached events,
/// one tombstone per event.
pub open spec fn consume_n(b: Seq<CachedXmlEvent>, c: int, n: int) -> (Seq<CachedXmlEvent>, int)
    decreases n,
{
    if n <= 0 {
        (b, c)
    } else {
        let i = first_live(b, c);
        if i < b.len() {
            consume_n(b.update(i, CachedXmlEvent::Used), i + 1, n - 1)
        } else {
            (b, c)
        }
    }
}

/// The cached stream is no longer than the buffer holds slots, and it is
/// empty exactly when no live slot remains.
pub proof fn lemma_live_events_len(b: Seq<CachedXmlEvent>, c: int)
    requires
        0 <= c <= b.len(),
    ensures
        live_events(b, c).len() <= b.len() - c,
        live_events(b, c).len() > 0 <==> first_live(b, c) < b.len(),
    decreases b.len() - c,
{
    if c < b.len() {
        lemma_live_events_len(b, c + 1);
    }
}

/// Buffers that agree from `c` on carry the same cached stream there.
pub proof fn lemma_live_events_agree(b: Seq<CachedXmlEvent>, b2: Seq<CachedXmlEvent>, c: int)
    requires
        b2.len() == b.len(),
        forall|k: int| c <= k < b.len() ==> b2[k] == #[trigger] b[k],
    ensures
        live_events(b2, c) == live_events(b, c),
    decreases b.len() - c,
{
    if 0 <= c < b.len() {
        lemma_live_events_agree(b, b2, c + 1);
    }
}

/// One consuming step pops exactly the head of the cached stream.
pub proof fn lemma_live_events_step(b: Seq<CachedXmlEvent>, c: int)
    requires
        0 <= c <= b.len(),
        first_live(b, c) < b.len(),
    ensures
        live_events(b, c).len() > 0,
        live_events(b, c)[0] == live_event(b[first_live(b, c)]),
        live_events(b.update(first_live(b, c), CachedXmlEvent::Used), first_live(b, c) + 1)
            == live_events(b, c).skip(1),
    decreases b.len() - c,
{
    let i = first_live(b, c);
    lemma_first_live_bounds(b, c);
    if c < i {
        lemma_live_events_step(b, c + 1);
        assert(live_events(b, c) == live_events(b, c + 1));
    } else {
        let b2 = b.update(i, CachedXmlEvent::Used);
        assert forall|k: int| i + 1 <= k < b.len() implies b2[k] == #[trigger] b[k] by {}
        lemma_live_events_agree(b, b2, i + 1);
        assert(live_events(b, c) == seq![live_event(b[i])] + live_events(b, i + 1));
        assert((seq![live_event(b[i])] + live_events(b, i + 1)).skip(1) =~= live_events(
            b,
            i + 1,
        ));
    }
}

/// After `n` consuming steps the cached stream has lost exactly its first
/// `n` events, the queue keeps its length and well-formedness, and — as
/// long as events remain — one more step tombstones the next live slot.
pub proof fn lemma_consume_n(b: Seq<CachedXmlEvent>, c: int, n: int)
    requires
        0 <= c <= b.len(),
        0 <= n <= live_events(b, c).len(),
    ensures
        ({
            let (bn, cn) = consume_n(b, c, n);
            &&& bn.len() == b.len()
            &&& 0 <= cn <= b.len()
            &&& live_events(bn, cn) == live_events(b, c).skip(n)
            &&& (buf_wf(b) ==> buf_wf(bn))
            &&& (n < live_events(b, c).len() ==> ({
                let i2 = first_live(bn, cn);
                &&& i2 < b.len()
                &&& consume_n(b, c, n + 1) == (bn.update(i2, CachedXmlEvent::Used), i2 + 1)
            }))
        }),
    decreases n,
{
    lemma_live_events_len(b, c);
    if n == 0 {
        assert(live_events(b, c).skip(0) =~= live_events(b, c));
        if 0 < live_events(b, c).len() {
            let i2 = first_live(b, c);
            lemma_first_live_bounds(b, c);
            assert(consume_n(b.update(i2, CachedXmlEvent::Used), i2 + 1, 0) == (
                b.update(i2, CachedXmlEvent::Used),
                i2 + 1,
            ));
            assert(consume_n(b, c, 1) == (b.update(i2, CachedXmlEvent::Used), i2 + 1));
        }
    } else {
        let i = first_live(b, c);
        lemma_first_live_bounds(b, c);
        lemma_live_events_step(b, c);
        let b1 = b.update(i, CachedXmlEvent::Used);
        if buf_wf(b) {
            lemma_wf_update_used(b, i);
        }
        lemma_consume_n(b1, i + 1, n - 1);
        assert(consume_n(b, c, n) == consume_n(b1, i + 1, n - 1));
        assert(live_events(b, c).skip(1).skip(n - 1) =~= live_events(b, c).skip(n));
        if n < live_events(b, c).len() {
            assert(consume_n(b, c, n + 1) == consume_n(b1, i + 1, n));
        }
    }
}

/// The shared queue is one vector, so its length fits the machine.
pub proof fn lemma_buf_len_bounded(root: &RootXmlBuffer)
    ensures
        root.buf().len() <= usize::MAX,
{
    broadcast use vstd::std_specs::vec::axiom_spec_len;

    assert(vstd::std_specs::vec::spec_vec_len(&root.buffer) == root.buffer@.len());
}

/// The root view: owns the shared queue and the event source; its
/// consumption really discards.
pub struct RootXmlBuffer {
    source: EventSource,
    buffer: Vec<CachedXmlEvent>,
}

/// A child view: an independent cursor into the root's queue; its
/// consumption leaves tombstones so that other views keep their positions.
pub struct ChildXmlBuffer {
    pub cursor: usize,
}

impl ChildXmlBuffer {
    /// The view's cursor.
    pub open spec fn pos(&self) -> int {
        self.cursor as int
    }
}

impl RootXmlBuffer {
    /// The shared queue of cached events.
    pub closed spec fn buf(&self) -> Seq<CachedXmlEvent> {
        self.buffer@
    }

    /// Every cached event is significant.
    pub open spec fn wf(&self) -> bool {
        buf_wf(self.buf())
    }

    /// A fresh buffer over the given source: nothing cached yet.
    pub fn new(source: EventSource) -> (b: RootXmlBuffer)
        ensures
            b.wf(),
            b.buf() == Seq::<CachedXmlEvent>::empty(),
    {
        RootXmlBuffer { source, buffer: Vec::new() }
    }

    /// A child view over this buffer, cursored at the front of the queue.
    pub fn child_buffer(&self) -> (c: ChildXmlBuffer)
        ensures
            c.pos() == 0,
    {
        ChildXmlBuffer { cursor: 0 }
    }

    /// Really consume the next significant event: discard the leading
    /// tombstones and the first live slot, or pull straight from the
    /// source once nothing is cached.
    pub fn next(&mut self) -> (r: Result<XmlEvent, Error>)
        requires
            old(self).wf(),
        ensures
            final(self).wf(),
            r matches Ok(e) ==> is_significant(e) && root_consumed(
                old(self).buf(),
                final(self).buf(),
                e,
            ),
            r matches Err(_) ==> final(self).buf() == Seq::<CachedXmlEvent>::empty() && first_live(
                old(self).buf(),
                0,
            ) == old(self).buf().len(),
    {
        let ghost b0 = self.buffer@;
        let ghost mut j: int = 0;
        proof {
            lemma_first_live_bounds(b0, 0);
        }
        loop
            invariant
                b0 == old(self).buf(),
                buf_wf(b0),
                0 <= j <= b0.len(),
                self.buffer@ == b0.subrange(j, b0.len() as int),
                first_live(b0, 0) == first_live(b0, j),
            decreases b0.len() - j,
        {
            if self.buffer.len() == 0 {
                proof {
                    assert(j == b0.len());
                    assert(first_live(b0, 0) == b0.len());
                    assert(self.buffer@ =~= Seq::<CachedXmlEvent>::empty());
                }
                return next_significant_event(&mut self.source);
            }
            proof {
                assert(self.buffer@[0] == b0[j]);
                assert(j < b0.len());
            }
            let front = self.buffer.remove(0);
            proof {
                assert(self.buffer@ =~= b0.subrange(j + 1, b0.len() as int));
            }
            match front {
                CachedXmlEvent::Unused(ev) => {
                    proof {
                        assert(first_live(b0, j) == j);
                        lemma_wf_subrange(b0, j + 1, b0.len() as int);
                    }
                    return Ok(ev);
                },
                CachedXmlEvent::Used => {
                    proof {
                        assert(first_live(b0, j) == first_live(b0, j + 1));
                        j = j + 1;
                    }
                },
            }
        }
    }

    /// Look at the next significant event without consuming it, discarding
    /// any leading tombstones for good, and caching one pulled event when
    /// nothing live is cached.
    pub fn peek<'a>(&'a mut self) -> (r: Result<&'a XmlEvent, Error>)
        requires
            old(self).wf(),
        ensures
            final(self).wf(),
            ({
                let b0 = old(self).buf();
                let i = first_live(b0, 0);
                &&& (r matches Ok(e) ==> is_significant(*e) && peeked(
                    b0.subrange(i, b0.len() as int),
                    0,
                    final(self).buf(),
                    *e,
                ))
                &&& (r matches Err(_) ==> final(self).buf() == b0.subrange(i, b0.len() as int))
                &&& (i < b0.len() ==> (r matches Ok(e) && *e == live_event(b0[i])))
            }),
    {
        let ghost b0 = self.buffer@;
        let ghost mut j: int = 0;
        proof {
            lemma_first_live_bounds(b0, 0);
        }
        loop
            invariant_except_break
                b0 == old(self).buf(),
                buf_wf(b0),
                0 <= j <= b0.len(),
                self.buffer@ == b0.subrange(j, b0.len() as int),
                first_live(b0, 0) == first_live(b0, j),
            ensures
                b0 == old(self).buf(),
                self.buffer@ == b0.subrange(first_live(b0, 0), b0.len() as int),
            decreases b0.len() - j,
        {
            if self.buffer.len() == 0 {
                proof {
                    assert(j == b0.len());
                    assert(first_live(b0, 0) == b0.len());
                    assert(self.buffer@ =~= b0.subrange(first_live(b0, 0), b0.len() as int));
                }
                break;
            }
            let advance = match &self.buffer[0] {
                CachedXmlEvent::Used => true,
                CachedXmlEvent::Unused(_) => false,
            };
            proof {
                assert(self.buffer@[0] == b0[j]);
            }
            if advance {
                let _ = self.buffer.remove(0);
                proof {
                    assert(self.buffer@ =~= b0.subrange(j + 1, b0.len() as int));
                    assert(first_live(b0, j) == first_live(b0, j + 1));
                    j = j + 1;
                }
            } else {
                proof {
                    assert(first_live(b0, j) == j);
                }
                break;
            }
        }
        proof {
            lemma_wf_subrange(b0, first_live(b0, 0), b0.len() as int);
            let i = first_live(b0, 0);
            if i < b0.len() {
                assert(self.buffer@[0] == b0[i]);
                assert(is_live(b0[i]));
                assert(first_live(self.buffer@, 0) == 0);
            }
        }
        get_from_buffer_or_reader(self, 0)
    }
}

impl ChildXmlBuffer {
    /// Consume the next significant event for this view only: mark the
    /// first live slot as used and move past it, or pull straight from the
    /// source once the cursor is past everything cached.
    pub fn next(&mut self, root: &mut RootXmlBuffer) -> (r: Result<XmlEvent, Error>)
        requires
            old(root).wf(),
            0 <= old(self).pos() <= old(root).buf().len(),
        ensures
            final(root).wf(),
            0 <= final(self).pos() <= final(root).buf().len(),
            r matches Ok(e) ==> is_significant(e) && child_consumed(
                old(root).buf(),
                old(self).pos(),
                final(root).buf(),
                final(self).pos(),
                e,
            ),
            r matches Err(_) ==> final(root).buf() == old(root).buf() && final(self).pos()
                == old(root).buf().len() && first_live(old(root).buf(), old(self).pos())
                == old(root).buf().len(),
    {
        let ghost b0 = root.buffer@;
        let ghost c0: int = self.cursor as int;
        proof {
            lemma_first_live_bounds(b0, c0);
        }
        loop
            invariant
                b0 == old(root).buf(),
                c0 == old(self).pos(),
                buf_wf(b0),
                root.buffer@ == b0,
                c0 <= self.cursor as int <= b0.len(),
                first_live(b0, c0) == first_live(b0, self.cursor as int),
            decreases b0.len() - self.cursor as int,
        {
            let n: usize = root.buffer.len();
            if self.cursor >= n {
                proof {
                    assert(self.cursor as int == b0.len());
                    assert(first_live(b0, self.cursor as int) == b0.len());
                }
                return next_significant_event(&mut root.source);
            }
            let advance = match &root.buffer[self.cursor] {
                CachedXmlEvent::Used => true,
                CachedXmlEvent::Unused(_) => false,
            };
            if advance {
                proof {
                    assert(first_live(b0, self.cursor as int) == first_live(
                        b0,
                        self.cursor as int + 1,
                    ));
                }
                self.cursor = self.cursor + 1;
            } else {
                proof {
                    assert(first_live(b0, self.cursor as int) == self.cursor as int);
                    lemma_wf_update_used(b0, self.cursor as int);
                }
                let taken = root.buffer.remove(self.cursor);
                root.buffer.insert(self.cursor, CachedXmlEvent::Used);
                proof {
                    assert(root.buffer@ =~= b0.update(self.cursor as int, CachedXmlEvent::Used));
                }
                match taken {
                    CachedXmlEvent::Unused(ev) => {
                        self.cursor = self.cursor + 1;
                        return Ok(ev);
                    },
                    CachedXmlEvent::Used => {
                        return vstd::pervasive::unreached();
                    },
                }
            }
        }
    }

    /// Look at the next significant event for this view without consuming
    /// it and without moving the cursor, caching one pulled event when the
    /// cursor is past everything cached.
    pub fn peek<'a>(&self, root: &'a mut RootXmlBuffer) -> (r: Result<&'a XmlEvent, Error>)
        requires
            old(root).wf(),
            0 <= self.pos() <= old(root).buf().len(),
        ensures
            final(root).wf(),
            old(root).buf().len() <= final(root).buf().len(),
            r matches Ok(e) ==> is_significant(*e) && peeked(
                old(root).buf(),
                self.pos(),
                final(root).buf(),
                *e,
            ),
            r matches Err(_) ==> final(root).buf() == old(root).buf(),
            ({
                let i = first_live(old(root).buf(), self.pos());
                i < old(root).buf().len() ==> (r matches Ok(e) && *e == live_event(
                    old(root).buf()[i],
                ))
            }),
    {
        get_from_buffer_or_reader(root, self.cursor)
    }

    /// Move the cursor past the slot most recently peeked, leaving its
    /// tombstone state alone, so that a view that still needs the event —
    /// typically the parent — will see it. Demands that the peeked entry
    /// is cached.
    pub fn skip(&mut self, root: &RootXmlBuffer)
        requires
            root.wf(),
            0 <= old(self).pos() <= root.buf().len(),
            first_live(root.buf(), old(self).pos()) < root.buf().len(),
        ensures
            final(self).pos() == first_live(root.buf(), old(self).pos()) + 1,
            final(self).pos() <= root.buf().len(),
    {
        let ghost b0 = root.buffer@;
        let ghost c0: int = self.cursor as int;
        proof {
            lemma_first_live_bounds(b0, c0);
        }
        loop
            invariant_except_break
                b0 == root.buf(),
                c0 == old(self).pos(),
                root.buffer@ == b0,
                c0 <= self.cursor as int <= b0.len(),
                first_live(b0, c0) == first_live(b0, self.cursor as int),
                first_live(b0, c0) < b0.len(),
            ensures
                b0 == root.buf(),
                c0 == old(self).pos(),
                self.cursor as int == first_live(b0, c0) + 1,
            decreases b0.len() - self.cursor as int,
        {
            let n: usize = root.buffer.len();
            proof {
                lemma_first_live_bounds(b0, self.cursor as int);
                assert(self.cursor < n);
            }
            let advance = match &root.buffer[self.cursor] {
                CachedXmlEvent::Used => true,
                CachedXmlEvent::Unused(_) => false,
            };
            if advance {
                proof {
                    assert(first_live(b0, self.cursor as int) == first_live(
                        b0,
                        self.cursor as int + 1,
                    ));
                }
                self.cursor = self.cursor + 1;
            } else {
                proof {
                    assert(first_live(b0, self.cursor as int) == self.cursor as int);
                }
                self.cursor = self.cursor + 1;
                break;
            }
        }
    }
}

/// The shared lookahead core: find the first live slot at or after
/// `index`, or cache exactly one significant event pulled from the source,
/// and hand back a reference without consuming anything.
fn get_from_buffer_or_reader<'a>(root: &'a mut RootXmlBuffer, index: usize) -> (r: Result<
    &'a XmlEvent,
    Error,
>)
    requires
        old(root).wf(),
        0 <= index as int <= old(root).buf().len(),
    ensures
        final(root).wf(),
        old(root).buf().len() <= final(root).buf().len(),
        r matches Ok(e) ==> is_significant(*e) && peeked(
            old(root).buf(),
            index as int,
            final(root).buf(),
            *e,
        ),
        r matches Err(_) ==> final(root).buf() == old(root).buf(),
        ({
            let i = first_live(old(root).buf(), index as int);
            i < old(root).buf().len() ==> (r matches Ok(e) && *e == live_event(
                old(root).buf()[i],
            ))
        }),
{
    let ghost b0 = root.buffer@;
    let mut i: usize = index;
    proof {
        lemma_first_live_bounds(b0, index as int);
    }
    loop
        invariant_except_break
            b0 == old(root).buf(),
            buf_wf(b0),
            root.buffer@ == b0,
            index as int <= i as int <= b0.len(),
            first_live(b0, index as int) == first_live(b0, i as int),
        ensures
            b0 == old(root).buf(),
            root.buffer@ == b0,
            i as int == first_live(b0, index as int),
        decreases b0.len() - i as int,
    {
        if i >= root.buffer.len() {
            proof {
                lemma_first_live_bounds(b0, i as int);
            }
            break;
        }
        let advance = match &root.buffer[i] {
            CachedXmlEvent::Used => true,
            CachedXmlEvent::Unused(_) => false,
        };
        if advance {
            proof {
                assert(first_live(b0, i as int) == first_live(b0, i as int + 1));
            }
            i = i + 1;
        } else {
            proof {
                assert(first_live(b0, i as int) == i as int);
            }
            break;
        }
    }
    if i < root.buffer.len() {
        match &root.buffer[i] {
            CachedXmlEvent::Unused(ev) => Ok(ev),
            CachedXmlEvent::Used => vstd::pervasive::unreached(),
        }
    } else {
        match next_significant_event(&mut root.source) {
            Err(er) => Err(er),
            Ok(e) => {
                let ghost ge = e;
                proof {
                    lemma_wf_push(b0, ge);
                }
                root.buffer.push(CachedXmlEvent::Unused(e));
                let n: usize = root.buffer.len();
                match &root.buffer[n - 1] {
                    CachedXmlEvent::Unused(ev) => Ok(ev),
                    CachedXmlEvent::Used => vstd::pervasive::unreached(),
                }
            },
        }
    }
}

/// Pull raw events from the source until a significant one comes,
/// dropping what the pipeline filters out. Defensively bounded: a source
/// that never yields a significant event — which a real tokenizer cannot
/// produce, since it ends every document with an end-of-document event —
/// is reported as an unexpected end.
pub fn next_significant_event(source: &mut EventSource) -> (r: Result<XmlEvent, Error>)
    ensures
        r matches Ok(e) ==> is_significant(e),
        r matches Err(er) ==> er matches Error::Syntax(_) || er == Error::UnexpectedEof,
{
    let mut fuel: u64 = u64::MAX;
    loop
        decreases fuel,
    {
        if fuel == 0 {
            return Err(Error::UnexpectedEof);
        }
        fuel = fuel - 1;
        match source.next_raw() {
            Ok(XmlEvent::Insignificant) => {},
            Ok(e) => {
                return Ok(e);
            },
            Err(er) => {
                return Err(er);
            },
        }
    }
}

} // verus!
