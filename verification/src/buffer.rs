//! The batch buffer: events accumulate in an in-memory window and are
//! released as one batch whenever the periodic flush fires. The ghost
//! history carries every event ever pushed and every batch ever emitted,
//! so the no-loss law — each pushed event stands in exactly one emitted
//! batch or in the pending window — is an invariant of the type.
use vstd::prelude::*;

use crate::chat::ChatMessage;
use crate::chat::ChatMessageView;

verus! {

/// The values of a sequence of messages.
pub open spec fn msg_views(s: Seq<ChatMessage>) -> Seq<ChatMessageView> {
    s.map_values(|m: ChatMessage| m@)
}

/// Everything that ever happened to a buffer.
pub struct BufferHistory {
    /// Every event pushed, in order.
    pub pushed: Seq<ChatMessageView>,
    /// Every batch emitted, in window order.
    pub emitted: Seq<Seq<ChatMessageView>>,
    /// When each emitted window was flushed, in milliseconds.
    pub flush_times: Seq<u64>,
}

/// A time-windowed accumulator. `push` appends to the current window and
/// never fails; `on_tick` flushes the window once the flush moment has
/// been reached and schedules the next one.
pub struct BatchBuffer {
    buf: Vec<ChatMessage>,
    interval_ms: u64,
    next_flush_at: u64,
    history: Ghost<BufferHistory>,
}

impl BatchBuffer {
    /// The events of the window now being filled.
    pub closed spec fn pending(&self) -> Seq<ChatMessageView> {
        msg_views(self.buf@)
    }

    /// Every event ever pushed.
    pub closed spec fn pushed(&self) -> Seq<ChatMessageView> {
        self.history@.pushed
    }

    /// Every batch ever emitted, in window order.
    pub closed spec fn emitted(&self) -> Seq<Seq<ChatMessageView>> {
        self.history@.emitted
    }

    /// When each batch was flushed.
    pub closed spec fn flush_times(&self) -> Seq<u64> {
        self.history@.flush_times
    }

    pub closed spec fn interval_spec(&self) -> u64 {
        self.interval_ms
    }

    pub closed spec fn next_flush_spec(&self) -> u64 {
        self.next_flush_at
    }

    /// No flush so far happened after this moment.
    pub open spec fn clock_bound(&self, now_ms: u64) -> bool {
        forall|i: int| 0 <= i < self.flush_times().len() ==> self.flush_times()[i] <= now_ms
    }

    /// The buffer's invariant: nothing lost, nothing duplicated, flushes
    /// in time order.
    pub closed spec fn wf(&self) -> bool {
        &&& self.history@.emitted.flatten() + msg_views(self.buf@) == self.history@.pushed
        &&& self.history@.flush_times.len() == self.history@.emitted.len()
        &&& forall|i: int, j: int|
            0 <= i <= j < self.history@.flush_times.len() ==> self.history@.flush_times[i]
                <= self.history@.flush_times[j]
        &&& self.interval_ms >= 1
    }

    /// A buffer whose first window starts now.
    pub fn new(interval_ms: u64, now_ms: u64) -> (r: Self)
        requires
            1 <= interval_ms,
            now_ms + interval_ms <= u64::MAX,
        ensures
            r.wf(),
            r.pending() == Seq::<ChatMessageView>::empty(),
            r.pushed() == Seq::<ChatMessageView>::empty(),
            r.emitted() == Seq::<Seq<ChatMessageView>>::empty(),
            r.flush_times() == Seq::<u64>::empty(),
            r.interval_spec() == interval_ms,
            r.next_flush_spec() == now_ms + interval_ms,
    {
        let r = BatchBuffer {
            buf: Vec::new(),
            interval_ms,
            next_flush_at: now_ms + interval_ms,
            history: Ghost(
                BufferHistory {
                    pushed: Seq::empty(),
                    emitted: Seq::empty(),
                    flush_times: Seq::empty(),
                },
            ),
        };
        proof {
            assert(r.history@.emitted.flatten() =~= Seq::<ChatMessageView>::empty());
            assert(r.history@.emitted.flatten() + msg_views(r.buf@) =~= r.history@.pushed);
            assert(msg_views(r.buf@) =~= Seq::<ChatMessageView>::empty());
        }
        r
    }

    /// Append one event to the current window; never blocks, never fails.
    pub fn push(&mut self, m: ChatMessage)
        requires
            old(self).wf(),
        ensures
            final(self).wf(),
            final(self).pending() == old(self).pending().push(m@),
            final(self).pushed() == old(self).pushed().push(m@),
            final(self).emitted() == old(self).emitted(),
            final(self).flush_times() == old(self).flush_times(),
            final(self).interval_spec() == old(self).interval_spec(),
            final(self).next_flush_spec() == old(self).next_flush_spec(),
    {
        proof {
            let h = self.history@;
            assert(msg_views(self.buf@.push(m)) =~= msg_views(self.buf@).push(m@));
            assert(h.emitted.flatten() + msg_views(self.buf@).push(m@) =~= (h.emitted.flatten()
                + msg_views(self.buf@)).push(m@));
        }
        self.buf.push(m);
        proof {
            let h = self.history@;
            self.history = Ghost(BufferHistory { pushed: h.pushed.push(m@), ..h });
        }
    }

    /// The periodic timer: when the flush moment has been reached, swap
    /// the window for an empty one and hand the old window out, then
    /// schedule the next flush one interval after this moment.
    pub fn on_tick(&mut self, now_ms: u64) -> (r: Option<Vec<ChatMessage>>)
        requires
            old(self).wf(),
            old(self).clock_bound(now_ms),
            now_ms + old(self).interval_spec() <= u64::MAX,
        ensures
            final(self).wf(),
            final(self).pushed() == old(self).pushed(),
            final(self).interval_spec() == old(self).interval_spec(),
            if now_ms >= old(self).next_flush_spec() {
                &&& r matches Some(b) && msg_views(b@) == old(self).pending()
                &&& final(self).pending() == Seq::<ChatMessageView>::empty()
                &&& final(self).emitted() == old(self).emitted().push(old(self).pending())
                &&& final(self).flush_times() == old(self).flush_times().push(now_ms)
                &&& final(self).next_flush_spec() == now_ms + old(self).interval_spec()
            } else {
                &&& r is None
                &&& final(self).pending() == old(self).pending()
                &&& final(self).emitted() == old(self).emitted()
                &&& final(self).flush_times() == old(self).flush_times()
                &&& final(self).next_flush_spec() == old(self).next_flush_spec()
            },
    {
        if now_ms >= self.next_flush_at {
            let mut batch: Vec<ChatMessage> = Vec::new();
            core::mem::swap(&mut self.buf, &mut batch);
            self.next_flush_at = now_ms + self.interval_ms;
            proof {
                let h = self.history@;
                self.history = Ghost(
                    BufferHistory {
                        pushed: h.pushed,
                        emitted: h.emitted.push(msg_views(batch@)),
                        flush_times: h.flush_times.push(now_ms),
                    },
                );
                crate::buffer::lemma_flatten_push(h.emitted, msg_views(batch@));
                let nt = self.history@.flush_times;
                assert forall|i: int, j: int| 0 <= i <= j < nt.len() implies nt[i] <= nt[j] by {
                    if j < nt.len() - 1 {
                        assert(nt[i] == h.flush_times[i]);
                        assert(nt[j] == h.flush_times[j]);
                        assert(h.flush_times[i] <= h.flush_times[j]);
                    } else {
                        assert(nt[j] == now_ms);
                        if i < nt.len() - 1 {
                            assert(nt[i] == h.flush_times[i]);
                            assert(old(self).flush_times()[i] <= now_ms);
                        }
                    }
                }
                assert(msg_views(self.buf@) =~= Seq::<ChatMessageView>::empty());
                assert(self.history@.emitted.flatten() + msg_views(self.buf@)
                    =~= self.history@.emitted.flatten());
                assert(h.emitted.flatten() + msg_views(batch@) =~= self.history@.pushed);
            }
            Some(batch)
        } else {
            None
        }
    }

    /// Flush the current window unconditionally: the draining step, after
    /// the source has stopped.
    pub fn drain(&mut self, now_ms: u64) -> (r: Vec<ChatMessage>)
        requires
            old(self).wf(),
            old(self).clock_bound(now_ms),
        ensures
            final(self).wf(),
            final(self).pushed() == old(self).pushed(),
            final(self).interval_spec() == old(self).interval_spec(),
            msg_views(r@) == old(self).pending(),
            final(self).pending() == Seq::<ChatMessageView>::empty(),
            final(self).emitted() == old(self).emitted().push(old(self).pending()),
            final(self).flush_times() == old(self).flush_times().push(now_ms),
            final(self).emitted().flatten() == final(self).pushed(),
    {
        let mut batch: Vec<ChatMessage> = Vec::new();
        core::mem::swap(&mut self.buf, &mut batch);
        proof {
            let h = self.history@;
            self.history = Ghost(
                BufferHistory {
                    pushed: h.pushed,
                    emitted: h.emitted.push(msg_views(batch@)),
                    flush_times: h.flush_times.push(now_ms),
                },
            );
            crate::buffer::lemma_flatten_push(h.emitted, msg_views(batch@));
            let nt = self.history@.flush_times;
            assert forall|i: int, j: int| 0 <= i <= j < nt.len() implies nt[i] <= nt[j] by {
                if j < nt.len() - 1 {
                    assert(nt[i] == h.flush_times[i]);
                    assert(nt[j] == h.flush_times[j]);
                    assert(h.flush_times[i] <= h.flush_times[j]);
                } else {
                    assert(nt[j] == now_ms);
                    if i < nt.len() - 1 {
                        assert(nt[i] == h.flush_times[i]);
                        assert(old(self).flush_times()[i] <= now_ms);
                    }
                }
            }
            assert(msg_views(self.buf@) =~= Seq::<ChatMessageView>::empty());
            assert(self.history@.emitted.flatten() + msg_views(self.buf@)
                =~= self.history@.emitted.flatten());
            assert(h.emitted.flatten() + msg_views(batch@) =~= self.history@.pushed);
        }
        batch
    }
}

/// Flattening after appending one more batch appends its events.
pub proof fn lemma_flatten_push(ls: Seq<Seq<ChatMessageView>>, l: Seq<ChatMessageView>)
    ensures
        ls.push(l).flatten() == ls.flatten() + l,
    decreases ls.len(),
{
    let u = ls.push(l);
    if ls.len() == 0 {
        assert(u.drop_first() =~= Seq::<Seq<ChatMessageView>>::empty());
        assert(u.flatten() == u.first() + u.drop_first().flatten());
        assert(u.first() + Seq::<ChatMessageView>::empty() =~= l);
        assert(ls.flatten() + l =~= l);
    } else {
        assert(u.drop_first() =~= ls.drop_first().push(l));
        lemma_flatten_push(ls.drop_first(), l);
        assert(u.flatten() == u.first() + (ls.drop_first().flatten() + l));
        assert(u.first() == ls.first());
        assert(ls.first() + (ls.drop_first().flatten() + l) =~= (ls.first()
            + ls.drop_first().flatten()) + l);
        assert(ls.flatten() == ls.first() + ls.drop_first().flatten());
    }
}

/// Every pushed event stands in exactly one place — inside exactly one
/// emitted batch, in order, or in the pending window — and the flushes
/// happened in non-decreasing time order.
pub proof fn lemma_no_event_lost(b: &BatchBuffer)
    requires
        b.wf(),
    ensures
        b.emitted().flatten() + b.pending() == b.pushed(),
        b.flush_times().len() == b.emitted().len(),
        forall|i: int, j: int|
            0 <= i <= j < b.flush_times().len() ==> b.flush_times()[i] <= b.flush_times()[j],
{
}

} // verus!
