//! The handoff of captured events from the audio side to the editor.
//!
//! The audio side pushes [`LogEntry`] values; the editor drains them. A
//! `LogEntry` is `Copy` with an inline `SysEx` buffer, so that a push never
//! allocates.

use crate::event::EventBody;
use crossbeam_queue::ArrayQueue;
use std::collections::VecDeque;
use vstd::prelude::*;

verus! {

/// Bytes of a `SysEx` payload kept inline for display. Longer payloads are
/// truncated; their full length is still reported.
pub const SYSEX_INLINE: usize = 24;

/// How many entries the ring holds; a further one overwrites the oldest.
pub const RING_CAP: usize = 4096;

/// One captured event, ready for interpretation.
#[derive(Clone, Copy, Debug)]
pub struct LogEntry {
    /// Capture sequence number.
    pub seq: u64,
    /// Sample offset within the block that the event arrived in.
    pub sample_offset: u32,
    pub body: EventBody,
    /// The first [`SYSEX_INLINE`] payload bytes, filled up with zeros.
    pub sysex: [u8; SYSEX_INLINE],
    /// Full `SysEx` payload length, which may exceed what is inlined.
    pub sysex_len: u32,
}

/// The inline copy of a payload: its first bytes, filled up with zeros.
pub open spec fn inlined(sysex: Seq<u8>) -> Seq<u8> {
    Seq::new(
        SYSEX_INLINE as nat,
        |i: int| if i < sysex.len() { sysex[i] } else { 0u8 },
    )
}

/// The length that is recorded for a payload.
pub open spec fn recorded_len(len: nat) -> nat {
    if len <= u32::MAX { len } else { u32::MAX as nat }
}

/// Whether `entry` records the given event under the given number.
pub open spec fn is_capture(
    entry: LogEntry,
    seq: u64,
    sample_offset: u32,
    body: EventBody,
    sysex: Seq<u8>,
) -> bool {
    &&& entry.seq == seq
    &&& entry.sample_offset == sample_offset
    &&& entry.body == body
    &&& entry.sysex@ == inlined(sysex)
    &&& entry.sysex_len == recorded_len(sysex.len())
}

/// The last `max` elements, or all where there are fewer.
pub open spec fn newest(entries: Seq<LogEntry>, max: nat) -> Seq<LogEntry> {
    if entries.len() <= max {
        entries
    } else {
        entries.subrange(entries.len() - max, entries.len() as int)
    }
}

/// The number `steps` after `first`, starting over behind the largest.
pub open spec fn number(first: u64, steps: nat) -> u64 {
    ((first + steps) % 0x1_0000_0000_0000_0000) as u64
}

/// One step more.
pub proof fn lemma_number_steps(first: u64, steps: nat)
    ensures
        number(first, 0) == first,
        number(first, steps + 1) == number(number(first, steps), 1),
{
}

/// What a ring holds.
pub struct RingState {
    /// The entries that wait, oldest first.
    pub pending: Seq<LogEntry>,
    /// The number that the next capture gets.
    pub next_seq: u64,
    /// How many entries were overwritten before they were drained.
    pub dropped: u64,
}

impl RingState {
    /// An unused ring.
    pub open spec fn initial() -> RingState {
        RingState { pending: Seq::empty(), next_seq: 0, dropped: 0 }
    }

    /// Nothing exceeds the capacity, and the entries that wait carry
    /// consecutive numbers that end right before the next one.
    pub open spec fn valid(self) -> bool {
        &&& self.pending.len() <= RING_CAP
        &&& forall|i: int|
            0 <= i < self.pending.len() ==> number(
                (#[trigger] self.pending[i]).seq,
                (self.pending.len() - i) as nat,
            ) == self.next_seq
    }

    /// Whether `after` is this ring after the capture of one event: the entry
    /// comes last, and where the ring was full the oldest is gone and counted.
    pub open spec fn pushed(
        self,
        after: RingState,
        sample_offset: u32,
        body: EventBody,
        sysex: Seq<u8>,
    ) -> bool {
        let entry = after.pending.last();
        let full = self.pending.len() >= RING_CAP;
        let kept = if full { self.pending.drop_first() } else { self.pending };
        &&& after.pending == kept.push(entry)
        &&& is_capture(entry, self.next_seq, sample_offset, body, sysex)
        &&& after.next_seq == number(self.next_seq, 1)
        &&& after.dropped == if full { number(self.dropped, 1) } else { self.dropped }
    }

    /// This ring after everything was drained.
    pub open spec fn drained(self) -> RingState {
        RingState { pending: Seq::empty(), ..self }
    }

    /// This ring after it was cleared.
    pub open spec fn cleared(self) -> RingState {
        RingState { pending: Seq::empty(), dropped: 0, ..self }
    }
}

/// A capture keeps a valid ring valid.
pub proof fn lemma_push_keeps_valid(
    before: RingState,
    after: RingState,
    sample_offset: u32,
    body: EventBody,
    sysex: Seq<u8>,
)
    requires
        before.valid(),
        before.pushed(after, sample_offset, body, sysex),
    ensures
        after.valid(),
{
    let shift: int = if before.pending.len() >= RING_CAP { 1 } else { 0 };
    let len = after.pending.len() as int;
    assert forall|i: int| 0 <= i < len implies number(
        (#[trigger] after.pending[i]).seq,
        (len - i) as nat,
    ) == after.next_seq by {
        if i < len - 1 {
            assert(after.pending[i] == before.pending[i + shift]);
            lemma_number_steps(after.pending[i].seq, (len - 1 - i) as nat);
        }
    }
}

/// The bounded queue of `crossbeam_queue`.
#[verifier::external_type_specification]
#[verifier::external_body]
#[verifier::reject_recursive_types(T)]
pub struct ExArrayQueue<T>(crossbeam_queue::ArrayQueue<T>);

/// The elements of a queue, oldest first.
pub uninterp spec fn queued(queue: ArrayQueue<LogEntry>) -> Seq<LogEntry>;

/// The capacity that a queue was made with.
pub uninterp spec fn queue_capacity(queue: ArrayQueue<LogEntry>) -> nat;

/// `ArrayQueue::new`: an empty queue of the given capacity. It panics on a
/// capacity of zero and on one too large to allocate, which are left out.
#[verifier::external_body]
fn new_queue(capacity: usize) -> (queue: ArrayQueue<LogEntry>)
    requires
        0 < capacity <= RING_CAP,
    ensures
        queued(queue) == Seq::<LogEntry>::empty(),
        queue_capacity(queue) == capacity,
{
    ArrayQueue::new(capacity)
}

/// `ArrayQueue::force_push`, on a queue that nobody else uses meanwhile: the
/// element comes last; where the queue was full, the oldest element leaves it
/// and is returned.
#[verifier::external_body]
fn force_push(queue: &mut ArrayQueue<LogEntry>, entry: LogEntry) -> (replaced: Option<LogEntry>)
    ensures
        queue_capacity(*final(queue)) == queue_capacity(*old(queue)),
        queued(*old(queue)).len() < queue_capacity(*old(queue)) ==> replaced is None && queued(
            *final(queue),
        ) == queued(*old(queue)).push(entry),
        queued(*old(queue)).len() == queue_capacity(*old(queue)) ==> replaced == Some(
            queued(*old(queue))[0],
        ) && queued(*final(queue)) == queued(*old(queue)).drop_first().push(entry),
{
    queue.force_push(entry)
}

/// `ArrayQueue::pop`, on a queue that nobody else uses meanwhile: the oldest
/// element leaves the queue and is returned; an empty queue gives nothing.
#[verifier::external_body]
fn pop(queue: &mut ArrayQueue<LogEntry>) -> (popped: Option<LogEntry>)
    ensures
        queue_capacity(*final(queue)) == queue_capacity(*old(queue)),
        queued(*old(queue)).len() == 0 ==> popped is None && queued(*final(queue)) == queued(
            *old(queue),
        ),
        queued(*old(queue)).len() > 0 ==> popped == Some(queued(*old(queue))[0]) && queued(
            *final(queue),
        ) == queued(*old(queue)).drop_first(),
{
    queue.pop()
}

/// `ArrayQueue::is_empty`, on a queue that nobody else uses meanwhile: whether
/// the queue holds nothing.
#[verifier::external_body]
fn is_empty(queue: &ArrayQueue<LogEntry>) -> (empty: bool)
    ensures
        empty == (queued(*queue).len() == 0),
{
    queue.is_empty()
}

/// Discards from the front until at most `max` entries are left.
fn keep_newest(out: &mut VecDeque<LogEntry>, max: usize)
    ensures
        final(out)@ == newest(old(out)@, max as nat),
{
    let ghost all = out@;
    while out.len() > max
        invariant
            out@.len() <= all.len(),
            out@.len() >= max || out@.len() == all.len(),
            out@ =~= all.subrange(all.len() - out@.len(), all.len() as int),
        decreases out.len(),
    {
        let _ = out.pop_front();
    }
}

/// The channel of captured events. It has one user at a time.
pub struct EventRing {
    queue: ArrayQueue<LogEntry>,
    seq: u64,
    /// Count of entries overwritten before the editor could drain them.
    dropped: u64,
}

impl View for EventRing {
    type V = RingState;

    closed spec fn view(&self) -> RingState {
        RingState { pending: queued(self.queue), next_seq: self.seq, dropped: self.dropped }
    }
}

impl EventRing {
    /// The queue was made with the ring's capacity.
    pub closed spec fn has_capacity(&self) -> bool {
        queue_capacity(self.queue) == RING_CAP
    }

    /// The ring holds what a ring can hold.
    pub open spec fn wf(&self) -> bool {
        self.has_capacity() && self@.valid()
    }

    #[must_use]
    pub fn new() -> (ring: Self)
        ensures
            ring.wf(),
            ring@ == RingState::initial(),
    {
        EventRing { queue: new_queue(RING_CAP), seq: 0, dropped: 0 }
    }

    /// Captures an event. `sysex` is its payload, empty for other events; only
    /// the first [`SYSEX_INLINE`] bytes are retained.
    pub fn push(&mut self, sample_offset: u32, body: EventBody, sysex: &[u8])
        requires
            old(self).wf(),
        ensures
            final(self).wf(),
            old(self)@.pushed(final(self)@, sample_offset, body, sysex@),
            final(self)@.pending.len() > 0,
            final(self)@.pending.last().seq == old(self)@.next_seq,
            final(self)@.pending.last().sample_offset == sample_offset,
            final(self)@.pending.last().body == body,
            forall|i: int|
                0 <= i < SYSEX_INLINE ==> #[trigger] final(self)@.pending.last().sysex@[i]
                    == if i < sysex@.len() { sysex@[i] } else { 0 },
            sysex@.len() <= u32::MAX ==> final(self)@.pending.last().sysex_len == sysex@.len(),
            sysex@.len() > u32::MAX ==> final(self)@.pending.last().sysex_len == u32::MAX,
    {
        let seq: u64 = self.seq;
        self.seq = self.seq.wrapping_add(1);
        let mut buf: [u8; SYSEX_INLINE] = [0u8; SYSEX_INLINE];
        let n: usize = if sysex.len() < SYSEX_INLINE { sysex.len() } else { SYSEX_INLINE };
        let mut i: usize = 0;
        while i < n
            invariant
                i <= n <= sysex@.len(),
                n <= SYSEX_INLINE,
                forall|j: int| 0 <= j < i ==> buf@[j] == sysex@[j],
                forall|j: int| i <= j < SYSEX_INLINE ==> buf@[j] == 0,
            decreases n - i,
        {
            buf[i] = sysex[i];
            i += 1;
        }
        assert(buf@ =~= inlined(sysex@));
        let sysex_len: u32 = if sysex.len() as u64 <= 0xffff_ffff {
            sysex.len() as u32
        } else {
            0xffff_ffff
        };
        let entry: LogEntry = LogEntry { seq, sample_offset, body, sysex: buf, sysex_len };
        if force_push(&mut self.queue, entry).is_some() {
            self.dropped = self.dropped.wrapping_add(1);
        }
        assert(self@.pending.last() == entry);
        proof {
            lemma_push_keeps_valid(old(self)@, self@, sample_offset, body, sysex@);
        }
    }

    /// Drains all pending entries into `out`, oldest first, and then keeps the
    /// last `max` of it.
    pub fn drain_into(&mut self, out: &mut VecDeque<LogEntry>, max: usize)
        requires
            old(self).wf(),
        ensures
            final(self).wf(),
            final(self)@ == old(self)@.drained(),
            final(out)@ == newest(old(out)@ + old(self)@.pending, max as nat),
            final(self)@.pending.len() == 0,
            final(self)@.next_seq == old(self)@.next_seq,
            final(self)@.dropped == old(self)@.dropped,
            final(out)@.len() <= max,
            final(out)@.len() == max || final(out)@ == old(out)@ + old(self)@.pending,
            final(out)@.is_suffix_of(old(out)@ + old(self)@.pending),
    {
        let ghost all = old(out)@ + old(self)@.pending;
        loop
            invariant
                queue_capacity(self.queue) == RING_CAP,
                self.seq == old(self).seq,
                self.dropped == old(self).dropped,
                out@ + queued(self.queue) =~= all,
            ensures
                queued(self.queue).len() == 0,
            decreases queued(self.queue).len(),
        {
            match pop(&mut self.queue) {
                Some(entry) => out.push_back(entry),
                None => break,
            }
        }
        assert(self@.pending =~= Seq::empty());
        assert(out@ =~= all);
        keep_newest(out, max);
    }

    /// Total events overwritten before being drained.
    #[must_use]
    pub fn dropped(&self) -> (dropped: u64)
        ensures
            dropped == self@.dropped,
    {
        self.dropped
    }

    /// Whether undrained entries wait.
    #[must_use]
    pub fn has_pending(&self) -> (waiting: bool)
        ensures
            waiting == (self@.pending.len() > 0),
    {
        !is_empty(&self.queue)
    }

    /// Drops every queued entry and resets the dropped counter.
    pub fn clear(&mut self)
        requires
            old(self).wf(),
        ensures
            final(self).wf(),
            final(self)@ == old(self)@.cleared(),
            final(self)@.pending.len() == 0,
            final(self)@.dropped == 0,
            final(self)@.next_seq == old(self)@.next_seq,
    {
        while pop(&mut self.queue).is_some()
            invariant
                queue_capacity(self.queue) == RING_CAP,
                self.seq == old(self).seq,
            ensures
                queued(self.queue).len() == 0,
            decreases queued(self.queue).len(),
        {
        }
        self.dropped = 0;
        assert(self@.pending =~= Seq::empty());
    }
}

impl Default for EventRing {
    fn default() -> (ring: Self)
        ensures
            ring.wf(),
            ring@ == RingState::initial(),
    {
        Self::new()
    }
}

} // verus!
