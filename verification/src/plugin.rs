//! The effect: it captures every event, forwards what it should and leaves the
//! audio as it is.

use crate::event::EventBody;
use crate::ring::{EventRing, RingState};
use vstd::prelude::*;

verus! {

/// What the effect is set to, and where it captures.
pub struct InspectorParams {
    /// When on, forward every event: an inline monitor in the middle of a
    /// chain. Off makes it a terminal monitor: events are still captured, just
    /// not passed on.
    pub thru: bool,
    /// Where captured events wait for the editor.
    pub ring: EventRing,
}

/// An event of a block, with its payload where it is a `SysEx` message.
#[derive(Clone, Copy)]
pub struct Event<'a> {
    /// Sample offset within the block.
    pub sample_offset: u32,
    /// The port that the event arrived on.
    pub port: u8,
    pub body: EventBody,
    /// The payload, empty for other events.
    pub sysex: &'a [u8],
}

/// An event to send on.
pub enum Forwarded<'a> {
    /// A `SysEx` message, to be sent by its bytes: where the body finds them is
    /// only known to the list that it arrived in.
    SysEx { sample_offset: u32, port: u8, bytes: &'a [u8] },
    /// Any other event, as it is.
    Event { sample_offset: u32, port: u8, body: EventBody },
}

/// How an event is sent on: unchanged, at the same time and on the same port.
pub open spec fn forward_of(event: Event<'_>) -> Forwarded<'_> {
    if event.body is SysEx {
        Forwarded::SysEx {
            sample_offset: event.sample_offset,
            port: event.port,
            bytes: event.sysex,
        }
    } else {
        Forwarded::Event {
            sample_offset: event.sample_offset,
            port: event.port,
            body: event.body,
        }
    }
}

/// Whether `after` is the ring `before` after the capture of all events, in
/// their order.
pub open spec fn captured_all(before: RingState, after: RingState, events: Seq<Event<'_>>) -> bool
    decreases events.len(),
{
    if events.len() == 0 {
        after == before
    } else {
        exists|middle: RingState|
            captured_all(before, middle, events.drop_last()) && #[trigger] middle.pushed(
                after,
                events.last().sample_offset,
                events.last().body,
                events.last().sysex@,
            )
    }
}

/// One event more.
proof fn lemma_one_more(
    before: RingState,
    middle: RingState,
    after: RingState,
    events: Seq<Event<'_>>,
)
    requires
        events.len() > 0,
        captured_all(before, middle, events.drop_last()),
        middle.pushed(
            after,
            events.last().sample_offset,
            events.last().body,
            events.last().sysex@,
        ),
    ensures
        captured_all(before, after, events),
{
}

/// All events, as they are sent on.
pub open spec fn forward_all(events: Seq<Event<'_>>) -> Seq<Forwarded<'_>> {
    Seq::new(events.len(), |i: int| forward_of(events[i]))
}

impl InspectorParams {
    /// The ring is one.
    pub open spec fn wf(&self) -> bool {
        self.ring.wf()
    }

    #[must_use]
    pub fn new() -> (params: Self)
        ensures
            params.wf(),
            params.thru,
            params.ring@ == RingState::initial(),
    {
        InspectorParams { thru: true, ring: EventRing::new() }
    }
}

impl Default for InspectorParams {
    fn default() -> (params: Self)
        ensures
            params.wf(),
            params.thru,
            params.ring@ == RingState::initial(),
    {
        Self::new()
    }
}

/// The effect.
pub struct MidiInspector {
    pub params: InspectorParams,
}

impl MidiInspector {
    /// The parameters hold a ring.
    pub open spec fn wf(&self) -> bool {
        self.params.wf()
    }

    #[must_use]
    pub fn new(params: InspectorParams) -> (inspector: Self)
        ensures
            inspector.params == params,
    {
        Self { params }
    }

    /// The capture ring.
    #[must_use]
    pub fn ring(&self) -> (ring: &EventRing)
        ensures
            *ring == self.params.ring,
    {
        &self.params.ring
    }

    /// Captures one event and says what to send on.
    pub fn process_event<'a>(&mut self, event: Event<'a>) -> (output: Option<Forwarded<'a>>)
        requires
            old(self).wf(),
        ensures
            final(self).wf(),
            final(self).params.thru == old(self).params.thru,
            old(self).params.ring@.pushed(
                final(self).params.ring@,
                event.sample_offset,
                event.body,
                event.sysex@,
            ),
            output == if old(self).params.thru { Some(forward_of(event)) } else { None },
            final(self).params.ring@.pending.last().sample_offset == event.sample_offset,
            final(self).params.ring@.pending.last().body == event.body,
            output is Some == old(self).params.thru,
            output matches Some(Forwarded::SysEx { sample_offset, port, bytes }) ==> event.body
                is SysEx && sample_offset == event.sample_offset && port == event.port && bytes
                == event.sysex,
            output matches Some(Forwarded::Event { sample_offset, port, body }) ==> !(event.body
                is SysEx) && sample_offset == event.sample_offset && port == event.port && body
                == event.body,
    {
        self.params.ring.push(event.sample_offset, event.body, event.sysex);
        if !self.params.thru {
            return None;
        }
        match event.body {
            EventBody::SysEx { .. } => Some(
                Forwarded::SysEx {
                    sample_offset: event.sample_offset,
                    port: event.port,
                    bytes: event.sysex,
                },
            ),
            body => Some(
                Forwarded::Event { sample_offset: event.sample_offset, port: event.port, body },
            ),
        }
    }

    /// Captures the events of a block and appends what to send on.
    pub fn process<'a>(&mut self, events: &[Event<'a>], output: &mut Vec<Forwarded<'a>>)
        requires
            old(self).wf(),
        ensures
            final(self).wf(),
            final(self).params.thru == old(self).params.thru,
            captured_all(old(self).params.ring@, final(self).params.ring@, events@),
            final(output)@ == if old(self).params.thru {
                old(output)@ + forward_all(events@)
            } else {
                old(output)@
            },
    {
        let mut i: usize = 0;
        while i < events.len()
            invariant
                i <= events@.len(),
                self.wf(),
                self.params.thru == old(self).params.thru,
                captured_all(old(self).params.ring@, self.params.ring@, events@.take(i as int)),
                output@ =~= if old(self).params.thru {
                    old(output)@ + forward_all(events@.take(i as int))
                } else {
                    old(output)@
                },
            decreases events.len() - i,
        {
            assert(events@.take(i + 1).drop_last() =~= events@.take(i as int));
            let ghost middle = self.params.ring@;
            let event: Event<'a> = events[i];
            assert(events@.take(i + 1).last() == event);
            match self.process_event(event) {
                Some(forwarded) => output.push(forwarded),
                None => {},
            }
            proof {
                lemma_one_more(
                    old(self).params.ring@,
                    middle,
                    self.params.ring@,
                    events@.take(i + 1),
                );
            }
            i += 1;
        }
        assert(events@.take(i as int) =~= events@);
    }
}

/// Passes one channel of audio on: a channel that has an input is a copy of it,
/// any other is silent.
pub fn pass_channel<T: Copy>(
    channel: usize,
    inputs: usize,
    input: &[T],
    output: &mut [T],
    silence: T,
)
    requires
        channel < inputs ==> input@.len() == old(output)@.len(),
    ensures
        channel < inputs ==> final(output)@ == input@,
        channel >= inputs ==> final(output)@ == Seq::new(
            old(output)@.len(),
            |i: int| silence,
        ),
{
    let mut i: usize = 0;
    while i < output.len()
        invariant
            i <= output@.len(),
            output@.len() == old(output)@.len(),
            channel < inputs ==> input@.len() == output@.len(),
            forall|j: int|
                0 <= j < i ==> output@[j] == if channel < inputs { input@[j] } else { silence },
        decreases output.len() - i,
    {
        output[i] = if channel < inputs { input[i] } else { silence };
        i += 1;
    }
    assert(channel < inputs ==> output@ =~= input@);
    assert(channel >= inputs ==> output@ =~= Seq::new(old(output)@.len(), |i: int| silence));
}

} // verus!
