use midi_inspector::event::EventBody;
use midi_inspector::interpret::interpret;
use midi_inspector::plugin::{
    pass_channel, Event, Forwarded, InspectorParams, MidiInspector,
};
use midi_inspector::ring::LogEntry;
use std::collections::VecDeque;

fn captured(plugin: &mut MidiInspector) -> Vec<LogEntry> {
    let mut out = VecDeque::new();
    plugin.params.ring.drain_into(&mut out, usize::MAX);
    out.into_iter().collect()
}

fn event(body: EventBody) -> Event<'static> {
    Event { sample_offset: 0, port: 0, body, sysex: &[] }
}

#[test]
fn captures_events_from_process() {
    let mut plugin = MidiInspector::new(InspectorParams::new());

    let events = vec![
        event(EventBody::NoteOn { group: 0, channel: 0, note: 60, velocity: 100 }),
        event(EventBody::ControlChange { group: 0, channel: 0, cc: 1, value: 64 }),
    ];

    // Stereo passthrough of constant 0.5.
    let input = [[0.5f32; 16], [0.5f32; 16]];
    let mut output = [[0.0f32; 16], [0.0f32; 16]];
    for ch in 0..2 {
        pass_channel(ch, 2, &input[ch], &mut output[ch], 0.0);
    }

    let mut out_events = Vec::new();
    plugin.process(&events, &mut out_events);
    assert!(plugin.ring().has_pending());

    let kinds: Vec<_> = captured(&mut plugin)
        .iter()
        .map(|e| interpret(e).kind)
        .collect();
    assert!(kinds.contains(&"Note On"), "kinds: {kinds:?}");
    assert!(kinds.contains(&"Control Change"), "kinds: {kinds:?}");
    // Audio passed through untouched.
    assert_eq!(output[0][0], 0.5);
    // MIDI forwarded to the output unchanged.
    let out: Vec<_> = out_events
        .iter()
        .map(|e| match e {
            Forwarded::Event { body, .. } => *body,
            Forwarded::SysEx { .. } => panic!("no payload was sent"),
        })
        .collect();
    assert!(
        out.iter().any(|b| matches!(b, EventBody::NoteOn { .. })),
        "out: {out:?}"
    );
    assert!(
        out.iter()
            .any(|b| matches!(b, EventBody::ControlChange { .. })),
        "out: {out:?}"
    );
}

#[test]
fn a_terminal_monitor_captures_and_holds_back() {
    let mut plugin = MidiInspector::new(InspectorParams::default());
    assert!(plugin.params.thru);
    plugin.params.thru = false;
    let mut out = Vec::new();
    let program = EventBody::ProgramChange { group: 0, channel: 0, program: 1 };
    plugin.process(&[event(program)], &mut out);
    assert!(out.is_empty());
    assert!(plugin.process_event(event(program)).is_none());
    let entries = captured(&mut plugin);
    assert_eq!(entries.len(), 2);
    assert_eq!(entries[1].seq, 1);
    assert_eq!(entries[1].body, program);
}

#[test]
fn payloads_are_forwarded_by_their_bytes() {
    let mut plugin = MidiInspector::new(InspectorParams::new());
    let bytes = [0x7E, 0x00, 0x06];
    let sysex = Event {
        sample_offset: 12,
        port: 3,
        body: EventBody::SysEx { pool_offset: 40, len: 3 },
        sysex: &bytes,
    };
    match plugin.process_event(sysex) {
        Some(Forwarded::SysEx { sample_offset, port, bytes }) => {
            assert_eq!(sample_offset, 12);
            assert_eq!(port, 3);
            assert_eq!(bytes, [0x7E, 0x00, 0x06]);
        }
        _ => panic!("a payload was sent"),
    }
    let entry = captured(&mut plugin)[0];
    assert_eq!(entry.sysex_len, 3);
    assert_eq!(entry.sysex[..3], bytes);
}

#[test]
fn other_events_keep_time_and_port() {
    let mut plugin = MidiInspector::new(InspectorParams::new());
    let body = EventBody::PitchBend { group: 0, channel: 0, value: 1 };
    let sent = plugin.process_event(Event { sample_offset: 7, port: 2, body, sysex: &[] });
    match sent {
        Some(Forwarded::Event { sample_offset, port, body: same }) => {
            assert_eq!((sample_offset, port, same), (7, 2, body));
        }
        _ => panic!("an event was sent"),
    }
}

#[test]
fn channels_without_input_are_silent() {
    let mut output = [1, 2, 3];
    pass_channel(1, 1, &[], &mut output, 0);
    assert_eq!(output, [0, 0, 0]);
    pass_channel(0, 1, &[4, 5, 6], &mut output, 0);
    assert_eq!(output, [4, 5, 6]);
}
