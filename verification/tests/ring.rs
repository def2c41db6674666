use midi_inspector::event::EventBody;
use midi_inspector::ring::{EventRing, LogEntry, RING_CAP, SYSEX_INLINE};
use std::collections::VecDeque;

fn body(note: u8) -> EventBody {
    EventBody::NoteOn { group: 0, channel: 0, note, velocity: 1 }
}

fn drained(ring: &mut EventRing) -> Vec<LogEntry> {
    let mut out = VecDeque::new();
    ring.drain_into(&mut out, usize::MAX);
    out.into_iter().collect()
}

#[test]
fn drains_in_order_of_capture() {
    let mut ring = EventRing::new();
    assert!(!ring.has_pending());
    for i in 0..5u8 {
        ring.push(u32::from(i) * 10, body(i), &[]);
    }
    assert!(ring.has_pending());
    let out = drained(&mut ring);
    assert_eq!(out.len(), 5);
    for (i, entry) in out.iter().enumerate() {
        assert_eq!(entry.seq, i as u64);
        assert_eq!(entry.sample_offset, i as u32 * 10);
        assert_eq!(entry.body, body(i as u8));
        assert_eq!(entry.sysex_len, 0);
    }
    assert!(!ring.has_pending());
    assert_eq!(ring.dropped(), 0);
}

#[test]
fn overflow_drops_the_oldest() {
    let mut ring = EventRing::default();
    for i in 0..RING_CAP + 3 {
        ring.push(i as u32, body(0), &[]);
    }
    assert_eq!(ring.dropped(), 3);
    let out = drained(&mut ring);
    assert_eq!(out.len(), RING_CAP);
    assert_eq!(out[0].seq, 3);
    assert_eq!(out[RING_CAP - 1].seq, RING_CAP as u64 + 2);
    // Draining does not forget the losses.
    assert_eq!(ring.dropped(), 3);
}

#[test]
fn draining_caps_the_log_from_the_front() {
    let mut ring = EventRing::new();
    let mut out = VecDeque::new();
    for i in 0..10 {
        ring.push(i, body(0), &[]);
    }
    ring.drain_into(&mut out, 4);
    assert_eq!(out.iter().map(|e| e.seq).collect::<Vec<_>>(), vec![6, 7, 8, 9]);
    for i in 0..2 {
        ring.push(i, body(0), &[]);
    }
    ring.drain_into(&mut out, 4);
    assert_eq!(out.iter().map(|e| e.seq).collect::<Vec<_>>(), vec![8, 9, 10, 11]);
    ring.drain_into(&mut out, 0);
    assert!(out.is_empty());
}

#[test]
fn splitting_drains_changes_nothing() {
    let mut once = EventRing::new();
    let mut split = EventRing::new();
    let (mut all, mut parts) = (VecDeque::new(), VecDeque::new());
    for i in 0..20 {
        once.push(i, body(0), &[]);
        split.push(i, body(0), &[]);
        if i % 7 == 0 {
            split.drain_into(&mut parts, 6);
        }
    }
    once.drain_into(&mut all, 6);
    split.drain_into(&mut parts, 6);
    let seqs = |log: &VecDeque<LogEntry>| log.iter().map(|e| e.seq).collect::<Vec<_>>();
    assert_eq!(seqs(&all), seqs(&parts));
    assert_eq!(seqs(&all), vec![14, 15, 16, 17, 18, 19]);
}

#[test]
fn payloads_are_inlined() {
    let mut ring = EventRing::new();
    let long: Vec<u8> = (0..40).collect();
    ring.push(0, EventBody::SysEx { pool_offset: 0, len: 3 }, &[9, 8, 7]);
    ring.push(0, EventBody::SysEx { pool_offset: 0, len: 40 }, &long);
    let out = drained(&mut ring);
    assert_eq!(out[0].sysex[..4], [9, 8, 7, 0]);
    assert_eq!(out[0].sysex_len, 3);
    assert_eq!(out[1].sysex[..], long[..SYSEX_INLINE]);
    assert_eq!(out[1].sysex_len, 40);
}

#[test]
fn clearing_forgets_entries_and_losses() {
    let mut ring = EventRing::new();
    for _ in 0..RING_CAP + 1 {
        ring.push(0, body(0), &[]);
    }
    ring.clear();
    assert!(!ring.has_pending());
    assert_eq!(ring.dropped(), 0);
    ring.push(0, body(0), &[]);
    // Numbers go on.
    assert_eq!(drained(&mut ring)[0].seq, RING_CAP as u64 + 1);
}
