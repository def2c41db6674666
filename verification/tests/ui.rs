use midi_inspector::event::EventBody;
use midi_inspector::interpret::Category;
use midi_inspector::ring::EventRing;
use midi_inspector::ui::{EventRows, InspectorUi, Msg, Row, MAX_DISPLAY};

fn note(note: u8) -> EventBody {
    EventBody::NoteOn { group: 0, channel: 0, note, velocity: 100 }
}

fn rows(list: EventRows) -> Vec<Row> {
    match list {
        EventRows::Rows(rows) => rows,
        EventRows::Waiting(text) => panic!("{}", text),
    }
}

#[test]
fn waits_for_the_first_event() {
    let mut ui = InspectorUi::new();
    let mut ring = EventRing::new();
    assert!(!ui.needs_redraw(&ring));
    let frame = ui.view(&mut ring);
    assert_eq!(frame.header.title, "MIDI INSPECTOR");
    assert_eq!(frame.header.stats, "0 shown");
    assert_eq!(frame.header.pause, "Pause");
    assert_eq!(frame.header.clear, "Clear");
    assert!(matches!(
        frame.rows,
        EventRows::Waiting("Waiting for MIDI - route MIDI to this plugin.")
    ));
}

#[test]
fn rows_are_aligned_and_newest_first() {
    let mut ui = InspectorUi::new();
    let mut ring = EventRing::new();
    ring.push(0, note(60), &[]);
    ring.push(480, EventBody::SysEx { pool_offset: 0, len: 3 }, &[0x7E, 0x00, 0x06]);
    assert!(ui.needs_redraw(&ring));
    let frame = ui.view(&mut ring);
    assert_eq!(frame.header.stats, "2 shown");
    let rows = rows(frame.rows);
    assert_eq!(rows.len(), 2);
    assert_eq!(
        rows[0].line,
        format!(
            "{:>6} @{:<5} {:<5} {:<26} {}",
            1, 480, "  -", "SysEx", "3 bytes · Universal Non-Realtime"
        )
    );
    assert_eq!(rows[0].raw, "SysEx [7E 00 06]");
    assert_eq!(
        rows[1].line,
        format!(
            "{:>6} @{:<5} {:<5} {:<26} {}",
            0, 0, "ch1", "Note On", "C4 vel 100 (0.79)"
        )
    );
    assert_eq!(
        rows[1].raw,
        "NoteOn { group: 0, channel: 0, note: 60, velocity: 100 }"
    );
    assert!(!ui.needs_redraw(&ring));
}

#[test]
fn columns_widen_for_long_texts() {
    let mut ui = InspectorUi::new();
    let mut ring = EventRing::new();
    ring.push(
        1234567,
        EventBody::RegisteredController { group: 0, channel: 15, bank: 1, index: 2, value: 3 },
        &[],
    );
    let rows = rows(ui.view(&mut ring).rows);
    assert_eq!(
        rows[0].line,
        "     0 @1234567 ch16  Registered Controller (MIDI 2.0) RPN 1/2 = 3"
    );
}

#[test]
fn filters_hide_and_keep() {
    let mut ui = InspectorUi::new();
    let mut ring = EventRing::new();
    ring.push(0, note(60), &[]);
    ring.push(0, EventBody::ProgramChange { group: 0, channel: 0, program: 1 }, &[]);
    ring.push(0, note(62), &[]);
    ui.refresh(&mut ring);
    ui.update(Msg::SetFilter(0, false), &mut ring);
    assert!(!ui.shows(Category::Note));
    assert!(ui.shows(Category::Program));
    let shown = rows(ui.event_list());
    assert_eq!(shown.len(), 1);
    assert!(shown[0].line.contains("program 1"));
    // The count is of what is kept.
    assert_eq!(ui.header_bar(0).stats, "3 shown");
    ui.update(Msg::SetFilter(0, true), &mut ring);
    assert_eq!(rows(ui.event_list()).len(), 3);
    ui.update(Msg::SetFilter(99, false), &mut ring);
    assert_eq!(rows(ui.event_list()).len(), 3);
}

#[test]
fn toggles_follow_the_categories() {
    let mut ui = InspectorUi::new();
    let mut ring = EventRing::new();
    ui.update(Msg::SetFilter(5, false), &mut ring);
    let toggles = ui.filter_bar();
    assert_eq!(toggles.len(), 9);
    for (i, (category, label)) in Category::ALL.iter().enumerate() {
        assert_eq!(toggles[i].index, i);
        assert_eq!(toggles[i].label, *label);
        assert_eq!(toggles[i].on, i != 5);
        assert_eq!(ui.shows(*category), i != 5);
    }
    assert_eq!(
        toggles.iter().map(|t| t.label).collect::<Vec<_>>(),
        vec!["Note", "CC", "Bend", "Press", "Prog", "SysEx", "Param", "Transp", "Other"]
    );
}

#[test]
fn pausing_freezes_the_display() {
    let mut ui = InspectorUi::new();
    let mut ring = EventRing::new();
    ring.push(0, note(60), &[]);
    ui.refresh(&mut ring);
    ui.update(Msg::TogglePause, &mut ring);
    ring.push(0, note(61), &[]);
    assert!(!ui.needs_redraw(&ring));
    let frame = ui.view(&mut ring);
    assert_eq!(frame.header.pause, "Resume");
    assert_eq!(frame.header.stats, "1 shown");
    assert!(ring.has_pending());
    ui.update(Msg::TogglePause, &mut ring);
    assert_eq!(ui.view(&mut ring).header.stats, "2 shown");
}

#[test]
fn clearing_empties_log_and_ring() {
    let mut ui = InspectorUi::new();
    let mut ring = EventRing::new();
    ring.push(0, note(60), &[]);
    ui.refresh(&mut ring);
    ring.push(0, note(61), &[]);
    ui.update(Msg::Clear, &mut ring);
    assert!(!ring.has_pending());
    assert!(matches!(ui.event_list(), EventRows::Waiting(_)));
}

#[test]
fn the_log_keeps_the_newest() {
    let mut ui = InspectorUi::new();
    let mut ring = EventRing::new();
    for i in 0..5000u32 {
        ring.push(i, note(60), &[]);
    }
    let frame = ui.view(&mut ring);
    assert_eq!(frame.header.stats, "500 shown · 904 dropped");
    let rows = rows(frame.rows);
    assert_eq!(rows.len(), MAX_DISPLAY);
    assert!(rows[0].line.starts_with("  4999 @4999  ch1   Note On"));
    assert!(rows[499].line.starts_with("  4500 @4500  ch1   Note On"));
}

#[test]
fn buttons_and_checkboxes_send_their_messages() {
    let mut ui = InspectorUi::new();
    let mut ring = EventRing::new();
    ring.push(0, note(60), &[]);
    ui.refresh(&mut ring);
    let header = ui.header_bar(0);
    assert!(matches!(header.pause_message(), Msg::TogglePause));
    assert!(matches!(header.clear_message(), Msg::Clear));
    ui.update(header.pause_message(), &mut ring);
    assert_eq!(ui.header_bar(0).pause, "Resume");
    ui.update(header.pause_message(), &mut ring);
    assert_eq!(ui.header_bar(0).pause, "Pause");
    for (i, toggle) in ui.filter_bar().iter().enumerate() {
        assert!(matches!(toggle.message(false), Msg::SetFilter(index, false) if index == i));
        assert!(matches!(toggle.message(true), Msg::SetFilter(index, true) if index == i));
        ui.update(toggle.message(false), &mut ring);
        for (j, (category, _)) in Category::ALL.iter().enumerate() {
            assert_eq!(ui.shows(*category), j > i);
        }
    }
    ui.update(header.clear_message(), &mut ring);
    assert_eq!(ui.header_bar(0).stats, "0 shown");
}
