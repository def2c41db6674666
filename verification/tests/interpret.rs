use midi_inspector::double::Double;
use midi_inspector::event::{EventBody, TransportInfo};
use midi_inspector::interpret::{
    cc_name, hex, interpret, note_name, sysex_source, Category, Interpreted,
};
use midi_inspector::ring::{LogEntry, SYSEX_INLINE};
use truce_core::events::EventBody as Host;
use truce_core::events::TransportInfo as HostTransport;

fn entry(body: EventBody) -> LogEntry {
    LogEntry {
        seq: 0,
        sample_offset: 0,
        body,
        sysex: [0u8; SYSEX_INLINE],
        sysex_len: 0,
    }
}

fn double(x: f64) -> Double {
    Double { bits: x.to_bits() }
}

fn check(body: EventBody, category: Category, kind: &str, channel: Option<u8>, summary: &str) {
    let i = interpret(&entry(body));
    assert_eq!(i.category, category);
    assert_eq!(i.kind, kind);
    assert_eq!(i.channel, channel);
    assert_eq!(i.summary, summary);
}

#[test]
fn interprets_note_on() {
    let i = interpret(&entry(EventBody::NoteOn {
        group: 0,
        channel: 0,
        note: 60,
        velocity: 100,
    }));
    assert_eq!(i.category, Category::Note);
    assert_eq!(i.kind, "Note On");
    assert_eq!(i.channel, Some(0));
    assert!(i.summary.contains("C4"), "summary was {:?}", i.summary);
}

#[test]
fn interprets_cc_with_name() {
    let i = interpret(&entry(EventBody::ControlChange {
        group: 0,
        channel: 3,
        cc: 1,
        value: 64,
    }));
    assert_eq!(i.category, Category::Cc);
    assert_eq!(i.channel, Some(3));
    assert!(
        i.summary.contains("Mod Wheel"),
        "summary was {:?}",
        i.summary
    );
}

#[test]
fn interprets_pitch_bend_center() {
    let i = interpret(&entry(EventBody::PitchBend {
        group: 0,
        channel: 0,
        value: 8192,
    }));
    assert_eq!(i.category, Category::PitchBend);
    assert!(
        i.summary.contains("+0.00 st"),
        "summary was {:?}",
        i.summary
    );
}

#[test]
fn sysex_shows_source_and_hex() {
    let mut e = entry(EventBody::SysEx {
        pool_offset: 0,
        len: 3,
    });
    e.sysex[..3].copy_from_slice(&[0x7E, 0x00, 0x06]);
    e.sysex_len = 3;
    let i = interpret(&e);
    assert_eq!(i.category, Category::SysEx);
    assert!(i.summary.contains("Universal Non-Realtime"));
    assert!(i.raw.contains("7E 00 06"), "raw was {:?}", i.raw);
}

#[test]
fn unknown_cc_falls_back_to_number() {
    let i = interpret(&entry(EventBody::ControlChange {
        group: 0,
        channel: 0,
        cc: 119,
        value: 1,
    }));
    // No friendly name, but still legible + raw line present.
    assert!(i.summary.contains("CC119"));
    assert!(i.raw.contains("ControlChange"));
}

#[test]
fn note_names() {
    assert_eq!(note_name(0), "C-1");
    assert_eq!(note_name(11), "B-1");
    assert_eq!(note_name(12), "C0");
    assert_eq!(note_name(60), "C4");
    assert_eq!(note_name(61), "C#4");
    assert_eq!(note_name(69), "A4");
    assert_eq!(note_name(127), "G9");
    assert_eq!(note_name(255), "D#20");
}

#[test]
fn controller_names() {
    assert_eq!(cc_name(0), Some("Bank Select MSB"));
    assert_eq!(cc_name(1), Some("Mod Wheel"));
    assert_eq!(cc_name(3), None);
    assert_eq!(cc_name(64), Some("Sustain"));
    assert_eq!(cc_name(123), Some("All Notes Off"));
    assert_eq!(cc_name(255), None);
    assert_eq!((0..=255u8).filter(|cc| cc_name(*cc).is_some()).count(), 22);
}

#[test]
fn payload_sources() {
    assert_eq!(sysex_source(&[]), "empty");
    assert_eq!(sysex_source(&[0x7E]), "Universal Non-Realtime");
    assert_eq!(sysex_source(&[0x7F, 1]), "Universal Realtime");
    assert_eq!(sysex_source(&[0x7D]), "Non-Commercial / Educational");
    assert_eq!(sysex_source(&[0x00, 0x20]), "Extended id (00 xx xx)");
    assert_eq!(sysex_source(&[0x41]), "Roland");
    assert_eq!(sysex_source(&[0x42]), "Korg");
    assert_eq!(sysex_source(&[0x43]), "Yamaha");
    assert_eq!(sysex_source(&[0x40]), "Kawai");
    assert_eq!(sysex_source(&[0x44]), "Casio");
    assert_eq!(sysex_source(&[0x47]), "Akai");
    assert_eq!(sysex_source(&[0x01]), "Manufacturer");
}

#[test]
fn hex_dumps() {
    assert_eq!(hex(&[]), "");
    assert_eq!(hex(&[0x0A]), "0A");
    assert_eq!(hex(&[0x7E, 0x00, 0xFF]), "7E 00 FF");
}

#[test]
fn every_seven_bit_value_agrees_with_the_formatter() {
    for value in 0..=127u8 {
        let i = interpret(&entry(EventBody::ChannelPressure {
            group: 0,
            channel: 0,
            pressure: value,
        }));
        assert_eq!(i.summary, format!("{value} ({:.2})", f32::from(value) / 127.0));
    }
}

#[test]
fn values_beyond_seven_bits_are_shown() {
    for value in 128..=255u8 {
        let i = interpret(&entry(EventBody::ChannelPressure {
            group: 0,
            channel: 0,
            pressure: value,
        }));
        assert_eq!(i.summary, format!("{value} ({:.2})", f32::from(value) / 127.0));
    }
}

#[test]
fn every_bend_code_agrees_with_the_formatter() {
    for value in 0..=65535u16 {
        let i = interpret(&entry(EventBody::PitchBend {
            group: 0,
            channel: 0,
            value,
        }));
        let norm = (f32::from(value) - 8192.0) / 8192.0;
        assert_eq!(
            i.summary,
            format!("raw {value} -> {norm:+.3} ({:+.2} st)", norm * 2.0)
        );
    }
}

#[test]
fn every_sixteen_bit_velocity_agrees_with_the_formatter() {
    for velocity in 0..=65535u16 {
        let i = interpret(&entry(EventBody::NoteOn2 {
            group: 0,
            channel: 0,
            note: 60,
            velocity,
            attribute_type: 0,
            attribute: 0,
        }));
        assert_eq!(
            i.summary,
            format!(
                "C4 vel {velocity} ({:.2})",
                f32::from(velocity) / f32::from(u16::MAX)
            )
        );
    }
}

#[test]
fn midi_one_messages() {
    check(
        EventBody::NoteOn { group: 0, channel: 0, note: 60, velocity: 100 },
        Category::Note,
        "Note On",
        Some(0),
        "C4 vel 100 (0.79)",
    );
    check(
        EventBody::NoteOff { group: 0, channel: 1, note: 61, velocity: 0 },
        Category::Note,
        "Note Off",
        Some(1),
        "C#4 vel 0 (0.00)",
    );
    check(
        EventBody::Aftertouch { group: 0, channel: 2, note: 62, pressure: 127 },
        Category::Pressure,
        "Poly Aftertouch",
        Some(2),
        "D4 127 (1.00)",
    );
    check(
        EventBody::ChannelPressure { group: 0, channel: 3, pressure: 64 },
        Category::Pressure,
        "Channel Pressure",
        Some(3),
        "64 (0.50)",
    );
    check(
        EventBody::ControlChange { group: 0, channel: 4, cc: 7, value: 1 },
        Category::Cc,
        "Control Change",
        Some(4),
        "CC7 Volume = 1 (0.01)",
    );
    check(
        EventBody::ControlChange { group: 0, channel: 4, cc: 119, value: 1 },
        Category::Cc,
        "Control Change",
        Some(4),
        "CC119 = 1 (0.01)",
    );
    check(
        EventBody::PitchBend { group: 0, channel: 5, value: 0 },
        Category::PitchBend,
        "Pitch Bend",
        Some(5),
        "raw 0 -> -1.000 (-2.00 st)",
    );
    check(
        EventBody::ProgramChange { group: 0, channel: 6, program: 9 },
        Category::Program,
        "Program Change",
        Some(6),
        "program 9",
    );
}

#[test]
fn midi_two_messages() {
    check(
        EventBody::NoteOff2 {
            group: 0,
            channel: 0,
            note: 60,
            velocity: 32768,
            attribute_type: 0,
            attribute: 0,
        },
        Category::Note,
        "Note Off (MIDI 2.0)",
        Some(0),
        "C4 vel 32768 (0.50)",
    );
    check(
        EventBody::PolyPressure2 { group: 0, channel: 0, note: 60, pressure: 4294967295 },
        Category::Pressure,
        "Poly Pressure (MIDI 2.0)",
        Some(0),
        "C4 4294967295",
    );
    check(
        EventBody::PerNoteCC {
            group: 0,
            channel: 0,
            note: 60,
            cc: 7,
            value: 5,
            registered: true,
        },
        Category::Cc,
        "Per-Note CC (MIDI 2.0)",
        Some(0),
        "C4 (reg) CC7 = 5",
    );
    check(
        EventBody::PerNoteCC {
            group: 0,
            channel: 0,
            note: 60,
            cc: 7,
            value: 5,
            registered: false,
        },
        Category::Cc,
        "Per-Note CC (MIDI 2.0)",
        Some(0),
        "C4 (asgn) CC7 = 5",
    );
    check(
        EventBody::PerNotePitchBend { group: 0, channel: 0, note: 60, value: 2147483648 },
        Category::PitchBend,
        "Per-Note Bend (MIDI 2.0)",
        Some(0),
        "C4 raw 2147483648 (center 0x80000000)",
    );
    check(
        EventBody::PerNoteManagement { group: 0, channel: 0, note: 60, flags: 3 },
        Category::Other,
        "Per-Note Mgmt (MIDI 2.0)",
        Some(0),
        "C4 flags 0x03",
    );
    check(
        EventBody::ControlChange2 { group: 0, channel: 0, cc: 1, value: 70000 },
        Category::Cc,
        "Control Change (MIDI 2.0)",
        Some(0),
        "CC1 Mod Wheel = 70000",
    );
    check(
        EventBody::ChannelPressure2 { group: 0, channel: 0, pressure: 12 },
        Category::Pressure,
        "Channel Pressure (MIDI 2.0)",
        Some(0),
        "12",
    );
    check(
        EventBody::PitchBend2 { group: 0, channel: 0, value: 1 },
        Category::PitchBend,
        "Pitch Bend (MIDI 2.0)",
        Some(0),
        "raw 1 (center 0x80000000)",
    );
    check(
        EventBody::ProgramChange2 { group: 0, channel: 0, program: 5, bank: None },
        Category::Program,
        "Program Change (MIDI 2.0)",
        Some(0),
        "program 5 (no bank)",
    );
    check(
        EventBody::ProgramChange2 { group: 0, channel: 0, program: 5, bank: Some((1, 2)) },
        Category::Program,
        "Program Change (MIDI 2.0)",
        Some(0),
        "program 5 (bank 1/2)",
    );
    check(
        EventBody::RegisteredController { group: 0, channel: 0, bank: 1, index: 2, value: 3 },
        Category::Cc,
        "Registered Controller (MIDI 2.0)",
        Some(0),
        "RPN 1/2 = 3",
    );
    check(
        EventBody::AssignableController { group: 0, channel: 0, bank: 1, index: 2, value: 3 },
        Category::Cc,
        "Assignable Controller (MIDI 2.0)",
        Some(0),
        "NRPN 1/2 = 3",
    );
}

fn transport() -> TransportInfo {
    TransportInfo {
        playing: true,
        recording: false,
        tempo: double(120.0),
        time_sig_num: 4,
        time_sig_den: 4,
        position_samples: -96000,
        position_seconds: double(2.0),
        position_beats: double(4.125),
        bar_start_beats: double(0.1),
        loop_active: true,
        loop_start_beats: double(1e-7),
        loop_end_beats: double(1e20),
    }
}

#[test]
fn automation_and_transport() {
    check(
        EventBody::ParamChange { id: 7, value: double(0.5) },
        Category::Param,
        "Param Change",
        None,
        "param #7 = 0.5000",
    );
    check(
        EventBody::ParamMod { id: 7, note_id: -1, value: double(-0.25) },
        Category::Param,
        "Param Modulation",
        None,
        "param #7 note -1 += -0.2500",
    );
    check(
        EventBody::Transport(transport()),
        Category::Transport,
        "Transport",
        None,
        "120.00 bpm 4/4 play bar@4.12",
    );
    let mut stopped = transport();
    stopped.playing = false;
    check(
        EventBody::Transport(stopped),
        Category::Transport,
        "Transport",
        None,
        "120.00 bpm 4/4 stop bar@4.12",
    );
}

#[test]
fn long_payloads_are_truncated() {
    let mut e = entry(EventBody::SysEx { pool_offset: 0, len: 30 });
    e.sysex = [0x11; SYSEX_INLINE];
    e.sysex_len = 30;
    let i: Interpreted = interpret(&e);
    assert_eq!(i.summary, "30 bytes · Manufacturer");
    assert_eq!(
        i.raw,
        format!("SysEx [{}] … +6 more", vec!["11"; SYSEX_INLINE].join(" "))
    );
    e.sysex_len = 24;
    assert_eq!(
        interpret(&e).raw,
        format!("SysEx [{}]", vec!["11"; SYSEX_INLINE].join(" "))
    );
    e.sysex_len = 0;
    assert_eq!(interpret(&e).raw, "SysEx []");
    assert_eq!(interpret(&e).summary, "0 bytes · empty");
}

fn raw(body: EventBody) -> String {
    interpret(&entry(body)).raw
}

#[test]
fn raw_lines_agree_with_the_host_types() {
    let (group, channel, note) = (1, 2, 60);
    let pairs: Vec<(EventBody, Host)> = vec![
        (
            EventBody::NoteOn { group, channel, note, velocity: 3 },
            Host::NoteOn { group, channel, note, velocity: 3 },
        ),
        (
            EventBody::NoteOff { group, channel, note, velocity: 3 },
            Host::NoteOff { group, channel, note, velocity: 3 },
        ),
        (
            EventBody::Aftertouch { group, channel, note, pressure: 3 },
            Host::Aftertouch { group, channel, note, pressure: 3 },
        ),
        (
            EventBody::ChannelPressure { group, channel, pressure: 3 },
            Host::ChannelPressure { group, channel, pressure: 3 },
        ),
        (
            EventBody::ControlChange { group, channel, cc: 3, value: 4 },
            Host::ControlChange { group, channel, cc: 3, value: 4 },
        ),
        (
            EventBody::PitchBend { group, channel, value: 16383 },
            Host::PitchBend { group, channel, value: 16383 },
        ),
        (
            EventBody::ProgramChange { group, channel, program: 3 },
            Host::ProgramChange { group, channel, program: 3 },
        ),
        (
            EventBody::NoteOn2 {
                group,
                channel,
                note,
                velocity: 65535,
                attribute_type: 3,
                attribute: 4,
            },
            Host::NoteOn2 {
                group,
                channel,
                note,
                velocity: 65535,
                attribute_type: 3,
                attribute: 4,
            },
        ),
        (
            EventBody::NoteOff2 {
                group,
                channel,
                note,
                velocity: 65535,
                attribute_type: 3,
                attribute: 4,
            },
            Host::NoteOff2 {
                group,
                channel,
                note,
                velocity: 65535,
                attribute_type: 3,
                attribute: 4,
            },
        ),
        (
            EventBody::PolyPressure2 { group, channel, note, pressure: 4294967295 },
            Host::PolyPressure2 { group, channel, note, pressure: 4294967295 },
        ),
        (
            EventBody::PerNoteCC { group, channel, note, cc: 3, value: 4, registered: true },
            Host::PerNoteCC { group, channel, note, cc: 3, value: 4, registered: true },
        ),
        (
            EventBody::PerNotePitchBend { group, channel, note, value: 4 },
            Host::PerNotePitchBend { group, channel, note, value: 4 },
        ),
        (
            EventBody::PerNoteManagement { group, channel, note, flags: 4 },
            Host::PerNoteManagement { group, channel, note, flags: 4 },
        ),
        (
            EventBody::ControlChange2 { group, channel, cc: 3, value: 4 },
            Host::ControlChange2 { group, channel, cc: 3, value: 4 },
        ),
        (
            EventBody::ChannelPressure2 { group, channel, pressure: 4 },
            Host::ChannelPressure2 { group, channel, pressure: 4 },
        ),
        (
            EventBody::PitchBend2 { group, channel, value: 4 },
            Host::PitchBend2 { group, channel, value: 4 },
        ),
        (
            EventBody::ProgramChange2 { group, channel, program: 3, bank: None },
            Host::ProgramChange2 { group, channel, program: 3, bank: None },
        ),
        (
            EventBody::ProgramChange2 { group, channel, program: 3, bank: Some((4, 5)) },
            Host::ProgramChange2 { group, channel, program: 3, bank: Some((4, 5)) },
        ),
        (
            EventBody::RegisteredController { group, channel, bank: 3, index: 4, value: 5 },
            Host::RegisteredController { group, channel, bank: 3, index: 4, value: 5 },
        ),
        (
            EventBody::AssignableController { group, channel, bank: 3, index: 4, value: 5 },
            Host::AssignableController { group, channel, bank: 3, index: 4, value: 5 },
        ),
        (
            EventBody::ParamChange { id: 3, value: double(0.1) },
            Host::ParamChange { id: 3, value: 0.1 },
        ),
        (
            EventBody::ParamMod { id: 3, note_id: -2147483648, value: double(-1e-9) },
            Host::ParamMod { id: 3, note_id: -2147483648, value: -1e-9 },
        ),
        (
            EventBody::Transport(transport()),
            Host::Transport(HostTransport {
                playing: true,
                recording: false,
                tempo: 120.0,
                time_sig_num: 4,
                time_sig_den: 4,
                position_samples: -96000,
                position_seconds: 2.0,
                position_beats: 4.125,
                bar_start_beats: 0.1,
                loop_active: true,
                loop_start_beats: 1e-7,
                loop_end_beats: 1e20,
            }),
        ),
    ];
    for (ours, host) in pairs {
        assert_eq!(raw(ours), format!("{host:?}"));
    }
}
