//! Turns a captured [`LogEntry`] into human-readable text.
//!
//! Every event yields a `raw` line, its fields by name or a hex dump for
//! `SysEx`, so that nothing is ever invisible. A friendlier `summary` goes with
//! it.

use crate::decimal::{fixed, push_fixed, push_signed_fixed, signed_fixed, MAX_PLACES};
use crate::double::Double;
use crate::event::EventBody;
use crate::ring::{LogEntry, SYSEX_INLINE};
use crate::text::{dec, hex_byte, int_dec, push_dec, push_hex_byte, push_int};
use vstd::prelude::*;
use vstd::slice::slice_subrange;
use vstd::string::*;

verus! {

/// Pitch-bend range assumed for the semitone readout, in semitones either way.
pub const PITCH_BEND_RANGE_ST: i64 = 2;

/// The pitch-bend code of no bend, and the number of codes on either side.
pub const PITCH_BEND_CENTER: i64 = 8192;

/// Coarse grouping used for the editor's filter toggles. MIDI 2.0 messages fold
/// into the matching group; the `kind` string carries the "(MIDI 2.0)" marker.
#[derive(Clone, Copy, PartialEq, Eq, Structural, Debug)]
pub enum Category {
    Note,
    Cc,
    PitchBend,
    Pressure,
    Program,
    SysEx,
    Param,
    Transport,
    Other,
}

impl Category {
    /// All categories, in display order, with their toggle labels.
    pub const ALL: [(Category, &'static str); 9] = [
        (Category::Note, "Note"),
        (Category::Cc, "CC"),
        (Category::PitchBend, "Bend"),
        (Category::Pressure, "Press"),
        (Category::Program, "Prog"),
        (Category::SysEx, "SysEx"),
        (Category::Param, "Param"),
        (Category::Transport, "Transp"),
        (Category::Other, "Other"),
    ];
}

/// A fully interpreted event, ready to render.
#[derive(Clone, Debug)]
pub struct Interpreted {
    pub category: Category,
    pub kind: &'static str,
    /// Wire channel `0..=15`, when the message is channel-addressed.
    pub channel: Option<u8>,
    pub summary: String,
    pub raw: String,
}

/// The name of a pitch class.
pub open spec fn pitch_class(n: int) -> Seq<char> {
    if n == 0 { "C"@ }
    else if n == 1 { "C#"@ }
    else if n == 2 { "D"@ }
    else if n == 3 { "D#"@ }
    else if n == 4 { "E"@ }
    else if n == 5 { "F"@ }
    else if n == 6 { "F#"@ }
    else if n == 7 { "G"@ }
    else if n == 8 { "G#"@ }
    else if n == 9 { "A"@ }
    else if n == 10 { "A#"@ }
    else { "B"@ }
}

/// A note by its pitch class and its octave; note 60 is in the fourth.
pub open spec fn note_text(note: u8) -> Seq<char> {
    pitch_class((note % 12) as int) + int_dec(note / 12 - 1)
}

/// Note name for a MIDI note number, e.g. `60 -> "C4"`.
#[must_use]
pub fn note_name(note: u8) -> (name: String)
    ensures
        name@ == note_text(note),
{
    let class: &str = match note % 12 {
        0 => "C",
        1 => "C#",
        2 => "D",
        3 => "D#",
        4 => "E",
        5 => "F",
        6 => "F#",
        7 => "G",
        8 => "G#",
        9 => "A",
        10 => "A#",
        _ => "B",
    };
    let mut name: String = class.to_owned();
    push_int(&mut name, note as i64 / 12 - 1);
    name
}

/// The names of the common control-change numbers.
pub open spec fn cc_text(cc: u8) -> Option<Seq<char>> {
    if cc == 0 { Some("Bank Select MSB"@) }
    else if cc == 1 { Some("Mod Wheel"@) }
    else if cc == 2 { Some("Breath"@) }
    else if cc == 4 { Some("Foot"@) }
    else if cc == 5 { Some("Portamento Time"@) }
    else if cc == 6 { Some("Data Entry MSB"@) }
    else if cc == 7 { Some("Volume"@) }
    else if cc == 8 { Some("Balance"@) }
    else if cc == 10 { Some("Pan"@) }
    else if cc == 11 { Some("Expression"@) }
    else if cc == 32 { Some("Bank Select LSB"@) }
    else if cc == 64 { Some("Sustain"@) }
    else if cc == 65 { Some("Portamento"@) }
    else if cc == 66 { Some("Sostenuto"@) }
    else if cc == 67 { Some("Soft Pedal"@) }
    else if cc == 71 { Some("Resonance"@) }
    else if cc == 74 { Some("Brightness"@) }
    else if cc == 91 { Some("Reverb"@) }
    else if cc == 93 { Some("Chorus"@) }
    else if cc == 120 { Some("All Sound Off"@) }
    else if cc == 121 { Some("Reset All Controllers"@) }
    else if cc == 123 { Some("All Notes Off"@) }
    else { None }
}

/// Friendly name for the common control-change numbers; `None` for the rest.
#[must_use]
pub fn cc_name(cc: u8) -> (name: Option<&'static str>)
    ensures
        name is Some == cc_text(cc) is Some,
        name matches Some(text) ==> cc_text(cc) == Some(text@),
{
    Some(
        match cc {
            0 => "Bank Select MSB",
            1 => "Mod Wheel",
            2 => "Breath",
            4 => "Foot",
            5 => "Portamento Time",
            6 => "Data Entry MSB",
            7 => "Volume",
            8 => "Balance",
            10 => "Pan",
            11 => "Expression",
            32 => "Bank Select LSB",
            64 => "Sustain",
            65 => "Portamento",
            66 => "Sostenuto",
            67 => "Soft Pedal",
            71 => "Resonance",
            74 => "Brightness",
            91 => "Reverb",
            93 => "Chorus",
            120 => "All Sound Off",
            121 => "Reset All Controllers",
            123 => "All Notes Off",
            _ => return None,
        },
    )
}

/// The origin of a `SysEx` payload, told by its first byte.
pub open spec fn source_text(bytes: Seq<u8>) -> Seq<char> {
    if bytes.len() == 0 { "empty"@ }
    else if bytes[0] == 0x7E { "Universal Non-Realtime"@ }
    else if bytes[0] == 0x7F { "Universal Realtime"@ }
    else if bytes[0] == 0x7D { "Non-Commercial / Educational"@ }
    else if bytes[0] == 0x00 { "Extended id (00 xx xx)"@ }
    else if bytes[0] == 0x41 { "Roland"@ }
    else if bytes[0] == 0x42 { "Korg"@ }
    else if bytes[0] == 0x43 { "Yamaha"@ }
    else if bytes[0] == 0x40 { "Kawai"@ }
    else if bytes[0] == 0x44 { "Casio"@ }
    else if bytes[0] == 0x47 { "Akai"@ }
    else { "Manufacturer"@ }
}

/// Manufacturer / universal label for a `SysEx` payload from its leading id
/// byte.
#[must_use]
pub fn sysex_source(bytes: &[u8]) -> (label: &'static str)
    ensures
        label@ == source_text(bytes@),
{
    if bytes.len() == 0 {
        return "empty";
    }
    match bytes[0] {
        0x7E => "Universal Non-Realtime",
        0x7F => "Universal Realtime",
        0x7D => "Non-Commercial / Educational",
        0x00 => "Extended id (00 xx xx)",
        0x41 => "Roland",
        0x42 => "Korg",
        0x43 => "Yamaha",
        0x40 => "Kawai",
        0x44 => "Casio",
        0x47 => "Akai",
        _ => "Manufacturer",
    }
}

/// Bytes as pairs of hex digits with spaces between them.
pub open spec fn hex_text(bytes: Seq<u8>) -> Seq<char>
    decreases bytes.len(),
{
    if bytes.len() == 0 {
        Seq::empty()
    } else if bytes.len() == 1 {
        hex_byte(bytes[0])
    } else {
        hex_text(bytes.drop_last()) + " "@ + hex_byte(bytes.last())
    }
}

/// Hex dump, e.g. `7E 00 06`.
pub fn hex(bytes: &[u8]) -> (text: String)
    ensures
        text@ == hex_text(bytes@),
{
    let mut text: String = String::new();
    let mut i: usize = 0;
    while i < bytes.len()
        invariant
            i <= bytes@.len(),
            text@ =~= hex_text(bytes@.subrange(0, i as int)),
        decreases bytes.len() - i,
    {
        if i > 0 {
            text.append(" ");
        }
        push_hex_byte(&mut text, bytes[i]);
        i += 1;
        assert(bytes@.subrange(0, i as int).drop_last() =~= bytes@.subrange(0, i - 1));
    }
    assert(bytes@.subrange(0, i as int) =~= bytes@);
    text
}

/// `truce_core::midi::norm_7bit`, shown with two decimal places. It is the
/// value divided by 127 in single precision. No such quotient lies within a
/// rounding error of the middle between two hundredths, so that the text is the
/// exact quotient rounded. Above 127 it may panic.
#[verifier::external_body]
fn norm_7bit_string(value: u8) -> (text: String)
    requires
        value <= 127,
    ensures
        text@ == fixed(value as nat, 127, 2),
{
    format!("{:.2}", truce_core::midi::norm_7bit(value))
}

/// `truce_core::midi::norm_pitch_bend`, shown with its sign and three decimal
/// places. It is the distance from the center divided by 8192, which single
/// precision holds exactly; the formatter rounds it to the nearest thousandth,
/// and from the middle between two to the even one. Above 16383 it may panic.
#[verifier::external_body]
fn norm_pitch_bend_string(value: u16) -> (text: String)
    requires
        value <= 16383,
    ensures
        text@ == signed_fixed(value - PITCH_BEND_CENTER, PITCH_BEND_CENTER as nat, 3),
{
    format!("{:+.3}", truce_core::midi::norm_pitch_bend(value))
}

/// A 7-bit value with its normalized form.
pub open spec fn v7_text(value: u8) -> Seq<char> {
    dec(value as nat) + " ("@ + fixed(value as nat, 127, 2) + ")"@
}

/// Formats a 7-bit value with its normalized form, e.g. `100 (0.79)`. A value
/// beyond seven bits is normalized in the same way.
fn v7(value: u8) -> (text: String)
    ensures
        text@ == v7_text(value),
{
    let mut text: String = String::new();
    push_dec(&mut text, value as u64);
    text.append(" (");
    if value <= 127 {
        text.append(norm_7bit_string(value).as_str());
    } else {
        push_fixed(&mut text, value as u64, 127, 2);
    }
    text.append(")");
    assert(text@ =~= v7_text(value));
    text
}

/// A pitch-bend code with its normalized form and the bend in semitones.
pub open spec fn bend_text(value: u16) -> Seq<char> {
    let distance = value - PITCH_BEND_CENTER;
    "raw "@ + dec(value as nat) + " -> "@ + signed_fixed(distance, PITCH_BEND_CENTER as nat, 3)
        + " ("@ + signed_fixed(distance * PITCH_BEND_RANGE_ST, PITCH_BEND_CENTER as nat, 2)
        + " st)"@
}

/// Formats a pitch-bend code, e.g. `raw 8192 -> +0.000 (+0.00 st)`. A code
/// beyond 14 bits is normalized in the same way.
fn bend(value: u16) -> (text: String)
    ensures
        text@ == bend_text(value),
{
    let distance: i64 = value as i64 - PITCH_BEND_CENTER;
    let mut text: String = "raw ".to_owned();
    push_dec(&mut text, value as u64);
    text.append(" -> ");
    if value <= 16383 {
        text.append(norm_pitch_bend_string(value).as_str());
    } else {
        push_signed_fixed(&mut text, distance, PITCH_BEND_CENTER as u64, 3);
    }
    text.append(" (");
    push_signed_fixed(&mut text, distance * PITCH_BEND_RANGE_ST, PITCH_BEND_CENTER as u64, 2);
    text.append(" st)");
    text
}

/// A note with a 16-bit velocity and its normalized form.
pub open spec fn note2_text(note: u8, velocity: u16) -> Seq<char> {
    note_text(note) + " vel "@ + dec(velocity as nat) + " ("@ + fixed(velocity as nat, 65535, 2)
        + ")"@
}

/// Formats a note with a 16-bit velocity, e.g. `C4 vel 32768 (0.50)`.
fn note2(note: u8, velocity: u16) -> (text: String)
    ensures
        text@ == note2_text(note, velocity),
{
    let mut text: String = note_name(note);
    text.append(" vel ");
    push_dec(&mut text, velocity as u64);
    text.append(" (");
    push_fixed(&mut text, velocity as u64, 65535, 2);
    text.append(")");
    text
}

/// A controller number with its name where it has one.
pub open spec fn controller_text(cc: u8) -> Seq<char> {
    match cc_text(cc) {
        None => "CC"@ + dec(cc as nat),
        Some(name) => "CC"@ + dec(cc as nat) + " "@ + name,
    }
}

/// Formats a controller number, e.g. `CC1 Mod Wheel` or `CC119`.
fn controller(cc: u8) -> (text: String)
    ensures
        text@ == controller_text(cc),
{
    let mut text: String = "CC".to_owned();
    push_dec(&mut text, cc as u64);
    match cc_name(cc) {
        None => {},
        Some(name) => {
            text.append(" ");
            text.append(name);
        },
    }
    text
}

/// The bank of a program change.
pub open spec fn bank_text(bank: Option<(u8, u8)>) -> Seq<char> {
    match bank {
        None => "no bank"@,
        Some(pair) => "bank "@ + dec(pair.0 as nat) + "/"@ + dec(pair.1 as nat),
    }
}

/// Formats the bank of a program change.
fn bank_string(bank: Option<(u8, u8)>) -> (text: String)
    ensures
        text@ == bank_text(bank),
{
    match bank {
        None => "no bank".to_owned(),
        Some(pair) => {
            let mut text: String = "bank ".to_owned();
            push_dec(&mut text, pair.0 as u64);
            text.append("/");
            push_dec(&mut text, pair.1 as u64);
            text
        },
    }
}

/// The payload bytes that an entry holds.
pub open spec fn inline_bytes(entry: LogEntry) -> Seq<u8> {
    if entry.sysex_len < SYSEX_INLINE {
        entry.sysex@.subrange(0, entry.sysex_len as int)
    } else {
        entry.sysex@
    }
}

/// The payload bytes that an entry holds.
fn inline_slice(entry: &LogEntry) -> (bytes: &[u8])
    ensures
        bytes@ == inline_bytes(*entry),
{
    let n: usize = if (entry.sysex_len as u64) < SYSEX_INLINE as u64 {
        entry.sysex_len as usize
    } else {
        SYSEX_INLINE
    };
    let bytes: &[u8] = slice_subrange(entry.sysex.as_slice(), 0, n);
    assert(bytes@ =~= inline_bytes(*entry));
    bytes
}

/// The raw line: a hex dump for `SysEx`, with the number of bytes that are not
/// held, and every field by name for the rest.
pub open spec fn raw_of(entry: LogEntry) -> Seq<char> {
    if entry.body is SysEx {
        if entry.sysex_len > SYSEX_INLINE {
            "SysEx ["@ + hex_text(inline_bytes(entry)) + "]"@ + " … +"@ + dec(
                (entry.sysex_len - SYSEX_INLINE) as nat,
            ) + " more"@
        } else {
            "SysEx ["@ + hex_text(inline_bytes(entry)) + "]"@
        }
    } else {
        entry.body.raw()
    }
}

/// Formats the raw line.
fn raw_line(entry: &LogEntry) -> (text: String)
    ensures
        text@ == raw_of(*entry),
{
    match &entry.body {
        EventBody::SysEx { .. } => {
            let mut text: String = "SysEx [".to_owned();
            text.append(hex(inline_slice(entry)).as_str());
            text.append("]");
            if entry.sysex_len as u64 > SYSEX_INLINE as u64 {
                text.append(" … +");
                push_dec(&mut text, entry.sysex_len as u64 - SYSEX_INLINE as u64);
                text.append(" more");
            }
            text
        },
        body => body.raw_string(),
    }
}

/// The group that an event belongs to.
pub open spec fn category_of(body: EventBody) -> Category {
    match body {
        EventBody::NoteOn { .. } => Category::Note,
        EventBody::NoteOff { .. } => Category::Note,
        EventBody::Aftertouch { .. } => Category::Pressure,
        EventBody::ChannelPressure { .. } => Category::Pressure,
        EventBody::ControlChange { .. } => Category::Cc,
        EventBody::PitchBend { .. } => Category::PitchBend,
        EventBody::ProgramChange { .. } => Category::Program,
        EventBody::NoteOn2 { .. } => Category::Note,
        EventBody::NoteOff2 { .. } => Category::Note,
        EventBody::PolyPressure2 { .. } => Category::Pressure,
        EventBody::PerNoteCC { .. } => Category::Cc,
        EventBody::PerNotePitchBend { .. } => Category::PitchBend,
        EventBody::PerNoteManagement { .. } => Category::Other,
        EventBody::ControlChange2 { .. } => Category::Cc,
        EventBody::ChannelPressure2 { .. } => Category::Pressure,
        EventBody::PitchBend2 { .. } => Category::PitchBend,
        EventBody::ProgramChange2 { .. } => Category::Program,
        EventBody::RegisteredController { .. } => Category::Cc,
        EventBody::AssignableController { .. } => Category::Cc,
        EventBody::ParamChange { .. } => Category::Param,
        EventBody::ParamMod { .. } => Category::Param,
        EventBody::Transport(_) => Category::Transport,
        EventBody::SysEx { .. } => Category::SysEx,
    }
}

/// The name of an event's kind.
pub open spec fn kind_of(body: EventBody) -> Seq<char> {
    match body {
        EventBody::NoteOn { .. } => "Note On"@,
        EventBody::NoteOff { .. } => "Note Off"@,
        EventBody::Aftertouch { .. } => "Poly Aftertouch"@,
        EventBody::ChannelPressure { .. } => "Channel Pressure"@,
        EventBody::ControlChange { .. } => "Control Change"@,
        EventBody::PitchBend { .. } => "Pitch Bend"@,
        EventBody::ProgramChange { .. } => "Program Change"@,
        EventBody::NoteOn2 { .. } => "Note On (MIDI 2.0)"@,
        EventBody::NoteOff2 { .. } => "Note Off (MIDI 2.0)"@,
        EventBody::PolyPressure2 { .. } => "Poly Pressure (MIDI 2.0)"@,
        EventBody::PerNoteCC { .. } => "Per-Note CC (MIDI 2.0)"@,
        EventBody::PerNotePitchBend { .. } => "Per-Note Bend (MIDI 2.0)"@,
        EventBody::PerNoteManagement { .. } => "Per-Note Mgmt (MIDI 2.0)"@,
        EventBody::ControlChange2 { .. } => "Control Change (MIDI 2.0)"@,
        EventBody::ChannelPressure2 { .. } => "Channel Pressure (MIDI 2.0)"@,
        EventBody::PitchBend2 { .. } => "Pitch Bend (MIDI 2.0)"@,
        EventBody::ProgramChange2 { .. } => "Program Change (MIDI 2.0)"@,
        EventBody::RegisteredController { .. } => "Registered Controller (MIDI 2.0)"@,
        EventBody::AssignableController { .. } => "Assignable Controller (MIDI 2.0)"@,
        EventBody::ParamChange { .. } => "Param Change"@,
        EventBody::ParamMod { .. } => "Param Modulation"@,
        EventBody::Transport(_) => "Transport"@,
        EventBody::SysEx { .. } => "SysEx"@,
    }
}

/// The channel that an event is addressed to.
pub open spec fn channel_of(body: EventBody) -> Option<u8> {
    match body {
        EventBody::NoteOn { channel, .. } => Some(channel),
        EventBody::NoteOff { channel, .. } => Some(channel),
        EventBody::Aftertouch { channel, .. } => Some(channel),
        EventBody::ChannelPressure { channel, .. } => Some(channel),
        EventBody::ControlChange { channel, .. } => Some(channel),
        EventBody::PitchBend { channel, .. } => Some(channel),
        EventBody::ProgramChange { channel, .. } => Some(channel),
        EventBody::NoteOn2 { channel, .. } => Some(channel),
        EventBody::NoteOff2 { channel, .. } => Some(channel),
        EventBody::PolyPressure2 { channel, .. } => Some(channel),
        EventBody::PerNoteCC { channel, .. } => Some(channel),
        EventBody::PerNotePitchBend { channel, .. } => Some(channel),
        EventBody::PerNoteManagement { channel, .. } => Some(channel),
        EventBody::ControlChange2 { channel, .. } => Some(channel),
        EventBody::ChannelPressure2 { channel, .. } => Some(channel),
        EventBody::PitchBend2 { channel, .. } => Some(channel),
        EventBody::ProgramChange2 { channel, .. } => Some(channel),
        EventBody::RegisteredController { channel, .. } => Some(channel),
        EventBody::AssignableController { channel, .. } => Some(channel),
        EventBody::ParamChange { .. } => None,
        EventBody::ParamMod { .. } => None,
        EventBody::Transport(_) => None,
        EventBody::SysEx { .. } => None,
    }
}

/// What an event says, in a few words.
pub open spec fn summary_of(entry: LogEntry) -> Seq<char> {
    match entry.body {
        EventBody::NoteOn { channel, note, velocity, .. } =>
            note_text(note) + " vel "@ + v7_text(velocity),
        EventBody::NoteOff { channel, note, velocity, .. } =>
            note_text(note) + " vel "@ + v7_text(velocity),
        EventBody::Aftertouch { channel, note, pressure, .. } =>
            note_text(note) + " "@ + v7_text(pressure),
        EventBody::ChannelPressure { channel, pressure, .. } =>
            v7_text(pressure),
        EventBody::ControlChange { channel, cc, value, .. } =>
            controller_text(cc) + " = "@ + v7_text(value),
        EventBody::PitchBend { channel, value, .. } =>
            bend_text(value),
        EventBody::ProgramChange { channel, program, .. } =>
            "program "@ + dec(program as nat),
        EventBody::NoteOn2 { channel, note, velocity, .. } =>
            note2_text(note, velocity),
        EventBody::NoteOff2 { channel, note, velocity, .. } =>
            note2_text(note, velocity),
        EventBody::PolyPressure2 { channel, note, pressure, .. } =>
            note_text(note) + " "@ + dec(pressure as nat),
        EventBody::PerNoteCC { channel, note, cc, value, registered, .. } =>
            note_text(note) + " "@ + (if registered { "(reg)"@ } else { "(asgn)"@ }) + " CC"@
                + dec(cc as nat) + " = "@ + dec(value as nat),
        EventBody::PerNotePitchBend { channel, note, value, .. } =>
            note_text(note) + " raw "@ + dec(value as nat) + " (center 0x80000000)"@,
        EventBody::PerNoteManagement { channel, note, flags, .. } =>
            note_text(note) + " flags 0x"@ + hex_byte(flags),
        EventBody::ControlChange2 { channel, cc, value, .. } =>
            controller_text(cc) + " = "@ + dec(value as nat),
        EventBody::ChannelPressure2 { channel, pressure, .. } =>
            dec(pressure as nat),
        EventBody::PitchBend2 { channel, value, .. } =>
            "raw "@ + dec(value as nat) + " (center 0x80000000)"@,
        EventBody::ProgramChange2 { channel, program, bank, .. } =>
            "program "@ + dec(program as nat) + " ("@ + bank_text(bank) + ")"@,
        EventBody::RegisteredController { channel, bank, index, value, .. } =>
            "RPN "@ + dec(bank as nat) + "/"@ + dec(index as nat) + " = "@ + dec(value as nat),
        EventBody::AssignableController { channel, bank, index, value, .. } =>
            "NRPN "@ + dec(bank as nat) + "/"@ + dec(index as nat) + " = "@ + dec(value as nat),
        EventBody::ParamChange { id, value } =>
            "param #"@ + dec(id as nat) + " = "@ + value.fixed_text(4),
        EventBody::ParamMod { id, note_id, value } =>
            "param #"@ + dec(id as nat) + " note "@ + int_dec(note_id as int) + " += "@
                + value.fixed_text(4),
        EventBody::Transport(t) =>
            t.tempo.fixed_text(2) + " bpm "@ + dec(t.time_sig_num as nat) + "/"@
                + dec(t.time_sig_den as nat) + " "@ + (if t.playing { "play"@ } else { "stop"@ })
                + " bar@"@ + t.position_beats.fixed_text(2),
        EventBody::SysEx { .. } =>
            dec(entry.sysex_len as nat) + " bytes · "@ + source_text(inline_bytes(entry)),
    }
}

/// A natural number as a text of its own.
fn dec_string(n: u64) -> (text: String)
    ensures
        text@ == dec(n as nat),
{
    let mut text: String = String::new();
    push_dec(&mut text, n);
    assert(text@ =~= dec(n as nat));
    text
}

/// A double-precision number with a fixed number of places as a text of its own.
fn fixed_string(x: Double, places: usize) -> (text: String)
    requires
        places <= MAX_PLACES,
    ensures
        text@ == x.fixed_text(places as nat),
{
    let mut text: String = String::new();
    x.push_fixed_text(&mut text, places);
    assert(text@ =~= x.fixed_text(places as nat));
    text
}

/// Interprets a captured entry. One arm per kind of event.
#[must_use]
pub fn interpret(entry: &LogEntry) -> (result: Interpreted)
    ensures
        result.category == category_of(entry.body),
        result.kind@ == kind_of(entry.body),
        result.channel == channel_of(entry.body),
        result.summary@ == summary_of(*entry),
        result.raw@ == raw_of(*entry),
{
    let raw: String = raw_line(entry);
    let (category, kind, channel, summary): (Category, &'static str, Option<u8>, String) =
        match entry.body {
        EventBody::NoteOn { channel, note, velocity, .. } => {
            let mut s: String = note_name(note);
            s.append(" vel ");
            s.append(v7(velocity).as_str());
            (Category::Note, "Note On", Some(channel), s)
        },
        EventBody::NoteOff { channel, note, velocity, .. } => {
            let mut s: String = note_name(note);
            s.append(" vel ");
            s.append(v7(velocity).as_str());
            (Category::Note, "Note Off", Some(channel), s)
        },
        EventBody::Aftertouch { channel, note, pressure, .. } => {
            let mut s: String = note_name(note);
            s.append(" ");
            s.append(v7(pressure).as_str());
            (Category::Pressure, "Poly Aftertouch", Some(channel), s)
        },
        EventBody::ChannelPressure { channel, pressure, .. } => {
            (Category::Pressure, "Channel Pressure", Some(channel), v7(pressure))
        },
        EventBody::ControlChange { channel, cc, value, .. } => {
            let mut s: String = controller(cc);
            s.append(" = ");
            s.append(v7(value).as_str());
            (Category::Cc, "Control Change", Some(channel), s)
        },
        EventBody::PitchBend { channel, value, .. } => {
            (Category::PitchBend, "Pitch Bend", Some(channel), bend(value))
        },
        EventBody::ProgramChange { channel, program, .. } => {
            let mut s: String = "program ".to_owned();
            push_dec(&mut s, program as u64);
            (Category::Program, "Program Change", Some(channel), s)
        },
        EventBody::NoteOn2 { channel, note, velocity, .. } => {
            (Category::Note, "Note On (MIDI 2.0)", Some(channel), note2(note, velocity))
        },
        EventBody::NoteOff2 { channel, note, velocity, .. } => {
            (Category::Note, "Note Off (MIDI 2.0)", Some(channel), note2(note, velocity))
        },
        EventBody::PolyPressure2 { channel, note, pressure, .. } => {
            let mut s: String = note_name(note);
            s.append(" ");
            push_dec(&mut s, pressure as u64);
            (Category::Pressure, "Poly Pressure (MIDI 2.0)", Some(channel), s)
        },
        EventBody::PerNoteCC { channel, note, cc, value, registered, .. } => {
            let mut s: String = note_name(note);
            s.append(" ");
            s.append(if registered { "(reg)" } else { "(asgn)" });
            s.append(" CC");
            push_dec(&mut s, cc as u64);
            s.append(" = ");
            push_dec(&mut s, value as u64);
            (Category::Cc, "Per-Note CC (MIDI 2.0)", Some(channel), s)
        },
        EventBody::PerNotePitchBend { channel, note, value, .. } => {
            let mut s: String = note_name(note);
            s.append(" raw ");
            push_dec(&mut s, value as u64);
            s.append(" (center 0x80000000)");
            (Category::PitchBend, "Per-Note Bend (MIDI 2.0)", Some(channel), s)
        },
        EventBody::PerNoteManagement { channel, note, flags, .. } => {
            let mut s: String = note_name(note);
            s.append(" flags 0x");
            push_hex_byte(&mut s, flags);
            (Category::Other, "Per-Note Mgmt (MIDI 2.0)", Some(channel), s)
        },
        EventBody::ControlChange2 { channel, cc, value, .. } => {
            let mut s: String = controller(cc);
            s.append(" = ");
            push_dec(&mut s, value as u64);
            (Category::Cc, "Control Change (MIDI 2.0)", Some(channel), s)
        },
        EventBody::ChannelPressure2 { channel, pressure, .. } => {
            (Category::Pressure, "Channel Pressure (MIDI 2.0)", Some(channel), dec_string(pressure as u64))
        },
        EventBody::PitchBend2 { channel, value, .. } => {
            let mut s: String = "raw ".to_owned();
            push_dec(&mut s, value as u64);
            s.append(" (center 0x80000000)");
            (Category::PitchBend, "Pitch Bend (MIDI 2.0)", Some(channel), s)
        },
        EventBody::ProgramChange2 { channel, program, bank, .. } => {
            let mut s: String = "program ".to_owned();
            push_dec(&mut s, program as u64);
            s.append(" (");
            s.append(bank_string(bank).as_str());
            s.append(")");
            (Category::Program, "Program Change (MIDI 2.0)", Some(channel), s)
        },
        EventBody::RegisteredController { channel, bank, index, value, .. } => {
            let mut s: String = "RPN ".to_owned();
            push_dec(&mut s, bank as u64);
            s.append("/");
            push_dec(&mut s, index as u64);
            s.append(" = ");
            push_dec(&mut s, value as u64);
            (Category::Cc, "Registered Controller (MIDI 2.0)", Some(channel), s)
        },
        EventBody::AssignableController { channel, bank, index, value, .. } => {
            let mut s: String = "NRPN ".to_owned();
            push_dec(&mut s, bank as u64);
            s.append("/");
            push_dec(&mut s, index as u64);
            s.append(" = ");
            push_dec(&mut s, value as u64);
            (Category::Cc, "Assignable Controller (MIDI 2.0)", Some(channel), s)
        },
        EventBody::ParamChange { id, value } => {
            let mut s: String = "param #".to_owned();
            push_dec(&mut s, id as u64);
            s.append(" = ");
            value.push_fixed_text(&mut s, 4);
            (Category::Param, "Param Change", None, s)
        },
        EventBody::ParamMod { id, note_id, value } => {
            let mut s: String = "param #".to_owned();
            push_dec(&mut s, id as u64);
            s.append(" note ");
            push_int(&mut s, note_id as i64);
            s.append(" += ");
            value.push_fixed_text(&mut s, 4);
            (Category::Param, "Param Modulation", None, s)
        },
        EventBody::Transport(t) => {
            let mut s: String = fixed_string(t.tempo, 2);
            s.append(" bpm ");
            push_dec(&mut s, t.time_sig_num as u64);
            s.append("/");
            push_dec(&mut s, t.time_sig_den as u64);
            s.append(" ");
            s.append(if t.playing { "play" } else { "stop" });
            s.append(" bar@");
            t.position_beats.push_fixed_text(&mut s, 2);
            (Category::Transport, "Transport", None, s)
        },
        EventBody::SysEx { .. } => {
            let mut s: String = dec_string(entry.sysex_len as u64);
            s.append(" bytes · ");
            s.append(sysex_source(inline_slice(entry)));
            (Category::SysEx, "SysEx", None, s)
        },
    };
    Interpreted { category, kind, channel, summary, raw }
}

} // verus!
