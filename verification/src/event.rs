//! The events that a host hands to an effect.

use crate::double::Double;
use crate::text::{bool_text, dec, int_dec, push_bool, push_dec, push_int};
use vstd::prelude::*;
use vstd::string::*;

verus! {

/// What one event says, in the integers of its wire format.
#[derive(Clone, Copy, Debug, PartialEq, Eq)]
#[allow(inconsistent_fields)]
pub enum EventBody {
    /// Note on. A note-on with velocity zero arrives as a note-off.
    NoteOn { group: u8, channel: u8, note: u8, velocity: u8 },
    /// Note off.
    NoteOff { group: u8, channel: u8, note: u8, velocity: u8 },
    /// Polyphonic key pressure.
    Aftertouch { group: u8, channel: u8, note: u8, pressure: u8 },
    /// Pressure on the whole channel.
    ChannelPressure { group: u8, channel: u8, pressure: u8 },
    /// Control change.
    ControlChange { group: u8, channel: u8, cc: u8, value: u8 },
    /// Pitch bend, a code from 0 to 16383 with its center at 8192.
    PitchBend { group: u8, channel: u8, value: u16 },
    /// Program change.
    ProgramChange { group: u8, channel: u8, program: u8 },
    /// MIDI 2.0 note on.
    NoteOn2 { group: u8, channel: u8, note: u8, velocity: u16, attribute_type: u8, attribute: u16 },
    /// MIDI 2.0 note off.
    NoteOff2 { group: u8, channel: u8, note: u8, velocity: u16, attribute_type: u8, attribute: u16 },
    /// MIDI 2.0 polyphonic key pressure.
    PolyPressure2 { group: u8, channel: u8, note: u8, pressure: u32 },
    /// MIDI 2.0 per-note controller, registered or assignable.
    PerNoteCC { group: u8, channel: u8, note: u8, cc: u8, value: u32, registered: bool },
    /// MIDI 2.0 per-note pitch bend.
    PerNotePitchBend { group: u8, channel: u8, note: u8, value: u32 },
    /// MIDI 2.0 per-note management flags.
    PerNoteManagement { group: u8, channel: u8, note: u8, flags: u8 },
    /// MIDI 2.0 control change.
    ControlChange2 { group: u8, channel: u8, cc: u8, value: u32 },
    /// MIDI 2.0 channel pressure.
    ChannelPressure2 { group: u8, channel: u8, pressure: u32 },
    /// MIDI 2.0 pitch bend.
    PitchBend2 { group: u8, channel: u8, value: u32 },
    /// MIDI 2.0 program change, with a bank where one was selected.
    ProgramChange2 { group: u8, channel: u8, program: u8, bank: Option<(u8, u8)> },
    /// MIDI 2.0 registered controller.
    RegisteredController { group: u8, channel: u8, bank: u8, index: u8, value: u32 },
    /// MIDI 2.0 assignable controller.
    AssignableController { group: u8, channel: u8, bank: u8, index: u8, value: u32 },
    /// A parameter takes a value.
    ParamChange { id: u32, value: Double },
    /// A parameter is offset for a note.
    ParamMod { id: u32, note_id: i32, value: Double },
    /// The host's transport.
    Transport(TransportInfo),
    /// A System Exclusive message; its payload travels beside the event.
    SysEx { pool_offset: u32, len: u32 },
}

/// A snapshot of the host's transport.
#[derive(Clone, Copy, Debug, PartialEq, Eq)]
pub struct TransportInfo {
    pub playing: bool,
    pub recording: bool,
    pub tempo: Double,
    pub time_sig_num: u8,
    pub time_sig_den: u8,
    pub position_samples: i64,
    pub position_seconds: Double,
    pub position_beats: Double,
    pub bar_start_beats: Double,
    pub loop_active: bool,
    pub loop_start_beats: Double,
    pub loop_end_beats: Double,
}

/// The beginning of the raw form of a message that is addressed to a channel.
pub open spec fn raw_head(name: Seq<char>, group: u8, channel: u8) -> Seq<char> {
    name + " { group: "@ + dec(group as nat) + ", channel: "@ + dec(channel as nat)
}

/// The raw form of an optional pair.
pub open spec fn raw_bank(bank: Option<(u8, u8)>) -> Seq<char> {
    match bank {
        None => "None"@,
        Some(pair) => "Some(("@ + dec(pair.0 as nat) + ", "@ + dec(pair.1 as nat) + "))"@,
    }
}

impl TransportInfo {
    /// Every field by name.
    pub open spec fn raw(self) -> Seq<char> {
        "TransportInfo { playing: "@ + bool_text(self.playing)
            + ", recording: "@ + bool_text(self.recording)
            + ", tempo: "@ + self.tempo.debug_text()
            + ", time_sig_num: "@ + dec(self.time_sig_num as nat)
            + ", time_sig_den: "@ + dec(self.time_sig_den as nat)
            + ", position_samples: "@ + int_dec(self.position_samples as int)
            + ", position_seconds: "@ + self.position_seconds.debug_text()
            + ", position_beats: "@ + self.position_beats.debug_text()
            + ", bar_start_beats: "@ + self.bar_start_beats.debug_text()
            + ", loop_active: "@ + bool_text(self.loop_active)
            + ", loop_start_beats: "@ + self.loop_start_beats.debug_text()
            + ", loop_end_beats: "@ + self.loop_end_beats.debug_text()
            + " }"@
    }
}

impl EventBody {
    /// The name of the event and every field by name.
    pub open spec fn raw(self) -> Seq<char> {
        match self {
            EventBody::NoteOn { group, channel, note, velocity } =>
                raw_head("NoteOn"@, group, channel)
                    + ", note: "@ + dec(note as nat)
                    + ", velocity: "@ + dec(velocity as nat)
                    + " }"@,
            EventBody::NoteOff { group, channel, note, velocity } =>
                raw_head("NoteOff"@, group, channel)
                    + ", note: "@ + dec(note as nat)
                    + ", velocity: "@ + dec(velocity as nat)
                    + " }"@,
            EventBody::Aftertouch { group, channel, note, pressure } =>
                raw_head("Aftertouch"@, group, channel)
                    + ", note: "@ + dec(note as nat)
                    + ", pressure: "@ + dec(pressure as nat)
                    + " }"@,
            EventBody::ChannelPressure { group, channel, pressure } =>
                raw_head("ChannelPressure"@, group, channel)
                    + ", pressure: "@ + dec(pressure as nat)
                    + " }"@,
            EventBody::ControlChange { group, channel, cc, value } =>
                raw_head("ControlChange"@, group, channel)
                    + ", cc: "@ + dec(cc as nat)
                    + ", value: "@ + dec(value as nat)
                    + " }"@,
            EventBody::PitchBend { group, channel, value } =>
                raw_head("PitchBend"@, group, channel)
                    + ", value: "@ + dec(value as nat)
                    + " }"@,
            EventBody::ProgramChange { group, channel, program } =>
                raw_head("ProgramChange"@, group, channel)
                    + ", program: "@ + dec(program as nat)
                    + " }"@,
            EventBody::NoteOn2 { group, channel, note, velocity, attribute_type, attribute } =>
                raw_head("NoteOn2"@, group, channel)
                    + ", note: "@ + dec(note as nat)
                    + ", velocity: "@ + dec(velocity as nat)
                    + ", attribute_type: "@ + dec(attribute_type as nat)
                    + ", attribute: "@ + dec(attribute as nat)
                    + " }"@,
            EventBody::NoteOff2 { group, channel, note, velocity, attribute_type, attribute } =>
                raw_head("NoteOff2"@, group, channel)
                    + ", note: "@ + dec(note as nat)
                    + ", velocity: "@ + dec(velocity as nat)
                    + ", attribute_type: "@ + dec(attribute_type as nat)
                    + ", attribute: "@ + dec(attribute as nat)
                    + " }"@,
            EventBody::PolyPressure2 { group, channel, note, pressure } =>
                raw_head("PolyPressure2"@, group, channel)
                    + ", note: "@ + dec(note as nat)
                    + ", pressure: "@ + dec(pressure as nat)
                    + " }"@,
            EventBody::PerNoteCC { group, channel, note, cc, value, registered } =>
                raw_head("PerNoteCC"@, group, channel)
                    + ", note: "@ + dec(note as nat)
                    + ", cc: "@ + dec(cc as nat)
                    + ", value: "@ + dec(value as nat)
                    + ", registered: "@ + bool_text(registered)
                    + " }"@,
            EventBody::PerNotePitchBend { group, channel, note, value } =>
                raw_head("PerNotePitchBend"@, group, channel)
                    + ", note: "@ + dec(note as nat)
                    + ", value: "@ + dec(value as nat)
                    + " }"@,
            EventBody::PerNoteManagement { group, channel, note, flags } =>
                raw_head("PerNoteManagement"@, group, channel)
                    + ", note: "@ + dec(note as nat)
                    + ", flags: "@ + dec(flags as nat)
                    + " }"@,
            EventBody::ControlChange2 { group, channel, cc, value } =>
                raw_head("ControlChange2"@, group, channel)
                    + ", cc: "@ + dec(cc as nat)
                    + ", value: "@ + dec(value as nat)
                    + " }"@,
            EventBody::ChannelPressure2 { group, channel, pressure } =>
                raw_head("ChannelPressure2"@, group, channel)
                    + ", pressure: "@ + dec(pressure as nat)
                    + " }"@,
            EventBody::PitchBend2 { group, channel, value } =>
                raw_head("PitchBend2"@, group, channel)
                    + ", value: "@ + dec(value as nat)
                    + " }"@,
            EventBody::ProgramChange2 { group, channel, program, bank } =>
                raw_head("ProgramChange2"@, group, channel)
                    + ", program: "@ + dec(program as nat)
                    + ", bank: "@ + raw_bank(bank)
                    + " }"@,
            EventBody::RegisteredController { group, channel, bank, index, value } =>
                raw_head("RegisteredController"@, group, channel)
                    + ", bank: "@ + dec(bank as nat)
                    + ", index: "@ + dec(index as nat)
                    + ", value: "@ + dec(value as nat)
                    + " }"@,
            EventBody::AssignableController { group, channel, bank, index, value } =>
                raw_head("AssignableController"@, group, channel)
                    + ", bank: "@ + dec(bank as nat)
                    + ", index: "@ + dec(index as nat)
                    + ", value: "@ + dec(value as nat)
                    + " }"@,
            EventBody::ParamChange { id, value } =>
                "ParamChange { id: "@ + dec(id as nat) + ", value: "@ + value.debug_text() + " }"@,
            EventBody::ParamMod { id, note_id, value } =>
                "ParamMod { id: "@ + dec(id as nat) + ", note_id: "@ + int_dec(note_id as int)
                    + ", value: "@ + value.debug_text() + " }"@,
            EventBody::Transport(info) => "Transport("@ + info.raw() + ")"@,
            EventBody::SysEx { pool_offset, len } =>
                "SysEx { pool_offset: "@ + dec(pool_offset as nat) + ", len: "@ + dec(len as nat)
                    + " }"@,
        }
    }
}

/// The beginning of the raw form of a message that is addressed to a channel.
fn head_string(name: &str, group: u8, channel: u8) -> (text: String)
    ensures
        text@ == raw_head(name@, group, channel),
{
    let mut text: String = name.to_owned();
    text.append(" { group: ");
    push_dec(&mut text, group as u64);
    text.append(", channel: ");
    push_dec(&mut text, channel as u64);
    text
}

/// The raw form of an optional pair.
fn bank_string(bank: Option<(u8, u8)>) -> (text: String)
    ensures
        text@ == raw_bank(bank),
{
    match bank {
        None => "None".to_owned(),
        Some(pair) => {
            let mut text: String = "Some((".to_owned();
            push_dec(&mut text, pair.0 as u64);
            text.append(", ");
            push_dec(&mut text, pair.1 as u64);
            text.append("))");
            text
        },
    }
}

impl TransportInfo {
    /// Every field by name.
    pub fn raw_string(&self) -> (text: String)
        ensures
            text@ == self.raw(),
    {
        let mut text: String = "TransportInfo { playing: ".to_owned();
        push_bool(&mut text, self.playing);
        text.append(", recording: ");
        push_bool(&mut text, self.recording);
        text.append(", tempo: ");
        self.tempo.push_debug_text(&mut text);
        text.append(", time_sig_num: ");
        push_dec(&mut text, self.time_sig_num as u64);
        text.append(", time_sig_den: ");
        push_dec(&mut text, self.time_sig_den as u64);
        text.append(", position_samples: ");
        push_int(&mut text, self.position_samples);
        text.append(", position_seconds: ");
        self.position_seconds.push_debug_text(&mut text);
        text.append(", position_beats: ");
        self.position_beats.push_debug_text(&mut text);
        text.append(", bar_start_beats: ");
        self.bar_start_beats.push_debug_text(&mut text);
        text.append(", loop_active: ");
        push_bool(&mut text, self.loop_active);
        text.append(", loop_start_beats: ");
        self.loop_start_beats.push_debug_text(&mut text);
        text.append(", loop_end_beats: ");
        self.loop_end_beats.push_debug_text(&mut text);
        text.append(" }");
        text
    }
}

impl EventBody {
    /// The name of the event and every field by name.
    pub fn raw_string(&self) -> (text: String)
        ensures
            text@ == self.raw(),
    {
        match *self {
            EventBody::NoteOn { group, channel, note, velocity } => {
                let mut text: String = head_string("NoteOn", group, channel);
                text.append(", note: ");
                push_dec(&mut text, note as u64);
                text.append(", velocity: ");
                push_dec(&mut text, velocity as u64);
                text.append(" }");
                text
            },
            EventBody::NoteOff { group, channel, note, velocity } => {
                let mut text: String = head_string("NoteOff", group, channel);
                text.append(", note: ");
                push_dec(&mut text, note as u64);
                text.append(", velocity: ");
                push_dec(&mut text, velocity as u64);
                text.append(" }");
                text
            },
            EventBody::Aftertouch { group, channel, note, pressure } => {
                let mut text: String = head_string("Aftertouch", group, channel);
                text.append(", note: ");
                push_dec(&mut text, note as u64);
                text.append(", pressure: ");
                push_dec(&mut text, pressure as u64);
                text.append(" }");
                text
            },
            EventBody::ChannelPressure { group, channel, pressure } => {
                let mut text: String = head_string("ChannelPressure", group, channel);
                text.append(", pressure: ");
                push_dec(&mut text, pressure as u64);
                text.append(" }");
                text
            },
            EventBody::ControlChange { group, channel, cc, value } => {
                let mut text: String = head_string("ControlChange", group, channel);
                text.append(", cc: ");
                push_dec(&mut text, cc as u64);
                text.append(", value: ");
                push_dec(&mut text, value as u64);
                text.append(" }");
                text
            },
            EventBody::PitchBend { group, channel, value } => {
                let mut text: String = head_string("PitchBend", group, channel);
                text.append(", value: ");
                push_dec(&mut text, value as u64);
                text.append(" }");
                text
            },
            EventBody::ProgramChange { group, channel, program } => {
                let mut text: String = head_string("ProgramChange", group, channel);
                text.append(", program: ");
                push_dec(&mut text, program as u64);
                text.append(" }");
                text
            },
            EventBody::NoteOn2 { group, channel, note, velocity, attribute_type, attribute } => {
                let mut text: String = head_string("NoteOn2", group, channel);
                text.append(", note: ");
                push_dec(&mut text, note as u64);
                text.append(", velocity: ");
                push_dec(&mut text, velocity as u64);
                text.append(", attribute_type: ");
                push_dec(&mut text, attribute_type as u64);
                text.append(", attribute: ");
                push_dec(&mut text, attribute as u64);
                text.append(" }");
                text
            },
            EventBody::NoteOff2 { group, channel, note, velocity, attribute_type, attribute } => {
                let mut text: String = head_string("NoteOff2", group, channel);
                text.append(", note: ");
                push_dec(&mut text, note as u64);
                text.append(", velocity: ");
                push_dec(&mut text, velocity as u64);
                text.append(", attribute_type: ");
                push_dec(&mut text, attribute_type as u64);
                text.append(", attribute: ");
                push_dec(&mut text, attribute as u64);
                text.append(" }");
                text
            },
            EventBody::PolyPressure2 { group, channel, note, pressure } => {
                let mut text: String = head_string("PolyPressure2", group, channel);
                text.append(", note: ");
                push_dec(&mut text, note as u64);
                text.append(", pressure: ");
                push_dec(&mut text, pressure as u64);
                text.append(" }");
                text
            },
            EventBody::PerNoteCC { group, channel, note, cc, value, registered } => {
                let mut text: String = head_string("PerNoteCC", group, channel);
                text.append(", note: ");
                push_dec(&mut text, note as u64);
                text.append(", cc: ");
                push_dec(&mut text, cc as u64);
                text.append(", value: ");
                push_dec(&mut text, value as u64);
                text.append(", registered: ");
                push_bool(&mut text, registered);
                text.append(" }");
                text
            },
            EventBody::PerNotePitchBend { group, channel, note, value } => {
                let mut text: String = head_string("PerNotePitchBend", group, channel);
                text.append(", note: ");
                push_dec(&mut text, note as u64);
                text.append(", value: ");
                push_dec(&mut text, value as u64);
                text.append(" }");
                text
            },
            EventBody::PerNoteManagement { group, channel, note, flags } => {
                let mut text: String = head_string("PerNoteManagement", group, channel);
                text.append(", note: ");
                push_dec(&mut text, note as u64);
                text.append(", flags: ");
                push_dec(&mut text, flags as u64);
                text.append(" }");
                text
            },
            EventBody::ControlChange2 { group, channel, cc, value } => {
                let mut text: String = head_string("ControlChange2", group, channel);
                text.append(", cc: ");
                push_dec(&mut text, cc as u64);
                text.append(", value: ");
                push_dec(&mut text, value as u64);
                text.append(" }");
                text
            },
            EventBody::ChannelPressure2 { group, channel, pressure } => {
                let mut text: String = head_string("ChannelPressure2", group, channel);
                text.append(", pressure: ");
                push_dec(&mut text, pressure as u64);
                text.append(" }");
                text
            },
            EventBody::PitchBend2 { group, channel, value } => {
                let mut text: String = head_string("PitchBend2", group, channel);
                text.append(", value: ");
                push_dec(&mut text, value as u64);
                text.append(" }");
                text
            },
            EventBody::ProgramChange2 { group, channel, program, bank } => {
                let mut text: String = head_string("ProgramChange2", group, channel);
                text.append(", program: ");
                push_dec(&mut text, program as u64);
                text.append(", bank: ");
                text.append(bank_string(bank).as_str());
                text.append(" }");
                text
            },
            EventBody::RegisteredController { group, channel, bank, index, value } => {
                let mut text: String = head_string("RegisteredController", group, channel);
                text.append(", bank: ");
                push_dec(&mut text, bank as u64);
                text.append(", index: ");
                push_dec(&mut text, index as u64);
                text.append(", value: ");
                push_dec(&mut text, value as u64);
                text.append(" }");
                text
            },
            EventBody::AssignableController { group, channel, bank, index, value } => {
                let mut text: String = head_string("AssignableController", group, channel);
                text.append(", bank: ");
                push_dec(&mut text, bank as u64);
                text.append(", index: ");
                push_dec(&mut text, index as u64);
                text.append(", value: ");
                push_dec(&mut text, value as u64);
                text.append(" }");
                text
            },
            EventBody::ParamChange { id, value } => {
                let mut text: String = "ParamChange { id: ".to_owned();
                push_dec(&mut text, id as u64);
                text.append(", value: ");
                value.push_debug_text(&mut text);
                text.append(" }");
                text
            },
            EventBody::ParamMod { id, note_id, value } => {
                let mut text: String = "ParamMod { id: ".to_owned();
                push_dec(&mut text, id as u64);
                text.append(", note_id: ");
                push_int(&mut text, note_id as i64);
                text.append(", value: ");
                value.push_debug_text(&mut text);
                text.append(" }");
                text
            },
            EventBody::Transport(info) => {
                let mut text: String = "Transport(".to_owned();
                text.append(info.raw_string().as_str());
                text.append(")");
                text
            },
            EventBody::SysEx { pool_offset, len } => {
                let mut text: String = "SysEx { pool_offset: ".to_owned();
                push_dec(&mut text, pool_offset as u64);
                text.append(", len: ");
                push_dec(&mut text, len as u64);
                text.append(" }");
                text
            },
        }
    }
}

} // verus!
