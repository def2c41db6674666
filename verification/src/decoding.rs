//! What the decoded events say, read back from the texts that are shown.

use crate::decimal::{fixed, signed_fixed};
use crate::double::{power, Double};
use crate::event::{EventBody, TransportInfo};
use crate::interpret::{
    category_of, cc_text, channel_of, controller_text, inline_bytes, kind_of, note_text,
    pitch_class, source_text, summary_of, Category,
};
use crate::reading::{
    after, before, is_digit, lacks, law_a_number_reads_back, law_an_integer_reads_back,
    lemma_both_lack, lemma_dec_lacks, lemma_fixed_lacks, lemma_next_word, lemma_no_mark,
    lemma_split_at, reads_as, reads_as_int, rest, word,
};
use crate::ring::LogEntry;
use crate::shortest::lemma_power_positive;
use crate::text::{dec, hex_byte, int_dec};
use vstd::prelude::*;

verus! {

/// The semitone of a natural note above the C below it, by its letter.
pub open spec fn semitone(letter: char) -> int {
    if letter == 'C' { 0 }
    else if letter == 'D' { 2 }
    else if letter == 'E' { 4 }
    else if letter == 'F' { 5 }
    else if letter == 'G' { 7 }
    else if letter == 'A' { 9 }
    else if letter == 'B' { 11 }
    else { -1 }
}

/// How long the part of a note name is that stands before the octave: a letter,
/// and a sharp where there is one.
pub open spec fn letters(name: Seq<char>) -> int {
    if name[1] == '#' { 2 } else { 1 }
}

/// A note name reads back as the note: its letter gives the semitone, a sharp
/// raises it by one, and the octave that follows counts from the one before
/// zero. The five black keys, and no others, are written with a sharp.
pub proof fn law_a_note_name_reads_back(note: u8)
    ensures
        ({
            let name = note_text(note);
            let octave = note as int / 12 - 1;
            let within = note as int % 12;
            &&& name.len() > letters(name)
            &&& semitone(name[0]) >= 0
            &&& reads_as_int(name.skip(letters(name)), octave)
            &&& note == 12 * (octave + 1) + semitone(name[0]) + (letters(name) - 1)
            &&& (name[1] == '#') == (within == 1 || within == 3 || within == 6 || within == 8
                || within == 10)
        }),
{
    let class = pitch_class((note % 12) as int);
    let octave = int_dec(note / 12 - 1);
    let name = note_text(note);
    law_an_integer_reads_back(note / 12 - 1);
    reveal_strlit("C");
    reveal_strlit("C#");
    reveal_strlit("D");
    reveal_strlit("D#");
    reveal_strlit("E");
    reveal_strlit("F");
    reveal_strlit("F#");
    reveal_strlit("G");
    reveal_strlit("G#");
    reveal_strlit("A");
    reveal_strlit("A#");
    reveal_strlit("B");
    assert(octave[0] == '-' || is_digit(octave[0]));
    assert(name[class.len() as int] == octave[0]);
    assert(name[0] == class[0]);
    assert(name.skip(class.len() as int) =~= octave);
}

/// The names of one octave follow the chromatic scale.
pub proof fn law_the_chromatic_scale()
    ensures
        note_text(60) == seq!['C', '4'],
        note_text(61) == seq!['C', '#', '4'],
        note_text(62) == seq!['D', '4'],
        note_text(63) == seq!['D', '#', '4'],
        note_text(64) == seq!['E', '4'],
        note_text(65) == seq!['F', '4'],
        note_text(66) == seq!['F', '#', '4'],
        note_text(67) == seq!['G', '4'],
        note_text(68) == seq!['G', '#', '4'],
        note_text(69) == seq!['A', '4'],
        note_text(70) == seq!['A', '#', '4'],
        note_text(71) == seq!['B', '4'],
{
    reveal_strlit("C");
    reveal_strlit("C#");
    reveal_strlit("D");
    reveal_strlit("D#");
    reveal_strlit("E");
    reveal_strlit("F");
    reveal_strlit("F#");
    reveal_strlit("G");
    reveal_strlit("G#");
    reveal_strlit("A");
    reveal_strlit("A#");
    reveal_strlit("B");
    assert(int_dec(4) =~= seq!['4']);
}

/// Twelve notes up, the letters of a name are the same and the octave that it
/// reads as is the next.
pub proof fn law_an_octave_up(note: u8)
    requires
        note <= 243,
    ensures
        ({
            let low = note_text(note);
            let high = note_text((note + 12) as u8);
            &&& letters(high) == letters(low)
            &&& high.take(letters(high)) == low.take(letters(low))
            &&& reads_as_int(low.skip(letters(low)), note as int / 12 - 1)
            &&& reads_as_int(high.skip(letters(high)), note as int / 12)
        }),
{
    law_a_note_name_reads_back(note);
    law_a_note_name_reads_back((note + 12) as u8);
    let low = note_text(note);
    let high = note_text((note + 12) as u8);
    assert(high.take(letters(high)) =~= low.take(letters(low)));
}

/// Notes of different numbers have different names.
pub proof fn law_note_names_differ(first: u8, second: u8)
    ensures
        (note_text(first) == note_text(second)) == (first == second),
{
    law_a_note_name_reads_back(first);
    law_a_note_name_reads_back(second);
}

/// A note name lacks what is neither a letter of one, a sharp, a sign nor a
/// digit.
pub proof fn lemma_note_lacks(note: u8, mark: char)
    requires
        mark == ' ' || mark == '=' || mark == '/',
    ensures
        lacks(note_text(note), mark),
{
    reveal_strlit("C");
    reveal_strlit("C#");
    reveal_strlit("D");
    reveal_strlit("D#");
    reveal_strlit("E");
    reveal_strlit("F");
    reveal_strlit("F#");
    reveal_strlit("G");
    reveal_strlit("G#");
    reveal_strlit("A");
    reveal_strlit("A#");
    reveal_strlit("B");
    lemma_int_lacks(note / 12 - 1, mark);
    lemma_both_lack(pitch_class((note % 12) as int), int_dec(note / 12 - 1), mark);
}

/// An integer holds digits and a minus sign alone.
pub proof fn lemma_int_lacks(n: int, mark: char)
    requires
        mark == ' ' || mark == '=' || mark == '/',
    ensures
        lacks(int_dec(n), mark),
{
    reveal_strlit("-");
    if n < 0 {
        lemma_dec_lacks((-n) as nat, mark);
        lemma_both_lack("-"@, dec((-n) as nat), mark);
    } else {
        lemma_dec_lacks(n as nat, mark);
    }
}

/// Each name belongs to one controller number, and the numbers without a name
/// are all the others.
pub proof fn law_a_controller_name_has_one_number(cc: u8)
    ensures
        (cc_text(cc) == Some("Bank Select MSB"@)) == (cc == 0),
        (cc_text(cc) == Some("Mod Wheel"@)) == (cc == 1),
        (cc_text(cc) == Some("Breath"@)) == (cc == 2),
        (cc_text(cc) == Some("Foot"@)) == (cc == 4),
        (cc_text(cc) == Some("Portamento Time"@)) == (cc == 5),
        (cc_text(cc) == Some("Data Entry MSB"@)) == (cc == 6),
        (cc_text(cc) == Some("Volume"@)) == (cc == 7),
        (cc_text(cc) == Some("Balance"@)) == (cc == 8),
        (cc_text(cc) == Some("Pan"@)) == (cc == 10),
        (cc_text(cc) == Some("Expression"@)) == (cc == 11),
        (cc_text(cc) == Some("Bank Select LSB"@)) == (cc == 32),
        (cc_text(cc) == Some("Sustain"@)) == (cc == 64),
        (cc_text(cc) == Some("Portamento"@)) == (cc == 65),
        (cc_text(cc) == Some("Sostenuto"@)) == (cc == 66),
        (cc_text(cc) == Some("Soft Pedal"@)) == (cc == 67),
        (cc_text(cc) == Some("Resonance"@)) == (cc == 71),
        (cc_text(cc) == Some("Brightness"@)) == (cc == 74),
        (cc_text(cc) == Some("Reverb"@)) == (cc == 91),
        (cc_text(cc) == Some("Chorus"@)) == (cc == 93),
        (cc_text(cc) == Some("All Sound Off"@)) == (cc == 120),
        (cc_text(cc) == Some("Reset All Controllers"@)) == (cc == 121),
        (cc_text(cc) == Some("All Notes Off"@)) == (cc == 123),
        cc_text(cc) is None == !(cc == 0 || cc == 1 || cc == 2 || cc == 4 || cc == 5 || cc == 6
            || cc == 7 || cc == 8 || cc == 10 || cc == 11 || cc == 32 || cc == 64 || cc == 65
            || cc == 66 || cc == 67 || cc == 71 || cc == 74 || cc == 91 || cc == 93 || cc == 120
            || cc == 121 || cc == 123),
{
    reveal_strlit("Bank Select MSB");
    reveal_strlit("Mod Wheel");
    reveal_strlit("Breath");
    reveal_strlit("Foot");
    reveal_strlit("Portamento Time");
    reveal_strlit("Data Entry MSB");
    reveal_strlit("Volume");
    reveal_strlit("Balance");
    reveal_strlit("Pan");
    reveal_strlit("Expression");
    reveal_strlit("Bank Select LSB");
    reveal_strlit("Sustain");
    reveal_strlit("Portamento");
    reveal_strlit("Sostenuto");
    reveal_strlit("Soft Pedal");
    reveal_strlit("Resonance");
    reveal_strlit("Brightness");
    reveal_strlit("Reverb");
    reveal_strlit("Chorus");
    reveal_strlit("All Sound Off");
    reveal_strlit("Reset All Controllers");
    reveal_strlit("All Notes Off");
    assert("Breath"@[0] == 'B');
    assert("Volume"@[0] == 'V');
    assert("Reverb"@[0] == 'R');
    assert("Chorus"@[0] == 'C');
    assert("Balance"@[0] == 'B');
    assert("Sustain"@[0] == 'S');
    assert("Mod Wheel"@[0] == 'M');
    assert("Sostenuto"@[0] == 'S');
    assert("Resonance"@[0] == 'R');
    assert("Expression"@[0] == 'E');
    assert("Portamento"@[0] == 'P');
    assert("Soft Pedal"@[0] == 'S');
    assert("Brightness"@[0] == 'B');
    assert("All Sound Off"@[4] == 'S');
    assert("All Notes Off"@[4] == 'N');
    assert("Bank Select MSB"@[12] == 'M');
    assert("Portamento Time"@[12] == 'i');
    assert("Bank Select LSB"@[12] == 'L');
    assert("Bank Select MSB"@.len() == 15);
    assert("Mod Wheel"@.len() == 9);
    assert("Breath"@.len() == 6);
    assert("Foot"@.len() == 4);
    assert("Portamento Time"@.len() == 15);
    assert("Data Entry MSB"@.len() == 14);
    assert("Volume"@.len() == 6);
    assert("Balance"@.len() == 7);
    assert("Pan"@.len() == 3);
    assert("Expression"@.len() == 10);
    assert("Bank Select LSB"@.len() == 15);
    assert("Sustain"@.len() == 7);
    assert("Portamento"@.len() == 10);
    assert("Sostenuto"@.len() == 9);
    assert("Soft Pedal"@.len() == 10);
    assert("Resonance"@.len() == 9);
    assert("Brightness"@.len() == 10);
    assert("Reverb"@.len() == 6);
    assert("Chorus"@.len() == 6);
    assert("All Sound Off"@.len() == 13);
    assert("Reset All Controllers"@.len() == 21);
    assert("All Notes Off"@.len() == 13);
}

/// Each label of a payload's origin belongs to one first byte; an empty payload
/// is called so, and any other first byte is that of a manufacturer.
pub proof fn law_a_payload_label_has_one_first_byte(bytes: Seq<u8>)
    ensures
        (source_text(bytes) == "empty"@) == (bytes.len() == 0),
        (source_text(bytes) == "Universal Non-Realtime"@) == (bytes.len() > 0 && bytes[0] == 0x7E),
        (source_text(bytes) == "Universal Realtime"@) == (bytes.len() > 0 && bytes[0] == 0x7F),
        (source_text(bytes) == "Non-Commercial / Educational"@) == (bytes.len() > 0
            && bytes[0] == 0x7D),
        (source_text(bytes) == "Extended id (00 xx xx)"@) == (bytes.len() > 0 && bytes[0] == 0x00),
        (source_text(bytes) == "Roland"@) == (bytes.len() > 0 && bytes[0] == 0x41),
        (source_text(bytes) == "Korg"@) == (bytes.len() > 0 && bytes[0] == 0x42),
        (source_text(bytes) == "Yamaha"@) == (bytes.len() > 0 && bytes[0] == 0x43),
        (source_text(bytes) == "Kawai"@) == (bytes.len() > 0 && bytes[0] == 0x40),
        (source_text(bytes) == "Casio"@) == (bytes.len() > 0 && bytes[0] == 0x44),
        (source_text(bytes) == "Akai"@) == (bytes.len() > 0 && bytes[0] == 0x47),
        (source_text(bytes) == "Manufacturer"@) == (bytes.len() > 0 && !(bytes[0] == 0x7E
            || bytes[0] == 0x7F || bytes[0] == 0x7D || bytes[0] == 0x00 || bytes[0] == 0x41
            || bytes[0] == 0x42 || bytes[0] == 0x43 || bytes[0] == 0x40 || bytes[0] == 0x44
            || bytes[0] == 0x47)),
{
    reveal_strlit("empty");
    reveal_strlit("Manufacturer");
    reveal_strlit("Universal Non-Realtime");
    reveal_strlit("Universal Realtime");
    reveal_strlit("Non-Commercial / Educational");
    reveal_strlit("Extended id (00 xx xx)");
    reveal_strlit("Roland");
    reveal_strlit("Korg");
    reveal_strlit("Yamaha");
    reveal_strlit("Kawai");
    reveal_strlit("Casio");
    reveal_strlit("Akai");
    assert("Korg"@[0] == 'K');
    assert("Akai"@[0] == 'A');
    assert("empty"@[0] == 'e');
    assert("Kawai"@[0] == 'K');
    assert("Casio"@[0] == 'C');
    assert("Roland"@[0] == 'R');
    assert("Yamaha"@[0] == 'Y');
    assert("Universal Non-Realtime"@[0] == 'U');
    assert("Extended id (00 xx xx)"@[0] == 'E');
    assert("empty"@.len() == 5);
    assert("Manufacturer"@.len() == 12);
    assert("Universal Non-Realtime"@.len() == 22);
    assert("Universal Realtime"@.len() == 18);
    assert("Non-Commercial / Educational"@.len() == 28);
    assert("Extended id (00 xx xx)"@.len() == 22);
    assert("Roland"@.len() == 6);
    assert("Korg"@.len() == 4);
    assert("Yamaha"@.len() == 6);
    assert("Kawai"@.len() == 5);
    assert("Casio"@.len() == 5);
    assert("Akai"@.len() == 4);
}

/// Each group holds the messages that it is named after, and no others.
pub proof fn law_a_category_holds_its_messages(body: EventBody)
    ensures
        (category_of(body) == Category::Note) == (body is NoteOn || body is NoteOff
            || body is NoteOn2 || body is NoteOff2),
        (category_of(body) == Category::Cc) == (body is ControlChange || body is ControlChange2
            || body is PerNoteCC || body is RegisteredController || body is AssignableController),
        (category_of(body) == Category::PitchBend) == (body is PitchBend || body is PitchBend2
            || body is PerNotePitchBend),
        (category_of(body) == Category::Pressure) == (body is Aftertouch
            || body is ChannelPressure || body is PolyPressure2 || body is ChannelPressure2),
        (category_of(body) == Category::Program) == (body is ProgramChange
            || body is ProgramChange2),
        (category_of(body) == Category::SysEx) == (body is SysEx),
        (category_of(body) == Category::Param) == (body is ParamChange || body is ParamMod),
        (category_of(body) == Category::Transport) == (body is Transport),
        (category_of(body) == Category::Other) == (body is PerNoteManagement),
{
}

/// Each name of a kind belongs to one kind of message.
pub proof fn law_a_kind_names_one_message(body: EventBody)
    ensures
        (kind_of(body) == "Note On"@) == (body is NoteOn),
        (kind_of(body) == "Note Off"@) == (body is NoteOff),
        (kind_of(body) == "Poly Aftertouch"@) == (body is Aftertouch),
        (kind_of(body) == "Channel Pressure"@) == (body is ChannelPressure),
        (kind_of(body) == "Control Change"@) == (body is ControlChange),
        (kind_of(body) == "Pitch Bend"@) == (body is PitchBend),
        (kind_of(body) == "Program Change"@) == (body is ProgramChange),
        (kind_of(body) == "Note On (MIDI 2.0)"@) == (body is NoteOn2),
        (kind_of(body) == "Note Off (MIDI 2.0)"@) == (body is NoteOff2),
        (kind_of(body) == "Poly Pressure (MIDI 2.0)"@) == (body is PolyPressure2),
        (kind_of(body) == "Per-Note CC (MIDI 2.0)"@) == (body is PerNoteCC),
        (kind_of(body) == "Per-Note Bend (MIDI 2.0)"@) == (body is PerNotePitchBend),
        (kind_of(body) == "Per-Note Mgmt (MIDI 2.0)"@) == (body is PerNoteManagement),
        (kind_of(body) == "Control Change (MIDI 2.0)"@) == (body is ControlChange2),
        (kind_of(body) == "Channel Pressure (MIDI 2.0)"@) == (body is ChannelPressure2),
        (kind_of(body) == "Pitch Bend (MIDI 2.0)"@) == (body is PitchBend2),
        (kind_of(body) == "Program Change (MIDI 2.0)"@) == (body is ProgramChange2),
        (kind_of(body) == "Registered Controller (MIDI 2.0)"@) == (body is RegisteredController),
        (kind_of(body) == "Assignable Controller (MIDI 2.0)"@) == (body is AssignableController),
        (kind_of(body) == "Param Change"@) == (body is ParamChange),
        (kind_of(body) == "Param Modulation"@) == (body is ParamMod),
        (kind_of(body) == "Transport"@) == (body is Transport),
        (kind_of(body) == "SysEx"@) == (body is SysEx),
{
    reveal_strlit("Note On");
    reveal_strlit("Note Off");
    reveal_strlit("Poly Aftertouch");
    reveal_strlit("Channel Pressure");
    reveal_strlit("Control Change");
    reveal_strlit("Pitch Bend");
    reveal_strlit("Program Change");
    reveal_strlit("Note On (MIDI 2.0)");
    reveal_strlit("Note Off (MIDI 2.0)");
    reveal_strlit("Poly Pressure (MIDI 2.0)");
    reveal_strlit("Per-Note CC (MIDI 2.0)");
    reveal_strlit("Per-Note Bend (MIDI 2.0)");
    reveal_strlit("Per-Note Mgmt (MIDI 2.0)");
    reveal_strlit("Control Change (MIDI 2.0)");
    reveal_strlit("Channel Pressure (MIDI 2.0)");
    reveal_strlit("Pitch Bend (MIDI 2.0)");
    reveal_strlit("Program Change (MIDI 2.0)");
    reveal_strlit("Registered Controller (MIDI 2.0)");
    reveal_strlit("Assignable Controller (MIDI 2.0)");
    reveal_strlit("Param Change");
    reveal_strlit("Param Modulation");
    reveal_strlit("Transport");
    reveal_strlit("SysEx");
    assert("Control Change"@[0] == 'C');
    assert("Program Change"@[0] == 'P');
    assert("Channel Pressure"@[0] == 'C');
    assert("Param Modulation"@[0] == 'P');
    assert("Poly Pressure (MIDI 2.0)"@[9] == 's');
    assert("Per-Note Bend (MIDI 2.0)"@[9] == 'B');
    assert("Per-Note Mgmt (MIDI 2.0)"@[9] == 'M');
    assert("Control Change (MIDI 2.0)"@[0] == 'C');
    assert("Program Change (MIDI 2.0)"@[0] == 'P');
    assert("Registered Controller (MIDI 2.0)"@[0] == 'R');
    assert("Assignable Controller (MIDI 2.0)"@[0] == 'A');
    assert("Note On"@.len() == 7);
    assert("Note Off"@.len() == 8);
    assert("Poly Aftertouch"@.len() == 15);
    assert("Channel Pressure"@.len() == 16);
    assert("Control Change"@.len() == 14);
    assert("Pitch Bend"@.len() == 10);
    assert("Program Change"@.len() == 14);
    assert("Note On (MIDI 2.0)"@.len() == 18);
    assert("Note Off (MIDI 2.0)"@.len() == 19);
    assert("Poly Pressure (MIDI 2.0)"@.len() == 24);
    assert("Per-Note CC (MIDI 2.0)"@.len() == 22);
    assert("Per-Note Bend (MIDI 2.0)"@.len() == 24);
    assert("Per-Note Mgmt (MIDI 2.0)"@.len() == 24);
    assert("Control Change (MIDI 2.0)"@.len() == 25);
    assert("Channel Pressure (MIDI 2.0)"@.len() == 27);
    assert("Pitch Bend (MIDI 2.0)"@.len() == 21);
    assert("Program Change (MIDI 2.0)"@.len() == 25);
    assert("Registered Controller (MIDI 2.0)"@.len() == 32);
    assert("Assignable Controller (MIDI 2.0)"@.len() == 32);
    assert("Param Change"@.len() == 12);
    assert("Param Modulation"@.len() == 16);
    assert("Transport"@.len() == 9);
    assert("SysEx"@.len() == 5);
}

/// Every message that has a channel is shown with it, of MIDI 1.0 and of MIDI
/// 2.0 alike; no other event has one.
pub proof fn law_the_channel_is_that_of_the_message(body: EventBody)
    ensures
        body matches EventBody::NoteOn { channel, .. } ==> channel_of(body) == Some(channel),
        body matches EventBody::NoteOff { channel, .. } ==> channel_of(body) == Some(channel),
        body matches EventBody::Aftertouch { channel, .. } ==> channel_of(body) == Some(channel),
        body matches EventBody::ChannelPressure { channel, .. } ==> channel_of(body)
            == Some(channel),
        body matches EventBody::ControlChange { channel, .. } ==> channel_of(body) == Some(channel),
        body matches EventBody::PitchBend { channel, .. } ==> channel_of(body) == Some(channel),
        body matches EventBody::ProgramChange { channel, .. } ==> channel_of(body) == Some(channel),
        body matches EventBody::NoteOn2 { channel, .. } ==> channel_of(body) == Some(channel),
        body matches EventBody::NoteOff2 { channel, .. } ==> channel_of(body) == Some(channel),
        body matches EventBody::PolyPressure2 { channel, .. } ==> channel_of(body) == Some(channel),
        body matches EventBody::PerNoteCC { channel, .. } ==> channel_of(body) == Some(channel),
        body matches EventBody::PerNotePitchBend { channel, .. } ==> channel_of(body)
            == Some(channel),
        body matches EventBody::PerNoteManagement { channel, .. } ==> channel_of(body)
            == Some(channel),
        body matches EventBody::ControlChange2 { channel, .. } ==> channel_of(body)
            == Some(channel),
        body matches EventBody::ChannelPressure2 { channel, .. } ==> channel_of(body)
            == Some(channel),
        body matches EventBody::PitchBend2 { channel, .. } ==> channel_of(body) == Some(channel),
        body matches EventBody::ProgramChange2 { channel, .. } ==> channel_of(body)
            == Some(channel),
        body matches EventBody::RegisteredController { channel, .. } ==> channel_of(body)
            == Some(channel),
        body matches EventBody::AssignableController { channel, .. } ==> channel_of(body)
            == Some(channel),
        body is ParamChange || body is ParamMod || body is Transport || body is SysEx
            ==> channel_of(body) is None,
{
}

/// A signed quotient holds a sign, digits and a point alone.
proof fn lemma_signed_lacks(num: int, den: nat, places: nat, mark: char)
    requires
        den > 0,
        mark == ' ' || mark == '=' || mark == '/',
    ensures
        lacks(signed_fixed(num, den, places), mark),
{
    reveal_strlit("+");
    reveal_strlit("-");
    if num < 0 {
        lemma_fixed_lacks((-num) as nat, den, places, mark);
        lemma_both_lack("-"@, fixed((-num) as nat, den, places), mark);
    } else {
        lemma_fixed_lacks(num as nat, den, places, mark);
        lemma_both_lack("+"@, fixed(num as nat, den, places), mark);
    }
}

/// A double-precision number holds a sign, letters, digits and a point alone.
proof fn lemma_fixed_text_lacks(x: Double, places: nat, mark: char)
    requires
        mark == ' ' || mark == '=' || mark == '/',
    ensures
        lacks(x.fixed_text(places), mark),
{
    reveal_strlit("-");
    reveal_strlit("NaN");
    reveal_strlit("inf");
    if x.is_infinite() {
        lemma_both_lack(x.sign_text(), "inf"@, mark);
    } else if !x.is_nan() {
        if x.exponent() >= 0 {
            let num = x.significand() * power(2, x.exponent() as nat);
            lemma_fixed_lacks(num, 1, places, mark);
        } else {
            lemma_power_positive(2, (-x.exponent()) as nat);
            lemma_fixed_lacks(x.significand(), power(2, (-x.exponent()) as nat), places, mark);
        }
        lemma_both_lack(x.sign_text(), x.magnitude_fixed(places), mark);
    }
}

/// Two numbers with a slash between them: no space, and either reads back.
proof fn lemma_pair_lacks(first: nat, second: nat)
    ensures
        lacks(dec(first) + "/"@ + dec(second), ' '),
        reads_as(before(dec(first) + "/"@ + dec(second), '/'), first as int),
        reads_as(after(dec(first) + "/"@ + dec(second), '/'), second as int),
{
    reveal_strlit("/");
    assert("/"@ =~= seq!['/']);
    lemma_dec_lacks(first, ' ');
    lemma_dec_lacks(second, ' ');
    lemma_both_lack(dec(first), "/"@, ' ');
    lemma_both_lack(dec(first) + "/"@, dec(second), ' ');
    lemma_dec_lacks(first, '/');
    lemma_split_at(dec(first), '/', dec(second));
    law_a_number_reads_back(first);
    law_a_number_reads_back(second);
}

/// A note of MIDI 1.0 is summed up by its name, its velocity, and in brackets the
/// velocity as a fraction of the largest.
pub proof fn law_a_note_is_read_from_its_summary(
    entry: LogEntry,
    group: u8,
    channel: u8,
    note: u8,
    velocity: u8,
)
    requires
        ({
            ||| entry.body == (EventBody::NoteOn { group, channel, note, velocity })
            ||| entry.body == (EventBody::NoteOff { group, channel, note, velocity })
        }),
    ensures
        word(summary_of(entry), 0) == note_text(note),
        word(summary_of(entry), 1) == "vel"@,
        reads_as(word(summary_of(entry), 2), velocity as int),
        rest(summary_of(entry), 3) == "("@ + fixed(velocity as nat, 127, 2) + ")"@,
{
    let s = summary_of(entry);
    reveal_strlit(" ");
    reveal_strlit(" (");
    reveal_strlit(" vel ");
    reveal_strlit("(");
    reveal_strlit(")");
    reveal_strlit("vel");
    lemma_note_lacks(note, ' ');
    lemma_dec_lacks(velocity as nat, ' ');
    let t3 = "("@ + fixed(velocity as nat, 127, 2) + ")"@;
    let t2 = dec(velocity as nat) + " "@ + t3;
    let t1 = "vel"@ + " "@ + t2;
    let t0 = note_text(note) + " "@ + t1;
    assert(s =~= t0);
    lemma_next_word(s, 0, note_text(note), t1);
    lemma_next_word(s, 1, "vel"@, t2);
    lemma_next_word(s, 2, dec(velocity as nat), t3);
    law_a_number_reads_back(velocity as nat);
}

/// A key pressure of MIDI 1.0 is summed up by the note, the pressure, and in
/// brackets the pressure as a fraction of the largest.
pub proof fn law_an_aftertouch_is_read_from_its_summary(
    entry: LogEntry,
    group: u8,
    channel: u8,
    note: u8,
    pressure: u8,
)
    requires
        entry.body == (EventBody::Aftertouch { group, channel, note, pressure }),
    ensures
        word(summary_of(entry), 0) == note_text(note),
        reads_as(word(summary_of(entry), 1), pressure as int),
        rest(summary_of(entry), 2) == "("@ + fixed(pressure as nat, 127, 2) + ")"@,
{
    let s = summary_of(entry);
    reveal_strlit(" ");
    reveal_strlit(" (");
    reveal_strlit("(");
    reveal_strlit(")");
    lemma_note_lacks(note, ' ');
    lemma_dec_lacks(pressure as nat, ' ');
    let t2 = "("@ + fixed(pressure as nat, 127, 2) + ")"@;
    let t1 = dec(pressure as nat) + " "@ + t2;
    let t0 = note_text(note) + " "@ + t1;
    assert(s =~= t0);
    lemma_next_word(s, 0, note_text(note), t1);
    lemma_next_word(s, 1, dec(pressure as nat), t2);
    law_a_number_reads_back(pressure as nat);
}

/// A channel pressure of MIDI 1.0 is summed up by the pressure, and in brackets
/// the pressure as a fraction of the largest.
pub proof fn law_a_channel_pressure_is_read_from_its_summary(
    entry: LogEntry,
    group: u8,
    channel: u8,
    pressure: u8,
)
    requires
        entry.body == (EventBody::ChannelPressure { group, channel, pressure }),
    ensures
        reads_as(word(summary_of(entry), 0), pressure as int),
        rest(summary_of(entry), 1) == "("@ + fixed(pressure as nat, 127, 2) + ")"@,
{
    let s = summary_of(entry);
    reveal_strlit(" ");
    reveal_strlit(" (");
    reveal_strlit("(");
    reveal_strlit(")");
    lemma_dec_lacks(pressure as nat, ' ');
    let t1 = "("@ + fixed(pressure as nat, 127, 2) + ")"@;
    let t0 = dec(pressure as nat) + " "@ + t1;
    assert(s =~= t0);
    lemma_next_word(s, 0, dec(pressure as nat), t1);
    law_a_number_reads_back(pressure as nat);
}

/// A pitch bend of MIDI 1.0 is summed up by its code, by how far that is from the
/// center as a fraction of half the range, and by the bend in semitones, two of
/// which make half the range.
pub proof fn law_a_bend_is_read_from_its_summary(
    entry: LogEntry,
    group: u8,
    channel: u8,
    value: u16,
)
    requires
        entry.body == (EventBody::PitchBend { group, channel, value }),
    ensures
        word(summary_of(entry), 0) == "raw"@,
        reads_as(word(summary_of(entry), 1), value as int),
        word(summary_of(entry), 2) == "->"@,
        word(summary_of(entry), 3) == signed_fixed(value - 8192, 8192, 3),
        word(summary_of(entry), 4) == "("@ + signed_fixed(2 * (value - 8192), 8192, 2),
        rest(summary_of(entry), 5) == "st)"@,
{
    let norm = signed_fixed(value - 8192, 8192, 3);
    let bend = signed_fixed(2 * (value - 8192), 8192, 2);
    law_a_number_reads_back(value as nat);
    lemma_dec_lacks(value as nat, ' ');
    lemma_signed_lacks(value - 8192, 8192, 3, ' ');
    lemma_signed_lacks(2 * (value - 8192), 8192, 2, ' ');
    lemma_bend_words(dec(value as nat), norm, bend);
}

/// The words of a bend's summary.
proof fn lemma_bend_words(code: Seq<char>, norm: Seq<char>, bend: Seq<char>)
    requires
        lacks(code, ' '),
        lacks(norm, ' '),
        lacks(bend, ' '),
    ensures
        ({
            let s = "raw "@ + code + " -> "@ + norm + " ("@ + bend + " st)"@;
            &&& word(s, 0) == "raw"@
            &&& word(s, 1) == code
            &&& word(s, 2) == "->"@
            &&& word(s, 3) == norm
            &&& word(s, 4) == "("@ + bend
            &&& rest(s, 5) == "st)"@
        }),
{
    let s = "raw "@ + code + " -> "@ + norm + " ("@ + bend + " st)"@;
    reveal_strlit(" ");
    reveal_strlit("raw");
    reveal_strlit("raw ");
    reveal_strlit("->");
    reveal_strlit(" -> ");
    reveal_strlit("(");
    reveal_strlit(" (");
    reveal_strlit("st)");
    reveal_strlit(" st)");
    let t4 = "("@ + bend + " "@ + "st)"@;
    let t3 = norm + " "@ + t4;
    let t2 = "->"@ + " "@ + t3;
    let t1 = code + " "@ + t2;
    assert("raw "@ =~= "raw"@ + " "@);
    assert(" -> "@ =~= " "@ + "->"@ + " "@);
    assert(" ("@ =~= " "@ + "("@);
    assert(" st)"@ =~= " "@ + "st)"@);
    assert(s =~= "raw"@ + " "@ + t1);
    lemma_next_word(s, 0, "raw"@, t1);
    lemma_next_word(s, 1, code, t2);
    lemma_next_word(s, 2, "->"@, t3);
    lemma_next_word(s, 3, norm, t4);
    lemma_both_lack("("@, bend, ' ');
    lemma_next_word(s, 4, "("@ + bend, "st)"@);
}

/// A program change of MIDI 1.0 is summed up by the program.
pub proof fn law_a_program_is_read_from_its_summary(
    entry: LogEntry,
    group: u8,
    channel: u8,
    program: u8,
)
    requires
        entry.body == (EventBody::ProgramChange { group, channel, program }),
    ensures
        word(summary_of(entry), 0) == "program"@,
        reads_as(rest(summary_of(entry), 1), program as int),
{
    let s = summary_of(entry);
    reveal_strlit(" ");
    reveal_strlit("program");
    reveal_strlit("program ");
    lemma_dec_lacks(program as nat, ' ');
    let t1 = dec(program as nat);
    let t0 = "program"@ + " "@ + t1;
    assert(s =~= t0);
    lemma_next_word(s, 0, "program"@, t1);
    law_a_number_reads_back(program as nat);
}

/// A note of MIDI 2.0 is summed up by its name, its velocity in full resolution,
/// and in brackets the velocity as a fraction of the largest.
pub proof fn law_a_fine_note_is_read_from_its_summary(
    entry: LogEntry,
    group: u8,
    channel: u8,
    note: u8,
    velocity: u16,
    attribute_type: u8,
    attribute: u16,
)
    requires
        ({
            ||| entry.body == (EventBody::NoteOn2 {
                group,
                channel,
                note,
                velocity,
                attribute_type,
                attribute,
            })
            ||| entry.body == (EventBody::NoteOff2 {
                group,
                channel,
                note,
                velocity,
                attribute_type,
                attribute,
            })
        }),
    ensures
        word(summary_of(entry), 0) == note_text(note),
        word(summary_of(entry), 1) == "vel"@,
        reads_as(word(summary_of(entry), 2), velocity as int),
        rest(summary_of(entry), 3) == "("@ + fixed(velocity as nat, 65535, 2) + ")"@,
{
    let s = summary_of(entry);
    reveal_strlit(" ");
    reveal_strlit(" (");
    reveal_strlit(" vel ");
    reveal_strlit("(");
    reveal_strlit(")");
    reveal_strlit("vel");
    lemma_note_lacks(note, ' ');
    lemma_dec_lacks(velocity as nat, ' ');
    let t3 = "("@ + fixed(velocity as nat, 65535, 2) + ")"@;
    let t2 = dec(velocity as nat) + " "@ + t3;
    let t1 = "vel"@ + " "@ + t2;
    let t0 = note_text(note) + " "@ + t1;
    assert(s =~= t0);
    lemma_next_word(s, 0, note_text(note), t1);
    lemma_next_word(s, 1, "vel"@, t2);
    lemma_next_word(s, 2, dec(velocity as nat), t3);
    law_a_number_reads_back(velocity as nat);
}

/// A key pressure of MIDI 2.0 is summed up by the note and the pressure.
pub proof fn law_a_fine_key_pressure_is_read_from_its_summary(
    entry: LogEntry,
    group: u8,
    channel: u8,
    note: u8,
    pressure: u32,
)
    requires
        entry.body == (EventBody::PolyPressure2 { group, channel, note, pressure }),
    ensures
        word(summary_of(entry), 0) == note_text(note),
        reads_as(rest(summary_of(entry), 1), pressure as int),
{
    let s = summary_of(entry);
    reveal_strlit(" ");
    lemma_note_lacks(note, ' ');
    lemma_dec_lacks(pressure as nat, ' ');
    let t1 = dec(pressure as nat);
    let t0 = note_text(note) + " "@ + t1;
    assert(s =~= t0);
    lemma_next_word(s, 0, note_text(note), t1);
    law_a_number_reads_back(pressure as nat);
}

/// A per-note controller is summed up by the note, by whether it is a registered
/// one, by its number and by its value.
pub proof fn law_a_note_controller_is_read_from_its_summary(
    entry: LogEntry,
    group: u8,
    channel: u8,
    note: u8,
    cc: u8,
    value: u32,
    registered: bool,
)
    requires
        entry.body == (EventBody::PerNoteCC { group, channel, note, cc, value, registered }),
    ensures
        word(summary_of(entry), 0) == note_text(note),
        registered ==> word(summary_of(entry), 1) == "(reg)"@,
        !registered ==> word(summary_of(entry), 1) == "(asgn)"@,
        word(summary_of(entry), 2).take(2) == "CC"@,
        reads_as(word(summary_of(entry), 2).skip(2), cc as int),
        word(summary_of(entry), 3) == "="@,
        reads_as(rest(summary_of(entry), 4), value as int),
{
    let s = summary_of(entry);
    reveal_strlit(" ");
    reveal_strlit(" = ");
    reveal_strlit(" CC");
    reveal_strlit("(asgn)");
    reveal_strlit("(reg)");
    reveal_strlit("=");
    reveal_strlit("CC");
    lemma_note_lacks(note, ' ');
    lemma_dec_lacks(cc as nat, ' ');
    lemma_both_lack("CC"@, dec(cc as nat), ' ');
    lemma_dec_lacks(value as nat, ' ');
    let t4 = dec(value as nat);
    let t3 = "="@ + " "@ + t4;
    let t2 = ("CC"@ + dec(cc as nat)) + " "@ + t3;
    let t1 = (if registered { "(reg)"@ } else { "(asgn)"@ }) + " "@ + t2;
    let t0 = note_text(note) + " "@ + t1;
    assert(s =~= t0);
    lemma_next_word(s, 0, note_text(note), t1);
    lemma_next_word(s, 1, (if registered { "(reg)"@ } else { "(asgn)"@ }), t2);
    lemma_next_word(s, 2, ("CC"@ + dec(cc as nat)), t3);
    lemma_next_word(s, 3, "="@, t4);
    law_a_number_reads_back(cc as nat);
    law_a_number_reads_back(value as nat);
    assert(("CC"@ + dec(cc as nat)).take(2) =~= "CC"@);
    assert(("CC"@ + dec(cc as nat)).skip(2) =~= dec(cc as nat));
}

/// A per-note bend is summed up by the note and the code, and names the center.
pub proof fn law_a_note_bend_is_read_from_its_summary(
    entry: LogEntry,
    group: u8,
    channel: u8,
    note: u8,
    value: u32,
)
    requires
        entry.body == (EventBody::PerNotePitchBend { group, channel, note, value }),
    ensures
        word(summary_of(entry), 0) == note_text(note),
        word(summary_of(entry), 1) == "raw"@,
        reads_as(word(summary_of(entry), 2), value as int),
        rest(summary_of(entry), 3) == "(center 0x80000000)"@,
{
    let s = summary_of(entry);
    reveal_strlit(" ");
    reveal_strlit(" (center 0x80000000)");
    reveal_strlit(" raw ");
    reveal_strlit("(center 0x80000000)");
    reveal_strlit("raw");
    lemma_note_lacks(note, ' ');
    lemma_dec_lacks(value as nat, ' ');
    let t3 = "(center 0x80000000)"@;
    let t2 = dec(value as nat) + " "@ + t3;
    let t1 = "raw"@ + " "@ + t2;
    let t0 = note_text(note) + " "@ + t1;
    assert(s =~= t0);
    lemma_next_word(s, 0, note_text(note), t1);
    lemma_next_word(s, 1, "raw"@, t2);
    lemma_next_word(s, 2, dec(value as nat), t3);
    law_a_number_reads_back(value as nat);
}

/// Per-note flags are summed up by the note and the flags as a hex byte.
pub proof fn law_note_flags_are_read_from_their_summary(
    entry: LogEntry,
    group: u8,
    channel: u8,
    note: u8,
    flags: u8,
)
    requires
        entry.body == (EventBody::PerNoteManagement { group, channel, note, flags }),
    ensures
        word(summary_of(entry), 0) == note_text(note),
        word(summary_of(entry), 1) == "flags"@,
        rest(summary_of(entry), 2) == "0x"@ + hex_byte(flags),
{
    let s = summary_of(entry);
    reveal_strlit(" ");
    reveal_strlit(" flags 0x");
    reveal_strlit("0x");
    reveal_strlit("flags");
    lemma_note_lacks(note, ' ');
    let t2 = ("0x"@ + hex_byte(flags));
    let t1 = "flags"@ + " "@ + t2;
    let t0 = note_text(note) + " "@ + t1;
    assert(s =~= t0);
    lemma_next_word(s, 0, note_text(note), t1);
    lemma_next_word(s, 1, "flags"@, t2);
}

/// A channel pressure of MIDI 2.0 is summed up by the pressure.
pub proof fn law_a_fine_channel_pressure_is_read_from_its_summary(
    entry: LogEntry,
    group: u8,
    channel: u8,
    pressure: u32,
)
    requires
        entry.body == (EventBody::ChannelPressure2 { group, channel, pressure }),
    ensures
        reads_as(summary_of(entry), pressure as int),
{
    let s = summary_of(entry);
    lemma_dec_lacks(pressure as nat, ' ');
    let t0 = dec(pressure as nat);
    assert(s =~= t0);
    law_a_number_reads_back(pressure as nat);
}

/// A pitch bend of MIDI 2.0 is summed up by its code, and names the center.
pub proof fn law_a_fine_bend_is_read_from_its_summary(
    entry: LogEntry,
    group: u8,
    channel: u8,
    value: u32,
)
    requires
        entry.body == (EventBody::PitchBend2 { group, channel, value }),
    ensures
        word(summary_of(entry), 0) == "raw"@,
        reads_as(word(summary_of(entry), 1), value as int),
        rest(summary_of(entry), 2) == "(center 0x80000000)"@,
{
    let s = summary_of(entry);
    reveal_strlit(" ");
    reveal_strlit(" (center 0x80000000)");
    reveal_strlit("(center 0x80000000)");
    reveal_strlit("raw");
    reveal_strlit("raw ");
    lemma_dec_lacks(value as nat, ' ');
    let t2 = "(center 0x80000000)"@;
    let t1 = dec(value as nat) + " "@ + t2;
    let t0 = "raw"@ + " "@ + t1;
    assert(s =~= t0);
    lemma_next_word(s, 0, "raw"@, t1);
    lemma_next_word(s, 1, dec(value as nat), t2);
    law_a_number_reads_back(value as nat);
}

/// A program change of MIDI 2.0 without a bank is summed up by the program and
/// says so.
pub proof fn law_a_program_without_a_bank_is_read_from_its_summary(
    entry: LogEntry,
    group: u8,
    channel: u8,
    program: u8,
)
    requires
        entry.body == (EventBody::ProgramChange2 { group, channel, program, bank: None }),
    ensures
        word(summary_of(entry), 0) == "program"@,
        reads_as(word(summary_of(entry), 1), program as int),
        rest(summary_of(entry), 2) == "(no bank)"@,
{
    let s = summary_of(entry);
    reveal_strlit(" ");
    reveal_strlit(" (");
    reveal_strlit("(no bank)");
    reveal_strlit(")");
    reveal_strlit("no bank");
    reveal_strlit("program");
    reveal_strlit("program ");
    lemma_dec_lacks(program as nat, ' ');
    let t2 = "(no bank)"@;
    let t1 = dec(program as nat) + " "@ + t2;
    let t0 = "program"@ + " "@ + t1;
    assert(s =~= t0);
    lemma_next_word(s, 0, "program"@, t1);
    lemma_next_word(s, 1, dec(program as nat), t2);
    law_a_number_reads_back(program as nat);
}

/// A program change of MIDI 2.0 with a bank is summed up by the program and the two
/// numbers of the bank, the more significant one first.
pub proof fn law_a_program_with_a_bank_is_read_from_its_summary(
    entry: LogEntry,
    group: u8,
    channel: u8,
    program: u8,
    msb: u8,
    lsb: u8,
)
    requires
        entry.body
            == (EventBody::ProgramChange2 { group, channel, program, bank: Some((msb, lsb)) }),
    ensures
        word(summary_of(entry), 0) == "program"@,
        reads_as(word(summary_of(entry), 1), program as int),
        word(summary_of(entry), 2) == "(bank"@,
        reads_as(before(rest(summary_of(entry), 3), '/'), msb as int),
        reads_as(before(after(rest(summary_of(entry), 3), '/'), ')'), lsb as int),
        after(after(rest(summary_of(entry), 3), '/'), ')') == Seq::<char>::empty(),
{
    let s = summary_of(entry);
    reveal_strlit(" ");
    reveal_strlit(" (");
    reveal_strlit("(bank");
    reveal_strlit(")");
    reveal_strlit("/");
    reveal_strlit("bank ");
    reveal_strlit("program");
    reveal_strlit("program ");
    lemma_dec_lacks(program as nat, ' ');
    let t3 = (dec(msb as nat) + "/"@ + (dec(lsb as nat) + ")"@));
    let t2 = "(bank"@ + " "@ + t3;
    let t1 = dec(program as nat) + " "@ + t2;
    let t0 = "program"@ + " "@ + t1;
    assert(s =~= t0);
    lemma_next_word(s, 0, "program"@, t1);
    lemma_next_word(s, 1, dec(program as nat), t2);
    lemma_next_word(s, 2, "(bank"@, t3);
    law_a_number_reads_back(program as nat);
    law_a_number_reads_back(msb as nat);
    law_a_number_reads_back(lsb as nat);
    lemma_dec_lacks(msb as nat, '/');
    lemma_dec_lacks(lsb as nat, ')');
    assert("/"@ =~= seq!['/']);
    assert(dec(lsb as nat) + ")"@ =~= dec(lsb as nat) + seq![')'] + Seq::empty());
    lemma_split_at(dec(msb as nat), '/', dec(lsb as nat) + ")"@);
    lemma_split_at(dec(lsb as nat), ')', Seq::empty());
}

/// A registered controller is summed up by its bank, its index and its value.
pub proof fn law_a_registered_controller_is_read_from_its_summary(
    entry: LogEntry,
    group: u8,
    channel: u8,
    bank: u8,
    index: u8,
    value: u32,
)
    requires
        entry.body == (EventBody::RegisteredController { group, channel, bank, index, value }),
    ensures
        word(summary_of(entry), 0) == "RPN"@,
        reads_as(before(word(summary_of(entry), 1), '/'), bank as int),
        reads_as(after(word(summary_of(entry), 1), '/'), index as int),
        word(summary_of(entry), 2) == "="@,
        reads_as(rest(summary_of(entry), 3), value as int),
{
    let s = summary_of(entry);
    reveal_strlit(" ");
    reveal_strlit(" = ");
    reveal_strlit("/");
    reveal_strlit("=");
    reveal_strlit("RPN");
    reveal_strlit("RPN ");
    lemma_pair_lacks(bank as nat, index as nat);
    lemma_dec_lacks(value as nat, ' ');
    let t3 = dec(value as nat);
    let t2 = "="@ + " "@ + t3;
    let t1 = (dec(bank as nat) + "/"@ + dec(index as nat)) + " "@ + t2;
    let t0 = "RPN"@ + " "@ + t1;
    assert(s =~= t0);
    lemma_next_word(s, 0, "RPN"@, t1);
    lemma_next_word(s, 1, (dec(bank as nat) + "/"@ + dec(index as nat)), t2);
    lemma_next_word(s, 2, "="@, t3);
    law_a_number_reads_back(value as nat);
}

/// An assignable controller is summed up by its bank, its index and its value.
pub proof fn law_an_assignable_controller_is_read_from_its_summary(
    entry: LogEntry,
    group: u8,
    channel: u8,
    bank: u8,
    index: u8,
    value: u32,
)
    requires
        entry.body == (EventBody::AssignableController { group, channel, bank, index, value }),
    ensures
        word(summary_of(entry), 0) == "NRPN"@,
        reads_as(before(word(summary_of(entry), 1), '/'), bank as int),
        reads_as(after(word(summary_of(entry), 1), '/'), index as int),
        word(summary_of(entry), 2) == "="@,
        reads_as(rest(summary_of(entry), 3), value as int),
{
    let s = summary_of(entry);
    reveal_strlit(" ");
    reveal_strlit(" = ");
    reveal_strlit("/");
    reveal_strlit("=");
    reveal_strlit("NRPN");
    reveal_strlit("NRPN ");
    lemma_pair_lacks(bank as nat, index as nat);
    lemma_dec_lacks(value as nat, ' ');
    let t3 = dec(value as nat);
    let t2 = "="@ + " "@ + t3;
    let t1 = (dec(bank as nat) + "/"@ + dec(index as nat)) + " "@ + t2;
    let t0 = "NRPN"@ + " "@ + t1;
    assert(s =~= t0);
    lemma_next_word(s, 0, "NRPN"@, t1);
    lemma_next_word(s, 1, (dec(bank as nat) + "/"@ + dec(index as nat)), t2);
    lemma_next_word(s, 2, "="@, t3);
    law_a_number_reads_back(value as nat);
}

/// A parameter change is summed up by the parameter and its value.
pub proof fn law_a_parameter_is_read_from_its_summary(
    entry: LogEntry,
    id: u32,
    value: Double,
)
    requires
        entry.body == (EventBody::ParamChange { id, value }),
    ensures
        word(summary_of(entry), 0) == "param"@,
        word(summary_of(entry), 1)[0] == '#',
        reads_as(word(summary_of(entry), 1).drop_first(), id as int),
        word(summary_of(entry), 2) == "="@,
        rest(summary_of(entry), 3) == value.fixed_text(4),
{
    let s = summary_of(entry);
    reveal_strlit(" ");
    reveal_strlit(" = ");
    reveal_strlit("#");
    reveal_strlit("=");
    reveal_strlit("param");
    reveal_strlit("param #");
    lemma_dec_lacks(id as nat, ' ');
    lemma_both_lack("#"@, dec(id as nat), ' ');
    let t3 = value.fixed_text(4);
    let t2 = "="@ + " "@ + t3;
    let t1 = ("#"@ + dec(id as nat)) + " "@ + t2;
    let t0 = "param"@ + " "@ + t1;
    assert(s =~= t0);
    lemma_next_word(s, 0, "param"@, t1);
    lemma_next_word(s, 1, ("#"@ + dec(id as nat)), t2);
    lemma_next_word(s, 2, "="@, t3);
    law_a_number_reads_back(id as nat);
    assert(("#"@ + dec(id as nat)).drop_first() =~= dec(id as nat));
}

/// A parameter modulation is summed up by the parameter, the note and the offset.
pub proof fn law_a_modulation_is_read_from_its_summary(
    entry: LogEntry,
    id: u32,
    note_id: i32,
    value: Double,
)
    requires
        entry.body == (EventBody::ParamMod { id, note_id, value }),
    ensures
        word(summary_of(entry), 0) == "param"@,
        word(summary_of(entry), 1)[0] == '#',
        reads_as(word(summary_of(entry), 1).drop_first(), id as int),
        word(summary_of(entry), 2) == "note"@,
        reads_as_int(word(summary_of(entry), 3), note_id as int),
        word(summary_of(entry), 4) == "+="@,
        rest(summary_of(entry), 5) == value.fixed_text(4),
{
    let s = summary_of(entry);
    reveal_strlit(" ");
    reveal_strlit(" += ");
    reveal_strlit(" note ");
    reveal_strlit("#");
    reveal_strlit("+=");
    reveal_strlit("note");
    reveal_strlit("param");
    reveal_strlit("param #");
    lemma_dec_lacks(id as nat, ' ');
    lemma_both_lack("#"@, dec(id as nat), ' ');
    lemma_int_lacks(note_id as int, ' ');
    let t5 = value.fixed_text(4);
    let t4 = "+="@ + " "@ + t5;
    let t3 = int_dec(note_id as int) + " "@ + t4;
    let t2 = "note"@ + " "@ + t3;
    let t1 = ("#"@ + dec(id as nat)) + " "@ + t2;
    let t0 = "param"@ + " "@ + t1;
    assert(s =~= t0);
    lemma_next_word(s, 0, "param"@, t1);
    lemma_next_word(s, 1, ("#"@ + dec(id as nat)), t2);
    lemma_next_word(s, 2, "note"@, t3);
    lemma_next_word(s, 3, int_dec(note_id as int), t4);
    lemma_next_word(s, 4, "+="@, t5);
    law_a_number_reads_back(id as nat);
    law_an_integer_reads_back(note_id as int);
    assert(("#"@ + dec(id as nat)).drop_first() =~= dec(id as nat));
}

/// A transport is summed up by its tempo, its time signature, the number of beats
/// before their kind, whether it plays, and its position in beats.
pub proof fn law_a_transport_is_read_from_its_summary(entry: LogEntry, info: TransportInfo)
    requires
        entry.body == EventBody::Transport(info),
    ensures
        word(summary_of(entry), 0) == info.tempo.fixed_text(2),
        word(summary_of(entry), 1) == "bpm"@,
        reads_as(before(word(summary_of(entry), 2), '/'), info.time_sig_num as int),
        reads_as(after(word(summary_of(entry), 2), '/'), info.time_sig_den as int),
        info.playing ==> word(summary_of(entry), 3) == "play"@,
        !info.playing ==> word(summary_of(entry), 3) == "stop"@,
        rest(summary_of(entry), 4) == "bar@"@ + info.position_beats.fixed_text(2),
{
    let num = dec(info.time_sig_num as nat);
    let den = dec(info.time_sig_den as nat);
    let state = if info.playing { "play"@ } else { "stop"@ };
    reveal_strlit("play");
    reveal_strlit("stop");
    lemma_fixed_text_lacks(info.tempo, 2, ' ');
    lemma_pair_lacks(info.time_sig_num as nat, info.time_sig_den as nat);
    lemma_transport_words(
        info.tempo.fixed_text(2),
        num,
        den,
        state,
        info.position_beats.fixed_text(2),
    );
}

/// The words of a transport's summary.
proof fn lemma_transport_words(
    tempo: Seq<char>,
    num: Seq<char>,
    den: Seq<char>,
    state: Seq<char>,
    position: Seq<char>,
)
    requires
        lacks(tempo, ' '),
        lacks(num + "/"@ + den, ' '),
        lacks(state, ' '),
    ensures
        ({
            let s = tempo + " bpm "@ + num + "/"@ + den + " "@ + state + " bar@"@ + position;
            &&& word(s, 0) == tempo
            &&& word(s, 1) == "bpm"@
            &&& word(s, 2) == num + "/"@ + den
            &&& word(s, 3) == state
            &&& rest(s, 4) == "bar@"@ + position
        }),
{
    let s = tempo + " bpm "@ + num + "/"@ + den + " "@ + state + " bar@"@ + position;
    reveal_strlit(" ");
    reveal_strlit(" bpm ");
    reveal_strlit("bpm");
    reveal_strlit(" bar@");
    reveal_strlit("bar@");
    let pair = num + "/"@ + den;
    let t4 = "bar@"@ + position;
    let t3 = state + " "@ + t4;
    let t2 = pair + " "@ + t3;
    let t1 = "bpm"@ + " "@ + t2;
    assert(" bpm "@ =~= " "@ + "bpm"@ + " "@);
    assert(" bar@"@ =~= " "@ + "bar@"@);
    assert(s =~= tempo + " "@ + t1);
    lemma_next_word(s, 0, tempo, t1);
    lemma_next_word(s, 1, "bpm"@, t2);
    lemma_next_word(s, 2, pair, t3);
    lemma_next_word(s, 3, state, t4);
}

/// A System Exclusive message is summed up by the length of its payload and by the
/// origin that the first of the bytes at hand tells.
pub proof fn law_a_payload_is_read_from_its_summary(
    entry: LogEntry,
    pool_offset: u32,
    len: u32,
)
    requires
        entry.body == (EventBody::SysEx { pool_offset, len }),
    ensures
        reads_as(word(summary_of(entry), 0), entry.sysex_len as int),
        word(summary_of(entry), 1) == "bytes"@,
        word(summary_of(entry), 2) == "·"@,
        rest(summary_of(entry), 3) == source_text(
            entry.sysex@.take(if entry.sysex_len < 24 { entry.sysex_len as int } else { 24 }),
        ),
{
    let s = summary_of(entry);
    reveal_strlit(" ");
    reveal_strlit(" bytes · ");
    reveal_strlit("bytes");
    reveal_strlit("·");
    lemma_dec_lacks(entry.sysex_len as nat, ' ');
    let t3 = source_text(inline_bytes(entry));
    let t2 = "·"@ + " "@ + t3;
    let t1 = "bytes"@ + " "@ + t2;
    let t0 = dec(entry.sysex_len as nat) + " "@ + t1;
    assert(s =~= t0);
    lemma_next_word(s, 0, dec(entry.sysex_len as nat), t1);
    lemma_next_word(s, 1, "bytes"@, t2);
    lemma_next_word(s, 2, "·"@, t3);
    law_a_number_reads_back(entry.sysex_len as nat);
    let held: int = if entry.sysex_len < 24 { entry.sysex_len as int } else { 24 };
    assert(entry.sysex@.take(held) =~= inline_bytes(entry));
}

/// A controller is shown by its number behind the letters `CC` and, behind a
/// space, by its name where it has one.
pub proof fn law_a_controller_is_shown_by_number_and_name(cc: u8)
    ensures
        before(controller_text(cc), ' ').take(2) == "CC"@,
        reads_as(before(controller_text(cc), ' ').skip(2), cc as int),
        cc_text(cc) is None ==> lacks(controller_text(cc), ' '),
        cc_text(cc) matches Some(name) ==> name.len() > 0
            && after(controller_text(cc), ' ') == name,
{
    let number = "CC"@ + dec(cc as nat);
    reveal_strlit("CC");
    reveal_strlit(" ");
    assert(" "@ =~= seq![' ']);
    law_a_number_reads_back(cc as nat);
    lemma_dec_lacks(cc as nat, ' ');
    lemma_both_lack("CC"@, dec(cc as nat), ' ');
    assert(number.take(2) =~= "CC"@);
    assert(number.skip(2) =~= dec(cc as nat));
    match cc_text(cc) {
        None => lemma_no_mark(number, ' '),
        Some(name) => {
            lemma_split_at(number, ' ', name);
            lemma_name_is_text(cc);
        },
    }
}

/// A controller's name is not empty and lacks an equals sign.
proof fn lemma_name_is_text(cc: u8)
    ensures
        cc_text(cc) matches Some(name) ==> name.len() > 0 && lacks(name, '='),
{
    reveal_strlit("Bank Select MSB");
    reveal_strlit("Mod Wheel");
    reveal_strlit("Breath");
    reveal_strlit("Foot");
    reveal_strlit("Portamento Time");
    reveal_strlit("Data Entry MSB");
    reveal_strlit("Volume");
    reveal_strlit("Balance");
    reveal_strlit("Pan");
    reveal_strlit("Expression");
    reveal_strlit("Bank Select LSB");
    reveal_strlit("Sustain");
    reveal_strlit("Portamento");
    reveal_strlit("Sostenuto");
    reveal_strlit("Soft Pedal");
    reveal_strlit("Resonance");
    reveal_strlit("Brightness");
    reveal_strlit("Reverb");
    reveal_strlit("Chorus");
    reveal_strlit("All Sound Off");
    reveal_strlit("Reset All Controllers");
    reveal_strlit("All Notes Off");
}

/// A controller as shown lacks an equals sign.
proof fn lemma_controller_lacks(cc: u8)
    ensures
        lacks(controller_text(cc), '='),
{
    reveal_strlit("CC");
    reveal_strlit(" ");
    lemma_dec_lacks(cc as nat, '=');
    lemma_both_lack("CC"@, dec(cc as nat), '=');
    match cc_text(cc) {
        None => {},
        Some(name) => {
            lemma_name_is_text(cc);
            lemma_both_lack("CC"@ + dec(cc as nat), " "@, '=');
            lemma_both_lack("CC"@ + dec(cc as nat) + " "@, name, '=');
        },
    }
}

/// A control change of MIDI 1.0 is summed up by the controller and, behind an
/// equals sign, by the value and in brackets the value as a fraction of the
/// largest.
pub proof fn law_a_control_change_is_read_from_its_summary(
    entry: LogEntry,
    group: u8,
    channel: u8,
    cc: u8,
    value: u8,
)
    requires
        entry.body == (EventBody::ControlChange { group, channel, cc, value }),
    ensures
        before(summary_of(entry), '=') == controller_text(cc) + seq![' '],
        word(after(summary_of(entry), '='), 0) == Seq::<char>::empty(),
        reads_as(word(after(summary_of(entry), '='), 1), value as int),
        rest(after(summary_of(entry), '='), 2) == "("@ + fixed(value as nat, 127, 2) + ")"@,
{
    let s = summary_of(entry);
    let bracket = "("@ + fixed(value as nat, 127, 2) + ")"@;
    let tail = Seq::<char>::empty() + " "@ + (dec(value as nat) + " "@ + bracket);
    reveal_strlit(" ");
    reveal_strlit(" = ");
    reveal_strlit(" (");
    reveal_strlit("(");
    lemma_controller_lacks(cc);
    lemma_both_lack(controller_text(cc), seq![' '], '=');
    assert(s =~= controller_text(cc) + seq![' '] + seq!['='] + tail);
    lemma_split_at(controller_text(cc) + seq![' '], '=', tail);
    lemma_next_word(tail, 0, Seq::empty(), dec(value as nat) + " "@ + bracket);
    lemma_dec_lacks(value as nat, ' ');
    lemma_next_word(tail, 1, dec(value as nat), bracket);
    law_a_number_reads_back(value as nat);
}

/// A control change of MIDI 2.0 is summed up by the controller and, behind an
/// equals sign, by the value.
pub proof fn law_a_fine_control_change_is_read_from_its_summary(
    entry: LogEntry,
    group: u8,
    channel: u8,
    cc: u8,
    value: u32,
)
    requires
        entry.body == (EventBody::ControlChange2 { group, channel, cc, value }),
    ensures
        before(summary_of(entry), '=') == controller_text(cc) + seq![' '],
        word(after(summary_of(entry), '='), 0) == Seq::<char>::empty(),
        reads_as(rest(after(summary_of(entry), '='), 1), value as int),
{
    let s = summary_of(entry);
    let tail = Seq::<char>::empty() + " "@ + dec(value as nat);
    reveal_strlit(" ");
    reveal_strlit(" = ");
    lemma_controller_lacks(cc);
    lemma_both_lack(controller_text(cc), seq![' '], '=');
    assert(s =~= controller_text(cc) + seq![' '] + seq!['='] + tail);
    lemma_split_at(controller_text(cc) + seq![' '], '=', tail);
    lemma_next_word(tail, 0, Seq::empty(), dec(value as nat));
    law_a_number_reads_back(value as nat);
}

/// The same message in another group.
pub open spec fn regrouped(body: EventBody, other: u8) -> EventBody {
    match body {
        EventBody::NoteOn { channel, note, velocity, .. } =>
            EventBody::NoteOn { group: other, channel, note, velocity },
        EventBody::NoteOff { channel, note, velocity, .. } =>
            EventBody::NoteOff { group: other, channel, note, velocity },
        EventBody::Aftertouch { channel, note, pressure, .. } =>
            EventBody::Aftertouch { group: other, channel, note, pressure },
        EventBody::ChannelPressure { channel, pressure, .. } =>
            EventBody::ChannelPressure { group: other, channel, pressure },
        EventBody::ControlChange { channel, cc, value, .. } =>
            EventBody::ControlChange { group: other, channel, cc, value },
        EventBody::PitchBend { channel, value, .. } =>
            EventBody::PitchBend { group: other, channel, value },
        EventBody::ProgramChange { channel, program, .. } =>
            EventBody::ProgramChange { group: other, channel, program },
        EventBody::NoteOn2 { channel, note, velocity, attribute_type, attribute, .. } =>
            EventBody::NoteOn2 { group: other, channel, note, velocity, attribute_type, attribute },
        EventBody::NoteOff2 { channel, note, velocity, attribute_type, attribute, .. } =>
            EventBody::NoteOff2 { group: other, channel, note, velocity, attribute_type, attribute },
        EventBody::PolyPressure2 { channel, note, pressure, .. } =>
            EventBody::PolyPressure2 { group: other, channel, note, pressure },
        EventBody::PerNoteCC { channel, note, cc, value, registered, .. } =>
            EventBody::PerNoteCC { group: other, channel, note, cc, value, registered },
        EventBody::PerNotePitchBend { channel, note, value, .. } =>
            EventBody::PerNotePitchBend { group: other, channel, note, value },
        EventBody::PerNoteManagement { channel, note, flags, .. } =>
            EventBody::PerNoteManagement { group: other, channel, note, flags },
        EventBody::ControlChange2 { channel, cc, value, .. } =>
            EventBody::ControlChange2 { group: other, channel, cc, value },
        EventBody::ChannelPressure2 { channel, pressure, .. } =>
            EventBody::ChannelPressure2 { group: other, channel, pressure },
        EventBody::PitchBend2 { channel, value, .. } =>
            EventBody::PitchBend2 { group: other, channel, value },
        EventBody::ProgramChange2 { channel, program, bank, .. } =>
            EventBody::ProgramChange2 { group: other, channel, program, bank },
        EventBody::RegisteredController { channel, bank, index, value, .. } =>
            EventBody::RegisteredController { group: other, channel, bank, index, value },
        EventBody::AssignableController { channel, bank, index, value, .. } =>
            EventBody::AssignableController { group: other, channel, bank, index, value },
        _ => body,
    }
}

/// The group that a message came in changes its raw line alone: neither its
/// channel nor its kind, its category or its summary.
pub proof fn law_the_group_changes_the_raw_line_alone(entry: LogEntry, other: u8)
    ensures
        ({
            let moved = LogEntry { body: regrouped(entry.body, other), ..entry };
            &&& channel_of(moved.body) == channel_of(entry.body)
            &&& kind_of(moved.body) == kind_of(entry.body)
            &&& category_of(moved.body) == category_of(entry.body)
            &&& summary_of(moved) == summary_of(entry)
        }),
{
}

} // verus!
