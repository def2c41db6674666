//! The raw lines: every field of an event by its name, read back word by word.

use crate::double::Double;
use crate::event::{raw_bank, EventBody, TransportInfo};
use crate::reading::{
    after, before, lacks, law_a_number_reads_back, lemma_both_lack, lemma_dec_lacks,
    lemma_last_word, lemma_next_word, lemma_split_at, reads_as, rest, word,
};
use crate::text::{bool_text, dec, int_dec};
use vstd::prelude::*;

verus! {

/// A field: its name and its value.
pub struct Field {
    pub name: Seq<char>,
    pub value: Seq<char>,
}

/// The beginning of a record, up to the end of its last field.
pub open spec fn begun(name: Seq<char>, fields: Seq<Field>) -> Seq<char>
    decreases fields.len(),
{
    if fields.len() == 0 {
        name + " {"@
    } else {
        begun(name, fields.drop_last()) + (if fields.len() == 1 { " "@ } else { ", "@ })
            + fields.last().name + ": "@ + fields.last().value
    }
}

/// A record: its name and every field by name.
pub open spec fn record(name: Seq<char>, fields: Seq<Field>) -> Seq<char> {
    begun(name, fields) + " }"@
}

/// What a record says from a field on.
spec fn ahead(fields: Seq<Field>, i: int) -> Seq<char>
    decreases fields.len() - i,
{
    if i >= fields.len() - 1 {
        fields[i].name + ": "@ + fields[i].value + " }"@
    } else {
        fields[i].name + ": "@ + fields[i].value + ", "@ + ahead(fields, i + 1)
    }
}

/// A record is what comes before a field and what it says from there on.
proof fn lemma_ahead(name: Seq<char>, fields: Seq<Field>, i: int)
    requires
        0 <= i < fields.len(),
    ensures
        record(name, fields) == begun(name, fields.take(i)) + (if i == 0 { " "@ } else { ", "@ })
            + ahead(fields, i),
    decreases fields.len() - i,
{
    let next = fields.take(i + 1);
    let gap = if i == 0 { " "@ } else { ", "@ };
    let left = begun(name, fields.take(i));
    assert(next.drop_last() =~= fields.take(i));
    assert(next.last() == fields[i]);
    if i == fields.len() - 1 {
        assert(next =~= fields);
        assert(record(name, fields) =~= left + gap + ahead(fields, i));
    } else {
        lemma_ahead(name, fields, i + 1);
        let tail = ahead(fields, i + 1);
        assert(begun(name, next) + ", "@ + tail =~= left + gap + (fields[i].name + ": "@
            + fields[i].value + ", "@ + tail));
    }
}

/// The fields of a record are found behind its name, two words for each.
proof fn lemma_ahead_is_the_rest(name: Seq<char>, fields: Seq<Field>, i: int)
    requires
        0 <= i < fields.len(),
        lacks(name, ' '),
        forall|j: int| 0 <= j < fields.len() ==> lacks((#[trigger] fields[j]).name, ' '),
        forall|j: int| 0 <= j < fields.len() - 1 ==> lacks((#[trigger] fields[j]).value, ' '),
    ensures
        word(record(name, fields), 0) == name,
        word(record(name, fields), 1) == "{"@,
        rest(record(name, fields), (2 + 2 * i) as nat) == ahead(fields, i),
    decreases i,
{
    let text = record(name, fields);
    reveal_strlit(" ");
    reveal_strlit(",");
    reveal_strlit(", ");
    reveal_strlit(":");
    reveal_strlit(": ");
    if i == 0 {
        reveal_strlit(" {");
        reveal_strlit("{");
        lemma_ahead(name, fields, 0);
        let tail = "{"@ + " "@ + ahead(fields, 0);
        assert(text =~= name + " "@ + tail);
        lemma_next_word(text, 0, name, tail);
        lemma_next_word(text, 1, "{"@, ahead(fields, 0));
    } else {
        lemma_ahead_is_the_rest(name, fields, i - 1);
        let k = (2 + 2 * (i - 1)) as nat;
        let field = fields[i - 1];
        let tail = (field.value + ","@) + " "@ + ahead(fields, i);
        assert(ahead(fields, i - 1) =~= (field.name + ":"@) + " "@ + tail);
        lemma_both_lack(field.name, ":"@, ' ');
        lemma_next_word(text, k, field.name + ":"@, tail);
        lemma_both_lack(field.value, ","@, ' ');
        lemma_next_word(text, k + 1, field.value + ","@, ahead(fields, i));
    }
}

/// A record reads back word by word: its name, a bracket, and then each field as
/// its name with a colon and its value with a comma; the last value is followed
/// by the closing bracket.
pub proof fn law_a_record_reads_back(name: Seq<char>, fields: Seq<Field>, i: int)
    requires
        0 <= i < fields.len(),
        lacks(name, ' '),
        forall|j: int| 0 <= j < fields.len() ==> lacks((#[trigger] fields[j]).name, ' '),
        forall|j: int| 0 <= j < fields.len() - 1 ==> lacks((#[trigger] fields[j]).value, ' '),
    ensures
        word(record(name, fields), 0) == name,
        word(record(name, fields), 1) == seq!['{'],
        word(record(name, fields), (2 + 2 * i) as nat) == fields[i].name + seq![':'],
        i < fields.len() - 1 ==> word(record(name, fields), (3 + 2 * i) as nat)
            == fields[i].value + seq![','],
        i == fields.len() - 1 ==> rest(record(name, fields), (3 + 2 * i) as nat)
            == fields[i].value + seq![' ', '}'],
{
    let text = record(name, fields);
    let k = (2 + 2 * i) as nat;
    let field = fields[i];
    reveal_strlit(" ");
    reveal_strlit(",");
    reveal_strlit(", ");
    reveal_strlit(":");
    reveal_strlit(": ");
    reveal_strlit("{");
    reveal_strlit(" }");
    assert(":"@ =~= seq![':']);
    assert(","@ =~= seq![',']);
    assert("{"@ =~= seq!['{']);
    assert(" }"@ =~= seq![' ', '}']);
    lemma_ahead_is_the_rest(name, fields, i);
    lemma_both_lack(field.name, ":"@, ' ');
    if i < fields.len() - 1 {
        let tail = (field.value + ","@) + " "@ + ahead(fields, i + 1);
        assert(ahead(fields, i) =~= (field.name + ":"@) + " "@ + tail);
        lemma_next_word(text, k, field.name + ":"@, tail);
        lemma_both_lack(field.value, ","@, ' ');
        lemma_next_word(text, k + 1, field.value + ","@, ahead(fields, i + 1));
    } else {
        let tail = field.value + " }"@;
        assert(ahead(fields, i) =~= (field.name + ":"@) + " "@ + tail);
        lemma_next_word(text, k, field.name + ":"@, tail);
    }
}

/// One field more.
proof fn lemma_one_field_more(
    name: Seq<char>,
    fields: Seq<Field>,
    field: Field,
    label: Seq<char>,
)
    requires
        fields.len() > 0,
        label == ", "@ + field.name + ": "@,
    ensures
        begun(name, fields.push(field)) == begun(name, fields) + label + field.value,
{
    assert(fields.push(field).drop_last() =~= fields);
    assert(begun(name, fields.push(field)) =~= begun(name, fields) + label + field.value);
}

/// The first field.
proof fn lemma_first_field(name: Seq<char>, field: Field, label: Seq<char>)
    requires
        label == " { "@ + field.name + ": "@,
    ensures
        begun(name, Seq::empty().push(field)) == name + label + field.value,
{
    reveal_strlit(" {");
    reveal_strlit(" { ");
    reveal_strlit(" ");
    assert(Seq::empty().push(field).drop_last() =~= Seq::empty());
    assert(begun(name, Seq::empty()) == name + " {"@);
    assert(begun(name, Seq::empty().push(field)) =~= name + label + field.value);
}

/// A truth value is shown by its name.
pub proof fn law_a_truth_value_is_shown_by_name(b: bool)
    ensures
        (bool_text(b) == "true"@) == b,
        (bool_text(b) == "false"@) == !b,
{
    reveal_strlit("true");
    reveal_strlit("false");
    assert("true"@.len() != "false"@.len());
}

/// A bank is shown as its two numbers, the more significant one first.
pub proof fn law_a_raw_bank_reads_back(msb: u8, lsb: u8)
    ensures
        raw_bank(None) == "None"@,
        raw_bank(Some((msb, lsb))).take(6) == "Some(("@,
        reads_as(before(raw_bank(Some((msb, lsb))).skip(6), ','), msb as int),
        word(raw_bank(Some((msb, lsb))), 1) == rest(raw_bank(Some((msb, lsb))), 1),
        reads_as(before(rest(raw_bank(Some((msb, lsb))), 1), ')'), lsb as int),
        after(rest(raw_bank(Some((msb, lsb))), 1), ')') == seq![')'],
{
    let text = raw_bank(Some((msb, lsb)));
    let head = "Some(("@ + dec(msb as nat) + ","@;
    let tail = dec(lsb as nat) + "))"@;
    reveal_strlit("Some((");
    reveal_strlit(",");
    reveal_strlit(", ");
    reveal_strlit(" ");
    reveal_strlit("))");
    law_a_number_reads_back(msb as nat);
    law_a_number_reads_back(lsb as nat);
    lemma_dec_lacks(msb as nat, ',');
    lemma_dec_lacks(msb as nat, ' ');
    lemma_dec_lacks(lsb as nat, ')');
    lemma_dec_lacks(lsb as nat, ' ');
    assert(text.take(6) =~= "Some(("@);
    assert(text.skip(6) =~= dec(msb as nat) + seq![','] + (" "@ + tail));
    lemma_split_at(dec(msb as nat), ',', " "@ + tail);
    lemma_both_lack("Some(("@, dec(msb as nat), ' ');
    lemma_both_lack("Some(("@ + dec(msb as nat), ","@, ' ');
    assert(text =~= head + " "@ + tail);
    lemma_next_word(text, 0, head, tail);
    lemma_both_lack(dec(lsb as nat), "))"@, ' ');
    lemma_last_word(text, 1, tail);
    assert(tail =~= dec(lsb as nat) + seq![')'] + seq![')']);
    lemma_split_at(dec(lsb as nat), ')', seq![')']);
}

/// The raw line of `NoteOn` shows every field under its name.
pub proof fn law_raw_note_on(group: u8, channel: u8, note: u8, velocity: u8)
    ensures
        (EventBody::NoteOn { group, channel, note, velocity }).raw() == record(
            "NoteOn"@,
            Seq::empty()
                .push(Field { name: "group"@, value: dec(group as nat) })
                .push(Field { name: "channel"@, value: dec(channel as nat) })
                .push(Field { name: "note"@, value: dec(note as nat) })
                .push(Field { name: "velocity"@, value: dec(velocity as nat) }),
        ),
{
    let none = Seq::<Field>::empty();
    reveal_strlit(", ");
    reveal_strlit(": ");
    reveal_strlit(" { ");
    let f0 = Field { name: "group"@, value: dec(group as nat) };
    reveal_strlit("group");
    reveal_strlit(" { group: ");
    assert(" { group: "@ =~= " { "@ + "group"@ + ": "@);
    lemma_first_field("NoteOn"@, f0, " { group: "@);
    let f1 = Field { name: "channel"@, value: dec(channel as nat) };
    reveal_strlit("channel");
    reveal_strlit(", channel: ");
    assert(", channel: "@ =~= ", "@ + "channel"@ + ": "@);
    let s1 = none.push(f0);
    lemma_one_field_more("NoteOn"@, s1, f1, ", channel: "@);
    let f2 = Field { name: "note"@, value: dec(note as nat) };
    reveal_strlit("note");
    reveal_strlit(", note: ");
    assert(", note: "@ =~= ", "@ + "note"@ + ": "@);
    let s2 = s1.push(f1);
    lemma_one_field_more("NoteOn"@, s2, f2, ", note: "@);
    let f3 = Field { name: "velocity"@, value: dec(velocity as nat) };
    reveal_strlit("velocity");
    reveal_strlit(", velocity: ");
    assert(", velocity: "@ =~= ", "@ + "velocity"@ + ": "@);
    let s3 = s2.push(f2);
    lemma_one_field_more("NoteOn"@, s3, f3, ", velocity: "@);
}

/// The raw line of `NoteOff` shows every field under its name.
pub proof fn law_raw_note_off(group: u8, channel: u8, note: u8, velocity: u8)
    ensures
        (EventBody::NoteOff { group, channel, note, velocity }).raw() == record(
            "NoteOff"@,
            Seq::empty()
                .push(Field { name: "group"@, value: dec(group as nat) })
                .push(Field { name: "channel"@, value: dec(channel as nat) })
                .push(Field { name: "note"@, value: dec(note as nat) })
                .push(Field { name: "velocity"@, value: dec(velocity as nat) }),
        ),
{
    let none = Seq::<Field>::empty();
    reveal_strlit(", ");
    reveal_strlit(": ");
    reveal_strlit(" { ");
    let f0 = Field { name: "group"@, value: dec(group as nat) };
    reveal_strlit("group");
    reveal_strlit(" { group: ");
    assert(" { group: "@ =~= " { "@ + "group"@ + ": "@);
    lemma_first_field("NoteOff"@, f0, " { group: "@);
    let f1 = Field { name: "channel"@, value: dec(channel as nat) };
    reveal_strlit("channel");
    reveal_strlit(", channel: ");
    assert(", channel: "@ =~= ", "@ + "channel"@ + ": "@);
    let s1 = none.push(f0);
    lemma_one_field_more("NoteOff"@, s1, f1, ", channel: "@);
    let f2 = Field { name: "note"@, value: dec(note as nat) };
    reveal_strlit("note");
    reveal_strlit(", note: ");
    assert(", note: "@ =~= ", "@ + "note"@ + ": "@);
    let s2 = s1.push(f1);
    lemma_one_field_more("NoteOff"@, s2, f2, ", note: "@);
    let f3 = Field { name: "velocity"@, value: dec(velocity as nat) };
    reveal_strlit("velocity");
    reveal_strlit(", velocity: ");
    assert(", velocity: "@ =~= ", "@ + "velocity"@ + ": "@);
    let s3 = s2.push(f2);
    lemma_one_field_more("NoteOff"@, s3, f3, ", velocity: "@);
}

/// The raw line of `Aftertouch` shows every field under its name.
pub proof fn law_raw_aftertouch(group: u8, channel: u8, note: u8, pressure: u8)
    ensures
        (EventBody::Aftertouch { group, channel, note, pressure }).raw() == record(
            "Aftertouch"@,
            Seq::empty()
                .push(Field { name: "group"@, value: dec(group as nat) })
                .push(Field { name: "channel"@, value: dec(channel as nat) })
                .push(Field { name: "note"@, value: dec(note as nat) })
                .push(Field { name: "pressure"@, value: dec(pressure as nat) }),
        ),
{
    let none = Seq::<Field>::empty();
    reveal_strlit(", ");
    reveal_strlit(": ");
    reveal_strlit(" { ");
    let f0 = Field { name: "group"@, value: dec(group as nat) };
    reveal_strlit("group");
    reveal_strlit(" { group: ");
    assert(" { group: "@ =~= " { "@ + "group"@ + ": "@);
    lemma_first_field("Aftertouch"@, f0, " { group: "@);
    let f1 = Field { name: "channel"@, value: dec(channel as nat) };
    reveal_strlit("channel");
    reveal_strlit(", channel: ");
    assert(", channel: "@ =~= ", "@ + "channel"@ + ": "@);
    let s1 = none.push(f0);
    lemma_one_field_more("Aftertouch"@, s1, f1, ", channel: "@);
    let f2 = Field { name: "note"@, value: dec(note as nat) };
    reveal_strlit("note");
    reveal_strlit(", note: ");
    assert(", note: "@ =~= ", "@ + "note"@ + ": "@);
    let s2 = s1.push(f1);
    lemma_one_field_more("Aftertouch"@, s2, f2, ", note: "@);
    let f3 = Field { name: "pressure"@, value: dec(pressure as nat) };
    reveal_strlit("pressure");
    reveal_strlit(", pressure: ");
    assert(", pressure: "@ =~= ", "@ + "pressure"@ + ": "@);
    let s3 = s2.push(f2);
    lemma_one_field_more("Aftertouch"@, s3, f3, ", pressure: "@);
}

/// The raw line of `ChannelPressure` shows every field under its name.
pub proof fn law_raw_channel_pressure(group: u8, channel: u8, pressure: u8)
    ensures
        (EventBody::ChannelPressure { group, channel, pressure }).raw() == record(
            "ChannelPressure"@,
            Seq::empty()
                .push(Field { name: "group"@, value: dec(group as nat) })
                .push(Field { name: "channel"@, value: dec(channel as nat) })
                .push(Field { name: "pressure"@, value: dec(pressure as nat) }),
        ),
{
    let none = Seq::<Field>::empty();
    reveal_strlit(", ");
    reveal_strlit(": ");
    reveal_strlit(" { ");
    let f0 = Field { name: "group"@, value: dec(group as nat) };
    reveal_strlit("group");
    reveal_strlit(" { group: ");
    assert(" { group: "@ =~= " { "@ + "group"@ + ": "@);
    lemma_first_field("ChannelPressure"@, f0, " { group: "@);
    let f1 = Field { name: "channel"@, value: dec(channel as nat) };
    reveal_strlit("channel");
    reveal_strlit(", channel: ");
    assert(", channel: "@ =~= ", "@ + "channel"@ + ": "@);
    let s1 = none.push(f0);
    lemma_one_field_more("ChannelPressure"@, s1, f1, ", channel: "@);
    let f2 = Field { name: "pressure"@, value: dec(pressure as nat) };
    reveal_strlit("pressure");
    reveal_strlit(", pressure: ");
    assert(", pressure: "@ =~= ", "@ + "pressure"@ + ": "@);
    let s2 = s1.push(f1);
    lemma_one_field_more("ChannelPressure"@, s2, f2, ", pressure: "@);
}

/// The raw line of `ControlChange` shows every field under its name.
pub proof fn law_raw_control_change(group: u8, channel: u8, cc: u8, value: u8)
    ensures
        (EventBody::ControlChange { group, channel, cc, value }).raw() == record(
            "ControlChange"@,
            Seq::empty()
                .push(Field { name: "group"@, value: dec(group as nat) })
                .push(Field { name: "channel"@, value: dec(channel as nat) })
                .push(Field { name: "cc"@, value: dec(cc as nat) })
                .push(Field { name: "value"@, value: dec(value as nat) }),
        ),
{
    let none = Seq::<Field>::empty();
    reveal_strlit(", ");
    reveal_strlit(": ");
    reveal_strlit(" { ");
    let f0 = Field { name: "group"@, value: dec(group as nat) };
    reveal_strlit("group");
    reveal_strlit(" { group: ");
    assert(" { group: "@ =~= " { "@ + "group"@ + ": "@);
    lemma_first_field("ControlChange"@, f0, " { group: "@);
    let f1 = Field { name: "channel"@, value: dec(channel as nat) };
    reveal_strlit("channel");
    reveal_strlit(", channel: ");
    assert(", channel: "@ =~= ", "@ + "channel"@ + ": "@);
    let s1 = none.push(f0);
    lemma_one_field_more("ControlChange"@, s1, f1, ", channel: "@);
    let f2 = Field { name: "cc"@, value: dec(cc as nat) };
    reveal_strlit("cc");
    reveal_strlit(", cc: ");
    assert(", cc: "@ =~= ", "@ + "cc"@ + ": "@);
    let s2 = s1.push(f1);
    lemma_one_field_more("ControlChange"@, s2, f2, ", cc: "@);
    let f3 = Field { name: "value"@, value: dec(value as nat) };
    reveal_strlit("value");
    reveal_strlit(", value: ");
    assert(", value: "@ =~= ", "@ + "value"@ + ": "@);
    let s3 = s2.push(f2);
    lemma_one_field_more("ControlChange"@, s3, f3, ", value: "@);
}

/// The raw line of `PitchBend` shows every field under its name.
pub proof fn law_raw_pitch_bend(group: u8, channel: u8, value: u16)
    ensures
        (EventBody::PitchBend { group, channel, value }).raw() == record(
            "PitchBend"@,
            Seq::empty()
                .push(Field { name: "group"@, value: dec(group as nat) })
                .push(Field { name: "channel"@, value: dec(channel as nat) })
                .push(Field { name: "value"@, value: dec(value as nat) }),
        ),
{
    let none = Seq::<Field>::empty();
    reveal_strlit(", ");
    reveal_strlit(": ");
    reveal_strlit(" { ");
    let f0 = Field { name: "group"@, value: dec(group as nat) };
    reveal_strlit("group");
    reveal_strlit(" { group: ");
    assert(" { group: "@ =~= " { "@ + "group"@ + ": "@);
    lemma_first_field("PitchBend"@, f0, " { group: "@);
    let f1 = Field { name: "channel"@, value: dec(channel as nat) };
    reveal_strlit("channel");
    reveal_strlit(", channel: ");
    assert(", channel: "@ =~= ", "@ + "channel"@ + ": "@);
    let s1 = none.push(f0);
    lemma_one_field_more("PitchBend"@, s1, f1, ", channel: "@);
    let f2 = Field { name: "value"@, value: dec(value as nat) };
    reveal_strlit("value");
    reveal_strlit(", value: ");
    assert(", value: "@ =~= ", "@ + "value"@ + ": "@);
    let s2 = s1.push(f1);
    lemma_one_field_more("PitchBend"@, s2, f2, ", value: "@);
}

/// The raw line of `ProgramChange` shows every field under its name.
pub proof fn law_raw_program_change(group: u8, channel: u8, program: u8)
    ensures
        (EventBody::ProgramChange { group, channel, program }).raw() == record(
            "ProgramChange"@,
            Seq::empty()
                .push(Field { name: "group"@, value: dec(group as nat) })
                .push(Field { name: "channel"@, value: dec(channel as nat) })
                .push(Field { name: "program"@, value: dec(program as nat) }),
        ),
{
    let none = Seq::<Field>::empty();
    reveal_strlit(", ");
    reveal_strlit(": ");
    reveal_strlit(" { ");
    let f0 = Field { name: "group"@, value: dec(group as nat) };
    reveal_strlit("group");
    reveal_strlit(" { group: ");
    assert(" { group: "@ =~= " { "@ + "group"@ + ": "@);
    lemma_first_field("ProgramChange"@, f0, " { group: "@);
    let f1 = Field { name: "channel"@, value: dec(channel as nat) };
    reveal_strlit("channel");
    reveal_strlit(", channel: ");
    assert(", channel: "@ =~= ", "@ + "channel"@ + ": "@);
    let s1 = none.push(f0);
    lemma_one_field_more("ProgramChange"@, s1, f1, ", channel: "@);
    let f2 = Field { name: "program"@, value: dec(program as nat) };
    reveal_strlit("program");
    reveal_strlit(", program: ");
    assert(", program: "@ =~= ", "@ + "program"@ + ": "@);
    let s2 = s1.push(f1);
    lemma_one_field_more("ProgramChange"@, s2, f2, ", program: "@);
}

/// The raw line of `NoteOn2` shows every field under its name.
pub proof fn law_raw_note_on2(
    group: u8,
    channel: u8,
    note: u8,
    velocity: u16,
    attribute_type: u8,
    attribute: u16,
)
    ensures
        (EventBody::NoteOn2 { group, channel, note, velocity, attribute_type, attribute }).raw()
            == record(
            "NoteOn2"@,
            Seq::empty()
                .push(Field { name: "group"@, value: dec(group as nat) })
                .push(Field { name: "channel"@, value: dec(channel as nat) })
                .push(Field { name: "note"@, value: dec(note as nat) })
                .push(Field { name: "velocity"@, value: dec(velocity as nat) })
                .push(Field { name: "attribute_type"@, value: dec(attribute_type as nat) })
                .push(Field { name: "attribute"@, value: dec(attribute as nat) }),
        ),
{
    let none = Seq::<Field>::empty();
    reveal_strlit(", ");
    reveal_strlit(": ");
    reveal_strlit(" { ");
    let f0 = Field { name: "group"@, value: dec(group as nat) };
    reveal_strlit("group");
    reveal_strlit(" { group: ");
    assert(" { group: "@ =~= " { "@ + "group"@ + ": "@);
    lemma_first_field("NoteOn2"@, f0, " { group: "@);
    let f1 = Field { name: "channel"@, value: dec(channel as nat) };
    reveal_strlit("channel");
    reveal_strlit(", channel: ");
    assert(", channel: "@ =~= ", "@ + "channel"@ + ": "@);
    let s1 = none.push(f0);
    lemma_one_field_more("NoteOn2"@, s1, f1, ", channel: "@);
    let f2 = Field { name: "note"@, value: dec(note as nat) };
    reveal_strlit("note");
    reveal_strlit(", note: ");
    assert(", note: "@ =~= ", "@ + "note"@ + ": "@);
    let s2 = s1.push(f1);
    lemma_one_field_more("NoteOn2"@, s2, f2, ", note: "@);
    let f3 = Field { name: "velocity"@, value: dec(velocity as nat) };
    reveal_strlit("velocity");
    reveal_strlit(", velocity: ");
    assert(", velocity: "@ =~= ", "@ + "velocity"@ + ": "@);
    let s3 = s2.push(f2);
    lemma_one_field_more("NoteOn2"@, s3, f3, ", velocity: "@);
    let f4 = Field { name: "attribute_type"@, value: dec(attribute_type as nat) };
    reveal_strlit("attribute_type");
    reveal_strlit(", attribute_type: ");
    assert(", attribute_type: "@ =~= ", "@ + "attribute_type"@ + ": "@);
    let s4 = s3.push(f3);
    lemma_one_field_more("NoteOn2"@, s4, f4, ", attribute_type: "@);
    let f5 = Field { name: "attribute"@, value: dec(attribute as nat) };
    reveal_strlit("attribute");
    reveal_strlit(", attribute: ");
    assert(", attribute: "@ =~= ", "@ + "attribute"@ + ": "@);
    let s5 = s4.push(f4);
    lemma_one_field_more("NoteOn2"@, s5, f5, ", attribute: "@);
}

/// The raw line of `NoteOff2` shows every field under its name.
pub proof fn law_raw_note_off2(
    group: u8,
    channel: u8,
    note: u8,
    velocity: u16,
    attribute_type: u8,
    attribute: u16,
)
    ensures
        (EventBody::NoteOff2 { group, channel, note, velocity, attribute_type, attribute }).raw()
            == record(
            "NoteOff2"@,
            Seq::empty()
                .push(Field { name: "group"@, value: dec(group as nat) })
                .push(Field { name: "channel"@, value: dec(channel as nat) })
                .push(Field { name: "note"@, value: dec(note as nat) })
                .push(Field { name: "velocity"@, value: dec(velocity as nat) })
                .push(Field { name: "attribute_type"@, value: dec(attribute_type as nat) })
                .push(Field { name: "attribute"@, value: dec(attribute as nat) }),
        ),
{
    let none = Seq::<Field>::empty();
    reveal_strlit(", ");
    reveal_strlit(": ");
    reveal_strlit(" { ");
    let f0 = Field { name: "group"@, value: dec(group as nat) };
    reveal_strlit("group");
    reveal_strlit(" { group: ");
    assert(" { group: "@ =~= " { "@ + "group"@ + ": "@);
    lemma_first_field("NoteOff2"@, f0, " { group: "@);
    let f1 = Field { name: "channel"@, value: dec(channel as nat) };
    reveal_strlit("channel");
    reveal_strlit(", channel: ");
    assert(", channel: "@ =~= ", "@ + "channel"@ + ": "@);
    let s1 = none.push(f0);
    lemma_one_field_more("NoteOff2"@, s1, f1, ", channel: "@);
    let f2 = Field { name: "note"@, value: dec(note as nat) };
    reveal_strlit("note");
    reveal_strlit(", note: ");
    assert(", note: "@ =~= ", "@ + "note"@ + ": "@);
    let s2 = s1.push(f1);
    lemma_one_field_more("NoteOff2"@, s2, f2, ", note: "@);
    let f3 = Field { name: "velocity"@, value: dec(velocity as nat) };
    reveal_strlit("velocity");
    reveal_strlit(", velocity: ");
    assert(", velocity: "@ =~= ", "@ + "velocity"@ + ": "@);
    let s3 = s2.push(f2);
    lemma_one_field_more("NoteOff2"@, s3, f3, ", velocity: "@);
    let f4 = Field { name: "attribute_type"@, value: dec(attribute_type as nat) };
    reveal_strlit("attribute_type");
    reveal_strlit(", attribute_type: ");
    assert(", attribute_type: "@ =~= ", "@ + "attribute_type"@ + ": "@);
    let s4 = s3.push(f3);
    lemma_one_field_more("NoteOff2"@, s4, f4, ", attribute_type: "@);
    let f5 = Field { name: "attribute"@, value: dec(attribute as nat) };
    reveal_strlit("attribute");
    reveal_strlit(", attribute: ");
    assert(", attribute: "@ =~= ", "@ + "attribute"@ + ": "@);
    let s5 = s4.push(f4);
    lemma_one_field_more("NoteOff2"@, s5, f5, ", attribute: "@);
}

/// The raw line of `PolyPressure2` shows every field under its name.
pub proof fn law_raw_poly_pressure2(group: u8, channel: u8, note: u8, pressure: u32)
    ensures
        (EventBody::PolyPressure2 { group, channel, note, pressure }).raw() == record(
            "PolyPressure2"@,
            Seq::empty()
                .push(Field { name: "group"@, value: dec(group as nat) })
                .push(Field { name: "channel"@, value: dec(channel as nat) })
                .push(Field { name: "note"@, value: dec(note as nat) })
                .push(Field { name: "pressure"@, value: dec(pressure as nat) }),
        ),
{
    let none = Seq::<Field>::empty();
    reveal_strlit(", ");
    reveal_strlit(": ");
    reveal_strlit(" { ");
    let f0 = Field { name: "group"@, value: dec(group as nat) };
    reveal_strlit("group");
    reveal_strlit(" { group: ");
    assert(" { group: "@ =~= " { "@ + "group"@ + ": "@);
    lemma_first_field("PolyPressure2"@, f0, " { group: "@);
    let f1 = Field { name: "channel"@, value: dec(channel as nat) };
    reveal_strlit("channel");
    reveal_strlit(", channel: ");
    assert(", channel: "@ =~= ", "@ + "channel"@ + ": "@);
    let s1 = none.push(f0);
    lemma_one_field_more("PolyPressure2"@, s1, f1, ", channel: "@);
    let f2 = Field { name: "note"@, value: dec(note as nat) };
    reveal_strlit("note");
    reveal_strlit(", note: ");
    assert(", note: "@ =~= ", "@ + "note"@ + ": "@);
    let s2 = s1.push(f1);
    lemma_one_field_more("PolyPressure2"@, s2, f2, ", note: "@);
    let f3 = Field { name: "pressure"@, value: dec(pressure as nat) };
    reveal_strlit("pressure");
    reveal_strlit(", pressure: ");
    assert(", pressure: "@ =~= ", "@ + "pressure"@ + ": "@);
    let s3 = s2.push(f2);
    lemma_one_field_more("PolyPressure2"@, s3, f3, ", pressure: "@);
}

/// The raw line of `PerNoteCC` shows every field under its name.
pub proof fn law_raw_per_note_cc(
    group: u8,
    channel: u8,
    note: u8,
    cc: u8,
    value: u32,
    registered: bool,
)
    ensures
        (EventBody::PerNoteCC { group, channel, note, cc, value, registered }).raw() == record(
            "PerNoteCC"@,
            Seq::empty()
                .push(Field { name: "group"@, value: dec(group as nat) })
                .push(Field { name: "channel"@, value: dec(channel as nat) })
                .push(Field { name: "note"@, value: dec(note as nat) })
                .push(Field { name: "cc"@, value: dec(cc as nat) })
                .push(Field { name: "value"@, value: dec(value as nat) })
                .push(Field { name: "registered"@, value: bool_text(registered) }),
        ),
{
    let none = Seq::<Field>::empty();
    reveal_strlit(", ");
    reveal_strlit(": ");
    reveal_strlit(" { ");
    let f0 = Field { name: "group"@, value: dec(group as nat) };
    reveal_strlit("group");
    reveal_strlit(" { group: ");
    assert(" { group: "@ =~= " { "@ + "group"@ + ": "@);
    lemma_first_field("PerNoteCC"@, f0, " { group: "@);
    let f1 = Field { name: "channel"@, value: dec(channel as nat) };
    reveal_strlit("channel");
    reveal_strlit(", channel: ");
    assert(", channel: "@ =~= ", "@ + "channel"@ + ": "@);
    let s1 = none.push(f0);
    lemma_one_field_more("PerNoteCC"@, s1, f1, ", channel: "@);
    let f2 = Field { name: "note"@, value: dec(note as nat) };
    reveal_strlit("note");
    reveal_strlit(", note: ");
    assert(", note: "@ =~= ", "@ + "note"@ + ": "@);
    let s2 = s1.push(f1);
    lemma_one_field_more("PerNoteCC"@, s2, f2, ", note: "@);
    let f3 = Field { name: "cc"@, value: dec(cc as nat) };
    reveal_strlit("cc");
    reveal_strlit(", cc: ");
    assert(", cc: "@ =~= ", "@ + "cc"@ + ": "@);
    let s3 = s2.push(f2);
    lemma_one_field_more("PerNoteCC"@, s3, f3, ", cc: "@);
    let f4 = Field { name: "value"@, value: dec(value as nat) };
    reveal_strlit("value");
    reveal_strlit(", value: ");
    assert(", value: "@ =~= ", "@ + "value"@ + ": "@);
    let s4 = s3.push(f3);
    lemma_one_field_more("PerNoteCC"@, s4, f4, ", value: "@);
    let f5 = Field { name: "registered"@, value: bool_text(registered) };
    reveal_strlit("registered");
    reveal_strlit(", registered: ");
    assert(", registered: "@ =~= ", "@ + "registered"@ + ": "@);
    let s5 = s4.push(f4);
    lemma_one_field_more("PerNoteCC"@, s5, f5, ", registered: "@);
}

/// The raw line of `PerNotePitchBend` shows every field under its name.
pub proof fn law_raw_per_note_pitch_bend(group: u8, channel: u8, note: u8, value: u32)
    ensures
        (EventBody::PerNotePitchBend { group, channel, note, value }).raw() == record(
            "PerNotePitchBend"@,
            Seq::empty()
                .push(Field { name: "group"@, value: dec(group as nat) })
                .push(Field { name: "channel"@, value: dec(channel as nat) })
                .push(Field { name: "note"@, value: dec(note as nat) })
                .push(Field { name: "value"@, value: dec(value as nat) }),
        ),
{
    let none = Seq::<Field>::empty();
    reveal_strlit(", ");
    reveal_strlit(": ");
    reveal_strlit(" { ");
    let f0 = Field { name: "group"@, value: dec(group as nat) };
    reveal_strlit("group");
    reveal_strlit(" { group: ");
    assert(" { group: "@ =~= " { "@ + "group"@ + ": "@);
    lemma_first_field("PerNotePitchBend"@, f0, " { group: "@);
    let f1 = Field { name: "channel"@, value: dec(channel as nat) };
    reveal_strlit("channel");
    reveal_strlit(", channel: ");
    assert(", channel: "@ =~= ", "@ + "channel"@ + ": "@);
    let s1 = none.push(f0);
    lemma_one_field_more("PerNotePitchBend"@, s1, f1, ", channel: "@);
    let f2 = Field { name: "note"@, value: dec(note as nat) };
    reveal_strlit("note");
    reveal_strlit(", note: ");
    assert(", note: "@ =~= ", "@ + "note"@ + ": "@);
    let s2 = s1.push(f1);
    lemma_one_field_more("PerNotePitchBend"@, s2, f2, ", note: "@);
    let f3 = Field { name: "value"@, value: dec(value as nat) };
    reveal_strlit("value");
    reveal_strlit(", value: ");
    assert(", value: "@ =~= ", "@ + "value"@ + ": "@);
    let s3 = s2.push(f2);
    lemma_one_field_more("PerNotePitchBend"@, s3, f3, ", value: "@);
}

/// The raw line of `PerNoteManagement` shows every field under its name.
pub proof fn law_raw_per_note_management(group: u8, channel: u8, note: u8, flags: u8)
    ensures
        (EventBody::PerNoteManagement { group, channel, note, flags }).raw() == record(
            "PerNoteManagement"@,
            Seq::empty()
                .push(Field { name: "group"@, value: dec(group as nat) })
                .push(Field { name: "channel"@, value: dec(channel as nat) })
                .push(Field { name: "note"@, value: dec(note as nat) })
                .push(Field { name: "flags"@, value: dec(flags as nat) }),
        ),
{
    let none = Seq::<Field>::empty();
    reveal_strlit(", ");
    reveal_strlit(": ");
    reveal_strlit(" { ");
    let f0 = Field { name: "group"@, value: dec(group as nat) };
    reveal_strlit("group");
    reveal_strlit(" { group: ");
    assert(" { group: "@ =~= " { "@ + "group"@ + ": "@);
    lemma_first_field("PerNoteManagement"@, f0, " { group: "@);
    let f1 = Field { name: "channel"@, value: dec(channel as nat) };
    reveal_strlit("channel");
    reveal_strlit(", channel: ");
    assert(", channel: "@ =~= ", "@ + "channel"@ + ": "@);
    let s1 = none.push(f0);
    lemma_one_field_more("PerNoteManagement"@, s1, f1, ", channel: "@);
    let f2 = Field { name: "note"@, value: dec(note as nat) };
    reveal_strlit("note");
    reveal_strlit(", note: ");
    assert(", note: "@ =~= ", "@ + "note"@ + ": "@);
    let s2 = s1.push(f1);
    lemma_one_field_more("PerNoteManagement"@, s2, f2, ", note: "@);
    let f3 = Field { name: "flags"@, value: dec(flags as nat) };
    reveal_strlit("flags");
    reveal_strlit(", flags: ");
    assert(", flags: "@ =~= ", "@ + "flags"@ + ": "@);
    let s3 = s2.push(f2);
    lemma_one_field_more("PerNoteManagement"@, s3, f3, ", flags: "@);
}

/// The raw line of `ControlChange2` shows every field under its name.
pub proof fn law_raw_control_change2(group: u8, channel: u8, cc: u8, value: u32)
    ensures
        (EventBody::ControlChange2 { group, channel, cc, value }).raw() == record(
            "ControlChange2"@,
            Seq::empty()
                .push(Field { name: "group"@, value: dec(group as nat) })
                .push(Field { name: "channel"@, value: dec(channel as nat) })
                .push(Field { name: "cc"@, value: dec(cc as nat) })
                .push(Field { name: "value"@, value: dec(value as nat) }),
        ),
{
    let none = Seq::<Field>::empty();
    reveal_strlit(", ");
    reveal_strlit(": ");
    reveal_strlit(" { ");
    let f0 = Field { name: "group"@, value: dec(group as nat) };
    reveal_strlit("group");
    reveal_strlit(" { group: ");
    assert(" { group: "@ =~= " { "@ + "group"@ + ": "@);
    lemma_first_field("ControlChange2"@, f0, " { group: "@);
    let f1 = Field { name: "channel"@, value: dec(channel as nat) };
    reveal_strlit("channel");
    reveal_strlit(", channel: ");
    assert(", channel: "@ =~= ", "@ + "channel"@ + ": "@);
    let s1 = none.push(f0);
    lemma_one_field_more("ControlChange2"@, s1, f1, ", channel: "@);
    let f2 = Field { name: "cc"@, value: dec(cc as nat) };
    reveal_strlit("cc");
    reveal_strlit(", cc: ");
    assert(", cc: "@ =~= ", "@ + "cc"@ + ": "@);
    let s2 = s1.push(f1);
    lemma_one_field_more("ControlChange2"@, s2, f2, ", cc: "@);
    let f3 = Field { name: "value"@, value: dec(value as nat) };
    reveal_strlit("value");
    reveal_strlit(", value: ");
    assert(", value: "@ =~= ", "@ + "value"@ + ": "@);
    let s3 = s2.push(f2);
    lemma_one_field_more("ControlChange2"@, s3, f3, ", value: "@);
}

/// The raw line of `ChannelPressure2` shows every field under its name.
pub proof fn law_raw_channel_pressure2(group: u8, channel: u8, pressure: u32)
    ensures
        (EventBody::ChannelPressure2 { group, channel, pressure }).raw() == record(
            "ChannelPressure2"@,
            Seq::empty()
                .push(Field { name: "group"@, value: dec(group as nat) })
                .push(Field { name: "channel"@, value: dec(channel as nat) })
                .push(Field { name: "pressure"@, value: dec(pressure as nat) }),
        ),
{
    let none = Seq::<Field>::empty();
    reveal_strlit(", ");
    reveal_strlit(": ");
    reveal_strlit(" { ");
    let f0 = Field { name: "group"@, value: dec(group as nat) };
    reveal_strlit("group");
    reveal_strlit(" { group: ");
    assert(" { group: "@ =~= " { "@ + "group"@ + ": "@);
    lemma_first_field("ChannelPressure2"@, f0, " { group: "@);
    let f1 = Field { name: "channel"@, value: dec(channel as nat) };
    reveal_strlit("channel");
    reveal_strlit(", channel: ");
    assert(", channel: "@ =~= ", "@ + "channel"@ + ": "@);
    let s1 = none.push(f0);
    lemma_one_field_more("ChannelPressure2"@, s1, f1, ", channel: "@);
    let f2 = Field { name: "pressure"@, value: dec(pressure as nat) };
    reveal_strlit("pressure");
    reveal_strlit(", pressure: ");
    assert(", pressure: "@ =~= ", "@ + "pressure"@ + ": "@);
    let s2 = s1.push(f1);
    lemma_one_field_more("ChannelPressure2"@, s2, f2, ", pressure: "@);
}

/// The raw line of `PitchBend2` shows every field under its name.
pub proof fn law_raw_pitch_bend2(group: u8, channel: u8, value: u32)
    ensures
        (EventBody::PitchBend2 { group, channel, value }).raw() == record(
            "PitchBend2"@,
            Seq::empty()
                .push(Field { name: "group"@, value: dec(group as nat) })
                .push(Field { name: "channel"@, value: dec(channel as nat) })
                .push(Field { name: "value"@, value: dec(value as nat) }),
        ),
{
    let none = Seq::<Field>::empty();
    reveal_strlit(", ");
    reveal_strlit(": ");
    reveal_strlit(" { ");
    let f0 = Field { name: "group"@, value: dec(group as nat) };
    reveal_strlit("group");
    reveal_strlit(" { group: ");
    assert(" { group: "@ =~= " { "@ + "group"@ + ": "@);
    lemma_first_field("PitchBend2"@, f0, " { group: "@);
    let f1 = Field { name: "channel"@, value: dec(channel as nat) };
    reveal_strlit("channel");
    reveal_strlit(", channel: ");
    assert(", channel: "@ =~= ", "@ + "channel"@ + ": "@);
    let s1 = none.push(f0);
    lemma_one_field_more("PitchBend2"@, s1, f1, ", channel: "@);
    let f2 = Field { name: "value"@, value: dec(value as nat) };
    reveal_strlit("value");
    reveal_strlit(", value: ");
    assert(", value: "@ =~= ", "@ + "value"@ + ": "@);
    let s2 = s1.push(f1);
    lemma_one_field_more("PitchBend2"@, s2, f2, ", value: "@);
}

/// The raw line of `ProgramChange2` shows every field under its name.
pub proof fn law_raw_program_change2(group: u8, channel: u8, program: u8, bank: Option<(u8, u8)>)
    ensures
        (EventBody::ProgramChange2 { group, channel, program, bank }).raw() == record(
            "ProgramChange2"@,
            Seq::empty()
                .push(Field { name: "group"@, value: dec(group as nat) })
                .push(Field { name: "channel"@, value: dec(channel as nat) })
                .push(Field { name: "program"@, value: dec(program as nat) })
                .push(Field { name: "bank"@, value: raw_bank(bank) }),
        ),
{
    let none = Seq::<Field>::empty();
    reveal_strlit(", ");
    reveal_strlit(": ");
    reveal_strlit(" { ");
    let f0 = Field { name: "group"@, value: dec(group as nat) };
    reveal_strlit("group");
    reveal_strlit(" { group: ");
    assert(" { group: "@ =~= " { "@ + "group"@ + ": "@);
    lemma_first_field("ProgramChange2"@, f0, " { group: "@);
    let f1 = Field { name: "channel"@, value: dec(channel as nat) };
    reveal_strlit("channel");
    reveal_strlit(", channel: ");
    assert(", channel: "@ =~= ", "@ + "channel"@ + ": "@);
    let s1 = none.push(f0);
    lemma_one_field_more("ProgramChange2"@, s1, f1, ", channel: "@);
    let f2 = Field { name: "program"@, value: dec(program as nat) };
    reveal_strlit("program");
    reveal_strlit(", program: ");
    assert(", program: "@ =~= ", "@ + "program"@ + ": "@);
    let s2 = s1.push(f1);
    lemma_one_field_more("ProgramChange2"@, s2, f2, ", program: "@);
    let f3 = Field { name: "bank"@, value: raw_bank(bank) };
    reveal_strlit("bank");
    reveal_strlit(", bank: ");
    assert(", bank: "@ =~= ", "@ + "bank"@ + ": "@);
    let s3 = s2.push(f2);
    lemma_one_field_more("ProgramChange2"@, s3, f3, ", bank: "@);
}

/// The raw line of `RegisteredController` shows every field under its name.
pub proof fn law_raw_registered_controller(group: u8, channel: u8, bank: u8, index: u8, value: u32)
    ensures
        (EventBody::RegisteredController { group, channel, bank, index, value }).raw() == record(
            "RegisteredController"@,
            Seq::empty()
                .push(Field { name: "group"@, value: dec(group as nat) })
                .push(Field { name: "channel"@, value: dec(channel as nat) })
                .push(Field { name: "bank"@, value: dec(bank as nat) })
                .push(Field { name: "index"@, value: dec(index as nat) })
                .push(Field { name: "value"@, value: dec(value as nat) }),
        ),
{
    let none = Seq::<Field>::empty();
    reveal_strlit(", ");
    reveal_strlit(": ");
    reveal_strlit(" { ");
    let f0 = Field { name: "group"@, value: dec(group as nat) };
    reveal_strlit("group");
    reveal_strlit(" { group: ");
    assert(" { group: "@ =~= " { "@ + "group"@ + ": "@);
    lemma_first_field("RegisteredController"@, f0, " { group: "@);
    let f1 = Field { name: "channel"@, value: dec(channel as nat) };
    reveal_strlit("channel");
    reveal_strlit(", channel: ");
    assert(", channel: "@ =~= ", "@ + "channel"@ + ": "@);
    let s1 = none.push(f0);
    lemma_one_field_more("RegisteredController"@, s1, f1, ", channel: "@);
    let f2 = Field { name: "bank"@, value: dec(bank as nat) };
    reveal_strlit("bank");
    reveal_strlit(", bank: ");
    assert(", bank: "@ =~= ", "@ + "bank"@ + ": "@);
    let s2 = s1.push(f1);
    lemma_one_field_more("RegisteredController"@, s2, f2, ", bank: "@);
    let f3 = Field { name: "index"@, value: dec(index as nat) };
    reveal_strlit("index");
    reveal_strlit(", index: ");
    assert(", index: "@ =~= ", "@ + "index"@ + ": "@);
    let s3 = s2.push(f2);
    lemma_one_field_more("RegisteredController"@, s3, f3, ", index: "@);
    let f4 = Field { name: "value"@, value: dec(value as nat) };
    reveal_strlit("value");
    reveal_strlit(", value: ");
    assert(", value: "@ =~= ", "@ + "value"@ + ": "@);
    let s4 = s3.push(f3);
    lemma_one_field_more("RegisteredController"@, s4, f4, ", value: "@);
}

/// The raw line of `AssignableController` shows every field under its name.
pub proof fn law_raw_assignable_controller(group: u8, channel: u8, bank: u8, index: u8, value: u32)
    ensures
        (EventBody::AssignableController { group, channel, bank, index, value }).raw() == record(
            "AssignableController"@,
            Seq::empty()
                .push(Field { name: "group"@, value: dec(group as nat) })
                .push(Field { name: "channel"@, value: dec(channel as nat) })
                .push(Field { name: "bank"@, value: dec(bank as nat) })
                .push(Field { name: "index"@, value: dec(index as nat) })
                .push(Field { name: "value"@, value: dec(value as nat) }),
        ),
{
    let none = Seq::<Field>::empty();
    reveal_strlit(", ");
    reveal_strlit(": ");
    reveal_strlit(" { ");
    let f0 = Field { name: "group"@, value: dec(group as nat) };
    reveal_strlit("group");
    reveal_strlit(" { group: ");
    assert(" { group: "@ =~= " { "@ + "group"@ + ": "@);
    lemma_first_field("AssignableController"@, f0, " { group: "@);
    let f1 = Field { name: "channel"@, value: dec(channel as nat) };
    reveal_strlit("channel");
    reveal_strlit(", channel: ");
    assert(", channel: "@ =~= ", "@ + "channel"@ + ": "@);
    let s1 = none.push(f0);
    lemma_one_field_more("AssignableController"@, s1, f1, ", channel: "@);
    let f2 = Field { name: "bank"@, value: dec(bank as nat) };
    reveal_strlit("bank");
    reveal_strlit(", bank: ");
    assert(", bank: "@ =~= ", "@ + "bank"@ + ": "@);
    let s2 = s1.push(f1);
    lemma_one_field_more("AssignableController"@, s2, f2, ", bank: "@);
    let f3 = Field { name: "index"@, value: dec(index as nat) };
    reveal_strlit("index");
    reveal_strlit(", index: ");
    assert(", index: "@ =~= ", "@ + "index"@ + ": "@);
    let s3 = s2.push(f2);
    lemma_one_field_more("AssignableController"@, s3, f3, ", index: "@);
    let f4 = Field { name: "value"@, value: dec(value as nat) };
    reveal_strlit("value");
    reveal_strlit(", value: ");
    assert(", value: "@ =~= ", "@ + "value"@ + ": "@);
    let s4 = s3.push(f3);
    lemma_one_field_more("AssignableController"@, s4, f4, ", value: "@);
}

/// The raw line of `ParamChange` shows every field under its name.
pub proof fn law_raw_param_change(id: u32, value: Double)
    ensures
        (EventBody::ParamChange { id, value }).raw() == record(
            "ParamChange"@,
            Seq::empty()
                .push(Field { name: "id"@, value: dec(id as nat) })
                .push(Field { name: "value"@, value: value.debug_text() }),
        ),
{
    let none = Seq::<Field>::empty();
    reveal_strlit(", ");
    reveal_strlit(": ");
    reveal_strlit(" { ");
    let f0 = Field { name: "id"@, value: dec(id as nat) };
    reveal_strlit("id");
    reveal_strlit(" { id: ");
    assert(" { id: "@ =~= " { "@ + "id"@ + ": "@);
    reveal_strlit("ParamChange");
    reveal_strlit("ParamChange { id: ");
    assert("ParamChange { id: "@ =~= "ParamChange"@ + " { id: "@);
    lemma_first_field("ParamChange"@, f0, " { id: "@);
    let f1 = Field { name: "value"@, value: value.debug_text() };
    reveal_strlit("value");
    reveal_strlit(", value: ");
    assert(", value: "@ =~= ", "@ + "value"@ + ": "@);
    let s1 = none.push(f0);
    lemma_one_field_more("ParamChange"@, s1, f1, ", value: "@);
}

/// The raw line of `ParamMod` shows every field under its name.
pub proof fn law_raw_param_mod(id: u32, note_id: i32, value: Double)
    ensures
        (EventBody::ParamMod { id, note_id, value }).raw() == record(
            "ParamMod"@,
            Seq::empty()
                .push(Field { name: "id"@, value: dec(id as nat) })
                .push(Field { name: "note_id"@, value: int_dec(note_id as int) })
                .push(Field { name: "value"@, value: value.debug_text() }),
        ),
{
    let none = Seq::<Field>::empty();
    reveal_strlit(", ");
    reveal_strlit(": ");
    reveal_strlit(" { ");
    let f0 = Field { name: "id"@, value: dec(id as nat) };
    reveal_strlit("id");
    reveal_strlit(" { id: ");
    assert(" { id: "@ =~= " { "@ + "id"@ + ": "@);
    reveal_strlit("ParamMod");
    reveal_strlit("ParamMod { id: ");
    assert("ParamMod { id: "@ =~= "ParamMod"@ + " { id: "@);
    lemma_first_field("ParamMod"@, f0, " { id: "@);
    let f1 = Field { name: "note_id"@, value: int_dec(note_id as int) };
    reveal_strlit("note_id");
    reveal_strlit(", note_id: ");
    assert(", note_id: "@ =~= ", "@ + "note_id"@ + ": "@);
    let s1 = none.push(f0);
    lemma_one_field_more("ParamMod"@, s1, f1, ", note_id: "@);
    let f2 = Field { name: "value"@, value: value.debug_text() };
    reveal_strlit("value");
    reveal_strlit(", value: ");
    assert(", value: "@ =~= ", "@ + "value"@ + ": "@);
    let s2 = s1.push(f1);
    lemma_one_field_more("ParamMod"@, s2, f2, ", value: "@);
}

/// The raw line of `SysEx` shows every field under its name.
pub proof fn law_raw_sys_ex(pool_offset: u32, len: u32)
    ensures
        (EventBody::SysEx { pool_offset, len }).raw() == record(
            "SysEx"@,
            Seq::empty()
                .push(Field { name: "pool_offset"@, value: dec(pool_offset as nat) })
                .push(Field { name: "len"@, value: dec(len as nat) }),
        ),
{
    let none = Seq::<Field>::empty();
    reveal_strlit(", ");
    reveal_strlit(": ");
    reveal_strlit(" { ");
    let f0 = Field { name: "pool_offset"@, value: dec(pool_offset as nat) };
    reveal_strlit("pool_offset");
    reveal_strlit(" { pool_offset: ");
    assert(" { pool_offset: "@ =~= " { "@ + "pool_offset"@ + ": "@);
    reveal_strlit("SysEx");
    reveal_strlit("SysEx { pool_offset: ");
    assert("SysEx { pool_offset: "@ =~= "SysEx"@ + " { pool_offset: "@);
    lemma_first_field("SysEx"@, f0, " { pool_offset: "@);
    let f1 = Field { name: "len"@, value: dec(len as nat) };
    reveal_strlit("len");
    reveal_strlit(", len: ");
    assert(", len: "@ =~= ", "@ + "len"@ + ": "@);
    let s1 = none.push(f0);
    lemma_one_field_more("SysEx"@, s1, f1, ", len: "@);
}

/// The first half of a transport's fields.
spec fn transport_head(info: TransportInfo) -> Seq<Field> {
    Seq::empty()
        .push(Field { name: "playing"@, value: bool_text(info.playing) })
        .push(Field { name: "recording"@, value: bool_text(info.recording) })
        .push(Field { name: "tempo"@, value: info.tempo.debug_text() })
        .push(Field { name: "time_sig_num"@, value: dec(info.time_sig_num as nat) })
        .push(Field { name: "time_sig_den"@, value: dec(info.time_sig_den as nat) })
        .push(Field { name: "position_samples"@, value: int_dec(info.position_samples as int) })
}

/// The first half of a transport's raw form.
proof fn lemma_transport_head(info: TransportInfo)
    ensures
        begun("TransportInfo"@, transport_head(info))
            == "TransportInfo { playing: "@ + bool_text(info.playing)
            + ", recording: "@ + bool_text(info.recording)
            + ", tempo: "@ + info.tempo.debug_text()
            + ", time_sig_num: "@ + dec(info.time_sig_num as nat)
            + ", time_sig_den: "@ + dec(info.time_sig_den as nat)
            + ", position_samples: "@ + int_dec(info.position_samples as int),
{
    let none = Seq::<Field>::empty();
    reveal_strlit(", ");
    reveal_strlit(": ");
    reveal_strlit(" { ");
    let f0 = Field { name: "playing"@, value: bool_text(info.playing) };
    reveal_strlit("playing");
    reveal_strlit(" { playing: ");
    assert(" { playing: "@ =~= " { "@ + "playing"@ + ": "@);
    reveal_strlit("TransportInfo");
    reveal_strlit("TransportInfo { playing: ");
    assert("TransportInfo { playing: "@ =~= "TransportInfo"@ + " { playing: "@);
    lemma_first_field("TransportInfo"@, f0, " { playing: "@);
    let f1 = Field { name: "recording"@, value: bool_text(info.recording) };
    reveal_strlit("recording");
    reveal_strlit(", recording: ");
    assert(", recording: "@ =~= ", "@ + "recording"@ + ": "@);
    let s1 = none.push(f0);
    lemma_one_field_more("TransportInfo"@, s1, f1, ", recording: "@);
    let f2 = Field { name: "tempo"@, value: info.tempo.debug_text() };
    reveal_strlit("tempo");
    reveal_strlit(", tempo: ");
    assert(", tempo: "@ =~= ", "@ + "tempo"@ + ": "@);
    let s2 = s1.push(f1);
    lemma_one_field_more("TransportInfo"@, s2, f2, ", tempo: "@);
    let f3 = Field { name: "time_sig_num"@, value: dec(info.time_sig_num as nat) };
    reveal_strlit("time_sig_num");
    reveal_strlit(", time_sig_num: ");
    assert(", time_sig_num: "@ =~= ", "@ + "time_sig_num"@ + ": "@);
    let s3 = s2.push(f2);
    lemma_one_field_more("TransportInfo"@, s3, f3, ", time_sig_num: "@);
    let f4 = Field { name: "time_sig_den"@, value: dec(info.time_sig_den as nat) };
    reveal_strlit("time_sig_den");
    reveal_strlit(", time_sig_den: ");
    assert(", time_sig_den: "@ =~= ", "@ + "time_sig_den"@ + ": "@);
    let s4 = s3.push(f3);
    lemma_one_field_more("TransportInfo"@, s4, f4, ", time_sig_den: "@);
    let f5 = Field { name: "position_samples"@, value: int_dec(info.position_samples as int) };
    reveal_strlit("position_samples");
    reveal_strlit(", position_samples: ");
    assert(", position_samples: "@ =~= ", "@ + "position_samples"@ + ": "@);
    let s5 = s4.push(f4);
    lemma_one_field_more("TransportInfo"@, s5, f5, ", position_samples: "@);
}

/// The raw form of a transport shows every field under its name.
#[verifier::rlimit(30)]
pub proof fn law_raw_transport_info(info: TransportInfo)
    ensures
        info.raw() == record(
            "TransportInfo"@,
            Seq::empty()
                .push(Field { name: "playing"@, value: bool_text(info.playing) })
                .push(Field { name: "recording"@, value: bool_text(info.recording) })
                .push(Field { name: "tempo"@, value: info.tempo.debug_text() })
                .push(Field { name: "time_sig_num"@, value: dec(info.time_sig_num as nat) })
                .push(Field { name: "time_sig_den"@, value: dec(info.time_sig_den as nat) })
                .push(Field { name: "position_samples"@, value: int_dec(info.position_samples as int) })
                .push(Field { name: "position_seconds"@, value: info.position_seconds.debug_text() })
                .push(Field { name: "position_beats"@, value: info.position_beats.debug_text() })
                .push(Field { name: "bar_start_beats"@, value: info.bar_start_beats.debug_text() })
                .push(Field { name: "loop_active"@, value: bool_text(info.loop_active) })
                .push(Field { name: "loop_start_beats"@, value: info.loop_start_beats.debug_text() })
                .push(Field { name: "loop_end_beats"@, value: info.loop_end_beats.debug_text() }),
        ),
{
    let s6 = transport_head(info);
    reveal_strlit(", ");
    reveal_strlit(": ");
    lemma_transport_head(info);
    let f6 = Field { name: "position_seconds"@, value: info.position_seconds.debug_text() };
    reveal_strlit("position_seconds");
    reveal_strlit(", position_seconds: ");
    assert(", position_seconds: "@ =~= ", "@ + "position_seconds"@ + ": "@);
    lemma_one_field_more("TransportInfo"@, s6, f6, ", position_seconds: "@);
    let f7 = Field { name: "position_beats"@, value: info.position_beats.debug_text() };
    reveal_strlit("position_beats");
    reveal_strlit(", position_beats: ");
    assert(", position_beats: "@ =~= ", "@ + "position_beats"@ + ": "@);
    let s7 = s6.push(f6);
    lemma_one_field_more("TransportInfo"@, s7, f7, ", position_beats: "@);
    let f8 = Field { name: "bar_start_beats"@, value: info.bar_start_beats.debug_text() };
    reveal_strlit("bar_start_beats");
    reveal_strlit(", bar_start_beats: ");
    assert(", bar_start_beats: "@ =~= ", "@ + "bar_start_beats"@ + ": "@);
    let s8 = s7.push(f7);
    lemma_one_field_more("TransportInfo"@, s8, f8, ", bar_start_beats: "@);
    let f9 = Field { name: "loop_active"@, value: bool_text(info.loop_active) };
    reveal_strlit("loop_active");
    reveal_strlit(", loop_active: ");
    assert(", loop_active: "@ =~= ", "@ + "loop_active"@ + ": "@);
    let s9 = s8.push(f8);
    lemma_one_field_more("TransportInfo"@, s9, f9, ", loop_active: "@);
    let f10 = Field { name: "loop_start_beats"@, value: info.loop_start_beats.debug_text() };
    reveal_strlit("loop_start_beats");
    reveal_strlit(", loop_start_beats: ");
    assert(", loop_start_beats: "@ =~= ", "@ + "loop_start_beats"@ + ": "@);
    let s10 = s9.push(f9);
    lemma_one_field_more("TransportInfo"@, s10, f10, ", loop_start_beats: "@);
    let f11 = Field { name: "loop_end_beats"@, value: info.loop_end_beats.debug_text() };
    reveal_strlit("loop_end_beats");
    reveal_strlit(", loop_end_beats: ");
    assert(", loop_end_beats: "@ =~= ", "@ + "loop_end_beats"@ + ": "@);
    let s11 = s10.push(f10);
    lemma_one_field_more("TransportInfo"@, s11, f11, ", loop_end_beats: "@);
}

/// The raw line of `Transport` shows the transport in brackets.
pub proof fn law_raw_transport(info: TransportInfo)
    ensures
        EventBody::Transport(info).raw() == "Transport("@ + info.raw() + ")"@,
{
}

} // verus!
