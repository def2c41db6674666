//! What holds of the ring, the effect and the editor together.

use crate::event::EventBody;
use crate::interpret::{
    category_of, channel_of, hex_text, inline_bytes, kind_of, note_text, pitch_class, raw_of,
    source_text, summary_of, Category,
};
use crate::plugin::{captured_all, forward_all, Event, Forwarded};
use crate::reading::{
    law_a_number_reads_back, lemma_dec_lacks, lemma_next_word, reads_as, rest, word,
};
use crate::ring::{
    is_capture, lemma_number_steps, lemma_push_keeps_valid, newest, number, LogEntry, RingState,
    RING_CAP, SYSEX_INLINE,
};
use crate::text::{dec, flush_left, flush_right, hex_byte, int_dec};
use crate::ui::{
    channel_text, line_text, position, ring_refreshed, ring_updated, stats_text, toggles_describe,
    EventRows, FilterToggle, Frame, Header, Msg, UiState, CATEGORIES, MAX_DISPLAY,
};
use vstd::prelude::*;

verus! {

/// Whether `entries` record `events` one by one, numbered from `first`: each at
/// its time and with its body, and with the start and the length of its payload.
pub open spec fn record(entries: Seq<LogEntry>, first: u64, events: Seq<Event<'_>>) -> bool {
    &&& entries.len() == events.len()
    &&& forall|i: int|
        0 <= i < events.len() ==> {
            &&& (#[trigger] entries[i]).seq == number(first, i as nat)
            &&& entries[i].sample_offset == events[i].sample_offset
            &&& entries[i].body == events[i].body
            &&& events[i].sysex@.len() <= u32::MAX ==> entries[i].sysex_len
                == events[i].sysex@.len()
            &&& events[i].sysex@.len() > u32::MAX ==> entries[i].sysex_len == u32::MAX
        }
    &&& forall|i: int, j: int|
        0 <= i < events.len() && 0 <= j < 24 ==> #[trigger] entries[i].sysex@[j] == if j
            < events[i].sysex@.len() {
            events[i].sysex@[j]
        } else {
            0
        }
}

/// By how much `len` exceeds the ring's capacity.
pub open spec fn overflow(len: nat) -> nat {
    if len > RING_CAP { (len - RING_CAP) as nat } else { 0 }
}

/// Every event of a block is recorded, in order and under consecutive numbers.
/// The ring then holds the newest of what it held and what was recorded, and
/// has counted all that had to make room.
pub proof fn law_every_event_is_recorded(
    before: RingState,
    after: RingState,
    events: Seq<Event<'_>>,
)
    requires
        before.valid(),
        captured_all(before, after, events),
    ensures
        after.valid(),
        after.next_seq == number(before.next_seq, events.len()),
        after.dropped == number(before.dropped, overflow(before.pending.len() + events.len())),
        exists|entries: Seq<LogEntry>| #[trigger]
            record(entries, before.next_seq, events) && after.pending == newest(
                before.pending + entries,
                RING_CAP as nat,
            ),
    decreases events.len(),
{
    if events.len() == 0 {
        let entries = Seq::<LogEntry>::empty();
        assert(before.pending + entries =~= before.pending);
        assert(record(entries, before.next_seq, events));
    } else {
        let last = events.last();
        let middle = choose|middle: RingState|
            captured_all(before, middle, events.drop_last()) && #[trigger] middle.pushed(
                after,
                last.sample_offset,
                last.body,
                last.sysex@,
            );
        law_every_event_is_recorded(before, middle, events.drop_last());
        lemma_push_keeps_valid(middle, after, last.sample_offset, last.body, last.sysex@);
        let earlier = choose|entries: Seq<LogEntry>| #[trigger]
            record(entries, before.next_seq, events.drop_last()) && middle.pending == newest(
                before.pending + entries,
                RING_CAP as nat,
            );
        let entries = earlier.push(after.pending.last());
        let n = earlier.len();
        lemma_number_steps(before.next_seq, n);
        lemma_number_steps(before.dropped, overflow(before.pending.len() + n));
        assert forall|i: int| 0 <= i < events.len() implies #[trigger] entries[i] == if i < n {
            earlier[i]
        } else {
            after.pending.last()
        } && events[i] == if i < n { events.drop_last()[i] } else { last } by {}
        assert(record(entries, before.next_seq, events));
        assert(after.pending =~= newest(before.pending + entries, RING_CAP as nat));
    }
}

/// What a drain gives back: of a fresh ring that was not pushed beyond its
/// capacity, one entry per event, oldest first, numbered from zero, and nothing
/// was lost.
pub proof fn law_a_drain_gives_back_every_event(
    after: RingState,
    events: Seq<Event<'_>>,
    max: nat,
)
    requires
        captured_all(RingState::initial(), after, events),
        events.len() <= RING_CAP,
        events.len() <= max,
    ensures
        record(newest(Seq::empty() + after.pending, max), 0, events),
        after.dropped == 0,
{
    law_every_event_is_recorded(RingState::initial(), after, events);
    let entries = choose|entries: Seq<LogEntry>| #[trigger]
        record(entries, 0, events) && after.pending == newest(
            Seq::<LogEntry>::empty() + entries,
            RING_CAP as nat,
        );
    assert(Seq::<LogEntry>::empty() + entries =~= entries);
    assert(Seq::<LogEntry>::empty() + after.pending =~= entries);
}

/// A capture stores the event as it came: the newest entry has its body, its
/// time, the next number, the start of its payload, filled up with zeros, and
/// the payload's length. All older entries stay as they are, but for the oldest
/// of a full ring, which goes and is counted.
pub proof fn law_a_capture_keeps_the_event(
    before: RingState,
    after: RingState,
    sample_offset: u32,
    body: EventBody,
    sysex: Seq<u8>,
)
    requires
        before.valid(),
        before.pushed(after, sample_offset, body, sysex),
    ensures
        after.pending.len() > 0,
        after.pending.last().body == body,
        after.pending.last().sample_offset == sample_offset,
        after.pending.last().seq == before.next_seq,
        forall|i: int|
            0 <= i < 24 ==> #[trigger] after.pending.last().sysex@[i] == if i < sysex.len() {
                sysex[i]
            } else {
                0
            },
        sysex.len() <= u32::MAX ==> after.pending.last().sysex_len == sysex.len(),
        sysex.len() > u32::MAX ==> after.pending.last().sysex_len == u32::MAX,
        after.next_seq == if before.next_seq == u64::MAX { 0 } else { before.next_seq + 1 },
        before.pending.len() < 4096 ==> after.pending.drop_last() == before.pending
            && after.dropped == before.dropped,
        before.pending.len() == 4096 ==> after.pending.drop_last() == before.pending.drop_first()
            && after.dropped == if before.dropped == u64::MAX { 0 } else { before.dropped + 1 },
{
    let kept = if before.pending.len() == 4096 {
        before.pending.drop_first()
    } else {
        before.pending
    };
    assert(after.pending.drop_last() =~= kept);
}

/// Captures tell events apart: of one ring they make the same ring only where
/// they are of the same event.
pub proof fn law_captures_tell_events_apart(
    before: RingState,
    after: RingState,
    other: RingState,
    sample_offset: u32,
    body: EventBody,
    other_offset: u32,
    other_body: EventBody,
    sysex: Seq<u8>,
)
    requires
        before.pushed(after, sample_offset, body, sysex),
        before.pushed(other, other_offset, other_body, sysex),
    ensures
        (after == other) == (sample_offset == other_offset && body == other_body),
{
    assert(after.pending.last().sysex == other.pending.last().sysex) by {
        assert(after.pending.last().sysex@ =~= other.pending.last().sysex@);
    }
}

/// Numbers go up one by one and start over behind the largest.
pub proof fn law_numbers_go_up(first: u64, steps: nat)
    ensures
        number(first, 0) == first,
        first + steps <= u64::MAX ==> number(first, steps) == first + steps,
        number(u64::MAX, 1) == 0,
        number(first, steps + 1) == number(number(first, steps), 1),
{
}

/// Of what is kept nothing is changed: it is the end of what there was, all of
/// it where there is room and otherwise as much as there is room for.
pub proof fn law_the_newest_are_kept(entries: Seq<LogEntry>, max: nat, i: int)
    ensures
        newest(entries, max).len() == if entries.len() < max { entries.len() } else { max },
        0 <= i < newest(entries, max).len() ==> newest(entries, max)[newest(entries, max).len() - 1
            - i] == entries[entries.len() - 1 - i],
{
}

/// A drain empties the ring and changes nothing else of it; a clear also
/// forgets the losses.
pub proof fn law_drained_and_cleared_rings(ring: RingState)
    ensures
        ring.drained().pending.len() == 0,
        ring.drained().next_seq == ring.next_seq,
        ring.drained().dropped == ring.dropped,
        ring.cleared().pending.len() == 0,
        ring.cleared().next_seq == ring.next_seq,
        ring.cleared().dropped == 0,
        RingState::initial().pending.len() == 0,
        RingState::initial().next_seq == 0,
        RingState::initial().dropped == 0,
{
}

/// The entries that wait carry consecutive numbers.
pub proof fn law_numbers_are_consecutive(ring: RingState, i: int, j: int)
    requires
        ring.valid(),
        0 <= i <= j < ring.pending.len(),
    ensures
        ring.pending[j].seq == number(ring.pending[i].seq, (j - i) as nat),
{
    let n = ring.pending.len() as int;
    assert(number(ring.pending[i].seq, (n - i) as nat) == number(
        ring.pending[j].seq,
        (n - j) as nat,
    ));
}

/// However the drains are spread, the log holds the newest of all that came.
pub proof fn law_drains_can_be_split(
    log: Seq<LogEntry>,
    first: Seq<LogEntry>,
    second: Seq<LogEntry>,
    max: nat,
)
    ensures
        newest(newest(log + first, max) + second, max) == newest(log + (first + second), max),
{
    assert(newest(newest(log + first, max) + second, max) =~= newest(
        log + (first + second),
        max,
    ));
}

/// The log never grows beyond the display, and each category keeps its filter.
pub proof fn law_editor_stays_valid(ui: UiState, ring: RingState, msg: Msg)
    requires
        ui.valid(),
    ensures
        ui.refreshed(ring).valid(),
        ui.updated(msg).valid(),
{
}

/// Clearing empties the log and the ring and forgets the losses; numbers go on.
pub proof fn law_clear(ui: UiState, ring: RingState)
    ensures
        ui.updated(Msg::Clear).log.len() == 0,
        ui.updated(Msg::Clear).filters == ui.filters,
        ui.updated(Msg::Clear).paused == ui.paused,
        ring_updated(ring, Msg::Clear).pending.len() == 0,
        ring_updated(ring, Msg::Clear).dropped == 0,
        ring_updated(ring, Msg::Clear).next_seq == ring.next_seq,
{
}

/// A fresh editor has logged nothing, runs, and shows every category.
pub proof fn law_a_fresh_editor_shows_everything(category: Category)
    ensures
        UiState::initial().log.len() == 0,
        !UiState::initial().paused,
        UiState::initial().shows(category),
{
}

/// A message changes what it is about and nothing else: a filter changes at its
/// index alone, a pause is flipped, a clear empties the log.
pub proof fn law_a_message_changes_one_thing(ui: UiState, i: usize, on: bool)
    requires
        ui.valid(),
    ensures
        ui.updated(Msg::SetFilter(i, on)).log == ui.log,
        ui.updated(Msg::SetFilter(i, on)).paused == ui.paused,
        ui.updated(Msg::SetFilter(i, on)).filters.len() == 9,
        forall|j: int|
            0 <= j < 9 ==> #[trigger] ui.updated(Msg::SetFilter(i, on)).filters[j] == if j == i {
                on
            } else {
                ui.filters[j]
            },
        ui.updated(Msg::TogglePause).log == ui.log,
        ui.updated(Msg::TogglePause).filters == ui.filters,
        ui.updated(Msg::TogglePause).paused == !ui.paused,
        ui.updated(Msg::Clear).log == Seq::<LogEntry>::empty(),
        ui.updated(Msg::Clear).filters == ui.filters,
        ui.updated(Msg::Clear).paused == ui.paused,
{
}

/// Only a clear touches the ring.
pub proof fn law_only_a_clear_touches_the_ring(ring: RingState, i: usize, on: bool)
    ensures
        ring_updated(ring, Msg::SetFilter(i, on)) == ring,
        ring_updated(ring, Msg::TogglePause) == ring,
{
}

/// Taking in what waits leaves the pause and every filter as they were, so that
/// each category is shown afterwards exactly where it was shown before. An
/// editor that runs then holds the end of its log and what waited, unchanged
/// and in order, at most five hundred entries of it.
pub proof fn law_a_refresh_leaves_the_filters(ui: UiState, ring: RingState, category: Category)
    requires
        ui.valid(),
    ensures
        ui.refreshed(ring).filters == ui.filters,
        ui.refreshed(ring).paused == ui.paused,
        ui.refreshed(ring).shows(category) == ui.shows(category),
        ui.paused ==> ui.refreshed(ring).log == ui.log,
        !ui.paused ==> ui.refreshed(ring).log.is_suffix_of(ui.log + ring.pending),
        !ui.paused ==> ui.refreshed(ring).log.len() == if ui.log.len() + ring.pending.len() < 500 {
            ui.log.len() + ring.pending.len()
        } else {
            500
        },
{
}

/// An editor after it took in what waits in one ring after the other.
pub open spec fn refreshed_by(ui: UiState, rings: Seq<RingState>) -> UiState
    decreases rings.len(),
{
    if rings.len() == 0 {
        ui
    } else {
        refreshed_by(ui, rings.drop_last()).refreshed(rings.last())
    }
}

/// However often the display is refreshed, a category is shown exactly where it
/// was shown at first.
pub proof fn law_refreshes_never_change_what_is_shown(
    ui: UiState,
    rings: Seq<RingState>,
    category: Category,
)
    requires
        ui.valid(),
    ensures
        refreshed_by(ui, rings).valid(),
        refreshed_by(ui, rings).filters == ui.filters,
        refreshed_by(ui, rings).paused == ui.paused,
        refreshed_by(ui, rings).shows(category) == ui.shows(category),
    decreases rings.len(),
{
    if rings.len() > 0 {
        law_refreshes_never_change_what_is_shown(ui, rings.drop_last(), category);
    }
}

/// A category that was hidden stays hidden: whatever arrives afterwards, nothing
/// that is shown belongs to it.
pub proof fn law_what_is_hidden_stays_hidden(
    ui: UiState,
    category: Category,
    rings: Seq<RingState>,
    entry: LogEntry,
)
    requires
        ui.valid(),
        category_of(entry.body) == category,
    ensures
        !refreshed_by(
            ui.updated(Msg::SetFilter(position(category) as usize, false)),
            rings,
        ).displayed().contains(entry),
{
    let hidden = ui.updated(Msg::SetFilter(position(category) as usize, false));
    law_refreshes_never_change_what_is_shown(hidden, rings, category);
    law_shown_exactly_where_not_hidden(refreshed_by(hidden, rings), entry);
}

/// What is shown, entry by entry: nothing of an empty log; and one entry more in
/// the log comes first, before all that was shown, or changes nothing where its
/// category is hidden.
pub proof fn law_the_newest_entry_comes_first(ui: UiState, entry: LogEntry)
    ensures
        (UiState { log: Seq::empty(), ..ui }).displayed() == Seq::<LogEntry>::empty(),
        (UiState { log: ui.log.push(entry), ..ui }).displayed() == if ui.shows(
            category_of(entry.body),
        ) {
            seq![entry] + ui.displayed()
        } else {
            ui.displayed()
        },
{
    let keep = |entry: LogEntry| ui.shows(category_of(entry.body));
    let empty = UiState { log: Seq::empty(), ..ui };
    let longer = UiState { log: ui.log.push(entry), ..ui };
    let keep_empty = |entry: LogEntry| empty.shows(category_of(entry.body));
    let keep_longer = |entry: LogEntry| longer.shows(category_of(entry.body));
    assert(keep_empty =~= keep);
    assert(keep_longer =~= keep);
    assert(empty.log.reverse() =~= Seq::empty());
    assert(Seq::<LogEntry>::empty().filter(keep) =~= Seq::empty()) by {
        reveal(Seq::filter);
    }
    assert(longer.log.reverse() =~= seq![entry] + ui.log.reverse());
    lemma_filter_of_two(seq![entry], ui.log.reverse(), keep);
    assert(seq![entry].filter(keep) =~= if keep(entry) { seq![entry] } else { Seq::empty() }) by {
        reveal(Seq::filter);
        assert(seq![entry].drop_last() =~= Seq::empty());
    }
    assert(Seq::empty() + ui.displayed() =~= ui.displayed());
}

/// A filter goes through one sequence after the other.
proof fn lemma_filter_of_two(
    first: Seq<LogEntry>,
    second: Seq<LogEntry>,
    keep: spec_fn(LogEntry) -> bool,
)
    ensures
        (first + second).filter(keep) == first.filter(keep) + second.filter(keep),
    decreases second.len(),
{
    reveal(Seq::filter);
    if second.len() == 0 {
        assert(first + second =~= first);
        assert(first.filter(keep) + second.filter(keep) =~= first.filter(keep));
    } else {
        lemma_filter_of_two(first, second.drop_last(), keep);
        assert((first + second).drop_last() =~= first + second.drop_last());
        assert((first + second).filter(keep) =~= first.filter(keep) + second.filter(keep));
    }
}

/// While paused, nothing is taken in: the display is frozen and the ring keeps
/// what it has. Resuming takes all of it in.
pub proof fn law_pause_freezes(ui: UiState, ring: RingState)
    requires
        ui.paused,
    ensures
        ui.refreshed(ring) == ui,
        ring_refreshed(ring, ui.paused) == ring,
        ui.updated(Msg::TogglePause).refreshed(ring).log == newest(
            ui.log + ring.pending,
            MAX_DISPLAY as nat,
        ),
        ui.updated(Msg::TogglePause).updated(Msg::TogglePause) == ui,
{
}

/// A filter changes what is shown and never what is kept; the last setting of
/// one counts; an index beyond the last changes nothing.
pub proof fn law_filters_hide_and_keep(ui: UiState, i: usize, first: bool, second: bool)
    requires
        ui.valid(),
    ensures
        ui.updated(Msg::SetFilter(i, first)).log == ui.log,
        ui.updated(Msg::SetFilter(i, first)).updated(Msg::SetFilter(i, second)) == ui.updated(
            Msg::SetFilter(i, second),
        ),
        i >= CATEGORIES ==> ui.updated(Msg::SetFilter(i, first)) == ui,
        forall|category: Category|
            #![trigger ui.shows(category)]
            ui.updated(Msg::SetFilter(i, first)).shows(category) == if position(category) == i {
                first
            } else {
                ui.shows(category)
            },
{
    if i < CATEGORIES {
        assert(ui.updated(Msg::SetFilter(i, first)).updated(Msg::SetFilter(i, second)).filters
            =~= ui.updated(Msg::SetFilter(i, second)).filters);
    }
}

/// Every category has exactly one place among the toggles.
pub proof fn law_every_category_has_a_toggle(category: Category)
    ensures
        0 <= position(category) < CATEGORIES,
        Category::ALL@.len() == CATEGORIES,
        Category::ALL@[position(category)].0 == category,
        forall|i: int|
            0 <= i < CATEGORIES && (#[trigger] Category::ALL@[i]).0 == category ==> i == position(
                category,
            ),
{
}

/// The checkbox of a category shows whether the category is shown, and setting
/// it decides for that category alone.
pub proof fn law_a_toggle_governs_its_category(
    ui: UiState,
    toggles: Seq<FilterToggle>,
    category: Category,
    other: Category,
    on: bool,
)
    requires
        ui.valid(),
        toggles_describe(toggles, ui),
    ensures
        toggles[position(category)].on == ui.shows(category),
        ui.updated(Msg::SetFilter(toggles[position(category)].index, on)).shows(category) == on,
        other != category ==> ui.updated(
            Msg::SetFilter(toggles[position(category)].index, on),
        ).shows(other) == ui.shows(other),
{
}

/// The button that pauses reads `Pause` while the display runs and `Resume`
/// while it is frozen, so that pressing it changes what it reads.
pub proof fn law_the_pause_button_changes_its_label(
    ui: UiState,
    before: Header,
    after: Header,
    dropped: u64,
)
    requires
        before.describes(ui, dropped),
        after.describes(ui.updated(Msg::TogglePause), dropped),
    ensures
        (before.pause@ == "Pause"@) == !ui.paused,
        (before.pause@ == "Resume"@) == ui.paused,
        (after.pause@ == "Pause"@) == ui.paused,
        before.stats@ == after.stats@,
{
    reveal_strlit("Pause");
    reveal_strlit("Resume");
    assert("Pause"@.len() != "Resume"@.len());
}

/// The toggles in the order in which they are shown, each with its label.
pub proof fn law_the_toggles_have_their_labels()
    ensures
        Category::ALL@.len() == 9,
        Category::ALL@[0].0 == Category::Note,
        Category::ALL@[0].1@ == "Note"@,
        Category::ALL@[1].0 == Category::Cc,
        Category::ALL@[1].1@ == "CC"@,
        Category::ALL@[2].0 == Category::PitchBend,
        Category::ALL@[2].1@ == "Bend"@,
        Category::ALL@[3].0 == Category::Pressure,
        Category::ALL@[3].1@ == "Press"@,
        Category::ALL@[4].0 == Category::Program,
        Category::ALL@[4].1@ == "Prog"@,
        Category::ALL@[5].0 == Category::SysEx,
        Category::ALL@[5].1@ == "SysEx"@,
        Category::ALL@[6].0 == Category::Param,
        Category::ALL@[6].1@ == "Param"@,
        Category::ALL@[7].0 == Category::Transport,
        Category::ALL@[7].1@ == "Transp"@,
        Category::ALL@[8].0 == Category::Other,
        Category::ALL@[8].1@ == "Other"@,
{
}

/// What a frame shows: the title, how many entries are kept, the buttons, a
/// checkbox for each category that is set where the category is shown, and one
/// row for each entry that is displayed, or a notice where nothing was logged.
pub proof fn law_a_frame_shows_the_state(frame: Frame, ui: UiState, dropped: u64, i: int)
    requires
        ui.valid(),
        frame.describes(ui, dropped),
    ensures
        frame.header.title@ == "MIDI INSPECTOR"@,
        frame.header.stats@ == stats_text(ui.log.len(), dropped),
        frame.header.clear@ == "Clear"@,
        ui.paused ==> frame.header.pause@ == "Resume"@,
        !ui.paused ==> frame.header.pause@ == "Pause"@,
        frame.filters@.len() == 9,
        0 <= i < 9 ==> frame.filters@[i].index == i && frame.filters@[i].label@
            == Category::ALL@[i].1@ && frame.filters@[i].on == ui.shows(Category::ALL@[i].0),
        frame.rows is Waiting == (ui.log.len() == 0),
        frame.rows matches EventRows::Waiting(text) ==> text@
            == "Waiting for MIDI - route MIDI to this plugin."@,
        frame.rows matches EventRows::Rows(rows) ==> rows@.len() == ui.displayed().len() && (0 <= i
            < rows@.len() ==> rows@[i].line@ == line_text(ui.displayed()[i]) && rows@[i].raw@
            == raw_of(ui.displayed()[i])),
{
}

/// The count of what is kept reads back, and so does the count of what was lost
/// where something was; otherwise nothing is said of losses.
pub proof fn law_the_counts_read_back(shown: nat, dropped: u64)
    ensures
        reads_as(word(stats_text(shown, dropped), 0), shown as int),
        dropped == 0 ==> rest(stats_text(shown, dropped), 1) == "shown"@,
        dropped > 0 ==> word(stats_text(shown, dropped), 1) == "shown"@,
        dropped > 0 ==> word(stats_text(shown, dropped), 2) == "·"@,
        dropped > 0 ==> reads_as(word(stats_text(shown, dropped), 3), dropped as int),
        dropped > 0 ==> rest(stats_text(shown, dropped), 4) == "dropped"@,
{
    let s = stats_text(shown, dropped);
    reveal_strlit(" ");
    reveal_strlit("·");
    reveal_strlit("shown");
    reveal_strlit("dropped");
    reveal_strlit(" shown");
    reveal_strlit(" shown · ");
    reveal_strlit(" dropped");
    law_a_number_reads_back(shown);
    law_a_number_reads_back(dropped as nat);
    lemma_dec_lacks(shown, ' ');
    lemma_dec_lacks(dropped as nat, ' ');
    if dropped > 0 {
        let t3 = dec(dropped as nat) + " "@ + "dropped"@;
        let t2 = "·"@ + " "@ + t3;
        let t1 = "shown"@ + " "@ + t2;
        assert(s =~= dec(shown) + " "@ + t1);
        lemma_next_word(s, 0, dec(shown), t1);
        lemma_next_word(s, 1, "shown"@, t2);
        lemma_next_word(s, 2, "·"@, t3);
        lemma_next_word(s, 3, dec(dropped as nat), "dropped"@);
    } else {
        assert(s =~= dec(shown) + " "@ + "shown"@);
        lemma_next_word(s, 0, dec(shown), "shown"@);
    }
}

/// Channels are counted from one in the log; an event without one has a dash.
pub proof fn law_the_channel_column_counts_from_one(channel: u8)
    ensures
        channel_text(None) == seq![' ', ' ', '-'],
        channel_text(Some(channel)).take(2) == seq!['c', 'h'],
        channel < 255 ==> reads_as(channel_text(Some(channel)).skip(2), channel + 1),
        channel == 255 ==> reads_as(channel_text(Some(channel)).skip(2), 0),
{
    let shown = ((channel + 1) % 256) as nat;
    reveal_strlit("  -");
    reveal_strlit("ch");
    law_a_number_reads_back(shown);
    assert(channel_text(None) =~= seq![' ', ' ', '-']);
    assert(channel_text(Some(channel)).take(2) =~= seq!['c', 'h']);
    assert(channel_text(Some(channel)).skip(2) =~= dec(shown));
}

/// A text in a column stands at its right or left end, with spaces in the rest;
/// one that is too long is shown whole.
pub proof fn law_a_column_holds_its_text(text: Seq<char>, width: nat, i: int)
    ensures
        ({
            let wide = if text.len() < width { width } else { text.len() };
            &&& flush_left(text, width).len() == wide
            &&& flush_right(text, width).len() == wide
            &&& flush_left(text, width).take(text.len() as int) == text
            &&& flush_right(text, width).skip(wide - text.len()) == text
            &&& text.len() <= i < wide ==> flush_left(text, width)[i] == ' '
            &&& 0 <= i < wide - text.len() ==> flush_right(text, width)[i] == ' '
        }),
{
    let wide = if text.len() < width { width } else { text.len() };
    assert(flush_left(text, width).take(text.len() as int) =~= text);
    assert(flush_right(text, width).skip(wide - text.len()) =~= text);
}

/// The columns of a line, from left to right: the number, the sample offset
/// behind an at sign, the channel, the kind, and then the summary.
pub proof fn law_a_line_has_its_columns(entry: LogEntry)
    ensures
        ({
            let line = line_text(entry);
            let number = flush_right(dec(entry.seq as nat), 6);
            let offset = flush_left(dec(entry.sample_offset as nat), 5);
            let channel = flush_left(channel_text(channel_of(entry.body)), 5);
            let kind = flush_left(kind_of(entry.body), 26);
            let b = number.len() as int + 2;
            let c = b + offset.len() + 1;
            let d = c + channel.len() + 1;
            let e = d + kind.len() + 1;
            &&& line.subrange(0, number.len() as int) == number
            &&& line[b - 2] == ' ' && line[b - 1] == '@'
            &&& line.subrange(b, b + offset.len()) == offset
            &&& line[c - 1] == ' '
            &&& line.subrange(c, c + channel.len()) == channel
            &&& line[d - 1] == ' '
            &&& line.subrange(d, d + kind.len()) == kind
            &&& line[e - 1] == ' '
            &&& line.skip(e) == summary_of(entry)
        }),
{
    reveal_strlit(" @");
    reveal_strlit(" ");
    let line = line_text(entry);
    let number = flush_right(dec(entry.seq as nat), 6);
    let offset = flush_left(dec(entry.sample_offset as nat), 5);
    let channel = flush_left(channel_text(channel_of(entry.body)), 5);
    let kind = flush_left(kind_of(entry.body), 26);
    lemma_columns(number, offset, channel, kind, summary_of(entry));
}

/// Where five texts stand in a line.
proof fn lemma_columns(
    number: Seq<char>,
    offset: Seq<char>,
    channel: Seq<char>,
    kind: Seq<char>,
    summary: Seq<char>,
)
    ensures
        ({
            let line = number + " @"@ + offset + " "@ + channel + " "@ + kind + " "@ + summary;
            let b = number.len() as int + 2;
            let c = b + offset.len() + 1;
            let d = c + channel.len() + 1;
            let e = d + kind.len() + 1;
            &&& line.subrange(0, number.len() as int) == number
            &&& line[b - 2] == ' ' && line[b - 1] == '@'
            &&& line.subrange(b, b + offset.len()) == offset
            &&& line[c - 1] == ' '
            &&& line.subrange(c, c + channel.len()) == channel
            &&& line[d - 1] == ' '
            &&& line.subrange(d, d + kind.len()) == kind
            &&& line[e - 1] == ' '
            &&& line.skip(e) == summary
        }),
{
    reveal_strlit(" @");
    reveal_strlit(" ");
    let line = number + " @"@ + offset + " "@ + channel + " "@ + kind + " "@ + summary;
    let b = number.len() as int + 2;
    let c = b + offset.len() + 1;
    let d = c + channel.len() + 1;
    let e = d + kind.len() + 1;
    assert(line.subrange(0, number.len() as int) =~= number);
    assert(line.subrange(b, b + offset.len()) =~= offset);
    assert(line.subrange(c, c + channel.len()) =~= channel);
    assert(line.subrange(d, d + kind.len()) =~= kind);
    assert(line.skip(e) =~= summary);
}

/// Nothing is ever invisible: every entry has a raw line.
pub proof fn law_nothing_is_invisible(entry: LogEntry)
    ensures
        raw_of(entry).len() > 0,
{
    reveal_strlit(" }");
    reveal_strlit(")");
    reveal_strlit("]");
}

/// Of a captured payload the first bytes are shown, and how many follow them.
pub proof fn law_payload_is_shown(
    entry: LogEntry,
    seq: u64,
    sample_offset: u32,
    pool_offset: u32,
    len: u32,
    sysex: Seq<u8>,
)
    requires
        is_capture(entry, seq, sample_offset, (EventBody::SysEx { pool_offset, len }), sysex),
        sysex.len() <= u32::MAX,
    ensures
        sysex.len() <= SYSEX_INLINE ==> raw_of(entry) == "SysEx ["@ + hex_text(sysex) + "]"@,
        sysex.len() > SYSEX_INLINE ==> raw_of(entry) == "SysEx ["@ + hex_text(
            sysex.take(SYSEX_INLINE as int),
        ) + "]"@ + " … +"@ + dec((sysex.len() - SYSEX_INLINE) as nat) + " more"@,
        summary_of(entry) == dec(sysex.len()) + " bytes · "@ + source_text(sysex),
{
    if sysex.len() <= SYSEX_INLINE {
        assert(inline_bytes(entry) =~= sysex);
    } else {
        assert(inline_bytes(entry) =~= sysex.take(SYSEX_INLINE as int));
    }
}

/// What was captured is what is shown: of a payload the first bytes as a hex
/// dump, how many more there are, its length and its origin; of any other event
/// the raw line that its fields make.
pub proof fn law_a_captured_event_is_shown(
    before: RingState,
    after: RingState,
    sample_offset: u32,
    body: EventBody,
    sysex: Seq<u8>,
)
    requires
        before.pushed(after, sample_offset, body, sysex),
        sysex.len() <= u32::MAX,
    ensures
        !(body is SysEx) ==> raw_of(after.pending.last()) == body.raw(),
        body is SysEx && sysex.len() <= 24 ==> raw_of(after.pending.last()) == "SysEx ["@
            + hex_text(sysex) + "]"@,
        body is SysEx && sysex.len() > 24 ==> raw_of(after.pending.last()) == "SysEx ["@ + hex_text(
            sysex.take(24),
        ) + "]"@ + " … +"@ + dec((sysex.len() - 24) as nat) + " more"@,
        body is SysEx ==> summary_of(after.pending.last()) == dec(sysex.len()) + " bytes · "@
            + source_text(sysex),
        category_of(after.pending.last().body) == category_of(body),
        kind_of(after.pending.last().body) == kind_of(body),
        channel_of(after.pending.last().body) == channel_of(body),
{
    let entry = after.pending.last();
    match body {
        EventBody::SysEx { pool_offset, len } => law_payload_is_shown(
            entry,
            entry.seq,
            sample_offset,
            pool_offset,
            len,
            sysex,
        ),
        _ => {},
    }
}

/// What is sent on is what came in: as many events, in order, each at its time
/// and on its port, with its body or its payload.
pub proof fn law_thru_changes_nothing(events: Seq<Event<'_>>, i: int)
    requires
        0 <= i < events.len(),
    ensures
        forward_all(events).len() == events.len(),
        match forward_all(events)[i] {
            Forwarded::SysEx { sample_offset, port, bytes } => {
                &&& events[i].body is SysEx
                &&& sample_offset == events[i].sample_offset
                &&& port == events[i].port
                &&& bytes == events[i].sysex
            },
            Forwarded::Event { sample_offset, port, body } => {
                &&& !(events[i].body is SysEx)
                &&& sample_offset == events[i].sample_offset
                &&& port == events[i].port
                &&& body == events[i].body
            },
        },
{
}

/// Whether the log and then the ring hold entries in the order of their
/// capture, all of them before the next one.
pub open spec fn in_order(ui: UiState, ring: RingState) -> bool {
    let all = ui.log + ring.pending;
    &&& forall|i: int, j: int| 0 <= i < j < all.len() ==> all[i].seq < all[j].seq
    &&& forall|i: int| 0 <= i < all.len() ==> (#[trigger] all[i]).seq < ring.next_seq
}

/// A fresh editor on a fresh ring is in order.
pub proof fn law_order_at_first()
    ensures
        in_order(UiState::initial(), RingState::initial()),
{
}

/// A capture keeps the order, as long as the numbers last.
pub proof fn law_order_after_a_capture(
    ui: UiState,
    ring: RingState,
    after: RingState,
    sample_offset: u32,
    body: EventBody,
    sysex: Seq<u8>,
)
    requires
        in_order(ui, ring),
        ring.pushed(after, sample_offset, body, sysex),
        ring.next_seq < u64::MAX,
    ensures
        in_order(ui, after),
{
    let all = ui.log + ring.pending;
    let n = ui.log.len() as int;
    let pushed = ui.log + after.pending;
    let shift: int = if ring.pending.len() >= RING_CAP { 1 } else { 0 };
    assert forall|i: int| 0 <= i < pushed.len() - 1 implies #[trigger] pushed[i] == if i < n {
        all[i]
    } else {
        all[i + shift]
    } by {}
    assert(pushed.last() == after.pending.last());
}

/// What the editor takes in, and what the user asks for, keep the order.
pub proof fn law_order_after_refresh_and_message(ui: UiState, ring: RingState, msg: Msg)
    requires
        in_order(ui, ring),
    ensures
        in_order(ui.refreshed(ring), ring_refreshed(ring, ui.paused)),
        in_order(ui.updated(msg), ring_updated(ring, msg)),
{
    if !ui.paused {
        let kept = ui.refreshed(ring).log + ring_refreshed(ring, ui.paused).pending;
        assert(kept =~= newest(ui.log + ring.pending, MAX_DISPLAY as nat));
    }
}

/// The rows run from the newest entry to the oldest.
pub proof fn law_rows_run_backwards(ui: UiState, ring: RingState)
    requires
        in_order(ui, ring),
    ensures
        forall|i: int, j: int|
            0 <= i < j < ui.displayed().len() ==> ui.displayed()[i].seq > ui.displayed()[j].seq,
{
    let all = ui.log + ring.pending;
    let reversed = ui.log.reverse();
    assert forall|i: int, j: int| 0 <= i < j < reversed.len() implies reversed[i].seq
        > reversed[j].seq by {
        let n = ui.log.len();
        assert(reversed[i] == all[n - 1 - i]);
        assert(reversed[j] == all[n - 1 - j]);
    }
    lemma_filter_keeps_descent(reversed, |entry: LogEntry| ui.shows(category_of(entry.body)));
}

/// What a filter leaves of a descending sequence descends.
proof fn lemma_filter_keeps_descent(entries: Seq<LogEntry>, keep: spec_fn(LogEntry) -> bool)
    requires
        forall|i: int, j: int| 0 <= i < j < entries.len() ==> entries[i].seq > entries[j].seq,
    ensures
        forall|i: int, j: int|
            0 <= i < j < entries.filter(keep).len() ==> entries.filter(keep)[i].seq
                > entries.filter(keep)[j].seq,
        forall|i: int|
            0 <= i < entries.filter(keep).len() ==> entries.contains(
                #[trigger] entries.filter(keep)[i],
            ),
    decreases entries.len(),
{
    reveal(Seq::filter);
    if entries.len() > 0 {
        let rest = entries.drop_last();
        lemma_filter_keeps_descent(rest, keep);
        assert forall|i: int| 0 <= i < rest.filter(keep).len() implies entries.contains(
            #[trigger] rest.filter(keep)[i],
        ) && rest.filter(keep)[i].seq > entries.last().seq by {
            let k = choose|k: int| 0 <= k < rest.len() && rest[k] == rest.filter(keep)[i];
            assert(entries[k] == rest[k]);
        }
        assert(entries.contains(entries.last())) by {
            assert(entries[entries.len() - 1] == entries.last());
        }
    }
}

/// An entry is shown exactly where it is kept and its category is not hidden.
pub proof fn law_shown_exactly_where_not_hidden(ui: UiState, entry: LogEntry)
    ensures
        ui.displayed().contains(entry) == (ui.log.contains(entry) && ui.shows(
            category_of(entry.body),
        )),
{
    let keep = |entry: LogEntry| ui.shows(category_of(entry.body));
    let reversed = ui.log.reverse();
    lemma_filter_contains(reversed, keep, entry);
    if ui.log.contains(entry) {
        let k = choose|k: int| 0 <= k < ui.log.len() && ui.log[k] == entry;
        assert(reversed[ui.log.len() - 1 - k] == entry);
    }
    if reversed.contains(entry) {
        let k = choose|k: int| 0 <= k < reversed.len() && reversed[k] == entry;
        assert(ui.log[ui.log.len() - 1 - k] == entry);
    }
}

/// What a filter leaves is what was there and passes.
proof fn lemma_filter_contains(
    entries: Seq<LogEntry>,
    keep: spec_fn(LogEntry) -> bool,
    entry: LogEntry,
)
    ensures
        entries.filter(keep).contains(entry) == (entries.contains(entry) && keep(entry)),
    decreases entries.len(),
{
    reveal(Seq::filter);
    if entries.len() > 0 {
        let rest = entries.drop_last();
        let last = entries.last();
        lemma_filter_contains(rest, keep, entry);
        assert(entries =~= rest.push(last));
        assert(entries.contains(entry) == (rest.contains(entry) || entry == last)) by {
            if rest.contains(entry) {
                let k = choose|k: int| 0 <= k < rest.len() && rest[k] == entry;
                assert(entries[k] == entry);
            }
            assert(entries[entries.len() - 1] == last);
        }
        if keep(last) {
            let kept = rest.filter(keep);
            assert(entries.filter(keep) =~= kept.push(last));
            assert(kept.push(last).contains(entry) == (kept.contains(entry) || entry == last)) by {
                if kept.contains(entry) {
                    let k = choose|k: int| 0 <= k < kept.len() && kept[k] == entry;
                    assert(kept.push(last)[k] == entry);
                }
                assert(kept.push(last)[kept.len() as int] == last);
            }
        }
    }
}

/// Unless paused, an editor leaves nothing waiting: there is nothing to redraw
/// for until the next capture.
pub proof fn law_refresh_takes_all(ui: UiState, ring: RingState)
    requires
        !ui.paused,
    ensures
        ring_refreshed(ring, ui.paused).pending.len() == 0,
        ring_refreshed(ring, ui.paused).dropped == ring.dropped,
        ring_refreshed(ring, ui.paused).next_seq == ring.next_seq,
        ui.refreshed(ring).refreshed(ring_refreshed(ring, ui.paused)) == ui.refreshed(ring),
{
    let log = ui.refreshed(ring).log;
    assert(log + Seq::<LogEntry>::empty() =~= log);
}

/// Whether an event is a MIDI 2.0 message.
pub open spec fn is_midi2(body: EventBody) -> bool {
    ||| body is NoteOn2
    ||| body is NoteOff2
    ||| body is PolyPressure2
    ||| body is PerNoteCC
    ||| body is PerNotePitchBend
    ||| body is PerNoteManagement
    ||| body is ControlChange2
    ||| body is ChannelPressure2
    ||| body is PitchBend2
    ||| body is ProgramChange2
    ||| body is RegisteredController
    ||| body is AssignableController
}

/// Whether a text ends in another.
pub open spec fn ends_in(text: Seq<char>, end: Seq<char>) -> bool {
    end.len() <= text.len() && text.subrange(text.len() - end.len(), text.len() as int) == end
}

/// The kind of a MIDI 2.0 message, and of no other event, carries the marker.
pub proof fn law_midi2_is_marked(body: EventBody)
    ensures
        is_midi2(body) == ends_in(kind_of(body), "(MIDI 2.0)"@),
{
    reveal_strlit("(MIDI 2.0)");
    reveal_strlit("Note On");
    reveal_strlit("Note Off");
    reveal_strlit("Poly Aftertouch");
    reveal_strlit("Channel Pressure");
    reveal_strlit("Control Change");
    reveal_strlit("Pitch Bend");
    reveal_strlit("Program Change");
    reveal_strlit("Note On (MIDI 2.0)");
    reveal_strlit("Note Off (MIDI 2.0)");
    reveal_strlit("Poly Pressure (MIDI 2.0)");
    reveal_strlit("Per-Note CC (MIDI 2.0)");
    reveal_strlit("Per-Note Bend (MIDI 2.0)");
    reveal_strlit("Per-Note Mgmt (MIDI 2.0)");
    reveal_strlit("Control Change (MIDI 2.0)");
    reveal_strlit("Channel Pressure (MIDI 2.0)");
    reveal_strlit("Pitch Bend (MIDI 2.0)");
    reveal_strlit("Program Change (MIDI 2.0)");
    reveal_strlit("Registered Controller (MIDI 2.0)");
    reveal_strlit("Assignable Controller (MIDI 2.0)");
    reveal_strlit("Param Change");
    reveal_strlit("Param Modulation");
    reveal_strlit("Transport");
    reveal_strlit("SysEx");
    let end = "(MIDI 2.0)"@;
    let kind = kind_of(body);
    if is_midi2(body) {
        assert(kind.subrange(kind.len() - end.len(), kind.len() as int) =~= end);
    } else if end.len() <= kind.len() {
        assert(kind.subrange(kind.len() - end.len(), kind.len() as int).last() == kind.last());
    }
}

/// A MIDI 2.0 message is in the group of the MIDI 1.0 message that it extends.
pub proof fn law_midi2_folds_in(two: EventBody, one: EventBody)
    requires
        ({
            ||| two is NoteOn2 && one is NoteOn
            ||| two is NoteOff2 && one is NoteOff
            ||| two is PolyPressure2 && one is Aftertouch
            ||| two is ControlChange2 && one is ControlChange
            ||| two is PerNoteCC && one is ControlChange
            ||| two is RegisteredController && one is ControlChange
            ||| two is AssignableController && one is ControlChange
            ||| two is ChannelPressure2 && one is ChannelPressure
            ||| two is PitchBend2 && one is PitchBend
            ||| two is PerNotePitchBend && one is PitchBend
            ||| two is ProgramChange2 && one is ProgramChange
        }),
    ensures
        category_of(two) == category_of(one),
{
}

/// Twelve notes up, the name is the same and the octave is the next.
pub proof fn law_octaves(note: u8)
    requires
        note <= 243,
    ensures
        note_text(note) == pitch_class((note % 12) as int) + int_dec(note / 12 - 1),
        note_text((note + 12) as u8) == pitch_class((note % 12) as int) + int_dec(
            (note / 12) as int,
        ),
{
}

/// The dump of nothing is empty.
pub proof fn law_an_empty_dump()
    ensures
        hex_text(Seq::empty()) == Seq::<char>::empty(),
{
}

/// In a hex dump every byte has its two digits in its place, and a space stands
/// between two bytes.
pub proof fn law_hex_dump(bytes: Seq<u8>)
    requires
        bytes.len() > 0,
    ensures
        hex_text(bytes).len() == 3 * bytes.len() - 1,
        forall|i: int|
            #![trigger bytes[i]]
            0 <= i < bytes.len() ==> hex_text(bytes).subrange(3 * i, 3 * i + 2) == hex_byte(
                bytes[i],
            ),
        forall|i: int|
            0 <= i < bytes.len() - 1 ==> #[trigger] hex_text(bytes)[3 * i + 2] == ' ',
{
    lemma_hex_dump_at(bytes, 0);
    assert forall|i: int|
        #![trigger bytes[i]]
        0 <= i < bytes.len() implies hex_text(bytes).subrange(3 * i, 3 * i + 2) == hex_byte(
        bytes[i],
    ) by {
        lemma_hex_dump_at(bytes, i);
    }
    assert forall|i: int| 0 <= i < bytes.len() - 1 implies #[trigger] hex_text(bytes)[3 * i + 2]
        == ' ' by {
        lemma_hex_dump_at(bytes, i);
    }
}

/// The digits of one byte in a hex dump, and the space behind them.
proof fn lemma_hex_dump_at(bytes: Seq<u8>, i: int)
    requires
        0 <= i < bytes.len(),
    ensures
        hex_text(bytes).len() == 3 * bytes.len() - 1,
        hex_text(bytes).subrange(3 * i, 3 * i + 2) == hex_byte(bytes[i]),
        i < bytes.len() - 1 ==> hex_text(bytes)[3 * i + 2] == ' ',
    decreases bytes.len(),
{
    let text = hex_text(bytes);
    if bytes.len() == 1 {
        assert(text.subrange(0, 2) =~= hex_byte(bytes[0]));
    } else {
        let rest = bytes.drop_last();
        let n = rest.len() as int;
        let head = hex_text(rest);
        let last = hex_byte(bytes.last());
        reveal_strlit(" ");
        assert(text == head + " "@ + last);
        if i < n {
            lemma_hex_dump_at(rest, i);
            assert(text.subrange(3 * i, 3 * i + 2) =~= head.subrange(3 * i, 3 * i + 2));
            if i < n - 1 {
                assert(text[3 * i + 2] == head[3 * i + 2]);
            } else {
                assert(text[3 * i + 2] == " "@[0]);
            }
        } else {
            lemma_hex_dump_at(rest, n - 1);
            assert(text.subrange(3 * i, 3 * i + 2) =~= last);
        }
    }
}

} // verus!
