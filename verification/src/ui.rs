//! The editor's state and what it shows.

use crate::interpret::{
    category_of, channel_of, interpret, kind_of, raw_of, summary_of, Category, Interpreted,
};
use crate::ring::{newest, EventRing, LogEntry, RingState};
use crate::text::{
    dec, flush_left, flush_right, push_dec, push_flush_left, push_flush_right,
};
use std::collections::VecDeque;
use vstd::prelude::*;
use vstd::string::*;

verus! {

/// Most rows kept for display; older rows scroll off.
pub const MAX_DISPLAY: usize = 500;

/// The number of categories.
pub const CATEGORIES: usize = 9;

/// What the user asks for.
#[derive(Debug, Clone)]
pub enum Msg {
    /// A category filter checkbox toggled (index into `Category::ALL`).
    SetFilter(usize, bool),
    TogglePause,
    Clear,
}

/// What the editor remembers.
pub struct UiState {
    /// The entries kept for display, oldest first.
    pub log: Seq<LogEntry>,
    /// Per-category visibility, indexed like `Category::ALL`.
    pub filters: Seq<bool>,
    /// When paused, the display freezes.
    pub paused: bool,
}

/// The place of a category in `Category::ALL`.
pub open spec fn position(category: Category) -> int {
    match category {
        Category::Note => 0,
        Category::Cc => 1,
        Category::PitchBend => 2,
        Category::Pressure => 3,
        Category::Program => 4,
        Category::SysEx => 5,
        Category::Param => 6,
        Category::Transport => 7,
        Category::Other => 8,
    }
}

impl UiState {
    /// An editor that was just opened: nothing logged, everything shown.
    pub open spec fn initial() -> UiState {
        UiState {
            log: Seq::empty(),
            filters: Seq::new(CATEGORIES as nat, |i: int| true),
            paused: false,
        }
    }

    /// The log is as short as the display asks for, and every category has a
    /// filter.
    pub open spec fn valid(self) -> bool {
        &&& self.log.len() <= MAX_DISPLAY
        &&& self.filters.len() == CATEGORIES
    }

    /// Whether the filters let a category through.
    pub open spec fn shows(self, category: Category) -> bool {
        self.filters[position(category)]
    }

    /// This editor after a message.
    pub open spec fn updated(self, msg: Msg) -> UiState {
        match msg {
            Msg::SetFilter(i, on) => if i < CATEGORIES {
                UiState { filters: self.filters.update(i as int, on), ..self }
            } else {
                self
            },
            Msg::TogglePause => UiState { paused: !self.paused, ..self },
            Msg::Clear => UiState { log: Seq::empty(), ..self },
        }
    }

    /// This editor after it took in what waits in the ring; a paused one takes
    /// in nothing.
    pub open spec fn refreshed(self, ring: RingState) -> UiState {
        if self.paused {
            self
        } else {
            UiState { log: newest(self.log + ring.pending, MAX_DISPLAY as nat), ..self }
        }
    }

    /// The entries that are shown, newest first.
    pub open spec fn displayed(self) -> Seq<LogEntry> {
        self.log.reverse().filter(|entry: LogEntry| self.shows(category_of(entry.body)))
    }
}

/// The ring after a message to the editor.
pub open spec fn ring_updated(ring: RingState, msg: Msg) -> RingState {
    if msg is Clear { ring.cleared() } else { ring }
}

/// The ring after an editor took in what it wants of it.
pub open spec fn ring_refreshed(ring: RingState, paused: bool) -> RingState {
    if paused { ring } else { ring.drained() }
}

/// The channel column; channels are counted from one.
pub open spec fn channel_text(channel: Option<u8>) -> Seq<char> {
    match channel {
        None => "  -"@,
        Some(c) => "ch"@ + dec(((c + 1) % 256) as nat),
    }
}

/// One line of the log: number, sample offset, channel, kind and summary, in
/// columns.
pub open spec fn line_text(entry: LogEntry) -> Seq<char> {
    flush_right(dec(entry.seq as nat), 6) + " @"@ + flush_left(dec(entry.sample_offset as nat), 5)
        + " "@ + flush_left(channel_text(channel_of(entry.body)), 5) + " "@ + flush_left(
        kind_of(entry.body),
        26,
    ) + " "@ + summary_of(entry)
}

/// How many entries are shown and, where some were lost, how many.
pub open spec fn stats_text(shown: nat, dropped: u64) -> Seq<char> {
    if dropped > 0 {
        dec(shown) + " shown · "@ + dec(dropped as nat) + " dropped"@
    } else {
        dec(shown) + " shown"@
    }
}

/// The bar at the top.
#[derive(Debug)]
pub struct Header {
    pub title: &'static str,
    pub stats: String,
    pub pause: &'static str,
    pub clear: &'static str,
}

/// One filter checkbox.
#[derive(Debug)]
pub struct FilterToggle {
    /// Index into `Category::ALL`.
    pub index: usize,
    pub label: &'static str,
    pub on: bool,
}

/// One row of the log.
#[derive(Debug)]
pub struct Row {
    pub line: String,
    pub raw: String,
}

/// The log as shown.
#[derive(Debug)]
pub enum EventRows {
    /// Nothing was logged yet.
    Waiting(&'static str),
    /// The rows, newest first.
    Rows(Vec<Row>),
}

/// Everything that the editor shows.
#[derive(Debug)]
pub struct Frame {
    pub header: Header,
    pub filters: Vec<FilterToggle>,
    pub rows: EventRows,
}

impl Header {
    /// Whether this is the bar for a given state and count of lost entries.
    pub open spec fn describes(self, state: UiState, dropped: u64) -> bool {
        &&& self.title@ == "MIDI INSPECTOR"@
        &&& self.stats@ == stats_text(state.log.len(), dropped)
        &&& self.pause@ == if state.paused { "Resume"@ } else { "Pause"@ }
        &&& self.clear@ == "Clear"@
    }
}

impl Header {
    /// What the pause button asks for.
    pub fn pause_message(&self) -> (msg: Msg)
        ensures
            msg == Msg::TogglePause,
    {
        Msg::TogglePause
    }

    /// What the clear button asks for.
    pub fn clear_message(&self) -> (msg: Msg)
        ensures
            msg == Msg::Clear,
    {
        Msg::Clear
    }
}

impl FilterToggle {
    /// What the checkbox asks for when it is set to `on`.
    pub fn message(&self, on: bool) -> (msg: Msg)
        ensures
            msg == Msg::SetFilter(self.index, on),
    {
        Msg::SetFilter(self.index, on)
    }
}

/// Whether there is one toggle per category, in order, as the state has it.
pub open spec fn toggles_describe(toggles: Seq<FilterToggle>, state: UiState) -> bool {
    &&& toggles.len() == CATEGORIES
    &&& forall|i: int|
        0 <= i < CATEGORIES ==> (#[trigger] toggles[i]).index == i && toggles[i].label@
            == Category::ALL@[i].1@ && toggles[i].on == state.filters[i]
}

impl Row {
    /// Whether this is the row of an entry.
    pub open spec fn describes(self, entry: LogEntry) -> bool {
        self.line@ == line_text(entry) && self.raw@ == raw_of(entry)
    }
}

impl EventRows {
    /// Whether these are the rows for a given state.
    pub open spec fn describes(self, state: UiState) -> bool {
        match self {
            EventRows::Waiting(text) => {
                &&& state.log.len() == 0
                &&& text@ == "Waiting for MIDI - route MIDI to this plugin."@
            },
            EventRows::Rows(rows) => {
                &&& state.log.len() > 0
                &&& rows@.len() == state.displayed().len()
                &&& forall|i: int|
                    0 <= i < rows@.len() ==> (#[trigger] rows@[i]).describes(state.displayed()[i])
            },
        }
    }
}

impl Frame {
    /// Whether this is what is shown for a given state and count of lost
    /// entries.
    pub open spec fn describes(self, state: UiState, dropped: u64) -> bool {
        &&& self.header.describes(state, dropped)
        &&& toggles_describe(self.filters@, state)
        &&& self.rows.describes(state)
    }
}

/// The editor.
pub struct InspectorUi {
    log: VecDeque<LogEntry>,
    filters: [bool; CATEGORIES],
    paused: bool,
}

/// Formats the channel column.
fn channel_string(channel: Option<u8>) -> (text: String)
    ensures
        text@ == channel_text(channel),
{
    match channel {
        None => "  -".to_owned(),
        Some(c) => {
            let mut text: String = "ch".to_owned();
            push_dec(&mut text, c.wrapping_add(1) as u64);
            text
        },
    }
}

/// Formats one row.
fn row_of(entry: &LogEntry, interpreted: Interpreted) -> (row: Row)
    requires
        interpreted.kind@ == kind_of(entry.body),
        interpreted.channel == channel_of(entry.body),
        interpreted.summary@ == summary_of(*entry),
        interpreted.raw@ == raw_of(*entry),
    ensures
        row.describes(*entry),
{
    let mut seq: String = String::new();
    push_dec(&mut seq, entry.seq);
    assert(seq@ =~= dec(entry.seq as nat));
    let mut offset: String = String::new();
    push_dec(&mut offset, entry.sample_offset as u64);
    assert(offset@ =~= dec(entry.sample_offset as nat));
    let channel: String = channel_string(interpreted.channel);
    let mut line: String = String::new();
    push_flush_right(&mut line, seq.as_str(), 6);
    assert(line@ =~= flush_right(dec(entry.seq as nat), 6));
    line.append(" @");
    push_flush_left(&mut line, offset.as_str(), 5);
    line.append(" ");
    push_flush_left(&mut line, channel.as_str(), 5);
    line.append(" ");
    push_flush_left(&mut line, interpreted.kind, 26);
    line.append(" ");
    line.append(interpreted.summary.as_str());
    Row { line, raw: interpreted.raw }
}

impl InspectorUi {
    /// What the editor remembers.
    pub closed spec fn state(&self) -> UiState {
        UiState { log: self.log@, filters: self.filters@, paused: self.paused }
    }

    /// The log is as short as the display asks for.
    pub open spec fn wf(&self) -> bool {
        self.state().valid()
    }

    pub fn new() -> (ui: Self)
        ensures
            ui.wf(),
            ui.state() == UiState::initial(),
    {
        let ui: InspectorUi = InspectorUi {
            log: VecDeque::with_capacity(MAX_DISPLAY),
            filters: [true; CATEGORIES],
            paused: false,
        };
        assert(ui.state().filters =~= UiState::initial().filters);
        ui
    }

    /// Whether the filters let a category through.
    pub fn shows(&self, category: Category) -> (shown: bool)
        ensures
            shown == self.state().shows(category),
    {
        let all: [(Category, &'static str); 9] = Category::ALL;
        let mut i: usize = 0;
        while i < CATEGORIES
            invariant
                i <= CATEGORIES,
                all == Category::ALL,
                position(category) >= i,
            decreases CATEGORIES - i,
        {
            assert(all@[position(category)].0 == category);
            if all[i].0 == category {
                assert(position(category) == i);
                return self.filters[i];
            }
            i += 1;
        }
        true
    }

    /// Whether there is something new to show.
    pub fn needs_redraw(&self, ring: &EventRing) -> (redraw: bool)
        ensures
            redraw == (!self.state().paused && ring@.pending.len() > 0),
    {
        !self.paused && ring.has_pending()
    }

    /// Takes in a message. A filter index beyond the last is ignored.
    pub fn update(&mut self, msg: Msg, ring: &mut EventRing)
        requires
            old(self).wf(),
            old(ring).wf(),
        ensures
            final(self).wf(),
            final(ring).wf(),
            final(self).state() == old(self).state().updated(msg),
            final(ring)@ == ring_updated(old(ring)@, msg),
            msg is Clear || final(self).state().log == old(self).state().log,
            msg is SetFilter || final(self).state().filters == old(self).state().filters,
            final(self).state().paused == if msg is TogglePause {
                !old(self).state().paused
            } else {
                old(self).state().paused
            },
    {
        match msg {
            Msg::SetFilter(i, on) => {
                if i < CATEGORIES {
                    self.filters[i] = on;
                    assert(self.state().filters =~= old(self).state().filters.update(i as int, on));
                }
            },
            Msg::TogglePause => {
                self.paused = !self.paused;
            },
            Msg::Clear => {
                self.log.clear();
                ring.clear();
            },
        }
    }

    /// Takes in what waits in the ring, unless paused.
    pub fn refresh(&mut self, ring: &mut EventRing)
        requires
            old(self).wf(),
            old(ring).wf(),
        ensures
            final(self).wf(),
            final(ring).wf(),
            final(self).state() == old(self).state().refreshed(old(ring)@),
            final(ring)@ == ring_refreshed(old(ring)@, old(self).state().paused),
            final(self).state().filters == old(self).state().filters,
            final(self).state().paused == old(self).state().paused,
    {
        if !self.paused {
            ring.drain_into(&mut self.log, MAX_DISPLAY);
        }
    }

    /// Takes in what waits in the ring, unless paused, and shows the result.
    pub fn view(&mut self, ring: &mut EventRing) -> (frame: Frame)
        requires
            old(self).wf(),
            old(ring).wf(),
        ensures
            final(self).wf(),
            final(ring).wf(),
            final(self).state() == old(self).state().refreshed(old(ring)@),
            final(ring)@ == ring_refreshed(old(ring)@, old(self).state().paused),
            frame.describes(final(self).state(), final(ring)@.dropped),
            final(self).state().filters == old(self).state().filters,
            final(self).state().paused == old(self).state().paused,
    {
        self.refresh(ring);
        self.frame(ring.dropped())
    }

    /// Everything that is shown, given how many entries were lost.
    pub fn frame(&self, dropped: u64) -> (frame: Frame)
        ensures
            frame.describes(self.state(), dropped),
    {
        Frame {
            header: self.header_bar(dropped),
            filters: self.filter_bar(),
            rows: self.event_list(),
        }
    }

    /// The bar at the top: counts and buttons.
    pub fn header_bar(&self, dropped: u64) -> (header: Header)
        ensures
            header.describes(self.state(), dropped),
    {
        let shown: usize = self.log.len();
        let mut stats: String = String::new();
        push_dec(&mut stats, shown as u64);
        assert(stats@ =~= dec(shown as nat));
        if dropped > 0 {
            stats.append(" shown · ");
            push_dec(&mut stats, dropped);
            stats.append(" dropped");
        } else {
            stats.append(" shown");
        }
        Header {
            title: "MIDI INSPECTOR",
            stats,
            pause: if self.paused { "Resume" } else { "Pause" },
            clear: "Clear",
        }
    }

    /// One checkbox per category.
    pub fn filter_bar(&self) -> (toggles: Vec<FilterToggle>)
        ensures
            toggles_describe(toggles@, self.state()),
    {
        let all: [(Category, &'static str); 9] = Category::ALL;
        let mut toggles: Vec<FilterToggle> = Vec::new();
        let mut i: usize = 0;
        while i < CATEGORIES
            invariant
                i <= CATEGORIES,
                all == Category::ALL,
                toggles@.len() == i,
                forall|j: int|
                    0 <= j < i ==> (#[trigger] toggles@[j]).index == j && toggles@[j].label@
                        == Category::ALL@[j].1@ && toggles@[j].on == self.state().filters[j],
            decreases CATEGORIES - i,
        {
            toggles.push(FilterToggle { index: i, label: all[i].1, on: self.filters[i] });
            i += 1;
        }
        toggles
    }

    /// The log, newest first, without what the filters hide.
    pub fn event_list(&self) -> (list: EventRows)
        ensures
            list.describes(self.state()),
    {
        let len: usize = self.log.len();
        if len == 0 {
            return EventRows::Waiting("Waiting for MIDI - route MIDI to this plugin.");
        }
        let ghost state = self.state();
        let ghost visible = |entry: LogEntry| state.shows(category_of(entry.body));
        let ghost reversed = state.log.reverse();
        let mut rows: Vec<Row> = Vec::new();
        let mut i: usize = 0;
        assert(reversed.take(0).filter(visible) =~= Seq::empty()) by {
            reveal(Seq::filter);
        }
        while i < len
            invariant
                i <= len,
                len == self.log@.len(),
                state == self.state(),
                reversed == state.log.reverse(),
                visible == (|entry: LogEntry| state.shows(category_of(entry.body))),
                rows@.len() == reversed.take(i as int).filter(visible).len(),
                forall|j: int|
                    0 <= j < rows@.len() ==> (#[trigger] rows@[j]).describes(
                        reversed.take(i as int).filter(visible)[j],
                    ),
            decreases len - i,
        {
            let entry: &LogEntry = &self.log[len - 1 - i];
            assert(*entry == reversed[i as int]);
            let interpreted: Interpreted = interpret(entry);
            proof {
                reveal(Seq::filter);
                assert(reversed.take(i + 1).drop_last() =~= reversed.take(i as int));
                assert(reversed.take(i + 1).last() == *entry);
            }
            if self.shows(interpreted.category) {
                rows.push(row_of(entry, interpreted));
            }
            i += 1;
        }
        assert(reversed.take(len as int) =~= reversed);
        EventRows::Rows(rows)
    }
}

} // verus!
