//! The terminal emulator, and what can be read from it.
//!
//! The emulator comes from another crate. It is known here by the steps that it has gone through:
//! what can be read from it afterwards depends on these steps alone.
use crate::grid_sync::{
    Cell, CellStyle, CursorShape, CursorState, FullGridSnapshot, GridDiff, RowChange,
};
use crate::pane::{ClearedPart, EmulatorEvent, HistoryMutationObserver, HistoryOperation};
use alacritty_terminal::event::{Event, EventListener};
use alacritty_terminal::grid::Dimensions;
use alacritty_terminal::index::{Column, Line};
use alacritty_terminal::term::test::TermSize;
use alacritty_terminal::term::{Config, Term, TermDamage};
use alacritty_terminal::vte::ansi::{
    ClearMode, Color, CursorShape as Shape, Handler, PrivateMode, Processor, Rgb,
    StdSyncHandler,
};
use std::sync::{Arc, Mutex};
use vstd::prelude::*;

verus! {

/// `Event` of the emulator's crate: what the emulator reports beside the grid.
#[verifier::external_type_specification]
#[verifier::external_body]
pub struct ExEvent(alacritty_terminal::event::Event);

/// `ClearMode` of the emulator's crate: what a clear-screen sequence clears.
#[verifier::external_type_specification]
#[verifier::external_body]
pub struct ExClearMode(alacritty_terminal::vte::ansi::ClearMode);

/// `PrivateMode` of the emulator's crate: a mode that a sequence sets or resets.
#[verifier::external_type_specification]
#[verifier::external_body]
pub struct ExPrivateMode(alacritty_terminal::vte::ansi::PrivateMode);

/// `Rgb` of the emulator's crate: a colour by its parts.
#[verifier::external_type_specification]
#[verifier::external_body]
pub struct ExRgb(alacritty_terminal::vte::ansi::Rgb);

/// `Mutex` of std.
#[verifier::external_type_specification]
#[verifier::external_body]
#[verifier::reject_recursive_types(T)]
pub struct ExMutex<T: ?Sized>(std::sync::Mutex<T>);

/// Collects what the emulator reports.
struct Listener {
    events: Arc<Mutex<Vec<Event>>>,
}

impl EventListener for Listener {
    /// `Mutex::lock` of std: the event is put behind those that wait.
    #[verifier::external_body]
    fn send_event(&self, event: Event) {
        self.events.lock().unwrap_or_else(|poisoned| poisoned.into_inner()).push(event);
    }
}

/// What a `ClearMode` clears.
pub uninterp spec fn part_of(mode: ClearMode) -> ClearedPart;

/// Tells the variants of `ClearMode` apart.
#[verifier::external_body]
fn cleared_part(mode: ClearMode) -> (part: ClearedPart)
    ensures
        part == part_of(mode),
{
    match mode {
        ClearMode::Below => ClearedPart::Below,
        ClearMode::Above => ClearedPart::Above,
        ClearMode::All => ClearedPart::All,
        ClearMode::Saved => ClearedPart::Saved,
    }
}

/// The number of a `PrivateMode`.
pub uninterp spec fn number_of(mode: PrivateMode) -> u16;

/// `PrivateMode::raw`: the number of a mode.
#[verifier::external_body]
fn mode_number(mode: PrivateMode) -> (number: u16)
    ensures
        number == number_of(mode),
{
    mode.raw()
}

impl Handler for HistoryMutationObserver {
    fn input(&mut self, _c: char)
        ensures
            *final(self) == old(self).observed(HistoryOperation::Input),
    {
        self.observe(HistoryOperation::Input);
    }

    fn linefeed(&mut self)
        ensures
            *final(self) == old(self).observed(HistoryOperation::LineFeed),
    {
        self.observe(HistoryOperation::LineFeed);
    }

    fn newline(&mut self)
        ensures
            *final(self) == old(self).observed(HistoryOperation::NewLine),
    {
        self.observe(HistoryOperation::NewLine);
    }

    fn scroll_up(&mut self, _rows: usize)
        ensures
            *final(self) == old(self).observed(HistoryOperation::ScrollUp),
    {
        self.observe(HistoryOperation::ScrollUp);
    }

    fn scroll_down(&mut self, _rows: usize)
        ensures
            *final(self) == old(self).observed(HistoryOperation::ScrollDown),
    {
        self.observe(HistoryOperation::ScrollDown);
    }

    fn insert_blank_lines(&mut self, _rows: usize)
        ensures
            *final(self) == old(self).observed(HistoryOperation::InsertBlankLines),
    {
        self.observe(HistoryOperation::InsertBlankLines);
    }

    fn delete_lines(&mut self, _rows: usize)
        ensures
            *final(self) == old(self).observed(HistoryOperation::DeleteLines),
    {
        self.observe(HistoryOperation::DeleteLines);
    }

    fn clear_screen(&mut self, mode: ClearMode)
        ensures
            *final(self) == old(self).observed(HistoryOperation::ClearScreen(part_of(mode))),
    {
        self.observe(HistoryOperation::ClearScreen(cleared_part(mode)));
    }

    fn reset_state(&mut self)
        ensures
            *final(self) == old(self).observed(HistoryOperation::ResetState),
    {
        self.observe(HistoryOperation::ResetState);
    }

    fn reverse_index(&mut self)
        ensures
            *final(self) == old(self).observed(HistoryOperation::ReverseIndex),
    {
        self.observe(HistoryOperation::ReverseIndex);
    }

    fn set_color(&mut self, _index: usize, _color: Rgb)
        ensures
            *final(self) == old(self).observed(HistoryOperation::SetColor),
    {
        self.observe(HistoryOperation::SetColor);
    }

    fn reset_color(&mut self, _index: usize)
        ensures
            *final(self) == old(self).observed(HistoryOperation::ResetColor),
    {
        self.observe(HistoryOperation::ResetColor);
    }

    fn decaln(&mut self)
        ensures
            *final(self) == old(self).observed(HistoryOperation::AlignmentTest),
    {
        self.observe(HistoryOperation::AlignmentTest);
    }

    fn set_private_mode(&mut self, mode: PrivateMode)
        ensures
            *final(self) == old(self).observed(
                HistoryOperation::SetPrivateMode { number: number_of(mode) },
            ),
    {
        let number = mode_number(mode);
        self.observe(HistoryOperation::SetPrivateMode { number });
    }

    fn unset_private_mode(&mut self, mode: PrivateMode)
        ensures
            *final(self) == old(self).observed(
                HistoryOperation::UnsetPrivateMode { number: number_of(mode) },
            ),
    {
        let number = mode_number(mode);
        self.observe(HistoryOperation::UnsetPrivateMode { number });
    }
}

/// One thing that was done to an emulator.
pub enum EmulatorStep {
    /// It was made with a size and a limit of its history.
    Open { columns: usize, lines: usize, history: usize },
    /// It parsed bytes.
    Feed(Seq<u8>),
    /// Its second parser took bytes in, for an observer of history.
    Watch(Seq<u8>),
    /// The grid that shows got another limit of its history.
    Limit(usize),
    /// It got another size.
    Resize { columns: usize, lines: usize },
    /// It was configured with another limit of its history.
    Configure { history: usize },
    /// Its damage was read.
    ReadDamage,
    /// Its damage was forgotten.
    ResetDamage,
    /// Its reports were taken.
    TakeEvents,
}

/// A terminal emulator: a grid with its history, the parser that drives it, and a second parser
/// for an observer of history.
#[verifier::external_body]
pub struct Emulator {
    term: Term<Listener>,
    processor: Processor<StdSyncHandler>,
    history_processor: Processor<StdSyncHandler>,
    events: Arc<Mutex<Vec<Event>>>,
}

/// What an emulator has gone through.
pub uninterp spec fn steps(emulator: Emulator) -> Seq<EmulatorStep>;

/// Where the cursor stands after some steps: its line and its column.
pub uninterp spec fn cursor_at(steps: Seq<EmulatorStep>) -> (i32, usize);

/// The mode bits after some steps.
pub uninterp spec fn modes_at(steps: Seq<EmulatorStep>) -> u32;

/// How many rows of history there are after some steps.
pub uninterp spec fn history_at(steps: Seq<EmulatorStep>) -> usize;

/// The look of the cursor after some steps, and whether it blinks.
pub uninterp spec fn cursor_look_at(steps: Seq<EmulatorStep>) -> (CursorLook, bool);

/// How far the view is scrolled back after some steps.
pub uninterp spec fn display_offset_at(steps: Seq<EmulatorStep>) -> usize;

/// The lines that are damaged after some steps; nothing where the whole screen is.
pub uninterp spec fn damage_at(steps: Seq<EmulatorStep>) -> Option<Seq<usize>>;

/// The reports that wait after some steps.
pub uninterp spec fn events_at(steps: Seq<EmulatorStep>) -> Seq<EventView>;

/// What a cell holds after some steps.
pub uninterp spec fn cell_at(steps: Seq<EmulatorStep>, line: i32, column: usize) -> RawCell;

/// The operations that the second parser reports for bytes, taken in after some steps.
pub uninterp spec fn operations_in(steps: Seq<EmulatorStep>, bytes: Seq<u8>) -> Seq<
    HistoryOperation,
>;

/// Shapes of the emulator's cursor.
#[derive(Clone, Copy, Debug, PartialEq, Eq, Structural)]
pub enum CursorLook {
    Block,
    Underline,
    Beam,
    HollowBlock,
    Hidden,
}

/// A colour of a cell.
#[derive(Clone, Copy, Debug, PartialEq, Eq, Structural)]
pub enum CellColor {
    /// A named entry of the palette.
    Named(u32),
    /// A numbered entry of the palette.
    Indexed(u8),
    /// A colour by its parts.
    Direct { red: u8, green: u8, blue: u8 },
}

/// What the emulator holds in one cell.
#[derive(Clone, Copy, Debug, PartialEq, Eq, Structural)]
pub struct RawCell {
    pub character: char,
    pub flags: u16,
    pub foreground: CellColor,
    pub background: CellColor,
}

/// What an [`EmulatorEvent`] says.
pub enum EventView {
    Title(Seq<char>),
    ResetTitle,
    Bell,
    PtyWrite(Seq<char>),
    ClipboardStore(Seq<char>),
    ClipboardLoad,
    Exit,
    ChildExit,
    Other,
}

impl View for EmulatorEvent {
    type V = EventView;

    open spec fn view(&self) -> EventView {
        match *self {
            EmulatorEvent::Title(title) => EventView::Title(title@),
            EmulatorEvent::ResetTitle => EventView::ResetTitle,
            EmulatorEvent::Bell => EventView::Bell,
            EmulatorEvent::PtyWrite(text) => EventView::PtyWrite(text@),
            EmulatorEvent::ClipboardStore(text) => EventView::ClipboardStore(text@),
            EmulatorEvent::ClipboardLoad => EventView::ClipboardLoad,
            EmulatorEvent::Exit => EventView::Exit,
            EmulatorEvent::ChildExit => EventView::ChildExit,
            EmulatorEvent::Other => EventView::Other,
        }
    }
}

/// What a list of events says.
pub open spec fn event_views(events: Seq<EmulatorEvent>) -> Seq<EventView> {
    events.map_values(|event: EmulatorEvent| event@)
}

/// The size after some steps: columns and lines.
pub open spec fn size_after(steps: Seq<EmulatorStep>) -> (usize, usize)
    decreases steps.len(),
{
    if steps.len() == 0 {
        (0, 0)
    } else {
        match steps.last() {
            EmulatorStep::Open { columns, lines, .. } => (columns, lines),
            EmulatorStep::Resize { columns, lines } => (columns, lines),
            _ => size_after(steps.drop_last()),
        }
    }
}

/// The bytes that were parsed in some steps.
pub open spec fn fed_in(steps: Seq<EmulatorStep>) -> Seq<u8>
    decreases steps.len(),
{
    if steps.len() == 0 {
        Seq::empty()
    } else {
        match steps.last() {
            EmulatorStep::Feed(bytes) => fed_in(steps.drop_last()) + bytes,
            _ => fed_in(steps.drop_last()),
        }
    }
}

/// The bytes that an emulator has parsed.
pub open spec fn fed_bytes(emulator: Emulator) -> Seq<u8> {
    fed_in(steps(emulator))
}

/// How many columns a wide character takes.
pub const WIDE_COLUMNS: usize = 2;

/// Whether a grid can have a size.
pub open spec fn size_fits(columns: usize, lines: usize) -> bool {
    1 <= columns <= u16::MAX && 1 <= lines <= u16::MAX
}

/// The least byte that a character from U+1000 on begins with.
pub const FIRST_WIDE_BYTE: u8 = 0xe1;

/// Whether bytes hold no wide character: none below U+1100 is wide.
pub open spec fn is_narrow(bytes: Seq<u8>) -> bool {
    forall|i: int| 0 <= i < bytes.len() ==> #[trigger] bytes[i] < FIRST_WIDE_BYTE
}

/// Whether bytes hold no wide character: none below U+1100 is wide.
pub fn holds_no_wide(bytes: &[u8]) -> (narrow: bool)
    ensures
        narrow == is_narrow(bytes@),
{
    let mut i: usize = 0;
    while i < bytes.len()
        invariant
            i <= bytes@.len(),
            forall|k: int| 0 <= k < i ==> #[trigger] bytes@[k] < FIRST_WIDE_BYTE,
        decreases bytes@.len() - i,
    {
        if bytes[i] >= FIRST_WIDE_BYTE {
            return false;
        }
        i += 1;
    }
    true
}

/// Whether a grid of some columns has room for the characters of bytes: a wide one does not fit
/// into a single column.
pub open spec fn has_room(columns: usize, bytes: Seq<u8>) -> bool {
    columns >= WIDE_COLUMNS || is_narrow(bytes)
}

/// Whether the grid has room for the characters that it was fed, and for those of more bytes.
pub open spec fn takes(steps: Seq<EmulatorStep>, bytes: Seq<u8>) -> bool {
    has_room(size_after(steps).0, fed_in(steps)) && has_room(size_after(steps).0, bytes)
}

/// The most rows of history that a grid may be told to keep: the largest capacity, with the room
/// that it is given while a batch is parsed.
pub const MAX_HISTORY_LIMIT: usize = 100_960;

/// Whether a step sets no limit of history that is too large.
pub open spec fn limit_fits(step: EmulatorStep) -> bool {
    match step {
        EmulatorStep::Open { history, .. } => history <= MAX_HISTORY_LIMIT,
        EmulatorStep::Configure { history } => history <= MAX_HISTORY_LIMIT,
        EmulatorStep::Limit(limit) => limit <= MAX_HISTORY_LIMIT,
        _ => true,
    }
}

/// Whether no step set a limit of history that is too large, for either of the two grids.
pub open spec fn limits_fit(steps: Seq<EmulatorStep>) -> bool {
    forall|i: int| 0 <= i < steps.len() ==> limit_fits(#[trigger] steps[i])
}

/// Whether the grid has a size that it can have, and limits of history that fit it.
pub open spec fn usable(steps: Seq<EmulatorStep>) -> bool {
    size_fits(size_after(steps).0, size_after(steps).1) && limits_fit(steps)
}

/// The mode bit of the alternate screen.
pub const ALT_SCREEN: u32 = 0x1000;

/// The mode bit of bracketed paste.
pub const BRACKETED_PASTE: u32 = 0x10;

/// The mode bit of a cursor that shows.
pub const SHOW_CURSOR: u32 = 0x1;

/// Whether the alternate screen shows.
pub open spec fn alternate_at(steps: Seq<EmulatorStep>) -> bool {
    modes_at(steps) & ALT_SCREEN != 0
}

/// An observer that took operations in.
pub open spec fn after_operations(
    observer: HistoryMutationObserver,
    operations: Seq<HistoryOperation>,
) -> HistoryMutationObserver {
    HistoryMutationObserver {
        may_rotate: observer.may_rotate || exists|i: int|
            0 <= i < operations.len() && (#[trigger] operations[i]).rotates(),
        may_break_addressing: observer.may_break_addressing || exists|i: int|
            0 <= i < operations.len() && (#[trigger] operations[i]).breaks_addressing(),
    }
}

impl Emulator {
    /// `Term::new` and `Processor::new`: an emulator of a size, with a limit of its history. It
    /// has gone through nothing else.
    #[verifier::external_body]
    pub(crate) fn open(columns: usize, lines: usize, history: usize) -> (emulator: Emulator)
        requires
            size_fits(columns, lines),
            history <= MAX_HISTORY_LIMIT,
        ensures
            steps(emulator) == seq![EmulatorStep::Open { columns, lines, history }],
    {
        let events = Arc::new(Mutex::new(Vec::new()));
        let config = Config { scrolling_history: history, ..Config::default() };
        let listener = Listener { events: events.clone() };
        Emulator {
            term: Term::new(config, &TermSize::new(columns, lines), listener),
            processor: Processor::new(),
            history_processor: Processor::new(),
            events,
        }
    }

    /// `Processor::advance` on the terminal: the terminal parses the bytes, all of them. The
    /// emulator cannot put a wide character into a single column.
    #[verifier::external_body]
    pub(crate) fn feed(&mut self, bytes: &[u8])
        requires
            usable(steps(*old(self))),
            takes(steps(*old(self)), bytes@),
        ensures
            steps(*final(self)) == steps(*old(self)).push(EmulatorStep::Feed(bytes@)),
    {
        self.processor.advance(&mut self.term, bytes);
    }

    /// `Processor::advance` on an observer: the second parser takes the bytes in and reports
    /// operations to the observer one by one. The operations depend on the bytes and on what
    /// the parser took in before.
    #[verifier::external_body]
    pub(crate) fn watch(&mut self, observer: &mut HistoryMutationObserver, bytes: &[u8])
        ensures
            steps(*final(self)) == steps(*old(self)).push(EmulatorStep::Watch(bytes@)),
            *final(observer) == after_operations(
                *old(observer),
                operations_in(steps(*old(self)), bytes@),
            ),
    {
        self.history_processor.advance(observer, bytes);
    }

    /// `Grid::update_history` on the grid that shows: it keeps no more rows of history than the
    /// limit.
    #[verifier::external_body]
    pub(crate) fn limit_history(&mut self, limit: usize)
        requires
            limit <= MAX_HISTORY_LIMIT,
        ensures
            steps(*final(self)) == steps(*old(self)).push(EmulatorStep::Limit(limit)),
    {
        self.term.grid_mut().update_history(limit);
    }

    /// `Term::resize`: the grid gets another size. The emulator cannot reflow a wide character
    /// into a single column, and adds the limit of history to the number of lines.
    #[verifier::external_body]
    pub(crate) fn resize(&mut self, columns: usize, lines: usize)
        requires
            usable(steps(*old(self))),
            size_fits(columns, lines),
            has_room(columns, fed_in(steps(*old(self)))),
        ensures
            steps(*final(self)) == steps(*old(self)).push(EmulatorStep::Resize { columns, lines }),
    {
        self.term.resize(TermSize::new(columns, lines));
    }

    /// `Term::set_options`: the primary grid keeps another number of rows of history.
    #[verifier::external_body]
    pub(crate) fn configure(&mut self, history: usize)
        requires
            history <= MAX_HISTORY_LIMIT,
        ensures
            steps(*final(self)) == steps(*old(self)).push(EmulatorStep::Configure { history }),
    {
        self.term.set_options(Config { scrolling_history: history, ..Config::default() });
    }

    /// `Dimensions::columns` of the terminal: only making and resizing it sets them.
    #[verifier::external_body]
    pub(crate) fn columns(&self) -> (columns: usize)
        ensures
            columns == size_after(steps(*self)).0,
    {
        self.term.columns()
    }

    /// `Dimensions::screen_lines` of the terminal: only making and resizing it sets them.
    #[verifier::external_body]
    pub(crate) fn screen_lines(&self) -> (lines: usize)
        ensures
            lines == size_after(steps(*self)).1,
    {
        self.term.screen_lines()
    }

    /// `Dimensions::history_size` of the grid that shows: how many rows of history it has.
    #[verifier::external_body]
    pub(crate) fn history_size(&self) -> (size: usize)
        ensures
            size == history_at(steps(*self)),
    {
        self.term.grid().history_size()
    }

    /// The cursor's point in the grid that shows.
    #[verifier::external_body]
    pub(crate) fn cursor(&self) -> (cursor: (i32, usize))
        ensures
            cursor == cursor_at(steps(*self)),
    {
        let point = self.term.grid().cursor.point;
        (point.line.0, point.column.0)
    }

    /// `Term::mode`: the mode bits.
    #[verifier::external_body]
    pub(crate) fn modes(&self) -> (modes: u32)
        ensures
            modes == modes_at(steps(*self)),
    {
        self.term.mode().bits()
    }

    /// `Term::cursor_style`: the look of the cursor, and whether it blinks.
    #[verifier::external_body]
    pub(crate) fn cursor_look(&self) -> (look: (CursorLook, bool))
        ensures
            look == cursor_look_at(steps(*self)),
    {
        let style = self.term.cursor_style();
        let look = match style.shape {
            Shape::Block => CursorLook::Block,
            Shape::Underline => CursorLook::Underline,
            Shape::Beam => CursorLook::Beam,
            Shape::HollowBlock => CursorLook::HollowBlock,
            Shape::Hidden => CursorLook::Hidden,
        };
        (look, style.blinking)
    }

    /// `Grid::display_offset`: how far the view is scrolled back.
    #[verifier::external_body]
    pub(crate) fn display_offset(&self) -> (offset: usize)
        ensures
            offset == display_offset_at(steps(*self)),
    {
        self.term.grid().display_offset()
    }

    /// `Term::damage`: the damaged lines; nothing where the whole screen is damaged.
    #[verifier::external_body]
    pub(crate) fn damage(&mut self) -> (lines: Option<Vec<usize>>)
        ensures
            steps(*final(self)) == steps(*old(self)).push(EmulatorStep::ReadDamage),
            match lines {
                Some(lines) => damage_at(steps(*old(self))) == Some(lines@),
                None => damage_at(steps(*old(self))) is None,
            },
    {
        match self.term.damage() {
            TermDamage::Full => None,
            TermDamage::Partial(lines) => Some(lines.map(|bounds| bounds.line).collect()),
        }
    }

    /// `Term::reset_damage`: no line is damaged any more.
    #[verifier::external_body]
    pub(crate) fn reset_damage(&mut self)
        ensures
            steps(*final(self)) == steps(*old(self)).push(EmulatorStep::ResetDamage),
    {
        self.term.reset_damage();
    }

    /// `Mutex::lock` and `Vec::drain` of std on what the emulator reported since it was last
    /// asked, in order, with the variants of `Event` told apart.
    #[verifier::external_body]
    pub(crate) fn take_events(&mut self) -> (events: Vec<EmulatorEvent>)
        ensures
            steps(*final(self)) == steps(*old(self)).push(EmulatorStep::TakeEvents),
            event_views(events@) == events_at(steps(*old(self))),
    {
        let told_apart = |event: Event| match event {
            Event::Title(title) => EmulatorEvent::Title(title),
            Event::ResetTitle => EmulatorEvent::ResetTitle,
            Event::Bell => EmulatorEvent::Bell,
            Event::PtyWrite(text) => EmulatorEvent::PtyWrite(text),
            Event::ClipboardStore(_, text) => EmulatorEvent::ClipboardStore(text),
            Event::ClipboardLoad(..) => EmulatorEvent::ClipboardLoad,
            Event::Exit => EmulatorEvent::Exit,
            Event::ChildExit(_) => EmulatorEvent::ChildExit,
            _ => EmulatorEvent::Other,
        };
        let mut held = self.events.lock().unwrap_or_else(|poisoned| poisoned.into_inner());
        held.drain(..).map(told_apart).collect()
    }

    /// A cell of the grid that shows, or of its history above it.
    #[verifier::external_body]
    pub(crate) fn raw_cell(&self, line: i32, column: usize) -> (cell: RawCell)
        requires
            -(history_at(steps(*self)) as int) <= line < size_after(steps(*self)).1,
            column < size_after(steps(*self)).0,
        ensures
            cell == cell_at(steps(*self), line, column),
    {
        let told_apart = |color: Color| match color {
            Color::Named(name) => CellColor::Named(name as u32),
            Color::Indexed(index) => CellColor::Indexed(index),
            Color::Spec(rgb) => CellColor::Direct { red: rgb.r, green: rgb.g, blue: rgb.b },
        };
        let cell = &self.term.grid()[Line(line)][Column(column)];
        let foreground = told_apart(cell.fg);
        let background = told_apart(cell.bg);
        RawCell { character: cell.c, flags: cell.flags.bits(), foreground, background }
    }
}

/// A colour as a number: 0xRRGGBB for a colour by its parts, and an entry of the palette with a
/// mark in the top byte.
pub open spec fn color_code(color: CellColor) -> u32 {
    match color {
        CellColor::Named(number) => if number < 0x0100_0000 {
            (0x0100_0000 + number) as u32
        } else {
            0x01ff_ffff
        },
        CellColor::Indexed(index) => (0x0200_0000 + index) as u32,
        CellColor::Direct { red, green, blue } => (red * 0x1_0000 + green * 0x100 + blue) as u32,
    }
}

/// A colour as a number: 0xRRGGBB for a colour by its parts, and an entry of the palette with a
/// mark in the top byte.
pub fn color_number(color: CellColor) -> (number: u32)
    ensures
        number == color_code(color),
{
    match color {
        CellColor::Named(number) => if number < 0x0100_0000 {
            0x0100_0000 + number
        } else {
            0x01ff_ffff
        },
        CellColor::Indexed(index) => 0x0200_0000 + index as u32,
        CellColor::Direct { red, green, blue } => red as u32 * 0x1_0000 + green as u32 * 0x100
            + blue as u32,
    }
}

/// What clients are shown of a cell.
pub open spec fn shown_cell(cell: RawCell) -> crate::grid_sync::CellView {
    crate::grid_sync::CellView {
        character: seq![cell.character],
        style: CellStyle {
            bold: cell.flags & 0x0002 != 0,
            italic: cell.flags & 0x0004 != 0,
            underline: cell.flags & 0x0008 != 0,
            strikethrough: cell.flags & 0x0200 != 0,
            dim: cell.flags & 0x0080 != 0,
            reverse: cell.flags & 0x0001 != 0,
        },
        foreground: color_code(cell.foreground),
        background: color_code(cell.background),
    }
}

/// What clients are shown of a cell.
pub fn cell_of(cell: RawCell) -> (shown: Cell)
    ensures
        shown@ == shown_cell(cell),
{
    let mut character = String::new();
    character.push(cell.character);
    assert(character@ =~= seq![cell.character]);
    Cell {
        character,
        style: CellStyle {
            bold: cell.flags & 0x0002 != 0,
            italic: cell.flags & 0x0004 != 0,
            underline: cell.flags & 0x0008 != 0,
            strikethrough: cell.flags & 0x0200 != 0,
            dim: cell.flags & 0x0080 != 0,
            reverse: cell.flags & 0x0001 != 0,
        },
        foreground: color_number(cell.foreground),
        background: color_number(cell.background),
    }
}

/// The cells of a line after some steps.
pub open spec fn line_cells(steps: Seq<EmulatorStep>, line: i32) -> Seq<
    crate::grid_sync::CellView,
> {
    Seq::new(
        size_after(steps).0 as nat,
        |column: int| shown_cell(cell_at(steps, line, column as usize)),
    )
}

/// Rows of the screen after some steps, under their numbers; a number off the screen has none.
pub open spec fn rows_shown(steps: Seq<EmulatorStep>, rows: Seq<usize>) -> Seq<
    crate::grid_sync::RowView,
>
    decreases rows.len(),
{
    if rows.len() == 0 {
        Seq::empty()
    } else if rows.last() < size_after(steps).1 {
        rows_shown(steps, rows.drop_last()).push(
            crate::grid_sync::RowView {
                row: rows.last() as u32,
                cells: line_cells(steps, rows.last() as i32),
            },
        )
    } else {
        rows_shown(steps, rows.drop_last())
    }
}

/// The numbers from 0 up to a limit.
pub open spec fn numbers_below(n: usize) -> Seq<usize> {
    Seq::new(n as nat, |i: int| i as usize)
}

/// The numbers from 0 up to a limit.
pub fn count_up(n: usize) -> (numbers: Vec<usize>)
    ensures
        numbers@ == numbers_below(n),
{
    let mut numbers: Vec<usize> = Vec::new();
    let mut i: usize = 0;
    while i < n
        invariant
            i <= n,
            numbers@.len() == i,
            forall|k: int| 0 <= k < i ==> #[trigger] numbers@[k] == k,
        decreases n - i,
    {
        numbers.push(i);
        i += 1;
    }
    assert(numbers@ =~= numbers_below(n));
    numbers
}

/// The whole screen after some steps, row by row.
pub open spec fn screen_shown(steps: Seq<EmulatorStep>) -> Seq<crate::grid_sync::RowView> {
    rows_shown(steps, numbers_below(size_after(steps).1))
}

/// The lines that a batch damaged, given the steps up to its end.
pub open spec fn dirty_at(steps: Seq<EmulatorStep>) -> Seq<usize> {
    match damage_at(steps) {
        Some(lines) => lines,
        None => numbers_below(size_after(steps).1),
    }
}

/// How many rows of history can be read: all of them, unless there are too many to be numbered.
pub open spec fn readable(steps: Seq<EmulatorStep>) -> int {
    if history_at(steps) <= i32::MAX {
        history_at(steps) as int
    } else {
        0
    }
}

/// The rows that a request names in a history of some size, from the first index up to behind the
/// last: for direction 1 they begin at a line and go on towards newer ones, else they end at the
/// line and begin that much before it. A line behind the history counts as its end.
pub open spec fn window(size: int, from_line: int, direction: u32, count: int) -> (int, int) {
    let from = crate::row_addressing::least(from_line, size);
    if direction == 1 {
        (from, crate::row_addressing::least(from + count, size))
    } else {
        let end = crate::row_addressing::least(from + 1, size);
        (
            if end > count {
                end - count
            } else {
                0
            },
            end,
        )
    }
}

/// Rows of history from one index up to another. Index 0 is the oldest row.
pub open spec fn history_shown(steps: Seq<EmulatorStep>, from: int, to: int) -> Seq<
    crate::grid_sync::RowView,
>
    decreases to - from,
{
    if to <= from {
        Seq::empty()
    } else {
        history_shown(steps, from, to - 1).push(
            crate::grid_sync::RowView {
                row: (to - 1) as u32,
                cells: line_cells(steps, (to - 1 - history_at(steps)) as i32),
            },
        )
    }
}

/// As many rows of history are shown as lie between the two indices.
pub proof fn lemma_history_len(steps: Seq<EmulatorStep>, from: int, to: int)
    requires
        from <= to,
    ensures
        history_shown(steps, from, to).len() == to - from,
    decreases to - from,
{
    if from < to {
        lemma_history_len(steps, from, to - 1);
    }
}

/// Reading some rows of history is reading all of them and taking those.
pub proof fn law_rows_are_part_of_the_history(
    steps: Seq<EmulatorStep>,
    first: int,
    last: int,
    size: int,
)
    requires
        0 <= first <= last <= size,
    ensures
        history_shown(steps, first, last) == history_shown(steps, 0, size).subrange(first, last),
    decreases size - first,
{
    lemma_history_len(steps, 0, size);
    lemma_history_len(steps, first, last);
    if last < size {
        law_rows_are_part_of_the_history(steps, first, last, size - 1);
        lemma_history_len(steps, 0, size - 1);
        assert(history_shown(steps, 0, size).subrange(first, last) =~= history_shown(
            steps,
            0,
            size - 1,
        ).subrange(first, last));
    } else if first < last {
        law_rows_are_part_of_the_history(steps, first, last - 1, size - 1);
        lemma_history_len(steps, 0, size - 1);
        assert(history_shown(steps, first, last) =~= history_shown(steps, 0, size).subrange(
            first,
            last,
        ));
    } else {
        assert(history_shown(steps, first, last) =~= history_shown(steps, 0, size).subrange(
            first,
            last,
        ));
    }
}

/// A window on the history holds the rows that a buffer of the whole history hands out for the
/// same request, where the line is one of it.
pub proof fn law_window_is_what_a_buffer_hands_out(
    steps: Seq<EmulatorStep>,
    size: int,
    from_line: int,
    direction: u32,
    count: int,
)
    requires
        0 <= from_line < size,
        0 <= count,
        direction <= 1,
    ensures
        ({
            let (first, last) = window(size, from_line, direction, count);
            history_shown(steps, first, last) == crate::grid_sync::fetched(
                history_shown(steps, 0, size),
                from_line,
                count,
                direction,
            )
        }),
{
    let (first, last) = window(size, from_line, direction, count);
    lemma_history_len(steps, 0, size);
    law_rows_are_part_of_the_history(steps, first, last, size);
}

/// A window lies within the history, and holds no more rows than were asked for.
pub proof fn law_window_fits(size: int, from_line: int, direction: u32, count: int)
    requires
        0 <= size,
        0 <= from_line,
        0 <= count,
    ensures
        ({
            let (first, last) = window(size, from_line, direction, count);
            0 <= first <= last <= size && last - first <= count
        }),
{
}

/// The look of a cursor for clients.
pub open spec fn client_shape(look: CursorLook) -> CursorShape {
    match look {
        CursorLook::Beam => CursorShape::Bar,
        CursorLook::Underline => CursorShape::Underline,
        _ => CursorShape::Block,
    }
}

/// The cells of the first lines, row by row.
pub open spec fn cells_above(steps: Seq<EmulatorStep>, lines: nat) -> Seq<
    crate::grid_sync::CellView,
>
    decreases lines,
{
    if lines == 0 {
        Seq::empty()
    } else {
        cells_above(steps, (lines - 1) as nat) + line_cells(steps, (lines - 1) as i32)
    }
}

impl Emulator {
    /// An emulator of a size, with a limit of its history.
    pub fn new(columns: usize, lines: usize, history: usize) -> (emulator: Emulator)
        requires
            size_fits(columns, lines),
            history <= MAX_HISTORY_LIMIT,
        ensures
            steps(emulator) == seq![EmulatorStep::Open { columns, lines, history }],
            usable(steps(emulator)),
            fed_bytes(emulator) == Seq::<u8>::empty(),
    {
        proof {
            let opened = seq![EmulatorStep::Open { columns, lines, history }];
            assert(opened.drop_last() =~= Seq::<EmulatorStep>::empty());
            assert(fed_in(opened) == fed_in(opened.drop_last()));
        }
        Emulator::open(columns, lines, history)
    }

    /// Whether the view is scrolled back.
    pub fn is_scrolled(&self) -> (scrolled: bool)
        ensures
            scrolled == (display_offset_at(steps(*self)) != 0),
    {
        self.display_offset() != 0
    }

    /// The mode bits.
    pub fn mode_bits(&self) -> (modes: u32)
        ensures
            modes == modes_at(steps(*self)),
    {
        self.modes()
    }

    /// Whether the alternate screen shows.
    pub fn shows_alternate(&self) -> (shows: bool)
        ensures
            shows == alternate_at(steps(*self)),
    {
        self.modes() & ALT_SCREEN != 0
    }

    /// A line as a row under a number. Lines of history count down from -1.
    fn row(&self, row: u32, line: i32) -> (change: RowChange)
        requires
            -(history_at(steps(*self)) as int) <= line < size_after(steps(*self)).1,
        ensures
            change@ == (crate::grid_sync::RowView { row, cells: line_cells(steps(*self), line) }),
    {
        let cells = self.cells_of(line);
        RowChange { row, cells }
    }

    /// How many rows of history can be read.
    pub fn readable_rows(&self) -> (rows: u32)
        ensures
            rows == readable(steps(*self)),
    {
        let size = self.history_size();
        if size <= i32::MAX as usize {
            size as u32
        } else {
            0
        }
    }

    /// The rows of history from one index up to another.
    fn history(&self, from: u32, to: u32) -> (rows: Vec<RowChange>)
        requires
            from <= to <= readable(steps(*self)),
        ensures
            crate::grid_sync::row_views(rows@) == history_shown(
                steps(*self),
                from as int,
                to as int,
            ),
    {
        let size = self.history_size();
        let mut rows: Vec<RowChange> = Vec::new();
        let mut index: u32 = from;
        assert(crate::grid_sync::row_views(rows@) =~= history_shown(
            steps(*self),
            from as int,
            from as int,
        ));
        while index < to
            invariant
                size == history_at(steps(*self)),
                from <= index <= to <= readable(steps(*self)),
                crate::grid_sync::row_views(rows@) == history_shown(
                    steps(*self),
                    from as int,
                    index as int,
                ),
            decreases to - index,
        {
            let ghost before = rows@;
            let row = self.row(index, index as i32 - size as i32);
            rows.push(row);
            assert(crate::grid_sync::row_views(rows@) =~= crate::grid_sync::row_views(before).push(
                row@,
            ));
            index += 1;
        }
        rows
    }

    /// All rows of history, the oldest first.
    pub fn whole_history(&self) -> (rows: Vec<RowChange>)
        ensures
            crate::grid_sync::row_views(rows@) == history_shown(
                steps(*self),
                0,
                readable(steps(*self)),
            ),
    {
        self.history(0, self.readable_rows())
    }

    /// The rows of history that a request names, the oldest first, and how many rows there are.
    /// For direction 1 the rows begin at a line and go on towards newer ones, else they end at it.
    pub fn scrollback_window(&self, from_line: u32, direction: u32, count: u32) -> (read: (
        Vec<RowChange>,
        u32,
    ))
        ensures
            read.1 == readable(steps(*self)),
            ({
                let (first, last) = window(
                    readable(steps(*self)),
                    from_line as int,
                    direction,
                    count as int,
                );
                crate::grid_sync::row_views(read.0@) == history_shown(steps(*self), first, last)
            }),
    {
        let size = self.readable_rows();
        let from: u32 = if from_line <= size {
            from_line
        } else {
            size
        };
        let (first, last): (u32, u32) = if direction == 1 {
            (
                from,
                if count <= size - from {
                    from + count
                } else {
                    size
                },
            )
        } else {
            let end: u32 = if from < size {
                from + 1
            } else {
                size
            };
            (end.saturating_sub(count), end)
        };
        (self.history(first, last), size)
    }

    /// How many rows of history there are.
    pub fn history_rows(&self) -> (rows: usize)
        ensures
            rows == history_at(steps(*self)),
    {
        self.history_size()
    }

    /// The cells of a line.
    fn cells_of(&self, line: i32) -> (cells: Vec<Cell>)
        requires
            -(history_at(steps(*self)) as int) <= line < size_after(steps(*self)).1,
        ensures
            crate::grid_sync::cell_views(cells@) == line_cells(steps(*self), line),
    {
        let columns = self.columns();
        let mut cells: Vec<Cell> = Vec::new();
        let mut column: usize = 0;
        while column < columns
            invariant
                -(history_at(steps(*self)) as int) <= line < size_after(steps(*self)).1,
                columns == size_after(steps(*self)).0,
                column <= columns,
                cells@.len() == column,
                forall|k: int|
                    0 <= k < column ==> (#[trigger] cells@[k])@ == shown_cell(
                        cell_at(steps(*self), line, k as usize),
                    ),
            decreases columns - column,
        {
            cells.push(cell_of(self.raw_cell(line, column)));
            column += 1;
        }
        assert(crate::grid_sync::cell_views(cells@) =~= line_cells(steps(*self), line));
        cells
    }

    /// Rows of the screen under their numbers; a number off the screen has none.
    pub fn diff_of(&self, rows: &Vec<usize>) -> (diff: GridDiff)
        requires
            usable(steps(*self)),
        ensures
            diff@ == rows_shown(steps(*self), rows@),
    {
        let lines = self.screen_lines();
        let mut shown: Vec<RowChange> = Vec::new();
        let mut i: usize = 0;
        assert(rows@.take(0) =~= Seq::<usize>::empty());
        assert(crate::grid_sync::row_views(shown@) =~= rows_shown(steps(*self), rows@.take(0)));
        while i < rows.len()
            invariant
                usable(steps(*self)),
                lines == size_after(steps(*self)).1,
                i <= rows@.len(),
                crate::grid_sync::row_views(shown@) == rows_shown(
                    steps(*self),
                    rows@.take(i as int),
                ),
            decreases rows@.len() - i,
        {
            assert(rows@.take(i + 1).drop_last() =~= rows@.take(i as int));
            assert(rows@.take(i + 1).last() == rows@[i as int]);
            if rows[i] < lines {
                let ghost before = shown@;
                let row = self.row(rows[i] as u32, rows[i] as i32);
                shown.push(row);
                assert(crate::grid_sync::row_views(shown@) =~= crate::grid_sync::row_views(
                    before,
                ).push(row@));
            }
            i += 1;
        }
        assert(rows@.take(i as int) =~= rows@);
        GridDiff { rows: shown }
    }

    /// The whole screen, row by row.
    pub fn whole_diff(&self) -> (diff: GridDiff)
        requires
            usable(steps(*self)),
        ensures
            diff@ == screen_shown(steps(*self)),
    {
        self.diff_of(&count_up(self.screen_lines()))
    }

    /// The lines that were damaged since this was last asked; all of them where the whole screen
    /// was.
    pub(crate) fn collect_dirty_rows(&mut self) -> (rows: Vec<usize>)
        ensures
            rows@ == dirty_at(steps(*old(self))),
            steps(*final(self)) == steps(*old(self)).push(EmulatorStep::ReadDamage).push(
                EmulatorStep::ResetDamage,
            ),
    {
        let lines = self.screen_lines();
        let rows = match self.damage() {
            Some(lines) => lines,
            None => count_up(lines),
        };
        self.reset_damage();
        rows
    }

    /// The whole grid, with the version of the history that belongs to it.
    pub fn snapshot(&self, history_version: u64) -> (snapshot: FullGridSnapshot)
        requires
            usable(steps(*self)),
        ensures
            ({
                let now = steps(*self);
                &&& snapshot.cols == size_after(now).0
                &&& snapshot.rows == size_after(now).1
                &&& crate::grid_sync::cell_views(snapshot.cells@) == cells_above(
                    now,
                    size_after(now).1 as nat,
                )
                &&& snapshot.cursor == (CursorState {
                    col: crate::marker_walk::column_number(cursor_at(now).1 as int),
                    row: crate::pane::line_offset(cursor_at(now).0) as u32,
                    style: client_shape(cursor_look_at(now).0),
                    visible: modes_at(now) & SHOW_CURSOR != 0,
                })
                &&& snapshot.alternate_screen == alternate_at(now)
                &&& snapshot.history_version == history_version
            }),
    {
        let lines = self.screen_lines();
        let mut cells: Vec<Cell> = Vec::new();
        let mut line: usize = 0;
        assert(crate::grid_sync::cell_views(cells@) =~= cells_above(steps(*self), 0));
        while line < lines
            invariant
                usable(steps(*self)),
                lines == size_after(steps(*self)).1,
                line <= lines,
                crate::grid_sync::cell_views(cells@) == cells_above(steps(*self), line as nat),
            decreases lines - line,
        {
            let mut more = self.cells_of(line as i32);
            let ghost before = cells@;
            let ghost added = more@;
            cells.append(&mut more);
            assert(crate::grid_sync::cell_views(cells@) =~= crate::grid_sync::cell_views(before)
                + crate::grid_sync::cell_views(added));
            line += 1;
        }
        let (row, column) = self.cursor();
        let (look, _) = self.cursor_look();
        FullGridSnapshot {
            cols: self.columns() as u32,
            rows: lines as u32,
            cells,
            cursor: CursorState {
                col: crate::marker_walk::clamp_column(column),
                row: if row >= 0 {
                    row as u32
                } else {
                    0
                },
                style: match look {
                    CursorLook::Beam => CursorShape::Bar,
                    CursorLook::Underline => CursorShape::Underline,
                    _ => CursorShape::Block,
                },
                visible: self.modes() & SHOW_CURSOR != 0,
            },
            alternate_screen: self.shows_alternate(),
            history_version,
        }
    }
}

/// Only making and resizing an emulator sets its size, and only feeding it feeds it.
pub proof fn lemma_step(steps: Seq<EmulatorStep>, step: EmulatorStep)
    ensures
        !(step is Open) && !(step is Resize) ==> size_after(steps.push(step)) == size_after(steps),
        step matches EmulatorStep::Resize { columns, lines } ==> size_after(steps.push(step)) == (
            columns,
            lines,
        ),
        step matches EmulatorStep::Feed(bytes) ==> fed_in(steps.push(step)) == fed_in(steps)
            + bytes,
        !(step is Feed) ==> fed_in(steps.push(step)) == fed_in(steps),
        limits_fit(steps) && limit_fits(step) ==> limits_fit(steps.push(step)),
{
    assert(steps.push(step).drop_last() =~= steps);
}

/// A colour by its parts keeps them apart: sixteen bits up stands the red, eight bits up the green,
/// and last the blue. An entry of the palette and a named colour have a mark above them, one of
/// their own each, so that none is taken for another.
pub proof fn law_colours_are_told_apart(red: u8, green: u8, blue: u8, index: u8, name: u32)
    ensures
        ({
            let direct = color_code(CellColor::Direct { red, green, blue });
            &&& direct / 65536 == red
            &&& direct / 256 % 256 == green
            &&& direct % 256 == blue
        }),
        color_code(CellColor::Indexed(index)) == 33_554_432 + index,
        name < 16_777_216 ==> color_code(CellColor::Named(name)) == 16_777_216 + name,
        color_code(CellColor::Named(name)) / 16_777_216 == 1,
{
}

/// A cell is shown with its character, its colours in front and behind, and each of the styles that
/// its flags say.
pub proof fn law_cell_is_shown_with_its_style(cell: RawCell)
    ensures
        shown_cell(cell).character == seq![cell.character],
        shown_cell(cell).foreground == color_code(cell.foreground),
        shown_cell(cell).background == color_code(cell.background),
        shown_cell(cell).style.reverse <==> cell.flags & 1 != 0,
        shown_cell(cell).style.bold <==> cell.flags & 2 != 0,
        shown_cell(cell).style.italic <==> cell.flags & 4 != 0,
        shown_cell(cell).style.underline <==> cell.flags & 8 != 0,
        shown_cell(cell).style.dim <==> cell.flags & 128 != 0,
        shown_cell(cell).style.strikethrough <==> cell.flags & 512 != 0,
{
}

/// A diff of rows names each row of the screen that was asked for, in order, with the cells of that
/// line from the first column to the last; a row below the screen is left out.
pub proof fn law_diff_shows_the_rows_asked_for(
    steps: Seq<EmulatorStep>,
    rows: Seq<usize>,
    row: usize,
    column: int,
)
    requires
        size_after(steps).1 <= u16::MAX,
        0 <= column < size_after(steps).0,
    ensures
        rows_shown(steps, Seq::empty()).len() == 0,
        ({
            let before = rows_shown(steps, rows);
            let after = rows_shown(steps, rows.push(row));
            &&& row >= size_after(steps).1 ==> after == before
            &&& row < size_after(steps).1 ==> {
                &&& after.len() == before.len() + 1
                &&& after.drop_last() == before
                &&& after.last().row == row
                &&& after.last().cells.len() == size_after(steps).0
                &&& after.last().cells[column] == shown_cell(
                    cell_at(steps, row as i32, column as usize),
                )
            }
        }),
{
    assert(rows.push(row).drop_last() =~= rows);
    if row < size_after(steps).1 {
        assert(rows_shown(steps, rows.push(row)).drop_last() =~= rows_shown(steps, rows));
    }
}

proof fn lemma_rows_below(steps: Seq<EmulatorStep>, n: nat)
    requires
        n <= size_after(steps).1 <= u16::MAX,
    ensures
        rows_shown(steps, numbers_below(n as usize)).len() == n,
        forall|row: int|
            0 <= row < n ==> #[trigger] rows_shown(steps, numbers_below(n as usize))[row]
                == (crate::grid_sync::RowView {
                row: row as u32,
                cells: line_cells(steps, row as i32),
            }),
    decreases n,
{
    if n > 0 {
        lemma_rows_below(steps, (n - 1) as nat);
        assert(numbers_below(n as usize).drop_last() =~= numbers_below((n - 1) as usize));
    }
}

/// The whole screen has every line once, from the top.
pub proof fn law_screen_has_every_line(steps: Seq<EmulatorStep>, row: int)
    requires
        0 <= row < size_after(steps).1 <= u16::MAX,
    ensures
        screen_shown(steps).len() == size_after(steps).1,
        screen_shown(steps)[row] == (crate::grid_sync::RowView {
            row: row as u32,
            cells: line_cells(steps, row as i32),
        }),
        damage_at(steps) is None ==> dirty_at(steps).len() == size_after(steps).1 && dirty_at(
            steps,
        )[row] == row,
        damage_at(steps) matches Some(lines) ==> dirty_at(steps) == lines,
{
    lemma_rows_below(steps, size_after(steps).1 as nat);
}

/// A row of history stands that many lines above the screen as it is away from the end, under its
/// number from the oldest.
pub proof fn law_history_row_is_above_the_screen(
    steps: Seq<EmulatorStep>,
    from: int,
    to: int,
    at: int,
    column: int,
)
    requires
        0 <= from <= at < to <= history_at(steps) <= i32::MAX,
        0 <= column < size_after(steps).0,
    ensures
        history_shown(steps, from, to).len() == to - from,
        history_shown(steps, from, to)[at - from].row == at,
        history_shown(steps, from, to)[at - from].cells.len() == size_after(steps).0,
        history_shown(steps, from, to)[at - from].cells[column] == shown_cell(
            cell_at(steps, (at - history_at(steps)) as i32, column as usize),
        ),
    decreases to,
{
    lemma_history_len(steps, from, to);
    lemma_history_len(steps, from, to - 1);
    if at < to - 1 {
        law_history_row_is_above_the_screen(steps, from, to - 1, at, column);
    }
}

/// The cells of a snapshot are those of its lines one after the other.
pub proof fn law_snapshot_holds_the_lines(steps: Seq<EmulatorStep>, lines: nat, line: int, column: int)
    requires
        lines <= u16::MAX,
        0 <= line < lines,
        0 <= column < size_after(steps).0,
    ensures
        cells_above(steps, lines).len() == lines * size_after(steps).0,
        0 <= line * size_after(steps).0 + column < cells_above(steps, lines).len(),
        cells_above(steps, lines)[line * size_after(steps).0 + column] == shown_cell(
            cell_at(steps, line as i32, column as usize),
        ),
    decreases lines,
{
    let cols = size_after(steps).0 as int;
    let fewer = (lines - 1) as nat;
    lemma_cells_above_len(steps, lines);
    lemma_cells_above_len(steps, fewer);
    assert(lines * cols == fewer * cols + cols) by (nonlinear_arith)
        requires
            lines == fewer + 1,
    ;
    if line < fewer {
        law_snapshot_holds_the_lines(steps, fewer, line, column);
    }
}

proof fn lemma_cells_above_len(steps: Seq<EmulatorStep>, lines: nat)
    ensures
        cells_above(steps, lines).len() == lines * size_after(steps).0,
    decreases lines,
{
    let cols = size_after(steps).0 as int;
    if lines == 0 {
        assert(lines * cols == 0) by (nonlinear_arith)
            requires
                lines == 0,
        ;
    } else {
        let fewer = (lines - 1) as nat;
        lemma_cells_above_len(steps, fewer);
        assert(lines * cols == fewer * cols + cols) by (nonlinear_arith)
            requires
                lines == fewer + 1,
        ;
    }
}

/// A beam is shown as a bar and an underline as one; any other cursor is a block.
pub proof fn law_cursor_keeps_its_shape(look: CursorLook)
    ensures
        client_shape(look) is Bar <==> look is Beam,
        client_shape(look) is Underline <==> look is Underline,
        client_shape(look) is Block <==> !(look is Beam || look is Underline),
{
}

/// An observer takes operations in one by one.
pub proof fn law_observer_takes_each_operation(
    observer: HistoryMutationObserver,
    operations: Seq<HistoryOperation>,
    operation: HistoryOperation,
)
    ensures
        after_operations(observer, Seq::empty()) == observer,
        after_operations(observer, operations.push(operation)) == after_operations(
            observer,
            operations,
        ).observed(operation),
{
    let more = operations.push(operation);
    assert(more[operations.len() as int] == operation);
    assert forall|i: int| 0 <= i < operations.len() implies #[trigger] more[i]
        == operations[i] by {}
    if exists|i: int| 0 <= i < operations.len() && (#[trigger] operations[i]).rotates() {
        let i = choose|i: int| 0 <= i < operations.len() && (#[trigger] operations[i]).rotates();
        assert(more[i].rotates());
    }
    if exists|i: int| 0 <= i < operations.len() && (#[trigger] operations[i]).breaks_addressing() {
        let i = choose|i: int|
            0 <= i < operations.len() && (#[trigger] operations[i]).breaks_addressing();
        assert(more[i].breaks_addressing());
    }
    if exists|i: int| 0 <= i < more.len() && (#[trigger] more[i]).rotates() {
        let i = choose|i: int| 0 <= i < more.len() && (#[trigger] more[i]).rotates();
        if i < operations.len() {
            assert(operations[i].rotates());
        }
    }
    if exists|i: int| 0 <= i < more.len() && (#[trigger] more[i]).breaks_addressing() {
        let i = choose|i: int| 0 <= i < more.len() && (#[trigger] more[i]).breaks_addressing();
        if i < operations.len() {
            assert(operations[i].breaks_addressing());
        }
    }
    assert(after_operations(observer, Seq::empty()) =~= observer);
}

/// A request towards newer rows begins at its line, one towards older rows ends there; both have as
/// many rows as were asked for, or as there are.
pub proof fn law_window_stands_at_the_line(size: int, from_line: int, count: int)
    requires
        0 <= from_line < size,
        0 <= count,
    ensures
        window(size, from_line, 1, count).0 == from_line,
        window(size, from_line, 1, count).1 == (if from_line + count <= size {
            from_line + count
        } else {
            size
        }),
        window(size, from_line, 0, count).1 == from_line + 1,
        window(size, from_line, 0, count).0 == (if count <= from_line + 1 {
            from_line + 1 - count
        } else {
            0
        }),
{
}

/// The alternate screen, the cursor and bracketed pasting each go by their own bit of the modes.
pub proof fn law_modes_go_by_their_bits(steps: Seq<EmulatorStep>)
    ensures
        alternate_at(steps) <==> modes_at(steps) & 0x1000u32 != 0,
        SHOW_CURSOR == 1u32,
        BRACKETED_PASTE == 0x10u32,
{
}

} // verus!
