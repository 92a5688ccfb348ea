//! Incremental scanner for the OSC sequences that a pane consumes itself: OSC 7
//! (working directory) and OSC 133 (shell markers).
//!
//! The scanner keeps its state across reads, because a terminal splits sequences at
//! arbitrary byte boundaries.
use crate::text::{chars_of, parse_i32, trim, utf8_text};
use vstd::prelude::*;
use vstd::utf8::*;

verus! {

/// The four semantic markers OSC 133 defines for one shell command.
#[derive(Clone, Copy, Debug, PartialEq, Eq, Structural)]
pub enum ShellMarkerKind {
    /// `A`: the shell is about to draw a prompt.
    PromptStart,
    /// `B`: the prompt ended; the typed command line starts here.
    CommandStart,
    /// `C`: the command line ended; command output starts here.
    OutputStart,
    /// `D`: the command finished, optionally carrying its exit status.
    CommandEnd,
}

impl ShellMarkerKind {
    /// The marker that a letter names.
    pub open spec fn of_byte(byte: u8) -> Option<ShellMarkerKind> {
        if byte == 0x41 {
            Some(ShellMarkerKind::PromptStart)
        } else if byte == 0x42 {
            Some(ShellMarkerKind::CommandStart)
        } else if byte == 0x43 {
            Some(ShellMarkerKind::OutputStart)
        } else if byte == 0x44 {
            Some(ShellMarkerKind::CommandEnd)
        } else {
            None
        }
    }

    /// The marker that a letter (`A` to `D`) names.
    pub fn from_byte(byte: u8) -> (kind: Option<Self>)
        ensures
            kind == Self::of_byte(byte),
    {
        match byte {
            0x41 => Some(Self::PromptStart),
            0x42 => Some(Self::CommandStart),
            0x43 => Some(Self::OutputStart),
            0x44 => Some(Self::CommandEnd),
            _ => None,
        }
    }
}

/// One OSC sequence that the pane consumes itself.
#[derive(Debug)]
pub enum OscEvent {
    /// OSC 7 payload, the raw `file://HOST/PATH` URI.
    Cwd(String),
    /// OSC 133 marker plus the batch offset just past its terminator. The emulator
    /// must be advanced exactly that far before the cursor is read.
    ShellMarker { kind: ShellMarkerKind, exit_code: Option<i32>, end_offset: usize },
}

/// What an [`OscEvent`] says.
pub enum OscEventView {
    Cwd(Seq<char>),
    ShellMarker { kind: ShellMarkerKind, exit_code: Option<i32>, end_offset: int },
}

impl View for OscEvent {
    type V = OscEventView;

    open spec fn view(&self) -> OscEventView {
        match *self {
            OscEvent::Cwd(uri) => OscEventView::Cwd(uri@),
            OscEvent::ShellMarker { kind, exit_code, end_offset } => OscEventView::ShellMarker {
                kind,
                exit_code,
                end_offset: end_offset as int,
            },
        }
    }
}

impl OscEventView {
    /// The same event in a batch that starts `by` bytes earlier.
    pub open spec fn shifted(self, by: int) -> OscEventView {
        match self {
            OscEventView::Cwd(uri) => OscEventView::Cwd(uri),
            OscEventView::ShellMarker { kind, exit_code, end_offset } => OscEventView::ShellMarker {
                kind,
                exit_code,
                end_offset: end_offset + by,
            },
        }
    }
}

/// What a list of events says.
pub open spec fn event_views(events: Seq<OscEvent>) -> Seq<OscEventView> {
    events.map_values(|e: OscEvent| e@)
}

/// Payload bytes kept for one OSC. Long enough for any real path; a longer payload is
/// dropped rather than buffered.
pub const MAX_OSC_PAYLOAD: usize = 4096;

/// Digits that the number of an OSC may have.
pub const MAX_OSC_NUMBER_DIGITS: u32 = 5;

/// Where the scanner stands in a sequence.
#[derive(Clone, Copy, Debug, PartialEq, Eq, Structural)]
pub enum OscScanState {
    Ground,
    Escape,
    Number,
    Payload,
    PayloadEscape,
    Skip,
    SkipEscape,
}

/// Scanner state that survives from one read to the next.
pub struct OscScanner {
    pub state: OscScanState,
    pub number: u32,
    pub digits: u32,
    pub payload: Vec<u8>,
    pub overflowed: bool,
}

/// What an [`OscScanner`] has seen of the current sequence.
#[verifier::ext_equal]
pub struct OscModel {
    pub state: OscScanState,
    pub number: nat,
    pub digits: nat,
    pub payload: Seq<u8>,
    pub overflowed: bool,
}

impl View for OscScanner {
    type V = OscModel;

    open spec fn view(&self) -> OscModel {
        OscModel {
            state: self.state,
            number: self.number as nat,
            digits: self.digits as nat,
            payload: self.payload@,
            overflowed: self.overflowed,
        }
    }
}

/// The smallest number that needs more than `digits` digits.
pub open spec fn number_bound(digits: nat) -> nat {
    if digits == 0 {
        1
    } else if digits == 1 {
        10
    } else if digits == 2 {
        100
    } else if digits == 3 {
        1000
    } else if digits == 4 {
        10000
    } else {
        100000
    }
}

impl OscModel {
    /// Nothing seen yet.
    pub open spec fn start() -> OscModel {
        OscModel {
            state: OscScanState::Ground,
            number: 0,
            digits: 0,
            payload: Seq::empty(),
            overflowed: false,
        }
    }

    /// The number fits its digits, and no more payload is held than is kept.
    pub open spec fn wf(self) -> bool {
        &&& self.number < number_bound(self.digits)
        &&& self.digits <= MAX_OSC_NUMBER_DIGITS + 1
        &&& self.state == OscScanState::Number ==> self.digits <= MAX_OSC_NUMBER_DIGITS
        &&& self.payload.len() <= MAX_OSC_PAYLOAD
    }

    /// The sequence in hand is given up.
    pub open spec fn aborted(self) -> OscModel {
        OscModel {
            state: OscScanState::Ground,
            payload: Seq::empty(),
            overflowed: false,
            ..self
        }
    }

    /// Only the place in the sequence changes.
    pub open spec fn at(self, state: OscScanState) -> OscModel {
        OscModel { state, ..self }
    }

    /// The byte after an ESC.
    pub open spec fn after_escape(self, byte: u8) -> OscModel {
        if byte == 0x5d {
            OscModel {
                state: OscScanState::Number,
                number: 0,
                digits: 0,
                payload: Seq::empty(),
                overflowed: false,
            }
        } else if byte == 0x1b {
            self.at(OscScanState::Escape)
        } else {
            self.at(OscScanState::Ground)
        }
    }

    /// What a terminated sequence reports, `end` bytes into the batch.
    pub open spec fn reported(self, end: int) -> Seq<OscEventView> {
        if self.overflowed {
            seq![]
        } else if self.number == 7 {
            if valid_utf8(self.payload) {
                seq![OscEventView::Cwd(decode_utf8(self.payload))]
            } else {
                seq![]
            }
        } else if self.number == 133 {
            match osc133(self.payload) {
                Some((kind, exit_code)) => seq![
                    OscEventView::ShellMarker { kind, exit_code, end_offset: end },
                ],
                None => seq![],
            }
        } else {
            seq![]
        }
    }

    /// The state after one more byte.
    pub open spec fn stepped(self, byte: u8) -> OscModel {
        match self.state {
            OscScanState::Ground => if byte == 0x1b {
                self.at(OscScanState::Escape)
            } else {
                self
            },
            OscScanState::Escape => self.after_escape(byte),
            OscScanState::Number => if 0x30 <= byte <= 0x39 {
                if self.digits + 1 > MAX_OSC_NUMBER_DIGITS {
                    OscModel { digits: self.digits + 1, state: OscScanState::Skip, ..self }
                } else {
                    OscModel {
                        digits: self.digits + 1,
                        number: self.number * 10 + (byte - 0x30) as nat,
                        ..self
                    }
                }
            } else if byte == 0x3b && self.digits > 0 && (self.number == 7 || self.number == 133) {
                self.at(OscScanState::Payload)
            } else if byte == 0x07 {
                self.at(OscScanState::Ground)
            } else if byte == 0x1b {
                self.at(OscScanState::SkipEscape)
            } else {
                self.at(OscScanState::Skip)
            },
            OscScanState::Payload => if byte == 0x07 {
                self.aborted()
            } else if byte == 0x1b {
                self.at(OscScanState::PayloadEscape)
            } else if self.payload.len() < MAX_OSC_PAYLOAD {
                OscModel { payload: self.payload.push(byte), ..self }
            } else {
                OscModel { overflowed: true, ..self }
            },
            // An ESC that does not terminate gives the sequence up and starts anew.
            OscScanState::PayloadEscape => if byte == 0x5c {
                self.aborted()
            } else {
                self.aborted().after_escape(byte)
            },
            OscScanState::Skip => if byte == 0x07 {
                self.at(OscScanState::Ground)
            } else if byte == 0x1b {
                self.at(OscScanState::SkipEscape)
            } else {
                self
            },
            OscScanState::SkipEscape => if byte == 0x5c {
                self.at(OscScanState::Ground)
            } else {
                self.after_escape(byte)
            },
        }
    }

    /// What one more byte, the `end`-th of the batch, reports.
    pub open spec fn step_reports(self, byte: u8, end: int) -> Seq<OscEventView> {
        if (self.state == OscScanState::Payload && byte == 0x07) || (self.state
            == OscScanState::PayloadEscape && byte == 0x5c) {
            self.reported(end)
        } else {
            seq![]
        }
    }

    /// The state after a batch.
    pub open spec fn after(self, bytes: Seq<u8>) -> OscModel
        decreases bytes.len(),
    {
        if bytes.len() == 0 {
            self
        } else {
            self.after(bytes.drop_last()).stepped(bytes.last())
        }
    }

    /// What a batch reports, in order.
    pub open spec fn reports(self, bytes: Seq<u8>) -> Seq<OscEventView>
        decreases bytes.len(),
    {
        if bytes.len() == 0 {
            seq![]
        } else {
            self.reports(bytes.drop_last()) + self.after(bytes.drop_last()).step_reports(
                bytes.last(),
                bytes.len() as int,
            )
        }
    }
}

/// Where the first `;` stands, or the end.
pub open spec fn field_end(s: Seq<u8>) -> int
    decreases s.len(),
{
    if s.len() == 0 || s[0] == 0x3b {
        0
    } else {
        1 + field_end(s.skip(1))
    }
}

/// The number in a field of text, white space around it aside.
pub open spec fn exit_status(field: Seq<u8>) -> Option<i32> {
    if valid_utf8(field) {
        match crate::text::signed_decimal(crate::text::trimmed(decode_utf8(field))) {
            Some(v) => Some(v as i32),
            None => None,
        }
    } else {
        None
    }
}

/// What the parameters after `OSC 133 ;` say: the first field is one marker letter,
/// and `D` may carry the command's exit status as its second field.
pub open spec fn osc133(payload: Seq<u8>) -> Option<(ShellMarkerKind, Option<i32>)> {
    let first = field_end(payload);
    if first != 1 {
        None
    } else {
        match ShellMarkerKind::of_byte(payload[0]) {
            None => None,
            Some(kind) => if kind != ShellMarkerKind::CommandEnd || payload.len() == 1 {
                Some((kind, None))
            } else {
                let rest = payload.skip(2);
                Some((kind, exit_status(rest.take(field_end(rest)))))
            },
        }
    }
}

/// The exit status written in a field.
fn parse_exit_status(field: &[u8]) -> (status: Option<i32>)
    ensures
        status == exit_status(field@),
{
    match utf8_text(field) {
        Some(text) => {
            let chars = chars_of(text.as_str());
            let inner = trim(chars.as_slice());
            parse_i32(inner.as_slice())
        },
        None => None,
    }
}

/// Where the field that starts at `from` ends.
fn find_field_end(payload: &[u8], from: usize) -> (end: usize)
    requires
        from <= payload@.len(),
    ensures
        from <= end <= payload@.len(),
        end - from == field_end(payload@.skip(from as int)),
{
    let mut end: usize = from;
    while end < payload.len() && payload[end] != 0x3b
        invariant
            from <= end <= payload@.len(),
            field_end(payload@.skip(from as int)) == end - from + field_end(
                payload@.skip(end as int),
            ),
        decreases payload@.len() - end,
    {
        assert(payload@.skip(end as int)[0] == payload@[end as int]);
        assert(payload@.skip(end as int).skip(1) =~= payload@.skip(end + 1));
        end += 1;
    }
    proof {
        if end < payload@.len() {
            assert(payload@.skip(end as int)[0] == payload@[end as int]);
        }
    }
    end
}

/// Parse the parameters after `OSC 133 ;`.
pub fn parse_osc133_payload(payload: &[u8]) -> (parsed: Option<(ShellMarkerKind, Option<i32>)>)
    ensures
        parsed == osc133(payload@),
{
    let first = find_field_end(payload, 0);
    assert(payload@.skip(0) =~= payload@);
    if first != 1 {
        return None;
    }
    match ShellMarkerKind::from_byte(payload[0]) {
        None => None,
        Some(kind) => {
            if kind != ShellMarkerKind::CommandEnd || payload.len() == 1 {
                Some((kind, None))
            } else {
                let end = find_field_end(payload, 2);
                let field = vstd::slice::slice_subrange(payload, 2, end);
                assert(field@ =~= payload@.skip(2).take(end - 2));
                Some((kind, parse_exit_status(field)))
            }
        },
    }
}

impl Default for OscScanner {
    fn default() -> (scanner: Self)
        ensures
            scanner@ == OscModel::start(),
            scanner@.wf(),
    {
        let scanner = OscScanner {
            state: OscScanState::Ground,
            number: 0,
            digits: 0,
            payload: Vec::new(),
            overflowed: false,
        };
        assert(scanner@ =~= OscModel::start());
        scanner
    }
}

impl OscScanner {
    /// Scan one batch, appending what it completes to `events` in order. An event's
    /// offset counts from the start of this batch.
    pub fn scan(&mut self, bytes: &[u8], events: &mut Vec<OscEvent>)
        requires
            old(self)@.wf(),
        ensures
            final(self)@.wf(),
            final(self)@ == old(self)@.after(bytes@),
            event_views(final(events)@) == event_views(old(events)@) + old(self)@.reports(bytes@),
    {
        let mut index: usize = 0;
        proof {
            assert(bytes@.take(0) =~= Seq::<u8>::empty());
        }
        while index < bytes.len()
            invariant
                index <= bytes@.len(),
                self@.wf(),
                self@ == old(self)@.after(bytes@.take(index as int)),
                event_views(events@) == event_views(old(events)@) + old(self)@.reports(
                    bytes@.take(index as int),
                ),
            decreases bytes@.len() - index,
        {
            let byte = bytes[index];
            let ghost before = self@;
            let ghost events_before = events@;
            index += 1;
            proof {
                let prefix = bytes@.take(index as int);
                assert(prefix.drop_last() =~= bytes@.take(index - 1));
                assert(prefix.last() == byte);
                assert(old(self)@.after(prefix) == before.stepped(byte));
            }
            match self.state {
                OscScanState::Ground => {
                    if byte == 0x1b {
                        self.state = OscScanState::Escape;
                    }
                },
                OscScanState::Escape => self.escape_byte(byte),
                OscScanState::Number => {
                    if 0x30 <= byte && byte <= 0x39 {
                        self.digits = self.digits + 1;
                        if self.digits > MAX_OSC_NUMBER_DIGITS {
                            self.state = OscScanState::Skip;
                        } else {
                            self.number = self.number * 10 + (byte - 0x30) as u32;
                        }
                    } else if byte == 0x3b && self.digits > 0 && (self.number == 7 || self.number
                        == 133) {
                        self.state = OscScanState::Payload;
                    } else if byte == 0x07 {
                        self.state = OscScanState::Ground;
                    } else if byte == 0x1b {
                        self.state = OscScanState::SkipEscape;
                    } else {
                        self.state = OscScanState::Skip;
                    }
                },
                OscScanState::Payload => {
                    if byte == 0x07 {
                        self.finish(index, events);
                    } else if byte == 0x1b {
                        self.state = OscScanState::PayloadEscape;
                    } else if self.payload.len() < MAX_OSC_PAYLOAD {
                        self.payload.push(byte);
                    } else {
                        self.overflowed = true;
                    }
                },
                OscScanState::PayloadEscape => {
                    if byte == 0x5c {
                        self.finish(index, events);
                    } else {
                        // An ESC that is not ST aborts the OSC and starts a new
                        // sequence, so this byte is taken as the one after an ESC.
                        self.abort();
                        self.escape_byte(byte);
                    }
                },
                OscScanState::Skip => {
                    if byte == 0x07 {
                        self.state = OscScanState::Ground;
                    } else if byte == 0x1b {
                        self.state = OscScanState::SkipEscape;
                    }
                },
                OscScanState::SkipEscape => {
                    if byte == 0x5c {
                        self.state = OscScanState::Ground;
                    } else {
                        self.escape_byte(byte);
                    }
                },
            }
            assert(self@ =~= before.stepped(byte));
            assert(event_views(events@) =~= event_views(events_before) + before.step_reports(
                byte,
                index as int,
            ));
        }
        assert(bytes@.take(index as int) =~= bytes@);
    }

    /// The byte after an ESC.
    fn escape_byte(&mut self, byte: u8)
        requires
            old(self)@.wf(),
        ensures
            final(self)@.wf(),
            final(self)@ == old(self)@.after_escape(byte),
    {
        if byte == 0x5d {
            self.start_sequence();
        } else if byte == 0x1b {
            self.state = OscScanState::Escape;
        } else {
            self.state = OscScanState::Ground;
        }
    }

    fn start_sequence(&mut self)
        ensures
            final(self)@ == old(self)@.after_escape(0x5d),
    {
        self.number = 0;
        self.digits = 0;
        self.payload.clear();
        self.overflowed = false;
        self.state = OscScanState::Number;
        assert(self@ =~= old(self)@.after_escape(0x5d));
    }

    fn abort(&mut self)
        ensures
            final(self)@ == old(self)@.aborted(),
    {
        self.payload.clear();
        self.overflowed = false;
        self.state = OscScanState::Ground;
        assert(self@ =~= old(self)@.aborted());
    }

    fn finish(&mut self, end_offset: usize, events: &mut Vec<OscEvent>)
        ensures
            final(self)@ == old(self)@.aborted(),
            event_views(final(events)@) == event_views(old(events)@) + old(self)@.reported(
                end_offset as int,
            ),
    {
        if !self.overflowed {
            if self.number == 7 {
                if let Some(uri) = utf8_text(self.payload.as_slice()) {
                    events.push(OscEvent::Cwd(uri));
                }
            } else if self.number == 133 {
                if let Some((kind, exit_code)) = parse_osc133_payload(self.payload.as_slice()) {
                    events.push(OscEvent::ShellMarker { kind, exit_code, end_offset });
                }
            }
        }
        assert(event_views(events@) =~= event_views(old(events)@) + old(self)@.reported(
            end_offset as int,
        ));
        self.abort();
    }
}

/// Reading a stream in pieces changes nothing: wherever a batch is cut, the scanner ends
/// in the same state and reports the same events, the second piece's offsets counted
/// from its own start.
pub proof fn law_scan_is_split_invariant(m: OscModel, a: Seq<u8>, b: Seq<u8>)
    ensures
        m.after(a + b) == m.after(a).after(b),
        m.reports(a + b) == m.reports(a) + m.after(a).reports(b).map_values(
            |e: OscEventView| e.shifted(a.len() as int),
        ),
    decreases b.len(),
{
    let shift = |e: OscEventView| e.shifted(a.len() as int);
    if b.len() == 0 {
        assert(a + b =~= a);
        assert(m.after(a).reports(b).map_values(shift) =~= seq![]);
        assert(m.reports(a) + Seq::<OscEventView>::empty() =~= m.reports(a));
    } else {
        let head = b.drop_last();
        law_scan_is_split_invariant(m, a, head);
        assert((a + b).drop_last() =~= a + head);
        assert((a + b).last() == b.last());
        let mid = m.after(a).after(head);
        let here = mid.step_reports(b.last(), b.len() as int);
        assert(mid.step_reports(b.last(), (a + b).len() as int) =~= here.map_values(shift));
        assert(m.after(a).reports(b).map_values(shift) =~= m.after(a).reports(head).map_values(
            shift,
        ) + here.map_values(shift));
        assert(m.reports(a + b) =~= m.reports(a) + m.after(a).reports(b).map_values(shift));
    }
}

/// A plain payload byte: neither BEL nor ESC.
pub open spec fn is_plain(payload: Seq<u8>) -> bool {
    forall|i: int| 0 <= i < payload.len() ==> #[trigger] payload[i] != 0x07 && payload[i] != 0x1b
}

/// Plain bytes are gathered as they come, as far as they are kept.
proof fn lemma_payload_gathers(m: OscModel, payload: Seq<u8>)
    requires
        m.state == OscScanState::Payload,
        m.payload.len() == 0,
        !m.overflowed,
        is_plain(payload),
    ensures
        m.reports(payload) == Seq::<OscEventView>::empty(),
        payload.len() <= MAX_OSC_PAYLOAD ==> m.after(payload) == (OscModel { payload, ..m }),
        payload.len() > MAX_OSC_PAYLOAD ==> m.after(payload) == (OscModel {
            payload: payload.take(MAX_OSC_PAYLOAD as int),
            overflowed: true,
            ..m
        }),
    decreases payload.len(),
{
    if payload.len() == 0 {
        assert(m.after(payload) =~= (OscModel { payload, ..m }));
    } else {
        let head = payload.drop_last();
        lemma_payload_gathers(m, head);
        let last = payload.last();
        assert(payload[payload.len() - 1] == last);
        if payload.len() <= MAX_OSC_PAYLOAD {
            assert(head.push(last) =~= payload);
            assert(m.after(payload) =~= (OscModel { payload, ..m }));
        } else if payload.len() == MAX_OSC_PAYLOAD + 1 {
            assert(head =~= payload.take(MAX_OSC_PAYLOAD as int));
        } else {
            assert(head.take(MAX_OSC_PAYLOAD as int) =~= payload.take(MAX_OSC_PAYLOAD as int));
        }
    }
}

/// The bytes that open OSC 7.
pub open spec fn osc7_opening() -> Seq<u8> {
    seq![0x1b, 0x5d, 0x37, 0x3b]
}

/// The bytes that open OSC 133.
pub open spec fn osc133_opening() -> Seq<u8> {
    seq![0x1b, 0x5d, 0x31, 0x33, 0x33, 0x3b]
}

/// BEL or ST, the two ways to end an OSC.
pub open spec fn is_terminator(end: Seq<u8>) -> bool {
    end == seq![0x07u8] || end == seq![0x1bu8, 0x5c]
}

proof fn lemma_opening(m: OscModel)
    requires
        m.state == OscScanState::Ground,
    ensures
        m.reports(osc7_opening()) == Seq::<OscEventView>::empty(),
        m.after(osc7_opening()) == (OscModel {
            state: OscScanState::Payload,
            number: 7,
            digits: 1,
            payload: Seq::empty(),
            overflowed: false,
        }),
        m.reports(osc133_opening()) == Seq::<OscEventView>::empty(),
        m.after(osc133_opening()) == (OscModel {
            state: OscScanState::Payload,
            number: 133,
            digits: 3,
            payload: Seq::empty(),
            overflowed: false,
        }),
{
    reveal_with_fuel(OscModel::after, 7);
    reveal_with_fuel(OscModel::reports, 7);
    let a = osc7_opening();
    assert(a.drop_last() =~= seq![0x1bu8, 0x5d, 0x37]);
    assert(a.drop_last().drop_last() =~= seq![0x1bu8, 0x5d]);
    assert(a.drop_last().drop_last().drop_last() =~= seq![0x1bu8]);
    assert(a.drop_last().drop_last().drop_last().drop_last() =~= seq![]);
    let b = osc133_opening();
    assert(b.drop_last() =~= seq![0x1bu8, 0x5d, 0x31, 0x33, 0x33]);
    assert(b.drop_last().drop_last() =~= seq![0x1bu8, 0x5d, 0x31, 0x33]);
    assert(b.drop_last().drop_last().drop_last() =~= seq![0x1bu8, 0x5d, 0x31]);
    assert(b.drop_last().drop_last().drop_last().drop_last() =~= seq![0x1bu8, 0x5d]);
    assert(b.drop_last().drop_last().drop_last().drop_last().drop_last() =~= seq![0x1bu8]);
    assert(b.drop_last().drop_last().drop_last().drop_last().drop_last().drop_last() =~= seq![]);
}

proof fn lemma_terminates(m: OscModel, end: Seq<u8>)
    requires
        m.state == OscScanState::Payload,
        is_terminator(end),
    ensures
        m.after(end) == m.aborted(),
        m.reports(end) == m.reported(end.len() as int),
{
    reveal_with_fuel(OscModel::after, 3);
    reveal_with_fuel(OscModel::reports, 3);
    if end == seq![0x07u8] {
        assert(end.drop_last() =~= seq![]);
        assert(m.reports(end) =~= m.reported(1));
    } else {
        assert(end.drop_last() =~= seq![0x1bu8]);
        assert(end.drop_last().drop_last() =~= seq![]);
        let n = m.at(OscScanState::PayloadEscape);
        assert(n.aborted() =~= m.aborted());
        assert(n.reported(2) =~= m.reported(2));
        assert(m.reports(end) =~= m.reported(2));
    }
}

/// A whole sequence from the ground state reports exactly what its payload says, and
/// leaves the scanner on the ground again; a payload longer than is kept reports nothing.
pub proof fn law_whole_sequence_is_reported(
    m: OscModel,
    opening: Seq<u8>,
    payload: Seq<u8>,
    end: Seq<u8>,
)
    requires
        m.state == OscScanState::Ground,
        opening == osc7_opening() || opening == osc133_opening(),
        is_plain(payload),
        is_terminator(end),
    ensures
        m.after(opening + payload + end).state == OscScanState::Ground,
        payload.len() > MAX_OSC_PAYLOAD ==> m.reports(opening + payload + end) == Seq::<
            OscEventView,
        >::empty(),
        payload.len() <= MAX_OSC_PAYLOAD && opening == osc7_opening() ==> m.reports(
            opening + payload + end,
        ) == (if valid_utf8(payload) {
            seq![OscEventView::Cwd(decode_utf8(payload))]
        } else {
            seq![]
        }),
        payload.len() <= MAX_OSC_PAYLOAD && opening == osc133_opening() ==> m.reports(
            opening + payload + end,
        ) == (match osc133(payload) {
            Some((kind, exit_code)) => seq![
                OscEventView::ShellMarker {
                    kind,
                    exit_code,
                    end_offset: (opening + payload + end).len() as int,
                },
            ],
            None => seq![],
        }),
{
    assert(osc7_opening()[2] != osc133_opening()[2]);
    lemma_opening(m);
    let p = m.after(opening);
    lemma_payload_gathers(p, payload);
    let q = p.after(payload);
    lemma_terminates(q, end);
    law_scan_is_split_invariant(m, opening, payload);
    law_scan_is_split_invariant(m, opening + payload, end);
    let shift = |e: OscEventView| e.shifted((opening + payload).len() as int);
    let none = Seq::<OscEventView>::empty();
    assert(none.map_values(|e: OscEventView| e.shifted(opening.len() as int)) =~= none);
    assert(m.reports(opening + payload) =~= none);
    assert(m.reports(opening + payload + end) =~= q.reported(end.len() as int).map_values(shift));
    assert(none.map_values(shift) =~= none);
    if payload.len() <= MAX_OSC_PAYLOAD {
        assert(q.payload == payload);
        if opening == osc7_opening() {
            if valid_utf8(payload) {
                assert(m.reports(opening + payload + end) =~= seq![
                    OscEventView::Cwd(decode_utf8(payload)),
                ]);
            }
        } else {
            match osc133(payload) {
                Some((kind, exit_code)) => {
                    assert(m.reports(opening + payload + end) =~= seq![
                        OscEventView::ShellMarker {
                            kind,
                            exit_code,
                            end_offset: (opening + payload + end).len() as int,
                        },
                    ]);
                },
                None => {},
            }
        }
    }
}

/// The two bytes that begin every OSC.
pub open spec fn introducer() -> Seq<u8> {
    seq![0x1b, 0x5d]
}

/// Whether every byte is an ASCII digit.
pub open spec fn are_digits(bytes: Seq<u8>) -> bool {
    forall|i: int| 0 <= i < bytes.len() ==> 0x30 <= #[trigger] bytes[i] <= 0x39
}

/// The number that digits write.
pub open spec fn number_written(digits: Seq<u8>) -> nat
    decreases digits.len(),
{
    if digits.len() == 0 {
        0
    } else {
        number_written(digits.drop_last()) * 10 + (digits.last() - 0x30) as nat
    }
}

/// Whether what stands in an OSC begins with one to five digits that write a number, and a `;`.
pub open spec fn is_numbered(body: Seq<u8>, number: nat) -> bool {
    exists|n: int|
        1 <= n <= 5 && n < body.len() && are_digits(body.take(n)) && #[trigger] body[n] == 0x3b
            && number_written(body.take(n)) == number
}

/// A whole OSC: what stands in it between the bytes that begin it and those that end it.
pub open spec fn whole_osc(body: Seq<u8>, end: Seq<u8>) -> Seq<u8> {
    introducer() + body + end
}

/// ESC and `]` begin a sequence anew, whatever the scanner was in the middle of, and report
/// nothing.
pub proof fn law_new_sequence_cuts_off_what_was_open(m: OscModel)
    ensures
        m.reports(introducer()) == Seq::<OscEventView>::empty(),
        m.after(introducer()) == (OscModel {
            state: OscScanState::Number,
            number: 0,
            digits: 0,
            payload: Seq::empty(),
            overflowed: false,
        }),
{
    reveal_with_fuel(OscModel::after, 3);
    reveal_with_fuel(OscModel::reports, 3);
    let a = introducer();
    assert(a.drop_last() =~= seq![0x1bu8]);
    assert(a.drop_last().drop_last() =~= seq![]);
    assert(a.last() == 0x5d);
    assert(a.drop_last().last() == 0x1b);
    assert(m.reports(a) =~= Seq::<OscEventView>::empty());
    assert(m.after(a) =~= (OscModel {
        state: OscScanState::Number,
        number: 0,
        digits: 0,
        payload: Seq::empty(),
        overflowed: false,
    }));
}

/// The number of an OSC is gathered digit by digit.
proof fn lemma_number_gathers(m: OscModel, digits: Seq<u8>)
    requires
        m.state == OscScanState::Number,
        m.number == 0,
        m.digits == 0,
        are_digits(digits),
        digits.len() <= 5,
    ensures
        m.reports(digits) == Seq::<OscEventView>::empty(),
        m.after(digits) == (OscModel {
            number: number_written(digits),
            digits: digits.len(),
            ..m
        }),
    decreases digits.len(),
{
    if digits.len() > 0 {
        let head = digits.drop_last();
        assert forall|i: int| 0 <= i < head.len() implies 0x30 <= #[trigger] head[i] <= 0x39 by {
            assert(head[i] == digits[i]);
        }
        lemma_number_gathers(m, head);
        assert(0x30 <= digits[digits.len() - 1] <= 0x39);
    }
}

/// What stands in an OSC that is none of the pane's own is skipped.
proof fn lemma_other_body_is_skipped(m: OscModel, body: Seq<u8>)
    requires
        m.state == OscScanState::Number,
        m.number == 0,
        m.digits == 0,
        is_plain(body),
        !is_numbered(body, 7),
        !is_numbered(body, 133),
    ensures
        m.reports(body) == Seq::<OscEventView>::empty(),
        m.after(body).state == OscScanState::Skip || (m.after(body).state == OscScanState::Number
            && are_digits(body) && body.len() <= 5 && m.after(body).digits == body.len()
            && m.after(body).number == number_written(body)),
    decreases body.len(),
{
    if body.len() > 0 {
        let head = body.drop_last();
        assert forall|number: nat| is_numbered(head, number) implies is_numbered(body, number) by {
            let n = choose|n: int|
                1 <= n <= 5 && n < head.len() && are_digits(head.take(n)) && #[trigger] head[n]
                    == 0x3b && number_written(head.take(n)) == number;
            assert(head.take(n) =~= body.take(n));
            assert(body[n] == 0x3b);
        }
        assert(is_plain(head)) by {
            assert forall|i: int| 0 <= i < head.len() implies #[trigger] head[i] != 0x07 && head[i]
                != 0x1b by {
                assert(head[i] == body[i]);
            }
        }
        lemma_other_body_is_skipped(m, head);
        let last = body[body.len() - 1];
        assert(last != 0x07 && last != 0x1b);
        let before = m.after(head);
        if before.state == OscScanState::Number {
            assert(body.take(body.len() - 1) =~= head);
            if last == 0x3b && head.len() >= 1 {
                assert(before.number != 7 && before.number != 133);
            }
            if 0x30 <= last <= 0x39 {
                assert forall|i: int| 0 <= i < body.len() implies 0x30 <= #[trigger] body[i]
                    <= 0x39 by {
                    if i < head.len() {
                        assert(head[i] == body[i]);
                    }
                }
            }
        }
    }
}

/// Any whole OSC that is none of the pane's own, ended by BEL or by ST, reports nothing and
/// leaves the scanner on the ground, whatever state it was in.
#[verifier::rlimit(40)]
pub proof fn law_other_sequence_is_skipped(m: OscModel, body: Seq<u8>, end: Seq<u8>)
    requires
        is_plain(body),
        !is_numbered(body, 7),
        !is_numbered(body, 133),
        end == seq![0x07u8] || end == seq![0x1bu8, 0x5c],
    ensures
        m.reports(whole_osc(body, end)) == Seq::<OscEventView>::empty(),
        m.after(whole_osc(body, end)).state == OscScanState::Ground,
{
    law_new_sequence_cuts_off_what_was_open(m);
    let fresh = m.after(introducer());
    lemma_other_body_is_skipped(fresh, body);
    let q = fresh.after(body);
    law_scan_is_split_invariant(m, introducer(), body);
    law_scan_is_split_invariant(m, introducer() + body, end);
    let none = Seq::<OscEventView>::empty();
    if end == seq![0x07u8] {
        lemma_one_byte(q, 0x07);
    } else {
        lemma_one_byte(q, 0x1b);
        lemma_one_byte(q.stepped(0x1b), 0x5c);
        law_scan_is_split_invariant(q, seq![0x1bu8], seq![0x5cu8]);
        assert(end =~= seq![0x1bu8] + seq![0x5cu8]);
    }
    assert(q.reports(end) =~= none);
    assert(none.map_values(|e: OscEventView| e.shifted(introducer().len() as int)) =~= none);
    assert(none.map_values(|e: OscEventView| e.shifted((introducer() + body).len() as int)) =~= none);
    assert(m.reports(introducer() + body) =~= none);
    assert(m.reports(whole_osc(body, end)) =~= none);
}

proof fn lemma_one_byte(m: OscModel, byte: u8)
    ensures
        m.after(seq![byte]) == m.stepped(byte),
        m.reports(seq![byte]) == m.step_reports(byte, 1),
{
    reveal_with_fuel(OscModel::after, 2);
    reveal_with_fuel(OscModel::reports, 2);
    let one = seq![byte];
    assert(one.drop_last() =~= seq![]);
    assert(one.last() == byte);
    assert(m.reports(one) =~= m.step_reports(byte, 1));
}

/// A whole OSC 7 or OSC 133 reports what its payload says, and nothing else, whatever state the
/// scanner was in and however many zeros its number begins with; it leaves the scanner on the
/// ground. Its offset lies behind its last byte.
#[verifier::rlimit(40)]
pub proof fn law_own_sequence_is_reported(
    m: OscModel,
    digits: Seq<u8>,
    payload: Seq<u8>,
    end: Seq<u8>,
)
    requires
        are_digits(digits),
        1 <= digits.len() <= 5,
        number_written(digits) == 7 || number_written(digits) == 133,
        is_plain(payload),
        end == seq![0x07u8] || end == seq![0x1bu8, 0x5c],
    ensures
        ({
            let whole = whole_osc(digits.push(0x3b) + payload, end);
            let reported = m.reports(whole);
            &&& m.after(whole).state == OscScanState::Ground
            &&& payload.len() > 4096 ==> reported.len() == 0
            &&& payload.len() <= 4096 && number_written(digits) == 7 ==> if valid_utf8(payload) {
                reported == seq![OscEventView::Cwd(decode_utf8(payload))]
            } else {
                reported.len() == 0
            }
            &&& payload.len() <= 4096 && number_written(digits) == 133 ==> match osc133(payload) {
                Some((kind, exit_code)) => reported == seq![
                    OscEventView::ShellMarker { kind, exit_code, end_offset: whole.len() as int },
                ],
                None => reported.len() == 0,
            }
        }),
{
    law_new_sequence_cuts_off_what_was_open(m);
    let fresh = m.after(introducer());
    lemma_number_gathers(fresh, digits);
    let opened = fresh.after(digits);
    let semicolon = seq![0x3bu8];
    lemma_one_byte(opened, 0x3b);
    let none = Seq::<OscEventView>::empty();
    let p = opened.after(semicolon);
    lemma_payload_gathers(p, payload);
    let q = p.after(payload);
    lemma_terminates(q, end);
    let a = introducer();
    let b = a + digits;
    let c = b + semicolon;
    let d = c + payload;
    law_scan_is_split_invariant(m, a, digits);
    law_scan_is_split_invariant(m, b, semicolon);
    law_scan_is_split_invariant(m, c, payload);
    law_scan_is_split_invariant(m, d, end);
    assert(none.map_values(|e: OscEventView| e.shifted(a.len() as int)) =~= none);
    assert(none.map_values(|e: OscEventView| e.shifted(b.len() as int)) =~= none);
    assert(none.map_values(|e: OscEventView| e.shifted(c.len() as int)) =~= none);
    assert(none.map_values(|e: OscEventView| e.shifted(d.len() as int)) =~= none);
    assert(m.reports(b) =~= none);
    assert(m.reports(c) =~= none);
    assert(m.reports(d) =~= none);
    let whole = whole_osc(digits.push(0x3b) + payload, end);
    assert(whole =~= d + end);
    let shift = |e: OscEventView| e.shifted(d.len() as int);
    let ended = q.reported(end.len() as int);
    assert(m.reports(whole) =~= ended.map_values(shift));
    assert(none.map_values(shift) =~= none);
    if payload.len() <= 4096 {
        assert(q.payload == payload);
        if number_written(digits) == 7 {
            if valid_utf8(payload) {
                assert(m.reports(whole) =~= seq![OscEventView::Cwd(decode_utf8(payload))]);
            }
        } else {
            match osc133(payload) {
                Some((kind, exit_code)) => {
                    assert(m.reports(whole) =~= seq![
                        OscEventView::ShellMarker { kind, exit_code, end_offset: whole.len() as int },
                    ]);
                },
                None => {},
            }
        }
    }
}

/// Whatever stands before a whole OSC 7 or OSC 133, it is reported as if it stood alone, its
/// offset counted from the start of all.
pub proof fn law_own_sequence_is_reported_behind_anything(
    m: OscModel,
    before: Seq<u8>,
    digits: Seq<u8>,
    payload: Seq<u8>,
    end: Seq<u8>,
)
    requires
        are_digits(digits),
        1 <= digits.len() <= 5,
        number_written(digits) == 7 || number_written(digits) == 133,
        is_plain(payload),
        end == seq![0x07u8] || end == seq![0x1bu8, 0x5c],
    ensures
        ({
            let whole = whole_osc(digits.push(0x3b) + payload, end);
            m.reports(before + whole) == m.reports(before) + OscModel::start().reports(
                whole,
            ).map_values(|e: OscEventView| e.shifted(before.len() as int))
        }),
{
    let whole = whole_osc(digits.push(0x3b) + payload, end);
    law_own_sequence_is_reported(m.after(before), digits, payload, end);
    law_own_sequence_is_reported(OscModel::start(), digits, payload, end);
    law_scan_is_split_invariant(m, before, whole);
    assert(m.after(before).reports(whole) =~= OscModel::start().reports(whole));
}

/// Text without ESC reports nothing and leaves the scanner on the ground; so does ESC before any
/// byte that does not begin an OSC.
pub proof fn law_text_reports_nothing(m: OscModel, text: Seq<u8>, byte: u8)
    requires
        m.state == OscScanState::Ground,
        forall|i: int| 0 <= i < text.len() ==> #[trigger] text[i] != 0x1b,
        byte != 0x5d,
        byte != 0x1b,
    ensures
        m.reports(text) == Seq::<OscEventView>::empty(),
        m.after(text) == m,
        m.reports(seq![0x1b, byte]) == Seq::<OscEventView>::empty(),
        m.after(seq![0x1b, byte]) == m,
    decreases text.len(),
{
    if text.len() > 0 {
        let head = text.drop_last();
        assert forall|i: int| 0 <= i < head.len() implies #[trigger] head[i] != 0x1b by {
            assert(head[i] == text[i]);
        }
        law_text_reports_nothing(m, head, byte);
        assert(text[text.len() - 1] != 0x1b);
    }
    reveal_with_fuel(OscModel::after, 3);
    reveal_with_fuel(OscModel::reports, 3);
    let pair = seq![0x1bu8, byte];
    assert(pair.drop_last() =~= seq![0x1bu8]);
    assert(pair.drop_last().drop_last() =~= seq![]);
    assert(pair.last() == byte);
    assert(pair.drop_last().last() == 0x1b);
    assert(m.reports(pair) =~= Seq::<OscEventView>::empty());
}

proof fn lemma_field_end_is_a_place(s: Seq<u8>)
    ensures
        0 <= field_end(s) <= s.len(),
    decreases s.len(),
{
    if s.len() > 0 && s[0] != 0x3b {
        lemma_field_end_is_a_place(s.skip(1));
    }
}

/// A shell marker is one letter of `A` to `D`, alone or before a `;`: the start of a prompt, of a
/// command, of its output, and its end. Anything else is none, and only the end has a status.
pub proof fn law_marker_letters(payload: Seq<u8>)
    ensures
        ({
            let alone = payload.len() == 1 || (payload.len() > 1 && payload[1] == 0x3b);
            match osc133(payload) {
                Some((ShellMarkerKind::PromptStart, status)) => alone && payload[0] == 0x41
                    && status is None,
                Some((ShellMarkerKind::CommandStart, status)) => alone && payload[0] == 0x42
                    && status is None,
                Some((ShellMarkerKind::OutputStart, status)) => alone && payload[0] == 0x43
                    && status is None,
                Some((ShellMarkerKind::CommandEnd, status)) => alone && payload[0] == 0x44 && (
                payload.len() == 1 ==> status is None),
                None => !(alone && 0x41 <= payload[0] <= 0x44),
            }
        }),
{
    reveal_with_fuel(field_end, 3);
    if payload.len() > 1 {
        assert(payload.skip(1)[0] == payload[1]);
        lemma_field_end_is_a_place(payload.skip(1).skip(1));
    }
}

proof fn lemma_field_end(s: Seq<u8>, n: int)
    requires
        0 <= n <= s.len(),
        forall|i: int| 0 <= i < n ==> #[trigger] s[i] != 0x3b,
        n == s.len() || s[n] == 0x3b,
    ensures
        field_end(s) == n,
    decreases n,
{
    if n > 0 {
        assert(s[0] != 0x3b);
        let rest = s.skip(1);
        assert forall|i: int| 0 <= i < n - 1 implies #[trigger] rest[i] != 0x3b by {
            assert(rest[i] == s[i + 1]);
        }
        if n < s.len() {
            assert(rest[n - 1] == s[n]);
        }
        lemma_field_end(rest, n - 1);
    }
}

/// The end of a command carries the status that was written behind it in decimal, negative or
/// not, whatever fields follow.
#[verifier::spinoff_prover]
#[verifier::rlimit(40)]
pub proof fn law_exit_status_is_read(status: i32, rest: Seq<u8>)
    requires
        rest.len() == 0 || rest[0] == 0x3b,
    ensures
        ({
            let size = if status >= 0 {
                status as nat
            } else {
                (-status) as nat
            };
            let sign: Seq<char> = if status >= 0 {
                seq![]
            } else {
                seq!['-']
            };
            let text = sign + crate::text::decimal_text(size);
            osc133(seq![0x44u8, 0x3b] + encode_utf8(text) + rest) == Some(
                (ShellMarkerKind::CommandEnd, Some(status)),
            )
        }),
{
    let size = if status >= 0 {
        status as nat
    } else {
        (-status) as nat
    };
    let sign: Seq<char> = if status >= 0 {
        seq![]
    } else {
        seq!['-']
    };
    let digits = crate::text::decimal_text(size);
    let text = sign + digits;
    crate::text::law_decimal_text_reads_back(size);
    assert forall|i: int| 0 <= i < text.len() implies #[trigger] text[i] == '-'
        || crate::text::is_digit(text[i]) by {
        if i >= sign.len() {
            assert(text[i] == digits[i - sign.len()]);
        }
    }
    assert(is_ascii_chars(text));
    is_ascii_chars_encode_utf8(text);
    encode_utf8_valid_utf8(text);
    encode_utf8_decode_utf8(text);
    let field = encode_utf8(text);
    let payload = seq![0x44u8, 0x3b] + field + rest;
    assert(payload[0] == 0x44 && payload[1] == 0x3b);
    lemma_field_end(payload, 1);
    let tail = payload.skip(2);
    assert(tail =~= field + rest);
    assert forall|i: int| 0 <= i < field.len() implies #[trigger] tail[i] != 0x3b by {
        assert(tail[i] == field[i]);
        assert(text[i] as u8 == field[i]);
    }
    lemma_field_end(tail, field.len() as int);
    assert(tail.take(field.len() as int) =~= field);
    assert(!crate::text::unicode_white_space(text[0]));
    assert(!crate::text::unicode_white_space(text.last()));
    assert(text.skip(0) =~= text);
    assert(text.take(text.len() as int) =~= text);
    assert(crate::text::trimmed(text) == text);
    if status >= 0 {
        assert(text =~= digits);
        assert(crate::text::is_digit(text[0]));
    } else {
        assert(text.skip(1) =~= digits);
    }
}

} // verus!
