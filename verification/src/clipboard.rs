//! The server's clipboard: entries with their origin, OSC 52 sequences that set it, and
//! bracketed paste.
use crate::text::utf8_text;
use vstd::prelude::*;
use vstd::string::*;
use vstd::utf8::*;

verus! {

/// Kinds of clipboard content.
#[derive(Clone, Copy, Debug, PartialEq, Eq, Structural)]
pub enum ClipboardContentType {
    Text,
    ImagePng,
    FilePath,
}

impl ClipboardContentType {
    /// The kind that a number on the wire stands for; anything unknown is text.
    pub open spec fn of_wire(val: i32) -> ClipboardContentType {
        if val == 2 {
            ClipboardContentType::ImagePng
        } else if val == 3 {
            ClipboardContentType::FilePath
        } else {
            ClipboardContentType::Text
        }
    }

    /// The number of a kind on the wire.
    pub open spec fn wire(self) -> i32 {
        match self {
            ClipboardContentType::Text => 1,
            ClipboardContentType::ImagePng => 2,
            ClipboardContentType::FilePath => 3,
        }
    }

    /// The kind that a number on the wire stands for.
    pub fn from_proto_value(val: i32) -> (kind: Self)
        ensures
            kind == Self::of_wire(val),
    {
        match val {
            1 => Self::Text,
            2 => Self::ImagePng,
            3 => Self::FilePath,
            _ => Self::Text,
        }
    }

    /// The number of a kind on the wire.
    pub fn to_proto_value(&self) -> (val: i32)
        ensures
            val == self.wire(),
    {
        match self {
            Self::Text => 1,
            Self::ImagePng => 2,
            Self::FilePath => 3,
        }
    }
}

/// A kind survives the wire.
pub proof fn law_content_type_round_trip(kind: ClipboardContentType)
    ensures
        ClipboardContentType::of_wire(kind.wire()) == kind,
{
}

/// Clipboard content with the host it came from.
#[derive(Debug)]
pub struct ClipboardEntry {
    pub content_type: ClipboardContentType,
    pub data: Vec<u8>,
    pub origin_host: String,
}

/// An entry as it travels.
#[derive(Debug)]
pub struct WireClipboardEntry {
    pub content_type: i32,
    pub data: Vec<u8>,
    pub origin_host: String,
}

/// What a [`ClipboardEntry`] holds.
#[verifier::ext_equal]
pub struct EntryContent {
    pub content_type: ClipboardContentType,
    pub data: Seq<u8>,
    pub origin_host: Seq<char>,
}

impl View for ClipboardEntry {
    type V = EntryContent;

    open spec fn view(&self) -> EntryContent {
        EntryContent {
            content_type: self.content_type,
            data: self.data@,
            origin_host: self.origin_host@,
        }
    }
}

impl Clone for ClipboardEntry {
    fn clone(&self) -> (copy: Self)
        ensures
            copy@ == self@,
    {
        let mut data: Vec<u8> = Vec::new();
        append_bytes(&mut data, self.data.as_slice());
        assert(data@ =~= self.data@);
        ClipboardEntry {
            content_type: self.content_type,
            data,
            origin_host: self.origin_host.clone(),
        }
    }
}

/// Bytes behind bytes.
pub(crate) fn append_bytes(bytes: &mut Vec<u8>, more: &[u8])
    ensures
        final(bytes)@ == old(bytes)@ + more@,
{
    let mut i: usize = 0;
    assert(bytes@ =~= old(bytes)@ + more@.take(0));
    while i < more.len()
        invariant
            i <= more@.len(),
            bytes@ == old(bytes)@ + more@.take(i as int),
        decreases more@.len() - i,
    {
        bytes.push(more[i]);
        assert(bytes@ =~= old(bytes)@ + more@.take(i + 1));
        i += 1;
    }
    assert(more@.take(i as int) =~= more@);
}

impl ClipboardEntry {
    /// An entry that arrived.
    pub fn from_proto(entry: &WireClipboardEntry) -> (received: Self)
        ensures
            received@ == (EntryContent {
                content_type: ClipboardContentType::of_wire(entry.content_type),
                data: entry.data@,
                origin_host: entry.origin_host@,
            }),
    {
        let mut data: Vec<u8> = Vec::new();
        append_bytes(&mut data, entry.data.as_slice());
        assert(data@ =~= entry.data@);
        ClipboardEntry {
            content_type: ClipboardContentType::from_proto_value(entry.content_type),
            data,
            origin_host: entry.origin_host.clone(),
        }
    }

    /// The entry as it travels.
    pub fn to_proto(&self) -> (sent: WireClipboardEntry)
        ensures
            sent.content_type == self.content_type.wire(),
            sent.data@ == self.data@,
            sent.origin_host@ == self.origin_host@,
    {
        let mut data: Vec<u8> = Vec::new();
        append_bytes(&mut data, self.data.as_slice());
        assert(data@ =~= self.data@);
        WireClipboardEntry {
            content_type: self.content_type.to_proto_value(),
            data,
            origin_host: self.origin_host.clone(),
        }
    }

    /// A text entry.
    pub fn text(text: &str, origin_host: String) -> (entry: Self)
        ensures
            entry@ == (EntryContent {
                content_type: ClipboardContentType::Text,
                data: encode_utf8(text@),
                origin_host: origin_host@,
            }),
    {
        let mut data: Vec<u8> = Vec::new();
        append_bytes(&mut data, text.as_bytes());
        assert(data@ =~= encode_utf8(text@));
        ClipboardEntry { content_type: ClipboardContentType::Text, data, origin_host }
    }
}

/// What the `base64` crate's standard engine decodes a text to, if it does.
pub uninterp spec fn base64_decoded(text: Seq<char>) -> Option<Seq<u8>>;

/// `base64::engine::general_purpose::STANDARD.decode`: whether and to which bytes a text
/// decodes depends on the text alone. What decoding does is not restated here.
#[verifier::external_body]
pub(crate) fn decode_base64(text: &str) -> (decoded: Option<Vec<u8>>)
    ensures
        match decoded {
            Some(bytes) => base64_decoded(text@) == Some(bytes@),
            None => base64_decoded(text@) is None,
        },
{
    base64::Engine::decode(&base64::engine::general_purpose::STANDARD, text).ok()
}

/// Every attached client is to be told that the clipboard changed.
#[derive(Clone, Copy, Debug, PartialEq, Eq, Structural)]
pub struct ClipboardChanged;

/// Why the clipboard was not set.
#[derive(Clone, Copy, Debug, PartialEq, Eq, Structural)]
pub enum ClipboardError {
    /// The content is not base64.
    InvalidBase64,
}

/// The clipboard that all clients of a server share. It changes only when something is copied.
#[derive(Debug)]
pub struct ServerClipboard {
    current: Option<ClipboardEntry>,
}

impl ServerClipboard {
    /// What the clipboard holds.
    pub closed spec fn view(&self) -> Option<EntryContent> {
        match self.current {
            Some(entry) => Some(entry@),
            None => None,
        }
    }

    /// An empty clipboard.
    pub fn new() -> (clipboard: Self)
        ensures
            clipboard@ is None,
    {
        ServerClipboard { current: None }
    }

    /// Replace the content.
    pub fn set_clipboard(&mut self, entry: ClipboardEntry) -> (changed: ClipboardChanged)
        ensures
            final(self)@ == Some(entry@),
    {
        self.current = Some(entry);
        ClipboardChanged
    }

    /// The content.
    pub fn get_clipboard(&self) -> (entry: Option<ClipboardEntry>)
        ensures
            match entry {
                Some(e) => self@ == Some(e@),
                None => self@ is None,
            },
    {
        match &self.current {
            Some(entry) => Some(entry.clone()),
            None => None,
        }
    }

    /// Replace the content by decoded text, or leave it if there is none.
    pub fn set_decoded(&mut self, decoded: Option<Vec<u8>>, origin_host: String) -> (changed: Result<
        ClipboardChanged,
        ClipboardError,
    >)
        ensures
            match decoded {
                Some(data) => changed is Ok && final(self)@ == Some(
                    EntryContent {
                        content_type: ClipboardContentType::Text,
                        data: data@,
                        origin_host: origin_host@,
                    },
                ),
                None => changed == Err::<ClipboardChanged, ClipboardError>(
                    ClipboardError::InvalidBase64,
                ) && final(self)@ == old(self)@,
            },
    {
        match decoded {
            Some(data) => {
                let entry = ClipboardEntry {
                    content_type: ClipboardContentType::Text,
                    data,
                    origin_host,
                };
                Ok(self.set_clipboard(entry))
            },
            None => Err(ClipboardError::InvalidBase64),
        }
    }

    /// Replace the content by the text of an OSC 52 sequence, which is base64.
    pub fn set_from_osc52(&mut self, base64_data: &str, origin_host: String) -> (changed: Result<
        ClipboardChanged,
        ClipboardError,
    >)
        ensures
            match base64_decoded(base64_data@) {
                Some(data) => changed is Ok && final(self)@ == Some(
                    EntryContent {
                        content_type: ClipboardContentType::Text,
                        data,
                        origin_host: origin_host@,
                    },
                ),
                None => changed == Err::<ClipboardChanged, ClipboardError>(
                    ClipboardError::InvalidBase64,
                ) && final(self)@ == old(self)@,
            },
    {
        self.set_decoded(decode_base64(base64_data), origin_host)
    }
}

impl Default for ServerClipboard {
    fn default() -> (clipboard: Self)
        ensures
            clipboard@ is None,
    {
        ServerClipboard::new()
    }
}

/// Where the parser stands in a sequence.
#[derive(Clone, Copy, Debug, PartialEq, Eq, Structural)]
pub enum Osc52State {
    /// Waiting for ESC.
    Idle,
    /// After ESC, waiting for `]`.
    Esc,
    /// In an OSC, collecting its number up to `;`.
    OscParam,
    /// In OSC 52, collecting up to the terminator.
    Osc52,
}

/// Finds OSC 52 sequences in a stream of bytes.
#[derive(Debug)]
pub struct Osc52Parser {
    pub buffer: Vec<u8>,
    pub state: Osc52State,
}

/// What an [`Osc52Parser`] has seen.
#[verifier::ext_equal]
pub struct Osc52Model {
    pub buffer: Seq<u8>,
    pub state: Osc52State,
}

/// What one byte leads to.
pub enum Osc52Outcome {
    /// More bytes are needed.
    Continue,
    /// Parsing of this chunk ends here, with the content if it is well-formed.
    Stop(Option<Seq<char>>),
}

/// The bytes that open OSC 52.
pub open spec fn osc52_opening() -> Seq<u8> {
    seq![0x1b, 0x5d, 0x35, 0x32, 0x3b]
}

/// The content between `ESC ] 52 ; c ;` and the terminating byte: UTF-8 and not empty.
pub open spec fn osc52_content(buffer: Seq<u8>) -> Option<Seq<char>> {
    if buffer.len() >= 9 && buffer[5] == 0x63 && buffer[6] == 0x3b && valid_utf8(
        buffer.subrange(7, buffer.len() - 1),
    ) {
        Some(decode_utf8(buffer.subrange(7, buffer.len() - 1)))
    } else {
        None
    }
}

impl Osc52Model {
    /// The parser before any byte.
    pub open spec fn start() -> Osc52Model {
        Osc52Model { buffer: Seq::empty(), state: Osc52State::Idle }
    }

    /// The bytes collected so far fit the place in the sequence.
    pub open spec fn wf(self) -> bool {
        match self.state {
            Osc52State::Idle => self.buffer.len() == 0,
            Osc52State::Esc => self.buffer.len() == 1,
            Osc52State::OscParam => self.buffer.len() >= 2,
            Osc52State::Osc52 => self.buffer.len() >= 5,
        }
    }

    /// The parser after one more byte.
    pub open spec fn stepped(self, byte: u8) -> Osc52Model {
        let grown = self.buffer.push(byte);
        match self.state {
            Osc52State::Idle => if byte == 0x1b {
                Osc52Model { buffer: grown, state: Osc52State::Esc }
            } else {
                Osc52Model::start()
            },
            Osc52State::Esc => if byte == 0x5d {
                Osc52Model { buffer: grown, state: Osc52State::OscParam }
            } else {
                Osc52Model::start()
            },
            Osc52State::OscParam => if byte != 0x3b {
                Osc52Model { buffer: grown, state: Osc52State::OscParam }
            } else if grown.subrange(2, grown.len() - 1) == seq![0x35u8, 0x32] {
                Osc52Model { buffer: osc52_opening(), state: Osc52State::Osc52 }
            } else {
                Osc52Model::start()
            },
            Osc52State::Osc52 => if (byte == 0x07 || byte == 0x1b) && osc52_content(
                grown,
            ) is Some {
                Osc52Model::start()
            } else {
                Osc52Model { buffer: grown, state: Osc52State::Osc52 }
            },
        }
    }

    /// What one more byte leads to.
    pub open spec fn outcome(self, byte: u8) -> Osc52Outcome {
        if self.state == Osc52State::Osc52 && (byte == 0x07 || byte == 0x1b) {
            Osc52Outcome::Stop(osc52_content(self.buffer.push(byte)))
        } else {
            Osc52Outcome::Continue
        }
    }

    /// The parser after a chunk. What stands behind a terminator in the same chunk is dropped.
    pub open spec fn after(self, bytes: Seq<u8>) -> Osc52Model
        decreases bytes.len(),
    {
        if bytes.len() == 0 {
            self
        } else {
            match self.outcome(bytes[0]) {
                Osc52Outcome::Stop(_) => self.stepped(bytes[0]),
                Osc52Outcome::Continue => self.stepped(bytes[0]).after(bytes.skip(1)),
            }
        }
    }

    /// The content that a chunk completes.
    pub open spec fn found(self, bytes: Seq<u8>) -> Option<Seq<char>>
        decreases bytes.len(),
    {
        if bytes.len() == 0 {
            None
        } else {
            match self.outcome(bytes[0]) {
                Osc52Outcome::Stop(content) => content,
                Osc52Outcome::Continue => self.stepped(bytes[0]).found(bytes.skip(1)),
            }
        }
    }

    /// Whether a chunk is taken in to its end.
    pub open spec fn runs_through(self, bytes: Seq<u8>) -> bool
        decreases bytes.len(),
    {
        bytes.len() == 0 || (self.outcome(bytes[0]) is Continue && self.stepped(
            bytes[0],
        ).runs_through(bytes.skip(1)))
    }
}

impl View for Osc52Parser {
    type V = Osc52Model;

    open spec fn view(&self) -> Osc52Model {
        Osc52Model { buffer: self.buffer@, state: self.state }
    }
}

impl Osc52Parser {
    /// A parser that has seen nothing.
    pub fn new() -> (parser: Self)
        ensures
            parser@ == Osc52Model::start(),
            parser@.wf(),
    {
        let parser = Osc52Parser { buffer: Vec::new(), state: Osc52State::Idle };
        assert(parser@ =~= Osc52Model::start());
        parser
    }

    /// Take in a chunk. The answer is the base64 content of the first sequence it completes;
    /// nothing as long as none is complete, or when the completed one is malformed.
    pub fn feed(&mut self, bytes: &[u8]) -> (content: Option<String>)
        requires
            old(self)@.wf(),
        ensures
            final(self)@.wf(),
            final(self)@ == old(self)@.after(bytes@),
            match content {
                Some(text) => old(self)@.found(bytes@) == Some(text@),
                None => old(self)@.found(bytes@) is None,
            },
    {
        let mut i: usize = 0;
        assert(bytes@.skip(0) =~= bytes@);
        while i < bytes.len()
            invariant
                i <= bytes@.len(),
                self@.wf(),
                old(self)@.after(bytes@) == self@.after(bytes@.skip(i as int)),
                old(self)@.found(bytes@) == self@.found(bytes@.skip(i as int)),
            decreases bytes@.len() - i,
        {
            let byte = bytes[i];
            let ghost before = self@;
            let ghost rest = bytes@.skip(i as int);
            assert(rest[0] == byte);
            assert(rest.skip(1) =~= bytes@.skip(i + 1));
            self.buffer.push(byte);
            match self.state {
                Osc52State::Idle => {
                    if byte == 0x1b {
                        self.state = Osc52State::Esc;
                    } else {
                        self.buffer.clear();
                    }
                },
                Osc52State::Esc => {
                    if byte == 0x5d {
                        self.state = Osc52State::OscParam;
                    } else {
                        self.state = Osc52State::Idle;
                        self.buffer.clear();
                    }
                },
                Osc52State::OscParam => {
                    if byte == 0x3b {
                        let ghost grown = before.buffer.push(byte);
                        let len = self.buffer.len();
                        let is_52 = len == 5 && self.buffer[2] == 0x35 && self.buffer[3] == 0x32;
                        proof {
                            let number = grown.subrange(2, grown.len() - 1);
                            if is_52 {
                                assert(number =~= seq![0x35u8, 0x32]);
                            } else if number == seq![0x35u8, 0x32] {
                                assert(number.len() == 2);
                                assert(number[0] == grown[2] && number[1] == grown[3]);
                            }
                        }
                        if is_52 {
                            let mut opening: Vec<u8> = Vec::new();
                            opening.push(0x1b);
                            opening.push(0x5d);
                            opening.push(0x35);
                            opening.push(0x32);
                            opening.push(0x3b);
                            assert(opening@ =~= osc52_opening());
                            self.buffer = opening;
                            self.state = Osc52State::Osc52;
                        } else {
                            self.state = Osc52State::Idle;
                            self.buffer.clear();
                        }
                    }
                },
                Osc52State::Osc52 => {
                    if byte == 0x07 || byte == 0x1b {
                        match self.extract_osc52_content() {
                            Some(content) => {
                                self.buffer.clear();
                                self.state = Osc52State::Idle;
                                assert(self@ =~= before.stepped(byte));
                                return Some(content);
                            },
                            None => {
                                assert(self@ =~= before.stepped(byte));
                                return None;
                            },
                        }
                    }
                },
            }
            assert(self@ =~= before.stepped(byte));
            i += 1;
        }
        assert(bytes@.skip(i as int) =~= Seq::<u8>::empty());
        None
    }

    /// The content of a terminated sequence.
    fn extract_osc52_content(&self) -> (content: Option<String>)
        ensures
            match content {
                Some(text) => osc52_content(self.buffer@) == Some(text@),
                None => osc52_content(self.buffer@) is None,
            },
    {
        if self.buffer.len() < 9 || self.buffer[5] != 0x63 || self.buffer[6] != 0x3b {
            return None;
        }
        let body = vstd::slice::slice_subrange(self.buffer.as_slice(), 7, self.buffer.len() - 1);
        utf8_text(body)
    }
}

impl Default for Osc52Parser {
    fn default() -> (parser: Self)
        ensures
            parser@ == Osc52Model::start(),
            parser@.wf(),
    {
        Osc52Parser::new()
    }
}

/// Cutting a stream changes nothing: a chunk that is taken in to its end may as well have come
/// together with the next.
pub proof fn law_osc52_chunks_join(m: Osc52Model, a: Seq<u8>, b: Seq<u8>)
    requires
        m.runs_through(a),
    ensures
        m.after(a + b) == m.after(a).after(b),
        m.found(a + b) == m.after(a).found(b),
        m.found(a) is None,
    decreases a.len(),
{
    if a.len() == 0 {
        assert(a + b =~= b);
    } else {
        assert((a + b)[0] == a[0]);
        assert((a + b).skip(1) =~= a.skip(1) + b);
        law_osc52_chunks_join(m.stepped(a[0]), a.skip(1), b);
    }
}

proof fn lemma_osc52_body(m: Osc52Model, body: Seq<u8>)
    requires
        m.state == Osc52State::Osc52,
        forall|i: int| 0 <= i < body.len() ==> #[trigger] body[i] != 0x07 && body[i] != 0x1b,
    ensures
        m.runs_through(body),
        m.after(body) == (Osc52Model { buffer: m.buffer + body, state: Osc52State::Osc52 }),
    decreases body.len(),
{
    if body.len() == 0 {
        assert(m.buffer + body =~= m.buffer);
        assert(m.after(body) =~= m);
    } else {
        assert(body[0] != 0x07 && body[0] != 0x1b);
        let rest = body.skip(1);
        assert forall|i: int| 0 <= i < rest.len() implies #[trigger] rest[i] != 0x07 && rest[i]
            != 0x1b by {
            assert(rest[i] == body[i + 1]);
        }
        lemma_osc52_body(m.stepped(body[0]), rest);
        assert(m.buffer.push(body[0]) + rest =~= m.buffer + body);
    }
}

/// A whole sequence hands out its content: `ESC ] 52 ; c ;`, a content of plain UTF-8 bytes that
/// is not empty, and BEL or the ESC of ST.
pub proof fn law_osc52_sequence_is_found(content: Seq<u8>, end: u8)
    requires
        content.len() > 0,
        valid_utf8(content),
        forall|i: int|
            0 <= i < content.len() ==> #[trigger] content[i] != 0x07 && content[i] != 0x1b,
        end == 0x07 || end == 0x1b,
    ensures
        ({
            let bytes = osc52_opening() + seq![0x63u8, 0x3b] + content + seq![end];
            &&& Osc52Model::start().found(bytes) == Some(decode_utf8(content))
            &&& Osc52Model::start().after(bytes) == Osc52Model::start()
        }),
{
    let start = Osc52Model::start();
    let opening = osc52_opening();
    let opened = Osc52Model { buffer: opening, state: Osc52State::Osc52 };
    assert(start.runs_through(opening) && start.after(opening) == opened) by {
        lemma_osc52_opening();
    }
    let body = seq![0x63u8, 0x3b] + content;
    assert forall|i: int| 0 <= i < body.len() implies #[trigger] body[i] != 0x07 && body[i]
        != 0x1b by {
        if i >= 2 {
            assert(body[i] == content[i - 2]);
        }
    }
    lemma_osc52_body(opened, body);
    law_osc52_chunks_join(opened, body, seq![end]);
    let bytes = opening + seq![0x63u8, 0x3b] + content + seq![end];
    assert(bytes =~= opening + (body + seq![end]));
    law_osc52_chunks_join(start, opening, body + seq![end]);
    let full = Osc52Model { buffer: opening + body, state: Osc52State::Osc52 };
    let grown = full.buffer.push(end);
    assert(grown.subrange(7, grown.len() - 1) =~= content);
    assert(grown[5] == 0x63 && grown[6] == 0x3b);
    assert(seq![end][0] == end);
}

proof fn lemma_osc52_opening()
    ensures
        Osc52Model::start().runs_through(osc52_opening()),
        Osc52Model::start().after(osc52_opening()) == (Osc52Model {
            buffer: osc52_opening(),
            state: Osc52State::Osc52,
        }),
{
    let a = osc52_opening();
    let s0 = Osc52Model::start();
    let s1 = s0.stepped(0x1b);
    let s2 = s1.stepped(0x5d);
    let s3 = s2.stepped(0x35);
    let s4 = s3.stepped(0x32);
    let s5 = s4.stepped(0x3b);
    let grown = s4.buffer.push(0x3b);
    assert(grown =~= a);
    assert(grown.subrange(2, grown.len() - 1) =~= seq![0x35u8, 0x32]);
    assert(s5 == (Osc52Model { buffer: a, state: Osc52State::Osc52 }));
    assert(a.skip(1) =~= seq![0x5du8, 0x35, 0x32, 0x3b]);
    assert(a.skip(1).skip(1) =~= seq![0x35u8, 0x32, 0x3b]);
    assert(a.skip(1).skip(1).skip(1) =~= seq![0x32u8, 0x3b]);
    assert(a.skip(1).skip(1).skip(1).skip(1) =~= seq![0x3bu8]);
    assert(a.skip(1).skip(1).skip(1).skip(1).skip(1) =~= Seq::<u8>::empty());
    reveal_with_fuel(Osc52Model::after, 6);
    reveal_with_fuel(Osc52Model::runs_through, 6);
}

/// A text framed for programs that asked for bracketed paste.
pub open spec fn pasted(text: Seq<char>, bracketed: bool) -> Seq<char> {
    if bracketed {
        seq!['\x1b', '[', '2', '0', '0', '~'] + text + seq!['\x1b', '[', '2', '0', '1', '~']
    } else {
        text
    }
}

/// Frame a text for programs that asked for bracketed paste.
pub fn wrap_bracketed_paste(text: &str, bracketed_paste_active: bool) -> (wrapped: String)
    ensures
        wrapped@ == pasted(text@, bracketed_paste_active),
{
    if bracketed_paste_active {
        let mut wrapped = String::new();
        wrapped.append("\x1b[200~");
        wrapped.append(text);
        wrapped.append("\x1b[201~");
        proof {
            reveal_strlit("\x1b[200~");
            reveal_strlit("\x1b[201~");
            assert(wrapped@ =~= pasted(text@, true));
        }
        wrapped
    } else {
        text.to_owned()
    }
}

/// On the wire a text is 1, a picture 2 and a path 3; any other number is taken for a text.
pub proof fn law_kinds_have_their_numbers(val: i32)
    ensures
        ClipboardContentType::Text.wire() == 1,
        ClipboardContentType::ImagePng.wire() == 2,
        ClipboardContentType::FilePath.wire() == 3,
        ClipboardContentType::of_wire(val) is ImagePng <==> val == 2,
        ClipboardContentType::of_wire(val) is FilePath <==> val == 3,
        ClipboardContentType::of_wire(val) is Text <==> val != 2 && val != 3,
{
}

/// A paste is the text itself; where the program asked for it, it stands between `CSI 200 ~` and
/// `CSI 201 ~`.
pub proof fn law_paste_is_framed_where_asked_for(text: Seq<char>)
    ensures
        pasted(text, false) == text,
        ({
            let framed = pasted(text, true);
            &&& framed.len() == text.len() + 12
            &&& framed.subrange(6, framed.len() - 6) == text
            &&& framed.take(6) == seq!['\x1b', '[', '2', '0', '0', '~']
            &&& framed.skip(framed.len() - 6) == seq!['\x1b', '[', '2', '0', '1', '~']
        }),
{
    let framed = pasted(text, true);
    assert(framed.subrange(6, framed.len() - 6) =~= text);
    assert(framed.take(6) =~= seq!['\x1b', '[', '2', '0', '0', '~']);
    assert(framed.skip(framed.len() - 6) =~= seq!['\x1b', '[', '2', '0', '1', '~']);
}

/// `ESC ] 52 ; c ;`, a content that is not empty, and BEL or ESC hand the content out, wherever the
/// stream is cut before it.
pub proof fn law_copied_text_is_handed_out(content: Seq<u8>, end: u8)
    requires
        content.len() > 0,
        valid_utf8(content),
        forall|i: int|
            0 <= i < content.len() ==> #[trigger] content[i] != 0x07 && content[i] != 0x1b,
        end == 0x07 || end == 0x1b,
    ensures
        Osc52Model::start().found(
            seq![0x1b, 0x5d, 0x35, 0x32, 0x3b, 0x63, 0x3b] + content + seq![end],
        ) == Some(decode_utf8(content)),
{
    law_osc52_sequence_is_found(content, end);
    assert(osc52_opening() + seq![0x63u8, 0x3b] =~= seq![
        0x1bu8,
        0x5d,
        0x35,
        0x32,
        0x3b,
        0x63,
        0x3b,
    ]);
}

/// Text without ESC hands nothing out.
pub proof fn law_text_is_not_copied(text: Seq<u8>)
    requires
        forall|i: int| 0 <= i < text.len() ==> #[trigger] text[i] != 0x1b,
    ensures
        Osc52Model::start().found(text) is None,
        Osc52Model::start().after(text) == Osc52Model::start(),
        Osc52Model::start().runs_through(text),
    decreases text.len(),
{
    if text.len() > 0 {
        let rest = text.skip(1);
        assert(text[0] != 0x1b);
        assert forall|i: int| 0 <= i < rest.len() implies #[trigger] rest[i] != 0x1b by {
            assert(rest[i] == text[i + 1]);
        }
        law_text_is_not_copied(rest);
    }
}

/// The number of a sequence is gathered up to its `;`.
proof fn lemma_osc52_number(m: Osc52Model, number: Seq<u8>)
    requires
        m.state == Osc52State::OscParam,
        forall|i: int| 0 <= i < number.len() ==> #[trigger] number[i] != 0x3b,
    ensures
        m.runs_through(number),
        m.after(number) == (Osc52Model { buffer: m.buffer + number, state: Osc52State::OscParam }),
    decreases number.len(),
{
    if number.len() == 0 {
        assert(m.buffer + number =~= m.buffer);
        assert(m.after(number) =~= m);
    } else {
        assert(number[0] != 0x3b);
        let rest = number.skip(1);
        assert forall|i: int| 0 <= i < rest.len() implies #[trigger] rest[i] != 0x3b by {
            assert(rest[i] == number[i + 1]);
        }
        lemma_osc52_number(m.stepped(number[0]), rest);
        assert(m.buffer.push(number[0]) + rest =~= m.buffer + number);
    }
}

/// A sequence of another number is let go at its first `;`, and hands nothing out.
pub proof fn law_other_number_is_not_copied(number: Seq<u8>)
    requires
        forall|i: int| 0 <= i < number.len() ==> #[trigger] number[i] != 0x3b,
        number != seq![0x35u8, 0x32],
    ensures
        Osc52Model::start().found(seq![0x1bu8, 0x5d] + number + seq![0x3bu8]) is None,
        Osc52Model::start().after(seq![0x1bu8, 0x5d] + number + seq![0x3bu8])
            == Osc52Model::start(),
{
    let start = Osc52Model::start();
    let opening = seq![0x1bu8, 0x5d];
    assert(opening.skip(1) =~= seq![0x5du8]);
    assert(opening.skip(1).skip(1) =~= Seq::<u8>::empty());
    reveal_with_fuel(Osc52Model::after, 3);
    reveal_with_fuel(Osc52Model::found, 3);
    reveal_with_fuel(Osc52Model::runs_through, 3);
    let opened = start.after(opening);
    assert(opened.buffer =~= opening);
    assert(start.runs_through(opening));
    lemma_osc52_number(opened, number);
    let gathered = opened.after(number);
    let end = seq![0x3bu8];
    assert(end[0] == 0x3b);
    assert(end.skip(1) =~= Seq::<u8>::empty());
    let grown = gathered.buffer.push(0x3b);
    assert(grown.subrange(2, grown.len() - 1) =~= number);
    assert(gathered.after(end) == start);
    assert(gathered.found(end) is None);
    law_osc52_chunks_join(opened, number, end);
    law_osc52_chunks_join(start, opening, number + end);
    assert(opening + (number + end) =~= opening + number + end);
}

/// A sequence hands a text out only where it is for the clipboard, holds something, and that is
/// text; what it hands out is all that stands between the selection and the end.
pub proof fn law_only_text_for_the_clipboard_counts(
    opening: Seq<u8>,
    selection: u8,
    separator: u8,
    content: Seq<u8>,
    end: u8,
)
    requires
        opening.len() == 5,
    ensures
        osc52_content(opening.push(selection).push(separator) + content.push(end)) == (if selection
            == 0x63 && separator == 0x3b && content.len() > 0 && valid_utf8(content) {
            Some(decode_utf8(content))
        } else {
            None
        }),
{
    let buffer = opening.push(selection).push(separator) + content.push(end);
    assert(buffer[5] == selection && buffer[6] == separator);
    if content.len() > 0 {
        assert(buffer.subrange(7, buffer.len() - 1) =~= content);
    }
}

} // verus!
