//! Finds the messages of the shell integration in the bytes that a shell writes:
//! - `ESC ] 1337 ; TermulCmd=<cmd> ; <cwd> BEL`: a command starts
//! - `ESC ] 1337 ; TermulEnd=<exit> BEL`: it has ended
//! - `ESC ] 1337 ; TermulBuf=<cursor> ; <buffer> ; <cwd> BEL`: the input line has changed
//!
//! The command, the buffer and the directories are sent in base64.

use crate::text;
use base64::Engine;
use vstd::prelude::*;
use vstd::utf8;

verus! {

/// A message of the shell integration.
#[derive(Debug, PartialEq, Eq)]
pub enum OscEvent {
    /// A command starts in the directory `cwd`.
    CommandStart { cmd: String, cwd: String },
    /// The command has ended with this exit code.
    CommandEnd { exit: i32 },
    /// The input line has changed: the cursor (counted in characters), the text, the directory.
    BufferUpdate { cursor: usize, buffer: String, cwd: String },
}

/// What an `OscEvent` says.
pub enum OscEventView {
    CommandStart { cmd: Seq<char>, cwd: Seq<char> },
    CommandEnd { exit: int },
    BufferUpdate { cursor: int, buffer: Seq<char>, cwd: Seq<char> },
}

impl View for OscEvent {
    type V = OscEventView;

    open spec fn view(&self) -> OscEventView {
        match self {
            OscEvent::CommandStart { cmd, cwd } => OscEventView::CommandStart {
                cmd: cmd@,
                cwd: cwd@,
            },
            OscEvent::CommandEnd { exit } => OscEventView::CommandEnd { exit: *exit as int },
            OscEvent::BufferUpdate { cursor, buffer, cwd } => OscEventView::BufferUpdate {
                cursor: *cursor as int,
                buffer: buffer@,
                cwd: cwd@,
            },
        }
    }
}

/// What a list of events says.
pub open spec fn events_view(events: Seq<OscEvent>) -> Seq<OscEventView> {
    Seq::new(events.len(), |i: int| events[i]@)
}

/// Where the scanner stands in the stream.
#[derive(Debug, PartialEq, Eq, Clone, Copy, Structural)]
pub enum ScanMode {
    /// Outside a sequence.
    Normal,
    /// Behind an `ESC`.
    Esc,
    /// Inside an operating system command.
    Osc,
}

/// The longest payload that is kept; what comes behind it is dropped.
pub const MAX_OSC: usize = 262144;

/// A scanner that can be fed in pieces.
#[derive(Debug)]
pub struct OscScanner {
    mode: ScanMode,
    buf: Vec<u8>,
}

/// The mode and the payload so far, after one more byte, and the payload that the byte ended.
pub open spec fn scan_step(mode: ScanMode, buf: Seq<u8>, b: u8) -> (
    ScanMode,
    Seq<u8>,
    Option<Seq<u8>>,
) {
    match mode {
        ScanMode::Normal => (
            if b == 0x1b {
                ScanMode::Esc
            } else {
                ScanMode::Normal
            },
            buf,
            None,
        ),
        ScanMode::Esc => if b == 0x5d {
            (ScanMode::Osc, Seq::empty(), None)
        } else {
            (ScanMode::Normal, buf, None)
        },
        ScanMode::Osc => if b == 0x07 {
            (ScanMode::Normal, Seq::empty(), Some(buf))
        } else if b == 0x1b {
            (ScanMode::Esc, Seq::empty(), None)
        } else if buf.len() < MAX_OSC {
            (ScanMode::Osc, buf.push(b), None)
        } else {
            (ScanMode::Osc, buf, None)
        },
    }
}

/// The mode and the payload so far after the bytes, and the payloads that ended among them.
pub open spec fn scanned(mode: ScanMode, buf: Seq<u8>, bytes: Seq<u8>) -> (
    ScanMode,
    Seq<u8>,
    Seq<Seq<u8>>,
)
    decreases bytes.len(),
{
    if bytes.len() == 0 {
        (mode, buf, Seq::empty())
    } else {
        let (m, p, found) = scanned(mode, buf, bytes.drop_last());
        let (m2, p2, ended) = scan_step(m, p, bytes.last());
        (
            m2,
            p2,
            match ended {
                Some(payload) => found.push(payload),
                None => found,
            },
        )
    }
}

/// The events of the payloads that are messages.
pub open spec fn events_of(payloads: Seq<Seq<u8>>) -> Seq<OscEventView>
    decreases payloads.len(),
{
    if payloads.len() == 0 {
        Seq::empty()
    } else {
        let before = events_of(payloads.drop_last());
        match event_of(payloads.last()) {
            Some(event) => before.push(event),
            None => before,
        }
    }
}

/// What the base64 text stands for, where it is well formed: the standard alphabet with padding.
pub uninterp spec fn base64_decoded(text: Seq<char>) -> Option<Seq<u8>>;

/// `Engine::decode` of `base64::engine::general_purpose::STANDARD`: whether the text is accepted,
/// and the bytes it stands for, depend on the text alone.
#[verifier::external_body]
fn base64_decode(text: &str) -> (r: Option<Vec<u8>>)
    ensures
        match r {
            Some(bytes) => base64_decoded(text@) == Some(bytes@),
            None => base64_decoded(text@) is None,
        },
{
    base64::engine::general_purpose::STANDARD.decode(text).ok()
}

/// A message with its fields as they are sent.
#[derive(Debug, PartialEq, Eq)]
pub enum Message {
    Start { cmd: Vec<char>, cwd: Vec<char> },
    End { exit: i32 },
    Buffer { cursor: usize, buffer: Vec<char>, cwd: Vec<char> },
}

/// What a `Message` says.
pub enum MessageView {
    Start { cmd: Seq<char>, cwd: Seq<char> },
    End { exit: int },
    Buffer { cursor: int, buffer: Seq<char>, cwd: Seq<char> },
}

impl View for Message {
    type V = MessageView;

    open spec fn view(&self) -> MessageView {
        match self {
            Message::Start { cmd, cwd } => MessageView::Start { cmd: cmd@, cwd: cwd@ },
            Message::End { exit } => MessageView::End { exit: *exit as int },
            Message::Buffer { cursor, buffer, cwd } => MessageView::Buffer {
                cursor: *cursor as int,
                buffer: buffer@,
                cwd: cwd@,
            },
        }
    }
}

/// The message in the text of a payload: a known prefix, then fields between semicolons.
pub open spec fn message_of(s: Seq<char>) -> Option<MessageView> {
    let start = "1337;TermulCmd="@;
    let end = "1337;TermulEnd="@;
    let buf = "1337;TermulBuf="@;
    if start.is_prefix_of(s) {
        match text::halves(s.skip(start.len() as int), ';') {
            Some((cmd, cwd)) => Some(MessageView::Start { cmd, cwd }),
            None => None,
        }
    } else if end.is_prefix_of(s) {
        match text::parsed_signed(s.skip(end.len() as int), i32::MIN as int, i32::MAX as int) {
            Some(exit) => Some(MessageView::End { exit }),
            None => None,
        }
    } else if buf.is_prefix_of(s) {
        match text::halves(s.skip(buf.len() as int), ';') {
            Some((cursor, rest)) => match (
                text::parsed_unsigned(cursor, 10, usize::MAX as int),
                text::halves(rest, ';'),
            ) {
                (Some(cursor), Some((buffer, cwd))) => Some(
                    MessageView::Buffer { cursor, buffer, cwd },
                ),
                _ => None,
            },
            None => None,
        }
    } else {
        None
    }
}

/// The text in the bytes of a field, where the field could be decoded and holds text.
pub open spec fn text_of(bytes: Option<Seq<u8>>) -> Option<Seq<char>> {
    match bytes {
        Some(b) => if utf8::valid_utf8(b) {
            Some(utf8::decode_utf8(b))
        } else {
            None
        },
        None => None,
    }
}

/// The event of a message with the texts of its fields; none where a field has no text.
pub open spec fn event_with(
    message: MessageView,
    first: Option<Seq<char>>,
    second: Option<Seq<char>>,
) -> Option<OscEventView> {
    match message {
        MessageView::End { exit } => Some(OscEventView::CommandEnd { exit }),
        MessageView::Start { .. } => match (first, second) {
            (Some(cmd), Some(cwd)) => Some(OscEventView::CommandStart { cmd, cwd }),
            _ => None,
        },
        MessageView::Buffer { cursor, .. } => match (first, second) {
            (Some(buffer), Some(cwd)) => Some(OscEventView::BufferUpdate { cursor, buffer, cwd }),
            _ => None,
        },
    }
}

/// The event of a payload, where it is a message.
pub open spec fn event_of(payload: Seq<u8>) -> Option<OscEventView> {
    match text_of(Some(payload)) {
        Some(s) => match message_of(s) {
            Some(MessageView::Start { cmd, cwd }) => event_with(
                MessageView::Start { cmd, cwd },
                text_of(base64_decoded(cmd)),
                text_of(base64_decoded(cwd)),
            ),
            Some(MessageView::Buffer { cursor, buffer, cwd }) => event_with(
                MessageView::Buffer { cursor, buffer, cwd },
                text_of(base64_decoded(buffer)),
                text_of(base64_decoded(cwd)),
            ),
            Some(message) => event_with(message, None, None),
            None => None,
        },
        None => None,
    }
}

/// What an optional text says.
pub open spec fn text_view(s: Option<String>) -> Option<Seq<char>> {
    match s {
        Some(t) => Some(t@),
        None => None,
    }
}

/// The message in the text of a payload.
pub fn read_message(s: &[char]) -> (r: Option<Message>)
    ensures
        match r {
            Some(m) => message_of(s@) == Some(m@),
            None => message_of(s@) is None,
        },
{
    proof {
        reveal_strlit("1337;TermulCmd=");
        reveal_strlit("1337;TermulEnd=");
        reveal_strlit("1337;TermulBuf=");
    }
    if text::starts_with(s, "1337;TermulCmd=") {
        let rest = text::part(s, 15, s.len());
        assert(rest@ =~= s@.skip(15));
        match text::split_once(&rest, ';') {
            Some((cmd, cwd)) => Some(Message::Start { cmd, cwd }),
            None => None,
        }
    } else if text::starts_with(s, "1337;TermulEnd=") {
        let rest = text::part(s, 15, s.len());
        assert(rest@ =~= s@.skip(15));
        match text::parse_i32(&rest) {
            Some(exit) => Some(Message::End { exit }),
            None => None,
        }
    } else if text::starts_with(s, "1337;TermulBuf=") {
        let rest = text::part(s, 15, s.len());
        assert(rest@ =~= s@.skip(15));
        match text::split_once(&rest, ';') {
            Some((cursor, rest)) => match (text::parse_usize(&cursor), text::split_once(&rest, ';')) {
                (Some(cursor), Some((buffer, cwd))) => Some(
                    Message::Buffer { cursor, buffer, cwd },
                ),
                _ => None,
            },
            None => None,
        }
    } else {
        None
    }
}

/// The text in the bytes of a decoded field.
pub fn field_text(bytes: Option<Vec<u8>>) -> (r: Option<String>)
    ensures
        text_view(r) == text_of(
            match bytes {
                Some(b) => Some(b@),
                None => None,
            },
        ),
{
    match bytes {
        Some(b) => text::utf8_text(b),
        None => None,
    }
}

/// The event of a message with the texts of its fields.
pub fn message_event(message: Message, first: Option<String>, second: Option<String>) -> (r: Option<
    OscEvent,
>)
    ensures
        match r {
            Some(event) => event_with(message@, text_view(first), text_view(second)) == Some(
                event@,
            ),
            None => event_with(message@, text_view(first), text_view(second)) is None,
        },
{
    match message {
        Message::End { exit } => Some(OscEvent::CommandEnd { exit }),
        Message::Start { .. } => match (first, second) {
            (Some(cmd), Some(cwd)) => Some(OscEvent::CommandStart { cmd, cwd }),
            _ => None,
        },
        Message::Buffer { cursor, .. } => match (first, second) {
            (Some(buffer), Some(cwd)) => Some(OscEvent::BufferUpdate { cursor, buffer, cwd }),
            _ => None,
        },
    }
}

/// The text that a field holds in base64.
fn b64(field: &[char]) -> (r: Option<String>)
    ensures
        text_view(r) == text_of(base64_decoded(field@)),
{
    let s = text::string_of(field);
    field_text(base64_decode(s.as_str()))
}

/// The event of a payload, where it is a message.
pub fn parse_payload(buf: &[u8]) -> (r: Option<OscEvent>)
    ensures
        match r {
            Some(event) => event_of(buf@) == Some(event@),
            None => event_of(buf@) is None,
        },
{
    let s = match text::utf8_text(vstd::slice::slice_to_vec(buf)) {
        Some(s) => s,
        None => return None,
    };
    let chars = text::chars_of(s.as_str());
    match read_message(&chars) {
        None => None,
        Some(Message::Start { cmd, cwd }) => {
            let first = b64(&cmd);
            let second = b64(&cwd);
            message_event(Message::Start { cmd, cwd }, first, second)
        },
        Some(Message::Buffer { cursor, buffer, cwd }) => {
            let first = b64(&buffer);
            let second = b64(&cwd);
            message_event(Message::Buffer { cursor, buffer, cwd }, first, second)
        },
        Some(message) => message_event(message, None, None),
    }
}

impl Default for OscScanner {
    fn default() -> (r: Self)
        ensures
            r.mode() == ScanMode::Normal,
            r.payload() == Seq::<u8>::empty(),
    {
        OscScanner { mode: ScanMode::Normal, buf: Vec::new() }
    }
}

impl OscScanner {
    /// Where the scanner stands.
    pub closed spec fn mode(&self) -> ScanMode {
        self.mode
    }

    /// The payload so far.
    pub closed spec fn payload(&self) -> Seq<u8> {
        self.buf@
    }

    /// Scans more bytes and adds the events found to `out`.
    pub fn scan(&mut self, bytes: &[u8], out: &mut Vec<OscEvent>)
        ensures
            ({
                let (mode, payload, found) = scanned(old(self).mode(), old(self).payload(), bytes@);
                &&& final(self).mode() == mode
                &&& final(self).payload() == payload
                &&& events_view(final(out)@) == events_view(old(out)@) + events_of(found)
            }),
    {
        let mut i: usize = 0;
        let ghost mode0 = self.mode;
        let ghost buf0 = self.buf@;
        let ghost out0 = events_view(out@);
        assert(bytes@.take(0) =~= Seq::empty());
        assert(out0 + events_of(Seq::empty()) =~= out0);
        while i < bytes.len()
            invariant
                i <= bytes@.len(),
                ({
                    let (mode, payload, found) = scanned(mode0, buf0, bytes@.take(i as int));
                    &&& self.mode == mode
                    &&& self.buf@ == payload
                    &&& events_view(out@) == out0 + events_of(found)
                }),
            decreases bytes@.len() - i,
        {
            let b: u8 = bytes[i];
            let ghost head = bytes@.take(i as int);
            let ghost next = bytes@.take(i + 1);
            let ghost found = scanned(mode0, buf0, head).2;
            let ghost seen = events_view(out@);
            assert(next.drop_last() =~= head);
            assert(next.last() == b);
            match self.mode {
                ScanMode::Normal => {
                    if b == 0x1b {
                        self.mode = ScanMode::Esc;
                    }
                },
                ScanMode::Esc => {
                    if b == 0x5d {
                        self.mode = ScanMode::Osc;
                        self.buf.clear();
                    } else {
                        self.mode = ScanMode::Normal;
                    }
                },
                ScanMode::Osc => {
                    if b == 0x07 {
                        let ghost payload = self.buf@;
                        let event = parse_payload(&self.buf);
                        assert(found.push(payload).drop_last() =~= found);
                        if let Some(event) = event {
                            out.push(event);
                            assert(events_view(out@) =~= seen.push(event@));
                            assert(events_view(out@) =~= out0 + events_of(found.push(payload)));
                        }
                        self.buf.clear();
                        self.mode = ScanMode::Normal;
                    } else if b == 0x1b {
                        self.buf.clear();
                        self.mode = ScanMode::Esc;
                    } else if self.buf.len() < MAX_OSC {
                        self.buf.push(b);
                    }
                },
            }
            i = i + 1;
        }
        assert(bytes@.take(i as int) =~= bytes@);
    }
}

/// Feeding a stream in two pieces finds the same as feeding it whole.
pub proof fn scanning_in_pieces(mode: ScanMode, buf: Seq<u8>, a: Seq<u8>, b: Seq<u8>)
    ensures
        ({
            let (m1, p1, f1) = scanned(mode, buf, a);
            let (m2, p2, f2) = scanned(m1, p1, b);
            scanned(mode, buf, a + b) == (m2, p2, f1 + f2)
        }),
        ({
            let (m1, p1, f1) = scanned(mode, buf, a);
            let (m2, p2, f2) = scanned(m1, p1, b);
            events_of(f1 + f2) == events_of(f1) + events_of(f2)
        }),
    decreases b.len(),
{
    let (m1, p1, f1) = scanned(mode, buf, a);
    let f2 = scanned(m1, p1, b).2;
    events_of_parts(f1, f2);
    if b.len() == 0 {
        assert(a + b =~= a);
        assert(f1 + f2 =~= f1);
    } else {
        let t = b.drop_last();
        scanning_in_pieces(mode, buf, a, t);
        assert((a + b).drop_last() =~= a + t);
        assert((a + b).last() == b.last());
        let (m3, p3, f3) = scanned(m1, p1, t);
        match scan_step(m3, p3, b.last()).2 {
            Some(payload) => {
                assert((f1 + f3).push(payload) =~= f1 + f3.push(payload));
            },
            None => {},
        }
    }
}

proof fn events_of_parts(a: Seq<Seq<u8>>, b: Seq<Seq<u8>>)
    ensures
        events_of(a + b) == events_of(a) + events_of(b),
    decreases b.len(),
{
    if b.len() == 0 {
        assert(a + b =~= a);
        assert(events_of(a) + events_of(b) =~= events_of(a));
    } else {
        events_of_parts(a, b.drop_last());
        assert((a + b).drop_last() =~= a + b.drop_last());
        match event_of(b.last()) {
            Some(event) => {
                assert((events_of(a) + events_of(b.drop_last())).push(event) =~= events_of(a)
                    + events_of(b.drop_last()).push(event));
            },
            None => {},
        }
    }
}

/// A payload of kept length between `ESC ]` and `BEL` is found, whole, wherever it stands outside
/// a sequence.
pub proof fn sent_payloads_are_found(buf: Seq<u8>, payload: Seq<u8>)
    requires
        payload.len() <= MAX_OSC,
        forall|i: int| 0 <= i < payload.len() ==> #[trigger] payload[i] != 0x07 && payload[i] != 0x1b,
    ensures
        scanned(ScanMode::Normal, buf, seq![0x1bu8, 0x5du8] + payload + seq![0x07u8]) == (
            ScanMode::Normal,
            Seq::<u8>::empty(),
            seq![payload],
        ),
{
    let intro = seq![0x1bu8, 0x5du8];
    let open = seq![0x1bu8];
    let none = Seq::<u8>::empty();
    assert(intro.drop_last() =~= open);
    assert(open.drop_last() =~= none);
    assert(scanned(ScanMode::Normal, buf, none) == (ScanMode::Normal, buf, Seq::<Seq<u8>>::empty()));
    assert(scanned(ScanMode::Normal, buf, open) == (ScanMode::Esc, buf, Seq::<Seq<u8>>::empty()));
    assert(scanned(ScanMode::Normal, buf, intro) == (ScanMode::Osc, none, Seq::<Seq<u8>>::empty()));
    payload_is_kept(payload);
    scanning_in_pieces(ScanMode::Normal, buf, intro, payload);
    let all = intro + payload + seq![0x07u8];
    assert(all.drop_last() =~= intro + payload);
    let nothing = Seq::<Seq<u8>>::empty();
    assert(nothing + nothing =~= nothing);
    assert(nothing.push(payload) =~= seq![payload]);
}

proof fn payload_is_kept(payload: Seq<u8>)
    requires
        payload.len() <= MAX_OSC,
        forall|i: int| 0 <= i < payload.len() ==> #[trigger] payload[i] != 0x07 && payload[i] != 0x1b,
    ensures
        scanned(ScanMode::Osc, Seq::empty(), payload) == (
            ScanMode::Osc,
            payload,
            Seq::<Seq<u8>>::empty(),
        ),
    decreases payload.len(),
{
    if payload.len() > 0 {
        let t = payload.drop_last();
        assert forall|i: int| 0 <= i < t.len() implies #[trigger] t[i] != 0x07 && t[i] != 0x1b by {
            assert(t[i] == payload[i]);
        }
        payload_is_kept(t);
        assert(payload.last() == payload[payload.len() - 1]);
        assert(t.push(payload.last()) =~= payload);
    } else {
        assert(payload =~= Seq::empty());
    }
}

/// What a shell sends is read as it was sent: a command and its directory.
pub proof fn starts_are_read_back(cmd: Seq<char>, cwd: Seq<char>)
    requires
        !cmd.contains(';'),
    ensures
        message_of("1337;TermulCmd="@ + cmd + seq![';'] + cwd) == Some(
            MessageView::Start { cmd, cwd },
        ),
{
    reveal_strlit("1337;TermulCmd=");
    let head = "1337;TermulCmd="@;
    let rest = cmd + seq![';'] + cwd;
    let s = head + cmd + seq![';'] + cwd;
    assert(s.take(head.len() as int) =~= head);
    assert(head.is_prefix_of(s));
    assert(s.skip(head.len() as int) =~= rest);
    split_at_the_first(cmd, cwd);
}

proof fn split_at_the_first(a: Seq<char>, b: Seq<char>)
    requires
        !a.contains(';'),
    ensures
        text::halves(a + seq![';'] + b, ';') == Some((a, b)),
{
    let s = a + seq![';'] + b;
    assert forall|j: int| 0 <= j < a.len() implies #[trigger] s[j] != ';' by {
        assert(a.contains(a[j]));
    }
    assert(s[a.len() as int] == ';');
    text::first_is_index_of(s, ';', a.len() as int);
    assert(s.take(a.len() as int) =~= a);
    assert(s.skip(a.len() as int + 1) =~= b);
}

/// What a shell sends is read as it was sent: how a command has ended.
pub proof fn ends_are_read_back(exit: int)
    requires
        0 <= exit <= i32::MAX,
    ensures
        message_of("1337;TermulEnd="@ + text::decimal(exit)) == Some(MessageView::End { exit }),
{
    reveal_strlit("1337;TermulCmd=");
    reveal_strlit("1337;TermulEnd=");
    let head = "1337;TermulEnd="@;
    let number = text::decimal(exit);
    let s = head + number;
    text::decimal_reads_back(exit);
    assert(s.take(head.len() as int) =~= head);
    assert(head.is_prefix_of(s));
    assert(s.skip(head.len() as int) =~= number);
    assert(s[11] == 'E');
    assert(!"1337;TermulCmd="@.is_prefix_of(s)) by {
        if "1337;TermulCmd="@.is_prefix_of(s) {
            assert(s.subrange(0, 15)[11] == s[11]);
        }
    }
    assert(text::digit_value(number[0], 10) >= 0);
    assert(text::parsed_unsigned(number, 10, i32::MAX as int) == Some(exit));
}

/// What a shell sends is read as it was sent: the cursor, the input line and the directory.
pub proof fn lines_are_read_back(cursor: int, buffer: Seq<char>, cwd: Seq<char>)
    requires
        0 <= cursor <= usize::MAX,
        !buffer.contains(';'),
    ensures
        message_of(
            "1337;TermulBuf="@ + text::decimal(cursor) + seq![';'] + (buffer + seq![';'] + cwd),
        ) == Some(MessageView::Buffer { cursor, buffer, cwd }),
{
    reveal_strlit("1337;TermulCmd=");
    reveal_strlit("1337;TermulEnd=");
    reveal_strlit("1337;TermulBuf=");
    let head = "1337;TermulBuf="@;
    let number = text::decimal(cursor);
    let tail = buffer + seq![';'] + cwd;
    let s = head + number + seq![';'] + tail;
    text::decimal_reads_back(cursor);
    assert(s.take(head.len() as int) =~= head);
    assert(head.is_prefix_of(s));
    assert(s.skip(head.len() as int) =~= number + seq![';'] + tail);
    assert(s[11] == 'B');
    assert(!"1337;TermulCmd="@.is_prefix_of(s)) by {
        if "1337;TermulCmd="@.is_prefix_of(s) {
            assert(s.subrange(0, 15)[11] == s[11]);
        }
    }
    assert(!"1337;TermulEnd="@.is_prefix_of(s)) by {
        if "1337;TermulEnd="@.is_prefix_of(s) {
            assert(s.subrange(0, 15)[11] == s[11]);
        }
    }
    assert(!number.contains(';')) by {
        if number.contains(';') {
            let i = choose|i: int| 0 <= i < number.len() && number[i] == ';';
            assert(text::digit_value(number[i], 10) >= 0);
        }
    }
    split_at_the_first(number, tail);
    split_at_the_first(buffer, cwd);
    assert(text::parsed_unsigned(number, 10, usize::MAX as int) == Some(cursor));
}

/// The events are those of the payloads, in their order: each payload that is a message gives one.
pub proof fn every_message_gives_an_event(payloads: Seq<Seq<u8>>, payload: Seq<u8>)
    ensures
        event_of(payload) is None ==> events_of(payloads.push(payload)) == events_of(payloads),
        event_of(payload) is Some ==> events_of(payloads.push(payload)) == events_of(payloads).push(
            event_of(payload)->0,
        ),
{
    assert(payloads.push(payload).drop_last() =~= payloads);
}

/// A command that a shell announces is the one that is remembered as started, in its directory, once
/// both are decoded.
pub proof fn announced_commands_start(
    payload: Seq<u8>,
    sent_cmd: Seq<char>,
    sent_cwd: Seq<char>,
    cmd: Seq<char>,
    cwd: Seq<char>,
)
    requires
        payload == utf8::encode_utf8("1337;TermulCmd="@ + sent_cmd + seq![';'] + sent_cwd),
        !sent_cmd.contains(';'),
        base64_decoded(sent_cmd) == Some(utf8::encode_utf8(cmd)),
        base64_decoded(sent_cwd) == Some(utf8::encode_utf8(cwd)),
    ensures
        event_of(payload) == Some(OscEventView::CommandStart { cmd, cwd }),
{
    let s = "1337;TermulCmd="@ + sent_cmd + seq![';'] + sent_cwd;
    text_is_read_back(s);
    text_is_read_back(cmd);
    text_is_read_back(cwd);
    starts_are_read_back(sent_cmd, sent_cwd);
}

proof fn text_is_read_back(s: Seq<char>)
    ensures
        text_of(Some(utf8::encode_utf8(s))) == Some(s),
{
    utf8::encode_utf8_decode_utf8(s);
    utf8::encode_utf8_valid_utf8(s);
}

/// The end of a command that a shell announces comes with its exit code.
pub proof fn announced_commands_end(payload: Seq<u8>, exit: int)
    requires
        0 <= exit <= i32::MAX,
        payload == utf8::encode_utf8("1337;TermulEnd="@ + text::decimal(exit)),
    ensures
        event_of(payload) == Some(OscEventView::CommandEnd { exit }),
{
    text_is_read_back("1337;TermulEnd="@ + text::decimal(exit));
    ends_are_read_back(exit);
}

/// The input line that a shell announces is taken over with its cursor and directory, once the texts
/// are decoded.
pub proof fn announced_lines_are_taken(
    payload: Seq<u8>,
    cursor: int,
    sent_buffer: Seq<char>,
    sent_cwd: Seq<char>,
    buffer: Seq<char>,
    cwd: Seq<char>,
)
    requires
        0 <= cursor <= usize::MAX,
        !sent_buffer.contains(';'),
        payload == utf8::encode_utf8(
            "1337;TermulBuf="@ + text::decimal(cursor) + seq![';'] + (sent_buffer + seq![';']
                + sent_cwd),
        ),
        base64_decoded(sent_buffer) == Some(utf8::encode_utf8(buffer)),
        base64_decoded(sent_cwd) == Some(utf8::encode_utf8(cwd)),
    ensures
        event_of(payload) == Some(OscEventView::BufferUpdate { cursor, buffer, cwd }),
{
    let s = "1337;TermulBuf="@ + text::decimal(cursor) + seq![';'] + (sent_buffer + seq![';']
        + sent_cwd);
    text_is_read_back(s);
    text_is_read_back(buffer);
    text_is_read_back(cwd);
    lines_are_read_back(cursor, sent_buffer, sent_cwd);
}

/// A control sequence that is broken off by the start of another is dropped, and the other one is
/// found.
pub proof fn broken_sequences_are_dropped(buf: Seq<u8>)
    ensures
        scanned(ScanMode::Osc, buf, seq![0x1bu8, 0x5d]) == (
            ScanMode::Osc,
            Seq::<u8>::empty(),
            Seq::<Seq<u8>>::empty(),
        ),
{
    reveal_with_fuel(scanned, 3);
    assert(seq![0x1bu8, 0x5d].drop_last() =~= seq![0x1bu8]);
    assert(seq![0x1bu8].drop_last() =~= Seq::<u8>::empty());
}

} // verus!
