//! Follows the capability queries (`DCS + q <names> ST`) in the bytes of a program and answers
//! those that are supported. A name, and the value in an answer, is written in hexadecimal.

use crate::text;
use vstd::prelude::*;

verus! {

/// Where the tracker stands in the stream.
#[derive(Debug, PartialEq, Eq, Clone, Copy, Structural)]
pub enum QueryMode {
    Ground,
    Escape,
    DcsIntro,
    DcsPlus,
    Body,
    BodyEscape,
    Ignore,
    IgnoreEscape,
}

/// An answer, and how far into the observed bytes its query ended.
#[derive(Debug, PartialEq, Eq)]
pub struct XtgettcapResponse {
    pub end_offset: usize,
    pub bytes: Vec<u8>,
}

/// What an answer says: the offset and the bytes.
pub open spec fn response_view(r: XtgettcapResponse) -> (int, Seq<u8>) {
    (r.end_offset as int, r.bytes@)
}

/// What a list of answers says.
pub open spec fn responses_view(list: Seq<XtgettcapResponse>) -> Seq<(int, Seq<u8>)> {
    Seq::new(list.len(), |i: int| response_view(list[i]))
}

/// A tracker that can be fed in pieces.
#[derive(Debug)]
pub struct XtgettcapTracker {
    mode: QueryMode,
    body: Vec<u8>,
    pending: Vec<XtgettcapResponse>,
}

/// The longest list of names that is looked at.
pub const MAX_BODY: usize = 1024;

/// The mode and the names so far, after one more byte, and the names that the byte ended.
pub open spec fn query_step(mode: QueryMode, body: Seq<u8>, b: u8) -> (
    QueryMode,
    Seq<u8>,
    Option<Seq<u8>>,
) {
    let none = Seq::<u8>::empty();
    match mode {
        QueryMode::Ground => if b == 0x1b {
            (QueryMode::Escape, body, None)
        } else if b == 0x90 {
            (QueryMode::DcsIntro, none, None)
        } else {
            (QueryMode::Ground, body, None)
        },
        QueryMode::Escape => if b == 0x50 {
            (QueryMode::DcsIntro, none, None)
        } else if b == 0x1b {
            (QueryMode::Escape, body, None)
        } else {
            (QueryMode::Ground, body, None)
        },
        QueryMode::DcsIntro => if b == 0x2b {
            (QueryMode::DcsPlus, body, None)
        } else {
            (ignoring(b), body, None)
        },
        QueryMode::DcsPlus => if b == 0x71 {
            (QueryMode::Body, body, None)
        } else {
            (ignoring(b), body, None)
        },
        QueryMode::Body => if b == 0x1b {
            (QueryMode::BodyEscape, body, None)
        } else if b == 0x9c {
            (QueryMode::Ground, none, Some(body))
        } else if body.len() < MAX_BODY {
            (QueryMode::Body, body.push(b), None)
        } else {
            (QueryMode::Ignore, none, None)
        },
        QueryMode::BodyEscape => if b == 0x5c {
            (QueryMode::Ground, none, Some(body))
        } else if b == 0x1b {
            (QueryMode::BodyEscape, body, None)
        } else {
            (QueryMode::Ignore, none, None)
        },
        QueryMode::Ignore => (ignoring(b), body, None),
        QueryMode::IgnoreEscape => (
            if b == 0x5c {
                QueryMode::Ground
            } else if b == 0x1b {
                QueryMode::IgnoreEscape
            } else {
                QueryMode::Ignore
            },
            body,
            None,
        ),
    }
}

/// The mode behind a byte of a control string that is no query.
pub open spec fn ignoring(b: u8) -> QueryMode {
    if b == 0x1b {
        QueryMode::IgnoreEscape
    } else if b == 0x9c {
        QueryMode::Ground
    } else {
        QueryMode::Ignore
    }
}

/// The mode and the names so far after the bytes, and the answers to the queries that ended
/// among them.
pub open spec fn observed(mode: QueryMode, body: Seq<u8>, bytes: Seq<u8>) -> (
    QueryMode,
    Seq<u8>,
    Seq<(int, Seq<u8>)>,
)
    decreases bytes.len(),
{
    if bytes.len() == 0 {
        (mode, body, Seq::empty())
    } else {
        let (m, p, found) = observed(mode, body, bytes.drop_last());
        let (m2, p2, ended) = query_step(m, p, bytes.last());
        (
            m2,
            p2,
            match ended {
                Some(names) => found + answers(text::fields(names, 0x3b), bytes.len() as int),
                None => found,
            },
        )
    }
}

/// The answers to the names, in order, each with the offset.
pub open spec fn answers(names: Seq<Seq<u8>>, offset: int) -> Seq<(int, Seq<u8>)>
    decreases names.len(),
{
    if names.len() == 0 {
        Seq::empty()
    } else {
        let before = answers(names.drop_last(), offset);
        match answer(names.last()) {
            Some(bytes) => before.push((offset, bytes)),
            None => before,
        }
    }
}

pub open spec fn is_hex(b: u8) -> bool {
    0x30 <= b <= 0x39 || 0x41 <= b <= 0x46 || 0x61 <= b <= 0x66
}

pub open spec fn upper(b: u8) -> u8 {
    if 0x61 <= b <= 0x7a {
        (b - 0x20) as u8
    } else {
        b
    }
}

/// The upper-case form of each byte.
pub open spec fn uppers(s: Seq<u8>) -> Seq<u8> {
    Seq::new(s.len(), |i: int| upper(s[i]))
}

/// The digit for a value below sixteen.
pub open spec fn hex_digit(v: int) -> u8 {
    if v < 10 {
        (0x30 + v) as u8
    } else {
        (0x41 + v - 10) as u8
    }
}

/// Each byte as two hexadecimal digits.
pub open spec fn hex(bytes: Seq<u8>) -> Seq<u8> {
    Seq::new(
        2 * bytes.len(),
        |i: int|
            hex_digit(
                if i % 2 == 0 {
                    bytes[i / 2] as int / 16
                } else {
                    bytes[i / 2] as int % 16
                },
            ),
    )
}

/// The supported capabilities: the name in hexadecimal, and the value, empty for a capability
/// that is only there or not.
pub open spec fn capability(name: Seq<u8>) -> Option<Seq<char>> {
    // Tc
    if name == text::ascii("5463"@) {
        Some(""@)
        // RGB
    } else if name == text::ascii("524742"@) {
        Some("8"@)
        // setrgbf
    } else if name == text::ascii("73657472676266"@) {
        Some("\\E[38:2:%p1%d:%p2%d:%p3%dm"@)
        // setrgbb
    } else if name == text::ascii("73657472676262"@) {
        Some("\\E[48:2:%p1%d:%p2%d:%p3%dm"@)
        // Ms
    } else if name == text::ascii("4D73"@) {
        Some("\\E]52;%p1%s;%p2%s\\007"@)
        // Su
    } else if name == text::ascii("5375"@) {
        Some(""@)
        // Smulx
    } else if name == text::ascii("536D756C78"@) {
        Some("\\E[4:%p1%dm"@)
        // Setulc
    } else if name == text::ascii("536574756C63"@) {
        Some("\\E[58:2::%p1%{65536}%/%d:%p1%{256}%/%{255}%&%d:%p1%{255}%&%d%;m"@)
    } else {
        None
    }
}

/// The answer to a name, where it is the hexadecimal name of a supported capability.
pub open spec fn answer(name: Seq<u8>) -> Option<Seq<u8>> {
    if name.len() > 0 && name.len() % 2 == 0 && (forall|i: int|
        0 <= i < name.len() ==> is_hex(#[trigger] name[i])) {
        match capability(uppers(name)) {
            Some(value) => Some(
                text::ascii("\x1bP1+r"@) + uppers(name) + (if value.len() == 0 {
                    Seq::empty()
                } else {
                    seq![0x3du8] + hex(text::ascii(value))
                }) + text::ascii("\x1b\\"@),
            ),
            None => None,
        }
    } else {
        None
    }
}

/// Whether two byte strings are equal.
fn same_bytes(a: &[u8], b: &[u8]) -> (r: bool)
    ensures
        r == (a@ == b@),
{
    if a.len() != b.len() {
        return false;
    }
    let mut i: usize = 0;
    while i < a.len()
        invariant
            i <= a@.len(),
            a@.len() == b@.len(),
            forall|j: int| 0 <= j < i ==> a@[j] == #[trigger] b@[j],
        decreases a@.len() - i,
    {
        if a[i] != b[i] {
            return false;
        }
        i = i + 1;
    }
    assert(a@ =~= b@);
    true
}

fn is_name(name: &[u8], known: &str) -> (r: bool)
    ensures
        r == (name@ == text::ascii(known@)),
{
    let known = text::ascii_bytes(known);
    same_bytes(name, &known)
}

fn capability_value(name: &[u8]) -> (r: Option<&'static str>)
    ensures
        match r {
            Some(value) => capability(name@) == Some(value@),
            None => capability(name@) is None,
        },
{
    if is_name(name, "5463") {
        Some("")
    } else if is_name(name, "524742") {
        Some("8")
    } else if is_name(name, "73657472676266") {
        Some("\\E[38:2:%p1%d:%p2%d:%p3%dm")
    } else if is_name(name, "73657472676262") {
        Some("\\E[48:2:%p1%d:%p2%d:%p3%dm")
    } else if is_name(name, "4D73") {
        Some("\\E]52;%p1%s;%p2%s\\007")
    } else if is_name(name, "5375") {
        Some("")
    } else if is_name(name, "536D756C78") {
        Some("\\E[4:%p1%dm")
    } else if is_name(name, "536574756C63") {
        Some("\\E[58:2::%p1%{65536}%/%d:%p1%{256}%/%{255}%&%d:%p1%{255}%&%d%;m")
    } else {
        None
    }
}

fn hex_byte(v: u8) -> (r: u8)
    requires
        v < 16,
    ensures
        r == hex_digit(v as int),
{
    if v < 10 {
        0x30 + v
    } else {
        0x41 + (v - 10)
    }
}

/// Writes the bytes behind `output`, each as two hexadecimal digits.
pub fn append_hex(bytes: &[u8], output: &mut Vec<u8>)
    ensures
        final(output)@ == old(output)@ + hex(bytes@),
{
    let ghost before = output@;
    let mut i: usize = 0;
    while i < bytes.len()
        invariant
            i <= bytes@.len(),
            output@ == before + hex(bytes@).take(2 * i),
        decreases bytes@.len() - i,
    {
        let b: u8 = bytes[i];
        output.push(hex_byte(b / 16));
        output.push(hex_byte(b % 16));
        assert((2 * i) / 2 == i && (2 * i + 1) / 2 == i);
        i = i + 1;
        assert(output@ =~= before + hex(bytes@).take(2 * i));
    }
    assert(output@ =~= before + hex(bytes@));
}

/// The answer to a name.
pub fn response_for(name: &[u8]) -> (r: Option<Vec<u8>>)
    ensures
        match r {
            Some(bytes) => answer(name@) == Some(bytes@),
            None => answer(name@) is None,
        },
{
    if name.len() == 0 || name.len() % 2 != 0 {
        return None;
    }
    let mut upper_name: Vec<u8> = Vec::new();
    let mut i: usize = 0;
    while i < name.len()
        invariant
            i <= name@.len(),
            upper_name@ == uppers(name@).take(i as int),
            forall|j: int| 0 <= j < i ==> is_hex(#[trigger] name@[j]),
        decreases name@.len() - i,
    {
        let b: u8 = name[i];
        let digit = (0x30 <= b && b <= 0x39) || (0x41 <= b && b <= 0x46) || (0x61 <= b && b <= 0x66);
        if !digit {
            return None;
        }
        upper_name.push(
            if 0x61 <= b {
                b - 0x20
            } else {
                b
            },
        );
        i = i + 1;
        assert(upper_name@ =~= uppers(name@).take(i as int));
    }
    assert(upper_name@ =~= uppers(name@));
    let value = match capability_value(&upper_name) {
        Some(value) => value,
        None => return None,
    };
    let mut out = text::ascii_bytes("\x1bP1+r");
    let ghost intro = out@;
    out.extend_from_slice(&upper_name);
    assert(out@ =~= intro + uppers(name@));
    let ghost named = out@;
    if !value.is_empty() {
        out.push(0x3d);
        append_hex(&text::ascii_bytes(value), &mut out);
        assert(out@ =~= named + (seq![0x3du8] + hex(text::ascii(value@))));
    } else {
        assert(out@ =~= named + Seq::<u8>::empty());
    }
    let ghost valued = out@;
    let st = text::ascii_bytes("\x1b\\");
    out.extend_from_slice(&st);
    assert(out@ =~= valued + text::ascii("\x1b\\"@));
    Some(out)
}

/// The position of the first `c` at or behind `from`; the end where there is none.
fn find_byte(s: &[u8], c: u8, from: usize) -> (r: usize)
    requires
        from <= s@.len(),
    ensures
        r == from + text::index_of(s@.skip(from as int), c),
        from <= r <= s@.len(),
{
    let mut i: usize = from;
    while i < s.len() && s[i] != c
        invariant
            from <= i <= s@.len(),
            forall|j: int| from <= j < i ==> #[trigger] s@[j] != c,
        decreases s@.len() - i,
    {
        i = i + 1;
    }
    proof {
        let rest = s@.skip(from as int);
        assert forall|j: int| 0 <= j < i - from implies #[trigger] rest[j] != c by {
            assert(rest[j] == s@[from + j]);
        }
        text::first_is_index_of(rest, c, i - from);
    }
    i
}

impl Default for XtgettcapTracker {
    fn default() -> (r: Self)
        ensures
            r.mode() == QueryMode::Ground,
            r.names() == Seq::<u8>::empty(),
            r.waiting() == Seq::<(int, Seq<u8>)>::empty(),
    {
        let r = XtgettcapTracker { mode: QueryMode::Ground, body: Vec::new(), pending: Vec::new() };
        assert(responses_view(r.pending@) =~= Seq::empty());
        r
    }
}

impl XtgettcapTracker {
    /// Where the tracker stands.
    pub closed spec fn mode(&self) -> QueryMode {
        self.mode
    }

    /// The names of the query so far.
    pub closed spec fn names(&self) -> Seq<u8> {
        self.body@
    }

    /// The answers that were not drained yet.
    pub closed spec fn waiting(&self) -> Seq<(int, Seq<u8>)> {
        responses_view(self.pending@)
    }

    /// Looks at more bytes. The answers to the queries that end among them wait to be drained,
    /// each with the offset behind its query.
    pub fn observe(&mut self, bytes: &[u8])
        ensures
            ({
                let (mode, names, found) = observed(old(self).mode(), old(self).names(), bytes@);
                &&& final(self).mode() == mode
                &&& final(self).names() == names
                &&& final(self).waiting() == old(self).waiting() + found
            }),
    {
        let ghost mode0 = self.mode;
        let ghost body0 = self.body@;
        let ghost waiting0 = self.waiting();
        let mut index: usize = 0;
        assert(bytes@.take(0) =~= Seq::empty());
        assert(waiting0 + Seq::<(int, Seq<u8>)>::empty() =~= waiting0);
        while index < bytes.len()
            invariant
                index <= bytes@.len(),
                ({
                    let (mode, names, found) = observed(mode0, body0, bytes@.take(index as int));
                    &&& self.mode == mode
                    &&& self.body@ == names
                    &&& self.waiting() == waiting0 + found
                }),
            decreases bytes@.len() - index,
        {
            let byte: u8 = bytes[index];
            let ghost head = bytes@.take(index as int);
            let ghost next = bytes@.take(index + 1);
            let ghost found = observed(mode0, body0, head).2;
            assert(next.drop_last() =~= head);
            assert(next.last() == byte);
            match self.mode {
                QueryMode::Ground => {
                    if byte == 0x1b {
                        self.mode = QueryMode::Escape;
                    } else if byte == 0x90 {
                        self.body.clear();
                        self.mode = QueryMode::DcsIntro;
                    }
                },
                QueryMode::Escape => {
                    if byte == 0x50 {
                        self.body.clear();
                        self.mode = QueryMode::DcsIntro;
                    } else if byte != 0x1b {
                        self.mode = QueryMode::Ground;
                    }
                },
                QueryMode::DcsIntro => {
                    self.mode = if byte == 0x2b {
                        QueryMode::DcsPlus
                    } else {
                        ignored(byte)
                    };
                },
                QueryMode::DcsPlus => {
                    self.mode = if byte == 0x71 {
                        QueryMode::Body
                    } else {
                        ignored(byte)
                    };
                },
                QueryMode::Body => {
                    if byte == 0x1b {
                        self.mode = QueryMode::BodyEscape;
                    } else if byte == 0x9c {
                        self.finish(index + 1);
                        self.mode = QueryMode::Ground;
                    } else if self.body.len() < MAX_BODY {
                        self.body.push(byte);
                    } else {
                        self.body.clear();
                        self.mode = QueryMode::Ignore;
                    }
                },
                QueryMode::BodyEscape => {
                    if byte == 0x5c {
                        self.finish(index + 1);
                        self.mode = QueryMode::Ground;
                    } else if byte != 0x1b {
                        self.body.clear();
                        self.mode = QueryMode::Ignore;
                    }
                },
                QueryMode::Ignore => {
                    self.mode = ignored(byte);
                },
                QueryMode::IgnoreEscape => {
                    if byte == 0x5c {
                        self.mode = QueryMode::Ground;
                    } else if byte != 0x1b {
                        self.mode = QueryMode::Ignore;
                    }
                },
            }
            proof {
                let (m, p, ended) = query_step(
                    observed(mode0, body0, head).0,
                    observed(mode0, body0, head).1,
                    byte,
                );
                if ended is Some {
                    let more = answers(text::fields(ended->0, 0x3b), next.len() as int);
                    assert((waiting0 + found) + more =~= waiting0 + (found + more));
                }
            }
            index = index + 1;
        }
        assert(bytes@.take(index as int) =~= bytes@);
    }

    /// Answers the names of a query that has ended.
    fn finish(&mut self, end_offset: usize)
        ensures
            final(self).mode == old(self).mode,
            final(self).body@ == Seq::<u8>::empty(),
            final(self).waiting() == old(self).waiting() + answers(
                text::fields(old(self).body@, 0x3b),
                end_offset as int,
            ),
    {
        let ghost body = self.body@;
        let ghost all = text::fields(body, 0x3b);
        let ghost waiting0 = self.waiting();
        let ghost mut seen: Seq<Seq<u8>> = Seq::empty();
        let mut start: usize = 0;
        let mut done: bool = false;
        assert(body.skip(0) =~= body);
        assert(seen + all =~= all);
        assert(waiting0 + answers(seen, end_offset as int) =~= waiting0);
        while !done
            invariant
                self.mode == old(self).mode,
                self.body@ == body,
                start <= body.len(),
                self.waiting() == waiting0 + answers(seen, end_offset as int),
                all == text::fields(body, 0x3b),
                !done ==> seen + text::fields(body.skip(start as int), 0x3b) == all,
                done ==> seen == all,
            decreases body.len() - start + if done {
                0int
            } else {
                1int
            },
        {
            let end: usize = find_byte(&self.body, 0x3b, start);
            let ghost rest = body.skip(start as int);
            let name = vstd::slice::slice_subrange(self.body.as_slice(), start, end);
            assert(name@ =~= rest.take(end - start));
            let response = response_for(name);
            let ghost waiting1 = self.waiting();
            let ghost name = name@;
            assert(seen.push(name).drop_last() =~= seen);
            if let Some(bytes) = response {
                let ghost before = self.pending@;
                self.pending.push(XtgettcapResponse { end_offset, bytes });
                assert(self.waiting() =~= waiting1.push((end_offset as int, bytes@)));
                assert(self.waiting() =~= waiting0 + answers(seen.push(name), end_offset as int));
            }
            if end == self.body.len() {
                assert(rest.take(end - start) =~= rest);
                assert(seen.push(name) =~= seen + seq![rest]);
                done = true;
            } else {
                assert(rest.skip(end - start + 1) =~= body.skip(end + 1));
                assert(seen.push(name) + text::fields(body.skip(end + 1), 0x3b) =~= seen + (
                seq![name] + text::fields(body.skip(end + 1), 0x3b)));
                start = end + 1;
            }
            proof {
                seen = seen.push(name);
            }
        }
        self.body.clear();
    }

    /// Hands out the answers that wait.
    pub fn drain(&mut self) -> (r: Vec<XtgettcapResponse>)
        ensures
            responses_view(r@) == old(self).waiting(),
            final(self).waiting() == Seq::<(int, Seq<u8>)>::empty(),
            final(self).mode() == old(self).mode(),
            final(self).names() == old(self).names(),
    {
        let mut out: Vec<XtgettcapResponse> = Vec::new();
        std::mem::swap(&mut self.pending, &mut out);
        assert(self.waiting() =~= Seq::empty());
        out
    }
}

fn ignored(b: u8) -> (r: QueryMode)
    ensures
        r == ignoring(b),
{
    if b == 0x1b {
        QueryMode::IgnoreEscape
    } else if b == 0x9c {
        QueryMode::Ground
    } else {
        QueryMode::Ignore
    }
}

/// The bytes of answers, without the offsets.
pub open spec fn answer_bytes(found: Seq<(int, Seq<u8>)>) -> Seq<Seq<u8>> {
    Seq::new(found.len(), |i: int| found[i].1)
}

/// Feeding a stream in two pieces gives the same answers as feeding it whole.
pub proof fn observing_in_pieces(mode: QueryMode, body: Seq<u8>, a: Seq<u8>, b: Seq<u8>)
    ensures
        ({
            let (m1, p1, f1) = observed(mode, body, a);
            let (m2, p2, f2) = observed(m1, p1, b);
            let (m, p, f) = observed(mode, body, a + b);
            m == m2 && p == p2 && answer_bytes(f) == answer_bytes(f1) + answer_bytes(f2)
        }),
    decreases b.len(),
{
    let (m1, p1, f1) = observed(mode, body, a);
    let (m2, p2, f2) = observed(m1, p1, b);
    let f = observed(mode, body, a + b).2;
    if b.len() == 0 {
        assert(a + b =~= a);
        assert(answer_bytes(f) =~= answer_bytes(f1) + answer_bytes(f2));
    } else {
        let t = b.drop_last();
        observing_in_pieces(mode, body, a, t);
        assert((a + b).drop_last() =~= a + t);
        assert((a + b).last() == b.last());
        let (m3, p3, f3) = observed(m1, p1, t);
        let g3 = observed(mode, body, a + t).2;
        match query_step(m3, p3, b.last()).2 {
            Some(names) => {
                let list = text::fields(names, 0x3b);
                let n1 = (a + b).len() as int;
                let n2 = b.len() as int;
                answers_apart_from_offset(list, n1, n2);
                assert(answer_bytes(g3 + answers(list, n1)) =~= answer_bytes(g3) + answer_bytes(
                    answers(list, n1),
                ));
                assert(answer_bytes(f3 + answers(list, n2)) =~= answer_bytes(f3) + answer_bytes(
                    answers(list, n2),
                ));
                assert(answer_bytes(f) =~= answer_bytes(f1) + answer_bytes(f2));
            },
            None => {},
        }
    }
}

proof fn answers_apart_from_offset(names: Seq<Seq<u8>>, x: int, y: int)
    ensures
        answer_bytes(answers(names, x)) == answer_bytes(answers(names, y)),
    decreases names.len(),
{
    if names.len() > 0 {
        let t = names.drop_last();
        answers_apart_from_offset(t, x, y);
        let a = answers(t, x);
        let b = answers(t, y);
        match answer(names.last()) {
            Some(bytes) => {
                assert(answer_bytes(a.push((x, bytes))) =~= answer_bytes(a).push(bytes));
                assert(answer_bytes(b.push((y, bytes))) =~= answer_bytes(b).push(bytes));
            },
            None => {},
        }
    } else {
        assert(answer_bytes(answers(names, x)) =~= answer_bytes(answers(names, y)));
    }
}

/// Two digits stand for each byte, and no byte is lost: the digits have the values of its two halves.
pub proof fn hex_can_be_read_back(bytes: Seq<u8>, i: int)
    requires
        0 <= i < bytes.len(),
    ensures
        hex(bytes).len() == 2 * bytes.len(),
        text::digit_value(hex(bytes)[2 * i] as char, 16) * 16 + text::digit_value(
            hex(bytes)[2 * i + 1] as char,
            16,
        ) == bytes[i],
{
    let b = bytes[i] as int;
    assert(hex(bytes)[2 * i] == hex_digit(b / 16));
    assert(hex(bytes)[2 * i + 1] == hex_digit(b % 16));
}

/// A query is answered when it ends: with the answers to its names, in their order.
pub proof fn queries_are_answered(body: Seq<u8>, names: Seq<u8>)
    requires
        names.len() <= MAX_BODY,
        !names.contains(0x1b),
        !names.contains(0x9c),
    ensures
        ({
            let all = seq![0x1bu8, 0x50, 0x2b, 0x71] + names + seq![0x1bu8, 0x5c];
            let (mode, left, found) = observed(QueryMode::Ground, body, all);
            &&& mode == QueryMode::Ground
            &&& left.len() == 0
            &&& answer_bytes(found) == answer_bytes(answers(text::fields(names, 0x3b), 0))
        }),
{
    let start = seq![0x1bu8, 0x50, 0x2b, 0x71];
    let end = seq![0x1bu8, 0x5c];
    reveal_with_fuel(observed, 5);
    assert(start.drop_last() =~= seq![0x1bu8, 0x50, 0x2b]);
    assert(seq![0x1bu8, 0x50, 0x2b].drop_last() =~= seq![0x1bu8, 0x50]);
    assert(seq![0x1bu8, 0x50].drop_last() =~= seq![0x1bu8]);
    assert(seq![0x1bu8].drop_last() =~= Seq::<u8>::empty());
    let s = observed(QueryMode::Ground, body, start);
    assert(s.0 == QueryMode::Body && s.1 =~= Seq::<u8>::empty() && s.2.len() == 0);
    names_are_collected(names);
    let m = observed(QueryMode::Body, Seq::empty(), names);
    assert(end.drop_last() =~= seq![0x1bu8]);
    let e = observed(QueryMode::Body, names, end);
    let list = text::fields(names, 0x3b);
    assert(e.2 =~= answers(list, 2));
    observing_in_pieces(QueryMode::Ground, body, start, names);
    observing_in_pieces(QueryMode::Ground, body, start + names, end);
    offsets_do_not_matter(list, 2, 0);
    let all = start + names + end;
    assert(answer_bytes(observed(QueryMode::Ground, body, all).2) =~= answer_bytes(
        answers(list, 0),
    ));
}

proof fn names_are_collected(names: Seq<u8>)
    requires
        names.len() <= MAX_BODY,
        !names.contains(0x1b),
        !names.contains(0x9c),
    ensures
        observed(QueryMode::Body, Seq::empty(), names) == (
            QueryMode::Body,
            names,
            Seq::<(int, Seq<u8>)>::empty(),
        ),
    decreases names.len(),
{
    if names.len() > 0 {
        let t = names.drop_last();
        assert forall|x: u8| #[trigger] t.contains(x) implies names.contains(x) by {
            let i = choose|i: int| 0 <= i < t.len() && t[i] == x;
            assert(names[i] == x);
        }
        assert(names.contains(names.last()));
        names_are_collected(t);
        assert(t.push(names.last()) =~= names);
    }
}

proof fn offsets_do_not_matter(names: Seq<Seq<u8>>, a: int, b: int)
    ensures
        answer_bytes(answers(names, a)) == answer_bytes(answers(names, b)),
    decreases names.len(),
{
    if names.len() > 0 {
        offsets_do_not_matter(names.drop_last(), a, b);
        let x = answers(names.drop_last(), a);
        let y = answers(names.drop_last(), b);
        assert(x.len() == answer_bytes(x).len() && y.len() == answer_bytes(y).len());
        assert forall|i: int| 0 <= i < x.len() implies #[trigger] x[i].1 == y[i].1 by {
            assert(answer_bytes(x)[i] == answer_bytes(y)[i]);
        }
    }
    assert(answer_bytes(answers(names, a)) =~= answer_bytes(answers(names, b)));
}

/// A name in lower case is answered as the same name in upper case, and an answer begins with the
/// sign for success and the name, and ends the control string.
pub proof fn case_does_not_matter(name: Seq<u8>)
    ensures
        answer(name) is Some ==> answer(uppers(name)) == answer(name),
        answer(name) matches Some(bytes) ==> ({
            let n = name.len() as int;
            &&& bytes.len() >= 7 + n
            &&& bytes.subrange(5, 5 + n) == uppers(name)
            &&& bytes[0] == 0x1b
            &&& bytes[1] == 0x50
            &&& bytes[2] == 0x31
            &&& bytes[bytes.len() - 2] == 0x1b
            &&& bytes[bytes.len() - 1] == 0x5c
        }),
{
    reveal_strlit("\x1bP1+r");
    reveal_strlit("\x1b\\");
    if answer(name) is Some {
        let up = uppers(name);
        assert(uppers(up) =~= up);
        assert forall|i: int| 0 <= i < up.len() implies is_hex(#[trigger] up[i]) by {
            assert(is_hex(name[i]));
        }
        let bytes = answer(name)->0;
        assert(bytes.subrange(5, 5 + name.len() as int) =~= up);
    }
}

/// A list of names that is too long is not answered, and neither is what follows it up to the end of
/// the control string.
pub proof fn long_queries_are_not_answered(body: Seq<u8>, b: u8, rest: Seq<u8>)
    requires
        body.len() >= MAX_BODY,
        b != 0x1b,
        b != 0x9c,
        !rest.contains(0x1b),
        !rest.contains(0x9c),
    ensures
        query_step(QueryMode::Body, body, b).0 == QueryMode::Ignore,
        query_step(QueryMode::Body, body, b).2 is None,
        observed(QueryMode::Ignore, body, rest).0 == QueryMode::Ignore,
        observed(QueryMode::Ignore, body, rest).2.len() == 0,
    decreases rest.len(),
{
    if rest.len() > 0 {
        let t = rest.drop_last();
        assert forall|x: u8| #[trigger] t.contains(x) implies rest.contains(x) by {
            let i = choose|i: int| 0 <= i < t.len() && t[i] == x;
            assert(rest[i] == x);
        }
        assert(rest.contains(rest.last()));
        long_queries_are_not_answered(body, b, t);
    }
}

} // verus!
