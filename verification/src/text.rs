//! Text as sequences of characters: conversions, white space, splitting and numbers.

use vstd::prelude::*;
use vstd::slice::slice_to_vec;
use vstd::utf8;

verus! {

/// `String::push` appends one character.
pub assume_specification[ String::push ](s: &mut String, ch: char)
    ensures
        final(s)@ == old(s)@.push(ch),
;

/// `String::from_utf8` accepts exactly the well-formed UTF-8 sequences and gives the text that
/// they encode.
#[verifier::external_body]
pub(crate) fn utf8_text(bytes: Vec<u8>) -> (r: Option<String>)
    ensures
        r is Some <==> utf8::valid_utf8(bytes@),
        r matches Some(s) ==> s@ == utf8::decode_utf8(bytes@),
{
    String::from_utf8(bytes).ok()
}

/// The lower-case form of a text, as `str::to_lowercase` defines it.
pub uninterp spec fn lowercase(s: Seq<char>) -> Seq<char>;

/// `str::to_lowercase`: the result depends on the text alone. On ASCII text it maps the letters
/// `A` to `Z` one by one and keeps all other characters.
#[verifier::external_body]
pub(crate) fn to_lowercase(s: &str) -> (r: String)
    ensures
        r@ == lowercase(s@),
        utf8::is_ascii_chars(s@) ==> r@ == s@.map_values(|c: char| ascii_lower(c)),
{
    s.to_lowercase()
}

/// The lower-case form of an ASCII letter; any other character itself.
pub open spec fn ascii_lower(c: char) -> char {
    if 'A' <= c <= 'Z' {
        (c as u32 + 32) as char
    } else {
        c
    }
}

/// The characters of a text.
pub fn chars_of(s: &str) -> (r: Vec<char>)
    ensures
        r@ == s@,
{
    let mut out: Vec<char> = Vec::new();
    for c in it: s.chars()
        invariant
            it.seq() == s@,
            out@ == s@.take(it.index() as int),
    {
        out.push(c);
        assert(out@ =~= s@.take(it.index() as int + 1));
    }
    assert(out@ =~= s@);
    out
}

/// The text made of the given characters.
pub fn string_of(chars: &[char]) -> (r: String)
    ensures
        r@ == chars@,
{
    let mut out = String::new();
    let mut i: usize = 0;
    while i < chars.len()
        invariant
            i <= chars@.len(),
            out@ == chars@.take(i as int),
        decreases chars@.len() - i,
    {
        out.push(chars[i]);
        i = i + 1;
        assert(out@ =~= chars@.take(i as int));
    }
    assert(out@ =~= chars@);
    out
}

/// The UTF-8 encoding of a text.
pub fn bytes_of(s: &str) -> (r: Vec<u8>)
    ensures
        r@ == utf8::encode_utf8(s@),
{
    slice_to_vec(s.as_bytes())
}

/// The bytes of a text of ASCII characters.
pub open spec fn ascii(s: Seq<char>) -> Seq<u8> {
    Seq::new(s.len(), |i: int| s[i] as u8)
}

/// The bytes of a text of ASCII characters.
pub fn ascii_bytes(s: &str) -> (r: Vec<u8>)
    ensures
        r@ == ascii(s@),
{
    let chars = chars_of(s);
    let mut out: Vec<u8> = Vec::new();
    let mut i: usize = 0;
    while i < chars.len()
        invariant
            i <= chars@.len(),
            chars@ == s@,
            out@ == ascii(s@).take(i as int),
        decreases chars@.len() - i,
    {
        out.push(chars[i] as u8);
        i = i + 1;
        assert(out@ =~= ascii(s@).take(i as int));
    }
    assert(out@ =~= ascii(s@));
    out
}

/// The characters from `from` up to, not including, `to`.
pub fn part(s: &[char], from: usize, to: usize) -> (r: Vec<char>)
    requires
        from <= to <= s@.len(),
    ensures
        r@ == s@.subrange(from as int, to as int),
{
    let mut out: Vec<char> = Vec::new();
    let mut i: usize = from;
    while i < to
        invariant
            from <= i <= to <= s@.len(),
            out@ == s@.subrange(from as int, i as int),
        decreases to - i,
    {
        out.push(s[i]);
        i = i + 1;
        assert(out@ =~= s@.subrange(from as int, i as int));
    }
    out
}

/// Whether two texts hold the same characters.
pub fn same(a: &[char], b: &[char]) -> (r: bool)
    ensures
        r == (a@ == b@),
{
    if a.len() != b.len() {
        return false;
    }
    let mut i: usize = 0;
    while i < a.len()
        invariant
            i <= a@.len(),
            a@.len() == b@.len(),
            a@.take(i as int) == b@.take(i as int),
        decreases a@.len() - i,
    {
        if a[i] != b[i] {
            assert(a@[i as int] != b@[i as int]);
            return false;
        }
        i = i + 1;
        assert(a@.take(i as int) =~= b@.take(i as int));
    }
    assert(a@ =~= a@.take(a@.len() as int));
    assert(b@ =~= b@.take(a@.len() as int));
    true
}

/// Whether a text is the given literal.
pub fn is_text(a: &[char], b: &str) -> (r: bool)
    ensures
        r == (a@ == b@),
{
    let chars = chars_of(b);
    same(a, &chars)
}

/// Whether `s` begins with `prefix`.
pub fn starts_with(s: &[char], prefix: &str) -> (r: bool)
    ensures
        r == prefix@.is_prefix_of(s@),
{
    let p = chars_of(prefix);
    if s.len() < p.len() {
        return false;
    }
    let head = part(s, 0, p.len());
    same(&head, &p)
}

/// Whether `s` ends with `suffix`.
pub open spec fn has_suffix(s: Seq<char>, suffix: Seq<char>) -> bool {
    s.len() >= suffix.len() && s.subrange(s.len() - suffix.len(), s.len() as int) == suffix
}

/// Whether `s` ends with `suffix`.
pub fn ends_with(s: &[char], suffix: &str) -> (r: bool)
    ensures
        r == has_suffix(s@, suffix@),
{
    let p = chars_of(suffix);
    if s.len() < p.len() {
        return false;
    }
    let tail = part(s, s.len() - p.len(), s.len());
    same(&tail, &p)
}

/// Whether `needle` occurs in `s`.
pub open spec fn has_part(s: Seq<char>, needle: Seq<char>) -> bool {
    exists|i: int| #[trigger] occurs_at(s, needle, i)
}

/// Whether `needle` occurs in `s` at position `i`.
pub open spec fn occurs_at(s: Seq<char>, needle: Seq<char>, i: int) -> bool {
    0 <= i && i + needle.len() <= s.len() && s.subrange(i, i + needle.len()) == needle
}

/// Whether `needle` occurs in `s`.
pub fn contains(s: &[char], needle: &[char]) -> (r: bool)
    ensures
        r == has_part(s@, needle@),
{
    let n: usize = s.len();
    let m: usize = needle.len();
    if m == 0 {
        assert(s@.subrange(0, 0) =~= needle@);
        assert(occurs_at(s@, needle@, 0));
        return true;
    }
    if m > n {
        return false;
    }
    let mut i: usize = 0;
    while i <= n - m
        invariant
            i <= n - m + 1,
            0 < m <= n,
            n == s@.len(),
            m == needle@.len(),
            forall|j: int| 0 <= j < i ==> !(#[trigger] occurs_at(s@, needle@, j)),
        decreases n - m + 1 - i,
    {
        let window = part(s, i, i + m);
        if same(&window, needle) {
            assert(occurs_at(s@, needle@, i as int));
            return true;
        }
        i = i + 1;
    }
    false
}

/// The characters with the Unicode property `White_Space`.
pub open spec fn is_space(c: char) -> bool {
    ||| '\u{9}' <= c <= '\u{d}'
    ||| c == '\u{20}'
    ||| c == '\u{85}'
    ||| c == '\u{a0}'
    ||| c == '\u{1680}'
    ||| '\u{2000}' <= c <= '\u{200a}'
    ||| c == '\u{2028}'
    ||| c == '\u{2029}'
    ||| c == '\u{202f}'
    ||| c == '\u{205f}'
    ||| c == '\u{3000}'
}

/// Whether a character is white space.
pub fn is_whitespace(c: char) -> (r: bool)
    ensures
        r == is_space(c),
{
    ('\u{9}' <= c && c <= '\u{d}') || c == '\u{20}' || c == '\u{85}' || c == '\u{a0}' || c
        == '\u{1680}' || ('\u{2000}' <= c && c <= '\u{200a}') || c == '\u{2028}' || c
        == '\u{2029}' || c == '\u{202f}' || c == '\u{205f}' || c == '\u{3000}'
}

/// The text without the white space at its start.
pub open spec fn trimmed_start(s: Seq<char>) -> Seq<char>
    decreases s.len(),
{
    if s.len() > 0 && is_space(s[0]) {
        trimmed_start(s.skip(1))
    } else {
        s
    }
}

/// The text without the white space at its end.
pub open spec fn trimmed_end(s: Seq<char>) -> Seq<char>
    decreases s.len(),
{
    if s.len() > 0 && is_space(s.last()) {
        trimmed_end(s.drop_last())
    } else {
        s
    }
}

/// The text without the white space at both ends.
pub open spec fn trimmed(s: Seq<char>) -> Seq<char> {
    trimmed_end(trimmed_start(s))
}

/// The text without the white space at its end.
pub fn trim_end(s: &[char]) -> (r: Vec<char>)
    ensures
        r@ == trimmed_end(s@),
{
    let mut n: usize = s.len();
    assert(s@.take(n as int) =~= s@);
    while n > 0 && is_whitespace(s[n - 1])
        invariant
            n <= s@.len(),
            trimmed_end(s@.take(n as int)) == trimmed_end(s@),
        decreases n,
    {
        assert(s@.take(n as int).drop_last() =~= s@.take(n - 1));
        n = n - 1;
    }
    part(s, 0, n)
}

/// The text without the white space at both ends.
pub fn trim(s: &[char]) -> (r: Vec<char>)
    ensures
        r@ == trimmed(s@),
{
    let mut i: usize = 0;
    assert(s@.skip(0) =~= s@);
    while i < s.len() && is_whitespace(s[i])
        invariant
            i <= s@.len(),
            trimmed_start(s@.skip(i as int)) == trimmed_start(s@),
        decreases s@.len() - i,
    {
        assert(s@.skip(i as int).skip(1) =~= s@.skip(i + 1));
        i = i + 1;
    }
    let rest = part(s, i, s.len());
    assert(rest@ =~= s@.skip(i as int));
    trim_end(&rest)
}

/// Whether a text is white space only.
pub open spec fn blank(s: Seq<char>) -> bool {
    forall|i: int| 0 <= i < s.len() ==> is_space(#[trigger] s[i])
}

/// Trimming leaves nothing exactly of texts that are white space only.
pub proof fn blank_trims_to_nothing(s: Seq<char>)
    ensures
        blank(s) <==> trimmed(s).len() == 0,
{
    blank_start(s);
    blank_end(trimmed_start(s));
}

proof fn blank_start(s: Seq<char>)
    ensures
        blank(s) <==> trimmed_start(s).len() == 0,
        blank(s) <==> blank(trimmed_start(s)),
    decreases s.len(),
{
    if s.len() > 0 && is_space(s[0]) {
        blank_start(s.skip(1));
        if blank(s.skip(1)) {
            assert forall|i: int| 0 <= i < s.len() implies is_space(#[trigger] s[i]) by {
                if i > 0 {
                    assert(s.skip(1)[i - 1] == s[i]);
                }
            }
        }
    }
}

proof fn blank_end(s: Seq<char>)
    ensures
        blank(s) <==> trimmed_end(s).len() == 0,
    decreases s.len(),
{
    if s.len() > 0 && is_space(s.last()) {
        blank_end(s.drop_last());
        if blank(s.drop_last()) {
            assert forall|i: int| 0 <= i < s.len() implies is_space(#[trigger] s[i]) by {
                if i < s.len() - 1 {
                    assert(s.drop_last()[i] == s[i]);
                }
            }
        }
    }
}

/// Whether a text is white space only.
pub fn is_blank(s: &str) -> (r: bool)
    ensures
        r == blank(s@),
{
    let chars = chars_of(s);
    let mut i: usize = 0;
    while i < chars.len()
        invariant
            i <= chars@.len(),
            chars@ == s@,
            forall|j: int| 0 <= j < i ==> is_space(#[trigger] s@[j]),
        decreases chars@.len() - i,
    {
        if !is_whitespace(chars[i]) {
            return false;
        }
        i = i + 1;
    }
    true
}

/// The position of the first `c` in `s`; the length of `s` where there is none.
pub open spec fn index_of<T>(s: Seq<T>, c: T) -> int
    decreases s.len(),
{
    if s.len() == 0 || s[0] == c {
        0
    } else {
        1 + index_of(s.skip(1), c)
    }
}

/// What `index_of` gives: nothing before it equals `c`, and it does unless it is the end.
pub proof fn index_of_is_first<T>(s: Seq<T>, c: T)
    ensures
        0 <= index_of(s, c) <= s.len(),
        forall|j: int| 0 <= j < index_of(s, c) ==> #[trigger] s[j] != c,
        index_of(s, c) < s.len() ==> s[index_of(s, c)] == c,
    decreases s.len(),
{
    if s.len() > 0 && s[0] != c {
        index_of_is_first(s.skip(1), c);
        assert forall|j: int| 0 <= j < index_of(s, c) implies #[trigger] s[j] != c by {
            if j > 0 {
                assert(s.skip(1)[j - 1] == s[j]);
            }
        }
    }
}

/// A position with these properties is the one that `index_of` gives.
pub proof fn first_is_index_of<T>(s: Seq<T>, c: T, i: int)
    requires
        0 <= i <= s.len(),
        forall|j: int| 0 <= j < i ==> #[trigger] s[j] != c,
        i < s.len() ==> s[i] == c,
    ensures
        index_of(s, c) == i,
{
    index_of_is_first(s, c);
    if index_of(s, c) < i {
        assert(s[index_of(s, c)] != c);
    } else if i < index_of(s, c) {
        assert(s[i] != c);
    }
}

/// The position of the first `c` at or behind `from`; the length of `s` where there is none.
pub fn find_char(s: &[char], c: char, from: usize) -> (r: usize)
    requires
        from <= s@.len(),
    ensures
        r == from + index_of(s@.skip(from as int), c),
        from <= r <= s@.len(),
        r < s@.len() ==> s@[r as int] == c,
        forall|j: int| from <= j < r ==> #[trigger] s@[j] != c,
{
    let mut i: usize = from;
    while i < s.len() && s[i] != c
        invariant
            from <= i <= s@.len(),
            forall|j: int| from <= j < i ==> #[trigger] s@[j] != c,
        decreases s@.len() - i,
    {
        i = i + 1;
    }
    proof {
        let rest = s@.skip(from as int);
        assert forall|j: int| 0 <= j < i - from implies #[trigger] rest[j] != c by {
            assert(rest[j] == s@[from + j]);
        }
        first_is_index_of(rest, c, i - from);
    }
    i
}

/// What stands before and behind the first `c`, where there is one.
pub open spec fn halves(s: Seq<char>, c: char) -> Option<(Seq<char>, Seq<char>)> {
    let i = index_of(s, c);
    if i < s.len() {
        Some((s.take(i), s.skip(i + 1)))
    } else {
        None
    }
}

/// What stands before and behind the first `c`, where there is one.
pub fn split_once(s: &[char], c: char) -> (r: Option<(Vec<char>, Vec<char>)>)
    ensures
        match r {
            Some(pair) => halves(s@, c) == Some((pair.0@, pair.1@)),
            None => halves(s@, c) is None,
        },
{
    let i: usize = find_char(s, c, 0);
    assert(s@.skip(0) =~= s@);
    if i < s.len() {
        let head = part(s, 0, i);
        let tail = part(s, i + 1, s.len());
        assert(head@ =~= s@.take(i as int));
        assert(tail@ =~= s@.skip(i + 1));
        Some((head, tail))
    } else {
        None
    }
}

/// The parts of `s` between the separators.
pub open spec fn fields<T>(s: Seq<T>, sep: T) -> Seq<Seq<T>>
    decreases s.len(),
{
    let i = index_of(s, sep);
    if 0 <= i < s.len() {
        seq![s.take(i)] + fields(s.skip(i + 1), sep)
    } else {
        seq![s]
    }
}

/// There is always a first part.
pub proof fn fields_nonempty<T>(s: Seq<T>, sep: T)
    ensures
        fields(s, sep).len() > 0,
    decreases s.len(),
{
}

/// The views of a list of texts.
pub open spec fn views(list: Seq<Vec<char>>) -> Seq<Seq<char>> {
    Seq::new(list.len(), |i: int| list[i]@)
}

/// The parts of `s` between the separators.
pub fn split(s: &[char], sep: char) -> (r: Vec<Vec<char>>)
    ensures
        views(r@) == fields(s@, sep),
        r@.len() > 0,
{
    let mut out: Vec<Vec<char>> = Vec::new();
    let mut start: usize = 0;
    assert(s@.skip(0) =~= s@);
    assert(views(out@) + fields(s@, sep) =~= fields(s@, sep));
    loop
        invariant
            start <= s@.len(),
            views(out@) + fields(s@.skip(start as int), sep) == fields(s@, sep),
        decreases s@.len() - start,
    {
        let i: usize = find_char(s, sep, start);
        let ghost rest = s@.skip(start as int);
        let piece = part(s, start, i);
        let ghost before = views(out@);
        out.push(piece);
        assert(piece@ =~= rest.take(i - start));
        assert(views(out@) =~= before.push(piece@));
        if i == s.len() {
            assert(rest.take(i - start) =~= rest);
            assert(views(out@) =~= before + seq![rest]);
            return out;
        }
        assert(rest.skip(i - start + 1) =~= s@.skip(i + 1));
        start = i + 1;
        assert(views(out@) + fields(s@.skip(start as int), sep) =~= before + (seq![piece@]
            + fields(s@.skip(start as int), sep)));
    }
}

/// The value of a digit in a base of up to sixteen; -1 for any other character.
pub open spec fn digit_value(c: char, base: int) -> int {
    let v = if '0' <= c <= '9' {
        c as u32 - '0' as u32
    } else if 'a' <= c <= 'f' {
        c as u32 - 'a' as u32 + 10
    } else if 'A' <= c <= 'F' {
        c as u32 - 'A' as u32 + 10
    } else {
        -1
    };
    if v < base {
        v
    } else {
        -1
    }
}

/// Whether a text holds only digits of the base.
pub open spec fn all_digits(s: Seq<char>, base: int) -> bool {
    forall|i: int| 0 <= i < s.len() ==> digit_value(#[trigger] s[i], base) >= 0
}

/// The number that a row of digits stands for.
pub open spec fn digits_value(s: Seq<char>, base: int) -> int
    decreases s.len(),
{
    if s.len() == 0 {
        0
    } else {
        digits_value(s.drop_last(), base) * base + digit_value(s.last(), base)
    }
}

/// A text as a number without sign: at least one digit, perhaps behind a `+`, of a value up to
/// `max`.
pub open spec fn parsed_unsigned(s: Seq<char>, base: int, max: int) -> Option<int> {
    let digits = if s.len() > 0 && s[0] == '+' {
        s.skip(1)
    } else {
        s
    };
    if digits.len() > 0 && all_digits(digits, base) && digits_value(digits, base) <= max {
        Some(digits_value(digits, base))
    } else {
        None
    }
}

/// A text as a decimal number with a sign, within the bounds.
pub open spec fn parsed_signed(s: Seq<char>, min: int, max: int) -> Option<int> {
    if s.len() > 0 && s[0] == '-' {
        let digits = s.skip(1);
        if digits.len() > 0 && all_digits(digits, 10) && -digits_value(digits, 10) >= min {
            Some(-digits_value(digits, 10))
        } else {
            None
        }
    } else {
        parsed_unsigned(s, 10, max)
    }
}

/// The value of a digit, where the character is one.
pub fn digit_of(c: char, base: u32) -> (r: Option<u32>)
    requires
        base <= 16,
    ensures
        match r {
            Some(v) => digit_value(c, base as int) == v && v < base,
            None => digit_value(c, base as int) == -1,
        },
{
    let v: u32 = if '0' <= c && c <= '9' {
        c as u32 - '0' as u32
    } else if 'a' <= c && c <= 'f' {
        c as u32 - 'a' as u32 + 10
    } else if 'A' <= c && c <= 'F' {
        c as u32 - 'A' as u32 + 10
    } else {
        return None;
    };
    if v < base {
        Some(v)
    } else {
        None
    }
}

proof fn digits_value_grows(s: Seq<char>, base: int, k: int)
    requires
        base >= 1,
        0 <= k <= s.len(),
        all_digits(s, base),
    ensures
        0 <= digits_value(s.take(k), base) <= digits_value(s, base),
    decreases s.len(),
{
    if s.len() == 0 {
        assert(s.take(k) =~= s);
    } else {
        let t = s.drop_last();
        assert forall|i: int| 0 <= i < t.len() implies digit_value(#[trigger] t[i], base) >= 0 by {
            assert(t[i] == s[i]);
        }
        digits_value_grows(t, base, t.len() as int);
        assert(t.take(t.len() as int) =~= t);
        let v = digits_value(t, base);
        assert(v * base >= v) by (nonlinear_arith)
            requires
                v >= 0,
                base >= 1,
        ;
        assert(digit_value(s.last(), base) >= 0);
        if k < s.len() {
            digits_value_grows(t, base, k);
            assert(t.take(k) =~= s.take(k));
        } else {
            assert(s.take(k) =~= s);
        }
    }
}

/// The number that the digits from `from` on stand for, if there is one of them, all are digits
/// and it is at most `max`.
fn read_digits(s: &[char], from: usize, base: u32, max: u64) -> (r: Option<u64>)
    requires
        from <= s@.len(),
        2 <= base <= 16,
    ensures
        ({
            let digits = s@.skip(from as int);
            match r {
                Some(v) => {
                    &&& digits.len() > 0
                    &&& all_digits(digits, base as int)
                    &&& digits_value(digits, base as int) == v
                    &&& v <= max
                },
                None => digits.len() == 0 || !all_digits(digits, base as int) || digits_value(
                    digits,
                    base as int,
                ) > max,
            }
        }),
{
    let ghost digits = s@.skip(from as int);
    let mut value: u64 = 0;
    let mut i: usize = from;
    let mut fits: bool = true;
    if from == s.len() {
        return None;
    }
    assert(digits.take(0) =~= Seq::empty());
    while i < s.len()
        invariant
            from <= i <= s@.len(),
            digits == s@.skip(from as int),
            2 <= base <= 16,
            all_digits(digits.take(i - from), base as int),
            fits ==> value <= max && digits_value(digits.take(i - from), base as int) == value,
            !fits ==> digits_value(digits.take(i - from), base as int) > max,
        decreases s@.len() - i,
    {
        let ghost k = i - from;
        let ghost head = digits.take(k);
        let ghost next = digits.take(k + 1);
        assert(next.drop_last() =~= head);
        assert(next.last() == s@[i as int]);
        match digit_of(s[i], base) {
            None => {
                assert(digits[k] == s@[i as int]);
                return None;
            },
            Some(d) => {
                assert forall|j: int| 0 <= j < next.len() implies digit_value(
                    #[trigger] next[j],
                    base as int,
                ) >= 0 by {
                    if j < k {
                        assert(next[j] == head[j]);
                    }
                }
                if fits {
                    assert(value * base <= u64::MAX * 16) by (nonlinear_arith)
                        requires
                            value <= u64::MAX,
                            base <= 16,
                    ;
                    let wide: u128 = value as u128 * base as u128 + d as u128;
                    if wide <= max as u128 {
                        value = wide as u64;
                    } else {
                        fits = false;
                    }
                } else {
                    proof {
                        digits_value_grows(next, base as int, k);
                        assert(next.take(k) =~= head);
                    }
                }
            },
        }
        i = i + 1;
    }
    assert(digits.take(i - from) =~= digits);
    if fits {
        Some(value)
    } else {
        None
    }
}

/// Reads a number without sign in the given base.
pub fn parse_unsigned(s: &[char], base: u32, max: u64) -> (r: Option<u64>)
    requires
        2 <= base <= 16,
    ensures
        match r {
            Some(v) => parsed_unsigned(s@, base as int, max as int) == Some(v as int),
            None => parsed_unsigned(s@, base as int, max as int) is None,
        },
{
    if s.len() > 0 && s[0] == '+' {
        read_digits(s, 1, base, max)
    } else {
        assert(s@.skip(0) =~= s@);
        read_digits(s, 0, base, max)
    }
}

/// Reads a decimal number that fits `i32`.
pub fn parse_i32(s: &[char]) -> (r: Option<i32>)
    ensures
        match r {
            Some(v) => parsed_signed(s@, i32::MIN as int, i32::MAX as int) == Some(v as int),
            None => parsed_signed(s@, i32::MIN as int, i32::MAX as int) is None,
        },
{
    if s.len() > 0 && s[0] == '-' {
        match read_digits(s, 1, 10, 2147483648) {
            Some(v) => Some((0 - v as i64) as i32),
            None => None,
        }
    } else {
        match parse_unsigned(s, 10, 2147483647) {
            Some(v) => Some(v as i32),
            None => None,
        }
    }
}

/// Reads a decimal number that fits `usize`.
pub fn parse_usize(s: &[char]) -> (r: Option<usize>)
    ensures
        match r {
            Some(v) => parsed_unsigned(s@, 10, usize::MAX as int) == Some(v as int),
            None => parsed_unsigned(s@, 10, usize::MAX as int) is None,
        },
{
    match parse_unsigned(s, 10, usize::MAX as u64) {
        Some(v) => Some(v as usize),
        None => None,
    }
}

/// The digit for a value below ten.
pub open spec fn digit_char(v: int) -> char {
    ('0' as u32 + v) as char
}

/// The decimal digits of a number.
pub open spec fn decimal(n: int) -> Seq<char>
    decreases n,
{
    if n < 10 {
        seq![digit_char(n)]
    } else {
        decimal(n / 10).push(digit_char(n % 10))
    }
}

/// Writes the decimal digits of `n` behind `out`.
pub fn push_decimal(out: &mut Vec<char>, n: u64)
    ensures
        final(out)@ == old(out)@ + decimal(n as int),
    decreases n,
{
    if n < 10 {
        out.push((48u8 + n as u8) as char);
        assert(out@ =~= old(out)@ + decimal(n as int));
    } else {
        push_decimal(out, n / 10);
        let d: u8 = (n % 10) as u8;
        out.push((48u8 + d) as char);
        assert(out@ =~= old(out)@ + decimal(n as int));
    }
}

/// Writes a text behind `out`.
pub fn push_text(out: &mut Vec<char>, s: &str)
    ensures
        final(out)@ == old(out)@ + s@,
{
    let mut chars = chars_of(s);
    out.append(&mut chars);
}

/// What is read back of a written number is that number.
pub proof fn decimal_reads_back(n: int)
    requires
        n >= 0,
    ensures
        decimal(n).len() > 0,
        all_digits(decimal(n), 10),
        digits_value(decimal(n), 10) == n,
        forall|max: int| n <= max ==> #[trigger] parsed_unsigned(decimal(n), 10, max) == Some(n),
    decreases n,
{
    let d = decimal(n);
    if n < 10 {
        assert(d.drop_last() =~= Seq::empty());
        assert(digits_value(d.drop_last(), 10) == 0);
        assert(digit_value(d[0], 10) == n);
    } else {
        decimal_reads_back(n / 10);
        let t = decimal(n / 10);
        assert(d.drop_last() =~= t);
        assert(digit_value(d.last(), 10) == n % 10);
        assert forall|i: int| 0 <= i < d.len() implies digit_value(#[trigger] d[i], 10) >= 0 by {
            if i < t.len() {
                assert(d[i] == t[i]);
            }
        }
    }
    assert(digit_value(d[0], 10) >= 0);
}

/// A text occurs in another exactly where the other is made of something, the text, and something.
pub proof fn parts_are_found(a: Seq<char>, needle: Seq<char>, b: Seq<char>, s: Seq<char>)
    ensures
        has_part(a + needle + b, needle),
        has_part(s, needle) ==> exists|head: Seq<char>, tail: Seq<char>|
            s == #[trigger] (head + needle + tail),
{
    let whole = a + needle + b;
    assert(whole.subrange(a.len() as int, (a.len() + needle.len()) as int) =~= needle);
    assert(occurs_at(whole, needle, a.len() as int));
    if has_part(s, needle) {
        let i = choose|i: int| #[trigger] occurs_at(s, needle, i);
        let head = s.take(i);
        let tail = s.skip(i + needle.len());
        assert(s =~= head + needle + tail);
    }
}

/// Trimming the end takes white space away and nothing else: what is left is the beginning of the
/// text and does not end in white space, and what is gone is white space.
pub proof fn trimming_takes_blanks(s: Seq<char>)
    ensures
        trimmed_end(s).len() <= s.len(),
        trimmed_end(s) == s.take(trimmed_end(s).len() as int),
        blank(s.skip(trimmed_end(s).len() as int)),
        trimmed_end(s).len() > 0 ==> !is_space(trimmed_end(s).last()),
    decreases s.len(),
{
    if s.len() > 0 && is_space(s.last()) {
        let rest = s.drop_last();
        trimming_takes_blanks(rest);
        let n = trimmed_end(s).len() as int;
        assert(s.take(n) =~= rest.take(n));
        assert forall|i: int| 0 <= i < s.skip(n).len() implies is_space(#[trigger] s.skip(n)[i]) by {
            if i < rest.skip(n).len() {
                assert(rest.skip(n)[i] == s.skip(n)[i]);
            }
        }
    } else {
        assert(s.take(s.len() as int) =~= s);
    }
}

/// Trimming both ends leaves a part of the text that neither begins nor ends in white space, with
/// only white space before and behind it.
pub proof fn trimming_keeps_the_middle(s: Seq<char>)
    ensures
        exists|from: int, to: int|
            0 <= from <= to <= s.len() && trimmed(s) == #[trigger] s.subrange(from, to) && blank(
                s.take(from),
            ) && blank(s.skip(to)),
        trimmed(s).len() > 0 ==> !is_space(trimmed(s)[0]) && !is_space(trimmed(s).last()),
{
    trimming_the_start(s);
    let t = trimmed_start(s);
    let from = s.len() - t.len();
    trimming_takes_blanks(t);
    let to = from + trimmed(s).len();
    assert(trimmed(s) =~= s.subrange(from, to));
    assert(s.skip(to) =~= t.skip(trimmed(s).len() as int));
}

proof fn trimming_the_start(s: Seq<char>)
    ensures
        trimmed_start(s).len() <= s.len(),
        trimmed_start(s) == s.skip(s.len() - trimmed_start(s).len()),
        blank(s.take(s.len() - trimmed_start(s).len())),
        trimmed_start(s).len() > 0 ==> !is_space(trimmed_start(s)[0]),
    decreases s.len(),
{
    if s.len() > 0 && is_space(s[0]) {
        let rest = s.skip(1);
        trimming_the_start(rest);
        let n = s.len() - trimmed_start(s).len();
        assert(s.skip(n) =~= rest.skip(n - 1));
        assert forall|i: int| 0 <= i < s.take(n).len() implies is_space(#[trigger] s.take(n)[i]) by {
            if i > 0 {
                assert(rest.take(n - 1)[i - 1] == s.take(n)[i]);
            }
        }
    } else {
        assert(s.skip(0) =~= s);
    }
}

/// Behind a separator a last part that has none is a field of its own.
pub proof fn last_field<T>(s: Seq<T>, sep: T, last: Seq<T>)
    requires
        !last.contains(sep),
    ensures
        fields(s.push(sep) + last, sep) == fields(s, sep).push(last),
    decreases s.len(),
{
    let all = s.push(sep) + last;
    let i = index_of(s, sep);
    index_of_is_first(s, sep);
    if i < s.len() {
        first_is_index_of(all, sep, i);
        assert(all.take(i) =~= s.take(i));
        assert(all.skip(i + 1) =~= s.skip(i + 1).push(sep) + last);
        last_field(s.skip(i + 1), sep, last);
        assert(fields(all, sep) =~= fields(s, sep).push(last));
    } else {
        first_is_index_of(all, sep, s.len() as int);
        assert(all.take(s.len() as int) =~= s);
        assert(all.skip((s.len() + 1) as int) =~= last);
        index_of_is_first(last, sep);
        assert(index_of(last, sep) == last.len()) by {
            if index_of(last, sep) < last.len() {
                assert(last.contains(last[index_of(last, sep)]));
            }
        }
        assert(fields(last, sep) == seq![last]);
        assert(fields(s, sep) == seq![s]);
        assert(fields(all, sep) == seq![all.take(s.len() as int)] + fields(
            all.skip((s.len() + 1) as int),
            sep,
        ));
        assert(fields(all, sep) =~= fields(s, sep).push(last));
    }
}

/// The digits of a base up to sixteen have the values that they should have, in upper and in lower
/// case, and no other character has one.
pub proof fn digits_have_their_values(c: char, base: int)
    requires
        10 <= base <= 16,
    ensures
        '0' <= c <= '9' ==> digit_value(c, base) == c as int - 0x30,
        'a' <= c <= 'f' && c as int - 0x61 + 10 < base ==> digit_value(c, base) == c as int - 0x61
            + 10,
        'A' <= c <= 'F' && c as int - 0x41 + 10 < base ==> digit_value(c, base) == c as int - 0x41
            + 10,
        digit_value(c, base) >= 0 ==> '0' <= c <= '9' || 'a' <= c <= 'f' || 'A' <= c <= 'F',
        digit_value(c, base) < base,
{
}

/// Two hexadecimal digits are read as the byte that they write.
pub proof fn hex_pairs_are_read(a: char, b: char)
    requires
        digit_value(a, 16) >= 0,
        digit_value(b, 16) >= 0,
    ensures
        parsed_unsigned(seq![a, b], 16, 255) == Some(16 * digit_value(a, 16) + digit_value(b, 16)),
{
    let s = seq![a, b];
    assert(s.drop_last() =~= seq![a]);
    assert(seq![a].drop_last() =~= Seq::<char>::empty());
    assert(digits_value(Seq::<char>::empty(), 16) == 0);
    assert(digits_value(seq![a], 16) == digit_value(a, 16));
    assert(digits_value(s, 16) == digit_value(a, 16) * 16 + digit_value(b, 16));
}

} // verus!
