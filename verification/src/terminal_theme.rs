//! What the terminal outside tells of its colours and its cells when it is asked.

use crate::color::RgbColor;
use crate::text;
use vstd::prelude::*;
use vstd::slice::slice_subrange;
use vstd::slice::slice_to_vec;
use vstd::utf8;

verus! {

/// The default colours of the terminal outside, as far as it has told them.
#[derive(Clone, Copy, Debug, PartialEq, Eq)]
pub struct HostTerminalTheme {
    pub foreground: Option<RgbColor>,
    pub background: Option<RgbColor>,
    pub cursor: Option<RgbColor>,
    pub palette: [Option<RgbColor>; 256],
}

/// What a theme holds.
#[verifier::ext_equal]
pub struct ThemeView {
    pub foreground: Option<RgbColor>,
    pub background: Option<RgbColor>,
    pub cursor: Option<RgbColor>,
    pub palette: Seq<Option<RgbColor>>,
}

impl View for HostTerminalTheme {
    type V = ThemeView;

    open spec fn view(&self) -> ThemeView {
        ThemeView {
            foreground: self.foreground,
            background: self.background,
            cursor: self.cursor,
            palette: self.palette@,
        }
    }
}

/// The theme of a terminal that has told nothing.
pub open spec fn unknown_theme() -> ThemeView {
    ThemeView {
        foreground: None,
        background: None,
        cursor: None,
        palette: Seq::new(256, |i: int| None),
    }
}

impl Default for HostTerminalTheme {
    fn default() -> (r: Self)
        ensures
            r@ == unknown_theme(),
    {
        let r = HostTerminalTheme {
            foreground: None,
            background: None,
            cursor: None,
            palette: [None;256],
        };
        assert(r.palette@ =~= Seq::new(256, |i: int| None));
        r
    }
}

/// The size of a cell in pixels; nothing where it is not known.
#[derive(Clone, Copy, Debug, PartialEq, Eq, Structural)]
pub struct CellPixelSize {
    pub width: u32,
    pub height: u32,
}

impl Default for CellPixelSize {
    fn default() -> (r: Self)
        ensures
            r == (CellPixelSize { width: 0, height: 0 }),
    {
        CellPixelSize { width: 0, height: 0 }
    }
}

/// All that the terminal outside tells.
#[derive(Clone, Copy, Debug, PartialEq, Eq)]
pub struct HostTerminalCapabilities {
    pub theme: HostTerminalTheme,
    pub cell_size: CellPixelSize,
}

impl Default for HostTerminalCapabilities {
    fn default() -> (r: Self)
        ensures
            r.theme@ == unknown_theme(),
            r.cell_size == (CellPixelSize { width: 0, height: 0 }),
    {
        HostTerminalCapabilities {
            theme: HostTerminalTheme::default(),
            cell_size: CellPixelSize::default(),
        }
    }
}

/// The largest value of a colour component of this many hexadecimal digits.
pub open spec fn component_max(digits: int) -> int {
    if digits == 1 {
        0xf
    } else if digits == 2 {
        0xff
    } else if digits == 3 {
        0xfff
    } else {
        0xffff
    }
}

/// A colour component of one to four hexadecimal digits, scaled to eight bits and rounded.
pub open spec fn component(s: Seq<char>) -> Option<int> {
    if 0 < s.len() <= 4 && text::all_digits(s, 16) {
        let max = component_max(s.len() as int);
        Some((text::digits_value(s, 16) * 255 + max / 2) / max)
    } else {
        None
    }
}

proof fn component_value_bounds(s: Seq<char>)
    requires
        0 < s.len() <= 4,
        text::all_digits(s, 16),
    ensures
        0 <= text::digits_value(s, 16) <= component_max(s.len() as int),
{
    reveal_with_fuel(text::digits_value, 6);
    let n = s.len();
    assert(text::digit_value(s[0], 16) >= 0);
    if n > 1 {
        assert(text::digit_value(s[1], 16) >= 0);
    }
    if n > 2 {
        assert(text::digit_value(s[2], 16) >= 0);
    }
    if n > 3 {
        assert(text::digit_value(s[3], 16) >= 0);
    }
    let t1 = s.drop_last();
    let t2 = t1.drop_last();
    let t3 = t2.drop_last();
}

/// A component of two digits stands for itself; the largest component of any length is full
/// intensity.
pub proof fn components_are_scaled(s: Seq<char>)
    requires
        0 < s.len() <= 4,
        text::all_digits(s, 16),
    ensures
        component(s) is Some,
        0 <= component(s)->0 <= 255,
        s.len() == 2 ==> component(s)->0 == text::digits_value(s, 16),
        text::digits_value(s, 16) == component_max(s.len() as int) ==> component(s)->0 == 255,
        text::digits_value(s, 16) == 0 ==> component(s)->0 == 0,
{
    component_value_bounds(s);
}

/// Reads a colour component.
pub fn parse_hex_component(s: &[char]) -> (r: Option<u8>)
    ensures
        match r {
            Some(v) => component(s@) == Some(v as int),
            None => component(s@) is None,
        },
{
    let n: usize = s.len();
    if n == 0 || n > 4 {
        return None;
    }
    let mut value: u32 = 0;
    let mut i: usize = 0;
    assert(s@.take(0) =~= Seq::empty());
    while i < n
        invariant
            i <= n <= 4,
            n == s@.len(),
            text::all_digits(s@.take(i as int), 16),
            value == text::digits_value(s@.take(i as int), 16),
            i == 0 ==> value == 0,
            i == 1 ==> value <= 0xf,
            i == 2 ==> value <= 0xff,
            i == 3 ==> value <= 0xfff,
            i == 4 ==> value <= 0xffff,
        decreases n - i,
    {
        let ghost next = s@.take(i + 1);
        assert(next.drop_last() =~= s@.take(i as int));
        assert(next.last() == s@[i as int]);
        match text::digit_of(s[i], 16) {
            Some(d) => {
                assert forall|j: int| 0 <= j < next.len() implies text::digit_value(
                    #[trigger] next[j],
                    16,
                ) >= 0 by {
                    if j < i {
                        assert(next[j] == s@.take(i as int)[j]);
                    }
                }
                value = value * 16 + d;
            },
            None => {
                assert(text::digit_value(s@[i as int], 16) < 0);
                return None;
            },
        }
        i = i + 1;
    }
    assert(s@.take(n as int) =~= s@);
    let max: u32 = if n == 1 {
        0xf
    } else if n == 2 {
        0xff
    } else if n == 3 {
        0xfff
    } else {
        0xffff
    };
    Some(((value * 255 + max / 2) / max) as u8)
}

/// A colour of three components.
pub open spec fn color_of(r: Option<int>, g: Option<int>, b: Option<int>) -> Option<RgbColor> {
    match (r, g, b) {
        (Some(r), Some(g), Some(b)) => Some(RgbColor { r: r as u8, g: g as u8, b: b as u8 }),
        _ => None,
    }
}

/// A colour as terminals write it: `rgb:` with three components between slashes, or `#` with
/// three components of the same length.
pub open spec fn rgb_color(s: Seq<char>) -> Option<RgbColor> {
    if "rgb:"@.is_prefix_of(s) {
        let parts = text::fields(s.skip(4), '/');
        if parts.len() == 3 {
            color_of(component(parts[0]), component(parts[1]), component(parts[2]))
        } else {
            None
        }
    } else if s.len() > 0 && s[0] == '#' {
        let hex = s.skip(1);
        let digits = hex.len() as int / 3;
        if 1 <= digits <= 4 && hex.len() == digits * 3 {
            color_of(
                component(hex.subrange(0, digits)),
                component(hex.subrange(digits, 2 * digits)),
                component(hex.subrange(2 * digits, 3 * digits)),
            )
        } else {
            None
        }
    } else {
        None
    }
}

fn color_from(r: Option<u8>, g: Option<u8>, b: Option<u8>) -> (c: Option<RgbColor>)
    ensures
        c == color_of(opt(r), opt(g), opt(b)),
{
    match (r, g, b) {
        (Some(r), Some(g), Some(b)) => Some(RgbColor { r, g, b }),
        _ => None,
    }
}

pub open spec fn opt(v: Option<u8>) -> Option<int> {
    match v {
        Some(x) => Some(x as int),
        None => None,
    }
}

/// Reads a colour.
pub fn parse_rgb_color(s: &[char]) -> (r: Option<RgbColor>)
    ensures
        r == rgb_color(s@),
{
    proof {
        reveal_strlit("rgb:");
    }
    if text::starts_with(s, "rgb:") {
        let rest = text::part(s, 4, s.len());
        assert(rest@ =~= s@.skip(4));
        let parts = text::split(&rest, '/');
        assert(parts@.len() == text::views(parts@).len());
        if parts.len() != 3 {
            return None;
        }
        assert(text::views(parts@)[0] == parts@[0]@);
        assert(text::views(parts@)[1] == parts@[1]@);
        assert(text::views(parts@)[2] == parts@[2]@);
        return color_from(
            parse_hex_component(&parts[0]),
            parse_hex_component(&parts[1]),
            parse_hex_component(&parts[2]),
        );
    }
    if s.len() == 0 || s[0] != '#' {
        return None;
    }
    let hex = text::part(s, 1, s.len());
    assert(hex@ =~= s@.skip(1));
    let digits: usize = hex.len() / 3;
    if digits < 1 || digits > 4 || hex.len() != digits * 3 {
        return None;
    }
    let r = text::part(&hex, 0, digits);
    let g = text::part(&hex, digits, digits * 2);
    let b = text::part(&hex, digits * 2, digits * 3);
    color_from(parse_hex_component(&r), parse_hex_component(&g), parse_hex_component(&b))
}

/// The palette with the colours of the fields from `i` on, which alternate with their indices.
pub open spec fn palette_with(
    palette: Seq<Option<RgbColor>>,
    fields: Seq<Seq<char>>,
    i: int,
) -> Seq<Option<RgbColor>>
    decreases fields.len() - i,
{
    if i + 1 < fields.len() {
        let next = match (text::parsed_unsigned(fields[i], 10, 255), rgb_color(fields[i + 1])) {
            (Some(index), Some(color)) => palette.update(index, Some(color)),
            _ => palette,
        };
        palette_with(next, fields, i + 2)
    } else {
        palette
    }
}

/// The body of a control sequence: behind `ESC ]`, without the terminator.
pub open spec fn sequence_body(s: Seq<char>) -> Option<Seq<char>> {
    if "\x1b]"@.is_prefix_of(s) {
        let body = s.skip(2);
        Some(
            if text::has_suffix(body, "\x1b\\"@) {
                body.take(body.len() - 2)
            } else if text::has_suffix(body, "\x07"@) {
                body.take(body.len() - 1)
            } else {
                body
            },
        )
    } else {
        None
    }
}

/// The colour in the second field.
pub open spec fn second_color(fields: Seq<Seq<char>>) -> Option<RgbColor> {
    if fields.len() > 1 {
        rgb_color(fields[1])
    } else {
        None
    }
}

/// The theme after an answer of the terminal.
pub open spec fn theme_with(theme: ThemeView, sequence: Seq<u8>) -> ThemeView {
    if !utf8::valid_utf8(sequence) {
        theme
    } else {
        match sequence_body(utf8::decode_utf8(sequence)) {
            None => theme,
            Some(body) => {
                let fields = text::fields(body, ';');
                if fields[0] == "10"@ {
                    ThemeView { foreground: second_color(fields), ..theme }
                } else if fields[0] == "11"@ {
                    ThemeView { background: second_color(fields), ..theme }
                } else if fields[0] == "12"@ {
                    ThemeView { cursor: second_color(fields), ..theme }
                } else if fields[0] == "4"@ {
                    ThemeView { palette: palette_with(theme.palette, fields, 1), ..theme }
                } else {
                    theme
                }
            },
        }
    }
}

impl HostTerminalTheme {
    /// Takes up an answer of the terminal.
    pub fn update_from_sequence(&mut self, sequence: &[u8])
        ensures
            final(self)@ == theme_with(old(self)@, sequence@),
    {
        proof {
            reveal_strlit("\x1b]");
            reveal_strlit("\x1b\\");
            reveal_strlit("\x07");
        }
        let s = match text::utf8_text(slice_to_vec(sequence)) {
            Some(s) => s,
            None => return,
        };
        let chars = text::chars_of(s.as_str());
        if !text::starts_with(&chars, "\x1b]") {
            return;
        }
        let body = text::part(&chars, 2, chars.len());
        assert(body@ =~= chars@.skip(2));
        let body = if text::ends_with(&body, "\x1b\\") {
            let n: usize = body.len() - 2;
            let r = text::part(&body, 0, n);
            assert(r@ =~= body@.take(n as int));
            r
        } else if text::ends_with(&body, "\x07") {
            let n: usize = body.len() - 1;
            let r = text::part(&body, 0, n);
            assert(r@ =~= body@.take(n as int));
            r
        } else {
            body
        };
        assert(sequence_body(chars@) == Some(body@));
        let fields = text::split(&body, ';');
        let ghost fs = text::fields(body@, ';');
        assert(fs.len() == fields@.len());
        assert(fs[0] == fields@[0]@);
        let second = if fields.len() > 1 {
            assert(fs[1] == fields@[1]@);
            parse_rgb_color(&fields[1])
        } else {
            None
        };
        if text::is_text(&fields[0], "10") {
            self.foreground = second;
        } else if text::is_text(&fields[0], "11") {
            self.background = second;
        } else if text::is_text(&fields[0], "12") {
            self.cursor = second;
        } else if text::is_text(&fields[0], "4") {
            let n: usize = fields.len();
            let mut i: usize = 1;
            let ghost palette0 = self.palette@;
            let ghost before = self@;
            while n - i > 1
                invariant
                    1 <= i <= n,
                    n == fields@.len(),
                    fs == text::views(fields@),
                    self@ == (ThemeView { palette: self.palette@, ..before }),
                    palette_with(self.palette@, fs, i as int) == palette_with(palette0, fs, 1),
                decreases n - i,
            {
                assert(fs[i as int] == fields@[i as int]@);
                assert(fs[i + 1] == fields@[i + 1]@);
                let index = text::parse_unsigned(&fields[i], 10, 255);
                let color = parse_rgb_color(&fields[i + 1]);
                if let (Some(index), Some(color)) = (index, color) {
                    self.palette[index as usize] = Some(color);
                }
                i = i + 2;
            }
        }
    }
}

/// The first place at or behind `from` at which `ESC ]` stands.
pub open spec fn sequence_start(s: Seq<u8>, from: int) -> Option<int>
    decreases s.len() - from,
{
    if from + 1 >= s.len() {
        None
    } else if s[from] == 0x1b && s[from + 1] == 0x5d {
        Some(from)
    } else {
        sequence_start(s, from + 1)
    }
}

/// Where the first terminator at or behind `from` ends: `BEL` or `ESC \`.
pub open spec fn sequence_end(s: Seq<u8>, from: int) -> Option<int>
    decreases s.len() - from,
{
    if from >= s.len() {
        None
    } else if s[from] == 0x07 {
        Some(from + 1)
    } else if s[from] == 0x1b && from + 1 < s.len() && s[from + 1] == 0x5c {
        Some(from + 2)
    } else {
        sequence_end(s, from + 1)
    }
}

/// The theme after all complete answers at or behind `offset`.
pub open spec fn theme_after(theme: ThemeView, s: Seq<u8>, offset: int) -> ThemeView
    decreases s.len() - offset,
{
    match sequence_start(s, offset) {
        Some(start) => match sequence_end(s, start + 2) {
            Some(end) => if offset < end <= s.len() {
                theme_after(theme_with(theme, s.subrange(start, end)), s, end)
            } else {
                theme
            },
            None => theme,
        },
        None => theme,
    }
}

fn find_start(s: &[u8], from: usize) -> (r: Option<usize>)
    requires
        from <= s@.len(),
    ensures
        match r {
            Some(i) => sequence_start(s@, from as int) == Some(i as int) && from <= i && i + 2
                <= s@.len(),
            None => sequence_start(s@, from as int) is None,
        },
{
    let n: usize = s.len();
    let mut i: usize = from;
    while n - i > 1
        invariant
            from <= i <= n,
            n == s@.len(),
            sequence_start(s@, from as int) == sequence_start(s@, i as int),
        decreases n - i,
    {
        if s[i] == 0x1b && s[i + 1] == 0x5d {
            return Some(i);
        }
        i = i + 1;
    }
    None
}

fn find_end(s: &[u8], from: usize) -> (r: Option<usize>)
    requires
        from <= s@.len(),
    ensures
        match r {
            Some(i) => sequence_end(s@, from as int) == Some(i as int) && from < i <= s@.len(),
            None => sequence_end(s@, from as int) is None,
        },
{
    let n: usize = s.len();
    let mut i: usize = from;
    while i < n
        invariant
            from <= i <= n,
            n == s@.len(),
            sequence_end(s@, from as int) == sequence_end(s@, i as int),
        decreases n - i,
    {
        if s[i] == 0x07 {
            return Some(i + 1);
        }
        if s[i] == 0x1b && n - i > 1 && s[i + 1] == 0x5c {
            return Some(i + 2);
        }
        i = i + 1;
    }
    None
}

/// The theme that the answers among the bytes tell.
pub fn parse_host_terminal_theme(bytes: &[u8]) -> (r: HostTerminalTheme)
    ensures
        r@ == theme_after(unknown_theme(), bytes@, 0),
{
    let size: usize = bytes.len();
    let mut theme = HostTerminalTheme::default();
    let mut offset: usize = 0;
    loop
        invariant
            size == bytes@.len(),
            offset <= size,
            theme_after(unknown_theme(), bytes@, 0) == theme_after(
                theme@,
                bytes@,
                offset as int,
            ),
        decreases bytes@.len() - offset,
    {
        let start: usize = match find_start(bytes, offset) {
            Some(start) => start,
            None => return theme,
        };
        let end: usize = match find_end(bytes, start + 2) {
            Some(end) => end,
            None => return theme,
        };
        theme.update_from_sequence(slice_subrange(bytes, start, end));
        offset = end;
    }
}

/// The first place at or behind `from` at which `ESC [` stands; the end where there is none.
pub open spec fn csi_at(s: Seq<char>, from: int) -> int
    decreases s.len() - from,
{
    if from + 1 >= s.len() {
        s.len() as int
    } else if s[from] == '\x1b' && s[from + 1] == '[' {
        from
    } else {
        csi_at(s, from + 1)
    }
}

/// The size of a cell in a report `6;<height>;<width>t` that stands at the start of the text.
pub open spec fn reported_size(s: Seq<char>) -> Option<CellPixelSize> {
    if "6;"@.is_prefix_of(s) {
        match text::halves(s.skip(2), 't') {
            Some((report, _)) => match text::halves(report, ';') {
                Some((height, width)) => match (
                    text::parsed_unsigned(height, 10, u32::MAX as int),
                    text::parsed_unsigned(width, 10, u32::MAX as int),
                ) {
                    (Some(height), Some(width)) => Some(
                        CellPixelSize { width: width as u32, height: height as u32 },
                    ),
                    _ => None,
                },
                None => None,
            },
            None => None,
        }
    } else {
        None
    }
}

/// The size of a cell in the first report behind an `ESC [` at or behind `from`. A report ends
/// before the next `ESC [`.
pub open spec fn size_from(s: Seq<char>, from: int) -> Option<CellPixelSize>
    decreases s.len() - from,
{
    let start = csi_at(s, from);
    if from <= start && start + 2 <= s.len() {
        let next = csi_at(s, start + 2);
        match reported_size(s.subrange(start + 2, next)) {
            Some(size) => Some(size),
            None => size_from(s, start + 2),
        }
    } else {
        None
    }
}

fn find_csi(s: &[char], from: usize) -> (r: usize)
    requires
        from <= s@.len(),
    ensures
        r == csi_at(s@, from as int),
        from <= r <= s@.len(),
        r < s@.len() ==> r + 2 <= s@.len(),
{
    let n: usize = s.len();
    let mut i: usize = from;
    while n - i > 1
        invariant
            from <= i <= n,
            n == s@.len(),
            csi_at(s@, from as int) == csi_at(s@, i as int),
        decreases n - i,
    {
        if s[i] == '\x1b' && s[i + 1] == '[' {
            return i;
        }
        i = i + 1;
    }
    n
}

fn read_size(s: &[char]) -> (r: Option<CellPixelSize>)
    ensures
        r == reported_size(s@),
{
    proof {
        reveal_strlit("6;");
    }
    if !text::starts_with(s, "6;") {
        return None;
    }
    let rest = text::part(s, 2, s.len());
    assert(rest@ =~= s@.skip(2));
    match text::split_once(&rest, 't') {
        Some((report, _)) => match text::split_once(&report, ';') {
            Some((height, width)) => match (
                text::parse_unsigned(&height, 10, u32::MAX as u64),
                text::parse_unsigned(&width, 10, u32::MAX as u64),
            ) {
                (Some(height), Some(width)) => Some(
                    CellPixelSize { width: width as u32, height: height as u32 },
                ),
                _ => None,
            },
            None => None,
        },
        None => None,
    }
}

/// The size of a cell that the answers among the bytes tell.
pub open spec fn cell_size(bytes: Seq<u8>) -> Option<CellPixelSize> {
    if utf8::valid_utf8(bytes) {
        size_from(utf8::decode_utf8(bytes), 0)
    } else {
        None
    }
}

/// The size of a cell that the answers among the bytes tell.
pub fn parse_cell_pixel_size(bytes: &[u8]) -> (r: Option<CellPixelSize>)
    ensures
        r == cell_size(bytes@),
{
    let s = match text::utf8_text(slice_to_vec(bytes)) {
        Some(s) => s,
        None => return None,
    };
    let chars = text::chars_of(s.as_str());
    let mut start: usize = find_csi(&chars, 0);
    let ghost mut from: int = 0;
    while start < chars.len()
        invariant
            0 <= from <= start <= chars@.len(),
            start == csi_at(chars@, from),
            start < chars@.len() ==> start + 2 <= chars@.len(),
            size_from(chars@, 0) == size_from(chars@, from),
            chars@ == utf8::decode_utf8(bytes@),
            utf8::valid_utf8(bytes@),
        decreases chars@.len() - start,
    {
        let next: usize = find_csi(&chars, start + 2);
        let report = text::part(&chars, start + 2, next);
        match read_size(&report) {
            Some(size) => return Some(size),
            None => {},
        }
        proof {
            from = start + 2;
        }
        start = next;
    }
    None
}

/// What the answers among the bytes tell.
pub fn parse_host_terminal_capabilities(bytes: &[u8]) -> (r: HostTerminalCapabilities)
    ensures
        r.theme@ == theme_after(unknown_theme(), bytes@, 0),
        r.cell_size == (match cell_size(bytes@) {
            Some(size) => size,
            None => CellPixelSize { width: 0, height: 0 },
        }),
{
    HostTerminalCapabilities {
        theme: parse_host_terminal_theme(bytes),
        cell_size: match parse_cell_pixel_size(bytes) {
            Some(size) => size,
            None => CellPixelSize::default(),
        },
    }
}

/// The questions for the first `n` entries of the palette.
pub open spec fn palette_queries(n: int) -> Seq<char>
    decreases n,
{
    if n <= 0 {
        Seq::empty()
    } else {
        palette_queries(n - 1) + "\x1b]4;"@ + text::decimal(n - 1) + ";?\x1b\\"@
    }
}

/// What the terminal outside is asked: its default colours, the size of a cell, and all entries
/// of its palette.
pub fn host_terminal_query_sequence() -> (r: String)
    ensures
        r@ == "\x1b]10;?\x1b\\\x1b]11;?\x1b\\\x1b]12;?\x1b\\\x1b[16t"@ + palette_queries(256),
{
    let mut out = text::chars_of(
        "\x1b]10;?\x1b\\\x1b]11;?\x1b\\\x1b]12;?\x1b\\\x1b[16t",
    );
    let ghost head = out@;
    assert(head + palette_queries(0) =~= head);
    let mut index: u64 = 0;
    while index < 256
        invariant
            index <= 256,
            out@ == head + palette_queries(index as int),
        decreases 256 - index,
    {
        text::push_text(&mut out, "\x1b]4;");
        text::push_decimal(&mut out, index);
        text::push_text(&mut out, ";?\x1b\\");
        index = index + 1;
        assert(out@ =~= head + palette_queries(index as int));
    }
    text::string_of(&out)
}

/// What to do next while the answers are awaited.
#[derive(Clone, Copy, Debug, PartialEq, Eq, Structural)]
pub enum QueryStep {
    /// Take what has come.
    Stop,
    /// Wait for more, for up to so many milliseconds.
    Wait(i32),
    /// Read what has come.
    Read,
}

/// The longest time that answers are waited for, in nanoseconds.
pub const QUERY_LIMIT: u128 = 400_000_000;

/// The pause behind which no more answers are expected, in nanoseconds.
pub const QUERY_PAUSE: u128 = 40_000_000;

/// Whether to go on waiting: not beyond the limit, nor when nothing more has come for a while. The
/// first answer may take longer than the others. The times are nanoseconds, since the questions
/// were sent and since the last answer came.
pub fn query_wait(elapsed: u128, since_data: Option<u128>) -> (r: QueryStep)
    ensures
        r == (if elapsed >= QUERY_LIMIT || (since_data is Some && since_data->0 >= QUERY_PAUSE) {
            QueryStep::Stop
        } else if since_data is Some {
            QueryStep::Wait(40)
        } else {
            QueryStep::Wait(120)
        }),
{
    if elapsed >= QUERY_LIMIT {
        return QueryStep::Stop;
    }
    match since_data {
        Some(pause) => if pause >= QUERY_PAUSE {
            QueryStep::Stop
        } else {
            QueryStep::Wait(40)
        },
        None => QueryStep::Wait(120),
    }
}

/// What to do after a wait. `None` means to see whether to wait again.
pub fn query_after_wait(ready: bool, any_data: bool) -> (r: Option<QueryStep>)
    ensures
        r == (if ready {
            Some(QueryStep::Read)
        } else if any_data {
            None
        } else {
            Some(QueryStep::Stop)
        }),
{
    if ready {
        Some(QueryStep::Read)
    } else if any_data {
        None
    } else {
        Some(QueryStep::Stop)
    }
}

/// A component of any length is scaled to the nearest of the 256 steps.
pub proof fn components_are_the_nearest(s: Seq<char>)
    requires
        0 < s.len() <= 4,
        text::all_digits(s, 16),
    ensures
        component(s) matches Some(v) && ({
            let max = component_max(s.len() as int);
            let off = v * max - text::digits_value(s, 16) * 255;
            -max <= 2 * off <= max
        }),
{
    component_value_bounds(s);
    let value = text::digits_value(s, 16);
    let v = component(s)->0;
    if s.len() == 1 {
        assert(v == (value * 255 + 7) / 15);
    } else if s.len() == 2 {
        assert(v == (value * 255 + 127) / 255);
    } else if s.len() == 3 {
        assert(v == (value * 255 + 2047) / 4095);
    } else {
        assert(v == (value * 255 + 32767) / 65535);
    }
}

proof fn three_fields(a: Seq<char>, b: Seq<char>, c: Seq<char>, sep: char)
    requires
        !a.contains(sep),
        !b.contains(sep),
        !c.contains(sep),
    ensures
        text::fields(a.push(sep) + b, sep) == seq![a, b],
        text::fields((a.push(sep) + b).push(sep) + c, sep) == seq![a, b, c],
{
    text::index_of_is_first(a, sep);
    assert(text::index_of(a, sep) == a.len()) by {
        if text::index_of(a, sep) < a.len() {
            assert(a.contains(a[text::index_of(a, sep)]));
        }
    }
    assert(text::fields(a, sep) == seq![a]);
    text::last_field(a, sep, b);
    text::last_field(a.push(sep) + b, sep, c);
    assert(seq![a].push(b) =~= seq![a, b]);
    assert(seq![a, b].push(c) =~= seq![a, b, c]);
}

/// A colour is read as its three components, red first.
pub proof fn colours_are_read(r: Seq<char>, g: Seq<char>, b: Seq<char>)
    requires
        0 < r.len() <= 4,
        0 < g.len() <= 4,
        0 < b.len() <= 4,
        text::all_digits(r, 16),
        text::all_digits(g, 16),
        text::all_digits(b, 16),
    ensures
        rgb_color("rgb:"@ + ((r.push('/') + g).push('/') + b)) matches Some(color) && color.r
            == component(r)->0 && color.g == component(g)->0 && color.b == component(b)->0,
{
    reveal_strlit("rgb:");
    let rest = (r.push('/') + g).push('/') + b;
    let s = "rgb:"@ + rest;
    assert(s.take(4) =~= "rgb:"@);
    assert("rgb:"@.is_prefix_of(s));
    assert(s.skip(4) =~= rest);
    no_separator(r, '/');
    no_separator(g, '/');
    no_separator(b, '/');
    three_fields(r, g, b, '/');
    components_are_scaled(r);
    components_are_scaled(g);
    components_are_scaled(b);
}

proof fn no_separator(s: Seq<char>, sep: char)
    requires
        text::all_digits(s, 16),
        sep == '/' || sep == ';' || sep == 't',
    ensures
        !s.contains(sep),
{
    if s.contains(sep) {
        let i = choose|i: int| 0 <= i < s.len() && s[i] == sep;
        assert(text::digit_value(s[i], 16) >= 0);
    }
}

/// The short form of a colour: all components of one length, behind a `#`.
pub proof fn short_colours_are_read(r: Seq<char>, g: Seq<char>, b: Seq<char>)
    requires
        0 < r.len() <= 4,
        g.len() == r.len(),
        b.len() == r.len(),
        text::all_digits(r, 16),
        text::all_digits(g, 16),
        text::all_digits(b, 16),
    ensures
        rgb_color(seq!['#'] + (r + g + b)) matches Some(color) && color.r == component(r)->0
            && color.g == component(g)->0 && color.b == component(b)->0,
{
    reveal_strlit("rgb:");
    let s = seq!['#'] + (r + g + b);
    assert(s[0] == '#');
    assert(!"rgb:"@.is_prefix_of(s)) by {
        if "rgb:"@.is_prefix_of(s) {
            assert(s.subrange(0, 4)[0] == s[0]);
        }
    }
    let hex = s.skip(1);
    let n = r.len() as int;
    assert(hex =~= r + g + b);
    assert(hex.len() as int / 3 == n);
    assert(hex.subrange(0, n) =~= r);
    assert(hex.subrange(n, 2 * n) =~= g);
    assert(hex.subrange(2 * n, 3 * n) =~= b);
    components_are_scaled(r);
    components_are_scaled(g);
    components_are_scaled(b);
}

/// An answer that a bell ends is taken apart into its number and what it says.
pub proof fn answers_are_taken_apart(number: Seq<char>, value: Seq<char>)
    requires
        !number.contains(';'),
        !value.contains(';'),
    ensures
        sequence_body("\x1b]"@ + (number.push(';') + value) + "\x07"@) == Some(
            number.push(';') + value,
        ),
        text::fields(number.push(';') + value, ';') == seq![number, value],
{
    reveal_strlit("\x1b]");
    reveal_strlit("\x1b\\");
    reveal_strlit("\x07");
    let body = number.push(';') + value;
    let s = "\x1b]"@ + body + "\x07"@;
    assert(s.take(2) =~= "\x1b]"@);
    assert("\x1b]"@.is_prefix_of(s));
    let rest = s.skip(2);
    assert(rest =~= body + "\x07"@);
    assert(rest.last() == '\x07');
    assert(!text::has_suffix(rest, "\x1b\\"@)) by {
        if text::has_suffix(rest, "\x1b\\"@) {
            assert(rest.skip(rest.len() - 2)[1] == rest.last());
        }
    }
    assert(rest.skip(rest.len() - 1) =~= "\x07"@);
    assert(text::has_suffix(rest, "\x07"@));
    assert(rest.take(rest.len() - 1) =~= body);
    three_fields(number, value, Seq::empty(), ';');
}

/// An answer of the terminal sets the colour that its number stands for, and no other.
pub proof fn answers_set_one_colour(
    theme: ThemeView,
    sequence: Seq<u8>,
    body: Seq<char>,
    number: Seq<char>,
    color: Seq<char>,
)
    requires
        utf8::valid_utf8(sequence),
        sequence_body(utf8::decode_utf8(sequence)) == Some(body),
        text::fields(body, ';') == seq![number, color],
    ensures
        ({
            let after = theme_with(theme, sequence);
            &&& number == "10"@ ==> after == (ThemeView { foreground: rgb_color(color), ..theme })
            &&& number == "11"@ ==> after == (ThemeView { background: rgb_color(color), ..theme })
            &&& number == "12"@ ==> after == (ThemeView { cursor: rgb_color(color), ..theme })
            &&& number != "10"@ && number != "11"@ && number != "12"@ ==> after.foreground
                == theme.foreground && after.background == theme.background && after.cursor
                == theme.cursor
        }),
{
    numbers_differ();
    let fields = text::fields(body, ';');
    assert(fields[0] == number && fields[1] == color);
}

proof fn numbers_differ()
    ensures
        "10"@ != "11"@,
        "10"@ != "12"@,
        "11"@ != "12"@,
{
    reveal_strlit("10");
    reveal_strlit("11");
    reveal_strlit("12");
    assert("10"@[1] == '0' && "11"@[1] == '1' && "12"@[1] == '2');
}

/// An answer about the palette sets the entry that it names, where the colour can be read, and no
/// other.
pub proof fn palette_entries_are_set(
    palette: Seq<Option<RgbColor>>,
    head: Seq<char>,
    index: int,
    color: Seq<char>,
)
    requires
        0 <= index < 256,
        palette.len() == 256,
    ensures
        palette_with(palette, seq![head, text::decimal(index), color], 1) == (
        if rgb_color(color) is Some {
            palette.update(index, rgb_color(color))
        } else {
            palette
        }),
{
    let fields = seq![head, text::decimal(index), color];
    text::decimal_reads_back(index);
    assert(fields[1] == text::decimal(index) && fields[2] == color);
    reveal_with_fuel(palette_with, 3);
}

/// A report of the size of a cell is read as it was written: the height first.
pub proof fn sizes_are_read(height: int, width: int)
    requires
        0 <= height <= u32::MAX,
        0 <= width <= u32::MAX,
    ensures
        reported_size(
            "6;"@ + ((text::decimal(height).push(';') + text::decimal(width)).push('t')),
        ) == Some(CellPixelSize { width: width as u32, height: height as u32 }),
{
    reveal_strlit("6;");
    let h = text::decimal(height);
    let w = text::decimal(width);
    text::decimal_reads_back(height);
    text::decimal_reads_back(width);
    let report = h.push(';') + w;
    let s = "6;"@ + report.push('t');
    assert(s.take(2) =~= "6;"@);
    assert("6;"@.is_prefix_of(s));
    let rest = s.skip(2);
    assert(rest =~= report.push('t'));
    assert forall|j: int| 0 <= j < report.len() implies #[trigger] rest[j] != 't' by {
        if j < h.len() {
            assert(text::digit_value(h[j], 10) >= 0);
        } else if j > h.len() {
            assert(rest[j] == w[j - h.len() - 1]);
            assert(text::digit_value(w[j - h.len() - 1], 10) >= 0);
        }
    }
    assert(rest[report.len() as int] == 't');
    text::first_is_index_of(rest, 't', report.len() as int);
    assert(rest.take(report.len() as int) =~= report);
    assert forall|j: int| 0 <= j < h.len() implies #[trigger] report[j] != ';' by {
        assert(text::digit_value(h[j], 10) >= 0);
    }
    assert(report[h.len() as int] == ';');
    text::first_is_index_of(report, ';', h.len() as int);
    assert(report.take(h.len() as int) =~= h);
    assert(report.skip(h.len() as int + 1) =~= w);
}

/// Every answer in what the terminal sends is taken up, in turn: one that begins at the offset and
/// ends in a bell first, and then those behind it.
pub proof fn answers_are_taken_in_turn(theme: ThemeView, s: Seq<u8>, offset: int, end: int)
    requires
        0 <= offset,
        offset + 2 <= end < s.len(),
        s[offset] == 0x1b,
        s[offset + 1] == 0x5d,
        s[end] == 0x07,
        forall|k: int|
            offset + 2 <= k < end ==> (#[trigger] s[k]) != 0x07 && s[k] != 0x1b,
    ensures
        theme_after(theme, s, offset) == theme_after(
            theme_with(theme, s.subrange(offset, end + 1)),
            s,
            end + 1,
        ),
{
    bell_is_the_end(s, offset + 2, end);
    assert(sequence_start(s, offset) == Some(offset));
}

proof fn bell_is_the_end(s: Seq<u8>, from: int, end: int)
    requires
        0 <= from <= end < s.len(),
        s[end] == 0x07,
        forall|k: int| from <= k < end ==> (#[trigger] s[k]) != 0x07 && s[k] != 0x1b,
    ensures
        sequence_end(s, from) == Some(end + 1),
    decreases end - from,
{
    if from < end {
        let here = s[from];
        bell_is_the_end(s, from + 1, end);
    }
}

/// What stands between the answers does not matter.
pub proof fn other_bytes_are_skipped(theme: ThemeView, s: Seq<u8>, offset: int)
    requires
        0 <= offset < s.len(),
        s[offset] != 0x1b,
    ensures
        theme_after(theme, s, offset) == theme_after(theme, s, offset + 1),
{
    if offset + 1 < s.len() {
        assert(sequence_start(s, offset) == sequence_start(s, offset + 1));
        starts_are_behind(s, offset + 1);
        match sequence_start(s, offset + 1) {
            Some(start) => {
                ends_are_behind(s, start + 2);
            },
            None => {},
        }
    }
}

proof fn starts_are_behind(s: Seq<u8>, from: int)
    ensures
        sequence_start(s, from) matches Some(start) ==> start >= from,
    decreases s.len() - from,
{
    if from + 1 < s.len() && !(s[from] == 0x1b && s[from + 1] == 0x5d) {
        starts_are_behind(s, from + 1);
    }
}

proof fn ends_are_behind(s: Seq<u8>, from: int)
    ensures
        sequence_end(s, from) matches Some(end) ==> end > from,
    decreases s.len() - from,
{
    if from < s.len() && s[from] != 0x07 {
        ends_are_behind(s, from + 1);
    }
}

} // verus!
