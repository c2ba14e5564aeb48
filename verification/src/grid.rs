//! What is decided around the terminal emulator of a pane.

use crate::color::RgbColor;
use crate::geometry;
use crate::term::ClipboardTarget;
use crate::terminal_theme::HostTerminalTheme;
use crate::text;
use crate::xtgettcap;
use crate::xtgettcap::XtgettcapResponse;
use vstd::prelude::*;

verus! {

/// A step of processing the output of a program.
#[derive(Debug, PartialEq, Eq)]
pub enum ProcessStep {
    /// Hand the bytes from `from` up to, not including, `to` to the emulator.
    Write { from: usize, to: usize },
    /// Answer the program.
    Respond(Vec<u8>),
}

/// What a step does.
pub enum StepView {
    Write { from: int, to: int },
    Respond(Seq<u8>),
}

impl View for ProcessStep {
    type V = StepView;

    open spec fn view(&self) -> StepView {
        match self {
            ProcessStep::Write { from, to } => StepView::Write { from: *from as int, to: *to as int },
            ProcessStep::Respond(bytes) => StepView::Respond(bytes@),
        }
    }
}

pub open spec fn steps_view(steps: Seq<ProcessStep>) -> Seq<StepView> {
    Seq::new(steps.len(), |i: int| steps[i]@)
}

/// How far the bytes were handed over once the first `n` answers are given.
pub open spec fn written_after(len: int, responses: Seq<(int, Seq<u8>)>, n: int) -> int
    decreases n,
{
    if n <= 0 {
        0
    } else {
        geometry::max_of(
            written_after(len, responses, n - 1),
            geometry::min_of(responses[n - 1].0, len),
        )
    }
}

/// The steps up to the `n`-th answer: the bytes before its query first, then the answer.
pub open spec fn steps_upto(len: int, responses: Seq<(int, Seq<u8>)>, n: int) -> Seq<StepView>
    decreases n,
{
    if n <= 0 {
        Seq::empty()
    } else {
        let before = steps_upto(len, responses, n - 1);
        let written = written_after(len, responses, n - 1);
        let end = written_after(len, responses, n);
        (if end > written {
            before.push(StepView::Write { from: written, to: end })
        } else {
            before
        }).push(StepView::Respond(responses[n - 1].1))
    }
}

/// All steps: the answers between the bytes, and the rest of the bytes.
pub open spec fn all_steps(len: int, responses: Seq<(int, Seq<u8>)>) -> Seq<StepView> {
    let n = responses.len() as int;
    let written = written_after(len, responses, n);
    if written < len {
        steps_upto(len, responses, n).push(StepView::Write { from: written, to: len })
    } else {
        steps_upto(len, responses, n)
    }
}

/// The steps of processing `len` bytes of output in which queries were answered. The answers keep
/// their place between those that the emulator gives itself.
pub fn process_plan(len: usize, responses: Vec<XtgettcapResponse>) -> (r: Vec<ProcessStep>)
    ensures
        steps_view(r@) == all_steps(len as int, xtgettcap::responses_view(responses@)),
{
    let ghost views = xtgettcap::responses_view(responses@);
    let mut steps: Vec<ProcessStep> = Vec::new();
    let mut written: usize = 0;
    let n: usize = responses.len();
    let mut i: usize = 0;
    assert(steps_view(steps@) =~= Seq::empty());
    while i < n
        invariant
            i <= n,
            n == responses@.len(),
            views == xtgettcap::responses_view(responses@),
            written == written_after(len as int, views, i as int),
            steps_view(steps@) == steps_upto(len as int, views, i as int),
        decreases n - i,
    {
        let ghost before = steps_view(steps@);
        assert(views[i as int] == xtgettcap::response_view(responses@[i as int]));
        let offset: usize = responses[i].end_offset;
        let end: usize = if offset < len {
            offset
        } else {
            len
        };
        if end > written {
            steps.push(ProcessStep::Write { from: written, to: end });
            assert(steps_view(steps@) =~= before.push(
                StepView::Write { from: written as int, to: end as int },
            ));
            written = end;
        }
        let ghost before = steps_view(steps@);
        let bytes = vstd::slice::slice_to_vec(responses[i].bytes.as_slice());
        steps.push(ProcessStep::Respond(bytes));
        assert(steps_view(steps@) =~= before.push(StepView::Respond(responses@[i as int].bytes@)));
        i = i + 1;
    }
    if written < len {
        let ghost before = steps_view(steps@);
        steps.push(ProcessStep::Write { from: written, to: len });
        assert(steps_view(steps@) =~= before.push(
            StepView::Write { from: written as int, to: len as int },
        ));
    }
    steps
}

/// The answers among steps.
pub open spec fn answers_in(steps: Seq<StepView>) -> Seq<Seq<u8>>
    decreases steps.len(),
{
    if steps.len() == 0 {
        Seq::empty()
    } else {
        match steps.last() {
            StepView::Respond(bytes) => answers_in(steps.drop_last()).push(bytes),
            StepView::Write { .. } => answers_in(steps.drop_last()),
        }
    }
}

/// The bytes that steps hand over.
pub open spec fn bytes_in(steps: Seq<StepView>, input: Seq<u8>) -> Seq<u8>
    decreases steps.len(),
{
    if steps.len() == 0 {
        Seq::empty()
    } else {
        match steps.last() {
            StepView::Respond(_) => bytes_in(steps.drop_last(), input),
            StepView::Write { from, to } => bytes_in(steps.drop_last(), input) + input.subrange(
                from,
                to,
            ),
        }
    }
}

/// Processing hands over every byte of the output once and in order, and gives every answer.
pub proof fn processing_is_complete(input: Seq<u8>, responses: Seq<(int, Seq<u8>)>)
    ensures
        bytes_in(all_steps(input.len() as int, responses), input) == input,
        answers_in(all_steps(input.len() as int, responses)) == xtgettcap::answer_bytes(responses),
{
    let n = responses.len() as int;
    let len = input.len() as int;
    steps_hand_over(input, responses, n);
    let steps = steps_upto(len, responses, n);
    let written = written_after(len, responses, n);
    assert(xtgettcap::answer_bytes(responses.take(n)) =~= xtgettcap::answer_bytes(responses));
    if written < len {
        let last = StepView::Write { from: written, to: len };
        assert(steps.push(last).drop_last() =~= steps);
        assert(input.take(written) + input.subrange(written, len) =~= input);
    } else {
        assert(input.take(written) =~= input);
    }
}

proof fn steps_hand_over(input: Seq<u8>, responses: Seq<(int, Seq<u8>)>, n: int)
    requires
        0 <= n <= responses.len(),
    ensures
        ({
            let len = input.len() as int;
            let written = written_after(len, responses, n);
            &&& 0 <= written <= len
            &&& bytes_in(steps_upto(len, responses, n), input) == input.take(written)
            &&& answers_in(steps_upto(len, responses, n)) == xtgettcap::answer_bytes(
                responses.take(n),
            )
        }),
    decreases n,
{
    let len = input.len() as int;
    let steps = steps_upto(len, responses, n);
    if n <= 0 {
        assert(input.take(0) =~= Seq::empty());
        assert(xtgettcap::answer_bytes(responses.take(0)) =~= Seq::empty());
    } else {
        steps_hand_over(input, responses, n - 1);
        let before = steps_upto(len, responses, n - 1);
        let written = written_after(len, responses, n - 1);
        let end = written_after(len, responses, n);
        let middle = if end > written {
            before.push(StepView::Write { from: written, to: end })
        } else {
            before
        };
        let answer = StepView::Respond(responses[n - 1].1);
        assert(steps == middle.push(answer));
        assert(middle.push(answer).drop_last() =~= middle);
        if end > written {
            assert(middle.drop_last() =~= before);
            assert(input.take(written) + input.subrange(written, end) =~= input.take(end));
            assert(bytes_in(middle, input) == input.take(end));
            assert(answers_in(middle) == answers_in(before));
        }
        assert(xtgettcap::answer_bytes(responses.take(n)) =~= xtgettcap::answer_bytes(
            responses.take(n - 1),
        ).push(responses[n - 1].1));
    }
}

/// The size of an emulator: at least one row and one column.
pub fn grid_size(rows: u16, cols: u16) -> (r: (u16, u16))
    ensures
        r == (
            geometry::max_of(rows as int, 1) as u16,
            geometry::max_of(cols as int, 1) as u16,
        ),
{
    (geometry::max_u16(rows, 1), geometry::max_u16(cols, 1))
}

/// Whether colours are light or dark.
#[derive(Debug, Clone, Copy, PartialEq, Eq, Structural)]
pub enum ColorScheme {
    Light,
    Dark,
}

/// A thousand times the luminance of a colour.
pub open spec fn luminance(c: RgbColor) -> int {
    c.r * 299 + c.g * 587 + c.b * 114
}

/// Whether a background is light: of at least half the luminance of white.
pub fn color_scheme(background: Option<RgbColor>) -> (r: Option<ColorScheme>)
    ensures
        r == (match background {
            Some(c) => Some(
                if luminance(c) >= 128_000 {
                    ColorScheme::Light
                } else {
                    ColorScheme::Dark
                },
            ),
            None => None,
        }),
{
    match background {
        Some(c) => {
            let luminance: u32 = c.r as u32 * 299 + c.g as u32 * 587 + c.b as u32 * 114;
            if luminance >= 128_000 {
                Some(ColorScheme::Light)
            } else {
                Some(ColorScheme::Dark)
            }
        },
        None => None,
    }
}

/// A place that a program asks to put something in.
#[derive(Debug, Clone, Copy, PartialEq, Eq, Structural)]
pub enum ClipboardLocation {
    Standard,
    Selection,
    Primary,
}

/// The clipboard for a place.
pub fn clipboard_target(location: ClipboardLocation) -> (r: ClipboardTarget)
    ensures
        r == (match location {
            ClipboardLocation::Standard => ClipboardTarget::Standard,
            _ => ClipboardTarget::Primary,
        }),
{
    match location {
        ClipboardLocation::Standard => ClipboardTarget::Standard,
        ClipboardLocation::Selection | ClipboardLocation::Primary => ClipboardTarget::Primary,
    }
}

/// Whether a type is that of plain text.
pub open spec fn is_text_type(mime: Seq<char>) -> bool {
    mime.len() == 0 || mime == "text/plain"@
}

/// The first of the contents that is plain text, by their types.
pub fn clipboard_choice(mimes: &[String]) -> (r: Option<usize>)
    ensures
        match r {
            Some(i) => i < mimes@.len() && is_text_type(mimes@[i as int]@) && forall|j: int|
                0 <= j < i ==> !is_text_type((#[trigger] mimes@[j])@),
            None => forall|j: int|
                0 <= j < mimes@.len() ==> !is_text_type((#[trigger] mimes@[j])@),
        },
{
    let mut i: usize = 0;
    while i < mimes.len()
        invariant
            i <= mimes@.len(),
            forall|j: int| 0 <= j < i ==> !is_text_type((#[trigger] mimes@[j])@),
        decreases mimes@.len() - i,
    {
        let mime = text::chars_of(mimes[i].as_str());
        if mime.len() == 0 || text::is_text(&mime, "text/plain") {
            return Some(i);
        }
        i = i + 1;
    }
    None
}

/// The palette of an emulator: the colours of the terminal outside, as far as they are known.
pub fn host_palette(theme: &HostTerminalTheme, default: &[RgbColor; 256]) -> (r: [RgbColor; 256])
    ensures
        forall|i: int|
            0 <= i < 256 ==> #[trigger] r@[i] == (match theme.palette@[i] {
                Some(color) => color,
                None => default@[i],
            }),
{
    let mut palette: [RgbColor; 256] = *default;
    let mut i: usize = 0;
    while i < 256
        invariant
            i <= 256,
            forall|j: int|
                0 <= j < i ==> #[trigger] palette@[j] == (match theme.palette@[j] {
                    Some(color) => color,
                    None => default@[j],
                }),
            forall|j: int| i <= j < 256 ==> #[trigger] palette@[j] == default@[j],
        decreases 256 - i,
    {
        if let Some(color) = theme.palette[i] {
            palette[i] = color;
        }
        i = i + 1;
    }
    palette
}

/// Where the viewport of an emulator lies in all its rows.
#[derive(Debug, Clone, Copy, PartialEq, Eq, Structural)]
pub struct Scrollbar {
    /// All rows.
    pub total: u64,
    /// The rows of the viewport.
    pub len: u64,
    /// The rows above the viewport.
    pub offset: u64,
}

impl Scrollbar {
    /// The viewport lies in the rows, which can be counted.
    pub open spec fn wf(self) -> bool {
        self.len + self.offset <= self.total <= usize::MAX
    }

    /// How many rows the viewport is above the bottom.
    pub open spec fn rows_above_bottom(self) -> int {
        self.total - self.len - self.offset
    }

    /// The row at which the viewport begins when it is so many rows above the bottom, as far as
    /// there are rows.
    pub open spec fn row_above_bottom(self, rows: int) -> int {
        geometry::minus(self.total - self.len, rows)
    }
}

/// How many rows the viewport is above the bottom; none where that is not known.
pub fn scrollback(bar: Option<Scrollbar>) -> (r: usize)
    requires
        bar matches Some(b) ==> b.wf(),
    ensures
        r == (match bar {
            Some(b) => b.rows_above_bottom(),
            None => 0,
        }),
{
    match bar {
        Some(b) => (b.total - b.len - b.offset) as usize,
        None => 0,
    }
}

/// The row to scroll to, so that the viewport is so many rows above the bottom.
pub fn scroll_target(bar: Option<Scrollbar>, rows: usize) -> (r: Option<usize>)
    requires
        bar matches Some(b) ==> b.wf(),
    ensures
        match bar {
            Some(b) => r is Some && r->0 == b.row_above_bottom(rows as int),
            None => r is None,
        },
{
    match bar {
        Some(b) => {
            let max: usize = (b.total - b.len) as usize;
            Some(max.saturating_sub(rows))
        },
        None => None,
    }
}

/// A viewport that begins at the row to scroll to is as many rows above the bottom as was asked for,
/// or at the top where there are fewer.
pub proof fn scrolling_is_exact(bar: Scrollbar, rows: int)
    requires
        bar.wf(),
        0 <= rows,
    ensures
        ({
            let scrolled = Scrollbar { offset: bar.row_above_bottom(rows) as u64, ..bar };
            &&& scrolled.wf()
            &&& scrolled.rows_above_bottom() == geometry::min_of(rows, bar.total - bar.len)
        }),
{
}

/// What to do after the size of an emulator has changed.
#[derive(Debug, Clone, Copy, PartialEq, Eq, Structural)]
pub enum AfterResize {
    /// Read the viewport again: it follows the output.
    Follow,
    /// Scroll back to as many rows above the bottom as before.
    Restore(usize),
}

/// Whether to change the size of an emulator, and what to do after it. Nothing is done for a size
/// without cells, or the size that it has.
pub fn resize_plan(size: (u16, u16), rows: u16, cols: u16, scrollback: usize) -> (r: Option<
    AfterResize,
>)
    ensures
        r == (if rows == 0 || cols == 0 || size == (rows, cols) {
            None
        } else if scrollback == 0 {
            Some(AfterResize::Follow)
        } else {
            Some(AfterResize::Restore(scrollback))
        }),
{
    if rows == 0 || cols == 0 || (size.0 == rows && size.1 == cols) {
        None
    } else if scrollback == 0 {
        Some(AfterResize::Follow)
    } else {
        Some(AfterResize::Restore(scrollback))
    }
}

/// What a program that asked for it is told when the focus comes or goes.
pub fn focus_report(enabled: bool, focused: bool) -> (r: Option<Vec<u8>>)
    ensures
        match r {
            Some(bytes) => enabled && bytes@ == text::ascii(
                if focused {
                    "\x1b[I"@
                } else {
                    "\x1b[O"@
                },
            ),
            None => !enabled,
        },
{
    if enabled {
        Some(
            text::ascii_bytes(
                if focused {
                    "\x1b[I"
                } else {
                    "\x1b[O"
                },
            ),
        )
    } else {
        None
    }
}

/// More of a colour never makes a background darker; black is nothing, white is a thousand times
/// full intensity, and green counts for more than red, and red for more than blue.
pub proof fn lighter_is_lighter(a: RgbColor, b: RgbColor, full: u8)
    requires
        a.r <= b.r,
        a.g <= b.g,
        a.b <= b.b,
        full > 0,
    ensures
        luminance(a) <= luminance(b),
        luminance(RgbColor { r: full, g: full, b: full }) == 1000 * full,
        luminance(RgbColor { r: 0, g: 0, b: full }) < luminance(RgbColor { r: full, g: 0, b: 0 }),
        luminance(RgbColor { r: full, g: 0, b: 0 }) < luminance(RgbColor { r: 0, g: full, b: 0 }),
        a != b ==> luminance(a) < luminance(b),
{
}

} // verus!
