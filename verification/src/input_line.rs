//! Where the line that a shell is editing stands on the screen.
//!
//! The shell reports the text and the cursor; the screen shows only cells. Cells are counted row
//! by row, so that the one in row `r` and column `c` of `cols` columns has the number
//! `r * cols + c`.
//!
//! How a text splits into elements that are drawn as one, and how many columns each takes, is
//! handed in as a table: the entry of a character says how many characters the element that begins
//! there has, up to the end of its line, and how many columns it takes.

use crate::term::{GridPoint, GridSelection, TermScreen};
use crate::text;
use std::ops::Range;
use vstd::prelude::*;

verus! {

/// The longest text that is laid out; its cells can be counted without overflow.
pub const MAX_INPUT: u64 = 0xff_ffff_ffff;

/// The largest cell number that counting starts from.
pub const MAX_CELL: i64 = 0xfff_ffff_ffff_ffff;

/// The table has an entry for each character, and no element reaches past its line.
pub open spec fn measures(buffer: Seq<char>, measured: Seq<(usize, u8)>) -> bool {
    &&& measured.len() == buffer.len()
    &&& forall|i: int, j: int|
        0 <= i < buffer.len() && buffer[i] != '\n' && i <= j < i + #[trigger] measured[i].0
            ==> j < buffer.len() && #[trigger] buffer[j] != '\n'
}

/// The ends of the elements of a line behind position `index`: how many characters and how many
/// columns of the line lie before each. `None` where the table gives an element no character.
pub open spec fn element_ends(
    measured: Seq<(usize, u8)>,
    from: int,
    len: int,
    index: int,
    cells: int,
) -> Option<Seq<(int, int)>>
    decreases (if index < len {
        len - index
    } else {
        0
    }),
{
    if index >= len {
        Some(Seq::empty())
    } else {
        let next = (index + measured[from + index].0, cells + measured[from + index].1);
        if next.0 <= index {
            None
        } else {
            match element_ends(measured, from, len, next.0, next.1) {
                Some(rest) => Some(seq![next] + rest),
                None => None,
            }
        }
    }
}

/// The boundaries between the elements of the line of `len` characters that begins at `from`,
/// its start included.
pub open spec fn line_boundaries(measured: Seq<(usize, u8)>, from: int, len: int) -> Option<
    Seq<(int, int)>,
> {
    match element_ends(measured, from, len, 0, 0) {
        Some(ends) => Some(seq![(0int, 0int)] + ends),
        None => None,
    }
}

/// The position in the text at which a line begins.
pub open spec fn line_start(lines: Seq<Seq<char>>, k: int) -> int
    decreases k,
{
    if k <= 0 {
        0
    } else {
        line_start(lines, k - 1) + lines[k - 1].len() + 1
    }
}

/// A line of the text with its boundaries.
pub struct LineModel {
    pub text: Seq<char>,
    pub start: int,
    pub boundaries: Seq<(int, int)>,
}

/// The columns that a line takes.
pub open spec fn line_width(line: LineModel) -> int {
    line.boundaries.last().1
}

/// The boundaries of the `k`-th line.
pub open spec fn boundaries_of(buffer: Seq<char>, measured: Seq<(usize, u8)>, k: int) -> Option<
    Seq<(int, int)>,
> {
    let lines = text::fields(buffer, '\n');
    line_boundaries(measured, line_start(lines, k), lines[k].len() as int)
}

/// Whether every line has boundaries.
pub open spec fn all_measured(buffer: Seq<char>, measured: Seq<(usize, u8)>) -> bool {
    forall|k: int|
        0 <= k < text::fields(buffer, '\n').len() ==> #[trigger] boundaries_of(
            buffer,
            measured,
            k,
        ) is Some
}

/// The lines of the text.
pub open spec fn line_models(buffer: Seq<char>, measured: Seq<(usize, u8)>) -> Seq<LineModel> {
    let lines = text::fields(buffer, '\n');
    Seq::new(
        lines.len(),
        |k: int|
            LineModel {
                text: lines[k],
                start: line_start(lines, k),
                boundaries: boundaries_of(buffer, measured, k)->0,
            },
    )
}

/// The first line that the cursor is not behind; the number of lines where it is behind all.
pub open spec fn cursor_line(lines: Seq<LineModel>, cursor: int) -> int
    decreases lines.len(),
{
    if lines.len() == 0 || cursor <= lines[0].start + lines[0].text.len() {
        0
    } else {
        1 + cursor_line(lines.skip(1), cursor)
    }
}

/// The columns before the boundary behind `index` characters, where there is one.
pub open spec fn offset_at(boundaries: Seq<(int, int)>, index: int) -> Option<int>
    decreases boundaries.len(),
{
    if boundaries.len() == 0 {
        None
    } else if boundaries[0].0 == index {
        Some(boundaries[0].1)
    } else {
        offset_at(boundaries.skip(1), index)
    }
}

/// Division that rounds towards zero.
pub open spec fn quotient(a: int, b: int) -> int {
    if a >= 0 {
        a / b
    } else {
        -((-a) / b)
    }
}

/// The cell in which line `k`, at or below the cursor's line `c`, begins: behind a line break the
/// text goes on in the first column of the row below the one in which the line ended. A line that
/// fills its last row ends in the row below it.
pub open spec fn cell_below(lines: Seq<LineModel>, c: int, anchor: int, cols: int, k: int) -> int
    decreases k - c,
{
    if k <= c {
        anchor
    } else {
        (quotient(cell_below(lines, c, anchor, cols, k - 1) + line_width(lines[k - 1]), cols) + 1)
            * cols
    }
}

/// The cell in which line `k`, above the cursor's line `c`, begins: as many rows above the line
/// below it as it takes.
pub open spec fn cell_above(lines: Seq<LineModel>, c: int, anchor: int, cols: int, k: int) -> int
    decreases c - k,
{
    if k >= c {
        anchor
    } else {
        (quotient(cell_above(lines, c, anchor, cols, k + 1), cols) - 1 - line_width(lines[k])
            / cols) * cols
    }
}

/// The cell in which a line begins, where it is known. The first line stands behind the prompt:
/// unless the cursor is in it, it has to be found on the screen.
pub open spec fn line_cell(
    lines: Seq<LineModel>,
    c: int,
    anchor: int,
    cols: int,
    located: Option<int>,
    k: int,
) -> Option<int> {
    if k == 0 && c > 0 {
        located
    } else if k >= c {
        Some(cell_below(lines, c, anchor, cols, k))
    } else {
        Some(cell_above(lines, c, anchor, cols, k))
    }
}

/// The boundaries of a line in the whole text and on the screen, for a line that begins in the
/// cell.
pub open spec fn shifted(line: LineModel, cell: int) -> Seq<(int, int)> {
    Seq::new(
        line.boundaries.len(),
        |i: int| (line.start + line.boundaries[i].0, cell + line.boundaries[i].1),
    )
}

/// The boundaries of the first `n` lines.
pub open spec fn placed(
    lines: Seq<LineModel>,
    c: int,
    anchor: int,
    cols: int,
    located: Option<int>,
    n: int,
) -> Seq<(int, int)>
    decreases n,
{
    if n <= 0 {
        Seq::empty()
    } else {
        placed(lines, c, anchor, cols, located, n - 1) + match line_cell(
            lines,
            c,
            anchor,
            cols,
            located,
            n - 1,
        ) {
            Some(cell) => shifted(lines[n - 1], cell),
            None => Seq::empty(),
        }
    }
}

/// What is known of the text before the first line is looked for: the line of the cursor, and the
/// cell in which that line begins.
pub open spec fn anchored(
    buffer: Seq<char>,
    measured: Seq<(usize, u8)>,
    cursor_index: int,
    cursor: (u16, u16),
    cols: int,
) -> Option<(int, int)> {
    if cols == 0 || buffer.contains('\r') || buffer.contains('\t') || !all_measured(
        buffer,
        measured,
    ) {
        None
    } else {
        let lines = line_models(buffer, measured);
        let c = cursor_line(lines, cursor_index);
        if c < lines.len() {
            match offset_at(lines[c].boundaries, cursor_index - lines[c].start) {
                Some(offset) => Some((c, cursor.0 * cols + cursor.1 - offset)),
                None => None,
            }
        } else {
            None
        }
    }
}

/// What has to be looked for on the screen: the first line, and the cell in which the line below
/// it begins.
pub open spec fn first_line_query(
    buffer: Seq<char>,
    measured: Seq<(usize, u8)>,
    cursor_index: int,
    cursor: (u16, u16),
    cols: int,
) -> Option<(Seq<char>, int)> {
    match anchored(buffer, measured, cursor_index, cursor, cols) {
        Some((c, anchor)) => if c > 0 {
            Some(
                (
                    text::fields(buffer, '\n')[0],
                    cell_above(line_models(buffer, measured), c, anchor, cols, 1),
                ),
            )
        } else {
            None
        },
        None => None,
    }
}

/// All boundaries of the text whose place on the screen is known: characters of the text and
/// cell numbers. `located` is the cell in which the first line was found.
pub open spec fn input_boundaries(
    buffer: Seq<char>,
    measured: Seq<(usize, u8)>,
    cursor_index: int,
    cursor: (u16, u16),
    cols: int,
    located: Option<int>,
) -> Option<Seq<(int, int)>> {
    match anchored(buffer, measured, cursor_index, cursor, cols) {
        Some((c, anchor)) => {
            let lines = line_models(buffer, measured);
            Some(placed(lines, c, anchor, cols, located, lines.len() as int))
        },
        None => None,
    }
}

/// Boundaries as mathematical integers.
pub open spec fn boundaries_view(b: Seq<(usize, i64)>) -> Seq<(int, int)> {
    Seq::new(b.len(), |i: int| (b[i].0 as int, b[i].1 as int))
}

pub open spec fn cell_view(c: Option<i64>) -> Option<int> {
    match c {
        Some(v) => Some(v as int),
        None => None,
    }
}

// Facts about lines.

proof fn line_start_shift(lines: Seq<Seq<char>>, head: Seq<char>, k: int)
    requires
        0 <= k <= lines.len(),
    ensures
        line_start(seq![head] + lines, k + 1) == head.len() + 1 + line_start(lines, k),
    decreases k,
{
    let all = seq![head] + lines;
    if k > 0 {
        line_start_shift(lines, head, k - 1);
        assert(all[k] == lines[k - 1]);
    } else {
        assert(line_start(all, 1) == line_start(all, 0) + all[0].len() + 1);
    }
}

/// The lines stand in the text one behind the other, with a line break between them.
pub proof fn lines_in_place(buffer: Seq<char>, k: int)
    requires
        0 <= k < text::fields(buffer, '\n').len(),
    ensures
        ({
            let lines = text::fields(buffer, '\n');
            let start = line_start(lines, k);
            &&& 0 <= start
            &&& start + lines[k].len() <= buffer.len()
            &&& lines[k] == buffer.subrange(start, start + lines[k].len())
            &&& forall|i: int| 0 <= i < lines[k].len() ==> #[trigger] lines[k][i] != '\n'
            &&& k + 1 < lines.len() ==> start + lines[k].len() < buffer.len()
            &&& k + 1 == lines.len() ==> start + lines[k].len() == buffer.len()
        }),
    decreases buffer.len(),
{
    let lines = text::fields(buffer, '\n');
    let i = text::index_of(buffer, '\n');
    text::index_of_is_first(buffer, '\n');
    if i < buffer.len() {
        let rest = buffer.skip(i + 1);
        let more = text::fields(rest, '\n');
        assert(lines == seq![buffer.take(i)] + more);
        text::fields_nonempty(rest, '\n');
        if k == 0 {
            assert(lines[0] =~= buffer.subrange(0, i));
        } else {
            lines_in_place(rest, k - 1);
            line_start_shift(more, buffer.take(i), k - 1);
            assert(lines[k] == more[k - 1]);
            let s = line_start(more, k - 1);
            assert(rest.subrange(s, s + more[k - 1].len()) =~= buffer.subrange(
                i + 1 + s,
                i + 1 + s + more[k - 1].len(),
            ));
        }
    } else {
        assert(lines[k] == buffer);
        assert(buffer.subrange(0, buffer.len() as int) =~= buffer);
    }
}

proof fn line_start_grows(lines: Seq<Seq<char>>, a: int, b: int)
    requires
        0 <= a <= b <= lines.len(),
    ensures
        line_start(lines, a) + (b - a) <= line_start(lines, b),
    decreases b - a,
{
    if a < b {
        line_start_grows(lines, a, b - 1);
    }
}

/// The boundaries run from the start of the line to its end, in growing order.
proof fn element_ends_fit(
    measured: Seq<(usize, u8)>,
    from: int,
    len: int,
    index: int,
    cells: int,
)
    requires
        0 <= index <= len,
        0 <= cells <= 255 * index,
        forall|i: int| 0 <= i < len ==> i + #[trigger] measured[from + i].0 <= len,
        element_ends(measured, from, len, index, cells) is Some,
    ensures
        ({
            let ends = element_ends(measured, from, len, index, cells)->0;
            &&& forall|i: int|
                0 <= i < ends.len() ==> index < (#[trigger] ends[i]).0 <= len && cells <= ends[i].1
                    <= 255 * ends[i].0
            &&& forall|i: int, j: int|
                0 <= i < j < ends.len() ==> (#[trigger] ends[i]).0 < (#[trigger] ends[j]).0
                    && ends[i].1 <= ends[j].1
            &&& ends.len() == 0 <==> index == len
            &&& ends.len() > 0 ==> ends.last().0 == len
        }),
    decreases len - index,
{
    if index < len {
        let next = (index + measured[from + index].0, cells + measured[from + index].1);
        assert(next.0 <= len);
        element_ends_fit(measured, from, len, next.0, next.1);
        let rest = element_ends(measured, from, len, next.0, next.1)->0;
        let ends = element_ends(measured, from, len, index, cells)->0;
        assert(ends == seq![next] + rest);
        assert forall|i: int| 0 <= i < ends.len() implies index < (#[trigger] ends[i]).0 <= len
            && cells <= ends[i].1 <= 255 * ends[i].0 by {
            if i > 0 {
                assert(ends[i] == rest[i - 1]);
            }
        }
        assert forall|i: int, j: int| 0 <= i < j < ends.len() implies (#[trigger] ends[i]).0 < (
        #[trigger] ends[j]).0 && ends[i].1 <= ends[j].1 by {
            assert(ends[j] == rest[j - 1]);
            if i > 0 {
                assert(ends[i] == rest[i - 1]);
            }
        }
        if rest.len() > 0 {
            assert(ends.last() == rest.last());
        } else {
            assert(ends.last() == next);
        }
    }
}

/// No element of a line reaches past the line.
proof fn elements_fit_line(buffer: Seq<char>, measured: Seq<(usize, u8)>, k: int)
    requires
        measures(buffer, measured),
        0 <= k < text::fields(buffer, '\n').len(),
    ensures
        ({
            let lines = text::fields(buffer, '\n');
            forall|i: int|
                0 <= i < lines[k].len() ==> i + #[trigger] measured[line_start(lines, k) + i].0
                    <= lines[k].len()
        }),
{
    let lines = text::fields(buffer, '\n');
    let start = line_start(lines, k);
    let len = lines[k].len() as int;
    lines_in_place(buffer, k);
    assert forall|i: int| 0 <= i < len implies i + #[trigger] measured[start + i].0 <= len by {
        assert(lines[k][i] == buffer[start + i]);
        let n = measured[start + i].0;
        if i + n > len {
            // The element would take the line break, or reach past the text.
            let j = start + len;
            assert(buffer[start + i] != '\n');
            let taken = buffer[j];
            assert(measured[start + i].0 == n);
            line_break_behind(buffer, k);
        }
    }
}

proof fn line_break_behind(buffer: Seq<char>, k: int)
    requires
        0 <= k < text::fields(buffer, '\n').len(),
    ensures
        ({
            let lines = text::fields(buffer, '\n');
            let end = line_start(lines, k) + lines[k].len();
            k + 1 < lines.len() ==> end < buffer.len() && buffer[end] == '\n'
        }),
    decreases buffer.len(),
{
    let lines = text::fields(buffer, '\n');
    let i = text::index_of(buffer, '\n');
    text::index_of_is_first(buffer, '\n');
    if i < buffer.len() {
        let rest = buffer.skip(i + 1);
        let more = text::fields(rest, '\n');
        assert(lines == seq![buffer.take(i)] + more);
        if k > 0 {
            line_break_behind(rest, k - 1);
            line_start_shift(more, buffer.take(i), k - 1);
            assert(lines[k] == more[k - 1]);
            if k + 1 < lines.len() {
                let e = line_start(more, k - 1) + more[k - 1].len();
                lines_in_place(rest, k - 1);
                assert(rest[e] == buffer[i + 1 + e]);
            }
        } else {
            assert(lines[0] == buffer.take(i));
        }
    }
}

/// What holds of the boundaries of a line that has them.
proof fn boundaries_fit(buffer: Seq<char>, measured: Seq<(usize, u8)>, k: int)
    requires
        measures(buffer, measured),
        0 <= k < text::fields(buffer, '\n').len(),
        boundaries_of(buffer, measured, k) is Some,
    ensures
        ({
            let lines = text::fields(buffer, '\n');
            let b = boundaries_of(buffer, measured, k)->0;
            &&& b.len() > 0
            &&& b[0] == (0int, 0int)
            &&& b.last().0 == lines[k].len()
            &&& 0 <= b.last().1 <= 255 * lines[k].len()
            &&& forall|i: int|
                0 <= i < b.len() ==> 0 <= (#[trigger] b[i]).0 <= lines[k].len() && 0 <= b[i].1
                    <= b.last().1
        }),
{
    let lines = text::fields(buffer, '\n');
    let start = line_start(lines, k);
    let len = lines[k].len() as int;
    elements_fit_line(buffer, measured, k);
    element_ends_fit(measured, start, len, 0, 0);
    let ends = element_ends(measured, start, len, 0, 0)->0;
    let b = boundaries_of(buffer, measured, k)->0;
    assert(b == seq![(0int, 0int)] + ends);
    if ends.len() > 0 {
        assert(b.last() == ends.last());
    } else {
        assert(b.last() == b[0]);
    }
    assert forall|i: int| 0 <= i < b.len() implies 0 <= (#[trigger] b[i]).0 <= len && 0 <= b[i].1
        <= b.last().1 by {
        if i > 0 {
            assert(b[i] == ends[i - 1]);
            if i - 1 < ends.len() - 1 {
                assert(ends[i - 1].1 <= ends[ends.len() - 1].1);
            }
        }
    }
}

/// The boundaries between the elements of the line of `len` characters whose table begins at
/// `from`.
pub fn grapheme_boundaries(measured: &[(usize, u8)], from: usize, len: usize) -> (r: Option<
    Vec<(usize, i64)>,
>)
    requires
        from + len <= measured@.len(),
        len <= MAX_INPUT,
        forall|i: int| 0 <= i < len ==> i + #[trigger] measured@[from + i].0 <= len,
    ensures
        match r {
            Some(b) => line_boundaries(measured@, from as int, len as int) == Some(
                boundaries_view(b@),
            ),
            None => line_boundaries(measured@, from as int, len as int) is None,
        },
{
    let size: usize = measured.len();
    let mut out: Vec<(usize, i64)> = Vec::new();
    let mut index: usize = 0;
    let mut cells: i64 = 0;
    out.push((0, 0));
    let ghost m = measured@;
    let ghost all = element_ends(m, from as int, len as int, 0, 0);
    assert(boundaries_view(out@) =~= seq![(0int, 0int)]);
    while index < len
        invariant
            index <= len,
            size == measured@.len(),
            from + len <= size,
            len <= MAX_INPUT,
            m == measured@,
            forall|i: int| 0 <= i < len ==> i + #[trigger] m[from + i].0 <= len,
            0 <= cells <= 255 * index,
            all == element_ends(m, from as int, len as int, 0, 0),
            ({
                let rest = element_ends(m, from as int, len as int, index as int, cells as int);
                &&& rest is Some <==> all is Some
                &&& all is Some ==> boundaries_view(out@) + rest->0 == seq![(0int, 0int)] + all->0
            }),
        decreases len - index,
    {
        let (consumed, width) = measured[from + index];
        assert(m[from + index] == (consumed, width));
        if consumed == 0 {
            return None;
        }
        let ghost before = boundaries_view(out@);
        let ghost rest0 = element_ends(m, from as int, len as int, index as int, cells as int);
        assert(index + m[from + index].0 <= len);
        index = index + consumed;
        cells = cells + width as i64;
        out.push((index, cells));
        assert(boundaries_view(out@) =~= before.push((index as int, cells as int)));
        proof {
            let rest = element_ends(m, from as int, len as int, index as int, cells as int);
            if rest is Some {
                assert(boundaries_view(out@) + rest->0 =~= before + rest0->0);
            }
        }
    }
    assert(boundaries_view(out@) + Seq::<(int, int)>::empty() =~= boundaries_view(out@));
    Some(out)
}

/// A line of the text with its boundaries.
struct InputLine {
    text: Vec<char>,
    start: usize,
    boundaries: Vec<(usize, i64)>,
}

spec fn line_view(line: InputLine) -> LineModel {
    LineModel {
        text: line.text@,
        start: line.start as int,
        boundaries: boundaries_view(line.boundaries@),
    }
}

spec fn lines_view(lines: Seq<InputLine>) -> Seq<LineModel> {
    Seq::new(lines.len(), |i: int| line_view(lines[i]))
}

/// Splits the text into lines with their boundaries.
fn input_lines(buffer: &[char], measured: &[(usize, u8)]) -> (r: Option<Vec<InputLine>>)
    requires
        measures(buffer@, measured@),
        buffer@.len() <= MAX_INPUT,
    ensures
        match r {
            Some(lines) => all_measured(buffer@, measured@) && lines_view(lines@) == line_models(
                buffer@,
                measured@,
            ),
            None => !all_measured(buffer@, measured@),
        },
{
    let mut texts = text::split(buffer, '\n');
    let ghost fields = text::fields(buffer@, '\n');
    let ghost models = line_models(buffer@, measured@);
    assert(texts@.len() == text::views(texts@).len());
    let mut out: Vec<InputLine> = Vec::new();
    let mut start: usize = 0;
    let size: usize = buffer.len();
    let n: usize = texts.len();
    let mut k: usize = 0;
    while k < n
        invariant
            k <= n,
            size == buffer@.len(),
            n == fields.len(),
            texts@.len() == n,
            text::views(texts@) == fields,
            fields == text::fields(buffer@, '\n'),
            models == line_models(buffer@, measured@),
            measures(buffer@, measured@),
            buffer@.len() <= MAX_INPUT,
            k < n ==> start == line_start(fields, k as int),
            lines_view(out@) == models.take(k as int),
            forall|j: int|
                0 <= j < k ==> #[trigger] boundaries_of(buffer@, measured@, j) is Some,
        decreases n - k,
    {
        proof {
            lines_in_place(buffer@, k as int);
            elements_fit_line(buffer@, measured@, k as int);
            assert(fields[k as int] == texts@[k as int]@);
        }
        let len: usize = texts[k].len();
        let boundaries = match grapheme_boundaries(measured, start, len) {
            Some(b) => b,
            None => {
                assert(boundaries_of(buffer@, measured@, k as int) is None);
                return None;
            },
        };
        let text = text::part(&texts[k], 0, len);
        assert(text@ =~= texts@[k as int]@);
        let ghost line = InputLine { text, start, boundaries };
        let ghost before = out@;
        out.push(InputLine { text, start, boundaries });
        assert(boundaries_of(buffer@, measured@, k as int) == Some(boundaries_view(boundaries@)));
        assert(line_view(line) == models[k as int]);
        assert(lines_view(out@) =~= lines_view(before).push(line_view(line)));
        assert(lines_view(out@) =~= models.take(k + 1));
        k = k + 1;
        if k < n {
            start = start + len + 1;
        }
    }
    assert(models.take(n as int) =~= models);
    Some(out)
}

/// The characters of a line.
pub fn width_chars(boundaries: &[(usize, i64)]) -> (r: usize)
    ensures
        r == (if boundaries@.len() == 0 {
            0
        } else {
            boundaries@.last().0
        }),
{
    if boundaries.len() == 0 {
        0
    } else {
        boundaries[boundaries.len() - 1].0
    }
}

/// The columns of a line.
pub fn width_cells(boundaries: &[(usize, i64)]) -> (r: i64)
    ensures
        r == (if boundaries@.len() == 0 {
            0
        } else {
            boundaries@.last().1
        }),
{
    if boundaries.len() == 0 {
        0
    } else {
        boundaries[boundaries.len() - 1].1
    }
}

// Bounds on cell numbers.

/// What holds of the lines of a text that can be laid out.
spec fn lines_fit(lines: Seq<LineModel>, size: int) -> bool {
    &&& lines.len() > 0
    &&& lines[0].start == 0
    &&& forall|k: int|
        0 <= k < lines.len() ==> {
            let line = #[trigger] lines[k];
            &&& 0 <= line.start
            &&& line.start + line.text.len() <= size
            &&& line.boundaries.len() > 0
            &&& line.boundaries.last().0 == line.text.len()
            &&& 0 <= line_width(line) <= 255 * line.text.len()
            &&& forall|i: int|
                0 <= i < line.boundaries.len() ==> 0 <= (#[trigger] line.boundaries[i]).0
                    <= line.text.len() && 0 <= line.boundaries[i].1 <= line_width(line)
        }
    &&& forall|k: int|
        0 < k < lines.len() ==> (#[trigger] lines[k]).start == lines[k - 1].start
            + lines[k - 1].text.len() + 1
}

proof fn models_fit(buffer: Seq<char>, measured: Seq<(usize, u8)>)
    requires
        measures(buffer, measured),
        all_measured(buffer, measured),
    ensures
        lines_fit(line_models(buffer, measured), buffer.len() as int),
{
    let lines = line_models(buffer, measured);
    let fields = text::fields(buffer, '\n');
    let size = buffer.len() as int;
    text::fields_nonempty(buffer, '\n');
    assert forall|k: int| 0 <= k < lines.len() implies {
        let line = #[trigger] lines[k];
        &&& 0 <= line.start
        &&& line.start + line.text.len() <= size
        &&& line.boundaries.len() > 0
        &&& line.boundaries.last().0 == line.text.len()
        &&& 0 <= line_width(line) <= 255 * line.text.len()
        &&& forall|i: int|
            0 <= i < line.boundaries.len() ==> 0 <= (#[trigger] line.boundaries[i]).0
                <= line.text.len() && 0 <= line.boundaries[i].1 <= line_width(line)
    } by {
        assert(boundaries_of(buffer, measured, k) is Some);
        lines_in_place(buffer, k);
        boundaries_fit(buffer, measured, k);
    }
    assert forall|k: int| 0 < k < lines.len() implies (#[trigger] lines[k]).start == lines[k
        - 1].start + lines[k - 1].text.len() + 1 by {
        assert(lines[k - 1].text == fields[k - 1]);
    }
}

proof fn row_above(x: int, cols: int)
    requires
        cols > 0,
        x >= 0,
    ensures
        0 <= (x / cols + 1) * cols <= x + cols,
{
    assert(0 <= (x / cols + 1) * cols <= x + cols) by (nonlinear_arith)
        requires
            cols > 0,
            x >= 0,
    ;
}

proof fn quotient_bounds(x: int, cols: int)
    requires
        cols > 0,
    ensures
        x - cols < quotient(x, cols) * cols < x + cols,
        x >= 0 ==> 0 <= quotient(x, cols) * cols <= x,
{
    let a = if x >= 0 {
        x
    } else {
        -x
    };
    assert(a - cols < (a / cols) * cols <= a) by (nonlinear_arith)
        requires
            cols > 0,
            a >= 0,
    ;
    if x < 0 {
        let q = a / cols;
        assert((-q) * cols == -(q * cols)) by (nonlinear_arith);
    } else {
        assert(0 <= (a / cols) * cols) by (nonlinear_arith)
            requires
                cols > 0,
                a >= 0,
        ;
    }
}

proof fn cell_below_bounds(
    lines: Seq<LineModel>,
    size: int,
    c: int,
    anchor: int,
    cols: int,
    k: int,
)
    requires
        lines_fit(lines, size),
        0 <= c <= k < lines.len(),
        0 < cols <= 0xffff,
        anchor + line_width(lines[c]) >= 0,
    ensures
        cell_below(lines, c, anchor, cols, k) + line_width(lines[k]) >= 0,
        k > c ==> cell_below(lines, c, anchor, cols, k) >= 0,
        cell_below(lines, c, anchor, cols, k) <= anchor + 65790 * (lines[k].start - lines[c].start),
    decreases k - c,
{
    if k > c {
        cell_below_bounds(lines, size, c, anchor, cols, k - 1);
        let x = cell_below(lines, c, anchor, cols, k - 1) + line_width(lines[k - 1]);
        row_above(x, cols);
        assert(lines[k].start == lines[k - 1].start + lines[k - 1].text.len() + 1);
    }
}

proof fn cell_above_bounds(
    lines: Seq<LineModel>,
    size: int,
    c: int,
    anchor: int,
    cols: int,
    k: int,
)
    requires
        lines_fit(lines, size),
        0 <= k <= c < lines.len(),
        0 < cols <= 0xffff,
    ensures
        anchor - 200000 * (lines[c].start - lines[k].start) <= cell_above(
            lines,
            c,
            anchor,
            cols,
            k,
        ) <= anchor,
        lines[k].start <= lines[c].start,
    decreases c - k,
{
    if k < c {
        cell_above_bounds(lines, size, c, anchor, cols, k + 1);
        assert(lines[k + 1].start == lines[k].start + lines[k].text.len() + 1);
        let next = cell_above(lines, c, anchor, cols, k + 1);
        let q = quotient(next, cols);
        let w = line_width(lines[k]);
        let d = w / cols;
        quotient_bounds(next, cols);
        quotient_bounds(w, cols);
        assert((q - 1 - d) * cols == q * cols - cols - d * cols) by (nonlinear_arith);
    }
}

/// What a function that looks for the first line may answer to the question. Where there is no
/// question, nothing is located.
pub open spec fn may_locate<F: FnOnce(&str, i64) -> Option<i64>>(
    locate_first: F,
    query: Option<(Seq<char>, int)>,
    located: Option<int>,
) -> bool {
    match query {
        None => located is None,
        Some((line, row_end)) => exists|s: &str, e: i64, x: Option<i64>|
            s@ == line && e == row_end && #[trigger] locate_first.ensures((s, e), x) && cell_view(x)
                == located,
    }
}

/// A function that looks for the first line can be asked the question, and answers with a cell
/// number that can be counted from.
pub open spec fn is_locator<F: FnOnce(&str, i64) -> Option<i64>>(
    locate_first: F,
    query: Option<(Seq<char>, int)>,
) -> bool {
    &&& forall|s: &str, e: i64|
        query == Some((s@, e as int)) ==> #[trigger] locate_first.requires((s, e))
    &&& forall|s: &str, e: i64, x: Option<i64>| #[trigger]
        locate_first.ensures((s, e), x) && query == Some((s@, e as int)) ==> match x {
            Some(v) => -MAX_CELL <= v <= MAX_CELL,
            None => true,
        }
}

/// Whether there is a character `c` in the text.
fn holds(buffer: &[char], c: char) -> (r: bool)
    ensures
        r == buffer@.contains(c),
{
    let i: usize = text::find_char(buffer, c, 0);
    i < buffer.len()
}

fn find_cursor_line(lines: &Vec<InputLine>, cursor: usize) -> (r: usize)
    requires
        lines_fit(lines_view(lines@), usize::MAX as int),
    ensures
        r == cursor_line(lines_view(lines@), cursor as int),
        r <= lines@.len(),
{
    let ghost models = lines_view(lines@);
    let n: usize = lines.len();
    let mut k: usize = 0;
    assert(models.skip(0) =~= models);
    while k < n
        invariant
            k <= n,
            n == lines@.len(),
            models == lines_view(lines@),
            lines_fit(models, usize::MAX as int),
            cursor_line(models, cursor as int) == k + cursor_line(
                models.skip(k as int),
                cursor as int,
            ),
        decreases n - k,
    {
        let ghost line = models[k as int];
        assert(line == line_view(lines@[k as int]));
        assert(models.skip(k as int)[0] == line);
        let chars: usize = width_chars(&lines[k].boundaries);
        assert(chars == line.boundaries.last().0);
        if cursor <= lines[k].start + chars {
            return k;
        }
        assert(models.skip(k as int).skip(1) =~= models.skip(k + 1));
        k = k + 1;
    }
    k
}

fn find_offset(boundaries: &Vec<(usize, i64)>, index: usize) -> (r: Option<i64>)
    ensures
        cell_view(r) == offset_at(boundaries_view(boundaries@), index as int),
        r matches Some(v) ==> exists|i: int|
            0 <= i < boundaries@.len() && (#[trigger] boundaries@[i]).1 == v,
{
    let ghost b = boundaries_view(boundaries@);
    let mut i: usize = 0;
    assert(b.skip(0) =~= b);
    while i < boundaries.len()
        invariant
            i <= boundaries@.len(),
            b == boundaries_view(boundaries@),
            offset_at(b, index as int) == offset_at(b.skip(i as int), index as int),
        decreases boundaries@.len() - i,
    {
        assert(b.skip(i as int)[0] == b[i as int]);
        if boundaries[i].0 == index {
            return Some(boundaries[i].1);
        }
        assert(b.skip(i as int).skip(1) =~= b.skip(i + 1));
        i = i + 1;
    }
    None
}

/// What is found of a text before its first line is looked for.
struct Anchored {
    lines: Vec<InputLine>,
    /// The line of the cursor.
    line: usize,
    /// The cell in which that line begins.
    cell: i64,
}

/// The largest distance of a cell from the first one that counting leads to.
spec fn far() -> int {
    0x1_ffff_ffff + 200255 * MAX_INPUT
}

fn anchor(
    buffer: &[char],
    measured: &[(usize, u8)],
    current_cursor: usize,
    cursor: (u16, u16),
    cols: u16,
) -> (r: Option<Anchored>)
    requires
        measures(buffer@, measured@),
        buffer@.len() <= MAX_INPUT,
    ensures
        match r {
            Some(a) => {
                &&& anchored(buffer@, measured@, current_cursor as int, cursor, cols as int)
                    == Some((a.line as int, a.cell as int))
                &&& cols > 0
                &&& lines_view(a.lines@) == line_models(buffer@, measured@)
                &&& lines_fit(lines_view(a.lines@), buffer@.len() as int)
                &&& a.line < a.lines@.len()
                &&& -255 * buffer@.len() <= a.cell <= 0x1_ffff_ffff
                &&& a.cell + line_width(lines_view(a.lines@)[a.line as int]) >= 0
            },
            None => anchored(buffer@, measured@, current_cursor as int, cursor, cols as int) is None,
        },
{
    if cols == 0 || holds(buffer, '\r') || holds(buffer, '\t') {
        return None;
    }
    let lines = match input_lines(buffer, measured) {
        Some(lines) => lines,
        None => return None,
    };
    let ghost models = lines_view(lines@);
    let size: usize = buffer.len();
    proof {
        models_fit(buffer@, measured@);
        assert(lines_fit(models, usize::MAX as int)) by {
            assert forall|k: int| 0 <= k < models.len() implies {
                let line = #[trigger] models[k];
                line.start + line.text.len() <= usize::MAX as int
            } by {
                assert(models[k].start + models[k].text.len() <= size);
            }
        }
    }
    let line: usize = find_cursor_line(&lines, current_cursor);
    if line >= lines.len() {
        return None;
    }
    assert(models[line as int] == line_view(lines@[line as int]));
    proof {
        cursor_line_bounds(models, size as int, current_cursor as int);
    }
    match find_offset(&lines[line].boundaries, current_cursor - lines[line].start) {
        None => None,
        Some(offset) => {
            let ghost b = models[line as int].boundaries;
            let ghost i = choose|i: int|
                0 <= i < lines@[line as int].boundaries@.len() && (
                #[trigger] lines@[line as int].boundaries@[i]).1 == offset;
            assert(b[i].1 == offset);
            assert(0 <= cursor.0 * cols <= 0xffff * 0xffff) by (nonlinear_arith)
                requires
                    cursor.0 <= 0xffff,
                    cols <= 0xffff,
            ;
            let cell: i64 = cursor.0 as i64 * cols as i64 + cursor.1 as i64 - offset;
            Some(Anchored { lines, line, cell })
        },
    }
}

proof fn cursor_line_bounds(lines: Seq<LineModel>, size: int, cursor: int)
    requires
        lines_fit(lines, size),
        cursor >= 0,
        cursor_line(lines, cursor) < lines.len(),
    ensures
        lines[cursor_line(lines, cursor)].start <= cursor,
{
    let k = cursor_line(lines, cursor);
    cursor_line_is_first(lines, cursor);
    if k > 0 {
        assert(cursor > lines[k - 1].start + lines[k - 1].text.len());
        assert(lines[k].start == lines[k - 1].start + lines[k - 1].text.len() + 1);
    }
}

proof fn cursor_line_is_first(lines: Seq<LineModel>, cursor: int)
    ensures
        0 <= cursor_line(lines, cursor) <= lines.len(),
        forall|j: int|
            0 <= j < cursor_line(lines, cursor) ==> cursor > (#[trigger] lines[j]).start
                + lines[j].text.len(),
    decreases lines.len(),
{
    if lines.len() > 0 && cursor > lines[0].start + lines[0].text.len() {
        cursor_line_is_first(lines.skip(1), cursor);
        assert forall|j: int| 0 <= j < cursor_line(lines, cursor) implies cursor > (
        #[trigger] lines[j]).start + lines[j].text.len() by {
            if j > 0 {
                assert(lines.skip(1)[j - 1] == lines[j]);
            }
        }
    }
}

/// The cell at which the row below that of a cell begins.
fn row_below(cell: i64, cols: u16) -> (r: i64)
    requires
        cols > 0,
        0 <= cell <= 0x7fff_ffff_ffff_0000,
    ensures
        r == (quotient(cell as int, cols as int) + 1) * cols,
{
    let width: i64 = cols as i64;
    proof {
        row_above(cell as int, cols as int);
        assert(0 <= cell as int / (width as int) <= cell) by (nonlinear_arith)
            requires
                cell >= 0,
                width > 0,
        ;
    }
    (cell / width + 1) * width
}

/// The cells in which the lines begin, but for a first line that has to be looked for.
fn line_cells(a: &Anchored, cols: u16, Ghost(size): Ghost<int>) -> (r: Vec<Option<i64>>)
    requires
        lines_fit(lines_view(a.lines@), size),
        0 <= size <= MAX_INPUT,
        a.line < a.lines@.len(),
        cols > 0,
        -255 * size <= a.cell <= 0x1_ffff_ffff,
        a.cell + line_width(lines_view(a.lines@)[a.line as int]) >= 0,
    ensures
        r@.len() == a.lines@.len(),
        forall|k: int|
            0 <= k < r@.len() ==> cell_view(#[trigger] r@[k]) == line_cell(
                lines_view(a.lines@),
                a.line as int,
                a.cell as int,
                cols as int,
                None,
                k,
            ),
        forall|k: int|
            0 <= k < r@.len() ==> match #[trigger] r@[k] {
                Some(v) => -far() <= v <= far(),
                None => true,
            },
{
    let ghost models = lines_view(a.lines@);
    let n: usize = a.lines.len();
    let c: usize = a.line;
    let width: i64 = cols as i64;
    let mut cells: Vec<Option<i64>> = Vec::new();
    while cells.len() < n
        invariant
            cells@.len() <= n,
            forall|k: int| 0 <= k < cells@.len() ==> #[trigger] cells@[k] is None,
        decreases n - cells@.len(),
    {
        cells.push(None);
    }
    cells.set(c, Some(a.cell));
    let mut cell: i64 = a.cell;
    let mut k: usize = c + 1;
    while k < n
        invariant
            c < k <= n,
            n == a.lines@.len(),
            c == a.line,
            width == cols,
            0 < cols,
            models == lines_view(a.lines@),
            lines_fit(models, size),
            0 <= size <= MAX_INPUT,
            cells@.len() == n,
            -255 * size <= a.cell <= 0x1_ffff_ffff,
            a.cell + line_width(models[c as int]) >= 0,
            cell == cell_below(models, c as int, a.cell as int, cols as int, k - 1),
            forall|j: int| 0 <= j < c ==> #[trigger] cells@[j] is None,
            forall|j: int|
                c <= j < k ==> cell_view(#[trigger] cells@[j]) == Some(
                    cell_below(models, c as int, a.cell as int, cols as int, j),
                ),
        decreases n - k,
    {
        proof {
            assert(models[k - 1] == line_view(a.lines@[k - 1]));
            cell_below_bounds(models, size, c as int, a.cell as int, cols as int, k - 1);
            cell_below_bounds(models, size, c as int, a.cell as int, cols as int, k as int);
            assert(models[k as int].start <= size);
            assert(models[k - 1].start <= size);
            assert(models[c as int].start >= 0);
        }
        let end: i64 = cell + width_cells(&a.lines[k - 1].boundaries);
        cell = row_below(end, cols);
        cells.set(k, Some(cell));
        k = k + 1;
    }
    let mut cell: i64 = a.cell;
    let mut k: usize = c;
    while k > 1
        invariant
            k <= c < n,
            c > 0 ==> k > 0,
            n == a.lines@.len(),
            c == a.line,
            width == cols,
            0 < cols,
            models == lines_view(a.lines@),
            lines_fit(models, size),
            0 <= size <= MAX_INPUT,
            cells@.len() == n,
            -255 * size <= a.cell <= 0x1_ffff_ffff,
            a.cell + line_width(models[c as int]) >= 0,
            cell == cell_above(models, c as int, a.cell as int, cols as int, k as int),
            forall|j: int| 0 <= j < k && j < c ==> #[trigger] cells@[j] is None,
            forall|j: int|
                c <= j < n ==> cell_view(#[trigger] cells@[j]) == Some(
                    cell_below(models, c as int, a.cell as int, cols as int, j),
                ),
            forall|j: int|
                k <= j < c ==> cell_view(#[trigger] cells@[j]) == Some(
                    cell_above(models, c as int, a.cell as int, cols as int, j),
                ),
        decreases k,
    {
        proof {
            assert(models[k - 1] == line_view(a.lines@[k - 1]));
            cell_above_bounds(models, size, c as int, a.cell as int, cols as int, k as int);
            cell_above_bounds(models, size, c as int, a.cell as int, cols as int, k - 1);
            assert(models[c as int].start <= size);
            assert(models[k as int].start >= 0);
            assert(models[k - 1].start >= 0);
        }
        let w: i64 = width_cells(&a.lines[k - 1].boundaries);
        let q: i64 = cell / width;
        let d: i64 = w / width;
        proof {
            quotient_bounds(cell as int, cols as int);
            quotient_bounds(w as int, cols as int);
            small_quotient(cell as int, cols as int);
            small_quotient(w as int, cols as int);
        }
        cell = (q - 1 - d) * width;
        k = k - 1;
        cells.set(k, Some(cell));
    }
    proof {
        assert forall|j: int| 0 <= j < n implies {
            &&& cell_view(#[trigger] cells@[j]) == line_cell(
                models,
                c as int,
                a.cell as int,
                cols as int,
                None,
                j,
            )
            &&& match cells@[j] {
                Some(v) => -far() <= v <= far(),
                None => true,
            }
        } by {
            assert(0 <= models[j].start <= size);
            assert(0 <= models[c as int].start <= size);
            if j >= c {
                cell_below_bounds(models, size, c as int, a.cell as int, cols as int, j);
                assert(cells@[j] is Some);
            } else if j > 0 {
                cell_above_bounds(models, size, c as int, a.cell as int, cols as int, j);
                assert(cells@[j] is Some);
            }
        }
    }
    cells
}

proof fn small_quotient(x: int, cols: int)
    requires
        cols > 0,
    ensures
        x >= 0 ==> 0 <= quotient(x, cols) <= x,
        x < 0 ==> x <= quotient(x, cols) <= 0,
{
    let a = if x >= 0 {
        x
    } else {
        -x
    };
    assert(0 <= a / cols <= a) by (nonlinear_arith)
        requires
            cols > 0,
            a >= 0,
    ;
}

/// Boundaries that belong to a text of `size` characters, in cells that can be counted on.
pub open spec fn boundaries_fit_text(b: Seq<(usize, i64)>, size: int) -> bool {
    forall|i: int|
        0 <= i < b.len() ==> (#[trigger] b[i]).0 <= size && -2 * MAX_CELL <= b[i].1 <= 2 * MAX_CELL
}

fn place_lines(
    lines: &Vec<InputLine>,
    cells: &Vec<Option<i64>>,
    Ghost(size): Ghost<int>,
    Ghost(c): Ghost<int>,
    Ghost(anchor): Ghost<int>,
    Ghost(cols): Ghost<int>,
    Ghost(located): Ghost<Option<int>>,
) -> (r: Vec<(usize, i64)>)
    requires
        lines_fit(lines_view(lines@), size),
        0 <= size <= MAX_INPUT,
        size <= usize::MAX,
        cells@.len() == lines@.len(),
        forall|k: int|
            0 <= k < cells@.len() ==> cell_view(#[trigger] cells@[k]) == line_cell(
                lines_view(lines@),
                c,
                anchor,
                cols,
                located,
                k,
            ),
        forall|k: int|
            0 <= k < cells@.len() ==> match #[trigger] cells@[k] {
                Some(v) => -MAX_CELL <= v <= MAX_CELL,
                None => true,
            },
    ensures
        boundaries_view(r@) == placed(
            lines_view(lines@),
            c,
            anchor,
            cols,
            located,
            lines@.len() as int,
        ),
        boundaries_fit_text(r@, size),
{
    let ghost models = lines_view(lines@);
    let mut out: Vec<(usize, i64)> = Vec::new();
    let n: usize = lines.len();
    let mut k: usize = 0;
    assert(boundaries_view(out@) =~= placed(models, c, anchor, cols, located, 0));
    while k < n
        invariant
            k <= n,
            n == lines@.len(),
            models == lines_view(lines@),
            lines_fit(models, size),
            0 <= size <= MAX_INPUT,
            size <= usize::MAX,
            cells@.len() == n,
            forall|k: int|
                0 <= k < cells@.len() ==> cell_view(#[trigger] cells@[k]) == line_cell(
                    models,
                    c,
                    anchor,
                    cols,
                    located,
                    k,
                ),
            forall|k: int|
                0 <= k < cells@.len() ==> match #[trigger] cells@[k] {
                    Some(v) => -MAX_CELL <= v <= MAX_CELL,
                    None => true,
                },
            boundaries_view(out@) == placed(models, c, anchor, cols, located, k as int),
            boundaries_fit_text(out@, size),
        decreases n - k,
    {
        let ghost before = boundaries_view(out@);
        let ghost line = models[k as int];
        assert(line == line_view(lines@[k as int]));
        assert(cell_view(cells@[k as int]) == line_cell(models, c, anchor, cols, located, k as int));
        if let Some(cell) = cells[k] {
            let m: usize = lines[k].boundaries.len();
            let mut i: usize = 0;
            assert(before + shifted(line, cell as int).take(0) =~= before);
            while i < m
                invariant
                    i <= m,
                    k < n,
                    n == lines@.len(),
                    m == lines@[k as int].boundaries@.len(),
                    line == line_view(lines@[k as int]),
                    models == lines_view(lines@),
                    models[k as int] == line,
                    lines_fit(models, size),
                    0 <= size <= MAX_INPUT,
                    size <= usize::MAX,
                    -MAX_CELL <= cell <= MAX_CELL,
                    boundaries_view(out@) == before + shifted(line, cell as int).take(i as int),
                    boundaries_fit_text(out@, size),
                decreases m - i,
            {
                let (index, offset) = lines[k].boundaries[i];
                assert(line.boundaries[i as int] == (index as int, offset as int));
                let ghost so_far = boundaries_view(out@);
                let ghost all = shifted(line, cell as int);
                out.push((lines[k].start + index, cell + offset));
                assert(boundaries_view(out@) =~= so_far.push(all[i as int]));
                assert(all.take(i + 1) =~= all.take(i as int).push(all[i as int]));
                i = i + 1;
                assert(boundaries_view(out@) =~= before + all.take(i as int));
            }
            assert(shifted(line, cell as int).take(m as int) =~= shifted(line, cell as int));
        } else {
            assert(before + Seq::<(int, int)>::empty() =~= before);
        }
        k = k + 1;
    }
    out
}

/// Lays the text out on the screen: its boundaries, as characters of the text and as cell
/// numbers, for every line whose place is known.
///
/// The line with the cursor is placed by the cursor. The lines below it follow from where each
/// line ends, the lines above it from the rows that they take. The first line stands behind the
/// prompt; where the cursor is in another line, `locate_first` is asked for it, with its text and
/// the cell in which the line below it begins. What is not found is left out.
pub fn input_layout(
    buffer: &str,
    measured: &[(usize, u8)],
    current_cursor: usize,
    cursor: (u16, u16),
    cols: u16,
    locate_first: impl FnOnce(&str, i64) -> Option<i64>,
) -> (r: Option<Vec<(usize, i64)>>)
    requires
        measures(buffer@, measured@),
        buffer@.len() <= MAX_INPUT,
        is_locator(
            locate_first,
            first_line_query(buffer@, measured@, current_cursor as int, cursor, cols as int),
        ),
    ensures
        exists|located: Option<int>| #[trigger]
            may_locate(
                locate_first,
                first_line_query(
                    buffer@,
                    measured@,
                    current_cursor as int,
                    cursor,
                    cols as int,
                ),
                located,
            ) && match r {
                Some(b) => input_boundaries(
                    buffer@,
                    measured@,
                    current_cursor as int,
                    cursor,
                    cols as int,
                    located,
                ) == Some(boundaries_view(b@)),
                None => input_boundaries(
                    buffer@,
                    measured@,
                    current_cursor as int,
                    cursor,
                    cols as int,
                    located,
                ) is None,
            },
        r matches Some(b) ==> boundaries_fit_text(b@, buffer@.len() as int) && cols > 0,
{
    let chars = text::chars_of(buffer);
    let ghost query = first_line_query(
        buffer@,
        measured@,
        current_cursor as int,
        cursor,
        cols as int,
    );
    let a = match anchor(&chars, measured, current_cursor, cursor, cols) {
        Some(a) => a,
        None => {
            assert(may_locate(locate_first, query, None));
            return None;
        },
    };
    let size: usize = chars.len();
    let ghost models = lines_view(a.lines@);
    let ghost anchor_cell = a.cell as int;
    let mut cells = line_cells(&a, cols, Ghost(size as int));
    let ghost mut located: Option<int> = None;
    if a.line > 0 {
        assert(models[0] == line_view(a.lines@[0]));
        let ghost cells0 = cells@;
        assert(cells@[1] is Some);
        assert(cell_view(cells@[1]) == line_cell(
            models,
            a.line as int,
            anchor_cell,
            cols as int,
            None,
            1,
        ));
        if let Some(row_end) = cells[1] {
            let first = text::string_of(&a.lines[0].text);
            let line: &str = first.as_str();
            assert(row_end == cell_above(models, a.line as int, anchor_cell, cols as int, 1));
            assert(query == Some((line@, row_end as int)));
            let found = locate_first(line, row_end);
            proof {
                located = cell_view(found);
                assert(locate_first.ensures((line, row_end), found));
                assert(may_locate(locate_first, query, located));
            }
            cells.set(0, found);
        }
    } else {
        assert(may_locate(locate_first, query, located));
    }
    assert(far() <= MAX_CELL);
    let out = place_lines(
        &a.lines,
        &cells,
        Ghost(size as int),
        Ghost(a.line as int),
        Ghost(anchor_cell),
        Ghost(cols as int),
        Ghost(located),
    );
    assert(may_locate(locate_first, query, located));
    Some(out)
}

/// The last boundary at or before a cell.
pub open spec fn last_upto(b: Seq<(int, int)>, cell: int) -> Option<(int, int)>
    decreases b.len(),
{
    if b.len() == 0 {
        None
    } else if b.last().1 <= cell {
        Some(b.last())
    } else {
        last_upto(b.drop_last(), cell)
    }
}

/// The first boundary at or behind a cell.
pub open spec fn first_from(b: Seq<(int, int)>, cell: int) -> Option<(int, int)>
    decreases b.len(),
{
    if b.len() == 0 {
        None
    } else if b[0].1 >= cell {
        Some(b[0])
    } else {
        first_from(b.skip(1), cell)
    }
}

/// The number of a cell.
pub open spec fn cell_number(point: GridPoint, cols: int) -> int {
    point.row * cols + point.col
}

/// The characters, and the cells, that a selection takes of a text with these boundaries. It has
/// to begin in the text; what it holds behind the end of the text does not count. Elements are
/// taken whole.
pub open spec fn selected_range(b: Seq<(int, int)>, selection: GridSelection, cols: int) -> Option<
    ((int, int), (int, int)),
> {
    if b.len() == 0 {
        None
    } else {
        let start = cell_number(selection.first(), cols);
        let behind = cell_number(selection.last(), cols) + 1;
        let end = if behind <= b.last().1 {
            behind
        } else {
            b.last().1
        };
        if start < b[0].1 || start >= end {
            None
        } else {
            match (last_upto(b, start), first_from(b, end)) {
                (Some(from), Some(to)) => if from.0 < to.0 {
                    Some(((from.0, to.0), (from.1, to.1)))
                } else {
                    None
                },
                _ => None,
            }
        }
    }
}

pub open spec fn range_view(r: Option<(Range<usize>, Range<i64>)>) -> Option<
    ((int, int), (int, int)),
> {
    match r {
        Some((chars, cells)) => Some(
            (
                (chars.start as int, chars.end as int),
                (cells.start as int, cells.end as int),
            ),
        ),
        None => None,
    }
}

fn number_of(point: GridPoint, cols: u16) -> (r: i64)
    ensures
        r == cell_number(point, cols as int),
        0 <= r <= 0xffff * 0xffff + 0xffff,
{
    assert(0 <= point.row * cols <= 0xffff * 0xffff) by (nonlinear_arith)
        requires
            point.row <= 0xffff,
            cols <= 0xffff,
    ;
    point.row as i64 * cols as i64 + point.col as i64
}

/// The characters, and the cells, that a selection takes of laid-out text.
pub fn range_in_layout(boundaries: &[(usize, i64)], selection: GridSelection, cols: u16) -> (r:
    Option<(Range<usize>, Range<i64>)>)
    ensures
        range_view(r) == selected_range(boundaries_view(boundaries@), selection, cols as int),
        r matches Some((chars, cells)) ==> {
            &&& chars.start < chars.end
            &&& exists|i: int|
                0 <= i < boundaries@.len() && #[trigger] boundaries@[i] == (chars.start, cells.start)
            &&& exists|i: int|
                0 <= i < boundaries@.len() && #[trigger] boundaries@[i] == (chars.end, cells.end)
        },
{
    let ghost b = boundaries_view(boundaries@);
    let n: usize = boundaries.len();
    if n == 0 {
        return None;
    }
    assert(b[0] == (boundaries@[0].0 as int, boundaries@[0].1 as int));
    assert(b.last() == (boundaries@[n - 1].0 as int, boundaries@[n - 1].1 as int));
    let (first, last) = selection.ordered();
    let start: i64 = number_of(first, cols);
    let behind: i64 = number_of(last, cols) + 1;
    let text_end: i64 = boundaries[n - 1].1;
    let end: i64 = if behind <= text_end {
        behind
    } else {
        text_end
    };
    if start < boundaries[0].1 || start >= end {
        return None;
    }
    let mut k: usize = n;
    assert(b.take(n as int) =~= b);
    while k > 0 && boundaries[k - 1].1 > start
        invariant
            k <= n,
            n == boundaries@.len(),
            b == boundaries_view(boundaries@),
            last_upto(b, start as int) == last_upto(b.take(k as int), start as int),
        decreases k,
    {
        assert(b.take(k as int).last() == b[k - 1]);
        assert(b.take(k as int).drop_last() =~= b.take(k - 1));
        k = k - 1;
    }
    if k == 0 {
        return None;
    }
    assert(b.take(k as int).last() == b[k - 1]);
    let mut j: usize = 0;
    assert(b.skip(0) =~= b);
    while j < n && boundaries[j].1 < end
        invariant
            j <= n,
            n == boundaries@.len(),
            b == boundaries_view(boundaries@),
            first_from(b, end as int) == first_from(b.skip(j as int), end as int),
        decreases n - j,
    {
        assert(b.skip(j as int)[0] == b[j as int]);
        assert(b.skip(j as int).skip(1) =~= b.skip(j + 1));
        j = j + 1;
    }
    if j == n {
        return None;
    }
    assert(b.skip(j as int)[0] == b[j as int]);
    let from = boundaries[k - 1];
    let to = boundaries[j];
    if from.0 < to.0 {
        assert(boundaries@[k - 1] == (from.0, from.1));
        assert(boundaries@[j as int] == (to.0, to.1));
        Some((from.0..to.0, from.1..to.1))
    } else {
        None
    }
}

/// The characters of the text, and the cells, that a selection takes.
pub fn input_selection_char_range(
    buffer: &str,
    measured: &[(usize, u8)],
    current_cursor: usize,
    cursor: (u16, u16),
    cols: u16,
    selection: GridSelection,
    locate_first: impl FnOnce(&str, i64) -> Option<i64>,
) -> (r: Option<(Range<usize>, Range<i64>)>)
    requires
        measures(buffer@, measured@),
        buffer@.len() <= MAX_INPUT,
        is_locator(
            locate_first,
            first_line_query(buffer@, measured@, current_cursor as int, cursor, cols as int),
        ),
    ensures
        exists|located: Option<int>| #[trigger]
            may_locate(
                locate_first,
                first_line_query(
                    buffer@,
                    measured@,
                    current_cursor as int,
                    cursor,
                    cols as int,
                ),
                located,
            ) && range_view(r) == (match input_boundaries(
                buffer@,
                measured@,
                current_cursor as int,
                cursor,
                cols as int,
                located,
            ) {
                Some(b) => selected_range(b, selection, cols as int),
                None => None,
            }),
        r matches Some((chars, cells)) ==> chars.start < chars.end <= buffer@.len() && -2 * MAX_CELL
            <= cells.end && cols > 0,
{
    match input_layout(buffer, measured, current_cursor, cursor, cols, locate_first) {
        Some(boundaries) => range_in_layout(&boundaries, selection, cols),
        None => None,
    }
}

/// Whether a boundary belongs to a row: it lies in the row, or at the very start of the next one
/// where the text only wraps.
pub open spec fn in_row(chars: Seq<char>, cols: int, row: int, boundary: (int, int)) -> bool {
    ||| boundary.1 / cols == row
    ||| boundary.1 == (row + 1) * cols && boundary.0 > 0 && chars[boundary.0 - 1] != '\n'
}

/// Twice the distance of a boundary from the middle of a cell.
pub open spec fn distance(cols: int, click: GridPoint, boundary: (int, int)) -> int {
    let d = boundary.1 * 2 - (cell_number(click, cols) * 2 + 1);
    if d < 0 {
        -d
    } else {
        d
    }
}

/// The first of the boundaries in the row of the click that are nearest to its cell, among the
/// first `n`.
pub open spec fn nearest(
    b: Seq<(int, int)>,
    chars: Seq<char>,
    cols: int,
    click: GridPoint,
    n: int,
) -> Option<(int, int)>
    decreases n,
{
    if n <= 0 {
        None
    } else {
        let before = nearest(b, chars, cols, click, n - 1);
        let here = b[n - 1];
        if in_row(chars, cols, click.row as int, here) && (before is None || distance(
            cols,
            click,
            here,
        ) < distance(cols, click, before->0)) {
            Some(here)
        } else {
            before
        }
    }
}

/// The character before which the cursor goes when a cell is clicked: the nearest boundary in the
/// row of the click.
pub fn index_in_layout(boundaries: &[(usize, i64)], chars: &[char], cols: u16, click: GridPoint) -> (r:
    Option<usize>)
    requires
        cols > 0,
        boundaries_fit_text(boundaries@, chars@.len() as int),
    ensures
        match r {
            Some(index) => match nearest(
                boundaries_view(boundaries@),
                chars@,
                cols as int,
                click,
                boundaries@.len() as int,
            ) {
                Some(found) => found.0 == index,
                None => false,
            },
            None => nearest(
                boundaries_view(boundaries@),
                chars@,
                cols as int,
                click,
                boundaries@.len() as int,
            ) is None,
        },
        r matches Some(index) ==> index <= chars@.len(),
{
    let ghost b = boundaries_view(boundaries@);
    let ghost c = cols as int;
    let width: i64 = cols as i64;
    let row: i64 = click.row as i64;
    let center: i64 = number_of(click, cols) * 2 + 1;
    assert(0 <= (row + 1) * width <= 0x10000 * 0xffff) by (nonlinear_arith)
        requires
            0 <= row <= 0xffff,
            0 < width <= 0xffff,
    ;
    let next_row: i64 = (row + 1) * width;
    let n: usize = boundaries.len();
    let mut best: Option<usize> = None;
    let mut best_distance: i64 = 0;
    let mut k: usize = 0;
    while k < n
        invariant
            k <= n,
            n == boundaries@.len(),
            b == boundaries_view(boundaries@),
            c == cols,
            width == cols,
            0 < cols,
            row == click.row,
            center == cell_number(click, c) * 2 + 1,
            0 < center <= 2 * (0xffff * 0xffff + 0xffff) + 1,
            next_row == (row + 1) * c,
            boundaries_fit_text(boundaries@, chars@.len() as int),
            match best {
                Some(index) => {
                    &&& nearest(b, chars@, c, click, k as int) is Some
                    &&& (nearest(b, chars@, c, click, k as int)->0).0 == index
                    &&& distance(c, click, nearest(b, chars@, c, click, k as int)->0)
                        == best_distance
                    &&& index <= chars@.len()
                },
                None => nearest(b, chars@, c, click, k as int) is None,
            },
        decreases n - k,
    {
        let (index, cell) = boundaries[k];
        assert(boundaries@[k as int] == (index, cell));
        assert(b[k as int] == (index as int, cell as int));
        let here = row_of(cell, cols) == row || (cell == next_row && index > 0 && chars[index - 1]
            != '\n');
        assert(here == in_row(chars@, c, row as int, b[k as int]));
        if here {
            let d: i64 = cell * 2 - center;
            let d: i64 = if d < 0 {
                0 - d
            } else {
                d
            };
            if best.is_none() || d < best_distance {
                best = Some(index);
                best_distance = d;
            }
        }
        k = k + 1;
    }
    best
}

/// The row of a cell number.
fn row_of(cell: i64, cols: u16) -> (r: i64)
    requires
        cols > 0,
        -2 * MAX_CELL <= cell,
    ensures
        r == cell as int / (cols as int),
{
    let width: i64 = cols as i64;
    if cell >= 0 {
        cell / width
    } else {
        let up: i64 = (0 - cell - 1) / width;
        proof {
            let x = -cell - 1;
            let q = x / (width as int);
            assert(x - width < q * width <= x) by (nonlinear_arith)
                requires
                    q == x / (width as int),
                    x >= 0,
                    width > 0,
            ;
            assert(cell as int / (width as int) == -q - 1) by (nonlinear_arith)
                requires
                    x == -cell - 1,
                    x - width < q * width <= x,
                    width > 0,
            ;
            assert(0 <= q <= x) by (nonlinear_arith)
                requires
                    q == x / (width as int),
                    x >= 0,
                    width > 0,
            ;
        }
        0 - up - 1
    }
}

/// The character before which the cursor goes when a cell is clicked.
pub fn click_cursor_index(
    buffer: &str,
    measured: &[(usize, u8)],
    current_index: usize,
    cursor: (u16, u16),
    click: GridPoint,
    cols: u16,
    locate_first: impl FnOnce(&str, i64) -> Option<i64>,
) -> (r: Option<usize>)
    requires
        measures(buffer@, measured@),
        buffer@.len() <= MAX_INPUT,
        is_locator(
            locate_first,
            first_line_query(buffer@, measured@, current_index as int, cursor, cols as int),
        ),
    ensures
        buffer@.len() == 0 ==> r is None,
        buffer@.len() > 0 ==> exists|located: Option<int>| #[trigger]
            may_locate(
                locate_first,
                first_line_query(
                    buffer@,
                    measured@,
                    current_index as int,
                    cursor,
                    cols as int,
                ),
                located,
            ) && clicked_index(
                buffer@,
                measured@,
                current_index as int,
                cursor,
                click,
                cols as int,
                located,
            ) == (match r {
                Some(index) => Some(index as int),
                None => None,
            }),
        r matches Some(index) ==> index <= buffer@.len(),
{
    if buffer.is_empty() {
        return None;
    }
    let chars = text::chars_of(buffer);
    match input_layout(buffer, measured, current_index, cursor, cols, locate_first) {
        Some(boundaries) => index_in_layout(&boundaries, &chars, cols, click),
        None => None,
    }
}

/// The character before which the cursor goes when a cell is clicked, where the first line was
/// found in the cell `located`.
pub open spec fn clicked_index(
    buffer: Seq<char>,
    measured: Seq<(usize, u8)>,
    current_index: int,
    cursor: (u16, u16),
    click: GridPoint,
    cols: int,
    located: Option<int>,
) -> Option<int> {
    match input_boundaries(buffer, measured, current_index, cursor, cols, located) {
        Some(b) => match nearest(b, buffer, cols, click, b.len() as int) {
            Some(found) => Some(found.0),
            None => None,
        },
        None => None,
    }
}

/// The text in a cell of the screen.
pub open spec fn shown_in(screen: &TermScreen, cell: int) -> Option<Seq<char>> {
    if cell < 0 {
        None
    } else {
        match screen.cell_at((cell / (screen.cols as int)) % 65536, cell % (screen.cols as int)) {
            Some(c) => Some(c.contents),
            None => None,
        }
    }
}

/// Whether a line with these boundaries is shown from the cell on: each element in its cell, and
/// nothing in the cell behind the last one.
pub open spec fn shown_from(
    screen: &TermScreen,
    line: Seq<char>,
    boundaries: Seq<(int, int)>,
    cell: int,
) -> bool {
    &&& forall|i: int|
        0 <= i < boundaries.len() - 1 ==> shown_in(screen, cell + (#[trigger] boundaries[i]).1)
            == Some(line.subrange(boundaries[i].0, boundaries[i + 1].0))
    &&& match shown_in(screen, cell + boundaries.last().1) {
        Some(behind) => text::blank(behind),
        None => true,
    }
}

/// The first cell from `from` up to, not including, `to` from which the line is shown.
pub open spec fn first_shown(
    screen: &TermScreen,
    line: Seq<char>,
    boundaries: Seq<(int, int)>,
    from: int,
    to: int,
) -> Option<int>
    decreases to - from,
{
    if from >= to {
        None
    } else if shown_from(screen, line, boundaries, from) {
        Some(from)
    } else {
        first_shown(screen, line, boundaries, from + 1, to)
    }
}

/// The cell in which a line begins that ends in the row before the cell `row_end`.
pub open spec fn located_at(
    screen: &TermScreen,
    line: Seq<char>,
    measured: Seq<(usize, u8)>,
    row_end: int,
) -> Option<int> {
    match line_boundaries(measured, 0, line.len() as int) {
        Some(b) => if b.last().1 == 0 {
            None
        } else {
            first_shown(
                screen,
                line,
                b,
                row_end - screen.cols - b.last().1,
                row_end - b.last().1,
            )
        },
        None => None,
    }
}

/// The table begins with the entries of the line, and no element reaches past it.
pub open spec fn measures_line(line: Seq<char>, measured: Seq<(usize, u8)>) -> bool {
    &&& line.len() <= measured.len()
    &&& forall|i: int| 0 <= i < line.len() ==> i + #[trigger] measured[i].0 <= line.len()
}

fn cell_shows(screen: &TermScreen, cell: i64, expected: &[char]) -> (r: bool)
    requires
        screen.wf(),
        screen.cols > 0,
    ensures
        r == (shown_in(screen, cell as int) == Some(expected@)),
{
    if cell < 0 {
        return false;
    }
    let cols: i64 = screen.cols as i64;
    proof {
        cell_parts(cell as int, cols as int);
    }
    let row: u16 = ((cell / cols) % 65536) as u16;
    let col: u16 = (cell % cols) as u16;
    match screen.cell_text(row, col) {
        Some(s) => text::is_text(expected, s),
        None => false,
    }
}

fn cell_is_free(screen: &TermScreen, cell: i64) -> (r: bool)
    requires
        screen.wf(),
        screen.cols > 0,
    ensures
        r == (match shown_in(screen, cell as int) {
            Some(behind) => text::blank(behind),
            None => true,
        }),
{
    if cell < 0 {
        return true;
    }
    let cols: i64 = screen.cols as i64;
    proof {
        cell_parts(cell as int, cols as int);
    }
    let row: u16 = ((cell / cols) % 65536) as u16;
    let col: u16 = (cell % cols) as u16;
    match screen.cell_text(row, col) {
        Some(s) => text::is_blank(s),
        None => true,
    }
}

proof fn cell_parts(cell: int, cols: int)
    requires
        cell >= 0,
        0 < cols <= 0xffff,
    ensures
        0 <= cell / cols,
        0 <= cell % cols < cols,
{
    assert(0 <= cell / cols) by (nonlinear_arith)
        requires
            cell >= 0,
            cols > 0,
    ;
    assert(0 <= cell % cols < cols) by (nonlinear_arith)
        requires
            cell >= 0,
            cols > 0,
    ;
}

/// Looks for the first line of the text on the screen: it ends in the row before the cell
/// `row_end`. All cells are tried in turn. The cell behind the line has to be free, so that the
/// same text in a prompt is not taken for it.
pub fn locate_first_input_line(
    screen: &TermScreen,
    line: &str,
    measured: &[(usize, u8)],
    row_end: i64,
) -> (r: Option<i64>)
    requires
        screen.wf(),
        line@.len() <= MAX_INPUT,
        measures_line(line@, measured@),
        -0x7ff_ffff_ffff_ffff <= row_end <= 0x7ff_ffff_ffff_ffff,
    ensures
        cell_view(r) == located_at(screen, line@, measured@, row_end as int),
        r matches Some(v) ==> -MAX_CELL <= v <= MAX_CELL,
{
    let chars = text::chars_of(line);
    let ghost m = measured@;
    assert forall|i: int| 0 <= i < chars@.len() implies i + #[trigger] m[0 + i].0 <= chars@.len() by {
        assert(m[i] == m[0 + i]);
    }
    let boundaries = match grapheme_boundaries(measured, 0, chars.len()) {
        Some(b) => b,
        None => return None,
    };
    let ghost b = boundaries_view(boundaries@);
    proof {
        element_ends_fit(m, 0, line@.len() as int, 0, 0);
        let ends = element_ends(m, 0, line@.len() as int, 0, 0)->0;
        assert(b == seq![(0int, 0int)] + ends);
        if ends.len() > 0 {
            assert(b.last() == ends.last());
        }
        assert forall|i: int, j: int| 0 <= i < j < b.len() implies 0 <= (#[trigger] b[i]).0 <= (
        #[trigger] b[j]).0 <= line@.len() && 0 <= b[i].1 <= b[j].1 <= 255 * line@.len() by {
            assert(b[j] == ends[j - 1]);
            if i > 0 {
                assert(b[i] == ends[i - 1]);
            }
        }
    }
    let width: i64 = width_cells(&boundaries);
    assert(width == b.last().1);
    assert(b.last() == b[b.len() - 1]);
    assert(0 <= width <= 255 * line@.len()) by {
        if b.len() > 1 {
            assert(b[0].1 <= b[b.len() - 1].1);
        }
    }
    if width == 0 || screen.cols == 0 {
        return None;
    }
    let cols: i64 = screen.cols as i64;
    let from: i64 = row_end - cols - width;
    let to: i64 = row_end - width;
    let n: usize = boundaries.len();
    let mut start: i64 = from;
    while start < to
        invariant
            from <= start <= to,
            from == row_end - cols - width,
            to == row_end - width,
            width != 0,
            line_boundaries(measured@, 0, line@.len() as int) == Some(b),
            0 < cols == screen.cols,
            -MAX_CELL <= from,
            to <= MAX_CELL,
            screen.wf(),
            chars@ == line@,
            line@.len() <= MAX_INPUT,
            n == boundaries@.len(),
            n > 0,
            b == boundaries_view(boundaries@),
            width == b.last().1,
            0 <= width <= 255 * line@.len(),
            forall|i: int, j: int|
                0 <= i < j < b.len() ==> 0 <= (#[trigger] b[i]).0 <= (#[trigger] b[j]).0
                    <= line@.len() && 0 <= b[i].1 <= b[j].1 <= 255 * line@.len(),
            first_shown(screen, line@, b, from as int, to as int) == first_shown(
                screen,
                line@,
                b,
                start as int,
                to as int,
            ),
        decreases to - start,
    {
        let mut matched: bool = true;
        let mut i: usize = 0;
        while i < n - 1 && matched
            invariant
                i <= n - 1,
                n == boundaries@.len(),
                n > 0,
                -MAX_CELL <= start <= MAX_CELL,
                screen.wf(),
                screen.cols > 0,
                chars@ == line@,
                line@.len() <= MAX_INPUT,
                b == boundaries_view(boundaries@),
                forall|i: int, j: int|
                    0 <= i < j < b.len() ==> 0 <= (#[trigger] b[i]).0 <= (#[trigger] b[j]).0
                        <= line@.len() && 0 <= b[i].1 <= b[j].1 <= 255 * line@.len(),
                matched ==> forall|k: int|
                    0 <= k < i ==> shown_in(screen, start + (#[trigger] b[k]).1) == Some(
                        line@.subrange(b[k].0, b[k + 1].0),
                    ),
                !matched ==> !shown_from(screen, line@, b, start as int),
            decreases n - i,
        {
            let (at, offset) = boundaries[i];
            let (until, _) = boundaries[i + 1];
            assert(b[i as int] == (at as int, offset as int));
            assert(b[i + 1].0 == until);
            let element = text::part(&chars, at, until);
            matched = cell_shows(screen, start + offset, &element);
            i = i + 1;
        }
        if matched && cell_is_free(screen, start + width) {
            assert(shown_from(screen, line@, b, start as int));
            return Some(start);
        }
        start = start + 1;
    }
    None
}

/// The question for the first line is about a line that the table measures, and about a cell that
/// can be counted from.
pub proof fn query_fits(
    buffer: Seq<char>,
    measured: Seq<(usize, u8)>,
    cursor_index: int,
    cursor: (u16, u16),
    cols: int,
)
    requires
        measures(buffer, measured),
        buffer.len() <= MAX_INPUT,
        0 <= cols <= 0xffff,
        cursor_index >= 0,
    ensures
        match first_line_query(buffer, measured, cursor_index, cursor, cols) {
            Some((line, row_end)) => {
                &&& line.len() <= MAX_INPUT
                &&& measures_line(line, measured)
                &&& -0x7ff_ffff_ffff_ffff <= row_end <= 0x7ff_ffff_ffff_ffff
            },
            None => true,
        },
{
    match anchored(buffer, measured, cursor_index, cursor, cols) {
        Some((c, anchor)) => if c > 0 {
            let lines = line_models(buffer, measured);
            let fields = text::fields(buffer, '\n');
            let size = buffer.len() as int;
            models_fit(buffer, measured);
            offset_is_a_boundary(lines[c].boundaries, cursor_index - lines[c].start);
            assert(0 <= cursor.0 * cols <= 0xffff * 0xffff) by (nonlinear_arith)
                requires
                    0 <= cols <= 0xffff,
                    cursor.0 <= 0xffff,
            ;
            cell_above_bounds(lines, size, c, anchor, cols, 1);
            assert(lines[c].start + lines[c].text.len() <= size);
            assert(lines[1].start >= 0);
            lines_in_place(buffer, 0);
            elements_fit_line(buffer, measured, 0);
            assert(line_start(fields, 0) == 0);
            assert forall|i: int| 0 <= i < fields[0].len() implies i + #[trigger] measured[i].0
                <= fields[0].len() by {
                assert(measured[line_start(fields, 0) + i] == measured[i]);
            }
        },
        None => {},
    }
}

proof fn offset_is_a_boundary(b: Seq<(int, int)>, index: int)
    ensures
        offset_at(b, index) is Some ==> exists|i: int|
            0 <= i < b.len() && #[trigger] b[i] == (index, offset_at(b, index)->0),
    decreases b.len(),
{
    if b.len() > 0 && b[0].0 != index {
        offset_is_a_boundary(b.skip(1), index);
        if offset_at(b, index) is Some {
            let i = choose|i: int|
                0 <= i < b.skip(1).len() && #[trigger] b.skip(1)[i] == (
                    index,
                    offset_at(b, index)->0,
                );
            assert(b[i + 1] == (index, offset_at(b, index)->0));
        }
    } else if b.len() > 0 {
        assert(b[0] == (index, b[0].1));
    }
}

/// The cursor stands where it is shown: the boundary before the character of the cursor lies in
/// the cursor's cell.
pub proof fn cursor_is_in_place(
    buffer: Seq<char>,
    measured: Seq<(usize, u8)>,
    cursor_index: int,
    cursor: (u16, u16),
    cols: int,
    located: Option<int>,
)
    requires
        measures(buffer, measured),
    ensures
        match input_boundaries(buffer, measured, cursor_index, cursor, cols, located) {
            Some(b) => b.contains((cursor_index, cursor.0 * cols + cursor.1)),
            None => true,
        },
{
    match anchored(buffer, measured, cursor_index, cursor, cols) {
        Some((c, anchor)) => {
            let lines = line_models(buffer, measured);
            cursor_line_is_first(lines, cursor_index);
            let line = lines[c];
            offset_is_a_boundary(line.boundaries, cursor_index - line.start);
            let offset = offset_at(line.boundaries, cursor_index - line.start)->0;
            let i = choose|i: int|
                0 <= i < line.boundaries.len() && #[trigger] line.boundaries[i] == (
                    cursor_index - line.start,
                    offset,
                );
            assert(cell_below(lines, c, anchor, cols, c) == anchor);
            assert(line_cell(lines, c, anchor, cols, located, c) == Some(anchor));
            assert(shifted(line, anchor)[i] == (cursor_index, anchor + offset));
            placed_holds(lines, c, anchor, cols, located, lines.len() as int, c, i);
        },
        None => {},
    }
}

proof fn placed_holds(
    lines: Seq<LineModel>,
    c: int,
    anchor: int,
    cols: int,
    located: Option<int>,
    n: int,
    k: int,
    i: int,
)
    requires
        0 <= k < n,
        line_cell(lines, c, anchor, cols, located, k) is Some,
        0 <= i < lines[k].boundaries.len(),
    ensures
        placed(lines, c, anchor, cols, located, n).contains(
            shifted(lines[k], line_cell(lines, c, anchor, cols, located, k)->0)[i],
        ),
    decreases n,
{
    let x = shifted(lines[k], line_cell(lines, c, anchor, cols, located, k)->0)[i];
    let before = placed(lines, c, anchor, cols, located, n - 1);
    let all = placed(lines, c, anchor, cols, located, n);
    if k == n - 1 {
        assert(all[before.len() + i] == x);
    } else {
        placed_holds(lines, c, anchor, cols, located, n - 1, k, i);
        let j = choose|j: int| 0 <= j < before.len() && before[j] == x;
        assert(all[j] == x);
    }
}

/// The cell with a number; a row or column that is too large loses its high bits.
pub open spec fn point_of(cell: int, cols: int) -> GridPoint {
    let row = quotient(cell, cols);
    GridPoint { row: (row % 65536) as u16, col: ((cell - row * cols) % 65536) as u16 }
}

/// The cell with a number.
pub fn cell_point(cell: i64, cols: u16) -> (r: GridPoint)
    requires
        cols > 0,
    ensures
        r == point_of(cell as int, cols as int),
{
    let width: i128 = cols as i128;
    let wide: i128 = cell as i128;
    let row: i128 = if wide >= 0 {
        wide / width
    } else {
        0 - (0 - wide) / width
    };
    proof {
        quotient_bounds(cell as int, cols as int);
        small_quotient(cell as int, cols as int);
    }
    let col: i128 = wide - row * width;
    GridPoint { row: low_bits(row), col: low_bits(col) }
}

fn low_bits(v: i128) -> (r: u16)
    requires
        i64::MIN <= v <= -(i64::MIN as int),
    ensures
        r == v as int % 65536,
{
    let offset: i128 = 65536 * 0x1_0000_0000_0000;
    ((v + offset) % 65536) as u16
}

/// The text without its white space.
pub open spec fn without_spaces(s: Seq<char>) -> Seq<char>
    decreases s.len(),
{
    if s.len() == 0 {
        s
    } else if text::is_space(s.last()) {
        without_spaces(s.drop_last())
    } else {
        without_spaces(s.drop_last()).push(s.last())
    }
}

/// The text without its white space.
pub fn strip_whitespace(value: &str) -> (r: String)
    ensures
        r@ == without_spaces(value@),
{
    let chars = text::chars_of(value);
    let mut out: Vec<char> = Vec::new();
    let mut i: usize = 0;
    assert(chars@.take(0) =~= Seq::empty());
    while i < chars.len()
        invariant
            i <= chars@.len(),
            chars@ == value@,
            out@ == without_spaces(chars@.take(i as int)),
        decreases chars@.len() - i,
    {
        let ghost next = chars@.take(i + 1);
        assert(next.drop_last() =~= chars@.take(i as int));
        assert(next.last() == chars@[i as int]);
        if !text::is_whitespace(chars[i]) {
            out.push(chars[i]);
        }
        i = i + 1;
    }
    assert(chars@.take(i as int) =~= chars@);
    text::string_of(&out)
}

/// The line that a shell is editing, as the shell reports it, with the table of its elements.
#[derive(Debug)]
pub struct InputState {
    pub buffer: String,
    pub cursor: usize,
    pub measured: Vec<(usize, u8)>,
}

impl InputState {
    /// The table fits the text, and the text can be laid out.
    pub open spec fn wf(&self) -> bool {
        &&& measures(self.buffer@, self.measured@)
        &&& self.buffer@.len() <= MAX_INPUT
    }

    /// The boundaries of the text on the screen.
    pub open spec fn boundaries_on(&self, screen: &TermScreen) -> Option<Seq<(int, int)>> {
        let cols = screen.cols as int;
        let located = match first_line_query(
            self.buffer@,
            self.measured@,
            self.cursor as int,
            screen.cursor,
            cols,
        ) {
            Some((line, row_end)) => located_at(screen, line, self.measured@, row_end),
            None => None,
        };
        input_boundaries(
            self.buffer@,
            self.measured@,
            self.cursor as int,
            screen.cursor,
            cols,
            located,
        )
    }

    /// The characters of the text, and the cells, that a selection takes.
    pub fn selected_range(&self, screen: &TermScreen, selection: GridSelection) -> (r: Option<
        (Range<usize>, Range<i64>),
    >)
        requires
            self.wf(),
            screen.wf(),
        ensures
            range_view(r) == (match self.boundaries_on(screen) {
                Some(b) => selected_range(b, selection, screen.cols as int),
                None => None,
            }),
            r matches Some((chars, cells)) ==> chars.start < chars.end <= self.buffer@.len()
                && -2 * MAX_CELL <= cells.end && screen.cols > 0,
    {
        let measured = self.measured.as_slice();
        proof {
            query_fits(
                self.buffer@,
                self.measured@,
                self.cursor as int,
                screen.cursor,
                screen.cols as int,
            );
        }
        let locate = |line: &str, row_end: i64| -> (x: Option<i64>)
            requires
                line@.len() <= MAX_INPUT,
                measures_line(line@, measured@),
                -0x7ff_ffff_ffff_ffff <= row_end <= 0x7ff_ffff_ffff_ffff,
            ensures
                cell_view(x) == located_at(screen, line@, measured@, row_end as int),
                x matches Some(v) ==> -MAX_CELL <= v <= MAX_CELL,
            { locate_first_input_line(screen, line, measured, row_end) };
        input_selection_char_range(
            self.buffer.as_str(),
            measured,
            self.cursor,
            screen.cursor_position(),
            screen.cols,
            selection,
            locate,
        )
    }

    /// The character before which the cursor goes when a cell is clicked.
    pub open spec fn index_at(&self, screen: &TermScreen, click: GridPoint) -> Option<int> {
        if self.buffer@.len() == 0 {
            None
        } else {
            match self.boundaries_on(screen) {
                Some(b) => match nearest(
                    b,
                    self.buffer@,
                    screen.cols as int,
                    click,
                    b.len() as int,
                ) {
                    Some(found) => Some(found.0),
                    None => None,
                },
                None => None,
            }
        }
    }

    /// The character before which the cursor goes when a cell is clicked.
    pub fn clicked(&self, screen: &TermScreen, click: GridPoint) -> (r: Option<usize>)
        requires
            self.wf(),
            screen.wf(),
        ensures
            self.index_at(screen, click) == (match r {
                Some(index) => Some(index as int),
                None => None,
            }),
            r matches Some(index) ==> index <= self.buffer@.len(),
    {
        let measured = self.measured.as_slice();
        proof {
            query_fits(
                self.buffer@,
                self.measured@,
                self.cursor as int,
                screen.cursor,
                screen.cols as int,
            );
        }
        let locate = |line: &str, row_end: i64| -> (x: Option<i64>)
            requires
                line@.len() <= MAX_INPUT,
                measures_line(line@, measured@),
                -0x7ff_ffff_ffff_ffff <= row_end <= 0x7ff_ffff_ffff_ffff,
            ensures
                cell_view(x) == located_at(screen, line@, measured@, row_end as int),
                x matches Some(v) ==> -MAX_CELL <= v <= MAX_CELL,
            { locate_first_input_line(screen, line, measured, row_end) };
        click_cursor_index(
            self.buffer.as_str(),
            measured,
            self.cursor,
            screen.cursor_position(),
            click,
            screen.cols,
            locate,
        )
    }

    /// What cutting a selection out of the text gives: the text that is left, the text cut out,
    /// and the position of the cursor. Only text that is on the screen as the shell reports it can
    /// be cut out.
    pub open spec fn cut(&self, screen: &TermScreen, selection: GridSelection) -> Option<
        (Seq<char>, Seq<char>, int),
    > {
        let buffer = self.buffer@;
        if screen.hide_cursor || buffer.len() == 0 || buffer.contains('\r') || buffer.contains(
            '\t',
        ) {
            None
        } else {
            match self.boundaries_on(screen) {
                Some(b) => match selected_range(b, selection, screen.cols as int) {
                    Some((chars, cells)) => {
                        let removed = buffer.subrange(chars.0, chars.1);
                        let shown = GridSelection {
                            anchor: point_of(cells.0, screen.cols as int),
                            end: point_of(cells.1 - 1, screen.cols as int),
                        };
                        if cells.0 >= 0 && without_spaces(
                            crate::term::joined(crate::term::selected_lines(screen, shown)),
                        ) == without_spaces(removed) {
                            Some((buffer.take(chars.0) + buffer.skip(chars.1), removed, chars.0))
                        } else {
                            None
                        }
                    },
                    None => None,
                },
                None => None,
            }
        }
    }

    /// What cutting a selection out of the text gives. Nothing can be cut while a command runs or
    /// the viewport is scrolled.
    pub fn input_selection_edit(
        &self,
        screen: &TermScreen,
        running: bool,
        scrollback: usize,
        selection: GridSelection,
    ) -> (r: Option<InputSelectionEdit>)
        requires
            self.wf(),
            screen.wf(),
        ensures
            match r {
                Some(edit) => !running && scrollback == 0 && self.cut(screen, selection) == Some(
                    (edit.replacement@, edit.removed@, edit.cursor as int),
                ),
                None => running || scrollback != 0 || self.cut(screen, selection) is None,
            },
            r matches Some(edit) ==> edit.cursor <= edit.replacement@.len(),
            r matches Some(edit) ==> edit.removed@.len() > 0 && edit.replacement@.take(
                edit.cursor as int,
            ) + edit.removed@ + edit.replacement@.skip(edit.cursor as int) == self.buffer@,
    {
        let chars = text::chars_of(self.buffer.as_str());
        if running || scrollback != 0 || screen.hide_cursor() || chars.len() == 0 || holds(
            &chars,
            '\r',
        ) || holds(&chars, '\t') {
            return None;
        }
        let (range, cells) = match self.selected_range(screen, selection) {
            Some(found) => found,
            None => return None,
        };
        if cells.start < 0 {
            return None;
        }
        let removed = text::part(&chars, range.start, range.end);
        let removed = text::string_of(&removed);
        let shown = screen.selected_text(
            GridSelection {
                anchor: cell_point(cells.start, screen.cols),
                end: cell_point(cells.end - 1, screen.cols),
            },
        );
        let a = strip_whitespace(shown.as_str());
        let b = strip_whitespace(removed.as_str());
        if a != b {
            return None;
        }
        let mut left = text::part(&chars, 0, range.start);
        let mut right = text::part(&chars, range.end, chars.len());
        let ghost head = left@;
        left.append(&mut right);
        assert(head =~= self.buffer@.take(range.start as int));
        assert(left@ =~= self.buffer@.take(range.start as int) + self.buffer@.skip(
            range.end as int,
        ));
        assert(left@.take(range.start as int) + removed@ + left@.skip(range.start as int)
            =~= self.buffer@);
        Some(
            InputSelectionEdit {
                replacement: text::string_of(&left),
                removed,
                cursor: range.start,
            },
        )
    }
}

/// A text with a selection cut out.
#[derive(Debug)]
pub struct InputSelectionEdit {
    pub replacement: String,
    pub removed: String,
    pub cursor: usize,
}

// What the layout and the edits are for.

/// Cutting is undone by putting back: the text that was cut out, put back at the cursor into the
/// text that is left, gives the text that the shell reported. Something is always cut out, and
/// without white space it is what the screen shows in the cells that are taken.
pub proof fn cutting_is_undone_by_putting_back(
    input: InputState,
    screen: &TermScreen,
    selection: GridSelection,
    replacement: Seq<char>,
    removed: Seq<char>,
    cursor: int,
)
    requires
        input.wf(),
        input.cut(screen, selection) == Some((replacement, removed, cursor)),
    ensures
        0 <= cursor <= replacement.len(),
        removed.len() > 0,
        replacement.take(cursor) + removed + replacement.skip(cursor) == input.buffer@,
        ({
            let (_, cells) = selected_range(
                input.boundaries_on(screen)->0,
                selection,
                screen.cols as int,
            )->0;
            let shown = GridSelection {
                anchor: point_of(cells.0, screen.cols as int),
                end: point_of(cells.1 - 1, screen.cols as int),
            };
            without_spaces(removed) == without_spaces(
                crate::term::joined(crate::term::selected_lines(screen, shown)),
            )
        }),
{
    let b = input.boundaries_on(screen)->0;
    let (chars, cells) = selected_range(b, selection, screen.cols as int)->0;
    boundaries_are_in_the_text(input, screen);
    selected_elements_are_taken(b, selection, screen.cols as int);
    let i = choose|i: int| 0 <= i < b.len() && #[trigger] b[i] == (chars.0, cells.0);
    let j = choose|j: int| 0 <= j < b.len() && #[trigger] b[j] == (chars.1, cells.1);
    assert(0 <= b[i].0 && b[j].0 <= input.buffer@.len());
    assert(replacement.take(cursor) + removed + replacement.skip(cursor) =~= input.buffer@);
}

/// The boundaries on a screen are positions in the text.
pub proof fn boundaries_are_in_the_text(input: InputState, screen: &TermScreen)
    requires
        input.wf(),
    ensures
        input.boundaries_on(screen) matches Some(b) ==> forall|i: int|
            0 <= i < b.len() ==> 0 <= (#[trigger] b[i]).0 <= input.buffer@.len(),
{
    let cols = screen.cols as int;
    let buffer = input.buffer@;
    let measured = input.measured@;
    match anchored(buffer, measured, input.cursor as int, screen.cursor, cols) {
        Some((c, anchor)) => {
            let lines = line_models(buffer, measured);
            models_fit(buffer, measured);
            let located = match first_line_query(
                buffer,
                measured,
                input.cursor as int,
                screen.cursor,
                cols,
            ) {
                Some((line, row_end)) => located_at(screen, line, measured, row_end),
                None => None,
            };
            placed_is_in_the_text(
                lines,
                c,
                anchor,
                cols,
                located,
                lines.len() as int,
                buffer.len() as int,
            );
        },
        None => {},
    }
}

proof fn placed_is_in_the_text(
    lines: Seq<LineModel>,
    c: int,
    anchor: int,
    cols: int,
    located: Option<int>,
    n: int,
    size: int,
)
    requires
        lines_fit(lines, size),
        n <= lines.len(),
    ensures
        forall|i: int|
            0 <= i < placed(lines, c, anchor, cols, located, n).len() ==> 0 <= (#[trigger] placed(
                lines,
                c,
                anchor,
                cols,
                located,
                n,
            )[i]).0 <= size,
    decreases n,
{
    if n > 0 {
        placed_is_in_the_text(lines, c, anchor, cols, located, n - 1, size);
        let before = placed(lines, c, anchor, cols, located, n - 1);
        let all = placed(lines, c, anchor, cols, located, n);
        let line = lines[n - 1];
        assert forall|i: int| 0 <= i < all.len() implies 0 <= (#[trigger] all[i]).0 <= size by {
            if i < before.len() {
                assert(all[i] == before[i]);
            } else {
                let k = i - before.len();
                let cell = line_cell(lines, c, anchor, cols, located, n - 1)->0;
                assert(all[i] == shifted(line, cell)[k]);
                assert(0 <= line.boundaries[k].0 <= line.text.len());
            }
        }
    }
}

/// A selection takes the elements that it touches, and no others: what is taken begins at the last
/// boundary that is not behind the first selected cell, and ends at the first boundary that is not
/// before the end of the selection or, where that comes first, the end of the text. Between
/// boundaries that grow, something is taken exactly where the selection begins in the text.
#[verifier::spinoff_prover]
pub proof fn selected_elements_are_taken(b: Seq<(int, int)>, selection: GridSelection, cols: int)
    ensures
        selected_range(b, selection, cols) matches Some((chars, cells)) ==> ({
            let start = selection.first().row * cols + selection.first().col;
            let behind = selection.last().row * cols + selection.last().col + 1;
            let end = if behind < b.last().1 {
                behind
            } else {
                b.last().1
            };
            &&& chars.0 < chars.1
            &&& b[0].1 <= start < b.last().1
            &&& cells.0 <= start < end <= cells.1
            &&& exists|i: int| 0 <= i < b.len() && #[trigger] b[i] == (chars.0, cells.0) && forall|
                k: int,
            |
                i < k < b.len() ==> (#[trigger] b[k]).1 > start
            &&& exists|j: int| 0 <= j < b.len() && #[trigger] b[j] == (chars.1, cells.1) && forall|
                k: int,
            |
                0 <= k < j ==> (#[trigger] b[k]).1 < end
        }),
        ({
            let start = selection.first().row * cols + selection.first().col;
            b.len() > 0 && b[0].1 <= start < b.last().1 && start <= selection.last().row * cols
                + selection.last().col && (forall|i: int, j: int|
                0 <= i < j < b.len() ==> (#[trigger] b[i]).0 < (#[trigger] b[j]).0 && b[i].1
                    <= b[j].1) ==> selected_range(b, selection, cols) is Some
        }),
{
    if b.len() > 0 {
        let start = cell_number(selection.first(), cols);
        let behind = cell_number(selection.last(), cols) + 1;
        let end = if behind <= b.last().1 {
            behind
        } else {
            b.last().1
        };
        last_upto_is_last(b, start);
        first_from_is_first(b, end);
        if b[0].1 <= start && start < end {
            assert(last_upto(b, start) is Some) by {
                if last_upto(b, start) is None {
                    assert(b[0].1 > start);
                }
            }
            assert(first_from(b, end) is Some) by {
                if first_from(b, end) is None {
                    assert(b[b.len() - 1].1 < end);
                }
            }
            let i = choose|i: int|
                0 <= i < b.len() && #[trigger] b[i] == last_upto(b, start)->0 && b[i].1 <= start
                    && forall|k: int| i < k < b.len() ==> (#[trigger] b[k]).1 > start;
            let j = choose|j: int|
                0 <= j < b.len() && #[trigger] b[j] == first_from(b, end)->0 && b[j].1 >= end
                    && forall|k: int| 0 <= k < j ==> (#[trigger] b[k]).1 < end;
            if forall|i: int, j: int|
                0 <= i < j < b.len() ==> (#[trigger] b[i]).0 < (#[trigger] b[j]).0 && b[i].1
                    <= b[j].1 {
                if j <= i {
                    assert(j == i || b[j].1 <= b[i].1);
                }
                assert(b[i].0 < b[j].0);
            }
        }
    }
}

proof fn last_upto_is_last(b: Seq<(int, int)>, cell: int)
    ensures
        match last_upto(b, cell) {
            Some(x) => exists|i: int|
                0 <= i < b.len() && #[trigger] b[i] == x && b[i].1 <= cell && forall|k: int|
                    i < k < b.len() ==> (#[trigger] b[k]).1 > cell,
            None => forall|k: int| 0 <= k < b.len() ==> (#[trigger] b[k]).1 > cell,
        },
    decreases b.len(),
{
    if b.len() > 0 {
        let n = b.len() - 1;
        if b.last().1 <= cell {
            assert(b[n] == last_upto(b, cell)->0);
        } else {
            let rest = b.drop_last();
            last_upto_is_last(rest, cell);
            assert forall|k: int| 0 <= k < n implies rest[k] == #[trigger] b[k] by {}
            if last_upto(rest, cell) is Some {
                let i = choose|i: int|
                    0 <= i < rest.len() && #[trigger] rest[i] == last_upto(rest, cell)->0 && rest[i].1
                        <= cell && forall|k: int|
                        i < k < rest.len() ==> (#[trigger] rest[k]).1 > cell;
                assert(b[i] == last_upto(b, cell)->0);
                assert forall|k: int| i < k < b.len() implies (#[trigger] b[k]).1 > cell by {
                    if k < n {
                        assert(rest[k].1 > cell);
                    }
                }
            } else {
                assert forall|k: int| 0 <= k < b.len() implies (#[trigger] b[k]).1 > cell by {
                    if k < n {
                        assert(rest[k].1 > cell);
                    }
                }
            }
        }
    }
}

proof fn first_from_is_first(b: Seq<(int, int)>, cell: int)
    ensures
        match first_from(b, cell) {
            Some(x) => exists|j: int|
                0 <= j < b.len() && #[trigger] b[j] == x && b[j].1 >= cell && forall|k: int|
                    0 <= k < j ==> (#[trigger] b[k]).1 < cell,
            None => forall|k: int| 0 <= k < b.len() ==> (#[trigger] b[k]).1 < cell,
        },
    decreases b.len(),
{
    if b.len() > 0 {
        if b[0].1 >= cell {
            assert(b[0] == first_from(b, cell)->0);
        } else {
            let rest = b.skip(1);
            first_from_is_first(rest, cell);
            if first_from(rest, cell) is Some {
                let j = choose|j: int|
                    0 <= j < rest.len() && #[trigger] rest[j] == first_from(rest, cell)->0
                        && rest[j].1 >= cell && forall|k: int|
                        0 <= k < j ==> (#[trigger] rest[k]).1 < cell;
                assert(b[j + 1] == first_from(b, cell)->0);
                assert forall|k: int| 0 <= k < j + 1 implies (#[trigger] b[k]).1 < cell by {
                    if k > 0 {
                        assert(rest[k - 1] == b[k]);
                    }
                }
            } else {
                assert forall|k: int| 0 <= k < b.len() implies (#[trigger] b[k]).1 < cell by {
                    if k > 0 {
                        assert(rest[k - 1] == b[k]);
                    }
                }
            }
        }
    }
}

/// A click puts the cursor at the boundary in the clicked row that is nearest to the middle of the
/// clicked cell. The start of the next row counts as the end of the clicked one where the text only
/// wraps there. Where the row has no boundary the click is not in the text.
pub proof fn clicks_go_to_the_nearest_boundary(
    b: Seq<(int, int)>,
    chars: Seq<char>,
    cols: int,
    click: GridPoint,
    n: int,
)
    requires
        0 < cols,
        0 <= n <= b.len(),
    ensures
        ({
            let middle = 2 * (click.row * cols + click.col) + 1;
            let begin = click.row * cols;
            let off = |x: (int, int)|
                if 2 * x.1 >= middle {
                    2 * x.1 - middle
                } else {
                    middle - 2 * x.1
                };
            let inside = |x: (int, int)|
                begin <= x.1 < begin + cols || x.1 == begin + cols && x.0 > 0 && chars[x.0 - 1]
                    != '\n';
            match nearest(b, chars, cols, click, n) {
                Some(found) => {
                    &&& exists|i: int| 0 <= i < n && #[trigger] b[i] == found
                    &&& inside(found)
                    &&& forall|k: int|
                        0 <= k < n && inside(#[trigger] b[k]) ==> off(found) <= off(b[k])
                },
                None => forall|k: int| 0 <= k < n ==> !inside(#[trigger] b[k]),
            }
        }),
    decreases n,
{
    if n > 0 {
        clicks_go_to_the_nearest_boundary(b, chars, cols, click, n - 1);
        let here = b[n - 1];
        let begin = click.row * cols;
        assert((click.row + 1) * cols == begin + cols) by (nonlinear_arith)
            requires
                begin == click.row * cols,
        ;
        assert(here.1 / cols == click.row <==> begin <= here.1 < begin + cols) by (nonlinear_arith)
            requires
                begin == click.row * cols,
                0 < cols,
        ;
    }
}

/// The elements of a line follow each other as the table tells: each begins where the one before it
/// ends, both in the text and on the screen, from the start of the line up to its end.
pub proof fn elements_follow_each_other(measured: Seq<(usize, u8)>, from: int, len: int)
    requires
        0 <= len,
    ensures
        line_boundaries(measured, from, len) matches Some(b) ==> {
            &&& b.len() > 0
            &&& b[0] == (0int, 0int)
            &&& b.last().0 >= len
            &&& forall|i: int|
                0 <= i < b.len() - 1 ==> (#[trigger] b[i]).0 < len && b[i + 1] == (
                    b[i].0 + measured[from + b[i].0].0,
                    b[i].1 + measured[from + b[i].0].1,
                ) && b[i].0 < b[i + 1].0
        },
{
    ends_follow_each_other(measured, from, len, 0, 0);
}

proof fn ends_follow_each_other(
    measured: Seq<(usize, u8)>,
    from: int,
    len: int,
    index: int,
    cells: int,
)
    ensures
        element_ends(measured, from, len, index, cells) matches Some(ends) ==> ({
            let b = seq![(index, cells)] + ends;
            &&& b.last().0 >= len
            &&& forall|i: int|
                0 <= i < b.len() - 1 ==> (#[trigger] b[i]).0 < len && b[i + 1] == (
                    b[i].0 + measured[from + b[i].0].0,
                    b[i].1 + measured[from + b[i].0].1,
                ) && b[i].0 < b[i + 1].0
        }),
    decreases (if index < len {
        len - index
    } else {
        0
    }),
{
    if index < len {
        let next = (index + measured[from + index].0, cells + measured[from + index].1);
        if next.0 > index {
            ends_follow_each_other(measured, from, len, next.0, next.1);
            if let Some(rest) = element_ends(measured, from, len, next.0, next.1) {
                let inner = seq![next] + rest;
                let b = seq![(index, cells)] + inner;
                assert(b.last() == inner.last());
                assert forall|i: int| 0 <= i < b.len() - 1 implies (#[trigger] b[i]).0 < len && b[i
                    + 1] == (
                    b[i].0 + measured[from + b[i].0].0,
                    b[i].1 + measured[from + b[i].0].1,
                ) && b[i].0 < b[i + 1].0 by {
                    if i > 0 {
                        assert(b[i] == inner[i - 1]);
                        assert(b[i + 1] == inner[i]);
                    }
                }
            }
        }
    }
}

/// Where lines begin: a line below that of the cursor begins in the first column of the first row
/// behind the end of the line before it. A line above that of the cursor begins in a first column,
/// and ends in the row right above that of the line behind it.
pub proof fn lines_begin_below_each_other(
    lines: Seq<LineModel>,
    c: int,
    anchor: int,
    cols: int,
    k: int,
)
    requires
        0 < cols,
    ensures
        ({
            let end = cell_below(lines, c, anchor, cols, k - 1) + line_width(lines[k - 1]);
            let start = cell_below(lines, c, anchor, cols, k);
            c < k && end >= 0 ==> start % cols == 0 && end < start <= end + cols
        }),
        ({
            let start = cell_above(lines, c, anchor, cols, k);
            let next = cell_above(lines, c, anchor, cols, k + 1);
            let row = next - next % cols;
            k < c && next >= 0 && line_width(lines[k]) >= 0 ==> start % cols == 0 && row - cols
                <= start + line_width(lines[k]) < row
        }),
{
    let end = cell_below(lines, c, anchor, cols, k - 1) + line_width(lines[k - 1]);
    if c < k && end >= 0 {
        let q = end / cols;
        assert((q + 1) * cols % cols == 0 && end < (q + 1) * cols <= end + cols) by (nonlinear_arith)
            requires
                cols > 0,
                end >= 0,
                q == end / cols,
        ;
    }
    let next = cell_above(lines, c, anchor, cols, k + 1);
    let w = line_width(lines[k]);
    if k < c && next >= 0 && w >= 0 {
        let q = next / cols;
        let d = w / cols;
        let start = (q - 1 - d) * cols;
        assert(start == q * cols - cols - d * cols) by (nonlinear_arith)
            requires
                start == (q - 1 - d) * cols,
        ;
        assert(start % cols == 0) by (nonlinear_arith)
            requires
                cols > 0,
                start == (q - 1 - d) * cols,
        ;
        assert(next == q * cols + next % cols) by (nonlinear_arith)
            requires
                cols > 0,
                q == next / cols,
        ;
        assert(w == d * cols + w % cols && 0 <= w % cols < cols) by (nonlinear_arith)
            requires
                cols > 0,
                d == w / cols,
        ;
    }
}

/// A first line that is found on the screen ends in the row in which it has to end, and each of its
/// elements stands in its cell.
pub proof fn located_lines_are_shown(
    screen: &TermScreen,
    line: Seq<char>,
    measured: Seq<(usize, u8)>,
    row_end: int,
)
    ensures
        located_at(screen, line, measured, row_end) matches Some(cell) ==> ({
            let b = line_boundaries(measured, 0, line.len() as int)->0;
            &&& row_end - screen.cols <= cell + b.last().1 < row_end
            &&& forall|i: int|
                0 <= i < b.len() - 1 ==> shown_in(screen, cell + (#[trigger] b[i]).1) == Some(
                    line.subrange(b[i].0, b[i + 1].0),
                )
            &&& shown_in(screen, cell + b.last().1) matches Some(behind) ==> text::blank(behind)
        }),
{
    if let Some(b) = line_boundaries(measured, 0, line.len() as int) {
        first_shown_is_shown(
            screen,
            line,
            b,
            row_end - screen.cols - b.last().1,
            row_end - b.last().1,
        );
    }
}

proof fn first_shown_is_shown(
    screen: &TermScreen,
    line: Seq<char>,
    b: Seq<(int, int)>,
    from: int,
    to: int,
)
    ensures
        first_shown(screen, line, b, from, to) matches Some(cell) ==> from <= cell < to
            && shown_from(screen, line, b, cell),
    decreases to - from,
{
    if from < to && !shown_from(screen, line, b, from) {
        first_shown_is_shown(screen, line, b, from + 1, to);
    }
}

/// The cell with a number is the one that has this number when cells are counted row by row.
pub proof fn cells_have_their_numbers(cell: int, cols: int)
    requires
        0 < cols <= 0xffff,
        0 <= cell < 0x1_0000 * cols,
    ensures
        point_of(cell, cols).row * cols + point_of(cell, cols).col == cell,
        point_of(cell, cols).col < cols,
{
    let q = cell / cols;
    assert(cell == q * cols + cell % cols && 0 <= cell % cols < cols && 0 <= q < 0x1_0000)
        by (nonlinear_arith)
        requires
            0 < cols,
            0 <= cell < 0x1_0000 * cols,
            q == cell / cols,
    ;
    let point = point_of(cell, cols);
    assert(quotient(cell, cols) == q);
    assert(point.row as int == q);
    assert(cell - q * cols == cell % cols);
    assert(point.col as int == cell % cols);
    let row = point.row as int;
    assert(row * cols == q * cols);
}

/// Taking white space out of a text leaves all its other characters, in their order: it is done to
/// the two parts of a text on their own, leaves a text without white space alone, and nothing of
/// white space.
pub proof fn only_spaces_are_taken_out(a: Seq<char>, b: Seq<char>)
    ensures
        without_spaces(a + b) == without_spaces(a) + without_spaces(b),
        (forall|i: int| 0 <= i < a.len() ==> !text::is_space(#[trigger] a[i])) ==> without_spaces(a)
            == a,
        text::blank(a) ==> without_spaces(a).len() == 0,
    decreases a.len() + b.len(),
{
    if b.len() > 0 {
        only_spaces_are_taken_out(a, b.drop_last());
        assert((a + b).drop_last() =~= a + b.drop_last());
        assert((a + b).last() == b.last());
        assert(without_spaces(a + b) =~= without_spaces(a) + without_spaces(b));
    } else {
        assert(a + b =~= a);
        assert(without_spaces(a) + without_spaces(b) =~= without_spaces(a));
        if a.len() > 0 {
            let rest = a.drop_last();
            only_spaces_are_taken_out(rest, b);
            assert(rest + b =~= rest);
            assert(rest.push(a.last()) =~= a);
        }
    }
}

/// The division goes the same way below zero as above it, and above zero leaves less than the
/// divisor.
pub proof fn division_rounds_towards_zero(a: int, b: int)
    requires
        a >= 0,
        b > 0,
    ensures
        quotient(-a, b) == -quotient(a, b),
        quotient(a, b) * b <= a < quotient(a, b) * b + b,
{
    assert((a / b) * b <= a < (a / b) * b + b) by (nonlinear_arith)
        requires
            b > 0,
    ;
    assert(a == 0 ==> a / b == 0) by (nonlinear_arith)
        requires
            b > 0,
    ;
}

} // verus!
