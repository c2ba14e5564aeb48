//! The visible part of a terminal: cells, selections, and what a program asks its terminal to do.

use crate::color::{Color, RgbColor};
use crate::text;
use vstd::prelude::*;

verus! {

/// A cell of the viewport.
#[derive(Clone, Copy, Debug, PartialEq, Eq, PartialOrd, Ord, Structural)]
pub struct GridPoint {
    pub row: u16,
    pub col: u16,
}

impl GridPoint {
    /// Whether this cell stands at or before `other` in reading order.
    pub open spec fn upto(self, other: GridPoint) -> bool {
        self.row < other.row || self.row == other.row && self.col <= other.col
    }

    fn is_upto(self, other: GridPoint) -> (r: bool)
        ensures
            r == self.upto(other),
    {
        self.row < other.row || self.row == other.row && self.col <= other.col
    }
}

/// A selection in reading order from one cell to another, both included.
#[derive(Clone, Copy, Debug, PartialEq, Eq, Structural)]
pub struct GridSelection {
    pub anchor: GridPoint,
    pub end: GridPoint,
}

impl GridSelection {
    /// The earlier end of the selection.
    pub open spec fn first(self) -> GridPoint {
        if self.anchor.upto(self.end) {
            self.anchor
        } else {
            self.end
        }
    }

    /// The later end of the selection.
    pub open spec fn last(self) -> GridPoint {
        if self.anchor.upto(self.end) {
            self.end
        } else {
            self.anchor
        }
    }

    /// Whether the selection holds a cell.
    pub open spec fn holds(self, point: GridPoint) -> bool {
        self.first().upto(point) && point.upto(self.last())
    }

    /// The selection of one cell.
    pub fn new(point: GridPoint) -> (r: Self)
        ensures
            r == (GridSelection { anchor: point, end: point }),
    {
        GridSelection { anchor: point, end: point }
    }

    /// Whether the selection holds a cell.
    pub fn contains(self, point: GridPoint) -> (r: bool)
        ensures
            r == self.holds(point),
    {
        let (start, end) = self.ordered();
        start.is_upto(point) && point.is_upto(end)
    }

    /// The ends of the selection in reading order.
    pub fn ordered(self) -> (r: (GridPoint, GridPoint))
        ensures
            r == (self.first(), self.last()),
    {
        if self.anchor.is_upto(self.end) {
            (self.anchor, self.end)
        } else {
            (self.end, self.anchor)
        }
    }
}

/// The direction of a drag does not matter: both ends belong to the selection, and exchanging
/// them changes nothing.
pub proof fn selection_has_no_direction(a: GridPoint, b: GridPoint, point: GridPoint)
    ensures
        (GridSelection { anchor: a, end: b }).holds(point) == (GridSelection {
            anchor: b,
            end: a,
        }).holds(point),
        (GridSelection { anchor: a, end: b }).holds(a),
        (GridSelection { anchor: a, end: b }).holds(b),
{
}

/// A selection holds the cells that lie between its ends when the cells are counted row by row.
pub proof fn selections_run_in_reading_order(a: GridPoint, b: GridPoint, point: GridPoint)
    ensures
        ({
            let (x, y, p) = (
                a.row * 0x1_0000 + a.col,
                b.row * 0x1_0000 + b.col,
                point.row * 0x1_0000 + point.col,
            );
            (GridSelection { anchor: a, end: b }).holds(point) <==> x <= p <= y || y <= p <= x
        }),
{
}

/// The colour of a cell where it has one of its own.
#[derive(Clone, Copy, Debug, PartialEq, Eq, Structural)]
pub enum TermColor {
    Indexed(u8),
    Rgb(RgbColor),
}

impl TermColor {
    /// The colour to draw with.
    pub open spec fn drawn(self) -> Color {
        match self {
            TermColor::Indexed(index) => Color::Indexed(index),
            TermColor::Rgb(color) => Color::Rgb(color.r, color.g, color.b),
        }
    }

    /// The colour to draw with.
    pub fn color(self) -> (r: Color)
        ensures
            r == self.drawn(),
    {
        match self {
            TermColor::Indexed(index) => Color::Indexed(index),
            TermColor::Rgb(color) => Color::Rgb(color.r, color.g, color.b),
        }
    }
}

/// How many columns a cell's text takes.
#[derive(Clone, Copy, Debug, PartialEq, Eq, Structural)]
pub enum CellWideKind {
    Narrow,
    Wide,
    /// Covered by the wide text next to it.
    Spacer,
}

/// The attributes of a cell.
#[derive(Clone, Copy, Debug, PartialEq, Eq, Structural)]
pub struct CellLook {
    pub fg: Option<TermColor>,
    pub bg: Option<TermColor>,
    pub underline_color: Option<TermColor>,
    pub bold: bool,
    pub faint: bool,
    pub italic: bool,
    pub underline: bool,
    pub blink: bool,
    pub invisible: bool,
    pub strikethrough: bool,
    pub inverse: bool,
}

/// The attributes of a cell that nothing was written to.
pub open spec fn plain_look() -> CellLook {
    CellLook {
        fg: None,
        bg: None,
        underline_color: None,
        bold: false,
        faint: false,
        italic: false,
        underline: false,
        blink: false,
        invisible: false,
        strikethrough: false,
        inverse: false,
    }
}

/// A cell of the screen.
#[derive(Debug, PartialEq, Eq)]
pub struct TermCell {
    pub contents: String,
    pub look: CellLook,
    pub wide: CellWideKind,
}

/// What a cell holds.
pub struct TermCellView {
    pub contents: Seq<char>,
    pub look: CellLook,
    pub wide: CellWideKind,
}

impl View for TermCell {
    type V = TermCellView;

    open spec fn view(&self) -> TermCellView {
        TermCellView { contents: self.contents@, look: self.look, wide: self.wide }
    }
}

/// A cell that nothing was written to.
pub open spec fn blank_cell() -> TermCellView {
    TermCellView { contents: Seq::empty(), look: plain_look(), wide: CellWideKind::Narrow }
}

impl Default for TermCell {
    fn default() -> (r: Self)
        ensures
            r@ == blank_cell(),
    {
        TermCell {
            contents: String::new(),
            look: CellLook {
                fg: None,
                bg: None,
                underline_color: None,
                bold: false,
                faint: false,
                italic: false,
                underline: false,
                blink: false,
                invisible: false,
                strikethrough: false,
                inverse: false,
            },
            wide: CellWideKind::Narrow,
        }
    }
}

/// The shape of the cursor.
#[derive(Clone, Copy, Debug, PartialEq, Eq, Structural)]
pub enum CursorShape {
    Block,
    Underline,
    Bar,
}

/// A snapshot of the viewport: `rows` times `cols` cells, row by row.
#[derive(Debug)]
pub struct TermScreen {
    pub rows: u16,
    pub cols: u16,
    pub cells: Vec<TermCell>,
    pub cursor: (u16, u16),
    pub hide_cursor: bool,
    pub cursor_shape: CursorShape,
    pub cursor_blinking: bool,
    pub cursor_color: Option<RgbColor>,
    pub default_fg: Color,
    pub default_bg: Color,
    pub contents: String,
}

impl TermScreen {
    /// There is a cell for each row and column.
    pub open spec fn wf(&self) -> bool {
        self.cells@.len() == self.rows * self.cols
    }

    /// The cell of a row and a column of the screen.
    pub open spec fn cell_at(&self, row: int, col: int) -> Option<TermCellView> {
        if 0 <= row < self.rows && 0 <= col < self.cols {
            Some(self.cells@[row * self.cols + col]@)
        } else {
            None
        }
    }

    /// A screen that nothing was written to.
    pub fn empty(rows: u16, cols: u16) -> (r: Self)
        ensures
            r.wf(),
            r.rows == rows,
            r.cols == cols,
            forall|row: int, col: int|
                0 <= row < rows && 0 <= col < cols ==> #[trigger] r.cell_at(row, col) == Some(
                    blank_cell(),
                ),
            r.cursor == (0u16, 0u16),
            !r.hide_cursor,
            r.cursor_shape == CursorShape::Block,
            !r.cursor_blinking,
            r.cursor_color is None,
            r.default_fg == Color::Reset,
            r.default_bg == Color::Reset,
            r.contents@.len() == 0,
    {
        assert(rows * cols <= 0xffff * 0xffff) by (nonlinear_arith)
            requires
                rows <= 0xffff,
                cols <= 0xffff,
        ;
        let n: u64 = rows as u64 * cols as u64;
        let mut cells: Vec<TermCell> = Vec::new();
        let mut i: u64 = 0;
        while i < n
            invariant
                i <= n,
                cells@.len() == i,
                forall|k: int| 0 <= k < i ==> (#[trigger] cells@[k])@ == blank_cell(),
            decreases n - i,
        {
            cells.push(TermCell::default());
            i = i + 1;
        }
        let r = TermScreen {
            rows,
            cols,
            cells,
            cursor: (0, 0),
            hide_cursor: false,
            cursor_shape: CursorShape::Block,
            cursor_blinking: false,
            cursor_color: None,
            default_fg: Color::Reset,
            default_bg: Color::Reset,
            contents: String::new(),
        };
        proof {
            assert forall|row: int, col: int|
                0 <= row < rows && 0 <= col < cols implies #[trigger] r.cell_at(row, col) == Some(
                blank_cell(),
            ) by {
                cell_index_in_range(rows as int, cols as int, row, col);
            }
        }
        r
    }

    /// The numbers of rows and columns.
    pub fn size(&self) -> (r: (u16, u16))
        ensures
            r == (self.rows, self.cols),
    {
        (self.rows, self.cols)
    }

    /// The row and the column of the cursor.
    pub fn cursor_position(&self) -> (r: (u16, u16))
        ensures
            r == self.cursor,
    {
        self.cursor
    }

    /// Whether the cursor is hidden.
    pub fn hide_cursor(&self) -> (r: bool)
        ensures
            r == self.hide_cursor,
    {
        self.hide_cursor
    }

    /// The shape of the cursor.
    pub fn cursor_shape(&self) -> (r: CursorShape)
        ensures
            r == self.cursor_shape,
    {
        self.cursor_shape
    }

    /// Whether the cursor blinks.
    pub fn cursor_blinking(&self) -> (r: bool)
        ensures
            r == self.cursor_blinking,
    {
        self.cursor_blinking
    }

    /// The colour of the cursor, where the program has set one.
    pub fn cursor_color(&self) -> (r: Option<RgbColor>)
        ensures
            r == self.cursor_color,
    {
        self.cursor_color
    }

    /// All text of the viewport.
    pub fn contents(&self) -> (r: &str)
        ensures
            r@ == self.contents@,
    {
        self.contents.as_str()
    }

    /// The cell of a row and a column of the screen.
    pub fn cell(&self, row: u16, col: u16) -> (r: Option<&TermCell>)
        requires
            self.wf(),
        ensures
            match r {
                Some(cell) => self.cell_at(row as int, col as int) == Some(cell@),
                None => self.cell_at(row as int, col as int) is None,
            },
    {
        if row < self.rows && col < self.cols {
            proof {
                cell_index_in_range(self.rows as int, self.cols as int, row as int, col as int);
                assert(row * self.cols + col <= 0xffff_ffff) by (nonlinear_arith)
                    requires
                        row < 0xffff,
                        col < 0xffff,
                        self.cols <= 0xffff,
                ;
                assert(row * self.cols <= 0xffff_ffff) by (nonlinear_arith)
                    requires
                        row < 0xffff,
                        self.cols <= 0xffff,
                ;
            }
            Some(&self.cells[row as usize * self.cols as usize + col as usize])
        } else {
            None
        }
    }

    /// The text of a cell: empty where nothing was written and next to a wide character.
    pub fn cell_text(&self, row: u16, col: u16) -> (r: Option<&str>)
        requires
            self.wf(),
        ensures
            match r {
                Some(s) => self.cell_at(row as int, col as int) is Some && s@ == self.cell_at(
                    row as int,
                    col as int,
                )->0.contents,
                None => self.cell_at(row as int, col as int) is None,
            },
    {
        match self.cell(row, col) {
            Some(cell) => Some(cell.contents.as_str()),
            None => None,
        }
    }

    /// The text of the selected cells: the lines without white space at their ends, with a line
    /// break between them.
    pub fn selected_text(&self, selection: GridSelection) -> (r: String)
        requires
            self.wf(),
        ensures
            r@ == joined(selected_lines(self, selection)),
    {
        let (start, end) = selection.ordered();
        let last_row: u16 = if end.row < sub_one(self.rows) {
            end.row
        } else {
            sub_one(self.rows)
        };
        let ghost lines = selected_lines(self, selection);
        let mut out: Vec<char> = Vec::new();
        let mut row: u32 = start.row as u32;
        assert(lines.take(0) =~= Seq::empty());
        while row <= last_row as u32
            invariant
                self.wf(),
                start == selection.first(),
                end == selection.last(),
                last_row == last_selected_row(self, selection),
                lines == selected_lines(self, selection),
                start.row <= row,
                row <= last_row + 1 || row == start.row,
                out@ == joined(lines.take(row - start.row)),
            decreases last_row + 1 - row,
        {
            let first_col: u16 = if row == start.row as u32 {
                start.col
            } else {
                0
            };
            let last_col: u16 = if row == end.row as u32 {
                end.col
            } else {
                sub_one(self.cols)
            };
            let last_col: u16 = if last_col < sub_one(self.cols) {
                last_col
            } else {
                sub_one(self.cols)
            };
            let mut line: Vec<char> = Vec::new();
            let mut col: u32 = first_col as u32;
            while col <= last_col as u32
                invariant
                    self.wf(),
                    row <= 0xffff,
                    first_col <= col,
                    col <= last_col + 1 || col == first_col,
                    line@ == row_text(self, row as int, first_col as int, col as int),
                decreases last_col + 1 - col,
            {
                if let Some(cell) = self.cell(row as u16, col as u16) {
                    match cell.wide {
                        CellWideKind::Spacer => {},
                        _ => {
                            let mut chars = text::chars_of(cell.contents.as_str());
                            if chars.len() == 0 {
                                line.push(' ');
                            } else {
                                line.append(&mut chars);
                            }
                        },
                    }
                }
                col = col + 1;
                assert(line@ =~= row_text(self, row as int, first_col as int, col as int));
            }
            let mut trimmed = text::trim_end(&line);
            let ghost k = row - start.row;
            assert(lines[k] == trimmed@) by {
                row_text_of_nothing(self, row as int, first_col as int, last_col + 1);
            }
            let ghost before = out@;
            if row != start.row as u32 {
                out.push('\n');
            }
            out.append(&mut trimmed);
            assert(lines.take(k + 1).drop_last() =~= lines.take(k));
            assert(out@ =~= joined(lines.take(k + 1)));
            row = row + 1;
        }
        assert(lines.take(lines.len() as int) =~= lines);
        text::string_of(&out)
    }
}

fn sub_one(n: u16) -> (r: u16)
    ensures
        r == (if n == 0 {
            0
        } else {
            n - 1
        }),
{
    if n == 0 {
        0
    } else {
        n - 1
    }
}

/// The place of a cell in the row-by-row list.
pub proof fn cell_index_in_range(rows: int, cols: int, row: int, col: int)
    requires
        0 <= row < rows,
        0 <= col < cols,
    ensures
        0 <= row * cols + col < rows * cols,
{
    assert(row * cols + col < rows * cols) by (nonlinear_arith)
        requires
            0 <= row < rows,
            0 <= col < cols,
    ;
    assert(0 <= row * cols) by (nonlinear_arith)
        requires
            0 <= row,
            0 < cols,
    ;
}

/// The text that a cell adds to its line: a blank for an empty one, nothing for one that a wide
/// character covers.
pub open spec fn line_part(cell: Option<TermCellView>) -> Seq<char> {
    match cell {
        None => Seq::empty(),
        Some(c) => if c.wide == CellWideKind::Spacer {
            Seq::empty()
        } else if c.contents.len() == 0 {
            seq![' ']
        } else {
            c.contents
        },
    }
}

/// The text of the cells of a row from column `from` up to, not including, `to`.
pub open spec fn row_text(screen: &TermScreen, row: int, from: int, to: int) -> Seq<char>
    decreases to - from,
{
    if to <= from {
        Seq::empty()
    } else {
        row_text(screen, row, from, to - 1) + line_part(screen.cell_at(row, to - 1))
    }
}

proof fn row_text_of_nothing(screen: &TermScreen, row: int, from: int, to: int)
    ensures
        to <= from ==> row_text(screen, row, from, to) == row_text(screen, row, from, from),
{
}

/// The last row of the selection that is on the screen.
pub open spec fn last_selected_row(screen: &TermScreen, selection: GridSelection) -> int {
    let bottom = if screen.rows == 0 {
        0
    } else {
        screen.rows - 1
    };
    if selection.last().row < bottom {
        selection.last().row as int
    } else {
        bottom
    }
}

/// The selected text of each row that the selection reaches: the first row from where the
/// selection begins, the last one up to where it ends, without white space at the end.
pub open spec fn selected_lines(screen: &TermScreen, selection: GridSelection) -> Seq<Seq<char>> {
    let first = selection.first();
    let last = selection.last();
    let count = last_selected_row(screen, selection) + 1 - first.row;
    Seq::new(
        if count < 0 {
            0
        } else {
            count as nat
        },
        |i: int|
            {
                let row = first.row + i;
                let right = if screen.cols == 0 {
                    0
                } else {
                    screen.cols - 1
                };
                let from = if i == 0 {
                    first.col as int
                } else {
                    0
                };
                let to = if row == last.row && last.col < right {
                    last.col as int
                } else {
                    right
                };
                text::trimmed_end(row_text(screen, row, from, to + 1))
            },
    )
}

/// The lines with a line break between them.
pub open spec fn joined(lines: Seq<Seq<char>>) -> Seq<char>
    decreases lines.len(),
{
    if lines.len() == 0 {
        Seq::empty()
    } else if lines.len() == 1 {
        lines[0]
    } else {
        joined(lines.drop_last()).push('\n') + lines.last()
    }
}

/// The text of the cells of a row, among the first `n`, that a selection holds.
pub open spec fn held_text(screen: &TermScreen, selection: GridSelection, row: int, n: int) -> Seq<
    char,
>
    decreases n,
{
    if n <= 0 {
        Seq::empty()
    } else if selection.holds(GridPoint { row: row as u16, col: (n - 1) as u16 }) {
        held_text(screen, selection, row, n - 1) + (match screen.cell_at(row, n - 1) {
            Some(cell) => if cell.wide == CellWideKind::Spacer {
                Seq::empty()
            } else if cell.contents.len() == 0 {
                seq![' ']
            } else {
                cell.contents
            },
            None => Seq::empty(),
        })
    } else {
        held_text(screen, selection, row, n - 1)
    }
}

/// The copied text is the text of the highlighted cells: there is a line for each row of the screen
/// from the first to the last one of the selection, and it is the text of exactly those cells of the
/// row that the selection holds, without white space at its end.
pub proof fn copied_is_what_is_highlighted(screen: &TermScreen, selection: GridSelection, row: int)
    requires
        0 < screen.rows,
        0 < screen.cols,
        selection.first().row < screen.rows,
    ensures
        ({
            let lines = selected_lines(screen, selection);
            let last = if selection.last().row < screen.rows {
                selection.last().row as int
            } else {
                screen.rows - 1
            };
            &&& lines.len() == last - selection.first().row + 1
            &&& selection.first().row <= row <= last ==> lines[row - selection.first().row]
                == text::trimmed_end(held_text(screen, selection, row, screen.cols as int))
        }),
{
    let first = selection.first();
    let last = selection.last();
    let cols = screen.cols as int;
    if first.row <= row <= last_selected_row(screen, selection) {
        let from = if row == first.row {
            first.col as int
        } else {
            0
        };
        let to = if row == last.row && last.col < cols - 1 {
            last.col as int
        } else {
            cols - 1
        };
        held_is_a_range(screen, selection, row, from, to + 1, cols);
        assert(selected_lines(screen, selection)[row - first.row] == text::trimmed_end(
            row_text(screen, row, from, to + 1),
        ));
    }
}

/// The cells of a row that a selection holds stand side by side.
proof fn held_is_a_range(
    screen: &TermScreen,
    selection: GridSelection,
    row: int,
    from: int,
    to: int,
    n: int,
)
    requires
        0 <= n <= screen.cols,
        0 <= row < screen.rows,
        0 <= from,
        forall|col: int|
            0 <= col < screen.cols ==> (#[trigger] selection.holds(
                GridPoint { row: row as u16, col: col as u16 },
            ) <==> from <= col < to),
    ensures
        held_text(screen, selection, row, n) == row_text(
            screen,
            row,
            from,
            if n < to {
                n
            } else {
                to
            },
        ),
    decreases n,
{
    if n > 0 {
        held_is_a_range(screen, selection, row, from, to, n - 1);
        assert(selection.holds(GridPoint { row: row as u16, col: (n - 1) as u16 }) <==> from <= n - 1
            < to);
    }
}

/// A row between the first and the last one of a selection is copied whole, but for white space at
/// its end.
pub proof fn rows_between_are_copied_whole(
    screen: &TermScreen,
    selection: GridSelection,
    row: int,
)
    requires
        0 < screen.cols,
        selection.first().row < row < selection.last().row,
        row < screen.rows,
    ensures
        selected_lines(screen, selection)[row - selection.first().row] == text::trimmed_end(
            row_text(screen, row, 0, screen.cols as int),
        ),
{
}

/// The lines can be told apart in the copied text: where no line holds a line break, splitting the
/// text at its line breaks gives the lines back.
pub proof fn copied_lines_split_back(lines: Seq<Seq<char>>)
    requires
        lines.len() > 0,
        forall|i: int| 0 <= i < lines.len() ==> !(#[trigger] lines[i]).contains('\n'),
    ensures
        text::fields(joined(lines), '\n') == lines,
    decreases lines.len(),
{
    if lines.len() == 1 {
        let line = lines[0];
        text::index_of_is_first(line, '\n');
        assert(text::index_of(line, '\n') == line.len()) by {
            if text::index_of(line, '\n') < line.len() {
                assert(line.contains(line[text::index_of(line, '\n')]));
            }
        }
        assert(text::fields(line, '\n') =~= lines);
    } else {
        let before = lines.drop_last();
        assert forall|i: int| 0 <= i < before.len() implies !(#[trigger] before[i]).contains(
            '\n',
        ) by {
            assert(before[i] == lines[i]);
        }
        copied_lines_split_back(before);
        text::last_field(joined(before), '\n', lines.last());
        assert(before.push(lines.last()) =~= lines);
    }
}

/// The direction of a drag does not change the selected text.
pub proof fn selected_text_has_no_direction(screen: &TermScreen, a: GridPoint, b: GridPoint)
    ensures
        selected_lines(screen, GridSelection { anchor: a, end: b }) == selected_lines(
            screen,
            GridSelection { anchor: b, end: a },
        ),
{
    let forth = GridSelection { anchor: a, end: b };
    let back = GridSelection { anchor: b, end: a };
    assert(forth.first() == back.first());
    assert(forth.last() == back.last());
}

/// The clipboard that a program writes to.
#[derive(Clone, Copy, Debug, PartialEq, Eq, Structural)]
pub enum ClipboardTarget {
    Standard,
    Primary,
}

/// What a program wants in a clipboard.
#[derive(Debug, PartialEq, Eq)]
pub struct ClipboardWriteRequest {
    pub target: ClipboardTarget,
    pub data: Vec<u8>,
}

/// What a program has asked its terminal for, to be carried out when its output was processed.
#[derive(Debug)]
pub struct TerminalEffects {
    pub pty_responses: Vec<Vec<u8>>,
    pub bell_count: usize,
    pub clipboard_writes: Vec<ClipboardWriteRequest>,
    pub title: Option<String>,
    pub cwd: Option<String>,
}

impl Default for TerminalEffects {
    fn default() -> (r: Self)
        ensures
            r.pty_responses@.len() == 0,
            r.bell_count == 0,
            r.clipboard_writes@.len() == 0,
            r.title is None,
            r.cwd is None,
    {
        TerminalEffects {
            pty_responses: Vec::new(),
            bell_count: 0,
            clipboard_writes: Vec::new(),
            title: None,
            cwd: None,
        }
    }
}

impl TerminalEffects {
    /// Adds what came later: lists grow, bells add up, a later title or directory replaces an
    /// earlier one.
    pub fn append(&mut self, other: TerminalEffects)
        requires
            old(self).bell_count + other.bell_count <= usize::MAX,
        ensures
            final(self).pty_responses@ == old(self).pty_responses@ + other.pty_responses@,
            final(self).bell_count == old(self).bell_count + other.bell_count,
            final(self).clipboard_writes@ == old(self).clipboard_writes@ + other.clipboard_writes@,
            final(self).title == (if other.title is Some {
                other.title
            } else {
                old(self).title
            }),
            final(self).cwd == (if other.cwd is Some {
                other.cwd
            } else {
                old(self).cwd
            }),
    {
        let mut other = other;
        self.pty_responses.append(&mut other.pty_responses);
        self.bell_count = self.bell_count + other.bell_count;
        self.clipboard_writes.append(&mut other.clipboard_writes);
        if other.title.is_some() {
            self.title = other.title;
        }
        if other.cwd.is_some() {
            self.cwd = other.cwd;
        }
    }
}

} // verus!
