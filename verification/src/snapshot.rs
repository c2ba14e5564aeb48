//! Making a screen of what the terminal emulator of a pane tells of its viewport.

use crate::color::{Color, RgbColor};
use crate::term;
use crate::term::{
    CellLook, CellWideKind, CursorShape, TermCell, TermCellView, TermColor, TermScreen,
};
use crate::text;
use vstd::prelude::*;

verus! {

/// The colour in the style of a cell.
#[derive(Debug, Clone, Copy, PartialEq, Eq, Structural)]
pub enum StyleColor {
    Unset,
    Palette(u8),
    Rgb(RgbColor),
}

/// How many columns a cell's text takes.
#[derive(Debug, Clone, Copy, PartialEq, Eq, Structural)]
pub enum CellWide {
    Narrow,
    Wide,
    /// Behind a wide character.
    SpacerTail,
    /// At the end of a row, before a wide character in the next one.
    SpacerHead,
}

/// What a cell holds besides its style.
#[derive(Debug, Clone, Copy, PartialEq, Eq, Structural)]
pub enum CellContent {
    Text,
    BgPalette(u8),
    BgRgb(RgbColor),
}

/// The style of a cell.
#[derive(Debug, Clone, Copy, PartialEq, Eq, Structural)]
pub struct CellStyle {
    pub fg: StyleColor,
    pub bg: StyleColor,
    pub underline_color: StyleColor,
    pub bold: bool,
    pub faint: bool,
    pub italic: bool,
    pub underline: bool,
    pub blink: bool,
    pub invisible: bool,
    pub strikethrough: bool,
    pub inverse: bool,
}

/// A cell of the viewport as the emulator tells it.
#[derive(Debug)]
pub struct SnapshotCell {
    pub text: String,
    pub wide: CellWide,
    pub content: CellContent,
    pub style: CellStyle,
}

/// The look of the cursor as the emulator tells it.
#[derive(Debug, Clone, Copy, PartialEq, Eq, Structural)]
pub enum CursorVisual {
    Bar,
    Underline,
    Block,
    BlockHollow,
}

/// The viewport as the emulator tells it.
#[derive(Debug)]
pub struct Snapshot {
    pub rows: u16,
    pub cols: u16,
    pub lines: Vec<Vec<SnapshotCell>>,
    /// The colours of the palette now, and without what the program has changed.
    pub active_palette: [RgbColor; 256],
    pub default_palette: [RgbColor; 256],
    /// The default colours now, as the program may have changed them.
    pub fg: Option<RgbColor>,
    pub bg: Option<RgbColor>,
    /// Whether the program has exchanged the default colours.
    pub reverse: bool,
    /// The default colours of the terminal outside.
    pub host_fg: Option<RgbColor>,
    pub host_bg: Option<RgbColor>,
    /// The row and the column of the cursor, where it is in the viewport.
    pub cursor: Option<(u16, u16)>,
    pub cursor_visible: bool,
    pub cursor_visual: Option<CursorVisual>,
    pub cursor_blinking: bool,
    pub cursor_color: Option<RgbColor>,
}

/// The default colour to draw with: the one of the terminal outside, unless the program has set
/// another.
pub open spec fn default_color(color: Option<RgbColor>, host_color: Option<RgbColor>) -> Color {
    match (color, host_color) {
        (Some(c), Some(host)) => if c != host {
            Color::Rgb(c.r, c.g, c.b)
        } else {
            Color::Reset
        },
        _ => Color::Reset,
    }
}

/// The default colour to draw with.
pub fn resolved_default_color(color: Option<RgbColor>, host_color: Option<RgbColor>) -> (r: Color)
    ensures
        r == default_color(color, host_color),
{
    match (color, host_color) {
        (Some(c), Some(host)) => {
            if c != host {
                Color::Rgb(c.r, c.g, c.b)
            } else {
                Color::Reset
            }
        },
        _ => Color::Reset,
    }
}

/// A colour of the palette: by its place, unless the program has changed it.
pub open spec fn palette_color(index: u8, active: Seq<RgbColor>, default: Seq<RgbColor>) -> TermColor {
    if active[index as int] == default[index as int] {
        TermColor::Indexed(index)
    } else {
        TermColor::Rgb(active[index as int])
    }
}

/// A colour of the palette.
pub fn resolve_palette_color(
    index: u8,
    active_palette: &[RgbColor; 256],
    default_palette: &[RgbColor; 256],
) -> (r: TermColor)
    ensures
        r == palette_color(index, active_palette@, default_palette@),
{
    let i: usize = index as usize;
    if active_palette[i] == default_palette[i] {
        TermColor::Indexed(index)
    } else {
        TermColor::Rgb(active_palette[i])
    }
}

/// The colour in a style.
pub open spec fn style_color(
    color: StyleColor,
    active: Seq<RgbColor>,
    default: Seq<RgbColor>,
) -> Option<TermColor> {
    match color {
        StyleColor::Unset => None,
        StyleColor::Palette(index) => Some(palette_color(index, active, default)),
        StyleColor::Rgb(rgb) => Some(TermColor::Rgb(rgb)),
    }
}

/// The colour in a style.
pub fn resolve_style_color(
    color: StyleColor,
    active_palette: &[RgbColor; 256],
    default_palette: &[RgbColor; 256],
) -> (r: Option<TermColor>)
    ensures
        r == style_color(color, active_palette@, default_palette@),
{
    match color {
        StyleColor::Unset => None,
        StyleColor::Palette(index) => Some(
            resolve_palette_color(index, active_palette, default_palette),
        ),
        StyleColor::Rgb(rgb) => Some(TermColor::Rgb(rgb)),
    }
}

/// The screen cell of a cell: a background that is the content of the cell goes before the one of
/// its style.
pub open spec fn cell_of(
    cell: SnapshotCell,
    active: Seq<RgbColor>,
    default: Seq<RgbColor>,
) -> TermCellView {
    let s = cell.style;
    TermCellView {
        contents: cell.text@,
        look: CellLook {
            fg: style_color(s.fg, active, default),
            bg: match cell.content {
                CellContent::BgPalette(index) => Some(palette_color(index, active, default)),
                CellContent::BgRgb(rgb) => Some(TermColor::Rgb(rgb)),
                CellContent::Text => style_color(s.bg, active, default),
            },
            underline_color: style_color(s.underline_color, active, default),
            bold: s.bold,
            faint: s.faint,
            italic: s.italic,
            underline: s.underline,
            blink: s.blink,
            invisible: s.invisible,
            strikethrough: s.strikethrough,
            inverse: s.inverse,
        },
        wide: match cell.wide {
            CellWide::Narrow => CellWideKind::Narrow,
            CellWide::Wide => CellWideKind::Wide,
            CellWide::SpacerTail => CellWideKind::Spacer,
            CellWide::SpacerHead => CellWideKind::Spacer,
        },
    }
}

fn resolve_cell(
    cell: &SnapshotCell,
    active: &[RgbColor; 256],
    default: &[RgbColor; 256],
) -> (r: TermCell)
    ensures
        r@ == cell_of(*cell, active@, default@),
{
    let s = cell.style;
    TermCell {
        contents: cell.text.clone(),
        look: CellLook {
            fg: resolve_style_color(s.fg, active, default),
            bg: match cell.content {
                CellContent::BgPalette(index) => Some(
                    resolve_palette_color(index, active, default),
                ),
                CellContent::BgRgb(rgb) => Some(TermColor::Rgb(rgb)),
                CellContent::Text => resolve_style_color(s.bg, active, default),
            },
            underline_color: resolve_style_color(s.underline_color, active, default),
            bold: s.bold,
            faint: s.faint,
            italic: s.italic,
            underline: s.underline,
            blink: s.blink,
            invisible: s.invisible,
            strikethrough: s.strikethrough,
            inverse: s.inverse,
        },
        wide: match cell.wide {
            CellWide::Narrow => CellWideKind::Narrow,
            CellWide::Wide => CellWideKind::Wide,
            CellWide::SpacerTail | CellWide::SpacerHead => CellWideKind::Spacer,
        },
    }
}

/// The cell of the screen in a row and a column; a blank one where the emulator tells none.
pub open spec fn screen_cell(s: Snapshot, row: int, col: int) -> TermCellView {
    if row < s.lines@.len() && col < s.lines@[row]@.len() {
        cell_of(s.lines@[row]@[col], s.active_palette@, s.default_palette@)
    } else {
        term::blank_cell()
    }
}

/// The text of the first `n` cells of a line. What stands in for the tail of a wide character has
/// none.
pub open spec fn line_text(line: Seq<SnapshotCell>, n: int) -> Seq<char>
    decreases n,
{
    if n <= 0 {
        Seq::empty()
    } else {
        line_text(line, n - 1) + if line[n - 1].wide == CellWide::SpacerTail {
            Seq::empty()
        } else {
            line[n - 1].text@
        }
    }
}

/// The text of the first `n` lines, with a line break behind each but the last row of the screen.
pub open spec fn lines_text(lines: Seq<Vec<SnapshotCell>>, rows: int, n: int) -> Seq<char>
    decreases n,
{
    if n <= 0 {
        Seq::empty()
    } else {
        let line = lines_text(lines, rows, n - 1) + line_text(
            lines[n - 1]@,
            lines[n - 1]@.len() as int,
        );
        if n < rows {
            line.push('\n')
        } else {
            line
        }
    }
}

/// The shape of the cursor to draw.
pub open spec fn shape_of(visual: Option<CursorVisual>) -> CursorShape {
    match visual {
        Some(CursorVisual::Bar) => CursorShape::Bar,
        Some(CursorVisual::Underline) => CursorShape::Underline,
        _ => CursorShape::Block,
    }
}

/// The text of all lines.
fn contents_of(lines: &Vec<Vec<SnapshotCell>>, rows: u16) -> (r: String)
    ensures
        r@ == lines_text(lines@, rows as int, lines@.len() as int),
{
    let mut out: Vec<char> = Vec::new();
    let mut row: usize = 0;
    while row < lines.len()
        invariant
            row <= lines@.len(),
            out@ == lines_text(lines@, rows as int, row as int),
        decreases lines@.len() - row,
    {
        let ghost before = out@;
        let line = &lines[row];
        let mut col: usize = 0;
        assert(before + line_text(line@, 0) =~= before);
        while col < line.len()
            invariant
                col <= line@.len(),
                out@ == before + line_text(line@, col as int),
            decreases line@.len() - col,
        {
            match line[col].wide {
                CellWide::SpacerTail => {},
                _ => {
                    text::push_text(&mut out, line[col].text.as_str());
                },
            }
            col = col + 1;
            assert(out@ =~= before + line_text(line@, col as int));
        }
        row = row + 1;
        if row < rows as usize {
            out.push('\n');
        }
    }
    text::string_of(&out)
}

/// The screen that shows the viewport.
pub fn screen_of(snapshot: &Snapshot) -> (r: TermScreen)
    ensures
        r.wf(),
        r.rows == snapshot.rows,
        r.cols == snapshot.cols,
        forall|row: int, col: int|
            0 <= row < snapshot.rows && 0 <= col < snapshot.cols ==> #[trigger] r.cell_at(row, col)
                == Some(screen_cell(*snapshot, row, col)),
        r.cursor == (match snapshot.cursor {
            Some(at) => at,
            None => (0u16, 0u16),
        }),
        r.hide_cursor == (!snapshot.cursor_visible || snapshot.cursor is None),
        r.cursor_shape == shape_of(snapshot.cursor_visual),
        r.cursor_blinking == snapshot.cursor_blinking,
        r.cursor_color == snapshot.cursor_color,
        r.default_fg == default_color(
            if snapshot.reverse {
                snapshot.bg
            } else {
                snapshot.fg
            },
            snapshot.host_fg,
        ),
        r.default_bg == default_color(
            if snapshot.reverse {
                snapshot.fg
            } else {
                snapshot.bg
            },
            snapshot.host_bg,
        ),
        r.contents@ == lines_text(
            snapshot.lines@,
            snapshot.rows as int,
            snapshot.lines@.len() as int,
        ),
{
    let rows: u16 = snapshot.rows;
    let cols: u16 = snapshot.cols;
    let mut cells: Vec<TermCell> = Vec::new();
    let mut row: u16 = 0;
    while row < rows
        invariant
            row <= rows,
            rows == snapshot.rows,
            cols == snapshot.cols,
            cells@.len() == row * cols,
            forall|r: int, c: int|
                0 <= r < row && 0 <= c < cols ==> (#[trigger] cells@[r * cols + c])@ == screen_cell(
                    *snapshot,
                    r,
                    c,
                ),
        decreases rows - row,
    {
        let ghost base = cells@;
        let mut col: u16 = 0;
        while col < cols
            invariant
                col <= cols,
                row < rows,
                rows == snapshot.rows,
                cols == snapshot.cols,
                base.len() == row * cols,
                cells@.len() == row * cols + col,
                forall|k: int| 0 <= k < base.len() ==> #[trigger] cells@[k] == base[k],
                forall|c: int|
                    0 <= c < col ==> (#[trigger] cells@[row * cols + c])@ == screen_cell(
                        *snapshot,
                        row as int,
                        c,
                    ),
            decreases cols - col,
        {
            let r: usize = row as usize;
            let c: usize = col as usize;
            let cell = if r < snapshot.lines.len() && c < snapshot.lines[r].len() {
                resolve_cell(
                    &snapshot.lines[r][c],
                    &snapshot.active_palette,
                    &snapshot.default_palette,
                )
            } else {
                TermCell::default()
            };
            let ghost old_cells = cells@;
            cells.push(cell);
            proof {
                assert(cells@[row * cols + col]@ == screen_cell(*snapshot, row as int, col as int));
                assert forall|c: int| 0 <= c < col + 1 implies (#[trigger] cells@[row * cols + c])@
                    == screen_cell(*snapshot, row as int, c) by {
                    if c < col {
                        assert(cells@[row * cols + c] == old_cells[row * cols + c]);
                    }
                }
            }
            col = col + 1;
        }
        proof {
            assert((row + 1) * cols == row * cols + cols) by (nonlinear_arith);
            assert forall|r: int, c: int| 0 <= r < row + 1 && 0 <= c < cols implies (
            #[trigger] cells@[r * cols + c])@ == screen_cell(*snapshot, r, c) by {
                if r < row {
                    term::cell_index_in_range(row as int, cols as int, r, c);
                    assert(cells@[r * cols + c] == base[r * cols + c]);
                }
            }
        }
        row = row + 1;
    }
    let (fg, bg) = if snapshot.reverse {
        (snapshot.bg, snapshot.fg)
    } else {
        (snapshot.fg, snapshot.bg)
    };
    TermScreen {
        rows,
        cols,
        cells,
        cursor: match snapshot.cursor {
            Some(at) => at,
            None => (0, 0),
        },
        hide_cursor: !snapshot.cursor_visible || snapshot.cursor.is_none(),
        cursor_shape: match snapshot.cursor_visual {
            Some(CursorVisual::Bar) => CursorShape::Bar,
            Some(CursorVisual::Underline) => CursorShape::Underline,
            _ => CursorShape::Block,
        },
        cursor_blinking: snapshot.cursor_blinking,
        cursor_color: snapshot.cursor_color,
        default_fg: resolved_default_color(fg, snapshot.host_fg),
        default_bg: resolved_default_color(bg, snapshot.host_bg),
        contents: contents_of(&snapshot.lines, rows),
    }
}

/// What a cell shows is taken over: its text, each of its attributes, and its colours, where one of
/// the palette that was not changed stays one of the palette.
pub proof fn cells_are_taken_over(
    cell: SnapshotCell,
    active: Seq<RgbColor>,
    default: Seq<RgbColor>,
    index: u8,
    rgb: RgbColor,
)
    ensures
        ({
            let c = cell_of(cell, active, default);
            &&& c.contents == cell.text@
            &&& c.look.bold == cell.style.bold
            &&& c.look.faint == cell.style.faint
            &&& c.look.italic == cell.style.italic
            &&& c.look.underline == cell.style.underline
            &&& c.look.blink == cell.style.blink
            &&& c.look.invisible == cell.style.invisible
            &&& c.look.strikethrough == cell.style.strikethrough
            &&& c.look.inverse == cell.style.inverse
            &&& c.wide == CellWideKind::Wide <==> cell.wide == CellWide::Wide
            &&& c.wide == CellWideKind::Narrow <==> cell.wide == CellWide::Narrow
            &&& cell.style.fg == StyleColor::Unset ==> c.look.fg is None
            &&& cell.style.fg == StyleColor::Rgb(rgb) ==> c.look.fg == Some(TermColor::Rgb(rgb))
            &&& cell.style.fg == StyleColor::Palette(index) && active[index as int]
                == default[index as int] ==> c.look.fg == Some(TermColor::Indexed(index))
            &&& cell.style.fg == StyleColor::Palette(index) && active[index as int]
                != default[index as int] ==> c.look.fg == Some(
                TermColor::Rgb(active[index as int]),
            )
            &&& cell.content == CellContent::BgRgb(rgb) ==> c.look.bg == Some(TermColor::Rgb(rgb))
            &&& cell.content == CellContent::Text && cell.style.bg == StyleColor::Unset
                ==> c.look.bg is None
            &&& cell.content == CellContent::Text && cell.style.bg == cell.style.fg ==> c.look.bg
                == c.look.fg
            &&& cell.style.underline_color == cell.style.fg ==> c.look.underline_color
                == c.look.fg
        }),
{
}

/// A line of cells with one character each is the text of these characters.
pub proof fn lines_are_their_characters(line: Seq<SnapshotCell>, n: int)
    requires
        0 <= n <= line.len(),
        forall|i: int|
            0 <= i < n ==> (#[trigger] line[i]).text@.len() == 1 && line[i].wide
                != CellWide::SpacerTail,
    ensures
        line_text(line, n).len() == n,
        forall|i: int| 0 <= i < n ==> #[trigger] line_text(line, n)[i] == line[i].text@[0],
    decreases n,
{
    if n > 0 {
        lines_are_their_characters(line, n - 1);
        let last = line[n - 1];
        assert(line_text(line, n) == line_text(line, n - 1) + last.text@);
    }
}

/// What stands in for the tail of a wide character adds nothing to a line.
pub proof fn tails_have_no_text(line: Seq<SnapshotCell>, cell: SnapshotCell)
    ensures
        line_text(line.push(cell), line.len() as int + 1) == (if cell.wide == CellWide::SpacerTail {
            line_text(line, line.len() as int)
        } else {
            line_text(line, line.len() as int) + cell.text@
        }),
{
    same_start(line, line.push(cell), line.len() as int);
    assert(line_text(line, line.len() as int) + Seq::<char>::empty() =~= line_text(
        line,
        line.len() as int,
    ));
}

proof fn same_start(a: Seq<SnapshotCell>, b: Seq<SnapshotCell>, n: int)
    requires
        0 <= n <= a.len(),
        n <= b.len(),
        forall|i: int| 0 <= i < n ==> #[trigger] a[i] == b[i],
    ensures
        line_text(a, n) == line_text(b, n),
    decreases n,
{
    if n > 0 {
        same_start(a, b, n - 1);
        assert(a[n - 1] == b[n - 1]);
    }
}

/// The text of the screen, cut at its line breaks, is the text of its lines.
pub proof fn lines_split_back(lines: Seq<Vec<SnapshotCell>>, i: int)
    requires
        0 <= i < lines.len(),
        forall|k: int|
            0 <= k < lines.len() ==> !(#[trigger] line_text(
                lines[k]@,
                lines[k]@.len() as int,
            )).contains('\n'),
    ensures
        ({
            let all = text::fields(
                lines_text(lines, lines.len() as int, lines.len() as int),
                '\n',
            );
            all.len() == lines.len() && all[i] == line_text(lines[i]@, lines[i]@.len() as int)
        }),
{
    let rows = lines.len() as int;
    split_upto(lines, rows, rows, i);
}

proof fn split_upto(lines: Seq<Vec<SnapshotCell>>, rows: int, n: int, i: int)
    requires
        0 <= i < n <= rows,
        rows == lines.len(),
        forall|k: int|
            0 <= k < lines.len() ==> !(#[trigger] line_text(
                lines[k]@,
                lines[k]@.len() as int,
            )).contains('\n'),
    ensures
        ({
            let head = lines_text(lines, rows, n - 1) + line_text(
                lines[n - 1]@,
                lines[n - 1]@.len() as int,
            );
            let all = text::fields(head, '\n');
            all.len() == n && all[i] == line_text(lines[i]@, lines[i]@.len() as int)
        }),
    decreases n,
{
    let last = line_text(lines[n - 1]@, lines[n - 1]@.len() as int);
    let head = lines_text(lines, rows, n - 1) + last;
    if n == 1 {
        assert(head =~= last);
        text::index_of_is_first(last, '\n');
        assert(text::index_of(last, '\n') == last.len()) by {
            if text::index_of(last, '\n') < last.len() {
                assert(last.contains(last[text::index_of(last, '\n')]));
            }
        }
        assert(text::fields(last, '\n') == seq![last]);
    } else {
        let before = lines_text(lines, rows, n - 2) + line_text(
            lines[n - 2]@,
            lines[n - 2]@.len() as int,
        );
        assert(lines_text(lines, rows, n - 1) == before.push('\n'));
        text::last_field(before, '\n', last);
        split_upto(
            lines,
            rows,
            n - 1,
            if i < n - 1 {
                i
            } else {
                0
            },
        );
    }
}

/// A default colour is left to the terminal outside exactly where the program has set none, or the one
/// that the terminal has, or where that one is not known.
pub proof fn unchanged_defaults_are_left(c: RgbColor, host: RgbColor)
    ensures
        default_color(Some(c), Some(host)) == Color::Reset <==> c == host,
        c != host ==> default_color(Some(c), Some(host)) == Color::Rgb(c.r, c.g, c.b),
        default_color(None, Some(host)) == Color::Reset,
        default_color(Some(c), None) == Color::Reset,
        default_color(None, None) == Color::Reset,
{
}

/// The cursor has the shape that the program asked for, and is a block where that is none of the
/// others.
pub proof fn cursors_have_their_shapes(visual: Option<CursorVisual>)
    ensures
        shape_of(visual) == CursorShape::Bar <==> visual == Some(CursorVisual::Bar),
        shape_of(visual) == CursorShape::Underline <==> visual == Some(CursorVisual::Underline),
{
}

/// Each cell of the screen is the one that the emulator tells in that row and column, and blank where
/// it tells none.
pub proof fn screens_show_the_lines(s: Snapshot, row: int, col: int)
    requires
        0 <= row,
        0 <= col,
    ensures
        row < s.lines@.len() && col < s.lines@[row]@.len() ==> screen_cell(s, row, col).contents
            == s.lines@[row]@[col].text@ && screen_cell(s, row, col).look.bold
            == s.lines@[row]@[col].style.bold,
        row >= s.lines@.len() || col >= s.lines@[row]@.len() ==> screen_cell(
            s,
            row,
            col,
        ).contents.len() == 0,
{
}

} // verus!
