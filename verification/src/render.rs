//! Drawing a screen into an area: which cell shows what, in which colours.

use crate::color::{Color, RgbColor};
use crate::geometry;
use crate::geometry::Rect;
use crate::term::{CellWideKind, GridPoint, GridSelection, TermCellView, TermColor, TermScreen};
use vstd::prelude::*;

verus! {

/// The style of a drawn cell.
#[derive(Debug, Clone, Copy, PartialEq, Eq, Structural)]
pub struct DrawStyle {
    pub fg: Color,
    pub bg: Color,
    pub underline_color: Option<Color>,
    pub reversed: bool,
    pub bold: bool,
    pub dim: bool,
    pub italic: bool,
    pub underlined: bool,
    pub slow_blink: bool,
    pub hidden: bool,
    pub crossed_out: bool,
}

/// Something to draw in a cell of the terminal outside.
#[derive(Debug, PartialEq, Eq)]
pub enum Paint {
    /// A text, in a cell that is cleared first.
    Cell { x: u16, y: u16, symbol: String, style: DrawStyle },
    /// Nothing: the wide text before it covers the cell.
    Tail { x: u16, y: u16 },
}

/// What is drawn.
pub enum PaintView {
    Cell { x: int, y: int, symbol: Seq<char>, style: DrawStyle },
    Tail { x: int, y: int },
}

impl View for Paint {
    type V = PaintView;

    open spec fn view(&self) -> PaintView {
        match self {
            Paint::Cell { x, y, symbol, style } => PaintView::Cell {
                x: *x as int,
                y: *y as int,
                symbol: symbol@,
                style: *style,
            },
            Paint::Tail { x, y } => PaintView::Tail { x: *x as int, y: *y as int },
        }
    }
}

/// What a list of paints draws.
pub open spec fn paints_view(list: Seq<Paint>) -> Seq<PaintView> {
    Seq::new(list.len(), |i: int| list[i]@)
}

/// A channel of a colour, mixed with three tenths of grey.
pub open spec fn greyed(channel: int) -> int {
    (channel * 7 + 128 * 3) / 10
}

/// The background of a selected cell: its own, else the default of the terminal, else a dark one,
/// mixed with grey.
pub open spec fn selected_bg(bg: Color, default_bg: Color) -> Color {
    match (bg, default_bg) {
        (Color::Rgb(r, g, b), _) => Color::Rgb(
            greyed(r as int) as u8,
            greyed(g as int) as u8,
            greyed(b as int) as u8,
        ),
        (_, Color::Rgb(r, g, b)) => Color::Rgb(
            greyed(r as int) as u8,
            greyed(g as int) as u8,
            greyed(b as int) as u8,
        ),
        _ => Color::Rgb(greyed(40) as u8, greyed(42) as u8, greyed(54) as u8),
    }
}

fn grey(channel: u8) -> (r: u8)
    ensures
        r == greyed(channel as int),
{
    ((channel as u16 * 7 + 128 * 3) / 10) as u8
}

/// The background of a selected cell.
pub fn blend_selection_bg(bg: Color, default_bg: Color) -> (r: Color)
    ensures
        r == selected_bg(bg, default_bg),
{
    let (r, g, b) = match bg {
        Color::Rgb(r, g, b) => (r, g, b),
        _ => match default_bg {
            Color::Rgb(r, g, b) => (r, g, b),
            _ => (40, 42, 54),
        },
    };
    Color::Rgb(grey(r), grey(g), grey(b))
}

/// A screen to draw, with what is selected in it.
pub struct TermView<'a> {
    pub screen: &'a TermScreen,
    pub selection: Option<GridSelection>,
    /// The background that the terminal outside is taken to have.
    pub default_bg: Color,
}

impl<'a> TermView<'a> {
    /// Whether a cell is selected.
    pub open spec fn selects(&self, row: int, col: int) -> bool {
        self.selection is Some && self.selection->0.holds(
            GridPoint { row: row as u16, col: col as u16 },
        )
    }

    /// The colours of a cell: its own, else the defaults; exchanged in an inverse cell. An inverse
    /// cell whose two colours are the same is left to the terminal outside to reverse, unless it is
    /// selected.
    pub open spec fn style_of(&self, cell: TermCellView, selected: bool) -> DrawStyle {
        let look = cell.look;
        let own_fg = match look.fg {
            Some(c) => c.drawn(),
            None => self.screen.default_fg,
        };
        let own_bg = match look.bg {
            Some(c) => c.drawn(),
            None => self.screen.default_bg,
        };
        let reversed = look.inverse && own_fg == own_bg && !selected;
        let swapped = look.inverse && !reversed;
        let bg = if swapped {
            own_fg
        } else {
            own_bg
        };
        DrawStyle {
            fg: if swapped {
                own_bg
            } else {
                own_fg
            },
            bg: if selected {
                selected_bg(bg, self.default_bg)
            } else {
                bg
            },
            underline_color: match look.underline_color {
                Some(c) => Some(c.drawn()),
                None => None,
            },
            reversed,
            bold: look.bold,
            dim: look.faint,
            italic: look.italic,
            underlined: look.underline,
            slow_blink: look.blink,
            hidden: look.invisible,
            crossed_out: look.strikethrough,
        }
    }

    /// What is drawn for a cell of the screen.
    pub open spec fn cell_paints(&self, area: Rect, row: int, col: int) -> Seq<PaintView> {
        match self.screen.cell_at(row, col) {
            Some(cell) => if cell.wide == CellWideKind::Spacer {
                Seq::empty()
            } else {
                let here = PaintView::Cell {
                    x: area.x + col,
                    y: area.y + row,
                    symbol: if cell.contents.len() == 0 {
                        seq![' ']
                    } else {
                        cell.contents
                    },
                    style: self.style_of(cell, self.selects(row, col)),
                };
                if cell.wide == CellWideKind::Wide && col + 1 < area.width {
                    seq![here, PaintView::Tail { x: area.x + col + 1, y: area.y + row }]
                } else {
                    seq![here]
                }
            },
            None => Seq::empty(),
        }
    }

    /// What is drawn for the first `n` columns of a row.
    pub open spec fn row_paints(&self, area: Rect, row: int, n: int) -> Seq<PaintView>
        decreases n,
    {
        if n <= 0 {
            Seq::empty()
        } else {
            self.row_paints(area, row, n - 1) + self.cell_paints(area, row, n - 1)
        }
    }

    /// What is drawn for the first `n` rows.
    pub open spec fn rows_paints(&self, area: Rect, n: int) -> Seq<PaintView>
        decreases n,
    {
        if n <= 0 {
            Seq::empty()
        } else {
            self.rows_paints(area, n - 1) + self.row_paints(
                area,
                n - 1,
                geometry::min_of(self.screen.cols as int, area.width as int),
            )
        }
    }

    /// What to draw to show the screen in the area: row by row, as much of it as there is room for.
    pub fn render(&self, area: Rect) -> (r: Vec<Paint>)
        requires
            self.screen.wf(),
            area.wf(),
        ensures
            paints_view(r@) == self.rows_paints(
                area,
                geometry::min_of(self.screen.rows as int, area.height as int),
            ),
            forall|row: int, col: int|
                0 <= row < self.screen.rows && row < area.height && 0 <= col < self.screen.cols
                    && col < area.width && (#[trigger] self.screen.cell_at(row, col)->0).wide
                    != CellWideKind::Spacer ==> exists|i: int|
                    {
                        &&& 0 <= i < r@.len()
                        &&& (#[trigger] r@[i])@ matches PaintView::Cell { x, y, symbol, style }
                        &&& x == area.x + col
                        &&& y == area.y + row
                        &&& symbol == (if self.screen.cell_at(row, col)->0.contents.len() == 0 {
                            seq![' ']
                        } else {
                            self.screen.cell_at(row, col)->0.contents
                        })
                    },
    {
        let (rows, cols) = self.screen.size();
        let rows: u16 = geometry::min_u16(rows, area.height);
        let cols: u16 = geometry::min_u16(cols, area.width);
        let mut out: Vec<Paint> = Vec::new();
        let mut row: u16 = 0;
        assert(paints_view(out@) =~= Seq::empty());
        while row < rows
            invariant
                row <= rows,
                rows == geometry::min_of(self.screen.rows as int, area.height as int),
                cols == geometry::min_of(self.screen.cols as int, area.width as int),
                self.screen.wf(),
                area.wf(),
                paints_view(out@) == self.rows_paints(area, row as int),
            decreases rows - row,
        {
            let ghost before = paints_view(out@);
            let mut col: u16 = 0;
            assert(before + self.row_paints(area, row as int, 0) =~= before);
            while col < cols
                invariant
                    col <= cols,
                    row < rows,
                    rows == geometry::min_of(self.screen.rows as int, area.height as int),
                    cols == geometry::min_of(self.screen.cols as int, area.width as int),
                    self.screen.wf(),
                    area.wf(),
                    paints_view(out@) == before + self.row_paints(area, row as int, col as int),
                decreases cols - col,
            {
                let ghost so_far = paints_view(out@);
                self.paint_cell(area, row, col, &mut out);
                col = col + 1;
                assert(paints_view(out@) =~= before + self.row_paints(
                    area,
                    row as int,
                    col as int,
                ));
            }
            row = row + 1;
        }
        proof {
            let all = self.rows_paints(area, rows as int);
            assert forall|row: int, col: int|
                0 <= row < self.screen.rows && row < area.height && 0 <= col < self.screen.cols
                    && col < area.width && (#[trigger] self.screen.cell_at(row, col)->0).wide
                    != CellWideKind::Spacer implies exists|i: int|
                {
                    &&& 0 <= i < out@.len()
                    &&& (#[trigger] out@[i])@ matches PaintView::Cell { x, y, symbol, style }
                    &&& x == area.x + col
                    &&& y == area.y + row
                    &&& symbol == (if self.screen.cell_at(row, col)->0.contents.len() == 0 {
                        seq![' ']
                    } else {
                        self.screen.cell_at(row, col)->0.contents
                    })
                } by {
                every_cell_is_shown(*self, area, row, col);
                let i = choose|i: int|
                    {
                        &&& 0 <= i < all.len()
                        &&& #[trigger] all[i] matches PaintView::Cell { x, y, symbol, style }
                        &&& x == area.x + col
                        &&& y == area.y + row
                        &&& symbol == (if self.screen.cell_at(row, col)->0.contents.len() == 0 {
                            seq![' ']
                        } else {
                            self.screen.cell_at(row, col)->0.contents
                        })
                    };
                assert(out@[i]@ == all[i]);
            }
        }
        out
    }

    fn paint_cell(&self, area: Rect, row: u16, col: u16, out: &mut Vec<Paint>)
        requires
            self.screen.wf(),
            area.wf(),
            row < self.screen.rows,
            row < area.height,
            col < self.screen.cols,
            col < area.width,
        ensures
            paints_view(final(out)@) == paints_view(old(out)@) + self.cell_paints(
                area,
                row as int,
                col as int,
            ),
    {
        let ghost before = paints_view(out@);
        let cell = match self.screen.cell(row, col) {
            Some(cell) => cell,
            None => return,
        };
        match cell.wide {
            CellWideKind::Spacer => {
                assert(paints_view(out@) =~= before + Seq::<PaintView>::empty());
                return;
            },
            _ => {},
        }
        let x: u16 = area.x + col;
        let y: u16 = area.y + row;
        let symbol = if cell.contents.as_str().is_empty() {
            " ".to_string()
        } else {
            cell.contents.clone()
        };
        proof {
            reveal_strlit(" ");
            assert(" "@ =~= seq![' ']);
        }
        let look = cell.look;
        let mut fg = match look.fg {
            Some(c) => c.color(),
            None => self.screen.default_fg,
        };
        let mut bg = match look.bg {
            Some(c) => c.color(),
            None => self.screen.default_bg,
        };
        let selected = match self.selection {
            Some(selection) => selection.contains(GridPoint { row, col }),
            None => false,
        };
        let reversed = look.inverse && fg == bg && !selected;
        if look.inverse && !reversed {
            let old_fg = fg;
            fg = bg;
            bg = old_fg;
        }
        if selected {
            bg = blend_selection_bg(bg, self.default_bg);
        }
        let style = DrawStyle {
            fg,
            bg,
            underline_color: match look.underline_color {
                Some(c) => Some(c.color()),
                None => None,
            },
            reversed,
            bold: look.bold,
            dim: look.faint,
            italic: look.italic,
            underlined: look.underline,
            slow_blink: look.blink,
            hidden: look.invisible,
            crossed_out: look.strikethrough,
        };
        let here = Paint::Cell { x, y, symbol, style };
        let ghost here_view = here@;
        out.push(here);
        assert(paints_view(out@) =~= before.push(here_view));
        match cell.wide {
            CellWideKind::Wide => {
                if col + 1 < area.width {
                    out.push(Paint::Tail { x: x + 1, y });
                    assert(paints_view(out@) =~= before + self.cell_paints(
                        area,
                        row as int,
                        col as int,
                    ));
                }
            },
            _ => {},
        }
        assert(paints_view(out@) =~= before + self.cell_paints(area, row as int, col as int));
    }
}

/// Whether something is drawn inside an area.
pub open spec fn drawn_in(paint: PaintView, area: Rect) -> bool {
    match paint {
        PaintView::Cell { x, y, .. } => area.has(x, y),
        PaintView::Tail { x, y } => area.has(x, y),
    }
}

/// A screen is drawn inside its area only.
pub proof fn drawing_stays_inside<'a>(view: TermView<'a>, area: Rect)
    requires
        area.wf(),
    ensures
        ({
            let all = view.rows_paints(
                area,
                geometry::min_of(view.screen.rows as int, area.height as int),
            );
            forall|i: int| 0 <= i < all.len() ==> drawn_in(#[trigger] all[i], area)
        }),
{
    rows_inside(view, area, geometry::min_of(view.screen.rows as int, area.height as int));
}

proof fn rows_inside<'a>(view: TermView<'a>, area: Rect, n: int)
    requires
        area.wf(),
        n <= area.height,
    ensures
        forall|i: int|
            0 <= i < view.rows_paints(area, n).len() ==> drawn_in(
                #[trigger] view.rows_paints(area, n)[i],
                area,
            ),
    decreases n,
{
    if n > 0 {
        let cols = geometry::min_of(view.screen.cols as int, area.width as int);
        rows_inside(view, area, n - 1);
        row_inside(view, area, n - 1, cols);
        let a = view.rows_paints(area, n - 1);
        let b = view.row_paints(area, n - 1, cols);
        assert forall|i: int| 0 <= i < view.rows_paints(area, n).len() implies drawn_in(
            #[trigger] view.rows_paints(area, n)[i],
            area,
        ) by {
            if i >= a.len() {
                assert(view.rows_paints(area, n)[i] == b[i - a.len()]);
            }
        }
    }
}

proof fn row_inside<'a>(view: TermView<'a>, area: Rect, row: int, n: int)
    requires
        area.wf(),
        0 <= row < area.height,
        n <= area.width,
    ensures
        forall|i: int|
            0 <= i < view.row_paints(area, row, n).len() ==> drawn_in(
                #[trigger] view.row_paints(area, row, n)[i],
                area,
            ),
    decreases n,
{
    if n > 0 {
        row_inside(view, area, row, n - 1);
        let a = view.row_paints(area, row, n - 1);
        let b = view.cell_paints(area, row, n - 1);
        assert forall|i: int| 0 <= i < view.row_paints(area, row, n).len() implies drawn_in(
            #[trigger] view.row_paints(area, row, n)[i],
            area,
        ) by {
            if i >= a.len() {
                assert(view.row_paints(area, row, n)[i] == b[i - a.len()]);
            }
        }
    }
}

/// Every cell of the screen that has room in the area is shown in its place: its text, or a blank
/// where it has none. Cells that a wide character covers show nothing of their own.
pub proof fn every_cell_is_shown<'a>(view: TermView<'a>, area: Rect, row: int, col: int)
    requires
        0 <= row < view.screen.rows,
        row < area.height,
        0 <= col < view.screen.cols,
        col < area.width,
        view.screen.cell_at(row, col)->0.wide != CellWideKind::Spacer,
    ensures
        ({
            let all = view.rows_paints(
                area,
                geometry::min_of(view.screen.rows as int, area.height as int),
            );
            let cell = view.screen.cell_at(row, col)->0;
            exists|i: int|
                {
                    &&& 0 <= i < all.len()
                    &&& #[trigger] all[i] matches PaintView::Cell { x, y, symbol, style }
                    &&& x == area.x + col
                    &&& y == area.y + row
                    &&& symbol == (if cell.contents.len() == 0 {
                        seq![' ']
                    } else {
                        cell.contents
                    })
                }
        }),
{
    let rows = geometry::min_of(view.screen.rows as int, area.height as int);
    let cols = geometry::min_of(view.screen.cols as int, area.width as int);
    let here = view.cell_paints(area, row, col);
    row_holds(view, area, row, cols, col);
    rows_hold(view, area, rows, row);
    let line = view.row_paints(area, row, cols);
    let j = choose|j: int| 0 <= j < line.len() && line[j] == here[0];
    assert(line.contains(line[j]));
    let all = view.rows_paints(area, rows);
    let i = choose|i: int| 0 <= i < all.len() && all[i] == line[j];
    assert(all[i] == here[0]);
}

proof fn row_holds<'a>(view: TermView<'a>, area: Rect, row: int, n: int, col: int)
    requires
        0 <= col < n,
        view.cell_paints(area, row, col).len() > 0,
    ensures
        view.row_paints(area, row, n).contains(view.cell_paints(area, row, col)[0]),
    decreases n,
{
    let x = view.cell_paints(area, row, col)[0];
    let before = view.row_paints(area, row, n - 1);
    let all = view.row_paints(area, row, n);
    if col == n - 1 {
        assert(all[before.len() as int] == x);
    } else {
        row_holds(view, area, row, n - 1, col);
        let i = choose|i: int| 0 <= i < before.len() && before[i] == x;
        assert(all[i] == x);
    }
}

proof fn rows_hold<'a>(view: TermView<'a>, area: Rect, n: int, row: int)
    requires
        0 <= row < n,
    ensures
        ({
            let line = view.row_paints(
                area,
                row,
                geometry::min_of(view.screen.cols as int, area.width as int),
            );
            forall|j: int|
                0 <= j < line.len() ==> view.rows_paints(area, n).contains(#[trigger] line[j])
        }),
    decreases n,
{
    let cols = geometry::min_of(view.screen.cols as int, area.width as int);
    let line = view.row_paints(area, row, cols);
    let before = view.rows_paints(area, n - 1);
    let all = view.rows_paints(area, n);
    if row < n - 1 {
        rows_hold(view, area, n - 1, row);
    }
    assert forall|j: int| 0 <= j < line.len() implies all.contains(#[trigger] line[j]) by {
        if row == n - 1 {
            assert(all[before.len() + j] == line[j]);
        } else {
            let i = choose|i: int| 0 <= i < before.len() && before[i] == line[j];
            assert(all[i] == line[j]);
        }
    }
}

/// Nothing else is shown: what is drawn in a place is the text of the cell of the screen there, with
/// the attributes of that cell, or the cover of the wide character before it.
pub proof fn only_the_screen_is_shown<'a>(view: TermView<'a>, area: Rect, i: int)
    requires
        area.wf(),
        ({
            let all = view.rows_paints(
                area,
                geometry::min_of(view.screen.rows as int, area.height as int),
            );
            0 <= i < all.len()
        }),
    ensures
        ({
            let all = view.rows_paints(
                area,
                geometry::min_of(view.screen.rows as int, area.height as int),
            );
            match all[i] {
                PaintView::Cell { x, y, symbol, style } => {
                    let cell = view.screen.cell_at(y - area.y, x - area.x);
                    &&& cell is Some
                    &&& cell->0.wide != CellWideKind::Spacer
                    &&& symbol == (if cell->0.contents.len() == 0 {
                        seq![' ']
                    } else {
                        cell->0.contents
                    })
                    &&& style.bold == cell->0.look.bold
                    &&& style.dim == cell->0.look.faint
                    &&& style.italic == cell->0.look.italic
                    &&& style.underlined == cell->0.look.underline
                    &&& style.slow_blink == cell->0.look.blink
                    &&& style.hidden == cell->0.look.invisible
                    &&& style.crossed_out == cell->0.look.strikethrough
                },
                PaintView::Tail { x, y } => {
                    let cell = view.screen.cell_at(y - area.y, x - area.x - 1);
                    cell is Some && cell->0.wide == CellWideKind::Wide
                },
            }
        }),
{
    rows_show_the_screen(
        view,
        area,
        geometry::min_of(view.screen.rows as int, area.height as int),
        i,
    );
}

spec fn shows_the_screen<'a>(view: TermView<'a>, area: Rect, paint: PaintView) -> bool {
    exists|row: int, col: int|
        0 <= row < view.screen.rows && 0 <= col < view.screen.cols && #[trigger] view.cell_paints(
            area,
            row,
            col,
        ).contains(paint)
}

proof fn rows_show_the_screen<'a>(view: TermView<'a>, area: Rect, n: int, i: int)
    requires
        area.wf(),
        n <= view.screen.rows,
        0 <= i < view.rows_paints(area, n).len(),
    ensures
        shows_the_screen(view, area, view.rows_paints(area, n)[i]),
    decreases n,
{
    let cols = geometry::min_of(view.screen.cols as int, area.width as int);
    let before = view.rows_paints(area, n - 1);
    if i < before.len() {
        rows_show_the_screen(view, area, n - 1, i);
        assert(view.rows_paints(area, n)[i] == before[i]);
    } else {
        row_shows_the_screen(view, area, n - 1, cols, i - before.len());
        assert(view.rows_paints(area, n)[i] == view.row_paints(area, n - 1, cols)[i
            - before.len()]);
    }
}

proof fn row_shows_the_screen<'a>(view: TermView<'a>, area: Rect, row: int, n: int, i: int)
    requires
        0 <= row < view.screen.rows,
        n <= view.screen.cols,
        0 <= i < view.row_paints(area, row, n).len(),
    ensures
        shows_the_screen(view, area, view.row_paints(area, row, n)[i]),
    decreases n,
{
    let before = view.row_paints(area, row, n - 1);
    let paint = view.row_paints(area, row, n)[i];
    if i < before.len() {
        row_shows_the_screen(view, area, row, n - 1, i);
        assert(paint == before[i]);
    } else {
        let here = view.cell_paints(area, row, n - 1);
        assert(paint == here[i - before.len()]);
        assert(here.contains(paint));
    }
}

/// The colours of a cell: one that is not selected shows its own colours, exchanged where it is
/// inverse; a colour that it lacks is the default of the screen. Selecting a cell changes nothing
/// but its background.
pub proof fn cells_show_their_colours<'a>(view: TermView<'a>, cell: TermCellView)
    ensures
        ({
            let fg = match cell.look.fg {
                Some(TermColor::Indexed(n)) => Color::Indexed(n),
                Some(TermColor::Rgb(c)) => Color::Rgb(c.r, c.g, c.b),
                None => view.screen.default_fg,
            };
            let bg = match cell.look.bg {
                Some(TermColor::Indexed(n)) => Color::Indexed(n),
                Some(TermColor::Rgb(c)) => Color::Rgb(c.r, c.g, c.b),
                None => view.screen.default_bg,
            };
            let plain = view.style_of(cell, false);
            let selected = view.style_of(cell, true);
            &&& !cell.look.inverse ==> plain.fg == fg && plain.bg == bg && !plain.reversed
            &&& cell.look.inverse && fg != bg ==> plain.fg == bg && plain.bg == fg && !plain.reversed
            &&& cell.look.inverse && fg == bg ==> plain.fg == fg && plain.bg == bg && plain.reversed
            &&& fg != bg || !cell.look.inverse ==> selected == (DrawStyle {
                bg: selected.bg,
                ..plain
            })
            &&& !selected.reversed
            &&& plain.underline_color == (match cell.look.underline_color {
                Some(TermColor::Indexed(n)) => Some(Color::Indexed(n)),
                Some(TermColor::Rgb(c)) => Some(Color::Rgb(c.r, c.g, c.b)),
                None => None,
            })
            &&& selected.bg is Rgb
        }),
{
}

/// The background of a selected cell is its colour moved towards grey: each channel lies between the
/// one that it was and the middle, three tenths of the way, and brighter ones stay brighter.
pub proof fn selections_are_greyed(a: RgbColor, b: RgbColor, default_bg: Color)
    ensures
        selected_bg(Color::Rgb(a.r, a.g, a.b), default_bg) matches Color::Rgb(r, g, blue) && 10 * r
            <= 7 * a.r + 3 * 128 < 10 * r + 10 && 10 * g <= 7 * a.g + 3 * 128 < 10 * g + 10 && 10
            * blue <= 7 * a.b + 3 * 128 < 10 * blue + 10,
        a.r <= b.r ==> greyed(a.r as int) <= greyed(b.r as int),
        a.r <= 128 ==> a.r <= greyed(a.r as int) <= 128,
        a.r >= 128 ==> 128 <= greyed(a.r as int) <= a.r,
{
}

/// A cell is drawn with the attributes that it has, selected or not.
pub proof fn cells_keep_their_attributes<'a>(view: TermView<'a>, cell: TermCellView, selected: bool)
    ensures
        ({
            let style = view.style_of(cell, selected);
            &&& style.bold == cell.look.bold
            &&& style.dim == cell.look.faint
            &&& style.italic == cell.look.italic
            &&& style.underlined == cell.look.underline
            &&& style.slow_blink == cell.look.blink
            &&& style.hidden == cell.look.invisible
            &&& style.crossed_out == cell.look.strikethrough
        }),
{
}

/// A cell that is no spacer is drawn once, in the style of its selection; a wide one takes the next
/// column too, where the area has it, and a narrow one does not.
pub proof fn cells_are_drawn_once<'a>(view: TermView<'a>, area: Rect, row: int, col: int)
    requires
        view.screen.cell_at(row, col) is Some,
        0 <= row <= u16::MAX,
        0 <= col <= u16::MAX,
    ensures
        ({
            let cell = view.screen.cell_at(row, col)->0;
            let drawn = view.cell_paints(area, row, col);
            let point = (GridPoint { row: row as u16, col: col as u16 });
            let selected = view.selection is Some && (view.selection->0).first().upto(point)
                && point.upto((view.selection->0).last());
            &&& cell.wide == CellWideKind::Spacer ==> drawn.len() == 0
            &&& cell.wide == CellWideKind::Narrow ==> drawn.len() == 1
            &&& cell.wide == CellWideKind::Wide ==> drawn.len() == (if col + 1 < area.width {
                2int
            } else {
                1
            })
            &&& drawn.len() > 0 ==> drawn[0] is Cell && drawn[0]->Cell_x == area.x + col
                && drawn[0]->Cell_y == area.y + row && drawn[0]->Cell_style == view.style_of(
                cell,
                selected,
            )
            &&& drawn.len() == 2 ==> drawn[1] == (PaintView::Tail {
                x: area.x + col + 1,
                y: area.y + row,
            })
        }),
{
}

} // verus!
