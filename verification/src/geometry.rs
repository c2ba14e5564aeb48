//! Screen rectangles in cells: construction, borders, hit-testing and the placement of popups.

use vstd::prelude::*;

verus! {

/// The largest coordinate that a screen can have.
pub const MAX_COORD: u16 = 65535;

/// A rectangle of terminal cells: its top left cell, and how many columns and rows it has.
#[derive(Clone, Copy, Debug, PartialEq, Eq, Structural)]
pub struct Rect {
    pub x: u16,
    pub y: u16,
    pub width: u16,
    pub height: u16,
}

/// The smaller of two integers.
pub open spec fn min_of(a: int, b: int) -> int {
    if a <= b {
        a
    } else {
        b
    }
}

/// The larger of two integers.
pub open spec fn max_of(a: int, b: int) -> int {
    if a >= b {
        a
    } else {
        b
    }
}

/// `a - b`, or zero where that would be negative.
pub open spec fn minus(a: int, b: int) -> int {
    if a >= b {
        a - b
    } else {
        0
    }
}

pub fn min_u16(a: u16, b: u16) -> (r: u16)
    ensures
        r == min_of(a as int, b as int),
{
    if a <= b {
        a
    } else {
        b
    }
}

pub fn max_u16(a: u16, b: u16) -> (r: u16)
    ensures
        r == max_of(a as int, b as int),
{
    if a >= b {
        a
    } else {
        b
    }
}

impl Rect {
    /// The rectangle ends inside the coordinate range. Every rectangle made by [`Rect::new`] does.
    pub open spec fn wf(self) -> bool {
        &&& self.x + self.width <= MAX_COORD
        &&& self.y + self.height <= MAX_COORD
    }

    /// The cell in column `col` and row `row` belongs to the rectangle.
    pub open spec fn has(self, col: int, row: int) -> bool {
        &&& self.x <= col < self.x + self.width
        &&& self.y <= row < self.y + self.height
    }

    /// Every cell of `self` belongs to `outer`.
    pub open spec fn inside(self, outer: Rect) -> bool {
        forall|col: int, row: int| #[trigger] self.has(col, row) ==> outer.has(col, row)
    }

    /// The rectangle at `(x, y)` of the given size, cut off at the end of the coordinate range.
    pub open spec fn at(x: int, y: int, width: int, height: int) -> Rect {
        Rect {
            x: x as u16,
            y: y as u16,
            width: min_of(width, MAX_COORD - x) as u16,
            height: min_of(height, MAX_COORD - y) as u16,
        }
    }

    /// The rectangle at `(x, y)`; a width or height that would lead past the last coordinate is
    /// cut off there.
    pub fn new(x: u16, y: u16, width: u16, height: u16) -> (r: Rect)
        ensures
            r == Rect::at(x as int, y as int, width as int, height as int),
            r.wf(),
    {
        Rect { x, y, width: min_u16(width, MAX_COORD - x), height: min_u16(height, MAX_COORD - y) }
    }
}

/// What a border of one cell on each side leaves of `rect`.
pub open spec fn inner_area(rect: Rect) -> Rect {
    Rect {
        x: min_of(min_of(rect.x + 1, rect.x + rect.width), MAX_COORD as int) as u16,
        y: min_of(min_of(rect.y + 1, rect.y + rect.height), MAX_COORD as int) as u16,
        width: minus(rect.width as int, 2) as u16,
        height: minus(rect.height as int, 2) as u16,
    }
}

/// The content area of a bordered rectangle.
pub fn inner_of(rect: Rect) -> (r: Rect)
    ensures
        r == inner_area(rect),
        rect.wf() ==> r.wf() && r.inside(rect),
{
    let x: u16 = min_u16(rect.x.saturating_add(1), rect.x.saturating_add(rect.width));
    let y: u16 = min_u16(rect.y.saturating_add(1), rect.y.saturating_add(rect.height));
    Rect { x, y, width: rect.width.saturating_sub(2), height: rect.height.saturating_sub(2) }
}

/// Whether the cell in column `col` and row `row` belongs to `r`.
pub fn within(r: Rect, col: u16, row: u16) -> (b: bool)
    requires
        r.wf(),
    ensures
        b == r.has(col as int, row as int),
{
    col >= r.x && col < r.x + r.width && row >= r.y && row < r.y + r.height
}

/// The middle cell of a rectangle, as column and row.
pub open spec fn center_of(r: Rect) -> (int, int) {
    (r.x + r.width as int / 2, r.y + r.height as int / 2)
}

/// The middle cell of a rectangle, as column and row.
pub fn center(r: Rect) -> (c: (i32, i32))
    ensures
        (c.0 as int, c.1 as int) == center_of(r),
{
    (r.x as i32 + r.width as i32 / 2, r.y as i32 + r.height as i32 / 2)
}

/// The size a popup of extent `want` gets on a screen of extent `have`: never more than the
/// screen, and at least one cell of room is assumed.
pub open spec fn popup_extent(want: int, have: int) -> int {
    min_of(want, max_of(have, 1))
}

/// Where a popup of extent `len` goes that should open at `at`: there, or moved back so that it
/// ends where the screen ends.
pub open spec fn popup_start(at: int, len: int, screen_end: int) -> int {
    if at + len > screen_end {
        minus(screen_end, len)
    } else {
        at
    }
}

/// Where a popup of `w` by `h` cells goes that should open at `(col, row)` of the screen `s`.
pub open spec fn popup_area(s: Rect, col: int, row: int, w: int, h: int) -> Rect {
    let w = popup_extent(w, s.width as int);
    let h = popup_extent(h, s.height as int);
    Rect::at(
        popup_start(col, w, s.x + s.width),
        popup_start(row, h, s.y + s.height),
        w,
        h,
    )
}

/// The place of a popup of `w` by `h` cells opened at `(col, row)`, kept inside the screen `s`.
pub fn popup_rect(s: Rect, col: u16, row: u16, w: u16, h: u16) -> (r: Rect)
    requires
        s.wf(),
    ensures
        r == popup_area(s, col as int, row as int, w as int, h as int),
        r.wf(),
{
    let w: u16 = min_u16(w, max_u16(s.width, 1));
    let h: u16 = min_u16(h, max_u16(s.height, 1));
    let mut x: u16 = col;
    let mut y: u16 = row;
    if x as u32 + w as u32 > s.x as u32 + s.width as u32 {
        x = (s.x + s.width).saturating_sub(w);
    }
    if y as u32 + h as u32 > s.y as u32 + s.height as u32 {
        y = (s.y + s.height).saturating_sub(h);
    }
    Rect::new(x, y, w, h)
}

/// The place of a popup of `w` by `h` cells in the middle of the screen `s`.
pub open spec fn centered_area(s: Rect, w: int, h: int) -> Rect {
    let w = popup_extent(w, s.width as int);
    let h = popup_extent(h, s.height as int);
    Rect::at(
        s.x + minus(s.width as int, w) / 2,
        s.y + minus(s.height as int, h) / 2,
        w,
        h,
    )
}

/// The place of a popup of `w` by `h` cells in the middle of the screen `s`.
pub fn centered_rect(s: Rect, w: u16, h: u16) -> (r: Rect)
    requires
        s.wf(),
    ensures
        r == centered_area(s, w as int, h as int),
        r.wf(),
{
    let w: u16 = min_u16(w, max_u16(s.width, 1));
    let h: u16 = min_u16(h, max_u16(s.height, 1));
    let x: u16 = s.x + s.width.saturating_sub(w) / 2;
    let y: u16 = s.y + s.height.saturating_sub(h) / 2;
    Rect::new(x, y, w, h)
}

/// A popup that opens inside a screen with at least one cell lies inside that screen.
pub proof fn popup_stays_on_screen(s: Rect, col: u16, row: u16, w: u16, h: u16)
    requires
        s.wf(),
        s.has(col as int, row as int),
    ensures
        popup_area(s, col as int, row as int, w as int, h as int).inside(s),
{
}

/// A popup in the middle of a screen with at least one cell lies inside that screen.
pub proof fn centered_popup_stays_on_screen(s: Rect, w: u16, h: u16)
    requires
        s.wf(),
        s.width > 0,
        s.height > 0,
    ensures
        centered_area(s, w as int, h as int).inside(s),
{
}

/// The place of a list that pops up at the cell `(col, row)`, with `rows` lines of up to `longest`
/// characters inside a border: below the cell, or above it where there is no room below, and moved
/// back from the right end of the screen. The numbers of lines and characters lose their high bits.
pub open spec fn list_popup_area(s: Rect, col: int, row: int, longest: int, rows: int) -> Rect {
    let w = min_of(max_of(longest % 65536 + 4, 8), max_of(s.width as int, 8));
    let h = min_of(rows % 65536 + 2, 0xffff);
    Rect::at(
        popup_start(col, w, s.x + s.width),
        if row + 1 + h > s.y + s.height {
            minus(row, h)
        } else {
            row + 1
        },
        w,
        h,
    )
}

/// The place of a list that pops up at a cell.
pub fn list_popup_rect(s: Rect, col: u16, row: u16, longest: usize, rows: usize) -> (r: Rect)
    requires
        s.wf(),
    ensures
        r == list_popup_area(s, col as int, row as int, longest as int, rows as int),
        r.wf(),
{
    let wanted: u32 = (longest % 65536) as u32 + 4;
    let wanted: u32 = if wanted < 8 {
        8
    } else {
        wanted
    };
    let most: u16 = max_u16(s.width, 8);
    let w: u16 = if wanted < most as u32 {
        wanted as u16
    } else {
        most
    };
    let lines: u32 = (rows % 65536) as u32 + 2;
    let h: u16 = if lines < 0xffff {
        lines as u16
    } else {
        0xffff
    };
    let mut x: u16 = col;
    if x as u32 + w as u32 > s.x as u32 + s.width as u32 {
        x = (s.x + s.width).saturating_sub(w);
    }
    let y: u16 = if row as u32 + 1 + h as u32 > s.y as u32 + s.height as u32 {
        row.saturating_sub(h)
    } else {
        row + 1
    };
    Rect::new(x, y, w, h)
}

/// A list that pops up inside a screen which is wide enough stays between its sides, and lies below
/// or above its cell where there is room.
pub proof fn list_popup_leaves_its_cell_free(s: Rect, col: u16, row: u16, longest: int, rows: int)
    requires
        s.wf(),
        s.has(col as int, row as int),
        s.width >= 8,
        0 <= longest,
        0 <= rows,
    ensures
        ({
            let r = list_popup_area(s, col as int, row as int, longest, rows);
            &&& s.x <= r.x && r.x + r.width <= s.x + s.width
            &&& row >= r.height || row + 1 + r.height <= s.y + s.height ==> !r.has(
                col as int,
                row as int,
            )
        }),
{
}

/// A popup that has room opens where it should, and has the size that it should have. One that has
/// no room there ends where the screen ends.
pub proof fn popups_open_where_they_should(s: Rect, col: u16, row: u16, w: u16, h: u16)
    requires
        s.wf(),
        w <= s.width,
        h <= s.height,
        s.width > 0,
        s.height > 0,
    ensures
        ({
            let r = popup_area(s, col as int, row as int, w as int, h as int);
            &&& col <= MAX_COORD - w && row <= MAX_COORD - h ==> r.width == w && r.height == h
            &&& col + w <= s.x + s.width ==> r.x == col
            &&& col + w > s.x + s.width ==> r.x + r.width == s.x + s.width
            &&& row + h <= s.y + s.height ==> r.y == row
            &&& row + h > s.y + s.height ==> r.y + r.height == s.y + s.height
        }),
{
}

/// A popup in the middle has the size that it should have where there is room, and the same space on
/// both sides, but for one cell.
pub proof fn centered_popups_are_in_the_middle(s: Rect, w: u16, h: u16)
    requires
        s.wf(),
        0 < s.width,
        0 < s.height,
    ensures
        ({
            let r = centered_area(s, w as int, h as int);
            let left = r.x - s.x;
            let right = s.x + s.width - (r.x + r.width);
            let above = r.y - s.y;
            let below = s.y + s.height - (r.y + r.height);
            &&& w <= s.width ==> r.width == w
            &&& w > s.width ==> r.width == s.width
            &&& h <= s.height ==> r.height == h
            &&& h > s.height ==> r.height == s.height
            &&& 0 <= right - left <= 1
            &&& 0 <= below - above <= 1
        }),
{
}

/// A list that pops up has room for its lines: a border and two columns more than the longest line,
/// as far as the screen is wide enough, and a border and all its rows.
pub proof fn list_popups_have_room(s: Rect, col: u16, row: u16, longest: int, rows: int)
    requires
        s.wf(),
        s.has(col as int, row as int),
        s.width >= 8,
        4 <= longest,
        longest + 4 <= s.width,
        0 <= rows,
        rows + 2 <= s.height,
    ensures
        ({
            let r = list_popup_area(s, col as int, row as int, longest, rows);
            &&& r.width == longest + 4
            &&& r.height == rows + 2
            &&& row + 1 + r.height <= s.y + s.height ==> r.y == row + 1
            &&& row + 1 + r.height > s.y + s.height && r.height <= row ==> r.y + r.height == row
            &&& col + r.width <= s.x + s.width ==> r.x == col
        }),
{
}

} // verus!
