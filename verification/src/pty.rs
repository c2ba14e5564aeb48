//! The size of a shell's terminal.

use crate::geometry;
use crate::terminal_theme::CellPixelSize;
use vstd::prelude::*;

verus! {

/// The size of a pseudo-terminal, in cells and in pixels.
#[derive(Debug, Clone, Copy, PartialEq, Eq, Structural)]
pub struct PtyDims {
    pub rows: u16,
    pub cols: u16,
    pub pixel_width: u16,
    pub pixel_height: u16,
}

/// The pixels of so many cells, as far as they can be told.
pub open spec fn pixels(cells: int, size: int) -> int {
    geometry::min_of(cells * size, 0xffff)
}

/// The size for so many rows and columns.
pub open spec fn dims_for(rows: int, cols: int, cell: CellPixelSize) -> PtyDims {
    PtyDims {
        rows: rows as u16,
        cols: cols as u16,
        pixel_width: pixels(cols, cell.width as int) as u16,
        pixel_height: pixels(rows, cell.height as int) as u16,
    }
}

fn pixels_of(cells: u16, size: u32) -> (r: u16)
    ensures
        r == pixels(cells as int, size as int),
{
    assert(0 <= cells * size <= 0xffff * 0xffff_ffff) by (nonlinear_arith)
        requires
            cells <= 0xffff,
            size <= 0xffff_ffff,
    ;
    let all: u64 = cells as u64 * size as u64;
    if all < 0xffff {
        all as u16
    } else {
        0xffff
    }
}

/// The size to set: only where it differs from the current one, and has rows and columns.
pub fn resize(current: PtyDims, rows: u16, cols: u16, cell: CellPixelSize) -> (r: Option<PtyDims>)
    ensures
        r == (if rows > 0 && cols > 0 && dims_for(rows as int, cols as int, cell) != current {
            Some(dims_for(rows as int, cols as int, cell))
        } else {
            None
        }),
{
    let dims = PtyDims {
        rows,
        cols,
        pixel_width: pixels_of(cols, cell.width),
        pixel_height: pixels_of(rows, cell.height),
    };
    if dims != current && rows > 0 && cols > 0 {
        Some(dims)
    } else {
        None
    }
}

/// The pixels are those of all cells, as far as so many can be told, and the rows and columns are the
/// ones that were asked for.
pub proof fn pixels_go_with_the_cells(rows: int, cols: int, cell: CellPixelSize)
    requires
        0 <= rows <= 0xffff,
        0 <= cols <= 0xffff,
    ensures
        ({
            let dims = dims_for(rows, cols, cell);
            &&& dims.rows == rows
            &&& dims.cols == cols
            &&& cols * cell.width <= 0xffff ==> dims.pixel_width == cols * cell.width
            &&& cols * cell.width > 0xffff ==> dims.pixel_width == 0xffff
            &&& rows * cell.height <= 0xffff ==> dims.pixel_height == rows * cell.height
            &&& rows * cell.height > 0xffff ==> dims.pixel_height == 0xffff
        }),
{
    assert(0 <= cols * cell.width) by (nonlinear_arith)
        requires
            0 <= cols,
    ;
    assert(0 <= rows * cell.height) by (nonlinear_arith)
        requires
            0 <= rows,
    ;
}

} // verus!
