use termul::color::{Color, RgbColor};
use termul::geometry::Rect;
use termul::render::{blend_selection_bg, DrawStyle, Paint, TermView};
use termul::snapshot::{
    screen_of, CellContent, CellStyle, CellWide, CursorVisual, Snapshot, SnapshotCell, StyleColor,
};
use termul::term::{
    CellWideKind, ClipboardTarget, ClipboardWriteRequest, CursorShape, GridPoint, GridSelection,
    TermScreen, TerminalEffects,
};

fn plain() -> CellStyle {
    CellStyle {
        fg: StyleColor::Unset,
        bg: StyleColor::Unset,
        underline_color: StyleColor::Unset,
        bold: false,
        faint: false,
        italic: false,
        underline: false,
        blink: false,
        invisible: false,
        strikethrough: false,
        inverse: false,
    }
}

fn rgb(r: u8, g: u8, b: u8) -> RgbColor {
    RgbColor { r, g, b }
}

fn cell(text: &str, style: CellStyle) -> SnapshotCell {
    SnapshotCell {
        text: text.to_string(),
        wide: CellWide::Narrow,
        content: CellContent::Text,
        style,
    }
}

/// A viewport with these cells and no colours of its own.
fn snapshot(lines: Vec<Vec<SnapshotCell>>) -> Snapshot {
    Snapshot {
        rows: lines.len() as u16,
        cols: lines[0].len() as u16,
        lines,
        active_palette: [rgb(0, 0, 0); 256],
        default_palette: [rgb(0, 0, 0); 256],
        fg: None,
        bg: None,
        reverse: false,
        host_fg: None,
        host_bg: None,
        cursor: Some((0, 0)),
        cursor_visible: true,
        cursor_visual: Some(CursorVisual::Block),
        cursor_blinking: false,
        cursor_color: None,
    }
}

fn style_at(paints: &[Paint], col: u16, line: u16) -> DrawStyle {
    for paint in paints {
        if let Paint::Cell { x, y, style, .. } = paint {
            if *x == col && *y == line {
                return *style;
            }
        }
    }
    panic!("nothing is drawn there");
}

fn drawn(screen: &TermScreen, selection: Option<GridSelection>, default_bg: Color) -> Vec<Paint> {
    let area = Rect::new(0, 0, screen.cols, screen.rows);
    TermView { screen, selection, default_bg }.render(area)
}

#[test]
fn renders_truecolor_and_dim_attributes() {
    let style = CellStyle { fg: StyleColor::Rgb(rgb(12, 34, 56)), faint: true, ..plain() };
    let screen = screen_of(&snapshot(vec![vec![cell("X", style), cell("", plain())]]));
    let paints = drawn(&screen, None, Color::Rgb(40, 42, 54));
    let cell = style_at(&paints, 0, 0);
    assert_eq!(cell.fg, Color::Rgb(12, 34, 56));
    assert!(cell.dim);
}

#[test]
fn renders_extended_text_attributes_and_underline_color() {
    let style = CellStyle {
        italic: true,
        underline: true,
        blink: true,
        invisible: true,
        strikethrough: true,
        underline_color: StyleColor::Rgb(rgb(10, 20, 30)),
        ..plain()
    };
    let screen = screen_of(&snapshot(vec![vec![cell("X", style)]]));
    let cell = style_at(&drawn(&screen, None, Color::Reset), 0, 0);
    assert_eq!(cell.underline_color, Some(Color::Rgb(10, 20, 30)));
    assert!(cell.italic);
    assert!(cell.underlined);
    assert!(cell.slow_blink);
    assert!(cell.hidden);
    assert!(cell.crossed_out);
}

#[test]
fn selection_contains_points_in_both_drag_directions() {
    let start = GridPoint { row: 1, col: 2 };
    let end = GridPoint { row: 2, col: 1 };
    let forward = GridSelection { anchor: start, end };
    let backward = GridSelection { anchor: end, end: start };

    for selection in [forward, backward] {
        assert!(selection.contains(start));
        assert!(selection.contains(GridPoint { row: 1, col: 7 }));
        assert!(selection.contains(end));
        assert!(!selection.contains(GridPoint { row: 1, col: 1 }));
        assert!(!selection.contains(GridPoint { row: 2, col: 2 }));
    }
    assert_eq!(forward.ordered(), backward.ordered());
}

#[test]
fn selection_blends_gray_over_rendered_background() {
    let style = CellStyle {
        fg: StyleColor::Rgb(rgb(12, 34, 56)),
        bg: StyleColor::Rgb(rgb(60, 70, 80)),
        ..plain()
    };
    let screen = screen_of(&snapshot(vec![vec![cell("X", style), cell("Y", style)]]));
    let selection = GridSelection {
        anchor: GridPoint { row: 0, col: 0 },
        end: GridPoint { row: 0, col: 0 },
    };
    let paints = drawn(&screen, Some(selection), Color::Rgb(40, 42, 54));

    assert_eq!(style_at(&paints, 0, 0).fg, Color::Rgb(12, 34, 56));
    assert_eq!(style_at(&paints, 0, 0).bg, Color::Rgb(80, 87, 94));
    assert_eq!(style_at(&paints, 1, 0).fg, Color::Rgb(12, 34, 56));
    assert_eq!(style_at(&paints, 1, 0).bg, Color::Rgb(60, 70, 80));
}

#[test]
fn selection_blends_gray_over_default_terminal_background() {
    let screen = screen_of(&snapshot(vec![vec![cell("X", plain())]]));
    let selection = GridSelection::new(GridPoint { row: 0, col: 0 });
    let paints = drawn(&screen, Some(selection), Color::Rgb(40, 42, 54));
    assert_eq!(style_at(&paints, 0, 0).bg, Color::Rgb(66, 67, 76));
    assert_eq!(blend_selection_bg(Color::Reset, Color::Rgb(40, 42, 54)), Color::Rgb(66, 67, 76));
    assert_eq!(blend_selection_bg(Color::Reset, Color::Reset), Color::Rgb(66, 67, 76));
}

/// A row of a screen: wide characters take two cells.
fn row(text: &str, cols: usize) -> Vec<SnapshotCell> {
    let mut cells = Vec::new();
    for c in text.chars() {
        let wide = ('\u{4e00}'..='\u{9fff}').contains(&c);
        let mut first = cell(&c.to_string(), plain());
        if wide {
            first.wide = CellWide::Wide;
        }
        cells.push(first);
        if wide {
            let mut tail = cell("", plain());
            tail.wide = CellWide::SpacerTail;
            cells.push(tail);
        }
    }
    while cells.len() < cols {
        cells.push(cell("", plain()));
    }
    cells
}

#[test]
fn selected_text_handles_reverse_drag_rows_and_wide_cells() {
    let screen = screen_of(&snapshot(vec![row("ab中 d", 8), row("ef", 8)]));
    let selection = GridSelection {
        anchor: GridPoint { row: 1, col: 1 },
        end: GridPoint { row: 0, col: 1 },
    };
    assert_eq!(screen.selected_text(selection), "b中 d\nef");
    let forward = GridSelection { anchor: selection.end, end: selection.anchor };
    assert_eq!(screen.selected_text(forward), "b中 d\nef");
}

#[test]
fn wide_characters_cover_two_cells() {
    let screen = screen_of(&snapshot(vec![row("中a", 4)]));
    assert_eq!(screen.cell(0, 0).unwrap().wide, CellWideKind::Wide);
    assert_eq!(screen.cell_text(0, 0), Some("中"));
    assert_eq!(screen.cell_text(0, 2), Some("a"));
    assert!(screen.cell(1, 0).is_none());
    let paints = drawn(&screen, None, Color::Reset);
    assert!(paints.contains(&Paint::Tail { x: 1, y: 0 }));
}

#[test]
fn keeps_host_palette_index_and_flattens_child_override() {
    let style = CellStyle { fg: StyleColor::Palette(1), ..plain() };
    let mut shown = snapshot(vec![vec![cell("X", style), cell("", plain())]]);
    shown.active_palette[1] = rgb(12, 34, 56);
    shown.default_palette[1] = rgb(12, 34, 56);
    let screen = screen_of(&shown);
    assert_eq!(style_at(&drawn(&screen, None, Color::Reset), 0, 0).fg, Color::Indexed(1));

    shown.active_palette[1] = rgb(0xaa, 0xbb, 0xcc);
    let screen = screen_of(&shown);
    assert_eq!(style_at(&drawn(&screen, None, Color::Reset), 0, 0).fg, Color::Rgb(0xaa, 0xbb, 0xcc));
}

#[test]
fn reverse_screen_mode_swaps_host_default_colors() {
    let mut shown = snapshot(vec![vec![cell("", plain())]]);
    shown.host_fg = Some(rgb(220, 221, 222));
    shown.host_bg = Some(rgb(10, 11, 12));
    shown.fg = shown.host_fg;
    shown.bg = shown.host_bg;
    shown.reverse = true;
    let screen = screen_of(&shown);
    assert_eq!(screen.default_fg, Color::Rgb(10, 11, 12));
    assert_eq!(screen.default_bg, Color::Rgb(220, 221, 222));
}

#[test]
fn host_default_uses_reset_but_child_override_uses_rgb() {
    let mut shown = snapshot(vec![vec![cell("", plain())]]);
    shown.host_bg = Some(rgb(40, 42, 54));
    shown.bg = Some(rgb(40, 42, 54));
    assert_eq!(screen_of(&shown).default_bg, Color::Reset);

    shown.bg = Some(rgb(0xaa, 0xbb, 0xcc));
    assert_eq!(screen_of(&shown).default_bg, Color::Rgb(0xaa, 0xbb, 0xcc));
}

#[test]
fn tracks_cursor_shape_and_blinking() {
    let mut shown = snapshot(vec![vec![cell("", plain())]]);
    shown.cursor_visual = Some(CursorVisual::Bar);
    shown.cursor_blinking = true;
    let screen = screen_of(&shown);
    assert_eq!(screen.cursor_shape(), CursorShape::Bar);
    assert!(screen.cursor_blinking());
    shown.cursor_visual = Some(CursorVisual::Underline);
    shown.cursor_blinking = false;
    let screen = screen_of(&shown);
    assert_eq!(screen.cursor_shape(), CursorShape::Underline);
    assert!(!screen.cursor_blinking());
}

#[test]
fn a_cursor_outside_the_viewport_is_hidden() {
    let mut shown = snapshot(vec![vec![cell("", plain())]]);
    shown.cursor = None;
    let screen = screen_of(&shown);
    assert!(screen.hide_cursor());
    assert_eq!(screen.cursor_position(), (0, 0));
    assert_eq!(screen.size(), (1, 1));
}

#[test]
fn surfaces_terminal_effects_from_ghostty_callbacks() {
    let mut effects = TerminalEffects::default();
    effects.append(TerminalEffects { bell_count: 1, ..TerminalEffects::default() });
    effects.append(TerminalEffects {
        title: Some("build log".to_string()),
        ..TerminalEffects::default()
    });
    effects.append(TerminalEffects {
        cwd: Some("file://localhost/tmp".to_string()),
        ..TerminalEffects::default()
    });
    effects.append(TerminalEffects {
        clipboard_writes: vec![ClipboardWriteRequest {
            target: ClipboardTarget::Standard,
            data: b"hello".to_vec(),
        }],
        ..TerminalEffects::default()
    });

    assert_eq!(effects.bell_count, 1);
    assert_eq!(effects.title.as_deref(), Some("build log"));
    assert_eq!(effects.cwd.as_deref(), Some("file://localhost/tmp"));
    assert_eq!(
        effects.clipboard_writes,
        [ClipboardWriteRequest {
            target: ClipboardTarget::Standard,
            data: b"hello".to_vec(),
        }]
    );
}

#[test]
fn an_area_smaller_than_the_screen_cuts_it_off() {
    let screen = screen_of(&snapshot(vec![row("abcd", 4), row("efgh", 4)]));
    let area = Rect::new(5, 6, 2, 1);
    let paints = TermView { screen: &screen, selection: None, default_bg: Color::Reset }.render(area);
    for paint in &paints {
        let (x, y) = match paint {
            Paint::Cell { x, y, .. } => (*x, *y),
            Paint::Tail { x, y } => (*x, *y),
        };
        assert!((5..7).contains(&x) && y == 6);
    }
    assert_eq!(paints.len(), 2);
}
