use std::ops::Range;
use termul::color::Color;
use termul::input_line::{
    cell_point, click_cursor_index, grapheme_boundaries, input_layout, input_selection_char_range,
    locate_first_input_line, strip_whitespace, width_cells, width_chars, InputState,
};
use termul::term::{
    CellLook, CellWideKind, CursorShape, GridPoint, GridSelection, TermCell, TermScreen,
};

/// The table of a text: every character an element of its own, wide for CJK.
fn measured(text: &str) -> Vec<(usize, u8)> {
    text.chars()
        .map(|c| (1, if ('\u{4e00}'..='\u{9fff}').contains(&c) { 2 } else { 1 }))
        .collect()
}

fn single_line(
    buffer: &str,
    cursor: usize,
    cursor_pos: (u16, u16),
    cols: u16,
    selection: GridSelection,
) -> Option<Range<usize>> {
    input_selection_char_range(
        buffer,
        &measured(buffer),
        cursor,
        cursor_pos,
        cols,
        selection,
        |_, _| None,
    )
    .map(|(chars, _)| chars)
}

fn range(
    buffer: &str,
    cursor: usize,
    cursor_pos: (u16, u16),
    cols: u16,
    selection: GridSelection,
    locate: impl FnOnce(&str, i64) -> Option<i64>,
) -> Option<(Range<usize>, Range<i64>)> {
    input_selection_char_range(
        buffer,
        &measured(buffer),
        cursor,
        cursor_pos,
        cols,
        selection,
        locate,
    )
}

fn sel(anchor: (u16, u16), end: (u16, u16)) -> GridSelection {
    GridSelection {
        anchor: GridPoint {
            row: anchor.0,
            col: anchor.1,
        },
        end: GridPoint {
            row: end.0,
            col: end.1,
        },
    }
}

/// A screen that shows these rows of narrow characters.
fn screen(rows: &[&str], cols: u16, cursor: (u16, u16)) -> TermScreen {
    let mut screen = TermScreen::empty(rows.len() as u16, cols);
    for (row, text) in rows.iter().enumerate() {
        for (col, c) in text.chars().enumerate() {
            screen.cells[row * cols as usize + col].contents = c.to_string();
        }
    }
    screen.cursor = cursor;
    screen
}

#[test]
fn maps_selection_inside_zle_buffer_to_character_range() {
    assert_eq!(
        single_line("abcdef", 6, (0, 8), 10, sel((0, 3), (0, 4))),
        Some(1..3)
    );
    assert_eq!(
        single_line("abcdef", 6, (0, 8), 10, sel((0, 4), (0, 3))),
        Some(1..3)
    );
}

#[test]
fn maps_wrapped_and_wide_input_but_rejects_prompt_cells() {
    assert_eq!(
        single_line("abcdefgh", 8, (2, 3), 5, sel((1, 3), (2, 1))),
        Some(3..7)
    );
    assert_eq!(
        single_line("a界b", 3, (0, 6), 10, sel((0, 4), (0, 4))),
        Some(1..2)
    );
    assert_eq!(
        single_line("abcdef", 6, (0, 8), 10, sel((0, 6), (0, 9))),
        Some(4..6)
    );
    assert_eq!(
        single_line("abcdef", 6, (0, 8), 10, sel((0, 1), (0, 3))),
        None
    );
}

#[test]
fn maps_multiline_buffer_using_cursor_anchor_and_first_line_locator() {
    let buffer = "ab \\\n  cd \\\n  ef";
    let locate = |line: &str, row_end: i64| {
        assert_eq!((line, row_end), ("ab \\", 10));
        Some(2)
    };
    assert_eq!(
        range(buffer, 16, (2, 4), 10, sel((0, 2), (2, 3)), locate),
        Some((0..16, 2..24))
    );
    assert_eq!(
        range(buffer, 16, (2, 4), 10, sel((1, 0), (1, 9)), locate),
        Some((5..12, 10..20))
    );
    assert_eq!(
        range(buffer, 16, (2, 4), 10, sel((0, 0), (2, 3)), locate),
        None
    );
    assert_eq!(
        range(buffer, 16, (2, 4), 10, sel((0, 2), (2, 3)), |_, _| None),
        None
    );
    assert_eq!(
        range(buffer, 16, (2, 4), 10, sel((1, 2), (2, 3)), |_, _| None),
        Some((7..16, 12..24))
    );
    assert_eq!(
        range(buffer, 4, (0, 6), 10, sel((0, 2), (2, 3)), |_, _| {
            panic!("the first line need not be looked for")
        }),
        Some((0..16, 2..24))
    );
}

#[test]
fn multiline_layout_follows_zsh_eager_wrap() {
    assert_eq!(
        range(
            "abcdefgh\nx",
            10,
            (2, 1),
            10,
            sel((0, 2), (2, 0)),
            |_, _| Some(2)
        ),
        Some((0..10, 2..21))
    );
    let buffer = "a\nbbbbbbbbbb\nc";
    let locate = |_: &str, row_end: i64| {
        assert_eq!(row_end, 10);
        Some(2)
    };
    assert_eq!(
        range(buffer, 14, (3, 1), 10, sel((1, 0), (1, 9)), locate),
        Some((2..12, 10..20))
    );
    assert_eq!(
        range(buffer, 14, (3, 1), 10, sel((1, 0), (2, 0)), locate),
        Some((2..13, 10..30))
    );
}

#[test]
fn click_maps_to_nearest_boundary_on_same_row_across_lines() {
    let buffer = "ab \\\n  cd \\\n  ef";
    let locate = |_: &str, _: i64| Some(2);
    let click = |row, col| GridPoint { row, col };
    let table = measured(buffer);
    assert_eq!(
        click_cursor_index(buffer, &table, 16, (2, 4), click(1, 3), 10, locate),
        Some(8)
    );
    assert_eq!(
        click_cursor_index(buffer, &table, 16, (2, 4), click(1, 9), 10, locate),
        Some(11)
    );
    assert_eq!(
        click_cursor_index(buffer, &table, 16, (2, 4), click(0, 0), 10, locate),
        Some(0)
    );
    assert_eq!(
        click_cursor_index(buffer, &table, 16, (2, 4), click(3, 0), 10, locate),
        None
    );
    assert_eq!(
        click_cursor_index(buffer, &table, 16, (2, 4), click(0, 3), 10, |_, _| None),
        None
    );
    assert_eq!(
        click_cursor_index(buffer, &table, 16, (2, 4), click(2, 2), 10, |_, _| None),
        Some(14)
    );
    assert_eq!(
        click_cursor_index(
            "abcdefgh",
            &measured("abcdefgh"),
            8,
            (2, 3),
            click(1, 4),
            5,
            |_, _| None
        ),
        Some(4)
    );
    assert_eq!(
        click_cursor_index(
            "a界b",
            &measured("a界b"),
            3,
            (0, 6),
            click(0, 4),
            10,
            |_, _| None
        ),
        Some(2)
    );
}

#[test]
fn locates_first_input_line_on_screen_after_prompt() {
    let grid = screen(&["$ ab \\", "  cd", "", ""], 12, (1, 4));
    assert_eq!(
        locate_first_input_line(&grid, "ab \\", &measured("ab \\"), 12),
        Some(2)
    );
    assert_eq!(locate_first_input_line(&grid, "zz", &measured("zz"), 12), None);
    assert_eq!(locate_first_input_line(&grid, "", &measured(""), 12), None);

    let grid = screen(&["ab$ ab    ab", "cd", "", ""], 12, (1, 2));
    assert_eq!(
        locate_first_input_line(&grid, "ab", &measured("ab"), 12),
        Some(4)
    );
}

#[test]
fn elements_of_several_characters_are_taken_whole() {
    // An `e` with a combining accent, then an `x`.
    let table = [(2, 1), (1, 0), (1, 1)];
    assert_eq!(
        grapheme_boundaries(&table, 0, 3),
        Some(vec![(0, 0), (2, 1), (3, 2)])
    );
    let text = "e\u{301}x";
    assert_eq!(
        input_selection_char_range(text, &table, 3, (0, 4), 10, sel((0, 2), (0, 2)), |_, _| None),
        Some((0..2, 2..3))
    );
    // An element without characters cannot be laid out.
    assert_eq!(grapheme_boundaries(&[(1, 1), (0, 1)], 0, 2), None);
    assert_eq!(
        input_layout("ab", &[(1, 1), (0, 1)], 0, (0, 0), 10, |_, _| None),
        None
    );
}

#[test]
fn layout_needs_columns_and_a_cursor_in_the_text() {
    let text = "abc";
    let table = measured(text);
    assert_eq!(input_layout(text, &table, 3, (0, 3), 0, |_, _| None), None);
    assert_eq!(input_layout(text, &table, 4, (0, 3), 10, |_, _| None), None);
    assert_eq!(
        input_layout("a\tb", &measured("a\tb"), 0, (0, 0), 10, |_, _| None),
        None
    );
    assert_eq!(
        input_layout(text, &table, 1, (2, 5), 10, |_, _| None),
        Some(vec![(0, 24), (1, 25), (2, 26), (3, 27)])
    );
}

#[test]
fn the_cursor_is_where_it_is_shown() {
    let text = "one\ntwo three\nfour";
    for cursor in 0..=text.chars().count() {
        let layout = input_layout(text, &measured(text), cursor, (3, 4), 7, |_, _| None)
            .expect("the cursor is in the text");
        assert!(layout.contains(&(cursor, 25)), "cursor {cursor}");
    }
}

#[test]
fn widths_are_those_of_the_last_boundary() {
    assert_eq!((width_chars(&[]), width_cells(&[])), (0, 0));
    assert_eq!(
        (width_chars(&[(0, 0), (3, 5)]), width_cells(&[(0, 0), (3, 5)])),
        (3, 5)
    );
}

#[test]
fn cells_are_counted_row_by_row() {
    assert_eq!(cell_point(25, 10), GridPoint { row: 2, col: 5 });
    assert_eq!(cell_point(65536 * 10 + 3, 10), GridPoint { row: 0, col: 3 });
    assert_eq!(cell_point(-5, 10), GridPoint { row: 0, col: 65531 });
}

#[test]
fn white_space_is_stripped_everywhere() {
    assert_eq!(strip_whitespace(" a\u{3000}b\n\tc "), "abc");
    assert_eq!(strip_whitespace(""), "");
}

fn input(buffer: &str, cursor: usize) -> InputState {
    InputState {
        buffer: buffer.to_string(),
        cursor,
        measured: measured(buffer),
    }
}

#[test]
fn cutting_needs_the_text_on_the_screen() {
    let state = input("abcdef", 6);
    let shown = screen(&["$ abcdef", ""], 10, (0, 8));
    let edit = state
        .input_selection_edit(&shown, false, 0, sel((0, 3), (0, 4)))
        .expect("inside the text");
    assert_eq!(edit.replacement, "adef");
    assert_eq!(edit.removed, "bc");
    assert_eq!(edit.cursor, 1);

    // While a command runs, scrolled, without a cursor, or with other text shown.
    assert!(state
        .input_selection_edit(&shown, true, 0, sel((0, 3), (0, 4)))
        .is_none());
    assert!(state
        .input_selection_edit(&shown, false, 1, sel((0, 3), (0, 4)))
        .is_none());
    let mut hidden = screen(&["$ abcdef", ""], 10, (0, 8));
    hidden.hide_cursor = true;
    assert!(state
        .input_selection_edit(&hidden, false, 0, sel((0, 3), (0, 4)))
        .is_none());
    let other = screen(&["$ abXdef", ""], 10, (0, 8));
    assert!(state
        .input_selection_edit(&other, false, 0, sel((0, 3), (0, 4)))
        .is_none());
    assert!(input("", 0)
        .input_selection_edit(&shown, false, 0, sel((0, 3), (0, 4)))
        .is_none());
    assert!(input("a\rb", 3)
        .input_selection_edit(&shown, false, 0, sel((0, 3), (0, 4)))
        .is_none());
}

#[test]
fn clicking_finds_the_first_line_on_the_screen() {
    let state = input("ab \\\n  cd", 9);
    let shown = screen(&["$ ab \\", "  cd"], 12, (1, 4));
    assert_eq!(state.clicked(&shown, GridPoint { row: 0, col: 3 }), Some(1));
    assert_eq!(state.clicked(&shown, GridPoint { row: 1, col: 3 }), Some(8));
    assert_eq!(input("", 0).clicked(&shown, GridPoint { row: 0, col: 3 }), None);
    assert_eq!(shown.cells[0].wide, CellWideKind::Narrow);
    assert_eq!(shown.cursor_shape(), CursorShape::Block);
    assert_eq!(shown.default_fg, Color::Reset);
    let plain: CellLook = TermCell::default().look;
    assert!(!plain.bold && plain.fg.is_none());
}
