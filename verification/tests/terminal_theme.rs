use termul::color::RgbColor;
use termul::terminal_theme::{
    host_terminal_query_sequence, parse_cell_pixel_size, parse_hex_component,
    parse_host_terminal_capabilities, parse_host_terminal_theme, parse_rgb_color, query_after_wait,
    query_wait, CellPixelSize, HostTerminalTheme, QueryStep,
};

fn chars(s: &str) -> Vec<char> {
    s.chars().collect()
}

#[test]
fn parses_default_colors_and_palette_with_both_terminators() {
    let theme = parse_host_terminal_theme(
        b"noise\x1b]10;rgb:cccc/dddd/eeee\x1b\\\x1b]11;#123456\x07\x1b]4;7;rgb:ffff/8000/0\x1b\\",
    );
    assert_eq!(
        theme.foreground,
        Some(RgbColor {
            r: 0xcc,
            g: 0xdd,
            b: 0xee
        })
    );
    assert_eq!(
        theme.background,
        Some(RgbColor {
            r: 0x12,
            g: 0x34,
            b: 0x56
        })
    );
    assert_eq!(
        theme.palette[7],
        Some(RgbColor {
            r: 255,
            g: 128,
            b: 0
        })
    );
}

#[test]
fn ignores_incomplete_and_invalid_responses() {
    let theme = parse_host_terminal_theme(b"\x1b]10;rgb:ff/ff\x1b\\\x1b]11;rgb:00/11/22");
    assert_eq!(theme, HostTerminalTheme::default());
}

#[test]
fn parses_cell_pixel_size_among_other_responses() {
    let capabilities =
        parse_host_terminal_capabilities(b"\x1b]10;rgb:ffff/ffff/ffff\x1b\\\x1b[6;18;9t");
    assert_eq!(
        capabilities.cell_size,
        CellPixelSize {
            width: 9,
            height: 18
        }
    );
}

#[test]
fn builds_queries_for_all_palette_entries() {
    let query = host_terminal_query_sequence();
    assert!(query.starts_with("\x1b]10;?"));
    assert!(query.contains("\x1b[16t"));
    assert!(query.ends_with("\x1b]4;255;?\x1b\\"));
    assert_eq!(query.matches("\x1b]4;").count(), 256);
}

#[test]
fn components_of_any_length_are_scaled() {
    assert_eq!(parse_hex_component(&chars("f")), Some(255));
    assert_eq!(parse_hex_component(&chars("8")), Some(136));
    assert_eq!(parse_hex_component(&chars("a7")), Some(0xa7));
    assert_eq!(parse_hex_component(&chars("fff")), Some(255));
    assert_eq!(parse_hex_component(&chars("8000")), Some(128));
    assert_eq!(parse_hex_component(&chars("")), None);
    assert_eq!(parse_hex_component(&chars("12345")), None);
    assert_eq!(parse_hex_component(&chars("g")), None);
}

#[test]
fn colors_have_two_forms() {
    let white = Some(RgbColor {
        r: 255,
        g: 255,
        b: 255,
    });
    assert_eq!(parse_rgb_color(&chars("#fff")), white);
    assert_eq!(parse_rgb_color(&chars("#ffffffffffff")), white);
    assert_eq!(parse_rgb_color(&chars("rgb:f/ff/ffff")), white);
    assert_eq!(parse_rgb_color(&chars("rgb:f/ff/ffff/0")), None);
    assert_eq!(parse_rgb_color(&chars("#ffff")), None);
    assert_eq!(parse_rgb_color(&chars("#")), None);
    assert_eq!(parse_rgb_color(&chars("#fff\u{e9}ff")), None);
    assert_eq!(parse_rgb_color(&chars("fff")), None);
}

#[test]
fn several_palette_entries_come_in_one_answer() {
    let theme = parse_host_terminal_theme(b"\x1b]4;1;#010203;256;#000000;3;#fff;9\x07\x1b]12;#111\x07");
    assert_eq!(theme.palette[1], Some(RgbColor { r: 1, g: 2, b: 3 }));
    assert_eq!(
        theme.palette[3],
        Some(RgbColor {
            r: 255,
            g: 255,
            b: 255
        })
    );
    assert_eq!(theme.palette[9], None);
    assert_eq!(
        theme.cursor,
        Some(RgbColor {
            r: 17,
            g: 17,
            b: 17
        })
    );
}

#[test]
fn the_first_readable_size_counts() {
    assert_eq!(
        parse_cell_pixel_size(b"\x1b[6;a;9t\x1b[6;20;10t\x1b[6;1;1t"),
        Some(CellPixelSize {
            width: 10,
            height: 20
        })
    );
    assert_eq!(parse_cell_pixel_size(b"6;20;10t"), None);
    assert_eq!(parse_cell_pixel_size(b"\x1b[6;20\x1b[;10t"), None);
    assert_eq!(parse_cell_pixel_size(b"\xff\x1b[6;20;10t"), None);
}

#[test]
fn answers_are_awaited_for_a_while() {
    assert_eq!(query_wait(0, None), QueryStep::Wait(120));
    assert_eq!(query_wait(1, Some(0)), QueryStep::Wait(40));
    assert_eq!(query_wait(100, Some(40_000_000)), QueryStep::Stop);
    assert_eq!(query_wait(400_000_000, None), QueryStep::Stop);
    assert_eq!(query_after_wait(true, false), Some(QueryStep::Read));
    assert_eq!(query_after_wait(false, true), None);
    assert_eq!(query_after_wait(false, false), Some(QueryStep::Stop));
}
