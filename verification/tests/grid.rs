use termul::color::RgbColor;
use termul::grid::{
    clipboard_choice, clipboard_target, color_scheme, focus_report, grid_size, host_palette,
    process_plan, resize_plan, scroll_target, scrollback, AfterResize, ClipboardLocation,
    ColorScheme, ProcessStep, Scrollbar,
};
use termul::pty::{resize, PtyDims};
use termul::term::ClipboardTarget;
use termul::terminal_theme::{CellPixelSize, HostTerminalTheme};
use termul::xtgettcap::XtgettcapResponse;

#[test]
fn tracks_focus_and_synchronized_output_modes() {
    assert_eq!(focus_report(false, true), None);
    assert_eq!(focus_report(true, true), Some(b"\x1b[I".to_vec()));
    assert_eq!(focus_report(true, false), Some(b"\x1b[O".to_vec()));
    assert_eq!(focus_report(false, false), None);
}

#[test]
fn answers_keep_their_place_in_the_output() {
    let answer = |end_offset, byte| XtgettcapResponse { end_offset, bytes: vec![byte] };
    assert_eq!(
        process_plan(10, vec![answer(4, 1), answer(4, 2), answer(9, 3)]),
        [
            ProcessStep::Write { from: 0, to: 4 },
            ProcessStep::Respond(vec![1]),
            ProcessStep::Respond(vec![2]),
            ProcessStep::Write { from: 4, to: 9 },
            ProcessStep::Respond(vec![3]),
            ProcessStep::Write { from: 9, to: 10 },
        ]
    );
    assert_eq!(process_plan(3, vec![]), [ProcessStep::Write { from: 0, to: 3 }]);
    assert_eq!(process_plan(0, vec![]), []);
}

#[test]
fn a_grid_has_a_cell_at_least() {
    assert_eq!(grid_size(0, 0), (1, 1));
    assert_eq!(grid_size(24, 80), (24, 80));
}

#[test]
fn light_and_dark_backgrounds() {
    let scheme = |r, g, b| color_scheme(Some(RgbColor { r, g, b }));
    assert_eq!(scheme(40, 42, 54), Some(ColorScheme::Dark));
    assert_eq!(scheme(250, 250, 250), Some(ColorScheme::Light));
    assert_eq!(color_scheme(None), None);
}

#[test]
fn clipboards_and_what_they_hold() {
    assert_eq!(clipboard_target(ClipboardLocation::Standard), ClipboardTarget::Standard);
    assert_eq!(clipboard_target(ClipboardLocation::Primary), ClipboardTarget::Primary);
    assert_eq!(clipboard_target(ClipboardLocation::Selection), ClipboardTarget::Primary);
    let mimes = |list: &[&str]| list.iter().map(|s| s.to_string()).collect::<Vec<String>>();
    assert_eq!(clipboard_choice(&mimes(&["image/png", "text/plain"])), Some(1));
    assert_eq!(clipboard_choice(&mimes(&["image/png"])), None);
    assert_eq!(clipboard_choice(&mimes(&["image/png", ""])), Some(1));
    assert_eq!(clipboard_choice(&[]), None);
}

#[test]
fn the_palette_of_the_host() {
    let mut theme = HostTerminalTheme::default();
    theme.palette[7] = Some(RgbColor { r: 12, g: 34, b: 56 });
    let default = [RgbColor { r: 1, g: 2, b: 3 }; 256];
    let palette = host_palette(&theme, &default);
    assert_eq!(palette[7], RgbColor { r: 12, g: 34, b: 56 });
    assert_eq!(palette[8], RgbColor { r: 1, g: 2, b: 3 });
}

#[test]
fn rows_above_the_bottom() {
    let bar = |total, len, offset| Some(Scrollbar { total, len, offset });
    assert_eq!(scrollback(bar(40, 24, 16)), 0);
    assert_eq!(scrollback(bar(40, 24, 13)), 3);
    assert_eq!(scrollback(None), 0);
    assert_eq!(scroll_target(bar(40, 24, 16), 3), Some(13));
    assert_eq!(scroll_target(bar(40, 24, 16), 99), Some(0));
    assert_eq!(scroll_target(None, 3), None);
}

#[test]
fn a_size_that_stays_is_not_set_again() {
    assert_eq!(resize_plan((24, 80), 24, 80, 5), None);
    assert_eq!(resize_plan((24, 80), 30, 80, 0), Some(AfterResize::Follow));
    assert_eq!(resize_plan((24, 80), 24, 90, 5), Some(AfterResize::Restore(5)));
}

#[test]
fn the_size_of_a_terminal_in_pixels() {
    let cell = CellPixelSize { width: 9, height: 18 };
    let now = PtyDims { rows: 24, cols: 80, pixel_width: 720, pixel_height: 432 };
    assert_eq!(resize(now, 24, 80, cell), None);
    assert_eq!(
        resize(now, 10, 20, cell),
        Some(PtyDims { rows: 10, cols: 20, pixel_width: 180, pixel_height: 180 })
    );
    assert_eq!(resize(now, 0, 20, cell), None);
}
