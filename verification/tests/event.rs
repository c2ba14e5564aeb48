use termul::app::{App, Effect, PaneReport};
use termul::config::Config;
use termul::draw::{draw, place_popups, truncate_pad, underline_each_char, Draw};
use termul::event::{
    handle_event, handle_osc, normalize_reported_cwd, pty_closed, pty_data, refresh_pane, render_wait, unescape,
    wait_for, window_focus, AppEvent, Redraw, MIN_RENDER_INTERVAL,
};
use termul::geometry::Rect;
use termul::input::Step;
use termul::keys::{KeyCode, KeyEvent, KeyModifiers};
use termul::layout::PaneId;
use termul::osc::OscEvent;
use termul::session::{recompute, start};
use termul::shell::ShellIntegration;
use termul::suggest::suggest_results;
use termul::term::{ClipboardTarget, ClipboardWriteRequest, TermScreen, TerminalEffects};

const PID: PaneId = PaneId(0);

fn report() -> PaneReport {
    PaneReport {
        screen: TermScreen::empty(22, 80),
        scrollback: 0,
        mouse_tracking: false,
        alt_screen: false,
        bracketed_paste: false,
        focus_events: true,
        synchronized_output: false,
    }
}

fn one_pane_app() -> App {
    start(
        Rect::new(0, 0, 80, 24),
        ShellIntegration { dir: "/tmp/termul-0".to_string() },
        Config::default(),
        "/start".to_string(),
        report(),
    )
}

#[test]
fn normalizes_file_uri_and_percent_encoded_cwd() {
    assert_eq!(
        normalize_reported_cwd("file://localhost/tmp/my%20dir").as_deref(),
        Some("/tmp/my dir")
    );
    assert_eq!(normalize_reported_cwd("relative/path"), None);
}

#[test]
fn directories_with_odd_escapes() {
    assert_eq!(normalize_reported_cwd("/a%C3%A9").as_deref(), Some("/aé"));
    assert_eq!(normalize_reported_cwd("/a%zz%2").as_deref(), Some("/a%zz%2"));
    assert_eq!(normalize_reported_cwd("/a%aé").as_deref(), Some("/a%aé"));
    assert_eq!(normalize_reported_cwd("/%ff"), None);
    assert_eq!(normalize_reported_cwd("file://host"), None);
    assert_eq!(normalize_reported_cwd(""), None);
    assert_eq!(unescape(b"%41%+4%"), b"A\x04%");
    assert_eq!(unescape(b"plain"), b"plain");
}

#[test]
fn render_scheduler_coalesces_frames_and_respects_sync_output() {
    assert_eq!(render_wait(false, false, false, 0), None);
    assert_eq!(render_wait(true, false, false, 0), Some(MIN_RENDER_INTERVAL));
    assert_eq!(render_wait(true, false, false, MIN_RENDER_INTERVAL), Some(0));
    assert_eq!(render_wait(true, false, true, MIN_RENDER_INTERVAL), None);
    assert_eq!(render_wait(true, true, true, MIN_RENDER_INTERVAL), Some(0));
    assert_eq!(MIN_RENDER_INTERVAL, std::time::Duration::from_millis(16).as_nanos());
}

#[test]
fn output_waits_for_the_end_of_a_drawing_but_keys_do_not() {
    let mut app = one_pane_app();
    app.panes[0].report.synchronized_output = true;
    let redraw = Redraw::drawn();
    assert_eq!(wait_for(&app, redraw, 0), None);
    let redraw = redraw.received(true);
    assert_eq!(wait_for(&app, redraw, MIN_RENDER_INTERVAL), None);
    let redraw = redraw.received(false);
    assert_eq!(wait_for(&app, redraw, MIN_RENDER_INTERVAL + 1), Some(0));
    let redraw = redraw.received(true);
    assert_eq!(wait_for(&app, redraw, 6_000_000), Some(10_000_000));
}

#[test]
fn output_is_taken_in() {
    let mut app = one_pane_app();
    let effects = TerminalEffects {
        pty_responses: vec![b"one".to_vec(), b"two".to_vec()],
        bell_count: 2,
        clipboard_writes: vec![ClipboardWriteRequest {
            target: ClipboardTarget::Primary,
            data: b"hello".to_vec(),
        }],
        title: Some("build".to_string()),
        cwd: Some("file://h/tmp/a%20b".to_string()),
    };
    let bytes = b"text \x1b]1337;TermulEnd=3\x07 text";
    let (todo, markers) = pty_data(&mut app, PID, effects, bytes);
    assert_eq!(
        todo,
        [
            Effect::Write { pane: PID, bytes: b"one".to_vec() },
            Effect::Write { pane: PID, bytes: b"two".to_vec() },
            Effect::Bell { count: 2 },
            Effect::Copy { target: ClipboardTarget::Primary, data: b"hello".to_vec() },
        ]
    );
    assert_eq!(markers, [OscEvent::CommandEnd { exit: 3 }]);
    assert_eq!(app.panes[0].title, "build");
    assert_eq!(app.panes[0].cwd, "/tmp/a b");
    let (todo, markers) = pty_data(&mut app, PaneId(5), TerminalEffects::default(), bytes);
    assert!(todo.is_empty() && markers.is_empty());
}

#[test]
fn a_command_is_kept_when_it_ends() {
    let mut app = one_pane_app();
    let event = OscEvent::CommandStart { cmd: " make all ".to_string(), cwd: "/src".to_string() };
    assert!(handle_osc(&mut app, PID, event, vec![], 5_000_000).is_empty());
    assert_eq!(app.panes[0].cwd, "/src");
    assert!(app.panes[0].pending.is_some());
    let ended = handle_osc(&mut app, PID, OscEvent::CommandEnd { exit: 2 }, vec![], 1_505_000_000);
    assert_eq!(
        ended,
        [Effect::Record {
            cmdline: "make all".to_string(),
            cwd: "/src".to_string(),
            exit: 2,
            duration_ms: 1500,
        }]
    );
    let again = handle_osc(&mut app, PID, OscEvent::CommandEnd { exit: 2 }, vec![], 1_600_000_000);
    assert!(again.is_empty());
}

#[test]
fn the_input_line_is_taken_in() {
    let mut app = one_pane_app();
    let update = |buffer: &str| OscEvent::BufferUpdate {
        cursor: buffer.chars().count(),
        buffer: buffer.to_string(),
        cwd: "/x".to_string(),
    };
    let effects = handle_osc(&mut app, PID, update("git"), vec![(1, 1); 3], 0);
    assert_eq!(
        effects,
        [Effect::Suggest { query: "git".to_string(), cwd: "/x".to_string(), limit: 50 }]
    );
    assert_eq!(app.panes[0].input.measured, [(1, 1), (1, 1), (1, 1)]);
    // Widths that do not go with the line are not used.
    handle_osc(&mut app, PID, update("ab"), vec![(5, 1), (1, 1)], 0);
    assert_eq!(app.panes[0].input.measured, [(0, 0), (0, 0)]);
    handle_osc(&mut app, PID, update("a\nb"), vec![(2, 1), (1, 1), (1, 1)], 0);
    assert_eq!(app.panes[0].input.measured, [(0, 0); 3]);
    let effects = handle_osc(&mut app, PID, update("see @f"), vec![(1, 1); 6], 0);
    assert!(matches!(&effects[..], [Effect::Scan { query, .. }] if query == "f"));
    assert!(handle_osc(&mut app, PID, update("  "), vec![(1, 1); 2], 0).is_empty());
    // A pane without the focus has no popups.
    assert!(handle_osc(&mut app, PaneId(9), update("git"), vec![(1, 1); 3], 0).is_empty());
}

#[test]
fn a_shell_that_ends_closes_its_pane() {
    let mut app = one_pane_app();
    assert!(pty_closed(&mut app, PaneId(4)).is_empty());
    assert_eq!(pty_closed(&mut app, PID), [Effect::Close { pane: PID }]);
    assert!(app.should_quit);
}

#[test]
fn programs_hear_of_the_focus() {
    let mut app = one_pane_app();
    assert_eq!(
        window_focus(&app, true),
        [Effect::Write { pane: PID, bytes: b"\x1b[I".to_vec() }]
    );
    assert_eq!(
        window_focus(&app, false),
        [Effect::Write { pane: PID, bytes: b"\x1b[O".to_vec() }]
    );
    app.panes[0].report.focus_events = false;
    assert!(window_focus(&app, true).is_empty());
}

#[test]
fn texts_of_a_width() {
    assert_eq!(truncate_pad("abc", 5), "abc  ");
    assert_eq!(truncate_pad("abcdef", 3), "abc");
    assert_eq!(truncate_pad("é", 2), "é ");
    assert_eq!(underline_each_char("ab"), "a\u{332}b\u{332}");
}

#[test]
fn what_is_drawn_of_one_pane() {
    let mut app = one_pane_app();
    recompute(&mut app, Rect::new(0, 0, 80, 24));
    let mut screen = TermScreen::empty(22, 80);
    screen.cursor = (3, 7);
    refresh_pane(&mut app, PID, PaneReport { screen, ..report() });
    let list = draw(&app);
    assert_eq!(
        list[0],
        Draw::Screen { pane: PID, rect: Rect::new(0, 2, 80, 22), selection: None }
    );
    assert!(matches!(&list[1], Draw::Text { x: 0, y: 1, text, .. } if text.len() == 80));
    assert_eq!(*list.last().unwrap(), Draw::Cursor { x: 7, y: 5 });
    assert!(!list.iter().any(|d| matches!(d, Draw::Border { .. })));
}

#[test]
fn what_is_drawn_of_a_popup() {
    let mut app = one_pane_app();
    recompute(&mut app, Rect::new(0, 0, 80, 24));
    app.cfg.suggest_max_visible = 2;
    suggest_results(&mut app, ["one", "two", "three"].map(String::from).to_vec());
    place_popups(&mut app);
    let rect = app.suggest_rect.unwrap();
    assert_eq!(rect, Rect::new(0, 3, 9, 4));
    let list = draw(&app);
    let rows: Vec<&str> = list
        .iter()
        .filter_map(|d| match d {
            Draw::Text { x: 1, y: 4..=5, text, .. } => Some(text.as_str()),
            _ => None,
        })
        .collect();
    assert_eq!(rows, ["one    ", "two    "]);
    assert!(list.iter().any(|d| matches!(d, Draw::Glyph { x: 8, y: 6, symbol: "▼", .. })));
    assert!(!list.iter().any(|d| matches!(d, Draw::Glyph { symbol: "▲", .. })));
}

#[test]
fn everything_that_comes_in_is_handled() {
    let mut app = one_pane_app();
    let key = KeyEvent::new(KeyCode::Char('a'), KeyModifiers::none());
    let (step, markers) = handle_event(&mut app, AppEvent::Key(key));
    assert_eq!(step, Step::Done(vec![Effect::SendKey { pane: PID, key, to_bottom: true }]));
    assert!(markers.is_empty());
    let bytes = b"\x1b]1337;TermulEnd=0\x07".to_vec();
    let (step, markers) =
        handle_event(&mut app, AppEvent::PtyData(PID, TerminalEffects::default(), bytes));
    assert_eq!(step, Step::Done(vec![]));
    assert_eq!(markers, [OscEvent::CommandEnd { exit: 0 }]);
    let (step, _) = handle_event(&mut app, AppEvent::Paste("x".to_string()));
    assert!(matches!(step, Step::Done(effects) if effects.len() == 2));
    let (step, _) = handle_event(&mut app, AppEvent::Focus(true));
    assert!(matches!(step, Step::Done(effects) if effects.len() == 1));
    let (step, _) = handle_event(&mut app, AppEvent::Resize);
    assert_eq!(step, Step::Done(vec![]));
    let (step, _) = handle_event(&mut app, AppEvent::PtyClosed(PID));
    assert_eq!(step, Step::Done(vec![Effect::Close { pane: PID }]));
}
