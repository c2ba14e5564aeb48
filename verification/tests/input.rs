use termul::app::{App, Effect, Palette, PaneReport, PaneSelection, SpawnFor, StatusKind, Suggest};
use termul::clipboard::{clipboard_programs, Desktop};
use termul::config::Config;
use termul::event::{handle_osc, refresh_pane};
use termul::geometry::Rect;
use termul::history::{suggest, HistoryEntry, HistoryRow};
use termul::input::{
    encode_paste, finish_click, handle_key, handle_mouse, handle_paste, Stage, Step,
};
use termul::input_line::InputState;
use termul::keys::{
    is_selection_copy_key, is_selection_cut_key, is_selection_delete_key, key_request,
    mouse_request, Key, KeyCode, KeyEvent, KeyEventKind, KeyModifiers, MouseAction, MouseButton,
    MouseEvent, MouseEventKind, PointerButton,
};
use termul::layout::{find_area, PaneId, SplitDir};
use termul::mention::Mention;
use termul::osc::OscEvent;
use termul::palette::{handle_palette_key, handle_palette_mouse, palette_results};
use termul::session::{finish_spawn, recompute, start};
use termul::shell::ShellIntegration;
use termul::suggest::{
    mention_ready, rebuild_mention, rebuild_suggest, suggest_accept, suggest_results, MentionResult,
};
use termul::term::{ClipboardTarget, GridPoint, GridSelection, TermScreen};

const PID: PaneId = PaneId(0);

fn screen_with(lines: &[&str], cursor: (u16, u16)) -> TermScreen {
    let mut screen = TermScreen::empty(24, 80);
    for (row, line) in lines.iter().enumerate() {
        for (col, c) in line.chars().enumerate() {
            screen.cells[row * 80 + col].contents = c.to_string();
        }
    }
    screen.cursor = cursor;
    screen
}

fn report_of(screen: TermScreen) -> PaneReport {
    PaneReport {
        screen,
        scrollback: 0,
        mouse_tracking: false,
        alt_screen: false,
        bracketed_paste: false,
        focus_events: false,
        synchronized_output: false,
    }
}

fn one_pane_app() -> App {
    start(
        Rect::new(0, 0, 80, 24),
        ShellIntegration { dir: "/tmp/termul-0".to_string() },
        Config::default(),
        String::new(),
        report_of(TermScreen::empty(24, 80)),
    )
}

fn widths(s: &str) -> Vec<(usize, u8)> {
    s.chars().map(|_| (1, 1)).collect()
}

fn set_input(app: &mut App, s: &str) {
    app.panes[0].cwd = "/x".to_string();
    app.panes[0].input = InputState {
        cursor: s.chars().count(),
        buffer: s.to_string(),
        measured: widths(s),
    };
}

fn select(app: &mut App, anchor: (u16, u16), end: (u16, u16)) {
    app.selection = Some(PaneSelection {
        pane: PID,
        range: GridSelection {
            anchor: GridPoint { row: anchor.0, col: anchor.1 },
            end: GridPoint { row: end.0, col: end.1 },
        },
    });
}

fn key(code: KeyCode) -> KeyEvent {
    KeyEvent::new(code, KeyModifiers::none())
}

fn press(app: &mut App, event: KeyEvent) -> Vec<Effect> {
    match handle_key(app, event, Stage::Start) {
        Step::Done(effects) => effects,
        other => panic!("{other:?}"),
    }
}

fn mouse(kind: MouseEventKind, column: u16, row: u16) -> MouseEvent {
    MouseEvent { kind, column, row, modifiers: KeyModifiers::none() }
}

fn done(step: Step) -> Vec<Effect> {
    match step {
        Step::Done(effects) => effects,
        other => panic!("{other:?}"),
    }
}

#[test]
fn paste_payload_follows_inner_terminal_mode() {
    assert_eq!(encode_paste("một\nhai", false), "một\nhai".as_bytes());
    assert_eq!(
        encode_paste("một\nhai", true),
        b"\x1b[200~m\xe1\xbb\x99t\nhai\x1b[201~"
    );
}

fn copy_key(modifiers: KeyModifiers) -> KeyEvent {
    KeyEvent::new(KeyCode::Char('c'), modifiers)
}

#[test]
fn selection_copy_key_requires_exact_control_or_super() {
    assert!(is_selection_copy_key(copy_key(KeyModifiers::super_key())));
    assert!(is_selection_copy_key(copy_key(KeyModifiers::control())));
    assert!(!is_selection_copy_key(copy_key(KeyModifiers::none())));
    assert!(!is_selection_copy_key(copy_key(KeyModifiers {
        shift: true,
        ..KeyModifiers::control()
    })));
}

#[test]
fn selection_cut_and_delete_keys_are_exact() {
    assert!(is_selection_cut_key(KeyEvent::new(KeyCode::Char('x'), KeyModifiers::control())));
    assert!(is_selection_cut_key(KeyEvent::new(KeyCode::Char('X'), KeyModifiers::super_key())));
    assert!(is_selection_delete_key(key(KeyCode::Backspace)));
    assert!(is_selection_delete_key(key(KeyCode::Delete)));
    assert!(!is_selection_delete_key(KeyEvent::new(
        KeyCode::Delete,
        KeyModifiers { shift: true, ..KeyModifiers::none() }
    )));
}

#[test]
fn delete_removes_selection_from_current_zle_input() {
    let mut app = one_pane_app();
    refresh_pane(&mut app, PID, report_of(screen_with(&["$ abcdef"], (0, 8))));
    set_input(&mut app, "abcdef");
    select(&mut app, (0, 3), (0, 4));

    match handle_key(&mut app, key(KeyCode::Delete), Stage::Start) {
        Step::Edit(edit) => assert_eq!(edit.contents, "1\nadef"),
        other => panic!("{other:?}"),
    }
    let effects = done(handle_key(&mut app, key(KeyCode::Delete), Stage::Edited(true)));
    assert_eq!(effects, [Effect::Write { pane: PID, bytes: b"\x1b[99~".to_vec() }]);
    assert!(app.selection.is_none());
}

#[test]
fn delete_removes_multiline_selection_from_current_zle_input() {
    let mut app = one_pane_app();
    let lines = ["$ apksigner sign \\", "  --ks release.jks \\", "  --out app.apk"];
    refresh_pane(&mut app, PID, report_of(screen_with(&lines, (2, 15))));
    set_input(&mut app, "apksigner sign \\\n  --ks release.jks \\\n  --out app.apk");
    select(&mut app, (0, 2), (2, 14));

    match handle_key(&mut app, key(KeyCode::Delete), Stage::Start) {
        Step::Edit(edit) => assert_eq!(edit.contents, "0\n"),
        other => panic!("{other:?}"),
    }
    done(handle_key(&mut app, key(KeyCode::Delete), Stage::Edited(true)));
    assert!(app.selection.is_none());
}

#[test]
fn a_cut_goes_through_the_clipboard() {
    let mut app = one_pane_app();
    refresh_pane(&mut app, PID, report_of(screen_with(&["$ abcdef"], (0, 8))));
    set_input(&mut app, "abcdef");
    select(&mut app, (0, 3), (0, 4));
    let cut = KeyEvent::new(KeyCode::Char('x'), KeyModifiers::control());
    assert_eq!(handle_key(&mut app, cut, Stage::Start), Step::Copy("bc".to_string()));
    assert!(matches!(handle_key(&mut app, cut, Stage::Copied(true)), Step::Edit(_)));
    // Where the clipboard cannot be reached, the key goes to the shell.
    assert_eq!(
        done(handle_key(&mut app, cut, Stage::Copied(false))),
        [Effect::SendKey { pane: PID, key: cut, to_bottom: true }]
    );
    assert!(app.selection.is_some());
}

#[test]
fn a_copy_ends_the_selection() {
    let mut app = one_pane_app();
    refresh_pane(&mut app, PID, report_of(screen_with(&["some text"], (5, 0))));
    select(&mut app, (0, 0), (0, 3));
    let copy = copy_key(KeyModifiers::control());
    assert_eq!(handle_key(&mut app, copy, Stage::Start), Step::Copy("some".to_string()));
    assert!(done(handle_key(&mut app, copy, Stage::Copied(true))).is_empty());
    assert!(app.selection.is_none());
    // Without a selection the key goes to the shell.
    assert_eq!(press(&mut app, copy), [Effect::SendKey { pane: PID, key: copy, to_bottom: true }]);
    // So it does where there are only blanks in it.
    select(&mut app, (3, 0), (3, 5));
    assert_eq!(press(&mut app, copy), [Effect::SendKey { pane: PID, key: copy, to_bottom: true }]);
}

#[test]
fn click_without_drag_moves_zle_cursor_inside_multiline_input() {
    let mut app = one_pane_app();
    refresh_pane(&mut app, PID, report_of(screen_with(&["$ ab \\", "  cd"], (1, 4))));
    set_input(&mut app, "ab \\\n  cd");
    let screen = app.screen;
    recompute(&mut app, screen);
    let inner = find_area(&app.inner_areas, PID).unwrap();
    let click = |kind| mouse(kind, inner.x + 3, inner.y + 1);

    assert!(done(handle_mouse(&mut app, click(MouseEventKind::Down(MouseButton::Left)))).is_empty());
    assert!(app.selection.is_some());
    let up = click(MouseEventKind::Up(MouseButton::Left));
    match handle_mouse(&mut app, up) {
        Step::Edit(edit) => assert_eq!(edit.contents, "8\nab \\\n  cd"),
        other => panic!("{other:?}"),
    }
    assert_eq!(
        finish_click(&mut app, up, true),
        [Effect::Write { pane: PID, bytes: b"\x1b[99~".to_vec() }]
    );
    assert!(app.selection.is_none());
}

#[test]
fn a_click_beside_the_input_line_leaves_no_selection() {
    let mut app = one_pane_app();
    refresh_pane(&mut app, PID, report_of(screen_with(&["$ ab"], (0, 4))));
    set_input(&mut app, "ab");
    recompute(&mut app, Rect::new(0, 0, 80, 24));
    handle_mouse(&mut app, mouse(MouseEventKind::Down(MouseButton::Left), 40, 12));
    let up = mouse(MouseEventKind::Up(MouseButton::Left), 40, 12);
    assert!(done(handle_mouse(&mut app, up)).is_empty());
    assert!(app.selection.is_none());
    // The cursor is where it was clicked.
    handle_mouse(&mut app, mouse(MouseEventKind::Down(MouseButton::Left), 4, 2));
    assert!(done(handle_mouse(&mut app, mouse(MouseEventKind::Up(MouseButton::Left), 4, 2))).is_empty());
    assert!(app.selection.is_none());
    // Dragged over text, the selection stays.
    handle_mouse(&mut app, mouse(MouseEventKind::Down(MouseButton::Left), 0, 2));
    handle_mouse(&mut app, mouse(MouseEventKind::Up(MouseButton::Left), 3, 2));
    assert_eq!(app.selection.unwrap().range.end, GridPoint { row: 0, col: 3 });
}

/// What the history holds, as it is looked up for the popup.
fn offered(app: &mut App, effects: Vec<Effect>) {
    let rows = [("echo hello", 1.0f64), ("echo hello world", 1.0)].map(|(cmdline, f)| HistoryRow {
        cmdline: cmdline.to_string(),
        cwd_match: true,
        frecency: f.to_bits(),
    });
    for effect in effects {
        if let Effect::Suggest { query, cwd, limit } = effect {
            assert_eq!(cwd, "/x");
            suggest_results(app, suggest(&rows, &query, limit));
        }
    }
}

#[test]
fn suggest_accept_then_no_reopen() {
    let mut app = one_pane_app();
    set_input(&mut app, "echo he");
    let effects = rebuild_suggest(&mut app);
    offered(&mut app, effects);
    assert!(app.suggest.is_some());

    let effects = suggest_accept(&mut app);
    assert_eq!(effects.len(), 1);
    assert!(app.suggest.is_none());
    let dismissed = app.suggest_dismissed_for.clone().expect("taken");

    let effects = handle_osc(
        &mut app,
        PID,
        OscEvent::BufferUpdate {
            cursor: dismissed.chars().count(),
            buffer: dismissed.clone(),
            cwd: "/x".to_string(),
        },
        widths(&dismissed),
        0,
    );
    offered(&mut app, effects);
    assert!(app.suggest.is_none());

    set_input(&mut app, "echo he");
    let effects = rebuild_suggest(&mut app);
    offered(&mut app, effects);
    assert!(app.suggest.is_some());
}

#[test]
fn a_popup_closed_with_esc_stays_closed() {
    let mut app = one_pane_app();
    set_input(&mut app, "echo he");
    let effects = rebuild_suggest(&mut app);
    offered(&mut app, effects);
    assert!(press(&mut app, key(KeyCode::Esc)).is_empty());
    assert!(app.suggest.is_none());
    assert_eq!(app.suggest_dismissed_for.as_deref(), Some("echo he"));
    assert!(rebuild_suggest(&mut app).is_empty());
    set_input(&mut app, "echo hel");
    assert_eq!(rebuild_suggest(&mut app).len(), 1);
}

#[test]
fn keys_move_in_the_popup_with_commands() {
    let mut app = one_pane_app();
    app.cfg.suggest_max_visible = 2;
    let matches: Vec<String> = ["a", "b", "c"].map(String::from).to_vec();
    app.suggest = Some(Suggest { matches, selected: 0, offset: 0 });
    press(&mut app, key(KeyCode::Down));
    press(&mut app, key(KeyCode::Down));
    press(&mut app, key(KeyCode::Down));
    let sug = app.suggest.as_ref().unwrap();
    assert_eq!((sug.selected, sug.offset), (2, 1));
    press(&mut app, key(KeyCode::Up));
    press(&mut app, key(KeyCode::Up));
    let sug = app.suggest.as_ref().unwrap();
    assert_eq!((sug.selected, sug.offset), (0, 0));
    // Other keys go to the shell.
    assert_eq!(press(&mut app, key(KeyCode::Char('z'))).len(), 1);
    press(&mut app, key(KeyCode::Tab));
    assert_eq!(app.suggest_dismissed_for.as_deref(), Some("a"));
}

#[test]
fn clicking_new_tab_button_creates_and_activates_tab() {
    let mut app = one_pane_app();
    recompute(&mut app, Rect::new(0, 0, 80, 24));
    let add = app
        .status_segs
        .iter()
        .find(|seg| matches!(seg.kind, StatusKind::NewTab))
        .expect("a button for tabs");
    let click = mouse(MouseEventKind::Down(MouseButton::Left), add.x + 1, app.status_y);

    assert_eq!(done(handle_mouse(&mut app, click)), [Effect::Spawn(SpawnFor::Tab)]);
    let purpose = SpawnFor::Tab;
    assert!(finish_spawn(&mut app, purpose, report_of(TermScreen::empty(22, 80))));

    assert_eq!(app.tabs.len(), 2);
    assert_eq!(app.active_tab, 1);
}

#[test]
fn mouse_selects_normally_and_shift_overrides_mouse_tracking() {
    let mut app = one_pane_app();
    recompute(&mut app, Rect::new(0, 0, 80, 24));
    let down = mouse(MouseEventKind::Down(MouseButton::Left), 2, 2);
    handle_mouse(&mut app, down);
    assert_eq!(app.selection.unwrap().range.anchor, GridPoint { row: 0, col: 2 });
    handle_mouse(&mut app, mouse(MouseEventKind::Drag(MouseButton::Left), 5, 3));
    assert_eq!(app.selection.unwrap().range.end, GridPoint { row: 1, col: 5 });

    app.panes[0].report.mouse_tracking = true;
    assert_eq!(done(handle_mouse(&mut app, down)).len(), 1);
    assert!(app.selection.is_none());

    handle_mouse(
        &mut app,
        MouseEvent { modifiers: KeyModifiers { shift: true, ..KeyModifiers::none() }, ..down },
    );
    assert!(app.selection.is_some());
}

#[test]
fn wheel_scrolls_normal_pane_scrollback() {
    let mut app = one_pane_app();
    recompute(&mut app, Rect::new(0, 0, 80, 24));
    assert_eq!(app.panes[0].report.scrollback, 0);
    let wheel_up = mouse(MouseEventKind::ScrollUp, 0, 2);
    assert_eq!(
        done(handle_mouse(&mut app, wheel_up)),
        [Effect::Scroll { pane: PID, lines: -3 }]
    );
    app.panes[0].report.scrollback = 3;
    recompute(&mut app, Rect::new(0, 0, 80, 24));
    assert_eq!(app.panes[0].report.scrollback, 3);
    let wheel_down = MouseEvent { kind: MouseEventKind::ScrollDown, ..wheel_up };
    assert_eq!(
        done(handle_mouse(&mut app, wheel_down)),
        [Effect::Scroll { pane: PID, lines: 3 }]
    );
}

#[test]
fn wheel_over_other_screens() {
    let mut app = one_pane_app();
    recompute(&mut app, Rect::new(0, 0, 80, 24));
    app.panes[0].report.alt_screen = true;
    let arrow = |bytes: &[u8]| Effect::Write { pane: PID, bytes: bytes.to_vec() };
    let up = done(handle_mouse(&mut app, mouse(MouseEventKind::ScrollUp, 3, 4)));
    assert_eq!(up, [arrow(b"\x1b[A"), arrow(b"\x1b[A"), arrow(b"\x1b[A")]);
    let down = done(handle_mouse(&mut app, mouse(MouseEventKind::ScrollDown, 3, 4)));
    assert_eq!(down[0], arrow(b"\x1b[B"));
    app.panes[0].report.mouse_tracking = true;
    let up = done(handle_mouse(&mut app, mouse(MouseEventKind::ScrollUp, 3, 4)));
    assert!(matches!(up[..], [Effect::SendMouse { .. }]));
    // Over the tab bar nothing happens.
    assert!(done(handle_mouse(&mut app, mouse(MouseEventKind::ScrollUp, 3, 1))).is_empty());
}

#[test]
fn ghostty_encodes_mouse_sgr_offsets_into_pane() {
    let inner = Rect::new(1, 1, 80, 24);
    let me = mouse(MouseEventKind::Down(MouseButton::Left), 12, 10);
    let request = mouse_request(me, inner).unwrap();
    assert_eq!(request.action, MouseAction::Press);
    assert_eq!(request.button, Some(PointerButton::Left));
    // Counted from one, that is the cell 12;10 of a report.
    assert_eq!((request.x + 1, request.y + 1), (12, 10));
    let me = mouse(MouseEventKind::Down(MouseButton::Left), 0, 0);
    assert_eq!(mouse_request(me, inner), None);
}

#[test]
fn keys_for_the_encoder() {
    let request = key_request(key(KeyCode::Enter)).unwrap();
    assert_eq!((request.key, request.text), (Key::Enter, None));
    assert_eq!(request.action, KeyEventKind::Press);
    let request = key_request(KeyEvent::new(KeyCode::Char('A'), KeyModifiers::none())).unwrap();
    assert_eq!(request.key, Key::Letter('a'));
    assert_eq!(request.unshifted, Some('a'));
    assert_eq!(key_request(key(KeyCode::Other)), None);
}

#[test]
fn a_divider_is_dragged() {
    let mut app = one_pane_app();
    let purpose = SpawnFor::Split { target: PID, dir: SplitDir::LeftRight };
    assert!(finish_spawn(&mut app, purpose, report_of(TermScreen::empty(24, 80))));
    recompute(&mut app, Rect::new(0, 0, 80, 24));
    assert!(done(handle_mouse(&mut app, mouse(MouseEventKind::Down(MouseButton::Left), 40, 10))).is_empty());
    assert!(app.dragging.is_some());
    handle_mouse(&mut app, mouse(MouseEventKind::Drag(MouseButton::Left), 20, 10));
    recompute(&mut app, Rect::new(0, 0, 80, 24));
    assert_eq!(find_area(&app.areas, PID), Some(Rect::new(0, 2, 20, 22)));
    handle_mouse(&mut app, mouse(MouseEventKind::Up(MouseButton::Left), 20, 10));
    assert!(app.dragging.is_none());
    // A click on the other pane gives it the focus.
    handle_mouse(&mut app, mouse(MouseEventKind::Down(MouseButton::Left), 5, 5));
    assert_eq!(app.tabs[0].focus, PID);
}

#[test]
fn the_right_button_opens_menus() {
    let mut app = one_pane_app();
    recompute(&mut app, Rect::new(0, 0, 80, 24));
    handle_mouse(&mut app, mouse(MouseEventKind::Down(MouseButton::Right), 1, 1));
    assert_eq!(app.menu.as_ref().unwrap().items[1].label, "Rename");
    app.menu = None;
    handle_mouse(&mut app, mouse(MouseEventKind::Down(MouseButton::Right), 9, 9));
    assert_eq!(app.menu.as_ref().unwrap().items[0].label, "Split Right");
}

#[test]
fn the_prefix_key_holds_for_one_key() {
    let mut app = one_pane_app();
    let prefix = KeyEvent::new(KeyCode::Char('`'), KeyModifiers::control());
    assert!(press(&mut app, prefix).is_empty());
    assert!(app.prefix_active);
    let split = key(KeyCode::Char(app.cfg.keys.split_right));
    assert_eq!(
        press(&mut app, split),
        [Effect::Spawn(SpawnFor::Split { target: PID, dir: SplitDir::LeftRight })]
    );
    assert!(!app.prefix_active);
    assert_eq!(
        press(&mut app, split),
        [Effect::SendKey { pane: PID, key: split, to_bottom: true }]
    );
    press(&mut app, prefix);
    let close = key(KeyCode::Char(app.cfg.keys.close_pane));
    press(&mut app, close);
    assert!(app.confirm.is_some());
}

#[test]
fn keys_that_are_let_go_are_only_sent() {
    let mut app = one_pane_app();
    let release = KeyEvent { kind: KeyEventKind::Release, ..key(KeyCode::Esc) };
    app.suggest = Some(Suggest { matches: vec!["a".to_string()], selected: 0, offset: 0 });
    assert_eq!(
        press(&mut app, release),
        [Effect::SendKey { pane: PID, key: release, to_bottom: false }]
    );
    assert!(app.suggest.is_some());
}

#[test]
fn the_quit_key_quits() {
    let mut app = one_pane_app();
    let (modifiers, code) = app.cfg.keys.quit;
    assert!(press(&mut app, KeyEvent::new(code, modifiers)).is_empty());
    assert!(app.should_quit);
}

#[test]
fn a_paste_goes_where_one_types() {
    let mut app = one_pane_app();
    app.panes[0].report.bracketed_paste = true;
    assert_eq!(
        handle_paste(&mut app, "a b".to_string()),
        [
            Effect::ToBottom { pane: PID },
            Effect::Write { pane: PID, bytes: b"\x1b[200~a b\x1b[201~".to_vec() },
        ]
    );
    app.palette = Some(Palette {
        query: "x".to_string(),
        results: vec![],
        selected: 0,
        rect: Rect::new(4, 3, 72, 18),
    });
    assert!(matches!(&handle_paste(&mut app, "yz".to_string())[..],
        [Effect::Search { query, .. }] if query == "xyz"));
}

#[test]
fn the_palette_is_used() {
    let mut app = one_pane_app();
    press(&mut app, KeyEvent::new(KeyCode::Char('`'), KeyModifiers::control()));
    let palette = key(KeyCode::Char(app.cfg.keys.palette));
    let opened = press(&mut app, palette);
    assert!(matches!(&opened[..], [Effect::Search { query, .. }] if query.is_empty()));
    let entry = |cmdline: &str| HistoryEntry { cmdline: cmdline.to_string(), cwd_match: false };
    palette_results(&mut app, vec![entry("ls"), entry("pwd")]);
    handle_palette_key(&mut app, key(KeyCode::Down));
    assert_eq!(app.palette.as_ref().unwrap().selected, 1);
    let forgot = handle_palette_key(&mut app, key(KeyCode::Delete));
    assert!(forgot.contains(&Effect::Forget { cmdline: "pwd".to_string() }));
    let accepted = handle_palette_key(&mut app, key(KeyCode::Enter));
    assert!(matches!(&accepted[..], [Effect::Write { .. }]));
    assert!(app.palette.is_none());
}

#[test]
fn a_click_outside_the_palette_closes_it() {
    let mut app = one_pane_app();
    app.palette = Some(Palette {
        query: String::new(),
        results: vec![],
        selected: 0,
        rect: Rect::new(4, 3, 72, 18),
    });
    let me = mouse(MouseEventKind::Down(MouseButton::Left), 0, 0);
    assert!(handle_palette_mouse(&mut app, me).is_empty());
    assert!(app.palette.is_none());
}

#[test]
fn files_are_offered_for_a_mention() {
    let mut app = one_pane_app();
    set_input(&mut app, "cat @ma");
    let (mentioned, effects) = rebuild_mention(&mut app);
    assert!(mentioned);
    let generation = app.mention_generation;
    assert_eq!(
        effects,
        [Effect::Scan {
            pane: PID,
            generation,
            token_start: 4,
            token_end: 7,
            query: "ma".to_string(),
            cwd: "/x".to_string(),
        }]
    );
    let result = |generation| MentionResult {
        pane: PID,
        generation,
        token_start: 4,
        token_end: 7,
        matches: vec!["main.rs".to_string(), "man".to_string()],
    };
    // An answer to an earlier question is left out.
    mention_ready(&mut app, result(generation + 1));
    assert!(app.mention.is_none());
    mention_ready(&mut app, result(generation));
    assert!(app.mention.is_some());
    press(&mut app, key(KeyCode::Down));
    assert_eq!(app.mention.as_ref().unwrap().selected, 1);
    press(&mut app, key(KeyCode::Up));
    assert!(matches!(&press(&mut app, key(KeyCode::Enter))[..], [Effect::Write { .. }]));
    assert!(app.mention.is_none());
}

#[test]
fn the_mouse_moves_in_the_popup_with_files() {
    let mut app = one_pane_app();
    recompute(&mut app, Rect::new(0, 0, 80, 24));
    let matches: Vec<String> = ["a", "b", "c"].map(String::from).to_vec();
    app.mention = Some(Mention { token_start: 0, token_end: 1, matches, selected: 0, offset: 0 });
    app.mention_rect = Some(Rect::new(10, 5, 10, 5));
    handle_mouse(&mut app, mouse(MouseEventKind::Moved, 12, 7));
    assert_eq!(app.mention.as_ref().unwrap().selected, 1);
    handle_mouse(&mut app, mouse(MouseEventKind::ScrollDown, 12, 7));
    assert_eq!(app.mention.as_ref().unwrap().selected, 2);
    handle_mouse(&mut app, mouse(MouseEventKind::Down(MouseButton::Left), 12, 6));
    assert!(app.mention.is_none());
}

#[test]
fn the_mouse_takes_a_command() {
    let mut app = one_pane_app();
    recompute(&mut app, Rect::new(0, 0, 80, 24));
    let matches: Vec<String> = ["a", "b", "c"].map(String::from).to_vec();
    app.suggest = Some(Suggest { matches, selected: 0, offset: 0 });
    app.suggest_rect = Some(Rect::new(10, 5, 10, 5));
    handle_mouse(&mut app, mouse(MouseEventKind::ScrollDown, 12, 7));
    assert_eq!(app.suggest.as_ref().unwrap().selected, 1);
    handle_mouse(&mut app, mouse(MouseEventKind::Down(MouseButton::Left), 12, 8));
    assert_eq!(app.suggest_dismissed_for.as_deref(), Some("c"));
    assert!(app.suggest.is_none());
}

#[test]
fn programs_of_the_clipboard() {
    let names = |desktop, target| {
        clipboard_programs(desktop, target)
            .into_iter()
            .map(|p| format!("{} {}", p.program, p.args.join(" ")))
            .collect::<Vec<String>>()
    };
    assert_eq!(names(Desktop::Mac, ClipboardTarget::Primary), ["pbcopy "]);
    assert_eq!(
        names(Desktop::Linux, ClipboardTarget::Standard),
        ["wl-copy ", "xclip -selection clipboard", "xsel --clipboard --input"]
    );
    assert_eq!(
        names(Desktop::Linux, ClipboardTarget::Primary),
        ["wl-copy --primary", "xclip -selection primary", "xsel --primary --input"]
    );
    assert!(names(Desktop::Unknown, ClipboardTarget::Standard).is_empty());
}
