use termul::app::{
    App, ConfirmDialog, ContextMenu, Effect, MenuAction, MenuEntry, PaneReport, SpawnFor,
    StatusKind, Tab, CONFIRM_H, CONFIRM_W,
};
use termul::config::{Config, TAB_MIN_W};
use termul::confirm::{confirm_option_at, confirm_rect, handle_confirm_key, open_confirm};
use termul::geometry::{
    center, centered_rect, inner_of, list_popup_rect, popup_rect, within, Rect,
};
use termul::keys::{KeyCode, KeyEvent, KeyModifiers, MouseButton, MouseEvent, MouseEventKind};
use termul::layout::{find_area, Layout, PaneId, SplitDir};
use termul::menu::{handle_menu_key, handle_menu_mouse, menu_item_at, open_pane_menu, open_tab_menu};
use termul::rename::{handle_rename_key, start_rename};
use termul::session::{
    active_focus, build_status_segs, close_tab, do_close, do_split, finish_spawn, focus_dir,
    grid_dims, new_tab, next_tab, prev_tab, recompute, request_close, request_close_tab, start,
    tab_label, Dir,
};
use termul::shell::ShellIntegration;
use termul::term::TermScreen;

fn report() -> PaneReport {
    PaneReport {
        screen: TermScreen::empty(24, 80),
        scrollback: 0,
        mouse_tracking: false,
        alt_screen: false,
        bracketed_paste: false,
        focus_events: false,
        synchronized_output: false,
    }
}

fn one_pane_app() -> App {
    start(
        Rect::new(0, 0, 80, 24),
        ShellIntegration { dir: "/tmp/termul-0".to_string() },
        Config::default(),
        String::new(),
        report(),
    )
}

fn split(app: &mut App, target: PaneId, dir: SplitDir) {
    let effects = do_split(app, target, dir);
    assert_eq!(effects, [Effect::Spawn(SpawnFor::Split { target, dir })]);
    assert!(finish_spawn(app, SpawnFor::Split { target, dir }, report()));
}

fn key(code: KeyCode) -> KeyEvent {
    KeyEvent::new(code, KeyModifiers::none())
}

fn tab(name: &str, pane: u64) -> Tab {
    Tab { name: name.to_string(), layout: Layout::Leaf(PaneId(pane)), focus: PaneId(pane) }
}

#[test]
fn single_pane_fills_below_tabbar() {
    let mut app = one_pane_app();
    recompute(&mut app, Rect::new(0, 0, 80, 24));
    let rect = find_area(&app.areas, PaneId(0)).unwrap();
    assert_eq!(rect.y, 2);
    assert_eq!(rect.y + rect.height, 24);
    assert_eq!(app.status_y, 1);
}

#[test]
fn popup_rect_clamps_within_screen() {
    let s = Rect::new(0, 0, 80, 24);
    let r = popup_rect(s, 78, 23, 15, 5);
    assert!(r.x + r.width <= 80, "{r:?}");
    assert!(r.y + r.height <= 24, "{r:?}");
    assert_eq!((r.width, r.height), (15, 5));
    let r = popup_rect(s, 10, 5, 15, 5);
    assert_eq!((r.x, r.y), (10, 5));
}

fn dummy_menu(rect: Rect) -> ContextMenu {
    ContextMenu {
        rect,
        items: vec![
            MenuEntry { label: "New tab", action: MenuAction::NewTab },
            MenuEntry { label: "Rename", action: MenuAction::RenameTab(0) },
            MenuEntry { label: "Close", action: MenuAction::CloseTab(0) },
        ],
        hovered: 0,
    }
}

#[test]
fn menu_item_hit_test() {
    let menu = dummy_menu(Rect::new(5, 5, 15, 5));
    let inner = inner_of(menu.rect);
    assert_eq!(menu_item_at(&menu, inner.x, inner.y), Some(0));
    assert_eq!(menu_item_at(&menu, inner.x + 1, inner.y + 1), Some(1));
    assert_eq!(menu_item_at(&menu, inner.x, inner.y + 2), Some(2));
    assert_eq!(menu_item_at(&menu, menu.rect.x, menu.rect.y), None);
    assert_eq!(menu_item_at(&menu, 0, 0), None);
}

#[test]
fn status_segs_layout() {
    let tabs = vec![tab("1", 0), tab("2", 1)];
    let segs = build_status_segs(&tabs, 1, 80, TAB_MIN_W);
    assert_eq!(segs.len(), 3);
    assert!(matches!(segs[0].kind, StatusKind::Switch(0)));
    assert_eq!(segs[0].x, 0);
    assert!(!segs[0].active);
    assert!(segs[0].text.chars().count() as u16 >= TAB_MIN_W);
    assert!(matches!(segs[1].kind, StatusKind::Switch(1)));
    assert!(segs[1].active);
    assert!(matches!(segs[2].kind, StatusKind::NewTab));
    assert_eq!(segs[2].text, " + ");
    assert!(segs[1].x > segs[0].x);
    assert!(segs[2].x > segs[1].x);
}

#[test]
fn status_segs_hide_new_tab_button_when_out_of_space() {
    let tabs = vec![tab("1", 0)];
    let tab_width = tab_label("1", TAB_MIN_W).chars().count() as u16;
    let segs = build_status_segs(&tabs, 0, tab_width + 1, TAB_MIN_W);
    assert_eq!(segs.len(), 1);
    assert!(matches!(segs[0].kind, StatusKind::Switch(0)));
}

#[test]
fn confirm_dialog_centered_and_hit_test() {
    let s = Rect::new(0, 0, 80, 24);
    let r = confirm_rect(s);
    assert_eq!((r.width, r.height), (CONFIRM_W, CONFIRM_H));
    assert_eq!(r.x, (80 - CONFIRM_W) / 2);
    assert_eq!(r.y, (24 - CONFIRM_H) / 2);

    let dialog = ConfirmDialog { rect: r, selected: 0 };
    let inner = inner_of(r);
    let base = inner.y + 2;
    assert_eq!(confirm_option_at(&dialog, inner.x, base), Some(0));
    assert_eq!(confirm_option_at(&dialog, inner.x, base + 1), Some(1));
    assert_eq!(confirm_option_at(&dialog, inner.x, inner.y), None);
    assert_eq!(confirm_option_at(&dialog, 0, 0), None);
}

#[test]
fn rectangles_and_their_cells() {
    let r = Rect::new(3, 4, 10, 5);
    assert_eq!(inner_of(r), Rect::new(4, 5, 8, 3));
    assert_eq!(center(r), (8, 6));
    assert!(within(r, 3, 4) && within(r, 12, 8));
    assert!(!within(r, 13, 8) && !within(r, 12, 9) && !within(r, 2, 4));
    assert_eq!(Rect::new(65530, 0, 10, 1).width, 5);
    assert_eq!(centered_rect(Rect::new(0, 0, 10, 4), 40, 6), Rect::new(0, 0, 10, 4));
    assert_eq!(grid_dims(Rect::new(0, 0, 1, 0)), (2, 2));
}

#[test]
fn a_list_opens_below_or_above_its_cell() {
    let s = Rect::new(0, 0, 80, 24);
    assert_eq!(list_popup_rect(s, 10, 5, 12, 3), Rect::new(10, 6, 16, 5));
    assert_eq!(list_popup_rect(s, 75, 22, 12, 3), Rect::new(64, 17, 16, 5));
    assert_eq!(list_popup_rect(s, 0, 0, 1, 1).width, 8);
}

#[test]
fn a_split_gives_the_focus_to_the_new_pane() {
    let mut app = one_pane_app();
    split(&mut app, PaneId(0), SplitDir::LeftRight);
    assert_eq!(active_focus(&app), PaneId(1));
    assert_eq!(app.panes.len(), 2);
    let effects = recompute(&mut app, Rect::new(0, 0, 80, 24));
    assert_eq!(
        effects,
        [
            Effect::Resize { pane: PaneId(0), rows: 20, cols: 38 },
            Effect::Resize { pane: PaneId(1), rows: 20, cols: 38 },
        ]
    );
    assert!(do_split(&app, PaneId(7), SplitDir::LeftRight).is_empty());
}

#[test]
fn closing_the_pane_of_a_split_undoes_it() {
    let mut app = one_pane_app();
    split(&mut app, PaneId(0), SplitDir::LeftRight);
    assert_eq!(do_close(&mut app, PaneId(1)), [Effect::Close { pane: PaneId(1) }]);
    assert!(matches!(app.tabs[0].layout, Layout::Leaf(PaneId(0))));
    assert_eq!(active_focus(&app), PaneId(0));
    assert!(!app.should_quit);
    assert_eq!(do_close(&mut app, PaneId(0)), [Effect::Close { pane: PaneId(0) }]);
    assert!(app.should_quit && app.tabs.is_empty());
    assert!(do_close(&mut app, PaneId(0)).is_empty());
}

#[test]
fn the_last_pane_is_asked_about() {
    let mut app = one_pane_app();
    assert!(request_close(&mut app, PaneId(0)).is_empty());
    assert!(app.confirm.is_some());
    handle_confirm_key(&mut app, key(KeyCode::Esc));
    assert!(app.confirm.is_none() && !app.should_quit);
    open_confirm(&mut app);
    handle_confirm_key(&mut app, key(KeyCode::Down));
    assert_eq!(app.confirm.as_ref().unwrap().selected, 1);
    handle_confirm_key(&mut app, key(KeyCode::Enter));
    assert!(app.should_quit);
}

#[test]
fn tabs_go_round() {
    let mut app = one_pane_app();
    assert_eq!(new_tab(), [Effect::Spawn(SpawnFor::Tab)]);
    assert!(finish_spawn(&mut app, SpawnFor::Tab, report()));
    assert!(finish_spawn(&mut app, SpawnFor::Tab, report()));
    assert_eq!(app.active_tab, 2);
    assert_eq!(app.tabs[2].name, "3");
    next_tab(&mut app);
    assert_eq!(app.active_tab, 0);
    prev_tab(&mut app);
    assert_eq!(app.active_tab, 2);
    assert_eq!(close_tab(&mut app, 2), [Effect::Close { pane: PaneId(2) }]);
    assert_eq!((app.active_tab, app.tabs.len()), (1, 2));
    assert_eq!(request_close_tab(&mut app, 0), [Effect::Close { pane: PaneId(0) }]);
    assert_eq!((app.active_tab, app.tabs.len()), (0, 1));
    assert!(request_close_tab(&mut app, 0).is_empty());
    assert!(app.confirm.is_some());
}

#[test]
fn the_focus_moves_to_the_next_pane() {
    let mut app = one_pane_app();
    split(&mut app, PaneId(0), SplitDir::LeftRight);
    split(&mut app, PaneId(1), SplitDir::TopBottom);
    recompute(&mut app, Rect::new(0, 0, 80, 24));
    assert_eq!(active_focus(&app), PaneId(2));
    focus_dir(&mut app, Dir::Up);
    assert_eq!(active_focus(&app), PaneId(1));
    focus_dir(&mut app, Dir::Left);
    assert_eq!(active_focus(&app), PaneId(0));
    focus_dir(&mut app, Dir::Left);
    assert_eq!(active_focus(&app), PaneId(0));
    focus_dir(&mut app, Dir::Right);
    assert_ne!(active_focus(&app), PaneId(0));
}

#[test]
fn a_tab_is_renamed() {
    let mut app = one_pane_app();
    start_rename(&mut app, 0);
    assert_eq!(app.rename.as_ref().unwrap().buffer, "1");
    handle_rename_key(&mut app, key(KeyCode::Backspace));
    for c in "logs".chars() {
        handle_rename_key(&mut app, key(KeyCode::Char(c)));
    }
    handle_rename_key(&mut app, key(KeyCode::Enter));
    assert!(app.rename.is_none());
    assert_eq!(app.tabs[0].name, "logs");
    start_rename(&mut app, 0);
    handle_rename_key(&mut app, key(KeyCode::Char('x')));
    handle_rename_key(&mut app, key(KeyCode::Esc));
    assert_eq!(app.tabs[0].name, "logs");
}

#[test]
fn a_menu_is_used() {
    let mut app = one_pane_app();
    open_pane_menu(&mut app, PaneId(0), 10, 10);
    let rect = app.menu.as_ref().unwrap().rect;
    assert_eq!((rect.x, rect.y, rect.height), (10, 10, 5));
    handle_menu_key(&mut app, key(KeyCode::Down));
    assert_eq!(app.menu.as_ref().unwrap().hovered, 1);
    assert_eq!(
        handle_menu_key(&mut app, key(KeyCode::Enter)),
        [Effect::Spawn(SpawnFor::Split { target: PaneId(0), dir: SplitDir::TopBottom })]
    );
    assert!(app.menu.is_none());
    open_tab_menu(&mut app, 0, 10, 10);
    let me = MouseEvent {
        kind: MouseEventKind::Down(MouseButton::Left),
        column: 11,
        row: 12,
        modifiers: KeyModifiers::none(),
    };
    assert!(handle_menu_mouse(&mut app, me).is_empty());
    assert!(app.menu.is_none());
    assert_eq!(app.rename.as_ref().unwrap().tab_index, 0);
}
