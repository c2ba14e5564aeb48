//! Menus at the pointer, for panes and for tabs.

use crate::app;
use crate::app::{App, ContextMenu, Effect, EffectView, MenuAction, MenuEntry, SpawnFor};
use crate::geometry;
use crate::geometry::{inner_of, popup_rect, within};
use crate::keys::{KeyCode, KeyEvent, MouseEvent, MouseEventKind};
use crate::layout::{PaneId, SplitDir};
use crate::rename;
use crate::rename::start_rename;
use crate::session;
use crate::session::{do_split, new_tab, request_close, request_close_tab};
use crate::text;
use vstd::prelude::*;

verus! {

/// The length of the longest of the first `n` labels.
pub open spec fn longest_label(items: Seq<MenuEntry>, n: int) -> int
    decreases n,
{
    if n <= 0 {
        0
    } else {
        geometry::max_of(longest_label(items, n - 1), items[n - 1].label@.len() as int)
    }
}

/// The menu with these entries, opened at a cell: as wide as its longest label with a blank on each
/// side, inside a border.
pub open spec fn menu_at(pre: App, items: Seq<MenuEntry>, col: int, row: int, menu: ContextMenu) -> bool {
    &&& menu.items@ == items
    &&& menu.hovered == 0
    &&& menu.rect == geometry::popup_area(
        pre.screen,
        col,
        row,
        longest_label(items, items.len() as int) + 4,
        items.len() as int + 2,
    )
}

/// The state once a menu is open.
pub open spec fn menu_opened(
    pre: App,
    items: Seq<MenuEntry>,
    col: int,
    row: int,
    post: App,
) -> bool {
    &&& post.menu is Some
    &&& menu_at(pre, items, col, row, post.menu->0)
    &&& post == (App { menu: post.menu, ..pre })
}

/// Opens a menu at a cell.
pub fn open_menu_with(app: &mut App, items: Vec<MenuEntry>, col: u16, row: u16)
    requires
        old(app).wf(),
        0 < items@.len() < 0xfff0,
        longest_label(items@, items@.len() as int) < 0xfff0,
    ensures
        menu_opened(*old(app), items@, col as int, row as int, *final(app)),
        final(app).wf(),
{
    let mut longest: usize = 0;
    let mut i: usize = 0;
    let n: usize = items.len();
    while i < n
        invariant
            i <= n,
            n == items@.len(),
            longest == longest_label(items@, i as int),
        decreases n - i,
    {
        let label = text::chars_of(items[i].label);
        if label.len() > longest {
            longest = label.len();
        }
        i = i + 1;
    }
    let rect = popup_rect(app.screen, col, row, longest as u16 + 4, n as u16 + 2);
    app.menu = Some(ContextMenu { rect, items, hovered: 0 });
}

/// The entries of the menu of a pane.
pub open spec fn pane_entries(pid: PaneId) -> Seq<MenuEntry> {
    seq![
        MenuEntry { label: "Split Right", action: MenuAction::SplitRight(pid) },
        MenuEntry { label: "Split Down", action: MenuAction::SplitDown(pid) },
        MenuEntry { label: "Close Pane", action: MenuAction::ClosePane(pid) },
    ]
}

/// Opens the menu of a pane.
pub fn open_pane_menu(app: &mut App, pid: PaneId, col: u16, row: u16)
    requires
        old(app).wf(),
    ensures
        menu_opened(*old(app), pane_entries(pid), col as int, row as int, *final(app)),
        final(app).wf(),
{
    let mut items: Vec<MenuEntry> = Vec::new();
    items.push(MenuEntry { label: "Split Right", action: MenuAction::SplitRight(pid) });
    items.push(MenuEntry { label: "Split Down", action: MenuAction::SplitDown(pid) });
    items.push(MenuEntry { label: "Close Pane", action: MenuAction::ClosePane(pid) });
    assert(items@ =~= pane_entries(pid));
    proof {
        reveal_strlit("Split Right");
        reveal_strlit("Split Down");
        reveal_strlit("Close Pane");
        reveal_with_fuel(longest_label, 4);
    }
    open_menu_with(app, items, col, row);
}

/// The entries of the menu of a tab.
pub open spec fn tab_entries(tab_index: usize) -> Seq<MenuEntry> {
    seq![
        MenuEntry { label: "New tab", action: MenuAction::NewTab },
        MenuEntry { label: "Rename", action: MenuAction::RenameTab(tab_index) },
        MenuEntry { label: "Close", action: MenuAction::CloseTab(tab_index) },
    ]
}

/// Opens the menu of a tab.
pub fn open_tab_menu(app: &mut App, tab_index: usize, col: u16, row: u16)
    requires
        old(app).wf(),
    ensures
        menu_opened(*old(app), tab_entries(tab_index), col as int, row as int, *final(app)),
        final(app).wf(),
{
    let mut items: Vec<MenuEntry> = Vec::new();
    items.push(MenuEntry { label: "New tab", action: MenuAction::NewTab });
    items.push(MenuEntry { label: "Rename", action: MenuAction::RenameTab(tab_index) });
    items.push(MenuEntry { label: "Close", action: MenuAction::CloseTab(tab_index) });
    assert(items@ =~= tab_entries(tab_index));
    proof {
        reveal_strlit("New tab");
        reveal_strlit("Rename");
        reveal_strlit("Close");
        reveal_with_fuel(longest_label, 4);
    }
    open_menu_with(app, items, col, row);
}

/// The entry in a cell of the screen.
pub open spec fn entry_at(menu: ContextMenu, col: int, row: int) -> Option<int> {
    let inner = geometry::inner_area(menu.rect);
    if inner.has(col, row) && row - inner.y < menu.items@.len() {
        Some(row - inner.y)
    } else {
        None
    }
}

/// The entry in a cell of the screen.
pub fn menu_item_at(menu: &ContextMenu, col: u16, row: u16) -> (r: Option<usize>)
    requires
        menu.rect.wf(),
    ensures
        match r {
            Some(i) => entry_at(*menu, col as int, row as int) == Some(i as int) && i
                < menu.items@.len(),
            None => entry_at(*menu, col as int, row as int) is None,
        },
{
    let inner = inner_of(menu.rect);
    if !within(inner, col, row) {
        return None;
    }
    let index: usize = (row - inner.y) as usize;
    if index < menu.items.len() {
        Some(index)
    } else {
        None
    }
}

/// The state after an entry was carried out.
pub open spec fn executed(pre: App, action: MenuAction, post: App) -> bool {
    match action {
        MenuAction::SplitRight(_) => post == pre,
        MenuAction::SplitDown(_) => post == pre,
        MenuAction::ClosePane(p) => session::close_requested(pre, p, post),
        MenuAction::NewTab => post == pre,
        MenuAction::RenameTab(i) => post == rename::rename_started(pre, i as int),
        MenuAction::CloseTab(i) => session::tab_close_requested(pre, i as int, post),
    }
}

/// What carrying out an entry asks for.
pub open spec fn action_effects(pre: App, action: MenuAction) -> Seq<EffectView> {
    match action {
        MenuAction::SplitRight(p) => session::split_effects(pre.tabs@, p, SplitDir::LeftRight),
        MenuAction::SplitDown(p) => session::split_effects(pre.tabs@, p, SplitDir::TopBottom),
        MenuAction::ClosePane(p) => session::request_effects(pre.panes@, p),
        MenuAction::NewTab => seq![EffectView::Spawn(SpawnFor::Tab)],
        MenuAction::RenameTab(_) => app::no_effects(),
        MenuAction::CloseTab(i) => session::tab_request_effects(pre, i as int),
    }
}

/// Carries out an entry.
pub fn exec_menu(app: &mut App, action: MenuAction) -> (r: Vec<Effect>)
    requires
        old(app).wf(),
    ensures
        executed(*old(app), action, *final(app)),
        app::effects_view(r@) == action_effects(*old(app), action),
        final(app).wf(),
        old(app).focus_wf() ==> final(app).focus_wf(),
{
    match action {
        MenuAction::SplitRight(p) => do_split(app, p, SplitDir::LeftRight),
        MenuAction::SplitDown(p) => do_split(app, p, SplitDir::TopBottom),
        MenuAction::ClosePane(p) => request_close(app, p),
        MenuAction::NewTab => new_tab(),
        MenuAction::RenameTab(i) => {
            start_rename(app, i);
            app::nothing()
        },
        MenuAction::CloseTab(i) => request_close_tab(app, i),
    }
}

/// The state after a mouse event while a menu is open: the pointer selects, a click closes the menu
/// and carries out the entry that it hits.
pub open spec fn mouse_handled(pre: App, me: MouseEvent, post: App) -> bool {
    let menu = pre.menu->0;
    let hit = entry_at(menu, me.column as int, me.row as int);
    match me.kind {
        MouseEventKind::Moved | MouseEventKind::Drag(_) => match hit {
            Some(i) => post == (App {
                menu: Some(ContextMenu { hovered: i as usize, ..menu }),
                ..pre
            }),
            None => post == pre,
        },
        MouseEventKind::Down(_) => match hit {
            Some(i) => executed(App { menu: None, ..pre }, menu.items@[i].action, post),
            None => post == (App { menu: None, ..pre }),
        },
        _ => post == pre,
    }
}

/// What a mouse event asks for while a menu is open.
pub open spec fn mouse_effects(pre: App, me: MouseEvent) -> Seq<EffectView> {
    let menu = pre.menu->0;
    let hit = entry_at(menu, me.column as int, me.row as int);
    if me.kind is Down && hit is Some {
        action_effects(App { menu: None, ..pre }, menu.items@[hit->0].action)
    } else {
        app::no_effects()
    }
}

/// A mouse event while a menu is open.
pub fn handle_menu_mouse(app: &mut App, me: MouseEvent) -> (r: Vec<Effect>)
    requires
        old(app).wf(),
        old(app).menu is Some,
    ensures
        mouse_handled(*old(app), me, *final(app)),
        app::effects_view(r@) == mouse_effects(*old(app), me),
        final(app).wf(),
        old(app).focus_wf() ==> final(app).focus_wf(),
{
    let hit = match &app.menu {
        Some(menu) => menu_item_at(menu, me.column, me.row),
        None => None,
    };
    match me.kind {
        MouseEventKind::Moved | MouseEventKind::Drag(_) => {
            if let Some(i) = hit {
                if let Some(menu) = &mut app.menu {
                    menu.hovered = i;
                }
            }
            app::nothing()
        },
        MouseEventKind::Down(_) => {
            if let Some(menu) = app.menu.take() {
                if let Some(i) = hit {
                    return exec_menu(app, menu.items[i].action);
                }
            }
            app::nothing()
        },
        _ => app::nothing(),
    }
}

/// The state after a key while a menu is open.
pub open spec fn key_handled(pre: App, key: KeyEvent, post: App) -> bool {
    let menu = pre.menu->0;
    match key.code {
        KeyCode::Esc => post == (App { menu: None, ..pre }),
        KeyCode::Up => post == (App {
            menu: Some(
                ContextMenu { hovered: geometry::minus(menu.hovered as int, 1) as usize, ..menu },
            ),
            ..pre
        }),
        KeyCode::Down => post == (App {
            menu: Some(
                ContextMenu {
                    hovered: geometry::min_of(
                        menu.hovered + 1,
                        menu.items@.len() - 1,
                    ) as usize,
                    ..menu
                },
            ),
            ..pre
        }),
        KeyCode::Enter => executed(
            App { menu: None, ..pre },
            menu.items@[menu.hovered as int].action,
            post,
        ),
        _ => post == pre,
    }
}

/// What a key asks for while a menu is open.
pub open spec fn key_effects(pre: App, key: KeyEvent) -> Seq<EffectView> {
    let menu = pre.menu->0;
    if key.code == KeyCode::Enter {
        action_effects(App { menu: None, ..pre }, menu.items@[menu.hovered as int].action)
    } else {
        app::no_effects()
    }
}

/// A key while a menu is open.
pub fn handle_menu_key(app: &mut App, key: KeyEvent) -> (r: Vec<Effect>)
    requires
        old(app).wf(),
        old(app).menu is Some,
    ensures
        key_handled(*old(app), key, *final(app)),
        app::effects_view(r@) == key_effects(*old(app), key),
        final(app).wf(),
        old(app).focus_wf() ==> final(app).focus_wf(),
{
    match key.code {
        KeyCode::Esc => {
            app.menu = None;
            app::nothing()
        },
        KeyCode::Up => {
            if let Some(menu) = &mut app.menu {
                menu.hovered = menu.hovered.saturating_sub(1);
            }
            app::nothing()
        },
        KeyCode::Down => {
            if let Some(menu) = &mut app.menu {
                if menu.hovered < menu.items.len() - 1 {
                    menu.hovered = menu.hovered + 1;
                }
            }
            app::nothing()
        },
        KeyCode::Enter => {
            if let Some(menu) = app.menu.take() {
                return exec_menu(app, menu.items[menu.hovered].action);
            }
            app::nothing()
        },
        _ => app::nothing(),
    }
}

/// A click inside a menu hits the entry in its row, and a click outside hits none.
pub proof fn entries_are_hit_by_their_rows(menu: ContextMenu, col: int, row: int)
    ensures
        ({
            let inner = geometry::inner_area(menu.rect);
            &&& !inner.has(col, row) ==> entry_at(menu, col, row) is None
            &&& entry_at(menu, col, row) matches Some(i) ==> 0 <= i < menu.items@.len() && inner.y
                + i == row
            &&& inner.has(col, row) && row < inner.y + menu.items@.len() ==> entry_at(
                menu,
                col,
                row,
            ) is Some
        }),
{
}

/// There is room in a menu for each of its labels.
pub proof fn labels_fit(items: Seq<MenuEntry>, n: int, i: int)
    requires
        0 <= i < n <= items.len(),
    ensures
        items[i].label@.len() <= longest_label(items, n),
    decreases n,
{
    if i < n - 1 {
        labels_fit(items, n - 1, i);
    }
}

/// An entry further down, and then one up, is where the menu was; the ends are not left.
pub proof fn moving_back_keeps_the_entry(pre: App, down: KeyEvent, mid: App, up: KeyEvent, post: App)
    requires
        pre.menu is Some,
        (pre.menu->0).hovered < (pre.menu->0).items@.len() <= usize::MAX,
        down.code == KeyCode::Down,
        up.code == KeyCode::Up,
        key_handled(pre, down, mid),
        key_handled(mid, up, post),
    ensures
        mid.menu is Some,
        (mid.menu->0).hovered < (mid.menu->0).items@.len(),
        (pre.menu->0).hovered + 1 < (pre.menu->0).items@.len() ==> (mid.menu->0).hovered == (
        pre.menu->0).hovered + 1 && (post.menu->0).hovered == (pre.menu->0).hovered,
        (mid.menu->0).items == (pre.menu->0).items,
        post.panes == pre.panes,
        post.tabs == pre.tabs,
{
}

/// The menu of a pane is about this pane, and the menu of a tab about this tab.
pub proof fn menus_are_about_what_was_clicked(pid: PaneId, tab: usize, i: int)
    ensures
        0 <= i < pane_entries(pid).len() ==> (match pane_entries(pid)[i].action {
            MenuAction::SplitRight(p) => p == pid && pane_entries(pid)[i].label == "Split Right",
            MenuAction::SplitDown(p) => p == pid && pane_entries(pid)[i].label == "Split Down",
            MenuAction::ClosePane(p) => p == pid && pane_entries(pid)[i].label == "Close Pane",
            _ => false,
        }),
        0 <= i < tab_entries(tab).len() ==> (match tab_entries(tab)[i].action {
            MenuAction::RenameTab(t) => t == tab && tab_entries(tab)[i].label == "Rename",
            MenuAction::CloseTab(t) => t == tab && tab_entries(tab)[i].label == "Close",
            MenuAction::NewTab => tab_entries(tab)[i].label == "New tab",
            _ => false,
        }),
        pane_entries(pid).len() == 3,
        tab_entries(tab).len() == 3,
{
}

/// A menu splits the pane that it is about, to the right or below, and nothing else changes until
/// the new pane is there.
pub proof fn menus_split_their_pane(pre: App, pid: PaneId, post: App)
    requires
        app::in_tabs(pre.tabs@, pid),
    ensures
        executed(pre, MenuAction::SplitRight(pid), post) ==> post == pre,
        executed(pre, MenuAction::SplitDown(pid), post) ==> post == pre,
        action_effects(pre, MenuAction::SplitRight(pid)) == seq![
            EffectView::Spawn(SpawnFor::Split { target: pid, dir: SplitDir::LeftRight }),
        ],
        action_effects(pre, MenuAction::SplitDown(pid)) == seq![
            EffectView::Spawn(SpawnFor::Split { target: pid, dir: SplitDir::TopBottom }),
        ],
{
}

/// Moving over an entry selects it; a click on it carries it out, and a click outside carries out
/// nothing. Either click closes the menu.
pub proof fn clicks_carry_out_the_entry_under_them(pre: App, me: MouseEvent, post: App, i: int)
    requires
        pre.menu is Some,
        mouse_handled(pre, me, post),
        (pre.menu->0).items@.len() <= usize::MAX,
    ensures
        ({
            let hit = entry_at(pre.menu->0, me.column as int, me.row as int);
            let shut = App { menu: None, ..pre };
            &&& me.kind is Moved && hit == Some(i) ==> (post.menu matches Some(menu) && menu.hovered
                == i)
            &&& me.kind is Down && hit is None ==> post == shut && mouse_effects(pre, me).len() == 0
            &&& me.kind is Down && hit == Some(i) ==> executed(
                shut,
                (pre.menu->0).items@[i].action,
                post,
            ) && mouse_effects(pre, me) == action_effects(shut, (pre.menu->0).items@[i].action)
            &&& me.kind is Moved ==> mouse_effects(pre, me).len() == 0 && post.tabs == pre.tabs
        }),
{
}

/// A menu has a row for each entry, and room for each label with a blank on both sides, where the
/// screen has it.
pub proof fn menus_have_room(
    pre: App,
    items: Seq<MenuEntry>,
    col: int,
    row: int,
    menu: ContextMenu,
    i: int,
)
    requires
        pre.screen.wf(),
        0 <= col <= u16::MAX,
        0 <= row <= u16::MAX,
        menu_at(pre, items, col, row, menu),
        0 <= i < items.len(),
        longest_label(items, items.len() as int) + 4 <= pre.screen.width,
        items.len() + 2 <= pre.screen.height,
    ensures
        geometry::inner_area(menu.rect).height == items.len(),
        geometry::inner_area(menu.rect).width >= items[i].label@.len() + 2,
        menu.items@ == items,
        menu.hovered == 0,
{
    labels_fit(items, items.len() as int, i);
}

} // verus!
