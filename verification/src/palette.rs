//! The history palette: searching, selecting and taking a command that was run before.

use crate::app;
use crate::app::{App, Effect, EffectView, Palette, PALETTE_H, PALETTE_W};
use crate::geometry;
use crate::geometry::{centered_rect, inner_of, Rect};
use crate::history::HistoryEntry;
use crate::keys::{KeyCode, KeyEvent, MouseEvent, MouseEventKind};
use crate::rename::without_last;
use crate::session::active_focus;
use crate::text;
use vstd::prelude::*;
use vstd::utf8;

verus! {

/// The place of the palette: the middle of the screen.
pub fn palette_rect(s: Rect) -> (r: Rect)
    requires
        s.wf(),
    ensures
        r == geometry::centered_area(s, PALETTE_W as int, PALETTE_H as int),
        r.wf(),
{
    centered_rect(s, PALETTE_W, PALETTE_H)
}

/// The directory of the pane with the focus; empty where there is no such pane.
pub open spec fn cwd_in_focus(app: App) -> Seq<char> {
    if app::has_pane(app.panes@, app.focus()) {
        app.pane(app.focus()).cwd@
    } else {
        Seq::empty()
    }
}

/// The directory of the pane with the focus.
pub fn focused_cwd(app: &App) -> (r: String)
    requires
        app.active_tab < app.tabs@.len(),
    ensures
        r@ == cwd_in_focus(*app),
{
    match app::find_pane(&app.panes, active_focus(app)) {
        Some(i) => app.panes[i].cwd.clone(),
        None => String::new(),
    }
}

/// The results that there is room for: the rows inside the border, below the query.
pub open spec fn capacity(rect: Rect) -> int {
    geometry::minus(geometry::inner_area(rect).height as int, 1)
}

/// The results that there is room for.
pub fn palette_capacity(rect: Rect) -> (r: usize)
    ensures
        r == capacity(rect),
{
    inner_of(rect).height.saturating_sub(1) as usize
}

/// The search that a palette asks for.
pub open spec fn search_for(app: App, palette: Palette) -> EffectView {
    EffectView::Search {
        query: palette.query@,
        cwd: cwd_in_focus(app),
        limit: capacity(palette.rect),
    }
}

/// The state once the palette is open: nothing was typed, and no results have come yet.
pub open spec fn palette_opened(pre: App, post: App) -> bool {
    &&& post.palette is Some
    &&& (post.palette->0).query@.len() == 0
    &&& (post.palette->0).results@.len() == 0
    &&& (post.palette->0).selected == 0
    &&& (post.palette->0).rect == geometry::centered_area(
        pre.screen,
        PALETTE_W as int,
        PALETTE_H as int,
    )
    &&& post == (App { palette: post.palette, ..pre })
}

/// Opens the palette.
pub fn open_palette(app: &mut App) -> (r: Vec<Effect>)
    requires
        old(app).wf(),
        old(app).active_tab < old(app).tabs@.len(),
    ensures
        palette_opened(*old(app), *final(app)),
        app::effects_view(r@) == seq![search_for(*final(app), final(app).palette->0)],
        final(app).wf(),
{
    let rect = palette_rect(app.screen);
    let cwd = focused_cwd(app);
    let limit: usize = palette_capacity(rect);
    let query = String::new();
    let search = Effect::Search { query: query.clone(), cwd, limit };
    app.palette = Some(Palette { query, results: Vec::new(), selected: 0, rect });
    app::just(search)
}

/// The search that the palette asks for.
pub fn palette_research(app: &App) -> (r: Vec<Effect>)
    requires
        app.active_tab < app.tabs@.len(),
    ensures
        app::effects_view(r@) == research_effects(*app),
{
    match &app.palette {
        Some(palette) => {
            let cwd = focused_cwd(app);
            let limit: usize = palette_capacity(palette.rect);
            app::just(Effect::Search { query: palette.query.clone(), cwd, limit })
        },
        None => app::nothing(),
    }
}

pub open spec fn research_effects(app: App) -> Seq<EffectView> {
    match app.palette {
        Some(palette) => seq![search_for(app, palette)],
        None => app::no_effects(),
    }
}

/// Shows what a search has found, with the first result selected.
pub fn palette_results(app: &mut App, results: Vec<HistoryEntry>)
    requires
        old(app).wf(),
    ensures
        *final(app) == (match old(app).palette {
            Some(palette) => App {
                palette: Some(Palette { results, selected: 0, ..palette }),
                ..*old(app)
            },
            None => *old(app),
        }),
        final(app).wf(),
{
    if let Some(palette) = &mut app.palette {
        palette.results = results;
        palette.selected = 0;
    }
}

/// What taking the selected command sends to the pane with the focus: the command, not run.
pub open spec fn accept_effects(pre: App) -> Seq<EffectView> {
    let palette = pre.palette->0;
    if palette.selected < palette.results@.len() && app::has_pane(pre.panes@, pre.focus()) {
        seq![
            EffectView::Write {
                pane: pre.focus(),
                bytes: utf8::encode_utf8(palette.results@[palette.selected as int].cmdline@),
            },
        ]
    } else {
        app::no_effects()
    }
}

/// Takes the selected command.
pub fn palette_accept(app: &mut App) -> (r: Vec<Effect>)
    requires
        old(app).wf(),
        old(app).active_tab < old(app).tabs@.len(),
        old(app).palette is Some,
    ensures
        *final(app) == (App { palette: None, ..*old(app) }),
        app::effects_view(r@) == accept_effects(*old(app)),
        final(app).wf(),
{
    if let Some(palette) = app.palette.take() {
        if palette.selected < palette.results.len() {
            let bytes = text::bytes_of(palette.results[palette.selected].cmdline.as_str());
            let focus = active_focus(app);
            if app::find_pane(&app.panes, focus).is_some() {
                return app::just(Effect::Write { pane: focus, bytes });
            }
        }
    }
    app::nothing()
}

/// The result in a cell of the screen.
pub open spec fn row_at(palette: Palette, col: int, row: int) -> Option<int> {
    let inner = geometry::inner_area(palette.rect);
    let base = inner.y + 1;
    if inner.x <= col < inner.x + inner.width && base <= row < base + palette.results@.len() {
        Some(row - base)
    } else {
        None
    }
}

/// The result in a cell of the screen.
pub fn palette_row_at(palette: &Palette, col: u16, row: u16) -> (r: Option<usize>)
    requires
        palette.rect.wf(),
    ensures
        match r {
            Some(i) => row_at(*palette, col as int, row as int) == Some(i as int) && i
                < palette.results@.len(),
            None => row_at(*palette, col as int, row as int) is None,
        },
{
    let inner = inner_of(palette.rect);
    let base: u32 = inner.y as u32 + 1;
    if col < inner.x || col >= inner.x + inner.width || (row as u32) < base {
        return None;
    }
    let index: usize = (row as u32 - base) as usize;
    if index < palette.results.len() {
        Some(index)
    } else {
        None
    }
}

/// The palette with another query.
pub open spec fn with_query(pre: App, query: Seq<char>, post: App) -> bool {
    &&& post.palette is Some
    &&& (post.palette->0).query@ == query
    &&& post.palette->0 == (Palette { query: (post.palette->0).query, ..pre.palette->0 })
    &&& post == (App { palette: post.palette, ..pre })
}

/// The state after a key in the palette.
pub open spec fn key_handled(pre: App, key: KeyEvent, post: App) -> bool {
    let palette = pre.palette->0;
    match key.code {
        KeyCode::Esc => post == (App { palette: None, ..pre }),
        KeyCode::Enter => post == (App { palette: None, ..pre }),
        KeyCode::Up => post == (App {
            palette: Some(
                Palette {
                    selected: geometry::minus(palette.selected as int, 1) as usize,
                    ..palette
                },
            ),
            ..pre
        }),
        KeyCode::Down => post == (App {
            palette: Some(
                Palette {
                    selected: geometry::min_of(
                        palette.selected + 1,
                        geometry::minus(palette.results@.len() as int, 1),
                    ) as usize,
                    ..palette
                },
            ),
            ..pre
        }),
        KeyCode::Backspace => with_query(
            pre,
            if palette.query@.len() > 0 {
                palette.query@.drop_last()
            } else {
                palette.query@
            },
            post,
        ),
        KeyCode::Char(c) => with_query(pre, palette.query@.push(c), post),
        _ => post == pre,
    }
}

/// What a key in the palette asks for. A changed query is searched for; a command that is deleted
/// is forgotten, and the search done again.
pub open spec fn key_effects(pre: App, key: KeyEvent, post: App) -> Seq<EffectView> {
    let palette = pre.palette->0;
    match key.code {
        KeyCode::Enter => accept_effects(pre),
        KeyCode::Backspace | KeyCode::Char(_) => research_effects(post),
        KeyCode::Delete => if palette.selected < palette.results@.len() {
            seq![
                EffectView::Forget {
                    cmdline: palette.results@[palette.selected as int].cmdline@,
                },
                search_for(pre, palette),
            ]
        } else {
            app::no_effects()
        },
        _ => app::no_effects(),
    }
}

/// A key in the palette.
pub fn handle_palette_key(app: &mut App, key: KeyEvent) -> (r: Vec<Effect>)
    requires
        old(app).wf(),
        old(app).active_tab < old(app).tabs@.len(),
        old(app).palette is Some,
    ensures
        key_handled(*old(app), key, *final(app)),
        app::effects_view(r@) == key_effects(*old(app), key, *final(app)),
        final(app).wf(),
{
    match key.code {
        KeyCode::Esc => {
            app.palette = None;
            app::nothing()
        },
        KeyCode::Enter => palette_accept(app),
        KeyCode::Up => {
            if let Some(palette) = &mut app.palette {
                palette.selected = palette.selected.saturating_sub(1);
            }
            app::nothing()
        },
        KeyCode::Down => {
            if let Some(palette) = &mut app.palette {
                let n: usize = palette.results.len();
                if n == 0 {
                    palette.selected = 0;
                } else if palette.selected < n - 1 {
                    palette.selected = palette.selected + 1;
                }
            }
            app::nothing()
        },
        KeyCode::Backspace => {
            if let Some(palette) = &mut app.palette {
                palette.query = without_last(palette.query.as_str());
            }
            palette_research(app)
        },
        KeyCode::Char(c) => {
            if let Some(palette) = &mut app.palette {
                palette.query.push(c);
            }
            palette_research(app)
        },
        KeyCode::Delete => {
            let cwd = focused_cwd(app);
            if let Some(palette) = &app.palette {
                if palette.selected < palette.results.len() {
                    let cmdline = palette.results[palette.selected].cmdline.clone();
                    let limit: usize = palette_capacity(palette.rect);
                    return app::both(
                        Effect::Forget { cmdline },
                        Effect::Search { query: palette.query.clone(), cwd, limit },
                    );
                }
            }
            app::nothing()
        },
        _ => app::nothing(),
    }
}

/// The state after a mouse event over the palette: the pointer selects, a click takes a result or,
/// outside them, closes the palette.
pub open spec fn after_mouse(pre: App, me: MouseEvent) -> App {
    let palette = pre.palette->0;
    let hit = row_at(palette, me.column as int, me.row as int);
    match me.kind {
        MouseEventKind::Moved | MouseEventKind::Drag(_) => match hit {
            Some(i) => App {
                palette: Some(Palette { selected: i as usize, ..palette }),
                ..pre
            },
            None => pre,
        },
        MouseEventKind::Down(_) => App { palette: None, ..pre },
        _ => pre,
    }
}

/// What a mouse event over the palette asks for.
pub open spec fn mouse_effects(pre: App, me: MouseEvent) -> Seq<EffectView> {
    let palette = pre.palette->0;
    let hit = row_at(palette, me.column as int, me.row as int);
    if me.kind is Down && hit is Some {
        accept_effects(
            App { palette: Some(Palette { selected: hit->0 as usize, ..palette }), ..pre },
        )
    } else {
        app::no_effects()
    }
}

/// A mouse event over the palette.
pub fn handle_palette_mouse(app: &mut App, me: MouseEvent) -> (r: Vec<Effect>)
    requires
        old(app).wf(),
        old(app).active_tab < old(app).tabs@.len(),
        old(app).palette is Some,
    ensures
        *final(app) == after_mouse(*old(app), me),
        app::effects_view(r@) == mouse_effects(*old(app), me),
        final(app).wf(),
{
    let hit = match &app.palette {
        Some(palette) => palette_row_at(palette, me.column, me.row),
        None => None,
    };
    match me.kind {
        MouseEventKind::Moved | MouseEventKind::Drag(_) => {
            if let Some(i) = hit {
                if let Some(palette) = &mut app.palette {
                    palette.selected = i;
                }
            }
            app::nothing()
        },
        MouseEventKind::Down(_) => {
            match hit {
                Some(i) => {
                    if let Some(palette) = &mut app.palette {
                        palette.selected = i;
                    }
                    palette_accept(app)
                },
                None => {
                    app.palette = None;
                    app::nothing()
                },
            }
        },
        _ => app::nothing(),
    }
}

/// A character that is typed and deleted again leaves the query as it was, and each key of the two
/// searches anew for what is then the query.
pub proof fn deleting_undoes_typing(pre: App, key: KeyEvent, mid: App, back: KeyEvent, post: App)
    requires
        pre.palette is Some,
        key.code is Char,
        back.code == KeyCode::Backspace,
        key_handled(pre, key, mid),
        key_handled(mid, back, post),
    ensures
        mid.palette is Some,
        post.palette is Some,
        (mid.palette->0).query@.len() == (pre.palette->0).query@.len() + 1,
        (mid.palette->0).query@.last() == key.code->Char_0,
        (post.palette->0).query@ == (pre.palette->0).query@,
{
    assert((pre.palette->0).query@.push(key.code->Char_0).drop_last() =~= (pre.palette->0).query@);
}

/// A result further down, and then one up, is where the selection was; the ends are not left.
pub proof fn moving_back_keeps_the_result(pre: App, down: KeyEvent, mid: App, up: KeyEvent, post: App)
    requires
        pre.palette is Some,
        (pre.palette->0).selected < (pre.palette->0).results@.len() <= usize::MAX,
        down.code == KeyCode::Down,
        up.code == KeyCode::Up,
        key_handled(pre, down, mid),
        key_handled(mid, up, post),
    ensures
        mid.palette is Some,
        (mid.palette->0).selected < (mid.palette->0).results@.len(),
        (pre.palette->0).selected + 1 < (pre.palette->0).results@.len() ==> (
        mid.palette->0).selected == (pre.palette->0).selected + 1 && (post.palette->0).selected == (
        pre.palette->0).selected,
        (mid.palette->0).query == (pre.palette->0).query,
{
}

/// A click hits the result in its row, below the line with the query, and nothing else.
pub proof fn results_are_hit_by_their_rows(palette: Palette, col: int, row: int)
    ensures
        ({
            let inner = geometry::inner_area(palette.rect);
            &&& row_at(palette, col, row) matches Some(i) ==> 0 <= i < palette.results@.len()
                && inner.y + 1 + i == row && inner.x <= col < inner.x + inner.width
            &&& inner.x <= col < inner.x + inner.width && inner.y < row <= inner.y
                + palette.results@.len() ==> row_at(palette, col, row) is Some
            &&& row <= inner.y ==> row_at(palette, col, row) is None
        }),
{
}

/// The command that is taken is typed into the pane with the focus, whole and without running it.
pub proof fn accepting_types_the_command(pre: App)
    requires
        pre.palette is Some,
        (pre.palette->0).selected < (pre.palette->0).results@.len(),
        app::has_pane(pre.panes@, pre.focus()),
    ensures
        accept_effects(pre).len() == 1,
        accept_effects(pre)[0] matches EffectView::Write { pane, bytes } && pane == pre.focus()
            && utf8::decode_utf8(bytes) == (pre.palette->0).results@[(
        pre.palette->0).selected as int].cmdline@,
{
    utf8::encode_utf8_decode_utf8(
        (pre.palette->0).results@[(pre.palette->0).selected as int].cmdline@,
    );
}

/// A click on a result types the command of that result, and not that of another; a click elsewhere
/// types nothing. Either closes the palette.
pub proof fn clicks_take_the_result_under_them(pre: App, me: MouseEvent, i: int)
    requires
        pre.palette is Some,
        me.kind is Down,
        app::has_pane(pre.panes@, pre.focus()),
        (pre.palette->0).results@.len() <= usize::MAX,
    ensures
        after_mouse(pre, me).palette is None,
        row_at(pre.palette->0, me.column as int, me.row as int) is None ==> mouse_effects(
            pre,
            me,
        ).len() == 0,
        row_at(pre.palette->0, me.column as int, me.row as int) == Some(i) ==> mouse_effects(
            pre,
            me,
        ).len() == 1 && (mouse_effects(pre, me)[0] matches EffectView::Write { pane, bytes } && pane
            == pre.focus() && utf8::decode_utf8(bytes) == (
        pre.palette->0).results@[i].cmdline@),
{
    if let Some(k) = row_at(pre.palette->0, me.column as int, me.row as int) {
        utf8::encode_utf8_decode_utf8((pre.palette->0).results@[k].cmdline@);
    }
}

/// What is typed is searched for, all of it, with the directory of the pane with the focus; a command
/// that is deleted is the selected one, and the query stays.
pub proof fn queries_are_searched_for(pre: App, key: KeyEvent, post: App)
    requires
        pre.palette is Some,
        key_handled(pre, key, post),
    ensures
        key.code is Char ==> key_effects(pre, key, post).len() == 1 && (key_effects(
            pre,
            key,
            post,
        )[0] matches EffectView::Search { query, cwd, limit } && query == (
        pre.palette->0).query@.push(key.code->Char_0)),
        key.code == KeyCode::Delete && (pre.palette->0).selected < (pre.palette->0).results@.len()
            ==> key_effects(pre, key, post).len() == 2 && key_effects(pre, key, post)[0] == (
        EffectView::Forget {
            cmdline: (pre.palette->0).results@[(pre.palette->0).selected as int].cmdline@,
        }) && (key_effects(pre, key, post)[1] matches EffectView::Search { query, cwd, limit }
            && query == (pre.palette->0).query@),
        key.code == KeyCode::Esc ==> post.palette is None && key_effects(pre, key, post).len() == 0,
{
}

/// As many results are asked for as there are rows for them: all inside the border but the one with
/// the query.
pub proof fn results_have_rows(rect: Rect)
    requires
        rect.wf(),
        rect.height >= 3,
        rect.width >= 2,
    ensures
        capacity(rect) == rect.height - 3,
{
}

/// Moving over a result selects it, and changes nothing else; moving elsewhere changes nothing.
pub proof fn pointing_selects_the_result(pre: App, me: MouseEvent, i: int)
    requires
        pre.palette is Some,
        me.kind is Moved,
        (pre.palette->0).results@.len() <= usize::MAX,
    ensures
        row_at(pre.palette->0, me.column as int, me.row as int) == Some(i) ==> (after_mouse(
            pre,
            me,
        ).palette matches Some(p) && p.selected == i && p.query == (pre.palette->0).query
            && p.results == (pre.palette->0).results),
        row_at(pre.palette->0, me.column as int, me.row as int) is None ==> after_mouse(pre, me)
            == pre,
        mouse_effects(pre, me).len() == 0,
        after_mouse(pre, me).tabs == pre.tabs,
{
}

} // verus!
