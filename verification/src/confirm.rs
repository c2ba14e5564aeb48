//! The question before the last pane is closed.

use crate::app;
use crate::app::{App, ConfirmDialog, CONFIRM_H, CONFIRM_OPTIONS, CONFIRM_W};
use crate::geometry;
use crate::geometry::{centered_rect, inner_of, Rect};
use crate::keys::{KeyCode, KeyEvent, MouseEvent, MouseEventKind};
use vstd::prelude::*;

verus! {

/// The place of the question: the middle of the screen.
pub fn confirm_rect(s: Rect) -> (r: Rect)
    requires
        s.wf(),
    ensures
        r == geometry::centered_area(s, CONFIRM_W as int, CONFIRM_H as int),
        r.wf(),
{
    centered_rect(s, CONFIRM_W, CONFIRM_H)
}

/// The question as it is first asked: the answer that keeps the pane is selected.
pub open spec fn fresh_confirm(screen: Rect) -> ConfirmDialog {
    ConfirmDialog {
        rect: geometry::centered_area(screen, CONFIRM_W as int, CONFIRM_H as int),
        selected: 0,
    }
}

/// Asks the question.
pub fn open_confirm(app: &mut App)
    requires
        old(app).screen.wf(),
    ensures
        *final(app) == (App { confirm: Some(fresh_confirm(old(app).screen)), ..*old(app) }),
        old(app).wf() ==> final(app).wf(),
{
    let rect = confirm_rect(app.screen);
    app.confirm = Some(ConfirmDialog { rect, selected: 0 });
}

/// The answer in a cell of the screen. The answers begin two rows below the top of the content; a
/// row below the last of them is no answer.
pub open spec fn option_at(dialog: ConfirmDialog, col: int, row: int) -> Option<int> {
    let inner = geometry::inner_area(dialog.rect);
    let base = inner.y + 2;
    if inner.x <= col < inner.x + inner.width && base <= row < base + CONFIRM_OPTIONS {
        Some(row - base)
    } else {
        None
    }
}

/// The answer in a cell of the screen.
pub fn confirm_option_at(dialog: &ConfirmDialog, col: u16, row: u16) -> (r: Option<usize>)
    requires
        dialog.rect.wf(),
    ensures
        match r {
            Some(i) => option_at(*dialog, col as int, row as int) == Some(i as int),
            None => option_at(*dialog, col as int, row as int) is None,
        },
        r matches Some(i) ==> i < CONFIRM_OPTIONS,
{
    let inner = inner_of(dialog.rect);
    let base: u32 = inner.y as u32 + 2;
    if col < inner.x || col >= inner.x + inner.width || (row as u32) < base {
        return None;
    }
    let index: usize = (row as u32 - base) as usize;
    if index < CONFIRM_OPTIONS {
        Some(index)
    } else {
        None
    }
}

/// Carries out an answer: the second one quits.
pub fn exec_confirm(app: &mut App, selected: usize)
    ensures
        *final(app) == (App { should_quit: old(app).should_quit || selected == 1, ..*old(app) }),
{
    if selected == 1 {
        app.should_quit = true;
    }
}

/// The state after a mouse event while the question is asked: the pointer selects, a click answers
/// or, outside the answers, takes the question back.
pub open spec fn after_mouse(pre: App, me: MouseEvent) -> App {
    let dialog = pre.confirm->0;
    let hit = option_at(dialog, me.column as int, me.row as int);
    match me.kind {
        MouseEventKind::Moved | MouseEventKind::Drag(_) => match hit {
            Some(i) => App {
                confirm: Some(ConfirmDialog { selected: i as usize, ..dialog }),
                ..pre
            },
            None => pre,
        },
        MouseEventKind::Down(_) => App {
            confirm: None,
            should_quit: pre.should_quit || hit == Some(1int),
            ..pre
        },
        _ => pre,
    }
}

/// A mouse event while the question is asked.
pub fn handle_confirm_mouse(app: &mut App, me: MouseEvent)
    requires
        old(app).wf(),
        old(app).confirm is Some,
    ensures
        *final(app) == after_mouse(*old(app), me),
        final(app).wf(),
{
    let hit = match &app.confirm {
        Some(dialog) => confirm_option_at(dialog, me.column, me.row),
        None => None,
    };
    match me.kind {
        MouseEventKind::Moved | MouseEventKind::Drag(_) => {
            if let Some(i) = hit {
                if let Some(dialog) = &mut app.confirm {
                    dialog.selected = i;
                }
            }
        },
        MouseEventKind::Down(_) => {
            app.confirm = None;
            if let Some(i) = hit {
                exec_confirm(app, i);
            }
        },
        _ => {},
    }
}

/// The state after a key while the question is asked.
pub open spec fn after_key(pre: App, key: KeyEvent) -> App {
    let dialog = pre.confirm->0;
    match key.code {
        KeyCode::Esc => App { confirm: None, ..pre },
        KeyCode::Char(c) => if c == 'n' || c == 'N' {
            App { confirm: None, ..pre }
        } else if c == 'y' || c == 'Y' {
            App { confirm: None, should_quit: true, ..pre }
        } else {
            pre
        },
        KeyCode::Left | KeyCode::Up => App {
            confirm: Some(
                ConfirmDialog {
                    selected: geometry::minus(dialog.selected as int, 1) as usize,
                    ..dialog
                },
            ),
            ..pre
        },
        KeyCode::Right | KeyCode::Down => App {
            confirm: Some(
                ConfirmDialog {
                    selected: geometry::min_of(
                        dialog.selected + 1,
                        CONFIRM_OPTIONS - 1,
                    ) as usize,
                    ..dialog
                },
            ),
            ..pre
        },
        KeyCode::Enter => App {
            confirm: None,
            should_quit: pre.should_quit || dialog.selected == 1,
            ..pre
        },
        _ => pre,
    }
}

/// A key while the question is asked.
pub fn handle_confirm_key(app: &mut App, key: KeyEvent)
    requires
        old(app).wf(),
        old(app).confirm is Some,
    ensures
        *final(app) == after_key(*old(app), key),
        final(app).wf(),
{
    match key.code {
        KeyCode::Esc | KeyCode::Char('n') | KeyCode::Char('N') => {
            app.confirm = None;
        },
        KeyCode::Char('y') | KeyCode::Char('Y') => {
            app.confirm = None;
            app.should_quit = true;
        },
        KeyCode::Left | KeyCode::Up => {
            if let Some(dialog) = &mut app.confirm {
                dialog.selected = dialog.selected.saturating_sub(1);
            }
        },
        KeyCode::Right | KeyCode::Down => {
            if let Some(dialog) = &mut app.confirm {
                if dialog.selected + 1 < CONFIRM_OPTIONS {
                    dialog.selected = dialog.selected + 1;
                }
            }
        },
        KeyCode::Enter => {
            let selected: usize = match &app.confirm {
                Some(dialog) => dialog.selected,
                None => 0,
            };
            app.confirm = None;
            exec_confirm(app, selected);
        },
        _ => {},
    }
}

/// A click hits the answer in its row, of which there are two, and nothing else.
pub proof fn answers_are_hit_by_their_rows(dialog: ConfirmDialog, col: int, row: int)
    ensures
        ({
            let inner = geometry::inner_area(dialog.rect);
            &&& option_at(dialog, col, row) matches Some(i) ==> (i == 0 || i == 1) && inner.y + 2
                + i == row && inner.x <= col < inner.x + inner.width
            &&& inner.x <= col < inner.x + inner.width && (row == inner.y + 2 || row == inner.y
                + 3) ==> option_at(dialog, col, row) is Some
        }),
{
}

/// Only `y` or an accepted answer ends the program; every other key keeps it running, and nothing
/// but the question is changed by any key.
pub proof fn keys_only_answer(pre: App, key: KeyEvent)
    requires
        pre.confirm is Some,
        !pre.should_quit,
    ensures
        after_key(pre, key).should_quit ==> key.code == KeyCode::Char('y') || key.code
            == KeyCode::Char('Y') || key.code == KeyCode::Enter && (pre.confirm->0).selected != 0,
        key.code == KeyCode::Char('y') || key.code == KeyCode::Char('Y') ==> after_key(
            pre,
            key,
        ).should_quit,
        key.code == KeyCode::Esc || key.code == KeyCode::Char('n') || key.code == KeyCode::Char('N')
            ==> after_key(pre, key).confirm is None,
        after_key(pre, key).panes == pre.panes,
        after_key(pre, key).tabs == pre.tabs,
{
}

/// Only a click on the second answer ends the program; any click takes the question away, and moving
/// over an answer selects it.
pub proof fn clicks_answer(pre: App, me: MouseEvent)
    requires
        pre.confirm is Some,
        !pre.should_quit,
    ensures
        ({
            let inner = geometry::inner_area((pre.confirm->0).rect);
            let inside = inner.x <= me.column < inner.x + inner.width;
            let post = after_mouse(pre, me);
            &&& post.should_quit <==> me.kind is Down && inside && me.row == inner.y + 3
            &&& me.kind is Down ==> post.confirm is None
            &&& me.kind is Moved && inside && me.row == inner.y + 2 ==> (
            post.confirm->0).selected == 0
            &&& me.kind is Moved && inside && me.row == inner.y + 3 ==> (
            post.confirm->0).selected == 1
            &&& post.tabs == pre.tabs
        }),
{
}

} // verus!
