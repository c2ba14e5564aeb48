//! Renaming a tab.

use crate::app;
use crate::app::{App, RenameState, Tab};
use crate::keys::{KeyCode, KeyEvent};
use crate::text;
use vstd::prelude::*;

verus! {

/// Begins to rename a tab, from the name that it has.
pub fn start_rename(app: &mut App, tab_index: usize)
    requires
        old(app).wf(),
    ensures
        *final(app) == rename_started(*old(app), tab_index as int),
        final(app).wf(),
{
    if tab_index < app.tabs.len() {
        let buffer = app.tabs[tab_index].name.clone();
        app.rename = Some(RenameState { tab_index, buffer });
    }
}

/// The state once a tab is being renamed; nothing happens for a tab that is not there.
pub open spec fn rename_started(pre: App, tab_index: int) -> App {
    if 0 <= tab_index < pre.tabs@.len() {
        App {
            rename: Some(
                RenameState {
                    tab_index: tab_index as usize,
                    buffer: pre.tabs@[tab_index].name,
                },
            ),
            ..pre
        }
    } else {
        pre
    }
}

/// The state after the new name was accepted: without the white space around it, and only if
/// anything is left and the tab is still there.
pub open spec fn renamed(pre: App, post: App) -> bool {
    let state = pre.rename->0;
    let i = state.tab_index as int;
    if !text::blank(state.buffer@) && i < pre.tabs@.len() {
        &&& post.tabs@.len() == pre.tabs@.len()
        &&& post.tabs@ == pre.tabs@.update(i, post.tabs@[i])
        &&& post.tabs@[i] == (Tab { name: post.tabs@[i].name, ..pre.tabs@[i] })
        &&& post.tabs@[i].name@ == text::trimmed(state.buffer@)
        &&& post == (App { tabs: post.tabs, rename: None, ..pre })
    } else {
        post == (App { rename: None, ..pre })
    }
}

/// Tabs that differ in their names only go with the same panes.
proof fn names_do_not_matter(pre: App, post: App)
    requires
        pre.wf(),
        post.tabs@.len() == pre.tabs@.len(),
        forall|k: int|
            0 <= k < pre.tabs@.len() ==> (#[trigger] post.tabs@[k]).layout == pre.tabs@[k].layout,
        post == (App { tabs: post.tabs, rename: None, ..pre }),
    ensures
        post.wf(),
{
    assert forall|k: int| 0 <= k < post.tabs@.len() implies app::tab_wf(#[trigger] post.tabs@[k]) by {
        assert(app::tab_wf(pre.tabs@[k]));
    }
    assert forall|k: int, id: crate::layout::PaneId|
        0 <= k < post.tabs@.len() implies #[trigger] app::tab_has(post.tabs@[k], id)
        == app::tab_has(pre.tabs@[k], id) by {}
    assert forall|i: int, j: int, id: crate::layout::PaneId|
        0 <= i < j < post.tabs@.len() && #[trigger] app::tab_has(
            post.tabs@[i],
            id,
        ) implies !#[trigger] app::tab_has(post.tabs@[j], id) by {
        assert(app::tab_has(pre.tabs@[i], id));
        assert(!app::tab_has(pre.tabs@[j], id));
    }
    assert forall|i: int| 0 <= i < post.panes@.len() implies app::in_tabs(
        post.tabs@,
        (#[trigger] post.panes@[i]).id,
    ) by {
        let id = post.panes@[i].id;
        assert(app::in_tabs(pre.tabs@, pre.panes@[i].id));
        let k = choose|k: int| 0 <= k < pre.tabs@.len() && app::tab_has(#[trigger] pre.tabs@[k], id);
        assert(app::tab_has(post.tabs@[k], id));
    }
    assert forall|i: int, id: crate::layout::PaneId|
        0 <= i < post.tabs@.len() && #[trigger] app::tab_has(post.tabs@[i], id) implies app::has_pane(
        post.panes@,
        id,
    ) by {
        assert(app::tab_has(pre.tabs@[i], id));
    }
}

/// Accepts the new name.
pub fn commit_rename(app: &mut App)
    requires
        old(app).wf(),
        old(app).rename is Some,
    ensures
        renamed(*old(app), *final(app)),
        final(app).wf(),
{
    let ghost pre = *app;
    if let Some(state) = app.rename.take() {
        let chars = text::chars_of(state.buffer.as_str());
        let name = text::trim(&chars);
        proof {
            text::blank_trims_to_nothing(state.buffer@);
        }
        let i: usize = state.tab_index;
        if name.len() > 0 && i < app.tabs.len() {
            app.tabs[i].name = text::string_of(&name);
            proof {
                names_do_not_matter(pre, *app);
            }
        }
    }
}

/// The state after a key while a tab is being renamed.
pub open spec fn key_handled(pre: App, key: KeyEvent, post: App) -> bool {
    let state = pre.rename->0;
    match key.code {
        KeyCode::Esc => post == (App { rename: None, ..pre }),
        KeyCode::Enter => renamed(pre, post),
        KeyCode::Backspace => typed(
            pre,
            post,
            if state.buffer@.len() > 0 {
                state.buffer@.drop_last()
            } else {
                state.buffer@
            },
        ),
        KeyCode::Char(c) => typed(pre, post, state.buffer@.push(c)),
        _ => post == pre,
    }
}

/// The state with the new name so far.
pub open spec fn typed(pre: App, post: App, buffer: Seq<char>) -> bool {
    &&& post.rename is Some
    &&& (post.rename->0).tab_index == (pre.rename->0).tab_index
    &&& (post.rename->0).buffer@ == buffer
    &&& post == (App { rename: post.rename, ..pre })
}

/// The text without its last character.
pub fn without_last(s: &str) -> (r: String)
    ensures
        r@ == (if s@.len() > 0 {
            s@.drop_last()
        } else {
            s@
        }),
{
    let chars = text::chars_of(s);
    let n: usize = chars.len();
    let rest = text::part(
        &chars,
        0,
        if n > 0 {
            n - 1
        } else {
            0
        },
    );
    assert(rest@ =~= if s@.len() > 0 {
        s@.drop_last()
    } else {
        s@
    });
    text::string_of(&rest)
}

/// A key while a tab is being renamed.
pub fn handle_rename_key(app: &mut App, key: KeyEvent)
    requires
        old(app).wf(),
        old(app).rename is Some,
    ensures
        key_handled(*old(app), key, *final(app)),
        final(app).wf(),
{
    match key.code {
        KeyCode::Esc => {
            app.rename = None;
        },
        KeyCode::Enter => {
            commit_rename(app);
        },
        KeyCode::Backspace => {
            if let Some(state) = &mut app.rename {
                state.buffer = without_last(state.buffer.as_str());
            }
        },
        KeyCode::Char(c) => {
            if let Some(state) = &mut app.rename {
                state.buffer.push(c);
            }
        },
        _ => {},
    }
}

/// A character that is typed and deleted again leaves the new name as it was.
pub proof fn deleting_undoes_typing(pre: App, key: KeyEvent, mid: App, back: KeyEvent, post: App)
    requires
        pre.rename is Some,
        key.code is Char,
        back.code == KeyCode::Backspace,
        key_handled(pre, key, mid),
        key_handled(mid, back, post),
    ensures
        mid.rename is Some,
        post.rename is Some,
        (mid.rename->0).buffer@.len() == (pre.rename->0).buffer@.len() + 1,
        (mid.rename->0).buffer@.last() == key.code->Char_0,
        (post.rename->0).buffer@ == (pre.rename->0).buffer@,
        (post.rename->0).tab_index == (pre.rename->0).tab_index,
{
    assert((pre.rename->0).buffer@.push(key.code->Char_0).drop_last() =~= (pre.rename->0).buffer@);
}

/// A new name is given to the tab that is renamed, and to no other; a blank one is given to none.
pub proof fn only_the_renamed_tab_gets_the_name(pre: App, post: App, k: int)
    requires
        pre.rename is Some,
        renamed(pre, post),
        0 <= k < pre.tabs@.len(),
    ensures
        post.rename is None,
        post.tabs@.len() == pre.tabs@.len(),
        k != (pre.rename->0).tab_index || text::blank((pre.rename->0).buffer@) ==> post.tabs@[k]
            == pre.tabs@[k],
        k == (pre.rename->0).tab_index && !text::blank((pre.rename->0).buffer@)
            ==> post.tabs@[k].name@ == text::trimmed((pre.rename->0).buffer@) && post.tabs@[k].focus
            == pre.tabs@[k].focus,
{
}

} // verus!
