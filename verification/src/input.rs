//! Keys and the mouse: to popups, to the panes, or to commands of the multiplexer.
//!
//! Where handling an event has to know how something outside went, it stops, says what to do, and
//! is taken up again with the outcome.

use crate::app;
use crate::app::{
    App, DragState, Effect, EffectView, MenuAction, Pane, PaneSelection, StatusKind, StatusSeg,
    Suggest, Tab,
};
use crate::config::key_matches;
use crate::confirm;
use crate::confirm::{handle_confirm_key, handle_confirm_mouse};
use crate::geometry;
use crate::geometry::{inner_of, within, Rect};
use crate::input_line::InputSelectionEdit;
use crate::keys;
use crate::keys::{
    is_selection_copy_key, is_selection_cut_key, is_selection_delete_key, mouse_request, KeyCode,
    KeyEvent, KeyEventKind, MouseButton, MouseEvent, MouseEventKind,
};
use crate::layout;
use crate::layout::{Divider, Layout, PaneId, SplitDir};
use crate::mention;
use crate::mention::{mention_scroll_to_selected, Mention};
use crate::menu;
use crate::menu::{handle_menu_key, handle_menu_mouse, open_pane_menu, open_tab_menu};
use crate::palette;
use crate::palette::{handle_palette_key, handle_palette_mouse, open_palette, palette_research};
use crate::ratio;
use crate::ratio::Ratio;
use crate::rename;
use crate::rename::{handle_rename_key, start_rename};
use crate::session;
use crate::session::{
    active_focus, do_split, focus_dir, new_tab, next_tab, prev_tab, request_close,
    request_close_tab, set_active_focus, switch_tab, Dir,
};
use crate::shell;
use crate::shell::{ShellIntegration, ZleEdit};
use crate::suggest;
use crate::suggest::{mention_accept, suggest_accept, suggest_scroll_to_selected};
use crate::term;
use crate::term::{GridPoint, GridSelection};
use crate::text;
use vstd::prelude::*;
use vstd::utf8;

verus! {

/// How a step outside went that handling an event waits for.
#[derive(Debug, Clone, Copy, PartialEq, Eq, Structural)]
pub enum Stage {
    /// Nothing was done yet.
    Start,
    /// The text was put into the clipboard, or could not be.
    Copied(bool),
    /// The file of the edit was written, or could not be.
    Edited(bool),
}

/// What handling an event leads to.
#[derive(Debug, PartialEq, Eq)]
pub enum Step {
    /// The event is handled; these are left to be done.
    Done(Vec<Effect>),
    /// Put the text into the clipboard, and go on with `Copied`.
    Copy(String),
    /// Write the file of the edit, and go on with `Edited`.
    Edit(ZleEdit),
}

/// What a step says.
pub enum InputStepView {
    Done(Seq<EffectView>),
    Copy(Seq<char>),
    Edit { file: Seq<char>, contents: Seq<char>, keys: Seq<u8> },
}

impl View for Step {
    type V = InputStepView;

    open spec fn view(&self) -> InputStepView {
        match self {
            Step::Done(effects) => InputStepView::Done(app::effects_view(effects@)),
            Step::Copy(text) => InputStepView::Copy(text@),
            Step::Edit(edit) => InputStepView::Edit {
                file: edit.file@,
                contents: edit.contents@,
                keys: edit.keys@,
            },
        }
    }
}

/// Handled, with nothing left to be done.
pub open spec fn done() -> InputStepView {
    InputStepView::Done(app::no_effects())
}

/// The keys that paste a text. A program that asked for it is told where the paste begins and ends.
pub open spec fn pasted(text: Seq<char>, bracketed: bool) -> Seq<u8> {
    if bracketed {
        text::ascii("\x1b[200~"@) + utf8::encode_utf8(text) + text::ascii("\x1b[201~"@)
    } else {
        utf8::encode_utf8(text)
    }
}

/// The keys that paste a text.
pub fn encode_paste(text: &str, bracketed: bool) -> (r: Vec<u8>)
    ensures
        r@ == pasted(text@, bracketed),
{
    let mut encoded = text::bytes_of(text);
    if !bracketed {
        return encoded;
    }
    let mut bytes = text::ascii_bytes("\x1b[200~");
    bytes.append(&mut encoded);
    let mut end = text::ascii_bytes("\x1b[201~");
    bytes.append(&mut end);
    bytes
}

/// The state after a text was pasted: it goes into the popup that is open.
pub open spec fn paste_handled(pre: App, text: Seq<char>, post: App) -> bool {
    if pre.palette is Some {
        palette::with_query(pre, (pre.palette->0).query@ + text, post)
    } else if pre.rename is Some {
        rename::typed(pre, post, (pre.rename->0).buffer@ + text)
    } else {
        post == pre
    }
}

/// What pasting a text asks for: outside popups it is sent to the pane with the focus.
pub open spec fn paste_effects(pre: App, text: Seq<char>, post: App) -> Seq<EffectView> {
    if pre.palette is Some {
        palette::research_effects(post)
    } else if pre.rename is Some || pre.confirm is Some || pre.menu is Some {
        app::no_effects()
    } else if app::has_pane(pre.panes@, pre.focus()) {
        seq![
            EffectView::ToBottom { pane: pre.focus() },
            EffectView::Write {
                pane: pre.focus(),
                bytes: pasted(text, pre.pane(pre.focus()).report.bracketed_paste),
            },
        ]
    } else {
        app::no_effects()
    }
}

/// A text is pasted.
pub fn handle_paste(app: &mut App, text: String) -> (r: Vec<Effect>)
    requires
        old(app).wf(),
        old(app).active_tab < old(app).tabs@.len(),
    ensures
        paste_handled(*old(app), text@, *final(app)),
        app::effects_view(r@) == paste_effects(*old(app), text@, *final(app)),
        final(app).wf(),
{
    if let Some(palette) = &mut app.palette {
        palette.query.append(text.as_str());
        return palette_research(app);
    }
    if let Some(rename) = &mut app.rename {
        rename.buffer.append(text.as_str());
        return app::nothing();
    }
    if app.confirm.is_some() || app.menu.is_some() {
        return app::nothing();
    }
    let focus = active_focus(app);
    match app::find_pane(&app.panes, focus) {
        Some(i) => {
            let bytes = encode_paste(text.as_str(), app.panes[i].report.bracketed_paste);
            app::both(Effect::ToBottom { pane: focus }, Effect::Write { pane: focus, bytes })
        },
        None => app::nothing(),
    }
}

// Editing the input line through a selection.

/// What cutting the selection out of the input line gives, where the selection lies in the input
/// line of the pane with the focus and no command runs in it.
pub open spec fn selection_cut(pre: App) -> Option<(Seq<char>, Seq<char>, int)> {
    if pre.selection is Some && (pre.selection->0).pane == pre.focus() && app::has_pane(
        pre.panes@,
        pre.focus(),
    ) {
        let pane = pre.pane(pre.focus());
        if pane.pending is Some || pane.report.scrollback != 0 {
            None
        } else {
            pane.input.cut(&pane.report.screen, (pre.selection->0).range)
        }
    } else {
        None
    }
}

fn input_edit(app: &App) -> (r: Option<InputSelectionEdit>)
    requires
        app.wf(),
        app.active_tab < app.tabs@.len(),
    ensures
        match r {
            Some(edit) => selection_cut(*app) == Some(
                (edit.replacement@, edit.removed@, edit.cursor as int),
            ),
            None => selection_cut(*app) is None,
        },
{
    let selection = match app.selection {
        Some(selection) => selection,
        None => return None,
    };
    let focus = active_focus(app);
    if selection.pane != focus {
        return None;
    }
    match app::find_pane(&app.panes, focus) {
        Some(i) => {
            let pane = &app.panes[i];
            assert(app::pane_wf(app.panes@[i as int]));
            pane.input.input_selection_edit(
                &pane.report.screen,
                pane.pending.is_some(),
                pane.report.scrollback,
                selection.range,
            )
        },
        None => None,
    }
}

/// The edit of the input line of a pane, as it is handed out.
pub open spec fn edit_step(
    integ: ShellIntegration,
    id: PaneId,
    buffer: Seq<char>,
    cursor: int,
) -> InputStepView {
    InputStepView::Edit {
        file: integ.edit_path(id.0 as int),
        contents: shell::edit_contents(buffer, cursor),
        keys: shell::edit_keys(),
    }
}

/// Whether the selection can be cut out of the input line.
pub open spec fn can_cut(pre: App) -> bool {
    match selection_cut(pre) {
        Some((replacement, removed, cursor)) => ShellIntegration::can_edit(replacement, cursor),
        None => false,
    }
}

/// The edit that cuts the selection out.
pub open spec fn cut_step(pre: App) -> InputStepView {
    let (replacement, removed, cursor) = selection_cut(pre)->0;
    edit_step(pre.integ, pre.focus(), replacement, cursor)
}

fn prepare_cut(app: &App) -> (r: Option<ZleEdit>)
    requires
        app.wf(),
        app.active_tab < app.tabs@.len(),
    ensures
        r is Some <==> can_cut(*app),
        r matches Some(edit) ==> Step::Edit(edit)@ == cut_step(*app),
{
    match input_edit(app) {
        Some(edit) => app.integ.prepare_zle_edit(
            active_focus(app).0,
            edit.replacement.as_str(),
            edit.cursor,
        ),
        None => None,
    }
}

// Keys.

/// The selected text, where there is any to copy.
pub open spec fn text_to_copy(pre: App) -> Option<Seq<char>> {
    if pre.selection is Some && app::has_pane(pre.panes@, (pre.selection->0).pane) {
        let pane = pre.pane((pre.selection->0).pane);
        let text = term::joined(
            term::selected_lines(&pane.report.screen, (pre.selection->0).range),
        );
        if text::blank(text) {
            None
        } else {
            Some(text)
        }
    } else {
        None
    }
}

fn selected_text(app: &App) -> (r: Option<String>)
    requires
        app.wf(),
    ensures
        match r {
            Some(s) => text_to_copy(*app) == Some(s@),
            None => text_to_copy(*app) is None,
        },
{
    let selection = match app.selection {
        Some(selection) => selection,
        None => return None,
    };
    match app::find_pane(&app.panes, selection.pane) {
        Some(i) => {
            assert(app::pane_wf(app.panes@[i as int]));
            let text = app.panes[i].report.screen.selected_text(selection.range);
            if text::is_blank(text.as_str()) {
                None
            } else {
                Some(text)
            }
        },
        None => None,
    }
}

/// What a key leads to that belongs to a command of the multiplexer: the state after it.
pub open spec fn prefix_handled(pre: App, key: KeyEvent, post: App) -> bool {
    let k = pre.cfg.keys;
    match key.code {
        KeyCode::Left => session::focus_moved(pre, Dir::Left, post),
        KeyCode::Right => session::focus_moved(pre, Dir::Right, post),
        KeyCode::Up => session::focus_moved(pre, Dir::Up, post),
        KeyCode::Down => session::focus_moved(pre, Dir::Down, post),
        KeyCode::Char(c) => if c == k.split_right || c == k.split_down {
            post == pre
        } else if c == k.close_pane {
            session::close_requested(pre, pre.focus(), post)
        } else if c == k.tab_new {
            post == pre
        } else if c == k.tab_next {
            post == (App {
                active_tab: session::tab_after(
                    pre.active_tab as int,
                    pre.tabs@.len() as int,
                ) as usize,
                suggest: None,
                ..pre
            })
        } else if c == k.tab_prev {
            post == (App {
                active_tab: session::tab_before(
                    pre.active_tab as int,
                    pre.tabs@.len() as int,
                ) as usize,
                suggest: None,
                ..pre
            })
        } else if c == k.tab_rename {
            post == rename::rename_started(pre, pre.active_tab as int)
        } else if c == k.tab_close {
            session::tab_close_requested(pre, pre.active_tab as int, post)
        } else if c == k.palette {
            palette::palette_opened(pre, post)
        } else if c == k.quit_action {
            post == (App { should_quit: true, ..pre })
        } else {
            post == pre
        },
        _ => post == pre,
    }
}

/// What a command of the multiplexer asks for.
pub open spec fn prefix_effects(pre: App, key: KeyEvent, post: App) -> Seq<EffectView> {
    let k = pre.cfg.keys;
    match key.code {
        KeyCode::Char(c) => if c == k.split_right {
            session::split_effects(pre.tabs@, pre.focus(), SplitDir::LeftRight)
        } else if c == k.split_down {
            session::split_effects(pre.tabs@, pre.focus(), SplitDir::TopBottom)
        } else if c == k.close_pane {
            session::request_effects(pre.panes@, pre.focus())
        } else if c == k.tab_new {
            seq![EffectView::Spawn(app::SpawnFor::Tab)]
        } else if c == k.tab_next || c == k.tab_prev || c == k.tab_rename {
            app::no_effects()
        } else if c == k.tab_close {
            session::tab_request_effects(pre, pre.active_tab as int)
        } else if c == k.palette {
            seq![palette::search_for(post, post.palette->0)]
        } else {
            app::no_effects()
        },
        _ => app::no_effects(),
    }
}

/// A command of the multiplexer.
pub fn handle_prefix(app: &mut App, key: KeyEvent) -> (r: Vec<Effect>)
    requires
        old(app).wf(),
        old(app).active_tab < old(app).tabs@.len(),
    ensures
        prefix_handled(*old(app), key, *final(app)),
        app::effects_view(r@) == prefix_effects(*old(app), key, *final(app)),
        final(app).wf(),
{
    let focus = active_focus(app);
    let k = app.cfg.keys;
    match key.code {
        KeyCode::Left => {
            focus_dir(app, Dir::Left);
            app::nothing()
        },
        KeyCode::Right => {
            focus_dir(app, Dir::Right);
            app::nothing()
        },
        KeyCode::Up => {
            focus_dir(app, Dir::Up);
            app::nothing()
        },
        KeyCode::Down => {
            focus_dir(app, Dir::Down);
            app::nothing()
        },
        KeyCode::Char(c) => {
            if c == k.split_right {
                do_split(app, focus, SplitDir::LeftRight)
            } else if c == k.split_down {
                do_split(app, focus, SplitDir::TopBottom)
            } else if c == k.close_pane {
                request_close(app, focus)
            } else if c == k.tab_new {
                new_tab()
            } else if c == k.tab_next {
                next_tab(app);
                app::nothing()
            } else if c == k.tab_prev {
                prev_tab(app);
                app::nothing()
            } else if c == k.tab_rename {
                let active: usize = app.active_tab;
                start_rename(app, active);
                app::nothing()
            } else if c == k.tab_close {
                let active: usize = app.active_tab;
                request_close_tab(app, active)
            } else if c == k.palette {
                open_palette(app)
            } else {
                if c == k.quit_action {
                    app.should_quit = true;
                }
                app::nothing()
            }
        },
        _ => app::nothing(),
    }
}

/// A list with another line selected, scrolled to it.
pub open spec fn mention_selecting(mention: Mention, selected: int, max_visible: int) -> Mention {
    Mention {
        selected: selected as usize,
        offset: mention::scrolled(
            selected,
            mention.offset as int,
            geometry::min_of(mention.matches@.len() as int, max_visible),
        ) as usize,
        ..mention
    }
}

pub open spec fn suggest_selecting(sug: Suggest, selected: int, max_visible: int) -> Suggest {
    Suggest {
        selected: selected as usize,
        offset: mention::scrolled(
            selected,
            sug.offset as int,
            geometry::min_of(sug.matches@.len() as int, max_visible),
        ) as usize,
        ..sug
    }
}

/// The state with the line below, or above, the selected one selected in the popup with files.
pub open spec fn mention_moved(pre: App, down: bool) -> App {
    match pre.mention {
        Some(mention) => App {
            mention: Some(
                mention_selecting(
                    mention,
                    if down {
                        geometry::min_of(mention.selected + 1, mention.matches@.len() - 1)
                    } else {
                        geometry::minus(mention.selected as int, 1)
                    },
                    pre.cfg.suggest_max_visible as int,
                ),
            ),
            ..pre
        },
        None => pre,
    }
}

/// Selects the line below, or above, in the popup with files.
fn move_mention(app: &mut App, down: bool)
    requires
        old(app).wf(),
    ensures
        *final(app) == mention_moved(*old(app), down),
        final(app).wf(),
{
    let max_visible: usize = app.cfg.suggest_max_visible;
    if let Some(mention) = &mut app.mention {
        if down {
            if mention.selected < mention.matches.len() - 1 {
                mention.selected = mention.selected + 1;
            }
        } else {
            mention.selected = mention.selected.saturating_sub(1);
        }
        mention_scroll_to_selected(mention, max_visible);
    }
}

/// The state with the line below, or above, the selected one selected in the popup with commands.
pub open spec fn suggest_moved(pre: App, down: bool) -> App {
    match pre.suggest {
        Some(sug) => App {
            suggest: Some(
                suggest_selecting(
                    sug,
                    if down {
                        geometry::min_of(sug.selected + 1, sug.matches@.len() - 1)
                    } else {
                        geometry::minus(sug.selected as int, 1)
                    },
                    pre.cfg.suggest_max_visible as int,
                ),
            ),
            ..pre
        },
        None => pre,
    }
}

/// Selects the line below, or above, in the popup with commands.
fn move_suggest(app: &mut App, down: bool)
    requires
        old(app).wf(),
    ensures
        *final(app) == suggest_moved(*old(app), down),
        final(app).wf(),
{
    let max_visible: usize = app.cfg.suggest_max_visible;
    if let Some(sug) = &mut app.suggest {
        if down {
            if sug.selected < sug.matches.len() - 1 {
                sug.selected = sug.selected + 1;
            }
        } else {
            sug.selected = sug.selected.saturating_sub(1);
        }
        suggest_scroll_to_selected(sug, max_visible);
    }
}

/// The state after a key that no popup but those at the input line takes.
pub open spec fn plain_key_handled(pre: App, key: KeyEvent, post: App) -> bool {
    if pre.prefix_active {
        prefix_handled(App { prefix_active: false, ..pre }, key, post)
    } else if pre.cfg.keys.prefix == (key.modifiers, key.code) {
        post == (App { prefix_active: true, ..pre })
    } else if pre.cfg.keys.quit == (key.modifiers, key.code) {
        post == (App { should_quit: true, ..pre })
    } else if pre.mention is Some && taken_by_mention(key.code) {
        match key.code {
            KeyCode::Down => post == mention_moved(pre, true),
            KeyCode::Up => post == mention_moved(pre, false),
            _ => post == (App { mention: None, ..pre }),
        }
    } else if pre.suggest is Some && taken_by_suggest(key.code) {
        match key.code {
            KeyCode::Down => post == suggest_moved(pre, true),
            KeyCode::Up => post == suggest_moved(pre, false),
            KeyCode::Esc => {
                &&& post == (App {
                    suggest: None,
                    suggest_dismissed_for: post.suggest_dismissed_for,
                    ..pre
                })
                &&& if app::has_pane(pre.panes@, pre.focus()) {
                    post.suggest_dismissed_for == Some(pre.pane(pre.focus()).input.buffer)
                } else {
                    post.suggest_dismissed_for is None
                }
            },
            _ => post == (App {
                suggest: None,
                suggest_dismissed_for: Some(suggest::accepted(pre)),
                ..pre
            }),
        }
    } else {
        post == pre
    }
}

/// The keys that the popup with files takes.
pub open spec fn taken_by_mention(code: KeyCode) -> bool {
    code == KeyCode::Down || code == KeyCode::Up || code == KeyCode::Enter || code == KeyCode::Esc
}

/// The keys that the popup with commands takes.
pub open spec fn taken_by_suggest(code: KeyCode) -> bool {
    taken_by_mention(code) || code == KeyCode::Tab
}

/// What such a key asks for: where nothing takes it, it is sent to the pane with the focus.
pub open spec fn plain_key_effects(pre: App, key: KeyEvent, post: App) -> Seq<EffectView> {
    if pre.prefix_active {
        prefix_effects(App { prefix_active: false, ..pre }, key, post)
    } else if pre.cfg.keys.prefix == (key.modifiers, key.code) || pre.cfg.keys.quit == (
        key.modifiers,
        key.code,
    ) {
        app::no_effects()
    } else if pre.mention is Some && taken_by_mention(key.code) {
        if key.code == KeyCode::Enter {
            suggest::mention_accept_effects(pre)
        } else {
            app::no_effects()
        }
    } else if pre.suggest is Some && taken_by_suggest(key.code) {
        if key.code == KeyCode::Enter || key.code == KeyCode::Tab {
            suggest::accept_effects(pre)
        } else {
            app::no_effects()
        }
    } else {
        key_sent(pre, key, true)
    }
}

/// A key for the pane with the focus.
pub open spec fn key_sent(pre: App, key: KeyEvent, to_bottom: bool) -> Seq<EffectView> {
    if app::has_pane(pre.panes@, pre.focus()) {
        seq![EffectView::SendKey { pane: pre.focus(), key, to_bottom }]
    } else {
        app::no_effects()
    }
}

fn send_key(app: &App, key: KeyEvent, to_bottom: bool) -> (r: Vec<Effect>)
    requires
        app.active_tab < app.tabs@.len(),
    ensures
        app::effects_view(r@) == key_sent(*app, key, to_bottom),
{
    let focus = active_focus(app);
    if app::find_pane(&app.panes, focus).is_some() {
        app::just(Effect::SendKey { pane: focus, key, to_bottom })
    } else {
        app::nothing()
    }
}

fn plain_key(app: &mut App, key: KeyEvent) -> (r: Vec<Effect>)
    requires
        old(app).wf(),
        old(app).active_tab < old(app).tabs@.len(),
    ensures
        plain_key_handled(*old(app), key, *final(app)),
        app::effects_view(r@) == plain_key_effects(*old(app), key, *final(app)),
        final(app).wf(),
{
    if app.prefix_active {
        app.prefix_active = false;
        return handle_prefix(app, key);
    }
    if key_matches(key.code, key.modifiers, app.cfg.keys.prefix) {
        app.prefix_active = true;
        return app::nothing();
    }
    if key_matches(key.code, key.modifiers, app.cfg.keys.quit) {
        app.should_quit = true;
        return app::nothing();
    }
    if app.mention.is_some() {
        match key.code {
            KeyCode::Down => {
                move_mention(app, true);
                return app::nothing();
            },
            KeyCode::Up => {
                move_mention(app, false);
                return app::nothing();
            },
            KeyCode::Enter => {
                return mention_accept(app);
            },
            KeyCode::Esc => {
                app.mention = None;
                return app::nothing();
            },
            _ => {},
        }
    }
    if app.suggest.is_some() {
        match key.code {
            KeyCode::Down => {
                move_suggest(app, true);
                return app::nothing();
            },
            KeyCode::Up => {
                move_suggest(app, false);
                return app::nothing();
            },
            KeyCode::Enter | KeyCode::Tab => {
                return suggest_accept(app);
            },
            KeyCode::Esc => {
                app.suggest_dismissed_for = match app::find_pane(&app.panes, active_focus(app)) {
                    Some(i) => Some(app.panes[i].input.buffer.clone()),
                    None => None,
                };
                app.suggest = None;
                return app::nothing();
            },
            _ => {},
        }
    }
    send_key(app, key, true)
}

/// What a key leads to once the input line was not edited: the selected text is copied, or the key
/// is handled as any other.
pub open spec fn copy_handled(pre: App, key: KeyEvent, post: App, step: InputStepView) -> bool {
    if keys::copies(key) && text_to_copy(pre) is Some {
        post == pre && step == InputStepView::Copy(text_to_copy(pre)->0)
    } else {
        plain_key_handled(pre, key, post) && step == InputStepView::Done(
            plain_key_effects(pre, key, post),
        )
    }
}

fn copy_key(app: &mut App, key: KeyEvent) -> (r: Step)
    requires
        old(app).wf(),
        old(app).active_tab < old(app).tabs@.len(),
    ensures
        copy_handled(*old(app), key, *final(app), r@),
        final(app).wf(),
{
    if is_selection_copy_key(key) {
        if let Some(text) = selected_text(app) {
            return Step::Copy(text);
        }
    }
    Step::Done(plain_key(app, key))
}

/// What a key leads to that comes in: the popups take it first, in their order, then the selection.
pub open spec fn key_started(pre: App, key: KeyEvent, post: App, step: InputStepView) -> bool {
    if key.kind == KeyEventKind::Release {
        post == pre && step == InputStepView::Done(key_sent(pre, key, false))
    } else if pre.palette is Some {
        palette::key_handled(pre, key, post) && step == InputStepView::Done(
            palette::key_effects(pre, key, post),
        )
    } else if pre.rename is Some {
        rename::key_handled(pre, key, post) && step == done()
    } else if pre.confirm is Some {
        post == confirm::after_key(pre, key) && step == done()
    } else if pre.menu is Some {
        menu::key_handled(pre, key, post) && step == InputStepView::Done(
            menu::key_effects(pre, key),
        )
    } else if keys::cuts(key) && selection_cut(pre) is Some {
        post == pre && step == InputStepView::Copy((selection_cut(pre)->0).1)
    } else if keys::deletes(key) && can_cut(pre) {
        post == pre && step == cut_step(pre)
    } else {
        copy_handled(pre, key, post, step)
    }
}

/// What a key leads to once the text was put into the clipboard, or could not be. A cut goes on by
/// editing the input line; a copy is done. A key that failed is handled as any other.
pub open spec fn key_copied(
    pre: App,
    key: KeyEvent,
    ok: bool,
    post: App,
    step: InputStepView,
) -> bool {
    if keys::cuts(key) {
        if ok && can_cut(pre) {
            post == pre && step == cut_step(pre)
        } else {
            copy_handled(pre, key, post, step)
        }
    } else if ok {
        post == (App { selection: None, ..pre }) && step == done()
    } else {
        plain_key_handled(pre, key, post) && step == InputStepView::Done(
            plain_key_effects(pre, key, post),
        )
    }
}

/// What a key leads to once the file of the edit was written, or could not be.
pub open spec fn key_edited(
    pre: App,
    key: KeyEvent,
    ok: bool,
    post: App,
    step: InputStepView,
) -> bool {
    if ok && app::has_pane(pre.panes@, pre.focus()) {
        &&& post == (App { selection: None, suggest: None, mention: None, ..pre })
        &&& step == InputStepView::Done(
            seq![EffectView::Write { pane: pre.focus(), bytes: shell::edit_keys() }],
        )
    } else {
        copy_handled(pre, key, post, step)
    }
}

/// What a key leads to.
pub open spec fn key_result(
    pre: App,
    key: KeyEvent,
    stage: Stage,
    post: App,
    step: InputStepView,
) -> bool {
    match stage {
        Stage::Start => key_started(pre, key, post, step),
        Stage::Copied(ok) => key_copied(pre, key, ok, post, step),
        Stage::Edited(ok) => key_edited(pre, key, ok, post, step),
    }
}

/// Handles a key.
pub fn handle_key(app: &mut App, key: KeyEvent, stage: Stage) -> (r: Step)
    requires
        old(app).wf(),
        old(app).active_tab < old(app).tabs@.len(),
    ensures
        key_result(*old(app), key, stage, *final(app), r@),
        final(app).wf(),
{
    match stage {
        Stage::Start => start_key(app, key),
        Stage::Copied(ok) => {
            if is_selection_cut_key(key) {
                if ok {
                    if let Some(edit) = prepare_cut(app) {
                        return Step::Edit(edit);
                    }
                }
                copy_key(app, key)
            } else if ok {
                app.selection = None;
                Step::Done(app::nothing())
            } else {
                Step::Done(plain_key(app, key))
            }
        },
        Stage::Edited(ok) => {
            let focus = active_focus(app);
            if ok && app::find_pane(&app.panes, focus).is_some() {
                app.selection = None;
                app.suggest = None;
                app.mention = None;
                let bytes = text::ascii_bytes("\x1b[99~");
                Step::Done(app::just(Effect::Write { pane: focus, bytes }))
            } else {
                copy_key(app, key)
            }
        },
    }
}

fn start_key(app: &mut App, key: KeyEvent) -> (r: Step)
    requires
        old(app).wf(),
        old(app).active_tab < old(app).tabs@.len(),
    ensures
        key_started(*old(app), key, *final(app), r@),
        final(app).wf(),
{
    if key.kind == KeyEventKind::Release {
        return Step::Done(send_key(app, key, false));
    }
    if app.palette.is_some() {
        return Step::Done(handle_palette_key(app, key));
    }
    if app.rename.is_some() {
        handle_rename_key(app, key);
        return Step::Done(app::nothing());
    }
    if app.confirm.is_some() {
        handle_confirm_key(app, key);
        return Step::Done(app::nothing());
    }
    if app.menu.is_some() {
        return Step::Done(handle_menu_key(app, key));
    }
    if is_selection_cut_key(key) {
        if let Some(edit) = input_edit(app) {
            return Step::Copy(edit.removed);
        }
    }
    if is_selection_delete_key(key) {
        if let Some(edit) = prepare_cut(app) {
            return Step::Edit(edit);
        }
    }
    copy_key(app, key)
}

/// Whether a key goes to a pane as such.
pub open spec fn is_sent_key(effect: EffectView) -> bool {
    effect is SendKey
}

/// Closing panes sends no keys.
proof fn closing_sends_no_key(panes: Seq<Pane>, ids: Seq<PaneId>, n: int)
    ensures
        forall|i: int|
            0 <= i < session::closes(panes, ids, n).len() ==> !is_sent_key(
                #[trigger] session::closes(panes, ids, n)[i],
            ),
    decreases n,
{
    if n > 0 {
        closing_sends_no_key(panes, ids, n - 1);
        let before = session::closes(panes, ids, n - 1);
        let all = session::closes(panes, ids, n);
        assert forall|i: int| 0 <= i < all.len() implies !is_sent_key(#[trigger] all[i]) by {
            if i < before.len() {
                assert(all[i] == before[i]);
            }
        }
    }
}

/// A key that is pressed while the palette, the popup for a name, the question or a menu is open
/// goes to that popup, and not to a pane.
pub proof fn keys_stay_in_popups(pre: App, key: KeyEvent, post: App, step: InputStepView)
    requires
        pre.wf(),
        key.kind != KeyEventKind::Release,
        pre.palette is Some || pre.rename is Some || pre.confirm is Some || pre.menu is Some,
        key_result(pre, key, Stage::Start, post, step),
    ensures
        step is Done,
        forall|i: int|
            0 <= i < step->Done_0.len() ==> !is_sent_key(#[trigger] step->Done_0[i]),
{
    if pre.palette is None && pre.rename is None && pre.confirm is None {
        let menu = pre.menu->0;
        if let MenuAction::CloseTab(k) = menu.items@[menu.hovered as int].action {
            let ids = layout::leaves_of(pre.tabs@[k as int].layout);
            closing_sends_no_key(pre.panes@, ids, ids.len() as int);
        }
    }
}

/// A key that is pressed where no popup is open, nothing is selected and no command of the
/// multiplexer is begun goes to the pane with the focus, and changes nothing else.
pub proof fn keys_reach_the_shell(pre: App, key: KeyEvent, post: App, step: InputStepView)
    requires
        pre.wf(),
        key.kind != KeyEventKind::Release,
        pre.palette is None,
        pre.rename is None,
        pre.confirm is None,
        pre.menu is None,
        pre.mention is None,
        pre.suggest is None,
        pre.selection is None,
        !pre.prefix_active,
        pre.cfg.keys.prefix != (key.modifiers, key.code),
        pre.cfg.keys.quit != (key.modifiers, key.code),
        app::has_pane(pre.panes@, pre.focus()),
        key_result(pre, key, Stage::Start, post, step),
    ensures
        post == pre,
        step == InputStepView::Done(
            seq![EffectView::SendKey { pane: pre.focus(), key, to_bottom: true }],
        ),
{
}

/// A popup that was closed with Esc does not open again while the input line stays as it is.
pub proof fn dismissed_is_not_offered_again(pre: App, key: KeyEvent, post: App)
    requires
        pre.wf(),
        !pre.prefix_active,
        pre.cfg.keys.prefix != (key.modifiers, key.code),
        pre.cfg.keys.quit != (key.modifiers, key.code),
        pre.mention is None,
        pre.suggest is Some,
        key.code == KeyCode::Esc,
        plain_key_handled(pre, key, post),
    ensures
        post.suggest is None,
        suggest::after_rebuild(post).suggest is None,
        suggest::rebuild_effects(post) == app::no_effects(),
{
}

/// A key behind the prefix key is a command of the multiplexer, and only that one key is.
pub proof fn prefix_lasts_one_key(pre: App, prefix: KeyEvent, mid: App, key: KeyEvent, post: App)
    requires
        pre.wf(),
        pre.active_tab < pre.tabs@.len(),
        !pre.prefix_active,
        pre.cfg.keys.prefix == (prefix.modifiers, prefix.code),
        plain_key_handled(pre, prefix, mid),
        plain_key_handled(mid, key, post),
    ensures
        plain_key_effects(pre, prefix, mid) == app::no_effects(),
        prefix_handled(pre, key, post),
        plain_key_effects(mid, key, post) == prefix_effects(pre, key, post),
        !post.prefix_active,
{
    assert(mid == (App { prefix_active: true, ..pre }));
    assert((App { prefix_active: false, ..mid }) == pre);
}

/// A program that asked for pastes to be marked can tell them apart from keys: what is sent is the
/// text between two marks, and the marks are the same for every text.
pub proof fn pastes_are_marked(text: Seq<char>)
    ensures
        pasted(text, true).len() == pasted(text, false).len() + 12,
        pasted(text, true).subrange(6, pasted(text, true).len() - 6) == pasted(text, false),
        pasted(text, true).take(6) == text::ascii("\x1b[200~"@),
        pasted(text, true).skip(pasted(text, true).len() - 6) == text::ascii("\x1b[201~"@),
{
    reveal_strlit("\x1b[200~");
    reveal_strlit("\x1b[201~");
    let all = pasted(text, true);
    assert(all.subrange(6, all.len() - 6) =~= pasted(text, false));
    assert(all.take(6) =~= text::ascii("\x1b[200~"@));
    assert(all.skip(all.len() - 6) =~= text::ascii("\x1b[201~"@));
}

// The mouse.

/// The part of the tab bar in a column.
pub open spec fn segment_at(segs: Seq<StatusSeg>, col: int) -> Option<StatusKind>
    decreases segs.len(),
{
    if segs.len() == 0 {
        None
    } else if segs[0].x <= col < segs[0].x + segs[0].text@.len() % 65536 {
        Some(segs[0].kind)
    } else {
        segment_at(segs.skip(1), col)
    }
}

/// What a click on a cell does to the tab bar.
pub open spec fn status_at(pre: App, col: int, row: int) -> Option<StatusKind> {
    if row == pre.status_y {
        segment_at(pre.status_segs@, col)
    } else {
        None
    }
}

/// What a click on a cell does to the tab bar.
pub fn status_hit(app: &App, col: u16, row: u16) -> (r: Option<StatusKind>)
    requires
        app.wf(),
    ensures
        r == status_at(*app, col as int, row as int),
{
    if row != app.status_y {
        return None;
    }
    let mut i: usize = 0;
    let n: usize = app.status_segs.len();
    assert(app.status_segs@.skip(0) =~= app.status_segs@);
    while i < n
        invariant
            i <= n,
            n == app.status_segs@.len(),
            app.wf(),
            row == app.status_y,
            segment_at(app.status_segs@, col as int) == segment_at(
                app.status_segs@.skip(i as int),
                col as int,
            ),
        decreases n - i,
    {
        let ghost rest = app.status_segs@.skip(i as int);
        assert(rest[0] == app.status_segs@[i as int]);
        assert(rest.skip(1) =~= app.status_segs@.skip(i + 1));
        let seg = &app.status_segs[i];
        let width: usize = text::chars_of(seg.text.as_str()).len() % 65536;
        if col >= seg.x && col < seg.x + width as u16 {
            return Some(seg.kind);
        }
        i = i + 1;
    }
    None
}

/// The divider on a cell, to be dragged.
pub open spec fn divider_on(dividers: Seq<Divider>, col: int, row: int) -> Option<DragState>
    decreases dividers.len(),
{
    if dividers.len() == 0 {
        None
    } else if dividers[0].line.has(col, row) {
        Some(DragState { id: dividers[0].id, dir: dividers[0].dir, bounds: dividers[0].bounds })
    } else {
        divider_on(dividers.skip(1), col, row)
    }
}

/// The divider on a cell, to be dragged.
pub fn divider_at(app: &App, col: u16, row: u16) -> (r: Option<DragState>)
    requires
        app.wf(),
    ensures
        r == divider_on(app.dividers@, col as int, row as int),
{
    let mut i: usize = 0;
    let n: usize = app.dividers.len();
    assert(app.dividers@.skip(0) =~= app.dividers@);
    while i < n
        invariant
            i <= n,
            n == app.dividers@.len(),
            app.wf(),
            divider_on(app.dividers@, col as int, row as int) == divider_on(
                app.dividers@.skip(i as int),
                col as int,
                row as int,
            ),
        decreases n - i,
    {
        let ghost rest = app.dividers@.skip(i as int);
        assert(rest[0] == app.dividers@[i as int]);
        assert(rest.skip(1) =~= app.dividers@.skip(i + 1));
        let d = &app.dividers[i];
        if within(d.line, col, row) {
            return Some(DragState { id: d.id, dir: d.dir, bounds: d.bounds });
        }
        i = i + 1;
    }
    None
}

/// The pane on a cell.
pub open spec fn pane_on(areas: Seq<(PaneId, Rect)>, col: int, row: int) -> Option<PaneId>
    decreases areas.len(),
{
    if areas.len() == 0 {
        None
    } else if areas[0].1.has(col, row) {
        Some(areas[0].0)
    } else {
        pane_on(areas.skip(1), col, row)
    }
}

/// The pane on a cell.
pub fn pane_at(app: &App, col: u16, row: u16) -> (r: Option<PaneId>)
    requires
        app.wf(),
    ensures
        r == pane_on(app.areas@, col as int, row as int),
{
    let mut i: usize = 0;
    let n: usize = app.areas.len();
    assert(app.areas@.skip(0) =~= app.areas@);
    while i < n
        invariant
            i <= n,
            n == app.areas@.len(),
            app.wf(),
            pane_on(app.areas@, col as int, row as int) == pane_on(
                app.areas@.skip(i as int),
                col as int,
                row as int,
            ),
        decreases n - i,
    {
        let ghost rest = app.areas@.skip(i as int);
        assert(rest[0] == app.areas@[i as int]);
        assert(rest.skip(1) =~= app.areas@.skip(i + 1));
        if within(app.areas[i].1, col, row) {
            return Some(app.areas[i].0);
        }
        i = i + 1;
    }
    None
}

/// How far into an extent of `len` cells from `start` a coordinate is, where one outside counts as
/// the nearest one inside.
pub open spec fn offset_in(at: int, start: int, len: int) -> int {
    geometry::max_of(geometry::min_of(at, start + len - 1), start) - start
}

/// The cell of a pane at a place of the screen, where the pane has any. A place outside the pane
/// counts as the nearest one inside if `clamp` says so, and is no cell otherwise.
pub open spec fn point_in(inner: Rect, col: int, row: int, clamp: bool) -> Option<GridPoint> {
    if inner.width == 0 || inner.height == 0 || !clamp && !inner.has(col, row) {
        None
    } else {
        Some(
            GridPoint {
                row: offset_in(row, inner.y as int, inner.height as int) as u16,
                col: offset_in(col, inner.x as int, inner.width as int) as u16,
            },
        )
    }
}

/// The cell of a pane at a place of the screen.
pub open spec fn point_of(pre: App, pid: PaneId, me: MouseEvent, clamp: bool) -> Option<GridPoint> {
    match layout::area_of(pre.inner_areas@, pid) {
        Some(inner) => point_in(inner, me.column as int, me.row as int, clamp),
        None => None,
    }
}

fn pane_point(app: &App, pid: PaneId, me: MouseEvent, clamp: bool) -> (r: Option<GridPoint>)
    requires
        app.wf(),
    ensures
        r == point_of(*app, pid, me, clamp),
{
    let inner = match layout::find_area(&app.inner_areas, pid) {
        Some(inner) => inner,
        None => return None,
    };
    if inner.width == 0 || inner.height == 0 {
        return None;
    }
    if !clamp && !within(inner, me.column, me.row) {
        return None;
    }
    let col: u16 = geometry::max_u16(
        geometry::min_u16(me.column, inner.x + (inner.width - 1)),
        inner.x,
    );
    let row: u16 = geometry::max_u16(
        geometry::min_u16(me.row, inner.y + (inner.height - 1)),
        inner.y,
    );
    Some(GridPoint { row: row - inner.y, col: col - inner.x })
}

/// Whether the program in a pane wants to know of the mouse.
pub open spec fn tracks_mouse(pre: App, pid: PaneId) -> bool {
    app::has_pane(pre.panes@, pid) && pre.pane(pid).report.mouse_tracking
}

fn has_mouse(app: &App, pid: PaneId) -> (r: bool)
    ensures
        r == tracks_mouse(*app, pid),
{
    match app::find_pane(&app.panes, pid) {
        Some(i) => app.panes[i].report.mouse_tracking,
        None => false,
    }
}

/// A mouse event for the program in a pane: it gets what it asked for, unless Shift is held.
pub open spec fn mouse_sent(pre: App, pid: PaneId, me: MouseEvent) -> Seq<EffectView> {
    if me.modifiers.shift || !tracks_mouse(pre, pid) {
        app::no_effects()
    } else {
        match layout::area_of(pre.inner_areas@, pid) {
            Some(inner) => match keys::mouse_request_for(me, inner) {
                Some(request) => seq![EffectView::SendMouse { pane: pid, request }],
                None => app::no_effects(),
            },
            None => app::no_effects(),
        }
    }
}

/// Hands a mouse event to the program in a pane.
pub fn forward_mouse(app: &App, pid: PaneId, me: MouseEvent) -> (r: Vec<Effect>)
    requires
        app.wf(),
    ensures
        app::effects_view(r@) == mouse_sent(*app, pid, me),
{
    if me.modifiers.shift {
        return app::nothing();
    }
    let inner = match layout::find_area(&app.inner_areas, pid) {
        Some(inner) => inner,
        None => return app::nothing(),
    };
    if !has_mouse(app, pid) {
        return app::nothing();
    }
    match mouse_request(me, inner) {
        Some(request) => app::just(Effect::SendMouse { pane: pid, request }),
        None => app::nothing(),
    }
}

/// The keys that a turn of the wheel stands for where a program uses the whole screen.
pub open spec fn wheel_keys(up: bool) -> Seq<u8> {
    if up {
        text::ascii("\x1b[A"@)
    } else {
        text::ascii("\x1b[B"@)
    }
}

fn wheel_bytes(up: bool) -> (r: Vec<u8>)
    ensures
        r@ == wheel_keys(up),
{
    if up {
        text::ascii_bytes("\x1b[A")
    } else {
        text::ascii_bytes("\x1b[B")
    }
}

/// What a turn of the wheel over a pane asks for: a program that wants to know of the mouse gets
/// it, one that uses the whole screen gets three arrow keys, and else the pane is scrolled by three
/// lines.
pub open spec fn scroll_effects(pre: App, pid: PaneId, up: bool, me: MouseEvent) -> Seq<EffectView> {
    if !app::has_pane(pre.panes@, pid) {
        app::no_effects()
    } else if tracks_mouse(pre, pid) {
        mouse_sent(pre, pid, me)
    } else if pre.pane(pid).report.alt_screen {
        let write = EffectView::Write { pane: pid, bytes: wheel_keys(up) };
        seq![write, write, write]
    } else {
        seq![
            EffectView::Scroll {
                pane: pid,
                lines: if up {
                    -3
                } else {
                    3
                },
            },
        ]
    }
}

/// A turn of the wheel over a pane.
pub fn scroll_pane(app: &App, pid: PaneId, up: bool, me: MouseEvent) -> (r: Vec<Effect>)
    requires
        app.wf(),
    ensures
        app::effects_view(r@) == scroll_effects(*app, pid, up, me),
{
    let i: usize = match app::find_pane(&app.panes, pid) {
        Some(i) => i,
        None => return app::nothing(),
    };
    if app.panes[i].report.mouse_tracking {
        return forward_mouse(app, pid, me);
    }
    if app.panes[i].report.alt_screen {
        let mut r: Vec<Effect> = Vec::new();
        r.push(Effect::Write { pane: pid, bytes: wheel_bytes(up) });
        r.push(Effect::Write { pane: pid, bytes: wheel_bytes(up) });
        r.push(Effect::Write { pane: pid, bytes: wheel_bytes(up) });
        assert(app::effects_view(r@) =~= scroll_effects(*app, pid, up, me));
        return r;
    }
    app::just(
        Effect::Scroll {
            pane: pid,
            lines: if up {
                -3
            } else {
                3
            },
        },
    )
}

/// The share of the first part once a divider was dragged to a place.
pub open spec fn dragged_share(drag: DragState, col: int, row: int) -> Ratio {
    let parts = match drag.dir {
        SplitDir::LeftRight => ratio::fraction_parts(
            geometry::minus(col, drag.bounds.x as int),
            geometry::max_of(drag.bounds.width as int, 1),
        ),
        SplitDir::TopBottom => ratio::fraction_parts(
            geometry::minus(row, drag.bounds.y as int),
            geometry::max_of(drag.bounds.height as int, 1),
        ),
    };
    Ratio { parts: parts as u64 }
}

/// The state after a divider was dragged to a place.
pub open spec fn dragged(pre: App, drag: DragState, col: int, row: int, post: App) -> bool {
    let tab = pre.tabs@[pre.active_tab as int];
    &&& post.tabs@ == pre.tabs@.update(
        pre.active_tab as int,
        Tab { layout: layout::with_ratio(tab.layout, drag.id, dragged_share(drag, col, row)), ..tab },
    )
    &&& post == (App { tabs: post.tabs, ..pre })
}

/// A divider is dragged to a place.
pub fn apply_drag(app: &mut App, drag: DragState, col: u16, row: u16)
    requires
        old(app).wf(),
        old(app).active_tab < old(app).tabs@.len(),
    ensures
        dragged(*old(app), drag, col as int, row as int, *final(app)),
        final(app).wf(),
        old(app).focus_wf() ==> final(app).focus_wf(),
{
    let share = match drag.dir {
        SplitDir::LeftRight => Ratio::of(
            col.saturating_sub(drag.bounds.x),
            geometry::max_u16(drag.bounds.width, 1),
        ),
        SplitDir::TopBottom => Ratio::of(
            row.saturating_sub(drag.bounds.y),
            geometry::max_u16(drag.bounds.height, 1),
        ),
    };
    let i: usize = app.active_tab;
    app.tabs[i].layout.set_ratio(drag.id, share);
    proof {
        session::same_layouts(*old(app), *app);
        assert forall|k: int| old(app).focus_wf() && 0 <= k < app.tabs@.len() implies app::tab_has(
            #[trigger] app.tabs@[k],
            app.tabs@[k].focus,
        ) by {
            assert(app::tab_has(old(app).tabs@[k], old(app).tabs@[k].focus));
        }
    }
}

/// A divider that is dragged stays under the pointer: once the tree is laid out again, its line
/// holds the cell to which it was dragged, where the limits of shares allow it.
pub proof fn divider_follows_the_pointer(
    drag: DragState,
    col: u16,
    row: u16,
    ratio: Ratio,
    first: Layout,
    second: Layout,
)
    requires
        drag.bounds.wf(),
        drag.bounds.has(col as int, row as int),
        ({
            let (n, d) = match drag.dir {
                SplitDir::LeftRight => (col - drag.bounds.x, drag.bounds.width as int),
                SplitDir::TopBottom => (row - drag.bounds.y, drag.bounds.height as int),
            };
            0 < n && ratio::SMALLEST * d <= n * ratio::WHOLE <= ratio::LARGEST * d
        }),
    ensures
        ({
            let tree = Layout::Split {
                id: drag.id,
                dir: drag.dir,
                ratio,
                first: Box::new(first),
                second: Box::new(second),
            };
            let moved = layout::with_ratio(
                tree,
                drag.id,
                dragged_share(drag, col as int, row as int),
            );
            let divider = layout::dividers_of(moved, drag.bounds)[0];
            divider.id == drag.id && divider.line.has(col as int, row as int)
        }),
{
    match drag.dir {
        SplitDir::LeftRight => {
            ratio::shares_are_exact((col - drag.bounds.x) as u16, drag.bounds.width);
        },
        SplitDir::TopBottom => {
            ratio::shares_are_exact((row - drag.bounds.y) as u16, drag.bounds.height);
        },
    }
}

// The popups at the input line under the mouse.

/// Whether a mouse event is inside the border of a popup.
pub open spec fn over(rect: Option<Rect>, me: MouseEvent) -> bool {
    rect is Some && geometry::inner_area(rect->0).has(me.column as int, me.row as int)
}

fn is_over(rect: Option<Rect>, me: MouseEvent) -> (r: bool)
    requires
        rect is Some ==> rect->0.wf(),
    ensures
        r == over(rect, me),
{
    match rect {
        Some(rect) => within(inner_of(rect), me.column, me.row),
        None => false,
    }
}

/// The mouse events that a popup at the input line takes.
pub open spec fn taken_by_popup(kind: MouseEventKind) -> bool {
    kind is ScrollUp || kind is ScrollDown || kind is Moved || kind is Drag || kind is Down
}

/// How far below the upper border of a popup a mouse event is.
pub open spec fn line_of(rect: Option<Rect>, me: MouseEvent) -> int {
    me.row - geometry::inner_area(rect->0).y
}

/// The state with the file under the pointer selected, where there is one.
pub open spec fn mention_pointed(pre: App, me: MouseEvent) -> App {
    match pre.mention {
        Some(mention) => {
            let i = mention.offset + line_of(pre.mention_rect, me);
            if i < mention.matches@.len() {
                App { mention: Some(Mention { selected: i as usize, ..mention }), ..pre }
            } else {
                pre
            }
        },
        None => pre,
    }
}

/// The state after a mouse event over the popup with files.
pub open spec fn mention_mouse(pre: App, me: MouseEvent) -> App {
    match me.kind {
        MouseEventKind::ScrollDown => mention_moved(pre, true),
        MouseEventKind::ScrollUp => mention_moved(pre, false),
        MouseEventKind::Down(_) => App { mention: None, ..pre },
        _ => mention_pointed(pre, me),
    }
}

/// What a mouse event over the popup with files asks for.
pub open spec fn mention_mouse_effects(pre: App, me: MouseEvent) -> Seq<EffectView> {
    if me.kind is Down {
        suggest::mention_accept_effects(mention_pointed(pre, me))
    } else {
        app::no_effects()
    }
}

fn handle_mention_mouse(app: &mut App, me: MouseEvent) -> (r: Vec<Effect>)
    requires
        old(app).wf(),
        old(app).active_tab < old(app).tabs@.len(),
        over(old(app).mention_rect, me),
        taken_by_popup(me.kind),
    ensures
        *final(app) == mention_mouse(*old(app), me),
        app::effects_view(r@) == mention_mouse_effects(*old(app), me),
        final(app).wf(),
{
    match me.kind {
        MouseEventKind::ScrollDown => {
            move_mention(app, true);
            return app::nothing();
        },
        MouseEventKind::ScrollUp => {
            move_mention(app, false);
            return app::nothing();
        },
        _ => {},
    }
    if let Some(rect) = app.mention_rect {
        let line: usize = (me.row - inner_of(rect).y) as usize;
        if let Some(mention) = &mut app.mention {
            if line < mention.matches.len() - mention.offset {
                mention.selected = mention.offset + line;
            }
        }
    }
    assert(*app == mention_pointed(*old(app), me));
    if let MouseEventKind::Down(_) = me.kind {
        mention_accept(app)
    } else {
        app::nothing()
    }
}

/// The state with the command under the pointer selected, where there is one.
pub open spec fn suggest_pointed(pre: App, me: MouseEvent) -> App {
    match pre.suggest {
        Some(sug) => {
            let i = sug.offset + line_of(pre.suggest_rect, me);
            if i < sug.matches@.len() {
                App { suggest: Some(Suggest { selected: i as usize, ..sug }), ..pre }
            } else {
                pre
            }
        },
        None => pre,
    }
}

/// The state after a mouse event over the popup with commands.
pub open spec fn suggest_mouse(pre: App, me: MouseEvent) -> App {
    match me.kind {
        MouseEventKind::ScrollDown => suggest_moved(pre, true),
        MouseEventKind::ScrollUp => suggest_moved(pre, false),
        MouseEventKind::Down(_) => if pre.suggest is Some {
            App {
                suggest: None,
                suggest_dismissed_for: Some(suggest::accepted(suggest_pointed(pre, me))),
                ..pre
            }
        } else {
            pre
        },
        _ => suggest_pointed(pre, me),
    }
}

/// What a mouse event over the popup with commands asks for.
pub open spec fn suggest_mouse_effects(pre: App, me: MouseEvent) -> Seq<EffectView> {
    if me.kind is Down && pre.suggest is Some {
        suggest::accept_effects(suggest_pointed(pre, me))
    } else {
        app::no_effects()
    }
}

fn handle_suggest_mouse(app: &mut App, me: MouseEvent) -> (r: Vec<Effect>)
    requires
        old(app).wf(),
        old(app).active_tab < old(app).tabs@.len(),
        over(old(app).suggest_rect, me),
        taken_by_popup(me.kind),
    ensures
        *final(app) == suggest_mouse(*old(app), me),
        app::effects_view(r@) == suggest_mouse_effects(*old(app), me),
        final(app).wf(),
{
    match me.kind {
        MouseEventKind::ScrollDown => {
            move_suggest(app, true);
            return app::nothing();
        },
        MouseEventKind::ScrollUp => {
            move_suggest(app, false);
            return app::nothing();
        },
        _ => {},
    }
    if let Some(rect) = app.suggest_rect {
        let line: usize = (me.row - inner_of(rect).y) as usize;
        if let Some(sug) = &mut app.suggest {
            if line < sug.matches.len() - sug.offset {
                sug.selected = sug.offset + line;
            }
        }
    }
    assert(*app == suggest_pointed(*old(app), me));
    if let MouseEventKind::Down(_) = me.kind {
        suggest_accept(app)
    } else {
        app::nothing()
    }
}

// The buttons.

/// Where a selection begins with the left button on a pane: not where the program in the pane gets
/// the mouse, unless Shift is held.
pub open spec fn selection_start(pre: App, pid: PaneId, me: MouseEvent) -> Option<GridPoint> {
    if !tracks_mouse(pre, pid) || me.modifiers.shift {
        point_of(pre, pid, me, false)
    } else {
        None
    }
}

/// The state after the left button went down: a tab is shown, a divider is taken up, or a pane gets
/// the focus and a selection begins.
pub open spec fn pressed(pre: App, me: MouseEvent, post: App) -> bool {
    let (col, row) = (me.column as int, me.row as int);
    match status_at(pre, col, row) {
        Some(StatusKind::Switch(i)) => post == (if i < pre.tabs@.len() {
            App { active_tab: i, suggest: None, ..pre }
        } else {
            pre
        }),
        Some(StatusKind::NewTab) => post == pre,
        None => match divider_on(pre.dividers@, col, row) {
            Some(drag) => post == (App { dragging: Some(drag), ..pre }),
            None => match pane_on(pre.areas@, col, row) {
                Some(pid) => session::focused(
                    App {
                        selection: match selection_start(pre, pid, me) {
                            Some(point) => Some(
                                PaneSelection {
                                    pane: pid,
                                    range: GridSelection { anchor: point, end: point },
                                },
                            ),
                            None => None,
                        },
                        ..pre
                    },
                    pid,
                    post,
                ),
                None => post == pre,
            },
        },
    }
}

/// What the left button asks for when it goes down.
pub open spec fn press_effects(pre: App, me: MouseEvent) -> Seq<EffectView> {
    let (col, row) = (me.column as int, me.row as int);
    match status_at(pre, col, row) {
        Some(StatusKind::Switch(_)) => app::no_effects(),
        Some(StatusKind::NewTab) => seq![EffectView::Spawn(app::SpawnFor::Tab)],
        None => if divider_on(pre.dividers@, col, row) is Some {
            app::no_effects()
        } else {
            match pane_on(pre.areas@, col, row) {
                Some(pid) => if selection_start(pre, pid, me) is Some {
                    app::no_effects()
                } else {
                    mouse_sent(pre, pid, me)
                },
                None => app::no_effects(),
            }
        },
    }
}

fn press(app: &mut App, me: MouseEvent) -> (r: Vec<Effect>)
    requires
        old(app).wf(),
        old(app).active_tab < old(app).tabs@.len(),
    ensures
        pressed(*old(app), me, *final(app)),
        app::effects_view(r@) == press_effects(*old(app), me),
        final(app).wf(),
{
    if let Some(kind) = status_hit(app, me.column, me.row) {
        return match kind {
            StatusKind::Switch(i) => {
                switch_tab(app, i);
                app::nothing()
            },
            StatusKind::NewTab => new_tab(),
        };
    }
    if let Some(drag) = divider_at(app, me.column, me.row) {
        app.dragging = Some(drag);
        return app::nothing();
    }
    let pid = match pane_at(app, me.column, me.row) {
        Some(pid) => pid,
        None => return app::nothing(),
    };
    set_active_focus(app, pid);
    if !has_mouse(app, pid) || me.modifiers.shift {
        if let Some(point) = pane_point(app, pid, me, false) {
            app.selection = Some(PaneSelection::new(pid, point));
            return app::nothing();
        }
    }
    app.selection = None;
    forward_mouse(app, pid, me)
}

/// The state after the right button went down: the menu of a tab or of a pane is open.
pub open spec fn menu_asked(pre: App, me: MouseEvent, post: App) -> bool {
    let (col, row) = (me.column as int, me.row as int);
    match status_at(pre, col, row) {
        Some(StatusKind::Switch(i)) => menu::menu_opened(pre, menu::tab_entries(i), col, row, post),
        _ => match pane_on(pre.areas@, col, row) {
            Some(pid) => menu::menu_opened(pre, menu::pane_entries(pid), col, row, post),
            None => post == pre,
        },
    }
}

fn ask_menu(app: &mut App, me: MouseEvent)
    requires
        old(app).wf(),
    ensures
        menu_asked(*old(app), me, *final(app)),
        final(app).wf(),
{
    if let Some(StatusKind::Switch(i)) = status_hit(app, me.column, me.row) {
        open_tab_menu(app, i, me.column, me.row);
    } else if let Some(pid) = pane_at(app, me.column, me.row) {
        open_pane_menu(app, pid, me.column, me.row);
    }
}

/// A selection that now ends elsewhere.
pub open spec fn selection_to(selection: PaneSelection, end: GridPoint) -> PaneSelection {
    PaneSelection { range: GridSelection { end, ..selection.range }, ..selection }
}

/// The state after the mouse was moved with the left button down: a divider or the end of the
/// selection goes along.
pub open spec fn pulled(pre: App, me: MouseEvent, post: App) -> bool {
    match pre.dragging {
        Some(drag) => dragged(pre, drag, me.column as int, me.row as int, post),
        None => match selection_end(pre, me) {
            Some(end) => post == (App {
                selection: Some(selection_to(pre.selection->0, end)),
                ..pre
            }),
            None => post == pre,
        },
    }
}

/// Where the selection ends at a mouse event, if there is one.
pub open spec fn selection_end(pre: App, me: MouseEvent) -> Option<GridPoint> {
    match pre.selection {
        Some(selection) => point_of(pre, selection.pane, me, true),
        None => None,
    }
}

/// What moving the mouse with the left button down asks for.
pub open spec fn pull_effects(pre: App, me: MouseEvent) -> Seq<EffectView> {
    if pre.dragging is Some || selection_end(pre, me) is Some {
        app::no_effects()
    } else {
        mouse_sent(pre, pre.focus(), me)
    }
}

fn pull(app: &mut App, me: MouseEvent) -> (r: Vec<Effect>)
    requires
        old(app).wf(),
        old(app).active_tab < old(app).tabs@.len(),
    ensures
        pulled(*old(app), me, *final(app)),
        app::effects_view(r@) == pull_effects(*old(app), me),
        final(app).wf(),
{
    if let Some(drag) = app.dragging {
        apply_drag(app, drag, me.column, me.row);
        return app::nothing();
    }
    if let Some(selection) = app.selection {
        if let Some(end) = pane_point(app, selection.pane, me, true) {
            app.selection = Some(
                PaneSelection {
                    pane: selection.pane,
                    range: GridSelection { anchor: selection.range.anchor, end },
                },
            );
            return app::nothing();
        }
    }
    forward_mouse(app, active_focus(app), me)
}

/// The character of the input line that a click puts the cursor before, in a pane whose shell waits
/// for input and whose newest output is shown.
pub open spec fn cursor_target(pre: App, pid: PaneId, click: GridPoint) -> Option<int> {
    if app::has_pane(pre.panes@, pid) {
        let pane = pre.pane(pid);
        if pane.pending is Some || pane.report.scrollback != 0 || pane.report.screen.hide_cursor {
            None
        } else {
            pane.input.index_at(&pane.report.screen, click)
        }
    } else {
        None
    }
}

/// Where the cursor of a pane is now.
pub open spec fn cursor_now(pre: App, pid: PaneId) -> int {
    let input = pre.pane(pid).input;
    geometry::min_of(input.cursor as int, input.buffer@.len() as int)
}

/// What a click does to the cursor of an input line.
enum CursorMove {
    /// The click is not on the input line, or the line cannot be edited.
    Off,
    /// The cursor is there already.
    There,
    /// This edit moves it.
    Edit(ZleEdit),
}

fn move_input_cursor_to(app: &App, pid: PaneId, click: GridPoint) -> (r: CursorMove)
    requires
        app.wf(),
    ensures
        match cursor_target(*app, pid, click) {
            Some(target) => if target == cursor_now(*app, pid) {
                r is There
            } else if ShellIntegration::can_edit(app.pane(pid).input.buffer@, target) {
                r is Edit && Step::Edit(r->0)@ == edit_step(
                    app.integ,
                    pid,
                    app.pane(pid).input.buffer@,
                    target,
                )
            } else {
                r is Off
            },
            None => r is Off,
        },
{
    let i: usize = match app::find_pane(&app.panes, pid) {
        Some(i) => i,
        None => return CursorMove::Off,
    };
    let pane = &app.panes[i];
    assert(app::pane_wf(app.panes@[i as int]));
    if pane.pending.is_some() || pane.report.scrollback != 0 || pane.report.screen.hide_cursor {
        return CursorMove::Off;
    }
    let target: usize = match pane.input.clicked(&pane.report.screen, click) {
        Some(target) => target,
        None => return CursorMove::Off,
    };
    let len: usize = text::chars_of(pane.input.buffer.as_str()).len();
    let current: usize = if pane.input.cursor < len {
        pane.input.cursor
    } else {
        len
    };
    if target == current {
        return CursorMove::There;
    }
    match app.integ.prepare_zle_edit(pid.0, pane.input.buffer.as_str(), target) {
        Some(edit) => CursorMove::Edit(edit),
        None => CursorMove::Off,
    }
}

/// The state after the button was let go at the end of a selection: it stays, unless there is
/// nothing but blanks in it.
pub open spec fn selection_kept(pre: App, end: GridPoint) -> App {
    let selection = selection_to(pre.selection->0, end);
    App {
        selection: if app::has_pane(pre.panes@, selection.pane) && text::blank(
            term::joined(
                term::selected_lines(&pre.pane(selection.pane).report.screen, selection.range),
            ),
        ) {
            None
        } else {
            Some(selection)
        },
        ..pre
    }
}

fn keep_selection(app: &mut App, end: GridPoint)
    requires
        old(app).wf(),
        old(app).selection is Some,
    ensures
        *final(app) == selection_kept(*old(app), end),
        final(app).wf(),
{
    if let Some(selection) = app.selection {
        let range = GridSelection { anchor: selection.range.anchor, end };
        app.selection = Some(PaneSelection { pane: selection.pane, range });
        if let Some(i) = app::find_pane(&app.panes, selection.pane) {
            assert(app::pane_wf(app.panes@[i as int]));
            let text = app.panes[i].report.screen.selected_text(range);
            if text::is_blank(text.as_str()) {
                app.selection = None;
            }
        }
    }
}

/// What letting a button go leads to. A click, which is a selection of one cell, moves the cursor of
/// the input line where it can.
pub open spec fn released(pre: App, me: MouseEvent, post: App, step: InputStepView) -> bool {
    if pre.dragging is Some {
        post == (App { dragging: None, ..pre }) && step == done()
    } else if pre.selection is Some {
        let pid = (pre.selection->0).pane;
        match selection_end(pre, me) {
            Some(end) => match cursor_target(pre, pid, end) {
                Some(target) => if end != (pre.selection->0).range.anchor || me.modifiers.shift {
                    post == selection_kept(pre, end) && step == done()
                } else if target == cursor_now(pre, pid) {
                    post == (App { selection: None, ..pre }) && step == done()
                } else if ShellIntegration::can_edit(pre.pane(pid).input.buffer@, target) {
                    post == pre && step == edit_step(
                        pre.integ,
                        pid,
                        pre.pane(pid).input.buffer@,
                        target,
                    )
                } else {
                    post == selection_kept(pre, end) && step == done()
                },
                None => post == selection_kept(pre, end) && step == done(),
            },
            None => post == pre && step == done(),
        }
    } else {
        post == pre && step == InputStepView::Done(mouse_sent(pre, pre.focus(), me))
    }
}

fn release(app: &mut App, me: MouseEvent) -> (r: Step)
    requires
        old(app).wf(),
        old(app).active_tab < old(app).tabs@.len(),
    ensures
        released(*old(app), me, *final(app), r@),
        final(app).wf(),
{
    if app.dragging.is_some() {
        app.dragging = None;
        return Step::Done(app::nothing());
    }
    let selection = match app.selection {
        Some(selection) => selection,
        None => return Step::Done(forward_mouse(app, active_focus(app), me)),
    };
    if let Some(end) = pane_point(app, selection.pane, me, true) {
        if selection.range.anchor == end && !me.modifiers.shift {
            match move_input_cursor_to(app, selection.pane, end) {
                CursorMove::There => {
                    app.selection = None;
                    return Step::Done(app::nothing());
                },
                CursorMove::Edit(edit) => {
                    return Step::Edit(edit);
                },
                CursorMove::Off => {},
            }
        }
        keep_selection(app, end);
    }
    Step::Done(app::nothing())
}

/// What a mouse event leads to: the popups take it first, in their order, then the tab bar, the
/// dividers and the panes.
pub open spec fn mouse_result(pre: App, me: MouseEvent, post: App, step: InputStepView) -> bool {
    if pre.palette is Some {
        post == palette::after_mouse(pre, me) && step == InputStepView::Done(
            palette::mouse_effects(pre, me),
        )
    } else if pre.rename is Some {
        post == pre && step == done()
    } else if pre.confirm is Some {
        post == confirm::after_mouse(pre, me) && step == done()
    } else if pre.menu is Some {
        menu::mouse_handled(pre, me, post) && step == InputStepView::Done(
            menu::mouse_effects(pre, me),
        )
    } else if over(pre.mention_rect, me) && taken_by_popup(me.kind) {
        post == mention_mouse(pre, me) && step == InputStepView::Done(
            mention_mouse_effects(pre, me),
        )
    } else if over(pre.suggest_rect, me) && taken_by_popup(me.kind) {
        post == suggest_mouse(pre, me) && step == InputStepView::Done(
            suggest_mouse_effects(pre, me),
        )
    } else {
        let under = pane_on(pre.areas@, me.column as int, me.row as int);
        match me.kind {
            MouseEventKind::Down(MouseButton::Left) => pressed(pre, me, post) && step
                == InputStepView::Done(press_effects(pre, me)),
            MouseEventKind::Down(MouseButton::Right) => menu_asked(pre, me, post) && step == done(),
            MouseEventKind::Drag(MouseButton::Left) => pulled(pre, me, post) && step
                == InputStepView::Done(pull_effects(pre, me)),
            MouseEventKind::Up(_) => released(pre, me, post, step),
            MouseEventKind::ScrollUp | MouseEventKind::ScrollDown => post == pre && step
                == InputStepView::Done(
                if under is Some {
                    scroll_effects(pre, under->0, me.kind is ScrollUp, me)
                } else {
                    app::no_effects()
                },
            ),
            _ => post == pre && step == InputStepView::Done(
                if under is Some {
                    mouse_sent(pre, under->0, me)
                } else {
                    app::no_effects()
                },
            ),
        }
    }
}

fn takes(kind: MouseEventKind) -> (r: bool)
    ensures
        r == taken_by_popup(kind),
{
    match kind {
        MouseEventKind::ScrollUp
        | MouseEventKind::ScrollDown
        | MouseEventKind::Moved
        | MouseEventKind::Drag(_)
        | MouseEventKind::Down(_) => true,
        _ => false,
    }
}

/// Handles a mouse event. Where it is answered with an edit, [`finish_click`] ends it.
pub fn handle_mouse(app: &mut App, me: MouseEvent) -> (r: Step)
    requires
        old(app).wf(),
        old(app).active_tab < old(app).tabs@.len(),
    ensures
        mouse_result(*old(app), me, *final(app), r@),
        final(app).wf(),
{
    if app.palette.is_some() {
        return Step::Done(handle_palette_mouse(app, me));
    }
    if app.rename.is_some() {
        return Step::Done(app::nothing());
    }
    if app.confirm.is_some() {
        handle_confirm_mouse(app, me);
        return Step::Done(app::nothing());
    }
    if app.menu.is_some() {
        return Step::Done(handle_menu_mouse(app, me));
    }
    if takes(me.kind) {
        if is_over(app.mention_rect, me) {
            return Step::Done(handle_mention_mouse(app, me));
        }
        if is_over(app.suggest_rect, me) {
            return Step::Done(handle_suggest_mouse(app, me));
        }
    }
    match me.kind {
        MouseEventKind::Down(MouseButton::Left) => Step::Done(press(app, me)),
        MouseEventKind::Down(MouseButton::Right) => {
            ask_menu(app, me);
            Step::Done(app::nothing())
        },
        MouseEventKind::Drag(MouseButton::Left) => Step::Done(pull(app, me)),
        MouseEventKind::Up(_) => release(app, me),
        MouseEventKind::ScrollUp | MouseEventKind::ScrollDown => {
            let up = match me.kind {
                MouseEventKind::ScrollUp => true,
                _ => false,
            };
            match pane_at(app, me.column, me.row) {
                Some(pid) => Step::Done(scroll_pane(app, pid, up, me)),
                None => Step::Done(app::nothing()),
            }
        },
        _ => match pane_at(app, me.column, me.row) {
            Some(pid) => Step::Done(forward_mouse(app, pid, me)),
            None => Step::Done(app::nothing()),
        },
    }
}

/// The state after a click on the input line, once the file of its edit was written or could not be.
pub open spec fn click_finished(pre: App, me: MouseEvent, written: bool, post: App) -> bool {
    match selection_end(pre, me) {
        Some(end) => if written && app::has_pane(pre.panes@, (pre.selection->0).pane) {
            post == (App { selection: None, ..pre })
        } else {
            post == selection_kept(pre, end)
        },
        None => post == pre,
    }
}

/// What the end of such a click asks for.
pub open spec fn click_effects(pre: App, me: MouseEvent, written: bool) -> Seq<EffectView> {
    if selection_end(pre, me) is Some && written && app::has_pane(
        pre.panes@,
        (pre.selection->0).pane,
    ) {
        seq![EffectView::Write { pane: (pre.selection->0).pane, bytes: shell::edit_keys() }]
    } else {
        app::no_effects()
    }
}

/// Ends a click on the input line, once the file of its edit was written or could not be.
pub fn finish_click(app: &mut App, me: MouseEvent, written: bool) -> (r: Vec<Effect>)
    requires
        old(app).wf(),
    ensures
        click_finished(*old(app), me, written, *final(app)),
        app::effects_view(r@) == click_effects(*old(app), me, written),
        final(app).wf(),
{
    let selection = match app.selection {
        Some(selection) => selection,
        None => return app::nothing(),
    };
    let end = match pane_point(app, selection.pane, me, true) {
        Some(end) => end,
        None => return app::nothing(),
    };
    if written && app::find_pane(&app.panes, selection.pane).is_some() {
        app.selection = None;
        let bytes = text::ascii_bytes("\x1b[99~");
        return app::just(Effect::Write { pane: selection.pane, bytes });
    }
    keep_selection(app, end);
    app::nothing()
}

/// The cell of a pane is the one under the pointer; for a pointer outside the pane it is none, or the
/// nearest one.
pub proof fn points_are_under_the_pointer(inner: Rect, col: int, row: int, clamp: bool, c: int, r: int)
    requires
        inner.wf(),
        inner.has(c, r),
    ensures
        inner.has(col, row) || clamp ==> point_in(inner, col, row, clamp) is Some,
        !inner.has(col, row) && !clamp ==> point_in(inner, col, row, clamp) is None,
        point_in(inner, col, row, clamp) matches Some(p) ==> {
            let (dx, dy) = (inner.x + p.col - col, inner.y + p.row - row);
            &&& p.col < inner.width
            &&& p.row < inner.height
            &&& inner.has(col, row) ==> dx == 0 && dy == 0
            &&& (if dx < 0 {
                -dx
            } else {
                dx
            }) <= (if c < col {
                col - c
            } else {
                c - col
            })
            &&& (if dy < 0 {
                -dy
            } else {
                dy
            }) <= (if r < row {
                row - r
            } else {
                r - row
            })
        },
{
}

/// The pane on a cell is the one whose area holds the cell; there is none only where no area does.
pub proof fn panes_are_found(areas: Seq<(PaneId, Rect)>, col: int, row: int, i: int)
    requires
        0 <= i < areas.len(),
        areas[i].1.has(col, row),
        forall|j: int| 0 <= j < areas.len() && j != i ==> !(#[trigger] areas[j]).1.has(col, row),
    ensures
        pane_on(areas, col, row) == Some(areas[i].0),
    decreases areas.len(),
{
    let first = areas[0];
    if i > 0 {
        let rest = areas.skip(1);
        assert forall|j: int| 0 <= j < rest.len() && j != i - 1 implies !(
        #[trigger] rest[j]).1.has(col, row) by {
            let other = areas[j + 1];
        }
        panes_are_found(rest, col, row, i - 1);
    }
}

/// No pane is on a cell that no area holds.
pub proof fn no_pane_is_outside(areas: Seq<(PaneId, Rect)>, col: int, row: int)
    requires
        forall|j: int| 0 <= j < areas.len() ==> !(#[trigger] areas[j]).1.has(col, row),
    ensures
        pane_on(areas, col, row) is None,
    decreases areas.len(),
{
    if areas.len() > 0 {
        let first = areas[0];
        let rest = areas.skip(1);
        assert forall|j: int| 0 <= j < rest.len() implies !(#[trigger] rest[j]).1.has(col, row) by {
            let other = areas[j + 1];
        }
        no_pane_is_outside(rest, col, row);
    }
}

/// A divider is found on each cell of its line, with its direction and bounds, and none elsewhere.
pub proof fn dividers_are_found(dividers: Seq<Divider>, col: int, row: int)
    ensures
        match divider_on(dividers, col, row) {
            Some(drag) => exists|i: int|
                {
                    &&& 0 <= i < dividers.len()
                    &&& (#[trigger] dividers[i]).line.has(col, row)
                    &&& drag.id == dividers[i].id
                    &&& drag.dir == dividers[i].dir
                    &&& drag.bounds == dividers[i].bounds
                    &&& forall|j: int| 0 <= j < i ==> !(#[trigger] dividers[j]).line.has(col, row)
                },
            None => forall|j: int|
                0 <= j < dividers.len() ==> !(#[trigger] dividers[j]).line.has(col, row),
        },
    decreases dividers.len(),
{
    if dividers.len() > 0 {
        let first = dividers[0];
        if !first.line.has(col, row) {
            let rest = dividers.skip(1);
            dividers_are_found(rest, col, row);
            match divider_on(dividers, col, row) {
                Some(drag) => {
                    let i = choose|i: int|
                        {
                            &&& 0 <= i < rest.len()
                            &&& (#[trigger] rest[i]).line.has(col, row)
                            &&& drag.id == rest[i].id
                            &&& drag.dir == rest[i].dir
                            &&& drag.bounds == rest[i].bounds
                            &&& forall|j: int|
                                0 <= j < i ==> !(#[trigger] rest[j]).line.has(col, row)
                        };
                    assert(dividers[i + 1] == rest[i]);
                    assert forall|j: int| 0 <= j < i + 1 implies !(
                    #[trigger] dividers[j]).line.has(col, row) by {
                        if j > 0 {
                            assert(dividers[j] == rest[j - 1]);
                        }
                    }
                },
                None => {
                    assert forall|j: int| 0 <= j < dividers.len() implies !(
                    #[trigger] dividers[j]).line.has(col, row) by {
                        if j > 0 {
                            assert(dividers[j] == rest[j - 1]);
                        }
                    }
                },
            }
        }
    }
}

/// A click on a part of the tab bar does what that part is for, where the parts stand side by side.
pub proof fn segments_are_found(segs: Seq<StatusSeg>, col: int, i: int)
    requires
        0 <= i < segs.len(),
        segs[i].text@.len() < 65536,
        segs[i].x <= col < segs[i].x + segs[i].text@.len(),
        forall|j: int|
            0 <= j < i ==> (#[trigger] segs[j]).text@.len() < 65536 && segs[j].x + segs[j].text@.len()
                <= col,
    ensures
        segment_at(segs, col) == Some(segs[i].kind),
    decreases segs.len(),
{
    let first = segs[0];
    if i > 0 {
        let rest = segs.skip(1);
        assert forall|j: int| 0 <= j < i - 1 implies (#[trigger] rest[j]).text@.len() < 65536
            && rest[j].x + rest[j].text@.len() <= col by {
            let other = segs[j + 1];
        }
        segments_are_found(rest, col, i - 1);
    }
}

/// Turning the wheel up and down are opposite: what one scrolls, the other scrolls back.
pub proof fn wheel_turns_are_opposite(pre: App, pid: PaneId, me: MouseEvent)
    requires
        app::has_pane(pre.panes@, pid),
        !tracks_mouse(pre, pid),
        !pre.pane(pid).report.alt_screen,
    ensures
        scroll_effects(pre, pid, true, me).len() == 1,
        scroll_effects(pre, pid, false, me).len() == 1,
        exists|lines: int|
            lines > 0 && scroll_effects(pre, pid, false, me)[0] == (#[trigger] scroll_of(pid, lines))
                && scroll_effects(pre, pid, true, me)[0] == scroll_of(pid, -lines),
{
    assert(scroll_effects(pre, pid, false, me)[0] == scroll_of(pid, 3));
}

/// A pane scrolled by so many lines: up where they are negative.
pub open spec fn scroll_of(pid: PaneId, lines: int) -> EffectView {
    EffectView::Scroll { pane: pid, lines }
}

/// A line further down, and then one up, is where the selection was; the selected line is always
/// one that is shown.
pub proof fn moving_back_keeps_the_selection(pre: App)
    requires
        pre.wf(),
        pre.cfg.suggest_max_visible > 0,
        pre.suggest is Some,
        (pre.suggest->0).selected + 1 < (pre.suggest->0).matches@.len() <= usize::MAX,
    ensures
        ({
            let mid = suggest_moved(pre, true).suggest->0;
            let post = suggest_moved(suggest_moved(pre, true), false).suggest->0;
            &&& mid.selected == (pre.suggest->0).selected + 1
            &&& post.selected == (pre.suggest->0).selected
            &&& mid.matches == (pre.suggest->0).matches
            &&& mid.offset <= mid.selected < mid.offset + pre.cfg.suggest_max_visible
            &&& post.offset <= post.selected < post.offset + pre.cfg.suggest_max_visible
        }),
{
}

/// A line further down, and then one up, is where the selection was, in the popup with files too.
pub proof fn moving_back_keeps_the_mention(pre: App)
    requires
        pre.wf(),
        pre.cfg.suggest_max_visible > 0,
        pre.mention is Some,
        (pre.mention->0).selected + 1 < (pre.mention->0).matches@.len() <= usize::MAX,
    ensures
        ({
            let mid = mention_moved(pre, true).mention->0;
            let post = mention_moved(mention_moved(pre, true), false).mention->0;
            &&& mid.selected == (pre.mention->0).selected + 1
            &&& post.selected == (pre.mention->0).selected
            &&& mid.matches == (pre.mention->0).matches
            &&& mid.offset <= mid.selected < mid.offset + pre.cfg.suggest_max_visible
            &&& post.offset <= post.selected < post.offset + pre.cfg.suggest_max_visible
        }),
{
}

/// What is pasted is the text itself, and nothing is lost: the bytes between the marks decode to it.
pub proof fn pastes_hold_the_text(text: Seq<char>)
    ensures
        utf8::decode_utf8(pasted(text, false)) == text,
        ({
            let all = pasted(text, true);
            all.len() >= 12 && utf8::decode_utf8(all.subrange(6, all.len() - 6)) == text
        }),
{
    reveal_strlit("\x1b[200~");
    reveal_strlit("\x1b[201~");
    let all = pasted(text, true);
    utf8::encode_utf8_decode_utf8(text);
    assert(all.subrange(6, all.len() - 6) =~= utf8::encode_utf8(text));
}

/// A click moves the cursor and nothing else: the shell gets the line that it had.
pub proof fn clicks_keep_the_line(pre: App, me: MouseEvent, post: App, step: InputStepView)
    requires
        released(pre, me, post, step),
        pre.selection is Some,
    ensures
        step matches InputStepView::Edit { contents, .. } ==> ({
            let line = pre.pane((pre.selection->0).pane).input.buffer@;
            &&& post == pre
            &&& contents.len() > line.len()
            &&& contents.skip(contents.len() - line.len()) == line
            &&& contents[contents.len() - line.len() - 1] == '\n'
        }),
{
    if step is Edit {
        let pid = (pre.selection->0).pane;
        let line = pre.pane(pid).input.buffer@;
        let end = selection_end(pre, me)->0;
        let target = cursor_target(pre, pid, end)->0;
        let contents = shell::edit_contents(line, target);
        assert(contents.skip(contents.len() - line.len()) =~= line);
    }
}

/// A selection that holds anything is kept when the button is let go, from where it began to where
/// it ended, and one that holds nothing is dropped.
pub proof fn selections_are_kept(pre: App, end: GridPoint)
    requires
        pre.selection is Some,
        app::has_pane(pre.panes@, (pre.selection->0).pane),
    ensures
        ({
            let pid = (pre.selection->0).pane;
            let post = selection_kept(pre, end);
            &&& post.selection matches Some(kept) ==> kept.pane == pid && kept.range.anchor == (
            pre.selection->0).range.anchor && kept.range.end == end && text_to_copy(post) is Some
            &&& post.panes == pre.panes
        }),
{
}

/// Whether the keys for the commands of the multiplexer are all different.
pub open spec fn keys_apart(k: crate::config::Keymap) -> bool {
    let all = seq![
        k.split_right,
        k.split_down,
        k.close_pane,
        k.tab_new,
        k.tab_next,
        k.tab_prev,
        k.tab_rename,
        k.tab_close,
        k.palette,
        k.quit_action,
    ];
    forall|i: int, j: int| 0 <= i < j < 10 ==> #[trigger] all[i] != #[trigger] all[j]
}

/// Each command of the multiplexer does what its key is set for, with the pane or the tab that is
/// shown, and a key that is set for nothing does nothing.
pub proof fn commands_do_what_they_are_for(pre: App, key: KeyEvent, post: App, c: char)
    requires
        key.code == KeyCode::Char(c),
        keys_apart(pre.cfg.keys),
        prefix_handled(pre, key, post),
        0 < pre.tabs@.len() <= usize::MAX,
        pre.active_tab < pre.tabs@.len(),
    ensures
        ({
            let k = pre.cfg.keys;
            let asked = prefix_effects(pre, key, post);
            let there = app::in_tabs(pre.tabs@, pre.focus());
            &&& c == k.split_right && there ==> post == pre && asked == seq![
                EffectView::Spawn(
                    app::SpawnFor::Split { target: pre.focus(), dir: SplitDir::LeftRight },
                ),
            ]
            &&& c == k.split_down && there ==> post == pre && asked == seq![
                EffectView::Spawn(
                    app::SpawnFor::Split { target: pre.focus(), dir: SplitDir::TopBottom },
                ),
            ]
            &&& c == k.tab_new ==> post == pre && asked == seq![
                EffectView::Spawn(app::SpawnFor::Tab),
            ]
            &&& c == k.tab_next ==> post.tabs == pre.tabs && post.active_tab == (if pre.active_tab
                + 1 < pre.tabs@.len() {
                pre.active_tab + 1
            } else {
                0
            })
            &&& c == k.tab_prev ==> post.tabs == pre.tabs && post.active_tab == (if pre.active_tab
                > 0 {
                pre.active_tab - 1
            } else {
                pre.tabs@.len() - 1
            })
            &&& c == k.tab_rename ==> (post.rename matches Some(r) && r.tab_index
                == pre.active_tab && r.buffer@ == pre.tabs@[pre.active_tab as int].name@)
            &&& c == k.palette ==> post.palette is Some && asked.len() == 1 && post.tabs
                == pre.tabs
            &&& c == k.quit_action ==> post.should_quit && post.tabs == pre.tabs
            &&& c == k.close_pane && pre.panes@.len() <= 1 ==> post.confirm is Some && asked.len()
                == 0 && post.panes == pre.panes
            &&& !(seq![
                k.split_right,
                k.split_down,
                k.close_pane,
                k.tab_new,
                k.tab_next,
                k.tab_prev,
                k.tab_rename,
                k.tab_close,
                k.palette,
                k.quit_action,
            ].contains(c)) ==> post == pre && asked.len() == 0
        }),
{
    let k = pre.cfg.keys;
    let all = seq![
        k.split_right,
        k.split_down,
        k.close_pane,
        k.tab_new,
        k.tab_next,
        k.tab_prev,
        k.tab_rename,
        k.tab_close,
        k.palette,
        k.quit_action,
    ];
    assert(all[0] == k.split_right && all[1] == k.split_down && all[2] == k.close_pane && all[3]
        == k.tab_new && all[4] == k.tab_next && all[5] == k.tab_prev && all[6] == k.tab_rename
        && all[7] == k.tab_close && all[8] == k.palette && all[9] == k.quit_action);
    session::tabs_follow_each_other(pre.active_tab as int, pre.tabs@.len() as int);
}

/// A click on a pane gives it the focus, and begins a selection at the cell under the pointer where
/// the program in the pane does not take the mouse.
pub proof fn clicks_on_panes(pre: App, me: MouseEvent, post: App, pid: PaneId, inner: Rect)
    requires
        pressed(pre, me, post),
        status_at(pre, me.column as int, me.row as int) is None,
        divider_on(pre.dividers@, me.column as int, me.row as int) is None,
        pane_on(pre.areas@, me.column as int, me.row as int) == Some(pid),
        layout::area_of(pre.inner_areas@, pid) == Some(inner),
        inner.wf(),
        pre.active_tab < pre.tabs@.len(),
    ensures
        post.active_tab < post.tabs@.len() ==> post.focus() == pid,
        tracks_mouse(pre, pid) && !me.modifiers.shift ==> post.selection is None,
        inner.has(me.column as int, me.row as int) && !tracks_mouse(pre, pid) ==> (
        post.selection matches Some(s) && s.pane == pid && inner.x + s.range.anchor.col == me.column
            && inner.y + s.range.anchor.row == me.row && s.range.end == s.range.anchor),
{
}

/// A click on a tab shows it, and changes nothing else but the popup with commands.
pub proof fn clicks_on_tabs(pre: App, me: MouseEvent, post: App, i: usize)
    requires
        pressed(pre, me, post),
        status_at(pre, me.column as int, me.row as int) == Some(StatusKind::Switch(i)),
        i < pre.tabs@.len(),
    ensures
        post.active_tab == i,
        post.tabs == pre.tabs,
        post.panes == pre.panes,
        press_effects(pre, me).len() == 0,
{
}

/// While the mouse is pulled, the selection begins where it began, and ends at the cell of its pane
/// that is nearest to the pointer.
pub proof fn pulling_moves_the_end(pre: App, me: MouseEvent, post: App, inner: Rect)
    requires
        pulled(pre, me, post),
        pre.dragging is None,
        pre.selection is Some,
        layout::area_of(pre.inner_areas@, (pre.selection->0).pane) == Some(inner),
        inner.wf(),
        inner.has(me.column as int, me.row as int),
    ensures
        post.selection matches Some(s) && s.pane == (pre.selection->0).pane && s.range.anchor == (
        pre.selection->0).range.anchor && inner.x + s.range.end.col == me.column && inner.y
            + s.range.end.row == me.row,
        post.tabs == pre.tabs,
{
}

/// The line of a popup that the pointer is on is the one that is selected.
pub proof fn pointed_lines_are_selected(pre: App, me: MouseEvent)
    requires
        over(pre.suggest_rect, me),
        pre.suggest is Some,
        (pre.suggest->0).matches@.len() <= usize::MAX,
    ensures
        ({
            let inner = geometry::inner_area(pre.suggest_rect->0);
            let sug = pre.suggest->0;
            let post = suggest_pointed(pre, me).suggest->0;
            &&& sug.offset + (me.row - inner.y) < sug.matches@.len() ==> post.selected - post.offset
                == me.row - inner.y
            &&& sug.offset + (me.row - inner.y) >= sug.matches@.len() ==> post == sug
            &&& post.matches == sug.matches
            &&& post.offset == sug.offset
        }),
{
}

/// The line of the popup with files that the pointer is on is the one that is selected.
pub proof fn pointed_files_are_selected(pre: App, me: MouseEvent)
    requires
        over(pre.mention_rect, me),
        pre.mention is Some,
        (pre.mention->0).matches@.len() <= usize::MAX,
    ensures
        ({
            let inner = geometry::inner_area(pre.mention_rect->0);
            let mention = pre.mention->0;
            let post = mention_pointed(pre, me).mention->0;
            &&& mention.offset + (me.row - inner.y) < mention.matches@.len() ==> post.selected
                - post.offset == me.row - inner.y
            &&& mention.offset + (me.row - inner.y) >= mention.matches@.len() ==> post == mention
            &&& post.matches == mention.matches
            &&& post.offset == mention.offset
        }),
{
}

/// A cut puts the selected part of the line into the clipboard, and then hands the shell the rest:
/// the two together are the line.
pub proof fn cuts_move_the_selected_part(pre: App)
    requires
        pre.wf(),
        can_cut(pre),
        selection_cut(pre) is Some,
    ensures
        ({
            let line = pre.pane(pre.focus()).input.buffer@;
            let (rest, removed, cursor) = selection_cut(pre)->0;
            &&& 0 <= cursor <= rest.len()
            &&& rest.take(cursor) + removed + rest.skip(cursor) == line
            &&& cut_step(pre) matches InputStepView::Edit { contents, .. } && contents.len()
                > rest.len() && contents.skip(contents.len() - rest.len()) == rest
        }),
{
    let pane = pre.pane(pre.focus());
    app::pane_index_is_first(pre.panes@, pre.focus());
    assert(app::pane_wf(pane));
    let (rest, removed, cursor) = selection_cut(pre)->0;
    crate::input_line::cutting_is_undone_by_putting_back(
        pane.input,
        &pane.report.screen,
        (pre.selection->0).range,
        rest,
        removed,
        cursor,
    );
    let contents = shell::edit_contents(rest, cursor);
    assert(contents.skip(contents.len() - rest.len()) =~= rest);
}

/// While a popup takes all input, a mouse event reaches no pane: the tabs, the panes and their focus
/// are as they were.
pub proof fn the_mouse_stays_in_popups(pre: App, me: MouseEvent, post: App, step: InputStepView)
    requires
        mouse_result(pre, me, post, step),
        pre.palette is Some || pre.rename is Some || pre.confirm is Some,
    ensures
        post.tabs == pre.tabs,
        post.active_tab == pre.active_tab,
        post.panes == pre.panes,
        post.selection == pre.selection,
{
}

/// Where a program uses the whole screen, a turn of the wheel is three presses of the arrow key in its
/// direction.
pub proof fn wheel_turns_are_arrow_keys(pre: App, pid: PaneId, up: bool, me: MouseEvent, i: int)
    requires
        app::has_pane(pre.panes@, pid),
        !tracks_mouse(pre, pid),
        pre.pane(pid).report.alt_screen,
        0 <= i < 3,
    ensures
        scroll_effects(pre, pid, up, me).len() == 3,
        scroll_effects(pre, pid, up, me)[i] == (EffectView::Write {
            pane: pid,
            bytes: if up {
                seq![0x1bu8, 0x5b, 0x41]
            } else {
                seq![0x1bu8, 0x5b, 0x42]
            },
        }),
{
    reveal_strlit("\x1b[A");
    reveal_strlit("\x1b[B");
    assert(text::ascii("\x1b[A"@) =~= seq![0x1bu8, 0x5b, 0x41]);
    assert(text::ascii("\x1b[B"@) =~= seq![0x1bu8, 0x5b, 0x42]);
}

/// The key that is set for quitting quits, whatever is typed in the pane; the one that is set as the
/// prefix waits for a command. Neither reaches the shell.
pub proof fn set_keys_do_not_reach_the_shell(pre: App, key: KeyEvent, post: App)
    requires
        !pre.prefix_active,
        plain_key_handled(pre, key, post),
    ensures
        pre.cfg.keys.prefix == (key.modifiers, key.code) ==> post.prefix_active
            && plain_key_effects(pre, key, post).len() == 0 && post.should_quit == pre.should_quit,
        pre.cfg.keys.quit == (key.modifiers, key.code) && pre.cfg.keys.prefix
            != pre.cfg.keys.quit ==> post.should_quit && plain_key_effects(pre, key, post).len()
            == 0,
        pre.cfg.keys.quit != (key.modifiers, key.code) && pre.cfg.keys.prefix != (
            key.modifiers,
            key.code,
        ) ==> post.should_quit == pre.should_quit && !post.prefix_active,
{
}

/// A selection that was copied, or cut out of the line, is gone; after a cut so are the popups at the
/// line, and the shell is told to take the new line. One that could not be copied stays.
pub proof fn selections_go_when_they_are_used(
    pre: App,
    key: KeyEvent,
    ok: bool,
    post: App,
    step: InputStepView,
)
    requires
        app::has_pane(pre.panes@, pre.focus()),
    ensures
        key_copied(pre, key, ok, post, step) && !keys::cuts(key) && ok ==> post.selection is None
            && post.panes == pre.panes && post.tabs == pre.tabs,
        key_edited(pre, key, ok, post, step) && ok ==> post.selection is None && post.suggest is None
            && post.mention is None && post.panes == pre.panes && (
        step matches InputStepView::Done(effects) && effects.len() == 1 && (
        effects[0] matches EffectView::Write { pane, bytes } && pane == pre.focus())),
        key_copied(pre, key, ok, post, step) && keys::cuts(key) && ok && can_cut(pre) ==> post == pre
            && step == cut_step(pre),
{
}

/// While a command runs in a pane, or older output is shown, its input line is left alone: no click
/// moves its cursor, and no selection is cut out of it.
pub proof fn running_programs_keep_their_lines(pre: App, pid: PaneId, click: GridPoint)
    requires
        app::has_pane(pre.panes@, pid),
        pre.pane(pid).pending is Some || pre.pane(pid).report.scrollback != 0,
    ensures
        cursor_target(pre, pid, click) is None,
        pid == pre.focus() ==> selection_cut(pre) is None && !can_cut(pre),
{
}

/// With Shift held the mouse selects, also where a program takes the mouse, and the program is not
/// told of it; without Shift such a program is told, and nothing is selected.
pub proof fn shift_selects(pre: App, pid: PaneId, me: MouseEvent, inner: Rect)
    requires
        layout::area_of(pre.inner_areas@, pid) == Some(inner),
        inner.wf(),
        inner.has(me.column as int, me.row as int),
    ensures
        me.modifiers.shift ==> mouse_sent(pre, pid, me).len() == 0 && selection_start(pre, pid, me)
            is Some,
        !me.modifiers.shift && tracks_mouse(pre, pid) ==> mouse_sent(pre, pid, me).len() == 1
            && selection_start(pre, pid, me) is None,
        !tracks_mouse(pre, pid) ==> mouse_sent(pre, pid, me).len() == 0 && selection_start(
            pre,
            pid,
            me,
        ) is Some,
{
}

/// A text that is pasted goes into the popup that takes texts, behind what is there, or else to the
/// shell, which shows its newest output again.
pub proof fn pastes_go_where_typing_goes(pre: App, text: Seq<char>, post: App)
    requires
        paste_handled(pre, text, post),
    ensures
        pre.palette is Some ==> (post.palette matches Some(p) && p.query@ == (
        pre.palette->0).query@ + text),
        pre.palette is None && pre.rename is Some ==> (post.rename matches Some(r) && r.buffer@ == (
        pre.rename->0).buffer@ + text) && paste_effects(pre, text, post).len() == 0,
        pre.palette is None && pre.rename is None && pre.confirm is None && pre.menu is None
            && app::has_pane(pre.panes@, pre.focus()) ==> post == pre && paste_effects(
            pre,
            text,
            post,
        ).len() == 2 && (paste_effects(pre, text, post)[1] matches EffectView::Write { pane, bytes }
            && pane == pre.focus() && (!pre.pane(pre.focus()).report.bracketed_paste
            ==> utf8::decode_utf8(bytes) == text)),
{
    pastes_hold_the_text(text);
}

} // verus!
