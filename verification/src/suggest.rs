//! The popup with commands that go with what is typed.

use crate::app;
use crate::app::{App, Effect, EffectView, Pane, Suggest};
use crate::geometry;
use crate::geometry::{list_popup_rect, Rect};
use crate::layout;
use crate::layout::PaneId;
use crate::mention;
use crate::mention::Mention;
use crate::session::active_focus;
use crate::shell;
use crate::shell::ShellIntegration;
use crate::text;
use vstd::prelude::*;
use vstd::utf8;

verus! {

/// The lines of the popup that are shown.
pub fn suggest_visible(n: usize, max_visible: usize) -> (r: usize)
    ensures
        r == geometry::min_of(n as int, max_visible as int),
{
    if n <= max_visible {
        n
    } else {
        max_visible
    }
}

/// Scrolls so that the selected line is shown.
pub fn suggest_scroll_to_selected(sug: &mut Suggest, max_visible: usize)
    requires
        old(sug).selected < old(sug).matches@.len(),
        old(sug).offset <= old(sug).matches@.len(),
    ensures
        *final(sug) == (Suggest {
            offset: mention::scrolled(
                old(sug).selected as int,
                old(sug).offset as int,
                geometry::min_of(old(sug).matches@.len() as int, max_visible as int),
            ) as usize,
            ..*old(sug)
        }),
{
    let visible: usize = suggest_visible(sug.matches.len(), max_visible);
    if sug.selected < sug.offset {
        sug.offset = sug.selected;
    } else if sug.selected - sug.offset >= visible {
        sug.offset = sug.selected - visible + 1;
    }
}

/// The input line for which suggestions are looked up: that of the pane with the focus, where the
/// cursor is at its end, it is not blank, and the popup was not closed for it.
pub open spec fn suggests_for(app: App) -> Option<(Seq<char>, Seq<char>)> {
    if app::has_pane(app.panes@, app.focus()) {
        let pane = app.pane(app.focus());
        let buffer = pane.input.buffer@;
        if text::blank(buffer) || pane.input.cursor != buffer.len() || (
        app.suggest_dismissed_for is Some && (app.suggest_dismissed_for->0)@ == buffer) {
            None
        } else {
            Some((buffer, pane.cwd@))
        }
    } else {
        None
    }
}

/// The state after the popup was looked at again: it closes where nothing is looked up, and else
/// stays until something was found.
pub open spec fn after_rebuild(pre: App) -> App {
    if suggests_for(pre) is Some {
        pre
    } else {
        App { suggest: None, ..pre }
    }
}

/// What looking at the popup again asks for.
pub open spec fn rebuild_effects(pre: App) -> Seq<EffectView> {
    match suggests_for(pre) {
        Some((query, cwd)) => seq![
            EffectView::Suggest { query, cwd, limit: pre.cfg.suggest_fetch as int },
        ],
        None => app::no_effects(),
    }
}

/// Looks at the popup again after the input line has changed.
pub fn rebuild_suggest(app: &mut App) -> (r: Vec<Effect>)
    requires
        old(app).wf(),
        old(app).active_tab < old(app).tabs@.len(),
    ensures
        *final(app) == after_rebuild(*old(app)),
        app::effects_view(r@) == rebuild_effects(*old(app)),
        final(app).wf(),
{
    let i: usize = match app::find_pane(&app.panes, active_focus(app)) {
        Some(i) => i,
        None => {
            app.suggest = None;
            return app::nothing();
        },
    };
    let buffer = app.panes[i].input.buffer.clone();
    let chars = text::chars_of(buffer.as_str());
    if text::is_blank(buffer.as_str()) || app.panes[i].input.cursor != chars.len() {
        app.suggest = None;
        return app::nothing();
    }
    let dismissed = match &app.suggest_dismissed_for {
        Some(line) => *line == buffer,
        None => false,
    };
    if dismissed {
        app.suggest = None;
        return app::nothing();
    }
    let cwd = app.panes[i].cwd.clone();
    app::just(Effect::Suggest { query: buffer, cwd, limit: app.cfg.suggest_fetch })
}

/// Shows what was found; nothing where nothing was.
pub fn suggest_results(app: &mut App, matches: Vec<String>)
    requires
        old(app).wf(),
    ensures
        *final(app) == (App {
            suggest: if matches@.len() == 0 {
                None
            } else {
                Some(Suggest { matches, selected: 0, offset: 0 })
            },
            ..*old(app)
        }),
        final(app).wf(),
{
    if matches.len() == 0 {
        app.suggest = None;
    } else {
        app.suggest = Some(Suggest { matches, selected: 0, offset: 0 });
    }
}

/// The keys that replace the input line: to its start, delete to its end, the new line.
pub open spec fn retyped(line: Seq<char>) -> Seq<u8> {
    seq![0x01u8, 0x0bu8] + utf8::encode_utf8(line)
}

/// The keys that replace the input line.
pub fn retype_keys(line: &str) -> (r: Vec<u8>)
    ensures
        r@ == retyped(line@),
{
    let mut bytes: Vec<u8> = Vec::new();
    bytes.push(0x01);
    bytes.push(0x0b);
    let mut encoded = text::bytes_of(line);
    bytes.append(&mut encoded);
    assert(bytes@ =~= retyped(line@));
    bytes
}

/// The command that is taken from the popup.
pub open spec fn accepted(pre: App) -> String {
    (pre.suggest->0).matches@[(pre.suggest->0).selected as int]
}

/// What taking a command asks for: the input line becomes the command, in one step where the shell
/// can do that.
pub open spec fn accept_effects(pre: App) -> Seq<EffectView> {
    let line = accepted(pre)@;
    if !app::has_pane(pre.panes@, pre.focus()) {
        app::no_effects()
    } else if ShellIntegration::can_edit(line, line.len() as int) {
        seq![
            EffectView::Edit {
                pane: pre.focus(),
                file: pre.integ.edit_path(pre.focus().0 as int),
                contents: shell::edit_contents(line, line.len() as int),
                keys: shell::edit_keys(),
                fallback: retyped(line),
            },
        ]
    } else {
        seq![EffectView::Write { pane: pre.focus(), bytes: retyped(line) }]
    }
}

/// Takes the selected command. The popup closes, and does not open again for this command.
pub fn suggest_accept(app: &mut App) -> (r: Vec<Effect>)
    requires
        old(app).wf(),
        old(app).active_tab < old(app).tabs@.len(),
    ensures
        *final(app) == (if old(app).suggest is Some {
            App {
                suggest: None,
                suggest_dismissed_for: Some(accepted(*old(app))),
                ..*old(app)
            }
        } else {
            *old(app)
        }),
        app::effects_view(r@) == (if old(app).suggest is Some {
            accept_effects(*old(app))
        } else {
            app::no_effects()
        }),
        final(app).wf(),
{
    let focus = active_focus(app);
    let sug = match app.suggest.take() {
        Some(sug) => sug,
        None => return app::nothing(),
    };
    let full = sug.matches[sug.selected].clone();
    let chars = text::chars_of(full.as_str());
    let fallback = retype_keys(full.as_str());
    let edit = app.integ.prepare_zle_edit(focus.0, full.as_str(), chars.len());
    app.suggest_dismissed_for = Some(full);
    if app::find_pane(&app.panes, focus).is_none() {
        return app::nothing();
    }
    match edit {
        Some(edit) => app::just(Effect::Edit { pane: focus, edit, fallback }),
        None => app::just(Effect::Write { pane: focus, bytes: fallback }),
    }
}

/// After a command was taken, the popup does not open again while the input line is that command.
pub proof fn accepted_is_not_offered_again(pre: App, post: App)
    requires
        pre.wf(),
        pre.suggest is Some,
        post.suggest_dismissed_for == Some(accepted(pre)),
        app::has_pane(post.panes@, post.focus()),
        post.pane(post.focus()).input.buffer@ == accepted(pre)@,
    ensures
        after_rebuild(post).suggest is None,
        rebuild_effects(post).len() == 0,
{
}

/// The length of the longest of the first `n` texts.
pub open spec fn longest(texts: Seq<String>, n: int) -> int
    decreases n,
{
    if n <= 0 {
        0
    } else {
        geometry::max_of(longest(texts, n - 1), texts[n - 1]@.len() as int)
    }
}

/// The length of the longest text.
pub fn longest_of(texts: &Vec<String>) -> (r: usize)
    ensures
        r == longest(texts@, texts@.len() as int),
{
    let mut most: usize = 0;
    let mut i: usize = 0;
    while i < texts.len()
        invariant
            i <= texts@.len(),
            most == longest(texts@, i as int),
        decreases texts@.len() - i,
    {
        let chars = text::chars_of(texts[i].as_str());
        if chars.len() > most {
            most = chars.len();
        }
        i = i + 1;
    }
    most
}

/// The cell of the screen in which the cursor of a pane is.
pub open spec fn cursor_cell(inner: Rect, pane: Pane) -> (int, int) {
    let cursor = pane.report.screen.cursor;
    (
        geometry::min_of(inner.x + cursor.1, geometry::MAX_COORD as int),
        geometry::min_of(inner.y + cursor.0, geometry::MAX_COORD as int),
    )
}

/// The place of a popup with these lines, at the cursor of a pane.
pub open spec fn popup_at_cursor(app: App, id: PaneId, matches: Seq<String>) -> Option<Rect> {
    match layout::area_of(app.inner_areas@, id) {
        Some(inner) => if app::has_pane(app.panes@, id) {
            let (x, y) = cursor_cell(inner, app.pane(id));
            Some(
                geometry::list_popup_area(
                    app.screen,
                    x,
                    y,
                    longest(matches, matches.len() as int),
                    geometry::min_of(matches.len() as int, app.cfg.suggest_max_visible as int),
                ),
            )
        } else {
            None
        },
        None => None,
    }
}

fn popup_rect_at_cursor(app: &App, focus: PaneId, matches: &Vec<String>) -> (r: Option<Rect>)
    requires
        app.wf(),
    ensures
        r == popup_at_cursor(*app, focus, matches@),
        r matches Some(rect) ==> rect.wf(),
{
    let inner = match layout::find_area(&app.inner_areas, focus) {
        Some(inner) => inner,
        None => return None,
    };
    let i: usize = match app::find_pane(&app.panes, focus) {
        Some(i) => i,
        None => return None,
    };
    let (row, col) = app.panes[i].report.screen.cursor_position();
    let x: u16 = inner.x.saturating_add(col);
    let y: u16 = inner.y.saturating_add(row);
    let visible: usize = suggest_visible(matches.len(), app.cfg.suggest_max_visible);
    Some(list_popup_rect(app.screen, x, y, longest_of(matches), visible))
}

/// The place of the popup with suggestions.
pub fn compute_suggest_rect(app: &App, focus: PaneId) -> (r: Option<Rect>)
    requires
        app.wf(),
    ensures
        r == suggest_place(*app, focus),
        r matches Some(rect) ==> rect.wf(),
{
    match &app.suggest {
        Some(sug) => popup_rect_at_cursor(app, focus, &sug.matches),
        None => None,
    }
}

pub open spec fn suggest_place(app: App, focus: PaneId) -> Option<Rect> {
    match app.suggest {
        Some(sug) => popup_at_cursor(app, focus, sug.matches@),
        None => None,
    }
}

/// The place of the popup with files.
pub fn compute_mention_rect(app: &App, focus: PaneId) -> (r: Option<Rect>)
    requires
        app.wf(),
    ensures
        r == mention_place(*app, focus),
        r matches Some(rect) ==> rect.wf(),
{
    match &app.mention {
        Some(mention) => popup_rect_at_cursor(app, focus, &mention.matches),
        None => None,
    }
}

pub open spec fn mention_place(app: App, focus: PaneId) -> Option<Rect> {
    match app.mention {
        Some(mention) => popup_at_cursor(app, focus, mention.matches@),
        None => None,
    }
}

// Mentions.

/// The files that are looked for: those of the mention at the cursor, if there is one, below the
/// directory of the pane with the focus.
pub open spec fn mentions_in(app: App) -> Option<(int, int, Seq<char>)> {
    if app::has_pane(app.panes@, app.focus()) {
        let input = app.pane(app.focus()).input;
        mention::token_at(input.buffer@, input.cursor as int)
    } else {
        None
    }
}

/// Whether files are looked for: the directory has to be known.
pub open spec fn scans(app: App) -> bool {
    mentions_in(app) is Some && app.pane(app.focus()).cwd@.len() > 0
}

/// The state after the mention at the cursor was looked at again: the popup closes, until files
/// were found.
pub open spec fn after_mention(pre: App) -> App {
    App {
        mention: None,
        mention_generation: if scans(pre) {
            ((pre.mention_generation + 1) % 0x1_0000_0000_0000_0000) as u64
        } else {
            pre.mention_generation
        },
        ..pre
    }
}

/// What that asks for.
pub open spec fn mention_effects(pre: App) -> Seq<EffectView> {
    if scans(pre) {
        let (start, end, query) = mentions_in(pre)->0;
        seq![
            EffectView::Scan {
                pane: pre.focus(),
                generation: after_mention(pre).mention_generation as int,
                token_start: start,
                token_end: end,
                query,
                cwd: pre.pane(pre.focus()).cwd@,
            },
        ]
    } else {
        app::no_effects()
    }
}

/// Looks at the mention at the cursor again after the input line has changed. Tells whether there
/// is one.
pub fn rebuild_mention(app: &mut App) -> (r: (bool, Vec<Effect>))
    requires
        old(app).wf(),
        old(app).active_tab < old(app).tabs@.len(),
    ensures
        *final(app) == after_mention(*old(app)),
        r.0 == mentions_in(*old(app)) is Some,
        app::effects_view(r.1@) == mention_effects(*old(app)),
        final(app).wf(),
{
    let focus = active_focus(app);
    app.mention = None;
    let i: usize = match app::find_pane(&app.panes, focus) {
        Some(i) => i,
        None => return (false, app::nothing()),
    };
    let token = match mention::mention_token(
        app.panes[i].input.buffer.as_str(),
        app.panes[i].input.cursor,
    ) {
        Some(token) => token,
        None => return (false, app::nothing()),
    };
    if app.panes[i].cwd.as_str().is_empty() {
        return (true, app::nothing());
    }
    let cwd = app.panes[i].cwd.clone();
    app.mention_generation = app.mention_generation.wrapping_add(1);
    let scan = Effect::Scan {
        pane: focus,
        generation: app.mention_generation,
        token_start: token.start,
        token_end: token.end,
        query: token.query,
        cwd,
    };
    (true, app::just(scan))
}

/// Files that were found for a mention.
pub struct MentionResult {
    pub pane: PaneId,
    pub generation: u64,
    pub token_start: usize,
    pub token_end: usize,
    pub matches: Vec<String>,
}

/// The state with the files that were found shown, unless the input line or the focus has changed
/// since, or there are none.
pub open spec fn mention_shown(pre: App, result: MentionResult) -> App {
    if result.pane == pre.focus() && result.generation == pre.mention_generation
        && result.matches@.len() > 0 {
        App {
            mention: Some(
                Mention {
                    token_start: result.token_start,
                    token_end: result.token_end,
                    matches: result.matches,
                    selected: 0,
                    offset: 0,
                },
            ),
            suggest: None,
            ..pre
        }
    } else {
        pre
    }
}

/// Shows the files that were found.
pub fn mention_ready(app: &mut App, result: MentionResult)
    requires
        old(app).wf(),
        old(app).active_tab < old(app).tabs@.len(),
    ensures
        *final(app) == mention_shown(*old(app), result),
        final(app).wf(),
{
    if result.pane == active_focus(app) && result.generation == app.mention_generation
        && result.matches.len() > 0 {
        app.mention = Some(
            Mention {
                token_start: result.token_start,
                token_end: result.token_end,
                matches: result.matches,
                selected: 0,
                offset: 0,
            },
        );
        app.suggest = None;
    }
}

/// What taking a file asks for: the mention in the input line becomes its path.
pub open spec fn mention_accept_effects(pre: App) -> Seq<EffectView> {
    if pre.mention is Some && app::has_pane(pre.panes@, pre.focus()) {
        let mention = pre.mention->0;
        match mention::replacing_keys(
            pre.pane(pre.focus()).input.buffer@,
            mention.token_start as int,
            mention.token_end as int,
            mention.matches@[mention.selected as int]@,
        ) {
            Some(bytes) => seq![EffectView::Write { pane: pre.focus(), bytes }],
            None => app::no_effects(),
        }
    } else {
        app::no_effects()
    }
}

/// Takes the selected file.
pub fn mention_accept(app: &mut App) -> (r: Vec<Effect>)
    requires
        old(app).wf(),
        old(app).active_tab < old(app).tabs@.len(),
    ensures
        *final(app) == (App { mention: None, ..*old(app) }),
        app::effects_view(r@) == mention_accept_effects(*old(app)),
        final(app).wf(),
{
    let focus = active_focus(app);
    let mention = match app.mention.take() {
        Some(mention) => mention,
        None => return app::nothing(),
    };
    let i: usize = match app::find_pane(&app.panes, focus) {
        Some(i) => i,
        None => return app::nothing(),
    };
    match mention::replace_keys(
        app.panes[i].input.buffer.as_str(),
        mention.token_start,
        mention.token_end,
        mention.matches[mention.selected].as_str(),
    ) {
        Some(bytes) => app::just(Effect::Write { pane: focus, bytes }),
        None => app::nothing(),
    }
}

/// The keys that replace the input line hold the new one, behind those that empty the line.
pub proof fn retyping_types_the_line(line: Seq<char>)
    ensures
        retyped(line).len() >= 2,
        utf8::decode_utf8(retyped(line).skip(2)) == line,
{
    utf8::encode_utf8_decode_utf8(line);
    assert(retyped(line).skip(2) =~= utf8::encode_utf8(line));
}

/// No text is longer than the longest one, and one is as long.
pub proof fn longest_is_the_longest(texts: Seq<String>, n: int, i: int)
    requires
        0 <= i < n <= texts.len(),
    ensures
        texts[i]@.len() <= longest(texts, n),
        exists|k: int| 0 <= k < n && (#[trigger] texts[k])@.len() == longest(texts, n),
    decreases n,
{
    let last = texts[n - 1];
    if n > 1 {
        longest_is_the_longest(
            texts,
            n - 1,
            if i < n - 1 {
                i
            } else {
                0
            },
        );
        if longest(texts, n) != last@.len() {
            let k = choose|k: int|
                0 <= k < n - 1 && (#[trigger] texts[k])@.len() == longest(texts, n - 1);
            assert(texts[k]@.len() == longest(texts, n));
        }
    } else {
        assert(longest(texts, 0) == 0);
    }
    assert(longest(texts, n) == last@.len() ==> 0 <= n - 1 < n && texts[n - 1]@.len() == longest(
        texts,
        n,
    ));
}

/// The command that is taken goes to the pane with the focus, whole: the shell gets it as its new
/// input line, or it is typed.
pub proof fn accepting_gives_the_command(pre: App)
    requires
        pre.suggest is Some,
        (pre.suggest->0).selected < (pre.suggest->0).matches@.len(),
        app::has_pane(pre.panes@, pre.focus()),
    ensures
        ({
            let line = (pre.suggest->0).matches@[(pre.suggest->0).selected as int]@;
            let effects = accept_effects(pre);
            &&& effects.len() == 1
            &&& match effects[0] {
                EffectView::Edit { pane, file, contents, keys, fallback } => {
                    &&& pane == pre.focus()
                    &&& contents.len() > line.len()
                    &&& contents.skip(contents.len() - line.len()) == line
                    &&& fallback.len() >= 2
                    &&& utf8::decode_utf8(fallback.skip(2)) == line
                },
                EffectView::Write { pane, bytes } => pane == pre.focus() && bytes.len() >= 2
                    && utf8::decode_utf8(bytes.skip(2)) == line,
                _ => false,
            }
        }),
{
    let line = accepted(pre)@;
    retyping_types_the_line(line);
    let contents = shell::edit_contents(line, line.len() as int);
    assert(contents.skip(contents.len() - line.len()) =~= line);
}

/// Commands are looked up for the line in the pane with the focus, below its directory, exactly
/// where something was typed, the cursor is at its end, and it was not dismissed.
pub proof fn commands_are_looked_up_for_the_line(pre: App)
    requires
        app::has_pane(pre.panes@, pre.focus()),
    ensures
        ({
            let pane = pre.pane(pre.focus());
            let line = pane.input.buffer@;
            let asked = rebuild_effects(pre);
            let wanted = !text::blank(line) && pane.input.cursor == line.len() && !(
            pre.suggest_dismissed_for is Some && (pre.suggest_dismissed_for->0)@ == line);
            &&& wanted ==> asked.len() == 1 && asked[0] == (EffectView::Suggest {
                query: line,
                cwd: pane.cwd@,
                limit: pre.cfg.suggest_fetch as int,
            })
            &&& !wanted ==> asked.len() == 0 && after_rebuild(pre).suggest is None
        }),
{
}

/// Files that were found are shown only for the line that they were looked for, and then all of
/// them, the first one selected.
pub proof fn only_current_files_are_shown(pre: App, result: MentionResult)
    ensures
        result.generation != pre.mention_generation || result.pane != pre.focus() ==> mention_shown(
            pre,
            result,
        ) == pre,
        result.generation == pre.mention_generation && result.pane == pre.focus()
            && result.matches@.len() > 0 ==> (mention_shown(pre, result).mention matches Some(m)
            && m.matches@ == result.matches@ && m.selected == 0 && m.token_start
            == result.token_start && m.token_end == result.token_end),
        after_mention(pre).mention is None,
        scans(pre) ==> after_mention(pre).mention_generation != pre.mention_generation,
{
}

/// A popup at the input line stands right below the cursor where there is room, or right above it, and
/// has a row for each line that it may show.
pub proof fn popups_stand_at_the_cursor(app: App, id: PaneId, matches: Seq<String>, inner: Rect)
    requires
        app.screen.wf(),
        layout::area_of(app.inner_areas@, id) == Some(inner),
        app::has_pane(app.panes@, id),
        matches.len() <= usize::MAX,
        ({
            let cursor = app.pane(id).report.screen.cursor;
            let (x, y) = (inner.x + cursor.1, inner.y + cursor.0);
            let rows = geometry::min_of(matches.len() as int, app.cfg.suggest_max_visible as int);
            &&& app.screen.has(x, y)
            &&& 8 <= longest(matches, matches.len() as int) + 4 <= app.screen.width
            &&& rows + 2 <= app.screen.height
        }),
    ensures
        popup_at_cursor(app, id, matches) matches Some(r) && ({
            let cursor = app.pane(id).report.screen.cursor;
            let (x, y) = (inner.x + cursor.1, inner.y + cursor.0);
            let shown = r.height - 2;
            &&& shown <= matches.len()
            &&& shown <= app.cfg.suggest_max_visible
            &&& shown == matches.len() || shown == app.cfg.suggest_max_visible
            &&& y + 1 + r.height <= app.screen.y + app.screen.height ==> r.y == y + 1
            &&& y + 1 + r.height > app.screen.y + app.screen.height && r.height <= y ==> r.y
                + r.height == y
            &&& x + r.width <= app.screen.x + app.screen.width ==> r.x == x
        }),
{
    let cursor = app.pane(id).report.screen.cursor;
    let (x, y) = (inner.x + cursor.1, inner.y + cursor.0);
    geometry::list_popups_have_room(
        app.screen,
        x as u16,
        y as u16,
        longest(matches, matches.len() as int),
        geometry::min_of(matches.len() as int, app.cfg.suggest_max_visible as int),
    );
}

} // verus!
