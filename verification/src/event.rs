//! What comes in: output of the shells, the markers in it, panes that end, the focus of the window,
//! keys and the mouse; and when to draw.

use crate::app;
use crate::app::{App, Effect, EffectView, Pane, PaneReport, PendingCmd};
use crate::grid::focus_report;
use crate::history::recorded_command;
use crate::input;
use crate::input::{handle_key, handle_mouse, handle_paste, InputStepView, Stage, Step};
use crate::input_line;
use crate::input_line::InputState;
use crate::keys::{KeyEvent, MouseEvent};
use crate::layout::PaneId;
use crate::osc;
use crate::osc::{OscEvent, OscEventView};
use crate::session;
use crate::session::{active_focus, do_close};
use crate::suggest;
use crate::suggest::{mention_ready, rebuild_mention, rebuild_suggest, MentionResult};
use crate::term::{ClipboardWriteRequest, TerminalEffects};
use crate::text;
use vstd::prelude::*;
use vstd::utf8;

verus! {

// The directory that a terminal reports.

/// The byte that two hexadecimal digits behind a percent sign stand for.
pub open spec fn escaped_byte(high: u8, low: u8) -> Option<int> {
    text::parsed_unsigned(seq![high as char, low as char], 16, 255)
}

/// Whether a byte in hexadecimal digits stands at the start, behind a percent sign.
pub open spec fn has_escape(bytes: Seq<u8>) -> bool {
    &&& bytes.len() >= 3
    &&& bytes[0] == 0x25
    &&& escaped_byte(bytes[1], bytes[2]) is Some
}

/// The bytes with the escaped ones put in. A percent sign that begins no escape is left.
pub open spec fn unescaped(bytes: Seq<u8>) -> Seq<u8>
    decreases bytes.len(),
{
    if bytes.len() == 0 {
        Seq::empty()
    } else if has_escape(bytes) {
        seq![escaped_byte(bytes[1], bytes[2])->0 as u8] + unescaped(bytes.skip(3))
    } else {
        seq![bytes[0]] + unescaped(bytes.skip(1))
    }
}

/// The path in what a terminal reports: behind the host where it is a `file` URI, and else all of
/// it.
pub open spec fn path_part(value: Seq<char>) -> Seq<char> {
    if "file://"@.is_prefix_of(value) {
        let rest = value.skip(7);
        rest.skip(text::index_of(rest, '/'))
    } else {
        value
    }
}

/// The directory that a terminal reports: an absolute path, with its escapes put in, that is text.
pub open spec fn reported_cwd(value: Seq<char>) -> Option<Seq<char>> {
    let path = path_part(value);
    let bytes = unescaped(utf8::encode_utf8(path));
    if path.len() > 0 && path[0] == '/' && utf8::valid_utf8(bytes) {
        Some(utf8::decode_utf8(bytes))
    } else {
        None
    }
}

/// The directory that a terminal reports.
pub fn normalize_reported_cwd(value: &str) -> (r: Option<String>)
    ensures
        match r {
            Some(s) => reported_cwd(value@) == Some(s@),
            None => reported_cwd(value@) is None,
        },
{
    let chars = text::chars_of(value);
    let path = if text::starts_with(&chars, "file://") {
        proof {
            reveal_strlit("file://");
        }
        let slash: usize = text::find_char(&chars, '/', 7);
        let path = text::part(&chars, slash, chars.len());
        assert(path@ =~= path_part(value@));
        path
    } else {
        chars
    };
    if path.len() == 0 || path[0] != '/' {
        return None;
    }
    let path = text::string_of(&path);
    text::utf8_text(unescape(&text::bytes_of(path.as_str())))
}

/// The bytes with the escaped ones put in.
pub fn unescape(bytes: &[u8]) -> (r: Vec<u8>)
    ensures
        r@ == unescaped(bytes@),
{
    let mut out: Vec<u8> = Vec::new();
    let mut i: usize = 0;
    let n: usize = bytes.len();
    assert(bytes@.skip(0) =~= bytes@);
    while i < n
        invariant
            i <= n,
            n == bytes@.len(),
            unescaped(bytes@) == out@ + unescaped(bytes@.skip(i as int)),
        decreases n - i,
    {
        let ghost rest = bytes@.skip(i as int);
        assert(rest[0] == bytes@[i as int]);
        if bytes[i] == 0x25 && n - i >= 3 {
            assert(rest[1] == bytes@[i + 1] && rest[2] == bytes@[i + 2]);
            let digits = [bytes[i + 1] as char, bytes[i + 2] as char];
            assert(digits@ =~= seq![rest[1] as char, rest[2] as char]);
            if let Some(value) = text::parse_unsigned(&digits, 16, 255) {
                assert(rest.skip(3) =~= bytes@.skip(i + 3));
                let ghost before = out@;
                out.push(value as u8);
                i = i + 3;
                assert(out@ + unescaped(rest.skip(3)) =~= before + unescaped(rest));
                continue;
            }
        }
        assert(rest.skip(1) =~= bytes@.skip(i + 1));
        let ghost before = out@;
        out.push(bytes[i]);
        i = i + 1;
        assert(out@ + unescaped(rest.skip(1)) =~= before + unescaped(rest));
    }
    assert(bytes@.skip(n as int) =~= Seq::<u8>::empty());
    assert(out@ + unescaped(bytes@.skip(n as int)) =~= out@);
    out
}

/// Bytes without a percent sign are left as they are.
pub proof fn plain_bytes_are_kept(bytes: Seq<u8>)
    requires
        !bytes.contains(0x25),
    ensures
        unescaped(bytes) == bytes,
    decreases bytes.len(),
{
    if bytes.len() > 0 {
        assert(bytes.contains(bytes[0]));
        let rest = bytes.skip(1);
        assert forall|x: u8| #[trigger] rest.contains(x) implies bytes.contains(x) by {
            let i = choose|i: int| 0 <= i < rest.len() && rest[i] == x;
            assert(bytes[i + 1] == x);
        }
        plain_bytes_are_kept(rest);
        assert(unescaped(bytes) =~= bytes);
    }
}

// A pane that changes.

/// The state with one pane changed.
pub open spec fn pane_changed(pre: App, pid: PaneId, pane: Pane, post: App) -> bool {
    &&& post.panes@ == pre.panes@.update(app::pane_index(pre.panes@, pid), pane)
    &&& post == (App { panes: post.panes, ..pre })
}

/// A pane that keeps its number stays where it is, and the state stays sound.
proof fn changed_pane_stays(pre: App, pid: PaneId, pane: Pane, post: App)
    requires
        app::has_pane(pre.panes@, pid),
        pane.id == pid,
        app::pane_wf(pane),
        pane_changed(pre, pid, pane, post),
    ensures
        pre.session_wf() ==> post.session_wf(),
        pre.wf() ==> post.wf(),
        pre.focus_wf() ==> post.focus_wf(),
        forall|id: PaneId| #[trigger]
            app::pane_index(post.panes@, id) == app::pane_index(pre.panes@, id),
        post.pane(pid) == pane,
{
    app::pane_index_is_first(pre.panes@, pid);
    assert forall|id: PaneId| #[trigger]
        app::pane_index(post.panes@, id) == app::pane_index(pre.panes@, id) by {
        app::pane_index_is_first(pre.panes@, id);
        app::first_is_pane_index(post.panes@, id, app::pane_index(pre.panes@, id));
    }
    if pre.session_wf() {
        assert forall|i: int| 0 <= i < post.panes@.len() implies app::in_tabs(
            post.tabs@,
            (#[trigger] post.panes@[i]).id,
        ) && post.panes@[i].id.0 < post.next_pane by {
            assert(app::in_tabs(pre.tabs@, pre.panes@[i].id));
        }
        assert forall|i: int, j: int| 0 <= i < j < post.panes@.len() implies (
        #[trigger] post.panes@[i]).id != (#[trigger] post.panes@[j]).id by {
            assert(pre.panes@[i].id != pre.panes@[j].id);
        }
    }
    if pre.wf() {
        assert forall|i: int| 0 <= i < post.panes@.len() implies app::pane_wf(
            #[trigger] post.panes@[i],
        ) by {
            assert(app::pane_wf(pre.panes@[i]));
        }
    }
}

/// Takes over what the emulator of a pane tells of itself.
pub fn refresh_pane(app: &mut App, pid: PaneId, report: PaneReport)
    requires
        old(app).wf(),
        report.screen.wf(),
    ensures
        if app::has_pane(old(app).panes@, pid) {
            pane_changed(*old(app), pid, Pane { report, ..old(app).pane(pid) }, *final(app))
        } else {
            *final(app) == *old(app)
        },
        final(app).wf(),
        old(app).focus_wf() ==> final(app).focus_wf(),
{
    if let Some(i) = app::find_pane(&app.panes, pid) {
        assert(app::pane_wf(app.panes@[i as int]));
        app.panes[i].report = report;
        proof {
            changed_pane_stays(*old(app), pid, Pane { report, ..old(app).pane(pid) }, *app);
        }
    }
}

// The output of a shell.

/// A pane after output that went through its emulator.
pub open spec fn output_seen(
    pre: Pane,
    effects: TerminalEffects,
    bytes: Seq<u8>,
    post: Pane,
) -> bool {
    let (mode, payload, found) = osc::scanned(pre.osc.mode(), pre.osc.payload(), bytes);
    &&& post.osc.mode() == mode
    &&& post.osc.payload() == payload
    &&& post.cwd@ == (match effects.cwd {
        Some(value) => match reported_cwd(value@) {
            Some(cwd) => cwd,
            None => pre.cwd@,
        },
        None => pre.cwd@,
    })
    &&& post.title@ == (match effects.title {
        Some(title) => title@,
        None => pre.title@,
    })
    &&& post == (Pane { osc: post.osc, cwd: post.cwd, title: post.title, ..pre })
}

/// The state after such output.
pub open spec fn output_handled(
    pre: App,
    pid: PaneId,
    effects: TerminalEffects,
    bytes: Seq<u8>,
    post: App,
) -> bool {
    if app::has_pane(pre.panes@, pid) {
        &&& output_seen(pre.pane(pid), effects, bytes, post.pane(pid))
        &&& pane_changed(pre, pid, post.pane(pid), post)
    } else {
        post == pre
    }
}

/// The markers in such output.
pub open spec fn markers_in(pre: App, pid: PaneId, bytes: Seq<u8>) -> Seq<OscEventView> {
    if app::has_pane(pre.panes@, pid) {
        let osc = pre.pane(pid).osc;
        osc::events_of(osc::scanned(osc.mode(), osc.payload(), bytes).2)
    } else {
        Seq::empty()
    }
}

/// What is sent back to the shell of a pane.
pub open spec fn response_effects(pid: PaneId, responses: Seq<Vec<u8>>) -> Seq<EffectView> {
    Seq::new(responses.len(), |i: int| EffectView::Write { pane: pid, bytes: responses[i]@ })
}

/// What goes into the clipboards.
pub open spec fn copy_effects(writes: Seq<ClipboardWriteRequest>) -> Seq<EffectView> {
    Seq::new(
        writes.len(),
        |i: int| EffectView::Copy { target: writes[i].target, data: writes[i].data@ },
    )
}

/// How the bell rings.
pub open spec fn bell_effects(count: int) -> Seq<EffectView> {
    if count > 0 {
        seq![EffectView::Bell { count }]
    } else {
        app::no_effects()
    }
}

/// What the output of a shell asks for: its answers, the bell, and the clipboards.
pub open spec fn output_effects(pre: App, pid: PaneId, effects: TerminalEffects) -> Seq<EffectView> {
    if app::has_pane(pre.panes@, pid) {
        response_effects(pid, effects.pty_responses@) + bell_effects(effects.bell_count as int)
            + copy_effects(effects.clipboard_writes@)
    } else {
        app::no_effects()
    }
}

fn responses(pid: PaneId, list: Vec<Vec<u8>>) -> (r: Vec<Effect>)
    ensures
        app::effects_view(r@) == response_effects(pid, list@),
{
    let mut list = list;
    let ghost all = list@;
    let mut out: Vec<Effect> = Vec::new();
    assert(app::effects_view(out@) =~= response_effects(pid, all.take(0)));
    assert(all.take(0) + list@ =~= all);
    let ghost mut done: int = 0;
    while list.len() > 0
        invariant
            0 <= done <= all.len(),
            list@ == all.skip(done),
            app::effects_view(out@) == response_effects(pid, all.take(done)),
        decreases list@.len(),
    {
        let bytes = list.remove(0);
        assert(bytes == all[done]);
        let ghost before = out@;
        out.push(Effect::Write { pane: pid, bytes });
        proof {
            assert(app::effects_view(out@) =~= app::effects_view(before).push(
                EffectView::Write { pane: pid, bytes: bytes@ },
            ));
            assert(response_effects(pid, all.take(done + 1)) =~= response_effects(
                pid,
                all.take(done),
            ).push(EffectView::Write { pane: pid, bytes: bytes@ }));
            done = done + 1;
            assert(list@ =~= all.skip(done));
        }
    }
    assert(all.take(done) =~= all);
    out
}

fn copies(list: Vec<ClipboardWriteRequest>) -> (r: Vec<Effect>)
    ensures
        app::effects_view(r@) == copy_effects(list@),
{
    let mut list = list;
    let ghost all = list@;
    let mut out: Vec<Effect> = Vec::new();
    assert(app::effects_view(out@) =~= copy_effects(all.take(0)));
    assert(all.take(0) + list@ =~= all);
    let ghost mut done: int = 0;
    while list.len() > 0
        invariant
            0 <= done <= all.len(),
            list@ == all.skip(done),
            app::effects_view(out@) == copy_effects(all.take(done)),
        decreases list@.len(),
    {
        let ClipboardWriteRequest { target, data } = list.remove(0);
        assert(target == all[done].target && data == all[done].data);
        let ghost before = out@;
        out.push(Effect::Copy { target, data });
        proof {
            assert(app::effects_view(out@) =~= app::effects_view(before).push(
                EffectView::Copy { target, data: data@ },
            ));
            assert(copy_effects(all.take(done + 1)) =~= copy_effects(all.take(done)).push(
                EffectView::Copy { target, data: data@ },
            ));
            done = done + 1;
            assert(list@ =~= all.skip(done));
        }
    }
    assert(all.take(done) =~= all);
    out
}

/// Output of the shell of a pane, after its emulator took it in. Gives what to do, and the markers
/// in the output, which are handled after that.
pub fn pty_data(app: &mut App, pid: PaneId, effects: TerminalEffects, bytes: &[u8]) -> (r: (
    Vec<Effect>,
    Vec<OscEvent>,
))
    requires
        old(app).wf(),
    ensures
        output_handled(*old(app), pid, effects, bytes@, *final(app)),
        app::effects_view(r.0@) == output_effects(*old(app), pid, effects),
        osc::events_view(r.1@) == markers_in(*old(app), pid, bytes@),
        final(app).wf(),
        old(app).focus_wf() ==> final(app).focus_wf(),
{
    let mut markers: Vec<OscEvent> = Vec::new();
    assert(osc::events_view(markers@) =~= Seq::empty());
    let i: usize = match app::find_pane(&app.panes, pid) {
        Some(i) => i,
        None => return (app::nothing(), markers),
    };
    assert(app::pane_wf(app.panes@[i as int]));
    if let Some(value) = &effects.cwd {
        if let Some(cwd) = normalize_reported_cwd(value.as_str()) {
            app.panes[i].cwd = cwd;
        }
    }
    if let Some(title) = &effects.title {
        app.panes[i].title = title.clone();
    }
    app.panes[i].osc.scan(bytes, &mut markers);
    assert(app.panes@ =~= old(app).panes@.update(i as int, app.panes@[i as int]));
    proof {
        let pane = app.panes@[i as int];
        changed_pane_stays(*old(app), pid, pane, *app);
        let found = osc::scanned(
            old(app).pane(pid).osc.mode(),
            old(app).pane(pid).osc.payload(),
            bytes@,
        ).2;
        assert(Seq::empty() + osc::events_of(found) =~= osc::events_of(found));
    }
    let TerminalEffects { pty_responses, bell_count, clipboard_writes, .. } = effects;
    let mut out = responses(pid, pty_responses);
    if bell_count > 0 {
        out.push(Effect::Bell { count: bell_count });
    }
    let mut copied = copies(clipboard_writes);
    let ghost first = out@;
    out.append(&mut copied);
    assert(app::effects_view(out@) =~= output_effects(*old(app), pid, effects));
    (out, markers)
}

/// A pane whose shell has ended is closed.
pub fn pty_closed(app: &mut App, pid: PaneId) -> (r: Vec<Effect>)
    requires
        old(app).wf(),
    ensures
        if app::has_pane(old(app).panes@, pid) {
            session::closed(*old(app), pid, *final(app))
        } else {
            *final(app) == *old(app)
        },
        app::effects_view(r@) == session::close_effects(old(app).panes@, pid),
        final(app).wf(),
        old(app).focus_wf() ==> final(app).focus_wf(),
{
    if app::find_pane(&app.panes, pid).is_some() {
        do_close(app, pid)
    } else {
        app::nothing()
    }
}

/// What a program is told when the window gets or loses the focus, where it asked for that.
pub open spec fn focus_effects(pre: App, focused: bool) -> Seq<EffectView> {
    if app::has_pane(pre.panes@, pre.focus()) && pre.pane(pre.focus()).report.focus_events {
        let bytes = text::ascii(
            if focused {
                "\x1b[I"@
            } else {
                "\x1b[O"@
            },
        );
        seq![EffectView::Write { pane: pre.focus(), bytes }]
    } else {
        app::no_effects()
    }
}

/// The window gets or loses the focus.
pub fn window_focus(app: &App, focused: bool) -> (r: Vec<Effect>)
    requires
        app.active_tab < app.tabs@.len(),
    ensures
        app::effects_view(r@) == focus_effects(*app, focused),
{
    let pid = active_focus(app);
    if let Some(i) = app::find_pane(&app.panes, pid) {
        if let Some(bytes) = focus_report(app.panes[i].report.focus_events, focused) {
            return app::just(Effect::Write { pane: pid, bytes });
        }
    }
    app::nothing()
}

// The markers of a shell.

/// The widths of the characters of an input line, as far as they can be: where they do not go with
/// the line, nothing is known of any of them.
pub open spec fn trusted_widths(buffer: Seq<char>, measured: Seq<(usize, u8)>) -> Seq<(usize, u8)> {
    if input_line::measures(buffer, measured) {
        measured
    } else {
        Seq::new(buffer.len(), |i: int| (0usize, 0u8))
    }
}

fn widths_fit(buffer: &[char], measured: &[(usize, u8)]) -> (r: bool)
    ensures
        r == input_line::measures(buffer@, measured@),
{
    let n: usize = buffer.len();
    if measured.len() != n {
        return false;
    }
    let mut end: usize = n;
    let mut i: usize = n;
    while i > 0
        invariant
            i <= end <= n,
            n == buffer@.len(),
            n == measured@.len(),
            end < n ==> buffer@[end as int] == '\n',
            forall|j: int| i <= j < end ==> #[trigger] buffer@[j] != '\n',
            forall|k: int| i <= k < n ==> #[trigger] width_fits(buffer@, measured@, k),
        decreases i,
    {
        i = i - 1;
        if buffer[i] == '\n' {
            end = i;
        } else if measured[i].0 > end - i {
            proof {
                let grapheme = measured@[i as int].0;
                let behind = buffer@[end as int];
                assert(i <= end < i + grapheme);
            }
            return false;
        }
        assert(width_fits(buffer@, measured@, i as int));
    }
    assert forall|k: int| 0 <= k < n && buffer@[k] != '\n' implies k + #[trigger] measured@[k].0
        <= n by {
        assert(width_fits(buffer@, measured@, k));
        let behind = buffer@[n as int];
    }
    assert forall|k: int, j: int|
        0 <= k < n && buffer@[k] != '\n' && k <= j < k + #[trigger] measured@[k].0 implies j < n
        && #[trigger] buffer@[j] != '\n' by {
        assert(width_fits(buffer@, measured@, k));
        let inside = buffer@[j];
    }
    true
}

/// Whether the grapheme that begins at a character ends inside its line.
spec fn width_fits(buffer: Seq<char>, measured: Seq<(usize, u8)>, i: int) -> bool {
    forall|j: int|
        buffer[i] != '\n' && i <= j < i + measured[i].0 ==> j < buffer.len() && #[trigger] buffer[j]
            != '\n'
}

fn no_widths(n: usize) -> (r: Vec<(usize, u8)>)
    ensures
        r@ == Seq::new(n as nat, |i: int| (0usize, 0u8)),
{
    let mut out: Vec<(usize, u8)> = Vec::new();
    while out.len() < n
        invariant
            out@.len() <= n,
            forall|i: int| 0 <= i < out@.len() ==> #[trigger] out@[i] == (0usize, 0u8),
        decreases n - out@.len(),
    {
        out.push((0, 0));
    }
    assert(out@ =~= Seq::new(n as nat, |i: int| (0usize, 0u8)));
    out
}

/// How long a command ran, in milliseconds.
pub open spec fn milliseconds(start: int, now: int) -> int {
    let elapsed = if now >= start {
        now - start
    } else {
        0
    };
    (elapsed / 1_000_000) % 0x1_0000_0000_0000_0000
}

/// The state after a command was started in a pane: its input line is empty, and the popups close.
pub open spec fn command_started(
    pre: App,
    pid: PaneId,
    cmd: Seq<char>,
    cwd: Seq<char>,
    now: u128,
    post: App,
) -> bool {
    let closed = App { suggest: None, mention: None, suggest_dismissed_for: None, ..pre };
    if app::has_pane(pre.panes@, pid) {
        let pane = post.pane(pid);
        &&& pane_changed(closed, pid, pane, post)
        &&& pane == (Pane {
            cwd: pane.cwd,
            input: pane.input,
            pending: pane.pending,
            ..pre.pane(pid)
        })
        &&& pane.cwd@ == cwd
        &&& pane.input.buffer@.len() == 0
        &&& pane.input.measured@.len() == 0
        &&& pane.input.cursor == 0
        &&& pane.pending is Some
        &&& (pane.pending->0).cmd@ == cmd
        &&& (pane.pending->0).cwd@ == cwd
        &&& (pane.pending->0).start == now
    } else {
        post == closed
    }
}

/// The state after a command has ended in a pane.
pub open spec fn command_ended(pre: App, pid: PaneId, post: App) -> bool {
    let closed = App { suggest: None, mention: None, ..pre };
    if app::has_pane(pre.panes@, pid) {
        pane_changed(closed, pid, Pane { pending: None, ..pre.pane(pid) }, post)
    } else {
        post == closed
    }
}

/// A command that has ended is kept in the history, unless it is blank.
pub open spec fn end_effects(pre: App, pid: PaneId, exit: int, now: int) -> Seq<EffectView> {
    if app::has_pane(pre.panes@, pid) && pre.pane(pid).pending is Some {
        let pending = pre.pane(pid).pending->0;
        if text::blank(pending.cmd@) {
            app::no_effects()
        } else {
            seq![
                EffectView::Record {
                    cmdline: text::trimmed(pending.cmd@),
                    cwd: pending.cwd@,
                    exit,
                    duration_ms: milliseconds(pending.start as int, now),
                },
            ]
        }
    } else {
        app::no_effects()
    }
}

/// The state once the input line of a pane is known anew.
pub open spec fn line_taken(
    pre: App,
    pid: PaneId,
    cursor: int,
    buffer: Seq<char>,
    cwd: Seq<char>,
    measured: Seq<(usize, u8)>,
    post: App,
) -> bool {
    if app::has_pane(pre.panes@, pid) {
        let pane = post.pane(pid);
        &&& pane_changed(pre, pid, pane, post)
        &&& pane == (Pane { cwd: pane.cwd, input: pane.input, ..pre.pane(pid) })
        &&& pane.cwd@ == cwd
        &&& pane.input.buffer@ == buffer
        &&& pane.input.cursor == cursor
        &&& pane.input.measured@ == trusted_widths(buffer, measured)
    } else {
        post == pre
    }
}

/// The state after the popups at the input line of a pane were looked at again: files where a
/// mention is at the cursor, and else commands. A pane without the focus has no popups.
pub open spec fn popups_rebuilt(mid: App, pid: PaneId, post: App) -> bool {
    if pid == mid.focus() {
        if suggest::mentions_in(mid) is Some {
            post == (App { suggest: None, ..suggest::after_mention(mid) })
        } else {
            post == suggest::after_rebuild(suggest::after_mention(mid))
        }
    } else {
        post == mid
    }
}

/// What that asks for.
pub open spec fn popup_effects(mid: App, pid: PaneId) -> Seq<EffectView> {
    if pid == mid.focus() {
        if suggest::mentions_in(mid) is Some {
            suggest::mention_effects(mid)
        } else {
            suggest::rebuild_effects(suggest::after_mention(mid))
        }
    } else {
        app::no_effects()
    }
}

fn take_line(
    app: &mut App,
    pid: PaneId,
    cursor: usize,
    buffer: String,
    cwd: String,
    measured: Vec<(usize, u8)>,
)
    requires
        old(app).wf(),
        buffer@.len() <= input_line::MAX_INPUT,
    ensures
        line_taken(*old(app), pid, cursor as int, buffer@, cwd@, measured@, *final(app)),
        final(app).wf(),
        old(app).focus_wf() ==> final(app).focus_wf(),
{
    if let Some(i) = app::find_pane(&app.panes, pid) {
        assert(app::pane_wf(app.panes@[i as int]));
        let chars = text::chars_of(buffer.as_str());
        let measured = if widths_fit(&chars, &measured) {
            measured
        } else {
            no_widths(chars.len())
        };
        app.panes[i].input = InputState { buffer, cursor, measured };
        app.panes[i].cwd = cwd;
        assert(app.panes@ =~= old(app).panes@.update(i as int, app.panes@[i as int]));
        proof {
            changed_pane_stays(*old(app), pid, app.panes@[i as int], *app);
        }
    }
}

fn rebuild_popups(app: &mut App, pid: PaneId) -> (r: Vec<Effect>)
    requires
        old(app).wf(),
        old(app).active_tab < old(app).tabs@.len(),
    ensures
        popups_rebuilt(*old(app), pid, *final(app)),
        app::effects_view(r@) == popup_effects(*old(app), pid),
        final(app).wf(),
{
    if pid != active_focus(app) {
        return app::nothing();
    }
    let (mentioned, effects) = rebuild_mention(app);
    if mentioned {
        app.suggest = None;
        effects
    } else {
        rebuild_suggest(app)
    }
}

/// What a marker leads to: the state after it, and what it asks for.
pub open spec fn marker_handled(
    pre: App,
    pid: PaneId,
    event: OscEvent,
    measured: Seq<(usize, u8)>,
    now: u128,
    post: App,
    effects: Seq<EffectView>,
) -> bool {
    match event {
        OscEvent::CommandStart { cmd, cwd } => {
            &&& command_started(pre, pid, cmd@, cwd@, now, post)
            &&& effects == app::no_effects()
        },
        OscEvent::CommandEnd { exit } => {
            &&& command_ended(pre, pid, post)
            &&& effects == end_effects(pre, pid, exit as int, now as int)
        },
        OscEvent::BufferUpdate { cursor, buffer, cwd } => exists|mid: App|
            #![trigger popups_rebuilt(mid, pid, post)]
            {
                &&& line_taken(pre, pid, cursor as int, buffer@, cwd@, measured, mid)
                &&& popups_rebuilt(mid, pid, post)
                &&& effects == popup_effects(mid, pid)
            },
    }
}

/// A marker in the output of a shell: a command starts or ends, or the input line changes. For a
/// changed input line, `measured` tells of each character how many the grapheme beginning there
/// has and how many cells it takes. `now` is the time in nanoseconds.
pub fn handle_osc(
    app: &mut App,
    pid: PaneId,
    event: OscEvent,
    measured: Vec<(usize, u8)>,
    now: u128,
) -> (r: Vec<Effect>)
    requires
        old(app).wf(),
        old(app).active_tab < old(app).tabs@.len(),
        event matches OscEvent::BufferUpdate { cursor, buffer, cwd } ==> buffer@.len()
            <= input_line::MAX_INPUT,
    ensures
        marker_handled(
            *old(app),
            pid,
            event,
            measured@,
            now,
            *final(app),
            app::effects_view(r@),
        ),
        final(app).wf(),
{
    match event {
        OscEvent::CommandStart { cmd, cwd } => {
            app.suggest = None;
            app.mention = None;
            app.suggest_dismissed_for = None;
            let ghost closed = *app;
            if let Some(i) = app::find_pane(&app.panes, pid) {
                assert(app::pane_wf(app.panes@[i as int]));
                app.panes[i].cwd = cwd.clone();
                app.panes[i].input = InputState {
                    buffer: String::new(),
                    cursor: 0,
                    measured: Vec::new(),
                };
                app.panes[i].pending = Some(PendingCmd { cmd, cwd, start: now });
                assert(app.panes@ =~= closed.panes@.update(i as int, app.panes@[i as int]));
                proof {
                    changed_pane_stays(closed, pid, app.panes@[i as int], *app);
                }
            }
            app::nothing()
        },
        OscEvent::CommandEnd { exit } => {
            app.suggest = None;
            app.mention = None;
            let ghost closed = *app;
            let i: usize = match app::find_pane(&app.panes, pid) {
                Some(i) => i,
                None => return app::nothing(),
            };
            assert(app::pane_wf(app.panes@[i as int]));
            let pending = app.panes[i].pending.take();
            assert(app.panes@ =~= closed.panes@.update(i as int, app.panes@[i as int]));
            proof {
                changed_pane_stays(closed, pid, app.panes@[i as int], *app);
            }
            let PendingCmd { cmd, cwd, start } = match pending {
                Some(pending) => pending,
                None => return app::nothing(),
            };
            proof {
                text::blank_trims_to_nothing(cmd@);
            }
            match recorded_command(cmd.as_str()) {
                Some(cmdline) => {
                    let elapsed: u128 = if now >= start {
                        now - start
                    } else {
                        0
                    };
                    let duration_ms: u64 = (elapsed / 1_000_000 % 0x1_0000_0000_0000_0000) as u64;
                    app::just(Effect::Record { cmdline, cwd, exit, duration_ms })
                },
                None => app::nothing(),
            }
        },
        OscEvent::BufferUpdate { cursor, buffer, cwd } => {
            take_line(app, pid, cursor, buffer, cwd, measured);
            rebuild_popups(app, pid)
        },
    }
}

/// A command that was started in a pane is kept in the history when it ends: the command without the
/// white space around it, its directory, how it ended, and how long it ran.
pub proof fn commands_are_remembered(
    pre: App,
    pid: PaneId,
    cmd: Seq<char>,
    cwd: Seq<char>,
    start: u128,
    mid: App,
    exit: i32,
    now: u128,
)
    requires
        app::has_pane(pre.panes@, pid),
        command_started(pre, pid, cmd, cwd, start, mid),
        !text::blank(cmd),
        start <= now,
        now - start < 0x1_0000_0000_0000_0000,
    ensures
        end_effects(mid, pid, exit as int, now as int) == seq![
            EffectView::Record {
                cmdline: text::trimmed(cmd),
                cwd,
                exit: exit as int,
                duration_ms: (now - start) / 1_000_000,
            },
        ],
{
    let closed = App { suggest: None, mention: None, suggest_dismissed_for: None, ..pre };
    app::pane_index_is_first(pre.panes@, pid);
    app::pane_index_is_first(mid.panes@, pid);
    assert(mid.pane(pid).id == pid);
    app::has_pane_iff(mid.panes@, pid);
    assert(mid.panes@[app::pane_index(pre.panes@, pid)].id == pid);
}

/// A command is kept once: when its end is told again, nothing is kept.
pub proof fn commands_are_remembered_once(
    pre: App,
    pid: PaneId,
    post: App,
    exit: i32,
    now: u128,
)
    requires
        command_ended(pre, pid, post),
    ensures
        end_effects(post, pid, exit as int, now as int) == app::no_effects(),
{
    app::pane_index_is_first(pre.panes@, pid);
    if app::has_pane(pre.panes@, pid) {
        let i = app::pane_index(pre.panes@, pid);
        assert forall|j: int| 0 <= j < i implies (#[trigger] post.panes@[j]).id != pid by {
            assert(post.panes@[j] == pre.panes@[j]);
        }
        app::first_is_pane_index(post.panes@, pid, i);
    }
}

// Everything that comes in.

/// Something that comes in.
pub enum AppEvent {
    /// Output of the shell of a pane, and what came of it in the emulator of the pane.
    PtyData(PaneId, TerminalEffects, Vec<u8>),
    /// The shell of a pane has ended.
    PtyClosed(PaneId),
    Key(KeyEvent),
    Mouse(MouseEvent),
    Paste(String),
    /// The window has got the focus, or lost it.
    Focus(bool),
    /// The window has another size. It is seen when the next drawing is laid out.
    Resize,
    /// Files were looked for.
    MentionReady(MentionResult),
}

/// What something that comes in leads to: the state after it, what is to be done next, and the
/// markers in it.
pub open spec fn event_handled(
    pre: App,
    event: AppEvent,
    post: App,
    step: InputStepView,
    markers: Seq<OscEventView>,
) -> bool {
    match event {
        AppEvent::PtyData(pid, effects, bytes) => {
            &&& output_handled(pre, pid, effects, bytes@, post)
            &&& step == InputStepView::Done(output_effects(pre, pid, effects))
            &&& markers == markers_in(pre, pid, bytes@)
        },
        AppEvent::PtyClosed(pid) => {
            &&& if app::has_pane(pre.panes@, pid) {
                session::closed(pre, pid, post)
            } else {
                post == pre
            }
            &&& step == InputStepView::Done(session::close_effects(pre.panes@, pid))
            &&& markers == Seq::<OscEventView>::empty()
        },
        AppEvent::Key(key) => {
            &&& input::key_result(pre, key, Stage::Start, post, step)
            &&& markers == Seq::<OscEventView>::empty()
        },
        AppEvent::Mouse(me) => {
            &&& input::mouse_result(pre, me, post, step)
            &&& markers == Seq::<OscEventView>::empty()
        },
        AppEvent::Paste(text) => {
            &&& input::paste_handled(pre, text@, post)
            &&& step == InputStepView::Done(input::paste_effects(pre, text@, post))
            &&& markers == Seq::<OscEventView>::empty()
        },
        AppEvent::Focus(focused) => {
            &&& post == pre
            &&& step == InputStepView::Done(focus_effects(pre, focused))
            &&& markers == Seq::<OscEventView>::empty()
        },
        AppEvent::Resize => {
            &&& post == pre
            &&& step == input::done()
            &&& markers == Seq::<OscEventView>::empty()
        },
        AppEvent::MentionReady(result) => {
            &&& post == suggest::mention_shown(pre, result)
            &&& step == input::done()
            &&& markers == Seq::<OscEventView>::empty()
        },
    }
}

fn no_markers() -> (r: Vec<OscEvent>)
    ensures
        osc::events_view(r@) == Seq::<OscEventView>::empty(),
{
    let r: Vec<OscEvent> = Vec::new();
    assert(osc::events_view(r@) =~= Seq::<OscEventView>::empty());
    r
}

/// Handles something that comes in. The step is done first, then [`handle_osc`] takes the markers.
/// A step of a key goes on with `handle_key`, one of the mouse with `finish_click`.
pub fn handle_event(app: &mut App, event: AppEvent) -> (r: (Step, Vec<OscEvent>))
    requires
        old(app).wf(),
        old(app).active_tab < old(app).tabs@.len(),
    ensures
        event_handled(*old(app), event, *final(app), r.0@, osc::events_view(r.1@)),
        final(app).wf(),
{
    match event {
        AppEvent::PtyData(pid, effects, bytes) => {
            let (todo, markers) = pty_data(app, pid, effects, &bytes);
            (Step::Done(todo), markers)
        },
        AppEvent::PtyClosed(pid) => (Step::Done(pty_closed(app, pid)), no_markers()),
        AppEvent::Key(key) => (handle_key(app, key, Stage::Start), no_markers()),
        AppEvent::Mouse(me) => (handle_mouse(app, me), no_markers()),
        AppEvent::Paste(text) => (Step::Done(handle_paste(app, text)), no_markers()),
        AppEvent::Focus(focused) => (Step::Done(window_focus(app, focused)), no_markers()),
        AppEvent::Resize => (Step::Done(app::nothing()), no_markers()),
        AppEvent::MentionReady(result) => {
            mention_ready(app, result);
            (Step::Done(app::nothing()), no_markers())
        },
    }
}

// When to draw.

/// The shortest time between two drawings, in nanoseconds.
pub const MIN_RENDER_INTERVAL: u128 = 16_000_000;

/// How long to wait before drawing, in nanoseconds: not before a drawing is needed, not while a
/// program is in the middle of its output unless something else asks for it, and not sooner than
/// [`MIN_RENDER_INTERVAL`] after the last one.
pub open spec fn wait_to_render(needs: bool, force: bool, synchronized: bool, elapsed: int) -> Option<
    int,
> {
    if !needs || synchronized && !force {
        None
    } else if elapsed >= MIN_RENDER_INTERVAL {
        Some(0)
    } else {
        Some(MIN_RENDER_INTERVAL - elapsed)
    }
}

/// How long to wait before drawing, in nanoseconds.
pub fn render_wait(
    needs_render: bool,
    force_render: bool,
    synchronized_output: bool,
    elapsed: u128,
) -> (r: Option<u128>)
    ensures
        match r {
            Some(wait) => wait_to_render(
                needs_render,
                force_render,
                synchronized_output,
                elapsed as int,
            ) == Some(wait as int),
            None => wait_to_render(
                needs_render,
                force_render,
                synchronized_output,
                elapsed as int,
            ) is None,
        },
{
    if !needs_render || (synchronized_output && !force_render) {
        None
    } else if elapsed >= MIN_RENDER_INTERVAL {
        Some(0)
    } else {
        Some(MIN_RENDER_INTERVAL - elapsed)
    }
}

/// Whether the screen has to be drawn again, and whether that must not wait for a program.
#[derive(Debug, Clone, Copy, PartialEq, Eq, Structural)]
pub struct Redraw {
    pub needed: bool,
    pub forced: bool,
}

impl Redraw {
    /// The screen was just drawn.
    pub fn drawn() -> (r: Redraw)
        ensures
            r == (Redraw { needed: false, forced: false }),
    {
        Redraw { needed: false, forced: false }
    }

    /// Something came in: output of a shell, or something else.
    pub fn received(self, output: bool) -> (r: Redraw)
        ensures
            r == (Redraw { needed: true, forced: self.forced || !output }),
    {
        Redraw { needed: true, forced: self.forced || !output }
    }
}

/// Whether the program in the pane with the focus is in the middle of its output.
pub open spec fn output_open(app: App) -> bool {
    app::has_pane(app.panes@, app.focus()) && app.pane(app.focus()).report.synchronized_output
}

/// How long to wait before drawing the state, in nanoseconds.
pub fn wait_for(app: &App, redraw: Redraw, elapsed: u128) -> (r: Option<u128>)
    requires
        app.active_tab < app.tabs@.len(),
    ensures
        wait_to_render(redraw.needed, redraw.forced, output_open(*app), elapsed as int) == (
        match r {
            Some(wait) => Some(wait as int),
            None => None,
        }),
{
    let synchronized = match app::find_pane(&app.panes, active_focus(app)) {
        Some(i) => app.panes[i].report.synchronized_output,
        None => false,
    };
    render_wait(redraw.needed, redraw.forced, synchronized, elapsed)
}

/// What forces a drawing is not held up: the wait never exceeds the interval, and none is needed
/// once the interval has passed.
pub proof fn forced_drawing_comes(synchronized: bool, elapsed: int)
    requires
        elapsed >= 0,
    ensures
        wait_to_render(true, true, synchronized, elapsed) matches Some(wait) && 0 <= wait
            <= MIN_RENDER_INTERVAL && (elapsed >= MIN_RENDER_INTERVAL <==> wait == 0),
{
}

/// Two hexadecimal digits behind a percent sign stand for the byte that they write, whatever follows.
pub proof fn escapes_are_put_in(high: u8, low: u8, rest: Seq<u8>)
    requires
        text::digit_value(high as char, 16) >= 0,
        text::digit_value(low as char, 16) >= 0,
    ensures
        unescaped(seq![0x25u8, high, low] + rest) == seq![
            (16 * text::digit_value(high as char, 16) + text::digit_value(low as char, 16)) as u8,
        ] + unescaped(rest),
{
    let all = seq![0x25u8, high, low] + rest;
    text::hex_pairs_are_read(high as char, low as char);
    assert(all[0] == 0x25 && all[1] == high && all[2] == low);
    assert(all.skip(3) =~= rest);
}

/// A byte that is no percent sign stands for itself, whatever follows.
pub proof fn other_bytes_are_kept(b: u8, rest: Seq<u8>)
    requires
        b != 0x25,
    ensures
        unescaped(seq![b] + rest) == seq![b] + unescaped(rest),
{
    let all = seq![b] + rest;
    assert(all[0] == b);
    assert(all.skip(1) =~= rest);
}

/// The host in a report does not matter, and an absolute path without escapes is taken as it is.
pub proof fn directories_are_taken_from_reports(host: Seq<char>, path: Seq<char>)
    requires
        !host.contains('/'),
        path.len() > 0,
        path[0] == '/',
        !utf8::encode_utf8(path).contains(0x25),
    ensures
        reported_cwd(path) == Some(path),
        reported_cwd("file://"@ + host + path) == Some(path),
{
    reveal_strlit("file://");
    plain_bytes_are_kept(utf8::encode_utf8(path));
    utf8::encode_utf8_decode_utf8(path);
    utf8::encode_utf8_valid_utf8(path);
    assert(!"file://"@.is_prefix_of(path)) by {
        if "file://"@.is_prefix_of(path) {
            assert(path.subrange(0, 7)[0] == path[0]);
        }
    }
    let all = "file://"@ + host + path;
    assert(all.take(7) =~= "file://"@);
    assert("file://"@.is_prefix_of(all));
    let rest = all.skip(7);
    assert(rest =~= host + path);
    assert forall|j: int| 0 <= j < host.len() implies #[trigger] rest[j] != '/' by {
        assert(host.contains(host[j]));
    }
    assert(rest[host.len() as int] == '/');
    text::first_is_index_of(rest, '/', host.len() as int);
    assert(rest.skip(host.len() as int) =~= path);
}

/// Every answer goes to the shell that asked, every bell rings once, and every text for a clipboard
/// goes there, in this order.
pub proof fn everything_asked_for_is_done(pre: App, pid: PaneId, effects: TerminalEffects, i: int)
    requires
        app::has_pane(pre.panes@, pid),
    ensures
        ({
            let all = output_effects(pre, pid, effects);
            let answers = effects.pty_responses@.len();
            let rings = if effects.bell_count > 0 {
                1int
            } else {
                0
            };
            &&& all.len() == answers + rings + effects.clipboard_writes@.len()
            &&& 0 <= i < answers ==> all[i] == (EffectView::Write {
                pane: pid,
                bytes: effects.pty_responses@[i]@,
            })
            &&& rings == 1 ==> all[answers as int] == (EffectView::Bell {
                count: effects.bell_count as int,
            })
            &&& 0 <= i < effects.clipboard_writes@.len() ==> all[answers + rings + i] == (
            EffectView::Copy {
                target: effects.clipboard_writes@[i].target,
                data: effects.clipboard_writes@[i].data@,
            })
        }),
{
}

/// A command that ran for so many milliseconds, and a part of one, ran for so many; a clock that was
/// set back gives none.
pub proof fn durations_are_in_milliseconds(start: int, ms: int, part: int)
    requires
        0 <= start,
        0 <= ms < 0x1_0000_0000_0000_0000,
        0 <= part < 1_000_000,
    ensures
        milliseconds(start, start + ms * 1_000_000 + part) == ms,
        milliseconds(start + ms * 1_000_000 + part, start) == 0,
{
}

/// A drawing that waits comes when the interval has passed, and no sooner or later than it must;
/// one that is not held back never waits for anything else.
pub proof fn drawings_keep_their_distance(needs: bool, force: bool, synchronized: bool, elapsed: int)
    requires
        elapsed >= 0,
    ensures
        wait_to_render(needs, force, synchronized, elapsed) is Some <==> needs && (force
            || !synchronized),
        wait_to_render(needs, force, synchronized, elapsed) matches Some(wait) ==> wait >= 0
            && elapsed + wait >= MIN_RENDER_INTERVAL && (wait > 0 ==> elapsed + wait
            == MIN_RENDER_INTERVAL),
{
}

/// The output of a shell changes its own pane only: all others, the tabs and the popups are as they
/// were, and in its own pane the input line and the command that runs.
pub proof fn output_stays_in_its_pane(
    pre: App,
    pid: PaneId,
    effects: TerminalEffects,
    bytes: Seq<u8>,
    post: App,
    k: int,
)
    requires
        output_handled(pre, pid, effects, bytes, post),
        0 <= k < pre.panes@.len(),
        pre.panes@[k].id != pid,
    ensures
        post.panes@.len() == pre.panes@.len(),
        post.panes@[k] == pre.panes@[k],
        post.tabs == pre.tabs,
        post.selection == pre.selection,
        app::has_pane(pre.panes@, pid) ==> post.pane(pid).input == pre.pane(pid).input && post.pane(
            pid,
        ).pending == pre.pane(pid).pending && (effects.title matches Some(t) ==> post.pane(
            pid,
        ).title@ == t@) && (effects.title is None ==> post.pane(pid).title@ == pre.pane(
            pid,
        ).title@) && (effects.cwd is None ==> post.pane(pid).cwd@ == pre.pane(pid).cwd@),
{
    app::pane_index_is_first(pre.panes@, pid);
}

/// The line that a shell reports is the one of its pane from then on, whatever was there before, and
/// no other pane has it.
pub proof fn lines_go_to_their_pane(
    pre: App,
    pid: PaneId,
    cursor: int,
    buffer: Seq<char>,
    cwd: Seq<char>,
    measured: Seq<(usize, u8)>,
    post: App,
    k: int,
)
    requires
        line_taken(pre, pid, cursor, buffer, cwd, measured, post),
        app::has_pane(pre.panes@, pid),
        0 <= k < pre.panes@.len(),
    ensures
        post.pane(pid).input.buffer@ == buffer,
        post.pane(pid).input.cursor == cursor,
        post.pane(pid).cwd@ == cwd,
        post.pane(pid).input.measured@.len() == buffer.len(),
        pre.panes@[k].id != pid ==> post.panes@[k] == pre.panes@[k],
{
    app::pane_index_is_first(pre.panes@, pid);
}

/// A program that asked for it is told of the focus of the window, and that it has come differently
/// from that it has gone; one that did not ask is told nothing.
pub proof fn focus_is_told_where_asked_for(pre: App)
    ensures
        ({
            let asked = app::has_pane(pre.panes@, pre.focus()) && pre.pane(
                pre.focus(),
            ).report.focus_events;
            &&& !asked ==> focus_effects(pre, true).len() == 0 && focus_effects(pre, false).len()
                == 0
            &&& asked ==> (focus_effects(pre, true) == seq![
                EffectView::Write { pane: pre.focus(), bytes: seq![0x1bu8, 0x5b, 0x49] },
            ] && focus_effects(pre, false) == seq![
                EffectView::Write { pane: pre.focus(), bytes: seq![0x1bu8, 0x5b, 0x4f] },
            ])
        }),
{
    reveal_strlit("\x1b[I");
    reveal_strlit("\x1b[O");
    assert(text::ascii("\x1b[I"@) =~= seq![0x1bu8, 0x5b, 0x49]);
    assert(text::ascii("\x1b[O"@) =~= seq![0x1bu8, 0x5b, 0x4f]);
}

/// A command that starts empties the input line of its pane, and closes the popups at it; what was
/// dismissed may be offered again. Nothing of other panes changes.
pub proof fn starting_empties_the_line(
    pre: App,
    pid: PaneId,
    cmd: Seq<char>,
    cwd: Seq<char>,
    now: u128,
    post: App,
    k: int,
)
    requires
        command_started(pre, pid, cmd, cwd, now, post),
        app::has_pane(pre.panes@, pid),
        0 <= k < pre.panes@.len(),
    ensures
        post.pane(pid).input.buffer@.len() == 0,
        post.pane(pid).input.cursor == 0,
        post.pane(pid).cwd@ == cwd,
        post.pane(pid).pending matches Some(p) && p.cmd@ == cmd && p.cwd@ == cwd && p.start == now,
        post.suggest is None,
        post.mention is None,
        post.suggest_dismissed_for is None,
        pre.panes@[k].id != pid ==> post.panes@[k] == pre.panes@[k],
        post.tabs == pre.tabs,
{
    app::pane_index_is_first(pre.panes@, pid);
}

/// A command that has ended is no longer the one that runs in its pane, and its input line stays.
pub proof fn ending_frees_the_pane(pre: App, pid: PaneId, post: App)
    requires
        command_ended(pre, pid, post),
        app::has_pane(pre.panes@, pid),
    ensures
        ({
            let i = app::pane_index(pre.panes@, pid);
            &&& post.panes@[i].pending is None
            &&& post.panes@[i].input == pre.panes@[i].input
            &&& post.panes@[i].cwd == pre.panes@[i].cwd
        }),
        post.suggest is None,
        post.mention is None,
        post.tabs == pre.tabs,
{
    app::pane_index_is_first(pre.panes@, pid);
}

/// At most one popup is kept at the input line: none with commands where a mention is at the cursor,
/// and none with files before files were found. A pane without the focus changes no popup.
pub proof fn popups_give_way(mid: App, pid: PaneId, post: App)
    requires
        popups_rebuilt(mid, pid, post),
    ensures
        pid == mid.focus() ==> post.mention is None,
        pid == mid.focus() && suggest::mentions_in(mid) is Some ==> post.suggest is None,
        pid != mid.focus() ==> post == mid && popup_effects(mid, pid).len() == 0,
        post.panes == mid.panes,
        post.tabs == mid.tabs,
{
}

} // verus!
