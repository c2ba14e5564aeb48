//! The state of the program: panes in tabs, popups, what was drawn last, and what handling an
//! event asks to be done outside.

use crate::config::Config;
use crate::geometry::Rect;
use crate::history::HistoryEntry;
use crate::input_line::InputState;
use crate::keys::{KeyEvent, MouseRequest};
use crate::layout;
use crate::layout::{Divider, Layout, PaneId, SplitDir, SplitId};
use crate::mention::Mention;
use crate::osc::OscScanner;
use crate::shell::{ShellIntegration, ZleEdit};
use crate::term::{ClipboardTarget, GridPoint, GridSelection, TermScreen};
use vstd::prelude::*;

verus! {

/// A command that runs in a pane.
#[derive(Debug)]
pub struct PendingCmd {
    pub cmd: String,
    pub cwd: String,
    /// When it was started, in nanoseconds.
    pub start: u128,
}

/// What the emulator of a pane tells of itself.
#[derive(Debug)]
pub struct PaneReport {
    pub screen: TermScreen,
    /// How many rows the viewport is above the bottom.
    pub scrollback: usize,
    /// Whether the program in the pane wants to know of the mouse.
    pub mouse_tracking: bool,
    /// Whether the program uses the alternate screen.
    pub alt_screen: bool,
    /// Whether the program wants to know where a paste begins and ends.
    pub bracketed_paste: bool,
    /// Whether the program wants to know of the focus.
    pub focus_events: bool,
    /// Whether the program is in the middle of drawing.
    pub synchronized_output: bool,
}

/// A pane.
#[derive(Debug)]
pub struct Pane {
    pub id: PaneId,
    pub report: PaneReport,
    pub osc: OscScanner,
    pub cwd: String,
    pub title: String,
    pub pending: Option<PendingCmd>,
    pub input: InputState,
}

/// The history palette.
#[derive(Debug)]
pub struct Palette {
    pub query: String,
    pub results: Vec<HistoryEntry>,
    pub selected: usize,
    pub rect: Rect,
}

/// The popup with commands that go with what was typed.
#[derive(Debug)]
pub struct Suggest {
    pub matches: Vec<String>,
    pub selected: usize,
    /// The first match that is shown.
    pub offset: usize,
}

/// A tab: a tree of panes, one of which has the focus.
pub struct Tab {
    pub name: String,
    pub layout: Layout,
    pub focus: PaneId,
}

/// What a part of the tab bar does when it is clicked.
#[derive(Debug, Clone, Copy, PartialEq, Eq, Structural)]
pub enum StatusKind {
    Switch(usize),
    NewTab,
}

/// A part of the tab bar.
#[derive(Debug)]
pub struct StatusSeg {
    pub x: u16,
    pub text: String,
    pub kind: StatusKind,
    pub active: bool,
}

/// A divider that is being dragged.
#[derive(Debug, Clone, Copy, PartialEq, Eq, Structural)]
pub struct DragState {
    pub id: SplitId,
    pub dir: SplitDir,
    pub bounds: Rect,
}

/// What an entry of a menu does.
#[derive(Debug, Clone, Copy, PartialEq, Eq, Structural)]
pub enum MenuAction {
    SplitRight(PaneId),
    SplitDown(PaneId),
    ClosePane(PaneId),
    NewTab,
    RenameTab(usize),
    CloseTab(usize),
}

/// An entry of a menu.
#[derive(Debug, Clone, Copy)]
pub struct MenuEntry {
    pub label: &'static str,
    pub action: MenuAction,
}

/// An open menu.
#[derive(Debug)]
pub struct ContextMenu {
    pub rect: Rect,
    pub items: Vec<MenuEntry>,
    pub hovered: usize,
}

/// The width of the popup that renames a tab.
pub const RENAME_W: u16 = 40;

/// The height of the popup that renames a tab: a line inside a border.
pub const RENAME_H: u16 = 3;

/// A tab that is being renamed.
#[derive(Debug)]
pub struct RenameState {
    pub tab_index: usize,
    pub buffer: String,
}

/// The question before the last pane is closed.
pub const CONFIRM_MSG: &'static str = "Close the last pane and quit?";

/// The width of that question.
pub const CONFIRM_W: u16 = 40;

/// The height of that question: the message, a free line and two answers, inside a border.
pub const CONFIRM_H: u16 = 6;

/// The number of answers to that question.
pub const CONFIRM_OPTIONS: usize = 2;

/// The question before the last pane is closed: the first answer keeps it, the second quits.
#[derive(Debug)]
pub struct ConfirmDialog {
    pub rect: Rect,
    pub selected: usize,
}

/// The width of the history palette.
pub const PALETTE_W: u16 = 72;

/// The height of the history palette.
pub const PALETTE_H: u16 = 18;

/// What is selected in a pane.
#[derive(Debug, Clone, Copy, PartialEq, Eq, Structural)]
pub struct PaneSelection {
    pub pane: PaneId,
    pub range: GridSelection,
}

impl PaneSelection {
    /// The selection of one cell.
    pub fn new(pane: PaneId, point: GridPoint) -> (r: Self)
        ensures
            r == (PaneSelection { pane, range: GridSelection { anchor: point, end: point } }),
    {
        PaneSelection { pane, range: GridSelection::new(point) }
    }
}

/// The state of the program.
pub struct App {
    pub panes: Vec<Pane>,
    pub tabs: Vec<Tab>,
    pub active_tab: usize,
    pub integ: ShellIntegration,
    pub cfg: Config,
    pub next_pane: u64,
    pub next_split: u64,
    pub next_tab: u64,
    /// What was laid out last, for the mouse.
    pub screen: Rect,
    pub areas: Vec<(PaneId, Rect)>,
    pub inner_areas: Vec<(PaneId, Rect)>,
    pub dividers: Vec<Divider>,
    pub status_y: u16,
    pub status_segs: Vec<StatusSeg>,
    pub dragging: Option<DragState>,
    pub selection: Option<PaneSelection>,
    pub menu: Option<ContextMenu>,
    pub confirm: Option<ConfirmDialog>,
    pub rename: Option<RenameState>,
    pub palette: Option<Palette>,
    pub mention: Option<Mention>,
    pub mention_rect: Option<Rect>,
    pub mention_generation: u64,
    pub suggest: Option<Suggest>,
    pub suggest_rect: Option<Rect>,
    /// The input line for which the popup was closed: it does not open again until the line
    /// changes.
    pub suggest_dismissed_for: Option<String>,
    pub prefix_active: bool,
    pub should_quit: bool,
}

/// Why a pane is started.
#[derive(Debug, Clone, Copy, PartialEq, Eq, Structural)]
pub enum SpawnFor {
    Split { target: PaneId, dir: SplitDir },
    Tab,
}

/// Something to do outside.
#[derive(Debug, PartialEq, Eq)]
pub enum Effect {
    /// Send bytes to the shell of a pane.
    Write { pane: PaneId, bytes: Vec<u8> },
    /// Encode a key for a pane, and send what comes of it. Before that, where asked for and if
    /// anything came of it, show the newest output.
    SendKey { pane: PaneId, key: KeyEvent, to_bottom: bool },
    /// Encode a mouse event for a pane, and send what comes of it.
    SendMouse { pane: PaneId, request: MouseRequest },
    /// Show the newest output of a pane.
    ToBottom { pane: PaneId },
    /// Scroll a pane, up for a negative number.
    Scroll { pane: PaneId, lines: i64 },
    /// Write the file of an edit and send its keys; where the file cannot be written, send the
    /// other bytes.
    Edit { pane: PaneId, edit: ZleEdit, fallback: Vec<u8> },
    /// Start a pane.
    Spawn(SpawnFor),
    /// A pane is gone.
    Close { pane: PaneId },
    /// Set the size of a pane.
    Resize { pane: PaneId, rows: u16, cols: u16 },
    /// Search the history for the palette.
    Search { query: String, cwd: String, limit: usize },
    /// Look for commands that go with what was typed.
    Suggest { query: String, cwd: String, limit: usize },
    /// Forget a command.
    Forget { cmdline: String },
    /// Look for files to mention.
    Scan {
        pane: PaneId,
        generation: u64,
        token_start: usize,
        token_end: usize,
        query: String,
        cwd: String,
    },
    /// Keep a command in the history.
    Record { cmdline: String, cwd: String, exit: i32, duration_ms: u64 },
    /// Put something into a clipboard.
    Copy { target: ClipboardTarget, data: Vec<u8> },
    /// Ring the bell so many times.
    Bell { count: usize },
}

/// What an effect says.
pub enum EffectView {
    Write { pane: PaneId, bytes: Seq<u8> },
    SendKey { pane: PaneId, key: KeyEvent, to_bottom: bool },
    SendMouse { pane: PaneId, request: MouseRequest },
    ToBottom { pane: PaneId },
    Scroll { pane: PaneId, lines: int },
    Edit { pane: PaneId, file: Seq<char>, contents: Seq<char>, keys: Seq<u8>, fallback: Seq<u8> },
    Spawn(SpawnFor),
    Close { pane: PaneId },
    Resize { pane: PaneId, rows: int, cols: int },
    Search { query: Seq<char>, cwd: Seq<char>, limit: int },
    Suggest { query: Seq<char>, cwd: Seq<char>, limit: int },
    Forget { cmdline: Seq<char> },
    Scan {
        pane: PaneId,
        generation: int,
        token_start: int,
        token_end: int,
        query: Seq<char>,
        cwd: Seq<char>,
    },
    Record { cmdline: Seq<char>, cwd: Seq<char>, exit: int, duration_ms: int },
    Copy { target: ClipboardTarget, data: Seq<u8> },
    Bell { count: int },
}

impl View for Effect {
    type V = EffectView;

    open spec fn view(&self) -> EffectView {
        match self {
            Effect::Write { pane, bytes } => EffectView::Write { pane: *pane, bytes: bytes@ },
            Effect::SendKey { pane, key, to_bottom } => EffectView::SendKey {
                pane: *pane,
                key: *key,
                to_bottom: *to_bottom,
            },
            Effect::SendMouse { pane, request } => EffectView::SendMouse {
                pane: *pane,
                request: *request,
            },
            Effect::ToBottom { pane } => EffectView::ToBottom { pane: *pane },
            Effect::Scroll { pane, lines } => EffectView::Scroll {
                pane: *pane,
                lines: *lines as int,
            },
            Effect::Edit { pane, edit, fallback } => EffectView::Edit {
                pane: *pane,
                file: edit.file@,
                contents: edit.contents@,
                keys: edit.keys@,
                fallback: fallback@,
            },
            Effect::Spawn(spawn) => EffectView::Spawn(*spawn),
            Effect::Close { pane } => EffectView::Close { pane: *pane },
            Effect::Resize { pane, rows, cols } => EffectView::Resize {
                pane: *pane,
                rows: *rows as int,
                cols: *cols as int,
            },
            Effect::Search { query, cwd, limit } => EffectView::Search {
                query: query@,
                cwd: cwd@,
                limit: *limit as int,
            },
            Effect::Suggest { query, cwd, limit } => EffectView::Suggest {
                query: query@,
                cwd: cwd@,
                limit: *limit as int,
            },
            Effect::Forget { cmdline } => EffectView::Forget { cmdline: cmdline@ },
            Effect::Scan { pane, generation, token_start, token_end, query, cwd } => EffectView::Scan {
                pane: *pane,
                generation: *generation as int,
                token_start: *token_start as int,
                token_end: *token_end as int,
                query: query@,
                cwd: cwd@,
            },
            Effect::Record { cmdline, cwd, exit, duration_ms } => EffectView::Record {
                cmdline: cmdline@,
                cwd: cwd@,
                exit: *exit as int,
                duration_ms: *duration_ms as int,
            },
            Effect::Copy { target, data } => EffectView::Copy { target: *target, data: data@ },
            Effect::Bell { count } => EffectView::Bell { count: *count as int },
        }
    }
}

/// What a list of effects says.
pub open spec fn effects_view(list: Seq<Effect>) -> Seq<EffectView> {
    Seq::new(list.len(), |i: int| list[i]@)
}

/// Nothing to do.
pub open spec fn no_effects() -> Seq<EffectView> {
    Seq::empty()
}

/// An empty list of effects.
pub fn nothing() -> (r: Vec<Effect>)
    ensures
        effects_view(r@) == no_effects(),
{
    let r: Vec<Effect> = Vec::new();
    assert(effects_view(r@) =~= no_effects());
    r
}

/// A list of one effect.
pub fn just(effect: Effect) -> (r: Vec<Effect>)
    ensures
        effects_view(r@) == seq![effect@],
{
    let mut r: Vec<Effect> = Vec::new();
    r.push(effect);
    assert(effects_view(r@) =~= seq![effect@]);
    r
}

/// A list of two effects.
pub fn both(first: Effect, second: Effect) -> (r: Vec<Effect>)
    ensures
        effects_view(r@) == seq![first@, second@],
{
    let mut r: Vec<Effect> = Vec::new();
    r.push(first);
    r.push(second);
    assert(effects_view(r@) =~= seq![first@, second@]);
    r
}

/// The place of a pane in the list; the end where it is not there.
pub open spec fn pane_index(panes: Seq<Pane>, id: PaneId) -> int
    decreases panes.len(),
{
    if panes.len() == 0 || panes[0].id == id {
        0
    } else {
        1 + pane_index(panes.skip(1), id)
    }
}

/// Whether there is a pane.
pub open spec fn has_pane(panes: Seq<Pane>, id: PaneId) -> bool {
    pane_index(panes, id) < panes.len()
}

/// What `pane_index` gives.
pub proof fn pane_index_is_first(panes: Seq<Pane>, id: PaneId)
    ensures
        0 <= pane_index(panes, id) <= panes.len(),
        forall|j: int| 0 <= j < pane_index(panes, id) ==> (#[trigger] panes[j]).id != id,
        pane_index(panes, id) < panes.len() ==> panes[pane_index(panes, id)].id == id,
    decreases panes.len(),
{
    if panes.len() > 0 && panes[0].id != id {
        pane_index_is_first(panes.skip(1), id);
        assert forall|j: int| 0 <= j < pane_index(panes, id) implies (#[trigger] panes[j]).id
            != id by {
            if j > 0 {
                assert(panes.skip(1)[j - 1] == panes[j]);
            }
        }
    }
}

/// Whether there is a pane.
pub proof fn has_pane_iff(panes: Seq<Pane>, id: PaneId)
    ensures
        has_pane(panes, id) <==> exists|i: int| 0 <= i < panes.len() && (#[trigger] panes[i]).id == id,
{
    pane_index_is_first(panes, id);
}

/// A place with these properties is the one that `pane_index` gives.
pub proof fn first_is_pane_index(panes: Seq<Pane>, id: PaneId, i: int)
    requires
        0 <= i <= panes.len(),
        forall|j: int| 0 <= j < i ==> (#[trigger] panes[j]).id != id,
        i < panes.len() ==> panes[i].id == id,
    ensures
        pane_index(panes, id) == i,
{
    pane_index_is_first(panes, id);
    if pane_index(panes, id) < i {
        assert(panes[pane_index(panes, id)].id != id);
    } else if i < pane_index(panes, id) {
        assert(panes[i].id != id);
    }
}

/// The place of a pane in the list.
pub fn find_pane(panes: &Vec<Pane>, id: PaneId) -> (r: Option<usize>)
    ensures
        match r {
            Some(i) => i == pane_index(panes@, id) && i < panes@.len() && panes@[i as int].id == id,
            None => !has_pane(panes@, id),
        },
{
    let mut i: usize = 0;
    while i < panes.len()
        invariant
            i <= panes@.len(),
            forall|j: int| 0 <= j < i ==> (#[trigger] panes@[j]).id != id,
        decreases panes@.len() - i,
    {
        if panes[i].id == id {
            proof {
                first_is_pane_index(panes@, id, i as int);
            }
            return Some(i);
        }
        i = i + 1;
    }
    proof {
        first_is_pane_index(panes@, id, i as int);
    }
    None
}

/// A tab whose panes are all different.
pub open spec fn tab_wf(tab: Tab) -> bool {
    &&& layout::leaves_of(tab.layout).no_duplicates()
    &&& layout::ratios_wf(tab.layout)
}

/// Whether a tab has a pane.
pub open spec fn tab_has(tab: Tab, id: PaneId) -> bool {
    layout::leaves_of(tab.layout).contains(id)
}

/// Whether some tab has a pane.
pub open spec fn in_tabs(tabs: Seq<Tab>, id: PaneId) -> bool {
    exists|i: int| 0 <= i < tabs.len() && tab_has(#[trigger] tabs[i], id)
}

/// No two tabs share a pane.
pub open spec fn tabs_apart(tabs: Seq<Tab>) -> bool {
    forall|i: int, j: int, id: PaneId|
        0 <= i < j < tabs.len() && #[trigger] tab_has(tabs[i], id) ==> !#[trigger] tab_has(
            tabs[j],
            id,
        )
}

/// A list of menu entries with one of them under the pointer.
pub open spec fn menu_wf(menu: ContextMenu) -> bool {
    &&& menu.rect.wf()
    &&& menu.hovered < menu.items@.len()
}

pub open spec fn confirm_wf(dialog: ConfirmDialog) -> bool {
    &&& dialog.rect.wf()
    &&& dialog.selected < CONFIRM_OPTIONS
}

/// A result is selected, if there are any.
pub open spec fn palette_wf(palette: Palette) -> bool {
    &&& palette.rect.wf()
    &&& palette.selected < palette.results@.len() || palette.selected == 0
}

/// A match is selected, and no more matches are scrolled out of sight than there are.
pub open spec fn suggest_wf(suggest: Suggest) -> bool {
    &&& suggest.selected < suggest.matches@.len()
    &&& suggest.offset <= suggest.matches@.len()
}

pub open spec fn pane_wf(pane: Pane) -> bool {
    &&& pane.report.screen.wf()
    &&& pane.input.wf()
}

impl App {
    /// The tabs and the panes go together: every pane is in one tab, every pane of a tab is there,
    /// and numbers that were given out are not given out again. There is a tab, one of which is
    /// active, until the program ends.
    pub open spec fn session_wf(&self) -> bool {
        &&& self.tabs@.len() == 0 ==> self.should_quit
        &&& self.tabs@.len() > 0 ==> self.active_tab < self.tabs@.len()
        &&& forall|i: int| 0 <= i < self.tabs@.len() ==> tab_wf(#[trigger] self.tabs@[i])
        &&& tabs_apart(self.tabs@)
        &&& forall|i: int, j: int|
            0 <= i < j < self.panes@.len() ==> (#[trigger] self.panes@[i]).id != (
            #[trigger] self.panes@[j]).id
        &&& forall|i: int|
            0 <= i < self.panes@.len() ==> in_tabs(
                self.tabs@,
                (#[trigger] self.panes@[i]).id,
            ) && self.panes@[i].id.0 < self.next_pane
        &&& forall|i: int, id: PaneId|
            0 <= i < self.tabs@.len() && #[trigger] tab_has(self.tabs@[i], id) ==> has_pane(
                self.panes@,
                id,
            )
    }

    /// The focus of every tab is one of its panes.
    pub open spec fn focus_wf(&self) -> bool {
        forall|i: int|
            0 <= i < self.tabs@.len() ==> tab_has(
                #[trigger] self.tabs@[i],
                self.tabs@[i].focus,
            )
    }

    /// The screens and the input lines of the panes are sound.
    pub open spec fn panes_wf(&self) -> bool {
        forall|i: int| 0 <= i < self.panes@.len() ==> pane_wf(#[trigger] self.panes@[i])
    }

    /// What was laid out last lies on the screen, and what is selected in a popup is there.
    pub open spec fn display_wf(&self) -> bool {
        &&& self.screen.wf()
        &&& forall|i: int| 0 <= i < self.areas@.len() ==> (#[trigger] self.areas@[i]).1.wf()
        &&& forall|i: int|
            0 <= i < self.inner_areas@.len() ==> (#[trigger] self.inner_areas@[i]).1.wf()
        &&& forall|i: int|
            0 <= i < self.dividers@.len() ==> (#[trigger] self.dividers@[i]).line.wf()
        &&& forall|i: int|
            0 <= i < self.status_segs@.len() ==> (#[trigger] self.status_segs@[i]).x + (
            self.status_segs@[i].text@.len() % 65536) <= 0xffff
        &&& self.menu is Some ==> menu_wf(self.menu->0)
        &&& self.confirm is Some ==> confirm_wf(self.confirm->0)
        &&& self.palette is Some ==> palette_wf(self.palette->0)
        &&& self.mention is Some ==> self.mention->0.wf()
        &&& self.suggest is Some ==> suggest_wf(self.suggest->0)
        &&& self.mention_rect is Some ==> self.mention_rect->0.wf()
        &&& self.suggest_rect is Some ==> self.suggest_rect->0.wf()
    }

    pub open spec fn wf(&self) -> bool {
        &&& self.session_wf()
        &&& self.panes_wf()
        &&& self.display_wf()
    }

    /// The pane with the focus in the active tab.
    pub open spec fn focus(&self) -> PaneId {
        self.tabs@[self.active_tab as int].focus
    }

    /// The pane with an identity.
    pub open spec fn pane(&self, id: PaneId) -> Pane {
        self.panes@[pane_index(self.panes@, id)]
    }
}

} // verus!
