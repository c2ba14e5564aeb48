//! Panes and tabs: laying them out, opening and closing them, and moving the focus.

use crate::app;
use crate::app::{
    App, Effect, EffectView, Pane, PaneReport, SpawnFor, StatusKind, StatusSeg, Tab,
};
use crate::config::Config;
use crate::confirm;
use crate::confirm::open_confirm;
use crate::geometry;
use crate::geometry::Rect;
use crate::input_line::InputState;
use crate::layout;
use crate::layout::{remove_pane, Divider, Layout, PaneId, SplitDir, SplitId};
use crate::osc::{OscScanner, ScanMode};
use crate::shell::ShellIntegration;
use crate::text;
use vstd::prelude::*;

verus! {

/// The columns and rows of a pane: at least two of each.
pub open spec fn dims_in(inner: Rect) -> (int, int) {
    (geometry::max_of(inner.width as int, 2), geometry::max_of(inner.height as int, 2))
}

/// The columns and rows of a pane.
pub fn grid_dims(inner: Rect) -> (r: (u16, u16))
    ensures
        (r.0 as int, r.1 as int) == dims_in(inner),
{
    (geometry::max_u16(inner.width, 2), geometry::max_u16(inner.height, 2))
}

/// So many blanks.
pub open spec fn blanks(n: int) -> Seq<char> {
    Seq::new(
        if n < 0 {
            0
        } else {
            n as nat
        },
        |i: int| ' ',
    )
}

/// The label of a tab: a blank, its name, and blanks up to the least width, two at least.
pub open spec fn label_of(name: Seq<char>, min_w: int) -> Seq<char> {
    seq![' '] + name + blanks(geometry::max_of(min_w, name.len() as int + 2) - name.len())
}

/// The label of a tab.
pub fn tab_label(name: &str, min_w: u16) -> (r: String)
    ensures
        r@ == label_of(name@, min_w as int),
{
    let mut chars = text::chars_of(name);
    let n: usize = chars.len();
    let least: usize = min_w as usize;
    let pad: usize = if least > n && least - n > 2 {
        least - n
    } else {
        2
    };
    let mut out: Vec<char> = Vec::new();
    out.push(' ');
    out.append(&mut chars);
    let ghost named = out@;
    let mut i: usize = 0;
    assert(named + blanks(0) =~= named);
    while i < pad
        invariant
            i <= pad,
            out@ == named + blanks(i as int),
        decreases pad - i,
    {
        out.push(' ');
        i = i + 1;
        assert(out@ =~= named + blanks(i as int));
    }
    assert(out@ =~= label_of(name@, min_w as int));
    text::string_of(&out)
}

/// What a part of the tab bar is.
pub struct SegView {
    pub x: int,
    pub text: Seq<char>,
    pub kind: StatusKind,
    pub active: bool,
}

pub open spec fn seg_view(seg: StatusSeg) -> SegView {
    SegView { x: seg.x as int, text: seg.text@, kind: seg.kind, active: seg.active }
}

pub open spec fn segs_view(segs: Seq<StatusSeg>) -> Seq<SegView> {
    Seq::new(segs.len(), |i: int| seg_view(segs[i]))
}

/// The columns that a label is taken to have: its length without the high bits.
pub open spec fn label_width(name: Seq<char>, min_w: int) -> int {
    label_of(name, min_w).len() as int % 65536
}

/// The parts of the tab bar from the `i`-th tab on, at column `x`: the tabs, with a free column
/// behind each, as long as there is room, then the button for a new tab, if there is room for it.
pub open spec fn segs_from(
    tabs: Seq<Tab>,
    active_tab: int,
    width: int,
    min_w: int,
    i: int,
    x: int,
) -> Seq<SegView>
    decreases tabs.len() - i,
{
    if 0 <= i < tabs.len() && x + label_width(tabs[i].name@, min_w) + 1 <= width {
        seq![
            SegView {
                x,
                text: label_of(tabs[i].name@, min_w),
                kind: StatusKind::Switch(i as usize),
                active: i == active_tab,
            },
        ] + segs_from(
            tabs,
            active_tab,
            width,
            min_w,
            i + 1,
            x + label_width(tabs[i].name@, min_w) + 1,
        )
    } else if x + 3 <= width {
        seq![SegView { x, text: " + "@, kind: StatusKind::NewTab, active: false }]
    } else {
        Seq::empty()
    }
}

/// The parts of the tab bar.
pub fn build_status_segs(tabs: &[Tab], active_tab: usize, width: u16, min_w: u16) -> (r: Vec<
    StatusSeg,
>)
    ensures
        segs_view(r@) == segs_from(
            tabs@,
            active_tab as int,
            width as int,
            min_w as int,
            0,
            0,
        ),
        forall|i: int|
            0 <= i < r@.len() ==> (#[trigger] r@[i]).x + (r@[i].text@.len() % 65536) <= 0xffff,
{
    let ghost all = segs_from(tabs@, active_tab as int, width as int, min_w as int, 0, 0);
    let mut segs: Vec<StatusSeg> = Vec::new();
    let mut x: u16 = 0;
    let mut i: usize = 0;
    assert(segs_view(segs@) + all =~= all);
    while i < tabs.len()
        invariant
            i <= tabs@.len(),
            x <= width,
            segs_view(segs@) + segs_from(
                tabs@,
                active_tab as int,
                width as int,
                min_w as int,
                i as int,
                x as int,
            ) == all,
            forall|k: int|
                0 <= k < segs@.len() ==> (#[trigger] segs@[k]).x + (segs@[k].text@.len() % 65536)
                    <= 0xffff,
        ensures
            x <= width,
            segs_view(segs@) + (if x + 3 <= width {
                seq![
                    SegView { x: x as int, text: " + "@, kind: StatusKind::NewTab, active: false },
                ]
            } else {
                Seq::empty()
            }) == all,
            forall|k: int|
                0 <= k < segs@.len() ==> (#[trigger] segs@[k]).x + (segs@[k].text@.len() % 65536)
                    <= 0xffff,
        decreases tabs@.len() - i,
    {
        let label = tab_label(tabs[i].name.as_str(), min_w);
        let chars = text::chars_of(label.as_str());
        let lw: u32 = (chars.len() % 65536) as u32;
        assert(lw == label_width(tabs@[i as int].name@, min_w as int));
        if x as u32 + lw + 1 > width as u32 {
            break;
        }
        let ghost before = segs_view(segs@);
        let seg = StatusSeg {
            x,
            text: label,
            kind: StatusKind::Switch(i),
            active: i == active_tab,
        };
        let ghost view = seg_view(seg);
        segs.push(seg);
        assert(segs_view(segs@) =~= before.push(view));
        x = (x as u32 + lw + 1) as u16;
        i = i + 1;
        let ghost rest = segs_from(
            tabs@,
            active_tab as int,
            width as int,
            min_w as int,
            i as int,
            x as int,
        );
        assert(before.push(view) + rest =~= before + (seq![view] + rest));
    }
    if x as u32 + 3 <= width as u32 {
        let ghost before = segs_view(segs@);
        let seg = StatusSeg {
            x,
            text: " + ".to_string(),
            kind: StatusKind::NewTab,
            active: false,
        };
        proof {
            reveal_strlit(" + ");
        }
        let ghost view = seg_view(seg);
        segs.push(seg);
        assert(segs_view(segs@) =~= before + seq![view]);
    } else {
        assert(segs_view(segs@) + Seq::<SegView>::empty() =~= segs_view(segs@));
    }
    segs
}

/// The parts of the tab bar stand one behind the other, and end where the screen ends.
pub proof fn tab_bar_fits(
    tabs: Seq<Tab>,
    active_tab: int,
    width: int,
    min_w: int,
    i: int,
    x: int,
)
    requires
        0 <= x,
        0 <= i,
        forall|k: int|
            0 <= k < tabs.len() ==> label_of((#[trigger] tabs[k]).name@, min_w).len() < 65536,
    ensures
        ({
            let segs = segs_from(tabs, active_tab, width, min_w, i, x);
            &&& forall|a: int|
                0 <= a < segs.len() ==> x <= (#[trigger] segs[a]).x && segs[a].x
                    + segs[a].text.len() <= width
            &&& forall|a: int, b: int|
                0 <= a < b < segs.len() ==> (#[trigger] segs[a]).x + segs[a].text.len() < (
                #[trigger] segs[b]).x
        }),
    decreases tabs.len() - i,
{
    let segs = segs_from(tabs, active_tab, width, min_w, i, x);
    if i < tabs.len() && x + label_width(tabs[i].name@, min_w) + 1 <= width {
        let next = x + label_width(tabs[i].name@, min_w) + 1;
        tab_bar_fits(tabs, active_tab, width, min_w, i + 1, next);
        let rest = segs_from(tabs, active_tab, width, min_w, i + 1, next);
        assert(label_of(tabs[i].name@, min_w).len() < 65536);
        assert forall|a: int| 0 <= a < segs.len() implies x <= (#[trigger] segs[a]).x && segs[a].x
            + segs[a].text.len() <= width by {
            if a > 0 {
                assert(segs[a] == rest[a - 1]);
            }
        }
        assert forall|a: int, b: int| 0 <= a < b < segs.len() implies (#[trigger] segs[a]).x
            + segs[a].text.len() < (#[trigger] segs[b]).x by {
            assert(segs[b] == rest[b - 1]);
            if a > 0 {
                assert(segs[a] == rest[a - 1]);
            }
        }
    } else {
        reveal_strlit(" + ");
    }
}

/// The part of the screen below the tab bar, which has two rows.
pub open spec fn content_area(area: Rect) -> Rect {
    Rect::at(
        area.x as int,
        area.y + 2,
        area.width as int,
        geometry::minus(area.height as int, 2),
    )
}

/// The area of a pane inside its border. A pane that is alone has none.
pub open spec fn inner_rects(areas: Seq<(PaneId, Rect)>) -> Seq<(PaneId, Rect)> {
    Seq::new(
        areas.len(),
        |i: int|
            (
                areas[i].0,
                if areas.len() == 1 {
                    areas[i].1
                } else {
                    geometry::inner_area(areas[i].1)
                },
            ),
    )
}

/// The sizes of the panes in the first `n` areas.
pub open spec fn resizes(
    panes: Seq<Pane>,
    inner: Seq<(PaneId, Rect)>,
    n: int,
) -> Seq<EffectView>
    decreases n,
{
    if n <= 0 {
        Seq::empty()
    } else {
        let before = resizes(panes, inner, n - 1);
        let (id, rect) = inner[n - 1];
        if app::has_pane(panes, id) {
            before.push(
                EffectView::Resize { pane: id, rows: dims_in(rect).1, cols: dims_in(rect).0 },
            )
        } else {
            before
        }
    }
}

/// The dividers of a tree lie in the coordinate range.
proof fn dividers_wf(tree: Layout, area: Rect)
    requires
        area.wf(),
        layout::ratios_wf(tree),
    ensures
        forall|i: int|
            0 <= i < layout::dividers_of(tree, area).len() ==> (#[trigger] layout::dividers_of(
                tree,
                area,
            )[i]).line.wf(),
    decreases tree,
{
    match tree {
        Layout::Leaf(_) => {},
        Layout::Split { id, dir, ratio, first, second } => {
            let extent = layout::extent_along(area, dir);
            if extent < 2 {
                dividers_wf(*first, area);
            } else {
                let cells = crate::ratio::share_of(extent, ratio);
                let fa = layout::first_part(area, dir, cells);
                let sa = layout::second_part(area, dir, cells);
                dividers_wf(*first, fa);
                dividers_wf(*second, sa);
                let head = seq![
                    Divider {
                        id,
                        dir,
                        bounds: area,
                        line: layout::divider_line(area, dir, cells),
                    },
                ];
                let a = layout::dividers_of(*first, fa);
                let b = layout::dividers_of(*second, sa);
                let all = layout::dividers_of(tree, area);
                assert(all == head + a + b);
                assert(head[0].line.wf());
                assert forall|i: int| 0 <= i < all.len() implies (#[trigger] all[i]).line.wf() by {
                    if i == 0 {
                        assert(all[i] == head[0]);
                    } else if i < 1 + a.len() {
                        assert(all[i] == a[i - 1]);
                    } else {
                        assert(all[i] == b[i - 1 - a.len()]);
                    }
                }
            }
        },
    }
}

/// Whether the layout is that of the active tab for the screen `area`.
pub open spec fn laid_out(pre: App, area: Rect, post: App) -> bool {
    let tree = pre.tabs@[pre.active_tab as int].layout;
    &&& post.areas@ == layout::placements(tree, content_area(area))
    &&& post.inner_areas@ == inner_rects(layout::placements(tree, content_area(area)))
    &&& post.dividers@ == layout::dividers_of(tree, content_area(area))
    &&& segs_view(post.status_segs@) == segs_from(
        pre.tabs@,
        pre.active_tab as int,
        area.width as int,
        pre.cfg.tab_min_width as int,
        0,
        0,
    )
    &&& post == (App {
        screen: area,
        areas: post.areas,
        inner_areas: post.inner_areas,
        dividers: post.dividers,
        status_y: (area.y + 1) as u16,
        status_segs: post.status_segs,
        ..pre
    })
}

/// Lays the active tab out on the screen `area`, and gives its panes their sizes.
pub fn recompute(app: &mut App, area: Rect) -> (r: Vec<Effect>)
    requires
        old(app).wf(),
        old(app).active_tab < old(app).tabs@.len(),
        area.wf(),
        area.y + 2 <= geometry::MAX_COORD,
    ensures
        laid_out(*old(app), area, *final(app)),
        app::effects_view(r@) == resizes(
            old(app).panes@,
            final(app).inner_areas@,
            final(app).inner_areas@.len() as int,
        ),
        final(app).wf(),
{
    let content = Rect::new(area.x, area.y + 2, area.width, area.height.saturating_sub(2));
    let ghost tree = app.tabs@[app.active_tab as int].layout;
    proof {
        assert(app::tab_wf(app.tabs@[app.active_tab as int]));
        layout::placed_panes_are_distinct(tree, content);
        layout::fresh_areas(layout::placements(tree, content));
        layout::placements_tile_the_area(tree, content);
        dividers_wf(tree, content);
    }
    let mut areas: Vec<(PaneId, Rect)> = Vec::new();
    let mut dividers: Vec<Divider> = Vec::new();
    app.tabs[app.active_tab].layout.compute(content, &mut areas, &mut dividers);
    assert(areas@ =~= layout::placements(tree, content));
    assert(dividers@ =~= layout::dividers_of(tree, content));
    let n: usize = areas.len();
    let single = n == 1;
    let ghost all = inner_rects(areas@);
    let mut inner_areas: Vec<(PaneId, Rect)> = Vec::new();
    let mut effects: Vec<Effect> = Vec::new();
    let mut i: usize = 0;
    assert(app::effects_view(effects@) =~= Seq::empty());
    while i < n
        invariant
            i <= n,
            n == areas@.len(),
            single == (n == 1),
            all == inner_rects(areas@),
            *app == *old(app),
            forall|k: int| 0 <= k < areas@.len() ==> (#[trigger] areas@[k]).1.wf(),
            inner_areas@ == all.take(i as int),
            forall|k: int| 0 <= k < inner_areas@.len() ==> (#[trigger] inner_areas@[k]).1.wf(),
            app::effects_view(effects@) == resizes(app.panes@, all, i as int),
        decreases n - i,
    {
        let (id, rect) = areas[i];
        assert(areas@[i as int].1.wf());
        let inner = if single {
            rect
        } else {
            geometry::inner_of(rect)
        };
        inner_areas.push((id, inner));
        assert((id, inner) == all[i as int]);
        assert(inner_areas@ =~= all.take(i + 1));
        let (cols, rows) = grid_dims(inner);
        if app::find_pane(&app.panes, id).is_some() {
            let ghost before = app::effects_view(effects@);
            effects.push(Effect::Resize { pane: id, rows, cols });
            assert(app::effects_view(effects@) =~= before.push(
                EffectView::Resize { pane: id, rows: rows as int, cols: cols as int },
            ));
        }
        i = i + 1;
    }
    assert(all.take(n as int) =~= all);
    let segs = build_status_segs(&app.tabs, app.active_tab, area.width, app.cfg.tab_min_width);
    app.screen = area;
    app.areas = areas;
    app.inner_areas = inner_areas;
    app.dividers = dividers;
    app.status_y = area.y + 1;
    app.status_segs = segs;
    effects
}

/// The pane with the focus in the active tab.
pub fn active_focus(app: &App) -> (r: PaneId)
    requires
        app.active_tab < app.tabs@.len(),
    ensures
        r == app.focus(),
{
    app.tabs[app.active_tab].focus
}

/// The tabs with the focus of one of them set.
pub open spec fn tabs_with_focus(tabs: Seq<Tab>, i: int, id: PaneId) -> Seq<Tab> {
    tabs.update(i, Tab { focus: id, ..tabs[i] })
}

/// The state after the focus of the active tab went to a pane. The popup with suggestions closes
/// where that is another pane.
pub open spec fn focused(pre: App, id: PaneId, post: App) -> bool {
    &&& post.tabs@ == tabs_with_focus(pre.tabs@, pre.active_tab as int, id)
    &&& post == (App {
        tabs: post.tabs,
        suggest: if pre.focus() != id {
            None
        } else {
            pre.suggest
        },
        ..pre
    })
}

/// Gives the focus to a pane.
pub fn set_active_focus(app: &mut App, pid: PaneId)
    requires
        old(app).wf(),
        old(app).active_tab < old(app).tabs@.len(),
    ensures
        focused(*old(app), pid, *final(app)),
        final(app).wf(),
        old(app).focus_wf() && app::tab_has(old(app).tabs@[old(app).active_tab as int], pid)
            ==> final(app).focus_wf(),
{
    let ghost tabs0 = app.tabs@;
    let i: usize = app.active_tab;
    if app.tabs[i].focus != pid {
        app.suggest = None;
    }
    app.tabs[i].focus = pid;
    proof {
        same_layouts(*old(app), *app);
    }
}

/// Tabs with the same leaves go with the same panes.
pub(crate) proof fn same_layouts(pre: App, post: App)
    requires
        pre.session_wf(),
        post.tabs@.len() == pre.tabs@.len(),
        forall|k: int|
            0 <= k < pre.tabs@.len() ==> layout::leaves_of((#[trigger] post.tabs@[k]).layout)
                == layout::leaves_of(pre.tabs@[k].layout) && (layout::ratios_wf(pre.tabs@[k].layout)
                ==> layout::ratios_wf(post.tabs@[k].layout)),
        post.panes@ == pre.panes@,
        post.next_pane == pre.next_pane,
        post.tabs@.len() > 0 ==> post.active_tab < post.tabs@.len(),
        post.tabs@.len() == 0 ==> post.should_quit,
    ensures
        post.session_wf(),
{
    assert forall|k: int| 0 <= k < post.tabs@.len() implies app::tab_wf(#[trigger] post.tabs@[k]) by {
        assert(app::tab_wf(pre.tabs@[k]));
    }
    assert forall|i: int, j: int, id: PaneId|
        0 <= i < j < post.tabs@.len() && #[trigger] app::tab_has(
            post.tabs@[i],
            id,
        ) implies !#[trigger] app::tab_has(post.tabs@[j], id) by {
        assert(app::tab_has(pre.tabs@[i], id));
        assert(!app::tab_has(pre.tabs@[j], id));
    }
    assert forall|i: int| 0 <= i < post.panes@.len() implies app::in_tabs(
        post.tabs@,
        (#[trigger] post.panes@[i]).id,
    ) && post.panes@[i].id.0 < post.next_pane by {
        let id = post.panes@[i].id;
        assert(app::in_tabs(pre.tabs@, pre.panes@[i].id));
        let k = choose|k: int| 0 <= k < pre.tabs@.len() && app::tab_has(#[trigger] pre.tabs@[k], id);
        assert(app::tab_has(post.tabs@[k], id));
    }
    assert forall|i: int, id: PaneId|
        0 <= i < post.tabs@.len() && #[trigger] app::tab_has(post.tabs@[i], id) implies app::has_pane(
        post.panes@,
        id,
    ) by {
        assert(app::tab_has(pre.tabs@[i], id));
    }
}

/// The first tab with a pane; the number of tabs where none has it.
pub open spec fn tab_of(tabs: Seq<Tab>, id: PaneId) -> int
    decreases tabs.len(),
{
    if tabs.len() == 0 || app::tab_has(tabs[0], id) {
        0
    } else {
        1 + tab_of(tabs.skip(1), id)
    }
}

proof fn tab_of_is_first(tabs: Seq<Tab>, id: PaneId)
    ensures
        0 <= tab_of(tabs, id) <= tabs.len(),
        forall|j: int| 0 <= j < tab_of(tabs, id) ==> !app::tab_has(#[trigger] tabs[j], id),
        tab_of(tabs, id) < tabs.len() ==> app::tab_has(tabs[tab_of(tabs, id)], id),
        app::in_tabs(tabs, id) <==> tab_of(tabs, id) < tabs.len(),
    decreases tabs.len(),
{
    if tabs.len() > 0 && !app::tab_has(tabs[0], id) {
        let rest = tabs.skip(1);
        tab_of_is_first(rest, id);
        assert forall|j: int| 0 <= j < tab_of(tabs, id) implies !app::tab_has(
            #[trigger] tabs[j],
            id,
        ) by {
            if j > 0 {
                assert(rest[j - 1] == tabs[j]);
            }
        }
        if app::in_tabs(tabs, id) {
            let k = choose|k: int| 0 <= k < tabs.len() && app::tab_has(#[trigger] tabs[k], id);
            assert(app::tab_has(rest[k - 1], id));
        }
        if tab_of(rest, id) < rest.len() {
            assert(app::tab_has(tabs[tab_of(tabs, id)], id));
        }
    } else if tabs.len() > 0 {
        assert(app::tab_has(tabs[0], id));
    }
}

/// The tab with a pane.
pub fn tab_index_of(app: &App, pid: PaneId) -> (r: Option<usize>)
    ensures
        match r {
            Some(i) => i == tab_of(app.tabs@, pid) && i < app.tabs@.len() && app::in_tabs(
                app.tabs@,
                pid,
            ),
            None => !app::in_tabs(app.tabs@, pid),
        },
{
    let mut i: usize = 0;
    assert(app.tabs@.skip(0) =~= app.tabs@);
    proof {
        tab_of_is_first(app.tabs@, pid);
    }
    while i < app.tabs.len()
        invariant
            i <= app.tabs@.len(),
            tab_of(app.tabs@, pid) == i + tab_of(app.tabs@.skip(i as int), pid),
            app::in_tabs(app.tabs@, pid) <==> tab_of(app.tabs@, pid) < app.tabs@.len(),
        decreases app.tabs@.len() - i,
    {
        assert(app.tabs@.skip(i as int)[0] == app.tabs@[i as int]);
        if app.tabs[i].layout.contains(pid) {
            return Some(i);
        }
        assert(app.tabs@.skip(i as int).skip(1) =~= app.tabs@.skip(i + 1));
        i = i + 1;
    }
    None
}

// Opening panes.

/// A new pane in a directory, in which nothing has happened yet.
pub open spec fn is_new_pane(pane: Pane, id: PaneId, report: PaneReport, cwd: Seq<char>) -> bool {
    &&& pane.id == id
    &&& pane.report == report
    &&& pane.osc.mode() == ScanMode::Normal
    &&& pane.osc.payload().len() == 0
    &&& pane.cwd@ == cwd
    &&& pane.title@.len() == 0
    &&& pane.pending is None
    &&& pane.input.buffer@.len() == 0
    &&& pane.input.cursor == 0
    &&& pane.input.measured@.len() == 0
}

/// A new pane in a directory that is not known yet.
pub open spec fn is_fresh_pane(pane: Pane, id: PaneId, report: PaneReport) -> bool {
    is_new_pane(pane, id, report, Seq::empty())
}

/// A new pane.
pub fn fresh_pane(id: PaneId, report: PaneReport) -> (r: Pane)
    ensures
        is_fresh_pane(r, id, report),
        r.input.wf(),
{
    Pane {
        id,
        report,
        osc: OscScanner::default(),
        cwd: String::new(),
        title: String::new(),
        pending: None,
        input: InputState { buffer: String::new(), cursor: 0, measured: Vec::new() },
    }
}

/// The state at the start: one tab, named by its number, with one pane in a directory.
pub open spec fn started(
    screen: Rect,
    integ: ShellIntegration,
    cfg: Config,
    cwd: Seq<char>,
    report: PaneReport,
    post: App,
) -> bool {
    let id = PaneId(0);
    &&& post.panes@.len() == 1
    &&& is_new_pane(post.panes@[0], id, report, cwd)
    &&& post.tabs@.len() == 1
    &&& post.tabs@[0].name@ == text::decimal(1)
    &&& post.tabs@[0].layout == Layout::Leaf(id)
    &&& post.tabs@[0].focus == id
    &&& post.areas@.len() == 0
    &&& post.inner_areas@.len() == 0
    &&& post.dividers@.len() == 0
    &&& post.status_segs@.len() == 0
    &&& post == (App {
        panes: post.panes,
        tabs: post.tabs,
        active_tab: 0,
        integ,
        cfg,
        next_pane: 1,
        next_split: 0,
        next_tab: 2,
        screen,
        areas: post.areas,
        inner_areas: post.inner_areas,
        dividers: post.dividers,
        status_y: 0,
        status_segs: post.status_segs,
        dragging: None,
        selection: None,
        menu: None,
        confirm: None,
        rename: None,
        palette: None,
        mention: None,
        mention_rect: None,
        mention_generation: 0,
        suggest: None,
        suggest_rect: None,
        suggest_dismissed_for: None,
        prefix_active: false,
        should_quit: false,
    })
}

/// The state at the start.
pub fn start(
    screen: Rect,
    integ: ShellIntegration,
    cfg: Config,
    cwd: String,
    report: PaneReport,
) -> (r: App)
    requires
        screen.wf(),
        report.screen.wf(),
    ensures
        started(screen, integ, cfg, cwd@, report, r),
        r.wf(),
        r.focus_wf(),
{
    let id = PaneId(0);
    let mut pane = fresh_pane(id, report);
    pane.cwd = cwd;
    let mut panes: Vec<Pane> = Vec::new();
    panes.push(pane);
    let mut name: Vec<char> = Vec::new();
    text::push_decimal(&mut name, 1);
    assert(name@ =~= text::decimal(1));
    let mut tabs: Vec<Tab> = Vec::new();
    tabs.push(Tab { name: text::string_of(&name), layout: Layout::Leaf(id), focus: id });
    let app = App {
        panes,
        tabs,
        active_tab: 0,
        integ,
        cfg,
        next_pane: 1,
        next_split: 0,
        next_tab: 2,
        screen,
        areas: Vec::new(),
        inner_areas: Vec::new(),
        dividers: Vec::new(),
        status_y: 0,
        status_segs: Vec::new(),
        dragging: None,
        selection: None,
        menu: None,
        confirm: None,
        rename: None,
        palette: None,
        mention: None,
        mention_rect: None,
        mention_generation: 0,
        suggest: None,
        suggest_rect: None,
        suggest_dismissed_for: None,
        prefix_active: false,
        should_quit: false,
    };
    proof {
        let tree = app.tabs@[0].layout;
        assert(layout::leaves_of(tree) =~= seq![id]);
        assert(layout::leaves_of(tree)[0] == id);
        assert(app::tab_has(app.tabs@[0], id));
        app::has_pane_iff(app.panes@, id);
        assert(app.panes@[0].id == id);
        assert forall|i: int, other: PaneId|
            0 <= i < app.tabs@.len() && #[trigger] app::tab_has(
                app.tabs@[i],
                other,
            ) implies app::has_pane(app.panes@, other) by {
            assert(other == id);
        }
    }
    app
}

/// Splits a pane: a new one has to be started for it, if the pane is there.
pub fn do_split(app: &App, target: PaneId, dir: SplitDir) -> (r: Vec<Effect>)
    ensures
        app::effects_view(r@) == split_effects(app.tabs@, target, dir),
{
    if tab_index_of(app, target).is_some() {
        app::just(Effect::Spawn(SpawnFor::Split { target, dir }))
    } else {
        app::nothing()
    }
}

/// What a split asks for.
pub open spec fn split_effects(tabs: Seq<Tab>, target: PaneId, dir: SplitDir) -> Seq<EffectView> {
    if app::in_tabs(tabs, target) {
        seq![EffectView::Spawn(SpawnFor::Split { target, dir })]
    } else {
        app::no_effects()
    }
}

/// Opens a tab: a pane has to be started for it.
pub fn new_tab() -> (r: Vec<Effect>)
    ensures
        app::effects_view(r@) == seq![EffectView::Spawn(SpawnFor::Tab)],
{
    app::just(Effect::Spawn(SpawnFor::Tab))
}

/// The state after a pane was started. A pane for a split goes next to the pane that was split, a
/// pane for a tab into a new tab, named by a number; either gets the focus.
pub open spec fn spawned(pre: App, purpose: SpawnFor, report: PaneReport, post: App) -> bool {
    let id = PaneId(pre.next_pane);
    &&& post.panes@.len() == pre.panes@.len() + 1
    &&& post.panes@.drop_last() == pre.panes@
    &&& is_fresh_pane(post.panes@.last(), id, report)
    &&& match purpose {
        SpawnFor::Split { target, dir } => {
            let ti = tab_of(pre.tabs@, target);
            &&& post.tabs@ == pre.tabs@.update(
                ti,
                Tab {
                    layout: layout::with_split(
                        pre.tabs@[ti].layout,
                        target,
                        SplitId(pre.next_split),
                        dir,
                        id,
                    ),
                    focus: id,
                    ..pre.tabs@[ti]
                },
            )
            &&& post == (App {
                panes: post.panes,
                tabs: post.tabs,
                next_pane: (pre.next_pane + 1) as u64,
                next_split: (pre.next_split + 1) as u64,
                ..pre
            })
        },
        SpawnFor::Tab => {
            &&& post.tabs@.len() == pre.tabs@.len() + 1
            &&& post.tabs@.drop_last() == pre.tabs@
            &&& post.tabs@.last().name@ == text::decimal(pre.next_tab as int)
            &&& post.tabs@.last().layout == Layout::Leaf(id)
            &&& post.tabs@.last().focus == id
            &&& post == (App {
                panes: post.panes,
                tabs: post.tabs,
                active_tab: pre.tabs@.len() as usize,
                next_pane: (pre.next_pane + 1) as u64,
                next_tab: (pre.next_tab + 1) as u64,
                ..pre
            })
        },
    }
}

/// The identity of the next pane is not taken.
proof fn next_pane_is_new(app: App)
    requires
        app.session_wf(),
    ensures
        !app::has_pane(app.panes@, PaneId(app.next_pane)),
        !app::in_tabs(app.tabs@, PaneId(app.next_pane)),
{
    let id = PaneId(app.next_pane);
    app::has_pane_iff(app.panes@, id);
    if app::in_tabs(app.tabs@, id) {
        let k = choose|k: int| 0 <= k < app.tabs@.len() && app::tab_has(#[trigger] app.tabs@[k], id);
        assert(app::has_pane(app.panes@, id));
    }
}

/// A new pane in one of the tabs keeps tabs and panes together.
proof fn opening_keeps_session(pre: App, post: App, at: int)
    requires
        pre.session_wf(),
        pre.next_pane < u64::MAX,
        post.next_pane == pre.next_pane + 1,
        post.panes@.len() == pre.panes@.len() + 1,
        post.panes@.drop_last() == pre.panes@,
        post.panes@.last().id == PaneId(pre.next_pane),
        0 <= at < post.tabs@.len(),
        pre.tabs@.len() <= post.tabs@.len(),
        at == pre.tabs@.len() || at < pre.tabs@.len(),
        post.tabs@.len() == (if at == pre.tabs@.len() {
            pre.tabs@.len() + 1
        } else {
            pre.tabs@.len()
        }),
        forall|k: int|
            0 <= k < pre.tabs@.len() && k != at ==> (#[trigger] post.tabs@[k]).layout
                == pre.tabs@[k].layout,
        app::tab_wf(post.tabs@[at]),
        forall|id: PaneId| #[trigger]
            app::tab_has(post.tabs@[at], id) <==> id == PaneId(pre.next_pane) || (at
                < pre.tabs@.len() && app::tab_has(pre.tabs@[at], id)),
        post.active_tab < post.tabs@.len(),
    ensures
        post.session_wf(),
{
    let new = PaneId(pre.next_pane);
    next_pane_is_new(pre);
    let n = pre.tabs@.len();
    assert forall|k: int| 0 <= k < post.tabs@.len() implies app::tab_wf(#[trigger] post.tabs@[k]) by {
        if k != at {
            assert(app::tab_wf(pre.tabs@[k]));
        }
    }
    assert forall|k: int, id: PaneId|
        0 <= k < n && k != at && #[trigger] app::tab_has(post.tabs@[k], id) implies app::tab_has(
        pre.tabs@[k],
        id,
    ) && id != new by {
        assert(app::tab_has(pre.tabs@[k], id));
        if id == new {
            assert(app::in_tabs(pre.tabs@, new));
        }
    }
    assert forall|i: int, j: int, id: PaneId|
        0 <= i < j < post.tabs@.len() && #[trigger] app::tab_has(
            post.tabs@[i],
            id,
        ) implies !#[trigger] app::tab_has(post.tabs@[j], id) by {
        if app::tab_has(post.tabs@[j], id) {
            if i == at {
                assert(app::tab_has(pre.tabs@[j], id) && id != new);
                assert(app::tab_has(pre.tabs@[i], id));
            } else if j == at {
                assert(app::tab_has(pre.tabs@[i], id) && id != new);
                assert(app::tab_has(pre.tabs@[j], id));
            } else {
                assert(app::tab_has(pre.tabs@[i], id));
                assert(app::tab_has(pre.tabs@[j], id));
            }
        }
    }
    assert forall|i: int, j: int| 0 <= i < j < post.panes@.len() implies (
    #[trigger] post.panes@[i]).id != (#[trigger] post.panes@[j]).id by {
        assert(post.panes@[i] == post.panes@.drop_last()[i]);
        if j < pre.panes@.len() {
            assert(post.panes@[j] == post.panes@.drop_last()[j]);
        }
    }
    assert forall|i: int| 0 <= i < post.panes@.len() implies app::in_tabs(
        post.tabs@,
        (#[trigger] post.panes@[i]).id,
    ) && post.panes@[i].id.0 < post.next_pane by {
        let id = post.panes@[i].id;
        if i < pre.panes@.len() {
            assert(post.panes@[i] == post.panes@.drop_last()[i]);
            assert(app::in_tabs(pre.tabs@, pre.panes@[i].id));
            let k = choose|k: int|
                0 <= k < pre.tabs@.len() && app::tab_has(#[trigger] pre.tabs@[k], id);
            assert(app::tab_has(post.tabs@[k], id));
        } else {
            assert(app::tab_has(post.tabs@[at], id));
        }
    }
    assert forall|i: int, id: PaneId|
        0 <= i < post.tabs@.len() && #[trigger] app::tab_has(post.tabs@[i], id) implies app::has_pane(
        post.panes@,
        id,
    ) by {
        app::has_pane_iff(post.panes@, id);
        if id == new {
            assert(post.panes@[post.panes@.len() - 1].id == id);
        } else {
            assert(app::tab_has(pre.tabs@[i], id));
            app::has_pane_iff(pre.panes@, id);
            let k = choose|k: int| 0 <= k < pre.panes@.len() && (#[trigger] pre.panes@[k]).id == id;
            assert(post.panes@[k] == post.panes@.drop_last()[k]);
        }
    }
}

/// A sequence with one element put in.
proof fn inserted(s: Seq<PaneId>, k: int, new: PaneId)
    requires
        0 <= k <= s.len(),
        s.no_duplicates(),
        !s.contains(new),
    ensures
        s.insert(k, new).no_duplicates(),
        forall|x: PaneId| #[trigger] s.insert(k, new).contains(x) <==> x == new || s.contains(x),
{
    let t = s.insert(k, new);
    assert forall|x: PaneId| #[trigger] t.contains(x) <==> x == new || s.contains(x) by {
        if t.contains(x) && x != new {
            let i = choose|i: int| 0 <= i < t.len() && t[i] == x;
            if i < k {
                assert(s[i] == x);
            } else {
                assert(s[i - 1] == x);
            }
        }
        if x == new {
            assert(t[k] == x);
        }
        if s.contains(x) {
            let i = choose|i: int| 0 <= i < s.len() && s[i] == x;
            if i < k {
                assert(t[i] == x);
            } else {
                assert(t[i + 1] == x);
            }
        }
    }
    assert forall|i: int, j: int|
        0 <= i < t.len() && 0 <= j < t.len() && i != j implies t[i] != t[j] by {
        let a = if i < k {
            i
        } else {
            i - 1
        };
        let b = if j < k {
            j
        } else {
            j - 1
        };
        if i == k {
            assert(t[j] == s[b]);
            assert(s.contains(s[b]));
        } else if j == k {
            assert(t[i] == s[a]);
            assert(s.contains(s[a]));
        } else {
            assert(t[i] == s[a] && t[j] == s[b]);
        }
    }
}

/// Takes up a pane that was started. Tells whether it was: the pane to split may be gone.
pub fn finish_spawn(app: &mut App, purpose: SpawnFor, report: PaneReport) -> (r: bool)
    requires
        old(app).wf(),
        old(app).next_pane < u64::MAX,
        old(app).next_split < u64::MAX,
        old(app).next_tab < u64::MAX,
        report.screen.wf(),
    ensures
        r == (purpose matches SpawnFor::Split { target, dir } ==> app::in_tabs(
            old(app).tabs@,
            target,
        )),
        r ==> spawned(*old(app), purpose, report, *final(app)),
        !r ==> *final(app) == *old(app),
        final(app).wf(),
        old(app).focus_wf() ==> final(app).focus_wf(),
{
    let id = PaneId(app.next_pane);
    let ghost pre = *app;
    match purpose {
        SpawnFor::Split { target, dir } => {
            let ti: usize = match tab_index_of(app, target) {
                Some(ti) => ti,
                None => return false,
            };
            let ghost tree = app.tabs@[ti as int].layout;
            proof {
                tab_of_is_first(app.tabs@, target);
                next_pane_is_new(*app);
                assert(app::tab_wf(app.tabs@[ti as int]));
                if layout::leaves_of(tree).contains(id) {
                    assert(app::tab_has(app.tabs@[ti as int], id));
                    assert(app::in_tabs(app.tabs@, id));
                }
                layout::split_adds_one_leaf(tree, target, SplitId(app.next_split), dir, id);
                let leaves = layout::leaves_of(tree);
                let k = choose|k: int| #![trigger leaves[k]]
                    0 <= k < leaves.len() && leaves[k] == target && layout::leaves_of(
                        layout::with_split(tree, target, SplitId(app.next_split), dir, id),
                    ) == leaves.insert(k + 1, id);
                inserted(leaves, k + 1, id);
            }
            let sid = SplitId(app.next_split);
            app.next_pane = app.next_pane + 1;
            app.panes.push(fresh_pane(id, report));
            app.next_split = app.next_split + 1;
            app.tabs[ti].layout.split_leaf(target, sid, dir, id);
            app.tabs[ti].focus = id;
            proof {
                assert(app.panes@.drop_last() =~= pre.panes@);
                assert(app.tabs@ =~= pre.tabs@.update(ti as int, app.tabs@[ti as int]));
                opening_keeps_session(pre, *app, ti as int);
                panes_wf_grows(pre, *app);
                if pre.focus_wf() {
                    assert forall|k: int| 0 <= k < app.tabs@.len() implies app::tab_has(
                        #[trigger] app.tabs@[k],
                        app.tabs@[k].focus,
                    ) by {
                        if k != ti {
                            assert(app.tabs@[k] == pre.tabs@[k]);
                        }
                    }
                }
            }
        },
        SpawnFor::Tab => {
            let mut name: Vec<char> = Vec::new();
            text::push_decimal(&mut name, app.next_tab);
            assert(name@ =~= text::decimal(app.next_tab as int));
            let name = text::string_of(&name);
            app.next_pane = app.next_pane + 1;
            app.panes.push(fresh_pane(id, report));
            app.next_tab = app.next_tab + 1;
            let n: usize = app.tabs.len();
            app.tabs.push(Tab { name, layout: Layout::Leaf(id), focus: id });
            app.active_tab = n;
            proof {
                assert(app.panes@.drop_last() =~= pre.panes@);
                assert(app.tabs@.drop_last() =~= pre.tabs@);
                let leaves = layout::leaves_of(app.tabs@[n as int].layout);
                assert(leaves =~= seq![id]);
                assert(leaves[0] == id);
                assert(leaves.no_duplicates());
                opening_keeps_session(pre, *app, n as int);
                panes_wf_grows(pre, *app);
                if pre.focus_wf() {
                    assert forall|k: int| 0 <= k < app.tabs@.len() implies app::tab_has(
                        #[trigger] app.tabs@[k],
                        app.tabs@[k].focus,
                    ) by {
                        if k != n {
                            assert(app.tabs@[k] == pre.tabs@[k]);
                        }
                    }
                }
            }
        },
    }
    true
}

proof fn panes_wf_grows(pre: App, post: App)
    requires
        pre.panes_wf(),
        post.panes@.len() == pre.panes@.len() + 1,
        post.panes@.drop_last() == pre.panes@,
        app::pane_wf(post.panes@.last()),
    ensures
        post.panes_wf(),
{
    assert forall|i: int| 0 <= i < post.panes@.len() implies app::pane_wf(
        #[trigger] post.panes@[i],
    ) by {
        if i < pre.panes@.len() {
            assert(post.panes@[i] == post.panes@.drop_last()[i]);
            assert(app::pane_wf(pre.panes@[i]));
        }
    }
}

// Closing panes.

/// What taking a pane out leaves of the panes.
pub open spec fn panes_without(panes: Seq<Pane>, id: PaneId) -> Seq<Pane> {
    if app::has_pane(panes, id) {
        panes.remove(app::pane_index(panes, id))
    } else {
        panes
    }
}

/// That a pane is gone, if it was there.
pub open spec fn close_effects(panes: Seq<Pane>, id: PaneId) -> Seq<EffectView> {
    if app::has_pane(panes, id) {
        seq![EffectView::Close { pane: id }]
    } else {
        app::no_effects()
    }
}

/// The active tab once there are `count` tabs.
pub open spec fn active_among(active_tab: int, count: int) -> int {
    if count > 0 && active_tab >= count {
        count - 1
    } else {
        active_tab
    }
}

/// The state after a pane was closed: its tab loses it, and the focus goes to the first pane of the
/// tab where the pane had it. A tab without panes goes too, and without tabs the program ends.
pub open spec fn closed(pre: App, id: PaneId, post: App) -> bool {
    let ti = tab_of(pre.tabs@, id);
    let tab = pre.tabs@[ti];
    &&& post.panes@ == panes_without(pre.panes@, id)
    &&& if ti < pre.tabs@.len() {
        match layout::without(tab.layout, id) {
            Some(rest) => {
                &&& post.tabs@ == pre.tabs@.update(
                    ti,
                    Tab {
                        layout: rest,
                        focus: if tab.focus == id {
                            layout::leaves_of(rest)[0]
                        } else {
                            tab.focus
                        },
                        ..tab
                    },
                )
                &&& post == (App { panes: post.panes, tabs: post.tabs, ..pre })
            },
            None => {
                &&& post.tabs@ == pre.tabs@.remove(ti)
                &&& post == (App {
                    panes: post.panes,
                    tabs: post.tabs,
                    active_tab: active_among(
                        pre.active_tab as int,
                        pre.tabs@.len() - 1,
                    ) as usize,
                    should_quit: pre.should_quit || pre.tabs@.len() == 1,
                    ..pre
                })
            },
        }
    } else {
        post == (App { panes: post.panes, ..pre })
    }
}

/// What a filter keeps of distinct leaves.
proof fn filtered(s: Seq<PaneId>, target: PaneId)
    ensures
        forall|x: PaneId| #[trigger]
            layout::others(s, target).contains(x) <==> s.contains(x) && x != target,
        s.no_duplicates() ==> layout::others(s, target).no_duplicates(),
    decreases s.len(),
{
    let f = layout::others(s, target);
    if s.len() == 0 {
        assert(f =~= Seq::empty());
    } else {
        let t = s.drop_last();
        let last = s.last();
        filtered(t, target);
        let g = layout::others(t, target);
        assert(s == t.push(last));
        assert forall|x: PaneId| #[trigger] f.contains(x) <==> s.contains(x) && x != target by {
            if f.contains(x) {
                let i = choose|i: int| 0 <= i < f.len() && f[i] == x;
                if i < g.len() {
                    assert(g[i] == x);
                    assert(g.contains(x));
                    let j = choose|j: int| 0 <= j < t.len() && t[j] == x;
                    assert(s[j] == x);
                } else {
                    assert(s[s.len() - 1] == x);
                }
            }
            if s.contains(x) && x != target {
                let j = choose|j: int| 0 <= j < s.len() && s[j] == x;
                if j < t.len() {
                    assert(t[j] == x);
                    assert(t.contains(x));
                    assert(g.contains(x));
                    let i = choose|i: int| 0 <= i < g.len() && g[i] == x;
                    assert(f[i] == x);
                } else {
                    assert(f[g.len() as int] == x);
                }
            }
        }
        if s.no_duplicates() {
            assert forall|i: int, j: int|
                0 <= i < t.len() && 0 <= j < t.len() && i != j implies t[i] != t[j] by {
                assert(s[i] == t[i] && s[j] == t[j]);
            }
            if last != target {
                if g.contains(last) {
                    assert(t.contains(last));
                    let j = choose|j: int| 0 <= j < t.len() && t[j] == last;
                    assert(s[j] == s[s.len() - 1]);
                }
                assert forall|i: int, j: int|
                    0 <= i < f.len() && 0 <= j < f.len() && i != j implies f[i] != f[j] by {
                    if i < g.len() && j < g.len() {
                        assert(g[i] != g[j]);
                    } else if i < g.len() {
                        assert(g.contains(g[i]));
                    } else {
                        assert(g.contains(g[j]));
                    }
                }
            }
        }
    }
}

/// What taking a pane out of distinct panes leaves.
proof fn pane_taken_out(panes: Seq<Pane>, id: PaneId)
    requires
        forall|i: int, j: int|
            0 <= i < j < panes.len() ==> (#[trigger] panes[i]).id != (#[trigger] panes[j]).id,
    ensures
        ({
            let rest = panes_without(panes, id);
            &&& forall|i: int, j: int|
                0 <= i < j < rest.len() ==> (#[trigger] rest[i]).id != (#[trigger] rest[j]).id
            &&& forall|i: int|
                0 <= i < rest.len() ==> (#[trigger] rest[i]).id != id && panes.contains(rest[i])
            &&& forall|x: PaneId|
                x != id ==> (app::has_pane(panes, x) <==> #[trigger] app::has_pane(rest, x))
            &&& !app::has_pane(rest, id)
        }),
{
    let rest = panes_without(panes, id);
    let k = app::pane_index(panes, id);
    app::pane_index_is_first(panes, id);
    assert forall|i: int| 0 <= i < rest.len() implies (#[trigger] rest[i]).id != id
        && panes.contains(rest[i]) by {
        if k < panes.len() {
            if i < k {
                assert(rest[i] == panes[i]);
                assert(panes[i].id != panes[k].id);
            } else {
                assert(rest[i] == panes[i + 1]);
                assert(panes[k].id != panes[i + 1].id);
            }
        } else {
            assert(rest[i] == panes[i]);
        }
    }
    assert forall|i: int, j: int| 0 <= i < j < rest.len() implies (#[trigger] rest[i]).id != (
    #[trigger] rest[j]).id by {
        if k < panes.len() {
            let a = if i < k {
                i
            } else {
                i + 1
            };
            let b = if j < k {
                j
            } else {
                j + 1
            };
            assert(rest[i] == panes[a] && rest[j] == panes[b]);
        }
    }
    assert forall|x: PaneId| x != id implies (app::has_pane(panes, x) <==> #[trigger] app::has_pane(
        rest,
        x,
    )) by {
        app::has_pane_iff(panes, x);
        app::has_pane_iff(rest, x);
        if app::has_pane(panes, x) {
            let i = choose|i: int| 0 <= i < panes.len() && (#[trigger] panes[i]).id == x;
            if k < panes.len() && i > k {
                assert(rest[i - 1].id == x);
            } else {
                assert(rest[i].id == x);
            }
        }
        if app::has_pane(rest, x) {
            let i = choose|i: int| 0 <= i < rest.len() && (#[trigger] rest[i]).id == x;
            assert(panes.contains(rest[i]));
            let j = choose|j: int| 0 <= j < panes.len() && panes[j] == rest[i];
            assert(panes[j].id == x);
        }
    }
    app::has_pane_iff(rest, id);
}

/// A pane that is gone from its tab and from the panes keeps the others together.
proof fn closing_keeps_session(pre: App, post: App, id: PaneId)
    requires
        pre.session_wf(),
        post.next_pane == pre.next_pane,
        post.panes@ == panes_without(pre.panes@, id),
        post.tabs@.len() == 0 ==> post.should_quit,
        post.tabs@.len() > 0 ==> post.active_tab < post.tabs@.len(),
        forall|k: int| 0 <= k < post.tabs@.len() ==> app::tab_wf(#[trigger] post.tabs@[k]),
        app::tabs_apart(post.tabs@),
        forall|x: PaneId| #[trigger]
            app::in_tabs(post.tabs@, x) <==> app::in_tabs(pre.tabs@, x) && x != id,
    ensures
        post.session_wf(),
{
    pane_taken_out(pre.panes@, id);
    assert forall|i: int| 0 <= i < post.panes@.len() implies app::in_tabs(
        post.tabs@,
        (#[trigger] post.panes@[i]).id,
    ) && post.panes@[i].id.0 < post.next_pane by {
        let pane = post.panes@[i];
        assert(pre.panes@.contains(pane));
        let j = choose|j: int| 0 <= j < pre.panes@.len() && pre.panes@[j] == pane;
        assert(app::in_tabs(pre.tabs@, pre.panes@[j].id));
    }
    assert forall|i: int, x: PaneId|
        0 <= i < post.tabs@.len() && #[trigger] app::tab_has(post.tabs@[i], x) implies app::has_pane(
        post.panes@,
        x,
    ) by {
        assert(app::in_tabs(post.tabs@, x));
        assert(app::in_tabs(pre.tabs@, x) && x != id);
        let k = choose|k: int| 0 <= k < pre.tabs@.len() && app::tab_has(#[trigger] pre.tabs@[k], x);
        assert(app::has_pane(pre.panes@, x));
        assert(app::has_pane(post.panes@, x));
    }
}

proof fn panes_wf_shrinks(pre: App, post: App, id: PaneId)
    requires
        pre.session_wf(),
        pre.panes_wf(),
        post.panes@ == panes_without(pre.panes@, id),
    ensures
        post.panes_wf(),
{
    pane_taken_out(pre.panes@, id);
    assert forall|i: int| 0 <= i < post.panes@.len() implies app::pane_wf(
        #[trigger] post.panes@[i],
    ) by {
        let pane = post.panes@[i];
        assert(pre.panes@.contains(pane));
        let j = choose|j: int| 0 <= j < pre.panes@.len() && pre.panes@[j] == pane;
        assert(app::pane_wf(pre.panes@[j]));
    }
}

/// Closes a pane.
pub fn do_close(app: &mut App, pid: PaneId) -> (r: Vec<Effect>)
    requires
        old(app).wf(),
    ensures
        closed(*old(app), pid, *final(app)),
        app::effects_view(r@) == close_effects(old(app).panes@, pid),
        final(app).wf(),
        old(app).focus_wf() ==> final(app).focus_wf(),
{
    let ghost pre = *app;
    proof {
        tab_of_is_first(app.tabs@, pid);
    }
    let found = tab_index_of(app, pid);
    let effects = match app::find_pane(&app.panes, pid) {
        Some(i) => {
            app.panes.remove(i);
            app::just(Effect::Close { pane: pid })
        },
        None => app::nothing(),
    };
    assert(app.panes@ == panes_without(pre.panes@, pid));
    proof {
        panes_wf_shrinks(pre, *app, pid);
    }
    let ti: usize = match found {
        Some(ti) => ti,
        None => {
            proof {
                assert forall|x: PaneId| #[trigger] app::in_tabs(app.tabs@, x) implies x != pid by {}
                closing_keeps_session(pre, *app, pid);
            }
            return effects;
        },
    };
    let Tab { name, layout: tree, focus } = app.tabs.remove(ti);
    let ghost tab = pre.tabs@[ti as int];
    let ghost leaves = layout::leaves_of(tree);
    proof {
        layout::removal_keeps_the_others(tree, pid);
        filtered(leaves, pid);
        assert(app::tab_wf(tab));
    }
    match remove_pane(tree, pid) {
        Some(rest) => {
            let focus = if focus == pid {
                rest.first_leaf()
            } else {
                focus
            };
            let ghost left = layout::leaves_of(rest);
            app.tabs.insert(ti, Tab { name, layout: rest, focus });
            proof {
                assert(app.tabs@ =~= pre.tabs@.update(ti as int, app.tabs@[ti as int]));
                let new = app.tabs@[ti as int];
                assert(layout::leaves_of(new.layout) == left);
                assert forall|x: PaneId| #[trigger] app::tab_has(new, x) <==> app::tab_has(tab, x)
                    && x != pid by {
                    assert(left.contains(x) <==> leaves.contains(x) && x != pid);
                }
                assert forall|i: int, j: int, x: PaneId|
                    0 <= i < j < app.tabs@.len() && #[trigger] app::tab_has(
                        app.tabs@[i],
                        x,
                    ) implies !#[trigger] app::tab_has(app.tabs@[j], x) by {
                    assert(app::tab_has(pre.tabs@[i], x));
                    assert(!app::tab_has(pre.tabs@[j], x));
                }
                assert forall|x: PaneId| #[trigger] app::in_tabs(app.tabs@, x) <==> app::in_tabs(
                    pre.tabs@,
                    x,
                ) && x != pid by {
                    if app::in_tabs(app.tabs@, x) {
                        let k = choose|k: int|
                            0 <= k < app.tabs@.len() && app::tab_has(#[trigger] app.tabs@[k], x);
                        assert(app::tab_has(pre.tabs@[k], x));
                        if x == pid && k != ti {
                            if k < ti {
                                assert(!app::tab_has(pre.tabs@[ti as int], x));
                            } else {
                                assert(app::tab_has(pre.tabs@[ti as int], x));
                                assert(!app::tab_has(pre.tabs@[k], x));
                            }
                        }
                    }
                    if app::in_tabs(pre.tabs@, x) && x != pid {
                        let k = choose|k: int|
                            0 <= k < pre.tabs@.len() && app::tab_has(#[trigger] pre.tabs@[k], x);
                        assert(app::tab_has(app.tabs@[k], x));
                    }
                }
                assert forall|k: int| 0 <= k < app.tabs@.len() implies app::tab_wf(
                    #[trigger] app.tabs@[k],
                ) by {
                    if k != ti {
                        assert(app::tab_wf(pre.tabs@[k]));
                    }
                }
                closing_keeps_session(pre, *app, pid);
                if pre.focus_wf() {
                    assert forall|k: int| 0 <= k < app.tabs@.len() implies app::tab_has(
                        #[trigger] app.tabs@[k],
                        app.tabs@[k].focus,
                    ) by {
                        assert(app::tab_has(pre.tabs@[k], pre.tabs@[k].focus));
                        if k == ti && tab.focus == pid {
                            assert(left.contains(left[0]));
                        }
                    }
                }
            }
        },
        None => {
            proof {
                assert forall|x: PaneId| leaves.contains(x) implies x == pid by {
                    if x != pid {
                        assert(layout::others(leaves, pid).contains(x));
                    }
                }
            }
            if app.tabs.len() == 0 {
                app.should_quit = true;
            } else if app.active_tab >= app.tabs.len() {
                app.active_tab = app.tabs.len() - 1;
            }
            proof {
                tab_taken_out(pre.tabs@, ti as int);
                assert forall|x: PaneId| #[trigger] app::in_tabs(app.tabs@, x) <==> app::in_tabs(
                    pre.tabs@,
                    x,
                ) && x != pid by {
                    assert(app::tab_has(tab, x) <==> x == pid);
                }
                closing_keeps_session(pre, *app, pid);
                if pre.focus_wf() {
                    assert forall|k: int| 0 <= k < app.tabs@.len() implies app::tab_has(
                        #[trigger] app.tabs@[k],
                        app.tabs@[k].focus,
                    ) by {
                        let j = if k < ti {
                            k
                        } else {
                            k + 1
                        };
                        assert(app::tab_has(pre.tabs@[j], pre.tabs@[j].focus));
                    }
                }
            }
        },
    }
    effects
}

/// What taking a tab out leaves of tabs that share no pane.
proof fn tab_taken_out(tabs: Seq<Tab>, ti: int)
    requires
        0 <= ti < tabs.len(),
        app::tabs_apart(tabs),
        forall|k: int| 0 <= k < tabs.len() ==> app::tab_wf(#[trigger] tabs[k]),
    ensures
        app::tabs_apart(tabs.remove(ti)),
        forall|k: int| 0 <= k < tabs.len() - 1 ==> app::tab_wf(#[trigger] tabs.remove(ti)[k]),
        forall|x: PaneId| #[trigger]
            app::in_tabs(tabs.remove(ti), x) <==> app::in_tabs(tabs, x) && !app::tab_has(
                tabs[ti],
                x,
            ),
{
    let rest = tabs.remove(ti);
    assert forall|k: int| 0 <= k < rest.len() implies #[trigger] rest[k] == tabs[if k < ti {
        k
    } else {
        k + 1
    }] by {}
    assert forall|k: int| 0 <= k < tabs.len() - 1 implies app::tab_wf(#[trigger] rest[k]) by {
        let j = if k < ti {
            k
        } else {
            k + 1
        };
        assert(app::tab_wf(tabs[j]));
    }
    assert forall|i: int, j: int, x: PaneId|
        0 <= i < j < rest.len() && #[trigger] app::tab_has(rest[i], x) implies !#[trigger] app::tab_has(
        rest[j],
        x,
    ) by {
        let a = if i < ti {
            i
        } else {
            i + 1
        };
        let b = if j < ti {
            j
        } else {
            j + 1
        };
        assert(app::tab_has(tabs[a], x));
        assert(!app::tab_has(tabs[b], x));
    }
    assert forall|x: PaneId| #[trigger] app::in_tabs(rest, x) <==> app::in_tabs(tabs, x)
        && !app::tab_has(tabs[ti], x) by {
        if app::in_tabs(rest, x) {
            let k = choose|k: int| 0 <= k < rest.len() && app::tab_has(#[trigger] rest[k], x);
            let j = if k < ti {
                k
            } else {
                k + 1
            };
            assert(app::tab_has(tabs[j], x));
            if j < ti {
                assert(!app::tab_has(tabs[ti], x));
            } else if app::tab_has(tabs[ti], x) {
                assert(!app::tab_has(tabs[j], x));
            }
        }
        if app::in_tabs(tabs, x) && !app::tab_has(tabs[ti], x) {
            let k = choose|k: int| 0 <= k < tabs.len() && app::tab_has(#[trigger] tabs[k], x);
            if k < ti {
                assert(app::tab_has(rest[k], x));
            } else {
                assert(app::tab_has(rest[k - 1], x));
            }
        }
    }
}

/// The state after the user asked to close a pane: before the last one the question is asked.
pub open spec fn close_requested(pre: App, id: PaneId, post: App) -> bool {
    if pre.panes@.len() <= 1 {
        post == (App { confirm: Some(confirm::fresh_confirm(pre.screen)), ..pre })
    } else {
        closed(pre, id, post)
    }
}

/// What that asks for.
pub open spec fn request_effects(panes: Seq<Pane>, id: PaneId) -> Seq<EffectView> {
    if panes.len() <= 1 {
        app::no_effects()
    } else {
        close_effects(panes, id)
    }
}

/// The user asks to close a pane.
pub fn request_close(app: &mut App, pid: PaneId) -> (r: Vec<Effect>)
    requires
        old(app).wf(),
    ensures
        close_requested(*old(app), pid, *final(app)),
        app::effects_view(r@) == request_effects(old(app).panes@, pid),
        final(app).wf(),
        old(app).focus_wf() ==> final(app).focus_wf(),
{
    if app.panes.len() <= 1 {
        open_confirm(app);
        app::nothing()
    } else {
        do_close(app, pid)
    }
}

/// Closing the pane that a split has made undoes the split: the panes, and the trees and names of
/// the tabs, are as they were. The focus stays in the tab, but may have gone to another pane.
pub proof fn closing_undoes_splitting(
    pre: App,
    target: PaneId,
    dir: SplitDir,
    report: PaneReport,
    mid: App,
    post: App,
)
    requires
        pre.wf(),
        app::in_tabs(pre.tabs@, target),
        spawned(pre, SpawnFor::Split { target, dir }, report, mid),
        closed(mid, PaneId(pre.next_pane), post),
    ensures
        post.panes@ == pre.panes@,
        post.tabs@.len() == pre.tabs@.len(),
        forall|k: int|
            0 <= k < pre.tabs@.len() ==> (#[trigger] post.tabs@[k]).layout == pre.tabs@[k].layout
                && post.tabs@[k].name == pre.tabs@[k].name,
        post.active_tab == pre.active_tab,
        post.should_quit == pre.should_quit,
{
    let id = PaneId(pre.next_pane);
    next_pane_is_new(pre);
    tab_of_is_first(pre.tabs@, target);
    tab_of_is_first(mid.tabs@, id);
    let ti = tab_of(pre.tabs@, target);
    let tab = pre.tabs@[ti];
    let tree = layout::with_split(tab.layout, target, SplitId(pre.next_split), dir, id);
    layout::split_adds_one_leaf(tab.layout, target, SplitId(pre.next_split), dir, id);
    layout::removal_undoes_split(tab.layout, target, SplitId(pre.next_split), dir, id);
    assert(!app::tab_has(tab, id)) by {
        if app::tab_has(tab, id) {
            assert(app::tab_has(pre.tabs@[ti], id));
        }
    }
    let k = choose|k: int|
        #![trigger layout::leaves_of(tab.layout)[k]]
        0 <= k < layout::leaves_of(tab.layout).len() && layout::leaves_of(tab.layout)[k] == target
            && layout::leaves_of(tree) == layout::leaves_of(tab.layout).insert(k + 1, id);
    assert(layout::leaves_of(tree)[k + 1] == id);
    assert(app::tab_has(mid.tabs@[ti], id));
    assert(tab_of(mid.tabs@, id) == ti) by {
        assert forall|j: int| 0 <= j < mid.tabs@.len() && j != ti implies !app::tab_has(
            #[trigger] mid.tabs@[j],
            id,
        ) by {
            assert(mid.tabs@[j] == pre.tabs@[j]);
            if app::tab_has(pre.tabs@[j], id) {
                assert(app::in_tabs(pre.tabs@, id));
            }
        }
    }
    app::pane_index_is_first(pre.panes@, id);
    assert(mid.panes@ =~= pre.panes@.push(mid.panes@.last()));
    app::first_is_pane_index(mid.panes@, id, pre.panes@.len() as int);
    assert(mid.panes@.remove(pre.panes@.len() as int) =~= pre.panes@);
}

// Tabs.

/// Shows a tab.
pub fn switch_tab(app: &mut App, index: usize)
    requires
        old(app).wf(),
    ensures
        *final(app) == (if index < old(app).tabs@.len() {
            App { active_tab: index, suggest: None, ..*old(app) }
        } else {
            *old(app)
        }),
        final(app).wf(),
{
    if index < app.tabs.len() {
        app.active_tab = index;
        app.suggest = None;
    }
}

/// The tab behind another one, and before it: the first follows the last.
pub open spec fn tab_after(active_tab: int, count: int) -> int {
    (active_tab + 1) % count
}

pub open spec fn tab_before(active_tab: int, count: int) -> int {
    (active_tab + count - 1) % count
}

/// Going forth and back among the tabs leads to where it began.
pub proof fn forth_and_back(active_tab: int, count: int)
    requires
        0 <= active_tab < count,
    ensures
        tab_before(tab_after(active_tab, count), count) == active_tab,
        tab_after(tab_before(active_tab, count), count) == active_tab,
        0 <= tab_after(active_tab, count) < count,
        0 <= tab_before(active_tab, count) < count,
{
    if active_tab + 1 < count {
        vstd::arithmetic::div_mod::lemma_small_mod((active_tab + 1) as nat, count as nat);
    } else {
        vstd::arithmetic::div_mod::lemma_mod_self_0(count);
    }
    if active_tab == 0 {
        vstd::arithmetic::div_mod::lemma_small_mod((count - 1) as nat, count as nat);
        vstd::arithmetic::div_mod::lemma_mod_self_0(count);
    } else {
        vstd::arithmetic::div_mod::lemma_mod_add_multiples_vanish(active_tab - 1, count);
        vstd::arithmetic::div_mod::lemma_small_mod((active_tab - 1) as nat, count as nat);
        vstd::arithmetic::div_mod::lemma_small_mod(active_tab as nat, count as nat);
    }
    let a = tab_after(active_tab, count);
    if a == 0 {
        vstd::arithmetic::div_mod::lemma_small_mod((count - 1) as nat, count as nat);
    } else {
        vstd::arithmetic::div_mod::lemma_mod_add_multiples_vanish(a - 1, count);
        vstd::arithmetic::div_mod::lemma_small_mod((a - 1) as nat, count as nat);
    }
    let b = tab_before(active_tab, count);
    if b + 1 < count {
        vstd::arithmetic::div_mod::lemma_small_mod((b + 1) as nat, count as nat);
    }
}

/// Shows the tab behind the active one.
pub fn next_tab(app: &mut App)
    requires
        old(app).wf(),
    ensures
        *final(app) == (if old(app).tabs@.len() > 0 {
            App {
                active_tab: tab_after(
                    old(app).active_tab as int,
                    old(app).tabs@.len() as int,
                ) as usize,
                suggest: None,
                ..*old(app)
            }
        } else {
            *old(app)
        }),
        final(app).wf(),
{
    let n: usize = app.tabs.len();
    if n > 0 {
        proof {
            forth_and_back(app.active_tab as int, n as int);
        }
        app.active_tab = (app.active_tab + 1) % n;
        app.suggest = None;
    }
}

/// Shows the tab before the active one.
pub fn prev_tab(app: &mut App)
    requires
        old(app).wf(),
    ensures
        *final(app) == (if old(app).tabs@.len() > 0 {
            App {
                active_tab: tab_before(
                    old(app).active_tab as int,
                    old(app).tabs@.len() as int,
                ) as usize,
                suggest: None,
                ..*old(app)
            }
        } else {
            *old(app)
        }),
        final(app).wf(),
{
    let n: usize = app.tabs.len();
    if n > 0 {
        proof {
            forth_and_back(app.active_tab as int, n as int);
            if app.active_tab == 0 {
                vstd::arithmetic::div_mod::lemma_small_mod((n - 1) as nat, n as nat);
            } else {
                vstd::arithmetic::div_mod::lemma_mod_add_multiples_vanish(
                    app.active_tab - 1,
                    n as int,
                );
                vstd::arithmetic::div_mod::lemma_small_mod((app.active_tab - 1) as nat, n as nat);
            }
        }
        app.active_tab = if app.active_tab == 0 {
            n - 1
        } else {
            app.active_tab - 1
        };
        app.suggest = None;
    }
}

/// What taking the first `n` of some panes out leaves of the panes.
pub open spec fn panes_without_all(panes: Seq<Pane>, ids: Seq<PaneId>, n: int) -> Seq<Pane>
    decreases n,
{
    if n <= 0 {
        panes
    } else {
        panes_without(panes_without_all(panes, ids, n - 1), ids[n - 1])
    }
}

/// That the first `n` of some panes are gone.
pub open spec fn closes(panes: Seq<Pane>, ids: Seq<PaneId>, n: int) -> Seq<EffectView>
    decreases n,
{
    if n <= 0 {
        Seq::empty()
    } else {
        closes(panes, ids, n - 1) + close_effects(panes_without_all(panes, ids, n - 1), ids[n - 1])
    }
}

/// The state after a tab was closed with all its panes.
pub open spec fn tab_closed(pre: App, index: int, post: App) -> bool {
    if index < pre.tabs@.len() {
        let ids = layout::leaves_of(pre.tabs@[index].layout);
        &&& post.panes@ == panes_without_all(pre.panes@, ids, ids.len() as int)
        &&& post.tabs@ == pre.tabs@.remove(index)
        &&& post == (App {
            panes: post.panes,
            tabs: post.tabs,
            active_tab: active_among(pre.active_tab as int, pre.tabs@.len() - 1) as usize,
            should_quit: pre.should_quit || pre.tabs@.len() == 1,
            ..pre
        })
    } else {
        post == pre
    }
}

/// What closing a tab asks for.
pub open spec fn tab_close_effects(pre: App, index: int) -> Seq<EffectView> {
    if index < pre.tabs@.len() {
        let ids = layout::leaves_of(pre.tabs@[index].layout);
        closes(pre.panes@, ids, ids.len() as int)
    } else {
        app::no_effects()
    }
}

/// What is left of distinct panes once the first `n` of some are taken out.
proof fn panes_taken_out(panes: Seq<Pane>, ids: Seq<PaneId>, n: int)
    requires
        0 <= n <= ids.len(),
        forall|i: int, j: int|
            0 <= i < j < panes.len() ==> (#[trigger] panes[i]).id != (#[trigger] panes[j]).id,
    ensures
        ({
            let rest = panes_without_all(panes, ids, n);
            &&& forall|i: int, j: int|
                0 <= i < j < rest.len() ==> (#[trigger] rest[i]).id != (#[trigger] rest[j]).id
            &&& forall|i: int| 0 <= i < rest.len() ==> panes.contains(#[trigger] rest[i])
            &&& forall|x: PaneId| #[trigger]
                app::has_pane(rest, x) <==> app::has_pane(panes, x) && !ids.take(n).contains(x)
        }),
    decreases n,
{
    if n > 0 {
        panes_taken_out(panes, ids, n - 1);
        let before = panes_without_all(panes, ids, n - 1);
        let id = ids[n - 1];
        let rest = panes_without_all(panes, ids, n);
        pane_taken_out(before, id);
        assert forall|i: int| 0 <= i < rest.len() implies panes.contains(#[trigger] rest[i]) by {
            assert(before.contains(rest[i]));
            let j = choose|j: int| 0 <= j < before.len() && before[j] == rest[i];
            assert(panes.contains(before[j]));
        }
        assert forall|x: PaneId| #[trigger] app::has_pane(rest, x) <==> app::has_pane(panes, x)
            && !ids.take(n).contains(x) by {
            let a = ids.take(n - 1);
            let b = ids.take(n);
            if b.contains(x) {
                let i = choose|i: int| 0 <= i < b.len() && b[i] == x;
                if i < n - 1 {
                    assert(a[i] == x);
                }
            }
            if a.contains(x) {
                let i = choose|i: int| 0 <= i < a.len() && a[i] == x;
                assert(b[i] == x);
            }
            if x == id {
                assert(b[n - 1] == x);
            }
        }
    } else {
        assert forall|i: int| 0 <= i < panes.len() implies panes.contains(#[trigger] panes[i]) by {}
    }
}

/// Closes a tab with all its panes.
pub fn close_tab(app: &mut App, index: usize) -> (r: Vec<Effect>)
    requires
        old(app).wf(),
    ensures
        tab_closed(*old(app), index as int, *final(app)),
        app::effects_view(r@) == tab_close_effects(*old(app), index as int),
        final(app).wf(),
        old(app).focus_wf() ==> final(app).focus_wf(),
{
    if index >= app.tabs.len() {
        return app::nothing();
    }
    let ghost pre = *app;
    let ghost tab = app.tabs@[index as int];
    let mut leaves: Vec<PaneId> = Vec::new();
    app.tabs[index].layout.leaves(&mut leaves);
    let ghost ids = layout::leaves_of(tab.layout);
    assert(leaves@ =~= ids);
    let mut effects: Vec<Effect> = Vec::new();
    let mut i: usize = 0;
    assert(app::effects_view(effects@) =~= Seq::empty());
    while i < leaves.len()
        invariant
            i <= leaves@.len(),
            leaves@ == ids,
            *app == (App { panes: app.panes, ..pre }),
            app.panes@ == panes_without_all(pre.panes@, ids, i as int),
            app::effects_view(effects@) == closes(pre.panes@, ids, i as int),
        decreases leaves@.len() - i,
    {
        let pid = leaves[i];
        let ghost before = app::effects_view(effects@);
        if let Some(k) = app::find_pane(&app.panes, pid) {
            app.panes.remove(k);
            effects.push(Effect::Close { pane: pid });
            assert(app::effects_view(effects@) =~= before + seq![EffectView::Close { pane: pid }]);
        } else {
            assert(app::effects_view(effects@) =~= before + app::no_effects());
        }
        i = i + 1;
    }
    app.tabs.remove(index);
    if app.tabs.len() == 0 {
        app.should_quit = true;
    } else if app.active_tab >= app.tabs.len() {
        app.active_tab = app.tabs.len() - 1;
    }
    proof {
        let n = ids.len() as int;
        assert(ids.take(n) =~= ids);
        panes_taken_out(pre.panes@, ids, n);
        tab_taken_out(pre.tabs@, index as int);
        let post = *app;
        assert forall|k: int| 0 <= k < post.panes@.len() implies app::in_tabs(
            post.tabs@,
            (#[trigger] post.panes@[k]).id,
        ) && post.panes@[k].id.0 < post.next_pane by {
            let pane = post.panes@[k];
            assert(pre.panes@.contains(pane));
            let j = choose|j: int| 0 <= j < pre.panes@.len() && pre.panes@[j] == pane;
            assert(app::in_tabs(pre.tabs@, pre.panes@[j].id));
            app::has_pane_iff(post.panes@, pane.id);
            assert(app::has_pane(post.panes@, pane.id));
            assert(!ids.contains(pane.id));
            assert(!app::tab_has(tab, pane.id));
        }
        assert forall|k: int, x: PaneId|
            0 <= k < post.tabs@.len() && #[trigger] app::tab_has(
                post.tabs@[k],
                x,
            ) implies app::has_pane(post.panes@, x) by {
            assert(app::in_tabs(post.tabs@, x));
            assert(app::in_tabs(pre.tabs@, x) && !app::tab_has(tab, x));
            let j = choose|j: int|
                0 <= j < pre.tabs@.len() && app::tab_has(#[trigger] pre.tabs@[j], x);
            assert(app::has_pane(pre.panes@, x));
            assert(!ids.contains(x));
        }
        assert forall|k: int| 0 <= k < post.panes@.len() implies app::pane_wf(
            #[trigger] post.panes@[k],
        ) by {
            let pane = post.panes@[k];
            assert(pre.panes@.contains(pane));
            let j = choose|j: int| 0 <= j < pre.panes@.len() && pre.panes@[j] == pane;
            assert(app::pane_wf(pre.panes@[j]));
        }
        if pre.focus_wf() {
            assert forall|k: int| 0 <= k < post.tabs@.len() implies app::tab_has(
                #[trigger] post.tabs@[k],
                post.tabs@[k].focus,
            ) by {
                let j = if k < index {
                    k
                } else {
                    k + 1
                };
                assert(app::tab_has(pre.tabs@[j], pre.tabs@[j].focus));
            }
        }
    }
    effects
}

/// The state after the user asked to close a tab: before the last one the question is asked.
pub open spec fn tab_close_requested(pre: App, index: int, post: App) -> bool {
    if pre.tabs@.len() <= 1 {
        post == (App { confirm: Some(confirm::fresh_confirm(pre.screen)), ..pre })
    } else {
        tab_closed(pre, index, post)
    }
}

/// What that asks for.
pub open spec fn tab_request_effects(pre: App, index: int) -> Seq<EffectView> {
    if pre.tabs@.len() <= 1 {
        app::no_effects()
    } else {
        tab_close_effects(pre, index)
    }
}

/// The user asks to close a tab.
pub fn request_close_tab(app: &mut App, index: usize) -> (r: Vec<Effect>)
    requires
        old(app).wf(),
    ensures
        tab_close_requested(*old(app), index as int, *final(app)),
        app::effects_view(r@) == tab_request_effects(*old(app), index as int),
        final(app).wf(),
        old(app).focus_wf() ==> final(app).focus_wf(),
{
    if app.tabs.len() <= 1 {
        open_confirm(app);
        app::nothing()
    } else {
        close_tab(app, index)
    }
}

// Moving the focus.

/// A direction.
#[derive(Debug, Clone, Copy, PartialEq, Eq, Structural)]
pub enum Dir {
    Left,
    Right,
    Up,
    Down,
}

/// Whether a point lies in a direction from another.
pub open spec fn lies(from: (int, int), dir: Dir, to: (int, int)) -> bool {
    match dir {
        Dir::Left => to.0 < from.0,
        Dir::Right => to.0 > from.0,
        Dir::Up => to.1 < from.1,
        Dir::Down => to.1 > from.1,
    }
}

/// The square of the distance of two points.
pub open spec fn distance(a: (int, int), b: (int, int)) -> int {
    (b.0 - a.0) * (b.0 - a.0) + (b.1 - a.1) * (b.1 - a.1)
}

/// The first of the nearest panes in a direction, among the first `n` areas.
pub open spec fn neighbour(
    areas: Seq<(PaneId, Rect)>,
    focus: PaneId,
    from: (int, int),
    dir: Dir,
    n: int,
) -> Option<(PaneId, int)>
    decreases n,
{
    if n <= 0 {
        None
    } else {
        let before = neighbour(areas, focus, from, dir, n - 1);
        let (id, rect) = areas[n - 1];
        let to = geometry::center_of(rect);
        if id != focus && lies(from, dir, to) && (before is None || distance(from, to) < (
        before->0).1) {
            Some((id, distance(from, to)))
        } else {
            before
        }
    }
}

/// The pane that the focus goes to from the pane with the focus.
pub open spec fn focus_target(pre: App, dir: Dir) -> Option<PaneId> {
    match layout::area_of(pre.areas@, pre.focus()) {
        Some(current) => match neighbour(
            pre.areas@,
            pre.focus(),
            geometry::center_of(current),
            dir,
            pre.areas@.len() as int,
        ) {
            Some((id, _)) => Some(id),
            None => None,
        },
        None => None,
    }
}

/// The state after the focus was moved: to the nearest pane in the direction, by the middles of the
/// panes, if there is one.
pub open spec fn focus_moved(pre: App, dir: Dir, post: App) -> bool {
    match focus_target(pre, dir) {
        Some(id) => focused(pre, id, post),
        None => post == pre,
    }
}

/// Moves the focus to the nearest pane in a direction.
pub fn focus_dir(app: &mut App, dir: Dir)
    requires
        old(app).wf(),
        old(app).active_tab < old(app).tabs@.len(),
    ensures
        focus_moved(*old(app), dir, *final(app)),
        final(app).wf(),
{
    let focus = active_focus(app);
    let current = match layout::find_area(&app.areas, focus) {
        Some(rect) => rect,
        None => return,
    };
    let (cx, cy) = geometry::center(current);
    let ghost from = (cx as int, cy as int);
    assert(0 <= cx <= 98302 && 0 <= cy <= 98302);
    let mut best: Option<PaneId> = None;
    let mut best_distance: i64 = 0;
    let n: usize = app.areas.len();
    let mut i: usize = 0;
    while i < n
        invariant
            i <= n,
            n == app.areas@.len(),
            *app == *old(app),
            from == (cx as int, cy as int),
            0 <= cx <= 98302,
            0 <= cy <= 98302,
            match best {
                Some(id) => neighbour(app.areas@, focus, from, dir, i as int) == Some(
                    (id, best_distance as int),
                ),
                None => neighbour(app.areas@, focus, from, dir, i as int) is None,
            },
        decreases n - i,
    {
        let (pid, rect) = app.areas[i];
        let (px, py) = geometry::center(rect);
        assert(0 <= px <= 98302 && 0 <= py <= 98302);
        let in_dir = match dir {
            Dir::Left => px < cx,
            Dir::Right => px > cx,
            Dir::Up => py < cy,
            Dir::Down => py > cy,
        };
        let dx: i64 = px as i64 - cx as i64;
        let dy: i64 = py as i64 - cy as i64;
        assert(0 <= dx * dx <= 98302 * 98302) by (nonlinear_arith)
            requires
                -98302 <= dx <= 98302,
        ;
        assert(0 <= dy * dy <= 98302 * 98302) by (nonlinear_arith)
            requires
                -98302 <= dy <= 98302,
        ;
        let d: i64 = dx * dx + dy * dy;
        if pid != focus && in_dir && (best.is_none() || d < best_distance) {
            best = Some(pid);
            best_distance = d;
        }
        i = i + 1;
    }
    if let Some(pid) = best {
        set_active_focus(app, pid);
    }
}

/// Going forth shows the next tab, and the first one behind the last; going back the one before, and
/// the last one before the first.
pub proof fn tabs_follow_each_other(active_tab: int, count: int)
    requires
        0 <= active_tab < count,
    ensures
        active_tab + 1 < count ==> tab_after(active_tab, count) == active_tab + 1,
        active_tab + 1 == count ==> tab_after(active_tab, count) == 0,
        active_tab > 0 ==> tab_before(active_tab, count) == active_tab - 1,
        active_tab == 0 ==> tab_before(active_tab, count) == count - 1,
{
    if active_tab > 0 {
        assert((active_tab + count - 1) % count == active_tab - 1) by (nonlinear_arith)
            requires
                0 < active_tab < count,
        ;
    } else {
        assert((count - 1) % count == count - 1) by (nonlinear_arith)
            requires
                0 < count,
        ;
    }
    if active_tab + 1 < count {
        assert((active_tab + 1) % count == active_tab + 1) by (nonlinear_arith)
            requires
                0 < active_tab + 1 < count,
        ;
    } else {
        assert(count % count == 0) by (nonlinear_arith)
            requires
                count > 0,
        ;
    }
}

/// Closing a pane takes that pane away and no other: every other pane is still there, as it was.
pub proof fn closing_keeps_the_others(pre: App, id: PaneId, post: App, other: PaneId)
    requires
        pre.wf(),
        closed(pre, id, post),
    ensures
        !app::has_pane(post.panes@, id),
        other != id ==> (app::has_pane(post.panes@, other) <==> app::has_pane(pre.panes@, other)),
        other != id && app::has_pane(pre.panes@, other) ==> post.pane(other) == pre.pane(other),
        app::has_pane(pre.panes@, id) ==> post.panes@.len() == pre.panes@.len() - 1,
{
    pane_taken_out(pre.panes@, id);
    app::pane_index_is_first(pre.panes@, id);
    if other != id && app::has_pane(pre.panes@, other) {
        app::pane_index_is_first(post.panes@, other);
        app::pane_index_is_first(pre.panes@, other);
        assert(app::has_pane(post.panes@, other));
        let p = post.panes@[app::pane_index(post.panes@, other)];
        assert(pre.panes@.contains(p));
        let i = choose|i: int| 0 <= i < pre.panes@.len() && pre.panes@[i] == p;
        let j = app::pane_index(pre.panes@, other);
        assert(pre.panes@[i].id == pre.panes@[j].id);
    }
}

/// Closing a tab takes the panes of that tab away and no others, and keeps the other tabs in their
/// order.
pub proof fn closing_a_tab_keeps_the_others(pre: App, index: int, post: App, other: PaneId)
    requires
        pre.wf(),
        0 <= index < pre.tabs@.len(),
        tab_closed(pre, index, post),
    ensures
        app::has_pane(post.panes@, other) <==> app::has_pane(pre.panes@, other) && !app::tab_has(
            pre.tabs@[index],
            other,
        ),
        post.tabs@.len() == pre.tabs@.len() - 1,
        forall|k: int| 0 <= k < index ==> #[trigger] post.tabs@[k] == pre.tabs@[k],
        forall|k: int|
            index <= k < post.tabs@.len() ==> #[trigger] post.tabs@[k] == pre.tabs@[k + 1],
        post.should_quit <==> pre.should_quit || pre.tabs@.len() == 1,
{
    let ids = layout::leaves_of(pre.tabs@[index].layout);
    panes_taken_out(pre.panes@, ids, ids.len() as int);
    assert(ids.take(ids.len() as int) =~= ids);
}

/// Moving the focus in a direction goes to the pane whose middle is nearest among those whose middle
/// lies in that direction, and nowhere where there is none.
pub proof fn the_focus_goes_to_the_nearest(pre: App, dir: Dir)
    requires
        layout::area_of(pre.areas@, pre.focus()) is Some,
    ensures
        ({
            let r = layout::area_of(pre.areas@, pre.focus())->0;
            let (cx, cy) = (r.x + r.width as int / 2, r.y + r.height as int / 2);
            let ahead = |q: Rect|
                {
                    let (x, y) = (q.x + q.width as int / 2, q.y + q.height as int / 2);
                    match dir {
                        Dir::Left => x < cx,
                        Dir::Right => cx < x,
                        Dir::Up => y < cy,
                        Dir::Down => cy < y,
                    }
                };
            let far = |q: Rect|
                {
                    let (x, y) = (q.x + q.width as int / 2, q.y + q.height as int / 2);
                    (x - cx) * (x - cx) + (y - cy) * (y - cy)
                };
            match focus_target(pre, dir) {
                Some(id) => exists|i: int|
                    {
                        &&& 0 <= i < pre.areas@.len()
                        &&& (#[trigger] pre.areas@[i]).0 == id
                        &&& id != pre.focus()
                        &&& ahead(pre.areas@[i].1)
                        &&& forall|k: int|
                            0 <= k < pre.areas@.len() && (#[trigger] pre.areas@[k]).0 != pre.focus()
                                && ahead(pre.areas@[k].1) ==> far(pre.areas@[i].1) <= far(
                                pre.areas@[k].1,
                            )
                    },
                None => forall|k: int|
                    0 <= k < pre.areas@.len() && (#[trigger] pre.areas@[k]).0 != pre.focus()
                        ==> !ahead(pre.areas@[k].1),
            }
        }),
{
    let r = layout::area_of(pre.areas@, pre.focus())->0;
    neighbours_are_nearest(
        pre.areas@,
        pre.focus(),
        geometry::center_of(r),
        dir,
        pre.areas@.len() as int,
    );
}

proof fn neighbours_are_nearest(
    areas: Seq<(PaneId, Rect)>,
    focus: PaneId,
    from: (int, int),
    dir: Dir,
    n: int,
)
    requires
        0 <= n <= areas.len(),
    ensures
        match neighbour(areas, focus, from, dir, n) {
            Some((id, d)) => exists|i: int|
                {
                    &&& 0 <= i < n
                    &&& (#[trigger] areas[i]).0 == id
                    &&& id != focus
                    &&& lies(from, dir, geometry::center_of(areas[i].1))
                    &&& d == distance(from, geometry::center_of(areas[i].1))
                    &&& forall|k: int|
                        0 <= k < n && (#[trigger] areas[k]).0 != focus && lies(
                            from,
                            dir,
                            geometry::center_of(areas[k].1),
                        ) ==> d <= distance(from, geometry::center_of(areas[k].1))
                },
            None => forall|k: int|
                0 <= k < n && (#[trigger] areas[k]).0 != focus ==> !lies(
                    from,
                    dir,
                    geometry::center_of(areas[k].1),
                ),
        },
    decreases n,
{
    if n > 0 {
        neighbours_are_nearest(areas, focus, from, dir, n - 1);
        let here = areas[n - 1];
    }
}

/// The tabs are shown by their names and in their order: the parts of the bar are the tabs from the
/// first one on, each with its name in it, and then perhaps the button for a new tab.
pub proof fn tabs_show_their_names(
    tabs: Seq<Tab>,
    active_tab: int,
    width: int,
    min_w: int,
    i: int,
    x: int,
    k: int,
)
    requires
        0 <= i,
        0 <= k < segs_from(tabs, active_tab, width, min_w, i, x).len(),
        tabs.len() <= usize::MAX,
    ensures
        ({
            let segs = segs_from(tabs, active_tab, width, min_w, i, x);
            match segs[k].kind {
                StatusKind::Switch(t) => {
                    &&& t == i + k
                    &&& t < tabs.len()
                    &&& text::has_part(segs[k].text, tabs[t as int].name@)
                    &&& segs[k].text.len() >= min_w
                    &&& segs[k].active == (t == active_tab)
                },
                StatusKind::NewTab => k == segs.len() - 1 && !segs[k].active,
            }
        }),
    decreases tabs.len() - i,
{
    let segs = segs_from(tabs, active_tab, width, min_w, i, x);
    if i < tabs.len() && x + label_width(tabs[i].name@, min_w) + 1 <= width {
        let next = x + label_width(tabs[i].name@, min_w) + 1;
        let rest = segs_from(tabs, active_tab, width, min_w, i + 1, next);
        if k > 0 {
            tabs_show_their_names(tabs, active_tab, width, min_w, i + 1, next, k - 1);
            assert(segs[k] == rest[k - 1]);
        } else {
            let name = tabs[i].name@;
            let tail = blanks(geometry::max_of(min_w, name.len() as int + 2) - name.len());
            text::parts_are_found(seq![' '], name, tail, name);
        }
    }
}

/// A new pane takes nothing away: all panes stay where they are, the new one has the report of its
/// terminal and the focus of its tab, and the tabs that it is not in are as they were.
pub proof fn opening_keeps_what_is_there(
    pre: App,
    purpose: SpawnFor,
    report: PaneReport,
    post: App,
    k: int,
)
    requires
        spawned(pre, purpose, report, post),
        purpose matches SpawnFor::Split { target, dir } ==> app::in_tabs(pre.tabs@, target),
    ensures
        0 <= k < pre.panes@.len() ==> post.panes@[k] == pre.panes@[k],
        post.panes@.last().id.0 == pre.next_pane,
        post.panes@.last().report == report,
        purpose is Tab ==> {
            &&& post.tabs@.len() == pre.tabs@.len() + 1
            &&& 0 <= k < pre.tabs@.len() ==> post.tabs@[k] == pre.tabs@[k]
            &&& post.tabs@.last().focus.0 == pre.next_pane
            &&& layout::leaves_of(post.tabs@.last().layout) == seq![PaneId(pre.next_pane)]
        },
        purpose matches SpawnFor::Split { target, dir } ==> {
            &&& post.tabs@.len() == pre.tabs@.len()
            &&& post.active_tab == pre.active_tab
            &&& 0 <= k < pre.tabs@.len() && k != tab_of(pre.tabs@, target) ==> post.tabs@[k]
                == pre.tabs@[k]
            &&& 0 <= k < pre.tabs@.len() && k == tab_of(pre.tabs@, target)
                ==> post.tabs@[k].focus.0 == pre.next_pane && post.tabs@[k].name
                == pre.tabs@[k].name
        },
{
    if let SpawnFor::Split { target, dir } = purpose {
        tab_of_is_first(pre.tabs@, target);
    }
    if 0 <= k < pre.panes@.len() {
        assert(post.panes@.drop_last()[k] == post.panes@[k]);
    }
    if purpose is Tab && 0 <= k < pre.tabs@.len() {
        assert(post.tabs@.drop_last()[k] == post.tabs@[k]);
    }
    assert(layout::leaves_of(Layout::Leaf(PaneId(pre.next_pane))) =~= seq![PaneId(pre.next_pane)]);
}

/// Every pane that is shown gets the size of its area, so far as that has two rows and columns.
pub proof fn panes_get_their_sizes(
    panes: Seq<Pane>,
    inner: Seq<(PaneId, Rect)>,
    n: int,
    i: int,
)
    requires
        0 <= i < n <= inner.len(),
        app::has_pane(panes, inner[i].0),
        inner[i].1.width >= 2,
        inner[i].1.height >= 2,
    ensures
        resizes(panes, inner, n).contains(
            EffectView::Resize {
                pane: inner[i].0,
                rows: inner[i].1.height as int,
                cols: inner[i].1.width as int,
            },
        ),
    decreases n,
{
    let x = EffectView::Resize {
        pane: inner[i].0,
        rows: inner[i].1.height as int,
        cols: inner[i].1.width as int,
    };
    let before = resizes(panes, inner, n - 1);
    let all = resizes(panes, inner, n);
    if i == n - 1 {
        assert(all.last() == x);
        assert(all[all.len() - 1] == x);
    } else {
        panes_get_their_sizes(panes, inner, n - 1, i);
        let k = choose|k: int| 0 <= k < before.len() && before[k] == x;
        assert(all[k] == x);
    }
}

/// A pane that is alone uses its whole area; among others it leaves one cell on each side for its
/// border.
pub proof fn borders_take_one_cell(areas: Seq<(PaneId, Rect)>, i: int)
    requires
        0 <= i < areas.len(),
        areas[i].1.wf(),
        areas[i].1.width >= 2,
        areas[i].1.height >= 2,
    ensures
        ({
            let (id, rect) = areas[i];
            let (same, inner) = inner_rects(areas)[i];
            &&& inner_rects(areas).len() == areas.len()
            &&& same == id
            &&& areas.len() == 1 ==> inner == rect
            &&& areas.len() > 1 ==> inner.x == rect.x + 1 && inner.y == rect.y + 1 && inner.width
                == rect.width - 2 && inner.height == rect.height - 2
        }),
{
}

/// The panes have all of the screen but the two rows of the tab bar at the top.
pub proof fn panes_have_the_rest_of_the_screen(area: Rect)
    requires
        area.wf(),
        area.height >= 2,
    ensures
        content_area(area).x == area.x,
        content_area(area).width == area.width,
        content_area(area).y == area.y + 2,
        content_area(area).y + content_area(area).height == area.y + area.height,
{
}

/// The program ends when its last tab is closed, and not before; the active tab is always one that
/// is left, and the same one where that is not behind the last.
pub proof fn the_last_tab_ends_the_program(pre: App, id: PaneId, post: App)
    requires
        pre.wf(),
        pre.active_tab < pre.tabs@.len(),
        closed(pre, id, post),
    ensures
        post.should_quit == (pre.should_quit || post.tabs@.len() == 0),
        post.tabs@.len() > 0 ==> post.active_tab < post.tabs@.len(),
        pre.active_tab < post.tabs@.len() ==> post.active_tab == pre.active_tab,
        post.tabs@.len() + 1 >= pre.tabs@.len(),
{
    tab_of_is_first(pre.tabs@, id);
}

/// The last pane is not closed without a question.
pub proof fn the_last_pane_is_asked_for(pre: App, id: PaneId, post: App)
    requires
        close_requested(pre, id, post),
        pre.panes@.len() <= 1,
    ensures
        post.panes == pre.panes,
        post.tabs == pre.tabs,
        post.confirm is Some,
        post.should_quit == pre.should_quit,
        request_effects(pre.panes@, id).len() == 0,
{
}

/// The parts of the tab bar stand side by side with one column between them, the first one where the
/// bar begins, and a tab is left out only where there is no room for it.
pub proof fn tabs_stand_side_by_side(
    tabs: Seq<Tab>,
    active_tab: int,
    width: int,
    min_w: int,
    i: int,
    x: int,
    k: int,
)
    requires
        0 <= i <= tabs.len(),
        forall|t: int|
            0 <= t < tabs.len() ==> label_of((#[trigger] tabs[t]).name@, min_w).len() < 65536,
        0 <= k,
    ensures
        ({
            let segs = segs_from(tabs, active_tab, width, min_w, i, x);
            &&& segs.len() > 0 ==> segs[0].x == x
            &&& k + 1 < segs.len() ==> segs[k + 1].x == segs[k].x + segs[k].text.len() + 1
            &&& i < tabs.len() && x + tabs[i].name@.len() + 4 <= width && x + min_w + 2 <= width
                ==> segs.len() > 0 && segs[0].kind is Switch
            &&& i == tabs.len() && x + 3 <= width ==> segs.len() == 1 && segs[0].kind is NewTab
        }),
    decreases tabs.len() - i,
{
    if i < tabs.len() {
        let tab = tabs[i];
        let next = x + label_width(tab.name@, min_w) + 1;
        if next <= width {
            let rest = segs_from(tabs, active_tab, width, min_w, i + 1, next);
            let segs = segs_from(tabs, active_tab, width, min_w, i, x);
            tabs_stand_side_by_side(
                tabs,
                active_tab,
                width,
                min_w,
                i + 1,
                next,
                if k > 0 {
                    k - 1
                } else {
                    0
                },
            );
            if k + 1 < segs.len() {
                assert(segs[k + 1] == rest[k]);
                if k > 0 {
                    assert(segs[k] == rest[k - 1]);
                }
            }
        }
    }
}

/// Closing a pane leaves the focus of its tab where it is, unless the pane had it; then it goes to the
/// first pane that is left in the tab.
pub proof fn closing_keeps_the_focus(pre: App, id: PaneId, post: App)
    requires
        pre.wf(),
        app::in_tabs(pre.tabs@, id),
        closed(pre, id, post),
        layout::without(pre.tabs@[tab_of(pre.tabs@, id)].layout, id) is Some,
    ensures
        ({
            let ti = tab_of(pre.tabs@, id);
            let tab = pre.tabs@[ti];
            &&& post.tabs@.len() == pre.tabs@.len()
            &&& post.active_tab == pre.active_tab
            &&& tab.focus != id ==> post.tabs@[ti].focus == tab.focus
            &&& tab.focus == id ==> post.tabs@[ti].focus == layout::leaves_of(
                post.tabs@[ti].layout,
            )[0]
            &&& post.tabs@[ti].name == tab.name
        }),
{
    tab_of_is_first(pre.tabs@, id);
}

} // verus!
