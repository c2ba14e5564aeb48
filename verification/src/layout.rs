//! The binary tiling tree of a tab: where each pane goes, where the dividers run, and how the
//! tree changes when panes come and go.

use vstd::prelude::*;
use crate::geometry::Rect;
use crate::ratio;
use crate::ratio::{Ratio, HALF};

verus! {

/// Names a pane for as long as the program runs.
#[derive(Clone, Copy, PartialEq, Eq, Hash, Debug, Structural)]
pub struct PaneId(pub u64);

/// Names a split of the tree.
#[derive(Clone, Copy, PartialEq, Eq, Hash, Debug, Structural)]
pub struct SplitId(pub u64);

/// How a split divides its area: side by side, or one above the other.
#[derive(Clone, Copy, PartialEq, Eq, Debug, Structural)]
pub enum SplitDir {
    LeftRight,
    TopBottom,
}

/// A tiling tree. `ratio` is the share of the first side.
pub enum Layout {
    Leaf(PaneId),
    Split { id: SplitId, dir: SplitDir, ratio: Ratio, first: Box<Layout>, second: Box<Layout> },
}

/// The border between the two sides of a split, for dragging: `bounds` is the area of the whole
/// split and `line` the strip of cells that can be grabbed.
#[derive(Clone, Copy, PartialEq, Eq, Debug, Structural)]
pub struct Divider {
    pub id: SplitId,
    pub dir: SplitDir,
    pub bounds: Rect,
    pub line: Rect,
}

/// The extent of an area in the direction in which a split divides it.
pub open spec fn extent_along(area: Rect, dir: SplitDir) -> int {
    match dir {
        SplitDir::LeftRight => area.width as int,
        SplitDir::TopBottom => area.height as int,
    }
}

/// The first `cells` columns or rows of an area.
pub open spec fn first_part(area: Rect, dir: SplitDir, cells: int) -> Rect {
    match dir {
        SplitDir::LeftRight => Rect { width: cells as u16, ..area },
        SplitDir::TopBottom => Rect { height: cells as u16, ..area },
    }
}

/// What the first `cells` columns or rows leave of an area.
pub open spec fn second_part(area: Rect, dir: SplitDir, cells: int) -> Rect {
    match dir {
        SplitDir::LeftRight => Rect {
            x: (area.x + cells) as u16,
            width: (area.width - cells) as u16,
            ..area
        },
        SplitDir::TopBottom => Rect {
            y: (area.y + cells) as u16,
            height: (area.height - cells) as u16,
            ..area
        },
    }
}

/// The strip two cells wide over the border behind the first `cells` columns or rows.
pub open spec fn divider_line(area: Rect, dir: SplitDir, cells: int) -> Rect {
    match dir {
        SplitDir::LeftRight => Rect::at(
            area.x + cells - 1,
            area.y as int,
            2,
            area.height as int,
        ),
        SplitDir::TopBottom => Rect::at(area.x as int, area.y + cells - 1, area.width as int, 2),
    }
}

/// The panes of the tree that have room in `area`, from left to right and from top to bottom,
/// each with its rectangle. Where an area is too small to be divided, the first side has all of
/// it.
pub open spec fn placements(tree: Layout, area: Rect) -> Seq<(PaneId, Rect)>
    decreases tree,
{
    match tree {
        Layout::Leaf(id) => seq![(id, area)],
        Layout::Split { id, dir, ratio, first, second } => {
            let extent = extent_along(area, dir);
            if extent < 2 {
                placements(*first, area)
            } else {
                let cells = ratio::share_of(extent, ratio);
                placements(*first, first_part(area, dir, cells)) + placements(
                    *second,
                    second_part(area, dir, cells),
                )
            }
        },
    }
}

/// The dividers of the splits that have room in `area`, a split before those inside it.
pub open spec fn dividers_of(tree: Layout, area: Rect) -> Seq<Divider>
    decreases tree,
{
    match tree {
        Layout::Leaf(_) => Seq::empty(),
        Layout::Split { id, dir, ratio, first, second } => {
            let extent = extent_along(area, dir);
            if extent < 2 {
                dividers_of(*first, area)
            } else {
                let cells = ratio::share_of(extent, ratio);
                seq![Divider { id, dir, bounds: area, line: divider_line(area, dir, cells) }]
                    + dividers_of(*first, first_part(area, dir, cells)) + dividers_of(
                    *second,
                    second_part(area, dir, cells),
                )
            }
        },
    }
}

/// The panes of the tree, from left to right and from top to bottom.
pub open spec fn leaves_of(tree: Layout) -> Seq<PaneId>
    decreases tree,
{
    match tree {
        Layout::Leaf(id) => seq![id],
        Layout::Split { id, dir, ratio, first, second } => leaves_of(*first) + leaves_of(*second),
    }
}

/// The splits of the tree, a split before those inside it.
pub open spec fn splits_of(tree: Layout) -> Seq<SplitId>
    decreases tree,
{
    match tree {
        Layout::Leaf(_) => Seq::empty(),
        Layout::Split { id, dir, ratio, first, second } => seq![id] + splits_of(*first) + splits_of(
            *second,
        ),
    }
}

/// The tree with the share of the splits named `id` set to `ratio`. Splits inside one of that
/// name are left alone.
pub open spec fn with_ratio(tree: Layout, id: SplitId, ratio: Ratio) -> Layout
    decreases tree,
{
    match tree {
        Layout::Leaf(_) => tree,
        Layout::Split { id: sid, dir, ratio: r, first, second } => if sid == id {
            Layout::Split { id: sid, dir, ratio, first, second }
        } else {
            Layout::Split {
                id: sid,
                dir,
                ratio: r,
                first: Box::new(with_ratio(*first, id, ratio)),
                second: Box::new(with_ratio(*second, id, ratio)),
            }
        },
    }
}

/// The tree whose first leaf `target` has become a split of `target` and `new_pane` in equal
/// shares.
pub open spec fn with_split(
    tree: Layout,
    target: PaneId,
    new_split: SplitId,
    dir: SplitDir,
    new_pane: PaneId,
) -> Layout
    decreases tree,
{
    match tree {
        Layout::Leaf(id) => if id == target {
            Layout::Split {
                id: new_split,
                dir,
                ratio: Ratio { parts: HALF },
                first: Box::new(Layout::Leaf(target)),
                second: Box::new(Layout::Leaf(new_pane)),
            }
        } else {
            tree
        },
        Layout::Split { id, dir: d, ratio, first, second } => if leaves_of(*first).contains(
            target,
        ) {
            Layout::Split {
                id,
                dir: d,
                ratio,
                first: Box::new(with_split(*first, target, new_split, dir, new_pane)),
                second,
            }
        } else {
            Layout::Split {
                id,
                dir: d,
                ratio,
                first,
                second: Box::new(with_split(*second, target, new_split, dir, new_pane)),
            }
        },
    }
}

/// What is left of the tree without the leaves `target`: a split that loses a side gives way to
/// the other one.
pub open spec fn without(tree: Layout, target: PaneId) -> Option<Layout>
    decreases tree,
{
    match tree {
        Layout::Leaf(id) => if id == target {
            None
        } else {
            Some(tree)
        },
        Layout::Split { id, dir, ratio, first, second } => match (
            without(*first, target),
            without(*second, target),
        ) {
            (None, None) => None,
            (Some(x), None) => Some(x),
            (None, Some(y)) => Some(y),
            (Some(x), Some(y)) => Some(
                Layout::Split { id, dir, ratio, first: Box::new(x), second: Box::new(y) },
            ),
        },
    }
}

/// Every split of the tree has a share that a split can have.
pub open spec fn ratios_wf(tree: Layout) -> bool
    decreases tree,
{
    match tree {
        Layout::Leaf(_) => true,
        Layout::Split { id, dir, ratio, first, second } => {
            &&& ratio.wf()
            &&& ratios_wf(*first)
            &&& ratios_wf(*second)
        },
    }
}

/// The list with the entry for `id` set to `rect`: in its place, or at the end if it is new.
pub open spec fn put_area(areas: Seq<(PaneId, Rect)>, id: PaneId, rect: Rect) -> Seq<
    (PaneId, Rect),
>
    decreases areas.len(),
{
    if areas.len() == 0 {
        seq![(id, rect)]
    } else if areas[0].0 == id {
        areas.update(0, (id, rect))
    } else {
        seq![areas[0]] + put_area(areas.drop_first(), id, rect)
    }
}

/// The list with all the entries of `more` set in turn.
pub open spec fn put_areas(areas: Seq<(PaneId, Rect)>, more: Seq<(PaneId, Rect)>) -> Seq<
    (PaneId, Rect),
>
    decreases more.len(),
{
    if more.len() == 0 {
        areas
    } else {
        let before = put_areas(areas, more.drop_last());
        put_area(before, more.last().0, more.last().1)
    }
}

/// No pane occurs twice.
pub open spec fn distinct_areas(areas: Seq<(PaneId, Rect)>) -> bool {
    forall|i: int, j: int|
        0 <= i < j < areas.len() ==> #[trigger] areas[i].0 != #[trigger] areas[j].0
}

proof fn put_area_at(areas: Seq<(PaneId, Rect)>, k: int, id: PaneId, rect: Rect)
    requires
        0 <= k <= areas.len(),
        forall|j: int| 0 <= j < k ==> (#[trigger] areas[j]).0 != id,
        k < areas.len() ==> areas[k].0 == id,
    ensures
        put_area(areas, id, rect) == if k < areas.len() {
            areas.update(k, (id, rect))
        } else {
            areas.push((id, rect))
        },
    decreases areas.len(),
{
    if areas.len() > 0 && k > 0 {
        assert(areas[0].0 != id);
        let rest = areas.drop_first();
        assert forall|j: int| 0 <= j < k - 1 implies (#[trigger] rest[j]).0 != id by {
            assert(rest[j] == areas[j + 1]);
        }
        put_area_at(rest, k - 1, id, rect);
        assert(put_area(areas, id, rect) =~= if k < areas.len() {
            areas.update(k, (id, rect))
        } else {
            areas.push((id, rect))
        });
    } else if areas.len() == 0 {
        assert(put_area(areas, id, rect) =~= areas.push((id, rect)));
    }
}

proof fn put_areas_append(
    areas: Seq<(PaneId, Rect)>,
    a: Seq<(PaneId, Rect)>,
    b: Seq<(PaneId, Rect)>,
)
    ensures
        put_areas(areas, a + b) == put_areas(put_areas(areas, a), b),
    decreases b.len(),
{
    if b.len() == 0 {
        assert(a + b =~= a);
    } else {
        put_areas_append(areas, a, b.drop_last());
        assert((a + b).drop_last() =~= a + b.drop_last());
        assert((a + b).last() == b.last());
    }
}

/// Sets the rectangle of a pane.
pub fn set_area(areas: &mut Vec<(PaneId, Rect)>, id: PaneId, rect: Rect)
    ensures
        final(areas)@ == put_area(old(areas)@, id, rect),
{
    let mut k: usize = 0;
    while k < areas.len()
        invariant
            0 <= k <= areas.len(),
            areas@ == old(areas)@,
            forall|j: int| 0 <= j < k ==> (#[trigger] areas@[j]).0 != id,
        decreases areas.len() - k,
    {
        if areas[k].0 == id {
            proof {
                put_area_at(areas@, k as int, id, rect);
            }
            areas.set(k, (id, rect));
            return;
        }
        k += 1;
    }
    proof {
        put_area_at(areas@, k as int, id, rect);
    }
    areas.push((id, rect));
}

/// The rectangle of a pane in a list of areas: that of the first entry with its name.
pub open spec fn area_of(areas: Seq<(PaneId, Rect)>, id: PaneId) -> Option<Rect>
    decreases areas.len(),
{
    if areas.len() == 0 {
        None
    } else if areas[0].0 == id {
        Some(areas[0].1)
    } else {
        area_of(areas.drop_first(), id)
    }
}

/// Looks up the rectangle of a pane.
pub fn find_area(areas: &Vec<(PaneId, Rect)>, id: PaneId) -> (r: Option<Rect>)
    ensures
        r == area_of(areas@, id),
        r is Some ==> exists|i: int|
            0 <= i < areas.len() && #[trigger] areas@[i] == (id, r->0),
{
    let mut k: usize = 0;
    assert(areas@.subrange(0, areas.len() as int) =~= areas@);
    while k < areas.len()
        invariant
            0 <= k <= areas.len(),
            area_of(areas@, id) == area_of(areas@.subrange(k as int, areas.len() as int), id),
        decreases areas.len() - k,
    {
        let ghost rest = areas@.subrange(k as int, areas.len() as int);
        assert(rest[0] == areas@[k as int]);
        if areas[k].0 == id {
            return Some(areas[k].1);
        }
        assert(rest.drop_first() =~= areas@.subrange(k + 1, areas.len() as int));
        k += 1;
    }
    None
}

impl Layout {
    /// Places the panes of the tree in `area`: sets the rectangle of each in `areas`, and adds the
    /// dividers to `dividers`.
    pub fn compute(
        &self,
        area: Rect,
        areas: &mut Vec<(PaneId, Rect)>,
        dividers: &mut Vec<Divider>,
    )
        requires
            area.wf(),
            ratios_wf(*self),
        ensures
            final(areas)@ == put_areas(old(areas)@, placements(*self, area)),
            final(dividers)@ == old(dividers)@ + dividers_of(*self, area),
        decreases *self,
    {
        match self {
            Layout::Leaf(id) => {
                set_area(areas, *id, area);
                proof {
                    let more = placements(*self, area);
                    assert(more.drop_last() =~= Seq::empty());
                    reveal_with_fuel(put_areas, 2);
                    assert(dividers@ =~= dividers@ + dividers_of(*self, area));
                }
            },
            Layout::Split { id, dir, ratio, first, second } => {
                let extent: u16 = match dir {
                    SplitDir::LeftRight => area.width,
                    SplitDir::TopBottom => area.height,
                };
                if extent < 2 {
                    first.compute(area, areas, dividers);
                    return;
                }
                let cells: u16 = ratio.of_extent(extent);
                let (first_rect, second_rect, line) = match dir {
                    SplitDir::LeftRight => (
                        Rect::new(area.x, area.y, cells, area.height),
                        Rect::new(area.x + cells, area.y, extent - cells, area.height),
                        Rect::new(area.x + cells - 1, area.y, 2, area.height),
                    ),
                    SplitDir::TopBottom => (
                        Rect::new(area.x, area.y, area.width, cells),
                        Rect::new(area.x, area.y + cells, area.width, extent - cells),
                        Rect::new(area.x, area.y + cells - 1, area.width, 2),
                    ),
                };
                let ghost areas0 = areas@;
                let ghost dividers0 = dividers@;
                dividers.push(Divider { id: *id, dir: *dir, bounds: area, line });
                first.compute(first_rect, areas, dividers);
                second.compute(second_rect, areas, dividers);
                proof {
                    put_areas_append(
                        areas0,
                        placements(**first, first_rect),
                        placements(**second, second_rect),
                    );
                    assert(dividers@ =~= dividers0 + dividers_of(*self, area));
                }
            },
        }
    }

    /// Sets the share of the split named `id`, as far as a split can have that share.
    pub fn set_ratio(&mut self, id: SplitId, ratio: Ratio)
        ensures
            *final(self) == with_ratio(
                *old(self),
                id,
                Ratio { parts: ratio::clamp_parts(ratio.parts as int) as u64 },
            ),
            ratios_wf(*old(self)) ==> ratios_wf(*final(self)),
            leaves_of(*final(self)) == leaves_of(*old(self)),
        decreases *old(self),
    {
        match self {
            Layout::Leaf(_) => {},
            Layout::Split { id: sid, dir: _, ratio: r, first, second } => {
                if *sid == id {
                    *r = ratio.clamped();
                } else {
                    first.set_ratio(id, ratio);
                    second.set_ratio(id, ratio);
                }
            },
        }
    }

    /// Turns the first leaf `target` into a split of `target` and `new_pane`. Tells whether there
    /// was one.
    pub fn split_leaf(
        &mut self,
        target: PaneId,
        new_split: SplitId,
        dir: SplitDir,
        new_pane: PaneId,
    ) -> (done: bool)
        ensures
            done == leaves_of(*old(self)).contains(target),
            *final(self) == if done {
                with_split(*old(self), target, new_split, dir, new_pane)
            } else {
                *old(self)
            },
            ratios_wf(*old(self)) ==> ratios_wf(*final(self)),
        decreases *old(self),
    {
        match self {
            Layout::Leaf(id) => {
                let id: PaneId = *id;
                assert(leaves_of(*old(self))[0] == id);
                if id == target {
                    proof {
                        reveal_with_fuel(ratios_wf, 2);
                    }
                    let ratio = Ratio::half();
                    *self = Layout::Split {
                        id: new_split,
                        dir,
                        ratio,
                        first: Box::new(Layout::Leaf(id)),
                        second: Box::new(Layout::Leaf(new_pane)),
                    };
                    true
                } else {
                    false
                }
            },
            Layout::Split { id: _, dir: _, ratio: _, first, second } => {
                let ghost a = leaves_of(**first);
                let ghost b = leaves_of(**second);
                proof {
                    contains_append(a, b, target);
                }
                if first.split_leaf(target, new_split, dir, new_pane) {
                    true
                } else {
                    second.split_leaf(target, new_split, dir, new_pane)
                }
            },
        }
    }

    /// The leftmost, topmost pane: the new focus when a focused pane has gone.
    pub fn first_leaf(&self) -> (r: PaneId)
        ensures
            leaves_of(*self).len() > 0,
            r == leaves_of(*self)[0],
        decreases *self,
    {
        match self {
            Layout::Leaf(id) => *id,
            Layout::Split { id: _, dir: _, ratio: _, first, second: _ } => first.first_leaf(),
        }
    }

    /// Whether the pane is in the tree.
    pub fn contains(&self, target: PaneId) -> (r: bool)
        ensures
            r == leaves_of(*self).contains(target),
        decreases *self,
    {
        match self {
            Layout::Leaf(id) => {
                assert(leaves_of(*self)[0] == *id);
                *id == target
            },
            Layout::Split { id: _, dir: _, ratio: _, first, second } => {
                proof {
                    contains_append(leaves_of(**first), leaves_of(**second), target);
                }
                first.contains(target) || second.contains(target)
            },
        }
    }

    /// Adds the panes of the tree to `out`.
    pub fn leaves(&self, out: &mut Vec<PaneId>)
        ensures
            final(out)@ == old(out)@ + leaves_of(*self),
        decreases *self,
    {
        match self {
            Layout::Leaf(id) => {
                out.push(*id);
                assert(out@ =~= old(out)@ + leaves_of(*self));
            },
            Layout::Split { id: _, dir: _, ratio: _, first, second } => {
                first.leaves(out);
                second.leaves(out);
                assert(out@ =~= old(out)@ + leaves_of(*self));
            },
        }
    }
}

proof fn contains_append(a: Seq<PaneId>, b: Seq<PaneId>, x: PaneId)
    ensures
        (a + b).contains(x) <==> a.contains(x) || b.contains(x),
{
    if a.contains(x) {
        let i = choose|i: int| 0 <= i < a.len() && a[i] == x;
        assert((a + b)[i] == x);
    }
    if b.contains(x) {
        let i = choose|i: int| 0 <= i < b.len() && b[i] == x;
        assert((a + b)[a.len() + i] == x);
    }
}

/// Takes the pane `target` out of the tree; a split that loses a side gives way to the other one.
/// `None` where nothing is left.
pub fn remove_pane(node: Layout, target: PaneId) -> (r: Option<Layout>)
    ensures
        r == without(node, target),
        ratios_wf(node) && r is Some ==> ratios_wf(r->0),
    decreases node,
{
    match node {
        Layout::Leaf(id) => {
            if id == target {
                None
            } else {
                Some(Layout::Leaf(id))
            }
        },
        Layout::Split { id, dir, ratio, first, second } => {
            let f = remove_pane(*first, target);
            let s = remove_pane(*second, target);
            match (f, s) {
                (None, None) => None,
                (Some(x), None) => Some(x),
                (None, Some(y)) => Some(y),
                (Some(x), Some(y)) => Some(
                    Layout::Split { id, dir, ratio, first: Box::new(x), second: Box::new(y) },
                ),
            }
        },
    }
}

/// Placing a tree divides the area among the panes that have room: every rectangle lies inside
/// the area, no two of them share a cell, and every cell of the area belongs to one of them.
pub proof fn placements_tile_the_area(tree: Layout, area: Rect)
    requires
        area.wf(),
        ratios_wf(tree),
    ensures
        placements(tree, area).len() > 0,
        forall|i: int|
            0 <= i < placements(tree, area).len() ==> {
                &&& (#[trigger] placements(tree, area)[i]).1.wf()
                &&& placements(tree, area)[i].1.inside(area)
            },
        forall|i: int, j: int, col: int, row: int|
            0 <= i < j < placements(tree, area).len() ==> !((#[trigger] placements(
                tree,
                area,
            )[i].1.has(col, row)) && #[trigger] placements(tree, area)[j].1.has(col, row)),
        forall|col: int, row: int| #[trigger]
            area.has(col, row) ==> exists|i: int|
                0 <= i < placements(tree, area).len() && #[trigger] placements(tree, area)[i].1.has(
                    col,
                    row,
                ),
    decreases tree,
{
    let all = placements(tree, area);
    match tree {
        Layout::Leaf(id) => {
            assert(all[0].1 == area);
            assert forall|col: int, row: int| #[trigger] area.has(col, row) implies exists|i: int|
                0 <= i < all.len() && #[trigger] all[i].1.has(col, row) by {
                assert(all[0].1.has(col, row));
            }
        },
        Layout::Split { id, dir, ratio, first, second } => {
            let extent = extent_along(area, dir);
            if extent < 2 {
                placements_tile_the_area(*first, area);
            } else {
                let cells = ratio::share_of(extent, ratio);
                let fa = first_part(area, dir, cells);
                let sa = second_part(area, dir, cells);
                assert(1 <= cells < extent);
                let a = placements(*first, fa);
                let b = placements(*second, sa);
                placements_tile_the_area(*first, fa);
                placements_tile_the_area(*second, sa);
                assert(all == a + b);
                assert forall|i: int| 0 <= i < all.len() implies {
                    &&& (#[trigger] all[i]).1.wf()
                    &&& all[i].1.inside(area)
                } by {
                    if i < a.len() {
                        assert(all[i] == a[i]);
                        assert(a[i].1.inside(fa));
                    } else {
                        assert(all[i] == b[i - a.len()]);
                        assert(b[i - a.len()].1.inside(sa));
                    }
                }
                assert forall|i: int, j: int, col: int, row: int|
                    0 <= i < j < all.len() implies !((#[trigger] all[i].1.has(col, row))
                    && #[trigger] all[j].1.has(col, row)) by {
                    if j < a.len() {
                        assert(all[i] == a[i] && all[j] == a[j]);
                    } else if i >= a.len() {
                        assert(all[i] == b[i - a.len()] && all[j] == b[j - a.len()]);
                        assert(!(b[i - a.len()].1.has(col, row) && b[j - a.len()].1.has(col, row)));
                    } else {
                        assert(all[i] == a[i] && all[j] == b[j - a.len()]);
                        assert(a[i].1.inside(fa));
                        assert(b[j - a.len()].1.inside(sa));
                        if a[i].1.has(col, row) && b[j - a.len()].1.has(col, row) {
                            assert(fa.has(col, row) && sa.has(col, row));
                        }
                    }
                }
                assert forall|col: int, row: int| #[trigger] area.has(col, row) implies exists|
                    i: int,
                |
                    0 <= i < all.len() && #[trigger] all[i].1.has(col, row) by {
                    if fa.has(col, row) {
                        let i = choose|i: int| 0 <= i < a.len() && #[trigger] a[i].1.has(col, row);
                        assert(all[i].1.has(col, row));
                    } else {
                        assert(sa.has(col, row));
                        let i = choose|i: int| 0 <= i < b.len() && #[trigger] b[i].1.has(col, row);
                        assert(all[a.len() + i].1.has(col, row));
                    }
                }
            }
        },
    }
}

/// Only panes of the tree are placed.
pub proof fn placed_panes_are_leaves(tree: Layout, area: Rect)
    ensures
        forall|i: int|
            0 <= i < placements(tree, area).len() ==> leaves_of(tree).contains(
                (#[trigger] placements(tree, area)[i]).0,
            ),
    decreases tree,
{
    match tree {
        Layout::Leaf(id) => {
            assert(leaves_of(tree)[0] == id);
        },
        Layout::Split { id, dir, ratio, first, second } => {
            let extent = extent_along(area, dir);
            let cells = ratio::share_of(extent, ratio);
            let (fa, sa) = if extent < 2 {
                (area, area)
            } else {
                (first_part(area, dir, cells), second_part(area, dir, cells))
            };
            placed_panes_are_leaves(*first, fa);
            placed_panes_are_leaves(*second, sa);
            let a = placements(*first, fa);
            let b = placements(*second, sa);
            assert forall|i: int| 0 <= i < placements(tree, area).len() implies leaves_of(
                tree,
            ).contains((#[trigger] placements(tree, area)[i]).0) by {
                let p = placements(tree, area)[i].0;
                contains_append(leaves_of(*first), leaves_of(*second), p);
                if i < a.len() {
                    assert(placements(tree, area)[i] == a[i]);
                } else {
                    assert(placements(tree, area)[i] == b[i - a.len()]);
                }
            }
        },
    }
}

/// In a tree in which no pane occurs twice, no pane is placed twice.
pub proof fn placed_panes_are_distinct(tree: Layout, area: Rect)
    requires
        leaves_of(tree).no_duplicates(),
    ensures
        distinct_areas(placements(tree, area)),
    decreases tree,
{
    match tree {
        Layout::Leaf(id) => {},
        Layout::Split { id, dir, ratio, first, second } => {
            let extent = extent_along(area, dir);
            let cells = ratio::share_of(extent, ratio);
            let la = leaves_of(*first);
            let lb = leaves_of(*second);
            halves_without_duplicates(la, lb);
            if extent < 2 {
                placed_panes_are_distinct(*first, area);
            } else {
                let fa = first_part(area, dir, cells);
                let sa = second_part(area, dir, cells);
                placed_panes_are_distinct(*first, fa);
                placed_panes_are_distinct(*second, sa);
                placed_panes_are_leaves(*first, fa);
                placed_panes_are_leaves(*second, sa);
                let a = placements(*first, fa);
                let b = placements(*second, sa);
                let all = placements(tree, area);
                assert forall|i: int, j: int| 0 <= i < j < all.len() implies #[trigger] all[i].0
                    != #[trigger] all[j].0 by {
                    if j < a.len() {
                        assert(a[i].0 != a[j].0);
                    } else if i >= a.len() {
                        assert(b[i - a.len()].0 != b[j - a.len()].0);
                    } else {
                        assert(la.contains(a[i].0));
                        assert(lb.contains(b[j - a.len()].0));
                    }
                }
            }
        },
    }
}

proof fn halves_without_duplicates(a: Seq<PaneId>, b: Seq<PaneId>)
    requires
        (a + b).no_duplicates(),
    ensures
        a.no_duplicates(),
        b.no_duplicates(),
        forall|x: PaneId| !(#[trigger] a.contains(x) && b.contains(x)),
{
    let all = a + b;
    assert forall|i: int, j: int| 0 <= i < a.len() && 0 <= j < a.len() && i != j implies a[i]
        != a[j] by {
        assert(all[i] == a[i] && all[j] == a[j]);
    }
    assert forall|i: int, j: int| 0 <= i < b.len() && 0 <= j < b.len() && i != j implies b[i]
        != b[j] by {
        assert(all[a.len() + i] == b[i] && all[a.len() + j] == b[j]);
    }
    assert forall|x: PaneId| !(#[trigger] a.contains(x) && b.contains(x)) by {
        if a.contains(x) && b.contains(x) {
            let i = choose|i: int| 0 <= i < a.len() && a[i] == x;
            let j = choose|j: int| 0 <= j < b.len() && b[j] == x;
            assert(all[i] == all[a.len() + j]);
        }
    }
}

/// Setting entries that name no pane twice in an empty list gives just those entries.
pub proof fn fresh_areas(more: Seq<(PaneId, Rect)>)
    requires
        distinct_areas(more),
    ensures
        put_areas(Seq::empty(), more) == more,
    decreases more.len(),
{
    if more.len() > 0 {
        let rest = more.drop_last();
        fresh_areas(rest);
        put_area_at(rest, rest.len() as int, more.last().0, more.last().1);
        assert(rest.push(more.last()) =~= more);
    } else {
        assert(more =~= Seq::empty());
    }
}

/// The panes but for one.
pub open spec fn others(panes: Seq<PaneId>, target: PaneId) -> Seq<PaneId>
    decreases panes.len(),
{
    if panes.len() == 0 {
        panes
    } else if panes.last() == target {
        others(panes.drop_last(), target)
    } else {
        others(panes.drop_last(), target).push(panes.last())
    }
}

proof fn others_append(a: Seq<PaneId>, b: Seq<PaneId>, target: PaneId)
    ensures
        others(a + b, target) == others(a, target) + others(b, target),
    decreases b.len(),
{
    if b.len() == 0 {
        assert(a + b =~= a);
        assert(others(a, target) + others(b, target) =~= others(a, target));
    } else {
        others_append(a, b.drop_last(), target);
        assert((a + b).drop_last() =~= a + b.drop_last());
        assert(others(a + b, target) =~= others(a, target) + others(b, target));
    }
}

/// Taking a pane out leaves the other panes in their order; nothing is left exactly where there
/// was no other pane.
pub proof fn removal_keeps_the_others(tree: Layout, target: PaneId)
    ensures
        match without(tree, target) {
            Some(rest) => leaves_of(rest) == others(leaves_of(tree), target),
            None => others(leaves_of(tree), target).len() == 0,
        },
        without(tree, target) is Some ==> leaves_of(without(tree, target)->0).len() > 0,
    decreases tree,
{
    match tree {
        Layout::Leaf(id) => {
            let leaf = seq![id];
            assert(leaf.drop_last() =~= Seq::empty());
            assert(others(leaf.drop_last(), target) =~= Seq::empty());
            assert(others(leaf, target) =~= if id == target {
                Seq::empty()
            } else {
                leaf
            });
        },
        Layout::Split { id, dir, ratio, first, second } => {
            removal_keeps_the_others(*first, target);
            removal_keeps_the_others(*second, target);
            let a = leaves_of(*first);
            let b = leaves_of(*second);
            others_append(a, b, target);
            assert(others(a, target).len() == 0 ==> others(a, target) + others(b, target)
                =~= others(b, target));
            assert(others(b, target).len() == 0 ==> others(a, target) + others(b, target)
                =~= others(a, target));
        },
    }
}

/// Taking out a pane that is not in the tree changes nothing.
pub proof fn removal_of_a_stranger(tree: Layout, target: PaneId)
    requires
        !leaves_of(tree).contains(target),
    ensures
        without(tree, target) == Some(tree),
    decreases tree,
{
    match tree {
        Layout::Leaf(id) => {
            assert(leaves_of(tree)[0] == id);
        },
        Layout::Split { id, dir, ratio, first, second } => {
            contains_append(leaves_of(*first), leaves_of(*second), target);
            removal_of_a_stranger(*first, target);
            removal_of_a_stranger(*second, target);
        },
    }
}

/// Splitting a pane and closing the new one gives the tree back as it was.
pub proof fn removal_undoes_split(
    tree: Layout,
    target: PaneId,
    new_split: SplitId,
    dir: SplitDir,
    new_pane: PaneId,
)
    requires
        leaves_of(tree).contains(target),
        !leaves_of(tree).contains(new_pane),
    ensures
        without(with_split(tree, target, new_split, dir, new_pane), new_pane) == Some(tree),
    decreases tree,
{
    match tree {
        Layout::Leaf(id) => {
            assert(leaves_of(tree)[0] == id);
            reveal_with_fuel(without, 2);
        },
        Layout::Split { id, dir: d, ratio, first, second } => {
            contains_append(leaves_of(*first), leaves_of(*second), target);
            contains_append(leaves_of(*first), leaves_of(*second), new_pane);
            if leaves_of(*first).contains(target) {
                removal_undoes_split(*first, target, new_split, dir, new_pane);
                removal_of_a_stranger(*second, new_pane);
            } else {
                removal_undoes_split(*second, target, new_split, dir, new_pane);
                removal_of_a_stranger(*first, new_pane);
            }
        },
    }
}

/// A split puts the new pane right behind the one that was split, and keeps all others in place.
pub proof fn split_adds_one_leaf(
    tree: Layout,
    target: PaneId,
    new_split: SplitId,
    dir: SplitDir,
    new_pane: PaneId,
)
    requires
        leaves_of(tree).contains(target),
    ensures
        exists|k: int| #![trigger leaves_of(tree)[k]]
            0 <= k < leaves_of(tree).len() && leaves_of(tree)[k] == target && leaves_of(
                with_split(tree, target, new_split, dir, new_pane),
            ) == leaves_of(tree).insert(k + 1, new_pane),
    decreases tree,
{
    let new = leaves_of(with_split(tree, target, new_split, dir, new_pane));
    let old = leaves_of(tree);
    match tree {
        Layout::Leaf(id) => {
            assert(old[0] == id);
            reveal_with_fuel(leaves_of, 2);
            assert(new =~= old.insert(1, new_pane));
        },
        Layout::Split { id, dir: d, ratio, first, second } => {
            let a = leaves_of(*first);
            let b = leaves_of(*second);
            contains_append(a, b, target);
            if a.contains(target) {
                split_adds_one_leaf(*first, target, new_split, dir, new_pane);
                let k = choose|k: int| #![trigger a[k]]
                    0 <= k < a.len() && a[k] == target && leaves_of(
                        with_split(*first, target, new_split, dir, new_pane),
                    ) == a.insert(k + 1, new_pane);
                assert(old[k] == target);
                assert(new =~= old.insert(k + 1, new_pane));
            } else {
                split_adds_one_leaf(*second, target, new_split, dir, new_pane);
                let k = choose|k: int| #![trigger b[k]]
                    0 <= k < b.len() && b[k] == target && leaves_of(
                        with_split(*second, target, new_split, dir, new_pane),
                    ) == b.insert(k + 1, new_pane);
                assert(old[a.len() + k] == target);
                assert(new =~= old.insert(a.len() + k + 1, new_pane));
            }
        },
    }
}

/// Moving a divider keeps every pane in the tree and in its order.
pub proof fn moving_a_divider_keeps_the_panes(tree: Layout, id: SplitId, ratio: Ratio)
    ensures
        leaves_of(with_ratio(tree, id, ratio)) == leaves_of(tree),
    decreases tree,
{
    match tree {
        Layout::Leaf(_) => {},
        Layout::Split { id: sid, dir, ratio: r, first, second } => {
            moving_a_divider_keeps_the_panes(*first, id, ratio);
            moving_a_divider_keeps_the_panes(*second, id, ratio);
        },
    }
}

/// Splitting a pane gives the new pane half of its area: the pane keeps the left or the upper half,
/// the new one gets the other, and the two differ by one column or row at most.
pub proof fn splitting_halves_the_pane(
    pane: PaneId,
    new_split: SplitId,
    dir: SplitDir,
    new_pane: PaneId,
    area: Rect,
)
    requires
        area.wf(),
        2 <= extent_along(area, dir),
    ensures
        ({
            let both = placements(
                with_split(Layout::Leaf(pane), pane, new_split, dir, new_pane),
                area,
            );
            &&& both.len() == 2
            &&& both[0].0 == pane
            &&& both[1].0 == new_pane
            &&& match dir {
                SplitDir::LeftRight => {
                    &&& both[0].1.x == area.x && both[1].1.x == area.x + both[0].1.width
                    &&& both[0].1.width + both[1].1.width == area.width
                    &&& -1 <= both[0].1.width - both[1].1.width <= 1
                    &&& both[0].1.y == area.y && both[1].1.y == area.y
                    &&& both[0].1.height == area.height && both[1].1.height == area.height
                },
                SplitDir::TopBottom => {
                    &&& both[0].1.y == area.y && both[1].1.y == area.y + both[0].1.height
                    &&& both[0].1.height + both[1].1.height == area.height
                    &&& -1 <= both[0].1.height - both[1].1.height <= 1
                    &&& both[0].1.x == area.x && both[1].1.x == area.x
                    &&& both[0].1.width == area.width && both[1].1.width == area.width
                },
            }
        }),
{
    let tree = with_split(Layout::Leaf(pane), pane, new_split, dir, new_pane);
    ratio::halves_are_even(extent_along(area, dir) as u16);
    reveal_with_fuel(placements, 2);
    let cells = ratio::share_of(extent_along(area, dir), Ratio { parts: HALF });
    assert(placements(tree, area) =~= seq![
        (pane, first_part(area, dir, cells)),
        (new_pane, second_part(area, dir, cells)),
    ]);
}

/// Splitting a pane leaves the others where they are.
pub proof fn splitting_leaves_the_others_in_place(
    tree: Layout,
    target: PaneId,
    new_split: SplitId,
    dir: SplitDir,
    new_pane: PaneId,
    area: Rect,
    other: PaneId,
    rect: Rect,
)
    requires
        other != target,
        placements(tree, area).contains((other, rect)),
    ensures
        placements(with_split(tree, target, new_split, dir, new_pane), area).contains((other, rect)),
    decreases tree,
{
    let x = (other, rect);
    match tree {
        Layout::Leaf(id) => {
            assert(placements(tree, area)[0] == (id, area));
        },
        Layout::Split { id, dir: d, ratio, first, second } => {
            let after = with_split(tree, target, new_split, dir, new_pane);
            let left = leaves_of(*first).contains(target);
            if extent_along(area, d) < 2 {
                if left {
                    splitting_leaves_the_others_in_place(
                        *first,
                        target,
                        new_split,
                        dir,
                        new_pane,
                        area,
                        other,
                        rect,
                    );
                }
            } else {
                let cells = ratio::share_of(extent_along(area, d), ratio);
                let a = first_part(area, d, cells);
                let b = second_part(area, d, cells);
                let pa = placements(*first, a);
                let pb = placements(*second, b);
                let all = placements(tree, area);
                let i = choose|i: int| 0 <= i < all.len() && all[i] == x;
                if i < pa.len() {
                    assert(pa[i] == x);
                    assert(pa.contains(x));
                    if left {
                        splitting_leaves_the_others_in_place(
                            *first,
                            target,
                            new_split,
                            dir,
                            new_pane,
                            a,
                            other,
                            rect,
                        );
                    }
                } else {
                    assert(pb[i - pa.len()] == x);
                    assert(pb.contains(x));
                    if !left {
                        splitting_leaves_the_others_in_place(
                            *second,
                            target,
                            new_split,
                            dir,
                            new_pane,
                            b,
                            other,
                            rect,
                        );
                    }
                }
                let (na, nb) = if left {
                    (
                        placements(with_split(*first, target, new_split, dir, new_pane), a),
                        pb,
                    )
                } else {
                    (
                        pa,
                        placements(with_split(*second, target, new_split, dir, new_pane), b),
                    )
                };
                assert(placements(after, area) == na + nb);
                if na.contains(x) {
                    let k = choose|k: int| 0 <= k < na.len() && na[k] == x;
                    assert((na + nb)[k] == x);
                } else {
                    let k = choose|k: int| 0 <= k < nb.len() && nb[k] == x;
                    assert((na + nb)[na.len() + k] == x);
                }
            }
        },
    }
}

/// Between two panes side by side, or one above the other, the divider covers the cells on both sides
/// of the border, along all of it, and none else.
pub proof fn dividers_lie_on_the_border(
    id: SplitId,
    dir: SplitDir,
    ratio: Ratio,
    a: PaneId,
    b: PaneId,
    area: Rect,
    col: int,
    row: int,
)
    requires
        area.wf(),
        ratio.wf(),
        extent_along(area, dir) >= 2,
    ensures
        ({
            let tree = Layout::Split {
                id,
                dir,
                ratio,
                first: Box::new(Layout::Leaf(a)),
                second: Box::new(Layout::Leaf(b)),
            };
            let one = placements(tree, area)[0].1;
            let two = placements(tree, area)[1].1;
            let lines = dividers_of(tree, area);
            &&& placements(tree, area).len() == 2
            &&& lines.len() == 1
            &&& lines[0].id == id
            &&& lines[0].dir == dir
            &&& lines[0].bounds == area
            &&& dir == SplitDir::LeftRight ==> (lines[0].line.has(col, row) <==> (col == one.x
                + one.width - 1 || col == two.x) && area.y <= row < area.y + area.height)
            &&& dir == SplitDir::TopBottom ==> (lines[0].line.has(col, row) <==> (row == one.y
                + one.height - 1 || row == two.y) && area.x <= col < area.x + area.width)
        }),
{
    let first = Box::new(Layout::Leaf(a));
    let second = Box::new(Layout::Leaf(b));
    let tree = Layout::Split { id, dir, ratio, first, second };
    let extent = extent_along(area, dir);
    let cells = ratio::share_of(extent, ratio);
    assert(placements(*first, first_part(area, dir, cells)) =~= seq![
        (a, first_part(area, dir, cells)),
    ]);
    assert(placements(*second, second_part(area, dir, cells)) =~= seq![
        (b, second_part(area, dir, cells)),
    ]);
    assert(placements(tree, area) =~= seq![
        (a, first_part(area, dir, cells)),
        (b, second_part(area, dir, cells)),
    ]);
    assert(dividers_of(*first, first_part(area, dir, cells)) =~= Seq::<Divider>::empty());
    assert(dividers_of(*second, second_part(area, dir, cells)) =~= Seq::<Divider>::empty());
    assert(dividers_of(tree, area) =~= seq![
        Divider { id, dir, bounds: area, line: divider_line(area, dir, cells) },
    ]);
}

/// What was set for a pane is what is found for it, and nothing else is changed.
pub proof fn set_areas_are_found(
    areas: Seq<(PaneId, Rect)>,
    id: PaneId,
    rect: Rect,
    other: PaneId,
)
    requires
        other != id,
    ensures
        area_of(put_area(areas, id, rect), id) == Some(rect),
        area_of(put_area(areas, id, rect), other) == area_of(areas, other),
    decreases areas.len(),
{
    reveal_with_fuel(area_of, 2);
    let after = put_area(areas, id, rect);
    if areas.len() == 0 {
        assert(after.drop_first() =~= Seq::<(PaneId, Rect)>::empty());
    } else if areas[0].0 == id {
        assert(after.drop_first() =~= areas.drop_first());
    } else {
        set_areas_are_found(areas.drop_first(), id, rect, other);
        assert(after.drop_first() =~= put_area(areas.drop_first(), id, rect));
    }
}

/// A pane that has an area is found with it, where no pane occurs twice; one that has none is not
/// found.
pub proof fn areas_are_found(areas: Seq<(PaneId, Rect)>, i: int, id: PaneId)
    requires
        distinct_areas(areas),
    ensures
        0 <= i < areas.len() ==> area_of(areas, areas[i].0) == Some(areas[i].1),
        (forall|j: int| 0 <= j < areas.len() ==> (#[trigger] areas[j]).0 != id) ==> area_of(
            areas,
            id,
        ) is None,
    decreases areas.len(),
{
    if areas.len() > 0 {
        let first = areas[0];
        let rest = areas.drop_first();
        assert forall|p: int, q: int| 0 <= p < q < rest.len() implies #[trigger] rest[p].0
            != #[trigger] rest[q].0 by {
            assert(rest[p] == areas[p + 1] && rest[q] == areas[q + 1]);
        }
        assert forall|j: int|
            (forall|m: int| 0 <= m < areas.len() ==> (#[trigger] areas[m]).0 != id) && 0 <= j
                < rest.len() implies (#[trigger] rest[j]).0 != id by {
            assert(rest[j] == areas[j + 1]);
        }
        areas_are_found(rest, i - 1, id);
        if 0 < i < areas.len() {
            assert(rest[i - 1] == areas[i]);
        }
    }
}

} // verus!
