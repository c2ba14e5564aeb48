use termul::geometry::Rect;
use termul::layout::{find_area, remove_pane, Divider, Layout, PaneId, SplitDir, SplitId};
use termul::ratio::{Ratio, WHOLE};

fn place(layout: &Layout, area: Rect) -> (Vec<(PaneId, Rect)>, Vec<Divider>) {
    let mut areas = Vec::new();
    let mut dividers = Vec::new();
    layout.compute(area, &mut areas, &mut dividers);
    (areas, dividers)
}

#[test]
fn split_then_remove_collapses() {
    let mut l = Layout::Leaf(PaneId(1));
    assert!(l.split_leaf(PaneId(1), SplitId(1), SplitDir::LeftRight, PaneId(2)));
    let (areas, divs) = place(&l, Rect::new(0, 0, 80, 24));
    assert_eq!(areas.len(), 2);
    assert_eq!(divs.len(), 1);
    let l = remove_pane(l, PaneId(2)).unwrap();
    assert_eq!(l.first_leaf(), PaneId(1));
    let (areas, divs) = place(&l, Rect::new(0, 0, 80, 24));
    assert_eq!(areas.len(), 1);
    assert!(divs.is_empty());
}

#[test]
fn remove_last_pane_is_none() {
    let l = Layout::Leaf(PaneId(1));
    assert!(remove_pane(l, PaneId(1)).is_none());
}

#[test]
fn halves_of_the_screen() {
    let mut l = Layout::Leaf(PaneId(1));
    assert!(l.split_leaf(PaneId(1), SplitId(1), SplitDir::LeftRight, PaneId(2)));
    assert!(l.split_leaf(PaneId(2), SplitId(2), SplitDir::TopBottom, PaneId(3)));
    assert!(!l.split_leaf(PaneId(9), SplitId(3), SplitDir::TopBottom, PaneId(4)));
    let (areas, dividers) = place(&l, Rect::new(0, 2, 81, 22));
    assert_eq!(find_area(&areas, PaneId(1)), Some(Rect::new(0, 2, 41, 22)));
    assert_eq!(find_area(&areas, PaneId(2)), Some(Rect::new(41, 2, 40, 11)));
    assert_eq!(find_area(&areas, PaneId(3)), Some(Rect::new(41, 13, 40, 11)));
    assert_eq!(find_area(&areas, PaneId(4)), None);
    assert_eq!(dividers[0].line, Rect::new(40, 2, 2, 22));
    assert_eq!(dividers[1].line, Rect::new(41, 12, 40, 2));
    let mut leaves = Vec::new();
    l.leaves(&mut leaves);
    assert_eq!(leaves, [PaneId(1), PaneId(2), PaneId(3)]);
    assert!(l.contains(PaneId(3)) && !l.contains(PaneId(4)));
}

#[test]
fn an_area_without_room_shows_the_first_side() {
    let mut l = Layout::Leaf(PaneId(1));
    l.split_leaf(PaneId(1), SplitId(1), SplitDir::LeftRight, PaneId(2));
    let (areas, dividers) = place(&l, Rect::new(0, 0, 1, 5));
    assert_eq!(areas, [(PaneId(1), Rect::new(0, 0, 1, 5))]);
    assert!(dividers.is_empty());
}

#[test]
fn a_divider_is_moved() {
    let mut l = Layout::Leaf(PaneId(1));
    l.split_leaf(PaneId(1), SplitId(1), SplitDir::LeftRight, PaneId(2));
    l.set_ratio(SplitId(1), Ratio::of(20, 80));
    let (areas, _) = place(&l, Rect::new(0, 0, 80, 24));
    assert_eq!(find_area(&areas, PaneId(1)), Some(Rect::new(0, 0, 20, 24)));
    l.set_ratio(SplitId(7), Ratio::of(60, 80));
    let (areas, _) = place(&l, Rect::new(0, 0, 80, 24));
    assert_eq!(find_area(&areas, PaneId(1)), Some(Rect::new(0, 0, 20, 24)));
    l.set_ratio(SplitId(1), Ratio::of(0, 80));
    let (areas, _) = place(&l, Rect::new(0, 0, 80, 24));
    assert_eq!(find_area(&areas, PaneId(1)), Some(Rect::new(0, 0, 4, 24)));
}

/// Shares are those of 32-bit floating point arithmetic.
#[test]
fn shares_agree_with_floating_point() {
    for d in [1u16, 2, 3, 7, 24, 80, 81, 100, 133, 240, 999, 4096, 65535] {
        for step in 0..200u32 {
            let n = (d as u32 * step / 180) as u16;
            let exact = (n as f32 / d as f32).clamp(0.05, 0.95);
            let ratio = Ratio::of(n, d);
            assert_eq!(ratio.parts as f64 / WHOLE as f64, exact as f64, "{n}/{d}");
            for extent in [2u16, 3, 24, 80, 81, 199, 1000, 40000, 65535] {
                let cells = (extent as f32 * exact).round() as u16;
                assert_eq!(ratio.of_extent(extent), cells.clamp(1, extent - 1), "{n}/{d} {extent}");
            }
        }
    }
}

/// The share that lies some cells into an extent gives that many cells of it.
#[test]
fn a_share_gives_back_its_cells() {
    for d in [40u16, 80, 133, 1000, 65535] {
        for n in [d / 10, d / 3, d / 2, d - d / 5] {
            assert_eq!(Ratio::of(n, d).of_extent(d), n);
        }
    }
}
