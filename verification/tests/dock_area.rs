use dock_layout::dock_area::DockArea;
use dock_layout::geometry::{Axis, Bounds, Placement, Point, Size};
use dock_layout::stack_panel::PanelNode;
use dock_layout::tab_panel::{DragPanel, PanelEvent};

const A: u64 = 1;
const B: u64 = 2;
const C: u64 = 3;
const D: u64 = 4;

const CONTENT: Bounds =
    Bounds { origin: Point { x: 0, y: 0 }, size: Size { width: 400, height: 200 } };

/// A pointer position over `CONTENT` that gives the placement.
fn pointer(placement: Option<Placement>) -> Point {
    match placement {
        Some(Placement::Left) => Point { x: 40, y: 100 },
        Some(Placement::Right) => Point { x: 360, y: 100 },
        Some(Placement::Top) => Point { x: 200, y: 20 },
        Some(Placement::Bottom) => Point { x: 200, y: 180 },
        None => Point { x: 200, y: 100 },
    }
}

/// A dock area with a root along `axis` and one tab panel in it per list of
/// panels.
fn area_with(axis: Axis, tabs: &[&[u64]]) -> DockArea {
    let mut area = DockArea::new(axis);
    let root = area.root();
    for panels in tabs {
        let t = area.new_tab_panel();
        for p in *panels {
            area.add_panel(t, *p);
        }
        assert!(area.add_panel_to_stack(root, PanelNode::Tab(t), None));
    }
    area
}

fn panels(area: &DockArea, t: usize) -> Vec<u64> {
    area.tab_panel(t).unwrap().panels()
}

fn children(area: &DockArea, s: usize) -> Vec<PanelNode> {
    area.stack_panel(s).unwrap().panels()
}

/// Every child names its parent, and every parent holds its child.
fn assert_consistent(area: &DockArea) {
    for s in 0..area.stacks_len() {
        let stack = area.stack_panel(s).unwrap();
        let kids = stack.panels();
        assert_eq!(stack.sizes().len(), kids.len());
        for (k, child) in kids.iter().enumerate() {
            assert_eq!(area.parent_of(*child), Some(s));
            assert!(!kids[..k].contains(child));
        }
        if let Some(p) = stack.parent() {
            assert!(children(area, p).contains(&PanelNode::Stack(s)));
        }
    }
    for t in 0..area.tabs_len() {
        let tab = area.tab_panel(t).unwrap();
        if let Some(p) = tab.stack_panel() {
            assert!(children(area, p).contains(&PanelNode::Tab(t)));
        }
        if tab.len() > 0 {
            assert!(tab.active_ix() < tab.len());
        }
    }
    assert_eq!(area.stack_panel(area.root()).unwrap().parent(), None);
}

#[test]
fn new_area_has_an_empty_root() {
    let area = DockArea::new(Axis::Horizontal);
    assert_eq!(area.root(), 0);
    assert_eq!(area.stacks_len(), 1);
    assert_eq!(area.tabs_len(), 0);
    assert_eq!(children(&area, 0), Vec::<PanelNode>::new());
    assert_eq!(area.stack_panel(0).unwrap().axis(), Axis::Horizontal);
    assert!(area.tab_panel(0).is_none());
    assert!(area.stack_panel(1).is_none());
}

#[test]
fn attach_sets_the_parent() {
    let mut area = DockArea::new(Axis::Horizontal);
    let t = area.new_tab_panel();
    assert_eq!(area.parent_of(PanelNode::Tab(t)), None);
    assert!(area.attachable(0, PanelNode::Tab(t)));
    assert!(area.attach(0, PanelNode::Tab(t), 0, Some(380)));
    assert_eq!(area.parent_of(PanelNode::Tab(t)), Some(0));
    assert_eq!(children(&area, 0), vec![PanelNode::Tab(t)]);
    assert_eq!(area.stack_panel(0).unwrap().sizes(), vec![380]);
    assert_eq!(area.index_of_panel(0, PanelNode::Tab(t)), Some(0));
    assert_consistent(&area);
}

#[test]
fn a_node_in_a_stack_cannot_be_attached_again() {
    let mut area = area_with(Axis::Horizontal, &[&[A]]);
    let s = area.new_stack_panel(Axis::Vertical);
    assert!(area.attach(0, PanelNode::Stack(s), 1, None));
    // tab panel 0 is a child of the root already
    assert!(!area.attach(s, PanelNode::Tab(0), 0, None));
    assert!(!area.attach(0, PanelNode::Tab(0), 0, None));
    assert_eq!(children(&area, 0), vec![PanelNode::Tab(0), PanelNode::Stack(s)]);
    assert_eq!(children(&area, s), Vec::<PanelNode>::new());
    assert_consistent(&area);
}

#[test]
fn the_root_and_the_stack_itself_cannot_be_attached() {
    let mut area = DockArea::new(Axis::Horizontal);
    let s = area.new_stack_panel(Axis::Vertical);
    assert!(!area.attach(s, PanelNode::Stack(0), 0, None));
    assert!(!area.attach(s, PanelNode::Stack(s), 0, None));
    assert!(!area.attach(0, PanelNode::Stack(0), 0, None));
    assert!(!area.attach(7, PanelNode::Stack(s), 0, None));
    assert!(!area.attach(0, PanelNode::Tab(5), 0, None));
    assert!(!area.attach(0, PanelNode::Stack(9), 0, None));
    assert_eq!(children(&area, 0), Vec::<PanelNode>::new());
    assert_eq!(children(&area, s), Vec::<PanelNode>::new());
    assert_consistent(&area);
}

#[test]
fn a_stack_cannot_be_attached_below_itself() {
    let mut area = DockArea::new(Axis::Horizontal);
    let a = area.new_stack_panel(Axis::Vertical);
    let b = area.new_stack_panel(Axis::Horizontal);
    let c = area.new_stack_panel(Axis::Vertical);
    assert!(area.attach(a, PanelNode::Stack(b), 0, None));
    assert!(area.attach(b, PanelNode::Stack(c), 0, None));
    assert!(area.is_within(c, a));
    assert!(area.is_within(c, c));
    assert!(area.is_within(b, a));
    assert!(!area.is_within(a, c));
    assert!(!area.is_within(a, 0));
    assert!(!area.is_within(9, a));
    // a holds c through b: it cannot become a child of c or of b
    assert!(!area.attachable(c, PanelNode::Stack(a)));
    assert!(!area.attach(c, PanelNode::Stack(a), 0, None));
    assert!(!area.attach(b, PanelNode::Stack(a), 0, None));
    assert_eq!(area.parent_of(PanelNode::Stack(a)), None);
    assert_eq!(children(&area, c), Vec::<PanelNode>::new());
    // but the whole of it can go into the root
    assert!(area.attach(0, PanelNode::Stack(a), 0, None));
    assert!(area.is_within(c, 0));
    // a stack cannot take the place of a child of a stack below it
    let t = area.new_tab_panel();
    assert!(area.attach(c, PanelNode::Tab(t), 0, None));
    assert!(area.detach(0, PanelNode::Stack(a)));
    assert!(!area.replace(c, PanelNode::Tab(t), PanelNode::Stack(a)));
    assert_eq!(children(&area, c), vec![PanelNode::Tab(t)]);
    assert_consistent(&area);
}

#[test]
fn detach_clears_the_parent() {
    let mut area = area_with(Axis::Horizontal, &[&[A], &[B]]);
    assert!(area.detach(0, PanelNode::Tab(0)));
    assert_eq!(children(&area, 0), vec![PanelNode::Tab(1)]);
    assert_eq!(area.parent_of(PanelNode::Tab(0)), None);
    assert_eq!(area.index_of_panel(0, PanelNode::Tab(0)), None);
    assert!(!area.detach(0, PanelNode::Tab(0)));
    assert!(!area.detach(3, PanelNode::Tab(1)));
    assert_eq!(panels(&area, 0), vec![A]);
    assert_consistent(&area);
}

#[test]
fn replace_swaps_in_place() {
    let mut area = area_with(Axis::Horizontal, &[&[A], &[B], &[C]]);
    let s = area.new_stack_panel(Axis::Vertical);
    assert!(area.replace(0, PanelNode::Tab(1), PanelNode::Stack(s)));
    assert_eq!(
        children(&area, 0),
        vec![PanelNode::Tab(0), PanelNode::Stack(s), PanelNode::Tab(2)]
    );
    assert_eq!(area.parent_of(PanelNode::Tab(1)), None);
    assert_eq!(area.parent_of(PanelNode::Stack(s)), Some(0));
    // the old node is no child any more; a child cannot take a place
    assert!(!area.replace(0, PanelNode::Tab(1), PanelNode::Tab(1)));
    assert!(!area.replace(0, PanelNode::Tab(0), PanelNode::Tab(2)));
    assert_consistent(&area);
}

#[test]
fn removing_the_last_panel_takes_the_tab_panel_out_of_its_stack() {
    let mut area = area_with(Axis::Horizontal, &[&[A, B], &[C]]);
    area.remove_panel(0, A);
    assert_eq!(panels(&area, 0), vec![B]);
    assert_eq!(children(&area, 0), vec![PanelNode::Tab(0), PanelNode::Tab(1)]);
    area.remove_panel(0, B);
    assert_eq!(panels(&area, 0), Vec::<u64>::new());
    assert_eq!(children(&area, 0), vec![PanelNode::Tab(1)]);
    assert_eq!(area.parent_of(PanelNode::Tab(0)), None);
    assert_eq!(area.tab_panel(0).unwrap().active_panel(), None);
    assert_consistent(&area);
}

#[test]
fn detaching_a_panel_leaves_an_empty_tab_panel_in_place() {
    let mut area = area_with(Axis::Horizontal, &[&[A]]);
    area.detach_panel(0, A);
    assert_eq!(panels(&area, 0), Vec::<u64>::new());
    assert_eq!(children(&area, 0), vec![PanelNode::Tab(0)]);
    assert!(area.remove_tab_if_empty(0));
    assert_eq!(children(&area, 0), Vec::<PanelNode>::new());
    assert!(!area.remove_tab_if_empty(0));
    assert_consistent(&area);
}

#[test]
fn closing_the_active_panel_removes_it() {
    let mut area = area_with(Axis::Horizontal, &[&[A, B, C]]);
    area.set_active_ix(0, 1);
    area.close_active_panel(0);
    assert_eq!(panels(&area, 0), vec![A, C]);
    assert_eq!(area.tab_panel(0).unwrap().active_panel(), Some(C));
    area.close_active_panel(0);
    area.close_active_panel(0);
    assert_eq!(panels(&area, 0), Vec::<u64>::new());
    assert_eq!(children(&area, 0), Vec::<PanelNode>::new());
    area.close_active_panel(0);
    area.close_active_panel(9);
    assert_consistent(&area);
}

#[test]
fn dropping_on_top_of_the_only_child_turns_the_stack() {
    // the root is horizontal and holds one tab panel, T
    let mut area = area_with(Axis::Horizontal, &[&[A, C]]);
    area.on_panel_drag_move(0, pointer(Some(Placement::Top)), CONTENT);
    let stacks_before = area.stacks_len();
    area.on_drop(0, DragPanel::new(C, 0), None);
    // the root itself became vertical and holds the new tab panel, then T
    assert_eq!(area.stacks_len(), stacks_before);
    assert_eq!(area.stack_panel(0).unwrap().axis(), Axis::Vertical);
    assert_eq!(children(&area, 0), vec![PanelNode::Tab(1), PanelNode::Tab(0)]);
    assert_eq!(panels(&area, 1), vec![C]);
    assert_eq!(panels(&area, 0), vec![A]);
    assert_eq!(area.tab_panel(1).unwrap().active_panel(), Some(C));
    assert_consistent(&area);
}

#[test]
fn dropping_from_another_tab_panel_on_top_of_the_only_child_turns_the_stack() {
    let mut area = area_with(Axis::Horizontal, &[&[A]]);
    let source = area.new_tab_panel();
    area.add_panel(source, C);
    area.on_panel_drag_move(0, pointer(Some(Placement::Top)), CONTENT);
    area.on_drop(0, DragPanel::new(C, source), None);
    assert_eq!(area.stacks_len(), 1);
    assert_eq!(area.stack_panel(0).unwrap().axis(), Axis::Vertical);
    assert_eq!(children(&area, 0), vec![PanelNode::Tab(2), PanelNode::Tab(0)]);
    assert_eq!(panels(&area, 2), vec![C]);
    assert_eq!(panels(&area, 0), vec![A]);
    assert_eq!(panels(&area, source), Vec::<u64>::new());
    assert_consistent(&area);
}

#[test]
fn dropping_at_the_bottom_of_the_only_child_puts_the_new_one_last() {
    let mut area = area_with(Axis::Horizontal, &[&[A, C]]);
    area.on_panel_drag_move(0, pointer(Some(Placement::Bottom)), CONTENT);
    area.on_drop(0, DragPanel::new(C, 0), None);
    assert_eq!(area.stack_panel(0).unwrap().axis(), Axis::Vertical);
    assert_eq!(children(&area, 0), vec![PanelNode::Tab(0), PanelNode::Tab(1)]);
    assert_eq!(panels(&area, 1), vec![C]);
    assert_consistent(&area);
}

#[test]
fn dropping_a_sole_panel_on_its_own_tab_panel_changes_nothing() {
    let mut area = area_with(Axis::Horizontal, &[&[A], &[B]]);
    area.on_panel_drag_move(0, pointer(None), CONTENT);
    area.on_drop(0, DragPanel::new(A, 0), None);
    assert_eq!(area.tabs_len(), 2);
    assert_eq!(area.stacks_len(), 1);
    assert_eq!(children(&area, 0), vec![PanelNode::Tab(0), PanelNode::Tab(1)]);
    assert_eq!(panels(&area, 0), vec![A]);
    assert_eq!(panels(&area, 1), vec![B]);
    assert_eq!(area.tab_panel(0).unwrap().active_panel(), Some(A));
    assert_consistent(&area);
}

#[test]
fn dropping_on_the_own_tab_panel_without_a_placement_changes_nothing() {
    let mut area = area_with(Axis::Horizontal, &[&[A, B, C]]);
    area.set_active_ix(0, 0);
    area.on_drop(0, DragPanel::new(B, 0), None);
    assert_eq!(panels(&area, 0), vec![A, B, C]);
    assert_eq!(area.tab_panel(0).unwrap().active_ix(), 0);
    assert_eq!(area.tabs_len(), 1);
    assert_consistent(&area);
}

#[test]
fn a_sole_panel_does_not_split_its_own_tab_panel() {
    let mut area = area_with(Axis::Horizontal, &[&[A]]);
    area.on_panel_drag_move(0, pointer(Some(Placement::Left)), CONTENT);
    area.on_drop(0, DragPanel::new(A, 0), None);
    assert_eq!(area.tabs_len(), 1);
    assert_eq!(children(&area, 0), vec![PanelNode::Tab(0)]);
    assert_eq!(panels(&area, 0), vec![A]);
    assert_consistent(&area);
}

#[test]
fn dropping_along_the_axis_adds_a_neighbour() {
    let mut area = area_with(Axis::Horizontal, &[&[A], &[B, C], &[D]]);
    area.on_panel_drag_move(1, pointer(Some(Placement::Left)), CONTENT);
    area.on_drop(1, DragPanel::new(C, 1), None);
    assert_eq!(area.stacks_len(), 1);
    assert_eq!(area.stack_panel(0).unwrap().axis(), Axis::Horizontal);
    assert_eq!(
        children(&area, 0),
        vec![PanelNode::Tab(0), PanelNode::Tab(3), PanelNode::Tab(1), PanelNode::Tab(2)]
    );
    assert_eq!(panels(&area, 3), vec![C]);
    assert_eq!(panels(&area, 1), vec![B]);
    assert_consistent(&area);

    let mut area = area_with(Axis::Horizontal, &[&[A], &[B, C], &[D]]);
    area.on_panel_drag_move(1, pointer(Some(Placement::Right)), CONTENT);
    area.on_drop(1, DragPanel::new(C, 1), None);
    assert_eq!(
        children(&area, 0),
        vec![PanelNode::Tab(0), PanelNode::Tab(1), PanelNode::Tab(3), PanelNode::Tab(2)]
    );
    assert_consistent(&area);
}

#[test]
fn a_nested_stack_takes_over_the_size_of_the_target() {
    let mut area = DockArea::new(Axis::Horizontal);
    for (panel, size) in [(A, 250), (B, 350)] {
        let t = area.new_tab_panel();
        area.add_panel(t, panel);
        assert!(area.add_panel_to_stack(0, PanelNode::Tab(t), Some(size)));
    }
    area.set_stack_bounds(
        0,
        Bounds { origin: Point { x: 0, y: 0 }, size: Size { width: 600, height: 300 } },
    );
    assert!(area.split_panel(1, C, Placement::Top));
    assert_eq!(children(&area, 0), vec![PanelNode::Tab(0), PanelNode::Stack(1)]);
    assert_eq!(area.stack_panel(0).unwrap().sizes(), vec![250, 350]);
    assert_eq!(area.stack_panel(0).unwrap().panel_group().panel(1).unwrap().get_size(), 350);
    assert_consistent(&area);
}

#[test]
fn replace_keeps_the_size_of_the_child() {
    let mut area = DockArea::new(Axis::Horizontal);
    for size in [200, 200, 200] {
        let t = area.new_tab_panel();
        assert!(area.add_panel_to_stack(0, PanelNode::Tab(t), Some(size)));
    }
    area.set_stack_bounds(
        0,
        Bounds { origin: Point { x: 0, y: 0 }, size: Size { width: 600, height: 300 } },
    );
    let s = area.new_stack_panel(Axis::Vertical);
    assert!(area.replace(0, PanelNode::Tab(1), PanelNode::Stack(s)));
    assert_eq!(area.stack_panel(0).unwrap().sizes(), vec![200, 200, 200]);
    assert_consistent(&area);
}

#[test]
fn dropping_across_the_axis_among_siblings_nests_a_new_stack() {
    let mut area = area_with(Axis::Horizontal, &[&[A], &[B, C]]);
    area.on_panel_drag_move(1, pointer(Some(Placement::Bottom)), CONTENT);
    area.on_drop(1, DragPanel::new(C, 1), None);
    // a new vertical stack stands where the target stood and holds both
    assert_eq!(area.stacks_len(), 2);
    assert_eq!(area.stack_panel(0).unwrap().axis(), Axis::Horizontal);
    assert_eq!(children(&area, 0), vec![PanelNode::Tab(0), PanelNode::Stack(1)]);
    assert_eq!(area.stack_panel(1).unwrap().axis(), Axis::Vertical);
    assert_eq!(area.stack_panel(1).unwrap().parent(), Some(0));
    assert_eq!(children(&area, 1), vec![PanelNode::Tab(1), PanelNode::Tab(2)]);
    assert_eq!(panels(&area, 1), vec![B]);
    assert_eq!(panels(&area, 2), vec![C]);
    assert_consistent(&area);

    let mut area = area_with(Axis::Horizontal, &[&[A], &[B, C]]);
    area.on_panel_drag_move(1, pointer(Some(Placement::Top)), CONTENT);
    area.on_drop(1, DragPanel::new(C, 1), None);
    assert_eq!(children(&area, 1), vec![PanelNode::Tab(2), PanelNode::Tab(1)]);
    assert_consistent(&area);
}

#[test]
fn dropping_on_a_tab_inserts_there() {
    let mut area = area_with(Axis::Horizontal, &[&[A, B], &[C, D]]);
    // a drop on the tabs forgets the placement first
    area.on_panel_drag_move(0, pointer(Some(Placement::Left)), CONTENT);
    area.clear_split_placement(0);
    area.on_drop(0, DragPanel::new(D, 1), Some(1));
    assert_eq!(panels(&area, 0), vec![A, D, B]);
    assert_eq!(area.tab_panel(0).unwrap().active_panel(), Some(D));
    assert_eq!(panels(&area, 1), vec![C]);
    assert_eq!(children(&area, 0), vec![PanelNode::Tab(0), PanelNode::Tab(1)]);
    assert_consistent(&area);
}

#[test]
fn dropping_on_the_content_without_a_placement_appends() {
    let mut area = area_with(Axis::Horizontal, &[&[A, B], &[C, D]]);
    area.on_panel_drag_move(0, pointer(None), CONTENT);
    area.on_drop(0, DragPanel::new(C, 1), None);
    assert_eq!(panels(&area, 0), vec![A, B, C]);
    assert_eq!(area.tab_panel(0).unwrap().active_panel(), Some(C));
    assert_eq!(panels(&area, 1), vec![D]);
    assert_consistent(&area);
}

#[test]
fn reordering_within_a_tab_panel() {
    let mut area = area_with(Axis::Horizontal, &[&[A, B, C]]);
    area.on_drop(0, DragPanel::new(C, 0), Some(0));
    assert_eq!(panels(&area, 0), vec![C, A, B]);
    assert_eq!(area.tab_panel(0).unwrap().active_panel(), Some(C));
    // a drop from the own tab panel on the empty space aims at the last tab
    let ix = area.tab_panel(0).unwrap().empty_space_drop_index(true);
    area.on_drop(0, DragPanel::new(C, 0), ix);
    assert_eq!(panels(&area, 0), vec![A, B, C]);
    assert_consistent(&area);
}

#[test]
fn a_tab_index_beyond_the_end_appends() {
    let mut area = area_with(Axis::Horizontal, &[&[A, B], &[C]]);
    area.on_drop(0, DragPanel::new(C, 1), Some(17));
    assert_eq!(panels(&area, 0), vec![A, B, C]);
    assert_consistent(&area);
}

#[test]
fn a_source_left_empty_leaves_its_stack() {
    let mut area = area_with(Axis::Horizontal, &[&[A], &[B]]);
    area.on_drop(0, DragPanel::new(B, 1), None);
    assert_eq!(panels(&area, 0), vec![A, B]);
    assert_eq!(panels(&area, 1), Vec::<u64>::new());
    assert_eq!(children(&area, 0), vec![PanelNode::Tab(0)]);
    assert_eq!(area.parent_of(PanelNode::Tab(1)), None);
    assert_consistent(&area);
}

#[test]
fn a_split_after_the_source_left_uses_the_current_index() {
    // the source stands before the target and leaves when its panel goes
    let mut area = area_with(Axis::Horizontal, &[&[A], &[B]]);
    area.on_panel_drag_move(1, pointer(Some(Placement::Right)), CONTENT);
    area.on_drop(1, DragPanel::new(A, 0), None);
    assert_eq!(children(&area, 0), vec![PanelNode::Tab(1), PanelNode::Tab(2)]);
    assert_eq!(panels(&area, 2), vec![A]);
    assert_eq!(panels(&area, 1), vec![B]);
    assert_consistent(&area);
}

#[test]
fn a_tab_panel_in_no_stack_cannot_be_split() {
    let mut area = area_with(Axis::Horizontal, &[&[A, B]]);
    let loose = area.new_tab_panel();
    area.add_panel(loose, C);
    area.on_panel_drag_move(loose, pointer(Some(Placement::Left)), CONTENT);
    assert!(!area.can_split(loose));
    area.on_drop(loose, DragPanel::new(B, 0), None);
    // the split cannot be had: the panel stays where it was
    assert_eq!(panels(&area, 0), vec![A, B]);
    assert_eq!(panels(&area, loose), vec![C]);
    assert_eq!(area.tabs_len(), 2);
    assert!(!area.split_panel(loose, D, Placement::Left));
    assert!(!area.split_panel(9, D, Placement::Left));
    assert_eq!(area.tabs_len(), 2);
    assert_consistent(&area);
}

#[test]
fn a_drop_on_no_tab_panel_changes_nothing() {
    let mut area = area_with(Axis::Horizontal, &[&[A, B]]);
    area.on_drop(5, DragPanel::new(A, 0), None);
    assert_eq!(panels(&area, 0), vec![A, B]);
    assert_eq!(area.tabs_len(), 1);
}

#[test]
fn a_drag_from_no_tab_panel_still_lands() {
    let mut area = area_with(Axis::Horizontal, &[&[A]]);
    area.on_drop(0, DragPanel::new(B, 9), None);
    assert_eq!(panels(&area, 0), vec![A, B]);
    assert_consistent(&area);
}

#[test]
fn split_panel_alone_places_a_panel_beside_a_tab_panel() {
    let mut area = area_with(Axis::Vertical, &[&[A]]);
    assert!(area.split_panel(0, B, Placement::Bottom));
    assert_eq!(children(&area, 0), vec![PanelNode::Tab(0), PanelNode::Tab(1)]);
    assert!(area.split_panel(0, C, Placement::Left));
    assert_eq!(area.stacks_len(), 2);
    assert_eq!(children(&area, 0), vec![PanelNode::Stack(1), PanelNode::Tab(1)]);
    assert_eq!(children(&area, 1), vec![PanelNode::Tab(2), PanelNode::Tab(0)]);
    assert_eq!(area.stack_panel(1).unwrap().axis(), Axis::Horizontal);
    assert_consistent(&area);
}

#[test]
fn many_drops_keep_the_layout_consistent() {
    let mut area = area_with(Axis::Horizontal, &[&[1, 2, 3], &[4, 5], &[6]]);
    let placements = [
        Some(Placement::Top), None, Some(Placement::Left), Some(Placement::Bottom),
        Some(Placement::Right), None, Some(Placement::Top), Some(Placement::Left),
    ];
    let mut step: usize = 0;
    for round in 0..40usize {
        let tabs = area.tabs_len();
        let source = (round * 7 + step) % tabs;
        let target = (round * 3 + 1) % tabs;
        let from = area.tab_panel(source).unwrap().panels();
        if from.is_empty() {
            step += 1;
            continue;
        }
        let panel = from[round % from.len()];
        let placement = placements[round % placements.len()];
        area.on_panel_drag_move(target, pointer(placement), CONTENT);
        let ix = if round % 3 == 0 { Some(round % 2) } else { None };
        if ix.is_some() {
            area.clear_split_placement(target);
        }
        area.on_drop(target, DragPanel::new(panel, source), ix);
        assert_consistent(&area);
        // no panel is lost and none is held twice
        let mut all: Vec<u64> = Vec::new();
        for t in 0..area.tabs_len() {
            all.extend(area.tab_panel(t).unwrap().panels());
        }
        all.sort();
        assert_eq!(all, vec![1, 2, 3, 4, 5, 6]);
    }
}

#[test]
fn zoom_does_not_touch_the_layout() {
    let mut area = area_with(Axis::Horizontal, &[&[A], &[B]]);
    assert_eq!(area.toggle_zoom(1), Some(PanelEvent::ZoomIn));
    assert!(area.tab_panel(1).unwrap().is_zoomed());
    assert!(!area.tab_panel(0).unwrap().is_zoomed());
    assert_eq!(area.toggle_zoom(1), Some(PanelEvent::ZoomOut));
    assert_eq!(area.toggle_zoom(4), None);
    assert_eq!(children(&area, 0), vec![PanelNode::Tab(0), PanelNode::Tab(1)]);
    assert_consistent(&area);
}

#[test]
fn set_active_needs_a_tab() {
    let mut area = area_with(Axis::Horizontal, &[&[A, B]]);
    assert!(area.set_active_ix(0, 0));
    assert_eq!(area.tab_panel(0).unwrap().active_panel(), Some(A));
    assert!(!area.set_active_ix(0, 2));
    assert!(!area.set_active_ix(3, 0));
    assert_eq!(area.tab_panel(0).unwrap().active_panel(), Some(A));
}

#[test]
fn insert_and_add_on_no_tab_panel_change_nothing() {
    let mut area = area_with(Axis::Horizontal, &[&[A]]);
    area.add_panel(4, B);
    area.insert_panel_at(4, B, 0);
    area.detach_panel(4, A);
    area.remove_panel(4, A);
    assert_eq!(panels(&area, 0), vec![A]);
    area.insert_panel_at(0, B, 0);
    assert_eq!(panels(&area, 0), vec![B, A]);
    area.insert_panel_at(0, B, 1);
    assert_eq!(panels(&area, 0), vec![B, A]);
}

#[test]
fn stacks_are_resized_through_the_area() {
    let mut area = area_with(Axis::Horizontal, &[&[A], &[B], &[C]]);
    let root = area.root();
    area.set_stack_bounds(
        root,
        Bounds { origin: Point { x: 0, y: 0 }, size: Size { width: 600, height: 300 } },
    );
    for ix in 0..3usize {
        area.set_region_bounds(
            root,
            ix,
            Bounds {
                origin: Point { x: 200 * ix as i32, y: 0 },
                size: Size { width: 200, height: 300 },
            },
        );
    }
    area.resize_panels(root, 0, 350);
    assert_eq!(area.stack_panel(root).unwrap().sizes(), vec![350, 100, 150]);
    area.start_resizing(root, 1);
    assert_eq!(area.stack_panel(root).unwrap().panel_group().resizing_panel_ix(), Some(1));
    area.on_mouse_move(root, Point { x: 320, y: 5 });
    // region 1 starts at 200 as laid out: the pointer asks for 120
    assert_eq!(area.stack_panel(root).unwrap().sizes(), vec![200, 120, 280]);
    area.on_mouse_up(root);
    assert_eq!(area.stack_panel(root).unwrap().panel_group().resizing_panel_ix(), None);
    area.set_stack_bounds(9, Bounds::zero());
    area.resize_panels(9, 0, 1);
    area.on_mouse_move(9, Point { x: 0, y: 0 });
    area.on_mouse_up(9);
    area.start_resizing(9, 0);
    area.set_region_bounds(9, 0, Bounds::zero());
    assert_consistent(&area);
}

#[test]
fn set_axis_turns_a_stack() {
    let mut area = area_with(Axis::Horizontal, &[&[A], &[B]]);
    area.set_axis(0, Axis::Vertical);
    assert_eq!(area.stack_panel(0).unwrap().axis(), Axis::Vertical);
    assert_eq!(children(&area, 0), vec![PanelNode::Tab(0), PanelNode::Tab(1)]);
    area.set_axis(5, Axis::Vertical);
    assert_consistent(&area);
}

#[test]
fn a_split_takes_an_empty_target_out_of_its_stack() {
    let mut area = area_with(Axis::Horizontal, &[&[A], &[B]]);
    area.detach_panel(0, A);
    assert!(area.split_panel(0, C, Placement::Right));
    // the new tab panel took its place beside the target, which then left
    assert_eq!(children(&area, 0), vec![PanelNode::Tab(2), PanelNode::Tab(1)]);
    assert_eq!(panels(&area, 2), vec![C]);
    assert_eq!(area.parent_of(PanelNode::Tab(0)), None);
    assert_consistent(&area);
}

#[test]
fn a_drop_with_a_placement_on_a_tab_replaces_a_sole_panel_tab_panel() {
    let mut area = area_with(Axis::Horizontal, &[&[A], &[B]]);
    area.on_panel_drag_move(0, pointer(Some(Placement::Left)), CONTENT);
    area.on_drop(0, DragPanel::new(A, 0), Some(0));
    assert_eq!(children(&area, 0), vec![PanelNode::Tab(2), PanelNode::Tab(1)]);
    assert_eq!(panels(&area, 2), vec![A]);
    assert_eq!(panels(&area, 0), Vec::<u64>::new());
    assert_consistent(&area);
}
