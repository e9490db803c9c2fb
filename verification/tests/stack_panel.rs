use dock_layout::geometry::{Axis, Bounds, Placement, Point, Size};
use dock_layout::stack_panel::{PanelNode, StackPanel};

const T0: PanelNode = PanelNode::Tab(0);
const T1: PanelNode = PanelNode::Tab(1);
const T2: PanelNode = PanelNode::Tab(2);
const S1: PanelNode = PanelNode::Stack(1);

fn wide(extent: i32) -> Bounds {
    Bounds { origin: Point { x: 0, y: 0 }, size: Size { width: extent, height: 300 } }
}

#[test]
fn new_stack_is_empty() {
    let stack = StackPanel::new(Axis::Vertical);
    assert_eq!(stack.panels_len(), 0);
    assert_eq!(stack.axis(), Axis::Vertical);
    assert_eq!(stack.parent(), None);
    assert_eq!(stack.sizes(), Vec::<i32>::new());
    assert_eq!(stack.panel_group().get_axis(), Axis::Vertical);
}

#[test]
fn add_with_a_size_uses_it() {
    let mut stack = StackPanel::new(Axis::Horizontal);
    stack.add_panel(T0, Some(380));
    assert_eq!(stack.panels(), vec![T0]);
    assert_eq!(stack.sizes(), vec![380]);
}

#[test]
fn add_without_a_size_shares_the_extent_evenly() {
    let mut stack = StackPanel::new(Axis::Horizontal);
    stack.set_bounds(wide(600));
    stack.add_panel(T0, None);
    assert_eq!(stack.sizes(), vec![600]);
    stack.add_panel(T1, None);
    // the first child keeps its size until the next drag
    assert_eq!(stack.sizes(), vec![600, 300]);
    stack.add_panel(T2, None);
    assert_eq!(stack.sizes(), vec![600, 300, 200]);
    assert_eq!(stack.panels(), vec![T0, T1, T2]);
}

#[test]
fn default_size_is_rounded_to_the_nearest_pixel() {
    let mut stack = StackPanel::new(Axis::Horizontal);
    stack.set_bounds(wide(100));
    stack.add_panel(T0, Some(10));
    stack.add_panel(T1, Some(10));
    // 100 / 3 = 33.33
    stack.add_panel(T2, None);
    assert_eq!(stack.sizes(), vec![10, 10, 33]);
    let mut stack = StackPanel::new(Axis::Horizontal);
    stack.set_bounds(wide(101));
    stack.add_panel(T0, Some(10));
    // 101 / 2 = 50.5, a half goes up
    stack.add_panel(T1, None);
    assert_eq!(stack.sizes(), vec![10, 51]);
}

#[test]
fn default_size_follows_the_axis() {
    let mut stack = StackPanel::new(Axis::Vertical);
    stack.set_bounds(wide(600));
    stack.add_panel(T0, None);
    assert_eq!(stack.sizes(), vec![300]);
}

#[test]
fn adding_a_child_twice_changes_nothing() {
    let mut stack = StackPanel::new(Axis::Horizontal);
    stack.add_panel(T0, Some(100));
    stack.add_panel(T1, Some(200));
    stack.add_panel(T0, Some(300));
    assert_eq!(stack.panels(), vec![T0, T1]);
    assert_eq!(stack.sizes(), vec![100, 200]);
}

#[test]
fn insert_beyond_the_end_appends() {
    let mut stack = StackPanel::new(Axis::Horizontal);
    stack.insert_panel(T0, 7, Some(100));
    stack.insert_panel(T1, 0, Some(200));
    stack.insert_panel(T2, usize::MAX, Some(300));
    assert_eq!(stack.panels(), vec![T1, T0, T2]);
    assert_eq!(stack.sizes(), vec![200, 100, 300]);
}

#[test]
fn add_at_a_placement_goes_before_or_after() {
    let mut stack = StackPanel::new(Axis::Horizontal);
    stack.add_panel(T0, Some(100));
    stack.add_panel_at(T1, 0, Placement::Left);
    assert_eq!(stack.panels(), vec![T1, T0]);
    stack.add_panel_at(T2, 0, Placement::Right);
    assert_eq!(stack.panels(), vec![T1, T2, T0]);
    stack.add_panel_at(S1, 2, Placement::Bottom);
    assert_eq!(stack.panels(), vec![T1, T2, T0, S1]);
    let mut stack = StackPanel::new(Axis::Vertical);
    stack.add_panel(T0, Some(100));
    stack.add_panel_at(T1, 0, Placement::Top);
    assert_eq!(stack.panels(), vec![T1, T0]);
}

#[test]
fn remove_takes_the_child_and_its_size() {
    let mut stack = StackPanel::new(Axis::Horizontal);
    stack.add_panel(T0, Some(100));
    stack.add_panel(T1, Some(200));
    stack.add_panel(T2, Some(300));
    assert!(stack.remove_panel(T1));
    assert_eq!(stack.panels(), vec![T0, T2]);
    assert_eq!(stack.sizes(), vec![100, 300]);
    assert!(!stack.remove_panel(T1));
    assert_eq!(stack.panels(), vec![T0, T2]);
    assert_eq!(stack.sizes(), vec![100, 300]);
}

#[test]
fn replace_keeps_the_index() {
    let mut stack = StackPanel::new(Axis::Horizontal);
    stack.set_bounds(wide(480));
    stack.add_panel(T0, Some(100));
    stack.add_panel(T1, Some(200));
    stack.add_panel(T2, Some(300));
    assert!(stack.replace_panel(T1, S1));
    assert_eq!(stack.panels(), vec![T0, S1, T2]);
    // the newcomer takes over the size of the child it stands for
    assert_eq!(stack.sizes(), vec![100, 200, 300]);
    assert_eq!(stack.panel_group().panel(1).unwrap().get_size(), 200);
    assert_eq!(stack.index_of_panel(S1), Some(1));
    assert_eq!(stack.index_of_panel(T1), None);
}

#[test]
fn replace_needs_the_old_child_and_a_new_node() {
    let mut stack = StackPanel::new(Axis::Horizontal);
    stack.add_panel(T0, Some(100));
    stack.add_panel(T1, Some(200));
    assert!(!stack.replace_panel(T2, S1));
    assert!(!stack.replace_panel(T0, T1));
    assert_eq!(stack.panels(), vec![T0, T1]);
    assert_eq!(stack.sizes(), vec![100, 200]);
}

#[test]
fn index_of_an_absent_node_is_none() {
    let mut stack = StackPanel::new(Axis::Horizontal);
    stack.add_panel(T0, None);
    assert_eq!(stack.index_of_panel(T0), Some(0));
    assert_eq!(stack.index_of_panel(T1), None);
    assert_eq!(stack.index_of_panel(PanelNode::Stack(0)), None);
}

#[test]
fn remove_all_and_set_axis() {
    let mut stack = StackPanel::new(Axis::Horizontal);
    stack.add_panel(T0, Some(100));
    stack.add_panel(T1, Some(200));
    stack.set_axis(Axis::Vertical);
    assert_eq!(stack.axis(), Axis::Vertical);
    assert_eq!(stack.panel_group().get_axis(), Axis::Vertical);
    assert_eq!(stack.panels(), vec![T0, T1]);
    assert_eq!(stack.sizes(), vec![100, 200]);
    stack.remove_all_panels();
    assert_eq!(stack.panels_len(), 0);
    assert_eq!(stack.sizes(), Vec::<i32>::new());
    assert_eq!(stack.axis(), Axis::Vertical);
}

#[test]
fn dragging_a_handle_resizes_the_children() {
    let mut stack = StackPanel::new(Axis::Horizontal);
    stack.set_bounds(wide(600));
    stack.add_panel(T0, Some(200));
    stack.add_panel(T1, Some(200));
    stack.add_panel(T2, Some(200));
    for ix in 0..3 {
        let x = 200 * ix as i32;
        stack.set_region_bounds(
            ix,
            Bounds { origin: Point { x, y: 0 }, size: Size { width: 200, height: 300 } },
        );
    }
    // no handle is dragged yet
    stack.on_mouse_move(Point { x: 350, y: 10 });
    assert_eq!(stack.sizes(), vec![200, 200, 200]);
    stack.start_resizing(0);
    stack.on_mouse_move(Point { x: 350, y: 10 });
    assert_eq!(stack.sizes(), vec![350, 100, 150]);
    stack.on_mouse_up();
    stack.on_mouse_move(Point { x: 10, y: 10 });
    assert_eq!(stack.sizes(), vec![350, 100, 150]);
}

#[test]
fn a_handle_of_no_child_is_ignored() {
    let mut stack = StackPanel::new(Axis::Horizontal);
    stack.add_panel(T0, Some(200));
    stack.start_resizing(5);
    stack.on_mouse_move(Point { x: 350, y: 10 });
    assert_eq!(stack.sizes(), vec![200]);
    stack.set_region_bounds(5, wide(10));
    assert_eq!(stack.sizes(), vec![200]);
}
