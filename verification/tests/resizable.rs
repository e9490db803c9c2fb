use dock_layout::geometry::{Axis, Bounds, Point, Size};
use dock_layout::resizable::{DragPanel, ResizablePanel, ResizablePanelGroup};
use dock_layout::resize::PANEL_MIN_SIZE;

fn rect(x: i32, y: i32, width: i32, height: i32) -> Bounds {
    Bounds { origin: Point { x, y }, size: Size { width, height } }
}

/// A horizontal group in a container of `extent` with regions laid out at
/// the given widths, one after the other.
fn laid_out(extent: i32, widths: &[i32]) -> ResizablePanelGroup {
    let mut group = ResizablePanelGroup::new();
    group.set_bounds(rect(0, 0, extent, 300));
    let mut x = 0;
    for (ix, w) in widths.iter().enumerate() {
        group.add_child(ResizablePanel::new());
        group.set_panel_bounds(ix, rect(x, 0, *w, 300));
        x += *w;
    }
    group
}

#[test]
fn new_panel_has_the_minimum_size() {
    let panel = ResizablePanel::new();
    assert_eq!(panel.get_size(), PANEL_MIN_SIZE);
    assert_eq!(panel.get_axis(), Axis::Horizontal);
    assert_eq!(panel.get_content_view(), None);
    assert_eq!(panel.get_bounds(), Bounds::zero());
}

#[test]
fn panel_builders_set_their_field() {
    let panel = ResizablePanel::new().content_view(7).size(250);
    assert_eq!(panel.get_content_view(), Some(7));
    assert_eq!(panel.get_size(), 250);
    assert_eq!(panel.drawn_size(), 250);
    assert_eq!(ResizablePanel::new().size(30).drawn_size(), PANEL_MIN_SIZE);
}

#[test]
fn panel_layout_sets_size_along_its_axis() {
    let mut panel = ResizablePanel::new();
    panel.set_bounds(rect(5, 6, 320, 240));
    assert_eq!(panel.get_size(), 320);
    assert_eq!(panel.get_bounds(), rect(5, 6, 320, 240));
}

#[test]
fn new_group_is_empty_and_horizontal() {
    let group = ResizablePanelGroup::new();
    assert_eq!(group.len(), 0);
    assert_eq!(group.sizes(), Vec::<i32>::new());
    assert_eq!(group.get_axis(), Axis::Horizontal);
    assert_eq!(group.get_handle_size(), 1);
    assert_eq!(group.get_size(), None);
    assert_eq!(group.get_bounds(), Bounds::zero());
    assert_eq!(group.resizing_panel_ix(), None);
    assert!(group.panel(0).is_none());
}

#[test]
fn group_builders_set_their_field() {
    let group = ResizablePanelGroup::new().axis(Axis::Vertical).handle_size(3).size(240);
    assert_eq!(group.get_axis(), Axis::Vertical);
    assert_eq!(group.get_handle_size(), 3);
    assert_eq!(group.get_size(), Some(240));
    let mut group = group;
    group.set_axis(Axis::Horizontal);
    assert_eq!(group.get_axis(), Axis::Horizontal);
}

#[test]
fn default_size_is_an_even_share_rounded() {
    let mut group = ResizablePanelGroup::new();
    group.set_bounds(rect(0, 0, 600, 300));
    assert_eq!(group.default_panel_size(), 600);
    group.add_child(ResizablePanel::new());
    assert_eq!(group.default_panel_size(), 300);
    group.add_child(ResizablePanel::new());
    assert_eq!(group.default_panel_size(), 200);
    group.set_bounds(rect(0, 0, 100, 300));
    assert_eq!(group.default_panel_size(), 33);
    group.set_bounds(rect(0, 0, 101, 300));
    assert_eq!(group.default_panel_size(), 34);
    group.set_bounds(rect(0, 0, 5, 300));
    assert_eq!(group.default_panel_size(), 2);
    group.set_bounds(rect(0, 0, 4, 300));
    assert_eq!(group.default_panel_size(), 1);
    group.set_bounds(rect(0, 0, -5, 300));
    assert_eq!(group.default_panel_size(), -2);
    group.set_bounds(rect(0, 0, i32::MAX, 300));
    assert_eq!(group.default_panel_size(), 715827882);
}

#[test]
fn default_size_of_a_vertical_group_uses_the_height() {
    let mut group = ResizablePanelGroup::new().axis(Axis::Vertical);
    group.set_bounds(rect(0, 0, 600, 300));
    group.add_child(ResizablePanel::new());
    assert_eq!(group.sizes(), vec![300]);
    assert_eq!(group.panel(0).unwrap().get_axis(), Axis::Vertical);
}

#[test]
fn add_child_gives_axis_and_default_size() {
    let mut group = ResizablePanelGroup::new();
    group.set_bounds(rect(0, 0, 600, 300));
    group.add_child(ResizablePanel::new().size(999).content_view(4));
    group.add_child(ResizablePanel::new());
    assert_eq!(group.sizes(), vec![600, 300]);
    assert_eq!(group.panel(0).unwrap().get_size(), 600);
    assert_eq!(group.panel(0).unwrap().get_content_view(), Some(4));
    assert_eq!(group.panel(1).unwrap().get_size(), 300);
    assert_eq!(group.len(), 2);
}

#[test]
fn child_builder_adds_at_the_end() {
    let group = ResizablePanelGroup::new()
        .child(ResizablePanel::new().content_view(1))
        .child(ResizablePanel::new().content_view(2));
    assert_eq!(group.len(), 2);
    assert_eq!(group.panel(1).unwrap().get_content_view(), Some(2));
    assert_eq!(group.sizes(), vec![0, 0]);
}

#[test]
fn nested_group_takes_over_the_handle_size() {
    let mut inner = ResizablePanelGroup::new().handle_size(9).size(50);
    let outer = ResizablePanelGroup::new().handle_size(3).group(&mut inner, 77);
    assert_eq!(inner.get_handle_size(), 3);
    assert_eq!(inner.get_size(), Some(50));
    assert_eq!(outer.len(), 1);
    assert_eq!(outer.panel(0).unwrap().get_content_view(), Some(77));
    assert_eq!(outer.get_handle_size(), 3);
}

#[test]
fn insert_child_places_the_region() {
    let mut group = ResizablePanelGroup::new();
    group.set_bounds(rect(0, 0, 600, 300));
    group.add_child(ResizablePanel::new().content_view(1));
    group.add_child(ResizablePanel::new().content_view(2));
    group.insert_child(ResizablePanel::new().content_view(3), 1);
    assert_eq!(group.sizes(), vec![600, 200, 300]);
    assert_eq!(group.panel(1).unwrap().get_content_view(), Some(3));
    group.insert_child_sized(ResizablePanel::new().content_view(4), 0, Some(380));
    assert_eq!(group.sizes(), vec![380, 600, 200, 300]);
    assert_eq!(group.panel(0).unwrap().get_size(), 380);
    group.insert_child_sized(ResizablePanel::new().content_view(5), 4, None);
    assert_eq!(group.sizes(), vec![380, 600, 200, 300, 120]);
}

#[test]
fn replace_and_remove_child() {
    let mut group = ResizablePanelGroup::new();
    group.set_bounds(rect(0, 0, 600, 300));
    group.add_child(ResizablePanel::new().content_view(1));
    group.add_child(ResizablePanel::new().content_view(2));
    group.add_child(ResizablePanel::new().content_view(3));
    group.replace_child(ResizablePanel::new().content_view(9).size(77), 0);
    // the newcomer takes over the place and the size of the region
    assert_eq!(group.sizes(), vec![600, 300, 200]);
    assert_eq!(group.panel(0).unwrap().get_content_view(), Some(9));
    assert_eq!(group.panel(0).unwrap().get_size(), 600);
    assert_eq!(group.panel(0).unwrap().get_axis(), Axis::Horizontal);
    assert_eq!(group.panel(1).unwrap().get_content_view(), Some(2));
    group.remove_child(1);
    assert_eq!(group.sizes(), vec![600, 200]);
    assert_eq!(group.panel(1).unwrap().get_content_view(), Some(3));
    group.remove_all_children();
    assert_eq!(group.len(), 0);
    assert_eq!(group.sizes(), Vec::<i32>::new());
}

#[test]
fn replace_keeps_the_size_of_the_region() {
    let mut group = ResizablePanelGroup::new().axis(Axis::Vertical);
    group.set_bounds(rect(0, 0, 300, 600));
    group.load(
        vec![200, 200, 200],
        vec![ResizablePanel::new(), ResizablePanel::new().content_view(1), ResizablePanel::new()],
    );
    group.replace_child(ResizablePanel::new().content_view(8), 1);
    assert_eq!(group.sizes(), vec![200, 200, 200]);
    assert_eq!(group.len(), 3);
    assert_eq!(group.panel(1).unwrap().get_content_view(), Some(8));
    assert_eq!(group.panel(1).unwrap().get_size(), 200);
    assert_eq!(group.panel(1).unwrap().get_axis(), Axis::Vertical);
    assert_eq!(group.panel(0).unwrap().get_content_view(), None);
    assert_eq!(group.panel(2).unwrap().get_size(), 100);
}

#[test]
fn load_replaces_regions_and_sizes() {
    let mut group = ResizablePanelGroup::new();
    group.load(vec![120, 340], vec![ResizablePanel::new(), ResizablePanel::new().content_view(5)]);
    assert_eq!(group.sizes(), vec![120, 340]);
    assert_eq!(group.len(), 2);
    assert_eq!(group.panel(1).unwrap().get_content_view(), Some(5));
}

#[test]
fn resize_takes_sizes_from_the_layout_and_applies_them() {
    let mut group = laid_out(600, &[200, 200, 200]);
    // the sizes from adding differ from the layout
    assert_eq!(group.sizes(), vec![600, 300, 200]);
    group.resize_panels(0, 350);
    assert_eq!(group.sizes(), vec![350, 100, 150]);
    assert_eq!(group.panel(0).unwrap().get_size(), 350);
    assert_eq!(group.panel(1).unwrap().get_size(), 100);
    assert_eq!(group.panel(2).unwrap().get_size(), 150);
    // the layout is as it was until the host lays out again
    assert_eq!(group.panel(0).unwrap().get_bounds(), rect(0, 0, 200, 300));
}

#[test]
fn resize_of_the_last_region_changes_nothing() {
    let mut group = laid_out(600, &[200, 200, 200]);
    group.resize_panels(2, 350);
    assert_eq!(group.sizes(), vec![600, 300, 200]);
    group.resize_panels(7, 350);
    assert_eq!(group.sizes(), vec![600, 300, 200]);
    let mut empty = ResizablePanelGroup::new();
    empty.resize_panels(0, 350);
    assert_eq!(empty.len(), 0);
}

#[test]
fn resize_of_a_vertical_group_uses_heights() {
    let mut group = ResizablePanelGroup::new().axis(Axis::Vertical);
    group.set_bounds(rect(0, 0, 300, 600));
    for ix in 0..3usize {
        group.add_child(ResizablePanel::new());
        group.set_panel_bounds(ix, rect(0, 200 * ix as i32, 300, 200));
    }
    group.resize_panels(0, 350);
    assert_eq!(group.sizes(), vec![350, 100, 150]);
}

#[test]
fn mouse_move_resizes_only_while_a_handle_is_dragged() {
    let mut group = laid_out(600, &[200, 200, 200]);
    group.on_mouse_move(Point { x: 350, y: 0 });
    assert_eq!(group.sizes(), vec![600, 300, 200]);
    group.start_resizing(1);
    assert_eq!(group.resizing_panel_ix(), Some(1));
    // region 1 starts at x = 200: the pointer at 350 asks for 150
    group.on_mouse_move(Point { x: 350, y: 0 });
    assert_eq!(group.sizes(), vec![200, 150, 250]);
    group.on_mouse_up();
    assert_eq!(group.resizing_panel_ix(), None);
    group.on_mouse_move(Point { x: 500, y: 0 });
    assert_eq!(group.sizes(), vec![200, 150, 250]);
}

#[test]
fn mouse_left_of_the_region_asks_for_less_than_nothing() {
    let mut group = laid_out(600, &[200, 200, 200]);
    group.start_resizing(1);
    group.on_mouse_move(Point { x: 150, y: 0 });
    // 50 below zero, 150 below the floor: region 0 can give 100
    assert_eq!(group.sizes(), vec![100, 100, 300]);
}

#[test]
fn resize_drag_carries_group_index_and_axis() {
    let drag = DragPanel((42, 1, Axis::Vertical));
    assert_eq!(drag.0, (42, 1, Axis::Vertical));
}
