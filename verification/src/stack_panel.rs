//! A container that lays its children out along one axis. A child is a tab
//! panel or another stack; each has a region in the stack's group of
//! resizable regions, which holds its size.
//!
//! A stack refers to its children by their slots in the
//! [`crate::dock_area::DockArea`]. It keeps its own list consistent; that a
//! child knows its parent is the business of the dock area.

use vstd::prelude::*;
use crate::geometry::{Axis, Bounds, Placement, Point};
use crate::resizable::{
    ResizablePanel, ResizablePanelGroup, ResizablePanelGroupView, ResizablePanelView,
};
use crate::resize::PANEL_MIN_SIZE;

verus! {

/// A layout node: a tab panel or a stack, by its slot in the dock area.
#[derive(Clone, Copy, Debug, PartialEq, Eq, Structural)]
pub enum PanelNode {
    Tab(usize),
    Stack(usize),
}

pub struct StackPanel {
    parent: Option<usize>,
    axis: Axis,
    panels: Vec<PanelNode>,
    panel_group: ResizablePanelGroup,
}

/// What a [`StackPanel`] holds.
pub struct StackPanelView {
    /// The stack that holds this one, by its slot in the dock area.
    pub parent: Option<usize>,
    pub axis: Axis,
    /// The children, first to last along the axis.
    pub panels: Seq<PanelNode>,
    /// The regions of the children, with their sizes.
    pub panel_group: ResizablePanelGroupView,
}

/// The region that a child of a stack starts with, before the group gives it
/// its axis and size.
pub open spec fn fresh_region() -> ResizablePanelView {
    ResizablePanelView {
        size: PANEL_MIN_SIZE,
        axis: Axis::Horizontal,
        content_view: None,
        bounds: Bounds::zero(),
    }
}

/// The index at which a node placed on the `placement` side of child `ix`
/// is inserted: `ix` to come before it, `ix + 1` to come after.
pub open spec fn index_beside(ix: int, placement: Placement) -> int {
    if placement.spec_is_leading() {
        ix
    } else {
        ix + 1
    }
}

impl StackPanelView {
    /// No child occurs twice, each child has its region, and the group lies
    /// along the stack's axis.
    pub open spec fn wf(self) -> bool {
        &&& self.panels.no_duplicates()
        &&& self.panel_group.wf()
        &&& self.panel_group.panels.len() == self.panels.len()
        &&& self.panel_group.axis == self.axis
    }

    /// The sizes of the children, in their order.
    pub open spec fn sizes(self) -> Seq<i32> {
        self.panel_group.sizes
    }

    /// The index of `node` among the children.
    pub open spec fn index_of_panel(self, node: PanelNode) -> Option<int> {
        if self.panels.contains(node) {
            Some(self.panels.index_of(node))
        } else {
            None
        }
    }

    /// `ix`, but no more than the number of children.
    pub open spec fn clamped(self, ix: int) -> int {
        if ix > self.panels.len() {
            self.panels.len() as int
        } else {
            ix
        }
    }

    /// `node` becomes the child at `ix`, or the last child where `ix` is
    /// beyond the end, with `size`, or with the group's default size where
    /// none is given. A node that is a child already is not inserted again:
    /// nothing changes.
    pub open spec fn insert_panel(self, node: PanelNode, ix: int, size: Option<i32>) -> StackPanelView {
        if self.panels.contains(node) {
            self
        } else {
            StackPanelView {
                panels: self.panels.insert(self.clamped(ix), node),
                panel_group: self.panel_group.insert_child_sized(
                    fresh_region(),
                    self.clamped(ix),
                    size,
                ),
                ..self
            }
        }
    }

    /// `node` becomes the last child.
    pub open spec fn add_panel(self, node: PanelNode, size: Option<i32>) -> StackPanelView {
        self.insert_panel(node, self.panels.len() as int, size)
    }

    /// `node` becomes a child on the `placement` side of the child at `ix`,
    /// with the default size.
    pub open spec fn add_panel_at(self, node: PanelNode, ix: int, placement: Placement) -> StackPanelView {
        self.insert_panel(node, index_beside(ix, placement), None)
    }

    /// `node` leaves with its region; the other children keep their order
    /// and their sizes. Nothing changes if it is no child.
    pub open spec fn remove_panel(self, node: PanelNode) -> StackPanelView {
        if self.panels.contains(node) {
            StackPanelView {
                panels: self.panels.remove(self.panels.index_of(node)),
                panel_group: self.panel_group.remove_child(self.panels.index_of(node)),
                ..self
            }
        } else {
            self
        }
    }

    /// `new_node` takes the place of `old_node`, at its index and in its
    /// region, which keeps its size. Nothing changes if `old_node` is no
    /// child, or if `new_node` is one already.
    pub open spec fn replace_panel(self, old_node: PanelNode, new_node: PanelNode) -> StackPanelView {
        if self.panels.contains(old_node) && !self.panels.contains(new_node) {
            StackPanelView {
                panels: self.panels.update(self.panels.index_of(old_node), new_node),
                panel_group: self.panel_group.replace_child(
                    fresh_region(),
                    self.panels.index_of(old_node),
                ),
                ..self
            }
        } else {
            self
        }
    }

    /// Every child leaves.
    pub open spec fn remove_all_panels(self) -> StackPanelView {
        StackPanelView {
            panels: Seq::empty(),
            panel_group: self.panel_group.remove_all_children(),
            ..self
        }
    }

    /// The stack with `group` for its regions.
    pub open spec fn with_group(self, group: ResizablePanelGroupView) -> StackPanelView {
        StackPanelView { panel_group: group, ..self }
    }

    /// The stack after the rectangle of region `ix` was recorded; nothing
    /// changes where there is no such region.
    pub open spec fn set_region_bounds(self, ix: int, bounds: Bounds) -> StackPanelView {
        if 0 <= ix < self.panel_group.panels.len() {
            self.with_group(
                ResizablePanelGroupView {
                    panels: self.panel_group.panels.update(
                        ix,
                        ResizablePanelView {
                            size: bounds.size.spec_along(self.panel_group.panels[ix].axis),
                            bounds: bounds,
                            ..self.panel_group.panels[ix]
                        },
                    ),
                    ..self.panel_group
                },
            )
        } else {
            self
        }
    }

    /// The stack after the pointer moved to `position`: while a handle is
    /// dragged, the region before it is resized to reach from its leading
    /// edge to the pointer.
    pub open spec fn on_mouse_move(self, position: Point) -> StackPanelView {
        match self.panel_group.resizing_panel_ix {
            Some(ix) => if ix < self.panel_group.panels.len() {
                self.with_group(
                    self.panel_group.resize_panels(
                        ix as int,
                        self.panel_group.dragged_size(ix as int, position),
                    ),
                )
            } else {
                self
            },
            None => self,
        }
    }

    /// The stack, and its group with it, along `axis`.
    pub open spec fn set_axis(self, axis: Axis) -> StackPanelView {
        StackPanelView {
            axis: axis,
            panel_group: ResizablePanelGroupView { axis: axis, ..self.panel_group },
            ..self
        }
    }
}

/// Inserting keeps a stack well formed, and the node is a child afterwards.
pub proof fn lemma_insert_panel_wf(stack: StackPanelView, node: PanelNode, ix: int, size: Option<i32>)
    requires
        stack.wf(),
        0 <= ix,
    ensures
        stack.insert_panel(node, ix, size).wf(),
        stack.insert_panel(node, ix, size).panels.contains(node),
        forall|other: PanelNode|
            stack.insert_panel(node, ix, size).panels.contains(other) <==> (other == node
                || stack.panels.contains(other)),
        stack.insert_panel(node, ix, size).parent == stack.parent,
{
    let after = stack.insert_panel(node, ix, size).panels;
    if !stack.panels.contains(node) {
        let at = stack.clamped(ix);
        assert(after[at] == node);
        assert forall|i: int, j: int| 0 <= i < after.len() && 0 <= j < after.len() && i
            != j implies after[i] != after[j] by {
            let oi = if i < at {
                i
            } else {
                i - 1
            };
            let oj = if j < at {
                j
            } else {
                j - 1
            };
            if i != at {
                assert(after[i] == stack.panels[oi]);
            }
            if j != at {
                assert(after[j] == stack.panels[oj]);
            }
        }
        assert forall|other: PanelNode| after.contains(other) <==> (other == node
            || stack.panels.contains(other)) by {
            if after.contains(other) {
                let i = after.index_of(other);
                if i != at {
                    let oi = if i < at {
                        i
                    } else {
                        i - 1
                    };
                    assert(after[i] == stack.panels[oi]);
                }
            }
            if stack.panels.contains(other) {
                let i = stack.panels.index_of(other);
                let ni = if i < at {
                    i
                } else {
                    i + 1
                };
                assert(after[ni] == other);
            }
        }
    }
}

/// Removing keeps a stack well formed, and the node is no child afterwards.
pub proof fn lemma_remove_panel_wf(stack: StackPanelView, node: PanelNode)
    requires
        stack.wf(),
    ensures
        stack.remove_panel(node).wf(),
        !stack.remove_panel(node).panels.contains(node),
        forall|other: PanelNode|
            stack.remove_panel(node).panels.contains(other) <==> (other != node
                && stack.panels.contains(other)),
        stack.remove_panel(node).parent == stack.parent,
{
    let after = stack.remove_panel(node).panels;
    if stack.panels.contains(node) {
        let at = stack.panels.index_of(node);
        assert forall|i: int| 0 <= i < after.len() implies after[i] == stack.panels[if i < at {
            i
        } else {
            i + 1
        }] by {}
        assert forall|other: PanelNode| after.contains(other) <==> (other != node
            && stack.panels.contains(other)) by {
            if after.contains(other) {
                let i = after.index_of(other);
                assert(after[i] == stack.panels[if i < at {
                    i
                } else {
                    i + 1
                }]);
            }
            if other != node && stack.panels.contains(other) {
                let i = stack.panels.index_of(other);
                let ni = if i < at {
                    i
                } else {
                    i - 1
                };
                assert(after[ni] == other);
            }
        }
    }
}

/// Replacing keeps a stack well formed and the sizes of its children as
/// they are: the old node is no child afterwards, and the new one is, where
/// the old one was one and the new one was not.
pub proof fn lemma_replace_panel_wf(stack: StackPanelView, old_node: PanelNode, new_node: PanelNode)
    requires
        stack.wf(),
    ensures
        stack.replace_panel(old_node, new_node).wf(),
        stack.replace_panel(old_node, new_node).parent == stack.parent,
        stack.replace_panel(old_node, new_node).sizes() == stack.sizes(),
        stack.panels.contains(old_node) && !stack.panels.contains(new_node) ==> forall|
            other: PanelNode,
        |
            stack.replace_panel(old_node, new_node).panels.contains(other) <==> (other == new_node
                || (other != old_node && stack.panels.contains(other))),
{
    let after = stack.replace_panel(old_node, new_node).panels;
    if stack.panels.contains(old_node) && !stack.panels.contains(new_node) {
        let at = stack.panels.index_of(old_node);
        assert(after[at] == new_node);
        assert forall|other: PanelNode| after.contains(other) <==> (other == new_node || (other
            != old_node && stack.panels.contains(other))) by {
            if after.contains(other) {
                let i = after.index_of(other);
                if i != at {
                    assert(after[i] == stack.panels[i]);
                }
            }
            if other != old_node && stack.panels.contains(other) {
                let i = stack.panels.index_of(other);
                assert(after[i] == other);
            }
        }
    }
}

impl View for StackPanel {
    type V = StackPanelView;

    closed spec fn view(&self) -> StackPanelView {
        StackPanelView {
            parent: self.parent,
            axis: self.axis,
            panels: self.panels@,
            panel_group: self.panel_group@,
        }
    }
}

impl StackPanel {
    /// See [`StackPanelView::wf`].
    pub open spec fn wf(&self) -> bool {
        self@.wf()
    }

    /// An empty stack along `axis`, in no other stack.
    pub fn new(axis: Axis) -> (r: Self)
        ensures
            r.wf(),
            r@.parent is None,
            r@.axis == axis,
            r@.panels == Seq::<PanelNode>::empty(),
            r@.panel_group == (ResizablePanelGroupView {
                panels: Seq::empty(),
                sizes: Seq::empty(),
                axis: axis,
                handle_size: 1,
                size: None,
                bounds: Bounds::zero(),
                resizing_panel_ix: None,
            }),
    {
        StackPanel {
            parent: None,
            axis,
            panels: Vec::new(),
            panel_group: ResizablePanelGroup::new().axis(axis),
        }
    }

    /// Records the stack that holds this one, or that none does.
    pub(crate) fn set_parent(&mut self, parent: Option<usize>)
        ensures
            final(self)@ == (StackPanelView { parent: parent, ..old(self)@ }),
    {
        self.parent = parent;
    }

    /// The number of children.
    pub fn panels_len(&self) -> (r: usize)
        ensures
            r == self@.panels.len(),
    {
        self.panels.len()
    }

    /// The index of `node` among the children; none if it is no child, which
    /// is no error: it may have left already.
    pub fn index_of_panel(&self, node: PanelNode) -> (r: Option<usize>)
        ensures
            r is Some <==> self@.panels.contains(node),
            r matches Some(i) ==> i < self@.panels.len() && self@.panels[i as int] == node,
            self.wf() ==> (match r {
                Some(i) => self@.index_of_panel(node) == Some(i as int),
                None => self@.index_of_panel(node) is None,
            }),
    {
        let mut i: usize = 0;
        while i < self.panels.len()
            invariant
                i <= self.panels.len(),
                forall|j: int| 0 <= j < i ==> self.panels@[j] != node,
            decreases self.panels.len() - i,
        {
            if self.panels[i] == node {
                return Some(i);
            }
            i = i + 1;
        }
        None
    }

    /// Makes `node` the child at `ix`, or the last child where `ix` is
    /// beyond the end. Its region gets `size`, or, where none is given, an
    /// even share of the container among the children and the newcomer; the
    /// sizes of the other children stay as they are. A node that is a child
    /// already is not inserted again.
    pub fn insert_panel(&mut self, node: PanelNode, ix: usize, size: Option<i32>)
        requires
            old(self).wf(),
        ensures
            final(self).wf(),
            final(self)@ == old(self)@.insert_panel(node, ix as int, size),
            final(self)@.panels.contains(node),
    {
        if self.index_of_panel(node).is_some() {
            return ;
        }
        let at = if ix > self.panels.len() {
            self.panels.len()
        } else {
            ix
        };
        self.panels.insert(at, node);
        self.panel_group.insert_child_sized(ResizablePanel::new(), at, size);
        proof {
            lemma_insert_panel_wf(old(self)@, node, ix as int, size);
        }
    }

    /// Makes `node` the last child; see [`StackPanel::insert_panel`].
    pub fn add_panel(&mut self, node: PanelNode, size: Option<i32>)
        requires
            old(self).wf(),
        ensures
            final(self).wf(),
            final(self)@ == old(self)@.add_panel(node, size),
            final(self)@.panels.contains(node),
    {
        let n = self.panels.len();
        self.insert_panel(node, n, size);
    }

    /// Makes `node` a child on the `placement` side of the child at `ix`:
    /// before it for left and top, after it for right and bottom.
    pub fn add_panel_at(&mut self, node: PanelNode, ix: usize, placement: Placement)
        requires
            old(self).wf(),
            ix < usize::MAX,
        ensures
            final(self).wf(),
            final(self)@ == old(self)@.add_panel_at(node, ix as int, placement),
            final(self)@.panels.contains(node),
    {
        if placement.is_leading() {
            self.insert_panel(node, ix, None);
        } else {
            self.insert_panel(node, ix + 1, None);
        }
    }

    /// Removes `node` and its region, and says whether it was a child. The
    /// sizes of the other children stay as they are.
    pub fn remove_panel(&mut self, node: PanelNode) -> (found: bool)
        requires
            old(self).wf(),
        ensures
            final(self).wf(),
            final(self)@ == old(self)@.remove_panel(node),
            found == old(self)@.panels.contains(node),
            !final(self)@.panels.contains(node),
    {
        proof {
            lemma_remove_panel_wf(old(self)@, node);
        }
        match self.index_of_panel(node) {
            Some(ix) => {
                self.panels.remove(ix);
                self.panel_group.remove_child(ix);
                true
            },
            None => false,
        }
    }

    /// Puts `new_node` in the place of `old_node`, at its index and in its
    /// region, which keeps its size, and says whether it did. It does not if
    /// `old_node` is no child or `new_node` is one already.
    pub fn replace_panel(&mut self, old_node: PanelNode, new_node: PanelNode) -> (replaced: bool)
        requires
            old(self).wf(),
        ensures
            final(self).wf(),
            final(self)@ == old(self)@.replace_panel(old_node, new_node),
            replaced == (old(self)@.panels.contains(old_node) && !old(self)@.panels.contains(
                new_node,
            )),
    {
        proof {
            lemma_replace_panel_wf(old(self)@, old_node, new_node);
        }
        if self.index_of_panel(new_node).is_some() {
            return false;
        }
        match self.index_of_panel(old_node) {
            Some(ix) => {
                self.panels.set(ix, new_node);
                self.panel_group.replace_child(ResizablePanel::new(), ix);
                true
            },
            None => false,
        }
    }

    /// Removes every child.
    pub fn remove_all_panels(&mut self)
        requires
            old(self).wf(),
        ensures
            final(self).wf(),
            final(self)@ == old(self)@.remove_all_panels(),
    {
        self.panels.clear();
        self.panel_group.remove_all_children();
    }

    /// Lays the stack out along `axis`. The children and their sizes stay as
    /// they are: it is for the caller to see that they still make sense.
    pub fn set_axis(&mut self, axis: Axis)
        requires
            old(self).wf(),
        ensures
            final(self).wf(),
            final(self)@ == old(self)@.set_axis(axis),
    {
        self.axis = axis;
        self.panel_group.set_axis(axis);
    }

    /// Records the rectangle the stack was laid out in.
    pub fn set_bounds(&mut self, bounds: Bounds)
        requires
            old(self).wf(),
        ensures
            final(self).wf(),
            final(self)@ == old(self)@.with_group(
                ResizablePanelGroupView { bounds: bounds, ..old(self)@.panel_group },
            ),
    {
        self.panel_group.set_bounds(bounds);
    }

    /// Records the rectangle the region of child `ix` was laid out in. The
    /// sizes of the stack change only with the next drag.
    pub fn set_region_bounds(&mut self, ix: usize, bounds: Bounds)
        requires
            old(self).wf(),
        ensures
            final(self).wf(),
            final(self)@ == old(self)@.set_region_bounds(ix as int, bounds),
    {
        if ix < self.panel_group.len() {
            self.panel_group.set_panel_bounds(ix, bounds);
        }
    }

    /// The drag of the handle after child `ix` begins.
    pub fn start_resizing(&mut self, ix: usize)
        requires
            old(self).wf(),
        ensures
            final(self).wf(),
            final(self)@ == old(self)@.with_group(
                ResizablePanelGroupView {
                    resizing_panel_ix: Some(ix),
                    ..old(self)@.panel_group
                },
            ),
    {
        self.panel_group.start_resizing(ix);
    }

    /// Child `ix` is dragged to `size`, as
    /// [`ResizablePanelGroup::resize_panels`] says.
    pub fn resize_panels(&mut self, ix: usize, size: i32)
        requires
            old(self).wf(),
        ensures
            final(self).wf(),
            final(self)@ == old(self)@.with_group(
                old(self)@.panel_group.resize_panels(ix as int, size as int),
            ),
    {
        self.panel_group.resize_panels(ix, size);
    }

    /// The pointer moved to `position`. While a handle is dragged, the child
    /// before it is resized to reach from its leading edge to the pointer;
    /// otherwise, and where the handle belongs to no child, nothing changes.
    pub fn on_mouse_move(&mut self, position: Point)
        requires
            old(self).wf(),
        ensures
            final(self).wf(),
            final(self)@ == old(self)@.on_mouse_move(position),
    {
        match self.panel_group.resizing_panel_ix() {
            Some(ix) => {
                if ix < self.panel_group.len() {
                    self.panel_group.on_mouse_move(position);
                }
            },
            None => {},
        }
    }

    /// A mouse button was released: the drag of a handle, if any, ends.
    pub fn on_mouse_up(&mut self)
        requires
            old(self).wf(),
        ensures
            final(self).wf(),
            final(self)@ == old(self)@.with_group(
                ResizablePanelGroupView {
                    resizing_panel_ix: None,
                    ..old(self)@.panel_group
                },
            ),
    {
        self.panel_group.on_mouse_up();
    }

    /// The stack that holds this one.
    pub fn parent(&self) -> (r: Option<usize>)
        ensures
            r == self@.parent,
    {
        self.parent
    }

    pub fn axis(&self) -> (r: Axis)
        ensures
            r == self@.axis,
    {
        self.axis
    }

    /// The children, first to last.
    pub fn panels(&self) -> (r: Vec<PanelNode>)
        ensures
            r@ == self@.panels,
    {
        self.panels.clone()
    }

    /// The sizes of the children, in their order.
    pub fn sizes(&self) -> (r: Vec<i32>)
        ensures
            r@ == self@.sizes(),
    {
        self.panel_group.sizes()
    }

    /// The regions of the children.
    pub fn panel_group(&self) -> (r: &ResizablePanelGroup)
        ensures
            r@ == self@.panel_group,
    {
        &self.panel_group
    }
}

} // verus!
