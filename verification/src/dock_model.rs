//! The layout of a dock area as a mathematical value, and the edits of it:
//! what it means to attach a node to a stack, to take it out, to put
//! another in its place, to split a tab panel, and to drop a dragged panel.
//!
//! [`crate::dock_area::DockArea`] carries these edits out; here they are
//! stated, and shown to keep the layout consistent.

use vstd::prelude::*;
use crate::forest::{
    acyclic, ancestor, lemma_parent_acyclic, lemma_push_acyclic, lemma_unparent_acyclic,
    lemma_unparent_within, within,
};
use crate::geometry::{Axis, Bounds, Placement};
use crate::resizable::ResizablePanelGroupView;
use crate::stack_panel::{
    index_beside, lemma_insert_panel_wf, lemma_remove_panel_wf, lemma_replace_panel_wf, PanelNode,
    StackPanelView,
};
use crate::tab_panel::{DragPanel, TabPanelView};

verus! {

/// What a [`crate::dock_area::DockArea`] holds: the tab panels and the stacks,
/// each known by its index, and the stack at the root.
pub struct DockAreaView {
    pub tabs: Seq<TabPanelView>,
    pub stacks: Seq<StackPanelView>,
    pub root: usize,
}

/// A tab panel with no panels, in no stack.
pub open spec fn empty_tab_panel() -> TabPanelView {
    TabPanelView {
        stack_panel: None,
        panels: Seq::empty(),
        active_ix: 0,
        is_zoomed: false,
        will_split_placement: None,
    }
}

/// A stack with no children along `axis`, in no stack.
pub open spec fn empty_stack_panel(axis: Axis) -> StackPanelView {
    StackPanelView {
        parent: None,
        axis: axis,
        panels: Seq::empty(),
        panel_group: ResizablePanelGroupView {
            panels: Seq::empty(),
            sizes: Seq::empty(),
            axis: axis,
            handle_size: 1,
            size: None,
            bounds: Bounds::zero(),
            resizing_panel_ix: None,
        },
    }
}

impl DockAreaView {
    /// Whether `node` names a tab panel or a stack of this area.
    pub open spec fn has(self, node: PanelNode) -> bool {
        match node {
            PanelNode::Tab(t) => t < self.tabs.len(),
            PanelNode::Stack(s) => s < self.stacks.len(),
        }
    }

    /// The stack that `node` says it is held by.
    pub open spec fn parent_of(self, node: PanelNode) -> Option<usize> {
        match node {
            PanelNode::Tab(t) => self.tabs[t as int].stack_panel,
            PanelNode::Stack(s) => self.stacks[s as int].parent,
        }
    }

    /// The stack that holds each stack, by the index of the stack.
    pub open spec fn parents(self) -> Seq<Option<usize>> {
        Seq::new(self.stacks.len(), |s: int| self.stacks[s].parent)
    }

    /// Child `k` of stack `s`.
    pub open spec fn child_at(self, s: int, k: int) -> PanelNode {
        self.stacks[s].panels[k]
    }

    /// The layout is consistent: the root is a stack that no stack holds;
    /// every tab panel and every stack is well formed; every child of a
    /// stack is a node of the area and names that stack as its parent;
    /// every node that names a parent is among that stack's children; and
    /// no stack is held, directly or through other stacks, by itself. So
    /// the nodes form trees: a node has at most one parent, is a child of it
    /// exactly once, and the way up from it ends.
    pub open spec fn wf(self) -> bool {
        &&& self.tabs.len() <= usize::MAX
        &&& self.stacks.len() <= usize::MAX
        &&& acyclic(self.parents())
        &&& self.root < self.stacks.len()
        &&& self.stacks[self.root as int].parent is None
        &&& forall|t: int| 0 <= t < self.tabs.len() ==> (#[trigger] self.tabs[t]).wf()
        &&& forall|s: int| 0 <= s < self.stacks.len() ==> (#[trigger] self.stacks[s]).wf()
        &&& forall|s: int, k: int|
            0 <= s < self.stacks.len() && 0 <= k < self.stacks[s].panels.len() ==> self.has(
                #[trigger] self.child_at(s, k),
            ) && self.parent_of(self.child_at(s, k)) == Some(s as usize)
        &&& forall|node: PanelNode|
            self.has(node) && (#[trigger] self.parent_of(node)) is Some ==> self.parent_of(
                node,
            )->0 < self.stacks.len() && self.stacks[self.parent_of(node)->0 as int].panels.contains(
                node,
            )
    }

    /// The area with `tab` in the place of tab panel `t`.
    pub open spec fn with_tab(self, t: int, tab: TabPanelView) -> DockAreaView {
        DockAreaView { tabs: self.tabs.update(t, tab), ..self }
    }

    /// The area with `stack` in the place of stack `s`.
    pub open spec fn with_stack(self, s: int, stack: StackPanelView) -> DockAreaView {
        DockAreaView { stacks: self.stacks.update(s, stack), ..self }
    }

    /// The area with one more tab panel, which gets the next index.
    pub open spec fn push_tab(self, tab: TabPanelView) -> DockAreaView {
        DockAreaView { tabs: self.tabs.push(tab), ..self }
    }

    /// The area with one more stack, which gets the next index.
    pub open spec fn push_stack(self, stack: StackPanelView) -> DockAreaView {
        DockAreaView { stacks: self.stacks.push(stack), ..self }
    }

    /// The area in which `node` names `parent` as the stack that holds it.
    pub open spec fn set_parent(self, node: PanelNode, parent: Option<usize>) -> DockAreaView {
        match node {
            PanelNode::Tab(t) => self.with_tab(
                t as int,
                TabPanelView { stack_panel: parent, ..self.tabs[t as int] },
            ),
            PanelNode::Stack(s) => self.with_stack(
                s as int,
                StackPanelView { parent: parent, ..self.stacks[s as int] },
            ),
        }
    }

    /// Whether `node` can become a child of stack `s`: both exist, the node
    /// is held by no stack, and it is neither the root, nor the stack
    /// itself, nor a stack that holds it, directly or through other stacks.
    pub open spec fn attachable(self, s: int, node: PanelNode) -> bool {
        &&& 0 <= s < self.stacks.len()
        &&& self.has(node)
        &&& self.parent_of(node) is None
        &&& node != PanelNode::Stack(self.root)
        &&& node matches PanelNode::Stack(c) ==> !within(self.parents(), s, c as int)
    }

    /// `node` becomes the child at `ix` of stack `s`, or its last child
    /// where `ix` is beyond the end, with `size` or the default size, and
    /// names `s` as its parent. Nothing changes where it cannot be attached.
    pub open spec fn attach(self, s: int, node: PanelNode, ix: int, size: Option<i32>) -> DockAreaView {
        if self.attachable(s, node) {
            self.with_stack(s, self.stacks[s].insert_panel(node, ix, size)).set_parent(
                node,
                Some(s as usize),
            )
        } else {
            self
        }
    }

    /// Whether `node` is a child of stack `s`.
    pub open spec fn holds(self, s: int, node: PanelNode) -> bool {
        0 <= s < self.stacks.len() && self.stacks[s].panels.contains(node)
    }

    /// `node` leaves stack `s` and names no parent any more. Nothing changes
    /// where it is no child of `s`.
    pub open spec fn detach(self, s: int, node: PanelNode) -> DockAreaView {
        if self.holds(s, node) {
            self.with_stack(s, self.stacks[s].remove_panel(node)).set_parent(node, None)
        } else {
            self
        }
    }

    /// `new_node` takes the place of `old_node` among the children of stack
    /// `s`, at its index and with its size, and names `s` as its parent;
    /// `old_node` names none any more.
    /// Nothing changes where `old_node` is no child of `s` or `new_node`
    /// cannot be attached.
    pub open spec fn replace(self, s: int, old_node: PanelNode, new_node: PanelNode) -> DockAreaView {
        if self.holds(s, old_node) && self.attachable(s, new_node) {
            self.with_stack(s, self.stacks[s].replace_panel(old_node, new_node)).set_parent(
                old_node,
                None,
            ).set_parent(new_node, Some(s as usize))
        } else {
            self
        }
    }

    /// Stack `s` lies along `axis`. Nothing changes where there is no such
    /// stack.
    pub open spec fn set_axis(self, s: int, axis: Axis) -> DockAreaView {
        if 0 <= s < self.stacks.len() {
            self.with_stack(s, self.stacks[s].set_axis(axis))
        } else {
            self
        }
    }

    /// The area after something happened to the regions of stack `s` alone:
    /// `stack` stands in its place. Nothing changes where there is no such
    /// stack.
    pub open spec fn relaid(self, s: int, stack: StackPanelView) -> DockAreaView {
        if 0 <= s < self.stacks.len() {
            self.with_stack(s, stack)
        } else {
            self
        }
    }

    /// Tab panel `t` leaves the stack that holds it if it has no panels.
    /// Nothing changes where it has panels or is held by no stack.
    pub open spec fn remove_tab_if_empty(self, t: int) -> DockAreaView {
        if 0 <= t < self.tabs.len() && self.tabs[t].panels.len() == 0
            && self.tabs[t].stack_panel is Some {
            self.detach(self.tabs[t].stack_panel->0 as int, PanelNode::Tab(t as usize))
        } else {
            self
        }
    }

    /// `panel` becomes the last tab of tab panel `t`.
    pub open spec fn add_panel(self, t: int, panel: u64) -> DockAreaView {
        if 0 <= t < self.tabs.len() {
            self.with_tab(t, self.tabs[t].add_panel(panel))
        } else {
            self
        }
    }

    /// `panel` becomes tab `ix` of tab panel `t`, or its last tab where `ix`
    /// is beyond the end.
    pub open spec fn insert_panel_at(self, t: int, panel: u64, ix: int) -> DockAreaView {
        if 0 <= t < self.tabs.len() {
            self.with_tab(
                t,
                self.tabs[t].insert_panel_at(
                    panel,
                    if ix > self.tabs[t].panels.len() {
                        self.tabs[t].panels.len() as int
                    } else {
                        ix
                    },
                ),
            )
        } else {
            self
        }
    }

    /// `panel` is taken out of tab panel `t`, which stays where it is.
    pub open spec fn detach_panel(self, t: int, panel: u64) -> DockAreaView {
        if 0 <= t < self.tabs.len() {
            self.with_tab(t, self.tabs[t].detach_panel(panel))
        } else {
            self
        }
    }

    /// `panel` is taken out of tab panel `t`, and the tab panel leaves its
    /// stack if that was its last panel.
    pub open spec fn remove_panel(self, t: int, panel: u64) -> DockAreaView {
        self.detach_panel(t, panel).remove_tab_if_empty(t)
    }

    /// No tab panel without panels stands in a stack.
    pub open spec fn tidy(self) -> bool {
        forall|t: int|
            0 <= t < self.tabs.len() && (#[trigger] self.tabs[t]).stack_panel is Some
                ==> self.tabs[t].panels.len() > 0
    }

    /// Whether tab panel `t` can be split: it exists and a stack holds it.
    pub open spec fn can_split(self, t: int) -> bool {
        0 <= t < self.tabs.len() && self.tabs[t].stack_panel is Some
    }

    /// `first` and `second` become the last children of stack `s`, in this
    /// order, with the default size.
    pub open spec fn attach_pair(self, s: int, first: PanelNode, second: PanelNode) -> DockAreaView {
        let with_first = self.attach(s, first, self.stacks[s].panels.len() as int, None);
        with_first.attach(s, second, with_first.stacks[s].panels.len() as int, None)
    }

    /// `panel` gets a region of its own on the `placement` side of tab panel
    /// `t`; whether `t` still has panels is not looked at here. A new tab
    /// panel, with the next index, holds `panel` alone. Where the stack that
    /// holds `t` lies along the axis of the placement, the new tab panel
    /// becomes the neighbour of `t` in it. Where it lies across, a stack
    /// along the axis of the placement holds the two, the new one first for
    /// left and top, and second for right and bottom: the stack of `t`
    /// itself, turned, if `t` was its only child, and else a new stack, with
    /// the next index, that takes the place of `t`. Nothing changes where
    /// `t` cannot be split.
    pub open spec fn split_placed(self, t: int, panel: u64, placement: Placement) -> DockAreaView {
        if self.can_split(t) {
            let s = self.tabs[t].stack_panel->0 as int;
            let target = PanelNode::Tab(t as usize);
            let new_tab = PanelNode::Tab(self.tabs.len() as usize);
            let ix = self.stacks[s].panels.index_of(target);
            let area = self.push_tab(empty_tab_panel().add_panel(panel));
            let (first, second) = if placement.spec_is_leading() {
                (new_tab, target)
            } else {
                (target, new_tab)
            };
            if self.stacks[s].axis == placement.spec_axis() {
                area.attach(s, new_tab, index_beside(ix, placement), None)
            } else if self.stacks[s].panels.len() <= 1 {
                area.detach(s, target).set_axis(s, placement.spec_axis()).attach_pair(
                    s,
                    first,
                    second,
                )
            } else {
                let new_stack = self.stacks.len() as int;
                area.push_stack(empty_stack_panel(placement.spec_axis())).replace(
                    s,
                    target,
                    PanelNode::Stack(new_stack as usize),
                ).attach_pair(new_stack, first, second)
            }
        } else {
            self
        }
    }

    /// `panel` opens a region of its own on the `placement` side of tab panel
    /// `t`, as [`DockAreaView::split_placed`] says; after that, `t` leaves
    /// its stack if it has no panels.
    pub open spec fn split_panel(self, t: int, panel: u64, placement: Placement) -> DockAreaView {
        self.split_placed(t, panel, placement).remove_tab_if_empty(t)
    }

    /// Whether a drop on tab panel `target` does nothing at all: there is no
    /// such tab panel; or the panel comes from this very tab panel, no tab
    /// was aimed at, and there is no split placement, or the panel is the
    /// only one; or a split is asked for that cannot be had.
    pub open spec fn drop_is_ignored(self, target: int, drag: DragPanel, ix: Option<usize>) -> bool {
        ||| !(0 <= target < self.tabs.len())
        ||| (drag.tab_panel == target && ix is None && (self.tabs[target].will_split_placement
            is None || self.tabs[target].panels.len() == 1))
        ||| (self.tabs[target].will_split_placement is Some && !self.can_split(target))
    }

    /// The dragged panel taken out of the tab panel it comes from. A source
    /// other than the target leaves its stack if that was its last panel.
    pub open spec fn drop_detached(self, target: int, drag: DragPanel) -> DockAreaView {
        if drag.tab_panel == target {
            self.detach_panel(target, drag.panel)
        } else {
            self.remove_panel(drag.tab_panel as int, drag.panel)
        }
    }

    /// The dragged panel is released over tab panel `target`, on tab `ix` if
    /// one is given. Unless the drop is ignored, the panel leaves its source;
    /// then it splits the target where a split placement is set, and else
    /// becomes tab `ix` of the target, or its last tab; last, the target
    /// leaves its stack if it is left without panels.
    pub open spec fn on_drop(self, target: int, drag: DragPanel, ix: Option<usize>) -> DockAreaView {
        if self.drop_is_ignored(target, drag, ix) {
            self
        } else {
            let detached = self.drop_detached(target, drag);
            let placed = match self.tabs[target].will_split_placement {
                Some(placement) => detached.split_panel(target, drag.panel, placement),
                None => match ix {
                    Some(ix) => detached.insert_panel_at(target, drag.panel, ix as int),
                    None => detached.add_panel(target, drag.panel),
                },
            };
            placed.remove_tab_if_empty(target)
        }
    }

    /// The active panel of tab panel `t` is closed: it is removed as
    /// [`DockAreaView::remove_panel`] removes it.
    pub open spec fn close_active_panel(self, t: int) -> DockAreaView {
        if 0 <= t < self.tabs.len() && self.tabs[t].active_panel() is Some {
            self.remove_panel(t, self.tabs[t].active_panel()->0)
        } else {
            self
        }
    }
}

/// Putting a well-formed tab panel with the same parent in the place of
/// another keeps the layout consistent.
pub proof fn lemma_with_tab_wf(area: DockAreaView, t: int, tab: TabPanelView)
    requires
        area.wf(),
        0 <= t < area.tabs.len(),
        tab.wf(),
        tab.stack_panel == area.tabs[t].stack_panel,
    ensures
        area.with_tab(t, tab).wf(),
{
    let after = area.with_tab(t, tab);
    assert(after.parents() =~= area.parents());
    assert forall|s: int, k: int|
        0 <= s < after.stacks.len() && 0 <= k < after.stacks[s].panels.len() implies after.has(
        #[trigger] after.child_at(s, k),
    ) && after.parent_of(after.child_at(s, k)) == Some(s as usize) by {
        assert(area.has(area.child_at(s, k)));
    }
    assert forall|node: PanelNode|
        after.has(node) && (#[trigger] after.parent_of(node)) is Some implies after.parent_of(
        node,
    )->0 < after.stacks.len() && after.stacks[after.parent_of(node)->0 as int].panels.contains(
        node,
    ) by {
        assert(area.parent_of(node) == after.parent_of(node));
    }
}

/// Putting a well-formed stack with the same parent and the same children
/// in the place of another keeps the layout consistent.
pub proof fn lemma_with_stack_wf(area: DockAreaView, s: int, stack: StackPanelView)
    requires
        area.wf(),
        0 <= s < area.stacks.len(),
        stack.wf(),
        stack.parent == area.stacks[s].parent,
        stack.panels == area.stacks[s].panels,
    ensures
        area.with_stack(s, stack).wf(),
{
    let after = area.with_stack(s, stack);
    assert(after.parents() =~= area.parents());
    assert forall|q: int, k: int|
        0 <= q < after.stacks.len() && 0 <= k < after.stacks[q].panels.len() implies after.has(
        #[trigger] after.child_at(q, k),
    ) && after.parent_of(after.child_at(q, k)) == Some(q as usize) by {
        assert(area.has(area.child_at(q, k)));
    }
    assert forall|node: PanelNode|
        after.has(node) && (#[trigger] after.parent_of(node)) is Some implies after.parent_of(
        node,
    )->0 < after.stacks.len() && after.stacks[after.parent_of(node)->0 as int].panels.contains(
        node,
    ) by {
        assert(area.parent_of(node) == after.parent_of(node));
    }
}

/// A new tab panel that is well formed and in no stack keeps the layout
/// consistent.
pub proof fn lemma_push_tab_wf(area: DockAreaView, tab: TabPanelView)
    requires
        area.wf(),
        tab.wf(),
        tab.stack_panel is None,
        area.tabs.len() < usize::MAX,
    ensures
        area.push_tab(tab).wf(),
{
    let after = area.push_tab(tab);
    assert(after.parents() =~= area.parents());
    assert forall|s: int, k: int|
        0 <= s < after.stacks.len() && 0 <= k < after.stacks[s].panels.len() implies after.has(
        #[trigger] after.child_at(s, k),
    ) && after.parent_of(after.child_at(s, k)) == Some(s as usize) by {
        assert(area.has(area.child_at(s, k)));
    }
    assert forall|node: PanelNode|
        after.has(node) && (#[trigger] after.parent_of(node)) is Some implies after.parent_of(
        node,
    )->0 < after.stacks.len() && after.stacks[after.parent_of(node)->0 as int].panels.contains(
        node,
    ) by {
        assert(area.has(node));
        assert(area.parent_of(node) == after.parent_of(node));
    }
}

/// A new stack that is well formed, empty and in no stack keeps the layout
/// consistent.
pub proof fn lemma_push_stack_wf(area: DockAreaView, stack: StackPanelView)
    requires
        area.wf(),
        stack.wf(),
        stack.parent is None,
        stack.panels.len() == 0,
        area.stacks.len() < usize::MAX,
    ensures
        area.push_stack(stack).wf(),
{
    let after = area.push_stack(stack);
    assert(after.parents() =~= area.parents().push(None));
    lemma_push_acyclic(area.parents());
    assert forall|s: int, k: int|
        0 <= s < after.stacks.len() && 0 <= k < after.stacks[s].panels.len() implies after.has(
        #[trigger] after.child_at(s, k),
    ) && after.parent_of(after.child_at(s, k)) == Some(s as usize) by {
        assert(area.has(area.child_at(s, k)));
    }
    assert forall|node: PanelNode|
        after.has(node) && (#[trigger] after.parent_of(node)) is Some implies after.parent_of(
        node,
    )->0 < after.stacks.len() && after.stacks[after.parent_of(node)->0 as int].panels.contains(
        node,
    ) by {
        assert(area.has(node));
        assert(area.parent_of(node) == after.parent_of(node));
    }
}

/// Turning a stack keeps the layout consistent.
pub proof fn lemma_set_axis_wf(area: DockAreaView, s: int, axis: Axis)
    requires
        area.wf(),
    ensures
        area.set_axis(s, axis).wf(),
{
    let after = area.set_axis(s, axis);
    if 0 <= s < area.stacks.len() {
        assert(area.stacks[s].wf());
        assert(after.parents() =~= area.parents());
        assert forall|q: int, k: int|
            0 <= q < after.stacks.len() && 0 <= k < after.stacks[q].panels.len() implies after.has(
            #[trigger] after.child_at(q, k),
        ) && after.parent_of(after.child_at(q, k)) == Some(q as usize) by {
            assert(area.has(area.child_at(q, k)));
        }
        assert forall|node: PanelNode|
            after.has(node) && (#[trigger] after.parent_of(node)) is Some implies after.parent_of(
            node,
        )->0 < after.stacks.len() && after.stacks[after.parent_of(
            node,
        )->0 as int].panels.contains(node) by {
            assert(area.parent_of(node) == after.parent_of(node));
        }
    }
}

/// Attaching keeps the layout consistent.
pub proof fn lemma_attach_wf(area: DockAreaView, s: int, node: PanelNode, ix: int, size: Option<i32>)
    requires
        area.wf(),
        0 <= ix,
    ensures
        area.attach(s, node, ix, size).wf(),
        area.attach(s, node, ix, size).tabs.len() == area.tabs.len(),
        area.attach(s, node, ix, size).stacks.len() == area.stacks.len(),
{
    let after = area.attach(s, node, ix, size);
    if area.attachable(s, node) {
        let grown = area.stacks[s].insert_panel(node, ix, size);
        lemma_insert_panel_wf(area.stacks[s], node, ix, size);
        assert(ancestor(area.parents(), s, 0) == Some(s));
        match node {
            PanelNode::Tab(_) => {
                assert(after.parents() =~= area.parents());
            },
            PanelNode::Stack(c) => {
                assert(c != s);
                assert(after.parents() =~= area.parents().update(c as int, Some(s as usize)));
                lemma_parent_acyclic(area.parents(), c as int, s);
            },
        }
        assert forall|q: int| 0 <= q < after.stacks.len() implies (#[trigger] after.stacks[q]).wf() by {
            assert(area.stacks[q].wf());
        }
        assert forall|t: int| 0 <= t < after.tabs.len() implies (#[trigger] after.tabs[t]).wf() by {
            assert(area.tabs[t].wf());
        }
        assert forall|q: int, k: int|
            0 <= q < after.stacks.len() && 0 <= k < after.stacks[q].panels.len() implies after.has(
            #[trigger] after.child_at(q, k),
        ) && after.parent_of(after.child_at(q, k)) == Some(q as usize) by {
            let child = after.child_at(q, k);
            if child != node {
                if q == s {
                    assert(grown.panels.contains(child));
                    assert(area.stacks[s].panels.contains(child));
                    let j = area.stacks[s].panels.index_of(child);
                    assert(area.child_at(s, j) == child);
                } else {
                    assert(area.child_at(q, k) == child);
                }
            } else {
                if q != s {
                    assert(area.child_at(q, k) == node);
                }
            }
        }
        assert forall|other: PanelNode|
            after.has(other) && (#[trigger] after.parent_of(other)) is Some implies after.parent_of(
            other,
        )->0 < after.stacks.len() && after.stacks[after.parent_of(
            other,
        )->0 as int].panels.contains(other) by {
            if other != node {
                assert(area.parent_of(other) == after.parent_of(other));
            }
        }
    }
}

/// Detaching keeps the layout consistent.
pub proof fn lemma_detach_wf(area: DockAreaView, s: int, node: PanelNode)
    requires
        area.wf(),
    ensures
        area.detach(s, node).wf(),
        area.detach(s, node).tabs.len() == area.tabs.len(),
        area.detach(s, node).stacks.len() == area.stacks.len(),
        area.has(node) ==> (area.detach(s, node).parent_of(node) == if area.holds(s, node) {
            None
        } else {
            area.parent_of(node)
        }),
{
    let after = area.detach(s, node);
    if area.holds(s, node) {
        let j = area.stacks[s].panels.index_of(node);
        assert(area.child_at(s, j) == node);
        let shrunk = area.stacks[s].remove_panel(node);
        lemma_remove_panel_wf(area.stacks[s], node);
        match node {
            PanelNode::Tab(_) => {
                assert(after.parents() =~= area.parents());
            },
            PanelNode::Stack(c) => {
                assert(after.parents() =~= area.parents().update(c as int, None));
                lemma_unparent_acyclic(area.parents(), c as int);
            },
        }
        assert forall|q: int| 0 <= q < after.stacks.len() implies (#[trigger] after.stacks[q]).wf() by {
            assert(area.stacks[q].wf());
        }
        assert forall|t: int| 0 <= t < after.tabs.len() implies (#[trigger] after.tabs[t]).wf() by {
            assert(area.tabs[t].wf());
        }
        assert forall|q: int, k: int|
            0 <= q < after.stacks.len() && 0 <= k < after.stacks[q].panels.len() implies after.has(
            #[trigger] after.child_at(q, k),
        ) && after.parent_of(after.child_at(q, k)) == Some(q as usize) by {
            let child = after.child_at(q, k);
            if q == s {
                assert(shrunk.panels.contains(child));
                assert(area.stacks[s].panels.contains(child));
                let i = area.stacks[s].panels.index_of(child);
                assert(area.child_at(s, i) == child);
            } else {
                assert(area.child_at(q, k) == child);
            }
        }
        assert forall|other: PanelNode|
            after.has(other) && (#[trigger] after.parent_of(other)) is Some implies after.parent_of(
            other,
        )->0 < after.stacks.len() && after.stacks[after.parent_of(
            other,
        )->0 as int].panels.contains(other) by {
            if other != node {
                assert(area.parent_of(other) == after.parent_of(other));
            }
        }
    }
}

/// Replacing keeps the layout consistent.
pub proof fn lemma_replace_wf(area: DockAreaView, s: int, old_node: PanelNode, new_node: PanelNode)
    requires
        area.wf(),
    ensures
        area.replace(s, old_node, new_node).wf(),
        area.replace(s, old_node, new_node).tabs.len() == area.tabs.len(),
        area.replace(s, old_node, new_node).stacks.len() == area.stacks.len(),
{
    let after = area.replace(s, old_node, new_node);
    if area.holds(s, old_node) && area.attachable(s, new_node) {
        let j = area.stacks[s].panels.index_of(old_node);
        assert(area.child_at(s, j) == old_node);
        assert(!area.stacks[s].panels.contains(new_node)) by {
            if area.stacks[s].panels.contains(new_node) {
                let i = area.stacks[s].panels.index_of(new_node);
                assert(area.child_at(s, i) == new_node);
            }
        }
        let swapped = area.stacks[s].replace_panel(old_node, new_node);
        lemma_replace_panel_wf(area.stacks[s], old_node, new_node);
        assert(ancestor(area.parents(), s, 0) == Some(s));
        let loosened = match old_node {
            PanelNode::Tab(_) => area.parents(),
            PanelNode::Stack(c) => area.parents().update(c as int, None),
        };
        assert(acyclic(loosened)) by {
            if let PanelNode::Stack(c) = old_node {
                lemma_unparent_acyclic(area.parents(), c as int);
            }
        }
        match new_node {
            PanelNode::Tab(_) => {
                assert(after.parents() =~= loosened);
            },
            PanelNode::Stack(c) => {
                assert(c != s);
                assert(after.parents() =~= loosened.update(c as int, Some(s as usize)));
                assert(!within(loosened, s, c as int)) by {
                    if let PanelNode::Stack(o) = old_node {
                        if within(loosened, s, c as int) {
                            lemma_unparent_within(area.parents(), o as int, s, c as int);
                        }
                    }
                }
                lemma_parent_acyclic(loosened, c as int, s);
            },
        }
        assert forall|q: int| 0 <= q < after.stacks.len() implies (#[trigger] after.stacks[q]).wf() by {
            assert(area.stacks[q].wf());
        }
        assert forall|t: int| 0 <= t < after.tabs.len() implies (#[trigger] after.tabs[t]).wf() by {
            assert(area.tabs[t].wf());
        }
        assert forall|q: int, k: int|
            0 <= q < after.stacks.len() && 0 <= k < after.stacks[q].panels.len() implies after.has(
            #[trigger] after.child_at(q, k),
        ) && after.parent_of(after.child_at(q, k)) == Some(q as usize) by {
            let child = after.child_at(q, k);
            if q == s {
                assert(swapped.panels.contains(child));
                if child != new_node {
                    assert(area.stacks[s].panels.contains(child));
                    let i = area.stacks[s].panels.index_of(child);
                    assert(area.child_at(s, i) == child);
                }
            } else {
                assert(area.child_at(q, k) == child);
            }
        }
        assert forall|other: PanelNode|
            after.has(other) && (#[trigger] after.parent_of(other)) is Some implies after.parent_of(
            other,
        )->0 < after.stacks.len() && after.stacks[after.parent_of(
            other,
        )->0 as int].panels.contains(other) by {
            if other != old_node && other != new_node {
                assert(area.parent_of(other) == after.parent_of(other));
            }
        }
    }
}

} // verus!
