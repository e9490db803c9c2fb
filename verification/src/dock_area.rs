//! The owner of a layout: every tab panel and every stack lives in a slot of
//! the dock area and is known by the index of that slot. A stack refers to
//! its children, and a child to its parent, by index only, so nothing keeps
//! anything else alive, and a node that left its stack simply names no
//! parent.
//!
//! Every edit is stated over [`DockAreaView`] and leaves the layout
//! consistent. No edit needs more of its arguments than that the area is
//! consistent: an index that names nothing, a node that cannot be attached,
//! a split that cannot be had, all leave the layout as it is.

use vstd::prelude::*;
use crate::dock_model::{
    empty_stack_panel, empty_tab_panel, lemma_attach_wf, lemma_detach_wf, lemma_push_stack_wf,
    lemma_push_tab_wf, lemma_replace_wf, lemma_set_axis_wf, lemma_with_stack_wf,
    lemma_with_tab_wf, DockAreaView,
};
use crate::resizable::ResizablePanelGroupView;
use crate::forest::{ancestor, lemma_ancestor_ends, lemma_ancestor_step, ranked, within};
use crate::geometry::{split_placement_at, Axis, Bounds, Placement, Point};
use crate::stack_panel::{PanelNode, StackPanel};
use crate::tab_panel::{
    lemma_add_panel_wf, lemma_detach_panel_wf, DragPanel, PanelEvent, TabPanel, TabPanelView,
};

verus! {

pub struct DockArea {
    tabs: Vec<TabPanel>,
    stacks: Vec<StackPanel>,
    root: usize,
}

impl View for DockArea {
    type V = DockAreaView;

    closed spec fn view(&self) -> DockAreaView {
        DockAreaView {
            tabs: Seq::new(self.tabs@.len(), |i: int| self.tabs@[i]@),
            stacks: Seq::new(self.stacks@.len(), |i: int| self.stacks@[i]@),
            root: self.root,
        }
    }
}

impl DockArea {
    /// See [`DockAreaView::wf`].
    pub open spec fn wf(&self) -> bool {
        self@.wf()
    }

    /// A dock area whose root is an empty stack along `axis`.
    pub fn new(axis: Axis) -> (r: Self)
        ensures
            r.wf(),
            r@ == (DockAreaView {
                tabs: Seq::empty(),
                stacks: seq![empty_stack_panel(axis)],
                root: 0,
            }),
    {
        let mut stacks: Vec<StackPanel> = Vec::new();
        stacks.push(StackPanel::new(axis));
        let r = DockArea { tabs: Vec::new(), stacks, root: 0 };
        proof {
            assert(r@.tabs =~= Seq::empty());
            assert(r@.stacks =~= seq![empty_stack_panel(axis)]);
            assert(r@.stacks[0].panels.len() == 0);
            assert forall|node: PanelNode|
                r@.has(node) && (#[trigger] r@.parent_of(node)) is Some implies false by {}
            assert(ranked(r@.parents(), seq![0nat]));
        }
        r
    }

    /// The stack at the root.
    pub fn root(&self) -> (r: usize)
        ensures
            r == self@.root,
    {
        self.root
    }

    /// The number of tab panels, in a stack or not.
    pub fn tabs_len(&self) -> (r: usize)
        ensures
            r == self@.tabs.len(),
    {
        self.tabs.len()
    }

    /// The number of stacks, in a stack or not.
    pub fn stacks_len(&self) -> (r: usize)
        ensures
            r == self@.stacks.len(),
    {
        self.stacks.len()
    }

    /// Tab panel `t`, where there is one.
    pub fn tab_panel(&self, t: usize) -> (r: Option<&TabPanel>)
        ensures
            r is Some <==> t < self@.tabs.len(),
            r matches Some(tab) ==> tab@ == self@.tabs[t as int],
    {
        if t < self.tabs.len() {
            Some(&self.tabs[t])
        } else {
            None
        }
    }

    /// Stack `s`, where there is one.
    pub fn stack_panel(&self, s: usize) -> (r: Option<&StackPanel>)
        ensures
            r is Some <==> s < self@.stacks.len(),
            r matches Some(stack) ==> stack@ == self@.stacks[s as int],
    {
        if s < self.stacks.len() {
            Some(&self.stacks[s])
        } else {
            None
        }
    }

    /// The stack that holds `node`: none for a node that is in no stack, and
    /// for one that the area does not have.
    pub fn parent_of(&self, node: PanelNode) -> (r: Option<usize>)
        ensures
            r == (if self@.has(node) {
                self@.parent_of(node)
            } else {
                None
            }),
    {
        match node {
            PanelNode::Tab(t) => if t < self.tabs.len() {
                self.tabs[t].stack_panel()
            } else {
                None
            },
            PanelNode::Stack(s) => if s < self.stacks.len() {
                self.stacks[s].parent()
            } else {
                None
            },
        }
    }

    /// The index of `node` among the children of stack `s`: none where it is
    /// no child of it, which is no error, since it may have left already.
    pub fn index_of_panel(&self, s: usize, node: PanelNode) -> (r: Option<usize>)
        requires
            self.wf(),
        ensures
            r is Some <==> self@.holds(s as int, node),
            r matches Some(i) ==> i < self@.stacks[s as int].panels.len() && self@.stacks[s as int].panels[i as int]
                == node && i == self@.stacks[s as int].panels.index_of(node),
    {
        if s < self.stacks.len() {
            assert(self@.stacks[s as int].wf());
            self.stacks[s].index_of_panel(node)
        } else {
            None
        }
    }

    /// Adds a tab panel without panels, in no stack, and returns its index.
    pub fn new_tab_panel(&mut self) -> (t: usize)
        requires
            old(self).wf(),
        ensures
            final(self).wf(),
            t == old(self)@.tabs.len(),
            final(self)@ == old(self)@.push_tab(empty_tab_panel()),
    {
        let t = self.tabs.len();
        self.tabs.push(TabPanel::new());
        let n = self.tabs.len();
        proof {
            assert(self@.tabs =~= old(self)@.tabs.push(empty_tab_panel()));
            assert(self@.stacks =~= old(self)@.stacks);
            lemma_push_tab_wf(old(self)@, empty_tab_panel());
        }
        t
    }

    /// Adds an empty stack along `axis`, in no stack, and returns its index.
    pub fn new_stack_panel(&mut self, axis: Axis) -> (s: usize)
        requires
            old(self).wf(),
        ensures
            final(self).wf(),
            s == old(self)@.stacks.len(),
            final(self)@ == old(self)@.push_stack(empty_stack_panel(axis)),
    {
        let s = self.stacks.len();
        self.stacks.push(StackPanel::new(axis));
        let n = self.stacks.len();
        proof {
            assert(self@.stacks =~= old(self)@.stacks.push(empty_stack_panel(axis)));
            assert(self@.tabs =~= old(self)@.tabs);
            lemma_push_stack_wf(old(self)@, empty_stack_panel(axis));
        }
        s
    }

    fn set_parent(&mut self, node: PanelNode, parent: Option<usize>)
        requires
            old(self)@.has(node),
        ensures
            final(self)@ == old(self)@.set_parent(node, parent),
    {
        match node {
            PanelNode::Tab(t) => {
                self.tabs[t].set_parent(parent);
                assert(self@.tabs =~= old(self)@.set_parent(node, parent).tabs);
                assert(self@.stacks =~= old(self)@.stacks);
            },
            PanelNode::Stack(s) => {
                self.stacks[s].set_parent(parent);
                assert(self@.stacks =~= old(self)@.set_parent(node, parent).stacks);
                assert(self@.tabs =~= old(self)@.tabs);
            },
        }
    }

    /// Whether stack `s` is stack `c` or is held by it, directly or through
    /// other stacks.
    pub fn is_within(&self, s: usize, c: usize) -> (r: bool)
        requires
            self.wf(),
        ensures
            r == within(self@.parents(), s as int, c as int),
    {
        if s >= self.stacks.len() {
            assert forall|k: nat| ancestor(self@.parents(), s as int, k) is None by {}
            return false;
        }
        let ghost parents = self@.parents();
        let ghost rank = choose|rank: Seq<nat>| ranked(parents, rank);
        let ghost mut k: nat = 0;
        let mut cur = s;
        loop
            invariant
                parents == self@.parents(),
                ranked(parents, rank),
                cur < self.stacks.len(),
                ancestor(parents, s as int, k) == Some(cur as int),
                forall|j: nat| j < k ==> ancestor(parents, s as int, j) != Some(c as int),
            decreases rank[cur as int],
        {
            if cur == c {
                return true;
            }
            assert(parents[cur as int] == self@.stacks[cur as int].parent);
            match self.stacks[cur].parent() {
                Some(p) => {
                    proof {
                        lemma_ancestor_step(parents, s as int, k, cur as int);
                        k = k + 1;
                    }
                    cur = p;
                },
                None => {
                    proof {
                        assert forall|j: nat| ancestor(parents, s as int, j) != Some(
                            c as int,
                        ) by {
                            if j > k {
                                lemma_ancestor_ends(parents, s as int, k, j);
                            }
                        }
                    }
                    return false;
                },
            }
        }
    }

    /// Whether `node` can become a child of stack `s`: both exist, the node
    /// is in no stack, and it is neither the root, nor the stack itself, nor
    /// a stack that holds it.
    pub fn attachable(&self, s: usize, node: PanelNode) -> (r: bool)
        requires
            self.wf(),
        ensures
            r == self@.attachable(s as int, node),
    {
        if s >= self.stacks.len() {
            return false;
        }
        match node {
            PanelNode::Tab(t) => t < self.tabs.len() && self.tabs[t].stack_panel().is_none(),
            PanelNode::Stack(c) => c < self.stacks.len() && self.stacks[c].parent().is_none() && c
                != self.root && !self.is_within(s, c),
        }
    }

    /// Makes `node` the child at `ix` of stack `s`, or its last child where
    /// `ix` is beyond the end, and says whether it did. The region of the
    /// node gets `size`, or, where none is given, an even share of the
    /// stack's extent among its children and the newcomer; the sizes of the
    /// other children stay as they are. A node that cannot be attached is
    /// left alone.
    pub fn attach(&mut self, s: usize, node: PanelNode, ix: usize, size: Option<i32>) -> (done: bool)
        requires
            old(self).wf(),
        ensures
            final(self).wf(),
            final(self)@ == old(self)@.attach(s as int, node, ix as int, size),
            done == old(self)@.attachable(s as int, node),
    {
        if !self.attachable(s, node) {
            return false;
        }
        assert(self@.stacks[s as int].wf());
        self.stacks[s].insert_panel(node, ix, size);
        proof {
            let mid = old(self)@.with_stack(
                s as int,
                old(self)@.stacks[s as int].insert_panel(node, ix as int, size),
            );
            assert(self@.stacks =~= mid.stacks);
            assert(self@.tabs =~= mid.tabs);
        }
        self.set_parent(node, Some(s));
        proof {
            lemma_attach_wf(old(self)@, s as int, node, ix as int, size);
        }
        true
    }

    /// Makes `node` the last child of stack `s`; see [`DockArea::attach`].
    pub fn add_panel_to_stack(&mut self, s: usize, node: PanelNode, size: Option<i32>) -> (done: bool)
        requires
            old(self).wf(),
        ensures
            final(self).wf(),
            final(self)@ == old(self)@.attach(
                s as int,
                node,
                old(self)@.stacks[s as int].panels.len() as int,
                size,
            ),
            done == old(self)@.attachable(s as int, node),
    {
        if s >= self.stacks.len() {
            return false;
        }
        let n = self.stacks[s].panels_len();
        self.attach(s, node, n, size)
    }

    /// Takes `node` out of stack `s` and says whether it was a child of it.
    /// The node stays in the area and names no parent; the other children
    /// keep their order and their sizes.
    pub fn detach(&mut self, s: usize, node: PanelNode) -> (done: bool)
        requires
            old(self).wf(),
        ensures
            final(self).wf(),
            final(self)@ == old(self)@.detach(s as int, node),
            done == old(self)@.holds(s as int, node),
    {
        if s >= self.stacks.len() {
            return false;
        }
        assert(self@.stacks[s as int].wf());
        let found = self.stacks[s].remove_panel(node);
        if !found {
            assert(self@.stacks =~= old(self)@.stacks);
            assert(self@.tabs =~= old(self)@.tabs);
            return false;
        }
        proof {
            let mid = old(self)@.with_stack(s as int, old(self)@.stacks[s as int].remove_panel(node));
            assert(self@.stacks =~= mid.stacks);
            assert(self@.tabs =~= mid.tabs);
            let j = old(self)@.stacks[s as int].panels.index_of(node);
            assert(old(self)@.child_at(s as int, j) == node);
        }
        self.set_parent(node, None);
        proof {
            lemma_detach_wf(old(self)@, s as int, node);
        }
        true
    }

    /// Puts `new_node` in the place of `old_node` among the children of
    /// stack `s`, at its index and in its region, which keeps its size, and
    /// says whether it did.
    /// It does not where `old_node` is no child of `s` or `new_node` cannot
    /// be attached to it.
    pub fn replace(&mut self, s: usize, old_node: PanelNode, new_node: PanelNode) -> (done: bool)
        requires
            old(self).wf(),
        ensures
            final(self).wf(),
            final(self)@ == old(self)@.replace(s as int, old_node, new_node),
            done == (old(self)@.holds(s as int, old_node) && old(self)@.attachable(
                s as int,
                new_node,
            )),
    {
        if !self.attachable(s, new_node) {
            return false;
        }
        assert(self@.stacks[s as int].wf());
        if self.stacks[s].index_of_panel(old_node).is_none() {
            return false;
        }
        proof {
            let j = old(self)@.stacks[s as int].panels.index_of(old_node);
            assert(old(self)@.child_at(s as int, j) == old_node);
            if old(self)@.stacks[s as int].panels.contains(new_node) {
                let i = old(self)@.stacks[s as int].panels.index_of(new_node);
                assert(old(self)@.child_at(s as int, i) == new_node);
            }
        }
        let replaced = self.stacks[s].replace_panel(old_node, new_node);
        proof {
            let mid = old(self)@.with_stack(
                s as int,
                old(self)@.stacks[s as int].replace_panel(old_node, new_node),
            );
            assert(self@.stacks =~= mid.stacks);
            assert(self@.tabs =~= mid.tabs);
        }
        self.set_parent(old_node, None);
        self.set_parent(new_node, Some(s));
        proof {
            lemma_replace_wf(old(self)@, s as int, old_node, new_node);
        }
        true
    }

    /// Lays stack `s` out along `axis`. The children and their sizes stay as
    /// they are.
    pub fn set_axis(&mut self, s: usize, axis: Axis)
        requires
            old(self).wf(),
        ensures
            final(self).wf(),
            final(self)@ == old(self)@.set_axis(s as int, axis),
    {
        if s < self.stacks.len() {
            assert(self@.stacks[s as int].wf());
            self.stacks[s].set_axis(axis);
            proof {
                assert(self@.stacks =~= old(self)@.set_axis(s as int, axis).stacks);
                assert(self@.tabs =~= old(self)@.tabs);
                lemma_set_axis_wf(old(self)@, s as int, axis);
            }
        }
    }

    /// Takes tab panel `t` out of the stack that holds it if it has no
    /// panels, and says whether it did.
    pub fn remove_tab_if_empty(&mut self, t: usize) -> (done: bool)
        requires
            old(self).wf(),
        ensures
            final(self).wf(),
            final(self)@ == old(self)@.remove_tab_if_empty(t as int),
            done == (t < old(self)@.tabs.len() && old(self)@.tabs[t as int].panels.len() == 0
                && old(self)@.tabs[t as int].stack_panel is Some),
    {
        if t >= self.tabs.len() {
            return false;
        }
        if self.tabs[t].len() != 0 {
            return false;
        }
        match self.tabs[t].stack_panel() {
            Some(s) => {
                proof {
                    let node = PanelNode::Tab(t);
                    assert(self@.has(node) && self@.parent_of(node) == Some(s));
                }
                self.detach(s, PanelNode::Tab(t))
            },
            None => false,
        }
    }

    /// Adds `panel` as the last tab of tab panel `t` and makes it active. A
    /// panel that is a tab of `t` already is not added again: nothing
    /// changes.
    pub fn add_panel(&mut self, t: usize, panel: u64)
        requires
            old(self).wf(),
        ensures
            final(self).wf(),
            final(self)@ == old(self)@.add_panel(t as int, panel),
            t < old(self)@.tabs.len() && old(self)@.tabs[t as int].panels.contains(panel)
                ==> final(self)@ == old(self)@,
    {
        if t < self.tabs.len() {
            assert(self@.tabs[t as int].wf());
            self.tabs[t].add_panel(panel);
            proof {
                let tab = old(self)@.tabs[t as int];
                assert(self@.tabs =~= old(self)@.add_panel(t as int, panel).tabs);
                assert(self@.stacks =~= old(self)@.stacks);
                if tab.panels.contains(panel) {
                    assert(self@.tabs =~= old(self)@.tabs);
                }
                lemma_with_tab_wf(old(self)@, t as int, tab.add_panel(panel));
            }
        }
    }

    /// Adds `panel` as tab `ix` of tab panel `t`, or as its last tab where
    /// `ix` is beyond the end, and makes it active. A panel that is a tab of
    /// `t` already is not added again.
    pub fn insert_panel_at(&mut self, t: usize, panel: u64, ix: usize)
        requires
            old(self).wf(),
        ensures
            final(self).wf(),
            final(self)@ == old(self)@.insert_panel_at(t as int, panel, ix as int),
    {
        if t < self.tabs.len() {
            assert(self@.tabs[t as int].wf());
            let at = if ix > self.tabs[t].len() {
                self.tabs[t].len()
            } else {
                ix
            };
            self.tabs[t].insert_panel_at(panel, at);
            proof {
                let tab = old(self)@.tabs[t as int];
                assert(self@.tabs =~= old(self)@.insert_panel_at(t as int, panel, ix as int).tabs);
                assert(self@.stacks =~= old(self)@.stacks);
                lemma_with_tab_wf(old(self)@, t as int, tab.insert_panel_at(panel, at as int));
            }
        }
    }

    /// Takes `panel` out of tab panel `t`, which stays where it is, even
    /// without panels.
    pub fn detach_panel(&mut self, t: usize, panel: u64)
        requires
            old(self).wf(),
        ensures
            final(self).wf(),
            final(self)@ == old(self)@.detach_panel(t as int, panel),
    {
        if t < self.tabs.len() {
            assert(self@.tabs[t as int].wf());
            self.tabs[t].detach_panel(panel);
            proof {
                let tab = old(self)@.tabs[t as int];
                assert(self@.tabs =~= old(self)@.detach_panel(t as int, panel).tabs);
                assert(self@.stacks =~= old(self)@.stacks);
                lemma_detach_panel_wf(tab, panel);
                lemma_with_tab_wf(old(self)@, t as int, tab.detach_panel(panel));
            }
        }
    }

    /// Takes `panel` out of tab panel `t`; if that was its last panel, the
    /// tab panel then leaves the stack that holds it.
    pub fn remove_panel(&mut self, t: usize, panel: u64)
        requires
            old(self).wf(),
        ensures
            final(self).wf(),
            final(self)@ == old(self)@.remove_panel(t as int, panel),
    {
        self.detach_panel(t, panel);
        self.remove_tab_if_empty(t);
    }

    /// Closes the active panel of tab panel `t`, as
    /// [`DockArea::remove_panel`] removes it.
    pub fn close_active_panel(&mut self, t: usize)
        requires
            old(self).wf(),
        ensures
            final(self).wf(),
            final(self)@ == old(self)@.close_active_panel(t as int),
    {
        if t < self.tabs.len() {
            if let Some(panel) = self.tabs[t].active_panel() {
                self.remove_panel(t, panel);
            }
        }
    }

    fn attach_pair(&mut self, s: usize, first: PanelNode, second: PanelNode)
        requires
            old(self).wf(),
            s < old(self)@.stacks.len(),
        ensures
            final(self).wf(),
            final(self)@ == old(self)@.attach_pair(s as int, first, second),
    {
        let n = self.stacks[s].panels_len();
        self.attach(s, first, n, None);
        proof {
            lemma_attach_wf(old(self)@, s as int, first, n as int, None);
        }
        let m = self.stacks[s].panels_len();
        self.attach(s, second, m, None);
    }

    /// Whether tab panel `t` can be split: it exists and a stack holds it.
    pub fn can_split(&self, t: usize) -> (r: bool)
        ensures
            r == self@.can_split(t as int),
    {
        t < self.tabs.len() && self.tabs[t].stack_panel().is_some()
    }

    /// Opens a region for `panel` on the `placement` side of tab panel `t`,
    /// as [`DockAreaView::split_placed`] says, and says whether it did; after
    /// that, `t` leaves its stack if it has no panels. A tab panel that no
    /// stack holds cannot be split: nothing changes.
    pub fn split_panel(&mut self, t: usize, panel: u64, placement: Placement) -> (done: bool)
        requires
            old(self).wf(),
        ensures
            final(self).wf(),
            final(self)@ == old(self)@.split_panel(t as int, panel, placement),
            done == old(self)@.can_split(t as int),
    {
        if t >= self.tabs.len() {
            return false;
        }
        let s = match self.tabs[t].stack_panel() {
            Some(s) => s,
            None => {
                return false;
            },
        };
        let target = PanelNode::Tab(t);
        proof {
            assert(old(self)@.has(target));
            assert(old(self)@.parent_of(target) == Some(s));
            assert(old(self)@.stacks[s as int].wf());
        }
        let ix = match self.stacks[s].index_of_panel(target) {
            Some(ix) => ix,
            None => 0,
        };
        let across = self.stacks[s].axis() != placement.axis();
        let alone = self.stacks[s].panels_len() <= 1;
        let n = self.new_tab_panel();
        let new_tab = PanelNode::Tab(n);
        let ghost pushed = self@;
        assert(pushed.tabs[n as int] == empty_tab_panel());
        assert(self.tabs@[n as int]@ == pushed.tabs[n as int]);
        self.tabs[n].add_panel(panel);
        proof {
            let fresh = empty_tab_panel().add_panel(panel);
            let area = old(self)@.push_tab(fresh);
            assert(self.tabs@[n as int]@ == fresh);
            assert forall|i: int| 0 <= i < n implies self@.tabs[i] == area.tabs[i] by {
                assert(self@.tabs[i] == pushed.tabs[i]);
            }
            assert(self@.tabs =~= area.tabs);
            assert(self@.stacks =~= area.stacks);
            lemma_add_panel_wf(empty_tab_panel(), panel);
            lemma_push_tab_wf(old(self)@, fresh);
        }
        let (first, second) = if placement.is_leading() {
            (new_tab, target)
        } else {
            (target, new_tab)
        };
        if !across {
            let at = if placement.is_leading() {
                ix
            } else {
                ix + 1
            };
            self.attach(s, new_tab, at, None);
        } else if alone {
            self.detach(s, target);
            self.set_axis(s, placement.axis());
            self.attach_pair(s, first, second);
        } else {
            let new_stack = self.new_stack_panel(placement.axis());
            self.replace(s, target, PanelNode::Stack(new_stack));
            self.attach_pair(new_stack, first, second);
        }
        self.remove_tab_if_empty(t);
        true
    }

    /// The dragged panel is released over tab panel `target`, on tab `ix` if
    /// one is given, as [`DockAreaView::on_drop`] says: the panel leaves the
    /// tab panel it comes from and splits the target, where a split
    /// placement is set, or joins its tabs. A tab panel that is left without
    /// panels leaves its stack.
    ///
    /// A panel dropped on the tab panel it comes from, on no tab and with
    /// no split placement, changes nothing.
    pub fn on_drop(&mut self, target: usize, drag: DragPanel, ix: Option<usize>)
        requires
            old(self).wf(),
        ensures
            final(self).wf(),
            final(self)@ == old(self)@.on_drop(target as int, drag, ix),
            drag.tab_panel == target && ix is None && target < old(self)@.tabs.len() && old(
                self,
            )@.tabs[target as int].will_split_placement is None ==> final(self)@ == old(self)@,
    {
        if target >= self.tabs.len() {
            return ;
        }
        let is_same_tab = drag.tab_panel == target;
        let placement = self.tabs[target].will_split_placement();
        if is_same_tab && ix.is_none() {
            if placement.is_none() {
                return ;
            } else if self.tabs[target].len() == 1 {
                return ;
            }
        }
        if placement.is_some() && !self.can_split(target) {
            return ;
        }
        if is_same_tab {
            self.detach_panel(target, drag.panel);
        } else {
            self.remove_panel(drag.tab_panel, drag.panel);
        }
        match placement {
            Some(placement) => {
                self.split_panel(target, drag.panel, placement);
            },
            None => match ix {
                Some(ix) => self.insert_panel_at(target, drag.panel, ix),
                None => self.add_panel(target, drag.panel),
            },
        }
        self.remove_tab_if_empty(target);
    }

    /// The pointer, dragging a panel, moved to `position` over the content
    /// of tab panel `t`, which covers `bounds`: the split placement of `t`
    /// is computed anew from these two alone.
    pub fn on_panel_drag_move(&mut self, t: usize, position: Point, bounds: Bounds)
        requires
            old(self).wf(),
        ensures
            final(self).wf(),
            final(self)@ == (if t < old(self)@.tabs.len() {
                old(self)@.with_tab(
                    t as int,
                    TabPanelView {
                        will_split_placement: split_placement_at(position, bounds),
                        ..old(self)@.tabs[t as int]
                    },
                )
            } else {
                old(self)@
            }),
    {
        if t < self.tabs.len() {
            assert(self@.tabs[t as int].wf());
            self.tabs[t].on_panel_drag_move(position, bounds);
            proof {
                let tab = TabPanelView {
                    will_split_placement: split_placement_at(position, bounds),
                    ..old(self)@.tabs[t as int]
                };
                assert(self@.tabs =~= old(self)@.with_tab(t as int, tab).tabs);
                assert(self@.stacks =~= old(self)@.stacks);
                lemma_with_tab_wf(old(self)@, t as int, tab);
            }
        }
    }

    /// Forgets the split placement of tab panel `t`, as a drop on its tabs
    /// does before it is resolved.
    pub fn clear_split_placement(&mut self, t: usize)
        requires
            old(self).wf(),
        ensures
            final(self).wf(),
            final(self)@ == (if t < old(self)@.tabs.len() {
                old(self)@.with_tab(
                    t as int,
                    TabPanelView { will_split_placement: None, ..old(self)@.tabs[t as int] },
                )
            } else {
                old(self)@
            }),
    {
        if t < self.tabs.len() {
            assert(self@.tabs[t as int].wf());
            self.tabs[t].clear_split_placement();
            proof {
                let tab = TabPanelView { will_split_placement: None, ..old(self)@.tabs[t as int] };
                assert(self@.tabs =~= old(self)@.with_tab(t as int, tab).tabs);
                assert(self@.stacks =~= old(self)@.stacks);
                lemma_with_tab_wf(old(self)@, t as int, tab);
            }
        }
    }

    /// Zooms tab panel `t` in if it is not zoomed and out if it is, and says
    /// which; none where there is no such tab panel. The layout is not
    /// touched.
    pub fn toggle_zoom(&mut self, t: usize) -> (event: Option<PanelEvent>)
        requires
            old(self).wf(),
        ensures
            final(self).wf(),
            final(self)@ == (if t < old(self)@.tabs.len() {
                old(self)@.with_tab(
                    t as int,
                    TabPanelView {
                        is_zoomed: !old(self)@.tabs[t as int].is_zoomed,
                        ..old(self)@.tabs[t as int]
                    },
                )
            } else {
                old(self)@
            }),
            event == (if t < old(self)@.tabs.len() {
                Some(
                    if old(self)@.tabs[t as int].is_zoomed {
                        PanelEvent::ZoomOut
                    } else {
                        PanelEvent::ZoomIn
                    },
                )
            } else {
                None
            }),
    {
        if t < self.tabs.len() {
            assert(self@.tabs[t as int].wf());
            let event = self.tabs[t].on_action_toggle_zoom();
            proof {
                let tab = TabPanelView {
                    is_zoomed: !old(self)@.tabs[t as int].is_zoomed,
                    ..old(self)@.tabs[t as int]
                };
                assert(self@.tabs =~= old(self)@.with_tab(t as int, tab).tabs);
                assert(self@.stacks =~= old(self)@.stacks);
                lemma_with_tab_wf(old(self)@, t as int, tab);
            }
            Some(event)
        } else {
            None
        }
    }

    /// Makes tab `ix` of tab panel `t` the active one, and says whether
    /// there is such a tab.
    pub fn set_active_ix(&mut self, t: usize, ix: usize) -> (done: bool)
        requires
            old(self).wf(),
        ensures
            final(self).wf(),
            done == (t < old(self)@.tabs.len() && ix < old(self)@.tabs[t as int].panels.len()),
            final(self)@ == (if done {
                old(self)@.with_tab(
                    t as int,
                    TabPanelView { active_ix: ix, ..old(self)@.tabs[t as int] },
                )
            } else {
                old(self)@
            }),
    {
        if t < self.tabs.len() && ix < self.tabs[t].len() {
            assert(self@.tabs[t as int].wf());
            self.tabs[t].set_active_ix(ix);
            proof {
                let tab = TabPanelView { active_ix: ix, ..old(self)@.tabs[t as int] };
                assert(self@.tabs =~= old(self)@.with_tab(t as int, tab).tabs);
                assert(self@.stacks =~= old(self)@.stacks);
                lemma_with_tab_wf(old(self)@, t as int, tab);
            }
            true
        } else {
            false
        }
    }
    /// Records the rectangle that stack `s` was laid out in.
    pub fn set_stack_bounds(&mut self, s: usize, bounds: Bounds)
        requires
            old(self).wf(),
        ensures
            final(self).wf(),
            final(self)@ == old(self)@.relaid(
                s as int,
                old(self)@.stacks[s as int].with_group(
                    ResizablePanelGroupView {
                        bounds: bounds,
                        ..old(self)@.stacks[s as int].panel_group
                    },
                ),
            ),
    {
        if s < self.stacks.len() {
            assert(self@.stacks[s as int].wf());
            self.stacks[s].set_bounds(bounds);
            proof {
                let stack = self.stacks@[s as int]@;
                assert(self@.stacks =~= old(self)@.with_stack(s as int, stack).stacks);
                assert(self@.tabs =~= old(self)@.tabs);
                lemma_with_stack_wf(old(self)@, s as int, stack);
            }
        }
    }

    /// Records the rectangle that the region of child `ix` of stack `s` was
    /// laid out in.
    pub fn set_region_bounds(&mut self, s: usize, ix: usize, bounds: Bounds)
        requires
            old(self).wf(),
        ensures
            final(self).wf(),
            final(self)@ == old(self)@.relaid(
                s as int,
                old(self)@.stacks[s as int].set_region_bounds(ix as int, bounds),
            ),
    {
        if s < self.stacks.len() {
            assert(self@.stacks[s as int].wf());
            self.stacks[s].set_region_bounds(ix, bounds);
            proof {
                let stack = self.stacks@[s as int]@;
                assert(self@.stacks =~= old(self)@.with_stack(s as int, stack).stacks);
                assert(self@.tabs =~= old(self)@.tabs);
                lemma_with_stack_wf(old(self)@, s as int, stack);
            }
        }
    }

    /// The drag of the handle after child `ix` of stack `s` begins.
    pub fn start_resizing(&mut self, s: usize, ix: usize)
        requires
            old(self).wf(),
        ensures
            final(self).wf(),
            final(self)@ == old(self)@.relaid(
                s as int,
                old(self)@.stacks[s as int].with_group(
                    ResizablePanelGroupView {
                        resizing_panel_ix: Some(ix),
                        ..old(self)@.stacks[s as int].panel_group
                    },
                ),
            ),
    {
        if s < self.stacks.len() {
            assert(self@.stacks[s as int].wf());
            self.stacks[s].start_resizing(ix);
            proof {
                let stack = self.stacks@[s as int]@;
                assert(self@.stacks =~= old(self)@.with_stack(s as int, stack).stacks);
                assert(self@.tabs =~= old(self)@.tabs);
                lemma_with_stack_wf(old(self)@, s as int, stack);
            }
        }
    }

    /// Child `ix` of stack `s` is dragged to `size`: the sizes of the
    /// children are redistributed as
    /// [`crate::resizable::ResizablePanelGroup::resize_panels`] says.
    pub fn resize_panels(&mut self, s: usize, ix: usize, size: i32)
        requires
            old(self).wf(),
        ensures
            final(self).wf(),
            final(self)@ == old(self)@.relaid(
                s as int,
                old(self)@.stacks[s as int].with_group(
                    old(self)@.stacks[s as int].panel_group.resize_panels(ix as int, size as int),
                ),
            ),
    {
        if s < self.stacks.len() {
            assert(self@.stacks[s as int].wf());
            self.stacks[s].resize_panels(ix, size);
            proof {
                let stack = self.stacks@[s as int]@;
                assert(self@.stacks =~= old(self)@.with_stack(s as int, stack).stacks);
                assert(self@.tabs =~= old(self)@.tabs);
                lemma_with_stack_wf(old(self)@, s as int, stack);
            }
        }
    }

    /// The pointer moved to `position` while stack `s` listens: if one of
    /// its handles is dragged, the child before it is resized.
    pub fn on_mouse_move(&mut self, s: usize, position: Point)
        requires
            old(self).wf(),
        ensures
            final(self).wf(),
            final(self)@ == old(self)@.relaid(
                s as int,
                old(self)@.stacks[s as int].on_mouse_move(position),
            ),
    {
        if s < self.stacks.len() {
            assert(self@.stacks[s as int].wf());
            self.stacks[s].on_mouse_move(position);
            proof {
                let stack = self.stacks@[s as int]@;
                assert(self@.stacks =~= old(self)@.with_stack(s as int, stack).stacks);
                assert(self@.tabs =~= old(self)@.tabs);
                lemma_with_stack_wf(old(self)@, s as int, stack);
            }
        }
    }

    /// A mouse button was released while stack `s` listens: the drag of one
    /// of its handles, if any, ends.
    pub fn on_mouse_up(&mut self, s: usize)
        requires
            old(self).wf(),
        ensures
            final(self).wf(),
            final(self)@ == old(self)@.relaid(
                s as int,
                old(self)@.stacks[s as int].with_group(
                    ResizablePanelGroupView {
                        resizing_panel_ix: None,
                        ..old(self)@.stacks[s as int].panel_group
                    },
                ),
            ),
    {
        if s < self.stacks.len() {
            assert(self@.stacks[s as int].wf());
            self.stacks[s].on_mouse_up();
            proof {
                let stack = self.stacks@[s as int]@;
                assert(self@.stacks =~= old(self)@.with_stack(s as int, stack).stacks);
                assert(self@.tabs =~= old(self)@.tabs);
                lemma_with_stack_wf(old(self)@, s as int, stack);
            }
        }
    }
}

} // verus!
