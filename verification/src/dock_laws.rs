//! Laws of the layout: what attaching, detaching, splitting and dropping
//! come to, stated over [`DockAreaView`] and proved from the definitions of
//! the edits.

use vstd::prelude::*;
use crate::dock_model::{
    empty_stack_panel, empty_tab_panel, lemma_attach_wf, lemma_detach_wf, lemma_push_stack_wf,
    lemma_push_tab_wf, lemma_replace_wf, lemma_set_axis_wf, lemma_with_tab_wf, DockAreaView,
};
use crate::forest::{ancestor, ranked, within};
use crate::geometry::Placement;
use crate::stack_panel::{index_beside, PanelNode, StackPanelView};
use crate::tab_panel::{
    lemma_add_panel_wf, lemma_detach_panel_wf, lemma_insert_panel_at_wf, DragPanel, TabPanelView,
};

verus! {

/// Whether `after` differs from `before` at most in stack `s`, in the parent
/// that `node` names, and in tab panels and stacks that `before` does not
/// have: the root is the same, and every other tab panel and stack of
/// `before` is there unchanged.
pub open spec fn same_but(before: DockAreaView, after: DockAreaView, s: int, node: PanelNode) -> bool {
    &&& after.root == before.root
    &&& after.tabs.len() >= before.tabs.len()
    &&& after.stacks.len() >= before.stacks.len()
    &&& forall|i: int|
        0 <= i < before.tabs.len() ==> (#[trigger] after.tabs[i]) == (if node == PanelNode::Tab(
            i as usize,
        ) {
            TabPanelView { stack_panel: after.tabs[i].stack_panel, ..before.tabs[i] }
        } else {
            before.tabs[i]
        })
    &&& forall|q: int|
        0 <= q < before.stacks.len() && q != s ==> (#[trigger] after.stacks[q]) == (if node
            == PanelNode::Stack(q as usize) {
            StackPanelView { parent: after.stacks[q].parent, ..before.stacks[q] }
        } else {
            before.stacks[q]
        })
}

/// What attaching comes to, where the node can be attached: it stands at
/// the index asked for, or at the end, among the children of the stack, and
/// names the stack as its parent. The stack keeps its axis and its parent,
/// and nothing else changes.
pub proof fn lemma_attach_shape(area: DockAreaView, s: int, node: PanelNode, ix: int, size: Option<i32>)
    requires
        area.wf(),
        area.attachable(s, node),
        0 <= ix,
    ensures
        ({
            let after = area.attach(s, node, ix, size);
            &&& after.wf()
            &&& after.tabs.len() == area.tabs.len()
            &&& after.stacks.len() == area.stacks.len()
            &&& same_but(area, after, s, node)
            &&& after.parent_of(node) == Some(s as usize)
            &&& after.stacks[s].panels == area.stacks[s].panels.insert(
                area.stacks[s].clamped(ix),
                node,
            )
            &&& after.stacks[s].axis == area.stacks[s].axis
            &&& after.stacks[s].parent == area.stacks[s].parent
        }),
{
    lemma_attach_wf(area, s, node, ix, size);
    assert(ancestor(area.parents(), s, 0) == Some(s));
    assert(!area.stacks[s].panels.contains(node)) by {
        if area.stacks[s].panels.contains(node) {
            let i = area.stacks[s].panels.index_of(node);
            assert(area.child_at(s, i) == node);
        }
    }
}

/// What detaching comes to, where the node is a child of the stack: it is
/// gone from the children, the others keep their order, and it names no
/// parent. Nothing else changes.
pub proof fn lemma_detach_shape(area: DockAreaView, s: int, node: PanelNode)
    requires
        area.wf(),
        area.holds(s, node),
    ensures
        ({
            let after = area.detach(s, node);
            &&& after.wf()
            &&& after.tabs.len() == area.tabs.len()
            &&& after.stacks.len() == area.stacks.len()
            &&& same_but(area, after, s, node)
            &&& after.parent_of(node) is None
            &&& after.stacks[s].panels == area.stacks[s].panels.remove(
                area.stacks[s].panels.index_of(node),
            )
            &&& after.stacks[s].axis == area.stacks[s].axis
            &&& after.stacks[s].parent == area.stacks[s].parent
        }),
{
    lemma_detach_wf(area, s, node);
    let j = area.stacks[s].panels.index_of(node);
    assert(area.child_at(s, j) == node);
    assert(ancestor(area.parents(), s, 0) == Some(s));
    assert(node != PanelNode::Stack(s as usize)) by {
        if node == PanelNode::Stack(s as usize) {
            let rank = choose|rank: Seq<nat>| ranked(area.parents(), rank);
            assert(area.parents()[s] == Some(s as usize));
        }
    }
}

/// A tab panel that a stack holds can be split on any side: the new tab
/// panel lands beside it. Where the stack lies along the axis of the
/// placement, the new tab panel becomes its child next to the target, and no
/// stack is added or turned.
pub proof fn lemma_split_along_axis(area: DockAreaView, t: int, panel: u64, placement: Placement)
    requires
        area.wf(),
        area.can_split(t),
        area.tabs.len() < usize::MAX,
        area.stacks[area.tabs[t].stack_panel->0 as int].axis == placement.spec_axis(),
    ensures
        ({
            let after = area.split_placed(t, panel, placement);
            let s = area.tabs[t].stack_panel->0 as int;
            let n = area.tabs.len() as int;
            let ix = area.stacks[s].panels.index_of(PanelNode::Tab(t as usize));
            &&& after.wf()
            &&& after.tabs.len() == n + 1
            &&& after.stacks.len() == area.stacks.len()
            &&& after.tabs[n].panels == seq![panel]
            &&& after.tabs[n].stack_panel == Some(s as usize)
            &&& same_but(area, after, s, PanelNode::Tab(n as usize))
            &&& after.stacks[s].axis == area.stacks[s].axis
            &&& after.stacks[s].parent == area.stacks[s].parent
            &&& after.stacks[s].panels == area.stacks[s].panels.insert(
                index_beside(ix, placement),
                PanelNode::Tab(n as usize),
            )
        }),
{
    let s = area.tabs[t].stack_panel->0 as int;
    let n = area.tabs.len() as int;
    let target = PanelNode::Tab(t as usize);
    let new_tab = PanelNode::Tab(n as usize);
    let ix = area.stacks[s].panels.index_of(target);
    let fresh = empty_tab_panel().add_panel(panel);
    assert(fresh.panels =~= seq![panel]);
    let pushed = area.push_tab(fresh);
    lemma_push_tab_wf(area, fresh);
    assert(area.has(target) && area.parent_of(target) == Some(s as usize));
    assert(0 <= ix < area.stacks[s].panels.len());
    assert(pushed.parents() =~= area.parents());
    lemma_attach_shape(pushed, s, new_tab, index_beside(ix, placement), None);
}

/// Where the stack lies across the axis of the placement and the target is
/// its only child, the stack itself is turned and holds the two side by
/// side: no stack is added.
pub proof fn lemma_split_turns_stack(area: DockAreaView, t: int, panel: u64, placement: Placement)
    requires
        area.wf(),
        area.can_split(t),
        area.tabs.len() < usize::MAX,
        area.stacks[area.tabs[t].stack_panel->0 as int].axis != placement.spec_axis(),
        area.stacks[area.tabs[t].stack_panel->0 as int].panels.len() <= 1,
    ensures
        ({
            let after = area.split_placed(t, panel, placement);
            let s = area.tabs[t].stack_panel->0 as int;
            let n = area.tabs.len() as int;
            let target = PanelNode::Tab(t as usize);
            let new_tab = PanelNode::Tab(n as usize);
            &&& after.wf()
            &&& after.root == area.root
            &&& after.tabs.len() == n + 1
            &&& after.stacks.len() == area.stacks.len()
            &&& after.tabs[n].panels == seq![panel]
            &&& after.tabs[n].stack_panel == Some(s as usize)
            &&& after.tabs[t] == area.tabs[t]
            &&& forall|i: int| 0 <= i < n ==> (#[trigger] after.tabs[i]) == area.tabs[i]
            &&& forall|q: int|
                0 <= q < area.stacks.len() && q != s ==> (#[trigger] after.stacks[q])
                    == area.stacks[q]
            &&& after.stacks[s].axis == placement.spec_axis()
            &&& after.stacks[s].parent == area.stacks[s].parent
            &&& after.stacks[s].panels == (if placement.spec_is_leading() {
                seq![new_tab, target]
            } else {
                seq![target, new_tab]
            })
        }),
{
    let s = area.tabs[t].stack_panel->0 as int;
    let n = area.tabs.len() as int;
    let target = PanelNode::Tab(t as usize);
    let new_tab = PanelNode::Tab(n as usize);
    let axis = placement.spec_axis();
    let (first, second) = if placement.spec_is_leading() {
        (new_tab, target)
    } else {
        (target, new_tab)
    };
    let fresh = empty_tab_panel().add_panel(panel);
    assert(fresh.panels =~= seq![panel]);
    let pushed = area.push_tab(fresh);
    lemma_push_tab_wf(area, fresh);
    assert(area.has(target) && area.parent_of(target) == Some(s as usize));
    assert(area.stacks[s].panels.contains(target));
    assert(area.stacks[s].panels =~= seq![target]);
    assert(pushed.holds(s, target));
    let loose = pushed.detach(s, target);
    lemma_detach_shape(pushed, s, target);
    assert(loose.stacks[s].panels =~= Seq::<PanelNode>::empty());
    let turned = loose.set_axis(s, axis);
    lemma_set_axis_wf(loose, s, axis);
    assert(turned.parents() =~= loose.parents());
    assert(turned.attachable(s, first));
    let with_first = turned.attach(s, first, 0, None);
    lemma_attach_shape(turned, s, first, 0, None);
    assert(with_first.stacks[s].panels =~= seq![first]);
    assert(with_first.attachable(s, second));
    let with_second = with_first.attach(s, second, 1, None);
    lemma_attach_shape(with_first, s, second, 1, None);
    assert(with_second.stacks[s].panels =~= seq![first, second]);
    assert(with_second == area.split_placed(t, panel, placement));
    assert(with_second.tabs[t] == area.tabs[t]);
    assert forall|i: int| 0 <= i < n implies (#[trigger] with_second.tabs[i]) == area.tabs[i] by {
        assert(pushed.tabs[i] == area.tabs[i]);
        assert(turned.tabs[i] == loose.tabs[i]);
    }
    assert forall|q: int| 0 <= q < area.stacks.len() && q != s implies (
    #[trigger] with_second.stacks[q]) == area.stacks[q] by {
        assert(pushed.stacks[q] == area.stacks[q]);
        assert(turned.stacks[q] == loose.stacks[q]);
    }
}

/// No way up leads to the last stack where nothing names it as a parent.
proof fn lemma_no_way_to_last(parents: Seq<Option<usize>>, s: int, k: nat)
    requires
        parents.len() > 0,
        0 <= s < parents.len() - 1,
        forall|c: int|
            0 <= c < parents.len() && (#[trigger] parents[c]) is Some ==> parents[c]->0
                < parents.len() - 1,
    ensures
        ancestor(parents, s, k) != Some(parents.len() - 1),
    decreases k,
{
    if k > 0 && parents[s] is Some {
        lemma_no_way_to_last(parents, parents[s]->0 as int, (k - 1) as nat);
    }
}

/// Where the stack lies across the axis of the placement and has other
/// children, a new stack along the axis of the placement takes the place of
/// the target, at its index and with its size, and holds the two side by
/// side.
pub proof fn lemma_split_nests_stack(area: DockAreaView, t: int, panel: u64, placement: Placement)
    requires
        area.wf(),
        area.can_split(t),
        area.tabs.len() < usize::MAX,
        area.stacks.len() < usize::MAX,
        area.stacks[area.tabs[t].stack_panel->0 as int].axis != placement.spec_axis(),
        area.stacks[area.tabs[t].stack_panel->0 as int].panels.len() > 1,
    ensures
        ({
            let after = area.split_placed(t, panel, placement);
            let s = area.tabs[t].stack_panel->0 as int;
            let n = area.tabs.len() as int;
            let m = area.stacks.len() as int;
            let ix = area.stacks[s].panels.index_of(PanelNode::Tab(t as usize));
            let target = PanelNode::Tab(t as usize);
            let new_tab = PanelNode::Tab(n as usize);
            &&& after.wf()
            &&& after.root == area.root
            &&& after.tabs.len() == n + 1
            &&& after.stacks.len() == m + 1
            &&& after.tabs[n].panels == seq![panel]
            &&& after.tabs[n].stack_panel == Some(m as usize)
            &&& after.tabs[t] == (TabPanelView { stack_panel: Some(m as usize), ..area.tabs[t] })
            &&& forall|i: int| 0 <= i < n && i != t ==> (#[trigger] after.tabs[i]) == area.tabs[i]
            &&& forall|q: int|
                0 <= q < m && q != s ==> (#[trigger] after.stacks[q]) == area.stacks[q]
            &&& after.stacks[s].axis == area.stacks[s].axis
            &&& after.stacks[s].parent == area.stacks[s].parent
            &&& after.stacks[s].panels == area.stacks[s].panels.update(
                ix,
                PanelNode::Stack(m as usize),
            )
            &&& after.stacks[s].sizes() == area.stacks[s].sizes()
            &&& after.stacks[m].parent == Some(s as usize)
            &&& after.stacks[m].axis == placement.spec_axis()
            &&& after.stacks[m].panels == (if placement.spec_is_leading() {
                seq![new_tab, target]
            } else {
                seq![target, new_tab]
            })
        }),
{
    let s = area.tabs[t].stack_panel->0 as int;
    let n = area.tabs.len() as int;
    let m = area.stacks.len() as int;
    let target = PanelNode::Tab(t as usize);
    let new_tab = PanelNode::Tab(n as usize);
    let new_stack = PanelNode::Stack(m as usize);
    let ix = area.stacks[s].panels.index_of(target);
    let axis = placement.spec_axis();
    let (first, second) = if placement.spec_is_leading() {
        (new_tab, target)
    } else {
        (target, new_tab)
    };
    let fresh = empty_tab_panel().add_panel(panel);
    assert(fresh.panels =~= seq![panel]);
    let pushed = area.push_tab(fresh);
    lemma_push_tab_wf(area, fresh);
    assert(area.has(target) && area.parent_of(target) == Some(s as usize));
    assert(area.stacks[s].panels.contains(target));
    let stacked = pushed.push_stack(empty_stack_panel(axis));
    lemma_push_stack_wf(pushed, empty_stack_panel(axis));
    assert(!within(stacked.parents(), s, m)) by {
        assert(stacked.parents() =~= area.parents().push(None));
        assert forall|c: int|
            0 <= c < stacked.parents().len() && (#[trigger] stacked.parents()[c])
                is Some implies stacked.parents()[c]->0 < stacked.parents().len() - 1 by {
            assert(area.has(PanelNode::Stack(c as usize)));
            assert(area.parent_of(PanelNode::Stack(c as usize)) is Some);
        }
        assert forall|k: nat| ancestor(stacked.parents(), s, k) != Some(m) by {
            lemma_no_way_to_last(stacked.parents(), s, k);
        }
    }
    assert(stacked.attachable(s, new_stack));
    assert(stacked.holds(s, target));
    assert(!stacked.stacks[s].panels.contains(new_stack)) by {
        if stacked.stacks[s].panels.contains(new_stack) {
            let i = stacked.stacks[s].panels.index_of(new_stack);
            assert(stacked.child_at(s, i) == new_stack);
        }
    }
    let swapped = stacked.replace(s, target, new_stack);
    lemma_replace_wf(stacked, s, target, new_stack);
    assert(swapped.stacks[s].panels =~= area.stacks[s].panels.update(ix, new_stack));
    assert(swapped.stacks[m].panels =~= Seq::<PanelNode>::empty());
    assert(swapped.attachable(m, first)) by {
        assert(ancestor(swapped.parents(), m, 0) == Some(m));
    }
    let with_first = swapped.attach(m, first, 0, None);
    lemma_attach_shape(swapped, m, first, 0, None);
    assert(with_first.stacks[m].panels =~= seq![first]);
    assert(with_first.attachable(m, second));
    let with_second = with_first.attach(m, second, 1, None);
    lemma_attach_shape(with_first, m, second, 1, None);
    assert(with_second.stacks[m].panels =~= seq![first, second]);
    assert(with_second == area.split_placed(t, panel, placement));
    assert forall|i: int| 0 <= i < n && i != t implies (#[trigger] with_second.tabs[i])
        == area.tabs[i] by {
        assert(pushed.tabs[i] == area.tabs[i]);
        assert(swapped.tabs[i] == stacked.tabs[i]);
    }
    assert forall|q: int| 0 <= q < m && q != s implies (#[trigger] with_second.stacks[q])
        == area.stacks[q] by {
        assert(pushed.stacks[q] == area.stacks[q]);
        assert(swapped.stacks[q] == stacked.stacks[q]);
    }
}

/// Placing a panel beside a tab panel keeps the layout consistent, and the
/// new tab panel, the last one, holds the panel.
pub proof fn lemma_split_placed_wf(area: DockAreaView, t: int, panel: u64, placement: Placement)
    requires
        area.wf(),
        area.can_split(t),
        area.tabs.len() < usize::MAX,
        area.stacks.len() < usize::MAX,
    ensures
        area.split_placed(t, panel, placement).wf(),
        area.split_placed(t, panel, placement).tabs.len() == area.tabs.len() + 1,
        area.split_placed(t, panel, placement).tabs[area.tabs.len() as int].panels == seq![panel],
        area.split_placed(t, panel, placement).tabs[area.tabs.len() as int].stack_panel is Some,
        area.split_placed(t, panel, placement).tabs[t].panels == area.tabs[t].panels,
        area.split_placed(t, panel, placement).tabs[t].stack_panel is Some,
        area.split_placed(t, panel, placement).stacks.len() <= area.stacks.len() + 1,
        forall|i: int|
            0 <= i < area.tabs.len() && i != t ==> (#[trigger] area.split_placed(
                t,
                panel,
                placement,
            ).tabs[i]) == area.tabs[i],
{
    let s = area.tabs[t].stack_panel->0 as int;
    if area.stacks[s].axis == placement.spec_axis() {
        lemma_split_along_axis(area, t, panel, placement);
    } else if area.stacks[s].panels.len() <= 1 {
        lemma_split_turns_stack(area, t, panel, placement);
    } else {
        lemma_split_nests_stack(area, t, panel, placement);
    }
}

/// Taking an empty tab panel out of its stack keeps the layout consistent
/// and touches the panels of no tab panel.
pub proof fn lemma_remove_tab_if_empty_wf(area: DockAreaView, t: int)
    requires
        area.wf(),
    ensures
        area.remove_tab_if_empty(t).wf(),
        area.remove_tab_if_empty(t).tabs.len() == area.tabs.len(),
        forall|i: int|
            0 <= i < area.tabs.len() ==> (#[trigger] area.remove_tab_if_empty(t).tabs[i]).panels
                == area.tabs[i].panels,
        forall|i: int|
            0 <= i < area.tabs.len() && i != t ==> (#[trigger] area.remove_tab_if_empty(
                t,
            ).tabs[i]).stack_panel == area.tabs[i].stack_panel,
{
    if 0 <= t < area.tabs.len() && area.tabs[t].panels.len() == 0 && area.tabs[t].stack_panel
        is Some {
        let node = PanelNode::Tab(t as usize);
        assert(area.has(node) && area.parent_of(node) is Some);
        lemma_detach_shape(area, area.tabs[t].stack_panel->0 as int, node);
    }
}

/// Splitting keeps the layout consistent. The new tab panel, the last one,
/// holds the panel alone and stands in a stack; the panels of the other tab
/// panels are as they were; and a target that has panels is not touched
/// beyond its place in the layout.
pub proof fn lemma_split_panel_wf(area: DockAreaView, t: int, panel: u64, placement: Placement)
    requires
        area.wf(),
        area.can_split(t),
        area.tabs.len() < usize::MAX,
        area.stacks.len() < usize::MAX,
    ensures
        area.split_panel(t, panel, placement).wf(),
        area.split_panel(t, panel, placement).tabs.len() == area.tabs.len() + 1,
        area.split_panel(t, panel, placement).tabs[area.tabs.len() as int].panels == seq![panel],
        area.split_panel(t, panel, placement).tabs[area.tabs.len() as int].stack_panel is Some,
        area.split_panel(t, panel, placement).tabs[t].panels == area.tabs[t].panels,
        forall|i: int|
            0 <= i < area.tabs.len() && i != t ==> (#[trigger] area.split_panel(
                t,
                panel,
                placement,
            ).tabs[i]) == area.tabs[i],
        area.tabs[t].panels.len() > 0 ==> area.split_panel(t, panel, placement)
            == area.split_placed(t, panel, placement),
{
    let placed = area.split_placed(t, panel, placement);
    lemma_split_placed_wf(area, t, panel, placement);
    lemma_remove_tab_if_empty_wf(placed, t);
    let after = placed.remove_tab_if_empty(t);
    let n = area.tabs.len() as int;
    assert(after.tabs[n].stack_panel == placed.tabs[n].stack_panel);
    assert forall|i: int| 0 <= i < n && i != t implies (#[trigger] after.tabs[i])
        == area.tabs[i] by {
        assert(placed.tabs[i] == area.tabs[i]);
        if placed.tabs[t].panels.len() == 0 && placed.tabs[t].stack_panel is Some {
            let node = PanelNode::Tab(t as usize);
            assert(placed.has(node) && placed.parent_of(node) is Some);
            lemma_detach_shape(placed, placed.tabs[t].stack_panel->0 as int, node);
        }
    }
}

/// A drop keeps the layout consistent and loses no panel: unless the drop
/// is ignored, some tab panel holds the dragged panel afterwards.
pub proof fn lemma_on_drop_keeps_panel(area: DockAreaView, target: int, drag: DragPanel, ix: Option<usize>)
    requires
        area.wf(),
        area.tabs.len() < usize::MAX,
        area.stacks.len() < usize::MAX,
        0 <= target < area.tabs.len() ==> area.tabs[target].panels.len() < usize::MAX,
    ensures
        area.on_drop(target, drag, ix).wf(),
        !area.drop_is_ignored(target, drag, ix) ==> exists|t: int|
            0 <= t < area.on_drop(target, drag, ix).tabs.len() && (#[trigger] area.on_drop(
                target,
                drag,
                ix,
            ).tabs[t]).panels.contains(drag.panel),
{
    if !area.drop_is_ignored(target, drag, ix) {
        let source = drag.tab_panel as int;
        let taken = area.detach_panel(source, drag.panel);
        if 0 <= source < area.tabs.len() {
            lemma_detach_panel_wf(area.tabs[source], drag.panel);
            lemma_with_tab_wf(area, source, area.tabs[source].detach_panel(drag.panel));
        }
        let detached = area.drop_detached(target, drag);
        if source != target {
            lemma_remove_tab_if_empty_wf(taken, source);
        }
        assert(detached.wf());
        assert(detached.tabs.len() == area.tabs.len());
        assert(detached.stacks.len() == area.stacks.len()) by {
            if source != target && 0 <= source < taken.tabs.len() && taken.tabs[source].stack_panel
                is Some {
                lemma_detach_wf(
                    taken,
                    taken.tabs[source].stack_panel->0 as int,
                    PanelNode::Tab(source as usize),
                );
            }
        }
        assert(detached.tabs[target].stack_panel == area.tabs[target].stack_panel);
        assert(detached.tabs[target].wf());
        assert(detached.tabs[target].panels.len() <= area.tabs[target].panels.len());
        let placed = match area.tabs[target].will_split_placement {
            Some(placement) => detached.split_panel(target, drag.panel, placement),
            None => match ix {
                Some(ix) => detached.insert_panel_at(target, drag.panel, ix as int),
                None => detached.add_panel(target, drag.panel),
            },
        };
        let holder = match area.tabs[target].will_split_placement {
            Some(_) => area.tabs.len() as int,
            None => target,
        };
        match area.tabs[target].will_split_placement {
            Some(placement) => {
                lemma_split_panel_wf(detached, target, drag.panel, placement);
                assert(seq![drag.panel][0] == drag.panel);
            },
            None => {
                let tab = detached.tabs[target];
                match ix {
                    Some(ix) => {
                        let at = if ix > tab.panels.len() {
                            tab.panels.len() as int
                        } else {
                            ix as int
                        };
                        lemma_insert_panel_at_wf(tab, drag.panel, at);
                        lemma_with_tab_wf(detached, target, tab.insert_panel_at(drag.panel, at));
                    },
                    None => {
                        lemma_add_panel_wf(tab, drag.panel);
                        lemma_with_tab_wf(detached, target, tab.add_panel(drag.panel));
                    },
                }
            },
        }
        assert(placed.wf());
        assert(0 <= holder < placed.tabs.len());
        assert(placed.tabs[holder].panels.contains(drag.panel));
        lemma_remove_tab_if_empty_wf(placed, target);
        let after = placed.remove_tab_if_empty(target);
        assert(after == area.on_drop(target, drag, ix));
        assert(after.tabs[holder].panels.contains(drag.panel));
    }
}

/// A drop leaves no empty tab panel behind: if every tab panel in a stack
/// had panels before, so it is afterwards. A source that gave its last
/// panel away has left its stack, and so has a target that was left
/// without panels.
pub proof fn lemma_on_drop_tidy(area: DockAreaView, target: int, drag: DragPanel, ix: Option<usize>)
    requires
        area.wf(),
        area.tidy(),
        area.tabs.len() < usize::MAX,
        area.stacks.len() < usize::MAX,
        0 <= target < area.tabs.len() ==> area.tabs[target].panels.len() < usize::MAX,
    ensures
        area.on_drop(target, drag, ix).tidy(),
{
    if !area.drop_is_ignored(target, drag, ix) {
        let source = drag.tab_panel as int;
        let n = area.tabs.len() as int;
        let taken = area.detach_panel(source, drag.panel);
        if 0 <= source < area.tabs.len() {
            lemma_detach_panel_wf(area.tabs[source], drag.panel);
            lemma_with_tab_wf(area, source, area.tabs[source].detach_panel(drag.panel));
        }
        let detached = area.drop_detached(target, drag);
        if source != target {
            lemma_remove_tab_if_empty_wf(taken, source);
        }
        assert(detached.wf());
        assert(detached.tabs.len() == n);
        assert(detached.stacks.len() == area.stacks.len()) by {
            if source != target && 0 <= source < taken.tabs.len() && taken.tabs[source].stack_panel
                is Some {
                lemma_detach_wf(
                    taken,
                    taken.tabs[source].stack_panel->0 as int,
                    PanelNode::Tab(source as usize),
                );
            }
        }
        assert forall|i: int|
            0 <= i < n && i != target && (#[trigger] detached.tabs[i]).stack_panel
                is Some implies detached.tabs[i].panels.len() > 0 by {
            if i != source {
                assert(detached.tabs[i].panels == area.tabs[i].panels);
                assert(detached.tabs[i].stack_panel == area.tabs[i].stack_panel);
                assert(area.tabs[i].stack_panel is Some);
            } else if taken.tabs[source].panels.len() == 0 && taken.tabs[source].stack_panel
                is Some {
                let node = PanelNode::Tab(source as usize);
                assert(taken.has(node) && taken.parent_of(node) is Some);
                lemma_detach_shape(taken, taken.tabs[source].stack_panel->0 as int, node);
            }
        }
        assert(detached.tabs[target].stack_panel == area.tabs[target].stack_panel);
        assert(detached.tabs[target].panels.len() <= area.tabs[target].panels.len());
        let placed = match area.tabs[target].will_split_placement {
            Some(placement) => detached.split_panel(target, drag.panel, placement),
            None => match ix {
                Some(ix) => detached.insert_panel_at(target, drag.panel, ix as int),
                None => detached.add_panel(target, drag.panel),
            },
        };
        match area.tabs[target].will_split_placement {
            Some(placement) => {
                lemma_split_panel_wf(detached, target, drag.panel, placement);
            },
            None => {
                let tab = detached.tabs[target];
                match ix {
                    Some(ix) => {
                        let at = if ix > tab.panels.len() {
                            tab.panels.len() as int
                        } else {
                            ix as int
                        };
                        lemma_insert_panel_at_wf(tab, drag.panel, at);
                        lemma_with_tab_wf(detached, target, tab.insert_panel_at(drag.panel, at));
                    },
                    None => {
                        lemma_add_panel_wf(tab, drag.panel);
                        lemma_with_tab_wf(detached, target, tab.add_panel(drag.panel));
                    },
                }
            },
        }
        assert(placed.wf());
        assert forall|i: int|
            0 <= i < placed.tabs.len() && i != target && (#[trigger] placed.tabs[i]).stack_panel
                is Some implies placed.tabs[i].panels.len() > 0 by {
            if i < n {
                assert(placed.tabs[i] == detached.tabs[i]);
            }
        }
        lemma_remove_tab_if_empty_wf(placed, target);
        let after = placed.remove_tab_if_empty(target);
        assert(after == area.on_drop(target, drag, ix));
        assert forall|i: int|
            0 <= i < after.tabs.len() && (#[trigger] after.tabs[i]).stack_panel
                is Some implies after.tabs[i].panels.len() > 0 by {
            if i != target {
                assert(after.tabs[i].panels == placed.tabs[i].panels);
                assert(after.tabs[i].stack_panel == placed.tabs[i].stack_panel);
                assert(placed.tabs[i].stack_panel is Some);
            } else {
                assert(after.tabs[i].panels == placed.tabs[i].panels);
                if placed.tabs[target].panels.len() == 0 && placed.tabs[target].stack_panel is Some {
                    let node = PanelNode::Tab(target as usize);
                    assert(placed.has(node) && placed.parent_of(node) is Some);
                    lemma_detach_shape(placed, placed.tabs[target].stack_panel->0 as int, node);
                }
            }
        }
    }
}

/// Removing a panel leaves no empty tab panel behind, and keeps the layout
/// consistent.
pub proof fn lemma_remove_panel_tidy(area: DockAreaView, t: int, panel: u64)
    requires
        area.wf(),
        area.tidy(),
    ensures
        area.remove_panel(t, panel).wf(),
        area.remove_panel(t, panel).tidy(),
{
    let taken = area.detach_panel(t, panel);
    if 0 <= t < area.tabs.len() {
        lemma_detach_panel_wf(area.tabs[t], panel);
        lemma_with_tab_wf(area, t, area.tabs[t].detach_panel(panel));
    }
    lemma_remove_tab_if_empty_wf(taken, t);
    let after = taken.remove_tab_if_empty(t);
    assert forall|i: int|
        0 <= i < after.tabs.len() && (#[trigger] after.tabs[i]).stack_panel
            is Some implies after.tabs[i].panels.len() > 0 by {
        assert(after.tabs[i].panels == taken.tabs[i].panels);
        if i != t {
            assert(after.tabs[i].stack_panel == taken.tabs[i].stack_panel);
            assert(taken.tabs[i] == area.tabs[i]);
            assert(area.tabs[i].stack_panel is Some);
        } else if taken.tabs[t].panels.len() == 0 && taken.tabs[t].stack_panel is Some {
            let node = PanelNode::Tab(t as usize);
            assert(taken.has(node) && taken.parent_of(node) is Some);
            lemma_detach_shape(taken, taken.tabs[t].stack_panel->0 as int, node);
        }
    }
}

} // verus!
