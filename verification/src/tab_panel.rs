//! A group of panels shown as tabs, one of them active.
//!
//! A tab panel refers to its panels by identity and holds each at most once.
//! What it does to the stack that holds it (leaving it when the last panel is
//! gone, splitting it on a drop) is the business of the
//! [`crate::dock_area::DockArea`].

use vstd::prelude::*;
use crate::geometry::{split_placement, split_placement_at, Bounds, Placement, Point};

verus! {

/// What a tab panel tells the shell around it.
#[derive(Clone, Copy, Debug, PartialEq, Eq, Structural)]
pub enum PanelEvent {
    ZoomIn,
    ZoomOut,
}

/// What travels with the drag of a tab: the panel, and the tab panel it was
/// taken from.
#[derive(Clone, Copy, Debug, PartialEq, Eq, Structural)]
pub struct DragPanel {
    pub panel: u64,
    pub tab_panel: usize,
}

impl DragPanel {
    pub fn new(panel: u64, tab_panel: usize) -> (r: Self)
        ensures
            r == (DragPanel { panel: panel, tab_panel: tab_panel }),
    {
        DragPanel { panel, tab_panel }
    }
}

/// How the head of a tab panel is drawn, which decides where a drop can land.
#[derive(Clone, Copy, Debug, PartialEq, Eq, Structural)]
pub enum TabStrip {
    /// No panel: nothing is drawn.
    Empty,
    /// One panel: only a drag handle over its title, no tabs to drop on.
    Handle,
    /// Several panels: one tab each, and an empty space after the last.
    Tabs,
}

pub struct TabPanel {
    stack_panel: Option<usize>,
    panels: Vec<u64>,
    active_ix: usize,
    is_zoomed: bool,
    will_split_placement: Option<Placement>,
}

/// What a [`TabPanel`] holds.
pub struct TabPanelView {
    /// The stack that holds the tab panel, by its slot in the dock area.
    pub stack_panel: Option<usize>,
    /// The panels in tab order.
    pub panels: Seq<u64>,
    /// The index of the active tab.
    pub active_ix: usize,
    pub is_zoomed: bool,
    /// Where a panel dragged over the content would split it.
    pub will_split_placement: Option<Placement>,
}

/// An edit of the tabs: a panel is added at the end, or taken out.
pub enum TabEdit {
    Add(u64),
    Remove(u64),
}

impl TabPanelView {
    /// No panel occurs twice, and the active index names a tab wherever
    /// there is one; with no tab it is zero.
    pub open spec fn wf(self) -> bool {
        &&& self.panels.no_duplicates()
        &&& self.panels.len() > 0 ==> self.active_ix < self.panels.len()
        &&& self.panels.len() == 0 ==> self.active_ix == 0
    }

    /// The active panel: none exactly when there are no tabs.
    pub open spec fn active_panel(self) -> Option<u64> {
        if self.active_ix < self.panels.len() {
            Some(self.panels[self.active_ix as int])
        } else {
            None
        }
    }

    /// `panel` added as the last tab and made active; unchanged if it is
    /// already a tab.
    pub open spec fn add_panel(self, panel: u64) -> TabPanelView {
        if self.panels.contains(panel) {
            self
        } else {
            TabPanelView {
                panels: self.panels.push(panel),
                active_ix: self.panels.len() as usize,
                ..self
            }
        }
    }

    /// `panel` added as tab `ix` and made active; unchanged if it is already
    /// a tab.
    pub open spec fn insert_panel_at(self, panel: u64, ix: int) -> TabPanelView {
        if self.panels.contains(panel) {
            self
        } else {
            TabPanelView { panels: self.panels.insert(ix, panel), active_ix: ix as usize, ..self }
        }
    }

    /// The tabs without `panel`.
    pub open spec fn panels_without(self, panel: u64) -> Seq<u64> {
        if self.panels.contains(panel) {
            self.panels.remove(self.panels.index_of(panel))
        } else {
            self.panels
        }
    }

    /// `panel` taken out. An active index that no longer names a tab moves to
    /// the last tab, or to zero when none is left.
    pub open spec fn detach_panel(self, panel: u64) -> TabPanelView {
        let panels = self.panels_without(panel);
        TabPanelView {
            panels: panels,
            active_ix: if self.active_ix < panels.len() {
                self.active_ix
            } else if panels.len() == 0 {
                0
            } else {
                (panels.len() - 1) as usize
            },
            ..self
        }
    }

    /// The tab panel after one edit.
    pub open spec fn edit(self, edit: TabEdit) -> TabPanelView {
        match edit {
            TabEdit::Add(panel) => self.add_panel(panel),
            TabEdit::Remove(panel) => self.detach_panel(panel),
        }
    }

    /// The tab panel after a series of edits, applied first to last.
    pub open spec fn edit_all(self, edits: Seq<TabEdit>) -> TabPanelView
        decreases edits.len(),
    {
        if edits.len() == 0 {
            self
        } else {
            self.edit_all(edits.drop_last()).edit(edits.last())
        }
    }

    /// How the head is drawn.
    pub open spec fn tab_strip(self) -> TabStrip {
        if self.panels.len() == 0 {
            TabStrip::Empty
        } else if self.panels.len() == 1 {
            TabStrip::Handle
        } else {
            TabStrip::Tabs
        }
    }
}

/// Adding keeps a tab panel well formed.
pub proof fn lemma_add_panel_wf(tab: TabPanelView, panel: u64)
    requires
        tab.wf(),
        tab.panels.len() < usize::MAX,
    ensures
        tab.add_panel(panel).wf(),
        tab.add_panel(panel).panels.contains(panel),
        tab.add_panel(panel).stack_panel == tab.stack_panel,
{
    if !tab.panels.contains(panel) {
        let after = tab.panels.push(panel);
        assert(after[tab.panels.len() as int] == panel);
    }
}

/// Inserting keeps a tab panel well formed.
pub proof fn lemma_insert_panel_at_wf(tab: TabPanelView, panel: u64, ix: int)
    requires
        tab.wf(),
        0 <= ix <= tab.panels.len(),
        ix <= usize::MAX,
    ensures
        tab.insert_panel_at(panel, ix).wf(),
        tab.insert_panel_at(panel, ix).panels.contains(panel),
{
    if !tab.panels.contains(panel) {
        let after = tab.panels.insert(ix, panel);
        assert(after[ix] == panel);
        assert forall|i: int, j: int| 0 <= i < after.len() && 0 <= j < after.len() && i
            != j implies after[i] != after[j] by {
            let oi = if i < ix {
                i
            } else {
                i - 1
            };
            let oj = if j < ix {
                j
            } else {
                j - 1
            };
            if i != ix && j != ix {
                assert(after[i] == tab.panels[oi]);
                assert(after[j] == tab.panels[oj]);
            } else if i == ix {
                assert(after[j] == tab.panels[oj]);
            } else {
                assert(after[i] == tab.panels[oi]);
            }
        }
    }
}

/// Detaching keeps a tab panel well formed, and the panel is gone.
pub proof fn lemma_detach_panel_wf(tab: TabPanelView, panel: u64)
    requires
        tab.wf(),
    ensures
        tab.detach_panel(panel).wf(),
        !tab.detach_panel(panel).panels.contains(panel),
        tab.detach_panel(panel).panels.len() <= tab.panels.len(),
        tab.detach_panel(panel).stack_panel == tab.stack_panel,
{
    if tab.panels.contains(panel) {
        let at = tab.panels.index_of(panel);
        let after = tab.panels.remove(at);
        assert forall|i: int| 0 <= i < after.len() implies after[i] != panel by {
            if i < at {
                assert(after[i] == tab.panels[i]);
            } else {
                assert(after[i] == tab.panels[i + 1]);
            }
        }
        assert forall|i: int, j: int| 0 <= i < after.len() && 0 <= j < after.len() && i
            != j implies after[i] != after[j] by {
            let oi = if i < at {
                i
            } else {
                i + 1
            };
            let oj = if j < at {
                j
            } else {
                j + 1
            };
            assert(after[i] == tab.panels[oi]);
            assert(after[j] == tab.panels[oj]);
        }
    }
}

/// Whatever panels are added and removed, in whatever order, the active
/// index names a tab whenever there is one, and there is an active panel
/// exactly when there is a tab.
pub proof fn lemma_edits_keep_active_valid(tab: TabPanelView, edits: Seq<TabEdit>)
    requires
        tab.wf(),
        tab.panels.len() + edits.len() < usize::MAX,
    ensures
        tab.edit_all(edits).wf(),
        tab.edit_all(edits).panels.len() <= tab.panels.len() + edits.len(),
        tab.edit_all(edits).panels.len() > 0 ==> tab.edit_all(edits).active_ix < tab.edit_all(
            edits,
        ).panels.len(),
        tab.edit_all(edits).active_panel() is None <==> tab.edit_all(edits).panels.len() == 0,
    decreases edits.len(),
{
    if edits.len() > 0 {
        let before = tab.edit_all(edits.drop_last());
        lemma_edits_keep_active_valid(tab, edits.drop_last());
        match edits.last() {
            TabEdit::Add(panel) => lemma_add_panel_wf(before, panel),
            TabEdit::Remove(panel) => lemma_detach_panel_wf(before, panel),
        }
    }
}

/// Adding a panel that is already a tab changes nothing, so adding a panel
/// twice is the same as adding it once.
pub proof fn lemma_add_panel_idempotent(tab: TabPanelView, panel: u64)
    ensures
        tab.panels.contains(panel) ==> tab.add_panel(panel) == tab,
        tab.add_panel(panel).add_panel(panel) == tab.add_panel(panel),
        tab.add_panel(panel).add_panel(panel).panels.len() == tab.add_panel(panel).panels.len(),
{
    if !tab.panels.contains(panel) {
        let after = tab.panels.push(panel);
        assert(after[tab.panels.len() as int] == panel);
    }
}

impl View for TabPanel {
    type V = TabPanelView;

    closed spec fn view(&self) -> TabPanelView {
        TabPanelView {
            stack_panel: self.stack_panel,
            panels: self.panels@,
            active_ix: self.active_ix,
            is_zoomed: self.is_zoomed,
            will_split_placement: self.will_split_placement,
        }
    }
}

impl TabPanel {
    /// See [`TabPanelView::wf`].
    pub open spec fn wf(&self) -> bool {
        self@.wf()
    }

    /// A tab panel with no panels, in no stack, not zoomed.
    pub fn new() -> (r: Self)
        ensures
            r.wf(),
            r@ == (TabPanelView {
                stack_panel: None,
                panels: Seq::empty(),
                active_ix: 0,
                is_zoomed: false,
                will_split_placement: None,
            }),
    {
        TabPanel {
            stack_panel: None,
            panels: Vec::new(),
            active_ix: 0,
            is_zoomed: false,
            will_split_placement: None,
        }
    }

    /// Records the stack that holds the tab panel, or that none does.
    pub(crate) fn set_parent(&mut self, parent: Option<usize>)
        ensures
            final(self)@ == (TabPanelView { stack_panel: parent, ..old(self)@ }),
    {
        self.stack_panel = parent;
    }

    /// The active panel: none exactly when there are no tabs.
    pub fn active_panel(&self) -> (r: Option<u64>)
        ensures
            r == self@.active_panel(),
            self.wf() ==> (r is None <==> self@.panels.len() == 0),
    {
        if self.active_ix < self.panels.len() {
            Some(self.panels[self.active_ix])
        } else {
            None
        }
    }

    /// Makes tab `ix` the active one.
    pub fn set_active_ix(&mut self, ix: usize)
        requires
            old(self).wf(),
            ix < old(self)@.panels.len(),
        ensures
            final(self).wf(),
            final(self)@ == (TabPanelView { active_ix: ix, ..old(self)@ }),
    {
        self.active_ix = ix;
    }

    /// The index of `panel` among the tabs.
    pub fn index_of_panel(&self, panel: u64) -> (r: Option<usize>)
        ensures
            r is Some <==> self@.panels.contains(panel),
            r matches Some(i) ==> i < self@.panels.len() && self@.panels[i as int] == panel
                && forall|j: int| 0 <= j < i ==> self@.panels[j] != panel,
            self.wf() ==> (r matches Some(i) ==> i == self@.panels.index_of(panel)),
    {
        let mut i: usize = 0;
        while i < self.panels.len()
            invariant
                i <= self.panels.len(),
                forall|j: int| 0 <= j < i ==> self.panels@[j] != panel,
            decreases self.panels.len() - i,
        {
            if self.panels[i] == panel {
                return Some(i);
            }
            i = i + 1;
        }
        None
    }

    /// Adds `panel` as the last tab and makes it active. A panel that is
    /// already a tab is not added again: nothing changes.
    pub fn add_panel(&mut self, panel: u64)
        requires
            old(self).wf(),
        ensures
            final(self).wf(),
            final(self)@ == old(self)@.add_panel(panel),
            old(self)@.panels.contains(panel) ==> final(self)@ == old(self)@,
    {
        if self.index_of_panel(panel).is_some() {
            return ;
        }
        self.panels.push(panel);
        self.active_ix = self.panels.len() - 1;
        proof {
            lemma_add_panel_wf(old(self)@, panel);
        }
    }

    /// Adds `panel` as tab `ix` and makes it active. A panel that is already
    /// a tab is not added again: nothing changes, whatever the index.
    pub fn insert_panel_at(&mut self, panel: u64, ix: usize)
        requires
            old(self).wf(),
            !old(self)@.panels.contains(panel) ==> ix <= old(self)@.panels.len(),
        ensures
            final(self).wf(),
            final(self)@ == old(self)@.insert_panel_at(panel, ix as int),
            old(self)@.panels.contains(panel) ==> final(self)@ == old(self)@,
    {
        if self.index_of_panel(panel).is_some() {
            return ;
        }
        self.panels.insert(ix, panel);
        self.active_ix = ix;
        proof {
            lemma_insert_panel_at_wf(old(self)@, panel, ix as int);
        }
    }

    /// Takes `panel` out of the tabs. An active index that no longer names a
    /// tab moves to the last tab.
    pub fn detach_panel(&mut self, panel: u64)
        requires
            old(self).wf(),
        ensures
            final(self).wf(),
            final(self)@ == old(self)@.detach_panel(panel),
            !final(self)@.panels.contains(panel),
    {
        if let Some(ix) = self.index_of_panel(panel) {
            self.panels.remove(ix);
        }
        if self.active_ix >= self.panels.len() {
            self.active_ix = if self.panels.len() == 0 {
                0
            } else {
                self.panels.len() - 1
            };
        }
        proof {
            lemma_detach_panel_wf(old(self)@, panel);
        }
    }

    /// Takes `panel` out of the tabs, as [`TabPanel::detach_panel`] does, and
    /// says whether the tab panel is now empty and so has to leave the stack
    /// that holds it. Leaving is a step of its own, for the owner of both.
    pub fn remove_panel(&mut self, panel: u64) -> (must_leave: bool)
        requires
            old(self).wf(),
        ensures
            final(self).wf(),
            final(self)@ == old(self)@.detach_panel(panel),
            must_leave == (final(self)@.panels.len() == 0 && final(self)@.stack_panel is Some),
    {
        self.detach_panel(panel);
        self.panels.len() == 0 && self.stack_panel.is_some()
    }

    /// The pointer, dragging a panel, moved to `position` over the content,
    /// which covers `bounds`: the split placement is computed anew from
    /// these two alone.
    pub fn on_panel_drag_move(&mut self, position: Point, bounds: Bounds)
        ensures
            final(self)@ == (TabPanelView {
                will_split_placement: split_placement_at(position, bounds),
                ..old(self)@
            }),
    {
        self.will_split_placement = split_placement(position, bounds);
    }

    /// Forgets the split placement, as a drop on the tabs does.
    pub fn clear_split_placement(&mut self)
        ensures
            final(self)@ == (TabPanelView { will_split_placement: None, ..old(self)@ }),
    {
        self.will_split_placement = None;
    }

    /// Zooms in if the tab panel is not zoomed and out if it is, and says
    /// which. The panels and the stack are not touched.
    pub fn on_action_toggle_zoom(&mut self) -> (event: PanelEvent)
        ensures
            final(self)@ == (TabPanelView { is_zoomed: !old(self)@.is_zoomed, ..old(self)@ }),
            event == (if old(self)@.is_zoomed {
                PanelEvent::ZoomOut
            } else {
                PanelEvent::ZoomIn
            }),
    {
        self.is_zoomed = !self.is_zoomed;
        if self.is_zoomed {
            PanelEvent::ZoomIn
        } else {
            PanelEvent::ZoomOut
        }
    }

    /// How the head is drawn: with one panel there are no tabs to drop on.
    pub fn tab_strip(&self) -> (r: TabStrip)
        ensures
            r == self@.tab_strip(),
    {
        if self.panels.len() == 0 {
            TabStrip::Empty
        } else if self.panels.len() == 1 {
            TabStrip::Handle
        } else {
            TabStrip::Tabs
        }
    }

    /// The tab index that a drop on the empty space after the last tab aims
    /// at: the last tab for a panel of this tab panel, none for a panel from
    /// elsewhere, which is then added at the end.
    pub fn empty_space_drop_index(&self, from_same_tab_panel: bool) -> (r: Option<usize>)
        requires
            self@.panels.len() > 0,
        ensures
            r == (if from_same_tab_panel {
                Some((self@.panels.len() - 1) as usize)
            } else {
                None
            }),
    {
        if from_same_tab_panel {
            Some(self.panels.len() - 1)
        } else {
            None
        }
    }

    /// The stack that holds the tab panel.
    pub fn stack_panel(&self) -> (r: Option<usize>)
        ensures
            r == self@.stack_panel,
    {
        self.stack_panel
    }

    /// The panels in tab order.
    pub fn panels(&self) -> (r: Vec<u64>)
        ensures
            r@ == self@.panels,
    {
        self.panels.clone()
    }

    /// The number of tabs.
    pub fn len(&self) -> (r: usize)
        ensures
            r == self@.panels.len(),
    {
        self.panels.len()
    }

    pub fn active_ix(&self) -> (r: usize)
        ensures
            r == self@.active_ix,
    {
        self.active_ix
    }

    pub fn is_zoomed(&self) -> (r: bool)
        ensures
            r == self@.is_zoomed,
    {
        self.is_zoomed
    }

    pub fn will_split_placement(&self) -> (r: Option<Placement>)
        ensures
            r == self@.will_split_placement,
    {
        self.will_split_placement
    }
}

} // verus!
