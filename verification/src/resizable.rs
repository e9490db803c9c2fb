//! A group of sibling regions along one axis, each with a size in pixels,
//! and the drag of the handles between them.

use vstd::prelude::*;
use crate::geometry::{Axis, Bounds, Point};
use crate::resize::{
    lemma_resized_within_bounds, px, redistribute, resized, saturate, within_bounds,
    PANEL_MIN_SIZE,
};

verus! {

/// What travels with the drag of a resize handle: the identity of the group,
/// the index of the region before the handle, and the group's axis.
#[derive(Clone, Copy, Debug)]
pub struct DragPanel(pub (u64, usize, Axis));

/// One region of a group.
#[derive(Clone, Copy, Debug)]
pub struct ResizablePanel {
    size: i32,
    axis: Axis,
    content_view: Option<u64>,
    bounds: Bounds,
}

/// What a [`ResizablePanel`] holds.
pub struct ResizablePanelView {
    /// The size the region asks for along the axis.
    pub size: i32,
    pub axis: Axis,
    /// The identity of the view shown in the region.
    pub content_view: Option<u64>,
    /// The rectangle the region was last laid out in.
    pub bounds: Bounds,
}

impl View for ResizablePanel {
    type V = ResizablePanelView;

    closed spec fn view(&self) -> ResizablePanelView {
        ResizablePanelView {
            size: self.size,
            axis: self.axis,
            content_view: self.content_view,
            bounds: self.bounds,
        }
    }
}

impl ResizablePanelView {
    /// The extent the region was last laid out with along `axis`.
    pub open spec fn measured(self, axis: Axis) -> i32 {
        self.bounds.size.spec_along(axis)
    }
}

impl ResizablePanel {
    /// A horizontal region of the minimum size, with no content, not yet laid
    /// out.
    pub fn new() -> (r: Self)
        ensures
            r@ == (ResizablePanelView {
                size: PANEL_MIN_SIZE,
                axis: Axis::Horizontal,
                content_view: None,
                bounds: Bounds::zero(),
            }),
    {
        ResizablePanel {
            size: PANEL_MIN_SIZE,
            axis: Axis::Horizontal,
            content_view: None,
            bounds: Bounds::zero(),
        }
    }

    /// Sets the view shown in the region.
    pub fn content_view(self, content: u64) -> (r: Self)
        ensures
            r@ == (ResizablePanelView { content_view: Some(content), ..self@ }),
    {
        let mut this = self;
        this.content_view = Some(content);
        this
    }

    /// Sets the size the region asks for.
    pub fn size(self, size: i32) -> (r: Self)
        ensures
            r@ == (ResizablePanelView { size: size, ..self@ }),
    {
        let mut this = self;
        this.size = size;
        this
    }

    /// Records the rectangle the region was laid out in; its extent along the
    /// region's axis becomes the region's size.
    pub fn set_bounds(&mut self, bounds: Bounds)
        ensures
            final(self)@ == (ResizablePanelView {
                size: bounds.size.spec_along(old(self)@.axis),
                bounds: bounds,
                ..old(self)@
            }),
    {
        self.size = bounds.size.along(self.axis);
        self.bounds = bounds;
    }

    /// The size the region is drawn with: the size it asks for, but no less
    /// than the minimum.
    pub fn drawn_size(&self) -> (r: i32)
        ensures
            r == (if self@.size < PANEL_MIN_SIZE {
                PANEL_MIN_SIZE
            } else {
                self@.size
            }),
    {
        if self.size < PANEL_MIN_SIZE {
            PANEL_MIN_SIZE
        } else {
            self.size
        }
    }

    pub fn get_size(&self) -> (r: i32)
        ensures
            r == self@.size,
    {
        self.size
    }

    pub fn get_axis(&self) -> (r: Axis)
        ensures
            r == self@.axis,
    {
        self.axis
    }

    pub fn get_content_view(&self) -> (r: Option<u64>)
        ensures
            r == self@.content_view,
    {
        self.content_view
    }

    pub fn get_bounds(&self) -> (r: Bounds)
        ensures
            r == self@.bounds,
    {
        self.bounds
    }
}

/// `extent` shared evenly among `count + 1` regions, rounded to the nearest
/// pixel, a half away from zero.
pub open spec fn even_share(extent: int, count: int) -> int {
    let parts = count + 1;
    if extent >= 0 {
        (2 * extent + parts) / (2 * parts)
    } else {
        -((2 * (-extent) + parts) / (2 * parts))
    }
}

/// An ordered group of regions along one axis.
#[derive(Clone, Debug)]
pub struct ResizablePanelGroup {
    panels: Vec<ResizablePanel>,
    sizes: Vec<i32>,
    axis: Axis,
    handle_size: i32,
    size: Option<i32>,
    bounds: Bounds,
    resizing_panel_ix: Option<usize>,
}

/// What a [`ResizablePanelGroup`] holds.
pub struct ResizablePanelGroupView {
    /// The regions, first to last along the axis.
    pub panels: Seq<ResizablePanelView>,
    /// The current size of each region.
    pub sizes: Seq<i32>,
    pub axis: Axis,
    /// The thickness of the handles between the regions.
    pub handle_size: i32,
    /// The extent of the group across its axis, where it is set.
    pub size: Option<i32>,
    /// The rectangle the group was last laid out in.
    pub bounds: Bounds,
    /// The region before the handle that is being dragged.
    pub resizing_panel_ix: Option<usize>,
}

impl ResizablePanelGroupView {
    /// Each region has its size.
    pub open spec fn wf(self) -> bool {
        self.panels.len() == self.sizes.len()
    }

    /// The space of the container along the axis.
    pub open spec fn extent(self) -> i32 {
        self.bounds.size.spec_along(self.axis)
    }

    /// The extents the regions were last laid out with.
    pub open spec fn measured(self) -> Seq<i32> {
        Seq::new(self.panels.len(), |k: int| self.panels[k].measured(self.axis))
    }

    /// The size a region gets when it joins the group.
    pub open spec fn default_panel_size(self) -> int {
        even_share(self.extent() as int, self.panels.len() as int)
    }

    /// `panel` as it joins the group: with the group's axis and the default
    /// size.
    pub open spec fn adopted(self, panel: ResizablePanelView) -> ResizablePanelView {
        ResizablePanelView {
            axis: self.axis,
            size: self.default_panel_size() as i32,
            ..panel
        }
    }

    /// `panel` joins before region `ix` with the default size.
    pub open spec fn insert_child(self, panel: ResizablePanelView, ix: int) -> ResizablePanelGroupView {
        ResizablePanelGroupView {
            sizes: self.sizes.insert(ix, self.default_panel_size() as i32),
            panels: self.panels.insert(ix, self.adopted(panel)),
            ..self
        }
    }

    /// `panel` joins before region `ix` with the given size, or with the
    /// default size where none is given.
    pub open spec fn insert_child_sized(
        self,
        panel: ResizablePanelView,
        ix: int,
        size: Option<i32>,
    ) -> ResizablePanelGroupView {
        match size {
            Some(size) => ResizablePanelGroupView {
                sizes: self.sizes.insert(ix, size),
                panels: self.panels.insert(
                    ix,
                    ResizablePanelView { axis: self.axis, size: size, ..panel },
                ),
                ..self
            },
            None => self.insert_child(panel, ix),
        }
    }

    /// `panel` joins at the end with the default size.
    pub open spec fn add_child(self, panel: ResizablePanelView) -> ResizablePanelGroupView {
        self.insert_child(panel, self.panels.len() as int)
    }

    /// `panel` takes the place of region `ix` and its size with it: the
    /// sizes stay as they are, and the new region gets the group's axis and
    /// the size at `ix`.
    pub open spec fn replace_child(self, panel: ResizablePanelView, ix: int) -> ResizablePanelGroupView {
        ResizablePanelGroupView {
            panels: self.panels.update(
                ix,
                ResizablePanelView { axis: self.axis, size: self.sizes[ix], ..panel },
            ),
            ..self
        }
    }

    /// Region `ix` leaves; the others keep their sizes.
    pub open spec fn remove_child(self, ix: int) -> ResizablePanelGroupView {
        ResizablePanelGroupView {
            sizes: self.sizes.remove(ix),
            panels: self.panels.remove(ix),
            ..self
        }
    }

    /// Every region leaves.
    pub open spec fn remove_all_children(self) -> ResizablePanelGroupView {
        ResizablePanelGroupView { sizes: Seq::empty(), panels: Seq::empty(), ..self }
    }

    /// The regions with the given sizes applied to them.
    pub open spec fn panels_sized(self, sizes: Seq<i32>) -> Seq<ResizablePanelView> {
        Seq::new(
            self.panels.len(),
            |k: int| ResizablePanelView { size: sizes[k], ..self.panels[k] },
        )
    }

    /// The group after region `ix` was dragged to `size`: the sizes are taken
    /// from the last layout, redistributed, and applied to the regions. For
    /// the last region, and for an index that names no region, nothing
    /// changes.
    pub open spec fn resize_panels(self, ix: int, size: int) -> ResizablePanelGroupView {
        if 0 <= ix && ix + 1 < self.panels.len() {
            let sizes = Seq::new(
                self.panels.len(),
                |k: int|
                    resized(
                        px(self.measured()),
                        ix,
                        size,
                        PANEL_MIN_SIZE as int,
                        self.extent() as int,
                    )[k] as i32,
            );
            ResizablePanelGroupView { sizes: sizes, panels: self.panels_sized(sizes), ..self }
        } else {
            self
        }
    }

    /// The size asked of the dragged region when the pointer is at
    /// `position`: the distance from the region's leading edge, along the
    /// axis.
    pub open spec fn dragged_size(self, ix: int, position: Point) -> int {
        match self.axis {
            Axis::Horizontal => saturate(position.x - self.panels[ix].bounds.origin.x),
            Axis::Vertical => saturate(position.y - self.panels[ix].bounds.origin.y),
        }
    }
}

impl View for ResizablePanelGroup {
    type V = ResizablePanelGroupView;

    closed spec fn view(&self) -> ResizablePanelGroupView {
        ResizablePanelGroupView {
            panels: Seq::new(self.panels@.len(), |k: int| self.panels@[k]@),
            sizes: self.sizes@,
            axis: self.axis,
            handle_size: self.handle_size,
            size: self.size,
            bounds: self.bounds,
            resizing_panel_ix: self.resizing_panel_ix,
        }
    }
}

impl ResizablePanelGroup {
    /// Each region has its size.
    pub open spec fn wf(&self) -> bool {
        self@.wf()
    }

    /// An empty horizontal group with handles one pixel thick, not yet laid
    /// out.
    pub fn new() -> (r: Self)
        ensures
            r.wf(),
            r@ == (ResizablePanelGroupView {
                panels: Seq::empty(),
                sizes: Seq::empty(),
                axis: Axis::Horizontal,
                handle_size: 1,
                size: None,
                bounds: Bounds::zero(),
                resizing_panel_ix: None,
            }),
    {
        let r = ResizablePanelGroup {
            panels: Vec::new(),
            sizes: Vec::new(),
            axis: Axis::Horizontal,
            handle_size: 1,
            size: None,
            bounds: Bounds::zero(),
            resizing_panel_ix: None,
        };
        assert(r@.panels =~= Seq::empty());
        r
    }

    /// Replaces the regions and their sizes.
    pub fn load(&mut self, sizes: Vec<i32>, panels: Vec<ResizablePanel>)
        requires
            sizes.len() == panels.len(),
        ensures
            final(self).wf(),
            final(self)@ == (ResizablePanelGroupView {
                sizes: sizes@,
                panels: Seq::new(panels@.len(), |k: int| panels@[k]@),
                ..old(self)@
            }),
    {
        self.sizes = sizes;
        self.panels = panels;
    }

    /// Sets the axis of the group.
    pub fn axis(self, axis: Axis) -> (r: Self)
        ensures
            r@ == (ResizablePanelGroupView { axis: axis, ..self@ }),
    {
        let mut this = self;
        this.axis = axis;
        this
    }

    /// Changes the axis of the group in place.
    pub fn set_axis(&mut self, axis: Axis)
        ensures
            final(self)@ == (ResizablePanelGroupView { axis: axis, ..old(self)@ }),
    {
        self.axis = axis;
    }

    /// Sets the thickness of the handles.
    pub fn handle_size(self, size: i32) -> (r: Self)
        ensures
            r@ == (ResizablePanelGroupView { handle_size: size, ..self@ }),
    {
        let mut this = self;
        this.handle_size = size;
        this
    }

    /// Sets the extent of the group across its axis.
    pub fn size(self, size: i32) -> (r: Self)
        ensures
            r@ == (ResizablePanelGroupView { size: Some(size), ..self@ }),
    {
        let mut this = self;
        this.size = Some(size);
        this
    }

    /// Adds a region at the end, as `add_child` does.
    pub fn child(self, panel: ResizablePanel) -> (r: Self)
        requires
            self.wf(),
        ensures
            r.wf(),
            r@ == self@.add_child(panel@),
    {
        let mut this = self;
        this.add_child(panel);
        this
    }

    /// Nests `group` in this group: it takes over the thickness of this
    /// group's handles, and a region that shows `content_view`, the view of
    /// the nested group, is added at the end.
    pub fn group(self, group: &mut ResizablePanelGroup, content_view: u64) -> (r: Self)
        requires
            self.wf(),
        ensures
            r.wf(),
            final(group)@ == (ResizablePanelGroupView {
                handle_size: self@.handle_size,
                ..old(group)@
            }),
            r@ == self@.add_child(
                ResizablePanelView {
                    size: PANEL_MIN_SIZE,
                    axis: Axis::Horizontal,
                    content_view: Some(content_view),
                    bounds: Bounds::zero(),
                },
            ),
    {
        group.handle_size = self.handle_size;
        let panel = match group.size {
            Some(size) => ResizablePanel::new().content_view(content_view).size(size),
            None => ResizablePanel::new().content_view(content_view),
        };
        self.child(panel)
    }

    /// The size a region gets when it joins the group: the container's
    /// extent shared evenly among the regions and the newcomer.
    pub fn default_panel_size(&self) -> (r: i32)
        ensures
            r == self@.default_panel_size(),
    {
        let extent: i128 = self.bounds.size.along(self.axis) as i128;
        let parts: i128 = self.panels.len() as i128 + 1;
        assert(self@.panels.len() == self.panels@.len());
        if extent >= 0 {
            let q: i128 = (2 * extent + parts) / (2 * parts);
            assert(0 <= q <= i32::MAX) by (nonlinear_arith)
                requires
                    q == (2 * extent + parts) / (2 * parts),
                    0 <= extent <= i32::MAX,
                    parts >= 1,
            ;
            q as i32
        } else {
            let q: i128 = (2 * (-extent) + parts) / (2 * parts);
            assert(0 <= q <= -(i32::MIN as int)) by (nonlinear_arith)
                requires
                    q == (2 * (-extent) + parts) / (2 * parts),
                    0 < -extent <= -(i32::MIN as int),
                    parts >= 1,
            ;
            (-q) as i32
        }
    }

    /// Adds a region at the end. It takes the group's axis and the default
    /// size; the other regions keep their sizes.
    pub fn add_child(&mut self, panel: ResizablePanel)
        requires
            old(self).wf(),
        ensures
            final(self).wf(),
            final(self)@ == old(self)@.add_child(panel@),
    {
        let n = self.panels.len();
        self.insert_child(panel, n);
    }

    /// Adds a region before the one at `ix`, or at the end for `ix` equal to
    /// the number of regions. It takes the group's axis and the default size;
    /// the other regions keep their sizes.
    pub fn insert_child(&mut self, panel: ResizablePanel, ix: usize)
        requires
            old(self).wf(),
            ix <= old(self)@.panels.len(),
        ensures
            final(self).wf(),
            final(self)@ == old(self)@.insert_child(panel@, ix as int),
    {
        let mut panel = panel;
        panel.axis = self.axis;
        panel.size = self.default_panel_size();
        self.sizes.insert(ix, panel.size);
        self.panels.insert(ix, panel);
        assert(final(self)@.panels =~= old(self)@.panels.insert(
            ix as int,
            old(self)@.adopted(panel@),
        ));
    }

    /// Adds a region before the one at `ix` with the size given, or with the
    /// default size where none is given.
    pub fn insert_child_sized(&mut self, panel: ResizablePanel, ix: usize, size: Option<i32>)
        requires
            old(self).wf(),
            ix <= old(self)@.panels.len(),
        ensures
            final(self).wf(),
            final(self)@ == old(self)@.insert_child_sized(panel@, ix as int, size),
    {
        match size {
            Some(size) => {
                let mut panel = panel;
                panel.axis = self.axis;
                panel.size = size;
                self.sizes.insert(ix, size);
                self.panels.insert(ix, panel);
                assert(final(self)@.panels =~= old(self)@.panels.insert(ix as int, panel@));
            },
            None => self.insert_child(panel, ix),
        }
    }

    /// Puts a region in the place of the one at `ix`. It takes the group's
    /// axis and the size that the region at `ix` had; the sizes of the group
    /// stay as they are.
    pub fn replace_child(&mut self, panel: ResizablePanel, ix: usize)
        requires
            old(self).wf(),
            ix < old(self)@.panels.len(),
        ensures
            final(self).wf(),
            final(self)@ == old(self)@.replace_child(panel@, ix as int),
    {
        let mut panel = panel;
        panel.axis = self.axis;
        panel.size = self.sizes[ix];
        self.panels.set(ix, panel);
        assert(final(self)@.panels =~= old(self)@.replace_child(panel@, ix as int).panels);
    }

    /// Removes the region at `ix` and its size; the other regions keep their
    /// sizes.
    pub fn remove_child(&mut self, ix: usize)
        requires
            old(self).wf(),
            ix < old(self)@.panels.len(),
        ensures
            final(self).wf(),
            final(self)@ == old(self)@.remove_child(ix as int),
    {
        self.sizes.remove(ix);
        self.panels.remove(ix);
        assert(final(self)@.panels =~= old(self)@.panels.remove(ix as int));
    }

    /// Removes every region.
    pub fn remove_all_children(&mut self)
        ensures
            final(self).wf(),
            final(self)@ == old(self)@.remove_all_children(),
    {
        self.sizes.clear();
        self.panels.clear();
        assert(final(self)@.panels =~= Seq::empty());
    }

    /// Records the rectangle the group was laid out in.
    pub fn set_bounds(&mut self, bounds: Bounds)
        ensures
            final(self)@ == (ResizablePanelGroupView { bounds: bounds, ..old(self)@ }),
    {
        self.bounds = bounds;
    }

    /// Records the rectangle the region at `ix` was laid out in, as
    /// [`ResizablePanel::set_bounds`] does. The sizes of the group change
    /// only with the next drag.
    pub fn set_panel_bounds(&mut self, ix: usize, bounds: Bounds)
        requires
            ix < old(self)@.panels.len(),
        ensures
            final(self)@ == (ResizablePanelGroupView {
                panels: old(self)@.panels.update(
                    ix as int,
                    ResizablePanelView {
                        size: bounds.size.spec_along(old(self)@.panels[ix as int].axis),
                        bounds: bounds,
                        ..old(self)@.panels[ix as int]
                    },
                ),
                ..old(self)@
            }),
    {
        let mut panel = self.panels[ix];
        panel.set_bounds(bounds);
        self.panels.set(ix, panel);
        assert(final(self)@.panels =~= old(self)@.panels.update(ix as int, panel@));
    }

    /// Takes the size of each region from its last layout.
    fn sync_real_panel_sizes(&mut self)
        requires
            old(self).wf(),
        ensures
            final(self).wf(),
            final(self)@ == (ResizablePanelGroupView {
                sizes: old(self)@.measured(),
                ..old(self)@
            }),
    {
        let n = self.panels.len();
        let mut i: usize = 0;
        while i < n
            invariant
                n == self.panels.len(),
                self.sizes.len() == n,
                i <= n,
                self.panels == old(self).panels,
                self.axis == old(self).axis,
                self.handle_size == old(self).handle_size,
                self.size == old(self).size,
                self.bounds == old(self).bounds,
                self.resizing_panel_ix == old(self).resizing_panel_ix,
                forall|k: int| 0 <= k < i ==> self.sizes@[k] == old(self)@.measured()[k],
            decreases n - i,
        {
            let measured = self.panels[i].bounds.size.along(self.axis);
            self.sizes.set(i, measured);
            i = i + 1;
        }
        assert(self@.sizes =~= old(self)@.measured());
    }

    /// Region `ix` is dragged to `size`. The sizes are first taken from the
    /// last layout, then redistributed under the minimum size within the
    /// container's extent, then applied to the regions. The last region
    /// cannot be dragged: for it, and for an index that names no region,
    /// nothing changes.
    ///
    /// If the regions as laid out were at the minimum or above and fitted
    /// the container, so are the new sizes.
    pub fn resize_panels(&mut self, ix: usize, size: i32)
        requires
            old(self).wf(),
        ensures
            final(self).wf(),
            final(self)@ == old(self)@.resize_panels(ix as int, size as int),
            ix + 1 < old(self)@.panels.len() ==> px(final(self)@.sizes) == resized(
                px(old(self)@.measured()),
                ix as int,
                size as int,
                PANEL_MIN_SIZE as int,
                old(self)@.extent() as int,
            ),
            within_bounds(
                px(old(self)@.measured()),
                PANEL_MIN_SIZE as int,
                old(self)@.extent() as int,
            ) && ix + 1 < old(self)@.panels.len() ==> within_bounds(
                px(final(self)@.sizes),
                PANEL_MIN_SIZE as int,
                old(self)@.extent() as int,
            ),
    {
        let n = self.panels.len();
        if n < 2 || ix >= n - 1 {
            return ;
        }
        let container_size = self.bounds.size.along(self.axis);
        self.sync_real_panel_sizes();
        let new_sizes = redistribute(&self.sizes, ix, size, PANEL_MIN_SIZE, container_size);
        proof {
            let goal = resized(
                px(old(self)@.measured()),
                ix as int,
                size as int,
                PANEL_MIN_SIZE as int,
                old(self)@.extent() as int,
            );
            assert(px(new_sizes@) == goal);
            assert(new_sizes@.len() == px(new_sizes@).len());
            assert(goal.len() == n);
            assert forall|k: int| 0 <= k < n implies new_sizes@[k] == goal[k] as i32 by {
                assert(px(new_sizes@)[k] == new_sizes@[k] as int);
            }
            if within_bounds(
                px(old(self)@.measured()),
                PANEL_MIN_SIZE as int,
                old(self)@.extent() as int,
            ) {
                lemma_resized_within_bounds(
                    px(old(self)@.measured()),
                    ix as int,
                    size as int,
                    PANEL_MIN_SIZE as int,
                    old(self)@.extent() as int,
                );
            }
        }
        self.sizes = new_sizes;
        let ghost applied = self.sizes@;
        assert forall|k: int| 0 <= k < n implies (#[trigger] self.panels@[k])@ == old(
            self,
        ).panels@[k]@ by {
            assert(self@.panels[k] == old(self)@.panels[k]);
        }
        let mut i: usize = 0;
        while i < n
            invariant
                n == self.panels.len(),
                n == old(self).panels.len(),
                self.sizes.len() == n,
                self.sizes@ == applied,
                i <= n,
                self.axis == old(self).axis,
                self.handle_size == old(self).handle_size,
                self.size == old(self).size,
                self.bounds == old(self).bounds,
                self.resizing_panel_ix == old(self).resizing_panel_ix,
                forall|k: int|
                    0 <= k < i ==> (#[trigger] self.panels@[k])@ == (ResizablePanelView {
                        size: self.sizes@[k],
                        ..old(self).panels@[k]@
                    }),
                forall|k: int|
                    i <= k < n ==> (#[trigger] self.panels@[k])@ == old(self).panels@[k]@,
            decreases n - i,
        {
            let mut panel = self.panels[i];
            panel.size = self.sizes[i];
            self.panels.set(i, panel);
            i = i + 1;
        }
        proof {
            let target = old(self)@.resize_panels(ix as int, size as int);
            assert(self@.sizes =~= target.sizes);
            assert(self@.panels =~= target.panels);
        }
    }

    /// The drag of the handle after region `ix` begins.
    pub fn start_resizing(&mut self, ix: usize)
        ensures
            final(self)@ == (ResizablePanelGroupView {
                resizing_panel_ix: Some(ix),
                ..old(self)@
            }),
    {
        self.resizing_panel_ix = Some(ix);
    }

    /// The pointer moved to `position`. While a handle is dragged, the region
    /// before it is resized to reach from its leading edge to the pointer;
    /// otherwise nothing changes.
    pub fn on_mouse_move(&mut self, position: Point)
        requires
            old(self).wf(),
            old(self)@.resizing_panel_ix matches Some(ix) ==> ix < old(self)@.panels.len(),
        ensures
            final(self).wf(),
            final(self)@ == (match old(self)@.resizing_panel_ix {
                Some(ix) => old(self)@.resize_panels(
                    ix as int,
                    old(self)@.dragged_size(ix as int, position),
                ),
                None => old(self)@,
            }),
    {
        if let Some(ix) = self.resizing_panel_ix {
            let edge = self.panels[ix].bounds;
            let distance: i64 = match self.axis {
                Axis::Horizontal => position.x as i64 - edge.left() as i64,
                Axis::Vertical => position.y as i64 - edge.top() as i64,
            };
            let size: i32 = if distance > i32::MAX as i64 {
                i32::MAX
            } else if distance < i32::MIN as i64 {
                i32::MIN
            } else {
                distance as i32
            };
            self.resize_panels(ix, size);
        }
    }

    /// A mouse button was released: the drag of a handle, if any, ends.
    pub fn on_mouse_up(&mut self)
        ensures
            final(self)@ == (ResizablePanelGroupView {
                resizing_panel_ix: None,
                ..old(self)@
            }),
    {
        self.resizing_panel_ix = None;
    }

    pub fn get_axis(&self) -> (r: Axis)
        ensures
            r == self@.axis,
    {
        self.axis
    }

    pub fn get_handle_size(&self) -> (r: i32)
        ensures
            r == self@.handle_size,
    {
        self.handle_size
    }

    pub fn get_size(&self) -> (r: Option<i32>)
        ensures
            r == self@.size,
    {
        self.size
    }

    pub fn get_bounds(&self) -> (r: Bounds)
        ensures
            r == self@.bounds,
    {
        self.bounds
    }

    pub fn resizing_panel_ix(&self) -> (r: Option<usize>)
        ensures
            r == self@.resizing_panel_ix,
    {
        self.resizing_panel_ix
    }

    /// The current sizes of the regions.
    pub fn sizes(&self) -> (r: Vec<i32>)
        ensures
            r@ == self@.sizes,
    {
        self.sizes.clone()
    }

    /// The number of regions.
    pub fn len(&self) -> (r: usize)
        ensures
            r == self@.panels.len(),
    {
        self.panels.len()
    }

    /// The region at `ix`, where there is one.
    pub fn panel(&self, ix: usize) -> (r: Option<ResizablePanel>)
        ensures
            r matches Some(p) ==> ix < self@.panels.len() && p@ == self@.panels[ix as int],
            r is None <==> ix >= self@.panels.len(),
    {
        if ix < self.panels.len() {
            Some(self.panels[ix])
        } else {
            None
        }
    }
}

} // verus!
