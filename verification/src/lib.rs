//! A docking-layout engine: panels grouped into tabs, tab groups nested in
//! horizontal or vertical stacks, and sibling regions that share the space of
//! their container under interactive resize.
//!
//! All lengths are whole pixels. Panels and layout nodes are referred to by
//! identity: a panel by the `u64` its host gave it, a layout node by its slot
//! in the [`dock_area::DockArea`] that owns it. The host draws, measures and
//! waits; the library decides what the layout is.
//!
//! - [`geometry`]: axes, placements, rectangles, and the split placement
//!   under a pointer.
//! - [`resize`]: how sibling regions share their container when one is
//!   dragged to a new size.
//! - [`resizable`]: a group of regions and the drag of its handles.
//! - [`tab_panel`], [`stack_panel`]: the two kinds of layout node.
//! - [`dock_model`], [`dock_laws`], [`forest`]: the layout as a value, its
//!   edits, and what holds of them.
//! - [`dock_area`]: the layout itself.
//! - [`notification`]: notifications and the list that shows them.

pub mod dock_area;
pub mod dock_laws;
pub mod dock_model;
pub mod forest;
pub mod geometry;
pub mod notification;
pub mod resizable;
pub mod resize;
pub mod stack_panel;
pub mod tab_panel;
