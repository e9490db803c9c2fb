//! Axes, placements, rectangles, and the rule that turns a pointer position
//! over a tab's content into a split placement.

use vstd::prelude::*;

verus! {

/// The direction along which the regions of a container are laid out.
#[derive(Clone, Copy, Debug, PartialEq, Eq, Structural)]
pub enum Axis {
    Horizontal,
    Vertical,
}

impl Axis {
    pub fn is_horizontal(self) -> (r: bool)
        ensures
            r == (self == Axis::Horizontal),
    {
        match self {
            Axis::Horizontal => true,
            Axis::Vertical => false,
        }
    }

    pub fn is_vertical(self) -> (r: bool)
        ensures
            r == (self == Axis::Vertical),
    {
        match self {
            Axis::Horizontal => false,
            Axis::Vertical => true,
        }
    }
}

/// The side of a drop target on which a dragged panel opens a new region.
#[derive(Clone, Copy, Debug, PartialEq, Eq, Structural)]
pub enum Placement {
    Top,
    Bottom,
    Left,
    Right,
}

impl Placement {
    /// The axis along which a region placed on this side is a neighbour of
    /// its target: left and right are horizontal, top and bottom vertical.
    pub open spec fn spec_axis(self) -> Axis {
        match self {
            Placement::Left | Placement::Right => Axis::Horizontal,
            Placement::Top | Placement::Bottom => Axis::Vertical,
        }
    }

    /// Whether a region placed on this side comes before its target.
    pub open spec fn spec_is_leading(self) -> bool {
        self == Placement::Left || self == Placement::Top
    }

    #[verifier::when_used_as_spec(spec_axis)]
    pub fn axis(self) -> (r: Axis)
        ensures
            r == self.spec_axis(),
    {
        match self {
            Placement::Left | Placement::Right => Axis::Horizontal,
            Placement::Top | Placement::Bottom => Axis::Vertical,
        }
    }

    pub fn is_horizontal(self) -> (r: bool)
        ensures
            r == (self.spec_axis() == Axis::Horizontal),
    {
        match self {
            Placement::Left | Placement::Right => true,
            Placement::Top | Placement::Bottom => false,
        }
    }

    pub fn is_vertical(self) -> (r: bool)
        ensures
            r == (self.spec_axis() == Axis::Vertical),
    {
        match self {
            Placement::Left | Placement::Right => false,
            Placement::Top | Placement::Bottom => true,
        }
    }

    #[verifier::when_used_as_spec(spec_is_leading)]
    pub fn is_leading(self) -> (r: bool)
        ensures
            r == self.spec_is_leading(),
    {
        match self {
            Placement::Left | Placement::Top => true,
            Placement::Right | Placement::Bottom => false,
        }
    }
}

/// A position in whole pixels.
#[derive(Clone, Copy, Debug, PartialEq, Eq, Structural)]
pub struct Point {
    pub x: i32,
    pub y: i32,
}

/// An extent in whole pixels.
#[derive(Clone, Copy, Debug, PartialEq, Eq, Structural)]
pub struct Size {
    pub width: i32,
    pub height: i32,
}

impl Size {
    pub open spec fn spec_along(self, axis: Axis) -> i32 {
        match axis {
            Axis::Horizontal => self.width,
            Axis::Vertical => self.height,
        }
    }

    /// The extent along `axis`: the width for horizontal, the height for
    /// vertical.
    #[verifier::when_used_as_spec(spec_along)]
    pub fn along(self, axis: Axis) -> (r: i32)
        ensures
            r == self.spec_along(axis),
    {
        match axis {
            Axis::Horizontal => self.width,
            Axis::Vertical => self.height,
        }
    }
}

/// A rectangle: its top-left corner and its extent.
#[derive(Clone, Copy, Debug, PartialEq, Eq, Structural)]
pub struct Bounds {
    pub origin: Point,
    pub size: Size,
}

impl Bounds {
    pub open spec fn spec_zero() -> Bounds {
        Bounds { origin: Point { x: 0, y: 0 }, size: Size { width: 0, height: 0 } }
    }

    /// The empty rectangle at the origin.
    #[verifier::when_used_as_spec(spec_zero)]
    pub fn zero() -> (r: Bounds)
        ensures
            r == Bounds::spec_zero(),
    {
        Bounds { origin: Point { x: 0, y: 0 }, size: Size { width: 0, height: 0 } }
    }

    pub fn left(self) -> (r: i32)
        ensures
            r == self.origin.x,
    {
        self.origin.x
    }

    pub fn top(self) -> (r: i32)
        ensures
            r == self.origin.y,
    {
        self.origin.y
    }
}

/// The split placement for a pointer at `position` over content that covers
/// `bounds`. With `x`, `y` the position relative to the corner of the bounds
/// and `w`, `h` their extent: the left quarter (`x < w/4`) gives `Left`, else
/// the right quarter (`x > 3w/4`) gives `Right`, else the top quarter gives
/// `Top`, else the bottom quarter gives `Bottom`, and the centre gives `None`,
/// which stands for merging into the target's tabs.
pub open spec fn split_placement_at(position: Point, bounds: Bounds) -> Option<Placement> {
    let x = position.x - bounds.origin.x;
    let y = position.y - bounds.origin.y;
    let w = bounds.size.width as int;
    let h = bounds.size.height as int;
    if 4 * x < w {
        Some(Placement::Left)
    } else if 4 * x > 3 * w {
        Some(Placement::Right)
    } else if 4 * y < h {
        Some(Placement::Top)
    } else if 4 * y > 3 * h {
        Some(Placement::Bottom)
    } else {
        None
    }
}

/// Computes [`split_placement_at`]. The result depends on the position and
/// the bounds alone.
pub fn split_placement(position: Point, bounds: Bounds) -> (r: Option<Placement>)
    ensures
        r == split_placement_at(position, bounds),
{
    let x: i64 = position.x as i64 - bounds.origin.x as i64;
    let y: i64 = position.y as i64 - bounds.origin.y as i64;
    let w: i64 = bounds.size.width as i64;
    let h: i64 = bounds.size.height as i64;
    if 4 * x < w {
        Some(Placement::Left)
    } else if 4 * x > 3 * w {
        Some(Placement::Right)
    } else if 4 * y < h {
        Some(Placement::Top)
    } else if 4 * y > 3 * h {
        Some(Placement::Bottom)
    } else {
        None
    }
}

/// A pointer at the exact centre of bounds of non-negative extent is in no
/// quarter: the placement is `None`.
pub proof fn lemma_centre_merges(position: Point, bounds: Bounds)
    requires
        bounds.size.width >= 0,
        bounds.size.height >= 0,
        2 * (position.x - bounds.origin.x) == bounds.size.width,
        2 * (position.y - bounds.origin.y) == bounds.size.height,
    ensures
        split_placement_at(position, bounds) is None,
{
}

/// A pointer in the left quarter splits to the left, whatever its height.
pub proof fn lemma_left_quarter(position: Point, bounds: Bounds)
    requires
        4 * (position.x - bounds.origin.x) < bounds.size.width,
    ensures
        split_placement_at(position, bounds) == Some(Placement::Left),
{
}

/// A pointer in the right quarter, and so not in the left one, splits to the
/// right, whatever its height.
pub proof fn lemma_right_quarter(position: Point, bounds: Bounds)
    requires
        bounds.size.width >= 0,
        4 * (position.x - bounds.origin.x) > 3 * bounds.size.width,
    ensures
        split_placement_at(position, bounds) == Some(Placement::Right),
{
}

/// A pointer in the middle half horizontally and in the top quarter
/// vertically splits to the top.
pub proof fn lemma_top_quarter(position: Point, bounds: Bounds)
    requires
        bounds.size.width <= 4 * (position.x - bounds.origin.x) <= 3 * bounds.size.width,
        4 * (position.y - bounds.origin.y) < bounds.size.height,
    ensures
        split_placement_at(position, bounds) == Some(Placement::Top),
{
}

/// A pointer in the middle half horizontally and in the bottom quarter
/// vertically splits to the bottom.
pub proof fn lemma_bottom_quarter(position: Point, bounds: Bounds)
    requires
        bounds.size.height >= 0,
        bounds.size.width <= 4 * (position.x - bounds.origin.x) <= 3 * bounds.size.width,
        4 * (position.y - bounds.origin.y) > 3 * bounds.size.height,
    ensures
        split_placement_at(position, bounds) == Some(Placement::Bottom),
{
}

} // verus!
