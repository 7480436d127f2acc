//! Runtime parametric-constraint data: references to entity sub-elements,
//! constraint kinds and the per-scope constraint set.

use crate::proxy_graphics::Point3Bits;
use crate::text::{
    decimal, lemma_decimal_injective, lemma_distinct_candidates_fit, push_decimal, str_equal,
};
use std::collections::HashMap;
use vstd::prelude::*;

verus! {

/// A drawing object's handle.
pub type Handle = u64;

pub type ConstraintId = u32;

/// A world-space vector as three `f64` bit patterns.
pub type Vec3Bits = Point3Bits;

pub const POLYLINE_SEGMENT_MARKER_BASE: i32 = -1_000_000;

pub const POLYLINE_SEGMENT_MIDPOINT_MARKER_BASE: i32 = -2_000_000;

pub const POLYLINE_SEGMENT_CENTER_MARKER_BASE: i32 = -3_000_000;

pub const ELLIPSE_MAJOR_AXIS_MARKER: i32 = -4;

pub const ELLIPSE_MINOR_AXIS_MARKER: i32 = -5;

pub const TEXT_BASELINE_MARKER: i32 = -6;

/// The circle/arc-center special marker.
pub const CENTER_MARKER: i32 = -3;

/// Largest segment index whose marker still fits in an `i32`.
pub const MAX_SEGMENT_INDEX: usize = 2_146_483_648;

/// Largest segment-midpoint index whose marker still fits in an `i32`.
pub const MAX_SEGMENT_MIDPOINT_INDEX: usize = 2_145_483_648;

/// Largest curved-segment-center index whose marker still fits in an `i32`.
pub const MAX_SEGMENT_CENTER_INDEX: usize = 2_144_483_648;

/// Segment indices below this bound keep their markers inside the segment
/// range; larger ones run into the segment-midpoint range.
pub const SEGMENT_INDEX_RANGE: usize = 1_000_000;

/// One endpoint a constraint attaches to: an entity plus which sub-element
/// of it.
///
/// `marker` indexes the entity's ordered point list when non-negative
/// (0/1 = a line's start/end, ...), or names a special case when negative
/// (-3 = a circle/arc's center; -2 = a bounded curve's midpoint). Polyline
/// segment, segment-midpoint, and curved-segment-center references use
/// private negative ranges so they stay distinct from vertex markers.
#[derive(Clone, Copy, Debug, PartialEq, Eq, Hash)]
pub struct ParametricRef {
    pub entity: Handle,
    /// `None` addresses the entity as a whole; a point-level constraint sets
    /// `Some(marker)`.
    pub marker: Option<i32>,
}

#[derive(Clone, Copy, Debug, PartialEq, Eq, Structural)]
pub enum DirectionalAxis {
    TextBaseline,
    EllipseMajor,
    EllipseMinor,
}

/// The index a segment marker encodes.
pub open spec fn spec_segment_index(r: ParametricRef) -> Option<usize> {
    match r.marker {
        Some(m) => if m <= POLYLINE_SEGMENT_MARKER_BASE && m > POLYLINE_SEGMENT_MIDPOINT_MARKER_BASE {
            Some((POLYLINE_SEGMENT_MARKER_BASE - m) as usize)
        } else {
            None
        },
        None => None,
    }
}

/// The index a segment-midpoint marker encodes.
pub open spec fn spec_segment_midpoint_index(r: ParametricRef) -> Option<usize> {
    match r.marker {
        Some(m) => if m <= POLYLINE_SEGMENT_MIDPOINT_MARKER_BASE && m
            > POLYLINE_SEGMENT_CENTER_MARKER_BASE {
            Some((POLYLINE_SEGMENT_MIDPOINT_MARKER_BASE - m) as usize)
        } else {
            None
        },
        None => None,
    }
}

/// The index a curved-segment-center marker encodes.
pub open spec fn spec_segment_center_index(r: ParametricRef) -> Option<usize> {
    match r.marker {
        Some(m) => if m <= POLYLINE_SEGMENT_CENTER_MARKER_BASE {
            Some((POLYLINE_SEGMENT_CENTER_MARKER_BASE - m) as usize)
        } else {
            None
        },
        None => None,
    }
}

/// The directional guide a marker names.
pub open spec fn spec_directional_axis(r: ParametricRef) -> Option<DirectionalAxis> {
    match r.marker {
        Some(m) => if m == TEXT_BASELINE_MARKER {
            Some(DirectionalAxis::TextBaseline)
        } else if m == ELLIPSE_MAJOR_AXIS_MARKER {
            Some(DirectionalAxis::EllipseMajor)
        } else if m == ELLIPSE_MINOR_AXIS_MARKER {
            Some(DirectionalAxis::EllipseMinor)
        } else {
            None
        },
        None => None,
    }
}

impl ParametricRef {
    pub fn whole(entity: Handle) -> (r: Self)
        ensures
            r == (ParametricRef { entity, marker: None }),
    {
        Self { entity, marker: None }
    }

    pub fn point(entity: Handle, marker: i32) -> (r: Self)
        ensures
            r == (ParametricRef { entity, marker: Some(marker) }),
    {
        Self { entity, marker: Some(marker) }
    }

    /// The circle/arc-center special case (`marker == -3`).
    pub fn center(entity: Handle) -> (r: Self)
        ensures
            r == (ParametricRef { entity, marker: Some(CENTER_MARKER) }),
    {
        Self { entity, marker: Some(CENTER_MARKER) }
    }

    /// Select one straight segment of a polyline.
    pub fn segment(entity: Handle, index: usize) -> (r: Self)
        requires
            index <= MAX_SEGMENT_INDEX,
        ensures
            r == (ParametricRef {
                entity,
                marker: Some((POLYLINE_SEGMENT_MARKER_BASE - index) as i32),
            }),
    {
        let i: i64 = index as i64;
        Self { entity, marker: Some((POLYLINE_SEGMENT_MARKER_BASE as i64 - i) as i32) }
    }

    pub fn segment_index(self) -> (r: Option<usize>)
        ensures
            r == spec_segment_index(self),
    {
        match self.marker {
            Some(m) => if m <= POLYLINE_SEGMENT_MARKER_BASE && m
                > POLYLINE_SEGMENT_MIDPOINT_MARKER_BASE {
                Some((POLYLINE_SEGMENT_MARKER_BASE - m) as usize)
            } else {
                None
            },
            None => None,
        }
    }

    /// Select the midpoint of one straight polyline segment.
    pub fn segment_midpoint(entity: Handle, index: usize) -> (r: Self)
        requires
            index <= MAX_SEGMENT_MIDPOINT_INDEX,
        ensures
            r == (ParametricRef {
                entity,
                marker: Some((POLYLINE_SEGMENT_MIDPOINT_MARKER_BASE - index) as i32),
            }),
    {
        let i: i64 = index as i64;
        Self { entity, marker: Some((POLYLINE_SEGMENT_MIDPOINT_MARKER_BASE as i64 - i) as i32) }
    }

    pub fn segment_midpoint_index(self) -> (r: Option<usize>)
        ensures
            r == spec_segment_midpoint_index(self),
    {
        match self.marker {
            Some(m) => if m <= POLYLINE_SEGMENT_MIDPOINT_MARKER_BASE && m
                > POLYLINE_SEGMENT_CENTER_MARKER_BASE {
                Some((POLYLINE_SEGMENT_MIDPOINT_MARKER_BASE - m) as usize)
            } else {
                None
            },
            None => None,
        }
    }

    /// Select the center of one curved polyline segment.
    pub fn segment_center(entity: Handle, index: usize) -> (r: Self)
        requires
            index <= MAX_SEGMENT_CENTER_INDEX,
        ensures
            r == (ParametricRef {
                entity,
                marker: Some((POLYLINE_SEGMENT_CENTER_MARKER_BASE - index) as i32),
            }),
    {
        let i: i64 = index as i64;
        Self { entity, marker: Some((POLYLINE_SEGMENT_CENTER_MARKER_BASE as i64 - i) as i32) }
    }

    pub fn segment_center_index(self) -> (r: Option<usize>)
        ensures
            r == spec_segment_center_index(self),
    {
        match self.marker {
            Some(m) => if m <= POLYLINE_SEGMENT_CENTER_MARKER_BASE {
                Some((POLYLINE_SEGMENT_CENTER_MARKER_BASE - m) as usize)
            } else {
                None
            },
            None => None,
        }
    }

    /// Select the displayed baseline of a Text or MText entity.
    pub fn text_baseline(entity: Handle) -> (r: Self)
        ensures
            r == (ParametricRef { entity, marker: Some(TEXT_BASELINE_MARKER) }),
    {
        Self { entity, marker: Some(TEXT_BASELINE_MARKER) }
    }

    /// Select the major axis of an ellipse or elliptical arc.
    pub fn ellipse_major_axis(entity: Handle) -> (r: Self)
        ensures
            r == (ParametricRef { entity, marker: Some(ELLIPSE_MAJOR_AXIS_MARKER) }),
    {
        Self { entity, marker: Some(ELLIPSE_MAJOR_AXIS_MARKER) }
    }

    /// Select the minor axis of an ellipse or elliptical arc.
    pub fn ellipse_minor_axis(entity: Handle) -> (r: Self)
        ensures
            r == (ParametricRef { entity, marker: Some(ELLIPSE_MINOR_AXIS_MARKER) }),
    {
        Self { entity, marker: Some(ELLIPSE_MINOR_AXIS_MARKER) }
    }

    pub fn directional_axis(self) -> (r: Option<DirectionalAxis>)
        ensures
            r == spec_directional_axis(self),
    {
        match self.marker {
            Some(m) => if m == TEXT_BASELINE_MARKER {
                Some(DirectionalAxis::TextBaseline)
            } else if m == ELLIPSE_MAJOR_AXIS_MARKER {
                Some(DirectionalAxis::EllipseMajor)
            } else if m == ELLIPSE_MINOR_AXIS_MARKER {
                Some(DirectionalAxis::EllipseMinor)
            } else {
                None
            },
            None => None,
        }
    }
}

/// A polyline segment reference gives its index back, for every index whose
/// marker stays inside the segment range.
pub proof fn lemma_segment_index_roundtrip(entity: Handle, index: usize)
    requires
        index < SEGMENT_INDEX_RANGE,
    ensures
        spec_segment_index(
            ParametricRef { entity, marker: Some((POLYLINE_SEGMENT_MARKER_BASE - index) as i32) },
        ) == Some(index),
        spec_segment_midpoint_index(
            ParametricRef { entity, marker: Some((POLYLINE_SEGMENT_MARKER_BASE - index) as i32) },
        ) is None,
        spec_segment_center_index(
            ParametricRef { entity, marker: Some((POLYLINE_SEGMENT_MARKER_BASE - index) as i32) },
        ) is None,
        spec_directional_axis(
            ParametricRef { entity, marker: Some((POLYLINE_SEGMENT_MARKER_BASE - index) as i32) },
        ) is None,
{
}

/// A segment-midpoint reference gives its index back and is read as no other
/// kind of reference, for every index inside the midpoint range.
pub proof fn lemma_segment_midpoint_index_roundtrip(entity: Handle, index: usize)
    requires
        index < SEGMENT_INDEX_RANGE,
    ensures
        spec_segment_midpoint_index(
            ParametricRef {
                entity,
                marker: Some((POLYLINE_SEGMENT_MIDPOINT_MARKER_BASE - index) as i32),
            },
        ) == Some(index),
        spec_segment_index(
            ParametricRef {
                entity,
                marker: Some((POLYLINE_SEGMENT_MIDPOINT_MARKER_BASE - index) as i32),
            },
        ) is None,
        spec_segment_center_index(
            ParametricRef {
                entity,
                marker: Some((POLYLINE_SEGMENT_MIDPOINT_MARKER_BASE - index) as i32),
            },
        ) is None,
{
}

/// A curved-segment-center reference gives its index back and is read as no
/// other kind of reference, for every index whose marker fits.
pub proof fn lemma_segment_center_index_roundtrip(entity: Handle, index: usize)
    requires
        index <= MAX_SEGMENT_CENTER_INDEX,
    ensures
        spec_segment_center_index(
            ParametricRef {
                entity,
                marker: Some((POLYLINE_SEGMENT_CENTER_MARKER_BASE - index) as i32),
            },
        ) == Some(index),
        spec_segment_index(
            ParametricRef {
                entity,
                marker: Some((POLYLINE_SEGMENT_CENTER_MARKER_BASE - index) as i32),
            },
        ) is None,
        spec_segment_midpoint_index(
            ParametricRef {
                entity,
                marker: Some((POLYLINE_SEGMENT_CENTER_MARKER_BASE - index) as i32),
            },
        ) is None,
{
}

/// Vertex, whole-entity, center and directional references are never read
/// as polyline segment, midpoint or center references.
pub proof fn lemma_special_markers_are_not_segments(entity: Handle, marker: Option<i32>)
    requires
        marker matches Some(m) ==> m >= TEXT_BASELINE_MARKER,
    ensures
        spec_segment_index(ParametricRef { entity, marker }) is None,
        spec_segment_midpoint_index(ParametricRef { entity, marker }) is None,
        spec_segment_center_index(ParametricRef { entity, marker }) is None,
{
}

/// The friendly, user-facing constraint types.
#[derive(Clone, Copy, Debug, PartialEq, Eq, Structural)]
pub enum ConstraintKind {
    Coincident,
    Horizontal,
    Vertical,
    Parallel,
    Perpendicular,
    Equal,
    /// Distance between two points, or a single line's length.
    Distance,
    Angle,
    /// Angle defined by two rays sharing the middle point.
    Angle3Point,
    Radius,
    Tangent,
    /// An open spline endpoint remains curvature-continuous with another
    /// bounded curve endpoint.
    Smooth,
    /// Two circles/arcs share a center.
    Concentric,
    /// A point sits at a circle/arc's center.
    CenterPoint,
    /// Two lines share the same infinite line.
    Colinear,
    /// A point sits at another line's midpoint.
    Midpoint,
    /// Locks a whole entity at its current position.
    Fixed,
    /// A point lies anywhere along a line's or circle's curve.
    PointOnCurve,
    /// The distance between one point pair equals that of another.
    EqualDistance,
    /// Two points or compatible curves are symmetric across a line.
    Symmetric,
    /// A circle/arc's diameter.
    Diameter,
    /// The X-only component of the distance between two points.
    DistanceX,
    /// The Y-only component of the distance between two points.
    DistanceY,
    /// Signed point-to-point distance along a fixed or derived direction.
    DistanceDirected,
    /// A line perpendicular to a circle/arc's tangent at their contact.
    Normal,
    /// A rigid geometry container.
    RigidSet,
}

/// The CONSTRAINTBARMODE visibility bit of a geometric constraint kind.
pub open spec fn spec_bar_mode_bit(kind: ConstraintKind) -> Option<i16> {
    match kind {
        ConstraintKind::Horizontal => Some(1),
        ConstraintKind::Vertical => Some(2),
        ConstraintKind::Perpendicular => Some(4),
        ConstraintKind::Parallel => Some(8),
        ConstraintKind::Tangent => Some(16),
        ConstraintKind::Smooth => Some(32),
        ConstraintKind::Coincident => Some(64),
        ConstraintKind::Concentric => Some(128),
        ConstraintKind::Colinear => Some(256),
        ConstraintKind::Symmetric => Some(512),
        ConstraintKind::Equal => Some(1024),
        ConstraintKind::Fixed => Some(2048),
        _ => None,
    }
}

/// The user-facing name of a constraint kind.
pub open spec fn spec_label(kind: ConstraintKind) -> Seq<char> {
    match kind {
        ConstraintKind::Coincident => "Coincident"@,
        ConstraintKind::Horizontal => "Horizontal"@,
        ConstraintKind::Vertical => "Vertical"@,
        ConstraintKind::Parallel => "Parallel"@,
        ConstraintKind::Perpendicular => "Perpendicular"@,
        ConstraintKind::Equal => "Equal"@,
        ConstraintKind::Distance => "Distance"@,
        ConstraintKind::Angle => "Angle"@,
        ConstraintKind::Angle3Point => "3-point angle"@,
        ConstraintKind::Radius => "Radius"@,
        ConstraintKind::Tangent => "Tangent"@,
        ConstraintKind::Smooth => "Smooth"@,
        ConstraintKind::Concentric => "Concentric"@,
        ConstraintKind::CenterPoint => "Center point"@,
        ConstraintKind::Colinear => "Collinear"@,
        ConstraintKind::Midpoint => "Midpoint"@,
        ConstraintKind::Fixed => "Fixed"@,
        ConstraintKind::PointOnCurve => "Point on curve"@,
        ConstraintKind::EqualDistance => "Equal distance"@,
        ConstraintKind::Symmetric => "Symmetric"@,
        ConstraintKind::Diameter => "Diameter"@,
        ConstraintKind::DistanceX => "Horizontal distance"@,
        ConstraintKind::DistanceY => "Vertical distance"@,
        ConstraintKind::DistanceDirected => "Directed distance"@,
        ConstraintKind::Normal => "Normal"@,
        ConstraintKind::RigidSet => "Rigid set"@,
    }
}

/// The short symbol a constraint glyph shows.
pub open spec fn spec_glyph_symbol(kind: ConstraintKind) -> Seq<char> {
    match kind {
        ConstraintKind::Coincident => "\u{2261}"@,
        ConstraintKind::Horizontal => "\u{2014}"@,
        ConstraintKind::Vertical => "\u{2502}"@,
        ConstraintKind::Parallel => "\u{2225}"@,
        ConstraintKind::Perpendicular => "\u{22A5}"@,
        ConstraintKind::Equal => "="@,
        ConstraintKind::Distance => "\u{2194}"@,
        ConstraintKind::Angle => "\u{2220}"@,
        ConstraintKind::Angle3Point => "\u{2220}\u{2083}"@,
        ConstraintKind::Radius => "R"@,
        ConstraintKind::Tangent => "T"@,
        ConstraintKind::Smooth => "G\u{B2}"@,
        ConstraintKind::Concentric => "\u{25CE}"@,
        ConstraintKind::CenterPoint => "\u{2295}"@,
        ConstraintKind::Colinear => "L"@,
        ConstraintKind::Midpoint => "M"@,
        ConstraintKind::Fixed => "F"@,
        ConstraintKind::PointOnCurve => "\u{2208}"@,
        ConstraintKind::EqualDistance => "\u{2250}"@,
        ConstraintKind::Symmetric => "S"@,
        ConstraintKind::Diameter => "\u{2300}"@,
        ConstraintKind::DistanceX => "\u{2194}\u{2093}"@,
        ConstraintKind::DistanceY => "\u{2194}\u{1D67}"@,
        ConstraintKind::DistanceDirected => "\u{2197}"@,
        ConstraintKind::Normal => "\u{22BE}"@,
        ConstraintKind::RigidSet => "\u{25A3}"@,
    }
}

impl ConstraintKind {
    /// Per-kind visibility bit used by CONSTRAINTBARMODE for the standard
    /// geometric-constraint family. Helper relations which have no standard
    /// bit stay visible under the normal display policy.
    pub fn bar_mode_bit(self) -> (r: Option<i16>)
        ensures
            r == spec_bar_mode_bit(self),
    {
        match self {
            ConstraintKind::Horizontal => Some(1),
            ConstraintKind::Vertical => Some(2),
            ConstraintKind::Perpendicular => Some(4),
            ConstraintKind::Parallel => Some(8),
            ConstraintKind::Tangent => Some(16),
            ConstraintKind::Smooth => Some(32),
            ConstraintKind::Coincident => Some(64),
            ConstraintKind::Concentric => Some(128),
            ConstraintKind::Colinear => Some(256),
            ConstraintKind::Symmetric => Some(512),
            ConstraintKind::Equal => Some(1024),
            ConstraintKind::Fixed => Some(2048),
            _ => None,
        }
    }

    pub fn label(self) -> (r: &'static str)
        ensures
            r@ == spec_label(self),
    {
        match self {
            ConstraintKind::Coincident => "Coincident",
            ConstraintKind::Horizontal => "Horizontal",
            ConstraintKind::Vertical => "Vertical",
            ConstraintKind::Parallel => "Parallel",
            ConstraintKind::Perpendicular => "Perpendicular",
            ConstraintKind::Equal => "Equal",
            ConstraintKind::Distance => "Distance",
            ConstraintKind::Angle => "Angle",
            ConstraintKind::Angle3Point => "3-point angle",
            ConstraintKind::Radius => "Radius",
            ConstraintKind::Tangent => "Tangent",
            ConstraintKind::Smooth => "Smooth",
            ConstraintKind::Concentric => "Concentric",
            ConstraintKind::CenterPoint => "Center point",
            ConstraintKind::Colinear => "Collinear",
            ConstraintKind::Midpoint => "Midpoint",
            ConstraintKind::Fixed => "Fixed",
            ConstraintKind::PointOnCurve => "Point on curve",
            ConstraintKind::EqualDistance => "Equal distance",
            ConstraintKind::Symmetric => "Symmetric",
            ConstraintKind::Diameter => "Diameter",
            ConstraintKind::DistanceX => "Horizontal distance",
            ConstraintKind::DistanceY => "Vertical distance",
            ConstraintKind::DistanceDirected => "Directed distance",
            ConstraintKind::Normal => "Normal",
            ConstraintKind::RigidSet => "Rigid set",
        }
    }

    /// The short symbol a constraint glyph shows.
    pub fn glyph_symbol(&self) -> (r: &'static str)
        ensures
            r@ == spec_glyph_symbol(*self),
    {
        match self {
            ConstraintKind::Coincident => "\u{2261}",
            ConstraintKind::Horizontal => "\u{2014}",
            ConstraintKind::Vertical => "\u{2502}",
            ConstraintKind::Parallel => "\u{2225}",
            ConstraintKind::Perpendicular => "\u{22A5}",
            ConstraintKind::Equal => "=",
            ConstraintKind::Distance => "\u{2194}",
            ConstraintKind::Angle => "\u{2220}",
            ConstraintKind::Angle3Point => "\u{2220}\u{2083}",
            ConstraintKind::Radius => "R",
            ConstraintKind::Tangent => "T",
            ConstraintKind::Smooth => "G\u{B2}",
            ConstraintKind::Concentric => "\u{25CE}",
            ConstraintKind::CenterPoint => "\u{2295}",
            ConstraintKind::Colinear => "L",
            ConstraintKind::Midpoint => "M",
            ConstraintKind::Fixed => "F",
            ConstraintKind::PointOnCurve => "\u{2208}",
            ConstraintKind::EqualDistance => "\u{2250}",
            ConstraintKind::Symmetric => "S",
            ConstraintKind::Diameter => "\u{2300}",
            ConstraintKind::DistanceX => "\u{2194}\u{2093}",
            ConstraintKind::DistanceY => "\u{2194}\u{1D67}",
            ConstraintKind::DistanceDirected => "\u{2197}",
            ConstraintKind::Normal => "\u{22BE}",
            ConstraintKind::RigidSet => "\u{25A3}",
        }
    }
}

/// The glyph of a Fixed constraint that holds one addressable point.
pub const FIXED_POINT_GLYPH: &'static str = "F\u{B7}";

/// The glyph of a Vertical constraint between two points.
pub const VERTICAL_POINTS_GLYPH: &'static str = "\u{2502}\u{B7}";

/// A Fixed glyph: the point variant when the first reference is a point
/// (a marker that is no polyline segment), the plain symbol otherwise.
pub open spec fn spec_fixed_glyph_label(refs: Seq<ParametricRef>) -> Seq<char> {
    if refs.len() > 0 && refs[0].marker is Some && spec_segment_index(refs[0]) is None {
        FIXED_POINT_GLYPH@
    } else {
        spec_glyph_symbol(ConstraintKind::Fixed)
    }
}

/// A Vertical glyph: the two-point variant for a relation of two
/// references, the plain symbol otherwise.
pub open spec fn spec_vertical_glyph_label(refs: Seq<ParametricRef>) -> Seq<char> {
    if refs.len() == 2 {
        VERTICAL_POINTS_GLYPH@
    } else {
        spec_glyph_symbol(ConstraintKind::Vertical)
    }
}

/// The glyph text of a Fixed constraint.
pub fn fixed_glyph_label(constraint: &ParametricConstraint) -> (r: &'static str)
    ensures
        r@ == spec_fixed_glyph_label(constraint.refs@),
{
    let point = constraint.refs.len() > 0 && constraint.refs[0].marker.is_some()
        && constraint.refs[0].segment_index().is_none();
    if point {
        FIXED_POINT_GLYPH
    } else {
        ConstraintKind::Fixed.glyph_symbol()
    }
}

/// The glyph text of a Vertical constraint.
pub fn vertical_glyph_label(constraint: &ParametricConstraint) -> (r: &'static str)
    ensures
        r@ == spec_vertical_glyph_label(constraint.refs@),
{
    if constraint.refs.len() == 2 {
        VERTICAL_POINTS_GLYPH
    } else {
        ConstraintKind::Vertical.glyph_symbol()
    }
}

/// The glyph label of a coincidence or a point on a curve.
pub open spec fn spec_glyph_is_compact(label: Seq<char>) -> bool {
    label == "\u{2261}"@ || label == "\u{2208}"@
}

/// A Fixed glyph label, either variant.
pub open spec fn spec_glyph_is_fixed(label: Seq<char>) -> bool {
    label == "F"@ || label == FIXED_POINT_GLYPH@
}

/// A Vertical glyph label, either variant.
pub open spec fn spec_glyph_is_vertical(label: Seq<char>) -> bool {
    label == "\u{2502}"@ || label == VERTICAL_POINTS_GLYPH@
}

/// A glyph drawn as a small square (coincident, point on curve).
pub fn glyph_is_compact(label: &str) -> (r: bool)
    ensures
        r == spec_glyph_is_compact(label@),
{
    str_equal(label, "\u{2261}") || str_equal(label, "\u{2208}")
}

/// A Fixed glyph, either variant.
pub fn glyph_is_fixed(label: &str) -> (r: bool)
    ensures
        r == spec_glyph_is_fixed(label@),
{
    str_equal(label, "F") || str_equal(label, FIXED_POINT_GLYPH)
}

/// A Vertical glyph, either variant.
pub fn glyph_is_vertical(label: &str) -> (r: bool)
    ensures
        r == spec_glyph_is_vertical(label@),
{
    str_equal(label, "\u{2502}") || str_equal(label, VERTICAL_POINTS_GLYPH)
}

/// Every label a Fixed glyph is drawn with is recognised as a Fixed glyph,
/// and every Vertical label as a Vertical glyph.
pub proof fn lemma_glyph_labels_recognised(refs: Seq<ParametricRef>)
    ensures
        spec_glyph_is_fixed(spec_fixed_glyph_label(refs)),
        spec_glyph_is_vertical(spec_vertical_glyph_label(refs)),
{
}

/// The kind whose glyph shows symbol `s`, read character by character.
pub open spec fn symbol_kind(s: Seq<char>) -> Option<ConstraintKind> {
    if s.len() == 1 && s[0] == '\u{2261}' {
        Some(ConstraintKind::Coincident)
    } else if s.len() == 1 && s[0] == '\u{2014}' {
        Some(ConstraintKind::Horizontal)
    } else if s.len() == 1 && s[0] == '\u{2502}' {
        Some(ConstraintKind::Vertical)
    } else if s.len() == 1 && s[0] == '\u{2225}' {
        Some(ConstraintKind::Parallel)
    } else if s.len() == 1 && s[0] == '\u{22A5}' {
        Some(ConstraintKind::Perpendicular)
    } else if s.len() == 1 && s[0] == '=' {
        Some(ConstraintKind::Equal)
    } else if s.len() == 1 && s[0] == '\u{2194}' {
        Some(ConstraintKind::Distance)
    } else if s.len() == 1 && s[0] == '\u{2220}' {
        Some(ConstraintKind::Angle)
    } else if s.len() == 2 && s[0] == '\u{2220}' && s[1] == '\u{2083}' {
        Some(ConstraintKind::Angle3Point)
    } else if s.len() == 1 && s[0] == 'R' {
        Some(ConstraintKind::Radius)
    } else if s.len() == 1 && s[0] == 'T' {
        Some(ConstraintKind::Tangent)
    } else if s.len() == 2 && s[0] == 'G' && s[1] == '\u{B2}' {
        Some(ConstraintKind::Smooth)
    } else if s.len() == 1 && s[0] == '\u{25CE}' {
        Some(ConstraintKind::Concentric)
    } else if s.len() == 1 && s[0] == '\u{2295}' {
        Some(ConstraintKind::CenterPoint)
    } else if s.len() == 1 && s[0] == 'L' {
        Some(ConstraintKind::Colinear)
    } else if s.len() == 1 && s[0] == 'M' {
        Some(ConstraintKind::Midpoint)
    } else if s.len() == 1 && s[0] == 'F' {
        Some(ConstraintKind::Fixed)
    } else if s.len() == 1 && s[0] == '\u{2208}' {
        Some(ConstraintKind::PointOnCurve)
    } else if s.len() == 1 && s[0] == '\u{2250}' {
        Some(ConstraintKind::EqualDistance)
    } else if s.len() == 1 && s[0] == 'S' {
        Some(ConstraintKind::Symmetric)
    } else if s.len() == 1 && s[0] == '\u{2300}' {
        Some(ConstraintKind::Diameter)
    } else if s.len() == 2 && s[0] == '\u{2194}' && s[1] == '\u{2093}' {
        Some(ConstraintKind::DistanceX)
    } else if s.len() == 2 && s[0] == '\u{2194}' && s[1] == '\u{1D67}' {
        Some(ConstraintKind::DistanceY)
    } else if s.len() == 1 && s[0] == '\u{2197}' {
        Some(ConstraintKind::DistanceDirected)
    } else if s.len() == 1 && s[0] == '\u{22BE}' {
        Some(ConstraintKind::Normal)
    } else if s.len() == 1 && s[0] == '\u{25A3}' {
        Some(ConstraintKind::RigidSet)
    } else {
        None
    }
}

/// The kind whose user-facing name is `s`, told apart by its length and
/// first three characters.
pub open spec fn label_kind(s: Seq<char>) -> Option<ConstraintKind> {
    if s.len() == 10 && s[0] == 'C' && s[1] == 'o' && s[2] == 'i' {
        Some(ConstraintKind::Coincident)
    } else if s.len() == 10 && s[0] == 'H' && s[1] == 'o' && s[2] == 'r' {
        Some(ConstraintKind::Horizontal)
    } else if s.len() == 8 && s[0] == 'V' && s[1] == 'e' && s[2] == 'r' {
        Some(ConstraintKind::Vertical)
    } else if s.len() == 8 && s[0] == 'P' && s[1] == 'a' && s[2] == 'r' {
        Some(ConstraintKind::Parallel)
    } else if s.len() == 13 && s[0] == 'P' && s[1] == 'e' && s[2] == 'r' {
        Some(ConstraintKind::Perpendicular)
    } else if s.len() == 5 && s[0] == 'E' && s[1] == 'q' && s[2] == 'u' {
        Some(ConstraintKind::Equal)
    } else if s.len() == 8 && s[0] == 'D' && s[1] == 'i' && s[2] == 's' {
        Some(ConstraintKind::Distance)
    } else if s.len() == 5 && s[0] == 'A' && s[1] == 'n' && s[2] == 'g' {
        Some(ConstraintKind::Angle)
    } else if s.len() == 13 && s[0] == '3' && s[1] == '-' && s[2] == 'p' {
        Some(ConstraintKind::Angle3Point)
    } else if s.len() == 6 && s[0] == 'R' && s[1] == 'a' && s[2] == 'd' {
        Some(ConstraintKind::Radius)
    } else if s.len() == 7 && s[0] == 'T' && s[1] == 'a' && s[2] == 'n' {
        Some(ConstraintKind::Tangent)
    } else if s.len() == 6 && s[0] == 'S' && s[1] == 'm' && s[2] == 'o' {
        Some(ConstraintKind::Smooth)
    } else if s.len() == 10 && s[0] == 'C' && s[1] == 'o' && s[2] == 'n' {
        Some(ConstraintKind::Concentric)
    } else if s.len() == 12 && s[0] == 'C' && s[1] == 'e' && s[2] == 'n' {
        Some(ConstraintKind::CenterPoint)
    } else if s.len() == 9 && s[0] == 'C' && s[1] == 'o' && s[2] == 'l' {
        Some(ConstraintKind::Colinear)
    } else if s.len() == 8 && s[0] == 'M' && s[1] == 'i' && s[2] == 'd' {
        Some(ConstraintKind::Midpoint)
    } else if s.len() == 5 && s[0] == 'F' && s[1] == 'i' && s[2] == 'x' {
        Some(ConstraintKind::Fixed)
    } else if s.len() == 14 && s[0] == 'P' && s[1] == 'o' && s[2] == 'i' {
        Some(ConstraintKind::PointOnCurve)
    } else if s.len() == 14 && s[0] == 'E' && s[1] == 'q' && s[2] == 'u' {
        Some(ConstraintKind::EqualDistance)
    } else if s.len() == 9 && s[0] == 'S' && s[1] == 'y' && s[2] == 'm' {
        Some(ConstraintKind::Symmetric)
    } else if s.len() == 8 && s[0] == 'D' && s[1] == 'i' && s[2] == 'a' {
        Some(ConstraintKind::Diameter)
    } else if s.len() == 19 && s[0] == 'H' && s[1] == 'o' && s[2] == 'r' {
        Some(ConstraintKind::DistanceX)
    } else if s.len() == 17 && s[0] == 'V' && s[1] == 'e' && s[2] == 'r' {
        Some(ConstraintKind::DistanceY)
    } else if s.len() == 17 && s[0] == 'D' && s[1] == 'i' && s[2] == 'r' {
        Some(ConstraintKind::DistanceDirected)
    } else if s.len() == 6 && s[0] == 'N' && s[1] == 'o' && s[2] == 'r' {
        Some(ConstraintKind::Normal)
    } else if s.len() == 9 && s[0] == 'R' && s[1] == 'i' && s[2] == 'g' {
        Some(ConstraintKind::RigidSet)
    } else {
        None
    }
}

proof fn lemma_symbol_and_label_decode(k: ConstraintKind)
    ensures
        symbol_kind(spec_glyph_symbol(k)) == Some(k),
        label_kind(spec_label(k)) == Some(k),
{
    match k {
        ConstraintKind::Coincident => {
            reveal_strlit("\u{2261}");
            reveal_strlit("Coincident");
        },
        ConstraintKind::Horizontal => {
            reveal_strlit("\u{2014}");
            reveal_strlit("Horizontal");
        },
        ConstraintKind::Vertical => {
            reveal_strlit("\u{2502}");
            reveal_strlit("Vertical");
        },
        ConstraintKind::Parallel => {
            reveal_strlit("\u{2225}");
            reveal_strlit("Parallel");
        },
        ConstraintKind::Perpendicular => {
            reveal_strlit("\u{22A5}");
            reveal_strlit("Perpendicular");
        },
        ConstraintKind::Equal => {
            reveal_strlit("=");
            reveal_strlit("Equal");
        },
        ConstraintKind::Distance => {
            reveal_strlit("\u{2194}");
            reveal_strlit("Distance");
        },
        ConstraintKind::Angle => {
            reveal_strlit("\u{2220}");
            reveal_strlit("Angle");
        },
        ConstraintKind::Angle3Point => {
            reveal_strlit("\u{2220}\u{2083}");
            reveal_strlit("3-point angle");
        },
        ConstraintKind::Radius => {
            reveal_strlit("R");
            reveal_strlit("Radius");
        },
        ConstraintKind::Tangent => {
            reveal_strlit("T");
            reveal_strlit("Tangent");
        },
        ConstraintKind::Smooth => {
            reveal_strlit("G\u{B2}");
            reveal_strlit("Smooth");
        },
        ConstraintKind::Concentric => {
            reveal_strlit("\u{25CE}");
            reveal_strlit("Concentric");
        },
        ConstraintKind::CenterPoint => {
            reveal_strlit("\u{2295}");
            reveal_strlit("Center point");
        },
        ConstraintKind::Colinear => {
            reveal_strlit("L");
            reveal_strlit("Collinear");
        },
        ConstraintKind::Midpoint => {
            reveal_strlit("M");
            reveal_strlit("Midpoint");
        },
        ConstraintKind::Fixed => {
            reveal_strlit("F");
            reveal_strlit("Fixed");
        },
        ConstraintKind::PointOnCurve => {
            reveal_strlit("\u{2208}");
            reveal_strlit("Point on curve");
        },
        ConstraintKind::EqualDistance => {
            reveal_strlit("\u{2250}");
            reveal_strlit("Equal distance");
        },
        ConstraintKind::Symmetric => {
            reveal_strlit("S");
            reveal_strlit("Symmetric");
        },
        ConstraintKind::Diameter => {
            reveal_strlit("\u{2300}");
            reveal_strlit("Diameter");
        },
        ConstraintKind::DistanceX => {
            reveal_strlit("\u{2194}\u{2093}");
            reveal_strlit("Horizontal distance");
        },
        ConstraintKind::DistanceY => {
            reveal_strlit("\u{2194}\u{1D67}");
            reveal_strlit("Vertical distance");
        },
        ConstraintKind::DistanceDirected => {
            reveal_strlit("\u{2197}");
            reveal_strlit("Directed distance");
        },
        ConstraintKind::Normal => {
            reveal_strlit("\u{22BE}");
            reveal_strlit("Normal");
        },
        ConstraintKind::RigidSet => {
            reveal_strlit("\u{25A3}");
            reveal_strlit("Rigid set");
        },
    }
}

/// Each kind has a glyph symbol and a user-facing name of its own, and the
/// glyph tests pick out exactly their kinds: the compact test Coincident and
/// Point on curve, the Fixed test Fixed, the Vertical test Vertical.
pub proof fn lemma_glyphs_identify_kinds(a: ConstraintKind, b: ConstraintKind)
    ensures
        a != b ==> spec_glyph_symbol(a) != spec_glyph_symbol(b),
        a != b ==> spec_label(a) != spec_label(b),
        spec_glyph_is_compact(spec_glyph_symbol(a)) <==> (a == ConstraintKind::Coincident || a
            == ConstraintKind::PointOnCurve),
        spec_glyph_is_fixed(spec_glyph_symbol(a)) <==> a == ConstraintKind::Fixed,
        spec_glyph_is_vertical(spec_glyph_symbol(a)) <==> a == ConstraintKind::Vertical,
{
    lemma_symbol_and_label_decode(a);
    lemma_symbol_and_label_decode(b);
    lemma_symbol_and_label_decode(ConstraintKind::Coincident);
    lemma_symbol_and_label_decode(ConstraintKind::PointOnCurve);
    lemma_symbol_and_label_decode(ConstraintKind::Fixed);
    lemma_symbol_and_label_decode(ConstraintKind::Vertical);
    reveal_strlit("F\u{B7}");
    reveal_strlit("\u{2502}\u{B7}");
    assert(symbol_kind(FIXED_POINT_GLYPH@) is None);
    assert(symbol_kind(VERTICAL_POINTS_GLYPH@) is None);
}

/// Every kind with a CONSTRAINTBARMODE bit has a distinct single bit inside
/// the twelve-bit mask 4095.
pub proof fn lemma_bar_mode_bits_distinct_single_bits(a: ConstraintKind, b: ConstraintKind)
    ensures
        spec_bar_mode_bit(a) matches Some(bit) ==> 0 < bit <= 2048 && bit & (bit - 1) as i16 == 0
            && bit & 4095 == bit,
        spec_bar_mode_bit(a) matches Some(x) ==> (spec_bar_mode_bit(b) matches Some(y) ==> ((x
            == y <==> a == b) && (a != b ==> x & y == 0))),
{
    match spec_bar_mode_bit(a) {
        Some(x) => {
            assert(x == 1 || x == 2 || x == 4 || x == 8 || x == 16 || x == 32 || x == 64 || x
                == 128 || x == 256 || x == 512 || x == 1024 || x == 2048);
            assert((x == 1 || x == 2 || x == 4 || x == 8 || x == 16 || x == 32 || x == 64 || x
                == 128 || x == 256 || x == 512 || x == 1024 || x == 2048) ==> (x & (x - 1) as i16
                == 0 && x & 4095 == x)) by (bit_vector);
            match spec_bar_mode_bit(b) {
                Some(y) => {
                    assert(y == 1 || y == 2 || y == 4 || y == 8 || y == 16 || y == 32 || y == 64
                        || y == 128 || y == 256 || y == 512 || y == 1024 || y == 2048);
                    assert((x == 1 || x == 2 || x == 4 || x == 8 || x == 16 || x == 32 || x == 64
                        || x == 128 || x == 256 || x == 512 || x == 1024 || x == 2048) && (y == 1
                        || y == 2 || y == 4 || y == 8 || y == 16 || y == 32 || y == 64 || y == 128
                        || y == 256 || y == 512 || y == 1024 || y == 2048) && x != y ==> x & y
                        == 0) by (bit_vector);
                },
                None => {},
            }
        },
        None => {},
    }
}

/// One of the twelve bits of the CONSTRAINTBARMODE mask 4095.
pub open spec fn is_bar_mask_bit(x: i16) -> bool {
    x == 1 || x == 2 || x == 4 || x == 8 || x == 16 || x == 32 || x == 64 || x == 128 || x == 256
        || x == 512 || x == 1024 || x == 2048
}

/// The CONSTRAINTBARMODE bits of the kinds together make up the whole mask
/// 4095: each of its twelve bits is some kind's bit, and under the mask 4095
/// every kind with a bit shows.
pub proof fn lemma_bar_mode_bits_cover_mask()
    ensures
        forall|x: i16|
            #[trigger] is_bar_mask_bit(x) ==> exists|k: ConstraintKind|
                #[trigger] spec_bar_mode_bit(k) == Some(x),
        forall|k: ConstraintKind|
            #[trigger] spec_bar_mode_bit(k) is Some ==> 4095i16 & spec_bar_mode_bit(k)->0 != 0,
{
    assert forall|x: i16| #[trigger] is_bar_mask_bit(x) implies exists|k: ConstraintKind|
            #[trigger] spec_bar_mode_bit(k) == Some(x) by {
        if x == 1 {
            assert(spec_bar_mode_bit(ConstraintKind::Horizontal) == Some(x));
        } else if x == 2 {
            assert(spec_bar_mode_bit(ConstraintKind::Vertical) == Some(x));
        } else if x == 4 {
            assert(spec_bar_mode_bit(ConstraintKind::Perpendicular) == Some(x));
        } else if x == 8 {
            assert(spec_bar_mode_bit(ConstraintKind::Parallel) == Some(x));
        } else if x == 16 {
            assert(spec_bar_mode_bit(ConstraintKind::Tangent) == Some(x));
        } else if x == 32 {
            assert(spec_bar_mode_bit(ConstraintKind::Smooth) == Some(x));
        } else if x == 64 {
            assert(spec_bar_mode_bit(ConstraintKind::Coincident) == Some(x));
        } else if x == 128 {
            assert(spec_bar_mode_bit(ConstraintKind::Concentric) == Some(x));
        } else if x == 256 {
            assert(spec_bar_mode_bit(ConstraintKind::Colinear) == Some(x));
        } else if x == 512 {
            assert(spec_bar_mode_bit(ConstraintKind::Symmetric) == Some(x));
        } else if x == 1024 {
            assert(spec_bar_mode_bit(ConstraintKind::Equal) == Some(x));
        } else {
            assert(spec_bar_mode_bit(ConstraintKind::Fixed) == Some(x));
        }
    }
    assert forall|k: ConstraintKind| #[trigger] spec_bar_mode_bit(k) is Some implies 4095i16
        & spec_bar_mode_bit(k)->0 != 0 by {
        if let Some(b) = spec_bar_mode_bit(k) {
            assert(b == 1 || b == 2 || b == 4 || b == 8 || b == 16 || b == 32 || b == 64 || b
                == 128 || b == 256 || b == 512 || b == 1024 || b == 2048);
            assert((b == 1 || b == 2 || b == 4 || b == 8 || b == 16 || b == 32 || b == 64 || b
                == 128 || b == 256 || b == 512 || b == 1024 || b == 2048) ==> 4095i16 & b != 0)
                by (bit_vector);
        }
    }
}

/// The value driving a dimensional constraint: a literal number (as its
/// `f64` bit pattern) or a named parameter.
#[derive(Debug, PartialEq)]
pub enum DrivingValue {
    Literal(u64),
    Named(String),
}

impl DrivingValue {
    /// A copy of this value.
    pub fn duplicate(&self) -> (r: Self)
        ensures
            r == *self,
    {
        match self {
            DrivingValue::Literal(v) => DrivingValue::Literal(*v),
            DrivingValue::Named(n) => DrivingValue::Named(n.clone()),
        }
    }
}

/// A copy of an optional driving value.
pub fn duplicate_driving_param(v: &Option<DrivingValue>) -> (r: Option<DrivingValue>)
    ensures
        r == *v,
{
    match v {
        Some(d) => Some(d.duplicate()),
        None => None,
    }
}

pub const DISTANCE_DIRECTION_UNDIRECTED: u8 = 0;

pub const ANGLE_SECTOR_PARALLEL_COUNTERCLOCKWISE: u8 = 0;

#[derive(Debug, Clone, Copy, PartialEq, Eq)]
pub struct NativeConstraintOrigin {
    pub group: Handle,
    pub node: i32,
}

/// One runtime constraint: a [`ConstraintKind`], the entities/points it
/// relates, and, for a dimensional kind, the value driving it.
#[derive(Debug)]
pub struct ParametricConstraint {
    pub id: ConstraintId,
    pub kind: ConstraintKind,
    pub refs: Vec<ParametricRef>,
    /// The target for a dimensional constraint; `None` for every purely
    /// geometric kind.
    pub driving_param: Option<DrivingValue>,
    /// A disabled constraint is kept but skipped by a re-solve.
    pub enabled: bool,
    /// Standard graph node retained in place.
    pub native_origin: Option<NativeConstraintOrigin>,
    /// Point positions captured for a standard rigid set.
    pub rigid_points: Vec<(ParametricRef, Vec3Bits)>,
    /// Standard distance direction mode and vector.
    pub distance_direction_type: u8,
    pub distance_direction: Option<Vec3Bits>,
    /// World-space datum direction captured for Horizontal/Vertical.
    pub axis_direction: Option<Vec3Bits>,
    /// Which of the four directed sectors an angular constraint measures.
    pub angle_sector: u8,
}

/// The vertex count and closedness of a 2D polyline.
#[derive(Clone, Copy, Debug, PartialEq, Eq)]
pub struct PolylineShape {
    pub vertex_count: usize,
    pub closed: bool,
}

/// Some parameter of `taken` is called `name`.
pub open spec fn name_taken(taken: Seq<String>, name: Seq<char>) -> bool {
    exists|i: int| 0 <= i < taken.len() && (#[trigger] taken[i])@ == name
}

/// `r` is `prefix` followed by the smallest number from 1 on, in decimal,
/// that gives a name no parameter of `taken` has.
pub open spec fn is_first_free_name(taken: Seq<String>, prefix: Seq<char>, r: Seq<char>) -> bool {
    exists|n: nat|
        {
            &&& n >= 1
            &&& r == prefix + decimal(n)
            &&& !name_taken(taken, r)
            &&& forall|m: nat| 1 <= m < n ==> name_taken(taken, prefix + #[trigger] decimal(m))
        }
}

fn is_taken(taken: &Vec<String>, name: &str) -> (r: bool)
    ensures
        r == name_taken(taken@, name@),
{
    let mut i: usize = 0;
    while i < taken.len()
        invariant
            i <= taken@.len(),
            forall|j: int| 0 <= j < i ==> (#[trigger] taken@[j])@ != name@,
        decreases taken@.len() - i,
    {
        if str_equal(taken[i].as_str(), name) {
            return true;
        }
        i = i + 1;
    }
    false
}

/// `prefix1`, `prefix2`, … : the first of these names that `taken` does not
/// hold yet.
fn first_free_name(prefix: &str, taken: &Vec<String>) -> (r: String)
    ensures
        is_first_free_name(taken@, prefix@, r@),
{
    let len = taken.len();
    let mut k: usize = 0;
    loop
        invariant
            len == taken@.len(),
            k <= len,
            forall|m: nat| 1 <= m <= k ==> name_taken(taken@, prefix@ + #[trigger] decimal(m)),
        decreases len - k,
    {
        let mut cand = prefix.to_owned();
        push_decimal(&mut cand, k as u128 + 1);
        if !is_taken(taken, cand.as_str()) {
            return cand;
        }
        proof {
            let names = taken@.map_values(|t: String| t@);
            let cand_of = |m: nat| prefix@ + decimal(m + 1);
            assert forall|a: nat, b: nat| a < k + 1 && b < k + 1 && #[trigger] cand_of(a) == #[trigger] cand_of(b)
                implies a == b by {
                assert((prefix@ + decimal(a + 1)).skip(prefix@.len() as int) =~= decimal(a + 1));
                assert((prefix@ + decimal(b + 1)).skip(prefix@.len() as int) =~= decimal(b + 1));
                lemma_decimal_injective(a + 1, b + 1);
            }
            assert forall|m: nat| m < k + 1 implies names.contains(#[trigger] cand_of(m)) by {
                assert(name_taken(taken@, prefix@ + decimal(m + 1)));
                let i = choose|i: int| 0 <= i < taken@.len() && (#[trigger] taken@[i])@ == prefix@ + decimal(m + 1);
                assert(names[i] == cand_of(m));
            }
            lemma_distinct_candidates_fit(names, cand_of, (k + 1) as nat);
        }
        k = k + 1;
    }
}

/// The name a new linear dimensional constraint's parameter takes: the first
/// of `d1`, `d2`, … that no parameter in `taken` has.
pub fn next_dimensional_parameter_name(taken: &Vec<String>) -> (r: String)
    ensures
        is_first_free_name(taken@, seq!['d'], r@),
{
    let prefix = "d";
    proof {
        reveal_strlit("d");
        assert(prefix@ =~= seq!['d']);
    }
    first_free_name(prefix, taken)
}

/// The name a new radius (`rad1`, `rad2`, …) or diameter (`dia1`, `dia2`,
/// …) constraint's parameter takes: the first one `taken` does not have.
pub fn next_radial_parameter_name(taken: &Vec<String>, diameter: bool) -> (r: String)
    ensures
        is_first_free_name(
            taken@,
            if diameter {
                seq!['d', 'i', 'a']
            } else {
                seq!['r', 'a', 'd']
            },
            r@,
        ),
{
    let prefix = if diameter {
        "dia"
    } else {
        "rad"
    };
    proof {
        reveal_strlit("dia");
        reveal_strlit("rad");
        if diameter {
            assert(prefix@ =~= seq!['d', 'i', 'a']);
        } else {
            assert(prefix@ =~= seq!['r', 'a', 'd']);
        }
    }
    first_free_name(prefix, taken)
}

/// The name a new angular constraint's parameter takes: the first of
/// `ang1`, `ang2`, … that no parameter in `taken` has.
pub fn next_angular_parameter_name(taken: &Vec<String>) -> (r: String)
    ensures
        is_first_free_name(taken@, seq!['a', 'n', 'g'], r@),
{
    let prefix = "ang";
    proof {
        reveal_strlit("ang");
        assert(prefix@ =~= seq!['a', 'n', 'g']);
    }
    first_free_name(prefix, taken)
}

/// `marker` as a vertex index of `polyline`, wrapping the closing segment's
/// end (one past the last vertex) onto vertex 0 when the polyline is closed.
pub open spec fn spec_polyline_vertex_index(polyline: Option<PolylineShape>, marker: usize) -> Option<
    usize,
> {
    match polyline {
        Some(p) => Some(
            if p.closed && marker == p.vertex_count && p.vertex_count > 0 {
                0
            } else {
                marker
            },
        ),
        None => None,
    }
}

/// `marker` as a vertex index of a 2D polyline (`None` for anything that is
/// not one): the closing segment's end names vertex 0 on a closed polyline.
pub fn polyline_vertex_index(polyline: Option<PolylineShape>, marker: usize) -> (r: Option<usize>)
    ensures
        r == spec_polyline_vertex_index(polyline, marker),
{
    match polyline {
        Some(p) => Some(
            if p.closed && marker == p.vertex_count && p.vertex_count > 0 {
                0
            } else {
                marker
            },
        ),
        None => None,
    }
}

/// A constraint scope: model space or one block definition.
#[derive(Debug, Clone, Copy, PartialEq, Eq, Hash)]
pub enum ParametricScope {
    ModelSpace,
    /// A block definition's block-record handle.
    Block(Handle),
}

impl ParametricScope {
    /// The owner handle under which this scope is persisted, given the
    /// drawing's model-space block handle.
    pub fn owner_handle(&self, model_space_block_handle: Handle) -> (r: Handle)
        ensures
            r == match *self {
                ParametricScope::ModelSpace => model_space_block_handle,
                ParametricScope::Block(h) => h,
            },
    {
        match self {
            ParametricScope::ModelSpace => model_space_block_handle,
            ParametricScope::Block(handle) => *handle,
        }
    }
}

/// Two scopes are the same scope.
pub fn same_scope(a: ParametricScope, b: ParametricScope) -> (r: bool)
    ensures
        r == (a == b),
{
    match (a, b) {
        (ParametricScope::ModelSpace, ParametricScope::ModelSpace) => true,
        (ParametricScope::Block(x), ParametricScope::Block(y)) => x == y,
        _ => false,
    }
}

/// Two references are the same reference.
pub fn same_ref(a: ParametricRef, b: ParametricRef) -> (r: bool)
    ensures
        r == (a == b),
{
    a.entity == b.entity && match (a.marker, b.marker) {
        (Some(x), Some(y)) => x == y,
        (None, None) => true,
        _ => false,
    }
}

/// Two kinds are the same kind.
pub fn same_kind(a: ConstraintKind, b: ConstraintKind) -> (r: bool)
    ensures
        r == (a == b),
{
    a == b
}

/// Two reference lists are equal element by element.
pub fn refs_equal(a: &[ParametricRef], b: &[ParametricRef]) -> (r: bool)
    ensures
        r == (a@ == b@),
{
    if a.len() != b.len() {
        return false;
    }
    let mut i: usize = 0;
    while i < a.len()
        invariant
            a@.len() == b@.len(),
            i <= a@.len(),
            forall|j: int| 0 <= j < i ==> a@[j] == b@[j],
        decreases a@.len() - i,
    {
        if !same_ref(a[i], b[i]) {
            return false;
        }
        i = i + 1;
    }
    assert(a@ =~= b@);
    true
}

/// The same references, or the same pair in the other order.
pub open spec fn spec_same_refs(a: Seq<ParametricRef>, b: Seq<ParametricRef>) -> bool {
    a == b || (a.len() == 2 && b.len() == 2 && a[0] == b[1] && a[1] == b[0])
}

/// The same references, or the same pair in the other order: how an
/// existing relation is recognised again.
pub fn same_refs(a: &[ParametricRef], b: &[ParametricRef]) -> (r: bool)
    ensures
        r == spec_same_refs(a@, b@),
{
    refs_equal(a, b) || (a.len() == 2 && b.len() == 2 && same_ref(a[0], b[1]) && same_ref(
        a[1],
        b[0],
    ))
}

/// Some reference of `refs` points at `entity`.
pub open spec fn refs_touch(refs: Seq<ParametricRef>, entity: Handle) -> bool {
    exists|i: int| 0 <= i < refs.len() && #[trigger] refs[i].entity == entity
}

/// Whether some reference of `refs` points at `entity`.
pub fn refs_touch_entity(refs: &[ParametricRef], entity: Handle) -> (r: bool)
    ensures
        r == refs_touch(refs@, entity),
{
    let mut i: usize = 0;
    while i < refs.len()
        invariant
            i <= refs@.len(),
            forall|j: int| 0 <= j < i ==> refs@[j].entity != entity,
        decreases refs@.len() - i,
    {
        if refs[i].entity == entity {
            return true;
        }
        i = i + 1;
    }
    false
}

/// A constraint that is enabled and references `entity`.
pub open spec fn touches_enabled(c: ParametricConstraint, entity: Handle) -> bool {
    c.enabled && refs_touch(c.refs@, entity)
}

/// The identifiers of `cs`, in order.
pub open spec fn ids_of(cs: Seq<ParametricConstraint>) -> Seq<ConstraintId> {
    cs.map_values(|c: ParametricConstraint| c.id)
}

/// A freshly added constraint: enabled, with every native, rigid, direction
/// and sector field at its default.
pub open spec fn is_fresh_constraint(
    c: ParametricConstraint,
    id: ConstraintId,
    kind: ConstraintKind,
    refs: Seq<ParametricRef>,
    driving_param: Option<DrivingValue>,
) -> bool {
    &&& c.id == id
    &&& c.kind == kind
    &&& c.refs@ == refs
    &&& c.driving_param == driving_param
    &&& c.enabled
    &&& c.native_origin is None
    &&& c.rigid_points@.len() == 0
    &&& c.distance_direction_type == DISTANCE_DIRECTION_UNDIRECTED
    &&& c.distance_direction is None
    &&& c.axis_direction is None
    &&& c.angle_sector == ANGLE_SECTOR_PARALLEL_COUNTERCLOCKWISE
}

/// Every constraint decoded from one graph scope. Solver state is rebuilt
/// on demand and is not stored here.
#[derive(Debug)]
pub struct ParametricConstraintSet {
    pub scope: ParametricScope,
    pub constraints: Vec<ParametricConstraint>,
    /// The id the next added constraint receives; above every id in use.
    pub next_id: ConstraintId,
    pub retained_standard_groups: Vec<Handle>,
    /// The dynamic dimension that shows a dimensional constraint, by id.
    pub dimensions: HashMap<ConstraintId, Handle>,
    /// Cached total remaining degrees of freedom from the last resolve.
    pub dof: Option<usize>,
}

impl ParametricConstraintSet {
    /// The id the next added constraint receives.
    pub open spec fn next_id(&self) -> ConstraintId {
        self.next_id
    }

    /// Every id is below [`Self::next_id`], and no two constraints share one.
    pub open spec fn wf(&self) -> bool {
        &&& forall|i: int|
            0 <= i < self.constraints@.len() ==> #[trigger] self.constraints@[i].id
                < self.next_id()
        &&& forall|i: int, j: int|
            0 <= i < j < self.constraints@.len() ==> #[trigger] self.constraints@[i].id
                != #[trigger] self.constraints@[j].id
    }

    pub fn new(scope: ParametricScope) -> (r: Self)
        ensures
            r.scope == scope,
            r.constraints@.len() == 0,
            r.next_id() == 0,
            r.retained_standard_groups@.len() == 0,
            r.dimensions@ == Map::<ConstraintId, Handle>::empty(),
            r.dof is None,
            r.wf(),
    {
        Self {
            scope,
            constraints: Vec::new(),
            next_id: 0,
            retained_standard_groups: Vec::new(),
            dimensions: HashMap::new(),
            dof: None,
        }
    }

    /// Appends a constraint, assigning it a fresh id unique within this set.
    pub fn add(
        &mut self,
        kind: ConstraintKind,
        refs: Vec<ParametricRef>,
        driving_param: Option<DrivingValue>,
    ) -> (id: ConstraintId)
        requires
            old(self).wf(),
            old(self).next_id() < u32::MAX,
        ensures
            id == old(self).next_id(),
            final(self).next_id() == id + 1,
            final(self).wf(),
            forall|i: int|
                0 <= i < old(self).constraints@.len() ==> #[trigger] old(
                    self,
                ).constraints@[i].id != id,
            final(self).constraints@.len() == old(self).constraints@.len() + 1,
            final(self).constraints@.take(old(self).constraints@.len() as int) == old(
                self,
            ).constraints@,
            is_fresh_constraint(
                final(self).constraints@.last(),
                id,
                kind,
                refs@,
                driving_param,
            ),
            final(self).scope == old(self).scope,
            final(self).dimensions@ == old(self).dimensions@,
            final(self).retained_standard_groups@ == old(self).retained_standard_groups@,
            final(self).dof == old(self).dof,
    {
        let id = self.next_id;
        self.next_id = self.next_id + 1;
        self.constraints.push(
            ParametricConstraint {
                id,
                kind,
                refs,
                driving_param,
                enabled: true,
                native_origin: None,
                rigid_points: Vec::new(),
                distance_direction_type: DISTANCE_DIRECTION_UNDIRECTED,
                distance_direction: None,
                axis_direction: None,
                angle_sector: ANGLE_SECTOR_PARALLEL_COUNTERCLOCKWISE,
            },
        );
        assert(self.constraints@.take(old(self).constraints@.len() as int) =~= old(
            self,
        ).constraints@);
        id
    }

    /// Appends a Horizontal/Vertical constraint tied to an explicit datum
    /// direction, given as the bit pattern of the normalised direction.
    pub fn add_axis_constraint(
        &mut self,
        kind: ConstraintKind,
        refs: Vec<ParametricRef>,
        direction: Vec3Bits,
    ) -> (id: ConstraintId)
        requires
            old(self).wf(),
            old(self).next_id() < u32::MAX,
        ensures
            id == old(self).next_id(),
            final(self).next_id() == id + 1,
            final(self).wf(),
            forall|i: int|
                0 <= i < old(self).constraints@.len() ==> #[trigger] old(
                    self,
                ).constraints@[i].id != id,
            final(self).constraints@.len() == old(self).constraints@.len() + 1,
            final(self).constraints@.take(old(self).constraints@.len() as int) == old(
                self,
            ).constraints@,
            ({
                let c = final(self).constraints@.last();
                &&& c.id == id
                &&& c.kind == kind
                &&& c.refs@ == refs@
                &&& c.driving_param is None
                &&& c.enabled
                &&& c.axis_direction == Some(direction)
                &&& c.native_origin is None
                &&& c.rigid_points@.len() == 0
                &&& c.distance_direction_type == DISTANCE_DIRECTION_UNDIRECTED
                &&& c.distance_direction is None
                &&& c.angle_sector == ANGLE_SECTOR_PARALLEL_COUNTERCLOCKWISE
            }),
            final(self).scope == old(self).scope,
            final(self).dimensions@ == old(self).dimensions@,
            final(self).retained_standard_groups@ == old(self).retained_standard_groups@,
            final(self).dof == old(self).dof,
    {
        let id = self.next_id;
        self.next_id = self.next_id + 1;
        self.constraints.push(
            ParametricConstraint {
                id,
                kind,
                refs,
                driving_param: None,
                enabled: true,
                native_origin: None,
                rigid_points: Vec::new(),
                distance_direction_type: DISTANCE_DIRECTION_UNDIRECTED,
                distance_direction: None,
                axis_direction: Some(direction),
                angle_sector: ANGLE_SECTOR_PARALLEL_COUNTERCLOCKWISE,
            },
        );
        assert(self.constraints@.take(old(self).constraints@.len() as int) =~= old(
            self,
        ).constraints@);
        id
    }

    /// Removes a constraint by id, and its dynamic-dimension entry. Returns
    /// whether a constraint was actually removed.
    pub fn remove(&mut self, id: ConstraintId) -> (removed: bool)
        requires
            old(self).wf(),
        ensures
            final(self).wf(),
            final(self).next_id() == old(self).next_id(),
            final(self).constraints@ == old(self).constraints@.filter(
                |c: ParametricConstraint| c.id != id,
            ),
            removed == exists|i: int|
                0 <= i < old(self).constraints@.len() && #[trigger] old(self).constraints@[i].id
                    == id,
            final(self).dimensions@ == old(self).dimensions@.remove(id),
            final(self).scope == old(self).scope,
            final(self).retained_standard_groups@ == old(self).retained_standard_groups@,
            final(self).dof == old(self).dof,
    {
        self.dimensions.remove(&id);
        let mut kept: Vec<ParametricConstraint> = Vec::new();
        let mut old_constraints: Vec<ParametricConstraint> = Vec::new();
        std::mem::swap(&mut old_constraints, &mut self.constraints);
        let ghost olds = old_constraints@;
        let ghost pred = |c: ParametricConstraint| c.id != id;
        let mut found = false;
        for c in it: old_constraints.into_iter()
            invariant
                it.seq() == olds,
                pred == (|c: ParametricConstraint| c.id != id),
                kept@ == olds.take(it.index() as int).filter(pred),
                found == exists|i: int| 0 <= i < it.index() && #[trigger] olds[i].id == id,
        {
            proof {
                let k = it.index() as int;
                assert(c == olds[k]);
                assert(olds.take(k + 1) =~= olds.take(k).push(olds[k]));
                olds.take(k).lemma_filter_push(olds[k], pred);
            }
            if c.id != id {
                kept.push(c);
            } else {
                found = true;
            }
        }
        proof {
            assert(olds.take(olds.len() as int) =~= olds);
        }
        self.constraints = kept;
        assert forall|i: int, j: int|
            0 <= i < j < self.constraints@.len() implies #[trigger] self.constraints@[i].id
            != #[trigger] self.constraints@[j].id by {
            lemma_filter_keeps_distinct_ids(olds, pred, i, j);
        }
        assert forall|i: int| 0 <= i < self.constraints@.len() implies #[trigger] self.constraints@[i].id
            < self.next_id() by {
            lemma_filter_member(olds, pred, i);
        }
        found
    }

    /// The constraint with `id`, if any.
    pub fn get(&self, id: ConstraintId) -> (r: Option<&ParametricConstraint>)
        ensures
            match r {
                Some(c) => exists|i: int|
                    0 <= i < self.constraints@.len() && self.constraints@[i] == *c && c.id == id
                        && forall|j: int| 0 <= j < i ==> self.constraints@[j].id != id,
                None => forall|i: int|
                    0 <= i < self.constraints@.len() ==> #[trigger] self.constraints@[i].id != id,
            },
    {
        let mut i: usize = 0;
        while i < self.constraints.len()
            invariant
                i <= self.constraints@.len(),
                forall|j: int| 0 <= j < i ==> #[trigger] self.constraints@[j].id != id,
            decreases self.constraints@.len() - i,
        {
            if self.constraints[i].id == id {
                return Some(&self.constraints[i]);
            }
            i = i + 1;
        }
        None
    }

    /// Every enabled constraint referencing `entity`, in order.
    pub fn constraints_touching(&self, entity: Handle) -> (r: Vec<&ParametricConstraint>)
        ensures
            r@.map_values(|c: &ParametricConstraint| *c) == self.constraints@.filter(
                |c: ParametricConstraint| touches_enabled(c, entity),
            ),
    {
        let ghost pred = |c: ParametricConstraint| touches_enabled(c, entity);
        let mut r: Vec<&ParametricConstraint> = Vec::new();
        let mut i: usize = 0;
        while i < self.constraints.len()
            invariant
                i <= self.constraints@.len(),
                pred == (|c: ParametricConstraint| touches_enabled(c, entity)),
                r@.map_values(|c: &ParametricConstraint| *c) == self.constraints@.take(
                    i as int,
                ).filter(pred),
            decreases self.constraints@.len() - i,
        {
            proof {
                let k = i as int;
                assert(self.constraints@.take(k + 1) =~= self.constraints@.take(k).push(
                    self.constraints@[k],
                ));
                self.constraints@.take(k).lemma_filter_push(self.constraints@[k], pred);
            }
            let c = &self.constraints[i];
            if c.enabled && refs_touch_entity(c.refs.as_slice(), entity) {
                let ghost before = r@;
                r.push(c);
                assert(r@.map_values(|c: &ParametricConstraint| *c) =~= before.map_values(
                    |c: &ParametricConstraint| *c,
                ).push(*c));
            }
            i = i + 1;
        }
        assert(self.constraints@.take(self.constraints@.len() as int) =~= self.constraints@);
        r
    }

    /// The datum directions of the enabled constraints of `kind` over the
    /// same references (the pair in either order), in order: the candidates
    /// an axis-constraint duplicate check compares a new direction with.
    pub fn axis_constraint_directions(&self, kind: ConstraintKind, refs: &[ParametricRef]) -> (r:
        Vec<Option<Vec3Bits>>)
        ensures
            r@ == self.constraints@.filter(
                |c: ParametricConstraint| c.enabled && c.kind == kind && spec_same_refs(c.refs@, refs@),
            ).map_values(|c: ParametricConstraint| c.axis_direction),
    {
        let ghost pred = |c: ParametricConstraint|
            c.enabled && c.kind == kind && spec_same_refs(c.refs@, refs@);
        let mut r: Vec<Option<Vec3Bits>> = Vec::new();
        let mut i: usize = 0;
        while i < self.constraints.len()
            invariant
                i <= self.constraints@.len(),
                pred == (|c: ParametricConstraint|
                    c.enabled && c.kind == kind && spec_same_refs(c.refs@, refs@)),
                r@ == self.constraints@.take(i as int).filter(pred).map_values(
                    |c: ParametricConstraint| c.axis_direction,
                ),
            decreases self.constraints@.len() - i,
        {
            proof {
                let k = i as int;
                assert(self.constraints@.take(k + 1) =~= self.constraints@.take(k).push(
                    self.constraints@[k],
                ));
                self.constraints@.take(k).lemma_filter_push(self.constraints@[k], pred);
            }
            let c = &self.constraints[i];
            if c.enabled && same_kind(c.kind, kind) && same_refs(c.refs.as_slice(), refs) {
                let ghost before = r@;
                r.push(c.axis_direction);
                proof {
                    let f = self.constraints@.take(i as int).filter(pred);
                    assert(f.push(*c).map_values(|c: ParametricConstraint| c.axis_direction)
                        =~= f.map_values(|c: ParametricConstraint| c.axis_direction).push(
                        c.axis_direction,
                    ));
                }
            }
            i = i + 1;
        }
        assert(self.constraints@.take(self.constraints@.len() as int) =~= self.constraints@);
        r
    }

    /// Drops every constraint that references `entity` (enabled or not) and
    /// returns the removed constraint ids, in order.
    pub fn remove_all_touching(&mut self, entity: Handle) -> (removed: Vec<ConstraintId>)
        requires
            old(self).wf(),
        ensures
            final(self).wf(),
            final(self).next_id() == old(self).next_id(),
            final(self).constraints@ == old(self).constraints@.filter(
                |c: ParametricConstraint| !refs_touch(c.refs@, entity),
            ),
            removed@ == ids_of(
                old(self).constraints@.filter(
                    |c: ParametricConstraint| refs_touch(c.refs@, entity),
                ),
            ),
            final(self).dimensions@ == old(self).dimensions@,
            final(self).scope == old(self).scope,
            final(self).retained_standard_groups@ == old(self).retained_standard_groups@,
            final(self).dof == old(self).dof,
    {
        let mut kept: Vec<ParametricConstraint> = Vec::new();
        let mut removed: Vec<ConstraintId> = Vec::new();
        let mut old_constraints: Vec<ParametricConstraint> = Vec::new();
        std::mem::swap(&mut old_constraints, &mut self.constraints);
        let ghost olds = old_constraints@;
        let ghost keep = |c: ParametricConstraint| !refs_touch(c.refs@, entity);
        let ghost drop = |c: ParametricConstraint| refs_touch(c.refs@, entity);
        for c in it: old_constraints.into_iter()
            invariant
                it.seq() == olds,
                keep == (|c: ParametricConstraint| !refs_touch(c.refs@, entity)),
                drop == (|c: ParametricConstraint| refs_touch(c.refs@, entity)),
                kept@ == olds.take(it.index() as int).filter(keep),
                removed@ == ids_of(olds.take(it.index() as int).filter(drop)),
        {
            proof {
                let k = it.index() as int;
                assert(c == olds[k]);
                assert(olds.take(k + 1) =~= olds.take(k).push(olds[k]));
                olds.take(k).lemma_filter_push(olds[k], keep);
                olds.take(k).lemma_filter_push(olds[k], drop);
            }
            if refs_touch_entity(c.refs.as_slice(), entity) {
                let ghost before = olds.take(it.index() as int).filter(drop);
                removed.push(c.id);
                assert(ids_of(before.push(c)) =~= ids_of(before).push(c.id));
            } else {
                kept.push(c);
            }
        }
        proof {
            assert(olds.take(olds.len() as int) =~= olds);
        }
        self.constraints = kept;
        assert forall|i: int, j: int|
            0 <= i < j < self.constraints@.len() implies #[trigger] self.constraints@[i].id
            != #[trigger] self.constraints@[j].id by {
            lemma_filter_keeps_distinct_ids(olds, keep, i, j);
        }
        assert forall|i: int| 0 <= i < self.constraints@.len() implies #[trigger] self.constraints@[i].id
            < self.next_id() by {
            lemma_filter_member(olds, keep, i);
        }
        removed
    }
}

/// Element `i` of a filtered sequence is an element of the unfiltered one.
pub proof fn lemma_filter_member<A>(s: Seq<A>, pred: spec_fn(A) -> bool, i: int)
    requires
        0 <= i < s.filter(pred).len(),
    ensures
        s.contains(s.filter(pred)[i]),
        pred(s.filter(pred)[i]),
{
    s.lemma_filter_pred(pred, i);
    assert(s.filter(pred).contains(s.filter(pred)[i]));
    s.lemma_filter_contains_rev(pred, s.filter(pred)[i]);
}

proof fn lemma_next_id_monotone(states: Seq<ParametricConstraintSet>, a: int, b: int)
    requires
        forall|k: int|
            0 <= k < states.len() - 1 ==> (#[trigger] states[k]).next_id() <= states[k
                + 1].next_id(),
        0 <= a <= b < states.len(),
    ensures
        states[a].next_id() <= states[b].next_id(),
    decreases b - a,
{
    if a < b {
        lemma_next_id_monotone(states, a, b - 1);
        assert(states[b - 1].next_id() <= states[b].next_id());
    }
}

/// A set never hands out an id twice. Take the states of one set along a run
/// of calls, each of which leaves the next id no smaller (as `add`,
/// `add_axis_constraint`, `remove` and `remove_all_touching` do). When the
/// call at step `i` handed out an id (the next id then, which the call
/// raises by one), that id differs from the one a call at any later step
/// `j` hands out.
pub proof fn lemma_ids_never_repeat(states: Seq<ParametricConstraintSet>, i: int, j: int)
    requires
        forall|k: int|
            0 <= k < states.len() - 1 ==> (#[trigger] states[k]).next_id() <= states[k
                + 1].next_id(),
        0 <= i < j < states.len(),
        states[i + 1].next_id() == states[i].next_id() + 1,
    ensures
        states[i].next_id() != states[j].next_id(),
{
    lemma_next_id_monotone(states, i + 1, j);
}

/// After `add` hands out `id`, exactly one constraint of the set carries
/// it, the one just added, so looking `id` up finds that constraint.
pub proof fn lemma_added_constraint_is_found(
    before: ParametricConstraintSet,
    after: ParametricConstraintSet,
    id: ConstraintId,
    kind: ConstraintKind,
    refs: Seq<ParametricRef>,
    driving_param: Option<DrivingValue>,
)
    requires
        before.wf(),
        id == before.next_id(),
        after.constraints@.len() == before.constraints@.len() + 1,
        after.constraints@.take(before.constraints@.len() as int) == before.constraints@,
        is_fresh_constraint(after.constraints@.last(), id, kind, refs, driving_param),
    ensures
        after.constraints@.last().id == id,
        forall|i: int|
            0 <= i < after.constraints@.len() - 1 ==> #[trigger] after.constraints@[i].id != id,
{
    assert forall|i: int| 0 <= i < after.constraints@.len() - 1 implies #[trigger] after.constraints@[i].id
        != id by {
        assert(after.constraints@[i] == after.constraints@.take(
            before.constraints@.len() as int,
        )[i]);
        assert(before.constraints@[i].id < before.next_id());
    }
}

/// Once `remove(id)` has run, no constraint carries `id`: removing it a
/// second time finds nothing.
pub proof fn lemma_removed_id_is_gone(
    before: ParametricConstraintSet,
    after: ParametricConstraintSet,
    id: ConstraintId,
)
    requires
        after.constraints@ == before.constraints@.filter(|c: ParametricConstraint| c.id != id),
    ensures
        forall|i: int| 0 <= i < after.constraints@.len() ==> #[trigger] after.constraints@[i].id != id,
        !exists|i: int| 0 <= i < after.constraints@.len() && #[trigger] after.constraints@[i].id == id,
{
    assert forall|i: int| 0 <= i < after.constraints@.len() implies #[trigger] after.constraints@[i].id
        != id by {
        lemma_filter_member(before.constraints@, |c: ParametricConstraint| c.id != id, i);
    }
}

/// After `remove_all_touching(entity)` no remaining constraint references
/// `entity`, so none touches it any more.
pub proof fn lemma_remove_all_touching_clears(
    before: ParametricConstraintSet,
    after: ParametricConstraintSet,
    entity: Handle,
)
    requires
        after.constraints@ == before.constraints@.filter(
            |c: ParametricConstraint| !refs_touch(c.refs@, entity),
        ),
    ensures
        forall|i: int|
            0 <= i < after.constraints@.len() ==> !refs_touch(
                (#[trigger] after.constraints@[i]).refs@,
                entity,
            ),
        after.constraints@.filter(|c: ParametricConstraint| touches_enabled(c, entity)).len() == 0,
{
    let pred = |c: ParametricConstraint| !refs_touch(c.refs@, entity);
    assert forall|i: int| 0 <= i < after.constraints@.len() implies !refs_touch(
        (#[trigger] after.constraints@[i]).refs@,
        entity,
    ) by {
        lemma_filter_member(before.constraints@, pred, i);
    }
    let touching = |c: ParametricConstraint| touches_enabled(c, entity);
    if after.constraints@.filter(touching).len() > 0 {
        lemma_filter_member(after.constraints@, touching, 0);
        let x = after.constraints@.filter(touching)[0];
        let k = choose|k: int| 0 <= k < after.constraints@.len() && after.constraints@[k] == x;
        assert(!refs_touch(after.constraints@[k].refs@, entity));
    }
}

/// Filtering keeps distinct ids distinct.
pub proof fn lemma_filter_keeps_distinct_ids(
    s: Seq<ParametricConstraint>,
    pred: spec_fn(ParametricConstraint) -> bool,
    i: int,
    j: int,
)
    requires
        forall|a: int, b: int| 0 <= a < b < s.len() ==> #[trigger] s[a].id != #[trigger] s[b].id,
        0 <= i < j < s.filter(pred).len(),
    ensures
        s.filter(pred)[i].id != s.filter(pred)[j].id,
    decreases s.len(),
{
    reveal_with_fuel(Seq::<_>::filter, 1);
    if s.len() == 0 {
        return;
    }
    let init = s.drop_last();
    let fi = init.filter(pred);
    assert(s.filter(pred) == if pred(s.last()) { fi.push(s.last()) } else { fi });
    if pred(s.last()) && j == s.filter(pred).len() - 1 {
        // `j` is the last element; `i` comes from the prefix, whose ids all
        // differ from the last one.
        lemma_filter_member(init, pred, i);
        let x = fi[i];
        let k = choose|k: int| 0 <= k < init.len() && init[k] == x;
        assert(s[k] == x);
        assert(s[s.len() - 1] == s.last());
    } else {
        lemma_filter_keeps_distinct_ids(init, pred, i, j);
    }
}

} // verus!
