//! Grips: the state of an interactive grip drag, and what a drag of each
//! grip holds while constraints are solved.
//!
//! World positions are carried as the bit patterns of their `f64`
//! coordinates: the drag state only stores and hands them back.

use crate::parametric_constraints::{
    Handle, ParametricRef, CENTER_MARKER, MAX_SEGMENT_INDEX, POLYLINE_SEGMENT_MARKER_BASE,
};
use crate::proxy_graphics::Point3Bits;
use vstd::prelude::*;

verus! {

/// How cursor movement modifies the selected grip.
#[derive(Clone, Copy, Debug, PartialEq, Eq, Structural)]
pub enum GripEditMode {
    Stretch,
    Lengthen,
}

/// One hot grip moved by an edit.
#[derive(Clone, Copy, Debug, PartialEq, Eq)]
pub struct GripTarget {
    pub handle: u64,
    pub grip_id: usize,
    pub is_translate: bool,
    pub last_world: Point3Bits,
}

/// Stored while a grip is being dragged.
#[derive(Clone, Debug)]
pub struct GripEdit {
    /// Handle of the entity being edited.
    pub handle: u64,
    /// Index into the entity's grip list.
    pub grip_id: usize,
    /// World position of the grip when the drag started.
    pub origin_world: Point3Bits,
    /// Last world cursor position.
    pub last_world: Point3Bits,
    /// How cursor movement modifies the selected grip.
    pub mode: GripEditMode,
    /// Every hot grip moved by this edit; a normal edit holds one.
    pub targets: Vec<GripTarget>,
}

/// An edit of one grip that starts and ends at `world`, moving only that grip.
pub open spec fn is_single_edit(
    e: GripEdit,
    handle: u64,
    grip_id: usize,
    is_translate: bool,
    world: Point3Bits,
) -> bool {
    &&& e.handle == handle
    &&& e.grip_id == grip_id
    &&& e.origin_world == world
    &&& e.last_world == world
    &&& e.targets@ == seq![
        GripTarget { handle, grip_id, is_translate, last_world: world },
    ]
}

impl GripEdit {
    /// A stretch drag of one grip.
    pub fn single(handle: u64, grip_id: usize, is_translate: bool, world: Point3Bits) -> (r: Self)
        ensures
            is_single_edit(r, handle, grip_id, is_translate, world),
            r.mode == GripEditMode::Stretch,
    {
        let mut targets: Vec<GripTarget> = Vec::new();
        targets.push(GripTarget { handle, grip_id, is_translate, last_world: world });
        GripEdit {
            handle,
            grip_id,
            origin_world: world,
            last_world: world,
            mode: GripEditMode::Stretch,
            targets,
        }
    }

    /// A lengthen drag of one (non-translating) grip.
    pub fn lengthen(handle: u64, grip_id: usize, world: Point3Bits) -> (r: Self)
        ensures
            is_single_edit(r, handle, grip_id, false, world),
            r.mode == GripEditMode::Lengthen,
    {
        let mut edit = Self::single(handle, grip_id, false, world);
        edit.mode = GripEditMode::Lengthen;
        edit
    }
}

/// The shape of an entity, as far as its grips go.
#[derive(Clone, Debug)]
pub enum GripEntity {
    Line,
    /// A light-weight polyline: `straight[i]` tells whether the segment
    /// starting at vertex `i` has no bulge; one entry per vertex.
    LwPolyline { straight: Vec<bool>, closed: bool },
    Polyline2D { vertex_count: usize },
    Arc,
    Circle,
    Ellipse,
    /// A point, block reference, text or multi-line text: one grip at its
    /// insertion point.
    Anchor,
    Other,
}

/// What a drag of grip `grip_id` of `entity` should hold while constraints
/// are solved: a line end or a polyline vertex holds that point; a polyline
/// segment grip (numbered after the vertices) holds a straight segment; the
/// center grip of an arc, circle or ellipse holds the center and its other
/// grips the whole curve; the one grip of an anchored entity holds point 0.
pub open spec fn spec_grip_anchor_refs(entity: GripEntity, handle: Handle, grip_id: usize) -> Seq<
    ParametricRef,
> {
    let point = seq![ParametricRef { entity: handle, marker: Some(grip_id as i32) }];
    let center = seq![ParametricRef { entity: handle, marker: Some(CENTER_MARKER) }];
    let whole = seq![ParametricRef { entity: handle, marker: None }];
    match entity {
        GripEntity::Line => if grip_id <= 1 {
            point
        } else {
            seq![]
        },
        GripEntity::LwPolyline { straight, closed } => {
            let n = straight@.len();
            if grip_id < n {
                point
            } else {
                let segment = grip_id - n;
                if segment < n && straight@[segment] && (segment + 1 < n || closed) {
                    seq![
                        ParametricRef {
                            entity: handle,
                            marker: Some((POLYLINE_SEGMENT_MARKER_BASE - segment) as i32),
                        },
                    ]
                } else {
                    seq![]
                }
            }
        },
        GripEntity::Polyline2D { vertex_count } => if grip_id < vertex_count {
            point
        } else {
            seq![]
        },
        GripEntity::Arc => if grip_id == 0 {
            center
        } else if grip_id <= 3 {
            whole
        } else {
            seq![]
        },
        GripEntity::Circle => if grip_id == 0 {
            center
        } else if grip_id <= 4 {
            whole
        } else {
            seq![]
        },
        GripEntity::Ellipse => if grip_id == 0 {
            center
        } else if grip_id <= 6 {
            whole
        } else {
            seq![]
        },
        GripEntity::Anchor => if grip_id == 0 {
            seq![ParametricRef { entity: handle, marker: Some(0) }]
        } else {
            seq![]
        },
        GripEntity::Other => seq![],
    }
}

/// A grip drag holds references of the dragged entity only, and at most one.
/// Dragging the center grip (grip 0) of an arc, circle or ellipse holds
/// exactly the entity's center reference, never the whole entity; dragging
/// one of its other grips holds the whole entity. Dragging a line end holds
/// that end point.
pub proof fn lemma_grip_anchor_refs(entity: GripEntity, handle: Handle, grip_id: usize)
    ensures
        spec_grip_anchor_refs(entity, handle, grip_id).len() <= 1,
        forall|i: int|
            0 <= i < spec_grip_anchor_refs(entity, handle, grip_id).len() ==> (
            #[trigger] spec_grip_anchor_refs(entity, handle, grip_id)[i]).entity == handle,
        (entity is Arc || entity is Circle || entity is Ellipse) ==> spec_grip_anchor_refs(
            entity,
            handle,
            0,
        ) == seq![ParametricRef { entity: handle, marker: Some(CENTER_MARKER) }],
        (entity is Arc || entity is Circle || entity is Ellipse) && spec_grip_anchor_refs(
            entity,
            handle,
            grip_id,
        ).len() > 0 ==> (spec_grip_anchor_refs(entity, handle, grip_id)[0].marker is None
            <==> grip_id != 0),
        entity is Circle && 1 <= grip_id <= 4 ==> spec_grip_anchor_refs(entity, handle, grip_id)
            == seq![ParametricRef { entity: handle, marker: None }],
        entity is Line && grip_id <= 1 ==> spec_grip_anchor_refs(entity, handle, grip_id) == seq![
            ParametricRef { entity: handle, marker: Some(grip_id as i32) },
        ],
        entity matches GripEntity::LwPolyline { straight, .. } && grip_id < straight@.len()
            ==> spec_grip_anchor_refs(entity, handle, grip_id) == seq![
            ParametricRef { entity: handle, marker: Some(grip_id as i32) },
        ],
        entity matches GripEntity::Polyline2D { vertex_count } && grip_id < vertex_count
            ==> spec_grip_anchor_refs(entity, handle, grip_id) == seq![
            ParametricRef { entity: handle, marker: Some(grip_id as i32) },
        ],
        entity is Anchor ==> spec_grip_anchor_refs(entity, handle, 0) == seq![
            ParametricRef { entity: handle, marker: Some(0) },
        ],
        entity is Other ==> spec_grip_anchor_refs(entity, handle, grip_id).len() == 0,
{
}

fn single_ref(r: ParametricRef) -> (v: Vec<ParametricRef>)
    ensures
        v@ == seq![r],
{
    let mut v: Vec<ParametricRef> = Vec::new();
    v.push(r);
    assert(v@ =~= seq![r]);
    v
}

/// The references a drag of grip `grip_id` of `entity` holds while
/// constraints are solved.
pub fn grip_solve_anchor_refs(entity: &GripEntity, handle: Handle, grip_id: usize) -> (r: Vec<
    ParametricRef,
>)
    requires
        entity matches GripEntity::LwPolyline { straight, .. } ==> straight@.len()
            <= MAX_SEGMENT_INDEX + 1,
    ensures
        r@ == spec_grip_anchor_refs(*entity, handle, grip_id),
{
    match entity {
        GripEntity::Line => {
            if grip_id <= 1 {
                single_ref(ParametricRef::point(handle, grip_id as i32))
            } else {
                Vec::new()
            }
        },
        GripEntity::LwPolyline { straight, closed } => {
            let n = straight.len();
            if grip_id < n {
                single_ref(ParametricRef::point(handle, grip_id as i32))
            } else {
                let segment = grip_id - n;
                if segment < n && straight[segment] && (segment + 1 < n || *closed) {
                    single_ref(ParametricRef::segment(handle, segment))
                } else {
                    Vec::new()
                }
            }
        },
        GripEntity::Polyline2D { vertex_count } => {
            if grip_id < *vertex_count {
                single_ref(ParametricRef::point(handle, grip_id as i32))
            } else {
                Vec::new()
            }
        },
        GripEntity::Arc => {
            if grip_id == 0 {
                single_ref(ParametricRef::center(handle))
            } else if grip_id <= 3 {
                single_ref(ParametricRef::whole(handle))
            } else {
                Vec::new()
            }
        },
        GripEntity::Circle => {
            if grip_id == 0 {
                single_ref(ParametricRef::center(handle))
            } else if grip_id <= 4 {
                single_ref(ParametricRef::whole(handle))
            } else {
                Vec::new()
            }
        },
        GripEntity::Ellipse => {
            if grip_id == 0 {
                single_ref(ParametricRef::center(handle))
            } else if grip_id <= 6 {
                single_ref(ParametricRef::whole(handle))
            } else {
                Vec::new()
            }
        },
        GripEntity::Anchor => {
            if grip_id == 0 {
                single_ref(ParametricRef::point(handle, 0))
            } else {
                Vec::new()
            }
        },
        GripEntity::Other => Vec::new(),
    }
}

} // verus!
