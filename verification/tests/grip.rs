use cad_scene::grip::{grip_solve_anchor_refs, GripEdit, GripEditMode, GripEntity, GripTarget};
use cad_scene::parametric_constraints::{Handle, ParametricRef};
use cad_scene::proxy_graphics::Point3Bits;

fn h(v: u64) -> Handle {
    v
}

#[test]
/// The center grip drives the center; the start, end and midpoint grips
/// reshape the arc, so they drive the whole curve and a paired Equal or
/// Symmetric follows the new radius and sweep.
fn arc_grips_drive_center_or_the_whole_arc() {
    let handle = h(8);
    let arc = GripEntity::Arc;

    assert_eq!(
        grip_solve_anchor_refs(&arc, handle, 0),
        vec![ParametricRef::center(handle)]
    );
    for grip in 1..=3 {
        assert_eq!(
            grip_solve_anchor_refs(&arc, handle, grip),
            vec![ParametricRef::whole(handle)],
            "grip {grip}"
        );
    }
    assert_eq!(grip_solve_anchor_refs(&arc, handle, 4), Vec::new());
}

#[test]
fn line_and_anchor_grips_hold_points() {
    assert_eq!(
        grip_solve_anchor_refs(&GripEntity::Line, h(1), 1),
        vec![ParametricRef::point(h(1), 1)]
    );
    assert!(grip_solve_anchor_refs(&GripEntity::Line, h(1), 2).is_empty());
    assert_eq!(
        grip_solve_anchor_refs(&GripEntity::Anchor, h(2), 0),
        vec![ParametricRef::point(h(2), 0)]
    );
    assert!(grip_solve_anchor_refs(&GripEntity::Anchor, h(2), 1).is_empty());
    assert!(grip_solve_anchor_refs(&GripEntity::Other, h(2), 0).is_empty());
    assert_eq!(
        grip_solve_anchor_refs(&GripEntity::Circle, h(3), 4),
        vec![ParametricRef::whole(h(3))]
    );
    assert!(grip_solve_anchor_refs(&GripEntity::Circle, h(3), 5).is_empty());
    assert_eq!(
        grip_solve_anchor_refs(&GripEntity::Ellipse, h(4), 6),
        vec![ParametricRef::whole(h(4))]
    );
    assert_eq!(
        grip_solve_anchor_refs(&GripEntity::Polyline2D { vertex_count: 3 }, h(5), 2),
        vec![ParametricRef::point(h(5), 2)]
    );
    assert!(grip_solve_anchor_refs(&GripEntity::Polyline2D { vertex_count: 3 }, h(5), 3).is_empty());
}

#[test]
fn polyline_segment_grips_hold_straight_segments_only() {
    let open = GripEntity::LwPolyline { straight: vec![true, false, true], closed: false };
    // Vertex grips come first.
    assert_eq!(grip_solve_anchor_refs(&open, h(9), 2), vec![ParametricRef::point(h(9), 2)]);
    // Segment grips follow: segment 0 is straight.
    assert_eq!(grip_solve_anchor_refs(&open, h(9), 3), vec![ParametricRef::segment(h(9), 0)]);
    // Segment 1 bulges.
    assert!(grip_solve_anchor_refs(&open, h(9), 4).is_empty());
    // The closing segment exists only on a closed polyline.
    assert!(grip_solve_anchor_refs(&open, h(9), 5).is_empty());
    let closed = GripEntity::LwPolyline { straight: vec![true, false, true], closed: true };
    assert_eq!(grip_solve_anchor_refs(&closed, h(9), 5), vec![ParametricRef::segment(h(9), 2)]);
    assert!(grip_solve_anchor_refs(&closed, h(9), 6).is_empty());
}

#[test]
fn a_single_grip_edit_moves_one_target() {
    let world = Point3Bits { x: 1.5f64.to_bits(), y: 2.0f64.to_bits(), z: 0 };
    let edit = GripEdit::single(7, 2, true, world);
    assert_eq!(edit.mode, GripEditMode::Stretch);
    assert_eq!(edit.handle, 7);
    assert_eq!(edit.grip_id, 2);
    assert_eq!(edit.origin_world, world);
    assert_eq!(edit.last_world, world);
    assert_eq!(
        edit.targets,
        vec![GripTarget { handle: 7, grip_id: 2, is_translate: true, last_world: world }]
    );
}

#[test]
fn a_lengthen_edit_never_translates() {
    let world = Point3Bits { x: 3.0f64.to_bits(), y: 0, z: 0 };
    let edit = GripEdit::lengthen(4, 1, world);
    assert_eq!(edit.mode, GripEditMode::Lengthen);
    assert_eq!(
        edit.targets,
        vec![GripTarget { handle: 4, grip_id: 1, is_translate: false, last_world: world }]
    );
}
