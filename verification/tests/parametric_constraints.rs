use cad_scene::inference::polyline_sources;
use cad_scene::parametric_constraints::{
    next_angular_parameter_name, next_dimensional_parameter_name, next_radial_parameter_name,
    polyline_vertex_index, PolylineShape,
    fixed_glyph_label, glyph_is_compact, glyph_is_fixed, glyph_is_vertical, same_refs,
    vertical_glyph_label, ConstraintKind, DrivingValue, Handle, ParametricConstraintSet,
    ParametricRef, ParametricScope, Vec3Bits, FIXED_POINT_GLYPH, VERTICAL_POINTS_GLYPH,
};

fn h(v: u64) -> Handle {
    v
}

#[test]
fn add_assigns_increasing_ids_and_get_finds_them() {
    let mut set = ParametricConstraintSet::new(ParametricScope::ModelSpace);
    let a = set.add(
        ConstraintKind::Horizontal,
        vec![ParametricRef::whole(h(1))],
        None,
    );
    let b = set.add(
        ConstraintKind::Distance,
        vec![ParametricRef::whole(h(1))],
        Some(DrivingValue::Literal(25.0f64.to_bits())),
    );
    assert_ne!(a, b);
    assert_eq!(set.get(a).unwrap().kind, ConstraintKind::Horizontal);
    assert_eq!(
        set.get(b).unwrap().driving_param,
        Some(DrivingValue::Literal(25.0f64.to_bits()))
    );
}

#[test]
fn remove_drops_only_the_matching_id() {
    let mut set = ParametricConstraintSet::new(ParametricScope::ModelSpace);
    let a = set.add(
        ConstraintKind::Horizontal,
        vec![ParametricRef::whole(h(1))],
        None,
    );
    let b = set.add(
        ConstraintKind::Vertical,
        vec![ParametricRef::whole(h(2))],
        None,
    );
    assert!(set.remove(a));
    assert!(
        !set.remove(a),
        "removing twice should report nothing removed the second time"
    );
    assert!(set.get(a).is_none());
    assert!(set.get(b).is_some());
}

#[test]
fn constraints_touching_finds_entity_regardless_of_marker() {
    let mut set = ParametricConstraintSet::new(ParametricScope::ModelSpace);
    set.add(
        ConstraintKind::Coincident,
        vec![ParametricRef::point(h(1), 0), ParametricRef::point(h(2), 1)],
        None,
    );
    set.add(
        ConstraintKind::Horizontal,
        vec![ParametricRef::whole(h(3))],
        None,
    );

    let touching_1 = set.constraints_touching(h(1));
    assert_eq!(touching_1.len(), 1);
    let touching_3 = set.constraints_touching(h(3));
    assert_eq!(touching_3.len(), 1);
    assert_eq!(set.constraints_touching(h(99)).len(), 0);
}

#[test]
fn constraints_touching_skips_disabled() {
    let mut set = ParametricConstraintSet::new(ParametricScope::ModelSpace);
    let id = set.add(
        ConstraintKind::Horizontal,
        vec![ParametricRef::whole(h(1))],
        None,
    );
    set.constraints
        .iter_mut()
        .find(|c| c.id == id)
        .unwrap()
        .enabled = false;
    assert_eq!(set.constraints_touching(h(1)).len(), 0);
}

#[test]
fn remove_all_touching_drops_every_constraint_referencing_the_entity() {
    let mut set = ParametricConstraintSet::new(ParametricScope::ModelSpace);
    let coincident = set.add(
        ConstraintKind::Coincident,
        vec![ParametricRef::point(h(1), 0), ParametricRef::point(h(2), 1)],
        None,
    );
    let horizontal_other = set.add(
        ConstraintKind::Horizontal,
        vec![ParametricRef::whole(h(3))],
        None,
    );

    let removed = set.remove_all_touching(h(1));
    assert_eq!(removed, vec![coincident]);
    assert!(set.get(coincident).is_none());
    assert!(
        set.get(horizontal_other).is_some(),
        "unrelated entity's constraint must survive"
    );
}

#[test]
fn scope_owner_handle_resolves_block_directly() {
    let block_handle = h(42);
    let scope = ParametricScope::Block(block_handle);
    let doc = acadrust::CadDocument::new();
    assert_eq!(
        scope.owner_handle(doc.header.model_space_block_handle.value()),
        block_handle
    );
}

#[test]
fn ref_center_constructor_matches_the_dash_three_convention() {
    let r = ParametricRef::center(h(7));
    assert_eq!(
        r,
        ParametricRef {
            entity: h(7),
            marker: Some(-3)
        }
    );
}

#[test]
fn model_space_scope_owns_by_the_model_space_block() {
    assert_eq!(ParametricScope::ModelSpace.owner_handle(h(0x1F)), h(0x1F));
}

#[test]
fn segment_markers_round_trip_and_stay_apart() {
    let seg = ParametricRef::segment(h(5), 7);
    assert_eq!(seg.marker, Some(-1_000_007));
    assert_eq!(seg.segment_index(), Some(7));
    assert_eq!(seg.segment_midpoint_index(), None);
    let mid = ParametricRef::segment_midpoint(h(5), 7);
    assert_eq!(mid.marker, Some(-2_000_007));
    assert_eq!(mid.segment_midpoint_index(), Some(7));
    assert_eq!(mid.segment_index(), None);
    let center = ParametricRef::segment_center(h(5), 7);
    assert_eq!(center.marker, Some(-3_000_007));
    assert_eq!(center.segment_center_index(), Some(7));
    assert_eq!(ParametricRef::center(h(5)).segment_index(), None);
    assert_eq!(ParametricRef::point(h(5), 2).segment_index(), None);
    assert_eq!(ParametricRef::whole(h(5)).segment_index(), None);
}

#[test]
fn bar_mode_bits_are_single_distinct_bits() {
    assert_eq!(ConstraintKind::Horizontal.bar_mode_bit(), Some(1));
    assert_eq!(ConstraintKind::Distance.bar_mode_bit(), None);
    let kinds = [
        ConstraintKind::Horizontal,
        ConstraintKind::Vertical,
        ConstraintKind::Perpendicular,
        ConstraintKind::Parallel,
        ConstraintKind::Tangent,
        ConstraintKind::Smooth,
        ConstraintKind::Coincident,
        ConstraintKind::Concentric,
        ConstraintKind::Colinear,
        ConstraintKind::Symmetric,
        ConstraintKind::Equal,
        ConstraintKind::Fixed,
    ];
    let mut seen = 0i16;
    for k in kinds {
        let bit = k.bar_mode_bit().expect("geometric kinds have a bit");
        assert_eq!(bit.count_ones(), 1);
        assert_eq!(seen & bit, 0);
        seen |= bit;
    }
    assert_eq!(seen, 4095);
}

#[test]
fn kinds_have_labels_and_symbols() {
    assert_eq!(ConstraintKind::Colinear.glyph_symbol(), "L");
    assert_eq!(ConstraintKind::Coincident.glyph_symbol(), "\u{2261}");
    assert!(!ConstraintKind::Horizontal.label().is_empty());
}

#[test]
fn fixed_and_vertical_glyphs_pick_their_point_variants() {
    let mut set = ParametricConstraintSet::new(ParametricScope::ModelSpace);
    let on_point = set.add(ConstraintKind::Fixed, vec![ParametricRef::point(h(1), 0)], None);
    let on_segment = set.add(ConstraintKind::Fixed, vec![ParametricRef::segment(h(1), 0)], None);
    let whole = set.add(ConstraintKind::Fixed, vec![ParametricRef::whole(h(1))], None);
    let two_points = set.add(
        ConstraintKind::Vertical,
        vec![ParametricRef::point(h(1), 0), ParametricRef::point(h(2), 0)],
        None,
    );
    let object = set.add(ConstraintKind::Vertical, vec![ParametricRef::whole(h(1))], None);
    assert_eq!(fixed_glyph_label(set.get(on_point).unwrap()), FIXED_POINT_GLYPH);
    assert_eq!(fixed_glyph_label(set.get(on_segment).unwrap()), "F");
    assert_eq!(fixed_glyph_label(set.get(whole).unwrap()), "F");
    assert_eq!(vertical_glyph_label(set.get(two_points).unwrap()), VERTICAL_POINTS_GLYPH);
    assert_eq!(vertical_glyph_label(set.get(object).unwrap()), "\u{2502}");

    assert!(glyph_is_fixed(FIXED_POINT_GLYPH));
    assert!(glyph_is_fixed("F"));
    assert!(!glyph_is_fixed("T"));
    assert!(glyph_is_vertical(VERTICAL_POINTS_GLYPH));
    assert!(glyph_is_vertical("\u{2502}"));
    assert!(!glyph_is_vertical("\u{2014}"));
    assert!(glyph_is_compact("\u{2261}"));
    assert!(glyph_is_compact("\u{2208}"));
    assert!(!glyph_is_compact("="));
}

#[test]
fn same_refs_accepts_a_swapped_pair_only() {
    let a = ParametricRef::point(h(1), 0);
    let b = ParametricRef::point(h(2), 1);
    let c = ParametricRef::whole(h(3));
    assert!(same_refs(&[a, b], &[b, a]));
    assert!(same_refs(&[a, b], &[a, b]));
    assert!(!same_refs(&[a, b, c], &[b, a, c]));
    assert!(!same_refs(&[a], &[b]));
}

#[test]
fn next_id_keeps_counting_after_a_removal() {
    let mut set = ParametricConstraintSet::new(ParametricScope::ModelSpace);
    let a = set.add(ConstraintKind::Horizontal, vec![ParametricRef::whole(h(1))], None);
    assert!(set.remove(a));
    let b = set.add(ConstraintKind::Horizontal, vec![ParametricRef::whole(h(1))], None);
    assert_eq!(a, 0);
    assert_eq!(b, 1);
    assert_eq!(set.next_id, 2);
}

#[test]
fn driving_values_duplicate_exactly() {
    let named = DrivingValue::Named("gap".to_string());
    assert_eq!(named.duplicate(), DrivingValue::Named("gap".to_string()));
    let literal = DrivingValue::Literal(2.5f64.to_bits());
    assert_eq!(literal.duplicate(), DrivingValue::Literal(2.5f64.to_bits()));
}

#[test]
fn closing_segment_end_wraps_to_the_first_vertex() {
    let closed = Some(PolylineShape { vertex_count: 4, closed: true });
    let open = Some(PolylineShape { vertex_count: 4, closed: false });
    assert_eq!(polyline_vertex_index(closed, 4), Some(0));
    assert_eq!(polyline_vertex_index(closed, 3), Some(3));
    assert_eq!(polyline_vertex_index(open, 4), Some(4));
    assert_eq!(polyline_vertex_index(None, 1), None);
    assert_eq!(polyline_vertex_index(Some(PolylineShape { vertex_count: 0, closed: true }), 0), Some(0));
}

#[test]
fn polyline_sources_cover_straight_segments_and_close_when_closed() {
    let open = polyline_sources(h(7), &[true, false, true], false);
    assert_eq!(open.len(), 1);
    assert_eq!(open[0].0, 0);
    assert_eq!(open[0].1.whole, ParametricRef::segment(h(7), 0));
    assert_eq!(open[0].1.start, ParametricRef::point(h(7), 0));
    assert_eq!(open[0].1.end, ParametricRef::point(h(7), 1));
    let closed = polyline_sources(h(7), &[true, false, true], true);
    assert_eq!(closed.len(), 2);
    assert_eq!(closed[1].0, 2);
    assert_eq!(closed[1].1.whole, ParametricRef::segment(h(7), 2));
    assert_eq!(closed[1].1.end, ParametricRef::point(h(7), 0));
    assert!(polyline_sources(h(7), &[], true).is_empty());
}

#[test]
fn axis_directions_of_matching_enabled_constraints() {
    let mut set = ParametricConstraintSet::new(ParametricScope::ModelSpace);
    let dir = Vec3Bits { x: 1.0f64.to_bits(), y: 0, z: 0 };
    let a = ParametricRef::point(h(1), 0);
    let b = ParametricRef::point(h(2), 0);
    set.add_axis_constraint(ConstraintKind::Horizontal, vec![a, b], dir);
    set.add(ConstraintKind::Horizontal, vec![b, a], None);
    set.add(ConstraintKind::Vertical, vec![a, b], None);
    let off = set.add_axis_constraint(ConstraintKind::Horizontal, vec![a, b], dir);
    set.constraints.iter_mut().find(|c| c.id == off).unwrap().enabled = false;
    assert_eq!(
        set.axis_constraint_directions(ConstraintKind::Horizontal, &[b, a]),
        vec![Some(dir), None]
    );
    assert!(set.axis_constraint_directions(ConstraintKind::Horizontal, &[a]).is_empty());
}

fn names(v: &[&str]) -> Vec<String> {
    v.iter().map(|s| s.to_string()).collect()
}

#[test]
fn new_parameters_take_the_first_free_numbered_name() {
    assert_eq!(next_dimensional_parameter_name(&names(&[])), "d1");
    assert_eq!(next_dimensional_parameter_name(&names(&["d1", "d2", "d4"])), "d3");
    assert_eq!(next_angular_parameter_name(&names(&["d1", "ang1"])), "ang2");
    assert_eq!(next_radial_parameter_name(&names(&["rad1"]), false), "rad2");
    assert_eq!(next_radial_parameter_name(&names(&["rad1"]), true), "dia1");
    let many: Vec<String> = (1..=10).map(|n| format!("d{n}")).collect();
    assert_eq!(next_dimensional_parameter_name(&many), "d11");
}

#[test]
fn every_kind_has_its_own_glyph_and_label() {
    let kinds = [
        ConstraintKind::Coincident,
        ConstraintKind::Horizontal,
        ConstraintKind::Vertical,
        ConstraintKind::Parallel,
        ConstraintKind::Perpendicular,
        ConstraintKind::Equal,
        ConstraintKind::Distance,
        ConstraintKind::Angle,
        ConstraintKind::Angle3Point,
        ConstraintKind::Radius,
        ConstraintKind::Tangent,
        ConstraintKind::Smooth,
        ConstraintKind::Concentric,
        ConstraintKind::CenterPoint,
        ConstraintKind::Colinear,
        ConstraintKind::Midpoint,
        ConstraintKind::Fixed,
        ConstraintKind::PointOnCurve,
        ConstraintKind::EqualDistance,
        ConstraintKind::Symmetric,
        ConstraintKind::Diameter,
        ConstraintKind::DistanceX,
        ConstraintKind::DistanceY,
        ConstraintKind::DistanceDirected,
        ConstraintKind::Normal,
        ConstraintKind::RigidSet,
    ];
    for (i, a) in kinds.iter().enumerate() {
        assert_eq!(glyph_is_compact(a.glyph_symbol()), matches!(a, ConstraintKind::Coincident | ConstraintKind::PointOnCurve));
        assert_eq!(glyph_is_fixed(a.glyph_symbol()), *a == ConstraintKind::Fixed);
        assert_eq!(glyph_is_vertical(a.glyph_symbol()), *a == ConstraintKind::Vertical);
        for b in &kinds[i + 1..] {
            assert_ne!(a.glyph_symbol(), b.glyph_symbol());
            assert_ne!(a.label(), b.label());
        }
    }
}

#[test]
fn ids_are_never_handed_out_twice() {
    let mut set = ParametricConstraintSet::new(ParametricScope::ModelSpace);
    let a = set.add(ConstraintKind::Horizontal, vec![ParametricRef::whole(h(1))], None);
    let b = set.add(ConstraintKind::Vertical, vec![ParametricRef::whole(h(2))], None);
    assert!(set.remove(b));
    set.remove_all_touching(h(1));
    let c = set.add(ConstraintKind::Fixed, vec![ParametricRef::whole(h(3))], None);
    assert!(a != b && b != c && a != c);
}
