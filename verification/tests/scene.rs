use cad_scene::drawing::{BlockNameError, BlockRecordEntry, Drawing, DrawingEntity};
use cad_scene::inference::{InferenceSource, InferredRelation, SourceEnd};
use cad_scene::parametric_constraints::{
    ConstraintKind, DrivingValue, Handle, ParametricRef, ParametricScope, Vec3Bits,
};
use cad_scene::scene::Scene;

fn h(v: u64) -> Handle {
    v
}

#[test]
fn parameter_usage_finds_every_constraint_driven_by_the_named_parameter() {
    let mut scene = Scene::new();
    scene
        .parametric_constraint_set_mut(ParametricScope::ModelSpace)
        .add(
            ConstraintKind::Distance,
            vec![ParametricRef::point(h(1), 0), ParametricRef::point(h(1), 1)],
            Some(DrivingValue::Named("gap".to_string())),
        );
    scene
        .parametric_constraint_set_mut(ParametricScope::ModelSpace)
        .add(
            ConstraintKind::Radius,
            vec![ParametricRef::whole(h(2))],
            Some(DrivingValue::Named("gap".to_string())),
        );
    // Unrelated: a literal-driven constraint and one driven by a
    // different name must not show up.
    scene
        .parametric_constraint_set_mut(ParametricScope::ModelSpace)
        .add(
            ConstraintKind::Radius,
            vec![ParametricRef::whole(h(3))],
            Some(DrivingValue::Literal(5.0f64.to_bits())),
        );
    scene
        .parametric_constraint_set_mut(ParametricScope::ModelSpace)
        .add(
            ConstraintKind::Distance,
            vec![ParametricRef::point(h(4), 0), ParametricRef::point(h(4), 1)],
            Some(DrivingValue::Named("other".to_string())),
        );

    let usage = scene.parameter_usage("gap");
    assert_eq!(
        usage.len(),
        2,
        "exactly the two constraints driven by 'gap', got {usage:?}"
    );
    assert!(usage
        .iter()
        .any(|u| u.kind == ConstraintKind::Distance && u.entities == vec![h(1)]));
    assert!(usage
        .iter()
        .any(|u| u.kind == ConstraintKind::Radius && u.entities == vec![h(2)]));

    assert_eq!(scene.parameter_usage("nonexistent").len(), 0);
}

#[test]
fn parameter_usage_searches_every_scope_not_just_model_space() {
    let mut scene = Scene::new();
    let block = h(99);
    scene
        .parametric_constraint_set_mut(ParametricScope::Block(block))
        .add(
            ConstraintKind::Radius,
            vec![ParametricRef::whole(h(1))],
            Some(DrivingValue::Named("r".to_string())),
        );
    let usage = scene.parameter_usage("r");
    assert_eq!(usage.len(), 1);
    assert_eq!(usage[0].scope, ParametricScope::Block(block));
}

#[test]
fn parameter_usage_deduplicates_an_entity_referenced_by_two_markers() {
    let mut scene = Scene::new();
    // A Distance constraint whose two points are both on the same
    // entity (e.g. a line's own start and end) must list that entity
    // once, not twice.
    scene
        .parametric_constraint_set_mut(ParametricScope::ModelSpace)
        .add(
            ConstraintKind::Distance,
            vec![ParametricRef::point(h(1), 0), ParametricRef::point(h(1), 1)],
            Some(DrivingValue::Named("len".to_string())),
        );
    let usage = scene.parameter_usage("len");
    assert_eq!(usage.len(), 1);
    assert_eq!(usage[0].entities, vec![h(1)]);
}

#[test]
fn visibility_toggles_geometric_and_dimensional_independently() {
    let mut scene = Scene::new();
    let line = h(1);
    let set = scene.parametric_constraint_set_mut(ParametricScope::ModelSpace);
    let geometric = set.add(
        ConstraintKind::Horizontal,
        vec![ParametricRef::whole(line)],
        None,
    );
    let dimensional = set.add(
        ConstraintKind::Distance,
        vec![ParametricRef::point(line, 0), ParametricRef::point(line, 1)],
        Some(DrivingValue::Literal(5.0f64.to_bits())),
    );

    assert_eq!(
        scene.set_parametric_constraint_visibility(ParametricScope::ModelSpace, None, false, false),
        1
    );
    assert!(!scene.is_parametric_constraint_visible(ParametricScope::ModelSpace, geometric));
    assert!(scene.is_parametric_constraint_visible(ParametricScope::ModelSpace, dimensional));
}

#[test]
fn constraint_display_distinguishes_loaded_created_and_explicit_visibility() {
    let mut scene = Scene::new();
    let scope = ParametricScope::ModelSpace;
    let id = scene.parametric_constraint_set_mut(scope).add(
        ConstraintKind::Horizontal,
        vec![ParametricRef::whole(h(1))],
        None,
    );
    assert!(!scene.should_display_parametric_constraint(
        scope, id, ConstraintKind::Horizontal, false, 3, 4095
    ));
    assert!(scene.should_display_parametric_constraint(
        scope, id, ConstraintKind::Horizontal, true, 2, 4095
    ));
    assert!(!scene.should_display_parametric_constraint(
        scope, id, ConstraintKind::Horizontal, true, 1, 4095
    ));
    scene.note_parametric_constraint_applied(scope, id, 1);
    assert!(scene.should_display_parametric_constraint(
        scope, id, ConstraintKind::Horizontal, false, 0, 4095
    ));
    scene.set_parametric_constraint_visibility(scope, None, false, false);
    assert!(!scene.should_display_parametric_constraint(
        scope, id, ConstraintKind::Horizontal, true, 3, 4095
    ));
    scene.set_parametric_constraint_visibility(scope, None, false, true);
    assert!(scene.should_display_parametric_constraint(
        scope, id, ConstraintKind::Horizontal, false, 0, 4095
    ));
    scene.note_parametric_constraint_applied(scope, id, 0);
    assert!(!scene.should_display_parametric_constraint(
        scope, id, ConstraintKind::Horizontal, false, 3, 4095
    ));
    assert!(scene.should_display_parametric_constraint(
        scope, id, ConstraintKind::Horizontal, true, 2, 4095
    ));
}

#[test]
fn hidden_constraint_stays_hidden_when_related_entity_is_selected() {
    let mut scene = Scene::new();
    let scope = ParametricScope::ModelSpace;
    let id = scene.parametric_constraint_set_mut(scope).add(
        ConstraintKind::Horizontal,
        vec![ParametricRef::whole(h(1))],
        None,
    );
    scene.hidden_parametric_constraints.push((scope, id));

    assert!(!scene.should_display_parametric_constraint(
        scope, id, ConstraintKind::Horizontal, true, 2, 4095
    ));
}

#[test]
fn bar_mode_bit_off_hides_the_glyph() {
    let mut scene = Scene::new();
    let scope = ParametricScope::ModelSpace;
    let id = scene.parametric_constraint_set_mut(scope).add(
        ConstraintKind::Horizontal,
        vec![ParametricRef::whole(h(1))],
        None,
    );
    scene.note_parametric_constraint_applied(scope, id, 1);
    assert!(!scene.should_display_parametric_constraint(
        scope, id, ConstraintKind::Horizontal, true, 3, 4095 & !1
    ));
}

#[test]
fn move_expansion_follows_only_coincident_relations() {
    let mut scene = Scene::new();
    let set = scene.parametric_constraint_set_mut(ParametricScope::ModelSpace);
    set.add(
        ConstraintKind::Coincident,
        vec![ParametricRef::point(h(1), 0), ParametricRef::point(h(2), 0)],
        None,
    );
    set.add(
        ConstraintKind::PointOnCurve,
        vec![ParametricRef::point(h(2), 0), ParametricRef::whole(h(3))],
        None,
    );
    set.add(
        ConstraintKind::Parallel,
        vec![ParametricRef::whole(h(3)), ParametricRef::whole(h(4))],
        None,
    );

    assert_eq!(
        scene.parametric_connected_handles(ParametricScope::ModelSpace, &[h(1)], false),
        vec![h(1), h(2), h(3)]
    );
}

#[test]
fn duplicating_an_axis_constraint_keeps_its_direction() {
    let mut scene = Scene::new();
    let source = h(1);
    let copied = h(2);
    let direction = acadrust::Vector3::new(3.0, 4.0, 0.0).normalize();
    let bits = Vec3Bits {
        x: direction.x.to_bits(),
        y: direction.y.to_bits(),
        z: direction.z.to_bits(),
    };
    scene
        .parametric_constraint_set_mut(ParametricScope::ModelSpace)
        .add_axis_constraint(
            ConstraintKind::Horizontal,
            vec![ParametricRef::whole(source)],
            bits,
        );
    let mut handle_map = rustc_hash::FxHashMap::default();
    handle_map.insert(source, copied);

    scene.duplicate_parametric_constraints_for(&handle_map);

    let constraints = &scene
        .parametric_constraint_set(ParametricScope::ModelSpace)
        .unwrap()
        .constraints;
    assert_eq!(constraints.len(), 2);
    assert_eq!(constraints[1].refs, vec![ParametricRef::whole(copied)]);
    assert_eq!(constraints[1].axis_direction, Some(bits));
}

#[test]
fn duplicating_with_an_empty_map_copies_nothing() {
    let mut scene = Scene::new();
    scene
        .parametric_constraint_set_mut(ParametricScope::ModelSpace)
        .add(ConstraintKind::Horizontal, vec![ParametricRef::whole(h(1))], None);
    let epoch = scene.constraints_epoch;
    scene.duplicate_parametric_constraints_for(&rustc_hash::FxHashMap::default());
    assert_eq!(
        scene
            .parametric_constraint_set(ParametricScope::ModelSpace)
            .unwrap()
            .constraints
            .len(),
        1
    );
    assert_eq!(scene.constraints_epoch, epoch);
}

#[test]
fn duplicating_skips_constraints_on_entities_that_were_not_copied() {
    let mut scene = Scene::new();
    let set = scene.parametric_constraint_set_mut(ParametricScope::ModelSpace);
    set.add(
        ConstraintKind::Parallel,
        vec![ParametricRef::whole(h(1)), ParametricRef::whole(h(2))],
        None,
    );
    set.add(ConstraintKind::Vertical, vec![ParametricRef::whole(h(1))], None);
    let mut handle_map = rustc_hash::FxHashMap::default();
    handle_map.insert(h(1), h(10));
    let epoch = scene.constraints_epoch;
    scene.duplicate_parametric_constraints_for(&handle_map);
    let constraints = &scene
        .parametric_constraint_set(ParametricScope::ModelSpace)
        .unwrap()
        .constraints;
    assert_eq!(constraints.len(), 3);
    assert_eq!(constraints[2].kind, ConstraintKind::Vertical);
    assert_eq!(constraints[2].refs, vec![ParametricRef::whole(h(10))]);
    assert_eq!(scene.constraints_epoch, epoch.wrapping_add(1));
}

#[test]
fn enabling_reports_whether_the_constraint_exists() {
    let mut scene = Scene::new();
    let scope = ParametricScope::ModelSpace;
    let id = scene
        .parametric_constraint_set_mut(scope)
        .add(ConstraintKind::Horizontal, vec![ParametricRef::whole(h(1))], None);
    assert!(scene.set_constraint_enabled(scope, id, false));
    assert!(!scene.parametric_constraint_set(scope).unwrap().get(id).unwrap().enabled);
    assert!(!scene.set_constraint_enabled(scope, id + 1, false));
    assert!(!scene.set_constraint_enabled(ParametricScope::Block(h(5)), id, false));
}

#[test]
fn a_parameter_is_angular_when_an_angle_uses_it() {
    let mut scene = Scene::new();
    scene
        .parametric_constraint_set_mut(ParametricScope::ModelSpace)
        .add(
            ConstraintKind::Angle,
            vec![ParametricRef::whole(h(1)), ParametricRef::whole(h(2))],
            Some(DrivingValue::Named("ang1".to_string())),
        );
    scene
        .parametric_constraint_set_mut(ParametricScope::ModelSpace)
        .add(
            ConstraintKind::Distance,
            vec![ParametricRef::whole(h(3))],
            Some(DrivingValue::Named("d1".to_string())),
        );
    assert!(scene.parameter_is_angular("ang1"));
    assert!(!scene.parameter_is_angular("d1"));
    assert!(!scene.parameter_is_angular("missing"));
}

fn record(handle: u64, name: &str, layout: u64, members: Vec<u64>) -> BlockRecordEntry {
    BlockRecordEntry {
        handle,
        name: name.to_string(),
        anonymous_flag: false,
        xref: false,
        layout,
        block_entity_handle: handle + 1000,
        block_end_handle: handle + 2000,
        entity_handles: members,
    }
}

fn drawing() -> Drawing {
    Drawing {
        block_records: vec![
            record(1, "*Model_Space", 50, vec![]),
            record(2, "*Paper_Space", 51, vec![]),
            record(3, "Door", 0, vec![30, 31]),
            record(4, "*D1", 0, vec![40, 41, 30]),
            record(5, "Window", 0, vec![]),
            record(6, "xref|Wall", 0, vec![]),
        ],
        entities: vec![
            DrawingEntity::BlockBegin { handle: 1003, name: "Door".to_string() },
            DrawingEntity::Insert { handle: 100, block_name: "door".to_string() },
            DrawingEntity::Insert { handle: 101, block_name: "Window".to_string() },
            DrawingEntity::Dimension { handle: 30, block_name: "  *d1 ".to_string() },
            DrawingEntity::Text { handle: 31, generation_flags: 0 },
        ],
    }
}

fn scene_with(d: Drawing) -> Scene {
    let mut scene = Scene::new();
    scene.document = d;
    scene
}

#[test]
fn custom_block_names_skip_standard_layout_blocks() {
    let scene = scene_with(drawing());
    assert_eq!(
        scene.custom_block_names(),
        vec!["Door".to_string(), "*D1".to_string(), "Window".to_string(), "xref|Wall".to_string()]
    );
}

#[test]
fn a_new_scene_lists_no_custom_blocks() {
    let scene = Scene::new();
    assert_eq!(scene.document.block_records.len(), 2);
    assert_eq!(scene.document.block_records[0].name, "*Model_Space");
    assert_eq!(scene.document.block_records[1].name, "*Paper_Space");
    assert!(scene.custom_block_names().is_empty());
}

#[test]
fn clear_starts_over_on_a_new_drawing() {
    let mut scene = scene_with(drawing());
    scene
        .parametric_constraint_set_mut(ParametricScope::ModelSpace)
        .add(ConstraintKind::Horizontal, vec![ParametricRef::whole(h(1))], None);
    scene.display.selection = vec![100, 101];
    scene.display.current_layout = "Layout1".to_string();
    let camera = scene.display.camera_generation;
    let epoch = scene.display.geometry_epoch;
    scene.clear();
    assert!(scene.document.entities.is_empty());
    assert!(scene.custom_block_names().is_empty());
    assert_eq!(scene.document.block_records.len(), 2);
    assert_eq!(scene.parametric_constraints.len(), 1);
    assert!(scene.display.selection.is_empty());
    assert_eq!(scene.display.current_layout, "Model");
    assert_eq!(scene.display.camera_generation, camera + 1);
    assert_eq!(scene.display.geometry_epoch, epoch + 1);
}

#[test]
fn a_rename_bumps_the_geometry_epoch_only_when_it_goes_through() {
    let mut scene = scene_with(drawing());
    let epoch = scene.display.geometry_epoch;
    assert!(!scene.rename_block("Door", "Window"));
    assert_eq!(scene.display.geometry_epoch, epoch);
    assert!(scene.rename_block("Door", "Gate"));
    assert_eq!(scene.display.geometry_epoch, epoch + 1);
}

#[test]
fn renaming_a_block_repoints_its_marker_and_references() {
    let mut scene = scene_with(drawing());
    assert!(scene.rename_block("DOOR", "Gate"));
    let names: Vec<&str> = scene.document.block_records.iter().map(|r| r.name.as_str()).collect();
    assert_eq!(names, vec!["*Model_Space", "*Paper_Space", "*D1", "Window", "xref|Wall", "Gate"]);
    assert_eq!(scene.document.block_records[5].handle, 3);
    assert!(matches!(
        &scene.document.entities[0],
        DrawingEntity::BlockBegin { handle: 1003, name } if name == "Gate"
    ));
    assert!(matches!(
        &scene.document.entities[1],
        DrawingEntity::Insert { handle: 100, block_name } if block_name == "Gate"
    ));
    assert!(matches!(
        &scene.document.entities[2],
        DrawingEntity::Insert { block_name, .. } if block_name == "Window"
    ));
    assert!(scene.document.find_block("gate").is_some());
    assert!(scene.document.find_block("Door").is_none());
}

#[test]
fn refused_renames_change_nothing() {
    let cases = [
        ("Door", "Window"),   // already taken
        ("Door", "DOOR"),     // equal up to case
        ("Door", "   "),      // blank
        ("Door", "*Mine"),    // anonymous-style name
        ("Missing", "Other"), // no such block
        ("*D1", "Dim"),       // anonymous
        ("xref|Wall", "Wall"), // bound to a referenced file
        ("Door", "lib|Door"), // a name bound to a referenced file
    ];
    for (old, new) in cases {
        let mut scene = scene_with(drawing());
        assert!(!scene.rename_block(old, new), "{old} -> {new}");
        let names: Vec<&str> =
            scene.document.block_records.iter().map(|r| r.name.as_str()).collect();
        assert_eq!(
            names,
            vec!["*Model_Space", "*Paper_Space", "Door", "*D1", "Window", "xref|Wall"]
        );
    }
}

#[test]
fn an_external_reference_record_is_not_renamed() {
    let mut d = drawing();
    d.block_records[4].xref = true;
    let mut scene = scene_with(d);
    assert!(!scene.rename_block("Window", "Pane"));
}

#[test]
fn dimension_blocks_inside_a_definition_are_its_dependents() {
    let scene = scene_with(drawing());
    // Door holds the dimension 30 drawn by block *D1 (entities 40, 41, 30);
    // 30 is Door's own member, so only 40 and 41 depend on Door.
    assert_eq!(scene.block_definition_dependent_handles(3), vec![40, 41]);
    assert_eq!(scene.block_definition_dependent_handles(5), Vec::<u64>::new());
    assert_eq!(scene.block_definition_dependent_handles(77), Vec::<u64>::new());
}

#[test]
fn inference_proposals_map_relations_and_skip_existing_constraints() {
    let mut scene = Scene::new();
    let first = h(1);
    let second = h(2);
    scene
        .parametric_constraint_set_mut(ParametricScope::ModelSpace)
        .add(ConstraintKind::Horizontal, vec![ParametricRef::whole(first)], None);
    let sources = [InferenceSource::curve(first), InferenceSource::curve(second)];
    let relations = [
        InferredRelation::Horizontal { entity: 0 },
        InferredRelation::Horizontal { entity: 1 },
        InferredRelation::Coincident {
            first: 0,
            first_end: SourceEnd::End,
            second: 1,
            second_end: SourceEnd::Start,
        },
        InferredRelation::Coincident {
            first: 0,
            first_end: SourceEnd::Start,
            second: 0,
            second_end: SourceEnd::End,
        },
    ];
    let inferred = scene.inferred_parametric_constraints(
        ParametricScope::ModelSpace,
        &sources,
        &relations,
        &[true; 4],
    );
    assert_eq!(
        inferred,
        vec![
            (ConstraintKind::Horizontal, vec![ParametricRef::whole(second)]),
            (
                ConstraintKind::Coincident,
                vec![ParametricRef::point(first, 1), ParametricRef::point(second, 0)]
            ),
        ]
    );
}

#[test]
fn inference_proposals_recognise_a_swapped_existing_pair() {
    let mut scene = Scene::new();
    scene.parametric_constraint_set_mut(ParametricScope::ModelSpace).add(
        ConstraintKind::Parallel,
        vec![ParametricRef::whole(h(2)), ParametricRef::whole(h(1))],
        None,
    );
    let sources = [InferenceSource::curve(h(1)), InferenceSource::circle(h(2)), InferenceSource::circle(h(3))];
    let relations = [
        InferredRelation::Parallel { first: 0, second: 1 },
        InferredRelation::Concentric { first: 1, second: 2 },
    ];
    let inferred = scene.inferred_parametric_constraints(
        ParametricScope::ModelSpace,
        &sources,
        &relations,
        &[true; 2],
    );
    assert_eq!(
        inferred,
        vec![(
            ConstraintKind::Concentric,
            vec![ParametricRef::center(h(2)), ParametricRef::center(h(3))]
        )]
    );
}

#[test]
fn associative_hatches_follow_their_changed_boundaries() {
    let mut d = drawing();
    d.entities.push(DrawingEntity::Hatch { handle: 200, associative: true, boundary_handles: vec![100, 101] });
    d.entities.push(DrawingEntity::Hatch { handle: 201, associative: false, boundary_handles: vec![100] });
    d.entities.push(DrawingEntity::Hatch { handle: 202, associative: true, boundary_handles: vec![31] });
    let scene = scene_with(d);
    let mut changed = rustc_hash::FxHashSet::default();
    changed.insert(101u64);
    changed.insert(100u64);
    assert_eq!(scene.associative_hatch_dependents(&changed), vec![200]);
    changed.insert(31u64);
    let mut all = scene.associative_hatch_dependents(&changed);
    all.sort();
    assert_eq!(all, vec![200, 202]);
    assert!(scene.associative_hatch_dependents(&rustc_hash::FxHashSet::default()).is_empty());
}

#[test]
fn block_lookup_ignores_case() {
    let d = drawing();
    assert_eq!(d.find_block("DOOR"), Some(2));
    assert_eq!(d.find_block("window"), Some(4));
    assert_eq!(d.find_block("Gate"), None);
}

#[test]
fn well_formedness_rejects_shared_keys_and_handles() {
    assert!(drawing().check_wf());
    let mut d = drawing();
    d.block_records[4].name = "DOOR".to_string();
    assert!(!d.check_wf());
    let mut d = drawing();
    d.entities.push(DrawingEntity::Other { handle: 100 });
    assert!(!d.check_wf());
    assert!(Scene::new().document.check_wf());
}

#[test]
fn new_block_names_are_trimmed_and_checked_against_the_table() {
    let d = drawing();
    assert!(matches!(d.new_block_name("   "), Err(BlockNameError::Empty)));
    assert!(matches!(d.new_block_name(" *X"), Err(BlockNameError::Anonymous)));
    match d.new_block_name("door ") {
        Err(BlockNameError::Exists(n)) => assert_eq!(n, "door"),
        other => panic!("unexpected {:?}", other),
    }
    assert_eq!(d.new_block_name("  Gate ").unwrap(), "Gate");
}

#[test]
fn a_dimension_block_invalidation_captures_members_and_markers() {
    let mut d = drawing();
    d.entities.push(DrawingEntity::Dimension { handle: 60, block_name: "*d1".to_string() });
    assert_eq!(d.dimension_block_handles(60), vec![40, 41, 30, 1004, 2004]);
    // The padded name of dimension 30 finds no block under the table's key.
    assert!(d.dimension_block_handles(30).is_empty());
    // Not a dimension, or no entity at all.
    assert!(d.dimension_block_handles(100).is_empty());
    assert!(d.dimension_block_handles(999).is_empty());
}

#[test]
fn a_new_dimension_block_takes_the_smallest_free_number() {
    let mut d = drawing();
    assert_eq!(d.free_dimension_block_name(), "*D0");
    d.block_records.push(record(7, "*d0", 0, vec![]));
    assert_eq!(d.free_dimension_block_name(), "*D2");
    for n in 2..12u64 {
        d.block_records.push(record(8 + n, &format!("*D{n}"), 0, vec![]));
    }
    assert_eq!(d.free_dimension_block_name(), "*D12");
}

fn cache_drawing() -> Drawing {
    Drawing {
        block_records: vec![record(1, "*Model_Space", 50, vec![]), record(3, "Door", 0, vec![12])],
        entities: vec![
            DrawingEntity::Hatch { handle: 10, associative: false, boundary_handles: vec![] },
            DrawingEntity::Volume { handle: 11, owner: 1 },
            DrawingEntity::Volume { handle: 12, owner: 3 },
            DrawingEntity::Image { handle: 13 },
            DrawingEntity::Solid { handle: 14 },
            DrawingEntity::Other { handle: 15 },
            DrawingEntity::Volume { handle: 16, owner: 1 },
        ],
    }
}

#[test]
fn cache_rebuilds_draw_from_the_right_entities() {
    let d = cache_drawing();
    assert_eq!(d.fill_sources(), vec![10, 14]);
    assert_eq!(d.image_sources(), vec![13]);
    assert_eq!(d.mesh_sources(&vec![1], &vec![], false), vec![(11, true), (12, false), (16, true)]);
}

#[test]
fn an_incremental_mesh_pass_skips_cached_solids() {
    let d = cache_drawing();
    assert_eq!(d.mesh_sources(&vec![1], &vec![11, 12], true), vec![(16, true)]);
    // A full pass ignores what is cached.
    assert_eq!(d.mesh_sources(&vec![1], &vec![11, 12], false).len(), 3);
}

#[test]
fn duplicating_keeps_the_distance_direction_and_angle_sector() {
    let mut scene = Scene::new();
    let set = scene.parametric_constraint_set_mut(ParametricScope::ModelSpace);
    set.add(
        ConstraintKind::Distance,
        vec![ParametricRef::point(h(1), 0), ParametricRef::point(h(1), 1)],
        None,
    );
    let direction = Vec3Bits { x: 1.0f64.to_bits(), y: 0, z: 0 };
    set.constraints[0].distance_direction_type = 2;
    set.constraints[0].distance_direction = Some(direction);
    set.constraints[0].angle_sector = 3;
    let mut handle_map = rustc_hash::FxHashMap::default();
    handle_map.insert(h(1), h(5));
    scene.duplicate_parametric_constraints_for(&handle_map);
    let constraints = &scene
        .parametric_constraint_set(ParametricScope::ModelSpace)
        .unwrap()
        .constraints;
    assert_eq!(constraints.len(), 2);
    assert_eq!(constraints[1].refs, vec![ParametricRef::point(h(5), 0), ParametricRef::point(h(5), 1)]);
    assert_eq!(constraints[1].distance_direction_type, 2);
    assert_eq!(constraints[1].distance_direction, Some(direction));
    assert_eq!(constraints[1].angle_sector, 3);
}

#[test]
fn renaming_a_block_back_restores_its_name_and_references() {
    let mut scene = scene_with(drawing());
    assert!(scene.rename_block("Door", "Gate"));
    assert!(scene.rename_block("Gate", "Door"));
    let names: Vec<&str> = scene.document.block_records.iter().map(|r| r.name.as_str()).collect();
    assert_eq!(names, vec!["*Model_Space", "*Paper_Space", "*D1", "Window", "xref|Wall", "Door"]);
    assert_eq!(scene.document.block_records[5].handle, 3);
    assert!(matches!(
        &scene.document.entities[0],
        DrawingEntity::BlockBegin { handle: 1003, name } if name == "Door"
    ));
    // The reference written "door" now names the block exactly.
    assert!(matches!(
        &scene.document.entities[1],
        DrawingEntity::Insert { handle: 100, block_name } if block_name == "Door"
    ));
}

/// Two lines, (0,0)-(5,0) and (5,0)-(10,0), the first already horizontal.
/// Inference relates them as below; the validity check refuses the
/// collinearity (its verdicts are given per relation).
#[test]
fn automatic_inference_maps_relations_and_skips_existing_constraints() {
    let mut scene = Scene::new();
    let first = h(1);
    let second = h(2);
    scene
        .parametric_constraint_set_mut(ParametricScope::ModelSpace)
        .add(ConstraintKind::Horizontal, vec![ParametricRef::whole(first)], None);
    let sources = [InferenceSource::curve(first), InferenceSource::curve(second)];
    let relations = [
        InferredRelation::Horizontal { entity: 0 },
        InferredRelation::Horizontal { entity: 1 },
        InferredRelation::Coincident {
            first: 0,
            first_end: SourceEnd::End,
            second: 1,
            second_end: SourceEnd::Start,
        },
        InferredRelation::Collinear { first: 0, second: 1 },
    ];
    let inferred = scene.inferred_parametric_constraints(
        ParametricScope::ModelSpace,
        &sources,
        &relations,
        &[true, true, true, false],
    );
    assert!(!inferred.iter().any(|(kind, refs)| {
        *kind == ConstraintKind::Horizontal && *refs == [ParametricRef::whole(first)]
    }));
    assert!(inferred.iter().any(|(kind, refs)| {
        *kind == ConstraintKind::Horizontal && *refs == [ParametricRef::whole(second)]
    }));
    assert!(inferred.iter().any(|(kind, _)| *kind == ConstraintKind::Coincident));
    assert!(!inferred.iter().any(|(kind, _)| *kind == ConstraintKind::Colinear));
}

#[test]
fn refused_proposals_are_left_out() {
    let scene = Scene::new();
    let sources = [InferenceSource::curve(h(1)), InferenceSource::curve(h(2))];
    let relations = [
        InferredRelation::Parallel { first: 0, second: 1 },
        InferredRelation::Equal { first: 0, second: 1 },
    ];
    let inferred = scene.inferred_parametric_constraints(
        ParametricScope::ModelSpace,
        &sources,
        &relations,
        &[false, true],
    );
    assert_eq!(
        inferred,
        vec![(ConstraintKind::Equal, vec![ParametricRef::whole(h(1)), ParametricRef::whole(h(2))])]
    );
}
