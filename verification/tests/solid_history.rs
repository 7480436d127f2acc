use cad_scene::solid_history::{
    apply_history_choice, displayed_history_state, history_flags, is_history_choice,
    is_primitive_property, SolidHistory, PROP_HISTORY, PROP_LENGTH, PROP_ROTATION,
    PROP_SHOW_HISTORY,
};

#[test]
fn primitive_properties_and_history_choices_are_told_apart() {
    assert!(is_primitive_property(PROP_LENGTH));
    assert!(is_primitive_property(PROP_ROTATION));
    assert!(!is_primitive_property(PROP_HISTORY));
    assert!(!is_primitive_property("solid_history_elliptical"));
    assert!(is_history_choice(PROP_HISTORY));
    assert!(is_history_choice(PROP_SHOW_HISTORY));
    assert!(!is_history_choice(PROP_LENGTH));
    assert!(!is_history_choice("Solid_History_Record"));
}

#[test]
fn displayed_state_follows_the_show_history_mode() {
    assert_eq!(displayed_history_state(true, 0), (false, false));
    assert_eq!(displayed_history_state(false, 2), (true, false));
    assert_eq!(displayed_history_state(true, 1), (true, true));
    assert_eq!(displayed_history_state(false, 1), (false, true));
}

#[test]
fn history_flags_clamp_the_mode() {
    let h = SolidHistory { record_history: true, show_history: false };
    assert_eq!(history_flags(&h, 7), (true, false, 2));
    assert_eq!(history_flags(&h, -3), (true, false, 0));
    assert_eq!(history_flags(&h, 1), (true, false, 1));
}

#[test]
fn history_choice_applies_and_reports_change() {
    let mut h = SolidHistory { record_history: false, show_history: false };
    assert!(apply_history_choice(&mut h, 1, PROP_HISTORY, "record"));
    assert!(h.record_history);
    assert!(!apply_history_choice(&mut h, 1, PROP_HISTORY, "RECORD"));
    assert!(!apply_history_choice(&mut h, 1, PROP_HISTORY, "maybe"));
    assert!(h.record_history);
    assert!(apply_history_choice(&mut h, 1, PROP_SHOW_HISTORY, "Yes"));
    assert!(h.show_history);
    // Show History is only editable in mode 1.
    assert!(!apply_history_choice(&mut h, 2, PROP_SHOW_HISTORY, "No"));
    assert!(h.show_history);
    assert!(!apply_history_choice(&mut h, 1, PROP_LENGTH, "Yes"));
}

#[test]
fn no_property_is_also_a_history_choice() {
    let props = [
        "solid_history_length", "solid_history_width", "solid_history_height",
        "solid_history_radius", "solid_history_diameter", "solid_history_base_radius",
        "solid_history_top_radius", "solid_history_base_major_radius",
        "solid_history_base_minor_radius", "solid_history_top_major_radius",
        "solid_history_top_minor_radius", "solid_history_major_radius",
        "solid_history_minor_radius", "solid_history_outer_radius", "solid_history_inner_radius",
        "solid_history_sides", "solid_history_position_x", "solid_history_position_y",
        "solid_history_position_z", "solid_history_rotation",
    ];
    for p in props {
        assert!(is_primitive_property(p));
        assert!(!is_history_choice(p));
    }
    for c in [PROP_HISTORY, PROP_SHOW_HISTORY] {
        assert!(!is_primitive_property(c));
    }
}
