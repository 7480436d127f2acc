use cad_scene::annotative::{
    active_object_context, annotative_offscale, clear_annotation_context, current_scale_provided,
    has_context_manager, remove_annotation_context_for_scale, set_entity_annotative,
    RepresentationRemoval,
    is_annotative, name_matches, object_scale_memberships, style_annotative, AnnotationObject,
    AnnotativeSubject, StyleEntry,
};
use std::collections::HashMap;
use cad_scene::drawing::{mirror_true_text_flags, valid_block_name, DrawingEntity};
use cad_scene::text::{blank, eq_ignore_ascii_case, str_equal, trimmed};

#[test]
fn string_helpers_follow_std() {
    assert!(str_equal("abc", "abc"));
    assert!(!str_equal("abc", "abd"));
    assert!(eq_ignore_ascii_case("Standard", "sTANDARD"));
    assert!(!eq_ignore_ascii_case("\u{e9}", "\u{c9}"));
    assert!(blank(" \t\n"));
    assert!(!blank(" x "));
    assert_eq!(trimmed("  a b \t"), "a b");
    assert_eq!(trimmed("   "), "");
    assert_eq!(trimmed("x"), "x");
}

#[test]
fn a_blank_style_name_means_standard() {
    assert!(name_matches("STANDARD", ""));
    assert!(name_matches("Standard", "  "));
    assert!(name_matches("Notes", "notes"));
    assert!(!name_matches("Notes", ""));
    assert!(!name_matches("Notes", "Note"));
}

#[test]
fn the_first_matching_style_decides() {
    let styles = vec![
        StyleEntry { name: "Standard".to_string(), annotative: false },
        StyleEntry { name: "Notes".to_string(), annotative: true },
        StyleEntry { name: "NOTES".to_string(), annotative: false },
    ];
    assert!(style_annotative(&styles, "notes"));
    assert!(!style_annotative(&styles, ""));
    assert!(!style_annotative(&styles, "Missing"));
}

#[test]
fn block_names_need_content_and_no_leading_star() {
    assert!(valid_block_name("Door"));
    assert!(valid_block_name("  Door"));
    assert!(!valid_block_name(""));
    assert!(!valid_block_name(" \t"));
    assert!(!valid_block_name("*U1"));
    assert!(!valid_block_name("  *U1"));
    assert!(!valid_block_name("lib|Door"));
}

#[test]
fn mirroring_text_glyphs_toggles_the_backward_and_upside_down_bits() {
    let mut t = DrawingEntity::Text { handle: 3, generation_flags: 2 };
    mirror_true_text_flags(&mut t);
    assert!(matches!(t, DrawingEntity::Text { handle: 3, generation_flags: 4 }));
    mirror_true_text_flags(&mut t);
    assert!(matches!(t, DrawingEntity::Text { handle: 3, generation_flags: 2 }));
    let mut other = DrawingEntity::Other { handle: 9 };
    mirror_true_text_flags(&mut other);
    assert!(matches!(other, DrawingEntity::Other { handle: 9 }));
}

fn names(v: &[&str]) -> Vec<String> {
    v.iter().map(|s| s.to_string()).collect()
}

#[test]
fn a_representation_for_the_current_scale_is_never_off_scale() {
    let scales = names(&["1:1", "1:10"]);
    assert!(!annotative_offscale(true, &scales, "1:10", true));
    assert!(!annotative_offscale(true, &scales, "1:10", false));
    assert!(!annotative_offscale(false, &scales, "1:50", true));
    assert!(!annotative_offscale(true, &[], "1:50", true));
}

#[test]
fn off_scale_representations_hide_or_fall_back_to_one_to_one() {
    let with_base = names(&["1:1", "1:10"]);
    let without_base = names(&["1:10"]);
    // Another representation shows the current scale: hide this one.
    assert!(annotative_offscale(true, &with_base, "1:50", true));
    // Nobody shows the current scale: keep the 1:1 one, hide the others.
    assert!(!annotative_offscale(true, &with_base, "1:50", false));
    assert!(annotative_offscale(true, &without_base, "1:50", false));
}

#[test]
fn annotative_through_context_marker_flag_or_style() {
    let text_styles = vec![
        StyleEntry { name: "Standard".to_string(), annotative: false },
        StyleEntry { name: "Notes".to_string(), annotative: true },
    ];
    let dim_styles = vec![StyleEntry { name: "Anno".to_string(), annotative: true }];
    let mut objects = store();
    objects.insert(50, AnnotationObject::MultiLeaderStyle { annotative: true });
    objects.insert(51, AnnotationObject::TableStyle { annotative: true });
    objects.insert(52, AnnotationObject::TableStyle { annotative: false });
    let ann = |xd: Option<u64>, marker: bool, subject: &AnnotativeSubject| {
        is_annotative(&objects, xd, marker, subject, &text_styles, &dim_styles)
    };
    let plain = AnnotativeSubject::Text { style: "Standard".to_string() };
    assert!(!ann(None, false, &plain));
    assert!(ann(Some(10), false, &plain));
    assert!(!ann(Some(40), false, &plain));
    assert!(ann(None, true, &plain));
    assert!(ann(None, false, &AnnotativeSubject::Text { style: "notes".to_string() }));
    assert!(ann(None, false, &AnnotativeSubject::MText { annotative: true, style: String::new() }));
    assert!(ann(None, false, &AnnotativeSubject::Dimension { style: "ANNO".to_string() }));
    assert!(!ann(None, false, &AnnotativeSubject::Leader { style: "Notes".to_string() }));
    assert!(ann(None, false, &AnnotativeSubject::MultiLeader { annotative: false, style: Some(50) }));
    assert!(!ann(None, false, &AnnotativeSubject::MultiLeader { annotative: false, style: Some(51) }));
    assert!(ann(None, false, &AnnotativeSubject::Table { style: Some(51) }));
    assert!(!ann(None, false, &AnnotativeSubject::Table { style: Some(52) }));
    assert!(!ann(None, false, &AnnotativeSubject::Table { style: None }));
    assert!(!ann(None, false, &AnnotativeSubject::Other));
}

fn dict(entries: &[(&str, u64)]) -> AnnotationObject {
    AnnotationObject::Dictionary {
        entries: entries.iter().map(|(k, h)| (k.to_string(), *h)).collect(),
    }
}

/// An object whose extension dictionary 10 leads, through the context
/// manager 11, to the scale collection 12 holding representations 20 (1:1,
/// native) and 21 (1:10), and a dangling entry 22.
fn store() -> HashMap<u64, AnnotationObject> {
    let mut objects = HashMap::new();
    objects.insert(10, dict(&[("AcDbContextDataManager", 11)]));
    objects.insert(11, dict(&[("acdb_annotationscales", 12)]));
    objects.insert(12, dict(&[("*A1", 20), ("*A2", 21), ("*A3", 22)]));
    objects.insert(20, AnnotationObject::ContextData { scale: 30, is_default: true });
    objects.insert(21, AnnotationObject::ContextData { scale: 31, is_default: false });
    objects.insert(30, AnnotationObject::Scale { name: "1:1".to_string() });
    objects.insert(31, AnnotationObject::Scale { name: "1:10".to_string() });
    objects.insert(40, dict(&[]));
    objects
}

#[test]
fn scale_memberships_follow_the_context_chain() {
    let objects = store();
    assert_eq!(
        object_scale_memberships(&objects, Some(10)),
        vec![("1:1".to_string(), 30), ("1:10".to_string(), 31)]
    );
    assert!(object_scale_memberships(&objects, Some(40)).is_empty());
    assert!(object_scale_memberships(&objects, None).is_empty());
    assert!(has_context_manager(&objects, Some(10)));
    assert!(!has_context_manager(&objects, Some(40)));
    assert!(!has_context_manager(&objects, Some(99)));
}

#[test]
fn the_active_representation_prefers_the_current_scale_then_the_native_one() {
    let objects = store();
    assert_eq!(active_object_context(&objects, Some(10), "1:10"), Some(21));
    assert_eq!(active_object_context(&objects, Some(10), "1:1"), Some(20));
    assert_eq!(active_object_context(&objects, Some(10), "1:50"), Some(20));
    assert_eq!(active_object_context(&objects, None, "1:10"), None);
    let mut no_native = store();
    no_native.insert(20, AnnotationObject::ContextData { scale: 30, is_default: false });
    assert_eq!(active_object_context(&no_native, Some(10), "1:50"), Some(20));
}

#[test]
fn a_scale_is_provided_when_some_representation_targets_it() {
    let objects = store();
    assert!(current_scale_provided(&objects, "1:10"));
    assert!(current_scale_provided(&objects, "1:1"));
    assert!(!current_scale_provided(&objects, "1:50"));
}

#[test]
fn clearing_the_context_drops_the_chain_but_keeps_the_scales() {
    let mut objects = store();
    objects.insert(10, dict(&[("Other", 40), ("AcDbContextDataManager", 11)]));
    clear_annotation_context(&mut objects, Some(10));
    for gone in [11u64, 12, 20, 21] {
        assert!(!objects.contains_key(&gone), "{gone}");
    }
    assert!(objects.contains_key(&30) && objects.contains_key(&31) && objects.contains_key(&40));
    assert!(matches!(
        objects.get(&10),
        Some(AnnotationObject::Dictionary { entries }) if entries == &vec![("Other".to_string(), 40)]
    ));
    assert!(!has_context_manager(&objects, Some(10)));
    let before = store();
    let mut untouched = store();
    clear_annotation_context(&mut untouched, None);
    assert_eq!(untouched.len(), before.len());
}

#[test]
fn removing_one_scale_keeps_the_others() {
    let mut objects = store();
    assert_eq!(
        remove_annotation_context_for_scale(&mut objects, Some(10), 31),
        RepresentationRemoval::Removed
    );
    assert!(!objects.contains_key(&21));
    assert_eq!(object_scale_memberships(&objects, Some(10)), vec![("1:1".to_string(), 30)]);
    assert_eq!(
        remove_annotation_context_for_scale(&mut objects, Some(10), 31),
        RepresentationRemoval::NotFound
    );
}

#[test]
fn removing_the_last_scale_clears_the_context() {
    let mut objects = store();
    objects.insert(12, dict(&[("*A1", 20)]));
    assert_eq!(
        remove_annotation_context_for_scale(&mut objects, Some(10), 30),
        RepresentationRemoval::ContextCleared
    );
    assert!(!has_context_manager(&objects, Some(10)));
    assert!(!objects.contains_key(&11) && !objects.contains_key(&20));
    assert_eq!(
        remove_annotation_context_for_scale(&mut objects, None, 30),
        RepresentationRemoval::NotFound
    );
}

#[test]
fn turning_annotative_off_clears_the_flag_and_the_context() {
    let mut objects = store();
    let mut subject = AnnotativeSubject::MText { annotative: true, style: "Notes".to_string() };
    set_entity_annotative(&mut objects, Some(10), &mut subject, false);
    assert!(matches!(subject, AnnotativeSubject::MText { annotative: false, .. }));
    assert!(!has_context_manager(&objects, Some(10)));
    let mut leader = AnnotativeSubject::MultiLeader { annotative: false, style: None };
    let mut kept = store();
    set_entity_annotative(&mut kept, Some(10), &mut leader, true);
    assert!(matches!(leader, AnnotativeSubject::MultiLeader { annotative: true, .. }));
    assert!(has_context_manager(&kept, Some(10)));
}
