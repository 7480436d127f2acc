//! Solid-history property fields and the History / Show History choices of a
//! primitive solid.

use crate::text::{eq_ignore_ascii_case, str_equal};
use vstd::prelude::*;

verus! {

pub const GRIP_LENGTH: usize = 10_001;

pub const GRIP_WIDTH: usize = 10_002;

pub const GRIP_HEIGHT: usize = 10_003;

pub const GRIP_RADIUS: usize = 10_004;

pub const GRIP_OUTER_RADIUS: usize = 10_005;

pub const GRIP_INNER_RADIUS: usize = 10_006;

pub const GRIP_SIDES: usize = 10_007;

pub const GRIP_MAJOR_RADIUS: usize = 10_008;

pub const GRIP_MINOR_RADIUS: usize = 10_009;

pub const GRIP_BOX_CORNER_FIRST: usize = 10_100;

pub const GRIP_BOX_FACE_X_MIN: usize = 10_110;

pub const GRIP_BOX_FACE_X_MAX: usize = 10_111;

pub const GRIP_BOX_FACE_Y_MIN: usize = 10_112;

pub const GRIP_BOX_FACE_Y_MAX: usize = 10_113;

pub const GRIP_BOX_FACE_Z_MIN: usize = 10_114;

pub const GRIP_BOX_FACE_Z_MAX: usize = 10_115;

pub const PROP_LENGTH: &'static str = "solid_history_length";

pub const PROP_WIDTH: &'static str = "solid_history_width";

pub const PROP_HEIGHT: &'static str = "solid_history_height";

pub const PROP_RADIUS: &'static str = "solid_history_radius";

pub const PROP_DIAMETER: &'static str = "solid_history_diameter";

pub const PROP_BASE_RADIUS: &'static str = "solid_history_base_radius";

pub const PROP_TOP_RADIUS: &'static str = "solid_history_top_radius";

pub const PROP_BASE_MAJOR_RADIUS: &'static str = "solid_history_base_major_radius";

pub const PROP_BASE_MINOR_RADIUS: &'static str = "solid_history_base_minor_radius";

pub const PROP_TOP_MAJOR_RADIUS: &'static str = "solid_history_top_major_radius";

pub const PROP_TOP_MINOR_RADIUS: &'static str = "solid_history_top_minor_radius";

pub const PROP_MAJOR_RADIUS: &'static str = "solid_history_major_radius";

pub const PROP_MINOR_RADIUS: &'static str = "solid_history_minor_radius";

pub const PROP_ELLIPTICAL: &'static str = "solid_history_elliptical";

pub const PROP_OUTER_RADIUS: &'static str = "solid_history_outer_radius";

pub const PROP_INNER_RADIUS: &'static str = "solid_history_inner_radius";

pub const PROP_SIDES: &'static str = "solid_history_sides";

pub const PROP_POSITION_X: &'static str = "solid_history_position_x";

pub const PROP_POSITION_Y: &'static str = "solid_history_position_y";

pub const PROP_POSITION_Z: &'static str = "solid_history_position_z";

pub const PROP_ROTATION: &'static str = "solid_history_rotation";

pub const PROP_HISTORY: &'static str = "solid_history_record";

pub const PROP_SHOW_HISTORY: &'static str = "solid_history_show";

/// The editable geometry fields of a primitive solid.
pub open spec fn spec_is_primitive_property(field: Seq<char>) -> bool {
    ||| field == "solid_history_length"@
    ||| field == "solid_history_width"@
    ||| field == "solid_history_height"@
    ||| field == "solid_history_radius"@
    ||| field == "solid_history_diameter"@
    ||| field == "solid_history_base_radius"@
    ||| field == "solid_history_top_radius"@
    ||| field == "solid_history_base_major_radius"@
    ||| field == "solid_history_base_minor_radius"@
    ||| field == "solid_history_top_major_radius"@
    ||| field == "solid_history_top_minor_radius"@
    ||| field == "solid_history_major_radius"@
    ||| field == "solid_history_minor_radius"@
    ||| field == "solid_history_outer_radius"@
    ||| field == "solid_history_inner_radius"@
    ||| field == "solid_history_sides"@
    ||| field == "solid_history_position_x"@
    ||| field == "solid_history_position_y"@
    ||| field == "solid_history_position_z"@
    ||| field == "solid_history_rotation"@
}

/// The two history choice fields.
pub open spec fn spec_is_history_choice(field: Seq<char>) -> bool {
    field == "solid_history_record"@ || field == "solid_history_show"@
}

/// No field is both an editable geometry property and a history choice, so
/// an edit goes to exactly one of the two paths.
pub proof fn lemma_property_is_never_a_history_choice(field: Seq<char>)
    ensures
        !(spec_is_primitive_property(field) && spec_is_history_choice(field)),
{
    reveal_strlit("solid_history_length");
    assert("solid_history_length"@.len() == 20 && "solid_history_length"@[14] == 'l' && "solid_history_length"@[15] == 'e');
    reveal_strlit("solid_history_width");
    assert("solid_history_width"@.len() == 19 && "solid_history_width"@[14] == 'w' && "solid_history_width"@[15] == 'i');
    reveal_strlit("solid_history_height");
    assert("solid_history_height"@.len() == 20 && "solid_history_height"@[14] == 'h' && "solid_history_height"@[15] == 'e');
    reveal_strlit("solid_history_radius");
    assert("solid_history_radius"@.len() == 20 && "solid_history_radius"@[14] == 'r' && "solid_history_radius"@[15] == 'a');
    reveal_strlit("solid_history_diameter");
    assert("solid_history_diameter"@.len() == 22 && "solid_history_diameter"@[14] == 'd' && "solid_history_diameter"@[15] == 'i');
    reveal_strlit("solid_history_base_radius");
    assert("solid_history_base_radius"@.len() == 25 && "solid_history_base_radius"@[14] == 'b' && "solid_history_base_radius"@[15] == 'a');
    reveal_strlit("solid_history_top_radius");
    assert("solid_history_top_radius"@.len() == 24 && "solid_history_top_radius"@[14] == 't' && "solid_history_top_radius"@[15] == 'o');
    reveal_strlit("solid_history_base_major_radius");
    assert("solid_history_base_major_radius"@.len() == 31 && "solid_history_base_major_radius"@[14] == 'b' && "solid_history_base_major_radius"@[15] == 'a');
    reveal_strlit("solid_history_base_minor_radius");
    assert("solid_history_base_minor_radius"@.len() == 31 && "solid_history_base_minor_radius"@[14] == 'b' && "solid_history_base_minor_radius"@[15] == 'a');
    reveal_strlit("solid_history_top_major_radius");
    assert("solid_history_top_major_radius"@.len() == 30 && "solid_history_top_major_radius"@[14] == 't' && "solid_history_top_major_radius"@[15] == 'o');
    reveal_strlit("solid_history_top_minor_radius");
    assert("solid_history_top_minor_radius"@.len() == 30 && "solid_history_top_minor_radius"@[14] == 't' && "solid_history_top_minor_radius"@[15] == 'o');
    reveal_strlit("solid_history_major_radius");
    assert("solid_history_major_radius"@.len() == 26 && "solid_history_major_radius"@[14] == 'm' && "solid_history_major_radius"@[15] == 'a');
    reveal_strlit("solid_history_minor_radius");
    assert("solid_history_minor_radius"@.len() == 26 && "solid_history_minor_radius"@[14] == 'm' && "solid_history_minor_radius"@[15] == 'i');
    reveal_strlit("solid_history_outer_radius");
    assert("solid_history_outer_radius"@.len() == 26 && "solid_history_outer_radius"@[14] == 'o' && "solid_history_outer_radius"@[15] == 'u');
    reveal_strlit("solid_history_inner_radius");
    assert("solid_history_inner_radius"@.len() == 26 && "solid_history_inner_radius"@[14] == 'i' && "solid_history_inner_radius"@[15] == 'n');
    reveal_strlit("solid_history_sides");
    assert("solid_history_sides"@.len() == 19 && "solid_history_sides"@[14] == 's' && "solid_history_sides"@[15] == 'i');
    reveal_strlit("solid_history_position_x");
    assert("solid_history_position_x"@.len() == 24 && "solid_history_position_x"@[14] == 'p' && "solid_history_position_x"@[15] == 'o');
    reveal_strlit("solid_history_position_y");
    assert("solid_history_position_y"@.len() == 24 && "solid_history_position_y"@[14] == 'p' && "solid_history_position_y"@[15] == 'o');
    reveal_strlit("solid_history_position_z");
    assert("solid_history_position_z"@.len() == 24 && "solid_history_position_z"@[14] == 'p' && "solid_history_position_z"@[15] == 'o');
    reveal_strlit("solid_history_rotation");
    assert("solid_history_rotation"@.len() == 22 && "solid_history_rotation"@[14] == 'r' && "solid_history_rotation"@[15] == 'o');
    reveal_strlit("solid_history_record");
    assert("solid_history_record"@.len() == 20 && "solid_history_record"@[14] == 'r' && "solid_history_record"@[15] == 'e');
    reveal_strlit("solid_history_show");
    assert("solid_history_show"@.len() == 18 && "solid_history_show"@[14] == 's' && "solid_history_show"@[15] == 'h');
}

/// Whether `field` is an editable geometry field of a primitive solid.
pub fn is_primitive_property(field: &str) -> (r: bool)
    ensures
        r == spec_is_primitive_property(field@),
{
    str_equal(field, "solid_history_length") || str_equal(field, "solid_history_width")
        || str_equal(field, "solid_history_height") || str_equal(field, "solid_history_radius")
        || str_equal(field, "solid_history_diameter") || str_equal(
        field,
        "solid_history_base_radius",
    ) || str_equal(field, "solid_history_top_radius") || str_equal(
        field,
        "solid_history_base_major_radius",
    ) || str_equal(field, "solid_history_base_minor_radius") || str_equal(
        field,
        "solid_history_top_major_radius",
    ) || str_equal(field, "solid_history_top_minor_radius") || str_equal(
        field,
        "solid_history_major_radius",
    ) || str_equal(field, "solid_history_minor_radius") || str_equal(
        field,
        "solid_history_outer_radius",
    ) || str_equal(field, "solid_history_inner_radius") || str_equal(
        field,
        "solid_history_sides",
    ) || str_equal(field, "solid_history_position_x") || str_equal(
        field,
        "solid_history_position_y",
    ) || str_equal(field, "solid_history_position_z") || str_equal(
        field,
        "solid_history_rotation",
    )
}

/// Whether `field` is the History or the Show History choice.
pub fn is_history_choice(field: &str) -> (r: bool)
    ensures
        r == spec_is_history_choice(field@),
{
    str_equal(field, "solid_history_record") || str_equal(field, "solid_history_show")
}

/// The history flags of one solid: whether it records its history, and
/// whether that history is shown.
#[derive(Clone, Copy, Debug, PartialEq, Eq)]
pub struct SolidHistory {
    pub record_history: bool,
    pub show_history: bool,
}

/// SHOWHISTORY clamped to its three modes.
pub open spec fn spec_clamp_mode(mode: i16) -> i16 {
    if mode < 0 {
        0
    } else if mode > 2 {
        2
    } else {
        mode
    }
}

/// What the Show History field displays under a SHOWHISTORY mode, and
/// whether it can be edited: mode 0 hides every history, mode 2 shows every
/// history, any other mode shows the solid's own flag and lets it be edited.
pub open spec fn spec_displayed_history_state(object_show_history: bool, mode: i16) -> (bool, bool) {
    if mode == 0 {
        (false, false)
    } else if mode == 2 {
        (true, false)
    } else {
        (object_show_history, true)
    }
}

fn clamp_mode(mode: i16) -> (r: i16)
    ensures
        r == spec_clamp_mode(mode),
{
    if mode < 0 {
        0
    } else if mode > 2 {
        2
    } else {
        mode
    }
}

/// What the Show History field displays under SHOWHISTORY mode
/// `show_history_mode`, and whether it can be edited.
pub fn displayed_history_state(object_show_history: bool, show_history_mode: i16) -> (r: (
    bool,
    bool,
))
    ensures
        r == spec_displayed_history_state(object_show_history, show_history_mode),
{
    if show_history_mode == 0 {
        (false, false)
    } else if show_history_mode == 2 {
        (true, false)
    } else {
        (object_show_history, true)
    }
}

/// A solid's (record, show) flags with the drawing's SHOWHISTORY mode,
/// clamped to 0..=2.
pub fn history_flags(history: &SolidHistory, show_solid_history: i16) -> (r: (bool, bool, i16))
    ensures
        r == (history.record_history, history.show_history, spec_clamp_mode(show_solid_history)),
{
    (history.record_history, history.show_history, clamp_mode(show_solid_history))
}

/// The new flags a History / Show History choice sets, or `None` when the
/// choice is refused: History takes "Record" or "None", Show History takes
/// "Yes" or "No" and only under SHOWHISTORY mode 1 (values compared without
/// regard to ASCII case); any other field or value is refused.
pub open spec fn spec_history_choice(
    history: SolidHistory,
    show_solid_history: i16,
    field: Seq<char>,
    value: Seq<char>,
) -> Option<SolidHistory> {
    if field == "solid_history_record"@ {
        if crate::text::eq_ignore_ascii_case_spec(value, "Record"@) {
            Some(SolidHistory { record_history: true, ..history })
        } else if crate::text::eq_ignore_ascii_case_spec(value, "None"@) {
            Some(SolidHistory { record_history: false, ..history })
        } else {
            None
        }
    } else if field == "solid_history_show"@ && spec_clamp_mode(show_solid_history) == 1 {
        if crate::text::eq_ignore_ascii_case_spec(value, "Yes"@) {
            Some(SolidHistory { show_history: true, ..history })
        } else if crate::text::eq_ignore_ascii_case_spec(value, "No"@) {
            Some(SolidHistory { show_history: false, ..history })
        } else {
            None
        }
    } else {
        None
    }
}

/// Applies a History / Show History property choice to a solid's flags.
/// Returns true when a flag actually changed; a refused choice leaves the
/// flags as they were.
pub fn apply_history_choice(
    history: &mut SolidHistory,
    show_solid_history: i16,
    field: &str,
    value: &str,
) -> (changed: bool)
    ensures
        match spec_history_choice(*old(history), show_solid_history, field@, value@) {
            Some(h) => *final(history) == h && changed == (h != *old(history)),
            None => *final(history) == *old(history) && !changed,
        },
{
    let show_history_mode = clamp_mode(show_solid_history);
    let before = *history;
    if str_equal(field, "solid_history_record") {
        if eq_ignore_ascii_case(value, "Record") {
            history.record_history = true;
        } else if eq_ignore_ascii_case(value, "None") {
            history.record_history = false;
        } else {
            return false;
        }
    } else if str_equal(field, "solid_history_show") && show_history_mode == 1 {
        if eq_ignore_ascii_case(value, "Yes") {
            history.show_history = true;
        } else if eq_ignore_ascii_case(value, "No") {
            history.show_history = false;
        } else {
            return false;
        }
    } else {
        return false;
    }
    !(before.record_history == history.record_history && before.show_history
        == history.show_history)
}

/// A History / Show History choice is idempotent: applying the same
/// accepted choice to its own result gives that result again, so a repeat
/// reports no change.
pub proof fn lemma_history_choice_idempotent(
    history: SolidHistory,
    show_solid_history: i16,
    field: Seq<char>,
    value: Seq<char>,
)
    requires
        spec_history_choice(history, show_solid_history, field, value) is Some,
    ensures
        spec_history_choice(
            spec_history_choice(history, show_solid_history, field, value)->0,
            show_solid_history,
            field,
            value,
        ) == spec_history_choice(history, show_solid_history, field, value),
{
}

} // verus!
