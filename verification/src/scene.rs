//! The scene: one constraint set per scope, per-constraint display
//! overrides, enabling, parameter usage, the entities a move drags along,
//! duplication for copied geometry and automatic-constraint proposals; and,
//! over the drawing it holds, block listing, renaming and dependents, and
//! the associative hatches a change reaches.

use crate::parametric_constraints::{
    duplicate_driving_param, ids_of, refs_touch, same_scope, spec_bar_mode_bit, ConstraintId,
    ConstraintKind, DrivingValue, Handle, ParametricConstraint, ParametricConstraintSet,
    ParametricRef, ParametricScope,
};
use crate::drawing::{
    custom_names, dependent_handles, hatch_depends_on, is_hatch_dependent, rename_accepted, Drawing,
    DrawingEntity,
};
use crate::inference::{
    proposal_view, proposals, proposals_from_relations, relation_in_range, InferenceSource,
    InferredRelation,
};
use crate::text::str_equal;
use rustc_hash::{FxBuildHasher, FxHashMap, FxHashSet};
use vstd::prelude::*;

verus! {

/// A (scope, constraint id) pair naming one constraint in the drawing.
pub type ScopedId = (ParametricScope, ConstraintId);

/// One persistent constraint driven by a named parameter.
#[derive(Debug)]
pub struct ParameterUsage {
    pub scope: ParametricScope,
    pub constraint_id: ConstraintId,
    pub kind: ConstraintKind,
    /// The constraint's referenced handles, ascending, each once.
    pub entities: Vec<Handle>,
}

/// The scene state that the parametric-constraint features read and write.
#[derive(Debug)]
pub struct Scene {
    /// One constraint set per scope, created on first use.
    pub parametric_constraints: Vec<ParametricConstraintSet>,
    /// Constraints explicitly hidden.
    pub hidden_parametric_constraints: Vec<ScopedId>,
    /// Constraints explicitly shown.
    pub shown_parametric_constraints: Vec<ScopedId>,
    /// Bumped whenever constraint data or its display changes, so memoised
    /// glyph placements are rebuilt.
    pub constraints_epoch: u64,
    /// The block table and block-naming entities of the drawing.
    pub document: Drawing,
    /// What is shown of the drawing, and the counters its derived caches key on.
    pub display: DisplayState,
}

/// The scene state a view of the drawing depends on, besides the drawing.
#[derive(Debug)]
pub struct DisplayState {
    /// Handles of the selected entities.
    pub selection: Vec<u64>,
    /// Name of the layout being shown.
    pub current_layout: String,
    /// Bumped whenever the camera is replaced.
    pub camera_generation: u64,
    /// Bumped whenever drawing geometry changes, so geometry caches are rebuilt.
    pub geometry_epoch: u64,
}

/// The CONSTRAINTBARMODE bits let a glyph of `kind` show.
pub open spec fn bar_mode_allows(kind: ConstraintKind, bar_mode: i16) -> bool {
    match spec_bar_mode_bit(kind) {
        Some(bit) => bar_mode & bit != 0,
        None => true,
    }
}

/// A constraint glyph shows when it is not hidden, its kind's bar-mode bit
/// allows it, and it is shown explicitly or display bit 2 is on and a
/// related entity is selected.
pub open spec fn displays_constraint(
    hidden: Seq<ScopedId>,
    shown: Seq<ScopedId>,
    key: ScopedId,
    kind: ConstraintKind,
    related_entity_selected: bool,
    display_mode: i16,
    bar_mode: i16,
) -> bool {
    &&& !hidden.contains(key)
    &&& bar_mode_allows(kind, bar_mode)
    &&& (shown.contains(key) || (display_mode & 2 != 0 && related_entity_selected))
}

/// An explicitly hidden constraint never shows, whatever is selected and
/// whatever the display bits say.
pub proof fn lemma_hidden_constraint_never_displays(
    hidden: Seq<ScopedId>,
    shown: Seq<ScopedId>,
    key: ScopedId,
    kind: ConstraintKind,
    related_entity_selected: bool,
    display_mode: i16,
    bar_mode: i16,
)
    requires
        hidden.contains(key),
    ensures
        !displays_constraint(
            hidden,
            shown,
            key,
            kind,
            related_entity_selected,
            display_mode,
            bar_mode,
        ),
{
}

/// A constraint just applied with display bit 1 on shows whenever its bar
/// mode allows; applied with bit 1 off, it shows only through a selected
/// related entity under display bit 2.
pub proof fn lemma_applied_constraint_display(
    hidden_before: Seq<ScopedId>,
    shown_before: Seq<ScopedId>,
    hidden: Seq<ScopedId>,
    shown: Seq<ScopedId>,
    key: ScopedId,
    applied_mode: i16,
    kind: ConstraintKind,
    related_entity_selected: bool,
    display_mode: i16,
    bar_mode: i16,
)
    requires
        forall|x: ScopedId| #[trigger]
            hidden.contains(x) <==> (hidden_before.contains(x) && x != key),
        forall|x: ScopedId| #[trigger]
            shown.contains(x) <==> if x == key {
                applied_mode & 1 != 0
            } else {
                shown_before.contains(x)
            },
    ensures
        displays_constraint(
            hidden,
            shown,
            key,
            kind,
            related_entity_selected,
            display_mode,
            bar_mode,
        ) == (bar_mode_allows(kind, bar_mode) && (applied_mode & 1 != 0 || (display_mode & 2 != 0
            && related_entity_selected))),
{
    assert(!hidden.contains(key));
    assert(shown.contains(key) == (applied_mode & 1 != 0));
}

/// The position of the first set with `scope`, if any.
pub open spec fn spec_set_index(sets: Seq<ParametricConstraintSet>, scope: ParametricScope) -> Option<
    int,
> {
    if exists|i: int| 0 <= i < sets.len() && #[trigger] sets[i].scope == scope {
        let i = choose|i: int|
            0 <= i < sets.len() && #[trigger] sets[i].scope == scope && forall|j: int|
                0 <= j < i ==> #[trigger] sets[j].scope != scope;
        Some(i)
    } else {
        None
    }
}

/// A freshly created, empty constraint set for `scope`.
pub open spec fn is_empty_set(s: ParametricConstraintSet, scope: ParametricScope) -> bool {
    &&& s.scope == scope
    &&& s.constraints@.len() == 0
    &&& s.next_id() == 0
    &&& s.retained_standard_groups@.len() == 0
    &&& s.dimensions@ == Map::<ConstraintId, Handle>::empty()
    &&& s.dof is None
}

/// `c` is driven by the named parameter `name`.
pub open spec fn uses_parameter(c: ParametricConstraint, name: Seq<char>) -> bool {
    match c.driving_param {
        Some(DrivingValue::Named(n)) => n@ == name,
        _ => false,
    }
}

/// Every (scope, constraint) pair, set by set and in order, whose constraint
/// is driven by `name`.
pub open spec fn usage_pairs(sets: Seq<ParametricConstraintSet>, name: Seq<char>) -> Seq<
    (ParametricScope, ParametricConstraint),
>
    decreases sets.len(),
{
    if sets.len() == 0 {
        seq![]
    } else {
        usage_pairs(sets.drop_last(), name) + sets.last().constraints@.filter(
            |c: ParametricConstraint| uses_parameter(c, name),
        ).map_values(|c: ParametricConstraint| (sets.last().scope, c))
    }
}

/// `v` is strictly ascending.
pub open spec fn strictly_ascending(v: Seq<Handle>) -> bool {
    forall|i: int, j: int| 0 <= i < j < v.len() ==> v[i] < v[j]
}

/// The usage row that describes `pair`.
pub open spec fn describes(u: ParameterUsage, pair: (ParametricScope, ParametricConstraint)) -> bool {
    &&& u.scope == pair.0
    &&& u.constraint_id == pair.1.id
    &&& u.kind == pair.1.kind
    &&& strictly_ascending(u.entities@)
    &&& forall|e: Handle| u.entities@.contains(e) <==> refs_touch(pair.1.refs@, e)
}

/// Insert `h` into the ascending, duplicate-free `v`, keeping it so.
fn insert_sorted_unique(v: &mut Vec<Handle>, h: Handle)
    requires
        strictly_ascending(old(v)@),
    ensures
        strictly_ascending(final(v)@),
        forall|e: Handle| #[trigger] final(v)@.contains(e) <==> (old(v)@.contains(e) || e == h),
{
    let mut i: usize = 0;
    while i < v.len() && v[i] < h
        invariant
            i <= v@.len(),
            v@ == old(v)@,
            strictly_ascending(v@),
            forall|j: int| 0 <= j < i ==> v@[j] < h,
        decreases v@.len() - i,
    {
        i = i + 1;
    }
    if i < v.len() && v[i] == h {
        assert(v@[i as int] == h);
        assert(v@.contains(h));
        return;
    }
    let ghost before = v@;
    assert(before == old(v)@);
    v.insert(i, h);
    assert(v@ =~= before.take(i as int).push(h) + before.skip(i as int));
    assert forall|e: Handle| #[trigger] v@.contains(e) <==> (before.contains(e) || e == h) by {
        if v@.contains(e) {
            let k = choose|k: int| 0 <= k < v@.len() && v@[k] == e;
            if k < i {
                assert(before[k] == e);
            } else if k > i {
                assert(before[k - 1] == e);
            }
        }
        if before.contains(e) {
            let k = choose|k: int| 0 <= k < before.len() && before[k] == e;
            if k < i {
                assert(v@[k] == e);
            } else {
                assert(v@[k + 1] == e);
            }
        }
        if e == h {
            assert(v@[i as int] == h);
        }
    }
}

/// The handles `refs` point at, ascending, each once.
fn sorted_entities(refs: &[ParametricRef]) -> (r: Vec<Handle>)
    ensures
        strictly_ascending(r@),
        forall|e: Handle| r@.contains(e) <==> refs_touch(refs@, e),
{
    let mut r: Vec<Handle> = Vec::new();
    let mut i: usize = 0;
    while i < refs.len()
        invariant
            i <= refs@.len(),
            strictly_ascending(r@),
            forall|e: Handle| r@.contains(e) <==> refs_touch(refs@.take(i as int), e),
        decreases refs@.len() - i,
    {
        insert_sorted_unique(&mut r, refs[i].entity);
        assert forall|e: Handle| r@.contains(e) <==> refs_touch(refs@.take(i + 1), e) by {
            if refs_touch(refs@.take(i + 1), e) {
                let k = choose|k: int| 0 <= k < i + 1 && #[trigger] refs@.take(i + 1)[k].entity == e;
                if k < i {
                    assert(refs@.take(i as int)[k].entity == e);
                }
            }
            if refs_touch(refs@.take(i as int), e) {
                let k = choose|k: int| 0 <= k < i && #[trigger] refs@.take(i as int)[k].entity == e;
                assert(refs@.take(i + 1)[k].entity == e);
            }
            if e == refs@[i as int].entity {
                assert(refs@.take(i + 1)[i as int].entity == e);
            }
        }
        i = i + 1;
    }
    assert(refs@.take(refs@.len() as int) =~= refs@);
    r
}

/// `v` holds `k`.
pub fn holds_key(v: &Vec<ScopedId>, k: ScopedId) -> (r: bool)
    ensures
        r == v@.contains(k),
{
    let mut i: usize = 0;
    while i < v.len()
        invariant
            i <= v@.len(),
            forall|j: int| 0 <= j < i ==> v@[j] != k,
        decreases v@.len() - i,
    {
        let (s, id) = v[i];
        if same_scope(s, k.0) && id == k.1 {
            return true;
        }
        i = i + 1;
    }
    false
}

/// Adds `k` to the set `v` (no effect when already present).
pub fn insert_key(v: &mut Vec<ScopedId>, k: ScopedId)
    ensures
        forall|x: ScopedId| #[trigger] final(v)@.contains(x) <==> (old(v)@.contains(x) || x == k),
{
    if !holds_key(v, k) {
        let ghost before = v@;
        v.push(k);
        assert forall|x: ScopedId| #[trigger] v@.contains(x) <==> (before.contains(x) || x == k) by {
            if before.contains(x) {
                let j = choose|j: int| 0 <= j < before.len() && before[j] == x;
                assert(v@[j] == x);
            }
            if x == k {
                assert(v@[before.len() as int] == k);
            }
            if v@.contains(x) {
                let j = choose|j: int| 0 <= j < v@.len() && v@[j] == x;
                if j < before.len() {
                    assert(before[j] == x);
                }
            }
        }
    }
}

/// Removes `k` from the set `v`.
pub fn remove_key(v: &mut Vec<ScopedId>, k: ScopedId)
    ensures
        forall|x: ScopedId| #[trigger] final(v)@.contains(x) <==> (old(v)@.contains(x) && x != k),
{
    let mut kept: Vec<ScopedId> = Vec::new();
    let mut i: usize = 0;
    while i < v.len()
        invariant
            i <= v@.len(),
            v@ == old(v)@,
            forall|x: ScopedId| #[trigger]
                kept@.contains(x) <==> (old(v)@.take(i as int).contains(x) && x != k),
        decreases v@.len() - i,
    {
        let x = v[i];
        let ghost before = kept@;
        let keep = !(same_scope(x.0, k.0) && x.1 == k.1);
        if keep {
            kept.push(x);
        }
        assert forall|y: ScopedId| #[trigger]
            kept@.contains(y) <==> (old(v)@.take(i + 1).contains(y) && y != k) by {
            let t = old(v)@.take(i as int);
            let t1 = old(v)@.take(i + 1);
            assert(t1 =~= t.push(x));
            if kept@.contains(y) {
                let j = choose|j: int| 0 <= j < kept@.len() && kept@[j] == y;
                if j < before.len() {
                    assert(before.contains(y));
                    let m = choose|m: int| 0 <= m < t.len() && t[m] == y;
                    assert(t1[m] == y);
                } else {
                    assert(t1[i as int] == y);
                }
            }
            if t1.contains(y) && y != k {
                let m = choose|m: int| 0 <= m < t1.len() && t1[m] == y;
                if m < i {
                    assert(t[m] == y);
                    assert(before.contains(y));
                    let j = choose|j: int| 0 <= j < before.len() && before[j] == y;
                    assert(kept@[j] == y);
                } else {
                    assert(kept@[before.len() as int] == y);
                }
            }
        }
        i = i + 1;
    }
    assert(old(v)@.take(old(v)@.len() as int) =~= old(v)@);
    *v = kept;
}

/// The constraint with `id` in `c`, with `enabled` replaced.
pub open spec fn with_enabled(c: ParametricConstraint, enabled: bool) -> ParametricConstraint {
    ParametricConstraint {
        id: c.id,
        kind: c.kind,
        refs: c.refs,
        driving_param: c.driving_param,
        enabled,
        native_origin: c.native_origin,
        rigid_points: c.rigid_points,
        distance_direction_type: c.distance_direction_type,
        distance_direction: c.distance_direction,
        axis_direction: c.axis_direction,
        angle_sector: c.angle_sector,
    }
}

/// The set `s` with its constraint list replaced.
pub open spec fn with_constraints(
    s: ParametricConstraintSet,
    constraints: Vec<ParametricConstraint>,
) -> ParametricConstraintSet {
    ParametricConstraintSet {
        scope: s.scope,
        constraints,
        next_id: s.next_id,
        retained_standard_groups: s.retained_standard_groups,
        dimensions: s.dimensions,
        dof: s.dof,
    }
}

/// The position of the first constraint with `id`, if any.
pub open spec fn spec_constraint_index(cs: Seq<ParametricConstraint>, id: ConstraintId) -> Option<
    int,
> {
    if exists|j: int| 0 <= j < cs.len() && #[trigger] cs[j].id == id {
        Some(
            choose|j: int|
                0 <= j < cs.len() && #[trigger] cs[j].id == id && forall|k: int|
                    0 <= k < j ==> #[trigger] cs[k].id != id,
        )
    } else {
        None
    }
}

/// Some reference of `refs` points at one of `handles`.
pub open spec fn refs_touch_any(refs: Seq<ParametricRef>, handles: Seq<Handle>) -> bool {
    exists|i: int| 0 <= i < refs.len() && handles.contains(#[trigger] refs[i].entity)
}

/// The constraints a visibility change acts on: the dimensional or the
/// geometric ones, restricted to those touching `handles` when given.
pub open spec fn visibility_selects(
    c: ParametricConstraint,
    handles: Option<Seq<Handle>>,
    dimensional: bool,
) -> bool {
    &&& (c.driving_param is Some) == dimensional
    &&& match handles {
        None => true,
        Some(hs) => refs_touch_any(c.refs@, hs),
    }
}

/// The ids of the constraints of `scope`'s set that a visibility change
/// acts on, in order.
pub open spec fn visibility_ids(
    sets: Seq<ParametricConstraintSet>,
    scope: ParametricScope,
    handles: Option<Seq<Handle>>,
    dimensional: bool,
) -> Seq<ConstraintId> {
    match spec_set_index(sets, scope) {
        Some(i) => ids_of(
            sets[i].constraints@.filter(
                |c: ParametricConstraint| visibility_selects(c, handles, dimensional),
            ),
        ),
        None => seq![],
    }
}

/// An angular constraint driven by the named parameter `name`.
pub open spec fn angular_use(c: ParametricConstraint, name: Seq<char>) -> bool {
    (c.kind == ConstraintKind::Angle || c.kind == ConstraintKind::Angle3Point) && uses_parameter(
        c,
        name,
    )
}

fn touches_any(refs: &[ParametricRef], handles: &[Handle]) -> (r: bool)
    ensures
        r == refs_touch_any(refs@, handles@),
{
    let mut i: usize = 0;
    while i < refs.len()
        invariant
            i <= refs@.len(),
            forall|j: int| 0 <= j < i ==> !handles@.contains(#[trigger] refs@[j].entity),
        decreases refs@.len() - i,
    {
        let e = refs[i].entity;
        let mut k: usize = 0;
        while k < handles.len()
            invariant
                k <= handles@.len(),
                i < refs@.len(),
                e == refs@[i as int].entity,
                forall|j: int| 0 <= j < i ==> !handles@.contains(#[trigger] refs@[j].entity),
                forall|m: int| 0 <= m < k ==> handles@[m] != e,
            decreases handles@.len() - k,
        {
            if handles[k] == e {
                assert(handles@[k as int] == e);
                assert(handles@.contains(refs@[i as int].entity));
                return true;
            }
            k = k + 1;
        }
        i = i + 1;
    }
    false
}

fn driven_by(c: &ParametricConstraint, name: &str) -> (r: bool)
    ensures
        r == uses_parameter(*c, name@),
{
    match &c.driving_param {
        Some(DrivingValue::Named(n)) => str_equal(n.as_str(), name),
        _ => false,
    }
}

/// An enabled constraint that a move follows: a point relation
/// (Coincident, PointOnCurve), or any relation when curve relations are
/// included.
pub open spec fn connects(c: ParametricConstraint, include_curve_relations: bool) -> bool {
    c.enabled && (include_curve_relations || c.kind == ConstraintKind::Coincident || c.kind
        == ConstraintKind::PointOnCurve)
}

/// `cur` followed by the entities of `refs[..r]` it does not hold yet, each
/// once, in reference order.
pub open spec fn add_new(cur: Seq<Handle>, refs: Seq<ParametricRef>, r: int) -> Seq<Handle>
    decreases r,
{
    if r <= 0 {
        cur
    } else {
        let prev = add_new(cur, refs, r - 1);
        let e = refs[r - 1].entity;
        if prev.contains(e) {
            prev
        } else {
            prev.push(e)
        }
    }
}

/// One pass over the first `k` constraints: each connecting constraint
/// that touches the handles gathered so far adds its entities.
pub open spec fn scan(cs: Seq<ParametricConstraint>, include_curve_relations: bool, k: int, cur: Seq<
    Handle,
>) -> Seq<Handle>
    decreases k,
{
    if k <= 0 {
        cur
    } else {
        let prev = scan(cs, include_curve_relations, k - 1, cur);
        let c = cs[k - 1];
        if connects(c, include_curve_relations) && refs_touch_any(c.refs@, prev) {
            add_new(prev, c.refs@, c.refs@.len() as int)
        } else {
            prev
        }
    }
}

/// Passes over all constraints, repeated while one adds a handle (and the
/// handles stay within `bound`).
pub open spec fn expand(
    cs: Seq<ParametricConstraint>,
    include_curve_relations: bool,
    cur: Seq<Handle>,
    bound: int,
) -> Seq<Handle>
    decreases bound - cur.len(),
{
    let next = scan(cs, include_curve_relations, cs.len() as int, cur);
    if cur.len() < next.len() <= bound {
        expand(cs, include_curve_relations, next, bound)
    } else {
        cur
    }
}

/// Every connecting constraint that touches `s` has all its entities in `s`.
pub open spec fn closed_under(
    cs: Seq<ParametricConstraint>,
    include_curve_relations: bool,
    s: Seq<Handle>,
) -> bool {
    forall|k: int, r: int|
        0 <= k < cs.len() && connects(cs[k], include_curve_relations) && refs_touch_any(
            cs[k].refs@,
            s,
        ) && 0 <= r < cs[k].refs@.len() ==> s.contains(#[trigger] cs[k].refs@[r].entity)
}

/// Every handle after the seeds is new when it appears, and is reached
/// through a connecting constraint that also touches an earlier handle.
pub open spec fn justified(
    cs: Seq<ParametricConstraint>,
    include_curve_relations: bool,
    seeds_len: int,
    out: Seq<Handle>,
) -> bool {
    forall|k: int|
        seeds_len <= k < out.len() ==> {
            &&& !out.take(k).contains(#[trigger] out[k])
            &&& exists|c: int|
                0 <= c < cs.len() && connects(#[trigger] cs[c], include_curve_relations)
                    && refs_touch(cs[c].refs@, out[k]) && refs_touch_any(cs[c].refs@, out.take(k))
        }
}

/// Every entity any constraint of `cs` references.
pub open spec fn referenced(cs: Seq<ParametricConstraint>, e: Handle) -> bool {
    exists|k: int| 0 <= k < cs.len() && refs_touch(#[trigger] cs[k].refs@, e)
}

fn contains_handle(v: &Vec<Handle>, h: Handle) -> (r: bool)
    ensures
        r == v@.contains(h),
{
    let mut i: usize = 0;
    while i < v.len()
        invariant
            i <= v@.len(),
            forall|j: int| 0 <= j < i ==> v@[j] != h,
        decreases v@.len() - i,
    {
        if v[i] == h {
            return true;
        }
        i = i + 1;
    }
    false
}

/// Every entity the constraints of `cs` reference (with repeats).
fn all_referenced(cs: &Vec<ParametricConstraint>) -> (r: Vec<Handle>)
    ensures
        forall|e: Handle| referenced(cs@, e) ==> r@.contains(e),
{
    let mut r: Vec<Handle> = Vec::new();
    let mut k: usize = 0;
    while k < cs.len()
        invariant
            k <= cs@.len(),
            forall|m: int, j: int|
                0 <= m < k && 0 <= j < cs@[m].refs@.len() ==> r@.contains(
                    #[trigger] cs@[m].refs@[j].entity,
                ),
        decreases cs@.len() - k,
    {
        let refs = &cs[k].refs;
        let mut i: usize = 0;
        while i < refs.len()
            invariant
                k < cs@.len(),
                *refs == cs@[k as int].refs,
                i <= refs@.len(),
                forall|m: int, j: int|
                    0 <= m < k && 0 <= j < cs@[m].refs@.len() ==> r@.contains(
                        #[trigger] cs@[m].refs@[j].entity,
                    ),
                forall|j: int| 0 <= j < i ==> r@.contains(#[trigger] refs@[j].entity),
            decreases refs@.len() - i,
        {
            let ghost before = r@;
            r.push(refs[i].entity);
            assert forall|e: Handle| before.contains(e) implies r@.contains(e) by {
                let m = choose|m: int| 0 <= m < before.len() && before[m] == e;
                assert(r@[m] == e);
            }
            assert(r@[before.len() as int] == refs@[i as int].entity);
            i = i + 1;
        }
        k = k + 1;
    }
    assert forall|e: Handle| referenced(cs@, e) implies r@.contains(e) by {
        let m = choose|m: int| 0 <= m < cs@.len() && refs_touch(#[trigger] cs@[m].refs@, e);
        let j = choose|j: int| 0 <= j < cs@[m].refs@.len() && #[trigger] cs@[m].refs@[j].entity == e;
        assert(r@.contains(cs@[m].refs@[j].entity));
    }
    r
}

/// A duplicate-free sequence drawn from `universe` is no longer than it.
proof fn lemma_distinct_within(suffix: Seq<Handle>, universe: Seq<Handle>)
    requires
        suffix.no_duplicates(),
        forall|x: Handle| suffix.contains(x) ==> universe.contains(x),
    ensures
        suffix.len() <= universe.len(),
{
    suffix.unique_seq_to_set();
    universe.lemma_cardinality_of_set();
    assert(suffix.to_set().subset_of(universe.to_set()));
    vstd::set_lib::lemma_len_subset(suffix.to_set(), universe.to_set());
}

/// rustc-hash's `FxBuildHasher`, the hasher of [`FxHashMap`].
#[verifier::external_type_specification]
#[verifier::external_body]
pub struct ExFxBuildHasher(FxBuildHasher);

/// `HashMap::get` on an `FxHashMap`. Contract: the result is the value the
/// map holds for `key`, or `None` when it holds none. `FxBuildHasher` builds
/// every hasher from the same fixed state (`FxHasher::default`), so a key
/// hashes alike on every insertion and lookup.
#[verifier::external_body]
fn fx_lookup(map: &FxHashMap<Handle, Handle>, key: Handle) -> (r: Option<Handle>)
    ensures
        r == (if map@.contains_key(key) {
            Some(map@[key])
        } else {
            None
        }),
{
    map.get(&key).copied()
}

/// `HashMap::is_empty` on an `FxHashMap`. Contract: true exactly when the
/// map holds no key.
#[verifier::external_body]
fn fx_is_empty(map: &FxHashMap<Handle, Handle>) -> (r: bool)
    ensures
        r == (map@.dom() == Set::<Handle>::empty()),
{
    map.is_empty()
}

/// `HashSet::contains` on an `FxHashSet`. Contract: true exactly when the
/// set holds `x`; as for [`fx_lookup`], every hasher is built from the same
/// fixed state.
#[verifier::external_body]
fn fx_set_contains(set: &FxHashSet<u64>, x: u64) -> (r: bool)
    ensures
        r == set@.contains(x),
{
    set.contains(&x)
}

/// An enabled constraint all of whose entities were duplicated.
pub open spec fn copyable(c: ParametricConstraint, m: Map<Handle, Handle>) -> bool {
    c.enabled && forall|r: int| 0 <= r < c.refs@.len() ==> m.contains_key(#[trigger] c.refs@[r].entity)
}

/// `refs` moved onto the duplicated entities.
pub open spec fn remap(refs: Seq<ParametricRef>, m: Map<Handle, Handle>) -> Seq<ParametricRef> {
    Seq::new(refs.len(), |i: int| ParametricRef { entity: m[refs[i].entity], marker: refs[i].marker })
}

/// `n` is the copy, with id `id`, of `c` over the duplicated entities.
pub open spec fn is_copy(
    n: ParametricConstraint,
    c: ParametricConstraint,
    id: ConstraintId,
    m: Map<Handle, Handle>,
) -> bool {
    &&& n.id == id
    &&& n.kind == c.kind
    &&& n.refs@ == remap(c.refs@, m)
    &&& n.driving_param == c.driving_param
    &&& n.enabled
    &&& n.axis_direction == c.axis_direction
    &&& n.native_origin is None
    &&& n.rigid_points@.len() == 0
    &&& n.distance_direction_type == c.distance_direction_type
    &&& n.distance_direction == c.distance_direction
    &&& n.angle_sector == c.angle_sector
}

/// The constraints of `cs` that follow a duplication through `m`.
pub open spec fn copy_sources(cs: Seq<ParametricConstraint>, m: Map<Handle, Handle>) -> Seq<
    ParametricConstraint,
> {
    cs.filter(|c: ParametricConstraint| copyable(c, m))
}

/// `new` is `old` with the copies of its followed constraints appended.
pub open spec fn copies_appended(
    new: ParametricConstraintSet,
    old: ParametricConstraintSet,
    m: Map<Handle, Handle>,
) -> bool {
    let src = copy_sources(old.constraints@, m);
    let n = old.constraints@.len();
    &&& new.constraints@.len() == n + src.len()
    &&& new.constraints@.take(n as int) == old.constraints@
    &&& forall|t: int|
        0 <= t < src.len() ==> is_copy(
            #[trigger] new.constraints@[n + t],
            src[t],
            (old.next_id() + t) as ConstraintId,
            m,
        )
    &&& new.next_id() == old.next_id() + src.len()
    &&& new.scope == old.scope
    &&& new.dimensions@ == old.dimensions@
    &&& new.retained_standard_groups@ == old.retained_standard_groups@
    &&& new.dof == old.dof
}

/// Room for one more id per constraint already in the set.
pub open spec fn has_id_room(s: ParametricConstraintSet) -> bool {
    s.next_id() + s.constraints@.len() < u32::MAX
}

/// The copy of `c` over the duplicated entities, as the parts `add` takes.
fn copy_parts(c: &ParametricConstraint, m: &FxHashMap<Handle, Handle>) -> (r: Option<
    (Vec<ParametricRef>, Option<DrivingValue>),
>)
    ensures
        match r {
            Some((refs, d)) => copyable(*c, m@) && refs@ == remap(c.refs@, m@) && d
                == c.driving_param,
            None => !copyable(*c, m@),
        },
{
    if !c.enabled {
        return None;
    }
    let mut refs: Vec<ParametricRef> = Vec::new();
    let mut i: usize = 0;
    while i < c.refs.len()
        invariant
            i <= c.refs@.len(),
            c.enabled,
            forall|r: int| 0 <= r < i ==> m@.contains_key(#[trigger] c.refs@[r].entity),
            refs@ == remap(c.refs@.take(i as int), m@),
        decreases c.refs@.len() - i,
    {
        let r = c.refs[i];
        match fx_lookup(m, r.entity) {
            Some(e) => {
                refs.push(ParametricRef { entity: e, marker: r.marker });
                assert(refs@ =~= remap(c.refs@.take(i + 1), m@));
            },
            None => {
                return None;
            },
        }
        i = i + 1;
    }
    assert(c.refs@.take(c.refs@.len() as int) =~= c.refs@);
    Some((refs, duplicate_driving_param(&c.driving_param)))
}

/// `new` is `old` with the copies of the followed constraints among its
/// first `i` appended.
pub open spec fn copies_appended_prefix(
    new: ParametricConstraintSet,
    old: ParametricConstraintSet,
    m: Map<Handle, Handle>,
    i: int,
) -> bool {
    let src = copy_sources(old.constraints@.take(i), m);
    let n = old.constraints@.len();
    &&& new.constraints@.len() == n + src.len()
    &&& new.constraints@.take(n as int) == old.constraints@
    &&& forall|t: int|
        0 <= t < src.len() ==> is_copy(
            #[trigger] new.constraints@[n + t],
            src[t],
            (old.next_id() + t) as ConstraintId,
            m,
        )
    &&& new.next_id() == old.next_id() + src.len()
    &&& new.scope == old.scope
    &&& new.dimensions@ == old.dimensions@
    &&& new.retained_standard_groups@ == old.retained_standard_groups@
    &&& new.dof == old.dof
}

/// Appends to `set` the copy of every constraint that follows the
/// duplication through `m`; returns how many were added.
fn add_copies(set: &mut ParametricConstraintSet, m: &FxHashMap<Handle, Handle>) -> (count: usize)
    requires
        old(set).wf(),
        has_id_room(*old(set)),
    ensures
        final(set).wf(),
        copies_appended(*final(set), *old(set), m@),
        count == copy_sources(old(set).constraints@, m@).len(),
{
    let ghost pred = |c: ParametricConstraint| copyable(c, m@);
    let ghost olds = *set;
    let n = set.constraints.len();
    let mut count: usize = 0;
    let mut i: usize = 0;
    proof {
        assert(olds.constraints@.take(0) =~= Seq::<ParametricConstraint>::empty());
        assert(set.constraints@.take(n as int) =~= olds.constraints@);
    }
    while i < n
        invariant
            n == olds.constraints@.len(),
            i <= n,
            pred == (|c: ParametricConstraint| copyable(c, m@)),
            set.wf(),
            has_id_room(olds),
            count == copy_sources(olds.constraints@.take(i as int), m@).len(),
            count <= i,
            copies_appended_prefix(*set, olds, m@, i as int),
        decreases n - i,
    {
        let ghost src_before = copy_sources(olds.constraints@.take(i as int), m@);
        proof {
            let k = i as int;
            assert(olds.constraints@.take(k + 1) =~= olds.constraints@.take(k).push(
                olds.constraints@[k],
            ));
            olds.constraints@.take(k).lemma_filter_push(olds.constraints@[k], pred);
            assert(set.constraints@.take(n as int)[k] == set.constraints@[k]);
        }
        match copy_parts(&set.constraints[i], m) {
            Some((refs, driving)) => {
                let kind = set.constraints[i].kind;
                let axis = set.constraints[i].axis_direction;
                let direction_type = set.constraints[i].distance_direction_type;
                let direction = set.constraints[i].distance_direction;
                let sector = set.constraints[i].angle_sector;
                let ghost before = *set;
                let ghost src = olds.constraints@[i as int];
                set.add(kind, refs, driving);
                let mut fresh = set.constraints.pop().unwrap();
                fresh.axis_direction = axis;
                fresh.distance_direction_type = direction_type;
                fresh.distance_direction = direction;
                fresh.angle_sector = sector;
                set.constraints.push(fresh);
                proof {
                    let bl = before.constraints@.len() as int;
                    assert(set.constraints@.take(bl) =~= before.constraints@);
                    assert(copy_sources(olds.constraints@.take(i + 1), m@) =~= src_before.push(src));
                    assert forall|t: int|
                        0 <= t < src_before.len() + 1 implies is_copy(
                        #[trigger] set.constraints@[n + t],
                        src_before.push(src)[t],
                        (olds.next_id() + t) as ConstraintId,
                        m@,
                    ) by {
                        if t < src_before.len() {
                            assert(set.constraints@[n + t] == before.constraints@[n + t]);
                        }
                    }
                    assert(set.constraints@.take(n as int) =~= olds.constraints@) by {
                        assert forall|q: int| 0 <= q < n implies set.constraints@[q] == olds.constraints@[q] by {
                            assert(set.constraints@[q] == before.constraints@[q]);
                            assert(before.constraints@.take(n as int)[q] == olds.constraints@[q]);
                        }
                    }
                    assert forall|p: int, q: int|
                        0 <= p < q < set.constraints@.len() implies #[trigger] set.constraints@[p].id
                        != #[trigger] set.constraints@[q].id by {
                        if q < bl {
                            assert(set.constraints@[p] == before.constraints@[p]);
                            assert(set.constraints@[q] == before.constraints@[q]);
                        } else {
                            assert(set.constraints@[p] == before.constraints@[p]);
                            assert(before.constraints@[p].id < before.next_id());
                        }
                    }
                    assert forall|p: int| 0 <= p < set.constraints@.len() implies #[trigger] set.constraints@[p].id
                        < set.next_id() by {
                        if p < bl {
                            assert(set.constraints@[p] == before.constraints@[p]);
                        }
                    }
                }
                count = count + 1;
            },
            None => {
                proof {
                    assert(copy_sources(olds.constraints@.take(i + 1), m@) =~= src_before);
                }
            },
        }
        i = i + 1;
    }
    proof {
        assert(olds.constraints@.take(n as int) =~= olds.constraints@);
    }
    count
}

impl Scene {
    /// One set per scope, each well formed.
    pub open spec fn wf(&self) -> bool {
        &&& forall|i: int|
            0 <= i < self.parametric_constraints@.len()
                ==> #[trigger] self.parametric_constraints@[i].wf()
        &&& forall|i: int, j: int|
            0 <= i < j < self.parametric_constraints@.len()
                ==> #[trigger] self.parametric_constraints@[i].scope
                != #[trigger] self.parametric_constraints@[j].scope
        &&& self.document.wf()
    }

    /// A scene over a new drawing, with no constraint sets and no display
    /// overrides.
    pub fn new() -> (r: Self)
        ensures
            r.parametric_constraints@.len() == 0,
            r.hidden_parametric_constraints@.len() == 0,
            r.shown_parametric_constraints@.len() == 0,
            r.constraints_epoch == 0,
            r.document.entities@.len() == 0,
            r.document.is_new_document(),
            r.display.selection@.len() == 0,
            r.display.current_layout@ == "Model"@,
            r.display.camera_generation == 0,
            r.display.geometry_epoch == 0,
            r.wf(),
    {
        Scene {
            parametric_constraints: Vec::new(),
            hidden_parametric_constraints: Vec::new(),
            shown_parametric_constraints: Vec::new(),
            constraints_epoch: 0,
            document: Drawing::new(),
            display: DisplayState {
                selection: Vec::new(),
                current_layout: "Model".to_owned(),
                camera_generation: 0,
                geometry_epoch: 0,
            },
        }
    }

    /// Invalidates the caches built from drawing geometry.
    pub fn bump_geometry(&mut self)
        ensures
            final(self).display.geometry_epoch == old(self).display.geometry_epoch.wrapping_add(1),
            final(self).display.selection == old(self).display.selection,
            final(self).display.current_layout == old(self).display.current_layout,
            final(self).display.camera_generation == old(self).display.camera_generation,
            final(self).constraints_epoch == old(self).constraints_epoch,
            final(self).parametric_constraints == old(self).parametric_constraints,
            final(self).hidden_parametric_constraints == old(self).hidden_parametric_constraints,
            final(self).shown_parametric_constraints == old(self).shown_parametric_constraints,
            final(self).document == old(self).document,
    {
        self.display.geometry_epoch = self.display.geometry_epoch.wrapping_add(1);
    }

    /// Invalidates memoised constraint glyph placements.
    pub fn bump_constraints_epoch(&mut self)
        ensures
            final(self).constraints_epoch == old(self).constraints_epoch.wrapping_add(1),
            final(self).parametric_constraints == old(self).parametric_constraints,
            final(self).hidden_parametric_constraints == old(self).hidden_parametric_constraints,
            final(self).shown_parametric_constraints == old(self).shown_parametric_constraints,
            final(self).document == old(self).document,
            final(self).display == old(self).display,
    {
        self.constraints_epoch = self.constraints_epoch.wrapping_add(1);
    }

    fn set_index(&self, scope: ParametricScope) -> (r: Option<usize>)
        ensures
            match r {
                Some(i) => spec_set_index(self.parametric_constraints@, scope) == Some(i as int)
                    && i < self.parametric_constraints@.len(),
                None => spec_set_index(self.parametric_constraints@, scope) is None,
            },
    {
        let mut i: usize = 0;
        while i < self.parametric_constraints.len()
            invariant
                i <= self.parametric_constraints@.len(),
                forall|j: int|
                    0 <= j < i ==> #[trigger] self.parametric_constraints@[j].scope != scope,
            decreases self.parametric_constraints@.len() - i,
        {
            if same_scope(self.parametric_constraints[i].scope, scope) {
                let ghost sets = self.parametric_constraints@;
                assert(sets[i as int].scope == scope);
                let ghost k = choose|k: int|
                    0 <= k < sets.len() && #[trigger] sets[k].scope == scope && forall|j: int|
                        0 <= j < k ==> #[trigger] sets[j].scope != scope;
                assert(k == i) by {
                    if k < i {
                    } else if k > i {
                        assert(sets[i as int].scope != scope);
                    }
                }
                return Some(i);
            }
            i = i + 1;
        }
        None
    }

    /// The constraint set for `scope`, if one has been created.
    pub fn parametric_constraint_set(&self, scope: ParametricScope) -> (r: Option<
        &ParametricConstraintSet,
    >)
        ensures
            match spec_set_index(self.parametric_constraints@, scope) {
                Some(i) => r == Some(&self.parametric_constraints@[i]),
                None => r is None,
            },
    {
        match self.set_index(scope) {
            Some(i) => Some(&self.parametric_constraints[i]),
            None => None,
        }
    }

    /// The constraint set for `scope`, creating an empty one on first use.
    pub fn parametric_constraint_set_mut(&mut self, scope: ParametricScope) -> (r:
        &mut ParametricConstraintSet)
        ensures
            match spec_set_index(old(self).parametric_constraints@, scope) {
                Some(i) => {
                    &&& *r == old(self).parametric_constraints@[i]
                    &&& final(self).parametric_constraints@ == old(
                        self,
                    ).parametric_constraints@.update(i, *final(r))
                },
                None => {
                    &&& is_empty_set(*r, scope)
                    &&& final(self).parametric_constraints@.len() == old(
                        self,
                    ).parametric_constraints@.len() + 1
                    &&& final(self).parametric_constraints@.drop_last() == old(
                        self,
                    ).parametric_constraints@
                    &&& final(self).parametric_constraints@.last() == *final(r)
                },
            },
            final(self).hidden_parametric_constraints == old(self).hidden_parametric_constraints,
            final(self).shown_parametric_constraints == old(self).shown_parametric_constraints,
            final(self).constraints_epoch == old(self).constraints_epoch,
            final(self).document == old(self).document,
            final(self).display == old(self).display,
            (old(self).wf() && final(r).scope == scope && final(r).wf()) ==> final(self).wf(),
    {
        match self.set_index(scope) {
            Some(i) => &mut self.parametric_constraints[i],
            None => {
                self.parametric_constraints.push(ParametricConstraintSet::new(scope));
                let last = self.parametric_constraints.len() - 1;
                &mut self.parametric_constraints[last]
            },
        }
    }

    pub fn is_parametric_constraint_visible(&self, scope: ParametricScope, id: ConstraintId) -> (r:
        bool)
        ensures
            r == !self.hidden_parametric_constraints@.contains((scope, id)),
    {
        !holds_key(&self.hidden_parametric_constraints, (scope, id))
    }

    /// A constraint glyph shows when it is not hidden, its kind's
    /// CONSTRAINTBARMODE bit (if it has one) is on, and it is either shown
    /// explicitly or display bit 2 is on and a related entity is selected.
    pub fn should_display_parametric_constraint(
        &self,
        scope: ParametricScope,
        id: ConstraintId,
        kind: ConstraintKind,
        related_entity_selected: bool,
        display_mode: i16,
        bar_mode: i16,
    ) -> (r: bool)
        ensures
            r == displays_constraint(
                self.hidden_parametric_constraints@,
                self.shown_parametric_constraints@,
                (scope, id),
                kind,
                related_entity_selected,
                display_mode,
                bar_mode,
            ),
    {
        let bar_ok = match kind.bar_mode_bit() {
            Some(bit) => bar_mode & bit != 0,
            None => true,
        };
        self.is_parametric_constraint_visible(scope, id) && bar_ok && (holds_key(
            &self.shown_parametric_constraints,
            (scope, id),
        ) || (display_mode & 2 != 0 && related_entity_selected))
    }

    /// Apply display bit 1 at creation: the constraint is no longer hidden,
    /// and it is shown explicitly exactly when bit 1 is on.
    pub fn note_parametric_constraint_applied(
        &mut self,
        scope: ParametricScope,
        id: ConstraintId,
        display_mode: i16,
    )
        ensures
            forall|x: ScopedId| #[trigger]
                final(self).hidden_parametric_constraints@.contains(x) <==> (old(
                    self,
                ).hidden_parametric_constraints@.contains(x) && x != (scope, id)),
            forall|x: ScopedId| #[trigger]
                final(self).shown_parametric_constraints@.contains(x) <==> if x == (scope, id) {
                    display_mode & 1 != 0
                } else {
                    old(self).shown_parametric_constraints@.contains(x)
                },
            final(self).constraints_epoch == old(self).constraints_epoch.wrapping_add(1),
            final(self).parametric_constraints == old(self).parametric_constraints,
            final(self).document == old(self).document,
            final(self).display == old(self).display,
    {
        remove_key(&mut self.hidden_parametric_constraints, (scope, id));
        if display_mode & 1 != 0 {
            insert_key(&mut self.shown_parametric_constraints, (scope, id));
        } else {
            remove_key(&mut self.shown_parametric_constraints, (scope, id));
        }
        self.bump_constraints_epoch();
    }

    /// Shows or hides, explicitly, every geometric (or every dimensional)
    /// constraint of `scope`, or only those touching `handles`. Returns how
    /// many constraints were affected.
    pub fn set_parametric_constraint_visibility(
        &mut self,
        scope: ParametricScope,
        handles: Option<&[Handle]>,
        dimensional: bool,
        visible: bool,
    ) -> (count: usize)
        ensures
            ({
                let ids = visibility_ids(
                    old(self).parametric_constraints@,
                    scope,
                    match handles {
                        Some(h) => Some(h@),
                        None => None,
                    },
                    dimensional,
                );
                &&& count == ids.len()
                &&& forall|x: ScopedId| #[trigger]
                    final(self).hidden_parametric_constraints@.contains(x) <==> if x.0 == scope
                        && ids.contains(x.1) {
                        !visible
                    } else {
                        old(self).hidden_parametric_constraints@.contains(x)
                    }
                &&& forall|x: ScopedId| #[trigger]
                    final(self).shown_parametric_constraints@.contains(x) <==> if x.0 == scope
                        && ids.contains(x.1) {
                        visible
                    } else {
                        old(self).shown_parametric_constraints@.contains(x)
                    }
                &&& final(self).constraints_epoch == if ids.len() == 0 {
                    old(self).constraints_epoch
                } else {
                    old(self).constraints_epoch.wrapping_add(1)
                }
            }),
            final(self).parametric_constraints == old(self).parametric_constraints,
            final(self).document == old(self).document,
            final(self).display == old(self).display,
    {
        let ghost hs = match handles {
            Some(h) => Some(h@),
            None => None,
        };
        let ghost pred = |c: ParametricConstraint| visibility_selects(c, hs, dimensional);
        let mut ids: Vec<ConstraintId> = Vec::new();
        match self.set_index(scope) {
            Some(si) => {
                let set = &self.parametric_constraints[si];
                let mut i: usize = 0;
                while i < set.constraints.len()
                    invariant
                        i <= set.constraints@.len(),
                        pred == (|c: ParametricConstraint| visibility_selects(c, hs, dimensional)),
                        hs == match handles {
                            Some(h) => Some(h@),
                            None => None,
                        },
                        ids@ == ids_of(set.constraints@.take(i as int).filter(pred)),
                    decreases set.constraints@.len() - i,
                {
                    proof {
                        let k = i as int;
                        assert(set.constraints@.take(k + 1) =~= set.constraints@.take(k).push(
                            set.constraints@[k],
                        ));
                        set.constraints@.take(k).lemma_filter_push(set.constraints@[k], pred);
                    }
                    let c = &set.constraints[i];
                    let selected = c.driving_param.is_some() == dimensional && match handles {
                        Some(h) => touches_any(c.refs.as_slice(), h),
                        None => true,
                    };
                    if selected {
                        let ghost before = set.constraints@.take(i as int).filter(pred);
                        ids.push(c.id);
                        assert(ids_of(before.push(*c)) =~= ids_of(before).push(c.id));
                    }
                    i = i + 1;
                }
                assert(set.constraints@.take(set.constraints@.len() as int) =~= set.constraints@);
            },
            None => {},
        }
        let ghost all = ids@;
        assert(all == visibility_ids(self.parametric_constraints@, scope, hs, dimensional));
        let mut k: usize = 0;
        while k < ids.len()
            invariant
                k <= all.len(),
                ids@ == all,
                self.parametric_constraints == old(self).parametric_constraints,
                self.constraints_epoch == old(self).constraints_epoch,
                self.document == old(self).document,
                self.display == old(self).display,
                forall|x: ScopedId| #[trigger]
                    self.hidden_parametric_constraints@.contains(x) <==> if x.0 == scope
                        && all.take(k as int).contains(x.1) {
                        !visible
                    } else {
                        old(self).hidden_parametric_constraints@.contains(x)
                    },
                forall|x: ScopedId| #[trigger]
                    self.shown_parametric_constraints@.contains(x) <==> if x.0 == scope
                        && all.take(k as int).contains(x.1) {
                        visible
                    } else {
                        old(self).shown_parametric_constraints@.contains(x)
                    },
            decreases all.len() - k,
        {
            let id = ids[k];
            if visible {
                remove_key(&mut self.hidden_parametric_constraints, (scope, id));
                insert_key(&mut self.shown_parametric_constraints, (scope, id));
            } else {
                insert_key(&mut self.hidden_parametric_constraints, (scope, id));
                remove_key(&mut self.shown_parametric_constraints, (scope, id));
            }
            proof {
                assert(all.take(k + 1) =~= all.take(k as int).push(id));
                assert forall|y: ConstraintId| #[trigger] all.take(k + 1).contains(y) <==> (all.take(
                    k as int,
                ).contains(y) || y == id) by {
                    if all.take(k + 1).contains(y) {
                        let m = choose|m: int| 0 <= m < k + 1 && #[trigger] all.take(k + 1)[m] == y;
                        if m < k {
                            assert(all.take(k as int)[m] == y);
                        }
                    }
                    if all.take(k as int).contains(y) {
                        let m = choose|m: int| 0 <= m < k && #[trigger] all.take(k as int)[m] == y;
                        assert(all.take(k + 1)[m] == y);
                    }
                    if y == id {
                        assert(all.take(k + 1)[k as int] == y);
                    }
                }
            }
            k = k + 1;
        }
        assert(all.take(all.len() as int) =~= all);
        if ids.len() > 0 {
            self.bump_constraints_epoch();
        }
        ids.len()
    }

    /// Enables or disables one constraint without losing it. Returns whether
    /// a constraint with `id` exists in `scope`; bumps the constraints epoch
    /// exactly when the value actually changes.
    #[verifier::rlimit(40)]
    pub fn set_constraint_enabled(
        &mut self,
        scope: ParametricScope,
        id: ConstraintId,
        enabled: bool,
    ) -> (found: bool)
        ensures
            match spec_set_index(old(self).parametric_constraints@, scope) {
                Some(i) => match spec_constraint_index(
                    old(self).parametric_constraints@[i].constraints@,
                    id,
                ) {
                    Some(j) => {
                        let c = old(self).parametric_constraints@[i].constraints@[j];
                        &&& found
                        &&& final(self).parametric_constraints@[i].constraints@ == old(
                            self,
                        ).parametric_constraints@[i].constraints@.update(
                            j,
                            with_enabled(c, enabled),
                        )
                        &&& final(self).parametric_constraints@ == old(
                            self,
                        ).parametric_constraints@.update(
                            i,
                            with_constraints(
                                old(self).parametric_constraints@[i],
                                final(self).parametric_constraints@[i].constraints,
                            ),
                        )
                        &&& final(self).constraints_epoch == if c.enabled == enabled {
                            old(self).constraints_epoch
                        } else {
                            old(self).constraints_epoch.wrapping_add(1)
                        }
                    },
                    None => !found && final(self).parametric_constraints == old(
                        self,
                    ).parametric_constraints && final(self).constraints_epoch == old(
                        self,
                    ).constraints_epoch,
                },
                None => !found && final(self).parametric_constraints == old(
                    self,
                ).parametric_constraints && final(self).constraints_epoch == old(
                    self,
                ).constraints_epoch,
            },
            final(self).hidden_parametric_constraints == old(self).hidden_parametric_constraints,
            final(self).shown_parametric_constraints == old(self).shown_parametric_constraints,
            final(self).document == old(self).document,
            final(self).display == old(self).display,
            old(self).wf() ==> final(self).wf(),
    {
        let si = match self.set_index(scope) {
            Some(si) => si,
            None => return false,
        };
        let mut j: usize = 0;
        let n = self.parametric_constraints[si].constraints.len();
        while j < n
            invariant
                si < self.parametric_constraints@.len(),
                n == self.parametric_constraints@[si as int].constraints@.len(),
                j <= n,
                self.parametric_constraints == old(self).parametric_constraints,
                self.constraints_epoch == old(self).constraints_epoch,
                self.document == old(self).document,
                self.display == old(self).display,
                self.hidden_parametric_constraints == old(self).hidden_parametric_constraints,
                self.shown_parametric_constraints == old(self).shown_parametric_constraints,
                spec_set_index(old(self).parametric_constraints@, scope) == Some(si as int),
                forall|k: int|
                    0 <= k < j ==> #[trigger] self.parametric_constraints@[si as int].constraints@[k].id
                        != id,
            decreases n - j,
        {
            if self.parametric_constraints[si].constraints[j].id == id {
                let ghost cs = self.parametric_constraints@[si as int].constraints@;
                assert(spec_constraint_index(cs, id) == Some(j as int)) by {
                    let w = choose|w: int|
                        0 <= w < cs.len() && #[trigger] cs[w].id == id && forall|k: int|
                            0 <= k < w ==> #[trigger] cs[k].id != id;
                    if w < j {
                    } else if w > j {
                        assert(cs[j as int].id == id);
                    }
                }
                let changed = self.parametric_constraints[si].constraints[j].enabled != enabled;
                let mut set = self.parametric_constraints.remove(si);
                let mut c = set.constraints.remove(j);
                c.enabled = enabled;
                set.constraints.insert(j, c);
                self.parametric_constraints.insert(si, set);
                proof {
                    let old_sets = old(self).parametric_constraints@;
                    assert(self.parametric_constraints@[si as int].constraints@ =~= old_sets[si as int].constraints@.update(
                        j as int,
                        with_enabled(old_sets[si as int].constraints@[j as int], enabled),
                    ));
                    assert(self.parametric_constraints@ =~= old_sets.update(
                        si as int,
                        with_constraints(
                            old_sets[si as int],
                            self.parametric_constraints@[si as int].constraints,
                        ),
                    ));
                }
                if changed {
                    self.bump_constraints_epoch();
                }
                proof {
                    if old(self).wf() {
                        let sets = self.parametric_constraints@;
                        let old_sets = old(self).parametric_constraints@;
                        assert forall|a: int| 0 <= a < sets.len() implies #[trigger] sets[a].wf() by {
                            if a == si {
                                assert(old_sets[a].wf());
                                assert forall|p: int, q: int|
                                    0 <= p < q < sets[a].constraints@.len()
                                        implies #[trigger] sets[a].constraints@[p].id
                                    != #[trigger] sets[a].constraints@[q].id by {
                                    assert(sets[a].constraints@[p].id == old_sets[a].constraints@[p].id);
                                    assert(sets[a].constraints@[q].id == old_sets[a].constraints@[q].id);
                                }
                                assert forall|p: int|
                                    0 <= p < sets[a].constraints@.len()
                                        implies #[trigger] sets[a].constraints@[p].id
                                    < sets[a].next_id() by {
                                    assert(sets[a].constraints@[p].id == old_sets[a].constraints@[p].id);
                                }
                            } else {
                                assert(sets[a] == old_sets[a]);
                            }
                        }
                        assert forall|a: int, b: int|
                            0 <= a < b < sets.len() implies #[trigger] sets[a].scope
                            != #[trigger] sets[b].scope by {
                            assert(sets[a].scope == old_sets[a].scope);
                            assert(sets[b].scope == old_sets[b].scope);
                        }
                    }
                }
                return true;
            }
            j = j + 1;
        }
        proof {
            let cs = old(self).parametric_constraints@[si as int].constraints@;
            assert(!(exists|k: int| 0 <= k < cs.len() && #[trigger] cs[k].id == id));
        }
        false
    }

    /// Every constraint, in any scope, driven by the named parameter `name`,
    /// set by set and in order, with its referenced handles ascending and
    /// each listed once.
    pub fn parameter_usage(&self, name: &str) -> (out: Vec<ParameterUsage>)
        ensures
            out@.len() == usage_pairs(self.parametric_constraints@, name@).len(),
            forall|i: int|
                0 <= i < out@.len() ==> describes(
                    #[trigger] out@[i],
                    usage_pairs(self.parametric_constraints@, name@)[i],
                ),
    {
        let mut out: Vec<ParameterUsage> = Vec::new();
        let ghost sets = self.parametric_constraints@;
        let mut s: usize = 0;
        while s < self.parametric_constraints.len()
            invariant
                sets == self.parametric_constraints@,
                s <= sets.len(),
                out@.len() == usage_pairs(sets.take(s as int), name@).len(),
                forall|i: int|
                    0 <= i < out@.len() ==> describes(
                        #[trigger] out@[i],
                        usage_pairs(sets.take(s as int), name@)[i],
                    ),
            decreases sets.len() - s,
        {
            let set = &self.parametric_constraints[s];
            let ghost pred = |c: ParametricConstraint| uses_parameter(c, name@);
            let ghost pre = usage_pairs(sets.take(s as int), name@);
            let ghost scope = set.scope;
            let ghost f = |c: ParametricConstraint| (scope, c);
            let mut i: usize = 0;
            while i < set.constraints.len()
                invariant
                    sets == self.parametric_constraints@,
                    s < sets.len(),
                    set == sets[s as int],
                    scope == set.scope,
                    i <= set.constraints@.len(),
                    pred == (|c: ParametricConstraint| uses_parameter(c, name@)),
                    f == (|c: ParametricConstraint| (scope, c)),
                    pre == usage_pairs(sets.take(s as int), name@),
                    out@.len() == pre.len() + set.constraints@.take(i as int).filter(
                        pred,
                    ).len(),
                    forall|k: int|
                        0 <= k < out@.len() ==> describes(
                            #[trigger] out@[k],
                            (pre + set.constraints@.take(i as int).filter(pred).map_values(f))[k],
                        ),
                decreases set.constraints@.len() - i,
            {
                proof {
                    let k = i as int;
                    assert(set.constraints@.take(k + 1) =~= set.constraints@.take(k).push(
                        set.constraints@[k],
                    ));
                    set.constraints@.take(k).lemma_filter_push(set.constraints@[k], pred);
                }
                let c = &set.constraints[i];
                if driven_by(c, name) {
                    let entities = sorted_entities(c.refs.as_slice());
                    let u = ParameterUsage {
                        scope: set.scope,
                        constraint_id: c.id,
                        kind: c.kind,
                        entities,
                    };
                    let ghost before = set.constraints@.take(i as int).filter(pred);
                    out.push(u);
                    proof {
                        assert((pre + before.push(*c).map_values(f)) =~= (pre + before.map_values(
                            f,
                        )).push((scope, *c)));
                    }
                }
                i = i + 1;
            }
            proof {
                assert(set.constraints@.take(set.constraints@.len() as int) =~= set.constraints@);
                assert(sets.take(s + 1).drop_last() =~= sets.take(s as int));
                assert(sets.take(s + 1).last() == sets[s as int]);
            }
            s = s + 1;
        }
        assert(sets.take(sets.len() as int) =~= sets);
        out
    }

    /// True when an angular constraint drives with the parameter `name`.
    pub fn parameter_is_angular(&self, name: &str) -> (r: bool)
        ensures
            r == exists|i: int, j: int|
                0 <= i < self.parametric_constraints@.len() && 0 <= j
                    < self.parametric_constraints@[i].constraints@.len() && angular_use(
                    #[trigger] self.parametric_constraints@[i].constraints@[j],
                    name@,
                ),
    {
        let mut s: usize = 0;
        while s < self.parametric_constraints.len()
            invariant
                s <= self.parametric_constraints@.len(),
                forall|i: int, j: int|
                    0 <= i < s && 0 <= j < self.parametric_constraints@[i].constraints@.len()
                        ==> !angular_use(
                        #[trigger] self.parametric_constraints@[i].constraints@[j],
                        name@,
                    ),
            decreases self.parametric_constraints@.len() - s,
        {
            let set = &self.parametric_constraints[s];
            let mut i: usize = 0;
            while i < set.constraints.len()
                invariant
                    s < self.parametric_constraints@.len(),
                    set == self.parametric_constraints@[s as int],
                    i <= set.constraints@.len(),
                    forall|j: int| 0 <= j < i ==> !angular_use(#[trigger] set.constraints@[j], name@),
                decreases set.constraints@.len() - i,
            {
                let c = &set.constraints[i];
                let angular = match c.kind {
                    ConstraintKind::Angle | ConstraintKind::Angle3Point => true,
                    _ => false,
                };
                if angular && driven_by(c, name) {
                    assert(angular_use(self.parametric_constraints@[s as int].constraints@[i as int], name@));
                    return true;
                }
                i = i + 1;
            }
            s = s + 1;
        }
        false
    }

    /// Expand `seeds` through enabled constraints of `scope`: whole-object
    /// translations follow point relations; grip previews include curve
    /// relations as well. The result starts with `seeds`; every further
    /// handle is new and reached through a connecting constraint, and the
    /// result is closed: a connecting constraint that touches it has all its
    /// entities in it.
    pub fn parametric_connected_handles(
        &self,
        scope: ParametricScope,
        seeds: &[Handle],
        include_curve_relations: bool,
    ) -> (out: Vec<Handle>)
        ensures
            out@.len() >= seeds@.len(),
            out@.take(seeds@.len() as int) == seeds@,
            match spec_set_index(self.parametric_constraints@, scope) {
                Some(i) => {
                    &&& justified(
                        self.parametric_constraints@[i].constraints@,
                        include_curve_relations,
                        seeds@.len() as int,
                        out@,
                    )
                    &&& closed_under(
                        self.parametric_constraints@[i].constraints@,
                        include_curve_relations,
                        out@,
                    )
                    &&& exists|bound: int|
                        out@ == expand(
                            self.parametric_constraints@[i].constraints@,
                            include_curve_relations,
                            seeds@,
                            bound,
                        )
                },
                None => out@ == seeds@,
            },
    {
        let mut ordered: Vec<Handle> = Vec::new();
        let mut i: usize = 0;
        while i < seeds.len()
            invariant
                i <= seeds@.len(),
                ordered@ == seeds@.take(i as int),
            decreases seeds@.len() - i,
        {
            ordered.push(seeds[i]);
            assert(seeds@.take(i + 1) =~= seeds@.take(i as int).push(seeds@[i as int]));
            i = i + 1;
        }
        assert(seeds@.take(seeds@.len() as int) =~= seeds@);
        let si = match self.set_index(scope) {
            Some(si) => si,
            None => {
                return ordered;
            },
        };
        let cs = &self.parametric_constraints[si].constraints;
        let universe = all_referenced(cs);
        let ghost n0 = seeds@.len() as int;
        let ghost bound = n0 + universe@.len();
        let mut done = false;
        proof {
            assert(ordered@.skip(n0) =~= Seq::<Handle>::empty());
        }
        while !done
            invariant
                n0 == seeds@.len(),
                bound == n0 + universe@.len(),
                forall|e: Handle| referenced(cs@, e) ==> universe@.contains(e),
                ordered@.len() >= n0,
                ordered@.take(n0) == seeds@,
                justified(cs@, include_curve_relations, n0, ordered@),
                ordered@.len() <= bound,
                done ==> closed_under(cs@, include_curve_relations, ordered@),
                expand(cs@, include_curve_relations, ordered@, bound) == expand(
                    cs@,
                    include_curve_relations,
                    seeds@,
                    bound,
                ),
                done ==> expand(cs@, include_curve_relations, ordered@, bound) == ordered@,
            decreases bound - ordered@.len() + if done {
                0int
            } else {
                1int
            },
        {
            let ghost start = ordered@;
            let mut added = false;
            let mut k: usize = 0;
            while k < cs.len()
                invariant
                    n0 == seeds@.len(),
                    k <= cs@.len(),
                    ordered@.len() >= start.len(),
                    ordered@.take(start.len() as int) == start,
                    start.len() >= n0,
                    start.take(n0) == seeds@,
                    justified(cs@, include_curve_relations, n0, ordered@),
                    !added ==> ordered@ == start,
                    added ==> ordered@.len() > start.len(),
                    ordered@ == scan(cs@, include_curve_relations, k as int, start),
                    !added ==> forall|m: int, r: int|
                        0 <= m < k && connects(cs@[m], include_curve_relations) && refs_touch_any(
                            cs@[m].refs@,
                            ordered@,
                        ) && 0 <= r < cs@[m].refs@.len() ==> ordered@.contains(
                            #[trigger] cs@[m].refs@[r].entity,
                        ),
                decreases cs@.len() - k,
            {
                let c = &cs[k];
                let connecting = c.enabled && (include_curve_relations || match c.kind {
                    ConstraintKind::Coincident | ConstraintKind::PointOnCurve => true,
                    _ => false,
                });
                if connecting && touches_any(c.refs.as_slice(), ordered.as_slice()) {
                    let ghost snapshot = ordered@;
                    let mut r: usize = 0;
                    while r < c.refs.len()
                        invariant
                            n0 == seeds@.len(),
                            k < cs@.len(),
                            *c == cs@[k as int],
                            connects(*c, include_curve_relations),
                            refs_touch_any(c.refs@, snapshot),
                            r <= c.refs@.len(),
                            ordered@.len() >= snapshot.len(),
                            ordered@.take(snapshot.len() as int) == snapshot,
                            snapshot.len() >= start.len(),
                            snapshot.take(start.len() as int) == start,
                            start.len() >= n0,
                            start.take(n0) == seeds@,
                            justified(cs@, include_curve_relations, n0, ordered@),
                            forall|j: int| 0 <= j < r ==> ordered@.contains(#[trigger] c.refs@[j].entity),
                            ordered@ == add_new(snapshot, c.refs@, r as int),
                            snapshot == scan(cs@, include_curve_relations, k as int, start),
                            !added ==> ordered@ == start,
                            added ==> ordered@.len() > start.len(),
                            !added ==> forall|m: int, q: int|
                                0 <= m < k && connects(cs@[m], include_curve_relations)
                                    && refs_touch_any(cs@[m].refs@, ordered@) && 0 <= q
                                    < cs@[m].refs@.len() ==> ordered@.contains(
                                    #[trigger] cs@[m].refs@[q].entity,
                                ),
                        decreases c.refs@.len() - r,
                    {
                        let e = c.refs[r].entity;
                        if !contains_handle(&ordered, e) {
                            let ghost before = ordered@;
                            ordered.push(e);
                            added = true;
                            proof {
                                let len = before.len() as int;
                                assert(ordered@.take(len) =~= before);
                                assert(ordered@[len] == e);
                                assert(refs_touch(c.refs@, e)) by {
                                    assert(c.refs@[r as int].entity == e);
                                }
                                assert(refs_touch_any(c.refs@, ordered@.take(len))) by {
                                    let w = choose|w: int|
                                        0 <= w < c.refs@.len() && snapshot.contains(
                                            #[trigger] c.refs@[w].entity,
                                        );
                                    let p = choose|p: int|
                                        0 <= p < snapshot.len() && snapshot[p] == c.refs@[w].entity;
                                    assert(ordered@.take(len)[p] == before[p]);
                                    assert(before.take(snapshot.len() as int)[p] == snapshot[p]);
                                    assert(ordered@.take(len).contains(c.refs@[w].entity));
                                }
                                assert forall|q: int| n0 <= q < ordered@.len() implies {
                                    &&& !ordered@.take(q).contains(#[trigger] ordered@[q])
                                    &&& exists|cc: int|
                                        0 <= cc < cs@.len() && connects(
                                            #[trigger] cs@[cc],
                                            include_curve_relations,
                                        ) && refs_touch(cs@[cc].refs@, ordered@[q])
                                            && refs_touch_any(cs@[cc].refs@, ordered@.take(q))
                                } by {
                                    if q < len {
                                        assert(ordered@.take(q) =~= before.take(q));
                                        assert(ordered@[q] == before[q]);
                                    } else {
                                        assert(ordered@.take(q) =~= before);
                                        assert(cs@[k as int] == *c);
                                    }
                                }
                                assert(ordered@.take(snapshot.len() as int) =~= snapshot);
                                assert(ordered@.take(start.len() as int) =~= start) by {
                                    assert(before.take(start.len() as int) == start);
                                }
                                assert(ordered@.take(n0) =~= seeds@) by {
                                    assert(start.take(n0) == seeds@);
                                    assert(before.take(start.len() as int) == start);
                                }
                                assert forall|j: int| 0 <= j <= r implies ordered@.contains(
                                    #[trigger] c.refs@[j].entity,
                                ) by {
                                    if j < r {
                                        let p = choose|p: int|
                                            0 <= p < before.len() && before[p] == c.refs@[j].entity;
                                        assert(ordered@[p] == before[p]);
                                    }
                                }
                            }
                        }
                        r = r + 1;
                    }
                    proof {
                        if !added {
                            assert forall|m: int, q: int|
                                0 <= m < k + 1 && connects(cs@[m], include_curve_relations)
                                    && refs_touch_any(cs@[m].refs@, ordered@) && 0 <= q
                                    < cs@[m].refs@.len() implies ordered@.contains(
                                #[trigger] cs@[m].refs@[q].entity,
                            ) by {
                                if m == k {
                                    assert(cs@[m] == *c);
                                }
                            }
                        }
                    }
                } else {
                    proof {
                        if !added {
                            assert forall|m: int, q: int|
                                0 <= m < k + 1 && connects(cs@[m], include_curve_relations)
                                    && refs_touch_any(cs@[m].refs@, ordered@) && 0 <= q
                                    < cs@[m].refs@.len() implies ordered@.contains(
                                #[trigger] cs@[m].refs@[q].entity,
                            ) by {
                                if m == k {
                                    assert(cs@[m] == *c);
                                }
                            }
                        }
                    }
                }
                k = k + 1;
            }
            proof {
                let suffix = ordered@.skip(n0);
                assert forall|a: int, b: int|
                    0 <= a < suffix.len() && 0 <= b < suffix.len() && a != b implies suffix[a]
                    != suffix[b] by {
                    let (lo, hi) = if a < b {
                        (a, b)
                    } else {
                        (b, a)
                    };
                    assert(!ordered@.take(n0 + hi).contains(ordered@[n0 + hi]));
                    assert(ordered@.take(n0 + hi)[n0 + lo] == ordered@[n0 + lo]);
                }
                assert forall|x: Handle| suffix.contains(x) implies universe@.contains(x) by {
                    let a = choose|a: int| 0 <= a < suffix.len() && suffix[a] == x;
                    assert(ordered@[n0 + a] == x);
                    let cc = choose|cc: int|
                        0 <= cc < cs@.len() && connects(
                            #[trigger] cs@[cc],
                            include_curve_relations,
                        ) && refs_touch(cs@[cc].refs@, ordered@[n0 + a]) && refs_touch_any(
                            cs@[cc].refs@,
                            ordered@.take(n0 + a),
                        );
                    assert(referenced(cs@, x));
                }
                lemma_distinct_within(suffix, universe@);
            }
            if !added {
                done = true;
            }
        }
        ordered
    }

    /// For every enabled constraint whose every referenced entity was
    /// duplicated (`handle_map` maps each source handle to its copy),
    /// adds an equivalent constraint over the new handles to the same scope,
    /// keeping its kind, markers, driving value, datum direction, distance
    /// direction (type and vector) and angle sector. A no-op
    /// when `handle_map` is empty or nothing constrained was duplicated;
    /// otherwise the constraints epoch is bumped.
    pub fn duplicate_parametric_constraints_for(&mut self, handle_map: &FxHashMap<Handle, Handle>)
        requires
            old(self).wf(),
            forall|i: int|
                0 <= i < old(self).parametric_constraints@.len() ==> has_id_room(
                    #[trigger] old(self).parametric_constraints@[i],
                ),
        ensures
            final(self).wf(),
            final(self).hidden_parametric_constraints == old(self).hidden_parametric_constraints,
            final(self).shown_parametric_constraints == old(self).shown_parametric_constraints,
            final(self).document == old(self).document,
            final(self).display == old(self).display,
            if handle_map@.dom() == Set::<Handle>::empty() {
                &&& final(self).parametric_constraints == old(self).parametric_constraints
                &&& final(self).constraints_epoch == old(self).constraints_epoch
            } else {
                &&& final(self).parametric_constraints@.len()
                    == old(self).parametric_constraints@.len()
                &&& forall|i: int|
                    0 <= i < old(self).parametric_constraints@.len() ==> copies_appended(
                        #[trigger] final(self).parametric_constraints@[i],
                        old(self).parametric_constraints@[i],
                        handle_map@,
                    )
                &&& final(self).constraints_epoch == if exists|i: int|
                    0 <= i < old(self).parametric_constraints@.len() && copy_sources(
                        #[trigger] old(self).parametric_constraints@[i].constraints@,
                        handle_map@,
                    ).len() > 0 {
                    old(self).constraints_epoch.wrapping_add(1)
                } else {
                    old(self).constraints_epoch
                }
            },
    {
        if fx_is_empty(handle_map) {
            return;
        }
        let ghost olds = self.parametric_constraints@;
        let mut total: usize = 0;
        let mut i: usize = 0;
        while i < self.parametric_constraints.len()
            invariant
                self.parametric_constraints@.len() == olds.len(),
                i <= olds.len(),
                self.wf(),
                self.constraints_epoch == old(self).constraints_epoch,
                self.hidden_parametric_constraints == old(self).hidden_parametric_constraints,
                self.shown_parametric_constraints == old(self).shown_parametric_constraints,
                self.document == old(self).document,
                self.display == old(self).display,
                forall|j: int| 0 <= j < olds.len() ==> has_id_room(#[trigger] olds[j]),
                forall|j: int| 0 <= j < olds.len() ==> (#[trigger] olds[j]).wf(),
                forall|j: int|
                    0 <= j < i ==> copies_appended(
                        #[trigger] self.parametric_constraints@[j],
                        olds[j],
                        handle_map@,
                    ),
                forall|j: int| i <= j < olds.len() ==> #[trigger] self.parametric_constraints@[j] == olds[j],
                (total > 0) == exists|j: int|
                    0 <= j < i && copy_sources(#[trigger] olds[j].constraints@, handle_map@).len()
                        > 0,
            decreases olds.len() - i,
        {
            let ghost prev = self.parametric_constraints@;
            let mut set = self.parametric_constraints.remove(i);
            assert(set == olds[i as int]);
            let added = add_copies(&mut set, handle_map);
            let ghost done_set = set;
            self.parametric_constraints.insert(i, set);
            proof {
                let sets = self.parametric_constraints@;
                assert(sets =~= prev.update(i as int, done_set));
                assert forall|j: int| 0 <= j < sets.len() implies #[trigger] sets[j].wf() by {
                    if j != i {
                        assert(sets[j] == prev[j]);
                    }
                }
                assert forall|a: int, b: int|
                    0 <= a < b < sets.len() implies #[trigger] sets[a].scope
                    != #[trigger] sets[b].scope by {
                    assert(sets[a].scope == prev[a].scope);
                    assert(sets[b].scope == prev[b].scope);
                }
            }
            if added > 0 {
                total = 1;
            }
            i = i + 1;
        }
        if total > 0 {
            self.bump_constraints_epoch();
        }
    }
}

impl Scene {
    /// The names of the drawing's user block definitions (neither model nor
    /// paper space, nor a layout block), in table order.
    pub fn custom_block_names(&self) -> (r: Vec<String>)
        ensures
            r@.map_values(|s: String| s@) == custom_names(self.document.block_records@),
    {
        self.document.custom_block_names()
    }

    /// The entities of anonymous dimension blocks that visually belong to
    /// dimensions inside block definition `block_record`; see
    /// [`Drawing::block_definition_dependent_handles`].
    pub fn block_definition_dependent_handles(&self, block_record: u64) -> (r: Vec<u64>)
        ensures
            r@ == dependent_handles(self.document, block_record),
    {
        self.document.block_definition_dependent_handles(block_record)
    }

    /// Rename block `old_name` to `new_name`, re-keying its record and
    /// repointing its begin marker and every reference, so all instances keep
    /// resolving. Returns false, changing nothing, when `new_name` is invalid
    /// or already taken, the names are equal up to ASCII case, or `old_name`
    /// is missing, anonymous or an external reference.
    pub fn rename_block(&mut self, old_name: &str, new_name: &str) -> (r: bool)
        requires
            old(self).wf(),
        ensures
            r == rename_accepted(old(self).document, old_name@, new_name@),
            r ==> old(self).document.renamed(final(self).document, old_name@, new_name@),
            !r ==> final(self).document == old(self).document,
            final(self).display.geometry_epoch == if r {
                old(self).display.geometry_epoch.wrapping_add(1)
            } else {
                old(self).display.geometry_epoch
            },
            final(self).display.selection == old(self).display.selection,
            final(self).display.current_layout == old(self).display.current_layout,
            final(self).display.camera_generation == old(self).display.camera_generation,
            final(self).parametric_constraints == old(self).parametric_constraints,
            final(self).hidden_parametric_constraints == old(self).hidden_parametric_constraints,
            final(self).shown_parametric_constraints == old(self).shown_parametric_constraints,
            final(self).constraints_epoch == old(self).constraints_epoch,
            final(self).wf(),
    {
        let renamed = self.document.rename_block(old_name, new_name);
        if renamed {
            self.bump_geometry();
        }
        renamed
    }

    /// Start over on a new drawing: nothing selected, the model layout shown,
    /// a new camera and rebuilt geometry caches. Constraint data and display
    /// overrides are left as they are.
    pub fn clear(&mut self)
        requires
            old(self).wf(),
        ensures
            final(self).document.is_new_document(),
            final(self).display.selection@.len() == 0,
            final(self).display.current_layout@ == "Model"@,
            final(self).display.camera_generation == old(self).display.camera_generation.wrapping_add(1),
            final(self).display.geometry_epoch == old(self).display.geometry_epoch.wrapping_add(1),
            final(self).document.entities@.len() == 0,
            custom_names(final(self).document.block_records@).len() == 0,
            final(self).parametric_constraints == old(self).parametric_constraints,
            final(self).hidden_parametric_constraints == old(self).hidden_parametric_constraints,
            final(self).shown_parametric_constraints == old(self).shown_parametric_constraints,
            final(self).constraints_epoch == old(self).constraints_epoch,
            final(self).wf(),
    {
        self.document = Drawing::new();
        self.display.selection = Vec::new();
        self.display.current_layout = "Model".to_owned();
        self.display.camera_generation = self.display.camera_generation.wrapping_add(1);
        self.bump_geometry();
    }
}

impl Scene {
    /// The constraints automatic constraining proposes in `scope`, given the
    /// sources handed to geometric inference, the relations it found between
    /// them, and the constraint validity check's verdict on what each
    /// relation maps to (`accepted`, by position): each relation mapped to a
    /// constraint, in order, leaving out a coincidence of two ends of one
    /// object, what the validity check refused, and whatever the scope already
    /// holds (the pair in either order).
    pub fn inferred_parametric_constraints(
        &self,
        scope: ParametricScope,
        sources: &[InferenceSource],
        relations: &[InferredRelation],
        accepted: &[bool],
    ) -> (r: Vec<(ConstraintKind, Vec<ParametricRef>)>)
        requires
            forall|i: int|
                0 <= i < relations@.len() ==> relation_in_range(
                    #[trigger] relations@[i],
                    sources@.len() as int,
                ),
            accepted@.len() == relations@.len(),
        ensures
            r@.map_values(|p: (ConstraintKind, Vec<ParametricRef>)| proposal_view(p)) == proposals(
                sources@,
                relations@,
                accepted@,
                match spec_set_index(self.parametric_constraints@, scope) {
                    Some(i) => self.parametric_constraints@[i].constraints@,
                    None => Seq::empty(),
                },
            ),
    {
        proposals_from_relations(self.parametric_constraint_set(scope), sources, relations, accepted)
    }
}

fn bounded_by_changed(boundary: &Vec<u64>, changed: &FxHashSet<u64>) -> (r: bool)
    ensures
        r == exists|j: int| 0 <= j < boundary@.len() && changed@.contains(#[trigger] boundary@[j]),
{
    let mut j: usize = 0;
    while j < boundary.len()
        invariant
            j <= boundary@.len(),
            forall|i: int| 0 <= i < j ==> !changed@.contains(#[trigger] boundary@[i]),
        decreases boundary@.len() - j,
    {
        if fx_set_contains(changed, boundary[j]) {
            return true;
        }
        j = j + 1;
    }
    false
}

impl Scene {
    /// The associative hatches whose boundary uses an entity of `changed`:
    /// each such hatch once, in drawing order.
    pub fn associative_hatch_dependents(&self, changed: &FxHashSet<u64>) -> (r: Vec<u64>)
        ensures
            r@.no_duplicates(),
            forall|h: u64| #[trigger] r@.contains(h) <==> is_hatch_dependent(
                self.document.entities@,
                changed@,
                h,
            ),
    {
        let ents = &self.document.entities;
        let mut out: Vec<u64> = Vec::new();
        let mut k: usize = 0;
        while k < ents.len()
            invariant
                k <= ents@.len(),
                out@.no_duplicates(),
                forall|h: u64| #[trigger] out@.contains(h) <==> is_hatch_dependent(
                    ents@.take(k as int),
                    changed@,
                    h,
                ),
            decreases ents@.len() - k,
        {
            proof {
                assert forall|h: u64| is_hatch_dependent(ents@.take(k + 1), changed@, h) <==> (
                is_hatch_dependent(ents@.take(k as int), changed@, h) || (hatch_depends_on(
                    ents@[k as int],
                    changed@,
                ) && ents@[k as int].handle_of() == h)) by {
                    if is_hatch_dependent(ents@.take(k + 1), changed@, h) {
                        let w = choose|w: int|
                            0 <= w < ents@.take(k + 1).len() && hatch_depends_on(
                                #[trigger] ents@.take(k + 1)[w],
                                changed@,
                            ) && ents@.take(k + 1)[w].handle_of() == h;
                        if w < k {
                            assert(ents@.take(k as int)[w] == ents@.take(k + 1)[w]);
                        }
                    }
                    if is_hatch_dependent(ents@.take(k as int), changed@, h) {
                        let w = choose|w: int|
                            0 <= w < ents@.take(k as int).len() && hatch_depends_on(
                                #[trigger] ents@.take(k as int)[w],
                                changed@,
                            ) && ents@.take(k as int)[w].handle_of() == h;
                        assert(ents@.take(k + 1)[w] == ents@.take(k as int)[w]);
                    }
                    if hatch_depends_on(ents@[k as int], changed@) && ents@[k as int].handle_of()
                        == h {
                        assert(ents@.take(k + 1)[k as int] == ents@[k as int]);
                    }
                }
            }
            match &ents[k] {
                DrawingEntity::Hatch { handle, associative, boundary_handles } => {
                    let ghost before = out@;
                    if *associative && bounded_by_changed(boundary_handles, changed)
                        && !contains_u64(&out, *handle) {
                        out.push(*handle);
                        proof {
                            assert forall|x: u64| #[trigger] out@.contains(x) <==> (before.contains(
                                x,
                            ) || x == *handle) by {
                                if out@.contains(x) {
                                    let i = choose|i: int| 0 <= i < out@.len() && out@[i] == x;
                                    if i < before.len() {
                                        assert(before[i] == x);
                                    }
                                }
                                if before.contains(x) {
                                    let i = choose|i: int| 0 <= i < before.len() && before[i] == x;
                                    assert(out@[i] == x);
                                }
                                if x == *handle {
                                    assert(out@[before.len() as int] == x);
                                }
                            }
                        }
                    }
                },
                _ => {},
            }
            k = k + 1;
        }
        proof {
            assert(ents@.take(ents@.len() as int) =~= ents@);
        }
        out
    }
}

fn contains_u64(v: &Vec<u64>, x: u64) -> (r: bool)
    ensures
        r == v@.contains(x),
{
    let mut i: usize = 0;
    while i < v.len()
        invariant
            i <= v@.len(),
            forall|j: int| 0 <= j < i ==> v@[j] != x,
        decreases v@.len() - i,
    {
        if v[i] == x {
            assert(v@[i as int] == x);
            return true;
        }
        i = i + 1;
    }
    false
}

} // verus!
