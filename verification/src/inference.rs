//! Automatic constraining: the objects handed to geometric inference, and
//! the constraint proposals made from the relations it reports.
//!
//! Inference itself works on the objects' coordinates; it reports each
//! relation by the positions of the sources involved. This module decides
//! which objects become sources, how each relation is addressed as a
//! constraint, and which proposals are dropped because the scope already
//! holds them.

use crate::parametric_constraints::{
    same_kind, same_refs, spec_same_refs, ConstraintKind, Handle, ParametricConstraint,
    ParametricConstraintSet, ParametricRef, CENTER_MARKER, MAX_SEGMENT_INDEX,
    POLYLINE_SEGMENT_MARKER_BASE,
};
use vstd::prelude::*;

verus! {

/// Which end of a source an inferred coincidence uses.
#[derive(Clone, Copy, Debug, PartialEq, Eq, Structural)]
pub enum SourceEnd {
    Start,
    End,
}

/// A relation geometric inference found, naming sources by position.
#[derive(Clone, Copy, Debug, PartialEq, Eq, Structural)]
pub enum InferredRelation {
    Coincident { first: usize, first_end: SourceEnd, second: usize, second_end: SourceEnd },
    Collinear { first: usize, second: usize },
    Concentric { first: usize, second: usize },
    Parallel { first: usize, second: usize },
    Perpendicular { first: usize, second: usize },
    Horizontal { entity: usize },
    Vertical { entity: usize },
    Tangent { first: usize, second: usize },
    Equal { first: usize, second: usize },
}

/// One object, or one straight polyline segment, handed to inference: how a
/// constraint addresses it as a whole and at its two ends.
#[derive(Clone, Copy, Debug)]
pub struct InferenceSource {
    pub handle: Handle,
    pub whole: ParametricRef,
    pub start: ParametricRef,
    pub end: ParametricRef,
}

/// A line or an arc: addressed whole, and by its points 0 and 1.
pub open spec fn spec_curve_source(handle: Handle) -> InferenceSource {
    InferenceSource {
        handle,
        whole: ParametricRef { entity: handle, marker: None },
        start: ParametricRef { entity: handle, marker: Some(0) },
        end: ParametricRef { entity: handle, marker: Some(1) },
    }
}

/// A circle: addressed whole, and at both ends by its center.
pub open spec fn spec_circle_source(handle: Handle) -> InferenceSource {
    InferenceSource {
        handle,
        whole: ParametricRef { entity: handle, marker: None },
        start: ParametricRef { entity: handle, marker: Some(CENTER_MARKER) },
        end: ParametricRef { entity: handle, marker: Some(CENTER_MARKER) },
    }
}

/// Segment `index` of a polyline with `count` vertices: addressed as that
/// segment, and by the vertices it joins.
pub open spec fn spec_segment_source(handle: Handle, index: int, count: int) -> InferenceSource {
    InferenceSource {
        handle,
        whole: ParametricRef {
            entity: handle,
            marker: Some((POLYLINE_SEGMENT_MARKER_BASE - index) as i32),
        },
        start: ParametricRef { entity: handle, marker: Some(index as i32) },
        end: ParametricRef { entity: handle, marker: Some(((index + 1) % count) as i32) },
    }
}

/// The straight segments among the first `k` vertices, by first vertex.
pub open spec fn spec_straight_prefix(straight: Seq<bool>, k: int) -> Seq<int>
    decreases k,
{
    if k <= 0 {
        Seq::empty()
    } else {
        let rest = spec_straight_prefix(straight, k - 1);
        if straight[k - 1] {
            rest.push(k - 1)
        } else {
            rest
        }
    }
}

/// The segments of a polyline that inference sees, by first vertex: every
/// straight segment, the closing one only when the polyline is closed.
pub open spec fn spec_polyline_segments(straight: Seq<bool>, closed: bool) -> Seq<int> {
    if straight.len() == 0 {
        Seq::empty()
    } else {
        let last = straight.len() - 1;
        let open_part = spec_straight_prefix(straight, last);
        if closed && straight[last] {
            open_part.push(last)
        } else {
            open_part
        }
    }
}

/// The reference of the chosen end of a source.
pub open spec fn end_ref(s: InferenceSource, end: SourceEnd) -> ParametricRef {
    match end {
        SourceEnd::Start => s.start,
        SourceEnd::End => s.end,
    }
}

/// Every source position a relation names is a position of `count` sources.
pub open spec fn relation_in_range(rel: InferredRelation, count: int) -> bool {
    match rel {
        InferredRelation::Coincident { first, second, .. } => first < count && second < count,
        InferredRelation::Collinear { first, second } => first < count && second < count,
        InferredRelation::Concentric { first, second } => first < count && second < count,
        InferredRelation::Parallel { first, second } => first < count && second < count,
        InferredRelation::Perpendicular { first, second } => first < count && second < count,
        InferredRelation::Horizontal { entity } => entity < count,
        InferredRelation::Vertical { entity } => entity < count,
        InferredRelation::Tangent { first, second } => first < count && second < count,
        InferredRelation::Equal { first, second } => first < count && second < count,
    }
}

/// The constraint a relation proposes, if any: a coincidence of two ends of
/// one object proposes nothing; a concentric pair is addressed at the two
/// centers; every other pair relation relates the two sources as wholes.
pub open spec fn relation_proposal(sources: Seq<InferenceSource>, rel: InferredRelation) -> Option<
    (ConstraintKind, Seq<ParametricRef>),
> {
    match rel {
        InferredRelation::Coincident { first, first_end, second, second_end } => if sources[first as int].handle
            == sources[second as int].handle {
            None
        } else {
            Some(
                (
                    ConstraintKind::Coincident,
                    seq![
                        end_ref(sources[first as int], first_end),
                        end_ref(sources[second as int], second_end),
                    ],
                ),
            )
        },
        InferredRelation::Collinear { first, second } => Some(
            (
                ConstraintKind::Colinear,
                seq![sources[first as int].whole, sources[second as int].whole],
            ),
        ),
        InferredRelation::Concentric { first, second } => Some(
            (
                ConstraintKind::Concentric,
                seq![
                    ParametricRef { entity: sources[first as int].handle, marker: Some(CENTER_MARKER) },
                    ParametricRef { entity: sources[second as int].handle, marker: Some(CENTER_MARKER) },
                ],
            ),
        ),
        InferredRelation::Parallel { first, second } => Some(
            (
                ConstraintKind::Parallel,
                seq![sources[first as int].whole, sources[second as int].whole],
            ),
        ),
        InferredRelation::Perpendicular { first, second } => Some(
            (
                ConstraintKind::Perpendicular,
                seq![sources[first as int].whole, sources[second as int].whole],
            ),
        ),
        InferredRelation::Horizontal { entity } => Some(
            (ConstraintKind::Horizontal, seq![sources[entity as int].whole]),
        ),
        InferredRelation::Vertical { entity } => Some(
            (ConstraintKind::Vertical, seq![sources[entity as int].whole]),
        ),
        InferredRelation::Tangent { first, second } => Some(
            (
                ConstraintKind::Tangent,
                seq![sources[first as int].whole, sources[second as int].whole],
            ),
        ),
        InferredRelation::Equal { first, second } => Some(
            (ConstraintKind::Equal, seq![sources[first as int].whole, sources[second as int].whole]),
        ),
    }
}

/// The constraint kind named like a relation.
pub open spec fn kind_named_by(rel: InferredRelation) -> ConstraintKind {
    match rel {
        InferredRelation::Coincident { .. } => ConstraintKind::Coincident,
        InferredRelation::Collinear { .. } => ConstraintKind::Colinear,
        InferredRelation::Concentric { .. } => ConstraintKind::Concentric,
        InferredRelation::Parallel { .. } => ConstraintKind::Parallel,
        InferredRelation::Perpendicular { .. } => ConstraintKind::Perpendicular,
        InferredRelation::Horizontal { .. } => ConstraintKind::Horizontal,
        InferredRelation::Vertical { .. } => ConstraintKind::Vertical,
        InferredRelation::Tangent { .. } => ConstraintKind::Tangent,
        InferredRelation::Equal { .. } => ConstraintKind::Equal,
    }
}

/// Each relation is proposed with the constraint kind of the same name, and
/// only a coincidence of two ends of one object proposes nothing. A pair
/// relation other than a coincidence or concentricity relates its two
/// sources as wholes, in order; a horizontal or vertical relation its one
/// source as a whole.
pub proof fn lemma_relation_kinds(sources: Seq<InferenceSource>, rel: InferredRelation)
    ensures
        relation_proposal(sources, rel) matches Some(p) ==> p.0 == kind_named_by(rel),
        relation_proposal(sources, rel) is None <==> (rel matches InferredRelation::Coincident {
            first,
            second,
            ..
        } && sources[first as int].handle == sources[second as int].handle),
        rel matches InferredRelation::Parallel { first, second } ==> relation_proposal(
            sources,
            rel,
        ) == Some((ConstraintKind::Parallel, seq![sources[first as int].whole, sources[second as int].whole])),
        rel matches InferredRelation::Perpendicular { first, second } ==> relation_proposal(
            sources,
            rel,
        ) == Some((ConstraintKind::Perpendicular, seq![sources[first as int].whole, sources[second as int].whole])),
        rel matches InferredRelation::Collinear { first, second } ==> relation_proposal(
            sources,
            rel,
        ) == Some((ConstraintKind::Colinear, seq![sources[first as int].whole, sources[second as int].whole])),
        rel matches InferredRelation::Tangent { first, second } ==> relation_proposal(
            sources,
            rel,
        ) == Some((ConstraintKind::Tangent, seq![sources[first as int].whole, sources[second as int].whole])),
        rel matches InferredRelation::Equal { first, second } ==> relation_proposal(
            sources,
            rel,
        ) == Some((ConstraintKind::Equal, seq![sources[first as int].whole, sources[second as int].whole])),
        rel matches InferredRelation::Horizontal { entity } ==> relation_proposal(sources, rel)
            == Some((ConstraintKind::Horizontal, seq![sources[entity as int].whole])),
        rel matches InferredRelation::Vertical { entity } ==> relation_proposal(sources, rel)
            == Some((ConstraintKind::Vertical, seq![sources[entity as int].whole])),
        rel matches InferredRelation::Concentric { first, second } ==> relation_proposal(
            sources,
            rel,
        ) == Some(
            (
                ConstraintKind::Concentric,
                seq![
                    ParametricRef { entity: sources[first as int].handle, marker: Some(CENTER_MARKER) },
                    ParametricRef { entity: sources[second as int].handle, marker: Some(CENTER_MARKER) },
                ],
            ),
        ),
        rel matches InferredRelation::Coincident { first, first_end, second, second_end } ==> (
        sources[first as int].handle != sources[second as int].handle ==> relation_proposal(
            sources,
            rel,
        ) == Some(
            (
                ConstraintKind::Coincident,
                seq![
                    if first_end == SourceEnd::Start {
                        sources[first as int].start
                    } else {
                        sources[first as int].end
                    },
                    if second_end == SourceEnd::Start {
                        sources[second as int].start
                    } else {
                        sources[second as int].end
                    },
                ],
            ),
        )),
{
}

/// When every relation is accepted, the scope holds nothing yet and no
/// relation is a coincidence of two ends of one object, there is one
/// proposal per relation, in order, each of the kind named like its
/// relation.
pub proof fn lemma_proposals_follow_relations(
    sources: Seq<InferenceSource>,
    rels: Seq<InferredRelation>,
    accepted: Seq<bool>,
)
    requires
        forall|r: int| 0 <= r < rels.len() ==> #[trigger] accepted[r],
        forall|r: int|
            0 <= r < rels.len() ==> !(#[trigger] rels[r] matches InferredRelation::Coincident {
                first,
                second,
                ..
            } && sources[first as int].handle == sources[second as int].handle),
    ensures
        proposals(sources, rels, accepted, Seq::empty()).len() == rels.len(),
        forall|j: int|
            0 <= j < rels.len() ==> (#[trigger] proposals(sources, rels, accepted, Seq::empty())[j]).0
                == kind_named_by(rels[j]),
    decreases rels.len(),
{
    if rels.len() > 0 {
        let front = rels.drop_last();
        assert forall|r: int| 0 <= r < front.len() implies !(#[trigger] front[r] matches InferredRelation::Coincident {
            first,
            second,
            ..
        } && sources[first as int].handle == sources[second as int].handle) by {
            assert(front[r] == rels[r]);
        }
        assert forall|r: int| 0 <= r < front.len() implies #[trigger] accepted[r] by {
            assert(accepted[r]);
        }
        lemma_proposals_follow_relations(sources, front, accepted);
        let last = rels.len() - 1;
        assert(rels.last() == rels[last]);
        lemma_relation_kinds(sources, rels[last]);
        assert(accepted[last]);
        let p = relation_proposal(sources, rels.last());
        assert(p is Some);
        let pp = p->0;
        assert(!already_constrained(Seq::<ParametricConstraint>::empty(), pp.0, pp.1));
        let all = proposals(sources, rels, accepted, Seq::empty());
        let rest = proposals(sources, front, accepted, Seq::empty());
        assert(all == rest.push(pp));
        assert forall|j: int| 0 <= j < rels.len() implies (#[trigger] all[j]).0 == kind_named_by(
            rels[j],
        ) by {
            if j < last {
                assert(all[j] == rest[j]);
                assert(front[j] == rels[j]);
            }
        }
    }
}

/// Some constraint of `existing` already relates `refs` by `kind` (the pair
/// in either order).
pub open spec fn already_constrained(
    existing: Seq<ParametricConstraint>,
    kind: ConstraintKind,
    refs: Seq<ParametricRef>,
) -> bool {
    exists|i: int|
        0 <= i < existing.len() && (#[trigger] existing[i]).kind == kind && spec_same_refs(
            existing[i].refs@,
            refs,
        )
}

/// The proposals made from `rels`, in order, keeping only those of the
/// relations `accepted` marks (by position) and leaving out those `existing`
/// already holds.
pub open spec fn proposals(
    sources: Seq<InferenceSource>,
    rels: Seq<InferredRelation>,
    accepted: Seq<bool>,
    existing: Seq<ParametricConstraint>,
) -> Seq<(ConstraintKind, Seq<ParametricRef>)>
    decreases rels.len(),
{
    if rels.len() == 0 {
        Seq::empty()
    } else {
        let rest = proposals(sources, rels.drop_last(), accepted, existing);
        match relation_proposal(sources, rels.last()) {
            Some(p) => if accepted[rels.len() - 1] && !already_constrained(existing, p.0, p.1) {
                rest.push(p)
            } else {
                rest
            },
            None => rest,
        }
    }
}

/// A proposal, with its reference list taken by value.
pub open spec fn proposal_view(p: (ConstraintKind, Vec<ParametricRef>)) -> (
    ConstraintKind,
    Seq<ParametricRef>,
) {
    (p.0, p.1@)
}

/// Automatic constraining proposes only what the validity check accepted
/// and never a constraint the scope already holds: every proposal is what
/// an accepted relation maps to, and no proposal has the kind and references
/// (the pair in either order) of an existing constraint.
pub proof fn lemma_proposals_skip_existing(
    sources: Seq<InferenceSource>,
    rels: Seq<InferredRelation>,
    accepted: Seq<bool>,
    existing: Seq<ParametricConstraint>,
)
    ensures
        forall|j: int|
            0 <= j < proposals(sources, rels, accepted, existing).len() ==> !already_constrained(
                existing,
                (#[trigger] proposals(sources, rels, accepted, existing)[j]).0,
                proposals(sources, rels, accepted, existing)[j].1,
            ),
        forall|j: int|
            #![trigger proposals(sources, rels, accepted, existing)[j]]
            0 <= j < proposals(sources, rels, accepted, existing).len() ==> exists|r: int|
                0 <= r < rels.len() && accepted[r] && relation_proposal(sources, #[trigger] rels[r])
                    == Some(proposals(sources, rels, accepted, existing)[j]),
    decreases rels.len(),
{
    if rels.len() > 0 {
        let rest = proposals(sources, rels.drop_last(), accepted, existing);
        lemma_proposals_skip_existing(sources, rels.drop_last(), accepted, existing);
        let all = proposals(sources, rels, accepted, existing);
        assert forall|j: int| 0 <= j < all.len() implies !already_constrained(
            existing,
            (#[trigger] all[j]).0,
            all[j].1,
        ) && exists|r: int|
            0 <= r < rels.len() && accepted[r] && relation_proposal(sources, #[trigger] rels[r])
                == Some(all[j]) by {
            if j < rest.len() {
                assert(all[j] == rest[j]);
                let r = choose|r: int|
                    0 <= r < rels.drop_last().len() && accepted[r] && relation_proposal(
                        sources,
                        #[trigger] rels.drop_last()[r],
                    ) == Some(rest[j]);
                assert(rels.drop_last()[r] == rels[r]);
            } else {
                assert(rels[rels.len() - 1] == rels.last());
            }
        }
    }
}

impl InferenceSource {
    /// A line or an arc.
    pub fn curve(handle: Handle) -> (r: Self)
        ensures
            r == spec_curve_source(handle),
    {
        InferenceSource {
            handle,
            whole: ParametricRef::whole(handle),
            start: ParametricRef::point(handle, 0),
            end: ParametricRef::point(handle, 1),
        }
    }

    /// A circle.
    pub fn circle(handle: Handle) -> (r: Self)
        ensures
            r == spec_circle_source(handle),
    {
        InferenceSource {
            handle,
            whole: ParametricRef::whole(handle),
            start: ParametricRef::center(handle),
            end: ParametricRef::center(handle),
        }
    }
}

/// The sources a polyline contributes, with the first vertex of each
/// segment: `straight[i]` tells whether the segment starting at vertex `i`
/// has no bulge.
pub fn polyline_sources(handle: Handle, straight: &[bool], closed: bool) -> (r: Vec<
    (usize, InferenceSource),
>)
    requires
        straight@.len() <= MAX_SEGMENT_INDEX + 1,
    ensures
        r@.len() == spec_polyline_segments(straight@, closed).len(),
        forall|j: int|
            0 <= j < r@.len() ==> {
                let i = spec_polyline_segments(straight@, closed)[j];
                &&& (#[trigger] r@[j]).0 == i
                &&& r@[j].1 == spec_segment_source(handle, i, straight@.len() as int)
            },
{
    let count = straight.len();
    // The closing segment (from the last vertex back to the first) only
    // exists on a closed polyline.
    let limit = if closed || count == 0 {
        count
    } else {
        count - 1
    };
    let mut out: Vec<(usize, InferenceSource)> = Vec::new();
    let mut index: usize = 0;
    while index < limit
        invariant
            count == straight@.len(),
            count <= MAX_SEGMENT_INDEX + 1,
            limit <= count,
            index <= limit,
            out@.len() == spec_straight_prefix(straight@, index as int).len(),
            forall|j: int|
                0 <= j < out@.len() ==> {
                    let i = spec_straight_prefix(straight@, index as int)[j];
                    &&& (#[trigger] out@[j]).0 == i
                    &&& out@[j].1 == spec_segment_source(handle, i, count as int)
                },
        decreases limit - index,
    {
        if straight[index] {
            let end_vertex = (index + 1) % count;
            let source = InferenceSource {
                handle,
                whole: ParametricRef::segment(handle, index),
                start: ParametricRef::point(handle, index as i32),
                end: ParametricRef::point(handle, end_vertex as i32),
            };
            out.push((index, source));
        }
        index = index + 1;
    }
    assert(spec_polyline_segments(straight@, closed) == spec_straight_prefix(
        straight@,
        limit as int,
    ));
    out
}

/// The constraints inference proposes: each relation mapped to a constraint
/// in order, without a coincidence of two ends of one object, without the
/// relations whose constraint the validity check refused (`accepted[j]` is
/// its verdict on relation `j`), and without what `existing` already holds.
pub fn proposals_from_relations(
    existing: Option<&ParametricConstraintSet>,
    sources: &[InferenceSource],
    relations: &[InferredRelation],
    accepted: &[bool],
) -> (r: Vec<(ConstraintKind, Vec<ParametricRef>)>)
    requires
        forall|i: int|
            0 <= i < relations@.len() ==> relation_in_range(
                #[trigger] relations@[i],
                sources@.len() as int,
            ),
        accepted@.len() == relations@.len(),
    ensures
        r@.map_values(|p: (ConstraintKind, Vec<ParametricRef>)| proposal_view(p)) == proposals(
            sources@,
            relations@,
            accepted@,
            match existing {
                Some(set) => set.constraints@,
                None => Seq::empty(),
            },
        ),
{
    let ghost ex = match existing {
        Some(set) => set.constraints@,
        None => Seq::<ParametricConstraint>::empty(),
    };
    let mut out: Vec<(ConstraintKind, Vec<ParametricRef>)> = Vec::new();
    let mut k: usize = 0;
    while k < relations.len()
        invariant
            k <= relations@.len(),
            accepted@.len() == relations@.len(),
            forall|i: int|
                0 <= i < relations@.len() ==> relation_in_range(
                    #[trigger] relations@[i],
                    sources@.len() as int,
                ),
            ex == match existing {
                Some(set) => set.constraints@,
                None => Seq::<ParametricConstraint>::empty(),
            },
            out@.map_values(|p: (ConstraintKind, Vec<ParametricRef>)| proposal_view(p))
                == proposals(sources@, relations@.take(k as int), accepted@, ex),
        decreases relations@.len() - k,
    {
        proof {
            assert(relations@.take(k + 1).drop_last() =~= relations@.take(k as int));
            assert(relations@.take(k + 1).last() == relations@[k as int]);
        }
        let proposal = relation_proposal_of(sources, relations[k]);
        match proposal {
            Some(p) => {
                let present = match existing {
                    Some(set) => constrained_in(&set.constraints, p.0, &p.1),
                    None => false,
                };
                if accepted[k] && !present {
                    out.push(p);
                }
            },
            None => {},
        }
        proof {
            assert(out@.map_values(|p: (ConstraintKind, Vec<ParametricRef>)| proposal_view(p))
                =~= proposals(sources@, relations@.take(k + 1), accepted@, ex));
        }
        k = k + 1;
    }
    proof {
        assert(relations@.take(relations@.len() as int) =~= relations@);
    }
    out
}

fn both_wholes(sources: &[InferenceSource], first: usize, second: usize) -> (r: Vec<ParametricRef>)
    requires
        first < sources@.len(),
        second < sources@.len(),
    ensures
        r@ == seq![sources@[first as int].whole, sources@[second as int].whole],
{
    let mut v: Vec<ParametricRef> = Vec::new();
    v.push(sources[first].whole);
    v.push(sources[second].whole);
    proof {
        assert(v@ =~= seq![sources@[first as int].whole, sources@[second as int].whole]);
    }
    v
}

fn pick_end(s: &InferenceSource, end: SourceEnd) -> (r: ParametricRef)
    ensures
        r == end_ref(*s, end),
{
    match end {
        SourceEnd::Start => s.start,
        SourceEnd::End => s.end,
    }
}

fn relation_proposal_of(sources: &[InferenceSource], rel: InferredRelation) -> (r: Option<
    (ConstraintKind, Vec<ParametricRef>),
>)
    requires
        relation_in_range(rel, sources@.len() as int),
    ensures
        r matches Some(p) ==> relation_proposal(sources@, rel) == Some(proposal_view(p)),
        r is None ==> relation_proposal(sources@, rel) is None,
{
    match rel {
        InferredRelation::Coincident { first, first_end, second, second_end } => {
            if sources[first].handle == sources[second].handle {
                None
            } else {
                let mut v: Vec<ParametricRef> = Vec::new();
                v.push(pick_end(&sources[first], first_end));
                v.push(pick_end(&sources[second], second_end));
                proof {
                    assert(v@ =~= seq![
                        end_ref(sources@[first as int], first_end),
                        end_ref(sources@[second as int], second_end),
                    ]);
                }
                Some((ConstraintKind::Coincident, v))
            }
        },
        InferredRelation::Collinear { first, second } => Some(
            (ConstraintKind::Colinear, both_wholes(sources, first, second)),
        ),
        InferredRelation::Concentric { first, second } => {
            let mut v: Vec<ParametricRef> = Vec::new();
            v.push(ParametricRef::center(sources[first].handle));
            v.push(ParametricRef::center(sources[second].handle));
            proof {
                assert(v@ =~= seq![
                    ParametricRef { entity: sources@[first as int].handle, marker: Some(CENTER_MARKER) },
                    ParametricRef { entity: sources@[second as int].handle, marker: Some(CENTER_MARKER) },
                ]);
            }
            Some((ConstraintKind::Concentric, v))
        },
        InferredRelation::Parallel { first, second } => Some(
            (ConstraintKind::Parallel, both_wholes(sources, first, second)),
        ),
        InferredRelation::Perpendicular { first, second } => Some(
            (ConstraintKind::Perpendicular, both_wholes(sources, first, second)),
        ),
        InferredRelation::Horizontal { entity } => {
            let mut v: Vec<ParametricRef> = Vec::new();
            v.push(sources[entity].whole);
            proof {
                assert(v@ =~= seq![sources@[entity as int].whole]);
            }
            Some((ConstraintKind::Horizontal, v))
        },
        InferredRelation::Vertical { entity } => {
            let mut v: Vec<ParametricRef> = Vec::new();
            v.push(sources[entity].whole);
            proof {
                assert(v@ =~= seq![sources@[entity as int].whole]);
            }
            Some((ConstraintKind::Vertical, v))
        },
        InferredRelation::Tangent { first, second } => Some(
            (ConstraintKind::Tangent, both_wholes(sources, first, second)),
        ),
        InferredRelation::Equal { first, second } => Some(
            (ConstraintKind::Equal, both_wholes(sources, first, second)),
        ),
    }
}

/// Whether some constraint of `cs` already relates `refs` by `kind`.
fn constrained_in(cs: &Vec<ParametricConstraint>, kind: ConstraintKind, refs: &Vec<ParametricRef>) -> (r: bool)
    ensures
        r == already_constrained(cs@, kind, refs@),
{
    let mut i: usize = 0;
    while i < cs.len()
        invariant
            i <= cs@.len(),
            forall|j: int|
                0 <= j < i ==> !((#[trigger] cs@[j]).kind == kind && spec_same_refs(
                    cs@[j].refs@,
                    refs@,
                )),
        decreases cs@.len() - i,
    {
        if same_kind(cs[i].kind, kind) && same_refs(cs[i].refs.as_slice(), refs.as_slice()) {
            return true;
        }
        i = i + 1;
    }
    false
}

} // verus!
