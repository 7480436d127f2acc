//! DGN line styles: which symbol blocks a line style's component tree
//! draws.
//!
//! A linetype converted from MicroStation carries its pattern as a tree of
//! line-style components. Compound and point components list sub-components;
//! a symbol component names the anonymous block it draws. The tree is walked
//! depth first from the definition's root, each component at most once, and
//! each symbol block is kept once, at the scale of its first occurrence.

use crate::text::{eq_ignore_ascii_case, eq_ignore_ascii_case_spec};
use std::collections::{HashMap, HashSet};
use vstd::prelude::*;

verus! {

/// The kind of a line-style component.
#[derive(Clone, Copy, Debug, PartialEq, Eq, Structural)]
pub enum DgnComponentKind {
    Symbol,
    Compound,
    Stroke,
    Point,
    Internal,
}

/// One line-style component: its kind, the handles it refers to, and its
/// scale (the bit pattern of an `f64`).
#[derive(Clone, Debug)]
pub struct DgnComponent {
    pub kind: DgnComponentKind,
    pub refs: Vec<u64>,
    pub scale: u64,
}

/// A line-style definition: its name and the handle of its root component.
#[derive(Clone, Debug)]
pub struct DgnDefinition {
    pub name: String,
    pub root_component: u64,
}

/// A symbol placement: the anonymous block to draw and the scale divisor to
/// draw it at (the bit pattern of an `f64`).
#[derive(Clone, Copy, Debug, PartialEq, Eq)]
pub struct DgnSymbol {
    pub block: u64,
    pub scale: u64,
}

/// The block a symbol component draws: its first reference.
pub open spec fn spec_symbol_block(c: DgnComponent) -> Option<u64> {
    if c.kind == DgnComponentKind::Symbol && c.refs@.len() > 0 {
        Some(c.refs@[0])
    } else {
        None
    }
}

/// The components not visited yet.
pub open spec fn unseen(comps: Map<u64, DgnComponent>, seen: Set<u64>) -> nat {
    comps.dom().difference(seen).len()
}

/// Some symbol of `out` draws `block`.
pub open spec fn has_block(out: Seq<DgnSymbol>, block: u64) -> bool {
    exists|i: int| 0 <= i < out.len() && (#[trigger] out[i]).block == block
}

/// `out` after meeting symbol component `sub`: its block joins, unless it
/// is already there.
pub open spec fn with_symbol(out: Seq<DgnSymbol>, sub: DgnComponent) -> Seq<DgnSymbol> {
    match spec_symbol_block(sub) {
        Some(block) => if has_block(out, block) {
            out
        } else {
            out.push(DgnSymbol { block, scale: sub.scale })
        },
        None => out,
    }
}

/// The symbols collected and the components visited after walking from
/// component `h`, given the symbols `out` and visited components `seen` so
/// far. `budget` bounds the depth of the walk: it is the number of
/// components not visited when the walk of `h` began.
pub open spec fn walk_from(
    comps: Map<u64, DgnComponent>,
    h: u64,
    out: Seq<DgnSymbol>,
    seen: Set<u64>,
    budget: nat,
) -> (Seq<DgnSymbol>, Set<u64>)
    decreases budget, 1nat, 0nat,
{
    if seen.contains(h) {
        (out, seen)
    } else if !comps.contains_key(h) {
        (out, seen.insert(h))
    } else {
        let c = comps[h];
        if c.kind == DgnComponentKind::Compound || c.kind == DgnComponentKind::Point {
            walk_refs(comps, c.refs@, 0, out, seen.insert(h), budget)
        } else {
            (out, seen.insert(h))
        }
    }
}

/// The walk over the references of one compound or point component, from
/// reference `i` on: a symbol sub-component contributes its block, any other
/// existing sub-component is walked in turn; a reference to no component is
/// passed over.
pub open spec fn walk_refs(
    comps: Map<u64, DgnComponent>,
    refs: Seq<u64>,
    i: int,
    out: Seq<DgnSymbol>,
    seen: Set<u64>,
    budget: nat,
) -> (Seq<DgnSymbol>, Set<u64>)
    decreases budget, 0nat, refs.len() - i,
{
    if i < 0 || i >= refs.len() {
        (out, seen)
    } else if !comps.contains_key(refs[i]) {
        walk_refs(comps, refs, i + 1, out, seen, budget)
    } else if comps[refs[i]].kind == DgnComponentKind::Symbol {
        walk_refs(comps, refs, i + 1, with_symbol(out, comps[refs[i]]), seen, budget)
    } else if unseen(comps, seen) < budget {
        let walked = walk_from(comps, refs[i], out, seen, unseen(comps, seen));
        walk_refs(comps, refs, i + 1, walked.0, walked.1, budget)
    } else {
        (out, seen)
    }
}

/// The symbol placements of the line style named `name` (up to ASCII
/// case): the first definition of that name, walked from its root; empty
/// when there is none.
pub open spec fn spec_symbol_blocks(
    defs: Seq<DgnDefinition>,
    comps: Map<u64, DgnComponent>,
    name: Seq<char>,
) -> Seq<DgnSymbol> {
    if exists|i: int| 0 <= i < defs.len() && eq_ignore_ascii_case_spec(#[trigger] defs[i].name@, name) {
        let i = choose|i: int|
            0 <= i < defs.len() && eq_ignore_ascii_case_spec(#[trigger] defs[i].name@, name)
                && forall|j: int|
                0 <= j < i ==> !eq_ignore_ascii_case_spec(#[trigger] defs[j].name@, name);
        walk_from(comps, defs[i].root_component, Seq::empty(), Set::empty(), unseen(comps, Set::empty())).0
    } else {
        Seq::empty()
    }
}

/// No two symbols of `out` draw the same block.
pub open spec fn distinct_blocks(out: Seq<DgnSymbol>) -> bool {
    forall|i: int, j: int| 0 <= i < j < out.len() ==> (#[trigger] out[i]).block != (#[trigger] out[j]).block
}

proof fn lemma_with_symbol_distinct(out: Seq<DgnSymbol>, sub: DgnComponent)
    requires
        distinct_blocks(out),
    ensures
        distinct_blocks(with_symbol(out, sub)),
{
    if let Some(block) = spec_symbol_block(sub) {
        if !has_block(out, block) {
            let o = out.push(DgnSymbol { block, scale: sub.scale });
            assert forall|i: int, j: int| 0 <= i < j < o.len() implies (#[trigger] o[i]).block != (
            #[trigger] o[j]).block by {
                if j == out.len() {
                    assert(o[i] == out[i]);
                } else {
                    assert(o[i] == out[i] && o[j] == out[j]);
                }
            }
        }
    }
}

proof fn lemma_walk_from_distinct(
    comps: Map<u64, DgnComponent>,
    h: u64,
    out: Seq<DgnSymbol>,
    seen: Set<u64>,
    budget: nat,
)
    requires
        distinct_blocks(out),
    ensures
        distinct_blocks(walk_from(comps, h, out, seen, budget).0),
    decreases budget, 1nat, 0nat,
{
    if !seen.contains(h) && comps.contains_key(h) {
        let c = comps[h];
        if c.kind == DgnComponentKind::Compound || c.kind == DgnComponentKind::Point {
            lemma_walk_refs_distinct(comps, c.refs@, 0, out, seen.insert(h), budget);
        }
    }
}

proof fn lemma_walk_refs_distinct(
    comps: Map<u64, DgnComponent>,
    refs: Seq<u64>,
    i: int,
    out: Seq<DgnSymbol>,
    seen: Set<u64>,
    budget: nat,
)
    requires
        distinct_blocks(out),
    ensures
        distinct_blocks(walk_refs(comps, refs, i, out, seen, budget).0),
    decreases budget, 0nat, refs.len() - i,
{
    if 0 <= i < refs.len() {
        if !comps.contains_key(refs[i]) {
            lemma_walk_refs_distinct(comps, refs, i + 1, out, seen, budget);
        } else if comps[refs[i]].kind == DgnComponentKind::Symbol {
            lemma_with_symbol_distinct(out, comps[refs[i]]);
            lemma_walk_refs_distinct(comps, refs, i + 1, with_symbol(out, comps[refs[i]]), seen, budget);
        } else if unseen(comps, seen) < budget {
            let walked = walk_from(comps, refs[i], out, seen, unseen(comps, seen));
            lemma_walk_from_distinct(comps, refs[i], out, seen, unseen(comps, seen));
            lemma_walk_refs_distinct(comps, refs, i + 1, walked.0, walked.1, budget);
        }
    }
}

/// A line style draws each symbol block once: no two placements name the
/// same block.
pub proof fn lemma_symbol_blocks_distinct(
    defs: Seq<DgnDefinition>,
    comps: Map<u64, DgnComponent>,
    name: Seq<char>,
)
    ensures
        distinct_blocks(spec_symbol_blocks(defs, comps, name)),
{
    if exists|i: int| 0 <= i < defs.len() && eq_ignore_ascii_case_spec(#[trigger] defs[i].name@, name) {
        let i = choose|i: int|
            0 <= i < defs.len() && eq_ignore_ascii_case_spec(#[trigger] defs[i].name@, name)
                && forall|j: int|
                0 <= j < i ==> !eq_ignore_ascii_case_spec(#[trigger] defs[j].name@, name);
        lemma_walk_from_distinct(
            comps,
            defs[i].root_component,
            Seq::empty(),
            Set::empty(),
            unseen(comps, Set::empty()),
        );
    }
}

/// A component whose references the walk follows.
pub open spec fn walked_into(c: DgnComponent) -> bool {
    c.kind == DgnComponentKind::Compound || c.kind == DgnComponentKind::Point
}

/// `path` leads from `root` through the component tree: it starts at
/// `root`, and each later entry is a reference of the compound or point
/// component before it.
pub open spec fn tree_path(comps: Map<u64, DgnComponent>, root: u64, path: Seq<u64>) -> bool {
    &&& path.len() > 0
    &&& path[0] == root
    &&& forall|i: int|
        0 <= i < path.len() - 1 ==> comps.contains_key(#[trigger] path[i]) && walked_into(
            comps[path[i]],
        ) && comps[path[i]].refs@.contains(path[i + 1])
}

/// Reference `r` is dealt with: it names no component, names a symbol
/// component whose block (if any) is collected, or names a component that
/// was visited.
pub open spec fn ref_done(comps: Map<u64, DgnComponent>, out: Seq<DgnSymbol>, seen: Set<u64>, r: u64) -> bool {
    comps.contains_key(r) ==> if comps[r].kind == DgnComponentKind::Symbol {
        spec_symbol_block(comps[r]) matches Some(block) ==> has_block(out, block)
    } else {
        seen.contains(r)
    }
}

/// Every compound or point component visited beyond `base` has all its
/// references dealt with.
pub open spec fn closed_over(
    comps: Map<u64, DgnComponent>,
    out: Seq<DgnSymbol>,
    seen: Set<u64>,
    base: Set<u64>,
) -> bool {
    forall|p: u64, k: int|
        #![trigger seen.contains(p), comps[p].refs@[k]]
        seen.contains(p) && !base.contains(p) && comps.contains_key(p) && walked_into(comps[p]) && 0
            <= k < comps[p].refs@.len() ==> ref_done(comps, out, seen, comps[p].refs@[k])
}

/// Every block of `out` is still in `out2`.
pub open spec fn keeps_blocks(out: Seq<DgnSymbol>, out2: Seq<DgnSymbol>) -> bool {
    forall|block: u64| #[trigger] has_block(out, block) ==> has_block(out2, block)
}

proof fn lemma_ref_done_grows(
    comps: Map<u64, DgnComponent>,
    out: Seq<DgnSymbol>,
    seen: Set<u64>,
    out2: Seq<DgnSymbol>,
    seen2: Set<u64>,
    r: u64,
)
    requires
        ref_done(comps, out, seen, r),
        keeps_blocks(out, out2),
        seen.subset_of(seen2),
    ensures
        ref_done(comps, out2, seen2, r),
{
    if comps.contains_key(r) && comps[r].kind == DgnComponentKind::Symbol {
        if let Some(block) = spec_symbol_block(comps[r]) {
            assert(has_block(out, block) ==> has_block(out2, block));
        }
    }
}

proof fn lemma_closed_grows(
    comps: Map<u64, DgnComponent>,
    out: Seq<DgnSymbol>,
    seen: Set<u64>,
    base: Set<u64>,
    out2: Seq<DgnSymbol>,
    seen2: Set<u64>,
)
    requires
        closed_over(comps, out, seen, base),
        keeps_blocks(out, out2),
        seen.subset_of(seen2),
    ensures
        forall|p: u64, k: int|
            #![trigger seen.contains(p), comps[p].refs@[k]]
            seen.contains(p) && !base.contains(p) && comps.contains_key(p) && walked_into(comps[p])
                && 0 <= k < comps[p].refs@.len() ==> ref_done(comps, out2, seen2, comps[p].refs@[k]),
{
    assert forall|p: u64, k: int|
        #![trigger seen.contains(p), comps[p].refs@[k]]
        seen.contains(p) && !base.contains(p) && comps.contains_key(p) && walked_into(comps[p]) && 0
            <= k < comps[p].refs@.len() implies ref_done(comps, out2, seen2, comps[p].refs@[k]) by {
        lemma_ref_done_grows(comps, out, seen, out2, seen2, comps[p].refs@[k]);
    }
}

proof fn lemma_with_symbol_keeps(out: Seq<DgnSymbol>, sub: DgnComponent)
    ensures
        keeps_blocks(out, with_symbol(out, sub)),
        spec_symbol_block(sub) matches Some(block) ==> has_block(with_symbol(out, sub), block),
{
    if let Some(block) = spec_symbol_block(sub) {
        if !has_block(out, block) {
            let o = out.push(DgnSymbol { block, scale: sub.scale });
            assert(o[out.len() as int].block == block);
            assert forall|b: u64| #[trigger] has_block(out, b) implies has_block(o, b) by {
                let i = choose|i: int| 0 <= i < out.len() && (#[trigger] out[i]).block == b;
                assert(o[i] == out[i]);
            }
        }
    }
}

proof fn lemma_walk_from_closed(
    comps: Map<u64, DgnComponent>,
    h: u64,
    out: Seq<DgnSymbol>,
    seen: Set<u64>,
    budget: nat,
)
    requires
        comps.dom().finite(),
        budget == unseen(comps, seen),
    ensures
        ({
            let (out2, seen2) = walk_from(comps, h, out, seen, budget);
            &&& seen.subset_of(seen2)
            &&& seen2.contains(h)
            &&& keeps_blocks(out, out2)
            &&& closed_over(comps, out2, seen2, seen)
        }),
    decreases budget, 1nat, 0nat,
{
    if seen.contains(h) {
    } else if !comps.contains_key(h) {
    } else {
        let c = comps[h];
        if walked_into(c) {
            lemma_unseen_visit(comps, seen, h);
            let seen1 = seen.insert(h);
            lemma_walk_refs_closed(comps, c.refs@, 0, out, seen1, budget);
            let (out2, seen2) = walk_refs(comps, c.refs@, 0, out, seen1, budget);
            assert forall|p: u64, k: int|
                #![trigger seen2.contains(p), comps[p].refs@[k]]
                seen2.contains(p) && !seen.contains(p) && comps.contains_key(p) && walked_into(
                    comps[p],
                ) && 0 <= k < comps[p].refs@.len() implies ref_done(
                comps,
                out2,
                seen2,
                comps[p].refs@[k],
            ) by {
                if p == h {
                    assert(c.refs@[k] == comps[p].refs@[k]);
                } else {
                    assert(!seen1.contains(p));
                }
            }
        }
    }
}

proof fn lemma_walk_refs_closed(
    comps: Map<u64, DgnComponent>,
    refs: Seq<u64>,
    i: int,
    out: Seq<DgnSymbol>,
    seen: Set<u64>,
    budget: nat,
)
    requires
        comps.dom().finite(),
        unseen(comps, seen) < budget,
        0 <= i,
    ensures
        ({
            let (out2, seen2) = walk_refs(comps, refs, i, out, seen, budget);
            &&& seen.subset_of(seen2)
            &&& keeps_blocks(out, out2)
            &&& closed_over(comps, out2, seen2, seen)
            &&& forall|m: int| i <= m < refs.len() ==> ref_done(comps, out2, seen2, #[trigger] refs[m])
        }),
    decreases budget, 0nat, refs.len() - i,
{
    if i >= refs.len() {
    } else if !comps.contains_key(refs[i]) {
        lemma_walk_refs_closed(comps, refs, i + 1, out, seen, budget);
        let (out2, seen2) = walk_refs(comps, refs, i + 1, out, seen, budget);
        assert(walk_refs(comps, refs, i, out, seen, budget) == (out2, seen2));
        assert forall|m: int| i <= m < refs.len() implies ref_done(comps, out2, seen2, #[trigger] refs[m]) by {
            if m > i {
            }
        }
    } else if comps[refs[i]].kind == DgnComponentKind::Symbol {
        let o1 = with_symbol(out, comps[refs[i]]);
        lemma_with_symbol_keeps(out, comps[refs[i]]);
        lemma_walk_refs_closed(comps, refs, i + 1, o1, seen, budget);
        let (out2, seen2) = walk_refs(comps, refs, i + 1, o1, seen, budget);
        assert(walk_refs(comps, refs, i, out, seen, budget) == (out2, seen2));
        assert forall|b: u64| #[trigger] has_block(out, b) implies has_block(out2, b) by {
            assert(has_block(o1, b));
        }
        assert forall|m: int| i <= m < refs.len() implies ref_done(comps, out2, seen2, #[trigger] refs[m]) by {
            if m == i {
                if let Some(block) = spec_symbol_block(comps[refs[i]]) {
                    assert(has_block(o1, block));
                }
            }
        }
    } else {
        let walked = walk_from(comps, refs[i], out, seen, unseen(comps, seen));
        lemma_walk_from_closed(comps, refs[i], out, seen, unseen(comps, seen));
        lemma_unseen_shrinks(comps, seen, walked.1);
        lemma_walk_refs_closed(comps, refs, i + 1, walked.0, walked.1, budget);
        let (out2, seen2) = walk_refs(comps, refs, i + 1, walked.0, walked.1, budget);
        assert(walk_refs(comps, refs, i, out, seen, budget) == (out2, seen2));
        lemma_closed_grows(comps, walked.0, walked.1, seen, out2, seen2);
        assert forall|b: u64| #[trigger] has_block(out, b) implies has_block(out2, b) by {
            assert(has_block(walked.0, b));
        }
        assert forall|p: u64, k: int|
            #![trigger seen2.contains(p), comps[p].refs@[k]]
            seen2.contains(p) && !seen.contains(p) && comps.contains_key(p) && walked_into(comps[p])
                && 0 <= k < comps[p].refs@.len() implies ref_done(comps, out2, seen2, comps[p].refs@[k]) by {
            if walked.1.contains(p) {
            } else {
            }
        }
        assert forall|m: int| i <= m < refs.len() implies ref_done(comps, out2, seen2, #[trigger] refs[m]) by {
            if m == i {
                assert(walked.1.contains(refs[i]));
            }
        }
    }
}

proof fn lemma_path_visited(
    comps: Map<u64, DgnComponent>,
    root: u64,
    out: Seq<DgnSymbol>,
    seen: Set<u64>,
    path: Seq<u64>,
    i: int,
)
    requires
        seen.contains(root),
        closed_over(comps, out, seen, Set::empty()),
        tree_path(comps, root, path),
        0 <= i < path.len() - 1,
    ensures
        seen.contains(path[i]),
    decreases i,
{
    if i > 0 {
        lemma_path_visited(comps, root, out, seen, path, i - 1);
        let q = path[i - 1];
        assert(comps.contains_key(path[i - 1]) && walked_into(comps[q]) && comps[q].refs@.contains(
            path[i],
        ));
        let k = choose|k: int| 0 <= k < comps[q].refs@.len() && comps[q].refs@[k] == path[i];
        assert(ref_done(comps, out, seen, comps[q].refs@[k]));
        assert(comps.contains_key(path[i]) && walked_into(comps[path[i]]));
    }
}

/// Every symbol a line style's component tree reaches is drawn: when the
/// last component `p` of a path from the root of the first definition named
/// `name` (up to ASCII case) through compound and point components is
/// itself a compound or point component and lists a symbol component with a
/// block, that block is among the symbol placements.
pub proof fn lemma_reached_symbols_drawn(
    defs: Seq<DgnDefinition>,
    comps: Map<u64, DgnComponent>,
    name: Seq<char>,
    d: int,
    path: Seq<u64>,
    p: u64,
    k: int,
)
    requires
        comps.dom().finite(),
        0 <= d < defs.len(),
        eq_ignore_ascii_case_spec(defs[d].name@, name),
        forall|j: int| 0 <= j < d ==> !eq_ignore_ascii_case_spec(#[trigger] defs[j].name@, name),
        tree_path(comps, defs[d].root_component, path),
        p == path.last(),
        comps.contains_key(p),
        walked_into(comps[p]),
        0 <= k < comps[p].refs@.len(),
        comps.contains_key(comps[p].refs@[k]),
        spec_symbol_block(comps[comps[p].refs@[k]]) is Some,
    ensures
        has_block(
            spec_symbol_blocks(defs, comps, name),
            spec_symbol_block(comps[comps[p].refs@[k]])->0,
        ),
{
    let root = defs[d].root_component;
    let e = Set::<u64>::empty();
    assert(exists|i: int| 0 <= i < defs.len() && eq_ignore_ascii_case_spec(#[trigger] defs[i].name@, name));
    let c = choose|i: int|
        0 <= i < defs.len() && eq_ignore_ascii_case_spec(#[trigger] defs[i].name@, name) && forall|
            j: int,
        | 0 <= j < i ==> !eq_ignore_ascii_case_spec(#[trigger] defs[j].name@, name);
    if c < d {
    } else if c > d {
        assert(!eq_ignore_ascii_case_spec(defs[d].name@, name));
    }
    lemma_walk_from_closed(comps, root, Seq::empty(), e, unseen(comps, e));
    let (out, seen) = walk_from(comps, root, Seq::empty(), e, unseen(comps, e));
    assert(spec_symbol_blocks(defs, comps, name) == out);
    if path.len() > 1 {
        let l = path.len() - 1;
        lemma_path_visited(comps, root, out, seen, path, l - 1);
        let q = path[l - 1];
        assert(comps.contains_key(path[l - 1]) && walked_into(comps[q]) && comps[q].refs@.contains(
            path[l],
        ));
        let kk = choose|kk: int| 0 <= kk < comps[q].refs@.len() && comps[q].refs@[kk] == path[l];
        assert(ref_done(comps, out, seen, comps[q].refs@[kk]));
    }
    assert(seen.contains(p));
    assert(ref_done(comps, out, seen, comps[p].refs@[k]));
}

proof fn lemma_unseen_shrinks(comps: Map<u64, DgnComponent>, seen: Set<u64>, more: Set<u64>)
    requires
        comps.dom().finite(),
        seen.subset_of(more),
    ensures
        unseen(comps, more) <= unseen(comps, seen),
{
    vstd::set_lib::lemma_len_subset(
        comps.dom().difference(more),
        comps.dom().difference(seen),
    );
}

proof fn lemma_unseen_visit(comps: Map<u64, DgnComponent>, seen: Set<u64>, h: u64)
    requires
        comps.dom().finite(),
        comps.contains_key(h),
        !seen.contains(h),
    ensures
        unseen(comps, seen.insert(h)) + 1 == unseen(comps, seen),
{
    assert(comps.dom().difference(seen.insert(h)) =~= comps.dom().difference(seen).remove(h));
}

fn symbol_block(c: &DgnComponent) -> (r: Option<u64>)
    ensures
        r == spec_symbol_block(*c),
{
    if c.kind == DgnComponentKind::Symbol && c.refs.len() > 0 {
        Some(c.refs[0])
    } else {
        None
    }
}

fn holds_block(out: &Vec<DgnSymbol>, block: u64) -> (r: bool)
    ensures
        r == has_block(out@, block),
{
    let mut i: usize = 0;
    while i < out.len()
        invariant
            i <= out@.len(),
            forall|j: int| 0 <= j < i ==> (#[trigger] out@[j]).block != block,
        decreases out@.len() - i,
    {
        if out[i].block == block {
            assert(out@[i as int].block == block);
            return true;
        }
        i = i + 1;
    }
    false
}

fn walk(
    comps: &HashMap<u64, DgnComponent>,
    h: u64,
    out: &mut Vec<DgnSymbol>,
    seen: &mut HashSet<u64>,
    Ghost(budget): Ghost<nat>,
)
    requires
        budget == unseen(comps@, old(seen)@),
    ensures
        (final(out)@, final(seen)@) == walk_from(comps@, h, old(out)@, old(seen)@, budget),
        old(seen)@.subset_of(final(seen)@),
    decreases budget,
{
    proof {
        broadcast use vstd::std_specs::hash::axiom_hashmap_view_finite_dom;
    }
    if !seen.insert(h) {
        return;
    }
    let c = match comps.get(&h) {
        None => {
            return;
        },
        Some(c) => c,
    };
    if !(c.kind == DgnComponentKind::Compound || c.kind == DgnComponentKind::Point) {
        return;
    }
    proof {
        lemma_unseen_visit(comps@, old(seen)@, h);
    }
    let ghost seen1 = seen@;
    let ghost refs = c.refs@;
    let mut i: usize = 0;
    while i < c.refs.len()
        invariant
            comps@.dom().finite(),
            refs == c.refs@,
            i <= refs.len(),
            seen1 == old(seen)@.insert(h),
            seen1.subset_of(seen@),
            unseen(comps@, seen1) < budget,
            walk_refs(comps@, refs, i as int, out@, seen@, budget) == walk_refs(
                comps@,
                refs,
                0,
                old(out)@,
                seen1,
                budget,
            ),
        decreases refs.len() - i,
    {
        let r = c.refs[i];
        match comps.get(&r) {
            None => {},
            Some(sub) => {
                if sub.kind == DgnComponentKind::Symbol {
                    match symbol_block(sub) {
                        Some(block) => {
                            if !holds_block(out, block) {
                                out.push(DgnSymbol { block, scale: sub.scale });
                            }
                        },
                        None => {},
                    }
                } else {
                    proof {
                        lemma_unseen_shrinks(comps@, seen1, seen@);
                    }
                    let ghost before = seen@;
                    walk(comps, r, out, seen, Ghost(unseen(comps@, before)));
                    assert(seen1.subset_of(seen@));
                }
            },
        }
        i = i + 1;
    }
}

/// The symbol placements of the line style named `lt_name` (up to ASCII
/// case) in tree order, each block once; empty when no definition has that
/// name.
pub fn symbol_blocks(
    definitions: &[DgnDefinition],
    components: &HashMap<u64, DgnComponent>,
    lt_name: &str,
) -> (r: Vec<DgnSymbol>)
    ensures
        r@ == spec_symbol_blocks(definitions@, components@, lt_name@),
{
    let mut k: usize = 0;
    while k < definitions.len()
        invariant
            k <= definitions@.len(),
            forall|j: int|
                0 <= j < k ==> !eq_ignore_ascii_case_spec(#[trigger] definitions@[j].name@, lt_name@),
        decreases definitions@.len() - k,
    {
        if eq_ignore_ascii_case(definitions[k].name.as_str(), lt_name) {
            let mut out: Vec<DgnSymbol> = Vec::new();
            let mut seen: HashSet<u64> = HashSet::new();
            walk(
                components,
                definitions[k].root_component,
                &mut out,
                &mut seen,
                Ghost(unseen(components@, Set::empty())),
            );
            proof {
                let defs = definitions@;
                let c = choose|i: int|
                    0 <= i < defs.len() && eq_ignore_ascii_case_spec(#[trigger] defs[i].name@, lt_name@)
                        && forall|j: int|
                        0 <= j < i ==> !eq_ignore_ascii_case_spec(#[trigger] defs[j].name@, lt_name@);
                assert(eq_ignore_ascii_case_spec(defs[k as int].name@, lt_name@));
                if c < k {
                } else if c > k {
                    assert(!eq_ignore_ascii_case_spec(defs[k as int].name@, lt_name@));
                }
            }
            return out;
        }
        k = k + 1;
    }
    Vec::new()
}

} // verus!
