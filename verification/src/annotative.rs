//! Annotation scaling: whether a style or an entity is annotative, and the
//! per-object annotation contexts kept in the drawing's object store.
//!
//! An annotative entity carries, under its extension dictionary, the chain
//! `AcDbContextDataManager` → `ACDB_ANNOTATIONSCALES` → one representation
//! (context data) per annotation scale. Dictionary lookups ignore ASCII case.

use crate::text::{blank, eq_ignore_ascii_case, eq_ignore_ascii_case_spec, is_blank};
use std::collections::HashMap;
use vstd::prelude::*;
use vstd::std_specs::hash::spec_hash_map_iter;
use vstd::std_specs::iter::IteratorSpec;

verus! {

/// A text or dimension style, as far as annotation scaling reads it.
#[derive(Clone, Debug)]
pub struct StyleEntry {
    pub name: String,
    pub annotative: bool,
}

/// A style named `style_name` is the one `name` refers to: the names are
/// equal up to ASCII case, or `name` is blank and the style is `Standard`.
pub open spec fn spec_name_matches(style_name: Seq<char>, name: Seq<char>) -> bool {
    eq_ignore_ascii_case_spec(style_name, name) || (is_blank(name) && eq_ignore_ascii_case_spec(
        style_name,
        "Standard"@,
    ))
}

/// Does a style name resolve to `name` (or to `Standard` when `name` is blank)?
pub fn name_matches(style_name: &str, name: &str) -> (r: bool)
    ensures
        r == spec_name_matches(style_name@, name@),
{
    eq_ignore_ascii_case(style_name, name) || (blank(name) && eq_ignore_ascii_case(
        style_name,
        "Standard",
    ))
}

/// The first style `name` refers to is annotative.
pub open spec fn spec_style_annotative(styles: Seq<StyleEntry>, name: Seq<char>) -> bool {
    exists|i: int|
        0 <= i < styles.len() && spec_name_matches(#[trigger] styles[i].name@, name)
            && styles[i].annotative && forall|j: int|
            0 <= j < i ==> !spec_name_matches(#[trigger] styles[j].name@, name)
}

/// Whether the first style in `styles` that `name` refers to is annotative;
/// false when none is.
pub fn style_annotative(styles: &[StyleEntry], name: &str) -> (r: bool)
    ensures
        r == spec_style_annotative(styles@, name@),
{
    let mut i: usize = 0;
    while i < styles.len()
        invariant
            i <= styles@.len(),
            forall|j: int| 0 <= j < i ==> !spec_name_matches(#[trigger] styles@[j].name@, name@),
        decreases styles@.len() - i,
    {
        if name_matches(styles[i].name.as_str(), name) {
            let found = styles[i].annotative;
            proof {
                if !found {
                    assert forall|k: int|
                        0 <= k < styles@.len() && spec_name_matches(
                            #[trigger] styles@[k].name@,
                            name@,
                        ) && styles@[k].annotative implies exists|j: int|
                        0 <= j < k && spec_name_matches(#[trigger] styles@[j].name@, name@) by {
                        assert(k != i);
                        if k < i {
                            assert(!spec_name_matches(styles@[k].name@, name@));
                        } else {
                            assert(spec_name_matches(styles@[i as int].name@, name@));
                        }
                    }
                }
            }
            return found;
        }
        i = i + 1;
    }
    false
}

/// Some name of `names` equals `scale` up to ASCII case.
pub open spec fn names_scale(names: Seq<String>, scale: Seq<char>) -> bool {
    exists|i: int| 0 <= i < names.len() && eq_ignore_ascii_case_spec(#[trigger] names[i]@, scale)
}

fn find_scale(names: &[String], scale: &str) -> (r: bool)
    ensures
        r == names_scale(names@, scale@),
{
    let mut i: usize = 0;
    while i < names.len()
        invariant
            i <= names@.len(),
            forall|j: int| 0 <= j < i ==> !eq_ignore_ascii_case_spec(#[trigger] names@[j]@, scale@),
        decreases names@.len() - i,
    {
        if eq_ignore_ascii_case(names[i].as_str(), scale) {
            return true;
        }
        i = i + 1;
    }
    false
}

/// `o` is a representation for an existing scale named `current`.
pub open spec fn provides_scale(objs: Map<u64, AnnotationObject>, o: AnnotationObject, current: Seq<char>) -> bool {
    match o {
        AnnotationObject::ContextData { scale, .. } => objs.contains_key(scale) && match objs[scale] {
            AnnotationObject::Scale { name } => eq_ignore_ascii_case_spec(name@, current),
            _ => false,
        },
        _ => false,
    }
}

/// Some representation in the object store is for the scale named `current`.
pub open spec fn spec_current_scale_provided(objs: Map<u64, AnnotationObject>, current: Seq<char>) -> bool {
    exists|h: u64| objs.contains_key(h) && provides_scale(objs, #[trigger] objs[h], current)
}

/// Whether some annotative representation in the drawing's object store
/// targets the current annotation scale `current_scale`.
pub fn current_scale_provided(objects: &HashMap<u64, AnnotationObject>, current_scale: &str) -> (r: bool)
    ensures
        r == spec_current_scale_provided(objects@, current_scale@),
{
    broadcast use vstd::std_specs::hash::axiom_spec_hash_map_iter;

    let ghost all = spec_hash_map_iter(objects).remaining();
    let ghost mut covered: int = 0;
    for pair in it: objects.iter()
        invariant
            all == spec_hash_map_iter(objects).remaining(),
            it.seq() == all,
            covered == it.index(),
            forall|j: int|
                0 <= j < covered ==> !provides_scale(objects@, *(#[trigger] all[j]).1, current_scale@),
    {
        let (h, o) = pair;
        let provided = match o {
            AnnotationObject::ContextData { scale, .. } => match objects.get(scale) {
                Some(AnnotationObject::Scale { name }) => eq_ignore_ascii_case(name.as_str(), current_scale),
                _ => false,
            },
            _ => false,
        };
        if provided {
            proof {
                assert(objects@.contains_key(*h) && objects@[*h] == *o);
                assert(provides_scale(objects@, objects@[*h], current_scale@));
            }
            return true;
        }
        proof {
            covered = covered + 1;
        }
    }
    proof {
        assert forall|h: u64| objects@.contains_key(h) implies !provides_scale(
            objects@,
            #[trigger] objects@[h],
            current_scale@,
        ) by {
            assert(all.contains((&h, &objects@[h])));
            let j = choose|j: int| 0 <= j < all.len() && all[j] == (&h, &objects@[h]);
            assert(!provides_scale(objects@, *all[j].1, current_scale@));
        }
    }
    false
}

/// Whether an object's representation is off the current annotation scale
/// and so hidden, given whether it has an extension dictionary, the names of
/// the scales it carries a representation for, the current scale, and
/// whether any representation in the drawing targets the current scale.
/// An object with no per-scale representation, or with one for the current
/// scale, is never off-scale. When no representation anywhere targets the
/// current scale, the object falls back to its `1:1` representation: it is
/// off-scale only if it has none.
pub fn annotative_offscale(
    has_extension_dictionary: bool,
    memberships: &[String],
    current_scale: &str,
    scale_provided: bool,
) -> (r: bool)
    ensures
        r == (has_extension_dictionary && memberships@.len() > 0 && !names_scale(
            memberships@,
            current_scale@,
        ) && (scale_provided || !names_scale(memberships@, "1:1"@))),
{
    if !has_extension_dictionary {
        return false;
    }
    if memberships.len() == 0 {
        return false;
    }
    if find_scale(memberships, current_scale) {
        return false;
    }
    if scale_provided {
        return true;
    }
    !find_scale(memberships, "1:1")
}

/// An object of the drawing's object store, as far as annotation contexts
/// go.
#[derive(Clone, Debug)]
pub enum AnnotationObject {
    /// A dictionary: its (key, handle) entries in order.
    Dictionary { entries: Vec<(String, u64)> },
    /// One per-scale representation of an object: the scale it is for, and
    /// whether it is the native (default) one.
    ContextData { scale: u64, is_default: bool },
    /// An annotation scale.
    Scale { name: String },
    /// A multi-leader style, with its annotative flag.
    MultiLeaderStyle { annotative: bool },
    /// A table style, with its annotative flag.
    TableStyle { annotative: bool },
    /// Any other object.
    Other,
}

/// The handle of the first entry whose key equals `key` up to ASCII case
/// (what a dictionary lookup gives).
pub open spec fn dict_get(entries: Seq<(String, u64)>, key: Seq<char>) -> Option<u64> {
    if exists|i: int| 0 <= i < entries.len() && eq_ignore_ascii_case_spec(#[trigger] entries[i].0@, key) {
        let i = choose|i: int|
            0 <= i < entries.len() && eq_ignore_ascii_case_spec(#[trigger] entries[i].0@, key)
                && forall|j: int|
                0 <= j < i ==> !eq_ignore_ascii_case_spec(#[trigger] entries[j].0@, key);
        Some(entries[i].1)
    } else {
        None
    }
}

/// The entries of the dictionary stored under `h`, if it is one.
pub open spec fn spec_as_dict(objs: Map<u64, AnnotationObject>, h: u64) -> Option<Seq<(String, u64)>> {
    if objs.contains_key(h) {
        match objs[h] {
            AnnotationObject::Dictionary { entries } => Some(entries@),
            _ => None,
        }
    } else {
        None
    }
}

/// The entry `key` of the dictionary stored under `h`.
pub open spec fn dict_entry(objs: Map<u64, AnnotationObject>, h: u64, key: Seq<char>) -> Option<u64> {
    match spec_as_dict(objs, h) {
        Some(entries) => dict_get(entries, key),
        None => None,
    }
}

/// The handle of an object's `ACDB_ANNOTATIONSCALES` collection: its
/// extension dictionary, then `AcDbContextDataManager`, then the collection.
pub open spec fn spec_annotation_scales_dict(
    objs: Map<u64, AnnotationObject>,
    xdictionary: Option<u64>,
) -> Option<u64> {
    match xdictionary {
        Some(xd) => match dict_entry(objs, xd, "AcDbContextDataManager"@) {
            Some(mgr) => dict_entry(objs, mgr, "ACDB_ANNOTATIONSCALES"@),
            None => None,
        },
        None => None,
    }
}

/// The scale a collection entry's representation is for, with the scale's
/// name, when the entry is a representation of an existing scale.
pub open spec fn entry_scale(objs: Map<u64, AnnotationObject>, leaf: u64) -> Option<(Seq<char>, u64)> {
    if objs.contains_key(leaf) {
        match objs[leaf] {
            AnnotationObject::ContextData { scale, .. } => if objs.contains_key(scale) {
                match objs[scale] {
                    AnnotationObject::Scale { name } => Some((name@, scale)),
                    _ => None,
                }
            } else {
                None
            },
            _ => None,
        }
    } else {
        None
    }
}

/// The (scale name, scale handle) of every representation in `entries`
/// whose scale exists, in order.
pub open spec fn memberships_of(objs: Map<u64, AnnotationObject>, entries: Seq<(String, u64)>) -> Seq<
    (Seq<char>, u64),
>
    decreases entries.len(),
{
    if entries.len() == 0 {
        Seq::empty()
    } else {
        let rest = memberships_of(objs, entries.drop_last());
        match entry_scale(objs, entries.last().1) {
            Some(m) => rest.push(m),
            None => rest,
        }
    }
}

/// The annotation scales an object carries a representation for, as (scale
/// name, scale handle) pairs; empty without a context chain.
pub open spec fn spec_object_scale_memberships(
    objs: Map<u64, AnnotationObject>,
    xdictionary: Option<u64>,
) -> Seq<(Seq<char>, u64)> {
    match spec_annotation_scales_dict(objs, xdictionary) {
        Some(coll) => match spec_as_dict(objs, coll) {
            Some(entries) => memberships_of(objs, entries),
            None => Seq::empty(),
        },
        None => Seq::empty(),
    }
}

/// An object carries a per-object annotation context with at least one
/// representation: its `ACDB_ANNOTATIONSCALES` collection is a non-empty
/// dictionary.
pub open spec fn spec_has_context_manager(objs: Map<u64, AnnotationObject>, xdictionary: Option<u64>) -> bool {
    match spec_annotation_scales_dict(objs, xdictionary) {
        Some(coll) => match spec_as_dict(objs, coll) {
            Some(entries) => entries.len() > 0,
            None => false,
        },
        None => false,
    }
}

/// Entry `i` is a representation (a context-data object).
pub open spec fn is_leaf(objs: Map<u64, AnnotationObject>, entries: Seq<(String, u64)>, i: int) -> bool {
    objs.contains_key(entries[i].1) && objs[entries[i].1] is ContextData
}

/// Entry `i` is a representation for the scale named `current`.
pub open spec fn is_current_leaf(
    objs: Map<u64, AnnotationObject>,
    entries: Seq<(String, u64)>,
    i: int,
    current: Seq<char>,
) -> bool {
    is_leaf(objs, entries, i) && match entry_scale(objs, entries[i].1) {
        Some(m) => eq_ignore_ascii_case_spec(m.0, current),
        None => false,
    }
}

/// Entry `i` is a representation marked as the native one.
pub open spec fn is_default_leaf(objs: Map<u64, AnnotationObject>, entries: Seq<(String, u64)>, i: int) -> bool {
    is_leaf(objs, entries, i) && objs[entries[i].1]->ContextData_is_default
}

/// The first representation among the first `k` entries for the scale
/// named `current`.
pub open spec fn first_current_leaf(
    objs: Map<u64, AnnotationObject>,
    entries: Seq<(String, u64)>,
    current: Seq<char>,
    k: int,
) -> Option<u64>
    decreases k,
{
    if k <= 0 {
        None
    } else {
        match first_current_leaf(objs, entries, current, k - 1) {
            Some(h) => Some(h),
            None => if is_current_leaf(objs, entries, k - 1, current) {
                Some(entries[k - 1].1)
            } else {
                None
            },
        }
    }
}

/// The last representation among the first `k` entries marked as native.
pub open spec fn last_default_leaf(objs: Map<u64, AnnotationObject>, entries: Seq<(String, u64)>, k: int) -> Option<
    u64,
>
    decreases k,
{
    if k <= 0 {
        None
    } else if is_default_leaf(objs, entries, k - 1) {
        Some(entries[k - 1].1)
    } else {
        last_default_leaf(objs, entries, k - 1)
    }
}

/// The first representation among the first `k` entries.
pub open spec fn first_leaf(objs: Map<u64, AnnotationObject>, entries: Seq<(String, u64)>, k: int) -> Option<u64>
    decreases k,
{
    if k <= 0 {
        None
    } else {
        match first_leaf(objs, entries, k - 1) {
            Some(h) => Some(h),
            None => if is_leaf(objs, entries, k - 1) {
                Some(entries[k - 1].1)
            } else {
                None
            },
        }
    }
}

/// The representation used at the current scale among `entries`: the first
/// one for the scale named `current`; failing that the last one marked as
/// native; failing that the first representation at all.
pub open spec fn active_leaf(
    objs: Map<u64, AnnotationObject>,
    entries: Seq<(String, u64)>,
    current: Seq<char>,
) -> Option<u64> {
    let n = entries.len() as int;
    match first_current_leaf(objs, entries, current, n) {
        Some(h) => Some(h),
        None => match last_default_leaf(objs, entries, n) {
            Some(h) => Some(h),
            None => first_leaf(objs, entries, n),
        },
    }
}

/// The representation of an object used at the current annotation scale
/// `current`, by handle; `None` without a context chain or representation.
pub open spec fn spec_active_object_context(
    objs: Map<u64, AnnotationObject>,
    xdictionary: Option<u64>,
    current: Seq<char>,
) -> Option<u64> {
    match spec_annotation_scales_dict(objs, xdictionary) {
        Some(coll) => match spec_as_dict(objs, coll) {
            Some(entries) => active_leaf(objs, entries, current),
            None => None,
        },
        None => None,
    }
}

/// The entries of the dictionary stored under `h`, if it is one.
pub fn as_dict(objects: &HashMap<u64, AnnotationObject>, h: u64) -> (r: Option<&Vec<(String, u64)>>)
    ensures
        match spec_as_dict(objects@, h) {
            Some(entries) => r is Some && r->0@ == entries,
            None => r is None,
        },
{
    match objects.get(&h) {
        Some(AnnotationObject::Dictionary { entries }) => Some(entries),
        _ => None,
    }
}

/// The handle of the first entry whose key equals `key` up to ASCII case.
pub fn dictionary_get(entries: &Vec<(String, u64)>, key: &str) -> (r: Option<u64>)
    ensures
        r == dict_get(entries@, key@),
{
    let mut i: usize = 0;
    while i < entries.len()
        invariant
            i <= entries@.len(),
            forall|j: int| 0 <= j < i ==> !eq_ignore_ascii_case_spec(#[trigger] entries@[j].0@, key@),
        decreases entries@.len() - i,
    {
        if eq_ignore_ascii_case(entries[i].0.as_str(), key) {
            proof {
                let es = entries@;
                let c = choose|c: int|
                    0 <= c < es.len() && eq_ignore_ascii_case_spec(#[trigger] es[c].0@, key@)
                        && forall|j: int| 0 <= j < c ==> !eq_ignore_ascii_case_spec(#[trigger] es[j].0@, key@);
                assert(eq_ignore_ascii_case_spec(es[i as int].0@, key@));
                if c < i {
                } else if c > i {
                    assert(!eq_ignore_ascii_case_spec(es[i as int].0@, key@));
                }
            }
            return Some(entries[i].1);
        }
        i = i + 1;
    }
    None
}

fn entry_of(objects: &HashMap<u64, AnnotationObject>, h: u64, key: &str) -> (r: Option<u64>)
    ensures
        r == dict_entry(objects@, h, key@),
{
    match as_dict(objects, h) {
        Some(entries) => dictionary_get(entries, key),
        None => None,
    }
}

/// The handle of an object's `ACDB_ANNOTATIONSCALES` collection, reached
/// from its extension dictionary through `AcDbContextDataManager`.
pub fn annotation_scales_dict(objects: &HashMap<u64, AnnotationObject>, xdictionary: Option<u64>) -> (r:
    Option<u64>)
    ensures
        r == spec_annotation_scales_dict(objects@, xdictionary),
{
    let xd = match xdictionary {
        Some(xd) => xd,
        None => {
            return None;
        },
    };
    let mgr = match entry_of(objects, xd, "AcDbContextDataManager") {
        Some(mgr) => mgr,
        None => {
            return None;
        },
    };
    entry_of(objects, mgr, "ACDB_ANNOTATIONSCALES")
}

fn scale_of_entry(objects: &HashMap<u64, AnnotationObject>, leaf: u64) -> (r: Option<(String, u64)>)
    ensures
        match r {
            Some(p) => entry_scale(objects@, leaf) == Some((p.0@, p.1)),
            None => entry_scale(objects@, leaf) is None,
        },
{
    match objects.get(&leaf) {
        Some(AnnotationObject::ContextData { scale, .. }) => match objects.get(scale) {
            Some(AnnotationObject::Scale { name }) => Some((name.clone(), *scale)),
            _ => None,
        },
        _ => None,
    }
}

/// The annotation scales an object carries a representation for, as (scale
/// name, scale handle) pairs, one per representation whose scale exists, in
/// collection order; empty without a context chain.
pub fn object_scale_memberships(objects: &HashMap<u64, AnnotationObject>, xdictionary: Option<u64>) -> (r:
    Vec<(String, u64)>)
    ensures
        r@.map_values(|p: (String, u64)| (p.0@, p.1)) == spec_object_scale_memberships(
            objects@,
            xdictionary,
        ),
{
    let mut out: Vec<(String, u64)> = Vec::new();
    let coll = match annotation_scales_dict(objects, xdictionary) {
        Some(coll) => coll,
        None => {
            return out;
        },
    };
    let entries = match as_dict(objects, coll) {
        Some(entries) => entries,
        None => {
            return out;
        },
    };
    let mut i: usize = 0;
    while i < entries.len()
        invariant
            i <= entries@.len(),
            out@.map_values(|p: (String, u64)| (p.0@, p.1)) == memberships_of(
                objects@,
                entries@.take(i as int),
            ),
        decreases entries@.len() - i,
    {
        proof {
            assert(entries@.take(i + 1).drop_last() =~= entries@.take(i as int));
        }
        match scale_of_entry(objects, entries[i].1) {
            Some(m) => {
                out.push(m);
            },
            None => {},
        }
        assert(out@.map_values(|p: (String, u64)| (p.0@, p.1)) =~= memberships_of(
            objects@,
            entries@.take(i + 1),
        ));
        i = i + 1;
    }
    assert(entries@.take(entries@.len() as int) =~= entries@);
    out
}

/// Whether an object carries a per-object annotation context with at least
/// one representation: its `ACDB_ANNOTATIONSCALES` collection is a non-empty
/// dictionary. An empty collection marks an object that has nothing to scale
/// to.
pub fn has_context_manager(objects: &HashMap<u64, AnnotationObject>, xdictionary: Option<u64>) -> (r: bool)
    ensures
        r == spec_has_context_manager(objects@, xdictionary),
{
    match annotation_scales_dict(objects, xdictionary) {
        Some(coll) => match as_dict(objects, coll) {
            Some(entries) => entries.len() > 0,
            None => false,
        },
        None => false,
    }
}

proof fn lemma_first_current_stays(
    objs: Map<u64, AnnotationObject>,
    entries: Seq<(String, u64)>,
    current: Seq<char>,
    k: int,
    n: int,
)
    requires
        0 <= k <= n,
        first_current_leaf(objs, entries, current, k) is Some,
    ensures
        first_current_leaf(objs, entries, current, n) == first_current_leaf(objs, entries, current, k),
    decreases n - k,
{
    if k < n {
        lemma_first_current_stays(objs, entries, current, k, n - 1);
    }
}

/// The representation of an object used at the current annotation scale
/// `current_scale`, by handle: the first one for that scale; failing that
/// the last one marked as native; failing that the first one. `None` without
/// a context chain or a representation.
#[verifier::rlimit(40)]
pub fn active_object_context(
    objects: &HashMap<u64, AnnotationObject>,
    xdictionary: Option<u64>,
    current_scale: &str,
) -> (r: Option<u64>)
    ensures
        r == spec_active_object_context(objects@, xdictionary, current_scale@),
{
    let coll = match annotation_scales_dict(objects, xdictionary) {
        Some(coll) => coll,
        None => {
            return None;
        },
    };
    let entries = match as_dict(objects, coll) {
        Some(entries) => entries,
        None => {
            return None;
        },
    };
    let ghost es = entries@;
    let mut default: Option<u64> = None;
    let mut first: Option<u64> = None;
    let mut i: usize = 0;
    while i < entries.len()
        invariant
            es == entries@,
            spec_annotation_scales_dict(objects@, xdictionary) == Some(coll),
            spec_as_dict(objects@, coll) == Some(es),
            i <= es.len(),
            first_current_leaf(objects@, es, current_scale@, i as int) is None,
            default == last_default_leaf(objects@, es, i as int),
            first == first_leaf(objects@, es, i as int),
        decreases es.len() - i,
    {
        let leaf_h = entries[i].1;
        match objects.get(&leaf_h) {
            Some(AnnotationObject::ContextData { scale, is_default }) => {
                if first.is_none() {
                    first = Some(leaf_h);
                }
                if *is_default {
                    default = Some(leaf_h);
                }
                match objects.get(scale) {
                    Some(AnnotationObject::Scale { name }) => {
                        if eq_ignore_ascii_case(name.as_str(), current_scale) {
                            proof {
                                assert(is_current_leaf(objects@, es, i as int, current_scale@));
                                assert(first_current_leaf(objects@, es, current_scale@, i + 1)
                                    == Some(leaf_h));
                                lemma_first_current_stays(
                                    objects@,
                                    es,
                                    current_scale@,
                                    i + 1,
                                    es.len() as int,
                                );
                                assert(active_leaf(objects@, es, current_scale@) == Some(leaf_h));
                            }
                            return Some(leaf_h);
                        }
                    },
                    _ => {},
                }
            },
            _ => {},
        }
        i = i + 1;
    }
    match default {
        Some(d) => Some(d),
        None => first,
    }
}

/// The multi-leader style stored under `style` is annotative.
pub open spec fn spec_mleader_style_annotative(objs: Map<u64, AnnotationObject>, style: Option<u64>) -> bool {
    match style {
        Some(h) => objs.contains_key(h) && match objs[h] {
            AnnotationObject::MultiLeaderStyle { annotative } => annotative,
            _ => false,
        },
        None => false,
    }
}

/// The table style stored under `style` is annotative.
pub open spec fn spec_table_style_annotative(objs: Map<u64, AnnotationObject>, style: Option<u64>) -> bool {
    match style {
        Some(h) => objs.contains_key(h) && match objs[h] {
            AnnotationObject::TableStyle { annotative } => annotative,
            _ => false,
        },
        None => false,
    }
}

/// Whether the multi-leader style stored under `style` is annotative.
pub fn mleader_style_annotative(objects: &HashMap<u64, AnnotationObject>, style: Option<u64>) -> (r: bool)
    ensures
        r == spec_mleader_style_annotative(objects@, style),
{
    match style {
        Some(h) => match objects.get(&h) {
            Some(AnnotationObject::MultiLeaderStyle { annotative }) => *annotative,
            _ => false,
        },
        None => false,
    }
}

/// Whether the table style stored under `style` is annotative.
pub fn table_style_annotative(objects: &HashMap<u64, AnnotationObject>, style: Option<u64>) -> (r: bool)
    ensures
        r == spec_table_style_annotative(objects@, style),
{
    match style {
        Some(h) => match objects.get(&h) {
            Some(AnnotationObject::TableStyle { annotative }) => *annotative,
            _ => false,
        },
        None => false,
    }
}

/// What decides whether an entity scales with annotation, by entity kind.
#[derive(Clone, Debug)]
pub enum AnnotativeSubject {
    /// Single-line text, by its text style.
    Text { style: String },
    /// Multi-line text: its own flag, or its text style.
    MText { annotative: bool, style: String },
    /// A dimension, by its dimension style.
    Dimension { style: String },
    /// A leader, by its dimension style.
    Leader { style: String },
    /// A multi-leader: its own flag, or its style object.
    MultiLeader { annotative: bool, style: Option<u64> },
    /// A table, by its style object.
    Table { style: Option<u64> },
    /// Any other entity.
    Other,
}

/// Whether an entity participates in annotation scaling: it carries a
/// per-object annotation context with a representation, a legacy annotative
/// marker, or is annotative through its own flag or its style.
pub open spec fn spec_is_annotative(
    objs: Map<u64, AnnotationObject>,
    xdictionary: Option<u64>,
    legacy_marker: bool,
    subject: AnnotativeSubject,
    text_styles: Seq<StyleEntry>,
    dim_styles: Seq<StyleEntry>,
) -> bool {
    spec_has_context_manager(objs, xdictionary) || legacy_marker || match subject {
        AnnotativeSubject::Text { style } => spec_style_annotative(text_styles, style@),
        AnnotativeSubject::MText { annotative, style } => annotative || spec_style_annotative(
            text_styles,
            style@,
        ),
        AnnotativeSubject::Dimension { style } => spec_style_annotative(dim_styles, style@),
        AnnotativeSubject::Leader { style } => spec_style_annotative(dim_styles, style@),
        AnnotativeSubject::MultiLeader { annotative, style } => annotative
            || spec_mleader_style_annotative(objs, style),
        AnnotativeSubject::Table { style } => spec_table_style_annotative(objs, style),
        AnnotativeSubject::Other => false,
    }
}

/// An entity whose own annotative flag is set (multi-line text or a
/// multi-leader) is annotative whatever its style says; so is any entity
/// with a per-object annotation context or a legacy annotative marker. An
/// entity of no annotative kind with neither is not.
pub proof fn lemma_annotative_sources(
    objs: Map<u64, AnnotationObject>,
    xdictionary: Option<u64>,
    legacy_marker: bool,
    subject: AnnotativeSubject,
    text_styles: Seq<StyleEntry>,
    dim_styles: Seq<StyleEntry>,
)
    ensures
        (subject matches AnnotativeSubject::MText { annotative: true, .. }) ==> spec_is_annotative(
            objs,
            xdictionary,
            legacy_marker,
            subject,
            text_styles,
            dim_styles,
        ),
        (subject matches AnnotativeSubject::MultiLeader { annotative: true, .. })
            ==> spec_is_annotative(objs, xdictionary, legacy_marker, subject, text_styles, dim_styles),
        legacy_marker ==> spec_is_annotative(
            objs,
            xdictionary,
            legacy_marker,
            subject,
            text_styles,
            dim_styles,
        ),
        spec_has_context_manager(objs, xdictionary) ==> spec_is_annotative(
            objs,
            xdictionary,
            legacy_marker,
            subject,
            text_styles,
            dim_styles,
        ),
        (subject is Other && !legacy_marker && !spec_has_context_manager(objs, xdictionary))
            ==> !spec_is_annotative(objs, xdictionary, legacy_marker, subject, text_styles, dim_styles),
        subject matches AnnotativeSubject::Text { style } ==> (spec_style_annotative(text_styles, style@)
            ==> spec_is_annotative(objs, xdictionary, legacy_marker, subject, text_styles, dim_styles)),
        subject matches AnnotativeSubject::Dimension { style } ==> (spec_style_annotative(dim_styles, style@)
            ==> spec_is_annotative(objs, xdictionary, legacy_marker, subject, text_styles, dim_styles)),
        subject matches AnnotativeSubject::MultiLeader { style, .. } ==> (spec_mleader_style_annotative(
            objs,
            style,
        ) ==> spec_is_annotative(objs, xdictionary, legacy_marker, subject, text_styles, dim_styles)),
        subject matches AnnotativeSubject::Table { style } ==> (spec_table_style_annotative(objs, style)
            ==> spec_is_annotative(objs, xdictionary, legacy_marker, subject, text_styles, dim_styles)),
{
}

/// Whether an entity (with extension dictionary `xdictionary`) participates
/// in annotation scaling.
pub fn is_annotative(
    objects: &HashMap<u64, AnnotationObject>,
    xdictionary: Option<u64>,
    legacy_marker: bool,
    subject: &AnnotativeSubject,
    text_styles: &[StyleEntry],
    dim_styles: &[StyleEntry],
) -> (r: bool)
    ensures
        r == spec_is_annotative(
            objects@,
            xdictionary,
            legacy_marker,
            *subject,
            text_styles@,
            dim_styles@,
        ),
{
    if has_context_manager(objects, xdictionary) || legacy_marker {
        return true;
    }
    match subject {
        AnnotativeSubject::Text { style } => style_annotative(text_styles, style.as_str()),
        AnnotativeSubject::MText { annotative, style } => *annotative || style_annotative(
            text_styles,
            style.as_str(),
        ),
        AnnotativeSubject::Dimension { style } => style_annotative(dim_styles, style.as_str()),
        AnnotativeSubject::Leader { style } => style_annotative(dim_styles, style.as_str()),
        AnnotativeSubject::MultiLeader { annotative, style } => *annotative
            || mleader_style_annotative(objects, *style),
        AnnotativeSubject::Table { style } => table_style_annotative(objects, *style),
        AnnotativeSubject::Other => false,
    }
}

/// The objects of an entity's annotation context reached from its extension
/// dictionary `xd`: the context manager, its scale collection, and every
/// entry of the collection, in that order.
pub open spec fn context_subtree(objs: Map<u64, AnnotationObject>, xd: u64) -> Seq<u64> {
    match dict_entry(objs, xd, "AcDbContextDataManager"@) {
        Some(mgr) => match dict_entry(objs, mgr, "ACDB_ANNOTATIONSCALES"@) {
            Some(coll) => seq![mgr, coll] + match spec_as_dict(objs, coll) {
                Some(entries) => entries.map_values(|e: (String, u64)| e.1),
                None => Seq::empty(),
            },
            None => seq![mgr],
        },
        None => Seq::empty(),
    }
}

/// An entry that is not the context-manager entry (compared exactly).
pub open spec fn not_manager_entry(e: (String, u64)) -> bool {
    e.0@ != "AcDbContextDataManager"@
}

/// `after` is `before` with the objects of `gone` removed and, when `xd` is
/// a dictionary that remains, its context-manager entry dropped; every other
/// object is untouched.
pub open spec fn context_cleared(
    before: Map<u64, AnnotationObject>,
    after: Map<u64, AnnotationObject>,
    xd: u64,
    gone: Seq<u64>,
) -> bool {
    &&& forall|h: u64| #[trigger] after.contains_key(h) <==> (before.contains_key(h) && !gone.contains(h))
    &&& forall|h: u64| #[trigger] after.contains_key(h) && h != xd ==> after[h] == before[h]
    &&& after.contains_key(xd) ==> match before[xd] {
        AnnotationObject::Dictionary { entries } => after[xd] matches AnnotationObject::Dictionary {
            entries: kept,
        } && kept@ == entries@.filter(|e: (String, u64)| not_manager_entry(e)),
        _ => after[xd] == before[xd],
    }
}

fn context_subtree_of(objects: &HashMap<u64, AnnotationObject>, xd: u64) -> (r: Vec<u64>)
    ensures
        r@ == context_subtree(objects@, xd),
{
    let mut out: Vec<u64> = Vec::new();
    let mgr = match entry_of(objects, xd, "AcDbContextDataManager") {
        Some(mgr) => mgr,
        None => {
            return out;
        },
    };
    out.push(mgr);
    let coll = match entry_of(objects, mgr, "ACDB_ANNOTATIONSCALES") {
        Some(coll) => coll,
        None => {
            return out;
        },
    };
    out.push(coll);
    match as_dict(objects, coll) {
        Some(entries) => {
            let ghost head = out@;
            let mut i: usize = 0;
            while i < entries.len()
                invariant
                    i <= entries@.len(),
                    out@ == head + entries@.take(i as int).map_values(|e: (String, u64)| e.1),
                decreases entries@.len() - i,
            {
                out.push(entries[i].1);
                assert(entries@.take(i + 1).map_values(|e: (String, u64)| e.1) =~= entries@.take(
                    i as int,
                ).map_values(|e: (String, u64)| e.1).push(entries@[i as int].1));
                i = i + 1;
            }
            assert(entries@.take(entries@.len() as int) =~= entries@);
        },
        None => {
            assert(out@ =~= out@ + Seq::<u64>::empty());
        },
    }
    out
}

fn keep_non_manager(entries: Vec<(String, u64)>) -> (r: Vec<(String, u64)>)
    ensures
        r@ == entries@.filter(|e: (String, u64)| not_manager_entry(e)),
{
    let ghost pred = |e: (String, u64)| not_manager_entry(e);
    let ghost all = entries@;
    let mut kept: Vec<(String, u64)> = Vec::new();
    for e in it: entries.into_iter()
        invariant
            all == it.seq(),
            pred == (|e: (String, u64)| not_manager_entry(e)),
            kept@ == all.take(it.index() as int).filter(pred),
    {
        proof {
            let k = it.index() as int;
            assert(all.take(k + 1) =~= all.take(k).push(all[k]));
            all.take(k).lemma_filter_push(all[k], pred);
        }
        if !crate::text::str_equal(e.0.as_str(), "AcDbContextDataManager") {
            kept.push(e);
        }
    }
    assert(all.take(all.len() as int) =~= all);
    kept
}

/// Remove the objects `gone` from the store, one after the other.
fn remove_objects(objects: &mut HashMap<u64, AnnotationObject>, gone: &Vec<u64>)
    ensures
        forall|h: u64| #[trigger] final(objects)@.contains_key(h) <==> (old(objects)@.contains_key(h)
            && !gone@.contains(h)),
        forall|h: u64| #[trigger] final(objects)@.contains_key(h) ==> final(objects)@[h] == old(
            objects,
        )@[h],
{
    let mut i: usize = 0;
    while i < gone.len()
        invariant
            i <= gone@.len(),
            forall|h: u64| #[trigger] objects@.contains_key(h) <==> (old(objects)@.contains_key(h)
                && !gone@.take(i as int).contains(h)),
            forall|h: u64| #[trigger] objects@.contains_key(h) ==> objects@[h] == old(objects)@[h],
        decreases gone@.len() - i,
    {
        let ghost before = objects@;
        let g = gone[i];
        objects.remove(&g);
        proof {
            assert(objects@ =~= before.remove(g));
            assert(gone@.take(i + 1) =~= gone@.take(i as int).push(g));
            assert forall|h: u64| #[trigger] objects@.contains_key(h) <==> (old(objects)@.contains_key(h)
                && !gone@.take(i + 1).contains(h)) by {
                if h == g {
                    assert(gone@.take(i + 1)[i as int] == g);
                } else {
                    if gone@.take(i as int).contains(h) {
                        let j = choose|j: int| 0 <= j < i && #[trigger] gone@.take(i as int)[j] == h;
                        assert(gone@.take(i + 1)[j] == h);
                    }
                    if gone@.take(i + 1).contains(h) {
                        let j = choose|j: int| 0 <= j < i + 1 && #[trigger] gone@.take(i + 1)[j] == h;
                        if j < i {
                            assert(gone@.take(i as int)[j] == h);
                        } else {
                            assert(gone@.take(i + 1)[j] == g);
                        }
                    }
                }
            }
        }
        i = i + 1;
    }
    assert(gone@.take(gone@.len() as int) =~= gone@);
}

/// Remove an entity's per-object annotation context from the object store:
/// the context manager reached from its extension dictionary `xdictionary`,
/// the manager's scale collection and every representation in it, and the
/// manager's entry in the extension dictionary. The shared scale objects
/// stay.
pub fn clear_annotation_context(objects: &mut HashMap<u64, AnnotationObject>, xdictionary: Option<u64>)
    ensures
        match xdictionary {
            Some(xd) => context_cleared(old(objects)@, final(objects)@, xd, context_subtree(old(objects)@, xd)),
            None => final(objects)@ == old(objects)@,
        },
{
    let xd = match xdictionary {
        Some(xd) => xd,
        None => {
            return;
        },
    };
    let gone = context_subtree_of(objects, xd);
    let ghost start = objects@;
    match objects.remove(&xd) {
        Some(AnnotationObject::Dictionary { entries }) => {
            let kept = keep_non_manager(entries);
            objects.insert(xd, AnnotationObject::Dictionary { entries: kept });
        },
        Some(other) => {
            objects.insert(xd, other);
        },
        None => {},
    }
    let ghost mid = objects@;
    remove_objects(objects, &gone);
    proof {
        assert forall|h: u64| #[trigger] mid.contains_key(h) <==> start.contains_key(h) by {}
        assert forall|h: u64| #[trigger] mid.contains_key(h) && h != xd implies mid[h] == start[h] by {}
    }
}

/// Entry `i` is a representation for scale `scale`.
pub open spec fn is_leaf_for_scale(objs: Map<u64, AnnotationObject>, entries: Seq<(String, u64)>, i: int, scale: u64) -> bool {
    &&& objs.contains_key(entries[i].1)
    &&& objs[entries[i].1] is ContextData
    &&& objs[entries[i].1]->ContextData_scale == scale
}

/// The first representation among `entries` for scale `scale`.
pub open spec fn leaf_for_scale(objs: Map<u64, AnnotationObject>, entries: Seq<(String, u64)>, scale: u64) -> Option<u64> {
    if exists|i: int| 0 <= i < entries.len() && #[trigger] is_leaf_for_scale(objs, entries, i, scale) {
        let i = choose|i: int|
            0 <= i < entries.len() && #[trigger] is_leaf_for_scale(objs, entries, i, scale) && forall|j: int|
                0 <= j < i ==> !#[trigger] is_leaf_for_scale(objs, entries, j, scale);
        Some(entries[i].1)
    } else {
        None
    }
}

/// What removing the representation for one scale did.
#[derive(Clone, Copy, Debug, PartialEq, Eq, Structural)]
pub enum RepresentationRemoval {
    /// The object has no representation for that scale; nothing changed.
    NotFound,
    /// That representation was removed; others remain.
    Removed,
    /// It was the object's only representation: the whole context was
    /// cleared, and the object is to stop being annotative.
    ContextCleared,
}

/// An entry that does not refer to `leaf`.
pub open spec fn not_entry_for(e: (String, u64), leaf: u64) -> bool {
    e.1 != leaf
}

fn find_leaf_for_scale(objects: &HashMap<u64, AnnotationObject>, entries: &Vec<(String, u64)>, scale: u64) -> (r:
    Option<u64>)
    ensures
        r == leaf_for_scale(objects@, entries@, scale),
{
    let mut i: usize = 0;
    while i < entries.len()
        invariant
            i <= entries@.len(),
            forall|j: int| 0 <= j < i ==> !#[trigger] is_leaf_for_scale(objects@, entries@, j, scale),
        decreases entries@.len() - i,
    {
        let lh = entries[i].1;
        let hit = match objects.get(&lh) {
            Some(AnnotationObject::ContextData { scale: s, .. }) => *s == scale,
            _ => false,
        };
        if hit {
            proof {
                let es = entries@;
                assert(is_leaf_for_scale(objects@, es, i as int, scale));
                let c = choose|c: int|
                    0 <= c < es.len() && #[trigger] is_leaf_for_scale(objects@, es, c, scale)
                        && forall|j: int| 0 <= j < c ==> !#[trigger] is_leaf_for_scale(objects@, es, j, scale);
                if c < i {
                } else if c > i {
                    assert(!is_leaf_for_scale(objects@, es, i as int, scale));
                }
            }
            return Some(lh);
        }
        i = i + 1;
    }
    None
}

fn drop_entries_for(entries: Vec<(String, u64)>, leaf: u64) -> (r: Vec<(String, u64)>)
    ensures
        r@ == entries@.filter(|e: (String, u64)| not_entry_for(e, leaf)),
{
    let ghost pred = |e: (String, u64)| not_entry_for(e, leaf);
    let ghost all = entries@;
    let mut kept: Vec<(String, u64)> = Vec::new();
    for e in it: entries.into_iter()
        invariant
            all == it.seq(),
            pred == (|e: (String, u64)| not_entry_for(e, leaf)),
            kept@ == all.take(it.index() as int).filter(pred),
    {
        proof {
            let k = it.index() as int;
            assert(all.take(k + 1) =~= all.take(k).push(all[k]));
            all.take(k).lemma_filter_push(all[k], pred);
        }
        if e.1 != leaf {
            kept.push(e);
        }
    }
    assert(all.take(all.len() as int) =~= all);
    kept
}

/// `after` is `before` without object `leaf`, and with every entry referring
/// to `leaf` dropped from collection `coll` when that remains a dictionary.
pub open spec fn leaf_removed(
    before: Map<u64, AnnotationObject>,
    after: Map<u64, AnnotationObject>,
    coll: u64,
    leaf: u64,
) -> bool {
    &&& forall|h: u64| #[trigger] after.contains_key(h) <==> (before.contains_key(h) && h != leaf)
    &&& forall|h: u64| #[trigger] after.contains_key(h) && h != coll ==> after[h] == before[h]
    &&& after.contains_key(coll) ==> match before[coll] {
        AnnotationObject::Dictionary { entries } => after[coll] matches AnnotationObject::Dictionary {
            entries: kept,
        } && kept@ == entries@.filter(|e: (String, u64)| not_entry_for(e, leaf)),
        _ => after[coll] == before[coll],
    }
}

/// Remove an object's representation for scale `scale`, keeping its other
/// representations; when it was the only one, clear the whole annotation
/// context instead (the caller then also drops the object's own annotative
/// flag and markers).
pub fn remove_annotation_context_for_scale(
    objects: &mut HashMap<u64, AnnotationObject>,
    xdictionary: Option<u64>,
    scale: u64,
) -> (r: RepresentationRemoval)
    ensures
        match spec_annotation_scales_dict(old(objects)@, xdictionary) {
            Some(coll) => match spec_as_dict(old(objects)@, coll) {
                Some(entries) => match leaf_for_scale(old(objects)@, entries, scale) {
                    Some(leaf) => if entries.len() <= 1 {
                        &&& r == RepresentationRemoval::ContextCleared
                        &&& context_cleared(
                            old(objects)@,
                            final(objects)@,
                            xdictionary->0,
                            context_subtree(old(objects)@, xdictionary->0),
                        )
                    } else {
                        &&& r == RepresentationRemoval::Removed
                        &&& leaf_removed(old(objects)@, final(objects)@, coll, leaf)
                    },
                    None => r == RepresentationRemoval::NotFound && final(objects)@ == old(objects)@,
                },
                None => r == RepresentationRemoval::NotFound && final(objects)@ == old(objects)@,
            },
            None => r == RepresentationRemoval::NotFound && final(objects)@ == old(objects)@,
        },
{
    let coll = match annotation_scales_dict(objects, xdictionary) {
        Some(coll) => coll,
        None => {
            return RepresentationRemoval::NotFound;
        },
    };
    let (leaf, count) = match as_dict(objects, coll) {
        Some(entries) => match find_leaf_for_scale(objects, entries, scale) {
            Some(leaf) => (leaf, entries.len()),
            None => {
                return RepresentationRemoval::NotFound;
            },
        },
        None => {
            return RepresentationRemoval::NotFound;
        },
    };
    if count <= 1 {
        clear_annotation_context(objects, xdictionary);
        return RepresentationRemoval::ContextCleared;
    }
    let ghost start = objects@;
    objects.remove(&leaf);
    let ghost after_leaf = objects@;
    proof {
        assert(after_leaf =~= start.remove(leaf));
    }
    match objects.remove(&coll) {
        Some(AnnotationObject::Dictionary { entries }) => {
            let kept = drop_entries_for(entries, leaf);
            objects.insert(coll, AnnotationObject::Dictionary { entries: kept });
        },
        Some(other) => {
            objects.insert(coll, other);
        },
        None => {},
    }
    RepresentationRemoval::Removed
}

/// At most one entry of the dictionary stored under `xd` names the context
/// manager (up to ASCII case).
pub open spec fn single_manager_entry(objs: Map<u64, AnnotationObject>, xd: u64) -> bool {
    match spec_as_dict(objs, xd) {
        Some(es) => forall|i: int, j: int|
            0 <= i < es.len() && 0 <= j < es.len() && eq_ignore_ascii_case_spec(
                #[trigger] es[i].0@,
                "AcDbContextDataManager"@,
            ) && eq_ignore_ascii_case_spec(#[trigger] es[j].0@, "AcDbContextDataManager"@) ==> i == j,
        None => true,
    }
}

/// When some entry's key matches `key`, a first such entry exists.
proof fn lemma_first_key_match(s: Seq<(String, u64)>, key: Seq<char>, i: int)
    requires
        0 <= i < s.len(),
        eq_ignore_ascii_case_spec(s[i].0@, key),
    ensures
        exists|c: int|
            0 <= c < s.len() && eq_ignore_ascii_case_spec(#[trigger] s[c].0@, key) && forall|j: int|
                0 <= j < c ==> !eq_ignore_ascii_case_spec(#[trigger] s[j].0@, key),
    decreases i,
{
    if exists|j: int| 0 <= j < i && eq_ignore_ascii_case_spec(#[trigger] s[j].0@, key) {
        let j = choose|j: int| 0 <= j < i && eq_ignore_ascii_case_spec(#[trigger] s[j].0@, key);
        lemma_first_key_match(s, key, j);
    }
}

proof fn lemma_filtered_manager_lookup(es: Seq<(String, u64)>)
    requires
        forall|i: int, j: int|
            0 <= i < es.len() && 0 <= j < es.len() && eq_ignore_ascii_case_spec(
                #[trigger] es[i].0@,
                "AcDbContextDataManager"@,
            ) && eq_ignore_ascii_case_spec(#[trigger] es[j].0@, "AcDbContextDataManager"@) ==> i == j,
    ensures
        dict_get(es.filter(|e: (String, u64)| not_manager_entry(e)), "AcDbContextDataManager"@) is None
            || dict_get(es.filter(|e: (String, u64)| not_manager_entry(e)), "AcDbContextDataManager"@)
            == dict_get(es, "AcDbContextDataManager"@),
{
    let mgr_key = "AcDbContextDataManager"@;
    let pred = |e: (String, u64)| not_manager_entry(e);
    let kept = es.filter(pred);
    if exists|i: int| 0 <= i < kept.len() && eq_ignore_ascii_case_spec(#[trigger] kept[i].0@, mgr_key) {
        let i = choose|i: int|
            0 <= i < kept.len() && eq_ignore_ascii_case_spec(#[trigger] kept[i].0@, mgr_key);
        crate::parametric_constraints::lemma_filter_member(es, pred, i);
        let k = choose|k: int| 0 <= k < es.len() && es[k] == kept[i];
        assert(eq_ignore_ascii_case_spec(es[k].0@, mgr_key));
        assert forall|j: int| 0 <= j < k implies !eq_ignore_ascii_case_spec(#[trigger] es[j].0@, mgr_key) by {
            if eq_ignore_ascii_case_spec(es[j].0@, mgr_key) {
                assert(j == k);
            }
        }
        assert forall|j: int|
            0 <= j < kept.len() && eq_ignore_ascii_case_spec(#[trigger] kept[j].0@, mgr_key) implies kept[j]
            == es[k] by {
            crate::parametric_constraints::lemma_filter_member(es, pred, j);
            let kj = choose|kj: int| 0 <= kj < es.len() && es[kj] == kept[j];
            assert(eq_ignore_ascii_case_spec(es[kj].0@, mgr_key));
            assert(kj == k);
        }
        lemma_first_key_match(kept, mgr_key, i);
        let c = choose|c: int|
            0 <= c < kept.len() && eq_ignore_ascii_case_spec(#[trigger] kept[c].0@, mgr_key)
                && forall|j: int| 0 <= j < c ==> !eq_ignore_ascii_case_spec(#[trigger] kept[j].0@, mgr_key);
        assert(kept[c] == es[k]);
        assert(dict_get(kept, mgr_key) == Some(kept[c].1));
        assert(dict_get(es, mgr_key) == Some(es[k].1));
    }
}

/// Once an entity's annotation context is cleared it carries no context any
/// more, so it is no longer annotative through one. (Entries are dropped by
/// exact key while lookups ignore ASCII case, so this holds when a single
/// entry of the extension dictionary names the context manager.)
pub proof fn lemma_cleared_context_is_gone(
    before: Map<u64, AnnotationObject>,
    after: Map<u64, AnnotationObject>,
    xd: u64,
)
    requires
        context_cleared(before, after, xd, context_subtree(before, xd)),
        single_manager_entry(before, xd),
    ensures
        !spec_has_context_manager(after, Some(xd)),
        spec_object_scale_memberships(after, Some(xd)).len() == 0,
{
    let mgr_key = "AcDbContextDataManager"@;
    let gone = context_subtree(before, xd);
    if after.contains_key(xd) {
        if let AnnotationObject::Dictionary { entries } = before[xd] {
            let es = entries@;
            lemma_filtered_manager_lookup(es);
            assert(spec_as_dict(after, xd) == Some(es.filter(|e: (String, u64)| not_manager_entry(e))));
            if let Some(m) = dict_entry(after, xd, mgr_key) {
                assert(dict_entry(before, xd, mgr_key) == Some(m));
                assert(gone[0] == m);
                assert(!after.contains_key(m));
            }
        }
    }
}

/// `subject` with its own annotative flag (multi-line text, multi-leader)
/// set to `want`; other kinds carry no flag of their own.
pub open spec fn with_own_flag(subject: AnnotativeSubject, want: bool) -> AnnotativeSubject {
    match subject {
        AnnotativeSubject::MText { style, .. } => AnnotativeSubject::MText { annotative: want, style },
        AnnotativeSubject::MultiLeader { style, .. } => AnnotativeSubject::MultiLeader {
            annotative: want,
            style,
        },
        _ => subject,
    }
}

/// Set an entity's own annotative flag; turning it off also clears the
/// entity's annotation context from the object store.
pub fn set_entity_annotative(
    objects: &mut HashMap<u64, AnnotationObject>,
    xdictionary: Option<u64>,
    subject: &mut AnnotativeSubject,
    want: bool,
)
    ensures
        *final(subject) == with_own_flag(*old(subject), want),
        want ==> final(objects)@ == old(objects)@,
        !want ==> match xdictionary {
            Some(xd) => context_cleared(
                old(objects)@,
                final(objects)@,
                xd,
                context_subtree(old(objects)@, xd),
            ),
            None => final(objects)@ == old(objects)@,
        },
{
    match subject {
        AnnotativeSubject::MText { annotative, .. } => {
            *annotative = want;
        },
        AnnotativeSubject::MultiLeader { annotative, .. } => {
            *annotative = want;
        },
        _ => {},
    }
    if !want {
        clear_annotation_context(objects, xdictionary);
    }
}

} // verus!
