//! The part of a drawing that block operations and cache rebuilds read: the
//! block-record table, in table order, and the entities that name a block,
//! draw a dimension block, carry text mirroring flags, bound a hatch, or
//! feed the fill, image and mesh caches.
//!
//! The table finds a record by the case-folded key of its name; the key is
//! whatever `acadrust::tables::normalize_name` computes.

use crate::text::{
    decimal, eq_ignore_ascii_case, eq_ignore_ascii_case_spec, is_trimmed_space,
    lemma_decimal_chars, lemma_decimal_injective, lemma_distinct_candidates_fit, push_char,
    push_decimal, spec_trim, trimmed,
};
use vstd::prelude::*;

verus! {

/// The lookup key `acadrust::tables::normalize_name` gives a table name.
pub uninterp spec fn table_key(name: Seq<char>) -> Seq<char>;

/// `acadrust::tables::normalize_name`: the case-folded key under which a
/// symbol table stores and finds `name`. The source maps the name character
/// by character; of that mapping only what it does to ASCII characters is
/// claimed (`a..=z` become `A..=Z`, every other ASCII character stays), not
/// what it does to the rest.
#[verifier::external_body]
fn key_of(name: &str) -> (k: String)
    ensures
        k@ == table_key(name@),
        k@.len() == name@.len(),
        forall|i: int|
            0 <= i < name@.len() && 'a' <= name@[i] <= 'z' ==> (#[trigger] k@[i]) as u32 == (
            name@[i] as u32) - 32,
        forall|i: int|
            0 <= i < name@.len() && (name@[i] as u32) < 128 && !('a' <= name@[i] <= 'z') ==> (
            #[trigger] k@[i]) == name@[i],
{
    acadrust::tables::normalize_name(name)
}

/// `acadrust::CadDocument::new`, with its block table read back as plain
/// records. The source sets up two records, `*Model_Space` then
/// `*Paper_Space`, each linked to a freshly allocated (non-null) layout
/// handle, and the table refuses a second record under one key.
#[verifier::external_body]
fn standard_block_records() -> (r: Vec<BlockRecordEntry>)
    ensures
        r@.len() == 2,
        r@[0].name@ == "*Model_Space"@,
        r@[1].name@ == "*Paper_Space"@,
        r@[0].layout != 0,
        r@[1].layout != 0,
        table_key(r@[0].name@) != table_key(r@[1].name@),
{
    let doc = acadrust::CadDocument::new();
    doc.block_records.iter().map(|br| BlockRecordEntry {
        handle: br.handle.value(),
        name: br.name.clone(),
        anonymous_flag: br.flags.anonymous,
        xref: br.flags.is_xref,
        layout: br.layout.value(),
        block_entity_handle: br.block_entity_handle.value(),
        block_end_handle: br.block_end_handle.value(),
        entity_handles: br.entity_handles.iter().map(|h| h.value()).collect(),
    }).collect()
}

/// One block record, as plain values.
#[derive(Clone, Debug)]
pub struct BlockRecordEntry {
    pub handle: u64,
    pub name: String,
    /// The record's own anonymous flag.
    pub anonymous_flag: bool,
    /// The record's external-reference flag.
    pub xref: bool,
    /// Handle of the layout the record belongs to; 0 when it belongs to none.
    pub layout: u64,
    /// Handle of the block's begin marker entity.
    pub block_entity_handle: u64,
    /// Handle of the block's end marker entity.
    pub block_end_handle: u64,
    /// Handles of the entities the block definition owns.
    pub entity_handles: Vec<u64>,
}

/// An entity of the drawing, as far as the block, text and hatch operations
/// read it.
#[derive(Clone, Debug)]
pub enum DrawingEntity {
    /// The marker entity that opens a block definition.
    BlockBegin { handle: u64, name: String },
    /// A block reference.
    Insert { handle: u64, block_name: String },
    /// A dimension, drawn by the anonymous block it names.
    Dimension { handle: u64, block_name: String },
    /// Single-line text, with its generation (mirroring) flags.
    Text { handle: u64, generation_flags: i16 },
    /// A hatch, with the handles of the entities bounding its paths.
    Hatch { handle: u64, associative: bool, boundary_handles: Vec<u64> },
    /// A two-dimensional solid fill.
    Solid { handle: u64 },
    /// A raster image.
    Image { handle: u64 },
    /// A volumetric entity (3D solid, region, body, surface or mesh), with
    /// the handle of the block record that owns it.
    Volume { handle: u64, owner: u64 },
    /// Any other entity.
    Other { handle: u64 },
}

impl DrawingEntity {
    /// The entity's handle.
    pub open spec fn handle_of(self) -> u64 {
        match self {
            DrawingEntity::BlockBegin { handle, .. } => handle,
            DrawingEntity::Insert { handle, .. } => handle,
            DrawingEntity::Dimension { handle, .. } => handle,
            DrawingEntity::Text { handle, .. } => handle,
            DrawingEntity::Hatch { handle, .. } => handle,
            DrawingEntity::Solid { handle } => handle,
            DrawingEntity::Image { handle } => handle,
            DrawingEntity::Volume { handle, .. } => handle,
            DrawingEntity::Other { handle } => handle,
        }
    }
}

/// The block table and entity list of a drawing.
#[derive(Clone, Debug)]
pub struct Drawing {
    pub block_records: Vec<BlockRecordEntry>,
    pub entities: Vec<DrawingEntity>,
}

/// `name` equals `*Model_Space` up to ASCII case.
pub open spec fn is_model_space_name(name: Seq<char>) -> bool {
    eq_ignore_ascii_case_spec(name, "*Model_Space"@)
}

/// The first twelve characters of `name` equal `*Paper_Space` up to ASCII case.
pub open spec fn is_paper_space_name(name: Seq<char>) -> bool {
    name.len() >= 12 && eq_ignore_ascii_case_spec(name.take(12), "*Paper_Space"@)
}

/// Model space or a paper-space layout block.
pub open spec fn is_standard_record(e: BlockRecordEntry) -> bool {
    is_model_space_name(e.name@) || is_paper_space_name(e.name@)
}

/// The record belongs to a layout.
pub open spec fn is_layout_record(e: BlockRecordEntry) -> bool {
    e.layout != 0
}

/// Flagged anonymous, or named with a leading `*`.
pub open spec fn is_anonymous_record(e: BlockRecordEntry) -> bool {
    e.anonymous_flag || (e.name@.len() > 0 && e.name@[0] == '*')
}

/// A user block definition: neither standard nor a layout block.
pub open spec fn is_custom_record(e: BlockRecordEntry) -> bool {
    !is_standard_record(e) && !is_layout_record(e)
}

/// The names of the user block definitions, in table order.
pub open spec fn custom_names(recs: Seq<BlockRecordEntry>) -> Seq<Seq<char>>
    decreases recs.len(),
{
    if recs.len() == 0 {
        Seq::empty()
    } else {
        let rest = custom_names(recs.drop_last());
        if is_custom_record(recs.last()) {
            rest.push(recs.last().name@)
        } else {
            rest
        }
    }
}

/// Some record of the table is found under `name`.
pub open spec fn has_block(recs: Seq<BlockRecordEntry>, name: Seq<char>) -> bool {
    exists|i: int| 0 <= i < recs.len() && table_key(#[trigger] recs[i].name@) == table_key(name)
}

/// The position of the record found under `name`.
pub open spec fn block_index(recs: Seq<BlockRecordEntry>, name: Seq<char>) -> int {
    choose|i: int| 0 <= i < recs.len() && table_key(#[trigger] recs[i].name@) == table_key(name)
}

/// A name the block table accepts for a new block: after trimming white
/// space it is not empty and does not start with `*` (the mark of anonymous
/// blocks), and it holds no `|` (the mark of names bound to an external
/// reference, which renaming leaves alone).
pub open spec fn valid_block_name_spec(name: Seq<char>) -> bool {
    &&& exists|k: int|
        0 <= k < name.len() && !is_trimmed_space(#[trigger] name[k]) && name[k] != '*' && forall|
            j: int,
        |
            0 <= j < k ==> is_trimmed_space(#[trigger] name[j])
    &&& !name.contains('|')
}

/// A record renaming leaves alone: anonymous, an external reference, or a
/// name bound to a referenced file.
pub open spec fn rename_protected(e: BlockRecordEntry) -> bool {
    is_anonymous_record(e) || e.xref || e.name@.contains('|')
}

/// `rename_block(old, new)` is carried out on `d`.
pub open spec fn rename_accepted(d: Drawing, old: Seq<char>, new: Seq<char>) -> bool {
    &&& valid_block_name_spec(new)
    &&& !eq_ignore_ascii_case_spec(old, new)
    &&& !has_block(d.block_records@, new)
    &&& has_block(d.block_records@, old)
    &&& !rename_protected(d.block_records@[block_index(d.block_records@, old)])
}

/// `b` is `a` under the name `new`.
pub open spec fn renamed_record(a: BlockRecordEntry, b: BlockRecordEntry, new: Seq<char>) -> bool {
    &&& b.name@ == new
    &&& b.handle == a.handle
    &&& b.anonymous_flag == a.anonymous_flag
    &&& b.xref == a.xref
    &&& b.layout == a.layout
    &&& b.block_entity_handle == a.block_entity_handle
    &&& b.block_end_handle == a.block_end_handle
    &&& b.entity_handles == a.entity_handles
}

/// `b` is entity `a` after block `old` became `new`: the begin marker
/// `marker` and every reference to `old` (up to ASCII case) carry the new
/// name; everything else is untouched.
pub open spec fn renamed_entity(
    a: DrawingEntity,
    b: DrawingEntity,
    marker: u64,
    old: Seq<char>,
    new: Seq<char>,
) -> bool {
    match a {
        DrawingEntity::BlockBegin { handle, .. } => if handle == marker {
            b matches DrawingEntity::BlockBegin { handle: h, name } && h == handle && name@ == new
        } else {
            b == a
        },
        DrawingEntity::Insert { handle, block_name } => if eq_ignore_ascii_case_spec(
            block_name@,
            old,
        ) {
            b matches DrawingEntity::Insert { handle: h, block_name: n } && h == handle && n@
                == new
        } else {
            b == a
        },
        _ => b == a,
    }
}

/// A rename that went through moves the block from its old name to its new
/// one: the record is found under the new name and keeps its handle, nothing
/// is found under the old name any more, and no block reference still names
/// the old block (up to ASCII case), so every instance keeps resolving.
pub proof fn lemma_rename_moves_block(before: Drawing, after: Drawing, old_name: Seq<char>, new_name: Seq<char>)
    requires
        before.wf(),
        after.wf(),
        rename_accepted(before, old_name, new_name),
        before.renamed(after, old_name, new_name),
    ensures
        has_block(after.block_records@, new_name),
        !has_block(after.block_records@, old_name),
        after.block_records@[block_index(after.block_records@, new_name)].handle
            == before.block_records@[block_index(before.block_records@, old_name)].handle,
        forall|k: int|
            0 <= k < after.entities@.len() ==> (#[trigger] after.entities@[k] matches DrawingEntity::Insert {
                block_name,
                ..
            } ==> !eq_ignore_ascii_case_spec(block_name@, old_name)),
{
    let recs = before.block_records@;
    let out = after.block_records@;
    let i = block_index(recs, old_name);
    let last = out.len() - 1;
    assert(table_key(out[last].name@) == table_key(new_name));
    lemma_block_index_unique(after, new_name, last);
    if has_block(out, old_name) {
        let w = choose|w: int| 0 <= w < out.len() && table_key(#[trigger] out[w].name@) == table_key(old_name);
        if w == last {
            assert(table_key(recs[i].name@) == table_key(new_name));
        } else {
            assert(out[w] == out.drop_last()[w]);
            let iw = if w < i { w } else { w + 1 };
            assert(out.drop_last()[w] == recs[iw]);
            assert(iw != i);
            if iw < i {
                assert(table_key(recs[iw].name@) != table_key(recs[i].name@));
            } else {
                assert(table_key(recs[i].name@) != table_key(recs[iw].name@));
            }
        }
    }
    assert forall|k: int|
        0 <= k < after.entities@.len() implies (#[trigger] after.entities@[k] matches DrawingEntity::Insert {
            block_name,
            ..
        } ==> !eq_ignore_ascii_case_spec(block_name@, old_name)) by {
        let a = before.entities@[k];
        assert(renamed_entity(a, after.entities@[k], recs[i].block_entity_handle, old_name, new_name));
        if let DrawingEntity::Insert { block_name, .. } = after.entities@[k] {
            if block_name@ == new_name {
                lemma_eq_ignore_ascii_case_symmetric(old_name, new_name);
            }
        }
    }
}

/// Renaming a block back undoes a rename: when `a` was renamed to `b`, the
/// record carried exactly the name `a`, `a` is itself a valid block name and
/// no reference named `b` beforehand, then renaming `b` back to `a` is
/// accepted, and the drawing it leaves is the original one with the record
/// moved to the end of the table under its own name, and with its begin
/// marker and every reference to `a` (up to ASCII case) naming exactly `a`.
pub proof fn lemma_rename_round_trip(
    before: Drawing,
    mid: Drawing,
    after: Drawing,
    a: Seq<char>,
    b: Seq<char>,
)
    requires
        before.wf(),
        mid.wf(),
        rename_accepted(before, a, b),
        before.renamed(mid, a, b),
        valid_block_name_spec(a),
        before.block_records@[block_index(before.block_records@, a)].name@ == a,
        forall|k: int|
            0 <= k < before.entities@.len() ==> (#[trigger] before.entities@[k] matches DrawingEntity::Insert {
                block_name,
                ..
            } ==> !eq_ignore_ascii_case_spec(block_name@, b)),
        rename_accepted(mid, b, a) ==> mid.renamed(after, b, a),
    ensures
        rename_accepted(mid, b, a),
        before.renamed(after, a, a),
{
    let recs = before.block_records@;
    let i = block_index(recs, a);
    let out = mid.block_records@;
    let last = out.len() - 1;
    lemma_rename_moves_block(before, mid, a, b);
    lemma_block_index_unique(mid, b, last);
    lemma_eq_ignore_ascii_case_symmetric(a, b);
    let moved = out[last];
    assert(!(b.len() > 0 && b[0] == '*')) by {
        if b.len() > 0 && b[0] == '*' {
            let k = choose|k: int|
                0 <= k < b.len() && !is_trimmed_space(#[trigger] b[k]) && b[k] != '*' && forall|
                    j: int,
                | 0 <= j < k ==> is_trimmed_space(#[trigger] b[j]);
            if k > 0 {
                assert(is_trimmed_space(b[0]));
            }
        }
    }
    assert(!rename_protected(moved));
    assert(rename_accepted(mid, b, a));
    let fin = after.block_records@;
    assert(fin.drop_last() =~= recs.remove(i)) by {
        assert(out.remove(last) =~= out.drop_last());
    }
    assert forall|k: int| 0 <= k < before.entities@.len() implies renamed_entity(
        #[trigger] before.entities@[k],
        after.entities@[k],
        recs[i].block_entity_handle,
        a,
        a,
    ) by {
        assert(renamed_entity(before.entities@[k], mid.entities@[k], recs[i].block_entity_handle, a, b));
        assert(renamed_entity(mid.entities@[k], after.entities@[k], moved.block_entity_handle, b, a));
    }
}

/// ASCII-case-insensitive equality is symmetric.
proof fn lemma_eq_ignore_ascii_case_symmetric(a: Seq<char>, b: Seq<char>)
    ensures
        eq_ignore_ascii_case_spec(a, b) == eq_ignore_ascii_case_spec(b, a),
{
    if eq_ignore_ascii_case_spec(a, b) {
        assert forall|i: int| 0 <= i < b.len() implies crate::text::ascii_lower(#[trigger] b[i])
            == crate::text::ascii_lower(a[i]) by {
            assert(crate::text::ascii_lower(a[i]) == crate::text::ascii_lower(b[i]));
        }
    }
    if eq_ignore_ascii_case_spec(b, a) {
        assert forall|i: int| 0 <= i < a.len() implies crate::text::ascii_lower(#[trigger] a[i])
            == crate::text::ascii_lower(b[i]) by {
            assert(crate::text::ascii_lower(b[i]) == crate::text::ascii_lower(a[i]));
        }
    }
}

/// The position of the first record with handle `h`.
pub open spec fn record_with_handle(recs: Seq<BlockRecordEntry>, h: u64) -> Option<int> {
    if exists|i: int| 0 <= i < recs.len() && #[trigger] recs[i].handle == h {
        Some(
            choose|i: int|
                0 <= i < recs.len() && #[trigger] recs[i].handle == h && forall|j: int|
                    0 <= j < i ==> #[trigger] recs[j].handle != h,
        )
    } else {
        None
    }
}

/// The position of the first record whose name equals `name` up to ASCII
/// case.
pub open spec fn record_named(recs: Seq<BlockRecordEntry>, name: Seq<char>) -> Option<int> {
    if exists|i: int|
        0 <= i < recs.len() && eq_ignore_ascii_case_spec(#[trigger] recs[i].name@, name) {
        Some(
            choose|i: int|
                0 <= i < recs.len() && eq_ignore_ascii_case_spec(#[trigger] recs[i].name@, name)
                    && forall|j: int|
                    0 <= j < i ==> !eq_ignore_ascii_case_spec(#[trigger] recs[j].name@, name),
        )
    } else {
        None
    }
}

/// The position of the first entity with handle `h`.
pub open spec fn entity_with_handle(ents: Seq<DrawingEntity>, h: u64) -> Option<int> {
    if exists|i: int| 0 <= i < ents.len() && (#[trigger] ents[i]).handle_of() == h {
        Some(
            choose|i: int|
                0 <= i < ents.len() && (#[trigger] ents[i]).handle_of() == h && forall|j: int|
                    0 <= j < i ==> (#[trigger] ents[j]).handle_of() != h,
        )
    } else {
        None
    }
}

/// What a member `h` of a block definition drags along: when it is a
/// dimension naming a block (after trimming), the entities of the first
/// record of that name.
pub open spec fn member_dependents(d: Drawing, h: u64) -> Seq<u64> {
    match entity_with_handle(d.entities@, h) {
        Some(e) => match d.entities@[e] {
            DrawingEntity::Dimension { block_name, .. } => {
                let name = spec_trim(block_name@);
                if name.len() == 0 {
                    Seq::empty()
                } else {
                    match record_named(d.block_records@, name) {
                        Some(j) => d.block_records@[j].entity_handles@,
                        None => Seq::empty(),
                    }
                }
            },
            _ => Seq::empty(),
        },
        None => Seq::empty(),
    }
}

/// The dependents of the members `members`, one after the other.
pub open spec fn members_dependents(d: Drawing, members: Seq<u64>) -> Seq<u64>
    decreases members.len(),
{
    if members.len() == 0 {
        Seq::empty()
    } else {
        members_dependents(d, members.drop_last()) + member_dependents(d, members.last())
    }
}

/// `xs` in order, without the handles of `excluded` and without repeats.
pub open spec fn fresh_handles(xs: Seq<u64>, excluded: Seq<u64>) -> Seq<u64>
    decreases xs.len(),
{
    if xs.len() == 0 {
        Seq::empty()
    } else {
        let acc = fresh_handles(xs.drop_last(), excluded);
        let x = xs.last();
        if excluded.contains(x) || acc.contains(x) {
            acc
        } else {
            acc.push(x)
        }
    }
}

/// The entities of anonymous dimension blocks that belong to dimensions
/// inside block definition `block_record`, and are not its own members.
pub open spec fn dependent_handles(d: Drawing, block_record: u64) -> Seq<u64> {
    match record_with_handle(d.block_records@, block_record) {
        Some(r) => {
            let members = d.block_records@[r].entity_handles@;
            fresh_handles(members_dependents(d, members), members)
        },
        None => Seq::empty(),
    }
}

/// What invalidating the drawn block of dimension `h` removes: the block's
/// entities, then its begin and end markers. Empty unless `h` is a dimension
/// whose block name the table finds.
pub open spec fn dimension_block_handles_spec(d: Drawing, h: u64) -> Seq<u64> {
    match entity_with_handle(d.entities@, h) {
        Some(e) => match d.entities@[e] {
            DrawingEntity::Dimension { block_name, .. } => {
                if has_block(d.block_records@, block_name@) {
                    let r = d.block_records@[block_index(d.block_records@, block_name@)];
                    r.entity_handles@.push(r.block_entity_handle).push(r.block_end_handle)
                } else {
                    Seq::empty()
                }
            },
            _ => Seq::empty(),
        },
        None => Seq::empty(),
    }
}

/// Text generation bits: drawn backward (mirrored in X) and upside down
/// (mirrored in Y).
pub const TEXT_BACKWARD: i16 = 0x2;
pub const TEXT_UPSIDE_DOWN: i16 = 0x4;

/// `e` after a mirror that flips text glyphs too: single-line text has its
/// backward and upside-down bits toggled; anything else is unchanged.
pub open spec fn spec_mirrored_text(e: DrawingEntity) -> DrawingEntity {
    match e {
        DrawingEntity::Text { handle, generation_flags } => DrawingEntity::Text {
            handle,
            generation_flags: generation_flags ^ (TEXT_BACKWARD | TEXT_UPSIDE_DOWN),
        },
        _ => e,
    }
}

/// Turn a mirrored single-line text into a true glyph mirror by toggling
/// its backward and upside-down generation bits.
pub fn mirror_true_text_flags(e: &mut DrawingEntity)
    ensures
        *final(e) == spec_mirrored_text(*old(e)),
{
    let flipped = match &*e {
        DrawingEntity::Text { handle, generation_flags } => Some(
            DrawingEntity::Text {
                handle: *handle,
                generation_flags: *generation_flags ^ (TEXT_BACKWARD | TEXT_UPSIDE_DOWN),
            },
        ),
        _ => None,
    };
    if let Some(t) = flipped {
        *e = t;
    }
}

/// Mirroring text glyphs twice gives the text back unchanged.
pub proof fn lemma_mirror_text_twice(e: DrawingEntity)
    ensures
        spec_mirrored_text(spec_mirrored_text(e)) == e,
{
    if let DrawingEntity::Text { handle, generation_flags } = e {
        let f = generation_flags;
        assert((f ^ (2i16 | 4i16)) ^ (2i16 | 4i16) == f) by (bit_vector);
    }
}

/// An associative hatch bounded by some entity of `changed`.
pub open spec fn hatch_depends_on(e: DrawingEntity, changed: Set<u64>) -> bool {
    match e {
        DrawingEntity::Hatch { associative, boundary_handles, .. } => associative && exists|j: int|
            0 <= j < boundary_handles@.len() && changed.contains(#[trigger] boundary_handles@[j]),
        _ => false,
    }
}

/// `h` is the handle of an associative hatch bounded by some entity of
/// `changed`.
pub open spec fn is_hatch_dependent(ents: Seq<DrawingEntity>, changed: Set<u64>, h: u64) -> bool {
    exists|k: int|
        0 <= k < ents.len() && hatch_depends_on(#[trigger] ents[k], changed) && ents[k].handle_of()
            == h
}

impl Drawing {
    /// No two records share a lookup key and no two entities share a handle.
    pub open spec fn wf(&self) -> bool {
        &&& forall|i: int, j: int|
            0 <= i < j < self.block_records@.len() ==> table_key(
                #[trigger] self.block_records@[i].name@,
            ) != table_key(#[trigger] self.block_records@[j].name@)
        &&& forall|i: int, j: int|
            0 <= i < j < self.entities@.len() ==> (#[trigger] self.entities@[i]).handle_of() != (
            #[trigger] self.entities@[j]).handle_of()
    }

    /// The drawing `rename_block(old, new)` leaves when it is carried out.
    pub open spec fn renamed(self, after: Drawing, old: Seq<char>, new: Seq<char>) -> bool {
        let recs = self.block_records@;
        let i = block_index(recs, old);
        let marker = recs[i].block_entity_handle;
        &&& after.block_records@.len() == recs.len()
        &&& after.block_records@.drop_last() == recs.remove(i)
        &&& renamed_record(recs[i], after.block_records@.last(), new)
        &&& after.entities@.len() == self.entities@.len()
        &&& forall|k: int|
            0 <= k < self.entities@.len() ==> renamed_entity(
                #[trigger] self.entities@[k],
                after.entities@[k],
                marker,
                old,
                new,
            )
    }
}

/// The record found under `name` is the only one with that key.
proof fn lemma_block_index_unique(d: Drawing, name: Seq<char>, i: int)
    requires
        d.wf(),
        0 <= i < d.block_records@.len(),
        table_key(d.block_records@[i].name@) == table_key(name),
    ensures
        has_block(d.block_records@, name),
        block_index(d.block_records@, name) == i,
{
    let recs = d.block_records@;
    assert(has_block(recs, name));
    let c = block_index(recs, name);
    if c != i {
        if c < i {
            assert(table_key(recs[c].name@) != table_key(recs[i].name@));
        } else {
            assert(table_key(recs[i].name@) != table_key(recs[c].name@));
        }
    }
}

/// Moving record `i` to the end under a name no record's key matches keeps
/// the keys distinct.
proof fn lemma_renamed_keys_distinct(
    recs: Seq<BlockRecordEntry>,
    i: int,
    out: Seq<BlockRecordEntry>,
    new_name: Seq<char>,
)
    requires
        0 <= i < recs.len(),
        forall|a: int, b: int|
            0 <= a < b < recs.len() ==> table_key(#[trigger] recs[a].name@) != table_key(
                #[trigger] recs[b].name@,
            ),
        out.len() == recs.len(),
        out.drop_last() == recs.remove(i),
        out.last().name@ == new_name,
        forall|m: int| 0 <= m < recs.len() ==> table_key(#[trigger] recs[m].name@) != table_key(new_name),
    ensures
        forall|a: int, b: int|
            0 <= a < b < out.len() ==> table_key(#[trigger] out[a].name@) != table_key(
                #[trigger] out[b].name@,
            ),
{
    assert forall|a: int, b: int| 0 <= a < b < out.len() implies table_key(
        #[trigger] out[a].name@,
    ) != table_key(#[trigger] out[b].name@) by {
        let last = out.len() - 1;
        let ia = if a < i { a } else { a + 1 };
        assert(out[a] == out.drop_last()[a]);
        assert(out.drop_last()[a] == recs[ia]);
        if b == last {
            assert(table_key(recs[ia].name@) != table_key(new_name));
        } else {
            let ib = if b < i { b } else { b + 1 };
            assert(out[b] == out.drop_last()[b]);
            assert(out.drop_last()[b] == recs[ib]);
            assert(table_key(recs[ia].name@) != table_key(recs[ib].name@));
        }
    }
}

fn model_space_name(name: &str) -> (r: bool)
    ensures
        r == is_model_space_name(name@),
{
    eq_ignore_ascii_case(name, "*Model_Space")
}

fn paper_space_name(name: &str) -> (r: bool)
    ensures
        r == is_paper_space_name(name@),
{
    if name.unicode_len() < 12 {
        return false;
    }
    let prefix = name.substring_char(0, 12);
    proof {
        assert(name@.subrange(0, 12) =~= name@.take(12));
    }
    eq_ignore_ascii_case(prefix, "*Paper_Space")
}

fn custom_record(e: &BlockRecordEntry) -> (r: bool)
    ensures
        r == is_custom_record(*e),
{
    if e.layout != 0 {
        return false;
    }
    !(model_space_name(e.name.as_str()) || paper_space_name(e.name.as_str()))
}

fn contains_char(s: &str, c: char) -> (r: bool)
    ensures
        r == s@.contains(c),
{
    let n = s.unicode_len();
    let mut i: usize = 0;
    while i < n
        invariant
            n == s@.len(),
            i <= n,
            forall|j: int| 0 <= j < i ==> s@[j] != c,
        decreases n - i,
    {
        if s.get_char(i) == c {
            assert(s@[i as int] == c);
            return true;
        }
        i = i + 1;
    }
    false
}

fn starts_with_star(s: &str) -> (r: bool)
    ensures
        r == (s@.len() > 0 && s@[0] == '*'),
{
    s.unicode_len() > 0 && s.get_char(0) == '*'
}

fn anonymous_record(e: &BlockRecordEntry) -> (r: bool)
    ensures
        r == is_anonymous_record(*e),
{
    e.anonymous_flag || starts_with_star(e.name.as_str())
}

/// Whether `name` may name a new block: it holds something besides white
/// space, its first such character is not `*`, and it holds no `|`.
pub fn valid_block_name(name: &str) -> (r: bool)
    ensures
        r == valid_block_name_spec(name@),
{
    if contains_char(name, '|') {
        return false;
    }
    let n = name.unicode_len();
    let mut i: usize = 0;
    while i < n
        invariant
            n == name@.len(),
            i <= n,
            !name@.contains('|'),
            forall|j: int| 0 <= j < i ==> is_trimmed_space(#[trigger] name@[j]),
        decreases n - i,
    {
        let c = name.get_char(i);
        if !crate::text::trimmed_space(c) {
            proof {
                if c == '*' {
                    assert forall|k: int|
                        0 <= k < name@.len() && !is_trimmed_space(#[trigger] name@[k]) && name@[k]
                            != '*' implies exists|j: int|
                        0 <= j < k && !is_trimmed_space(#[trigger] name@[j]) by {
                        assert(!is_trimmed_space(name@[i as int]));
                        assert(k != i);
                        if k < i {
                            assert(is_trimmed_space(name@[k]));
                        }
                    }
                }
            }
            return c != '*';
        }
        i = i + 1;
    }
    false
}

impl Drawing {
    /// The drawing of a new document: the block table holds model space and
    /// then paper space, each belonging to a layout, and there are no
    /// entities.
    pub open spec fn is_new_document(self) -> bool {
        &&& self.block_records@.len() == 2
        &&& self.block_records@[0].name@ == "*Model_Space"@
        &&& self.block_records@[1].name@ == "*Paper_Space"@
        &&& self.block_records@[0].layout != 0
        &&& self.block_records@[1].layout != 0
        &&& self.entities@.len() == 0
    }

    /// The drawing of a new document: its standard block records, and no
    /// entities.
    pub fn new() -> (r: Self)
        ensures
            r.wf(),
            r.is_new_document(),
            r.entities@.len() == 0,
            custom_names(r.block_records@).len() == 0,
    {
        let block_records = standard_block_records();
        proof {
            let recs = block_records@;
            reveal_with_fuel(custom_names, 3);
            assert(recs.drop_last().drop_last() =~= Seq::<BlockRecordEntry>::empty());
        }
        Drawing { block_records, entities: Vec::new() }
    }

    /// The names of the user block definitions, in table order.
    pub fn custom_block_names(&self) -> (r: Vec<String>)
        ensures
            r@.map_values(|s: String| s@) == custom_names(self.block_records@),
    {
        let mut out: Vec<String> = Vec::new();
        let n = self.block_records.len();
        let mut i: usize = 0;
        while i < n
            invariant
                n == self.block_records@.len(),
                i <= n,
                out@.map_values(|s: String| s@) == custom_names(self.block_records@.take(i as int)),
            decreases n - i,
        {
            let e = &self.block_records[i];
            proof {
                assert(self.block_records@.take(i + 1).drop_last() =~= self.block_records@.take(
                    i as int,
                ));
            }
            if custom_record(e) {
                out.push(e.name.clone());
            }
            assert(out@.map_values(|s: String| s@) =~= custom_names(
                self.block_records@.take(i + 1),
            ));
            i = i + 1;
        }
        assert(self.block_records@.take(n as int) =~= self.block_records@);
        out
    }

    /// The record `old_name` finds takes the name `new_name`: its begin marker
    /// and every reference to the old name follow. Refused (nothing changes)
    /// when `new_name` is no valid block name, equals `old_name` up to ASCII
    /// case, is already found in the table, or when `old_name` finds no
    /// record or one that is anonymous or an external reference.
    pub fn rename_block(&mut self, old_name: &str, new_name: &str) -> (r: bool)
        requires
            old(self).wf(),
        ensures
            r == rename_accepted(*old(self), old_name@, new_name@),
            r ==> old(self).renamed(*final(self), old_name@, new_name@),
            !r ==> *final(self) == *old(self),
            final(self).wf(),
    {
        if !valid_block_name(new_name) {
            return false;
        }
        if eq_ignore_ascii_case(old_name, new_name) {
            return false;
        }
        if self.find_block(new_name).is_some() {
            return false;
        }
        let i = match self.find_block(old_name) {
            None => {
                return false;
            },
            Some(i) => i,
        };
        if anonymous_record(&self.block_records[i]) || self.block_records[i].xref || contains_char(
            self.block_records[i].name.as_str(),
            '|',
        ) {
            return false;
        }
        let ghost recs = self.block_records@;
        let ghost ents = self.entities@;
        let mut br = self.block_records.remove(i);
        let marker = br.block_entity_handle;
        br.name = new_name.to_owned();
        self.block_records.push(br);
        proof {
            assert(self.block_records@.drop_last() =~= recs.remove(i as int));
            assert forall|m: int| 0 <= m < recs.len() implies table_key(#[trigger] recs[m].name@)
                != table_key(new_name@) by {
                if table_key(recs[m].name@) == table_key(new_name@) {
                    assert(has_block(recs, new_name@));
                }
            }
            lemma_renamed_keys_distinct(recs, i as int, self.block_records@, new_name@);
        }
        let ghost recs2 = self.block_records@;
        let n = self.entities.len();
        let mut k: usize = 0;
        while k < n
            invariant
                self.block_records@ == recs2,
                i < recs.len(),
                n == self.entities@.len(),
                n == ents.len(),
                k <= n,
                marker == recs[i as int].block_entity_handle,
                forall|j: int|
                    0 <= j < k ==> renamed_entity(
                        #[trigger] ents[j],
                        self.entities@[j],
                        marker,
                        old_name@,
                        new_name@,
                    ),
                forall|j: int| k <= j < n ==> #[trigger] self.entities@[j] == ents[j],
                forall|j: int|
                    0 <= j < n ==> (#[trigger] self.entities@[j]).handle_of() == ents[j].handle_of(),
            decreases n - k,
        {
            let replacement: Option<DrawingEntity> = match &self.entities[k] {
                DrawingEntity::BlockBegin { handle, .. } => {
                    if *handle == marker {
                        Some(DrawingEntity::BlockBegin { handle: *handle, name: new_name.to_owned() })
                    } else {
                        None
                    }
                },
                DrawingEntity::Insert { handle, block_name } => {
                    if eq_ignore_ascii_case(block_name.as_str(), old_name) {
                        Some(
                            DrawingEntity::Insert {
                                handle: *handle,
                                block_name: new_name.to_owned(),
                            },
                        )
                    } else {
                        None
                    }
                },
                _ => None,
            };
            if let Some(x) = replacement {
                self.entities.set(k, x);
            }
            k = k + 1;
        }
        proof {
            assert forall|a: int, b: int|
                0 <= a < b < self.entities@.len() implies (#[trigger] self.entities@[a]).handle_of()
                != (#[trigger] self.entities@[b]).handle_of() by {
                assert(ents[a].handle_of() != ents[b].handle_of());
            }
        }
        true
    }

    /// The position of the record found under `name`.
    pub fn find_block(&self, name: &str) -> (r: Option<usize>)
        requires
            self.wf(),
        ensures
            r is None <==> !has_block(self.block_records@, name@),
            r matches Some(i) ==> i == block_index(self.block_records@, name@) && i
                < self.block_records@.len(),
    {
        let key = key_of(name);
        let n = self.block_records.len();
        let mut i: usize = 0;
        while i < n
            invariant
                self.wf(),
                n == self.block_records@.len(),
                i <= n,
                key@ == table_key(name@),
                forall|j: int|
                    0 <= j < i ==> table_key(#[trigger] self.block_records@[j].name@) != key@,
            decreases n - i,
        {
            let k = key_of(self.block_records[i].name.as_str());
            if crate::text::str_equal(k.as_str(), key.as_str()) {
                proof {
                    lemma_block_index_unique(*self, name@, i as int);
                }
                return Some(i);
            }
            i = i + 1;
        }
        None
    }
}

impl Drawing {
    fn record_index_with_handle(&self, h: u64) -> (r: Option<usize>)
        ensures
            r is None <==> record_with_handle(self.block_records@, h) is None,
            r matches Some(i) ==> record_with_handle(self.block_records@, h) == Some(i as int) && i < self.block_records@.len(),
    {
        let mut i: usize = 0;
        while i < self.block_records.len()
            invariant
                i <= self.block_records@.len(),
                forall|j: int| 0 <= j < i ==> #[trigger] self.block_records@[j].handle != h,
            decreases self.block_records@.len() - i,
        {
            if self.block_records[i].handle == h {
                proof {
                    let recs = self.block_records@;
                    let c = choose|c: int|
                        0 <= c < recs.len() && #[trigger] recs[c].handle == h && forall|j: int|
                            0 <= j < c ==> #[trigger] recs[j].handle != h;
                    assert(recs[i as int].handle == h);
                    if c < i {
                    } else if c > i {
                        assert(recs[i as int].handle != h);
                    }
                }
                return Some(i);
            }
            i = i + 1;
        }
        None
    }

    fn record_index_named(&self, name: &str) -> (r: Option<usize>)
        ensures
            r is None <==> record_named(self.block_records@, name@) is None,
            r matches Some(i) ==> record_named(self.block_records@, name@) == Some(i as int) && i < self.block_records@.len(),
    {
        let mut i: usize = 0;
        while i < self.block_records.len()
            invariant
                i <= self.block_records@.len(),
                forall|j: int|
                    0 <= j < i ==> !eq_ignore_ascii_case_spec(
                        #[trigger] self.block_records@[j].name@,
                        name@,
                    ),
            decreases self.block_records@.len() - i,
        {
            if eq_ignore_ascii_case(self.block_records[i].name.as_str(), name) {
                proof {
                    let recs = self.block_records@;
                    let c = choose|c: int|
                        0 <= c < recs.len() && eq_ignore_ascii_case_spec(
                            #[trigger] recs[c].name@,
                            name@,
                        ) && forall|j: int|
                            0 <= j < c ==> !eq_ignore_ascii_case_spec(
                                #[trigger] recs[j].name@,
                                name@,
                            );
                    assert(eq_ignore_ascii_case_spec(recs[i as int].name@, name@));
                    if c < i {
                    } else if c > i {
                        assert(!eq_ignore_ascii_case_spec(recs[i as int].name@, name@));
                    }
                }
                return Some(i);
            }
            i = i + 1;
        }
        None
    }

    fn entity_index(&self, h: u64) -> (r: Option<usize>)
        ensures
            r is None <==> entity_with_handle(self.entities@, h) is None,
            r matches Some(i) ==> entity_with_handle(self.entities@, h) == Some(i as int) && i < self.entities@.len(),
    {
        let mut i: usize = 0;
        while i < self.entities.len()
            invariant
                i <= self.entities@.len(),
                forall|j: int| 0 <= j < i ==> (#[trigger] self.entities@[j]).handle_of() != h,
            decreases self.entities@.len() - i,
        {
            let here = match &self.entities[i] {
                DrawingEntity::BlockBegin { handle, .. } => *handle,
                DrawingEntity::Insert { handle, .. } => *handle,
                DrawingEntity::Dimension { handle, .. } => *handle,
                DrawingEntity::Text { handle, .. } => *handle,
                DrawingEntity::Hatch { handle, .. } => *handle,
                DrawingEntity::Solid { handle } => *handle,
                DrawingEntity::Image { handle } => *handle,
                DrawingEntity::Volume { handle, .. } => *handle,
                DrawingEntity::Other { handle } => *handle,
            };
            if here == h {
                proof {
                    let ents = self.entities@;
                    let c = choose|c: int|
                        0 <= c < ents.len() && (#[trigger] ents[c]).handle_of() == h && forall|
                            j: int,
                        | 0 <= j < c ==> (#[trigger] ents[j]).handle_of() != h;
                    assert(ents[i as int].handle_of() == h);
                    if c < i {
                    } else if c > i {
                        assert(ents[i as int].handle_of() != h);
                    }
                }
                return Some(i);
            }
            i = i + 1;
        }
        None
    }

    /// The record whose entities member `h` drags along, if any.
    fn member_dependent_record(&self, h: u64) -> (r: Option<usize>)
        ensures
            match r {
                Some(j) => j < self.block_records@.len() && member_dependents(*self, h)
                    == self.block_records@[j as int].entity_handles@,
                None => member_dependents(*self, h) == Seq::<u64>::empty(),
            },
    {
        let e = match self.entity_index(h) {
            None => {
                return None;
            },
            Some(e) => e,
        };
        match &self.entities[e] {
            DrawingEntity::Dimension { block_name, .. } => {
                let name = trimmed(block_name.as_str());
                if name.unicode_len() == 0 {
                    return None;
                }
                self.record_index_named(name)
            },
            _ => None,
        }
    }

    /// The entities of anonymous dimension blocks that visually belong to
    /// dimensions inside block definition `block_record` (found by record
    /// handle): for each member dimension, in order, the entities of the
    /// first record named like its block (after trimming), leaving out the
    /// definition's own members and repeats. Empty when no record has that
    /// handle.
    #[verifier::rlimit(30)]
    pub fn block_definition_dependent_handles(&self, block_record: u64) -> (r: Vec<u64>)
        ensures
            r@ == dependent_handles(*self, block_record),
    {
        let ri = match self.record_index_with_handle(block_record) {
            None => {
                return Vec::new();
            },
            Some(ri) => ri,
        };
        let members = &self.block_records[ri].entity_handles;
        let ghost ms = members@;
        let mut out: Vec<u64> = Vec::new();
        let mut k: usize = 0;
        while k < members.len()
            invariant
                ms == members@,
                k <= ms.len(),
                out@ == fresh_handles(members_dependents(*self, ms.take(k as int)), ms),
            decreases ms.len() - k,
        {
            proof {
                lemma_members_dependents_step(*self, ms, k as int);
            }
            match self.member_dependent_record(members[k]) {
                Some(j) => {
                    extend_fresh(
                        &mut out,
                        &self.block_records[j].entity_handles,
                        members,
                        Ghost(members_dependents(*self, ms.take(k as int))),
                    );
                },
                None => {
                    proof {
                        let before = members_dependents(*self, ms.take(k as int));
                        assert(before + Seq::<u64>::empty() =~= before);
                    }
                },
            }
            k = k + 1;
        }
        proof {
            assert(ms.take(ms.len() as int) =~= ms);
        }
        out
    }
}

proof fn lemma_members_dependents_step(d: Drawing, ms: Seq<u64>, k: int)
    requires
        0 <= k < ms.len(),
    ensures
        members_dependents(d, ms.take(k + 1)) == members_dependents(d, ms.take(k))
            + member_dependents(d, ms[k]),
{
    assert(ms.take(k + 1).drop_last() =~= ms.take(k));
}

/// Appends to `out` the handles of `deps` that are neither excluded nor
/// already there.
impl Drawing {
    /// The handles whose state an undoable invalidation of dimension `h`'s
    /// drawn block must capture besides the dimension itself: the members of
    /// the block its name finds, then the block's begin and end markers.
    pub fn dimension_block_handles(&self, h: u64) -> (r: Vec<u64>)
        requires
            self.wf(),
        ensures
            r@ == dimension_block_handles_spec(*self, h),
    {
        let e = match self.entity_index(h) {
            None => {
                return Vec::new();
            },
            Some(e) => e,
        };
        match &self.entities[e] {
            DrawingEntity::Dimension { block_name, .. } => match self.find_block(block_name.as_str()) {
                Some(i) => {
                    let rec = &self.block_records[i];
                    let mut out: Vec<u64> = Vec::new();
                    let mut k: usize = 0;
                    while k < rec.entity_handles.len()
                        invariant
                            k <= rec.entity_handles@.len(),
                            out@ == rec.entity_handles@.take(k as int),
                        decreases rec.entity_handles@.len() - k,
                    {
                        out.push(rec.entity_handles[k]);
                        proof {
                            assert(rec.entity_handles@.take(k as int + 1) =~= rec.entity_handles@.take(
                                k as int,
                            ).push(rec.entity_handles@[k as int]));
                        }
                        k = k + 1;
                    }
                    proof {
                        assert(rec.entity_handles@.take(k as int) =~= rec.entity_handles@);
                    }
                    out.push(rec.block_entity_handle);
                    out.push(rec.block_end_handle);
                    out
                },
                None => Vec::new(),
            },
            _ => Vec::new(),
        }
    }
}

fn extend_fresh(out: &mut Vec<u64>, deps: &Vec<u64>, excluded: &Vec<u64>, Ghost(before): Ghost<Seq<u64>>)
    requires
        old(out)@ == fresh_handles(before, excluded@),
    ensures
        final(out)@ == fresh_handles(before + deps@, excluded@),
{
    let mut m: usize = 0;
    while m < deps.len()
        invariant
            m <= deps@.len(),
            out@ == fresh_handles(before + deps@.take(m as int), excluded@),
        decreases deps@.len() - m,
    {
        let x = deps[m];
        proof {
            let xs = before + deps@.take(m + 1);
            assert(xs.drop_last() =~= before + deps@.take(m as int));
            assert(xs.last() == x);
        }
        if !contains_handle(excluded, x) && !contains_handle(out, x) {
            out.push(x);
        }
        m = m + 1;
    }
    proof {
        assert(deps@.take(deps@.len() as int) =~= deps@);
    }
}

fn contains_handle(v: &Vec<u64>, x: u64) -> (r: bool)
    ensures
        r == v@.contains(x),
{
    let mut i: usize = 0;
    while i < v.len()
        invariant
            i <= v@.len(),
            forall|j: int| 0 <= j < i ==> v@[j] != x,
        decreases v@.len() - i,
    {
        if v[i] == x {
            assert(v@[i as int] == x);
            return true;
        }
        i = i + 1;
    }
    false
}

impl Drawing {
    /// Whether the drawing is well formed: no two records share a lookup
    /// key and no two entities share a handle.
    pub fn check_wf(&self) -> (r: bool)
        ensures
            r == self.wf(),
    {
        let n = self.block_records.len();
        let mut keys: Vec<String> = Vec::new();
        let mut i: usize = 0;
        while i < n
            invariant
                n == self.block_records@.len(),
                i <= n,
                keys@.len() == i,
                forall|j: int| 0 <= j < i ==> (#[trigger] keys@[j])@ == table_key(self.block_records@[j].name@),
            decreases n - i,
        {
            keys.push(key_of(self.block_records[i].name.as_str()));
            i = i + 1;
        }
        let mut a: usize = 0;
        while a < n
            invariant
                n == self.block_records@.len(),
                keys@.len() == n,
                forall|j: int| 0 <= j < n ==> (#[trigger] keys@[j])@ == table_key(self.block_records@[j].name@),
                a <= n,
                forall|x: int, y: int|
                    0 <= x < a && x < y < n ==> table_key(#[trigger] self.block_records@[x].name@)
                        != table_key(#[trigger] self.block_records@[y].name@),
            decreases n - a,
        {
            let mut b: usize = a + 1;
            while b < n
                invariant
                    n == self.block_records@.len(),
                    keys@.len() == n,
                    forall|j: int| 0 <= j < n ==> (#[trigger] keys@[j])@ == table_key(self.block_records@[j].name@),
                    a < n,
                    a < b <= n,
                    forall|x: int, y: int|
                        0 <= x < a && x < y < n ==> table_key(#[trigger] self.block_records@[x].name@)
                            != table_key(#[trigger] self.block_records@[y].name@),
                    forall|y: int| a < y < b ==> table_key(self.block_records@[a as int].name@)
                        != table_key(#[trigger] self.block_records@[y].name@),
                decreases n - b,
            {
                if crate::text::str_equal(keys[a].as_str(), keys[b].as_str()) {
                    assert(keys@[a as int]@ == keys@[b as int]@);
                    return false;
                }
                b = b + 1;
            }
            a = a + 1;
        }
        let m = self.entities.len();
        let mut handles: Vec<u64> = Vec::new();
        let mut i: usize = 0;
        while i < m
            invariant
                m == self.entities@.len(),
                i <= m,
                handles@.len() == i,
                forall|j: int| 0 <= j < i ==> handles@[j] == (#[trigger] self.entities@[j]).handle_of(),
            decreases m - i,
        {
            let h = match &self.entities[i] {
                DrawingEntity::BlockBegin { handle, .. } => *handle,
                DrawingEntity::Insert { handle, .. } => *handle,
                DrawingEntity::Dimension { handle, .. } => *handle,
                DrawingEntity::Text { handle, .. } => *handle,
                DrawingEntity::Hatch { handle, .. } => *handle,
                DrawingEntity::Solid { handle } => *handle,
                DrawingEntity::Image { handle } => *handle,
                DrawingEntity::Volume { handle, .. } => *handle,
                DrawingEntity::Other { handle } => *handle,
            };
            handles.push(h);
            i = i + 1;
        }
        let mut a: usize = 0;
        while a < m
            invariant
                m == self.entities@.len(),
                handles@.len() == m,
                forall|j: int| 0 <= j < m ==> handles@[j] == (#[trigger] self.entities@[j]).handle_of(),
                a <= m,
                forall|x: int, y: int|
                    0 <= x < a && x < y < m ==> (#[trigger] self.entities@[x]).handle_of() != (
                    #[trigger] self.entities@[y]).handle_of(),
                forall|x: int, y: int|
                    0 <= x < y < self.block_records@.len() ==> table_key(
                        #[trigger] self.block_records@[x].name@,
                    ) != table_key(#[trigger] self.block_records@[y].name@),
            decreases m - a,
        {
            let mut b: usize = a + 1;
            while b < m
                invariant
                    m == self.entities@.len(),
                    handles@.len() == m,
                    forall|j: int| 0 <= j < m ==> handles@[j] == (#[trigger] self.entities@[j]).handle_of(),
                    a < m,
                    a < b <= m,
                    forall|x: int, y: int|
                        0 <= x < a && x < y < m ==> (#[trigger] self.entities@[x]).handle_of() != (
                        #[trigger] self.entities@[y]).handle_of(),
                    forall|y: int| a < y < b ==> self.entities@[a as int].handle_of() != (
                    #[trigger] self.entities@[y]).handle_of(),
                decreases m - b,
            {
                if handles[a] == handles[b] {
                    assert(self.entities@[a as int].handle_of() == self.entities@[b as int].handle_of());
                    return false;
                }
                b = b + 1;
            }
            a = a + 1;
        }
        true
    }
}

/// Why a name cannot name a new block.
#[derive(Clone, Debug)]
pub enum BlockNameError {
    /// Nothing but white space.
    Empty,
    /// Starts with `*`, which marks anonymous blocks.
    Anonymous,
    /// The table already finds a block under this (trimmed) name.
    Exists(String),
}

impl Drawing {
    /// The name a new block defined as `name` takes: `name` trimmed, when
    /// that is not empty, does not start with `*`, and finds no block yet.
    pub fn new_block_name(&self, name: &str) -> (r: Result<String, BlockNameError>)
        requires
            self.wf(),
        ensures
            match r {
                Ok(n) => {
                    &&& n@ == spec_trim(name@)
                    &&& spec_trim(name@).len() > 0
                    &&& spec_trim(name@)[0] != '*'
                    &&& !has_block(self.block_records@, spec_trim(name@))
                },
                Err(BlockNameError::Empty) => spec_trim(name@).len() == 0,
                Err(BlockNameError::Anonymous) => spec_trim(name@).len() > 0 && spec_trim(name@)[0]
                    == '*',
                Err(BlockNameError::Exists(n)) => {
                    &&& n@ == spec_trim(name@)
                    &&& spec_trim(name@).len() > 0
                    &&& spec_trim(name@)[0] != '*'
                    &&& has_block(self.block_records@, spec_trim(name@))
                },
            },
    {
        let t = trimmed(name);
        if t.unicode_len() == 0 {
            return Err(BlockNameError::Empty);
        }
        if t.get_char(0) == '*' {
            return Err(BlockNameError::Anonymous);
        }
        if self.find_block(t).is_some() {
            return Err(BlockNameError::Exists(t.to_owned()));
        }
        Ok(t.to_owned())
    }
}

/// The name of anonymous dimension block number `n`: `*D` and `n` in decimal.
pub open spec fn dimension_block_name(n: nat) -> Seq<char> {
    seq!['*', 'D'] + decimal(n)
}

fn dimension_block_candidate(n: usize) -> (r: String)
    ensures
        r@ == dimension_block_name(n as nat),
{
    let mut s = String::new();
    push_char(&mut s, '*');
    push_char(&mut s, 'D');
    push_decimal(&mut s, n as u128);
    proof {
        assert(s@ =~= dimension_block_name(n as nat));
    }
    s
}

/// Of `n + 1` distinct names whose keys are themselves and which the
/// table all finds, no two can be found in one record, so the table holds
/// more than `n` records.
proof fn lemma_taken_names_fit(recs: Seq<BlockRecordEntry>, n: nat)
    requires
        forall|m: nat| m <= n ==> has_block(recs, #[trigger] dimension_block_name(m)),
        forall|m: nat|
            m <= n ==> table_key(#[trigger] dimension_block_name(m)) == dimension_block_name(m),
    ensures
        n < recs.len(),
{
    let keys = recs.map_values(|r: BlockRecordEntry| table_key(r.name@));
    let cand = |m: nat| dimension_block_name(m);
    assert forall|a: nat, b: nat| a <= n && b <= n && #[trigger] cand(a) == #[trigger] cand(b) implies a
        == b by {
        assert(dimension_block_name(a).skip(2) =~= decimal(a));
        assert(dimension_block_name(b).skip(2) =~= decimal(b));
        lemma_decimal_injective(a, b);
    }
    assert forall|m: nat| m <= n implies keys.contains(#[trigger] cand(m)) by {
        assert(has_block(recs, dimension_block_name(m)));
        let i = choose|i: int|
            0 <= i < recs.len() && table_key(#[trigger] recs[i].name@) == table_key(dimension_block_name(m));
        assert(keys[i] == cand(m));
    }
    lemma_distinct_candidates_fit(keys, cand, n + 1);
}

impl Drawing {
    /// Some record of the table is stored under `key`.
    fn key_taken(&self, key: &str) -> (r: bool)
        ensures
            r <==> exists|i: int|
                0 <= i < self.block_records@.len() && table_key(
                    #[trigger] self.block_records@[i].name@,
                ) == key@,
    {
        let n = self.block_records.len();
        let mut i: usize = 0;
        while i < n
            invariant
                n == self.block_records@.len(),
                i <= n,
                forall|j: int|
                    0 <= j < i ==> table_key(#[trigger] self.block_records@[j].name@) != key@,
            decreases n - i,
        {
            let k = key_of(self.block_records[i].name.as_str());
            if crate::text::str_equal(k.as_str(), key) {
                return true;
            }
            i = i + 1;
        }
        false
    }

    /// The name for a new anonymous dimension block: `*D` followed by the
    /// smallest number, in decimal, under whose name the table finds no
    /// block yet.
    pub fn free_dimension_block_name(&self) -> (r: String)
        ensures
            exists|n: nat|
                {
                    &&& r@ == dimension_block_name(n)
                    &&& !has_block(self.block_records@, dimension_block_name(n))
                    &&& forall|m: nat|
                        m < n ==> has_block(self.block_records@, #[trigger] dimension_block_name(m))
                },
    {
        let len = self.block_records.len();
        let mut n: usize = 0;
        loop
            invariant
                len == self.block_records@.len(),
                n <= len,
                forall|m: nat|
                    m < n ==> has_block(self.block_records@, #[trigger] dimension_block_name(m)),
                forall|m: nat|
                    m < n ==> table_key(#[trigger] dimension_block_name(m)) == dimension_block_name(m),
            decreases len - n,
        {
            let cand = dimension_block_candidate(n);
            let key = key_of(cand.as_str());
            proof {
                lemma_decimal_chars(n as nat);
                assert forall|i: int| 0 <= i < cand@.len() implies key@[i] == cand@[i] by {
                    if i >= 2 {
                        assert(cand@[i] == decimal(n as nat)[i - 2]);
                    }
                }
                assert(key@ =~= cand@);
            }
            if !self.key_taken(key.as_str()) {
                return cand;
            }
            proof {
                assert(has_block(self.block_records@, dimension_block_name(n as nat)));
                lemma_taken_names_fit(self.block_records@, n as nat);
            }
            n = n + 1;
        }
    }
}

/// The hatches and two-dimensional solids of `ents`, in order: what the
/// fill cache is built from.
pub open spec fn fill_source_handles(ents: Seq<DrawingEntity>) -> Seq<u64>
    decreases ents.len(),
{
    if ents.len() == 0 {
        Seq::empty()
    } else {
        let rest = fill_source_handles(ents.drop_last());
        match ents.last() {
            DrawingEntity::Hatch { handle, .. } => rest.push(handle),
            DrawingEntity::Solid { handle } => rest.push(handle),
            _ => rest,
        }
    }
}

/// The raster images of `ents`, in order: what the image cache is built from.
pub open spec fn image_source_handles(ents: Seq<DrawingEntity>) -> Seq<u64>
    decreases ents.len(),
{
    if ents.len() == 0 {
        Seq::empty()
    } else {
        let rest = image_source_handles(ents.drop_last());
        match ents.last() {
            DrawingEntity::Image { handle } => rest.push(handle),
            _ => rest,
        }
    }
}

/// The volumetric entities of `ents` to tessellate, in order, each with
/// whether it lies at top level (its owner is one of `layout_blocks`) rather
/// than inside a block definition. An incremental pass leaves out those
/// already in `cached`.
pub open spec fn mesh_source_entries(
    ents: Seq<DrawingEntity>,
    layout_blocks: Seq<u64>,
    cached: Seq<u64>,
    incremental: bool,
) -> Seq<(u64, bool)>
    decreases ents.len(),
{
    if ents.len() == 0 {
        Seq::empty()
    } else {
        let rest = mesh_source_entries(ents.drop_last(), layout_blocks, cached, incremental);
        match ents.last() {
            DrawingEntity::Volume { handle, owner } => {
                if incremental && cached.contains(handle) {
                    rest
                } else {
                    rest.push((handle, layout_blocks.contains(owner)))
                }
            },
            _ => rest,
        }
    }
}

impl Drawing {
    /// The handles of the hatches and two-dimensional solids, in entity
    /// order: the entities a rebuild of the fill cache draws from.
    pub fn fill_sources(&self) -> (r: Vec<u64>)
        ensures
            r@ == fill_source_handles(self.entities@),
    {
        let mut out: Vec<u64> = Vec::new();
        let mut i: usize = 0;
        while i < self.entities.len()
            invariant
                i <= self.entities@.len(),
                out@ == fill_source_handles(self.entities@.take(i as int)),
            decreases self.entities@.len() - i,
        {
            proof {
                assert(self.entities@.take(i as int + 1).drop_last() =~= self.entities@.take(i as int));
            }
            match &self.entities[i] {
                DrawingEntity::Hatch { handle, .. } => out.push(*handle),
                DrawingEntity::Solid { handle } => out.push(*handle),
                _ => {},
            }
            i = i + 1;
        }
        assert(self.entities@.take(i as int) =~= self.entities@);
        out
    }

    /// The handles of the raster images, in entity order: the entities a
    /// rebuild of the image cache draws from.
    pub fn image_sources(&self) -> (r: Vec<u64>)
        ensures
            r@ == image_source_handles(self.entities@),
    {
        let mut out: Vec<u64> = Vec::new();
        let mut i: usize = 0;
        while i < self.entities.len()
            invariant
                i <= self.entities@.len(),
                out@ == image_source_handles(self.entities@.take(i as int)),
            decreases self.entities@.len() - i,
        {
            proof {
                assert(self.entities@.take(i as int + 1).drop_last() =~= self.entities@.take(i as int));
            }
            if let DrawingEntity::Image { handle } = &self.entities[i] {
                out.push(*handle);
            }
            i = i + 1;
        }
        assert(self.entities@.take(i as int) =~= self.entities@);
        out
    }

    /// The volumetric entities a mesh-cache pass tessellates, in entity
    /// order, each with whether it is drawn at top level (owned by one of
    /// the layout block records `layout_blocks`) or instanced from a block
    /// definition. An incremental pass skips the handles in `cached`; a full
    /// pass takes every one.
    pub fn mesh_sources(&self, layout_blocks: &Vec<u64>, cached: &Vec<u64>, incremental: bool) -> (r: Vec<(u64, bool)>)
        ensures
            r@ == mesh_source_entries(self.entities@, layout_blocks@, cached@, incremental),
    {
        let mut out: Vec<(u64, bool)> = Vec::new();
        let mut i: usize = 0;
        while i < self.entities.len()
            invariant
                i <= self.entities@.len(),
                out@ == mesh_source_entries(self.entities@.take(i as int), layout_blocks@, cached@, incremental),
            decreases self.entities@.len() - i,
        {
            proof {
                assert(self.entities@.take(i as int + 1).drop_last() =~= self.entities@.take(i as int));
            }
            if let DrawingEntity::Volume { handle, owner } = &self.entities[i] {
                if !(incremental && contains_handle(cached, *handle)) {
                    out.push((*handle, contains_handle(layout_blocks, *owner)));
                }
            }
            i = i + 1;
        }
        assert(self.entities@.take(i as int) =~= self.entities@);
        out
    }
}

} // verus!
