//! Proxy entity graphics: the cached vector preview an application stores
//! alongside a custom entity so viewers without its object enabler can still
//! draw something.
//!
//! Blob grammar (all little-endian):
//! ```text
//! u32 total_size        (== blob length)
//! u32 record_count
//! record_count × {
//!     u32 record_size   (bytes, including this 8-byte header)
//!     u32 record_type
//!     u8[record_size-8] data
//! }
//! ```
//! Record types decoded here:
//! * 6 poly-line / 7 poly-gon: `u32 point_count`, then `[f64;3] × point_count`
//!   (type 7 closes back to the first point).
//! * 4 / 5 circular arc: `[f64;3] centre`, `f64 radius`, `[f64;3] normal`,
//!   `[f64;3] start_dir`, `f64 sweep` (radians), then a trailing flag.
//! * 14 colour trait: `u32` AutoCAD Color Index for the primitives that follow.
//!
//! Coordinates are carried as the raw IEEE-754 bit patterns read from the
//! blob; every validity test on them (finite, magnitude bound, positive
//! radius) is an integer test on those bits. Flattening an arc into points
//! needs trigonometry and is left to the caller.

use vstd::prelude::*;

verus! {

/// AutoCAD Color Index meaning "inherit from the layer": the colour in force
/// until a colour trait says otherwise.
pub const COLOR_BYLAYER: i32 = 256;

pub const REC_ARC: u32 = 4;

pub const REC_ARC5: u32 = 5;

pub const REC_POLYLINE: u32 = 6;

pub const REC_POLYGON: u32 = 7;

/// Trait record that sets the current colour (ACI) for following primitives.
pub const REC_COLOR: u32 = 14;

/// A blob announcing more records than this is not a layout the decoder models.
pub const MAX_RECORDS: u32 = 1_000_000;

/// Clears the sign bit of an `f64` bit pattern, leaving its magnitude.
pub const MAGNITUDE_MASK: u64 = 0x7FFF_FFFF_FFFF_FFFF;

/// The exponent field of an `f64`; all ones means infinity or NaN.
pub const EXPONENT_MASK: u64 = 0x7FF0_0000_0000_0000;

/// Bit pattern of `1.0e12`, the largest coordinate magnitude accepted
/// (exclusive). For non-negative doubles the bit order is the value order,
/// and every infinity or NaN pattern lies above it.
pub const COORD_LIMIT_BITS: u64 = 0x426D_1A94_A200_0000;

/// Bit pattern of `1.0e9`, the largest arc radius accepted (inclusive).
pub const RADIUS_LIMIT_BITS: u64 = 0x41CD_CD65_0000_0000;

/// A point as three `f64` bit patterns (x, y, z).
#[derive(Clone, Copy, Debug, PartialEq, Eq)]
pub struct Point3Bits {
    pub x: u64,
    pub y: u64,
    pub z: u64,
}

/// One geometry record of a proxy-graphics blob, with the colour in force
/// when it was emitted.
#[derive(Debug)]
pub enum ProxyPrimitive {
    /// A poly-line; a poly-gon arrives already closed back to its first point.
    Polyline { points: Vec<Point3Bits>, color: i32 },
    /// A circular arc: centre, radius, plane normal (its Z sign gives the
    /// sweep direction), start direction and signed sweep in radians.
    Arc {
        center: Point3Bits,
        radius: u64,
        normal: Point3Bits,
        start_dir: Point3Bits,
        sweep: u64,
        color: i32,
    },
}

/// Mathematical value of a [`ProxyPrimitive`].
pub ghost enum PrimitiveView {
    Polyline { points: Seq<Point3Bits>, color: i32 },
    Arc {
        center: Point3Bits,
        radius: u64,
        normal: Point3Bits,
        start_dir: Point3Bits,
        sweep: u64,
        color: i32,
    },
}

impl View for ProxyPrimitive {
    type V = PrimitiveView;

    open spec fn view(&self) -> PrimitiveView {
        match self {
            ProxyPrimitive::Polyline { points, color } => PrimitiveView::Polyline {
                points: points@,
                color: *color,
            },
            ProxyPrimitive::Arc { center, radius, normal, start_dir, sweep, color } =>
                PrimitiveView::Arc {
                center: *center,
                radius: *radius,
                normal: *normal,
                start_dir: *start_dir,
                sweep: *sweep,
                color: *color,
            },
        }
    }
}

pub open spec fn views(v: Seq<ProxyPrimitive>) -> Seq<PrimitiveView> {
    v.map_values(|p: ProxyPrimitive| p@)
}

/// Three accepted coordinates.
pub open spec fn point_ok(p: Point3Bits) -> bool {
    coord_ok(p.x) && coord_ok(p.y) && coord_ok(p.z)
}

/// A primitive the decoder may emit: a poly-line of at least two accepted
/// points, or an arc with accepted points, an accepted radius and a finite
/// sweep.
pub open spec fn primitive_ok(p: PrimitiveView) -> bool {
    match p {
        PrimitiveView::Polyline { points, .. } => points.len() >= 2 && forall|i: int|
            0 <= i < points.len() ==> point_ok(#[trigger] points[i]),
        PrimitiveView::Arc { center, radius, normal, start_dir, sweep, .. } => point_ok(center)
            && point_ok(normal) && point_ok(start_dir) && radius_ok(radius) && finite_bits(sweep),
    }
}

proof fn lemma_pt3_ok(b: Seq<u8>, o: int)
    requires
        spec_pt3_at(b, o) is Some,
    ensures
        point_ok(spec_pt3_at(b, o)->0),
{
}

proof fn lemma_record_ok(b: Seq<u8>, pos: int, rsize: int, rtype: u32, color: i32)
    ensures
        forall|i: int|
            0 <= i < spec_record(b, pos, rsize, rtype, color).len() ==> primitive_ok(
                #[trigger] spec_record(b, pos, rsize, rtype, color)[i],
            ),
{
    if rtype == REC_POLYLINE || rtype == REC_POLYGON {
        if let Some(n) = spec_u32_at(b, pos + 8) {
            if n >= 2 && 12 + n * 24 <= rsize && points_ok(b, pos + 12, n as int) {
                let pts = spec_points(b, pos + 12, n as int);
                assert forall|i: int| 0 <= i < pts.len() implies point_ok(#[trigger] pts[i]) by {
                    assert(spec_pt3_at(b, pos + 12 + 24 * i) is Some);
                    lemma_pt3_ok(b, pos + 12 + 24 * i);
                }
                let closed = pts.push(pts[0]);
                assert forall|i: int| 0 <= i < closed.len() implies point_ok(#[trigger] closed[i]) by {
                    if i < pts.len() {
                        assert(closed[i] == pts[i]);
                    } else {
                        assert(closed[i] == pts[0]);
                    }
                }
            }
        }
    } else if rtype == REC_ARC || rtype == REC_ARC5 {
        if let Some(p) = spec_decode_arc(b, pos, color) {
            lemma_pt3_ok(b, pos + 8);
            lemma_pt3_ok(b, pos + 40);
            lemma_pt3_ok(b, pos + 64);
        }
    }
}

proof fn lemma_records_ok(b: Seq<u8>, total: int, pos: int, remaining: nat, color: i32)
    ensures
        spec_records(b, total, pos, remaining, color) matches Some(ps) ==> forall|i: int|
            0 <= i < ps.len() ==> primitive_ok(#[trigger] ps[i]),
    decreases remaining,
{
    if remaining > 0 {
        if let (Some(rsize), Some(rtype)) = (spec_u32_at(b, pos), spec_u32_at(b, pos + 4)) {
            if !(rsize < 8 || pos + rsize > total) {
                if rtype == REC_COLOR {
                    let next_color = match spec_u32_at(b, pos + 8) {
                        Some(c) => c as i32,
                        None => color,
                    };
                    lemma_records_ok(b, total, pos + rsize, (remaining - 1) as nat, next_color);
                } else {
                    let head = spec_record(b, pos, rsize as int, rtype, color);
                    lemma_record_ok(b, pos, rsize as int, rtype, color);
                    lemma_records_ok(b, total, pos + rsize, (remaining - 1) as nat, color);
                    if let Some(tail) = spec_records(b, total, pos + rsize, (remaining - 1) as nat, color) {
                        let all = head + tail;
                        assert forall|i: int| 0 <= i < all.len() implies primitive_ok(#[trigger] all[i]) by {
                            if i < head.len() {
                                assert(all[i] == head[i]);
                            } else {
                                assert(all[i] == tail[i - head.len()]);
                            }
                        }
                    }
                }
            }
        }
    }
}

/// The decoder never invents a shape: every primitive it returns is a
/// poly-line of at least two accepted points, or an arc with accepted
/// points, an accepted radius and a finite sweep.
pub proof fn lemma_decoded_primitives_ok(b: Seq<u8>)
    ensures
        forall|i: int| 0 <= i < spec_decode(b).len() ==> primitive_ok(#[trigger] spec_decode(b)[i]),
{
    if let Some(total) = spec_u32_at(b, 0) {
        if !(total > b.len() || total < 8) {
            let count = match spec_u32_at(b, 4) {
                Some(c) => c,
                None => 0,
            };
            lemma_records_ok(b, total as int, 8, count as nat, COLOR_BYLAYER);
        }
    }
}

/// A blob whose size field is missing, larger than the blob or smaller than
/// the header decodes to nothing.
pub proof fn lemma_malformed_header_decodes_to_nothing(b: Seq<u8>)
    requires
        match spec_u32_at(b, 0) {
            Some(total) => total > b.len() || total < 8,
            None => true,
        },
    ensures
        spec_decode(b).len() == 0,
{
}

/// The little-endian `u32` whose first byte is `b[o]`.
pub open spec fn le_u32(b: Seq<u8>, o: int) -> u32 {
    (b[o] as int + b[o + 1] as int * 0x100 + b[o + 2] as int * 0x1_0000 + b[o + 3] as int
        * 0x100_0000) as u32
}

/// The little-endian `u64` whose first byte is `b[o]`.
pub open spec fn le_u64(b: Seq<u8>, o: int) -> u64 {
    (b[o] as int + b[o + 1] as int * 0x100 + b[o + 2] as int * 0x1_0000 + b[o + 3] as int
        * 0x100_0000 + b[o + 4] as int * 0x1_0000_0000 + b[o + 5] as int * 0x100_0000_0000
        + b[o + 6] as int * 0x1_0000_0000_0000 + b[o + 7] as int * 0x100_0000_0000_0000) as u64
}

/// The `u32` stored at byte offset `o`, when four bytes are there.
pub open spec fn spec_u32_at(b: Seq<u8>, o: int) -> Option<u32> {
    if 0 <= o && o + 4 <= b.len() {
        Some(le_u32(b, o))
    } else {
        None
    }
}

/// The `f64` bit pattern stored at byte offset `o`, when eight bytes are there.
pub open spec fn spec_f64_bits_at(b: Seq<u8>, o: int) -> Option<u64> {
    if 0 <= o && o + 8 <= b.len() {
        Some(le_u64(b, o))
    } else {
        None
    }
}

/// A coordinate the decoder accepts: finite, with magnitude below `1e12`.
pub open spec fn coord_ok(bits: u64) -> bool {
    bits & MAGNITUDE_MASK < COORD_LIMIT_BITS
}

/// A finite `f64` (neither infinity nor NaN).
pub open spec fn finite_bits(bits: u64) -> bool {
    bits & EXPONENT_MASK != EXPONENT_MASK
}

/// An arc radius the decoder accepts: finite, strictly positive, at most `1e9`.
pub open spec fn radius_ok(bits: u64) -> bool {
    0 < bits <= RADIUS_LIMIT_BITS
}

/// Three accepted coordinates stored from byte offset `o`.
pub open spec fn spec_pt3_at(b: Seq<u8>, o: int) -> Option<Point3Bits> {
    if 0 <= o && o + 24 <= b.len() && coord_ok(le_u64(b, o)) && coord_ok(le_u64(b, o + 8))
        && coord_ok(le_u64(b, o + 16)) {
        Some(Point3Bits { x: le_u64(b, o), y: le_u64(b, o + 8), z: le_u64(b, o + 16) })
    } else {
        None
    }
}

/// Every point of a poly-line record holding `n` points from byte `start`
/// is accepted.
pub open spec fn points_ok(b: Seq<u8>, start: int, n: int) -> bool {
    forall|i: int| 0 <= i < n ==> (#[trigger] spec_pt3_at(b, start + 24 * i)) is Some
}

/// The `n` points stored from byte `start`.
pub open spec fn spec_points(b: Seq<u8>, start: int, n: int) -> Seq<Point3Bits> {
    Seq::new(n as nat, |i: int| spec_pt3_at(b, start + 24 * i)->0)
}

/// The arc stored in the record at `pos`, when all its fields are present
/// and acceptable.
pub open spec fn spec_decode_arc(b: Seq<u8>, pos: int, color: i32) -> Option<PrimitiveView> {
    match (
        spec_pt3_at(b, pos + 8),
        spec_f64_bits_at(b, pos + 32),
        spec_pt3_at(b, pos + 40),
        spec_pt3_at(b, pos + 64),
        spec_f64_bits_at(b, pos + 88),
    ) {
        (Some(center), Some(radius), Some(normal), Some(start_dir), Some(sweep)) => {
            if radius_ok(radius) && finite_bits(sweep) {
                Some(
                    PrimitiveView::Arc {
                        center,
                        radius,
                        normal,
                        start_dir,
                        sweep,
                        color,
                    },
                )
            } else {
                None
            }
        },
        _ => None,
    }
}

/// What one non-colour record of size `rsize` at `pos` contributes: one
/// primitive, or nothing.
pub open spec fn spec_record(b: Seq<u8>, pos: int, rsize: int, rtype: u32, color: i32) -> Seq<
    PrimitiveView,
> {
    if rtype == REC_POLYLINE || rtype == REC_POLYGON {
        match spec_u32_at(b, pos + 8) {
            Some(n) => {
                if n >= 2 && 12 + n * 24 <= rsize && points_ok(b, pos + 12, n as int) {
                    let pts = spec_points(b, pos + 12, n as int);
                    let pts = if rtype == REC_POLYGON {
                        pts.push(pts[0])
                    } else {
                        pts
                    };
                    seq![PrimitiveView::Polyline { points: pts, color }]
                } else {
                    seq![]
                }
            },
            None => seq![],
        }
    } else if rtype == REC_ARC || rtype == REC_ARC5 {
        match spec_decode_arc(b, pos, color) {
            Some(p) => seq![p],
            None => seq![],
        }
    } else {
        seq![]
    }
}

/// `head` followed by the primitives of a walk, when the walk succeeded.
pub open spec fn prefixed(head: Seq<PrimitiveView>, walk: Option<Seq<PrimitiveView>>) -> Option<
    Seq<PrimitiveView>,
> {
    match walk {
        Some(rest) => Some(head + rest),
        None => None,
    }
}

/// The primitives of the `remaining` records that start at `pos`, within the
/// first `total` bytes, with `color` in force; `None` when one of those
/// records is malformed: its header is missing, its size is below the
/// header's, or it runs past `total`.
pub open spec fn spec_records(b: Seq<u8>, total: int, pos: int, remaining: nat, color: i32) -> Option<
    Seq<PrimitiveView>,
>
    decreases remaining,
{
    if remaining == 0 {
        Some(seq![])
    } else {
        match (spec_u32_at(b, pos), spec_u32_at(b, pos + 4)) {
            (Some(rsize), Some(rtype)) => {
                if rsize < 8 || pos + rsize > total {
                    None
                } else if rtype == REC_COLOR {
                    let next_color = match spec_u32_at(b, pos + 8) {
                        Some(c) => c as i32,
                        None => color,
                    };
                    spec_records(b, total, pos + rsize, (remaining - 1) as nat, next_color)
                } else {
                    prefixed(
                        spec_record(b, pos, rsize as int, rtype, color),
                        spec_records(b, total, pos + rsize, (remaining - 1) as nat, color),
                    )
                }
            },
            _ => None,
        }
    }
}

/// The primitives of a whole blob: empty when the size field is missing,
/// larger than the blob or smaller than the header, when the record count
/// exceeds [`MAX_RECORDS`], or when any of the announced records is
/// malformed.
pub open spec fn spec_decode(b: Seq<u8>) -> Seq<PrimitiveView> {
    match spec_u32_at(b, 0) {
        None => seq![],
        Some(total) => {
            if total > b.len() || total < 8 {
                seq![]
            } else {
                let count = match spec_u32_at(b, 4) {
                    Some(c) => c,
                    None => 0,
                };
                if count > MAX_RECORDS {
                    seq![]
                } else {
                    match spec_records(b, total as int, 8, count as nat, COLOR_BYLAYER) {
                        Some(ps) => ps,
                        None => seq![],
                    }
                }
            }
        },
    }
}

/// The colour a primitive carries.
pub open spec fn primitive_colour(p: PrimitiveView) -> i32 {
    match p {
        PrimitiveView::Polyline { color, .. } => color,
        PrimitiveView::Arc { color, .. } => color,
    }
}

/// The type field of the record that starts at `pos`.
pub open spec fn record_type_at(b: Seq<u8>, pos: int) -> u32 {
    match spec_u32_at(b, pos + 4) {
        Some(t) => t,
        None => 0,
    }
}

/// The start positions of the `remaining` records from `pos`, within the
/// first `total` bytes; `None` when one of them is malformed (its header is
/// missing, its size is below the header's, or it runs past `total`).
pub open spec fn record_starts(b: Seq<u8>, total: int, pos: int, remaining: nat) -> Option<Seq<int>>
    decreases remaining,
{
    if remaining == 0 {
        Some(seq![])
    } else {
        match (spec_u32_at(b, pos), spec_u32_at(b, pos + 4)) {
            (Some(rsize), Some(_)) => {
                if rsize < 8 || pos + rsize > total {
                    None
                } else {
                    match record_starts(b, total, pos + rsize, (remaining - 1) as nat) {
                        Some(rest) => Some(seq![pos] + rest),
                        None => None,
                    }
                }
            },
            _ => None,
        }
    }
}

/// The start positions of a blob's records; empty when its header or one of
/// its records is malformed.
pub open spec fn blob_record_starts(b: Seq<u8>) -> Seq<int> {
    match spec_u32_at(b, 0) {
        Some(total) => {
            let count = match spec_u32_at(b, 4) {
                Some(c) => c,
                None => 0,
            };
            if total > b.len() || total < 8 || count > MAX_RECORDS {
                seq![]
            } else {
                match record_starts(b, total as int, 8, count as nat) {
                    Some(starts) => starts,
                    None => seq![],
                }
            }
        },
        None => seq![],
    }
}

/// The colour in force after the first `k` records of `starts`, from
/// `colour`: each colour record with a value present sets it.
pub open spec fn colour_after(b: Seq<u8>, starts: Seq<int>, k: int, colour: i32) -> i32
    decreases k,
{
    if k <= 0 || starts.len() == 0 {
        colour
    } else {
        let p = starts[0];
        let next = if record_type_at(b, p) == REC_COLOR {
            match spec_u32_at(b, p + 8) {
                Some(c) => c as i32,
                None => colour,
            }
        } else {
            colour
        };
        colour_after(b, starts.drop_first(), k - 1, next)
    }
}

/// Every primitive a non-colour record yields carries the colour it is
/// handed.
pub proof fn lemma_record_colour(b: Seq<u8>, pos: int, rsize: int, rtype: u32, color: i32)
    ensures
        forall|i: int|
            0 <= i < spec_record(b, pos, rsize, rtype, color).len() ==> primitive_colour(
                #[trigger] spec_record(b, pos, rsize, rtype, color)[i],
            ) == color,
{
}

/// The record starts of a walk, or none when it is malformed.
pub open spec fn starts_of(b: Seq<u8>, total: int, pos: int, remaining: nat) -> Seq<int> {
    match record_starts(b, total, pos, remaining) {
        Some(starts) => starts,
        None => seq![],
    }
}

/// Primitive colour `c` is the colour in force at some geometry record of
/// `starts`, starting from `colour`.
pub open spec fn colour_in_force(b: Seq<u8>, starts: Seq<int>, colour: i32, c: i32) -> bool {
    exists|k: int|
        #![trigger colour_after(b, starts, k, colour)]
        0 <= k < starts.len() && record_type_at(b, starts[k]) != REC_COLOR && c == colour_after(
            b,
            starts,
            k,
            colour,
        )
}

proof fn lemma_records_colour(b: Seq<u8>, total: int, pos: int, remaining: nat, color: i32)
    ensures
        spec_records(b, total, pos, remaining, color) matches Some(ps) ==> {
            &&& record_starts(b, total, pos, remaining) is Some
            &&& forall|j: int|
                0 <= j < ps.len() ==> colour_in_force(
                    b,
                    starts_of(b, total, pos, remaining),
                    color,
                    #[trigger] primitive_colour(ps[j]),
                )
        },
    decreases remaining,
{
    if remaining > 0 {
        if let (Some(rsize), Some(rtype)) = (spec_u32_at(b, pos), spec_u32_at(b, pos + 4)) {
            if !(rsize < 8 || pos + rsize > total) {
                let next = pos + rsize;
                let next_color = if rtype == REC_COLOR {
                    match spec_u32_at(b, pos + 8) {
                        Some(c) => c as i32,
                        None => color,
                    }
                } else {
                    color
                };
                lemma_records_colour(b, total, next, (remaining - 1) as nat, next_color);
                if let Some(ps) = spec_records(b, total, pos, remaining, color) {
                    if rtype == REC_COLOR {
                        assert(spec_records(b, total, next, (remaining - 1) as nat, next_color)
                            == Some(ps));
                    } else {
                        assert(spec_records(b, total, next, (remaining - 1) as nat, color) is Some);
                    }
                    let rest_starts = starts_of(b, total, next, (remaining - 1) as nat);
                    let starts = starts_of(b, total, pos, remaining);
                    assert(starts == seq![pos] + rest_starts);
                    assert(starts.drop_first() =~= rest_starts);
                    assert(record_type_at(b, pos) == rtype);
                    if rtype == REC_COLOR {
                        assert forall|j: int| 0 <= j < ps.len() implies colour_in_force(
                            b,
                            starts,
                            color,
                            #[trigger] primitive_colour(ps[j]),
                        ) by {
                            assert(colour_in_force(b, rest_starts, next_color, primitive_colour(ps[j])));
                            let k1 = choose|k1: int|
                                #![trigger colour_after(b, rest_starts, k1, next_color)]
                                0 <= k1 < rest_starts.len() && record_type_at(b, rest_starts[k1])
                                    != REC_COLOR && primitive_colour(ps[j]) == colour_after(
                                    b,
                                    rest_starts,
                                    k1,
                                    next_color,
                                );
                            assert(starts[k1 + 1] == rest_starts[k1]);
                            assert(colour_after(b, starts, k1 + 1, color) == colour_after(
                                b,
                                rest_starts,
                                k1,
                                next_color,
                            ));
                        }
                    } else {
                        let head = spec_record(b, pos, rsize as int, rtype, color);
                        let tail = spec_records(b, total, next, (remaining - 1) as nat, color)->0;
                        assert(ps == head + tail);
                        lemma_record_colour(b, pos, rsize as int, rtype, color);
                        assert forall|j: int| 0 <= j < ps.len() implies colour_in_force(
                            b,
                            starts,
                            color,
                            #[trigger] primitive_colour(ps[j]),
                        ) by {
                            if j < head.len() {
                                assert(ps[j] == head[j]);
                                assert(starts[0] == pos);
                                assert(colour_after(b, starts, 0, color) == color);
                            } else {
                                assert(ps[j] == tail[j - head.len()]);
                                assert(colour_in_force(
                                    b,
                                    rest_starts,
                                    color,
                                    primitive_colour(tail[j - head.len()]),
                                ));
                                let k1 = choose|k1: int|
                                    #![trigger colour_after(b, rest_starts, k1, color)]
                                    0 <= k1 < rest_starts.len() && record_type_at(b, rest_starts[k1])
                                        != REC_COLOR && primitive_colour(tail[j - head.len()])
                                        == colour_after(b, rest_starts, k1, color);
                                assert(starts[k1 + 1] == rest_starts[k1]);
                                assert(colour_after(b, starts, k1 + 1, color) == colour_after(
                                    b,
                                    rest_starts,
                                    k1,
                                    color,
                                ));
                            }
                        }
                    }
                }
            }
        }
    }
}

/// A colour record sets the colour of every primitive after it, arcs and
/// poly-lines alike: each primitive the decoder returns carries the colour
/// in force at some geometry record of the blob, that is the value of the
/// last colour record before it (BYLAYER when there is none).
pub proof fn lemma_decoded_colours(b: Seq<u8>)
    ensures
        forall|j: int|
            0 <= j < spec_decode(b).len() ==> colour_in_force(
                b,
                blob_record_starts(b),
                COLOR_BYLAYER,
                #[trigger] primitive_colour(spec_decode(b)[j]),
            ),
{
    if let Some(total) = spec_u32_at(b, 0) {
        if !(total > b.len() || total < 8) {
            let count = match spec_u32_at(b, 4) {
                Some(c) => c,
                None => 0,
            };
            if count <= MAX_RECORDS {
                lemma_records_colour(b, total as int, 8, count as nat, COLOR_BYLAYER);
                assert(blob_record_starts(b) == starts_of(b, total as int, 8, count as nat));
            }
        }
    }
}

/// The little-endian `u32` at byte offset `o`, when four bytes are there.
pub fn u32_at(b: &[u8], o: usize) -> (r: Option<u32>)
    ensures
        r == spec_u32_at(b@, o as int),
{
    if o <= b.len() && b.len() - o >= 4 {
        Some(
            b[o] as u32 + b[o + 1] as u32 * 0x100 + b[o + 2] as u32 * 0x1_0000 + b[o + 3] as u32
                * 0x100_0000,
        )
    } else {
        None
    }
}

/// The `f64` bit pattern at byte offset `o`.
fn f64_bits_at(b: &[u8], o: usize) -> (r: Option<u64>)
    ensures
        r == spec_f64_bits_at(b@, o as int),
{
    if o <= b.len() && b.len() - o >= 8 {
        Some(
            b[o] as u64 + b[o + 1] as u64 * 0x100 + b[o + 2] as u64 * 0x1_0000 + b[o + 3] as u64
                * 0x100_0000 + b[o + 4] as u64 * 0x1_0000_0000 + b[o + 5] as u64
                * 0x100_0000_0000 + b[o + 6] as u64 * 0x1_0000_0000_0000 + b[o + 7] as u64
                * 0x100_0000_0000_0000,
        )
    } else {
        None
    }
}

fn coord_accepted(bits: u64) -> (r: bool)
    ensures
        r == coord_ok(bits),
{
    bits & MAGNITUDE_MASK < COORD_LIMIT_BITS
}

/// Three accepted coordinates at byte offset `o`.
fn pt3_at(b: &[u8], o: usize) -> (r: Option<Point3Bits>)
    ensures
        r == spec_pt3_at(b@, o as int),
{
    if o <= b.len() && b.len() - o >= 24 {
        let x = f64_bits_at(b, o).unwrap();
        let y = f64_bits_at(b, o + 8).unwrap();
        let z = f64_bits_at(b, o + 16).unwrap();
        if coord_accepted(x) && coord_accepted(y) && coord_accepted(z) {
            Some(Point3Bits { x, y, z })
        } else {
            None
        }
    } else {
        None
    }
}

/// The `n` points stored from byte `start`, or `None` when one of them is
/// not accepted.
fn read_points(b: &[u8], start: usize, n: usize) -> (r: Option<Vec<Point3Bits>>)
    requires
        start + 24 * n <= b@.len(),
    ensures
        match r {
            Some(pts) => points_ok(b@, start as int, n as int) && pts@ == spec_points(
                b@,
                start as int,
                n as int,
            ),
            None => !points_ok(b@, start as int, n as int),
        },
{
    let len = b.len();
    let mut pts: Vec<Point3Bits> = Vec::new();
    let mut i: usize = 0;
    while i < n
        invariant
            i <= n,
            len == b@.len(),
            start + 24 * n <= b@.len(),
            pts@.len() == i,
            forall|j: int| 0 <= j < i ==> (#[trigger] spec_pt3_at(b@, start + 24 * j)) is Some,
            forall|j: int| 0 <= j < i ==> pts@[j] == spec_pt3_at(b@, start + 24 * j)->0,
        decreases n - i,
    {
        let o = start + 24 * i;
        match pt3_at(b, o) {
            Some(p) => {
                pts.push(p);
            },
            None => {
                assert(spec_pt3_at(b@, start + 24 * (i as int)) is None);
                return None;
            },
        }
        i = i + 1;
    }
    assert(pts@ =~= spec_points(b@, start as int, n as int));
    Some(pts)
}

fn finite_accepted(bits: u64) -> (r: bool)
    ensures
        r == finite_bits(bits),
{
    bits & EXPONENT_MASK != EXPONENT_MASK
}

/// The circular-arc record at `pos` (centre, radius, normal, start direction,
/// sweep), when all its fields are present, its coordinates are accepted,
/// its radius is finite, positive and at most `1e9`, and its sweep is finite.
fn decode_arc(blob: &[u8], pos: usize, color: i32) -> (r: Option<ProxyPrimitive>)
    requires
        pos + 8 <= blob@.len(),
    ensures
        match r {
            Some(p) => spec_decode_arc(blob@, pos as int, color) == Some(p@),
            None => spec_decode_arc(blob@, pos as int, color) is None,
        },
{
    let _len = blob.len();
    let center = match pt3_at(blob, pos + 8) {
        Some(p) => p,
        None => return None,
    };
    let radius = match f64_bits_at(blob, pos + 32) {
        Some(v) => v,
        None => return None,
    };
    let normal = match pt3_at(blob, pos + 40) {
        Some(p) => p,
        None => return None,
    };
    let start_dir = match pt3_at(blob, pos + 64) {
        Some(p) => p,
        None => return None,
    };
    let sweep = match f64_bits_at(blob, pos + 88) {
        Some(v) => v,
        None => return None,
    };
    if !(0 < radius && radius <= RADIUS_LIMIT_BITS) || !finite_accepted(sweep) {
        return None;
    }
    Some(ProxyPrimitive::Arc { center, radius, normal, start_dir, sweep, color })
}

/// Decode every geometry record in a proxy-graphics `blob`, in record order.
/// Returns an empty vec when the blob is absent, malformed, or carries no
/// geometry this decoder models; it never invents a shape.
pub fn decode(blob: &[u8]) -> (out: Vec<ProxyPrimitive>)
    ensures
        views(out@) == spec_decode(blob@),
{
    let mut out: Vec<ProxyPrimitive> = Vec::new();
    assert(views(out@) =~= seq![]);
    let len = blob.len();
    let total = match u32_at(blob, 0) {
        Some(t) => t as usize,
        None => return out,
    };
    // Trust the length field only when it fits; a mismatch means a layout this
    // decoder does not model, so bail rather than walk off the end.
    if total > len || total < 8 {
        return out;
    }
    let count = match u32_at(blob, 4) {
        Some(c) => c,
        None => 0,
    };
    if count > MAX_RECORDS {
        return out;
    }
    let ghost whole = spec_records(blob@, total as int, 8, count as nat, COLOR_BYLAYER);
    let mut pos: usize = 8;
    let mut color: i32 = COLOR_BYLAYER;
    let mut remaining: u32 = count;
    assert(prefixed(views(out@), whole) =~= whole) by {
        if let Some(ps) = whole {
            assert(views(out@) + ps =~= ps);
        }
    }
    while remaining > 0
        invariant
            len == blob@.len(),
            8 <= total <= len,
            pos <= total,
            count <= MAX_RECORDS,
            whole == spec_records(blob@, total as int, 8, count as nat, COLOR_BYLAYER),
            spec_decode(blob@) == (match whole {
                Some(ps) => ps,
                None => seq![],
            }),
            prefixed(
                views(out@),
                spec_records(blob@, total as int, pos as int, remaining as nat, color),
            ) == whole,
        decreases remaining,
    {
        let ghost before = views(out@);
        let rsize = match u32_at(blob, pos) {
            Some(r) => r as usize,
            None => {
                // The blob ends before the records it announced.
                assert(whole is None);
                return Vec::new();
            },
        };
        let rtype = match u32_at(blob, pos + 4) {
            Some(t) => t,
            None => {
                assert(whole is None);
                return Vec::new();
            },
        };
        if rsize < 8 || rsize > total - pos {
            // A record that cannot hold its own header, or that runs past the
            // size field, makes the whole blob malformed.
            assert(whole is None);
            return Vec::new();
        }
        let next = pos + rsize;
        let ghost tail = spec_records(
            blob@,
            total as int,
            next as int,
            (remaining - 1) as nat,
            color,
        );
        let ghost head = spec_record(blob@, pos as int, rsize as int, rtype, color);
        if rtype == REC_COLOR {
            match u32_at(blob, pos + 8) {
                Some(c) => {
                    color = c as i32;
                },
                None => {},
            }
        } else if rtype == REC_POLYLINE || rtype == REC_POLYGON {
            let mut pushed = false;
            match u32_at(blob, pos + 8) {
                Some(n) => {
                    if n >= 2 && (n as u64) * 24 + 12 <= rsize as u64 {
                        match read_points(blob, pos + 12, n as usize) {
                            Some(pts) => {
                                let mut pts = pts;
                                if rtype == REC_POLYGON {
                                    // A poly-gon is a closed loop.
                                    let first = pts[0];
                                    pts.push(first);
                                }
                                let p = ProxyPrimitive::Polyline { points: pts, color };
                                assert(head =~= seq![p@]);
                                out.push(p);
                                pushed = true;
                                assert(views(out@) =~= before + head);
                            },
                            None => {},
                        }
                    }
                },
                None => {},
            }
            if !pushed {
                assert(head =~= seq![]);
                assert(views(out@) =~= before + head);
            }
        } else if rtype == REC_ARC || rtype == REC_ARC5 {
            match decode_arc(blob, pos, color) {
                Some(p) => {
                    assert(head =~= seq![p@]);
                    out.push(p);
                    assert(views(out@) =~= before + head);
                },
                None => {
                    assert(head =~= seq![]);
                    assert(views(out@) =~= before + head);
                },
            }
        } else {
            // Every other record is a trait (layer, lineweight, ...) and is
            // skipped; `rsize` still advances past it.
            assert(head =~= seq![]);
            assert(views(out@) =~= before + head);
        }
        proof {
            if rtype != REC_COLOR {
                if let Some(t) = tail {
                    assert(before + head + t =~= before + (head + t));
                }
            }
        }
        pos = next;
        remaining = remaining - 1;
    }
    assert(views(out@) + seq![] =~= views(out@));
    out
}

} // verus!
