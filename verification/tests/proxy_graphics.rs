use cad_scene::proxy_graphics::{
    decode, u32_at, Point3Bits, ProxyPrimitive, COLOR_BYLAYER, REC_ARC, REC_COLOR, REC_POLYGON,
    REC_POLYLINE,
};

fn from_hex(hex: &str) -> Vec<u8> {
    hex.split_whitespace()
        .collect::<String>()
        .as_bytes()
        .chunks(2)
        .map(|c| u8::from_str_radix(std::str::from_utf8(c).unwrap(), 16).unwrap())
        .collect()
}

fn push_u32(out: &mut Vec<u8>, v: u32) {
    out.extend_from_slice(&v.to_le_bytes());
}

fn push_f64(out: &mut Vec<u8>, v: f64) {
    out.extend_from_slice(&v.to_le_bytes());
}

fn record(rtype: u32, data: &[u8]) -> Vec<u8> {
    let mut r = Vec::new();
    push_u32(&mut r, (8 + data.len()) as u32);
    push_u32(&mut r, rtype);
    r.extend_from_slice(data);
    r
}

fn blob(records: &[Vec<u8>]) -> Vec<u8> {
    let body: Vec<u8> = records.concat();
    let mut b = Vec::new();
    push_u32(&mut b, (8 + body.len()) as u32);
    push_u32(&mut b, records.len() as u32);
    b.extend_from_slice(&body);
    b
}

fn points_data(points: &[[f64; 3]]) -> Vec<u8> {
    let mut d = Vec::new();
    push_u32(&mut d, points.len() as u32);
    for p in points {
        for c in p {
            push_f64(&mut d, *c);
        }
    }
    d
}

fn pt(p: [f64; 3]) -> Point3Bits {
    Point3Bits { x: p[0].to_bits(), y: p[1].to_bits(), z: p[2].to_bits() }
}

/// The real 140-byte preview of an Autodesk Raster Design embedded raster
/// image: a single type-6 poly-line, its frame closed back to the origin.
#[test]
fn decodes_the_raster_design_image_frame() {
    let hex = "8C00000001000000840000000600000005000000\
               000000000000000000000000000000000000000000000000\
               DEF97E6A1C422E3D3DDF4F8D976E8B400000000000000000\
               6BBC749398A092403DDF4F8D976E8B400000000000000000\
               6BBC7493 98A09240 0000000000000000 0000000000000000\
               000000000000000000000000000000000000000000000000";
    let blob = from_hex(hex);
    assert_eq!(blob.len(), 140);
    let polys = decode(&blob);
    assert_eq!(polys.len(), 1);
    let points = match &polys[0] {
        ProxyPrimitive::Polyline { points, .. } => points,
        other => panic!("expected a poly-line, got {other:?}"),
    };
    assert_eq!(points.len(), 5);
    assert!((f64::from_bits(points[2].x) - 1192.1490).abs() < 1e-3);
    assert!((f64::from_bits(points[2].y) - 877.8240).abs() < 1e-3);
}

#[test]
fn rejects_anything_it_does_not_model() {
    assert!(decode(&[]).is_empty());
    assert!(decode(&[0u8; 140]).is_empty()); // size field wrong
    let mut b = vec![0u8; 140];
    b[0] = 140; // right size, zero records
    assert!(decode(&b).is_empty());
}

#[test]
fn reads_little_endian_words() {
    assert_eq!(u32_at(&[1, 2, 3, 4, 5], 1), Some(0x0504_0302));
    assert_eq!(u32_at(&[1, 2, 3], 0), None);
    assert_eq!(u32_at(&[1, 2, 3, 4], 1), None);
}

#[test]
fn a_polygon_closes_back_to_its_first_point() {
    let tri = [[0.0, 0.0, 0.0], [4.0, 0.0, 0.0], [0.0, 3.0, 0.0]];
    let out = decode(&blob(&[record(REC_POLYGON, &points_data(&tri))]));
    assert_eq!(out.len(), 1);
    match &out[0] {
        ProxyPrimitive::Polyline { points, color } => {
            assert_eq!(*color, COLOR_BYLAYER);
            assert_eq!(points.len(), 4);
            assert_eq!(points[0], pt(tri[0]));
            assert_eq!(points[2], pt(tri[2]));
            assert_eq!(points[3], pt(tri[0]));
        }
        other => panic!("expected a poly-line, got {other:?}"),
    }
}

#[test]
fn a_colour_trait_applies_to_the_primitives_after_it() {
    let line = [[0.0, 0.0, 0.0], [1.0, 1.0, 0.0]];
    let mut colour = Vec::new();
    push_u32(&mut colour, 5);
    let out = decode(&blob(&[
        record(REC_POLYLINE, &points_data(&line)),
        record(REC_COLOR, &colour),
        record(REC_POLYLINE, &points_data(&line)),
    ]));
    assert_eq!(out.len(), 2);
    assert!(matches!(&out[0], ProxyPrimitive::Polyline { color, .. } if *color == COLOR_BYLAYER));
    assert!(matches!(&out[1], ProxyPrimitive::Polyline { color, .. } if *color == 5));
}

fn arc_data(radius: f64, sweep: f64) -> Vec<u8> {
    let mut d = Vec::new();
    for v in [1.0, 2.0, 0.0, radius, 0.0, 0.0, 1.0, 1.0, 0.0, 0.0, sweep] {
        push_f64(&mut d, v);
    }
    push_u32(&mut d, 0);
    d
}

#[test]
fn an_arc_record_keeps_its_parameters() {
    let out = decode(&blob(&[record(REC_ARC, &arc_data(2.5, std::f64::consts::PI))]));
    assert_eq!(out.len(), 1);
    match &out[0] {
        ProxyPrimitive::Arc { center, radius, normal, start_dir, sweep, color } => {
            assert_eq!(*center, pt([1.0, 2.0, 0.0]));
            assert_eq!(f64::from_bits(*radius), 2.5);
            assert_eq!(*normal, pt([0.0, 0.0, 1.0]));
            assert_eq!(*start_dir, pt([1.0, 0.0, 0.0]));
            assert_eq!(f64::from_bits(*sweep), std::f64::consts::PI);
            assert_eq!(*color, COLOR_BYLAYER);
        }
        other => panic!("expected an arc, got {other:?}"),
    }
}

#[test]
fn an_arc_without_a_usable_radius_or_sweep_is_dropped() {
    assert!(decode(&blob(&[record(REC_ARC, &arc_data(0.0, 1.0))])).is_empty());
    assert!(decode(&blob(&[record(REC_ARC, &arc_data(2.0e9, 1.0))])).is_empty());
    assert!(decode(&blob(&[record(REC_ARC, &arc_data(1.0, f64::NAN))])).is_empty());
}

#[test]
fn out_of_range_points_and_short_polylines_are_dropped() {
    let far = [[0.0, 0.0, 0.0], [2.0e12, 0.0, 0.0]];
    assert!(decode(&blob(&[record(REC_POLYLINE, &points_data(&far))])).is_empty());
    let single = [[0.0, 0.0, 0.0]];
    assert!(decode(&blob(&[record(REC_POLYLINE, &points_data(&single))])).is_empty());
}

#[test]
fn too_many_records_decode_to_nothing() {
    let line = [[0.0, 0.0, 0.0], [1.0, 1.0, 0.0]];
    let mut b = blob(&[record(REC_POLYLINE, &points_data(&line))]);
    b[4..8].copy_from_slice(&1_000_001u32.to_le_bytes());
    assert!(decode(&b).is_empty());
}

#[test]
fn a_record_running_past_the_end_spoils_the_whole_blob() {
    let line = [[0.0, 0.0, 0.0], [1.0, 1.0, 0.0]];
    let mut bad = record(REC_POLYLINE, &points_data(&line));
    bad[0..4].copy_from_slice(&10_000u32.to_le_bytes());
    let out = decode(&blob(&[record(REC_POLYLINE, &points_data(&line)), bad]));
    assert!(out.is_empty());
}

#[test]
fn a_record_too_small_for_its_header_spoils_the_whole_blob() {
    let line = [[0.0, 0.0, 0.0], [1.0, 1.0, 0.0]];
    let mut bad = record(REC_POLYLINE, &points_data(&line));
    bad[0..4].copy_from_slice(&4u32.to_le_bytes());
    let out = decode(&blob(&[record(REC_POLYLINE, &points_data(&line)), bad]));
    assert!(out.is_empty());
}

#[test]
fn a_blob_announcing_more_records_than_it_holds_decodes_to_nothing() {
    let line = [[0.0, 0.0, 0.0], [1.0, 1.0, 0.0]];
    let mut b = blob(&[record(REC_POLYLINE, &points_data(&line))]);
    b[4..8].copy_from_slice(&2u32.to_le_bytes());
    assert!(decode(&b).is_empty());
}
