use geoarrow::GeoArrowError;
use geoarrow::coords::CoordType;
use geoarrow::multipoint::MultiPointArray;
use geoarrow::wkb::{Endianness, WKBArray, WKBMultiPoint};
use geoarrow::wkb_polygon::{WKBMultiPolygon, WKBPolygon};

fn bits(x: f64) -> u64 {
    x.to_bits()
}

fn wkb_multipoint(points: &[(f64, f64)], little: bool) -> Vec<u8> {
    let mut out: Vec<u8> = Vec::new();
    if little {
        out.push(1);
        out.extend_from_slice(&4u32.to_le_bytes());
        out.extend_from_slice(&(points.len() as u32).to_le_bytes());
    } else {
        out.push(0);
        out.extend_from_slice(&4u32.to_be_bytes());
        out.extend_from_slice(&(points.len() as u32).to_be_bytes());
    }
    for &(x, y) in points {
        if little {
            out.push(1);
            out.extend_from_slice(&1u32.to_le_bytes());
            out.extend_from_slice(&x.to_le_bytes());
            out.extend_from_slice(&y.to_le_bytes());
        } else {
            out.push(0);
            out.extend_from_slice(&1u32.to_be_bytes());
            out.extend_from_slice(&x.to_be_bytes());
            out.extend_from_slice(&y.to_be_bytes());
        }
    }
    out
}

/// One polygon body (marker, tag, ring count, rings) at the multi-polygon's
/// byte order; rings carry no headers of their own.
fn wkb_polygon_bytes(rings: &[&[(f64, f64)]]) -> Vec<u8> {
    let mut out: Vec<u8> = Vec::new();
    out.push(1);
    out.extend_from_slice(&3u32.to_le_bytes());
    out.extend_from_slice(&(rings.len() as u32).to_le_bytes());
    for r in rings {
        out.extend_from_slice(&(r.len() as u32).to_le_bytes());
        for &(x, y) in *r {
            out.extend_from_slice(&x.to_le_bytes());
            out.extend_from_slice(&y.to_le_bytes());
        }
    }
    out
}

fn wkb_multipolygon(polys: &[&[&[(f64, f64)]]]) -> Vec<u8> {
    let mut out: Vec<u8> = Vec::new();
    out.push(1);
    out.extend_from_slice(&6u32.to_le_bytes());
    out.extend_from_slice(&(polys.len() as u32).to_le_bytes());
    for p in polys {
        out.extend_from_slice(&wkb_polygon_bytes(p));
    }
    out
}

#[test]
fn multipoint_both_endiannesses_decode_alike() {
    let le = wkb_multipoint(&[(1.0, 2.0), (3.0, 4.0)], true);
    let be = wkb_multipoint(&[(1.0, 2.0), (3.0, 4.0)], false);
    let wle = WKBMultiPoint::try_new(&le).unwrap();
    let wbe = WKBMultiPoint::try_new(&be).unwrap();
    assert_eq!(wle.num_points(), 2);
    assert_eq!(wbe.num_points(), 2);
    assert_eq!(wle.to_geo(), wbe.to_geo());
    assert_eq!(wle.point(0), Some((bits(1.0), bits(2.0))));
    assert_eq!(wbe.point(1), Some((bits(3.0), bits(4.0))));
    assert_eq!(wle.point(2), None);
}

#[test]
fn multipoint_header_errors() {
    assert_eq!(
        WKBMultiPoint::try_new(&[1, 4, 0]).unwrap_err(),
        GeoArrowError::WkbTruncated
    );
    let mut bad_marker = wkb_multipoint(&[(0.0, 0.0)], true);
    bad_marker[0] = 7;
    assert_eq!(
        WKBMultiPoint::try_new(&bad_marker).unwrap_err(),
        GeoArrowError::WkbBadByteOrder
    );
    let mut bad_tag = wkb_multipoint(&[(0.0, 0.0)], true);
    bad_tag[1] = 2;
    assert_eq!(
        WKBMultiPoint::try_new(&bad_tag).unwrap_err(),
        GeoArrowError::WkbUnexpectedType
    );
    let mut short = wkb_multipoint(&[(0.0, 0.0), (1.0, 1.0)], true);
    short.truncate(short.len() - 1);
    assert_eq!(
        WKBMultiPoint::try_new(&short).unwrap_err(),
        GeoArrowError::WkbLengthMismatch
    );
}

#[test]
fn batch_with_bad_slot_fails() {
    let good = wkb_multipoint(&[(0.0, 0.0)], true);
    let mut bad = good.clone();
    bad.truncate(8);
    let arr = WKBArray::new(vec![good, bad], None);
    let err = MultiPointArray::try_from_wkb(&arr, CoordType::Interleaved).unwrap_err();
    assert_eq!(err, GeoArrowError::WkbTruncated);
}

#[test]
fn multipolygon_reader() {
    let square: &[(f64, f64)] = &[(0.0, 0.0), (1.0, 0.0), (1.0, 1.0), (0.0, 0.0)];
    let hole: &[(f64, f64)] = &[(0.2, 0.2), (0.4, 0.2), (0.4, 0.4), (0.2, 0.2)];
    let tri: &[(f64, f64)] = &[(5.0, 5.0), (6.0, 5.0), (5.0, 6.0), (5.0, 5.0)];
    let buf = wkb_multipolygon(&[&[square, hole], &[tri]]);

    let w = WKBMultiPolygon::try_new(&buf, Endianness::LittleEndian).unwrap();
    assert_eq!(w.num_polygons(), 2);

    let first = w.polygon(0).unwrap();
    assert_eq!(first.num_rings(), 2);
    let exterior = first.ring(0).unwrap();
    assert_eq!(exterior.num_points(), 4);
    assert_eq!(exterior.point(1), Some((bits(1.0), bits(0.0))));
    let interior = first.ring(1).unwrap();
    assert_eq!(interior.point(0), Some((bits(0.2), bits(0.2))));
    assert!(first.ring(2).is_none());

    let second = w.polygon(1).unwrap();
    assert_eq!(second.num_rings(), 1);
    assert!(w.polygon(2).is_none());

    let geo = w.to_geo();
    assert_eq!(geo.polygons.len(), 2);
    assert_eq!(geo.polygons[0].rings.len(), 2);
    assert_eq!(geo.polygons[1].rings[0].coords[2], (bits(5.0), bits(6.0)));

    // The trusted-caller constructor parses the same structure.
    let w2 = WKBMultiPolygon::new(&buf, Endianness::LittleEndian);
    assert_eq!(w2.to_geo(), geo);
    assert_eq!(w.polygons().len(), 2);
}

#[test]
fn multipolygon_truncated() {
    let square: &[(f64, f64)] = &[(0.0, 0.0), (1.0, 0.0), (1.0, 1.0), (0.0, 0.0)];
    let mut buf = wkb_multipolygon(&[&[square]]);
    buf.truncate(buf.len() - 3);
    let err = WKBMultiPolygon::try_new(&buf, Endianness::LittleEndian).unwrap_err();
    assert_eq!(err, GeoArrowError::WkbTruncated);

    let err2 = WKBPolygon::try_new(&[1, 3, 0, 0, 0], Endianness::LittleEndian, 0).unwrap_err();
    assert_eq!(err2, GeoArrowError::WkbTruncated);
}

#[test]
fn polygon_size_accounts_rings() {
    let square: &[(f64, f64)] = &[(0.0, 0.0), (1.0, 0.0), (1.0, 1.0), (0.0, 0.0)];
    let body = wkb_polygon_bytes(&[square]);
    let p = WKBPolygon::try_new(&body, Endianness::LittleEndian, 0).unwrap();
    assert_eq!(p.size(), body.len());
}
