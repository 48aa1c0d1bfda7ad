use geoarrow::GeoArrowError;
use geoarrow::coords::{CoordBuffer, CoordType};
use geoarrow::dimensions::HasDimensions;
use geoarrow::dynamic::GeometryArray;
use geoarrow::geom::{
    Geometry, GeometryType, LineStringGeom, MultiPointGeom, PointGeom,
};
use geoarrow::index::locate_ids;
use geoarrow::linestring::LineStringArray;
use geoarrow::multipoint::MultiPointArray;
use geoarrow::point::PointArray;

fn pt(x: f64, y: f64) -> (u64, u64) {
    (x.to_bits(), y.to_bits())
}

fn mp(points: &[(f64, f64)]) -> MultiPointGeom {
    MultiPointGeom {
        points: points.iter().map(|&(x, y)| pt(x, y)).collect(),
    }
}

#[test]
fn coord_buffer_layouts_agree() {
    let pairs = vec![pt(1.0, 2.0), pt(3.0, 4.0), pt(5.0, 6.0)];
    let il = CoordBuffer::from_pairs(&pairs, CoordType::Interleaved);
    let sep = CoordBuffer::from_pairs(&pairs, CoordType::Separated);
    assert_eq!(il.len(), 3);
    assert_eq!(sep.len(), 3);
    for i in 0..3 {
        assert_eq!(il.get(i), sep.get(i));
    }
    let conv = il.into_coord_type(CoordType::Separated);
    assert_eq!(conv.coord_type(), CoordType::Separated);
    assert_eq!(conv.get(2), pt(5.0, 6.0));
}

#[test]
fn coord_buffer_slicing() {
    let pairs = vec![pt(1.0, 2.0), pt(3.0, 4.0), pt(5.0, 6.0)];
    let mut il = CoordBuffer::from_pairs(&pairs, CoordType::Interleaved);
    let owned = il.owned_slice(1, 2);
    il.slice(1, 2);
    assert_eq!(il.len(), 2);
    assert_eq!(owned.len(), 2);
    assert_eq!(il.get(0), pt(3.0, 4.0));
    assert_eq!(owned.get(1), pt(5.0, 6.0));
}

#[test]
fn coord_buffer_validation() {
    let err = CoordBuffer::try_from_interleaved(vec![1, 2, 3]).unwrap_err();
    assert_eq!(err, GeoArrowError::CoordLengthMismatch);
    let err2 = CoordBuffer::try_from_separated(vec![1], vec![1, 2]).unwrap_err();
    assert_eq!(err2, GeoArrowError::CoordLengthMismatch);
    let ok = CoordBuffer::try_from_interleaved(vec![1, 2, 3, 4]).unwrap();
    assert_eq!(ok.len(), 2);
}

#[test]
fn point_array_basics() {
    let arr = PointArray::from_geoms(
        &vec![
            Some(PointGeom { x: pt(1.0, 2.0).0, y: pt(1.0, 2.0).1 }),
            None,
        ],
        CoordType::Separated,
    );
    assert_eq!(arr.len(), 2);
    assert!(!arr.is_null(0));
    assert!(arr.is_null(1));
    assert_eq!(arr.value(0).x, 1.0f64.to_bits());
    assert!(arr.get(1).is_none());
    let owned = arr.owned_slice(1, 1);
    assert!(owned.is_null(0));
}

#[test]
fn point_to_multipoint() {
    let arr = PointArray::from_geoms(
        &vec![
            Some(PointGeom { x: 1.0f64.to_bits(), y: 2.0f64.to_bits() }),
            None,
        ],
        CoordType::Interleaved,
    );
    let mp_arr = MultiPointArray::try_from_point_array(arr).unwrap();
    assert_eq!(mp_arr.len(), 2);
    assert_eq!(mp_arr.get_as_geo(0), Some(mp(&[(1.0, 2.0)])));
    assert_eq!(mp_arr.get_as_geo(1), None);
}

#[test]
fn multipoint_to_linestring() {
    let mp_arr = MultiPointArray::from_geoms(
        &vec![Some(mp(&[(0.0, 0.0), (1.0, 1.0)])), None],
        CoordType::Interleaved,
    )
    .unwrap();
    let ls_arr = LineStringArray::from_multi_point_array(mp_arr);
    assert_eq!(ls_arr.len(), 2);
    let geoms = ls_arr.iter_geo();
    assert_eq!(
        geoms[0],
        Some(LineStringGeom { coords: vec![pt(0.0, 0.0), pt(1.0, 1.0)] })
    );
    assert_eq!(geoms[1], None);
}

#[test]
fn linestring_roundtrip_and_slice() {
    let geoms = vec![
        Some(LineStringGeom { coords: vec![pt(0.0, 0.0), pt(2.0, 2.0)] }),
        None,
        Some(LineStringGeom { coords: vec![] }),
    ];
    let mut arr = LineStringArray::from_geoms(geoms.clone(), CoordType::Separated).unwrap();
    assert_eq!(arr.iter_geo(), geoms);
    let owned = arr.owned_slice(1, 2);
    arr.slice(1, 2);
    assert_eq!(arr.iter_geo(), owned.iter_geo());
    assert_eq!(owned.len(), 2);
}

#[test]
fn emptiness_and_nullity_are_orthogonal() {
    let arr = MultiPointArray::from_geoms(
        &vec![Some(mp(&[(0.0, 0.0)])), None, Some(mp(&[]))],
        CoordType::Interleaved,
    )
    .unwrap();
    assert_eq!(arr.is_empty(), vec![Some(false), None, Some(true)]);

    let wrapped = GeometryArray::MultiPoint(arr);
    assert_eq!(wrapped.len(), 3);
    assert_eq!(wrapped.is_empty(), vec![Some(false), None, Some(true)]);
}

#[test]
fn point_arrays_are_never_empty() {
    let arr = PointArray::from_geoms(
        &vec![Some(PointGeom { x: 0, y: 0 }), None],
        CoordType::Interleaved,
    );
    assert_eq!(arr.is_empty(), vec![Some(false), None]);
}

#[test]
fn geometry_dispatch() {
    let g = Geometry::MultiPoint(mp(&[(1.0, 1.0)]));
    match g.as_type() {
        GeometryType::MultiPoint(m) => assert_eq!(m.points.len(), 1),
        _ => panic!("wrong class"),
    }
    assert!(!g.is_empty());
    assert!(Geometry::MultiPoint(mp(&[])).is_empty());
    assert!(!Geometry::Point(PointGeom { x: 0, y: 0 }).is_empty());
}

#[test]
fn spatial_index_scenario() {
    // Three non-overlapping geometries: a query inside one envelope returns
    // exactly that slot, a query in empty space returns nothing.
    let arr = MultiPointArray::from_geoms(
        &vec![
            Some(mp(&[(0.0, 0.0), (1.0, 1.0)])),
            Some(mp(&[(10.0, 10.0), (11.0, 11.0)])),
            Some(mp(&[(-20.0, -20.0), (-19.0, -19.0)])),
        ],
        CoordType::Interleaved,
    )
    .unwrap();
    let tree = arr.rstar_tree();

    let hit = locate_ids(&tree, 0.5f64.to_bits(), 0.5f64.to_bits());
    assert_eq!(hit, vec![0]);

    let hit2 = locate_ids(&tree, 10.5f64.to_bits(), 10.25f64.to_bits());
    assert_eq!(hit2, vec![1]);

    let miss = locate_ids(&tree, 5.0f64.to_bits(), 5.0f64.to_bits());
    assert!(miss.is_empty());

    let neg = locate_ids(&tree, (-19.5f64).to_bits(), (-19.5f64).to_bits());
    assert_eq!(neg, vec![2]);
}

#[test]
fn spatial_index_overlapping_envelopes() {
    let arr = MultiPointArray::from_geoms(
        &vec![
            Some(mp(&[(0.0, 0.0), (2.0, 2.0)])),
            Some(mp(&[(1.0, 1.0), (3.0, 3.0)])),
        ],
        CoordType::Interleaved,
    )
    .unwrap();
    let tree = arr.rstar_tree();
    let mut hit = locate_ids(&tree, 1.5f64.to_bits(), 1.5f64.to_bits());
    hit.sort();
    assert_eq!(hit, vec![0, 1]);
}

#[test]
fn spatial_index_skips_nulls_and_empties() {
    let arr = MultiPointArray::from_geoms(
        &vec![Some(mp(&[(0.0, 0.0)])), None, Some(mp(&[]))],
        CoordType::Separated,
    )
    .unwrap();
    let tree = arr.rstar_tree();
    let hit = locate_ids(&tree, 0.0f64.to_bits(), 0.0f64.to_bits());
    assert_eq!(hit, vec![0]);
}
