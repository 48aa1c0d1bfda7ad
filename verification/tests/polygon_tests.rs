use geoarrow::coords::CoordType;
use geoarrow::geom::{LineStringGeom, PolygonGeom};
use geoarrow::index::locate_ids;
use geoarrow::polygon::PolygonArray;

fn ring(points: &[(f64, f64)]) -> LineStringGeom {
    LineStringGeom {
        coords: points.iter().map(|&(x, y)| (x.to_bits(), y.to_bits())).collect(),
    }
}

/// A unit square with no holes.
fn p0() -> PolygonGeom {
    PolygonGeom {
        rings: vec![ring(&[(0.0, 0.0), (1.0, 0.0), (1.0, 1.0), (0.0, 1.0), (0.0, 0.0)])],
    }
}

/// A larger square with one square hole.
fn p1() -> PolygonGeom {
    PolygonGeom {
        rings: vec![
            ring(&[(0.0, 0.0), (4.0, 0.0), (4.0, 4.0), (0.0, 4.0), (0.0, 0.0)]),
            ring(&[(1.0, 1.0), (2.0, 1.0), (2.0, 2.0), (1.0, 2.0), (1.0, 1.0)]),
        ],
    }
}

#[test]
fn test_eq_other_index_false() {
    // Equality at the current index with inequality at another one.
    let arr1 =
        PolygonArray::from_geoms(vec![Some(p0()), Some(p1())], CoordType::Interleaved).unwrap();
    let arr2 =
        PolygonArray::from_geoms(vec![Some(p0()), Some(p0())], CoordType::Interleaved).unwrap();

    assert!(arr1.value(0).eq(&arr2.value(0)));
    assert!(!arr1.value(1).eq(&arr2.value(1)));
}

#[test]
fn polygon_geo_roundtrip() {
    let geoms = vec![Some(p0()), None, Some(p1()), Some(PolygonGeom { rings: vec![] })];
    let arr = PolygonArray::from_geoms(geoms.clone(), CoordType::Separated).unwrap();
    assert_eq!(arr.len(), 4);
    assert_eq!(arr.iter_geo(), geoms);
}

#[test]
fn polygon_scalar_accessors() {
    let arr = PolygonArray::from_geoms(vec![Some(p1())], CoordType::Interleaved).unwrap();
    let value = arr.value(0);
    let exterior = value.exterior().unwrap();
    assert_eq!(exterior.num_coords(), 5);
    assert_eq!(exterior.coord(0), Some((0.0f64.to_bits(), 0.0f64.to_bits())));
    assert_eq!(value.num_interiors(), 1);
    let hole = value.interior(0).unwrap();
    assert_eq!(hole.num_coords(), 5);
    assert_eq!(hole.coord(1), Some((2.0f64.to_bits(), 1.0f64.to_bits())));
    assert!(value.interior(1).is_none());
    assert_eq!(value.interiors().len(), 1);
}

#[test]
fn polygon_empty_has_no_exterior() {
    let arr = PolygonArray::from_geoms(
        vec![Some(PolygonGeom { rings: vec![] })],
        CoordType::Interleaved,
    )
    .unwrap();
    let value = arr.value(0);
    assert!(value.exterior().is_none());
    assert_eq!(value.num_interiors(), 0);
    assert!(!arr.is_null(0));
}

#[test]
fn polygon_slice_and_owned_slice() {
    let geoms = vec![Some(p0()), Some(p1()), None];
    let mut arr = PolygonArray::from_geoms(geoms, CoordType::Interleaved).unwrap();
    let owned = arr.owned_slice(1, 2);
    arr.slice(1, 2);
    assert_eq!(arr.len(), 2);
    assert_eq!(owned.len(), 2);
    assert_eq!(arr.iter_geo(), owned.iter_geo());
    assert_eq!(owned.iter_geo(), vec![Some(p1()), None]);
    assert!(!owned.geom_offsets.is_sliced());
    assert!(!owned.ring_offsets.is_sliced());
}

#[test]
fn polygon_spatial_index() {
    let far = PolygonGeom {
        rings: vec![ring(&[(10.0, 10.0), (12.0, 10.0), (12.0, 12.0), (10.0, 12.0), (10.0, 10.0)])],
    };
    let arr = PolygonArray::from_geoms(
        vec![Some(p0()), None, Some(far)],
        CoordType::Interleaved,
    )
    .unwrap();
    let tree = arr.rstar_tree();
    assert_eq!(locate_ids(&tree, 0.5f64.to_bits(), 0.5f64.to_bits()), vec![0]);
    assert_eq!(locate_ids(&tree, 11.0f64.to_bits(), 11.0f64.to_bits()), vec![2]);
    assert!(locate_ids(&tree, 5.0f64.to_bits(), 5.0f64.to_bits()).is_empty());
}
