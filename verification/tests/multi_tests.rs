use geoarrow::coords::CoordType;
use geoarrow::dimensions::HasDimensions;
use geoarrow::geom::{LineStringGeom, MultiLineStringGeom, MultiPolygonGeom, PolygonGeom};
use geoarrow::multilinestring::MultiLineStringArray;
use geoarrow::multipolygon::MultiPolygonArray;

fn line(points: &[(f64, f64)]) -> LineStringGeom {
    LineStringGeom {
        coords: points.iter().map(|&(x, y)| (x.to_bits(), y.to_bits())).collect(),
    }
}

fn ml(lines: &[&[(f64, f64)]]) -> MultiLineStringGeom {
    MultiLineStringGeom {
        lines: lines.iter().map(|l| line(l)).collect(),
    }
}

fn square() -> PolygonGeom {
    PolygonGeom {
        rings: vec![line(&[(0.0, 0.0), (1.0, 0.0), (1.0, 1.0), (0.0, 0.0)])],
    }
}

fn holed() -> PolygonGeom {
    PolygonGeom {
        rings: vec![
            line(&[(0.0, 0.0), (4.0, 0.0), (4.0, 4.0), (0.0, 0.0)]),
            line(&[(1.0, 1.0), (2.0, 1.0), (2.0, 2.0), (1.0, 1.0)]),
        ],
    }
}

#[test]
fn multilinestring_roundtrip() {
    let geoms = vec![
        Some(ml(&[&[(0.0, 0.0), (1.0, 1.0)], &[(2.0, 2.0), (3.0, 3.0)]])),
        None,
        Some(ml(&[])),
    ];
    let arr = MultiLineStringArray::from_geoms(geoms.clone(), CoordType::Interleaved).unwrap();
    assert_eq!(arr.len(), 3);
    assert_eq!(arr.iter_geo(), geoms);
    assert!(arr.is_null(1));
    assert!(!arr.is_null(2));
    assert_eq!(arr.is_empty(), vec![Some(false), None, Some(true)]);
}

#[test]
fn multilinestring_scalar_and_slice() {
    let geoms = vec![
        Some(ml(&[&[(0.0, 0.0), (1.0, 1.0)]])),
        Some(ml(&[&[(5.0, 5.0), (6.0, 6.0)], &[(7.0, 7.0), (8.0, 8.0)]])),
    ];
    let mut arr = MultiLineStringArray::from_geoms(geoms, CoordType::Separated).unwrap();
    let value = arr.value(1);
    assert_eq!(value.num_lines(), 2);
    let second = value.line(1).unwrap();
    assert_eq!(second.coord(0), Some((7.0f64.to_bits(), 7.0f64.to_bits())));
    assert!(value.line(2).is_none());

    arr.slice(1, 1);
    assert_eq!(arr.len(), 1);
    assert_eq!(arr.value(0).num_lines(), 2);
}

#[test]
fn multipolygon_roundtrip() {
    let geoms = vec![
        Some(MultiPolygonGeom { polygons: vec![square(), holed()] }),
        None,
        Some(MultiPolygonGeom { polygons: vec![] }),
    ];
    let arr = MultiPolygonArray::from_geoms(geoms.clone(), CoordType::Interleaved).unwrap();
    assert_eq!(arr.len(), 3);
    assert_eq!(arr.iter_geo(), geoms);
    assert_eq!(arr.is_empty(), vec![Some(false), None, Some(true)]);
}

#[test]
fn multipolygon_scalar_and_slice() {
    let geoms = vec![
        Some(MultiPolygonGeom { polygons: vec![square()] }),
        Some(MultiPolygonGeom { polygons: vec![holed(), square()] }),
    ];
    let mut arr = MultiPolygonArray::from_geoms(geoms, CoordType::Separated).unwrap();
    let value = arr.value(1);
    assert_eq!(value.num_polygons(), 2);
    let first = value.polygon(0).unwrap();
    assert_eq!(first.num_interiors(), 1);
    let ext = first.exterior().unwrap();
    assert_eq!(ext.coord(1), Some((4.0f64.to_bits(), 0.0f64.to_bits())));
    assert!(value.polygon(2).is_none());

    arr.slice(0, 1);
    assert_eq!(arr.len(), 1);
    assert_eq!(arr.value(0).num_polygons(), 1);
}

#[test]
fn multilinestring_owned_slice() {
    let geoms = vec![
        Some(ml(&[&[(0.0, 0.0), (1.0, 1.0)]])),
        Some(ml(&[&[(5.0, 5.0), (6.0, 6.0)], &[(7.0, 7.0), (8.0, 8.0)]])),
        None,
    ];
    let arr = MultiLineStringArray::from_geoms(geoms, CoordType::Interleaved).unwrap();
    let owned = arr.owned_slice(1, 2);
    assert_eq!(owned.len(), 2);
    assert!(!owned.geom_offsets.is_sliced());
    assert!(!owned.ring_offsets.is_sliced());
    assert_eq!(
        owned.iter_geo(),
        vec![
            Some(ml(&[&[(5.0, 5.0), (6.0, 6.0)], &[(7.0, 7.0), (8.0, 8.0)]])),
            None,
        ]
    );
}

#[test]
fn multipolygon_owned_slice() {
    let geoms = vec![
        Some(MultiPolygonGeom { polygons: vec![square()] }),
        Some(MultiPolygonGeom { polygons: vec![holed(), square()] }),
        None,
    ];
    let arr = MultiPolygonArray::from_geoms(geoms, CoordType::Separated).unwrap();
    let owned = arr.owned_slice(1, 2);
    assert_eq!(owned.len(), 2);
    assert!(!owned.geom_offsets.is_sliced());
    assert!(!owned.polygon_offsets.is_sliced());
    assert!(!owned.ring_offsets.is_sliced());
    assert_eq!(
        owned.iter_geo(),
        vec![
            Some(MultiPolygonGeom { polygons: vec![holed(), square()] }),
            None,
        ]
    );
}
