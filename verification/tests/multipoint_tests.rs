use geoarrow::coords::CoordType;
use geoarrow::geom::{MultiPointGeom, PointGeom};
use geoarrow::multipoint::MultiPointArray;
use geoarrow::validity::Validity;
use geoarrow::wkb::WKBArray;

fn pt(x: f64, y: f64) -> (u64, u64) {
    (x.to_bits(), y.to_bits())
}

fn mp(points: &[(f64, f64)]) -> MultiPointGeom {
    MultiPointGeom {
        points: points.iter().map(|&(x, y)| pt(x, y)).collect(),
    }
}

fn mp0() -> MultiPointGeom {
    mp(&[(0.0, 1.0), (1.0, 2.0)])
}

fn mp1() -> MultiPointGeom {
    mp(&[(3.0, 4.0), (5.0, 6.0)])
}

/// One WKB multi-point buffer: marker, tag 4, count, then one full point
/// record per position.
fn wkb_multipoint_le(points: &[(f64, f64)]) -> Vec<u8> {
    let mut out: Vec<u8> = Vec::new();
    out.push(1);
    out.extend_from_slice(&4u32.to_le_bytes());
    out.extend_from_slice(&(points.len() as u32).to_le_bytes());
    for &(x, y) in points {
        out.push(1);
        out.extend_from_slice(&1u32.to_le_bytes());
        out.extend_from_slice(&x.to_le_bytes());
        out.extend_from_slice(&y.to_le_bytes());
    }
    out
}

#[test]
fn geo_roundtrip_accurate() {
    let arr = MultiPointArray::from_geoms(&vec![Some(mp0()), Some(mp1())], CoordType::Interleaved)
        .unwrap();
    assert_eq!(arr.value_as_geo(0), mp0());
    assert_eq!(arr.value_as_geo(1), mp1());
}

#[test]
fn geo_roundtrip_accurate_option_vec() {
    let arr = MultiPointArray::from_geoms(
        &vec![Some(mp0()), Some(mp1()), None],
        CoordType::Interleaved,
    )
    .unwrap();
    assert_eq!(arr.get_as_geo(0), Some(mp0()));
    assert_eq!(arr.get_as_geo(1), Some(mp1()));
    assert_eq!(arr.get_as_geo(2), None);
}

#[test]
fn slice() {
    let mut arr =
        MultiPointArray::from_geoms(&vec![Some(mp0()), Some(mp1())], CoordType::Interleaved)
            .unwrap();
    arr.slice(1, 1);
    assert_eq!(arr.len(), 1);
    assert_eq!(arr.get_as_geo(0), Some(mp1()));
}

#[test]
fn owned_slice() {
    let arr = MultiPointArray::from_geoms(&vec![Some(mp0()), Some(mp1())], CoordType::Interleaved)
        .unwrap();
    let sliced = arr.owned_slice(1, 1);

    assert!(
        !sliced.geom_offsets.is_sliced(),
        "underlying offsets should not be sliced"
    );
    assert_eq!(arr.len(), 2);
    assert_eq!(sliced.len(), 1);
    assert_eq!(sliced.get_as_geo(0), Some(mp1()));
}

#[test]
fn owned_slice_offsets_rebased() {
    let mut arr = MultiPointArray::from_geoms(
        &vec![Some(mp0()), Some(mp1()), Some(mp(&[(7.0, 8.0)]))],
        CoordType::Separated,
    )
    .unwrap();
    let owned = arr.owned_slice(1, 2);
    // Slicing the source afterwards must not disturb the owned copy.
    arr.slice(0, 1);
    assert_eq!(owned.len(), 2);
    assert_eq!(owned.get_as_geo(0), Some(mp1()));
    assert_eq!(owned.get_as_geo(1), Some(mp(&[(7.0, 8.0)])));
    assert!(!owned.geom_offsets.is_sliced());
}

#[test]
fn parse_wkb_geoarrow_interleaved_example() {
    let geom_arr =
        MultiPointArray::from_geoms(&vec![Some(mp0()), Some(mp1())], CoordType::Interleaved)
            .unwrap();

    let wkb_arr = WKBArray::new(
        vec![
            wkb_multipoint_le(&[(0.0, 1.0), (1.0, 2.0)]),
            wkb_multipoint_le(&[(3.0, 4.0), (5.0, 6.0)]),
        ],
        None,
    );
    let parsed_geom_arr = MultiPointArray::try_from_wkb(&wkb_arr, CoordType::Interleaved).unwrap();

    assert_eq!(geom_arr.iter_geo(), parsed_geom_arr.iter_geo());
}

#[test]
fn parse_wkb_geoarrow_separated_example() {
    let geom_arr =
        MultiPointArray::from_geoms(&vec![Some(mp0()), Some(mp1())], CoordType::Separated)
            .unwrap()
            .into_coord_type(CoordType::Interleaved);

    let wkb_arr = WKBArray::new(
        vec![
            wkb_multipoint_le(&[(0.0, 1.0), (1.0, 2.0)]),
            wkb_multipoint_le(&[(3.0, 4.0), (5.0, 6.0)]),
        ],
        None,
    );
    let parsed_geom_arr = MultiPointArray::try_from_wkb(&wkb_arr, CoordType::Interleaved).unwrap();

    assert_eq!(geom_arr.iter_geo(), parsed_geom_arr.iter_geo());
}

#[test]
fn wkb_decode_layout_value_equal() {
    // Decoding one batch into either layout gives value-equal arrays even
    // though the physical buffers differ.
    let wkb_arr = WKBArray::new(
        vec![wkb_multipoint_le(&[(1.5, -2.5), (3.25, 4.75)])],
        None,
    );
    let a = MultiPointArray::try_from_wkb(&wkb_arr, CoordType::Interleaved).unwrap();
    let b = MultiPointArray::try_from_wkb(&wkb_arr, CoordType::Separated).unwrap();
    assert_ne!(a.coord_type(), b.coord_type());
    assert_eq!(a.iter_geo(), b.iter_geo());
}

#[test]
fn multipoint_scenario_null_and_empty() {
    // [Some([(0,0),(1,1)]), None, Some([])]: length three, a null middle
    // slot, and an empty (not null) final slot.
    let arr = MultiPointArray::from_geoms(
        &vec![Some(mp(&[(0.0, 0.0), (1.0, 1.0)])), None, Some(mp(&[]))],
        CoordType::Interleaved,
    )
    .unwrap();
    assert_eq!(arr.len(), 3);
    assert!(arr.is_null(1));
    assert_eq!(arr.get_as_geo(2), Some(mp(&[])));
    assert!(!arr.is_null(2));
}

#[test]
fn empty_array_boundaries() {
    let arr = MultiPointArray::from_geoms(&vec![], CoordType::Interleaved).unwrap();
    assert_eq!(arr.len(), 0);
    let sliced = arr.owned_slice(0, 0);
    assert_eq!(sliced.len(), 0);
    let mut arr2 =
        MultiPointArray::from_geoms(&vec![Some(mp0())], CoordType::Interleaved).unwrap();
    arr2.slice(0, 0);
    assert_eq!(arr2.len(), 0);
}

#[test]
fn scalar_accessors() {
    let arr = MultiPointArray::from_geoms(&vec![Some(mp0())], CoordType::Separated).unwrap();
    let value = arr.value(0);
    assert_eq!(value.num_points(), 2);
    assert_eq!(value.point(0), Some(pt(0.0, 1.0)));
    assert_eq!(value.point(1), Some(pt(1.0, 2.0)));
    assert_eq!(value.point(2), None);
}

#[test]
fn validity_mismatch_is_rejected() {
    let arr = MultiPointArray::from_geoms(&vec![Some(mp0()), Some(mp1())], CoordType::Interleaved)
        .unwrap();
    let bad = Validity::from_bools(vec![true]);
    let err = MultiPointArray::try_new(arr.coords, arr.geom_offsets, Some(bad)).unwrap_err();
    assert_eq!(err, geoarrow::GeoArrowError::ValidityLengthMismatch);
}

#[test]
fn offset_length_mismatch_is_rejected() {
    let arr = MultiPointArray::from_geoms(&vec![Some(mp0())], CoordType::Interleaved).unwrap();
    // One fewer coordinate than the terminal offset demands.
    let short = arr.coords.owned_slice(0, 1);
    let err = MultiPointArray::try_new(short, arr.geom_offsets, None).unwrap_err();
    assert_eq!(err, geoarrow::GeoArrowError::OffsetLengthMismatch);
}

#[test]
fn default_array_is_empty() {
    let arr = MultiPointArray::default();
    assert_eq!(arr.len(), 0);
    assert!(arr.validity().is_none());
    assert_eq!(arr.iter_geo(), Vec::new());
}

#[test]
fn point_geom_field_access() {
    let p = PointGeom {
        x: 2.0f64.to_bits(),
        y: 3.0f64.to_bits(),
    };
    assert_eq!(f64::from_bits(p.x), 2.0);
    assert_eq!(f64::from_bits(p.y), 3.0);
}
