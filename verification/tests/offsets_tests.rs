use geoarrow::GeoArrowError;
use geoarrow::offsets::{NarrowOffsetBuffer, OffsetBuffer};

#[test]
fn from_lengths_accumulates() {
    let b = OffsetBuffer::from_lengths(&vec![2, 0, 3]).unwrap();
    assert_eq!(b.len(), 3);
    assert_eq!(b.start_end(0), (0, 2));
    assert_eq!(b.start_end(1), (2, 2));
    assert_eq!(b.start_end(2), (2, 5));
    assert_eq!(b.last(), 5);
    assert_eq!(b.first(), 0);
    assert!(!b.is_sliced());
}

#[test]
fn from_lengths_overflow() {
    let err = OffsetBuffer::from_lengths(&vec![usize::MAX]).unwrap_err();
    assert_eq!(err, GeoArrowError::LengthOverflow);
}

#[test]
fn try_new_rejects_non_monotone() {
    let err = OffsetBuffer::try_new(vec![0, 3, 2]).unwrap_err();
    assert_eq!(err, GeoArrowError::OffsetsNotMonotone);
    let err2 = OffsetBuffer::try_new(vec![-1, 0]).unwrap_err();
    assert_eq!(err2, GeoArrowError::OffsetsNotMonotone);
    let err3 = OffsetBuffer::try_new(Vec::new()).unwrap_err();
    assert_eq!(err3, GeoArrowError::OffsetsNotMonotone);
}

#[test]
fn slice_keeps_absolute_values() {
    let mut b = OffsetBuffer::try_new(vec![0, 2, 2, 5]).unwrap();
    b.slice(1, 2);
    assert_eq!(b.len(), 2);
    assert_eq!(b.start_end(0), (2, 2));
    assert_eq!(b.start_end(1), (2, 5));
    assert!(b.is_sliced());
}

#[test]
fn owned_slice_rebases() {
    let mut b = OffsetBuffer::try_new(vec![0, 2, 2, 5]).unwrap();
    b.slice(1, 2);
    let o = b.owned_slice(0, 2);
    assert!(!o.is_sliced());
    assert_eq!(o.first(), 0);
    assert_eq!(o.start_end(0), (0, 0));
    assert_eq!(o.start_end(1), (0, 3));
}

#[test]
fn widen_narrow_roundtrip() {
    // Narrow to wide and back restores the original exactly.
    let n = NarrowOffsetBuffer::try_new(vec![0, 1, 4, 9]).unwrap();
    let w = n.widen();
    let back = w.narrow().unwrap();
    assert_eq!(back.data, vec![0, 1, 4, 9]);
    assert_eq!(back.start, 0);
    assert_eq!(back.count, 3);
}

#[test]
fn narrow_widen_roundtrip() {
    // Wide to narrow and back, when every value fits the narrow range.
    let w = OffsetBuffer::try_new(vec![0, 7, 7, 12]).unwrap();
    let n = w.narrow().unwrap();
    let back = n.widen();
    assert_eq!(back.data, vec![0, 7, 7, 12]);
    assert_eq!(back.start, w.start);
    assert_eq!(back.count, w.count);
}

#[test]
fn narrow_judges_the_window() {
    // A sliced buffer narrows on its logical window: an oversized value in
    // the hidden tail of the backing storage does not matter.
    let mut w = OffsetBuffer::try_new(vec![0, 1, 2, (i32::MAX as i64) + 5]).unwrap();
    w.slice(0, 2);
    let n = w.narrow().unwrap();
    assert_eq!(n.data, vec![0, 1, 2]);
    assert_eq!(n.start, 0);
    assert_eq!(n.count, 2);
}

#[test]
fn narrow_overflow_leaves_source() {
    let big: i64 = (i32::MAX as i64) + 1;
    let w = OffsetBuffer::try_new(vec![0, big]).unwrap();
    let err = w.narrow().unwrap_err();
    assert_eq!(err, GeoArrowError::NarrowOverflow);
    // The source is untouched and still answers queries.
    assert_eq!(w.len(), 1);
    assert_eq!(w.last(), big as usize);
}
