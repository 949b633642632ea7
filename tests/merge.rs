use orc_column::error::{DecodeFailure, Error};
use orc_column::nullable::{count_present, to_queue, NullableIterator};

fn mismatch() -> Error {
    Error::DecodeError { reason: DecodeFailure::LengthMismatch }
}

#[test]
fn order_is_preserved_with_nulls() {
    let mask = vec![true, false, true, false, false, true];
    let raw: Vec<Result<i32, Error>> = vec![Ok(1), Ok(2), Ok(3)];
    let rows = NullableIterator::new(mask, raw).collect_rows();
    assert_eq!(rows, vec![Ok(Some(1)), Ok(None), Ok(Some(2)), Ok(None), Ok(None), Ok(Some(3))]);
}

#[test]
fn one_row_per_mask_entry() {
    let mask = vec![false, true, true, false, true, false, false];
    let raw: Vec<Result<u8, Error>> = vec![Ok(7), Ok(8), Ok(9)];
    let rows = NullableIterator::new(mask.clone(), raw).collect_rows();
    assert_eq!(rows.len(), mask.len());
    for (m, r) in mask.iter().zip(rows.iter()) {
        assert_eq!(*m, matches!(r, Ok(Some(_))));
    }
}

#[test]
fn exhaustion_is_a_fatal_error() {
    let mask = vec![true, false, true, true, false];
    let raw: Vec<Result<i32, Error>> = vec![Ok(10)];
    let mut it = NullableIterator::new(mask, raw);
    assert_eq!(it.next(), Some(Ok(Some(10))));
    assert_eq!(it.next(), Some(Ok(None)));
    assert_eq!(it.next(), Some(Err(mismatch())));
    assert_eq!(it.next(), None);
    assert_eq!(it.next(), None);
}

#[test]
fn raw_errors_are_forwarded_and_iteration_goes_on() {
    let mask = vec![true, true, false, true];
    let raw: Vec<Result<i32, Error>> = vec![Ok(1), Err(Error::InvalidTimestamp), Ok(3)];
    let rows = NullableIterator::new(mask, raw).collect_rows();
    assert_eq!(rows, vec![Ok(Some(1)), Err(Error::InvalidTimestamp), Ok(None), Ok(Some(3))]);
}

#[test]
fn empty_mask_yields_nothing() {
    let raw: Vec<Result<i32, Error>> = vec![Ok(1)];
    let mut it = NullableIterator::new(vec![], raw);
    assert_eq!(it.next(), None);
}

#[test]
fn all_absent_takes_no_raw_value() {
    let raw: Vec<Result<i32, Error>> = vec![];
    let rows = NullableIterator::new(vec![false, false, false], raw).collect_rows();
    assert_eq!(rows, vec![Ok(None), Ok(None), Ok(None)]);
}

#[test]
fn counts_present_rows() {
    assert_eq!(count_present(&vec![true, false, true, true]), 3);
    assert_eq!(count_present(&vec![]), 0);
    assert_eq!(count_present(&vec![false, false]), 0);
}

#[test]
fn queue_keeps_order() {
    let q = to_queue(vec![3, 1, 2]);
    assert_eq!(q.into_iter().collect::<Vec<_>>(), vec![3, 1, 2]);
}
