use chrono::{DateTime, NaiveDate};
use orc_column::column::Column;
use orc_column::error::{DecodeFailure, Error};
use orc_column::timestamp::{
    decode_timestamp, descale_nanos, new_timestamp_iter, reconstruct, timestamp_rows,
    IntegerRleDecoder, Timestamp, TimestampIterator, TIMESTAMP_BASE,
};

/// Reads each stream byte as one value, the sign of the signed stream from
/// the byte read as `i8`.
struct ByteDecoder;

impl IntegerRleDecoder for ByteDecoder {
    fn decode_signed(&self, stream: &Vec<u8>, rows: usize) -> Vec<Result<i64, Error>> {
        stream.iter().take(rows).map(|b| Ok(*b as i8 as i64)).collect()
    }

    fn decode_unsigned(&self, stream: &Vec<u8>, rows: usize) -> Vec<Result<u64, Error>> {
        stream.iter().take(rows).map(|b| Ok(*b as u64)).collect()
    }
}

fn ts(seconds: i64, nanos: u32) -> Timestamp {
    Timestamp { seconds, nanos }
}

#[test]
fn descale_without_zero_code() {
    let encoded: u64 = 12345 << 3;
    assert_eq!(descale_nanos(encoded), 12345);
    assert_eq!(descale_nanos(0), 0);
}

#[test]
fn descale_with_zero_code_two() {
    let encoded: u64 = (12345 << 3) | 2;
    assert_eq!(descale_nanos(encoded), 12345 * 1000);
}

#[test]
fn descale_with_zero_code_one_multiplies_by_hundred() {
    assert_eq!(descale_nanos((5 << 3) | 1), 500);
    assert_eq!(descale_nanos((7 << 3) | 7), 7 * 100_000_000);
}

#[test]
fn descale_of_the_largest_encoding() {
    assert_eq!(descale_nanos(u64::MAX), (u64::MAX >> 3) as u128 * 100_000_000);
}

#[test]
fn epoch_offset_is_2015() {
    let t = decode_timestamp(0, 0).unwrap();
    assert_eq!(t, ts(TIMESTAMP_BASE, 0));
    let dt = DateTime::from_timestamp(t.seconds, t.nanos).unwrap().naive_utc();
    let expected = NaiveDate::from_ymd_opt(2015, 1, 1).unwrap().and_hms_nano_opt(0, 0, 0, 0).unwrap();
    assert_eq!(dt, expected);
}

#[test]
fn reconstruct_parts() {
    assert_eq!(reconstruct(0, 0), Ok((1420070400, 0)));
    assert_eq!(reconstruct(-10, (3 << 3) | 2), Ok((1420070390, 3000)));
    assert_eq!(reconstruct(i64::MAX, 0), Err(Error::InvalidTimestamp));
}

#[test]
fn nanos_of_a_second_or_more_are_invalid() {
    assert_eq!(decode_timestamp(0, 1_000_000_000 << 3), Err(Error::InvalidTimestamp));
    assert_eq!(decode_timestamp(0, 999_999_999 << 3), Ok(ts(TIMESTAMP_BASE, 999_999_999)));
    assert_eq!(decode_timestamp(0, (10 << 3) | 7), Err(Error::InvalidTimestamp));
}

#[test]
fn seconds_outside_the_calendar_are_invalid() {
    assert_eq!(decode_timestamp(i64::MAX - TIMESTAMP_BASE, 0), Err(Error::InvalidTimestamp));
    assert_eq!(decode_timestamp(i64::MIN, 0), Err(Error::InvalidTimestamp));
}

#[test]
fn paired_streams_in_lockstep() {
    let it = TimestampIterator::new(vec![Ok(0), Ok(60)], vec![Ok(8), Ok((5 << 3) | 1)]);
    assert_eq!(it.collect_values(), vec![Ok(ts(TIMESTAMP_BASE, 1)), Ok(ts(TIMESTAMP_BASE + 60, 500))]);
}

#[test]
fn seconds_error_does_not_take_a_nanosecond_value() {
    let bad = Error::DecodeError { reason: DecodeFailure::Malformed };
    let mut it = TimestampIterator::new(vec![Err(bad.clone()), Ok(1)], vec![Ok(16)]);
    assert_eq!(it.next(), Some(Err(bad)));
    assert_eq!(it.next(), Some(Ok(ts(TIMESTAMP_BASE + 1, 2))));
    assert_eq!(it.next(), None);
}

#[test]
fn nanosecond_error_takes_the_pair() {
    let bad = Error::DecodeError { reason: DecodeFailure::Malformed };
    let it = TimestampIterator::new(vec![Ok(0), Ok(1)], vec![Err(bad.clone()), Ok(0)]);
    assert_eq!(it.collect_values(), vec![Err(bad), Ok(ts(TIMESTAMP_BASE + 1, 0))]);
}

#[test]
fn paired_ends_where_nanos_run_out() {
    let mut it = TimestampIterator::new(vec![Ok(0), Err(Error::InvalidTimestamp)], vec![]);
    assert_eq!(it.next(), None);
    assert_eq!(it.next(), None);
}

#[test]
fn timestamp_rows_merge_with_mask() {
    let rows = timestamp_rows(vec![false, true, true], vec![Ok(0), Ok(2)], vec![Ok(0)]).collect_rows();
    assert_eq!(rows, vec![
        Ok(None),
        Ok(Some(ts(TIMESTAMP_BASE, 0))),
        Err(Error::DecodeError { reason: DecodeFailure::LengthMismatch }),
    ]);
}

#[test]
fn timestamp_column() {
    let col = Column {
        name: "at".to_string(),
        rows: 4,
        present: Some(vec![0xff, 0b1011_0000]),
        data: Some(vec![0, 0xff, 10]),
        secondary: Some(vec![0, 8, (3 << 3) | 2]),
    };
    let rows = new_timestamp_iter(&col, &ByteDecoder).unwrap().collect_rows();
    assert_eq!(rows, vec![
        Ok(Some(ts(TIMESTAMP_BASE, 0))),
        Ok(None),
        Ok(Some(ts(TIMESTAMP_BASE - 1, 1))),
        Ok(Some(ts(TIMESTAMP_BASE + 10, 3000))),
    ]);
}

#[test]
fn timestamp_column_needs_both_value_streams() {
    let no_secondary = Column {
        name: "at".to_string(),
        rows: 1,
        present: None,
        data: Some(vec![0]),
        secondary: None,
    };
    assert_eq!(
        new_timestamp_iter(&no_secondary, &ByteDecoder).err(),
        Some(Error::InvalidColumn { name: "at".to_string() })
    );
    let no_data = Column { name: "b".to_string(), rows: 1, present: None, data: None, secondary: Some(vec![0]) };
    assert_eq!(
        new_timestamp_iter(&no_data, &ByteDecoder).err(),
        Some(Error::InvalidColumn { name: "b".to_string() })
    );
}
