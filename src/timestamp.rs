use crate::column::{Column, StreamKind, column_mask, new_present_mask};
use crate::error::Error;
use crate::nullable::{NullableIterator, count_present, merge, to_queue};
use std::collections::VecDeque;
use vstd::prelude::*;

verus! {

/// Unix seconds of 2015-01-01T00:00:00 UTC, the origin of encoded seconds.
pub const TIMESTAMP_BASE: i64 = 1420070400;

/// The largest nanosecond part of a valid instant.
pub const MAX_NANOS: u64 = 999_999_999;

/// An instant: whole seconds since the Unix epoch and the nanoseconds after them.
#[derive(Debug, Clone, Copy, PartialEq, Eq)]
pub struct Timestamp {
    pub seconds: i64,
    pub nanos: u32,
}

/// Whether chrono has an instant `secs` seconds and `nsecs` nanoseconds after
/// the Unix epoch.
pub uninterp spec fn instant_in_range(secs: i64, nsecs: u32) -> bool;

/// Relies on chrono::DateTime::from_timestamp, which returns `Some` exactly when
/// the seconds fall in chrono's date range (years -262143 to 262142) and the
/// nanoseconds form a valid time of day; it depends on its arguments alone.
/// About 253,000 years either side of 1970 lie well inside that range.
#[verifier::external_body]
fn instant_exists(secs: i64, nsecs: u32) -> (r: bool)
    ensures
        r == instant_in_range(secs, nsecs),
        nsecs < 1_000_000_000 && -8_000_000_000_000 <= secs <= 8_000_000_000_000 ==> r,
{
    chrono::DateTime::from_timestamp(secs, nsecs).is_some()
}

/// Ten to the power `k`.
pub open spec fn pow10(k: nat) -> nat
    decreases k,
{
    if k == 0 {
        1
    } else {
        10 * pow10((k - 1) as nat)
    }
}

/// The nanoseconds that an encoded nanosecond value stands for. The low three
/// bits are a code for stripped trailing zeros; where the code is not zero the
/// remaining bits are scaled by ten to the power of the code plus one.
pub open spec fn descaled_nanos(encoded: u64) -> nat {
    let zeros = encoded & 7u64;
    let n = encoded >> 3u64;
    if zeros == 0 {
        n as nat
    } else {
        n as nat * pow10(zeros as nat + 1)
    }
}

proof fn lemma_pow10_small(k: nat)
    requires
        k <= 8,
    ensures
        pow10(k) <= 100_000_000,
{
    reveal_with_fuel(pow10, 9);
    assert(k == 0 || k == 1 || k == 2 || k == 3 || k == 4 || k == 5 || k == 6 || k == 7 || k == 8);
}

/// Descaling: a zero code leaves the nanoseconds as they are after the code is
/// shifted out, and a code of two multiplies them by a thousand.
pub proof fn lemma_descale_cases(encoded: u64)
    ensures
        encoded & 7u64 == 0 ==> descaled_nanos(encoded) == encoded >> 3u64,
        encoded & 7u64 == 2 ==> descaled_nanos(encoded) == (encoded >> 3u64) * 1000,
{
    reveal_with_fuel(pow10, 4);
}

/// Restores the nanoseconds of an encoded nanosecond value.
pub fn descale_nanos(encoded: u64) -> (r: u128)
    ensures
        r as nat == descaled_nanos(encoded),
{
    let zeros = encoded & 7;
    let base = encoded >> 3;
    assert(encoded & 7u64 <= 7) by (bit_vector);
    assert(encoded >> 3u64 <= 0x1fff_ffff_ffff_ffffu64) by (bit_vector);
    let mut n: u128 = base as u128;
    if zeros != 0 {
        let mut k: u64 = 0;
        assert(pow10(0) == 1);
        while k <= zeros
            invariant
                zeros <= 7,
                k <= zeros + 1,
                base <= 0x1fff_ffff_ffff_ffffu64,
                n == base as nat * pow10(k as nat),
            decreases zeros + 1 - k,
        {
            proof {
                lemma_pow10_small(k as nat);
                let p = pow10(k as nat);
                assert(base as nat * p <= 0x1fff_ffff_ffff_ffffnat * 100_000_000nat) by (nonlinear_arith)
                    requires
                        base <= 0x1fff_ffff_ffff_ffffu64,
                        p <= 100_000_000,
                ;
                assert(base as nat * (10 * p) == 10 * (base as nat * p)) by (nonlinear_arith);
            }
            n = n * 10;
            k = k + 1;
        }
    }
    n
}

/// Epoch seconds and nanoseconds of one row, before the calendar range is
/// checked; `None` where the seconds overflow or the nanoseconds reach a second.
pub open spec fn reconstructed(seconds_delta: i64, encoded: u64) -> Option<(i64, u32)> {
    let secs = seconds_delta + TIMESTAMP_BASE;
    let nanos = descaled_nanos(encoded);
    if secs > i64::MAX || nanos > MAX_NANOS {
        None
    } else {
        Some((secs as i64, nanos as u32))
    }
}

/// The timestamp of one row, from its seconds delta and encoded nanoseconds.
pub open spec fn timestamp_of(seconds_delta: i64, encoded: u64) -> Result<Timestamp, Error> {
    match reconstructed(seconds_delta, encoded) {
        None => Err(Error::InvalidTimestamp),
        Some(p) => if instant_in_range(p.0, p.1) {
            Ok(Timestamp { seconds: p.0, nanos: p.1 })
        } else {
            Err(Error::InvalidTimestamp)
        },
    }
}

/// Epoch seconds and nanoseconds of one row.
pub fn reconstruct(seconds_delta: i64, encoded: u64) -> (r: Result<(i64, u32), Error>)
    ensures
        match reconstructed(seconds_delta, encoded) {
            Some(p) => r == Ok::<(i64, u32), Error>(p),
            None => r == Err::<(i64, u32), Error>(Error::InvalidTimestamp),
        },
{
    let nanos = descale_nanos(encoded);
    if seconds_delta > i64::MAX - TIMESTAMP_BASE || nanos > MAX_NANOS as u128 {
        return Err(Error::InvalidTimestamp);
    }
    Ok((seconds_delta + TIMESTAMP_BASE, nanos as u32))
}

/// The timestamp of one row, checked against the calendar range.
pub fn decode_timestamp(seconds_delta: i64, encoded: u64) -> (r: Result<Timestamp, Error>)
    ensures
        r == timestamp_of(seconds_delta, encoded),
{
    match reconstruct(seconds_delta, encoded) {
        Err(e) => Err(e),
        Ok((seconds, nanos)) => if instant_exists(seconds, nanos) {
            Ok(Timestamp { seconds, nanos })
        } else {
            Err(Error::InvalidTimestamp)
        },
    }
}

/// The timestamps that two lockstep streams yield, one per pair. An error of
/// the seconds stream is yielded without a nanosecond value being taken; an
/// error of the nanosecond stream is yielded in place of the pair. The
/// sequence ends where either stream does.
pub open spec fn paired(secs: Seq<Result<i64, Error>>, nanos: Seq<Result<u64, Error>>) -> Seq<
    Result<Timestamp, Error>,
>
    decreases secs.len(),
{
    if secs.len() == 0 {
        seq![]
    } else {
        match secs[0] {
            Err(e) => seq![Err(e)] + paired(secs.drop_first(), nanos),
            Ok(s) => if nanos.len() == 0 {
                seq![]
            } else {
                match nanos[0] {
                    Err(e) => seq![Err(e)] + paired(secs.drop_first(), nanos.drop_first()),
                    Ok(n) => seq![timestamp_of(s, n)] + paired(
                        secs.drop_first(),
                        nanos.drop_first(),
                    ),
                }
            },
        }
    }
}

/// Pairs a seconds-delta stream with an encoded-nanosecond stream into timestamps.
pub struct TimestampIterator {
    data: VecDeque<Result<i64, Error>>,
    secondary: VecDeque<Result<u64, Error>>,
    done: bool,
}

impl TimestampIterator {
    /// The timestamps that are still to come.
    pub closed spec fn rest(&self) -> Seq<Result<Timestamp, Error>> {
        if self.done {
            seq![]
        } else {
            paired(self.data@, self.secondary@)
        }
    }

    /// Pairs the decoded seconds deltas with the decoded encoded nanoseconds.
    pub fn new(data: Vec<Result<i64, Error>>, secondary: Vec<Result<u64, Error>>) -> (r: Self)
        ensures
            r.rest() == paired(data@, secondary@),
    {
        TimestampIterator { data: to_queue(data), secondary: to_queue(secondary), done: false }
    }

    /// The next timestamp, or `None` after the last one.
    pub fn next(&mut self) -> (r: Option<Result<Timestamp, Error>>)
        ensures
            old(self).rest().len() == 0 ==> r is None && final(self).rest().len() == 0,
            old(self).rest().len() > 0 ==> r == Some(old(self).rest()[0])
                && final(self).rest() == old(self).rest().drop_first(),
    {
        if self.done {
            return None;
        }
        let ghost s = self.data@;
        let ghost n = self.secondary@;
        match self.data.pop_front() {
            None => None,
            Some(Err(e)) => {
                assert(self.data@ =~= s.drop_first());
                Some(Err(e))
            },
            Some(Ok(delta)) => match self.secondary.pop_front() {
                None => {
                    self.done = true;
                    None
                },
                Some(Err(e)) => {
                    assert(self.data@ =~= s.drop_first());
                    assert(self.secondary@ =~= n.drop_first());
                    Some(Err(e))
                },
                Some(Ok(encoded)) => {
                    assert(self.data@ =~= s.drop_first());
                    assert(self.secondary@ =~= n.drop_first());
                    Some(decode_timestamp(delta, encoded))
                },
            },
        }
    }

    /// All remaining timestamps, in order.
    pub fn collect_values(self) -> (r: Vec<Result<Timestamp, Error>>)
        ensures
            r@ == self.rest(),
    {
        let mut it = self;
        let mut out: Vec<Result<Timestamp, Error>> = Vec::new();
        let mut finished = false;
        while !finished
            invariant
                self.rest() == out@ + it.rest(),
                finished ==> it.rest().len() == 0,
            decreases it.rest().len() + if finished { 0int } else { 1int },
        {
            match it.next() {
                None => {
                    finished = true;
                },
                Some(v) => {
                    out.push(v);
                    assert(out@ + it.rest() =~= self.rest());
                },
            }
        }
        assert(out@ + it.rest() =~= out@);
        out
    }
}

/// Decoders of the run-length integer streams that a column's value streams
/// hold. Each is handed a stream's bytes and the number of values expected.
pub trait IntegerRleDecoder {
    /// The signed integers of a stream, in order; an item that cannot be
    /// decoded is an error.
    fn decode_signed(&self, stream: &Vec<u8>, rows: usize) -> Vec<Result<i64, Error>>;

    /// The unsigned integers of a stream, in order; an item that cannot be
    /// decoded is an error.
    fn decode_unsigned(&self, stream: &Vec<u8>, rows: usize) -> Vec<Result<u64, Error>>;
}

/// Merges a presence mask with the timestamps of two decoded value streams.
pub fn timestamp_rows(
    present: Vec<bool>,
    seconds: Vec<Result<i64, Error>>,
    nanos: Vec<Result<u64, Error>>,
) -> (r: NullableIterator<Timestamp>)
    ensures
        r.rest() == merge(present@, paired(seconds@, nanos@)),
{
    let values = TimestampIterator::new(seconds, nanos).collect_values();
    NullableIterator::new(present, values)
}

/// Materializes a timestamp column: its presence mask, merged with the
/// timestamps that its seconds-delta data stream and its encoded-nanosecond
/// secondary stream yield for the present rows.
pub fn new_timestamp_iter<D: IntegerRleDecoder>(column: &Column, decoder: &D) -> (r: Result<
    NullableIterator<Timestamp>,
    Error,
>)
    ensures
        match column_mask(*column) {
            Err(e) => r is Err && r->Err_0 == e,
            Ok(m) => if column.data is None || column.secondary is None {
                r is Err && r->Err_0 == (Error::InvalidColumn { name: column.name })
            } else {
                r is Ok && exists|s: Seq<Result<i64, Error>>, n: Seq<Result<u64, Error>>|
                    r->Ok_0.rest() == merge(m, #[trigger] paired(s, n))
            },
        },
{
    let present = match new_present_mask(column) {
        Ok(p) => p,
        Err(e) => return Err(e),
    };
    let rows = count_present(&present);
    let data = match column.stream(StreamKind::Data) {
        Some(stream) => stream,
        None => return Err(Error::InvalidColumn { name: column.name.clone() }),
    };
    let secondary = match column.stream(StreamKind::Secondary) {
        Some(stream) => stream,
        None => return Err(Error::InvalidColumn { name: column.name.clone() }),
    };
    let seconds = decoder.decode_signed(data, rows);
    let nanos = decoder.decode_unsigned(secondary, rows);
    let ghost s = seconds@;
    let ghost n = nanos@;
    let r = timestamp_rows(present, seconds, nanos);
    assert(r.rest() == merge(present@, paired(s, n)));
    Ok(r)
}

} // verus!
