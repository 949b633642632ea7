use crate::error::{DecodeFailure, Error, truncated};
use vstd::prelude::*;

verus! {

/// The bytes that a byte run-length stream encodes, and whether the whole
/// stream was well formed. A header below 128 is a run of `header + 3` copies
/// of the next byte; a header `h` of 128 or more is followed by `256 - h`
/// literal bytes. Decoding stops at the first truncated group.
pub open spec fn byte_rle(b: Seq<u8>) -> (Seq<u8>, bool)
    decreases b.len(),
{
    if b.len() == 0 {
        (seq![], true)
    } else if b[0] < 128 {
        if b.len() < 2 {
            (seq![], false)
        } else {
            let rest = byte_rle(b.skip(2));
            (Seq::new(b[0] as nat + 3, |i: int| b[1]) + rest.0, rest.1)
        }
    } else {
        let n = 256 - b[0] as int;
        if b.len() < 1 + n {
            (seq![], false)
        } else {
            let rest = byte_rle(b.skip(1 + n));
            (b.subrange(1, 1 + n) + rest.0, rest.1)
        }
    }
}

/// Bit `i` of a packed bit sequence: eight bits per byte, most significant first.
pub open spec fn bit_of(bytes: Seq<u8>, i: int) -> bool {
    (bytes[i / 8] >> ((7 - i % 8) as u8)) & 1u8 == 1u8
}

/// The first `n` bits of `bytes`.
pub open spec fn bits(bytes: Seq<u8>, n: nat) -> Seq<bool> {
    Seq::new(n, |i: int| bit_of(bytes, i))
}

/// Decodes a byte run-length stream.
pub fn decode_byte_rle(b: &Vec<u8>) -> (r: (Vec<u8>, bool))
    ensures
        r.0@ == byte_rle(b@).0,
        r.1 == byte_rle(b@).1,
{
    let mut out: Vec<u8> = Vec::new();
    let mut pos: usize = 0;
    assert(b@.skip(0) =~= b@);
    assert(out@ + byte_rle(b@).0 =~= byte_rle(b@).0);
    while pos < b.len()
        invariant
            pos <= b.len(),
            byte_rle(b@).0 == out@ + byte_rle(b@.skip(pos as int)).0,
            byte_rle(b@).1 == byte_rle(b@.skip(pos as int)).1,
        decreases b.len() - pos,
    {
        let h = b[pos];
        let ghost tail = b@.skip(pos as int);
        if h < 128 {
            if b.len() - pos < 2 {
                assert(out@ + seq![] == out@);
                return (out, false);
            }
            let v = b[pos + 1];
            let cnt: usize = h as usize + 3;
            let ghost start = out@;
            let mut k: usize = 0;
            while k < cnt
                invariant
                    k <= cnt,
                    out@ == start + Seq::new(k as nat, |i: int| v),
                decreases cnt - k,
            {
                out.push(v);
                k = k + 1;
                assert(out@ =~= start + Seq::new(k as nat, |i: int| v));
            }
            assert(tail.skip(2) =~= b@.skip(pos + 2));
            assert(Seq::new(cnt as nat, |i: int| v) =~= Seq::new(tail[0] as nat + 3, |i: int| tail[1]));
            assert(start + (Seq::new(cnt as nat, |i: int| v) + byte_rle(b@.skip(pos + 2)).0)
                =~= out@ + byte_rle(b@.skip(pos + 2)).0);
            pos = pos + 2;
        } else {
            let n: usize = 256 - h as usize;
            if b.len() - pos < 1 + n {
                assert(out@ + seq![] == out@);
                return (out, false);
            }
            let ghost start = out@;
            let mut k: usize = 0;
            while k < n
                invariant
                    k <= n,
                    pos + 1 + n <= b.len(),
                    out@ == start + b@.subrange(pos + 1, pos + 1 + k),
                decreases n - k,
            {
                out.push(b[pos + 1 + k]);
                k = k + 1;
                assert(out@ =~= start + b@.subrange(pos + 1, pos + 1 + k));
            }
            assert(tail.skip(1 + n) =~= b@.skip(pos + 1 + n));
            assert(tail.subrange(1, 1 + n) =~= b@.subrange(pos + 1, pos + 1 + n));
            assert(start + (b@.subrange(pos + 1, pos + 1 + n) + byte_rle(b@.skip(pos + 1 + n)).0)
                =~= out@ + byte_rle(b@.skip(pos + 1 + n)).0);
            pos = pos + 1 + n;
        }
    }
    assert(b@.skip(pos as int).len() == 0);
    assert(out@ + seq![] == out@);
    (out, true)
}

/// The values that a boolean stream yields for `rows` expected values: one per
/// bit of the decoded bytes, and, where the stream holds fewer than `rows`
/// bits, a truncation error after the bits it does hold.
pub open spec fn boolean_values(stream: Seq<u8>, rows: nat) -> Seq<Result<bool, Error>> {
    let bytes = byte_rle(stream).0;
    if rows <= bytes.len() * 8 {
        Seq::new(rows, |i: int| Ok(bit_of(bytes, i)))
    } else {
        Seq::new(bytes.len() * 8, |i: int| Ok(bit_of(bytes, i))).push(Err(truncated()))
    }
}

/// The presence mask that a presence stream encodes for `rows` logical rows.
pub open spec fn presence_mask(stream: Seq<u8>, rows: nat) -> Result<Seq<bool>, Error> {
    let bytes = byte_rle(stream).0;
    if rows <= bytes.len() * 8 {
        Ok(bits(bytes, rows))
    } else {
        Err(truncated())
    }
}

/// Unpacks the first `count` bits of `bytes`, most significant bit of each byte
/// first; fewer where `bytes` holds fewer bits.
pub fn unpack_bits(bytes: &Vec<u8>, count: usize) -> (r: Vec<bool>)
    ensures
        r@.len() == if count <= bytes@.len() * 8 { count as nat } else { bytes@.len() * 8 },
        forall|i: int| 0 <= i < r@.len() ==> r@[i] == bit_of(bytes@, i),
{
    let mut out: Vec<bool> = Vec::new();
    let mut i: usize = 0;
    while i < count && i / 8 < bytes.len()
        invariant
            i <= count,
            i <= bytes@.len() * 8,
            out@.len() == i,
            forall|j: int| 0 <= j < i ==> out@[j] == bit_of(bytes@, j),
        decreases count - i,
    {
        let byte = bytes[i / 8];
        let shift = (7 - i % 8) as u8;
        out.push((byte >> shift) & 1 == 1);
        i = i + 1;
    }
    out
}

/// Decodes the presence stream of `rows` logical rows into its mask.
pub fn decode_presence(stream: &Vec<u8>, rows: usize) -> (r: Result<Vec<bool>, Error>)
    ensures
        match presence_mask(stream@, rows as nat) {
            Ok(m) => r is Ok && r->Ok_0@ == m,
            Err(e) => r == Err::<Vec<bool>, Error>(e),
        },
{
    let (bytes, _) = decode_byte_rle(stream);
    let mask = unpack_bits(&bytes, rows);
    if mask.len() < rows {
        Err(Error::DecodeError { reason: DecodeFailure::Truncated })
    } else {
        assert(mask@ =~= bits(bytes@, rows as nat));
        Ok(mask)
    }
}

/// Decodes a boolean value stream that is expected to hold `rows` values.
pub fn decode_booleans(stream: &Vec<u8>, rows: usize) -> (r: Vec<Result<bool, Error>>)
    ensures
        r@ == boolean_values(stream@, rows as nat),
{
    let (bytes, _) = decode_byte_rle(stream);
    let bits = unpack_bits(&bytes, rows);
    let mut out: Vec<Result<bool, Error>> = Vec::new();
    let mut i: usize = 0;
    while i < bits.len()
        invariant
            i <= bits@.len(),
            out@.len() == i,
            forall|j: int| 0 <= j < i ==> out@[j] == Ok::<bool, Error>(bits@[j]),
        decreases bits.len() - i,
    {
        out.push(Ok(bits[i]));
        i = i + 1;
    }
    if bits.len() < rows {
        out.push(Err(Error::DecodeError { reason: DecodeFailure::Truncated }));
    }
    assert(out@ =~= boolean_values(stream@, rows as nat));
    out
}

} // verus!
