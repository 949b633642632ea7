use crate::error::{DecodeFailure, Error, length_mismatch};
use std::collections::VecDeque;
use vstd::prelude::*;

verus! {

/// A raw value wrapped as the value of a present row.
pub open spec fn lift<T>(v: Result<T, Error>) -> Result<Option<T>, Error> {
    match v {
        Ok(x) => Ok(Some(x)),
        Err(e) => Err(e),
    }
}

/// The rows that the merge of a presence mask with a raw value sequence yields.
/// An absent row yields `Ok(None)` and takes no raw value; a present row takes
/// the next raw value. A present row that finds the raw values used up yields
/// a length-mismatch error, and nothing follows it.
pub open spec fn merge<T>(mask: Seq<bool>, vals: Seq<Result<T, Error>>) -> Seq<Result<Option<T>, Error>>
    decreases mask.len(),
{
    if mask.len() == 0 {
        seq![]
    } else if !mask[0] {
        seq![Ok(None)] + merge(mask.drop_first(), vals)
    } else if vals.len() == 0 {
        seq![Err(length_mismatch())]
    } else {
        seq![lift(vals[0])] + merge(mask.drop_first(), vals.drop_first())
    }
}

/// The number of `true` entries of a mask: the number of present rows.
pub open spec fn count_true(s: Seq<bool>) -> nat
    decreases s.len(),
{
    if s.len() == 0 {
        0
    } else {
        (if s[0] { 1nat } else { 0nat }) + count_true(s.drop_first())
    }
}

proof fn lemma_count_take_step(mask: Seq<bool>, i: int)
    requires
        0 < i <= mask.len(),
    ensures
        count_true(mask.take(i)) == (if mask[0] { 1nat } else { 0nat }) + count_true(
            mask.drop_first().take(i - 1),
        ),
{
    assert(mask.take(i).drop_first() =~= mask.drop_first().take(i - 1));
}

/// What the merge yields at each row: `Ok(None)` for an absent row; for a
/// present row, the raw value whose index is the number of present rows before
/// it, or, where no such raw value exists, a length-mismatch error that ends
/// the sequence. All rows are yielded exactly when the raw values suffice.
pub proof fn lemma_merge_rows<T>(mask: Seq<bool>, vals: Seq<Result<T, Error>>)
    ensures
        merge(mask, vals).len() <= mask.len(),
        forall|i: int|
            0 <= i < merge(mask, vals).len() && !mask[i] ==> #[trigger] merge(mask, vals)[i]
                == Ok::<Option<T>, Error>(None),
        forall|i: int|
            0 <= i < merge(mask, vals).len() && mask[i] && count_true(mask.take(i)) < vals.len()
                ==> #[trigger] merge(mask, vals)[i] == lift(vals[count_true(mask.take(i)) as int]),
        forall|i: int|
            0 <= i < merge(mask, vals).len() && mask[i] && count_true(mask.take(i)) >= vals.len()
                ==> #[trigger] merge(mask, vals)[i] == Err::<Option<T>, Error>(length_mismatch())
                && i == merge(mask, vals).len() - 1,
        count_true(mask) <= vals.len() ==> merge(mask, vals).len() == mask.len(),
        count_true(mask) > vals.len() ==> {
            let n = merge(mask, vals).len() as int;
            &&& n >= 1
            &&& mask[n - 1]
            &&& count_true(mask.take(n - 1)) == vals.len()
            &&& merge(mask, vals)[n - 1] == Err::<Option<T>, Error>(length_mismatch())
        },
    decreases mask.len(),
{
    let m = merge(mask, vals);
    if mask.len() == 0 {
    } else {
        let tail = mask.drop_first();
        let rv = if mask[0] { vals.drop_first() } else { vals };
        if mask[0] && vals.len() == 0 {
            assert(mask.take(0) =~= Seq::<bool>::empty());
            assert(count_true(mask.take(0)) == 0);
        } else {
            lemma_merge_rows(tail, rv);
            let r = merge(tail, rv);
            assert(m =~= seq![m[0]] + r);
            assert(mask.take(0) =~= Seq::<bool>::empty());
            assert forall|i: int| 0 < i < m.len() implies count_true(mask.take(i)) == (if mask[0] {
                1nat
            } else {
                0nat
            }) + count_true(tail.take(i - 1)) && m[i] == r[i - 1] && mask[i] == tail[i - 1] by {
                lemma_count_take_step(mask, i);
            }
            assert forall|i: int|
                0 <= i < m.len() && mask[i] && count_true(mask.take(i)) < vals.len() implies #[trigger] m[i]
                == lift(vals[count_true(mask.take(i)) as int]) by {
                if i > 0 {
                    if mask[0] {
                        assert(vals.drop_first()[count_true(tail.take(i - 1)) as int] == vals[count_true(tail.take(i - 1)) + 1int]);
                    }
                }
            }
            if count_true(mask) > vals.len() {
                let n = m.len() as int;
                if n == 1 {
                    assert(r.len() == 0);
                    if !mask[0] {
                        assert(count_true(tail) > rv.len());
                    } else {
                        assert(count_true(tail) > rv.len());
                    }
                }
                lemma_count_take_step(mask, n - 1);
            }
        }
    }
}

proof fn lemma_count_push(s: Seq<bool>, b: bool)
    ensures
        count_true(s.push(b)) == count_true(s) + if b { 1nat } else { 0nat },
    decreases s.len(),
{
    if s.len() > 0 {
        assert(s.push(b).drop_first() =~= s.drop_first().push(b));
        lemma_count_push(s.drop_first(), b);
    } else {
        assert(s.push(b).drop_first() =~= s);
    }
}

proof fn lemma_count_prefix(mask: Seq<bool>, i: int)
    requires
        0 <= i < mask.len(),
    ensures
        count_true(mask.take(i)) + (if mask[i] { 1nat } else { 0nat }) <= count_true(mask),
    decreases mask.len() - i,
{
    assert(mask.take(i + 1) =~= mask.take(i).push(mask[i]));
    lemma_count_push(mask.take(i), mask[i]);
    if i + 1 < mask.len() {
        lemma_count_prefix(mask, i + 1);
    } else {
        assert(mask.take(i + 1) =~= mask);
    }
}

/// Counts the present rows of a mask.
pub fn count_present(mask: &Vec<bool>) -> (r: usize)
    ensures
        r == count_true(mask@),
{
    let mut cnt: usize = 0;
    let mut i: usize = 0;
    while i < mask.len()
        invariant
            i <= mask@.len(),
            cnt <= i,
            cnt == count_true(mask@.take(i as int)),
        decreases mask.len() - i,
    {
            proof {
            assert(mask@.take(i + 1) =~= mask@.take(i as int).push(mask@[i as int]));
            lemma_count_push(mask@.take(i as int), mask@[i as int]);
        }
        if mask[i] {
            cnt = cnt + 1;
        }
        i = i + 1;
    }
    assert(mask@.take(i as int) =~= mask@);
    cnt
}

/// Row alignment: when the raw values number exactly the present rows, the
/// merge yields one item per row, `Ok(None)` for each absent row, and for each
/// present row the next raw value, so that every raw value is taken once.
pub proof fn lemma_row_alignment<T>(mask: Seq<bool>, vals: Seq<Result<T, Error>>)
    requires
        vals.len() == count_true(mask),
    ensures
        merge(mask, vals).len() == mask.len(),
        forall|i: int|
            0 <= i < mask.len() && !mask[i] ==> #[trigger] merge(mask, vals)[i] == Ok::<
                Option<T>,
                Error,
            >(None),
        forall|i: int|
            0 <= i < mask.len() && mask[i] ==> count_true(mask.take(i)) < vals.len()
                && #[trigger] merge(mask, vals)[i] == lift(vals[count_true(mask.take(i)) as int]),
{
    lemma_merge_rows(mask, vals);
    assert forall|i: int| 0 <= i < mask.len() && mask[i] implies count_true(mask.take(i))
        < vals.len() by {
        lemma_count_prefix(mask, i);
    }
}

/// A mask with no absent row takes the raw values one to one, in order.
pub proof fn lemma_all_present<T>(rows: nat, vals: Seq<Result<T, Error>>)
    requires
        vals.len() == rows,
    ensures
        count_true(Seq::new(rows, |i: int| true)) == rows,
        merge(Seq::new(rows, |i: int| true), vals) == vals.map_values(|v| lift(v)),
    decreases rows,
{
    let mask = Seq::new(rows, |i: int| true);
    if rows > 0 {
        assert(mask.drop_first() =~= Seq::new((rows - 1) as nat, |i: int| true));
        lemma_all_present((rows - 1) as nat, vals.drop_first());
        assert(merge(mask, vals) =~= vals.map_values(|v| lift(v)));
    } else {
        assert(merge(mask, vals) =~= vals.map_values(|v| lift(v)));
    }
}

/// Exhaustion is fatal: when the raw values run out before the present rows
/// do, the merge stops at the first present row that finds no raw value, and
/// yields a length-mismatch error there; the rows before it are aligned as usual.
pub proof fn lemma_exhaustion_is_fatal<T>(mask: Seq<bool>, vals: Seq<Result<T, Error>>)
    requires
        vals.len() < count_true(mask),
    ensures
        ({
            let out = merge(mask, vals);
            let n = out.len() as int;
            &&& 1 <= n <= mask.len()
            &&& mask[n - 1]
            &&& count_true(mask.take(n - 1)) == vals.len()
            &&& out[n - 1] == Err::<Option<T>, Error>(length_mismatch())
            &&& forall|i: int| 0 <= i < n - 1 && !mask[i] ==> #[trigger] out[i] == Ok::<Option<T>, Error>(None)
            &&& forall|i: int| 0 <= i < n - 1 && mask[i] ==> count_true(mask.take(i)) < vals.len()
                && #[trigger] out[i] == lift(vals[count_true(mask.take(i)) as int])
        }),
{
    lemma_merge_rows(mask, vals);
}

/// Moves the items of a vector into a queue, in order.
pub fn to_queue<T>(v: Vec<T>) -> (r: VecDeque<T>)
    ensures
        r@ == v@,
{
    let ghost all = v@;
    let mut v = v;
    let mut queue: VecDeque<T> = VecDeque::new();
    while v.len() > 0
        invariant
            all == v@ + queue@,
        decreases v.len(),
    {
        match v.pop() {
            Some(x) => {
                queue.push_front(x);
                assert(all =~= v@ + queue@);
            },
            None => {},
        }
    }
    assert(all =~= queue@);
    queue
}

/// Yields one optional value per logical row: the presence mask decides, row by
/// row, whether the next raw value is taken.
#[verifier::reject_recursive_types(T)]
pub struct NullableIterator<T> {
    present: Vec<bool>,
    values: VecDeque<Result<T, Error>>,
    row: usize,
    stopped: bool,
}

impl<T> NullableIterator<T> {
    /// The rows that are still to come.
    pub closed spec fn rest(&self) -> Seq<Result<Option<T>, Error>> {
        if self.stopped || self.row > self.present@.len() {
            seq![]
        } else {
            merge(self.present@.skip(self.row as int), self.values@)
        }
    }

    /// Merges `present` with the raw values of the present rows, in order.
    pub fn new(present: Vec<bool>, values: Vec<Result<T, Error>>) -> (r: Self)
        ensures
            r.rest() == merge(present@, values@),
    {
        let queue = to_queue(values);
        assert(present@.skip(0) =~= present@);
        NullableIterator { present, values: queue, row: 0, stopped: false }
    }

    /// The value of the next row, or `None` after the last one.
    pub fn next(&mut self) -> (r: Option<Result<Option<T>, Error>>)
        ensures
            old(self).rest().len() == 0 ==> r is None && final(self).rest().len() == 0,
            old(self).rest().len() > 0 ==> r == Some(old(self).rest()[0])
                && final(self).rest() == old(self).rest().drop_first(),
    {
        if self.stopped || self.row >= self.present.len() {
            return None;
        }
        let ghost mask = self.present@.skip(self.row as int);
        assert(mask.drop_first() =~= self.present@.skip(self.row + 1));
        let p = self.present[self.row];
        self.row = self.row + 1;
        if !p {
            Some(Ok(None))
        } else {
            match self.values.pop_front() {
                None => {
                    self.stopped = true;
                    Some(Err(Error::DecodeError { reason: DecodeFailure::LengthMismatch }))
                },
                Some(Ok(v)) => Some(Ok(Some(v))),
                Some(Err(e)) => Some(Err(e)),
            }
        }
    }

    /// All remaining rows, in order.
    pub fn collect_rows(self) -> (r: Vec<Result<Option<T>, Error>>)
        ensures
            r@ == self.rest(),
    {
        let mut it = self;
        let mut out: Vec<Result<Option<T>, Error>> = Vec::new();
        let mut done = false;
        while !done
            invariant
                self.rest() == out@ + it.rest(),
                done ==> it.rest().len() == 0,
            decreases it.rest().len() + if done { 0int } else { 1int },
        {
            match it.next() {
                None => {
                    done = true;
                },
                Some(v) => {
                    out.push(v);
                    assert(out@ + it.rest() =~= self.rest());
                },
            }
        }
        assert(out@ + it.rest() =~= out@);
        out
    }
}

} // verus!
