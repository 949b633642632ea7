use crate::column::{Column, StreamKind, column_mask, lemma_no_presence_stream, new_present_mask};
use crate::error::Error;
use crate::nullable::{NullableIterator, count_present, count_true, lift, merge};
use crate::rle::{bit_of, boolean_values, byte_rle, decode_booleans};
use vstd::prelude::*;

verus! {

/// Materializes a boolean column: its presence mask, merged with the bits of
/// its data stream for the present rows.
pub fn new_boolean_iter(column: &Column) -> (r: Result<NullableIterator<bool>, Error>)
    ensures
        match column_mask(*column) {
            Err(e) => r is Err && r->Err_0 == e,
            Ok(m) => match column.data {
                None => r is Err && r->Err_0 == (Error::InvalidColumn { name: column.name }),
                Some(d) => r is Ok && r->Ok_0.rest() == merge(
                    m,
                    boolean_values(d@, count_true(m)),
                ),
            },
        },
{
    let present = match new_present_mask(column) {
        Ok(p) => p,
        Err(e) => return Err(e),
    };
    let rows = count_present(&present);
    match column.stream(StreamKind::Data) {
        None => Err(Error::InvalidColumn { name: column.name.clone() }),
        Some(stream) => {
            let values = decode_booleans(stream, rows);
            Ok(NullableIterator::new(present, values))
        },
    }
}

/// A boolean column without a presence stream, whose data stream holds a bit
/// for each of its rows, yields every row present, with the bits in order.
pub proof fn lemma_boolean_column_all_present(c: Column)
    requires
        c.present is None,
        c.data is Some,
        c.rows <= byte_rle(c.data->Some_0@).0.len() * 8,
    ensures
        ({
            let m = column_mask(c)->Ok_0;
            let bytes = byte_rle(c.data->Some_0@).0;
            &&& column_mask(c) is Ok
            &&& merge(m, boolean_values(c.data->Some_0@, count_true(m))) == Seq::new(
                c.rows as nat,
                |i: int| Ok::<Option<bool>, Error>(Some(bit_of(bytes, i))),
            )
        }),
{
    let d = c.data->Some_0@;
    let vals = boolean_values(d, c.rows as nat);
    lemma_no_presence_stream(c, vals);
    assert(vals.map_values(|v| lift(v)) =~= Seq::new(
        c.rows as nat,
        |i: int| Ok::<Option<bool>, Error>(Some(bit_of(byte_rle(d).0, i))),
    ));
}

} // verus!
