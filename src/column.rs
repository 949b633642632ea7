use crate::error::Error;
use crate::nullable::{count_true, lemma_all_present, lift, merge};
use crate::rle::{decode_presence, presence_mask};
use vstd::prelude::*;

verus! {

/// The role of one of a column's physical streams.
#[derive(Debug, Clone, Copy, PartialEq, Eq)]
pub enum StreamKind {
    /// The presence bitmask: which logical rows store a value.
    Presence,
    /// The primary value stream.
    Data,
    /// The second value stream of a compound type.
    Secondary,
}

/// A named column of one batch: its logical row count and the bytes of each
/// stream that it has.
pub struct Column {
    pub name: String,
    pub rows: usize,
    pub present: Option<Vec<u8>>,
    pub data: Option<Vec<u8>>,
    pub secondary: Option<Vec<u8>>,
}

impl Column {
    /// The bytes of the stream of the given kind, if the column has one.
    pub open spec fn stream_of(&self, kind: StreamKind) -> Option<Vec<u8>> {
        match kind {
            StreamKind::Presence => self.present,
            StreamKind::Data => self.data,
            StreamKind::Secondary => self.secondary,
        }
    }

    /// The stream of the given kind, if the column has one.
    pub fn stream(&self, kind: StreamKind) -> (r: Option<&Vec<u8>>)
        ensures
            r == match self.stream_of(kind) {
                Some(v) => Some(&v),
                None => None::<&Vec<u8>>,
            },
    {
        match kind {
            StreamKind::Presence => self.present.as_ref(),
            StreamKind::Data => self.data.as_ref(),
            StreamKind::Secondary => self.secondary.as_ref(),
        }
    }
}

/// The presence mask of a column: decoded from its presence stream, or, where
/// it has none, every one of its rows present.
pub open spec fn column_mask(c: Column) -> Result<Seq<bool>, Error> {
    match c.present {
        None => Ok(Seq::new(c.rows as nat, |i: int| true)),
        Some(p) => presence_mask(p@, c.rows as nat),
    }
}

/// Decodes the whole presence mask of a column.
pub fn new_present_mask(column: &Column) -> (r: Result<Vec<bool>, Error>)
    ensures
        match column_mask(*column) {
            Ok(m) => r is Ok && r->Ok_0@ == m,
            Err(e) => r is Err && r->Err_0 == e,
        },
{
    match column.stream(StreamKind::Presence) {
        Some(stream) => decode_presence(stream, column.rows),
        None => {
            let mut mask: Vec<bool> = Vec::new();
            let mut i: usize = 0;
            while i < column.rows
                invariant
                    i <= column.rows,
                    mask@ == Seq::new(i as nat, |j: int| true),
                decreases column.rows - i,
            {
                mask.push(true);
                i = i + 1;
                assert(mask@ =~= Seq::new(i as nat, |j: int| true));
            }
            Ok(mask)
        },
    }
}

/// A column without a presence stream has every logical row present: its
/// mask counts all of its rows, and a raw sequence of that length is taken one
/// to one, in order.
pub proof fn lemma_no_presence_stream<T>(c: Column, vals: Seq<Result<T, Error>>)
    requires
        c.present is None,
        vals.len() == c.rows,
    ensures
        column_mask(c) == Ok::<Seq<bool>, Error>(Seq::new(c.rows as nat, |i: int| true)),
        count_true(Seq::new(c.rows as nat, |i: int| true)) == c.rows,
        merge(Seq::new(c.rows as nat, |i: int| true), vals) == vals.map_values(|v| lift(v)),
{
    lemma_all_present(c.rows as nat, vals);
}

} // verus!
