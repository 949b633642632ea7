//! Null-aware value materialization for columnar stripes: a presence bitmask
//! and one or two value streams become one optional value per logical row.

pub mod error;
pub mod rle;
pub mod nullable;
pub mod column;
pub mod boolean;
pub mod timestamp;
