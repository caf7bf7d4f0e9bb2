//! An index of named records and the data split each belongs to.
//!
//! A source document is a CSV table of two columns, a record name and a split
//! label. The `split` module classifies labels, `text` holds the string
//! operations the index relies on, `table` reads the rows of a CSV document,
//! and `dataset` builds the index and answers the two lookups.

pub mod text;
pub mod split;
pub mod table;
pub mod dataset;
