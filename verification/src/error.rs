use vstd::prelude::*;

verus! {

/// All the things that can go wrong when laying out tabular data.
#[derive(Debug, Clone, Copy, PartialEq, Eq, Structural)]
pub enum ColonnadeError {
    /// A row of the data does not have one cell per column. The values are the
    /// index of the row, its length, and the number of columns.
    InconsistentColumns(usize, usize, usize),
    /// The column index provided is outside the columns available.
    OutOfBounds,
    /// A table was requested with no columns at all.
    InsufficientColumns,
    /// The minimum space required by the columns is greater than the viewport.
    InsufficientSpace,
    /// The minimum and maximum width of a column conflict. The value is the
    /// column's index.
    MinGreaterThanMax(usize),
}

} // verus!
