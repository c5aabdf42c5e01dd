//! The closed set of errors a load or save can report.
use vstd::prelude::*;

verus! {

/// What kind of value a spreadsheet cell was found to hold; reported when
/// a cell of another kind was expected.
#[derive(Clone, Copy, PartialEq, Eq, Structural, Debug)]
pub enum CellKind {
    /// No value at all.
    Empty,
    /// A real number (carried as a fixed-point integer).
    Num,
    /// An integer-typed cell.
    Int,
    /// A date-typed cell (carried as a fixed-point day serial).
    Date,
    /// A text cell.
    Str,
    /// A boolean cell.
    Bool,
    /// Anything else the spreadsheet reader can produce (an error cell,
    /// an ISO date string, a duration).
    Other,
}

/// Every error the engine can return. Loads are fail-fast: the first
/// error anywhere aborts the whole load and no partial dataset escapes.
#[derive(Debug)]
pub enum DataError {
    /// The chosen path has an extension no codec claims.
    UnsupportedExtension(String),
    /// A file could not be opened, read or written; the first field names
    /// the operation, the second carries the cause.
    IoError(String, String),
    /// The binary snapshot stream is malformed or truncated.
    DecodeError(String),
    /// A required sheet is absent from the workbook.
    SheetMissing(String),
    /// A cell holds a value of the wrong kind.
    CellTypeMismatch { row: usize, col: usize, expected: CellKind, found: CellKind },
    /// A cell that the layout requires is absent.
    CellMissing { row: usize, col: usize },
}

} // verus!
