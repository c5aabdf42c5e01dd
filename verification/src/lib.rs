//! Field-survey data engine.
//!
//! The crate ingests heterogeneous survey records — photographic light
//! readings, temperature profiles, flow measurements, and a background
//! reference image with a border polygon — normalizes them into one
//! in-memory dataset, and answers spatial/temporal range queries.
//!
//! Real-valued measurements are carried as fixed-point integers: an `i64`
//! holding the measured value scaled by [`model::FIXED_ONE`]. The hosting
//! application converts its native representation at the boundary; every
//! rule inside the crate is exact integer arithmetic.
use vstd::prelude::*;

pub mod error;
pub mod model;
pub mod query;
pub mod ranges;
pub mod sheet;
pub mod snapshot;

pub use query::in_delta_i64;

use crate::error::DataError;

verus! {

/// The two on-disk formats a dataset can be read from.
#[derive(Clone, Copy, PartialEq, Eq, Structural, Debug)]
pub enum Format {
    /// The compact binary snapshot form (see [`snapshot`]).
    Snapshot,
    /// The fixed-layout spreadsheet capture form (see [`sheet`]).
    Spreadsheet,
}

/// Dispatches a load by the file extension of the chosen path: `xlsx` is
/// read as a spreadsheet, `dat` or no extension at all as a binary
/// snapshot, and anything else is rejected before any file is touched.
pub fn format_for_extension(ext: Option<&str>) -> (r: Result<Format, DataError>)
    ensures
        ext is None ==> r == Ok::<Format, DataError>(Format::Snapshot),
        ext matches Some(e) ==> {
            &&& e@ == "dat"@ ==> r == Ok::<Format, DataError>(Format::Snapshot)
            &&& e@ == "xlsx"@ ==> r == Ok::<Format, DataError>(Format::Spreadsheet)
            &&& e@ != "dat"@ && e@ != "xlsx"@ ==> (r matches Err(
                DataError::UnsupportedExtension(u),
            ) && u@ == e@)
        },
{
    proof {
        reveal_strlit("dat");
        reveal_strlit("xlsx");
        assert("dat"@.len() == 3);
        assert("xlsx"@.len() == 4);
    }
    match ext {
        None => Ok(Format::Snapshot),
        Some(e) => {
            let name = e.to_owned();
            if name.eq(&"dat".to_owned()) {
                Ok(Format::Snapshot)
            } else if name.eq(&"xlsx".to_owned()) {
                Ok(Format::Spreadsheet)
            } else {
                Err(DataError::UnsupportedExtension(name))
            }
        },
    }
}

} // verus!
