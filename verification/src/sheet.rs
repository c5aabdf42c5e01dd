//! The spreadsheet codec: parses the four fixed-layout sheets of a
//! capture workbook into domain records with strict per-cell type
//! checks. The host hands the workbook over as plain cell grids; every
//! layout rule, type check and conversion is applied here.
use vstd::prelude::*;

use crate::error::{CellKind, DataError};
use crate::model::{
    Background, BackgroundImage, BackgroundImageV, BackgroundV, Data, DataV, Flow, Photo, PhotoV,
    Point, Temp, photos_view,
};

verus! {

/// One cell of a sheet, as the host hands it over. Real-valued cells
/// arrive as fixed-point integers (see [`crate::model::FIXED_ONE`]); a
/// date-typed cell arrives as its day serial on the same fixed-point
/// scale.
#[derive(Debug)]
pub enum Cell {
    /// No value.
    Empty,
    /// A real-number cell, fixed-point.
    Num(i64),
    /// An integer-typed cell. Kept apart from `Num`: a column that
    /// expects a real number does not accept it.
    Int(i64),
    /// A date-typed cell: its day serial, fixed-point.
    Date(i64),
    /// A text cell.
    Str(String),
    /// A boolean cell.
    Bool(bool),
    /// Anything else the spreadsheet reader can produce.
    Other,
}

/// The kind of a cell, as reported in type-mismatch errors.
pub open spec fn kind_of(c: Cell) -> CellKind {
    match c {
        Cell::Empty => CellKind::Empty,
        Cell::Num(_) => CellKind::Num,
        Cell::Int(_) => CellKind::Int,
        Cell::Date(_) => CellKind::Date,
        Cell::Str(_) => CellKind::Str,
        Cell::Bool(_) => CellKind::Bool,
        Cell::Other => CellKind::Other,
    }
}

/// One worksheet: its name and its cells, row by row.
pub struct Sheet {
    pub name: String,
    pub rows: Vec<Vec<Cell>>,
}

/// The mathematical value of a [`Sheet`].
pub ghost struct SheetV {
    pub name: Seq<char>,
    pub rows: Seq<Seq<Cell>>,
}

/// The rows of a grid as a sequence of cell sequences.
pub open spec fn grid_view(rows: Seq<Vec<Cell>>) -> Seq<Seq<Cell>> {
    rows.map_values(|row: Vec<Cell>| row@)
}

impl View for Sheet {
    type V = SheetV;

    open spec fn view(&self) -> SheetV {
        SheetV { name: self.name@, rows: grid_view(self.rows@) }
    }
}

// Fixed column layout, shared by the sheets.
/// Column of the latitude in every point-bearing row.
pub const XLSX_LATITUDE_INDEX: usize = 0;

/// Column of the longitude.
pub const XLSX_LONGITUDE_INDEX: usize = 1;

/// Column of the depth.
pub const XLSX_DEEP_INDEX: usize = 2;

/// Column of the date cell in every series row.
pub const XLSX_DATETIME_INDEX: usize = 3;

/// First measurement column of a series row.
pub const XLSX_SPEC_INDEX: usize = 5;

/// The cell a grid holds at a position, if any.
pub open spec fn spec_cell(g: Seq<Seq<Cell>>, r: int, c: int) -> Option<Cell> {
    if 0 <= r < g.len() && 0 <= c < g[r].len() {
        Some(g[r][c])
    } else {
        None
    }
}

/// What reading a real-number cell yields: its fixed-point value, or
/// the error naming the cell and what was found there.
pub open spec fn spec_get_num(g: Seq<Seq<Cell>>, r: int, c: int) -> Result<i64, DataError> {
    match spec_cell(g, r, c) {
        None => Err(DataError::CellMissing { row: r as usize, col: c as usize }),
        Some(cell) => match cell {
            Cell::Num(v) => Ok(v),
            other => Err(
                DataError::CellTypeMismatch {
                    row: r as usize,
                    col: c as usize,
                    expected: CellKind::Num,
                    found: kind_of(other),
                },
            ),
        },
    }
}

/// What reading a text cell yields.
pub open spec fn spec_get_str(g: Seq<Seq<Cell>>, r: int, c: int) -> Result<Seq<char>, DataError> {
    match spec_cell(g, r, c) {
        None => Err(DataError::CellMissing { row: r as usize, col: c as usize }),
        Some(cell) => match cell {
            Cell::Str(s) => Ok(s@),
            other => Err(
                DataError::CellTypeMismatch {
                    row: r as usize,
                    col: c as usize,
                    expected: CellKind::Str,
                    found: kind_of(other),
                },
            ),
        },
    }
}

/// The fixed-point day serial of the calendar base's epoch day for Unix
/// time: day 25569 is 1970-01-01.
pub const EPOCH_SERIAL_FX: i64 = 25569 * 1048576;

/// Converts a fixed-point spreadsheet day serial to whole Unix seconds:
/// `(serial - 25569) * 86400`, truncated toward zero.
pub open spec fn unix_of_serial(serial_fx: i64) -> int {
    let shifted = (serial_fx - EPOCH_SERIAL_FX) * 86400;
    if shifted >= 0 {
        shifted / 1048576
    } else {
        -((-shifted) / 1048576)
    }
}

/// Converts a fixed-point day serial to Unix seconds, exactly.
pub fn serial_to_unix(serial_fx: i64) -> (r: i64)
    ensures
        r == unix_of_serial(serial_fx),
{
    let diff: i128 = serial_fx as i128 - EPOCH_SERIAL_FX as i128;
    let ghost shifted = (serial_fx - EPOCH_SERIAL_FX) * 86400int;
    if diff >= 0 {
        let q: u128 = ((diff as u128) * 86400) / 1048576;
        proof {
            assert(shifted == (diff as u128) * 86400);
            assert(q <= 0x7fff_ffff_ffff_ffffu128) by (nonlinear_arith)
                requires
                    q == ((diff as u128) * 86400) / 1048576,
                    diff as u128 <= 0x7fff_ffff_ffff_ffffu128,
            ;
        }
        q as i64
    } else {
        let q: u128 = (((-diff) as u128) * 86400) / 1048576;
        proof {
            assert(-shifted == ((-diff) as u128) * 86400);
            assert(q <= 0x7fff_ffff_ffff_ffffu128) by (nonlinear_arith)
                requires
                    q == (((-diff) as u128) * 86400) / 1048576,
                    (-diff) as u128 <= 0x8000_0000_0000_0000u128 + EPOCH_SERIAL_FX as u128,
            ;
        }
        - (q as i64)
    }
}

/// The leading filled stretch of a row: how many cells stand before the
/// first empty one, the whole row when none is empty.
pub open spec fn spec_row_len(row: Seq<Cell>) -> int
    decreases row.len(),
{
    if row.len() == 0 {
        0
    } else if row[0] is Empty {
        0
    } else {
        1 + spec_row_len(row.drop_first())
    }
}

/// The leading filled stretch is a well-placed cut: everything before
/// it is filled, and the cell at it — when the row goes on — is empty.
pub proof fn lemma_row_len(row: Seq<Cell>)
    ensures
        0 <= spec_row_len(row) <= row.len(),
        forall|j: int| 0 <= j < spec_row_len(row) ==> !(#[trigger] row[j] is Empty),
        spec_row_len(row) < row.len() ==> row[spec_row_len(row)] is Empty,
    decreases row.len(),
{
    if row.len() == 0 {
    } else if row[0] is Empty {
    } else {
        lemma_row_len(row.drop_first());
        assert forall|j: int| 0 <= j < spec_row_len(row) implies !(#[trigger] row[j] is Empty) by {
            if j > 0 {
                assert(row.drop_first()[j - 1] == row[j]);
            }
        }
        if spec_row_len(row) < row.len() {
            assert(row.drop_first()[spec_row_len(row) - 1] == row[spec_row_len(row)]);
        }
    }
}

/// Reads a real-number cell, enforcing its kind.
pub fn xlsx_get_num(rows: &Vec<Vec<Cell>>, r: usize, c: usize) -> (res: Result<i64, DataError>)
    ensures
        (match spec_get_num(grid_view(rows@), r as int, c as int) {
            Ok(v) => res matches Ok(rv) && rv == v,
            Err(e) => res matches Err(re) && re == e,
        }),
{
    if r < rows.len() && c < rows[r].len() {
        match &rows[r][c] {
            Cell::Num(v) => Ok(*v),
            Cell::Empty => Err(
                DataError::CellTypeMismatch {
                    row: r,
                    col: c,
                    expected: CellKind::Num,
                    found: CellKind::Empty,
                },
            ),
            Cell::Int(_) => Err(
                DataError::CellTypeMismatch {
                    row: r,
                    col: c,
                    expected: CellKind::Num,
                    found: CellKind::Int,
                },
            ),
            Cell::Date(_) => Err(
                DataError::CellTypeMismatch {
                    row: r,
                    col: c,
                    expected: CellKind::Num,
                    found: CellKind::Date,
                },
            ),
            Cell::Str(_) => Err(
                DataError::CellTypeMismatch {
                    row: r,
                    col: c,
                    expected: CellKind::Num,
                    found: CellKind::Str,
                },
            ),
            Cell::Bool(_) => Err(
                DataError::CellTypeMismatch {
                    row: r,
                    col: c,
                    expected: CellKind::Num,
                    found: CellKind::Bool,
                },
            ),
            Cell::Other => Err(
                DataError::CellTypeMismatch {
                    row: r,
                    col: c,
                    expected: CellKind::Num,
                    found: CellKind::Other,
                },
            ),
        }
    } else {
        Err(DataError::CellMissing { row: r, col: c })
    }
}

/// Reads a text cell, enforcing its kind.
pub fn xlsx_get_str(rows: &Vec<Vec<Cell>>, r: usize, c: usize) -> (res: Result<String, DataError>)
    ensures
        (match spec_get_str(grid_view(rows@), r as int, c as int) {
            Ok(s) => res matches Ok(rs) && rs@ == s,
            Err(e) => res matches Err(re) && re == e,
        }),
{
    if r < rows.len() && c < rows[r].len() {
        match &rows[r][c] {
            Cell::Str(s) => Ok(s.clone()),
            other => Err(
                DataError::CellTypeMismatch {
                    row: r,
                    col: c,
                    expected: CellKind::Str,
                    found: (match other {
                        Cell::Empty => CellKind::Empty,
                        Cell::Num(_) => CellKind::Num,
                        Cell::Int(_) => CellKind::Int,
                        Cell::Date(_) => CellKind::Date,
                        Cell::Str(_) => CellKind::Str,
                        Cell::Bool(_) => CellKind::Bool,
                        Cell::Other => CellKind::Other,
                    }),
                },
            ),
        }
    } else {
        Err(DataError::CellMissing { row: r, col: c })
    }
}

/// What reading a date cell yields: the record timestamp in Unix
/// seconds, converted from the day serial.
pub open spec fn spec_get_timestamp(g: Seq<Seq<Cell>>, r: int, c: int) -> Result<i64, DataError> {
    match spec_cell(g, r, c) {
        None => Err(DataError::CellMissing { row: r as usize, col: c as usize }),
        Some(cell) => match cell {
            Cell::Date(serial) => Ok(unix_of_serial(serial) as i64),
            other => Err(
                DataError::CellTypeMismatch {
                    row: r as usize,
                    col: c as usize,
                    expected: CellKind::Date,
                    found: kind_of(other),
                },
            ),
        },
    }
}

/// Reads a date cell and converts its day serial to Unix seconds.
pub fn xlsx_get_timestamp(rows: &Vec<Vec<Cell>>, r: usize, c: usize) -> (res: Result<
    i64,
    DataError,
>)
    ensures
        (match spec_get_timestamp(grid_view(rows@), r as int, c as int) {
            Ok(v) => res matches Ok(rv) && rv == v,
            Err(e) => res matches Err(re) && re == e,
        }),
{
    if r < rows.len() && c < rows[r].len() {
        match &rows[r][c] {
            Cell::Date(serial) => Ok(serial_to_unix(*serial)),
            other => Err(
                DataError::CellTypeMismatch {
                    row: r,
                    col: c,
                    expected: CellKind::Date,
                    found: (match other {
                        Cell::Empty => CellKind::Empty,
                        Cell::Num(_) => CellKind::Num,
                        Cell::Int(_) => CellKind::Int,
                        Cell::Date(_) => CellKind::Date,
                        Cell::Str(_) => CellKind::Str,
                        Cell::Bool(_) => CellKind::Bool,
                        Cell::Other => CellKind::Other,
                    }),
                },
            ),
        }
    } else {
        Err(DataError::CellMissing { row: r, col: c })
    }
}

/// Counts the leading filled cells of row `r`: the cells a series row
/// actually carries. A row the sheet does not have counts zero.
#[verifier::loop_isolation(false)]
pub fn xlsx_row_len(rows: &Vec<Vec<Cell>>, r: usize) -> (res: usize)
    ensures
        r < rows@.len() ==> res == spec_row_len(grid_view(rows@)[r as int]),
        r >= rows@.len() ==> res == 0,
{
    if r >= rows.len() {
        return 0;
    }
    let row = &rows[r];
    proof {
        assert(grid_view(rows@)[r as int] == rows@[r as int]@);
        lemma_row_len(row@);
    }
    let mut i: usize = 0;
    while i < row.len()
        invariant
            i <= row@.len(),
            forall|j: int| 0 <= j < i ==> !(#[trigger] row@[j] is Empty),
            0 <= spec_row_len(row@) <= row@.len(),
            forall|j: int| 0 <= j < spec_row_len(row@) ==> !(#[trigger] row@[j] is Empty),
            spec_row_len(row@) < row@.len() ==> row@[spec_row_len(row@)] is Empty,
        decreases row.len() - i,
    {
        let stop = match &row[i] {
            Cell::Empty => true,
            _ => false,
        };
        if stop {
            proof {
                assert(spec_row_len(row@) <= i);
                assert(spec_row_len(row@) >= i);
            }
            return i;
        }
        i = i + 1;
    }
    proof {
        assert(spec_row_len(row@) == row@.len());
    }
    i
}

/// What reading a point row yields: the three coordinate cells in
/// column order, the first failing cell deciding the error.
pub open spec fn spec_get_point(g: Seq<Seq<Cell>>, r: int) -> Result<Point, DataError> {
    match spec_get_num(g, r, XLSX_LATITUDE_INDEX as int) {
        Err(e) => Err(e),
        Ok(latitude) => match spec_get_num(g, r, XLSX_LONGITUDE_INDEX as int) {
            Err(e) => Err(e),
            Ok(longitude) => match spec_get_num(g, r, XLSX_DEEP_INDEX as int) {
                Err(e) => Err(e),
                Ok(deep) => Ok(Point { latitude, longitude, deep }),
            },
        },
    }
}

/// Reads the point of row `r`: latitude, longitude, depth.
pub fn xlsx_get_point(rows: &Vec<Vec<Cell>>, r: usize) -> (res: Result<Point, DataError>)
    ensures
        (match spec_get_point(grid_view(rows@), r as int) {
            Ok(p) => res matches Ok(rp) && rp == p,
            Err(e) => res matches Err(re) && re == e,
        }),
{
    let latitude = match xlsx_get_num(rows, r, XLSX_LATITUDE_INDEX) {
        Ok(v) => v,
        Err(e) => {
            return Err(e);
        },
    };
    let longitude = match xlsx_get_num(rows, r, XLSX_LONGITUDE_INDEX) {
        Ok(v) => v,
        Err(e) => {
            return Err(e);
        },
    };
    let deep = match xlsx_get_num(rows, r, XLSX_DEEP_INDEX) {
        Ok(v) => v,
        Err(e) => {
            return Err(e);
        },
    };
    Ok(Point { latitude, longitude, deep })
}

/// What the background-image row yields. A failure of any of its three
/// cells makes the image absent — a deliberate graceful degrade, never
/// a load error.
pub open spec fn spec_get_image(g: Seq<Seq<Cell>>) -> Option<BackgroundImageV> {
    match spec_get_str(g, 1, 0) {
        Err(_) => None,
        Ok(image_path) => match spec_get_num(g, 1, 1) {
            Err(_) => None,
            Ok(scale) => match spec_get_num(g, 1, 2) {
                Err(_) => None,
                Ok(rotate) => Some(BackgroundImageV { image_path, scale, rotate }),
            },
        },
    }
}

/// Reads the optional background image from row 1 of the `bg` sheet.
pub fn xlsx_get_image(rows: &Vec<Vec<Cell>>) -> (res: Option<BackgroundImage>)
    ensures
        (match spec_get_image(grid_view(rows@)) {
            Some(iv) => res matches Some(i) && i@ == iv,
            None => res is None,
        }),
{
    let image_path = match xlsx_get_str(rows, 1, 0) {
        Ok(v) => v,
        Err(_) => {
            return None;
        },
    };
    let scale = match xlsx_get_num(rows, 1, 1) {
        Ok(v) => v,
        Err(_) => {
            return None;
        },
    };
    let rotate = match xlsx_get_num(rows, 1, 2) {
        Ok(v) => v,
        Err(_) => {
            return None;
        },
    };
    Some(BackgroundImage { image_path, scale, rotate })
}

/// What the border rows yield, from row `r` to the end of the sheet:
/// one point each, fail-fast.
pub open spec fn spec_border(g: Seq<Seq<Cell>>, r: int) -> Result<Seq<Point>, DataError>
    decreases g.len() - r,
{
    if r >= g.len() || r < 0 {
        Ok(Seq::empty())
    } else {
        match spec_get_point(g, r) {
            Err(e) => Err(e),
            Ok(p) => match spec_border(g, r + 1) {
                Err(e) => Err(e),
                Ok(rest) => Ok(seq![p] + rest),
            },
        }
    }
}

/// What the whole `bg` sheet yields: the soft-failing image and the
/// border polygon read from row 5 down.
pub open spec fn spec_load_bg(g: Seq<Seq<Cell>>) -> Result<BackgroundV, DataError> {
    match spec_border(g, 5) {
        Err(e) => Err(e),
        Ok(border) => Ok(BackgroundV { image: spec_get_image(g), border }),
    }
}

/// Parses the `bg` sheet: the image row and the border polygon.
#[verifier::loop_isolation(false)]
pub fn xlsx_load_bg(rows: &Vec<Vec<Cell>>) -> (res: Result<Background, DataError>)
    ensures
        (match spec_load_bg(grid_view(rows@)) {
            Ok(b) => res matches Ok(rb) && rb@ == b,
            Err(e) => res matches Err(re) && re == e,
        }),
{
    let ghost g = grid_view(rows@);
    let image = xlsx_get_image(rows);
    let mut border: Vec<Point> = Vec::new();
    let mut i: usize = 5;
    if rows.len() > 5 {
        while i < rows.len()
            invariant
                5 <= i <= rows@.len(),
                (match spec_border(g, i as int) {
                    Ok(rest) => spec_border(g, 5) == Ok::<Seq<Point>, DataError>(border@ + rest),
                    Err(e) => spec_border(g, 5) == Err::<Seq<Point>, DataError>(e),
                }),
            decreases rows@.len() - i,
        {
            match xlsx_get_point(rows, i) {
                Ok(p) => {
                    proof {
                        let rest = (match spec_border(g, i + 1) {
                            Ok(rest) => rest,
                            Err(_) => Seq::empty(),
                        });
                        if spec_border(g, i + 1) is Ok {
                            assert(border@.push(p) + rest =~= border@ + (seq![p] + rest));
                        }
                    }
                    border.push(p);
                },
                Err(e) => {
                    return Err(e);
                },
            }
            i = i + 1;
        }
    }
    proof {
        assert(spec_border(g, i as int) == Ok::<Seq<Point>, DataError>(Seq::<Point>::empty()));
        assert(border@ + Seq::<Point>::empty() =~= border@);
    }
    Ok(Background { image, border })
}

/// What a `temp` row yields: point, timestamp, value.
pub open spec fn spec_temp_row(g: Seq<Seq<Cell>>, r: int) -> Result<Temp, DataError> {
    match spec_get_point(g, r) {
        Err(e) => Err(e),
        Ok(point) => match spec_get_timestamp(g, r, XLSX_DATETIME_INDEX as int) {
            Err(e) => Err(e),
            Ok(timestamp) => match spec_get_num(g, r, XLSX_SPEC_INDEX as int) {
                Err(e) => Err(e),
                Ok(val) => Ok(Temp { point, timestamp, val }),
            },
        },
    }
}

/// What the `temp` sheet yields from row `r` down: one record per row,
/// row 0 being the header.
pub open spec fn spec_temps(g: Seq<Seq<Cell>>, r: int) -> Result<Seq<Temp>, DataError>
    decreases g.len() - r,
{
    if r >= g.len() || r < 0 {
        Ok(Seq::empty())
    } else {
        match spec_temp_row(g, r) {
            Err(e) => Err(e),
            Ok(x) => match spec_temps(g, r + 1) {
                Err(e) => Err(e),
                Ok(rest) => Ok(seq![x] + rest),
            },
        }
    }
}

/// Parses the `temp` sheet: every row after the header.
#[verifier::loop_isolation(false)]
pub fn xlsx_load_temp(rows: &Vec<Vec<Cell>>) -> (res: Result<Vec<Temp>, DataError>)
    ensures
        (match spec_temps(grid_view(rows@), 1) {
            Ok(s) => res matches Ok(rv) && rv@ == s,
            Err(e) => res matches Err(re) && re == e,
        }),
{
    let ghost g = grid_view(rows@);
    let mut temp: Vec<Temp> = Vec::new();
    let mut i: usize = 1;
    if rows.len() > 1 {
        while i < rows.len()
            invariant
                1 <= i <= rows@.len(),
                (match spec_temps(g, i as int) {
                    Ok(rest) => spec_temps(g, 1) == Ok::<Seq<Temp>, DataError>(temp@ + rest),
                    Err(e) => spec_temps(g, 1) == Err::<Seq<Temp>, DataError>(e),
                }),
            decreases rows@.len() - i,
        {
            let point = match xlsx_get_point(rows, i) {
                Ok(v) => v,
                Err(e) => {
                    return Err(e);
                },
            };
            let timestamp = match xlsx_get_timestamp(rows, i, XLSX_DATETIME_INDEX) {
                Ok(v) => v,
                Err(e) => {
                    return Err(e);
                },
            };
            let val = match xlsx_get_num(rows, i, XLSX_SPEC_INDEX) {
                Ok(v) => v,
                Err(e) => {
                    return Err(e);
                },
            };
            let x = Temp { point, timestamp, val };
            proof {
                let rest = (match spec_temps(g, i + 1) {
                    Ok(rest) => rest,
                    Err(_) => Seq::empty(),
                });
                if spec_temps(g, i + 1) is Ok {
                    assert(temp@.push(x) + rest =~= temp@ + (seq![x] + rest));
                }
            }
            temp.push(x);
            i = i + 1;
        }
    }
    proof {
        assert(spec_temps(g, i as int) == Ok::<Seq<Temp>, DataError>(Seq::<Temp>::empty()));
        assert(temp@ + Seq::<Temp>::empty() =~= temp@);
    }
    Ok(temp)
}

/// What a `flow` row yields: point, timestamp, speed, direction.
pub open spec fn spec_flow_row(g: Seq<Seq<Cell>>, r: int) -> Result<Flow, DataError> {
    match spec_get_point(g, r) {
        Err(e) => Err(e),
        Ok(point) => match spec_get_timestamp(g, r, XLSX_DATETIME_INDEX as int) {
            Err(e) => Err(e),
            Ok(timestamp) => match spec_get_num(g, r, XLSX_SPEC_INDEX as int) {
                Err(e) => Err(e),
                Ok(speed) => match spec_get_num(g, r, XLSX_SPEC_INDEX as int + 1) {
                    Err(e) => Err(e),
                    Ok(dir) => Ok(Flow { point, timestamp, speed, dir }),
                },
            },
        },
    }
}

/// What the `flow` sheet yields from row `r` down.
pub open spec fn spec_flows(g: Seq<Seq<Cell>>, r: int) -> Result<Seq<Flow>, DataError>
    decreases g.len() - r,
{
    if r >= g.len() || r < 0 {
        Ok(Seq::empty())
    } else {
        match spec_flow_row(g, r) {
            Err(e) => Err(e),
            Ok(x) => match spec_flows(g, r + 1) {
                Err(e) => Err(e),
                Ok(rest) => Ok(seq![x] + rest),
            },
        }
    }
}

/// Parses the `flow` sheet: every row after the header.
#[verifier::loop_isolation(false)]
pub fn xlsx_load_flow(rows: &Vec<Vec<Cell>>) -> (res: Result<Vec<Flow>, DataError>)
    ensures
        (match spec_flows(grid_view(rows@), 1) {
            Ok(s) => res matches Ok(rv) && rv@ == s,
            Err(e) => res matches Err(re) && re == e,
        }),
{
    let ghost g = grid_view(rows@);
    let mut flow: Vec<Flow> = Vec::new();
    let mut i: usize = 1;
    if rows.len() > 1 {
        while i < rows.len()
            invariant
                1 <= i <= rows@.len(),
                (match spec_flows(g, i as int) {
                    Ok(rest) => spec_flows(g, 1) == Ok::<Seq<Flow>, DataError>(flow@ + rest),
                    Err(e) => spec_flows(g, 1) == Err::<Seq<Flow>, DataError>(e),
                }),
            decreases rows@.len() - i,
        {
            let point = match xlsx_get_point(rows, i) {
                Ok(v) => v,
                Err(e) => {
                    return Err(e);
                },
            };
            let timestamp = match xlsx_get_timestamp(rows, i, XLSX_DATETIME_INDEX) {
                Ok(v) => v,
                Err(e) => {
                    return Err(e);
                },
            };
            let speed = match xlsx_get_num(rows, i, XLSX_SPEC_INDEX) {
                Ok(v) => v,
                Err(e) => {
                    return Err(e);
                },
            };
            let dir = match xlsx_get_num(rows, i, XLSX_SPEC_INDEX + 1) {
                Ok(v) => v,
                Err(e) => {
                    return Err(e);
                },
            };
            let x = Flow { point, timestamp, speed, dir };
            proof {
                let rest = (match spec_flows(g, i + 1) {
                    Ok(rest) => rest,
                    Err(_) => Seq::empty(),
                });
                if spec_flows(g, i + 1) is Ok {
                    assert(flow@.push(x) + rest =~= flow@ + (seq![x] + rest));
                }
            }
            flow.push(x);
            i = i + 1;
        }
    }
    proof {
        assert(spec_flows(g, i as int) == Ok::<Seq<Flow>, DataError>(Seq::<Flow>::empty()));
        assert(flow@ + Seq::<Flow>::empty() =~= flow@);
    }
    Ok(flow)
}

/// What the spectral pairs of a photo row yield, read two cells at a
/// time from `pos` up to the row's filled stretch `ncells`. A pair
/// whose second cell lies outside the stretch is still read — and
/// fails like any other ill-typed or missing cell.
pub open spec fn spec_photo_pairs(g: Seq<Seq<Cell>>, r: int, pos: int, ncells: int) -> Result<
    Seq<(i64, i64)>,
    DataError,
>
    decreases ncells + 1 - pos,
{
    if pos >= ncells {
        Ok(Seq::empty())
    } else {
        match spec_get_num(g, r, pos) {
            Err(e) => Err(e),
            Ok(wl) => match spec_get_num(g, r, pos + 1) {
                Err(e) => Err(e),
                Ok(v) => match spec_photo_pairs(g, r, pos + 2, ncells) {
                    Err(e) => Err(e),
                    Ok(rest) => Ok(seq![(wl, v)] + rest),
                },
            },
        }
    }
}

/// What a `photo` row yields: point, timestamp, solar level, then the
/// spectral pairs up to the row's first empty cell.
pub open spec fn spec_photo_row(g: Seq<Seq<Cell>>, r: int) -> Result<PhotoV, DataError> {
    match spec_get_point(g, r) {
        Err(e) => Err(e),
        Ok(point) => match spec_get_timestamp(g, r, XLSX_DATETIME_INDEX as int) {
            Err(e) => Err(e),
            Ok(timestamp) => match spec_get_num(g, r, XLSX_SPEC_INDEX as int) {
                Err(e) => Err(e),
                Ok(solar) => match spec_photo_pairs(
                    g,
                    r,
                    XLSX_SPEC_INDEX as int + 1,
                    spec_row_len(g[r]),
                ) {
                    Err(e) => Err(e),
                    Ok(transparency) => Ok(PhotoV { point, timestamp, solar, transparency }),
                },
            },
        },
    }
}

/// What the `photo` sheet yields from row `r` down.
pub open spec fn spec_photos(g: Seq<Seq<Cell>>, r: int) -> Result<Seq<PhotoV>, DataError>
    decreases g.len() - r,
{
    if r >= g.len() || r < 0 {
        Ok(Seq::empty())
    } else {
        match spec_photo_row(g, r) {
            Err(e) => Err(e),
            Ok(x) => match spec_photos(g, r + 1) {
                Err(e) => Err(e),
                Ok(rest) => Ok(seq![x] + rest),
            },
        }
    }
}

/// Parses one photo row's spectral pairs.
#[verifier::loop_isolation(false)]
fn xlsx_photo_pairs(rows: &Vec<Vec<Cell>>, r: usize, ncells: usize) -> (res: Result<
    Vec<(i64, i64)>,
    DataError,
>)
    ensures
        (match spec_photo_pairs(grid_view(rows@), r as int, XLSX_SPEC_INDEX as int + 1, ncells as int) {
            Ok(s) => res matches Ok(rv) && rv@ == s,
            Err(e) => res matches Err(re) && re == e,
        }),
{
    let ghost g = grid_view(rows@);
    let mut data: Vec<(i64, i64)> = Vec::new();
    let mut pos: usize = XLSX_SPEC_INDEX + 1;
    while pos < ncells
        invariant
            XLSX_SPEC_INDEX + 1 <= pos,
            (match spec_photo_pairs(g, r as int, pos as int, ncells as int) {
                Ok(rest) => spec_photo_pairs(g, r as int, XLSX_SPEC_INDEX as int + 1, ncells as int)
                    == Ok::<Seq<(i64, i64)>, DataError>(data@ + rest),
                Err(e) => spec_photo_pairs(g, r as int, XLSX_SPEC_INDEX as int + 1, ncells as int)
                    == Err::<Seq<(i64, i64)>, DataError>(e),
            }),
        decreases ncells - pos,
    {
        let wl = match xlsx_get_num(rows, r, pos) {
            Ok(v) => v,
            Err(e) => {
                return Err(e);
            },
        };
        let v = match xlsx_get_num(rows, r, pos + 1) {
            Ok(v) => v,
            Err(e) => {
                return Err(e);
            },
        };
        proof {
            let rest = (match spec_photo_pairs(g, r as int, pos + 2, ncells as int) {
                Ok(rest) => rest,
                Err(_) => Seq::empty(),
            });
            if spec_photo_pairs(g, r as int, pos + 2, ncells as int) is Ok {
                assert(data@.push((wl, v)) + rest =~= data@ + (seq![(wl, v)] + rest));
            }
        }
        data.push((wl, v));
        if ncells - pos > 2 {
            pos = pos + 2;
        } else {
            proof {
                assert(spec_photo_pairs(g, r as int, pos + 2, ncells as int) == Ok::<
                    Seq<(i64, i64)>,
                    DataError,
                >(Seq::<(i64, i64)>::empty()));
                assert(spec_photo_pairs(g, r as int, ncells as int, ncells as int) == Ok::<
                    Seq<(i64, i64)>,
                    DataError,
                >(Seq::<(i64, i64)>::empty()));
            }
            pos = ncells;
        }
    }
    proof {
        assert(spec_photo_pairs(g, r as int, pos as int, ncells as int) == Ok::<
            Seq<(i64, i64)>,
            DataError,
        >(Seq::<(i64, i64)>::empty()));
        assert(data@ + Seq::<(i64, i64)>::empty() =~= data@);
    }
    Ok(data)
}

/// Parses the `photo` sheet: every row after the header.
#[verifier::loop_isolation(false)]
pub fn xlsx_load_photo(rows: &Vec<Vec<Cell>>) -> (res: Result<Vec<Photo>, DataError>)
    ensures
        (match spec_photos(grid_view(rows@), 1) {
            Ok(s) => res matches Ok(rv) && photos_view(rv@) == s,
            Err(e) => res matches Err(re) && re == e,
        }),
{
    let ghost g = grid_view(rows@);
    let mut photo: Vec<Photo> = Vec::new();
    let mut i: usize = 1;
    if rows.len() > 1 {
        while i < rows.len()
            invariant
                1 <= i <= rows@.len(),
                (match spec_photos(g, i as int) {
                    Ok(rest) => spec_photos(g, 1) == Ok::<Seq<PhotoV>, DataError>(
                        photos_view(photo@) + rest,
                    ),
                    Err(e) => spec_photos(g, 1) == Err::<Seq<PhotoV>, DataError>(e),
                }),
            decreases rows@.len() - i,
        {
            let point = match xlsx_get_point(rows, i) {
                Ok(v) => v,
                Err(e) => {
                    return Err(e);
                },
            };
            let timestamp = match xlsx_get_timestamp(rows, i, XLSX_DATETIME_INDEX) {
                Ok(v) => v,
                Err(e) => {
                    return Err(e);
                },
            };
            let solar = match xlsx_get_num(rows, i, XLSX_SPEC_INDEX) {
                Ok(v) => v,
                Err(e) => {
                    return Err(e);
                },
            };
            let ncells = xlsx_row_len(rows, i);
            proof {
                assert(grid_view(rows@)[i as int] == rows@[i as int]@);
                lemma_row_len(grid_view(rows@)[i as int]);
            }
            let transparency = match xlsx_photo_pairs(rows, i, ncells) {
                Ok(v) => v,
                Err(e) => {
                    return Err(e);
                },
            };
            let x = Photo { point, timestamp, solar, transparency };
            proof {
                let rest = (match spec_photos(g, i + 1) {
                    Ok(rest) => rest,
                    Err(_) => Seq::empty(),
                });
                if spec_photos(g, i + 1) is Ok {
                    assert(photos_view(photo@.push(x)) =~= photos_view(photo@).push(x@));
                    assert(photos_view(photo@).push(x@) + rest =~= photos_view(photo@) + (seq![x@]
                        + rest));
                }
            }
            photo.push(x);
            i = i + 1;
        }
    }
    proof {
        assert(spec_photos(g, i as int) == Ok::<Seq<PhotoV>, DataError>(Seq::<PhotoV>::empty()));
        assert(photos_view(photo@) + Seq::<PhotoV>::empty() =~= photos_view(photo@));
    }
    Ok(photo)
}

/// The worksheet values a workbook holds, in order.
pub open spec fn sheets_view(s: Seq<Sheet>) -> Seq<SheetV> {
    s.map_values(|sh: Sheet| sh@)
}

/// The cell grid of the first sheet bearing the given name, if any.
pub open spec fn spec_find_sheet(book: Seq<SheetV>, name: Seq<char>) -> Option<Seq<Seq<Cell>>>
    decreases book.len(),
{
    if book.len() == 0 {
        None
    } else if book[0].name == name {
        Some(book[0].rows)
    } else {
        spec_find_sheet(book.drop_first(), name)
    }
}

/// Finds the first sheet of the given name.
#[verifier::loop_isolation(false)]
fn find_sheet<'a>(book: &'a Vec<Sheet>, name: &str) -> (res: Option<&'a Vec<Vec<Cell>>>)
    ensures
        (match spec_find_sheet(sheets_view(book@), name@) {
            Some(rows) => res matches Some(rv) && grid_view(rv@) == rows,
            None => res is None,
        }),
{
    let target = name.to_owned();
    proof {
        assert(sheets_view(book@).skip(0) =~= sheets_view(book@));
    }
    let mut i: usize = 0;
    while i < book.len()
        invariant
            i <= book@.len(),
            spec_find_sheet(sheets_view(book@), name@) == spec_find_sheet(
                sheets_view(book@).skip(i as int),
                name@,
            ),
        decreases book@.len() - i,
    {
        proof {
            assert(sheets_view(book@).skip(i as int)[0] == book@[i as int]@);
        }
        if book[i].name.eq(&target) {
            return Some(&book[i].rows);
        }
        proof {
            assert(sheets_view(book@).skip(i as int).drop_first() =~= sheets_view(book@).skip(
                i + 1,
            ));
        }
        i = i + 1;
    }
    proof {
        assert(sheets_view(book@).skip(book@.len() as int) =~= Seq::<SheetV>::empty());
    }
    None
}

/// What the four sheets of a workbook yield together, the first error
/// anywhere aborting the whole load.
pub open spec fn spec_load_sheets(
    gb: Seq<Seq<Cell>>,
    gp: Seq<Seq<Cell>>,
    gt: Seq<Seq<Cell>>,
    gf: Seq<Seq<Cell>>,
) -> Result<DataV, DataError> {
    match spec_load_bg(gb) {
        Err(e) => Err(e),
        Ok(bg) => match spec_photos(gp, 1) {
            Err(e) => Err(e),
            Ok(photo) => match spec_temps(gt, 1) {
                Err(e) => Err(e),
                Ok(temp) => match spec_flows(gf, 1) {
                    Err(e) => Err(e),
                    Ok(flow) => Ok(DataV { bg, photo, temp, flow }),
                },
            },
        },
    }
}

/// Loads a whole workbook. The four sheets `bg`, `photo`, `temp` and
/// `flow` must all be present — checked in that order before anything
/// is parsed — and each must parse cleanly; the first failure aborts
/// the load and nothing partial is returned.
pub fn load_book(book: &Vec<Sheet>) -> (res: Result<Data, DataError>)
    ensures
        spec_find_sheet(sheets_view(book@), "bg"@) is None ==> (res matches Err(
            DataError::SheetMissing(n),
        ) && n@ == "bg"@),
        spec_find_sheet(sheets_view(book@), "bg"@) is Some && spec_find_sheet(
            sheets_view(book@),
            "photo"@,
        ) is None ==> (res matches Err(DataError::SheetMissing(n)) && n@ == "photo"@),
        spec_find_sheet(sheets_view(book@), "bg"@) is Some && spec_find_sheet(
            sheets_view(book@),
            "photo"@,
        ) is Some && spec_find_sheet(sheets_view(book@), "temp"@) is None ==> (res matches Err(
            DataError::SheetMissing(n),
        ) && n@ == "temp"@),
        spec_find_sheet(sheets_view(book@), "bg"@) is Some && spec_find_sheet(
            sheets_view(book@),
            "photo"@,
        ) is Some && spec_find_sheet(sheets_view(book@), "temp"@) is Some && spec_find_sheet(
            sheets_view(book@),
            "flow"@,
        ) is None ==> (res matches Err(DataError::SheetMissing(n)) && n@ == "flow"@),
        (match (
            spec_find_sheet(sheets_view(book@), "bg"@),
            spec_find_sheet(sheets_view(book@), "photo"@),
            spec_find_sheet(sheets_view(book@), "temp"@),
            spec_find_sheet(sheets_view(book@), "flow"@),
        ) {
            (Some(gb), Some(gp), Some(gt), Some(gf)) => (match spec_load_sheets(gb, gp, gt, gf) {
                Ok(dv) => res matches Ok(d) && d@ == dv,
                Err(e) => res matches Err(re) && re == e,
            }),
            _ => true,
        }),
{
    let bgs = match find_sheet(book, "bg") {
        Some(s) => s,
        None => {
            return Err(DataError::SheetMissing("bg".to_owned()));
        },
    };
    let photos = match find_sheet(book, "photo") {
        Some(s) => s,
        None => {
            return Err(DataError::SheetMissing("photo".to_owned()));
        },
    };
    let temps = match find_sheet(book, "temp") {
        Some(s) => s,
        None => {
            return Err(DataError::SheetMissing("temp".to_owned()));
        },
    };
    let flows = match find_sheet(book, "flow") {
        Some(s) => s,
        None => {
            return Err(DataError::SheetMissing("flow".to_owned()));
        },
    };
    let bg = match xlsx_load_bg(bgs) {
        Ok(v) => v,
        Err(e) => {
            return Err(e);
        },
    };
    let photo = match xlsx_load_photo(photos) {
        Ok(v) => v,
        Err(e) => {
            return Err(e);
        },
    };
    let temp = match xlsx_load_temp(temps) {
        Ok(v) => v,
        Err(e) => {
            return Err(e);
        },
    };
    let flow = match xlsx_load_flow(flows) {
        Ok(v) => v,
        Err(e) => {
            return Err(e);
        },
    };
    Ok(Data { bg, photo, temp, flow })
}

} // verus!
