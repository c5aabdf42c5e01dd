use datal::error::{CellKind, DataError};
use datal::sheet::{
    Cell, Sheet, load_book, serial_to_unix, xlsx_get_num, xlsx_get_point, xlsx_get_str,
    xlsx_get_timestamp, xlsx_load_bg, xlsx_load_photo, xlsx_row_len,
};

fn num(v: i64) -> Cell {
    Cell::Num(v << 20)
}

fn point_cells(lat: i64, lon: i64, deep: i64) -> Vec<Cell> {
    vec![num(lat), num(lon), num(deep)]
}

fn sheet(name: &str, rows: Vec<Vec<Cell>>) -> Sheet {
    Sheet { name: name.to_string(), rows }
}

fn bg_rows() -> Vec<Vec<Cell>> {
    vec![
        vec![Cell::Str("header".to_string())],
        vec![Cell::Str("maps/pond.png".to_string()), Cell::Num(2 << 20), Cell::Num(0)],
        vec![],
        vec![],
        vec![],
        point_cells(1, 2, 10),
        point_cells(3, 4, 20),
    ]
}

fn series_row(deep: i64, serial_fx: i64, extra: Vec<Cell>) -> Vec<Cell> {
    let mut row = vec![num(0), num(0), num(deep), Cell::Date(serial_fx), num(0)];
    row.extend(extra);
    row
}

fn workbook() -> Vec<Sheet> {
    let day: i64 = 25570 << 20; // one day past the Unix epoch
    vec![
        sheet("bg", bg_rows()),
        sheet(
            "photo",
            vec![
                vec![Cell::Str("header".to_string())],
                series_row(5, day, vec![num(9), num(400), num(41), num(500), num(42)]),
            ],
        ),
        sheet(
            "temp",
            vec![vec![Cell::Str("header".to_string())], series_row(6, day, vec![num(21)])],
        ),
        sheet(
            "flow",
            vec![
                vec![Cell::Str("header".to_string())],
                series_row(7, day, vec![num(2), num(180)]),
            ],
        ),
    ]
}

#[test]
fn date_serial_conversion() {
    // Serial 44197.5 is (44197.5 - 25569) * 86400 = 1609502400 seconds.
    let serial_fx: i64 = (44197 << 20) + (1 << 19);
    assert_eq!(serial_to_unix(serial_fx), 1609502400);
}

#[test]
fn date_serial_of_the_epoch_day_is_zero() {
    assert_eq!(serial_to_unix(25569 << 20), 0);
}

#[test]
fn date_serial_before_the_epoch_is_negative() {
    assert_eq!(serial_to_unix(25568 << 20), -86400);
}

#[test]
fn missing_sheet_aborts_the_load() {
    // A workbook without its `temp` sheet fails with SheetMissing("temp")
    // and a resident dataset is left untouched.
    let mut resident = datal::model::Data::default();
    resident.temp.push(datal::model::Temp {
        point: datal::model::Point { latitude: 0, longitude: 0, deep: 0 },
        timestamp: 1,
        val: 1,
    });
    let book: Vec<Sheet> = workbook().into_iter().filter(|s| s.name != "temp").collect();
    match load_book(&book) {
        Err(DataError::SheetMissing(name)) => assert_eq!(name, "temp"),
        _ => panic!("the load must fail with SheetMissing(\"temp\")"),
    }
    assert_eq!(resident.temp.len(), 1);
}

#[test]
fn full_workbook_loads() {
    let d = load_book(&workbook()).expect("the workbook must load");
    let img = d.bg.image.expect("the image row is well-typed");
    assert_eq!(img.image_path, "maps/pond.png");
    assert_eq!(img.scale, 2 << 20);
    assert_eq!(img.rotate, 0);
    assert_eq!(d.bg.border.len(), 2);
    assert_eq!(d.bg.border[0].deep, 10 << 20);
    assert_eq!(d.bg.border[1].deep, 20 << 20);
    assert_eq!(d.photo.len(), 1);
    assert_eq!(d.photo[0].timestamp, 86400);
    assert_eq!(d.photo[0].solar, 9 << 20);
    assert_eq!(d.photo[0].transparency, vec![(400 << 20, 41 << 20), (500 << 20, 42 << 20)]);
    assert_eq!(d.temp.len(), 1);
    assert_eq!(d.temp[0].val, 21 << 20);
    assert_eq!(d.temp[0].point.deep, 6 << 20);
    assert_eq!(d.flow.len(), 1);
    assert_eq!(d.flow[0].speed, 2 << 20);
    assert_eq!(d.flow[0].dir, 180 << 20);
}

#[test]
fn photo_row_may_carry_no_pairs() {
    let mut book = workbook();
    book[1].rows[1] = series_row(5, 25570 << 20, vec![num(9)]);
    let d = load_book(&book).expect("a photo row without pairs still loads");
    assert_eq!(d.photo[0].transparency.len(), 0);
}

#[test]
fn odd_pair_cell_is_an_error() {
    // A wavelength with no value after it fails like any missing cell.
    let mut book = workbook();
    book[1].rows[1] = series_row(5, 25570 << 20, vec![num(9), num(400)]);
    match load_book(&book) {
        Err(DataError::CellMissing { row: 1, col: 7 }) => {}
        r => panic!("expected CellMissing at (1, 7), got {:?}", r.map(|_| ())),
    }
}

#[test]
fn wrong_cell_kind_is_a_type_mismatch() {
    let mut book = workbook();
    book[2].rows[1][2] = Cell::Str("deep".to_string()); // temp sheet, depth cell
    match load_book(&book) {
        Err(DataError::CellTypeMismatch { row: 1, col: 2, expected, found }) => {
            assert_eq!(expected, CellKind::Num);
            assert_eq!(found, CellKind::Str);
        }
        r => panic!("expected a type mismatch at (1, 2), got {:?}", r.map(|_| ())),
    }
}

#[test]
fn numeric_cell_in_a_date_column_is_a_type_mismatch() {
    // A numeric but not date-typed cell is never silently coerced.
    let mut book = workbook();
    book[3].rows[1][3] = Cell::Num(25570 << 20); // flow sheet, date cell
    match load_book(&book) {
        Err(DataError::CellTypeMismatch { row: 1, col: 3, expected, found }) => {
            assert_eq!(expected, CellKind::Date);
            assert_eq!(found, CellKind::Num);
        }
        r => panic!("expected a type mismatch at (1, 3), got {:?}", r.map(|_| ())),
    }
}

#[test]
fn integer_cell_where_a_real_is_expected_is_a_type_mismatch() {
    let rows = vec![vec![Cell::Int(5)]];
    match xlsx_get_num(&rows, 0, 0) {
        Err(DataError::CellTypeMismatch { found: CellKind::Int, .. }) => {}
        r => panic!("expected an Int mismatch, got {:?}", r),
    }
}

#[test]
fn absent_cell_is_cell_missing() {
    let rows: Vec<Vec<Cell>> = vec![vec![]];
    match xlsx_get_num(&rows, 0, 3) {
        Err(DataError::CellMissing { row: 0, col: 3 }) => {}
        r => panic!("expected CellMissing at (0, 3), got {:?}", r),
    }
    match xlsx_get_str(&rows, 5, 0) {
        Err(DataError::CellMissing { row: 5, col: 0 }) => {}
        r => panic!("expected CellMissing at (5, 0), got {:?}", r),
    }
    match xlsx_get_timestamp(&rows, 0, 3) {
        Err(DataError::CellMissing { row: 0, col: 3 }) => {}
        r => panic!("expected CellMissing at (0, 3), got {:?}", r),
    }
}

#[test]
fn broken_image_row_degrades_to_no_image() {
    // A bad image row is not a load error: the image is simply absent.
    let mut rows = bg_rows();
    rows[1] = vec![Cell::Str("p.png".to_string()), Cell::Str("oops".to_string()), Cell::Num(0)];
    let bg = xlsx_load_bg(&rows).expect("the border still loads");
    assert!(bg.image.is_none());
    assert_eq!(bg.border.len(), 2);
}

#[test]
fn broken_border_row_is_an_error() {
    let mut rows = bg_rows();
    rows[6] = vec![num(1), Cell::Empty, num(3)];
    match xlsx_load_bg(&rows) {
        Err(DataError::CellTypeMismatch { row: 6, col: 1, .. }) => {}
        r => panic!("expected a mismatch at (6, 1), got {:?}", r.map(|_| ())),
    }
}

#[test]
fn row_len_counts_the_leading_filled_stretch() {
    let rows = vec![
        vec![num(1), num(2), Cell::Empty, num(3)],
        vec![num(1), num(2)],
        vec![],
    ];
    assert_eq!(xlsx_row_len(&rows, 0), 2);
    assert_eq!(xlsx_row_len(&rows, 1), 2);
    assert_eq!(xlsx_row_len(&rows, 2), 0);
    assert_eq!(xlsx_row_len(&rows, 9), 0);
}

#[test]
fn get_point_reads_three_columns() {
    let rows = vec![point_cells(1, 2, 3)];
    let p = xlsx_get_point(&rows, 0).expect("the point row is well-typed");
    assert_eq!(p.latitude, 1 << 20);
    assert_eq!(p.longitude, 2 << 20);
    assert_eq!(p.deep, 3 << 20);
}

#[test]
fn get_timestamp_converts_the_serial() {
    let rows = vec![vec![Cell::Date((44197 << 20) + (1 << 19))]];
    assert_eq!(xlsx_get_timestamp(&rows, 0, 0).expect("a date cell"), 1609502400);
}
