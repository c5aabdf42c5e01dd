use datal::error::DataError;
use datal::{Format, format_for_extension};

#[test]
fn no_extension_means_snapshot() {
    assert_eq!(format_for_extension(None).expect("no extension is fine"), Format::Snapshot);
}

#[test]
fn dat_means_snapshot() {
    assert_eq!(format_for_extension(Some("dat")).expect("dat is fine"), Format::Snapshot);
}

#[test]
fn xlsx_means_spreadsheet() {
    assert_eq!(format_for_extension(Some("xlsx")).expect("xlsx is fine"), Format::Spreadsheet);
}

#[test]
fn anything_else_is_rejected_before_any_io() {
    match format_for_extension(Some("csv")) {
        Err(DataError::UnsupportedExtension(ext)) => assert_eq!(ext, "csv"),
        _ => panic!("csv must be rejected as unsupported"),
    }
    match format_for_extension(Some("DAT")) {
        Err(DataError::UnsupportedExtension(ext)) => assert_eq!(ext, "DAT"),
        _ => panic!("extensions are matched exactly"),
    }
}
