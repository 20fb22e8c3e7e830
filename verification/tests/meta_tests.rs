use rgbd::{sat_result_of, size_of_row, SatResult, Size};

#[test]
fn result_column_values() {
    assert_eq!(sat_result_of(b"sat"), SatResult::Sat);
    assert_eq!(sat_result_of(b"unsat"), SatResult::UnSat);
    assert_eq!(sat_result_of(b"unknown"), SatResult::Unknown);
    assert_eq!(sat_result_of(b""), SatResult::Unknown);
    assert_eq!(sat_result_of(b"SAT"), SatResult::Unknown);
}

#[test]
fn size_row_with_all_counts() {
    let size = size_of_row(b"250", b"5279", b"117579").unwrap().unwrap();
    assert_eq!(
        size,
        Size { variables: 250, clauses: 5279, bytes: 117579 }
    );
}

#[test]
fn size_row_with_empty_sentinel_has_no_size() {
    assert_eq!(size_of_row(b"empty", b"5279", b"117579").unwrap(), None);
    assert_eq!(size_of_row(b"250", b"empty", b"117579").unwrap(), None);
    assert_eq!(size_of_row(b"250", b"5279", b"empty").unwrap(), None);
}

#[test]
fn size_row_with_bad_column_names_it() {
    let err = size_of_row(b"250", b"many", b"117579").unwrap_err();
    assert_eq!(err.column, b"many".to_vec());
}
