use csv_viewer::codec::{read_csv_with_header, save_csv, CsvError};
use csv_viewer::text::{parse_column_index, parse_row_number, parse_usize_bytes};

fn row(cells: &[&str]) -> Vec<String> {
    cells.iter().map(|s| s.to_string()).collect()
}

#[test]
fn parse_reads_header_and_rows() {
    let input = b"city,pop\nBoston,4628910\nConcord,42695\n";
    let (header, data) = read_csv_with_header(input).unwrap();
    assert_eq!(header, row(&["city", "pop"]));
    assert_eq!(data, vec![row(&["Boston", "4628910"]), row(&["Concord", "42695"])]);
}

#[test]
fn parse_handles_quoted_fields() {
    let input = b"a,b\n\"x,1\",y\n";
    let (header, data) = read_csv_with_header(input).unwrap();
    assert_eq!(header, row(&["a", "b"]));
    assert_eq!(data, vec![row(&["x,1", "y"])]);
}

#[test]
fn parse_rejects_ragged_rows() {
    let input = b"a,b\nonly\n";
    assert_eq!(read_csv_with_header(input).unwrap_err(), CsvError::Parse);
}

#[test]
fn parse_rejects_bad_utf8() {
    let input = b"a,b\n\xff\xfe,y\n";
    assert_eq!(read_csv_with_header(input).unwrap_err(), CsvError::Parse);
}

#[test]
fn save_writes_header_then_rows() {
    let header = row(&["a", "b"]);
    let data = vec![row(&["1", "2"]), row(&["3", "4"])];
    let bytes = save_csv(&header, &data).unwrap();
    assert_eq!(bytes, b"a,b\n1,2\n3,4\n".to_vec());
}

#[test]
fn save_quotes_fields_that_need_it() {
    let header = row(&["a", "b"]);
    let data = vec![row(&["x,1", "y"])];
    let bytes = save_csv(&header, &data).unwrap();
    assert_eq!(bytes, b"a,b\n\"x,1\",y\n".to_vec());
}

#[test]
fn save_rejects_ragged_rows() {
    let header = row(&["a", "b"]);
    let data = vec![row(&["only"])];
    assert_eq!(save_csv(&header, &data).unwrap_err(), CsvError::Write);
}

#[test]
fn save_after_load_round_trips() {
    let input = b"id,name,notes\n1,ada,\"likes, commas\"\n2,bob,plain\n";
    let (header, data) = read_csv_with_header(input).unwrap();
    let bytes = save_csv(&header, &data).unwrap();
    assert_eq!(bytes, input.to_vec());
}

#[test]
fn parse_usize_accepts_digits_only() {
    assert_eq!(parse_usize_bytes(b"0"), Some(0));
    assert_eq!(parse_usize_bytes(b"12"), Some(12));
    assert_eq!(parse_usize_bytes(b"007"), Some(7));
    assert_eq!(parse_usize_bytes(b""), None);
    assert_eq!(parse_usize_bytes(b"1a"), None);
    assert_eq!(parse_usize_bytes(b"-1"), None);
    assert_eq!(parse_usize_bytes(b" 1"), None);
    assert_eq!(parse_usize_bytes(b"99999999999999999999999999999"), None);
}

#[test]
fn parse_usize_allows_one_leading_plus_sign() {
    assert_eq!(parse_usize_bytes(b"+5"), Some(5));
    assert_eq!(parse_usize_bytes(b"+"), None);
    assert_eq!(parse_usize_bytes(b"++5"), None);
    assert_eq!(parse_usize_bytes(b"5+"), None);
}

#[test]
fn row_number_ignores_surrounding_whitespace() {
    assert_eq!(parse_row_number(" 42\t\n"), Some(42));
    assert_eq!(parse_row_number("42"), Some(42));
    assert_eq!(parse_row_number("  "), None);
    assert_eq!(parse_row_number("4 2"), None);
}

#[test]
fn column_index_falls_back_to_zero() {
    assert_eq!(parse_column_index("7"), 7);
    assert_eq!(parse_column_index("+7"), 7);
    assert_eq!(parse_column_index("255"), 255);
    assert_eq!(parse_column_index("256"), 0);
    assert_eq!(parse_column_index("abc"), 0);
    assert_eq!(parse_column_index(""), 0);
    assert_eq!(parse_column_index(" 7"), 0);
}
