use contour_rust_pdk::csv::Csv;

// The table length follows min(row_count, max(0, total - start_row)).
#[test]
fn test_row_count_formula() {
    let input = b"a\nb\nc\nd\ne";
    // total 5, start 1, count 2 -> min(2, 4) = 2
    assert_eq!(Csv::parse(input, None, Some(1), None, Some(2)).unwrap().len(), 2);
    // total 5, start 3, count 9 -> min(9, 2) = 2
    assert_eq!(Csv::parse(input, None, Some(3), None, Some(9)).unwrap().len(), 2);
    // total 5, start 7, count 2 -> min(2, 0) = 0
    assert_eq!(Csv::parse(input, None, Some(7), None, Some(2)).unwrap().len(), 0);
    // total 5, start 2, no count -> 3
    assert_eq!(Csv::parse(input, None, Some(2), None, None).unwrap().len(), 3);
}

// A row count of zero keeps nothing, and is not an error.
#[test]
fn test_zero_row_count() {
    let input = b"a,b\n1,2";
    let result = Csv::parse(input, None, None, None, Some(0)).unwrap();
    assert!(result.is_empty());
}

// Rows and cells come back in source order.
#[test]
fn test_source_order_kept() {
    let input = b"1,2,3\n4,5,6\n7,8,9";
    let result = Csv::parse(input, Some(1), Some(1), None, None).unwrap();
    assert_eq!(
        result,
        vec![
            vec!["5".to_string(), "6".to_string()],
            vec!["8".to_string(), "9".to_string()],
        ]
    );
}

// With no window set the parse equals the fully windowed parse.
#[test]
fn test_no_window_is_identity() {
    let input = b"a,b\n1,2\nx,y";
    let plain = Csv::parse(input, None, None, None, None).unwrap();
    let windowed = Csv::parse(input, Some(0), Some(0), Some(2), Some(3)).unwrap();
    assert_eq!(plain, windowed);
}

// Writing the parsed cells back with the engine's quoting rules and
// parsing again reproduces the cells.
#[test]
fn test_round_trip_canonical_form() {
    let input = b"\"a,b\",c\nplain,\"with \"\"quotes\"\"\"";
    let parsed = Csv::parse(input, None, None, None, None).unwrap();
    assert_eq!(
        parsed,
        vec![
            vec!["a,b".to_string(), "c".to_string()],
            vec!["plain".to_string(), "with \"quotes\"".to_string()],
        ]
    );
    // the same cells written back under the same quoting rules
    let rewritten = b"\"a,b\",c\nplain,\"with \"\"quotes\"\"\"\n";
    let reparsed = Csv::parse(rewritten, None, None, None, None).unwrap();
    assert_eq!(reparsed, parsed);
}

// The column clamp applies per row: on ragged rows, a window past a short
// row's end yields fewer or zero cells for that row only.
#[test]
fn test_variable_width_column_clamp() {
    let input = b"a\nb,c,d\ne,f";
    let result = contour_rust_pdk::csv::Csv::parse(input, Some(1), None, Some(2), None).unwrap();
    assert_eq!(
        result,
        vec![
            vec![],
            vec!["c".to_string(), "d".to_string()],
            vec!["f".to_string()],
        ]
    );
}

// Carriage-return line endings separate records, and \r\n is one break.
#[test]
fn test_crlf_records() {
    let input = b"a,b\r\n1,2\r\n";
    let result = Csv::parse(input, None, None, None, None).unwrap();
    assert_eq!(
        result,
        vec![
            vec!["a".to_string(), "b".to_string()],
            vec!["1".to_string(), "2".to_string()],
        ]
    );
}

// A field longer than the tokenizer's internal buffer is accumulated
// across several buffer fills.
#[test]
fn test_field_longer_than_buffer() {
    let long = "x".repeat(3000);
    let input = format!("{},tail\nnext,row", long);
    let result = Csv::parse(input.as_bytes(), None, None, None, None).unwrap();
    assert_eq!(
        result,
        vec![
            vec![long, "tail".to_string()],
            vec!["next".to_string(), "row".to_string()],
        ]
    );
}

// Bytes that are not valid UTF-8 anywhere in the scanned rows fail the
// whole call with a decode error.
#[test]
fn test_invalid_utf8_is_error() {
    let input = b"a,\xff\xfe\n1,2";
    assert!(Csv::parse(input, None, None, None, None).is_err());
}

// Invalid UTF-8 in a skipped row still aborts the call: every scanned row
// is decoded, windowed or not.
#[test]
fn test_invalid_utf8_in_skipped_row_is_error() {
    let input = b"\xff\nok";
    assert!(Csv::parse(input, None, Some(1), None, None).is_err());
}

// Invalid UTF-8 after the row window is satisfied is never reached.
#[test]
fn test_invalid_utf8_after_window_is_ignored() {
    let input = b"a\nb\n\xff";
    let result = Csv::parse(input, None, None, None, Some(1)).unwrap();
    assert_eq!(result, vec![vec!["a".to_string()]]);
}

// A field that fills the tokenizer's buffer exactly at its boundary still
// parses as one cell.
#[test]
fn test_field_exactly_buffer_size() {
    let long = "y".repeat(1024);
    let input = format!("{}\nz", long);
    let result = Csv::parse(input.as_bytes(), None, None, None, None).unwrap();
    assert_eq!(result, vec![vec![long], vec!["z".to_string()]]);
}

// A final row without a trailing line break parses the same as with one.
#[test]
fn test_trailing_newline_equivalent() {
    let with_break = Csv::parse(b"a,b\n1,2\n", None, None, None, None).unwrap();
    let without = Csv::parse(b"a,b\n1,2", None, None, None, None).unwrap();
    assert_eq!(with_break, without);
}
