use contour_rust_pdk::csv::Csv;

#[test]
fn test_parse_basic_csv() {
    let input = b"a,b,c\n1,2,3\n";
    let result = Csv::parse(input, None, None, None, None).unwrap();
    assert_eq!(
        result,
        vec![
            vec!["a".to_string(), "b".to_string(), "c".to_string()],
            vec!["1".to_string(), "2".to_string(), "3".to_string()],
        ]
    );
}

#[test]
fn test_parse_empty_csv() {
    let input = b"";
    let result = Csv::parse(input, None, None, None, None).unwrap();
    assert!(result.is_empty());
}

#[test]
fn test_parse_single_cell() {
    let input = b"value";
    let result = Csv::parse(input, None, None, None, None).unwrap();
    assert_eq!(result, vec![vec!["value".to_string()]]);
}

#[test]
fn test_parse_single_row() {
    let input = b"a,b,c";
    let result = Csv::parse(input, None, None, None, None).unwrap();
    assert_eq!(
        result,
        vec![vec!["a".to_string(), "b".to_string(), "c".to_string()]]
    );
}

#[test]
fn test_parse_multiple_rows() {
    let input = b"a,b,c\n1,2,3\nx,y,z";
    let result = Csv::parse(input, None, None, None, None).unwrap();
    assert_eq!(
        result,
        vec![
            vec!["a".to_string(), "b".to_string(), "c".to_string()],
            vec!["1".to_string(), "2".to_string(), "3".to_string()],
            vec!["x".to_string(), "y".to_string(), "z".to_string()],
        ]
    );
}

#[test]
fn test_column_filtering() {
    let input = b"a,b,c,d\n1,2,3,4";

    // Test starting column
    let result = Csv::parse(input, Some(1), None, None, None).unwrap();
    assert_eq!(
        result,
        vec![
            vec!["b".to_string(), "c".to_string(), "d".to_string()],
            vec!["2".to_string(), "3".to_string(), "4".to_string()],
        ]
    );

    // Test column count
    let result = Csv::parse(input, None, None, Some(2), None).unwrap();
    assert_eq!(
        result,
        vec![
            vec!["a".to_string(), "b".to_string()],
            vec!["1".to_string(), "2".to_string()],
        ]
    );

    // Test both starting column and count
    let result = Csv::parse(input, Some(1), None, Some(2), None).unwrap();
    assert_eq!(
        result,
        vec![
            vec!["b".to_string(), "c".to_string()],
            vec!["2".to_string(), "3".to_string()],
        ]
    );
}

#[test]
fn test_row_filtering() {
    let input = b"a,b\n1,2\n3,4\n5,6";

    // Test starting row
    let result = Csv::parse(input, None, Some(1), None, None).unwrap();
    assert_eq!(
        result,
        vec![
            vec!["1".to_string(), "2".to_string()],
            vec!["3".to_string(), "4".to_string()],
            vec!["5".to_string(), "6".to_string()],
        ]
    );

    // Test row count
    let result = Csv::parse(input, None, None, None, Some(2)).unwrap();
    assert_eq!(
        result,
        vec![
            vec!["a".to_string(), "b".to_string()],
            vec!["1".to_string(), "2".to_string()],
        ]
    );

    // Test both starting row and count
    let result = Csv::parse(input, None, Some(1), None, Some(2)).unwrap();
    assert_eq!(
        result,
        vec![
            vec!["1".to_string(), "2".to_string()],
            vec!["3".to_string(), "4".to_string()],
        ]
    );
}

#[test]
fn test_empty_fields() {
    let input = b"a,,c\n,b,\n,,";
    let result = Csv::parse(input, None, None, None, None).unwrap();
    assert_eq!(
        result,
        vec![
            vec!["a".to_string(), "".to_string(), "c".to_string()],
            vec!["".to_string(), "b".to_string(), "".to_string()],
            vec!["".to_string(), "".to_string(), "".to_string()],
        ]
    );
}

#[test]
fn test_quoted_fields() {
    let input = b"\"a,b\",c\n\"\"\"quoted\"\"\",\"line\nbreak\"";
    let result = Csv::parse(input, None, None, None, None).unwrap();
    assert_eq!(
        result,
        vec![
            vec!["a,b".to_string(), "c".to_string()],
            vec!["\"quoted\"".to_string(), "line\nbreak".to_string()],
        ]
    );
}

#[test]
fn test_unicode_content() {
    let input = "α,β,γ\n🦀,🎉,🌟".as_bytes();
    let result = Csv::parse(input, None, None, None, None).unwrap();
    assert_eq!(
        result,
        vec![
            vec!["α".to_string(), "β".to_string(), "γ".to_string()],
            vec!["🦀".to_string(), "🎉".to_string(), "🌟".to_string()],
        ]
    );
}

#[test]
fn test_combined_filtering() {
    let input = b"a,b,c,d\n1,2,3,4\n5,6,7,8\n9,10,11,12";
    let result = Csv::parse(input, Some(1), Some(1), Some(2), Some(2)).unwrap();
    assert_eq!(
        result,
        vec![
            vec!["2".to_string(), "3".to_string()],
            vec!["6".to_string(), "7".to_string()],
        ]
    );
}

#[test]
fn test_boundary_conditions() {
    // Empty rows
    let input = b"\n\n\n";
    let result = Csv::parse(input, None, None, None, None).unwrap();
    assert_eq!(
        result,
        vec![
            vec!["".to_string()],
            vec!["".to_string()],
            vec!["".to_string()],
        ]
    );

    // Single character fields
    let input = b"a\nb\nc";
    let result = Csv::parse(input, None, None, None, None).unwrap();
    assert_eq!(
        result,
        vec![
            vec!["a".to_string()],
            vec!["b".to_string()],
            vec!["c".to_string()],
        ]
    );
}

#[test]
fn test_out_of_bounds_filtering() {
    let input = b"a,b\n1,2";

    // Starting column beyond available columns
    let result = Csv::parse(input, Some(5), None, None, None).unwrap();
    assert!(result.iter().all(|row| row.is_empty()));

    // Starting row beyond available rows
    let result = Csv::parse(input, None, Some(5), None, None).unwrap();
    assert!(result.is_empty());

    // Requesting more columns than available
    let result = Csv::parse(input, None, None, Some(5), None).unwrap();
    assert_eq!(
        result,
        vec![
            vec!["a".to_string(), "b".to_string()],
            vec!["1".to_string(), "2".to_string()],
        ]
    );
}
