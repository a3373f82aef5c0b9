use csv_parse::parse_csv;
use csv_parse::parse_csv_raw;
use csv_parse::ParseError;

fn owned(rows: Vec<Vec<&str>>) -> Vec<Vec<String>> {
    rows.into_iter()
        .map(|r| r.into_iter().map(|f| f.to_string()).collect())
        .collect()
}

#[test]
fn two_rows_typed() {
    let r = parse_csv::<u32>("1,2,3\n4,5,6".to_string()).unwrap();
    assert_eq!(r, vec![vec![1, 2, 3], vec![4, 5, 6]]);
}

#[test]
fn empty_input_typed_fails() {
    let e = parse_csv::<u32>("".to_string()).unwrap_err();
    assert_eq!(
        e,
        ParseError::ConversionError { row: 0, field: 0, token: "".to_string() }
    );
}

#[test]
fn empty_input_raw_one_empty_row() {
    let r = parse_csv_raw("".to_string()).unwrap();
    assert_eq!(r, vec![Vec::<String>::new()]);
}

#[test]
fn escaped_comma_raw() {
    let r = parse_csv_raw("a\\,b,c\n".to_string()).unwrap();
    assert_eq!(r, owned(vec![vec!["a,b", "c"], vec![]]));
}

#[test]
fn carriage_return_stripped_typed() {
    let r = parse_csv::<String>("x\r\n y".to_string()).unwrap();
    assert_eq!(r, owned(vec![vec!["x"], vec![" y"]]));
}

#[test]
fn carriage_return_stripped_raw_drops_pending() {
    let r = parse_csv_raw("x\r\n y".to_string()).unwrap();
    assert_eq!(r, owned(vec![vec!["x"], vec![]]));
}

#[test]
fn trailing_escape_fails_typed() {
    let e = parse_csv::<u32>("a\\".to_string()).unwrap_err();
    assert_eq!(e, ParseError::UnterminatedEscape);
}

#[test]
fn trailing_escape_fails_raw() {
    let e = parse_csv_raw("a\\".to_string()).unwrap_err();
    assert_eq!(e, ParseError::UnterminatedEscape);
}

#[test]
fn plain_input_is_one_field_typed() {
    let r = parse_csv::<u32>("123".to_string()).unwrap();
    assert_eq!(r, vec![vec![123]]);
    let r = parse_csv::<String>("abc".to_string()).unwrap();
    assert_eq!(r, owned(vec![vec!["abc"]]));
}

#[test]
fn row_count_is_separators_plus_one() {
    let r = parse_csv::<String>("a\nb\nc".to_string()).unwrap();
    assert_eq!(r.len(), 3);
    let r = parse_csv_raw("a\nb\nc".to_string()).unwrap();
    assert_eq!(r.len(), 3);
    let r = parse_csv::<String>("no separators here".to_string()).unwrap();
    assert_eq!(r.len(), 1);
}

#[test]
fn escaped_backslash_is_literal() {
    let r = parse_csv::<String>("a\\\\b".to_string()).unwrap();
    assert_eq!(r, owned(vec![vec!["a\\b"]]));
}

#[test]
fn escaped_newline_is_literal() {
    let r = parse_csv::<String>("a\\\nb".to_string()).unwrap();
    assert_eq!(r, owned(vec![vec!["a\nb"]]));
}

#[test]
fn escaped_carriage_return_is_kept() {
    let r = parse_csv::<String>("a\\\rb".to_string()).unwrap();
    assert_eq!(r, owned(vec![vec!["a\rb"]]));
}

#[test]
fn carriage_returns_everywhere_ignored() {
    let r = parse_csv::<u32>("\r1\r,\r2\r".to_string()).unwrap();
    assert_eq!(r, vec![vec![1, 2]]);
}

#[test]
fn conversion_failure_aborts_with_position() {
    let e = parse_csv::<u32>("1,x\n2".to_string()).unwrap_err();
    assert_eq!(
        e,
        ParseError::ConversionError { row: 0, field: 1, token: "x".to_string() }
    );
    let e = parse_csv::<u32>("1,2\n3,oops".to_string()).unwrap_err();
    assert_eq!(
        e,
        ParseError::ConversionError { row: 1, field: 1, token: "oops".to_string() }
    );
}

#[test]
fn consecutive_separators_make_empty_fields() {
    let r = parse_csv_raw(",,\n".to_string()).unwrap();
    assert_eq!(r, owned(vec![vec!["", "", ""], vec![]]));
    let e = parse_csv::<u32>(",,".to_string()).unwrap_err();
    assert_eq!(
        e,
        ParseError::ConversionError { row: 0, field: 0, token: "".to_string() }
    );
}

#[test]
fn u32_accepts_plus_and_max() {
    let r = parse_csv::<u32>("+42,4294967295".to_string()).unwrap();
    assert_eq!(r, vec![vec![42, 4294967295]]);
}

#[test]
fn u32_rejects_overflow_sign_and_junk() {
    let too_big = parse_csv::<u32>("4294967296".to_string()).unwrap_err();
    assert_eq!(
        too_big,
        ParseError::ConversionError { row: 0, field: 0, token: "4294967296".to_string() }
    );
    assert!(parse_csv::<u32>("-1".to_string()).is_err());
    assert!(parse_csv::<u32>("1 ".to_string()).is_err());
    assert!(parse_csv::<u32>("+".to_string()).is_err());
    assert!(parse_csv::<u32>("1_0".to_string()).is_err());
}
