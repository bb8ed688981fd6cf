use scope_core::input::{collect_values, data_line, frame_columns, split_csv_fields, trim};

/// The sample frame of a CSV line, as the readers build it from the
/// library's field splitting.
fn parse_csv_line(line: &str, has_timestamp: bool) -> Option<(Option<f64>, Vec<f32>)> {
    let fields = split_csv_fields(line);
    let (ts_field, value_fields) = frame_columns(fields, has_timestamp);
    let timestamp = ts_field.and_then(|f| f.parse::<f64>().ok());
    let parsed: Vec<Option<f32>> = value_fields.iter().map(|s| s.parse::<f32>().ok()).collect();
    collect_values(&parsed).map(|values| (timestamp, values))
}

#[test]
fn parse_simple_csv() {
    let (timestamp, values) = parse_csv_line("1.5, 2.3, -0.7", false).unwrap();
    assert!(timestamp.is_none());
    assert_eq!(values.len(), 3);
    assert!((values[0] - 1.5).abs() < 1e-6);
}

#[test]
fn parse_csv_with_timestamp() {
    let (timestamp, values) = parse_csv_line("0.001, 1.5, 2.3", true).unwrap();
    assert!((timestamp.unwrap() - 0.001).abs() < 1e-9);
    assert_eq!(values.len(), 2);
}

#[test]
fn parse_empty_line() {
    assert!(parse_csv_line("", false).is_none());
}

#[test]
fn parse_garbage() {
    assert!(parse_csv_line("hello, world", false).is_none());
}

#[test]
fn fields_are_split_and_trimmed() {
    assert_eq!(split_csv_fields(" a ,b,, c\t"), vec!["a", "b", "", "c"]);
    assert_eq!(split_csv_fields(""), vec![""]);
    assert_eq!(split_csv_fields(","), vec!["", ""]);
    assert_eq!(split_csv_fields("\u{3000}x\u{a0}"), vec!["x"]);
}

#[test]
fn trim_matches_std() {
    for s in ["", "  ", " a b ", "\t\n x\r\n", "\u{2003}y\u{85}", "z"] {
        assert_eq!(trim(s), s.trim());
    }
}

#[test]
fn timestamp_column_is_always_first() {
    let (ts, vals) = frame_columns(vec!["1".to_string()], true);
    assert_eq!(ts, Some("1".to_string()));
    assert!(vals.is_empty());
    // A line of a timestamp alone carries no samples.
    assert!(parse_csv_line("1.5", true).is_none());
    let (ts, vals) = frame_columns(vec!["1".to_string()], false);
    assert_eq!(ts, None);
    assert_eq!(vals, vec!["1".to_string()]);
    let (ts, vals) = frame_columns(vec!["1".to_string(), "2".to_string()], true);
    assert_eq!(ts, Some("1".to_string()));
    assert_eq!(vals, vec!["2".to_string()]);
}

#[test]
fn unparsed_values_are_skipped() {
    assert_eq!(collect_values(&vec![None, Some(2), None, Some(5)]), Some(vec![2, 5]));
    assert_eq!(collect_values::<i32>(&vec![None, None]), None);
    assert_eq!(parse_csv_line("x, 1.0, y, 2.0", false).unwrap().1, vec![1.0, 2.0]);
}

#[test]
fn comment_and_blank_lines_carry_no_data() {
    assert_eq!(data_line("   "), None);
    assert_eq!(data_line("# ch0, ch1"), None);
    assert_eq!(data_line("  # indented comment"), None);
    assert_eq!(data_line(" 1.0, 2.0 \n"), Some("1.0, 2.0".to_string()));
}
