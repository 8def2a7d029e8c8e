use budgetui::amount::Amount;
use budgetui::csv_import::{
    compute_hash, fnv1a, parse_amount, parse_decimal, CsvImporter, ParseError,
};
use budgetui::date::{parse_date, CalendarDate};
use budgetui::profile::CsvProfile;

/// Reads CSV text as the importer's front end does, then splits off the headers.
fn preview_text(text: &str) -> Option<(Vec<String>, Vec<Vec<String>>)> {
    let mut reader = csv::ReaderBuilder::new()
        .has_headers(false)
        .flexible(true)
        .from_reader(text.as_bytes());
    let records: Vec<Vec<String>> = reader
        .records()
        .map(|r| r.unwrap().iter().map(|s| s.to_string()).collect())
        .collect();
    CsvImporter::split_preview(records)
}

fn row(cells: &[&str]) -> Vec<String> {
    cells.iter().map(|s| s.to_string()).collect()
}

#[test]
fn test_parse_decimal_basic() {
    assert_eq!(parse_decimal("100.50").unwrap(), Amount::new(10050, 2));
    assert_eq!(parse_decimal("-42.99").unwrap(), Amount::new(-4299, 2));
}

#[test]
fn test_parse_decimal_with_currency() {
    assert_eq!(parse_decimal("$1,234.56").unwrap(), Amount::new(123456, 2));
    assert_eq!(parse_decimal("-$99.99").unwrap(), Amount::new(-9999, 2));
}

#[test]
fn test_parse_decimal_parentheses_negative() {
    assert_eq!(parse_decimal("(500.00)").unwrap(), Amount::new(-50000, 2));
}

#[test]
fn test_parse_decimal_empty() {
    assert_eq!(parse_decimal("").unwrap(), Amount::zero());
    assert_eq!(parse_decimal("  ").unwrap(), Amount::zero());
}

#[test]
fn test_parse_decimal_quoted() {
    assert_eq!(parse_decimal("\"100.00\"").unwrap(), Amount::new(10000, 2));
}

#[test]
fn test_parse_decimal_integer() {
    assert_eq!(parse_decimal("42").unwrap(), Amount::new(42, 0));
}

#[test]
fn test_parse_decimal_large_with_commas() {
    assert_eq!(parse_decimal("$1,234,567.89").unwrap(), Amount::new(123456789, 2));
}

#[test]
fn test_parse_decimal_invalid() {
    assert!(parse_decimal("not_a_number").is_none());
}

#[test]
fn test_parse_date_us_format() {
    let d = parse_date("01/15/2024", "%m/%d/%Y").unwrap();
    assert_eq!(d, CalendarDate::new(2024, 1, 15));
}

#[test]
fn test_parse_date_iso_format() {
    let d = parse_date("2024-01-15", "%Y-%m-%d").unwrap();
    assert_eq!(d, CalendarDate::new(2024, 1, 15));
}

#[test]
fn test_parse_date_fallback() {
    let d = parse_date("2024-01-15", "%m/%d/%Y").unwrap();
    assert_eq!(d, CalendarDate::new(2024, 1, 15));
}

#[test]
fn test_parse_date_two_digit_year() {
    let d = parse_date("01/15/24", "%m/%d/%y").unwrap();
    assert_eq!(d, CalendarDate::new(2024, 1, 15));
}

#[test]
fn test_parse_date_dash_format() {
    let d = parse_date("01-15-2024", "%m-%d-%Y").unwrap();
    assert_eq!(d, CalendarDate::new(2024, 1, 15));
}

#[test]
fn test_parse_date_invalid() {
    assert!(parse_date("not-a-date", "%m/%d/%Y").is_none());
}

#[test]
fn test_parse_date_empty() {
    assert!(parse_date("", "%m/%d/%Y").is_none());
}

#[test]
fn test_parse_amount_single_column() {
    let profile = CsvProfile::default();
    let r = row(&["01/15/2024", "Coffee", "-4.50"]);
    assert_eq!(parse_amount(&r, &profile).unwrap(), Amount::new(-450, 2));
}

#[test]
fn test_parse_amount_debit_credit_columns() {
    let profile = CsvProfile {
        amount_column: None,
        debit_column: Some(2),
        credit_column: Some(3),
        ..CsvProfile::default()
    };
    let debit_row = row(&["01/15/2024", "Coffee", "4.50", ""]);
    assert_eq!(parse_amount(&debit_row, &profile).unwrap(), Amount::new(-450, 2));
    let credit_row = row(&["01/15/2024", "Deposit", "", "1000.00"]);
    assert_eq!(parse_amount(&credit_row, &profile).unwrap(), Amount::new(100000, 2));
}

#[test]
fn test_parse_amount_both_empty_debit_credit() {
    let profile = CsvProfile {
        amount_column: None,
        debit_column: Some(2),
        credit_column: Some(3),
        ..CsvProfile::default()
    };
    let r = row(&["01/15/2024", "Something", "", ""]);
    assert_eq!(parse_amount(&r, &profile).unwrap(), Amount::zero());
}

#[test]
fn test_parse_amount_negate() {
    let profile = CsvProfile {
        negate_amounts: true,
        ..CsvProfile::default()
    };
    let r = row(&["01/15/2024", "Coffee", "4.50"]);
    assert_eq!(parse_amount(&r, &profile).unwrap(), Amount::new(-450, 2));
}

#[test]
fn test_parse_basic_rows() {
    let profile = CsvProfile::default();
    let rows = vec![
        row(&["01/15/2024", "Coffee", "-4.50"]),
        row(&["01/16/2024", "Lunch", "-12.00"]),
    ];
    let txns = CsvImporter::parse(&rows, &profile, 1).unwrap();
    assert_eq!(txns.len(), 2);
    assert_eq!(txns[0].date, "2024-01-15");
    assert_eq!(txns[0].description, "Coffee");
    assert_eq!(txns[0].amount, Amount::new(-450, 2));
    assert_eq!(txns[0].account_id, 1);
}

#[test]
fn test_parse_skips_empty_dates() {
    let profile = CsvProfile::default();
    let rows = vec![
        row(&["01/15/2024", "Coffee", "-4.50"]),
        row(&["", "", ""]),
        row(&["01/16/2024", "Lunch", "-12.00"]),
    ];
    let txns = CsvImporter::parse(&rows, &profile, 1).unwrap();
    assert_eq!(txns.len(), 2);
}

#[test]
fn test_parse_skip_rows() {
    let profile = CsvProfile {
        skip_rows: 1,
        ..CsvProfile::default()
    };
    let rows = vec![
        row(&["SKIP THIS ROW", "ignore", "0"]),
        row(&["01/15/2024", "Coffee", "-4.50"]),
    ];
    let txns = CsvImporter::parse(&rows, &profile, 1).unwrap();
    assert_eq!(txns.len(), 1);
    assert_eq!(txns[0].description, "Coffee");
}

#[test]
fn test_parse_iso_dates() {
    let profile = CsvProfile {
        date_format: "%Y-%m-%d".into(),
        ..CsvProfile::default()
    };
    let rows = vec![row(&["2024-01-15", "Coffee", "-4.50"])];
    let txns = CsvImporter::parse(&rows, &profile, 1).unwrap();
    assert_eq!(txns[0].date, "2024-01-15");
}

#[test]
fn test_parse_generates_import_hash() {
    let profile = CsvProfile::default();
    let rows = vec![row(&["01/15/2024", "Coffee", "-4.50"])];
    let txns = CsvImporter::parse(&rows, &profile, 1).unwrap();
    assert!(!txns[0].import_hash.is_empty());
}

#[test]
fn test_parse_sets_account_id() {
    let profile = CsvProfile::default();
    let rows = vec![row(&["01/15/2024", "Coffee", "-4.50"])];
    let txns = CsvImporter::parse(&rows, &profile, 42).unwrap();
    assert_eq!(txns[0].account_id, 42);
}

#[test]
fn test_parse_empty_rows() {
    let profile = CsvProfile::default();
    let rows: Vec<Vec<String>> = vec![];
    let txns = CsvImporter::parse(&rows, &profile, 1).unwrap();
    assert!(txns.is_empty());
}

#[test]
fn test_hash_deterministic() {
    let h1 = compute_hash(1, 0, "2024-01-15", "Coffee", &Amount::new(-450, 2));
    let h2 = compute_hash(1, 0, "2024-01-15", "Coffee", &Amount::new(-450, 2));
    assert_eq!(h1, h2);
}

#[test]
fn test_hash_different_inputs() {
    let h1 = compute_hash(1, 0, "2024-01-15", "Coffee", &Amount::new(-450, 2));
    let h2 = compute_hash(1, 0, "2024-01-15", "Tea", &Amount::new(-450, 2));
    let h3 = compute_hash(1, 0, "2024-01-16", "Coffee", &Amount::new(-450, 2));
    let h4 = compute_hash(1, 0, "2024-01-15", "Coffee", &Amount::new(-500, 2));
    assert_ne!(h1, h2);
    assert_ne!(h1, h3);
    assert_ne!(h1, h4);
}

#[test]
fn test_hash_different_rows_same_data() {
    let h1 = compute_hash(1, 0, "2024-01-15", "Coffee", &Amount::new(-450, 2));
    let h2 = compute_hash(1, 1, "2024-01-15", "Coffee", &Amount::new(-450, 2));
    assert_ne!(h1, h2);
}

#[test]
fn test_hash_different_accounts_same_data() {
    let h1 = compute_hash(1, 0, "2024-01-15", "Coffee", &Amount::new(-450, 2));
    let h2 = compute_hash(2, 0, "2024-01-15", "Coffee", &Amount::new(-450, 2));
    assert_ne!(h1, h2);
}

#[test]
fn test_hash_format() {
    let h = compute_hash(1, 0, "2024-01-15", "Coffee", &Amount::new(-450, 2));
    assert_eq!(h.len(), 16);
    assert!(h.chars().all(|c| c.is_ascii_hexdigit()));
}

#[test]
fn test_fnv1a_empty() {
    assert_eq!(fnv1a(b""), 0xcbf29ce484222325);
}

#[test]
fn test_fnv1a_consistency() {
    assert_eq!(fnv1a(b"hello"), fnv1a(b"hello"));
    assert_ne!(fnv1a(b"hello"), fnv1a(b"world"));
}

#[test]
fn test_fnv1a_single_byte_changes() {
    assert_ne!(fnv1a(b"a"), fnv1a(b"b"));
    assert_ne!(fnv1a(b"aa"), fnv1a(b"ab"));
}

#[test]
fn fnv1a_known_value() {
    // FNV-1a 64 of "a" is a published test vector.
    assert_eq!(fnv1a(b"a"), 0xaf63dc4c8601ec8c);
}

#[test]
fn hash_is_fnv1a_of_the_row_text() {
    let expected = format!("{:016x}", fnv1a(b"1|0|2024-01-15|Coffee|-4.50"));
    assert_eq!(compute_hash(1, 0, "2024-01-15", "Coffee", &Amount::new(-450, 2)), expected);
    let negative_account = format!("{:016x}", fnv1a(b"-3|12|d|x|0.05"));
    assert_eq!(compute_hash(-3, 12, "d", "x", &Amount::new(5, 2)), negative_account);
}

#[test]
fn amount_text_forms() {
    assert_eq!(Amount::new(-450, 2).to_text(), "-4.50");
    assert_eq!(Amount::new(5, 3).to_text(), "0.005");
    assert_eq!(Amount::new(123456, 2).to_text(), "1234.56");
    assert_eq!(Amount::new(42, 0).to_text(), "42");
    assert_eq!(Amount::zero().to_text(), "0");
}

#[test]
fn amount_conventions_round_trip() {
    assert_eq!(parse_decimal("$1,234.56").unwrap().to_text(), "1234.56");
    assert_eq!(parse_decimal("(500.00)").unwrap().to_text(), "-500.00");
    assert_eq!(parse_decimal("").unwrap(), Amount::zero());
    let profile = CsvProfile {
        amount_column: None,
        debit_column: Some(0),
        credit_column: Some(1),
        ..CsvProfile::default()
    };
    assert_eq!(parse_amount(&row(&["4.50", ""]), &profile).unwrap().to_text(), "-4.50");
    assert_eq!(parse_amount(&row(&["", "1000.00"]), &profile).unwrap().to_text(), "1000.00");
}

#[test]
fn debit_is_negative_even_when_written_negative() {
    let profile = CsvProfile {
        amount_column: None,
        debit_column: Some(0),
        credit_column: Some(1),
        ..CsvProfile::default()
    };
    assert_eq!(parse_amount(&row(&["-4.50", ""]), &profile).unwrap(), Amount::new(-450, 2));
    assert_eq!(parse_amount(&row(&["", "-7"]), &profile).unwrap(), Amount::new(7, 0));
}

#[test]
fn missing_amount_column_reads_as_zero() {
    let profile = CsvProfile {
        amount_column: Some(9),
        ..CsvProfile::default()
    };
    assert_eq!(parse_amount(&row(&["01/15/2024", "x"]), &profile).unwrap(), Amount::zero());
}

#[test]
fn parse_reports_bad_date_with_row_number() {
    let profile = CsvProfile::default();
    let rows = vec![
        row(&["01/15/2024", "Coffee", "-4.50"]),
        row(&["yesterday", "Lunch", "-12.00"]),
    ];
    let err = CsvImporter::parse(&rows, &profile, 1).unwrap_err();
    assert_eq!(err, ParseError::InvalidDate { row: 2, value: "yesterday".to_string() });
}

#[test]
fn parse_reports_bad_amount_with_row_number() {
    let profile = CsvProfile::default();
    let rows = vec![row(&["01/15/2024", "Coffee", "lots"])];
    let err = CsvImporter::parse(&rows, &profile, 1).unwrap_err();
    assert_eq!(err, ParseError::InvalidAmount { row: 1 });
}

#[test]
fn parse_stops_at_first_failing_row() {
    let profile = CsvProfile::default();
    let rows = vec![
        row(&["01/15/2024", "Coffee", "bad"]),
        row(&["never", "Lunch", "-12.00"]),
    ];
    let err = CsvImporter::parse(&rows, &profile, 1).unwrap_err();
    assert_eq!(err, ParseError::InvalidAmount { row: 1 });
}

#[test]
fn parse_with_timestamp_stamps_every_row() {
    let profile = CsvProfile::default();
    let rows = vec![row(&["01/15/2024", "Coffee", "-4.50"])];
    let stamp = "2024-02-01T00:00:00+00:00".to_string();
    let txns = CsvImporter::parse_with_timestamp(&rows, &profile, 1, &stamp).unwrap();
    assert_eq!(txns[0].created_at, stamp);
    assert!(txns[0].notes.is_empty());
    assert!(!txns[0].is_transfer);
    assert_eq!(txns[0].original_description, "Coffee");
}

#[test]
fn repeated_rows_get_distinct_hashes() {
    let profile = CsvProfile::default();
    let rows = vec![
        row(&["01/15/2024", "Coffee", "-4.50"]),
        row(&["01/15/2024", "Coffee", "-4.50"]),
    ];
    let txns = CsvImporter::parse(&rows, &profile, 1).unwrap();
    assert_ne!(txns[0].import_hash, txns[1].import_hash);
    let again = CsvImporter::parse(&rows, &profile, 1).unwrap();
    assert_eq!(txns[0].import_hash, again[0].import_hash);
    assert_eq!(txns[1].import_hash, again[1].import_hash);
}

#[test]
fn end_to_end_default_profile() {
    let text = "01/15/2024,Coffee Shop,-4.50\n01/16/2024,Lunch,-12.00\n";
    let (headers, rows) = preview_text(text).unwrap();
    assert_eq!(headers, vec!["Column 1", "Column 2", "Column 3"]);
    let txns = CsvImporter::parse(&rows, &CsvProfile::default(), 1).unwrap();
    assert_eq!(txns.len(), 2);
    assert_eq!(txns[0].date, "2024-01-15");
    assert_eq!(txns[1].date, "2024-01-16");
    assert_eq!(txns[0].amount.to_text(), "-4.50");
    assert_eq!(txns[1].amount.to_text(), "-12.00");
    assert!(!txns[0].import_hash.is_empty());
    assert!(!txns[1].import_hash.is_empty());
    assert_ne!(txns[0].import_hash, txns[1].import_hash);
    assert_eq!(txns[0].category_id, None);
    assert_eq!(txns[1].category_id, None);
}

#[test]
fn split_preview_keeps_header_row() {
    let records = vec![
        row(&["Date", "Description", "Amount"]),
        row(&["01/15/2024", "Coffee", "-4.50"]),
        row(&["01/16/2024", "Lunch", "-12.00"]),
    ];
    let (headers, rows) = CsvImporter::split_preview(records).unwrap();
    assert_eq!(headers, vec!["Date", "Description", "Amount"]);
    assert_eq!(rows.len(), 2);
    assert_eq!(rows[0][1], "Coffee");
}

#[test]
fn split_preview_empty_is_none() {
    assert!(CsvImporter::split_preview(vec![]).is_none());
}

#[test]
fn split_preview_numeric_first_row_is_data() {
    let records = vec![row(&["01/15/2024", "-4.50", "*", "123", "COFFEE SHOP"])];
    let (headers, rows) = CsvImporter::split_preview(records).unwrap();
    assert_eq!(headers[0], "Column 1");
    assert_eq!(headers[4], "Column 5");
    assert_eq!(rows.len(), 1);
}

#[test]
fn date_iso_text() {
    assert_eq!(CalendarDate::new(2024, 1, 5).to_iso(), "2024-01-05");
    assert_eq!(CalendarDate::new(987, 12, 31).to_iso(), "0987-12-31");
}

#[test]
fn parse_error_messages() {
    let e = ParseError::InvalidDate { row: 12, value: "soon".to_string() };
    assert_eq!(e.message(), "Row 12: failed to parse date 'soon'");
    assert_eq!(ParseError::InvalidAmount { row: 3 }.message(), "Row 3: failed to parse amount");
}

#[test]
fn test_preview_with_headers() {
    let csv = "Date,Description,Amount\n01/15/2024,Coffee,-4.50\n01/16/2024,Lunch,-12.00\n";
    let (headers, rows) = preview_text(csv).unwrap();
    assert_eq!(headers, vec!["Date", "Description", "Amount"]);
    assert_eq!(rows.len(), 2);
    assert_eq!(rows[0][1], "Coffee");
}

#[test]
fn test_preview_without_headers() {
    let csv = "01/15/2024,-4.50,*,123,COFFEE SHOP\n01/16/2024,-12.00,*,456,RESTAURANT\n";
    let (headers, rows) = preview_text(csv).unwrap();
    assert!(headers[0].starts_with("Column"));
    assert_eq!(rows.len(), 2);
}

#[test]
fn test_preview_empty_file() {
    assert!(preview_text("").is_none());
}

#[test]
fn test_preview_single_row_with_header() {
    let csv = "Date,Description,Amount\n01/15/2024,Coffee,-4.50\n";
    let (headers, rows) = preview_text(csv).unwrap();
    assert_eq!(headers.len(), 3);
    assert_eq!(rows.len(), 1);
}

#[test]
fn test_preview_quoted_fields() {
    let csv = "Date,Description,Amount\n01/15/2024,\"Coffee, Shop\",-4.50\n";
    let (_, rows) = preview_text(csv).unwrap();
    assert_eq!(rows[0][1], "Coffee, Shop");
}
