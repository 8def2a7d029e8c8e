use budgetui::amount::{format_amount, Amount};
use budgetui::util::{
    adjust_optional, adjust_usize, escape_like, find_closest, levenshtein, parse_month_label,
    scroll_down, scroll_to_bottom, scroll_to_top, scroll_up, shellexpand, truncate,
};

#[test]
fn test_truncate_short_string() {
    assert_eq!(truncate("hello", 10), "hello");
}

#[test]
fn test_truncate_exact_length() {
    assert_eq!(truncate("hello", 5), "hello");
}

#[test]
fn test_truncate_long_string() {
    assert_eq!(truncate("hello world", 5), "hell…");
}

#[test]
fn test_truncate_empty() {
    assert_eq!(truncate("", 5), "");
}

#[test]
fn test_truncate_zero_max() {
    assert_eq!(truncate("hello", 0), "");
}

#[test]
fn test_truncate_unicode() {
    // Japanese characters are multi-byte UTF-8
    assert_eq!(truncate("日本語テスト", 4), "日本語…");
}

#[test]
fn test_truncate_emoji() {
    assert_eq!(truncate("🎉🎊🎈🎁", 3), "🎉🎊…");
}

#[test]
fn test_truncate_one_char() {
    assert_eq!(truncate("hello", 1), "…");
}

#[test]
fn test_truncate_mixed_unicode() {
    assert_eq!(truncate("café résumé", 5), "café…");
}

#[test]
fn test_truncate_two_chars() {
    assert_eq!(truncate("hello", 2), "h…");
}

#[test]
fn test_truncate_single_char_string() {
    assert_eq!(truncate("a", 1), "a");
    assert_eq!(truncate("a", 5), "a");
}

#[test]
fn test_truncate_max_one_with_long_string() {
    // max=1 should always produce "…" for strings longer than 1
    assert_eq!(truncate("ab", 1), "…");
    assert_eq!(truncate("abc", 1), "…");
}

#[test]
fn scroll_down_moves_and_scrolls() {
    let (mut i, mut s) = (2usize, 0usize);
    scroll_down(&mut i, &mut s, 10, 3);
    assert_eq!((i, s), (3, 1));
    let (mut i, mut s) = (9usize, 7usize);
    scroll_down(&mut i, &mut s, 10, 3);
    assert_eq!((i, s), (9, 7));
}

#[test]
fn scroll_up_moves_and_scrolls() {
    let (mut i, mut s) = (3usize, 3usize);
    scroll_up(&mut i, &mut s);
    assert_eq!((i, s), (2, 2));
    let (mut i, mut s) = (0usize, 0usize);
    scroll_up(&mut i, &mut s);
    assert_eq!((i, s), (0, 0));
}

#[test]
fn scroll_to_ends() {
    let (mut i, mut s) = (4usize, 2usize);
    scroll_to_top(&mut i, &mut s);
    assert_eq!((i, s), (0, 0));
    scroll_to_bottom(&mut i, &mut s, 10, 4);
    assert_eq!((i, s), (9, 6));
    let (mut i, mut s) = (1usize, 1usize);
    scroll_to_bottom(&mut i, &mut s, 0, 4);
    assert_eq!((i, s), (1, 1));
}

#[test]
fn adjust_fields() {
    assert_eq!(adjust_usize(3, -5, 10), 0);
    assert_eq!(adjust_usize(3, 20, 10), 10);
    assert_eq!(adjust_usize(3, 1, 10), 4);
    assert_eq!(adjust_optional(Some(0), -1, 5), None);
    assert_eq!(adjust_optional(Some(4), 3, 5), Some(5));
    assert_eq!(adjust_optional(None, 1, 5), Some(0));
    assert_eq!(adjust_optional(None, -1, 5), None);
}

#[test]
fn levenshtein_distances() {
    assert_eq!(levenshtein("kitten", "sitting"), 3);
    assert_eq!(levenshtein("", "abc"), 3);
    assert_eq!(levenshtein("same", "same"), 0);
}

#[test]
fn closest_command() {
    let cmds = ["q", "quit", "import", "help", "month"];
    assert_eq!(find_closest("imprt", &cmds), "import");
    assert_eq!(find_closest("mnth", &cmds), "month");
    assert_eq!(find_closest("x", &["a", "b"]), "help");
}

#[test]
fn like_escaping() {
    assert_eq!(escape_like("50%_off\\"), "50\\%\\_off\\\\");
    assert_eq!(escape_like("plain"), "plain");
}

#[test]
fn home_expansion() {
    assert_eq!(shellexpand("~/data/a.csv", "/home/me"), "/home/me/data/a.csv");
    assert_eq!(shellexpand("/tmp/a.csv", "/home/me"), "/tmp/a.csv");
}

#[test]
fn month_labels() {
    assert_eq!(parse_month_label("2024-01"), "J");
    assert_eq!(parse_month_label("2024-10"), "O");
    assert_eq!(parse_month_label("2024-13"), "?");
    assert_eq!(parse_month_label("2024"), "?");
}

#[test]
fn test_format_amount_basic() {
    assert_eq!(format_amount(Amount::new(123456, 2)), "$1,234.56");
}

#[test]
fn test_format_amount_no_commas() {
    assert_eq!(format_amount(Amount::new(99999, 2)), "$999.99");
}

#[test]
fn test_format_amount_zero() {
    assert_eq!(format_amount(Amount::new(0, 0)), "$0.00");
}

#[test]
fn test_format_amount_negative() {
    assert_eq!(format_amount(Amount::new(-4250, 2)), "-$42.50");
}

#[test]
fn test_format_amount_large() {
    assert_eq!(format_amount(Amount::new(123456789, 2)), "$1,234,567.89");
}

#[test]
fn test_format_amount_millions() {
    assert_eq!(format_amount(Amount::new(1000000000, 2)), "$10,000,000.00");
}

#[test]
fn test_format_amount_rounds_to_two_decimals() {
    assert_eq!(format_amount(Amount::new(15, 1)), "$1.50");
}

#[test]
fn test_format_amount_negative_large() {
    assert_eq!(format_amount(Amount::new(-9999901, 2)), "-$99,999.01");
}

#[test]
fn test_format_amount_single_digit() {
    assert_eq!(format_amount(Amount::new(5, 0)), "$5.00");
}

#[test]
fn format_amount_cuts_extra_decimals() {
    assert_eq!(format_amount(Amount::new(1239, 3)), "$1.23");
    assert_eq!(format_amount(Amount::new(-5, 3)), "-$0.00");
    assert_eq!(format_amount(Amount::new(123456, 0)), "$123,456.00");
}
