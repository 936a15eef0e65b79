use opnsense_bind9::serial::{bump_serial_text, bump_serial_today};

const ZONE_TEXT: &str = "$TTL 86400\n@\tIN\tSOA\tns1.lan. admin.lan. (\n\t2024060100\t; serial\n\t3600\t; refresh\n)\n";

#[test]
fn same_day_serial_increments_twice() {
    let once = bump_serial_text(ZONE_TEXT, "20240601");
    assert!(once.contains("\t2024060101\t; serial"));
    let twice = bump_serial_text(&once, "20240601");
    assert!(twice.contains("\t2024060102\t; serial"));
    assert!(!twice.contains("2024060100"));
}

#[test]
fn stale_serial_resets_to_today_zero_zero() {
    let bumped = bump_serial_text(ZONE_TEXT, "20260101");
    assert!(bumped.contains("\t2026010100\t; serial"));
    // regardless of the prior value
    let high = "\t4000000000\t; serial\n";
    let bumped_high = bump_serial_text(high, "20260101");
    assert_eq!(bumped_high, "\t2026010100\t; serial\n");
}

#[test]
fn non_numeric_serial_resets_even_with_today_prefix() {
    let odd = "\t20240601xx\t; serial\n";
    let bumped = bump_serial_text(odd, "20240601");
    assert_eq!(bumped, "\t2024060100\t; serial\n");
}

#[test]
fn only_the_first_serial_marker_line_changes() {
    let text = "a line\n\t2024060100\t; serial\nmiddle\n\t2024060100\t; serial\nlast";
    let bumped = bump_serial_text(text, "20240601");
    assert_eq!(
        bumped,
        "a line\n\t2024060101\t; serial\nmiddle\n\t2024060100\t; serial\nlast\n"
    );
}

#[test]
fn non_serial_lines_are_preserved_verbatim() {
    let bumped = bump_serial_text(ZONE_TEXT, "20240601");
    assert_eq!(
        bumped,
        "$TTL 86400\n@\tIN\tSOA\tns1.lan. admin.lan. (\n\t2024060101\t; serial\n\t3600\t; refresh\n)\n"
    );
}

#[test]
fn file_without_serial_line_only_gains_trailing_newline() {
    let text = "no marker here\nsecond line";
    assert_eq!(bump_serial_text(text, "20240601"), "no marker here\nsecond line\n");
    let already = "one\ntwo\n";
    assert_eq!(bump_serial_text(already, "20240601"), "one\ntwo\n");
}

#[test]
fn empty_file_becomes_a_single_newline() {
    assert_eq!(bump_serial_text("", "20240601"), "\n");
}

#[test]
fn crlf_line_break_counts_as_one_line_break() {
    let text = "top\r\n\t2024060100\t; serial\r\n";
    let bumped = bump_serial_text(text, "20240601");
    assert_eq!(bumped, "top\n\t2024060101\t; serial\n");
}

#[test]
fn serial_line_token_may_follow_leading_whitespace() {
    let text = "   2024060105   ; serial\n";
    let bumped = bump_serial_text(text, "20240601");
    assert_eq!(bumped, "\t2024060106\t; serial\n");
}

#[test]
fn bump_today_uses_the_real_date_stamp() {
    let today = chrono::Local::now().format("%Y%m%d").to_string();
    // a serial that cannot carry today's stamp resets to <today>00 ...
    let reset = bump_serial_today("\t0\t; serial\n");
    let expected_reset = format!("\t{}00\t; serial\n", today);
    assert_eq!(reset, expected_reset);
    // ... and a second run the same day increments it to <today>01
    let again = bump_serial_today(&reset);
    let expected_again = format!("\t{}01\t; serial\n", today);
    assert_eq!(again, expected_again);
}
