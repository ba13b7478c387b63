use uscr::dates::simple_parse;
use uscr::fingerprint::{fingerprint, fingerprint_id};
use uscr::text::{
    assemble_description, compose_description, found_before_marker, parse_i64,
    parse_i64_ignoring_ws, pick_config_headers, Piece, _pa,
};

#[test]
fn parse_i64_plain() {
    assert_eq!(parse_i64(b"987"), Some(987));
    assert_eq!(parse_i64(b"+42"), Some(42));
    assert_eq!(parse_i64(b"-5"), Some(-5));
    assert_eq!(parse_i64(b"0007"), Some(7));
}

#[test]
fn parse_i64_rejects_junk() {
    assert_eq!(parse_i64(b""), None);
    assert_eq!(parse_i64(b"-"), None);
    assert_eq!(parse_i64(b"12a"), None);
    assert_eq!(parse_i64(b"4 2"), None);
    assert_eq!(parse_i64(b"1.5"), None);
}

#[test]
fn parse_i64_range_edges() {
    assert_eq!(parse_i64(b"9223372036854775807"), Some(i64::MAX));
    assert_eq!(parse_i64(b"9223372036854775808"), None);
    assert_eq!(parse_i64(b"-9223372036854775808"), Some(i64::MIN));
    assert_eq!(parse_i64(b"-9223372036854775809"), None);
    assert_eq!(parse_i64(b"99999999999999999999999999"), None);
}

#[test]
fn parse_i64_ignores_whitespace() {
    assert_eq!(parse_i64_ignoring_ws(b"1 234"), Some(1234));
    assert_eq!(parse_i64_ignoring_ws(b" 56\t78 "), Some(5678));
    assert_eq!(parse_i64_ignoring_ws(b"12x3"), None);
}

#[test]
fn pa_expands_count_suffixes() {
    assert_eq!(_pa("12K"), Some(12000));
    assert_eq!(_pa("3M"), Some(3000000));
    assert_eq!(_pa("987"), Some(987));
    assert_eq!(_pa("1.2K"), None);
    assert_eq!(_pa(""), None);
}

#[test]
fn simple_parse_two_digit_day() {
    // 2006-01-01 was a Sunday; 03:04 PM becomes 15:04 UTC.
    assert_eq!(simple_parse(b"Jan 01, 2006 03:04 PM"), Some(1136127840));
    assert_eq!(simple_parse(b"Jan 01, 2006 03:04 AM"), Some(1136084640));
}

#[test]
fn simple_parse_single_digit_day() {
    assert_eq!(simple_parse(b"Jan 1, 2006 03:04 PM"), Some(1136127840));
}

#[test]
fn simple_parse_rejects_short_or_bad_input() {
    assert_eq!(simple_parse(b"Jan 1, 2006"), None);
    assert_eq!(simple_parse(b"not a date, certainly"), None);
}

#[test]
fn fingerprint_is_stable_and_spreads() {
    let a1 = fingerprint(b"same description");
    let a2 = fingerprint(b"same description");
    assert_eq!(a1, a2);
    let b = fingerprint(b"other description");
    assert_ne!(a1, b);
    assert_eq!(fingerprint_id(b"same description"), a1 as i64);
}

#[test]
fn marker_check_needs_needle_before_first_marker() {
    let page = b"<html><title>Some Forum</title>...rest...";
    assert!(found_before_marker(page, b"<title>", b"</title>"));
    let wrong = b"</title>...<title>later";
    assert!(!found_before_marker(wrong, b"<title>", b"</title>"));
    assert!(!found_before_marker(b"no marker here", b"<title>", b"</title>"));
}

#[test]
fn descriptions_assemble_with_line_breaks() {
    let pieces = vec![
        Piece::Text("first".to_string()),
        Piece::LineBreak,
        Piece::Text("second".to_string()),
    ];
    assert_eq!(assemble_description(pieces), "first\nsecond");
}

#[test]
fn compose_description_joins_the_parts() {
    let r = compose_description(
        Some("about".to_string()),
        Some("bot info".to_string()),
        Some(("Open".to_string(), "https://site.example".to_string())),
    );
    assert_eq!(r, "about\n\nbot info\n\n[Open](https://site.example)");
    assert_eq!(compose_description(None, None, None), "");
    assert_eq!(
        compose_description(Some("only".to_string()), None, None),
        "only"
    );
}

#[test]
fn config_headers_take_the_last_of_each() {
    let h = |k: &str, v: &str| (k.as_bytes().to_vec(), v.as_bytes().to_vec());
    let picked = pick_config_headers(vec![
        h("Accept", "*/*"),
        h("Cookie", "a=1"),
        h("User-Agent", "early"),
        h("cookie", "b=2"),
        h("USER-AGENT", "late"),
    ]);
    assert_eq!(picked, Some((b"b=2".to_vec(), b"late".to_vec())));
    assert_eq!(pick_config_headers(vec![h("Cookie", "a=1")]), None);
    assert_eq!(pick_config_headers(vec![]), None);
}
