use spending_tracker::text::{parse_amount, parse_id};

#[test]
fn amounts_in_hundredths() {
    assert_eq!(parse_amount("50.75"), Some(5075));
    assert_eq!(parse_amount("50.7"), Some(5070));
    assert_eq!(parse_amount("50"), Some(5000));
    assert_eq!(parse_amount("0.05"), Some(5));
    assert_eq!(parse_amount("007"), Some(700));
}

#[test]
fn malformed_amounts_are_refused() {
    for s in ["", "-1", "+1", "1e3", "inf", "NaN", ".5", "5.", "1.234", "1,5", "1.2.3", " 1", "a"] {
        assert_eq!(parse_amount(s), None, "{}", s);
    }
}

#[test]
fn largest_amount() {
    assert_eq!(parse_amount("184467440737095516.15"), Some(u64::MAX));
    assert_eq!(parse_amount("184467440737095516.16"), None);
    assert_eq!(parse_amount("99999999999999999999999"), None);
}

#[test]
fn ids() {
    assert_eq!(parse_id("2"), Some(2));
    assert_eq!(parse_id("18446744073709551615"), Some(u64::MAX));
    assert_eq!(parse_id("18446744073709551616"), None);
    assert_eq!(parse_id(""), None);
    assert_eq!(parse_id("2a"), None);
    assert_eq!(parse_id("-2"), None);
}
