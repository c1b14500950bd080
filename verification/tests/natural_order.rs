use std::cmp::Ordering;

use infekt::natural_order::{
    digit_run_end, natural_cmp, natural_path_cmp, numeric_run_cmp, trim_leading_zeroes,
};

#[test]
fn numeric_runs_compare_by_value_then_by_length() {
    assert_eq!(numeric_run_cmp(b"2", b"10"), Ordering::Less);
    assert_eq!(numeric_run_cmp(b"10", b"9"), Ordering::Greater);
    assert_eq!(numeric_run_cmp(b"02", b"2"), Ordering::Greater);
    assert_eq!(numeric_run_cmp(b"007", b"007"), Ordering::Equal);
    assert_eq!(numeric_run_cmp(b"000", b"0"), Ordering::Greater);
}

#[test]
fn leading_zeroes_are_trimmed_but_one_digit_stays() {
    assert_eq!(trim_leading_zeroes(b"0042"), b"42");
    assert_eq!(trim_leading_zeroes(b"000"), b"0");
    assert_eq!(trim_leading_zeroes(b"7"), b"7");
    assert_eq!(trim_leading_zeroes(b""), b"");
}

#[test]
fn digit_runs_end_at_the_first_other_byte() {
    assert_eq!(digit_run_end(b"ab123cd", 2), 5);
    assert_eq!(digit_run_end(b"ab123", 2), 5);
    assert_eq!(digit_run_end(b"abc", 1), 1);
}

#[test]
fn natural_comparison_orders_numbers_by_value() {
    assert_eq!(natural_cmp(b"release2", b"release10"), Ordering::Less);
    assert_eq!(natural_cmp(b"release10", b"release2"), Ordering::Greater);
    assert_eq!(natural_cmp(b"a1b", b"a1b"), Ordering::Equal);
    assert_eq!(natural_cmp(b"a1", b"a1b"), Ordering::Less);
    assert_eq!(natural_cmp(b"b", b"a9"), Ordering::Greater);
}

#[test]
fn path_comparison_uses_lowercased_file_names() {
    assert_eq!(
        natural_path_cmp("/b/Release2.NFO", "/a/release2.nfo"),
        Ordering::Equal
    );
    assert_eq!(
        natural_path_cmp("/z/release1.nfo", "/a/release10.nfo"),
        Ordering::Less
    );
}
