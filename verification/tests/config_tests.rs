use scx_bpfland::config::{parse_i32_or_zero, parse_smt_state, read_energy_profile_value, trim_whitespace};

#[test]
fn trim_removes_surrounding_whitespace() {
    assert_eq!(trim_whitespace("  performance\n"), "performance");
    assert_eq!(trim_whitespace("\t balance_power \r\n"), "balance_power");
    assert_eq!(trim_whitespace("power"), "power");
    assert_eq!(trim_whitespace("   \n\t"), "");
    assert_eq!(trim_whitespace(""), "");
}

#[test]
fn trim_keeps_inner_whitespace() {
    assert_eq!(trim_whitespace(" a b \n"), "a b");
}

#[test]
fn parse_plain_integers() {
    assert_eq!(parse_i32_or_zero("0"), 0);
    assert_eq!(parse_i32_or_zero("1"), 1);
    assert_eq!(parse_i32_or_zero("42"), 42);
    assert_eq!(parse_i32_or_zero("+42"), 42);
    assert_eq!(parse_i32_or_zero("-42"), -42);
    assert_eq!(parse_i32_or_zero("007"), 7);
}

#[test]
fn parse_range_limits() {
    assert_eq!(parse_i32_or_zero("2147483647"), i32::MAX);
    assert_eq!(parse_i32_or_zero("-2147483648"), i32::MIN);
    // One past either end is out of range and counts as zero.
    assert_eq!(parse_i32_or_zero("2147483648"), 0);
    assert_eq!(parse_i32_or_zero("-2147483649"), 0);
    assert_eq!(parse_i32_or_zero("99999999999999999999"), 0);
}

#[test]
fn parse_malformed_counts_as_zero() {
    assert_eq!(parse_i32_or_zero(""), 0);
    assert_eq!(parse_i32_or_zero("-"), 0);
    assert_eq!(parse_i32_or_zero("+"), 0);
    assert_eq!(parse_i32_or_zero("1x"), 0);
    assert_eq!(parse_i32_or_zero("on"), 0);
    assert_eq!(parse_i32_or_zero(" 1"), 0);
}

#[test]
fn smt_state_reads_the_trimmed_line() {
    assert_eq!(parse_smt_state("1\n"), 1);
    assert_eq!(parse_smt_state("0\n"), 0);
    assert_eq!(parse_smt_state(" 1 "), 1);
    assert_eq!(parse_smt_state("garbage\n"), 0);
}

#[test]
fn energy_profile_value_is_the_trimmed_line() {
    assert_eq!(read_energy_profile_value("balance_performance\n"), "balance_performance");
}
