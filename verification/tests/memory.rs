use vigia::memory::{nth_word, parse_u64, resident_of};

fn chars(s: &str) -> Vec<char> {
    s.chars().collect()
}

#[test]
fn the_resident_size_is_the_first_vmrss_line_in_bytes() {
    let status = "Name:\tvigia\nVmPeak:\t  9000 kB\nVmRSS:\t   2048 kB\nVmRSS:\t 1 kB\n";
    assert_eq!(resident_of(status), Some(2048 * 1024));
}

#[test]
fn a_report_without_the_line_or_with_a_bad_number_gives_nothing() {
    assert_eq!(resident_of("Name:\tvigia\n"), None);
    assert_eq!(resident_of("VmRSS:\n"), None);
    assert_eq!(resident_of("VmRSS:\tmany kB\n"), None);
    assert_eq!(resident_of(" VmRSS:\t12 kB\n"), None);
    assert_eq!(resident_of("VmRSS:\t18446744073709551615 kB\n"), None);
}

#[test]
fn a_crlf_report_reads_the_same() {
    assert_eq!(resident_of("VmRSS:\t7 kB\r\n"), Some(7 * 1024));
}

#[test]
fn numbers_parse_as_the_standard_library_parses_them() {
    assert_eq!(parse_u64(&chars("0")), Some(0));
    assert_eq!(parse_u64(&chars("+42")), Some(42));
    assert_eq!(parse_u64(&chars("18446744073709551615")), Some(u64::MAX));
    assert_eq!(parse_u64(&chars("18446744073709551616")), None);
    assert_eq!(parse_u64(&chars("")), None);
    assert_eq!(parse_u64(&chars("+")), None);
    assert_eq!(parse_u64(&chars("-1")), None);
    assert_eq!(parse_u64(&chars("1 2")), None);
    for text in ["7", "+7", "007", "x", "", "99999999999999999999"] {
        assert_eq!(parse_u64(&chars(text)), text.parse::<u64>().ok(), "{text:?}");
    }
}

#[test]
fn words_are_counted_past_any_white_space() {
    let line = chars("  VmRSS:\t  12  kB ");
    assert_eq!(nth_word(&line, 0), Some(chars("VmRSS:")));
    assert_eq!(nth_word(&line, 1), Some(chars("12")));
    assert_eq!(nth_word(&line, 2), Some(chars("kB")));
    assert_eq!(nth_word(&line, 3), None);
    assert_eq!(nth_word(&chars(""), 0), None);
}
