use scp_script_anthology::file_size::{parse_file_size, ParsedSize, SizeWarning};

fn size(bytes: i32) -> ParsedSize {
    ParsedSize { bytes, warning: None }
}

fn warned(bytes: i32, warning: SizeWarning) -> ParsedSize {
    ParsedSize { bytes, warning: Some(warning) }
}

#[test]
fn kilobytes_count_a_thousand() {
    assert_eq!(parse_file_size("1.5 kB"), size(1500));
}

#[test]
fn megabytes_count_ten_million() {
    assert_eq!(parse_file_size("2 MB"), size(20000000));
}

#[test]
fn bytes_count_one() {
    assert_eq!(parse_file_size("100 Bytes"), size(100));
}

#[test]
fn unknown_unit_counts_one_with_a_warning() {
    assert_eq!(parse_file_size("5 XB"), warned(5, SizeWarning::UnknownUnit));
}

#[test]
fn bad_number_counts_nothing_with_a_warning() {
    assert_eq!(parse_file_size("garbage"), warned(0, SizeWarning::BadNumber));
    assert_eq!(parse_file_size(""), warned(0, SizeWarning::BadNumber));
    assert_eq!(parse_file_size(". kB"), warned(0, SizeWarning::BadNumber));
    assert_eq!(parse_file_size("1.2.3 kB"), warned(0, SizeWarning::BadNumber));
    assert_eq!(parse_file_size("-5 kB"), warned(0, SizeWarning::BadNumber));
    assert_eq!(parse_file_size("1e3 Bytes"), warned(0, SizeWarning::BadNumber));
}

#[test]
fn missing_unit_counts_one_with_a_warning() {
    assert_eq!(parse_file_size("12"), warned(12, SizeWarning::NoUnit));
}

#[test]
fn sizes_are_rounded_a_half_upwards() {
    assert_eq!(parse_file_size("1.2344 kB"), size(1234));
    assert_eq!(parse_file_size("1.2345 kB"), size(1235));
    assert_eq!(parse_file_size("0.4 Bytes"), size(0));
    assert_eq!(parse_file_size("0.5 Bytes"), size(1));
    assert_eq!(parse_file_size("99.99 Bytes"), size(100));
    assert_eq!(parse_file_size(".5 kB"), size(500));
    assert_eq!(parse_file_size("7. kB"), size(7000));
    assert_eq!(parse_file_size("0.12345678 MB"), size(1234568));
}

#[test]
fn sizes_stop_at_the_largest_number() {
    assert_eq!(parse_file_size("2147483647 Bytes"), size(i32::MAX));
    assert_eq!(parse_file_size("2147483648 Bytes"), size(i32::MAX));
    assert_eq!(parse_file_size("214.7483647 MB"), size(i32::MAX));
    assert_eq!(parse_file_size("214.7483646 MB"), size(2147483646));
    assert_eq!(parse_file_size("99999999999999999999999999999999 kB"), size(i32::MAX));
}

#[test]
fn only_the_first_two_parts_count() {
    assert_eq!(parse_file_size("3 kB or so"), size(3000));
    assert_eq!(parse_file_size("3  kB"), warned(3, SizeWarning::UnknownUnit));
}
