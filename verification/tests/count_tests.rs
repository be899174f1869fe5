use dfutil::format_count;

#[test]
fn format_count_zero() {
    let s = format_count(0, 1024);
    assert_eq!(s, "0");
}

#[test]
fn format_count_bytes() {
    let s = format_count(12, 1024);
    assert_eq!(s, "12.0B");
}

#[test]
fn format_count_megabyte() {
    let s = format_count(12693000, 1024);
    assert_eq!(s, "12.1M");
}

#[test]
fn format_count_very_large() {
    let s = format_count(2535301200456458802993406410752, 1024);
    assert_eq!(s, "2097152.0Y");
}

#[test]
fn format_count_one_kilobyte_exact() {
    let s = format_count(1024, 1024);
    assert_eq!(s, "1.0k");
}

#[test]
fn format_count_below_one_unit() {
    let s = format_count(1023, 1024);
    assert_eq!(s, "1023.0B");
}

#[test]
fn format_count_rounds_up_to_next_whole() {
    // 2038 / 1024 = 1.990..., which rounds to 2.0
    let s = format_count(2038, 1024);
    assert_eq!(s, "2.0k");
}

#[test]
fn format_count_decimal_delimiter() {
    let s = format_count(1500, 1000);
    assert_eq!(s, "1.5k");
}

#[test]
fn format_count_gigabyte() {
    // 3 * 1024^3 + half a gigabyte rounds to 3.5G
    let s = format_count(3 * 1024 * 1024 * 1024 + 512 * 1024 * 1024, 1024);
    assert_eq!(s, "3.5G");
}
