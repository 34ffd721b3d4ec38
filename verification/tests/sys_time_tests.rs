use badapple::krnl::sys_time::{bcd2bin, get, readings_agree, update_in_progress, SysTime};

#[test]
fn bcd_to_binary() {
    assert_eq!(bcd2bin(0x59), 59);
    assert_eq!(bcd2bin(0x00), 0);
    assert_eq!(bcd2bin(0x99), 99);
    assert_eq!(bcd2bin(0x1f), 25);
}

#[test]
fn get_converts_bcd_and_12_hour_clock() {
    // BCD, 12-hour clock: 1 pm is 0x81
    let raw = SysTime::new(0x24, 0x03, 0x05, 0x81, 0x07, 0x09);
    let t = get(raw, 0x00);
    assert_eq!(t, SysTime::new(2024, 3, 5, 13, 7, 9));
    // 12 pm (noon) is 0x92 in BCD
    let t = get(SysTime::new(0x24, 0x12, 0x31, 0x92, 0x59, 0x58), 0x00);
    assert_eq!(t, SysTime::new(2024, 12, 31, 12, 59, 58));
    // 12 am (midnight) is 0x12
    let t = get(SysTime::new(0x24, 0x12, 0x31, 0x12, 0x00, 0x01), 0x00);
    assert_eq!(t, SysTime::new(2024, 12, 31, 0, 0, 1));
    // 11 pm and 11 am
    assert_eq!(get(SysTime::new(0, 1, 1, 0x91, 0, 0), 0x00).hour, 23);
    assert_eq!(get(SysTime::new(0, 1, 1, 0x11, 0, 0), 0x00).hour, 11);
}

#[test]
fn get_binary_24_hour_clock() {
    let raw = SysTime::new(24, 3, 5, 23, 7, 9);
    let t = get(raw, 0x06);
    assert_eq!(t, SysTime::new(2024, 3, 5, 23, 7, 9));
    // the top bit of the hour is dropped in 24-hour mode
    let t = get(SysTime::new(1, 1, 1, 0x85, 0, 0), 0x06);
    assert_eq!(t.hour, 5);
}

#[test]
fn get_binary_12_hour_clock() {
    let t = get(SysTime::new(30, 1, 2, 0x80 | 3, 4, 5), 0x04);
    assert_eq!(t, SysTime::new(2030, 1, 2, 15, 4, 5));
    assert_eq!(get(SysTime::new(30, 1, 2, 0x80 | 12, 4, 5), 0x04).hour, 12);
    assert_eq!(get(SysTime::new(30, 1, 2, 12, 4, 5), 0x04).hour, 0);
}

#[test]
fn display_pads_fields() {
    let t = SysTime::new(2024, 3, 5, 13, 7, 9);
    assert_eq!(t.display(), "2024/03/05 13:07:09");
    let t = SysTime::new(7, 12, 31, 0, 0, 100);
    assert_eq!(t.display(), "7/12/31 00:00:100");
}

#[test]
fn times_are_ordered_by_year_first() {
    assert!(SysTime::new(2023, 12, 31, 23, 59, 59) < SysTime::new(2024, 1, 1, 0, 0, 0));
    assert!(SysTime::new(2024, 1, 1, 0, 0, 1) > SysTime::new(2024, 1, 1, 0, 0, 0));
}

#[test]
fn clock_reading_predicates() {
    assert!(update_in_progress(0x80));
    assert!(update_in_progress(0xa6));
    assert!(!update_in_progress(0x26));
    let a = SysTime::new(24, 1, 2, 3, 4, 5);
    assert!(readings_agree(&a, &SysTime::new(24, 1, 2, 3, 4, 5)));
    assert!(!readings_agree(&a, &SysTime::new(24, 1, 2, 3, 4, 6)));
}
