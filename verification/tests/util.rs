use avromatic::framing::{frame, unframe};
use avromatic::util::{divide, scale, RDate, RDateTime, RTime};
use avromatic::values::HostValue;

#[test]
fn division_rounds_toward_zero() {
    assert_eq!(divide(7, 2), (3, 1));
    assert_eq!(divide(-7, 2), (-3, -1));
    assert_eq!(divide(0, 1000), (0, 0));
    assert_eq!(divide(-1, 1000), (0, -1));
    assert_eq!(divide(i64::MIN, 2), (i64::MIN / 2, 0));
    assert_eq!(divide(i64::MIN, 86400), (i64::MIN / 86400, i64::MIN % 86400));
    assert_eq!(divide(i64::MAX, 86400), (i64::MAX / 86400, i64::MAX % 86400));
}

#[test]
fn scaling_reports_overflow() {
    assert_eq!(scale(2, 1000, 5), Some(2005));
    assert_eq!(scale(-2, 1000, 5), Some(-1995));
    assert_eq!(scale(i64::MAX, 1000, 0), None);
    assert_eq!(scale(i64::MIN, 1, -1), None);
    assert_eq!(scale(i64::MAX, 1, 0), Some(i64::MAX));
    assert_eq!(scale(i64::MIN, 1, 0), Some(i64::MIN));
}

#[test]
fn days_since_epoch_of_times() {
    assert_eq!(RTime::days_since_epoch(86400 * 3 + 5), 3);
    assert_eq!(RTime::days_since_epoch(86399), 0);
    assert_eq!(RTime::days_since_epoch(-86401), -1);
    assert_eq!(RDateTime::days_since_epoch(86400 * 365), 365);
    assert_eq!(RDate::days_since_epoch(17), 17);
}

#[test]
fn milliseconds_and_microseconds() {
    assert_eq!(RTime::to_millis(12, 345_678), Some(12_345));
    assert_eq!(RTime::to_micros(12, 345_678), Some(12_345_678));
    assert_eq!(RTime::to_millis(i64::MAX, 0), None);
    assert_eq!(RTime::to_micros(i64::MAX / 1000, 0), None);
    assert_eq!(RTime::from_i64_millis(12_345), (12, 345_000));
    assert_eq!(RTime::from_i64_millis(-1_500), (-1, -500_000));
    assert_eq!(RTime::from_i64_micros(12_345_678), (12, 345_678));
    assert_eq!(RTime::from_i64_micros(-1), (0, -1));
}

#[test]
fn host_dates_and_times() {
    assert_eq!(RDate::from_i64(3), HostValue::Date(3));
    assert_eq!(RDate::from_integer(&-2), HostValue::Date(-2));
    assert_eq!(RTime::from_millis(&2_001), HostValue::Time(2, 1_000));
    assert_eq!(RTime::from_micros(&2_000_001), HostValue::Time(2, 1));
}

#[test]
fn frame_layout() {
    assert_eq!(frame(1, &[0xaa, 0xbb]), vec![0, 0, 0, 0, 1, 0xaa, 0xbb]);
    assert_eq!(frame(0x01020304, &[]), vec![0, 1, 2, 3, 4]);
    assert_eq!(frame(-1, &[9]), vec![0, 0xff, 0xff, 0xff, 0xff, 9]);
    // the id is cut to 32 bits
    assert_eq!(frame(0x1_0000_0002, &[]), vec![0, 0, 0, 0, 2]);
}

#[test]
fn unframe_reads_the_id() {
    assert_eq!(unframe(&[0, 0, 0, 1, 2, 7, 7]), Some((258, 5)));
    assert_eq!(unframe(&[0, 0xff, 0xff, 0xff, 0xfe]), Some((-2, 5)));
    assert_eq!(unframe(&[0, 0, 0, 1]), None);
    assert_eq!(unframe(&[]), None);
    let framed = frame(-123456, &[1, 2, 3]);
    assert_eq!(unframe(&framed), Some((-123456, 5)));
}
