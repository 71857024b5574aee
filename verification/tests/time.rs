use apr::time::{
    apr_time_of_duration, duration_of_apr_time, micros_before_epoch, time_of_reading, to_apr_time,
    to_system_time, Time,
};
use std::time::{Duration, SystemTime};

#[test]
fn test_time_now() {
    Time::now();
}

#[test]
fn test_ctime() {
    let t = Time::from(784111777000000);
    assert_eq!(t.ctime(), "Sun Nov 06 08:49:37 1994");
}

#[test]
fn test_rfc822_date() {
    let t = Time::from(784111777000000);
    assert_eq!(t.rfc822_date(), "Sun, 06 Nov 1994 08:49:37 GMT");
}

#[test]
fn test_system_time_conversion() {
    // Test converting from SystemTime to Time and back
    let system_time = SystemTime::UNIX_EPOCH + Duration::from_secs(1234567890);
    let apr_time = Time::from(system_time);
    let converted_back: SystemTime = apr_time.into();

    // Should be equal (allowing for microsecond precision)
    let diff = converted_back
        .duration_since(system_time)
        .unwrap_or_else(|_| system_time.duration_since(converted_back).unwrap());
    assert!(diff < Duration::from_millis(1));
}

#[test]
fn test_utility_functions() {
    let system_time = SystemTime::UNIX_EPOCH + Duration::from_secs(1000);
    let apr_time = to_apr_time(system_time);
    let converted_back = to_system_time(apr_time);

    let diff = converted_back
        .duration_since(system_time)
        .unwrap_or_else(|_| system_time.duration_since(converted_back).unwrap());
    assert!(diff < Duration::from_millis(1));
}

#[test]
fn test_time_rendering_edges() {
    assert_eq!(Time::from_micros(0).rfc822_date(), "Thu, 01 Jan 1970 00:00:00 GMT");
    assert_eq!(Time::from_micros(0).ctime(), "Thu Jan 01 00:00:00 1970");
    // A time just before the epoch rounds toward zero.
    assert_eq!(Time::from_micros(-1).rfc822_date(), "Thu, 01 Jan 1970 00:00:00 GMT");
    assert_eq!(Time::from_micros(-1_000_000).rfc822_date(), "Wed, 31 Dec 1969 23:59:59 GMT");
    assert_eq!(Time::from_micros(951782400000000).rfc822_date(), "Tue, 29 Feb 2000 00:00:00 GMT");
    assert_eq!(Time::from_micros(4107542400000000).ctime(), "Mon Mar 01 00:00:00 2100");
    assert_eq!(Time::from_micros(-2208988800000000).rfc822_date(), "Mon, 01 Jan 1900 00:00:00 GMT");
}

#[test]
fn test_time_micros_and_conversions() {
    let t = Time::from_micros(42);
    assert_eq!(t.as_micros(), 42);
    assert_eq!(i64::from(t), 42);
    assert_eq!(to_apr_time(std::time::SystemTime::UNIX_EPOCH - std::time::Duration::from_secs(5)), 0);
    assert_eq!(to_apr_time(to_system_time(1_500_000)), 1_500_000);
    assert!(Time::now().as_micros() > 0);
}

#[test]
fn test_time_before_epoch_rounds_down() {
    // 1.5 µs before the epoch is the microsecond starting 2 µs before it.
    assert_eq!(micros_before_epoch(0, 1500), -2);
    assert_eq!(micros_before_epoch(1, 0), -1_000_000);
    assert_eq!(time_of_reading(Err((0, 1))), -1);
    assert_eq!(time_of_reading(Ok((2, 3999))), 2_000_003);
}

#[test]
fn test_apr_time_round_trip_values() {
    for t in [0i64, 1, 999_999, 1_000_000, 1_234_567_890_123] {
        assert_eq!(apr_time_of_duration(Ok(duration_of_apr_time(t))), t);
    }
    assert_eq!(apr_time_of_duration(Err((5, 0))), 0);
}
