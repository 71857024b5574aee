use apr::date::{checkmask, parse_http, parse_rfc};
use apr::time::Time;

#[test]
fn test_parse_http() {
    let expected = Time::from(784111777000000);
    assert_eq!(parse_http("WTAF"), None);
    assert_eq!(parse_http("Sun, 06 Nov 1994 08:49:37 GMT"), Some(expected));
    assert_eq!(parse_http("Sunday, 06-Nov-94 08:49:37 GMT"), Some(expected));
    assert_eq!(parse_http("Sun Nov  6 08:49:37 1994"), Some(expected));
}

#[test]
fn test_parse_rfc() {
    let expected = Time::from(784111777000000);
    assert_eq!(parse_rfc("Sun, 06 Nov 1994 08:49:37 GMT"), Some(expected)); //  RFC 822, updated by RFC 1123
    assert_eq!(parse_rfc("Sunday, 06-Nov-94 08:49:37 GMT"), Some(expected)); // RFC 850, obsoleted by RFC 1036
    assert_eq!(parse_rfc("Sun Nov  6 08:49:37 1994"), Some(expected)); // ANSI C's asctime() format
    assert_eq!(parse_rfc("Sun, 6 Nov 1994 08:49:37 GMT"), Some(expected)); // RFC 822, updated by RFC 1123
    assert_eq!(parse_rfc("Sun, 06 Nov 94 08:49:37 GMT"), Some(expected)); // RFC 822
    assert_eq!(parse_rfc("Sun, 6 Nov 94 08:49:37 GMT"), Some(expected)); // RFC 822
    let expected_without_secs = Time::from(784111740000000);
    assert_eq!(
        parse_rfc("Sun, 06 Nov 94 08:49 GMT"),
        Some(expected_without_secs)
    );
    assert_eq!(
        parse_rfc("Sun, 6 Nov 94 08:49 GMT"),
        Some(expected_without_secs)
    );
    assert_eq!(parse_rfc("Sun, 06 Nov 94 8:49:37 GMT"), Some(expected));
    assert_eq!(parse_rfc("Sun, 6 Nov 94 8:49:37 GMT"), Some(expected));
}

#[test]
fn test_checkmask() {
    assert!(checkmask("06 Nov 1994", "## @$$ ####"));
    assert!(checkmask("06 Nov 1994 and more", "## @$$ #### *"));
    assert!(!checkmask("06 Nov 1994 and more", "## @$$ ####"));
    assert!(!checkmask("6 Nov", "## @$$"));
    assert!(checkmask(" 6", "~#"));
    assert!(checkmask("fF09", "&&&&"));
    assert!(!checkmask("g", "&"));
}

#[test]
fn test_parse_rfc_zones_and_dates() {
    // One hour east of GMT is one hour earlier in GMT.
    assert_eq!(
        parse_rfc("Sun, 06 Nov 1994 09:49:37 +0100"),
        Some(Time::from(784111777000000))
    );
    assert_eq!(
        parse_rfc("Sun, 06 Nov 1994 07:49:37 -0100"),
        Some(Time::from(784111777000000))
    );
    // A date that starts with a digit needs no weekday.
    assert_eq!(parse_rfc("06 Nov 1994 08:49:37 GMT"), Some(Time::from(784111777000000)));
    // The epoch itself reads as no time.
    assert_eq!(parse_http("Thu, 01 Jan 1970 00:00:00 GMT"), None);
    assert_eq!(parse_http("Thu, 01 Jan 1970 00:00:01 GMT"), Some(Time::from(1000000)));
    // Dates before 1970 are refused.
    assert_eq!(parse_http("Wed, 31 Dec 1969 23:59:59 GMT"), None);
    // Leap days.
    assert_eq!(
        parse_http("Tue, 29 Feb 2000 00:00:00 GMT"),
        Some(Time::from(951782400000000))
    );
    assert_eq!(parse_http("Thu, 29 Feb 1900 00:00:00 GMT"), None);
    assert_eq!(parse_http("Sun, 29 Feb 2001 00:00:00 GMT"), None);
    assert_eq!(parse_http("Mon, 31 Apr 2001 00:00:00 GMT"), None);
    assert_eq!(parse_http("Mon, 01 Foo 2001 00:00:00 GMT"), None);
    assert_eq!(parse_http("Mon, 01 Jan 2001 24:00:00 GMT"), None);
    assert_eq!(parse_http(""), None);
    assert_eq!(parse_http("   "), None);
}

#[test]
fn test_rfc822_date_parses_back() {
    for secs in [1i64, 784_111_777, 951_782_400, 1_709_164_800, 4_102_444_799, 253_402_300_799] {
        let t = Time::from_micros(secs * 1_000_000);
        let text = t.rfc822_date();
        let back = parse_http(&text).unwrap();
        assert_eq!(back.as_micros(), secs * 1_000_000, "{}", text);
    }
    assert_eq!(
        Time::from_micros(784_111_777 * 1_000_000).rfc822_date(),
        "Sun, 06 Nov 1994 08:49:37 GMT"
    );
}
