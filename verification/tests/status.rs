use apr::status::{apr_result, APR_BADARG, APR_ENOSTAT, APR_EOF, APR_NOTFOUND, APR_SUCCESS};
use apr::Status;

#[test]
fn test_status_to_u32_returns_apr_value() {
    let status = Status::Success;
    let code: u32 = status.into();
    assert_eq!(code, APR_SUCCESS);

    let status = Status::NotFound;
    let code: u32 = status.into();
    assert_eq!(code, APR_NOTFOUND);

    let status = Status::Eof;
    let code: u32 = status.into();
    assert_eq!(code, APR_EOF);
}

#[test]
fn test_status_roundtrip() {
    let original = APR_ENOSTAT;
    let status = Status::from(original);
    let code: u32 = status.into();
    assert_eq!(code, original);

    let original = APR_BADARG;
    let status = Status::from(original);
    let code: u32 = status.into();
    assert_eq!(code, original);
}

#[test]
fn test_status_display_uses_correct_value() {
    let status = Status::NotFound;
    let display = status.to_display_string();
    assert!(display.contains(&format!("({})", APR_NOTFOUND)));
}

#[test]
fn status_codes_exact() {
    assert_eq!(u32::from(Status::NotFound), 70015);
    assert_eq!(u32::from(Status::General), 20014);
    assert_eq!(Status::from(424242u32), Status::General);
    assert_eq!(Status::from(20019i32), Status::DSOOpen);
}

#[test]
fn status_predicates_and_result() {
    assert!(Status::Success.is_success());
    assert!(!Status::Success.is_error());
    assert!(Status::Eof.is_error());
    assert_eq!(Status::Eof.raw_os_error(), None);
    assert_eq!(apr_result(0), Ok(()));
    assert_eq!(apr_result(70014), Err(Status::Eof));
}

#[test]
fn status_strerror_fills_buffer() {
    let s = Status::Eof.strerror();
    assert_eq!(s.len(), 1024);
    assert!(s.starts_with("End of file found\0"));
}
