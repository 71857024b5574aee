use apr::{Error, ErrorContext, Status};

#[test]
fn test_error_from_status() {
    let err = Error::from_status(Status::NotFound);
    assert_eq!(err.status(), Status::NotFound);
    assert!(err.get_context().is_none());
}

#[test]
fn test_error_with_context() {
    let err = Error::from_status(Status::NotFound).context("Failed to find config file");
    assert_eq!(err.status(), Status::NotFound);
    assert!(err.get_context().is_some());
    assert!(err.to_display_string().contains("Failed to find config file"));
}

#[test]
fn test_error_context_trait() {
    let result: core::result::Result<(), Status> = Err(Status::NotFound);
    let err = result.context("File operation failed").unwrap_err();
    assert!(err.to_display_string().contains("File operation failed"));
}

#[test]
fn error_display_layout() {
    let err = Error::from_status(Status::Eof).context("reading");
    let shown = err.to_display_string();
    assert!(shown.starts_with("reading: End of file found"));
    assert!(shown.ends_with(" (70014)"));
}

#[test]
fn error_with_context_closure_and_source() {
    let ok: Result<u32, Status> = Ok(7);
    assert_eq!(ok.with_context(|| String::from("never")).unwrap(), 7);
    let bad: Result<u32, Status> = Err(Status::Busy);
    let e = bad.with_context(|| String::from("locking")).unwrap_err();
    assert_eq!(e.status(), Status::Busy);
    assert_eq!(e.get_context(), Some("locking"));
    let outer = Error::from_status(Status::General).with_source(Error::from_status(Status::Eof));
    assert_eq!(outer.source().unwrap().status(), Status::Eof);
}
