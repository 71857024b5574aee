use apr::file::{
    open_mode, OpenMode, APR_FOPEN_APPEND, APR_FOPEN_EXCL,
    builder, read_options, write_options, FileBuilder, OpenFlags, APR_FOPEN_CREATE,
    APR_FOPEN_READ, APR_FOPEN_TRUNCATE, APR_FOPEN_WRITE,
};
use apr::pool::Pool;
use apr::status::Status;

#[test]
fn test_open_flags_combine() {
    let flags = OpenFlags::combine(&[OpenFlags::READ(), OpenFlags::WRITE(), OpenFlags::CREATE()]);
    let expected = (APR_FOPEN_READ | APR_FOPEN_WRITE | APR_FOPEN_CREATE) as i32;
    assert_eq!(flags.0, expected);
}

#[test]
fn test_open_flags_combine_empty_and_repeated() {
    assert_eq!(OpenFlags::combine(&[]).0, 0);
    let flags = OpenFlags::combine(&[OpenFlags::WRITE(), OpenFlags::WRITE()]);
    assert_eq!(flags.bits(), 0x2);
}

#[test]
fn test_file_builder_options() {
    let pool = Pool::new();
    let options = FileBuilder::new()
        .read()
        .write()
        .create()
        .truncate()
        .permissions(0o600)
        .pool(&pool)
        .open()
        .unwrap();
    assert_eq!(options.flags.0, 0x1 | 0x2 | 0x4 | 0x10);
    assert_eq!(options.perms, 0o600);
}

#[test]
fn test_file_builder_without_pool_is_refused() {
    let result = builder().read().open();
    assert!(matches!(result, Err(Status::General)));
    assert!(result.is_err());
}

#[test]
fn test_write_and_read_options() {
    let w = write_options();
    assert_eq!(w.flags.0, APR_FOPEN_WRITE | APR_FOPEN_CREATE | APR_FOPEN_TRUNCATE);
    assert_eq!(w.perms, 0o644);
    let r = read_options();
    assert_eq!(r.flags.0, APR_FOPEN_READ);
    assert_eq!(r.perms, 0);
}

#[test]
fn test_open_mode_follows_flags() {
    let m = open_mode(OpenFlags(APR_FOPEN_READ | APR_FOPEN_APPEND)).unwrap();
    assert_eq!(
        m,
        OpenMode { read: true, write: false, append: true, truncate: false, create: false, exclusive: false }
    );
    let m = open_mode(OpenFlags(APR_FOPEN_WRITE | APR_FOPEN_CREATE | APR_FOPEN_EXCL)).unwrap();
    assert!(m.write && m.create && m.exclusive && !m.read);
    assert!(open_mode(OpenFlags(APR_FOPEN_APPEND)).is_err());
    assert!(open_mode(OpenFlags(APR_FOPEN_WRITE | APR_FOPEN_EXCL)).is_err());
    assert_eq!(
        open_mode(OpenFlags(0)).err().unwrap(),
        apr::status::status_from_code(apr::file::APR_EACCES)
    );
}
