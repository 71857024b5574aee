use apr::paths::{
    filepath_merge, is_absolute, join_paths, merge_needs_cwd, normalize_path, path_to_cstring,
    APR_FILEPATH_NOTABOVEROOT, APR_FILEPATH_NOTABSOLUTE, APR_FILEPATH_NOTRELATIVE,
    APR_FILEPATH_SECUREROOT,
};
use apr::pool::Pool;
use apr::status::Status;

#[test]
fn test_path_conversion() {
    let pool = Pool::new();
    let path = "/tmp/test/file.txt";

    let pool_string = path_to_cstring(path.as_bytes(), &pool).unwrap();

    assert!(pool_string.as_str().unwrap().contains("tmp"));
    assert!(pool_string.as_str().unwrap().contains("file.txt"));
}

#[test]
fn test_path_to_cstring_nul_and_invalid() {
    let pool = Pool::new();
    assert_eq!(
        Status::BadArgument,
        path_to_cstring(b"/tmp/a\0b", &pool).err().unwrap()
    );
    let p = path_to_cstring(b"/tmp/\xff", &pool).unwrap();
    assert_eq!(p.as_bytes(), "/tmp/\u{FFFD}".as_bytes());
}

#[test]
fn test_join_paths_relative_segment() {
    let pool = Pool::new();
    assert_eq!(b"/usr/local/bin".to_vec(), join_paths(b"/usr/local", b"bin", &pool).unwrap());
    assert_eq!(b"/usr/lib".to_vec(), join_paths(b"/usr/local/", b"../lib", &pool).unwrap());
    assert_eq!(b"/a/b/c/e".to_vec(), join_paths(b"/a/b", b"c/./d/../e", &pool).unwrap());
    assert_eq!(b"/a/b/".to_vec(), join_paths(b"/a", b"b/", &pool).unwrap());
}

#[test]
fn test_join_paths_absolute_and_above_root() {
    let pool = Pool::new();
    assert_eq!(b"/etc/passwd".to_vec(), join_paths(b"/usr", b"//etc/passwd", &pool).unwrap());
    assert_eq!(b"/".to_vec(), join_paths(b"/", b"..", &pool).unwrap());
    assert_eq!(b"..".to_vec(), join_paths(b"a", b"../..", &pool).unwrap());
    assert_eq!(b"../x".to_vec(), join_paths(b"", b"../x", &pool).unwrap());
}

#[test]
fn test_join_paths_nul() {
    let pool = Pool::new();
    assert_eq!(Status::BadArgument, join_paths(b"/a\0", b"b", &pool).err().unwrap());
    assert_eq!(Status::BadArgument, join_paths(b"/a", b"b\0", &pool).err().unwrap());
}

#[test]
fn test_normalize_path() {
    let pool = Pool::new();
    assert_eq!(
        b"/home/u/a/c".to_vec(),
        normalize_path(b"a/./b/../c", b"/home/u", &pool).unwrap()
    );
    assert_eq!(
        Status::AboveRoot,
        normalize_path(b"/etc", b"/home/u", &pool).err().unwrap()
    );
    assert_eq!(
        Status::AboveRoot,
        normalize_path(b"../x", b"/home/u", &pool).err().unwrap()
    );
}

#[test]
fn test_filepath_merge_flags() {
    assert_eq!(Err(20021), filepath_merge(Some(b"a"), b"b", APR_FILEPATH_NOTRELATIVE, b""));
    assert_eq!(Err(20020), filepath_merge(Some(b"/x"), b"b", APR_FILEPATH_NOTABSOLUTE, b""));
    assert_eq!(Err(20020), filepath_merge(None, b"/b", APR_FILEPATH_NOTABSOLUTE, b""));
    assert_eq!(Err(20023), filepath_merge(None, b"/b", APR_FILEPATH_SECUREROOT, b""));
    assert_eq!(Ok(b"b".to_vec()), filepath_merge(None, b"b", APR_FILEPATH_NOTABSOLUTE, b"/cwd"));
    assert_eq!(
        Ok(b"/cwd/b".to_vec()),
        filepath_merge(None, b"b", 0, b"/cwd")
    );
}

#[test]
fn test_filepath_merge_not_above_root() {
    // Going above the root and coming back under it is allowed.
    assert_eq!(
        Ok(b"/r/s/t".to_vec()),
        filepath_merge(Some(b"/r/s"), b"../s/t", APR_FILEPATH_NOTABOVEROOT, b"")
    );
    assert_eq!(
        Err(20023),
        filepath_merge(Some(b"/r/s"), b"../q", APR_FILEPATH_NOTABOVEROOT, b"")
    );
    assert_eq!(
        Err(20023),
        filepath_merge(Some(b"/r/s"), b"../st", APR_FILEPATH_NOTABOVEROOT, b"")
    );
    // With the secure test, even a return under the root fails.
    assert_eq!(
        Err(20023),
        filepath_merge(Some(b"/r/s"), b"../s/t", APR_FILEPATH_SECUREROOT, b"")
    );
}

#[test]
fn test_filepath_merge_too_long() {
    let root = vec![b'a'; 4093];
    assert_eq!(Err(36), filepath_merge(Some(&root), b"", 0, b""));
    let root = vec![b'a'; 4092];
    assert!(filepath_merge(Some(&root), b"", 0, b"").is_ok());
}

#[test]
fn test_merge_needs_cwd() {
    assert!(!merge_needs_cwd(true, b"a", 0));
    assert!(merge_needs_cwd(false, b"a", 0));
    assert!(!merge_needs_cwd(false, b"/a", 0));
    assert!(merge_needs_cwd(false, b"/a", APR_FILEPATH_NOTABOVEROOT));
    assert!(!merge_needs_cwd(false, b"a", APR_FILEPATH_NOTABSOLUTE));
}

#[test]
fn test_is_absolute() {
    let pool = Pool::new();
    assert_eq!(Ok(true), is_absolute(b"/tmp", &pool));
    assert_eq!(Ok(false), is_absolute(b"tmp", &pool));
    assert_eq!(Ok(false), is_absolute(b"", &pool));
}
