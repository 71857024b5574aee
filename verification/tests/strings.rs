use apr::callbacks::CallbackHandle;
use apr::pool::Pool;
use apr::strings::{pmemdup, pstrdup, pstrndup, BStr, BStrUtf8};

#[test]
fn test_bstr() {
    let test_str = "Hello, world!";
    let mut cstring = test_str.as_bytes().to_vec();
    cstring.push(0);

    let bstr = BStr::from_c_bytes(&cstring);
    assert_eq!(bstr.as_bytes(), test_str.as_bytes());
    assert_eq!(bstr.to_str().unwrap(), test_str);
    assert!(!bstr.is_empty());
    assert_eq!(bstr.len(), test_str.len());
}

#[test]
fn test_bstr_utf8() {
    let test_str = "Hello, 世界!";
    let mut cstring = test_str.as_bytes().to_vec();
    cstring.push(0);

    let bstr_utf8 = BStrUtf8::from_c_bytes(&cstring).unwrap();
    assert_eq!(bstr_utf8.as_str(), test_str);
    assert!(!bstr_utf8.is_empty());
    assert_eq!(bstr_utf8.len(), test_str.len());
}

#[test]
fn test_bstr_stops_at_nul_and_lossy() {
    let bstr = BStr::from_c_bytes(b"ab\0cd");
    assert_eq!(bstr.as_bytes(), b"ab");
    let bad = BStr::from_c_bytes(b"a\xffb");
    assert!(bad.to_str().is_err());
    assert_eq!(bad.to_string_lossy(), "a\u{FFFD}b");
    assert!(BStrUtf8::from_c_bytes(b"a\xffb").is_err());
    assert!(BStr::from_c_bytes(b"").is_empty());
}

#[test]
fn test_pool_string_operations() {
    let pool = Pool::new();

    let pooled = pstrdup("test string", &pool).unwrap();
    assert_eq!(pooled.as_str().unwrap(), "test string");
    assert_eq!(pooled.len(), 11);
    assert!(!pooled.is_empty());

    let bstr = pooled.as_bstr();
    assert_eq!(bstr.to_str().unwrap(), "test string");

    let data = b"binary data";
    let copied = pmemdup(data, &pool);
    assert_eq!(copied, data);
}

#[test]
fn test_pool_string_display() {
    let pool = Pool::new();
    let pooled = pstrdup("hello", &pool).unwrap();
    assert_eq!(pooled.to_display_string(), "hello");
    assert_eq!(pooled.to_debug_string(), "PoolString(\"hello\")");
}

#[test]
fn test_pstrdup_nul() {
    let pool = Pool::new();
    let err = pstrdup("ab\0c", &pool).err().unwrap();
    assert_eq!(err.nul_position(), 2);
    assert_eq!(err.into_vec(), b"ab\0c".to_vec());
}

#[test]
fn test_pstrndup() {
    let pool = Pool::new();
    assert_eq!(pstrndup("hello", 3, &pool).unwrap().as_bytes(), b"hel");
    assert_eq!(pstrndup("hello", 30, &pool).unwrap().as_bytes(), b"hello");
    assert_eq!(pstrndup("he\0llo", 1, &pool).err().unwrap().nul_position(), 2);
}

#[test]
fn test_callback_handle_baton() {
    let base = 41;
    let callback = move |x: i32| base + x;
    let handle = CallbackHandle::new(callback);
    assert_eq!((handle.baton())(1), 42);
}

#[test]
fn test_callback_handle() {
    let mut counter = 0;
    let callback = move || {
        counter += 1;
        counter
    };

    let handle = CallbackHandle::new(callback);
    // The baton is a reference to the boxed closure: it is never null and
    // stays in one place.
    assert!(std::ptr::eq(handle.baton(), handle.baton()));
}
