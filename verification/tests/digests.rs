use apr::md5::{md5, md5_encode, Md5Context};
use apr::sha1::{sha1, sha1_base64, sha1_encode, Sha1Context};
use apr::Pool;

#[test]
fn test_md5_empty() {
    let pool = Pool::new();
    let _digest = md5(b"", &pool).unwrap();
    let hex = md5_encode(b"", &pool).unwrap();
    assert_eq!(hex, "d41d8cd98f00b204e9800998ecf8427e");
}

#[test]
fn test_md5_hello_world() {
    let pool = Pool::new();
    let _digest = md5(b"Hello, World!", &pool).unwrap();
    let hex = md5_encode(b"Hello, World!", &pool).unwrap();
    assert_eq!(hex, "65a8e27d8879283831b664bd8b7f0ad4");
}

#[test]
fn test_md5_incremental() {
    let pool = Pool::new();
    let mut ctx = Md5Context::new(&pool).unwrap();
    ctx.update(b"Hello, ").unwrap();
    ctx.update(b"World!").unwrap();
    let digest = ctx.finalize();
    let expected = md5(b"Hello, World!", &pool).unwrap();
    assert_eq!(digest, expected);
}

#[test]
fn test_sha1_empty() {
    let pool = Pool::new();
    let hex = sha1_encode(b"", &pool);
    assert_eq!(hex, "da39a3ee5e6b4b0d3255bfef95601890afd80709");
}

#[test]
fn test_sha1_hello_world() {
    let pool = Pool::new();
    let hex = sha1_encode(b"Hello, World!", &pool);
    assert_eq!(hex, "0a0a9f2a6772942557ab5355d76af442f8f65e01");
}

#[test]
fn test_sha1_incremental() {
    let pool = Pool::new();
    let mut ctx = Sha1Context::new(&pool);
    ctx.update_binary(b"Hello, ");
    ctx.update_binary(b"World!");
    let digest = ctx.finalize();
    let expected = sha1(b"Hello, World!", &pool);
    assert_eq!(digest, expected);
}

#[test]
fn test_sha1_the_quick_brown_fox() {
    let pool = Pool::new();
    let hex = sha1_encode(b"The quick brown fox jumps over the lazy dog", &pool);
    assert_eq!(hex, "2fd4e1c67a2d28fced849ee1bb76e7391b93eb12");
}

#[test]
fn sha1_base64_of_empty() {
    let pool = Pool::new();
    assert_eq!(sha1_base64(b"", &pool), "2jmj7l5rSw0yVb/vlWAYkK/YBwk=");
}

#[test]
fn pool_less_digests() {
    assert_eq!(apr::md5::hash_hex(b"").unwrap(), "d41d8cd98f00b204e9800998ecf8427e");
    assert_eq!(apr::sha1::hash_hex(b""), "da39a3ee5e6b4b0d3255bfef95601890afd80709");
    assert_eq!(apr::md5::hash(b"abc").unwrap()[0], 0x90);
    assert_eq!(apr::sha1::hash(b"abc")[0], 0xa9);
}

#[test]
fn test_md5_password_encoding() {
    let encoded = apr::md5::md5_encode_password("password", "12345678").unwrap();
    // Apache MD5 passwords start with $apr1$
    assert!(encoded.starts_with("$apr1$"));
}

#[test]
fn test_md5_password_known_values() {
    use_encode_cases();
}

fn use_encode_cases() {
    let enc = apr::md5::md5_encode_password;
    assert_eq!(enc("password", "12345678").unwrap(), "$apr1$12345678$9pHAGSBYtlmFtid2xxNog0");
    assert_eq!(enc("", "abc").unwrap(), "$apr1$abc$BfqKdn9xFDWJPa3kcp/PH0");
    // The salt stops at eight bytes and at a '$'; a leading "$apr1$" is skipped.
    assert_eq!(enc("pa$$w0rd", "longsaltvalue").unwrap(), "$apr1$longsalt$tQVBT0tpVbDhkTY16gRgv0");
    assert_eq!(enc("x", "ab$cd").unwrap(), "$apr1$ab$eIePjsejfBGR8ITtu2z0U1");
    assert_eq!(enc("x", "$apr1$ab$eIePjsejfBGR8ITtu2z0U1").unwrap(), "$apr1$ab$eIePjsejfBGR8ITtu2z0U1");
    assert_eq!(enc("a\0b", "salt").unwrap_err().status(), apr::Status::General);
}
