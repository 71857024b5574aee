use apr::crypto::{
    crypto_drivers, decrypt_aes256, encrypt_aes256, get_driver, init, BlockCipherAlgorithm,
    BlockCipherMode, Crypto,
};
use apr::pool::Pool;
use apr::status::Status;

fn hex(s: &str) -> Vec<u8> {
    (0..s.len())
        .step_by(2)
        .map(|i| u8::from_str_radix(&s[i..i + 2], 16).unwrap())
        .collect()
}

#[test]
fn test_crypto_init() {
    let pool = Pool::new();
    let _ = Crypto::init(&pool);
    assert!(init().is_ok());
}

#[test]
fn test_crypto_drivers() {
    let pool = Pool::new();
    let _ = Crypto::init(&pool);
    let drivers = crypto_drivers(&pool);
    println!("Available crypto drivers: {:?}", drivers);
    assert_eq!(drivers, vec!["openssl".to_string()]);
}

#[test]
fn test_encrypt_decrypt() {
    let pool = Pool::new();

    if Crypto::init(&pool).is_err() {
        return;
    }

    let driver = match get_driver("openssl", &pool)
        .or_else(|_| get_driver("nss", &pool))
        .or_else(|_| get_driver("commoncrypto", &pool))
    {
        Ok(d) => d,
        Err(_) => return,
    };

    let crypto = match driver.make_crypto(&pool) {
        Ok(c) => c,
        Err(_) => return,
    };

    let key_data = b"thisisasecretkey";
    let key = match crypto.make_key(
        BlockCipherAlgorithm::AES128,
        BlockCipherMode::CBC,
        key_data,
        &pool,
    ) {
        Ok(k) => k,
        Err(_) => return,
    };

    let plaintext = b"Hello, World! This is a test.";
    let iv = b"1234567890123456";

    let ciphertext = match crypto.encrypt(&key, plaintext, Some(iv), &pool) {
        Ok(c) => c,
        Err(_) => return,
    };

    assert!(!ciphertext.is_empty());
    assert_ne!(&ciphertext[..], plaintext);

    let decrypted = match crypto.decrypt(&key, &ciphertext, Some(iv), &pool) {
        Ok(p) => p,
        Err(_) => return,
    };

    assert_eq!(&decrypted[..], plaintext);
}

#[test]
fn test_aes128_cbc_known_answer() {
    // Key: PBKDF2-HMAC-SHA1("thisisasecretkey", no salt, 4096 rounds, 16 bytes).
    let pool = Pool::new();
    let crypto = get_driver("openssl", &pool).unwrap().make_crypto(&pool).unwrap();
    let key = crypto
        .make_key(BlockCipherAlgorithm::AES128, BlockCipherMode::CBC, b"thisisasecretkey", &pool)
        .unwrap();
    let c = crypto
        .encrypt(&key, b"Hello, World! This is a test.", Some(b"1234567890123456"), &pool)
        .unwrap();
    assert_eq!(
        c,
        hex("c9e8319987e7fa2f0a3e35f3644684cee612f36f52c2d5a5efcf561c4fe92834")
    );
}

#[test]
fn test_aes256_helpers_known_answer_and_roundtrip() {
    let iv = b"1234567890123456";
    let c = encrypt_aes256(b"thisisasecretkey", b"Hello, World! This is a test.", Some(iv)).unwrap();
    assert_eq!(
        c,
        hex("f87f34eed2978adfa99bd0f536166945cb550d1869c50597e301dc89e8ed40f0")
    );
    let p = decrypt_aes256(b"thisisasecretkey", &c, Some(iv)).unwrap();
    assert_eq!(p, b"Hello, World! This is a test.".to_vec());

    let empty = encrypt_aes256(b"thisisasecretkey", b"", Some(iv)).unwrap();
    assert_eq!(empty, hex("61b10404d28a9bcdbafa5fd20ef90503"));
    assert_eq!(decrypt_aes256(b"thisisasecretkey", &empty, Some(iv)).unwrap(), Vec::<u8>::new());
}

#[test]
fn test_aes256_ecb_and_des3() {
    let pool = Pool::new();
    let crypto = get_driver("openssl", &pool).unwrap().make_crypto(&pool).unwrap();
    let key = crypto
        .make_key(BlockCipherAlgorithm::AES256, BlockCipherMode::ECB, b"thisisasecretkey", &pool)
        .unwrap();
    // ECB takes no initialisation vector.
    let c = crypto.encrypt(&key, b"exactly sixteen!", None, &pool).unwrap();
    assert_eq!(
        c,
        hex("e79294c6d796f1a3d5ef611c6f75ef81193d5c2c93e905098b8b165a01af0dd8")
    );
    assert_eq!(crypto.decrypt(&key, &c, None, &pool).unwrap(), b"exactly sixteen!".to_vec());

    let key = crypto
        .make_key(BlockCipherAlgorithm::DES3, BlockCipherMode::CBC, b"password", &pool)
        .unwrap();
    let c = crypto.encrypt(&key, b"abc", Some(b"12345678"), &pool).unwrap();
    assert_eq!(c, hex("5636450360d8868a"));
    assert_eq!(crypto.decrypt(&key, &c, Some(b"12345678"), &pool).unwrap(), b"abc".to_vec());

    let key = crypto
        .make_key(BlockCipherAlgorithm::AES192, BlockCipherMode::ECB, b"password", &pool)
        .unwrap();
    let c = crypto.encrypt(&key, b"abc", None, &pool).unwrap();
    assert_eq!(c, hex("b15605c0f7ae8a7d42ff377806766274"));
}

#[test]
fn test_decrypt_errors() {
    let iv = b"1234567890123456";
    // No initialisation vector for CBC.
    assert_eq!(
        decrypt_aes256(b"k", &[0u8; 16], None).err().unwrap().status(),
        Status::General
    );
    // Not a whole number of blocks, or empty.
    assert!(decrypt_aes256(b"k", &[0u8; 15], Some(iv)).is_err());
    assert!(decrypt_aes256(b"k", &[], Some(iv)).is_err());
    // A wrong key leaves a wrong padding (with this data).
    let c = encrypt_aes256(b"right", b"Hello, World! This is a test.", Some(iv)).unwrap();
    let wrong = decrypt_aes256(b"wrong", &c, Some(iv));
    assert!(wrong.is_err() || wrong.unwrap() != b"Hello, World! This is a test.".to_vec());
}

#[test]
fn test_random_iv() {
    let a = encrypt_aes256(b"k", b"same text", None).unwrap();
    let b = encrypt_aes256(b"k", b"same text", None).unwrap();
    assert_eq!(a.len(), 16);
    assert_ne!(a, b);
}

#[test]
fn test_get_driver_names() {
    let pool = Pool::new();
    assert!(get_driver("openssl", &pool).is_ok());
    assert_eq!(
        get_driver("nss", &pool).err().unwrap().status(),
        Status::DSOOpen
    );
    assert!(get_driver("open\0ssl", &pool).is_err());
}

#[test]
fn test_cipher_codes() {
    assert_eq!(u32::from(BlockCipherMode::ECB), 1);
    assert_eq!(u32::from(BlockCipherMode::CBC), 2);
    assert_eq!(u32::from(BlockCipherAlgorithm::DES3), 1);
    assert_eq!(u32::from(BlockCipherAlgorithm::AES128), 2);
    assert_eq!(u32::from(BlockCipherAlgorithm::AES192), 3);
    assert_eq!(u32::from(BlockCipherAlgorithm::AES256), 4);
}

#[test]
fn test_ciphertext_lengths() {
    let iv = b"1234567890123456";
    for n in 0..40usize {
        let data = vec![7u8; n];
        let c = encrypt_aes256(b"k", &data, Some(iv)).unwrap();
        assert_eq!(c.len(), (n / 16 + 1) * 16);
        assert_eq!(decrypt_aes256(b"k", &c, Some(iv)).unwrap(), data);
    }
}
