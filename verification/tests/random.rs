use apr::pool::Pool;
use apr::random::{
    generate_insecure_bytes, generate_range, generate_secure_bytes, generate_u32, generate_u64,
    reject_sample, u32_from_le, Random,
};

#[test]
fn test_random_creation() {
    let pool = Pool::new();
    let random = Random::new(&pool);
    assert!(random.is_ok());
}

#[test]
fn test_add_entropy() {
    let pool = Pool::new();
    let mut random = Random::new(&pool).unwrap();

    let entropy = b"some entropy data for testing";
    random.add_entropy(entropy).unwrap();
}

#[test]
fn test_insecure_bytes() {
    let pool = Pool::new();
    let mut random = Random::new(&pool).unwrap();

    let mut buf = [0u8; 16];
    random.insecure_bytes(&mut buf).unwrap();

    // Very unlikely all bytes are zero
    let all_zero = buf.iter().all(|&x| x == 0);
    assert!(!all_zero, "Random bytes should not be all zero");
}

#[test]
fn test_secure_bytes() {
    let pool = Pool::new();
    let mut random = Random::new(&pool).unwrap();

    // Add some entropy first
    let entropy = std::time::SystemTime::now()
        .duration_since(std::time::UNIX_EPOCH)
        .unwrap()
        .as_nanos()
        .to_le_bytes();
    random.add_entropy(&entropy).unwrap();

    let mut buf = [0u8; 16];

    // Try secure bytes - might not be ready, so fallback to insecure
    if random.secure_ready().unwrap_or(false) {
        random.secure_bytes(&mut buf).unwrap();
    } else {
        random.insecure_bytes(&mut buf).unwrap();
    }

    // Verify we got some random data
    let all_zero = buf.iter().all(|&x| x == 0);
    assert!(!all_zero, "Random bytes should not be all zero");
}

#[test]
fn test_generate_secure_bytes() {
    let pool = Pool::new();
    let mut buf = [0u8; 32];

    generate_secure_bytes(&mut buf, &pool).unwrap();

    // Should not be all zeros
    let all_zero = buf.iter().all(|&x| x == 0);
    assert!(!all_zero);

    // Generate again - should be different
    let mut buf2 = [0u8; 32];
    generate_secure_bytes(&mut buf2, &pool).unwrap();
    assert_ne!(buf, buf2, "Two random generations should be different");
}

#[test]
fn test_generate_insecure_bytes() {
    let pool = Pool::new();
    let mut buf = [0u8; 16];

    generate_insecure_bytes(&mut buf, &pool).unwrap();

    // Should not be all zeros
    let all_zero = buf.iter().all(|&x| x == 0);
    assert!(!all_zero);
}

#[test]
fn test_generate_u32() {
    let pool = Pool::new();

    let val1 = generate_u32(&pool).unwrap();
    let val2 = generate_u32(&pool).unwrap();

    // Very unlikely to be the same
    assert_ne!(val1, val2);
}

#[test]
fn test_generate_u64() {
    let pool = Pool::new();

    let val1 = generate_u64(&pool).unwrap();
    let val2 = generate_u64(&pool).unwrap();

    // Very unlikely to be the same
    assert_ne!(val1, val2);
}

#[test]
fn test_generate_range() {
    let pool = Pool::new();

    // Test edge cases
    assert_eq!(generate_range(0, &pool).unwrap(), 0);
    assert_eq!(generate_range(1, &pool).unwrap(), 0);

    // Test normal range
    for _ in 0..10 {
        let val = generate_range(100, &pool).unwrap();
        assert!(val < 100);
    }

    // Test larger range
    let val = generate_range(1000, &pool).unwrap();
    assert!(val < 1000);
}

#[test]
fn test_random_distribution() {
    let pool = Pool::new();

    // Generate many values in small range and check distribution
    let mut counts = [0; 4];
    for _ in 0..1000 {
        let val = generate_range(4, &pool).unwrap() as usize;
        counts[val] += 1;
    }

    // Each bucket should have roughly 250 values (within reason)
    for count in counts.iter() {
        assert!(*count > 150 && *count < 350, "Distribution seems biased: {:?}", counts);
    }
}

#[test]
fn test_barrier() {
    let pool = Pool::new();
    let mut random = Random::new(&pool).unwrap();

    // Add entropy and call barrier
    let entropy = b"test entropy";
    random.add_entropy(entropy).unwrap();
    random.barrier().unwrap();

    // Should work without error
}

#[test]
fn test_rejection_and_byte_order() {
    // With a bound of 3 the limit is u32::MAX - 0 = 4294967295: only the
    // largest value is rejected.
    assert_eq!(reject_sample(3, 7), Some(1));
    assert_eq!(reject_sample(3, u32::MAX), None);
    assert_eq!(reject_sample(10, u32::MAX - 5), None);
    assert_eq!(reject_sample(10, 4294967289), Some(9));
    assert_eq!(u32_from_le([1, 2, 3, 4]), 0x04030201);
}
