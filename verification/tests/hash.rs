use apr::hash::{hash_default, TypedHash};
use apr::Pool;

#[test]
fn test_hash_basic_operations() {
    let pool = Pool::new();
    let mut hash: apr::hash::Hash<i32> = apr::hash::Hash::new(&pool);
    assert!(hash.is_empty());
    assert_eq!(hash.len(), 0);
    hash.insert(b"key1", 42);
    hash.insert(b"key2", 84);
    assert_eq!(hash.len(), 2);
    assert!(!hash.is_empty());
    assert_eq!(*hash.get(b"key1").unwrap(), 42);
    assert_eq!(*hash.get(b"key2").unwrap(), 84);
    hash.remove(b"key1");
    assert_eq!(hash.len(), 1);
    assert!(hash.get(b"key1").is_none());
}

#[test]
fn test_typed_hash() {
    let pool = Pool::new();
    let mut hash = TypedHash::<String>::new(&pool);
    let value1 = "hello".to_string();
    let value2 = "world".to_string();
    hash.insert_ref("key1", &value1);
    hash.insert_ref("key2", &value2);
    assert_eq!(hash.len(), 2);
    assert_eq!(hash.get_ref("key1"), Some(&value1));
    assert_eq!(hash.get_ref("key2"), Some(&value2));
    assert_eq!(hash.get_ref("key3"), None);
    let mut items = Vec::new();
    let mut it = hash.iter();
    while let Some(e) = it.next() {
        items.push(e);
    }
    assert_eq!(items.len(), 2);
}

#[test]
fn test_hash_iteration() {
    let pool = Pool::new();
    let mut hash: apr::hash::Hash<i32> = apr::hash::Hash::new(&pool);
    hash.insert(b"a", 1);
    hash.insert(b"b", 2);
    let mut items = Vec::new();
    let mut it = hash.iter();
    while let Some(e) = it.next() {
        items.push(e);
    }
    assert_eq!(items.len(), 2);
    for (key, val) in items {
        if key == b"a" {
            assert_eq!(*val, 1);
        } else if key == b"b" {
            assert_eq!(*val, 2);
        } else {
            panic!("Unexpected key");
        }
    }
}

#[test]
fn test_hash_clear() {
    let pool = Pool::new();
    let mut hash = TypedHash::<i32>::new(&pool);
    let value = 42;
    hash.insert_ref("key", &value);
    assert_eq!(hash.len(), 1);
    hash.clear();
    assert_eq!(hash.len(), 0);
    assert!(hash.is_empty());
}

#[test]
fn test_hash_default_function() {
    assert_eq!(hash_default(b"foo"), hash_default(b"foo"));
    assert_ne!(hash_default(b"foo"), hash_default(b"bar"));
}

#[test]
fn test_hash_with_empty_keys() {
    let pool = Pool::new();
    let mut hash = TypedHash::<i32>::new(&pool);
    let val1 = 42;
    let val2 = 84;
    hash.insert_bytes_ref(b"", &val1);
    hash.insert_ref("non-empty", &val2);
    assert_eq!(hash.len(), 2);
    assert_eq!(hash.get_bytes_ref(b""), Some(&val1));
    assert_eq!(hash.get_ref("non-empty"), Some(&val2));
}

#[test]
fn test_hash_large_keys() {
    let pool = Pool::new();
    let mut hash = TypedHash::<String>::new(&pool);
    let large_key = vec![b'x'; 10000];
    let value = "large".to_string();
    hash.insert_bytes_ref(&large_key, &value);
    assert_eq!(hash.get_bytes_ref(&large_key), Some(&value));
}

#[test]
fn test_typed_hash_from_iter() {
    let pool = Pool::new();
    let v1 = "value1".to_string();
    let v2 = "value2".to_string();
    let v3 = "value3".to_string();
    let hash = TypedHash::from_iter(&pool, &[("key1", &v1), ("key2", &v2), ("key3", &v3)]);
    assert_eq!(hash.len(), 3);
    assert_eq!(hash.get_ref("key1"), Some(&v1));
    assert_eq!(hash.get_ref("key2"), Some(&v2));
    assert_eq!(hash.get_ref("key3"), Some(&v3));
}

#[test]
fn hash_default_exact() {
    assert_eq!(hash_default(b""), 0);
    assert_eq!(hash_default(b"a"), 97);
    assert_eq!(hash_default(b"ab"), 97 * 33 + 98);
}

#[test]
fn hash_insert_replaces() {
    let pool = Pool::new();
    let mut hash: apr::hash::Hash<&str> = apr::hash::Hash::new(&pool);
    hash.insert(b"k", "one");
    hash.insert(b"k", "two");
    assert_eq!(hash.len(), 1);
    assert_eq!(hash.get(b"k"), Some(&"two"));
}

#[test]
fn test_typed_hash_extend() {
    let pool = Pool::new();
    let val1 = "v1".to_string();
    let val2 = "v2".to_string();
    let val3 = "v3".to_string();
    let mut hash = TypedHash::<String>::new(&pool);
    hash.insert_ref("a", &val1);
    assert_eq!(hash.len(), 1);
    assert_eq!(hash.get_ref("a"), Some(&val1));
    hash.extend_bytes(&[(b"b".as_slice(), &val2)]);
    assert_eq!(hash.len(), 2);
    assert_eq!(hash.get_bytes_ref(b"b"), Some(&val2));
    hash.extend(&[("c", &val3)]);
    assert_eq!(hash.len(), 3);
    assert_eq!(hash.get_ref("c"), Some(&val3));
}

#[test]
fn test_typed_hash_walk_matches_lookup() {
    let pool = Pool::new();
    let mut hash = TypedHash::<i32>::new(&pool);
    let (a, b, c) = (1, 2, 3);
    hash.insert_ref("x", &a);
    hash.insert_ref("y", &b);
    hash.insert_ref("x", &c);
    let mut keys: Vec<Vec<u8>> = Vec::new();
    let mut it = hash.iter();
    while let Some((k, v)) = it.next() {
        assert_eq!(hash.get_bytes_ref(k), Some(v));
        assert!(!keys.contains(&k.to_vec()));
        keys.push(k.to_vec());
    }
    assert_eq!(keys.len(), hash.len());
    assert_eq!(keys.len(), 2);
    assert!(it.next().is_none());
}
