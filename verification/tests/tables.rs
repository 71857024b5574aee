use apr::tables::{Array, StringTable, Table, TypedArray};
use apr::Pool;

#[test]
fn test_array_basic() {
    let pool = Pool::new();
    let mut array = Array::new(&pool, 10, std::mem::size_of::<i32>() as i32);
    assert!(array.is_empty());
    let value1 = 42i32;
    let value2 = 84i32;
    array.push_raw(&value1.to_ne_bytes());
    array.push_raw(&value2.to_ne_bytes());
    assert_eq!(array.len(), 2);
    let v1 = i32::from_ne_bytes(array.get_raw(0).try_into().unwrap());
    let v2 = i32::from_ne_bytes(array.get_raw(1).try_into().unwrap());
    assert_eq!(v1, 42);
    assert_eq!(v2, 84);
}

#[test]
fn test_typed_array() {
    let pool = Pool::new();
    let mut array = TypedArray::<i32>::new(&pool, 10);
    assert!(array.is_empty());
    array.push(42);
    array.push(84);
    array.push(126);
    assert_eq!(array.len(), 3);
    assert_eq!(array.get(0), Some(42));
    assert_eq!(array.get(1), Some(84));
    assert_eq!(array.get(2), Some(126));
    assert_eq!(array.get(3), None);
    let mut values = Vec::new();
    let mut it = array.iter();
    while let Some(v) = it.next() {
        values.push(v);
    }
    assert_eq!(values, vec![42, 84, 126]);
}

#[test]
fn test_table_basic() {
    let pool = Pool::new();
    let mut table = Table::new(&pool, 10);
    assert!(table.is_empty());
    table.set("key1", "value1");
    table.set("key2", "value2");
    assert_eq!(table.len(), 2);
    assert_eq!(table.get("key1"), Some("value1"));
}

#[test]
fn test_string_table() {
    let pool = Pool::new();
    let mut table = StringTable::new(&pool, 10);
    assert!(table.is_empty());
    table.set("key1", "value1");
    table.set("key2", "value2");
    assert_eq!(table.len(), 2);
    assert_eq!(table.get("key1"), Some("value1"));
    assert_eq!(table.get("key2"), Some("value2"));
    assert_eq!(table.get("key3"), None);
    table.add("key1", "another_value1");
    assert!(table.len() > 2);
    table.unset("key1");
    assert_eq!(table.get("key1"), None);
}

#[test]
fn test_typed_array_from_iter() {
    let pool = Pool::new();
    let data = vec![1, 2, 3, 4, 5];
    let array = TypedArray::<i32>::from_iter(&pool, data.clone());
    assert_eq!(array.len(), 5);
    for (i, &val) in data.iter().enumerate() {
        assert_eq!(array.get(i), Some(val));
    }
}

#[test]
fn test_typed_array_extend() {
    let pool = Pool::new();
    let mut array = TypedArray::<i32>::new(&pool, 10);
    array.push(1);
    array.push(2);
    assert_eq!(array.len(), 2);
    array.extend(vec![3, 4, 5]);
    assert_eq!(array.len(), 5);
    assert_eq!(array.get(0), Some(1));
    assert_eq!(array.get(4), Some(5));
}

#[test]
fn test_string_table_from_iter() {
    let pool = Pool::new();
    let data = vec![("key1", "value1"), ("key2", "value2"), ("key3", "value3")];
    let table = StringTable::from_iter(&pool, data);
    assert_eq!(table.len(), 3);
    assert_eq!(table.get("key1"), Some("value1"));
    assert_eq!(table.get("key2"), Some("value2"));
    assert_eq!(table.get("key3"), Some("value3"));
}

#[test]
fn test_string_table_extend() {
    let pool = Pool::new();
    let mut table = StringTable::new(&pool, 10);
    table.set("a", "1");
    assert_eq!(table.len(), 1);
    table.extend(vec![("b", "2"), ("c", "3")]);
    assert_eq!(table.len(), 3);
    assert_eq!(table.get("a"), Some("1"));
    assert_eq!(table.get("b"), Some("2"));
    assert_eq!(table.get("c"), Some("3"));
    table.extend_owned(vec![
        ("d".to_string(), "4".to_string()),
        ("e".to_string(), "5".to_string()),
    ]);
    assert_eq!(table.len(), 5);
}

#[test]
fn table_keys_ignore_ascii_case() {
    let pool = Pool::new();
    let mut table = StringTable::new(&pool, 4);
    table.add("Content-Type", "a");
    table.add("content-type", "b");
    table.add("X", "c");
    assert_eq!(table.get("CONTENT-TYPE"), Some("a"));
    table.set("CONTENT-type", "z");
    assert_eq!(table.len(), 2);
    let mut it = table.iter();
    assert_eq!(it.next(), Some(("Content-Type", "z")));
    assert_eq!(it.next(), Some(("X", "c")));
    assert_eq!(it.next(), None);
    table.unset("x");
    assert_eq!(table.len(), 1);
    table.clear();
    assert!(table.is_empty());
}

#[test]
fn test_string_table_walk_keeps_duplicates() {
    let pool = Pool::new();
    let mut t = StringTable::new(&pool, 4);
    t.set("a", "1");
    t.set("b", "x");
    t.add("a", "2");
    let mut seen: Vec<(String, String)> = Vec::new();
    let mut it = t.iter();
    while let Some((k, v)) = it.next() {
        seen.push((k.to_string(), v.to_string()));
    }
    assert_eq!(
        seen,
        vec![
            ("a".to_string(), "1".to_string()),
            ("b".to_string(), "x".to_string()),
            ("a".to_string(), "2".to_string())
        ]
    );
    assert_eq!(seen.len(), t.len());
}
