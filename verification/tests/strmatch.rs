use apr::strmatch::{contains, find, find_all, StrMatch};
use apr::Pool;

#[test]
fn test_strmatch_find() {
    let pool = Pool::new();
    if let Ok(pattern) = StrMatch::new("world", &pool) {
        let result1 = pattern.find("hello world");
        let result2 = pattern.find("world hello world");
        let result3 = pattern.find("hello");
        println!("Pattern 'world' in 'hello world': {:?}", result1);
        println!("Pattern 'world' in 'world hello world': {:?}", result2);
        println!("Pattern 'world' in 'hello': {:?}", result3);
    }
}

#[test]
fn test_strmatch_case_sensitive() {
    let pool = Pool::new();
    if let Ok(pattern) = StrMatch::new("World", &pool) {
        let _result1 = pattern.find("hello World");
        let _result2 = pattern.find("hello world");
    }
}

#[test]
fn test_strmatch_case_insensitive() {
    let pool = Pool::new();
    if let Ok(pattern) = StrMatch::new_case_insensitive("World", &pool) {
        let _result1 = pattern.find("hello World");
        let _result2 = pattern.find("hello world");
        let _result3 = pattern.find("hello WORLD");
    }
}

#[test]
fn test_strmatch_contains() {
    let _result1 = contains("fox", "The quick brown fox", true);
    let _result2 = contains("fox", "The quick brown dog", true);
    let pool = Pool::new();
    if let Ok(pattern) = StrMatch::new("fox", &pool) {
        let _result1 = pattern.contains("The quick brown fox");
        let _result2 = pattern.contains("The quick brown dog");
    }
}

#[test]
fn test_find_all() {
    let pool = Pool::new();
    if let Ok(pattern) = StrMatch::new("ab", &pool) {
        let _matches1 = find_all(&pattern, "abcabcab");
        let _matches2 = find_all(&pattern, "xyz");
    }
}

#[test]
fn test_strmatch_empty_pattern() {
    let pool = Pool::new();
    if let Ok(pattern) = StrMatch::new("", &pool) {
        let _result = pattern.find("hello");
    }
}

#[test]
fn test_strmatch_long_pattern() {
    let pool = Pool::new();
    let long_pattern = "The quick brown fox jumps over the lazy dog";
    if let Ok(pattern) = StrMatch::new(long_pattern, &pool) {
        let text = format!("Some prefix {} and some suffix", long_pattern);
        let _result = pattern.find(&text);
    }
}

#[test]
fn strmatch_exact_positions() {
    let pool = Pool::new();
    let p = StrMatch::new("world", &pool).unwrap();
    assert_eq!(p.find("hello world"), Some(6));
    assert_eq!(p.find("world hello world"), Some(0));
    assert_eq!(p.find("hello"), None);
    assert_eq!(p.find("world\0"), None);
    let ci = StrMatch::new_case_insensitive("World", &pool).unwrap();
    assert_eq!(ci.find("hello WORLD"), Some(6));
    assert_eq!(find("World", "hello world", true), None);
    assert_eq!(find("", "hello", true), Some(0));
    let ab = StrMatch::new("ab", &pool).unwrap();
    assert_eq!(find_all(&ab, "abcabcab"), vec![0, 3, 6]);
    assert_eq!(find_all(&ab, "xyz"), Vec::<usize>::new());
    let aa = StrMatch::new("aa", &pool).unwrap();
    assert_eq!(find_all(&aa, "aaaa"), vec![0, 1, 2]);
}

#[test]
fn test_find_all_after_multibyte_start() {
    let pool = Pool::new();
    let m = StrMatch::new("é", &pool).unwrap();
    // "é" is two bytes; the search resumes inside it and still finds both.
    assert_eq!(find_all(&m, "éaé"), vec![0, 3]);
    let ee = StrMatch::new("éé", &pool).unwrap();
    assert_eq!(find_all(&ee, "ééé"), vec![0, 2]);
}
