use apr::versions::{apr_version_string, apu_version_string, APR_MAJOR_VERSION};

#[test]
fn test_apu_version_string() {
    apu_version_string();
}

#[test]
fn test_apr_version_string() {
    apr_version_string();
}

#[test]
fn test_version_strings_text() {
    assert_eq!(apr_version_string(), "1.7.4");
    assert_eq!(apu_version_string(), "1.6.3");
    assert!(apr_version_string().starts_with(&APR_MAJOR_VERSION.to_string()));
}
