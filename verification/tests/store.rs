use std::collections::HashMap;

use totp_gen::store::{delete_key, get_key, new_key, KeyStore};
use totp_gen::Error;

fn parsed(bytes: &[u8]) -> HashMap<String, String> {
    serde_json::from_slice(bytes).expect("store bytes must be a JSON object of strings")
}

#[test]
fn insert_then_lookup_returns_lowercased_secret() {
    let mut st = KeyStore::new();
    assert_eq!(st.insert("github".to_string(), &"JBSWY3DPEHPK3PXP".to_string()), Ok(()));
    assert_eq!(st.lookup(&"github".to_string()), Some("jbswy3dpehpk3pxp".to_string()));
}

#[test]
fn insert_remove_lookup_returns_absent() {
    let mut st = KeyStore::new();
    assert_eq!(st.insert("github".to_string(), &"secret".to_string()), Ok(()));
    assert_eq!(st.remove(&"github".to_string()), Ok(()));
    assert_eq!(st.lookup(&"github".to_string()), None);
}

#[test]
fn duplicate_insert_fails_and_keeps_first_secret() {
    let mut st = KeyStore::new();
    assert_eq!(st.insert("github".to_string(), &"first".to_string()), Ok(()));
    assert_eq!(
        st.insert("github".to_string(), &"second".to_string()),
        Err(Error::ServiceAlreadyExists)
    );
    assert_eq!(st.lookup(&"github".to_string()), Some("first".to_string()));
}

#[test]
fn lookup_is_case_sensitive_and_exact() {
    let mut st = KeyStore::new();
    assert_eq!(st.insert("GitHub".to_string(), &"abc".to_string()), Ok(()));
    assert_eq!(st.lookup(&"github".to_string()), None);
    assert_eq!(st.lookup(&"GitHub".to_string()), Some("abc".to_string()));
}

#[test]
fn remove_unknown_reports_absence() {
    let mut st = KeyStore::new();
    assert_eq!(st.remove(&"nope".to_string()), Err(Error::ServiceNotFound));
}

#[test]
fn contains_tracks_registration() {
    let mut st = KeyStore::new();
    assert!(!st.contains(&"svc".to_string()));
    assert_eq!(st.insert("svc".to_string(), &"aa".to_string()), Ok(()));
    assert!(st.contains(&"svc".to_string()));
}

#[test]
fn empty_file_loads_as_empty_store() {
    let st = KeyStore::load(b"").unwrap();
    assert_eq!(st.lookup(&"anything".to_string()), None);
}

#[test]
fn empty_store_bootstrap_writes_exactly_one_entry() {
    let bytes = new_key(b"", "svc".to_string(), &"aaaaaaaaaaaaaaaa".to_string()).unwrap();
    let mut expected = HashMap::new();
    expected.insert("svc".to_string(), "aaaaaaaaaaaaaaaa".to_string());
    assert_eq!(parsed(&bytes), expected);
}

#[test]
fn new_key_then_get_key_round_trips_through_bytes() {
    let bytes = new_key(b"", "github".to_string(), &"JBSWY3DPEHPK3PXP".to_string()).unwrap();
    assert_eq!(
        get_key(&bytes, &"github".to_string()),
        Ok(Some("jbswy3dpehpk3pxp".to_string()))
    );
    assert_eq!(get_key(&bytes, &"gitlab".to_string()), Ok(None));
}

#[test]
fn new_key_keeps_other_entries() {
    let one = new_key(b"", "a".to_string(), &"aa".to_string()).unwrap();
    let two = new_key(&one, "b".to_string(), &"bb".to_string()).unwrap();
    let mut expected = HashMap::new();
    expected.insert("a".to_string(), "aa".to_string());
    expected.insert("b".to_string(), "bb".to_string());
    assert_eq!(parsed(&two), expected);
}

#[test]
fn new_key_duplicate_fails_without_new_bytes() {
    let bytes = new_key(b"", "svc".to_string(), &"s1".to_string()).unwrap();
    assert_eq!(
        new_key(&bytes, "svc".to_string(), &"s2".to_string()),
        Err(Error::ServiceAlreadyExists)
    );
    // The first registration is still what the bytes hold.
    assert_eq!(get_key(&bytes, &"svc".to_string()), Ok(Some("s1".to_string())));
}

#[test]
fn delete_key_removes_exactly_the_named_service() {
    let one = new_key(b"", "a".to_string(), &"aa".to_string()).unwrap();
    let two = new_key(&one, "b".to_string(), &"bb".to_string()).unwrap();
    let after = delete_key(&two, &"a".to_string()).unwrap();
    let mut expected = HashMap::new();
    expected.insert("b".to_string(), "bb".to_string());
    assert_eq!(parsed(&after), expected);
}

#[test]
fn delete_key_unknown_reports_absence() {
    let bytes = new_key(b"", "a".to_string(), &"aa".to_string()).unwrap();
    assert_eq!(
        delete_key(&bytes, &"b".to_string()),
        Err(Error::ServiceNotFound)
    );
    assert_eq!(delete_key(b"", &"a".to_string()), Err(Error::ServiceNotFound));
}

#[test]
fn corrupt_store_rejected_by_every_operation() {
    let bad = b"not json";
    assert_eq!(get_key(bad, &"svc".to_string()), Err(Error::StoreCorrupted));
    assert_eq!(
        new_key(bad, "svc".to_string(), &"aa".to_string()),
        Err(Error::StoreCorrupted)
    );
    assert_eq!(delete_key(bad, &"svc".to_string()), Err(Error::StoreCorrupted));
}

#[test]
fn non_string_values_are_corruption() {
    let bad = br#"{"svc": 5}"#;
    assert_eq!(get_key(bad, &"svc".to_string()), Err(Error::StoreCorrupted));
}
