use pastebin_server::ident::format_id;
use pastebin_server::keyed::KeyedStore;
use pastebin_server::keyed::LookupError;

#[test]
fn added_is_retrievable_with_exact_data() {
    let mut s = KeyedStore::new();
    let mut issued: Vec<(u128, String)> = Vec::new();
    for i in 0..100usize {
        let data = format!("data{}", i);
        let id = s.add(data.clone());
        issued.push((id, data));
    }
    for (id, data) in &issued {
        assert_eq!(s.get(*id), Some(data));
    }
}

#[test]
fn keyed_scenario() {
    let mut s = KeyedStore::new();
    let k = s.add("x".to_string());
    assert_eq!(s.get(k), Some(&"x".to_string()));
    let found = match s.fetch(&format_id(k)) {
        Ok(e) => e,
        Err(_) => panic!("fetch of an issued identifier failed"),
    };
    assert_eq!(found.id, k);
    assert_eq!(found.data, "x".to_string());
    let mut unused: u128 = k.wrapping_add(1);
    while s.contains(unused) {
        unused = unused.wrapping_add(1);
    }
    assert!(matches!(s.fetch(&format_id(unused)), Err(LookupError::NotFound)));
}

#[test]
fn unused_id_not_found_and_malformed_bad_request() {
    let mut s = KeyedStore::new();
    let k = s.add("something".to_string());
    let mut unused: u128 = 12345;
    while s.contains(unused) {
        unused = unused.wrapping_add(1);
    }
    assert!(matches!(s.fetch(&format_id(unused)), Err(LookupError::NotFound)));
    assert!(matches!(s.fetch(b"not-an-id"), Err(LookupError::BadRequest)));
    assert!(matches!(s.fetch(b""), Err(LookupError::BadRequest)));
    // one byte short
    assert!(matches!(s.fetch(b"01234567-89ab-cdef-0011-22334455667"), Err(LookupError::BadRequest)));
    // one byte long
    assert!(
        matches!(s.fetch(b"01234567-89ab-cdef-0011-2233445566778"), Err(LookupError::BadRequest))
    );
    // hyphen out of place
    assert!(matches!(s.fetch(b"0123456789-ab-cdef-0011-223344556677"), Err(LookupError::BadRequest)));
    // uppercase digits are not canonical
    assert!(matches!(s.fetch(b"01234567-89AB-CDEF-0011-223344556677"), Err(LookupError::BadRequest)));
    // not a hexadecimal digit
    assert!(matches!(s.fetch(b"0123456g-89ab-cdef-0011-223344556677"), Err(LookupError::BadRequest)));
    // a well-formed issued identifier still works
    assert!(s.fetch(&format_id(k)).is_ok());
}

#[test]
fn duplicate_data_gets_distinct_identifiers() {
    let mut s = KeyedStore::new();
    let a = s.add("same".to_string());
    let b = s.add("same".to_string());
    assert_ne!(a, b);
    assert_eq!(s.get(a), Some(&"same".to_string()));
    assert_eq!(s.get(b), Some(&"same".to_string()));
}

#[test]
fn ten_thousand_identifiers_pairwise_distinct() {
    let mut s = KeyedStore::new();
    let mut seen = std::collections::HashSet::new();
    for _ in 0..10_000usize {
        let id = s.add(String::new());
        assert!(seen.insert(id));
    }
    assert_eq!(s.len(), 10_000);
}
