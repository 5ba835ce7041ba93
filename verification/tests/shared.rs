use pastebin_server::bounded::Entry;
use pastebin_server::ident::format_id;
use pastebin_server::keyed::LookupError;
use pastebin_server::shared::SharedClipboard;
use pastebin_server::shared::SharedKeyedStore;

#[test]
fn shared_adds_then_snapshot() {
    let cap: usize = 4;
    let m: usize = 7;
    let s = SharedClipboard::new(cap);
    let submitted: Vec<String> = (0..m).map(|i| format!("req{}", i)).collect();
    for d in &submitted {
        s.add(Entry::new(d.clone()));
    }
    let got: Vec<String> = s.snapshot().into_iter().map(|e| e.data).collect();
    assert_eq!(got.len(), m.min(cap));
    for d in &got {
        assert!(submitted.contains(d));
    }
    for i in 0..got.len() {
        for j in 0..i {
            assert_ne!(got[i], got[j]);
        }
    }
}

#[test]
fn shared_snapshot_never_exceeds_capacity() {
    let s = SharedClipboard::new(2);
    for i in 0..5usize {
        s.add(Entry::new(format!("e{}", i)));
    }
    let got: Vec<String> = s.snapshot().into_iter().map(|e| e.data).collect();
    assert_eq!(got, vec!["e3".to_string(), "e4".to_string()]);
}

#[test]
fn shared_keyed_add_and_fetch() {
    let s = SharedKeyedStore::new();
    let id = s.add("shared".to_string());
    let found = match s.fetch(&format_id(id)) {
        Ok(e) => e,
        Err(_) => panic!("fetch of an issued identifier failed"),
    };
    assert_eq!(found.id, id);
    assert_eq!(found.data, "shared".to_string());
    assert!(matches!(s.fetch(b"no such id"), Err(LookupError::BadRequest)));
}
