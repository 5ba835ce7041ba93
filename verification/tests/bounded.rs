use pastebin_server::bounded::Clipboard;
use pastebin_server::bounded::Entry;
use pastebin_server::bounded::CLIPBOARD_SIZE;

fn datas(c: &Clipboard) -> Vec<String> {
    c.get_entries().into_iter().map(|e| e.data).collect()
}

fn add_text(c: &mut Clipboard, text: &str) {
    c.add(Entry::new(text.to_string()));
}

#[test]
fn capacity_two_evicts_oldest() {
    let mut c = Clipboard::new(2);
    add_text(&mut c, "a");
    add_text(&mut c, "b");
    add_text(&mut c, "c");
    assert_eq!(datas(&c), vec!["b".to_string(), "c".to_string()]);
}

#[test]
fn snapshot_is_last_min_n_c_entries() {
    let cap: usize = 3;
    for n in 0..8usize {
        let mut c = Clipboard::new(cap);
        for i in 0..n {
            add_text(&mut c, &format!("e{}", i));
        }
        let got = datas(&c);
        let keep = n.min(cap);
        assert_eq!(got.len(), keep);
        for (j, d) in got.iter().enumerate() {
            assert_eq!(d, &format!("e{}", n - keep + j));
        }
    }
}

#[test]
fn snapshot_idempotent() {
    let mut c = Clipboard::new(4);
    add_text(&mut c, "one");
    add_text(&mut c, "two");
    add_text(&mut c, "three");
    let first = datas(&c);
    let second = datas(&c);
    assert_eq!(first, second);
}

#[test]
fn many_adds_kept_completely() {
    let cap: usize = 5;
    let m: usize = 9;
    let mut c = Clipboard::new(cap);
    let submitted: Vec<String> = (0..m).map(|i| format!("task{}", i)).collect();
    for d in &submitted {
        c.add(Entry::new(d.clone()));
    }
    let got = datas(&c);
    assert_eq!(got.len(), m.min(cap));
    for d in &got {
        assert!(submitted.contains(d));
    }
    for i in 0..got.len() {
        for j in 0..i {
            assert_ne!(got[i], got[j]);
        }
    }
}

#[test]
fn capacity_zero_stays_empty() {
    let mut c = Clipboard::new(0);
    add_text(&mut c, "a");
    add_text(&mut c, "b");
    assert_eq!(c.len(), 0);
    assert!(c.get_entries().is_empty());
}

#[test]
fn snapshot_of_empty_store_is_empty() {
    let c = Clipboard::new(5);
    assert!(c.get_entries().is_empty());
}

#[test]
fn add_on_empty_appends_without_eviction() {
    let mut c = Clipboard::new(3);
    add_text(&mut c, "only");
    assert_eq!(datas(&c), vec!["only".to_string()]);
}

#[test]
fn default_store_holds_ten() {
    let mut c = Clipboard::default();
    assert_eq!(c.capacity(), CLIPBOARD_SIZE);
    assert_eq!(c.capacity(), 10);
    for i in 0..11usize {
        add_text(&mut c, &format!("e{}", i));
    }
    let got = datas(&c);
    assert_eq!(got.len(), 10);
    assert_eq!(got[0], "e1".to_string());
    assert_eq!(got[9], "e10".to_string());
}
