use ash::history::{contains_key, History};
use ash::teleport::{Host, Label, Metadata, Spec};
use std::path::PathBuf;

fn host(key: &str, hostname: &str) -> Host {
    Host {
        kind: "node".to_string(),
        version: "v2".to_string(),
        metadata: Metadata {
            name: key.to_string(),
            labels: vec![Label { key: "env".to_string(), value: hostname.to_string() }],
            expires: String::new(),
            id: 0,
        },
        spec: Spec {
            addr: String::new(),
            hostname: hostname.to_string(),
            use_tunnel: None,
            version: String::new(),
            public_addr: None,
        },
    }
}

fn keys(history: &History) -> Vec<String> {
    history.entries.iter().map(|h| h.key().to_string()).collect()
}

fn history_of(entries: Vec<Host>) -> History {
    History { entries, path: PathBuf::from("/tmp/history") }
}

#[test]
fn new_history_is_empty_and_keeps_its_path() {
    let h = History::new(PathBuf::from("/home/u/.config/ash/history"));
    assert!(h.entries.is_empty());
    assert_eq!(h.path, PathBuf::from("/home/u/.config/ash/history"));
}

#[test]
fn update_puts_the_host_first() {
    let h = history_of(vec![host("a", "alpha"), host("b", "beta")]);
    let h = h.update(&host("c", "gamma"));
    assert_eq!(keys(&h), vec!["c", "a", "b"]);
    assert_eq!(h.path, PathBuf::from("/tmp/history"));
}

#[test]
fn update_moves_a_known_host_to_the_front() {
    let h = history_of(vec![host("a", "alpha"), host("b", "beta"), host("c", "gamma")]);
    let h = h.update(&host("c", "gamma"));
    assert_eq!(keys(&h), vec!["c", "a", "b"]);
}

#[test]
fn update_twice_with_one_key_leaves_one_entry_with_the_later_data() {
    let h = history_of(vec![host("a", "alpha"), host("b", "beta")]);
    let h = h.update(&host("k", "first")).update(&host("k", "second"));
    assert_eq!(keys(&h), vec!["k", "a", "b"]);
    assert_eq!(h.entries[0].name(), "second");
    assert_eq!(h.entries.iter().filter(|e| e.key() == "k").count(), 1);
}

#[test]
fn update_removes_every_earlier_entry_with_the_key() {
    let h = history_of(vec![host("a", "one"), host("b", "beta"), host("a", "two")]);
    let h = h.update(&host("a", "three"));
    assert_eq!(keys(&h), vec!["a", "b"]);
    assert_eq!(h.entries[0].name(), "three");
}

#[test]
fn update_of_an_empty_history_holds_the_host_alone() {
    let h = History::new(PathBuf::from("p")).update(&host("h2", "beta"));
    assert_eq!(keys(&h), vec!["h2"]);
}

#[test]
fn intersect_drops_unknown_keys_and_keeps_the_order() {
    let h = history_of(vec![host("d", "delta"), host("a", "alpha"), host("x", "gone"), host("c", "gamma")]);
    let inventory = vec![host("a", "alpha"), host("b", "beta"), host("c", "gamma"), host("d", "delta")];
    let h = h.intersect(&inventory);
    assert_eq!(keys(&h), vec!["d", "a", "c"]);
    assert_eq!(h.path, PathBuf::from("/tmp/history"));
}

#[test]
fn intersect_with_an_empty_inventory_leaves_nothing() {
    let h = history_of(vec![host("a", "alpha"), host("b", "beta")]);
    let h = h.intersect(&Vec::new());
    assert!(h.entries.is_empty());
}

#[test]
fn intersect_goes_by_key_not_by_the_other_fields() {
    let h = history_of(vec![host("a", "old name")]);
    let h = h.intersect(&vec![host("a", "new name")]);
    assert_eq!(keys(&h), vec!["a"]);
    assert_eq!(h.entries[0].name(), "old name");
}

#[test]
fn contains_key_finds_keys_only() {
    let inventory = vec![host("a", "alpha"), host("b", "beta")];
    assert!(contains_key(&inventory, "a"));
    assert!(contains_key(&inventory, "b"));
    assert!(!contains_key(&inventory, "alpha"));
    assert!(!contains_key(&inventory, ""));
    assert!(!contains_key(&Vec::new(), "a"));
}
