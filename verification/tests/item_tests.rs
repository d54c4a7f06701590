use toto::item::{snippet_to_display, Item, VariableMap, LINE_SEPARATOR};

#[test]
fn item_valid() {
    let mut item = Item::new();
    assert!(!item.is_valid());
    item.comment = "test".into();
    assert!(!item.is_valid());
    item.snippet = "echo hi".into();
    assert!(item.is_valid());
}

#[test]
fn item_hash_stable() {
    let mut a = Item::new();
    a.tags = "git".into();
    a.comment = "checkout".into();
    a.snippet = "git checkout <b>".into();

    let mut b = a.clone();
    b.lang = Some("sh".into()); // lang doesn't affect hash
    assert_eq!(a.hash_key(), b.hash_key());
}

#[test]
fn variable_map_direct_lookup() {
    let mut vm = VariableMap::default();
    vm.insert_suggestion("git", "branch", ("git branch".into(), None));
    assert!(vm.get_suggestion("git", "branch").is_some());
    assert!(vm.get_suggestion("git", "remote").is_none());
    assert!(vm.get_suggestion("podman", "branch").is_none());
}

#[test]
fn variable_map_dependency_fallback() {
    let mut vm = VariableMap::default();
    vm.insert_suggestion("common", "host", ("echo localhost".into(), None));
    vm.insert_dependency("network", "common");

    // Direct lookup on "common" works.
    assert!(vm.get_suggestion("common", "host").is_some());
    // Fallback from "network" to "common" works.
    assert!(vm.get_suggestion("network", "host").is_some());
    // No fallback for unrelated tags.
    assert!(vm.get_suggestion("podman", "host").is_none());
}

#[test]
fn snippet_to_display_converts() {
    let s = format!("echo 1{}echo 2", LINE_SEPARATOR);
    assert_eq!(snippet_to_display(&s), "echo 1\necho 2");
}

#[test]
fn variable_map_other_variable_unaffected() {
    let mut vm = VariableMap::default();
    vm.insert_suggestion("git", "branch", ("git branch".into(), None));
    vm.insert_suggestion("git", "remote", ("git remote".into(), None));
    assert_eq!(vm.get_suggestion("git", "branch").map(|s| s.0.clone()), Some("git branch".to_string()));
}

#[test]
fn variable_map_own_suggestion_wins() {
    let mut vm = VariableMap::default();
    vm.insert_suggestion("common", "host", ("echo common".into(), None));
    vm.insert_suggestion("network", "host", ("echo own".into(), None));
    vm.insert_dependency("network", "common");
    assert_eq!(vm.get_suggestion("network", "host").map(|s| s.0.clone()), Some("echo own".to_string()));
}

#[test]
fn variable_map_merge_prefers_merged_in() {
    let mut a = VariableMap::default();
    a.insert_suggestion("t", "v", ("old".into(), None));
    let mut b = VariableMap::default();
    b.insert_suggestion("t", "v", ("new".into(), None));
    b.insert_dependency("u", "t");
    a.merge(b);
    assert_eq!(a.get_suggestion("t", "v").map(|s| s.0.clone()), Some("new".to_string()));
    assert_eq!(a.get_suggestion("u", "v").map(|s| s.0.clone()), Some("new".to_string()));
}
