use liveui::string_store::{markdown_key, StorageLayer, StringStore, StringStoreError};

fn lookup(store: &StringStore, key: &str) -> Option<String> {
    store.get_all().get(key).cloned()
}

#[test]
fn set_then_listed() {
    let mut s = StringStore::new();
    assert!(matches!(s.set("title", "Hello"), Ok(StorageLayer::Json)));
    assert_eq!(lookup(&s, "title").as_deref(), Some("Hello"));
    assert!(matches!(s.set("title", "Bye"), Ok(StorageLayer::Json)));
    assert_eq!(lookup(&s, "title").as_deref(), Some("Bye"));
    assert_eq!(s.get_all().len(), 1);
}

#[test]
fn multiline_values_go_to_markdown() {
    let mut s = StringStore::new();
    assert!(matches!(s.set("notes", "line one\nline two"), Ok(StorageLayer::Markdown)));
    // a trailing newline alone does not make a value multiline
    assert!(matches!(s.set("short", "one line\n  \n"), Ok(StorageLayer::Json)));
}

#[test]
fn computed_keys_are_readonly() {
    let mut s = StringStore::new();
    assert!(matches!(s.set("$captureMode", "x"), Err(StringStoreError::ComputedReadonly)));
    assert!(matches!(s.delete("$captureMode"), Err(StringStoreError::ComputedReadonly)));
}

#[test]
fn invalid_keys_are_refused() {
    let mut s = StringStore::new();
    assert!(matches!(s.set("", "x"), Err(StringStoreError::InvalidKey)));
    assert!(matches!(s.set("a b", "x"), Err(StringStoreError::InvalidKey)));
    assert!(matches!(s.set("ünï", "x"), Err(StringStoreError::InvalidKey)));
    assert!(matches!(s.delete("../etc"), Err(StringStoreError::InvalidKey)));
    assert!(s.set("ok-Key_9", "x").is_ok());
}

#[test]
fn delete_removes_user_string() {
    let mut s = StringStore::new();
    s.set("k", "v").unwrap();
    assert!(s.delete("k").is_ok());
    assert_eq!(lookup(&s, "k"), None);
    assert!(s.delete("k").is_ok());
}

#[test]
fn computed_strings_override_and_clear() {
    let mut s = StringStore::new();
    s.set_computed("$liveMode", "code".into());
    assert_eq!(lookup(&s, "$liveMode").as_deref(), Some("code"));
    s.set_computed("$liveMode", "game".into());
    assert_eq!(lookup(&s, "$liveMode").as_deref(), Some("game"));
    s.clear_computed("$liveMode");
    assert_eq!(lookup(&s, "$liveMode"), None);
}

#[test]
fn reload_layers_markdown_over_json() {
    let mut s = StringStore::new();
    s.set("stale", "gone after reload").unwrap();
    s.set_computed("$timestamp", "now".into());
    s.reload(
        vec![("a".into(), "from json".into()), ("b".into(), "json b".into())],
        vec![
            ("a.md".into(), "from markdown".into()),
            ("bad key.md".into(), "ignored".into()),
            ("readme.txt".into(), "ignored".into()),
        ],
    );
    assert_eq!(lookup(&s, "a").as_deref(), Some("from markdown"));
    assert_eq!(lookup(&s, "b").as_deref(), Some("json b"));
    assert_eq!(lookup(&s, "stale"), None);
    assert_eq!(lookup(&s, "$timestamp").as_deref(), Some("now"));
    assert_eq!(s.get_all().len(), 3);
}

#[test]
fn markdown_key_of_file_names() {
    assert_eq!(markdown_key("notes.md").as_deref(), Some("notes"));
    assert_eq!(markdown_key("my-key_2.md").as_deref(), Some("my-key_2"));
    assert_eq!(markdown_key(".md"), None);
    assert_eq!(markdown_key("a b.md"), None);
    assert_eq!(markdown_key("notes.txt"), None);
}
