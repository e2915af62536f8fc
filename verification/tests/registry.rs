use quest_packet::registry::{Item, Registry};

#[test]
fn new_registry_is_empty() {
    let registry = Registry::new();
    assert_eq!(registry.len(), 0);
    assert!(registry.lookup("google-item").is_none());
}

#[test]
fn register_item_then_lookup() {
    let mut registry = Registry::new();
    registry.register_item("google-item", "https://google.com", "Visit Google", "webpage");
    assert_eq!(registry.len(), 1);
    let item = registry.lookup("google-item").expect("the item was registered");
    assert_eq!(item.id, "google-item");
    assert_eq!(item.url, "https://google.com");
    assert_eq!(item.label, "Visit Google");
    assert_eq!(item.kind, "webpage");
}

#[test]
fn lookup_of_an_unknown_id_finds_nothing() {
    let mut registry = Registry::new();
    registry.register_item("google-item", "https://google.com", "Visit Google", "webpage");
    assert!(registry.lookup("google").is_none());
    assert!(registry.lookup("google-item ").is_none());
    assert!(registry.lookup("").is_none());
}

#[test]
fn register_item_replaces_an_item_with_the_same_id() {
    let mut registry = Registry::new();
    registry.register_item("a", "https://a.example", "A", "webpage");
    registry.register_item("b", "https://b.example", "B", "video");
    registry.register_item("a", "https://a2.example", "A2", "article");
    assert_eq!(registry.len(), 2);
    assert_eq!(
        registry.lookup("a"),
        Some(&Item::new("a", "https://a2.example", "A2", "article"))
    );
    assert_eq!(registry.lookup("b"), Some(&Item::new("b", "https://b.example", "B", "video")));
}

#[test]
fn register_item_stores_a_malformed_url_as_it_is() {
    let mut registry = Registry::new();
    registry.register_item("odd", "not a url at all", "", "");
    let item = registry.lookup("odd").expect("the item was registered");
    assert_eq!(item.url, "not a url at all");
    assert_eq!(item.label, "");
    assert_eq!(item.kind, "");
}

#[test]
fn item_clone_is_equal_to_the_item() {
    let item = Item::new("a", "https://a.example", "A", "webpage");
    assert_eq!(item.clone(), item);
}
