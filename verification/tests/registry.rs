use rustneedle::registry::Registry;

#[test]
fn a_new_registry_holds_nothing() {
    let registry: Registry<u8> = Registry::new();
    assert_eq!(registry.len(), 0);
    assert_eq!(registry.names(), Vec::<String>::new());
    assert!(!registry.contains(""));
    assert_eq!(registry.get("x"), None);
}

#[test]
fn a_name_is_taken_once() {
    let mut registry = Registry::new();
    assert_eq!(registry.insert("list", 1), Ok(()));
    assert_eq!(registry.insert("ping", 2), Ok(()));
    assert_eq!(registry.insert("list", 3), Err(3));
    assert_eq!(registry.len(), 2);
    assert_eq!(registry.get("list"), Some(&1));
    assert_eq!(registry.get("ping"), Some(&2));
    assert_eq!(registry.get("lis"), None);
    assert_eq!(registry.get("List"), None);
}

#[test]
fn the_empty_name_is_a_name() {
    let mut registry = Registry::new();
    assert_eq!(registry.insert("", 'a'), Ok(()));
    assert_eq!(registry.insert("", 'b'), Err('b'));
    assert!(registry.contains(""));
    assert_eq!(registry.get(""), Some(&'a'));
}

#[test]
fn names_keep_the_order_in_which_they_were_taken() {
    let mut registry = Registry::new();
    for (place, name) in ["exit", "", "kill", "modules", "help"].iter().enumerate() {
        assert_eq!(registry.insert(name, place), Ok(()));
    }
    assert_eq!(registry.names(), vec!["exit", "", "kill", "modules", "help"]);
}

#[test]
fn what_is_removed_frees_its_name() {
    let mut registry = Registry::new();
    registry.insert("a", 1).unwrap();
    registry.insert("b", 2).unwrap();
    registry.insert("c", 3).unwrap();
    assert_eq!(registry.remove("b"), Some(2));
    assert_eq!(registry.remove("b"), None);
    assert_eq!(registry.names(), vec!["a", "c"]);
    assert_eq!(registry.get("c"), Some(&3));
    assert_eq!(registry.insert("b", 4), Ok(()));
    assert_eq!(registry.names(), vec!["a", "c", "b"]);
    assert_eq!(registry.remove("x"), None);
    assert_eq!(registry.len(), 3);
}

#[test]
fn names_are_compared_character_by_character() {
    let mut registry = Registry::new();
    registry.insert("é", 1).unwrap();
    assert_eq!(registry.insert("e\u{301}", 2), Ok(()));
    assert_eq!(registry.insert("é", 3), Err(3));
    assert_eq!(registry.len(), 2);
}
