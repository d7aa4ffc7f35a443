use chatproject::registry::Registry;
use chatproject::registry::RegistryError;

#[test]
fn register_starts_with_the_id_as_name() {
    let mut reg = Registry::new();
    assert!(reg.register("a1").is_ok());
    let s = reg.find_by_connection("a1").unwrap();
    assert_eq!(s.connection_id, "a1");
    assert_eq!(s.display_name, "a1");
}

#[test]
fn duplicate_registration_fails_without_mutation() {
    let mut reg = Registry::new();
    assert!(reg.register("a1").is_ok());
    assert_eq!(reg.register("a1"), Err(RegistryError::DuplicateConnection));
    assert_eq!(reg.len(), 1);
}

#[test]
fn lookups_are_exact_matches() {
    let mut reg = Registry::new();
    reg.register("a1").unwrap();
    reg.register("b2").unwrap();
    reg.set_name("b2", "bob");
    assert!(reg.find_by_connection("a").is_none());
    assert!(reg.find_by_connection("b2").is_some());
    let s = reg.find_by_name("bob").unwrap();
    assert_eq!(s.connection_id, "b2");
    assert!(reg.find_by_name("Bob").is_none());
}

#[test]
fn remove_is_idempotent() {
    let mut reg = Registry::new();
    reg.register("a1").unwrap();
    reg.register("b2").unwrap();
    reg.remove("a1");
    assert_eq!(reg.len(), 1);
    reg.remove("a1");
    assert_eq!(reg.len(), 1);
    assert!(reg.find_by_connection("a1").is_none());
    assert!(reg.find_by_connection("b2").is_some());
}

#[test]
fn display_names_keep_insertion_order() {
    let mut reg = Registry::new();
    reg.register("c3").unwrap();
    reg.register("a1").unwrap();
    reg.register("b2").unwrap();
    reg.set_name("a1", "alice");
    let names = reg.all_display_names();
    assert_eq!(names, vec!["c3".to_string(), "alice".to_string(), "b2".to_string()]);
}

#[test]
fn name_taken_ignores_the_sender_itself() {
    let mut reg = Registry::new();
    reg.register("a1").unwrap();
    reg.register("b2").unwrap();
    reg.set_name("a1", "alice");
    assert!(reg.name_taken("b2", "alice"));
    assert!(!reg.name_taken("a1", "alice"));
    assert!(!reg.name_taken("b2", "carol"));
}
