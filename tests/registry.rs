use aide::SridRegistry;

#[test]
fn resolve_default_alias() {
    let reg = SridRegistry::with_defaults();
    let v = reg.resolve("0xDA12").expect("alias missing");
    assert!(v.starts_with("SHARD_12."));
}

#[test]
fn default_descriptor_is_exact() {
    let reg = SridRegistry::with_defaults();
    assert_eq!(
        reg.resolve("0xDA12").as_deref(),
        Some("SHARD_12.DA_PLANE.ROCKBASE.VN.v1")
    );
    assert_eq!(reg.resolve("0xda12"), None);
}

#[test]
fn new_registry_resolves_nothing() {
    let reg = SridRegistry::new();
    assert_eq!(reg.resolve("0xDA12"), None);
    assert_eq!(reg.resolve(""), None);
}

#[test]
fn insert_replaces_existing_descriptor_and_keeps_others() {
    let mut reg = SridRegistry::new();
    reg.insert(String::from("a"), String::from("one"));
    reg.insert(String::from("b"), String::from("two"));
    reg.insert(String::from("a"), String::from("three"));
    assert_eq!(reg.resolve("a").as_deref(), Some("three"));
    assert_eq!(reg.resolve("b").as_deref(), Some("two"));
    assert_eq!(reg.resolve("c"), None);
}
