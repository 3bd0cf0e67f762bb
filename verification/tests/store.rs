use hybrid_phi::store::PhiMemoryStore;

#[test]
fn test_store_keeps_base_path() {
    let store = PhiMemoryStore::new(String::from(".phi_test_store"));
    assert_eq!(store.base_path(), ".phi_test_store");
}
