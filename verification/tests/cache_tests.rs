use moesif_wasm::update_manager::UpdateManager;

#[test]
fn freshly_stored_tag_is_not_stale() {
    let mut cache: UpdateManager<i32> = UpdateManager::new(0);
    cache.update_at("t1".to_string(), 1, 100);
    assert!(!cache.is_updated("t1"));
}

#[test]
fn unknown_tag_is_stale() {
    let mut cache: UpdateManager<i32> = UpdateManager::new(0);
    cache.update_at("t1".to_string(), 1, 100);
    assert!(cache.is_updated("t9"));
}

#[test]
fn previous_tag_stays_fresh_for_one_generation() {
    let mut cache: UpdateManager<i32> = UpdateManager::new(0);
    cache.update_at("t1".to_string(), 1, 100);
    cache.update_at("t2".to_string(), 2, 200);
    assert!(!cache.is_updated("t2"));
    assert!(!cache.is_updated("t1"));
    assert!(cache.is_updated("t0"));
    // a second rotation pushes the oldest tag out of the grace window
    cache.update_at("t3".to_string(), 3, 300);
    assert!(cache.is_updated("t1"));
    assert!(!cache.is_updated("t2"));
    assert!(!cache.is_updated("t3"));
}

#[test]
fn expiry_is_measured_from_last_update() {
    let mut cache: UpdateManager<i32> = UpdateManager::new(0);
    cache.update_at("t1".to_string(), 1, 200);
    assert!(!cache.is_expired_at(50, 250));
    assert!(cache.is_expired_at(50, 251));
    assert!(!cache.is_expired_at(i64::MAX, 251));
}

#[test]
fn stored_data_is_returned() {
    let mut cache: UpdateManager<&str> = UpdateManager::new("empty");
    assert_eq!(*cache.get_data(), "empty");
    cache.update_at("t1".to_string(), "loaded", 1);
    assert_eq!(*cache.get_data(), "loaded");
}
