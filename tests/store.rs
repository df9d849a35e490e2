use ngx::sync::RwLock;
use ngx::store::{copy_bytes, SharedStore, SharedZone};

#[test]
fn zone_too_small_for_the_store() {
    let mut zone = SharedZone::new(8);
    assert!(zone.init().is_err());
    assert!(!zone.is_built());
}

#[test]
fn shared_region_end_to_end() {
    let mut zone = SharedZone::new(64 * 1024);
    assert_eq!(zone.init(), Ok(true));
    assert_eq!(zone.init(), Ok(false));
    assert!(zone.is_built());
    {
        let store = zone.store();
        store.insert(b"alpha".to_vec(), b"1".to_vec()).unwrap();
        store.insert(b"beta".to_vec(), b"2".to_vec()).unwrap();
    }
    // A second view of the same region: the zone's initializer runs again
    // and finds the store already built.
    assert_eq!(zone.init(), Ok(false));
    let view = zone.store();
    assert_eq!(view.get(b"alpha"), Some(b"1".to_vec()));
    assert_eq!(view.remove(b"alpha"), Some(b"1".to_vec()));
    assert_eq!(view.get(b"alpha"), None);
    assert_eq!(view.get(b"beta"), Some(b"2".to_vec()));
    view.clear();
    assert!(view.is_empty());
}

#[test]
fn store_insert_fails_when_region_is_full() {
    assert!(SharedStore::try_new(0).is_err());
    let mut s = SharedStore::try_new(32).unwrap();
    assert!(s.insert(b"k".to_vec(), b"v".to_vec()).is_err());
    assert!(s.is_empty());
    assert_eq!(s.get(b"k"), None);
}

#[test]
fn copies_and_lock_wrapping() {
    assert_eq!(copy_bytes(b"abc"), b"abc".to_vec());
    let mut l = RwLock::new(5);
    assert!(l.try_lock_shared());
    assert_eq!(*l.data(), 5);
}
