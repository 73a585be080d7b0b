use redis_server::set::{KeyExpiry, SetArgs};
use redis_server::storage::{Storage, StorageData, CLOCK_EPOCH_NANOS};
use redis_server::table::KeyTable;
use std::time::{Duration, SystemTime, UNIX_EPOCH};

fn now_nanos() -> u128 {
    CLOCK_EPOCH_NANOS + SystemTime::now().duration_since(UNIX_EPOCH).unwrap().as_nanos()
}

#[test]
fn storage_test_create_new() {
    let storage: Storage = Storage::new();

    assert_eq!(storage.store.len(), 0);
    assert_eq!(storage.expiry.len(), 0);
    assert_eq!(storage.expiry, KeyTable::<u128>::new());
    assert!(storage.active_expiry);
}

#[test]
fn test_set_value() {
    let mut storage: Storage = Storage::new();
    let avalue = StorageData::from(String::from("avalue"));

    let output = storage
        .set(String::from("akey"), String::from("avalue"), SetArgs::new())
        .unwrap();

    assert_eq!(output, String::from("OK"));
    assert_eq!(storage.store.len(), 1);
    match storage.store.get(&String::from("akey")) {
        Some(value) => assert_eq!(value, &avalue),
        None => panic!(),
    }
}

#[test]
fn test_get_value() {
    let mut storage: Storage = Storage::new();
    storage.store.insert(
        String::from("akey"),
        StorageData::from(String::from("avalue")),
    );

    let result = storage.get(String::from("akey")).unwrap();

    assert_eq!(storage.store.len(), 1);
    assert_eq!(result, Some(String::from("avalue")));
}

#[test]
fn test_get_value_key_does_not_exist() {
    let mut storage: Storage = Storage::new();

    let result = storage.get(String::from("akey")).unwrap();

    assert_eq!(storage.store.len(), 0);
    assert_eq!(result, None);
}

#[test]
fn test_expire_keys() {
    let mut storage: Storage = Storage::new();

    storage
        .set(String::from("akey"), String::from("avalue"), SetArgs::new())
        .unwrap();

    storage.expiry.insert(
        String::from("akey"),
        now_nanos() - Duration::from_secs(5).as_nanos(),
    );

    storage.expire_keys();
    assert_eq!(storage.store.len(), 0);
}

#[test]
fn test_expire_keys_deactivated() {
    let mut storage: Storage = Storage::new();
    storage.set_active_expiry(false);

    storage
        .set(String::from("akey"), String::from("avalue"), SetArgs::new())
        .unwrap();

    storage.expiry.insert(
        String::from("akey"),
        now_nanos() - Duration::from_secs(5).as_nanos(),
    );

    storage.expire_keys();
    assert_eq!(storage.store.len(), 1);
}

#[test]
fn test_set_value_with_px() {
    let mut storage: Storage = Storage::new();
    let mut avalue = StorageData::from(String::from("avalue"));
    avalue.add_expiry(Duration::from_millis(100).as_nanos());

    let output = storage
        .set(
            String::from("akey"),
            String::from("avalue"),
            SetArgs {
                expiry: Some(KeyExpiry::PX(100)),
                existence: None,
                get: false,
            },
        )
        .unwrap();

    assert_eq!(output, String::from("OK"));
    assert_eq!(storage.store.len(), 1);
    match storage.store.get(&String::from("akey")) {
        Some(value) => assert_eq!(value, &avalue),
        None => panic!(),
    }

    storage.expiry.get(&String::from("akey")).unwrap();
}
