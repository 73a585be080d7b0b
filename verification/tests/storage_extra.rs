use redis_server::set::{KeyExpiry, SetArgs};
use redis_server::storage::{Storage, StorageData};
use std::time::{SystemTime, UNIX_EPOCH};
use redis_server::storage_result::StorageError;

const T0: u128 = 1_700_000_000_000_000_000;

fn px(millis: u64) -> SetArgs {
    SetArgs { expiry: Some(KeyExpiry::PX(millis)), existence: None, get: false }
}

#[test]
fn expiry_lengths() {
    assert_eq!(KeyExpiry::EX(2).as_nanos(), 2_000_000_000);
    assert_eq!(KeyExpiry::PX(3).as_nanos(), 3_000_000);
    assert_eq!(KeyExpiry::EX(u64::MAX).as_nanos(), u64::MAX as u128 * 1_000_000_000);
}

#[test]
fn read_after_write_before_deadline() {
    let mut storage = Storage::new();
    storage.set_at(String::from("k"), String::from("v"), px(100), T0).unwrap();
    let got = storage.get_at(String::from("k"), T0 + 99_999_999).unwrap();
    assert_eq!(got, Some(String::from("v")));
    assert_eq!(storage.store.len(), 1);
    assert_eq!(storage.expiry.get(&String::from("k")), Some(&(T0 + 100_000_000)));
}

#[test]
fn read_after_write_at_deadline() {
    let mut storage = Storage::new();
    storage.set_at(String::from("k"), String::from("v"), px(100), T0).unwrap();
    let got = storage.get_at(String::from("k"), T0 + 100_000_000).unwrap();
    assert_eq!(got, None);
    assert_eq!(storage.store.len(), 0);
    assert_eq!(storage.expiry.len(), 0);
}

#[test]
fn later_write_wins() {
    let mut storage = Storage::new();
    storage.set_at(String::from("k"), String::from("one"), SetArgs::new(), T0).unwrap();
    storage.set_at(String::from("k"), String::from("two"), SetArgs::new(), T0 + 1).unwrap();
    assert_eq!(storage.get_at(String::from("k"), T0 + 2).unwrap(), Some(String::from("two")));
    assert_eq!(storage.store.len(), 1);
}

#[test]
fn write_without_lifetime_keeps_old_deadline() {
    let mut storage = Storage::new();
    storage.set_at(String::from("k"), String::from("one"), px(10), T0).unwrap();
    storage.set_at(String::from("k"), String::from("two"), SetArgs::new(), T0 + 1).unwrap();
    assert_eq!(storage.expiry.get(&String::from("k")), Some(&(T0 + 10_000_000)));
    assert_eq!(storage.get_at(String::from("k"), T0 + 10_000_000).unwrap(), None);
}

#[test]
fn expire_removes_exactly_the_expired_keys() {
    let mut storage = Storage::new();
    storage.set_at(String::from("a"), String::from("1"), px(1), T0).unwrap();
    storage.set_at(String::from("b"), String::from("2"), px(5), T0).unwrap();
    storage.set_at(String::from("c"), String::from("3"), SetArgs::new(), T0).unwrap();
    storage.expire_keys_at(T0 + 1_000_000);
    assert_eq!(storage.store.len(), 2);
    assert!(!storage.store.contains_key(&String::from("a")));
    assert!(storage.store.contains_key(&String::from("b")));
    assert!(storage.store.contains_key(&String::from("c")));
    assert_eq!(storage.expiry.len(), 1);
    // A second pass at the same instant removes nothing more.
    storage.expire_keys_at(T0 + 1_000_000);
    assert_eq!(storage.store.len(), 2);
    assert_eq!(storage.expiry.len(), 1);
}

#[test]
fn expire_does_nothing_when_inactive() {
    let mut storage = Storage::new();
    storage.set_active_expiry(false);
    storage.set_at(String::from("a"), String::from("1"), px(1), T0).unwrap();
    storage.expire_keys_at(T0 + 5_000_000);
    assert_eq!(storage.store.len(), 1);
    assert_eq!(storage.expiry.len(), 1);
}

#[test]
fn get_of_missing_key_changes_nothing() {
    let mut storage = Storage::new();
    storage.set_at(String::from("a"), String::from("1"), SetArgs::new(), T0).unwrap();
    assert_eq!(storage.get_at(String::from("b"), T0).unwrap(), None);
    assert_eq!(storage.store.len(), 1);
}

#[test]
fn storage_error_message() {
    let e = StorageError::CommandSyntaxError(String::from("SET k"));
    assert_eq!(e.to_string(), "Syntax error in command: SET k");
}

#[test]
fn writes_are_stamped_with_the_clock() {
    let before = redis_server::storage::CLOCK_EPOCH_NANOS + SystemTime::now().duration_since(UNIX_EPOCH).unwrap().as_nanos();
    let data = StorageData::from(String::from("v"));
    let mut storage = Storage::new();
    storage.set(String::from("k"), String::from("v"), px(100)).unwrap();
    let after = redis_server::storage::CLOCK_EPOCH_NANOS + SystemTime::now().duration_since(UNIX_EPOCH).unwrap().as_nanos();
    assert!(before <= data.creation_time && data.creation_time <= after);
    let deadline = *storage.expiry.get(&String::from("k")).unwrap();
    assert!(before + 100_000_000 <= deadline && deadline <= after + 100_000_000);
}
