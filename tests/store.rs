use krill::aggregate::{parse_digits, LogTail};
use krill::paths::{decimal_string, key_file_name, StoreKey};
use krill::storage::{MemoryStorage, Storage};
use krill::store::{DiskKeyStore, Event, KeyStoreError, KeyStoreVersion, StoredCommand};

fn event(handle: &str, version: u64, text: &str) -> Event {
    Event { handle: handle.to_string(), version, payload: text.as_bytes().to_vec() }
}

fn new_store() -> (MemoryStorage, DiskKeyStore) {
    (MemoryStorage::new(), DiskKeyStore::new(&"work".to_string(), "cas"))
}

#[test]
fn fresh_root_version() {
    let (mut fs, store) = new_store();
    assert!(matches!(store.get_version(&fs), Err(KeyStoreError::NotInitialised)));
    fs.create_dir(&"work/cas".to_string());
    assert_eq!(store.get_version(&fs).unwrap(), KeyStoreVersion::Pre0_6);
    store.set_version(&mut fs, &KeyStoreVersion::V0_6).unwrap();
    assert_eq!(store.get_version(&fs).unwrap(), KeyStoreVersion::V0_6);
    assert_eq!(fs.read(&store.version_path()).unwrap(), b"\"V0_6\"".to_vec());
    store.set_version(&mut fs, &KeyStoreVersion::Pre0_6).unwrap();
    assert_eq!(store.get_version(&fs).unwrap(), KeyStoreVersion::Pre0_6);
}

#[test]
fn unreadable_version_is_an_error() {
    let (mut fs, store) = new_store();
    fs.write(&"work/cas".to_string(), &"version".to_string(), &b"{corrupt".to_vec()).unwrap();
    assert!(matches!(store.get_version(&fs), Err(KeyStoreError::JsonError(_))));
    fs.write(&"work/cas".to_string(), &"version".to_string(), &b"\"V9\"".to_vec()).unwrap();
    assert!(matches!(store.get_version(&fs), Err(KeyStoreError::JsonError(_))));
}

#[test]
fn paths_and_keys() {
    let store = DiskKeyStore::new(&"work".to_string(), "cas");
    let id = "ca-1".to_string();
    assert_eq!(store.version_path(), "work/cas/version");
    assert_eq!(store.dir_for_aggregate(&id), "work/cas/ca-1");
    assert_eq!(store.path_for_event(&id, 12), "work/cas/ca-1/delta-12.json");
    assert_eq!(store.file_path(&id, &DiskKeyStore::key_for_command(3)), "work/cas/ca-1/command-3.json");
    assert_eq!(key_file_name(&DiskKeyStore::key_for_info()), "info.json");
    assert_eq!(key_file_name(&DiskKeyStore::key_for_snapshot()), "snapshot.json");
    assert_eq!(key_file_name(&DiskKeyStore::key_for_event(0)), "delta-0.json");
    assert_eq!(decimal_string(0), "0");
    assert_eq!(decimal_string(907), "907");
    assert_eq!(decimal_string(u64::MAX), "18446744073709551615");
}

#[test]
fn build_and_replay() {
    let (mut fs, store) = new_store();
    let id = "ca-1".to_string();
    store.store_event(&mut fs, &event("ca-1", 0, "init")).unwrap();
    store.store_event(&mut fs, &event("ca-1", 1, "e1")).unwrap();
    store.store_event(&mut fs, &event("ca-1", 2, "e2")).unwrap();
    let tail: LogTail = store.get_aggregate(&fs, &id).unwrap().unwrap();
    assert_eq!(tail, LogTail { next: 3 });
    match store.store_event(&mut fs, &event("ca-1", 1, "other")) {
        Err(KeyStoreError::KeyExists(key)) => assert_eq!(key, "delta-1.json"),
        other => panic!("unexpected {:?}", other.is_ok()),
    }
    assert_eq!(store.get_event(&fs, &id, 1).unwrap().unwrap(), b"e1".to_vec());
    assert!(store.get_event(&fs, &id, 3).unwrap().is_none());
    // replaying twice gives the same
    let again: LogTail = store.get_aggregate(&fs, &id).unwrap().unwrap();
    assert_eq!(again, tail);
}

#[test]
fn corrupt_snapshot_falls_back_to_events() {
    let (mut fs, store) = new_store();
    let id = "ca-1".to_string();
    for v in 0..3u64 {
        store.store_event(&mut fs, &event("ca-1", v, "e")).unwrap();
    }
    store.store(&mut fs, &id, &StoreKey::Snapshot, &b"{corrupt".to_vec()).unwrap();
    let tail: LogTail = store.get_aggregate(&fs, &id).unwrap().unwrap();
    assert_eq!(tail.next, 3);
    store.store_snapshot(&mut fs, &id, &tail).unwrap();
    assert_eq!(store.get(&fs, &id, &StoreKey::Snapshot).unwrap().unwrap(), b"3".to_vec());
    let tail2: LogTail = store.get_aggregate(&fs, &id).unwrap().unwrap();
    assert_eq!(tail2, tail);
}

#[test]
fn snapshot_is_the_base_of_replay() {
    let (mut fs, store) = new_store();
    let id = "ca-3".to_string();
    for v in 0..4u64 {
        store.store_event(&mut fs, &event("ca-3", v, "e")).unwrap();
    }
    // a snapshot that says the log was read up to version 2
    store.store_snapshot(&mut fs, &id, &LogTail { next: 2 }).unwrap();
    let tail: LogTail = store.get_aggregate(&fs, &id).unwrap().unwrap();
    assert_eq!(tail.next, 4);
    // a snapshot only, with no events after it
    let id = "ca-4".to_string();
    store.store_snapshot(&mut fs, &id, &LogTail { next: 7 }).unwrap();
    let tail: LogTail = store.get_aggregate(&fs, &id).unwrap().unwrap();
    assert_eq!(tail.next, 7);
}

#[test]
fn absent_aggregate_loads_nothing() {
    let (fs, store) = new_store();
    let loaded: Option<LogTail> = store.get_aggregate(&fs, &"none".to_string()).unwrap();
    assert!(loaded.is_none());
}

#[test]
fn update_continues_from_version() {
    let (mut fs, store) = new_store();
    let id = "ca-2".to_string();
    for v in 0..5u64 {
        store.store_event(&mut fs, &event("ca-2", v, "e")).unwrap();
    }
    let mut tail = LogTail { next: 3 };
    store.update_aggregate(&fs, &id, &mut tail).unwrap();
    assert_eq!(tail.next, 5);
}

#[test]
fn drop_and_get() {
    let (mut fs, store) = new_store();
    let id = "ca-1".to_string();
    assert!(!store.has_aggregate(&fs, &id));
    store.store(&mut fs, &id, &StoreKey::Info, &b"{}".to_vec()).unwrap();
    assert!(store.has_aggregate(&fs, &id));
    assert_eq!(store.get(&fs, &id, &StoreKey::Info).unwrap().unwrap(), b"{}".to_vec());
    store.drop(&mut fs, &id, &StoreKey::Info).unwrap();
    assert!(store.get(&fs, &id, &StoreKey::Info).unwrap().is_none());
    match store.drop(&mut fs, &id, &StoreKey::Info) {
        Err(KeyStoreError::KeyUnknown(k)) => assert_eq!(k, "info.json"),
        _ => panic!("expected KeyUnknown"),
    }
}

#[test]
fn commands_are_write_once() {
    let (mut fs, store) = new_store();
    let cmd = StoredCommand { handle: "ca-1".to_string(), sequence: 1, payload: b"c1".to_vec() };
    store.store_command(&mut fs, &cmd).unwrap();
    let again = StoredCommand { handle: "ca-1".to_string(), sequence: 1, payload: b"c2".to_vec() };
    assert!(matches!(store.store_command(&mut fs, &again), Err(KeyStoreError::KeyExists(_))));
    let id = "ca-1".to_string();
    assert_eq!(store.get(&fs, &id, &StoreKey::Command(1)).unwrap().unwrap(), b"c1".to_vec());
}

#[test]
fn aggregates_listed_once() {
    let (mut fs, store) = new_store();
    store.store_event(&mut fs, &event("a", 0, "e")).unwrap();
    store.store_event(&mut fs, &event("b", 0, "e")).unwrap();
    store.store_event(&mut fs, &event("a", 1, "e")).unwrap();
    let mut ids = store.aggregates(&fs);
    ids.sort();
    assert_eq!(ids, vec!["a".to_string(), "b".to_string()]);
}

#[test]
fn keys_sorted_as_strings() {
    let (mut fs, store) = new_store();
    let id = "ca-1".to_string();
    for v in [0u64, 2, 10, 1] {
        store.store_event(&mut fs, &event("ca-1", v, "e")).unwrap();
    }
    store.store(&mut fs, &id, &StoreKey::Info, &b"{}".to_vec()).unwrap();
    store.store(&mut fs, &id, &StoreKey::Info, &b"{ }".to_vec()).unwrap();
    let keys = store.keys_ascending_matching(&fs, &id, "delta-");
    assert_eq!(keys, vec!["delta-0.json", "delta-1.json", "delta-10.json", "delta-2.json"]);
    let all = store.keys_ascending_matching(&fs, &id, ".json");
    assert_eq!(all.len(), 5);
    assert_eq!(all[4], "info.json");
    store.drop(&mut fs, &id, &StoreKey::Event(10)).unwrap();
    let keys = store.keys_ascending_matching(&fs, &id, "delta-1");
    assert_eq!(keys, vec!["delta-1.json"]);
    assert!(store.keys_ascending_matching(&fs, &"other".to_string(), "delta").is_empty());
}

#[test]
fn digits_parse() {
    assert_eq!(parse_digits(&b"0".to_vec()), Some(0));
    assert_eq!(parse_digits(&b"1234".to_vec()), Some(1234));
    assert_eq!(parse_digits(&b"18446744073709551615".to_vec()), Some(u64::MAX));
    assert_eq!(parse_digits(&b"18446744073709551616".to_vec()), None);
    assert_eq!(parse_digits(&b"".to_vec()), None);
    assert_eq!(parse_digits(&b"12a".to_vec()), None);
    assert_eq!(parse_digits(&b"{corrupt".to_vec()), None);
}

#[test]
fn nested_dirs_are_not_aggregates() {
    let (mut fs, store) = new_store();
    store.store_event(&mut fs, &event("a", 0, "e")).unwrap();
    fs.create_dir(&"work/cas/a/deeper".to_string());
    fs.write(&"work/cas/a/deeper".to_string(), &"x.json".to_string(), &b"1".to_vec()).unwrap();
    assert_eq!(store.aggregates(&fs), vec!["a".to_string()]);
    assert_eq!(store.keys_ascending_matching(&fs, &"a".to_string(), ".json"), vec!["delta-0.json"]);
}
