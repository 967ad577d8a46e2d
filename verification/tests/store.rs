use signature_accumulator::store::{is_expired, PendingStore};

#[test]
fn expiry_is_strictly_past_the_age() {
    assert!(!is_expired(100, 100, 30));
    assert!(!is_expired(100, 130, 30));
    assert!(is_expired(100, 131, 30));
    assert!(!is_expired(100, 0, 30));
    assert!(!is_expired(u64::MAX, 0, 0));
    assert!(is_expired(0, u64::MAX, u64::MAX - 1));
    assert!(!is_expired(0, u64::MAX, u64::MAX));
}

#[test]
fn store_holds_one_entry_per_hash() {
    let mut store: PendingStore<u32> = PendingStore::new();
    assert!(store.is_empty());
    store.insert([1; 32], 10, 100);
    store.insert([2; 32], 20, 200);
    store.insert([1; 32], 11, 300);
    assert_eq!(store.len(), 2);
    assert!(!store.is_empty());
    assert!(store.contains_key(&[1; 32]));
    assert!(!store.contains_key(&[3; 32]));
    let entry = store.get(&[1; 32]).expect("held");
    assert_eq!((entry.value, entry.arrival), (11, 300));
    assert!(store.get(&[3; 32]).is_none());
}

#[test]
fn store_gives_back_what_it_removes() {
    let mut store: PendingStore<u32> = PendingStore::new();
    store.insert([1; 32], 10, 100);
    store.insert([2; 32], 20, 200);
    store.insert([3; 32], 30, 300);
    let entry = store.remove(&[2; 32]).expect("held");
    assert_eq!((entry.value, entry.arrival), (20, 200));
    assert!(store.remove(&[2; 32]).is_none());
    assert_eq!(store.len(), 2);
    assert_eq!(store.get(&[1; 32]).expect("held").value, 10);
    assert_eq!(store.get(&[3; 32]).expect("held").value, 30);
}

#[test]
fn store_drops_what_is_too_old() {
    let mut store: PendingStore<u32> = PendingStore::new();
    store.insert([1; 32], 10, 100);
    store.insert([2; 32], 20, 200);
    store.insert([3; 32], 30, 300);
    store.insert([4; 32], 40, 1000);
    store.remove_expired(250, 100);
    assert_eq!(store.len(), 3);
    assert!(!store.contains_key(&[1; 32]));
    store.remove_expired(300, 100);
    assert_eq!(store.len(), 3);
    store.remove_expired(401, 100);
    assert_eq!(store.len(), 1);
    assert_eq!(store.get(&[4; 32]).expect("held").value, 40);
    store.remove_expired(1101, 100);
    assert!(store.is_empty());
}
