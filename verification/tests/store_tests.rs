//! The in-memory store against the item interface.

use beacon_core::store::{DBColumn, ItemStore, KeyValueStore, MemoryStore, StoreError, StoreItem,
    StoreOp};

#[derive(PartialEq, Debug)]
struct StorableThing {
    a: u64,
    b: u64,
}

impl StoreItem for StorableThing {
    fn db_column() -> DBColumn {
        DBColumn::BeaconBlock
    }

    fn as_store_bytes(&self) -> Vec<u8> {
        let mut out = self.a.to_le_bytes().to_vec();
        out.extend_from_slice(&self.b.to_le_bytes());
        out
    }

    fn from_store_bytes(bytes: &[u8]) -> Result<Self, StoreError> {
        if bytes.len() != 16 {
            return Err(StoreError::DecodeError);
        }
        let mut a = [0u8; 8];
        let mut b = [0u8; 8];
        a.copy_from_slice(&bytes[..8]);
        b.copy_from_slice(&bytes[8..]);
        Ok(StorableThing { a: u64::from_le_bytes(a), b: u64::from_le_bytes(b) })
    }
}

fn test_impl(mut store: MemoryStore) {
    let key = vec![0xA7u8; 32];
    let item = StorableThing { a: 1, b: 42 };

    assert_eq!(store.item_exists::<StorableThing>(&key).unwrap(), false);

    store.put(&key, &item).unwrap();

    assert_eq!(store.item_exists::<StorableThing>(&key).unwrap(), true);

    let retrieved = store.get(&key).unwrap().unwrap();
    assert_eq!(item, retrieved);

    store.delete::<StorableThing>(&key).unwrap();

    assert_eq!(store.item_exists::<StorableThing>(&key).unwrap(), false);

    assert_eq!(store.get::<StorableThing>(&key).unwrap(), None);
}

#[test]
fn memorydb() {
    let store = MemoryStore::open();

    test_impl(store);
}

#[test]
fn exists_item() {
    let mut store = MemoryStore::open();
    let key = vec![0x42u8; 32];
    let item = StorableThing { a: 1, b: 42 };

    assert_eq!(store.item_exists::<StorableThing>(&key).unwrap(), false);

    store.put(&key, &item).unwrap();

    assert_eq!(store.item_exists::<StorableThing>(&key).unwrap(), true);

    store.delete::<StorableThing>(&key).unwrap();

    assert_eq!(store.item_exists::<StorableThing>(&key).unwrap(), false);
}

#[test]
fn later_writes_win_and_batches_remove() {
    let mut store = MemoryStore::open();
    let key = vec![9u8; 32];
    store.put_bytes(DBColumn::BeaconBlock, &key, &[1, 2, 3]).unwrap();
    store.put_bytes(DBColumn::BeaconBlock, &key, &[4, 5]).unwrap();
    assert_eq!(
        store.get_bytes(DBColumn::BeaconBlock, &key).unwrap(),
        Some(vec![4, 5])
    );
    // Columns are distinct key spaces.
    assert_eq!(store.get_bytes(DBColumn::BeaconState, &key).unwrap(), None);

    store.put_bytes(DBColumn::BeaconState, &key, &[7]).unwrap();
    let batch = vec![
        StoreOp::DeleteBlock(key.clone()),
        StoreOp::DeleteState(key.clone(), 0),
    ];
    store.do_atomically(&batch).unwrap();
    assert_eq!(store.get_bytes(DBColumn::BeaconBlock, &key).unwrap(), None);
    assert_eq!(store.get_bytes(DBColumn::BeaconState, &key).unwrap(), None);
}

#[test]
fn column_tags_are_three_bytes() {
    assert_eq!(DBColumn::BeaconMeta.as_str(), "bma");
    assert_eq!(DBColumn::BeaconBlock.as_str(), "blk");
    assert_eq!(DBColumn::DhtEnrs.as_str(), "dht");
}
