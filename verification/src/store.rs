//! The storage collaborator's interface: get/put/delete keyed by a 32-byte
//! root and a column tag, plus an atomic multi-operation batch, and an
//! in-memory store that implements it, modeled as a map from (column, key) to
//! value.

use vstd::prelude::*;
use vstd::map::*;
use crate::hashing::{Hash256, bytes_eq_slice, clone_bytes};

verus! {

/// A unique column identifier.
#[derive(Debug, Clone, Copy, PartialEq, Eq, Structural)]
pub enum DBColumn {
    /// For data related to the database itself.
    BeaconMeta,
    BeaconBlock,
    BeaconState,
    /// For persisting in-memory state to the database.
    BeaconChain,
    OpPool,
    Eth1Cache,
    ForkChoice,
    /// For the table mapping restore point numbers to state roots.
    BeaconRestorePoint,
    /// For the mapping from state roots to their slots or summaries.
    BeaconStateSummary,
    BeaconBlockRoots,
    BeaconStateRoots,
    BeaconHistoricalRoots,
    BeaconRandaoMixes,
    DhtEnrs,
}

/// The short tag that keys a column in a key-value database.
pub open spec fn column_tag(c: DBColumn) -> Seq<char> {
    match c {
        DBColumn::BeaconMeta => "bma"@,
        DBColumn::BeaconBlock => "blk"@,
        DBColumn::BeaconState => "ste"@,
        DBColumn::BeaconChain => "bch"@,
        DBColumn::OpPool => "opo"@,
        DBColumn::Eth1Cache => "etc"@,
        DBColumn::ForkChoice => "frk"@,
        DBColumn::BeaconRestorePoint => "brp"@,
        DBColumn::BeaconStateSummary => "bss"@,
        DBColumn::BeaconBlockRoots => "bbr"@,
        DBColumn::BeaconStateRoots => "bsr"@,
        DBColumn::BeaconHistoricalRoots => "bhr"@,
        DBColumn::BeaconRandaoMixes => "brm"@,
        DBColumn::DhtEnrs => "dht"@,
    }
}

impl DBColumn {
    /// The column's tag, for keying a key-value database.
    pub fn as_str(self) -> (r: &'static str)
        ensures
            r@ == column_tag(self),
    {
        match self {
            DBColumn::BeaconMeta => "bma",
            DBColumn::BeaconBlock => "blk",
            DBColumn::BeaconState => "ste",
            DBColumn::BeaconChain => "bch",
            DBColumn::OpPool => "opo",
            DBColumn::Eth1Cache => "etc",
            DBColumn::ForkChoice => "frk",
            DBColumn::BeaconRestorePoint => "brp",
            DBColumn::BeaconStateSummary => "bss",
            DBColumn::BeaconBlockRoots => "bbr",
            DBColumn::BeaconStateRoots => "bsr",
            DBColumn::BeaconHistoricalRoots => "bhr",
            DBColumn::BeaconRandaoMixes => "brm",
            DBColumn::DhtEnrs => "dht",
        }
    }
}

/// Reified key-value storage operation; a batch of them applies atomically.
pub enum StoreOp {
    DeleteBlock(Hash256),
    DeleteState(Hash256, u64),
}

/// Why a store operation failed.
#[derive(Debug, Clone, Copy, PartialEq, Eq, Structural)]
pub enum StoreError {
    DecodeError,
}

/// An item that may be stored by serializing to and from bytes; the codec is
/// the implementor's.
pub trait StoreItem: Sized {
    /// The column this item type lives in; what `db_column` answers.
    open spec fn spec_db_column() -> DBColumn {
        DBColumn::BeaconMeta
    }

    /// Identifies which column this item should be placed in.
    fn db_column() -> (c: DBColumn)
        ensures
            c == Self::spec_db_column(),
    ;

    /// Serialize `self` as bytes.
    fn as_store_bytes(&self) -> Vec<u8>;

    /// De-serialize `self` from bytes.
    fn from_store_bytes(bytes: &[u8]) -> Result<Self, StoreError>;
}

/// What one reified operation removes.
pub open spec fn op_removal(
    m: Map<(DBColumn, Seq<u8>), Seq<u8>>,
    op: StoreOp,
) -> Map<(DBColumn, Seq<u8>), Seq<u8>> {
    match op {
        StoreOp::DeleteBlock(root) => m.remove((DBColumn::BeaconBlock, root@)),
        StoreOp::DeleteState(root, _) => m.remove((DBColumn::BeaconState, root@)),
    }
}

/// What a whole batch removes, in order.
pub open spec fn batch_removals(
    m: Map<(DBColumn, Seq<u8>), Seq<u8>>,
    ops: Seq<StoreOp>,
) -> Map<(DBColumn, Seq<u8>), Seq<u8>>
    decreases ops.len(),
{
    if ops.len() == 0 {
        m
    } else {
        batch_removals(op_removal(m, ops[0]), ops.skip(1))
    }
}

/// A key-value backend: bytes in columns, modeled as a map from (column, key)
/// to value. Success is the implementor's to promise; what each successful
/// call means is fixed here.
pub trait KeyValueStore: Sized {
    /// The store's contents.
    spec fn kv(&self) -> Map<(DBColumn, Seq<u8>), Seq<u8>>;

    /// Retrieve some bytes in `column` with `key`.
    fn get_bytes(&self, column: DBColumn, key: &[u8]) -> (res: Result<Option<Vec<u8>>, StoreError>)
        ensures
            res matches Ok(Some(v)) ==> self.kv().contains_key((column, key@)) && v@
                == self.kv().index((column, key@)),
            res matches Ok(o) && o is None ==> !self.kv().contains_key((column, key@)),
    ;

    /// Store some `value` in `column`, indexed with `key`.
    fn put_bytes(&mut self, column: DBColumn, key: &[u8], value: &[u8]) -> (res: Result<
        (),
        StoreError,
    >)
        ensures
            res is Ok ==> final(self).kv() == old(self).kv().insert((column, key@), value@),
            res is Err ==> final(self).kv() == old(self).kv(),
    ;

    /// Return true if `key` exists in `column`.
    fn key_exists(&self, column: DBColumn, key: &[u8]) -> (res: Result<bool, StoreError>)
        ensures
            res matches Ok(b) ==> b == self.kv().contains_key((column, key@)),
    ;

    /// Remove `key` from `column`.
    fn key_delete(&mut self, column: DBColumn, key: &[u8]) -> (res: Result<(), StoreError>)
        ensures
            res is Ok ==> final(self).kv() == old(self).kv().remove((column, key@)),
            res is Err ==> final(self).kv() == old(self).kv(),
    ;

    /// Execute either all of the operations in `batch` or none at all.
    fn do_atomically(&mut self, batch: &Vec<StoreOp>) -> (res: Result<(), StoreError>)
        ensures
            res is Ok ==> final(self).kv() == batch_removals(old(self).kv(), batch@),
            res is Err ==> final(self).kv() == old(self).kv(),
    ;
}

/// An object capable of storing and retrieving whole items by root.
pub trait ItemStore: KeyValueStore {
    /// Store an item under its column.
    fn put<I: StoreItem>(&mut self, key: &Hash256, item: &I) -> (res: Result<(), StoreError>)
        ensures
            res is Ok ==> exists|v: Seq<u8>|
                final(self).kv() == old(self).kv().insert((I::spec_db_column(), key@), v),
            res is Err ==> final(self).kv() == old(self).kv(),
    ;

    /// Retrieve an item by root; absent keys come back as no item.
    fn get<I: StoreItem>(&self, key: &Hash256) -> (res: Result<Option<I>, StoreError>)
        ensures
            res matches Ok(o) && o is None ==> !self.kv().contains_key((I::spec_db_column(), key@)),
            res matches Ok(o) && o is Some ==> self.kv().contains_key((I::spec_db_column(), key@)),
    ;

    /// Return true if the given key represents an item.
    fn item_exists<I: StoreItem>(&self, key: &Hash256) -> (res: Result<bool, StoreError>)
        ensures
            res matches Ok(b) ==> b == self.kv().contains_key((I::spec_db_column(), key@)),
    ;

    /// Remove an item by root.
    fn delete<I: StoreItem>(&mut self, key: &Hash256) -> (res: Result<(), StoreError>)
        ensures
            res is Ok ==> final(self).kv() == old(self).kv().remove((I::spec_db_column(), key@)),
            res is Err ==> final(self).kv() == old(self).kv(),
    ;
}

/// Contents of an entry list, later entries overriding earlier ones.
pub open spec fn kv_map(s: Seq<(DBColumn, Vec<u8>, Vec<u8>)>) -> Map<
    (DBColumn, Seq<u8>),
    Seq<u8>,
>
    decreases s.len(),
{
    if s.len() == 0 {
        Map::empty()
    } else {
        kv_map(s.drop_last()).insert((s.last().0, s.last().1@), s.last().2@)
    }
}

/// An in-memory store backed by a list of entries. Used for testing.
pub struct MemoryStore {
    entries: Vec<(DBColumn, Vec<u8>, Vec<u8>)>,
}

impl MemoryStore {
    /// An empty store.
    pub fn open() -> (r: MemoryStore)
        ensures
            r.kv() == Map::<(DBColumn, Seq<u8>), Seq<u8>>::empty(),
    {
        MemoryStore { entries: Vec::new() }
    }

    /// Drop every entry under this column and key.
    fn remove_matching(&mut self, column: DBColumn, key: &[u8])
        ensures
            final(self).kv() == old(self).kv().remove((column, key@)),
    {
        let n = self.entries.len();
        let mut kept: Vec<(DBColumn, Vec<u8>, Vec<u8>)> = Vec::new();
        let mut i: usize = 0;
        proof {
            assert(self.entries@.take(0) =~= Seq::<(DBColumn, Vec<u8>, Vec<u8>)>::empty());
        }
        while i < n
            invariant
                i <= n,
                n == self.entries@.len(),
                kv_map(kept@) == kv_map(self.entries@.take(i as int)).remove((column, key@)),
            decreases n - i,
        {
            proof {
                assert(self.entries@.take(i as int + 1).drop_last() =~= self.entries@.take(
                    i as int,
                ));
                assert(self.entries@.take(i as int + 1).last() == self.entries@[i as int]);
            }
            let entry = &self.entries[i];
            let matches_key = entry.0 == column && bytes_eq_slice(&entry.1, key);
            if !matches_key {
                let ghost pre_kept = kept@;
                kept.push((entry.0, clone_bytes(&entry.1), clone_bytes(&entry.2)));
                proof {
                    assert(kept@.drop_last() =~= pre_kept);
                    assert(kept@.last().1@ == self.entries@[i as int].1@);
                    assert(kept@.last().2@ == self.entries@[i as int].2@);
                    assert_maps_equal!(
                        kv_map(pre_kept).insert(
                            (kept@.last().0, kept@.last().1@),
                            kept@.last().2@,
                        ),
                        kv_map(self.entries@.take(i as int + 1)).remove((column, key@)),
                    );
                }
            } else {
                proof {
                    assert((entry.0, entry.1@) == (column, key@));
                    assert_maps_equal!(
                        kv_map(kept@),
                        kv_map(self.entries@.take(i as int + 1)).remove((column, key@)),
                    );
                }
            }
            i = i + 1;
        }
        proof {
            assert(self.entries@.take(n as int) =~= self.entries@);
        }
        self.entries = kept;
    }
}

impl KeyValueStore for MemoryStore {
    closed spec fn kv(&self) -> Map<(DBColumn, Seq<u8>), Seq<u8>> {
        kv_map(self.entries@)
    }

    fn get_bytes(&self, column: DBColumn, key: &[u8]) -> (res: Result<Option<Vec<u8>>, StoreError>)
    {
        let mut i: usize = self.entries.len();
        proof {
            assert(self.entries@.take(self.entries@.len() as int) =~= self.entries@);
        }
        while i > 0
            invariant
                i <= self.entries@.len(),
                kv_map(self.entries@).contains_key((column, key@)) == kv_map(
                    self.entries@.take(i as int),
                ).contains_key((column, key@)),
                kv_map(self.entries@).contains_key((column, key@)) ==> kv_map(
                    self.entries@,
                ).index((column, key@)) == kv_map(self.entries@.take(i as int)).index(
                    (column, key@),
                ),
            decreases i,
        {
            i = i - 1;
            let entry = &self.entries[i];
            proof {
                assert(self.entries@.take(i as int + 1).drop_last() =~= self.entries@.take(
                    i as int,
                ));
                assert(self.entries@.take(i as int + 1).last() == self.entries@[i as int]);
            }
            if entry.0 == column && bytes_eq_slice(&entry.1, key) {
                proof {
                    assert((entry.0, entry.1@) == (column, key@));
                }
                return Ok(Some(clone_bytes(&entry.2)));
            }
        }
        proof {
            assert(self.entries@.take(0) =~= Seq::<(DBColumn, Vec<u8>, Vec<u8>)>::empty());
        }
        Ok(None)
    }

    fn put_bytes(&mut self, column: DBColumn, key: &[u8], value: &[u8]) -> (res: Result<
        (),
        StoreError,
    >) {
        let mut key_vec: Vec<u8> = Vec::new();
        let mut k: usize = 0;
        while k < key.len()
            invariant
                k <= key@.len(),
                key_vec@ == key@.take(k as int),
            decreases key@.len() - k,
        {
            key_vec.push(key[k]);
            k = k + 1;
            proof {
                assert(key_vec@ =~= key@.take(k as int));
            }
        }
        let mut value_vec: Vec<u8> = Vec::new();
        let mut v: usize = 0;
        while v < value.len()
            invariant
                v <= value@.len(),
                value_vec@ == value@.take(v as int),
            decreases value@.len() - v,
        {
            value_vec.push(value[v]);
            v = v + 1;
            proof {
                assert(value_vec@ =~= value@.take(v as int));
            }
        }
        proof {
            assert(key_vec@ =~= key@);
            assert(value_vec@ =~= value@);
        }
        let ghost pre = self.entries@;
        self.entries.push((column, key_vec, value_vec));
        proof {
            assert(self.entries@.drop_last() =~= pre);
        }
        Ok(())
    }

    fn key_exists(&self, column: DBColumn, key: &[u8]) -> (res: Result<bool, StoreError>) {
        match self.get_bytes(column, key) {
            Ok(Some(_)) => Ok(true),
            Ok(None) => Ok(false),
            Err(e) => Err(e),
        }
    }

    fn key_delete(&mut self, column: DBColumn, key: &[u8]) -> (res: Result<(), StoreError>) {
        self.remove_matching(column, key);
        Ok(())
    }

    fn do_atomically(&mut self, batch: &Vec<StoreOp>) -> (res: Result<(), StoreError>) {
        let n = batch.len();
        let ghost pre = self.kv();
        proof {
            assert(batch@.skip(0) =~= batch@);
        }
        let mut i: usize = 0;
        while i < n
            invariant
                i <= n,
                n == batch@.len(),
                batch_removals(pre, batch@) == batch_removals(self.kv(), batch@.skip(i as int)),
            decreases n - i,
        {
            let ghost it_pre = self.kv();
            let ghost rest = batch@.skip(i as int);
            proof {
                assert(rest[0] == batch@[i as int]);
                assert(rest.skip(1) =~= batch@.skip(i as int + 1));
            }
            match &batch[i] {
                StoreOp::DeleteBlock(root) => {
                    self.remove_matching(DBColumn::BeaconBlock, root.as_slice());
                }
                StoreOp::DeleteState(root, _) => {
                    self.remove_matching(DBColumn::BeaconState, root.as_slice());
                }
            }
            i = i + 1;
        }
        proof {
            assert(batch@.skip(n as int) =~= Seq::<StoreOp>::empty());
        }
        Ok(())
    }
}

} // verus!

verus! {

impl ItemStore for MemoryStore {
    fn put<I: StoreItem>(&mut self, key: &Hash256, item: &I) -> (res: Result<(), StoreError>) {
        let column = I::db_column();
        let bytes = item.as_store_bytes();
        let ghost gbytes = bytes@;
        match self.put_bytes(column, key.as_slice(), bytes.as_slice()) {
            Ok(()) => {
                proof {
                    assert(final(self).kv() == old(self).kv().insert(
                        (I::spec_db_column(), key@),
                        gbytes,
                    ));
                }
                Ok(())
            }
            Err(e) => Err(e),
        }
    }

    fn get<I: StoreItem>(&self, key: &Hash256) -> (res: Result<Option<I>, StoreError>) {
        match self.get_bytes(I::db_column(), key.as_slice()) {
            Ok(Some(bytes)) => match I::from_store_bytes(bytes.as_slice()) {
                Ok(item) => Ok(Some(item)),
                Err(e) => Err(e),
            },
            Ok(None) => Ok(None),
            Err(e) => Err(e),
        }
    }

    fn item_exists<I: StoreItem>(&self, key: &Hash256) -> (res: Result<bool, StoreError>) {
        self.key_exists(I::db_column(), key.as_slice())
    }

    fn delete<I: StoreItem>(&mut self, key: &Hash256) -> (res: Result<(), StoreError>) {
        self.key_delete(I::db_column(), key.as_slice())
    }
}

} // verus!
