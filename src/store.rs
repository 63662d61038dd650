//! Durable storage: the memory divided into partitions, the id counter that
//! lives in one of them, and keyed maps of record bytes that live in others.
//! All of it is ic-stable-structures' work; the wrappers below state what
//! the library relies on.
use crate::codec::MAX_RECORD_SIZE;
use ic_stable_structures::memory_manager::{MemoryId, MemoryManager, VirtualMemory};
use ic_stable_structures::storable::Blob;
use ic_stable_structures::{Cell, DefaultMemoryImpl, StableBTreeMap};
use vstd::prelude::*;

verus! {

/// The durable memory, divided into partitions by a memory manager.
#[verifier::external_body]
pub struct MemoryPool {
    manager: MemoryManager<DefaultMemoryImpl>,
}

/// The id counter: one `u64` kept in a partition of its own.
#[verifier::external_body]
pub struct IdCell {
    cell: Cell<u64, VirtualMemory<DefaultMemoryImpl>>,
}

/// Record bytes kept under their ids, in ascending id order, in a
/// partition of their own.
#[verifier::external_body]
pub struct RecordMap {
    map: StableBTreeMap<u64, Blob<2048>, VirtualMemory<DefaultMemoryImpl>>,
}

/// The value that a counter holds.
pub uninterp spec fn cell_value(c: IdCell) -> u64;

/// What a record map holds: the bytes stored under each id.
pub uninterp spec fn map_contents(m: RecordMap) -> Map<u64, Seq<u8>>;

/// The partition that a record map was opened on.
pub uninterp spec fn map_partition(m: RecordMap) -> u8;

/// The number of partitions a memory manager hands out; the next id marks
/// an unallocated bucket and is refused.
pub const PARTITIONS: u8 = 255;

impl MemoryPool {
    /// Relies on `MemoryManager::init`, over a fresh default memory.
    #[verifier::external_body]
    pub(crate) fn new() -> (r: MemoryPool) {
        MemoryPool { manager: MemoryManager::init(DefaultMemoryImpl::default()) }
    }
}

/// Relies on `MemoryManager::get` and `Cell::new`: a new cell on a partition
/// holds the value it was given. `Cell::new` fails only when the memory
/// cannot grow.
#[verifier::external_body]
pub(crate) fn open_counter(pool: &MemoryPool, partition: u8) -> (r: Option<IdCell>)
    requires
        partition < PARTITIONS,
    ensures
        r matches Some(c) ==> cell_value(c) == 0,
{
    match Cell::new(pool.manager.get(MemoryId::new(partition)), 0) {
        Ok(cell) => Some(IdCell { cell }),
        Err(_) => None,
    }
}

/// Relies on `MemoryManager::get` and `BTreeMap::new`: a new map on a
/// partition starts empty, whatever the partition held.
#[verifier::external_body]
pub(crate) fn open_map(pool: &MemoryPool, partition: u8) -> (r: RecordMap)
    requires
        partition < PARTITIONS,
    ensures
        map_contents(r).dom().len() == 0,
        map_contents(r).dom().finite(),
        map_partition(r) == partition,
{
    RecordMap { map: StableBTreeMap::new(pool.manager.get(MemoryId::new(partition))) }
}

/// Relies on `MemoryManager::get` and `Cell::init`: the cell reads back the
/// value that the partition holds, or starts at 0 on an empty partition; it
/// fails when the partition holds a cell of another layout version, or the
/// memory cannot grow.
#[verifier::external_body]
pub(crate) fn load_counter(pool: &MemoryPool, partition: u8) -> (r: Option<IdCell>)
    requires
        partition < PARTITIONS,
{
    match Cell::init(pool.manager.get(MemoryId::new(partition)), 0) {
        Ok(cell) => Some(IdCell { cell }),
        Err(_) => None,
    }
}

/// Relies on `MemoryManager::get` and `BTreeMap::init`: the map reads back
/// the entries that the partition holds, or starts empty on a partition that
/// holds no map; a map holds finitely many entries.
#[verifier::external_body]
pub(crate) fn load_map(pool: &MemoryPool, partition: u8) -> (r: RecordMap)
    requires
        partition < PARTITIONS,
    ensures
        map_contents(r).dom().finite(),
        map_partition(r) == partition,
{
    RecordMap { map: StableBTreeMap::init(pool.manager.get(MemoryId::new(partition))) }
}

impl IdCell {
    /// Relies on `Cell::get`: the value last set.
    #[verifier::external_body]
    pub(crate) fn get(&self) -> (r: u64)
        ensures
            r == cell_value(*self),
    {
        *self.cell.get()
    }

    /// Relies on `Cell::set`. It fails only when the value's bytes do not
    /// fit in the memory the cell has grown to; a `u64` takes the same eight
    /// bytes as the value that `Cell::new` wrote, so it always succeeds.
    #[verifier::external_body]
    pub(crate) fn set(&mut self, v: u64)
        ensures
            cell_value(*final(self)) == v,
    {
        let _ = self.cell.set(v);
    }
}

impl RecordMap {
    /// Relies on `BTreeMap::get`: the value stored under the key, if any; a
    /// `Blob<2048>` holds at most 2048 bytes.
    #[verifier::external_body]
    pub(crate) fn get(&self, id: u64) -> (r: Option<Vec<u8>>)
        ensures
            r is Some <==> map_contents(*self).contains_key(id),
            r matches Some(b) ==> b@ == map_contents(*self)[id] && b@.len() <= MAX_RECORD_SIZE,
    {
        match self.map.get(&id) {
            Some(blob) => Some(blob.as_slice().to_vec()),
            None => None,
        }
    }

    /// Relies on `Blob::try_from`, which takes any slice of at most 2048
    /// bytes, and on `BTreeMap::insert`, which stores the value under the
    /// key in place of any earlier one.
    #[verifier::external_body]
    pub(crate) fn insert(&mut self, id: u64, bytes: &[u8])
        requires
            bytes@.len() <= MAX_RECORD_SIZE,
        ensures
            map_contents(*final(self)) == map_contents(*old(self)).insert(id, bytes@),
            map_partition(*final(self)) == map_partition(*old(self)),
    {
        match Blob::<2048>::try_from(bytes) {
            Ok(blob) => {
                self.map.insert(id, blob);
            },
            Err(_) => {},
        }
    }

    /// Relies on `BTreeMap::remove`: the key leaves the map, and the value
    /// it had is handed back.
    #[verifier::external_body]
    pub(crate) fn remove(&mut self, id: u64) -> (r: Option<Vec<u8>>)
        ensures
            map_contents(*final(self)) == map_contents(*old(self)).remove(id),
            map_partition(*final(self)) == map_partition(*old(self)),
            r is Some <==> map_contents(*old(self)).contains_key(id),
            r matches Some(b) ==> b@ == map_contents(*old(self))[id],
    {
        match self.map.remove(&id) {
            Some(blob) => Some(blob.as_slice().to_vec()),
            None => None,
        }
    }

    /// Relies on `BTreeMap::iter`, which walks the entries in ascending key
    /// order.
    #[verifier::external_body]
    pub(crate) fn ids(&self) -> (r: Vec<u64>)
        ensures
            forall|i: int, j: int| 0 <= i < j < r@.len() ==> r@[i] < r@[j],
            forall|k: u64| map_contents(*self).contains_key(k) <==> r@.contains(k),
    {
        self.map.iter().map(|(k, _)| k).collect()
    }
}

} // verus!
