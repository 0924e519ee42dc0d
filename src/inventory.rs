//! Account storage boxes.

use vstd::prelude::*;

verus! {

/// Summary of a storage box as the client is told about it.
#[derive(Clone, Copy, Debug, PartialEq, Eq, Structural)]
pub struct StorageInfo {
    pub total_space: u32,
    pub used_space: u32,
    pub storage_id: u8,
    pub storage_type: u8,
    pub is_locked: u8,
    pub is_enabled: u8,
}

/// One storage box and the items in it.
#[derive(Clone, Debug, PartialEq, Eq)]
pub struct StorageInventory<I> {
    pub total_space: u32,
    pub storage_id: u8,
    pub is_enabled: bool,
    pub is_purchased: bool,
    pub storage_type: u8,
    pub items: Vec<I>,
}

/// The storage boxes shared by all characters of an account.
#[derive(Clone, Debug, PartialEq, Eq)]
pub struct AccountStorages<I> {
    pub storage_meseta: u64,
    pub default: StorageInventory<I>,
    pub premium: StorageInventory<I>,
    pub extend1: StorageInventory<I>,
}

/// An empty box with the given settings.
pub open spec fn empty_box<I>(
    b: StorageInventory<I>,
    total_space: u32,
    storage_id: u8,
    enabled: bool,
    storage_type: u8,
) -> bool {
    &&& b.total_space == total_space
    &&& b.storage_id == storage_id
    &&& b.is_enabled == enabled
    &&& b.is_purchased == enabled
    &&& b.storage_type == storage_type
    &&& b.items@.len() == 0
}

impl<I> StorageInventory<I> {
    /// The box's summary: a box that was not purchased is locked, and the used
    /// space is the item count (as the 32-bit field holds it).
    pub fn generate_info(&self) -> (r: StorageInfo)
        ensures
            r.total_space == self.total_space,
            r.used_space == self.items@.len() as u32,
            r.storage_id == self.storage_id,
            r.storage_type == self.storage_type,
            r.is_locked == (if self.is_purchased { 0u8 } else { 1u8 }),
            r.is_enabled == (if self.is_enabled { 1u8 } else { 0u8 }),
    {
        StorageInfo {
            total_space: self.total_space,
            used_space: self.items.len() as u32,
            storage_id: self.storage_id,
            storage_type: self.storage_type,
            is_locked: if self.is_purchased { 0 } else { 1 },
            is_enabled: if self.is_enabled { 1 } else { 0 },
        }
    }
}

impl<I> Default for StorageInventory<I> {
    /// The character's own box: 300 slots, id 14, type 4, open.
    fn default() -> (r: Self)
        ensures
            empty_box(r, 300, 14, true, 4),
    {
        StorageInventory {
            total_space: 300,
            storage_id: 14,
            is_enabled: true,
            is_purchased: true,
            storage_type: 4,
            items: Vec::new(),
        }
    }
}

impl<I> Default for AccountStorages<I> {
    /// No meseta, the default box open with 200 slots, and the premium (400)
    /// and extra (500) boxes closed.
    fn default() -> (r: Self)
        ensures
            r.storage_meseta == 0,
            empty_box(r.default, 200, 0, true, 0),
            empty_box(r.premium, 400, 1, false, 1),
            empty_box(r.extend1, 500, 2, false, 2),
    {
        AccountStorages {
            storage_meseta: 0,
            default: StorageInventory {
                total_space: 200,
                storage_id: 0,
                is_enabled: true,
                is_purchased: true,
                storage_type: 0,
                items: Vec::new(),
            },
            premium: StorageInventory {
                total_space: 400,
                storage_id: 1,
                is_enabled: false,
                is_purchased: false,
                storage_type: 1,
                items: Vec::new(),
            },
            extend1: StorageInventory {
                total_space: 500,
                storage_id: 2,
                is_enabled: false,
                is_purchased: false,
                storage_type: 2,
                items: Vec::new(),
            },
        }
    }
}

} // verus!
