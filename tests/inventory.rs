use ship_core::inventory::{AccountStorages, StorageInfo, StorageInventory};

#[test]
fn default_storage_box() {
    let b: StorageInventory<u32> = StorageInventory::default();
    assert_eq!(
        b.generate_info(),
        StorageInfo { total_space: 300, used_space: 0, storage_id: 14, storage_type: 4, is_locked: 0, is_enabled: 1 }
    );
}

#[test]
fn default_account_storages() {
    let s: AccountStorages<u32> = AccountStorages::default();
    assert_eq!(s.storage_meseta, 0);
    assert_eq!(s.default.total_space, 200);
    assert!(s.default.is_enabled && s.default.is_purchased);
    assert_eq!(
        s.premium.generate_info(),
        StorageInfo { total_space: 400, used_space: 0, storage_id: 1, storage_type: 1, is_locked: 1, is_enabled: 0 }
    );
    assert_eq!(
        s.extend1.generate_info(),
        StorageInfo { total_space: 500, used_space: 0, storage_id: 2, storage_type: 2, is_locked: 1, is_enabled: 0 }
    );
}

#[test]
fn info_counts_items() {
    let mut b: StorageInventory<u32> = StorageInventory::default();
    b.items = vec![1, 2, 3];
    b.is_purchased = false;
    let i = b.generate_info();
    assert_eq!(i.used_space, 3);
    assert_eq!(i.is_locked, 1);
}
