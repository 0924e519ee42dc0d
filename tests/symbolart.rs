use ship_core::symbolart::change_sa;

#[test]
fn slot_changes_apply_in_order() {
    let mut uuids = vec![1u128, 2, 3];
    let to_check = change_sa(&mut uuids, &vec![(0, 10), (2, 0), (0, 11), (7, 99)]);
    assert_eq!(uuids, vec![11, 2, 0]);
    assert_eq!(to_check, vec![10, 11, 99]);
}

#[test]
fn no_changes() {
    let mut uuids = vec![5u128];
    assert!(change_sa(&mut uuids, &vec![]).is_empty());
    assert_eq!(uuids, vec![5]);
}
