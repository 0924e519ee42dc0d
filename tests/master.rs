use ship_core::master::{
    call_result, check_host_key, CallTable, HostKey, MasterConnection, MasterError,
    MasterShipAction, RegisterShipResult, ShipInfo, ShipLoginResult,
};

const IP_10_0_0_5: u32 = (10 << 24) | 5;

fn info(id: u32) -> ShipInfo {
    ShipInfo { ip: 0, id, port: 12100, name: "Ship".to_string(), max_players: 100 }
}

#[test]
fn call_ids_increase_from_first() {
    let mut t: CallTable<&str> = CallTable::new(1);
    assert_eq!(t.issue("a"), Some(1));
    assert_eq!(t.issue("b"), Some(2));
    assert_eq!(t.next_id, 3);
    assert_eq!(t.pending.len(), 2);
}

#[test]
fn out_of_order_replies_reach_their_callers() {
    let mut t: CallTable<&str> = CallTable::new(1);
    let a = t.issue("login").unwrap();
    let b = t.issue("register").unwrap();
    let c = t.issue("other").unwrap();
    assert_eq!(t.complete(c), Some("other"));
    assert_eq!(t.complete(a), Some("login"));
    assert_eq!(t.complete(b), Some("register"));
    assert!(t.pending.is_empty());
}

#[test]
fn call_completes_at_most_once() {
    let mut t: CallTable<u8> = CallTable::new(0);
    let a = t.issue(7).unwrap();
    assert_eq!(t.complete(a), Some(7));
    assert_eq!(t.complete(a), None);
    let b = t.issue(8).unwrap();
    assert_ne!(a, b);
    assert_eq!(t.complete(a), None);
    assert_eq!(t.complete(b), Some(8));
}

#[test]
fn unknown_reply_id_finds_no_call() {
    let mut t: CallTable<u8> = CallTable::new(1);
    t.issue(1);
    assert_eq!(t.complete(99), None);
    assert_eq!(t.pending.len(), 1);
}

#[test]
fn ids_exhausted_refuses_call() {
    let mut t: CallTable<u8> = CallTable::new(u32::MAX - 1);
    assert_eq!(t.issue(1), Some(u32::MAX - 1));
    assert_eq!(t.issue(2), None);
    assert_eq!(t.next_id, u32::MAX);
    assert_eq!(t.pending.len(), 1);
}

#[test]
fn call_result_without_reply_is_no_response() {
    assert_eq!(call_result(None), Err(MasterError::NoResponse));
    assert_eq!(
        call_result(Some(MasterShipAction::UnregisterShip(4))),
        Ok(MasterShipAction::UnregisterShip(4))
    );
}

#[test]
fn login_request_carries_psk() {
    assert_eq!(
        MasterConnection::login_request(&[1, 2, 3]),
        MasterShipAction::ShipLogin { psk: vec![1, 2, 3] }
    );
}

#[test]
fn login_ok_gives_usable_channel() {
    let c = MasterConnection::new(42, MasterShipAction::ShipLoginResult(ShipLoginResult::Success));
    assert_eq!(c, Ok(MasterConnection { local_addr: 42, ship_id: None }));
}

#[test]
fn login_unknown_psk_fails_construction() {
    let c = MasterConnection::new(42, MasterShipAction::ShipLoginResult(ShipLoginResult::UnknownShip));
    assert_eq!(c, Err(MasterError::InvalidPsk));
}

#[test]
fn login_other_reply_is_protocol_violation() {
    let c = MasterConnection::new(42, MasterShipAction::RegisterShipResult(RegisterShipResult::Success));
    assert_eq!(c, Err(MasterError::Unexpected));
    let c = MasterConnection::new(42, MasterShipAction::Error(3));
    assert_eq!(c, Err(MasterError::Unexpected));
}

#[test]
fn register_request_sets_local_address() {
    let c = MasterConnection { local_addr: 0x7f000001, ship_id: None };
    let r = c.register_request(info(5));
    let mut expected = info(5);
    expected.ip = 0x7f000001;
    assert_eq!(r, MasterShipAction::RegisterShip(expected));
}

#[test]
fn register_results_are_surfaced() {
    let mut c = MasterConnection { local_addr: 1, ship_id: None };
    assert_eq!(
        c.register_ship(5, MasterShipAction::Error(9)),
        Err(MasterError::Master(9))
    );
    assert_eq!(c.ship_id, None);
    assert_eq!(
        c.register_ship(5, MasterShipAction::UnregisterShip(5)),
        Err(MasterError::Unexpected)
    );
    assert_eq!(
        c.register_ship(5, MasterShipAction::RegisterShipResult(RegisterShipResult::AlreadyTaken)),
        Ok(RegisterShipResult::AlreadyTaken)
    );
    assert_eq!(c.ship_id, None);
}

#[test]
fn drop_without_registration_sends_nothing() {
    let c = MasterConnection::new(1, MasterShipAction::ShipLoginResult(ShipLoginResult::Success)).unwrap();
    assert_eq!(c.unregister_on_drop(), None);
}

#[test]
fn drop_after_registration_sends_one_unregister() {
    let mut c = MasterConnection::new(1, MasterShipAction::ShipLoginResult(ShipLoginResult::Success)).unwrap();
    let r = c.register_ship(5, MasterShipAction::RegisterShipResult(RegisterShipResult::Success));
    assert_eq!(r, Ok(RegisterShipResult::Success));
    assert_eq!(c.unregister_on_drop(), Some(MasterShipAction::UnregisterShip(5)));
}

#[test]
fn trust_on_first_use_pins_key() {
    let mut keys: Vec<HostKey> = vec![HostKey { ip: 1, key: vec![9] }];
    let k1 = [1u8, 2, 3, 4];
    let k2 = [1u8, 2, 3, 5];
    assert!(check_host_key(&mut keys, IP_10_0_0_5, &k1));
    assert_eq!(keys.len(), 2);
    assert_eq!(keys[1], HostKey { ip: IP_10_0_0_5, key: k1.to_vec() });
    assert!(!check_host_key(&mut keys, IP_10_0_0_5, &k2));
    assert!(check_host_key(&mut keys, IP_10_0_0_5, &k1));
    assert_eq!(keys.len(), 2);
}

#[test]
fn pinned_key_of_different_length_is_rejected() {
    let mut keys: Vec<HostKey> = vec![HostKey { ip: 1, key: vec![9, 9] }];
    assert!(!check_host_key(&mut keys, 1, &[9]));
    assert!(!check_host_key(&mut keys, 1, &[]));
    assert!(check_host_key(&mut keys, 1, &[9, 9]));
    assert_eq!(keys.len(), 1);
}
