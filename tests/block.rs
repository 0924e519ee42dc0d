use ship_core::block::{
    actor_step, find_block, Action, ActorStep, Block, BlockInfo, Connection, Effect, TickOutcome,
};

fn registry(max_players: u32) -> Vec<BlockInfo> {
    vec![
        BlockInfo { id: 7, name: "other".to_string(), port: 13001, players: 3, max_players: 10 },
        BlockInfo { id: 1, name: "Block 1".to_string(), port: 13002, players: 0, max_players },
    ]
}

fn players(blocks: &Vec<BlockInfo>) -> u32 {
    blocks[1].players
}

#[test]
fn find_block_returns_first_matching_entry() {
    let mut blocks = registry(4);
    blocks.push(BlockInfo { id: 1, name: "dup".to_string(), port: 1, players: 9, max_players: 9 });
    assert_eq!(find_block(&blocks, 1), Some(1));
    assert_eq!(find_block(&blocks, 7), Some(0));
    assert_eq!(find_block(&blocks, 99), None);
}

#[test]
fn accept_counts_players_and_assigns_increasing_ids() {
    let mut blocks = registry(4);
    let mut block = Block::new(1);
    assert_eq!(block.new_conn_handler(&mut blocks), Some(0));
    assert_eq!(block.new_conn_handler(&mut blocks), Some(1));
    assert_eq!(players(&blocks), 2);
    assert_eq!(blocks[0].players, 3);
    assert_eq!(block.clients.len(), 2);
    assert_eq!(block.clients[1], Connection { conn_id: 1, party_id: None });
    assert_eq!(block.next_conn_id, 2);
}

#[test]
fn full_block_refuses_connection() {
    let mut blocks = registry(2);
    let mut block = Block::new(1);
    assert!(block.new_conn_handler(&mut blocks).is_some());
    assert!(block.new_conn_handler(&mut blocks).is_some());
    assert_eq!(players(&blocks), 2);
    assert_eq!(block.new_conn_handler(&mut blocks), None);
    assert_eq!(players(&blocks), 2);
    assert_eq!(block.clients.len(), 2);
    assert_eq!(block.next_conn_id, 2);
}

#[test]
fn players_track_live_connections_over_events() {
    let mut blocks = registry(3);
    let mut block = Block::new(1);
    let mut live = 0u32;
    let events = [true, true, false, true, true, true, false, false, true, false, false, false];
    for accept in events {
        if accept {
            if block.new_conn_handler(&mut blocks).is_some() {
                live += 1;
            }
        } else if let Some(c) = block.clients.first().copied() {
            let ids = vec![0; block.clients.len()];
            let e = block.run_action(&mut blocks, c.conn_id, Action::Disconnect, &ids);
            assert_eq!(e, Effect::Close { conn_id: c.conn_id });
            live -= 1;
        }
        assert_eq!(players(&blocks), live);
        assert_eq!(block.clients.len() as u32, live);
        assert!(players(&blocks) <= 3);
    }
}

#[test]
fn disconnect_removes_connection_once() {
    let mut blocks = registry(4);
    let mut block = Block::new(1);
    block.new_conn_handler(&mut blocks);
    block.new_conn_handler(&mut blocks);
    let ids = vec![0, 0];
    assert_eq!(block.run_action(&mut blocks, 0, Action::Disconnect, &ids), Effect::Close { conn_id: 0 });
    assert_eq!(players(&blocks), 1);
    assert_eq!(block.clients, vec![Connection { conn_id: 1, party_id: None }]);
    let ids = vec![0];
    assert_eq!(block.run_action(&mut blocks, 0, Action::Disconnect, &ids), Effect::Nothing);
    assert_eq!(players(&blocks), 1);
}

#[test]
fn ids_are_not_reused_after_disconnect() {
    let mut blocks = registry(4);
    let mut block = Block::new(1);
    block.new_conn_handler(&mut blocks);
    block.run_action(&mut blocks, 0, Action::Disconnect, &vec![0]);
    assert_eq!(block.new_conn_handler(&mut blocks), Some(1));
}

#[test]
fn initial_load_allocates_one_party() {
    let mut blocks = registry(4);
    let mut block = Block::new(1);
    block.new_conn_handler(&mut blocks);
    block.new_conn_handler(&mut blocks);
    let ids = vec![10, 11];
    let e = block.run_action(&mut blocks, 1, Action::InitialLoad, &ids);
    assert_eq!(e, Effect::JoinLobby { conn_id: 1, party_id: 0 });
    let e = block.run_action(&mut blocks, 0, Action::InitialLoad, &ids);
    assert_eq!(e, Effect::JoinLobby { conn_id: 0, party_id: 1 });
    assert_eq!(block.latest_partyid, 2);
    assert_eq!(block.clients[1].party_id, Some(0));
}

#[test]
fn initial_load_twice_is_idempotent() {
    let mut blocks = registry(4);
    let mut block = Block::new(1);
    block.new_conn_handler(&mut blocks);
    let ids = vec![10];
    let first = block.run_action(&mut blocks, 0, Action::InitialLoad, &ids);
    let second = block.run_action(&mut blocks, 0, Action::InitialLoad, &ids);
    assert_eq!(first, Effect::JoinLobby { conn_id: 0, party_id: 0 });
    assert_eq!(second, Effect::Nothing);
    assert_eq!(block.clients[0].party_id, Some(0));
    assert_eq!(block.latest_partyid, 1);
}

#[test]
fn party_counter_wraps() {
    let mut blocks = registry(4);
    let mut block = Block::new(1);
    block.latest_partyid = u32::MAX;
    block.new_conn_handler(&mut blocks);
    let e = block.run_action(&mut blocks, 0, Action::InitialLoad, &vec![5]);
    assert_eq!(e, Effect::JoinLobby { conn_id: 0, party_id: u32::MAX });
    assert_eq!(block.latest_partyid, 0);
}

#[test]
fn invite_routes_to_first_matching_player() {
    let mut blocks = registry(4);
    let mut block = Block::new(1);
    for _ in 0..3 {
        block.new_conn_handler(&mut blocks);
    }
    let ids = vec![10, 42, 42];
    let e = block.run_action(&mut blocks, 0, Action::SendPartyInvite(42), &ids);
    assert_eq!(e, Effect::Invite { inviter: 0, invitee: 1 });
}

#[test]
fn invite_to_disconnected_player_is_dropped() {
    let mut blocks = registry(4);
    let mut block = Block::new(1);
    block.new_conn_handler(&mut blocks);
    block.new_conn_handler(&mut blocks);
    block.run_action(&mut blocks, 1, Action::Disconnect, &vec![10, 42]);
    let e = block.run_action(&mut blocks, 0, Action::SendPartyInvite(42), &vec![10]);
    assert_eq!(e, Effect::Nothing);
    assert_eq!(block.clients.len(), 1);
    assert_eq!(players(&blocks), 1);
}

#[test]
fn action_from_unknown_connection_is_dropped() {
    let mut blocks = registry(4);
    let mut block = Block::new(1);
    block.new_conn_handler(&mut blocks);
    let e = block.run_action(&mut blocks, 9, Action::InitialLoad, &vec![1]);
    assert_eq!(e, Effect::Nothing);
    assert_eq!(block.latest_partyid, 0);
    let e = block.run_action(&mut blocks, 0, Action::Nothing, &vec![1]);
    assert_eq!(e, Effect::Nothing);
}

#[test]
fn missing_registry_entry_still_accepts() {
    let mut blocks = registry(4);
    let mut block = Block::new(3);
    assert_eq!(block.new_conn_handler(&mut blocks), Some(0));
    assert_eq!(blocks[0].players, 3);
    assert_eq!(blocks[1].players, 0);
}

#[test]
fn actor_step_maps_tick_outcomes() {
    assert_eq!(actor_step(TickOutcome::Done(Action::Nothing)), ActorStep::Continue);
    assert_eq!(actor_step(TickOutcome::Done(Action::Disconnect)), ActorStep::Stop);
    assert_eq!(actor_step(TickOutcome::Done(Action::InitialLoad)), ActorStep::Send(Action::InitialLoad));
    assert_eq!(
        actor_step(TickOutcome::Done(Action::SendPartyInvite(3))),
        ActorStep::Send(Action::SendPartyInvite(3))
    );
    assert_eq!(actor_step(TickOutcome::WouldBlock), ActorStep::Continue);
    assert_eq!(actor_step(TickOutcome::ConnectionAborted), ActorStep::Stop);
    assert_eq!(actor_step(TickOutcome::Failed), ActorStep::ReportError);
}

#[test]
fn failed_initial_load_can_be_retried() {
    let mut blocks = registry(4);
    let mut block = Block::new(1);
    block.new_conn_handler(&mut blocks);
    let ids = vec![10];
    let first = block.run_action(&mut blocks, 0, Action::InitialLoad, &ids);
    assert_eq!(first, Effect::JoinLobby { conn_id: 0, party_id: 0 });
    block.initial_load_failed(0, 0);
    assert_eq!(block.clients[0].party_id, None);
    let again = block.run_action(&mut blocks, 0, Action::InitialLoad, &ids);
    assert_eq!(again, Effect::JoinLobby { conn_id: 0, party_id: 1 });
}

#[test]
fn rollback_of_other_party_changes_nothing() {
    let mut blocks = registry(4);
    let mut block = Block::new(1);
    block.new_conn_handler(&mut blocks);
    block.run_action(&mut blocks, 0, Action::InitialLoad, &vec![10]);
    block.initial_load_failed(0, 5);
    block.initial_load_failed(3, 0);
    assert_eq!(block.clients[0].party_id, Some(0));
}
