//! Per-block connection registry and action dispatcher.
//!
//! One dispatcher owns the list of live connections of a block and is the only
//! writer of that block's entry in the ship-wide block registry. Connection
//! actors never touch shared state themselves: they hand an [`Action`] to the
//! dispatcher, which applies it here and returns the [`Effect`] that the
//! runtime has to carry out on the session objects.

use vstd::prelude::*;

verus! {

/// One entry of the ship-wide block registry.
#[derive(Clone, Debug, PartialEq, Eq)]
pub struct BlockInfo {
    pub id: u32,
    pub name: String,
    pub port: u16,
    pub players: u32,
    pub max_players: u32,
}

/// Cross-connection intent emitted by a connection actor.
#[derive(Clone, Copy, Debug, PartialEq, Eq, Structural)]
pub enum Action {
    Nothing,
    Disconnect,
    InitialLoad,
    SendPartyInvite(u32),
}

/// What the runtime has to do after the dispatcher applied an action.
#[derive(Clone, Copy, Debug, PartialEq, Eq, Structural)]
pub enum Effect {
    /// Nothing to do.
    Nothing,
    /// Drop the session of the connection that was removed.
    Close { conn_id: usize },
    /// Attach the session to the lobby, give it a one-member party with this
    /// id, add it to the lobby's active players and mark it as in game.
    JoinLobby { conn_id: usize, party_id: u32 },
    /// Send a party invite from one live connection to another.
    Invite { inviter: usize, invitee: usize },
}

/// Dispatcher's record of one live connection.
#[derive(Clone, Copy, Debug, PartialEq, Eq, Structural)]
pub struct Connection {
    pub conn_id: usize,
    /// Party given to the connection at its initial load.
    pub party_id: Option<u32>,
}

/// State owned by the dispatcher of one block.
#[derive(Clone, Debug, PartialEq, Eq)]
pub struct Block {
    pub block_id: u32,
    pub clients: Vec<Connection>,
    pub next_conn_id: usize,
    pub latest_partyid: u32,
}

/// `i` is the first registry entry with the given block id.
pub open spec fn is_first_block(s: Seq<BlockInfo>, id: u32, i: int) -> bool {
    &&& 0 <= i < s.len()
    &&& s[i].id == id
    &&& forall|j: int| 0 <= j < i ==> s[j].id != id
}

/// The registry has an entry for the given block id.
pub open spec fn has_block(s: Seq<BlockInfo>, id: u32) -> bool {
    exists|i: int| 0 <= i < s.len() && s[i].id == id
}

/// Every entry but the one at `i` is the same in both registries, and the one
/// at `i` differs at most in its player count.
pub open spec fn same_except_players(a: Seq<BlockInfo>, b: Seq<BlockInfo>, i: int) -> bool {
    &&& a.len() == b.len()
    &&& forall|j: int| 0 <= j < a.len() && j != i ==> a[j] == b[j]
    &&& a[i].id == b[i].id
    &&& a[i].name == b[i].name
    &&& a[i].port == b[i].port
    &&& a[i].max_players == b[i].max_players
}

/// The party id handed out after `x`: the counter wraps as a 32-bit atomic.
pub open spec fn next_party(x: u32) -> u32 {
    if x == u32::MAX { 0 } else { (x + 1) as u32 }
}

/// Position of a live connection in the list, if it is there.
pub open spec fn conn_pos(s: Seq<Connection>, conn_id: usize, i: int) -> bool {
    0 <= i < s.len() && s[i].conn_id == conn_id
}

/// The connection is in the live list.
pub open spec fn is_live(s: Seq<Connection>, conn_id: usize) -> bool {
    exists|i: int| conn_pos(s, conn_id, i)
}

impl Block {
    /// Connection ids are strictly increasing in list order and all below the
    /// next id to be given out, so no id is ever handed out twice.
    pub open spec fn wf(&self) -> bool {
        &&& forall|i: int, j: int|
            0 <= i < j < self.clients@.len() ==> self.clients@[i].conn_id
                < self.clients@[j].conn_id
        &&& forall|i: int|
            0 <= i < self.clients@.len() ==> self.clients@[i].conn_id < self.next_conn_id
    }

    /// The block's registry entry counts exactly the live connections.
    pub open spec fn counts_match(&self, blocks: Seq<BlockInfo>) -> bool {
        forall|i: int|
            is_first_block(blocks, self.block_id, i) ==> blocks[i].players
                == self.clients@.len()
    }

    /// Capacity is respected by the block's registry entry.
    pub open spec fn within_capacity(&self, blocks: Seq<BlockInfo>) -> bool {
        forall|i: int|
            is_first_block(blocks, self.block_id, i) ==> blocks[i].players
                <= blocks[i].max_players
    }

    /// A dispatcher with no connections yet.
    pub fn new(block_id: u32) -> (r: Block)
        ensures
            r.wf(),
            r.block_id == block_id,
            r.clients@.len() == 0,
            r.next_conn_id == 0,
            r.latest_partyid == 0,
    {
        Block { block_id, clients: Vec::new(), next_conn_id: 0, latest_partyid: 0 }
    }
}

/// A connection attempt is refused: the block's registry entry is full, or
/// every connection id has been handed out.
pub open spec fn refuses(b: Block, blocks: Seq<BlockInfo>) -> bool {
    ||| exists|i: int|
        is_first_block(blocks, b.block_id, i) && blocks[i].players >= blocks[i].max_players
    ||| b.next_conn_id == usize::MAX
}

/// What deciding on a connection attempt does.
pub open spec fn accepts(
    b: Block,
    blocks: Seq<BlockInfo>,
    r: Option<usize>,
    n: Block,
    nblocks: Seq<BlockInfo>,
) -> bool {
    &&& n.block_id == b.block_id
    &&& n.latest_partyid == b.latest_partyid
    &&& r is None <==> refuses(b, blocks)
    &&& r is None ==> n.clients@ == b.clients@ && n.next_conn_id == b.next_conn_id && nblocks
        == blocks
    &&& r is Some ==> {
        &&& r == Some(b.next_conn_id)
        &&& n.clients@ == b.clients@.push(Connection { conn_id: b.next_conn_id, party_id: None })
        &&& n.next_conn_id == b.next_conn_id + 1
        &&& forall|i: int|
            is_first_block(blocks, b.block_id, i) ==> same_except_players(blocks, nblocks, i)
                && nblocks[i].players == blocks[i].players + 1
        &&& !has_block(blocks, b.block_id) ==> nblocks == blocks
    }
}

impl Block {
    /// Decides on a freshly accepted socket. A full block refuses it silently:
    /// the result is `None`, nothing changes, and the runtime closes the socket.
    /// Otherwise the block's player count goes up by one, the connection gets
    /// the next id and joins the live list, and that id is returned so that the
    /// runtime spawns the connection's actor under it.
    pub fn new_conn_handler(&mut self, blocks: &mut Vec<BlockInfo>) -> (r: Option<usize>)
        requires
            old(self).wf(),
        ensures
            final(self).wf(),
            final(self).block_id == old(self).block_id,
            final(self).latest_partyid == old(self).latest_partyid,
            accepts(*old(self), old(blocks)@, r, *final(self), final(blocks)@),
            old(self).counts_match(old(blocks)@) ==> final(self).counts_match(final(blocks)@),
            old(self).within_capacity(old(blocks)@) ==> final(self).within_capacity(
                final(blocks)@,
            ),
    {
        let found = find_block(blocks, self.block_id);
        if let Some(i) = found {
            if blocks[i].players >= blocks[i].max_players {
                return None;
            }
        }
        if self.next_conn_id == usize::MAX {
            proof {
                if let Some(i) = found {
                    assert(!(exists|k: int|
                        is_first_block(old(blocks)@, self.block_id, k)
                            && old(blocks)@[k].players >= old(blocks)@[k].max_players)) by {
                        assert forall|k: int|
                            is_first_block(old(blocks)@, self.block_id, k) implies k == i by {
                            if k < i {
                                assert(old(blocks)@[k].id != self.block_id);
                            }
                            if k > i {
                                assert(old(blocks)@[i as int].id != self.block_id);
                            }
                        }
                    }
                }
            }
            return None;
        }
        if let Some(i) = found {
            let players = blocks[i].players + 1;
            set_players(blocks, i, players);
        }
        let conn_id = self.next_conn_id;
        self.clients.push(Connection { conn_id, party_id: None });
        self.next_conn_id = conn_id + 1;
        proof {
            first_block_unique(old(blocks)@, self.block_id);
            first_block_stable(old(blocks)@, blocks@, self.block_id);
        }
        Some(conn_id)
    }
}

/// Position of a live connection in the list.
fn find_conn(clients: &Vec<Connection>, conn_id: usize) -> (r: Option<usize>)
    ensures
        match r {
            Some(p) => conn_pos(clients@, conn_id, p as int),
            None => !is_live(clients@, conn_id),
        },
{
    let mut i: usize = 0;
    while i < clients.len()
        invariant
            0 <= i <= clients@.len(),
            forall|j: int| 0 <= j < i ==> clients@[j].conn_id != conn_id,
        decreases clients@.len() - i,
    {
        if clients[i].conn_id == conn_id {
            return Some(i);
        }
        i = i + 1;
    }
    None
}

/// `k` is the first connection whose session reports the player id `target`.
pub open spec fn first_with_player(ids: Seq<u32>, target: u32, k: int) -> bool {
    &&& 0 <= k < ids.len()
    &&& ids[k] == target
    &&& forall|j: int| 0 <= j < k ==> ids[j] != target
}

/// Linear scan for the first connection whose session reports `target`.
fn find_player(player_ids: &Vec<u32>, target: u32) -> (r: Option<usize>)
    ensures
        match r {
            Some(k) => first_with_player(player_ids@, target, k as int),
            None => forall|j: int| 0 <= j < player_ids@.len() ==> player_ids@[j] != target,
        },
{
    let mut i: usize = 0;
    while i < player_ids.len()
        invariant
            0 <= i <= player_ids@.len(),
            forall|j: int| 0 <= j < i ==> player_ids@[j] != target,
        decreases player_ids@.len() - i,
    {
        if player_ids[i] == target {
            return Some(i);
        }
        i = i + 1;
    }
    None
}

/// The registry after a disconnect: the block's first entry loses one player.
pub open spec fn players_dropped(a: Seq<BlockInfo>, b: Seq<BlockInfo>, id: u32) -> bool {
    &&& forall|i: int|
        is_first_block(a, id, i) ==> same_except_players(a, b, i) && b[i].players == (if a[i].players
            > 0 {
            a[i].players - 1
        } else {
            0
        })
    &&& !has_block(a, id) ==> b == a
}

/// What applying `action` from `conn_id` does; an action from a connection
/// that is not live changes nothing.
pub open spec fn applies(
    b: Block,
    blocks: Seq<BlockInfo>,
    conn_id: usize,
    action: Action,
    ids: Seq<u32>,
    r: Effect,
    n: Block,
    nblocks: Seq<BlockInfo>,
) -> bool {
    &&& n.block_id == b.block_id
    &&& !is_live(b.clients@, conn_id) ==> r == Effect::Nothing && n.clients@ == b.clients@
        && n.latest_partyid == b.latest_partyid && nblocks == blocks
    &&& forall|p: int|
        #[trigger] conn_pos(b.clients@, conn_id, p) ==> match action {
            Action::Nothing => {
                &&& r == Effect::Nothing
                &&& n.clients@ == b.clients@
                &&& n.latest_partyid == b.latest_partyid
                &&& nblocks == blocks
            },
            Action::Disconnect => {
                &&& r == Effect::Close { conn_id }
                &&& n.clients@ == b.clients@.remove(p)
                &&& n.latest_partyid == b.latest_partyid
                &&& players_dropped(blocks, nblocks, b.block_id)
            },
            Action::InitialLoad => {
                &&& nblocks == blocks
                &&& b.clients@[p].party_id is Some ==> {
                    &&& r == Effect::Nothing
                    &&& n.clients@ == b.clients@
                    &&& n.latest_partyid == b.latest_partyid
                }
                &&& b.clients@[p].party_id is None ==> {
                    &&& r == Effect::JoinLobby {
                        conn_id,
                        party_id: b.latest_partyid,
                    }
                    &&& n.clients@ == b.clients@.update(
                        p,
                        Connection { conn_id, party_id: Some(b.latest_partyid) },
                    )
                    &&& n.latest_partyid == next_party(
                        b.latest_partyid,
                    )
                }
            },
            Action::SendPartyInvite(target) => {
                &&& n.clients@ == b.clients@
                &&& n.latest_partyid == b.latest_partyid
                &&& nblocks == blocks
                &&& forall|k: int|
                    first_with_player(ids, target, k) ==> r == Effect::Invite {
                        inviter: conn_id,
                        invitee: b.clients@[k].conn_id,
                    }
                &&& (forall|j: int|
                    0 <= j < ids.len() ==> ids[j] != target) ==> r
                    == Effect::Nothing
            },
        }
}

impl Block {
    /// Applies one action that the connection `conn_id` emitted.
    ///
    /// `player_ids[k]` is the player id that the session of `clients[k]`
    /// reports. An action from a connection that is no longer live is dropped.
    /// `Disconnect` removes the connection and takes one player off the block's
    /// registry entry. `InitialLoad` allocates a party id for a connection that
    /// has none yet; a repeated one changes nothing. `SendPartyInvite` names the
    /// first live connection whose player matches, or is dropped when none does.
    pub fn run_action(
        &mut self,
        blocks: &mut Vec<BlockInfo>,
        conn_id: usize,
        action: Action,
        player_ids: &Vec<u32>,
    ) -> (r: Effect)
        requires
            old(self).wf(),
            player_ids@.len() == old(self).clients@.len(),
        ensures
            final(self).wf(),
            final(self).block_id == old(self).block_id,
            final(self).next_conn_id == old(self).next_conn_id,
            applies(*old(self), old(blocks)@, conn_id, action, player_ids@, r, *final(self), final(blocks)@),
            old(self).counts_match(old(blocks)@) ==> final(self).counts_match(final(blocks)@),
            old(self).within_capacity(old(blocks)@) ==> final(self).within_capacity(
                final(blocks)@,
            ),
    {
        let pos = match find_conn(&self.clients, conn_id) {
            Some(p) => p,
            None => return Effect::Nothing,
        };
        proof {
            conn_pos_unique(self.clients@, conn_id);
        }
        match action {
            Action::Nothing => Effect::Nothing,
            Action::Disconnect => {
                self.clients.remove(pos);
                if let Some(i) = find_block(blocks, self.block_id) {
                    let players = if blocks[i].players > 0 {
                        blocks[i].players - 1
                    } else {
                        0
                    };
                    set_players(blocks, i, players);
                }
                proof {
                    first_block_unique(old(blocks)@, self.block_id);
                    first_block_stable(old(blocks)@, blocks@, self.block_id);
                    assert forall|i: int, j: int|
                        0 <= i < j < self.clients@.len() implies self.clients@[i].conn_id
                        < self.clients@[j].conn_id by {
                        if i >= pos {
                            assert(self.clients@[i] == old(self).clients@[i + 1]);
                        }
                        if j >= pos {
                            assert(self.clients@[j] == old(self).clients@[j + 1]);
                        }
                    }
                }
                Effect::Close { conn_id }
            },
            Action::InitialLoad => {
                if self.clients[pos].party_id.is_some() {
                    return Effect::Nothing;
                }
                let party_id = self.latest_partyid;
                self.latest_partyid = if party_id == u32::MAX {
                    0
                } else {
                    party_id + 1
                };
                self.clients.set(pos, Connection { conn_id, party_id: Some(party_id) });
                Effect::JoinLobby { conn_id, party_id }
            },
            Action::SendPartyInvite(target) => {
                match find_player(player_ids, target) {
                    Some(k) => {
                        proof {
                            first_player_unique(player_ids@, target);
                        }
                        Effect::Invite { inviter: conn_id, invitee: self.clients[k].conn_id }
                    },
                    None => Effect::Nothing,
                }
            },
        }
    }
}

/// A connection id occurs at most once in a well-formed list.
proof fn conn_pos_unique(s: Seq<Connection>, conn_id: usize)
    requires
        forall|i: int, j: int| 0 <= i < j < s.len() ==> s[i].conn_id < s[j].conn_id,
    ensures
        forall|i: int, k: int| conn_pos(s, conn_id, i) && conn_pos(s, conn_id, k) ==> i == k,
{
}

/// There is at most one first connection reporting a player id.
proof fn first_player_unique(s: Seq<u32>, target: u32)
    ensures
        forall|i: int, k: int|
            first_with_player(s, target, i) && first_with_player(s, target, k) ==> i == k,
{
    assert forall|i: int, k: int|
        first_with_player(s, target, i) && first_with_player(s, target, k) implies i == k by {
        if i < k {
            assert(s[i] == target);
        }
        if k < i {
            assert(s[k] == target);
        }
    }
}

/// There is at most one first entry for a block id.
proof fn first_block_unique(s: Seq<BlockInfo>, id: u32)
    ensures
        forall|i: int, k: int| is_first_block(s, id, i) && is_first_block(s, id, k) ==> i == k,
{
    assert forall|i: int, k: int|
        is_first_block(s, id, i) && is_first_block(s, id, k) implies i == k by {
        if i < k {
            assert(s[i].id != id);
        }
        if k < i {
            assert(s[k].id != id);
        }
    }
}

/// Changing player counts keeps which entry comes first for a block id.
proof fn first_block_stable(a: Seq<BlockInfo>, b: Seq<BlockInfo>, id: u32)
    requires
        a.len() == b.len(),
        forall|j: int| 0 <= j < a.len() ==> a[j].id == b[j].id,
    ensures
        forall|i: int| is_first_block(a, id, i) <==> is_first_block(b, id, i),
        has_block(a, id) <==> has_block(b, id),
{
    if has_block(a, id) {
        let i = choose|i: int| 0 <= i < a.len() && a[i].id == id;
        assert(b[i].id == id);
    }
    if has_block(b, id) {
        let i = choose|i: int| 0 <= i < b.len() && b[i].id == id;
        assert(a[i].id == id);
    }
}

/// Sets the player count of one registry entry, leaving the rest as it was.
fn set_players(blocks: &mut Vec<BlockInfo>, i: usize, players: u32)
    requires
        i < old(blocks)@.len(),
    ensures
        same_except_players(old(blocks)@, final(blocks)@, i as int),
        final(blocks)@[i as int].players == players,
{
    blocks[i].players = players;
}

/// Index of the first registry entry with the given block id.
pub fn find_block(blocks: &Vec<BlockInfo>, id: u32) -> (r: Option<usize>)
    ensures
        match r {
            Some(i) => is_first_block(blocks@, id, i as int),
            None => !has_block(blocks@, id),
        },
{
    let mut i: usize = 0;
    while i < blocks.len()
        invariant
            0 <= i <= blocks@.len(),
            forall|j: int| 0 <= j < i ==> blocks@[j].id != id,
        decreases blocks@.len() - i,
    {
        if blocks[i].id == id {
            return Some(i);
        }
        i = i + 1;
    }
    None
}

impl Block {
    /// Undoes the party given at an initial load whose lobby join the runtime
    /// could not complete, so that a later initial load of the connection is
    /// carried out again. Nothing changes unless the connection is live and
    /// holds exactly that party.
    pub fn initial_load_failed(&mut self, conn_id: usize, party_id: u32)
        requires
            old(self).wf(),
        ensures
            final(self).wf(),
            final(self).block_id == old(self).block_id,
            final(self).next_conn_id == old(self).next_conn_id,
            final(self).latest_partyid == old(self).latest_partyid,
            forall|p: int|
                conn_pos(old(self).clients@, conn_id, p) && old(self).clients@[p].party_id == Some(
                    party_id,
                ) ==> final(self).clients@ == old(self).clients@.update(
                    p,
                    Connection { conn_id, party_id: None },
                ),
            (forall|p: int|
                conn_pos(old(self).clients@, conn_id, p) ==> old(self).clients@[p].party_id != Some(
                    party_id,
                )) ==> final(self).clients@ == old(self).clients@,
    {
        proof {
            conn_pos_unique(self.clients@, conn_id);
        }
        if let Some(pos) = find_conn(&self.clients, conn_id) {
            if self.clients[pos].party_id == Some(party_id) {
                self.clients.set(pos, Connection { conn_id, party_id: None });
            }
        }
    }
}

/// The block's player count equals its number of live connections, and stays
/// within capacity, whatever connection attempt comes next.
pub proof fn lemma_accept_keeps_count(
    b: Block,
    s: Seq<BlockInfo>,
    r: Option<usize>,
    n: Block,
    ns: Seq<BlockInfo>,
)
    requires
        b.counts_match(s),
        b.within_capacity(s),
        accepts(b, s, r, n, ns),
    ensures
        n.counts_match(ns),
        n.within_capacity(ns),
{
    let id = b.block_id;
    first_block_unique(s, id);
    if r is Some && has_block(s, id) {
        let i = choose|i: int| 0 <= i < s.len() && s[i].id == id;
        first_block_exists(s, id, i);
        let k = choose|k: int| is_first_block(s, id, k);
        assert(same_except_players(s, ns, k));
        assert forall|j: int| 0 <= j < s.len() implies s[j].id == ns[j].id by {
            if j != k {
                assert(s[j] == ns[j]);
            }
        }
        first_block_stable(s, ns, id);
        assert(!refuses(b, s));
    } else if r is Some {
        first_block_stable(s, ns, id);
    }
}

/// The block's player count equals its number of live connections, and stays
/// within capacity, whatever action is applied next.
pub proof fn lemma_action_keeps_count(
    b: Block,
    s: Seq<BlockInfo>,
    conn_id: usize,
    action: Action,
    ids: Seq<u32>,
    r: Effect,
    n: Block,
    ns: Seq<BlockInfo>,
)
    requires
        b.wf(),
        b.counts_match(s),
        b.within_capacity(s),
        applies(b, s, conn_id, action, ids, r, n, ns),
    ensures
        n.counts_match(ns),
        n.within_capacity(ns),
{
    let id = b.block_id;
    if is_live(b.clients@, conn_id) {
        let p = choose|p: int| conn_pos(b.clients@, conn_id, p);
        assert(conn_pos(b.clients@, conn_id, p));
        if action is Disconnect {
            first_block_unique(s, id);
            if has_block(s, id) {
                let i = choose|i: int| 0 <= i < s.len() && s[i].id == id;
                first_block_exists(s, id, i);
                let k = choose|k: int| is_first_block(s, id, k);
                assert(same_except_players(s, ns, k));
                assert forall|j: int| 0 <= j < s.len() implies s[j].id == ns[j].id by {
                    if j != k {
                        assert(s[j] == ns[j]);
                    }
                }
            }
            first_block_stable(s, ns, id);
        }
    }
}

/// A block id that occurs has a first occurrence.
proof fn first_block_exists(s: Seq<BlockInfo>, id: u32, i: int)
    requires
        0 <= i < s.len(),
        s[i].id == id,
    ensures
        exists|k: int| is_first_block(s, id, k),
    decreases i,
{
    if exists|j: int| 0 <= j < i && s[j].id == id {
        let j = choose|j: int| 0 <= j < i && s[j].id == id;
        first_block_exists(s, id, j);
    } else {
        assert(is_first_block(s, id, i));
    }
}

/// One step of the dispatcher: a connection attempt, or an action from some
/// connection with the sessions' player ids.
pub open spec fn dispatcher_step(b: Block, s: Seq<BlockInfo>, n: Block, ns: Seq<BlockInfo>) -> bool {
    ||| exists|r: Option<usize>| #[trigger] accepts(b, s, r, n, ns)
    ||| exists|conn_id: usize, action: Action, ids: Seq<u32>, r: Effect|
        #[trigger] applies(b, s, conn_id, action, ids, r, n, ns)
}

/// Over any run of the dispatcher that starts with no connections and the
/// block's registry entry at zero players, the entry counts exactly the live
/// connections after every step and never exceeds the block's capacity.
pub proof fn lemma_players_track_live_connections(bs: Seq<Block>, ss: Seq<Seq<BlockInfo>>)
    requires
        bs.len() == ss.len(),
        bs.len() > 0,
        forall|i: int| 0 <= i < bs.len() ==> #[trigger] bs[i].wf(),
        bs[0].clients@.len() == 0,
        forall|i: int| is_first_block(ss[0], bs[0].block_id, i) ==> ss[0][i].players == 0,
        forall|i: int|
            0 <= i < bs.len() - 1 ==> dispatcher_step(bs[i], ss[i], bs[i + 1], #[trigger] ss[i + 1]),
    ensures
        forall|i: int|
            0 <= i < bs.len() ==> #[trigger] bs[i].counts_match(ss[i]) && bs[i].within_capacity(
                ss[i],
            ),
    decreases bs.len(),
{
    if bs.len() > 1 {
        let k = bs.len() - 1;
        let pb = bs.drop_last();
        let ps = ss.drop_last();
        assert forall|i: int| 0 <= i < pb.len() - 1 implies dispatcher_step(
            pb[i],
            ps[i],
            pb[i + 1],
            #[trigger] ps[i + 1],
        ) by {
            assert(dispatcher_step(bs[i], ss[i], bs[i + 1], ss[i + 1]));
        }
        assert forall|i: int| 0 <= i < pb.len() implies #[trigger] pb[i].wf() by {
            assert(bs[i].wf());
        }
        lemma_players_track_live_connections(pb, ps);
        assert(pb[k - 1] == bs[k - 1] && ps[k - 1] == ss[k - 1]);
        assert(bs[k - 1].counts_match(ss[k - 1]) && bs[k - 1].within_capacity(ss[k - 1]));
        let j = k - 1;
        assert(dispatcher_step(bs[j], ss[j], bs[j + 1], ss[j + 1]));
        assert(bs[k - 1].wf());
        if exists|r: Option<usize>| #[trigger] accepts(bs[k - 1], ss[k - 1], r, bs[k], ss[k]) {
            let r = choose|r: Option<usize>| #[trigger] accepts(bs[k - 1], ss[k - 1], r, bs[k], ss[k]);
            lemma_accept_keeps_count(bs[k - 1], ss[k - 1], r, bs[k], ss[k]);
        } else {
            let (c, a, ids, r) = choose|c: usize, a: Action, ids: Seq<u32>, r: Effect|
                #[trigger] applies(bs[k - 1], ss[k - 1], c, a, ids, r, bs[k], ss[k]);
            lemma_action_keeps_count(bs[k - 1], ss[k - 1], c, a, ids, r, bs[k], ss[k]);
        }
        assert forall|i: int| 0 <= i < bs.len() implies #[trigger] bs[i].counts_match(ss[i])
            && bs[i].within_capacity(ss[i]) by {
            if i < k {
                assert(pb[i] == bs[i] && ps[i] == ss[i]);
                assert(pb[i].counts_match(ps[i]));
            }
        }
    } else {
        assert(bs[0].counts_match(ss[0]));
    }
}

/// Result of one tick of a connection's protocol state machine.
#[derive(Clone, Copy, Debug, PartialEq, Eq, Structural)]
pub enum TickOutcome {
    /// The tick completed with this action.
    Done(Action),
    /// The non-blocking socket had nothing to read.
    WouldBlock,
    /// The client went away.
    ConnectionAborted,
    /// Any other failure.
    Failed,
}

/// What a connection's actor does after a tick.
#[derive(Clone, Copy, Debug, PartialEq, Eq, Structural)]
pub enum ActorStep {
    /// Tick again.
    Continue,
    /// Queue the action for the dispatcher and tick again.
    Send(Action),
    /// Queue a disconnect for the dispatcher and stop.
    Stop,
    /// Send the client an error notice, ignoring its failure, and tick again.
    ReportError,
}

/// The actor's decision after one tick: idle ticks and would-block loop
/// again, a disconnect or an aborted connection ends the actor with a
/// `Disconnect` to the dispatcher, another action is handed to the
/// dispatcher, and any other failure is reported to the client.
pub fn actor_step(outcome: TickOutcome) -> (r: ActorStep)
    ensures
        r == match outcome {
            TickOutcome::Done(Action::Nothing) => ActorStep::Continue,
            TickOutcome::Done(Action::Disconnect) => ActorStep::Stop,
            TickOutcome::Done(a) => ActorStep::Send(a),
            TickOutcome::WouldBlock => ActorStep::Continue,
            TickOutcome::ConnectionAborted => ActorStep::Stop,
            TickOutcome::Failed => ActorStep::ReportError,
        },
{
    match outcome {
        TickOutcome::Done(Action::Nothing) => ActorStep::Continue,
        TickOutcome::Done(Action::Disconnect) => ActorStep::Stop,
        TickOutcome::Done(a) => ActorStep::Send(a),
        TickOutcome::WouldBlock => ActorStep::Continue,
        TickOutcome::ConnectionAborted => ActorStep::Stop,
        TickOutcome::Failed => ActorStep::ReportError,
    }
}

/// An initial load queued twice for one live connection leaves it with exactly
/// one party: the second application changes nothing, so the connection joins
/// the lobby at most once, and afterwards it holds a party id.
pub proof fn lemma_initial_load_idempotent(
    b0: Block,
    s0: Seq<BlockInfo>,
    conn_id: usize,
    ids0: Seq<u32>,
    r1: Effect,
    b1: Block,
    s1: Seq<BlockInfo>,
    ids1: Seq<u32>,
    r2: Effect,
    b2: Block,
    s2: Seq<BlockInfo>,
)
    requires
        b0.wf(),
        is_live(b0.clients@, conn_id),
        applies(b0, s0, conn_id, Action::InitialLoad, ids0, r1, b1, s1),
        applies(b1, s1, conn_id, Action::InitialLoad, ids1, r2, b2, s2),
    ensures
        r2 == Effect::Nothing,
        b2.clients@ == b1.clients@,
        b2.latest_partyid == b1.latest_partyid,
        s2 == s0,
        !(r1 is JoinLobby && r2 is JoinLobby),
        exists|p: int| conn_pos(b2.clients@, conn_id, p) && b2.clients@[p].party_id is Some,
{
    let p = choose|p: int| conn_pos(b0.clients@, conn_id, p);
    assert(conn_pos(b0.clients@, conn_id, p));
    if b0.clients@[p].party_id is None {
        assert(b1.clients@[p] == Connection { conn_id, party_id: Some(b0.latest_partyid) });
    }
    assert(conn_pos(b1.clients@, conn_id, p));
    assert(b1.clients@[p].party_id is Some);
    assert(conn_pos(b2.clients@, conn_id, p));
}

} // verus!
