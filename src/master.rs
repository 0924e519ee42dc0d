//! The ship's side of the master-ship channel.
//!
//! Requests and responses share one connection and are matched by call id
//! alone. [`CallTable`] is the reader's record of calls in flight;
//! [`MasterConnection`] holds what the ship needs to decide on the replies to
//! its login and registration; [`check_host_key`] is the trust-on-first-use
//! check on the master's key.

use vstd::prelude::*;
use vstd::slice::slice_to_vec;

verus! {

/// Reply to a ship login.
#[derive(Clone, Copy, Debug, PartialEq, Eq, Structural)]
pub enum ShipLoginResult {
    Success,
    UnknownShip,
}

/// Reply to a ship registration.
#[derive(Clone, Copy, Debug, PartialEq, Eq, Structural)]
pub enum RegisterShipResult {
    Success,
    AlreadyTaken,
}

/// A ship as announced to the master. `ip` is the IPv4 address as a
/// big-endian integer.
#[derive(Clone, Debug, PartialEq, Eq)]
pub struct ShipInfo {
    pub ip: u32,
    pub id: u32,
    pub port: u16,
    pub name: String,
    pub max_players: u32,
}

/// Body of a frame on the master-ship channel.
#[derive(Clone, Debug, PartialEq, Eq)]
pub enum MasterShipAction {
    ShipLogin { psk: Vec<u8> },
    ShipLoginResult(ShipLoginResult),
    RegisterShip(ShipInfo),
    RegisterShipResult(RegisterShipResult),
    UnregisterShip(u32),
    Error(u32),
}

/// One frame: the call id and the action it carries.
#[derive(Clone, Debug, PartialEq, Eq)]
pub struct MasterShipComm {
    pub id: u32,
    pub action: MasterShipAction,
}

/// Ways in which a master-ship call fails.
#[derive(Clone, Copy, Debug, PartialEq, Eq, Structural)]
pub enum MasterError {
    /// The channel closed before the reply came.
    NoResponse,
    /// The master does not know the pre-shared key.
    InvalidPsk,
    /// The master answered with a variant that does not fit the request.
    Unexpected,
    /// The master reported an error with this code.
    Master(u32),
    /// Every call id has been used.
    IdsExhausted,
}

/// `h` is the completion handle registered for call `id`.
pub open spec fn holds<H>(s: Seq<(u32, H)>, id: u32, h: H) -> bool {
    exists|i: int| 0 <= i < s.len() && s[i] == (id, h)
}

/// Call `id` is waiting for its reply.
pub open spec fn is_pending<H>(s: Seq<(u32, H)>, id: u32) -> bool {
    exists|i: int| 0 <= i < s.len() && s[i].0 == id
}

/// Calls in flight on the master channel: the next id to hand out and, for
/// each call that waits for its reply, the handle that the reply goes to.
#[derive(Debug)]
pub struct CallTable<H> {
    pub next_id: u32,
    pub pending: Vec<(u32, H)>,
}

/// Outcome of issuing a call with completion handle `h`: the next id, or
/// `None` once the ids are used up.
pub open spec fn issues<H>(t: CallTable<H>, h: H, r: Option<u32>, n: CallTable<H>) -> bool {
    &&& r is None <==> t.next_id == u32::MAX
    &&& r is None ==> n.next_id == t.next_id && n.pending@ == t.pending@
    &&& r is Some ==> {
        &&& r == Some(t.next_id)
        &&& n.next_id == t.next_id + 1
        &&& forall|k: u32, g: H| holds(n.pending@, k, g) <==> holds(t.pending@, k, g) || (k
            == t.next_id && g == h)
    }
}

/// Outcome of a reply frame with call id `id`: the handle of that call, which
/// then stops waiting, or `None` when no call waits for that id.
pub open spec fn completes<H>(t: CallTable<H>, id: u32, r: Option<H>, n: CallTable<H>) -> bool {
    &&& n.next_id == t.next_id
    &&& r is Some <==> is_pending(t.pending@, id)
    &&& r matches Some(h) ==> holds(t.pending@, id, h)
    &&& forall|k: u32, g: H| holds(n.pending@, k, g) <==> holds(t.pending@, k, g) && k != id
}

impl<H> CallTable<H> {
    /// Each waiting call has its own id, and every id is below the next one.
    pub open spec fn wf(&self) -> bool {
        &&& forall|i: int, j: int|
            0 <= i < self.pending@.len() && 0 <= j < self.pending@.len() && i != j
                ==> self.pending@[i].0 != self.pending@[j].0
        &&& forall|i: int| 0 <= i < self.pending@.len() ==> self.pending@[i].0 < self.next_id
    }

    /// A table with no calls, whose first call gets `first_id`.
    pub fn new(first_id: u32) -> (r: CallTable<H>)
        ensures
            r.wf(),
            r.next_id == first_id,
            r.pending@.len() == 0,
    {
        CallTable { next_id: first_id, pending: Vec::new() }
    }

    /// Gives the call with completion handle `chan` the next id and records it
    /// as waiting.
    pub fn issue(&mut self, chan: H) -> (r: Option<u32>)
        requires
            old(self).wf(),
        ensures
            final(self).wf(),
            issues(*old(self), chan, r, *final(self)),
    {
        if self.next_id == u32::MAX {
            return None;
        }
        let id = self.next_id;
        self.pending.push((id, chan));
        self.next_id = id + 1;
        proof {
            let o = old(self).pending@;
            let s = self.pending@;
            assert forall|k: u32, g: H| holds(s, k, g) <==> holds(o, k, g) || (k == id && g
                == chan) by {
                if holds(s, k, g) {
                    let i = choose|i: int| 0 <= i < s.len() && s[i] == (k, g);
                    if i < o.len() {
                        assert(o[i] == (k, g));
                    }
                }
                if holds(o, k, g) {
                    let i = choose|i: int| 0 <= i < o.len() && o[i] == (k, g);
                    assert(s[i] == (k, g));
                }
                if k == id && g == chan {
                    assert(s[o.len() as int] == (k, g));
                }
            }
        }
        Some(id)
    }

    /// Routes a reply frame with call id `id`: hands back the handle of that
    /// call and forgets it. A call that was abandoned after a failed write
    /// goes the same way, its handle dropped by the caller.
    pub fn complete(&mut self, id: u32) -> (r: Option<H>)
        requires
            old(self).wf(),
        ensures
            final(self).wf(),
            completes(*old(self), id, r, *final(self)),
    {
        let mut i: usize = 0;
        while i < self.pending.len()
            invariant
                0 <= i <= self.pending@.len(),
                self.pending@ == old(self).pending@,
                self.next_id == old(self).next_id,
                self.wf(),
                forall|j: int| 0 <= j < i ==> self.pending@[j].0 != id,
            decreases self.pending@.len() - i,
        {
            if self.pending[i].0 == id {
                let (_, h) = self.pending.swap_remove(i);
                proof {
                    let o = old(self).pending@;
                    let s = self.pending@;
                    assert forall|k: u32, g: H| holds(s, k, g) <==> holds(o, k, g) && k
                        != id by {
                        if holds(s, k, g) {
                            let j = choose|j: int| 0 <= j < s.len() && s[j] == (k, g);
                            if j == i {
                                assert(o[o.len() - 1] == (k, g));
                                assert(o[o.len() - 1].0 != o[i as int].0);
                            } else {
                                assert(o[j] == (k, g));
                                assert(o[j].0 != o[i as int].0);
                            }
                        }
                        if holds(o, k, g) && k != id {
                            let j = choose|j: int| 0 <= j < o.len() && o[j] == (k, g);
                            if j == o.len() - 1 {
                                assert(s[i as int] == (k, g));
                            } else {
                                assert(s[j] == (k, g));
                            }
                        }
                    }
                    assert(o[i as int] == (id, h));
                    assert forall|a: int, b: int|
                        0 <= a < s.len() && 0 <= b < s.len() && a != b implies s[a].0
                        != s[b].0 by {
                        if a == i {
                            assert(s[a] == o[o.len() - 1]);
                            assert(s[b] == o[b]);
                        } else if b == i {
                            assert(s[b] == o[o.len() - 1]);
                            assert(s[a] == o[a]);
                        } else {
                            assert(s[a] == o[a]);
                            assert(s[b] == o[b]);
                        }
                    }
                    assert forall|a: int| 0 <= a < s.len() implies s[a].0 < self.next_id by {
                        if a == i {
                            assert(s[a] == o[o.len() - 1]);
                        }
                    }
                }
                return Some(h);
            }
            i = i + 1;
        }
        proof {
            let o = old(self).pending@;
            assert forall|k: u32, g: H| holds(o, k, g) implies k != id by {
                let j = choose|j: int| 0 <= j < o.len() && o[j] == (k, g);
                assert(o[j].0 != id);
            }
        }
        None
    }
}

/// A call is completed at most once: once its reply has been routed, a second
/// frame with the same id finds no call, also after further calls were issued.
pub proof fn lemma_completed_at_most_once<H>(
    t0: CallTable<H>,
    id: u32,
    h: H,
    t1: CallTable<H>,
    g: H,
    r2: Option<u32>,
    t2: CallTable<H>,
    r3: Option<H>,
    t3: CallTable<H>,
)
    requires
        t0.wf(),
        completes(t0, id, Some(h), t1),
        issues(t1, g, r2, t2),
        completes(t2, id, r3, t3),
    ensures
        r3 is None,
{
    let i = choose|i: int| 0 <= i < t0.pending@.len() && t0.pending@[i] == (id, h);
    assert(t0.pending@[i].0 < t0.next_id);
    if is_pending(t2.pending@, id) {
        let j = choose|j: int| 0 <= j < t2.pending@.len() && t2.pending@[j].0 == id;
        let e = t2.pending@[j];
        assert(holds(t2.pending@, e.0, e.1));
        assert(!holds(t1.pending@, e.0, e.1));
    }
}

/// Replies are routed by call id whatever their order: of two calls issued in
/// turn, answering the second first hands each reply to its own caller.
pub proof fn lemma_out_of_order_routing<H>(
    t0: CallTable<H>,
    h1: H,
    i1: u32,
    t1: CallTable<H>,
    h2: H,
    i2: u32,
    t2: CallTable<H>,
    r2: Option<H>,
    t3: CallTable<H>,
    r1: Option<H>,
    t4: CallTable<H>,
)
    requires
        t0.wf(),
        issues(t0, h1, Some(i1), t1),
        issues(t1, h2, Some(i2), t2),
        completes(t2, i2, r2, t3),
        completes(t3, i1, r1, t4),
    ensures
        r2 == Some(h2),
        r1 == Some(h1),
{
    assert(holds(t1.pending@, i1, h1));
    assert(holds(t2.pending@, i1, h1));
    assert(holds(t2.pending@, i2, h2));
    assert(is_pending(t2.pending@, i2)) by {
        let j = choose|j: int| 0 <= j < t2.pending@.len() && t2.pending@[j] == (i2, h2);
        assert(t2.pending@[j].0 == i2);
    }
    let g2 = r2->Some_0;
    assert(holds(t2.pending@, i2, g2));
    if g2 != h2 {
        assert(holds(t1.pending@, i2, g2));
        assert(holds(t0.pending@, i2, g2) || i2 == t0.next_id);
        if holds(t0.pending@, i2, g2) {
            let j = choose|j: int| 0 <= j < t0.pending@.len() && t0.pending@[j] == (i2, g2);
            assert(t0.pending@[j].0 < t0.next_id);
        }
    }
    assert(holds(t3.pending@, i1, h1));
    assert(is_pending(t3.pending@, i1)) by {
        let j = choose|j: int| 0 <= j < t3.pending@.len() && t3.pending@[j] == (i1, h1);
        assert(t3.pending@[j].0 == i1);
    }
    let g1 = r1->Some_0;
    assert(holds(t3.pending@, i1, g1));
    if g1 != h1 {
        assert(holds(t1.pending@, i1, g1));
        if holds(t0.pending@, i1, g1) {
            let j = choose|j: int| 0 <= j < t0.pending@.len() && t0.pending@[j] == (i1, g1);
            assert(t0.pending@[j].0 < t0.next_id);
        }
    }
}

/// What the reply to a call is to its caller: the delivered frame, or
/// `NoResponse` when the reader dropped the call first.
pub fn call_result(reply: Option<MasterShipAction>) -> (r: Result<MasterShipAction, MasterError>)
    ensures
        match reply {
            Some(a) => r == Ok::<MasterShipAction, MasterError>(a),
            None => r == Err::<MasterShipAction, MasterError>(MasterError::NoResponse),
        },
{
    match reply {
        Some(a) => Ok(a),
        None => Err(MasterError::NoResponse),
    }
}

/// The ship's state on a logged-in master channel.
#[derive(Clone, Debug, PartialEq, Eq)]
pub struct MasterConnection {
    /// Local IPv4 address of the channel's socket, as a big-endian integer.
    pub local_addr: u32,
    /// The ship id that the master accepted a registration for, if any.
    pub ship_id: Option<u32>,
}

/// The message that dropping the channel sends: an unregistration of the
/// registered ship, if there is one.
pub open spec fn drop_message(c: MasterConnection) -> Option<MasterShipAction> {
    match c.ship_id {
        Some(id) => Some(MasterShipAction::UnregisterShip(id)),
        None => None,
    }
}

/// The channel after the master answered a registration of `ship_id`.
pub open spec fn registers(
    c: MasterConnection,
    ship_id: u32,
    reply: MasterShipAction,
    r: Result<RegisterShipResult, MasterError>,
    n: MasterConnection,
) -> bool {
    &&& n.local_addr == c.local_addr
    &&& match reply {
        MasterShipAction::RegisterShipResult(x) => {
            &&& r == Ok::<RegisterShipResult, MasterError>(x)
            &&& n.ship_id == (if x == RegisterShipResult::Success {
                Some(ship_id)
            } else {
                c.ship_id
            })
        },
        MasterShipAction::Error(e) => {
            &&& r == Err::<RegisterShipResult, MasterError>(MasterError::Master(e))
            &&& n.ship_id == c.ship_id
        },
        _ => {
            &&& r == Err::<RegisterShipResult, MasterError>(MasterError::Unexpected)
            &&& n.ship_id == c.ship_id
        },
    }
}

impl MasterConnection {
    /// The login request that opens the channel.
    pub fn login_request(psk: &[u8]) -> (r: MasterShipAction)
        ensures
            r matches MasterShipAction::ShipLogin { psk: p } && p@ == psk@,
    {
        MasterShipAction::ShipLogin { psk: slice_to_vec(psk) }
    }

    /// Gates the channel on the master's reply to the login: only a
    /// successful login gives a usable channel, with no ship registered.
    pub fn new(local_addr: u32, login_reply: MasterShipAction) -> (r: Result<
        MasterConnection,
        MasterError,
    >)
        ensures
            match login_reply {
                MasterShipAction::ShipLoginResult(ShipLoginResult::Success) => r matches Ok(c)
                    && c.local_addr == local_addr && c.ship_id is None,
                MasterShipAction::ShipLoginResult(ShipLoginResult::UnknownShip) => r == Err::<
                    MasterConnection,
                    MasterError,
                >(MasterError::InvalidPsk),
                _ => r == Err::<MasterConnection, MasterError>(MasterError::Unexpected),
            },
            r matches Ok(c) ==> drop_message(c) is None,
    {
        match login_reply {
            MasterShipAction::ShipLoginResult(ShipLoginResult::Success) => Ok(
                MasterConnection { local_addr, ship_id: None },
            ),
            MasterShipAction::ShipLoginResult(ShipLoginResult::UnknownShip) => Err(
                MasterError::InvalidPsk,
            ),
            _ => Err(MasterError::Unexpected),
        }
    }

    /// The registration request for `info`, with the ship's address set to
    /// the channel's local address.
    pub fn register_request(&self, info: ShipInfo) -> (r: MasterShipAction)
        ensures
            r == MasterShipAction::RegisterShip(ShipInfo { ip: self.local_addr, ..info }),
    {
        let mut info = info;
        info.ip = self.local_addr;
        MasterShipAction::RegisterShip(info)
    }

    /// Decides on the master's reply to a registration of `ship_id`. A
    /// successful registration is remembered for the unregistration on drop;
    /// an error reply or another variant is surfaced as such.
    pub fn register_ship(&mut self, ship_id: u32, reply: MasterShipAction) -> (r: Result<
        RegisterShipResult,
        MasterError,
    >)
        ensures
            registers(*old(self), ship_id, reply, r, *final(self)),
    {
        match reply {
            MasterShipAction::RegisterShipResult(x) => {
                if let RegisterShipResult::Success = x {
                    self.ship_id = Some(ship_id);
                }
                Ok(x)
            },
            MasterShipAction::Error(e) => Err(MasterError::Master(e)),
            _ => Err(MasterError::Unexpected),
        }
    }

    /// The message to send when the channel is dropped: one unregistration of
    /// the registered ship, or nothing when no registration succeeded.
    pub fn unregister_on_drop(&self) -> (r: Option<MasterShipAction>)
        ensures
            r == drop_message(*self),
    {
        match self.ship_id {
            Some(id) => Some(MasterShipAction::UnregisterShip(id)),
            None => None,
        }
    }
}

/// Dropping a channel sends an unregistration only for a registration that
/// succeeded: after the master accepts ship `ship_id`, the drop sends exactly
/// one `UnregisterShip(ship_id)`; after any other reply, the drop sends what it
/// would have sent before.
pub proof fn lemma_unregister_after_registration(
    c: MasterConnection,
    ship_id: u32,
    reply: MasterShipAction,
    r: Result<RegisterShipResult, MasterError>,
    n: MasterConnection,
)
    requires
        registers(c, ship_id, reply, r, n),
    ensures
        r == Ok::<RegisterShipResult, MasterError>(RegisterShipResult::Success) ==> drop_message(n)
            == Some(MasterShipAction::UnregisterShip(ship_id)),
        r != Ok::<RegisterShipResult, MasterError>(RegisterShipResult::Success) ==> drop_message(n)
            == drop_message(c),
{
}

/// A pinned master key.
#[derive(Clone, Debug, PartialEq, Eq)]
pub struct HostKey {
    pub ip: u32,
    pub key: Vec<u8>,
}

/// `i` is the first pin for `ip`.
pub open spec fn is_first_pin(keys: Seq<HostKey>, ip: u32, i: int) -> bool {
    &&& 0 <= i < keys.len()
    &&& keys[i].ip == ip
    &&& forall|j: int| 0 <= j < i ==> keys[j].ip != ip
}

/// Some pin exists for `ip`.
pub open spec fn has_pin(keys: Seq<HostKey>, ip: u32) -> bool {
    exists|i: int| 0 <= i < keys.len() && keys[i].ip == ip
}

/// One trust-on-first-use check: a pinned address is accepted only with its
/// pinned key; an unseen address is accepted and its key pinned at the end.
pub open spec fn tofu_step(
    keys: Seq<HostKey>,
    ip: u32,
    key: Seq<u8>,
    r: bool,
    n: Seq<HostKey>,
) -> bool {
    &&& forall|i: int| is_first_pin(keys, ip, i) ==> r == (keys[i].key@ == key) && n == keys
    &&& !has_pin(keys, ip) ==> {
        &&& r
        &&& n.len() == keys.len() + 1
        &&& forall|j: int| 0 <= j < keys.len() ==> n[j] == keys[j]
        &&& n[keys.len() as int].ip == ip
        &&& n[keys.len() as int].key@ == key
    }
}

/// Byte-wise equality of two keys.
fn same_bytes(a: &[u8], b: &[u8]) -> (r: bool)
    ensures
        r == (a@ == b@),
{
    if a.len() != b.len() {
        return false;
    }
    let mut i: usize = 0;
    while i < a.len()
        invariant
            a@.len() == b@.len(),
            0 <= i <= a@.len(),
            forall|j: int| 0 <= j < i ==> a@[j] == b@[j],
        decreases a@.len() - i,
    {
        if a[i] != b[i] {
            return false;
        }
        i = i + 1;
    }
    assert(a@ =~= b@);
    true
}

/// Verifies the master's key during the handshake, pinning the key of an
/// address seen for the first time.
pub fn check_host_key(keys: &mut Vec<HostKey>, ip: u32, key: &[u8]) -> (r: bool)
    ensures
        tofu_step(old(keys)@, ip, key@, r, final(keys)@),
{
    let mut i: usize = 0;
    while i < keys.len()
        invariant
            0 <= i <= keys@.len(),
            keys@ == old(keys)@,
            forall|j: int| 0 <= j < i ==> keys@[j].ip != ip,
        decreases keys@.len() - i,
    {
        if keys[i].ip == ip {
            let r = same_bytes(keys[i].key.as_slice(), key);
            proof {
                assert forall|k: int| is_first_pin(old(keys)@, ip, k) implies k == i by {
                    if k > i {
                        assert(old(keys)@[i as int].ip == ip);
                    }
                }
            }
            return r;
        }
        i = i + 1;
    }
    keys.push(HostKey { ip, key: slice_to_vec(key) });
    true
}

/// Trust on first use: an address seen for the first time is accepted with
/// any key and that key is pinned; later, the same address is refused with a
/// different key and accepted with the pinned one.
pub proof fn lemma_trust_on_first_use(
    k0: Seq<HostKey>,
    ip: u32,
    key1: Seq<u8>,
    key2: Seq<u8>,
    r1: bool,
    k1: Seq<HostKey>,
    r2: bool,
    k2: Seq<HostKey>,
    r3: bool,
    k3: Seq<HostKey>,
)
    requires
        !has_pin(k0, ip),
        key1 != key2,
        tofu_step(k0, ip, key1, r1, k1),
        tofu_step(k1, ip, key2, r2, k2),
        tofu_step(k2, ip, key1, r3, k3),
    ensures
        r1,
        !r2,
        r3,
        k3 == k1,
{
    let i = k0.len() as int;
    assert(is_first_pin(k1, ip, i)) by {
        assert forall|j: int| 0 <= j < i implies k1[j].ip != ip by {
            assert(k1[j] == k0[j]);
        }
    }
    assert(k2 == k1);
    assert(is_first_pin(k2, ip, i));
}

/// Once an address is pinned, its pin alone decides: the pinned key is
/// accepted, any other key is refused, and the pins stay as they were.
pub proof fn lemma_pinned_key_decides(
    keys: Seq<HostKey>,
    ip: u32,
    key: Seq<u8>,
    r: bool,
    n: Seq<HostKey>,
)
    requires
        has_pin(keys, ip),
        tofu_step(keys, ip, key, r, n),
    ensures
        n == keys,
        exists|i: int| is_first_pin(keys, ip, i) && (r <==> keys[i].key@ == key),
{
    let j = choose|j: int| 0 <= j < keys.len() && keys[j].ip == ip;
    lemma_first_pin_exists(keys, ip, j);
}

/// A pinned address has a first pin.
proof fn lemma_first_pin_exists(keys: Seq<HostKey>, ip: u32, j: int)
    requires
        0 <= j < keys.len(),
        keys[j].ip == ip,
    ensures
        exists|i: int| is_first_pin(keys, ip, i),
    decreases j,
{
    if exists|k: int| 0 <= k < j && keys[k].ip == ip {
        let k = choose|k: int| 0 <= k < j && keys[k].ip == ip;
        lemma_first_pin_exists(keys, ip, k);
    } else {
        assert(is_first_pin(keys, ip, j));
    }
}

} // verus!
