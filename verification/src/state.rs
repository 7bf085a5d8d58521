//! Rooms, peers and the room registry.
//!
//! A room holds at most two peers; each peer carries an outbound FIFO queue
//! of signaling messages. The registry maps room ids to rooms and offers the
//! create / join / leave / relay / status operations, plus eviction of rooms
//! that have stayed empty past the idle threshold.
//!
//! Every operation is specified against a mathematical model: `PeerView`,
//! `RoomView` and `RegistryView` mirror the executable structures with
//! sequences, and each mutating operation's contract equates the new state
//! with a spec-level transition function on these views.

use vstd::prelude::*;

use crate::models::WsMessage;
use crate::MAX_PEERS_PER_ROOM;

verus! {

/// Idle threshold in milliseconds: an empty room must stay empty at least
/// this long before it becomes eligible for eviction.
pub const ROOM_TIMEOUT_MS: u64 = 300_000;

/// Model of a connected peer: its identifier, the messages queued for it
/// (oldest first), and the time it joined.
#[verifier::ext_equal]
pub ghost struct PeerView {
    pub id: Seq<char>,
    pub outbox: Seq<WsMessage>,
    pub joined_at: u64,
}

/// Model of a room: its identifier, its peers in insertion order, and its
/// activity timestamps.
#[verifier::ext_equal]
pub ghost struct RoomView {
    pub id: Seq<char>,
    pub peers: Seq<PeerView>,
    pub created_at: u64,
    pub last_activity: u64,
}

impl RoomView {
    /// Room invariant: at most two peers, with pairwise distinct identifiers.
    pub open spec fn wf(self) -> bool {
        &&& self.peers.len() <= MAX_PEERS_PER_ROOM
        &&& forall|i: int, j: int|
            0 <= i < j < self.peers.len() ==> self.peers[i].id != self.peers[j].id
    }

    pub open spec fn is_full(self) -> bool {
        self.peers.len() >= MAX_PEERS_PER_ROOM
    }

    pub open spec fn has_peer(self, peer_id: Seq<char>) -> bool {
        exists|i: int| 0 <= i < self.peers.len() && self.peers[i].id == peer_id
    }

    /// Index of the peer with the given id; meaningful when `has_peer` holds
    /// and, under `wf`, unique.
    pub open spec fn peer_idx(self, peer_id: Seq<char>) -> int {
        choose|i: int| 0 <= i < self.peers.len() && self.peers[i].id == peer_id
    }

    /// A room is inactive when it has no peers and its last activity lies at
    /// least the idle threshold in the past.
    pub open spec fn is_inactive(self, now: u64) -> bool {
        &&& self.peers.len() == 0
        &&& self.last_activity <= now
        &&& now - self.last_activity >= ROOM_TIMEOUT_MS
    }

    /// The room after enqueueing `m` for every peer other than `sender`.
    pub open spec fn spec_broadcast_to_others(self, sender: Seq<char>, m: WsMessage) -> RoomView {
        RoomView {
            peers: self.peers.map_values(
                |p: PeerView|
                    if p.id != sender {
                        PeerView { outbox: p.outbox.push(m), ..p }
                    } else {
                        p
                    },
            ),
            ..self
        }
    }

    /// The room after enqueueing `m` for every peer.
    pub open spec fn spec_broadcast_to_all(self, m: WsMessage) -> RoomView {
        RoomView {
            peers: self.peers.map_values(|p: PeerView| PeerView { outbox: p.outbox.push(m), ..p }),
            ..self
        }
    }

    /// The room after inserting peer `p` at time `now`.
    pub open spec fn spec_add(self, p: PeerView, now: u64) -> RoomView {
        RoomView { peers: self.peers.push(p), last_activity: now, ..self }
    }

    /// The room after admitting a fresh peer (empty queue) at time `now`.
    pub open spec fn spec_add_peer(self, peer_id: Seq<char>, now: u64) -> RoomView {
        self.spec_add(PeerView { id: peer_id, outbox: Seq::empty(), joined_at: now }, now)
    }

    /// An empty room created at time `now`.
    pub open spec fn spec_new(id: Seq<char>, now: u64) -> RoomView {
        RoomView { id, peers: Seq::empty(), created_at: now, last_activity: now }
    }

    /// The room after removing the peer with the given id (if present) at
    /// time `now`. The timestamp advances even when no peer matches.
    pub open spec fn spec_remove_peer(self, peer_id: Seq<char>, now: u64) -> RoomView {
        if self.has_peer(peer_id) {
            RoomView { peers: self.peers.remove(self.peer_idx(peer_id)), last_activity: now, ..self }
        } else {
            RoomView { last_activity: now, ..self }
        }
    }
}

/// A connected peer in a room: identity plus the outbound message queue
/// that the peer's connection drains to the wire.
#[derive(Debug)]
pub struct Peer {
    pub id: String,
    pub outbox: Vec<WsMessage>,
    pub joined_at: u64,
}

impl View for Peer {
    type V = PeerView;

    open spec fn view(&self) -> PeerView {
        PeerView { id: self.id@, outbox: self.outbox@, joined_at: self.joined_at }
    }
}

impl Peer {
    pub fn new(id: String, now: u64) -> (p: Peer)
        ensures
            p@ == (PeerView { id: id@, outbox: Seq::<WsMessage>::empty(), joined_at: now }),
    {
        let p = Peer { id, outbox: Vec::new(), joined_at: now };
        proof {
            assert(p@.outbox =~= Seq::<WsMessage>::empty());
        }
        p
    }
}

/// A video chat room containing up to two peers.
#[derive(Debug)]
pub struct Room {
    pub id: String,
    pub peers: Vec<Peer>,
    pub created_at: u64,
    pub last_activity: u64,
}

impl View for Room {
    type V = RoomView;

    open spec fn view(&self) -> RoomView {
        RoomView {
            id: self.id@,
            peers: self.peers@.map_values(|p: Peer| p@),
            created_at: self.created_at,
            last_activity: self.last_activity,
        }
    }
}

impl Room {
    pub fn new(id: String, now: u64) -> (r: Room)
        ensures
            r@ == RoomView::spec_new(id@, now),
    {
        let r = Room { id, peers: Vec::new(), created_at: now, last_activity: now };
        proof {
            assert(r@.peers =~= Seq::<PeerView>::empty());
        }
        r
    }

    /// True iff the room is at capacity.
    pub fn is_full(&self) -> (b: bool)
        ensures
            b == self@.is_full(),
    {
        self.peers.len() >= MAX_PEERS_PER_ROOM
    }

    /// Add a peer; rejected when the room is already at capacity.
    pub fn add_peer(&mut self, peer: Peer, now: u64) -> (r: Result<(), &'static str>)
        ensures
            old(self)@.is_full() ==> {
                &&& r matches Err(e) && e@ == "Room is full"@
                &&& *final(self) == *old(self)
            },
            !old(self)@.is_full() ==> {
                &&& r matches Ok(())
                &&& final(self)@ == old(self)@.spec_add(peer@, now)
            },
    {
        if self.is_full() {
            return Err("Room is full");
        }
        let ghost pv = peer@;
        self.peers.push(peer);
        self.last_activity = now;
        proof {
            assert(self@.peers =~= old(self)@.peers.push(pv));
        }
        Ok(())
    }

    /// Remove the peer with the given id, returning it if it was present.
    /// The activity timestamp advances in either case.
    pub fn remove_peer(&mut self, peer_id: &String, now: u64) -> (r: Option<Peer>)
        requires
            old(self)@.wf(),
        ensures
            final(self)@ == old(self)@.spec_remove_peer(peer_id@, now),
            r matches Some(p) ==> old(self)@.has_peer(peer_id@) && p@ == old(self)@.peers[old(
                self,
            )@.peer_idx(peer_id@)],
            r is None ==> !old(self)@.has_peer(peer_id@),
    {
        self.last_activity = now;
        let n = self.peers.len();
        for i in 0..n
            invariant
                n == self.peers.len(),
                self.peers@ == old(self).peers@,
                self.id == old(self).id,
                self.created_at == old(self).created_at,
                self.last_activity == now,
                forall|j: int| 0 <= j < i ==> self.peers@[j].id@ != peer_id@,
                old(self)@.wf(),
        {
            if self.peers[i].id == *peer_id {
                proof {
                    assert(old(self)@.peers[i as int].id == peer_id@);
                    assert(old(self)@.has_peer(peer_id@));
                    let k = old(self)@.peer_idx(peer_id@);
                    assert(0 <= k < old(self)@.peers.len() && old(self)@.peers[k].id == peer_id@);
                    assert(k == i as int);
                }
                let p = self.peers.remove(i);
                proof {
                    assert(self@.peers =~= old(self)@.peers.remove(i as int));
                }
                return Some(p);
            }
        }
        proof {
            assert(!old(self)@.has_peer(peer_id@));
            assert(self@ =~= old(self)@.spec_remove_peer(peer_id@, now));
        }
        None
    }

    /// First peer whose id differs from `current_peer_id`, if any.
    pub fn get_other_peer(&self, current_peer_id: &String) -> (r: Option<&Peer>)
        ensures
            r matches Some(p) ==> exists|i: int|
                {
                    &&& 0 <= i < self@.peers.len()
                    &&& p@ == self@.peers[i]
                    &&& self@.peers[i].id != current_peer_id@
                    &&& forall|j: int| 0 <= j < i ==> self@.peers[j].id == current_peer_id@
                },
            r is None ==> forall|j: int|
                0 <= j < self@.peers.len() ==> self@.peers[j].id == current_peer_id@,
    {
        let n = self.peers.len();
        for i in 0..n
            invariant
                n == self.peers.len(),
                forall|j: int| 0 <= j < i ==> self@.peers[j].id == current_peer_id@,
        {
            if !(self.peers[i].id == *current_peer_id) {
                let p = &self.peers[i];
                proof {
                    let wi = i as int;
                    assert(0 <= wi < self@.peers.len() && p@ == self@.peers[wi] && self@.peers[wi].id
                        != current_peer_id@ && (forall|j: int|
                        0 <= j < wi ==> self@.peers[j].id == current_peer_id@));
                }
                return Some(p);
            }
        }
        None
    }

    /// Enqueue `msg` on every peer whose id differs from `sender_id`.
    pub fn broadcast_to_others(&mut self, sender_id: &String, msg: &WsMessage)
        ensures
            final(self)@ == old(self)@.spec_broadcast_to_others(sender_id@, *msg),
    {
        let n = self.peers.len();
        for i in 0..n
            invariant
                n == self.peers.len(),
                self.id == old(self).id,
                self.created_at == old(self).created_at,
                self.last_activity == old(self).last_activity,
                forall|j: int|
                    0 <= j < i ==> self.peers@[j]@ == (if old(self).peers@[j]@.id != sender_id@ {
                        PeerView {
                            outbox: old(self).peers@[j]@.outbox.push(*msg),
                            ..old(self).peers@[j]@
                        }
                    } else {
                        old(self).peers@[j]@
                    }),
                forall|j: int| i <= j < n ==> self.peers@[j] == old(self).peers@[j],
        {
            if !(self.peers[i].id == *sender_id) {
                self.peers[i].outbox.push(msg.clone());
            }
        }
        proof {
            assert(self@.peers =~= old(self)@.spec_broadcast_to_others(sender_id@, *msg).peers);
        }
    }

    /// Enqueue `msg` on every peer.
    pub fn broadcast_to_all(&mut self, msg: &WsMessage)
        ensures
            final(self)@ == old(self)@.spec_broadcast_to_all(*msg),
    {
        let n = self.peers.len();
        for i in 0..n
            invariant
                n == self.peers.len(),
                self.id == old(self).id,
                self.created_at == old(self).created_at,
                self.last_activity == old(self).last_activity,
                forall|j: int|
                    0 <= j < i ==> self.peers@[j]@ == (PeerView {
                        outbox: old(self).peers@[j]@.outbox.push(*msg),
                        ..old(self).peers@[j]@
                    }),
                forall|j: int| i <= j < n ==> self.peers@[j] == old(self).peers@[j],
        {
            self.peers[i].outbox.push(msg.clone());
        }
        proof {
            assert(self@.peers =~= old(self)@.spec_broadcast_to_all(*msg).peers);
        }
    }

    /// True iff the room is empty and has been idle at least the threshold.
    pub fn is_inactive(&self, now: u64) -> (b: bool)
        ensures
            b == self@.is_inactive(now),
    {
        self.peers.len() == 0 && now >= self.last_activity && now - self.last_activity
            >= ROOM_TIMEOUT_MS
    }
}

/// Model of the registry: the rooms in insertion order.
#[verifier::ext_equal]
pub ghost struct RegistryView {
    pub rooms: Seq<RoomView>,
}

impl RegistryView {
    /// Registry invariant: every room is well formed and room ids are
    /// pairwise distinct.
    pub open spec fn wf(self) -> bool {
        &&& forall|i: int| 0 <= i < self.rooms.len() ==> (#[trigger] self.rooms[i]).wf()
        &&& forall|i: int, j: int|
            0 <= i < j < self.rooms.len() ==> self.rooms[i].id != self.rooms[j].id
    }

    pub open spec fn has_room(self, id: Seq<char>) -> bool {
        exists|i: int| 0 <= i < self.rooms.len() && self.rooms[i].id == id
    }

    /// Index of the room with the given id; meaningful when `has_room` holds
    /// and, under `wf`, unique.
    pub open spec fn room_idx(self, id: Seq<char>) -> int {
        choose|i: int| 0 <= i < self.rooms.len() && self.rooms[i].id == id
    }

    pub open spec fn room(self, id: Seq<char>) -> RoomView {
        self.rooms[self.room_idx(id)]
    }

    /// Peers in the room with the given id; an unknown room counts as empty.
    pub open spec fn peer_count(self, id: Seq<char>) -> nat {
        if self.has_room(id) {
            self.room(id).peers.len()
        } else {
            0
        }
    }

    pub open spec fn room_has_peer(self, id: Seq<char>, peer_id: Seq<char>) -> bool {
        self.has_room(id) && self.room(id).has_peer(peer_id)
    }

    /// The registry after `create_room`: inserts an empty room when the id is
    /// absent and is the identity otherwise.
    pub open spec fn spec_create_room(self, id: Seq<char>, now: u64) -> RegistryView {
        if self.has_room(id) {
            self
        } else {
            RegistryView { rooms: self.rooms.push(RoomView::spec_new(id, now)) }
        }
    }

    /// Admission succeeds iff the room is absent (it will be created) or not
    /// yet at capacity.
    pub open spec fn join_ok(self, id: Seq<char>) -> bool {
        !self.has_room(id) || !self.room(id).is_full()
    }

    /// The registry after a successful join: the room is created if absent,
    /// and the fresh peer is appended to it at time `now`.
    pub open spec fn spec_join(self, id: Seq<char>, peer_id: Seq<char>, now: u64) -> RegistryView {
        if self.has_room(id) {
            RegistryView {
                rooms: self.rooms.update(self.room_idx(id), self.room(id).spec_add_peer(peer_id, now)),
            }
        } else {
            RegistryView { rooms: self.rooms.push(RoomView::spec_new(id, now).spec_add_peer(peer_id, now)) }
        }
    }

    /// The registry after `leave_room`: when the room exists its matching
    /// peer (if any) is removed and `Leave` then `RoomInfo` are enqueued for
    /// the survivors; the room itself stays for the reaper.
    pub open spec fn spec_leave(self, id: Seq<char>, peer_id: Seq<char>, now: u64) -> RegistryView {
        if self.has_room(id) {
            let r = self.room(id);
            let r2 = if r.has_peer(peer_id) {
                let shrunk = r.spec_remove_peer(peer_id, now);
                shrunk.spec_broadcast_to_all(WsMessage::Leave).spec_broadcast_to_all(
                    WsMessage::RoomInfo { peer_count: shrunk.peers.len() as usize },
                )
            } else {
                r.spec_remove_peer(peer_id, now)
            };
            RegistryView { rooms: self.rooms.update(self.room_idx(id), r2) }
        } else {
            self
        }
    }

    /// The registry after `relay_message`: `m` is enqueued for every peer of
    /// the room other than the sender, and the room's activity advances; a
    /// missing room is ignored.
    pub open spec fn spec_relay(
        self,
        id: Seq<char>,
        sender: Seq<char>,
        m: WsMessage,
        now: u64,
    ) -> RegistryView {
        if self.has_room(id) {
            RegistryView {
                rooms: self.rooms.update(
                    self.room_idx(id),
                    RoomView { last_activity: now, ..self.room(id).spec_broadcast_to_others(sender, m) },
                ),
            }
        } else {
            self
        }
    }

    /// The registry after a reaper tick at time `now`: exactly the rooms
    /// that are not inactive remain, in order.
    pub open spec fn spec_cleanup(self, now: u64) -> RegistryView {
        RegistryView { rooms: self.rooms.filter(|r: RoomView| !r.is_inactive(now)) }
    }

    /// The registry after draining one peer's queue.
    pub open spec fn spec_take_outbox(self, id: Seq<char>, peer_id: Seq<char>) -> RegistryView {
        if self.room_has_peer(id, peer_id) {
            let r = self.room(id);
            let k = r.peer_idx(peer_id);
            let p = r.peers[k];
            RegistryView {
                rooms: self.rooms.update(
                    self.room_idx(id),
                    RoomView { peers: r.peers.update(k, PeerView { outbox: Seq::empty(), ..p }), ..r },
                ),
            }
        } else {
            self
        }
    }
}

/// Broadcasting changes only the peers' queues: the peer ids, their order
/// and the room's other fields stay, so well-formedness is preserved.
pub proof fn lemma_broadcast_to_all_preserves_wf(r: RoomView, m: WsMessage)
    ensures
        r.spec_broadcast_to_all(m).peers.len() == r.peers.len(),
        forall|j: int|
            0 <= j < r.peers.len() ==> #[trigger] r.spec_broadcast_to_all(m).peers[j].id
                == r.peers[j].id,
        r.wf() ==> r.spec_broadcast_to_all(m).wf(),
{
    let r2 = r.spec_broadcast_to_all(m);
    if r.wf() {
        assert forall|a: int, b: int| 0 <= a < b < r2.peers.len() implies r2.peers[a].id
            != r2.peers[b].id by {
            assert(r2.peers[a].id == r.peers[a].id);
            assert(r2.peers[b].id == r.peers[b].id);
        }
    }
}

/// Broadcasting to the other peers changes only their queues: ids, order
/// and the room's other fields stay, so well-formedness is preserved.
pub proof fn lemma_broadcast_to_others_preserves_wf(r: RoomView, sender: Seq<char>, m: WsMessage)
    ensures
        r.spec_broadcast_to_others(sender, m).peers.len() == r.peers.len(),
        forall|j: int|
            0 <= j < r.peers.len() ==> #[trigger] r.spec_broadcast_to_others(sender, m).peers[j].id
                == r.peers[j].id,
        r.wf() ==> r.spec_broadcast_to_others(sender, m).wf(),
{
    let r2 = r.spec_broadcast_to_others(sender, m);
    if r.wf() {
        assert forall|a: int, b: int| 0 <= a < b < r2.peers.len() implies r2.peers[a].id
            != r2.peers[b].id by {
            assert(r2.peers[a].id == r.peers[a].id);
            assert(r2.peers[b].id == r.peers[b].id);
        }
    }
}

/// Removing a peer keeps the remaining peers' ids (shifted left past the
/// removed position), so well-formedness is preserved.
pub proof fn lemma_remove_peer_preserves_wf(r: RoomView, peer_id: Seq<char>, now: u64)
    requires
        r.wf(),
    ensures
        r.spec_remove_peer(peer_id, now).wf(),
        r.spec_remove_peer(peer_id, now).peers.len() == if r.has_peer(peer_id) {
            r.peers.len() - 1
        } else {
            r.peers.len() as int
        },
{
    if r.has_peer(peer_id) {
        let k = r.peer_idx(peer_id);
        assert(0 <= k < r.peers.len() && r.peers[k].id == peer_id);
        r.peers.remove_ensures(k);
        let r2 = r.spec_remove_peer(peer_id, now);
        assert forall|a: int, b: int| 0 <= a < b < r2.peers.len() implies r2.peers[a].id
            != r2.peers[b].id by {
            let oa: int = if a < k {
                a
            } else {
                a + 1
            };
            let ob: int = if b < k {
                b
            } else {
                b + 1
            };
            assert(r2.peers[a] == r.peers[oa]);
            assert(r2.peers[b] == r.peers[ob]);
        }
    }
}

/// Filtering a sequence of well-formed rooms with pairwise distinct ids
/// yields well-formed rooms with pairwise distinct ids, each taken from the
/// original sequence.
pub proof fn lemma_filter_rooms_wf(s: Seq<RoomView>, pred: spec_fn(RoomView) -> bool)
    requires
        forall|i: int| 0 <= i < s.len() ==> (#[trigger] s[i]).wf(),
        forall|i: int, j: int| 0 <= i < j < s.len() ==> s[i].id != s[j].id,
    ensures
        forall|i: int| 0 <= i < s.filter(pred).len() ==> s.contains(#[trigger] s.filter(pred)[i]),
        forall|i: int| 0 <= i < s.filter(pred).len() ==> (#[trigger] s.filter(pred)[i]).wf(),
        forall|i: int, j: int|
            0 <= i < j < s.filter(pred).len() ==> s.filter(pred)[i].id != s.filter(pred)[j].id,
    decreases s.len(),
{
    reveal(Seq::filter);
    if s.len() == 0 {
    } else {
        let d = s.drop_last();
        let last = s.last();
        lemma_filter_rooms_wf(d, pred);
        let out = s.filter(pred);
        let sub = d.filter(pred);
        assert forall|i: int| 0 <= i < out.len() implies s.contains(#[trigger] out[i]) by {
            if i < sub.len() {
                assert(out[i] == sub[i]);
                let j = choose|j: int| 0 <= j < d.len() && d[j] == sub[i];
                assert(s[j] == sub[i]);
            } else {
                assert(out[i] == last);
                assert(s[s.len() - 1] == last);
            }
        }
        assert forall|i: int| 0 <= i < out.len() implies (#[trigger] out[i]).wf() by {
            let j = choose|j: int| 0 <= j < s.len() && s[j] == out[i];
            assert(s[j].wf());
        }
        assert forall|i: int, j: int| 0 <= i < j < out.len() implies out[i].id != out[j].id by {
            if j < sub.len() {
                assert(out[i] == sub[i] && out[j] == sub[j]);
            } else {
                assert(out[j] == last);
                assert(out[i] == sub[i]);
                let k = choose|k: int| 0 <= k < d.len() && d[k] == sub[i];
                assert(s[k] == sub[i]);
                assert(s[k].id != s[s.len() - 1].id);
            }
        }
    }
}

/// Under `wf`, a position whose room carries the sought id is the unique
/// such position, so `room_idx` picks it.
pub proof fn lemma_room_idx_of(v: RegistryView, id: Seq<char>, i: int)
    requires
        v.wf(),
        0 <= i < v.rooms.len(),
        v.rooms[i].id == id,
    ensures
        v.has_room(id),
        v.room_idx(id) == i,
        v.room(id) == v.rooms[i],
{
    assert(v.has_room(id));
    let k = v.room_idx(id);
    assert(0 <= k < v.rooms.len() && v.rooms[k].id == id);
    if k < i {
        assert(v.rooms[k].id != v.rooms[i].id);
    } else if i < k {
        assert(v.rooms[i].id != v.rooms[k].id);
    }
}

/// The room registry: the process-wide mapping from room id to room. The
/// embedding program serializes access to it behind a single lock; the
/// operations themselves are sequential state transitions.
#[derive(Debug)]
pub struct AppState {
    pub rooms: Vec<Room>,
}

impl View for AppState {
    type V = RegistryView;

    open spec fn view(&self) -> RegistryView {
        RegistryView { rooms: self.rooms@.map_values(|r: Room| r@) }
    }
}

impl AppState {
    pub fn new() -> (s: AppState)
        ensures
            s@ == (RegistryView { rooms: Seq::<RoomView>::empty() }),
            s@.wf(),
    {
        let s = AppState { rooms: Vec::new() };
        proof {
            assert(s@.rooms =~= Seq::<RoomView>::empty());
        }
        s
    }

    /// Position of the room with the given id, if any.
    fn find_room(&self, room_id: &String) -> (r: Option<usize>)
        ensures
            r matches Some(i) ==> i < self.rooms.len() && self@.rooms[i as int].id == room_id@,
            r is None ==> !self@.has_room(room_id@),
    {
        let n = self.rooms.len();
        for i in 0..n
            invariant
                n == self.rooms.len(),
                forall|j: int| 0 <= j < i ==> self@.rooms[j].id != room_id@,
        {
            if self.rooms[i].id == *room_id {
                return Some(i);
            }
        }
        None
    }

    /// Create a room with the given id if it does not exist yet; idempotent.
    /// Returns the id.
    pub fn create_room(&mut self, room_id: String, now: u64) -> (r: String)
        requires
            old(self)@.wf(),
        ensures
            final(self)@ == old(self)@.spec_create_room(room_id@, now),
            final(self)@.wf(),
            final(self)@.has_room(room_id@),
            final(self)@.peer_count(room_id@) == old(self)@.peer_count(room_id@),
            r@ == room_id@,
    {
        match self.find_room(&room_id) {
            Some(i) => {
                proof {
                    lemma_room_idx_of(self@, room_id@, i as int);
                }
            },
            None => {
                let room = Room::new(room_id.clone(), now);
                self.rooms.push(room);
                proof {
                    assert(self@.rooms =~= old(self)@.rooms.push(RoomView::spec_new(room_id@, now)));
                    assert(self@.rooms[old(self)@.rooms.len() as int].id == room_id@);
                    assert forall|a: int, b: int|
                        0 <= a < b < self@.rooms.len() implies self@.rooms[a].id
                        != self@.rooms[b].id by {
                        if b < old(self)@.rooms.len() {
                            assert(old(self)@.rooms[a].id == self@.rooms[a].id);
                            assert(old(self)@.rooms[b].id == self@.rooms[b].id);
                        } else {
                            assert(old(self)@.rooms[a].id != room_id@);
                            assert(old(self)@.rooms[a].id == self@.rooms[a].id);
                        }
                    }
                    lemma_room_idx_of(self@, room_id@, old(self)@.rooms.len() as int);
                }
            },
        }
        room_id
    }

    /// Peer count of a room; an unknown room reports zero.
    pub fn get_peer_count(&self, room_id: &String) -> (n: usize)
        requires
            self@.wf(),
        ensures
            n == self@.peer_count(room_id@),
    {
        match self.find_room(room_id) {
            Some(i) => {
                proof {
                    lemma_room_idx_of(self@, room_id@, i as int);
                }
                self.rooms[i].peers.len()
            },
            None => 0,
        }
    }

    /// Add a peer to a room, creating the room if needed. Succeeds exactly
    /// when the room is absent or below capacity, returning the post-insert
    /// peer count; a full room rejects the peer and leaves the registry
    /// unchanged.
    pub fn join_room(&mut self, room_id: &String, peer_id: String, now: u64) -> (r: Result<
        usize,
        &'static str,
    >)
        requires
            old(self)@.wf(),
            !old(self)@.room_has_peer(room_id@, peer_id@),
        ensures
            final(self)@.wf(),
            old(self)@.join_ok(room_id@) ==> {
                &&& r matches Ok(n) && n == old(self)@.peer_count(room_id@) + 1
                &&& final(self)@ == old(self)@.spec_join(room_id@, peer_id@, now)
                &&& final(self)@.has_room(room_id@)
                &&& final(self)@.peer_count(room_id@) == old(self)@.peer_count(room_id@) + 1
            },
            !old(self)@.join_ok(room_id@) ==> {
                &&& r matches Err(e) && e@ == "Room is full (max 2 peers for 1:1 call)"@
                &&& *final(self) == *old(self)
            },
    {
        match self.find_room(room_id) {
            Some(i) => {
                proof {
                    lemma_room_idx_of(self@, room_id@, i as int);
                }
                if self.rooms[i].is_full() {
                    return Err("Room is full (max 2 peers for 1:1 call)");
                }
                let peer = Peer::new(peer_id, now);
                let added = self.rooms[i].add_peer(peer, now);
                let n = self.rooms[i].peers.len();
                proof {
                    assert(added matches Ok(()));
                    assert(self@.rooms =~= old(self)@.spec_join(room_id@, peer_id@, now).rooms);
                    assert(self@ =~= old(self)@.spec_join(room_id@, peer_id@, now));
                    assert(self@.rooms[i as int] == old(self)@.rooms[i as int].spec_add_peer(
                        peer_id@,
                        now,
                    ));
                    assert(self@.rooms[i as int].peers.len() == old(self)@.rooms[
                        i as int
                    ].peers.len() + 1);
                    assert(n == self@.rooms[i as int].peers.len());
                    assert(n == old(self)@.room(room_id@).peers.len() + 1);
                    assert forall|a: int, b: int|
                        0 <= a < b < self@.rooms.len() implies self@.rooms[a].id
                        != self@.rooms[b].id by {
                        assert(old(self)@.rooms[a].id == self@.rooms[a].id);
                        assert(old(self)@.rooms[b].id == self@.rooms[b].id);
                    }
                    assert(self@.wf());
                    assert(self@.rooms[i as int].id == room_id@);
                    lemma_room_idx_of(self@, room_id@, i as int);
                }
                Ok(n)
            },
            None => {
                let mut room = Room::new(room_id.clone(), now);
                let peer = Peer::new(peer_id, now);
                let added = room.add_peer(peer, now);
                proof {
                    assert(added matches Ok(()));
                }
                self.rooms.push(room);
                proof {
                    assert(self@.rooms =~= old(self)@.rooms.push(
                        RoomView::spec_new(room_id@, now).spec_add_peer(peer_id@, now),
                    ));
                    assert(self@ =~= old(self)@.spec_join(room_id@, peer_id@, now));
                    let last = old(self)@.rooms.len() as int;
                    assert forall|a: int, b: int|
                        0 <= a < b < self@.rooms.len() implies self@.rooms[a].id
                        != self@.rooms[b].id by {
                        if b < last {
                            assert(old(self)@.rooms[a].id == self@.rooms[a].id);
                            assert(old(self)@.rooms[b].id == self@.rooms[b].id);
                        } else {
                            assert(self@.rooms[b].id == room_id@);
                            assert(old(self)@.rooms[a].id != room_id@);
                        }
                    }
                    assert(self@.wf());
                    assert(self@.rooms[last].id == room_id@);
                    lemma_room_idx_of(self@, room_id@, last);
                }
                Ok(1)
            },
        }
    }

    /// Remove a peer from a room. When the peer was present, `Leave` and the
    /// updated `RoomInfo` are enqueued for the surviving peers. An emptied
    /// room is left in place for the reaper, so a momentarily empty room can
    /// be rejoined under the same id.
    pub fn leave_room(&mut self, room_id: &String, peer_id: &String, now: u64)
        requires
            old(self)@.wf(),
        ensures
            final(self)@ == old(self)@.spec_leave(room_id@, peer_id@, now),
            final(self)@.wf(),
            final(self)@.has_room(room_id@) == old(self)@.has_room(room_id@),
            old(self)@.room_has_peer(room_id@, peer_id@) ==> final(self)@.peer_count(room_id@)
                == old(self)@.peer_count(room_id@) - 1,
            old(self)@.has_room(room_id@) && !old(self)@.room(room_id@).has_peer(peer_id@)
                ==> final(self)@.peer_count(room_id@) == old(self)@.peer_count(room_id@),
    {
        match self.find_room(room_id) {
            Some(i) => {
                proof {
                    lemma_room_idx_of(self@, room_id@, i as int);
                    assert((old(self)@.rooms[i as int]).wf());
                }
                let removed = self.rooms[i].remove_peer(peer_id, now);
                if removed.is_some() {
                    let remaining = self.rooms[i].peers.len();
                    let leave = WsMessage::Leave;
                    self.rooms[i].broadcast_to_all(&leave);
                    let info = WsMessage::room_info(remaining);
                    self.rooms[i].broadcast_to_all(&info);
                }
                proof {
                    let oldroom = old(self)@.rooms[i as int];
                    lemma_remove_peer_preserves_wf(oldroom, peer_id@, now);
                    let shrunk = oldroom.spec_remove_peer(peer_id@, now);
                    lemma_broadcast_to_all_preserves_wf(shrunk, WsMessage::Leave);
                    lemma_broadcast_to_all_preserves_wf(
                        shrunk.spec_broadcast_to_all(WsMessage::Leave),
                        WsMessage::RoomInfo { peer_count: shrunk.peers.len() as usize },
                    );
                    assert(self@.rooms =~= old(self)@.spec_leave(room_id@, peer_id@, now).rooms);
                    assert(self@ =~= old(self)@.spec_leave(room_id@, peer_id@, now));
                    assert forall|a: int, b: int|
                        0 <= a < b < self@.rooms.len() implies self@.rooms[a].id
                        != self@.rooms[b].id by {
                        assert(old(self)@.rooms[a].id == self@.rooms[a].id);
                        assert(old(self)@.rooms[b].id == self@.rooms[b].id);
                    }
                    assert(self@.wf());
                    assert(self@.rooms[i as int].id == room_id@);
                    lemma_room_idx_of(self@, room_id@, i as int);
                }
            },
            None => {},
        }
    }

    /// Forward `msg` to every peer of the room other than the sender; a
    /// missing room is silently ignored.
    pub fn relay_message(&mut self, room_id: &String, sender_id: &String, msg: WsMessage, now: u64)
        requires
            old(self)@.wf(),
        ensures
            final(self)@ == old(self)@.spec_relay(room_id@, sender_id@, msg, now),
            final(self)@.wf(),
            final(self)@.has_room(room_id@) == old(self)@.has_room(room_id@),
            final(self)@.peer_count(room_id@) == old(self)@.peer_count(room_id@),
    {
        match self.find_room(room_id) {
            Some(i) => {
                proof {
                    lemma_room_idx_of(self@, room_id@, i as int);
                }
                self.rooms[i].broadcast_to_others(sender_id, &msg);
                self.rooms[i].last_activity = now;
                proof {
                    assert(self@.rooms =~= old(self)@.spec_relay(
                        room_id@,
                        sender_id@,
                        msg,
                        now,
                    ).rooms);
                    assert forall|a: int, b: int|
                        0 <= a < b < self@.rooms.len() implies self@.rooms[a].id
                        != self@.rooms[b].id by {
                        assert(old(self)@.rooms[a].id == self@.rooms[a].id);
                        assert(old(self)@.rooms[b].id == self@.rooms[b].id);
                    }
                    lemma_broadcast_to_others_preserves_wf(
                        old(self)@.rooms[i as int],
                        sender_id@,
                        msg,
                    );
                    assert(self@.wf());
                    assert(self@.rooms[i as int].id == room_id@);
                    lemma_room_idx_of(self@, room_id@, i as int);
                }
            },
            None => {},
        }
    }

    /// Drop every room that has been empty at least the idle threshold;
    /// exactly the others remain, in order.
    pub fn cleanup_inactive_rooms(&mut self, now: u64)
        requires
            old(self)@.wf(),
        ensures
            final(self)@ == old(self)@.spec_cleanup(now),
            final(self)@.wf(),
    {
        let mut kept: Vec<Room> = Vec::new();
        let ghost mut seen: Seq<Room> = Seq::empty();
        proof {
            assert(seen + self.rooms@ =~= old(self).rooms@);
            assert(kept@.map_values(|r: Room| r@) =~= seen.map_values(|r: Room| r@).filter(
                |rv: RoomView| !rv.is_inactive(now),
            ));
        }
        while self.rooms.len() > 0
            invariant
                seen + self.rooms@ == old(self).rooms@,
                kept@.map_values(|r: Room| r@) == seen.map_values(|r: Room| r@).filter(
                    |rv: RoomView| !rv.is_inactive(now),
                ),
            decreases self.rooms.len(),
        {
            let ghost prev_seen = seen;
            let ghost before = self.rooms@;
            let room = self.rooms.remove(0);
            let keep = !room.is_inactive(now);
            proof {
                seen = seen.push(room);
                assert(seen + self.rooms@ =~= prev_seen + before);
                let f = |r: Room| r@;
                let pred = |rv: RoomView| !rv.is_inactive(now);
                reveal(Seq::filter);
                let sv = prev_seen.map_values(f);
                let sv2 = seen.map_values(f);
                assert(sv2.drop_last() =~= sv);
                assert(sv2.last() == room@);
                assert(sv2.filter(pred) == if pred(room@) {
                    sv.filter(pred).push(room@)
                } else {
                    sv.filter(pred)
                });
            }
            if keep {
                kept.push(room);
                proof {
                    assert(kept@.map_values(|r: Room| r@) =~= seen.map_values(|r: Room| r@).filter(
                        |rv: RoomView| !rv.is_inactive(now),
                    ));
                }
            }
        }
        proof {
            assert(seen =~= old(self).rooms@);
        }
        self.rooms = kept;
        proof {
            assert(seen.map_values(|r: Room| r@) == old(self)@.rooms);
            assert(self@ =~= old(self)@.spec_cleanup(now));
            lemma_filter_rooms_wf(old(self)@.rooms, |rv: RoomView| !rv.is_inactive(now));
        }
    }

    /// Drain one peer's queue: the pump that owns the peer's connection
    /// takes the pending messages, oldest first, and the queue empties. An
    /// unknown room or peer yields nothing and changes nothing.
    pub fn take_outbox(&mut self, room_id: &String, peer_id: &String) -> (msgs: Vec<WsMessage>)
        requires
            old(self)@.wf(),
        ensures
            final(self)@.wf(),
            final(self)@ == old(self)@.spec_take_outbox(room_id@, peer_id@),
            old(self)@.room_has_peer(room_id@, peer_id@) ==> msgs@ == old(self)@.room(
                room_id@,
            ).peers[old(self)@.room(room_id@).peer_idx(peer_id@)].outbox,
            !old(self)@.room_has_peer(room_id@, peer_id@) ==> msgs@ == Seq::<WsMessage>::empty()
                && *final(self) == *old(self),
    {
        let mut msgs: Vec<WsMessage> = Vec::new();
        proof {
            assert(msgs@ =~= Seq::<WsMessage>::empty());
        }
        let i = match self.find_room(room_id) {
            Some(i) => i,
            None => {
                return msgs;
            },
        };
        proof {
            lemma_room_idx_of(self@, room_id@, i as int);
            assert((self@.rooms[i as int]).wf());
        }
        let n = self.rooms[i].peers.len();
        for k in 0..n
            invariant
                old(self)@.wf(),
                n == self.rooms[i as int].peers.len(),
                i < self.rooms.len(),
                *self == *old(self),
                old(self)@.has_room(room_id@),
                old(self)@.room_idx(room_id@) == i as int,
                msgs@ == Seq::<WsMessage>::empty(),
                forall|j: int| 0 <= j < k ==> old(self)@.rooms[i as int].peers[j].id != peer_id@,
        {
            proof {
                assert(self@.rooms[i as int] == old(self)@.rooms[i as int]);
            }
            if self.rooms[i].peers[k].id == *peer_id {
                proof {
                    assert(old(self)@.rooms[i as int].wf());
                    assert(old(self)@.rooms[i as int].peers[k as int].id == peer_id@);
                    assert(old(self)@.rooms[i as int].has_peer(peer_id@));
                    let m = old(self)@.rooms[i as int].peer_idx(peer_id@);
                    assert(0 <= m < old(self)@.rooms[i as int].peers.len() && old(
                        self,
                    )@.rooms[i as int].peers[m].id == peer_id@);
                    if m < k as int {
                        assert(old(self)@.rooms[i as int].peers[m].id != peer_id@);
                    } else if (k as int) < m {
                        assert(old(self)@.rooms[i as int].peers[k as int].id != old(
                            self,
                        )@.rooms[i as int].peers[m].id);
                    }
                    assert(m == k as int);
                }
                core::mem::swap(&mut msgs, &mut self.rooms[i].peers[k].outbox);
                proof {
                    let oldroom = old(self)@.rooms[i as int];
                    let newpeer = PeerView {
                        outbox: Seq::<WsMessage>::empty(),
                        ..oldroom.peers[k as int]
                    };
                    assert(self@.rooms[i as int].peers =~= oldroom.peers.update(
                        k as int,
                        newpeer,
                    ));
                    assert(self@.rooms =~= old(self)@.spec_take_outbox(room_id@, peer_id@).rooms);
                    assert(self@ =~= old(self)@.spec_take_outbox(room_id@, peer_id@));
                    assert forall|a: int, b: int|
                        0 <= a < b < self@.rooms.len() implies self@.rooms[a].id
                        != self@.rooms[b].id by {
                        assert(old(self)@.rooms[a].id == self@.rooms[a].id);
                        assert(old(self)@.rooms[b].id == self@.rooms[b].id);
                    }
                    assert forall|r: int|
                        0 <= r < self@.rooms.len() implies (#[trigger] self@.rooms[r]).wf() by {
                        assert(old(self)@.rooms[r].wf());
                        if r == i as int {
                            assert forall|a: int, b: int|
                                0 <= a < b < self@.rooms[r].peers.len() implies self@.rooms[
                                r
                            ].peers[a].id != self@.rooms[r].peers[b].id by {
                                assert(self@.rooms[r].peers[a].id == oldroom.peers[a].id);
                                assert(self@.rooms[r].peers[b].id == oldroom.peers[b].id);
                            }
                        }
                    }
                }
                return msgs;
            }
        }
        proof {
            assert forall|j: int|
                0 <= j < old(self)@.rooms[i as int].peers.len() implies old(self)@.rooms[
                i as int
            ].peers[j].id != peer_id@ by {}
            assert(!old(self)@.rooms[i as int].has_peer(peer_id@));
            assert(self@ =~= old(self)@.spec_take_outbox(room_id@, peer_id@));
        }
        msgs
    }

    /// Whether the room exists and already holds a peer with this id. A
    /// caller that mints peer ids elsewhere can check admission's freshness
    /// requirement with this before joining.
    pub fn room_has_peer(&self, room_id: &String, peer_id: &String) -> (b: bool)
        requires
            self@.wf(),
        ensures
            b == self@.room_has_peer(room_id@, peer_id@),
    {
        let i = match self.find_room(room_id) {
            Some(i) => i,
            None => {
                return false;
            },
        };
        proof {
            lemma_room_idx_of(self@, room_id@, i as int);
        }
        let n = self.rooms[i].peers.len();
        for k in 0..n
            invariant
                n == self.rooms[i as int].peers.len(),
                i < self.rooms.len(),
                self@.has_room(room_id@),
                self@.room_idx(room_id@) == i as int,
                forall|j: int| 0 <= j < k ==> self@.rooms[i as int].peers[j].id != peer_id@,
        {
            if self.rooms[i].peers[k].id == *peer_id {
                proof {
                    assert(self@.room(room_id@).peers[k as int].id == peer_id@);
                }
                return true;
            }
        }
        proof {
            assert(!self@.room(room_id@).has_peer(peer_id@));
        }
        false
    }

    /// Number of rooms currently present (the registry-size hook).
    pub fn room_count(&self) -> (n: usize)
        ensures
            n == self@.rooms.len(),
    {
        self.rooms.len()
    }
}

impl Default for AppState {
    fn default() -> (s: Self)
        ensures
            s@ == (RegistryView { rooms: Seq::<RoomView>::empty() }),
            s@.wf(),
    {
        AppState::new()
    }
}

} // verus!
