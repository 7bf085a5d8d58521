//! The library's guarantees, stated and proved over the registry model.

use vstd::prelude::*;

use crate::models::WsMessage;
use crate::state::{
    lemma_broadcast_to_others_preserves_wf, lemma_filter_rooms_wf, lemma_room_idx_of,
    RegistryView, RoomView, ROOM_TIMEOUT_MS,
};
use crate::MAX_PEERS_PER_ROOM;

verus! {

/// Every room of a well-formed registry holds at most two peers; an unknown
/// room counts as empty.
pub proof fn lemma_room_capacity(v: RegistryView, id: Seq<char>)
    requires
        v.wf(),
    ensures
        v.peer_count(id) <= MAX_PEERS_PER_ROOM,
{
    if v.has_room(id) {
        let i = v.room_idx(id);
        assert(0 <= i < v.rooms.len() && v.rooms[i].id == id);
        assert(v.rooms[i].wf());
    }
}

/// Within any room of a well-formed registry, peer identifiers are pairwise
/// distinct.
pub proof fn lemma_peer_ids_distinct(v: RegistryView, id: Seq<char>)
    requires
        v.wf(),
        v.has_room(id),
    ensures
        forall|a: int, b: int|
            0 <= a < b < v.room(id).peers.len() ==> v.room(id).peers[a].id != v.room(
                id,
            ).peers[b].id,
{
    let i = v.room_idx(id);
    assert(0 <= i < v.rooms.len() && v.rooms[i].id == id);
    assert(v.rooms[i].wf());
}

/// Relaying two messages from the same sender, one after the other, leaves
/// both at the tail of every other peer's queue in the order they were
/// relayed; the sender's own queue is untouched. With FIFO delivery the
/// other peer therefore observes them in relay order.
pub proof fn lemma_relay_order(
    v: RegistryView,
    id: Seq<char>,
    sender: Seq<char>,
    m1: WsMessage,
    m2: WsMessage,
    t1: u64,
    t2: u64,
)
    requires
        v.wf(),
        v.has_room(id),
    ensures
        ({
            let v2 = v.spec_relay(id, sender, m1, t1).spec_relay(id, sender, m2, t2);
            &&& v2.wf()
            &&& v2.has_room(id)
            &&& v2.room(id).peers.len() == v.room(id).peers.len()
            &&& forall|j: int|
                0 <= j < v.room(id).peers.len() && v.room(id).peers[j].id != sender
                    ==> #[trigger] v2.room(id).peers[j].outbox == v.room(
                    id,
                ).peers[j].outbox.push(m1).push(m2)
            &&& forall|j: int|
                0 <= j < v.room(id).peers.len() && v.room(id).peers[j].id == sender
                    ==> #[trigger] v2.room(id).peers[j].outbox == v.room(id).peers[j].outbox
        }),
{
    let i = v.room_idx(id);
    assert(0 <= i < v.rooms.len() && v.rooms[i].id == id);
    assert(v.rooms[i].wf());
    let r = v.room(id);
    lemma_broadcast_to_others_preserves_wf(r, sender, m1);
    let r1 = relayed_room(r, sender, m1, t1);
    let v1 = v.spec_relay(id, sender, m1, t1);
    assert(v1.rooms == v.rooms.update(i, r1));
    assert forall|a: int, b: int| 0 <= a < b < v1.rooms.len() implies v1.rooms[a].id
        != v1.rooms[b].id by {
        assert(v.rooms[a].id == v1.rooms[a].id);
        assert(v.rooms[b].id == v1.rooms[b].id);
    }
    assert forall|a: int| 0 <= a < v1.rooms.len() implies (#[trigger] v1.rooms[a]).wf() by {
        assert(v.rooms[a].wf());
    }
    lemma_room_idx_of(v1, id, i);
    lemma_broadcast_to_others_preserves_wf(r1, sender, m2);
    let r2 = relayed_room(r1, sender, m2, t2);
    let v2 = v1.spec_relay(id, sender, m2, t2);
    assert(v2.rooms == v1.rooms.update(i, r2));
    assert forall|a: int, b: int| 0 <= a < b < v2.rooms.len() implies v2.rooms[a].id
        != v2.rooms[b].id by {
        assert(v1.rooms[a].id == v2.rooms[a].id);
        assert(v1.rooms[b].id == v2.rooms[b].id);
    }
    assert forall|a: int| 0 <= a < v2.rooms.len() implies (#[trigger] v2.rooms[a]).wf() by {
        assert(v1.rooms[a].wf());
    }
    lemma_room_idx_of(v2, id, i);
    assert forall|j: int|
        0 <= j < r.peers.len() && r.peers[j].id != sender implies #[trigger] v2.room(
        id,
    ).peers[j].outbox == r.peers[j].outbox.push(m1).push(m2) by {
        assert(r1.peers[j].outbox == r.peers[j].outbox.push(m1));
        assert(r1.peers[j].id == r.peers[j].id);
        assert(r2.peers[j].outbox == r1.peers[j].outbox.push(m2));
    }
    assert forall|j: int|
        0 <= j < r.peers.len() && r.peers[j].id == sender implies #[trigger] v2.room(
        id,
    ).peers[j].outbox == r.peers[j].outbox by {
        assert(r1.peers[j].outbox == r.peers[j].outbox);
        assert(r1.peers[j].id == r.peers[j].id);
        assert(r2.peers[j].outbox == r1.peers[j].outbox);
    }
}

/// The room a relay writes into the registry: the broadcast with the
/// activity timestamp advanced.
spec fn relayed_room(r: RoomView, sender: Seq<char>, m: WsMessage, now: u64) -> RoomView {
    RoomView { last_activity: now, ..r.spec_broadcast_to_others(sender, m) }
}

/// Creating a room is idempotent: a second creation under the same id, at
/// any time, changes nothing.
pub proof fn lemma_create_room_idempotent(v: RegistryView, id: Seq<char>, t1: u64, t2: u64)
    ensures
        v.spec_create_room(id, t1).spec_create_room(id, t2) == v.spec_create_room(id, t1),
{
    let v1 = v.spec_create_room(id, t1);
    if v.has_room(id) {
        assert(v1 == v);
    } else {
        assert(v1.rooms[v.rooms.len() as int].id == id);
        assert(v1.has_room(id));
    }
}

/// A room that has had no peers for at least the idle threshold is absent
/// after a reaper tick.
pub proof fn lemma_cleanup_evicts_idle(v: RegistryView, id: Seq<char>, now: u64)
    requires
        v.wf(),
        v.has_room(id),
        v.room(id).peers.len() == 0,
        v.room(id).last_activity <= now,
        now - v.room(id).last_activity >= ROOM_TIMEOUT_MS,
    ensures
        !v.spec_cleanup(now).has_room(id),
{
    let pred = |rv: RoomView| !rv.is_inactive(now);
    let out = v.rooms.filter(pred);
    let i = v.room_idx(id);
    assert(0 <= i < v.rooms.len() && v.rooms[i].id == id);
    lemma_filter_rooms_wf(v.rooms, pred);
    if v.spec_cleanup(now).has_room(id) {
        let k = choose|k: int| 0 <= k < out.len() && out[k].id == id;
        assert(v.rooms.contains(out[k]));
        let j = choose|j: int| 0 <= j < v.rooms.len() && v.rooms[j] == out[k];
        assert(0 <= j < v.rooms.len() && v.rooms[j] == out[k]);
        lemma_room_idx_of(v, id, j);
        assert(v.rooms[j] == v.room(id));
        assert(v.rooms[j].is_inactive(now));
        v.rooms.lemma_filter_pred(pred, k);
        assert(!out[k].is_inactive(now));
        assert(false);
    }
}

} // verus!
