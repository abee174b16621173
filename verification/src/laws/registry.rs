//! The registry: who is in it, in which order, and what comes and goes with a session.

use crate::registry;
use crate::registry::RegistryView;
use crate::room::{RoomView, SessionView};
use vstd::prelude::*;

verus! {

/// A session is in the registry exactly if one of its sessions has that id, and it is found
/// by it: the first one, which in order is the only one.
pub proof fn law_a_session_is_found_by_its_id<S>(r: RegistryView<S>, id: Seq<char>)
    ensures
        r.has(id) <==> exists|i: int|
            0 <= i < r.sessions.len() && (#[trigger] r.sessions[i]).id == id,
        r.has(id) ==> r.session(id).id == id,
        r.wf() ==> forall|i: int|
            0 <= i < r.sessions.len() && (#[trigger] r.sessions[i]).id == id ==> r.session(id)
                == r.sessions[i],
{
    registry::lemma_session_slot(r.sessions, id);
    if r.has(id) {
        assert(r.sessions[registry::session_slot(r.sessions, id)].id == id);
    }
}

/// A new session is the last of all and the last of its room, and nothing else changes.
#[verifier::spinoff_prover]
pub proof fn law_a_session_comes_last<S>(r: RegistryView<S>, s: SessionView<S>, key: RoomView)
    requires
        r.wf(),
        forall|i: int| 0 <= i < r.sessions.len() ==> (#[trigger] r.sessions[i]).id != s.id,
    ensures
        r.with(s).sessions == r.sessions.push(s),
        r.with(s).members(s.room) == r.members(s.room).push(r.sessions.len() as int),
        key != s.room ==> r.with(s).members(key) == r.members(key),
{
    registry::lemma_session_slot(r.sessions, s.id);
    assert(!r.has(s.id));
    registry::law_insert_adds(r, s);
    let n = r.with(s);
    registry::lemma_room_slot(r.rooms, s.room);
    registry::lemma_room_slot(n.rooms, s.room);
    registry::lemma_room_slot(r.rooms, key);
    registry::lemma_room_slot(n.rooms, key);
    let at = registry::room_slot(r.rooms, s.room);
    assert(n.rooms[at].0 == s.room);
    assert(registry::room_slot(n.rooms, s.room) == at);
    let old_ids = if at < r.rooms.len() {
        r.rooms[at].1
    } else {
        Seq::empty()
    };
    assert(n.rooms[at].1 =~= old_ids.push(s.id));
    assert(old_ids.push(s.id).drop_last() =~= old_ids);
    assert forall|k: int| 0 <= k < old_ids.len() implies r.has(#[trigger] old_ids[k]) by {
        assert(r.houses(r.rooms[at].0, r.rooms[at].1[k]));
    }
    lemma_slots_with(r, s, old_ids);
    registry::lemma_found_session(n, r.sessions.len() as int);
    assert(registry::slots_of(n.sessions, old_ids.push(s.id)) == registry::slots_of(
        r.sessions,
        old_ids,
    ).push(r.sessions.len() as int));
    if key != s.room {
        let b = registry::room_slot(r.rooms, key);
        if b < r.rooms.len() {
            assert(n.rooms[b] == r.rooms[b]);
            assert(registry::room_slot(n.rooms, key) == b);
            let ids = r.rooms[b].1;
            assert forall|k: int| 0 <= k < ids.len() implies r.has(#[trigger] ids[k]) by {
                assert(r.houses(r.rooms[b].0, r.rooms[b].1[k]));
            }
            lemma_slots_with(r, s, ids);
        } else {
            let c = registry::room_slot(n.rooms, key);
            if c < n.rooms.len() {
                assert(n.rooms[c].0 == key);
                if c < r.rooms.len() {
                    assert(r.rooms[c].0 == key);
                }
            }
        }
    }
}

proof fn lemma_slots_with<S>(r: RegistryView<S>, s: SessionView<S>, ids: Seq<Seq<char>>)
    requires
        r.wf(),
        !r.has(s.id),
        forall|k: int| 0 <= k < ids.len() ==> r.has(#[trigger] ids[k]),
    ensures
        registry::slots_of(r.sessions.push(s), ids) == registry::slots_of(r.sessions, ids),
    decreases ids.len(),
{
    if ids.len() > 0 {
        let rest = ids.drop_last();
        assert forall|k: int| 0 <= k < rest.len() implies r.has(#[trigger] rest[k]) by {
            assert(rest[k] == ids[k]);
        }
        lemma_slots_with(r, s, rest);
        let id = ids.last();
        assert(r.has(ids[ids.len() - 1]));
        let more = r.sessions.push(s);
        registry::lemma_session_slot(r.sessions, id);
        registry::lemma_session_slot(more, id);
        let a = registry::session_slot(r.sessions, id);
        assert(more[a].id == id);
        let b = registry::session_slot(more, id);
        if b < a {
            assert(more[b] == r.sessions[b]);
        }
    }
}

/// The session that goes is the one of the id; the others stay in their order, each as it
/// was, but for having been told of the agent that went.
#[verifier::spinoff_prover]
pub proof fn law_the_others_stay<S>(r: RegistryView<S>, at: int, j: int)
    requires
        r.wf(),
        0 <= at < r.sessions.len(),
        0 <= j < r.sessions.len(),
        j != at,
    ensures
        ({
            let gone = r.sessions[at];
            let s = r.sessions[j];
            let n = r.without(gone.id);
            let k = if j < at {
                j
            } else {
                j - 1
            };
            let t = n.sessions[k];
            &&& n.sessions.len() == r.sessions.len() - 1
            &&& forall|a: Seq<char>| #[trigger]
                t.announced.contains(a) <==> s.announced.contains(a) && a != gone.agent_id
            &&& t.id == s.id && t.agent_id == s.agent_id && t.room == s.room
            &&& t.spatial == s.spatial && t.state == s.state
            &&& t.gains == s.gains && t.mutes == s.mutes
            &&& t.inbound == s.inbound && t.level == s.level
            &&& t.joined == s.joined && t.primary == s.primary && t.closed == s.closed
        }),
{
    registry::lemma_found_session(r, at);
}

/// The rooms of a registry are those that its sessions belong to.
pub proof fn law_rooms_are_those_of_sessions<S>(r: RegistryView<S>, key: RoomView)
    requires
        r.wf(),
    ensures
        (exists|i: int| 0 <= i < r.rooms.len() && (#[trigger] r.rooms[i]).0 == key) <==> exists|
            k: int,
        |
            0 <= k < r.sessions.len() && (#[trigger] r.sessions[k]).room == key,
{
    if exists|i: int| 0 <= i < r.rooms.len() && (#[trigger] r.rooms[i]).0 == key {
        let i = choose|i: int| 0 <= i < r.rooms.len() && (#[trigger] r.rooms[i]).0 == key;
        registry::law_no_room_without_a_session(r, i);
    }
    if exists|k: int| 0 <= k < r.sessions.len() && (#[trigger] r.sessions[k]).room == key {
        let k = choose|k: int| 0 <= k < r.sessions.len() && (#[trigger] r.sessions[k]).room == key;
        assert(r.lists(r.sessions[k]));
        registry::lemma_room_slot(r.rooms, key);
        assert(r.rooms[registry::room_slot(r.rooms, key)].0 == key);
    }
}

/// The ids of the sessions that are over: each such session gives one, and no other does.
pub proof fn law_who_is_over<S>(sessions: Seq<SessionView<S>>, id: Seq<char>)
    ensures
        registry::closed_among(sessions).contains(id) <==> exists|k: int|
            0 <= k < sessions.len() && (#[trigger] sessions[k]).closed && sessions[k].id == id,
    decreases sessions.len(),
{
    let ids = registry::closed_among(sessions);
    if sessions.len() > 0 {
        let rest = sessions.drop_last();
        let n = rest.len() as int;
        let had = registry::closed_among(rest);
        law_who_is_over(rest, id);
        assert(sessions[n] == sessions.last());
        if ids.contains(id) {
            let j = choose|j: int| 0 <= j < ids.len() && ids[j] == id;
            if j < had.len() {
                assert(had[j] == id);
                let k = choose|k: int|
                    0 <= k < rest.len() && (#[trigger] rest[k]).closed && rest[k].id == id;
                assert(sessions[k].closed);
            } else {
                assert(sessions[n].closed);
            }
        }
        if exists|k: int|
            0 <= k < sessions.len() && (#[trigger] sessions[k]).closed && sessions[k].id == id {
            let k = choose|k: int|
                0 <= k < sessions.len() && (#[trigger] sessions[k]).closed && sessions[k].id == id;
            if k < n {
                assert(rest[k].closed);
                let j = choose|j: int| 0 <= j < had.len() && had[j] == id;
                assert(ids[j] == id);
            } else {
                assert(ids[ids.len() - 1] == id);
            }
        }
    }
}

/// A session of an id that is there already takes that one's place; nothing else changes
/// among the sessions, and its room lists it.
pub proof fn law_a_session_takes_the_place_of_its_namesake<S>(
    r: RegistryView<S>,
    s: SessionView<S>,
    at: int,
    other: int,
)
    requires
        r.wf(),
        0 <= at < r.sessions.len(),
        r.sessions[at].id == s.id,
        0 <= other < r.sessions.len(),
    ensures
        r.with(s).sessions.len() == r.sessions.len(),
        r.with(s).sessions[at] == s,
        other != at ==> r.with(s).sessions[other] == r.sessions[other],
        r.with(s).lists(s),
{
    registry::lemma_found_session(r, at);
    let n = r.with(s);
    registry::lemma_room_slot(r.rooms, s.room);
    registry::lemma_room_slot(n.rooms, s.room);
    let b = registry::room_slot(r.rooms, s.room);
    assert(n.rooms[b].0 == s.room);
    assert(n.rooms[b].1[n.rooms[b].1.len() - 1] == s.id);
    assert(registry::room_slot(n.rooms, s.room) == b);
}

/// A session whose room lists it is listed under the key of that room.
pub proof fn law_what_it_is_to_be_listed<S>(r: RegistryView<S>, s: SessionView<S>)
    requires
        r.lists(s),
    ensures
        exists|i: int, k: int|
            0 <= i < r.rooms.len() && 0 <= k < r.rooms[i].1.len() && r.rooms[i].0 == s.room
                && #[trigger] r.rooms[i].1[k] == s.id,
{
    registry::lemma_room_slot(r.rooms, s.room);
    let at = registry::room_slot(r.rooms, s.room);
    let k = choose|k: int| 0 <= k < r.rooms[at].1.len() && r.rooms[at].1[k] == s.id;
    assert(r.rooms[at].1[k] == s.id);
}

/// What a registry is: its sessions and its rooms with the ids of their members, in order.
pub proof fn law_what_a_registry_is<S>(r: registry::Registry<S>, i: int, b: int, k: int)
    requires
        0 <= i < r.sessions@.len(),
        0 <= b < r.rooms@.len(),
        0 <= k < r.rooms@[b].ids@.len(),
    ensures
        r@.sessions.len() == r.sessions@.len(),
        r@.sessions[i] == r.sessions@[i]@,
        r@.rooms.len() == r.rooms@.len(),
        r@.rooms[b].0 == r.rooms@[b].key@,
        r@.rooms[b].1.len() == r.rooms@[b].ids@.len(),
        r@.rooms[b].1[k] == r.rooms@[b].ids@[k]@,
{
}

/// What a session is: each of its fields.
pub proof fn law_what_a_session_is<S>(s: crate::room::Session<S>, i: int)
    requires
        0 <= i < s.inbound@.len(),
    ensures
        s@.id == s.id@ && s@.agent_id == s.agent_id@ && s@.room == s.room@,
        s@.spatial == s.spatial && s@.state == s.state,
        s@.gains == s.gains@ && s@.mutes == s.mutes@,
        s@.inbound.len() == s.inbound@.len() && s@.inbound[i] == s.inbound@[i]@,
        s@.level == s.level && s@.joined == s.joined && s@.primary == s.primary,
        s@.closed == s.closed && s@.announced == s.announced@,
{
}

/// What a room's key is: its kind and what it names.
pub proof fn law_what_a_key_is(k: crate::room::RoomKey)
    ensures
        k matches crate::room::RoomKey::Spatial { region, parcel } ==> k@ == (RoomView::Spatial {
            region: region@,
            parcel,
        }),
        k matches crate::room::RoomKey::MultiAgent { channel } ==> k@ == (RoomView::MultiAgent {
            channel: channel@,
        }),
{
}

/// Taking an id off a list leaves the others, in their order.
pub proof fn law_the_list_keeps_its_order(ids: Seq<Seq<char>>, id: Seq<char>)
    ensures
        registry::without(ids, id) == ids.filter(|x: Seq<char>| x != id),
    decreases ids.len(),
{
    reveal(Seq::filter);
    if ids.len() > 0 {
        law_the_list_keeps_its_order(ids.drop_last(), id);
    }
}

/// When a session goes, its room keeps its other members in their order, or goes too where
/// there is none; every other room is as it was.
pub proof fn law_what_becomes_of_the_rooms<S>(r: RegistryView<S>, i: int, b: int)
    requires
        r.wf(),
        0 <= i < r.sessions.len(),
        0 <= b < r.rooms.len(),
        r.rooms[b].0 == r.sessions[i].room,
    ensures
        ({
            let id = r.sessions[i].id;
            let left = r.rooms[b].1.filter(|x: Seq<char>| x != id);
            r.without(id).rooms == if left.len() == 0 {
                r.rooms.remove(b)
            } else {
                r.rooms.update(b, (r.rooms[b].0, left))
            }
        }),
{
    registry::lemma_found_session(r, i);
    registry::lemma_room_slot(r.rooms, r.sessions[i].room);
    law_the_list_keeps_its_order(r.rooms[b].1, r.sessions[i].id);
}

/// The sessions that are over are named in the order of the sessions.
pub proof fn law_who_is_over_in_order<S>(sessions: Seq<SessionView<S>>)
    ensures
        registry::closed_among(sessions) == sessions.filter(
            |s: SessionView<S>| s.closed,
        ).map_values(|s: SessionView<S>| s.id),
    decreases sessions.len(),
{
    reveal(Seq::filter);
    let over = |s: SessionView<S>| s.closed;
    let name = |s: SessionView<S>| s.id;
    if sessions.len() > 0 {
        let rest = sessions.drop_last();
        law_who_is_over_in_order(rest);
        if sessions.last().closed {
            assert(rest.filter(over).push(sessions.last()).map_values(name) =~= rest.filter(
                over,
            ).map_values(name).push(sessions.last().id));
        }
    }
    assert(registry::closed_among(sessions) =~= sessions.filter(over).map_values(name));
}

} // verus!
