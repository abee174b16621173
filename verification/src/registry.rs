//! All live sessions, found by their id and by their room.

use crate::room::{RoomKey, RoomView, Session, SessionView};
use crate::text::same_text;
use vstd::prelude::*;

verus! {

/// A room and the sessions in it, in the order in which they came.
pub struct RoomEntry {
    pub key: RoomKey,
    pub ids: Vec<String>,
}

/// All live sessions.
pub struct Registry<S> {
    pub sessions: Vec<Session<S>>,
    pub rooms: Vec<RoomEntry>,
}

/// What each of some sessions is.
pub open spec fn session_views<S>(sessions: Seq<Session<S>>) -> Seq<SessionView<S>> {
    sessions.map_values(|s: Session<S>| s@)
}

/// What each of some texts says.
pub open spec fn id_views(ids: Seq<String>) -> Seq<Seq<char>> {
    ids.map_values(|s: String| s@)
}

/// What each of some room entries says.
pub open spec fn room_views(rooms: Seq<RoomEntry>) -> Seq<(RoomView, Seq<Seq<char>>)> {
    rooms.map_values(|r: RoomEntry| (r.key@, id_views(r.ids@)))
}

/// What a registry holds: the sessions, no two of one id, and the rooms, no two of one
/// key, each with the ids of its members.
#[verifier::ext_equal]
pub struct RegistryView<S> {
    pub sessions: Seq<SessionView<S>>,
    pub rooms: Seq<(RoomView, Seq<Seq<char>>)>,
}

impl<S> View for Registry<S> {
    type V = RegistryView<S>;

    open spec fn view(&self) -> RegistryView<S> {
        RegistryView {
            sessions: session_views(self.sessions@),
            rooms: room_views(self.rooms@),
        }
    }
}

/// Where the session of an id stands; behind the last where there is none.
pub open spec fn session_slot<S>(sessions: Seq<SessionView<S>>, id: Seq<char>) -> int
    decreases sessions.len(),
{
    if sessions.len() == 0 || sessions[0].id == id {
        0
    } else {
        1 + session_slot(sessions.skip(1), id)
    }
}

/// Where the room of a key stands; behind the last where there is none.
pub open spec fn room_slot(rooms: Seq<(RoomView, Seq<Seq<char>>)>, key: RoomView) -> int
    decreases rooms.len(),
{
    if rooms.len() == 0 || rooms[0].0 == key {
        0
    } else {
        1 + room_slot(rooms.skip(1), key)
    }
}

/// Some ids without a given one.
pub open spec fn without(ids: Seq<Seq<char>>, id: Seq<char>) -> Seq<Seq<char>>
    decreases ids.len(),
{
    if ids.len() == 0 {
        ids
    } else if ids.last() == id {
        without(ids.drop_last(), id)
    } else {
        without(ids.drop_last(), id).push(ids.last())
    }
}

/// Where the sessions of some ids stand; ids without a session are passed over.
pub open spec fn slots_of<S>(sessions: Seq<SessionView<S>>, ids: Seq<Seq<char>>) -> Seq<int>
    decreases ids.len(),
{
    if ids.len() == 0 {
        Seq::empty()
    } else {
        let slot = session_slot(sessions, ids.last());
        if slot < sessions.len() {
            slots_of(sessions, ids.drop_last()).push(slot)
        } else {
            slots_of(sessions, ids.drop_last())
        }
    }
}

/// A session that was never told of an agent, or forgot that it was.
pub open spec fn forgetting<S>(s: SessionView<S>, agent: Seq<char>) -> SessionView<S> {
    SessionView { announced: s.announced.remove(agent), ..s }
}

impl<S> RegistryView<S> {
    /// Whether there is a session of that id.
    pub open spec fn has(self, id: Seq<char>) -> bool {
        session_slot(self.sessions, id) < self.sessions.len()
    }

    /// The session of that id.
    pub open spec fn session(self, id: Seq<char>) -> SessionView<S> {
        self.sessions[session_slot(self.sessions, id)]
    }

    /// Where the members of a room stand, in the order in which they came.
    pub open spec fn members(self, key: RoomView) -> Seq<int> {
        let at = room_slot(self.rooms, key);
        if at < self.rooms.len() {
            slots_of(self.sessions, self.rooms[at].1)
        } else {
            Seq::empty()
        }
    }

    /// The registry with a session in it, in place of an earlier one of its id.
    pub open spec fn with(self, s: SessionView<S>) -> Self {
        let at = room_slot(self.rooms, s.room);
        let slot = session_slot(self.sessions, s.id);
        RegistryView {
            rooms: if at < self.rooms.len() {
                self.rooms.update(at, (s.room, self.rooms[at].1.push(s.id)))
            } else {
                self.rooms.push((s.room, seq![s.id]))
            },
            sessions: if slot < self.sessions.len() {
                self.sessions.update(slot, s)
            } else {
                self.sessions.push(s)
            },
        }
    }

    /// The registry without the session of an id that it has. A room that nobody is left
    /// in goes with it, and the sessions that stay forget that they were told of its
    /// agent.
    pub open spec fn without(self, id: Seq<char>) -> Self {
        let s = self.session(id);
        let at = room_slot(self.rooms, s.room);
        let left = without(self.rooms[at].1, id);
        RegistryView {
            rooms: if at >= self.rooms.len() {
                self.rooms
            } else if left.len() == 0 {
                self.rooms.remove(at)
            } else {
                self.rooms.update(at, (s.room, left))
            },
            sessions: self.sessions.remove(session_slot(self.sessions, id)).map_values(
                |o: SessionView<S>| forgetting(o, s.agent_id),
            ),
        }
    }

    /// No two sessions share an id and no two rooms a key; no room is empty; each session
    /// is listed in its room, once, and no room lists any other.
    pub open spec fn wf(self) -> bool {
        &&& forall|i: int, j: int|
            0 <= i < j < self.sessions.len() ==> self.sessions[i].id != self.sessions[j].id
        &&& forall|i: int, j: int|
            0 <= i < j < self.rooms.len() ==> self.rooms[i].0 != self.rooms[j].0
        &&& forall|i: int| 0 <= i < self.rooms.len() ==> (#[trigger] self.rooms[i]).1.len() > 0
        &&& forall|i: int|
            0 <= i < self.rooms.len() ==> (#[trigger] self.rooms[i]).1.no_duplicates()
        &&& forall|i: int, k: int|
            0 <= i < self.rooms.len() && 0 <= k < self.rooms[i].1.len() ==> self.houses(
                self.rooms[i].0,
                #[trigger] self.rooms[i].1[k],
            )
        &&& forall|i: int|
            0 <= i < self.sessions.len() ==> self.lists(#[trigger] self.sessions[i])
    }

    /// Whether there is a session of that id and it belongs to that room.
    pub open spec fn houses(self, key: RoomView, id: Seq<char>) -> bool {
        self.has(id) && self.session(id).room == key
    }

    /// Whether a session's room lists it.
    pub open spec fn lists(self, s: SessionView<S>) -> bool {
        let at = room_slot(self.rooms, s.room);
        at < self.rooms.len() && self.rooms[at].1.contains(s.id)
    }
}

/// The slot of an id is the first that holds it.
pub proof fn lemma_session_slot<S>(sessions: Seq<SessionView<S>>, id: Seq<char>)
    ensures
        0 <= session_slot(sessions, id) <= sessions.len(),
        session_slot(sessions, id) < sessions.len() ==> sessions[session_slot(sessions, id)].id
            == id,
        forall|i: int| 0 <= i < session_slot(sessions, id) ==> sessions[i].id != id,
    decreases sessions.len(),
{
    if sessions.len() > 0 && sessions[0].id != id {
        lemma_session_slot(sessions.skip(1), id);
        assert forall|i: int| 0 <= i < session_slot(sessions, id) implies sessions[i].id != id by {
            if i > 0 {
                assert(sessions.skip(1)[i - 1] == sessions[i]);
            }
        }
    }
}

/// The slot of a room is the first that holds its key.
pub proof fn lemma_room_slot(rooms: Seq<(RoomView, Seq<Seq<char>>)>, key: RoomView)
    ensures
        0 <= room_slot(rooms, key) <= rooms.len(),
        room_slot(rooms, key) < rooms.len() ==> rooms[room_slot(rooms, key)].0 == key,
        forall|i: int| 0 <= i < room_slot(rooms, key) ==> rooms[i].0 != key,
    decreases rooms.len(),
{
    if rooms.len() > 0 && rooms[0].0 != key {
        lemma_room_slot(rooms.skip(1), key);
        assert forall|i: int| 0 <= i < room_slot(rooms, key) implies rooms[i].0 != key by {
            if i > 0 {
                assert(rooms.skip(1)[i - 1] == rooms[i]);
            }
        }
    }
}

impl<S> Registry<S> {
    /// A registry without sessions.
    pub fn new() -> (r: Self)
        ensures
            r@.sessions.len() == 0,
            r@.rooms.len() == 0,
            r@.wf(),
    {
        Registry { sessions: Vec::new(), rooms: Vec::new() }
    }

    /// Where the session of an id stands; the number of sessions where there is none.
    pub fn find(&self, id: &str) -> (r: usize)
        ensures
            r == session_slot(self@.sessions, id@),
            r <= self.sessions@.len(),
    {
        let mut i: usize = 0;
        while i < self.sessions.len() && !same_text(self.sessions[i].id.as_str(), id)
            invariant
                i <= self.sessions@.len(),
                forall|k: int| 0 <= k < i ==> self@.sessions[k].id != id@,
            decreases self.sessions@.len() - i,
        {
            assert(self@.sessions[i as int].id == self.sessions@[i as int].id@);
            i += 1;
        }
        proof {
            lemma_session_slot(self@.sessions, id@);
            if i < self.sessions@.len() {
                assert(self@.sessions[i as int].id == self.sessions@[i as int].id@);
            }
        }
        i
    }

    fn find_room(&self, key: &RoomKey) -> (r: usize)
        ensures
            r == room_slot(self@.rooms, key@),
            r <= self.rooms@.len(),
    {
        let mut i: usize = 0;
        while i < self.rooms.len() && !self.rooms[i].key.same(key)
            invariant
                i <= self.rooms@.len(),
                forall|k: int| 0 <= k < i ==> self@.rooms[k].0 != key@,
            decreases self.rooms@.len() - i,
        {
            assert(self@.rooms[i as int].0 == self.rooms@[i as int].key@);
            i += 1;
        }
        proof {
            lemma_room_slot(self@.rooms, key@);
            if i < self.rooms@.len() {
                assert(self@.rooms[i as int].0 == self.rooms@[i as int].key@);
            }
        }
        i
    }

    /// Adds a session, in place of an earlier one of its id.
    pub fn insert(&mut self, s: Session<S>)
        ensures
            final(self)@ == old(self)@.with(s@),
    {
        let at = self.find_room(&s.room);
        let ghost before = *self;
        if at < self.rooms.len() {
            self.rooms[at].ids.push(s.id.clone());
            assert(id_views(self.rooms@[at as int].ids@) =~= id_views(
                before.rooms@[at as int].ids@,
            ).push(s.id@));
            proof {
                lemma_room_slot(before@.rooms, s.room@);
            }
        } else {
            let mut ids: Vec<String> = Vec::new();
            ids.push(s.id.clone());
            assert(id_views(ids@) =~= seq![s.id@]);
            self.rooms.push(RoomEntry { key: s.room.clone(), ids });
        }
        assert(self@.rooms =~= before@.with(s@).rooms);
        let slot = self.find(s.id.as_str());
        if slot < self.sessions.len() {
            self.sessions.set(slot, s);
        } else {
            self.sessions.push(s);
        }
        assert(self@ =~= before@.with(s@));
    }

    /// Takes a session out; nothing comes back, and nothing changes, where there is none
    /// of that id.
    pub fn remove(&mut self, id: &str) -> (r: Option<Session<S>>)
        ensures
            r is Some <==> old(self)@.has(id@),
            r matches Some(s) ==> s@ == (SessionView { closed: true, ..old(self)@.session(id@) })
                && final(self)@ == old(self)@.without(id@),
            r is None ==> final(self)@ == old(self)@,
    {
        let slot = self.find(id);
        if slot == self.sessions.len() {
            return None;
        }
        let ghost before = self@;
        let mut gone = self.sessions.remove(slot);
        assert(gone@ == before.session(id@));
        assert(self@.sessions =~= before.sessions.remove(slot as int));
        self.unlist(&gone.room, id);
        self.forget(gone.agent_id.as_str());
        assert(self@ =~= before.without(id@));
        gone.closed = true;
        Some(gone)
    }

    /// Takes an id off the list of a room, and the room with it where it was the last.
    fn unlist(&mut self, key: &RoomKey, id: &str)
        ensures
            final(self)@.sessions == old(self)@.sessions,
            final(self)@.rooms == ({
                let rooms = old(self)@.rooms;
                let at = room_slot(rooms, key@);
                let left = without(rooms[at].1, id@);
                if at >= rooms.len() {
                    rooms
                } else if left.len() == 0 {
                    rooms.remove(at)
                } else {
                    rooms.update(at, (key@, left))
                }
            }),
    {
        let at = self.find_room(key);
        if at == self.rooms.len() {
            return ;
        }
        let ghost before = self@;
        proof {
            lemma_room_slot(before.rooms, key@);
        }
        let left = ids_without(&self.rooms[at].ids, id);
        if left.len() == 0 {
            let _ = self.rooms.remove(at);
            assert(self@.rooms =~= before.rooms.remove(at as int));
        } else {
            self.rooms[at].ids = left;
            assert(self@.rooms =~= before.rooms.update(
                at as int,
                (key@, without(before.rooms[at as int].1, id@)),
            ));
        }
    }

    /// Lets every session forget that it was told of an agent, so that it is told again
    /// if the agent comes back.
    fn forget(&mut self, agent: &str)
        ensures
            final(self)@.rooms == old(self)@.rooms,
            final(self)@.sessions == old(self)@.sessions.map_values(
                |o: SessionView<S>| forgetting(o, agent@),
            ),
    {
        let ghost before = self@;
        let n: usize = self.sessions.len();
        let mut i: usize = 0;
        while i < n
            invariant
                i <= n == self.sessions@.len(),
                n == before.sessions.len(),
                self@.rooms == before.rooms,
                forall|k: int|
                    0 <= k < i ==> #[trigger] self@.sessions[k] == forgetting(
                        before.sessions[k],
                        agent@,
                    ),
                forall|k: int| i <= k < n ==> #[trigger] self@.sessions[k] == before.sessions[k],
            decreases n - i,
        {
            let ghost was = self@.sessions;
            self.sessions[i].forget_announced(agent);
            assert(self@.sessions =~= was.update(
                i as int,
                forgetting(was[i as int], agent@),
            ));
            i += 1;
        }
        assert(self@.sessions =~= before.sessions.map_values(
            |o: SessionView<S>| forgetting(o, agent@),
        ));
    }

    /// The rooms that have members.
    pub fn rooms(&self) -> (r: Vec<RoomKey>)
        ensures
            r@.map_values(|k: RoomKey| k@) == self@.rooms.map_values(
                |e: (RoomView, Seq<Seq<char>>)| e.0,
            ),
    {
        let mut out: Vec<RoomKey> = Vec::new();
        let mut i: usize = 0;
        while i < self.rooms.len()
            invariant
                i <= self.rooms@.len(),
                out@.len() == i,
                forall|k: int| 0 <= k < i ==> (#[trigger] out@[k])@ == self@.rooms[k].0,
            decreases self.rooms@.len() - i,
        {
            out.push(self.rooms[i].key.clone());
            i += 1;
        }
        assert(out@.map_values(|k: RoomKey| k@) =~= self@.rooms.map_values(
            |e: (RoomView, Seq<Seq<char>>)| e.0,
        ));
        out
    }

    /// Where the members of a room stand, in the order in which they came.
    pub fn member_slots(&self, key: &RoomKey) -> (r: Vec<usize>)
        ensures
            r@.map_values(|k: usize| k as int) == self@.members(key@),
            forall|i: int| 0 <= i < r@.len() ==> (#[trigger] r@[i]) < self.sessions@.len(),
    {
        let at = self.find_room(key);
        let mut out: Vec<usize> = Vec::new();
        if at == self.rooms.len() {
            assert(out@.map_values(|k: usize| k as int) =~= Seq::<int>::empty());
            return out;
        }
        let ghost ids = self@.rooms[at as int].1;
        let n: usize = self.rooms[at].ids.len();
        let mut i: usize = 0;
        assert(ids.take(0) =~= Seq::<Seq<char>>::empty());
        assert(out@.map_values(|k: usize| k as int) =~= Seq::<int>::empty());
        while i < n
            invariant
                i <= n == self.rooms@[at as int].ids@.len(),
                at < self.rooms@.len(),
                ids == id_views(self.rooms@[at as int].ids@),
                out@.map_values(|k: usize| k as int) == slots_of(
                    self@.sessions,
                    ids.take(i as int),
                ),
                forall|k: int| 0 <= k < out@.len() ==> (#[trigger] out@[k]) < self.sessions@.len(),
            decreases n - i,
        {
            let ghost upto = ids.take(i + 1);
            assert(upto.drop_last() =~= ids.take(i as int));
            let slot = self.find(self.rooms[at].ids[i].as_str());
            let ghost was = out@;
            if slot < self.sessions.len() {
                out.push(slot);
                assert(out@.map_values(|k: usize| k as int) =~= was.map_values(
                    |k: usize| k as int,
                ).push(slot as int));
            }
            i += 1;
        }
        assert(ids.take(n as int) =~= ids);
        out
    }

    /// The members of a room, in the order in which they came.
    pub fn members(&self, key: &RoomKey) -> (r: Vec<&Session<S>>)
        ensures
            r@.map_values(|s: &Session<S>| s@) == self@.members(key@).map_values(
                |k: int| self@.sessions[k],
            ),
    {
        let slots = self.member_slots(key);
        let mut out: Vec<&Session<S>> = Vec::new();
        let mut i: usize = 0;
        while i < slots.len()
            invariant
                i <= slots@.len(),
                out@.len() == i,
                slots@.map_values(|k: usize| k as int) == self@.members(key@),
                forall|k: int|
                    0 <= k < slots@.len() ==> (#[trigger] slots@[k]) < self.sessions@.len(),
                forall|k: int|
                    0 <= k < i ==> (#[trigger] out@[k])@ == self@.sessions[slots@[k] as int],
            decreases slots@.len() - i,
        {
            out.push(&self.sessions[slots[i]]);
            i += 1;
        }
        assert forall|k: int| 0 <= k < slots@.len() implies #[trigger] self@.members(key@)[k]
            == slots@[k] as int by {
            assert(slots@.map_values(|k: usize| k as int)[k] == slots@[k] as int);
        }
        assert(out@.map_values(|s: &Session<S>| s@) =~= self@.members(key@).map_values(
            |k: int| self@.sessions[k],
        ));
        out
    }

    /// How many sessions there are.
    pub fn session_count(&self) -> (r: usize)
        ensures
            r == self@.sessions.len(),
    {
        self.sessions.len()
    }

    /// The ids of the sessions whose transport is over.
    pub fn closed_ids(&self) -> (r: Vec<String>)
        ensures
            id_views(r@) == closed_among(self@.sessions),
    {
        let mut out: Vec<String> = Vec::new();
        let mut i: usize = 0;
        assert(self@.sessions.take(0) =~= Seq::<SessionView<S>>::empty());
        assert(id_views(out@) =~= Seq::<Seq<char>>::empty());
        while i < self.sessions.len()
            invariant
                i <= self.sessions@.len(),
                id_views(out@) == closed_among(self@.sessions.take(i as int)),
            decreases self.sessions@.len() - i,
        {
            let ghost upto = self@.sessions.take(i + 1);
            assert(upto.drop_last() =~= self@.sessions.take(i as int));
            let ghost was = out@;
            if self.sessions[i].closed {
                out.push(self.sessions[i].id.clone());
                assert(id_views(out@) =~= id_views(was).push(self.sessions@[i as int].id@));
            }
            i += 1;
        }
        assert(self@.sessions.take(i as int) =~= self@.sessions);
        out
    }
}

/// The ids of those sessions whose transport is over.
pub open spec fn closed_among<S>(sessions: Seq<SessionView<S>>) -> Seq<Seq<char>>
    decreases sessions.len(),
{
    if sessions.len() == 0 {
        Seq::empty()
    } else if sessions.last().closed {
        closed_among(sessions.drop_last()).push(sessions.last().id)
    } else {
        closed_among(sessions.drop_last())
    }
}

fn ids_without(ids: &Vec<String>, id: &str) -> (r: Vec<String>)
    ensures
        id_views(r@) == without(id_views(ids@), id@),
{
    let ghost all = id_views(ids@);
    let mut out: Vec<String> = Vec::new();
    let mut i: usize = 0;
    assert(all.take(0) =~= Seq::<Seq<char>>::empty());
    assert(id_views(out@) =~= Seq::<Seq<char>>::empty());
    while i < ids.len()
        invariant
            i <= ids@.len(),
            all == id_views(ids@),
            id_views(out@) == without(all.take(i as int), id@),
        decreases ids@.len() - i,
    {
        let ghost upto = all.take(i + 1);
        assert(upto.drop_last() =~= all.take(i as int));
        let ghost was = out@;
        if !same_text(ids[i].as_str(), id) {
            out.push(ids[i].clone());
            assert(id_views(out@) =~= id_views(was).push(ids@[i as int]@));
        }
        i += 1;
    }
    assert(all.take(i as int) =~= all);
    out
}

// ---- laws ----

/// A session is found by its id.
pub proof fn lemma_found_session<S>(r: RegistryView<S>, i: int)
    requires
        forall|i: int, j: int|
            0 <= i < j < r.sessions.len() ==> r.sessions[i].id != r.sessions[j].id,
        0 <= i < r.sessions.len(),
    ensures
        session_slot(r.sessions, r.sessions[i].id) == i,
{
    lemma_session_slot(r.sessions, r.sessions[i].id);
}

proof fn lemma_found_room<S>(r: RegistryView<S>, i: int)
    requires
        forall|i: int, j: int| 0 <= i < j < r.rooms.len() ==> r.rooms[i].0 != r.rooms[j].0,
        0 <= i < r.rooms.len(),
    ensures
        room_slot(r.rooms, r.rooms[i].0) == i,
{
    lemma_room_slot(r.rooms, r.rooms[i].0);
}

/// A session of a new id can be found once it was added; so can every other, as it was;
/// and the registry stays in order.
#[verifier::spinoff_prover]
pub proof fn law_insert_adds<S>(r: RegistryView<S>, s: SessionView<S>)
    requires
        r.wf(),
        !r.has(s.id),
    ensures
        r.with(s).wf(),
        r.with(s).has(s.id),
        r.with(s).session(s.id) == s,
        r.with(s).sessions.len() == r.sessions.len() + 1,
        forall|id: Seq<char>|
            id != s.id ==> (#[trigger] r.with(s).has(id) <==> r.has(id)) && (r.has(id) ==> r.with(
                s,
            ).session(id) == r.session(id)),
{
    let n = r.with(s);
    let at = room_slot(r.rooms, s.room);
    lemma_room_slot(r.rooms, s.room);
    lemma_session_slot(r.sessions, s.id);
    assert(n.sessions == r.sessions.push(s));
    assert forall|i: int, j: int| 0 <= i < j < n.sessions.len() implies n.sessions[i].id
        != n.sessions[j].id by {
        if j == r.sessions.len() {
            assert(r.sessions[i].id != s.id);
        }
    }
    lemma_found_session(n, r.sessions.len() as int);
    assert forall|id: Seq<char>| id != s.id implies (#[trigger] n.has(id) <==> r.has(id)) && (
    r.has(id) ==> n.session(id) == r.session(id)) by {
        lemma_session_slot(r.sessions, id);
        lemma_session_slot(n.sessions, id);
        let k = session_slot(r.sessions, id);
        if k < r.sessions.len() {
            assert(n.sessions[k] == r.sessions[k]);
        }
    }
    assert forall|i: int, j: int| 0 <= i < j < n.rooms.len() implies n.rooms[i].0
        != n.rooms[j].0 by {}
    assert forall|i: int| 0 <= i < n.rooms.len() implies (#[trigger] n.rooms[i]).1.no_duplicates()
        by {
        if i == at && at < r.rooms.len() {
            let ids = r.rooms[at].1;
            assert forall|k: int| 0 <= k < ids.len() implies ids[k] != s.id by {
                assert(r.houses(r.rooms[at].0, r.rooms[at].1[k]));
            }
        }
    }
    assert forall|i: int, k: int|
        0 <= i < n.rooms.len() && 0 <= k < n.rooms[i].1.len() implies n.houses(
        n.rooms[i].0,
        #[trigger] n.rooms[i].1[k],
    ) by {
        let id = n.rooms[i].1[k];
        if id != s.id {
            assert(r.houses(r.rooms[i].0, r.rooms[i].1[k]));
            assert(n.has(id) <==> r.has(id));
        } else if i < r.rooms.len() && i != at {
            assert(r.houses(r.rooms[i].0, r.rooms[i].1[k]));
        }
    }
    assert forall|i: int| 0 <= i < n.sessions.len() implies n.lists(#[trigger] n.sessions[i]) by {
        let t = n.sessions[i];
        let b = if i < r.sessions.len() {
            assert(r.lists(r.sessions[i]));
            room_slot(r.rooms, t.room)
        } else {
            at
        };
        lemma_room_slot(r.rooms, t.room);
        lemma_found_room(n, b);
        if i == r.sessions.len() {
            assert(n.rooms[at].1[n.rooms[at].1.len() - 1] == s.id);
        } else {
            let k = choose|k: int| 0 <= k < r.rooms[b].1.len() && r.rooms[b].1[k] == t.id;
            assert(n.rooms[b].1[k] == t.id);
        }
    }
}

proof fn lemma_without(ids: Seq<Seq<char>>, id: Seq<char>)
    requires
        ids.no_duplicates(),
    ensures
        without(ids, id).no_duplicates(),
        forall|x: Seq<char>| #[trigger]
            without(ids, id).contains(x) <==> ids.contains(x) && x != id,
    decreases ids.len(),
{
    if ids.len() > 0 {
        let rest = ids.drop_last();
        lemma_without(rest, id);
        let left = without(ids, id);
        let last = ids.last();
        assert(!rest.contains(last));
        assert forall|x: Seq<char>| #[trigger] left.contains(x) <==> ids.contains(x) && x
            != id by {
            if ids.contains(x) && x != id {
                let k = choose|k: int| 0 <= k < ids.len() && ids[k] == x;
                if k < rest.len() {
                    assert(rest[k] == x);
                    assert(without(rest, id).contains(x));
                    let j = choose|j: int|
                        0 <= j < without(rest, id).len() && without(rest, id)[j] == x;
                    assert(left[j] == x);
                } else {
                    assert(left[left.len() - 1] == x);
                }
            }
            if left.contains(x) {
                let j = choose|j: int| 0 <= j < left.len() && left[j] == x;
                if j < without(rest, id).len() {
                    assert(without(rest, id)[j] == x);
                    assert(without(rest, id).contains(x));
                    let k = choose|k: int| 0 <= k < rest.len() && rest[k] == x;
                    assert(ids[k] == x);
                } else {
                    assert(ids[ids.len() - 1] == x);
                }
            }
        }
        assert(!without(rest, id).contains(last));
        assert forall|i: int, j: int| 0 <= i < left.len() && 0 <= j < left.len() && i
            != j implies left[i] != left[j] by {
            let w = without(rest, id);
            if last != id {
                if i == w.len() {
                    assert(w.contains(w[j]));
                } else if j == w.len() {
                    assert(w.contains(w[i]));
                }
            }
        }
    }
}

/// A session that was taken out cannot be found any more; every other can, no longer told
/// of that agent; and the registry stays in order.
#[verifier::spinoff_prover]
pub proof fn law_remove_takes_out<S>(r: RegistryView<S>, id: Seq<char>)
    requires
        r.wf(),
        r.has(id),
    ensures
        r.without(id).wf(),
        !r.without(id).has(id),
        r.without(id).sessions.len() == r.sessions.len() - 1,
        forall|o: Seq<char>|
            o != id ==> (#[trigger] r.without(id).has(o) <==> r.has(o)) && (r.has(o) ==> r.without(
                id,
            ).session(o) == forgetting(r.session(o), r.session(id).agent_id)),
{
    let n = r.without(id);
    let at = session_slot(r.sessions, id);
    let s = r.sessions[at];
    lemma_session_slot(r.sessions, id);
    let ra = room_slot(r.rooms, s.room);
    assert(r.lists(s));
    lemma_room_slot(r.rooms, s.room);
    let ids = r.rooms[ra].1;
    lemma_without(ids, id);
    let left = without(ids, id);
    assert forall|i: int| 0 <= i < n.sessions.len() implies #[trigger] n.sessions[i]
        == forgetting(
        r.sessions[if i < at {
            i
        } else {
            i + 1
        }],
        s.agent_id,
    ) by {}
    assert forall|i: int, j: int| 0 <= i < j < n.sessions.len() implies n.sessions[i].id
        != n.sessions[j].id by {}
    lemma_session_slot(n.sessions, id);
    if n.has(id) {
        let k = session_slot(n.sessions, id);
        assert(n.sessions[k].id == id);
    }
    assert forall|o: Seq<char>| o != id implies (#[trigger] n.has(o) <==> r.has(o)) && (r.has(o)
        ==> n.session(o) == forgetting(r.session(o), s.agent_id)) by {
        lemma_session_slot(r.sessions, o);
        lemma_session_slot(n.sessions, o);
        if r.has(o) {
            let k = session_slot(r.sessions, o);
            let k2 = if k < at {
                k
            } else {
                k - 1
            };
            assert(n.sessions[k2].id == o);
            lemma_found_session(n, k2);
        }
        if n.has(o) {
            let k = session_slot(n.sessions, o);
            assert(n.sessions[k].id == o);
            let k2 = if k < at {
                k
            } else {
                k + 1
            };
            assert(r.sessions[k2].id == o);
        }
    }
    assert forall|i: int, j: int| 0 <= i < j < n.rooms.len() implies n.rooms[i].0
        != n.rooms[j].0 by {}
    assert forall|i: int, k: int|
        0 <= i < n.rooms.len() && 0 <= k < n.rooms[i].1.len() implies n.houses(
        n.rooms[i].0,
        #[trigger] n.rooms[i].1[k],
    ) by {
        let o = n.rooms[i].1[k];
        let i0 = if left.len() == 0 && i >= ra {
            i + 1
        } else {
            i
        };
        assert(r.rooms[i0].0 == n.rooms[i].0);
        if i0 == ra {
            assert(left.contains(left[k]));
            let k0 = choose|k0: int| 0 <= k0 < ids.len() && ids[k0] == o;
            assert(r.houses(r.rooms[ra].0, r.rooms[ra].1[k0]));
        } else {
            assert(r.houses(r.rooms[i0].0, r.rooms[i0].1[k]));
        }
        assert(o != id);
        assert(n.has(o) <==> r.has(o));
    }
    assert forall|i: int| 0 <= i < n.sessions.len() implies n.lists(#[trigger] n.sessions[i]) by {
        let t = r.sessions[if i < at {
            i
        } else {
            i + 1
        }];
        assert(r.lists(t));
        lemma_room_slot(r.rooms, t.room);
        let b0 = room_slot(r.rooms, t.room);
        let k = choose|k: int| 0 <= k < r.rooms[b0].1.len() && r.rooms[b0].1[k] == t.id;
        if b0 == ra {
            assert(ids.contains(t.id));
            assert(left.contains(t.id));
            lemma_found_room(n, ra);
        } else {
            let b = if left.len() == 0 && b0 > ra {
                b0 - 1
            } else {
                b0
            };
            assert(n.rooms[b] == r.rooms[b0]);
            lemma_found_room(n, b);
        }
    }
}

/// When an agent's session goes, nobody is left who was told of that agent: all are told
/// again should it come back.
pub proof fn law_departed_agents_are_forgotten<S>(r: RegistryView<S>, id: Seq<char>, i: int)
    requires
        r.has(id),
        0 <= i < r.without(id).sessions.len(),
    ensures
        !r.without(id).sessions[i].announced.contains(r.session(id).agent_id),
{
}

/// No room lingers without a session.
pub proof fn law_no_room_without_a_session<S>(r: RegistryView<S>, i: int)
    requires
        r.wf(),
        0 <= i < r.rooms.len(),
    ensures
        exists|k: int|
            0 <= k < r.sessions.len() && (#[trigger] r.sessions[k]).room == r.rooms[i].0,
{
    let id = r.rooms[i].1[0];
    assert(r.houses(r.rooms[i].0, id));
    lemma_session_slot(r.sessions, id);
    assert(r.sessions[session_slot(r.sessions, id)].room == r.rooms[i].0);
}

proof fn lemma_slots_of<S>(r: RegistryView<S>, ids: Seq<Seq<char>>)
    requires
        r.wf(),
        ids.no_duplicates(),
        forall|k: int| 0 <= k < ids.len() ==> r.has(#[trigger] ids[k]),
    ensures
        slots_of(r.sessions, ids).len() == ids.len(),
        forall|k: int|
            0 <= k < ids.len() ==> #[trigger] slots_of(r.sessions, ids)[k] == session_slot(
                r.sessions,
                ids[k],
            ),
    decreases ids.len(),
{
    if ids.len() > 0 {
        let rest = ids.drop_last();
        assert forall|k: int| 0 <= k < rest.len() implies r.has(#[trigger] rest[k]) by {
            assert(rest[k] == ids[k]);
        }
        lemma_slots_of(r, rest);
        assert(r.has(ids[ids.len() - 1]));
        assert forall|k: int| 0 <= k < ids.len() implies #[trigger] slots_of(r.sessions, ids)[k]
            == session_slot(r.sessions, ids[k]) by {
            if k < rest.len() {
                assert(slots_of(r.sessions, rest)[k] == session_slot(r.sessions, rest[k]));
            }
        }
    }
}

/// The members of a room are the sessions that belong to it, each once.
pub proof fn law_members_are_those_of_the_room<S>(r: RegistryView<S>, key: RoomView)
    requires
        r.wf(),
    ensures
        r.members(key).no_duplicates(),
        forall|i: int| #[trigger]
            r.members(key).contains(i) <==> 0 <= i < r.sessions.len() && r.sessions[i].room == key,
{
    let at = room_slot(r.rooms, key);
    lemma_room_slot(r.rooms, key);
    let m = r.members(key);
    if at < r.rooms.len() {
        let ids = r.rooms[at].1;
        assert forall|k: int| 0 <= k < ids.len() implies r.has(#[trigger] ids[k]) by {
            assert(r.houses(r.rooms[at].0, r.rooms[at].1[k]));
        }
        lemma_slots_of(r, ids);
        assert forall|i: int, j: int| 0 <= i < m.len() && 0 <= j < m.len() && i != j implies m[i]
            != m[j] by {
            lemma_session_slot(r.sessions, ids[i]);
            lemma_session_slot(r.sessions, ids[j]);
            assert(r.has(ids[i]) && r.has(ids[j]));
        }
        assert forall|i: int| #[trigger] m.contains(i) implies 0 <= i < r.sessions.len()
            && r.sessions[i].room == key by {
            let k = choose|k: int| 0 <= k < m.len() && m[k] == i;
            assert(r.houses(r.rooms[at].0, r.rooms[at].1[k]));
            lemma_session_slot(r.sessions, ids[k]);
        }
        assert forall|i: int| 0 <= i < r.sessions.len() && r.sessions[i].room == key implies
            #[trigger] m.contains(i) by {
            assert(r.lists(r.sessions[i]));
            let k = choose|k: int| 0 <= k < ids.len() && ids[k] == r.sessions[i].id;
            lemma_found_session(r, i);
            assert(m[k] == i);
        }
    } else {
        assert forall|i: int| 0 <= i < r.sessions.len() && r.sessions[i].room == key implies
            #[trigger] m.contains(i) by {
            assert(r.lists(r.sessions[i]));
        }
    }
}

/// What leaves every session its id and its room leaves the registry in order.
pub proof fn law_order_is_about_ids_and_rooms<S>(r: RegistryView<S>, n: RegistryView<S>)
    requires
        r.wf(),
        n.rooms == r.rooms,
        n.sessions.len() == r.sessions.len(),
        forall|i: int|
            0 <= i < r.sessions.len() ==> (#[trigger] n.sessions[i]).id == r.sessions[i].id
                && n.sessions[i].room == r.sessions[i].room,
    ensures
        n.wf(),
        forall|id: Seq<char>| #[trigger] n.has(id) <==> r.has(id),
        forall|key: RoomView| #[trigger] n.members(key) == r.members(key),
{
    assert forall|id: Seq<char>| #[trigger] session_slot(n.sessions, id) == session_slot(
        r.sessions,
        id,
    ) by {
        lemma_session_slot(n.sessions, id);
        lemma_session_slot(r.sessions, id);
        let a = session_slot(n.sessions, id);
        let b = session_slot(r.sessions, id);
        if a < n.sessions.len() {
            assert(r.sessions[a].id == n.sessions[a].id);
        }
        if b < n.sessions.len() {
            assert(r.sessions[b].id == n.sessions[b].id);
        }
    }
    assert forall|i: int, k: int|
        0 <= i < n.rooms.len() && 0 <= k < n.rooms[i].1.len() implies n.houses(
        n.rooms[i].0,
        #[trigger] n.rooms[i].1[k],
    ) by {
        let id = n.rooms[i].1[k];
        assert(r.houses(r.rooms[i].0, r.rooms[i].1[k]));
        lemma_session_slot(r.sessions, id);
        assert(n.sessions[session_slot(n.sessions, id)].room == r.session(id).room);
    }
    assert forall|i: int| 0 <= i < n.sessions.len() implies n.lists(#[trigger] n.sessions[i]) by {
        assert(r.lists(r.sessions[i]));
    }
    assert forall|i: int, j: int| 0 <= i < j < n.sessions.len() implies n.sessions[i].id
        != n.sessions[j].id by {
        assert(r.sessions[i].id != r.sessions[j].id);
    }
    assert forall|key: RoomView| #[trigger] n.members(key) == r.members(key) by {
        let at = room_slot(r.rooms, key);
        if at < r.rooms.len() {
            lemma_same_slots(r.sessions, n.sessions, r.rooms[at].1);
        }
    }
}

proof fn lemma_same_slots<S>(a: Seq<SessionView<S>>, b: Seq<SessionView<S>>, ids: Seq<Seq<char>>)
    requires
        a.len() == b.len(),
        forall|id: Seq<char>| #[trigger] session_slot(b, id) == session_slot(a, id),
    ensures
        slots_of(b, ids) == slots_of(a, ids),
    decreases ids.len(),
{
    if ids.len() > 0 {
        lemma_same_slots(a, b, ids.drop_last());
        assert(session_slot(b, ids.last()) == session_slot(a, ids.last()));
    }
}

proof fn lemma_without_nothing(ids: Seq<Seq<char>>, id: Seq<char>)
    requires
        !ids.contains(id),
    ensures
        without(ids, id) == ids,
    decreases ids.len(),
{
    if ids.len() > 0 {
        let rest = ids.drop_last();
        assert(ids[ids.len() - 1] == ids.last());
        if rest.contains(id) {
            let k = choose|k: int| 0 <= k < rest.len() && rest[k] == id;
            assert(ids[k] == id);
        }
        lemma_without_nothing(rest, id);
        assert(without(ids, id) =~= ids);
    }
}

/// A session that comes and goes leaves no trace: the rooms are as they were, and so is
/// every other session, but that none was told of its agent any more.
pub proof fn law_coming_and_going_leaves_no_trace<S>(r: RegistryView<S>, s: SessionView<S>)
    requires
        r.wf(),
        !r.has(s.id),
    ensures
        r.with(s).without(s.id).rooms == r.rooms,
        r.with(s).without(s.id).sessions == r.sessions.map_values(
            |o: SessionView<S>| forgetting(o, s.agent_id),
        ),
{
    let n = r.with(s);
    law_insert_adds(r, s);
    lemma_session_slot(r.sessions, s.id);
    lemma_found_session(n, r.sessions.len() as int);
    let at = room_slot(r.rooms, s.room);
    lemma_room_slot(r.rooms, s.room);
    lemma_found_room(n, at);
    let back = n.without(s.id);
    assert(back.sessions =~= r.sessions.map_values(
        |o: SessionView<S>| forgetting(o, s.agent_id),
    ));
    if at < r.rooms.len() {
        let ids = r.rooms[at].1;
        if ids.contains(s.id) {
            let k = choose|k: int| 0 <= k < ids.len() && ids[k] == s.id;
            assert(r.houses(r.rooms[at].0, r.rooms[at].1[k]));
        }
        lemma_without_nothing(ids, s.id);
        assert(ids.push(s.id).drop_last() =~= ids);
        assert(without(ids.push(s.id), s.id) == ids);
        assert(back.rooms =~= r.rooms);
    } else {
        let ids = seq![s.id];
        assert(ids.drop_last() =~= Seq::<Seq<char>>::empty());
        assert(without(ids.drop_last(), s.id).len() == 0);
        assert(without(ids, s.id).len() == 0);
        assert(back.rooms =~= r.rooms);
    }
}

} // verus!
