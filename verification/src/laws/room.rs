//! Sessions: places, gains, mutes, joins and frames.

use crate::mixer;
use crate::proto;
use crate::proto::{Quat, Vec3, ViewerDataMessage};
use crate::room;
use crate::room::{RoomView, SessionView, SpatialState};
use vstd::prelude::*;

verus! {

// ---- places ----

/// A number that is finite and has a finite square: it is below 2 to the power of 512, so
/// its exponent field is below 1023 + 512.
pub open spec fn usable(bits: u64) -> bool {
    (bits as int / 0x10_0000_0000_0000) % 2048 < 1535
}

/// A position of usable numbers.
pub open spec fn names_point(v: Option<Vec3>) -> bool {
    match v {
        Some(p) => usable(p.x) && usable(p.y) && usable(p.z),
        None => false,
    }
}

/// An orientation of usable numbers.
pub open spec fn names_turn(v: Option<Quat>) -> bool {
    match v {
        Some(q) => usable(q.x) && usable(q.y) && usable(q.z) && usable(q.w),
        None => false,
    }
}

/// A message sets what it names and leaves the rest: the avatar is exactly where the
/// message puts it, whatever was before, and so are both orientations. The ear is tethered
/// to the avatar's new place, from where the message puts it or else from where it was; it
/// is not while the avatar's place is unknown. A message that names nothing changes
/// nothing.
pub proof fn law_a_message_sets_what_it_names<T: Fn(Vec3, Vec3) -> Vec3>(
    s: SpatialState,
    m: ViewerDataMessage,
    tether: T,
    s2: SpatialState,
)
    requires
        room::state_after(s, m, tether, s2),
    ensures
        names_point(m.avatar_pos) ==> s2.avatar_pos == m.avatar_pos->Some_0 && s2.known,
        !names_point(m.avatar_pos) ==> s2.avatar_pos == s.avatar_pos && s2.known == s.known,
        names_turn(m.avatar_rot) ==> s2.avatar_rot == m.avatar_rot->Some_0,
        !names_turn(m.avatar_rot) ==> s2.avatar_rot == s.avatar_rot,
        names_turn(m.listener_rot) ==> s2.listener_rot == m.listener_rot->Some_0,
        !names_turn(m.listener_rot) ==> s2.listener_rot == s.listener_rot,
        !s2.known ==> s2.listener_pos == if names_point(m.listener_pos) {
            m.listener_pos->Some_0
        } else {
            s.listener_pos
        },
        s2.known && (names_point(m.avatar_pos) || names_point(m.listener_pos) || names_turn(
            m.avatar_rot,
        ) || names_turn(m.listener_rot)) ==> call_ensures(
            tether,
            (
                if names_point(m.listener_pos) {
                    m.listener_pos->Some_0
                } else {
                    s.listener_pos
                },
                s2.avatar_pos,
            ),
            s2.listener_pos,
        ),
        !names_point(m.avatar_pos) && !names_point(m.listener_pos) && !names_turn(m.avatar_rot)
            && !names_turn(m.listener_rot) ==> s2 == s,
{
}

/// `states` are the states of a new session before and after each of some messages.
#[verifier::opaque]
pub open spec fn is_history_of<T: Fn(Vec3, Vec3) -> Vec3>(
    messages: Seq<ViewerDataMessage>,
    tether: T,
    states: Seq<SpatialState>,
) -> bool {
    &&& states.len() == messages.len() + 1
    &&& states[0] == room::nowhere()
    &&& forall|i: int|
        0 <= i < messages.len() ==> room::state_after(
            states[i],
            #[trigger] messages[i],
            tether,
            states[i + 1],
        )
}

/// The last step of a history, and the history before it.
#[verifier::spinoff_prover]
proof fn lemma_history_step<T: Fn(Vec3, Vec3) -> Vec3>(
    messages: Seq<ViewerDataMessage>,
    tether: T,
    states: Seq<SpatialState>,
)
    requires
        is_history_of(messages, tether, states),
        messages.len() > 0,
    ensures
        is_history_of(messages.drop_last(), tether, states.drop_last()),
        states.len() == messages.len() + 1,
        ({
            let m = messages.last();
            let s = states.drop_last().last();
            let s2 = states.last();
            &&& names_point(m.avatar_pos) ==> s2.avatar_pos == m.avatar_pos->Some_0 && s2.known
            &&& !names_point(m.avatar_pos) ==> s2.avatar_pos == s.avatar_pos && s2.known == s.known
            &&& names_turn(m.avatar_rot) ==> s2.avatar_rot == m.avatar_rot->Some_0
            &&& !names_turn(m.avatar_rot) ==> s2.avatar_rot == s.avatar_rot
            &&& names_turn(m.listener_rot) ==> s2.listener_rot == m.listener_rot->Some_0
            &&& !names_turn(m.listener_rot) ==> s2.listener_rot == s.listener_rot
        }),
{
    reveal(is_history_of);
    let rest = messages.drop_last();
    let before = states.drop_last();
    assert forall|i: int| 0 <= i < rest.len() implies room::state_after(
        before[i],
        #[trigger] rest[i],
        tether,
        before[i + 1],
    ) by {
        assert(rest[i] == messages[i]);
    }
    let n = rest.len() as int;
    assert(messages[n] == messages.last());
    assert(room::state_after(states[n], messages[n], tether, states[n + 1]));
    law_a_message_sets_what_it_names(before.last(), messages.last(), tether, states.last());
}

/// Over any messages, one after the other, from a new session on: the avatar is where the
/// last of them put it that put it anywhere, which is message `i`. Where none did (`i` is
/// -1), its place is unknown.
#[verifier::spinoff_prover]
pub proof fn law_the_last_position_counts<T: Fn(Vec3, Vec3) -> Vec3>(
    messages: Seq<ViewerDataMessage>,
    tether: T,
    states: Seq<SpatialState>,
    i: int,
)
    requires
        is_history_of(messages, tether, states),
        -1 <= i < messages.len(),
        i >= 0 ==> names_point(messages[i].avatar_pos),
        forall|j: int|
            i < j < messages.len() ==> !names_point((#[trigger] messages[j]).avatar_pos),
    ensures
        i >= 0 ==> states.last().known && states.last().avatar_pos
            == messages[i].avatar_pos->Some_0,
        i == -1 ==> !states.last().known && states.last().avatar_pos == (Vec3 { x: 0, y: 0, z: 0 }),
    decreases messages.len(),
{
    if messages.len() == 0 {
        reveal(is_history_of);
    } else {
        let rest = messages.drop_last();
        lemma_history_step(messages, tether, states);
        assert(messages[messages.len() - 1] == messages.last());
        if i < rest.len() {
            assert(i >= 0 ==> rest[i] == messages[i]);
            assert forall|j: int| i < j < rest.len() implies !names_point(
                (#[trigger] rest[j]).avatar_pos,
            ) by {
                assert(rest[j] == messages[j]);
            }
            law_the_last_position_counts(rest, tether, states.drop_last(), i);
        }
    }
}

/// Over any messages, one after the other, from a new session on: the avatar is turned as
/// the last of them turned it that turned it at all, which is message `i`; as at the start
/// where none did (`i` is -1).
#[verifier::spinoff_prover]
pub proof fn law_the_last_turn_counts<T: Fn(Vec3, Vec3) -> Vec3>(
    messages: Seq<ViewerDataMessage>,
    tether: T,
    states: Seq<SpatialState>,
    i: int,
)
    requires
        is_history_of(messages, tether, states),
        -1 <= i < messages.len(),
        i >= 0 ==> names_turn(messages[i].avatar_rot),
        forall|j: int|
            i < j < messages.len() ==> !names_turn((#[trigger] messages[j]).avatar_rot),
    ensures
        i >= 0 ==> states.last().avatar_rot == messages[i].avatar_rot->Some_0,
        i == -1 ==> states.last().avatar_rot == (Quat {
            x: 0,
            y: 0,
            z: 0,
            w: 0x3FF0_0000_0000_0000,
        }),
    decreases messages.len(),
{
    if messages.len() == 0 {
        reveal(is_history_of);
    } else {
        let rest = messages.drop_last();
        lemma_history_step(messages, tether, states);
        assert(messages[messages.len() - 1] == messages.last());
        if i < rest.len() {
            assert(i >= 0 ==> rest[i] == messages[i]);
            assert forall|j: int| i < j < rest.len() implies !names_turn(
                (#[trigger] rest[j]).avatar_rot,
            ) by {
                assert(rest[j] == messages[j]);
            }
            law_the_last_turn_counts(rest, tether, states.drop_last(), i);
        }
    }
}

/// Over any messages, one after the other, from a new session on: the ear is turned as the
/// last of them turned it that turned it at all, which is message `i`; as at the start where
/// none did (`i` is -1).
#[verifier::spinoff_prover]
pub proof fn law_the_last_turn_of_the_ear_counts<T: Fn(Vec3, Vec3) -> Vec3>(
    messages: Seq<ViewerDataMessage>,
    tether: T,
    states: Seq<SpatialState>,
    i: int,
)
    requires
        is_history_of(messages, tether, states),
        -1 <= i < messages.len(),
        i >= 0 ==> names_turn(messages[i].listener_rot),
        forall|j: int|
            i < j < messages.len() ==> !names_turn((#[trigger] messages[j]).listener_rot),
    ensures
        i >= 0 ==> states.last().listener_rot == messages[i].listener_rot->Some_0,
        i == -1 ==> states.last().listener_rot == (Quat {
            x: 0,
            y: 0,
            z: 0,
            w: 0x3FF0_0000_0000_0000,
        }),
    decreases messages.len(),
{
    if messages.len() == 0 {
        reveal(is_history_of);
    } else {
        let rest = messages.drop_last();
        lemma_history_step(messages, tether, states);
        assert(messages[messages.len() - 1] == messages.last());
        if i < rest.len() {
            assert(i >= 0 ==> rest[i] == messages[i]);
            assert forall|j: int| i < j < rest.len() implies !names_turn(
                (#[trigger] rest[j]).listener_rot,
            ) by {
                assert(rest[j] == messages[j]);
            }
            law_the_last_turn_of_the_ear_counts(rest, tether, states.drop_last(), i);
        }
    }
}

/// Who has said nothing is at the origin and turned nowhere, and that place is not known.
pub proof fn law_identity(r: SpatialState)
    requires
        call_ensures(SpatialState::identity, (), r),
    ensures
        !r.known,
        r.avatar_pos == (Vec3 { x: 0, y: 0, z: 0 }),
        r.listener_pos == (Vec3 { x: 0, y: 0, z: 0 }),
        r.avatar_rot == (Quat { x: 0, y: 0, z: 0, w: 0x3FF0_0000_0000_0000 }),
        r.listener_rot == (Quat { x: 0, y: 0, z: 0, w: 0x3FF0_0000_0000_0000 }),
{
}

// ---- gains and mutes ----

/// Entry `i` is the last one for an agent.
pub open spec fn is_last_for<V>(entries: Seq<(Seq<char>, V)>, i: int, agent: Seq<char>) -> bool {
    &&& 0 <= i < entries.len()
    &&& entries[i].0 == agent
    &&& forall|j: int| i < j < entries.len() ==> (#[trigger] entries[j]).0 != agent
}

/// No entry is for an agent.
pub open spec fn none_for<V>(entries: Seq<(Seq<char>, V)>, agent: Seq<char>) -> bool {
    forall|j: int| 0 <= j < entries.len() ==> (#[trigger] entries[j]).0 != agent
}

proof fn lemma_table<V>(
    table: Map<Seq<char>, V>,
    entries: Seq<(Seq<char>, V)>,
    agent: Seq<char>,
)
    requires
        table.dom().finite(),
    ensures
        ({
            let after = room::noted_all(table, entries);
            &&& after.dom().finite()
            &&& after.len() <= table.len() + entries.len()
            &&& after.len() >= table.len()
            &&& table.contains_key(agent) ==> after.contains_key(agent)
            &&& none_for(entries, agent) ==> (after.contains_key(agent) <==> table.contains_key(
                agent,
            )) && (table.contains_key(agent) ==> after[agent] == table[agent])
            &&& forall|i: int| #[trigger]
                is_last_for(entries, i, agent) && after.contains_key(agent) ==> after[agent]
                    == entries[i].1
            &&& !none_for(entries, agent) && table.len() + entries.len() <= 256
                ==> after.contains_key(agent)
            &&& !none_for(entries, agent) && after.len() < 256 ==> after.contains_key(agent)
            &&& table.len() >= 256 && !table.contains_key(agent) ==> !after.contains_key(agent)
        }),
    decreases entries.len(),
{
    if entries.len() > 0 {
        let rest = entries.drop_last();
        let last = entries.last();
        let n = rest.len() as int;
        lemma_table(table, rest, agent);
        let before = room::noted_all(table, rest);
        let after = room::noted_all(table, entries);
        assert(entries[n] == last);
        if before.contains_key(last.0) {
            assert(before.insert(last.0, last.1).dom() =~= before.dom());
        } else {
            assert(before.insert(last.0, last.1).dom() =~= before.dom().insert(last.0));
        }
        if none_for(entries, agent) {
            assert(entries[n].0 != agent);
            assert forall|j: int| 0 <= j < rest.len() implies (#[trigger] rest[j]).0 != agent by {
                assert(rest[j] == entries[j]);
            }
        }
        assert forall|i: int| #[trigger]
            is_last_for(entries, i, agent) && after.contains_key(agent) implies after[agent]
            == entries[i].1 by {
            if i < n {
                assert(entries[n].0 != agent);
                assert forall|j: int| i < j < rest.len() implies (#[trigger] rest[j]).0
                    != agent by {
                    assert(rest[j] == entries[j]);
                }
                assert(is_last_for(rest, i, agent));
            }
        }
        if !none_for(entries, agent) && last.0 != agent {
            let j = choose|j: int| 0 <= j < entries.len() && (#[trigger] entries[j]).0 == agent;
            assert(rest[j].0 == agent);
        }
    }
}

/// A listener's gain for an agent is the last one that was asked for, up to 880 units,
/// which is four times unity: asked for 330 it is 330, asked for 881 it is 880. It holds
/// from then on, until another is asked for. An agent that was in the table or found room
/// in it is in it, and a table of fewer than 256 has room; a full one takes no newcomer.
pub proof fn law_the_gain_asked_for_is_kept<S>(
    s: SessionView<S>,
    m: ViewerDataMessage,
    state: SpatialState,
    agent: Seq<char>,
)
    requires
        s.gains.dom().finite(),
    ensures
        ({
            let asked = proto::pairs_view(m.user_gain@);
            let after = s.told(m, state);
            &&& forall|i: int| #[trigger]
                is_last_for(asked, i, agent) && after.gains.contains_key(agent)
                    ==> after.gains[agent] == if asked[i].1 <= 880 {
                    asked[i].1
                } else {
                    880
                }
            &&& none_for(asked, agent) ==> (after.gains.contains_key(agent)
                <==> s.gains.contains_key(agent)) && (s.gains.contains_key(agent)
                ==> after.gains[agent] == s.gains[agent])
            &&& s.gains.contains_key(agent) ==> after.gains.contains_key(agent)
            &&& !none_for(asked, agent) && s.gains.len() + m.user_gain@.len() <= 256
                ==> after.gains.contains_key(agent)
            &&& !none_for(asked, agent) && after.gains.len() < 256
                ==> after.gains.contains_key(agent)
            &&& s.gains.len() >= 256 && !s.gains.contains_key(agent)
                ==> !after.gains.contains_key(agent)
        }),
{
    let asked = proto::pairs_view(m.user_gain@);
    let kept = room::clamped(asked);
    lemma_table(s.gains, kept, agent);
    assert forall|i: int| #[trigger]
        is_last_for(asked, i, agent) && s.told(m, state).gains.contains_key(agent) implies s.told(
        m,
        state,
    ).gains[agent] == if asked[i].1 <= 880 {
        asked[i].1
    } else {
        880
    } by {
        assert forall|j: int| i < j < kept.len() implies (#[trigger] kept[j]).0 != agent by {
            assert(asked[j].0 != agent);
        }
        assert(is_last_for(kept, i, agent));
    }
    if none_for(asked, agent) {
        assert forall|j: int| 0 <= j < kept.len() implies (#[trigger] kept[j]).0 != agent by {
            assert(asked[j].0 != agent);
        }
    } else {
        let j = choose|j: int| 0 <= j < asked.len() && (#[trigger] asked[j]).0 == agent;
        assert(kept[j].0 == agent);
    }
}

/// Whom a listener muted or unmuted last, stays so; whom it did not speak of, stays as they
/// were.
pub proof fn law_the_last_mute_counts<S>(
    s: SessionView<S>,
    m: ViewerDataMessage,
    state: SpatialState,
    agent: Seq<char>,
)
    requires
        s.mutes.dom().finite(),
    ensures
        ({
            let asked = proto::pairs_view(m.user_mute@);
            let after = s.told(m, state);
            &&& forall|i: int| #[trigger]
                is_last_for(asked, i, agent) && after.mutes.contains_key(agent)
                    ==> after.mutes[agent] == asked[i].1
            &&& none_for(asked, agent) ==> (after.mutes.contains_key(agent)
                <==> s.mutes.contains_key(agent)) && (s.mutes.contains_key(agent)
                ==> after.mutes[agent] == s.mutes[agent])
            &&& s.mutes.contains_key(agent) ==> after.mutes.contains_key(agent)
            &&& !none_for(asked, agent) && s.mutes.len() + m.user_mute@.len() <= 256
                ==> after.mutes.contains_key(agent)
            &&& !none_for(asked, agent) && after.mutes.len() < 256
                ==> after.mutes.contains_key(agent)
            &&& s.mutes.len() >= 256 && !s.mutes.contains_key(agent)
                ==> !after.mutes.contains_key(agent)
        }),
{
    lemma_table(s.mutes, proto::pairs_view(m.user_mute@), agent);
}

/// The pairs of a message are its entries, in order.
pub proof fn law_entries_are_as_they_stand<V>(entries: Seq<(String, V)>, i: int)
    requires
        0 <= i < entries.len(),
    ensures
        proto::pairs_view(entries).len() == entries.len(),
        proto::pairs_view(entries)[i] == (entries[i].0@, entries[i].1),
{
}

/// A muted agent is heard at nothing, any other at the gain of the table, and at 220 units,
/// which is unity, where the table has none.
pub proof fn law_how_loud_a_listener_wants_an_agent<S>(s: SessionView<S>, agent: Seq<char>)
    ensures
        s.mutes.contains_key(agent) && s.mutes[agent] ==> s.peer_gain(agent) == 0,
        !(s.mutes.contains_key(agent) && s.mutes[agent]) && s.gains.contains_key(agent)
            ==> s.peer_gain(agent) == s.gains[agent],
        !(s.mutes.contains_key(agent) && s.mutes[agent]) && !s.gains.contains_key(agent)
            ==> s.peer_gain(agent) == 220,
{
}

/// After a message that asks for a gain, an agent who is not muted is heard at that gain,
/// up to 880 units; after one that mutes, at nothing; and unmuting brings back the gain
/// that was chosen.
pub proof fn law_a_message_sets_how_loud_an_agent_is<S>(
    s: SessionView<S>,
    m: ViewerDataMessage,
    state: SpatialState,
    agent: Seq<char>,
    g: int,
    u: int,
)
    requires
        s.gains.dom().finite(),
        s.mutes.dom().finite(),
        s.gains.len() + m.user_gain@.len() <= 256,
        s.mutes.len() + m.user_mute@.len() <= 256,
        is_last_for(proto::pairs_view(m.user_gain@), g, agent) || (g == -1 && none_for(
            proto::pairs_view(m.user_gain@),
            agent,
        )),
        is_last_for(proto::pairs_view(m.user_mute@), u, agent) || (u == -1 && none_for(
            proto::pairs_view(m.user_mute@),
            agent,
        )),
    ensures
        ({
            let muted = if u >= 0 {
                m.user_mute@[u].1
            } else {
                s.mutes.contains_key(agent) && s.mutes[agent]
            };
            let gain = if g >= 0 {
                if m.user_gain@[g].1 <= 880 {
                    m.user_gain@[g].1
                } else {
                    880
                }
            } else if s.gains.contains_key(agent) {
                s.gains[agent]
            } else {
                220
            };
            s.told(m, state).peer_gain(agent) == if muted {
                0
            } else {
                gain
            }
        }),
{
    law_the_gain_asked_for_is_kept(s, m, state, agent);
    law_the_last_mute_counts(s, m, state, agent);
}

// ---- joins, and what a message leaves alone ----

/// A join says that the session joined and whether it is primary; without one both stay as
/// they were. No message changes who the session is, where it belongs, its frames, its
/// level, whether it is over, or whom it was told of.
pub proof fn law_a_message_and_the_rest_of_a_session<S>(
    s: SessionView<S>,
    m: ViewerDataMessage,
    state: SpatialState,
)
    ensures
        ({
            let after = s.told(m, state);
            &&& m.join is Some ==> after.joined && after.primary == m.join->Some_0
            &&& m.join is None ==> after.joined == s.joined && after.primary == s.primary
            &&& after.state == state
            &&& after.id == s.id
            &&& after.agent_id == s.agent_id
            &&& after.room == s.room
            &&& after.spatial == s.spatial
            &&& after.inbound == s.inbound
            &&& after.level == s.level
            &&& after.closed == s.closed
            &&& after.announced == s.announced
        }),
{
}

/// A new session is who it is said to be, nowhere, silent, neither joined nor primary nor
/// over, with nobody muted or turned up or down, and told of nobody.
pub proof fn law_a_new_session_is_blank<S>(
    id: Seq<char>,
    agent_id: Seq<char>,
    key: RoomView,
    spatial: bool,
    agent: Seq<char>,
)
    ensures
        ({
            let s = room::fresh_session::<S>(id, agent_id, key, spatial);
            &&& s.id == id && s.agent_id == agent_id && s.room == key && s.spatial == spatial
            &&& !s.state.known && !s.joined && !s.primary && !s.closed
            &&& s.state.avatar_pos == (Vec3 { x: 0, y: 0, z: 0 })
            &&& s.state.listener_pos == (Vec3 { x: 0, y: 0, z: 0 })
            &&& s.state.avatar_rot == (Quat { x: 0, y: 0, z: 0, w: 0x3FF0_0000_0000_0000 })
            &&& s.state.listener_rot == (Quat { x: 0, y: 0, z: 0, w: 0x3FF0_0000_0000_0000 })
            &&& s.inbound.len() == 0 && s.level == 0
            &&& !s.gains.contains_key(agent) && !s.mutes.contains_key(agent)
            &&& !s.announced.contains(agent)
            &&& s.peer_gain(agent) == 220
        }),
{
}

// ---- frames ----

/// A queue gives its frames in the order in which they came, and nothing when it is empty.
pub proof fn law_frames_come_out_in_order<S>(queue: Seq<Seq<S>>)
    ensures
        queue.len() > 0 ==> room::next_frame(queue) == Some(queue[0]) && room::after_take(
            queue,
        ).len() == queue.len() - 1 && forall|i: int|
            0 <= i < queue.len() - 1 ==> #[trigger] room::after_take(queue)[i] == queue[i + 1],
        queue.len() == 0 ==> room::next_frame(queue) is None && room::after_take(queue).len() == 0,
{
}

/// A frame that is pushed is the last of the queue, which holds ten at most; the others
/// stay, but for the oldest of a full one.
pub proof fn law_a_frame_goes_to_the_end<S>(queue: Seq<Seq<S>>, frame: Seq<S>)
    requires
        queue.len() <= 10,
    ensures
        ({
            let after = room::buffered(queue, frame);
            let dropped = if queue.len() == 10 {
                1int
            } else {
                0int
            };
            &&& after.len() == queue.len() + 1 - dropped
            &&& after.last() == frame
            &&& forall|i: int|
                0 <= i < queue.len() - dropped ==> #[trigger] after[i] == queue[i + dropped]
        }),
{
}

/// A packet's samples stand in its frames one after the other: sample `i` is in frame
/// `i / 960` at `i % 960`. The frames have 960 samples each, there are no more of them than
/// it takes, and behind the last sample there is silence.
pub proof fn law_a_packet_keeps_its_samples<S>(pcm: Seq<S>, silence: S)
    ensures
        ({
            let frames = mixer::packet_frames(pcm, silence);
            &&& pcm.len() <= frames.len() * 960 < pcm.len() + 960
            &&& forall|f: int| 0 <= f < frames.len() ==> (#[trigger] frames[f]).len() == 960
            &&& forall|f: int, k: int|
                0 <= f < frames.len() && 0 <= k < 960 && f * 960 + k < pcm.len()
                    ==> #[trigger] frames[f][k] == pcm[f * 960 + k]
            &&& forall|f: int, k: int|
                0 <= f < frames.len() && 0 <= k < 960 && f * 960 + k >= pcm.len()
                    ==> #[trigger] frames[f][k] == silence
        }),
{
}

} // verus!
