//! One 20 ms tick of a room: who is heard by whom, how loud, and what each listener is
//! told of the others.
//!
//! Every listener gets a mix of their own: A hears B on the right while B hears A on the
//! left, which no mix shared by the room can express. The sums themselves are made from
//! what is decided here.

use crate::json;
use crate::json::JsonView;
use crate::mixer::{Contribution, Placement};
use crate::proto;
use crate::proto::RosterEntry;
use crate::registry;
use crate::registry::{Registry, RegistryView};
use crate::room;
use crate::room::{RoomKey, RoomView, Session, SessionView, SpatialState};
use crate::text::same_text;
use vstd::prelude::*;

verus! {

/// What one listener is to get on a tick.
pub struct ListenerOutput<P> {
    /// The id of the listener's session.
    pub session: String,
    /// Whose frames to sum, in the order of the room's members.
    pub contributions: Vec<Contribution<P>>,
    /// What to send down the data channel, if anything.
    pub roster: Option<String>,
}

/// What one tick of a room gives.
pub struct RoomMix<S, P> {
    /// Each member's frame of this tick; none means silence.
    pub frames: Vec<Option<Vec<S>>>,
    /// How loud each member was, on the wire's scale.
    pub levels: Vec<u8>,
    /// One output per member, in the order of the members.
    pub outputs: Vec<ListenerOutput<P>>,
}

// ---- drawing frames ----

/// A session whose next frame is taken for a tick, at the level that it has.
pub open spec fn drawn<S>(s: SessionView<S>, level: u8) -> SessionView<S> {
    SessionView { inbound: room::after_take(s.inbound), level, ..s }
}

/// The sessions once the first `k` members gave a frame.
pub open spec fn draw<S>(
    sessions: Seq<SessionView<S>>,
    members: Seq<int>,
    levels: Seq<u8>,
    k: nat,
) -> Seq<SessionView<S>>
    decreases k,
{
    if k == 0 {
        sessions
    } else {
        let before = draw(sessions, members, levels, (k - 1) as nat);
        let at = members[k - 1];
        before.update(at, drawn(before[at], levels[k - 1]))
    }
}

/// The frame that the member `k` gives on a tick.
pub open spec fn frame_of<S>(
    sessions: Seq<SessionView<S>>,
    members: Seq<int>,
    levels: Seq<u8>,
    k: int,
) -> Option<Seq<S>> {
    room::next_frame(draw(sessions, members, levels, k as nat)[members[k]].inbound)
}

/// `level` is how loud a frame is; silence has level 0.
pub open spec fn heard_at<S, L: Fn(&Vec<S>) -> u8>(
    level_of: L,
    frame: Option<Vec<S>>,
    level: u8,
) -> bool {
    match frame {
        Some(f) => call_ensures(level_of, (&f,), level),
        None => level == 0,
    }
}

/// Indices as integers.
pub open spec fn slots(members: Seq<usize>) -> Seq<int> {
    members.map_values(|k: usize| k as int)
}

proof fn lemma_draw_prefix<S>(
    sessions: Seq<SessionView<S>>,
    members: Seq<int>,
    a: Seq<u8>,
    b: Seq<u8>,
    k: nat,
)
    requires
        k <= a.len(),
        k <= b.len(),
        forall|i: int| 0 <= i < k ==> a[i] == b[i],
    ensures
        draw(sessions, members, a, k) == draw(sessions, members, b, k),
    decreases k,
{
    if k > 0 {
        lemma_draw_prefix(sessions, members, a, b, (k - 1) as nat);
    }
}

/// Takes exactly one frame of each member, to be reused for every listener, and notes how
/// loud it is.
#[verifier::spinoff_prover]
fn draw_frames<S, L: Fn(&Vec<S>) -> u8>(
    sessions: &mut Vec<Session<S>>,
    members: &Vec<usize>,
    level_of: &L,
) -> (r: (Vec<Option<Vec<S>>>, Vec<u8>))
    requires
        forall|i: int| 0 <= i < members@.len() ==> (#[trigger] members@[i]) < old(sessions)@.len(),
        forall|f: &Vec<S>| call_requires(*level_of, (f,)),
    ensures
        final(sessions)@.len() == old(sessions)@.len(),
        r.0@.len() == members@.len(),
        r.1@.len() == members@.len(),
        registry::session_views(final(sessions)@) == draw(
            registry::session_views(old(sessions)@),
            slots(members@),
            r.1@,
            members@.len(),
        ),
        forall|k: int|
            0 <= k < members@.len() ==> {
                &&& room::frame_view(#[trigger] r.0@[k]) == frame_of(
                    registry::session_views(old(sessions)@),
                    slots(members@),
                    r.1@,
                    k,
                )
                &&& heard_at(*level_of, r.0@[k], r.1@[k])
            },
{
    let ghost before = registry::session_views(sessions@);
    let ghost at = slots(members@);
    let mut frames: Vec<Option<Vec<S>>> = Vec::new();
    let mut levels: Vec<u8> = Vec::new();
    let mut i: usize = 0;
    while i < members.len()
        invariant
            i <= members@.len(),
            at == slots(members@),
            sessions@.len() == before.len(),
            frames@.len() == i,
            levels@.len() == i,
            forall|k: int| 0 <= k < members@.len() ==> (#[trigger] members@[k]) < before.len(),
            forall|f: &Vec<S>| call_requires(*level_of, (f,)),
            registry::session_views(sessions@) == draw(before, at, levels@, i as nat),
            forall|k: int|
                0 <= k < i ==> {
                    &&& room::frame_view(#[trigger] frames@[k]) == frame_of(before, at, levels@, k)
                    &&& heard_at(*level_of, frames@[k], levels@[k])
                },
        decreases members@.len() - i,
    {
        let m: usize = members[i];
        let ghost was = registry::session_views(sessions@);
        let ghost had = levels@;
        let frame = sessions[m].take_frame();
        let level: u8 = match &frame {
            Some(f) => level_of(f),
            None => 0,
        };
        sessions[m].level = level;
        assert(registry::session_views(sessions@) =~= was.update(
            m as int,
            drawn(was[m as int], level),
        ));
        levels.push(level);
        let ghost was_frames = frames@;
        frames.push(frame);
        proof {
            lemma_draw_prefix(before, at, had, levels@, i as nat);
            assert forall|k: int| 0 <= k < i implies frame_of(before, at, had, k) == frame_of(
                before,
                at,
                levels@,
                k,
            ) by {
                lemma_draw_prefix(before, at, had, levels@, k as nat);
            }
            assert forall|k: int| 0 <= k < i + 1 implies {
                &&& room::frame_view(#[trigger] frames@[k]) == frame_of(before, at, levels@, k)
                &&& heard_at(*level_of, frames@[k], levels@[k])
            } by {
                if k < i {
                    assert(frames@[k] == was_frames[k]);
                    assert(levels@[k] == had[k]);
                }
            }
        }
        i += 1;
    }
    (frames, levels)
}

// ---- who is heard ----

/// Whether a listener is to hear a speaker, as far as positions do not decide: nobody
/// hears themselves, silence, or whom they muted; and where positions count, both must be
/// known.
pub open spec fn may_hear<S>(
    listener: SessionView<S>,
    speaker: SessionView<S>,
    frame: Option<Seq<S>>,
) -> bool {
    &&& speaker.id != listener.id
    &&& frame is Some
    &&& listener.peer_gain(speaker.agent_id) > 0
    &&& listener.spatial ==> listener.state.known && speaker.state.known
}

/// `c` is the part of a speaker in what a listener hears.
pub open spec fn plays<S, P, F: Fn(SpatialState, SpatialState) -> Option<P>>(
    place: F,
    listener: SessionView<S>,
    speaker: SessionView<S>,
    frame: Option<Seq<S>>,
    c: Contribution<P>,
) -> bool {
    &&& may_hear(listener, speaker, frame)
    &&& c.gain == listener.peer_gain(speaker.agent_id)
    &&& match c.placement {
        Placement::Centre => !listener.spatial,
        Placement::At(p) => listener.spatial && call_ensures(
            place,
            (speaker.state, listener.state),
            Some(p),
        ),
    }
}

/// A speaker has no part in what a listener hears.
pub open spec fn is_left_out<S, P, F: Fn(SpatialState, SpatialState) -> Option<P>>(
    place: F,
    listener: SessionView<S>,
    speaker: SessionView<S>,
    frame: Option<Seq<S>>,
) -> bool {
    ||| !may_hear(listener, speaker, frame)
    ||| listener.spatial && call_ensures(
        place,
        (speaker.state, listener.state),
        None::<P>,
    )
}

/// `out` is what a listener hears: each of the first `n` members that plays, once, in
/// their order, and no other.
pub open spec fn hears<S, P, F: Fn(SpatialState, SpatialState) -> Option<P>>(
    place: F,
    sessions: Seq<SessionView<S>>,
    members: Seq<int>,
    frames: Seq<Option<Seq<S>>>,
    listener: SessionView<S>,
    n: int,
    out: Seq<Contribution<P>>,
) -> bool {
    &&& forall|i: int, j: int| 0 <= i < j < out.len() ==> out[i].speaker < out[j].speaker
    &&& forall|i: int|
        0 <= i < out.len() ==> {
            let c = #[trigger] out[i];
            c.speaker < n && plays(
                place,
                listener,
                sessions[members[c.speaker as int]],
                frames[c.speaker as int],
                c,
            )
        }
    &&& forall|k: int|
        0 <= k < n && (forall|i: int| 0 <= i < out.len() ==> (#[trigger] out[i]).speaker != k)
            ==> is_left_out::<S, P, F>(
            place,
            listener,
            sessions[#[trigger] members[k]],
            frames[k],
        )
}

/// What frames that may be missing hold.
pub open spec fn frame_views<S>(frames: Seq<Option<Vec<S>>>) -> Seq<Option<Seq<S>>> {
    frames.map_values(|f: Option<Vec<S>>| room::frame_view(f))
}

/// Finds what the session `listener` hears of the members' frames.
#[verifier::spinoff_prover]
fn contributions<S, P, F: Fn(SpatialState, SpatialState) -> Option<P>>(
    sessions: &Vec<Session<S>>,
    members: &Vec<usize>,
    frames: &Vec<Option<Vec<S>>>,
    listener: usize,
    place: &F,
) -> (r: Vec<Contribution<P>>)
    requires
        listener < sessions@.len(),
        frames@.len() == members@.len(),
        forall|i: int| 0 <= i < members@.len() ==> (#[trigger] members@[i]) < sessions@.len(),
        forall|s: SpatialState, l: SpatialState| call_requires(*place, (s, l)),
    ensures
        hears(
            *place,
            registry::session_views(sessions@),
            slots(members@),
            frame_views(frames@),
            sessions@[listener as int]@,
            members@.len() as int,
            r@,
        ),
{
    let ghost all = registry::session_views(sessions@);
    let ghost at = slots(members@);
    let ghost fs = frame_views(frames@);
    let ghost ear = sessions@[listener as int]@;
    let mut out: Vec<Contribution<P>> = Vec::new();
    let mut k: usize = 0;
    while k < members.len()
        invariant
            k <= members@.len(),
            listener < sessions@.len(),
            frames@.len() == members@.len(),
            all == registry::session_views(sessions@),
            at == slots(members@),
            fs == frame_views(frames@),
            ear == sessions@[listener as int]@,
            forall|i: int| 0 <= i < members@.len() ==> (#[trigger] members@[i]) < sessions@.len(),
            forall|s: SpatialState, l: SpatialState| call_requires(*place, (s, l)),
            hears(*place, all, at, fs, ear, k as int, out@),
        decreases members@.len() - k,
    {
        let l = &sessions[listener];
        let s = &sessions[members[k]];
        assert(all[at[k as int]] == s@);
        assert(fs[k as int] == room::frame_view(frames@[k as int]));
        let ghost was = out@;
        let gain: u32 = l.peer_gain(s.agent_id.as_str());
        if !same_text(s.id.as_str(), l.id.as_str()) && frames[k].is_some() && gain > 0 {
            if l.spatial {
                if s.state.known && l.state.known {
                    if let Some(p) = place(s.state, l.state) {
                        out.push(Contribution { speaker: k, gain, placement: Placement::At(p) });
                    }
                }
            } else {
                out.push(Contribution { speaker: k, gain, placement: Placement::Centre });
            }
        }
        proof {
            if out@.len() > was.len() {
                assert(out@.drop_last() =~= was);
            }
            lemma_hears_step(*place, all, at, fs, ear, k as int, was, out@);
        }
        k += 1;
    }
    out
}

proof fn lemma_hears_step<S, P, F: Fn(SpatialState, SpatialState) -> Option<P>>(
    place: F,
    sessions: Seq<SessionView<S>>,
    members: Seq<int>,
    frames: Seq<Option<Seq<S>>>,
    listener: SessionView<S>,
    k: int,
    was: Seq<Contribution<P>>,
    out: Seq<Contribution<P>>,
)
    requires
        0 <= k,
        hears(place, sessions, members, frames, listener, k, was),
        out == was ==> is_left_out::<S, P, F>(
            place,
            listener,
            sessions[members[k]],
            frames[k],
        ),
        out != was ==> out.len() == was.len() + 1 && out.drop_last() == was && out.last().speaker
            == k && plays(place, listener, sessions[members[k]], frames[k], out.last()),
    ensures
        hears(place, sessions, members, frames, listener, k + 1, out),
{
    if out != was {
        assert forall|i: int| 0 <= i < was.len() implies out[i] == was[i] by {
            assert(out.drop_last()[i] == was[i]);
        }
        assert forall|j: int|
            0 <= j < k + 1 && (forall|i: int|
                0 <= i < out.len() ==> (#[trigger] out[i]).speaker != j) implies is_left_out::<
            S,
            P,
            F,
        >(place, listener, sessions[#[trigger] members[j]], frames[j]) by {
            assert(out[out.len() - 1].speaker != j);
            assert forall|i: int| 0 <= i < was.len() implies (#[trigger] was[i]).speaker != j by {
                assert(out[i] == was[i]);
            }
        }
    }
}

// ---- what is told ----

/// What a roster says of a speaker.
pub struct SpeakerView {
    pub agent: Seq<char>,
    pub primary: bool,
    pub level: u8,
}

/// What the room's members are to a roster, in their order.
pub open spec fn speakers<S>(
    sessions: Seq<SessionView<S>>,
    members: Seq<int>,
) -> Seq<SpeakerView> {
    members.map_values(
        |k: int|
            SpeakerView {
                agent: sessions[k].agent_id,
                primary: sessions[k].primary,
                level: sessions[k].level,
            },
    )
}

/// The agents that a listener was told of, once told of these speakers too.
pub open spec fn told_of(
    announced: Set<Seq<char>>,
    speakers: Seq<SpeakerView>,
) -> Set<Seq<char>>
    decreases speakers.len(),
{
    if speakers.len() == 0 {
        announced
    } else {
        told_of(announced, speakers.drop_last()).insert(speakers.last().agent)
    }
}

/// What a listener is told: an entry for each speaker that it was not told of before and
/// for each that is not silent.
pub open spec fn roster_entries(
    announced: Set<Seq<char>>,
    speakers: Seq<SpeakerView>,
) -> Seq<(Seq<char>, RosterEntry)>
    decreases speakers.len(),
{
    if speakers.len() == 0 {
        Seq::empty()
    } else {
        let before = roster_entries(announced, speakers.drop_last());
        let s = speakers.last();
        let joined = !told_of(announced, speakers.drop_last()).contains(s.agent);
        if joined || s.level > 0 {
            before.push(
                (
                    s.agent,
                    RosterEntry {
                        joined,
                        primary: s.primary,
                        power: s.level,
                        speaking: proto::is_speaking(s.level),
                        moderator_muted: false,
                    },
                ),
            )
        } else {
            before
        }
    }
}

/// The roster that a listener is sent; none where there is nothing to tell.
pub open spec fn roster_of(
    announced: Set<Seq<char>>,
    speakers: Seq<SpeakerView>,
) -> Option<Seq<char>> {
    let entries = roster_entries(announced, speakers);
    if entries.len() == 0 {
        None
    } else {
        Some(json::json_text(proto::roster_document(entries)))
    }
}

/// A session that was told of these speakers.
pub open spec fn informed<S>(s: SessionView<S>, speakers: Seq<SpeakerView>) -> SessionView<S> {
    SessionView { announced: told_of(s.announced, speakers), ..s }
}

/// The sessions once the first `k` members were told of these speakers.
pub open spec fn announce<S>(
    sessions: Seq<SessionView<S>>,
    members: Seq<int>,
    speakers: Seq<SpeakerView>,
    k: nat,
) -> Seq<SessionView<S>>
    decreases k,
{
    if k == 0 {
        sessions
    } else {
        let before = announce(sessions, members, speakers, (k - 1) as nat);
        let at = members[k - 1];
        before.update(at, informed(before[at], speakers))
    }
}

/// Builds the roster update of one listener, or none when nothing changed. It speaks of
/// the listener too: the viewer draws its own indicator from it.
#[verifier::spinoff_prover]
pub fn build_roster<S>(
    sessions: &mut Vec<Session<S>>,
    members: &Vec<usize>,
    listener: usize,
) -> (r: Option<String>)
    requires
        listener < old(sessions)@.len(),
        forall|i: int| 0 <= i < members@.len() ==> (#[trigger] members@[i]) < old(sessions)@.len(),
    ensures
        final(sessions)@.len() == old(sessions)@.len(),
        proto::text_view(r) == roster_of(
            old(sessions)@[listener as int]@.announced,
            speakers(registry::session_views(old(sessions)@), slots(members@)),
        ),
        registry::session_views(final(sessions)@) == registry::session_views(
            old(sessions)@,
        ).update(
            listener as int,
            informed(
                old(sessions)@[listener as int]@,
                speakers(registry::session_views(old(sessions)@), slots(members@)),
            ),
        ),
{
    let ghost before = registry::session_views(sessions@);
    let ghost all = speakers(before, slots(members@));
    let ghost told = before[listener as int].announced;
    let mut entries: Vec<(String, RosterEntry)> = Vec::new();
    let mut j: usize = 0;
    assert(all.take(0) =~= Seq::<SpeakerView>::empty());
    assert(proto::pairs_view(entries@) =~= Seq::<(Seq<char>, RosterEntry)>::empty());
    assert(before =~= before.update(
        listener as int,
        informed(before[listener as int], all.take(0)),
    ));
    while j < members.len()
        invariant
            j <= members@.len(),
            all == speakers(before, slots(members@)),
            told == before[listener as int].announced,
            listener < before.len() == sessions@.len(),
            forall|i: int| 0 <= i < members@.len() ==> (#[trigger] members@[i]) < before.len(),
            registry::session_views(sessions@) == before.update(
                listener as int,
                informed(before[listener as int], all.take(j as int)),
            ),
            proto::pairs_view(entries@) == roster_entries(told, all.take(j as int)),
        decreases members@.len() - j,
    {
        let ghost upto = all.take(j + 1);
        assert(upto.drop_last() =~= all.take(j as int));
        let ghost was = registry::session_views(sessions@);
        let m: usize = members[j];
        assert(was[m as int] == sessions@[m as int]@);
        let agent = sessions[m].agent_id.clone();
        let level: u8 = sessions[m].level;
        let primary = sessions[m].primary;
        assert(upto.last() == SpeakerView { agent: agent@, primary, level });
        assert(was[listener as int] == sessions@[listener as int]@);
        let joined = sessions[listener].mark_announced(agent.as_str());
        assert(sessions@[listener as int]@ == informed(before[listener as int], upto));
        assert(registry::session_views(sessions@) =~= was.update(
            listener as int,
            sessions@[listener as int]@,
        ));
        assert(registry::session_views(sessions@) =~= before.update(
            listener as int,
            informed(before[listener as int], upto),
        ));
        let ghost had = entries@;
        if joined || level != 0 {
            let e = RosterEntry {
                joined,
                primary,
                power: level,
                speaking: proto::speaking(level),
                moderator_muted: false,
            };
            entries.push((agent, e));
            assert(proto::pairs_view(entries@) =~= proto::pairs_view(had).push((agent@, e)));
        }
        j += 1;
    }
    assert(all.take(j as int) =~= all);
    if entries.len() == 0 {
        None
    } else {
        Some(proto::roster_json(&entries))
    }
}

// ---- the whole tick ----

/// `mix` is what one tick gives of the members of a room: `before` are the sessions
/// before it.
pub open spec fn is_mix<
    S,
    P,
    L: Fn(&Vec<S>) -> u8,
    F: Fn(SpatialState, SpatialState) -> Option<P>,
>(
    level_of: L,
    place: F,
    before: Seq<SessionView<S>>,
    members: Seq<int>,
    mix: RoomMix<S, P>,
) -> bool {
    let n = members.len();
    let levels = mix.levels@;
    let heard = draw(before, members, levels, n);
    let all = speakers(heard, members);
    &&& mix.frames@.len() == n
    &&& levels.len() == n
    &&& mix.outputs@.len() == n
    &&& forall|k: int|
        0 <= k < n ==> {
            &&& room::frame_view(#[trigger] mix.frames@[k]) == frame_of(
                before,
                members,
                levels,
                k,
            )
            &&& heard_at(level_of, mix.frames@[k], levels[k])
        }
    &&& forall|k: int|
        0 <= k < n ==> {
            let out = #[trigger] mix.outputs@[k];
            &&& out.session@ == heard[members[k]].id
            &&& hears(
                place,
                heard,
                members,
                frame_views(mix.frames@),
                heard[members[k]],
                n as int,
                out.contributions@,
            )
            &&& proto::text_view(out.roster) == roster_of(
                announce(heard, members, all, k as nat)[members[k]].announced,
                all,
            )
        }
}

/// The sessions after one tick of a room whose members were that loud.
pub open spec fn after_mix<S>(
    before: Seq<SessionView<S>>,
    members: Seq<int>,
    levels: Seq<u8>,
) -> Seq<SessionView<S>> {
    let n = members.len();
    let heard = draw(before, members, levels, n);
    announce(heard, members, speakers(heard, members), n)
}

/// Computes one 20 ms tick of a room, whose members stand at `members`.
///
/// `level_of` says how loud a frame is. `place` says how a speaker in one state is heard
/// by a listener in another; nothing where it is out of range.
#[verifier::spinoff_prover]
pub fn mix_room<S, P, L: Fn(&Vec<S>) -> u8, F: Fn(SpatialState, SpatialState) -> Option<P>>(
    sessions: &mut Vec<Session<S>>,
    members: &Vec<usize>,
    level_of: &L,
    place: &F,
) -> (r: RoomMix<S, P>)
    requires
        forall|i: int| 0 <= i < members@.len() ==> (#[trigger] members@[i]) < old(sessions)@.len(),
        forall|f: &Vec<S>| call_requires(*level_of, (f,)),
        forall|s: SpatialState, l: SpatialState| call_requires(*place, (s, l)),
    ensures
        is_mix(
            *level_of,
            *place,
            registry::session_views(old(sessions)@),
            slots(members@),
            r,
        ),
        registry::session_views(final(sessions)@) == after_mix(
            registry::session_views(old(sessions)@),
            slots(members@),
            r.levels@,
        ),
{
    let ghost at = slots(members@);
    let (frames, levels) = draw_frames(sessions, members, level_of);
    let ghost heard = registry::session_views(sessions@);
    let ghost all = speakers(heard, at);
    let mut outputs: Vec<ListenerOutput<P>> = Vec::new();
    let mut i: usize = 0;
    while i < members.len()
        invariant
            i <= members@.len(),
            outputs@.len() == i,
            frames@.len() == members@.len(),
            at == slots(members@),
            heard == registry::session_views(sessions@),
            forall|k: int| 0 <= k < members@.len() ==> (#[trigger] members@[k]) < sessions@.len(),
            forall|s: SpatialState, l: SpatialState| call_requires(*place, (s, l)),
            forall|k: int|
                0 <= k < i ==> {
                    let out = #[trigger] outputs@[k];
                    &&& out.session@ == heard[at[k]].id
                    &&& hears(
                        *place,
                        heard,
                        at,
                        frame_views(frames@),
                        heard[at[k]],
                        members@.len() as int,
                        out.contributions@,
                    )
                },
        decreases members@.len() - i,
    {
        let m: usize = members[i];
        assert(heard[at[i as int]] == sessions@[m as int]@);
        let out = ListenerOutput {
            session: sessions[m].id.clone(),
            contributions: contributions(sessions, members, &frames, m, place),
            roster: None,
        };
        outputs.push(out);
        i += 1;
    }
    let mut j: usize = 0;
    while j < members.len()
        invariant
            j <= members@.len(),
            outputs@.len() == members@.len(),
            at == slots(members@),
            all == speakers(heard, at),
            sessions@.len() == heard.len(),
            registry::session_views(sessions@) == announce(heard, at, all, j as nat),
            forall|k: int| 0 <= k < members@.len() ==> (#[trigger] members@[k]) < sessions@.len(),
            forall|k: int|
                0 <= k < members@.len() ==> {
                    let out = #[trigger] outputs@[k];
                    &&& out.session@ == heard[at[k]].id
                    &&& hears(
                        *place,
                        heard,
                        at,
                        frame_views(frames@),
                        heard[at[k]],
                        members@.len() as int,
                        out.contributions@,
                    )
                    &&& k < j ==> proto::text_view(out.roster) == roster_of(
                        announce(heard, at, all, k as nat)[at[k]].announced,
                        all,
                    )
                },
        decreases members@.len() - j,
    {
        let m: usize = members[j];
        let ghost was = registry::session_views(sessions@);
        let ghost had = outputs@;
        proof {
            lemma_speakers_kept(heard, at, all, j as nat);
            assert(was[at[j as int]] == sessions@[m as int]@);
        }
        let roster = build_roster(sessions, members, m);
        outputs[j].roster = roster;
        assert(outputs@ =~= had.update(j as int, outputs@[j as int]));
        j += 1;
    }
    RoomMix { frames, levels, outputs }
}

/// To be told of speakers changes nothing that a roster tells.
proof fn lemma_speakers_kept<S>(
    sessions: Seq<SessionView<S>>,
    members: Seq<int>,
    all: Seq<SpeakerView>,
    k: nat,
)
    requires
        k <= members.len(),
        forall|i: int| 0 <= i < members.len() ==> 0 <= #[trigger] members[i] < sessions.len(),
    ensures
        announce(sessions, members, all, k).len() == sessions.len(),
        speakers(announce(sessions, members, all, k), members) == speakers(sessions, members),
    decreases k,
{
    if k > 0 {
        lemma_speakers_kept(sessions, members, all, (k - 1) as nat);
        let a = announce(sessions, members, all, (k - 1) as nat);
        let b = announce(sessions, members, all, k);
        assert forall|i: int| 0 <= i < members.len() implies #[trigger] speakers(b, members)[i]
            == speakers(a, members)[i] by {}
        assert(speakers(b, members) =~= speakers(a, members));
    }
}

// ---- the room of a registry ----

/// A session with nothing left to mix.
pub open spec fn drained<S>(s: SessionView<S>) -> SessionView<S> {
    SessionView { inbound: Seq::empty(), level: 0, ..s }
}

/// The sessions once the first `k` members were drained.
pub open spec fn drain<S>(
    sessions: Seq<SessionView<S>>,
    members: Seq<int>,
    k: nat,
) -> Seq<SessionView<S>>
    decreases k,
{
    if k == 0 {
        sessions
    } else {
        let before = drain(sessions, members, (k - 1) as nat);
        before.update(members[k - 1], drained(before[members[k - 1]]))
    }
}

proof fn lemma_drain_keeps<S>(sessions: Seq<SessionView<S>>, members: Seq<int>, k: nat)
    requires
        k <= members.len(),
        in_range(members, sessions.len()),
    ensures
        drain(sessions, members, k).len() == sessions.len(),
        forall|i: int|
            0 <= i < sessions.len() ==> {
                let s = #[trigger] drain(sessions, members, k)[i];
                s == SessionView { inbound: s.inbound, level: s.level, ..sessions[i] }
            },
        forall|i: int|
            0 <= i < sessions.len() && !members.contains(i) ==> #[trigger] drain(
                sessions,
                members,
                k,
            )[i] == sessions[i],
        forall|i: int|
            0 <= i < k ==> drain(sessions, members, k)[#[trigger] members[i]] == drained(
                sessions[members[i]],
            ),
    decreases k,
{
    if k > 0 {
        lemma_drain_keeps(sessions, members, (k - 1) as nat);
        assert(members.contains(members[k - 1]));
    }
}

proof fn lemma_slots_in_range(members: Seq<usize>, n: nat)
    requires
        forall|i: int| 0 <= i < members.len() ==> (#[trigger] members[i]) < n,
    ensures
        in_range(slots(members), n),
{
    assert forall|i: int| 0 <= i < slots(members).len() implies 0 <= #[trigger] slots(members)[i]
        < n by {
        assert(members[i] < n);
    }
}

fn drain_session<S>(s: &mut Session<S>)
    ensures
        final(s)@ == drained(old(s)@),
{
    while s.inbound.len() > 0
        invariant
            s@ == (SessionView { inbound: s@.inbound, ..old(s)@ }),
        decreases s.inbound@.len(),
    {
        let _ = s.take_frame();
        assert(s@.inbound.len() == s.inbound@.len());
    }
    s.level = 0;
    assert(s@.inbound =~= Seq::<Seq<S>>::empty());
}

impl<S> Registry<S> {
    /// One tick of a room: what each member is to get. A room with nobody to mix for
    /// gives nothing; its member's frames are thrown away all the same, so that they do
    /// not pile up until someone joins.
    #[verifier::spinoff_prover]
    pub fn tick_room<P, L: Fn(&Vec<S>) -> u8, F: Fn(SpatialState, SpatialState) -> Option<P>>(
        &mut self,
        key: &RoomKey,
        level_of: &L,
        place: &F,
    ) -> (r: Option<RoomMix<S, P>>)
        requires
            forall|f: &Vec<S>| call_requires(*level_of, (f,)),
            forall|s: SpatialState, l: SpatialState| call_requires(*place, (s, l)),
        ensures
            final(self)@.rooms == old(self)@.rooms,
            r is None <==> old(self)@.members(key@).len() < 2,
            r is None ==> final(self)@.sessions == drain(
                old(self)@.sessions,
                old(self)@.members(key@),
                old(self)@.members(key@).len(),
            ),
            r matches Some(mix) ==> {
                &&& is_mix(
                    *level_of,
                    *place,
                    old(self)@.sessions,
                    old(self)@.members(key@),
                    mix,
                )
                &&& final(self)@.sessions == after_mix(
                    old(self)@.sessions,
                    old(self)@.members(key@),
                    mix.levels@,
                )
            },
            old(self)@.wf() ==> final(self)@.wf(),
    {
        let ghost before = self@;
        let members = self.member_slots(key);
        let ghost at = slots(members@);
        assert(at == before.members(key@));
        assert(at.len() == members@.len());
        if members.len() >= 2 {
            let mix = mix_room(&mut self.sessions, &members, level_of, place);
            proof {
                lemma_slots_in_range(members@, before.sessions.len());
                assert forall|i: int| 0 <= i < before.sessions.len() implies (
                #[trigger] self@.sessions[i]).id == before.sessions[i].id
                    && self@.sessions[i].room == before.sessions[i].room by {
                    law_tick_changes_little(before.sessions, at, mix.levels@, i);
                }
                if before.wf() {
                    if before.sessions.len() > 0 {
                        law_tick_changes_little(before.sessions, at, mix.levels@, 0);
                    }
                    registry::law_order_is_about_ids_and_rooms(before, self@);
                }
            }
            return Some(mix);
        }
        let mut i: usize = 0;
        while i < members.len()
            invariant
                i <= members@.len(),
                at == slots(members@),
                self@.rooms == before.rooms,
                self@.sessions == drain(before.sessions, at, i as nat),
                self.sessions@.len() == before.sessions.len(),
                forall|k: int|
                    0 <= k < members@.len() ==> (#[trigger] members@[k]) < before.sessions.len(),
            decreases members@.len() - i,
        {
            let m: usize = members[i];
            let ghost was = self@.sessions;
            drain_session(&mut self.sessions[m]);
            assert(self@.sessions =~= was.update(m as int, drained(was[m as int])));
            i += 1;
        }
        proof {
            lemma_slots_in_range(members@, before.sessions.len());
            lemma_drain_keeps(before.sessions, at, at.len());
            if before.wf() {
                registry::law_order_is_about_ids_and_rooms(before, self@);
            }
        }
        None
    }
}

// ---- every room ----

/// A registry once the first `k` of its rooms had their tick, with what each of them gave.
pub open spec fn swept<S, P>(
    r: RegistryView<S>,
    mixes: Seq<Option<RoomMix<S, P>>>,
    k: nat,
) -> RegistryView<S>
    decreases k,
{
    if k == 0 {
        r
    } else {
        let before = swept(r, mixes, (k - 1) as nat);
        let members = before.members(r.rooms[k - 1].0);
        RegistryView {
            sessions: match mixes[k - 1] {
                Some(mix) => after_mix(before.sessions, members, mix.levels@),
                None => drain(before.sessions, members, members.len()),
            },
            rooms: before.rooms,
        }
    }
}

/// `mixes` is what a tick of each of the first `k` rooms gives, one after the other: a mix
/// where there are two members or more, and nothing where there are fewer.
pub open spec fn is_sweep<
    S,
    P,
    L: Fn(&Vec<S>) -> u8,
    F: Fn(SpatialState, SpatialState) -> Option<P>,
>(
    level_of: L,
    place: F,
    r: RegistryView<S>,
    mixes: Seq<Option<RoomMix<S, P>>>,
    k: nat,
) -> bool {
    forall|i: int|
        0 <= i < k ==> {
            let before = swept(r, mixes, i as nat);
            let members = before.members(r.rooms[i].0);
            &&& #[trigger] mixes[i] is None <==> members.len() < 2
            &&& mixes[i] matches Some(mix) ==> is_mix(
                level_of,
                place,
                before.sessions,
                members,
                mix,
            )
        }
}

proof fn lemma_swept_prefix<S, P>(
    r: RegistryView<S>,
    a: Seq<Option<RoomMix<S, P>>>,
    b: Seq<Option<RoomMix<S, P>>>,
    k: nat,
)
    requires
        forall|i: int| 0 <= i < k ==> a[i] == b[i],
    ensures
        swept(r, a, k) == swept(r, b, k),
        swept(r, a, k).rooms == r.rooms,
    decreases k,
{
    if k > 0 {
        lemma_swept_prefix(r, a, b, (k - 1) as nat);
    }
}

/// The tick of one more room carries a sweep on.
#[verifier::spinoff_prover]
proof fn lemma_sweep_step<
    S,
    P,
    L: Fn(&Vec<S>) -> u8,
    F: Fn(SpatialState, SpatialState) -> Option<P>,
>(
    level_of: L,
    place: F,
    r: RegistryView<S>,
    mixes: Seq<Option<RoomMix<S, P>>>,
    k: nat,
    mix: Option<RoomMix<S, P>>,
    before: RegistryView<S>,
    after: RegistryView<S>,
)
    requires
        k == mixes.len(),
        k < r.rooms.len(),
        is_sweep(level_of, place, r, mixes, k),
        before == swept(r, mixes, k),
        after.rooms == before.rooms,
        ({
            let members = before.members(r.rooms[k as int].0);
            &&& mix is None <==> members.len() < 2
            &&& mix is None ==> after.sessions == drain(before.sessions, members, members.len())
            &&& mix matches Some(m) ==> {
                &&& is_mix(level_of, place, before.sessions, members, m)
                &&& after.sessions == after_mix(before.sessions, members, m.levels@)
            }
        }),
    ensures
        is_sweep(level_of, place, r, mixes.push(mix), k + 1),
        after == swept(r, mixes.push(mix), k + 1),
{
    let out = mixes.push(mix);
    lemma_swept_prefix(r, mixes, out, k);
    assert(out[k as int] == mix);
    assert(swept(r, out, k + 1).rooms == before.rooms);
    assert forall|j: int| 0 <= j < k + 1 implies {
        let b = swept(r, out, j as nat);
        let members = b.members(r.rooms[j].0);
        &&& #[trigger] out[j] is None <==> members.len() < 2
        &&& out[j] matches Some(m) ==> is_mix(level_of, place, b.sessions, members, m)
    } by {
        lemma_swept_prefix(r, mixes, out, j as nat);
        if j < k {
            assert(mixes[j] == out[j]);
        }
    }
}

impl<S> Registry<S> {
    /// One tick of every room, each once, in the order of the rooms.
    #[verifier::spinoff_prover]
    pub fn sweep<P, L: Fn(&Vec<S>) -> u8, F: Fn(SpatialState, SpatialState) -> Option<P>>(
        &mut self,
        level_of: &L,
        place: &F,
    ) -> (r: Vec<Option<RoomMix<S, P>>>)
        requires
            forall|f: &Vec<S>| call_requires(*level_of, (f,)),
            forall|s: SpatialState, l: SpatialState| call_requires(*place, (s, l)),
        ensures
            r@.len() == old(self)@.rooms.len(),
            is_sweep(*level_of, *place, old(self)@, r@, r@.len()),
            final(self)@ == swept(old(self)@, r@, r@.len()),
            old(self)@.wf() ==> final(self)@.wf(),
    {
        let ghost before = self@;
        let keys = self.rooms();
        assert(keys@.map_values(|k: RoomKey| k@).len() == keys@.len());
        let mut out: Vec<Option<RoomMix<S, P>>> = Vec::new();
        let mut i: usize = 0;
        while i < keys.len()
            invariant
                i <= keys@.len() == before.rooms.len(),
                out@.len() == i,
                keys@.map_values(|k: RoomKey| k@) == before.rooms.map_values(
                    |e: (RoomView, Seq<Seq<char>>)| e.0,
                ),
                forall|f: &Vec<S>| call_requires(*level_of, (f,)),
                forall|s: SpatialState, l: SpatialState| call_requires(*place, (s, l)),
                self@.rooms == before.rooms,
                self@ == swept(before, out@, i as nat),
                is_sweep(*level_of, *place, before, out@, i as nat),
                before.wf() ==> self@.wf(),
            decreases keys@.len() - i,
        {
            assert(keys@.map_values(|k: RoomKey| k@)[i as int] == before.rooms.map_values(
                |e: (RoomView, Seq<Seq<char>>)| e.0,
            )[i as int]);
            let ghost was = out@;
            let ghost r = self@;
            let mix = self.tick_room(&keys[i], level_of, place);
            out.push(mix);
            proof {
                lemma_sweep_step(*level_of, *place, before, was, i as nat, mix, r, self@);
            }
            i += 1;
        }
        out
    }
}

/// How long the mixer keeps quiet between two complaints of being overloaded, in
/// milliseconds.
pub const WARN_INTERVAL_MS: u64 = 10000;

/// What to do on a tick.
#[derive(Clone, Copy, Debug, PartialEq, Eq, Structural)]
pub enum TickStep {
    /// Mix every room.
    Mix,
    /// Skip the tick.
    Skip,
    /// Skip the tick, and say how many were skipped since the last such complaint.
    Warn(u64),
}

/// Lets a tick through only when all work of the one before is done: frames of one
/// listener then never overtake each other, and a host that cannot keep up drops whole
/// frames in place of piling up work.
pub struct TickGate {
    pub skipped: u64,
}

impl TickGate {
    pub fn new() -> (r: Self)
        ensures
            r.skipped == 0,
    {
        TickGate { skipped: 0 }
    }

    /// Decides on a tick while so many rooms of the last one are unfinished and the last
    /// complaint is so many milliseconds old.
    pub fn step(&mut self, unfinished: usize, since_warning_ms: u64) -> (r: TickStep)
        requires
            old(self).skipped < u64::MAX,
        ensures
            r is Mix <==> unfinished == 0,
            r is Mix || r is Skip <==> unfinished == 0 || since_warning_ms < WARN_INTERVAL_MS,
            r matches TickStep::Warn(n) ==> n == old(self).skipped + 1,
            final(self).skipped == (match r {
                TickStep::Mix => old(self).skipped as int,
                TickStep::Skip => old(self).skipped + 1,
                TickStep::Warn(_) => 0,
            }),
    {
        if unfinished == 0 {
            return TickStep::Mix;
        }
        self.skipped = self.skipped + 1;
        if since_warning_ms >= WARN_INTERVAL_MS {
            let n: u64 = self.skipped;
            self.skipped = 0;
            TickStep::Warn(n)
        } else {
            TickStep::Skip
        }
    }
}

// ---- laws ----

/// Every member stands among the sessions.
pub open spec fn in_range(members: Seq<int>, n: nat) -> bool {
    forall|i: int| 0 <= i < members.len() ==> 0 <= #[trigger] members[i] < n
}

/// Nobody hears themselves, nor whom they muted; and where positions count, nobody is
/// heard by or from nowhere.
pub proof fn law_who_is_never_heard<S, P, F: Fn(SpatialState, SpatialState) -> Option<P>>(
    place: F,
    sessions: Seq<SessionView<S>>,
    members: Seq<int>,
    frames: Seq<Option<Seq<S>>>,
    listener: SessionView<S>,
    out: Seq<Contribution<P>>,
    i: int,
)
    requires
        hears(place, sessions, members, frames, listener, members.len() as int, out),
        0 <= i < out.len(),
    ensures
        ({
            let s = sessions[members[out[i].speaker as int]];
            &&& s.id != listener.id
            &&& !(listener.mutes.contains_key(s.agent_id) && listener.mutes[s.agent_id])
            &&& listener.spatial ==> s.state.known && listener.state.known
        }),
{
}

/// Without positions, every other member who is not silent and not muted or turned down
/// to nothing is heard, in the middle.
pub proof fn law_group_voice_reaches_everyone<
    S,
    P,
    F: Fn(SpatialState, SpatialState) -> Option<P>,
>(
    place: F,
    sessions: Seq<SessionView<S>>,
    members: Seq<int>,
    frames: Seq<Option<Seq<S>>>,
    listener: SessionView<S>,
    out: Seq<Contribution<P>>,
    k: int,
)
    requires
        hears(place, sessions, members, frames, listener, members.len() as int, out),
        0 <= k < members.len(),
        !listener.spatial,
    ensures
        may_hear(listener, sessions[members[k]], frames[k]) <==> exists|i: int|
            0 <= i < out.len() && (#[trigger] out[i]).speaker == k && out[i].placement is Centre,
{
    if may_hear(listener, sessions[members[k]], frames[k]) {
        assert(exists|i: int| 0 <= i < out.len() && (#[trigger] out[i]).speaker == k);
    }
}

/// A speaker is heard at no more than the largest gain, and never at none.
pub proof fn law_gains_are_bounded<S, P, F: Fn(SpatialState, SpatialState) -> Option<P>>(
    place: F,
    sessions: Seq<SessionView<S>>,
    members: Seq<int>,
    frames: Seq<Option<Seq<S>>>,
    listener: SessionView<S>,
    out: Seq<Contribution<P>>,
    i: int,
)
    requires
        hears(place, sessions, members, frames, listener, members.len() as int, out),
        listener.wf(),
        0 <= i < out.len(),
    ensures
        0 < out[i].gain <= proto::MAX_PEER_GAIN,
{
    let agent = sessions[members[out[i].speaker as int]].agent_id;
    if listener.gains.contains_key(agent) {
    }
}

/// Drawing frames changes frames and levels alone.
pub proof fn lemma_draw_keeps<S>(
    sessions: Seq<SessionView<S>>,
    members: Seq<int>,
    levels: Seq<u8>,
    k: nat,
)
    requires
        k <= members.len(),
        in_range(members, sessions.len()),
    ensures
        draw(sessions, members, levels, k).len() == sessions.len(),
        forall|i: int|
            0 <= i < sessions.len() ==> {
                let s = #[trigger] draw(sessions, members, levels, k)[i];
                &&& s == SessionView { inbound: s.inbound, level: s.level, ..sessions[i] }
                &&& s.inbound.len() <= sessions[i].inbound.len()
            },
        forall|i: int|
            0 <= i < sessions.len() && !members.contains(i) ==> #[trigger] draw(
                sessions,
                members,
                levels,
                k,
            )[i] == sessions[i],
    decreases k,
{
    if k > 0 {
        lemma_draw_keeps(sessions, members, levels, (k - 1) as nat);
        assert(members.contains(members[k - 1]));
    }
}

/// To be told of speakers adds their agents, and no other.
pub proof fn lemma_told_of(announced: Set<Seq<char>>, all: Seq<SpeakerView>)
    ensures
        announced.subset_of(told_of(announced, all)),
        forall|i: int|
            0 <= i < all.len() ==> told_of(announced, all).contains(#[trigger] all[i].agent),
        forall|a: Seq<char>| #[trigger]
            told_of(announced, all).contains(a) ==> announced.contains(a) || exists|i: int|
                0 <= i < all.len() && #[trigger] all[i].agent == a,
    decreases all.len(),
{
    if all.len() > 0 {
        lemma_told_of(announced, all.drop_last());
        let told = told_of(announced, all);
        assert forall|i: int| 0 <= i < all.len() implies told.contains(
            #[trigger] all[i].agent,
        ) by {
            if i < all.len() - 1 {
                assert(all.drop_last()[i] == all[i]);
            }
        }
        assert forall|a: Seq<char>| #[trigger] told.contains(a) implies announced.contains(a)
            || exists|i: int| 0 <= i < all.len() && #[trigger] all[i].agent == a by {
            if !announced.contains(a) {
                if a == all.last().agent {
                    assert(all[all.len() - 1].agent == a);
                } else {
                    let i = choose|i: int|
                        0 <= i < all.drop_last().len() && #[trigger] all.drop_last()[i].agent
                            == a;
                    assert(all[i].agent == a);
                }
            }
        }
    }
}

/// To be told of speakers changes nothing else of a session.
pub proof fn lemma_announce_keeps<S>(
    sessions: Seq<SessionView<S>>,
    members: Seq<int>,
    all: Seq<SpeakerView>,
    k: nat,
)
    requires
        k <= members.len(),
        in_range(members, sessions.len()),
    ensures
        announce(sessions, members, all, k).len() == sessions.len(),
        forall|i: int|
            0 <= i < sessions.len() ==> {
                let s = #[trigger] announce(sessions, members, all, k)[i];
                &&& s == SessionView { announced: s.announced, ..sessions[i] }
                &&& sessions[i].announced.subset_of(s.announced)
            },
        forall|i: int|
            0 <= i < sessions.len() && !members.contains(i) ==> #[trigger] announce(
                sessions,
                members,
                all,
                k,
            )[i] == sessions[i],
        forall|i: int, j: int|
            0 <= i < k && 0 <= j < all.len() ==> announce(sessions, members, all, k)[
                #[trigger] members[i]].announced.contains(#[trigger] all[j].agent),
    decreases k,
{
    if k > 0 {
        lemma_announce_keeps(sessions, members, all, (k - 1) as nat);
        let a = announce(sessions, members, all, (k - 1) as nat);
        let b = announce(sessions, members, all, k);
        let at = members[k - 1];
        assert(members.contains(at));
        lemma_told_of(a[at].announced, all);
        assert forall|i: int, j: int| 0 <= i < k && 0 <= j < all.len() implies b[
            #[trigger] members[i]].announced.contains(#[trigger] all[j].agent) by {
            if members[i] != at {
                assert(a[members[i]].announced.contains(all[j].agent));
            }
        }
    }
}

/// A tick takes frames, notes levels and remembers what was told; it changes nothing else
/// of any session, nothing at all of one outside the room, and keeps each within its
/// bounds.
pub proof fn law_tick_changes_little<S>(
    before: Seq<SessionView<S>>,
    members: Seq<int>,
    levels: Seq<u8>,
    i: int,
)
    requires
        in_range(members, before.len()),
        0 <= i < before.len(),
    ensures
        after_mix(before, members, levels).len() == before.len(),
        ({
            let s = after_mix(before, members, levels)[i];
            &&& s == SessionView {
                inbound: s.inbound,
                level: s.level,
                announced: s.announced,
                ..before[i]
            }
            &&& before[i].announced.subset_of(s.announced)
            &&& !members.contains(i) ==> s == before[i]
            &&& before[i].wf() ==> s.wf()
        }),
{
    let n = members.len();
    lemma_draw_keeps(before, members, levels, n);
    let heard = draw(before, members, levels, n);
    lemma_announce_keeps(heard, members, speakers(heard, members), n);
}

/// Every member was told of every member.
pub open spec fn all_told<S>(sessions: Seq<SessionView<S>>, members: Seq<int>) -> bool {
    forall|i: int, j: int|
        0 <= i < members.len() && 0 <= j < members.len() ==> sessions[
            #[trigger] members[i]].announced.contains(sessions[#[trigger] members[j]].agent_id)
}

/// After a tick every member was told of every member.
pub proof fn law_tick_tells_everyone<S>(
    before: Seq<SessionView<S>>,
    members: Seq<int>,
    levels: Seq<u8>,
)
    requires
        in_range(members, before.len()),
    ensures
        all_told(after_mix(before, members, levels), members),
{
    let n = members.len();
    lemma_draw_keeps(before, members, levels, n);
    let heard = draw(before, members, levels, n);
    let all = speakers(heard, members);
    lemma_announce_keeps(heard, members, all, n);
    let s = after_mix(before, members, levels);
    assert forall|i: int, j: int| 0 <= i < n && 0 <= j < n implies s[
        #[trigger] members[i]].announced.contains(s[#[trigger] members[j]].agent_id) by {
        assert(all[j].agent == heard[members[j]].agent_id);
        assert(s[members[i]].announced.contains(all[j].agent));
    }
}

/// What there is to tell of speakers that are all known: who is not silent.
pub open spec fn updates(speakers: Seq<SpeakerView>) -> Seq<(Seq<char>, RosterEntry)>
    decreases speakers.len(),
{
    if speakers.len() == 0 {
        Seq::empty()
    } else if speakers.last().level == 0 {
        updates(speakers.drop_last())
    } else {
        updates(speakers.drop_last()).push(
            (
                speakers.last().agent,
                RosterEntry {
                    joined: false,
                    primary: speakers.last().primary,
                    power: speakers.last().level,
                    speaking: proto::is_speaking(speakers.last().level),
                    moderator_muted: false,
                },
            ),
        )
    }
}

proof fn lemma_updates(announced: Set<Seq<char>>, all: Seq<SpeakerView>)
    requires
        forall|j: int| 0 <= j < all.len() ==> announced.contains(#[trigger] all[j].agent),
    ensures
        roster_entries(announced, all) == updates(all),
    decreases all.len(),
{
    if all.len() > 0 {
        let rest = all.drop_last();
        assert forall|j: int| 0 <= j < rest.len() implies announced.contains(
            #[trigger] rest[j].agent,
        ) by {
            assert(rest[j] == all[j]);
        }
        lemma_updates(announced, rest);
        lemma_told_of(announced, rest);
        assert(announced.contains(all[all.len() - 1].agent));
    }
}

proof fn lemma_no_updates(all: Seq<SpeakerView>)
    requires
        forall|j: int| 0 <= j < all.len() ==> (#[trigger] all[j]).level == 0,
    ensures
        updates(all).len() == 0,
    decreases all.len(),
{
    if all.len() > 0 {
        let rest = all.drop_last();
        assert forall|j: int| 0 <= j < rest.len() implies (#[trigger] rest[j]).level == 0 by {
            assert(rest[j] == all[j]);
        }
        assert(all[all.len() - 1].level == 0);
        lemma_no_updates(rest);
    }
}

/// Once everyone was told of everyone, no tick tells of a join again: a roster holds who
/// is not silent, and nothing is sent where all are.
pub proof fn law_joins_are_told_once<
    S,
    P,
    L: Fn(&Vec<S>) -> u8,
    F: Fn(SpatialState, SpatialState) -> Option<P>,
>(
    level_of: L,
    place: F,
    before: Seq<SessionView<S>>,
    members: Seq<int>,
    mix: RoomMix<S, P>,
    k: int,
)
    requires
        is_mix(level_of, place, before, members, mix),
        in_range(members, before.len()),
        all_told(before, members),
        0 <= k < members.len(),
    ensures
        ({
            let heard = draw(before, members, mix.levels@, members.len());
            let all = updates(speakers(heard, members));
            proto::text_view(mix.outputs@[k].roster) == if all.len() == 0 {
                None
            } else {
                Some(json::json_text(proto::roster_document(all)))
            }
        }),
{
    let heard = draw(before, members, mix.levels@, members.len());
    let all = speakers(heard, members);
    lemma_draw_keeps(before, members, mix.levels@, members.len());
    lemma_announce_keeps(heard, members, all, k as nat);
    let told = announce(heard, members, all, k as nat)[members[k]].announced;
    assert forall|j: int| 0 <= j < all.len() implies told.contains(#[trigger] all[j].agent) by {
        assert(before[members[k]].announced.contains(before[members[j]].agent_id));
        assert(heard[members[j]].agent_id == before[members[j]].agent_id);
        assert(heard[members[k]].announced == before[members[k]].announced);
    }
    lemma_updates(told, all);
    assert(mix.outputs@[k] == mix.outputs@[k]);
}

proof fn lemma_drawn_silent<S>(
    sessions: Seq<SessionView<S>>,
    members: Seq<int>,
    levels: Seq<u8>,
    k: nat,
)
    requires
        k <= members.len(),
        k <= levels.len(),
        in_range(members, sessions.len()),
        forall|i: int| 0 <= i < k ==> levels[i] == 0,
    ensures
        forall|i: int|
            0 <= i < k ==> draw(sessions, members, levels, k)[#[trigger] members[i]].level == 0,
    decreases k,
{
    if k > 0 {
        lemma_drawn_silent(sessions, members, levels, (k - 1) as nat);
        lemma_draw_keeps(sessions, members, levels, (k - 1) as nat);
    }
}

/// A room in which everyone was told of everyone and nobody makes a sound sends no
/// roster.
pub proof fn law_idle_room_is_quiet<
    S,
    P,
    L: Fn(&Vec<S>) -> u8,
    F: Fn(SpatialState, SpatialState) -> Option<P>,
>(
    level_of: L,
    place: F,
    before: Seq<SessionView<S>>,
    members: Seq<int>,
    mix: RoomMix<S, P>,
    k: int,
)
    requires
        is_mix(level_of, place, before, members, mix),
        in_range(members, before.len()),
        all_told(before, members),
        forall|i: int| 0 <= i < members.len() ==> mix.levels@[i] == 0,
        0 <= k < members.len(),
    ensures
        mix.outputs@[k].roster is None,
{
    law_joins_are_told_once(level_of, place, before, members, mix, k);
    let heard = draw(before, members, mix.levels@, members.len());
    let all = speakers(heard, members);
    lemma_drawn_silent(before, members, mix.levels@, members.len());
    assert forall|j: int| 0 <= j < all.len() implies (#[trigger] all[j]).level == 0 by {
        assert(heard[members[j]].level == 0);
    }
    lemma_no_updates(all);
}

/// A roster tells of the join of exactly those agents whom the listener was not told of.
pub proof fn law_new_agents_are_announced(
    announced: Set<Seq<char>>,
    all: Seq<SpeakerView>,
    agent: Seq<char>,
)
    ensures
        (exists|i: int|
            0 <= i < roster_entries(announced, all).len() && #[trigger] roster_entries(
                announced,
                all,
            )[i].0 == agent && roster_entries(announced, all)[i].1.joined) <==> (
        !announced.contains(agent) && exists|j: int|
            0 <= j < all.len() && #[trigger] all[j].agent == agent),
    decreases all.len(),
{
    if all.len() > 0 {
        let rest = all.drop_last();
        law_new_agents_are_announced(announced, rest, agent);
        lemma_told_of(announced, rest);
        let entries = roster_entries(announced, all);
        let had = roster_entries(announced, rest);
        let last = all.last();
        assert(all[all.len() - 1] == last);
        if exists|i: int| 0 <= i < entries.len() && #[trigger] entries[i].0 == agent
            && entries[i].1.joined {
            let i = choose|i: int| 0 <= i < entries.len() && #[trigger] entries[i].0 == agent
                && entries[i].1.joined;
            if i < had.len() {
                assert(had[i] == entries[i]);
                let j = choose|j: int| 0 <= j < rest.len() && #[trigger] rest[j].agent == agent;
                assert(all[j].agent == agent);
            } else {
                assert(last.agent == agent);
            }
        }
        if !announced.contains(agent) && exists|j: int|
            0 <= j < all.len() && #[trigger] all[j].agent == agent {
            let j = choose|j: int| 0 <= j < all.len() && #[trigger] all[j].agent == agent;
            if exists|j: int| 0 <= j < rest.len() && #[trigger] rest[j].agent == agent {
                let i = choose|i: int| 0 <= i < had.len() && #[trigger] had[i].0 == agent
                    && had[i].1.joined;
                assert(entries[i] == had[i]);
            } else {
                if j < rest.len() {
                    assert(rest[j].agent == agent);
                }
                assert(!told_of(announced, rest).contains(agent));
                assert(entries[had.len() as int].0 == agent);
            }
        }
    }
}

proof fn lemma_not_drawn_yet<S>(
    sessions: Seq<SessionView<S>>,
    members: Seq<int>,
    levels: Seq<u8>,
    k: nat,
    i: int,
)
    requires
        in_range(members, sessions.len()),
        members.no_duplicates(),
        k <= i < members.len(),
    ensures
        draw(sessions, members, levels, k)[members[i]] == sessions[members[i]],
    decreases k,
{
    if k > 0 {
        lemma_not_drawn_yet(sessions, members, levels, (k - 1) as nat, i);
        lemma_draw_keeps(sessions, members, levels, (k - 1) as nat);
        assert(members[k - 1] != members[i]);
    }
}

/// A member gives one frame.
pub proof fn lemma_drawn_once<S>(
    sessions: Seq<SessionView<S>>,
    members: Seq<int>,
    levels: Seq<u8>,
    k: nat,
    i: int,
)
    requires
        in_range(members, sessions.len()),
        members.no_duplicates(),
        0 <= i < k <= members.len(),
    ensures
        draw(sessions, members, levels, k)[members[i]] == drawn(sessions[members[i]], levels[i]),
    decreases k,
{
    lemma_draw_keeps(sessions, members, levels, (k - 1) as nat);
    if i == k - 1 {
        lemma_not_drawn_yet(sessions, members, levels, (k - 1) as nat, i);
    } else {
        lemma_drawn_once(sessions, members, levels, (k - 1) as nat, i);
        assert(members[k - 1] != members[i]);
    }
}

/// A member is told once its turn comes.
pub proof fn lemma_not_told_yet<S>(
    sessions: Seq<SessionView<S>>,
    members: Seq<int>,
    all: Seq<SpeakerView>,
    k: nat,
    i: int,
)
    requires
        in_range(members, sessions.len()),
        members.no_duplicates(),
        k <= i < members.len(),
    ensures
        announce(sessions, members, all, k)[members[i]] == sessions[members[i]],
    decreases k,
{
    if k > 0 {
        lemma_not_told_yet(sessions, members, all, (k - 1) as nat, i);
        lemma_announce_keeps(sessions, members, all, (k - 1) as nat);
        assert(members[k - 1] != members[i]);
    }
}

/// In a room whose members are distinct, a tick takes the next frame of each, notes how
/// loud it was, and tells each listener what it was not told before the tick.
pub proof fn law_each_member_takes_part_once<
    S,
    P,
    L: Fn(&Vec<S>) -> u8,
    F: Fn(SpatialState, SpatialState) -> Option<P>,
>(
    level_of: L,
    place: F,
    before: Seq<SessionView<S>>,
    members: Seq<int>,
    mix: RoomMix<S, P>,
    k: int,
)
    requires
        is_mix(level_of, place, before, members, mix),
        in_range(members, before.len()),
        members.no_duplicates(),
        0 <= k < members.len(),
    ensures
        room::frame_view(mix.frames@[k]) == room::next_frame(before[members[k]].inbound),
        mix.outputs@[k].session@ == before[members[k]].id,
        ({
            let heard = draw(before, members, mix.levels@, members.len());
            &&& heard[members[k]] == drawn(before[members[k]], mix.levels@[k])
            &&& proto::text_view(mix.outputs@[k].roster) == roster_of(
                before[members[k]].announced,
                speakers(heard, members),
            )
        }),
{
    let levels = mix.levels@;
    let n = members.len();
    let heard = draw(before, members, levels, n);
    let all = speakers(heard, members);
    assert(mix.frames@[k] == mix.frames@[k] && mix.outputs@[k] == mix.outputs@[k]);
    lemma_not_drawn_yet(before, members, levels, k as nat, k);
    lemma_drawn_once(before, members, levels, n, k);
    lemma_draw_keeps(before, members, levels, n);
    lemma_not_told_yet(heard, members, all, k as nat, k);
}

/// No two speakers are of one agent.
pub open spec fn agents_differ(all: Seq<SpeakerView>) -> bool {
    forall|i: int, j: int| 0 <= i < j < all.len() ==> all[i].agent != all[j].agent
}

/// What a listener is to be told of a speaker: nothing of one that it knows and that is
/// silent.
pub open spec fn told_about(announced: Set<Seq<char>>, s: SpeakerView) -> Option<JsonView> {
    if s.level == 0 && announced.contains(s.agent) {
        None
    } else {
        Some(
            proto::entry_document(
                RosterEntry {
                    joined: !announced.contains(s.agent),
                    primary: s.primary,
                    power: s.level,
                    speaking: s.level >= 39,
                    moderator_muted: false,
                },
            ),
        )
    }
}

proof fn lemma_roster_members(announced: Set<Seq<char>>, all: Seq<SpeakerView>)
    requires
        agents_differ(all),
    ensures
        forall|i: int|
            0 <= i < all.len() ==> json::member_of(
                proto::roster_document(roster_entries(announced, all)),
                (#[trigger] all[i]).agent,
            ) == told_about(announced, all[i]),
        forall|a: Seq<char>| #[trigger]
            json::member_of(proto::roster_document(roster_entries(announced, all)), a) is Some
                ==> exists|i: int| 0 <= i < all.len() && (#[trigger] all[i]).agent == a,
        roster_entries(announced, all).len() == 0 <==> forall|i: int|
            0 <= i < all.len() ==> (#[trigger] all[i]).level == 0 && announced.contains(
                all[i].agent,
            ),
    decreases all.len(),
{
    if all.len() > 0 {
        let rest = all.drop_last();
        let last = all.last();
        assert(all[all.len() - 1] == last);
        assert forall|i: int, j: int| 0 <= i < j < rest.len() implies rest[i].agent
            != rest[j].agent by {
            assert(all[i].agent != all[j].agent);
        }
        lemma_roster_members(announced, rest);
        lemma_told_of(announced, rest);
        let before = proto::roster_document(roster_entries(announced, rest));
        let entries = roster_entries(announced, all);
        let after = proto::roster_document(entries);
        assert(forall|i: int| 0 <= i < rest.len() ==> (#[trigger] rest[i]).agent != last.agent);
        assert(told_of(announced, rest).contains(last.agent) == announced.contains(last.agent));
        assert(json::member_of(before, last.agent) is None);
        if told_about(announced, last) is Some {
            assert(entries.drop_last() =~= roster_entries(announced, rest));
        }
        assert forall|i: int| 0 <= i < all.len() implies json::member_of(
            after,
            (#[trigger] all[i]).agent,
        ) == told_about(announced, all[i]) by {
            if i < rest.len() {
                assert(rest[i] == all[i]);
                assert(json::member_of(before, rest[i].agent) == told_about(announced, rest[i]));
            }
        }
        assert forall|a: Seq<char>| #[trigger] json::member_of(after, a) is Some implies exists|
            i: int,
        |
            0 <= i < all.len() && (#[trigger] all[i]).agent == a by {
            if a != last.agent {
                assert(json::member_of(before, a) is Some);
                let i = choose|i: int| 0 <= i < rest.len() && (#[trigger] rest[i]).agent == a;
                assert(all[i].agent == a);
            }
        }
        if entries.len() == 0 {
            assert forall|i: int| 0 <= i < all.len() implies (#[trigger] all[i]).level == 0
                && announced.contains(all[i].agent) by {
                if i < rest.len() {
                    assert(rest[i] == all[i]);
                }
            }
        }
        if forall|i: int|
            0 <= i < all.len() ==> (#[trigger] all[i]).level == 0 && announced.contains(
                all[i].agent,
            ) {
            assert forall|i: int| 0 <= i < rest.len() implies (#[trigger] rest[i]).level == 0
                && announced.contains(rest[i].agent) by {
                assert(rest[i] == all[i]);
            }
        }
    }
}

/// Where no two speakers are of one agent, a roster is sent unless all of them are known
/// and silent; it has one member for each that is new or not silent, with its level, and
/// with a join exactly for the new ones; and it speaks of nobody else.
pub proof fn law_roster_says_what_there_is_to_say(
    announced: Set<Seq<char>>,
    all: Seq<SpeakerView>,
)
    requires
        agents_differ(all),
    ensures
        roster_of(announced, all) is None <==> forall|i: int|
            0 <= i < all.len() ==> (#[trigger] all[i]).level == 0 && announced.contains(
                all[i].agent,
            ),
        roster_of(announced, all) matches Some(text) ==> text == json::json_text(
            proto::roster_document(roster_entries(announced, all)),
        ),
        forall|i: int|
            0 <= i < all.len() ==> json::member_of(
                proto::roster_document(roster_entries(announced, all)),
                (#[trigger] all[i]).agent,
            ) == told_about(announced, all[i]),
        forall|a: Seq<char>| #[trigger]
            json::member_of(proto::roster_document(roster_entries(announced, all)), a) is Some
                ==> exists|i: int| 0 <= i < all.len() && (#[trigger] all[i]).agent == a,
        forall|i: int|
            0 <= i < all.len() ==> told_of(announced, all).contains((#[trigger] all[i]).agent),
{
    lemma_roster_members(announced, all);
    lemma_told_of(announced, all);
}

/// A listener that was told of some speakers is told nothing of them while they are
/// silent.
pub proof fn law_silence_is_not_told(
    announced: Set<Seq<char>>,
    all: Seq<SpeakerView>,
    again: Seq<SpeakerView>,
)
    requires
        forall|j: int|
            0 <= j < again.len() ==> (#[trigger] again[j]).level == 0 && exists|i: int|
                0 <= i < all.len() && (#[trigger] all[i]).agent == again[j].agent,
    ensures
        roster_of(told_of(announced, all), again) is None,
{
    lemma_told_of(announced, all);
    let told = told_of(announced, all);
    assert forall|j: int| 0 <= j < again.len() implies told.contains(
        #[trigger] again[j].agent,
    ) by {
        assert(again[j].level == 0);
        let i = choose|i: int| 0 <= i < all.len() && (#[trigger] all[i]).agent == again[j].agent;
        assert(told.contains(all[i].agent));
    }
    lemma_updates(told, again);
    lemma_no_updates(again);
}

proof fn lemma_draw_is_local<S>(
    a: Seq<SessionView<S>>,
    b: Seq<SessionView<S>>,
    members: Seq<int>,
    levels: Seq<u8>,
    k: nat,
)
    requires
        a.len() == b.len(),
        in_range(members, a.len()),
        k <= members.len(),
        forall|i: int| 0 <= i < members.len() ==> a[#[trigger] members[i]] == b[members[i]],
    ensures
        forall|i: int|
            0 <= i < members.len() ==> draw(a, members, levels, k)[#[trigger] members[i]] == draw(
                b,
                members,
                levels,
                k,
            )[members[i]],
    decreases k,
{
    if k > 0 {
        lemma_draw_is_local(a, b, members, levels, (k - 1) as nat);
        lemma_draw_keeps(a, members, levels, (k - 1) as nat);
        lemma_draw_keeps(b, members, levels, (k - 1) as nat);
    }
}

proof fn lemma_announce_is_local<S>(
    a: Seq<SessionView<S>>,
    b: Seq<SessionView<S>>,
    members: Seq<int>,
    all: Seq<SpeakerView>,
    k: nat,
)
    requires
        a.len() == b.len(),
        in_range(members, a.len()),
        k <= members.len(),
        forall|i: int| 0 <= i < members.len() ==> a[#[trigger] members[i]] == b[members[i]],
    ensures
        forall|i: int|
            0 <= i < members.len() ==> announce(a, members, all, k)[#[trigger] members[i]]
                == announce(b, members, all, k)[members[i]],
    decreases k,
{
    if k > 0 {
        lemma_announce_is_local(a, b, members, all, (k - 1) as nat);
        lemma_announce_keeps(a, members, all, (k - 1) as nat);
        lemma_announce_keeps(b, members, all, (k - 1) as nat);
    }
}

/// What a tick of a room gives, and what it makes of the room's members, depends on these
/// alone.
#[verifier::spinoff_prover]
pub proof fn law_a_mix_is_of_its_room<
    S,
    P,
    L: Fn(&Vec<S>) -> u8,
    F: Fn(SpatialState, SpatialState) -> Option<P>,
>(
    level_of: L,
    place: F,
    a: Seq<SessionView<S>>,
    b: Seq<SessionView<S>>,
    members: Seq<int>,
    mix: RoomMix<S, P>,
)
    requires
        a.len() == b.len(),
        in_range(members, a.len()),
        forall|i: int| 0 <= i < members.len() ==> a[#[trigger] members[i]] == b[members[i]],
        is_mix(level_of, place, a, members, mix),
    ensures
        is_mix(level_of, place, b, members, mix),
        forall|i: int|
            0 <= i < members.len() ==> after_mix(a, members, mix.levels@)[#[trigger] members[i]]
                == after_mix(b, members, mix.levels@)[members[i]],
{
    let n = members.len();
    let levels = mix.levels@;
    let ha = draw(a, members, levels, n);
    let hb = draw(b, members, levels, n);
    lemma_draw_keeps(a, members, levels, n);
    lemma_draw_keeps(b, members, levels, n);
    lemma_draw_is_local(a, b, members, levels, n);
    assert(speakers(ha, members) =~= speakers(hb, members)) by {
        assert forall|i: int| 0 <= i < n implies speakers(ha, members)[i] == speakers(
            hb,
            members,
        )[i] by {
            assert(ha[members[i]] == hb[members[i]]);
        }
    }
    let all = speakers(ha, members);
    assert forall|k: int| 0 <= k < n implies {
        &&& room::frame_view(#[trigger] mix.frames@[k]) == frame_of(b, members, levels, k)
        &&& heard_at(level_of, mix.frames@[k], levels[k])
    } by {
        lemma_draw_is_local(a, b, members, levels, k as nat);
        assert(draw(a, members, levels, k as nat)[members[k]] == draw(
            b,
            members,
            levels,
            k as nat,
        )[members[k]]);
    }
    assert forall|k: int| 0 <= k < n implies {
        let out = #[trigger] mix.outputs@[k];
        &&& out.session@ == hb[members[k]].id
        &&& hears(
            place,
            hb,
            members,
            frame_views(mix.frames@),
            hb[members[k]],
            n as int,
            out.contributions@,
        )
        &&& proto::text_view(out.roster) == roster_of(
            announce(hb, members, all, k as nat)[members[k]].announced,
            all,
        )
    } by {
        lemma_announce_is_local(ha, hb, members, all, k as nat);
        let out = mix.outputs@[k];
        assert(ha[members[k]] == hb[members[k]]);
        lemma_hears_is_local(
            place,
            ha,
            hb,
            members,
            frame_views(mix.frames@),
            ha[members[k]],
            out.contributions@,
        );
    }
    lemma_announce_is_local(ha, hb, members, all, n);
}

proof fn lemma_hears_is_local<S, P, F: Fn(SpatialState, SpatialState) -> Option<P>>(
    place: F,
    a: Seq<SessionView<S>>,
    b: Seq<SessionView<S>>,
    members: Seq<int>,
    frames: Seq<Option<Seq<S>>>,
    listener: SessionView<S>,
    out: Seq<Contribution<P>>,
)
    requires
        forall|i: int| 0 <= i < members.len() ==> a[#[trigger] members[i]] == b[members[i]],
        hears(place, a, members, frames, listener, members.len() as int, out),
    ensures
        hears(place, b, members, frames, listener, members.len() as int, out),
{
    assert forall|i: int| 0 <= i < out.len() implies {
        let c = #[trigger] out[i];
        c.speaker < members.len() && plays(
            place,
            listener,
            b[members[c.speaker as int]],
            frames[c.speaker as int],
            c,
        )
    } by {
        assert(a[members[out[i].speaker as int]] == b[members[out[i].speaker as int]]);
    }
}

#[verifier::spinoff_prover]
proof fn lemma_swept_keeps<S, P>(
    r: RegistryView<S>,
    mixes: Seq<Option<RoomMix<S, P>>>,
    k: nat,
)
    requires
        r.wf(),
        k <= r.rooms.len(),
    ensures
        ({
            let n = swept(r, mixes, k);
            &&& n.rooms == r.rooms
            &&& n.sessions.len() == r.sessions.len()
            &&& forall|i: int|
                0 <= i < r.sessions.len() ==> (#[trigger] n.sessions[i]).id == r.sessions[i].id
                    && n.sessions[i].room == r.sessions[i].room
            &&& n.wf()
            &&& forall|key: RoomView| #[trigger] n.members(key) == r.members(key)
        }),
    decreases k,
{
    if k > 0 {
        lemma_swept_keeps(r, mixes, (k - 1) as nat);
        let b = swept(r, mixes, (k - 1) as nat);
        let n = swept(r, mixes, k);
        let members = b.members(r.rooms[k - 1].0);
        lemma_members_in_range(b, r.rooms[k - 1].0);
        lemma_drain_keeps(b.sessions, members, members.len());
        if let Some(mix) = mixes[k - 1] {
            lemma_draw_keeps(b.sessions, members, mix.levels@, members.len());
            let heard = draw(b.sessions, members, mix.levels@, members.len());
            lemma_announce_keeps(heard, members, speakers(heard, members), members.len());
        }
        assert forall|i: int| 0 <= i < r.sessions.len() implies (#[trigger] n.sessions[i]).id
            == r.sessions[i].id && n.sessions[i].room == r.sessions[i].room by {
            assert(b.sessions[i].id == r.sessions[i].id);
            if let Some(mix) = mixes[k - 1] {
                law_tick_changes_little(b.sessions, members, mix.levels@, i);
            }
        }
        registry::law_order_is_about_ids_and_rooms(r, n);
    } else {
        registry::law_order_is_about_ids_and_rooms(r, r);
    }
}

proof fn lemma_members_in_range<S>(r: RegistryView<S>, key: RoomView)
    requires
        r.wf(),
    ensures
        in_range(r.members(key), r.sessions.len()),
{
    registry::law_members_are_those_of_the_room(r, key);
    let m = r.members(key);
    assert forall|i: int| 0 <= i < m.len() implies 0 <= #[trigger] m[i] < r.sessions.len() by {
        assert(m.contains(m[i]));
    }
}

/// The ticks of other rooms leave a session as it is.
proof fn lemma_swept_elsewhere<S, P>(
    r: RegistryView<S>,
    mixes: Seq<Option<RoomMix<S, P>>>,
    from: nat,
    to: nat,
    i: int,
)
    requires
        r.wf(),
        from <= to <= r.rooms.len(),
        0 <= i < r.sessions.len(),
        forall|j: int| from <= j < to ==> (#[trigger] r.rooms[j]).0 != r.sessions[i].room,
    ensures
        swept(r, mixes, to).sessions[i] == swept(r, mixes, from).sessions[i],
    decreases to,
{
    if from < to {
        let p = (to - 1) as nat;
        lemma_swept_elsewhere(r, mixes, from, p, i);
        lemma_swept_keeps(r, mixes, p);
        let b = swept(r, mixes, p);
        let key = r.rooms[to - 1].0;
        let members = b.members(key);
        registry::law_members_are_those_of_the_room(b, key);
        lemma_members_in_range(b, key);
        assert(b.sessions[i].room == r.sessions[i].room);
        assert(!members.contains(i));
        lemma_drain_keeps(b.sessions, members, members.len());
        if let Some(mix) = mixes[to - 1] {
            law_tick_changes_little(b.sessions, members, mix.levels@, i);
        }
    }
}

/// Room `k` of a registry had its tick as if it were the only one: one of two members or
/// more is mixed out of what its members held before, the member of a smaller one is
/// drained, and every member comes out as the tick of its own room leaves it.
pub open spec fn is_served<
    S,
    P,
    L: Fn(&Vec<S>) -> u8,
    F: Fn(SpatialState, SpatialState) -> Option<P>,
>(
    level_of: L,
    place: F,
    r: RegistryView<S>,
    mixes: Seq<Option<RoomMix<S, P>>>,
    k: int,
) -> bool {
    let members = r.members(r.rooms[k].0);
    let after = swept(r, mixes, r.rooms.len()).sessions;
    &&& mixes[k] is None <==> members.len() < 2
    &&& mixes[k] matches Some(mix) ==> is_mix(level_of, place, r.sessions, members, mix) && forall|
        i: int,
    |
        0 <= i < members.len() ==> after[#[trigger] members[i]] == after_mix(
            r.sessions,
            members,
            mix.levels@,
        )[members[i]]
    &&& mixes[k] is None ==> forall|i: int|
        0 <= i < members.len() ==> after[#[trigger] members[i]] == drained(r.sessions[members[i]])
}

/// A tick of the rooms of a registry serves each of them once.
#[verifier::spinoff_prover]
pub proof fn law_sweep_serves_every_room<
    S,
    P,
    L: Fn(&Vec<S>) -> u8,
    F: Fn(SpatialState, SpatialState) -> Option<P>,
>(
    level_of: L,
    place: F,
    r: RegistryView<S>,
    mixes: Seq<Option<RoomMix<S, P>>>,
    k: int,
)
    requires
        r.wf(),
        is_sweep(level_of, place, r, mixes, r.rooms.len()),
        0 <= k < r.rooms.len(),
    ensures
        is_served(level_of, place, r, mixes, k),
{
    let n = r.rooms.len();
    let key = r.rooms[k].0;
    let members = r.members(key);
    let b = swept(r, mixes, k as nat);
    let c = swept(r, mixes, (k + 1) as nat);
    let after = swept(r, mixes, n).sessions;
    lemma_swept_keeps(r, mixes, k as nat);
    assert(b.members(key) == members);
    assert(mixes[k] is None <==> members.len() < 2);
    registry::law_members_are_those_of_the_room(r, key);
    lemma_members_in_range(r, key);
    assert forall|i: int| 0 <= i < members.len() implies b.sessions[#[trigger] members[i]]
        == r.sessions[members[i]] && after[members[i]] == c.sessions[members[i]] by {
        assert(members.contains(members[i]));
        assert(r.sessions[members[i]].room == key);
        lemma_swept_elsewhere(r, mixes, 0, k as nat, members[i]);
        lemma_swept_elsewhere(r, mixes, (k + 1) as nat, n, members[i]);
    }
    lemma_drain_keeps(b.sessions, members, members.len());
    if let Some(mix) = mixes[k] {
        law_a_mix_is_of_its_room(level_of, place, b.sessions, r.sessions, members, mix);
        assert forall|i: int| 0 <= i < members.len() implies after[#[trigger] members[i]]
            == after_mix(r.sessions, members, mix.levels@)[members[i]] by {
            assert(b.sessions[members[i]] == r.sessions[members[i]]);
        }
    } else {
        assert forall|i: int| 0 <= i < members.len() implies after[#[trigger] members[i]]
            == drained(r.sessions[members[i]]) by {
            assert(b.sessions[members[i]] == r.sessions[members[i]]);
        }
    }
}

} // verus!
