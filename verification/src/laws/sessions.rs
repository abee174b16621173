//! The calls on a session, from what goes in to what comes out.

use crate::json;
use crate::laws::room as raw;
use crate::mixer;
use crate::proto::{Quat, Vec3, ViewerDataMessage};
use crate::room;
use crate::room::{RoomKey, Session, SessionView};
use crate::session;
use crate::session::{GatherStep, LinkState, PortPool, Received, RtpClock};
use vstd::prelude::*;

verus! {

/// Nothing of a session but its frames and its level differs.
pub open spec fn same_but_audio<S>(a: SessionView<S>, b: SessionView<S>) -> bool {
    &&& a.id == b.id && a.agent_id == b.agent_id && a.room == b.room && a.spatial == b.spatial
    &&& a.state == b.state && a.gains == b.gains && a.mutes == b.mutes
    &&& a.joined == b.joined && a.primary == b.primary && a.closed == b.closed
    &&& a.announced == b.announced
}

/// A new session is the one that was asked for, and nothing has happened to it.
pub proof fn law_new<S>(
    id: String,
    agent_id: String,
    key: RoomKey,
    spatial: bool,
    r: Session<S>,
    agent: Seq<char>,
)
    requires
        call_ensures(Session::<S>::new, (id, agent_id, key, spatial), r),
    ensures
        r.id@ == id@ && r.agent_id@ == agent_id@ && r.room@ == key@ && r.spatial == spatial,
        !r.state.known && !r.joined && !r.primary && !r.closed && r.level == 0,
        r.state.avatar_pos == (Vec3 { x: 0, y: 0, z: 0 }),
        r.state.listener_pos == (Vec3 { x: 0, y: 0, z: 0 }),
        r.state.avatar_rot == (Quat { x: 0, y: 0, z: 0, w: 0x3FF0_0000_0000_0000 }),
        r.state.listener_rot == (Quat { x: 0, y: 0, z: 0, w: 0x3FF0_0000_0000_0000 }),
        r.inbound@.len() == 0,
        !r.gains@.contains_key(agent) && !r.mutes@.contains_key(agent),
        !r.announced@.contains(agent),
{
    raw::law_a_new_session_is_blank::<S>(id@, agent_id@, key@, spatial, agent);
    assert(r@.inbound.len() == r.inbound@.len());
}

/// A frame that is pushed is the newest of at most ten; the oldest of a full queue goes, and
/// nothing else does.
pub proof fn law_push_frame<S>(s: &mut Session<S>, frame: Vec<S>)
    requires
        call_ensures(Session::<S>::push_frame, (s, frame), ()),
        old(s)@.inbound.len() <= 10,
    ensures
        final(s)@.inbound.len() == if old(s)@.inbound.len() == 10 {
            10
        } else {
            old(s)@.inbound.len() + 1
        },
        final(s)@.inbound.last() == frame@,
        forall|i: int|
            0 <= i < final(s)@.inbound.len() - 1 ==> #[trigger] final(s)@.inbound[i]
                == old(s)@.inbound[if old(s)@.inbound.len() == 10 {
                i + 1
            } else {
                i
            }],
        same_but_audio(final(s)@, old(s)@),
        final(s)@.level == old(s)@.level,
{
}

/// What is taken is the oldest frame, and the others stay in order; of an empty queue nothing
/// is taken.
pub proof fn law_take_frame<S>(s: &mut Session<S>, r: Option<Vec<S>>)
    requires
        call_ensures(Session::<S>::take_frame, (s,), r),
    ensures
        r is Some <==> old(s)@.inbound.len() > 0,
        r matches Some(f) ==> {
            &&& f@ == old(s)@.inbound[0]
            &&& final(s)@.inbound.len() == old(s)@.inbound.len() - 1
            &&& forall|i: int|
                0 <= i < final(s)@.inbound.len() ==> #[trigger] final(s)@.inbound[i]
                    == old(s)@.inbound[i + 1]
        },
        r is None ==> final(s)@.inbound.len() == 0,
        same_but_audio(final(s)@, old(s)@),
        final(s)@.level == old(s)@.level,
{
}

/// A packet of the decoder ends up in the queue sample by sample, in frames of 960 filled up
/// with silence, behind what was there; of more than ten frames the newest ten stay.
#[verifier::spinoff_prover]
pub proof fn law_hear_packet<S: Copy>(
    s: &mut Session<S>,
    pcm: &Vec<S>,
    n: usize,
    silence: S,
    f: int,
    k: int,
)
    requires
        call_ensures(Session::<S>::hear_packet, (s, pcm, n, silence), ()),
        n <= pcm@.len(),
        old(s)@.inbound.len() <= 10,
        0 <= f * 960 < n,
        0 <= k < 960,
    ensures
        ({
            let had = old(s)@.inbound.len();
            let now = final(s)@.inbound;
            let frames = if n as int % 960 == 0 {
                n as int / 960
            } else {
                n as int / 960 + 1
            };
            let lost = if had + frames > 10 {
                had + frames - 10
            } else {
                0
            };
            &&& now.len() == had + frames - lost
            &&& had + f >= lost ==> now[had + f - lost].len() == 960 && now[had + f - lost][k]
                == if f * 960 + k < n {
                pcm@[f * 960 + k]
            } else {
                silence
            }
            &&& forall|i: int| lost <= i < had ==> #[trigger] old(s)@.inbound[i] == now[i - lost]
        }),
        same_but_audio(final(s)@, old(s)@),
        final(s)@.level == old(s)@.level,
{
    let packet = pcm@.take(n as int);
    let frames = mixer::packet_frames(packet, silence);
    raw::law_a_packet_keeps_its_samples(packet, silence);
    let had = old(s)@.inbound;
    room::law_buffer_holds_the_newest(had, frames);
    let all = had + frames;
    assert(0 <= f < frames.len());
    assert(all[had.len() + f] == frames[f]);
    assert(frames[f][k] == frames[f][k]);
    let lost = if all.len() > 10 {
        all.len() - 10
    } else {
        0
    };
    if had.len() + f >= lost {
        assert(final(s)@.inbound[had.len() + f - lost] == all[had.len() + f]);
    }
    assert forall|i: int| lost <= i < had.len() implies #[trigger] had[i]
        == final(s)@.inbound[i - lost] by {
        assert(all[i] == had[i]);
    }
}

/// An empty packet changes nothing.
pub proof fn law_hear_nothing<S: Copy>(s: &mut Session<S>, pcm: &Vec<S>, silence: S)
    requires
        call_ensures(Session::<S>::hear_packet, (s, pcm, 0usize, silence), ()),
    ensures
        final(s)@.inbound == old(s)@.inbound,
        same_but_audio(final(s)@, old(s)@),
        final(s)@.level == old(s)@.level,
{
    raw::law_a_packet_keeps_its_samples(pcm@.take(0), silence);
}

/// A message sets exactly what it names: the places and turns, the gains and mutes, the join.
pub proof fn law_apply_data<S, T: Fn(Vec3, Vec3) -> Vec3>(
    s: &mut Session<S>,
    m: &ViewerDataMessage,
    tether: &T,
)
    requires
        call_ensures(Session::<S>::apply_data::<T>, (s, m, tether), ()),
    ensures
        room::state_after(old(s)@.state, *m, *tether, final(s)@.state),
        final(s)@ == old(s)@.told(*m, final(s)@.state),
{
}

/// Where an avatar is after a message, and whether that is known.
pub proof fn law_apply_data_moves_the_avatar<S, T: Fn(Vec3, Vec3) -> Vec3>(
    s: &mut Session<S>,
    m: &ViewerDataMessage,
    tether: &T,
)
    requires
        call_ensures(Session::<S>::apply_data::<T>, (s, m, tether), ()),
    ensures
        raw::names_point(m.avatar_pos) ==> final(s)@.state.avatar_pos == m.avatar_pos->Some_0
            && final(s)@.state.known,
        !raw::names_point(m.avatar_pos) ==> final(s)@.state.avatar_pos
            == old(s)@.state.avatar_pos && final(s)@.state.known == old(s)@.state.known,
        final(s)@.state.known && (raw::names_point(m.avatar_pos) || raw::names_point(
            m.listener_pos,
        )) ==> call_ensures(
            *tether,
            (
                if raw::names_point(m.listener_pos) {
                    m.listener_pos->Some_0
                } else {
                    old(s)@.state.listener_pos
                },
                final(s)@.state.avatar_pos,
            ),
            final(s)@.state.listener_pos,
        ),
{
    raw::law_a_message_sets_what_it_names(old(s)@.state, *m, *tether, final(s)@.state);
}

/// A listener's gain for an agent.
pub proof fn law_peer_gain<S>(s: &Session<S>, agent: &str, r: u32)
    requires
        call_ensures(Session::<S>::peer_gain, (s, agent), r),
    ensures
        s.mutes@.contains_key(agent@) && s.mutes@[agent@] ==> r == 0,
        !(s.mutes@.contains_key(agent@) && s.mutes@[agent@]) ==> r == if s.gains@.contains_key(
            agent@,
        ) {
            s.gains@[agent@]
        } else {
            220
        },
{
}

/// Text that is JSON is read as a message of the viewer, and the message is applied; text
/// that is not is handed back with the reason; what is no text is passed over. Only the first
/// changes the session.
pub proof fn law_receive<S, F: Fn(u64) -> u64, T: Fn(Vec3, Vec3) -> Vec3>(
    s: &mut Session<S>,
    is_string: bool,
    data: &Vec<u8>,
    metres: &F,
    tether: &T,
    r: Received,
)
    requires
        call_ensures(
            Session::<S>::receive::<F, T>,
            (s, is_string, data, metres, tether),
            r,
        ),
    ensures
        ({
            let is_text = is_string && vstd::utf8::valid_utf8(data@);
            let read = json::json_from_str(vstd::utf8::decode_utf8(data@));
            &&& !is_text ==> r is Ignored && final(s)@ == old(s)@
            &&& is_text && read is Err ==> final(s)@ == old(s)@ && (match r {
                Received::BadJson(e) => Err::<json::JsonView, Seq<char>>(e@) == read,
                _ => false,
            })
            &&& is_text && read is Ok ==> r is Applied && exists|m: ViewerDataMessage| #[trigger]
                m.reads(read->Ok_0, *metres) && room::state_after(
                    old(s)@.state,
                    m,
                    *tether,
                    final(s)@.state,
                ) && final(s)@ == old(s)@.told(m, final(s)@.state)
        }),
{
}

/// A session is over once its link was disconnected, failed or closed, and stays so; nothing
/// else of it changes.
pub proof fn law_link_changed<S>(s: &mut Session<S>, state: LinkState)
    requires
        call_ensures(Session::<S>::link_changed, (s, state), ()),
    ensures
        final(s)@.closed <==> old(s)@.closed || !(state is New || state is Connecting
            || state is Connected),
        final(s)@ == (SessionView { closed: final(s)@.closed, ..old(s)@ }),
{
}

/// Two keys are of one room exactly if they are of one kind and name the same.
pub proof fn law_same(a: &RoomKey, b: &RoomKey, r: bool)
    requires
        call_ensures(RoomKey::same, (a, b), r),
    ensures
        r == match (*a, *b) {
            (
                RoomKey::Spatial { region: x, parcel: p },
                RoomKey::Spatial { region: y, parcel: q },
            ) => x@ == y@ && p == q,
            (RoomKey::MultiAgent { channel: x }, RoomKey::MultiAgent { channel: y }) => x@ == y@,
            _ => false,
        },
{
}

// ---- the transport's decisions ----

/// A stream's clock gives what it showed and goes on by 960 ticks, round 2 to the power of
/// 32.
pub proof fn law_stamp(c: &mut RtpClock, r: u32)
    requires
        call_ensures(RtpClock::stamp, (c,), r),
    ensures
        r == old(c).next,
        final(c).next == if old(c).next + 960 < 0x1_0000_0000 {
            old(c).next + 960
        } else {
            old(c).next + 960 - 0x1_0000_0000
        },
{
}

/// A pool gives the port that is next, and the one behind it is next then; behind the last
/// the first.
pub proof fn law_take(p: &mut PortPool, r: u16)
    requires
        call_ensures(PortPool::take, (p,), r),
        old(p).lo() <= old(p).upcoming() <= old(p).hi(),
    ensures
        r == old(p).upcoming(),
        final(p).lo() == old(p).lo() && final(p).hi() == old(p).hi(),
        r < old(p).hi() ==> final(p).upcoming() == r + 1,
        r == old(p).hi() ==> final(p).upcoming() == old(p).lo(),
{
}

/// A new pool has the range that it was given, and starts with its first port.
pub proof fn law_new_pool(lo: u16, hi: u16, r: PortPool)
    requires
        call_ensures(PortPool::new, (lo, hi), r),
    ensures
        r.lo() == lo && r.hi() == hi && r.upcoming() == lo,
{
}

/// Gathering is waited for up to two and a half seconds.
pub proof fn law_gather_step(gathered: bool, waited_ms: u64, r: GatherStep)
    requires
        call_ensures(session::gather_step, (gathered, waited_ms), r),
    ensures
        gathered ==> r is Complete,
        !gathered && waited_ms < 2500 ==> r is Wait,
        !gathered && waited_ms >= 2500 ==> r is Partial,
{
}

/// A seed is odd, and made of the counter and of the nanoseconds, turned by 13 places; the
/// counter goes on by the golden ratio.
pub proof fn law_rand_u32(counter: &mut u32, nanos: u32, r: u32)
    requires
        call_ensures(session::rand_u32, (counter, nanos), r),
    ensures
        r != 0,
        r == (*old(counter) ^ ((nanos << 13u32) | (nanos >> 19u32))) | 1,
        *final(counter) == (*old(counter) + 0x9E37_79B9) % 0x1_0000_0000,
{
}

} // verus!
