//! Rooms and the sessions in them.
//!
//! A session is one viewer's peer connection. A viewer opens one for each region that it
//! can hear, so one agent may well hold several; only the one of the agent's own region
//! says that it is primary.

use crate::mixer;
use crate::proto;
use crate::proto::{Quat, Vec3, ViewerDataMessage, MAX_PEER_ENTRIES, MAX_PEER_GAIN};
use crate::text::same_text;
use std::collections::VecDeque;
use vstd::hash_map::StringHashMap;
use vstd::hash_set::StringHashSet;
use vstd::prelude::*;

verus! {

/// How many frames of a speaker are held before the oldest is dropped: 200 ms. Audio
/// older than that only adds delay.
pub const JITTER_MAX_FRAMES: usize = 10;

// ---- which room ----

/// Which room a session belongs to: spatial voice goes by region and parcel, group and
/// IM voice by the channel that the viewer names.
#[derive(Debug, PartialEq, Eq, Hash)]
pub enum RoomKey {
    Spatial { region: String, parcel: i32 },
    MultiAgent { channel: String },
}

/// What a room's key says.
pub enum RoomView {
    Spatial { region: Seq<char>, parcel: i32 },
    MultiAgent { channel: Seq<char> },
}

impl View for RoomKey {
    type V = RoomView;

    open spec fn view(&self) -> RoomView {
        match self {
            RoomKey::Spatial { region, parcel } => RoomView::Spatial {
                region: region@,
                parcel: *parcel,
            },
            RoomKey::MultiAgent { channel } => RoomView::MultiAgent { channel: channel@ },
        }
    }
}

impl Clone for RoomKey {
    fn clone(&self) -> (r: Self)
        ensures
            r@ == self@,
    {
        match self {
            RoomKey::Spatial { region, parcel } => RoomKey::Spatial {
                region: region.clone(),
                parcel: *parcel,
            },
            RoomKey::MultiAgent { channel } => RoomKey::MultiAgent { channel: channel.clone() },
        }
    }
}

impl RoomKey {
    /// Whether two keys are those of one room.
    pub fn same(&self, other: &RoomKey) -> (r: bool)
        ensures
            r == (self@ == other@),
    {
        match (self, other) {
            (
                RoomKey::Spatial { region: a, parcel: p },
                RoomKey::Spatial { region: b, parcel: q },
            ) => *p == *q && same_text(a.as_str(), b.as_str()),
            (RoomKey::MultiAgent { channel: a }, RoomKey::MultiAgent { channel: b }) => same_text(
                a.as_str(),
                b.as_str(),
            ),
            _ => false,
        }
    }
}

// ---- where a participant is ----

/// The bit pattern of the binary64 number one.
pub const ONE_BITS: u64 = 0x3FF0_0000_0000_0000;

/// Where a participant stands and listens.
#[derive(Clone, Copy, Debug, PartialEq, Eq, Structural)]
pub struct SpatialState {
    pub avatar_pos: Vec3,
    pub avatar_rot: Quat,
    pub listener_pos: Vec3,
    pub listener_rot: Quat,
    /// False until the viewer has sent a position. Until then the participant is nowhere:
    /// putting it at the origin would make it heard by whoever stands there.
    pub known: bool,
}

/// The origin.
pub open spec fn origin() -> Vec3 {
    Vec3 { x: 0, y: 0, z: 0 }
}

/// The orientation that turns nothing.
pub open spec fn upright() -> Quat {
    Quat { x: 0, y: 0, z: 0, w: ONE_BITS }
}

/// The state of a participant that has said nothing yet.
pub open spec fn nowhere() -> SpatialState {
    SpatialState {
        avatar_pos: origin(),
        avatar_rot: upright(),
        listener_pos: origin(),
        listener_rot: upright(),
        known: false,
    }
}

impl SpatialState {
    /// The state of a participant that has said nothing yet.
    pub fn identity() -> (r: Self)
        ensures
            r == nowhere(),
    {
        SpatialState {
            avatar_pos: Vec3 { x: 0, y: 0, z: 0 },
            avatar_rot: Quat { x: 0, y: 0, z: 0, w: ONE_BITS },
            listener_pos: Vec3 { x: 0, y: 0, z: 0 },
            listener_rot: Quat { x: 0, y: 0, z: 0, w: ONE_BITS },
            known: false,
        }
    }

    /// Every number of it is sound.
    pub open spec fn sound(self) -> bool {
        &&& vec3_sound(self.avatar_pos)
        &&& quat_sound(self.avatar_rot)
        &&& vec3_sound(self.listener_pos)
        &&& quat_sound(self.listener_rot)
    }
}

/// The exponent field of a binary64 bit pattern.
pub open spec fn exponent(bits: u64) -> int {
    (bits as int / 0x10_0000_0000_0000) % 0x800
}

/// The exponent field of 2 to the power of 512, the least number whose square is not
/// finite.
pub const UNSOUND_EXPONENT: u64 = 0x5ff;

/// Whether a number is finite and its square is finite too. A larger one would turn
/// infinite when it is squared, and infinite by infinite is no number. (The product of
/// several sound numbers may still be infinite; whoever computes with them has to see to
/// that.)
pub open spec fn bits_sound(bits: u64) -> bool {
    exponent(bits) < UNSOUND_EXPONENT
}

/// Every coordinate is sound.
pub open spec fn vec3_sound(v: Vec3) -> bool {
    bits_sound(v.x) && bits_sound(v.y) && bits_sound(v.z)
}

/// Every part is sound.
pub open spec fn quat_sound(q: Quat) -> bool {
    bits_sound(q.x) && bits_sound(q.y) && bits_sound(q.z) && bits_sound(q.w)
}

/// A position that is sound.
pub open spec fn sound3(v: Option<Vec3>) -> Option<Vec3> {
    match v {
        Some(p) => if vec3_sound(p) {
            Some(p)
        } else {
            None
        },
        None => None,
    }
}

/// An orientation that is sound.
pub open spec fn sound4(v: Option<Quat>) -> Option<Quat> {
    match v {
        Some(q) => if quat_sound(q) {
            Some(q)
        } else {
            None
        },
        None => None,
    }
}

fn is_sound(bits: u64) -> (r: bool)
    ensures
        r == bits_sound(bits),
{
    let e: u64 = (bits >> 52) & 0x7ff;
    assert((bits >> 52) & 0x7ff == (bits / 0x10_0000_0000_0000) % 0x800) by (bit_vector);
    e < UNSOUND_EXPONENT
}

fn sound_point(v: Option<Vec3>) -> (r: Option<Vec3>)
    ensures
        r == sound3(v),
{
    match v {
        Some(p) => if is_sound(p.x) && is_sound(p.y) && is_sound(p.z) {
            Some(p)
        } else {
            None
        },
        None => None,
    }
}

fn sound_turn(v: Option<Quat>) -> (r: Option<Quat>)
    ensures
        r == sound4(v),
{
    match v {
        Some(q) => if is_sound(q.x) && is_sound(q.y) && is_sound(q.z) && is_sound(q.w) {
            Some(q)
        } else {
            None
        },
        None => None,
    }
}

// ---- a session ----

/// One viewer's session: what the mixer and the roster know of it.
///
/// `S` is the type of a sample.
pub struct Session<S> {
    pub id: String,
    pub agent_id: String,
    pub room: RoomKey,
    /// Whether positions count in its room.
    pub spatial: bool,
    pub state: SpatialState,
    /// The gain that this listener chose per speaker, in the viewer's units, at most
    /// `MAX_PEER_GAIN`.
    pub gains: StringHashMap<u32>,
    /// Whom this listener muted.
    pub mutes: StringHashMap<bool>,
    /// Decoded frames of this session's own microphone, oldest first.
    pub inbound: VecDeque<Vec<S>>,
    /// How loud this session was on the last tick, on the wire's scale.
    pub level: u8,
    pub joined: bool,
    pub primary: bool,
    /// Set once the transport is over.
    pub closed: bool,
    /// The agents that this listener was told of, so that a join is told once.
    pub announced: StringHashSet,
}

/// What a session is.
#[verifier::ext_equal]
pub struct SessionView<S> {
    pub id: Seq<char>,
    pub agent_id: Seq<char>,
    pub room: RoomView,
    pub spatial: bool,
    pub state: SpatialState,
    pub gains: Map<Seq<char>, u32>,
    pub mutes: Map<Seq<char>, bool>,
    pub inbound: Seq<Seq<S>>,
    pub level: u8,
    pub joined: bool,
    pub primary: bool,
    pub closed: bool,
    pub announced: Set<Seq<char>>,
}

impl<S> View for Session<S> {
    type V = SessionView<S>;

    open spec fn view(&self) -> SessionView<S> {
        SessionView {
            id: self.id@,
            agent_id: self.agent_id@,
            room: self.room@,
            spatial: self.spatial,
            state: self.state,
            gains: self.gains@,
            mutes: self.mutes@,
            inbound: mixer::frames_view(self.inbound@),
            level: self.level,
            joined: self.joined,
            primary: self.primary,
            closed: self.closed,
            announced: self.announced@,
        }
    }
}

/// A queue of frames with one more at its end; a full one loses its oldest.
pub open spec fn buffered<S>(queue: Seq<Seq<S>>, frame: Seq<S>) -> Seq<Seq<S>> {
    if queue.len() >= JITTER_MAX_FRAMES {
        queue.skip(1).push(frame)
    } else {
        queue.push(frame)
    }
}

/// What a queue gives next.
pub open spec fn next_frame<S>(queue: Seq<Seq<S>>) -> Option<Seq<S>> {
    if queue.len() > 0 {
        Some(queue[0])
    } else {
        None
    }
}

/// What a queue holds once the next frame is taken.
pub open spec fn after_take<S>(queue: Seq<Seq<S>>) -> Seq<Seq<S>> {
    if queue.len() > 0 {
        queue.skip(1)
    } else {
        queue
    }
}

/// What a frame that may be missing holds.
pub open spec fn frame_view<S>(frame: Option<Vec<S>>) -> Option<Seq<S>> {
    match frame {
        Some(f) => Some(f@),
        None => None,
    }
}

/// A table of peers with one more entry; a full one takes no new peer.
pub open spec fn noted<V>(table: Map<Seq<char>, V>, peer: Seq<char>, v: V) -> Map<Seq<char>, V> {
    if table.len() < MAX_PEER_ENTRIES || table.contains_key(peer) {
        table.insert(peer, v)
    } else {
        table
    }
}

/// The gain that is kept for a request: what was asked for, up to the largest.
pub open spec fn clamped_gain(raw: u32) -> u32 {
    if raw <= MAX_PEER_GAIN {
        raw
    } else {
        MAX_PEER_GAIN
    }
}

/// A table of peers after some entries, one after the other.
pub open spec fn noted_all<V>(
    table: Map<Seq<char>, V>,
    requests: Seq<(Seq<char>, V)>,
) -> Map<Seq<char>, V>
    decreases requests.len(),
{
    if requests.len() == 0 {
        table
    } else {
        noted(noted_all(table, requests.drop_last()), requests.last().0, requests.last().1)
    }
}

/// The gains that are kept for some requests.
pub open spec fn clamped(requests: Seq<(Seq<char>, u32)>) -> Seq<(Seq<char>, u32)> {
    requests.map_values(|r: (Seq<char>, u32)| (r.0, clamped_gain(r.1)))
}

/// Whether a message moves anything: it holds a position or an orientation that is
/// sound.
pub open spec fn moves(m: ViewerDataMessage) -> bool {
    ||| sound3(m.avatar_pos) is Some
    ||| sound4(m.avatar_rot) is Some
    ||| sound3(m.listener_pos) is Some
    ||| sound4(m.listener_rot) is Some
}

/// A state after the positions and orientations of a message, the ear still where the
/// viewer put it.
pub open spec fn moved(s: SpatialState, m: ViewerDataMessage) -> SpatialState {
    SpatialState {
        avatar_pos: match sound3(m.avatar_pos) {
            Some(p) => p,
            None => s.avatar_pos,
        },
        avatar_rot: match sound4(m.avatar_rot) {
            Some(q) => q,
            None => s.avatar_rot,
        },
        listener_pos: match sound3(m.listener_pos) {
            Some(p) => p,
            None => s.listener_pos,
        },
        listener_rot: match sound4(m.listener_rot) {
            Some(q) => q,
            None => s.listener_rot,
        },
        known: s.known || sound3(m.avatar_pos) is Some,
    }
}

/// `s2` is the state `s` after a message: moved, and with the ear tethered to the avatar
/// wherever that is known.
pub open spec fn state_after<T: Fn(Vec3, Vec3) -> Vec3>(
    s: SpatialState,
    m: ViewerDataMessage,
    tether: T,
    s2: SpatialState,
) -> bool {
    if !moves(m) {
        s2 == s
    } else {
        let t = moved(s, m);
        if t.known {
            &&& s2 == SpatialState { listener_pos: s2.listener_pos, ..t }
            &&& call_ensures(tether, (t.listener_pos, t.avatar_pos), s2.listener_pos)
        } else {
            s2 == t
        }
    }
}

impl<S> SessionView<S> {
    /// The gain at which this listener wants a speaker: nothing where muted, what was
    /// chosen, else unity.
    pub open spec fn peer_gain(self, agent: Seq<char>) -> u32 {
        if self.mutes.contains_key(agent) && self.mutes[agent] {
            0
        } else if self.gains.contains_key(agent) {
            self.gains[agent]
        } else {
            proto::PEER_GAIN_CONVERSION_FACTOR
        }
    }

    /// The session after a message of its viewer, with the state that comes of it.
    pub open spec fn told(self, m: ViewerDataMessage, state: SpatialState) -> Self {
        SessionView {
            joined: self.joined || m.join is Some,
            primary: match m.join {
                Some(p) => p,
                None => self.primary,
            },
            state,
            gains: noted_all(self.gains, clamped(proto::pairs_view(m.user_gain@))),
            mutes: noted_all(self.mutes, proto::pairs_view(m.user_mute@)),
            ..self
        }
    }

    /// What every session keeps within bounds: frames, gains and tables.
    pub open spec fn wf(self) -> bool {
        &&& self.inbound.len() <= JITTER_MAX_FRAMES
        &&& self.gains.dom().finite()
        &&& self.gains.len() <= MAX_PEER_ENTRIES
        &&& self.mutes.dom().finite()
        &&& self.mutes.len() <= MAX_PEER_ENTRIES
        &&& forall|a: Seq<char>| #[trigger]
            self.gains.contains_key(a) ==> self.gains[a] <= MAX_PEER_GAIN
    }
}

/// A session that has just been made.
pub open spec fn fresh_session<S>(
    id: Seq<char>,
    agent_id: Seq<char>,
    room: RoomView,
    spatial: bool,
) -> SessionView<S> {
    SessionView {
        id,
        agent_id,
        room,
        spatial,
        state: nowhere(),
        gains: Map::empty(),
        mutes: Map::empty(),
        inbound: Seq::empty(),
        level: 0,
        joined: false,
        primary: false,
        closed: false,
        announced: Set::empty(),
    }
}

impl<S> Session<S> {
    /// A session that nothing has happened to yet.
    pub fn new(id: String, agent_id: String, room: RoomKey, spatial: bool) -> (r: Self)
        ensures
            r@ == fresh_session::<S>(id@, agent_id@, room@, spatial),
            r@.wf(),
            r@.state.sound(),
    {
        let r = Session {
            id,
            agent_id,
            room,
            spatial,
            state: SpatialState::identity(),
            gains: StringHashMap::new(),
            mutes: StringHashMap::new(),
            inbound: VecDeque::new(),
            level: 0,
            joined: false,
            primary: false,
            closed: false,
            announced: StringHashSet::new(),
        };
        assert(r@ =~= fresh_session::<S>(id@, agent_id@, room@, spatial));
        assert(exponent(0) == 0 && exponent(ONE_BITS) == 0x3ff);
        r
    }

    /// Adds one decoded frame, dropping the oldest if the mixer is not keeping up.
    pub fn push_frame(&mut self, frame: Vec<S>)
        ensures
            final(self)@ == (SessionView {
                inbound: buffered(old(self)@.inbound, frame@),
                ..old(self)@
            }),
            old(self)@.wf() ==> final(self)@.wf(),
    {
        let ghost before = self.inbound@;
        if self.inbound.len() >= JITTER_MAX_FRAMES {
            let _ = self.inbound.pop_front();
        }
        self.inbound.push_back(frame);
        assert(mixer::frames_view(self.inbound@) =~= buffered(
            mixer::frames_view(before),
            frame@,
        ));
    }

    /// Takes the next frame for this tick; none means silence.
    pub fn take_frame(&mut self) -> (r: Option<Vec<S>>)
        ensures
            frame_view(r) == next_frame(old(self)@.inbound),
            final(self)@ == (SessionView { inbound: after_take(old(self)@.inbound), ..old(self)@ }),
            old(self)@.wf() ==> final(self)@.wf(),
    {
        let ghost before = self.inbound@;
        let r = self.inbound.pop_front();
        assert(mixer::frames_view(self.inbound@) =~= after_take(mixer::frames_view(before)));
        r
    }

    /// Applies a message of the session's viewer.
    ///
    /// What is not sound is left out before it can reach the mixer. The ear is tethered
    /// to the avatar here although the viewer does so too: a modified one could put its
    /// ear anywhere.
    pub fn apply_data<T: Fn(Vec3, Vec3) -> Vec3>(&mut self, m: &ViewerDataMessage, tether: &T)
        requires
            forall|ear: Vec3, avatar: Vec3| call_requires(*tether, (ear, avatar)),
        ensures
            state_after(old(self)@.state, *m, *tether, final(self)@.state),
            final(self)@ == old(self)@.told(*m, final(self)@.state),
            old(self)@.wf() ==> final(self)@.wf(),
    {
        if let Some(primary) = m.join {
            self.joined = true;
            self.primary = primary;
        }
        let avatar_pos = sound_point(m.avatar_pos);
        let avatar_rot = sound_turn(m.avatar_rot);
        let listener_pos = sound_point(m.listener_pos);
        let listener_rot = sound_turn(m.listener_rot);
        if avatar_pos.is_some() || avatar_rot.is_some() || listener_pos.is_some()
            || listener_rot.is_some() {
            let mut s = self.state;
            if let Some(p) = avatar_pos {
                s.avatar_pos = p;
                s.known = true;
            }
            if let Some(q) = avatar_rot {
                s.avatar_rot = q;
            }
            if let Some(p) = listener_pos {
                s.listener_pos = p;
            }
            if let Some(q) = listener_rot {
                s.listener_rot = q;
            }
            assert(s == moved(old(self)@.state, *m));
            if s.known {
                s.listener_pos = tether(s.listener_pos, s.avatar_pos);
            }
            self.state = s;
        }
        note_all(&mut self.gains, &clamp_all(&m.user_gain));
        note_all(&mut self.mutes, &m.user_mute);
        proof {
            if old(self)@.wf() {
                law_tables_stay_small(old(self)@, *m, self.state);
            }
        }
    }

    /// The gain at which this listener wants a speaker, in the viewer's units.
    pub fn peer_gain(&self, speaker: &str) -> (r: u32)
        ensures
            r == self@.peer_gain(speaker@),
    {
        if let Some(muted) = self.mutes.get(speaker) {
            if *muted {
                return 0;
            }
        }
        match self.gains.get(speaker) {
            Some(g) => *g,
            None => proto::PEER_GAIN_CONVERSION_FACTOR,
        }
    }

    /// Notes that this listener is told of an agent; true the first time.
    pub(crate) fn mark_announced(&mut self, agent: &str) -> (r: bool)
        ensures
            r == !old(self)@.announced.contains(agent@),
            final(self)@ == (SessionView {
                announced: old(self)@.announced.insert(agent@),
                ..old(self)@
            }),
    {
        self.announced.insert(agent.to_owned())
    }

    /// Forgets that this listener was told of an agent.
    pub(crate) fn forget_announced(&mut self, agent: &str)
        ensures
            final(self)@ == (SessionView {
                announced: old(self)@.announced.remove(agent@),
                ..old(self)@
            }),
    {
        let _ = self.announced.remove(agent);
    }
}

fn clamp_all(requests: &Vec<(String, u32)>) -> (r: Vec<(String, u32)>)
    ensures
        proto::pairs_view(r@) == clamped(proto::pairs_view(requests@)),
{
    let mut out: Vec<(String, u32)> = Vec::new();
    let mut i: usize = 0;
    while i < requests.len()
        invariant
            i <= requests@.len(),
            out@.len() == i,
            forall|k: int|
                0 <= k < i ==> (#[trigger] out@[k]).0@ == requests@[k].0@ && out@[k].1
                    == clamped_gain(requests@[k].1),
        decreases requests@.len() - i,
    {
        let raw: u32 = requests[i].1;
        let gain: u32 = if raw <= MAX_PEER_GAIN {
            raw
        } else {
            MAX_PEER_GAIN
        };
        out.push((requests[i].0.clone(), gain));
        i += 1;
    }
    assert(proto::pairs_view(out@) =~= clamped(proto::pairs_view(requests@)));
    out
}

/// Enters some entries into a table of peers; a full one takes no new peer.
fn note_all<V: Copy>(table: &mut StringHashMap<V>, requests: &Vec<(String, V)>)
    ensures
        final(table)@ == noted_all(old(table)@, proto::pairs_view(requests@)),
{
    let ghost all = proto::pairs_view(requests@);
    let mut i: usize = 0;
    assert(all.take(0) =~= Seq::<(Seq<char>, V)>::empty());
    while i < requests.len()
        invariant
            i <= requests@.len(),
            all == proto::pairs_view(requests@),
            table@ == noted_all(old(table)@, all.take(i as int)),
        decreases requests@.len() - i,
    {
        assert(all.take(i + 1).drop_last() =~= all.take(i as int));
        if table.len() < MAX_PEER_ENTRIES || table.contains_key(requests[i].0.as_str()) {
            table.insert(requests[i].0.clone(), requests[i].1);
        }
        i += 1;
    }
    assert(all.take(i as int) =~= all);
}

// ---- laws ----

proof fn lemma_noted<V>(table: Map<Seq<char>, V>, peer: Seq<char>, v: V)
    requires
        table.dom().finite(),
        table.len() <= MAX_PEER_ENTRIES,
    ensures
        noted(table, peer, v).dom().finite(),
        noted(table, peer, v).len() <= MAX_PEER_ENTRIES,
{
    if table.contains_key(peer) {
        assert(table.insert(peer, v).dom() =~= table.dom());
    } else {
        assert(table.insert(peer, v).dom() =~= table.dom().insert(peer));
    }
}

proof fn lemma_noted_all<V>(table: Map<Seq<char>, V>, requests: Seq<(Seq<char>, V)>)
    requires
        table.dom().finite(),
        table.len() <= MAX_PEER_ENTRIES,
    ensures
        noted_all(table, requests).dom().finite(),
        noted_all(table, requests).len() <= MAX_PEER_ENTRIES,
        forall|a: Seq<char>| #[trigger]
            noted_all(table, requests).contains_key(a) ==> (table.contains_key(a) && noted_all(
                table,
                requests,
            )[a] == table[a]) || exists|i: int|
                0 <= i < requests.len() && noted_all(table, requests)[a] == (
                #[trigger] requests[i]).1,
    decreases requests.len(),
{
    if requests.len() > 0 {
        let rest = requests.drop_last();
        let last = requests.last();
        lemma_noted_all(table, rest);
        lemma_noted(noted_all(table, rest), last.0, last.1);
        let t = noted_all(table, requests);
        assert forall|a: Seq<char>| #[trigger] t.contains_key(a) implies (table.contains_key(a)
            && t[a] == table[a]) || exists|i: int|
            0 <= i < requests.len() && t[a] == (#[trigger] requests[i]).1 by {
            let b = noted_all(table, rest);
            if t[a] == last.1 {
                assert(requests[requests.len() - 1].1 == t[a]);
            } else {
                assert(b.contains_key(a) && b[a] == t[a]);
                if !(table.contains_key(a) && t[a] == table[a]) {
                    let i = choose|i: int| 0 <= i < rest.len() && b[a] == (#[trigger] rest[i]).1;
                    assert(requests[i].1 == t[a]);
                }
            }
        }
    }
}

/// However many messages a viewer sends and whatever they ask for, a session's tables
/// hold so many entries and no more, and no gain exceeds the largest.
pub proof fn law_tables_stay_small<S>(
    s: SessionView<S>,
    m: ViewerDataMessage,
    state: SpatialState,
)
    requires
        s.wf(),
    ensures
        s.told(m, state).wf(),
{
    lemma_noted_all(s.gains, clamped(proto::pairs_view(m.user_gain@)));
    lemma_noted_all(s.mutes, proto::pairs_view(m.user_mute@));
}

/// A queue of frames after some more, one after the other.
pub open spec fn buffered_all<S>(queue: Seq<Seq<S>>, frames: Seq<Seq<S>>) -> Seq<Seq<S>>
    decreases frames.len(),
{
    if frames.len() == 0 {
        queue
    } else {
        buffered(buffered_all(queue, frames.drop_last()), frames.last())
    }
}

/// The jitter buffer holds the newest frames, in the order in which they came, and drops
/// the oldest.
pub proof fn law_buffer_holds_the_newest<S>(queue: Seq<Seq<S>>, frames: Seq<Seq<S>>)
    requires
        queue.len() <= JITTER_MAX_FRAMES,
    ensures
        ({
            let all = queue + frames;
            buffered_all(queue, frames) == if all.len() <= JITTER_MAX_FRAMES {
                all
            } else {
                all.skip(all.len() - JITTER_MAX_FRAMES)
            }
        }),
    decreases frames.len(),
{
    let all = queue + frames;
    if frames.len() == 0 {
        assert(all =~= queue);
    } else {
        let rest = frames.drop_last();
        law_buffer_holds_the_newest(queue, rest);
        let before = queue + rest;
        assert(all =~= before.push(frames.last()));
        if all.len() <= JITTER_MAX_FRAMES {
            assert(buffered_all(queue, frames) =~= all);
        } else {
            assert(buffered_all(queue, frames) =~= all.skip(all.len() - JITTER_MAX_FRAMES));
        }
    }
}

/// A participant's place becomes known by a sound position of its avatar, by nothing else,
/// and stays known.
pub proof fn law_place_comes_of_a_position<T: Fn(Vec3, Vec3) -> Vec3>(
    s: SpatialState,
    m: ViewerDataMessage,
    tether: T,
    s2: SpatialState,
)
    requires
        state_after(s, m, tether, s2),
    ensures
        s2.known == (s.known || sound3(m.avatar_pos) is Some),
{
}

/// What is sound is finite: its exponent is not the one of infinities and NaN.
pub proof fn law_sound_numbers_are_finite(bits: u64)
    ensures
        bits_sound(bits) ==> exponent(bits) != 0x7ff,
{
}

/// A tether keeps places sound.
pub open spec fn tethers_soundly<T: Fn(Vec3, Vec3) -> Vec3>(tether: T) -> bool {
    forall|ear: Vec3, avatar: Vec3, r: Vec3|
        vec3_sound(ear) && vec3_sound(avatar) && #[trigger] call_ensures(
            tether,
            (ear, avatar),
            r,
        ) ==> vec3_sound(r)
}

/// What is not sound never comes into a state: not into what the viewer says of its avatar
/// and its orientations, and not into its ear if a tether between sound places is one.
pub proof fn law_state_stays_sound<T: Fn(Vec3, Vec3) -> Vec3>(
    s: SpatialState,
    m: ViewerDataMessage,
    tether: T,
    s2: SpatialState,
)
    requires
        state_after(s, m, tether, s2),
        vec3_sound(s.avatar_pos),
        quat_sound(s.avatar_rot),
        quat_sound(s.listener_rot),
    ensures
        vec3_sound(s2.avatar_pos),
        quat_sound(s2.avatar_rot),
        quat_sound(s2.listener_rot),
        tethers_soundly(tether) && vec3_sound(s.listener_pos) ==> s2.sound(),
{
}

/// Wherever the viewer puts its ear, it stays where the tether lets it: what the tether
/// brings about between ear and avatar holds after every message once the avatar's place
/// is known, also when only the avatar moved.
pub proof fn law_ear_stays_tethered<T: Fn(Vec3, Vec3) -> Vec3>(
    s: SpatialState,
    m: ViewerDataMessage,
    tether: T,
    s2: SpatialState,
    within: spec_fn(Vec3, Vec3) -> bool,
)
    requires
        state_after(s, m, tether, s2),
        forall|ear: Vec3, avatar: Vec3, r: Vec3| #[trigger]
            call_ensures(tether, (ear, avatar), r) ==> within(r, avatar),
        s.known ==> within(s.listener_pos, s.avatar_pos),
    ensures
        s2.known ==> within(s2.listener_pos, s2.avatar_pos),
{
}

/// `states` are the states of a new participant before and after each of some messages.
pub open spec fn is_history<T: Fn(Vec3, Vec3) -> Vec3>(
    messages: Seq<ViewerDataMessage>,
    tether: T,
    states: Seq<SpatialState>,
) -> bool {
    &&& states.len() == messages.len() + 1
    &&& states[0] == nowhere()
    &&& forall|i: int|
        0 <= i < messages.len() ==> state_after(
            states[i],
            #[trigger] messages[i],
            tether,
            states[i + 1],
        )
}

/// Whatever messages a viewer sends, one after the other: its place is known exactly if
/// one of them held a sound position of its avatar; avatar and orientations are sound; and
/// the ear is sound and where the tether puts it, as far as the tether brings that about.
pub proof fn law_of_every_history<T: Fn(Vec3, Vec3) -> Vec3>(
    messages: Seq<ViewerDataMessage>,
    tether: T,
    states: Seq<SpatialState>,
    within: spec_fn(Vec3, Vec3) -> bool,
)
    requires
        is_history(messages, tether, states),
    ensures
        states.last().known <==> exists|i: int|
            0 <= i < messages.len() && sound3((#[trigger] messages[i]).avatar_pos) is Some,
        vec3_sound(states.last().avatar_pos),
        quat_sound(states.last().avatar_rot),
        quat_sound(states.last().listener_rot),
        tethers_soundly(tether) ==> states.last().sound(),
        (forall|ear: Vec3, avatar: Vec3, r: Vec3| #[trigger]
            call_ensures(tether, (ear, avatar), r) ==> within(r, avatar)) ==> (
        states.last().known ==> within(states.last().listener_pos, states.last().avatar_pos)),
    decreases messages.len(),
{
    if messages.len() == 0 {
        assert(exponent(0) == 0 && exponent(ONE_BITS) == 0x3ff);
    } else {
        let rest = messages.drop_last();
        let before = states.drop_last();
        assert forall|i: int| 0 <= i < rest.len() implies state_after(
            before[i],
            #[trigger] rest[i],
            tether,
            before[i + 1],
        ) by {
            assert(rest[i] == messages[i]);
        }
        law_of_every_history(rest, tether, before, within);
        let m = messages[messages.len() - 1];
        assert(state_after(before.last(), m, tether, states.last()));
        law_state_stays_sound(before.last(), m, tether, states.last());
        if before.last().known {
            let i = choose|i: int|
                0 <= i < rest.len() && sound3((#[trigger] rest[i]).avatar_pos) is Some;
            assert(sound3(messages[i].avatar_pos) is Some);
        }
        if exists|i: int|
            0 <= i < messages.len() && sound3((#[trigger] messages[i]).avatar_pos) is Some {
            let i = choose|i: int|
                0 <= i < messages.len() && sound3((#[trigger] messages[i]).avatar_pos) is Some;
            if i < rest.len() {
                assert(sound3(rest[i].avatar_pos) is Some);
            }
        }
    }
}

} // verus!
