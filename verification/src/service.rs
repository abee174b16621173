//! The service as a whole: what a region's call does to the sessions, and what is
//! answered.
//!
//! Nothing here talks to a peer. A call that needs one is answered in two steps: what to
//! establish, and then what came of it.

use crate::json;
use crate::json::{JsonNumber, JsonView};
use crate::mix;
use crate::mix::{RoomMix, TickGate, TickStep, WARN_INTERVAL_MS};
use crate::proto;
use crate::proto::{
    ChannelType, IceCandidate, ProvisionRequest, ProvisionView, RpcParams, SignalingRequest,
};
use crate::registry;
use crate::registry::{Registry, RegistryView};
use crate::room;
use crate::room::{RoomKey, RoomView, Session, SpatialState};
use crate::sdp;
use crate::session;
use crate::session::PortPool;
use crate::text;
use crate::text::{chars_of, quoted, same_text};
use serde_json::Value;
use vstd::prelude::*;

verus! {

/// The first port of the media range. The range is the one that the firewall lets
/// through.
pub const MEDIA_PORT_LO: u16 = 40000;

/// The last port of the media range.
pub const MEDIA_PORT_HI: u16 = 40999;

/// The most sessions at a time. Fewer than there are ports: a port comes round again only
/// after every other was handed out.
pub const MAX_SESSIONS: usize = 900;

/// The sessions and the media ports of the service.
pub struct Service<S> {
    pub registry: Registry<S>,
    pub ports: PortPool,
}

// ---- departures ----

/// The notice that an agent left a room, and the sessions that are to get it.
pub struct LeaveNotice {
    pub text: String,
    pub recipients: Vec<String>,
}

/// A session that was torn down.
pub struct Departure {
    pub session: String,
    pub notice: Option<LeaveNotice>,
}

/// Whether an agent holds a session among the members of a room.
pub open spec fn is_present<S>(r: RegistryView<S>, key: RoomView, agent: Seq<char>) -> bool {
    exists|k: int|
        0 <= k < r.members(key).len() && r.sessions[#[trigger] r.members(key)[k]].agent_id == agent
}

/// The ids of the members of a room, in the order in which they came.
pub open spec fn member_ids<S>(r: RegistryView<S>, key: RoomView) -> Seq<Seq<char>> {
    r.members(key).map_values(|k: int| r.sessions[k].id)
}

/// `d` is what is to be done once the session of an id left the registry `before`: the
/// rest of its room is told, unless the agent is still in it by another session.
pub open spec fn is_departure<S>(before: RegistryView<S>, id: Seq<char>, d: Departure) -> bool {
    let gone = before.session(id);
    let after = before.without(id);
    &&& d.session@ == id
    &&& d.notice is None <==> is_present(after, gone.room, gone.agent_id)
    &&& d.notice matches Some(n) ==> n.text@ == json::json_text(
        proto::leave_document(gone.agent_id),
    ) && registry::id_views(n.recipients@) == member_ids(after, gone.room)
}

/// A registry without the session of an id, if it has one.
pub open spec fn dropped<S>(r: RegistryView<S>, id: Seq<char>) -> RegistryView<S> {
    if r.has(id) {
        r.without(id)
    } else {
        r
    }
}

/// `d` is what comes of dropping the session of an id: nothing where there is none.
pub open spec fn is_drop<S>(before: RegistryView<S>, id: Seq<char>, d: Option<Departure>) -> bool {
    &&& d is Some <==> before.has(id)
    &&& d matches Some(dep) ==> is_departure(before, id, dep)
}

/// Where the notice of a departure goes, it goes to exactly the sessions that are left in
/// the room, and none of them is the departed agent's.
pub proof fn law_notice_reaches_the_rest<S>(before: RegistryView<S>, id: Seq<char>, d: Departure)
    requires
        before.wf(),
        before.has(id),
        is_departure(before, id, d),
        d.notice is Some,
    ensures
        forall|i: int|
            0 <= i < before.without(id).sessions.len() ==> {
                let s = #[trigger] before.without(id).sessions[i];
                &&& registry::id_views(d.notice->Some_0.recipients@).contains(s.id) <==> s.room
                    == before.session(id).room
                &&& s.room == before.session(id).room ==> s.agent_id != before.session(id).agent_id
            },
{
    let after = before.without(id);
    let gone = before.session(id);
    registry::law_remove_takes_out(before, id);
    registry::law_members_are_those_of_the_room(after, gone.room);
    let m = after.members(gone.room);
    let ids = member_ids(after, gone.room);
    assert forall|i: int| 0 <= i < after.sessions.len() implies {
        let s = #[trigger] after.sessions[i];
        &&& ids.contains(s.id) <==> s.room == gone.room
        &&& s.room == gone.room ==> s.agent_id != gone.agent_id
    } by {
        let s = after.sessions[i];
        if s.room == gone.room {
            assert(m.contains(i));
            let k = choose|k: int| 0 <= k < m.len() && m[k] == i;
            assert(ids[k] == s.id);
            assert(after.sessions[m[k]].agent_id == s.agent_id);
        }
        if ids.contains(s.id) {
            let k = choose|k: int| 0 <= k < ids.len() && ids[k] == s.id;
            assert(m.contains(m[k]));
            assert(after.sessions[m[k]].id == s.id);
        }
    }
}

impl<S> Service<S> {
    /// A service without sessions, with the whole media range before it.
    pub fn new() -> (r: Self)
        ensures
            r.registry@.sessions.len() == 0,
            r.registry@.wf(),
            r.ports.wf(),
            r.ports.lo() == MEDIA_PORT_LO,
            r.ports.hi() == MEDIA_PORT_HI,
            r.ports.upcoming() == MEDIA_PORT_LO,
    {
        Service { registry: Registry::new(), ports: PortPool::new(MEDIA_PORT_LO, MEDIA_PORT_HI) }
    }

    /// Takes a session out of the registry and out of its room, and says who is to be
    /// told that its agent has gone. Nothing else in the protocol ever takes a
    /// participant out of a viewer's list.
    #[verifier::spinoff_prover]
    pub fn drop_session(&mut self, id: &str) -> (r: Option<Departure>)
        ensures
            final(self).ports == old(self).ports,
            final(self).registry@ == dropped(old(self).registry@, id@),
            is_drop(old(self).registry@, id@, r),
            old(self).registry@.wf() ==> final(self).registry@.wf(),
    {
        proof {
            if self.registry@.wf() && self.registry@.has(id@) {
                registry::law_remove_takes_out(self.registry@, id@);
            }
        }
        let gone = match self.registry.remove(id) {
            Some(s) => s,
            None => {
                return None;
            },
        };
        let ghost after = self.registry@;
        let slots = self.registry.member_slots(&gone.room);
        let ghost m = after.members(gone.room@);
        let mut present = false;
        let mut recipients: Vec<String> = Vec::new();
        let mut i: usize = 0;
        while i < slots.len()
            invariant
                i <= slots@.len(),
                recipients@.len() == i,
                after == self.registry@,
                m == after.members(gone.room@),
                slots@.map_values(|k: usize| k as int) == m,
                forall|k: int|
                    0 <= k < slots@.len() ==> (#[trigger] slots@[k])
                        < self.registry.sessions@.len(),
                present <==> exists|k: int|
                    0 <= k < i && after.sessions[#[trigger] m[k]].agent_id == gone.agent_id@,
                forall|k: int|
                    0 <= k < i ==> (#[trigger] recipients@[k])@ == after.sessions[m[k]].id,
            decreases slots@.len() - i,
        {
            assert(slots@.map_values(|k: usize| k as int)[i as int] == slots@[i as int]);
            let s = &self.registry.sessions[slots[i]];
            assert(after.sessions[m[i as int]] == s@);
            if same_text(s.agent_id.as_str(), gone.agent_id.as_str()) {
                present = true;
            }
            recipients.push(s.id.clone());
            i += 1;
        }
        assert(slots@.map_values(|k: usize| k as int).len() == slots@.len());
        assert(registry::id_views(recipients@) =~= member_ids(after, gone.room@));
        let notice = if present {
            None
        } else {
            Some(LeaveNotice { text: proto::leave_json(gone.agent_id.as_str()), recipients })
        };
        Some(Departure { session: id.to_owned(), notice })
    }
}

// ---- provisioning ----

/// A connection that is to be established.
pub struct Start<S> {
    pub session: Session<S>,
    pub offer: String,
    pub port: u16,
}

/// What a provision call asks for next.
pub enum Next<S> {
    /// Nothing more: this is the result.
    Reply(Value),
    /// A peer connection; `established` takes what came of it.
    Establish(Start<S>),
}

/// What a provision call came to: a session that it tore down, and what is next or why
/// the call is refused.
pub struct Provisioned<S> {
    pub departure: Option<Departure>,
    pub outcome: Result<Next<S>, String>,
}

/// What a provision request is for.
pub enum Plan {
    /// To tear a session down.
    Leave(Seq<char>),
    /// To join a room.
    Join { offer: Seq<char>, room: RoomView, spatial: bool },
}

/// The session that a request replaces or ends, where there is such a session: two peer
/// connections must not fight over one agent.
pub open spec fn replaced(request: Result<ProvisionView, Seq<char>>) -> Option<Seq<char>> {
    match request {
        Ok(p) => if p.logout || p.offer_sdp is Some {
            p.viewer_session
        } else {
            None
        },
        Err(_) => None,
    }
}

/// The registry once the session that a request replaces or ends is gone.
pub open spec fn cleared<S>(
    r: RegistryView<S>,
    request: Result<ProvisionView, Seq<char>>,
) -> RegistryView<S> {
    match replaced(request) {
        Some(id) => dropped(r, id),
        None => r,
    }
}

/// The room that a request is for; none where group voice comes without a channel.
pub open spec fn room_for(p: ProvisionView, scene: Seq<char>) -> Option<RoomView> {
    if p.channel_type == Some(ChannelType::MultiAgent) {
        match p.channel {
            Some(channel) => Some(RoomView::MultiAgent { channel }),
            None => None,
        }
    } else {
        Some(RoomView::Spatial { region: scene, parcel: p.parcel_local_id })
    }
}

/// What a request is for while so many sessions are live, or the words that refuse it.
pub open spec fn plan_for(
    request: Result<ProvisionView, Seq<char>>,
    live: nat,
    user_id: Seq<char>,
    scene: Seq<char>,
) -> Result<Plan, Seq<char>> {
    match request {
        Err(e) => Err(e),
        Ok(p) => if p.logout {
            match p.viewer_session {
                Some(id) => Ok(Plan::Leave(id)),
                None => Err("logout without viewer_session"@),
            }
        } else {
            match p.offer_sdp {
                None => Err("provision without a jsep offer"@),
                Some(offer) => if live >= MAX_SESSIONS {
                    Err("voice service is at capacity"@)
                } else if user_id.len() == 0 {
                    Err("region did not supply userID"@)
                } else {
                    match room_for(p, scene) {
                        Some(room) => Ok(
                            Plan::Join {
                                offer,
                                room,
                                spatial: p.channel_type != Some(ChannelType::MultiAgent),
                            },
                        ),
                        None => Err("multiagent request without a channel"@),
                    }
                },
            }
        },
    }
}

/// `r` is what a provision call comes to, and `after` the service behind it, if a new
/// session is to have the given id.
pub open spec fn provisions<S>(
    before: Service<S>,
    params: RpcParams,
    id: Seq<char>,
    after: Service<S>,
    r: Provisioned<S>,
) -> bool {
    let request = proto::provision_in(json::json_of(params.request));
    &&& after.registry@ == cleared(before.registry@, request)
    &&& match replaced(request) {
        Some(gone) => is_drop(before.registry@, gone, r.departure),
        None => r.departure is None,
    }
    &&& match plan_for(
        request,
        after.registry@.sessions.len(),
        params.user_id@,
        params.scene@,
    ) {
        Err(e) => {
            &&& after.ports == before.ports
            &&& r.outcome matches Err(words) && words@ == e
        },
        Ok(Plan::Leave(gone)) => {
            &&& after.ports == before.ports
            &&& r.outcome matches Ok(Next::Reply(v)) && json::json_of(v)
                == proto::session_document(gone)
        },
        Ok(Plan::Join { offer, room, spatial }) => {
            &&& after.ports.lo() == before.ports.lo()
            &&& after.ports.hi() == before.ports.hi()
            &&& after.ports.upcoming() == session::port_after(
                before.ports.lo(),
                before.ports.hi(),
                before.ports.upcoming(),
            )
            &&& r.outcome matches Ok(Next::Establish(start)) && {
                &&& start.session@ == room::fresh_session::<S>(id, params.user_id@, room, spatial)
                &&& start.offer@ == offer
                &&& start.port == before.ports.upcoming()
            }
        },
    }
}

/// Whether a character is a digit of a lower-case hexadecimal number.
pub open spec fn is_hex(c: char) -> bool {
    '0' <= c <= '9' || 'a' <= c <= 'f'
}

/// Whether a text has the form of a UUID: groups of 8, 4, 4, 4 and 12 digits.
pub open spec fn is_uuid(s: Seq<char>) -> bool {
    &&& s.len() == 36
    &&& forall|i: int|
        0 <= i < 36 ==> if i == 8 || i == 13 || i == 18 || i == 23 {
            #[trigger] s[i] == '-'
        } else {
            is_hex(s[i])
        }
}

/// Whether a text has the form of a session's id.
pub open spec fn is_session_id(s: Seq<char>) -> bool {
    s.len() == 39 && s.take(3) == "wv-"@ && is_uuid(s.skip(3))
}

/// `uuid::Uuid::new_v4`, as text. Its digits are random, so all that is claimed is the
/// form: nothing is said of which digits they are, nor that no two calls give the same.
#[verifier::external_body]
fn random_uuid() -> (r: String)
    ensures
        is_uuid(r@),
{
    uuid::Uuid::new_v4().to_string()
}

/// An id for a new session.
pub fn new_session_id() -> (r: String)
    ensures
        is_session_id(r@),
{
    let mut id = "wv-".to_owned();
    let digits = random_uuid();
    id.append(digits.as_str());
    proof {
        reveal_strlit("wv-");
        assert(id@.take(3) =~= "wv-"@);
        assert(id@.skip(3) =~= digits@);
    }
    id
}

fn read_room(p: &ProvisionRequest, scene: &str) -> (r: Option<RoomKey>)
    ensures
        r is Some <==> room_for(p@, scene@) is Some,
        r matches Some(k) ==> room_for(p@, scene@) == Some(k@),
{
    match p.channel_type {
        Some(ChannelType::MultiAgent) => match &p.channel {
            Some(c) => Some(RoomKey::MultiAgent { channel: c.clone() }),
            None => None,
        },
        _ => Some(RoomKey::Spatial { region: scene.to_owned(), parcel: p.parcel_local_id }),
    }
}

impl<S> Service<S> {
    /// Takes a provision call: a teardown, or a connection request with an SDP offer.
    ///
    /// Who the session belongs to comes from the region, never from the viewer's request:
    /// the region issued the capability and knows whose it is. A new session gets a
    /// random id.
    pub fn provision(&mut self, params: &RpcParams) -> (r: Provisioned<S>)
        requires
            old(self).ports.wf(),
        ensures
            exists|id: Seq<char>| #[trigger]
                is_session_id(id) && provisions(*old(self), *params, id, *final(self), r),
            final(self).ports.wf(),
            old(self).registry@.wf() ==> final(self).registry@.wf(),
    {
        let id = new_session_id();
        self.provision_as(params, id)
    }

    /// Takes a provision call; a new session gets the given id.
    #[verifier::spinoff_prover]
    pub fn provision_as(&mut self, params: &RpcParams, id: String) -> (r: Provisioned<S>)
        requires
            old(self).ports.wf(),
        ensures
            provisions(*old(self), *params, id@, *final(self), r),
            final(self).ports.wf(),
            old(self).registry@.wf() ==> final(self).registry@.wf(),
    {
        let req = match ProvisionRequest::parse(&params.request) {
            Ok(p) => p,
            Err(e) => {
                return Provisioned { departure: None, outcome: Err(e) };
            },
        };
        if req.logout {
            return match &req.viewer_session {
                None => Provisioned {
                    departure: None,
                    outcome: Err("logout without viewer_session".to_owned()),
                },
                Some(gone) => Provisioned {
                    departure: self.drop_session(gone.as_str()),
                    outcome: Ok(Next::Reply(proto::session_reply(gone.as_str()))),
                },
            };
        }
        let offer = match &req.offer_sdp {
            Some(o) => o.clone(),
            None => {
                return Provisioned {
                    departure: None,
                    outcome: Err("provision without a jsep offer".to_owned()),
                };
            },
        };
        let departure = match &req.viewer_session {
            Some(gone) => self.drop_session(gone.as_str()),
            None => None,
        };
        if self.registry.session_count() >= MAX_SESSIONS {
            return Provisioned {
                departure,
                outcome: Err("voice service is at capacity".to_owned()),
            };
        }
        if params.user_id.as_str().is_empty() {
            return Provisioned {
                departure,
                outcome: Err("region did not supply userID".to_owned()),
            };
        }
        let key = match read_room(&req, params.scene.as_str()) {
            Some(k) => k,
            None => {
                return Provisioned {
                    departure,
                    outcome: Err("multiagent request without a channel".to_owned()),
                };
            },
        };
        let spatial = match req.channel_type {
            Some(ChannelType::MultiAgent) => false,
            _ => true,
        };
        let new = Session::new(id, params.user_id.clone(), key, spatial);
        let port = self.ports.take();
        Provisioned {
            departure,
            outcome: Ok(Next::Establish(Start { session: new, offer, port })),
        }
    }

    /// Takes a session whose peer connection is up, with the SDP of its answer, and gives
    /// the result of the provision call. The viewer discards an answer whose SDP is empty,
    /// so that counts as none.
    pub fn established(&mut self, new: Session<S>, sdp: Option<String>) -> (r: Result<
        Value,
        String,
    >)
        ensures
            final(self).ports == old(self).ports,
            match proto::nonempty(proto::text_view(sdp)) {
                Some(answer) => {
                    &&& r matches Ok(v) && json::json_of(v) == proto::answer_document(
                        new.id@,
                        answer,
                    )
                    &&& final(self).registry@ == old(self).registry@.with(new@)
                },
                None => {
                    &&& r matches Err(e) && e@ == "no answer sdp"@
                    &&& final(self).registry@ == old(self).registry@
                },
            },
            old(self).registry@.wf() && !old(self).registry@.has(new.id@)
                ==> final(self).registry@.wf(),
    {
        proof {
            if self.registry@.wf() && !self.registry@.has(new.id@) {
                registry::law_insert_adds(self.registry@, new@);
            }
        }
        if let Some(answer) = sdp {
            if !answer.as_str().is_empty() {
                let v = proto::provision_answer(new.id.as_str(), answer.as_str());
                self.registry.insert(new);
                return Ok(v);
            }
        }
        Err("no answer sdp".to_owned())
    }
}

/// Whatever a viewer writes in its request, a session that comes of it belongs to the
/// agent that the region named, starts out unknown and silent, and is never started at
/// capacity.
pub proof fn law_identity_comes_of_the_region<S>(
    before: Service<S>,
    params: RpcParams,
    id: Seq<char>,
    after: Service<S>,
    r: Provisioned<S>,
)
    requires
        provisions(before, params, id, after, r),
        r.outcome matches Ok(Next::Establish(_)),
    ensures
        r.outcome matches Ok(Next::Establish(start)) && {
            &&& start.session@.agent_id == params.user_id@
            &&& start.session@.agent_id.len() > 0
            &&& start.session@.id == id
            &&& !start.session@.state.known
            &&& start.session@.inbound.len() == 0
        },
        after.registry@.sessions.len() < MAX_SESSIONS,
{
}

/// One provision call: the service before and after it, the id for a new session, and what
/// the call came to.
pub struct ProvisionCall<S> {
    pub before: Service<S>,
    pub params: RpcParams,
    pub id: Seq<char>,
    pub after: Service<S>,
    pub result: Provisioned<S>,
}

/// Whether a call starts a session.
pub open spec fn starts_session<S>(c: ProvisionCall<S>) -> bool {
    c.result.outcome matches Ok(Next::Establish(_))
}

/// The port that a call hands out, where it starts a session.
pub open spec fn port_of<S>(c: ProvisionCall<S>) -> u16 {
    match c.result.outcome {
        Ok(Next::Establish(start)) => start.port,
        _ => 0,
    }
}

/// `calls` are provision calls of one service, in order. What happens to the service
/// between them leaves its ports alone.
pub open spec fn is_run<S>(calls: Seq<ProvisionCall<S>>) -> bool {
    &&& forall|i: int|
        0 <= i < calls.len() ==> {
            let c = #[trigger] calls[i];
            c.before.ports.wf() && provisions(c.before, c.params, c.id, c.after, c.result)
        }
    &&& forall|i: int, j: int|
        0 <= i && j == i + 1 && j < calls.len() ==> (#[trigger] calls[j]).before.ports == (
        #[trigger] calls[i]).after.ports
}

/// How many sessions the calls from `i` up to `j` start.
pub open spec fn starts_between<S>(calls: Seq<ProvisionCall<S>>, i: int, j: int) -> nat
    decreases j - i,
{
    if i >= j {
        0
    } else {
        starts_between(calls, i, j - 1) + if starts_session(calls[j - 1]) {
            1nat
        } else {
            0nat
        }
    }
}

proof fn lemma_ports_move_on<S>(calls: Seq<ProvisionCall<S>>, i: int, j: int)
    requires
        is_run(calls),
        0 <= i <= j < calls.len(),
    ensures
        ({
            let p = calls[i].before.ports;
            let q = calls[j].before.ports;
            &&& q.lo() == p.lo() && q.hi() == p.hi()
            &&& q.upcoming() == session::port_from(
                p.lo(),
                p.hi(),
                p.upcoming(),
                starts_between(calls, i, j),
            )
        }),
    decreases j - i,
{
    if i < j {
        lemma_ports_move_on(calls, i, j - 1);
        let c = calls[j - 1];
        assert(calls[j].before.ports == c.after.ports);
        assert(provisions(c.before, c.params, c.id, c.after, c.result));
    }
}

/// Two sessions get different ports unless the whole range was handed out between them: a
/// port comes round again only after as many starts as there are ports, and there are more
/// of these than sessions may be live.
pub proof fn law_sessions_get_ports_of_their_own<S>(
    calls: Seq<ProvisionCall<S>>,
    i: int,
    j: int,
)
    requires
        is_run(calls),
        0 <= i < j < calls.len(),
        starts_session(calls[i]),
        starts_session(calls[j]),
        starts_between(calls, i, j) <= calls[i].before.ports.hi() - calls[i].before.ports.lo(),
    ensures
        port_of(calls[i]) != port_of(calls[j]),
        calls[i].before.ports.lo() <= port_of(calls[i]) <= calls[i].before.ports.hi(),
        MAX_SESSIONS < MEDIA_PORT_HI - MEDIA_PORT_LO + 1,
{
    let c = calls[i];
    let d = calls[j];
    assert(provisions(c.before, c.params, c.id, c.after, c.result));
    assert(provisions(d.before, d.params, d.id, d.after, d.result));
    lemma_ports_move_on(calls, i, j);
    lemma_some_start(calls, i, j);
    let p = c.before.ports;
    session::law_ports_go_on(p.lo(), p.hi(), p.upcoming(), starts_between(calls, i, j));
}

proof fn lemma_some_start<S>(calls: Seq<ProvisionCall<S>>, i: int, j: int)
    requires
        0 <= i < j <= calls.len(),
        starts_session(calls[i]),
    ensures
        starts_between(calls, i, j) >= 1,
    decreases j - i,
{
    if i < j - 1 {
        lemma_some_start(calls, i, j - 1);
    }
}

/// A region's spatial voice never shares a room with group voice, and two parcels or two
/// regions never share one.
pub proof fn law_rooms_are_apart(
    p: ProvisionView,
    scene: Seq<char>,
    q: ProvisionView,
    other: Seq<char>,
)
    requires
        room_for(p, scene) is Some,
        room_for(p, scene) == room_for(q, other),
    ensures
        p.channel_type == Some(ChannelType::MultiAgent) <==> q.channel_type == Some(
            ChannelType::MultiAgent,
        ),
        p.channel_type == Some(ChannelType::MultiAgent) ==> p.channel == q.channel,
        p.channel_type != Some(ChannelType::MultiAgent) ==> scene == other && p.parcel_local_id
            == q.parcel_local_id,
{
}

// ---- signalling ----

/// Trickled candidates for a session, and the reply to them.
pub struct Trickle {
    pub session: String,
    pub candidates: Vec<IceCandidate>,
    pub completed: bool,
    pub reply: Value,
}

impl<S> Service<S> {
    /// Takes a signalling call: ICE candidates that the viewer trickles.
    ///
    /// That the session is unknown is no fault of the viewer: it may trickle for one that
    /// is torn down already.
    pub fn signaling(&self, params: &RpcParams) -> (r: Result<Trickle, String>)
        ensures
            ({
                let request = proto::signaling_in(json::json_of(params.request));
                match request.viewer_session {
                    None => r matches Err(e) && e@ == "signaling without viewer_session"@,
                    Some(id) => if self.registry@.has(id) {
                        r matches Ok(t) && {
                            &&& t.session@ == id
                            &&& proto::candidate_views(t.candidates@) == request.candidates
                            &&& t.completed == request.completed
                            &&& json::json_of(t.reply) == proto::session_document(id)
                        }
                    } else {
                        r matches Err(e) && e@ == "unknown viewer_session "@ + id
                    },
                }
            }),
    {
        let req = SignalingRequest::parse(&params.request);
        let id = match &req.viewer_session {
            Some(id) => id.clone(),
            None => {
                return Err("signaling without viewer_session".to_owned());
            },
        };
        if self.registry.find(id.as_str()) == self.registry.session_count() {
            let mut e = "unknown viewer_session ".to_owned();
            e.append(id.as_str());
            return Err(e);
        }
        let reply = proto::session_reply(id.as_str());
        Ok(
            Trickle {
                session: id,
                candidates: req.candidates,
                completed: req.completed,
                reply,
            },
        )
    }
}

// ---- sessions that are over ----

/// A registry without the sessions of some ids.
pub open spec fn dropped_all<S>(r: RegistryView<S>, ids: Seq<Seq<char>>) -> RegistryView<S>
    decreases ids.len(),
{
    if ids.len() == 0 {
        r
    } else {
        dropped(dropped_all(r, ids.drop_last()), ids.last())
    }
}

/// `out` is what comes of dropping the sessions of some ids, one after the other.
pub open spec fn are_departures<S>(
    r: RegistryView<S>,
    ids: Seq<Seq<char>>,
    out: Seq<Departure>,
) -> bool
    decreases ids.len(),
{
    if ids.len() == 0 {
        out.len() == 0
    } else {
        let before = dropped_all(r, ids.drop_last());
        if before.has(ids.last()) {
            &&& out.len() > 0
            &&& are_departures(r, ids.drop_last(), out.drop_last())
            &&& is_departure(before, ids.last(), out.last())
        } else {
            are_departures(r, ids.drop_last(), out)
        }
    }
}

impl<S> Service<S> {
    /// Drops every session whose transport is over.
    pub fn reap(&mut self) -> (r: Vec<Departure>)
        ensures
            final(self).ports == old(self).ports,
            final(self).registry@ == dropped_all(
                old(self).registry@,
                registry::closed_among(old(self).registry@.sessions),
            ),
            are_departures(
                old(self).registry@,
                registry::closed_among(old(self).registry@.sessions),
                r@,
            ),
            old(self).registry@.wf() ==> final(self).registry@.wf(),
    {
        let ids = self.registry.closed_ids();
        let ghost all = registry::id_views(ids@);
        let mut out: Vec<Departure> = Vec::new();
        let mut i: usize = 0;
        assert(all.take(0) =~= Seq::<Seq<char>>::empty());
        while i < ids.len()
            invariant
                i <= ids@.len(),
                all == registry::id_views(ids@),
                self.ports == old(self).ports,
                self.registry@ == dropped_all(old(self).registry@, all.take(i as int)),
                are_departures(old(self).registry@, all.take(i as int), out@),
                old(self).registry@.wf() ==> self.registry@.wf(),
            decreases ids@.len() - i,
        {
            let ghost upto = all.take(i + 1);
            assert(upto.drop_last() =~= all.take(i as int));
            let ghost was = out@;
            if let Some(d) = self.drop_session(ids[i].as_str()) {
                out.push(d);
                assert(out@.drop_last() =~= was);
            }
            i += 1;
        }
        assert(all.take(i as int) =~= all);
        out
    }
}

/// What came of a tick.
pub enum Tick<S, P> {
    /// Nothing: work of an earlier tick is unfinished. Where it is time to complain, with
    /// the number of ticks that were skipped since the last complaint.
    Skipped(Option<u64>),
    /// The sessions that were over went, and then every room had its tick.
    Done { departures: Vec<Departure>, rooms: Vec<Option<RoomMix<S, P>>> },
}

impl<S> Service<S> {
    /// One tick of the whole service, while so many rooms of an earlier one are unfinished
    /// and the last complaint is so many milliseconds old. With anything unfinished the
    /// tick is skipped whole. Else the sessions that are over are dropped, and then every
    /// room that is left is mixed or drained, once.
    pub fn tick<P, L: Fn(&Vec<S>) -> u8, F: Fn(SpatialState, SpatialState) -> Option<P>>(
        &mut self,
        gate: &mut TickGate,
        unfinished: usize,
        since_warning_ms: u64,
        level_of: &L,
        place: &F,
    ) -> (r: Tick<S, P>)
        requires
            old(gate).skipped < u64::MAX,
            forall|f: &Vec<S>| call_requires(*level_of, (f,)),
            forall|s: SpatialState, l: SpatialState| call_requires(*place, (s, l)),
        ensures
            final(self).ports == old(self).ports,
            r is Skipped <==> unfinished != 0,
            r matches Tick::Skipped(warning) ==> {
                &&& final(self).registry@ == old(self).registry@
                &&& warning == if since_warning_ms >= WARN_INTERVAL_MS {
                    Some((old(gate).skipped + 1) as u64)
                } else {
                    None
                }
                &&& final(gate).skipped == if warning is Some {
                    0
                } else {
                    old(gate).skipped + 1
                }
            },
            r matches Tick::Done { departures, rooms } ==> {
                let over = registry::closed_among(old(self).registry@.sessions);
                let left = dropped_all(old(self).registry@, over);
                &&& final(gate).skipped == old(gate).skipped
                &&& are_departures(old(self).registry@, over, departures@)
                &&& rooms@.len() == left.rooms.len()
                &&& mix::is_sweep(*level_of, *place, left, rooms@, rooms@.len())
                &&& final(self).registry@ == mix::swept(left, rooms@, rooms@.len())
            },
            old(self).registry@.wf() ==> final(self).registry@.wf(),
    {
        match gate.step(unfinished, since_warning_ms) {
            TickStep::Skip => Tick::Skipped(None),
            TickStep::Warn(n) => Tick::Skipped(Some(n)),
            TickStep::Mix => {
                let departures = self.reap();
                let rooms = self.registry.sweep(level_of, place);
                Tick::Done { departures, rooms }
            },
        }
    }
}

proof fn lemma_closed_among<S>(sessions: Seq<room::SessionView<S>>, i: int)
    requires
        0 <= i < sessions.len(),
        sessions[i].closed,
    ensures
        registry::closed_among(sessions).contains(sessions[i].id),
    decreases sessions.len(),
{
    let ids = registry::closed_among(sessions);
    if i == sessions.len() - 1 {
        assert(ids[ids.len() - 1] == sessions[i].id);
    } else {
        lemma_closed_among(sessions.drop_last(), i);
        let rest = registry::closed_among(sessions.drop_last());
        let k = choose|k: int| 0 <= k < rest.len() && rest[k] == sessions[i].id;
        assert(ids[k] == rest[k]);
    }
}

/// Dropping sessions one after the other takes out those and no others.
pub proof fn lemma_dropped_all<S>(r: RegistryView<S>, ids: Seq<Seq<char>>)
    requires
        r.wf(),
    ensures
        dropped_all(r, ids).wf(),
        forall|id: Seq<char>| #[trigger]
            dropped_all(r, ids).has(id) <==> r.has(id) && !ids.contains(id),
        forall|id: Seq<char>| #[trigger]
            dropped_all(r, ids).has(id) ==> dropped_all(r, ids).session(id).closed == r.session(
                id,
            ).closed,
    decreases ids.len(),
{
    if ids.len() > 0 {
        let rest = ids.drop_last();
        lemma_dropped_all(r, rest);
        let b = dropped_all(r, rest);
        let n = dropped_all(r, ids);
        let last = ids.last();
        if b.has(last) {
            registry::law_remove_takes_out(b, last);
        }
        assert forall|id: Seq<char>| ids.contains(id) <==> rest.contains(id) || id == last by {
            if ids.contains(id) && id != last {
                let k = choose|k: int| 0 <= k < ids.len() && ids[k] == id;
                assert(rest[k] == id);
            }
            if rest.contains(id) {
                let k = choose|k: int| 0 <= k < rest.len() && rest[k] == id;
                assert(ids[k] == id);
            }
            assert(ids[ids.len() - 1] == last);
        }
        assert forall|id: Seq<char>| #[trigger] n.has(id) <==> r.has(id) && !ids.contains(id) by {
            assert(b.has(id) <==> r.has(id) && !rest.contains(id));
        }
        assert forall|id: Seq<char>| #[trigger] n.has(id) implies n.session(id).closed
            == r.session(id).closed by {
            assert(b.has(id) <==> r.has(id) && !rest.contains(id));
        }
    }
}

/// Once the sessions that are over were dropped, none of those left is over, and none
/// went that was not.
pub proof fn law_reaping_is_exact<S>(r: RegistryView<S>)
    requires
        r.wf(),
    ensures
        ({
            let left = dropped_all(r, registry::closed_among(r.sessions));
            &&& left.wf()
            &&& forall|i: int|
                0 <= i < left.sessions.len() ==> !(#[trigger] left.sessions[i]).closed
            &&& forall|i: int|
                0 <= i < r.sessions.len() && !(#[trigger] r.sessions[i]).closed ==> left.has(
                    r.sessions[i].id,
                )
        }),
{
    let ids = registry::closed_among(r.sessions);
    let left = dropped_all(r, ids);
    lemma_dropped_all(r, ids);
    assert forall|i: int| 0 <= i < left.sessions.len() implies !(
    #[trigger] left.sessions[i]).closed by {
        let id = left.sessions[i].id;
        registry::lemma_found_session(left, i);
        assert(left.has(id));
        registry::lemma_session_slot(r.sessions, id);
        if left.sessions[i].closed {
            lemma_closed_among(r.sessions, registry::session_slot(r.sessions, id));
        }
    }
    assert forall|i: int| 0 <= i < r.sessions.len() && !(
    #[trigger] r.sessions[i]).closed implies left.has(r.sessions[i].id) by {
        let id = r.sessions[i].id;
        registry::lemma_found_session(r, i);
        if ids.contains(id) {
            lemma_among_closed(r.sessions, id);
            let k = choose|k: int|
                0 <= k < r.sessions.len() && (#[trigger] r.sessions[k]).closed
                    && r.sessions[k].id == id;
            assert(k == i);
        }
        assert(left.has(id) <==> r.has(id) && !ids.contains(id));
    }
}

/// A tick that is not skipped first drops every session that is over, and no other; and
/// then it serves every room that is left, once.
pub proof fn law_a_tick_reaps_and_then_serves_every_room<
    S,
    P,
    L: Fn(&Vec<S>) -> u8,
    F: Fn(SpatialState, SpatialState) -> Option<P>,
>(
    level_of: L,
    place: F,
    before: RegistryView<S>,
    rooms: Seq<Option<RoomMix<S, P>>>,
)
    requires
        before.wf(),
        ({
            let left = dropped_all(before, registry::closed_among(before.sessions));
            mix::is_sweep(level_of, place, left, rooms, left.rooms.len())
        }),
    ensures
        ({
            let left = dropped_all(before, registry::closed_among(before.sessions));
            &&& forall|i: int|
                0 <= i < left.sessions.len() ==> !(#[trigger] left.sessions[i]).closed
            &&& forall|i: int|
                0 <= i < before.sessions.len() && !(#[trigger] before.sessions[i]).closed
                    ==> left.has(before.sessions[i].id)
            &&& forall|k: int|
                0 <= k < left.rooms.len() ==> #[trigger] mix::is_served(
                    level_of,
                    place,
                    left,
                    rooms,
                    k,
                )
        }),
{
    law_reaping_is_exact(before);
    let left = dropped_all(before, registry::closed_among(before.sessions));
    assert forall|k: int| 0 <= k < left.rooms.len() implies #[trigger] mix::is_served(
        level_of,
        place,
        left,
        rooms,
        k,
    ) by {
        mix::law_sweep_serves_every_room(level_of, place, left, rooms, k);
    }
}

proof fn lemma_among_closed<S>(sessions: Seq<room::SessionView<S>>, id: Seq<char>)
    requires
        registry::closed_among(sessions).contains(id),
    ensures
        exists|k: int|
            0 <= k < sessions.len() && (#[trigger] sessions[k]).closed && sessions[k].id == id,
    decreases sessions.len(),
{
    let ids = registry::closed_among(sessions);
    if sessions.len() > 0 {
        let rest = registry::closed_among(sessions.drop_last());
        let j = choose|j: int| 0 <= j < ids.len() && ids[j] == id;
        if j < rest.len() {
            assert(rest[j] == id);
            lemma_among_closed(sessions.drop_last(), id);
            let k = choose|k: int|
                0 <= k < sessions.drop_last().len() && (#[trigger] sessions.drop_last()[k]).closed
                    && sessions.drop_last()[k].id == id;
            assert(sessions[k].closed);
        } else {
            assert(sessions[sessions.len() - 1].closed);
        }
    }
}

// ---- calls and replies ----

/// The largest body of a call that is read. An SDP offer with its candidates is far
/// smaller.
pub const MAX_RPC_BODY: usize = 262144;

/// Whether a body that has so many bytes may take in so many more.
pub fn body_fits(have: usize, more: usize) -> (r: bool)
    ensures
        r == (have + more <= MAX_RPC_BODY),
{
    have <= MAX_RPC_BODY && more <= MAX_RPC_BODY - have
}

/// What an HTTP request is for.
#[derive(Clone, Copy, Debug, PartialEq, Eq, Structural)]
pub enum Route {
    /// How the service is.
    Health,
    /// A call of a region.
    Call,
    /// Nothing that is allowed.
    NotAllowed,
}

/// What an HTTP request of that method is for.
pub fn route(method: &str) -> (r: Route)
    ensures
        r is Health <==> method@ == "GET"@,
        r is Call <==> method@ == "POST"@,
{
    proof {
        reveal_strlit("GET");
        reveal_strlit("POST");
        assert("GET"@.len() == 3 && "POST"@.len() == 4);
    }
    if same_text(method, "GET") {
        Route::Health
    } else if same_text(method, "POST") {
        Route::Call
    } else {
        Route::NotAllowed
    }
}

/// The methods that a region calls.
#[derive(Clone, Copy, Debug, PartialEq, Eq, Structural)]
pub enum RpcMethod {
    Provision,
    Signaling,
}

/// The method of that name, or the words that refuse it.
pub fn method_named(name: &str) -> (r: Result<RpcMethod, String>)
    ensures
        name@ == "provision_voice_account_request"@ ==> r == Ok::<RpcMethod, String>(
            RpcMethod::Provision,
        ),
        name@ == "voice_signaling_request"@ ==> r == Ok::<RpcMethod, String>(RpcMethod::Signaling),
        name@ != "provision_voice_account_request"@ && name@ != "voice_signaling_request"@ ==> (
        r matches Err(e) && e@ == "unknown method "@ + text::debug_form(name@)),
{
    proof {
        reveal_strlit("provision_voice_account_request");
        reveal_strlit("voice_signaling_request");
        assert("provision_voice_account_request"@.len() == 31);
        assert("voice_signaling_request"@.len() == 23);
    }
    if same_text(name, proto::METHOD_PROVISION) {
        Ok(RpcMethod::Provision)
    } else if same_text(name, proto::METHOD_SIGNALING) {
        Ok(RpcMethod::Signaling)
    } else {
        let mut e = "unknown method ".to_owned();
        e.append(quoted(name).as_str());
        Err(e)
    }
}

/// The reply to a call: the result under `result`, or the words of the failure under
/// `error`.
pub open spec fn reply_document(id: JsonView, result: Result<JsonView, Seq<char>>) -> JsonView {
    match result {
        Ok(v) => proto::envelope(id, "result"@, v),
        Err(e) => proto::envelope(id, "error"@, JsonView::Text(e)),
    }
}

/// What a result holds.
pub open spec fn result_view(r: Result<Value, String>) -> Result<JsonView, Seq<char>> {
    match r {
        Ok(v) => Ok(json::json_of(v)),
        Err(e) => Err(e@),
    }
}

/// The body of the reply to a call.
pub fn rpc_reply(id: &Value, result: Result<Value, String>) -> (r: String)
    ensures
        r@ == json::json_text(reply_document(json::json_of(*id), result_view(result))),
{
    match result {
        Ok(v) => json::write_text(&proto::rpc_ok(id, v)),
        Err(e) => json::write_text(&proto::rpc_err(id, e.as_str())),
    }
}

/// The body of the reply to what is no call, for the reason given.
pub fn bad_call_reply(reason: &str) -> (r: String)
    ensures
        r@ == json::json_text(
            reply_document(JsonView::Null, Err("bad json-rpc: "@ + reason@)),
        ),
{
    let mut e = "bad json-rpc: ".to_owned();
    e.append(reason);
    json::write_text(&proto::rpc_err(&json::null_value(), e.as_str()))
}

/// The body of the reply to a call whose body is too large.
pub fn oversize_reply() -> (r: String)
    ensures
        r@ == json::json_text(reply_document(JsonView::Null, Err("request body too large"@))),
{
    json::write_text(&proto::rpc_err(&json::null_value(), "request body too large"))
}

/// What the service says of itself.
pub open spec fn health_document(sessions: nat, rooms: nat) -> JsonView {
    JsonView::Object(
        json::no_members().insert("service"@, JsonView::Text("wolfvoice"@)).insert(
            "sessions"@,
            JsonView::Number(JsonNumber::PosInt(sessions as u64)),
        ).insert("rooms"@, JsonView::Number(JsonNumber::PosInt(rooms as u64))),
    )
}

impl<S> Service<S> {
    /// What the service says of itself: how many sessions and rooms there are.
    pub fn health(&self) -> (r: String)
        ensures
            r@ == json::json_text(
                health_document(self.registry@.sessions.len(), self.registry@.rooms.len()),
            ),
    {
        let mut m = serde_json::Map::new();
        m.insert("service".to_owned(), json::text_value("wolfvoice".to_owned()));
        m.insert(
            "sessions".to_owned(),
            json::number_value(self.registry.session_count() as u64),
        );
        m.insert("rooms".to_owned(), json::number_value(self.registry.rooms.len() as u64));
        json::write_text(&json::object_value(m))
    }
}

// ---- starting up ----

/// Whether something other than white space stands in a text.
pub open spec fn says_something(s: Seq<char>) -> bool {
    exists|i: int| 0 <= i < s.len() && !sdp::is_white(#[trigger] s[i])
}

/// Whether a text names an address: something other than white space stands in it.
pub fn names_address(text: &str) -> (r: bool)
    ensures
        r == says_something(text@),
{
    let chars = chars_of(text);
    let mut i: usize = 0;
    while i < chars.len()
        invariant
            i <= chars@.len(),
            chars@ == text@,
            forall|k: int| 0 <= k < i ==> sdp::is_white(#[trigger] text@[k]),
        decreases chars@.len() - i,
    {
        if !sdp::white(chars[i]) {
            return true;
        }
        i += 1;
    }
    false
}

} // verus!
