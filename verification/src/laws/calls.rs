//! The calls on rooms, the registry, the service and the wire protocol, from what goes in to
//! what comes out.

use crate::json;
use crate::json::JsonView;
use crate::laws::proto as wire;
use crate::mix;
use crate::mix::{RoomMix, TickGate, TickStep};
use crate::proto;
use crate::proto::{
    ChannelType, ProvisionRequest, RosterEntry, RpcParams, SignalingRequest, ViewerDataMessage,
};
use crate::registry;
use crate::registry::Registry;
use crate::room::{RoomKey, Session, SessionView, SpatialState};
use crate::sdp;
use crate::service;
use crate::service::{Departure, Provisioned, Route, RpcMethod, Service, Tick, Trickle};
use crate::text;
use serde_json::Value;
use vstd::prelude::*;

verus! {

// ---- rooms ----

/// The tick of a room gives a mix of its members, and leaves of the sessions what a mix does.
pub proof fn law_mix_room<
    S,
    P,
    L: Fn(&Vec<S>) -> u8,
    F: Fn(SpatialState, SpatialState) -> Option<P>,
>(
    sessions: &mut Vec<Session<S>>,
    members: &Vec<usize>,
    level_of: &L,
    place: &F,
    r: RoomMix<S, P>,
    at: Seq<int>,
)
    requires
        call_ensures(mix::mix_room::<S, P, L, F>, (sessions, members, level_of, place), r),
        at.len() == members@.len(),
        forall|i: int| 0 <= i < at.len() ==> #[trigger] at[i] == members@[i],
    ensures
        mix::is_mix(*level_of, *place, registry::session_views(old(sessions)@), at, r),
        registry::session_views(final(sessions)@) == mix::after_mix(
            registry::session_views(old(sessions)@),
            at,
            r.levels@,
        ),
{
    assert(mix::slots(members@) =~= at);
}

/// A roster is built for one listener of what it was told and of the members' sessions; and
/// that listener was told of them.
pub proof fn law_build_roster<S>(
    sessions: &mut Vec<Session<S>>,
    members: &Vec<usize>,
    listener: usize,
    r: Option<String>,
    at: Seq<int>,
)
    requires
        call_ensures(mix::build_roster::<S>, (sessions, members, listener), r),
        listener < old(sessions)@.len(),
        at.len() == members@.len(),
        forall|i: int| 0 <= i < at.len() ==> #[trigger] at[i] == members@[i],
    ensures
        ({
            let before = registry::session_views(old(sessions)@);
            let after = registry::session_views(final(sessions)@);
            let all = mix::speakers(before, at);
            let l = old(sessions)@[listener as int]@;
            &&& (match r {
                Some(t) => mix::roster_of(l.announced, all) == Some(t@),
                None => mix::roster_of(l.announced, all) is None,
            })
            &&& after.len() == before.len()
            &&& after[listener as int] == mix::informed(l, all)
            &&& forall|i: int|
                0 <= i < before.len() && i != listener ==> #[trigger] after[i] == before[i]
        }),
{
    assert(mix::slots(members@) =~= at);
}

/// A room of two members or more is mixed, a smaller one is drained.
pub proof fn law_tick_room<
    S,
    P,
    L: Fn(&Vec<S>) -> u8,
    F: Fn(SpatialState, SpatialState) -> Option<P>,
>(
    r: &mut Registry<S>,
    key: &RoomKey,
    level_of: &L,
    place: &F,
    m: Option<RoomMix<S, P>>,
)
    requires
        call_ensures(Registry::<S>::tick_room::<P, L, F>, (r, key, level_of, place), m),
    ensures
        ({
            let members = old(r)@.members(key@);
            &&& m is Some <==> members.len() >= 2
            &&& m matches Some(x) ==> mix::is_mix(
                *level_of,
                *place,
                old(r)@.sessions,
                members,
                x,
            ) && final(r)@.sessions == mix::after_mix(old(r)@.sessions, members, x.levels@)
            &&& members.len() == 0 ==> final(r)@.sessions == old(r)@.sessions
            &&& members.len() == 1 ==> final(r)@.sessions == old(r)@.sessions.update(
                members[0],
                mix::drained(old(r)@.sessions[members[0]]),
            )
            &&& final(r)@.rooms == old(r)@.rooms
        }),
{
    reveal_with_fuel(mix::drain, 3);
}

/// A tick is let through only when nothing is unfinished. Else it is skipped and counted, and
/// complained of when the last complaint is ten seconds old, with the count, which starts
/// anew.
pub proof fn law_step(g: &mut TickGate, unfinished: usize, since_ms: u64, r: TickStep)
    requires
        call_ensures(TickGate::step, (g, unfinished, since_ms), r),
        old(g).skipped < u64::MAX,
    ensures
        unfinished == 0 ==> r is Mix && final(g).skipped == old(g).skipped,
        unfinished > 0 && since_ms < 10000 ==> r is Skip && final(g).skipped == old(g).skipped + 1,
        unfinished > 0 && since_ms >= 10000 ==> r == TickStep::Warn(
            (old(g).skipped + 1) as u64,
        ) && final(g).skipped == 0,
{
}

// ---- the registry ----

/// Adding a session puts it in, in place of an earlier one of its id.
pub proof fn law_insert<S>(r: &mut Registry<S>, s: Session<S>)
    requires
        call_ensures(Registry::<S>::insert, (r, s), ()),
    ensures
        final(r)@ == old(r)@.with(s@),
{
}

/// Taking out a session gives it, over; where there is none nothing is given and nothing
/// changes.
pub proof fn law_remove<S>(r: &mut Registry<S>, id: &str, s: Option<Session<S>>)
    requires
        call_ensures(Registry::<S>::remove, (r, id), s),
    ensures
        s is Some <==> old(r)@.has(id@),
        s matches Some(x) ==> x@.closed && x@ == (SessionView {
            closed: true,
            ..old(r)@.session(id@)
        }) && final(r)@ == old(r)@.without(id@),
        s is None ==> final(r)@ == old(r)@,
{
}

/// A session is found where its id first stands, and behind all where it stands nowhere.
pub proof fn law_find<S>(r: &Registry<S>, id: &str, at: usize)
    requires
        call_ensures(Registry::<S>::find, (r, id), at),
    ensures
        at <= r.sessions@.len(),
        at < r.sessions@.len() ==> r.sessions@[at as int].id@ == id@,
        forall|i: int| 0 <= i < at ==> (#[trigger] r.sessions@[i]).id@ != id@,
{
    registry::lemma_session_slot(r@.sessions, id@);
    if at < r.sessions@.len() {
        assert(r@.sessions[at as int].id == r.sessions@[at as int].id@);
    }
    assert forall|i: int| 0 <= i < at implies (#[trigger] r.sessions@[i]).id@ != id@ by {
        assert(r@.sessions[i].id == r.sessions@[i].id@);
    }
}

/// The members of a room are all sessions that belong to it, and no other.
pub proof fn law_members<S>(r: &Registry<S>, key: &RoomKey, m: Vec<&Session<S>>, i: int)
    requires
        call_ensures(Registry::<S>::members, (r, key), m),
        r@.wf(),
        0 <= i < r.sessions@.len(),
    ensures
        r.sessions@[i].room@ == key@ <==> exists|k: int|
            0 <= k < m@.len() && (#[trigger] m@[k])@.id == r.sessions@[i].id@,
        forall|k: int| 0 <= k < m@.len() ==> (#[trigger] m@[k])@.room == key@,
{
    registry::law_members_are_those_of_the_room(r@, key@);
    let at = r@.members(key@);
    let views = m@.map_values(|s: &Session<S>| s@);
    assert(views == at.map_values(|k: int| r@.sessions[k]));
    assert(views.len() == m@.len());
    assert(at.map_values(|k: int| r@.sessions[k]).len() == at.len());
    assert(r@.sessions[i] == r.sessions@[i]@);
    assert forall|k: int| 0 <= k < m@.len() implies (#[trigger] m@[k])@ == r@.sessions[at[k]]
        && at.contains(at[k]) by {
        assert(views[k] == m@[k]@);
        assert(at.map_values(|k: int| r@.sessions[k])[k] == r@.sessions[at[k]]);
    }
    if r.sessions@[i].room@ == key@ {
        assert(at.contains(i));
        let k = choose|k: int| 0 <= k < at.len() && at[k] == i;
        assert(m@[k]@.id == r.sessions@[i].id@);
    }
    if exists|k: int| 0 <= k < m@.len() && (#[trigger] m@[k])@.id == r.sessions@[i].id@ {
        let k = choose|k: int| 0 <= k < m@.len() && (#[trigger] m@[k])@.id == r.sessions@[i].id@;
        assert(r@.sessions[at[k]].id == r@.sessions[i].id);
        assert(at.contains(at[k]));
    }
}

/// As many sessions as there are.
pub proof fn law_session_count<S>(r: &Registry<S>, n: usize)
    requires
        call_ensures(Registry::<S>::session_count, (r,), n),
    ensures
        n == r.sessions@.len(),
{
}

/// The rooms are the keys of the registry's rooms, in order.
pub proof fn law_rooms<S>(r: &Registry<S>, keys: Vec<RoomKey>, i: int)
    requires
        call_ensures(Registry::<S>::rooms, (r,), keys),
        0 <= i < r.rooms@.len(),
    ensures
        keys@.len() == r.rooms@.len(),
        keys@[i]@ == r.rooms@[i].key@,
{
    let views = keys@.map_values(|k: RoomKey| k@);
    assert(views.len() == keys@.len());
    assert(views[i] == r@.rooms[i].0);
}

// ---- the service ----

/// A new service has nobody in it, and all its ports before it.
pub proof fn law_new_service<S>(s: Service<S>)
    requires
        call_ensures(Service::<S>::new, (), s),
    ensures
        s.registry.sessions@.len() == 0,
        s.registry@.rooms.len() == 0,
        s.ports.lo() == 40000 && s.ports.hi() == 40999 && s.ports.upcoming() == 40000,
{
    assert(s.registry@.sessions.len() == s.registry.sessions@.len());
    if s.registry@.rooms.len() > 0 {
        registry::law_no_room_without_a_session(s.registry@, 0);
    }
}

/// Dropping a session takes it out and says who is to learn of it.
pub proof fn law_drop_session<S>(s: &mut Service<S>, id: &str, d: Option<Departure>)
    requires
        call_ensures(Service::<S>::drop_session, (s, id), d),
    ensures
        d is Some <==> old(s).registry@.has(id@),
        d matches Some(x) ==> service::is_departure(old(s).registry@, id@, x)
            && final(s).registry@ == old(s).registry@.without(id@),
        d is None ==> final(s).registry@ == old(s).registry@,
        final(s).ports == old(s).ports,
{
}

/// A provision call does what its request asks for; a new session gets the given id.
pub proof fn law_provision_as<S>(
    s: &mut Service<S>,
    params: &RpcParams,
    id: String,
    r: Provisioned<S>,
)
    requires
        call_ensures(Service::<S>::provision_as, (s, params, id), r),
    ensures
        service::provisions(*old(s), *params, id@, *final(s), r),
{
}

/// A session is live once its answer is there, and the answer names it; without an answer,
/// or with an empty one, it is not, and the call fails.
pub proof fn law_established<S>(
    s: &mut Service<S>,
    new: Session<S>,
    sdp: Option<String>,
    r: Result<Value, String>,
)
    requires
        call_ensures(Service::<S>::established, (s, new, sdp), r),
    ensures
        sdp is Some && sdp->Some_0@.len() > 0 ==> {
            &&& r is Ok
            &&& json::json_of(r->Ok_0) == proto::answer_document(new.id@, sdp->Some_0@)
            &&& final(s).registry@ == old(s).registry@.with(new@)
        },
        sdp is None || sdp->Some_0@.len() == 0 ==> {
            &&& r is Err
            &&& r->Err_0@ == "no answer sdp"@
            &&& final(s).registry@ == old(s).registry@
        },
        final(s).ports == old(s).ports,
{
}

/// Candidates go to the session that the request names, if it is live, all of them; else the
/// call fails.
pub proof fn law_signaling<S>(
    s: &Service<S>,
    params: &RpcParams,
    r: Result<Trickle, String>,
    items: Seq<JsonView>,
)
    requires
        call_ensures(Service::<S>::signaling, (s, params), r),
        match wire::at(json::json_of(params.request), "candidates"@) {
            Some(JsonView::List(l)) => items == l,
            _ => items.len() == 0,
        },
    ensures
        ({
            let j = json::json_of(params.request);
            let named = wire::text_at(j, "viewer_session"@);
            &&& named is None ==> r is Err && r->Err_0@ == "signaling without viewer_session"@
            &&& named is Some && !s.registry@.has(named->Some_0) ==> r is Err && r->Err_0@
                == "unknown viewer_session "@ + named->Some_0
            &&& named is Some && s.registry@.has(named->Some_0) ==> {
                &&& r is Ok
                &&& r->Ok_0.session@ == named->Some_0
                &&& r->Ok_0.candidates@.len() == wire::candidates_before(
                    items,
                    items.len() as int,
                )
                &&& forall|i: int|
                    0 <= i < items.len() && wire::names_candidate(#[trigger] items[i])
                        ==> wire::is_candidate_of(
                        r->Ok_0.candidates@[wire::candidates_before(items, i) as int]@,
                        items[i],
                    )
                &&& r->Ok_0.completed <==> (match wire::at(j, "candidate"@) {
                    Some(c) => wire::true_at(c, "completed"@),
                    None => false,
                })
                &&& wire::at(json::json_of(r->Ok_0.reply), "viewer_session"@) == Some(
                    JsonView::Text(named->Some_0),
                )
            }
        }),
{
    let j = json::json_of(params.request);
    wire::law_what_a_signalling_request_says(j);
    wire::law_every_candidate_is_taken(items);
    let request = proto::signaling_in(j);
    assert(request.candidates =~= proto::candidates_in(items));
    if let Ok(t) = r {
        let views = proto::candidate_views(t.candidates@);
        assert(views.len() == t.candidates@.len());
        assert forall|i: int|
            0 <= i < items.len() && wire::names_candidate(#[trigger] items[i]) implies
            wire::is_candidate_of(
            t.candidates@[wire::candidates_before(items, i) as int]@,
            items[i],
        ) by {
            assert(views[wire::candidates_before(items, i) as int]
                == t.candidates@[wire::candidates_before(items, i) as int]@);
        }
    }
}

/// A tick is skipped whole while anything is unfinished; else the sessions that are over are
/// dropped and every room that is left has its tick.
pub proof fn law_tick<
    S,
    P,
    L: Fn(&Vec<S>) -> u8,
    F: Fn(SpatialState, SpatialState) -> Option<P>,
>(
    s: &mut Service<S>,
    gate: &mut TickGate,
    unfinished: usize,
    since_ms: u64,
    level_of: &L,
    place: &F,
    r: Tick<S, P>,
)
    requires
        call_ensures(
            Service::<S>::tick::<P, L, F>,
            (s, gate, unfinished, since_ms, level_of, place),
            r,
        ),
    ensures
        final(s).ports == old(s).ports,
        unfinished > 0 ==> r is Skipped && final(s).registry@ == old(s).registry@,
        unfinished > 0 && since_ms < 10000 ==> r == Tick::<S, P>::Skipped(None)
            && final(gate).skipped == old(gate).skipped + 1,
        unfinished > 0 && since_ms >= 10000 ==> r == Tick::<S, P>::Skipped(
            Some((old(gate).skipped + 1) as u64),
        ) && final(gate).skipped == 0,
        unfinished == 0 ==> (match r {
            Tick::Done { departures, rooms } => {
                let over = registry::closed_among(old(s).registry@.sessions);
                let left = service::dropped_all(old(s).registry@, over);
                &&& service::are_departures(old(s).registry@, over, departures@)
                &&& rooms@.len() == left.rooms.len()
                &&& mix::is_sweep(*level_of, *place, left, rooms@, left.rooms.len())
                &&& final(s).registry@ == mix::swept(left, rooms@, left.rooms.len())
            },
            Tick::Skipped(_) => false,
        }),
{
}

/// A body may have 262144 bytes, and not one more.
pub proof fn law_body_fits(have: usize, more: usize, r: bool)
    requires
        call_ensures(service::body_fits, (have, more), r),
    ensures
        r <==> have + more <= 262144,
{
}

/// `GET` asks how the service is, `POST` is a call, and anything else is not allowed.
pub proof fn law_route(method: &str, r: Route)
    requires
        call_ensures(service::route, (method,), r),
    ensures
        r is Health <==> method@ == "GET"@,
        r is Call <==> method@ == "POST"@,
        r is NotAllowed <==> method@ != "GET"@ && method@ != "POST"@,
{
}

/// The two methods that a region calls go by their names, and any other is refused by its
/// own.
pub proof fn law_method_named(name: &str, r: Result<RpcMethod, String>)
    requires
        call_ensures(service::method_named, (name,), r),
    ensures
        name@ == "provision_voice_account_request"@ ==> r is Ok && r->Ok_0 is Provision,
        name@ == "voice_signaling_request"@ ==> r is Ok && r->Ok_0 is Signaling,
        name@ != "provision_voice_account_request"@ && name@ != "voice_signaling_request"@ ==> r
            is Err && r->Err_0@ == "unknown method "@ + text::debug_form(name@),
{
}

/// A reply is the text of an object with the call's id and its result or the words of its
/// failure.
pub proof fn law_rpc_reply(id: &Value, result: Result<Value, String>, r: String)
    requires
        call_ensures(service::rpc_reply, (id, result), r),
    ensures
        result matches Ok(v) ==> r@ == json::json_text(
            proto::envelope(json::json_of(*id), "result"@, json::json_of(v)),
        ),
        result matches Err(e) ==> r@ == json::json_text(
            proto::envelope(json::json_of(*id), "error"@, JsonView::Text(e@)),
        ),
{
}

/// What is no call is answered without an id and with the reason.
pub proof fn law_bad_call_reply(reason: &str, r: String)
    requires
        call_ensures(service::bad_call_reply, (reason,), r),
    ensures
        r@ == json::json_text(
            proto::envelope(
                JsonView::Null,
                "error"@,
                JsonView::Text("bad json-rpc: "@ + reason@),
            ),
        ),
{
}

/// A body that is too large is answered so.
pub proof fn law_oversize_reply(r: String)
    requires
        call_ensures(service::oversize_reply, (), r),
    ensures
        r@ == json::json_text(
            proto::envelope(JsonView::Null, "error"@, JsonView::Text("request body too large"@)),
        ),
{
}

/// The service says how many sessions and rooms it has.
pub proof fn law_health<S>(s: &Service<S>, r: String)
    requires
        call_ensures(Service::<S>::health, (s,), r),
    ensures
        r@ == json::json_text(
            service::health_document(s.registry.sessions@.len(), s.registry.rooms@.len()),
        ),
{
    assert(s.registry@.sessions.len() == s.registry.sessions@.len());
    assert(s.registry@.rooms.len() == s.registry.rooms@.len());
}

/// A text names an address unless it is white space alone.
pub proof fn law_names_address(t: &str, r: bool)
    requires
        call_ensures(service::names_address, (t,), r),
    ensures
        !r <==> forall|i: int| 0 <= i < t@.len() ==> sdp::is_white(#[trigger] t@[i]),
{
}

/// A provision call does what its request asks for; a new session gets an id of its form.
pub proof fn law_provision<S>(s: &mut Service<S>, params: &RpcParams, r: Provisioned<S>)
    requires
        call_ensures(Service::<S>::provision, (s, params), r),
    ensures
        exists|id: Seq<char>|
            id.len() == 39 && #[trigger] service::provisions(
                *old(s),
                *params,
                id,
                *final(s),
                r,
            ),
{
}

/// Reaping drops the sessions that are over, one after the other, and reports each.
pub proof fn law_reap<S>(s: &mut Service<S>, r: Vec<Departure>)
    requires
        call_ensures(Service::<S>::reap, (s,), r),
    ensures
        final(s).registry@ == service::dropped_all(
            old(s).registry@,
            registry::closed_among(old(s).registry@.sessions),
        ),
        service::are_departures(
            old(s).registry@,
            registry::closed_among(old(s).registry@.sessions),
            r@,
        ),
        final(s).ports == old(s).ports,
{
}

/// Every room of a registry has its tick.
pub proof fn law_sweep<
    S,
    P,
    L: Fn(&Vec<S>) -> u8,
    F: Fn(SpatialState, SpatialState) -> Option<P>,
>(
    r: &mut Registry<S>,
    level_of: &L,
    place: &F,
    m: Vec<Option<RoomMix<S, P>>>,
)
    requires
        call_ensures(Registry::<S>::sweep::<P, L, F>, (r, level_of, place), m),
    ensures
        m@.len() == old(r)@.rooms.len(),
        mix::is_sweep(*level_of, *place, old(r)@, m@, old(r)@.rooms.len()),
        final(r)@ == mix::swept(old(r)@, m@, old(r)@.rooms.len()),
{
}

/// The ids of the sessions that are over.
pub proof fn law_closed_ids<S>(r: &Registry<S>, ids: Vec<String>)
    requires
        call_ensures(Registry::<S>::closed_ids, (r,), ids),
    ensures
        ids@.len() == registry::closed_among(r@.sessions).len(),
        forall|i: int|
            0 <= i < ids@.len() ==> (#[trigger] ids@[i])@ == registry::closed_among(
                r@.sessions,
            )[i],
{
    let views = registry::id_views(ids@);
    assert(views.len() == ids@.len());
    assert forall|i: int| 0 <= i < ids@.len() implies (#[trigger] ids@[i])@
        == registry::closed_among(r@.sessions)[i] by {
        assert(views[i] == ids@[i]@);
    }
}

/// Where the members of a room stand.
pub proof fn law_member_slots<S>(r: &Registry<S>, key: &RoomKey, m: Vec<usize>)
    requires
        call_ensures(Registry::<S>::member_slots, (r, key), m),
    ensures
        m@.len() == r@.members(key@).len(),
        forall|i: int| 0 <= i < m@.len() ==> (#[trigger] m@[i]) as int == r@.members(key@)[i],
{
    let views = m@.map_values(|k: usize| k as int);
    assert(views.len() == m@.len());
    assert forall|i: int| 0 <= i < m@.len() implies (#[trigger] m@[i]) as int == r@.members(
        key@,
    )[i] by {
        assert(views[i] == m@[i] as int);
    }
}

/// A list of texts is what each of them says.
pub proof fn law_lists_of_texts(ids: Seq<String>, i: int)
    requires
        0 <= i < ids.len(),
    ensures
        registry::id_views(ids).len() == ids.len(),
        registry::id_views(ids)[i] == ids[i]@,
{
}

// ---- the wire protocol ----

/// A provision request is read as its document says, or refused for the reasons there are.
pub proof fn law_parse_provision(v: &Value, r: Result<ProvisionRequest, String>)
    requires
        call_ensures(ProvisionRequest::parse, (v,), r),
    ensures
        ({
            let j = json::json_of(*v);
            &&& r is Err <==> wire::wants_another_system(j) || wire::carries_no_offer(j)
            &&& r matches Ok(p) ==> {
                &&& p.logout == wire::true_at(j, "logout"@)
                &&& proto::text_view(p.viewer_session) == wire::text_at(j, "viewer_session"@)
                &&& proto::text_view(p.offer_sdp) == (match wire::at(j, "jsep"@) {
                    Some(jsep) => wire::filled(wire::text_at(jsep, "sdp"@)),
                    None => None,
                })
                &&& p.channel_type == Some(ChannelType::Local) <==> wire::text_at(
                    j,
                    "channel_type"@,
                ) == Some("local"@)
                &&& p.channel_type == Some(ChannelType::MultiAgent) <==> wire::text_at(
                    j,
                    "channel_type"@,
                ) == Some("multiagent"@)
                &&& p.parcel_local_id == (match wire::integer_at(j, "parcel_local_id"@) {
                    Some(n) => n as i32,
                    None => 0,
                })
                &&& proto::text_view(p.channel) == wire::filled(wire::text_at(j, "channel"@))
            }
        }),
{
    wire::law_what_a_provision_request_says(json::json_of(*v));
}

/// A text that may be missing is what it says.
pub proof fn law_texts_are_as_they_stand(s: Option<String>)
    ensures
        s matches Some(t) ==> proto::text_view(s) == Some(t@),
        s is None ==> proto::text_view(s) is None,
{
}

/// A signalling request is read as its document says, with every candidate of its batch.
pub proof fn law_parse_signaling(v: &Value, r: SignalingRequest, items: Seq<JsonView>)
    requires
        call_ensures(SignalingRequest::parse, (v,), r),
        match wire::at(json::json_of(*v), "candidates"@) {
            Some(JsonView::List(l)) => items == l,
            _ => items.len() == 0,
        },
    ensures
        proto::text_view(r.viewer_session) == wire::text_at(json::json_of(*v), "viewer_session"@),
        r.candidates@.len() == wire::candidates_before(items, items.len() as int),
        forall|i: int|
            0 <= i < items.len() && wire::names_candidate(#[trigger] items[i])
                ==> wire::is_candidate_of(
                r.candidates@[wire::candidates_before(items, i) as int]@,
                items[i],
            ),
        r.completed <==> (match wire::at(json::json_of(*v), "candidate"@) {
            Some(c) => wire::true_at(c, "completed"@),
            None => false,
        }),
{
    let j = json::json_of(*v);
    wire::law_what_a_signalling_request_says(j);
    wire::law_every_candidate_is_taken(items);
    assert(r@.candidates =~= proto::candidates_in(items));
    let views = proto::candidate_views(r.candidates@);
    assert(views.len() == r.candidates@.len());
    assert forall|i: int|
        0 <= i < items.len() && wire::names_candidate(#[trigger] items[i]) implies
        wire::is_candidate_of(
        r.candidates@[wire::candidates_before(items, i) as int]@,
        items[i],
    ) by {
        assert(views[wire::candidates_before(items, i) as int]
            == r.candidates@[wire::candidates_before(items, i) as int]@);
    }
}

/// A message is what its text reads as, or the words of the JSON error.
pub proof fn law_parse_message<F: Fn(u64) -> u64>(
    t: &str,
    metres: &F,
    r: Result<ViewerDataMessage, String>,
)
    requires
        call_ensures(ViewerDataMessage::parse::<F>, (t, metres), r),
    ensures
        json::json_from_str(t@) matches Ok(j) ==> r is Ok && r->Ok_0.reads(j, *metres),
        json::json_from_str(t@) matches Err(e) ==> r is Err && r->Err_0@ == e,
{
}

/// A message is what its document says.
pub proof fn law_message_from_value<F: Fn(u64) -> u64>(v: &Value, metres: &F, r: ViewerDataMessage)
    requires
        call_ensures(ViewerDataMessage::from_value::<F>, (v, metres), r),
    ensures
        r.reads(json::json_of(*v), *metres),
{
}

/// A channel type goes by its name.
pub proof fn law_parse_channel_type(s: &str, r: Option<ChannelType>)
    requires
        call_ensures(ChannelType::parse, (s,), r),
    ensures
        r == Some(ChannelType::Local) <==> s@ == "local"@,
        r == Some(ChannelType::MultiAgent) <==> s@ == "multiagent"@,
{
    reveal_strlit("local");
    reveal_strlit("multiagent");
    assert("local"@.len() == 5 && "multiagent"@.len() == 10);
}

/// A level is that of someone speaking from 39 units on.
pub proof fn law_speaking(level: u8, r: bool)
    requires
        call_ensures(proto::speaking, (level,), r),
    ensures
        r <==> level >= 39,
{
}

/// Replies, answers and notices are the documents that they are to be.
pub proof fn law_documents(
    id: &Value,
    v: Value,
    message: &str,
    session: &str,
    sdp: &str,
    ok: Value,
    err: Value,
    answer: Value,
    reply: Value,
    notice: String,
)
    requires
        call_ensures(proto::rpc_ok, (id, v), ok),
        call_ensures(proto::rpc_err, (id, message), err),
        call_ensures(proto::provision_answer, (session, sdp), answer),
        call_ensures(proto::session_reply, (session,), reply),
        call_ensures(proto::leave_json, (session,), notice),
    ensures
        json::json_of(ok) == proto::envelope(json::json_of(*id), "result"@, json::json_of(v)),
        json::json_of(err) == proto::envelope(
            json::json_of(*id),
            "error"@,
            JsonView::Text(message@),
        ),
        json::json_of(answer) == proto::answer_document(session@, sdp@),
        json::json_of(reply) == proto::session_document(session@),
        notice@ == json::json_text(proto::leave_document(session@)),
{
}

/// A roster is the text of an object with, for each agent, the last of its entries that has
/// anything but defaults.
pub proof fn law_roster_json(entries: &Vec<(String, RosterEntry)>, r: String, i: int)
    requires
        call_ensures(proto::roster_json, (entries,), r),
        wire::is_last_entry(proto::pairs_view(entries@), i),
    ensures
        r@ == json::json_text(proto::roster_document(proto::pairs_view(entries@))),
        wire::at(proto::roster_document(proto::pairs_view(entries@)), entries@[i].0@) == Some(
            proto::entry_document(entries@[i].1),
        ),
{
    wire::law_a_roster_has_the_last_entries(proto::pairs_view(entries@), i);
}

/// A message that says nothing names nothing.
pub proof fn law_a_blank_message_names_nothing(m: ViewerDataMessage)
    requires
        m.is_blank(),
    ensures
        m.join is None && m.avatar_pos is None && m.avatar_rot is None,
        m.listener_pos is None && m.listener_rot is None,
        m.user_gain@.len() == 0 && m.user_mute@.len() == 0,
{
}

/// A notice and a roster are the same documents before they are text.
pub proof fn law_values_before_text(
    agent: &str,
    entries: &Vec<(String, RosterEntry)>,
    notice: Value,
    notice_text: String,
    roster: Value,
    roster_text: String,
)
    requires
        call_ensures(proto::leave_value, (agent,), notice),
        call_ensures(proto::leave_json, (agent,), notice_text),
        call_ensures(proto::roster_value, (entries,), roster),
        call_ensures(proto::roster_json, (entries,), roster_text),
    ensures
        notice_text@ == json::json_text(json::json_of(notice)),
        roster_text@ == json::json_text(json::json_of(roster)),
        json::json_of(notice) == proto::leave_document(agent@),
        json::json_of(roster) == proto::roster_document(proto::pairs_view(entries@)),
{
}

/// An id of a new session starts with `wv-`, and 36 characters follow.
pub proof fn law_new_session_id(r: String)
    requires
        call_ensures(service::new_session_id, (), r),
    ensures
        r@.len() == 39,
        r@[0] == 'w' && r@[1] == 'v' && r@[2] == '-',
{
    reveal_strlit("wv-");
    assert(r@.take(3)[0] == r@[0] && r@.take(3)[1] == r@[1] && r@.take(3)[2] == r@[2]);
}

/// No tick was skipped at the start.
pub proof fn law_new_gate(g: TickGate)
    requires
        call_ensures(TickGate::new, (), g),
    ensures
        g.skipped == 0,
{
}

/// A new registry has nobody in it.
pub proof fn law_new_registry<S>(r: Registry<S>)
    requires
        call_ensures(Registry::<S>::new, (), r),
    ensures
        r.sessions@.len() == 0,
        r.rooms@.len() == 0,
{
    assert(r@.sessions.len() == r.sessions@.len());
    assert(r@.rooms.len() == r.rooms@.len());
}

} // verus!
