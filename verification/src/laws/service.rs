//! Calls: what each does to the sessions, and what is answered.

use crate::json;
use crate::json::{JsonNumber, JsonView};
use crate::laws::proto as wire;
use crate::proto;
use crate::proto::RpcParams;
use crate::registry;
use crate::registry::RegistryView;
use crate::room;
use crate::room::RoomView;
use crate::service;
use crate::service::{Departure, Next, Provisioned, Service};
use vstd::prelude::*;

verus! {

// ---- departures ----

/// When a session goes, the rest of its room is told exactly if no other session of its
/// agent is in that room; the notice is of that agent, and every session that is left in the
/// room gets it once.
#[verifier::spinoff_prover]
pub proof fn law_who_learns_of_a_departure<S>(before: RegistryView<S>, at: int, d: Departure)
    requires
        before.wf(),
        0 <= at < before.sessions.len(),
        service::is_departure(before, before.sessions[at].id, d),
    ensures
        ({
            let gone = before.sessions[at];
            &&& d.session@ == gone.id
            &&& d.notice is Some <==> forall|j: int|
                0 <= j < before.sessions.len() && j != at && (#[trigger] before.sessions[j]).room
                    == gone.room ==> before.sessions[j].agent_id != gone.agent_id
            &&& d.notice matches Some(n) ==> {
                &&& n.text@ == json::json_text(proto::leave_document(gone.agent_id))
                &&& registry::id_views(n.recipients@).no_duplicates()
                &&& forall|j: int|
                    0 <= j < before.sessions.len() && j != at ==> (registry::id_views(
                        n.recipients@,
                    ).contains((#[trigger] before.sessions[j]).id) <==> before.sessions[j].room
                        == gone.room)
                &&& !registry::id_views(n.recipients@).contains(gone.id)
            }
        }),
{
    let gone = before.sessions[at];
    let id = gone.id;
    registry::lemma_found_session(before, at);
    assert(before.session(id) == gone);
    registry::law_remove_takes_out(before, id);
    let after = before.without(id);
    let m = after.members(gone.room);
    registry::law_members_are_those_of_the_room(after, gone.room);
    assert forall|i: int| 0 <= i < after.sessions.len() implies #[trigger] after.sessions[i]
        == registry::forgetting(
        before.sessions[if i < at {
            i
        } else {
            i + 1
        }],
        gone.agent_id,
    ) by {}
    if service::is_present(after, gone.room, gone.agent_id) {
        let k = choose|k: int|
            0 <= k < m.len() && after.sessions[#[trigger] m[k]].agent_id == gone.agent_id;
        assert(m.contains(m[k]));
        let i = m[k];
        let j = if i < at {
            i
        } else {
            i + 1
        };
        assert(after.sessions[i].room == gone.room);
        assert(before.sessions[j].room == gone.room && before.sessions[j].agent_id
            == gone.agent_id);
    }
    if exists|j: int|
        0 <= j < before.sessions.len() && j != at && (#[trigger] before.sessions[j]).room
            == gone.room && before.sessions[j].agent_id == gone.agent_id {
        let j = choose|j: int|
            0 <= j < before.sessions.len() && j != at && (#[trigger] before.sessions[j]).room
                == gone.room && before.sessions[j].agent_id == gone.agent_id;
        let i = if j < at {
            j
        } else {
            j - 1
        };
        assert(after.sessions[i].room == gone.room);
        assert(m.contains(i));
        let k = choose|k: int| 0 <= k < m.len() && m[k] == i;
        assert(after.sessions[m[k]].agent_id == gone.agent_id);
    }
    let ids = service::member_ids(after, gone.room);
    assert forall|a: int, b: int| 0 <= a < ids.len() && 0 <= b < ids.len() && a != b implies ids[a]
        != ids[b] by {
        assert(m[a] != m[b]);
        assert(m.contains(m[a]) && m.contains(m[b]));
        assert(after.sessions[m[a]].id != after.sessions[m[b]].id);
    }
    assert forall|j: int| 0 <= j < before.sessions.len() && j != at implies (ids.contains(
        (#[trigger] before.sessions[j]).id,
    ) <==> before.sessions[j].room == gone.room) by {
        let i = if j < at {
            j
        } else {
            j - 1
        };
        assert(after.sessions[i].id == before.sessions[j].id);
        if before.sessions[j].room == gone.room {
            assert(after.sessions[i].room == gone.room);
            assert(m.contains(i));
            let k = choose|k: int| 0 <= k < m.len() && m[k] == i;
            assert(ids[k] == before.sessions[j].id);
        }
        if ids.contains(before.sessions[j].id) {
            let k = choose|k: int| 0 <= k < ids.len() && ids[k] == before.sessions[j].id;
            assert(m.contains(m[k]));
            assert(after.sessions[m[k]].id == after.sessions[i].id);
            assert(m[k] == i);
        }
    }
    if ids.contains(gone.id) {
        let k = choose|k: int| 0 <= k < ids.len() && ids[k] == gone.id;
        assert(m.contains(m[k]));
        let i = m[k];
        let j = if i < at {
            i
        } else {
            i + 1
        };
        assert(after.sessions[i].id == before.sessions[j].id);
    }
}

/// The rest of a room is told in the order of its members.
pub proof fn law_the_rest_is_told_in_order<S>(
    before: RegistryView<S>,
    id: Seq<char>,
    d: Departure,
    k: int,
)
    requires
        service::is_departure(before, id, d),
        d.notice is Some,
        0 <= k < before.without(id).members(before.session(id).room).len(),
    ensures
        ({
            let after = before.without(id);
            let members = after.members(before.session(id).room);
            let recipients = d.notice->Some_0.recipients@;
            &&& recipients.len() == members.len()
            &&& recipients[k]@ == after.sessions[members[k]].id
        }),
{
    let recipients = d.notice->Some_0.recipients@;
    let views = registry::id_views(recipients);
    assert(views.len() == recipients.len());
    assert(views[k] == recipients[k]@);
}

/// Dropping a session takes that one out, if it is there, and no other.
pub proof fn law_what_dropping_leaves<S>(r: RegistryView<S>, id: Seq<char>, other: Seq<char>)
    requires
        r.wf(),
    ensures
        service::dropped(r, id).has(other) <==> r.has(other) && other != id,
        !r.has(id) ==> service::dropped(r, id) == r,
        r.has(id) ==> service::dropped(r, id) == r.without(id),
{
    if r.has(id) {
        registry::law_remove_takes_out(r, id);
    }
}

// ---- provisioning ----

/// The session that a request names is gone afterwards, with what comes of that, and every
/// other is there as before.
pub open spec fn only_drops<S>(
    before: RegistryView<S>,
    after: RegistryView<S>,
    gone: Option<Seq<char>>,
    d: Option<Departure>,
) -> bool {
    &&& forall|o: Seq<char>| #[trigger] after.has(o) <==> before.has(o) && gone != Some(o)
    &&& gone is Some && before.has(gone->Some_0) ==> {
        &&& after == before.without(gone->Some_0)
        &&& d is Some
        &&& service::is_departure(before, gone->Some_0, d->Some_0)
    }
    &&& !(gone is Some && before.has(gone->Some_0)) ==> after == before && d is None
}

/// A call that is refused for what it is changes nothing at all.
pub open spec fn changes_nothing<S>(
    before: Service<S>,
    after: Service<S>,
    r: Provisioned<S>,
) -> bool {
    &&& after.registry@ == before.registry@
    &&& after.ports == before.ports
    &&& r.departure is None
}

/// The words that refuse a call.
pub open spec fn refused_with<S>(r: Provisioned<S>, words: Seq<char>) -> bool {
    match r.outcome {
        Err(e) => e@ == words,
        Ok(_) => false,
    }
}

/// What the room of a new session is: of the region's scene and the parcel that the request
/// names, 0 where it names none; or of the channel, for group voice.
pub open spec fn is_room_for(j: JsonView, scene: Seq<char>, room: RoomView) -> bool {
    if wire::text_at(j, "channel_type"@) == Some("multiagent"@) {
        match room {
            RoomView::MultiAgent { channel } => wire::filled(wire::text_at(j, "channel"@)) == Some(
                channel,
            ),
            _ => false,
        }
    } else {
        match room {
            RoomView::Spatial { region, parcel } => {
                &&& region == scene
                &&& parcel == match wire::integer_at(j, "parcel_local_id"@) {
                    Some(n) => n as i32,
                    None => 0,
                }
            },
            _ => false,
        }
    }
}

/// The offer of a request.
pub open spec fn offer_of(j: JsonView) -> Option<Seq<char>> {
    match wire::at(j, "jsep"@) {
        Some(jsep) => wire::filled(wire::text_at(jsep, "sdp"@)),
        None => None,
    }
}

/// What a provision call comes to, in terms of its request. For another voice system, a
/// description that is no offer, a teardown without a session, or no offer at all, it is
/// refused and changes nothing. A teardown takes out the session that it names and is
/// answered with its name. A request with an offer takes out the session that it names; then
/// it is refused at 900 sessions, without a user, or for group voice without a channel; and
/// else it starts a session of the region's user in the room of the request, under the given
/// id, with the offer and the next port.
#[verifier::spinoff_prover]
pub proof fn law_what_a_provision_call_does<S>(
    before: Service<S>,
    params: RpcParams,
    id: Seq<char>,
    after: Service<S>,
    r: Provisioned<S>,
)
    requires
        before.registry@.wf(),
        service::provisions(before, params, id, after, r),
    ensures
        ({
            let j = json::json_of(params.request);
            let named = wire::text_at(j, "viewer_session"@);
            let group = wire::text_at(j, "channel_type"@) == Some("multiagent"@);
            let live = after.registry@.sessions.len();
            if wire::wants_another_system(j) || wire::carries_no_offer(j) {
                &&& r.outcome is Err
                &&& changes_nothing(before, after, r)
            } else if wire::true_at(j, "logout"@) {
                &&& after.ports == before.ports
                &&& named is None ==> refused_with(r, "logout without viewer_session"@)
                    && changes_nothing(before, after, r)
                &&& named is Some ==> {
                    &&& only_drops(before.registry@, after.registry@, named, r.departure)
                    &&& match r.outcome {
                        Ok(Next::Reply(v)) => wire::at(json::json_of(v), "viewer_session"@) == Some(
                            JsonView::Text(named->Some_0),
                        ),
                        _ => false,
                    }
                }
            } else if offer_of(j) is None {
                &&& refused_with(r, "provision without a jsep offer"@)
                &&& changes_nothing(before, after, r)
            } else {
                &&& only_drops(before.registry@, after.registry@, named, r.departure)
                &&& live >= 900 ==> refused_with(r, "voice service is at capacity"@)
                &&& live < 900 && params.user_id@.len() == 0 ==> refused_with(
                    r,
                    "region did not supply userID"@,
                )
                &&& live < 900 && params.user_id@.len() > 0 && group && wire::filled(
                    wire::text_at(j, "channel"@),
                ) is None ==> refused_with(r, "multiagent request without a channel"@)
                &&& live < 900 && params.user_id@.len() > 0 && !(group && wire::filled(
                    wire::text_at(j, "channel"@),
                ) is None) ==> (match r.outcome {
                    Ok(Next::Establish(start)) => {
                        &&& start.session@.id == id
                        &&& start.session@.agent_id == params.user_id@
                        &&& start.session@.spatial == !group
                        &&& is_room_for(j, params.scene@, start.session@.room)
                        &&& Some(start.offer@) == offer_of(j)
                        &&& start.port == before.ports.upcoming()
                        &&& !start.session@.state.known && start.session@.inbound.len() == 0
                        &&& !start.session@.joined && !start.session@.closed
                        &&& start.session@ == room::fresh_session::<S>(
                            id,
                            params.user_id@,
                            start.session@.room,
                            !group,
                        )
                        &&& after.ports.lo() == before.ports.lo()
                        &&& after.ports.hi() == before.ports.hi()
                        &&& start.port < before.ports.hi() ==> after.ports.upcoming() == start.port
                            + 1
                        &&& start.port == before.ports.hi() ==> after.ports.upcoming()
                            == before.ports.lo()
                    },
                    _ => false,
                })
                &&& r.outcome is Err ==> after.ports == before.ports
            }
        }),
{
    let j = json::json_of(params.request);
    wire::law_what_a_provision_request_says(j);
    let request = proto::provision_in(j);
    reveal_strlit("local");
    reveal_strlit("multiagent");
    assert("local"@.len() == 5 && "multiagent"@.len() == 10);
    if let Ok(p) = request {
        if let Some(v) = p.viewer_session {
            assert forall|o: Seq<char>| #[trigger]
                service::dropped(before.registry@, v).has(o) <==> before.registry@.has(o) && v
                    != o by {
                law_what_dropping_leaves(before.registry@, v, o);
            }
            wire::law_what_a_session_reply_says(v, "viewer_session"@);
        }
    }
}

// ---- what is answered ----

/// The service says of itself its name, how many sessions there are and how many rooms, and
/// no more.
pub proof fn law_what_the_service_says_of_itself(sessions: nat, rooms: nat, key: Seq<char>)
    requires
        sessions <= u64::MAX,
        rooms <= u64::MAX,
    ensures
        wire::at(service::health_document(sessions, rooms), key) == if key == "service"@ {
            Some(JsonView::Text("wolfvoice"@))
        } else if key == "sessions"@ {
            Some(JsonView::Number(JsonNumber::PosInt(sessions as u64)))
        } else if key == "rooms"@ {
            Some(JsonView::Number(JsonNumber::PosInt(rooms as u64)))
        } else {
            None
        },
{
    reveal_strlit("service");
    reveal_strlit("sessions");
    reveal_strlit("rooms");
    assert("service"@.len() == 7 && "sessions"@.len() == 8 && "rooms"@.len() == 5);
}

/// A call that succeeds is answered with its result, one that fails with its words, and both
/// with the id of the call.
pub proof fn law_what_a_call_is_answered(
    id: JsonView,
    result: Result<JsonView, Seq<char>>,
)
    ensures
        ({
            let d = service::reply_document(id, result);
            &&& wire::at(d, "id"@) == Some(id)
            &&& wire::at(d, "jsonrpc"@) == Some(JsonView::Text("2.0"@))
            &&& result matches Ok(v) ==> wire::at(d, "result"@) == Some(v) && wire::at(
                d,
                "error"@,
            ) is None
            &&& result matches Err(e) ==> wire::at(d, "error"@) == Some(JsonView::Text(e))
                && wire::at(d, "result"@) is None
        }),
{
    reveal_strlit("jsonrpc");
    reveal_strlit("id");
    reveal_strlit("result");
    reveal_strlit("error");
    assert("jsonrpc"@.len() == 7 && "id"@.len() == 2);
    assert("result"@.len() == 6 && "error"@.len() == 5);
}

// ---- sessions that are over ----

/// Every session that is dropped is reported, in order, as the departure that it is from the
/// registry that the ones before it left.
pub proof fn law_every_departure_is_reported<S>(
    r: RegistryView<S>,
    ids: Seq<Seq<char>>,
    out: Seq<Departure>,
    i: int,
)
    requires
        r.wf(),
        ids.no_duplicates(),
        forall|k: int| 0 <= k < ids.len() ==> r.has(#[trigger] ids[k]),
        service::are_departures(r, ids, out),
        0 <= i < ids.len(),
    ensures
        out.len() == ids.len(),
        service::is_departure(service::dropped_all(r, ids.take(i)), ids[i], out[i]),
    decreases ids.len(),
{
    let rest = ids.drop_last();
    let n = rest.len() as int;
    let b = service::dropped_all(r, rest);
    service::lemma_dropped_all(r, rest);
    assert(r.has(ids[n]));
    assert(!rest.contains(ids[n])) by {
        if rest.contains(ids[n]) {
            let k = choose|k: int| 0 <= k < rest.len() && rest[k] == ids[n];
            assert(ids[k] == ids[n]);
        }
    }
    assert(b.has(ids.last()));
    assert(ids.take(n) =~= rest);
    reveal_with_fuel(service::are_departures, 2);
    assert(service::are_departures(r, rest, out.drop_last()));
    assert forall|k: int| 0 <= k < rest.len() implies r.has(#[trigger] rest[k]) by {
        assert(rest[k] == ids[k]);
    }
    if rest.len() > 0 {
        let k = if i < n {
            i
        } else {
            0
        };
        law_every_departure_is_reported(r, rest, out.drop_last(), k);
        if i < n {
            assert(rest.take(i) =~= ids.take(i));
            assert(out.drop_last()[i] == out[i]);
        }
    }
}

/// Dropping sessions one after the other takes out each that is named, and no other.
pub proof fn law_what_dropping_many_leaves<S>(
    r: RegistryView<S>,
    ids: Seq<Seq<char>>,
    other: Seq<char>,
)
    requires
        r.wf(),
    ensures
        service::dropped_all(r, ids).has(other) <==> r.has(other) && !ids.contains(other),
        service::dropped_all(r, ids).wf(),
{
    service::lemma_dropped_all(r, ids);
}

} // verus!
