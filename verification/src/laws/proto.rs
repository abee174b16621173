//! The wire protocol: what is read out of each document, and what is written.

use crate::json;
use crate::json::{JsonNumber, JsonView, Members};
use crate::proto;
use crate::proto::{CandidateView, ChannelType, Quat, RosterEntry, Vec3, ViewerDataMessage};
use crate::text;
use vstd::prelude::*;

verus! {

// ---- looking into documents ----

/// What stands under a key of an object.
pub open spec fn at(j: JsonView, key: Seq<char>) -> Option<JsonView> {
    match j {
        JsonView::Object(m) => if m.contains_key(key) {
            Some(m[key])
        } else {
            None
        },
        _ => None,
    }
}

/// The text under a key.
pub open spec fn text_at(j: JsonView, key: Seq<char>) -> Option<Seq<char>> {
    match at(j, key) {
        Some(JsonView::Text(s)) => Some(s),
        _ => None,
    }
}

/// Whether `true` stands under a key.
pub open spec fn true_at(j: JsonView, key: Seq<char>) -> bool {
    at(j, key) == Some(JsonView::Bool(true))
}

/// The integer under a key, where it is one of 64 bits with a sign.
pub open spec fn integer_at(j: JsonView, key: Seq<char>) -> Option<i64> {
    match at(j, key) {
        Some(JsonView::Number(JsonNumber::PosInt(n))) => if n <= 0x7fff_ffff_ffff_ffff {
            Some(n as i64)
        } else {
            None
        },
        Some(JsonView::Number(JsonNumber::NegInt(n))) => Some(n),
        _ => None,
    }
}

/// The number under a key, as the bit pattern that `as_f64` makes of it.
pub open spec fn number_at(j: JsonView, key: Seq<char>) -> Option<u64> {
    match at(j, key) {
        Some(JsonView::Number(n)) => Some(json::number_bits(n)),
        _ => None,
    }
}

/// A text, if there is one and it is not empty.
pub open spec fn filled(s: Option<Seq<char>>) -> Option<Seq<char>> {
    match s {
        Some(t) => if t.len() == 0 {
            None
        } else {
            Some(t)
        },
        None => None,
    }
}

// ---- provisioning ----

/// A request names a voice system other than WebRTC.
pub open spec fn wants_another_system(j: JsonView) -> bool {
    match text_at(j, "voice_server_type"@) {
        Some(s) => text::lower(s) != "webrtc"@,
        None => false,
    }
}

/// A request carries a session description that is no offer.
pub open spec fn carries_no_offer(j: JsonView) -> bool {
    match at(j, "jsep"@) {
        Some(jsep) => match filled(text_at(jsep, "type"@)) {
            Some(t) => t != "offer"@,
            None => false,
        },
        None => false,
    }
}

/// A provision request is refused for another voice system, or for a description that is no
/// offer, and for nothing else. What is read of it is what stands under each key; what is
/// missing or of another kind counts as absent.
pub proof fn law_what_a_provision_request_says(j: JsonView)
    ensures
        ({
            let r = proto::provision_in(j);
            &&& r is Err <==> wants_another_system(j) || carries_no_offer(j)
            &&& wants_another_system(j) ==> r->Err_0 == "voice_server_type is "@
                + text::debug_form(text_at(j, "voice_server_type"@)->Some_0) + ", not webrtc"@
            &&& !wants_another_system(j) && carries_no_offer(j) ==> r->Err_0 == "jsep type is "@
                + text::debug_form(text_at(at(j, "jsep"@)->Some_0, "type"@)->Some_0)
                + ", expected offer"@
            &&& r matches Ok(p) ==> {
                &&& p.logout == true_at(j, "logout"@)
                &&& p.viewer_session == text_at(j, "viewer_session"@)
                &&& p.offer_sdp == match at(j, "jsep"@) {
                    Some(jsep) => filled(text_at(jsep, "sdp"@)),
                    None => None,
                }
                &&& p.channel_type == Some(ChannelType::Local) <==> text_at(j, "channel_type"@)
                    == Some("local"@)
                &&& p.channel_type == Some(ChannelType::MultiAgent) <==> text_at(
                    j,
                    "channel_type"@,
                ) == Some("multiagent"@)
                &&& p.parcel_local_id == match integer_at(j, "parcel_local_id"@) {
                    Some(n) => n as i32,
                    None => 0,
                }
                &&& p.channel == filled(text_at(j, "channel"@))
            }
        }),
{
    reveal_strlit("local");
    reveal_strlit("multiagent");
    assert("local"@.len() == 5 && "multiagent"@.len() == 10);
}

// ---- signalling ----

/// An item of a batch names a candidate: a text that is not empty.
pub open spec fn names_candidate(item: JsonView) -> bool {
    filled(text_at(item, "candidate"@)) is Some
}

/// How many of the first `n` items name a candidate.
pub open spec fn candidates_before(items: Seq<JsonView>, n: int) -> nat
    decreases n,
{
    if n <= 0 {
        0
    } else {
        candidates_before(items, n - 1) + if names_candidate(items[n - 1]) {
            1nat
        } else {
            0nat
        }
    }
}

/// `c` is the candidate of an item: its text, its media id and its line.
pub open spec fn is_candidate_of(c: CandidateView, item: JsonView) -> bool {
    &&& Some(c.candidate) == text_at(item, "candidate"@)
    &&& c.sdp_mid == text_at(item, "sdpMid"@)
    &&& c.sdp_mline_index == match integer_at(item, "sdpMLineIndex"@) {
        Some(n) => Some(n as u16),
        None => None,
    }
}

/// Every item of a batch that names a candidate gives one, in the order of the batch, and
/// no other item does: there are as many candidates as such items, and that of item `i`
/// stands behind those of the items before it.
pub proof fn law_every_candidate_is_taken(items: Seq<JsonView>)
    ensures
        proto::candidates_in(items).len() == candidates_before(items, items.len() as int),
        forall|i: int|
            0 <= i < items.len() && names_candidate(#[trigger] items[i]) ==> candidates_before(
                items,
                i,
            ) < proto::candidates_in(items).len() && is_candidate_of(
                proto::candidates_in(items)[candidates_before(items, i) as int],
                items[i],
            ),
    decreases items.len(),
{
    if items.len() > 0 {
        let rest = items.drop_last();
        let n = rest.len() as int;
        law_every_candidate_is_taken(rest);
        lemma_same_count(items, n);
        assert(items[n] == items.last());
        assert forall|i: int|
            0 <= i < items.len() && names_candidate(#[trigger] items[i]) implies candidates_before(
            items,
            i,
        ) < proto::candidates_in(items).len() && is_candidate_of(
            proto::candidates_in(items)[candidates_before(items, i) as int],
            items[i],
        ) by {
            if i < n {
                lemma_same_count(items, i);
                assert(names_candidate(rest[i]));
            }
        }
    }
}

proof fn lemma_same_count(items: Seq<JsonView>, n: int)
    requires
        0 <= n < items.len(),
    ensures
        candidates_before(items, n) == candidates_before(items.drop_last(), n),
    decreases n,
{
    if n > 0 {
        lemma_same_count(items, n - 1);
        assert(items.drop_last()[n - 1] == items[n - 1]);
    }
}

/// A signalling request is for the session that it names, with the candidates of its batch,
/// and marks the end where its `candidate` says that it is complete.
pub proof fn law_what_a_signalling_request_says(j: JsonView)
    ensures
        ({
            let r = proto::signaling_in(j);
            &&& r.viewer_session == text_at(j, "viewer_session"@)
            &&& r.completed <==> (match at(j, "candidate"@) {
                Some(c) => true_at(c, "completed"@),
                None => false,
            })
            &&& match at(j, "candidates"@) {
                Some(JsonView::List(items)) => r.candidates == proto::candidates_in(items),
                _ => r.candidates.len() == 0,
            }
        }),
{
}

// ---- messages of the viewer ----

/// `v` is the position of three numbers of the wire, each brought to scale; none where one
/// of them is missing.
pub open spec fn is_point<F: Fn(u64) -> u64>(
    metres: F,
    j: Option<JsonView>,
    v: Option<Vec3>,
) -> bool {
    match j {
        None => v is None,
        Some(o) => {
            let (x, y, z) = (number_at(o, "x"@), number_at(o, "y"@), number_at(o, "z"@));
            if x is Some && y is Some && z is Some {
                match v {
                    Some(p) => {
                        &&& call_ensures(metres, (x->Some_0,), p.x)
                        &&& call_ensures(metres, (y->Some_0,), p.y)
                        &&& call_ensures(metres, (z->Some_0,), p.z)
                    },
                    None => false,
                }
            } else {
                v is None
            }
        },
    }
}

/// `v` is the orientation of four numbers of the wire, each brought to scale; none where one
/// of them is missing.
pub open spec fn is_turn<F: Fn(u64) -> u64>(
    metres: F,
    j: Option<JsonView>,
    v: Option<Quat>,
) -> bool {
    match j {
        None => v is None,
        Some(o) => {
            let (x, y, z, w) = (
                number_at(o, "x"@),
                number_at(o, "y"@),
                number_at(o, "z"@),
                number_at(o, "w"@),
            );
            if x is Some && y is Some && z is Some && w is Some {
                match v {
                    Some(q) => {
                        &&& call_ensures(metres, (x->Some_0,), q.x)
                        &&& call_ensures(metres, (y->Some_0,), q.y)
                        &&& call_ensures(metres, (z->Some_0,), q.z)
                        &&& call_ensures(metres, (w->Some_0,), q.w)
                    },
                    None => false,
                }
            } else {
                v is None
            }
        },
    }
}

/// A message announces a join where it has the key `j`, and a primary one where `true` stands
/// under `p` there; `sp`, `sh`, `lp` and `lh` are the places and orientations of avatar and
/// ear; and it asks for the gains and mutes that its document asks for.
pub proof fn law_what_a_message_says<F: Fn(u64) -> u64>(
    m: ViewerDataMessage,
    j: JsonView,
    metres: F,
)
    requires
        m.reads(j, metres),
    ensures
        m.join == match at(j, "j"@) {
            Some(c) => Some(true_at(c, "p"@)),
            None => None,
        },
        is_point(metres, at(j, "sp"@), m.avatar_pos),
        is_turn(metres, at(j, "sh"@), m.avatar_rot),
        is_point(metres, at(j, "lp"@), m.listener_pos),
        is_turn(metres, at(j, "lh"@), m.listener_rot),
        m.user_gain@.len() == proto::gains_in(j).len(),
        forall|i: int|
            0 <= i < m.user_gain@.len() ==> proto::gains_in(j)[i] == (
                (#[trigger] m.user_gain@[i]).0@,
                m.user_gain@[i].1,
            ),
        m.user_mute@.len() == proto::mutes_in(j).len(),
        forall|i: int|
            0 <= i < m.user_mute@.len() ==> proto::mutes_in(j)[i] == (
                (#[trigger] m.user_mute@[i]).0@,
                m.user_mute@[i].1,
            ),
{
    assert(proto::pairs_view(m.user_gain@).len() == m.user_gain@.len());
    assert(proto::pairs_view(m.user_mute@).len() == m.user_mute@.len());
    assert forall|i: int| 0 <= i < m.user_gain@.len() implies proto::gains_in(j)[i] == (
        (#[trigger] m.user_gain@[i]).0@,
        m.user_gain@[i].1,
    ) by {
        assert(proto::pairs_view(m.user_gain@)[i] == (m.user_gain@[i].0@, m.user_gain@[i].1));
    }
    assert forall|i: int| 0 <= i < m.user_mute@.len() implies proto::mutes_in(j)[i] == (
        (#[trigger] m.user_mute@[i]).0@,
        m.user_mute@[i].1,
    ) by {
        assert(proto::pairs_view(m.user_mute@)[i] == (m.user_mute@[i].0@, m.user_mute@[i].1));
    }
}

/// How many of the first `n` keys have a value that can be read.
pub open spec fn readable_before(keys: Seq<Seq<char>>, m: Members, gains: bool, n: int) -> nat
    decreases n,
{
    if n <= 0 {
        0
    } else {
        readable_before(keys, m, gains, n - 1) + if is_readable(m[keys[n - 1]], gains) {
            1nat
        } else {
            0nat
        }
    }
}

/// A gain is an unsigned integer, a mute a truth value.
pub open spec fn is_readable(v: JsonView, gain: bool) -> bool {
    if gain {
        v matches JsonView::Number(JsonNumber::PosInt(_))
    } else {
        v is Bool
    }
}

/// The gain requests of a message are those under `ug`: of the first 256 keys in order (all
/// of them, mostly), each one whose value is an unsigned integer gives one, in order, with
/// that value; and no other does.
pub proof fn law_every_gain_is_taken(
    j: JsonView,
    keys: Seq<Seq<char>>,
    m: Members,
)
    requires
        at(j, "ug"@) == Some(JsonView::Object(m)),
        json::lists_in_order(keys, m),
    ensures
        ({
            let n = if keys.len() <= 256 {
                keys.len() as int
            } else {
                256
            };
            let r = proto::gains_in(j);
            &&& r.len() == readable_before(keys, m, true, n)
            &&& forall|i: int|
                0 <= i < n && is_readable(m[#[trigger] keys[i]], true) ==> {
                    let k = readable_before(keys, m, true, i) as int;
                    &&& k < r.len()
                    &&& r[k].0 == keys[i]
                    &&& m[keys[i]] matches JsonView::Number(JsonNumber::PosInt(g)) && r[k].1
                        == g as u32
                }
        }),
{
    json::lemma_key_order(keys, m);
    let n = if keys.len() <= 256 {
        keys.len() as int
    } else {
        256
    };
    let some = proto::capped_keys(m);
    assert(some =~= keys.take(n));
    lemma_gains(some, m);
    lemma_readable_prefix(keys, some, m, true, n);
    assert forall|i: int| 0 <= i < n && is_readable(m[#[trigger] keys[i]], true) implies {
        let r = proto::gains_in(j);
        let k = readable_before(keys, m, true, i) as int;
        &&& k < r.len()
        &&& r[k].0 == keys[i]
        &&& m[keys[i]] matches JsonView::Number(JsonNumber::PosInt(g)) && r[k].1 == g as u32
    } by {
        lemma_readable_prefix(keys, some, m, true, i);
        assert(some[i] == keys[i]);
        assert(is_readable(m[some[i]], true));
    }
}

/// The mute requests of a message are those under `m`: of the first 256 keys in order (all of
/// them, mostly), each one whose value is a truth value gives one, in order, with that value;
/// and no other does.
pub proof fn law_every_mute_is_taken(
    j: JsonView,
    keys: Seq<Seq<char>>,
    m: Members,
)
    requires
        at(j, "m"@) == Some(JsonView::Object(m)),
        json::lists_in_order(keys, m),
    ensures
        ({
            let n = if keys.len() <= 256 {
                keys.len() as int
            } else {
                256
            };
            let r = proto::mutes_in(j);
            &&& r.len() == readable_before(keys, m, false, n)
            &&& forall|i: int|
                0 <= i < n && is_readable(m[#[trigger] keys[i]], false) ==> {
                    let k = readable_before(keys, m, false, i) as int;
                    &&& k < r.len()
                    &&& r[k].0 == keys[i]
                    &&& m[keys[i]] == JsonView::Bool(r[k].1)
                }
        }),
{
    json::lemma_key_order(keys, m);
    let n = if keys.len() <= 256 {
        keys.len() as int
    } else {
        256
    };
    let some = proto::capped_keys(m);
    assert(some =~= keys.take(n));
    lemma_mutes(some, m);
    lemma_readable_prefix(keys, some, m, false, n);
    assert forall|i: int| 0 <= i < n && is_readable(m[#[trigger] keys[i]], false) implies {
        let r = proto::mutes_in(j);
        let k = readable_before(keys, m, false, i) as int;
        &&& k < r.len()
        &&& r[k].0 == keys[i]
        &&& m[keys[i]] == JsonView::Bool(r[k].1)
    } by {
        lemma_readable_prefix(keys, some, m, false, i);
        assert(some[i] == keys[i]);
        assert(is_readable(m[some[i]], false));
    }
}

/// A message without an object under `ug` asks for no gain, and one without an object under
/// `m` for no mute.
pub proof fn law_no_object_no_requests(j: JsonView)
    ensures
        !(at(j, "ug"@) matches Some(JsonView::Object(_))) ==> proto::gains_in(j).len() == 0,
        !(at(j, "m"@) matches Some(JsonView::Object(_))) ==> proto::mutes_in(j).len() == 0,
{
}

proof fn lemma_readable_prefix(
    keys: Seq<Seq<char>>,
    some: Seq<Seq<char>>,
    m: Members,
    gains: bool,
    n: int,
)
    requires
        0 <= n <= some.len() <= keys.len(),
        forall|i: int| 0 <= i < some.len() ==> some[i] == keys[i],
    ensures
        readable_before(keys, m, gains, n) == readable_before(some, m, gains, n),
    decreases n,
{
    if n > 0 {
        lemma_readable_prefix(keys, some, m, gains, n - 1);
    }
}

proof fn lemma_gains(keys: Seq<Seq<char>>, m: Members)
    ensures
        ({
            let r = proto::picked(keys, m, |c: JsonView| proto::gain_in(c));
            &&& r.len() == readable_before(keys, m, true, keys.len() as int)
            &&& forall|i: int|
                0 <= i < keys.len() && is_readable(m[#[trigger] keys[i]], true) ==> {
                    let k = readable_before(keys, m, true, i) as int;
                    &&& k < r.len()
                    &&& r[k].0 == keys[i]
                    &&& m[keys[i]] matches JsonView::Number(JsonNumber::PosInt(g)) && r[k].1
                        == g as u32
                }
        }),
    decreases keys.len(),
{
    if keys.len() > 0 {
        let rest = keys.drop_last();
        let n = rest.len() as int;
        lemma_gains(rest, m);
        lemma_readable_prefix(keys, rest, m, true, n);
        let had = proto::picked(rest, m, |c: JsonView| proto::gain_in(c));
        let r = proto::picked(keys, m, |c: JsonView| proto::gain_in(c));
        assert(keys[n] == keys.last());
        assert forall|i: int|
            0 <= i < keys.len() && is_readable(m[#[trigger] keys[i]], true) implies {
            let k = readable_before(keys, m, true, i) as int;
            &&& k < r.len()
            &&& r[k].0 == keys[i]
            &&& m[keys[i]] matches JsonView::Number(JsonNumber::PosInt(g)) && r[k].1 == g as u32
        } by {
            if i < n {
                lemma_readable_prefix(keys, rest, m, true, i);
                assert(is_readable(m[rest[i]], true));
                assert(r[readable_before(rest, m, true, i) as int] == had[readable_before(
                    rest,
                    m,
                    true,
                    i,
                ) as int]);
            }
        }
    }
}

proof fn lemma_mutes(keys: Seq<Seq<char>>, m: Members)
    ensures
        ({
            let r = proto::picked(keys, m, |c: JsonView| json::bool_of(c));
            &&& r.len() == readable_before(keys, m, false, keys.len() as int)
            &&& forall|i: int|
                0 <= i < keys.len() && is_readable(m[#[trigger] keys[i]], false) ==> {
                    let k = readable_before(keys, m, false, i) as int;
                    &&& k < r.len()
                    &&& r[k].0 == keys[i]
                    &&& m[keys[i]] == JsonView::Bool(r[k].1)
                }
        }),
    decreases keys.len(),
{
    if keys.len() > 0 {
        let rest = keys.drop_last();
        let n = rest.len() as int;
        lemma_mutes(rest, m);
        lemma_readable_prefix(keys, rest, m, false, n);
        let had = proto::picked(rest, m, |c: JsonView| json::bool_of(c));
        let r = proto::picked(keys, m, |c: JsonView| json::bool_of(c));
        assert(keys[n] == keys.last());
        assert forall|i: int|
            0 <= i < keys.len() && is_readable(m[#[trigger] keys[i]], false) implies {
            let k = readable_before(keys, m, false, i) as int;
            &&& k < r.len()
            &&& r[k].0 == keys[i]
            &&& m[keys[i]] == JsonView::Bool(r[k].1)
        } by {
            if i < n {
                lemma_readable_prefix(keys, rest, m, false, i);
                assert(is_readable(m[rest[i]], false));
                assert(r[readable_before(rest, m, false, i) as int] == had[readable_before(
                    rest,
                    m,
                    false,
                    i,
                ) as int]);
            }
        }
    }
}

// ---- what is written ----

/// An answer is an object of the session and of a `jsep`, which is one of the type `answer`
/// and the SDP.
pub proof fn law_what_an_answer_says(session: Seq<char>, sdp: Seq<char>, key: Seq<char>)
    ensures
        ({
            let d = proto::answer_document(session, sdp);
            let jsep = at(d, "jsep"@)->Some_0;
            &&& at(d, "viewer_session"@) == Some(JsonView::Text(session))
            &&& at(d, "jsep"@) is Some
            &&& at(d, key) is Some ==> key == "viewer_session"@ || key == "jsep"@
            &&& at(jsep, "type"@) == Some(JsonView::Text("answer"@))
            &&& at(jsep, "sdp"@) == Some(JsonView::Text(sdp))
            &&& at(jsep, key) is Some ==> key == "type"@ || key == "sdp"@
        }),
{
    reveal_strlit("viewer_session");
    reveal_strlit("jsep");
    reveal_strlit("type");
    reveal_strlit("sdp");
    assert("viewer_session"@.len() == 14 && "jsep"@.len() == 4);
    assert("type"@.len() == 4 && "sdp"@.len() == 3);
}

/// A reply to a teardown or to candidates names the session and says no more.
pub proof fn law_what_a_session_reply_says(session: Seq<char>, key: Seq<char>)
    ensures
        at(proto::session_document(session), key) == if key == "viewer_session"@ {
            Some(JsonView::Text(session))
        } else {
            None
        },
{
}

/// A reply to a call is an object of the version, the call's own id and one thing more.
pub proof fn law_what_a_reply_says(id: JsonView, body: JsonView, key: Seq<char>)
    ensures
        at(proto::envelope(id, "result"@, body), key) == if key == "jsonrpc"@ {
            Some(JsonView::Text("2.0"@))
        } else if key == "id"@ {
            Some(id)
        } else if key == "result"@ {
            Some(body)
        } else {
            None
        },
        at(proto::envelope(id, "error"@, body), key) == if key == "jsonrpc"@ {
            Some(JsonView::Text("2.0"@))
        } else if key == "id"@ {
            Some(id)
        } else if key == "error"@ {
            Some(body)
        } else {
            None
        },
{
    reveal_strlit("jsonrpc");
    reveal_strlit("id");
    reveal_strlit("result");
    reveal_strlit("error");
    assert("jsonrpc"@.len() == 7 && "id"@.len() == 2);
    assert("result"@.len() == 6 && "error"@.len() == 5);
}

/// A departure notice says of the agent, and of nobody else, that it left, and no more.
pub proof fn law_what_a_notice_says(agent: Seq<char>, key: Seq<char>, inner: Seq<char>)
    ensures
        at(proto::leave_document(agent), key) is Some <==> key == agent,
        at(proto::leave_document(agent), agent) is Some,
        at(at(proto::leave_document(agent), agent)->Some_0, inner) == if inner == "l"@ {
            Some(JsonView::Bool(true))
        } else {
            None
        },
{
}

/// An entry of a roster says the power, whether it is speaking and whether a moderator muted
/// it, as the entry has them; and of one that joined, that it did and whether it is primary.
pub proof fn law_what_an_entry_says(e: RosterEntry, key: Seq<char>, inner: Seq<char>)
    ensures
        at(proto::entry_document(e), key) == if key == "p"@ {
            Some(JsonView::Number(JsonNumber::PosInt(e.power as u64)))
        } else if key == "v"@ {
            Some(JsonView::Bool(e.speaking))
        } else if key == "m"@ {
            Some(JsonView::Bool(e.moderator_muted))
        } else if key == "j"@ && e.joined {
            at(proto::entry_document(e), "j"@)
        } else {
            None
        },
        e.joined ==> at(proto::entry_document(e), "j"@) is Some && at(
            at(proto::entry_document(e), "j"@)->Some_0,
            inner,
        ) == if inner == "p"@ {
            Some(JsonView::Bool(e.primary))
        } else {
            None
        },
{
    reveal_strlit("p");
    reveal_strlit("v");
    reveal_strlit("m");
    reveal_strlit("j");
    assert("p"@[0] == 'p' && "v"@[0] == 'v' && "m"@[0] == 'm' && "j"@[0] == 'j');
}

/// Entry `i` of a roster is the last one for its agent that has anything but defaults.
pub open spec fn is_last_entry(entries: Seq<(Seq<char>, RosterEntry)>, i: int) -> bool {
    &&& 0 <= i < entries.len()
    &&& has_news(entries[i].1)
    &&& forall|j: int|
        i < j < entries.len() && (#[trigger] entries[j]).0 == entries[i].0 ==> !has_news(
            entries[j].1,
        )
}

/// Not every field of an entry is the default.
pub open spec fn has_news(e: RosterEntry) -> bool {
    e.joined || e.primary || e.power > 0 || e.speaking || e.moderator_muted
}

/// A roster has for each agent the last of its entries that has anything but defaults, and
/// nothing for an agent without one.
pub proof fn law_a_roster_has_the_last_entries(entries: Seq<(Seq<char>, RosterEntry)>, i: int)
    requires
        is_last_entry(entries, i),
    ensures
        at(proto::roster_document(entries), entries[i].0) == Some(
            proto::entry_document(entries[i].1),
        ),
    decreases entries.len(),
{
    let rest = entries.drop_last();
    let n = rest.len() as int;
    assert(entries[n] == entries.last());
    if i < n {
        assert forall|j: int| i < j < rest.len() && (#[trigger] rest[j]).0 == rest[i].0 implies
            !has_news(rest[j].1) by {
            assert(rest[j] == entries[j]);
        }
        assert(rest[i] == entries[i]);
        law_a_roster_has_the_last_entries(rest, i);
    }
}

/// A level counts as speaking from 39 units on, which is more than 0.30 of 128.
pub proof fn law_when_a_level_is_speaking(level: u8)
    ensures
        proto::is_speaking(level) <==> level >= 39,
        proto::is_speaking(level) <==> level * 10 > 3 * 128,
{
}

// ---- what a value is ----

/// A provision request is what its fields say.
pub proof fn law_what_a_provision_request_is(p: proto::ProvisionRequest)
    ensures
        p@.logout == p.logout,
        p@.viewer_session == proto::text_view(p.viewer_session),
        p@.offer_sdp == proto::text_view(p.offer_sdp),
        p@.channel_type == p.channel_type,
        p@.parcel_local_id == p.parcel_local_id,
        p@.channel == proto::text_view(p.channel),
{
}

/// A signalling request is what its fields say, and a candidate is too.
pub proof fn law_what_a_signalling_request_is(
    r: proto::SignalingRequest,
    c: proto::IceCandidate,
    i: int,
)
    requires
        0 <= i < r.candidates@.len(),
    ensures
        r@.viewer_session == proto::text_view(r.viewer_session),
        r@.completed == r.completed,
        r@.candidates.len() == r.candidates@.len(),
        r@.candidates[i] == r.candidates@[i]@,
        c@.candidate == c.candidate@,
        c@.sdp_mid == proto::text_view(c.sdp_mid),
        c@.sdp_mline_index == c.sdp_mline_index,
{
}

} // verus!
