//! The wire protocol of Linden Lab WebRTC voice, as far as it crosses this service.
//!
//! There are two: the JSON-RPC envelope that a region wraps around a viewer's capability
//! request, and the JSON that viewer and service exchange over the data channel.

use crate::json;
use crate::json::{JsonNumber, JsonView, Members};
use crate::text;
use crate::text::{quoted, same_text};
use serde_json::Value;
use vstd::prelude::*;

verus! {

// ---- JSON-RPC ----

/// The method by which a region forwards a provision request.
pub const METHOD_PROVISION: &'static str = "provision_voice_account_request";

/// The method by which a region forwards trickled ICE candidates.
pub const METHOD_SIGNALING: &'static str = "voice_signaling_request";

/// A call of the region.
pub struct RpcRequest {
    pub id: Value,
    pub method: String,
    pub params: RpcParams,
}

/// What a call carries.
pub struct RpcParams {
    /// The viewer's own request body, verbatim.
    pub request: Value,
    /// The agent as the region sees it. This is the identity of the session; the viewer
    /// never gets to say who it is.
    pub user_id: String,
    /// The region.
    pub scene: String,
}

/// A reply of the service to a call.
pub open spec fn envelope(id: JsonView, key: Seq<char>, body: JsonView) -> JsonView {
    JsonView::Object(
        json::no_members().insert("jsonrpc"@, JsonView::Text("2.0"@)).insert("id"@, id).insert(
            key,
            body,
        ),
    )
}

fn enveloped(id: &Value, key: &str, body: Value) -> (r: Value)
    ensures
        json::json_of(r) == envelope(json::json_of(*id), key@, json::json_of(body)),
{
    let mut m = serde_json::Map::new();
    m.insert("jsonrpc".to_owned(), json::text_value("2.0".to_owned()));
    m.insert("id".to_owned(), id.clone());
    m.insert(key.to_owned(), body);
    json::object_value(m)
}

/// A reply that carries a result.
///
/// It goes out with HTTP status 200, and so does a failure: the region's connector drops
/// any other status on the floor, and the viewer would wait for ever.
pub fn rpc_ok(id: &Value, result: Value) -> (r: Value)
    ensures
        json::json_of(r) == envelope(json::json_of(*id), "result"@, json::json_of(result)),
{
    enveloped(id, "result", result)
}

/// A reply that carries the reason of a failure.
pub fn rpc_err(id: &Value, message: &str) -> (r: Value)
    ensures
        json::json_of(r) == envelope(json::json_of(*id), "error"@, JsonView::Text(message@)),
{
    enveloped(id, "error", json::text_value(message.to_owned()))
}

/// A reply carries a result or the reason of a failure, never both, and the id of the
/// call either way.
pub proof fn law_reply_is_result_or_error(id: JsonView, body: JsonView)
    ensures
        json::member_of(envelope(id, "result"@, body), "result"@) == Some(body),
        json::member_of(envelope(id, "result"@, body), "error"@) is None,
        json::member_of(envelope(id, "error"@, body), "error"@) == Some(body),
        json::member_of(envelope(id, "error"@, body), "result"@) is None,
        json::member_of(envelope(id, "result"@, body), "id"@) == Some(id),
        json::member_of(envelope(id, "error"@, body), "id"@) == Some(id),
{
    reveal_strlit("jsonrpc");
    reveal_strlit("id");
    reveal_strlit("result");
    reveal_strlit("error");
    assert("jsonrpc"@.len() == 7 && "id"@.len() == 2);
    assert("result"@.len() == 6 && "error"@.len() == 5);
}

// ---- viewer capability bodies ----

/// The kind of channel that a viewer asks for.
#[derive(Clone, Copy, Debug, PartialEq, Eq, Structural)]
pub enum ChannelType {
    /// Spatial voice of a region or a parcel.
    Local,
    /// Group and IM voice.
    MultiAgent,
}

/// The kind of channel that a text names.
pub open spec fn channel_named(s: Seq<char>) -> Option<ChannelType> {
    if s == "local"@ {
        Some(ChannelType::Local)
    } else if s == "multiagent"@ {
        Some(ChannelType::MultiAgent)
    } else {
        None
    }
}

impl ChannelType {
    pub fn parse(s: &str) -> (r: Option<Self>)
        ensures
            r == channel_named(s@),
    {
        if same_text(s, "local") {
            Some(ChannelType::Local)
        } else if same_text(s, "multiagent") {
            Some(ChannelType::MultiAgent)
        } else {
            None
        }
    }
}

/// What a text that may be missing says.
pub open spec fn text_view(s: Option<String>) -> Option<Seq<char>> {
    match s {
        Some(t) => Some(t@),
        None => None,
    }
}

/// The text under a key.
pub open spec fn text_member(j: JsonView, key: Seq<char>) -> Option<Seq<char>> {
    match json::member_of(j, key) {
        Some(c) => json::text_of(c),
        None => None,
    }
}

/// The truth value under a key.
pub open spec fn bool_member(j: JsonView, key: Seq<char>) -> Option<bool> {
    match json::member_of(j, key) {
        Some(c) => json::bool_of(c),
        None => None,
    }
}

/// The integer under a key.
pub open spec fn i64_member(j: JsonView, key: Seq<char>) -> Option<i64> {
    match json::member_of(j, key) {
        Some(c) => json::i64_of(c),
        None => None,
    }
}

/// A text that says something.
pub open spec fn nonempty(s: Option<Seq<char>>) -> Option<Seq<char>> {
    match s {
        Some(t) => if t.len() > 0 {
            Some(t)
        } else {
            None
        },
        None => None,
    }
}

fn get_text<'a>(v: &'a Value, key: &str) -> (r: Option<&'a str>)
    ensures
        r is Some <==> text_member(json::json_of(*v), key@) is Some,
        r matches Some(s) ==> text_member(json::json_of(*v), key@) == Some(s@),
{
    match json::member(v, key) {
        Some(c) => c.as_str(),
        None => None,
    }
}

fn get_owned(v: &Value, key: &str) -> (r: Option<String>)
    ensures
        text_view(r) == text_member(json::json_of(*v), key@),
{
    match get_text(v, key) {
        Some(s) => Some(s.to_owned()),
        None => None,
    }
}

fn get_nonempty(v: &Value, key: &str) -> (r: Option<String>)
    ensures
        text_view(r) == nonempty(text_member(json::json_of(*v), key@)),
{
    match get_text(v, key) {
        Some(s) => if s.is_empty() {
            None
        } else {
            Some(s.to_owned())
        },
        None => None,
    }
}

fn get_bool(v: &Value, key: &str) -> (r: Option<bool>)
    ensures
        r == bool_member(json::json_of(*v), key@),
{
    match json::member(v, key) {
        Some(c) => c.as_bool(),
        None => None,
    }
}

fn get_i64(v: &Value, key: &str) -> (r: Option<i64>)
    ensures
        r == i64_member(json::json_of(*v), key@),
{
    match json::member(v, key) {
        Some(c) => c.as_i64(),
        None => None,
    }
}

/// The one voice system that this service speaks. The region checks it too; it is checked
/// again here rather than trusted.
pub const VOICE_SERVER_TYPE: &'static str = "webrtc";

/// A provision request, as a viewer sends it: a connection request with an SDP offer, or
/// a teardown.
#[derive(Debug)]
pub struct ProvisionRequest {
    pub logout: bool,
    pub viewer_session: Option<String>,
    pub offer_sdp: Option<String>,
    pub channel_type: Option<ChannelType>,
    /// 0 where the viewer names no parcel: the voice of the whole estate.
    pub parcel_local_id: i32,
    pub channel: Option<String>,
}

/// What a provision request says.
pub struct ProvisionView {
    pub logout: bool,
    pub viewer_session: Option<Seq<char>>,
    pub offer_sdp: Option<Seq<char>>,
    pub channel_type: Option<ChannelType>,
    pub parcel_local_id: i32,
    pub channel: Option<Seq<char>>,
}

impl View for ProvisionRequest {
    type V = ProvisionView;

    open spec fn view(&self) -> ProvisionView {
        ProvisionView {
            logout: self.logout,
            viewer_session: text_view(self.viewer_session),
            offer_sdp: text_view(self.offer_sdp),
            channel_type: self.channel_type,
            parcel_local_id: self.parcel_local_id,
            channel: text_view(self.channel),
        }
    }
}

/// The SDP offer of a request, or the words that refuse it: the exchange begins with the
/// viewer's offer, so a `jsep` of another type is no request.
pub open spec fn offer_in(j: JsonView) -> Result<Option<Seq<char>>, Seq<char>> {
    match json::member_of(j, "jsep"@) {
        None => Ok(None),
        Some(jsep) => match text_member(jsep, "type"@) {
            Some(ty) => if ty.len() > 0 && ty != "offer"@ {
                Err("jsep type is "@ + text::debug_form(ty) + ", expected offer"@)
            } else {
                Ok(nonempty(text_member(jsep, "sdp"@)))
            },
            None => Ok(nonempty(text_member(jsep, "sdp"@))),
        },
    }
}

/// Why the voice system that a request names is refused, where it is.
pub open spec fn voice_system_error(j: JsonView) -> Option<Seq<char>> {
    match text_member(j, "voice_server_type"@) {
        Some(vst) => if text::lower(vst) != "webrtc"@ {
            Some("voice_server_type is "@ + text::debug_form(vst) + ", not webrtc"@)
        } else {
            None
        },
        None => None,
    }
}

/// What the body of a provision request says, or the words that refuse it.
pub open spec fn provision_in(j: JsonView) -> Result<ProvisionView, Seq<char>> {
    match voice_system_error(j) {
        Some(e) => Err(e),
        None => match offer_in(j) {
            Err(e) => Err(e),
            Ok(offer) => Ok(
                ProvisionView {
                    logout: bool_member(j, "logout"@) == Some(true),
                    viewer_session: text_member(j, "viewer_session"@),
                    offer_sdp: offer,
                    channel_type: match text_member(j, "channel_type"@) {
                        Some(s) => channel_named(s),
                        None => None,
                    },
                    parcel_local_id: match i64_member(j, "parcel_local_id"@) {
                        Some(n) => n as i32,
                        None => 0,
                    },
                    channel: nonempty(text_member(j, "channel"@)),
                },
            ),
        },
    }
}

fn read_offer(v: &Value) -> (r: Result<Option<String>, String>)
    ensures
        r is Ok <==> offer_in(json::json_of(*v)) is Ok,
        r matches Ok(o) ==> offer_in(json::json_of(*v))->Ok_0 == text_view(o),
        r matches Err(e) ==> offer_in(json::json_of(*v))->Err_0 == e@,
{
    match json::member(v, "jsep") {
        None => Ok(None),
        Some(jsep) => {
            if let Some(ty) = get_text(jsep, "type") {
                if !ty.is_empty() && !same_text(ty, "offer") {
                    let mut e = "jsep type is ".to_owned();
                    e.append(quoted(ty).as_str());
                    e.append(", expected offer");
                    return Err(e);
                }
            }
            Ok(get_nonempty(jsep, "sdp"))
        },
    }
}

impl ProvisionRequest {
    /// Reads the body of a provision request.
    pub fn parse(v: &Value) -> (r: Result<Self, String>)
        ensures
            r is Ok <==> provision_in(json::json_of(*v)) is Ok,
            r matches Ok(p) ==> provision_in(json::json_of(*v))->Ok_0 == p@,
            r matches Err(e) ==> provision_in(json::json_of(*v))->Err_0 == e@,
    {
        if let Some(vst) = get_text(v, "voice_server_type") {
            if !same_text(vst.to_ascii_lowercase().as_str(), VOICE_SERVER_TYPE) {
                let mut e = "voice_server_type is ".to_owned();
                e.append(quoted(vst).as_str());
                e.append(", not webrtc");
                return Err(e);
            }
        }
        let offer_sdp = match read_offer(v) {
            Ok(o) => o,
            Err(e) => {
                return Err(e);
            },
        };
        let channel_type = match get_text(v, "channel_type") {
            Some(s) => ChannelType::parse(s),
            None => None,
        };
        let parcel_local_id: i32 = match get_i64(v, "parcel_local_id") {
            Some(n) => n as i32,
            None => 0,
        };
        Ok(
            ProvisionRequest {
                logout: match get_bool(v, "logout") {
                    Some(b) => b,
                    None => false,
                },
                viewer_session: get_owned(v, "viewer_session"),
                offer_sdp,
                channel_type,
                parcel_local_id,
                channel: get_nonempty(v, "channel"),
            },
        )
    }
}

/// The reply that a viewer takes: a session, and an answer of type `answer`.
pub open spec fn answer_document(viewer_session: Seq<char>, sdp: Seq<char>) -> JsonView {
    JsonView::Object(
        json::no_members().insert("viewer_session"@, JsonView::Text(viewer_session)).insert(
            "jsep"@,
            JsonView::Object(
                json::no_members().insert("type"@, JsonView::Text("answer"@)).insert(
                    "sdp"@,
                    JsonView::Text(sdp),
                ),
            ),
        ),
    )
}

/// The answer to a connection request.
pub fn provision_answer(viewer_session: &str, answer_sdp: &str) -> (r: Value)
    ensures
        json::json_of(r) == answer_document(viewer_session@, answer_sdp@),
{
    let mut jsep = serde_json::Map::new();
    jsep.insert("type".to_owned(), json::text_value("answer".to_owned()));
    jsep.insert("sdp".to_owned(), json::text_value(answer_sdp.to_owned()));
    let mut m = serde_json::Map::new();
    m.insert("viewer_session".to_owned(), json::text_value(viewer_session.to_owned()));
    m.insert("jsep".to_owned(), json::object_value(jsep));
    json::object_value(m)
}

/// A reply that names a session and no more.
pub open spec fn session_document(viewer_session: Seq<char>) -> JsonView {
    JsonView::Object(json::no_members().insert("viewer_session"@, JsonView::Text(viewer_session)))
}

/// The reply to a teardown or to trickled candidates. The viewer ignores it, but the
/// region expects a map.
pub fn session_reply(viewer_session: &str) -> (r: Value)
    ensures
        json::json_of(r) == session_document(viewer_session@),
{
    let mut m = serde_json::Map::new();
    m.insert("viewer_session".to_owned(), json::text_value(viewer_session.to_owned()));
    json::object_value(m)
}

/// An answer has what the viewer asks of one, or else discards it: the session, and a
/// `jsep` of type `answer` with an SDP that is not empty.
pub proof fn law_answer_is_accepted(viewer_session: Seq<char>, sdp: Seq<char>)
    requires
        sdp.len() > 0,
    ensures
        text_member(answer_document(viewer_session, sdp), "viewer_session"@) == Some(
            viewer_session,
        ),
        json::member_of(answer_document(viewer_session, sdp), "jsep"@) matches Some(jsep)
            && text_member(jsep, "type"@) == Some("answer"@) && nonempty(
            text_member(jsep, "sdp"@),
        ) == Some(sdp),
{
    reveal_strlit("viewer_session");
    reveal_strlit("jsep");
    reveal_strlit("type");
    reveal_strlit("sdp");
    assert("viewer_session"@.len() == 14 && "jsep"@.len() == 4);
    assert("type"@.len() == 4 && "sdp"@.len() == 3);
}

/// One ICE candidate of a viewer.
#[derive(Debug)]
pub struct IceCandidate {
    pub candidate: String,
    pub sdp_mid: Option<String>,
    pub sdp_mline_index: Option<u16>,
}

/// What an ICE candidate says.
pub struct CandidateView {
    pub candidate: Seq<char>,
    pub sdp_mid: Option<Seq<char>>,
    pub sdp_mline_index: Option<u16>,
}

impl View for IceCandidate {
    type V = CandidateView;

    open spec fn view(&self) -> CandidateView {
        CandidateView {
            candidate: self.candidate@,
            sdp_mid: text_view(self.sdp_mid),
            sdp_mline_index: self.sdp_mline_index,
        }
    }
}

impl Clone for IceCandidate {
    fn clone(&self) -> (r: Self)
        ensures
            r@ == self@,
    {
        IceCandidate {
            candidate: self.candidate.clone(),
            sdp_mid: match &self.sdp_mid {
                Some(m) => Some(m.clone()),
                None => None,
            },
            sdp_mline_index: self.sdp_mline_index,
        }
    }
}

/// A trickled ICE update of a viewer: some candidates, or the mark that there are no
/// more.
#[derive(Debug)]
pub struct SignalingRequest {
    pub viewer_session: Option<String>,
    pub candidates: Vec<IceCandidate>,
    pub completed: bool,
}

/// What an ICE update says.
pub struct SignalingView {
    pub viewer_session: Option<Seq<char>>,
    pub candidates: Seq<CandidateView>,
    pub completed: bool,
}

/// What each of some candidates says.
pub open spec fn candidate_views(cs: Seq<IceCandidate>) -> Seq<CandidateView> {
    cs.map_values(|c: IceCandidate| c@)
}

impl View for SignalingRequest {
    type V = SignalingView;

    open spec fn view(&self) -> SignalingView {
        SignalingView {
            viewer_session: text_view(self.viewer_session),
            candidates: candidate_views(self.candidates@),
            completed: self.completed,
        }
    }
}

/// The candidate that one item of a batch names, where it names one.
pub open spec fn candidate_in(j: JsonView) -> Option<CandidateView> {
    match nonempty(text_member(j, "candidate"@)) {
        Some(c) => Some(
            CandidateView {
                candidate: c,
                sdp_mid: text_member(j, "sdpMid"@),
                sdp_mline_index: match i64_member(j, "sdpMLineIndex"@) {
                    Some(i) => Some(i as u16),
                    None => None,
                },
            },
        ),
        None => None,
    }
}

/// The candidates of a batch, in order; items without one are passed over.
pub open spec fn candidates_in(items: Seq<JsonView>) -> Seq<CandidateView>
    decreases items.len(),
{
    if items.len() == 0 {
        Seq::empty()
    } else {
        match candidate_in(items.last()) {
            Some(c) => candidates_in(items.drop_last()).push(c),
            None => candidates_in(items.drop_last()),
        }
    }
}

/// The items under the key `candidates`.
pub open spec fn batch_in(j: JsonView) -> Seq<JsonView> {
    match json::member_of(j, "candidates"@) {
        Some(c) => match json::list_of(c) {
            Some(items) => items,
            None => Seq::empty(),
        },
        None => Seq::empty(),
    }
}

/// What the body of a signaling request says. The candidates stand under the plural key,
/// the mark of completion under the singular one.
pub open spec fn signaling_in(j: JsonView) -> SignalingView {
    SignalingView {
        viewer_session: text_member(j, "viewer_session"@),
        candidates: candidates_in(batch_in(j)),
        completed: match json::member_of(j, "candidate"@) {
            Some(c) => bool_member(c, "completed"@) == Some(true),
            None => false,
        },
    }
}

fn read_candidate(v: &Value) -> (r: Option<IceCandidate>)
    ensures
        r is Some <==> candidate_in(json::json_of(*v)) is Some,
        r matches Some(c) ==> candidate_in(json::json_of(*v)) == Some(c@),
{
    match get_nonempty(v, "candidate") {
        Some(candidate) => Some(
            IceCandidate {
                candidate,
                sdp_mid: get_owned(v, "sdpMid"),
                sdp_mline_index: match get_i64(v, "sdpMLineIndex") {
                    Some(i) => Some(i as u16),
                    None => None,
                },
            },
        ),
        None => None,
    }
}

fn read_batch(items: &Vec<Value>) -> (r: Vec<IceCandidate>)
    ensures
        candidate_views(r@) == candidates_in(json::documents(items@)),
{
    let mut out: Vec<IceCandidate> = Vec::new();
    let mut i: usize = 0;
    assert(json::documents(items@).take(0) =~= Seq::<JsonView>::empty());
    assert(candidate_views(out@) =~= Seq::<CandidateView>::empty());
    while i < items.len()
        invariant
            i <= items@.len(),
            candidate_views(out@) == candidates_in(json::documents(items@).take(i as int)),
        decreases items@.len() - i,
    {
        let ghost upto = json::documents(items@).take(i + 1);
        assert(upto.drop_last() =~= json::documents(items@).take(i as int));
        assert(upto.last() == json::json_of(items@[i as int]));
        let ghost before = out@;
        if let Some(c) = read_candidate(&items[i]) {
            out.push(c);
            assert(candidate_views(out@) =~= candidate_views(before).push(c@));
        }
        i += 1;
    }
    assert(json::documents(items@).take(i as int) =~= json::documents(items@));
    out
}

impl SignalingRequest {
    /// Reads the body of a signaling request. Whatever is missing or of another shape
    /// counts as absent.
    pub fn parse(v: &Value) -> (r: Self)
        ensures
            r@ == signaling_in(json::json_of(*v)),
    {
        let candidates = match json::member(v, "candidates") {
            Some(c) => match c.as_array() {
                Some(items) => read_batch(items),
                None => Vec::new(),
            },
            None => Vec::new(),
        };
        let completed = match json::member(v, "candidate") {
            Some(c) => match get_bool(c, "completed") {
                Some(b) => b,
                None => false,
            },
            None => false,
        };
        let r = SignalingRequest {
            viewer_session: get_owned(v, "viewer_session"),
            candidates,
            completed,
        };
        assert(r@.candidates =~= candidates_in(batch_in(json::json_of(*v))));
        r
    }
}

// ---- data channel ----

/// A position. Each coordinate is the bit pattern of a binary64 number.
#[derive(Clone, Copy, Debug, PartialEq, Eq, Structural)]
pub struct Vec3 {
    pub x: u64,
    pub y: u64,
    pub z: u64,
}

/// An orientation as a quaternion. Each component is the bit pattern of a binary64
/// number.
#[derive(Clone, Copy, Debug, PartialEq, Eq, Structural)]
pub struct Quat {
    pub x: u64,
    pub y: u64,
    pub z: u64,
    pub w: u64,
}

/// What a viewer sends over the data channel.
#[derive(Debug)]
pub struct ViewerDataMessage {
    /// The announcement that it joined; true where this region is the agent's own rather
    /// than a neighbour.
    pub join: Option<bool>,
    /// Avatar and ear, in metres of the whole world's frame.
    pub avatar_pos: Option<Vec3>,
    pub avatar_rot: Option<Quat>,
    pub listener_pos: Option<Vec3>,
    pub listener_rot: Option<Quat>,
    /// The gain it wants for a participant, in units of `PEER_GAIN_CONVERSION_FACTOR` to
    /// the whole.
    pub user_gain: Vec<(String, u32)>,
    /// Whether it wants a participant muted.
    pub user_mute: Vec<(String, bool)>,
}

/// How many units of a viewer's gain request make unity.
pub const PEER_GAIN_CONVERSION_FACTOR: u32 = 220;

/// How many units of a wire coordinate make a metre (or the whole of a quaternion's
/// component).
pub const POSITION_SCALE: u32 = 100;

/// The most gain or mute entries that are taken from one message, and the most that a
/// session keeps. Far above any real room.
pub const MAX_PEER_ENTRIES: usize = 256;

/// The largest gain that a listener may ask for, in the units of the viewer: four times
/// unity. The viewer's own slider ends at two.
pub const MAX_PEER_GAIN: u32 = 880;

/// The bit pattern of the number under a key.
pub open spec fn bits_member(j: JsonView, key: Seq<char>) -> Option<u64> {
    match json::member_of(j, key) {
        Some(c) => json::bits_of(c),
        None => None,
    }
}

/// A position as it is written on the wire: all three numbers, or none of it.
pub open spec fn vec3_in(j: JsonView) -> Option<Vec3> {
    match (bits_member(j, "x"@), bits_member(j, "y"@), bits_member(j, "z"@)) {
        (Some(x), Some(y), Some(z)) => Some(Vec3 { x, y, z }),
        _ => None,
    }
}

/// An orientation as it is written on the wire: all four numbers, or none of it.
pub open spec fn quat_in(j: JsonView) -> Option<Quat> {
    match (
        bits_member(j, "x"@),
        bits_member(j, "y"@),
        bits_member(j, "z"@),
        bits_member(j, "w"@),
    ) {
        (Some(x), Some(y), Some(z), Some(w)) => Some(Quat { x, y, z, w }),
        _ => None,
    }
}

/// The position under a key.
pub open spec fn vec3_member(j: JsonView, key: Seq<char>) -> Option<Vec3> {
    match json::member_of(j, key) {
        Some(c) => vec3_in(c),
        None => None,
    }
}

/// The orientation under a key.
pub open spec fn quat_member(j: JsonView, key: Seq<char>) -> Option<Quat> {
    match json::member_of(j, key) {
        Some(c) => quat_in(c),
        None => None,
    }
}

/// `got` is the wire position with each number brought to scale.
pub open spec fn scaled3<F: Fn(u64) -> u64>(f: F, wire: Option<Vec3>, got: Option<Vec3>) -> bool {
    match (wire, got) {
        (Some(w), Some(g)) => {
            &&& call_ensures(f, (w.x,), g.x)
            &&& call_ensures(f, (w.y,), g.y)
            &&& call_ensures(f, (w.z,), g.z)
        },
        (None, None) => true,
        _ => false,
    }
}

/// `got` is the wire orientation with each number brought to scale.
pub open spec fn scaled4<F: Fn(u64) -> u64>(f: F, wire: Option<Quat>, got: Option<Quat>) -> bool {
    match (wire, got) {
        (Some(w), Some(g)) => {
            &&& call_ensures(f, (w.x,), g.x)
            &&& call_ensures(f, (w.y,), g.y)
            &&& call_ensures(f, (w.z,), g.z)
            &&& call_ensures(f, (w.w,), g.w)
        },
        (None, None) => true,
        _ => false,
    }
}

/// Pairs of a text and a value, by what the texts say.
pub open spec fn pairs_view<T>(ps: Seq<(String, T)>) -> Seq<(Seq<char>, T)> {
    ps.map_values(|p: (String, T)| (p.0@, p.1))
}

/// The gain that a document names: an unsigned integer, of which the low 32 bits count.
pub open spec fn gain_in(j: JsonView) -> Option<u32> {
    match json::u64_of(j) {
        Some(n) => Some(n as u32),
        None => None,
    }
}

/// What `pick` reads under the given keys, in order; where it reads nothing the key is
/// passed over.
pub open spec fn picked<T>(
    keys: Seq<Seq<char>>,
    m: Members,
    pick: spec_fn(JsonView) -> Option<T>,
) -> Seq<(Seq<char>, T)>
    decreases keys.len(),
{
    if keys.len() == 0 {
        Seq::empty()
    } else {
        match pick(m[keys.last()]) {
            Some(v) => picked(keys.drop_last(), m, pick).push((keys.last(), v)),
            None => picked(keys.drop_last(), m, pick),
        }
    }
}

/// The members of the object under a key; none where there is no object.
pub open spec fn members_member(j: JsonView, key: Seq<char>) -> Option<Members> {
    match json::member_of(j, key) {
        Some(c) => json::members_of(c),
        None => None,
    }
}

/// The keys that one message may speak of: the first `MAX_PEER_ENTRIES` in order.
pub open spec fn capped_keys(m: Members) -> Seq<Seq<char>> {
    let keys = json::key_order(m);
    if keys.len() > MAX_PEER_ENTRIES {
        keys.take(MAX_PEER_ENTRIES as int)
    } else {
        keys
    }
}

/// The gain requests of a message.
pub open spec fn gains_in(j: JsonView) -> Seq<(Seq<char>, u32)> {
    match members_member(j, "ug"@) {
        Some(m) => picked(capped_keys(m), m, |c: JsonView| gain_in(c)),
        None => Seq::empty(),
    }
}

/// The mute requests of a message.
pub open spec fn mutes_in(j: JsonView) -> Seq<(Seq<char>, bool)> {
    match members_member(j, "m"@) {
        Some(m) => picked(capped_keys(m), m, |c: JsonView| json::bool_of(c)),
        None => Seq::empty(),
    }
}

/// The join announcement of a message. A connection that is not primary leaves out the
/// flag, so the key `j` alone announces the join.
pub open spec fn join_in(j: JsonView) -> Option<bool> {
    match json::member_of(j, "j"@) {
        Some(c) => Some(bool_member(c, "p"@) == Some(true)),
        None => None,
    }
}

impl ViewerDataMessage {
    /// The message is what the document says, with coordinates brought to scale by
    /// `metres`.
    pub open spec fn reads<F: Fn(u64) -> u64>(self, j: JsonView, metres: F) -> bool {
        &&& self.join == join_in(j)
        &&& scaled3(metres, vec3_member(j, "sp"@), self.avatar_pos)
        &&& scaled4(metres, quat_member(j, "sh"@), self.avatar_rot)
        &&& scaled3(metres, vec3_member(j, "lp"@), self.listener_pos)
        &&& scaled4(metres, quat_member(j, "lh"@), self.listener_rot)
        &&& pairs_view(self.user_gain@) == gains_in(j)
        &&& pairs_view(self.user_mute@) == mutes_in(j)
    }

    /// The message that says nothing.
    pub open spec fn is_blank(self) -> bool {
        &&& self.join is None
        &&& self.avatar_pos is None
        &&& self.avatar_rot is None
        &&& self.listener_pos is None
        &&& self.listener_rot is None
        &&& self.user_gain@.len() == 0
        &&& self.user_mute@.len() == 0
    }
}

impl Default for ViewerDataMessage {
    fn default() -> (r: Self)
        ensures
            r.is_blank(),
    {
        ViewerDataMessage {
            join: None,
            avatar_pos: None,
            avatar_rot: None,
            listener_pos: None,
            listener_rot: None,
            user_gain: Vec::new(),
            user_mute: Vec::new(),
        }
    }
}

fn get_bits(v: &Value, key: &str) -> (r: Option<u64>)
    ensures
        r == bits_member(json::json_of(*v), key@),
{
    match json::member(v, key) {
        Some(c) => json::number_as_bits(c),
        None => None,
    }
}

fn vec3<F: Fn(u64) -> u64>(v: &Value, key: &str, metres: &F) -> (r: Option<Vec3>)
    requires
        forall|x: u64| call_requires(*metres, (x,)),
    ensures
        scaled3(*metres, vec3_member(json::json_of(*v), key@), r),
{
    match json::member(v, key) {
        Some(c) => match (get_bits(c, "x"), get_bits(c, "y"), get_bits(c, "z")) {
            (Some(x), Some(y), Some(z)) => Some(
                Vec3 { x: metres(x), y: metres(y), z: metres(z) },
            ),
            _ => None,
        },
        None => None,
    }
}

fn quat<F: Fn(u64) -> u64>(v: &Value, key: &str, metres: &F) -> (r: Option<Quat>)
    requires
        forall|x: u64| call_requires(*metres, (x,)),
    ensures
        scaled4(*metres, quat_member(json::json_of(*v), key@), r),
{
    match json::member(v, key) {
        Some(c) => match (
            get_bits(c, "x"),
            get_bits(c, "y"),
            get_bits(c, "z"),
            get_bits(c, "w"),
        ) {
            (Some(x), Some(y), Some(z), Some(w)) => Some(
                Quat { x: metres(x), y: metres(y), z: metres(z), w: metres(w) },
            ),
            _ => None,
        },
        None => None,
    }
}

fn read_gain(v: &Value) -> (r: Option<u32>)
    ensures
        r == gain_in(json::json_of(*v)),
{
    match v.as_u64() {
        Some(n) => Some(n as u32),
        None => None,
    }
}

fn read_mute(v: &Value) -> (r: Option<bool>)
    ensures
        r == json::bool_of(json::json_of(*v)),
{
    v.as_bool()
}

/// Reads the first entries of an object, as many as a message may speak of.
fn read_entries<T: Copy, F: Fn(&Value) -> Option<T>>(
    m: &serde_json::Map<String, Value>,
    read: &F,
    Ghost(pick): Ghost<spec_fn(JsonView) -> Option<T>>,
) -> (r: Vec<(String, T)>)
    requires
        forall|v: &Value| call_requires(*read, (v,)),
        forall|v: &Value, t: Option<T>| #[trigger]
            call_ensures(*read, (v,), t) ==> t == pick(json::json_of(*v)),
    ensures
        pairs_view(r@) == picked(capped_keys(json::object_of(*m)), json::object_of(*m), pick),
{
    let list = json::entries(m);
    let ghost all = list@.map_values(|e: (&String, &Value)| e.0@);
    let ghost members = json::object_of(*m);
    proof {
        json::lemma_key_order(all, members);
    }
    let n: usize = if list.len() > MAX_PEER_ENTRIES {
        MAX_PEER_ENTRIES
    } else {
        list.len()
    };
    let mut out: Vec<(String, T)> = Vec::new();
    let mut i: usize = 0;
    assert(all.take(0) =~= Seq::<Seq<char>>::empty());
    assert(pairs_view(out@) =~= Seq::<(Seq<char>, T)>::empty());
    while i < n
        invariant
            i <= n <= list@.len(),
            all == list@.map_values(|e: (&String, &Value)| e.0@),
            forall|k: int|
                0 <= k < list@.len() ==> json::json_of(*(#[trigger] list@[k]).1)
                    == members[list@[k].0@],
            forall|v: &Value| call_requires(*read, (v,)),
            forall|v: &Value, t: Option<T>| #[trigger]
                call_ensures(*read, (v,), t) ==> t == pick(json::json_of(*v)),
            pairs_view(out@) == picked(all.take(i as int), members, pick),
        decreases n - i,
    {
        let ghost upto = all.take(i + 1);
        assert(upto.drop_last() =~= all.take(i as int));
        assert(upto.last() == list@[i as int].0@);
        let (key, val) = list[i];
        let ghost before = out@;
        if let Some(t) = read(val) {
            out.push((key.clone(), t));
            assert(pairs_view(out@) =~= pairs_view(before).push((key@, t)));
        }
        i += 1;
    }
    assert(all.take(n as int) =~= capped_keys(members));
    out
}

impl ViewerDataMessage {
    /// Reads a message out of its document. `metres` brings a wire number, which counts
    /// in hundredths, to scale.
    ///
    /// The gain and mute maps come from the viewer, so only so many entries of each are
    /// taken: a client adjusts the people it can hear, and no more.
    pub fn from_value<F: Fn(u64) -> u64>(v: &Value, metres: &F) -> (r: Self)
        requires
            forall|x: u64| call_requires(*metres, (x,)),
        ensures
            r.reads(json::json_of(*v), *metres),
    {
        let join = match json::member(v, "j") {
            Some(c) => match get_bool(c, "p") {
                Some(b) => Some(b),
                None => Some(false),
            },
            None => None,
        };
        let user_gain = match json::member(v, "ug") {
            Some(c) => match c.as_object() {
                Some(m) => read_entries(m, &read_gain, Ghost(|j: JsonView| gain_in(j))),
                None => Vec::new(),
            },
            None => Vec::new(),
        };
        let user_mute = match json::member(v, "m") {
            Some(c) => match c.as_object() {
                Some(m) => read_entries(m, &read_mute, Ghost(|j: JsonView| json::bool_of(j))),
                None => Vec::new(),
            },
            None => Vec::new(),
        };
        let r = ViewerDataMessage {
            join,
            avatar_pos: vec3(v, "sp", metres),
            avatar_rot: quat(v, "sh", metres),
            listener_pos: vec3(v, "lp", metres),
            listener_rot: quat(v, "lh", metres),
            user_gain,
            user_mute,
        };
        assert(pairs_view(r.user_gain@) =~= gains_in(json::json_of(*v)));
        assert(pairs_view(r.user_mute@) =~= mutes_in(json::json_of(*v)));
        r
    }

    /// Reads a message out of its text, or hands back the words of the JSON error.
    pub fn parse<F: Fn(u64) -> u64>(text: &str, metres: &F) -> (r: Result<Self, String>)
        requires
            forall|x: u64| call_requires(*metres, (x,)),
        ensures
            match json::json_from_str(text@) {
                Ok(j) => r is Ok && r->Ok_0.reads(j, *metres),
                Err(e) => r is Err && r->Err_0@ == e,
            },
    {
        match json::parse_text(text) {
            Ok(v) => Ok(Self::from_value(&v, metres)),
            Err(e) => Err(e),
        }
    }
}

proof fn lemma_picked<T>(
    keys: Seq<Seq<char>>,
    m: Members,
    pick: spec_fn(JsonView) -> Option<T>,
)
    ensures
        picked(keys, m, pick).len() <= keys.len(),
    decreases keys.len(),
{
    if keys.len() > 0 {
        lemma_picked(keys.drop_last(), m, pick);
    }
}

/// However large a document is, its message asks for so many gains and mutes and no more.
pub proof fn law_requests_are_capped(j: JsonView)
    ensures
        gains_in(j).len() <= MAX_PEER_ENTRIES,
        mutes_in(j).len() <= MAX_PEER_ENTRIES,
{
    if let Some(m) = members_member(j, "ug"@) {
        lemma_picked(capped_keys(m), m, |c: JsonView| gain_in(c));
    }
    if let Some(m) = members_member(j, "m"@) {
        lemma_picked(capped_keys(m), m, |c: JsonView| json::bool_of(c));
    }
}

// ---- roster ----

/// One participant in the roster that goes down the data channel.
#[derive(Clone, Copy, Debug, Default)]
pub struct RosterEntry {
    pub joined: bool,
    pub primary: bool,
    pub power: u8,
    pub speaking: bool,
    pub moderator_muted: bool,
}

/// How many units of a roster's power make the full level.
pub const LEVEL_SCALE_TO_WIRE: u32 = 128;

/// The level above which the viewer takes a participant to be speaking, in hundredths.
pub const SPEAKING_AUDIO_LEVEL_PERCENT: u32 = 30;

/// Whether a level, on the wire's scale, is that of someone speaking.
pub open spec fn is_speaking(level: u8) -> bool {
    level * 100 > SPEAKING_AUDIO_LEVEL_PERCENT * LEVEL_SCALE_TO_WIRE
}

/// Whether a level, on the wire's scale, is that of someone speaking. The threshold is
/// the viewer's own, so that the roster agrees with what it reads of its own voice.
pub fn speaking(level: u8) -> (r: bool)
    ensures
        r == is_speaking(level),
{
    level as u32 * 100 > SPEAKING_AUDIO_LEVEL_PERCENT * LEVEL_SCALE_TO_WIRE
}

/// A document of one truth value under one key.
pub open spec fn flag_document(key: Seq<char>, b: bool) -> JsonView {
    JsonView::Object(json::no_members().insert(key, JsonView::Bool(b)))
}

fn flag_value(key: &str, b: bool) -> (r: Value)
    ensures
        json::json_of(r) == flag_document(key@, b),
{
    let mut m = serde_json::Map::new();
    m.insert(key.to_owned(), json::bool_value(b));
    json::object_value(m)
}

/// The notice that an agent left.
pub open spec fn leave_document(agent: Seq<char>) -> JsonView {
    JsonView::Object(json::no_members().insert(agent, flag_document("l"@, true)))
}

/// The document of a departure notice.
pub fn leave_value(agent_id: &str) -> (r: Value)
    ensures
        json::json_of(r) == leave_document(agent_id@),
{
    let mut m = serde_json::Map::new();
    m.insert(agent_id.to_owned(), flag_value("l", true));
    json::object_value(m)
}

/// A departure notice. Nothing else ever takes a participant out of the viewer's list.
/// The viewer ignores a notice about itself, so it can go to the whole room.
pub fn leave_json(agent_id: &str) -> (r: String)
    ensures
        r@ == json::json_text(leave_document(agent_id@)),
{
    json::write_text(&leave_value(agent_id))
}

/// What the roster says of one participant.
pub open spec fn entry_document(e: RosterEntry) -> JsonView {
    let m = if e.joined {
        json::no_members().insert("j"@, flag_document("p"@, e.primary))
    } else {
        json::no_members()
    };
    JsonView::Object(
        m.insert("p"@, JsonView::Number(JsonNumber::PosInt(e.power as u64))).insert(
            "v"@,
            JsonView::Bool(e.speaking),
        ).insert("m"@, JsonView::Bool(e.moderator_muted)),
    )
}

fn entry_value(e: RosterEntry) -> (r: Value)
    ensures
        json::json_of(r) == entry_document(e),
{
    let mut m = serde_json::Map::new();
    if e.joined {
        m.insert("j".to_owned(), flag_value("p", e.primary));
    }
    m.insert("p".to_owned(), json::number_value(e.power as u64));
    m.insert("v".to_owned(), json::bool_value(e.speaking));
    m.insert("m".to_owned(), json::bool_value(e.moderator_muted));
    json::object_value(m)
}

/// Whether every field of an entry is the default: it has nothing to tell.
pub open spec fn is_idle(e: RosterEntry) -> bool {
    !e.joined && !e.primary && e.power == 0 && !e.speaking && !e.moderator_muted
}

/// A roster's members by agent, without the idle entries; of two entries for one agent the
/// later stands.
pub open spec fn roster_members(entries: Seq<(Seq<char>, RosterEntry)>) -> Members
    decreases entries.len(),
{
    if entries.len() == 0 {
        json::no_members()
    } else if is_idle(entries.last().1) {
        roster_members(entries.drop_last())
    } else {
        roster_members(entries.drop_last()).insert(
            entries.last().0,
            entry_document(entries.last().1),
        )
    }
}

/// A roster: one object whose keys are agents.
pub open spec fn roster_document(entries: Seq<(Seq<char>, RosterEntry)>) -> JsonView {
    JsonView::Object(roster_members(entries))
}

/// The document of a roster update, without the idle entries.
pub fn roster_value(entries: &Vec<(String, RosterEntry)>) -> (r: Value)
    ensures
        json::json_of(r) == roster_document(pairs_view(entries@)),
{
    let mut root = serde_json::Map::new();
    let mut i: usize = 0;
    let ghost all = pairs_view(entries@);
    assert(all.take(0) =~= Seq::<(Seq<char>, RosterEntry)>::empty());
    while i < entries.len()
        invariant
            i <= entries@.len(),
            all == pairs_view(entries@),
            json::object_of(root) == roster_members(all.take(i as int)),
        decreases entries@.len() - i,
    {
        assert(all.take(i + 1).drop_last() =~= all.take(i as int));
        let e = entries[i].1;
        if e.joined || e.primary || e.power != 0 || e.speaking || e.moderator_muted {
            root.insert(entries[i].0.clone(), entry_value(e));
        }
        i += 1;
    }
    assert(all.take(i as int) =~= all);
    json::object_value(root)
}

/// A roster update, as it goes down the data channel. Entries whose fields are all default
/// are skipped, so that idle participants cause no traffic.
pub fn roster_json(entries: &Vec<(String, RosterEntry)>) -> (r: String)
    ensures
        r@ == json::json_text(roster_document(pairs_view(entries@))),
{
    json::write_text(&roster_value(entries))
}

/// What an entry says is under the keys that the viewer reads, and it never says that the
/// participant left.
pub proof fn law_entry_has_the_viewers_keys(e: RosterEntry)
    ensures
        json::member_of(entry_document(e), "p"@) == Some(
            JsonView::Number(JsonNumber::PosInt(e.power as u64)),
        ),
        bool_member(entry_document(e), "v"@) == Some(e.speaking),
        bool_member(entry_document(e), "m"@) == Some(e.moderator_muted),
        e.joined ==> json::member_of(entry_document(e), "j"@) == Some(
            flag_document("p"@, e.primary),
        ),
        !e.joined ==> json::member_of(entry_document(e), "j"@) is None,
        json::member_of(entry_document(e), "l"@) is None,
{
    reveal_strlit("p");
    reveal_strlit("v");
    reveal_strlit("m");
    reveal_strlit("j");
    reveal_strlit("l");
    assert("p"@[0] == 'p' && "v"@[0] == 'v' && "m"@[0] == 'm');
    assert("j"@[0] == 'j' && "l"@[0] == 'l');
}

/// A roster speaks of exactly the agents of its entries that are not idle, and removes none
/// of them; only a departure notice does, and it speaks of nobody else.
pub proof fn law_only_a_notice_removes(
    entries: Seq<(Seq<char>, RosterEntry)>,
    agent: Seq<char>,
    gone: Seq<char>,
)
    ensures
        json::member_of(roster_document(entries), agent) is Some <==> exists|i: int|
            0 <= i < entries.len() && #[trigger] entries[i].0 == agent && !is_idle(entries[i].1),
        json::member_of(roster_document(entries), agent) matches Some(d) ==> json::member_of(
            d,
            "l"@,
        ) is None,
        json::member_of(leave_document(gone), agent) == if agent == gone {
            Some(flag_document("l"@, true))
        } else {
            None
        },
    decreases entries.len(),
{
    if entries.len() > 0 {
        let rest = entries.drop_last();
        law_only_a_notice_removes(rest, agent, gone);
        law_entry_has_the_viewers_keys(entries.last().1);
        assert(entries[entries.len() - 1] == entries.last());
        if exists|i: int|
            0 <= i < rest.len() && #[trigger] rest[i].0 == agent && !is_idle(rest[i].1) {
            let i = choose|i: int|
                0 <= i < rest.len() && #[trigger] rest[i].0 == agent && !is_idle(rest[i].1);
            assert(entries[i].0 == agent);
        }
        if exists|i: int|
            0 <= i < entries.len() && #[trigger] entries[i].0 == agent && !is_idle(
                entries[i].1,
            ) {
            let i = choose|i: int|
                0 <= i < entries.len() && #[trigger] entries[i].0 == agent && !is_idle(
                    entries[i].1,
                );
            if i < rest.len() {
                assert(rest[i].0 == agent);
            }
        }
    }
}

/// Idle entries cause no traffic: a roster of nothing else is the empty object.
pub proof fn law_idle_entries_are_skipped(entries: Seq<(Seq<char>, RosterEntry)>)
    requires
        forall|i: int| 0 <= i < entries.len() ==> is_idle((#[trigger] entries[i]).1),
    ensures
        roster_document(entries) == JsonView::Object(json::no_members()),
    decreases entries.len(),
{
    if entries.len() > 0 {
        let rest = entries.drop_last();
        assert forall|i: int| 0 <= i < rest.len() implies is_idle((#[trigger] rest[i]).1) by {
            assert(rest[i] == entries[i]);
        }
        assert(is_idle(entries[entries.len() - 1].1));
        law_idle_entries_are_skipped(rest);
    }
}

} // verus!
