use serde_json::Value;
use wolfvoice::mix::{RoomMix, TickGate};
use wolfvoice::proto::{RpcParams, METHOD_PROVISION, METHOD_SIGNALING};
use wolfvoice::room::{RoomKey, Session, SpatialState};
use wolfvoice::service::{
    bad_call_reply, body_fits, method_named, names_address, new_session_id, oversize_reply, route,
    rpc_reply, Next, Route, RpcMethod, Service, Start, Tick, MAX_RPC_BODY, MAX_SESSIONS,
};

const OFFER: &str = r#"{"jsep":{"type":"offer","sdp":"v=0"}}"#;

fn json(text: &str) -> Value {
    serde_json::from_str(text).unwrap()
}

fn call(request: &str, user: &str, scene: &str) -> RpcParams {
    RpcParams { request: json(request), user_id: user.to_owned(), scene: scene.to_owned() }
}

fn refusal(s: &mut Service<f32>, request: &str, user: &str) -> String {
    let p = s.provision(&call(request, user, "scene"));
    assert!(p.departure.is_none());
    match p.outcome {
        Err(e) => e,
        Ok(_) => panic!("{request} was not refused"),
    }
}

fn start(s: &mut Service<f32>, request: &str, user: &str, id: &str) -> Start<f32> {
    match s.provision_as(&call(request, user, "scene"), id.to_owned()).outcome {
        Ok(Next::Establish(start)) => start,
        _ => panic!("{request} did not start a session"),
    }
}

fn join(s: &mut Service<f32>, user: &str, id: &str) {
    let new = start(s, OFFER, user, id);
    s.established(new.session, Some("v=0".to_owned())).unwrap();
}

#[test]
fn a_connection_request_starts_a_session() {
    let mut s: Service<f32> = Service::new();
    let p = s.provision(&call(OFFER, "agent", "scene"));
    assert!(p.departure.is_none());
    let new = match p.outcome {
        Ok(Next::Establish(new)) => new,
        _ => panic!("no session was started"),
    };
    assert_eq!(new.port, 40000);
    assert_eq!(new.offer, "v=0");
    assert_eq!(new.session.agent_id, "agent");
    assert!(new.session.spatial);
    assert!(new.session.id.starts_with("wv-"));
    assert!(new.session.room.same(&RoomKey::Spatial { region: "scene".to_owned(), parcel: 0 }));
    // It is live once its connection is up.
    assert_eq!(s.registry.session_count(), 0);
    let id = new.session.id.clone();
    let v = s.established(new.session, Some("answer".to_owned())).unwrap();
    assert_eq!(v["viewer_session"], Value::String(id.clone()));
    assert_eq!(v["jsep"]["sdp"], Value::String("answer".to_owned()));
    assert_eq!(s.registry.session_count(), 1);
    assert_eq!(s.registry.find(&id), 0);
    assert_eq!(s.health(), r#"{"rooms":1,"service":"wolfvoice","sessions":1}"#);
}

#[test]
fn identity_is_never_the_viewers_to_say() {
    let mut s: Service<f32> = Service::new();
    let new = start(
        &mut s,
        r#"{"jsep":{"sdp":"v=0"},"userID":"mallory","user_id":"mallory","agent_id":"mallory"}"#,
        "agent",
        "x",
    );
    assert_eq!(new.session.agent_id, "agent");
}

#[test]
fn rooms_go_by_parcel_or_channel() {
    let mut s: Service<f32> = Service::new();
    let new = start(&mut s, r#"{"jsep":{"sdp":"v"},"parcel_local_id":9}"#, "a", "x");
    assert!(new.session.room.same(&RoomKey::Spatial { region: "scene".to_owned(), parcel: 9 }));
    let new = start(
        &mut s,
        r#"{"jsep":{"sdp":"v"},"channel_type":"multiagent","channel":"group"}"#,
        "a",
        "y",
    );
    assert!(new.session.room.same(&RoomKey::MultiAgent { channel: "group".to_owned() }));
    assert!(!new.session.spatial);
    assert_eq!(new.port, 40001);
}

#[test]
fn refusals_say_why() {
    let mut s: Service<f32> = Service::new();
    assert_eq!(refusal(&mut s, r#"{"logout":true}"#, "a"), "logout without viewer_session");
    assert_eq!(refusal(&mut s, "{}", "a"), "provision without a jsep offer");
    assert_eq!(refusal(&mut s, OFFER, ""), "region did not supply userID");
    assert_eq!(
        refusal(&mut s, r#"{"jsep":{"sdp":"v"},"channel_type":"multiagent"}"#, "a"),
        "multiagent request without a channel"
    );
    assert_eq!(
        refusal(&mut s, r#"{"voice_server_type":"vivox","logout":true}"#, "a"),
        r#"voice_server_type is "vivox", not webrtc"#
    );
    assert_eq!(s.registry.session_count(), 0);
    let new = start(&mut s, OFFER, "a", "x");
    assert_eq!(new.port, 40000);
    assert_eq!(s.established(new.session, None).unwrap_err(), "no answer sdp");
    assert_eq!(s.registry.session_count(), 0);
}

#[test]
fn the_service_refuses_at_capacity() {
    let mut s: Service<f32> = Service::new();
    for i in 0..MAX_SESSIONS {
        join(&mut s, &format!("agent-{i}"), &format!("id-{i}"));
    }
    assert_eq!(s.registry.session_count(), 900);
    assert_eq!(refusal(&mut s, OFFER, "late"), "voice service is at capacity");
    // Renegotiation makes room for itself.
    let p = s.provision(&call(
        r#"{"jsep":{"sdp":"v"},"viewer_session":"id-5"}"#,
        "agent-5",
        "scene",
    ));
    assert!(p.departure.is_some());
    assert!(matches!(p.outcome, Ok(Next::Establish(_))));
    assert_eq!(s.registry.session_count(), 899);
}

#[test]
fn a_logout_tells_the_rest_of_the_room() {
    let mut s: Service<f32> = Service::new();
    join(&mut s, "a", "ida");
    join(&mut s, "b", "idb");
    join(&mut s, "c", "idc");
    let p = s.provision(&call(r#"{"logout":true,"viewer_session":"idb"}"#, "b", "scene"));
    match p.outcome {
        Ok(Next::Reply(v)) => assert_eq!(v.to_string(), r#"{"viewer_session":"idb"}"#),
        _ => panic!("a logout is answered at once"),
    }
    let d = p.departure.unwrap();
    assert_eq!(d.session, "idb");
    let notice = d.notice.unwrap();
    assert_eq!(notice.text, r#"{"b":{"l":true}}"#);
    assert_eq!(notice.recipients, vec!["ida", "idc"]);
    assert_eq!(s.registry.session_count(), 2);
    // A second logout finds nothing to do, and is answered all the same.
    let p = s.provision(&call(r#"{"logout":true,"viewer_session":"idb"}"#, "b", "scene"));
    assert!(p.departure.is_none());
    assert!(matches!(p.outcome, Ok(Next::Reply(_))));
}

#[test]
fn an_agent_who_stays_by_another_session_did_not_leave() {
    let mut s: Service<f32> = Service::new();
    join(&mut s, "a", "a1");
    join(&mut s, "a", "a2");
    join(&mut s, "b", "b1");
    let d = s.drop_session("a1").unwrap();
    assert!(d.notice.is_none());
    let d = s.drop_session("a2").unwrap();
    assert_eq!(d.notice.unwrap().recipients, vec!["b1"]);
    assert!(s.drop_session("a2").is_none());
}

#[test]
fn sessions_whose_transport_is_over_are_reaped() {
    let mut s: Service<f32> = Service::new();
    join(&mut s, "a", "ida");
    join(&mut s, "b", "idb");
    join(&mut s, "c", "idc");
    assert!(s.reap().is_empty());
    s.registry.sessions[0].closed = true;
    s.registry.sessions[2].closed = true;
    let gone = s.reap();
    assert_eq!(gone.len(), 2);
    assert_eq!(gone[0].session, "ida");
    assert_eq!(gone[0].notice.as_ref().unwrap().recipients, vec!["idb", "idc"]);
    assert_eq!(gone[1].session, "idc");
    assert_eq!(gone[1].notice.as_ref().unwrap().recipients, vec!["idb"]);
    assert_eq!(s.registry.session_count(), 1);
    assert_eq!(s.registry.sessions[0].id, "idb");
}

#[test]
fn candidates_go_to_a_live_session() {
    let mut s: Service<f32> = Service::new();
    join(&mut s, "a", "ida");
    let t = s
        .signaling(&call(
            r#"{"viewer_session":"ida","candidates":[{"candidate":"c"}]}"#,
            "a",
            "scene",
        ))
        .ok()
        .unwrap();
    assert_eq!(t.session, "ida");
    assert_eq!(t.candidates.len(), 1);
    assert!(!t.completed);
    assert_eq!(t.reply.to_string(), r#"{"viewer_session":"ida"}"#);
    let e = s.signaling(&call(r#"{"viewer_session":"idb"}"#, "a", "scene")).err().unwrap();
    assert_eq!(e, "unknown viewer_session idb");
    let e = s.signaling(&call("{}", "a", "scene")).err().unwrap();
    assert_eq!(e, "signaling without viewer_session");
}

#[test]
fn session_ids_are_fresh_and_well_formed() {
    let a = new_session_id();
    let b = new_session_id();
    assert_ne!(a, b);
    for id in [a, b] {
        assert_eq!(id.len(), 39);
        assert!(id.starts_with("wv-"));
        for (i, c) in id[3..].chars().enumerate() {
            if [8, 13, 18, 23].contains(&i) {
                assert_eq!(c, '-');
            } else {
                assert!(c.is_ascii_digit() || ('a'..='f').contains(&c));
            }
        }
    }
}

#[test]
fn methods_are_known_by_name() {
    assert_eq!(method_named(METHOD_PROVISION), Ok(RpcMethod::Provision));
    assert_eq!(method_named(METHOD_SIGNALING), Ok(RpcMethod::Signaling));
    assert_eq!(method_named("provision_voice_account_request"), Ok(RpcMethod::Provision));
    assert_eq!(method_named("voice_signaling_request"), Ok(RpcMethod::Signaling));
    assert_eq!(method_named("x\"y"), Err(r#"unknown method "x\"y""#.to_owned()));
}

#[test]
fn replies_are_written_out() {
    assert_eq!(
        rpc_reply(&json("1"), Ok(json("{}"))),
        r#"{"id":1,"jsonrpc":"2.0","result":{}}"#
    );
    assert_eq!(
        rpc_reply(&json("null"), Err("no".to_owned())),
        r#"{"error":"no","id":null,"jsonrpc":"2.0"}"#
    );
    assert_eq!(
        bad_call_reply("why"),
        r#"{"error":"bad json-rpc: why","id":null,"jsonrpc":"2.0"}"#
    );
    assert_eq!(
        oversize_reply(),
        r#"{"error":"request body too large","id":null,"jsonrpc":"2.0"}"#
    );
}

#[test]
fn bodies_are_read_up_to_their_limit() {
    assert_eq!(MAX_RPC_BODY, 256 * 1024);
    assert!(body_fits(0, MAX_RPC_BODY));
    assert!(body_fits(MAX_RPC_BODY, 0));
    assert!(!body_fits(1, MAX_RPC_BODY));
    assert!(!body_fits(usize::MAX, usize::MAX));
}

#[test]
fn requests_are_routed_by_method() {
    assert_eq!(route("GET"), Route::Health);
    assert_eq!(route("POST"), Route::Call);
    assert_eq!(route("PUT"), Route::NotAllowed);
    assert_eq!(route("get"), Route::NotAllowed);
}

#[test]
fn an_empty_service_is_healthy() {
    let s: Service<f32> = Service::new();
    assert_eq!(s.health(), r#"{"rooms":0,"service":"wolfvoice","sessions":0}"#);
}

#[test]
fn an_address_is_more_than_white_space() {
    assert!(names_address("203.0.113.10"));
    assert!(names_address("  x "));
    assert!(!names_address(""));
    assert!(!names_address(" \t\n"));
}

#[test]
fn an_empty_answer_counts_as_none() {
    let mut s: Service<f32> = Service::new();
    let new = start(&mut s, OFFER, "a", "x");
    assert_eq!(s.established(new.session, Some(String::new())).unwrap_err(), "no answer sdp");
    assert_eq!(s.registry.session_count(), 0);
    let new = start(&mut s, OFFER, "a", "x");
    let v = s.established(new.session, Some(" ".to_owned())).unwrap();
    assert_eq!(v["jsep"]["sdp"], Value::String(" ".to_owned()));
}

#[test]
fn sessions_get_ports_of_their_own() {
    let mut s: Service<f32> = Service::new();
    let mut ports = Vec::new();
    for i in 0..1001 {
        // What starts nothing takes no port.
        let _ = s.provision(&call("{}", "a", "scene"));
        ports.push(start(&mut s, OFFER, "a", &format!("id-{i}")).port);
    }
    let mut round = ports[..1000].to_vec();
    round.sort();
    round.dedup();
    assert_eq!(round.len(), 1000);
    assert_eq!(ports[1000], ports[0]);
}

#[test]
fn a_session_of_an_id_that_is_live_takes_its_place() {
    let mut s: Service<f32> = Service::new();
    join(&mut s, "a", "same");
    join(&mut s, "b", "same");
    assert_eq!(s.registry.session_count(), 1);
    assert_eq!(s.registry.sessions[0].agent_id, "b");
    let _: &Session<f32> = &s.registry.sessions[0];
}

fn some_level(frame: &Vec<f32>) -> u8 {
    frame[0] as u8
}

fn nowhere_near(_speaker: SpatialState, _listener: SpatialState) -> Option<u8> {
    None
}

fn tick_of(
    s: &mut Service<f32>,
    gate: &mut TickGate,
    unfinished: usize,
    since: u64,
) -> Tick<f32, u8> {
    s.tick(gate, unfinished, since, &some_level, &nowhere_near)
}

fn crowd() -> Service<f32> {
    let mut s: Service<f32> = Service::new();
    join(&mut s, "a", "ida");
    let group = r#"{"jsep":{"sdp":"v"},"channel_type":"multiagent","channel":"group"}"#;
    for (user, id) in [("b", "idb"), ("c", "idc"), ("d", "idd")] {
        let new = start(&mut s, group, user, id);
        s.established(new.session, Some("v".to_owned())).unwrap();
    }
    for (i, x) in s.registry.sessions.iter_mut().enumerate() {
        x.push_frame(vec![10.0 + i as f32; 960]);
        x.push_frame(vec![20.0 + i as f32; 960]);
    }
    s
}

#[test]
fn a_tick_reaps_and_then_serves_every_room() {
    let mut s = crowd();
    let mut gate = TickGate::new();
    s.registry.sessions[1].closed = true;
    let (departures, rooms) = match tick_of(&mut s, &mut gate, 0, 99_999) {
        Tick::Done { departures, rooms } => (departures, rooms),
        Tick::Skipped(_) => panic!("nothing was unfinished"),
    };
    assert_eq!(departures.len(), 1);
    assert_eq!(departures[0].session, "idb");
    assert_eq!(rooms.len(), 2);
    // The lone member of the region is drained.
    assert!(rooms[0].is_none());
    assert_eq!(s.registry.sessions[0].inbound.len(), 0);
    assert_eq!(s.registry.sessions[0].level, 0);
    // The two that are left of the group are mixed, once.
    let mix: &RoomMix<f32, u8> = rooms[1].as_ref().unwrap();
    assert_eq!(mix.levels, vec![12, 13]);
    assert_eq!(mix.outputs[0].session, "idc");
    assert_eq!(mix.outputs[0].contributions.len(), 1);
    assert_eq!(s.registry.sessions[1].inbound.len(), 1);
    assert_eq!(s.registry.sessions[2].inbound.len(), 1);
}

#[test]
fn a_tick_is_skipped_whole() {
    let mut s = crowd();
    let mut gate = TickGate::new();
    s.registry.sessions[1].closed = true;
    assert!(matches!(tick_of(&mut s, &mut gate, 1, 0), Tick::Skipped(None)));
    assert!(matches!(tick_of(&mut s, &mut gate, 3, 9_999), Tick::Skipped(None)));
    assert!(matches!(tick_of(&mut s, &mut gate, 1, 10_000), Tick::Skipped(Some(3))));
    assert!(matches!(tick_of(&mut s, &mut gate, 1, 0), Tick::Skipped(None)));
    assert_eq!(gate.skipped, 1);
    assert_eq!(s.registry.session_count(), 4);
    assert!(s.registry.sessions.iter().all(|x| x.inbound.len() == 2));
}
