use serde_json::Value;
use wolfvoice::proto::{
    leave_json, provision_answer, roster_json, rpc_err, rpc_ok, session_reply, speaking,
    ChannelType, ProvisionRequest, RosterEntry, SignalingRequest, Vec3, ViewerDataMessage,
};

fn metres(x: u64) -> u64 {
    (f64::from_bits(x) / 100.0).to_bits()
}

fn json(text: &str) -> Value {
    serde_json::from_str(text).unwrap()
}

fn read(text: &str) -> ViewerDataMessage {
    ViewerDataMessage::parse(text, &metres).unwrap()
}

#[test]
fn parses_position_update_as_metres() {
    // 12345 cm -> 123.45 m
    let m = read(r#"{"sp":{"x":12345,"y":-200,"z":2100},"lh":{"x":0,"y":0,"z":0,"w":100}}"#);
    let p = m.avatar_pos.unwrap();
    assert_eq!(
        [f64::from_bits(p.x), f64::from_bits(p.y), f64::from_bits(p.z)],
        [123.45, -2.0, 21.0]
    );
    let q = m.listener_rot.unwrap();
    assert_eq!(
        [f64::from_bits(q.x), f64::from_bits(q.y), f64::from_bits(q.z), f64::from_bits(q.w)],
        [0.0, 0.0, 0.0, 1.0]
    );
    assert!(m.listener_pos.is_none() && m.avatar_rot.is_none());
}

#[test]
fn parses_join_without_primary_flag() {
    // The flag is left out entirely when the connection is not primary.
    assert_eq!(read(r#"{"j":{}}"#).join, Some(false));
    assert_eq!(read(r#"{"j":{"p":true}}"#).join, Some(true));
}

#[test]
fn parses_gain_and_mute_maps() {
    let m = read(
        r#"{"ug":{"11111111-1111-1111-1111-111111111111":110},
            "m":{"22222222-2222-2222-2222-222222222222":true}}"#,
    );
    assert_eq!(m.user_gain[0].1, 110);
    assert!(m.user_mute[0].1);
}

#[test]
fn provision_parse_rejects_non_webrtc() {
    let v = json(r#"{"voice_server_type":"vivox"}"#);
    assert!(ProvisionRequest::parse(&v).is_err());
}

#[test]
fn provision_parse_reads_offer_and_channel() {
    let v = json(
        r#"{"jsep":{"type":"offer","sdp":"v=0"},"channel_type":"local",
            "parcel_local_id":7,"voice_server_type":"webrtc"}"#,
    );
    let p = ProvisionRequest::parse(&v).unwrap();
    assert_eq!(p.offer_sdp.as_deref(), Some("v=0"));
    assert_eq!(p.channel_type, Some(ChannelType::Local));
    assert_eq!(p.parcel_local_id, 7);
    assert!(!p.logout);
}

#[test]
fn signaling_parse_handles_both_shapes() {
    let v = json(
        r#"{"candidates":[{"candidate":"candidate:1 1 udp 1 1.2.3.4 5 typ host",
            "sdpMid":"0","sdpMLineIndex":0}],"viewer_session":"s"}"#,
    );
    let s = SignalingRequest::parse(&v);
    assert_eq!(s.candidates.len(), 1);
    assert!(!s.completed);

    let s = SignalingRequest::parse(&json(r#"{"candidate":{"completed":true}}"#));
    assert!(s.completed);
    assert!(s.candidates.is_empty());
}

#[test]
fn leave_notice_uses_the_l_flag() {
    let s = leave_json("cccccccc-0000-0000-0000-000000000000");
    assert!(s.contains(r#""l":true"#), "leave must set l=true: {s}");
    assert!(s.contains("cccccccc-0000-0000-0000-000000000000"));
}

#[test]
fn roster_uses_viewer_field_names() {
    let e = RosterEntry {
        joined: true,
        primary: true,
        power: 64,
        speaking: true,
        moderator_muted: false,
    };
    let s = roster_json(&vec![("aaaaaaaa-0000-0000-0000-000000000000".to_owned(), e)]);
    assert!(s.contains(r#""j":{"p":true}"#));
    assert!(s.contains(r#""p":64"#));
    assert!(s.contains(r#""v":true"#));
}

#[test]
fn of_two_entries_for_one_agent_the_later_stands() {
    let mut a = RosterEntry::default();
    a.power = 1;
    let mut b = RosterEntry::default();
    b.power = 2;
    let s = roster_json(&vec![("x".to_owned(), a), ("x".to_owned(), b)]);
    assert_eq!(s, r#"{"x":{"m":false,"p":2,"v":false}}"#);
    assert_eq!(roster_json(&vec![]), "{}");
}

#[test]
fn idle_entries_are_skipped() {
    let idle = RosterEntry::default();
    assert_eq!(roster_json(&vec![("a".to_owned(), idle)]), "{}");
    let mut primary = RosterEntry::default();
    primary.primary = true;
    let mut muted = RosterEntry::default();
    muted.moderator_muted = true;
    let s = roster_json(&vec![
        ("a".to_owned(), idle),
        ("b".to_owned(), primary),
        ("b".to_owned(), idle),
        ("c".to_owned(), muted),
    ]);
    assert_eq!(s, r#"{"b":{"m":false,"p":0,"v":false},"c":{"m":true,"p":0,"v":false}}"#);
}

#[test]
fn replies_carry_the_id_of_the_call() {
    let id = json("7");
    assert_eq!(
        rpc_ok(&id, json(r#"{"a":[1,-2,null]}"#)).to_string(),
        r#"{"id":7,"jsonrpc":"2.0","result":{"a":[1,-2,null]}}"#
    );
    assert_eq!(
        rpc_err(&json(r#""x""#), "no \"luck\"").to_string(),
        r#"{"error":"no \"luck\"","id":"x","jsonrpc":"2.0"}"#
    );
}

#[test]
fn answers_name_the_session_and_the_sdp() {
    assert_eq!(
        provision_answer("wv-1", "v=0\r\n").to_string(),
        r#"{"jsep":{"sdp":"v=0\r\n","type":"answer"},"viewer_session":"wv-1"}"#
    );
    assert_eq!(session_reply("wv-1").to_string(), r#"{"viewer_session":"wv-1"}"#);
}

#[test]
fn channel_types_are_exact() {
    assert_eq!(ChannelType::parse("local"), Some(ChannelType::Local));
    assert_eq!(ChannelType::parse("multiagent"), Some(ChannelType::MultiAgent));
    assert_eq!(ChannelType::parse("Local"), None);
    assert_eq!(ChannelType::parse(""), None);
}

#[test]
fn provision_errors_say_why() {
    let e = ProvisionRequest::parse(&json(r#"{"voice_server_type":"Vi\"vox"}"#)).unwrap_err();
    assert_eq!(e, r#"voice_server_type is "Vi\"vox", not webrtc"#);
    let e = ProvisionRequest::parse(&json(r#"{"jsep":{"type":"answer","sdp":"v"}}"#)).unwrap_err();
    assert_eq!(e, r#"jsep type is "answer", expected offer"#);
}

#[test]
fn provision_takes_what_is_missing_for_absent() {
    let p = ProvisionRequest::parse(&json(r#"{"voice_server_type":"WebRTC"}"#)).unwrap();
    assert!(!p.logout && p.viewer_session.is_none() && p.offer_sdp.is_none());
    assert!(p.channel_type.is_none() && p.channel.is_none());
    assert_eq!(p.parcel_local_id, 0);
    // A jsep without a type is taken for an offer; an empty offer is none.
    let p = ProvisionRequest::parse(&json(r#"{"jsep":{"sdp":"v=0"},"logout":true}"#)).unwrap();
    assert_eq!(p.offer_sdp.as_deref(), Some("v=0"));
    assert!(p.logout);
    let p = ProvisionRequest::parse(&json(r#"{"jsep":{"type":"","sdp":""},"channel":""}"#)).unwrap();
    assert!(p.offer_sdp.is_none() && p.channel.is_none());
    // What is of the wrong kind is absent too.
    let p = ProvisionRequest::parse(&json(
        r#"{"logout":1,"viewer_session":2,"channel_type":"x","parcel_local_id":1.5,"jsep":"x"}"#,
    ))
    .unwrap();
    assert!(!p.logout && p.viewer_session.is_none() && p.channel_type.is_none());
    assert_eq!(p.parcel_local_id, 0);
    let p = ProvisionRequest::parse(&json(r#"{"parcel_local_id":-3}"#)).unwrap();
    assert_eq!(p.parcel_local_id, -3);
    assert!(ProvisionRequest::parse(&json("[1]")).is_ok());
}

#[test]
fn signaling_reads_every_field() {
    let s = SignalingRequest::parse(&json(
        r#"{"candidates":[{"candidate":"c1","sdpMid":"0","sdpMLineIndex":3},
            {"candidate":""},{"x":1},{"candidate":"c2"}],"viewer_session":"s"}"#,
    ));
    assert_eq!(s.viewer_session.as_deref(), Some("s"));
    assert_eq!(s.candidates.len(), 2);
    assert_eq!(s.candidates[0].candidate, "c1");
    assert_eq!(s.candidates[0].sdp_mid.as_deref(), Some("0"));
    assert_eq!(s.candidates[0].sdp_mline_index, Some(3));
    assert_eq!(s.candidates[1].candidate, "c2");
    assert!(s.candidates[1].sdp_mid.is_none() && s.candidates[1].sdp_mline_index.is_none());
}

#[test]
fn half_a_position_is_none() {
    let m = read(r#"{"sp":{"x":1,"y":2},"lp":{"x":1,"y":2,"z":"3"},"sh":{"x":1,"y":2,"z":3}}"#);
    assert!(m.avatar_pos.is_none() && m.listener_pos.is_none() && m.avatar_rot.is_none());
    // Integers of any size and fractions are numbers alike.
    let m = read(r#"{"lp":{"x":1.5,"y":-18446744073709551616,"z":18446744073709551615}}"#);
    let p = m.listener_pos.unwrap();
    let want = |x: f64| (x / 100.0).to_bits();
    assert_eq!(
        p,
        Vec3 {
            x: want(1.5),
            y: want(-18446744073709551616.0),
            z: want(18446744073709551615u64 as f64)
        }
    );
}

#[test]
fn requests_are_capped_in_the_order_of_keys() {
    let mut text = String::from("{\"ug\":{");
    for i in (0..300).rev() {
        text.push_str(&format!("\"{i:04}\":{i}"));
        text.push(if i == 0 { '}' } else { ',' });
    }
    text.push('}');
    let m = read(&text);
    assert_eq!(m.user_gain.len(), 256);
    assert_eq!(m.user_gain[0], ("0000".to_owned(), 0));
    assert_eq!(m.user_gain[255], ("0255".to_owned(), 255));
    // What is no count is passed over, but counts towards the cap.
    let m = read(r#"{"ug":{"a":1.5,"b":-1,"c":4294967296,"d":5},"m":{"a":0,"b":false}}"#);
    assert_eq!(m.user_gain, vec![("c".to_owned(), 0), ("d".to_owned(), 5)]);
    assert_eq!(m.user_mute, vec![("b".to_owned(), false)]);
}

#[test]
fn what_is_no_json_is_an_error() {
    let e = ViewerDataMessage::parse("{", &metres).err().unwrap();
    assert!(e.starts_with("EOF while parsing"), "{e}");
    let m = read("[]");
    assert!(m.join.is_none() && m.user_gain.is_empty());
}

#[test]
fn speaking_starts_above_three_tenths() {
    for level in 0..=255u8 {
        assert_eq!(speaking(level), level as f32 / 128.0 > 0.30, "{level}");
    }
    assert!(!speaking(38));
    assert!(speaking(39));
}

#[test]
fn only_a_notice_removes_a_participant() {
    let mut e = RosterEntry::default();
    e.joined = true;
    let roster = json(&roster_json(&vec![("x".to_owned(), e)]));
    assert!(roster["x"].get("l").is_none());
    let notice = json(&leave_json("x"));
    assert_eq!(notice["x"]["l"], Value::Bool(true));
    assert_eq!(notice.as_object().unwrap().len(), 1);
}
