use wolfvoice::mix::{build_roster, mix_room, RoomMix, TickGate, TickStep};
use wolfvoice::mixer::{split_packet, Placement, FRAME_SAMPLES, MAX_DECODE_SAMPLES};
use wolfvoice::proto::{Quat, Vec3, ViewerDataMessage};
use wolfvoice::registry::Registry;
use wolfvoice::room::{RoomKey, Session, SpatialState, JITTER_MAX_FRAMES};

const REF_DISTANCE: f64 = 10.0;
const MAX_DISTANCE: f64 = 60.0;
const MAX_AUDIO_DIST: f64 = 50.0;

type Heard = (f32, (f32, f32));

fn point(p: [f64; 3]) -> Vec3 {
    Vec3 { x: p[0].to_bits(), y: p[1].to_bits(), z: p[2].to_bits() }
}

fn metres_of(v: Vec3) -> [f64; 3] {
    [f64::from_bits(v.x), f64::from_bits(v.y), f64::from_bits(v.z)]
}

fn tether(ear: Vec3, avatar: Vec3) -> Vec3 {
    let (l, a) = (metres_of(ear), metres_of(avatar));
    let off = [l[0] - a[0], l[1] - a[1], l[2] - a[2]];
    let d = (off[0] * off[0] + off[1] * off[1] + off[2] * off[2]).sqrt();
    if d <= MAX_AUDIO_DIST {
        return ear;
    }
    let k = MAX_AUDIO_DIST / d;
    point([a[0] + off[0] * k, a[1] + off[1] * k, a[2] + off[2] * k])
}

/// The gain of a distance, and a pan for a listener who faces north.
fn place(speaker: SpatialState, listener: SpatialState) -> Option<Heard> {
    let (s, l) = (metres_of(speaker.avatar_pos), metres_of(listener.listener_pos));
    let rel = [s[0] - l[0], s[1] - l[1], s[2] - l[2]];
    let d = (rel[0] * rel[0] + rel[1] * rel[1] + rel[2] * rel[2]).sqrt();
    let gain = if d <= REF_DISTANCE {
        1.0
    } else if d >= MAX_DISTANCE {
        return None;
    } else {
        1.0 - (d - REF_DISTANCE) / (MAX_DISTANCE - REF_DISTANCE)
    };
    let horiz = (rel[0] * rel[0] + rel[1] * rel[1]).sqrt();
    let lateral = if horiz < 1e-6 { 0.0 } else { rel[0] / horiz };
    let angle = (lateral + 1.0) * std::f64::consts::FRAC_PI_4;
    Some((gain as f32, (angle.cos() as f32, angle.sin() as f32)))
}

fn level_of(frame: &Vec<f32>) -> u8 {
    if frame.is_empty() {
        return 0;
    }
    let sum: f32 = frame.iter().map(|s| s * s).sum();
    let rms = (sum / frame.len() as f32).sqrt();
    ((rms * 4.0).min(1.0) * 128.0).min(127.0) as u8
}

fn region() -> RoomKey {
    RoomKey::Spatial { region: "region".to_owned(), parcel: 0 }
}

fn session(id: &str, agent: &str, pos: [f64; 3]) -> Session<f32> {
    let mut s = Session::new(id.to_owned(), agent.to_owned(), region(), true);
    s.state.avatar_pos = point(pos);
    s.state.listener_pos = point(pos);
    s.state.known = true;
    s
}

fn loud(s: &mut Session<f32>) {
    s.push_frame(vec![0.4f32; FRAME_SAMPLES]);
}

fn mix(sessions: &mut Vec<Session<f32>>) -> RoomMix<f32, Heard> {
    let members: Vec<usize> = (0..sessions.len()).collect();
    mix_room(sessions, &members, &level_of, &place)
}

fn of(mix: &RoomMix<f32, Heard>, id: &str) -> usize {
    mix.outputs.iter().position(|o| o.session == id).unwrap()
}

fn stereo(mix: &RoomMix<f32, Heard>, id: &str) -> Vec<f32> {
    let mut out = vec![0.0f32; FRAME_SAMPLES * 2];
    for c in &mix.outputs[of(mix, id)].contributions {
        let (near, pan) = match c.placement {
            Placement::Centre => {
                (1.0, (std::f32::consts::FRAC_1_SQRT_2, std::f32::consts::FRAC_1_SQRT_2))
            }
            Placement::At(p) => p,
        };
        let gain = c.gain as f32 / 220.0 * near;
        for (i, s) in mix.frames[c.speaker].as_ref().unwrap().iter().enumerate() {
            out[i * 2] += s * gain * pan.0;
            out[i * 2 + 1] += s * gain * pan.1;
        }
    }
    out
}

fn blank() -> ViewerDataMessage {
    ViewerDataMessage::default()
}

#[test]
fn listener_never_hears_themselves() {
    let mut all = vec![session("a", "agent-a", [0.0, 0.0, 0.0])];
    loud(&mut all[0]);
    let out = mix(&mut all);
    assert_eq!(out.outputs.len(), 1);
    assert!(
        stereo(&out, "a").iter().all(|s| *s == 0.0),
        "a lone speaker must hear silence, not their own voice"
    );
}

#[test]
fn nearby_speaker_is_audible_and_distant_one_is_not() {
    let mut all = vec![
        session("a", "agent-a", [0.0, 0.0, 0.0]),
        session("b", "agent-b", [5.0, 0.0, 0.0]),
    ];
    loud(&mut all[1]);
    let out = mix(&mut all);
    assert!(
        stereo(&out, "a").iter().any(|s| s.abs() > 0.01),
        "a speaker 5 m away must be audible"
    );

    let mut all = vec![
        session("a", "agent-a", [0.0, 0.0, 0.0]),
        session("c", "agent-c", [500.0, 0.0, 0.0]),
    ];
    loud(&mut all[1]);
    let out = mix(&mut all);
    assert!(
        stereo(&out, "a").iter().all(|s| s.abs() < 1e-6),
        "a speaker 500 m away must be inaudible"
    );
}

#[test]
fn each_listener_gets_its_own_mix() {
    let mut all = vec![
        session("a", "agent-a", [0.0, 0.0, 0.0]),
        session("b", "agent-b", [5.0, 0.0, 0.0]),
    ];
    loud(&mut all[0]);
    loud(&mut all[1]);
    let out = mix(&mut all);
    let for_a = stereo(&out, "a");
    let for_b = stereo(&out, "b");

    let a_left: f32 = for_a.iter().step_by(2).map(|s| s.abs()).sum();
    let a_right: f32 = for_a.iter().skip(1).step_by(2).map(|s| s.abs()).sum();
    assert!(a_right > a_left, "A should hear B to the right");

    let b_left: f32 = for_b.iter().step_by(2).map(|s| s.abs()).sum();
    let b_right: f32 = for_b.iter().skip(1).step_by(2).map(|s| s.abs()).sum();
    assert!(b_left > b_right, "B should hear A to the left");
}

#[test]
fn per_listener_mute_and_gain_are_respected() {
    let mut all = vec![
        session("a", "agent-a", [0.0, 0.0, 0.0]),
        session("b", "agent-b", [1.0, 0.0, 0.0]),
    ];
    all[0].mutes.insert("agent-b".to_owned(), true);
    loud(&mut all[1]);
    let out = mix(&mut all);
    assert!(
        stereo(&out, "a").iter().all(|s| s.abs() < 1e-6),
        "a muted speaker must be silent for that listener only"
    );

    let mut all = vec![
        session("c", "agent-c", [0.0, 0.0, 0.0]),
        session("d", "agent-d", [0.0, 0.0, 0.0]),
        session("b", "agent-b", [1.0, 0.0, 0.0]),
    ];
    // Half of unity, in the viewer's units.
    all[0].gains.insert("agent-b".to_owned(), 110);
    loud(&mut all[2]);
    let out = mix(&mut all);
    let for_c: f32 = stereo(&out, "c").iter().map(|s| s.abs()).sum();
    let for_d: f32 = stereo(&out, "d").iter().map(|s| s.abs()).sum();
    assert!(for_d > for_c * 1.5, "half gain should be clearly quieter: c={for_c} d={for_d}");
}

#[test]
fn position_unknown_speakers_are_not_placed_at_the_origin() {
    let mut nowhere = Session::new("g".to_owned(), "agent-g".to_owned(), region(), true);
    nowhere.push_frame(vec![0.9f32; FRAME_SAMPLES]);
    let mut all = vec![session("a", "agent-a", [0.0, 0.0, 0.0]), nowhere];
    let out = mix(&mut all);
    assert!(
        stereo(&out, "a").iter().all(|s| s.abs() < 1e-6),
        "a speaker with no reported position must not be audible at <0,0,0>"
    );
}

#[test]
fn roster_announces_a_join_once() {
    let mut all = vec![
        session("a", "agent-a", [0.0, 0.0, 0.0]),
        session("b", "agent-b", [1.0, 0.0, 0.0]),
    ];
    loud(&mut all[1]);
    let out = mix(&mut all);
    let r = out.outputs[of(&out, "a")].roster.clone().unwrap();
    assert!(r.contains("agent-b"), "first tick announces the join: {r}");
    assert!(r.contains(r#""j""#));

    loud(&mut all[1]);
    let out = mix(&mut all);
    let r = out.outputs[of(&out, "a")].roster.clone().unwrap();
    assert!(!r.contains(r#""j""#), "join must not repeat: {r}");
}

#[test]
fn silent_room_produces_no_roster_traffic() {
    let mut all = vec![
        session("a", "agent-a", [0.0, 0.0, 0.0]),
        session("b", "agent-b", [1.0, 0.0, 0.0]),
    ];
    let first = mix(&mut all);
    assert!(first.outputs.iter().all(|o| o.roster.is_some()));
    let out = mix(&mut all);
    assert!(
        out.outputs.iter().all(|o| o.roster.is_none()),
        "an idle room must not push a roster every tick"
    );
}

#[test]
fn removing_a_session_drops_its_room_entry() {
    let mut reg: Registry<f32> = Registry::new();
    let a = session("a", "agent-a", [0.0, 0.0, 0.0]);
    let room = a.room.clone();
    reg.insert(a);
    assert_eq!(reg.members(&room).len(), 1);
    reg.remove("a");
    assert_eq!(reg.session_count(), 0);
    assert!(reg.rooms().is_empty(), "empty rooms must not linger");
}

#[test]
fn jitter_buffer_drops_oldest_rather_than_growing() {
    let mut a = session("a", "agent-a", [0.0, 0.0, 0.0]);
    for i in 0..(JITTER_MAX_FRAMES + 5) {
        a.push_frame(vec![i as f32; FRAME_SAMPLES]);
    }
    assert_eq!(a.inbound.len(), JITTER_MAX_FRAMES);
    let first = a.take_frame().unwrap()[0];
    assert_eq!(first, 5.0);
}

#[test]
fn gain_conversion_uses_the_viewer_factor() {
    let mut a = session("a", "agent-a", [0.0, 0.0, 0.0]);
    let mut m = blank();
    m.user_gain = vec![("agent-b".to_owned(), 220)];
    a.apply_data(&m, &tether);
    assert!((a.peer_gain("agent-b") as f32 / 220.0 - 1.0).abs() < 1e-6);

    let mut m = blank();
    m.user_gain = vec![("agent-b".to_owned(), 110)];
    a.apply_data(&m, &tether);
    assert!((a.peer_gain("agent-b") as f32 / 220.0 - 0.5).abs() < 1e-6);
}

#[test]
fn tether_is_reapplied_server_side() {
    let mut a = session("a", "agent-a", [0.0, 0.0, 0.0]);
    let mut m = blank();
    m.avatar_pos = Some(point([0.0, 0.0, 0.0]));
    m.listener_pos = Some(point([1000.0, 0.0, 0.0]));
    a.apply_data(&m, &tether);
    let d = (metres_of(a.state.listener_pos)[0] - metres_of(a.state.avatar_pos)[0]).abs();
    assert!((d - MAX_AUDIO_DIST).abs() < 1e-6, "ear must be clamped to 50 m, got {d}");
}

#[test]
fn ear_moves_freely_until_the_avatar_is_known() {
    let mut s: Session<f32> = Session::new("a".to_owned(), "agent-a".to_owned(), region(), true);
    let mut m = blank();
    m.listener_pos = Some(point([1000.0, 0.0, 0.0]));
    s.apply_data(&m, &tether);
    assert!(!s.state.known);
    assert_eq!(metres_of(s.state.listener_pos)[0], 1000.0);
    // The avatar's place brings the ear back.
    let mut m = blank();
    m.avatar_pos = Some(point([0.0, 0.0, 0.0]));
    s.apply_data(&m, &tether);
    assert!(s.state.known);
    assert_eq!(metres_of(s.state.listener_pos)[0], 50.0);
    // It stays known without another position.
    s.apply_data(&blank(), &tether);
    assert!(s.state.known);
}

#[test]
fn what_is_not_finite_is_left_out() {
    let mut a = session("a", "agent-a", [1.0, 2.0, 3.0]);
    for bad in [f64::INFINITY, f64::NEG_INFINITY, f64::NAN] {
        let mut m = blank();
        m.avatar_pos = Some(point([bad, 0.0, 0.0]));
        m.listener_pos = Some(point([0.0, bad, 0.0]));
        m.avatar_rot = Some(Quat { x: 0, y: 0, z: 0, w: bad.to_bits() });
        m.listener_rot = Some(Quat { x: 0, y: 0, z: bad.to_bits(), w: 0 });
        a.apply_data(&m, &tether);
        assert_eq!(metres_of(a.state.avatar_pos), [1.0, 2.0, 3.0]);
        assert_eq!(metres_of(a.state.listener_pos), [1.0, 2.0, 3.0]);
        assert_eq!(f64::from_bits(a.state.avatar_rot.w), 1.0);
        assert_eq!(f64::from_bits(a.state.listener_rot.w), 1.0);
    }
}

#[test]
fn what_has_no_finite_square_is_left_out() {
    let mut a = session("a", "agent-a", [1.0, 2.0, 3.0]);
    for bad in [f64::MAX, 1e308, 1e306, -7e305, 2f64.powi(512), -(2f64.powi(512))] {
        assert!(!(bad * bad).is_finite());
        let mut m = blank();
        m.avatar_pos = Some(point([0.0, 0.0, bad]));
        m.listener_rot = Some(Quat { x: bad.to_bits(), y: 0, z: 0, w: 0 });
        a.apply_data(&m, &tether);
        assert_eq!(metres_of(a.state.avatar_pos), [1.0, 2.0, 3.0]);
        assert_eq!(f64::from_bits(a.state.listener_rot.w), 1.0);
    }
    let largest = f64::from_bits(2f64.powi(512).to_bits() - 1);
    for good in [1e9, -1e9, 1e150, 2f64.powi(511), -largest, f64::MIN_POSITIVE, 5e-324, -0.0] {
        assert!((good * good).is_finite());
        let mut m = blank();
        m.avatar_rot = Some(Quat { x: good.to_bits(), y: 0, z: 0, w: 0 });
        a.apply_data(&m, &tether);
        assert_eq!(a.state.avatar_rot.x, good.to_bits());
    }
}

#[test]
fn a_join_says_whether_it_is_primary() {
    let mut a = session("a", "agent-a", [0.0, 0.0, 0.0]);
    assert!(!a.joined && !a.primary);
    let mut m = blank();
    m.join = Some(true);
    a.apply_data(&m, &tether);
    assert!(a.joined && a.primary);
    let mut m = blank();
    m.join = Some(false);
    a.apply_data(&m, &tether);
    assert!(a.joined && !a.primary);
}

#[test]
fn gains_are_clamped_and_tables_bounded() {
    let mut a = session("a", "agent-a", [0.0, 0.0, 0.0]);
    let mut m = blank();
    m.user_gain = vec![("x".to_owned(), u32::MAX), ("y".to_owned(), 880), ("z".to_owned(), 881)];
    a.apply_data(&m, &tether);
    assert_eq!(a.peer_gain("x"), 880);
    assert_eq!(a.peer_gain("y"), 880);
    assert_eq!(a.peer_gain("z"), 880);
    let mut m = blank();
    for i in 0..300u32 {
        m.user_gain.push((format!("peer-{i}"), 100));
        m.user_mute.push((format!("peer-{i}"), true));
    }
    a.apply_data(&m, &tether);
    assert_eq!(a.gains.len(), 256);
    assert_eq!(a.mutes.len(), 256);
    // A peer that is in the table can still be changed, a new one cannot come in.
    let mut m = blank();
    m.user_gain = vec![("x".to_owned(), 7), ("new".to_owned(), 7)];
    m.user_mute = vec![("peer-0".to_owned(), false)];
    a.apply_data(&m, &tether);
    assert_eq!(a.peer_gain("x"), 7);
    assert_eq!(a.peer_gain("new"), 220);
    assert_eq!(a.peer_gain("peer-0"), 100);
    assert_eq!(a.peer_gain("peer-1"), 0);
}

#[test]
fn group_voice_has_no_positions() {
    let room = RoomKey::MultiAgent { channel: "g".to_owned() };
    let mut all: Vec<Session<f32>> = vec![
        Session::new("a".to_owned(), "agent-a".to_owned(), room.clone(), false),
        Session::new("b".to_owned(), "agent-b".to_owned(), room, false),
    ];
    loud(&mut all[1]);
    let out = mix(&mut all);
    assert_eq!(out.outputs[0].contributions.len(), 1);
    assert_eq!(out.outputs[0].contributions[0].speaker, 1);
    assert_eq!(out.outputs[0].contributions[0].gain, 220);
    assert!(matches!(out.outputs[0].contributions[0].placement, Placement::Centre));
    assert!(out.outputs[1].contributions.is_empty());
}

#[test]
fn two_sessions_of_one_agent_hear_each_other() {
    // The listener is left out by session, not by agent.
    let mut all = vec![
        session("a1", "agent-a", [0.0, 0.0, 0.0]),
        session("a2", "agent-a", [1.0, 0.0, 0.0]),
    ];
    loud(&mut all[1]);
    let out = mix(&mut all);
    assert_eq!(out.outputs[0].contributions.len(), 1);
}

#[test]
fn roster_reports_levels_exactly() {
    let mut all = vec![
        session("a", "agent-a", [0.0, 0.0, 0.0]),
        session("b", "agent-b", [1.0, 0.0, 0.0]),
    ];
    all[0].primary = true;
    let out = mix(&mut all);
    assert_eq!(
        out.outputs[0].roster.as_deref(),
        Some(
            r#"{"agent-a":{"j":{"p":true},"m":false,"p":0,"v":false},"agent-b":{"j":{"p":false},"m":false,"p":0,"v":false}}"#
        )
    );
    // 0.1 * 4 of 128 units is 51: above 0.30 of the scale.
    all[1].push_frame(vec![0.1f32; FRAME_SAMPLES]);
    let out = mix(&mut all);
    let level = out.levels[1];
    assert!((50..=51).contains(&level));
    assert_eq!(all[1].level, level);
    assert_eq!(
        out.outputs[0].roster.clone().unwrap(),
        format!(r#"{{"agent-b":{{"m":false,"p":{level},"v":true}}}}"#)
    );
    // The next tick is silent again.
    let out = mix(&mut all);
    assert_eq!(out.levels, vec![0, 0]);
    assert_eq!(all[1].level, 0);
}

#[test]
fn a_departed_agent_is_announced_again() {
    let mut reg: Registry<f32> = Registry::new();
    reg.insert(session("a", "agent-a", [0.0, 0.0, 0.0]));
    reg.insert(session("b", "agent-b", [1.0, 0.0, 0.0]));
    let first = reg.tick_room(&region(), &level_of, &place).unwrap();
    assert!(first.outputs[0].roster.is_some());
    assert!(reg.tick_room(&region(), &level_of, &place).unwrap().outputs[0].roster.is_none());
    let gone = reg.remove("b").unwrap();
    assert!(gone.closed);
    assert_eq!(gone.agent_id, "agent-b");
    reg.insert(session("b2", "agent-b", [1.0, 0.0, 0.0]));
    let again = reg.tick_room(&region(), &level_of, &place).unwrap();
    let roster = again.outputs[0].roster.clone().unwrap();
    assert!(roster.contains("agent-b") && roster.contains(r#""j""#));
    assert!(!roster.contains("agent-a"));
}

#[test]
fn a_lone_member_is_drained() {
    let mut reg: Registry<f32> = Registry::new();
    let mut a = session("a", "agent-a", [0.0, 0.0, 0.0]);
    loud(&mut a);
    loud(&mut a);
    a.level = 99;
    reg.insert(a);
    assert!(reg.tick_room(&region(), &level_of, &place).is_none());
    let m = reg.members(&region());
    assert_eq!(m[0].inbound.len(), 0);
    assert_eq!(m[0].level, 0);
    // A room without members gives nothing either.
    let nowhere = RoomKey::MultiAgent { channel: "x".to_owned() };
    assert!(reg.tick_room(&nowhere, &level_of, &place).is_none());
}

#[test]
fn registry_finds_sessions_by_id_and_room() {
    let mut reg: Registry<f32> = Registry::new();
    let mut elsewhere = session("c", "agent-c", [0.0, 0.0, 0.0]);
    elsewhere.room = RoomKey::Spatial { region: "region".to_owned(), parcel: 1 };
    reg.insert(session("a", "agent-a", [0.0, 0.0, 0.0]));
    reg.insert(elsewhere);
    reg.insert(session("b", "agent-b", [0.0, 0.0, 0.0]));
    assert_eq!(reg.session_count(), 3);
    assert_eq!(reg.find("c"), 1);
    assert_eq!(reg.find("nobody"), 3);
    let ids: Vec<&str> = reg.members(&region()).iter().map(|s| s.id.as_str()).collect();
    assert_eq!(ids, vec!["a", "b"]);
    assert_eq!(reg.rooms().len(), 2);
    assert!(reg.remove("nobody").is_none());
    assert_eq!(reg.session_count(), 3);
    assert!(reg.remove("a").is_some());
    assert_eq!(reg.members(&region()).len(), 1);
    assert_eq!(reg.rooms().len(), 2);
}

#[test]
fn rooms_are_told_apart() {
    let a = region();
    let b = RoomKey::Spatial { region: "region".to_owned(), parcel: 1 };
    let c = RoomKey::MultiAgent { channel: "region".to_owned() };
    assert!(a.same(&a.clone()));
    assert!(!a.same(&b) && !a.same(&c) && !b.same(&c));
    assert!(c.same(&c.clone()));
}

#[test]
fn ticks_are_skipped_while_work_is_unfinished() {
    let mut gate = TickGate::new();
    assert_eq!(gate.step(0, 20_000), TickStep::Mix);
    assert_eq!(gate.step(2, 0), TickStep::Skip);
    assert_eq!(gate.step(2, 9_999), TickStep::Skip);
    assert_eq!(gate.step(1, 10_000), TickStep::Warn(3));
    assert_eq!(gate.skipped, 0);
    assert_eq!(gate.step(0, 0), TickStep::Mix);
}

#[test]
fn packets_are_cut_into_whole_frames() {
    let pcm: Vec<u32> = (1..=MAX_DECODE_SAMPLES as u32).collect();
    assert_eq!(split_packet(&pcm, 0, 0).len(), 0);
    // A 10 ms packet is filled up with silence.
    let short = split_packet(&pcm, 480, 0);
    assert_eq!(short.len(), 1);
    assert_eq!(short[0].len(), FRAME_SAMPLES);
    assert_eq!(short[0][479], 480);
    assert_eq!(short[0][480], 0);
    // A 60 ms packet is three frames.
    let long = split_packet(&pcm, 2880, 0);
    assert_eq!(long.len(), 3);
    assert_eq!(long[2][0], 1921);
    assert_eq!(long[2][959], 2880);
    let all = split_packet(&pcm, MAX_DECODE_SAMPLES, 0);
    assert_eq!(all.len(), 6);
}

#[test]
fn a_packet_becomes_frames_of_the_session() {
    let mut s: Session<u32> = Session::new("a".to_owned(), "agent-a".to_owned(), region(), true);
    let pcm: Vec<u32> = (1..=2000).collect();
    s.hear_packet(&pcm, 1000, 0);
    assert_eq!(s.inbound.len(), 2);
    assert_eq!(s.take_frame().unwrap()[959], 960);
    let tail = s.take_frame().unwrap();
    assert_eq!(tail[39], 1000);
    assert_eq!(tail[40], 0);
    assert!(s.take_frame().is_none());
}

#[test]
fn coming_and_going_leaves_no_trace() {
    let mut reg: Registry<f32> = Registry::new();
    reg.insert(session("a", "agent-a", [0.0, 0.0, 0.0]));
    reg.insert(session("b", "agent-b", [1.0, 0.0, 0.0]));
    let _ = reg.tick_room(&region(), &level_of, &place);
    let mut guest = session("g", "agent-g", [1.0, 0.0, 0.0]);
    guest.room = RoomKey::MultiAgent { channel: "c".to_owned() };
    for room in [region(), RoomKey::MultiAgent { channel: "c".to_owned() }] {
        guest.room = room;
        reg.insert(guest);
        guest = reg.remove("g").unwrap();
        assert_eq!(reg.rooms().len(), 1);
        let ids: Vec<&str> = reg.members(&region()).iter().map(|s| s.id.as_str()).collect();
        assert_eq!(ids, vec!["a", "b"]);
    }
    // Nobody forgot anybody else.
    let quiet = reg.tick_room(&region(), &level_of, &place).unwrap();
    assert!(quiet.outputs.iter().all(|o| o.roster.is_none()));
}

#[test]
fn a_tick_changes_nothing_but_frames_levels_and_what_was_told() {
    let mut all = vec![
        session("a", "agent-a", [0.0, 0.0, 0.0]),
        session("b", "agent-b", [1.0, 0.0, 0.0]),
        session("x", "agent-x", [2.0, 0.0, 0.0]),
    ];
    all[0].gains.insert("agent-b".to_owned(), 33);
    for s in all.iter_mut() {
        loud(s);
        loud(s);
    }
    let _ = mix_room(&mut all, &vec![0, 1], &level_of, &place);
    assert_eq!(all[0].inbound.len(), 1);
    assert_eq!(all[1].inbound.len(), 1);
    assert_eq!(all[0].peer_gain("agent-b"), 33);
    assert_eq!(metres_of(all[1].state.avatar_pos), [1.0, 0.0, 0.0]);
    // Who is not of the room takes no part.
    assert_eq!(all[2].inbound.len(), 2);
    assert_eq!(all[2].level, 0);
}

#[test]
fn a_roster_says_what_there_is_to_say() {
    let mut all = vec![
        session("a", "agent-a", [0.0, 0.0, 0.0]),
        session("b", "agent-b", [1.0, 0.0, 0.0]),
        session("c", "agent-c", [1.0, 0.0, 0.0]),
    ];
    let members = vec![0, 1];
    all[1].level = 38;
    assert_eq!(
        build_roster(&mut all, &members, 0).unwrap(),
        r#"{"agent-a":{"j":{"p":false},"m":false,"p":0,"v":false},"agent-b":{"j":{"p":false},"m":false,"p":38,"v":false}}"#
    );
    // One who joins while the others are known, and one who speaks.
    let members = vec![0, 1, 2];
    all[1].level = 39;
    assert_eq!(
        build_roster(&mut all, &members, 0).unwrap(),
        r#"{"agent-b":{"m":false,"p":39,"v":true},"agent-c":{"j":{"p":false},"m":false,"p":0,"v":false}}"#
    );
    all[1].level = 0;
    assert!(build_roster(&mut all, &members, 0).is_none());
    // Another listener was told of nobody yet.
    assert!(build_roster(&mut all, &members, 1).is_some());
}
