use wolfvoice::proto::Vec3;
use wolfvoice::room::{RoomKey, Session};
use wolfvoice::sdp::{carries_candidates, negotiated_opus_pt, outbound_pt, white};
use wolfvoice::session::{
    gather_step, link_is_over, rand_u32, GatherStep, LinkState, PortPool, Received, RtpClock,
};

#[test]
fn reads_negotiated_opus_payload_type() {
    let sdp = "v=0\r\n\
               m=audio 9 UDP/TLS/RTP/SAVPF 111\r\n\
               a=rtpmap:111 opus/48000/2\r\n\
               a=fmtp:111 minptime=10\r\n";
    assert_eq!(negotiated_opus_pt(sdp), Some(111));
}

#[test]
fn ignores_non_opus_rtpmaps() {
    let sdp = "a=rtpmap:0 PCMU/8000\r\na=rtpmap:96 VP8/90000\r\n";
    assert_eq!(negotiated_opus_pt(sdp), None);
}

#[test]
fn payload_type_lookup_is_case_insensitive() {
    // Some stacks write "OPUS/48000/2".
    let sdp = "a=rtpmap:96 OPUS/48000/2\r\n";
    assert_eq!(negotiated_opus_pt(sdp), Some(96));
}

#[test]
fn port_pool_stays_inside_the_firewalled_range() {
    let mut pool = PortPool::new(40000, 40002);
    let mut seen = Vec::new();
    for _ in 0..7 {
        let p = pool.take();
        assert!((40000..=40002).contains(&p), "port {p} escaped the range");
        seen.push(p);
    }
    // It must actually cycle rather than return one port forever.
    assert!(seen.iter().any(|p| *p != seen[0]));
    assert_eq!(seen, vec![40000, 40001, 40002, 40000, 40001, 40002, 40000]);
}

#[test]
fn ports_never_run_out() {
    let mut pool = PortPool::new(40000, 40999);
    for i in 0..70_000u32 {
        assert_eq!(pool.take() as u32, 40000 + i % 1000);
    }
    // The whole range of ports can be gone round too.
    let mut all = PortPool::new(0, u16::MAX);
    for i in 0..70_000u32 {
        assert_eq!(all.take() as u32, i % 65536);
    }
}

#[test]
fn ssrc_is_never_zero() {
    let mut counter: u32 = 0;
    for i in 0..100 {
        assert_ne!(rand_u32(&mut counter, i * 9_999_999), 0);
    }
}

#[test]
fn rand_u32_mixes_counter_and_time() {
    let mut counter: u32 = 0;
    assert_eq!(rand_u32(&mut counter, 0), 1);
    assert_eq!(counter, 0x9E37_79B9);
    assert_eq!(rand_u32(&mut counter, 1), (0x9E37_79B9 ^ 8192) | 1);
    assert_eq!(counter, 0x9E37_79B9u32.wrapping_mul(2));
    for t in [1u32, 77, 999_999_999] {
        let was = counter;
        assert_eq!(rand_u32(&mut counter, t), (was ^ t.rotate_left(13)) | 1);
    }
}

#[test]
fn the_line_of_a_codec_is_read_as_it_stands() {
    assert_eq!(negotiated_opus_pt(""), None);
    assert_eq!(negotiated_opus_pt("  a=rtpmap:7 opus/48000 \n"), Some(7));
    assert_eq!(negotiated_opus_pt("\u{3000}a=rtpmap:7 opus/48000"), Some(7));
    // A line without a codec is passed over. A number that is none ends the search.
    assert_eq!(negotiated_opus_pt("a=rtpmap:7\na=rtpmap:8 opus/1\n"), Some(8));
    assert_eq!(negotiated_opus_pt("a=rtpmap:\na=rtpmap:8 opus/1\n"), Some(8));
    assert_eq!(negotiated_opus_pt("a=rtpmap:7\n"), None);
    assert_eq!(negotiated_opus_pt("a=rtpmap:x opus/1\na=rtpmap:8 opus/1\n"), None);
    assert_eq!(negotiated_opus_pt("a=rtpmap:256 opus/1\n"), None);
    assert_eq!(negotiated_opus_pt("a=rtpmap:255 opus/1\n"), Some(255));
    assert_eq!(negotiated_opus_pt("a=rtpmap:+9 opus/1\n"), Some(9));
    assert_eq!(negotiated_opus_pt("a=rtpmap:+ opus/1\n"), None);
    assert_eq!(negotiated_opus_pt("a=rtpmap:-0 opus/1\n"), None);
    assert_eq!(negotiated_opus_pt("a=rtpmap:0000111 opus/1\n"), Some(111));
    assert_eq!(negotiated_opus_pt("a=rtpmap: opus/1\n"), None);
    assert_eq!(negotiated_opus_pt("a=rtpmap:7 opus\n"), None);
    assert_eq!(negotiated_opus_pt("a=rtpmap:7 xopus/1\na=rtpmap:8 oPuS/1"), Some(8));
}

#[test]
fn payload_types_agree_with_the_standard_parser() {
    for s in ["0", "7", "007", "+1", "++1", "255", "256", "999999999999999999999", "-1", "1a", ""] {
        let line = format!("a=rtpmap:{s} opus/48000/2");
        assert_eq!(negotiated_opus_pt(&line), s.parse::<u8>().ok(), "{s:?}");
    }
}

#[test]
fn white_space_is_that_of_unicode() {
    for n in 0..=0x10ffffu32 {
        if let Some(c) = char::from_u32(n) {
            assert_eq!(white(c), c.is_whitespace(), "{n:x}");
        }
    }
}

#[test]
fn an_answer_without_opus_is_sent_as_preferred() {
    assert_eq!(outbound_pt("v=0\r\n"), 111);
    assert_eq!(outbound_pt("a=rtpmap:96 opus/48000/2\r\n"), 96);
}

#[test]
fn candidates_are_seen_anywhere() {
    assert!(carries_candidates("v=0\r\na=candidate:1 1 udp\r\n"));
    assert!(carries_candidates("a=candidate:"));
    assert!(!carries_candidates("a=candidat:"));
    assert!(!carries_candidates(""));
}

#[test]
fn rtp_clock_moves_by_frames_and_wraps() {
    let mut clock = RtpClock { next: 10 };
    assert_eq!(clock.stamp(), 10);
    assert_eq!(clock.stamp(), 970);
    let mut clock = RtpClock { next: u32::MAX };
    assert_eq!(clock.stamp(), u32::MAX);
    assert_eq!(clock.stamp(), 959);
}

#[test]
fn links_that_are_over_close_their_session() {
    let over = [LinkState::Disconnected, LinkState::Failed, LinkState::Closed];
    let up = [LinkState::New, LinkState::Connecting, LinkState::Connected];
    for s in over {
        assert!(link_is_over(s));
        let mut x = quiet();
        x.link_changed(s);
        assert!(x.closed);
        x.link_changed(LinkState::Connected);
        assert!(x.closed);
    }
    for s in up {
        assert!(!link_is_over(s));
        let mut x = quiet();
        x.link_changed(s);
        assert!(!x.closed);
    }
}

#[test]
fn gathering_is_waited_for_up_to_its_time() {
    assert_eq!(gather_step(false, 0), GatherStep::Wait);
    assert_eq!(gather_step(false, 2499), GatherStep::Wait);
    assert_eq!(gather_step(false, 2500), GatherStep::Partial);
    assert_eq!(gather_step(true, 0), GatherStep::Complete);
    assert_eq!(gather_step(true, 9999), GatherStep::Complete);
}

fn quiet() -> Session<f32> {
    let room = RoomKey::Spatial { region: "r".to_owned(), parcel: 0 };
    Session::new("s".to_owned(), "agent".to_owned(), room, true)
}

fn same(x: u64) -> u64 {
    x
}

fn loose(ear: Vec3, _avatar: Vec3) -> Vec3 {
    ear
}

#[test]
fn only_text_is_received() {
    let mut s = quiet();
    let join = br#"{"j":{"p":true}}"#.to_vec();
    assert!(matches!(s.receive(false, &join, &same, &loose), Received::Ignored));
    assert!(!s.joined);
    assert!(matches!(s.receive(true, &vec![0xff, 0xfe], &same, &loose), Received::Ignored));
    assert!(!s.joined);
    assert!(matches!(s.receive(true, &join, &same, &loose), Received::Applied));
    assert!(s.joined && s.primary);
}

#[test]
fn text_beyond_ascii_is_received() {
    let mut s = quiet();
    let data = "{\"m\":{\"\u{e9}\u{4e2d}\u{1f600}\":true}}".as_bytes().to_vec();
    assert!(matches!(s.receive(true, &data, &same, &loose), Received::Applied));
    assert_eq!(s.peer_gain("\u{e9}\u{4e2d}\u{1f600}"), 0);
}

#[test]
fn bad_json_changes_nothing() {
    let mut s = quiet();
    let bad = b"{\"j\":".to_vec();
    match s.receive(true, &bad, &same, &loose) {
        Received::BadJson(e) => assert!(e.contains("EOF"), "{e}"),
        _ => panic!("half a document is no document"),
    }
    assert!(!s.joined);
}
