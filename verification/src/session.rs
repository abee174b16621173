//! What the WebRTC transport of one viewer session decides, apart from the transport
//! itself.

use crate::json;
use crate::mixer;
use crate::mixer::{split_packet, FRAME_SAMPLES};
use crate::proto::{Vec3, ViewerDataMessage};
use crate::room;
use crate::room::{Session, SessionView};
use crate::text::utf8_text;
use vstd::prelude::*;

verus! {

/// Hands out one UDP port per peer connection, round-robin over the media range.
///
/// A port is never given back: a closed peer connection releases its socket, and by the
/// time its turn comes again the port is long free.
pub struct PortPool {
    next: u16,
    lo: u16,
    hi: u16,
}

impl PortPool {
    /// The first port of the range.
    pub closed spec fn lo(&self) -> u16 {
        self.lo
    }

    /// The last port of the range.
    pub closed spec fn hi(&self) -> u16 {
        self.hi
    }

    /// The port that comes next.
    pub closed spec fn upcoming(&self) -> u16 {
        self.next
    }

    /// The range holds a port, and the next one is in it.
    pub open spec fn wf(&self) -> bool {
        self.lo() <= self.upcoming() <= self.hi()
    }

    /// A pool over the ports from `lo` to `hi`, both of them included.
    pub fn new(lo: u16, hi: u16) -> (r: Self)
        ensures
            r.lo() == lo,
            r.hi() == hi,
            r.upcoming() == lo,
            lo <= hi ==> r.wf(),
    {
        PortPool { next: lo, lo, hi }
    }

    /// Takes the next port. Behind the last port of the range the first follows.
    pub fn take(&mut self) -> (r: u16)
        requires
            old(self).wf(),
        ensures
            final(self).wf(),
            final(self).lo() == old(self).lo(),
            final(self).hi() == old(self).hi(),
            r == old(self).upcoming(),
            old(self).lo() <= r <= old(self).hi(),
            final(self).upcoming() == port_after(old(self).lo(), old(self).hi(), r),
    {
        let port = self.next;
        self.next = if port == self.hi {
            self.lo
        } else {
            port + 1
        };
        port
    }
}

/// The port behind another, round-robin.
pub open spec fn port_after(lo: u16, hi: u16, port: u16) -> u16 {
    if port == hi {
        lo
    } else {
        (port + 1) as u16
    }
}

/// The port that a pool over `lo..=hi` hands out after `n` others.
pub open spec fn nth_port(lo: u16, hi: u16, n: nat) -> u16
    decreases n,
{
    if n == 0 {
        lo
    } else {
        port_after(lo, hi, nth_port(lo, hi, (n - 1) as nat))
    }
}

/// Ports never leave the range, and go round it: the `n`-th is the first port plus the
/// remainder of `n` by the number of ports.
pub proof fn law_ports_go_round(lo: u16, hi: u16, n: nat)
    requires
        lo <= hi,
    ensures
        lo <= nth_port(lo, hi, n) <= hi,
        nth_port(lo, hi, n) == lo + n % ((hi - lo + 1) as nat),
    decreases n,
{
    let span = (hi - lo + 1) as nat;
    if n == 0 {
        assert(0nat % span == 0) by (nonlinear_arith)
            requires
                span > 0,
        ;
    } else {
        let p = (n - 1) as nat;
        law_ports_go_round(lo, hi, p);
        let q = p / span;
        let k = p % span;
        vstd::arithmetic::div_mod::lemma_fundamental_div_mod(p as int, span as int);
        if k + 1 == span {
            assert(n == span * (q + 1)) by (nonlinear_arith)
                requires
                    p == span * q + k,
                    n == p + 1,
                    k + 1 == span,
            ;
            vstd::arithmetic::div_mod::lemma_fundamental_div_mod_converse(
                n as int,
                span as int,
                (q + 1) as int,
                0,
            );
        } else {
            vstd::arithmetic::div_mod::lemma_fundamental_div_mod_converse(
                n as int,
                span as int,
                q as int,
                (k + 1) as int,
            );
        }
    }
}

/// A port is handed out again only after every other port of the range.
pub proof fn law_ports_in_one_round_differ(lo: u16, hi: u16, a: nat, b: nat)
    requires
        lo <= hi,
        a < b,
        b - a <= hi - lo,
    ensures
        nth_port(lo, hi, a) != nth_port(lo, hi, b),
{
    law_ports_go_round(lo, hi, a);
    law_ports_go_round(lo, hi, b);
    let span = (hi - lo + 1) as int;
    if a % (span as nat) == b % (span as nat) {
        vstd::arithmetic::div_mod::lemma_fundamental_div_mod(a as int, span);
        vstd::arithmetic::div_mod::lemma_fundamental_div_mod(b as int, span);
        let x = a as int / span;
        let y = b as int / span;
        assert(b - a == span * (y - x)) by (nonlinear_arith)
            requires
                a == span * x + a as int % span,
                b == span * y + b as int % span,
                a as int % span == b as int % span,
        ;
        assert(y - x >= 1 ==> span * (y - x) >= span) by (nonlinear_arith)
            requires
                span > 0,
        ;
        assert(y - x <= 0 ==> span * (y - x) <= 0) by (nonlinear_arith)
            requires
                span > 0,
        ;
    }
}

/// The port that a pool over `lo..=hi` hands out `n` ports after the given one.
pub open spec fn port_from(lo: u16, hi: u16, port: u16, n: nat) -> u16
    decreases n,
{
    if n == 0 {
        port
    } else {
        port_after(lo, hi, port_from(lo, hi, port, (n - 1) as nat))
    }
}

/// Within one round a pool goes up from a port to the end of the range and on from its
/// start, and does not come back to that port.
pub proof fn law_ports_go_on(lo: u16, hi: u16, port: u16, n: nat)
    requires
        lo <= port <= hi,
        n <= hi - lo,
    ensures
        port_from(lo, hi, port, n) == if port + n <= hi {
            port + n
        } else {
            port + n - (hi - lo + 1)
        },
        n > 0 ==> port_from(lo, hi, port, n) != port,
    decreases n,
{
    if n > 0 {
        law_ports_go_on(lo, hi, port, (n - 1) as nat);
    }
}

/// The step between one stream seed and the next: the golden ratio of the 32-bit range.
pub const SEED_STEP: u32 = 0x9E37_79B9;

/// A 32-bit word with its bits moved up by 13 places, those at the top coming round.
pub open spec fn rotated(t: u32) -> u32 {
    (t << 13u32) | (t >> 19u32)
}

/// A number for an SSRC or for the first RTP timestamp of a stream, made of a running
/// counter and the nanoseconds of the clock. These are opaque identifiers, not secrets;
/// zero, which some stacks take for unset, is never among them.
pub fn rand_u32(counter: &mut u32, subsec_nanos: u32) -> (r: u32)
    ensures
        *final(counter) == (*old(counter) + SEED_STEP) % 0x1_0000_0000,
        r == (*old(counter) ^ rotated(subsec_nanos)) | 1,
        r % 2 == 1,
        r != 0,
{
    let n: u32 = *counter;
    *counter = n.wrapping_add(SEED_STEP);
    let t: u32 = (subsec_nanos << 13u32) | (subsec_nanos >> 19u32);
    let r: u32 = (n ^ t) | 1;
    assert(((n ^ t) | 1) % 2 == 1) by (bit_vector);
    r
}

/// The RTP clock of an outbound stream. Opus at 48 kHz moves it by one tick a sample.
pub struct RtpClock {
    pub next: u32,
}

impl RtpClock {
    /// The timestamp of the frame to be sent now; the clock moves on by one frame.
    pub fn stamp(&mut self) -> (r: u32)
        ensures
            r == old(self).next,
            final(self).next == (old(self).next + FRAME_SAMPLES) % 0x1_0000_0000,
    {
        let now: u32 = self.next;
        self.next = now.wrapping_add(FRAME_SAMPLES as u32);
        now
    }
}

/// The states of a peer connection.
#[derive(Clone, Copy, Debug, PartialEq, Eq, Structural)]
pub enum LinkState {
    New,
    Connecting,
    Connected,
    Disconnected,
    Failed,
    Closed,
}

/// Whether a peer connection in that state is over, so that its session can go.
pub fn link_is_over(state: LinkState) -> (r: bool)
    ensures
        r == (state is Disconnected || state is Failed || state is Closed),
{
    match state {
        LinkState::Disconnected => true,
        LinkState::Failed => true,
        LinkState::Closed => true,
        _ => false,
    }
}

/// How long to wait for ICE gathering before answering anyway, in milliseconds. The
/// region gives the whole call ten seconds.
pub const GATHER_TIMEOUT_MS: u64 = 2500;

/// What to do about ICE gathering.
#[derive(Clone, Copy, Debug, PartialEq, Eq, Structural)]
pub enum GatherStep {
    /// Look again in a moment.
    Wait,
    /// All candidates are in the answer.
    Complete,
    /// Answer with the candidates that there are: some are better than none.
    Partial,
}

/// Waits until gathering is done or its time is up. The answer is the one way by which
/// the candidates reach the viewer, so it must not be read before that.
pub fn gather_step(gathered: bool, waited_ms: u64) -> (r: GatherStep)
    ensures
        r is Complete <==> gathered,
        r is Wait <==> !gathered && waited_ms < GATHER_TIMEOUT_MS,
        r is Partial <==> !gathered && waited_ms >= GATHER_TIMEOUT_MS,
{
    if gathered {
        GatherStep::Complete
    } else if waited_ms < GATHER_TIMEOUT_MS {
        GatherStep::Wait
    } else {
        GatherStep::Partial
    }
}

/// What became of a message on the data channel.
pub enum Received {
    /// It was no text, and nothing came of it.
    Ignored,
    /// It was applied to the session.
    Applied,
    /// It was no JSON, for the reason given, and nothing came of it.
    BadJson(String),
}

/// `after` is the session `before` once a message that reads as the document was applied.
pub open spec fn heeds<S, F: Fn(u64) -> u64, T: Fn(Vec3, Vec3) -> Vec3>(
    before: SessionView<S>,
    j: json::JsonView,
    metres: F,
    tether: T,
    after: SessionView<S>,
) -> bool {
    exists|m: ViewerDataMessage| #[trigger]
        m.reads(j, metres) && room::state_after(before.state, m, tether, after.state) && after
            == before.told(m, after.state)
}

impl<S> Session<S> {
    /// Takes the first `n` samples of a decoder's buffer as this session's next frames.
    pub fn hear_packet(&mut self, pcm: &Vec<S>, n: usize, silence: S) where S: Copy
        requires
            n <= pcm@.len(),
        ensures
            final(self)@ == (SessionView {
                inbound: room::buffered_all(
                    old(self)@.inbound,
                    mixer::packet_frames(pcm@.take(n as int), silence),
                ),
                ..old(self)@
            }),
            old(self)@.wf() ==> final(self)@.wf(),
    {
        let mut frames = split_packet(pcm, n, silence);
        let ghost all = mixer::frames_view(frames@);
        let ghost mut done: int = 0;
        assert(all.take(0) =~= Seq::<Seq<S>>::empty());
        while frames.len() > 0
            invariant
                0 <= done <= all.len(),
                mixer::frames_view(frames@) == all.skip(done),
                self@ == (SessionView {
                    inbound: room::buffered_all(old(self)@.inbound, all.take(done)),
                    ..old(self)@
                }),
                old(self)@.wf() ==> self@.wf(),
            decreases frames@.len(),
        {
            let ghost was = frames@;
            assert(mixer::frames_view(was).len() == was.len());
            assert(mixer::frames_view(was)[0] == all.skip(done)[0]);
            let frame = frames.remove(0);
            assert(mixer::frames_view(frames@) =~= mixer::frames_view(was).skip(1));
            assert(all.skip(done).skip(1) =~= all.skip(done + 1));
            assert(all.take(done + 1).drop_last() =~= all.take(done));
            self.push_frame(frame);
            proof {
                done = done + 1;
            }
        }
        assert(mixer::frames_view(frames@).len() == 0);
        assert(all.take(done) =~= all);
    }

    /// Takes a message of the data channel. The viewer sends JSON as text there, and
    /// anything else is passed over.
    pub fn receive<F: Fn(u64) -> u64, T: Fn(Vec3, Vec3) -> Vec3>(
        &mut self,
        is_string: bool,
        data: &Vec<u8>,
        metres: &F,
        tether: &T,
    ) -> (r: Received)
        requires
            forall|x: u64| call_requires(*metres, (x,)),
            forall|ear: Vec3, avatar: Vec3| call_requires(*tether, (ear, avatar)),
        ensures
            r is Ignored <==> !is_string || !vstd::utf8::valid_utf8(data@),
            r is Ignored || r is BadJson ==> final(self)@ == old(self)@,
            !(r is Ignored) ==> match json::json_from_str(vstd::utf8::decode_utf8(data@)) {
                Ok(j) => r is Applied && heeds(
                    old(self)@,
                    j,
                    *metres,
                    *tether,
                    final(self)@,
                ),
                Err(e) => r is BadJson && r->BadJson_0@ == e,
            },
            old(self)@.wf() ==> final(self)@.wf(),
    {
        if !is_string {
            return Received::Ignored;
        }
        match utf8_text(data) {
            None => Received::Ignored,
            Some(text) => match ViewerDataMessage::parse(text, metres) {
                Ok(m) => {
                    self.apply_data(&m, tether);
                    Received::Applied
                },
                Err(e) => Received::BadJson(e),
            },
        }
    }

    /// Notes a change of the peer connection's state: once it is over, so is the session.
    pub fn link_changed(&mut self, state: LinkState)
        ensures
            final(self)@ == (SessionView {
                closed: old(self)@.closed || state is Disconnected || state is Failed
                    || state is Closed,
                ..old(self)@
            }),
    {
        if link_is_over(state) {
            self.closed = true;
        }
    }
}

} // verus!
