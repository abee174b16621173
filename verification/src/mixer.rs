//! The audio grid: frames of 20 ms at 48 kHz, cut out of what a decoder hands over.
//!
//! Samples are moved about here and never computed with, so a frame is a run of values
//! of any type.

use vstd::prelude::*;

verus! {

/// The Opus clock of WebRTC.
pub const SAMPLE_RATE: u32 = 48000;

/// 20 ms of audio at 48 kHz, per channel.
pub const FRAME_SAMPLES: usize = 960;

/// The most samples that one Opus packet decodes to: 120 ms at 48 kHz mono.
pub const MAX_DECODE_SAMPLES: usize = 5760;

/// The sequences that a sequence of vectors holds.
pub open spec fn frames_view<S>(frames: Seq<Vec<S>>) -> Seq<Seq<S>> {
    frames.map_values(|f: Vec<S>| f@)
}

/// One frame of a packet: its samples, and silence behind the last of them.
pub open spec fn packet_frame<S>(pcm: Seq<S>, silence: S, i: int) -> Seq<S> {
    Seq::new(
        FRAME_SAMPLES as nat,
        |k: int|
            if i * FRAME_SAMPLES + k < pcm.len() {
                pcm[i * FRAME_SAMPLES + k]
            } else {
                silence
            },
    )
}

/// A packet cut into whole frames, the last of them filled up with silence.
pub open spec fn packet_frames<S>(pcm: Seq<S>, silence: S) -> Seq<Seq<S>> {
    Seq::new(
        (pcm.len() + FRAME_SAMPLES as nat - 1) as nat / FRAME_SAMPLES as nat,
        |i: int| packet_frame(pcm, silence, i),
    )
}

/// Cuts the first `n` samples of a decoder's buffer into whole frames, so that the
/// mixer's grid stays aligned whatever packet length the sender chose. A tail shorter
/// than a frame is filled up rather than dropped: a sender of 10 ms packets is still
/// heard without a break.
pub fn split_packet<S: Copy>(pcm: &Vec<S>, n: usize, silence: S) -> (r: Vec<Vec<S>>)
    requires
        n <= pcm@.len(),
    ensures
        frames_view(r@) == packet_frames(pcm@.take(n as int), silence),
{
    let mut out: Vec<Vec<S>> = Vec::new();
    let mut off: usize = 0;
    let ghost packet = pcm@.take(n as int);
    while off < n
        invariant
            n <= pcm@.len(),
            packet == pcm@.take(n as int),
            off <= n,
            off < n ==> off == out@.len() * FRAME_SAMPLES,
            off == n ==> out@.len() == packet_frames(packet, silence).len(),
            forall|i: int|
                0 <= i < out@.len() ==> (#[trigger] out@[i])@ == packet_frame(packet, silence, i),
        decreases n - off,
    {
        let mut frame: Vec<S> = Vec::new();
        let end: usize = if n - off < FRAME_SAMPLES {
            n
        } else {
            off + FRAME_SAMPLES
        };
        let mut k: usize = off;
        while k < end
            invariant
                off <= k <= end <= n <= pcm@.len(),
                frame@.len() == k - off,
                forall|j: int| 0 <= j < frame@.len() ==> frame@[j] == pcm@[off + j],
            decreases end - k,
        {
            frame.push(pcm[k]);
            k += 1;
        }
        while frame.len() < FRAME_SAMPLES
            invariant
                off <= end <= n <= pcm@.len(),
                end - off <= frame@.len() <= FRAME_SAMPLES,
                forall|j: int| 0 <= j < end - off ==> frame@[j] == pcm@[off + j],
                forall|j: int| end - off <= j < frame@.len() ==> frame@[j] == silence,
            decreases FRAME_SAMPLES - frame@.len(),
        {
            frame.push(silence);
        }
        assert(frame@ =~= packet_frame(packet, silence, out@.len() as int));
        out.push(frame);
        off = end;
    }
    assert(frames_view(out@) =~= packet_frames(packet, silence));
    out
}

/// How one speaker is placed for a listener.
#[derive(Debug)]
pub enum Placement<P> {
    /// In the middle, at full gain: group and IM voice has no positions.
    Centre,
    /// Where the positions of the two put the speaker.
    At(P),
}

/// One speaker's part in what one listener hears: which of the room's frames, at which
/// gain (in the viewer's units) and from where.
#[derive(Debug)]
pub struct Contribution<P> {
    pub speaker: usize,
    pub gain: u32,
    pub placement: Placement<P>,
}

} // verus!
