//! The few things that are read out of a session description (SDP).

use crate::text;
use crate::text::chars_of;
use vstd::prelude::*;

verus! {

/// The characters with the Unicode property `White_Space`.
pub open spec fn is_white(c: char) -> bool {
    ||| '\u{9}' <= c <= '\u{d}'
    ||| c == ' '
    ||| c == '\u{85}'
    ||| c == '\u{a0}'
    ||| c == '\u{1680}'
    ||| '\u{2000}' <= c <= '\u{200a}'
    ||| c == '\u{2028}'
    ||| c == '\u{2029}'
    ||| c == '\u{202f}'
    ||| c == '\u{205f}'
    ||| c == '\u{3000}'
}

/// A text without the white space at its start.
pub open spec fn trim_start(s: Seq<char>) -> Seq<char>
    decreases s.len(),
{
    if s.len() > 0 && is_white(s[0]) {
        trim_start(s.skip(1))
    } else {
        s
    }
}

/// A text without the white space at its end.
pub open spec fn trim_end(s: Seq<char>) -> Seq<char>
    decreases s.len(),
{
    if s.len() > 0 && is_white(s.last()) {
        trim_end(s.drop_last())
    } else {
        s
    }
}

/// A text without the white space around it.
pub open spec fn trimmed(s: Seq<char>) -> Seq<char> {
    trim_end(trim_start(s))
}

/// Where a character first stands in a text; its length where it does not.
pub open spec fn first_at(s: Seq<char>, c: char) -> int
    decreases s.len(),
{
    if s.len() == 0 || s[0] == c {
        0
    } else {
        1 + first_at(s.skip(1), c)
    }
}

/// Whether a text begins with another.
pub open spec fn begins_with(s: Seq<char>, head: Seq<char>) -> bool {
    head.len() <= s.len() && s.take(head.len() as int) == head
}

/// The value of a run of decimal digits.
pub open spec fn digits_value(s: Seq<char>) -> nat
    decreases s.len(),
{
    if s.len() == 0 {
        0
    } else {
        digits_value(s.drop_last()) * 10 + (s.last() as nat - '0' as nat) as nat
    }
}

/// Whether a text is made of decimal digits alone.
pub open spec fn all_digits(s: Seq<char>) -> bool {
    forall|i: int| 0 <= i < s.len() ==> '0' <= #[trigger] s[i] <= '9'
}

/// The number from 0 to 255 that a text writes: decimal digits, behind a plus sign or
/// not.
pub open spec fn u8_written(s: Seq<char>) -> Option<u8> {
    let t = if s.len() > 0 && s[0] == '+' {
        s.skip(1)
    } else {
        s
    };
    if t.len() > 0 && all_digits(t) && digits_value(t) <= 255 {
        Some(digits_value(t) as u8)
    } else {
        None
    }
}

/// What one line says of payload types.
pub enum RtpMap {
    /// It is no `a=rtpmap:` line, it names no codec, or it maps another one.
    Other,
    /// It maps Opus to the payload type that is written so.
    Opus(Seq<char>),
}

/// Reads `a=rtpmap:<payload type> <encoding name>/<clock rate>`.
pub open spec fn rtp_map(line: Seq<char>) -> RtpMap {
    if !begins_with(line, "a=rtpmap:"@) {
        RtpMap::Other
    } else {
        let rest = line.skip("a=rtpmap:"@.len() as int);
        let gap = first_at(rest, ' ');
        if gap < rest.len() && begins_with(text::lower(rest.skip(gap + 1)), "opus/"@) {
            RtpMap::Opus(rest.take(gap))
        } else {
            RtpMap::Other
        }
    }
}

/// The payload type of the first line that maps Opus.
pub open spec fn opus_payload_type(sdp: Seq<char>) -> Option<u8>
    decreases sdp.len(),
{
    if sdp.len() == 0 {
        None
    } else {
        let end = first_at(sdp, '\n');
        match rtp_map(trimmed(sdp.take(end))) {
            RtpMap::Opus(pt) => u8_written(pt),
            RtpMap::Other => if 0 <= end < sdp.len() {
                opus_payload_type(sdp.skip(end + 1))
            } else {
                None
            },
        }
    }
}

proof fn lemma_first_at(s: Seq<char>, c: char)
    ensures
        0 <= first_at(s, c) <= s.len(),
        first_at(s, c) < s.len() ==> s[first_at(s, c)] == c,
        forall|i: int| 0 <= i < first_at(s, c) ==> s[i] != c,
    decreases s.len(),
{
    if s.len() > 0 && s[0] != c {
        lemma_first_at(s.skip(1), c);
        assert forall|i: int| 0 <= i < first_at(s, c) implies s[i] != c by {
            if i > 0 {
                assert(s.skip(1)[i - 1] == s[i]);
            }
        }
    }
}

/// Where a character first stands is where nothing before it is that character.
pub proof fn lemma_first_at_is(s: Seq<char>, c: char, at: int)
    requires
        0 <= at <= s.len(),
        at < s.len() ==> s[at] == c,
        forall|i: int| 0 <= i < at ==> s[i] != c,
    ensures
        first_at(s, c) == at,
{
    lemma_first_at(s, c);
}

/// Whether a character is white space.
pub fn white(c: char) -> (r: bool)
    ensures
        r == is_white(c),
{
    ('\u{9}' <= c && c <= '\u{d}') || c == ' ' || c == '\u{85}' || c == '\u{a0}' || c
        == '\u{1680}' || ('\u{2000}' <= c && c <= '\u{200a}') || c == '\u{2028}' || c == '\u{2029}'
        || c == '\u{202f}' || c == '\u{205f}' || c == '\u{3000}'
}

/// Narrows a stretch of text to what stands between the white space around it.
fn trim(v: &Vec<char>, lo: usize, hi: usize) -> (r: (usize, usize))
    requires
        lo <= hi <= v@.len(),
    ensures
        lo <= r.0 <= r.1 <= hi,
        v@.subrange(r.0 as int, r.1 as int) == trimmed(v@.subrange(lo as int, hi as int)),
{
    let mut a: usize = lo;
    while a < hi && white(v[a])
        invariant
            lo <= a <= hi <= v@.len(),
            trim_start(v@.subrange(lo as int, hi as int)) == trim_start(
                v@.subrange(a as int, hi as int),
            ),
        decreases hi - a,
    {
        assert(v@.subrange(a as int, hi as int).skip(1) =~= v@.subrange(a + 1, hi as int));
        a += 1;
    }
    let mut b: usize = hi;
    while b > a && white(v[b - 1])
        invariant
            lo <= a <= b <= hi <= v@.len(),
            trim_end(v@.subrange(a as int, hi as int)) == trim_end(
                v@.subrange(a as int, b as int),
            ),
        decreases b - a,
    {
        assert(v@.subrange(a as int, b as int).drop_last() =~= v@.subrange(a as int, b - 1));
        b -= 1;
    }
    (a, b)
}

/// Where a character first stands in a stretch of text; its end where it does not.
fn find(v: &Vec<char>, lo: usize, hi: usize, c: char) -> (r: usize)
    requires
        lo <= hi <= v@.len(),
    ensures
        lo <= r <= hi,
        r - lo == first_at(v@.subrange(lo as int, hi as int), c),
{
    let mut i: usize = lo;
    while i < hi && v[i] != c
        invariant
            lo <= i <= hi <= v@.len(),
            forall|k: int| lo <= k < i ==> v@[k] != c,
        decreases hi - i,
    {
        i += 1;
    }
    proof {
        lemma_first_at_is(v@.subrange(lo as int, hi as int), c, i - lo);
    }
    i
}

/// Whether a stretch of text begins with another text.
fn has_head(v: &Vec<char>, lo: usize, hi: usize, head: &Vec<char>) -> (r: bool)
    requires
        lo <= hi <= v@.len(),
    ensures
        r == begins_with(v@.subrange(lo as int, hi as int), head@),
{
    let ghost s = v@.subrange(lo as int, hi as int);
    if hi - lo < head.len() {
        return false;
    }
    let mut i: usize = 0;
    while i < head.len()
        invariant
            i <= head@.len() <= s.len(),
            lo <= hi <= v@.len(),
            s == v@.subrange(lo as int, hi as int),
            forall|k: int| 0 <= k < i ==> s[k] == head@[k],
        decreases head@.len() - i,
    {
        if v[lo + i] != head[i] {
            assert(s.take(head@.len() as int)[i as int] != head@[i as int]);
            return false;
        }
        i += 1;
    }
    assert(s.take(head@.len() as int) =~= head@);
    true
}

/// The ASCII lower-case form of a character.
fn to_lower(c: char) -> (r: char)
    ensures
        r == text::lower_char(c),
{
    if 'A' <= c && c <= 'Z' {
        (c as u8 + 32) as char
    } else {
        c
    }
}

/// Whether a stretch of text, in lower case, begins with another text.
fn has_head_lower(v: &Vec<char>, lo: usize, hi: usize, head: &Vec<char>) -> (r: bool)
    requires
        lo <= hi <= v@.len(),
    ensures
        r == begins_with(text::lower(v@.subrange(lo as int, hi as int)), head@),
{
    let ghost s = text::lower(v@.subrange(lo as int, hi as int));
    if hi - lo < head.len() {
        return false;
    }
    let mut i: usize = 0;
    while i < head.len()
        invariant
            i <= head@.len() <= s.len(),
            lo <= hi <= v@.len(),
            s == text::lower(v@.subrange(lo as int, hi as int)),
            forall|k: int| 0 <= k < i ==> s[k] == head@[k],
        decreases head@.len() - i,
    {
        if to_lower(v[lo + i]) != head[i] {
            assert(s.take(head@.len() as int)[i as int] != head@[i as int]);
            return false;
        }
        i += 1;
    }
    assert(s.take(head@.len() as int) =~= head@);
    true
}

/// Reads a number from 0 to 255 out of a stretch of text.
fn read_u8(v: &Vec<char>, lo: usize, hi: usize) -> (r: Option<u8>)
    requires
        lo <= hi <= v@.len(),
    ensures
        r == u8_written(v@.subrange(lo as int, hi as int)),
{
    let ghost s = v@.subrange(lo as int, hi as int);
    let start: usize = if lo < hi && v[lo] == '+' {
        lo + 1
    } else {
        lo
    };
    let ghost t = v@.subrange(start as int, hi as int);
    assert(t =~= if s.len() > 0 && s[0] == '+' {
        s.skip(1)
    } else {
        s
    });
    if start == hi {
        return None;
    }
    let mut acc: u32 = 0;
    let mut over: bool = false;
    let mut i: usize = start;
    assert(t.take(0) =~= Seq::<char>::empty());
    while i < hi
        invariant
            lo <= start <= i <= hi <= v@.len(),
            t == v@.subrange(start as int, hi as int),
            s == v@.subrange(lo as int, hi as int),
            t == (if s.len() > 0 && s[0] == '+' {
                s.skip(1)
            } else {
                s
            }),
            forall|k: int| start <= k < i ==> '0' <= #[trigger] v@[k] <= '9',
            over == (digits_value(t.take(i - start)) > 255),
            !over ==> acc == digits_value(t.take(i - start)),
            acc <= 255,
        decreases hi - i,
    {
        let c = v[i];
        assert(t[i - start] == c);
        if c < '0' || c > '9' {
            return None;
        }
        assert(t.take(i - start + 1).drop_last() =~= t.take(i - start));
        let d: u32 = c as u32 - '0' as u32;
        let next: u32 = acc * 10 + d;
        if over || next > 255 {
            over = true;
        } else {
            acc = next;
        }
        i += 1;
    }
    assert(t.take(hi - start) =~= t);
    assert(all_digits(t));
    if over {
        None
    } else {
        Some(acc as u8)
    }
}

/// Reads the payload type that a session description assigns to Opus.
///
/// The offerer chooses the payload numbers, so what is sent must carry the number that
/// the answer settled on.
pub fn negotiated_opus_pt(sdp: &str) -> (r: Option<u8>)
    ensures
        r == opus_payload_type(sdp@),
{
    let v = chars_of(sdp);
    let attr = chars_of("a=rtpmap:");
    let codec = chars_of("opus/");
    let n: usize = v.len();
    let mut lo: usize = 0;
    assert(v@.subrange(0, n as int) =~= sdp@);
    while lo < n
        invariant
            lo <= n == v@.len(),
            attr@ == "a=rtpmap:"@,
            codec@ == "opus/"@,
            opus_payload_type(sdp@) == opus_payload_type(v@.subrange(lo as int, n as int)),
        decreases n - lo,
    {
        let ghost left = v@.subrange(lo as int, n as int);
        let end = find(&v, lo, n, '\n');
        let (a, b) = trim(&v, lo, end);
        let ghost line = v@.subrange(a as int, b as int);
        assert(left.take(end - lo) =~= v@.subrange(lo as int, end as int));
        if has_head(&v, a, b, &attr) {
            let body: usize = a + attr.len();
            let gap = find(&v, body, b, ' ');
            assert(line.skip(attr@.len() as int) =~= v@.subrange(body as int, b as int));
            let ghost rest = v@.subrange(body as int, b as int);
            if gap < b {
                assert(rest.skip(gap - body + 1) =~= v@.subrange(gap + 1, b as int));
                assert(rest.take(gap - body) =~= v@.subrange(body as int, gap as int));
                if has_head_lower(&v, gap + 1, b, &codec) {
                    return read_u8(&v, body, gap);
                }
            }
        }
        if end == n {
            return None;
        }
        assert(left.skip(end - lo + 1) =~= v@.subrange(end + 1, n as int));
        lo = end + 1;
    }
    None
}

/// The payload type that is offered for Opus where there is a choice.
pub const OPUS_PT_PREFERRED: u8 = 111;

/// The payload type to send Opus with under an answer: what the answer assigns to it,
/// else the preferred one.
pub fn outbound_pt(answer: &str) -> (r: u8)
    ensures
        r == match opus_payload_type(answer@) {
            Some(pt) => pt,
            None => OPUS_PT_PREFERRED,
        },
{
    match negotiated_opus_pt(answer) {
        Some(pt) => pt,
        None => OPUS_PT_PREFERRED,
    }
}

/// Whether a text holds another one somewhere.
pub open spec fn holds_text(s: Seq<char>, part: Seq<char>) -> bool {
    exists|i: int| 0 <= i <= s.len() && begins_with(#[trigger] s.skip(i), part)
}

/// Whether a session description carries an ICE candidate. An answer without one is a
/// connection that cannot come up: the other side learns no address from it.
pub fn carries_candidates(sdp: &str) -> (r: bool)
    ensures
        r == holds_text(sdp@, "a=candidate:"@),
{
    let v = chars_of(sdp);
    let attr = chars_of("a=candidate:");
    let n: usize = v.len();
    let mut i: usize = 0;
    while i < n
        invariant
            i <= n == v@.len(),
            v@ == sdp@,
            attr@ == "a=candidate:"@,
            forall|k: int| 0 <= k < i ==> !begins_with(#[trigger] sdp@.skip(k), attr@),
        decreases n - i,
    {
        assert(v@.subrange(i as int, n as int) =~= sdp@.skip(i as int));
        if has_head(&v, i, n, &attr) {
            return true;
        }
        i += 1;
    }
    proof {
        reveal_strlit("a=candidate:");
    }
    false
}

/// The codec's name is read without regard to ASCII case: a line that maps a payload
/// type says the same in whatever case the codec is written.
pub proof fn law_codec_ignores_case(pt: Seq<char>, a: Seq<char>, b: Seq<char>)
    requires
        text::lower(a) == text::lower(b),
        !pt.contains(' '),
    ensures
        rtp_map("a=rtpmap:"@ + pt + " "@ + a) == rtp_map("a=rtpmap:"@ + pt + " "@ + b),
{
    lemma_rtp_map_parts(pt, a);
    lemma_rtp_map_parts(pt, b);
}

/// Where the codec of a line begins with `opus/`, the line maps Opus to the payload type
/// before it.
pub proof fn law_opus_line(pt: Seq<char>, codec: Seq<char>)
    requires
        !pt.contains(' '),
        begins_with(text::lower(codec), "opus/"@),
    ensures
        rtp_map("a=rtpmap:"@ + pt + " "@ + codec) == RtpMap::Opus(pt),
{
    lemma_rtp_map_parts(pt, codec);
}

proof fn lemma_rtp_map_parts(pt: Seq<char>, codec: Seq<char>)
    requires
        !pt.contains(' '),
    ensures
        rtp_map("a=rtpmap:"@ + pt + " "@ + codec) == (if begins_with(
            text::lower(codec),
            "opus/"@,
        ) {
            RtpMap::Opus(pt)
        } else {
            RtpMap::Other
        }),
{
    reveal_strlit(" ");
    let head = "a=rtpmap:"@;
    let line = head + pt + " "@ + codec;
    let rest = line.skip(head.len() as int);
    assert(line.take(head.len() as int) =~= head);
    assert(rest =~= pt + " "@ + codec);
    assert forall|i: int| 0 <= i < pt.len() implies rest[i] != ' ' by {
        assert(rest[i] == pt[i]);
    }
    lemma_first_at_is(rest, ' ', pt.len() as int);
    assert(rest.take(pt.len() as int) =~= pt);
    assert(rest.skip((pt.len() + 1) as int) =~= codec);
}

} // verus!
