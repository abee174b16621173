//! Session descriptions: which payload type is read out of one, and whether it carries
//! candidates.

use crate::sdp;
use crate::sdp::RtpMap;
use crate::text;
use vstd::prelude::*;

verus! {

/// A text of white space alone.
pub open spec fn is_blank(s: Seq<char>) -> bool {
    forall|i: int| 0 <= i < s.len() ==> sdp::is_white(#[trigger] s[i])
}

/// What a line says starts and ends with something other than white space.
pub open spec fn is_bare(s: Seq<char>) -> bool {
    s.len() > 0 && !sdp::is_white(s[0]) && !sdp::is_white(s.last())
}

/// White space around what a line says does not matter.
pub proof fn law_white_space_does_not_matter(before: Seq<char>, core: Seq<char>, after: Seq<char>)
    requires
        is_blank(before),
        is_blank(after),
        is_bare(core),
    ensures
        sdp::trimmed(before + core + after) == core,
{
    lemma_trim_start(before, core + after);
    assert(before + core + after =~= before + (core + after));
    lemma_trim_end(core, after);
}

proof fn lemma_trim_start(before: Seq<char>, rest: Seq<char>)
    requires
        is_blank(before),
        rest.len() > 0,
        !sdp::is_white(rest[0]),
    ensures
        sdp::trim_start(before + rest) == rest,
    decreases before.len(),
{
    if before.len() == 0 {
        assert(before + rest =~= rest);
    } else {
        let fewer = before.skip(1);
        assert forall|i: int| 0 <= i < fewer.len() implies sdp::is_white(#[trigger] fewer[i]) by {
            assert(sdp::is_white(before[i + 1]));
        }
        assert(sdp::is_white(before[0]));
        assert((before + rest).skip(1) =~= fewer + rest);
        lemma_trim_start(fewer, rest);
    }
}

proof fn lemma_trim_end(core: Seq<char>, after: Seq<char>)
    requires
        is_blank(after),
        core.len() > 0,
        !sdp::is_white(core.last()),
    ensures
        sdp::trim_end(core + after) == core,
    decreases after.len(),
{
    if after.len() == 0 {
        assert(core + after =~= core);
    } else {
        let fewer = after.drop_last();
        assert forall|i: int| 0 <= i < fewer.len() implies sdp::is_white(#[trigger] fewer[i]) by {
            assert(sdp::is_white(after[i]));
        }
        assert(sdp::is_white(after[after.len() - 1]));
        assert((core + after).drop_last() =~= core + fewer);
        assert((core + after).last() == after.last());
        lemma_trim_end(core, fewer);
    }
}

/// A line of white space is passed over.
pub proof fn law_blank_lines_are_passed_over(blank: Seq<char>, rest: Seq<char>)
    requires
        is_blank(blank),
        !blank.contains('\n'),
    ensures
        sdp::opus_payload_type(blank + seq!['\n'] + rest) == sdp::opus_payload_type(rest),
{
    let whole = blank + seq!['\n'] + rest;
    assert forall|i: int| 0 <= i < blank.len() implies whole[i] != '\n' by {
        assert(whole[i] == blank[i]);
    }
    assert(whole[blank.len() as int] == '\n');
    sdp::lemma_first_at_is(whole, '\n', blank.len() as int);
    assert(whole.take(blank.len() as int) =~= blank);
    assert(whole.skip(blank.len() as int + 1) =~= rest);
    lemma_blank(blank);
    reveal_strlit("a=rtpmap:");
    assert("a=rtpmap:"@.len() == 9);
    assert(sdp::trim_end(Seq::<char>::empty()) =~= Seq::<char>::empty());
}

proof fn lemma_blank(blank: Seq<char>)
    requires
        is_blank(blank),
    ensures
        sdp::trim_start(blank) == Seq::<char>::empty(),
    decreases blank.len(),
{
    if blank.len() == 0 {
        assert(blank =~= Seq::<char>::empty());
    } else {
        let fewer = blank.skip(1);
        assert forall|i: int| 0 <= i < fewer.len() implies sdp::is_white(#[trigger] fewer[i]) by {
            assert(sdp::is_white(blank[i + 1]));
        }
        assert(sdp::is_white(blank[0]));
        lemma_blank(fewer);
    }
}

/// A plus sign before a payload type does not matter.
pub proof fn law_a_plus_sign_does_not_matter(s: Seq<char>)
    requires
        s.len() > 0,
        s[0] != '+',
    ensures
        sdp::u8_written(seq!['+'] + s) == sdp::u8_written(s),
{
    assert((seq!['+'] + s).skip(1) =~= s);
}

/// A line that maps Opus settles the payload type; any other is passed over, and what is
/// behind it counts.
pub proof fn law_lines_are_read_one_by_one(
    before: Seq<char>,
    core: Seq<char>,
    after: Seq<char>,
    rest: Seq<char>,
)
    requires
        is_blank(before),
        is_blank(after),
        is_bare(core),
        !before.contains('\n'),
        !core.contains('\n'),
        !after.contains('\n'),
    ensures
        sdp::opus_payload_type(before + core + after + seq!['\n'] + rest) == match sdp::rtp_map(
            core,
        ) {
            RtpMap::Opus(pt) => sdp::u8_written(pt),
            RtpMap::Other => sdp::opus_payload_type(rest),
        },
        sdp::opus_payload_type(before + core + after) == match sdp::rtp_map(core) {
            RtpMap::Opus(pt) => sdp::u8_written(pt),
            RtpMap::Other => None,
        },
{
    let line = before + core + after;
    law_white_space_does_not_matter(before, core, after);
    assert forall|i: int| 0 <= i < line.len() implies line[i] != '\n' by {
        if i < before.len() {
            assert(line[i] == before[i]);
        } else if i < before.len() + core.len() {
            assert(line[i] == core[i - before.len()]);
        } else {
            assert(line[i] == after[i - before.len() - core.len()]);
        }
    }
    let whole = line + seq!['\n'] + rest;
    assert forall|i: int| 0 <= i < line.len() implies whole[i] != '\n' by {
        assert(whole[i] == line[i]);
    }
    assert(whole[line.len() as int] == '\n');
    sdp::lemma_first_at_is(whole, '\n', line.len() as int);
    assert(whole.take(line.len() as int) =~= line);
    assert(whole.skip(line.len() as int + 1) =~= rest);
    sdp::lemma_first_at_is(line, '\n', line.len() as int);
    assert(line.take(line.len() as int) =~= line);
}

/// An empty line is passed over.
pub proof fn law_empty_lines_are_passed_over(rest: Seq<char>)
    ensures
        sdp::opus_payload_type(seq!['\n'] + rest) == sdp::opus_payload_type(rest),
        sdp::opus_payload_type(Seq::empty()) is None,
{
    let whole = seq!['\n'] + rest;
    assert(whole[0] == '\n');
    sdp::lemma_first_at_is(whole, '\n', 0);
    assert(whole.take(0) =~= Seq::<char>::empty());
    assert(whole.skip(1) =~= rest);
    reveal_strlit("a=rtpmap:");
    assert("a=rtpmap:"@.len() == 9);
    assert(sdp::trimmed(Seq::<char>::empty()) =~= Seq::<char>::empty());
}

/// A line of another attribute, one that names no codec, and one of another codec do not map
/// Opus. A line of the attribute with a payload type, a blank and a codec whose name is
/// `opus`, in whatever case, does, to just that payload type.
pub proof fn law_which_lines_map_opus(line: Seq<char>, pt: Seq<char>, codec: Seq<char>)
    requires
        !pt.contains(' '),
    ensures
        !(line.len() >= 9 && line.subrange(0, 9) == "a=rtpmap:"@) ==> sdp::rtp_map(line) is Other,
        sdp::rtp_map("a=rtpmap:"@ + pt) is Other,
        codec.len() >= 5 && text::lower(codec).subrange(0, 5) == "opus/"@ ==> sdp::rtp_map(
            "a=rtpmap:"@ + pt + " "@ + codec,
        ) == RtpMap::Opus(pt),
        !(codec.len() >= 5 && text::lower(codec).subrange(0, 5) == "opus/"@) ==> sdp::rtp_map(
            "a=rtpmap:"@ + pt + " "@ + codec,
        ) is Other,
{
    reveal_strlit("a=rtpmap:");
    reveal_strlit("opus/");
    reveal_strlit(" ");
    assert("a=rtpmap:"@.len() == 9 && "opus/"@.len() == 5);
    if line.len() >= 9 {
        assert(line.take(9) =~= line.subrange(0, 9));
    }
    let head = "a=rtpmap:"@;
    let bare = head + pt;
    assert(bare.skip(9) =~= pt);
    sdp::lemma_first_at_is(pt, ' ', pt.len() as int);
    let l = head + pt + " "@ + codec;
    let rest = l.skip(9);
    assert(l.take(9) =~= head);
    assert(rest =~= pt + " "@ + codec);
    assert forall|i: int| 0 <= i < pt.len() implies rest[i] != ' ' by {
        assert(rest[i] == pt[i]);
    }
    sdp::lemma_first_at_is(rest, ' ', pt.len() as int);
    assert(rest.skip(pt.len() as int + 1) =~= codec);
    assert(rest.take(pt.len() as int) =~= pt);
    let low = text::lower(codec);
    assert(low.len() == codec.len());
    if codec.len() >= 5 {
        assert(low.take(5) =~= low.subrange(0, 5));
    }
}

/// A payload type is read as it is written in decimal digits, from 0 to 255; a larger number
/// is none.
pub proof fn law_a_payload_type_reads_back(n: nat)
    ensures
        sdp::u8_written(text::decimal(n)) == if n <= 255 {
            Some(n as u8)
        } else {
            None
        },
{
    lemma_decimal(n);
    let d = text::decimal(n);
    assert('0' <= d[0] <= '9');
}

proof fn lemma_decimal(n: nat)
    ensures
        text::decimal(n).len() > 0,
        sdp::all_digits(text::decimal(n)),
        sdp::digits_value(text::decimal(n)) == n,
    decreases n,
{
    let d = text::decimal(n);
    if n < 10 {
        assert(d.drop_last() =~= Seq::<char>::empty());
        assert(d.last() == text::digit_char(n));
        assert(sdp::digits_value(d.drop_last()) == 0);
        assert(text::digit_char(n) as nat - '0' as nat == n);
    } else {
        lemma_decimal(n / 10);
        assert(d.drop_last() =~= text::decimal(n / 10));
        assert(text::digit_char(n % 10) as nat - '0' as nat == n % 10);
        assert forall|i: int| 0 <= i < d.len() implies '0' <= #[trigger] d[i] <= '9' by {
            if i < d.len() - 1 {
                assert(d[i] == text::decimal(n / 10)[i]);
            }
        }
    }
}

/// A payload type that holds anything but digits, or nothing, is none.
pub proof fn law_what_is_no_payload_type(s: Seq<char>, i: int)
    requires
        0 < i < s.len() || (i == 0 && s.len() > 0 && s[0] != '+'),
        !('0' <= s[i] <= '9'),
    ensures
        sdp::u8_written(s) is None,
        sdp::u8_written(Seq::empty()) is None,
{
    if s[0] == '+' {
        assert(s.skip(1)[i - 1] == s[i]);
    }
}

/// A description carries candidates exactly if `a=candidate:` stands somewhere in it.
pub proof fn law_where_candidates_are_seen(before: Seq<char>, after: Seq<char>, other: Seq<char>)
    ensures
        sdp::holds_text(before + "a=candidate:"@ + after, "a=candidate:"@),
        sdp::holds_text(other, "a=candidate:"@) ==> exists|i: int|
            0 <= i <= other.len() - 12 && #[trigger] other.subrange(i, i + 12) == "a=candidate:"@,
{
    reveal_strlit("a=candidate:");
    let part = "a=candidate:"@;
    assert(part.len() == 12);
    let s = before + part + after;
    assert(s.skip(before.len() as int).take(12) =~= part);
    assert(sdp::begins_with(s.skip(before.len() as int), part));
    if sdp::holds_text(other, part) {
        let i = choose|i: int|
            0 <= i <= other.len() && sdp::begins_with(#[trigger] other.skip(i), part);
        assert(other.skip(i).take(12) =~= other.subrange(i, i + 12));
    }
}

// ---- the calls ----

/// The payload type of an answer is read out of it; where there is none, 111 is sent.
pub proof fn law_outbound_pt(answer: &str, found: Option<u8>, r: u8, seen: bool)
    requires
        call_ensures(sdp::negotiated_opus_pt, (answer,), found),
        call_ensures(sdp::outbound_pt, (answer,), r),
        call_ensures(sdp::carries_candidates, (answer,), seen),
    ensures
        found == sdp::opus_payload_type(answer@),
        found matches Some(pt) ==> r == pt,
        found is None ==> r == 111,
        seen == sdp::holds_text(answer@, "a=candidate:"@),
{
}

/// The characters that count as white space.
pub proof fn law_white(c: char, r: bool)
    requires
        call_ensures(sdp::white, (c,), r),
    ensures
        r == sdp::is_white(c),
        c == ' ' || c == '\t' || c == '\n' || c == '\r' ==> r,
        '!' <= c <= '~' ==> !r,
{
}

} // verus!
