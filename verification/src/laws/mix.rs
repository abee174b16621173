//! A tick of a room: who is heard, who is told what, and what is left of each session.

use crate::json;
use crate::json::{JsonNumber, JsonView, Members};
use crate::mix;
use crate::mix::{RoomMix, SpeakerView};
use crate::mixer::Placement;
use crate::proto;
use crate::proto::RosterEntry;
use crate::room;
use crate::room::{SessionView, SpatialState};
use vstd::prelude::*;

verus! {

/// The members of a room stand among the sessions, each at a place of its own.
pub open spec fn are_members(members: Seq<int>, n: nat) -> bool {
    &&& forall|i: int| 0 <= i < members.len() ==> 0 <= #[trigger] members[i] < n
    &&& forall|i: int, j: int|
        0 <= i < members.len() && 0 <= j < members.len() && i != j ==> members[i] != members[j]
}

// ---- frames and levels ----

/// A tick takes of every member the oldest of its frames, and its level is that of this
/// frame; of a member that has none it takes nothing, and the level is 0. There is one
/// output for each member, under the id of its session.
#[verifier::spinoff_prover]
pub proof fn law_a_tick_takes_the_oldest_frames<
    S,
    P,
    L: Fn(&Vec<S>) -> u8,
    F: Fn(SpatialState, SpatialState) -> Option<P>,
>(
    level_of: L,
    place: F,
    before: Seq<SessionView<S>>,
    members: Seq<int>,
    mix: RoomMix<S, P>,
    k: int,
)
    requires
        mix::is_mix(level_of, place, before, members, mix),
        are_members(members, before.len()),
        0 <= k < members.len(),
    ensures
        mix.frames@.len() == members.len(),
        mix.levels@.len() == members.len(),
        mix.outputs@.len() == members.len(),
        mix.outputs@[k].session@ == before[members[k]].id,
        before[members[k]].inbound.len() > 0 ==> {
            &&& mix.frames@[k] is Some
            &&& mix.frames@[k]->Some_0@ == before[members[k]].inbound[0]
            &&& call_ensures(level_of, (&mix.frames@[k]->Some_0,), mix.levels@[k])
        },
        before[members[k]].inbound.len() == 0 ==> mix.frames@[k] is None && mix.levels@[k] == 0,
{
    mix::law_each_member_takes_part_once(level_of, place, before, members, mix, k);
    assert(mix.frames@[k] == mix.frames@[k]);
}

// ---- who is heard ----

/// A speaker has something to be heard of by a listener, as far as positions do not decide:
/// it is another session, it has a frame, and the listener has neither muted its agent nor
/// turned it down to nothing.
pub open spec fn can_be_heard<S>(listener: SessionView<S>, speaker: SessionView<S>) -> bool {
    &&& speaker.id != listener.id
    &&& speaker.inbound.len() > 0
    &&& !(listener.mutes.contains_key(speaker.agent_id) && listener.mutes[speaker.agent_id])
    &&& !(listener.gains.contains_key(speaker.agent_id) && listener.gains[speaker.agent_id] == 0)
}

/// The gain of a listener for an agent that it has not muted: the one that it chose, else
/// 220 units, which is unity.
pub open spec fn chosen_gain<S>(listener: SessionView<S>, agent: Seq<char>) -> u32 {
    if listener.gains.contains_key(agent) {
        listener.gains[agent]
    } else {
        220
    }
}

#[verifier::spinoff_prover]
proof fn lemma_heard<
    S,
    P,
    L: Fn(&Vec<S>) -> u8,
    F: Fn(SpatialState, SpatialState) -> Option<P>,
>(
    level_of: L,
    place: F,
    before: Seq<SessionView<S>>,
    members: Seq<int>,
    mix: RoomMix<S, P>,
    k: int,
)
    requires
        mix::is_mix(level_of, place, before, members, mix),
        are_members(members, before.len()),
        0 <= k < members.len(),
    ensures
        ({
            let heard = mix::draw(before, members, mix.levels@, members.len());
            &&& heard[members[k]].id == before[members[k]].id
            &&& heard[members[k]].agent_id == before[members[k]].agent_id
            &&& heard[members[k]].state == before[members[k]].state
            &&& heard[members[k]].spatial == before[members[k]].spatial
            &&& heard[members[k]].gains == before[members[k]].gains
            &&& heard[members[k]].mutes == before[members[k]].mutes
            &&& heard[members[k]].primary == before[members[k]].primary
            &&& heard[members[k]].level == mix.levels@[k]
            &&& mix::frame_views(mix.frames@).len() == members.len()
            &&& mix::frame_views(mix.frames@)[k] is Some <==> before[members[k]].inbound.len() > 0
            &&& mix::hears(
                place,
                heard,
                members,
                mix::frame_views(mix.frames@),
                heard[members[k]],
                members.len() as int,
                mix.outputs@[k].contributions@,
            )
        }),
{
    mix::law_each_member_takes_part_once(level_of, place, before, members, mix, k);
    assert(mix.outputs@[k] == mix.outputs@[k]);
    assert(mix::frame_views(mix.frames@)[k] == room::frame_view(mix.frames@[k]));
}

/// In a room without positions every listener hears every other member who speaks, whom it
/// has not muted nor turned down to nothing: once, in the middle, at the gain that it chose,
/// else at unity. Nothing else decides.
#[verifier::spinoff_prover]
pub proof fn law_everyone_else_is_heard_in_a_group<
    S,
    P,
    L: Fn(&Vec<S>) -> u8,
    F: Fn(SpatialState, SpatialState) -> Option<P>,
>(
    level_of: L,
    place: F,
    before: Seq<SessionView<S>>,
    members: Seq<int>,
    mix: RoomMix<S, P>,
    k: int,
    j: int,
)
    requires
        mix::is_mix(level_of, place, before, members, mix),
        are_members(members, before.len()),
        0 <= k < members.len(),
        0 <= j < members.len(),
        !before[members[k]].spatial,
        can_be_heard(before[members[k]], before[members[j]]),
    ensures
        exists|i: int|
            0 <= i < mix.outputs@[k].contributions@.len() && {
                let c = #[trigger] mix.outputs@[k].contributions@[i];
                &&& c.speaker == j
                &&& c.placement is Centre
                &&& c.gain == chosen_gain(before[members[k]], before[members[j]].agent_id)
            },
{
    lemma_heard(level_of, place, before, members, mix, k);
    lemma_heard(level_of, place, before, members, mix, j);
    let out = mix.outputs@[k].contributions@;
    assert(members[j] == members[j]);
    assert(exists|i: int| 0 <= i < out.len() && (#[trigger] out[i]).speaker == j);
    let i = choose|i: int| 0 <= i < out.len() && (#[trigger] out[i]).speaker == j;
    assert(mix.outputs@[k].contributions@[i].speaker == j);
}

/// In a room with positions every listener hears every other member who speaks, whom it has
/// not muted nor turned down to nothing, and whose place is known as its own is, unless the
/// two are out of range: once, from where the two places put the speaker, at the gain that
/// it chose, else at unity.
#[verifier::spinoff_prover]
pub proof fn law_everyone_in_range_is_heard<
    S,
    P,
    L: Fn(&Vec<S>) -> u8,
    F: Fn(SpatialState, SpatialState) -> Option<P>,
>(
    level_of: L,
    place: F,
    before: Seq<SessionView<S>>,
    members: Seq<int>,
    mix: RoomMix<S, P>,
    k: int,
    j: int,
)
    requires
        mix::is_mix(level_of, place, before, members, mix),
        are_members(members, before.len()),
        0 <= k < members.len(),
        0 <= j < members.len(),
        before[members[k]].spatial,
        can_be_heard(before[members[k]], before[members[j]]),
        before[members[k]].state.known,
        before[members[j]].state.known,
        !call_ensures(
            place,
            (before[members[j]].state, before[members[k]].state),
            None::<P>,
        ),
    ensures
        exists|i: int|
            0 <= i < mix.outputs@[k].contributions@.len() && {
                let c = #[trigger] mix.outputs@[k].contributions@[i];
                &&& c.speaker == j
                &&& c.placement matches Placement::At(p) && call_ensures(
                    place,
                    (before[members[j]].state, before[members[k]].state),
                    Some(p),
                )
                &&& c.gain == chosen_gain(before[members[k]], before[members[j]].agent_id)
            },
{
    lemma_heard(level_of, place, before, members, mix, k);
    lemma_heard(level_of, place, before, members, mix, j);
    let out = mix.outputs@[k].contributions@;
    assert(members[j] == members[j]);
    assert(exists|i: int| 0 <= i < out.len() && (#[trigger] out[i]).speaker == j);
    let i = choose|i: int| 0 <= i < out.len() && (#[trigger] out[i]).speaker == j;
    assert(mix.outputs@[k].contributions@[i].speaker == j);
}

/// Nobody else is heard: every part of a mix is that of another member who speaks and whom
/// the listener wants to hear, at the gain that it chose, in the middle in a room without
/// positions, and else from where two known places put the speaker. No member has two parts,
/// and the parts are in the order of the members.
#[verifier::spinoff_prover]
pub proof fn law_nobody_else_is_heard<
    S,
    P,
    L: Fn(&Vec<S>) -> u8,
    F: Fn(SpatialState, SpatialState) -> Option<P>,
>(
    level_of: L,
    place: F,
    before: Seq<SessionView<S>>,
    members: Seq<int>,
    mix: RoomMix<S, P>,
    k: int,
    i: int,
)
    requires
        mix::is_mix(level_of, place, before, members, mix),
        are_members(members, before.len()),
        0 <= k < members.len(),
        0 <= i < mix.outputs@[k].contributions@.len(),
    ensures
        ({
            let c = mix.outputs@[k].contributions@[i];
            let l = before[members[k]];
            let s = before[members[c.speaker as int]];
            &&& c.speaker < members.len()
            &&& can_be_heard(l, s)
            &&& c.gain == chosen_gain(l, s.agent_id)
            &&& c.placement is Centre <==> !l.spatial
            &&& l.spatial ==> l.state.known && s.state.known
            &&& c.placement matches Placement::At(p) ==> call_ensures(
                place,
                (s.state, l.state),
                Some(p),
            )
        }),
        forall|h: int|
            0 <= h < i ==> (#[trigger] mix.outputs@[k].contributions@[h]).speaker
                < mix.outputs@[k].contributions@[i].speaker,
{
    lemma_heard(level_of, place, before, members, mix, k);
    let c = mix.outputs@[k].contributions@[i];
    assert(c.speaker < members.len());
    lemma_heard(level_of, place, before, members, mix, c.speaker as int);
}

// ---- who is told what ----

/// A listener is told of the agent `j` for the first time: it was not told of it before,
/// and no earlier member is of the same agent.
pub open spec fn is_new(announced: Set<Seq<char>>, agents: Seq<Seq<char>>, j: int) -> bool {
    &&& !announced.contains(agents[j])
    &&& forall|i: int| 0 <= i < j ==> agents[i] != agents[j]
}

/// There is something to say of member `j`: it is new or not silent.
pub open spec fn is_worth_telling(
    announced: Set<Seq<char>>,
    agents: Seq<Seq<char>>,
    levels: Seq<u8>,
    j: int,
) -> bool {
    levels[j] > 0 || is_new(announced, agents, j)
}

/// What is said of a member: its level, whether that is speaking, that no moderator muted
/// it; and of a new one that it joined, and whether this is its primary connection. Nothing
/// else.
#[verifier::opaque]
pub open spec fn says(d: JsonView, new: bool, primary: bool, level: u8) -> bool {
    match d {
        JsonView::Object(e) => {
            &&& e.contains_key("p"@) && e["p"@] == JsonView::Number(
                JsonNumber::PosInt(level as u64),
            )
            &&& e.contains_key("v"@) && e["v"@] == JsonView::Bool(level >= 39)
            &&& e.contains_key("m"@) && e["m"@] == JsonView::Bool(false)
            &&& e.contains_key("j"@) <==> new
            &&& new ==> (match e["j"@] {
                JsonView::Object(o) => {
                    &&& o.contains_key("p"@) && o["p"@] == JsonView::Bool(primary)
                    &&& forall|x: Seq<char>| #[trigger] o.contains_key(x) ==> x == "p"@
                },
                _ => false,
            })
            &&& forall|x: Seq<char>| #[trigger]
                e.contains_key(x) ==> x == "p"@ || x == "v"@ || x == "m"@ || x == "j"@
        },
        _ => false,
    }
}

/// A roster's document speaks of exactly the agents of whom there is something to say, and
/// says it of the last such member of each.
pub open spec fn speaks_of(
    doc: Members,
    announced: Set<Seq<char>>,
    agents: Seq<Seq<char>>,
    primaries: Seq<bool>,
    levels: Seq<u8>,
) -> bool {
    &&& forall|j: int|
        0 <= j < agents.len() && is_worth_telling(announced, agents, levels, j)
            ==> doc.contains_key(#[trigger] agents[j])
    &&& forall|a: Seq<char>| #[trigger]
        doc.contains_key(a) ==> exists|j: int|
            0 <= j < agents.len() && #[trigger] agents[j] == a && is_worth_telling(
                announced,
                agents,
                levels,
                j,
            )
    &&& forall|j: int|
        0 <= j < agents.len() && is_worth_telling(announced, agents, levels, j) && (forall|i: int|
            j < i < agents.len() && agents[i] == agents[j] ==> !is_worth_telling(
                announced,
                agents,
                levels,
                i,
            )) ==> says(
            doc[#[trigger] agents[j]],
            is_new(announced, agents, j),
            primaries[j],
            levels[j],
        )
}

#[verifier::spinoff_prover]
proof fn lemma_entry(new: bool, primary: bool, level: u8)
    ensures
        says(
            proto::entry_document(
                RosterEntry {
                    joined: new,
                    primary,
                    power: level,
                    speaking: proto::is_speaking(level),
                    moderator_muted: false,
                },
            ),
            new,
            primary,
            level,
        ),
{
    reveal(says);
    reveal_strlit("p");
    reveal_strlit("v");
    reveal_strlit("m");
    reveal_strlit("j");
    assert("p"@[0] == 'p' && "v"@[0] == 'v' && "m"@[0] == 'm' && "j"@[0] == 'j');
}

/// One more member carries a roster on.
#[verifier::spinoff_prover]
proof fn lemma_roster_step(
    announced: Set<Seq<char>>,
    agents: Seq<Seq<char>>,
    primaries: Seq<bool>,
    levels: Seq<u8>,
    had: Members,
    d: JsonView,
)
    requires
        0 < agents.len() == primaries.len() == levels.len(),
        speaks_of(
            had,
            announced,
            agents.drop_last(),
            primaries.drop_last(),
            levels.drop_last(),
        ),
        says(
            d,
            is_new(announced, agents, agents.len() - 1),
            primaries.last(),
            levels.last(),
        ),
    ensures
        speaks_of(
            if is_worth_telling(announced, agents, levels, agents.len() - 1) {
                had.insert(agents.last(), d)
            } else {
                had
            },
            announced,
            agents,
            primaries,
            levels,
        ),
{
    let n = agents.len() - 1;
    let ag = agents.drop_last();
    let pr = primaries.drop_last();
    let le = levels.drop_last();
    let worth = is_worth_telling(announced, agents, levels, n);
    let doc = if worth {
        had.insert(agents.last(), d)
    } else {
        had
    };
    assert forall|j: int| 0 <= j < n implies is_worth_telling(announced, agents, levels, j)
        == #[trigger] is_worth_telling(announced, ag, le, j) && is_new(announced, agents, j)
        == is_new(announced, ag, j) by {
        lemma_same_start(announced, agents, ag, j);
    }
    assert forall|j: int|
        0 <= j < agents.len() && is_worth_telling(announced, agents, levels, j) implies
        doc.contains_key(#[trigger] agents[j]) by {
        if j < n {
            assert(is_worth_telling(announced, ag, le, j));
            assert(had.contains_key(ag[j]));
        }
    }
    assert forall|a: Seq<char>| #[trigger] doc.contains_key(a) implies exists|j: int|
        0 <= j < agents.len() && #[trigger] agents[j] == a && is_worth_telling(
            announced,
            agents,
            levels,
            j,
        ) by {
        if worth && a == agents[n] {
            assert(agents[n] == a);
        } else {
            assert(had.contains_key(a));
            let j = choose|j: int|
                0 <= j < ag.len() && #[trigger] ag[j] == a && is_worth_telling(
                    announced,
                    ag,
                    le,
                    j,
                );
            assert(is_worth_telling(announced, ag, le, j));
            assert(agents[j] == a);
        }
    }
    assert forall|j: int|
        0 <= j < agents.len() && is_worth_telling(announced, agents, levels, j) && (forall|i: int|
            j < i < agents.len() && agents[i] == agents[j] ==> !is_worth_telling(
                announced,
                agents,
                levels,
                i,
            )) implies says(
        doc[#[trigger] agents[j]],
        is_new(announced, agents, j),
        primaries[j],
        levels[j],
    ) by {
        if j < n {
            assert(is_worth_telling(announced, ag, le, j));
            assert(!(worth && agents[n] == agents[j]));
            assert forall|i: int| j < i < ag.len() && ag[i] == ag[j] implies !is_worth_telling(
                announced,
                ag,
                le,
                i,
            ) by {
                assert(is_worth_telling(announced, agents, levels, i) == is_worth_telling(
                    announced,
                    ag,
                    le,
                    i,
                ));
                assert(agents[i] == agents[j]);
            }
            assert(says(had[ag[j]], is_new(announced, ag, j), pr[j], le[j]));
            assert(doc[agents[j]] == had[ag[j]]);
        }
    }
}

/// A listener was told of a speaker by earlier ones exactly if it is not new.
#[verifier::spinoff_prover]
proof fn lemma_new(announced: Set<Seq<char>>, all: Seq<SpeakerView>, agents: Seq<Seq<char>>)
    requires
        0 < all.len() == agents.len(),
        forall|j: int| 0 <= j < all.len() ==> (#[trigger] all[j]).agent == agents[j],
    ensures
        mix::told_of(announced, all.drop_last()).contains(all.last().agent) <==> !is_new(
            announced,
            agents,
            agents.len() - 1,
        ),
{
    let n = all.len() - 1;
    let rest = all.drop_last();
    mix::lemma_told_of(announced, rest);
    assert(all[n].agent == agents[n]);
    if exists|i: int| 0 <= i < rest.len() && #[trigger] rest[i].agent == all.last().agent {
        let i = choose|i: int| 0 <= i < rest.len() && #[trigger] rest[i].agent == all.last().agent;
        assert(all[i].agent == agents[i]);
        assert(agents[i] == agents[n]);
    }
    if !is_new(announced, agents, n) && !announced.contains(agents[n]) {
        let i = choose|i: int| 0 <= i < n && agents[i] == agents[n];
        assert(all[i].agent == agents[i]);
        assert(mix::told_of(announced, rest).contains(rest[i].agent));
    }
}

#[verifier::spinoff_prover]
proof fn lemma_roster(
    announced: Set<Seq<char>>,
    all: Seq<SpeakerView>,
    agents: Seq<Seq<char>>,
    primaries: Seq<bool>,
    levels: Seq<u8>,
)
    requires
        all.len() == agents.len() == primaries.len() == levels.len(),
        forall|j: int|
            0 <= j < all.len() ==> (#[trigger] all[j]).agent == agents[j] && all[j].primary
                == primaries[j] && all[j].level == levels[j],
    ensures
        speaks_of(
            proto::roster_members(mix::roster_entries(announced, all)),
            announced,
            agents,
            primaries,
            levels,
        ),
        mix::roster_entries(announced, all).len() == 0 <==> forall|j: int|
            0 <= j < agents.len() ==> !#[trigger] is_worth_telling(announced, agents, levels, j),
    decreases all.len(),
{
    if all.len() > 0 {
        let n = all.len() - 1;
        let rest = all.drop_last();
        let ag = agents.drop_last();
        let pr = primaries.drop_last();
        let le = levels.drop_last();
        assert forall|j: int| 0 <= j < rest.len() implies (#[trigger] rest[j]).agent == ag[j]
            && rest[j].primary == pr[j] && rest[j].level == le[j] by {
            assert(all[j].agent == agents[j]);
        }
        lemma_roster(announced, rest, ag, pr, le);
        lemma_new(announced, all, agents);
        let last = all.last();
        assert(all[n] == last);
        let entries = mix::roster_entries(announced, all);
        let had = mix::roster_entries(announced, rest);
        let new = is_new(announced, agents, n);
        let worth = is_worth_telling(announced, agents, levels, n);
        let entry = RosterEntry {
            joined: new,
            primary: last.primary,
            power: last.level,
            speaking: proto::is_speaking(last.level),
            moderator_muted: false,
        };
        lemma_entry(new, last.primary, last.level);
        lemma_roster_step(
            announced,
            agents,
            primaries,
            levels,
            proto::roster_members(had),
            proto::entry_document(entry),
        );
        if worth {
            assert(entries == had.push((last.agent, entry)));
            assert(entries.drop_last() =~= had);
        } else {
            assert(entries == had);
        }
        lemma_nothing_to_say(announced, agents, levels);
    }
}

proof fn lemma_nothing_to_say(announced: Set<Seq<char>>, agents: Seq<Seq<char>>, levels: Seq<u8>)
    requires
        0 < agents.len() == levels.len(),
    ensures
        (forall|j: int|
            0 <= j < agents.len() ==> !#[trigger] is_worth_telling(announced, agents, levels, j))
            <==> !is_worth_telling(announced, agents, levels, agents.len() - 1) && forall|j: int|
            0 <= j < agents.len() - 1 ==> !#[trigger] is_worth_telling(
                announced,
                agents.drop_last(),
                levels.drop_last(),
                j,
            ),
{
    let ag = agents.drop_last();
    let le = levels.drop_last();
    assert forall|j: int| 0 <= j < ag.len() implies #[trigger] is_worth_telling(
        announced,
        ag,
        le,
        j,
    ) == is_worth_telling(announced, agents, levels, j) by {
        lemma_same_start(announced, agents, ag, j);
    }
    if forall|j: int|
        0 <= j < agents.len() ==> !#[trigger] is_worth_telling(announced, agents, levels, j) {
        assert forall|j: int| 0 <= j < ag.len() implies !#[trigger] is_worth_telling(
            announced,
            ag,
            le,
            j,
        ) by {
            assert(!is_worth_telling(announced, agents, levels, j));
        }
    }
    if !is_worth_telling(announced, agents, levels, agents.len() - 1) && forall|j: int|
        0 <= j < ag.len() ==> !#[trigger] is_worth_telling(announced, ag, le, j) {
        assert forall|j: int| 0 <= j < agents.len() implies !#[trigger] is_worth_telling(
            announced,
            agents,
            levels,
            j,
        ) by {
            if j < ag.len() {
                assert(!is_worth_telling(announced, ag, le, j));
            }
        }
    }
}

proof fn lemma_same_start(
    announced: Set<Seq<char>>,
    agents: Seq<Seq<char>>,
    start: Seq<Seq<char>>,
    j: int,
)
    requires
        0 <= j < start.len() <= agents.len(),
        forall|i: int| 0 <= i < start.len() ==> start[i] == agents[i],
    ensures
        is_new(announced, agents, j) == is_new(announced, start, j),
{
}

/// What a listener is sent of the members of a room, in terms of their sessions: a roster
/// unless there is nothing to say of anyone; and it speaks of exactly those of whom there
/// is, each with its own level, and a new one with whether its own connection is primary.
pub proof fn law_what_a_roster_says<S>(
    announced: Set<Seq<char>>,
    sessions: Seq<SessionView<S>>,
    members: Seq<int>,
    agents: Seq<Seq<char>>,
    primaries: Seq<bool>,
    levels: Seq<u8>,
)
    requires
        members.len() == agents.len() == primaries.len() == levels.len(),
        forall|j: int|
            0 <= j < members.len() ==> {
                &&& sessions[#[trigger] members[j]].agent_id == agents[j]
                &&& sessions[members[j]].primary == primaries[j]
                &&& sessions[members[j]].level == levels[j]
            },
    ensures
        ({
            let all = mix::speakers(sessions, members);
            let roster = mix::roster_of(announced, all);
            let doc = proto::roster_members(mix::roster_entries(announced, all));
            &&& roster is None <==> forall|j: int|
                0 <= j < agents.len() ==> !#[trigger] is_worth_telling(
                    announced,
                    agents,
                    levels,
                    j,
                )
            &&& roster is Some ==> roster == Some(json::json_text(JsonView::Object(doc)))
            &&& speaks_of(doc, announced, agents, primaries, levels)
        }),
{
    let all = mix::speakers(sessions, members);
    assert forall|j: int| 0 <= j < all.len() implies (#[trigger] all[j]).agent == agents[j]
        && all[j].primary == primaries[j] && all[j].level == levels[j] by {
        assert(sessions[members[j]].agent_id == agents[j]);
    }
    lemma_roster(announced, all, agents, primaries, levels);
}

/// What a tick sends each listener: what there is to say of the members to one who was told
/// what it was told before the tick, at the levels of this tick.
#[verifier::spinoff_prover]
pub proof fn law_what_a_tick_tells<
    S,
    P,
    L: Fn(&Vec<S>) -> u8,
    F: Fn(SpatialState, SpatialState) -> Option<P>,
>(
    level_of: L,
    place: F,
    before: Seq<SessionView<S>>,
    members: Seq<int>,
    mix: RoomMix<S, P>,
    k: int,
    agents: Seq<Seq<char>>,
    primaries: Seq<bool>,
) -> (doc: Members)
    requires
        mix::is_mix(level_of, place, before, members, mix),
        are_members(members, before.len()),
        0 <= k < members.len(),
        members.len() == agents.len() == primaries.len(),
        forall|j: int|
            0 <= j < members.len() ==> {
                &&& before[#[trigger] members[j]].agent_id == agents[j]
                &&& before[members[j]].primary == primaries[j]
            },
    ensures
        ({
            let announced = before[members[k]].announced;
            let roster = mix.outputs@[k].roster;
            &&& roster is None <==> forall|j: int|
                0 <= j < agents.len() ==> !#[trigger] is_worth_telling(
                    announced,
                    agents,
                    mix.levels@,
                    j,
                )
            &&& roster is Some ==> roster->Some_0@ == json::json_text(JsonView::Object(doc))
            &&& speaks_of(doc, announced, agents, primaries, mix.levels@)
        }),
{
    let heard = mix::draw(before, members, mix.levels@, members.len());
    let announced = before[members[k]].announced;
    assert forall|j: int| 0 <= j < members.len() implies {
        &&& heard[#[trigger] members[j]].agent_id == agents[j]
        &&& heard[members[j]].primary == primaries[j]
        &&& heard[members[j]].level == mix.levels@[j]
    } by {
        lemma_heard(level_of, place, before, members, mix, j);
        assert(before[members[j]].agent_id == agents[j]);
    }
    mix::law_each_member_takes_part_once(level_of, place, before, members, mix, k);
    law_what_a_roster_says(announced, heard, members, agents, primaries, mix.levels@);
    proto::roster_members(mix::roster_entries(announced, mix::speakers(heard, members)))
}

// ---- what is left of each session ----

/// A tick takes the oldest frame off each member's queue, notes its level of this tick, and
/// remembers that it was told of the agents of all members, and of no other. It changes
/// nothing else of a member, and nothing at all of who is none.
#[verifier::spinoff_prover]
pub proof fn law_what_a_tick_leaves<S>(
    before: Seq<SessionView<S>>,
    members: Seq<int>,
    levels: Seq<u8>,
    k: int,
)
    requires
        are_members(members, before.len()),
        0 <= k < members.len(),
    ensures
        ({
            let s = before[members[k]];
            let after = mix::after_mix(before, members, levels)[members[k]];
            &&& after.inbound == if s.inbound.len() > 0 {
                s.inbound.subrange(1, s.inbound.len() as int)
            } else {
                s.inbound
            }
            &&& after.level == levels[k]
            &&& forall|a: Seq<char>| #[trigger]
                after.announced.contains(a) <==> s.announced.contains(a) || exists|j: int|
                    0 <= j < members.len() && before[#[trigger] members[j]].agent_id == a
            &&& after.id == s.id && after.agent_id == s.agent_id && after.room == s.room
            &&& after.spatial == s.spatial && after.state == s.state
            &&& after.gains == s.gains && after.mutes == s.mutes
            &&& after.joined == s.joined && after.primary == s.primary
            &&& after.closed == s.closed
        }),
        forall|i: int|
            0 <= i < before.len() && (forall|j: int|
                0 <= j < members.len() ==> #[trigger] members[j] != i) ==> (
            #[trigger] mix::after_mix(before, members, levels)[i]) == before[i],
{
    let n = members.len();
    let heard = mix::draw(before, members, levels, n);
    let all = mix::speakers(heard, members);
    mix::lemma_draw_keeps(before, members, levels, n);
    mix::lemma_drawn_once(before, members, levels, n, k);
    mix::lemma_announce_keeps(heard, members, all, n);
    lemma_told_once(heard, members, all, n, k);
    mix::lemma_told_of(before[members[k]].announced, all);
    let s = before[members[k]];
    let after = mix::after_mix(before, members, levels)[members[k]];
    assert forall|a: Seq<char>| #[trigger] after.announced.contains(a) <==> s.announced.contains(a)
        || exists|j: int|
        0 <= j < members.len() && before[#[trigger] members[j]].agent_id == a by {
        if exists|j: int| 0 <= j < members.len() && before[#[trigger] members[j]].agent_id == a {
            let j = choose|j: int|
                0 <= j < members.len() && before[#[trigger] members[j]].agent_id == a;
            assert(heard[members[j]].agent_id == a);
            assert(all[j].agent == a);
        }
        if after.announced.contains(a) && !s.announced.contains(a) {
            let j = choose|j: int| 0 <= j < all.len() && #[trigger] all[j].agent == a;
            assert(heard[members[j]].agent_id == a);
            assert(before[members[j]].agent_id == a);
        }
    }
    assert(after.inbound =~= if s.inbound.len() > 0 {
        s.inbound.subrange(1, s.inbound.len() as int)
    } else {
        s.inbound
    });
}

#[verifier::spinoff_prover]
proof fn lemma_told_once<S>(
    sessions: Seq<SessionView<S>>,
    members: Seq<int>,
    all: Seq<SpeakerView>,
    k: nat,
    i: int,
)
    requires
        are_members(members, sessions.len()),
        0 <= i < k <= members.len(),
    ensures
        mix::announce(sessions, members, all, k)[members[i]] == mix::informed(
            sessions[members[i]],
            all,
        ),
    decreases k,
{
    mix::lemma_announce_keeps(sessions, members, all, (k - 1) as nat);
    if i == k - 1 {
        mix::lemma_not_told_yet(sessions, members, all, (k - 1) as nat, i);
    } else {
        lemma_told_once(sessions, members, all, (k - 1) as nat, i);
        assert(members[k - 1] != members[i]);
    }
}

/// What is drained has no frames and is silent, and is else what it was.
pub proof fn law_what_draining_leaves<S>(s: SessionView<S>)
    ensures
        ({
            let after = mix::drained(s);
            &&& after.inbound.len() == 0 && after.level == 0
            &&& after.id == s.id && after.agent_id == s.agent_id && after.room == s.room
            &&& after.spatial == s.spatial && after.state == s.state
            &&& after.gains == s.gains && after.mutes == s.mutes
            &&& after.joined == s.joined && after.primary == s.primary
            &&& after.closed == s.closed && after.announced == s.announced
        }),
{
}

/// A listener that a roster was built for was told of the agents of all members, and of no
/// other; nothing else of it changes.
pub proof fn law_who_a_listener_was_told_of<S>(
    sessions: Seq<SessionView<S>>,
    members: Seq<int>,
    listener: SessionView<S>,
)
    ensures
        ({
            let after = mix::informed(listener, mix::speakers(sessions, members));
            &&& forall|a: Seq<char>| #[trigger]
                after.announced.contains(a) <==> listener.announced.contains(a) || exists|j: int|
                    0 <= j < members.len() && sessions[#[trigger] members[j]].agent_id == a
            &&& after == SessionView { announced: after.announced, ..listener }
        }),
{
    let all = mix::speakers(sessions, members);
    mix::lemma_told_of(listener.announced, all);
    let after = mix::informed(listener, all);
    assert forall|a: Seq<char>| #[trigger] after.announced.contains(a) <==>
        listener.announced.contains(a) || exists|j: int|
        0 <= j < members.len() && sessions[#[trigger] members[j]].agent_id == a by {
        if exists|j: int| 0 <= j < members.len() && sessions[#[trigger] members[j]].agent_id == a {
            let j = choose|j: int|
                0 <= j < members.len() && sessions[#[trigger] members[j]].agent_id == a;
            assert(all[j].agent == a);
        }
        if after.announced.contains(a) && !listener.announced.contains(a) {
            let j = choose|j: int| 0 <= j < all.len() && #[trigger] all[j].agent == a;
            assert(sessions[members[j]].agent_id == a);
        }
    }
}

} // verus!
