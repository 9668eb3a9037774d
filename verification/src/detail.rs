//! Puts a session together from what the tables hold of it.

use vstd::prelude::*;

use crate::model::{
    Segment, SegmentWithUtterances, Session, SessionDetail, Speaker, UtteranceWithSpeaker,
};
use crate::text::{join, joined, lemma_picks_agree, lemma_picks_next, picks, texts};

verus! {

// ---------------------------------------------------------------------------
//  Filtering
// ---------------------------------------------------------------------------

/// Conditions that agree on all items select the same ones.
pub proof fn lemma_filter_agree<A>(s: Seq<A>, p: spec_fn(A) -> bool, q: spec_fn(A) -> bool)
    requires
        forall|i: int| 0 <= i < s.len() ==> p(#[trigger] s[i]) == q(s[i]),
    ensures
        s.filter(p) == s.filter(q),
    decreases s.len(),
{
    reveal(Seq::filter);
    if s.len() > 0 {
        assert(s.last() == s[s.len() - 1]);
        assert forall|i: int| 0 <= i < s.drop_last().len() implies p(
            #[trigger] s.drop_last()[i],
        ) == q(s.drop_last()[i]) by {
            assert(s.drop_last()[i] == s[i]);
        }
        lemma_filter_agree(s.drop_last(), p, q);
    }
}

/// Selecting by one condition and then by another selects by both.
pub proof fn lemma_filter_filter<A>(
    s: Seq<A>,
    p: spec_fn(A) -> bool,
    q: spec_fn(A) -> bool,
    both: spec_fn(A) -> bool,
)
    requires
        forall|a: A| #[trigger] both(a) == (p(a) && q(a)),
    ensures
        s.filter(p).filter(q) == s.filter(both),
    decreases s.len(),
{
    reveal(Seq::filter);
    if s.len() > 0 {
        lemma_filter_filter(s.drop_last(), p, q, both);
        let last = s.last();
        assert(both(last) == (p(last) && q(last)));
        let shorter = s.drop_last().filter(p);
        if p(last) {
            assert(s.filter(p).drop_last() =~= shorter);
        }
    }
}

/// A condition that no item meets selects nothing.
pub proof fn lemma_filter_none<A>(s: Seq<A>, p: spec_fn(A) -> bool)
    requires
        forall|i: int| 0 <= i < s.len() ==> !p(#[trigger] s[i]),
    ensures
        s.filter(p) == Seq::<A>::empty(),
    decreases s.len(),
{
    reveal(Seq::filter);
    if s.len() > 0 {
        assert(s.last() == s[s.len() - 1]);
        assert forall|i: int| 0 <= i < s.drop_last().len() implies !p(
            #[trigger] s.drop_last()[i],
        ) by {
            assert(s.drop_last()[i] == s[i]);
        }
        lemma_filter_none(s.drop_last(), p);
    } else {
        assert(s =~= Seq::<A>::empty());
    }
}

// ---------------------------------------------------------------------------
//  What a session consists of
// ---------------------------------------------------------------------------

/// The utterances among `spoken` that belong to the segment `id`, in order.
pub open spec fn of_segment<R>(spoken: Seq<UtteranceWithSpeaker<R>>, id: i64) -> Seq<
    UtteranceWithSpeaker<R>,
> {
    spoken.filter(|u: UtteranceWithSpeaker<R>| u.utterance.segment_id == id)
}

/// Some segment before `i` has the id `id`.
pub open spec fn listed_before(segments: Seq<Segment>, i: int, id: i64) -> bool {
    exists|j: int| 0 <= j < i && (#[trigger] segments[j]).id == id
}

/// The utterances shown under the segment `i`: those that belong to it. An id
/// that is listed twice shows them the first time only.
pub open spec fn share_of<R>(
    segments: Seq<Segment>,
    spoken: Seq<UtteranceWithSpeaker<R>>,
    i: int,
) -> Seq<UtteranceWithSpeaker<R>> {
    if listed_before(segments, i, segments[i].id) {
        Seq::empty()
    } else {
        of_segment(spoken, segments[i].id)
    }
}

/// What was heard in each of the utterances.
pub open spec fn heard<R>(spoken: Seq<UtteranceWithSpeaker<R>>) -> Seq<Seq<char>> {
    spoken.map_values(|u: UtteranceWithSpeaker<R>| u.utterance.text_thai@)
}

/// The translations of those utterances that have one.
pub open spec fn translated<R>(spoken: Seq<UtteranceWithSpeaker<R>>) -> Seq<Seq<char>>
    decreases spoken.len(),
{
    if spoken.len() == 0 {
        Seq::empty()
    } else {
        let before = translated(spoken.drop_last());
        match spoken.last().utterance.text_ru {
            Some(t) => before.push(t@),
            None => before,
        }
    }
}

/// `detail` is the session with its segments, each with its utterances, its
/// speakers, and all its text, one utterance a line.
pub open spec fn describes<R>(
    detail: SessionDetail<R>,
    session: Session,
    segments: Seq<Segment>,
    speakers: Seq<Speaker>,
    spoken: Seq<UtteranceWithSpeaker<R>>,
) -> bool {
    &&& detail.session == session
    &&& detail.speakers@ == speakers
    &&& detail.segments@.len() == segments.len()
    &&& forall|i: int|
        0 <= i < segments.len() ==> (#[trigger] detail.segments@[i]).segment == segments[i]
            && detail.segments@[i].utterances@ == share_of(segments, spoken, i)
    &&& detail.total_text_thai@ == joined(heard(spoken), "\n"@)
    &&& match detail.total_text_ru {
        Some(t) => translated(spoken).len() > 0 && t@ == joined(translated(spoken), "\n"@),
        None => translated(spoken).len() == 0,
    }
}

/// Parts `rows` into those of the segment `id` and the others, both in order.
pub fn part_segment<R>(rows: Vec<UtteranceWithSpeaker<R>>, id: i64) -> (r: (
    Vec<UtteranceWithSpeaker<R>>,
    Vec<UtteranceWithSpeaker<R>>,
))
    ensures
        r.0@ == of_segment(rows@, id),
        r.1@ == rows@.filter(|u: UtteranceWithSpeaker<R>| u.utterance.segment_id != id),
{
    let ghost all = rows@;
    let ghost yes = |u: UtteranceWithSpeaker<R>| u.utterance.segment_id == id;
    let ghost no = |u: UtteranceWithSpeaker<R>| u.utterance.segment_id != id;
    let mut taken: Vec<UtteranceWithSpeaker<R>> = Vec::new();
    let mut rest: Vec<UtteranceWithSpeaker<R>> = Vec::new();
    proof {
        reveal(Seq::filter);
        assert(all.take(0) =~= Seq::<UtteranceWithSpeaker<R>>::empty());
    }
    for u in it: rows
        invariant
            it.seq() == all,
            yes == (|u: UtteranceWithSpeaker<R>| u.utterance.segment_id == id),
            no == (|u: UtteranceWithSpeaker<R>| u.utterance.segment_id != id),
            taken@ == all.take(it.index() as int).filter(yes),
            rest@ == all.take(it.index() as int).filter(no),
    {
        proof {
            reveal(Seq::filter);
            let n = it.index() as int;
            assert(all.take(n + 1).drop_last() =~= all.take(n));
            assert(all.take(n + 1).last() == u);
        }
        if u.utterance.segment_id == id {
            taken.push(u);
        } else {
            rest.push(u);
        }
    }
    assert(all.take(all.len() as int) =~= all);
    (taken, rest)
}

/// What is left of `spoken` once the shares of the first `i` segments are taken.
spec fn left_after<R>(
    segments: Seq<Segment>,
    spoken: Seq<UtteranceWithSpeaker<R>>,
    i: int,
) -> Seq<UtteranceWithSpeaker<R>> {
    spoken.filter(
        |u: UtteranceWithSpeaker<R>| !listed_before(segments, i, u.utterance.segment_id),
    )
}

proof fn lemma_next_share<R>(
    segments: Seq<Segment>,
    spoken: Seq<UtteranceWithSpeaker<R>>,
    i: int,
)
    requires
        0 <= i < segments.len(),
    ensures
        of_segment(left_after(segments, spoken, i), segments[i].id) == share_of(
            segments,
            spoken,
            i,
        ),
        left_after(segments, spoken, i).filter(
            |u: UtteranceWithSpeaker<R>| u.utterance.segment_id != segments[i].id,
        ) == left_after(segments, spoken, i + 1),
{
    let id = segments[i].id;
    let free = |u: UtteranceWithSpeaker<R>| !listed_before(segments, i, u.utterance.segment_id);
    let mine = |u: UtteranceWithSpeaker<R>| u.utterance.segment_id == id;
    let others = |u: UtteranceWithSpeaker<R>| u.utterance.segment_id != id;
    let free_next = |u: UtteranceWithSpeaker<R>|
        !listed_before(segments, i + 1, u.utterance.segment_id);
    let free_mine = |u: UtteranceWithSpeaker<R>| free(u) && mine(u);
    lemma_filter_filter(spoken, free, mine, free_mine);
    if listed_before(segments, i, id) {
        lemma_filter_none(spoken, free_mine);
    } else {
        lemma_filter_agree(spoken, free_mine, mine);
    }
    assert forall|u: UtteranceWithSpeaker<R>| #[trigger] free_next(u) == (free(u) && others(u)) by {
        let at = u.utterance.segment_id;
        if listed_before(segments, i, at) {
            let j = choose|j: int| 0 <= j < i && (#[trigger] segments[j]).id == at;
            assert(segments[j].id == at);
            assert(listed_before(segments, i + 1, at));
        }
        if at == id {
            assert(segments[i].id == at);
            assert(listed_before(segments, i + 1, at));
        }
    }
    lemma_filter_filter(spoken, free, others, free_next);
}

/// The texts of the utterances: what was heard, and the translations.
pub fn collect_texts<R>(spoken: &Vec<UtteranceWithSpeaker<R>>) -> (r: (Vec<String>, Vec<String>))
    ensures
        texts(r.0@) == heard(spoken@),
        texts(r.1@) == translated(spoken@),
{
    let mut thai: Vec<String> = Vec::new();
    let mut ru: Vec<String> = Vec::new();
    let mut i: usize = 0;
    proof {
        assert(spoken@.take(0) =~= Seq::<UtteranceWithSpeaker<R>>::empty());
        assert(texts(thai@) =~= heard(spoken@.take(0)));
        assert(texts(ru@) =~= translated(spoken@.take(0)));
    }
    while i < spoken.len()
        invariant
            i <= spoken@.len(),
            texts(thai@) == heard(spoken@.take(i as int)),
            texts(ru@) == translated(spoken@.take(i as int)),
        decreases spoken@.len() - i,
    {
        let ghost now = spoken@.take(i + 1);
        let ghost thai_before = thai@;
        let ghost ru_before = ru@;
        proof {
            assert(now.drop_last() =~= spoken@.take(i as int));
            assert(now.last() == spoken@[i as int]);
        }
        thai.push(spoken[i].utterance.text_thai.clone());
        proof {
            assert(texts(thai@) =~= texts(thai_before).push(
                spoken@[i as int].utterance.text_thai@,
            ));
            assert(heard(now) =~= heard(now.drop_last()).push(
                spoken@[i as int].utterance.text_thai@,
            ));
        }
        if let Some(t) = &spoken[i].utterance.text_ru {
            ru.push(t.clone());
            assert(texts(ru@) =~= texts(ru_before).push(t@));
        }
        i += 1;
    }
    assert(spoken@.take(i as int) =~= spoken@);
    (thai, ru)
}

/// Puts a session together from its row, its segments and speakers, and all
/// that was spoken in it.
pub fn assemble<R>(
    session: Session,
    segments: Vec<Segment>,
    speakers: Vec<Speaker>,
    spoken: Vec<UtteranceWithSpeaker<R>>,
) -> (detail: SessionDetail<R>)
    ensures
        describes(detail, session, segments@, speakers@, spoken@),
{
    let ghost all_segments = segments@;
    let ghost all_spoken = spoken@;
    let (thai, ru) = collect_texts(&spoken);
    let total_text_thai = join(&thai, "\n");
    let total_text_ru = if ru.len() == 0 {
        None
    } else {
        Some(join(&ru, "\n"))
    };
    assert(texts(ru@).len() == ru@.len());
    let mut out: Vec<SegmentWithUtterances<R>> = Vec::new();
    let mut rest = spoken;
    proof {
        let free = |u: UtteranceWithSpeaker<R>|
            !listed_before(all_segments, 0, u.utterance.segment_id);
        let any = |u: UtteranceWithSpeaker<R>| true;
        lemma_filter_agree(all_spoken, free, any);
        lemma_filter_all(all_spoken, any);
    }
    for segment in it: segments
        invariant
            it.seq() == all_segments,
            rest@ == left_after(all_segments, all_spoken, it.index() as int),
            out@.len() == it.index(),
            forall|k: int|
                0 <= k < out@.len() ==> (#[trigger] out@[k]).segment == all_segments[k]
                    && out@[k].utterances@ == share_of(all_segments, all_spoken, k),
    {
        let (mine, others) = part_segment(rest, segment.id);
        proof {
            lemma_next_share(all_segments, all_spoken, it.index() as int);
        }
        rest = others;
        out.push(SegmentWithUtterances { segment, utterances: mine });
    }
    SessionDetail { session, segments: out, speakers, total_text_thai, total_text_ru }
}

proof fn lemma_filter_all<A>(s: Seq<A>, p: spec_fn(A) -> bool)
    requires
        forall|i: int| 0 <= i < s.len() ==> p(#[trigger] s[i]),
    ensures
        s.filter(p) == s,
    decreases s.len(),
{
    reveal(Seq::filter);
    if s.len() > 0 {
        assert(s.last() == s[s.len() - 1]);
        assert forall|i: int| 0 <= i < s.drop_last().len() implies p(
            #[trigger] s.drop_last()[i],
        ) by {
            assert(s.drop_last()[i] == s[i]);
        }
        lemma_filter_all(s.drop_last(), p);
        assert(s.drop_last().push(s.last()) =~= s);
    }
}

// ---------------------------------------------------------------------------
//  Laws
// ---------------------------------------------------------------------------

/// The items at the places `at`.
pub open spec fn at_places<A>(s: Seq<A>, at: Seq<int>) -> Seq<A> {
    Seq::new(at.len(), |k: int| s[at[k]])
}

/// Selecting keeps all items that meet the condition, and no others, in their
/// order.
pub proof fn lemma_filter_picks<A>(s: Seq<A>, p: spec_fn(A) -> bool) -> (at: Seq<int>)
    ensures
        picks(at, s.len() as int, |i: int| p(s[i])),
        s.filter(p) == at_places(s, at),
    decreases s.len(),
{
    reveal(Seq::filter);
    let wanted = |i: int| p(s[i]);
    if s.len() == 0 {
        let at = Seq::<int>::empty();
        assert(s.filter(p) =~= at_places(s, at));
        at
    } else {
        let rest = s.drop_last();
        let n = rest.len() as int;
        let before = lemma_filter_picks(rest, p);
        lemma_picks_agree(before, n, |i: int| p(rest[i]), wanted);
        lemma_picks_next(before, n, wanted);
        let at = if p(s.last()) {
            before.push(n)
        } else {
            before
        };
        assert(s.filter(p) =~= at_places(s, at)) by {
            assert forall|k: int| 0 <= k < before.len() implies #[trigger] before[k] < n && at[k]
                == before[k] by {}
        }
        at
    }
}

proof fn lemma_translated<R>(spoken: Seq<UtteranceWithSpeaker<R>>) -> (at: Seq<int>)
    ensures
        picks(at, spoken.len() as int, |i: int| spoken[i].utterance.text_ru is Some),
        translated(spoken) == Seq::new(
            at.len(),
            |k: int| spoken[at[k]].utterance.text_ru->Some_0@,
        ),
    decreases spoken.len(),
{
    let wanted = |i: int| spoken[i].utterance.text_ru is Some;
    if spoken.len() == 0 {
        let at = Seq::<int>::empty();
        assert(translated(spoken) =~= Seq::new(
            at.len(),
            |k: int| spoken[at[k]].utterance.text_ru->Some_0@,
        ));
        at
    } else {
        let rest = spoken.drop_last();
        let n = rest.len() as int;
        let before = lemma_translated(rest);
        lemma_picks_agree(
            before,
            n,
            |i: int| rest[i].utterance.text_ru is Some,
            wanted,
        );
        lemma_picks_next(before, n, wanted);
        let at = if wanted(n) {
            before.push(n)
        } else {
            before
        };
        assert(translated(spoken) =~= Seq::new(
            at.len(),
            |k: int| spoken[at[k]].utterance.text_ru->Some_0@,
        )) by {
            assert forall|k: int| 0 <= k < before.len() implies #[trigger] before[k] < n && at[k]
                == before[k] by {}
        }
        at
    }
}

/// The text in Thai is what was heard in all utterances, one a line.
pub open spec fn tells_heard<R>(
    detail: SessionDetail<R>,
    spoken: Seq<UtteranceWithSpeaker<R>>,
) -> bool {
    detail.total_text_thai@ == joined(
        Seq::new(spoken.len(), |i: int| spoken[i].utterance.text_thai@),
        "\n"@,
    )
}

/// The text in Russian is made of the translations of the utterances at `at`,
/// one a line; without any there is none.
pub open spec fn tells_translated<R>(
    detail: SessionDetail<R>,
    spoken: Seq<UtteranceWithSpeaker<R>>,
    at: Seq<int>,
) -> bool {
    match detail.total_text_ru {
        Some(t) => at.len() > 0 && t@ == joined(
            Seq::new(at.len(), |k: int| spoken[at[k]].utterance.text_ru->Some_0@),
            "\n"@,
        ),
        None => at.len() == 0,
    }
}

/// The whole text of a session leaves nothing out: what was heard in every
/// utterance is a line of it, and so is every translation, each in the order
/// of the utterances.
pub proof fn law_whole_text_shown<R>(
    detail: SessionDetail<R>,
    session: Session,
    segments: Seq<Segment>,
    speakers: Seq<Speaker>,
    spoken: Seq<UtteranceWithSpeaker<R>>,
)
    requires
        describes(detail, session, segments, speakers, spoken),
    ensures
        tells_heard(detail, spoken),
        exists|at: Seq<int>| #[trigger]
            tells_translated(detail, spoken, at) && picks(
                at,
                spoken.len() as int,
                |i: int| spoken[i].utterance.text_ru is Some,
            ),
{
    let at = lemma_translated(spoken);
    assert(heard(spoken) =~= Seq::new(
        spoken.len(),
        |i: int| spoken[i].utterance.text_thai@,
    ));
    assert(tells_translated(detail, spoken, at));
}

/// Every utterance is shown under the segment that it belongs to, once and in
/// order, and nothing else is shown there.
pub proof fn law_utterances_placed<R>(
    detail: SessionDetail<R>,
    session: Session,
    segments: Seq<Segment>,
    speakers: Seq<Speaker>,
    spoken: Seq<UtteranceWithSpeaker<R>>,
    i: int,
)
    requires
        describes(detail, session, segments, speakers, spoken),
        0 <= i < segments.len(),
        forall|j: int| 0 <= j < i ==> (#[trigger] segments[j]).id != segments[i].id,
    ensures
        detail.session == session,
        detail.speakers@ == speakers,
        detail.segments@.len() == segments.len(),
        detail.segments@[i].segment == segments[i],
        exists|at: Seq<int>|
            detail.segments@[i].utterances@ == #[trigger] at_places(spoken, at) && picks(
                at,
                spoken.len() as int,
                |k: int| spoken[k].utterance.segment_id == segments[i].id,
            ),
{
    let id = segments[i].id;
    let mine = |u: UtteranceWithSpeaker<R>| u.utterance.segment_id == id;
    let at = lemma_filter_picks(spoken, mine);
    lemma_picks_agree(
        at,
        spoken.len() as int,
        |k: int| mine(spoken[k]),
        |k: int| spoken[k].utterance.segment_id == segments[i].id,
    );
    assert(detail.segments@[i].segment == segments[i]);
    assert(detail.segments@[i].utterances@ == at_places(spoken, at));
}

} // verus!
