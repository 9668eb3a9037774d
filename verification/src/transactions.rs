//! What is left of a replacement where the store refuses a statement.

use vstd::prelude::*;

use crate::model::{NewUtterance, Utterance};
use crate::repository::{inserts_next, reads_next, replacing, with_found, Outcome, Step};
use crate::runs::{
    fits, ids_of, lemma_committed, lemma_inserted, lemma_replaced, lemma_with_all, replaces,
    shows_all, with_all,
};
use crate::store::{Reply, Request, StoreError};
use crate::tables::{new_utterance_row, utterance_shows, Tables};

verus! {

// ---------------------------------------------------------------------------
//  Stores
// ---------------------------------------------------------------------------

/// The tables as the statements see them, and, while a transaction is open, the
/// tables as they were when it was begun.
pub ghost struct Store<R> {
    pub now: Tables<R>,
    pub begun: Option<Tables<R>>,
}

impl<R> Store<R> {
    /// The store without an open transaction.
    pub open spec fn at_rest(tables: Tables<R>) -> Store<R> {
        Store { now: tables, begun: None }
    }

    /// What remains when the operation is over: a transaction that was not
    /// committed is rolled back.
    pub open spec fn settled(self) -> Tables<R> {
        match self.begun {
            Some(tables) => tables,
            None => self.now,
        }
    }

    /// A statement is carried out, or is refused and changes nothing.
    pub open spec fn answers(
        self,
        request: Request<R>,
        reply: Result<Reply<R>, StoreError>,
        after: Store<R>,
    ) -> bool {
        match reply {
            Ok(reply) => {
                &&& self.now.carries_out(request, reply, after.now)
                &&& after.begun == match request {
                    Request::Begin => Some(self.now),
                    Request::Commit => None,
                    _ => self.begun,
                }
            },
            Err(_) => after == self,
        }
    }
}

/// The store, and where an operation on it stands.
pub type Point<R> = (Store<R>, Step<R>);

/// The store answers what is asked, and the operation goes on with the answer.
pub open spec fn follows<R>(from: Point<R>, to: Point<R>) -> bool {
    match from.1 {
        Step::Ask { request, task } => exists|reply: Result<Reply<R>, StoreError>| #[trigger]
            from.0.answers(request, reply, to.0) && task.leads(reply, to.1),
        Step::Finish(_) => false,
    }
}

/// The point behind `i` follows from the one at `i`.
pub open spec fn follows_at<R>(path: Seq<Point<R>>, i: int) -> bool {
    follows(path[i], path[i + 1])
}

/// The operation that starts with `step` runs from its start to its end on a
/// store at rest.
pub open spec fn plays<R>(path: Seq<Point<R>>, step: Step<R>) -> bool {
    &&& path.len() > 0
    &&& forall|i: int| 0 <= i < path.len() - 1 ==> #[trigger] follows_at(path, i)
    &&& path[0].0.begun is None
    &&& path[0].0.now.valid()
    &&& path[0].1 == step
    &&& path.last().1 is Finish
}

/// The answer to what was asked.
proof fn lemma_answer<R>(path: Seq<Point<R>>, step: Step<R>, i: int) -> (reply: Result<
    Reply<R>,
    StoreError,
>)
    requires
        plays(path, step),
        0 <= i < path.len(),
        path[i].1 is Ask,
    ensures
        i + 1 < path.len(),
        path[i].0.answers(path[i].1->request, reply, path[i + 1].0),
        path[i].1->task.leads(reply, path[i + 1].1),
        reply is Err ==> i + 1 == path.len() - 1 && path[i + 1].0 == path[i].0 && path[i + 1].1
            == Step::Finish(Err::<Outcome<R>, StoreError>(reply->Err_0)),
{
    assert(i + 1 < path.len()) by {
        if i + 1 == path.len() {
            assert(path.last() == path[i]);
        }
    }
    assert(follows_at(path, i));
    let request = path[i].1->request;
    let task = path[i].1->task;
    let reply = choose|reply: Result<Reply<R>, StoreError>| #[trigger]
        path[i].0.answers(request, reply, path[i + 1].0) && task.leads(reply, path[i + 1].1);
    if reply is Err {
        lemma_finished(path, step, i + 1);
    }
    reply
}

/// A run is over where its operation is.
proof fn lemma_finished<R>(path: Seq<Point<R>>, step: Step<R>, i: int)
    requires
        plays(path, step),
        0 <= i < path.len(),
        path[i].1 is Finish,
    ensures
        i == path.len() - 1,
{
    if i < path.len() - 1 {
        assert(follows_at(path, i));
    }
}

// ---------------------------------------------------------------------------
//  Replacements
// ---------------------------------------------------------------------------

/// The first step of a replacement.
pub open spec fn replacement<R>(segment_id: i64, utterances: Vec<NewUtterance<R>>) -> Step<R> {
    replacing(segment_id, utterances)
}

/// The two utterances claim the same place in one segment.
pub open spec fn clash<R>(u: NewUtterance<R>, w: NewUtterance<R>) -> bool {
    u.segment_id == w.segment_id && u.index == w.index
}

/// The tables can take all the utterances: each fits, and no two claim one
/// place.
pub open spec fn storable<R>(tables: Tables<R>, all: Seq<NewUtterance<R>>) -> bool {
    &&& forall|i: int| 0 <= i < all.len() ==> #[trigger] fits(tables, all[i])
    &&& forall|i: int, j: int| 0 <= i < j < all.len() ==> !#[trigger] clash(all[i], all[j])
}

/// The utterances stand under `ids` in the place of those of the segment.
pub open spec fn in_place<R>(
    before: Tables<R>,
    after: Tables<R>,
    segment_id: i64,
    all: Seq<NewUtterance<R>>,
    ids: Seq<i64>,
) -> bool {
    &&& ids.len() == all.len()
    &&& ids.no_duplicates()
    &&& after == with_all(before.without_utterances(segment_id), all, ids)
}

/// The replacement has come to its end with all of the utterances in place, or
/// with the tables as they were.
pub open spec fn all_or_nothing<R>(
    before: Tables<R>,
    end: Point<R>,
    segment_id: i64,
    all: Seq<NewUtterance<R>>,
) -> bool {
    let after = end.0.settled();
    match end.1 {
        Step::Finish(Ok(Outcome::Reply(Reply::Utterances(v)))) => {
            &&& end.0.begun is None
            &&& storable(before.without_utterances(segment_id), all)
            &&& replaces(before, after, segment_id, all, v@)
        },
        Step::Finish(Err(_)) => {
            ||| after == before
            ||| {
                &&& end.0.begun is None
                &&& storable(before.without_utterances(segment_id), all)
                &&& exists|ids: Seq<i64>| #[trigger] in_place(before, after, segment_id, all, ids)
            }
        },
        _ => false,
    }
}

proof fn lemma_read_back<R>(
    path: Seq<Point<R>>,
    step: Step<R>,
    i: int,
    before: Tables<R>,
    segment_id: i64,
    all: Seq<NewUtterance<R>>,
    ids: Seq<i64>,
    found: Seq<Utterance<R>>,
)
    requires
        plays(path, step),
        0 <= i < path.len(),
        path[i].0.begun is None,
        in_place(before, path[i].0.now, segment_id, all, ids),
        forall|k: int|
            0 <= k < ids.len() ==> !before.without_utterances(segment_id).utterances.contains_key(
                #[trigger] ids[k],
            ),
        storable(before.without_utterances(segment_id), all),
        found.len() <= ids.len(),
        ids_of(found) == ids.take(found.len() as int),
        shows_all(found, all.take(found.len() as int)),
        reads_next(ids.skip(found.len() as int), found, path[i].1),
    ensures
        all_or_nothing(before, path.last(), segment_id, all),
    decreases path.len() - i,
{
    reveal(Tables::carries_out);
    let base = before.without_utterances(segment_id);
    let j = found.len() as int;
    let left = ids.skip(j);
    if left.len() == 0 {
        lemma_finished(path, step, i);
        assert(ids.take(j) =~= ids);
        assert(all.take(j) =~= all);
        lemma_replaced(before, segment_id, all, found);
    } else {
        assert(path[i].1 is Ask);
        let reply = lemma_answer(path, step, i);
        if reply is Ok {
            lemma_with_all(base, all, ids);
            assert(left[0] == ids[j]);
            let one = reply->Ok_0->Utterance_0;
            assert(path[i].0.now.utterances.contains_key(ids[j]));
            let u = one->Some_0;
            let more = found.push(u);
            assert(with_found(found, one) == more);
            assert(left.drop_first() =~= ids.skip(j + 1));
            assert(ids_of(more) =~= ids.take(j + 1)) by {
                assert forall|k: int| 0 <= k < j + 1 implies ids_of(more)[k] == ids.take(
                    j + 1,
                )[k] by {
                    if k < j {
                        assert(ids_of(found)[k] == ids.take(j)[k]);
                    }
                }
            }
            assert(shows_all(more, all.take(j + 1))) by {
                assert forall|k: int| 0 <= k < more.len() implies utterance_shows(
                    #[trigger] more[k],
                    new_utterance_row(all.take(j + 1)[k]),
                ) by {
                    if k < j {
                        assert(more[k] == found[k]);
                        assert(all.take(j)[k] == all.take(j + 1)[k]);
                    }
                }
            }
            lemma_read_back(path, step, i + 1, before, segment_id, all, ids, more);
        }
    }
}

/// One more utterance can be stored behind those that are in place already
/// where it fits there.
proof fn lemma_one_more<R>(
    base: Tables<R>,
    all: Seq<NewUtterance<R>>,
    ids: Seq<i64>,
    more: NewUtterance<R>,
)
    requires
        ids.len() == all.len(),
        ids.no_duplicates(),
        forall|k: int| 0 <= k < ids.len() ==> !base.utterances.contains_key(#[trigger] ids[k]),
        storable(base, all),
        fits(with_all(base, all, ids), more),
    ensures
        storable(base, all.push(more)),
{
    let now = with_all(base, all, ids);
    lemma_with_all(base, all, ids);
    let longer = all.push(more);
    assert(fits(base, more)) by {
        assert forall|k: i64| base.utterances.contains_key(k) implies !(
        #[trigger] base.utterances[k].segment_id == more.segment_id && base.utterances[k].index
            == more.index) by {
            assert(!ids.contains(k)) by {
                if ids.contains(k) {
                    let i = choose|i: int| 0 <= i < ids.len() && ids[i] == k;
                    assert(!base.utterances.contains_key(ids[i]));
                }
            }
            assert(now.utterances.contains_key(k));
            assert(now.utterances[k] == base.utterances[k]);
        }
    }
    assert forall|i: int| 0 <= i < longer.len() implies #[trigger] fits(base, longer[i]) by {
        if i < all.len() {
            assert(fits(base, all[i]));
        }
    }
    assert forall|i: int, j: int| 0 <= i < j < longer.len() implies !#[trigger] clash(
        longer[i],
        longer[j],
    ) by {
        if j < all.len() {
            assert(!clash(all[i], all[j]));
        } else {
            assert(now.utterances.contains_key(ids[i]));
            assert(now.utterances[ids[i]] == new_utterance_row(all[i]));
            assert(now.utterances[ids[i]].segment_id == all[i].segment_id);
        }
    }
}

proof fn lemma_put_in<R>(
    path: Seq<Point<R>>,
    step: Step<R>,
    i: int,
    before: Tables<R>,
    segment_id: i64,
    all: Seq<NewUtterance<R>>,
    ids: Seq<i64>,
)
    requires
        plays(path, step),
        0 <= i < path.len(),
        path[i].0.begun == Some(before),
        ids.len() <= all.len(),
        ids.no_duplicates(),
        forall|k: int|
            0 <= k < ids.len() ==> !before.without_utterances(segment_id).utterances.contains_key(
                #[trigger] ids[k],
            ),
        storable(before.without_utterances(segment_id), all.take(ids.len() as int)),
        path[i].0.now == with_all(
            before.without_utterances(segment_id),
            all.take(ids.len() as int),
            ids,
        ),
        inserts_next(all.skip(ids.len() as int), ids, path[i].1),
    ensures
        all_or_nothing(before, path.last(), segment_id, all),
    decreases path.len() - i,
{
    let base = before.without_utterances(segment_id);
    let j = ids.len() as int;
    let left = all.skip(j);
    assert(path[i].1 is Ask);
    let reply = lemma_answer(path, step, i);
    if reply is Err {
    } else if left.len() == 0 {
        lemma_committed(path[i].0.now, reply->Ok_0, path[i + 1].0.now);
        assert(all.take(j) =~= all);
        assert(ids.skip(0) =~= ids);
        assert(ids.take(0) =~= Seq::<i64>::empty());
        assert(ids_of(Seq::<Utterance<R>>::empty()) =~= ids.take(0));
        lemma_read_back(path, step, i + 1, before, segment_id, all, ids, Seq::empty());
    } else {
        lemma_inserted(path[i].0.now, left[0], reply->Ok_0, path[i + 1].0.now);
        let id = reply->Ok_0->Id_0;
        let more = ids.push(id);
        lemma_with_all(base, all.take(j), ids);
        assert(!ids.contains(id)) by {
            if ids.contains(id) {
                let k = choose|k: int| 0 <= k < ids.len() && ids[k] == id;
                assert(path[i].0.now.utterances.contains_key(ids[k]));
            }
        }
        assert(!base.utterances.contains_key(id));
        assert forall|k: int| 0 <= k < more.len() implies !base.utterances.contains_key(
            #[trigger] more[k],
        ) by {
            if k < j {
                assert(more[k] == ids[k]);
            }
        }
        lemma_one_more(base, all.take(j), ids, left[0]);
        assert(all.take(j + 1) =~= all.take(j).push(left[0]));
        assert(all.take(j + 1).drop_last() =~= all.take(j));
        assert(more.drop_last() =~= ids);
        assert(left.drop_first() =~= all.skip(j + 1));
        lemma_put_in(path, step, i + 1, before, segment_id, all, more);
    }
}

/// A replacement is done whole or not at all, whichever statements the store
/// refuses. Where the utterances cannot all be stored it fails, and the tables
/// are as they were. Where it fails in spite of utterances in place, it was
/// refused only to read them back.
pub proof fn law_replacement_atomic<R>(
    path: Seq<Point<R>>,
    segment_id: i64,
    utterances: Vec<NewUtterance<R>>,
)
    requires
        plays(path, replacement(segment_id, utterances)),
    ensures
        all_or_nothing(path[0].0.now, path.last(), segment_id, utterances@),
        !storable(path[0].0.now.without_utterances(segment_id), utterances@) ==> {
            &&& path.last().1 matches Step::Finish(Err(_))
            &&& path.last().0.settled() == path[0].0.now
        },
{
    reveal(Tables::carries_out);
    let step = replacement(segment_id, utterances);
    let before = path[0].0.now;
    let all = utterances@;
    let begun = lemma_answer(path, step, 0);
    if begun is Ok {
        assert(path[1].0.begun == Some(before));
        let cleared = lemma_answer(path, step, 1);
        if cleared is Ok {
            let none = Seq::<i64>::empty();
            assert(all.take(0) =~= Seq::<NewUtterance<R>>::empty());
            assert(all.skip(0) =~= all);
            lemma_put_in(path, step, 2, before, segment_id, all, none);
        }
    }
}

/// Where a statement of a replacement is refused before the commit, the
/// replacement ends there with that error, and the tables are as they were
/// before it.
pub proof fn law_refused_statement<R>(
    path: Seq<Point<R>>,
    segment_id: i64,
    utterances: Vec<NewUtterance<R>>,
    i: int,
    e: StoreError,
)
    requires
        plays(path, replacement(segment_id, utterances)),
        0 <= i < path.len() - 1,
        path[i].0.begun is Some || i == 0,
        path[i].1 is Ask,
        path[i + 1] == (path[i].0, Step::Finish(Err::<Outcome<R>, StoreError>(e))),
    ensures
        i + 1 == path.len() - 1,
        path.last().1 == Step::Finish(Err::<Outcome<R>, StoreError>(e)),
        path.last().0.settled() == path[0].0.now,
{
    let step = replacement(segment_id, utterances);
    lemma_finished(path, step, i + 1);
    law_replacement_atomic(path, segment_id, utterances);
}

} // verus!
