//! What taking a segment in comes to on tables that carry out what they are
//! asked.

use vstd::prelude::*;

use crate::model::{NewSegment, TranscriptionStatus};
use crate::names::{
    audio_name, law_segment_name_read, names_audio, names_session, segment_name,
};
use crate::parse::{
    end_time, lines_spoken, renders, transcript_says, Millis, Spoken, TranscriptError,
    WhisperUtterance,
};
use crate::repository::{Step, Task};
use crate::runs::{
    gives_session, goes, goes_at, ids_of, law_create_segment, law_get_or_create_session,
    law_replace_utterances, lemma_goes, replaces, runs, Stand,
};
use crate::service::{
    after_segment, after_session, after_utterances, notes_error, starts_ingestion, stored_as,
    stores, Ingest, IngestError, IngestJob, IngestResult, IngestStep,
};
use crate::store::{Reply, Request, StoreError};
use crate::tables::{law_tables_stay_valid, new_segment_row, SegmentRow, Tables};
use crate::text::{chars, pieces};

verus! {

// ---------------------------------------------------------------------------
//  Runs
// ---------------------------------------------------------------------------

/// The tables, and where an ingestion stands.
pub type IngestStand = (Tables<Millis>, IngestStep);

/// The ingestion goes on with the answer of the tables, or with the text of
/// the transcript.
pub open spec fn ingest_goes(from: IngestStand, to: IngestStand, content: Option<String>) -> bool {
    match from.1 {
        IngestStep::Ask { request, state } => exists|reply: Reply<Millis>| #[trigger]
            from.0.carries_out(request, reply, to.0) && state.leads(
                Ok::<Reply<Millis>, StoreError>(reply),
                to.1,
            ),
        IngestStep::ReadTranscript { state } => to.0 == from.0 && state.told(content, to.1),
        IngestStep::Finish(_) => false,
    }
}

/// The stand behind `i` follows from the one at `i`.
pub open spec fn ingest_goes_at(
    path: Seq<IngestStand>,
    i: int,
    content: Option<String>,
) -> bool {
    ingest_goes(path[i], path[i + 1], content)
}

/// The ingestion of the segment runs from its start to its end.
pub open spec fn ingests(
    path: Seq<IngestStand>,
    job: IngestJob,
    content: Option<String>,
) -> bool {
    &&& path.len() > 0
    &&& forall|i: int| 0 <= i < path.len() - 1 ==> #[trigger] ingest_goes_at(path, i, content)
    &&& path[0].0.valid()
    &&& path[0].1 == (IngestStep::Ask {
        request: Request::<Millis>::SegmentByFilename { filename: job.filename },
        state: Ingest::Lookup { job },
    })
    &&& path.last().1 is Finish
}

proof fn lemma_answer(
    path: Seq<IngestStand>,
    job: IngestJob,
    content: Option<String>,
    i: int,
    request: Request<Millis>,
    state: Ingest,
) -> (reply: Reply<Millis>)
    requires
        ingests(path, job, content),
        0 <= i < path.len(),
        path[i].1 == (IngestStep::Ask { request, state }),
    ensures
        i + 1 < path.len(),
        path[i].0.carries_out(request, reply, path[i + 1].0),
        state.leads(Ok::<Reply<Millis>, StoreError>(reply), path[i + 1].1),
        path[i].0.valid() ==> path[i + 1].0.valid(),
{
    if i + 1 == path.len() {
        assert(path.last() == path[i]);
    }
    assert(ingest_goes_at(path, i, content));
    let reply = choose|reply: Reply<Millis>| #[trigger]
        path[i].0.carries_out(request, reply, path[i + 1].0) && state.leads(
            Ok::<Reply<Millis>, StoreError>(reply),
            path[i + 1].1,
        );
    if path[i].0.valid() {
        law_tables_stay_valid(path[i].0, request, reply, path[i + 1].0);
    }
    reply
}

proof fn lemma_ingest_over(
    path: Seq<IngestStand>,
    job: IngestJob,
    content: Option<String>,
    i: int,
)
    requires
        ingests(path, job, content),
        0 <= i < path.len(),
        path[i].1 is Finish,
    ensures
        i == path.len() - 1,
{
    if i < path.len() - 1 {
        assert(ingest_goes_at(path, i, content));
    }
}

/// A part of an ingestion that is an operation of its own.
ghost enum Phase {
    Session { job: IngestJob },
    Segment { job: IngestJob },
    Utterances { job: IngestJob, segment_id: i64, count: usize },
}

impl Phase {
    spec fn state(self, task: Task<Millis>) -> Ingest {
        match self {
            Phase::Session { job } => Ingest::Session { job, task },
            Phase::Segment { job } => Ingest::Segment { job, task },
            Phase::Utterances { job, segment_id, count } => Ingest::Utterances {
                job,
                segment_id,
                count,
                task,
            },
        }
    }

    spec fn after(self, inner: Step<Millis>, step: IngestStep) -> bool {
        match self {
            Phase::Session { job } => after_session(job, inner, step),
            Phase::Segment { job } => after_segment(job, inner, step),
            Phase::Utterances { job, segment_id, count } => after_utterances(
                job,
                segment_id,
                count,
                inner,
                step,
            ),
        }
    }
}

/// One step of the operation that a phase is.
proof fn lemma_phase_step(
    path: Seq<IngestStand>,
    job: IngestJob,
    content: Option<String>,
    i: int,
    phase: Phase,
    request: Request<Millis>,
    task: Task<Millis>,
) -> (inner: Step<Millis>)
    requires
        ingests(path, job, content),
        0 <= i < path.len(),
        path[i].0.valid(),
        path[i].1 == (IngestStep::Ask { request, state: phase.state(task) }),
    ensures
        i + 1 < path.len(),
        path[i + 1].0.valid(),
        goes((path[i].0, Step::Ask { request, task }), (path[i + 1].0, inner)),
        phase.after(inner, path[i + 1].1),
{
    let reply = lemma_answer(path, job, content, i, request, phase.state(task));
    let answer = Ok::<Reply<Millis>, StoreError>(reply);
    let inner = lemma_inner(phase, task, answer, path[i + 1].1);
    lemma_goes((path[i].0, Step::Ask { request, task }), (path[i + 1].0, inner), reply);
    inner
}

/// The step of the operation behind a step of the ingestion.
proof fn lemma_inner(
    phase: Phase,
    task: Task<Millis>,
    answer: Result<Reply<Millis>, StoreError>,
    step: IngestStep,
) -> (inner: Step<Millis>)
    requires
        phase.state(task).leads(answer, step),
    ensures
        task.leads(answer, inner),
        phase.after(inner, step),
{
    choose|inner: Step<Millis>| #[trigger] task.leads(answer, inner) && phase.after(inner, step)
}

/// The run of the operation that a phase is.
proof fn lemma_phase(
    path: Seq<IngestStand>,
    job: IngestJob,
    content: Option<String>,
    i: int,
    phase: Phase,
    request: Request<Millis>,
    task: Task<Millis>,
) -> (run: Seq<Stand<Millis>>)
    requires
        ingests(path, job, content),
        0 <= i < path.len(),
        path[i].0.valid(),
        path[i].1 == (IngestStep::Ask { request, state: phase.state(task) }),
    ensures
        run.len() > 0,
        runs(run),
        run[0] == (path[i].0, Step::Ask { request, task }),
        run.last().1 is Finish,
        i + run.len() - 1 < path.len(),
        run.last().0 == path[i + run.len() - 1].0,
        run.last().0.valid(),
        phase.after(run.last().1, path[i + run.len() - 1].1),
    decreases path.len() - i,
{
    let inner = lemma_phase_step(path, job, content, i, phase, request, task);
    let first: Stand<Millis> = (path[i].0, Step::Ask { request, task });
    let second: Stand<Millis> = (path[i + 1].0, inner);
    match inner {
        Step::Finish(_) => {
            let run = seq![first, second];
            assert(run.last() == second);
            assert forall|k: int| 0 <= k < run.len() - 1 implies #[trigger] goes_at(run, k) by {
                assert(run[0] == first && run[1] == second);
            }
            run
        },
        Step::Ask { request: next, task: then_task } => {
            let rest = lemma_phase(path, job, content, i + 1, phase, next, then_task);
            let run = seq![first] + rest;
            assert(rest[0] == second);
            assert(run.last() == rest.last());
            assert forall|k: int| 0 <= k < run.len() - 1 implies #[trigger] goes_at(run, k) by {
                if k == 0 {
                    assert(run[0] == first && run[1] == second);
                } else {
                    assert(run[k] == rest[k - 1]);
                    assert(run[k + 1] == rest[k]);
                    assert(goes_at(rest, k - 1));
                }
            }
            run
        },
    }
}

// ---------------------------------------------------------------------------
//  Laws
// ---------------------------------------------------------------------------

/// The rows under `ids` are the utterances that `spoken` describes, numbered
/// from 0, and the segment has no others.
pub open spec fn holds_spoken(
    tables: Tables<Millis>,
    segment_id: i64,
    spoken: Seq<Spoken>,
    ids: Seq<i64>,
) -> bool {
    &&& ids.no_duplicates()
    &&& ids.len() == spoken.len()
    &&& forall|i: int|
        0 <= i < ids.len() ==> {
            &&& tables.utterances.contains_key(#[trigger] ids[i])
            &&& ({
                let row = tables.utterances[ids[i]];
                &&& row.segment_id == segment_id
                &&& row.index == i as u32
                &&& row.start_sec == spoken[i].start
                &&& row.end_sec == end_time(spoken, i)
                &&& row.text_thai == spoken[i].text
                &&& row.text_ru is None
                &&& row.speaker_id is None
                &&& row.confidence is None
            })
        }
    &&& forall|k: i64|
        tables.utterances.contains_key(k) && #[trigger] tables.utterances[k].segment_id
            == segment_id ==> ids.contains(k)
}

/// What was there before is there still.
pub open spec fn keeps(before: Tables<Millis>, after: Tables<Millis>) -> bool {
    &&& forall|k: i64| #[trigger]
        before.sessions.contains_key(k) ==> after.sessions.contains_key(k) && after.sessions[k]
            == before.sessions[k]
    &&& forall|k: i64| #[trigger]
        before.segments.contains_key(k) ==> after.segments.contains_key(k) && after.segments[k]
            == before.segments[k]
    &&& after.speakers == before.speakers
    &&& forall|k: i64| #[trigger]
        before.utterances.contains_key(k) ==> after.utterances.contains_key(k)
            && after.utterances[k] == before.utterances[k]
}

/// The tables hold the segment, new, in its session and with that status.
pub open spec fn holds_segment(
    before: Tables<Millis>,
    after: Tables<Millis>,
    job: IngestJob,
    segment_id: i64,
    status: TranscriptionStatus,
    error_message: Option<Seq<char>>,
) -> bool {
    &&& !before.segments.contains_key(segment_id)
    &&& after.segments.contains_key(segment_id)
    &&& ({
        let row = after.segments[segment_id];
        &&& row.index == job.index
        &&& row.filename == job.filename@
        &&& row.size_bytes == Some(job.size)
        &&& row.recorded_at == job.recorded_at
        &&& row.status == status
        &&& row.error_message == error_message
        &&& after.sessions.contains_key(row.session_id)
        &&& after.sessions[row.session_id].slug == job.slug@
        &&& !before.sessions.contains_key(row.session_id) ==> {
            &&& !before.names_session(job.slug@)
            &&& after.sessions[row.session_id].created_at == job.now
            &&& after.sessions[row.session_id].note is None
        }
    })
    // Nothing else is new.
    &&& forall|k: i64| #[trigger]
        after.segments.contains_key(k) ==> k == segment_id || before.segments.contains_key(k)
    &&& forall|k: i64| #[trigger]
        after.sessions.contains_key(k) ==> k == after.segments[segment_id].session_id
            || before.sessions.contains_key(k)
    &&& forall|k: i64| #[trigger]
        after.utterances.contains_key(k) ==> before.utterances.contains_key(k)
            || after.utterances[k].segment_id == segment_id
}

/// A segment that is there already is left alone, and nothing changes.
/// Otherwise the segment is stored: with the utterances of its transcript, or,
/// where there is no transcript, with the reason for that. All that was there
/// before stays as it is.
pub open spec fn comes_to(
    before: Tables<Millis>,
    after: Tables<Millis>,
    job: IngestJob,
    content: Option<String>,
    end: IngestStep,
) -> bool {
    &&& after.valid()
    &&& keeps(before, after)
    &&& after.names_segment(job.filename@)
    &&& match end {
        IngestStep::Finish(Ok(IngestResult::Skipped { segment_id, reason })) => {
            &&& before.segments.contains_key(segment_id)
            &&& before.segments[segment_id].filename == job.filename@
            &&& reason@ == "Сегмент уже в БД"@
            &&& after == before
        },
        IngestStep::Finish(
            Ok(IngestResult::Ingested { session_slug, segment_index, segment_id, utterance_count }),
        ) => {
            &&& !before.names_segment(job.filename@)
            &&& session_slug == job.slug
            &&& segment_index == job.index
            &&& holds_segment(before, after, job, segment_id, TranscriptionStatus::Done, None)
            &&& transcript_says(job.txt_path, content) matches Ok(spoken)
            &&& utterance_count == spoken.len()
            &&& exists|ids: Seq<i64>| holds_spoken(after, segment_id, spoken, ids)
        },
        IngestStep::Finish(Err(IngestError::Transcript(e))) => {
            &&& !before.names_segment(job.filename@)
            &&& transcript_says(job.txt_path, content) == Err::<Seq<Spoken>, TranscriptError>(e)
            &&& exists|segment_id: i64| #[trigger]
                holds_segment(
                    before,
                    after,
                    job,
                    segment_id,
                    TranscriptionStatus::Error,
                    Some("Ошибка парсинга txt: "@ + e.text()),
                )
            &&& after.utterances == before.utterances
        },
        _ => false,
    }
}

/// What an ingestion comes to.
pub proof fn law_ingestion(path: Seq<IngestStand>, job: IngestJob, content: Option<String>)
    requires
        ingests(path, job, content),
    ensures
        comes_to(path[0].0, path.last().0, job, content, path.last().1),
{
    reveal(Tables::carries_out);
    let before = path[0].0;
    let lookup = Request::<Millis>::SegmentByFilename { filename: job.filename };
    let reply = lemma_answer(path, job, content, 0, lookup, Ingest::Lookup { job });
    match reply->Segment_0 {
        Some(existing) => {
            lemma_ingest_over(path, job, content, 1);
            assert(before.segments[existing.id].filename == job.filename@);
        },
        None => {
            lemma_new_segment(path, job, content);
        },
    }
}

/// The ingestion of a segment that is not there yet, up to its transcript.
proof fn lemma_new_segment(path: Seq<IngestStand>, job: IngestJob, content: Option<String>)
    requires
        ingests(path, job, content),
        path.len() > 1,
        path[1].0 == path[0].0,
        !path[0].0.names_segment(job.filename@),
        path[1].1 == (IngestStep::Ask {
            request: Request::<Millis>::SessionBySlug { slug: job.slug },
            state: Ingest::Session {
                job,
                task: Task::CreateIfAbsent { slug: job.slug, now: job.now },
            },
        }),
    ensures
        comes_to(path[0].0, path.last().0, job, content, path.last().1),
{
    let before = path[0].0;
    let first_task = Task::<Millis>::CreateIfAbsent { slug: job.slug, now: job.now };
    let run = lemma_phase(
        path,
        job,
        content,
        1,
        Phase::Session { job },
        Request::<Millis>::SessionBySlug { slug: job.slug },
        first_task,
    );
    law_get_or_create_session(run, job.slug, job.now);
    let session = run.last().1->Finish_0->Ok_0->Reply_0->Session_0->Some_0;
    let m = run.len() as int;
    let with_session = path[m].0;
    assert(gives_session(before, with_session, session, job.slug@, job.now, None));
    let new = NewSegment {
        session_id: session.id,
        index: job.index,
        filename: job.filename,
        size_bytes: Some(job.size),
        recorded_at: job.recorded_at,
    };
    let run2 = lemma_phase(
        path,
        job,
        content,
        m,
        Phase::Segment { job },
        Request::<Millis>::InsertSegment { segment: new },
        Task::<Millis>::ReadSegment,
    );
    law_create_segment(run2, new);
    let segment = run2.last().1->Finish_0->Ok_0->Reply_0->Segment_0->Some_0;
    let n = m + run2.len() - 1;
    let created = path[n].0;
    assert(created == with_session.with_segment(segment.id, new_segment_row(new)));
    assert(keeps(before, created));
    assert(n + 1 < path.len()) by {
        if n + 1 == path.len() {
            assert(path.last() == path[n]);
        }
    }
    assert(ingest_goes_at(path, n, content));
    match transcript_says(job.txt_path, content) {
        Ok(spoken) => {
            lemma_stored(path, job, content, n + 1, segment.id, spoken);
        },
        Err(e) => {
            lemma_failed(path, job, content, n + 1, segment.id, e);
        },
    }
}

/// The ingestion of a segment whose transcript cannot be read.
proof fn lemma_failed(
    path: Seq<IngestStand>,
    job: IngestJob,
    content: Option<String>,
    n: int,
    segment_id: i64,
    e: TranscriptError,
)
    requires
        ingests(path, job, content),
        1 <= n < path.len(),
        path[n].0.valid(),
        transcript_says(job.txt_path, content) == Err::<Seq<Spoken>, TranscriptError>(e),
        !path[0].0.names_segment(job.filename@),
        keeps(path[0].0, path[n].0),
        path[n].0.utterances == path[0].0.utterances,
        holds_segment(
            path[0].0,
            path[n].0,
            job,
            segment_id,
            TranscriptionStatus::Pending,
            None,
        ),
        notes_error(segment_id, e, path[n].1),
    ensures
        comes_to(path[0].0, path.last().0, job, content, path.last().1),
{
    reveal(Tables::carries_out);
    let request = path[n].1->Ask_request;
    let state = path[n].1->Ask_state;
    let reply = lemma_answer(path, job, content, n, request, state);
    lemma_ingest_over(path, job, content, n + 1);
    let (before, after) = (path[0].0, path.last().0);
    assert(after.segments[segment_id].filename == job.filename@);
    assert(holds_segment(
        before,
        after,
        job,
        segment_id,
        TranscriptionStatus::Error,
        Some("Ошибка парсинга txt: "@ + e.text()),
    ));
}

/// What setting the status of a segment does.
proof fn lemma_status_set(
    tables: Tables<Millis>,
    id: i64,
    status: TranscriptionStatus,
    error_message: Option<String>,
    reply: Reply<Millis>,
    after: Tables<Millis>,
)
    requires
        tables.carries_out(
            Request::SetSegmentStatus { id, status, error_message },
            reply,
            after,
        ),
        tables.segments.contains_key(id),
    ensures
        after == tables.with_segment(
            id,
            SegmentRow { status, error_message: chars(error_message), ..tables.segments[id] },
        ),
{
    reveal(Tables::carries_out);
}

/// The ingestion of a segment whose transcript was read.
proof fn lemma_stored(
    path: Seq<IngestStand>,
    job: IngestJob,
    content: Option<String>,
    n: int,
    segment_id: i64,
    spoken: Seq<Spoken>,
)
    requires
        ingests(path, job, content),
        1 <= n < path.len(),
        path[n].0.valid(),
        path[0].0.valid(),
        transcript_says(job.txt_path, content) == Ok::<Seq<Spoken>, TranscriptError>(spoken),
        !path[0].0.names_segment(job.filename@),
        keeps(path[0].0, path[n].0),
        path[n].0.utterances == path[0].0.utterances,
        holds_segment(
            path[0].0,
            path[n].0,
            job,
            segment_id,
            TranscriptionStatus::Pending,
            None,
        ),
        stores(job, segment_id, spoken, path[n].1),
    ensures
        comes_to(path[0].0, path.last().0, job, content, path.last().1),
{
    let before = path[0].0;
    let created = path[n].0;
    let state = path[n].1->Ask_state;
    let count = state->Utterances_count;
    let task = state->Utterances_task;
    let pending = task->ReplaceBegun_pending;
    let run = lemma_phase(
        path,
        job,
        content,
        n,
        Phase::Utterances { job, segment_id, count },
        Request::<Millis>::Begin,
        task,
    );
    law_replace_utterances(run, segment_id, pending);
    let v = run.last().1->Finish_0->Ok_0->Reply_0->Utterances_0@;
    let m = n + run.len() - 1;
    let filled = path[m].0;
    assert(replaces(created, filled, segment_id, pending@, v));
    let request = Request::<Millis>::SetSegmentStatus {
        id: segment_id,
        status: TranscriptionStatus::Done,
        error_message: None,
    };
    let reply = lemma_answer(
        path,
        job,
        content,
        m,
        request,
        Ingest::Finishing { job, segment_id, count },
    );
    lemma_ingest_over(path, job, content, m + 1);
    let after = path.last().0;
    lemma_status_set(filled, segment_id, TranscriptionStatus::Done, None, reply, after);
    assert(after.segments[segment_id].filename == job.filename@);
    // No utterance of the segment was there before.
    assert forall|k: i64| created.utterances.contains_key(k) implies
        #[trigger] created.utterances[k].segment_id != segment_id by {
        assert(before.segments.contains_key(before.utterances[k].segment_id));
    }
    let heard = choose|heard: Seq<WhisperUtterance>| #[trigger]
        renders(heard, spoken) && stored_as(pending@, segment_id, heard);
    let ids = ids_of(v);
    assert forall|i: int| 0 <= i < ids.len() implies {
        &&& after.utterances.contains_key(#[trigger] ids[i])
        &&& ({
            let row = after.utterances[ids[i]];
            &&& row.segment_id == segment_id
            &&& row.index == i as u32
            &&& row.start_sec == spoken[i].start
            &&& row.end_sec == end_time(spoken, i)
            &&& row.text_thai == spoken[i].text
            &&& row.text_ru is None
            &&& row.speaker_id is None
            &&& row.confidence is None
        })
    } by {
        assert(ids_of(v)[i] == ids[i]);
        assert(pending@[i].segment_id == segment_id);
        assert(heard[i].start_ms == spoken[i].start);
    }
    assert forall|k: i64|
        after.utterances.contains_key(k) && #[trigger] after.utterances[k].segment_id
            == segment_id implies ids.contains(k) by {
        if !ids.contains(k) {
            assert(filled.utterances.contains_key(k));
            assert(created.utterances.contains_key(k));
        }
    }
    assert(holds_spoken(after, segment_id, spoken, ids));
    assert forall|k: i64| #[trigger] before.utterances.contains_key(k) implies
        after.utterances.contains_key(k) && after.utterances[k] == before.utterances[k] by {
        assert(created.utterances.contains_key(k));
        assert(created.utterances[k].segment_id != segment_id);
        assert(filled.utterances.contains_key(k));
    }
}

/// A segment that was taken in once, or tried, is left alone from then on: the
/// second ingestion gives its id and changes nothing.
pub proof fn law_ingested_once(
    path: Seq<IngestStand>,
    content: Option<String>,
    again: Seq<IngestStand>,
    content_then: Option<String>,
    job: IngestJob,
    job_then: IngestJob,
)
    requires
        ingests(path, job, content),
        ingests(again, job_then, content_then),
        again[0].0 == path.last().0,
        job_then.filename@ == job.filename@,
    ensures
        again.last().0 == path.last().0,
        match again.last().1 {
            IngestStep::Finish(Ok(IngestResult::Skipped { segment_id, .. })) => {
                &&& again.last().0.segments.contains_key(segment_id)
                &&& again.last().0.segments[segment_id].filename == job.filename@
                &&& path.last().1 matches IngestStep::Finish(Ok(first)) ==> segment_id
                    == match first {
                    IngestResult::Ingested { segment_id, .. } => segment_id,
                    IngestResult::Skipped { segment_id, .. } => segment_id,
                }
            },
            _ => false,
        },
{
    law_ingestion(path, job, content);
    law_ingestion(again, job_then, content_then);
}

/// A recorded segment is taken in as what it is: under the session and the number
/// in its name, with its size and its time, and with every utterance of its
/// transcript. A second one of that name is left alone.
pub proof fn law_recording_ingested(
    path: Seq<IngestStand>,
    job: IngestJob,
    content: Option<String>,
    filename: String,
    txt_path: String,
    size: u64,
    recorded_at: i64,
    now: i64,
    session: Seq<char>,
    index: nat,
    ending: Seq<char>,
)
    requires
        ingests(path, job, content),
        starts_ingestion(filename, txt_path, size, recorded_at, now, path[0].1),
        names_session(session),
        names_audio(ending),
        index <= u32::MAX,
        filename@ == segment_name(session, index, ending),
    ensures
        ({
            let (before, after) = (path[0].0, path.last().0);
            match path.last().1 {
                IngestStep::Finish(Ok(IngestResult::Skipped { segment_id, .. })) => {
                    &&& before.segments.contains_key(segment_id)
                    &&& before.segments[segment_id].filename == filename@
                    &&& after == before
                },
                IngestStep::Finish(
                    Ok(
                        IngestResult::Ingested {
                            session_slug,
                            segment_index,
                            segment_id,
                            utterance_count,
                        },
                    ),
                ) => {
                    let row = after.segments[segment_id];
                    &&& !before.names_segment(filename@)
                    &&& session_slug@ == session
                    &&& segment_index == index
                    &&& after.segments.contains_key(segment_id)
                    &&& row.index == index
                    &&& row.filename == filename@
                    &&& row.size_bytes == Some(size)
                    &&& row.recorded_at == recorded_at
                    &&& row.status == TranscriptionStatus::Done
                    &&& after.sessions[row.session_id].slug == session
                    &&& before.names_session(session) || after.sessions[row.session_id].created_at
                        == now
                    &&& content is Some
                    &&& lines_spoken(pieces(content->Some_0@, '\n')) matches Ok(spoken)
                    &&& utterance_count == spoken.len()
                    &&& exists|ids: Seq<i64>| holds_spoken(after, segment_id, spoken, ids)
                },
                IngestStep::Finish(Err(IngestError::Transcript(e))) => {
                    &&& !before.names_segment(filename@)
                    &&& after.names_segment(filename@)
                    &&& after.utterances == before.utterances
                    &&& match content {
                        None => e == TranscriptError::Unreadable(txt_path),
                        Some(text) => lines_spoken(pieces(text@, '\n')) is Err,
                    }
                },
                _ => false,
            }
        }),
{
    law_segment_name_read(session, index, ending);
    assert(path[0].1->Ask_state == (Ingest::Lookup { job }));
    law_ingestion(path, job, content);
    let (before, after) = (path[0].0, path.last().0);
    if let IngestStep::Finish(Ok(IngestResult::Ingested { segment_id, .. })) = path.last().1 {
        let row = after.segments[segment_id];
        if before.sessions.contains_key(row.session_id) {
            assert(before.sessions[row.session_id].slug == session);
            assert(before.names_session(session));
        }
    }
}

/// A file whose name is not that of a segment is refused at once, for the reason
/// that holds, and nothing is asked of the database.
pub proof fn law_odd_name_refused(
    filename: String,
    txt_path: String,
    size: u64,
    recorded_at: i64,
    now: i64,
    step: IngestStep,
)
    requires
        starts_ingestion(filename, txt_path, size, recorded_at, now, step),
    ensures
        step is Finish <==> audio_name(filename@) is Err,
        step is Finish ==> step == IngestStep::Finish(
            Err::<IngestResult, IngestError>(IngestError::Filename(audio_name(filename@)->Err_0)),
        ),
{
}

} // verus!
