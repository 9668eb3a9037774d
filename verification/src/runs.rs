//! What the operations come to on tables that carry out what they are asked.

use vstd::prelude::*;

use crate::detail::{
    describes, law_whole_text_shown, listed_before, of_segment, tells_heard, tells_translated,
};
use crate::model::{
    NewSegment, NewSession, NewSpeaker, NewUtterance, Segment, SegmentWithUtterances, Session,
    SessionDetail, SessionSummary, Speaker, TranscriptionStatus, Utterance, UtteranceWithSpeaker,
};
use crate::repository::{
    assigning, creating_segment, creating_session, creating_speaker, creating_utterance,
    deleting_session, deleting_speaker, finding_segment, finding_session, getting_session,
    inserts_next, listing_pending, listing_segments, listing_sessions, listing_speakers,
    listing_summaries, listing_utterances, migrating, reading_segment, reading_session,
    reading_speaker, reading_utterance, reads_next, replacing, setting_colour, setting_label,
    setting_note, setting_status, showing_segment, showing_session, translating, with_found,
    Outcome, Step, Task,
};
use crate::service::{noting_failure, noting_progress};
use crate::store::{Missing, Reply, Request, StoreError};
use crate::tables::{
    new_segment_row, new_speaker_row, new_utterance_row, segment_shows, selects, session_shows,
    speaker_shows, utterance_shows, SegmentRow, SessionRow, SpeakerRow, Tables, UtteranceRow,
};
use crate::text::{chars, picks};

verus! {

// ---------------------------------------------------------------------------
//  Runs
// ---------------------------------------------------------------------------

/// The tables, and where an operation on them stands.
pub type Stand<R> = (Tables<R>, Step<R>);

/// The tables carry out what is asked, and the operation goes on with the
/// answer.
pub open spec fn goes<R>(from: Stand<R>, to: Stand<R>) -> bool {
    match from.1 {
        Step::Ask { request, task } => exists|reply: Reply<R>| #[trigger]
            from.0.carries_out(request, reply, to.0) && task.leads(
                Ok::<Reply<R>, StoreError>(reply),
                to.1,
            ),
        Step::Finish(_) => false,
    }
}

/// The stand behind `i` follows from the one at `i`.
pub open spec fn goes_at<R>(path: Seq<Stand<R>>, i: int) -> bool {
    goes(path[i], path[i + 1])
}

/// Each stand but the first follows from the one before it.
pub open spec fn runs<R>(path: Seq<Stand<R>>) -> bool {
    &&& path.len() > 0
    &&& forall|i: int| 0 <= i < path.len() - 1 ==> #[trigger] goes_at(path, i)
}

/// The operation that starts with `step` runs from its start to its end.
pub open spec fn runs_from<R>(path: Seq<Stand<R>>, step: Step<R>) -> bool {
    &&& runs(path)
    &&& path[0].0.valid()
    &&& path[0].1 == step
    &&& path.last().1 is Finish
}

/// The answer to what was asked.
proof fn lemma_next<R>(path: Seq<Stand<R>>, i: int, request: Request<R>, task: Task<R>) -> (reply:
    Reply<R>)
    requires
        runs(path),
        path.last().1 is Finish,
        0 <= i < path.len(),
        path[i].1 == (Step::Ask { request, task }),
    ensures
        i + 1 < path.len(),
        path[i].0.carries_out(request, reply, path[i + 1].0),
        task.answered(reply, path[i + 1].1),
{
    assert(i + 1 < path.len()) by {
        if i + 1 == path.len() {
            assert(path.last() == path[i]);
        }
    }
    assert(goes_at(path, i));
    choose|reply: Reply<R>| #[trigger]
        path[i].0.carries_out(request, reply, path[i + 1].0) && task.leads(
            Ok::<Reply<R>, StoreError>(reply),
            path[i + 1].1,
        )
}

/// An answer that the tables give leads on.
pub proof fn lemma_goes<R>(from: Stand<R>, to: Stand<R>, reply: Reply<R>)
    requires
        from.1 matches Step::Ask { request, task } && from.0.carries_out(request, reply, to.0)
            && task.leads(Ok::<Reply<R>, StoreError>(reply), to.1),
    ensures
        goes(from, to),
{
}

/// A run is over where its operation is.
proof fn lemma_over<R>(path: Seq<Stand<R>>, i: int)
    requires
        runs(path),
        0 <= i < path.len(),
        path[i].1 is Finish,
    ensures
        i == path.len() - 1,
{
    if i < path.len() - 1 {
        assert(goes_at(path, i));
    }
}

/// The operation asks for this and nothing else.
pub open spec fn asking<R>(request: Request<R>) -> Step<R> {
    Step::Ask { request, task: Task::Answer }
}

/// An operation that asks once ends with the answer.
proof fn lemma_asked_once<R>(path: Seq<Stand<R>>, request: Request<R>) -> (reply: Reply<R>)
    requires
        runs_from(path, asking(request)),
    ensures
        path[0].0.carries_out(request, reply, path.last().0),
        path.last().1 == Step::Finish(Ok::<Outcome<R>, StoreError>(Outcome::Reply(reply))),
{
    let reply = lemma_next(path, 0, request, Task::Answer);
    lemma_over(path, 1);
    reply
}

/// Creating the tables where they are there already changes nothing.
pub proof fn law_migrate_again<R>(path: Seq<Stand<R>>)
    requires
        runs_from(path, migrating()),
    ensures
        path.last().1 == (Step::Finish(Ok(Outcome::Reply(Reply::<R>::Done)))),
        path.last().0 == path[0].0,
{
    reveal(Tables::carries_out);
    let reply = lemma_asked_once(path, Request::<R>::Migrate);
}

// ---------------------------------------------------------------------------
//  Sessions
// ---------------------------------------------------------------------------

/// Creating a session gives the session of that name: the one that is there
/// already, unchanged, or a new one.
pub proof fn law_create_session<R>(path: Seq<Stand<R>>, data: NewSession, now: i64)
    requires
        runs_from(path, creating_session(data, now)),
    ensures
        path.last().1 matches Step::Finish(Ok(Outcome::Reply(Reply::Session(Some(s)))))
            && gives_session(path[0].0, path.last().0, s, data.slug@, now, chars(data.note)),
{
    lemma_created(path, 0, data.slug, now, data.note);
}

/// `s` is the session of that name: the one that was there, or else a new one.
pub open spec fn gives_session<R>(
    before: Tables<R>,
    after: Tables<R>,
    s: Session,
    slug: Seq<char>,
    now: i64,
    note: Option<Seq<char>>,
) -> bool {
    &&& s.slug@ == slug
    &&& after.sessions.contains_key(s.id)
    &&& session_shows(s, after.sessions[s.id])
    &&& if before.names_session(slug) {
        after == before
    } else {
        &&& !before.sessions.contains_key(s.id)
        &&& after == before.with_session(s.id, SessionRow { slug, created_at: now, note })
    }
}

proof fn lemma_created<R>(
    path: Seq<Stand<R>>,
    i: int,
    slug: String,
    now: i64,
    note: Option<String>,
)
    requires
        runs(path),
        path.last().1 is Finish,
        0 <= i < path.len(),
        path[i].0.valid(),
        path[i].1 == (Step::Ask {
            request: Request::<R>::InsertSession { slug, created_at: now, note },
            task: Task::ReadSession { slug },
        }),
    ensures
        path.last().1 matches Step::Finish(Ok(Outcome::Reply(Reply::Session(Some(s)))))
            && gives_session(path[i].0, path.last().0, s, slug@, now, chars(note)),
{
    reveal(Tables::carries_out);
    let before = path[i].0;
    let row = SessionRow { slug: slug@, created_at: now, note: chars(note) };
    let request = Request::<R>::InsertSession { slug, created_at: now, note };
    let done = lemma_next(path, i, request, Task::ReadSession { slug });
    let after = path[i + 1].0;
    let fresh = choose|id: i64|
        !before.sessions.contains_key(id) && after == #[trigger] before.with_session(id, row);
    if !before.names_session(slug@) {
        assert(after == before.with_session(fresh, row));
        assert(after.sessions[fresh].slug == slug@);
    }
    let found = lemma_next(
        path,
        i + 1,
        Request::<R>::SessionBySlug { slug },
        Task::MustExist { what: Missing::Session },
    );
    assert(after.names_session(slug@));
    lemma_over(path, i + 2);
    let s = found->Session_0->Some_0;
    if !before.names_session(slug@) {
        assert(s.id == fresh) by {
            assert(after.sessions[s.id].slug == slug@);
            if s.id != fresh {
                assert(before.sessions.contains_key(s.id));
                assert(before.sessions[s.id].slug == slug@);
            }
        }
    }
}

/// Asking for the session of a name gives the one that is there, unchanged, or
/// else a new one without a note.
pub proof fn law_get_or_create_session<R>(path: Seq<Stand<R>>, slug: String, now: i64)
    requires
        runs_from(path, getting_session(slug, now)),
    ensures
        path.last().1 matches Step::Finish(Ok(Outcome::Reply(Reply::Session(Some(s)))))
            && gives_session(path[0].0, path.last().0, s, slug@, now, None),
{
    reveal(Tables::carries_out);
    let found = lemma_next(
        path,
        0,
        Request::<R>::SessionBySlug { slug },
        Task::CreateIfAbsent { slug, now },
    );
    if found->Session_0 is Some {
        lemma_over(path, 1);
        let s = found->Session_0->Some_0;
        assert(path[0].0.sessions[s.id].slug == slug@);
    } else {
        lemma_created(path, 1, slug, now, None);
    }
}

/// The list of sessions holds every session once, the newest first, and making
/// it changes nothing.
pub proof fn law_sessions_listed<R>(path: Seq<Stand<R>>)
    requires
        runs_from(path, listing_sessions()),
    ensures
        path.last().0 == path[0].0,
        path.last().1 matches Step::Finish(Ok(Outcome::Reply(Reply::Sessions(v)))) && {
            let tables = path[0].0;
            &&& selects(
                v@.map_values(|s: Session| s.id),
                |k: i64| tables.sessions.contains_key(k),
                |k: i64| -tables.sessions[k].created_at,
            )
            &&& forall|i: int|
                0 <= i < v@.len() ==> session_shows(#[trigger] v@[i], tables.sessions[v@[i].id])
        },
{
    reveal(Tables::carries_out);
    let reply = lemma_asked_once(path, Request::<R>::Sessions);
}

/// The list of summaries holds one for every session, the newest first, each
/// with the counts of what belongs to the session, and making it changes
/// nothing.
pub proof fn law_summaries_listed<R>(path: Seq<Stand<R>>)
    requires
        runs_from(path, listing_summaries()),
    ensures
        path.last().0 == path[0].0,
        path.last().1 matches Step::Finish(Ok(Outcome::Reply(Reply::Summaries(v)))) && {
            let tables = path[0].0;
            &&& selects(
                v@.map_values(|s: SessionSummary| s.id),
                |k: i64| tables.sessions.contains_key(k),
                |k: i64| -tables.sessions[k].created_at,
            )
            &&& forall|i: int| 0 <= i < v@.len() ==> tables.summary_shows(#[trigger] v@[i])
        },
{
    reveal(Tables::carries_out);
    let reply = lemma_asked_once(path, Request::<R>::Summaries);
}

/// Setting the note of a session changes that note and nothing else, and the
/// session read afterwards has it. Where there is no such session nothing
/// changes.
pub proof fn law_note_read_back<R>(
    set: Seq<Stand<R>>,
    read: Seq<Stand<R>>,
    id: i64,
    note: Option<String>,
)
    requires
        runs_from(set, setting_note(id, note)),
        runs_from(read, reading_session(id)),
        read[0].0 == set.last().0,
    ensures
        set.last().1 == (Step::Finish(Ok(Outcome::Reply(Reply::<R>::Done)))),
        read.last().0 == read[0].0,
        ({
            let (before, after) = (set[0].0, set.last().0);
            match read.last().1 {
                Step::Finish(Ok(Outcome::Reply(Reply::Session(Some(s))))) => {
                    let row = SessionRow { note: chars(note), ..before.sessions[id] };
                    &&& before.sessions.contains_key(id)
                    &&& after == before.with_session(id, row)
                    &&& s.id == id
                    &&& session_shows(s, row)
                },
                Step::Finish(Ok(Outcome::Reply(Reply::Session(None)))) => {
                    &&& !before.sessions.contains_key(id)
                    &&& after == before
                },
                _ => false,
            }
        }),
{
    reveal(Tables::carries_out);
    let done = lemma_asked_once(set, Request::<R>::SetSessionNote { id, note });
    let found = lemma_asked_once(read, Request::<R>::SessionById { id });
}

/// A session is found by its name where there is one of it.
pub proof fn law_session_found<R>(path: Seq<Stand<R>>, slug: String)
    requires
        runs_from(path, finding_session(slug)),
    ensures
        path.last().0 == path[0].0,
        match path.last().1 {
            Step::Finish(Ok(Outcome::Reply(Reply::Session(Some(s))))) => {
                &&& path[0].0.sessions.contains_key(s.id)
                &&& path[0].0.sessions[s.id].slug == slug@
                &&& session_shows(s, path[0].0.sessions[s.id])
            },
            Step::Finish(Ok(Outcome::Reply(Reply::Session(None)))) => !path[0].0.names_session(
                slug@,
            ),
            _ => false,
        },
{
    reveal(Tables::carries_out);
    let reply = lemma_asked_once(path, Request::<R>::SessionBySlug { slug });
}

// ---------------------------------------------------------------------------
//  Segments
// ---------------------------------------------------------------------------

/// Creating a segment gives the segment that was asked for, and it is pending.
pub proof fn law_create_segment<R>(path: Seq<Stand<R>>, data: NewSegment)
    requires
        runs_from(path, creating_segment(data)),
    ensures
        path.last().1 matches Step::Finish(Ok(Outcome::Reply(Reply::Segment(Some(s))))) && {
            &&& !path[0].0.segments.contains_key(s.id)
            &&& segment_shows(s, new_segment_row(data))
            &&& path.last().0 == path[0].0.with_segment(s.id, new_segment_row(data))
        },
{
    reveal(Tables::carries_out);
    let reply = lemma_next(
        path,
        0,
        Request::<R>::InsertSegment { segment: data },
        Task::ReadSegment,
    );
    let id = reply->Id_0;
    let found = lemma_next(
        path,
        1,
        Request::<R>::SegmentById { id },
        Task::MustExist { what: Missing::Segment },
    );
    assert(path[1].0.segments.contains_key(id));
    lemma_over(path, 2);
}

/// Setting how far the transcription of a segment has come changes that and the
/// message of its error and nothing else, and the segment read afterwards has
/// it. Where there is no such segment nothing changes.
pub proof fn law_status_read_back<R>(
    set: Seq<Stand<R>>,
    read: Seq<Stand<R>>,
    id: i64,
    status: TranscriptionStatus,
    error_message: Option<String>,
)
    requires
        runs_from(set, setting_status(id, status, error_message)),
        runs_from(read, reading_segment(id)),
        read[0].0 == set.last().0,
    ensures
        set.last().1 == (Step::Finish(Ok(Outcome::Reply(Reply::<R>::Done)))),
        read.last().0 == read[0].0,
        ({
            let (before, after) = (set[0].0, set.last().0);
            match read.last().1 {
                Step::Finish(Ok(Outcome::Reply(Reply::Segment(Some(s))))) => {
                    let row = SegmentRow {
                        status,
                        error_message: chars(error_message),
                        ..before.segments[id]
                    };
                    &&& before.segments.contains_key(id)
                    &&& after == before.with_segment(id, row)
                    &&& s.id == id
                    &&& s.transcription_status == status
                    &&& segment_shows(s, row)
                },
                Step::Finish(Ok(Outcome::Reply(Reply::Segment(None)))) => {
                    &&& !before.segments.contains_key(id)
                    &&& after == before
                },
                _ => false,
            }
        }),
{
    reveal(Tables::carries_out);
    let done = lemma_asked_once(
        set,
        Request::<R>::SetSegmentStatus { id, status, error_message },
    );
    let found = lemma_asked_once(read, Request::<R>::SegmentById { id });
}

/// The list of pending segments holds every segment that waits for
/// transcription once, the oldest first, and making it changes nothing.
pub proof fn law_pending_listed<R>(path: Seq<Stand<R>>)
    requires
        runs_from(path, listing_pending()),
    ensures
        path.last().0 == path[0].0,
        path.last().1 matches Step::Finish(Ok(Outcome::Reply(Reply::Segments(v)))) && {
            let tables = path[0].0;
            &&& selects(
                v@.map_values(|s: Segment| s.id),
                |k: i64|
                    tables.segments.contains_key(k) && tables.segments[k].status
                        == TranscriptionStatus::Pending,
                |k: i64| tables.segments[k].recorded_at as int,
            )
            &&& forall|i: int|
                0 <= i < v@.len() ==> segment_shows(#[trigger] v@[i], tables.segments[v@[i].id])
        },
{
    reveal(Tables::carries_out);
    let reply = lemma_asked_once(path, Request::<R>::PendingSegments);
}

/// Once the status of a segment is set, the segment is in the list of pending
/// segments if that is its status, and otherwise it is not.
pub proof fn law_pending_follows_status<R>(
    set: Seq<Stand<R>>,
    list: Seq<Stand<R>>,
    id: i64,
    status: TranscriptionStatus,
    error_message: Option<String>,
)
    requires
        runs_from(set, setting_status(id, status, error_message)),
        runs_from(list, listing_pending()),
        list[0].0 == set.last().0,
        set[0].0.segments.contains_key(id),
    ensures
        list.last().1 matches Step::Finish(Ok(Outcome::Reply(Reply::Segments(v)))) && (
        v@.map_values(|s: Segment| s.id).contains(id) <==> status == TranscriptionStatus::Pending),
{
    reveal(Tables::carries_out);
    let done = lemma_asked_once(
        set,
        Request::<R>::SetSegmentStatus { id, status, error_message },
    );
    law_pending_listed(list);
    let tables = list[0].0;
    let wanted = |k: i64|
        tables.segments.contains_key(k) && tables.segments[k].status
            == TranscriptionStatus::Pending;
    assert(wanted(id) <==> status == TranscriptionStatus::Pending);
    let v = list.last().1->Finish_0->Ok_0->Reply_0->Segments_0@;
    let ids = v.map_values(|s: Segment| s.id);
    if ids.contains(id) {
        let i = choose|i: int| 0 <= i < ids.len() && ids[i] == id;
        assert(wanted(ids[i]));
    }
}

/// The list of the segments of a session holds each of them once, in the order
/// of their numbers, and making it changes nothing.
pub proof fn law_segments_listed<R>(path: Seq<Stand<R>>, session_id: i64)
    requires
        runs_from(path, listing_segments(session_id)),
    ensures
        path.last().0 == path[0].0,
        path.last().1 matches Step::Finish(Ok(Outcome::Reply(Reply::Segments(v)))) && {
            let tables = path[0].0;
            &&& selects(
                v@.map_values(|s: Segment| s.id),
                |k: i64|
                    tables.segments.contains_key(k) && tables.segments[k].session_id == session_id,
                |k: i64| tables.segments[k].index as int,
            )
            &&& forall|i: int|
                0 <= i < v@.len() ==> segment_shows(#[trigger] v@[i], tables.segments[v@[i].id])
        },
{
    reveal(Tables::carries_out);
    let reply = lemma_asked_once(path, Request::<R>::SegmentsOfSession { session_id });
}

/// A segment is found by its file where there is one of it.
pub proof fn law_segment_found<R>(path: Seq<Stand<R>>, filename: String)
    requires
        runs_from(path, finding_segment(filename)),
    ensures
        path.last().0 == path[0].0,
        match path.last().1 {
            Step::Finish(Ok(Outcome::Reply(Reply::Segment(Some(s))))) => {
                &&& path[0].0.segments.contains_key(s.id)
                &&& path[0].0.segments[s.id].filename == filename@
                &&& segment_shows(s, path[0].0.segments[s.id])
            },
            Step::Finish(Ok(Outcome::Reply(Reply::Segment(None)))) => !path[0].0.names_segment(
                filename@,
            ),
            _ => false,
        },
{
    reveal(Tables::carries_out);
    let reply = lemma_asked_once(path, Request::<R>::SegmentByFilename { filename });
}

/// A failed transcription is noted with its message; once the segment goes on,
/// the message is gone.
pub proof fn law_failure_noted<R>(
    failed: Seq<Stand<R>>,
    message: String,
    next: Seq<Stand<R>>,
    status: TranscriptionStatus,
    id: i64,
)
    requires
        runs_from(failed, noting_failure(id, message)),
        runs_from(next, noting_progress(id, status)),
        next[0].0 == failed.last().0,
        failed[0].0.segments.contains_key(id),
    ensures
        failed.last().0 == failed[0].0.with_segment(
            id,
            SegmentRow {
                status: TranscriptionStatus::Error,
                error_message: Some(message@),
                ..failed[0].0.segments[id]
            },
        ),
        next.last().0.segments[id] == (SegmentRow {
            status,
            error_message: None,
            ..failed[0].0.segments[id]
        }),
{
    reveal(Tables::carries_out);
    let noted = lemma_asked_once(
        failed,
        Request::<R>::SetSegmentStatus {
            id,
            status: TranscriptionStatus::Error,
            error_message: Some(message),
        },
    );
    let moved = lemma_asked_once(
        next,
        Request::<R>::SetSegmentStatus { id, status, error_message: None },
    );
}

// ---------------------------------------------------------------------------
//  Speakers
// ---------------------------------------------------------------------------

/// Creating a speaker gives the speaker that was asked for.
pub proof fn law_create_speaker<R>(path: Seq<Stand<R>>, data: NewSpeaker)
    requires
        runs_from(path, creating_speaker(data)),
    ensures
        path.last().1 matches Step::Finish(Ok(Outcome::Reply(Reply::Speaker(Some(s))))) && {
            &&& !path[0].0.speakers.contains_key(s.id)
            &&& speaker_shows(s, new_speaker_row(data))
            &&& path.last().0 == path[0].0.with_speaker(s.id, new_speaker_row(data))
        },
{
    reveal(Tables::carries_out);
    let reply = lemma_next(
        path,
        0,
        Request::<R>::InsertSpeaker { speaker: data },
        Task::ReadSpeaker,
    );
    let id = reply->Id_0;
    let found = lemma_next(
        path,
        1,
        Request::<R>::SpeakerById { id },
        Task::MustExist { what: Missing::Speaker },
    );
    assert(path[1].0.speakers.contains_key(id));
    lemma_over(path, 2);
}

/// Deleting a speaker takes the speaker from the utterances, and changes
/// nothing else in them.
pub proof fn law_delete_speaker<R>(path: Seq<Stand<R>>, id: i64)
    requires
        runs_from(path, deleting_speaker(id)),
    ensures
        path.last().1 == (Step::Finish(Ok(Outcome::Reply(Reply::<R>::Done)))),
        ({
            let (before, after) = (path[0].0, path.last().0);
            &&& !after.speakers.contains_key(id)
            &&& after.sessions == before.sessions
            &&& after.segments == before.segments
            &&& after.utterances.dom() == before.utterances.dom()
            &&& forall|k: i64| #[trigger]
                before.utterances.contains_key(k) ==> after.utterances[k] == (UtteranceRow {
                    speaker_id: if before.utterances[k].speaker_id == Some(id) {
                        None
                    } else {
                        before.utterances[k].speaker_id
                    },
                    ..before.utterances[k]
                })
        }),
{
    reveal(Tables::carries_out);
    let reply = lemma_next(path, 0, Request::<R>::DeleteSpeaker { id }, Task::Answer);
    lemma_over(path, 1);
    let (before, after) = (path[0].0, path.last().0);
    assert(after.utterances.dom() =~= before.utterances.dom());
}

/// Setting the label of a speaker changes that label and nothing else, and the
/// speaker read afterwards has it. Where there is no such speaker nothing
/// changes.
pub proof fn law_label_read_back<R>(set: Seq<Stand<R>>, read: Seq<Stand<R>>, id: i64, label: String)
    requires
        runs_from(set, setting_label(id, label)),
        runs_from(read, reading_speaker(id)),
        read[0].0 == set.last().0,
    ensures
        set.last().1 == (Step::Finish(Ok(Outcome::Reply(Reply::<R>::Done)))),
        read.last().0 == read[0].0,
        ({
            let (before, after) = (set[0].0, set.last().0);
            match read.last().1 {
                Step::Finish(Ok(Outcome::Reply(Reply::Speaker(Some(s))))) => {
                    let row = SpeakerRow { label: label@, ..before.speakers[id] };
                    &&& before.speakers.contains_key(id)
                    &&& after == before.with_speaker(id, row)
                    &&& s.id == id
                    &&& speaker_shows(s, row)
                },
                Step::Finish(Ok(Outcome::Reply(Reply::Speaker(None)))) => {
                    &&& !before.speakers.contains_key(id)
                    &&& after == before
                },
                _ => false,
            }
        }),
{
    reveal(Tables::carries_out);
    let done = lemma_asked_once(set, Request::<R>::SetSpeakerLabel { id, label });
    let found = lemma_asked_once(read, Request::<R>::SpeakerById { id });
}

/// Setting the colour of a speaker changes that colour and nothing else, and the
/// speaker read afterwards has it. Where there is no such speaker nothing
/// changes.
pub proof fn law_colour_read_back<R>(
    set: Seq<Stand<R>>,
    read: Seq<Stand<R>>,
    id: i64,
    color: Option<String>,
)
    requires
        runs_from(set, setting_colour(id, color)),
        runs_from(read, reading_speaker(id)),
        read[0].0 == set.last().0,
    ensures
        set.last().1 == (Step::Finish(Ok(Outcome::Reply(Reply::<R>::Done)))),
        read.last().0 == read[0].0,
        ({
            let (before, after) = (set[0].0, set.last().0);
            match read.last().1 {
                Step::Finish(Ok(Outcome::Reply(Reply::Speaker(Some(s))))) => {
                    let row = SpeakerRow { color: chars(color), ..before.speakers[id] };
                    &&& before.speakers.contains_key(id)
                    &&& after == before.with_speaker(id, row)
                    &&& s.id == id
                    &&& speaker_shows(s, row)
                },
                Step::Finish(Ok(Outcome::Reply(Reply::Speaker(None)))) => {
                    &&& !before.speakers.contains_key(id)
                    &&& after == before
                },
                _ => false,
            }
        }),
{
    reveal(Tables::carries_out);
    let done = lemma_asked_once(set, Request::<R>::SetSpeakerColor { id, color });
    let found = lemma_asked_once(read, Request::<R>::SpeakerById { id });
}

/// The list of the speakers of a session holds each of them once, in the order
/// of their creation, and making it changes nothing.
pub proof fn law_speakers_listed<R>(path: Seq<Stand<R>>, session_id: i64)
    requires
        runs_from(path, listing_speakers(session_id)),
    ensures
        path.last().0 == path[0].0,
        path.last().1 matches Step::Finish(Ok(Outcome::Reply(Reply::Speakers(v)))) && {
            let tables = path[0].0;
            &&& selects(
                v@.map_values(|s: Speaker| s.id),
                |k: i64|
                    tables.speakers.contains_key(k) && tables.speakers[k].session_id == session_id,
                |k: i64| k as int,
            )
            &&& forall|i: int|
                0 <= i < v@.len() ==> speaker_shows(#[trigger] v@[i], tables.speakers[v@[i].id])
        },
{
    reveal(Tables::carries_out);
    let reply = lemma_asked_once(path, Request::<R>::SpeakersOfSession { session_id });
}

// ---------------------------------------------------------------------------
//  Utterances
// ---------------------------------------------------------------------------

/// Creating an utterance gives the utterance that was asked for, without a
/// translation.
pub proof fn law_create_utterance<R>(path: Seq<Stand<R>>, data: NewUtterance<R>)
    requires
        runs_from(path, creating_utterance(data)),
    ensures
        path.last().1 matches Step::Finish(Ok(Outcome::Reply(Reply::Utterance(Some(u))))) && {
            &&& !path[0].0.utterances.contains_key(u.id)
            &&& utterance_shows(u, new_utterance_row(data))
            &&& path.last().0 == path[0].0.with_utterance(u.id, new_utterance_row(data))
        },
{
    reveal(Tables::carries_out);
    let reply = lemma_next(
        path,
        0,
        Request::InsertUtterance { utterance: data },
        Task::<R>::ReadUtterance,
    );
    let id = reply->Id_0;
    let found = lemma_next(
        path,
        1,
        Request::<R>::UtteranceById { id },
        Task::MustExist { what: Missing::Utterance },
    );
    assert(path[1].0.utterances.contains_key(id));
    lemma_over(path, 2);
}

/// Setting a translation changes the translation of that utterance and nothing
/// else, and gives the utterance as it is then. It fails where there is no
/// such utterance.
pub proof fn law_update_translation<R>(path: Seq<Stand<R>>, id: i64, text_ru: Option<String>)
    requires
        runs_from(path, translating(id, text_ru)),
    ensures
        ({
            let (before, after) = (path[0].0, path.last().0);
            match path.last().1 {
                Step::Finish(Ok(Outcome::Reply(Reply::Utterance(Some(u))))) => {
                    let row = UtteranceRow { text_ru: chars(text_ru), ..before.utterances[id] };
                    &&& before.utterances.contains_key(id)
                    &&& u.id == id
                    &&& utterance_shows(u, row)
                    &&& after == before.with_utterance(id, row)
                },
                Step::Finish(Err(e)) => {
                    &&& !before.utterances.contains_key(id)
                    &&& e == StoreError::Missing(Missing::Translated)
                    &&& after == before
                },
                _ => false,
            }
        }),
{
    reveal(Tables::carries_out);
    let done = lemma_next(
        path,
        0,
        Request::<R>::SetTranslation { id, text_ru },
        Task::ReadChanged { id, change: Missing::Translated },
    );
    let found = lemma_next(
        path,
        1,
        Request::<R>::UtteranceById { id },
        Task::MustExist { what: Missing::Translated },
    );
    lemma_over(path, 2);
}

/// Setting the speaker changes the speaker of that utterance and nothing else,
/// and gives the utterance as it is then. It fails where there is no such
/// utterance.
pub proof fn law_assign_speaker<R>(path: Seq<Stand<R>>, id: i64, speaker_id: Option<i64>)
    requires
        runs_from(path, assigning(id, speaker_id)),
    ensures
        ({
            let (before, after) = (path[0].0, path.last().0);
            match path.last().1 {
                Step::Finish(Ok(Outcome::Reply(Reply::Utterance(Some(u))))) => {
                    let row = UtteranceRow { speaker_id, ..before.utterances[id] };
                    &&& before.utterances.contains_key(id)
                    &&& u.id == id
                    &&& utterance_shows(u, row)
                    &&& after == before.with_utterance(id, row)
                },
                Step::Finish(Err(e)) => {
                    &&& !before.utterances.contains_key(id)
                    &&& e == StoreError::Missing(Missing::Assigned)
                    &&& after == before
                },
                _ => false,
            }
        }),
{
    reveal(Tables::carries_out);
    let done = lemma_next(
        path,
        0,
        Request::<R>::SetUtteranceSpeaker { id, speaker_id },
        Task::ReadChanged { id, change: Missing::Assigned },
    );
    let found = lemma_next(
        path,
        1,
        Request::<R>::UtteranceById { id },
        Task::MustExist { what: Missing::Assigned },
    );
    lemma_over(path, 2);
}

/// The tables with the given utterances under the given ids.
pub open spec fn with_all<R>(
    tables: Tables<R>,
    utterances: Seq<NewUtterance<R>>,
    ids: Seq<i64>,
) -> Tables<R>
    decreases utterances.len(),
{
    if utterances.len() == 0 {
        tables
    } else {
        with_all(tables, utterances.drop_last(), ids.drop_last()).with_utterance(
            ids.last(),
            new_utterance_row(utterances.last()),
        )
    }
}

/// What is found under the ids, and elsewhere.
#[verifier::spinoff_prover]
pub proof fn lemma_with_all<R>(tables: Tables<R>, utterances: Seq<NewUtterance<R>>, ids: Seq<i64>)
    requires
        ids.len() == utterances.len(),
        ids.no_duplicates(),
    ensures
        with_all(tables, utterances, ids).sessions == tables.sessions,
        with_all(tables, utterances, ids).segments == tables.segments,
        with_all(tables, utterances, ids).speakers == tables.speakers,
        forall|i: int|
            0 <= i < ids.len() ==> with_all(tables, utterances, ids).utterances.contains_key(
                #[trigger] ids[i],
            ) && with_all(tables, utterances, ids).utterances[ids[i]] == new_utterance_row(
                utterances[i],
            ),
        forall|k: i64|
            !ids.contains(k) ==> (#[trigger] with_all(
                tables,
                utterances,
                ids,
            ).utterances.contains_key(k) == tables.utterances.contains_key(k)),
        forall|k: i64|
            !ids.contains(k) && tables.utterances.contains_key(k) ==> #[trigger] with_all(
                tables,
                utterances,
                ids,
            ).utterances[k] == tables.utterances[k],
    decreases utterances.len(),
{
    if utterances.len() > 0 {
        let front = ids.drop_last();
        lemma_with_all(tables, utterances.drop_last(), front);
        let before = with_all(tables, utterances.drop_last(), front);
        let after = with_all(tables, utterances, ids);
        assert(after == before.with_utterance(ids.last(), new_utterance_row(utterances.last())));
        assert forall|i: int| 0 <= i < ids.len() implies after.utterances.contains_key(
            #[trigger] ids[i],
        ) && after.utterances[ids[i]] == new_utterance_row(utterances[i]) by {
            if i < front.len() {
                assert(front[i] == ids[i]);
                assert(ids[i] != ids.last());
            }
        }
        assert forall|k: i64| !ids.contains(k) implies (
        #[trigger] after.utterances.contains_key(k) == tables.utterances.contains_key(k)) && (
        tables.utterances.contains_key(k) ==> after.utterances[k] == tables.utterances[k]) by {
            assert(!front.contains(k)) by {
                if front.contains(k) {
                    let i = choose|i: int| 0 <= i < front.len() && front[i] == k;
                    assert(ids[i] == k);
                }
            }
            assert(ids[ids.len() - 1] != k);
        }
    }
}

/// The utterances `v` are the given ones under their ids.
pub open spec fn shows_all<R>(v: Seq<Utterance<R>>, utterances: Seq<NewUtterance<R>>) -> bool {
    &&& v.len() == utterances.len()
    &&& forall|i: int|
        0 <= i < v.len() ==> utterance_shows(
            #[trigger] v[i],
            new_utterance_row(utterances[i]),
        )
}

/// The ids of the utterances.
pub open spec fn ids_of<R>(v: Seq<Utterance<R>>) -> Seq<i64> {
    v.map_values(|u: Utterance<R>| u.id)
}

proof fn lemma_reading<R>(
    path: Seq<Stand<R>>,
    i: int,
    base: Tables<R>,
    all: Seq<NewUtterance<R>>,
    ids: Seq<i64>,
    found: Seq<Utterance<R>>,
)
    requires
        runs(path),
        path.last().1 is Finish,
        0 <= i < path.len(),
        ids.len() == all.len(),
        ids.no_duplicates(),
        path[i].0 == with_all(base, all, ids),
        found.len() <= ids.len(),
        ids_of(found) == ids.take(found.len() as int),
        shows_all(found, all.take(found.len() as int)),
        reads_next(ids.skip(found.len() as int), found, path[i].1),
    ensures
        path.last().0 == with_all(base, all, ids),
        path.last().1 matches Step::Finish(Ok(Outcome::Reply(Reply::Utterances(v)))) && ids_of(v@)
            == ids && shows_all(v@, all),
    decreases path.len() - i,
{
    reveal(Tables::carries_out);
    let j = found.len() as int;
    let left = ids.skip(j);
    if left.len() == 0 {
        lemma_over(path, i);
        assert(ids.take(j) =~= ids);
        assert(all.take(j) =~= all);
    } else {
        assert(path[i].1 is Ask);
        let request = path[i].1->request;
        let task = path[i].1->task;
        let reply = lemma_next(path, i, request, task);
        lemma_with_all(base, all, ids);
        assert(left[0] == ids[j]);
        let one = reply->Utterance_0;
        assert(path[i].0.utterances.contains_key(ids[j]));
        let u = one->Some_0;
        let more = found.push(u);
        assert(with_found(found, one) == more);
        assert(left.drop_first() =~= ids.skip(j + 1));
        assert(ids_of(more) =~= ids.take(j + 1)) by {
            assert forall|k: int| 0 <= k < j + 1 implies ids_of(more)[k] == ids.take(j + 1)[k] by {
                if k < j {
                    assert(ids_of(found)[k] == ids.take(j)[k]);
                }
            }
        }
        assert(shows_all(more, all.take(j + 1))) by {
            assert forall|k: int| 0 <= k < more.len() implies utterance_shows(
                #[trigger] more[k],
                new_utterance_row(all.take(j + 1)[k]),
            ) by {
                if k < j {
                    assert(more[k] == found[k]);
                    assert(all.take(j)[k] == all.take(j + 1)[k]);
                }
            }
        }
        lemma_reading(path, i + 1, base, all, ids, more);
    }
}

/// What a commit does.
pub proof fn lemma_committed<R>(tables: Tables<R>, reply: Reply<R>, after: Tables<R>)
    requires
        tables.carries_out(Request::Commit, reply, after),
    ensures
        reply is Done,
        after == tables,
{
    reveal(Tables::carries_out);
}

/// The segment and the speaker of the utterance are there, and its place in
/// the segment is free.
pub open spec fn fits<R>(tables: Tables<R>, u: NewUtterance<R>) -> bool {
    &&& tables.segments.contains_key(u.segment_id)
    &&& u.speaker_id matches Some(k) ==> tables.speakers.contains_key(k)
    &&& forall|k: i64|
        tables.utterances.contains_key(k) ==> !(#[trigger] tables.utterances[k].segment_id
            == u.segment_id && tables.utterances[k].index == u.index)
}

/// What the insertion of an utterance does.
pub proof fn lemma_inserted<R>(
    tables: Tables<R>,
    utterance: NewUtterance<R>,
    reply: Reply<R>,
    after: Tables<R>,
)
    requires
        tables.carries_out(Request::InsertUtterance { utterance }, reply, after),
    ensures
        reply matches Reply::Id(id) && !tables.utterances.contains_key(id) && after
            == tables.with_utterance(id, new_utterance_row(utterance)),
        fits(tables, utterance),
{
    reveal(Tables::carries_out);
}

proof fn lemma_inserting<R>(
    path: Seq<Stand<R>>,
    i: int,
    base: Tables<R>,
    all: Seq<NewUtterance<R>>,
    ids: Seq<i64>,
)
    requires
        runs(path),
        path.last().1 is Finish,
        0 <= i < path.len(),
        ids.len() <= all.len(),
        ids.no_duplicates(),
        forall|k: int| 0 <= k < ids.len() ==> !base.utterances.contains_key(#[trigger] ids[k]),
        path[i].0 == with_all(base, all.take(ids.len() as int), ids),
        inserts_next(all.skip(ids.len() as int), ids, path[i].1),
    ensures
        path.last().1 matches Step::Finish(Ok(Outcome::Reply(Reply::Utterances(v)))) && {
            &&& shows_all(v@, all)
            &&& ids_of(v@).no_duplicates()
            &&& forall|k: int|
                0 <= k < v@.len() ==> !base.utterances.contains_key(#[trigger] ids_of(v@)[k])
            &&& path.last().0 == with_all(base, all, ids_of(v@))
        },
    decreases path.len() - i,
{
    let j = ids.len() as int;
    let left = all.skip(j);
    assert(path[i].1 is Ask);
    let request = path[i].1->request;
    let task = path[i].1->task;
    let reply = lemma_next(path, i, request, task);
    if left.len() == 0 {
        lemma_committed(path[i].0, reply, path[i + 1].0);
        assert(all.take(j) =~= all);
        assert(ids.skip(0) =~= ids);
        assert(ids.take(0) =~= Seq::<i64>::empty());
        assert(ids_of(Seq::<Utterance<R>>::empty()) =~= ids.take(0));
        lemma_reading(path, i + 1, base, all, ids, Seq::empty());
    } else {
        lemma_inserted(path[i].0, left[0], reply, path[i + 1].0);
        let id = reply->Id_0;
        let more = ids.push(id);
        lemma_with_all(base, all.take(j), ids);
        assert(!ids.contains(id)) by {
            if ids.contains(id) {
                let k = choose|k: int| 0 <= k < ids.len() && ids[k] == id;
                assert(path[i].0.utterances.contains_key(ids[k]));
            }
        }
        assert(!base.utterances.contains_key(id));
        assert(more.no_duplicates());
        assert forall|k: int| 0 <= k < more.len() implies !base.utterances.contains_key(
            #[trigger] more[k],
        ) by {
            if k < j {
                assert(more[k] == ids[k]);
            }
        }
        assert(all.take(j + 1).drop_last() =~= all.take(j));
        assert(more.drop_last() =~= ids);
        assert(all.take(j + 1).last() == left[0]);
        assert(left.drop_first() =~= all.skip(j + 1));
        lemma_inserting(path, i + 1, base, all, more);
    }
}

/// The given utterances stand in the place of those of the segment, in their
/// order, and all other rows are as before.
pub open spec fn replaces<R>(
    before: Tables<R>,
    after: Tables<R>,
    segment_id: i64,
    utterances: Seq<NewUtterance<R>>,
    v: Seq<Utterance<R>>,
) -> bool {
    &&& shows_all(v, utterances)
    &&& ids_of(v).no_duplicates()
    &&& after == with_all(before.without_utterances(segment_id), utterances, ids_of(v))
    &&& after.sessions == before.sessions
    &&& after.segments == before.segments
    &&& after.speakers == before.speakers
    &&& forall|i: int|
        0 <= i < v.len() ==> after.utterances.contains_key(#[trigger] ids_of(v)[i])
            && after.utterances[ids_of(v)[i]] == new_utterance_row(utterances[i])
    &&& forall|k: i64|
        !ids_of(v).contains(k) ==> #[trigger] after.utterances.contains_key(k) == (
        before.utterances.contains_key(k) && before.utterances[k].segment_id != segment_id)
    &&& forall|k: i64|
        before.utterances.contains_key(k) && before.utterances[k].segment_id != segment_id ==> {
            &&& #[trigger] after.utterances.contains_key(k)
            &&& after.utterances[k] == before.utterances[k]
        }
}

/// Replacing the utterances of a segment leaves the given ones in their place,
/// and gives them.
pub proof fn law_replace_utterances<R>(
    path: Seq<Stand<R>>,
    segment_id: i64,
    utterances: Vec<NewUtterance<R>>,
)
    requires
        runs_from(path, replacing(segment_id, utterances)),
    ensures
        path.last().1 matches Step::Finish(Ok(Outcome::Reply(Reply::Utterances(v)))) && replaces(
            path[0].0,
            path.last().0,
            segment_id,
            utterances@,
            v@,
        ),
{
    reveal(Tables::carries_out);
    let before = path[0].0;
    let base = before.without_utterances(segment_id);
    let all = utterances@;
    let begun = lemma_next(
        path,
        0,
        Request::<R>::Begin,
        Task::ReplaceBegun { segment_id, pending: utterances },
    );
    let cleared = lemma_next(
        path,
        1,
        Request::<R>::DeleteUtterances { segment_id },
        Task::ReplaceCleared { pending: utterances },
    );
    let none = Seq::<i64>::empty();
    assert(all.take(0) =~= Seq::<NewUtterance<R>>::empty());
    assert(all.skip(0) =~= all);
    lemma_inserting(path, 2, base, all, none);
    let v = path.last().1->Finish_0->Ok_0->Reply_0->Utterances_0@;
    lemma_replaced(before, segment_id, all, v);
}

/// What is in place once the utterances are stored.
pub proof fn lemma_replaced<R>(
    before: Tables<R>,
    segment_id: i64,
    all: Seq<NewUtterance<R>>,
    v: Seq<Utterance<R>>,
)
    requires
        shows_all(v, all),
        ids_of(v).no_duplicates(),
        forall|k: int|
            0 <= k < v.len() ==> !before.without_utterances(segment_id).utterances.contains_key(
                #[trigger] ids_of(v)[k],
            ),
    ensures
        replaces(
            before,
            with_all(before.without_utterances(segment_id), all, ids_of(v)),
            segment_id,
            all,
            v,
        ),
{
    let base = before.without_utterances(segment_id);
    let after = with_all(base, all, ids_of(v));
    lemma_with_all(base, all, ids_of(v));
    assert forall|k: i64|
        before.utterances.contains_key(k) && before.utterances[k].segment_id != segment_id implies {
        &&& #[trigger] after.utterances.contains_key(k)
        &&& after.utterances[k] == before.utterances[k]
    } by {
        assert(base.utterances.contains_key(k));
        assert(!ids_of(v).contains(k)) by {
            if ids_of(v).contains(k) {
                let i = choose|i: int| 0 <= i < ids_of(v).len() && ids_of(v)[i] == k;
                assert(!base.utterances.contains_key(ids_of(v)[i]));
            }
        }
    }
}

/// The list of the utterances of a segment holds each of them once, in the order
/// of their numbers, and making it changes nothing.
pub proof fn law_utterances_listed<R>(path: Seq<Stand<R>>, segment_id: i64)
    requires
        runs_from(path, listing_utterances(segment_id)),
    ensures
        path.last().0 == path[0].0,
        path.last().1 matches Step::Finish(Ok(Outcome::Reply(Reply::Utterances(v)))) && {
            let tables = path[0].0;
            &&& selects(
                v@.map_values(|u: Utterance<R>| u.id),
                |k: i64|
                    tables.utterances.contains_key(k) && tables.utterances[k].segment_id
                        == segment_id,
                |k: i64| tables.utterances[k].index as int,
            )
            &&& forall|i: int|
                0 <= i < v@.len() ==> utterance_shows(
                    #[trigger] v@[i],
                    tables.utterances[v@[i].id],
                )
        },
{
    reveal(Tables::carries_out);
    let reply = lemma_asked_once(path, Request::<R>::UtterancesOfSegment { segment_id });
}

/// An utterance is read as it is, where there is one of that id.
pub proof fn law_utterance_read<R>(path: Seq<Stand<R>>, id: i64)
    requires
        runs_from(path, reading_utterance(id)),
    ensures
        path.last().0 == path[0].0,
        match path.last().1 {
            Step::Finish(Ok(Outcome::Reply(Reply::Utterance(Some(u))))) => {
                &&& path[0].0.utterances.contains_key(id)
                &&& u.id == id
                &&& utterance_shows(u, path[0].0.utterances[id])
            },
            Step::Finish(Ok(Outcome::Reply(Reply::Utterance(None)))) =>
                !path[0].0.utterances.contains_key(id),
            _ => false,
        },
{
    reveal(Tables::carries_out);
    let reply = lemma_asked_once(path, Request::<R>::UtteranceById { id });
}

// ---------------------------------------------------------------------------
//  Deleting
// ---------------------------------------------------------------------------

/// Deleting a session leaves nothing that belongs to it, and leaves what
/// belongs to the others as it was, but for speakers of the session that spoke
/// elsewhere.
pub proof fn law_delete_session<R>(path: Seq<Stand<R>>, id: i64)
    requires
        runs_from(path, deleting_session(id)),
    ensures
        path.last().1 == (Step::Finish(Ok(Outcome::Reply(Reply::<R>::Done)))),
        ({
            let (before, after) = (path[0].0, path.last().0);
            &&& after == before.without_session(id)
            &&& !after.sessions.contains_key(id)
            &&& forall|k: i64|
                after.segments.contains_key(k) ==> #[trigger] after.segments[k].session_id != id
            &&& forall|k: i64|
                after.speakers.contains_key(k) ==> #[trigger] after.speakers[k].session_id != id
            &&& forall|k: i64|
                after.utterances.contains_key(k) ==> after.session_of(
                    #[trigger] after.utterances[k].segment_id,
                ) != id
            &&& forall|k: i64|
                k != id && #[trigger] before.sessions.contains_key(k) ==> after.sessions.contains_key(
                    k,
                ) && after.sessions[k] == before.sessions[k]
            &&& forall|k: i64|
                #[trigger] before.segments.contains_key(k) && before.segments[k].session_id != id
                    ==> after.segments.contains_key(k) && after.segments[k] == before.segments[k]
            &&& forall|k: i64|
                #[trigger] before.utterances.contains_key(k) && before.session_of(
                    before.utterances[k].segment_id,
                ) != id ==> after.utterances.contains_key(k) && after.utterances[k].text_thai
                    == before.utterances[k].text_thai && after.utterances[k].text_ru
                    == before.utterances[k].text_ru
        }),
{
    reveal(Tables::carries_out);
    let reply = lemma_next(path, 0, Request::<R>::DeleteSession { id }, Task::Answer);
    lemma_over(path, 1);
}

// ---------------------------------------------------------------------------
//  Reading
// ---------------------------------------------------------------------------

/// All utterances of the segment, in the order of their numbers, with their
/// speakers.
pub open spec fn shows_segment<R>(
    tables: Tables<R>,
    segment_id: i64,
    v: Seq<UtteranceWithSpeaker<R>>,
) -> bool {
    &&& selects(
        v.map_values(|u: UtteranceWithSpeaker<R>| u.utterance.id),
        |k: i64|
            tables.utterances.contains_key(k) && tables.utterances[k].segment_id == segment_id,
        |k: i64| tables.utterances[k].index as int,
    )
    &&& forall|i: int| 0 <= i < v.len() ==> tables.spoken_shows(#[trigger] v[i])
}

/// Reading a segment gives all its utterances, and changes nothing.
pub proof fn law_segment_shown<R>(path: Seq<Stand<R>>, id: i64)
    requires
        runs_from(path, showing_segment(id)),
    ensures
        path.last().0 == path[0].0,
        match path.last().1 {
            Step::Finish(Ok(Outcome::Segment(None))) => !path[0].0.segments.contains_key(id),
            Step::Finish(Ok(Outcome::Segment(Some(found)))) => {
                &&& path[0].0.segments.contains_key(id)
                &&& found.segment.id == id
                &&& segment_shows(found.segment, path[0].0.segments[id])
                &&& shows_segment(path[0].0, id, found.utterances@)
            },
            _ => false,
        },
{
    reveal(Tables::carries_out);
    let found = lemma_next(
        path,
        0,
        Request::<R>::SegmentById { id },
        Task::SegmentFirst { id },
    );
    match found->Segment_0 {
        None => {
            lemma_over(path, 1);
        },
        Some(segment) => {
            let spoken = lemma_next(
                path,
                1,
                Request::<R>::SpokenInSegment { segment_id: id },
                Task::SegmentSpoken { segment },
            );
            lemma_over(path, 2);
        },
    }
}

/// `x` stands in `s` at `a`, and `y` behind it at `b`.
spec fn stand<A>(s: Seq<A>, a: int, b: int, x: A, y: A) -> bool {
    0 <= a < b < s.len() && s[a] == x && s[b] == y
}

/// What stands in `part` stands in `s` in the same order.
spec fn keeps_order<A>(s: Seq<A>, part: Seq<A>) -> bool {
    forall|i: int, j: int|
        #![trigger part[i], part[j]]
        0 <= i < j < part.len() ==> in_turn(s, part[i], part[j])
}

/// `y` stands in `s` behind `x`.
spec fn in_turn<A>(s: Seq<A>, x: A, y: A) -> bool {
    exists|a: int, b: int| stand(s, a, b, x, y)
}

/// What a selection holds, in the order in which it stands.
proof fn lemma_filter_order<A>(s: Seq<A>, p: spec_fn(A) -> bool)
    ensures
        forall|i: int|
            0 <= i < s.filter(p).len() ==> p(#[trigger] s.filter(p)[i]) && s.contains(
                s.filter(p)[i],
            ),
        forall|x: A| s.contains(x) && p(x) ==> #[trigger] s.filter(p).contains(x),
        keeps_order(s, s.filter(p)),
    decreases s.len(),
{
    reveal(Seq::filter);
    if s.len() > 0 {
        let rest = s.drop_last();
        let last = s.last();
        lemma_filter_order(rest, p);
        let f = s.filter(p);
        let g = rest.filter(p);
        assert(s[s.len() - 1] == last);
        assert forall|i: int| 0 <= i < f.len() implies p(#[trigger] f[i]) && s.contains(f[i]) by {
            if i < g.len() {
                assert(f[i] == g[i]);
                let k = choose|k: int| 0 <= k < rest.len() && rest[k] == g[i];
                assert(s[k] == g[i]);
            }
        }
        assert forall|x: A| s.contains(x) && p(x) implies #[trigger] f.contains(x) by {
            let k = choose|k: int| 0 <= k < s.len() && s[k] == x;
            if k < rest.len() {
                assert(rest[k] == x);
                assert(rest.contains(x));
                assert(g.contains(x));
                let i = choose|i: int| 0 <= i < g.len() && g[i] == x;
                assert(f[i] == x);
            } else {
                assert(f[f.len() - 1] == x);
            }
        }
        assert(keeps_order(rest, g));
        assert forall|i: int, j: int|
            #![trigger f[i], f[j]]
            0 <= i < j < f.len() implies in_turn(s, f[i], f[j]) by {
            if j < g.len() {
                assert(f[i] == g[i] && f[j] == g[j]);
                assert(in_turn(rest, g[i], g[j]));
                let (a, b) = choose|a: int, b: int| stand(rest, a, b, g[i], g[j]);
                assert(stand(s, a, b, f[i], f[j]));
            } else {
                assert(f[i] == g[i]);
                assert(rest.contains(g[i]));
                let a = choose|a: int| 0 <= a < rest.len() && rest[a] == g[i];
                assert(stand(s, a, s.len() - 1, f[i], f[j]));
            }
        }
        assert(keeps_order(s, f));
    } else {
        assert(s.filter(p).len() == 0);
    }
}

/// Of what is spoken in a session, in its order, the part of one segment is
/// what is spoken in the segment, in its order.
proof fn lemma_part_of_session<R>(
    tables: Tables<R>,
    session_id: i64,
    segment_id: i64,
    spoken: Seq<UtteranceWithSpeaker<R>>,
)
    requires
        tables.segments.contains_key(segment_id),
        tables.session_of(segment_id) == session_id,
        tables.carries_out(
            Request::SpokenInSession { session_id },
            Reply::Spoken(vec_of(spoken)),
            tables,
        ),
        vec_of(spoken)@ == spoken,
    ensures
        shows_segment(tables, segment_id, of_segment(spoken, segment_id)),
{
    reveal(Tables::carries_out);
    let p = |u: UtteranceWithSpeaker<R>| u.utterance.segment_id == segment_id;
    let f = spoken.filter(p);
    assert(f == of_segment(spoken, segment_id));
    lemma_filter_order(spoken, p);
    let id = |u: UtteranceWithSpeaker<R>| u.utterance.id;
    let all = spoken.map_values(id);
    let ids = f.map_values(id);
    let wanted = |k: i64|
        tables.utterances.contains_key(k) && tables.utterances[k].segment_id == segment_id;
    let rank = |k: i64| tables.utterances[k].index as int;
    assert forall|i: int| 0 <= i < f.len() implies tables.spoken_shows(#[trigger] f[i]) by {
        assert(spoken.contains(f[i]));
    }
    assert forall|i: int| 0 <= i < ids.len() implies wanted(#[trigger] ids[i]) by {
        assert(ids[i] == f[i].utterance.id);
        assert(spoken.contains(f[i]));
        let a = choose|a: int| 0 <= a < spoken.len() && spoken[a] == f[i];
        assert(all[a] == ids[i]);
        assert(tables.spoken_shows(f[i]));
    }
    let in_session = |k: i64|
        tables.utterances.contains_key(k) && tables.session_of(tables.utterances[k].segment_id)
            == session_id;
    assert forall|k: i64| #[trigger] wanted(k) implies ids.contains(k) by {
        assert(in_session(k));
        assert(all.contains(k));
        let a = choose|a: int| 0 <= a < all.len() && all[a] == k;
        assert(tables.spoken_shows(spoken[a]));
        assert(spoken.contains(spoken[a]) && p(spoken[a]));
        assert(f.contains(spoken[a]));
        let i = choose|i: int| 0 <= i < f.len() && f[i] == spoken[a];
        assert(ids[i] == k);
    }
    assert forall|i: int, j: int| 0 <= i < j < ids.len() implies ids[i] != ids[j] && rank(ids[i])
        <= rank(ids[j]) by {
        assert(ids[i] == f[i].utterance.id && ids[j] == f[j].utterance.id);
        assert(in_turn(spoken, f[i], f[j]));
        let (a, b) = choose|a: int, b: int| stand(spoken, a, b, f[i], f[j]);
        assert(stand(spoken, a, b, f[i], f[j]));
        assert(all[a] == ids[i] && all[b] == ids[j]);
        assert(wanted(ids[i]) && wanted(ids[j]));
    }
    assert(selects(ids, wanted, rank));
}

spec fn vec_of<A>(s: Seq<A>) -> Vec<A> {
    choose|v: Vec<A>| v@ == s
}

/// All utterances of the session, in the order of the numbers of their segments
/// and of their own, with their speakers.
pub open spec fn shows_session<R>(
    tables: Tables<R>,
    session_id: i64,
    v: Seq<UtteranceWithSpeaker<R>>,
) -> bool {
    &&& selects(
        v.map_values(|u: UtteranceWithSpeaker<R>| u.utterance.id),
        |k: i64|
            tables.utterances.contains_key(k) && tables.session_of(
                tables.utterances[k].segment_id,
            ) == session_id,
        |k: i64|
            tables.segments[tables.utterances[k].segment_id].index * 0x1_0000_0000
                + tables.utterances[k].index,
    )
    &&& forall|i: int| 0 <= i < v.len() ==> tables.spoken_shows(#[trigger] v[i])
}

/// The two texts are what was heard in the utterances and all their
/// translations, one below the other; without a translation there is no second
/// text.
pub open spec fn tells_all<R>(
    detail: SessionDetail<R>,
    spoken: Seq<UtteranceWithSpeaker<R>>,
) -> bool {
    &&& tells_heard(detail, spoken)
    &&& exists|at: Seq<int>| #[trigger]
        tells_translated(detail, spoken, at) && picks(
            at,
            spoken.len() as int,
            |i: int| spoken[i].utterance.text_ru is Some,
        )
}

/// Reading a session gives all its segments in the order of their numbers,
/// each with all its utterances in the order of theirs, all its speakers and
/// all its text, and changes nothing.
pub proof fn law_session_shown<R>(path: Seq<Stand<R>>, id: i64)
    requires
        runs_from(path, showing_session(id)),
    ensures
        path.last().0 == path[0].0,
        match path.last().1 {
            Step::Finish(Ok(Outcome::Session(None))) => !path[0].0.sessions.contains_key(id),
            Step::Finish(Ok(Outcome::Session(Some(detail)))) => {
                let tables = path[0].0;
                &&& tables.sessions.contains_key(id)
                &&& detail.session.id == id
                &&& session_shows(detail.session, tables.sessions[id])
                &&& selects(
                    detail.segments@.map_values(|s: SegmentWithUtterances<R>| s.segment.id),
                    |k: i64|
                        tables.segments.contains_key(k) && tables.segments[k].session_id == id,
                    |k: i64| tables.segments[k].index as int,
                )
                &&& forall|i: int|
                    0 <= i < detail.segments@.len() ==> {
                        let s = #[trigger] detail.segments@[i];
                        &&& segment_shows(s.segment, tables.segments[s.segment.id])
                        &&& shows_segment(tables, s.segment.id, s.utterances@)
                    }
                &&& selects(
                    detail.speakers@.map_values(|s: Speaker| s.id),
                    |k: i64|
                        tables.speakers.contains_key(k) && tables.speakers[k].session_id == id,
                    |k: i64| k as int,
                )
                &&& forall|i: int|
                    0 <= i < detail.speakers@.len() ==> speaker_shows(
                        #[trigger] detail.speakers@[i],
                        tables.speakers[detail.speakers@[i].id],
                    )
                &&& exists|spoken: Seq<UtteranceWithSpeaker<R>>| #[trigger]
                    shows_session(tables, id, spoken) && tells_all(detail, spoken)
            },
            _ => false,
        },
{
    reveal(Tables::carries_out);
    let tables = path[0].0;
    let found = lemma_next(
        path,
        0,
        Request::<R>::SessionById { id },
        Task::DetailFirst { id },
    );
    match found->Session_0 {
        None => {
            lemma_over(path, 1);
        },
        Some(session) => {
            let r1 = lemma_next(
                path,
                1,
                Request::<R>::SegmentsOfSession { session_id: id },
                Task::DetailSegments { id, session },
            );
            let segments = r1->Segments_0;
            let r2 = lemma_next(
                path,
                2,
                Request::<R>::SpeakersOfSession { session_id: id },
                Task::DetailSpeakers { id, session, segments },
            );
            let speakers = r2->Speakers_0;
            let r3 = lemma_next(
                path,
                3,
                Request::<R>::SpokenInSession { session_id: id },
                Task::DetailSpoken { session, segments, speakers },
            );
            let spoken = r3->Spoken_0;
            lemma_over(path, 4);
            let detail = path.last().1->Finish_0->Ok_0->Session_0->Some_0;
            assert(describes(detail, session, segments@, speakers@, spoken@));
            law_whole_text_shown(detail, session, segments@, speakers@, spoken@);
            assert(shows_session(tables, id, spoken@) && tells_all(detail, spoken@));
            let ids = segments@.map_values(|s: Segment| s.id);
            assert(detail.segments@.map_values(|s: SegmentWithUtterances<R>| s.segment.id) =~= ids);
            assert forall|i: int| 0 <= i < detail.segments@.len() implies {
                let s = #[trigger] detail.segments@[i];
                &&& segment_shows(s.segment, tables.segments[s.segment.id])
                &&& shows_segment(tables, s.segment.id, s.utterances@)
            } by {
                let s = detail.segments@[i];
                assert(s.segment == segments@[i]);
                assert(ids[i] == s.segment.id);
                assert(!listed_before(segments@, i, s.segment.id)) by {
                    if listed_before(segments@, i, s.segment.id) {
                        let j = choose|j: int|
                            0 <= j < i && (#[trigger] segments@[j]).id == s.segment.id;
                        assert(ids[j] == ids[i]);
                    }
                }
                assert(vec_of(spoken@)@ == spoken@);
                lemma_part_of_session(tables, id, s.segment.id, spoken@);
            }
        },
    }
}

} // verus!
