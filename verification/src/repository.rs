//! Operations on the database, each as a conversation: what to ask first, and,
//! given the answer, what to ask next or what the operation comes to.

use vstd::prelude::*;

use crate::detail::{assemble, describes};
use crate::model::{
    AssignSpeaker, NewSegment, NewSession, NewSpeaker, NewUtterance, Segment,
    SegmentWithUtterances, Session, SessionDetail, Speaker, TranscriptionStatus,
    UpdateTranslation, Utterance,
};
use crate::store::{Missing, Reply, Request, StoreError};

verus! {

/// What an operation comes to.
#[derive(Debug)]
pub enum Outcome<R> {
    /// What the last answer says.
    Reply(Reply<R>),
    /// A segment with its utterances.
    Segment(Option<SegmentWithUtterances<R>>),
    /// A session with all that belongs to it.
    Session(Option<SessionDetail<R>>),
}

/// What is done with the next answer.
#[derive(Debug)]
pub enum Task<R> {
    /// The answer is the outcome.
    Answer,
    /// Read the session of this name.
    ReadSession { slug: String },
    /// If there is no such session, create it.
    CreateIfAbsent { slug: String, now: i64 },
    /// Read the segment that was created.
    ReadSegment,
    /// Read the speaker that was created.
    ReadSpeaker,
    /// Read the utterance that was created.
    ReadUtterance,
    /// Read the utterance that was changed.
    ReadChanged { id: i64, change: Missing },
    /// The answer is the outcome, but it must not be empty.
    MustExist { what: Missing },
    /// Read what is spoken in the segment, if there is one.
    SegmentFirst { id: i64 },
    /// Put the segment together.
    SegmentSpoken { segment: Segment },
    /// Read the segments of the session, if there is one.
    DetailFirst { id: i64 },
    /// Read the speakers of the session.
    DetailSegments { id: i64, session: Session },
    /// Read what is spoken in the session.
    DetailSpeakers { id: i64, session: Session, segments: Vec<Segment> },
    /// Put the session together.
    DetailSpoken { session: Session, segments: Vec<Segment>, speakers: Vec<Speaker> },
    /// Delete what the segment holds.
    ReplaceBegun { segment_id: i64, pending: Vec<NewUtterance<R>> },
    /// Insert the first of the pending utterances.
    ReplaceCleared { pending: Vec<NewUtterance<R>> },
    /// Insert the next of the pending utterances.
    ReplaceInserted { pending: Vec<NewUtterance<R>>, ids: Vec<i64> },
    /// Read the inserted utterances.
    ReplaceCommitted { ids: Vec<i64> },
    /// Read the next of the inserted utterances.
    ReplaceRead { ids: Vec<i64>, found: Vec<Utterance<R>> },
}

/// Where an operation stands.
#[derive(Debug)]
pub enum Step<R> {
    /// Ask this, and go on with the answer as the task says.
    Ask { request: Request<R>, task: Task<R> },
    /// The operation is over.
    Finish(Result<Outcome<R>, StoreError>),
}

// ---------------------------------------------------------------------------
//  Going on with an answer
// ---------------------------------------------------------------------------

/// Whether the answer shows a row.
pub open spec fn shows_row<R>(reply: Reply<R>) -> Option<bool> {
    match reply {
        Reply::Session(found) => Some(found is Some),
        Reply::Segment(found) => Some(found is Some),
        Reply::Speaker(found) => Some(found is Some),
        Reply::Utterance(found) => Some(found is Some),
        _ => None,
    }
}

/// The step that inserts the first of the pending utterances, or commits when
/// there is none.
pub open spec fn inserts_next<R>(
    pending: Seq<NewUtterance<R>>,
    ids: Seq<i64>,
    step: Step<R>,
) -> bool {
    match step {
        Step::Ask { request: Request::Commit, task: Task::ReplaceCommitted { ids: kept } } =>
            pending.len() == 0 && kept@ == ids,
        Step::Ask {
            request: Request::InsertUtterance { utterance },
            task: Task::ReplaceInserted { pending: left, ids: kept },
        } => pending.len() > 0 && utterance == pending[0] && left@ == pending.drop_first()
            && kept@ == ids,
        _ => false,
    }
}

/// The step that reads the first of the utterances, or ends with those found
/// when there is none.
pub open spec fn reads_next<R>(ids: Seq<i64>, found: Seq<Utterance<R>>, step: Step<R>) -> bool {
    match step {
        Step::Finish(Ok(Outcome::Reply(Reply::Utterances(v)))) => ids.len() == 0 && v@ == found,
        Step::Ask {
            request: Request::UtteranceById { id },
            task: Task::ReplaceRead { ids: left, found: kept },
        } => ids.len() > 0 && id == ids[0] && left@ == ids.drop_first() && kept@ == found,
        _ => false,
    }
}

/// The found utterances once one more answer has come.
pub open spec fn with_found<R>(found: Seq<Utterance<R>>, one: Option<Utterance<R>>) -> Seq<
    Utterance<R>,
> {
    match one {
        Some(u) => found.push(u),
        None => found,
    }
}

impl<R> Task<R> {
    /// An answer that is no error leads from here to `step`. An answer of
    /// another kind than was asked for ends the operation with an error.
    pub open spec fn answered(self, reply: Reply<R>, step: Step<R>) -> bool {
        match (self, reply) {
            (Task::Answer, reply) => step == Step::Finish(
                Ok::<Outcome<R>, StoreError>(Outcome::Reply(reply)),
            ),
            (Task::ReadSession { slug }, Reply::Done) => step == (Step::Ask {
                request: Request::<R>::SessionBySlug { slug },
                task: Task::MustExist { what: Missing::Session },
            }),
            (Task::CreateIfAbsent { slug, now }, Reply::Session(found)) => if found is Some {
                step == Step::Finish(
                    Ok::<Outcome<R>, StoreError>(Outcome::Reply(Reply::Session(found))),
                )
            } else {
                step == (Step::Ask {
                    request: Request::<R>::InsertSession { slug, created_at: now, note: None },
                    task: Task::ReadSession { slug },
                })
            },
            (Task::ReadSegment, Reply::Id(id)) => step == (Step::Ask {
                request: Request::<R>::SegmentById { id },
                task: Task::MustExist { what: Missing::Segment },
            }),
            (Task::ReadSpeaker, Reply::Id(id)) => step == (Step::Ask {
                request: Request::<R>::SpeakerById { id },
                task: Task::MustExist { what: Missing::Speaker },
            }),
            (Task::ReadUtterance, Reply::Id(id)) => step == (Step::Ask {
                request: Request::<R>::UtteranceById { id },
                task: Task::MustExist { what: Missing::Utterance },
            }),
            (Task::ReadChanged { id, change }, Reply::Done) => step == (Step::Ask {
                request: Request::<R>::UtteranceById { id },
                task: Task::MustExist { what: change },
            }),
            (Task::MustExist { what }, reply) => match shows_row(reply) {
                Some(true) => step == Step::Finish(
                    Ok::<Outcome<R>, StoreError>(Outcome::Reply(reply)),
                ),
                Some(false) => step == Step::Finish(
                    Err::<Outcome<R>, StoreError>(StoreError::Missing(what)),
                ),
                None => step == Step::Finish(
                    Err::<Outcome<R>, StoreError>(StoreError::Unexpected),
                ),
            },
            (Task::SegmentFirst { id }, Reply::Segment(found)) => match found {
                None => step == Step::Finish(Ok::<Outcome<R>, StoreError>(Outcome::Segment(None))),
                Some(segment) => step == (Step::Ask {
                    request: Request::<R>::SpokenInSegment { segment_id: id },
                    task: Task::SegmentSpoken { segment },
                }),
            },
            (Task::SegmentSpoken { segment }, Reply::Spoken(utterances)) => step == Step::Finish(
                Ok::<Outcome<R>, StoreError>(
                    Outcome::Segment(Some(SegmentWithUtterances { segment, utterances })),
                ),
            ),
            (Task::DetailFirst { id }, Reply::Session(found)) => match found {
                None => step == Step::Finish(Ok::<Outcome<R>, StoreError>(Outcome::Session(None))),
                Some(session) => step == (Step::Ask {
                    request: Request::<R>::SegmentsOfSession { session_id: id },
                    task: Task::DetailSegments { id, session },
                }),
            },
            (Task::DetailSegments { id, session }, Reply::Segments(segments)) => step == (
            Step::Ask {
                request: Request::<R>::SpeakersOfSession { session_id: id },
                task: Task::DetailSpeakers { id, session, segments },
            }),
            (Task::DetailSpeakers { id, session, segments }, Reply::Speakers(speakers)) => step == (
            Step::Ask {
                request: Request::<R>::SpokenInSession { session_id: id },
                task: Task::DetailSpoken { session, segments, speakers },
            }),
            (Task::DetailSpoken { session, segments, speakers }, Reply::Spoken(spoken)) => {
                &&& step matches Step::Finish(Ok(Outcome::Session(Some(detail))))
                &&& describes(detail, session, segments@, speakers@, spoken@)
            },
            (Task::ReplaceBegun { segment_id, pending }, Reply::Done) => step == (Step::Ask {
                request: Request::<R>::DeleteUtterances { segment_id },
                task: Task::ReplaceCleared { pending },
            }),
            (Task::ReplaceCleared { pending }, Reply::Done) => inserts_next(
                pending@,
                Seq::empty(),
                step,
            ),
            (Task::ReplaceInserted { pending, ids }, Reply::Id(id)) => inserts_next(
                pending@,
                ids@.push(id),
                step,
            ),
            (Task::ReplaceCommitted { ids }, Reply::Done) => reads_next(ids@, Seq::empty(), step),
            (Task::ReplaceRead { ids, found }, Reply::Utterance(one)) => reads_next(
                ids@,
                with_found(found@, one),
                step,
            ),
            _ => step == Step::Finish(Err::<Outcome<R>, StoreError>(StoreError::Unexpected)),
        }
    }

    /// The answer leads from here to `step`; an error ends the operation.
    pub open spec fn leads(self, reply: Result<Reply<R>, StoreError>, step: Step<R>) -> bool {
        match reply {
            Ok(reply) => self.answered(reply, step),
            Err(e) => step == Step::Finish(Err::<Outcome<R>, StoreError>(e)),
        }
    }

    /// Goes on with the answer to what was asked.
    pub fn resume(self, reply: Result<Reply<R>, StoreError>) -> (step: Step<R>)
        ensures
            self.leads(reply, step),
    {
        let reply = match reply {
            Ok(reply) => reply,
            Err(e) => {
                return Step::Finish(Err(e));
            },
        };
        match (self, reply) {
            (Task::Answer, reply) => Step::Finish(Ok(Outcome::Reply(reply))),
            (Task::ReadSession { slug }, Reply::Done) => Step::Ask {
                request: Request::SessionBySlug { slug },
                task: Task::MustExist { what: Missing::Session },
            },
            (Task::CreateIfAbsent { slug, now }, Reply::Session(found)) => match found {
                Some(session) => Step::Finish(Ok(Outcome::Reply(Reply::Session(Some(session))))),
                None => Step::Ask {
                    request: Request::InsertSession {
                        slug: slug.clone(),
                        created_at: now,
                        note: None,
                    },
                    task: Task::ReadSession { slug },
                },
            },
            (Task::ReadSegment, Reply::Id(id)) => Step::Ask {
                request: Request::SegmentById { id },
                task: Task::MustExist { what: Missing::Segment },
            },
            (Task::ReadSpeaker, Reply::Id(id)) => Step::Ask {
                request: Request::SpeakerById { id },
                task: Task::MustExist { what: Missing::Speaker },
            },
            (Task::ReadUtterance, Reply::Id(id)) => Step::Ask {
                request: Request::UtteranceById { id },
                task: Task::MustExist { what: Missing::Utterance },
            },
            (Task::ReadChanged { id, change }, Reply::Done) => Step::Ask {
                request: Request::UtteranceById { id },
                task: Task::MustExist { what: change },
            },
            (Task::MustExist { what }, reply) => must_exist(what, reply),
            (Task::SegmentFirst { id }, Reply::Segment(found)) => match found {
                None => Step::Finish(Ok(Outcome::Segment(None))),
                Some(segment) => Step::Ask {
                    request: Request::SpokenInSegment { segment_id: id },
                    task: Task::SegmentSpoken { segment },
                },
            },
            (Task::SegmentSpoken { segment }, Reply::Spoken(utterances)) => Step::Finish(
                Ok(Outcome::Segment(Some(SegmentWithUtterances { segment, utterances }))),
            ),
            (Task::DetailFirst { id }, Reply::Session(found)) => match found {
                None => Step::Finish(Ok(Outcome::Session(None))),
                Some(session) => Step::Ask {
                    request: Request::SegmentsOfSession { session_id: id },
                    task: Task::DetailSegments { id, session },
                },
            },
            (Task::DetailSegments { id, session }, Reply::Segments(segments)) => Step::Ask {
                request: Request::SpeakersOfSession { session_id: id },
                task: Task::DetailSpeakers { id, session, segments },
            },
            (Task::DetailSpeakers { id, session, segments }, Reply::Speakers(speakers)) =>
                Step::Ask {
                request: Request::SpokenInSession { session_id: id },
                task: Task::DetailSpoken { session, segments, speakers },
            },
            (Task::DetailSpoken { session, segments, speakers }, Reply::Spoken(spoken)) =>
                Step::Finish(
                Ok(Outcome::Session(Some(assemble(session, segments, speakers, spoken)))),
            ),
            (Task::ReplaceBegun { segment_id, pending }, Reply::Done) => Step::Ask {
                request: Request::DeleteUtterances { segment_id },
                task: Task::ReplaceCleared { pending },
            },
            (Task::ReplaceCleared { pending }, Reply::Done) => insert_next(pending, Vec::new()),
            (Task::ReplaceInserted { pending, ids }, Reply::Id(id)) => {
                let mut ids = ids;
                ids.push(id);
                insert_next(pending, ids)
            },
            (Task::ReplaceCommitted { ids }, Reply::Done) => read_next(ids, Vec::new()),
            (Task::ReplaceRead { ids, found }, Reply::Utterance(one)) => {
                let mut found = found;
                if let Some(u) = one {
                    found.push(u);
                }
                read_next(ids, found)
            },
            _ => Step::Finish(Err(StoreError::Unexpected)),
        }
    }
}

fn must_exist<R>(what: Missing, reply: Reply<R>) -> (step: Step<R>)
    ensures
        (Task::MustExist { what }).answered(reply, step),
{
    let shown = match &reply {
        Reply::Session(found) => found.is_some(),
        Reply::Segment(found) => found.is_some(),
        Reply::Speaker(found) => found.is_some(),
        Reply::Utterance(found) => found.is_some(),
        _ => {
            return Step::Finish(Err(StoreError::Unexpected));
        },
    };
    if shown {
        Step::Finish(Ok(Outcome::Reply(reply)))
    } else {
        Step::Finish(Err(StoreError::Missing(what)))
    }
}

fn insert_next<R>(pending: Vec<NewUtterance<R>>, ids: Vec<i64>) -> (step: Step<R>)
    ensures
        inserts_next(pending@, ids@, step),
{
    let mut pending = pending;
    if pending.len() == 0 {
        Step::Ask { request: Request::Commit, task: Task::ReplaceCommitted { ids } }
    } else {
        let ghost all = pending@;
        let utterance = pending.remove(0);
        assert(pending@ =~= all.drop_first());
        Step::Ask {
            request: Request::InsertUtterance { utterance },
            task: Task::ReplaceInserted { pending, ids },
        }
    }
}

fn read_next<R>(ids: Vec<i64>, found: Vec<Utterance<R>>) -> (step: Step<R>)
    ensures
        reads_next(ids@, found@, step),
{
    let mut ids = ids;
    if ids.len() == 0 {
        Step::Finish(Ok(Outcome::Reply(Reply::Utterances(found))))
    } else {
        let ghost all = ids@;
        let id: i64 = ids.remove(0);
        assert(ids@ =~= all.drop_first());
        Step::Ask { request: Request::UtteranceById { id }, task: Task::ReplaceRead { ids, found } }
    }
}

// ---------------------------------------------------------------------------
//  First steps
// ---------------------------------------------------------------------------

/// Creates the tables where they do not exist yet.
pub open spec fn migrating<R>() -> Step<R> {
    Step::Ask { request: Request::<R>::Migrate, task: Task::Answer }
}

/// Creates a session, or finds the one of that name.
pub open spec fn creating_session<R>(data: NewSession, now: i64) -> Step<R> {
    Step::Ask {
        request: Request::<R>::InsertSession { slug: data.slug, created_at: now, note: data.note },
        task: Task::ReadSession { slug: data.slug },
    }
}

/// Reads a session.
pub open spec fn reading_session<R>(id: i64) -> Step<R> {
    Step::Ask { request: Request::<R>::SessionById { id }, task: Task::Answer }
}

/// Reads the session of that name.
pub open spec fn finding_session<R>(slug: String) -> Step<R> {
    Step::Ask { request: Request::<R>::SessionBySlug { slug }, task: Task::Answer }
}

/// Lists the sessions.
pub open spec fn listing_sessions<R>() -> Step<R> {
    Step::Ask { request: Request::<R>::Sessions, task: Task::Answer }
}

/// Sets or removes the note of a session.
pub open spec fn setting_note<R>(id: i64, note: Option<String>) -> Step<R> {
    Step::Ask { request: Request::<R>::SetSessionNote { id, note }, task: Task::Answer }
}

/// Deletes a session.
pub open spec fn deleting_session<R>(id: i64) -> Step<R> {
    Step::Ask { request: Request::<R>::DeleteSession { id }, task: Task::Answer }
}

/// Lists the sessions with what they hold counted.
pub open spec fn listing_summaries<R>() -> Step<R> {
    Step::Ask { request: Request::<R>::Summaries, task: Task::Answer }
}

/// Finds the session of that name, or creates it.
pub open spec fn getting_session<R>(slug: String, now: i64) -> Step<R> {
    Step::Ask {
        request: Request::<R>::SessionBySlug { slug },
        task: Task::CreateIfAbsent { slug, now },
    }
}

/// Creates a segment.
pub open spec fn creating_segment<R>(data: NewSegment) -> Step<R> {
    Step::Ask { request: Request::<R>::InsertSegment { segment: data }, task: Task::ReadSegment }
}

/// Reads a segment.
pub open spec fn reading_segment<R>(id: i64) -> Step<R> {
    Step::Ask { request: Request::<R>::SegmentById { id }, task: Task::Answer }
}

/// Reads the segment of that file.
pub open spec fn finding_segment<R>(filename: String) -> Step<R> {
    Step::Ask { request: Request::<R>::SegmentByFilename { filename }, task: Task::Answer }
}

/// Lists the segments of a session.
pub open spec fn listing_segments<R>(session_id: i64) -> Step<R> {
    Step::Ask { request: Request::<R>::SegmentsOfSession { session_id }, task: Task::Answer }
}

/// Lists the segments that wait for transcription.
pub open spec fn listing_pending<R>() -> Step<R> {
    Step::Ask { request: Request::<R>::PendingSegments, task: Task::Answer }
}

/// Sets how far the transcription of a segment has come.
pub open spec fn setting_status<R>(
    id: i64,
    status: TranscriptionStatus,
    error_message: Option<String>,
) -> Step<R> {
    Step::Ask {
        request: Request::<R>::SetSegmentStatus { id, status, error_message },
        task: Task::Answer,
    }
}

/// Creates a speaker.
pub open spec fn creating_speaker<R>(data: NewSpeaker) -> Step<R> {
    Step::Ask { request: Request::<R>::InsertSpeaker { speaker: data }, task: Task::ReadSpeaker }
}

/// Reads a speaker.
pub open spec fn reading_speaker<R>(id: i64) -> Step<R> {
    Step::Ask { request: Request::<R>::SpeakerById { id }, task: Task::Answer }
}

/// Lists the speakers of a session.
pub open spec fn listing_speakers<R>(session_id: i64) -> Step<R> {
    Step::Ask { request: Request::<R>::SpeakersOfSession { session_id }, task: Task::Answer }
}

/// Sets the label of a speaker.
pub open spec fn setting_label<R>(id: i64, label: String) -> Step<R> {
    Step::Ask { request: Request::<R>::SetSpeakerLabel { id, label }, task: Task::Answer }
}

/// Sets or removes the colour of a speaker.
pub open spec fn setting_colour<R>(id: i64, color: Option<String>) -> Step<R> {
    Step::Ask { request: Request::<R>::SetSpeakerColor { id, color }, task: Task::Answer }
}

/// Deletes a speaker.
pub open spec fn deleting_speaker<R>(id: i64) -> Step<R> {
    Step::Ask { request: Request::<R>::DeleteSpeaker { id }, task: Task::Answer }
}

/// Creates an utterance.
pub open spec fn creating_utterance<R>(data: NewUtterance<R>) -> Step<R> {
    Step::Ask {
        request: Request::<R>::InsertUtterance { utterance: data },
        task: Task::<R>::ReadUtterance,
    }
}

/// Puts utterances in the place of those of a segment.
pub open spec fn replacing<R>(segment_id: i64, utterances: Vec<NewUtterance<R>>) -> Step<R> {
    Step::Ask {
        request: Request::<R>::Begin,
        task: Task::ReplaceBegun { segment_id, pending: utterances },
    }
}

/// Reads an utterance.
pub open spec fn reading_utterance<R>(id: i64) -> Step<R> {
    Step::Ask { request: Request::<R>::UtteranceById { id }, task: Task::Answer }
}

/// Lists the utterances of a segment.
pub open spec fn listing_utterances<R>(segment_id: i64) -> Step<R> {
    Step::Ask { request: Request::<R>::UtterancesOfSegment { segment_id }, task: Task::Answer }
}

/// Sets or removes the translation of an utterance.
pub open spec fn translating<R>(id: i64, text_ru: Option<String>) -> Step<R> {
    Step::Ask {
        request: Request::<R>::SetTranslation { id, text_ru },
        task: Task::ReadChanged { id, change: Missing::Translated },
    }
}

/// Sets or removes the speaker of an utterance.
pub open spec fn assigning<R>(id: i64, speaker_id: Option<i64>) -> Step<R> {
    Step::Ask {
        request: Request::<R>::SetUtteranceSpeaker { id, speaker_id },
        task: Task::ReadChanged { id, change: Missing::Assigned },
    }
}

/// Puts a segment together.
pub open spec fn showing_segment<R>(id: i64) -> Step<R> {
    Step::Ask { request: Request::<R>::SegmentById { id }, task: Task::SegmentFirst { id } }
}

/// Puts a session together.
pub open spec fn showing_session<R>(id: i64) -> Step<R> {
    Step::Ask { request: Request::<R>::SessionById { id }, task: Task::DetailFirst { id } }
}

// ---------------------------------------------------------------------------
//  The operations
// ---------------------------------------------------------------------------

/// The operations on the database.
#[derive(Debug, Clone, Copy)]
pub struct Repository {}

/// The operation is the one request, and its answer is the outcome.
pub open spec fn asks_only<R>(step: Step<R>, request: Request<R>) -> bool {
    step == (Step::Ask { request, task: Task::Answer })
}

impl Repository {
    pub fn new() -> (r: Repository)
        ensures
            r == (Repository {  }),
    {
        Repository {  }
    }

    /// Creates the tables where they do not exist yet.
    pub fn migrate<R>(&self) -> (step: Step<R>)
        ensures
            step == migrating::<R>(),
    {
        Step::Ask { request: Request::Migrate, task: Task::Answer }
    }

    // ---- sessions ----

    /// Creates a session; if one of that name exists, that one is the outcome.
    pub fn create_session<R>(&self, data: &NewSession, now: i64) -> (step: Step<R>)
        ensures
            step == creating_session::<R>(*data, now),
    {
        Step::Ask {
            request: Request::InsertSession {
                slug: data.slug.clone(),
                created_at: now,
                note: clone_opt(&data.note),
            },
            task: Task::ReadSession { slug: data.slug.clone() },
        }
    }

    pub fn get_session<R>(&self, id: i64) -> (step: Step<R>)
        ensures
            step == reading_session::<R>(id),
    {
        Step::Ask { request: Request::SessionById { id }, task: Task::Answer }
    }

    pub fn get_session_by_slug<R>(&self, slug: &String) -> (step: Step<R>)
        ensures
            step == finding_session::<R>(*slug),
    {
        Step::Ask { request: Request::SessionBySlug { slug: slug.clone() }, task: Task::Answer }
    }

    /// All sessions, the newest first.
    pub fn list_sessions<R>(&self) -> (step: Step<R>)
        ensures
            step == listing_sessions::<R>(),
    {
        Step::Ask { request: Request::Sessions, task: Task::Answer }
    }

    /// Sets or removes the note of the operator.
    pub fn update_session_note<R>(&self, id: i64, note: Option<String>) -> (step: Step<R>)
        ensures
            step == setting_note::<R>(id, note),
    {
        Step::Ask { request: Request::SetSessionNote { id, note }, task: Task::Answer }
    }

    /// Deletes a session and all that belongs to it.
    pub fn delete_session<R>(&self, id: i64) -> (step: Step<R>)
        ensures
            step == deleting_session::<R>(id),
    {
        Step::Ask { request: Request::DeleteSession { id }, task: Task::Answer }
    }

    /// All sessions with what they hold counted, the newest first.
    pub fn list_sessions_summary<R>(&self) -> (step: Step<R>)
        ensures
            step == listing_summaries::<R>(),
    {
        Step::Ask { request: Request::Summaries, task: Task::Answer }
    }

    /// The session of that name; it is created where there is none.
    pub fn get_or_create_session<R>(&self, slug: &String, now: i64) -> (step: Step<R>)
        ensures
            step == getting_session::<R>(*slug, now),
    {
        Step::Ask {
            request: Request::SessionBySlug { slug: slug.clone() },
            task: Task::CreateIfAbsent { slug: slug.clone(), now },
        }
    }

    // ---- segments ----

    /// Creates a segment whose transcription is pending.
    pub fn create_segment<R>(&self, data: &NewSegment) -> (step: Step<R>)
        ensures
            step == creating_segment::<R>(*data),
    {
        let segment = NewSegment {
            session_id: data.session_id,
            index: data.index,
            filename: data.filename.clone(),
            size_bytes: data.size_bytes,
            recorded_at: data.recorded_at,
        };
        Step::Ask { request: Request::InsertSegment { segment }, task: Task::ReadSegment }
    }

    pub fn get_segment<R>(&self, id: i64) -> (step: Step<R>)
        ensures
            step == reading_segment::<R>(id),
    {
        Step::Ask { request: Request::SegmentById { id }, task: Task::Answer }
    }

    pub fn get_segment_by_filename<R>(&self, filename: &String) -> (step: Step<R>)
        ensures
            step == finding_segment::<R>(*filename),
    {
        Step::Ask {
            request: Request::SegmentByFilename { filename: filename.clone() },
            task: Task::Answer,
        }
    }

    /// The segments of a session, in the order of their numbers.
    pub fn list_segments_for_session<R>(&self, session_id: i64) -> (step: Step<R>)
        ensures
            step == listing_segments::<R>(session_id),
    {
        Step::Ask { request: Request::SegmentsOfSession { session_id }, task: Task::Answer }
    }

    /// The segments that wait for transcription, the oldest first.
    pub fn list_pending_segments<R>(&self) -> (step: Step<R>)
        ensures
            step == listing_pending::<R>(),
    {
        Step::Ask { request: Request::PendingSegments, task: Task::Answer }
    }

    /// Sets how far the transcription of a segment has come, and the message
    /// of its error.
    pub fn set_transcription_status<R>(
        &self,
        segment_id: i64,
        status: TranscriptionStatus,
        error_message: Option<String>,
    ) -> (step: Step<R>)
        ensures
            step == setting_status::<R>(segment_id, status, error_message),
    {
        Step::Ask {
            request: Request::SetSegmentStatus { id: segment_id, status, error_message },
            task: Task::Answer,
        }
    }

    // ---- speakers ----

    pub fn create_speaker<R>(&self, data: &NewSpeaker) -> (step: Step<R>)
        ensures
            step == creating_speaker::<R>(*data),
    {
        let speaker = NewSpeaker {
            session_id: data.session_id,
            label: data.label.clone(),
            color: clone_opt(&data.color),
        };
        Step::Ask { request: Request::InsertSpeaker { speaker }, task: Task::ReadSpeaker }
    }

    pub fn get_speaker<R>(&self, id: i64) -> (step: Step<R>)
        ensures
            step == reading_speaker::<R>(id),
    {
        Step::Ask { request: Request::SpeakerById { id }, task: Task::Answer }
    }

    /// The speakers of a session, in the order of their creation.
    pub fn list_speakers_for_session<R>(&self, session_id: i64) -> (step: Step<R>)
        ensures
            step == listing_speakers::<R>(session_id),
    {
        Step::Ask { request: Request::SpeakersOfSession { session_id }, task: Task::Answer }
    }

    pub fn update_speaker_label<R>(&self, id: i64, label: String) -> (step: Step<R>)
        ensures
            step == setting_label::<R>(id, label),
    {
        Step::Ask { request: Request::SetSpeakerLabel { id, label }, task: Task::Answer }
    }

    pub fn update_speaker_color<R>(&self, id: i64, color: Option<String>) -> (step: Step<R>)
        ensures
            step == setting_colour::<R>(id, color),
    {
        Step::Ask { request: Request::SetSpeakerColor { id, color }, task: Task::Answer }
    }

    /// Deletes a speaker; the utterances of the speaker have none afterwards.
    pub fn delete_speaker<R>(&self, id: i64) -> (step: Step<R>)
        ensures
            step == deleting_speaker::<R>(id),
    {
        Step::Ask { request: Request::DeleteSpeaker { id }, task: Task::Answer }
    }

    // ---- utterances ----

    /// Inserts one utterance.
    pub fn create_utterance<R>(&self, data: NewUtterance<R>) -> (step: Step<R>)
        ensures
            step == creating_utterance::<R>(data),
    {
        Step::Ask {
            request: Request::InsertUtterance { utterance: data },
            task: Task::ReadUtterance,
        }
    }

    /// Puts the given utterances in the place of those of the segment, in one
    /// transaction.
    pub fn replace_utterances_for_segment<R>(
        &self,
        segment_id: i64,
        utterances: Vec<NewUtterance<R>>,
    ) -> (step: Step<R>)
        ensures
            step == replacing::<R>(segment_id, utterances),
    {
        Step::Ask {
            request: Request::Begin,
            task: Task::ReplaceBegun { segment_id, pending: utterances },
        }
    }

    pub fn get_utterance<R>(&self, id: i64) -> (step: Step<R>)
        ensures
            step == reading_utterance::<R>(id),
    {
        Step::Ask { request: Request::UtteranceById { id }, task: Task::Answer }
    }

    /// The utterances of a segment, in the order of their numbers.
    pub fn list_utterances_for_segment<R>(&self, segment_id: i64) -> (step: Step<R>)
        ensures
            step == listing_utterances::<R>(segment_id),
    {
        Step::Ask { request: Request::UtterancesOfSegment { segment_id }, task: Task::Answer }
    }

    /// Sets or removes the translation of an utterance.
    pub fn update_translation<R>(&self, utterance_id: i64, data: &UpdateTranslation) -> (step: Step<
        R,
    >)
        ensures
            step == translating::<R>(utterance_id, data.text_ru),
    {
        Step::Ask {
            request: Request::SetTranslation {
                id: utterance_id,
                text_ru: clone_opt(&data.text_ru),
            },
            task: Task::ReadChanged { id: utterance_id, change: Missing::Translated },
        }
    }

    /// Sets or removes the speaker of an utterance.
    pub fn assign_speaker<R>(&self, utterance_id: i64, data: &AssignSpeaker) -> (step: Step<R>)
        ensures
            step == assigning::<R>(utterance_id, data.speaker_id),
    {
        Step::Ask {
            request: Request::SetUtteranceSpeaker {
                id: utterance_id,
                speaker_id: data.speaker_id,
            },
            task: Task::ReadChanged { id: utterance_id, change: Missing::Assigned },
        }
    }

    // ---- put together ----

    /// A segment with its utterances and their speakers.
    pub fn get_segment_with_utterances<R>(&self, segment_id: i64) -> (step: Step<R>)
        ensures
            step == showing_segment::<R>(segment_id),
    {
        Step::Ask {
            request: Request::SegmentById { id: segment_id },
            task: Task::SegmentFirst { id: segment_id },
        }
    }

    /// A session with all that belongs to it.
    pub fn get_session_detail<R>(&self, session_id: i64) -> (step: Step<R>)
        ensures
            step == showing_session::<R>(session_id),
    {
        Step::Ask {
            request: Request::SessionById { id: session_id },
            task: Task::DetailFirst { id: session_id },
        }
    }
}

/// A copy of an optional text.
pub fn clone_opt(t: &Option<String>) -> (r: Option<String>)
    ensures
        r == *t,
{
    match t {
        Some(s) => Some(s.clone()),
        None => None,
    }
}

// ---------------------------------------------------------------------------
//  Laws
// ---------------------------------------------------------------------------

/// An error of the database ends whatever operation it strikes, with that
/// error: nothing more is asked.
pub proof fn law_error_ends_operation<R>(task: Task<R>, e: StoreError, step: Step<R>)
    requires
        task.leads(Err::<Reply<R>, StoreError>(e), step),
    ensures
        step == Step::Finish(Err::<Outcome<R>, StoreError>(e)),
{
}

/// A transaction is committed only once all utterances have been inserted.
pub proof fn law_commit_comes_last<R>(task: Task<R>, reply: Reply<R>, step: Step<R>)
    requires
        task.leads(Ok::<Reply<R>, StoreError>(reply), step),
        step matches Step::Ask { request: Request::Commit, .. },
    ensures
        match task {
            Task::ReplaceCleared { pending } => pending@.len() == 0,
            Task::ReplaceInserted { pending, .. } => pending@.len() == 0,
            _ => false,
        },
{
}

/// An operation that is one request comes to what is answered, as it is.
pub proof fn law_answer_is_outcome<R>(
    step: Step<R>,
    request: Request<R>,
    reply: Result<Reply<R>, StoreError>,
    next: Step<R>,
)
    requires
        asks_only(step, request),
        step->task.leads(reply, next),
    ensures
        next == Step::Finish(
            match reply {
                Ok(answer) => Ok::<Outcome<R>, StoreError>(Outcome::Reply(answer)),
                Err(e) => Err(e),
            },
        ),
{
}

/// What was just written is the outcome where it is there, and an error that
/// names it where it is not; nothing empty is a success.
pub proof fn law_must_exist<R>(what: Missing, reply: Reply<R>, step: Step<R>)
    requires
        (Task::<R>::MustExist { what }).leads(Ok::<Reply<R>, StoreError>(reply), step),
    ensures
        match reply {
            Reply::Session(Some(_))
            | Reply::Segment(Some(_))
            | Reply::Speaker(Some(_))
            | Reply::Utterance(Some(_)) => step == Step::Finish(
                Ok::<Outcome<R>, StoreError>(Outcome::Reply(reply)),
            ),
            Reply::Session(None)
            | Reply::Segment(None)
            | Reply::Speaker(None)
            | Reply::Utterance(None) => step == Step::Finish(
                Err::<Outcome<R>, StoreError>(StoreError::Missing(what)),
            ),
            _ => step == Step::Finish(Err::<Outcome<R>, StoreError>(StoreError::Unexpected)),
        },
{
}

/// An answer of another kind than was asked for is never taken for a success.
pub proof fn law_odd_answer_refused<R>(task: Task<R>, reply: Reply<R>, step: Step<R>)
    requires
        task.leads(Ok::<Reply<R>, StoreError>(reply), step),
        match task {
            Task::ReadSegment | Task::ReadSpeaker | Task::ReadUtterance
            | Task::ReplaceInserted { .. } => !(reply is Id),
            Task::ReadSession { .. } | Task::ReadChanged { .. } | Task::ReplaceBegun { .. }
            | Task::ReplaceCleared { .. } | Task::ReplaceCommitted { .. } => !(reply is Done),
            Task::CreateIfAbsent { .. } | Task::DetailFirst { .. } => !(reply is Session),
            Task::SegmentFirst { .. } => !(reply is Segment),
            Task::DetailSegments { .. } => !(reply is Segments),
            Task::DetailSpeakers { .. } => !(reply is Speakers),
            Task::SegmentSpoken { .. } | Task::DetailSpoken { .. } => !(reply is Spoken),
            Task::ReplaceRead { .. } => !(reply is Utterance),
            Task::Answer | Task::MustExist { .. } => false,
        },
    ensures
        step == Step::Finish(Err::<Outcome<R>, StoreError>(StoreError::Unexpected)),
{
}

} // verus!
