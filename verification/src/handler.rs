//! What the HTTP endpoints answer, given what the operation on the database
//! came to.

use vstd::prelude::*;

use crate::model::{SegmentWithUtterances, SessionDetail, SessionSummary};
use crate::number::{signed_decimal, signed_text};
use crate::repository::{assigning, translating, Outcome, Repository, Step};
use crate::service::{SegmentService, SessionService, UtteranceService};
use crate::store::{Reply, StoreError};
use crate::text::{contains, ends_in, occurs_at};

verus! {

/// What all requests share.
#[derive(Debug, Clone, Copy)]
pub struct SharedState {
    pub repo: Repository,
}

impl SharedState {
    pub fn session_service(&self) -> (s: SessionService)
        ensures
            s.repo == self.repo,
    {
        SessionService::new(self.repo)
    }

    pub fn segment_service(&self) -> (s: SegmentService)
        ensures
            s.repo == self.repo,
    {
        SegmentService::new(self.repo)
    }

    pub fn utterance_service(&self) -> (s: UtteranceService)
        ensures
            s.repo == self.repo,
    {
        UtteranceService::new(self.repo)
    }
}

/// The status of an answer that carries a body, or of a change that was made.
pub const OK: u16 = 200;

/// The status of an answer without a body.
pub const NO_CONTENT: u16 = 204;

/// A request that is refused.
#[derive(Debug)]
pub struct ApiError {
    /// The HTTP status.
    pub status: u16,
    pub message: String,
}

/// The answer to a request.
pub type ApiResult<T> = Result<T, ApiError>;

impl ApiError {
    pub fn not_found(msg: String) -> (e: ApiError)
        ensures
            e.status == 404,
            e.message == msg,
    {
        ApiError { status: 404, message: msg }
    }

    pub fn bad_request(msg: String) -> (e: ApiError)
        ensures
            e.status == 400,
            e.message == msg,
    {
        ApiError { status: 400, message: msg }
    }

    pub fn internal_error(msg: String) -> (e: ApiError)
        ensures
            e.status == 500,
            e.message == msg,
    {
        ApiError { status: 500, message: msg }
    }
}

/// The request is refused with that status and message.
pub open spec fn refused<T>(r: ApiResult<T>, status: int, message: Seq<char>) -> bool {
    match r {
        Ok(_) => false,
        Err(e) => e.status == status && e.message@ == message,
    }
}

/// The request is refused because the database failed.
pub open spec fn failed<T>(r: ApiResult<T>, prefix: Seq<char>, e: StoreError) -> bool {
    refused(r, 500, prefix + e.text())
}

fn fail(prefix: &str, e: StoreError) -> (r: ApiError)
    ensures
        r.status == 500,
        r.message@ == prefix@ + e.text(),
{
    let reason = e.message();
    ApiError::internal_error(prefix.to_string().concat(reason.as_str()))
}

fn absent(before: &str, id: i64, after: &str) -> (r: ApiError)
    ensures
        r.status == 404,
        r.message@ == before@ + signed_decimal(id as int) + after@,
{
    let number = signed_text(id);
    ApiError::not_found(before.to_string().concat(number.as_str()).concat(after))
}

// ---------------------------------------------------------------------------
//  Sessions
// ---------------------------------------------------------------------------

/// The answer to `GET /api/sessions`.
pub open spec fn answers_list<R>(
    found: Result<Outcome<R>, StoreError>,
    r: ApiResult<Vec<SessionSummary>>,
) -> bool {
    match found {
        Ok(Outcome::Reply(Reply::Summaries(v))) => r == Ok::<_, ApiError>(v),
        Ok(_) => failed(r, "Ошибка БД: "@, StoreError::Unexpected),
        Err(e) => failed(r, "Ошибка БД: "@, e),
    }
}

/// `GET /api/sessions`: all sessions with what they hold counted.
pub fn list_sessions<R>(found: Result<Outcome<R>, StoreError>) -> (r: ApiResult<
    Vec<SessionSummary>,
>)
    ensures
        answers_list(found, r),
{
    match found {
        Ok(Outcome::Reply(Reply::Summaries(v))) => Ok(v),
        Ok(_) => Err(fail("Ошибка БД: ", StoreError::Unexpected)),
        Err(e) => Err(fail("Ошибка БД: ", e)),
    }
}

/// The answer to `GET /api/sessions/{id}`.
pub open spec fn answers_session<R>(
    session_id: i64,
    found: Result<Outcome<R>, StoreError>,
    r: ApiResult<SessionDetail<R>>,
) -> bool {
    match found {
        Ok(Outcome::Session(Some(detail))) => r == Ok::<_, ApiError>(detail),
        Ok(Outcome::Session(None)) => refused(
            r,
            404,
            "Сессия "@ + signed_decimal(session_id as int) + " не найдена"@,
        ),
        Ok(_) => failed(r, "Ошибка БД: "@, StoreError::Unexpected),
        Err(e) => failed(r, "Ошибка БД: "@, e),
    }
}

/// `GET /api/sessions/{id}`: a session with all that belongs to it.
pub fn get_session<R>(session_id: i64, found: Result<Outcome<R>, StoreError>) -> (r: ApiResult<
    SessionDetail<R>,
>)
    ensures
        answers_session(session_id, found, r),
{
    match found {
        Ok(Outcome::Session(Some(detail))) => Ok(detail),
        Ok(Outcome::Session(None)) => Err(absent("Сессия ", session_id, " не найдена")),
        Ok(_) => Err(fail("Ошибка БД: ", StoreError::Unexpected)),
        Err(e) => Err(fail("Ошибка БД: ", e)),
    }
}

/// The answer to a change: `status` where it was made, and otherwise why it
/// was not.
pub open spec fn answers_change<R>(
    done: Result<Outcome<R>, StoreError>,
    status: u16,
    prefix: Seq<char>,
    r: ApiResult<u16>,
) -> bool {
    match done {
        Ok(_) => r == Ok::<_, ApiError>(status),
        Err(e) => failed(r, prefix, e),
    }
}

/// `DELETE /api/sessions/{id}`.
pub fn delete_session<R>(done: Result<Outcome<R>, StoreError>) -> (r: ApiResult<u16>)
    ensures
        answers_change(done, 204, "Ошибка удаления: "@, r),
{
    match done {
        Ok(_) => Ok(NO_CONTENT),
        Err(e) => Err(fail("Ошибка удаления: ", e)),
    }
}

// ---------------------------------------------------------------------------
//  Segments
// ---------------------------------------------------------------------------

/// The answer to `GET /api/segments/{id}`.
pub open spec fn answers_segment<R>(
    segment_id: i64,
    found: Result<Outcome<R>, StoreError>,
    r: ApiResult<SegmentWithUtterances<R>>,
) -> bool {
    match found {
        Ok(Outcome::Segment(Some(segment))) => r == Ok::<_, ApiError>(segment),
        Ok(Outcome::Segment(None)) => refused(
            r,
            404,
            "Сегмент "@ + signed_decimal(segment_id as int) + " не найден"@,
        ),
        Ok(_) => failed(r, "Ошибка БД: "@, StoreError::Unexpected),
        Err(e) => failed(r, "Ошибка БД: "@, e),
    }
}

/// `GET /api/segments/{id}`: a segment with its utterances and their speakers.
pub fn get_segment<R>(segment_id: i64, found: Result<Outcome<R>, StoreError>) -> (r: ApiResult<
    SegmentWithUtterances<R>,
>)
    ensures
        answers_segment(segment_id, found, r),
{
    match found {
        Ok(Outcome::Segment(Some(segment))) => Ok(segment),
        Ok(Outcome::Segment(None)) => Err(absent("Сегмент ", segment_id, " не найден")),
        Ok(_) => Err(fail("Ошибка БД: ", StoreError::Unexpected)),
        Err(e) => Err(fail("Ошибка БД: ", e)),
    }
}

// ---------------------------------------------------------------------------
//  Utterances
// ---------------------------------------------------------------------------

/// The body of a change of a translation.
#[derive(Debug)]
pub struct TranslationUpdate {
    pub text_ru: Option<String>,
}

/// What `PATCH /api/utterances/{id}/translation` asks of the database.
pub fn ask_translation<R>(state: &SharedState, utterance_id: i64, payload: TranslationUpdate) -> (
    step: Step<R>)
    ensures
        step == translating::<R>(utterance_id, payload.text_ru),
{
    state.utterance_service().update_translation(utterance_id, payload.text_ru)
}

/// `PATCH /api/utterances/{id}/translation`.
pub fn update_utterance_translation<R>(done: Result<Outcome<R>, StoreError>) -> (r: ApiResult<u16>)
    ensures
        answers_change(done, 200, "Ошибка обновления: "@, r),
{
    match done {
        Ok(_) => Ok(OK),
        Err(e) => Err(fail("Ошибка обновления: ", e)),
    }
}

/// The body of an assignment of a speaker.
#[derive(Debug)]
pub struct AssignSpeakerPayload {
    pub speaker_id: Option<i64>,
}

/// What `POST /api/utterances/{id}/speaker` asks of the database.
pub fn ask_speaker<R>(state: &SharedState, utterance_id: i64, payload: AssignSpeakerPayload) -> (
    step: Step<R>)
    ensures
        step == assigning::<R>(utterance_id, payload.speaker_id),
{
    state.utterance_service().assign_speaker(utterance_id, payload.speaker_id)
}

/// `POST /api/utterances/{id}/speaker`.
pub fn assign_speaker_to_utterance<R>(done: Result<Outcome<R>, StoreError>) -> (r: ApiResult<u16>)
    ensures
        answers_change(done, 200, "Ошибка назначения: "@, r),
{
    match done {
        Ok(_) => Ok(OK),
        Err(e) => Err(fail("Ошибка назначения: ", e)),
    }
}

/// `GET /health`.
pub fn health() -> (status: u16)
    ensures
        status == 200,
{
    OK
}

// ---------------------------------------------------------------------------
//  Laws
// ---------------------------------------------------------------------------

/// The list of sessions is what the database found, and nothing else is answered
/// as a success.
pub proof fn law_list_answered<R>(
    found: Result<Outcome<R>, StoreError>,
    r: ApiResult<Vec<SessionSummary>>,
)
    requires
        answers_list(found, r),
    ensures
        match r {
            Ok(v) => found == Ok::<Outcome<R>, StoreError>(Outcome::Reply(Reply::Summaries(v))),
            Err(e) => e.status == 500 && !(found matches Ok(Outcome::Reply(Reply::Summaries(_)))),
        },
{
}

/// The message tells the id of a row.
pub open spec fn speaks_of(message: Seq<char>, id: int) -> bool {
    contains(message, signed_decimal(id))
}

/// A session that is found is answered as it is. One that is not there is not
/// found, and the message tells its id; a failure of the database is told with
/// its reason.
pub proof fn law_session_answered<R>(
    session_id: i64,
    found: Result<Outcome<R>, StoreError>,
    r: ApiResult<SessionDetail<R>>,
)
    requires
        answers_session(session_id, found, r),
    ensures
        match r {
            Ok(detail) => found == Ok::<Outcome<R>, StoreError>(Outcome::Session(Some(detail))),
            Err(e) => match found {
                Ok(Outcome::Session(None)) => e.status == 404 && speaks_of(
                    e.message@,
                    session_id as int,
                ),
                Ok(Outcome::Session(Some(_))) => false,
                Ok(_) => e.status == 500,
                Err(reason) => e.status == 500 && ends_in(e.message@, reason.text()),
            },
        },
{
    if let Err(e) = r {
        lemma_message("Сессия "@, session_id as int, " не найдена"@);
        if let Err(reason) = found {
            lemma_reason_last("Ошибка БД: "@, reason.text());
        }
    }
}

/// A segment that is found is answered as it is. One that is not there is not
/// found, and the message tells its id; a failure of the database is told with
/// its reason.
pub proof fn law_segment_answered<R>(
    segment_id: i64,
    found: Result<Outcome<R>, StoreError>,
    r: ApiResult<SegmentWithUtterances<R>>,
)
    requires
        answers_segment(segment_id, found, r),
    ensures
        match r {
            Ok(segment) => found == Ok::<Outcome<R>, StoreError>(Outcome::Segment(Some(segment))),
            Err(e) => match found {
                Ok(Outcome::Segment(None)) => e.status == 404 && speaks_of(
                    e.message@,
                    segment_id as int,
                ),
                Ok(Outcome::Segment(Some(_))) => false,
                Ok(_) => e.status == 500,
                Err(reason) => e.status == 500 && ends_in(e.message@, reason.text()),
            },
        },
{
    if let Err(e) = r {
        lemma_message("Сегмент "@, segment_id as int, " не найден"@);
        if let Err(reason) = found {
            lemma_reason_last("Ошибка БД: "@, reason.text());
        }
    }
}

/// A change is answered as a success exactly where it was made, and a failure is
/// told with its reason.
pub proof fn law_change_answered<R>(
    done: Result<Outcome<R>, StoreError>,
    status: u16,
    prefix: Seq<char>,
    r: ApiResult<u16>,
)
    requires
        answers_change(done, status, prefix, r),
    ensures
        r is Ok <==> done is Ok,
        r matches Ok(told) ==> told == status,
        done matches Err(reason) ==> (r matches Err(e) && e.status == 500 && ends_in(
            e.message@,
            reason.text(),
        )),
{
    if let Err(reason) = done {
        lemma_reason_last(prefix, reason.text());
    }
}

proof fn lemma_message(before: Seq<char>, id: int, after: Seq<char>)
    ensures
        speaks_of(before + signed_decimal(id) + after, id),
{
    let message = before + signed_decimal(id) + after;
    let n = before.len() as int;
    assert(message.subrange(n, n + signed_decimal(id).len()) =~= signed_decimal(id));
    assert(occurs_at(message, signed_decimal(id), n));
}

proof fn lemma_reason_last(prefix: Seq<char>, reason: Seq<char>)
    ensures
        ends_in(prefix + reason, reason),
{
    let message = prefix + reason;
    assert(message.skip(message.len() - reason.len()) =~= reason);
}

} // verus!
