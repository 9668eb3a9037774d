//! What is asked of the database, the statement for each request, and what the
//! rows that come back stand for.

use vstd::prelude::*;

use crate::database;
use crate::model::{
    law_status_word, NewSegment, NewSpeaker, NewUtterance, Segment, Session, SessionSummary, Speaker,
    TranscriptionStatus, Utterance, UtteranceWithSpeaker,
};

verus! {

/// A value in a column, or bound to a parameter.
#[derive(Debug)]
pub enum SqlValue<R> {
    Null,
    Integer(i64),
    Real(R),
    Text(String),
}

/// One row: the values of its columns, in order.
pub type Row<R> = Vec<SqlValue<R>>;

/// A statement with the values of its parameters, in order.
#[derive(Debug)]
pub struct Statement<R> {
    pub sql: &'static str,
    pub args: Vec<SqlValue<R>>,
}

/// What is asked of the database.
#[derive(Debug)]
pub enum Request<R> {
    Migrate,
    Begin,
    Commit,
    /// Creates the session unless one of that name exists.
    InsertSession { slug: String, created_at: i64, note: Option<String> },
    SessionById { id: i64 },
    SessionBySlug { slug: String },
    Sessions,
    SetSessionNote { id: i64, note: Option<String> },
    DeleteSession { id: i64 },
    Summaries,
    InsertSegment { segment: NewSegment },
    SegmentById { id: i64 },
    SegmentByFilename { filename: String },
    SegmentsOfSession { session_id: i64 },
    PendingSegments,
    SetSegmentStatus { id: i64, status: TranscriptionStatus, error_message: Option<String> },
    InsertSpeaker { speaker: NewSpeaker },
    SpeakerById { id: i64 },
    SpeakersOfSession { session_id: i64 },
    SetSpeakerLabel { id: i64, label: String },
    SetSpeakerColor { id: i64, color: Option<String> },
    DeleteSpeaker { id: i64 },
    InsertUtterance { utterance: NewUtterance<R> },
    DeleteUtterances { segment_id: i64 },
    UtteranceById { id: i64 },
    UtterancesOfSegment { segment_id: i64 },
    SetTranslation { id: i64, text_ru: Option<String> },
    SetUtteranceSpeaker { id: i64, speaker_id: Option<i64> },
    SpokenInSegment { segment_id: i64 },
    SpokenInSession { session_id: i64 },
}

/// What the database answers.
#[derive(Debug)]
pub enum Reply<R> {
    /// The statement was carried out.
    Done,
    /// The row was created under this id.
    Id(i64),
    Session(Option<Session>),
    Sessions(Vec<Session>),
    Summaries(Vec<SessionSummary>),
    Segment(Option<Segment>),
    Segments(Vec<Segment>),
    Speaker(Option<Speaker>),
    Speakers(Vec<Speaker>),
    Utterance(Option<Utterance<R>>),
    Utterances(Vec<Utterance<R>>),
    Spoken(Vec<UtteranceWithSpeaker<R>>),
}

/// A row that is not there although it was just written.
#[derive(Debug, Clone, Copy, PartialEq, Eq, Structural)]
pub enum Missing {
    Session,
    Segment,
    Speaker,
    Utterance,
    Translated,
    Assigned,
}

/// Why an operation on the database failed.
#[derive(Debug)]
pub enum StoreError {
    /// The database refused, with this message.
    Database(String),
    /// What was written is not there.
    Missing(Missing),
    /// A row does not have the columns that were asked for.
    Row,
    /// The answer does not fit the question.
    Unexpected,
}

impl Missing {
    /// The message shown for the error.
    pub open spec fn text(self) -> Seq<char> {
        match self {
            Missing::Session => "Сессия не найдена после вставки"@,
            Missing::Segment => "Сегмент не найден после вставки"@,
            Missing::Speaker => "Спикер не найден после вставки"@,
            Missing::Utterance => "Utterance не найдена после вставки"@,
            Missing::Translated => "Utterance не найдена после обновления перевода"@,
            Missing::Assigned => "Utterance не найдена после назначения спикера"@,
        }
    }
}

impl StoreError {
    /// The message shown for the error.
    pub open spec fn text(self) -> Seq<char> {
        match self {
            StoreError::Database(message) => message@,
            StoreError::Missing(what) => what.text(),
            StoreError::Row => "Некорректная строка БД"@,
            StoreError::Unexpected => "Неожиданный ответ БД"@,
        }
    }

    /// The message shown for the error.
    pub fn message(&self) -> (s: String)
        ensures
            s@ == self.text(),
    {
        match self {
            StoreError::Database(message) => message.clone(),
            StoreError::Missing(what) => match what {
                Missing::Session => "Сессия не найдена после вставки".to_string(),
                Missing::Segment => "Сегмент не найден после вставки".to_string(),
                Missing::Speaker => "Спикер не найден после вставки".to_string(),
                Missing::Utterance => "Utterance не найдена после вставки".to_string(),
                Missing::Translated =>
                    "Utterance не найдена после обновления перевода".to_string(),
                Missing::Assigned => "Utterance не найдена после назначения спикера".to_string(),
            },
            StoreError::Row => "Некорректная строка БД".to_string(),
            StoreError::Unexpected => "Неожиданный ответ БД".to_string(),
        }
    }
}

// ---------------------------------------------------------------------------
//  Statements
// ---------------------------------------------------------------------------

/// A text, or null.
pub open spec fn opt_text<R>(t: Option<String>) -> SqlValue<R> {
    match t {
        Some(s) => SqlValue::Text(s),
        None => SqlValue::Null,
    }
}

/// An integer, or null.
pub open spec fn opt_integer<R>(n: Option<i64>) -> SqlValue<R> {
    match n {
        Some(x) => SqlValue::Integer(x),
        None => SqlValue::Null,
    }
}

/// A size, or null.
pub open spec fn opt_size<R>(n: Option<u64>) -> SqlValue<R> {
    match n {
        Some(x) => SqlValue::Integer(x as i64),
        None => SqlValue::Null,
    }
}

/// A real number, or null.
pub open spec fn opt_real<R>(n: Option<R>) -> SqlValue<R> {
    match n {
        Some(x) => SqlValue::Real(x),
        None => SqlValue::Null,
    }
}

fn text_value<R>(t: &Option<String>) -> (v: SqlValue<R>)
    ensures
        v == opt_text::<R>(*t),
{
    match t {
        Some(s) => SqlValue::Text(s.clone()),
        None => SqlValue::Null,
    }
}

fn integer_value<R>(n: Option<i64>) -> (v: SqlValue<R>)
    ensures
        v == opt_integer::<R>(n),
{
    match n {
        Some(x) => SqlValue::Integer(x),
        None => SqlValue::Null,
    }
}

fn size_value<R>(n: Option<u64>) -> (v: SqlValue<R>)
    ensures
        v == opt_size::<R>(n),
{
    match n {
        Some(x) => SqlValue::Integer(x as i64),
        None => SqlValue::Null,
    }
}

fn real_value<R>(n: Option<R>) -> (v: SqlValue<R>)
    ensures
        v == opt_real(n),
{
    match n {
        Some(x) => SqlValue::Real(x),
        None => SqlValue::Null,
    }
}

impl<R> Request<R> {
    /// The text of the statement.
    pub open spec fn sql(self) -> &'static str {
        match self {
            Request::Migrate => database::SCHEMA,
            Request::Begin => database::BEGIN,
            Request::Commit => database::COMMIT,
            Request::InsertSession { .. } => database::INSERT_SESSION,
            Request::SessionById { .. } => database::SESSION_BY_ID,
            Request::SessionBySlug { .. } => database::SESSION_BY_SLUG,
            Request::Sessions => database::SESSIONS,
            Request::SetSessionNote { .. } => database::SET_SESSION_NOTE,
            Request::DeleteSession { .. } => database::DELETE_SESSION,
            Request::Summaries => database::SUMMARIES,
            Request::InsertSegment { .. } => database::INSERT_SEGMENT,
            Request::SegmentById { .. } => database::SEGMENT_BY_ID,
            Request::SegmentByFilename { .. } => database::SEGMENT_BY_FILENAME,
            Request::SegmentsOfSession { .. } => database::SEGMENTS_OF_SESSION,
            Request::PendingSegments => database::PENDING_SEGMENTS,
            Request::SetSegmentStatus { .. } => database::SET_SEGMENT_STATUS,
            Request::InsertSpeaker { .. } => database::INSERT_SPEAKER,
            Request::SpeakerById { .. } => database::SPEAKER_BY_ID,
            Request::SpeakersOfSession { .. } => database::SPEAKERS_OF_SESSION,
            Request::SetSpeakerLabel { .. } => database::SET_SPEAKER_LABEL,
            Request::SetSpeakerColor { .. } => database::SET_SPEAKER_COLOR,
            Request::DeleteSpeaker { .. } => database::DELETE_SPEAKER,
            Request::InsertUtterance { .. } => database::INSERT_UTTERANCE,
            Request::DeleteUtterances { .. } => database::DELETE_UTTERANCES,
            Request::UtteranceById { .. } => database::UTTERANCE_BY_ID,
            Request::UtterancesOfSegment { .. } => database::UTTERANCES_OF_SEGMENT,
            Request::SetTranslation { .. } => database::SET_TRANSLATION,
            Request::SetUtteranceSpeaker { .. } => database::SET_UTTERANCE_SPEAKER,
            Request::SpokenInSegment { .. } => database::SPOKEN_IN_SEGMENT,
            Request::SpokenInSession { .. } => database::SPOKEN_IN_SESSION,
        }
    }

    /// `args` are the values of the statement's parameters.
    pub open spec fn binds(self, args: Seq<SqlValue<R>>) -> bool {
        match self {
            Request::Migrate | Request::Begin | Request::Commit | Request::Sessions
            | Request::Summaries | Request::PendingSegments => args =~= Seq::<SqlValue<R>>::empty(),
            Request::InsertSession { slug, created_at, note } => args =~= seq![
                SqlValue::<R>::Text(slug),
                SqlValue::<R>::Integer(created_at),
                opt_text::<R>(note),
            ],
            Request::SessionById { id } | Request::DeleteSession { id } | Request::SegmentById {
                id,
            } | Request::SpeakerById { id } | Request::DeleteSpeaker { id }
            | Request::UtteranceById { id } => args =~= seq![SqlValue::<R>::Integer(id)],
            Request::SessionBySlug { slug } => args =~= seq![SqlValue::<R>::Text(slug)],
            Request::SegmentByFilename { filename } => args =~= seq![SqlValue::<R>::Text(filename)],
            Request::SegmentsOfSession { session_id } | Request::SpeakersOfSession { session_id }
            | Request::SpokenInSession { session_id } => args =~= seq![
                SqlValue::<R>::Integer(session_id),
            ],
            Request::DeleteUtterances { segment_id } | Request::UtterancesOfSegment { segment_id }
            | Request::SpokenInSegment { segment_id } => args =~= seq![
                SqlValue::<R>::Integer(segment_id),
            ],
            Request::SetSessionNote { id, note } => args =~= seq![
                opt_text::<R>(note),
                SqlValue::<R>::Integer(id),
            ],
            Request::InsertSegment { segment } => args =~= seq![
                SqlValue::<R>::Integer(segment.session_id),
                SqlValue::<R>::Integer(segment.index as i64),
                SqlValue::<R>::Text(segment.filename),
                opt_size::<R>(segment.size_bytes),
                SqlValue::<R>::Integer(segment.recorded_at),
            ],
            Request::SetSegmentStatus { id, status, error_message } => {
                &&& args.len() == 3
                &&& args[0] matches SqlValue::Text(word)
                &&& word@ == status.word()
                &&& args[1] == opt_text::<R>(error_message)
                &&& args[2] == SqlValue::<R>::Integer(id)
            },
            Request::InsertSpeaker { speaker } => args =~= seq![
                SqlValue::<R>::Integer(speaker.session_id),
                SqlValue::<R>::Text(speaker.label),
                opt_text::<R>(speaker.color),
            ],
            Request::SetSpeakerLabel { id, label } => args =~= seq![
                SqlValue::<R>::Text(label),
                SqlValue::<R>::Integer(id),
            ],
            Request::SetSpeakerColor { id, color } => args =~= seq![
                opt_text::<R>(color),
                SqlValue::<R>::Integer(id),
            ],
            Request::InsertUtterance { utterance } => args =~= seq![
                SqlValue::<R>::Integer(utterance.segment_id),
                SqlValue::<R>::Integer(utterance.index as i64),
                SqlValue::<R>::Real(utterance.start_sec),
                SqlValue::<R>::Real(utterance.end_sec),
                SqlValue::<R>::Text(utterance.text_thai),
                opt_integer::<R>(utterance.speaker_id),
                opt_real::<R>(utterance.confidence),
            ],
            Request::SetTranslation { id, text_ru } => args =~= seq![
                opt_text::<R>(text_ru),
                SqlValue::<R>::Integer(id),
            ],
            Request::SetUtteranceSpeaker { id, speaker_id } => args =~= seq![
                opt_integer::<R>(speaker_id),
                SqlValue::<R>::Integer(id),
            ],
        }
    }
}

impl<R: Copy> Request<R> {
    /// The statement that carries the request out.
    pub fn statement(&self) -> (s: Statement<R>)
        ensures
            s.sql == self.sql(),
            self.binds(s.args@),
    {
        match self {
            Request::Migrate => Statement { sql: database::SCHEMA, args: Vec::new() },
            Request::Begin => Statement { sql: database::BEGIN, args: Vec::new() },
            Request::Commit => Statement { sql: database::COMMIT, args: Vec::new() },
            Request::InsertSession { slug, created_at, note } => Statement {
                sql: database::INSERT_SESSION,
                args: vec![
                    SqlValue::Text(slug.clone()),
                    SqlValue::Integer(*created_at),
                    text_value(note),
                ],
            },
            Request::SessionById { id } => Statement {
                sql: database::SESSION_BY_ID,
                args: vec![SqlValue::Integer(*id)],
            },
            Request::SessionBySlug { slug } => Statement {
                sql: database::SESSION_BY_SLUG,
                args: vec![SqlValue::Text(slug.clone())],
            },
            Request::Sessions => Statement { sql: database::SESSIONS, args: Vec::new() },
            Request::SetSessionNote { id, note } => Statement {
                sql: database::SET_SESSION_NOTE,
                args: vec![text_value(note), SqlValue::Integer(*id)],
            },
            Request::DeleteSession { id } => Statement {
                sql: database::DELETE_SESSION,
                args: vec![SqlValue::Integer(*id)],
            },
            Request::Summaries => Statement { sql: database::SUMMARIES, args: Vec::new() },
            Request::InsertSegment { segment } => Statement {
                sql: database::INSERT_SEGMENT,
                args: vec![
                    SqlValue::Integer(segment.session_id),
                    SqlValue::Integer(segment.index as i64),
                    SqlValue::Text(segment.filename.clone()),
                    size_value(segment.size_bytes),
                    SqlValue::Integer(segment.recorded_at),
                ],
            },
            Request::SegmentById { id } => Statement {
                sql: database::SEGMENT_BY_ID,
                args: vec![SqlValue::Integer(*id)],
            },
            Request::SegmentByFilename { filename } => Statement {
                sql: database::SEGMENT_BY_FILENAME,
                args: vec![SqlValue::Text(filename.clone())],
            },
            Request::SegmentsOfSession { session_id } => Statement {
                sql: database::SEGMENTS_OF_SESSION,
                args: vec![SqlValue::Integer(*session_id)],
            },
            Request::PendingSegments => Statement { sql: database::PENDING_SEGMENTS, args: Vec::new() },
            Request::SetSegmentStatus { id, status, error_message } => Statement {
                sql: database::SET_SEGMENT_STATUS,
                args: vec![
                    SqlValue::Text(status.to_word()),
                    text_value(error_message),
                    SqlValue::Integer(*id),
                ],
            },
            Request::InsertSpeaker { speaker } => Statement {
                sql: database::INSERT_SPEAKER,
                args: vec![
                    SqlValue::Integer(speaker.session_id),
                    SqlValue::Text(speaker.label.clone()),
                    text_value(&speaker.color),
                ],
            },
            Request::SpeakerById { id } => Statement {
                sql: database::SPEAKER_BY_ID,
                args: vec![SqlValue::Integer(*id)],
            },
            Request::SpeakersOfSession { session_id } => Statement {
                sql: database::SPEAKERS_OF_SESSION,
                args: vec![SqlValue::Integer(*session_id)],
            },
            Request::SetSpeakerLabel { id, label } => Statement {
                sql: database::SET_SPEAKER_LABEL,
                args: vec![SqlValue::Text(label.clone()), SqlValue::Integer(*id)],
            },
            Request::SetSpeakerColor { id, color } => Statement {
                sql: database::SET_SPEAKER_COLOR,
                args: vec![text_value(color), SqlValue::Integer(*id)],
            },
            Request::DeleteSpeaker { id } => Statement {
                sql: database::DELETE_SPEAKER,
                args: vec![SqlValue::Integer(*id)],
            },
            Request::InsertUtterance { utterance } => Statement {
                sql: database::INSERT_UTTERANCE,
                args: vec![
                    SqlValue::Integer(utterance.segment_id),
                    SqlValue::Integer(utterance.index as i64),
                    SqlValue::Real(utterance.start_sec),
                    SqlValue::Real(utterance.end_sec),
                    SqlValue::Text(utterance.text_thai.clone()),
                    integer_value(utterance.speaker_id),
                    real_value(utterance.confidence),
                ],
            },
            Request::DeleteUtterances { segment_id } => Statement {
                sql: database::DELETE_UTTERANCES,
                args: vec![SqlValue::Integer(*segment_id)],
            },
            Request::UtteranceById { id } => Statement {
                sql: database::UTTERANCE_BY_ID,
                args: vec![SqlValue::Integer(*id)],
            },
            Request::UtterancesOfSegment { segment_id } => Statement {
                sql: database::UTTERANCES_OF_SEGMENT,
                args: vec![SqlValue::Integer(*segment_id)],
            },
            Request::SetTranslation { id, text_ru } => Statement {
                sql: database::SET_TRANSLATION,
                args: vec![text_value(text_ru), SqlValue::Integer(*id)],
            },
            Request::SetUtteranceSpeaker { id, speaker_id } => Statement {
                sql: database::SET_UTTERANCE_SPEAKER,
                args: vec![integer_value(*speaker_id), SqlValue::Integer(*id)],
            },
            Request::SpokenInSegment { segment_id } => Statement {
                sql: database::SPOKEN_IN_SEGMENT,
                args: vec![SqlValue::Integer(*segment_id)],
            },
            Request::SpokenInSession { session_id } => Statement {
                sql: database::SPOKEN_IN_SESSION,
                args: vec![SqlValue::Integer(*session_id)],
            },
        }
    }
}

// ---------------------------------------------------------------------------
//  Laws
// ---------------------------------------------------------------------------

/// A change of a row is bound as the new value and, last of all, the id of the
/// row.
pub proof fn law_changes_bound<R>(
    args: Seq<SqlValue<R>>,
    id: i64,
    text: Option<String>,
    label: String,
    speaker_id: Option<i64>,
    status: TranscriptionStatus,
)
    ensures
        (Request::<R>::SetSessionNote { id, note: text }).binds(args) ==> args == seq![
            opt_text::<R>(text),
            SqlValue::<R>::Integer(id),
        ],
        (Request::<R>::SetSpeakerLabel { id, label }).binds(args) ==> args == seq![
            SqlValue::<R>::Text(label),
            SqlValue::<R>::Integer(id),
        ],
        (Request::<R>::SetSpeakerColor { id, color: text }).binds(args) ==> args == seq![
            opt_text::<R>(text),
            SqlValue::<R>::Integer(id),
        ],
        (Request::<R>::SetTranslation { id, text_ru: text }).binds(args) ==> args == seq![
            opt_text::<R>(text),
            SqlValue::<R>::Integer(id),
        ],
        (Request::<R>::SetUtteranceSpeaker { id, speaker_id }).binds(args) ==> args == seq![
            opt_integer::<R>(speaker_id),
            SqlValue::<R>::Integer(id),
        ],
        (Request::<R>::SetSegmentStatus { id, status, error_message: text }).binds(args) ==> {
            &&& args.len() == 3
            &&& args[0] matches SqlValue::Text(word)
            &&& TranscriptionStatus::of_word(word@) == status
            &&& args[1] == opt_text::<R>(text)
            &&& args[2] == SqlValue::<R>::Integer(id)
        },
{
    law_status_word(status);
}

/// A question for a row, or for the rows that belong to one, is bound to its
/// id, and so is the deletion of a row.
pub proof fn law_questions_bound<R>(args: Seq<SqlValue<R>>, id: i64, text: String)
    ensures
        ({
            ||| (Request::<R>::SessionById { id }).binds(args)
            ||| (Request::<R>::DeleteSession { id }).binds(args)
            ||| (Request::<R>::SegmentById { id }).binds(args)
            ||| (Request::<R>::SpeakerById { id }).binds(args)
            ||| (Request::<R>::DeleteSpeaker { id }).binds(args)
            ||| (Request::<R>::UtteranceById { id }).binds(args)
            ||| (Request::<R>::SegmentsOfSession { session_id: id }).binds(args)
            ||| (Request::<R>::SpeakersOfSession { session_id: id }).binds(args)
            ||| (Request::<R>::SpokenInSession { session_id: id }).binds(args)
            ||| (Request::<R>::DeleteUtterances { segment_id: id }).binds(args)
            ||| (Request::<R>::UtterancesOfSegment { segment_id: id }).binds(args)
            ||| (Request::<R>::SpokenInSegment { segment_id: id }).binds(args)
        }) ==> args == seq![SqlValue::<R>::Integer(id)],
        ({
            ||| (Request::<R>::SessionBySlug { slug: text }).binds(args)
            ||| (Request::<R>::SegmentByFilename { filename: text }).binds(args)
        }) ==> args == seq![SqlValue::<R>::Text(text)],
{
}

/// What the user is told when something is missing names what it is.
pub proof fn law_missing_told(message: String)
    ensures
        StoreError::Database(message).text() == message@,
        StoreError::Missing(Missing::Session).text() == "Сессия не найдена после вставки"@,
        StoreError::Missing(Missing::Segment).text() == "Сегмент не найден после вставки"@,
        StoreError::Missing(Missing::Speaker).text() == "Спикер не найден после вставки"@,
        StoreError::Missing(Missing::Utterance).text() == "Utterance не найдена после вставки"@,
        StoreError::Missing(Missing::Translated).text()
            == "Utterance не найдена после обновления перевода"@,
        StoreError::Missing(Missing::Assigned).text()
            == "Utterance не найдена после назначения спикера"@,
{
}

} // verus!
