//! What the rows of an answer stand for.

use vstd::prelude::*;

use crate::model::{
    law_status_word, NewSegment, NewSpeaker, NewUtterance, Segment, Session, SessionSummary,
    Speaker, TranscriptionStatus, Utterance, UtteranceWithSpeaker,
};
use crate::store::{opt_integer, opt_real, opt_text, Reply, Request, Row, SqlValue, StoreError};

verus! {

// ---------------------------------------------------------------------------
//  Columns
// ---------------------------------------------------------------------------

/// The integer in column `i`.
pub open spec fn integer_at<R>(row: Seq<SqlValue<R>>, i: int) -> Option<i64> {
    if 0 <= i < row.len() {
        match row[i] {
            SqlValue::Integer(n) => Some(n),
            _ => None,
        }
    } else {
        None
    }
}

/// The integer or null in column `i`.
pub open spec fn opt_integer_at<R>(row: Seq<SqlValue<R>>, i: int) -> Option<Option<i64>> {
    if 0 <= i < row.len() {
        match row[i] {
            SqlValue::Integer(n) => Some(Some(n)),
            SqlValue::Null => Some(None),
            _ => None,
        }
    } else {
        None
    }
}

/// The real number in column `i`.
pub open spec fn real_at<R>(row: Seq<SqlValue<R>>, i: int) -> Option<R> {
    if 0 <= i < row.len() {
        match row[i] {
            SqlValue::Real(x) => Some(x),
            _ => None,
        }
    } else {
        None
    }
}

/// The real number or null in column `i`.
pub open spec fn opt_real_at<R>(row: Seq<SqlValue<R>>, i: int) -> Option<Option<R>> {
    if 0 <= i < row.len() {
        match row[i] {
            SqlValue::Real(x) => Some(Some(x)),
            SqlValue::Null => Some(None),
            _ => None,
        }
    } else {
        None
    }
}

/// The text in column `i`.
pub open spec fn text_at<R>(row: Seq<SqlValue<R>>, i: int) -> Option<String> {
    if 0 <= i < row.len() {
        match row[i] {
            SqlValue::Text(s) => Some(s),
            _ => None,
        }
    } else {
        None
    }
}

/// The text or null in column `i`.
pub open spec fn opt_text_at<R>(row: Seq<SqlValue<R>>, i: int) -> Option<Option<String>> {
    if 0 <= i < row.len() {
        match row[i] {
            SqlValue::Text(s) => Some(Some(s)),
            SqlValue::Null => Some(None),
            _ => None,
        }
    } else {
        None
    }
}

fn get_integer<R>(row: &Row<R>, i: usize) -> (r: Option<i64>)
    ensures
        r == integer_at(row@, i as int),
{
    if i < row.len() {
        match &row[i] {
            SqlValue::Integer(n) => Some(*n),
            _ => None,
        }
    } else {
        None
    }
}

fn get_opt_integer<R>(row: &Row<R>, i: usize) -> (r: Option<Option<i64>>)
    ensures
        r == opt_integer_at(row@, i as int),
{
    if i < row.len() {
        match &row[i] {
            SqlValue::Integer(n) => Some(Some(*n)),
            SqlValue::Null => Some(None),
            _ => None,
        }
    } else {
        None
    }
}

fn get_real<R: Copy>(row: &Row<R>, i: usize) -> (r: Option<R>)
    ensures
        r == real_at(row@, i as int),
{
    if i < row.len() {
        match &row[i] {
            SqlValue::Real(x) => Some(*x),
            _ => None,
        }
    } else {
        None
    }
}

fn get_opt_real<R: Copy>(row: &Row<R>, i: usize) -> (r: Option<Option<R>>)
    ensures
        r == opt_real_at(row@, i as int),
{
    if i < row.len() {
        match &row[i] {
            SqlValue::Real(x) => Some(Some(*x)),
            SqlValue::Null => Some(None),
            _ => None,
        }
    } else {
        None
    }
}

fn get_text<R>(row: &Row<R>, i: usize) -> (r: Option<String>)
    ensures
        r == text_at(row@, i as int),
{
    if i < row.len() {
        match &row[i] {
            SqlValue::Text(s) => Some(s.clone()),
            _ => None,
        }
    } else {
        None
    }
}

fn get_opt_text<R>(row: &Row<R>, i: usize) -> (r: Option<Option<String>>)
    ensures
        r == opt_text_at(row@, i as int),
{
    if i < row.len() {
        match &row[i] {
            SqlValue::Text(s) => Some(Some(s.clone())),
            SqlValue::Null => Some(None),
            _ => None,
        }
    } else {
        None
    }
}

// ---------------------------------------------------------------------------
//  Rows
// ---------------------------------------------------------------------------

/// What can be read from a row.
pub trait FromRow<R>: Sized {
    /// What the row stands for, if it has the columns for it.
    spec fn of_row(row: Seq<SqlValue<R>>) -> Option<Self>;

    /// What the row stands for, if it has the columns for it.
    fn from_row(row: &Row<R>) -> (r: Option<Self>)
        ensures
            r == Self::of_row(row@),
    ;
}

impl<R: Copy> FromRow<R> for Session {
    open spec fn of_row(row: Seq<SqlValue<R>>) -> Option<Session> {
        match (integer_at(row, 0), text_at(row, 1), integer_at(row, 2), opt_text_at(row, 3)) {
            (Some(id), Some(slug), Some(created_at), Some(note)) => Some(
                Session { id, slug, created_at, note },
            ),
            _ => None,
        }
    }

    fn from_row(row: &Row<R>) -> (r: Option<Session>) {
        match (get_integer(row, 0), get_text(row, 1), get_integer(row, 2), get_opt_text(row, 3)) {
            (Some(id), Some(slug), Some(created_at), Some(note)) => Some(
                Session { id, slug, created_at, note },
            ),
            _ => None,
        }
    }
}

/// A stored size: the 64 bits of the integer, read as a number without sign.
pub open spec fn stored_size(n: Option<i64>) -> Option<u64> {
    match n {
        Some(x) => Some(x as u64),
        None => None,
    }
}

impl<R: Copy> FromRow<R> for Segment {
    open spec fn of_row(row: Seq<SqlValue<R>>) -> Option<Segment> {
        match (
            integer_at(row, 0),
            integer_at(row, 1),
            integer_at(row, 2),
            text_at(row, 3),
            opt_integer_at(row, 4),
            integer_at(row, 5),
            text_at(row, 6),
        ) {
            (
                Some(id),
                Some(session_id),
                Some(index),
                Some(filename),
                Some(size),
                Some(recorded_at),
                Some(word),
            ) => Some(
                Segment {
                    id,
                    session_id,
                    index: index as u32,
                    filename,
                    size_bytes: stored_size(size),
                    recorded_at,
                    transcription_status: TranscriptionStatus::of_word(word@),
                },
            ),
            _ => None,
        }
    }

    fn from_row(row: &Row<R>) -> (r: Option<Segment>) {
        match (
            get_integer(row, 0),
            get_integer(row, 1),
            get_integer(row, 2),
            get_text(row, 3),
            get_opt_integer(row, 4),
            get_integer(row, 5),
            get_text(row, 6),
        ) {
            (
                Some(id),
                Some(session_id),
                Some(index),
                Some(filename),
                Some(size),
                Some(recorded_at),
                Some(word),
            ) => Some(
                Segment {
                    id,
                    session_id,
                    index: index as u32,
                    filename,
                    size_bytes: match size {
                        Some(x) => Some(x as u64),
                        None => None,
                    },
                    recorded_at,
                    transcription_status: TranscriptionStatus::from_word(&word),
                },
            ),
            _ => None,
        }
    }
}

impl<R: Copy> FromRow<R> for Speaker {
    open spec fn of_row(row: Seq<SqlValue<R>>) -> Option<Speaker> {
        match (integer_at(row, 0), integer_at(row, 1), text_at(row, 2), opt_text_at(row, 3)) {
            (Some(id), Some(session_id), Some(label), Some(color)) => Some(
                Speaker { id, session_id, label, color },
            ),
            _ => None,
        }
    }

    fn from_row(row: &Row<R>) -> (r: Option<Speaker>) {
        match (get_integer(row, 0), get_integer(row, 1), get_text(row, 2), get_opt_text(row, 3)) {
            (Some(id), Some(session_id), Some(label), Some(color)) => Some(
                Speaker { id, session_id, label, color },
            ),
            _ => None,
        }
    }
}

impl<R: Copy> FromRow<R> for Utterance<R> {
    open spec fn of_row(row: Seq<SqlValue<R>>) -> Option<Utterance<R>> {
        match (
            integer_at(row, 0),
            integer_at(row, 1),
            integer_at(row, 2),
            real_at(row, 3),
            real_at(row, 4),
            text_at(row, 5),
            opt_text_at(row, 6),
            opt_integer_at(row, 7),
            opt_real_at(row, 8),
        ) {
            (
                Some(id),
                Some(segment_id),
                Some(index),
                Some(start_sec),
                Some(end_sec),
                Some(text_thai),
                Some(text_ru),
                Some(speaker_id),
                Some(confidence),
            ) => Some(
                Utterance {
                    id,
                    segment_id,
                    index: index as u32,
                    start_sec,
                    end_sec,
                    text_thai,
                    text_ru,
                    speaker_id,
                    confidence,
                },
            ),
            _ => None,
        }
    }

    fn from_row(row: &Row<R>) -> (r: Option<Utterance<R>>) {
        match (
            get_integer(row, 0),
            get_integer(row, 1),
            get_integer(row, 2),
            get_real(row, 3),
            get_real(row, 4),
            get_text(row, 5),
            get_opt_text(row, 6),
            get_opt_integer(row, 7),
            get_opt_real(row, 8),
        ) {
            (
                Some(id),
                Some(segment_id),
                Some(index),
                Some(start_sec),
                Some(end_sec),
                Some(text_thai),
                Some(text_ru),
                Some(speaker_id),
                Some(confidence),
            ) => Some(
                Utterance {
                    id,
                    segment_id,
                    index: index as u32,
                    start_sec,
                    end_sec,
                    text_thai,
                    text_ru,
                    speaker_id,
                    confidence,
                },
            ),
            _ => None,
        }
    }
}

impl<R: Copy> FromRow<R> for UtteranceWithSpeaker<R> {
    open spec fn of_row(row: Seq<SqlValue<R>>) -> Option<UtteranceWithSpeaker<R>> {
        match (Utterance::<R>::of_row(row), opt_text_at(row, 9), opt_text_at(row, 10)) {
            (Some(utterance), Some(speaker_label), Some(speaker_color)) => Some(
                UtteranceWithSpeaker { utterance, speaker_label, speaker_color },
            ),
            _ => None,
        }
    }

    fn from_row(row: &Row<R>) -> (r: Option<UtteranceWithSpeaker<R>>) {
        match (Utterance::<R>::from_row(row), get_opt_text(row, 9), get_opt_text(row, 10)) {
            (Some(utterance), Some(speaker_label), Some(speaker_color)) => Some(
                UtteranceWithSpeaker { utterance, speaker_label, speaker_color },
            ),
            _ => None,
        }
    }
}

impl<R: Copy> FromRow<R> for SessionSummary {
    open spec fn of_row(row: Seq<SqlValue<R>>) -> Option<SessionSummary> {
        match (
            <Session as FromRow<R>>::of_row(row),
            integer_at(row, 4),
            integer_at(row, 5),
            integer_at(row, 6),
            integer_at(row, 7),
        ) {
            (Some(s), Some(segments), Some(done), Some(utterances), Some(translated)) => Some(
                SessionSummary {
                    id: s.id,
                    slug: s.slug,
                    created_at: s.created_at,
                    note: s.note,
                    segment_count: segments as u32,
                    done_count: done as u32,
                    utterance_count: utterances as u32,
                    translated_count: translated as u32,
                },
            ),
            _ => None,
        }
    }

    fn from_row(row: &Row<R>) -> (r: Option<SessionSummary>) {
        match (
            <Session as FromRow<R>>::from_row(row),
            get_integer(row, 4),
            get_integer(row, 5),
            get_integer(row, 6),
            get_integer(row, 7),
        ) {
            (Some(s), Some(segments), Some(done), Some(utterances), Some(translated)) => Some(
                SessionSummary {
                    id: s.id,
                    slug: s.slug,
                    created_at: s.created_at,
                    note: s.note,
                    segment_count: segments as u32,
                    done_count: done as u32,
                    utterance_count: utterances as u32,
                    translated_count: translated as u32,
                },
            ),
            _ => None,
        }
    }
}

// ---------------------------------------------------------------------------
//  Answers
// ---------------------------------------------------------------------------

/// `out` is what each of the rows stands for, in order.
pub open spec fn reads_all<R, T: FromRow<R>>(rows: Seq<Row<R>>, out: Seq<T>) -> bool {
    out.len() == rows.len() && forall|i: int|
        0 <= i < rows.len() ==> T::of_row((#[trigger] rows[i])@) == Some(out[i])
}

/// Some row does not have the columns for a `T`.
pub open spec fn unreadable<R, T: FromRow<R>>(rows: Seq<Row<R>>) -> bool {
    exists|i: int| 0 <= i < rows.len() && T::of_row((#[trigger] rows[i])@) is None
}

/// What the first row stands for; none if there are no rows. `None` on the
/// outside if the row does not have the columns for it.
pub open spec fn reads_first<R, T: FromRow<R>>(rows: Seq<Row<R>>) -> Option<Option<T>> {
    if rows.len() == 0 {
        Some(None)
    } else {
        match T::of_row(rows[0]@) {
            Some(t) => Some(Some(t)),
            None => None,
        }
    }
}

/// What each of the rows stands for.
pub fn read_all<R, T: FromRow<R>>(rows: &Vec<Row<R>>) -> (r: Option<Vec<T>>)
    ensures
        match r {
            Some(out) => reads_all::<R, T>(rows@, out@),
            None => unreadable::<R, T>(rows@),
        },
{
    let mut out: Vec<T> = Vec::new();
    let mut i: usize = 0;
    while i < rows.len()
        invariant
            i <= rows@.len(),
            out@.len() == i,
            forall|k: int| 0 <= k < i ==> T::of_row((#[trigger] rows@[k])@) == Some(out@[k]),
        decreases rows@.len() - i,
    {
        match T::from_row(&rows[i]) {
            Some(t) => out.push(t),
            None => {
                assert(T::of_row(rows@[i as int]@) is None);
                return None;
            },
        }
        i += 1;
    }
    Some(out)
}

/// What the first row stands for.
pub fn read_first<R, T: FromRow<R>>(rows: &Vec<Row<R>>) -> (r: Option<Option<T>>)
    ensures
        r == reads_first::<R, T>(rows@),
{
    if rows.len() == 0 {
        Some(None)
    } else {
        match T::from_row(&rows[0]) {
            Some(t) => Some(Some(t)),
            None => None,
        }
    }
}

impl<R: Copy> Request<R> {
    /// The rows of an answer to the request stand for `r`. A row without the
    /// columns for it makes the answer an error.
    pub open spec fn replies(self, rows: Seq<Row<R>>, r: Result<Reply<R>, StoreError>) -> bool {
        match self {
            Request::Migrate | Request::Begin | Request::Commit | Request::InsertSession { .. }
            | Request::SetSessionNote { .. } | Request::DeleteSession { .. }
            | Request::SetSegmentStatus { .. } | Request::SetSpeakerLabel { .. }
            | Request::SetSpeakerColor { .. } | Request::DeleteSpeaker { .. }
            | Request::DeleteUtterances { .. } | Request::SetTranslation { .. }
            | Request::SetUtteranceSpeaker { .. } => r == Ok::<Reply<R>, StoreError>(Reply::Done),
            Request::InsertSegment { .. } | Request::InsertSpeaker { .. }
            | Request::InsertUtterance { .. } => r == (if rows.len() > 0 && integer_at(
                rows[0]@,
                0,
            ) is Some {
                Ok(Reply::<R>::Id(integer_at(rows[0]@, 0)->0))
            } else {
                Err(StoreError::Row)
            }),
            Request::SessionById { .. } | Request::SessionBySlug { .. } => r == (
            match reads_first::<R, Session>(rows) {
                Some(found) => Ok(Reply::<R>::Session(found)),
                None => Err(StoreError::Row),
            }),
            Request::SegmentById { .. } | Request::SegmentByFilename { .. } => r == (
            match reads_first::<R, Segment>(rows) {
                Some(found) => Ok(Reply::<R>::Segment(found)),
                None => Err(StoreError::Row),
            }),
            Request::SpeakerById { .. } => r == (match reads_first::<R, Speaker>(rows) {
                Some(found) => Ok(Reply::<R>::Speaker(found)),
                None => Err(StoreError::Row),
            }),
            Request::UtteranceById { .. } => r == (match reads_first::<R, Utterance<R>>(rows) {
                Some(found) => Ok(Reply::<R>::Utterance(found)),
                None => Err(StoreError::Row),
            }),
            Request::Sessions => match r {
                Ok(Reply::Sessions(v)) => reads_all::<R, Session>(rows, v@),
                Ok(_) => false,
                Err(e) => e is Row && unreadable::<R, Session>(rows),
            },
            Request::Summaries => match r {
                Ok(Reply::Summaries(v)) => reads_all::<R, SessionSummary>(rows, v@),
                Ok(_) => false,
                Err(e) => e is Row && unreadable::<R, SessionSummary>(rows),
            },
            Request::SegmentsOfSession { .. } | Request::PendingSegments => match r {
                Ok(Reply::Segments(v)) => reads_all::<R, Segment>(rows, v@),
                Ok(_) => false,
                Err(e) => e is Row && unreadable::<R, Segment>(rows),
            },
            Request::SpeakersOfSession { .. } => match r {
                Ok(Reply::Speakers(v)) => reads_all::<R, Speaker>(rows, v@),
                Ok(_) => false,
                Err(e) => e is Row && unreadable::<R, Speaker>(rows),
            },
            Request::UtterancesOfSegment { .. } => match r {
                Ok(Reply::Utterances(v)) => reads_all::<R, Utterance<R>>(rows, v@),
                Ok(_) => false,
                Err(e) => e is Row && unreadable::<R, Utterance<R>>(rows),
            },
            Request::SpokenInSegment { .. } | Request::SpokenInSession { .. } => match r {
                Ok(Reply::Spoken(v)) => reads_all::<R, UtteranceWithSpeaker<R>>(rows, v@),
                Ok(_) => false,
                Err(e) => e is Row && unreadable::<R, UtteranceWithSpeaker<R>>(rows),
            },
        }
    }

    /// What the rows of an answer to the request stand for.
    pub fn reply(&self, rows: &Vec<Row<R>>) -> (r: Result<Reply<R>, StoreError>)
        ensures
            self.replies(rows@, r),
    {
        match self {
            Request::InsertSegment { .. } | Request::InsertSpeaker { .. }
            | Request::InsertUtterance { .. } => {
                if rows.len() == 0 {
                    return Err(StoreError::Row);
                }
                match get_integer(&rows[0], 0) {
                    Some(id) => Ok(Reply::Id(id)),
                    None => Err(StoreError::Row),
                }
            },
            Request::SessionById { .. } | Request::SessionBySlug { .. } => match read_first(rows) {
                Some(found) => Ok(Reply::Session(found)),
                None => Err(StoreError::Row),
            },
            Request::SegmentById { .. } | Request::SegmentByFilename { .. } => match read_first(
                rows,
            ) {
                Some(found) => Ok(Reply::Segment(found)),
                None => Err(StoreError::Row),
            },
            Request::SpeakerById { .. } => match read_first(rows) {
                Some(found) => Ok(Reply::Speaker(found)),
                None => Err(StoreError::Row),
            },
            Request::UtteranceById { .. } => match read_first(rows) {
                Some(found) => Ok(Reply::Utterance(found)),
                None => Err(StoreError::Row),
            },
            Request::Sessions => match read_all(rows) {
                Some(v) => Ok(Reply::Sessions(v)),
                None => Err(StoreError::Row),
            },
            Request::Summaries => match read_all(rows) {
                Some(v) => Ok(Reply::Summaries(v)),
                None => Err(StoreError::Row),
            },
            Request::SegmentsOfSession { .. } | Request::PendingSegments => match read_all(rows) {
                Some(v) => Ok(Reply::Segments(v)),
                None => Err(StoreError::Row),
            },
            Request::SpeakersOfSession { .. } => match read_all(rows) {
                Some(v) => Ok(Reply::Speakers(v)),
                None => Err(StoreError::Row),
            },
            Request::UtterancesOfSegment { .. } => match read_all(rows) {
                Some(v) => Ok(Reply::Utterances(v)),
                None => Err(StoreError::Row),
            },
            Request::SpokenInSegment { .. } | Request::SpokenInSession { .. } => match read_all(
                rows,
            ) {
                Some(v) => Ok(Reply::Spoken(v)),
                None => Err(StoreError::Row),
            },
            Request::Migrate | Request::Begin | Request::Commit | Request::InsertSession { .. }
            | Request::SetSessionNote { .. } | Request::DeleteSession { .. }
            | Request::SetSegmentStatus { .. } | Request::SetSpeakerLabel { .. }
            | Request::SetSpeakerColor { .. } | Request::DeleteSpeaker { .. }
            | Request::DeleteUtterances { .. } | Request::SetTranslation { .. }
            | Request::SetUtteranceSpeaker { .. } => Ok(Reply::Done),
        }
    }
}

// ---------------------------------------------------------------------------
//  Laws
// ---------------------------------------------------------------------------

/// A session is read back from the row that holds what was bound to store it.
pub proof fn law_session_read_back<R: Copy>(
    slug: String,
    created_at: i64,
    note: Option<String>,
    id: i64,
    args: Seq<SqlValue<R>>,
)
    requires
        (Request::<R>::InsertSession { slug, created_at, note }).binds(args),
    ensures
        <Session as FromRow<R>>::of_row(seq![SqlValue::Integer(id)] + args) == Some(
            Session { id, slug, created_at, note },
        ),
{
}

/// A segment is read back from the row that holds what was bound to store it
/// and the word of its status.
pub proof fn law_segment_read_back<R: Copy>(
    segment: NewSegment,
    id: i64,
    status: TranscriptionStatus,
    word: String,
    args: Seq<SqlValue<R>>,
)
    requires
        (Request::<R>::InsertSegment { segment }).binds(args),
        word@ == status.word(),
    ensures
        <Segment as FromRow<R>>::of_row(
            seq![SqlValue::Integer(id)] + args + seq![SqlValue::Text(word)],
        ) == Some(
            Segment {
                id,
                session_id: segment.session_id,
                index: segment.index,
                filename: segment.filename,
                size_bytes: segment.size_bytes,
                recorded_at: segment.recorded_at,
                transcription_status: status,
            },
        ),
{
    law_status_word(status);
    let index = segment.index;
    assert((index as i64) as u32 == index);
    if let Some(size) = segment.size_bytes {
        assert((size as i64) as u64 == size) by (bit_vector);
    }
}

/// A speaker is read back from the row that holds what was bound to store it.
pub proof fn law_speaker_read_back<R: Copy>(
    speaker: NewSpeaker,
    id: i64,
    args: Seq<SqlValue<R>>,
)
    requires
        (Request::<R>::InsertSpeaker { speaker }).binds(args),
    ensures
        <Speaker as FromRow<R>>::of_row(seq![SqlValue::Integer(id)] + args) == Some(
            Speaker {
                id,
                session_id: speaker.session_id,
                label: speaker.label,
                color: speaker.color,
            },
        ),
{
}

/// An utterance is read back from the row that holds what was bound to store
/// it and its translation.
pub proof fn law_utterance_read_back<R: Copy>(
    utterance: NewUtterance<R>,
    id: i64,
    text_ru: Option<String>,
    args: Seq<SqlValue<R>>,
)
    requires
        (Request::<R>::InsertUtterance { utterance }).binds(args),
    ensures
        Utterance::<R>::of_row(
            seq![SqlValue::Integer(id)] + args.take(5) + seq![opt_text::<R>(text_ru)] + args.skip(5),
        ) == Some(
            Utterance {
                id,
                segment_id: utterance.segment_id,
                index: utterance.index,
                start_sec: utterance.start_sec,
                end_sec: utterance.end_sec,
                text_thai: utterance.text_thai,
                text_ru,
                speaker_id: utterance.speaker_id,
                confidence: utterance.confidence,
            },
        ),
{
    let index = utterance.index;
    assert((index as i64) as u32 == index);
}

/// A summary is read from its row column by column: the session, and the counts
/// of its segments, of those that are done, of its utterances and of those that
/// are translated.
pub proof fn law_summary_read_back<R: Copy>(s: SessionSummary)
    ensures
        <SessionSummary as FromRow<R>>::of_row(
            seq![
                SqlValue::Integer(s.id),
                SqlValue::Text(s.slug),
                SqlValue::Integer(s.created_at),
                opt_text::<R>(s.note),
                SqlValue::Integer(s.segment_count as i64),
                SqlValue::Integer(s.done_count as i64),
                SqlValue::Integer(s.utterance_count as i64),
                SqlValue::Integer(s.translated_count as i64),
            ],
        ) == Some(s),
{
    let (a, b, c, d) = (s.segment_count, s.done_count, s.utterance_count, s.translated_count);
    assert((a as i64) as u32 == a);
    assert((b as i64) as u32 == b);
    assert((c as i64) as u32 == c);
    assert((d as i64) as u32 == d);
}

/// An utterance with its speaker is read from its row column by column: the
/// utterance, the label and the colour.
pub proof fn law_spoken_read_back<R: Copy>(s: UtteranceWithSpeaker<R>)
    ensures
        UtteranceWithSpeaker::<R>::of_row(
            seq![
                SqlValue::Integer(s.utterance.id),
                SqlValue::Integer(s.utterance.segment_id),
                SqlValue::Integer(s.utterance.index as i64),
                SqlValue::Real(s.utterance.start_sec),
                SqlValue::Real(s.utterance.end_sec),
                SqlValue::Text(s.utterance.text_thai),
                opt_text::<R>(s.utterance.text_ru),
                opt_integer::<R>(s.utterance.speaker_id),
                opt_real::<R>(s.utterance.confidence),
                opt_text::<R>(s.speaker_label),
                opt_text::<R>(s.speaker_color),
            ],
        ) == Some(s),
{
    let index = s.utterance.index;
    assert((index as i64) as u32 == index);
}

/// What is missing is stored as null, and null is read as missing; what is
/// there is stored and read as it is.
pub proof fn law_nulls<R>(text: String, n: i64, x: R)
    ensures
        opt_text::<R>(None) == SqlValue::<R>::Null,
        opt_text::<R>(Some(text)) == SqlValue::<R>::Text(text),
        opt_integer::<R>(None) == SqlValue::<R>::Null,
        opt_integer::<R>(Some(n)) == SqlValue::<R>::Integer(n),
        opt_real::<R>(None) == SqlValue::<R>::Null,
        opt_real::<R>(Some(x)) == SqlValue::<R>::Real(x),
        opt_text_at(seq![SqlValue::<R>::Null], 0) == Some(None::<String>),
        opt_integer_at(seq![SqlValue::<R>::Null], 0) == Some(None::<i64>),
        opt_real_at(seq![SqlValue::<R>::Null], 0) == Some(None::<R>),
        text_at(seq![SqlValue::<R>::Null], 0) is None,
        integer_at(seq![SqlValue::<R>::Null], 0) is None,
        real_at(seq![SqlValue::<R>::Null], 0) is None,
{
}

/// The answer to a question for many rows holds one item for each row, in the
/// order of the rows.
pub proof fn law_list_answers<R: Copy>(
    request: Request<R>,
    rows: Seq<Row<R>>,
    reply: Reply<R>,
    i: int,
)
    requires
        request.replies(rows, Ok::<Reply<R>, StoreError>(reply)),
        0 <= i < rows.len(),
    ensures
        match (request, reply) {
            (Request::Sessions, Reply::Sessions(v)) => v@.len() == rows.len()
                && <Session as FromRow<R>>::of_row(rows[i]@) == Some(v@[i]),
            (Request::Summaries, Reply::Summaries(v)) => v@.len() == rows.len()
                && <SessionSummary as FromRow<R>>::of_row(rows[i]@) == Some(v@[i]),
            (
                Request::SegmentsOfSession { .. } | Request::PendingSegments,
                Reply::Segments(v),
            ) => v@.len() == rows.len() && <Segment as FromRow<R>>::of_row(rows[i]@) == Some(v@[i]),
            (Request::SpeakersOfSession { .. }, Reply::Speakers(v)) => v@.len() == rows.len()
                && <Speaker as FromRow<R>>::of_row(rows[i]@) == Some(v@[i]),
            (Request::UtterancesOfSegment { .. }, Reply::Utterances(v)) => v@.len() == rows.len()
                && Utterance::<R>::of_row(rows[i]@) == Some(v@[i]),
            (
                Request::SpokenInSegment { .. } | Request::SpokenInSession { .. },
                Reply::Spoken(v),
            ) => v@.len() == rows.len() && UtteranceWithSpeaker::<R>::of_row(rows[i]@) == Some(
                v@[i],
            ),
            (
                Request::Sessions
                | Request::Summaries
                | Request::SegmentsOfSession { .. }
                | Request::PendingSegments
                | Request::SpeakersOfSession { .. }
                | Request::UtterancesOfSegment { .. }
                | Request::SpokenInSegment { .. }
                | Request::SpokenInSession { .. },
                _,
            ) => false,
            _ => true,
        },
{
    let row = rows[i];
}

/// The answer to a question for one row is what the first row stands for, and
/// none where there is no row; a new row is told by its id.
pub proof fn law_one_answers<R: Copy>(request: Request<R>, rows: Seq<Row<R>>, reply: Reply<R>)
    requires
        request.replies(rows, Ok::<Reply<R>, StoreError>(reply)),
    ensures
        match (request, reply) {
            (
                Request::SessionById { .. } | Request::SessionBySlug { .. },
                Reply::Session(found),
            ) => if rows.len() == 0 {
                found is None
            } else {
                found is Some && <Session as FromRow<R>>::of_row(rows[0]@) == found
            },
            (
                Request::SegmentById { .. } | Request::SegmentByFilename { .. },
                Reply::Segment(found),
            ) => if rows.len() == 0 {
                found is None
            } else {
                found is Some && <Segment as FromRow<R>>::of_row(rows[0]@) == found
            },
            (Request::SpeakerById { .. }, Reply::Speaker(found)) => if rows.len() == 0 {
                found is None
            } else {
                found is Some && <Speaker as FromRow<R>>::of_row(rows[0]@) == found
            },
            (Request::UtteranceById { .. }, Reply::Utterance(found)) => if rows.len() == 0 {
                found is None
            } else {
                found is Some && Utterance::<R>::of_row(rows[0]@) == found
            },
            (
                Request::InsertSegment { .. }
                | Request::InsertSpeaker { .. }
                | Request::InsertUtterance { .. },
                Reply::Id(id),
            ) => rows.len() > 0 && rows[0]@.len() > 0 && rows[0]@[0] == SqlValue::<R>::Integer(id),
            (
                Request::SessionById { .. }
                | Request::SessionBySlug { .. }
                | Request::SegmentById { .. }
                | Request::SegmentByFilename { .. }
                | Request::SpeakerById { .. }
                | Request::UtteranceById { .. }
                | Request::InsertSegment { .. }
                | Request::InsertSpeaker { .. }
                | Request::InsertUtterance { .. },
                _,
            ) => false,
            _ => true,
        },
{
}

/// A list of sessions is refused only where some row lacks the columns of a
/// session; so it is with the summaries.
pub proof fn law_rows_refused<R: Copy>(rows: Seq<Row<R>>, r: Result<Reply<R>, StoreError>)
    ensures
        (Request::<R>::Sessions).replies(rows, r) ==> (r is Err <==> exists|i: int|
            0 <= i < rows.len() && <Session as FromRow<R>>::of_row((#[trigger] rows[i])@) is None),
        (Request::<R>::Summaries).replies(rows, r) ==> (r is Err <==> exists|i: int|
            0 <= i < rows.len() && <SessionSummary as FromRow<R>>::of_row(
                (#[trigger] rows[i])@,
            ) is None),
{
}

/// A session is read from its row column by column.
pub proof fn law_session_columns<R: Copy>(s: Session)
    ensures
        <Session as FromRow<R>>::of_row(
            seq![
                SqlValue::Integer(s.id),
                SqlValue::Text(s.slug),
                SqlValue::Integer(s.created_at),
                opt_text::<R>(s.note),
            ],
        ) == Some(s),
{
}

/// A segment is read from its row column by column; the message of an error
/// behind them does not matter.
pub proof fn law_segment_columns<R: Copy>(s: Segment, word: String, message: Option<String>)
    requires
        word@ == s.transcription_status.word(),
        s.size_bytes matches Some(n) ==> n <= i64::MAX,
    ensures
        <Segment as FromRow<R>>::of_row(
            seq![
                SqlValue::Integer(s.id),
                SqlValue::Integer(s.session_id),
                SqlValue::Integer(s.index as i64),
                SqlValue::Text(s.filename),
                opt_integer::<R>(
                    match s.size_bytes {
                        Some(n) => Some(n as i64),
                        None => None,
                    },
                ),
                SqlValue::Integer(s.recorded_at),
                SqlValue::Text(word),
                opt_text::<R>(message),
            ],
        ) == Some(s),
{
    law_status_word(s.transcription_status);
    let index = s.index;
    assert((index as i64) as u32 == index);
    if let Some(n) = s.size_bytes {
        assert((n as i64) as u64 == n) by (bit_vector);
    }
}

/// A speaker is read from its row column by column.
pub proof fn law_speaker_columns<R: Copy>(s: Speaker)
    ensures
        <Speaker as FromRow<R>>::of_row(
            seq![
                SqlValue::Integer(s.id),
                SqlValue::Integer(s.session_id),
                SqlValue::Text(s.label),
                opt_text::<R>(s.color),
            ],
        ) == Some(s),
{
}

} // verus!
