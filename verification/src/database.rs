//! The tables, and the statements that read and write them.

use vstd::prelude::*;

use crate::text::ends_in;

verus! {

/// Creates the tables where they do not exist yet.
pub const SCHEMA: &'static str = "
CREATE TABLE IF NOT EXISTS sessions (
    id          INTEGER PRIMARY KEY AUTOINCREMENT,
    slug        TEXT    NOT NULL UNIQUE,
    created_at  INTEGER NOT NULL,
    note        TEXT
);

CREATE TABLE IF NOT EXISTS segments (
    id                    INTEGER PRIMARY KEY AUTOINCREMENT,
    session_id            INTEGER NOT NULL REFERENCES sessions(id) ON DELETE CASCADE,
    idx                   INTEGER NOT NULL,
    filename              TEXT    NOT NULL UNIQUE,
    size_bytes            INTEGER,
    recorded_at           INTEGER NOT NULL,
    transcription_status  TEXT    NOT NULL DEFAULT 'pending'
        CHECK(transcription_status IN ('pending','processing','done','error')),
    error_message         TEXT,
    UNIQUE(session_id, idx)
);
CREATE INDEX IF NOT EXISTS idx_segments_session ON segments(session_id);

CREATE TABLE IF NOT EXISTS speakers (
    id          INTEGER PRIMARY KEY AUTOINCREMENT,
    session_id  INTEGER NOT NULL REFERENCES sessions(id) ON DELETE CASCADE,
    label       TEXT    NOT NULL,
    color       TEXT
);
CREATE INDEX IF NOT EXISTS idx_speakers_session ON speakers(session_id);

CREATE TABLE IF NOT EXISTS utterances (
    id          INTEGER PRIMARY KEY AUTOINCREMENT,
    segment_id  INTEGER NOT NULL REFERENCES segments(id) ON DELETE CASCADE,
    idx         INTEGER NOT NULL,
    start_sec   REAL    NOT NULL,
    end_sec     REAL    NOT NULL,
    text_thai   TEXT    NOT NULL,
    text_ru     TEXT,
    speaker_id  INTEGER REFERENCES speakers(id) ON DELETE SET NULL,
    confidence  REAL,
    UNIQUE(segment_id, idx)
);
CREATE INDEX IF NOT EXISTS idx_utterances_segment  ON utterances(segment_id);
CREATE INDEX IF NOT EXISTS idx_utterances_speaker  ON utterances(speaker_id);
";

pub const BEGIN: &'static str = "BEGIN";

pub const COMMIT: &'static str = "COMMIT";

// Sessions.
pub const INSERT_SESSION: &'static str =
    "INSERT OR IGNORE INTO sessions (slug, created_at, note) VALUES (?1, ?2, ?3)";

pub const SESSION_BY_ID: &'static str =
    "SELECT id, slug, created_at, note FROM sessions WHERE id = ?1";

pub const SESSION_BY_SLUG: &'static str =
    "SELECT id, slug, created_at, note FROM sessions WHERE slug = ?1";

pub const SESSIONS: &'static str =
    "SELECT id, slug, created_at, note FROM sessions ORDER BY created_at DESC";

pub const SET_SESSION_NOTE: &'static str = "UPDATE sessions SET note = ?1 WHERE id = ?2";

pub const DELETE_SESSION: &'static str = "DELETE FROM sessions WHERE id = ?1";

pub const SUMMARIES: &'static str = "SELECT
         s.id,
         s.slug,
         s.created_at,
         s.note,
         COUNT(DISTINCT sg.id)                                   AS segment_count,
         COUNT(DISTINCT CASE WHEN sg.transcription_status = 'done'
                             THEN sg.id END)                     AS done_count,
         COUNT(u.id)                                             AS utterance_count,
         COUNT(CASE WHEN u.text_ru IS NOT NULL THEN 1 END)       AS translated_count
       FROM sessions s
       LEFT JOIN segments   sg ON sg.session_id = s.id
       LEFT JOIN utterances u  ON u.segment_id  = sg.id
       GROUP BY s.id
       ORDER BY s.created_at DESC";

// Segments.
pub const INSERT_SEGMENT: &'static str =
    "INSERT INTO segments (session_id, idx, filename, size_bytes, recorded_at, transcription_status)
       VALUES (?1, ?2, ?3, ?4, ?5, 'pending')
       RETURNING id";

pub const SEGMENT_BY_ID: &'static str =
    "SELECT id, session_id, idx, filename, size_bytes, recorded_at, transcription_status,
              error_message
       FROM segments WHERE id = ?1";

pub const SEGMENT_BY_FILENAME: &'static str =
    "SELECT id, session_id, idx, filename, size_bytes, recorded_at, transcription_status,
              error_message
       FROM segments WHERE filename = ?1";

pub const SEGMENTS_OF_SESSION: &'static str =
    "SELECT id, session_id, idx, filename, size_bytes, recorded_at, transcription_status,
              error_message
       FROM segments WHERE session_id = ?1 ORDER BY idx";

pub const PENDING_SEGMENTS: &'static str =
    "SELECT id, session_id, idx, filename, size_bytes, recorded_at, transcription_status,
              error_message
       FROM segments WHERE transcription_status = 'pending' ORDER BY recorded_at";

pub const SET_SEGMENT_STATUS: &'static str =
    "UPDATE segments SET transcription_status = ?1, error_message = ?2 WHERE id = ?3";

// Speakers.
pub const INSERT_SPEAKER: &'static str =
    "INSERT INTO speakers (session_id, label, color) VALUES (?1, ?2, ?3) RETURNING id";

pub const SPEAKER_BY_ID: &'static str =
    "SELECT id, session_id, label, color FROM speakers WHERE id = ?1";

pub const SPEAKERS_OF_SESSION: &'static str =
    "SELECT id, session_id, label, color FROM speakers WHERE session_id = ?1 ORDER BY id";

pub const SET_SPEAKER_LABEL: &'static str = "UPDATE speakers SET label = ?1 WHERE id = ?2";

pub const SET_SPEAKER_COLOR: &'static str = "UPDATE speakers SET color = ?1 WHERE id = ?2";

pub const DELETE_SPEAKER: &'static str = "DELETE FROM speakers WHERE id = ?1";

// Utterances.
pub const INSERT_UTTERANCE: &'static str = "INSERT INTO utterances
       (segment_id, idx, start_sec, end_sec, text_thai, speaker_id, confidence)
       VALUES (?1, ?2, ?3, ?4, ?5, ?6, ?7)
       RETURNING id";

pub const DELETE_UTTERANCES: &'static str = "DELETE FROM utterances WHERE segment_id = ?1";

pub const UTTERANCE_BY_ID: &'static str =
    "SELECT id, segment_id, idx, start_sec, end_sec, text_thai, text_ru, speaker_id, confidence
       FROM utterances WHERE id = ?1";

pub const UTTERANCES_OF_SEGMENT: &'static str =
    "SELECT id, segment_id, idx, start_sec, end_sec, text_thai, text_ru, speaker_id, confidence
       FROM utterances WHERE segment_id = ?1 ORDER BY idx";

pub const SET_TRANSLATION: &'static str = "UPDATE utterances SET text_ru = ?1 WHERE id = ?2";

pub const SET_UTTERANCE_SPEAKER: &'static str =
    "UPDATE utterances SET speaker_id = ?1 WHERE id = ?2";

pub const SPOKEN_IN_SEGMENT: &'static str = "SELECT u.id, u.segment_id, u.idx, u.start_sec, u.end_sec,
              u.text_thai, u.text_ru, u.speaker_id, u.confidence,
              sp.label AS speaker_label,
              sp.color AS speaker_color
       FROM utterances u
       LEFT JOIN speakers sp ON sp.id = u.speaker_id
       WHERE u.segment_id = ?1
       ORDER BY u.idx";

pub const SPOKEN_IN_SESSION: &'static str = "SELECT u.id, u.segment_id, u.idx, u.start_sec, u.end_sec,
              u.text_thai, u.text_ru, u.speaker_id, u.confidence,
              sp.label AS speaker_label,
              sp.color AS speaker_color
       FROM utterances u
       JOIN segments s ON s.id = u.segment_id
       LEFT JOIN speakers sp ON sp.id = u.speaker_id
       WHERE s.session_id = ?1
       ORDER BY s.idx, u.idx";

/// The rows of every list come in the order that is promised for it. (What a
/// constant holds is known by its literal alone.)
pub proof fn law_lists_ordered()
    ensures
        ends_in(SESSIONS@, "ORDER BY created_at DESC"@),
        ends_in(SUMMARIES@, "ORDER BY s.created_at DESC"@),
        ends_in(SEGMENTS_OF_SESSION@, "ORDER BY idx"@),
        ends_in(PENDING_SEGMENTS@, "ORDER BY recorded_at"@),
        ends_in(SPEAKERS_OF_SESSION@, "ORDER BY id"@),
        ends_in(UTTERANCES_OF_SEGMENT@, "ORDER BY idx"@),
        ends_in(SPOKEN_IN_SEGMENT@, "ORDER BY u.idx"@),
        ends_in(SPOKEN_IN_SESSION@, "ORDER BY s.idx, u.idx"@),
{
    reveal_strlit("SELECT id, slug, created_at, note FROM sessions ORDER BY created_at DESC");
    reveal_strlit("ORDER BY created_at DESC");
    assert(SESSIONS@.skip(SESSIONS@.len() - "ORDER BY created_at DESC"@.len()) =~= "ORDER BY created_at DESC"@);
    reveal_strlit("SELECT
         s.id,
         s.slug,
         s.created_at,
         s.note,
         COUNT(DISTINCT sg.id)                                   AS segment_count,
         COUNT(DISTINCT CASE WHEN sg.transcription_status = 'done'
                             THEN sg.id END)                     AS done_count,
         COUNT(u.id)                                             AS utterance_count,
         COUNT(CASE WHEN u.text_ru IS NOT NULL THEN 1 END)       AS translated_count
       FROM sessions s
       LEFT JOIN segments   sg ON sg.session_id = s.id
       LEFT JOIN utterances u  ON u.segment_id  = sg.id
       GROUP BY s.id
       ORDER BY s.created_at DESC");
    reveal_strlit("ORDER BY s.created_at DESC");
    assert(SUMMARIES@.skip(SUMMARIES@.len() - "ORDER BY s.created_at DESC"@.len()) =~= "ORDER BY s.created_at DESC"@);
    reveal_strlit("SELECT id, session_id, idx, filename, size_bytes, recorded_at, transcription_status,
              error_message
       FROM segments WHERE session_id = ?1 ORDER BY idx");
    reveal_strlit("ORDER BY idx");
    assert(SEGMENTS_OF_SESSION@.skip(SEGMENTS_OF_SESSION@.len() - "ORDER BY idx"@.len()) =~= "ORDER BY idx"@);
    reveal_strlit("SELECT id, session_id, idx, filename, size_bytes, recorded_at, transcription_status,
              error_message
       FROM segments WHERE transcription_status = 'pending' ORDER BY recorded_at");
    reveal_strlit("ORDER BY recorded_at");
    assert(PENDING_SEGMENTS@.skip(PENDING_SEGMENTS@.len() - "ORDER BY recorded_at"@.len()) =~= "ORDER BY recorded_at"@);
    reveal_strlit("SELECT id, session_id, label, color FROM speakers WHERE session_id = ?1 ORDER BY id");
    reveal_strlit("ORDER BY id");
    assert(SPEAKERS_OF_SESSION@.skip(SPEAKERS_OF_SESSION@.len() - "ORDER BY id"@.len()) =~= "ORDER BY id"@);
    reveal_strlit("SELECT id, segment_id, idx, start_sec, end_sec, text_thai, text_ru, speaker_id, confidence
       FROM utterances WHERE segment_id = ?1 ORDER BY idx");
    reveal_strlit("ORDER BY idx");
    assert(UTTERANCES_OF_SEGMENT@.skip(UTTERANCES_OF_SEGMENT@.len() - "ORDER BY idx"@.len()) =~= "ORDER BY idx"@);
    reveal_strlit("SELECT u.id, u.segment_id, u.idx, u.start_sec, u.end_sec,
              u.text_thai, u.text_ru, u.speaker_id, u.confidence,
              sp.label AS speaker_label,
              sp.color AS speaker_color
       FROM utterances u
       LEFT JOIN speakers sp ON sp.id = u.speaker_id
       WHERE u.segment_id = ?1
       ORDER BY u.idx");
    reveal_strlit("ORDER BY u.idx");
    assert(SPOKEN_IN_SEGMENT@.skip(SPOKEN_IN_SEGMENT@.len() - "ORDER BY u.idx"@.len()) =~= "ORDER BY u.idx"@);
    reveal_strlit("SELECT u.id, u.segment_id, u.idx, u.start_sec, u.end_sec,
              u.text_thai, u.text_ru, u.speaker_id, u.confidence,
              sp.label AS speaker_label,
              sp.color AS speaker_color
       FROM utterances u
       JOIN segments s ON s.id = u.segment_id
       LEFT JOIN speakers sp ON sp.id = u.speaker_id
       WHERE s.session_id = ?1
       ORDER BY s.idx, u.idx");
    reveal_strlit("ORDER BY s.idx, u.idx");
    assert(SPOKEN_IN_SESSION@.skip(SPOKEN_IN_SESSION@.len() - "ORDER BY s.idx, u.idx"@.len()) =~= "ORDER BY s.idx, u.idx"@);
}

} // verus!
