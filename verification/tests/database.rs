use ghost::parse::Millis;
use ghost::repository::{Outcome, Step};
use ghost::rows::FromRow;
use ghost::service::{IngestError, IngestStep};
use ghost::store::{Missing, Reply, Request, Row as StoredRow, SqlValue, StoreError};
use ghost::{
    AssignSpeaker, IngestResult, IngestService, NewSegment, NewSession, NewSpeaker, NewUtterance,
    Repository, SegmentService, Session, SessionService, Speaker, TranscriptionStatus,
    UpdateTranslation, Utterance, UtteranceService,
};
use sqlx::sqlite::{SqliteConnectOptions, SqliteConnection, SqliteRow};
use sqlx::{ConnectOptions, Row, TypeInfo, ValueRef};

/// How real numbers are kept.
trait Number: Copy {
    fn stored(self) -> f64;
    fn read(x: f64) -> Self;
}

impl Number for f64 {
    fn stored(self) -> f64 {
        self
    }
    fn read(x: f64) -> f64 {
        x
    }
}

impl Number for Millis {
    fn stored(self) -> f64 {
        self as f64 / 1000.0
    }
    fn read(x: f64) -> Millis {
        (x * 1000.0).round() as Millis
    }
}

fn runtime() -> tokio::runtime::Runtime {
    tokio::runtime::Runtime::new().unwrap()
}

async fn connect() -> SqliteConnection {
    SqliteConnectOptions::new().in_memory(true).foreign_keys(true).connect().await.unwrap()
}

fn columns<R: Number>(row: &SqliteRow) -> StoredRow<R> {
    let mut out: StoredRow<R> = Vec::new();
    for i in 0..row.len() {
        let raw = row.try_get_raw(i).unwrap();
        let value = if raw.is_null() {
            SqlValue::Null
        } else {
            match raw.type_info().name() {
                "INTEGER" => SqlValue::Integer(row.get(i)),
                "REAL" => SqlValue::Real(R::read(row.get(i))),
                _ => SqlValue::Text(row.get(i)),
            }
        };
        out.push(value);
    }
    out
}

async fn carry_out<R: Number>(
    db: &mut SqliteConnection,
    request: &Request<R>,
) -> Result<Reply<R>, StoreError> {
    let statement = request.statement();
    let mut query = sqlx::query(statement.sql);
    for arg in &statement.args {
        query = match arg {
            SqlValue::Null => query.bind(None::<i64>),
            SqlValue::Integer(n) => query.bind(*n),
            SqlValue::Real(x) => query.bind(x.stored()),
            SqlValue::Text(t) => query.bind(t.clone()),
        };
    }
    let rows = match query.fetch_all(&mut *db).await {
        Ok(rows) => rows,
        Err(e) => return Err(StoreError::Database(e.to_string())),
    };
    let rows: Vec<StoredRow<R>> = rows.iter().map(|r| columns(r)).collect();
    request.reply(&rows)
}

/// Runs the operation; a transaction that it leaves open is rolled back.
async fn run<R: Number>(
    db: &mut SqliteConnection,
    step: Step<R>,
) -> Result<Outcome<R>, StoreError> {
    let mut step = step;
    let mut begun = false;
    loop {
        match step {
            Step::Ask { request, task } => {
                let reply = carry_out(db, &request).await;
                if reply.is_ok() {
                    match request {
                        Request::Begin => begun = true,
                        Request::Commit => begun = false,
                        _ => {}
                    }
                }
                step = task.resume(reply);
            }
            Step::Finish(result) => {
                if begun {
                    sqlx::query("ROLLBACK").execute(&mut *db).await.unwrap();
                }
                return result;
            }
        }
    }
}

async fn ingest(
    db: &mut SqliteConnection,
    name: &str,
    content: Option<&str>,
) -> Result<IngestResult, IngestError> {
    let service = IngestService::new(Repository::new());
    let mut step = service.ingest_audio_with_transcript(
        name.to_string(),
        "recordings/x.txt".to_string(),
        2048,
        1000,
        2000,
    );
    loop {
        match step {
            IngestStep::Ask { request, state } => {
                let reply = carry_out(db, &request).await;
                step = state.resume(reply);
            }
            IngestStep::ReadTranscript { state } => {
                step = state.transcript(content.map(|t| t.to_string()));
            }
            IngestStep::Finish(result) => return result,
        }
    }
}

async fn prepared() -> SqliteConnection {
    let mut db = connect().await;
    let done = run::<f64>(&mut db, Repository::new().migrate()).await.unwrap();
    assert!(matches!(done, Outcome::Reply(Reply::Done)));
    db
}

fn session(outcome: Outcome<f64>) -> Option<Session> {
    match outcome {
        Outcome::Reply(Reply::Session(s)) => s,
        other => panic!("no session: {other:?}"),
    }
}

async fn new_session(db: &mut SqliteConnection, slug: &str, now: i64) -> Session {
    let data = NewSession { slug: slug.to_string(), note: Some("n".to_string()) };
    session(run::<f64>(db, Repository::new().create_session(&data, now)).await.unwrap()).unwrap()
}

async fn new_segment(db: &mut SqliteConnection, session_id: i64, index: u32) -> i64 {
    let data = NewSegment {
        session_id,
        index,
        filename: format!("s{session_id}_seg{index:04}.webm"),
        size_bytes: Some(u64::MAX),
        recorded_at: 100 - index as i64,
    };
    match run::<f64>(db, Repository::new().create_segment(&data)).await.unwrap() {
        Outcome::Reply(Reply::Segment(Some(s))) => {
            assert_eq!(s.size_bytes, Some(u64::MAX));
            assert_eq!(s.transcription_status, TranscriptionStatus::Pending);
            s.id
        }
        other => panic!("no segment: {other:?}"),
    }
}

fn new_utterance(segment_id: i64, index: u32, text: &str) -> NewUtterance<f64> {
    NewUtterance {
        segment_id,
        index,
        start_sec: index as f64 + 0.5,
        end_sec: index as f64 + 1.25,
        text_thai: text.to_string(),
        speaker_id: None,
        confidence: Some(0.75),
    }
}

async fn replace(
    db: &mut SqliteConnection,
    segment_id: i64,
    texts: Vec<NewUtterance<f64>>,
) -> Vec<Utterance<f64>> {
    let step = Repository::new().replace_utterances_for_segment(segment_id, texts);
    match run(db, step).await.unwrap() {
        Outcome::Reply(Reply::Utterances(v)) => v,
        other => panic!("no utterances: {other:?}"),
    }
}

#[test]
fn a_session_is_created_once() {
    runtime().block_on(async {
        let mut db = prepared().await;
        run::<f64>(&mut db, Repository::new().migrate()).await.unwrap();
        let first = new_session(&mut db, "rec_1", 10).await;
        let again = new_session(&mut db, "rec_1", 99).await;
        assert_eq!(again.id, first.id);
        assert_eq!(again.created_at, 10);
        assert_eq!(again.note.as_deref(), Some("n"));

        let service = SessionService::new(Repository::new());
        let slug = "rec_1".to_string();
        let found = run::<f64>(&mut db, service.get_or_create_session(&slug, 5)).await.unwrap();
        assert_eq!(session(found).unwrap().id, first.id);
        let slug = "cli_2".to_string();
        let made = run::<f64>(&mut db, service.get_or_create_session(&slug, 5)).await.unwrap();
        let made = session(made).unwrap();
        assert_eq!((made.created_at, made.note), (5, None));
    });
}

#[test]
fn sessions_are_read_and_changed() {
    runtime().block_on(async {
        let mut db = prepared().await;
        let repo = Repository::new();
        let old = new_session(&mut db, "rec_1", 10).await;
        let new = new_session(&mut db, "rec_2", 20).await;
        match run::<f64>(&mut db, repo.list_sessions()).await.unwrap() {
            Outcome::Reply(Reply::Sessions(v)) => {
                let slugs: Vec<&str> = v.iter().map(|s| s.slug.as_str()).collect();
                assert_eq!(slugs, vec!["rec_2", "rec_1"]);
            }
            other => panic!("no sessions: {other:?}"),
        }
        let service = SessionService::new(repo);
        run::<f64>(&mut db, service.update_note(old.id, None)).await.unwrap();
        let found = run::<f64>(&mut db, repo.get_session(old.id)).await.unwrap();
        assert_eq!(session(found).unwrap().note, None);
        let found = run::<f64>(&mut db, repo.get_session_by_slug(&"rec_2".to_string())).await;
        assert_eq!(session(found.unwrap()).unwrap().id, new.id);
        let found = run::<f64>(&mut db, repo.get_session(77)).await.unwrap();
        assert!(session(found).is_none());
    });
}

#[test]
fn segments_are_read_and_changed() {
    runtime().block_on(async {
        let mut db = prepared().await;
        let repo = Repository::new();
        let service = SegmentService::new(repo);
        let s = new_session(&mut db, "rec_1", 10).await;
        let b = new_segment(&mut db, s.id, 2).await;
        let a = new_segment(&mut db, s.id, 1).await;
        let ids = |o: Outcome<f64>| match o {
            Outcome::Reply(Reply::Segments(v)) => v.iter().map(|x| x.id).collect::<Vec<i64>>(),
            other => panic!("no segments: {other:?}"),
        };
        let listed = run(&mut db, repo.list_segments_for_session(s.id)).await.unwrap();
        assert_eq!(ids(listed), vec![a, b]);
        let pending = run(&mut db, repo.list_pending_segments()).await.unwrap();
        assert_eq!(ids(pending), vec![b, a]);

        run::<f64>(&mut db, service.set_status(a, TranscriptionStatus::Processing)).await.unwrap();
        run::<f64>(&mut db, service.set_status_with_error(b, "bad".to_string())).await.unwrap();
        let pending = run(&mut db, repo.list_pending_segments()).await.unwrap();
        assert!(ids(pending).is_empty());
        match run::<f64>(&mut db, repo.get_segment(a)).await.unwrap() {
            Outcome::Reply(Reply::Segment(Some(x))) => {
                assert_eq!(x.transcription_status, TranscriptionStatus::Processing);
                assert_eq!(x.index, 1);
            }
            other => panic!("no segment: {other:?}"),
        }
        let name = format!("s{}_seg0002.webm", s.id);
        match run::<f64>(&mut db, service.get_segment_by_filename(&name)).await.unwrap() {
            Outcome::Reply(Reply::Segment(Some(x))) => {
                assert_eq!(x.id, b);
                assert_eq!(x.transcription_status, TranscriptionStatus::Error);
            }
            other => panic!("no segment: {other:?}"),
        }
        // Back among those that wait, and no others.
        let waits = TranscriptionStatus::Pending;
        run::<f64>(&mut db, repo.set_transcription_status(a, waits, None)).await.unwrap();
        run::<f64>(&mut db, repo.set_transcription_status(777, waits, None)).await.unwrap();
        let pending = run(&mut db, repo.list_pending_segments()).await.unwrap();
        assert_eq!(ids(pending), vec![a]);
    });
}

#[test]
fn a_refused_statement_is_an_error() {
    runtime().block_on(async {
        let mut db = prepared().await;
        let data = NewSegment {
            session_id: 5,
            index: 1,
            filename: "a".to_string(),
            size_bytes: None,
            recorded_at: 0,
        };
        let e = run::<f64>(&mut db, Repository::new().create_segment(&data)).await.unwrap_err();
        assert!(matches!(&e, StoreError::Database(m) if m.contains("FOREIGN KEY")));
        assert!(e.message().contains("FOREIGN KEY"));
    });
}

async fn texts_of(db: &mut SqliteConnection, segment_id: i64) -> Vec<(i64, u32, String)> {
    let step = Repository::new().list_utterances_for_segment(segment_id);
    match run::<f64>(db, step).await.unwrap() {
        Outcome::Reply(Reply::Utterances(v)) => {
            v.into_iter().map(|u| (u.id, u.index, u.text_thai)).collect()
        }
        other => panic!("no utterances: {other:?}"),
    }
}

#[test]
fn a_refused_replacement_changes_nothing() {
    runtime().block_on(async {
        let mut db = prepared().await;
        let s = new_session(&mut db, "rec_1", 10).await;
        let a = new_segment(&mut db, s.id, 1).await;
        let b = new_segment(&mut db, s.id, 2).await;
        replace(&mut db, b, vec![new_utterance(b, 0, "other")]).await;
        replace(&mut db, a, vec![new_utterance(a, 0, "old"), new_utterance(a, 1, "older")]).await;
        let before = (texts_of(&mut db, a).await, texts_of(&mut db, b).await);
        assert_eq!(before.0.len(), 2);

        let mut unknown_speaker = new_utterance(a, 1, "y");
        unknown_speaker.speaker_id = Some(777);
        let cases = vec![
            // Two claim one place.
            vec![new_utterance(a, 0, "x"), new_utterance(a, 0, "y")],
            // The place is taken in another segment.
            vec![new_utterance(a, 0, "x"), new_utterance(b, 0, "y")],
            // There is no such segment.
            vec![new_utterance(a, 0, "x"), new_utterance(777, 0, "y")],
            // There is no such speaker.
            vec![new_utterance(a, 0, "x"), unknown_speaker],
        ];
        for utterances in cases {
            let step = Repository::new().replace_utterances_for_segment(a, utterances);
            assert!(matches!(run(&mut db, step).await, Err(StoreError::Database(_))));
            assert_eq!(before, (texts_of(&mut db, a).await, texts_of(&mut db, b).await));
        }

        let v = replace(&mut db, a, vec![new_utterance(a, 0, "new")]).await;
        assert_eq!(v.len(), 1);
        let now = texts_of(&mut db, a).await;
        assert_eq!(now, vec![(v[0].id, 0, "new".to_string())]);
        assert_eq!(before.1, texts_of(&mut db, b).await);
    });
}

#[test]
fn utterances_are_replaced_in_one_go() {
    runtime().block_on(async {
        let mut db = prepared().await;
        let repo = Repository::new();
        let s = new_session(&mut db, "rec_1", 10).await;
        let a = new_segment(&mut db, s.id, 1).await;
        let b = new_segment(&mut db, s.id, 2).await;
        replace(&mut db, b, vec![new_utterance(b, 0, "kept")]).await;
        replace(&mut db, a, vec![new_utterance(a, 0, "old"), new_utterance(a, 1, "older")]).await;
        let texts = vec![new_utterance(a, 0, "x"), new_utterance(a, 1, "y")];
        let v = replace(&mut db, a, texts).await;
        assert_eq!(v.len(), 2);
        assert_eq!((v[1].index, v[1].text_thai.as_str()), (1, "y"));
        assert_eq!((v[1].start_sec, v[1].end_sec), (1.5, 2.25));
        assert_eq!(v[1].confidence, Some(0.75));
        match run::<f64>(&mut db, repo.list_utterances_for_segment(a)).await.unwrap() {
            Outcome::Reply(Reply::Utterances(all)) => {
                let ids: Vec<i64> = all.iter().map(|u| u.id).collect();
                assert_eq!(ids, vec![v[0].id, v[1].id]);
            }
            other => panic!("no utterances: {other:?}"),
        }
        match run::<f64>(&mut db, repo.list_utterances_for_segment(b)).await.unwrap() {
            Outcome::Reply(Reply::Utterances(all)) => assert_eq!(all[0].text_thai, "kept"),
            other => panic!("no utterances: {other:?}"),
        }
        match run::<f64>(&mut db, repo.create_utterance(new_utterance(b, 7, "one more"))).await {
            Ok(Outcome::Reply(Reply::Utterance(Some(u)))) => assert_eq!(u.index, 7),
            other => panic!("no utterance: {other:?}"),
        }
    });
}

#[test]
fn translations_and_speakers_are_set() {
    runtime().block_on(async {
        let mut db = prepared().await;
        let repo = Repository::new();
        let s = new_session(&mut db, "rec_1", 10).await;
        let a = new_segment(&mut db, s.id, 1).await;
        let u = replace(&mut db, a, vec![new_utterance(a, 0, "x")]).await;
        let speaker = NewSpeaker {
            session_id: s.id,
            label: "Клиент".to_string(),
            color: Some("#4f8ef7".to_string()),
        };
        let speaker: Speaker = match run::<f64>(&mut db, repo.create_speaker(&speaker)).await {
            Ok(Outcome::Reply(Reply::Speaker(Some(p)))) => p,
            other => panic!("no speaker: {other:?}"),
        };
        assert_eq!(speaker.label, "Клиент");

        let data = UpdateTranslation { text_ru: Some("да".to_string()) };
        match run::<f64>(&mut db, repo.update_translation(u[0].id, &data)).await.unwrap() {
            Outcome::Reply(Reply::Utterance(Some(x))) => {
                assert_eq!(x.text_ru.as_deref(), Some("да"));
                assert_eq!(x.text_thai, "x");
            }
            other => panic!("no utterance: {other:?}"),
        }
        let data = AssignSpeaker { speaker_id: Some(speaker.id) };
        match run::<f64>(&mut db, repo.assign_speaker(u[0].id, &data)).await.unwrap() {
            Outcome::Reply(Reply::Utterance(Some(x))) => {
                assert_eq!(x.speaker_id, Some(speaker.id));
            }
            other => panic!("no utterance: {other:?}"),
        }
        run::<f64>(&mut db, repo.update_speaker_label(speaker.id, "A".to_string())).await.unwrap();
        run::<f64>(&mut db, repo.update_speaker_color(speaker.id, None)).await.unwrap();
        match run::<f64>(&mut db, repo.get_segment_with_utterances(a)).await.unwrap() {
            Outcome::Segment(Some(shown)) => {
                assert_eq!(shown.segment.id, a);
                assert_eq!(shown.utterances[0].speaker_label.as_deref(), Some("A"));
                assert_eq!(shown.utterances[0].speaker_color, None);
            }
            other => panic!("no segment: {other:?}"),
        }
        run::<f64>(&mut db, repo.delete_speaker(speaker.id)).await.unwrap();
        match run::<f64>(&mut db, repo.get_utterance(u[0].id)).await.unwrap() {
            Outcome::Reply(Reply::Utterance(Some(x))) => assert_eq!(x.speaker_id, None),
            other => panic!("no utterance: {other:?}"),
        }
        match run::<f64>(&mut db, repo.get_speaker(speaker.id)).await.unwrap() {
            Outcome::Reply(Reply::Speaker(p)) => assert!(p.is_none()),
            other => panic!("no answer: {other:?}"),
        }

        let service = UtteranceService::new(repo);
        let e = run::<f64>(&mut db, service.update_translation(999, None)).await.unwrap_err();
        assert!(matches!(e, StoreError::Missing(Missing::Translated)));
        assert_eq!(e.message(), "Utterance не найдена после обновления перевода");
        let e = run::<f64>(&mut db, service.assign_speaker(999, None)).await.unwrap_err();
        assert!(matches!(e, StoreError::Missing(Missing::Assigned)));
    });
}

#[test]
fn a_session_is_shown_with_all_that_belongs_to_it() {
    runtime().block_on(async {
        let mut db = prepared().await;
        let repo = Repository::new();
        let s = new_session(&mut db, "rec_1", 10).await;
        let b = new_segment(&mut db, s.id, 2).await;
        let a = new_segment(&mut db, s.id, 1).await;
        replace(&mut db, b, vec![new_utterance(b, 0, "three")]).await;
        let texts = vec![new_utterance(a, 1, "two"), new_utterance(a, 0, "one")];
        let v = replace(&mut db, a, texts).await;
        let data = UpdateTranslation { text_ru: Some("два".to_string()) };
        run::<f64>(&mut db, repo.update_translation(v[0].id, &data)).await.unwrap();
        run::<f64>(&mut db, repo.set_transcription_status(a, TranscriptionStatus::Done, None))
            .await
            .unwrap();

        let service = SessionService::new(repo);
        let detail = match run::<f64>(&mut db, service.get_session_detail(s.id)).await.unwrap() {
            Outcome::Session(Some(d)) => d,
            other => panic!("no session: {other:?}"),
        };
        assert_eq!(detail.session.slug, "rec_1");
        let ids: Vec<i64> = detail.segments.iter().map(|x| x.segment.id).collect();
        assert_eq!(ids, vec![a, b]);
        let first: Vec<&str> =
            detail.segments[0].utterances.iter().map(|u| u.utterance.text_thai.as_str()).collect();
        assert_eq!(first, vec!["one", "two"]);
        assert_eq!(detail.total_text_thai, "one\ntwo\nthree");
        assert_eq!(detail.total_text_ru.as_deref(), Some("два"));
        assert!(detail.speakers.is_empty());

        match run::<f64>(&mut db, service.list_sessions_summary()).await.unwrap() {
            Outcome::Reply(Reply::Summaries(v)) => {
                assert_eq!((v[0].segment_count, v[0].done_count), (2, 1));
                assert_eq!((v[0].utterance_count, v[0].translated_count), (3, 1));
            }
            other => panic!("no summaries: {other:?}"),
        }

        run::<f64>(&mut db, service.delete_session(s.id)).await.unwrap();
        let gone = run::<f64>(&mut db, service.get_session_detail(s.id)).await.unwrap();
        assert!(matches!(gone, Outcome::Session(None)));
        let gone = run::<f64>(&mut db, repo.get_segment_with_utterances(a)).await.unwrap();
        assert!(matches!(gone, Outcome::Segment(None)));
        match run::<f64>(&mut db, repo.get_utterance(v[0].id)).await.unwrap() {
            Outcome::Reply(Reply::Utterance(u)) => assert!(u.is_none()),
            other => panic!("no answer: {other:?}"),
        }
    });
}

#[test]
fn speakers_are_listed_in_the_order_of_their_creation() {
    runtime().block_on(async {
        let mut db = prepared().await;
        let repo = Repository::new();
        let s = new_session(&mut db, "rec_1", 10).await;
        for label in ["b", "a"] {
            let data = NewSpeaker { session_id: s.id, label: label.to_string(), color: None };
            run::<f64>(&mut db, repo.create_speaker(&data)).await.unwrap();
        }
        match run::<f64>(&mut db, repo.list_speakers_for_session(s.id)).await.unwrap() {
            Outcome::Reply(Reply::Speakers(v)) => {
                let labels: Vec<&str> = v.iter().map(|p| p.label.as_str()).collect();
                assert_eq!(labels, vec!["b", "a"]);
            }
            other => panic!("no speakers: {other:?}"),
        }
        match run::<f64>(&mut db, repo.get_session_detail(s.id)).await.unwrap() {
            Outcome::Session(Some(detail)) => {
                let labels: Vec<&str> = detail.speakers.iter().map(|p| p.label.as_str()).collect();
                assert_eq!(labels, vec!["b", "a"]);
                assert_eq!(detail.total_text_thai, "");
                assert_eq!(detail.total_text_ru, None);
            }
            other => panic!("no session: {other:?}"),
        }
    });
}

#[test]
fn a_segment_is_ingested_once() {
    runtime().block_on(async {
        let mut db = prepared().await;
        let repo = Repository::new();
        let name = "rec_1234567890_seg0001.webm";
        let text = "[00:00] Test text\n[00:07] more";
        let first = ingest(&mut db, name, Some(text)).await.unwrap();
        let id = match &first {
            IngestResult::Ingested { session_slug, segment_index, segment_id, utterance_count } => {
                assert_eq!(session_slug, "rec_1234567890");
                assert_eq!((*segment_index, *utterance_count), (1, 2));
                *segment_id
            }
            other => panic!("not ingested: {other:?}"),
        };
        match run::<f64>(&mut db, repo.get_segment_with_utterances(id)).await.unwrap() {
            Outcome::Segment(Some(shown)) => {
                assert_eq!(shown.segment.filename, name);
                assert_eq!(shown.segment.size_bytes, Some(2048));
                assert_eq!(shown.segment.recorded_at, 1000);
                assert_eq!(shown.segment.transcription_status, TranscriptionStatus::Done);
                let u = &shown.utterances[0].utterance;
                assert_eq!((u.index, u.start_sec, u.end_sec), (0, 0.0, 7.0));
                let u = &shown.utterances[1].utterance;
                assert_eq!((u.index, u.start_sec, u.end_sec), (1, 7.0, 12.0));
                assert_eq!(u.text_thai, "more");
                assert_eq!((u.speaker_id, u.confidence), (None, None));
            }
            other => panic!("no segment: {other:?}"),
        }
        let again = ingest(&mut db, name, Some("[00:00] other")).await.unwrap();
        match &again {
            IngestResult::Skipped { reason, segment_id } => {
                assert_eq!(reason, "Сегмент уже в БД");
                assert_eq!(*segment_id, id);
            }
            other => panic!("not skipped: {other:?}"),
        }
        let second = ingest(&mut db, "rec_1234567890_seg0002.webm", Some("")).await.unwrap();
        assert!(matches!(second, IngestResult::Ingested { utterance_count: 0, .. }));
        match run::<f64>(&mut db, repo.list_sessions()).await.unwrap() {
            Outcome::Reply(Reply::Sessions(v)) => {
                assert_eq!(v.len(), 1);
                assert_eq!(v[0].created_at, 2000);
            }
            other => panic!("no sessions: {other:?}"),
        }
    });
}

#[test]
fn a_segment_without_a_transcript_is_noted() {
    runtime().block_on(async {
        let mut db = prepared().await;
        let name = "cli_1_seg0001.wav";
        let e = ingest(&mut db, name, None).await.unwrap_err();
        assert_eq!(e.message(name), "Не удалось прочитать recordings/x.txt");
        let row: (String, String) =
            sqlx::query_as("SELECT transcription_status, error_message FROM segments")
                .fetch_one(&mut db)
                .await
                .unwrap();
        assert_eq!(row.0, "error");
        assert_eq!(row.1, "Ошибка парсинга txt: Не удалось прочитать recordings/x.txt");
        assert!(ingest(&mut db, name, Some("[00:00] x")).await.unwrap().is_skipped());

        let name = "cli_1_seg0002.wav";
        let e = ingest(&mut db, name, Some("[๑:00] x")).await.unwrap_err();
        assert_eq!(e.message(name), "Некорректное число минут");
    });
}

#[test]
fn a_file_of_another_name_is_not_ingested() {
    runtime().block_on(async {
        let mut db = connect().await;
        let e = ingest(&mut db, "notes.wav", None).await.unwrap_err();
        assert!(matches!(e, IngestError::Filename(_)));
        let e = ingest(&mut db, "rec_1_seg0001.wav", None).await.unwrap_err();
        assert!(matches!(&e, IngestError::Store(StoreError::Database(_))));
        assert!(e.message("x").contains("no such table"));
    });
}

#[test]
fn an_answer_of_another_kind_is_an_error() {
    let repo = Repository::new();
    let resumed = |step: Step<f64>, reply: Reply<f64>| match step {
        Step::Ask { task, .. } => task.resume(Ok(reply)),
        done => done,
    };
    match resumed(repo.get_session_detail(1), Reply::Done) {
        Step::Finish(Err(e)) => {
            assert!(matches!(e, StoreError::Unexpected));
            assert_eq!(e.message(), "Неожиданный ответ БД");
        }
        other => panic!("no error: {other:?}"),
    }
    let data = NewSession { slug: "a".to_string(), note: None };
    match resumed(repo.create_session(&data, 0), Reply::Done) {
        Step::Ask { task, .. } => match task.resume(Ok(Reply::Session(None))) {
            Step::Finish(Err(e)) => {
                assert_eq!(e.message(), "Сессия не найдена после вставки");
            }
            other => panic!("no error: {other:?}"),
        },
        other => panic!("no request: {other:?}"),
    }
}

#[test]
fn rows_without_their_columns_are_an_error() {
    let request: Request<f64> = Request::SessionById { id: 1 };
    let rows: Vec<StoredRow<f64>> = vec![vec![SqlValue::Integer(1), SqlValue::Null]];
    let e = request.reply(&rows).unwrap_err();
    assert!(matches!(e, StoreError::Row));
    assert_eq!(e.message(), "Некорректная строка БД");
    let none: Vec<StoredRow<f64>> = Vec::new();
    assert!(matches!(request.reply(&none), Ok(Reply::Session(None))));
    let insert: Request<f64> = Request::InsertSpeaker {
        speaker: NewSpeaker { session_id: 1, label: "a".to_string(), color: None },
    };
    assert!(matches!(insert.reply(&none), Err(StoreError::Row)));
    let list: Request<f64> = Request::Sessions;
    assert!(matches!(list.reply(&rows), Err(StoreError::Row)));
}

#[test]
fn unknown_words_stand_for_a_pending_segment() {
    let row: StoredRow<f64> = vec![
        SqlValue::Integer(1),
        SqlValue::Integer(2),
        SqlValue::Integer(3),
        SqlValue::Text("f".to_string()),
        SqlValue::Integer(-1),
        SqlValue::Integer(4),
        SqlValue::Text("lost".to_string()),
    ];
    let segment: ghost::Segment = FromRow::from_row(&row).unwrap();
    assert_eq!(segment.transcription_status, TranscriptionStatus::Pending);
    assert_eq!(segment.size_bytes, Some(u64::MAX));
    for status in [
        TranscriptionStatus::Pending,
        TranscriptionStatus::Processing,
        TranscriptionStatus::Done,
        TranscriptionStatus::Error,
    ] {
        assert_eq!(TranscriptionStatus::from_word(&status.to_word()), status);
    }
}
