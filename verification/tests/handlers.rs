use ghost::handler::{
    ask_speaker, ask_translation, assign_speaker_to_utterance, delete_session, get_segment,
    get_session, health, list_sessions, update_utterance_translation, AssignSpeakerPayload,
    TranslationUpdate,
};
use ghost::repository::{Outcome, Step, Task};
use ghost::store::{Missing, Reply, Request, StoreError};
use ghost::{
    ApiError, Repository, Segment, SegmentWithUtterances, SessionSummary, SharedState,
    TranscriptionStatus,
};

fn broken() -> Result<Outcome<f64>, StoreError> {
    Err(StoreError::Database("disk full".to_string()))
}

#[test]
fn errors_have_their_status() {
    assert_eq!(ApiError::not_found("a".to_string()).status, 404);
    assert_eq!(ApiError::bad_request("b".to_string()).status, 400);
    let e = ApiError::internal_error("c".to_string());
    assert_eq!((e.status, e.message.as_str()), (500, "c"));
}

#[test]
fn sessions_are_listed() {
    let summary = SessionSummary {
        id: 1,
        slug: "rec_1".to_string(),
        created_at: 2,
        note: None,
        segment_count: 3,
        done_count: 2,
        utterance_count: 9,
        translated_count: 4,
    };
    let found: Result<Outcome<f64>, StoreError> =
        Ok(Outcome::Reply(Reply::Summaries(vec![summary])));
    assert_eq!(list_sessions(found).unwrap()[0].utterance_count, 9);
    let e = list_sessions(broken()).unwrap_err();
    assert_eq!((e.status, e.message.as_str()), (500, "Ошибка БД: disk full"));
    let odd = list_sessions::<f64>(Ok(Outcome::Reply(Reply::Done))).unwrap_err();
    assert_eq!(odd.message, "Ошибка БД: Неожиданный ответ БД");
}

#[test]
fn a_session_that_is_not_there_is_not_found() {
    let e = get_session::<f64>(-7, Ok(Outcome::Session(None))).unwrap_err();
    assert_eq!((e.status, e.message.as_str()), (404, "Сессия -7 не найдена"));
    let e = get_session(7, broken()).unwrap_err();
    assert_eq!((e.status, e.message.as_str()), (500, "Ошибка БД: disk full"));
}

#[test]
fn a_segment_is_shown_or_not_found() {
    let e = get_segment::<f64>(12, Ok(Outcome::Segment(None))).unwrap_err();
    assert_eq!((e.status, e.message.as_str()), (404, "Сегмент 12 не найден"));
    let segment = Segment {
        id: 12,
        session_id: 1,
        index: 3,
        filename: "rec_1_seg0003.webm".to_string(),
        size_bytes: None,
        recorded_at: 0,
        transcription_status: TranscriptionStatus::Done,
    };
    let found = SegmentWithUtterances::<f64> { segment, utterances: Vec::new() };
    let shown = get_segment(12, Ok(Outcome::Segment(Some(found)))).unwrap();
    assert_eq!(shown.segment.index, 3);
}

#[test]
fn changes_are_answered_with_a_status() {
    let done = || -> Result<Outcome<f64>, StoreError> { Ok(Outcome::Reply(Reply::Done)) };
    assert_eq!(delete_session(done()).unwrap(), 204);
    assert_eq!(update_utterance_translation(done()).unwrap(), 200);
    assert_eq!(assign_speaker_to_utterance(done()).unwrap(), 200);
    assert_eq!(health(), 200);
    assert_eq!(delete_session(broken()).unwrap_err().message, "Ошибка удаления: disk full");
    assert_eq!(
        update_utterance_translation(broken()).unwrap_err().message,
        "Ошибка обновления: disk full"
    );
    let missing: Result<Outcome<f64>, StoreError> = Err(StoreError::Missing(Missing::Assigned));
    assert_eq!(
        assign_speaker_to_utterance(missing).unwrap_err().message,
        "Ошибка назначения: Utterance не найдена после назначения спикера"
    );
}

#[test]
fn the_bodies_of_changes_are_asked_of_the_database() {
    let state = SharedState { repo: Repository::new() };
    let payload = TranslationUpdate { text_ru: Some("да".to_string()) };
    match ask_translation::<f64>(&state, 4, payload) {
        Step::Ask {
            request: Request::SetTranslation { id, text_ru },
            task: Task::ReadChanged { id: read, change },
        } => {
            assert_eq!((id, read), (4, 4));
            assert_eq!(text_ru.as_deref(), Some("да"));
            assert_eq!(change, Missing::Translated);
        }
        other => panic!("another request: {other:?}"),
    }
    match ask_speaker::<f64>(&state, 4, AssignSpeakerPayload { speaker_id: Some(9) }) {
        Step::Ask { request: Request::SetUtteranceSpeaker { id, speaker_id }, .. } => {
            assert_eq!((id, speaker_id), (4, Some(9)));
        }
        other => panic!("another request: {other:?}"),
    }
}
