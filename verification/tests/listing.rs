use ghost::names::FilenameError;
use ghost::scan::{
    check_exit_signal, collect_audio_files, transcript_file, ScanAction, ScanEntry, ScanEvent,
    ScanMode, Tally, Watch, WatchAction, WatchEvent, WatchMode,
};
use ghost::service::{IngestError, IngestResult};
use ghost::transcripts::{list_transcripts, transcript_name, FoundFile};

fn found(name: &str, content: Option<&str>) -> FoundFile {
    FoundFile { name: name.to_string(), content: content.map(|t| t.to_string()) }
}

#[test]
fn recordings_are_listed_by_session() {
    let sessions = list_transcripts(vec![
        found("rec_1_seg0002.webm", Some("two")),
        found("cli_9_seg0001.wav", None),
        found("rec_1_seg0010.webm", Some("  \n")),
        found("rec_1_seg0001.webm", Some(" one \n")),
        found("rec_1_seg0001.txt", None),
        found("notes.md", Some("no")),
    ]);
    assert_eq!(sessions.len(), 2);
    assert_eq!(sessions[0].id, "rec_1");
    assert_eq!(sessions[1].id, "cli_9");
    let indices: Vec<u32> = sessions[0].segments.iter().map(|s| s.index).collect();
    assert_eq!(indices, vec![1, 2, 10]);
    assert_eq!(sessions[0].segments[0].filename, "rec_1_seg0001.webm");
    assert_eq!(sessions[0].segments[0].text.as_deref(), Some("one"));
    assert_eq!(sessions[0].segments[2].text, None);
    assert!(sessions[0].segments[2].has_audio);
    assert_eq!(sessions[0].total_text, "one\ntwo");
    assert_eq!(sessions[1].total_text, "");
}

#[test]
fn odd_names_are_listed_too() {
    let sessions = list_transcripts(vec![
        found("b.wav", Some("x")),
        found("a_seg1_seg2.wav", None),
        found("a_seg1_segx.wav", None),
        found("a_seg1_seg0.wav.wav", None),
    ]);
    assert_eq!(sessions[0].id, "b.wav");
    assert_eq!(sessions[0].segments[0].index, 0);
    assert_eq!(sessions[1].id, "a_seg1");
    let names: Vec<&str> = sessions[1].segments.iter().map(|s| s.filename.as_str()).collect();
    assert_eq!(names, vec!["a_seg1_segx.wav", "a_seg1_seg0.wav.wav", "a_seg1_seg2.wav"]);
}

#[test]
fn the_transcript_stands_beside_the_audio() {
    assert_eq!(
        transcript_name("rec_1781188527_seg0001.webm").unwrap(),
        "rec_1781188527_seg0001.txt"
    );
    assert_eq!(transcript_name("a.wav.wav").unwrap(), "a.txt.txt");
    assert_eq!(transcript_name("a.mp3"), None);
    assert_eq!(
        transcript_file("rec_1781188527_seg0001.webm").unwrap(),
        "rec_1781188527_seg0001.txt"
    );
    assert_eq!(transcript_file("a.wav.wav").unwrap(), "a.wav.txt");
    assert_eq!(transcript_file(".hidden.wav"), None);
    assert_eq!(transcript_file("a.txt"), None);
    assert_eq!(transcript_file("wav"), None);
}

#[test]
fn audio_files_with_a_transcript_are_collected_in_order() {
    let entry = |name: &str, has_txt: bool| ScanEntry { name: name.to_string(), has_txt };
    let pairs = collect_audio_files(vec![
        entry("rec_2_seg0001.webm", true),
        entry("rec_1_seg0002.webm", false),
        entry(".rec_1_seg0003.webm", true),
        entry("cli_1_seg0001.wav", true),
        entry("rec_1_seg0001.txt", true),
        entry("rec_10_seg0001.webm", true),
    ]);
    let expected: Vec<(String, String)> = vec![
        ("cli_1_seg0001.wav".to_string(), "cli_1_seg0001.txt".to_string()),
        ("rec_10_seg0001.webm".to_string(), "rec_10_seg0001.txt".to_string()),
        ("rec_2_seg0001.webm".to_string(), "rec_2_seg0001.txt".to_string()),
    ];
    assert_eq!(pairs, expected);
}

#[test]
fn results_are_counted() {
    let mut t = Tally::new();
    let ok = IngestResult::Ingested {
        session_slug: "rec_1".to_string(),
        segment_index: 1,
        segment_id: 5,
        utterance_count: 2,
    };
    assert!(!ok.is_skipped());
    assert_eq!(ok.segment_id(), 5);
    let skipped = IngestResult::Skipped { reason: "x".to_string(), segment_id: 6 };
    assert!(skipped.is_skipped());
    assert_eq!(skipped.segment_id(), 6);
    t.count(&Ok(ok));
    t.count(&Ok(skipped));
    t.count(&Err(IngestError::Filename(FilenameError::Shape)));
    t.count(&Err(IngestError::Filename(FilenameError::Index)));
    assert_eq!(t, Tally { ok: 1, skip: 1, err: 2 });
}

#[test]
fn a_watched_file_is_taken_in_once() {
    let mut w = Watch::new();
    assert!(!w.lets_in("a.wav", false));
    assert!(w.lets_in("a.wav", true));
    assert!(!w.lets_in("a.wav", true));
    assert!(w.lets_in("b.wav", true));
}

#[test]
fn enter_is_the_exit_signal() {
    assert!(check_exit_signal(true));
    assert!(!check_exit_signal(false));
}

fn entries(files: &[(&str, bool)]) -> Vec<ScanEntry> {
    files.iter().map(|&(name, has_txt)| ScanEntry { name: name.to_string(), has_txt }).collect()
}

fn listed(files: &[(&str, bool)]) -> WatchEvent {
    WatchEvent::Listed { entries: entries(files) }
}

fn looks_at(action: WatchAction, file: &str) -> bool {
    matches!(action, WatchAction::Look { name, .. } if name == file)
}

fn ingests(action: WatchAction, file: &str, transcript: &str) -> bool {
    matches!(action, WatchAction::Ingest { name, txt } if name == file && txt == transcript)
}

#[test]
fn watch_mode_takes_each_file_in_once() {
    let mut mode = WatchMode::new();
    assert!(matches!(mode.next(WatchEvent::Woke { pressed: false }), WatchAction::Poll));
    let files = [("b.webm", true), ("a.wav", true), (".c.wav", true), ("d.wav", false)];
    assert!(looks_at(mode.next(listed(&files)), "a.wav"));
    // The transcript of the first file has gone since the listing.
    assert!(looks_at(mode.next(WatchEvent::Looked { has_txt: false }), "b.webm"));
    assert!(ingests(mode.next(WatchEvent::Looked { has_txt: true }), "b.webm", "b.txt"));
    // A failure does not end the mode.
    assert!(matches!(mode.next(WatchEvent::Ingested { failed: true }), WatchAction::Sleep));
    assert!(matches!(mode.next(WatchEvent::Woke { pressed: false }), WatchAction::Poll));
    assert!(looks_at(mode.next(listed(&files)), "a.wav"));
    assert!(ingests(mode.next(WatchEvent::Looked { has_txt: true }), "a.wav", "a.txt"));
    assert!(looks_at(mode.next(WatchEvent::Ingested { failed: false }), "b.webm"));
    assert!(matches!(mode.next(WatchEvent::Looked { has_txt: true }), WatchAction::Sleep));
}

#[test]
fn watch_mode_ends_on_enter_and_where_the_directory_cannot_be_read() {
    let mut mode = WatchMode::new();
    assert!(matches!(mode.next(WatchEvent::Woke { pressed: false }), WatchAction::Poll));
    assert!(matches!(mode.next(listed(&[])), WatchAction::Sleep));
    assert!(matches!(mode.next(WatchEvent::Woke { pressed: true }), WatchAction::Stop));
    let mut mode = WatchMode::new();
    assert!(matches!(mode.next(WatchEvent::Woke { pressed: false }), WatchAction::Poll));
    assert!(matches!(mode.next(WatchEvent::Unreadable), WatchAction::Fail));
}

fn hands_out(action: ScanAction, at: usize, file: &str, transcript: &str) -> bool {
    matches!(
        action,
        ScanAction::Ingest { number, name, txt }
            if number == at && name == file && txt == transcript
    )
}

#[test]
fn a_scan_takes_every_file_in_once_and_counts_what_came_of_it() {
    let mut mode = ScanMode::new();
    let files = [("b.webm", true), ("c.wav", true), ("a.wav", true), ("d.wav", false), ("e", true)];
    let first = mode.next(ScanEvent::Listed { entries: entries(&files) });
    assert!(hands_out(first, 1, "a.wav", "a.txt"));
    assert_eq!(mode.found(), 3);
    // A failure does not stop the scan.
    let failed = Err(IngestError::Filename(FilenameError::Shape));
    let second = mode.next(ScanEvent::Ingested { result: failed });
    assert!(hands_out(second, 2, "b.webm", "b.txt"));
    let skipped = Ok(IngestResult::Skipped { reason: "x".to_string(), segment_id: 6 });
    let third = mode.next(ScanEvent::Ingested { result: skipped });
    assert!(hands_out(third, 3, "c.wav", "c.txt"));
    let ok = Ok(IngestResult::Ingested {
        session_slug: "rec_1".to_string(),
        segment_index: 1,
        segment_id: 5,
        utterance_count: 2,
    });
    match mode.next(ScanEvent::Ingested { result: ok }) {
        ScanAction::Report { tally } => assert_eq!(tally, Tally { ok: 1, skip: 1, err: 1 }),
        other => panic!("no report: {other:?}"),
    }
}

#[test]
fn a_scan_ends_at_once_without_files_and_where_the_directory_cannot_be_read() {
    let mut mode = ScanMode::new();
    let files = [("notes.txt", true), ("a.wav", false)];
    let event = ScanEvent::Listed { entries: entries(&files) };
    assert!(matches!(mode.next(event), ScanAction::Empty));
    assert_eq!(mode.found(), 0);
    assert!(matches!(ScanMode::new().next(ScanEvent::Unreadable), ScanAction::Fail));
}
