use ghost::recorder::{
    file_saved, Next, RawSegment, RecorderState, SegmentFile, SocketEvent, Source,
};

const SECOND: u128 = 1_000_000_000;

fn webm(tail: &[u8]) -> Vec<u8> {
    let mut v = vec![0x1A, 0x45, 0xDF, 0xA3];
    v.extend_from_slice(tail);
    v
}

fn binary(data: Vec<u8>, seconds: u128) -> SocketEvent {
    SocketEvent::Binary { data, now: seconds * SECOND }
}

fn written(next: Next) -> SegmentFile {
    match next {
        Next::Write { file } => file,
        other => panic!("no file to write: {other:?}"),
    }
}

fn browser() -> RecorderState {
    RecorderState::new(Source::Browser, "rec_17".to_string(), 0)
}

#[test]
fn the_start_of_a_webm_file_is_recognised() {
    assert!(RecorderState::starts_with_ebml(&[0x1A, 0x45, 0xDF, 0xA3]));
    assert!(!RecorderState::starts_with_ebml(&[0x1A, 0x45, 0xDF]));
    assert!(!RecorderState::starts_with_ebml(&[0x1A, 0x45, 0xDF, 0xA4, 0]));
}

#[test]
fn segments_of_two_minutes_are_saved() {
    let mut st = browser();
    assert!(matches!(st.receive(binary(webm(b"head"), 1)), Next::Receive));
    assert!(matches!(st.receive(binary(b"abc".to_vec(), 119)), Next::Receive));

    let first = written(st.receive(binary(b"def".to_vec(), 120)));
    assert_eq!(first.path, "recordings/rec_17_seg0001.webm");
    assert_eq!(first.name, "rec_17_seg0001.webm");
    assert_eq!(first.data, webm(b"headabcdef"));
    assert!(!first.last);

    match st.saved(&first, true, 121 * SECOND) {
        Next::Send { text } => assert_eq!(
            text,
            r#"{"type":"file_saved","filename":"rec_17_seg0001.webm","size_kb":0}"#
        ),
        other => panic!("no message: {other:?}"),
    }
    assert!(matches!(st.sent(true), Next::Receive));

    assert!(matches!(st.receive(binary(b"g".to_vec(), 240)), Next::Receive));
    let second = written(st.receive(binary(b"h".to_vec(), 241)));
    assert_eq!(second.name, "rec_17_seg0002.webm");
    assert_eq!(second.data, webm(b"headgh"));
}

#[test]
fn no_audio_is_lost_and_every_file_is_playable() {
    let mut st = browser();
    let chunks: Vec<Vec<u8>> = vec![webm(b"1"), b"22".to_vec(), b"333".to_vec(), b"4".to_vec()];
    let mut audio: Vec<u8> = Vec::new();
    let mut saved: Vec<u8> = Vec::new();
    let mut names: Vec<String> = Vec::new();
    for (i, chunk) in chunks.iter().enumerate() {
        audio.extend_from_slice(chunk);
        let next = st.receive(binary(chunk.clone(), 130 * (i as u128 + 1)));
        let file = written(next);
        assert!(RecorderState::starts_with_ebml(&file.data));
        let part = if i == 0 { &file.data[..] } else { &file.data[webm(b"1").len()..] };
        saved.extend_from_slice(part);
        names.push(file.name.clone());
        st.saved(&file, true, 130 * (i as u128 + 1) * SECOND);
        st.sent(true);
    }
    assert_eq!(saved, audio);
    for (i, name) in names.iter().enumerate() {
        assert_eq!(*name, format!("rec_17_seg{:04}.webm", i + 1));
    }
}

#[test]
fn a_stream_without_a_header_is_saved_as_it_comes() {
    let mut st = browser();
    st.receive(binary(b"raw".to_vec(), 1));
    let file = written(st.receive(SocketEvent::Gone));
    assert_eq!(file.data, b"raw".to_vec());
    assert!(file.last);
    assert!(matches!(st.saved(&file, true, SECOND), Next::End));
}

#[test]
fn the_end_without_audio_saves_nothing() {
    let mut st = browser();
    assert!(matches!(st.receive(SocketEvent::Gone), Next::End));
    assert!(matches!(st.receive(binary(Vec::new(), 500)), Next::Receive));
}

#[test]
fn a_file_that_cannot_be_written_is_dropped_and_its_number_is_used_up() {
    let mut st = browser();
    let lost = written(st.receive(binary(b"a".to_vec(), 120)));
    assert!(matches!(st.saved(&lost, false, 121 * SECOND), Next::Receive));
    // The clock was not set back, so the next piece is saved at once.
    let next = written(st.receive(binary(b"b".to_vec(), 122)));
    assert_eq!(next.name, "rec_17_seg0002.webm");
    assert_eq!(next.data, b"b".to_vec());
    let mut last = next;
    last.last = true;
    assert!(matches!(st.saved(&last, false, 0), Next::End));
}

#[test]
fn a_client_that_is_gone_ends_the_recording() {
    let mut st = browser();
    let file = written(st.receive(binary(b"a".to_vec(), 120)));
    assert!(matches!(st.saved(&file, true, 121 * SECOND), Next::Send { .. }));
    assert!(matches!(st.sent(false), Next::End));
}

#[test]
fn pings_are_answered_and_other_messages_passed_over() {
    let mut st = browser();
    match st.receive(SocketEvent::Ping { payload: vec![1, 2] }) {
        Next::Pong { payload } => assert_eq!(payload, vec![1, 2]),
        other => panic!("no pong: {other:?}"),
    }
    assert!(matches!(st.receive(SocketEvent::Other), Next::Receive));
    assert!(st.has_room());
}

#[test]
fn the_message_tells_the_name_and_the_size() {
    assert_eq!(
        file_saved("a.wav", 12),
        r#"{"type":"file_saved","filename":"a.wav","size_kb":12}"#
    );
}

#[test]
fn sources_have_their_names() {
    let console = Source::console(Some(&"48000".to_string()), Some(&"2".to_string()));
    assert_eq!(console, Source::Console { sample_rate: 48000, channels: 2 });
    let plain = Source::console(None, Some(&"70000".to_string()));
    assert_eq!(plain, Source::Console { sample_rate: 16000, channels: 1 });
    assert_eq!(console.session_prefix(), "cli");
    assert_eq!(console.file_ending(), ".wav");
    assert_eq!(Source::Browser.session_prefix(), "rec");
    assert_eq!(Source::Browser.file_ending(), ".webm");
}

#[test]
fn samples_of_a_console_client_are_converted_and_saved() {
    let source = Source::Console { sample_rate: 16000, channels: 1 };
    let mut st = RecorderState::new(source, "cli_5".to_string(), 0);
    let mut bytes: Vec<u8> = Vec::new();
    bytes.extend_from_slice(&1.0f32.to_le_bytes());
    bytes.extend_from_slice(&(-0.5f32).to_le_bytes());
    bytes.push(7);
    st.receive(SocketEvent::Binary { data: bytes, now: 1 });
    let segment: RawSegment = match st.receive(SocketEvent::Gone) {
        Next::Convert { segment } => segment,
        other => panic!("nothing to convert: {other:?}"),
    };
    let bits = segment.sample_bits();
    assert_eq!(bits, vec![1.0f32.to_bits(), (-0.5f32).to_bits()]);
    assert_eq!(segment.path, "recordings/cli_5_seg0001.wav");

    let file = segment.encode(&vec![32767, -2]);
    assert_eq!(file.name, "cli_5_seg0001.wav");
    assert_eq!(file.data.len(), 48);
    assert_eq!(&file.data[44..], &[0xFF, 0x7F, 0xFE, 0xFF]);
    assert!(file.last);
}

#[test]
fn the_size_in_the_message_is_in_kibibytes() {
    let mut st = browser();
    let file = written(st.receive(binary(vec![9; 5000], 120)));
    match st.saved(&file, true, 0) {
        Next::Send { text } => assert!(text.ends_with("\"size_kb\":4}")),
        other => panic!("no message: {other:?}"),
    }
}
