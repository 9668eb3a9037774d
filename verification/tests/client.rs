use ghost::client::{
    command_of, pcm_url, read_command, read_saved, samples_per_flush, use_insecure, vu_bar,
    Accumulator, ClientAction, Command, MicEvent,
};
use ghost::recorder::{file_saved, RawSegment};

#[test]
fn the_address_names_the_rate_and_the_channels() {
    assert_eq!(
        pcm_url("wss://127.0.0.1:3005", 48000, 2),
        "wss://127.0.0.1:3005/ws/audio-pcm?sr=48000&ch=2"
    );
}

#[test]
fn any_certificate_is_accepted_from_this_machine() {
    assert!(use_insecure(false, "wss://127.0.0.1:3005"));
    assert!(use_insecure(false, "wss://localhost"));
    assert!(use_insecure(true, "wss://example.org"));
    assert!(!use_insecure(false, "wss://example.org"));
}

#[test]
fn the_message_about_a_saved_file_is_read() {
    let text = file_saved("cli_5_seg0001.wav", 375);
    let read = read_saved(&text).unwrap();
    assert_eq!(read, ("cli_5_seg0001.wav".to_string(), "375".to_string()));
}

#[test]
fn what_is_missing_in_a_message_is_a_question_mark() {
    assert_eq!(read_saved("file_saved").unwrap(), ("?".to_string(), "?".to_string()));
    assert_eq!(read_saved(r#"{"type":"hello"}"#), None);
    let odd = r#"file_saved "size_kb":12"size_kb":34} "filename":"x"#;
    assert_eq!(read_saved(odd).unwrap(), ("x".to_string(), "12".to_string()));
    let first = r#"{"size_kb":7,"filename":"a","type":"file_saved"}"#;
    assert_eq!(read_saved(first).unwrap(), ("a".to_string(), "7".to_string()));
}

#[test]
fn a_quarter_of_a_second_is_sent_at_once() {
    assert_eq!(samples_per_flush(16000, 1), 4000);
    assert_eq!(samples_per_flush(44100, 2), 22050);
    assert_eq!(samples_per_flush(3, 1), 0);
}

#[test]
fn no_sample_is_lost_on_the_way() {
    let mut a = Accumulator::new(3);
    let mut sent: Vec<u8> = Vec::new();
    let mut all: Vec<u32> = Vec::new();
    for chunk in [vec![1u32, 2], vec![0x01020304, 4, 5], vec![6]] {
        all.extend_from_slice(&chunk);
        match a.next(MicEvent::Samples(chunk)) {
            ClientAction::Send(bytes) => sent.extend_from_slice(&bytes),
            ClientAction::Listen => {}
            ClientAction::Close(_) => unreachable!(),
        }
    }
    assert_eq!(sent.len(), 20);
    assert_eq!(&sent[8..12], &[4, 3, 2, 1]);
    assert!(matches!(a.next(MicEvent::Quiet), ClientAction::Listen));
    match a.next(MicEvent::Stopped) {
        ClientAction::Close(Some(rest)) => sent.extend_from_slice(&rest),
        other => panic!("samples are left: {other:?}"),
    }
    let expected: Vec<u8> = all.iter().flat_map(|n| n.to_le_bytes()).collect();
    assert_eq!(sent, expected);
    assert!(matches!(a.next(MicEvent::SendFailed), ClientAction::Close(None)));
}

#[test]
fn the_server_reads_the_samples_that_the_client_sends() {
    let samples: Vec<u32> = vec![0, 1, 0x80000000, u32::MAX, 1.5f32.to_bits()];
    let mut a = Accumulator::new(1);
    let bytes = a.take_in(samples.clone()).unwrap();
    assert_eq!(bytes.len(), 20);
    assert_eq!(a.finish(), None);
    let segment = RawSegment {
        path: String::new(),
        name: String::new(),
        bytes,
        sample_rate: 16000,
        channels: 1,
        last: true,
    };
    assert_eq!(segment.sample_bits(), samples);
}

#[test]
fn lines_of_the_user_are_commands() {
    assert_eq!(read_command("  Q \n", false), Command::Quit { stop: false });
    assert_eq!(read_command("Exit", true), Command::Quit { stop: true });
    assert_eq!(read_command("QUIT", false), Command::Quit { stop: false });
    assert_eq!(read_command("", false), Command::Start);
    assert_eq!(read_command("", true), Command::Stop);
    assert_eq!(read_command("quite", true), Command::Stop);
}

#[test]
fn words_in_lower_case_are_commands() {
    assert_eq!(command_of("exit", false), Command::Quit { stop: false });
    assert_eq!(command_of("EXIT", false), Command::Start);
}

#[test]
fn the_meter_has_thirty_places() {
    assert_eq!(vu_bar(0), "░".repeat(30));
    assert_eq!(vu_bar(2), format!("██{}", "░".repeat(28)));
    assert_eq!(vu_bar(99), "█".repeat(30));
}
