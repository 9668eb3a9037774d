use ghost::parse::{ParseError, TranscriptError};
use ghost::{parse_whisper_content, parse_whisper_txt, WhisperUtterance};

fn start_sec(u: &WhisperUtterance) -> f64 {
    u.start_ms as f64 / 1000.0
}

fn end_sec(u: &WhisperUtterance) -> f64 {
    u.end_ms as f64 / 1000.0
}

#[test]
fn test_parse_whisper_empty() {
    let result = parse_whisper_content("").unwrap();
    assert!(result.is_empty());
}

#[test]
fn test_parse_whisper_single_line() {
    let content = "[00:00] เอาอ่ะ แล้วยังไงอ่ะแล้ว";
    let result = parse_whisper_content(content).unwrap();
    assert_eq!(result.len(), 1);
    assert_eq!(start_sec(&result[0]), 0.0);
    assert_eq!(result[0].text_thai, "เอาอ่ะ แล้วยังไงอ่ะแล้ว");
}

#[test]
fn test_parse_whisper_multiple_lines() {
    let content = r#"[00:00] เอาอ่ะ แล้วยังไงอ่ะแล้ว
[00:38] ยาตัวเองโดยการที่ไป
[01:09] กูก็เป็นแต่ก็น้อยไง
[01:39] มันนานแล้วเหมือนกัน"#;

    let result = parse_whisper_content(content).unwrap();
    assert_eq!(result.len(), 4);

    assert_eq!(start_sec(&result[0]), 0.0);
    assert_eq!(end_sec(&result[0]), 38.0);
    assert_eq!(result[0].text_thai, "เอาอ่ะ แล้วยังไงอ่ะแล้ว");

    assert_eq!(start_sec(&result[1]), 38.0);
    assert_eq!(end_sec(&result[1]), 69.0);
    assert_eq!(result[1].text_thai, "ยาตัวเองโดยการที่ไป");

    assert_eq!(start_sec(&result[3]), 99.0);
    assert!(end_sec(&result[3]) >= 5.0);
}

#[test]
fn test_parse_whisper_with_timestamps() {
    let content = "[00:00] Hello\n[00:05] World\n[01:30] Test";
    let result = parse_whisper_content(content).unwrap();

    assert_eq!(start_sec(&result[0]), 0.0);
    assert_eq!(end_sec(&result[0]), 5.0);

    assert_eq!(start_sec(&result[1]), 5.0);
    assert_eq!(end_sec(&result[1]), 90.0);

    assert_eq!(start_sec(&result[2]), 90.0);
}

#[test]
fn test_parse_whisper_ignores_empty_lines() {
    let content = r#"[00:00] First


[00:10] Second"#;
    let result = parse_whisper_content(content).unwrap();
    assert_eq!(result.len(), 2);
    assert_eq!(result[0].text_thai, "First");
    assert_eq!(result[1].text_thai, "Second");
}

#[test]
fn lines_without_a_stamp_are_passed_over() {
    let content = "header\n[00:01] one\n[1:2] bad seconds\n[00:02]no space\n[00:03]   \n  [7:08]\t two \r\n";
    let result = parse_whisper_content(content).unwrap();
    assert_eq!(result.len(), 2);
    assert_eq!(result[0].start_ms, 1_000);
    assert_eq!(result[0].text_thai, "one");
    assert_eq!(result[1].start_ms, 428_000);
    assert_eq!(result[1].text_thai, "two");
}

#[test]
fn the_minutes_take_two_digits_at_most() {
    let result = parse_whisper_content("[99:99] late\n[100:00] too late").unwrap();
    assert_eq!(result.len(), 1);
    assert_eq!(result[0].start_ms, 6_039_000);
}

#[test]
fn the_last_utterance_ends_after_the_time_it_takes_to_say() {
    let short = parse_whisper_content("[01:00] a b c").unwrap();
    assert_eq!(short[0].end_ms, 65_000);
    let long = parse_whisper_content("[01:00] a b c d e f g h i j k l m").unwrap();
    assert_eq!(long[0].end_ms, 65_200);
}

#[test]
fn digits_of_another_script_are_refused() {
    let minutes = parse_whisper_content("[00:00] one\n[๐๑:00] two");
    assert!(matches!(minutes, Err(ParseError::Minutes)));
    let seconds = parse_whisper_content("[00:๐๑] one");
    assert!(matches!(seconds, Err(ParseError::Seconds)));
    assert_eq!(ParseError::Minutes.message(), "Некорректное число минут");
    assert_eq!(ParseError::Seconds.message(), "Некорректное число секунд");
}

#[test]
fn a_transcript_is_read_from_the_text_of_its_file() {
    let text = Some("[00:02] hello".to_string());
    let result = parse_whisper_txt("a.txt".to_string(), text).unwrap();
    assert_eq!(result[0].start_ms, 2_000);

    let missing = parse_whisper_txt("recordings/a.txt".to_string(), None).unwrap_err();
    assert_eq!(missing.message(), "Не удалось прочитать recordings/a.txt");

    let bad = parse_whisper_txt("a.txt".to_string(), Some("[๑:00] x".to_string())).unwrap_err();
    assert!(matches!(bad, TranscriptError::Parse(ParseError::Minutes)));
    assert_eq!(bad.message(), "Некорректное число минут");
}
