use ghost::names::{segment_file_name, session_slug, short_name, split_name, FilenameError};
use ghost::service::parse_audio_filename;

#[test]
fn test_parse_audio_filename() {
    let (slug, idx) = parse_audio_filename("rec_1781616471_seg0001.webm").unwrap();
    assert_eq!(slug, "rec_1781616471");
    assert_eq!(idx, 1);

    let (slug, idx) = parse_audio_filename("cli_1781598604_seg0015.wav").unwrap();
    assert_eq!(slug, "cli_1781598604");
    assert_eq!(idx, 15);
}

#[test]
fn the_directory_and_the_extension_do_not_matter() {
    assert_eq!(
        parse_audio_filename("recordings/rec_1_seg0002.webm/").unwrap(),
        ("rec_1".to_string(), 2)
    );
    assert_eq!(parse_audio_filename("x_seg+7").unwrap(), ("x".to_string(), 7));
}

#[test]
fn names_of_another_shape_are_refused() {
    let none = parse_audio_filename("..").unwrap_err();
    assert_eq!(none, FilenameError::NoName);
    assert_eq!(none.message(".."), "Некорректное имя файла: ..");

    let shape = parse_audio_filename("a_seg1_seg2.wav").unwrap_err();
    assert_eq!(shape, FilenameError::Shape);
    assert_eq!(
        shape.message("a.wav"),
        "Имя файла должно быть вида {rec|cli}_TIMESTAMP_seg{INDEX}: a.wav"
    );
    assert_eq!(parse_audio_filename("notes.wav").unwrap_err(), FilenameError::Shape);

    let index = parse_audio_filename("rec_1_seg4294967296.wav").unwrap_err();
    assert_eq!(index, FilenameError::Index);
    assert_eq!(index.message("x"), "Индекс сегмента должен быть числом");
    assert_eq!(parse_audio_filename("rec_1_seg.wav").unwrap_err(), FilenameError::Index);
}

#[test]
fn the_name_of_a_segment_is_read_back() {
    let session = session_slug("rec", 1781616471);
    assert_eq!(session, "rec_1781616471");
    let name = segment_file_name(&session, 12, ".webm");
    assert_eq!(name, "rec_1781616471_seg0012.webm");
    assert_eq!(parse_audio_filename(&name).unwrap(), (session, 12));

    let name = segment_file_name("cli_7", 123456, ".wav");
    assert_eq!(name, "cli_7_seg123456.wav");
    assert_eq!(parse_audio_filename(&name).unwrap(), ("cli_7".to_string(), 123456));
}

#[test]
fn a_path_is_shown_by_its_name() {
    assert_eq!(short_name("recordings/rec_1_seg0001.webm"), "rec_1_seg0001.webm");
    assert_eq!(short_name("a/.."), "a/..");
}

#[test]
fn a_name_is_split_at_its_last_dot() {
    assert_eq!(split_name("a.b.wav"), ("a.b".to_string(), Some("wav".to_string()), false));
    assert_eq!(split_name(".wav"), (".wav".to_string(), None, true));
    assert_eq!(split_name("plain"), ("plain".to_string(), None, false));
}
