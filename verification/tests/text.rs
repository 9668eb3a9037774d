use ghost::number::{decimal_text, parse_u16, parse_u32, signed_text};
use ghost::text::{
    ends_with, field_behind, finds, join, part_at_last, place, replace, split_lines, strip, trim,
    word_count, Place,
};

#[test]
fn numbers_are_read_as_rust_reads_them() {
    for text in ["0", "+7", "0012", "4294967295", "4294967296", "", "+", "-1", " 1", "1a", "๑"] {
        assert_eq!(parse_u32(text), text.parse::<u32>().ok(), "{text}");
        assert_eq!(parse_u16(text), text.parse::<u16>().ok(), "{text}");
    }
    assert_eq!(parse_u16("65535"), Some(65535));
    assert_eq!(parse_u16("65536"), None);
}

#[test]
fn numbers_are_written_as_rust_writes_them() {
    for n in [0u64, 9, 10, 120, u64::MAX] {
        assert_eq!(decimal_text(n), n.to_string());
    }
    for n in [0i64, -1, 42, i64::MIN, i64::MAX] {
        assert_eq!(signed_text(n), n.to_string());
    }
}

#[test]
fn white_space_is_that_of_unicode() {
    for text in ["  a b\u{3000}", "\u{85}\u{a0}x\u{2028}", "\u{200b}y", "", " \t\r\n"] {
        assert_eq!(trim(text), text.trim(), "{text:?}");
        assert_eq!(word_count(text), text.split_whitespace().count(), "{text:?}");
    }
    assert_eq!(word_count(" a  bb\u{1680}c "), 3);
}

#[test]
fn texts_are_searched_and_parted() {
    assert!(finds("wss://localhost:1", "localhost"));
    assert!(!finds("abc", "abcd"));
    assert!(ends_with("a.wav", ".wav"));
    assert!(!ends_with("wav", ".wav"));
    assert_eq!(strip("a.wav.wav", ".wav"), "a");
    assert_eq!(replace("aXbXX", "X", "--"), "aXbXX".replace('X', "--"));
    assert_eq!(replace("aaa", "aa", "b"), "aaa".replace("aa", "b"));
    assert_eq!(part_at_last("a_b_c", "_"), ("a_b".to_string(), "c".to_string()));
    assert_eq!(part_at_last("abc", "_"), ("abc".to_string(), "abc".to_string()));
    assert_eq!(field_behind("k=1,k=2", "k=", ';', ','), Some("1".to_string()));
    assert_eq!(field_behind("nothing", "k=", ';', ','), None);
    assert_eq!(split_lines("a\n\nb"), vec!["a".to_string(), String::new(), "b".to_string()]);
}

#[test]
fn texts_are_ordered_as_rust_orders_them() {
    let texts = ["", "a", "ab", "b", "é", "ไ", "\u{10000}", "\u{ffff}"];
    for a in texts {
        for b in texts {
            let expected = if a < b {
                Place::Before
            } else if a == b {
                Place::Same
            } else {
                Place::Behind
            };
            assert_eq!(place(a, b), expected, "{a:?} {b:?}");
        }
    }
}

#[test]
fn texts_are_joined() {
    let parts = vec!["a".to_string(), String::new(), "b".to_string()];
    assert_eq!(join(&parts, "\n"), "a\n\nb");
    assert_eq!(join(&Vec::new(), "\n"), "");
}
