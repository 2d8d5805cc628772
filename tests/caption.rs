use tldw::caption::{cleanup_buffer, normalize, normalize_bytes, FormatError};

#[test]
fn cue_lines_are_dropped_and_repeats_removed() {
    let raw = "00:00:00.000 --> 00:00:02.000\nHello world\n00:00:02.000 --> 00:00:04.000\nHello world\n00:00:04.000 --> 00:00:06.000\nGoodbye";
    assert_eq!(normalize(raw), "Hello world Goodbye");
}

#[test]
fn inline_timing_tags_are_stripped() {
    let raw = "<00:00:00.399><c> hello</c> <00:00:01.200><c>world</c>";
    assert_eq!(normalize(raw), "hello world");
}

#[test]
fn header_lines_are_dropped() {
    let raw = "WEBVTT\nKind: captions\nLanguage: en\n\n00:00:01.000 --> 00:00:02.000 align:start position:0%\nfirst line\n";
    assert_eq!(normalize(raw), "first line");
}

#[test]
fn cue_timing_with_settings_is_dropped() {
    let raw = "00:00:01.000 --> 00:00:02.500 align:start position:0%\ntext";
    assert_eq!(normalize(raw), "text");
}

#[test]
fn timestamp_not_at_line_start_is_kept() {
    let raw = "said at 00:00:01.000 --> 00:00:02.000";
    assert_eq!(normalize(raw), "said at 00:00:01.000 --> 00:00:02.000");
}

#[test]
fn empty_input_gives_empty_transcript() {
    assert_eq!(normalize(""), "");
    assert_eq!(normalize("\n\n   \n"), "");
    assert_eq!(normalize("WEBVTT\n00:00:00.000 --> 00:00:01.000\n"), "");
}

#[test]
fn dedup_is_exact_and_case_sensitive() {
    let raw = "Hello\nhello\nHello\nHello!\nhello";
    assert_eq!(normalize(raw), "Hello hello Hello!");
}

#[test]
fn dedup_compares_cleaned_lines() {
    let raw = "  Hello   world \n<c>Hello</c> world\nHello\tworld";
    assert_eq!(normalize(raw), "Hello world");
}

#[test]
fn kept_lines_are_unique_in_output() {
    let raw = "a\nb\na\nc\nb\na\nd";
    let out = normalize(raw);
    assert_eq!(out, "a b c d");
    let words: Vec<&str> = out.split(' ').collect();
    for i in 0..words.len() {
        for j in (i + 1)..words.len() {
            assert_ne!(words[i], words[j]);
        }
    }
}

#[test]
fn no_cue_timing_line_survives() {
    let raw = "00:00:00.000 --> 00:00:01.000\n  00:00:01.000 --> 00:00:02.000  \nx\n<b>00:00:02.000 --> 00:00:03.000</b>";
    assert_eq!(normalize(raw), "x");
}

#[test]
fn normalizing_twice_changes_nothing() {
    let raw = "WEBVTT\n\n00:00:00.000 --> 00:00:02.000\n<00:00:00.100><c>one</c> two\n00:00:02.000 --> 00:00:03.000\nthree&nbsp;four\none two";
    let once = normalize(raw);
    assert_eq!(once, "one two three four");
    assert_eq!(normalize(&once), once);
}

#[test]
fn joined_markup_pieces_change_on_second_pass() {
    let once = normalize("a <\n> b");
    assert_eq!(once, "a < > b");
    assert_eq!(normalize(&once), "a b");
}

#[test]
fn nbsp_becomes_space_and_whitespace_collapses() {
    assert_eq!(normalize("a&nbsp;&nbsp;b\t\t c"), "a b c");
}

#[test]
fn html_tags_are_removed() {
    assert_eq!(normalize("<i>quiet</i> <font color=\"red\">loud</font>"), "quiet loud");
}

#[test]
fn unmatched_angle_bracket_is_kept() {
    assert_eq!(normalize("3 < 4"), "3 < 4");
}

#[test]
fn carriage_returns_are_whitespace() {
    assert_eq!(normalize("first\r\nsecond\r\n"), "first second");
}

#[test]
fn cleanup_buffer_applies_each_step() {
    assert_eq!(cleanup_buffer("  <00:00:00.399><c>a</c>&nbsp;<b>b</b>   c  "), "a b c");
    assert_eq!(cleanup_buffer("&nb</c>sp;x"), "x");
    assert_eq!(cleanup_buffer(""), "");
}

#[test]
fn invalid_utf8_is_a_format_error() {
    assert_eq!(normalize_bytes(&[0x48, 0xff, 0x49]), Err(FormatError));
}

#[test]
fn valid_utf8_bytes_are_normalized() {
    let raw = "caf\u{e9}\ncaf\u{e9}\n\u{65e5}\u{672c}".as_bytes();
    assert_eq!(normalize_bytes(raw), Ok("caf\u{e9} \u{65e5}\u{672c}".to_string()));
}

#[test]
fn joined_timing_pieces_change_on_second_pass() {
    let once = normalize("00:00:00.000\n--> 00:00:01.000");
    assert_eq!(once, "00:00:00.000 --> 00:00:01.000");
    assert_eq!(normalize(&once), "");
}
