use tldw::naming::{file_name, output_file_name};

#[test]
fn file_name_joins_parts() {
    assert_eq!(file_name("20240131", "dQw4w9WgXcQ", 1706659200), "20240131_dQw4w9WgXcQ_1706659200.md");
}

#[test]
fn file_name_writes_zero_and_negative_seconds() {
    assert_eq!(file_name("19700101", "unknown", 0), "19700101_unknown_0.md");
    assert_eq!(file_name("19691231", "x", -1), "19691231_x_-1.md");
    assert_eq!(file_name("d", "i", i64::MIN), "d_i_-9223372036854775808.md");
    assert_eq!(file_name("d", "i", i64::MAX), "d_i_9223372036854775807.md");
}

#[test]
fn output_file_name_uses_video_id_and_utc_date() {
    let f = output_file_name("https://www.youtube.com/watch?v=dQw4w9WgXcQ", 1431648000);
    assert_eq!(f, Some("20150515_dQw4w9WgXcQ_1431648000.md".to_string()));
    let g = output_file_name("https://youtu.be/abcdefghijk?t=10", 86399);
    assert_eq!(g, Some("19700101_abcdefghijk_86399.md".to_string()));
}

#[test]
fn output_file_name_without_id_says_unknown() {
    let f = output_file_name("https://example.com/short", 1431648000);
    assert_eq!(f, Some("20150515_unknown_1431648000.md".to_string()));
    let g = output_file_name("", -1);
    assert_eq!(g, Some("19691231_unknown_-1.md".to_string()));
}

#[test]
fn output_file_name_out_of_range_is_none() {
    assert_eq!(output_file_name("https://youtu.be/abcdefghijk", i64::MAX), None);
}
