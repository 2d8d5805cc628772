use tldw::fetch::{subtitle_path_in, SubtitleReport};

#[test]
fn path_is_read_from_stdout() {
    let out = "[youtube] abc: Downloading webpage\n[info] Writing video subtitles to: /tmp/output.en.vtt  \n[done]\n";
    assert_eq!(subtitle_path_in(out, ""), SubtitleReport::Path("/tmp/output.en.vtt".to_string()));
}

#[test]
fn path_is_read_from_stderr_when_stdout_lacks_it() {
    let err = "warning\r\n[info] Writing video subtitles to: /tmp/output.en.vtt\r\n";
    assert_eq!(subtitle_path_in("nothing here\n", err), SubtitleReport::Path("/tmp/output.en.vtt".to_string()));
}

#[test]
fn first_announcing_line_wins() {
    let out = "Writing video subtitles to: /a.vtt\nWriting video subtitles to: /b.vtt";
    let err = "Writing video subtitles to: /c.vtt";
    assert_eq!(subtitle_path_in(out, err), SubtitleReport::Path("/a.vtt".to_string()));
}

#[test]
fn announcement_without_path_prefix_is_unparsable() {
    assert_eq!(subtitle_path_in("x Writing video subtitles to:", ""), SubtitleReport::Unparsable);
}

#[test]
fn announcement_with_empty_path_gives_empty_path() {
    assert_eq!(subtitle_path_in("Writing video subtitles to:   \n", ""), SubtitleReport::Path(String::new()));
}

#[test]
fn missing_announcement_is_reported() {
    assert_eq!(subtitle_path_in("", ""), SubtitleReport::NotAnnounced);
    assert_eq!(subtitle_path_in("writing video subtitles to: /x", "other"), SubtitleReport::NotAnnounced);
}
