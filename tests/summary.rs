use tldw::prompt::{PromptCatalog, UnknownPromptError};
use tldw::summary::{
    classify_error, route, ApiError, ErrorKind, Outcome, Route, StreamAccumulator, SummaryRun,
    EMPTY_RESPONSE_MESSAGE, INVALID_KEY_MESSAGE, MAX_TOKENS, NO_CONTENT_MESSAGE, QUOTA_MESSAGE,
};

/// Runs the exchanges of `run` through `reply`, returning the prompts sent.
fn drive(run: &mut SummaryRun, mut reply: impl FnMut(usize, &str) -> Result<String, String>) -> Vec<String> {
    let mut sent = Vec::new();
    while let Some(prompt) = run.next_prompt() {
        let r = reply(sent.len(), &prompt);
        sent.push(prompt);
        run.record_reply(r);
    }
    sent
}

fn catalog() -> PromptCatalog {
    PromptCatalog::new(vec!["T0:".to_string(), "T1:".to_string(), "T2:".to_string()])
}

#[test]
fn empty_transcript_makes_no_call() {
    let mut run = SummaryRun::start(&catalog(), "", 1, MAX_TOKENS).unwrap();
    let mut calls = 0;
    let sent = drive(&mut run, |_, _| {
        calls += 1;
        Ok("x".to_string())
    });
    assert_eq!(calls, 0);
    assert!(sent.is_empty());
    assert_eq!(run.route(), Route::Empty);
    assert_eq!(run.outcome(), Some(Outcome::NoContent));
    assert_eq!(run.result_text(), Some(NO_CONTENT_MESSAGE.to_string()));
    assert_eq!(NO_CONTENT_MESSAGE, "Error: No subtitle content was extracted from the video.");
}

#[test]
fn empty_transcript_ignores_selector() {
    let run = SummaryRun::start(&catalog(), "", 99, 10).unwrap();
    assert_eq!(run.outcome(), Some(Outcome::NoContent));
}

#[test]
fn short_transcript_makes_one_call_with_spaced_prompt() {
    let mut run = SummaryRun::start(&catalog(), "some words", 1, 100).unwrap();
    assert_eq!(run.route(), Route::Short);
    let sent = drive(&mut run, |_, _| Ok("summary".to_string()));
    assert_eq!(sent, vec!["T1: some words"]);
    assert_eq!(run.outcome(), Some(Outcome::Summary("summary".to_string())));
    assert_eq!(run.result_text(), Some("summary".to_string()));
}

#[test]
fn transcript_at_limit_takes_short_path() {
    let run = SummaryRun::start(&catalog(), "abcde", 0, 5).unwrap();
    assert_eq!(run.route(), Route::Short);
    assert_eq!(run.prompt_count(), 1);
}

#[test]
fn long_transcript_calls_once_per_chunk_in_order() {
    let t: String = "a".repeat(15000) + &"b".repeat(5000);
    let mut run = SummaryRun::start(&catalog(), &t, 2, 15000).unwrap();
    assert_eq!(run.route(), Route::Long);
    assert_eq!(run.prompt_count(), 2);
    let mut calls = 0;
    let sent = drive(&mut run, |i, _| {
        calls += 1;
        Ok(format!("[part {}]", i))
    });
    assert_eq!(calls, 2);
    assert_eq!(sent[0], format!("T2:{}", "a".repeat(15000)));
    assert_eq!(sent[1], format!("T2:{}", "b".repeat(5000)));
    assert_eq!(run.outcome(), Some(Outcome::Summary("[part 0][part 1]".to_string())));
}

#[test]
fn failure_on_second_of_three_chunks_aborts() {
    let t = "x".repeat(25);
    let mut run = SummaryRun::start(&catalog(), &t, 0, 10).unwrap();
    assert_eq!(run.prompt_count(), 3);
    let mut calls = 0;
    drive(&mut run, |i, _| {
        calls += 1;
        if i == 1 {
            Err("connection reset".to_string())
        } else {
            Ok("part".to_string())
        }
    });
    assert_eq!(calls, 2);
    assert!(run.is_finished());
    assert_eq!(run.next_prompt(), None);
    let failure = ApiError { kind: ErrorKind::Transport, message: "connection reset".to_string() };
    assert_eq!(run.outcome(), Some(Outcome::Failed(failure)));
    assert_eq!(run.result_text(), Some("Error processing long input: connection reset".to_string()));
}

#[test]
fn short_failure_names_short_input() {
    let mut run = SummaryRun::start(&catalog(), "abc", 0, 10).unwrap();
    drive(&mut run, |_, _| Err("timeout".to_string()));
    assert_eq!(run.result_text(), Some("Error processing short input: timeout".to_string()));
}

#[test]
fn empty_replies_are_an_empty_response() {
    let mut run = SummaryRun::start(&catalog(), &"y".repeat(12), 0, 5).unwrap();
    drive(&mut run, |_, _| Ok(String::new()));
    assert_eq!(run.outcome(), Some(Outcome::EmptyResponse));
    assert_eq!(run.result_text(), Some(EMPTY_RESPONSE_MESSAGE.to_string()));
}

#[test]
fn some_empty_replies_still_give_summary() {
    let mut run = SummaryRun::start(&catalog(), &"y".repeat(12), 0, 5).unwrap();
    drive(&mut run, |i, _| Ok(if i == 1 { "mid".to_string() } else { String::new() }));
    assert_eq!(run.outcome(), Some(Outcome::Summary("mid".to_string())));
}

#[test]
fn unknown_selector_fails_before_any_call() {
    let r = SummaryRun::start(&catalog(), "text", 3, 10);
    assert_eq!(r.err(), Some(UnknownPromptError { selector: 3, available: 3 }));
}

#[test]
fn quota_failure_gives_guidance() {
    let mut run = SummaryRun::start(&catalog(), "abc", 0, 10).unwrap();
    drive(&mut run, |_, _| Err("code: insufficient_quota".to_string()));
    assert_eq!(run.result_text(), Some(QUOTA_MESSAGE.to_string()));
    assert!(matches!(run.outcome(), Some(Outcome::Failed(ApiError { kind: ErrorKind::QuotaExceeded, .. }))));
}

#[test]
fn credential_failure_gives_guidance() {
    let mut run = SummaryRun::start(&catalog(), "abc", 0, 10).unwrap();
    drive(&mut run, |_, _| Err("Incorrect API key provided: sk-***".to_string()));
    assert_eq!(run.result_text(), Some(INVALID_KEY_MESSAGE.to_string()));
}

#[test]
fn classification_uses_exact_markers() {
    assert_eq!(classify_error("error: insufficient_quota"), ErrorKind::QuotaExceeded);
    assert_eq!(classify_error("You exceeded your current quota, please"), ErrorKind::QuotaExceeded);
    assert_eq!(classify_error("invalid_api_key"), ErrorKind::InvalidCredentials);
    assert_eq!(classify_error("Incorrect API key provided"), ErrorKind::InvalidCredentials);
    assert_eq!(classify_error("incorrect api key"), ErrorKind::Transport);
    assert_eq!(classify_error("Insufficient_Quota"), ErrorKind::Transport);
    assert_eq!(classify_error(""), ErrorKind::Transport);
    assert_eq!(classify_error("invalid_api_key and insufficient_quota"), ErrorKind::QuotaExceeded);
}

#[test]
fn route_counts_characters() {
    assert_eq!(route("", 3), Route::Empty);
    assert_eq!(route("\u{e9}\u{e9}\u{e9}", 3), Route::Short);
    assert_eq!(route("abcd", 3), Route::Long);
}

#[test]
fn accumulator_keeps_arrival_order() {
    let mut acc = StreamAccumulator::new();
    acc.push_delta("Hel");
    acc.push_delta("lo");
    acc.push_delta("");
    acc.push_delta(" w\u{e9}");
    assert_eq!(acc.deltas(), 4);
    assert_eq!(acc.finish(), "Hello w\u{e9}");
}

#[test]
fn accumulator_failure_reports_partial_size() {
    let mut acc = StreamAccumulator::new();
    acc.push_delta("ab");
    acc.push_delta("\u{e9}");
    let f = acc.fail("stream broke".to_string());
    assert_eq!(f.message, "stream broke");
    assert_eq!(f.deltas, 2);
    assert_eq!(f.received_bytes, 4);
}

#[test]
fn choices_without_content_are_skipped() {
    let mut acc = StreamAccumulator::new();
    acc.push_delta("A");
    let shown = acc.push_choices(vec![Some("b".to_string()), None, Some("".to_string()), Some("c".to_string())]);
    assert_eq!(shown, vec!["b", "", "c"]);
    assert_eq!(acc.deltas(), 4);
    assert_eq!(acc.push_choices(Vec::new()), Vec::<String>::new());
    assert_eq!(acc.finish(), "Abc");
}

#[test]
fn empty_stream_finishes_empty() {
    assert_eq!(StreamAccumulator::new().finish(), "");
}
