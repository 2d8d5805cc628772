use tldw::chunk::plan_chunks;

#[test]
fn chunks_concatenate_to_transcript() {
    let t = "abcdefghij";
    let cs = plan_chunks(t, 3);
    assert_eq!(cs, vec!["abc", "def", "ghi", "j"]);
    assert_eq!(cs.concat(), t);
    for c in &cs[..cs.len() - 1] {
        assert_eq!(c.chars().count(), 3);
    }
    assert!(cs[cs.len() - 1].chars().count() <= 3);
}

#[test]
fn transcript_of_exact_limit_is_one_chunk() {
    let cs = plan_chunks("abcde", 5);
    assert_eq!(cs, vec!["abcde"]);
}

#[test]
fn transcript_one_over_limit_is_two_chunks() {
    let cs = plan_chunks("abcdef", 5);
    assert_eq!(cs, vec!["abcde", "f"]);
}

#[test]
fn multiple_of_limit_gives_full_chunks() {
    let cs = plan_chunks("abcdef", 3);
    assert_eq!(cs, vec!["abc", "def"]);
}

#[test]
fn empty_transcript_is_one_empty_chunk() {
    assert_eq!(plan_chunks("", 4), vec![""]);
}

#[test]
fn chunks_count_characters_not_bytes() {
    let cs = plan_chunks("\u{e9}\u{e9}\u{e9}\u{65e5}\u{65e5}", 2);
    assert_eq!(cs, vec!["\u{e9}\u{e9}", "\u{e9}\u{65e5}", "\u{65e5}"]);
}

#[test]
fn twenty_thousand_with_fifteen_thousand_limit() {
    let t: String = (0..20000).map(|i| if i % 7 == 0 { ' ' } else { 'x' }).collect();
    let cs = plan_chunks(&t, 15000);
    assert_eq!(cs.len(), 2);
    assert_eq!(cs[0].len(), 15000);
    assert_eq!(cs[1].len(), 5000);
    assert_eq!(cs.concat(), t);
}
