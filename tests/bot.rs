use greg_bot::bot::{
    archive_prefixes, classify_incoming, contains_text, may_speak, next_pause_secs, Incoming,
    MAX_PAUSE_SECS, MIN_PAUSE_SECS,
};

#[test]
fn incoming_messages_are_sorted() {
    let p = archive_prefixes();
    let m = "<@99>";
    assert_eq!(classify_incoming(false, false, false, false, "hello", m, &p), Incoming::Ignore);
    assert_eq!(classify_incoming(true, true, false, false, "hello", m, &p), Incoming::Ignore);
    assert_eq!(classify_incoming(true, false, true, true, "hello", m, &p), Incoming::Ignore);
    assert_eq!(classify_incoming(true, false, false, true, "hi <@99>", m, &p), Incoming::Reply);
    assert_eq!(classify_incoming(true, false, false, false, "!play", m, &p), Incoming::Ignore);
    assert_eq!(classify_incoming(true, false, false, false, "yo <@99> x", m, &p), Incoming::Ignore);
    assert_eq!(classify_incoming(true, false, false, false, "just chatting", m, &p), Incoming::Archive);
    assert_eq!(classify_incoming(true, false, false, false, "https://x.y", m, &p), Incoming::Archive);
}

#[test]
fn text_search_finds_inner_matches() {
    assert!(contains_text("abcabd", "abd"));
    assert!(contains_text("abc", ""));
    assert!(!contains_text("ab", "abc"));
    assert!(!contains_text("abcab", "abd"));
}

#[test]
fn bot_speaks_only_when_quiet() {
    assert!(may_speak(&vec![1, 2, 3], 9));
    assert!(!may_speak(&vec![1, 9, 3], 9));
    assert!(may_speak(&Vec::new(), 9));
    for _ in 0..50 {
        let p = next_pause_secs();
        assert!(p >= MIN_PAUSE_SECS && p < MAX_PAUSE_SECS);
    }
}
