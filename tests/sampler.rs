use greg_bot::sampler::{
    denied_prefixes, first_qualifying, first_window, is_qualifying, retry_after, second_window,
    starts_with, starts_with_any, take_all, BulkSampler, BACKOFF_SECS, BATCH, CORPUS_MIN_LEN,
    WINDOW,
};

fn rows(lines: &[&str]) -> Vec<String> {
    lines.iter().map(|s| s.to_string()).collect()
}

#[test]
fn prefixes_are_matched_at_the_start_only() {
    assert!(starts_with("https://x", "http"));
    assert!(starts_with("abc", ""));
    assert!(!starts_with("ab", "abc"));
    assert!(!starts_with("xab", "ab"));
    let p = denied_prefixes();
    assert!(starts_with_any("!ping", &p));
    assert!(starts_with_any("m.play", &p));
    assert!(starts_with_any("%x", &p));
    assert!(!starts_with_any("hello there", &p));
    assert!(!starts_with_any("m x", &p));
}

#[test]
fn qualifying_needs_length_and_no_denied_prefix() {
    let p = denied_prefixes();
    assert!(is_qualifying("hello world!", CORPUS_MIN_LEN, &p));
    assert!(!is_qualifying("hello", CORPUS_MIN_LEN, &p));
    assert!(!is_qualifying("$hello world wide", CORPUS_MIN_LEN, &p));
    assert!(is_qualifying("ééééééééééé", CORPUS_MIN_LEN, &p));
}

#[test]
fn first_qualifying_skips_denied_rows() {
    let p = denied_prefixes();
    let batch = vec![
        ("!command with enough letters".to_string(), 1u64),
        ("short".to_string(), 2u64),
        ("a perfectly ordinary sentence".to_string(), 3u64),
        ("another perfectly ordinary one".to_string(), 4u64),
    ];
    assert_eq!(
        first_qualifying(batch, 10, &p),
        Some(("a perfectly ordinary sentence".to_string(), 3))
    );
    assert_eq!(first_qualifying(vec![("@x y z w v u".to_string(), 1)], 3, &p), None);
    assert_eq!(first_qualifying(Vec::new(), 0, &p), None);
}

#[test]
fn take_all_keeps_every_qualifying_row() {
    let p = denied_prefixes();
    let mut got = take_all(
        rows(&["first long message", ".skip me please", "second long message", "tiny"]),
        CORPUS_MIN_LEN,
        &p,
    );
    got.sort();
    assert_eq!(got, rows(&["first long message", "second long message"]));
}

#[test]
fn bulk_sampler_stops_at_the_limit() {
    let p = denied_prefixes();
    let mut s = BulkSampler::new(5000, 3);
    assert!(!s.fetch_all());
    let off = s.next_offset().expect("wants more");
    assert!(off < 5000 - BATCH);
    s.absorb(rows(&["one qualifying row", "#no", "two qualifying row"]), CORPUS_MIN_LEN, &p);
    assert!(s.next_offset().is_some());
    s.absorb(rows(&["three qualifying row", "four qualifying row"]), CORPUS_MIN_LEN, &p);
    assert_eq!(s.next_offset(), None);
    assert_eq!(
        s.into_messages(),
        rows(&["one qualifying row", "two qualifying row", "three qualifying row"])
    );
}

#[test]
fn bulk_sampler_gives_up_after_its_attempts() {
    let p = denied_prefixes();
    let mut s = BulkSampler::new(150, 1);
    assert!(!s.fetch_all());
    for _ in 0..3 {
        let off = s.next_offset().expect("wants more");
        assert!(off < 50);
        s.absorb(rows(&["!nope nope nope"]), CORPUS_MIN_LEN, &p);
    }
    assert_eq!(s.next_offset(), None);
    assert!(s.into_messages().is_empty());
    assert!(BulkSampler::new(10, 2000).fetch_all());
}

#[test]
fn windows_fall_inside_the_rows() {
    assert_eq!(first_window(0), None);
    for _ in 0..50 {
        assert!(first_window(7).unwrap() < 7);
        assert!(second_window(100) < 100 - WINDOW);
    }
    assert_eq!(second_window(WINDOW), 0);
    assert_eq!(second_window(3), 0);
}

#[test]
fn store_is_retried_five_times() {
    for i in 0..5 {
        assert_eq!(retry_after(i), Some(BACKOFF_SECS));
    }
    assert_eq!(retry_after(5), None);
    assert_eq!(BACKOFF_SECS, 5);
}
