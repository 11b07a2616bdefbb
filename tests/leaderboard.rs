use greg_bot::bot::archive_prefixes;
use greg_bot::leaderboard::{
    leaderboard, parse_excluded, rank, tally, top_authors, Entry, WordFilter, LEADERBOARD_SIZE,
};

fn row(content: &str, author: u64) -> (String, u64) {
    (content.to_string(), author)
}

fn entry(word: &str, author: u64, count: usize) -> Entry {
    Entry { word: word.to_string(), author, count }
}

fn open_filter() -> WordFilter {
    WordFilter { min_len: 0, selected: None, excluded: Vec::new() }
}

#[test]
fn tally_counts_lower_case_words_per_author() {
    let rows = vec![row("Hello hello world", 1), row("HELLO there", 2), row("!cmd hello", 1)];
    let mut t = tally(&rows, &open_filter(), &archive_prefixes());
    t.sort_by(|a, b| (a.word.clone(), a.author).cmp(&(b.word.clone(), b.author)));
    assert_eq!(
        t,
        vec![
            entry("hello", 1, 3),
            entry("hello", 2, 1),
            entry("there", 2, 1),
            entry("world", 1, 1),
        ]
    );
}

#[test]
fn tally_applies_the_filter() {
    let rows = vec![row("a bb ccc bb dddd", 1)];
    let f = WordFilter { min_len: 2, selected: None, excluded: vec!["ccc".to_string()] };
    let t = tally(&rows, &f, &archive_prefixes());
    assert_eq!(t, vec![entry("bb", 1, 2), entry("dddd", 1, 1)]);
    let only = WordFilter { min_len: 0, selected: Some("bb".to_string()), excluded: Vec::new() };
    assert_eq!(tally(&rows, &only, &archive_prefixes()), vec![entry("bb", 1, 2)]);
}

#[test]
fn top_authors_keeps_one_line_per_word() {
    let t = vec![entry("x", 1, 2), entry("y", 1, 1), entry("x", 2, 5), entry("x", 3, 5)];
    assert_eq!(top_authors(&t), vec![entry("x", 2, 5), entry("y", 1, 1)]);
}

#[test]
fn rank_orders_by_count_and_cuts() {
    let c = vec![entry("a", 1, 1), entry("b", 1, 3), entry("c", 1, 2), entry("d", 1, 3)];
    assert_eq!(
        rank(c.clone(), 10),
        vec![entry("b", 1, 3), entry("d", 1, 3), entry("c", 1, 2), entry("a", 1, 1)]
    );
    assert_eq!(rank(c, 2), vec![entry("b", 1, 3), entry("d", 1, 3)]);
}

#[test]
fn leaderboard_of_a_selected_word_lists_its_authors() {
    let rows = vec![row("cat dog cat", 1), row("cat", 2), row("dog dog dog", 3)];
    let f = WordFilter { min_len: 0, selected: Some("cat".to_string()), excluded: Vec::new() };
    assert_eq!(
        leaderboard(&rows, &f, &archive_prefixes()),
        vec![entry("cat", 1, 2), entry("cat", 2, 1)]
    );
    assert_eq!(
        leaderboard(&rows, &open_filter(), &archive_prefixes()),
        vec![entry("dog", 3, 3), entry("cat", 1, 2)]
    );
}

#[test]
fn leaderboard_is_capped() {
    let text: Vec<String> = (0..80).map(|i| format!("w{}", i)).collect();
    let rows = vec![(text.join(" "), 7)];
    assert_eq!(leaderboard(&rows, &open_filter(), &archive_prefixes()).len(), LEADERBOARD_SIZE);
}

#[test]
fn excluded_words_are_split_at_commas() {
    assert_eq!(parse_excluded("The,,A,b c,"), vec!["the", "a", "b c"]);
    assert!(parse_excluded(",,").is_empty());
}
