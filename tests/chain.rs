use greg_bot::generation::{generate_markov_message, markov_reply, MAX_WORD_LIMIT, MIN_CORPUS};
use greg_bot::markov_chain::Chain;
use greg_bot::text::{join_words, split_words};

fn corpus(lines: &[&str]) -> Vec<String> {
    lines.iter().map(|s| s.to_string()).collect()
}

#[test]
fn split_words_drops_all_white_space() {
    let words = split_words("  hello \t wide\nworld  ");
    assert_eq!(words, vec!["hello".to_string(), "wide".to_string(), "world".to_string()]);
    assert!(split_words(" \n\t ").is_empty());
    assert!(split_words("").is_empty());
}

#[test]
fn join_words_puts_one_space_between() {
    let words = vec!["a".to_string(), "bb".to_string(), "c".to_string()];
    assert_eq!(join_words(&words), "a bb c");
    assert_eq!(join_words(&Vec::new()), "");
}

#[test]
fn empty_chain_generates_empty_sentence() {
    let chain = Chain::new();
    assert_eq!(chain.generate(10, None), "");
}

#[test]
fn seeded_generation_follows_the_only_path() {
    let mut chain = Chain::new();
    chain.train(corpus(&["a b", "b c"]));
    assert_eq!(chain.generate(10, Some("a")), "a b c");
    assert_eq!(chain.generate(1, Some("a")), "a b");
    assert_eq!(chain.generate(0, Some("a")), "a");
}

#[test]
fn seed_of_several_words_continues_from_the_last() {
    let mut chain = Chain::new();
    chain.train(corpus(&["a b", "b c"]));
    assert_eq!(chain.generate(10, Some("hello   a")), "hello a b c");
}

#[test]
fn unknown_seed_is_returned_alone() {
    let mut chain = Chain::new();
    chain.train(corpus(&["a b"]));
    assert_eq!(chain.generate(10, Some("zzz")), "zzz");
}

#[test]
fn word_limit_bounds_a_cycle() {
    let mut chain = Chain::new();
    chain.train(corpus(&["a a"]));
    assert_eq!(chain.generate(3, Some("a")), "a a a a");
}

#[test]
fn seed_without_words_starts_from_a_key() {
    let mut chain = Chain::new();
    chain.train(corpus(&["x y"]));
    assert_eq!(chain.generate(5, Some("   ")), "x y");
}

#[test]
fn unseeded_generation_starts_from_a_key() {
    let mut chain = Chain::new();
    chain.train(corpus(&["one two", "one two"]));
    for _ in 0..20 {
        assert_eq!(chain.generate(5, None), "one two");
    }
}

#[test]
fn generated_tokens_come_from_the_corpus() {
    let lines = corpus(&[
        "the cat sat on the mat",
        "a dog sat on a log",
        "the dog ate the cat food",
    ]);
    let mut known: Vec<String> = Vec::new();
    for l in &lines {
        for w in l.split_whitespace() {
            known.push(w.to_string());
        }
    }
    let mut chain = Chain::new();
    chain.train(lines);
    for _ in 0..50 {
        let out = chain.generate(14, None);
        assert!(!out.is_empty());
        for w in out.split_whitespace() {
            assert!(known.contains(&w.to_string()), "unexpected token {}", w);
        }
        let seeded = chain.generate(14, Some("zebra"));
        for w in seeded.split_whitespace() {
            assert!(w == "zebra" || known.contains(&w.to_string()));
        }
    }
}

#[test]
fn training_twice_keeps_the_reachable_words() {
    let lines = corpus(&["p q", "p r", "q s"]);
    let mut once = Chain::new();
    once.train(lines.clone());
    let mut twice = Chain::new();
    twice.train(lines.clone());
    twice.train(lines);
    let mut seen_once: Vec<String> = Vec::new();
    let mut seen_twice: Vec<String> = Vec::new();
    for _ in 0..200 {
        for w in once.generate(3, Some("p")).split_whitespace() {
            if !seen_once.contains(&w.to_string()) {
                seen_once.push(w.to_string());
            }
        }
        for w in twice.generate(3, Some("p")).split_whitespace() {
            if !seen_twice.contains(&w.to_string()) {
                seen_twice.push(w.to_string());
            }
        }
    }
    seen_once.sort();
    seen_twice.sort();
    assert_eq!(seen_once, seen_twice);
    assert_eq!(seen_once, vec!["p", "q", "r", "s"]);
}

#[test]
fn small_corpus_is_refused() {
    let lines: Vec<String> = (0..100).map(|i| format!("message number {} here", i)).collect();
    assert_eq!(markov_reply(lines.clone(), 5, None), None);
    assert_eq!(generate_markov_message(lines, None), None);
    let just_short: Vec<String> = (0..MIN_CORPUS - 1).map(|i| format!("m {}", i)).collect();
    assert_eq!(markov_reply(just_short, 5, None), None);
}

#[test]
fn corpus_of_six_hundred_generates() {
    let lines: Vec<String> =
        (0..600).map(|i| format!("archived message number {} today", i)).collect();
    let mut known: Vec<String> = Vec::new();
    for l in &lines {
        for w in l.split_whitespace() {
            known.push(w.to_string());
        }
    }
    for _ in 0..20 {
        let out = generate_markov_message(lines.clone(), None).expect("enough data");
        assert!(!out.is_empty());
        let words: Vec<&str> = out.split(' ').collect();
        assert!(words.len() <= 14);
        for w in words {
            assert!(known.contains(&w.to_string()));
        }
    }
}

#[test]
fn reply_respects_the_word_limit() {
    let lines: Vec<String> = (0..MIN_CORPUS).map(|_| "a a".to_string()).collect();
    assert_eq!(markov_reply(lines.clone(), 2, Some("a")), Some("a a a".to_string()));
    for _ in 0..20 {
        let out = generate_markov_message(lines.clone(), Some("a")).expect("enough data");
        let n = out.split(' ').count();
        assert!(n >= 2 && n <= MAX_WORD_LIMIT);
    }
}
