use greg_bot::game::{
    check_guess, Effect, EndReason, Event, GuessOutcome, Phase, Round, Game,
};
use greg_bot::rating::{apply_guess, rating_delta, CORRECT_DELTA, INCORRECT_DELTA};
use greg_bot::similarity::{levenshtein, matched_count, near};

fn round() -> Round {
    Round {
        content: "this is a message that is long enough to be shown".to_string(),
        author_id: 42,
        username: "Alice".to_string(),
        display_name: "Wonder Al".to_string(),
    }
}

fn active_session() -> Game {
    let mut s = Game::new();
    s.step(Event::Start);
    let effects = s.step(Event::Sampled(Some(round())));
    assert_eq!(effects.len(), 1);
    assert!(matches!(&effects[0], Effect::PostRound { content } if content.starts_with("this is")));
    assert_eq!(s.phase, Phase::RoundActive);
    s
}

#[test]
fn lobby_timeout_ends_without_a_round() {
    let mut s = Game::new();
    let effects = s.step(Event::LobbyTimeout);
    assert_eq!(s.phase, Phase::Ended(EndReason::NoResponse));
    assert!(s.is_over());
    assert!(s.round.is_none());
    assert_eq!(effects.len(), 2);
    assert!(matches!(effects[0], Effect::DisableLobby));
    assert!(matches!(effects[1], Effect::AnnounceEnd { reason: EndReason::NoResponse }));
    assert!(s.step(Event::Sampled(Some(round()))).is_empty());
    assert!(s.step(Event::Start).is_empty());
}

#[test]
fn lobby_cancel_ends_the_game() {
    let mut s = Game::new();
    let effects = s.step(Event::Cancel);
    assert_eq!(s.phase, Phase::Ended(EndReason::Cancelled));
    assert!(matches!(effects[0], Effect::DisableLobby));
    assert!(matches!(effects[1], Effect::AnnounceEnd { reason: EndReason::Cancelled }));
}

#[test]
fn start_asks_for_a_message() {
    let mut s = Game::new();
    let effects = s.step(Event::Start);
    assert_eq!(s.phase, Phase::AwaitingMessage);
    assert_eq!(effects.len(), 2);
    assert!(matches!(effects[0], Effect::DisableLobby));
    assert!(matches!(effects[1], Effect::RequestMessage));
}

#[test]
fn no_message_ends_the_game() {
    let mut s = Game::new();
    s.step(Event::Start);
    let effects = s.step(Event::Sampled(None));
    assert_eq!(s.phase, Phase::Ended(EndReason::NoMessages));
    assert!(matches!(effects[0], Effect::AnnounceEnd { reason: EndReason::NoMessages }));
}

#[test]
fn correct_reply_wins_and_starts_the_next_round() {
    let mut s = active_session();
    let effects = s.step(Event::Reply { guesser: 7, content: "alice".to_string() });
    assert_eq!(s.phase, Phase::AwaitingMessage);
    assert!(s.round.is_none());
    assert_eq!(effects.len(), 4);
    assert!(matches!(effects[0], Effect::DisableRound));
    assert!(matches!(&effects[1], Effect::AnnounceCorrect { guesser: 7, username } if username == "Alice"));
    assert!(matches!(effects[2], Effect::RecordGuess { user: 7, correct: true }));
    assert!(matches!(effects[3], Effect::RequestMessage));
    assert_eq!(apply_guess(None, true), 30);
}

#[test]
fn display_name_also_wins() {
    let mut s = active_session();
    let effects = s.step(Event::Reply { guesser: 8, content: "WONDER AL".to_string() });
    assert_eq!(s.phase, Phase::AwaitingMessage);
    assert!(matches!(effects[2], Effect::RecordGuess { user: 8, correct: true }));
}

#[test]
fn wrong_reply_keeps_the_round_open() {
    let mut s = active_session();
    let effects = s.step(Event::Reply { guesser: 9, content: "bob".to_string() });
    assert_eq!(s.phase, Phase::RoundActive);
    assert!(s.round.is_some());
    assert_eq!(effects.len(), 1);
    assert!(matches!(effects[0], Effect::RecordGuess { user: 9, correct: false }));
    let near_effects = s.step(Event::Reply { guesser: 9, content: "alicee".to_string() });
    assert_eq!(s.phase, Phase::RoundActive);
    assert!(matches!(near_effects[0], Effect::RecordGuess { user: 9, correct: false }));
}

#[test]
fn round_timeout_ends_with_times_up() {
    let mut s = active_session();
    let effects = s.step(Event::RoundTimeout);
    assert_eq!(s.phase, Phase::Ended(EndReason::TimeUp));
    assert!(s.round.is_none());
    assert_eq!(effects.len(), 2);
    assert!(matches!(effects[0], Effect::DisableRound));
    assert!(matches!(effects[1], Effect::AnnounceEnd { reason: EndReason::TimeUp }));
}

#[test]
fn reveal_moves_to_the_next_round() {
    let mut s = active_session();
    let effects = s.step(Event::Reveal);
    assert_eq!(s.phase, Phase::AwaitingMessage);
    assert!(matches!(effects[0], Effect::DisableRound));
    assert!(matches!(&effects[1], Effect::RevealAuthor { username } if username == "Alice"));
    assert!(matches!(effects[2], Effect::RequestMessage));
}

#[test]
fn end_click_ends_the_game() {
    let mut s = active_session();
    let effects = s.step(Event::EndGame);
    assert_eq!(s.phase, Phase::Ended(EndReason::EndedByUser));
    assert!(matches!(effects[0], Effect::DisableRound));
    assert!(matches!(effects[1], Effect::AnnounceEnd { reason: EndReason::EndedByUser }));
}

#[test]
fn guesses_are_compared_ignoring_case() {
    assert_eq!(check_guess("alice", "Alice", "Al"), GuessOutcome::Correct);
    assert_eq!(check_guess("ALICE", "alice", "Al"), GuessOutcome::Correct);
    assert_eq!(check_guess("al", "Alice", "AL"), GuessOutcome::Correct);
    assert_eq!(check_guess("alic", "Alice", "Zed"), GuessOutcome::NearMiss);
    assert_eq!(check_guess("bob", "Alice", "Zed"), GuessOutcome::Miss);
    assert_eq!(check_guess("Alice ", "Alice", "Zed"), GuessOutcome::NearMiss);
}

#[test]
fn matches_tells_exact_near_and_far() {
    assert_eq!(greg_bot::game::matches("alice", "alice"), Some(true));
    assert_eq!(greg_bot::game::matches("alice", "alicf"), Some(false));
    assert_eq!(greg_bot::game::matches("alice", "xyz"), None);
    assert_eq!(greg_bot::game::matches("", ""), Some(true));
}

#[test]
fn levenshtein_counts_edits() {
    let a: Vec<char> = "kitten".chars().collect();
    let b: Vec<char> = "sitting".chars().collect();
    assert_eq!(levenshtein(&a, &b), 3);
    assert_eq!(levenshtein(&a, &Vec::new()), 6);
    assert_eq!(levenshtein(&a, &a), 0);
    assert!(near("alicee", "alice"));
    assert!(!near("al", "alice"));
}

#[test]
fn ratings_move_by_fixed_steps() {
    assert_eq!(rating_delta(true), CORRECT_DELTA);
    assert_eq!(rating_delta(false), INCORRECT_DELTA);
    assert_eq!(apply_guess(None, false), -1);
    assert_eq!(apply_guess(Some(30), true), 60);
    assert_eq!(apply_guess(Some(i64::MAX), true), i64::MAX);
    assert_eq!(apply_guess(Some(i64::MIN), false), i64::MIN);
}

#[test]
fn two_wrong_guesses_both_count() {
    let first = apply_guess(None, false);
    let second = apply_guess(Some(first), false);
    assert_eq!(second, -2);
}

#[test]
fn gestalt_pairs_blocks_recursively() {
    let a: Vec<char> = "WIKIMEDIA".chars().collect();
    let b: Vec<char> = "WIKIMANIA".chars().collect();
    assert_eq!(matched_count(&a, &b), 7);
    let c: Vec<char> = "xyz".chars().collect();
    assert_eq!(matched_count(&a, &c), 0);
    assert!(near("aaaab", "baaaa"));
    assert!(!near("abcdef", "defabc"));
}
