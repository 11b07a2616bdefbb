//! The guessing game of one channel, as a state machine. The caller waits
//! for the events (clicks, replies, timers, the sampled message), hands each
//! to `Game::step`, and carries out the effects it returns in order.
use vstd::prelude::*;
use crate::similarity::{is_near, near};
use crate::text::{lower_of, lowercase};

verus! {

/// Seconds the lobby waits for a click on start or cancel.
pub const LOBBY_TIMEOUT_SECS: u64 = 60;

/// Seconds a round stays open after its message is posted.
pub const ROUND_TIMEOUT_SECS: u64 = 180;

/// How a guess compares with the author's names.
#[derive(Debug, Clone, Copy, PartialEq, Eq, Structural)]
pub enum GuessOutcome {
    /// Equal, ignoring case, to the username or the display name.
    Correct,
    /// Not equal, but close to one of them; still incorrect.
    NearMiss,
    /// Neither.
    Miss,
}

/// Why a game ended.
#[derive(Debug, Clone, Copy, PartialEq, Eq, Structural)]
pub enum EndReason {
    /// Cancel was clicked in the lobby.
    Cancelled,
    /// Nobody answered the lobby in time.
    NoResponse,
    /// No archived message qualifies for a round.
    NoMessages,
    /// End game was clicked during a round.
    EndedByUser,
    /// Nobody solved the round in time.
    TimeUp,
}

/// Where a session stands.
#[derive(Debug, Clone, Copy, PartialEq, Eq, Structural)]
pub enum Phase {
    /// Start and cancel are offered.
    Lobby,
    /// A message for the next round has been asked for.
    AwaitingMessage,
    /// A round is posted and open to guesses.
    RoundActive,
    /// The game is over; nothing more happens.
    Ended(EndReason),
}

/// The message of one round and who wrote it.
#[derive(Debug)]
pub struct Round {
    pub content: String,
    pub author_id: u64,
    pub username: String,
    pub display_name: String,
}

/// What the caller observed.
#[derive(Debug)]
pub enum Event {
    /// Start was clicked in the lobby.
    Start,
    /// Cancel was clicked in the lobby.
    Cancel,
    /// `LOBBY_TIMEOUT_SECS` passed without a click in the lobby.
    LobbyTimeout,
    /// The message asked for: a round, or nothing where no message qualifies
    /// or the store failed.
    Sampled(Option<Round>),
    /// Reveal answer was clicked.
    Reveal,
    /// End game was clicked.
    EndGame,
    /// A text message was posted in the channel.
    Reply { guesser: u64, content: String },
    /// `ROUND_TIMEOUT_SECS` passed since the round was posted.
    RoundTimeout,
}

/// What the caller must do, in order.
#[derive(Debug)]
pub enum Effect {
    /// Disable the lobby's start and cancel controls.
    DisableLobby,
    /// Sample a message for a new round and report it with `Event::Sampled`.
    RequestMessage,
    /// Post the round's message with its reveal and end controls.
    PostRound { content: String },
    /// Disable the round's controls.
    DisableRound,
    /// Announce who wrote the round's message.
    RevealAuthor { username: String },
    /// Announce that `guesser` named the author.
    AnnounceCorrect { guesser: u64, username: String },
    /// Record a guess of `user` with the rating tracker.
    RecordGuess { user: u64, correct: bool },
    /// Announce the end of the game.
    AnnounceEnd { reason: EndReason },
}

/// `guess` names the author: ignoring case, it equals the username or the
/// display name.
pub open spec fn wins(guess: Seq<char>, username: Seq<char>, display_name: Seq<char>) -> bool {
    lower_of(guess) == lower_of(username) || lower_of(guess) == lower_of(display_name)
}

/// `a` and `b` are short enough that their edit distance can be counted.
pub open spec fn fits(a: Seq<char>, b: Seq<char>) -> bool {
    a.len() + b.len() < usize::MAX
}

/// Compares a lower-cased name `src` with a lower-cased guess `content`:
/// `Some(true)` where they are equal, `Some(false)` where they differ but the
/// guess is close to the name, and nothing otherwise.
pub fn matches(src: &str, content: &str) -> (r: Option<bool>)
    ensures
        r == Some(true) <==> src@ == content@,
        r == Some(false) <==> src@ != content@ && fits(content@, src@) && is_near(content@, src@),
{
    if src.to_owned() == content.to_owned() {
        return Some(true);
    }
    let a = content.unicode_len();
    let b = src.unicode_len();
    if a < usize::MAX - b && near(content, src) {
        Some(false)
    } else {
        None
    }
}

/// How `guess` fares against the author's names: correct exactly when it
/// equals one of them ignoring case, a near miss when it is close to one of
/// them ignoring case, and a miss otherwise.
pub fn check_guess(guess: &str, username: &str, display_name: &str) -> (r: GuessOutcome)
    ensures
        r == GuessOutcome::Correct <==> wins(guess@, username@, display_name@),
        r == GuessOutcome::NearMiss <==> !wins(guess@, username@, display_name@) && ((fits(
            lower_of(guess@),
            lower_of(username@),
        ) && is_near(lower_of(guess@), lower_of(username@))) || (fits(
            lower_of(guess@),
            lower_of(display_name@),
        ) && is_near(lower_of(guess@), lower_of(display_name@)))),
{
    let g = lowercase(guess);
    let u = lowercase(username);
    let d = lowercase(display_name);
    let by_name = matches(u.as_str(), g.as_str());
    let by_display = matches(d.as_str(), g.as_str());
    if by_name == Some(true) || by_display == Some(true) {
        GuessOutcome::Correct
    } else if by_name == Some(false) || by_display == Some(false) {
        GuessOutcome::NearMiss
    } else {
        GuessOutcome::Miss
    }
}

/// One game session: its phase, and the open round while there is one.
#[derive(Debug)]
pub struct Game {
    pub phase: Phase,
    pub round: Option<Round>,
}

/// A session after it ends for `reason`.
pub open spec fn ended(reason: EndReason) -> Game {
    Game { phase: Phase::Ended(reason), round: None }
}

/// A session waiting for the message of its next round.
pub open spec fn awaiting() -> Game {
    Game { phase: Phase::AwaitingMessage, round: None }
}

/// The session after `e` and the effects that `e` calls for. An event that
/// does not belong to the current phase changes nothing and calls for
/// nothing.
pub open spec fn transition(s: Game, e: Event) -> (Game, Seq<Effect>) {
    match s.phase {
        Phase::Lobby => match e {
            Event::Start => (awaiting(), seq![Effect::DisableLobby, Effect::RequestMessage]),
            Event::Cancel => (
                ended(EndReason::Cancelled),
                seq![Effect::DisableLobby, Effect::AnnounceEnd { reason: EndReason::Cancelled }],
            ),
            Event::LobbyTimeout => (
                ended(EndReason::NoResponse),
                seq![Effect::DisableLobby, Effect::AnnounceEnd { reason: EndReason::NoResponse }],
            ),
            _ => (s, Seq::empty()),
        },
        Phase::AwaitingMessage => match e {
            Event::Sampled(Some(round)) => {
                let content = round.content;
                (
                    Game { phase: Phase::RoundActive, round: Some(round) },
                    seq![Effect::PostRound { content }],
                )
            },
            Event::Sampled(None) => (
                ended(EndReason::NoMessages),
                seq![Effect::AnnounceEnd { reason: EndReason::NoMessages }],
            ),
            _ => (s, Seq::empty()),
        },
        Phase::RoundActive => match (e, s.round) {
            (Event::Reveal, Some(round)) => (
                awaiting(),
                seq![
                    Effect::DisableRound,
                    Effect::RevealAuthor { username: round.username },
                    Effect::RequestMessage,
                ],
            ),
            (Event::EndGame, Some(_)) => (
                ended(EndReason::EndedByUser),
                seq![Effect::DisableRound, Effect::AnnounceEnd { reason: EndReason::EndedByUser }],
            ),
            (Event::RoundTimeout, Some(_)) => (
                ended(EndReason::TimeUp),
                seq![Effect::DisableRound, Effect::AnnounceEnd { reason: EndReason::TimeUp }],
            ),
            (Event::Reply { guesser, content }, Some(round)) => {
                if wins(content@, round.username@, round.display_name@) {
                    (
                        awaiting(),
                        seq![
                            Effect::DisableRound,
                            Effect::AnnounceCorrect { guesser, username: round.username },
                            Effect::RecordGuess { user: guesser, correct: true },
                            Effect::RequestMessage,
                        ],
                    )
                } else {
                    (s, seq![Effect::RecordGuess { user: guesser, correct: false }])
                }
            },
            _ => (s, Seq::empty()),
        },
        Phase::Ended(_) => (s, Seq::empty()),
    }
}

impl Game {
    /// A round is open exactly in the phase `RoundActive`.
    pub open spec fn wf(&self) -> bool {
        (self.phase == Phase::RoundActive) == (self.round is Some)
    }

    /// A new session in its lobby.
    pub fn new() -> (r: Self)
        ensures
            r.wf(),
            r.phase == Phase::Lobby,
            r.round is None,
    {
        Game { phase: Phase::Lobby, round: None }
    }

    /// The game is over.
    pub fn is_over(&self) -> (r: bool)
        ensures
            r == (self.phase is Ended),
    {
        match self.phase {
            Phase::Ended(_) => true,
            _ => false,
        }
    }

    /// Takes in one event: moves to the next phase and returns the effects
    /// to carry out, as `transition` gives them.
    pub fn step(&mut self, e: Event) -> (r: Vec<Effect>)
        requires
            old(self).wf(),
        ensures
            final(self).wf(),
            (*final(self), r@) == transition(*old(self), e),
    {
        match self.phase {
            Phase::Lobby => match e {
                Event::Start => {
                    self.phase = Phase::AwaitingMessage;
                    vec![Effect::DisableLobby, Effect::RequestMessage]
                },
                Event::Cancel => {
                    self.phase = Phase::Ended(EndReason::Cancelled);
                    vec![Effect::DisableLobby, Effect::AnnounceEnd { reason: EndReason::Cancelled }]
                },
                Event::LobbyTimeout => {
                    self.phase = Phase::Ended(EndReason::NoResponse);
                    vec![Effect::DisableLobby, Effect::AnnounceEnd { reason: EndReason::NoResponse }]
                },
                _ => Vec::new(),
            },
            Phase::AwaitingMessage => match e {
                Event::Sampled(Some(round)) => {
                    let content = round.content.clone();
                    self.phase = Phase::RoundActive;
                    self.round = Some(round);
                    vec![Effect::PostRound { content }]
                },
                Event::Sampled(None) => {
                    self.phase = Phase::Ended(EndReason::NoMessages);
                    vec![Effect::AnnounceEnd { reason: EndReason::NoMessages }]
                },
                _ => Vec::new(),
            },
            Phase::RoundActive => match e {
                Event::Reveal => {
                    let round = self.round.take();
                    match round {
                        Some(round) => {
                            self.phase = Phase::AwaitingMessage;
                            vec![
                                Effect::DisableRound,
                                Effect::RevealAuthor { username: round.username },
                                Effect::RequestMessage,
                            ]
                        },
                        None => Vec::new(),
                    }
                },
                Event::EndGame => {
                    self.phase = Phase::Ended(EndReason::EndedByUser);
                    self.round = None;
                    vec![Effect::DisableRound, Effect::AnnounceEnd { reason: EndReason::EndedByUser }]
                },
                Event::RoundTimeout => {
                    self.phase = Phase::Ended(EndReason::TimeUp);
                    self.round = None;
                    vec![Effect::DisableRound, Effect::AnnounceEnd { reason: EndReason::TimeUp }]
                },
                Event::Reply { guesser, content } => {
                    let outcome = match &self.round {
                        Some(round) => check_guess(
                            content.as_str(),
                            round.username.as_str(),
                            round.display_name.as_str(),
                        ),
                        None => GuessOutcome::Miss,
                    };
                    if outcome == GuessOutcome::Correct {
                        let round = self.round.take();
                        match round {
                            Some(round) => {
                                self.phase = Phase::AwaitingMessage;
                                vec![
                                    Effect::DisableRound,
                                    Effect::AnnounceCorrect { guesser, username: round.username },
                                    Effect::RecordGuess { user: guesser, correct: true },
                                    Effect::RequestMessage,
                                ]
                            },
                            None => Vec::new(),
                        }
                    } else {
                        vec![Effect::RecordGuess { user: guesser, correct: false }]
                    }
                },
                _ => Vec::new(),
            },
            Phase::Ended(_) => Vec::new(),
        }
    }
}

/// An ended session stays as it is, whatever happens, and calls for
/// nothing more.
pub proof fn lemma_ended_is_final(s: Game, e: Event)
    requires
        s.phase is Ended,
    ensures
        transition(s, e).0 == s,
        transition(s, e).1.len() == 0,
{
}

/// A round never closes with its controls left live: whenever a step leaves
/// the phase `RoundActive`, the first effect disables the round's controls.
pub proof fn lemma_round_closes_disabled(s: Game, e: Event)
    requires
        s.wf(),
        s.phase == Phase::RoundActive,
        transition(s, e).0.phase != Phase::RoundActive,
    ensures
        transition(s, e).1.len() > 0,
        transition(s, e).1[0] == Effect::DisableRound,
{
}

/// Likewise the lobby: leaving it always disables its controls first.
pub proof fn lemma_lobby_closes_disabled(s: Game, e: Event)
    requires
        s.phase == Phase::Lobby,
        transition(s, e).0.phase != Phase::Lobby,
    ensures
        transition(s, e).1.len() > 0,
        transition(s, e).1[0] == Effect::DisableLobby,
{
}

} // verus!
