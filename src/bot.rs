//! What the bot does with an incoming chat message, and when it speaks on
//! its own.
use vstd::prelude::*;
use crate::random::random_below;
use crate::sampler::{has_prefix, is_denied, starts_with, starts_with_any};

verus! {

/// The prefixes of commands and noise that are never archived.
pub open spec fn archive_denylist() -> Seq<Seq<char>> {
    seq![
        "$"@, "&"@, "!"@, "."@, "m."@, ">"@, "<"@, "["@, "]"@, "@"@, "#"@, "%"@, "^"@, "*"@, ","@,
    ]
}

/// The prefixes that keep a message out of the archive, as
/// `archive_denylist` gives them.
pub fn archive_prefixes() -> (r: Vec<&'static str>)
    ensures
        r@.map_values(|p: &str| p@) == archive_denylist(),
{
    let r = vec!["$", "&", "!", ".", "m.", ">", "<", "[", "]", "@", "#", "%", "^", "*", ","];
    assert(r@.map_values(|p: &str| p@) =~= archive_denylist());
    r
}

/// `pat` occurs somewhere in `s`.
pub open spec fn occurs_in(s: Seq<char>, pat: Seq<char>) -> bool {
    exists|i: int| 0 <= i <= s.len() - pat.len() && #[trigger] s.subrange(i, i + pat.len()) == pat
}

/// Tests whether `pat` occurs somewhere in `s`.
pub fn contains_text(s: &str, pat: &str) -> (r: bool)
    ensures
        r == occurs_in(s@, pat@),
{
    let n = s.unicode_len();
    let m = pat.unicode_len();
    if m > n {
        return false;
    }
    let mut i: usize = 0;
    while i <= n - m
        invariant
            n == s@.len(),
            m == pat@.len(),
            m <= n,
            i <= n - m + 1,
            forall|j: int| 0 <= j < i ==> #[trigger] s@.subrange(j, j + m) != pat@,
        decreases n - m + 1 - i,
    {
        let piece = s.substring_char(i, i + m);
        if starts_with(piece, pat) {
            assert(piece@.take(m as int) =~= piece@);
            return true;
        }
        assert(piece@.take(m as int) =~= piece@);
        if i == n - m {
            return false;
        }
        i = i + 1;
    }
    false
}

/// What to do with a message.
#[derive(Debug, Clone, Copy, PartialEq, Eq, Structural)]
pub enum Incoming {
    /// Leave it alone.
    Ignore,
    /// Answer with a generated sentence.
    Reply,
    /// Store it in the archive.
    Archive,
}

/// What a message calls for, from what the chat platform tells of it. A
/// message outside a server, by a bot, or answering one of this bot's
/// embeds is ignored; one that mentions the bot is answered; any other is
/// archived unless it starts with an archive-denied prefix or holds the
/// bot's mention text.
pub open spec fn incoming_spec(
    in_guild: bool,
    author_is_bot: bool,
    answers_own_embed: bool,
    mentions_bot: bool,
    content: Seq<char>,
    mention: Seq<char>,
    prefixes: Seq<&str>,
) -> Incoming {
    if !in_guild || author_is_bot || answers_own_embed {
        Incoming::Ignore
    } else if mentions_bot {
        Incoming::Reply
    } else if is_denied(content, prefixes) || occurs_in(content, mention) {
        Incoming::Ignore
    } else {
        Incoming::Archive
    }
}

/// Decides what a message calls for, as `incoming_spec` says.
pub fn classify_incoming(
    in_guild: bool,
    author_is_bot: bool,
    answers_own_embed: bool,
    mentions_bot: bool,
    content: &str,
    mention: &str,
    prefixes: &Vec<&str>,
) -> (r: Incoming)
    ensures
        r == incoming_spec(
            in_guild,
            author_is_bot,
            answers_own_embed,
            mentions_bot,
            content@,
            mention@,
            prefixes@,
        ),
{
    if !in_guild || author_is_bot || answers_own_embed {
        Incoming::Ignore
    } else if mentions_bot {
        Incoming::Reply
    } else if starts_with_any(content, prefixes) || contains_text(content, mention) {
        Incoming::Ignore
    } else {
        Incoming::Archive
    }
}

/// The shortest pause, in seconds, between two unprompted messages.
pub const MIN_PAUSE_SECS: u64 = 300;

/// Pauses between unprompted messages are drawn below this many seconds.
pub const MAX_PAUSE_SECS: u64 = 900;

/// A pause before the next unprompted message, drawn at random.
pub fn next_pause_secs() -> (r: u64)
    ensures
        MIN_PAUSE_SECS <= r < MAX_PAUSE_SECS,
{
    random_below(MIN_PAUSE_SECS as usize, MAX_PAUSE_SECS as usize) as u64
}

/// The bot speaks on its own in a channel only where none of the recent
/// messages, given by their authors, is its own.
pub fn may_speak(recent_authors: &Vec<u64>, bot_id: u64) -> (r: bool)
    ensures
        r == !recent_authors@.contains(bot_id),
{
    let mut i: usize = 0;
    while i < recent_authors.len()
        invariant
            i <= recent_authors@.len(),
            forall|j: int| 0 <= j < i ==> recent_authors@[j] != bot_id,
        decreases recent_authors@.len() - i,
    {
        if recent_authors[i] == bot_id {
            return false;
        }
        i = i + 1;
    }
    true
}

} // verus!
