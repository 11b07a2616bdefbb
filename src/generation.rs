//! One generation request: a chain is trained on a sampled corpus and asked
//! for one sentence, provided the corpus is large enough.
use vstd::prelude::*;
use crate::markov_chain::{is_generated, seed_view, trained, Chain};
use crate::random::random_below;
use crate::text::{join, views};

verus! {

/// The fewest sentences a corpus needs before a chain is built from it.
pub const MIN_CORPUS: usize = 500;

/// The most sentences fetched for one corpus.
pub const FETCH_LIMIT: usize = 2000;

/// The word limit of a generation is drawn from `1..MAX_WORD_LIMIT`.
pub const MAX_WORD_LIMIT: usize = 15;

/// The sentence that a chain trained on `corpus` may give, or nothing where
/// the corpus is too small to train on.
pub open spec fn is_reply(
    corpus: Seq<Seq<char>>,
    seed: Option<Seq<char>>,
    word_limit: nat,
    r: Option<String>,
) -> bool {
    if corpus.len() < MIN_CORPUS {
        r is None
    } else {
        r is Some && exists|ws: Seq<Seq<char>>|
            is_generated(trained(corpus), seed, word_limit, ws) && r->0@ == join(ws)
    }
}

/// Answers a generation request with a given word limit: nothing where
/// `sentences` holds fewer than `MIN_CORPUS` sentences (no chain is built
/// then), else a sentence of a chain trained on them.
pub fn markov_reply(sentences: Vec<String>, word_limit: usize, custom_word: Option<&str>) -> (r:
    Option<String>)
    ensures
        is_reply(views(sentences@), seed_view(custom_word), word_limit as nat, r),
{
    if sentences.len() < MIN_CORPUS {
        return None;
    }
    let mut chain = Chain::new();
    chain.train(sentences);
    Some(chain.generate(word_limit, custom_word))
}

/// Answers a generation request as `markov_reply` does, with a word limit
/// drawn at random from `1..MAX_WORD_LIMIT`.
pub fn generate_markov_message(sentences: Vec<String>, custom_word: Option<&str>) -> (r: Option<
    String,
>)
    ensures
        exists|word_limit: nat|
            1 <= word_limit < MAX_WORD_LIMIT && is_reply(
                views(sentences@),
                seed_view(custom_word),
                word_limit,
                r,
            ),
{
    let word_limit = random_below(1, MAX_WORD_LIMIT);
    markov_reply(sentences, word_limit, custom_word)
}

} // verus!
