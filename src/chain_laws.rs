//! What training and generation guarantee, stated over the table model.
use vstd::prelude::*;
use vstd::multiset::Multiset;
use crate::markov_chain::{add_pair, add_pairs, is_generated, is_walk, succ_of, train_all, trained, valid_start};
use crate::text::{is_word, join, lemma_split_join, lemma_words_of_are_words, words_of};

verus! {

broadcast use vstd::seq_lib::group_to_multiset_ensures;

/// `w` stands right after another word in some sentence of `corpus`.
pub open spec fn is_recorded_successor(corpus: Seq<Seq<char>>, w: Seq<char>) -> bool {
    exists|j: int, k: int|
        0 <= j < corpus.len() && 1 <= k < words_of(corpus[j]).len() && #[trigger] words_of(
            corpus[j],
        )[k] == w
}

/// `w` stands right before another word in some sentence of `corpus`.
pub open spec fn is_recorded_key(corpus: Seq<Seq<char>>, w: Seq<char>) -> bool {
    exists|j: int, k: int|
        0 <= j < corpus.len() && 0 <= k && k + 1 < words_of(corpus[j]).len() && #[trigger] words_of(
            corpus[j],
        )[k] == w
}

/// Every key of `m` has at least one successor.
pub open spec fn all_nonempty(m: Map<Seq<char>, Seq<Seq<char>>>) -> bool {
    forall|k: Seq<char>| #[trigger] m.contains_key(k) ==> m[k].len() > 0
}

proof fn lemma_add_pairs_origin(m: Map<Seq<char>, Seq<Seq<char>>>, ws: Seq<Seq<char>>, a: Seq<char>, b: Seq<char>)
    ensures
        succ_of(add_pairs(m, ws), a).contains(b) ==> succ_of(m, a).contains(b) || exists|k: int|
            1 <= k < ws.len() && #[trigger] ws[k] == b,
        add_pairs(m, ws).contains_key(a) ==> m.contains_key(a) || exists|k: int|
            0 <= k && k + 1 < ws.len() && #[trigger] ws[k] == a,
    decreases ws.len(),
{
    if ws.len() >= 2 {
        let p = ws.drop_last();
        lemma_add_pairs_origin(m, p, a, b);
        let n = ws.len() - 1;
        let inner = add_pairs(m, p);
        if succ_of(add_pairs(m, ws), a).contains(b) {
            if a == ws[n - 1] {
                let s = succ_of(inner, a);
                assert(succ_of(add_pairs(m, ws), a) == s.push(ws[n]));
                let i = choose|i: int| 0 <= i < s.len() + 1 && s.push(ws[n])[i] == b;
                if i == s.len() {
                    assert(ws[n] == b);
                } else {
                    assert(s[i] == b);
                    if !succ_of(m, a).contains(b) {
                        let k = choose|k: int| 1 <= k < p.len() && #[trigger] p[k] == b;
                        assert(ws[k] == b);
                    }
                }
            } else {
                assert(succ_of(add_pairs(m, ws), a) == succ_of(inner, a));
                if !succ_of(m, a).contains(b) {
                    let k = choose|k: int| 1 <= k < p.len() && #[trigger] p[k] == b;
                    assert(ws[k] == b);
                }
            }
        }
        if add_pairs(m, ws).contains_key(a) && !m.contains_key(a) {
            if a == ws[n - 1] {
                assert(ws[n - 1] == a);
            } else {
                let k = choose|k: int| 0 <= k && k + 1 < p.len() && #[trigger] p[k] == a;
                assert(ws[k] == a);
            }
        }
    }
}

proof fn lemma_train_origin(corpus: Seq<Seq<char>>, a: Seq<char>, b: Seq<char>)
    ensures
        succ_of(trained(corpus), a).contains(b) ==> is_recorded_successor(corpus, b),
        trained(corpus).contains_key(a) ==> is_recorded_key(corpus, a),
    decreases corpus.len(),
{
    if corpus.len() > 0 {
        let p = corpus.drop_last();
        let n = corpus.len() - 1;
        let ws = words_of(corpus[n]);
        lemma_train_origin(p, a, b);
        lemma_add_pairs_origin(trained(p), ws, a, b);
        assert(trained(corpus) == add_pairs(trained(p), ws));
        if succ_of(trained(corpus), a).contains(b) {
            if succ_of(trained(p), a).contains(b) {
                let (j, k) = choose|j: int, k: int|
                    0 <= j < p.len() && 1 <= k < words_of(p[j]).len() && #[trigger] words_of(p[j])[k]
                        == b;
                assert(corpus[j] == p[j]);
                assert(words_of(corpus[j])[k] == b);
            } else {
                let k = choose|k: int| 1 <= k < ws.len() && #[trigger] ws[k] == b;
                assert(words_of(corpus[n])[k] == b);
            }
        }
        if trained(corpus).contains_key(a) {
            if trained(p).contains_key(a) {
                let (j, k) = choose|j: int, k: int|
                    0 <= j < p.len() && 0 <= k && k + 1 < words_of(p[j]).len() && #[trigger] words_of(
                        p[j],
                    )[k] == a;
                assert(corpus[j] == p[j]);
                assert(words_of(corpus[j])[k] == a);
            } else {
                let k = choose|k: int| 0 <= k && k + 1 < ws.len() && #[trigger] ws[k] == a;
                assert(words_of(corpus[n])[k] == a);
            }
        }
    }
}

/// Every word of a sentence generated by a chain trained on `corpus` is a
/// word of the seed, a word that some word follows in `corpus` (the random
/// start), or a word that follows another in `corpus`.
pub proof fn lemma_generated_words_come_from_corpus(
    corpus: Seq<Seq<char>>,
    seed: Option<Seq<char>>,
    limit: nat,
    ws: Seq<Seq<char>>,
)
    requires
        is_generated(trained(corpus), seed, limit, ws),
    ensures
        forall|i: int|
            0 <= i < ws.len() ==> (seed is Some && words_of(seed->0).contains(#[trigger] ws[i]))
                || is_recorded_key(corpus, ws[i]) || is_recorded_successor(corpus, ws[i]),
{
    let m = trained(corpus);
    if ws.len() > 0 {
        let start = choose|start: Seq<Seq<char>>| valid_start(m, seed, start) && is_walk(m, start, limit, ws);
        assert forall|i: int| 0 <= i < ws.len() implies (seed is Some && words_of(seed->0).contains(
            #[trigger] ws[i],
        )) || is_recorded_key(corpus, ws[i]) || is_recorded_successor(corpus, ws[i]) by {
            if i < start.len() {
                assert(ws.take(start.len() as int)[i] == ws[i]);
                if seed is Some && words_of(seed->0).len() > 0 {
                    assert(words_of(seed->0)[i] == ws[i]);
                } else {
                    lemma_train_origin(corpus, ws[i], ws[i]);
                }
            } else {
                assert(succ_of(m, ws[i - 1]).contains(ws[i]));
                lemma_train_origin(corpus, ws[i - 1], ws[i]);
            }
        }
    }
}

/// The text that `generate` returns reads back as the words it walked, so
/// each of its tokens is a word of the seed, a word that some word follows in
/// `corpus`, or a word that follows another in `corpus`.
pub proof fn lemma_generated_text_comes_from_corpus(
    corpus: Seq<Seq<char>>,
    seed: Option<Seq<char>>,
    limit: nat,
    ws: Seq<Seq<char>>,
)
    requires
        is_generated(trained(corpus), seed, limit, ws),
    ensures
        words_of(join(ws)) == ws,
        forall|i: int|
            0 <= i < words_of(join(ws)).len() ==> (seed is Some && words_of(seed->0).contains(
                #[trigger] words_of(join(ws))[i],
            )) || is_recorded_key(corpus, words_of(join(ws))[i]) || is_recorded_successor(
                corpus,
                words_of(join(ws))[i],
            ),
{
    lemma_generated_words_come_from_corpus(corpus, seed, limit, ws);
    assert forall|i: int| 0 <= i < ws.len() implies is_word(#[trigger] ws[i]) by {
        if seed is Some && words_of(seed->0).contains(ws[i]) {
            lemma_words_of_are_words(seed->0);
            let k = choose|k: int| 0 <= k < words_of(seed->0).len() && words_of(seed->0)[k] == ws[i];
        } else if is_recorded_key(corpus, ws[i]) {
            let (j, k) = choose|j: int, k: int|
                0 <= j < corpus.len() && 0 <= k && k + 1 < words_of(corpus[j]).len() && #[trigger] words_of(
                    corpus[j],
                )[k] == ws[i];
            lemma_words_of_are_words(corpus[j]);
        } else {
            let (j, k) = choose|j: int, k: int|
                0 <= j < corpus.len() && 1 <= k < words_of(corpus[j]).len() && #[trigger] words_of(
                    corpus[j],
                )[k] == ws[i];
            lemma_words_of_are_words(corpus[j]);
        }
    }
    lemma_split_join(ws);
}

proof fn lemma_add_pairs_counts(m: Map<Seq<char>, Seq<Seq<char>>>, ws: Seq<Seq<char>>, a: Seq<char>)
    ensures
        succ_of(add_pairs(m, ws), a).to_multiset() == succ_of(m, a).to_multiset().add(
            succ_of(add_pairs(Map::empty(), ws), a).to_multiset(),
        ),
    decreases ws.len(),
{
    let e = Map::<Seq<char>, Seq<Seq<char>>>::empty();
    if ws.len() < 2 {
        assert(succ_of(e, a).to_multiset() =~= Multiset::empty());
        assert(succ_of(m, a).to_multiset().add(Multiset::empty()) =~= succ_of(m, a).to_multiset());
    } else {
        let p = ws.drop_last();
        let n = ws.len() - 1;
        lemma_add_pairs_counts(m, p, a);
        let x = succ_of(add_pairs(m, p), a);
        let y = succ_of(add_pairs(e, p), a);
        if a == ws[n - 1] {
            assert(succ_of(add_pairs(m, ws), a) == x.push(ws[n]));
            assert(succ_of(add_pairs(e, ws), a) == y.push(ws[n]));
            assert(succ_of(add_pairs(m, ws), a).to_multiset() =~= succ_of(m, a).to_multiset().add(
                succ_of(add_pairs(e, ws), a).to_multiset(),
            ));
        } else {
            assert(succ_of(add_pairs(m, ws), a) == x);
            assert(succ_of(add_pairs(e, ws), a) == y);
        }
    }
}

proof fn lemma_train_counts(m: Map<Seq<char>, Seq<Seq<char>>>, corpus: Seq<Seq<char>>, a: Seq<char>)
    ensures
        succ_of(train_all(m, corpus), a).to_multiset() == succ_of(m, a).to_multiset().add(
            succ_of(trained(corpus), a).to_multiset(),
        ),
    decreases corpus.len(),
{
    let e = Map::<Seq<char>, Seq<Seq<char>>>::empty();
    if corpus.len() == 0 {
        assert(succ_of(e, a).to_multiset() =~= Multiset::empty());
        assert(succ_of(m, a).to_multiset().add(Multiset::empty()) =~= succ_of(m, a).to_multiset());
    } else {
        let p = corpus.drop_last();
        let ws = words_of(corpus.last());
        lemma_train_counts(m, p, a);
        lemma_add_pairs_counts(train_all(m, p), ws, a);
        lemma_add_pairs_counts(trained(p), ws, a);
        assert(succ_of(train_all(m, corpus), a).to_multiset() =~= succ_of(m, a).to_multiset().add(
            succ_of(trained(corpus), a).to_multiset(),
        ));
    }
}

proof fn lemma_add_pairs_nonempty(m: Map<Seq<char>, Seq<Seq<char>>>, ws: Seq<Seq<char>>)
    requires
        all_nonempty(m),
    ensures
        all_nonempty(add_pairs(m, ws)),
    decreases ws.len(),
{
    if ws.len() >= 2 {
        lemma_add_pairs_nonempty(m, ws.drop_last());
    }
}

proof fn lemma_train_nonempty(m: Map<Seq<char>, Seq<Seq<char>>>, corpus: Seq<Seq<char>>)
    requires
        all_nonempty(m),
    ensures
        all_nonempty(train_all(m, corpus)),
    decreases corpus.len(),
{
    if corpus.len() > 0 {
        lemma_train_nonempty(m, corpus.drop_last());
        lemma_add_pairs_nonempty(train_all(m, corpus.drop_last()), words_of(corpus.last()));
    }
}

/// Training a chain twice on the same corpus keeps the shape of what it
/// draws from: the same words have successors, and each successor is
/// recorded exactly twice as often, so the odds of every draw are unchanged.
pub proof fn lemma_train_twice_same_shape(corpus: Seq<Seq<char>>)
    ensures
        train_all(trained(corpus), corpus).dom() == trained(corpus).dom(),
        forall|a: Seq<char>|
            #[trigger] succ_of(train_all(trained(corpus), corpus), a).to_multiset() == succ_of(
                trained(corpus),
                a,
            ).to_multiset().add(succ_of(trained(corpus), a).to_multiset()),
{
    let once = trained(corpus);
    let twice = train_all(once, corpus);
    assert(all_nonempty(Map::<Seq<char>, Seq<Seq<char>>>::empty()));
    lemma_train_nonempty(Map::empty(), corpus);
    lemma_train_nonempty(once, corpus);
    assert forall|a: Seq<char>|
        #[trigger] succ_of(twice, a).to_multiset() == succ_of(once, a).to_multiset().add(
            succ_of(once, a).to_multiset(),
        ) by {
        lemma_train_counts(once, corpus, a);
    }
    assert forall|a: Seq<char>| twice.dom().contains(a) <==> once.dom().contains(a) by {
        lemma_train_counts(once, corpus, a);
        if once.contains_key(a) {
            let b = once[a][0];
            assert(once[a].contains(b));
            assert(succ_of(twice, a).to_multiset().count(b) > 0);
            assert(succ_of(twice, a).contains(b));
        }
        if twice.contains_key(a) {
            let b = twice[a][0];
            assert(twice[a].contains(b));
            assert(succ_of(twice, a).to_multiset().count(b) > 0);
            assert(succ_of(once, a).to_multiset().count(b) > 0);
            assert(succ_of(once, a).contains(b));
        }
    }
    assert(twice.dom() =~= once.dom());
}

} // verus!
