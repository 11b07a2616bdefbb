//! A first-order Markov chain over words: training records, for every word,
//! the words seen right after it; generation walks those records at random.
use vstd::prelude::*;
use crate::random::{pick, random_below};
use crate::text::{join, join_words, split_words, views, words_of};

verus! {

/// The words recorded after `a` in the table `m`; none when `a` is no key.
pub open spec fn succ_of(m: Map<Seq<char>, Seq<Seq<char>>>, a: Seq<char>) -> Seq<Seq<char>> {
    if m.contains_key(a) {
        m[a]
    } else {
        Seq::empty()
    }
}

/// `m` with `b` recorded once more after `a`.
pub open spec fn add_pair(m: Map<Seq<char>, Seq<Seq<char>>>, a: Seq<char>, b: Seq<char>) -> Map<
    Seq<char>,
    Seq<Seq<char>>,
> {
    m.insert(a, succ_of(m, a).push(b))
}

/// `m` with every adjacent pair of `ws` recorded, left to right.
pub open spec fn add_pairs(m: Map<Seq<char>, Seq<Seq<char>>>, ws: Seq<Seq<char>>) -> Map<
    Seq<char>,
    Seq<Seq<char>>,
>
    decreases ws.len(),
{
    if ws.len() < 2 {
        m
    } else {
        add_pair(add_pairs(m, ws.drop_last()), ws[ws.len() - 2], ws[ws.len() - 1])
    }
}

/// `m` after training on each sentence of `corpus` in turn.
pub open spec fn train_all(m: Map<Seq<char>, Seq<Seq<char>>>, corpus: Seq<Seq<char>>) -> Map<
    Seq<char>,
    Seq<Seq<char>>,
>
    decreases corpus.len(),
{
    if corpus.len() == 0 {
        m
    } else {
        add_pairs(train_all(m, corpus.drop_last()), words_of(corpus.last()))
    }
}

/// The table learnt from `corpus` alone.
pub open spec fn trained(corpus: Seq<Seq<char>>) -> Map<Seq<char>, Seq<Seq<char>>> {
    train_all(Map::empty(), corpus)
}

/// `ws` starts with `start` and continues it by at most `limit` words, each
/// one recorded after the word before it; it stops short of `limit` only at a
/// word after which nothing is recorded.
pub open spec fn is_walk(
    m: Map<Seq<char>, Seq<Seq<char>>>,
    start: Seq<Seq<char>>,
    limit: nat,
    ws: Seq<Seq<char>>,
) -> bool {
    &&& 0 < start.len() <= ws.len() <= start.len() + limit
    &&& ws.take(start.len() as int) == start
    &&& forall|i: int| start.len() <= i < ws.len() ==> #[trigger] succ_of(m, ws[i - 1]).contains(ws[i])
    &&& ws.len() < start.len() + limit ==> succ_of(m, ws.last()).len() == 0
}

/// Where a walk may begin: the words of the seed where it has any, else a
/// single key of the table.
pub open spec fn valid_start(
    m: Map<Seq<char>, Seq<Seq<char>>>,
    seed: Option<Seq<char>>,
    start: Seq<Seq<char>>,
) -> bool {
    if seed is Some && words_of(seed->0).len() > 0 {
        start == words_of(seed->0)
    } else {
        start.len() == 1 && m.contains_key(start[0])
    }
}

/// What a generation may return: the empty sentence where there is neither a
/// seed word nor a key, else a walk from a valid start.
pub open spec fn is_generated(
    m: Map<Seq<char>, Seq<Seq<char>>>,
    seed: Option<Seq<char>>,
    limit: nat,
    ws: Seq<Seq<char>>,
) -> bool {
    if !(seed is Some && words_of(seed->0).len() > 0) && m.dom().len() == 0 {
        ws.len() == 0
    } else {
        exists|start: Seq<Seq<char>>| valid_start(m, seed, start) && is_walk(m, start, limit, ws)
    }
}

/// The characters of an optional seed.
pub open spec fn seed_view(seed: Option<&str>) -> Option<Seq<char>> {
    match seed {
        Some(s) => Some(s@),
        None => None,
    }
}

/// The word-transition table of a Markov chain.
#[derive(Debug)]
pub struct Chain {
    keys: Vec<String>,
    successors: Vec<Vec<String>>,
}

impl Chain {
    /// The keys are distinct, each with a list of successors that is never
    /// empty.
    pub closed spec fn wf(&self) -> bool {
        &&& self.keys@.len() == self.successors@.len()
        &&& forall|i: int, j: int|
            0 <= i < j < self.keys@.len() ==> #[trigger] self.keys@[i]@ != #[trigger] self.keys@[j]@
        &&& forall|i: int| 0 <= i < self.successors@.len() ==> #[trigger] self.successors@[i]@.len() > 0
    }

    pub closed spec fn has_key(&self, k: Seq<char>) -> bool {
        exists|i: int| 0 <= i < self.keys@.len() && #[trigger] self.keys@[i]@ == k
    }

    pub closed spec fn key_index(&self, k: Seq<char>) -> int {
        choose|i: int| 0 <= i < self.keys@.len() && #[trigger] self.keys@[i]@ == k
    }

    /// The table: each key with the words recorded after it.
    pub closed spec fn view(&self) -> Map<Seq<char>, Seq<Seq<char>>> {
        Map::new(|k: Seq<char>| self.has_key(k), |k: Seq<char>| views(self.successors@[self.key_index(k)]@))
    }

    proof fn lemma_index(&self, i: int)
        requires
            self.wf(),
            0 <= i < self.keys@.len(),
        ensures
            self@.contains_key(self.keys@[i]@),
            self@[self.keys@[i]@] == views(self.successors@[i]@),
            self.key_index(self.keys@[i]@) == i,
    {
        let k = self.keys@[i]@;
        assert(self.has_key(k));
        let j = self.key_index(k);
        if j != i {
            if j < i {
                assert(self.keys@[j]@ != self.keys@[i]@);
            } else {
                assert(self.keys@[i]@ != self.keys@[j]@);
            }
        }
    }

    proof fn lemma_dom_len(&self)
        requires
            self.wf(),
        ensures
            self@.dom().len() == 0 <==> self.keys@.len() == 0,
    {
        if self.keys@.len() > 0 {
            self.lemma_index(0);
            assert(self@.dom().contains(self.keys@[0]@));
            assert(self@.dom().finite()) by {
                let ks = views(self.keys@);
                assert forall|k: Seq<char>| self@.dom().contains(k) <==> ks.to_set().contains(k) by {
                    if self@.dom().contains(k) {
                        let i = self.key_index(k);
                        assert(ks[i] == k);
                    }
                    if ks.to_set().contains(k) {
                        let i = choose|i: int| 0 <= i < ks.len() && ks[i] == k;
                        assert(self.keys@[i]@ == k);
                    }
                }
                assert(self@.dom() =~= ks.to_set());
            }
            vstd::set_lib::lemma_set_empty_equivalency_len(self@.dom());
        } else {
            assert(self@.dom() =~= Set::empty());
        }
    }

    /// An empty table.
    pub fn new() -> (r: Self)
        ensures
            r.wf(),
            r@ == Map::<Seq<char>, Seq<Seq<char>>>::empty(),
    {
        let r = Chain { keys: Vec::new(), successors: Vec::new() };
        assert(r@ =~= Map::<Seq<char>, Seq<Seq<char>>>::empty());
        r
    }

    /// The place of `w` among the keys.
    fn find(&self, w: &String) -> (r: Option<usize>)
        requires
            self.wf(),
        ensures
            r is Some ==> r->0 < self.keys@.len() && self.keys@[r->0 as int]@ == w@,
            r is None ==> !self@.contains_key(w@),
    {
        let mut i: usize = 0;
        while i < self.keys.len()
            invariant
                i <= self.keys@.len(),
                forall|j: int| 0 <= j < i ==> #[trigger] self.keys@[j]@ != w@,
            decreases self.keys@.len() - i,
        {
            if self.keys[i] == *w {
                return Some(i);
            }
            i = i + 1;
        }
        None
    }

    /// Records `b` once more after `a`.
    fn record(&mut self, a: String, b: String)
        requires
            old(self).wf(),
        ensures
            final(self).wf(),
            final(self)@ == add_pair(old(self)@, a@, b@),
    {
        let ghost m0 = self@;
        let ghost pre = *self;
        match self.find(&a) {
            Some(i) => {
                proof {
                    pre.lemma_index(i as int);
                }
                let ghost b_view = b@;
                self.successors[i].push(b);
                proof {
                    assert(views(self.successors@[i as int]@) =~= succ_of(m0, a@).push(b_view));
                    assert forall|k: Seq<char>| #[trigger] self.has_key(k) <==> pre.has_key(k) by {
                        if pre.has_key(k) {
                            let j = pre.key_index(k);
                            assert(self.keys@[j]@ == k);
                        }
                        if self.has_key(k) {
                            let j = self.key_index(k);
                            assert(pre.keys@[j]@ == k);
                        }
                    }
                    assert forall|k: Seq<char>| self.has_key(k) implies #[trigger] self.key_index(k)
                        == pre.key_index(k) by {
                        let j = pre.key_index(k);
                        pre.lemma_index(j);
                        self.lemma_index(j);
                    }
                    assert(self@ =~= add_pair(m0, a@, b_view));
                }
            },
            None => {
                let ghost a_view = a@;
                let ghost b_view = b@;
                let n = self.keys.len();
                self.keys.push(a);
                self.successors.push(vec![b]);
                proof {
                    assert(views(self.successors@[n as int]@) =~= seq![b_view]);
                    assert forall|i: int, j: int|
                        0 <= i < j < self.keys@.len() implies #[trigger] self.keys@[i]@
                        != #[trigger] self.keys@[j]@ by {
                        if j == n {
                            assert(pre@.contains_key(pre.keys@[i]@)) by {
                                assert(pre.has_key(pre.keys@[i]@));
                            }
                        }
                    }
                    self.lemma_index(n as int);
                    assert forall|k: Seq<char>| #[trigger] self.has_key(k) <==> (pre.has_key(k) || k
                        == a_view) by {
                        if pre.has_key(k) {
                            let j = pre.key_index(k);
                            assert(self.keys@[j]@ == k);
                        }
                        if self.has_key(k) {
                            let j = self.key_index(k);
                            if j < n {
                                assert(pre.keys@[j]@ == k);
                            }
                        }
                    }
                    assert forall|k: Seq<char>| pre.has_key(k) implies #[trigger] self.key_index(k)
                        == pre.key_index(k) by {
                        let j = pre.key_index(k);
                        pre.lemma_index(j);
                        self.lemma_index(j);
                    }
                    assert(self@ =~= add_pair(m0, a_view, b_view));
                }
            },
        }
    }

    /// Records every adjacent pair of words of `words`, left to right.
    fn train_words(&mut self, words: &Vec<String>)
        requires
            old(self).wf(),
        ensures
            final(self).wf(),
            final(self)@ == add_pairs(old(self)@, views(words@)),
    {
        let ghost m0 = self@;
        let ghost ws = views(words@);
        if words.len() < 2 {
            return;
        }
        let mut j: usize = 0;
        assert(add_pairs(m0, ws.take(1)) == m0);
        while j < words.len() - 1
            invariant
                self.wf(),
                ws == views(words@),
                j + 1 <= words@.len(),
                self@ == add_pairs(m0, ws.take(j + 1)),
            decreases words@.len() - j,
        {
            assert(ws.take(j + 2).drop_last() =~= ws.take(j + 1));
            self.record(words[j].clone(), words[j + 1].clone());
            j = j + 1;
        }
        assert(ws.take(j + 1) =~= ws);
    }

    /// Trains the chain on each sentence in turn: for every two adjacent
    /// words of a sentence, the second is recorded after the first.
    pub fn train(&mut self, sentences: Vec<String>)
        requires
            old(self).wf(),
        ensures
            final(self).wf(),
            final(self)@ == train_all(old(self)@, views(sentences@)),
    {
        let ghost m0 = self@;
        let ghost cs = views(sentences@);
        let mut i: usize = 0;
        assert(cs.take(0) =~= Seq::<Seq<char>>::empty());
        while i < sentences.len()
            invariant
                self.wf(),
                cs == views(sentences@),
                i <= sentences@.len(),
                self@ == train_all(m0, cs.take(i as int)),
            decreases sentences@.len() - i,
        {
            assert(cs.take(i + 1).drop_last() =~= cs.take(i as int));
            let words = split_words(sentences[i].as_str());
            self.train_words(&words);
            i = i + 1;
        }
        assert(cs.take(i as int) =~= cs);
    }

    /// A random sentence as a list of words. It starts with the words of
    /// `seed`, or, where the seed has none, with a key picked at random; it
    /// then adds up to `word_limit` words, each picked at random among those
    /// recorded after the word before it, and stops early at a word after
    /// which nothing is recorded. With neither a seed word nor a key the
    /// sentence is empty.
    pub fn generate_words(&self, word_limit: usize, seed: Option<&str>) -> (r: Vec<String>)
        requires
            self.wf(),
        ensures
            is_generated(self@, seed_view(seed), word_limit as nat, views(r@)),
    {
        let ghost m = self@;
        let ghost sv = seed_view(seed);
        let mut sentence: Vec<String> = match seed {
            Some(s) => split_words(s),
            None => Vec::new(),
        };
        proof {
            self.lemma_dom_len();
        }
        if sentence.len() == 0 {
            match pick(&self.keys) {
                Some(k) => {
                    proof {
                        let i = choose|i: int| 0 <= i < self.keys@.len() && self.keys@[i] == k;
                        self.lemma_index(i);
                    }
                    sentence.push(k);
                },
                None => {
                    assert(views(sentence@) =~= Seq::<Seq<char>>::empty());
                    return sentence;
                },
            }
        }
        let ghost start = views(sentence@);
        assert(valid_start(m, sv, start));
        let n0 = sentence.len();
        let mut steps: usize = 0;
        let mut stopped = false;
        assert(views(sentence@).take(n0 as int) =~= start);
        while steps < word_limit && !stopped
            invariant
                self.wf(),
                m == self@,
                n0 == start.len(),
                n0 > 0,
                steps <= word_limit,
                sentence@.len() == n0 + steps,
                views(sentence@).take(n0 as int) == start,
                forall|i: int|
                    n0 <= i < sentence@.len() ==> #[trigger] succ_of(m, views(sentence@)[i - 1]).contains(
                        views(sentence@)[i],
                    ),
                stopped ==> succ_of(m, views(sentence@).last()).len() == 0,
            decreases word_limit - steps + (if stopped { 0int } else { 1int }),
        {
            let ghost before = views(sentence@);
            let last = sentence.len() - 1;
            match self.find(&sentence[last]) {
                None => {
                    stopped = true;
                },
                Some(i) => {
                    proof {
                        self.lemma_index(i as int);
                    }
                    match pick(&self.successors[i]) {
                        Some(w) => {
                            proof {
                                let j = choose|j: int|
                                    0 <= j < self.successors@[i as int]@.len()
                                        && self.successors@[i as int]@[j] == w;
                                assert(views(self.successors@[i as int]@)[j] == w@);
                            }
                            sentence.push(w);
                            steps = steps + 1;
                            assert(views(sentence@) =~= before.push(w@));
                            assert(views(sentence@).take(n0 as int) =~= before.take(n0 as int));
                        },
                        None => {
                            stopped = true;
                        },
                    }
                },
            }
        }
        sentence
    }

    /// A random sentence, as `generate_words` makes it, with its words joined
    /// by single spaces.
    pub fn generate(&self, word_limit: usize, custom_word: Option<&str>) -> (r: String)
        requires
            self.wf(),
        ensures
            exists|ws: Seq<Seq<char>>|
                is_generated(self@, seed_view(custom_word), word_limit as nat, ws) && r@ == join(
                    ws,
                ),
    {
        let words = self.generate_words(word_limit, custom_word);
        join_words(&words)
    }
}

} // verus!
