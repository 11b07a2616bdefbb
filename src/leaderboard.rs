//! The word leaderboard of a server: how often each author used each word,
//! and who leads for each word.
use vstd::prelude::*;
use vstd::multiset::Multiset;
use crate::sampler::{is_denied, starts_with_any};
use crate::text::{lower_of, lowercase, split_words, views, words_of};

verus! {

broadcast use vstd::seq_lib::group_to_multiset_ensures;

/// Which words count.
#[derive(Debug)]
pub struct WordFilter {
    /// The fewest characters a counted word has.
    pub min_len: usize,
    /// Where set, only this (lower-case) word counts.
    pub selected: Option<String>,
    /// Lower-case words that never count.
    pub excluded: Vec<String>,
}

/// The lower-case word `w` counts under `f` and the denied `prefixes`.
pub open spec fn counts(w: Seq<char>, f: WordFilter, prefixes: Seq<&str>) -> bool {
    &&& w.len() >= f.min_len
    &&& (f.selected is Some ==> w == f.selected->0@)
    &&& !views(f.excluded@).contains(w)
    &&& !is_denied(w, prefixes)
}

/// The counted words of one message by `author`, lower-cased, each with the
/// author.
pub open spec fn word_tokens(words: Seq<Seq<char>>, author: u64, f: WordFilter, prefixes: Seq<&str>) -> Seq<
    (Seq<char>, u64),
>
    decreases words.len(),
{
    if words.len() == 0 {
        Seq::empty()
    } else {
        let rest = word_tokens(words.drop_last(), author, f, prefixes);
        let w = lower_of(words.last());
        if counts(w, f, prefixes) {
            rest.push((w, author))
        } else {
            rest
        }
    }
}

/// The counted words of all the messages `rows` (content, author), in order.
pub open spec fn tokens(rows: Seq<(String, u64)>, f: WordFilter, prefixes: Seq<&str>) -> Seq<(Seq<char>, u64)>
    decreases rows.len(),
{
    if rows.len() == 0 {
        Seq::empty()
    } else {
        tokens(rows.drop_last(), f, prefixes) + word_tokens(
            words_of(rows.last().0@),
            rows.last().1,
            f,
            prefixes,
        )
    }
}

/// A count as a `usize` holds it: exact, or the largest `usize` where the
/// true count is larger.
pub open spec fn capped(n: nat) -> nat {
    if n > usize::MAX {
        usize::MAX as nat
    } else {
        n
    }
}

/// How often `author` used `word`, capped.
pub open spec fn uses(toks: Seq<(Seq<char>, u64)>, word: Seq<char>, author: u64) -> nat {
    capped(toks.to_multiset().count((word, author)))
}

/// One line of a tally: a word, an author and a count.
#[derive(Debug, Clone, PartialEq, Eq)]
pub struct Entry {
    pub word: String,
    pub author: u64,
    pub count: usize,
}

/// The pairs of `t` are distinct and each count is positive.
pub open spec fn tally_wf(t: Seq<Entry>) -> bool {
    &&& forall|i: int, j: int|
        0 <= i < j < t.len() ==> (#[trigger] t[i].word@, t[i].author) != (#[trigger] t[j].word@, t[j].author)
    &&& forall|i: int| 0 <= i < t.len() ==> #[trigger] t[i].count > 0
}

/// `t` holds the counts of `toks`: every pair used has one line with its
/// capped count, and there is no other line.
pub open spec fn tallies(t: Seq<Entry>, toks: Seq<(Seq<char>, u64)>) -> bool {
    &&& tally_wf(t)
    &&& forall|i: int| 0 <= i < t.len() ==> #[trigger] t[i].count == uses(toks, t[i].word@, t[i].author)
    &&& forall|w: Seq<char>, a: u64|
        #[trigger] toks.to_multiset().count((w, a)) > 0 ==> exists|i: int|
            0 <= i < t.len() && t[i].word@ == w && #[trigger] t[i].author == a
}

/// Counts one more use of `word` by `author`.
fn bump(t: &mut Vec<Entry>, word: String, author: u64, Ghost(toks): Ghost<Seq<(Seq<char>, u64)>>)
    requires
        tallies(old(t)@, toks),
    ensures
        tallies(final(t)@, toks.push((word@, author))),
{
    let ghost w = word@;
    let ghost toks2 = toks.push((w, author));
    assert(toks2.to_multiset() =~= toks.to_multiset().insert((w, author)));
    let mut i: usize = 0;
    while i < t.len()
        invariant
            i <= t@.len(),
            tallies(t@, toks),
            w == word@,
            toks2.to_multiset() == toks.to_multiset().insert((w, author)),
            forall|j: int| 0 <= j < i ==> (#[trigger] t@[j].word@, t@[j].author) != (w, author),
        decreases t@.len() - i,
    {
        if t[i].author == author && t[i].word == word {
            let c = t[i].count;
            let next = if c < usize::MAX {
                c + 1
            } else {
                c
            };
            let ghost before = t@;
            t.set(i, Entry { word: t[i].word.clone(), author, count: next });
            proof {
                assert forall|k: int| 0 <= k < t@.len() implies #[trigger] t@[k].count == uses(
                    toks2,
                    t@[k].word@,
                    t@[k].author,
                ) by {
                    if k != i {
                        assert(before[k] == t@[k]);
                        assert((before[k].word@, before[k].author) != (w, author));
                    }
                }
                assert forall|v: Seq<char>, a: u64|
                    #[trigger] toks2.to_multiset().count((v, a)) > 0 implies exists|k: int|
                        0 <= k < t@.len() && t@[k].word@ == v && #[trigger] t@[k].author == a by {
                    if (v, a) == (w, author) {
                        assert(t@[i as int].word@ == v && t@[i as int].author == a);
                    } else {
                        assert(toks.to_multiset().count((v, a)) > 0);
                        let k = choose|k: int|
                            0 <= k < before.len() && before[k].word@ == v && #[trigger] before[k].author == a;
                        assert(t@[k].word@ == v && t@[k].author == a);
                    }
                }
                assert forall|p: int, q: int|
                    0 <= p < q < t@.len() implies (#[trigger] t@[p].word@, t@[p].author) != (
                    #[trigger] t@[q].word@,
                    t@[q].author,
                ) by {
                    assert((before[p].word@, before[p].author) != (before[q].word@, before[q].author));
                }
            }
            return;
        }
        i = i + 1;
    }
    proof {
        assert(toks.to_multiset().count((w, author)) == 0) by {
            if toks.to_multiset().count((w, author)) > 0 {
                let k = choose|k: int| 0 <= k < t@.len() && t@[k].word@ == w && #[trigger] t@[k].author == author;
                assert((t@[k].word@, t@[k].author) != (w, author));
            }
        }
    }
    let ghost before = t@;
    t.push(Entry { word, author, count: 1 });
    proof {
        assert forall|k: int| 0 <= k < t@.len() implies #[trigger] t@[k].count == uses(
            toks2,
            t@[k].word@,
            t@[k].author,
        ) by {
            if k < before.len() {
                assert(before[k] == t@[k]);
                assert((before[k].word@, before[k].author) != (w, author));
            }
        }
        assert forall|v: Seq<char>, a: u64|
            #[trigger] toks2.to_multiset().count((v, a)) > 0 implies exists|k: int|
                0 <= k < t@.len() && t@[k].word@ == v && #[trigger] t@[k].author == a by {
            if (v, a) == (w, author) {
                assert(t@[before.len() as int].word@ == v && t@[before.len() as int].author == a);
            } else {
                assert(toks.to_multiset().count((v, a)) > 0);
                let k = choose|k: int|
                    0 <= k < before.len() && before[k].word@ == v && #[trigger] before[k].author == a;
                assert(t@[k].word@ == v && t@[k].author == a);
            }
        }
        assert forall|p: int, q: int|
            0 <= p < q < t@.len() implies (#[trigger] t@[p].word@, t@[p].author) != (
            #[trigger] t@[q].word@,
            t@[q].author,
        ) by {
            if q < before.len() {
                assert((before[p].word@, before[p].author) != (before[q].word@, before[q].author));
            } else {
                assert((before[p].word@, before[p].author) != (w, author));
            }
        }
    }
}

/// Tests whether the lower-case word `w` counts.
fn is_counted(w: &String, f: &WordFilter, prefixes: &Vec<&str>) -> (r: bool)
    ensures
        r == counts(w@, *f, prefixes@),
{
    if w.as_str().unicode_len() < f.min_len {
        return false;
    }
    match &f.selected {
        Some(sel) => {
            if !(*sel == *w) {
                return false;
            }
        },
        None => {},
    }
    let mut i: usize = 0;
    while i < f.excluded.len()
        invariant
            i <= f.excluded@.len(),
            forall|j: int| 0 <= j < i ==> #[trigger] f.excluded@[j]@ != w@,
        decreases f.excluded@.len() - i,
    {
        if f.excluded[i] == *w {
            assert(views(f.excluded@)[i as int] == w@);
            return false;
        }
        i = i + 1;
    }
    assert(!views(f.excluded@).contains(w@)) by {
        if views(f.excluded@).contains(w@) {
            let j = choose|j: int| 0 <= j < views(f.excluded@).len() && views(f.excluded@)[j] == w@;
            assert(f.excluded@[j]@ == w@);
        }
    }
    !starts_with_any(w.as_str(), prefixes)
}

/// How often each author used each counted word in `rows` (content,
/// author): one line per word and author, with the count.
pub fn tally(rows: &Vec<(String, u64)>, f: &WordFilter, prefixes: &Vec<&str>) -> (r: Vec<Entry>)
    ensures
        tallies(r@, tokens(rows@, *f, prefixes@)),
{
    let mut t: Vec<Entry> = Vec::new();
    let mut i: usize = 0;
    assert(rows@.take(0) =~= Seq::<(String, u64)>::empty());
    assert(tokens(rows@.take(0), *f, prefixes@).to_multiset() =~= Multiset::empty());
    while i < rows.len()
        invariant
            i <= rows@.len(),
            tallies(t@, tokens(rows@.take(i as int), *f, prefixes@)),
        decreases rows@.len() - i,
    {
        let ghost done = tokens(rows@.take(i as int), *f, prefixes@);
        let author = rows[i].1;
        let words = split_words(rows[i].0.as_str());
        let ghost ws = views(words@);
        let mut j: usize = 0;
        assert(ws.take(0) =~= Seq::<Seq<char>>::empty());
        assert(done + word_tokens(ws.take(0), author, *f, prefixes@) =~= done);
        while j < words.len()
            invariant
                i < rows@.len(),
                author == rows@[i as int].1,
                ws == views(words@),
                ws == words_of(rows@[i as int].0@),
                j <= words@.len(),
                tallies(t@, done + word_tokens(ws.take(j as int), author, *f, prefixes@)),
            decreases words@.len() - j,
        {
            let ghost so_far = done + word_tokens(ws.take(j as int), author, *f, prefixes@);
            assert(ws.take(j + 1).drop_last() =~= ws.take(j as int));
            let w = lowercase(words[j].as_str());
            if is_counted(&w, f, prefixes) {
                proof {
                    assert(so_far.push((w@, author)) =~= done + word_tokens(ws.take(j + 1), author, *f, prefixes@));
                }
                bump(&mut t, w, author, Ghost(so_far));
            } else {
                assert(so_far =~= done + word_tokens(ws.take(j + 1), author, *f, prefixes@));
            }
            j = j + 1;
        }
        assert(ws.take(j as int) =~= ws);
        assert(rows@.take(i + 1).drop_last() =~= rows@.take(i as int));
        i = i + 1;
    }
    assert(rows@.take(i as int) =~= rows@);
    t
}

/// A copy of `e`.
fn copy_entry(e: &Entry) -> (r: Entry)
    ensures
        r == *e,
{
    Entry { word: e.word.clone(), author: e.author, count: e.count }
}

/// `c` names, for each word of the tally `t`, one author with the most
/// uses of it: each line of `c` is a line of `t` whose count no other line
/// of `t` for that word exceeds, the words of `c` are distinct, and every
/// word of `t` has its line in `c`.
pub open spec fn tops(c: Seq<Entry>, t: Seq<Entry>) -> bool {
    &&& forall|k: int| 0 <= k < c.len() ==> #[trigger] t.contains(c[k])
    &&& forall|k: int, i: int|
        0 <= k < c.len() && 0 <= i < t.len() && #[trigger] t[i].word@ == #[trigger] c[k].word@ ==> t[i].count
            <= c[k].count
    &&& forall|k: int, l: int| 0 <= k < l < c.len() ==> #[trigger] c[k].word@ != #[trigger] c[l].word@
    &&& forall|i: int| 0 <= i < t.len() ==> has_word(c, #[trigger] t[i].word@)
}

/// Some line of `c` is for the word `w`.
pub open spec fn has_word(c: Seq<Entry>, w: Seq<char>) -> bool {
    exists|k: int| 0 <= k < c.len() && c[k].word@ == w
}

/// The place of the line for `w` in `c`.
fn find_word(c: &Vec<Entry>, w: &String) -> (r: Option<usize>)
    ensures
        r is Some ==> r->0 < c@.len() && c@[r->0 as int].word@ == w@,
        r is None ==> forall|q: int| 0 <= q < c@.len() ==> #[trigger] c@[q].word@ != w@,
{
    let mut k: usize = 0;
    while k < c.len()
        invariant
            k <= c@.len(),
            forall|q: int| 0 <= q < k ==> #[trigger] c@[q].word@ != w@,
        decreases c@.len() - k,
    {
        if c[k].word == *w {
            return Some(k);
        }
        k = k + 1;
    }
    None
}

/// For each word of the tally `t`, the line of an author who used it most.
pub fn top_authors(t: &Vec<Entry>) -> (r: Vec<Entry>)
    ensures
        tops(r@, t@),
{
    let mut c: Vec<Entry> = Vec::new();
    let mut i: usize = 0;
    while i < t.len()
        invariant
            i <= t@.len(),
            tops(c@, t@.take(i as int)),
        decreases t@.len() - i,
    {
        let ghost ti = t@.take(i as int);
        let ghost ti1 = t@.take(i + 1);
        assert(ti1 =~= ti.push(t@[i as int]));
        let ghost before = c@;
        let found = find_word(&c, &t[i].word);
        match found {
            Some(k) => {
                if t[i].count > c[k].count {
                    let e = copy_entry(&t[i]);
                    c.set(k, e);
                    proof {
                        assert(ti1[i as int] == c@[k as int]);
                        assert forall|q: int| 0 <= q < c@.len() implies #[trigger] ti1.contains(c@[q]) by {
                            if q != k {
                                assert(ti.contains(before[q]));
                                let z = choose|z: int| 0 <= z < ti.len() && ti[z] == before[q];
                                assert(ti1[z] == c@[q]);
                            }
                        }
                        assert forall|q: int, z: int|
                            0 <= q < c@.len() && 0 <= z < ti1.len() && #[trigger] ti1[z].word@
                                == #[trigger] c@[q].word@ implies ti1[z].count <= c@[q].count by {
                            if q != k && z < i {
                                assert(ti[z] == ti1[z]);
                            } else if q == k && z < i {
                                assert(ti[z] == ti1[z]);
                                assert(ti[z].word@ == before[q].word@);
                            } else if q != k && z == i {
                                assert(before[q].word@ != before[k as int].word@);
                            }
                        }
                        assert forall|p: int, q: int| 0 <= p < q < c@.len() implies #[trigger] c@[p].word@
                            != #[trigger] c@[q].word@ by {
                            assert(before[p].word@ != before[q].word@);
                        }
                        assert forall|z: int| 0 <= z < ti1.len() implies has_word(c@, #[trigger] ti1[z].word@) by {
                            if z < i {
                                assert(ti[z] == ti1[z]);
                                let q = choose|q: int| 0 <= q < before.len() && before[q].word@ == ti[z].word@;
                                assert(c@[q].word@ == ti1[z].word@);
                            } else {
                                assert(c@[k as int].word@ == ti1[z].word@);
                            }
                        }
                    }
                } else {
                    proof {
                        assert forall|q: int| 0 <= q < c@.len() implies #[trigger] ti1.contains(c@[q]) by {
                            assert(ti.contains(c@[q]));
                            let z = choose|z: int| 0 <= z < ti.len() && ti[z] == c@[q];
                            assert(ti1[z] == c@[q]);
                        }
                        assert forall|q: int, z: int|
                            0 <= q < c@.len() && 0 <= z < ti1.len() && #[trigger] ti1[z].word@
                                == #[trigger] c@[q].word@ implies ti1[z].count <= c@[q].count by {
                            if z < i {
                                assert(ti[z] == ti1[z]);
                            } else if q != k {
                                assert(c@[q].word@ != c@[k as int].word@);
                            }
                        }
                        assert forall|z: int| 0 <= z < ti1.len() implies has_word(c@, #[trigger] ti1[z].word@) by {
                            if z < i {
                                assert(ti[z] == ti1[z]);
                            } else {
                                assert(c@[k as int].word@ == ti1[z].word@);
                            }
                        }
                    }
                }
            },
            None => {
                let e = copy_entry(&t[i]);
                c.push(e);
                proof {
                    let n = before.len() as int;
                    assert(ti1[i as int] == c@[n]);
                    assert forall|q: int| 0 <= q < c@.len() implies #[trigger] ti1.contains(c@[q]) by {
                        if q < n {
                            assert(ti.contains(before[q]));
                            let z = choose|z: int| 0 <= z < ti.len() && ti[z] == before[q];
                            assert(ti1[z] == c@[q]);
                        }
                    }
                    assert forall|q: int, z: int|
                        0 <= q < c@.len() && 0 <= z < ti1.len() && #[trigger] ti1[z].word@
                            == #[trigger] c@[q].word@ implies ti1[z].count <= c@[q].count by {
                        if q < n && z < i {
                            assert(ti[z] == ti1[z]);
                        } else if q == n && z < i {
                            assert(ti[z] == ti1[z]);
                            let p = choose|p: int| 0 <= p < before.len() && before[p].word@ == ti[z].word@;
                            assert(before[p].word@ != t@[i as int].word@);
                        } else if q < n && z == i {
                            assert(before[q].word@ != t@[i as int].word@);
                        }
                    }
                    assert forall|p: int, q: int| 0 <= p < q < c@.len() implies #[trigger] c@[p].word@
                        != #[trigger] c@[q].word@ by {
                        if q < n {
                            assert(before[p].word@ != before[q].word@);
                        }
                    }
                    assert forall|z: int| 0 <= z < ti1.len() implies has_word(c@, #[trigger] ti1[z].word@) by {
                        if z < i {
                            assert(ti[z] == ti1[z]);
                            let q = choose|q: int| 0 <= q < before.len() && before[q].word@ == ti[z].word@;
                            assert(c@[q].word@ == ti1[z].word@);
                        } else {
                            assert(c@[n].word@ == ti1[z].word@);
                        }
                    }
                }
            },
        }
        assert(tops(c@, ti1));
        i = i + 1;
    }
    assert(t@.take(i as int) =~= t@);
    c
}

/// The counts of `s` never grow from one line to the next.
pub open spec fn sorted_desc(s: Seq<Entry>) -> bool {
    forall|i: int, j: int| 0 <= i < j < s.len() ==> #[trigger] s[i].count >= #[trigger] s[j].count
}

/// `r` is the first `limit` lines of the lines of `c` ordered by count,
/// highest first.
pub open spec fn ranks(r: Seq<Entry>, c: Seq<Entry>, limit: nat) -> bool {
    exists|full: Seq<Entry>|
        sorted_desc(full) && full.to_multiset() == c.to_multiset() && r == (if full.len() <= limit {
            full
        } else {
            full.take(limit as int)
        })
}

/// The lines of `c` ordered by count, highest first (lines of equal count
/// keep their order), cut to the first `limit`.
pub fn rank(c: Vec<Entry>, limit: usize) -> (r: Vec<Entry>)
    ensures
        ranks(r@, c@, limit as nat),
{
    let mut out: Vec<Entry> = Vec::new();
    let mut i: usize = 0;
    let n = c.len();
    let mut rest = c;
    let ghost orig = rest@;
    assert(orig.take(0).to_multiset() =~= Multiset::empty());
    while i < n
        invariant
            n == orig.len(),
            i <= n,
            rest@ == orig,
            sorted_desc(out@),
            out@.to_multiset() == orig.take(i as int).to_multiset(),
        decreases n - i,
    {
        let e = copy_entry(&rest[i]);
        let mut pos: usize = 0;
        while pos < out.len() && out[pos].count >= e.count
            invariant
                pos <= out@.len(),
                forall|q: int| 0 <= q < pos ==> #[trigger] out@[q].count >= e.count,
            decreases out@.len() - pos,
        {
            pos = pos + 1;
        }
        let ghost before = out@;
        out.insert(pos, e);
        proof {
            assert(orig.take(i + 1) =~= orig.take(i as int).push(orig[i as int]));
            assert forall|p: int, q: int| 0 <= p < q < out@.len() implies #[trigger] out@[p].count
                >= #[trigger] out@[q].count by {
                if q < pos {
                } else if q == pos {
                } else if p < pos {
                    assert(before[p].count >= before[q - 1].count);
                } else if p == pos {
                    assert(before[q - 1].count <= before[pos as int].count);
                } else {
                    assert(before[p - 1].count >= before[q - 1].count);
                }
            }
        }
        i = i + 1;
    }
    assert(orig.take(n as int) =~= orig);
    let ghost full = out@;
    if out.len() > limit {
        out.truncate(limit);
    }
    assert(out@ =~= (if full.len() <= limit {
        full
    } else {
        full.take(limit as int)
    }));
    out
}

/// How many lines a leaderboard shows at most.
pub const LEADERBOARD_SIZE: usize = 50;

/// `r` is a leaderboard of `rows`: `t` tallies their counted words, `c`
/// holds the candidate lines (every line of `t` for a selected word, else a
/// top line per word), and `r` ranks `c`.
pub open spec fn board_from(
    r: Seq<Entry>,
    t: Seq<Entry>,
    c: Seq<Entry>,
    rows: Seq<(String, u64)>,
    f: WordFilter,
    prefixes: Seq<&str>,
) -> bool {
    &&& tallies(t, tokens(rows, f, prefixes))
    &&& if f.selected is Some {
        c == t
    } else {
        tops(c, t)
    }
    &&& ranks(r, c, LEADERBOARD_SIZE as nat)
}

/// The leaderboard of the messages `rows` (content, author): with a
/// selected word, one line per author who used it; otherwise one line per
/// word, for an author who used it most. Lines come highest count first,
/// at most `LEADERBOARD_SIZE` of them.
pub fn leaderboard(rows: &Vec<(String, u64)>, f: &WordFilter, prefixes: &Vec<&str>) -> (r: Vec<Entry>)
    ensures
        exists|t: Seq<Entry>, c: Seq<Entry>| #[trigger] board_from(r@, t, c, rows@, *f, prefixes@),
{
    let t = tally(rows, f, prefixes);
    let ghost tv = t@;
    let candidates = match &f.selected {
        Some(_) => t,
        None => top_authors(&t),
    };
    let ghost cv = candidates@;
    let r = rank(candidates, LEADERBOARD_SIZE);
    assert(board_from(r@, tv, cv, rows@, *f, prefixes@));
    r
}

/// The pieces still to come when `rest` is read after the partial piece
/// `cur`, splitting at commas and dropping empty pieces.
pub open spec fn pieces_from(rest: Seq<char>, cur: Seq<char>) -> Seq<Seq<char>>
    decreases rest.len(),
{
    if rest.len() == 0 {
        if cur.len() > 0 { seq![cur] } else { Seq::empty() }
    } else if rest[0] == ',' {
        (if cur.len() > 0 { seq![cur] } else { Seq::<Seq<char>>::empty() })
            + pieces_from(rest.drop_first(), Seq::empty())
    } else {
        pieces_from(rest.drop_first(), cur.push(rest[0]))
    }
}

/// The non-empty pieces of `s` between commas, in order.
pub open spec fn comma_pieces(s: Seq<char>) -> Seq<Seq<char>> {
    pieces_from(s, Seq::empty())
}

/// The words to exclude, from a comma-separated option: the non-empty
/// pieces of its lower-case form.
pub fn parse_excluded(s: &str) -> (r: Vec<String>)
    ensures
        views(r@) == comma_pieces(lower_of(s@)),
{
    let low = lowercase(s);
    let t = low.as_str();
    let n = t.unicode_len();
    let mut out: Vec<String> = Vec::new();
    let mut start: usize = 0;
    let mut i: usize = 0;
    assert(t@.skip(0) =~= t@);
    assert(t@.subrange(0, 0) =~= Seq::<char>::empty());
    assert(views(out@) =~= Seq::<Seq<char>>::empty());
    while i < n
        invariant
            n == t@.len(),
            t@ == lower_of(s@),
            start <= i <= n,
            views(out@) + pieces_from(t@.skip(i as int), t@.subrange(start as int, i as int))
                == comma_pieces(t@),
        decreases n - i,
    {
        let ghost rest = t@.skip(i as int);
        let ghost prev = views(out@);
        assert(rest.drop_first() =~= t@.skip(i + 1));
        assert(rest[0] == t@[i as int]);
        if t.get_char(i) == ',' {
            if start < i {
                let w = t.substring_char(start, i).to_string();
                out.push(w);
                assert(views(out@) =~= prev + seq![t@.subrange(start as int, i as int)]);
            } else {
                assert(t@.subrange(start as int, i as int).len() == 0);
            }
            start = i + 1;
            i = i + 1;
            assert(t@.subrange(start as int, i as int) =~= Seq::<char>::empty());
        } else {
            assert(t@.subrange(start as int, i + 1) =~= t@.subrange(start as int, i as int).push(
                t@[i as int],
            ));
            i = i + 1;
        }
    }
    let ghost last = t@.subrange(start as int, i as int);
    let ghost prev = views(out@);
    if start < i {
        let w = t.substring_char(start, i).to_string();
        out.push(w);
        assert(views(out@) =~= prev + seq![last]);
    }
    assert(views(out@) =~= comma_pieces(t@));
    out
}

} // verus!
