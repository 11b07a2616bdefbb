//! Choosing archived messages: which contents qualify, and the decisions of
//! the bulk sampler (for a corpus) and the single pick (for a game round).
//! The queries themselves are made by the caller, which hands the rows in.
use vstd::prelude::*;
use crate::random::{random_below, shuffle};

verus! {

/// The prefixes that mark a message as a command, a mention, a link or noise.
pub open spec fn denylist() -> Seq<Seq<char>> {
    seq![
        "$"@, "&"@, "!"@, "."@, "m."@, ">"@, "<"@, "["@, "]"@, "@"@, "#"@, "%"@, "^"@, "*"@,
        ","@, "https"@, "http"@,
    ]
}

/// The denied prefixes, as `denylist` gives them.
pub fn denied_prefixes() -> (r: Vec<&'static str>)
    ensures
        r@.map_values(|p: &str| p@) == denylist(),
{
    let r = vec![
        "$", "&", "!", ".", "m.", ">", "<", "[", "]", "@", "#", "%", "^", "*", ",", "https", "http",
    ];
    assert(r@.map_values(|p: &str| p@) =~= denylist());
    r
}

/// `s` begins with `p`.
pub open spec fn has_prefix(s: Seq<char>, p: Seq<char>) -> bool {
    p.len() <= s.len() && s.take(p.len() as int) == p
}

/// `s` begins with one of `prefixes`.
pub open spec fn is_denied(s: Seq<char>, prefixes: Seq<&str>) -> bool {
    exists|i: int| 0 <= i < prefixes.len() && has_prefix(s, #[trigger] prefixes[i]@)
}

/// `s` is long enough and begins with none of `prefixes`.
pub open spec fn qualifies(s: Seq<char>, min_len: nat, prefixes: Seq<&str>) -> bool {
    s.len() >= min_len && !is_denied(s, prefixes)
}

/// Tests whether `s` begins with `p`.
pub fn starts_with(s: &str, p: &str) -> (r: bool)
    ensures
        r == has_prefix(s@, p@),
{
    let n = p.unicode_len();
    if n > s.unicode_len() {
        return false;
    }
    let mut i: usize = 0;
    while i < n
        invariant
            n == p@.len(),
            n <= s@.len(),
            i <= n,
            s@.take(i as int) == p@.take(i as int),
        decreases n - i,
    {
        if s.get_char(i) != p.get_char(i) {
            assert(s@.take(n as int)[i as int] != p@[i as int]);
            return false;
        }
        i = i + 1;
        assert(s@.take(i as int) =~= p@.take(i as int)) by {
            assert(s@.take(i as int) =~= s@.take(i - 1).push(s@[i - 1]));
            assert(p@.take(i as int) =~= p@.take(i - 1).push(p@[i - 1]));
        }
    }
    assert(p@.take(n as int) =~= p@);
    true
}

/// Tests whether `s` begins with one of `prefixes`.
pub fn starts_with_any(s: &str, prefixes: &Vec<&str>) -> (r: bool)
    ensures
        r == is_denied(s@, prefixes@),
{
    let mut i: usize = 0;
    while i < prefixes.len()
        invariant
            i <= prefixes@.len(),
            forall|j: int| 0 <= j < i ==> !has_prefix(s@, #[trigger] prefixes@[j]@),
        decreases prefixes@.len() - i,
    {
        if starts_with(s, prefixes[i]) {
            return true;
        }
        i = i + 1;
    }
    false
}

/// Tests whether `s` is long enough and begins with none of `prefixes`.
pub fn is_qualifying(s: &str, min_len: usize, prefixes: &Vec<&str>) -> (r: bool)
    ensures
        r == qualifies(s@, min_len as nat, prefixes@),
{
    s.unicode_len() >= min_len && !starts_with_any(s, prefixes)
}

/// The shortest message, in characters, that may join a corpus.
pub const CORPUS_MIN_LEN: usize = 11;

/// The shortest message, in characters, that may be shown in a game round.
pub const ROUND_MIN_LEN: usize = 30;

/// The rows of `rows` that qualify, in order.
pub open spec fn kept(rows: Seq<String>, min_len: nat, prefixes: Seq<&str>) -> Seq<String>
    decreases rows.len(),
{
    if rows.len() == 0 {
        Seq::empty()
    } else {
        let k = kept(rows.drop_last(), min_len, prefixes);
        if qualifies(rows.last()@, min_len, prefixes) {
            k.push(rows.last())
        } else {
            k
        }
    }
}

/// The first `cap` items of `s`, or all of them where there are fewer.
pub open spec fn at_most(s: Seq<String>, cap: nat) -> Seq<String> {
    if s.len() <= cap {
        s
    } else {
        s.take(cap as int)
    }
}

/// The qualifying rows of a full fetch, in random order.
pub fn take_all(rows: Vec<String>, min_len: usize, prefixes: &Vec<&str>) -> (r: Vec<String>)
    ensures
        r@.to_multiset() == kept(rows@, min_len as nat, prefixes@).to_multiset(),
{
    let mut out: Vec<String> = Vec::new();
    append_kept(&mut out, &rows, min_len, prefixes, rows.len());
    assert(out@ =~= kept(rows@, min_len as nat, prefixes@)) by {
        assert(at_most(kept(rows@, min_len as nat, prefixes@), rows@.len()) =~= kept(
            rows@,
            min_len as nat,
            prefixes@,
        )) by {
            lemma_kept_len(rows@, min_len as nat, prefixes@);
        }
    }
    shuffle(&mut out);
    out
}

proof fn lemma_kept_len(rows: Seq<String>, min_len: nat, prefixes: Seq<&str>)
    ensures
        kept(rows, min_len, prefixes).len() <= rows.len(),
    decreases rows.len(),
{
    if rows.len() > 0 {
        lemma_kept_len(rows.drop_last(), min_len, prefixes);
    }
}

/// Appends the qualifying rows of `rows` to `out`, in order, as long as
/// `out` holds fewer than `limit` items.
fn append_kept(out: &mut Vec<String>, rows: &Vec<String>, min_len: usize, prefixes: &Vec<&str>, limit: usize)
    requires
        old(out)@.len() <= limit,
    ensures
        final(out)@ == old(out)@ + at_most(
            kept(rows@, min_len as nat, prefixes@),
            (limit - old(out)@.len()) as nat,
        ),
{
    let ghost start = out@;
    let ghost cap = (limit - out@.len()) as nat;
    let mut i: usize = 0;
    assert(rows@.take(0) =~= Seq::<String>::empty());
    assert(out@ =~= start + at_most(kept(rows@.take(0), min_len as nat, prefixes@), cap));
    while i < rows.len()
        invariant
            i <= rows@.len(),
            start.len() + cap == limit,
            out@ == start + at_most(kept(rows@.take(i as int), min_len as nat, prefixes@), cap),
        decreases rows@.len() - i,
    {
        let ghost k = kept(rows@.take(i as int), min_len as nat, prefixes@);
        assert(rows@.take(i + 1).drop_last() =~= rows@.take(i as int));
        assert(rows@.take(i + 1).last() == rows@[i as int]);
        if is_qualifying(rows[i].as_str(), min_len, prefixes) {
            if out.len() < limit {
                out.push(rows[i].clone());
                assert(out@ =~= start + at_most(k.push(rows@[i as int]), cap));
            } else {
                assert(at_most(k.push(rows@[i as int]), cap) =~= at_most(k, cap));
            }
        }
        i = i + 1;
    }
    assert(rows@.take(i as int) =~= rows@);
}

/// How many rows one offset query returns.
pub const BATCH: usize = 100;

/// Collects a corpus from random windows of the qualifying rows, until it
/// holds `limit` items or `3 * limit` windows have been read.
#[derive(Debug)]
pub struct BulkSampler {
    messages: Vec<String>,
    count: usize,
    limit: usize,
    attempts: usize,
}

impl BulkSampler {
    pub closed spec fn messages(&self) -> Seq<String> {
        self.messages@
    }

    pub closed spec fn count(&self) -> nat {
        self.count as nat
    }

    pub closed spec fn limit(&self) -> nat {
        self.limit as nat
    }

    pub closed spec fn attempts(&self) -> nat {
        self.attempts as nat
    }

    pub open spec fn wf(&self) -> bool {
        self.messages().len() <= self.limit()
    }

    /// The sampler wants another window.
    pub open spec fn wants_more(&self) -> bool {
        self.messages().len() < self.limit() && self.attempts() < 3 * self.limit()
    }

    /// A sampler over `count` qualifying rows that aims at `limit` items.
    pub fn new(count: usize, limit: usize) -> (r: Self)
        ensures
            r.wf(),
            r.messages() == Seq::<String>::empty(),
            r.count() == count,
            r.limit() == limit,
            r.attempts() == 0,
    {
        BulkSampler { messages: Vec::new(), count, limit, attempts: 0 }
    }

    /// There are fewer qualifying rows than wanted: fetch them all instead
    /// (see `take_all`).
    pub fn fetch_all(&self) -> (r: bool)
        ensures
            r == (self.count() < self.limit()),
    {
        self.count < self.limit
    }

    /// The offset of the next window to read, drawn at random so that the
    /// window lies inside the qualifying rows; nothing once the sampler is
    /// done.
    pub fn next_offset(&self) -> (r: Option<usize>)
        ensures
            r is None <==> !self.wants_more(),
            r is Some ==> (if self.count() > BATCH {
                r->0 < self.count() - BATCH
            } else {
                r->0 == 0
            }),
    {
        if !(self.messages.len() < self.limit && self.attempts / 3 < self.limit) {
            return None;
        }
        if self.count > BATCH {
            Some(random_below(0, self.count - BATCH))
        } else {
            Some(0)
        }
    }

    /// Takes in the rows of one window: its qualifying rows are kept, in
    /// order, up to the limit.
    pub fn absorb(&mut self, rows: Vec<String>, min_len: usize, prefixes: &Vec<&str>)
        requires
            old(self).wf(),
        ensures
            final(self).wf(),
            final(self).messages() == old(self).messages() + at_most(
                kept(rows@, min_len as nat, prefixes@),
                (old(self).limit() - old(self).messages().len()) as nat,
            ),
            final(self).count() == old(self).count(),
            final(self).limit() == old(self).limit(),
            final(self).attempts() == old(self).attempts() + 1 || old(self).attempts() == usize::MAX,
    {
        append_kept(&mut self.messages, &rows, min_len, prefixes, self.limit);
        if self.attempts < usize::MAX {
            self.attempts = self.attempts + 1;
        }
    }

    /// The items collected.
    pub fn into_messages(self) -> (r: Vec<String>)
        ensures
            r@ == self.messages(),
    {
        self.messages
    }
}

/// How many rows one single-pick query returns.
pub const WINDOW: usize = 20;

/// The offset of the first window of a single pick among `count`
/// qualifying rows, drawn at random; nothing where there is no row.
pub fn first_window(count: usize) -> (r: Option<usize>)
    ensures
        r is None <==> count == 0,
        r is Some ==> r->0 < count,
{
    if count == 0 {
        None
    } else {
        Some(random_below(0, count))
    }
}

/// The offset of the second window, tried when the first held no
/// qualifying row: drawn at random so that a whole window fits.
pub fn second_window(count: usize) -> (r: usize)
    ensures
        count > WINDOW ==> r < count - WINDOW,
        count <= WINDOW ==> r == 0,
{
    if count > WINDOW {
        random_below(0, count - WINDOW)
    } else {
        0
    }
}

/// The first row of `rows` whose content qualifies, with its author.
pub fn first_qualifying(rows: Vec<(String, u64)>, min_len: usize, prefixes: &Vec<&str>) -> (r:
    Option<(String, u64)>)
    ensures
        r is None <==> forall|i: int|
            0 <= i < rows@.len() ==> !qualifies(#[trigger] rows@[i].0@, min_len as nat, prefixes@),
        r is Some ==> exists|i: int|
            0 <= i < rows@.len() && rows@[i] == r->0 && qualifies(rows@[i].0@, min_len as nat, prefixes@)
                && forall|j: int| 0 <= j < i ==> !qualifies(#[trigger] rows@[j].0@, min_len as nat, prefixes@),
{
    let mut i: usize = 0;
    while i < rows.len()
        invariant
            i <= rows@.len(),
            forall|j: int| 0 <= j < i ==> !qualifies(#[trigger] rows@[j].0@, min_len as nat, prefixes@),
        decreases rows@.len() - i,
    {
        if is_qualifying(rows[i].0.as_str(), min_len, prefixes) {
            let r = (rows[i].0.clone(), rows[i].1);
            assert(rows@[i as int] == r);
            return Some(r);
        }
        i = i + 1;
    }
    None
}

/// How many times the store is tried before a request gives up.
pub const CONNECT_ATTEMPTS: u32 = 5;

/// Seconds to wait between two tries.
pub const BACKOFF_SECS: u64 = 5;

/// After `failures` failed tries to reach the store: the seconds to wait
/// before the next try, or nothing once the tries are used up.
pub fn retry_after(failures: u32) -> (r: Option<u64>)
    ensures
        r is Some <==> failures < CONNECT_ATTEMPTS,
        r is Some ==> r->0 == BACKOFF_SECS,
{
    if failures < CONNECT_ATTEMPTS {
        Some(BACKOFF_SECS)
    } else {
        None
    }
}

} // verus!
