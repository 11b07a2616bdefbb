//! Edit distance between two strings, and the near-miss test built on it.
use vstd::prelude::*;
use crate::text::chars_of;

verus! {

pub open spec fn min3(x: nat, y: nat, z: nat) -> nat {
    if x <= y && x <= z {
        x
    } else if y <= z {
        y
    } else {
        z
    }
}

/// The Levenshtein distance: the fewest insertions, deletions and
/// substitutions of one character that turn `a` into `b`.
pub open spec fn lev(a: Seq<char>, b: Seq<char>) -> nat
    decreases a.len() + b.len(),
{
    if a.len() == 0 {
        b.len()
    } else if b.len() == 0 {
        a.len()
    } else {
        min3(
            lev(a.drop_last(), b) + 1,
            lev(a, b.drop_last()) + 1,
            lev(a.drop_last(), b.drop_last()) + if a.last() == b.last() {
                0nat
            } else {
                1nat
            },
        )
    }
}

proof fn lemma_lev_bound(a: Seq<char>, b: Seq<char>)
    ensures
        lev(a, b) <= a.len() + b.len(),
    decreases a.len() + b.len(),
{
    if a.len() > 0 && b.len() > 0 {
        lemma_lev_bound(a.drop_last(), b);
    }
}

/// The Levenshtein distance between `a` and `b`, row by row.
pub fn levenshtein(a: &Vec<char>, b: &Vec<char>) -> (r: usize)
    requires
        a@.len() + b@.len() < usize::MAX,
    ensures
        r == lev(a@, b@),
{
    let n = a.len();
    let m = b.len();
    let mut prev: Vec<usize> = Vec::new();
    let mut j: usize = 0;
    while j <= m
        invariant
            j <= m + 1,
            m == b@.len(),
            n + m < usize::MAX,
            prev@.len() == j,
            forall|k: int| 0 <= k < j ==> #[trigger] prev@[k] == lev(a@.take(0), b@.take(k)),
        decreases m + 1 - j,
    {
        proof {
            assert(a@.take(0).len() == 0);
        }
        prev.push(j);
        j = j + 1;
    }
    let mut i: usize = 0;
    while i < n
        invariant
            i <= n,
            n == a@.len(),
            m == b@.len(),
            n + m < usize::MAX,
            prev@.len() == m + 1,
            forall|k: int| 0 <= k <= m ==> #[trigger] prev@[k] == lev(a@.take(i as int), b@.take(k)),
        decreases n - i,
    {
        let ghost ai = a@.take(i as int);
        let ghost ai1 = a@.take(i + 1);
        assert(ai1.drop_last() =~= ai);
        let mut cur: Vec<usize> = Vec::new();
        cur.push(i + 1);
        let mut k: usize = 1;
        while k <= m
            invariant
                1 <= k <= m + 1,
                i < n,
                n == a@.len(),
                m == b@.len(),
                n + m < usize::MAX,
                ai == a@.take(i as int),
                ai1 == a@.take(i + 1),
                ai1.drop_last() == ai,
                prev@.len() == m + 1,
                forall|q: int| 0 <= q <= m ==> #[trigger] prev@[q] == lev(ai, b@.take(q)),
                cur@.len() == k,
                forall|q: int| 0 <= q < k ==> #[trigger] cur@[q] == lev(ai1, b@.take(q)),
            decreases m + 1 - k,
        {
            let ghost bk = b@.take(k as int);
            assert(bk.drop_last() =~= b@.take(k - 1));
            proof {
                lemma_lev_bound(ai, bk);
                lemma_lev_bound(ai1, b@.take(k - 1));
                lemma_lev_bound(ai, b@.take(k - 1));
            }
            let del = prev[k] + 1;
            let ins = cur[k - 1] + 1;
            let sub = if a[i] == b[k - 1] {
                prev[k - 1]
            } else {
                prev[k - 1] + 1
            };
            let best = if del <= ins && del <= sub {
                del
            } else if ins <= sub {
                ins
            } else {
                sub
            };
            assert(ai1.last() == a@[i as int]);
            assert(bk.last() == b@[k - 1]);
            cur.push(best);
            k = k + 1;
        }
        prev = cur;
        i = i + 1;
    }
    assert(a@.take(n as int) =~= a@);
    assert(b@.take(m as int) =~= b@);
    prev[m]
}

/// The length of the common run of `a` from `i` and `b` from `j`.
pub open spec fn run(a: Seq<char>, b: Seq<char>, i: int, j: int) -> nat
    decreases a.len() - i,
{
    if 0 <= i < a.len() && 0 <= j < b.len() && a[i] == b[j] {
        1 + run(a, b, i + 1, j + 1)
    } else {
        0
    }
}

/// The longest common block (start in `a`, start in `b`, length) among the
/// starts before `(i, j)`, row by row; the first one found wins ties, and
/// the length is 0 where there is none.
pub open spec fn best_upto(a: Seq<char>, b: Seq<char>, i: int, j: int) -> (int, int, nat)
    decreases i, j,
{
    if i <= 0 && j <= 0 {
        (0, 0, 0)
    } else if j <= 0 {
        best_upto(a, b, i - 1, b.len() as int)
    } else {
        let prev = best_upto(a, b, i, j - 1);
        let r = run(a, b, i, j - 1);
        if r > prev.2 {
            (i, j - 1, r)
        } else {
            prev
        }
    }
}

/// The longest common block of `a` and `b`.
pub open spec fn longest(a: Seq<char>, b: Seq<char>) -> (int, int, nat) {
    best_upto(a, b, a.len() as int, 0)
}

proof fn lemma_run_bound(a: Seq<char>, b: Seq<char>, i: int, j: int)
    requires
        0 <= i,
        0 <= j,
    ensures
        run(a, b, i, j) > 0 ==> i < a.len() && j < b.len(),
        run(a, b, i, j) > 0 ==> i + run(a, b, i, j) <= a.len() && j + run(a, b, i, j) <= b.len(),
    decreases a.len() - i,
{
    if 0 <= i < a.len() && 0 <= j < b.len() && a[i] == b[j] {
        lemma_run_bound(a, b, i + 1, j + 1);
    }
}

proof fn lemma_best_bound(a: Seq<char>, b: Seq<char>, i: int, j: int)
    requires
        0 <= i <= a.len(),
        0 <= j <= b.len(),
    ensures
        best_upto(a, b, i, j).2 > 0 ==> ({
            let (p, q, k) = best_upto(a, b, i, j);
            0 <= p && 0 <= q && p + k <= a.len() && q + k <= b.len()
        }),
    decreases i, j,
{
    if i <= 0 && j <= 0 {
    } else if j <= 0 {
        lemma_best_bound(a, b, i - 1, b.len() as int);
    } else {
        lemma_best_bound(a, b, i, j - 1);
        lemma_run_bound(a, b, i, j - 1);
    }
}

#[via_fn]
proof fn matched_decreases(a: Seq<char>, b: Seq<char>) {
    lemma_best_bound(a, b, a.len() as int, 0);
}

/// The characters that gestalt pattern matching pairs up: the longest
/// common block, then the same on the parts left of it and right of it.
pub open spec fn matched(a: Seq<char>, b: Seq<char>) -> nat
    decreases a.len() + b.len(),
    via matched_decreases
{
    let (p, q, k) = longest(a, b);
    if k == 0 {
        0
    } else {
        k + matched(a.subrange(0, p), b.subrange(0, q)) + matched(
            a.subrange(p + k, a.len() as int),
            b.subrange(q + k, b.len() as int),
        )
    }
}

proof fn lemma_matched_bound(a: Seq<char>, b: Seq<char>)
    ensures
        matched(a, b) <= a.len(),
        matched(a, b) <= b.len(),
    decreases a.len() + b.len(),
{
    let (p, q, k) = longest(a, b);
    if k > 0 {
        lemma_best_bound(a, b, a.len() as int, 0);
        lemma_matched_bound(a.subrange(0, p), b.subrange(0, q));
        lemma_matched_bound(a.subrange(p + k, a.len() as int), b.subrange(q + k, b.len() as int));
    }
}

/// The length of the common run of `a` from `i` and `b` from `j`.
fn run_len(a: &Vec<char>, b: &Vec<char>, i: usize, j: usize) -> (r: usize)
    requires
        i <= a@.len(),
        j <= b@.len(),
    ensures
        r == run(a@, b@, i as int, j as int),
{
    let mut k: usize = 0;
    while k < a.len() - i && k < b.len() - j && a[i + k] == b[j + k]
        invariant
            i + k <= a@.len(),
            j + k <= b@.len(),
            run(a@, b@, i as int, j as int) == k + run(a@, b@, (i + k) as int, (j + k) as int),
        decreases a@.len() - i - k,
    {
        k = k + 1;
    }
    k
}

/// The longest common block of `a` and `b`, as `longest` gives it.
fn longest_block(a: &Vec<char>, b: &Vec<char>) -> (r: (usize, usize, usize))
    ensures
        (r.0 as int, r.1 as int, r.2 as nat) == longest(a@, b@),
{
    let n = a.len();
    let m = b.len();
    let mut best: (usize, usize, usize) = (0, 0, 0);
    let mut i: usize = 0;
    while i < n
        invariant
            n == a@.len(),
            m == b@.len(),
            i <= n,
            (best.0 as int, best.1 as int, best.2 as nat) == best_upto(a@, b@, i as int, 0),
        decreases n - i,
    {
        let mut j: usize = 0;
        assert(best_upto(a@, b@, i as int, 0) == best_upto(a@, b@, i as int, 0));
        while j < m
            invariant
                n == a@.len(),
                m == b@.len(),
                i < n,
                j <= m,
                (best.0 as int, best.1 as int, best.2 as nat) == best_upto(a@, b@, i as int, j as int),
            decreases m - j,
        {
            let r = run_len(a, b, i, j);
            if r > best.2 {
                best = (i, j, r);
            }
            j = j + 1;
        }
        i = i + 1;
        assert(best_upto(a@, b@, i as int, 0) == best_upto(a@, b@, (i - 1) as int, m as int));
    }
    best
}

/// The characters of `v` from `lo` up to `hi`.
fn part(v: &Vec<char>, lo: usize, hi: usize) -> (r: Vec<char>)
    requires
        lo <= hi <= v@.len(),
    ensures
        r@ == v@.subrange(lo as int, hi as int),
{
    let mut out: Vec<char> = Vec::new();
    let mut i: usize = lo;
    while i < hi
        invariant
            lo <= i <= hi,
            hi <= v@.len(),
            out@ == v@.subrange(lo as int, i as int),
        decreases hi - i,
    {
        out.push(v[i]);
        i = i + 1;
        assert(out@ =~= v@.subrange(lo as int, i as int));
    }
    out
}

/// How many characters gestalt pattern matching pairs up in `a` and `b`.
pub fn matched_count(a: &Vec<char>, b: &Vec<char>) -> (r: usize)
    ensures
        r == matched(a@, b@),
    decreases a@.len() + b@.len(),
{
    let (p, q, k) = longest_block(a, b);
    if k == 0 {
        return 0;
    }
    let na = a.len();
    let nb = b.len();
    proof {
        lemma_best_bound(a@, b@, a@.len() as int, 0);
        let t = best_upto(a@, b@, a@.len() as int, 0);
        assert(t.0 + t.2 <= a@.len() && t.1 + t.2 <= b@.len());
        assert(p + k <= a@.len() && q + k <= b@.len());
        lemma_matched_bound(a@, b@);
        lemma_matched_bound(a@.subrange(0, p as int), b@.subrange(0, q as int));
        lemma_matched_bound(
            a@.subrange((p + k) as int, a@.len() as int),
            b@.subrange((q + k) as int, b@.len() as int),
        );
    }
    let left_a = part(a, 0, p);
    let left_b = part(b, 0, q);
    let right_a = part(a, p + k, na);
    let right_b = part(b, q + k, nb);
    let left = matched_count(&left_a, &left_b);
    let right = matched_count(&right_a, &right_b);
    k + left + right
}

/// The edit similarity of `guess` and `name`, one less the distance over
/// the longer length, exceeds three quarters.
pub open spec fn is_edit_near(guess: Seq<char>, name: Seq<char>) -> bool {
    let longer = if guess.len() >= name.len() {
        guess.len()
    } else {
        name.len()
    };
    4 * lev(guess, name) < longer
}

/// The gestalt similarity of `guess` and `name`, twice the paired
/// characters over both lengths, exceeds three quarters.
pub open spec fn is_gestalt_near(guess: Seq<char>, name: Seq<char>) -> bool {
    8 * matched(guess, name) > 3 * (guess.len() + name.len())
}

/// `guess` comes close to `name` by either similarity.
pub open spec fn is_near(guess: Seq<char>, name: Seq<char>) -> bool {
    is_edit_near(guess, name) || is_gestalt_near(guess, name)
}

/// Tests whether `guess` comes close to `name`.
pub fn near(guess: &str, name: &str) -> (r: bool)
    requires
        guess@.len() + name@.len() < usize::MAX,
    ensures
        r == is_near(guess@, name@),
{
    let g = chars_of(guess);
    let n = chars_of(name);
    let d = levenshtein(&g, &n);
    let longer = if g.len() >= n.len() {
        g.len()
    } else {
        n.len()
    };
    let by_edits = (4 * (d as u128)) < longer as u128;
    let m = matched_count(&g, &n);
    let by_blocks = 8 * (m as u128) > 3 * ((g.len() as u128) + (n.len() as u128));
    by_edits || by_blocks
}

} // verus!
