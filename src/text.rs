//! Words of a message: splitting on white space, joining with single spaces,
//! and case folding.
use vstd::prelude::*;

verus! {

/// The characters that carry the Unicode `White_Space` property, which is
/// what `char::is_whitespace` tests.
pub open spec fn is_white(c: char) -> bool {
    ('\u{9}' <= c && c <= '\u{d}') || c == ' ' || c == '\u{85}' || c == '\u{a0}'
        || c == '\u{1680}' || ('\u{2000}' <= c && c <= '\u{200a}') || c == '\u{2028}'
        || c == '\u{2029}' || c == '\u{202f}' || c == '\u{205f}' || c == '\u{3000}'
}

/// The words still to come when `rest` is read after the partial word `cur`.
pub open spec fn words_from(rest: Seq<char>, cur: Seq<char>) -> Seq<Seq<char>>
    decreases rest.len(),
{
    if rest.len() == 0 {
        if cur.len() > 0 { seq![cur] } else { Seq::empty() }
    } else if is_white(rest[0]) {
        (if cur.len() > 0 { seq![cur] } else { Seq::<Seq<char>>::empty() })
            + words_from(rest.drop_first(), Seq::empty())
    } else {
        words_from(rest.drop_first(), cur.push(rest[0]))
    }
}

/// The maximal runs of non-white characters of `s`, in order.
pub open spec fn words_of(s: Seq<char>) -> Seq<Seq<char>> {
    words_from(s, Seq::empty())
}

/// The words of `ws` with one space between each two.
pub open spec fn join(ws: Seq<Seq<char>>) -> Seq<char>
    decreases ws.len(),
{
    if ws.len() == 0 {
        Seq::empty()
    } else if ws.len() == 1 {
        ws[0]
    } else {
        join(ws.drop_last()) + seq![' '] + ws.last()
    }
}

/// The views of a sequence of strings.
pub open spec fn views(v: Seq<String>) -> Seq<Seq<char>> {
    v.map_values(|s: String| s@)
}

/// What `str::to_lowercase` returns for a string of these characters.
pub uninterp spec fn lower_of(s: Seq<char>) -> Seq<char>;

/// Relies on `str::to_lowercase`: the lower-case form depends on the
/// characters alone.
#[verifier::external_body]
pub(crate) fn lowercase(s: &str) -> (r: String)
    ensures
        r@ == lower_of(s@),
{
    s.to_lowercase()
}

/// Tests one character for white space.
pub fn is_white_char(c: char) -> (r: bool)
    ensures
        r == is_white(c),
{
    ('\u{9}' <= c && c <= '\u{d}') || c == ' ' || c == '\u{85}' || c == '\u{a0}'
        || c == '\u{1680}' || ('\u{2000}' <= c && c <= '\u{200a}') || c == '\u{2028}'
        || c == '\u{2029}' || c == '\u{202f}' || c == '\u{205f}' || c == '\u{3000}'
}

/// The characters of `s`, in order.
pub fn chars_of(s: &str) -> (r: Vec<char>)
    ensures
        r@ == s@,
{
    let n = s.unicode_len();
    let mut out: Vec<char> = Vec::new();
    let mut i: usize = 0;
    while i < n
        invariant
            n == s@.len(),
            i <= n,
            out@ == s@.take(i as int),
        decreases n - i,
    {
        out.push(s.get_char(i));
        i = i + 1;
        assert(out@ =~= s@.take(i as int));
    }
    assert(out@ =~= s@);
    out
}

/// Joins `ws` with one space between each two words, as `[String]::join`
/// with `" "` does.
pub fn join_words(ws: &Vec<String>) -> (r: String)
    ensures
        r@ == join(views(ws@)),
{
    let mut out = String::new();
    let mut i: usize = 0;
    assert(views(ws@).take(0) =~= Seq::<Seq<char>>::empty());
    while i < ws.len()
        invariant
            i <= ws@.len(),
            out@ == join(views(ws@).take(i as int)),
        decreases ws@.len() - i,
    {
        let ghost before = views(ws@).take(i as int);
        let ghost after = views(ws@).take(i + 1);
        assert(after.drop_last() =~= before);
        if i > 0 {
            let space = " ";
            proof {
                reveal_strlit(" ");
            }
            out.append(space);
        }
        out.append(ws[i].as_str());
        i = i + 1;
        assert(out@ =~= join(after));
    }
    assert(views(ws@).take(ws@.len() as int) =~= views(ws@));
    out
}

/// Splits `s` into its words, as `str::split_whitespace` does.
pub fn split_words(s: &str) -> (r: Vec<String>)
    ensures
        views(r@) == words_of(s@),
{
    let cs = chars_of(s);
    let mut out: Vec<String> = Vec::new();
    let mut start: usize = 0;
    let mut i: usize = 0;
    assert(s@.skip(0) =~= s@);
    assert(s@.subrange(0, 0) =~= Seq::<char>::empty());
    assert(views(out@) =~= Seq::<Seq<char>>::empty());
    while i < cs.len()
        invariant
            cs@ == s@,
            start <= i <= cs@.len(),
            views(out@) + words_from(s@.skip(i as int), s@.subrange(start as int, i as int))
                == words_of(s@),
        decreases cs@.len() - i,
    {
        let ghost rest = s@.skip(i as int);
        let ghost prev = views(out@);
        assert(rest.drop_first() =~= s@.skip(i + 1));
        assert(rest[0] == s@[i as int]);
        if is_white_char(cs[i]) {
            if start < i {
                let w = s.substring_char(start, i).to_string();
                out.push(w);
                assert(views(out@) =~= prev + seq![s@.subrange(start as int, i as int)]);
            } else {
                assert(s@.subrange(start as int, i as int).len() == 0);
            }
            start = i + 1;
            i = i + 1;
            assert(s@.subrange(start as int, i as int) =~= Seq::<char>::empty());
        } else {
            assert(s@.subrange(start as int, i + 1) =~= s@.subrange(start as int, i as int).push(
                s@[i as int],
            ));
            i = i + 1;
        }
    }
    let ghost last = s@.subrange(start as int, i as int);
    let ghost prev = views(out@);
    if start < i {
        let w = s.substring_char(start, i).to_string();
        out.push(w);
        assert(views(out@) =~= prev + seq![last]);
    }
    assert(views(out@) =~= words_of(s@));
    out
}

/// `w` is a word as splitting yields it: not empty, and without white space.
pub open spec fn is_word(w: Seq<char>) -> bool {
    w.len() > 0 && forall|i: int| 0 <= i < w.len() ==> !is_white(#[trigger] w[i])
}

proof fn lemma_words_from_are_words(rest: Seq<char>, cur: Seq<char>)
    requires
        forall|i: int| 0 <= i < cur.len() ==> !is_white(#[trigger] cur[i]),
    ensures
        forall|k: int| 0 <= k < words_from(rest, cur).len() ==> is_word(#[trigger] words_from(rest, cur)[k]),
    decreases rest.len(),
{
    if rest.len() == 0 {
        if cur.len() > 0 {
            assert(words_from(rest, cur) == seq![cur]);
            assert(is_word(cur));
        } else {
            assert(words_from(rest, cur).len() == 0);
        }
    } else {
        if is_white(rest[0]) {
            lemma_words_from_are_words(rest.drop_first(), Seq::empty());
            let head: Seq<Seq<char>> = if cur.len() > 0 { seq![cur] } else { Seq::empty() };
            assert forall|k: int| 0 <= k < words_from(rest, cur).len() implies is_word(
                #[trigger] words_from(rest, cur)[k],
            ) by {
                assert(words_from(rest, cur) == head + words_from(rest.drop_first(), Seq::empty()));
                if k >= head.len() {
                    assert(words_from(rest, cur)[k] == words_from(rest.drop_first(), Seq::empty())[k
                        - head.len()]);
                } else {
                    assert(words_from(rest, cur)[k] == cur);
                    assert(is_word(cur));
                }
            }
        } else {
            let next = cur.push(rest[0]);
            assert forall|i: int| 0 <= i < next.len() implies !is_white(#[trigger] next[i]) by {
                if i < cur.len() {
                    assert(next[i] == cur[i]);
                }
            }
            lemma_words_from_are_words(rest.drop_first(), next);
            assert(words_from(rest, cur) == words_from(rest.drop_first(), next));
        }
    }
}

/// Every piece that splitting yields is a word.
pub proof fn lemma_words_of_are_words(s: Seq<char>)
    ensures
        forall|k: int| 0 <= k < words_of(s).len() ==> is_word(#[trigger] words_of(s)[k]),
{
    lemma_words_from_are_words(s, Seq::empty());
}

proof fn lemma_words_from_glue(a: Seq<char>, rest: Seq<char>, cur: Seq<char>)
    requires
        forall|i: int| 0 <= i < a.len() ==> !is_white(#[trigger] a[i]),
    ensures
        words_from(a + rest, cur) == words_from(rest, cur + a),
    decreases a.len(),
{
    if a.len() == 0 {
        assert(a + rest =~= rest);
        assert(cur + a =~= cur);
    } else {
        assert((a + rest)[0] == a[0]);
        assert((a + rest).drop_first() =~= a.drop_first() + rest);
        assert(cur.push(a[0]) + a.drop_first() =~= cur + a);
        lemma_words_from_glue(a.drop_first(), rest, cur.push(a[0]));
    }
}

proof fn lemma_join_front(ws: Seq<Seq<char>>)
    requires
        ws.len() >= 2,
    ensures
        join(ws) == ws[0] + (seq![' '] + join(ws.drop_first())),
    decreases ws.len(),
{
    if ws.len() > 2 {
        lemma_join_front(ws.drop_last());
        assert(ws.drop_last().drop_first() =~= ws.drop_first().drop_last());
        assert(join(ws.drop_first()) == join(ws.drop_first().drop_last()) + seq![' '] + ws.last());
    } else {
        assert(ws.drop_first().drop_last() =~= seq![ws[0]].drop_first());
        assert(join(ws.drop_last()) == ws[0]);
        assert(join(ws.drop_first()) == ws[1]);
    }
}

/// Splitting words joined by single spaces gives the words back.
pub proof fn lemma_split_join(ws: Seq<Seq<char>>)
    requires
        forall|k: int| 0 <= k < ws.len() ==> is_word(#[trigger] ws[k]),
    ensures
        words_of(join(ws)) == ws,
    decreases ws.len(),
{
    let e = Seq::<char>::empty();
    if ws.len() == 0 {
    } else if ws.len() == 1 {
        assert(is_word(ws[0]));
        lemma_words_from_glue(ws[0], e, e);
        assert(ws[0] + e =~= ws[0]);
        assert(e + ws[0] =~= ws[0]);
        assert(words_of(join(ws)) =~= ws);
    } else {
        let rest = ws.drop_first();
        assert forall|k: int| 0 <= k < rest.len() implies is_word(#[trigger] rest[k]) by {
            assert(rest[k] == ws[k + 1]);
        }
        lemma_split_join(rest);
        lemma_join_front(ws);
        assert(is_word(ws[0]));
        lemma_words_from_glue(ws[0], seq![' '] + join(rest), e);
        assert(e + ws[0] =~= ws[0]);
        let tail = seq![' '] + join(rest);
        assert(tail[0] == ' ');
        assert(tail.drop_first() =~= join(rest));
        assert(words_from(tail, ws[0]) == seq![ws[0]] + words_from(join(rest), e));
        assert(words_of(join(ws)) =~= ws);
    }
}

} // verus!
