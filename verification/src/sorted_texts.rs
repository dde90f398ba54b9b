//! Lists of texts that ascend and hold no text twice.
use vstd::prelude::*;

use crate::text::{same_text, stands_before, text_less, texts_view};

verus! {

/// An ascending list with `s` at its place; the list itself where it holds `s` already.
pub open spec fn with_text(list: Seq<Seq<char>>, s: Seq<char>) -> Seq<Seq<char>>
    decreases list.len(),
{
    if list.len() == 0 {
        seq![s]
    } else if text_less(s, list.last()) {
        with_text(list.drop_last(), s).push(list.last())
    } else if list.last() == s {
        list
    } else {
        list.push(s)
    }
}

/// The first `n` texts in ascending order, each once.
pub open spec fn distinct(texts: Seq<Seq<char>>, n: int) -> Seq<Seq<char>>
    decreases n,
{
    if n <= 0 {
        Seq::empty()
    } else {
        with_text(distinct(texts, n - 1), texts[n - 1])
    }
}

/// Whether a list ascends and holds no text twice.
pub open spec fn ascending(list: Seq<Seq<char>>) -> bool {
    forall|i: int, j: int|
        0 <= i < j < list.len() ==> text_less(#[trigger] list[i], #[trigger] list[j])
}

/// Where a text is put.
proof fn lemma_place(list: Seq<Seq<char>>, s: Seq<char>, at: int)
    requires
        0 <= at <= list.len(),
        forall|k: int| at <= k < list.len() ==> text_less(s, #[trigger] list[k]),
        at > 0 ==> !text_less(s, list[at - 1]),
    ensures
        at > 0 && list[at - 1] == s ==> with_text(list, s) == list,
        !(at > 0 && list[at - 1] == s) ==> with_text(list, s) == list.insert(at, s),
    decreases list.len(),
{
    if at == list.len() {
        assert(list.insert(at, s) =~= list.push(s));
        if list.len() == 0 {
            assert(list.push(s) =~= seq![s]);
        }
    } else {
        let front = list.drop_last();
        assert(text_less(s, list[list.len() - 1]));
        assert forall|k: int| at <= k < front.len() implies text_less(s, #[trigger] front[k]) by {
            assert(list[k] == front[k]);
        }
        lemma_place(front, s, at);
        assert(list =~= front.push(list.last()));
        assert(list.insert(at, s) =~= front.insert(at, s).push(list.last()));
    }
}

/// Puts a text at its place in an ascending list.
pub fn put_text(list: &mut Vec<String>, s: &str)
    ensures
        texts_view(final(list)@) == with_text(texts_view(old(list)@), s@),
{
    let ghost views = texts_view(list@);
    let mut at: usize = list.len();
    while at > 0 && stands_before(s, list[at - 1].as_str())
        invariant
            at <= list@.len(),
            views == texts_view(list@),
            forall|k: int| at <= k < views.len() ==> text_less(s@, #[trigger] views[k]),
        decreases at,
    {
        assert(views[at - 1] == list@[at - 1]@);
        at -= 1;
    }
    proof {
        if at > 0 {
            assert(views[at - 1] == list@[at - 1]@);
        }
        lemma_place(views, s@, at as int);
    }
    if at > 0 && same_text(list[at - 1].as_str(), s) {
        return;
    }
    list.insert(at, s.to_owned());
    assert(texts_view(list@) =~= views.insert(at as int, s@));
}

/// Texts in ascending order, each once.
pub fn sorted_distinct(texts: &[String]) -> (r: Vec<String>)
    ensures
        texts_view(r@) == distinct(texts_view(texts@), texts@.len() as int),
{
    let mut r: Vec<String> = Vec::new();
    let mut i: usize = 0;
    let ghost views = texts_view(texts@);
    assert(texts_view(r@) =~= Seq::empty());
    while i < texts.len()
        invariant
            i <= texts@.len(),
            views == texts_view(texts@),
            texts_view(r@) == distinct(views, i as int),
        decreases texts@.len() - i,
    {
        put_text(&mut r, texts[i].as_str());
        i += 1;
    }
    r
}

/// The order of texts is transitive.
pub proof fn text_order_is_transitive(a: Seq<char>, b: Seq<char>, c: Seq<char>)
    requires
        text_less(a, b),
        text_less(b, c),
    ensures
        text_less(a, c),
    decreases a.len(),
{
    if a.len() > 0 && a[0] == b[0] && b[0] == c[0] {
        text_order_is_transitive(a.skip(1), b.skip(1), c.skip(1));
    }
}

/// Of two different texts one stands before the other, and none before itself.
pub proof fn text_order_is_total(a: Seq<char>, b: Seq<char>)
    ensures
        a != b ==> text_less(a, b) || text_less(b, a),
        !text_less(a, a),
        !(text_less(a, b) && text_less(b, a)),
    decreases a.len(),
{
    if a.len() > 0 && b.len() > 0 {
        text_order_is_total(a.skip(1), b.skip(1));
        if a[0] == b[0] && a.skip(1) == b.skip(1) {
            assert(a =~= b) by {
                assert forall|i: int| 0 <= i < a.len() implies a[i] == b[i] by {
                    if i > 0 {
                        assert(a.skip(1)[i - 1] == b.skip(1)[i - 1]);
                    }
                }
                assert(a.len() == a.skip(1).len() + 1);
                assert(b.len() == b.skip(1).len() + 1);
            }
        }
        assert(!text_less(a, a)) by {
            text_order_is_total(a.skip(1), a.skip(1));
        }
    } else if a.len() == 0 && b.len() == 0 {
        assert(a =~= b);
    } else if a.len() > 0 {
        text_order_is_total(a.skip(1), a.skip(1));
    }
}

/// A text that is put keeps a list ascending, and adds nothing but itself.
proof fn lemma_with_text(list: Seq<Seq<char>>, s: Seq<char>)
    requires
        ascending(list),
    ensures
        ascending(with_text(list, s)),
        with_text(list, s).contains(s),
        forall|t: Seq<char>|
            #![trigger with_text(list, s).contains(t)]
            with_text(list, s).contains(t) <==> list.contains(t) || t == s,
    decreases list.len(),
{
    let result = with_text(list, s);
    if list.len() == 0 {
        assert(result[0] == s);
    } else if text_less(s, list.last()) {
        let front = list.drop_last();
        assert(list =~= front.push(list.last()));
        assert forall|i: int, j: int| 0 <= i < j < front.len() implies text_less(
            #[trigger] front[i],
            #[trigger] front[j],
        ) by {
            assert(list[i] == front[i] && list[j] == front[j]);
        }
        lemma_with_text(front, s);
        let sorted = with_text(front, s);
        assert forall|i: int, j: int| 0 <= i < j < result.len() implies text_less(
            #[trigger] result[i],
            #[trigger] result[j],
        ) by {
            if j < sorted.len() {
                assert(text_less(sorted[i], sorted[j]));
            } else {
                assert(sorted.contains(sorted[i]));
                if sorted[i] != s {
                    assert(front.contains(sorted[i]));
                    let k = choose|k: int| 0 <= k < front.len() && front[k] == sorted[i];
                    assert(text_less(list[k], list[list.len() - 1]));
                }
            }
        }
        assert forall|t: Seq<char>| #[trigger] result.contains(t) <==> list.contains(t) || t
            == s by {
            if result.contains(t) {
                let i = choose|i: int| 0 <= i < result.len() && result[i] == t;
                if i < sorted.len() {
                    assert(sorted.contains(t));
                    if t != s {
                        let k = choose|k: int| 0 <= k < front.len() && front[k] == t;
                        assert(list[k] == t);
                    }
                } else {
                    assert(list[list.len() - 1] == t);
                }
            }
            if list.contains(t) {
                let k = choose|k: int| 0 <= k < list.len() && list[k] == t;
                if k < front.len() {
                    assert(front[k] == t);
                    assert(sorted.contains(t));
                    let i = choose|i: int| 0 <= i < sorted.len() && sorted[i] == t;
                    assert(result[i] == t);
                } else {
                    assert(result[result.len() - 1] == t);
                }
            }
            if t == s {
                assert(sorted.contains(s));
                let i = choose|i: int| 0 <= i < sorted.len() && sorted[i] == s;
                assert(result[i] == s);
            }
        }
    } else if list.last() == s {
        assert(list[list.len() - 1] == s);
    } else {
        text_order_is_total(list.last(), s);
        assert forall|i: int, j: int| 0 <= i < j < result.len() implies text_less(
            #[trigger] result[i],
            #[trigger] result[j],
        ) by {
            if j < list.len() {
                assert(text_less(list[i], list[j]));
            } else if i < list.len() - 1 {
                assert(text_less(list[i], list[list.len() - 1]));
                text_order_is_transitive(list[i], list.last(), s);
            }
        }
        assert forall|t: Seq<char>| #[trigger] result.contains(t) <==> list.contains(t) || t
            == s by {
            if result.contains(t) {
                let i = choose|i: int| 0 <= i < result.len() && result[i] == t;
                if i < list.len() {
                    assert(list[i] == t);
                }
            }
            if list.contains(t) {
                let i = choose|i: int| 0 <= i < list.len() && list[i] == t;
                assert(result[i] == t);
            }
            if t == s {
                assert(result[list.len() as int] == t);
            }
        }
        assert(result[list.len() as int] == s);
    }
}

/// A text that is put keeps a list ascending, and adds nothing but itself.
pub proof fn texts_are_put_in_order(list: Seq<Seq<char>>, s: Seq<char>)
    requires
        ascending(list),
    ensures
        ascending(with_text(list, s)),
        forall|t: Seq<char>| #[trigger] with_text(list, s).contains(t) <==> list.contains(t) || t == s,
{
    lemma_with_text(list, s);
}

/// The list ascends, and holds the texts that it is made of and no others.
pub proof fn distinct_texts_ascend(texts: Seq<Seq<char>>, n: int)
    requires
        0 <= n <= texts.len(),
    ensures
        ascending(distinct(texts, n)),
        forall|t: Seq<char>|
            #![trigger distinct(texts, n).contains(t)]
            distinct(texts, n).contains(t) <==> texts.take(n).contains(t),
    decreases n,
{
    if n > 0 {
        distinct_texts_ascend(texts, n - 1);
        lemma_with_text(distinct(texts, n - 1), texts[n - 1]);
        assert forall|t: Seq<char>| #[trigger] distinct(texts, n).contains(t) <==> texts.take(
            n,
        ).contains(t) by {
            assert(distinct(texts, n - 1).contains(t) <==> texts.take(n - 1).contains(t));
            if texts.take(n).contains(t) {
                let i = choose|i: int| 0 <= i < n && texts.take(n)[i] == t;
                if i < n - 1 {
                    assert(texts.take(n - 1)[i] == t);
                }
            }
            if texts.take(n - 1).contains(t) {
                let front = texts.take(n - 1);
                let i = choose|i: int| 0 <= i < front.len() && front[i] == t;
                assert(texts.take(n)[i] == t);
            }
            if t == texts[n - 1] {
                assert(texts.take(n)[n - 1] == t);
            }
        }
    }
}

/// Lists that ascend and hold the same texts are one list.
pub proof fn ascending_lists_are_one(a: Seq<Seq<char>>, b: Seq<Seq<char>>)
    requires
        ascending(a),
        ascending(b),
        forall|t: Seq<char>| #[trigger] a.contains(t) <==> b.contains(t),
    ensures
        a == b,
    decreases a.len(),
{
    if a.len() == 0 {
        if b.len() > 0 {
            assert(b.contains(b[0]));
            assert(!a.contains(b[0]));
        }
        assert(a =~= b);
    } else {
        assert(a.contains(a[0]));
        let x = a.last();
        assert(a.contains(x));
        let i = choose|i: int| 0 <= i < b.len() && b[i] == x;
        let y = b.last();
        assert(b.contains(y));
        assert(a.contains(y));
        let j = choose|j: int| 0 <= j < a.len() && a[j] == y;
        text_order_is_total(x, y);
        if i < b.len() - 1 && j < a.len() - 1 {
            assert(text_less(b[i], b[b.len() - 1]));
            assert(text_less(a[j], a[a.len() - 1]));
        }
        assert(x == y);
        let c = a.drop_last();
        let d = b.drop_last();
        assert(ascending(c)) by {
            assert forall|k: int, l: int| 0 <= k < l < c.len() implies text_less(
                #[trigger] c[k],
                #[trigger] c[l],
            ) by {
                assert(text_less(a[k], a[l]));
            }
        }
        assert(ascending(d)) by {
            assert forall|k: int, l: int| 0 <= k < l < d.len() implies text_less(
                #[trigger] d[k],
                #[trigger] d[l],
            ) by {
                assert(text_less(b[k], b[l]));
            }
        }
        assert forall|t: Seq<char>| #[trigger] c.contains(t) <==> d.contains(t) by {
            if c.contains(t) {
                let k = choose|k: int| 0 <= k < c.len() && c[k] == t;
                assert(text_less(a[k], a[a.len() - 1]));
                text_order_is_total(t, t);
                assert(a.contains(t));
                let l = choose|l: int| 0 <= l < b.len() && b[l] == t;
                assert(d[l] == t);
            }
            if d.contains(t) {
                let k = choose|k: int| 0 <= k < d.len() && d[k] == t;
                assert(text_less(b[k], b[b.len() - 1]));
                text_order_is_total(t, t);
                assert(b.contains(t));
                assert(a.contains(t));
                let l = choose|l: int| 0 <= l < a.len() && a[l] == t;
                assert(c[l] == t);
            }
        }
        ascending_lists_are_one(c, d);
        assert(a =~= c.push(x));
        assert(b =~= d.push(y));
    }
}

} // verus!
