//! The order of texts by code points, and lists sorted by it.

use crate::text::{chars_of, texts};
use vstd::prelude::*;

verus! {

/// Whether `a` comes before `b`, or is `b`, when texts are compared character
/// by character and a prefix comes first.
pub open spec fn lex_le(a: Seq<char>, b: Seq<char>) -> bool
    decreases a.len(),
{
    if a.len() == 0 {
        true
    } else if b.len() == 0 {
        false
    } else if a[0] != b[0] {
        a[0] < b[0]
    } else {
        lex_le(a.drop_first(), b.drop_first())
    }
}

/// The order is reflexive.
pub proof fn lemma_lex_reflexive(a: Seq<char>)
    ensures
        lex_le(a, a),
    decreases a.len(),
{
    if a.len() > 0 {
        lemma_lex_reflexive(a.drop_first());
    }
}

/// Any two texts are ordered one way or the other.
pub proof fn lemma_lex_total(a: Seq<char>, b: Seq<char>)
    ensures
        lex_le(a, b) || lex_le(b, a),
    decreases a.len(),
{
    if a.len() > 0 && b.len() > 0 && a[0] == b[0] {
        lemma_lex_total(a.drop_first(), b.drop_first());
    }
}

/// Texts that are ordered both ways are equal.
pub proof fn lemma_lex_antisymmetric(a: Seq<char>, b: Seq<char>)
    requires
        lex_le(a, b),
        lex_le(b, a),
    ensures
        a == b,
    decreases a.len(),
{
    if a.len() > 0 && b.len() > 0 {
        lemma_lex_antisymmetric(a.drop_first(), b.drop_first());
        assert(a =~= seq![a[0]] + a.drop_first());
        assert(b =~= seq![b[0]] + b.drop_first());
    } else {
        assert(a =~= b);
    }
}

/// The order is transitive.
pub proof fn lemma_lex_transitive(a: Seq<char>, b: Seq<char>, c: Seq<char>)
    requires
        lex_le(a, b),
        lex_le(b, c),
    ensures
        lex_le(a, c),
    decreases a.len(),
{
    if a.len() > 0 && b.len() > 0 && c.len() > 0 && a[0] == b[0] && b[0] == c[0] {
        lemma_lex_transitive(a.drop_first(), b.drop_first(), c.drop_first());
    }
}

/// Whether `a` comes before `b`, or is `b`.
pub fn text_le(a: &str, b: &str) -> (r: bool)
    ensures
        r == lex_le(a@, b@),
{
    let x = chars_of(a);
    let y = chars_of(b);
    let mut i: usize = 0;
    assert(x@.skip(0) =~= a@);
    assert(y@.skip(0) =~= b@);
    while i < x.len() && i < y.len() && x[i] == y[i]
        invariant
            i <= x@.len(),
            i <= y@.len(),
            lex_le(a@, b@) == lex_le(x@.skip(i as int), y@.skip(i as int)),
        decreases x@.len() - i,
    {
        assert(x@.skip(i as int).drop_first() =~= x@.skip(i + 1));
        assert(y@.skip(i as int).drop_first() =~= y@.skip(i + 1));
        i += 1;
    }
    if i == x.len() {
        true
    } else if i == y.len() {
        false
    } else {
        x[i] < y[i]
    }
}

/// Whether a list of texts stands in order.
pub open spec fn in_order(s: Seq<Seq<char>>) -> bool {
    forall|i: int, j: int| 0 <= i <= j < s.len() ==> lex_le(#[trigger] s[i], #[trigger] s[j])
}

/// The texts of `s` in order, each as often as it occurs there.
pub open spec fn sorted_texts(s: Seq<Seq<char>>) -> Seq<Seq<char>> {
    s.sort_by(|a: Seq<char>, b: Seq<char>| lex_le(a, b))
}

/// A list in order that holds the texts of `s`, each as often as `s` does, is
/// the sorted list.
pub proof fn lemma_sorted_texts(s: Seq<Seq<char>>, t: Seq<Seq<char>>)
    requires
        in_order(t),
        t.to_multiset() == s.to_multiset(),
    ensures
        t == sorted_texts(s),
{
    let le = |a: Seq<char>, b: Seq<char>| lex_le(a, b);
    assert forall|a: Seq<char>| #[trigger] le(a, a) by {
        lemma_lex_reflexive(a);
    }
    assert forall|a: Seq<char>, b: Seq<char>| #[trigger] le(a, b) && #[trigger] le(b, a) implies a
        == b by {
        lemma_lex_antisymmetric(a, b);
    }
    assert forall|a: Seq<char>, b: Seq<char>, c: Seq<char>| #[trigger]
        le(a, b) && #[trigger] le(b, c) implies le(a, c) by {
        lemma_lex_transitive(a, b, c);
    }
    assert forall|a: Seq<char>, b: Seq<char>| #[trigger] le(a, b) || le(b, a) by {
        lemma_lex_total(a, b);
    }
    assert(vstd::relations::total_ordering(le));
    s.lemma_sort_by_ensures(le);
    assert(vstd::relations::sorted_by(t, le)) by {
        assert forall|i: int, j: int| 0 <= i < j < t.len() implies #[trigger] le(t[i], t[j]) by {
            assert(lex_le(t[i], t[j]));
        }
    }
    vstd::seq_lib::lemma_sorted_unique(t, sorted_texts(s), le);
}

/// The texts of `list` in order, each as often as it occurs there.
pub fn sorted(list: &[String]) -> (r: Vec<String>)
    ensures
        texts(r@) == sorted_texts(texts(list@)),
        in_order(texts(r@)),
{
    let mut r: Vec<String> = Vec::new();
    let mut i: usize = 0;
    assert(texts(list@).take(0) =~= texts(r@));
    while i < list.len()
        invariant
            i <= list@.len(),
            in_order(texts(r@)),
            texts(r@).to_multiset() == texts(list@).take(i as int).to_multiset(),
        decreases list@.len() - i,
    {
        let mut at: usize = r.len();
        while at > 0 && !text_le(r[at - 1].as_str(), list[i].as_str())
            invariant
                at <= r@.len(),
                i < list@.len(),
                forall|k: int| at <= k < r@.len() ==> !lex_le(#[trigger] r@[k]@, list@[i as int]@),
            decreases at,
        {
            at -= 1;
        }
        let ghost before = r@;
        let ghost new = list@[i as int]@;
        r.insert(at, list[i].clone());
        proof {
            assert(texts(r@) =~= texts(before).insert(at as int, new));
            broadcast use vstd::seq_lib::group_to_multiset_ensures;

            assert(texts(r@).remove(at as int) =~= texts(before));
            assert(texts(r@)[at as int] == new);
            assert(texts(r@).contains(new));
            assert(texts(r@).to_multiset() =~= texts(before).to_multiset().insert(new));
            assert(texts(list@).take(i + 1) =~= texts(list@).take(i as int).push(new));
            assert forall|a: int, b: int| 0 <= a <= b < r@.len() implies lex_le(
                #[trigger] texts(r@)[a],
                #[trigger] texts(r@)[b],
            ) by {
                let old = texts(before);
                if a < at && b < at {
                    assert(lex_le(old[a], old[b]));
                } else if a < at && b == at {
                    assert(lex_le(old[a], old[at - 1]));
                    lemma_lex_transitive(old[a], old[at - 1], new);
                } else if a < at {
                    assert(lex_le(old[a], old[b - 1]));
                } else if a == at && b == at {
                    lemma_lex_reflexive(new);
                } else if a == at {
                    assert(!lex_le(before[b - 1]@, new));
                    lemma_lex_total(new, old[b - 1]);
                } else {
                    assert(lex_le(old[a - 1], old[b - 1]));
                }
            }
        }
        i += 1;
    }
    assert(texts(list@).take(i as int) =~= texts(list@));
    proof {
        lemma_sorted_texts(texts(list@), texts(r@));
    }
    r
}

/// Sorting loses nothing and adds nothing, and puts the texts in order.
pub proof fn law_sorting(s: Seq<Seq<char>>)
    ensures
        sorted_texts(s).to_multiset() == s.to_multiset(),
        sorted_texts(s).len() == s.len(),
        forall|x: Seq<char>| #[trigger] sorted_texts(s).contains(x) <==> s.contains(x),
        s.no_duplicates() ==> sorted_texts(s).no_duplicates(),
        forall|i: int, j: int|
            0 <= i <= j < s.len() ==> lex_le(
                #[trigger] sorted_texts(s)[i],
                #[trigger] sorted_texts(s)[j],
            ),
{
    broadcast use vstd::seq_lib::group_to_multiset_ensures;

    let le = |a: Seq<char>, b: Seq<char>| lex_le(a, b);
    assert forall|a: Seq<char>| #[trigger] le(a, a) by {
        lemma_lex_reflexive(a);
    }
    assert forall|a: Seq<char>, b: Seq<char>| #[trigger] le(a, b) && #[trigger] le(b, a) implies a
        == b by {
        lemma_lex_antisymmetric(a, b);
    }
    assert forall|a: Seq<char>, b: Seq<char>, c: Seq<char>| #[trigger]
        le(a, b) && #[trigger] le(b, c) implies le(a, c) by {
        lemma_lex_transitive(a, b, c);
    }
    assert forall|a: Seq<char>, b: Seq<char>| #[trigger] le(a, b) || le(b, a) by {
        lemma_lex_total(a, b);
    }
    assert(vstd::relations::total_ordering(le));
    s.lemma_sort_by_ensures(le);
    let t = sorted_texts(s);
    assert(t.len() == t.to_multiset().len());
    assert(s.len() == s.to_multiset().len());
    assert forall|x: Seq<char>| #[trigger] t.contains(x) <==> s.contains(x) by {
        assert(t.contains(x) <==> t.to_multiset().count(x) > 0);
        assert(s.contains(x) <==> s.to_multiset().count(x) > 0);
    }
    assert forall|i: int, j: int| 0 <= i <= j < s.len() implies lex_le(
        #[trigger] t[i],
        #[trigger] t[j],
    ) by {
        if i < j {
            assert(le(t[i], t[j]));
        } else {
            lemma_lex_reflexive(t[i]);
        }
    }
    if s.no_duplicates() {
        s.lemma_multiset_has_no_duplicates();
        t.lemma_multiset_has_no_duplicates_conv();
    }
}

/// One text comes before another if and only if it is the beginning of it, or has
/// the smaller character where the two first differ.
pub proof fn law_order_of_texts(a: Seq<char>, b: Seq<char>)
    ensures
        lex_le(a, b) <==> {
            ||| a.len() <= b.len() && b.take(a.len() as int) == a
            ||| exists|k: int|
                0 <= k < a.len() && k < b.len() && a.take(k) == b.take(k) && (#[trigger] a[k])
                    < b[k]
        },
    decreases a.len(),
{
    if a.len() > 0 && b.len() > 0 {
        let (x, y) = (a.drop_first(), b.drop_first());
        if a[0] == b[0] {
            law_order_of_texts(x, y);
            if a.len() <= b.len() && b.take(a.len() as int) == a {
                assert forall|i: int| 0 <= i < x.len() implies y[i] == x[i] by {
                    assert(b.take(a.len() as int)[i + 1] == a[i + 1]);
                }
                assert(y.take(x.len() as int) =~= x);
            }
            if x.len() <= y.len() && y.take(x.len() as int) == x {
                assert forall|i: int| 0 <= i < a.len() implies b[i] == a[i] by {
                    if i > 0 {
                        assert(y.take(x.len() as int)[i - 1] == x[i - 1]);
                    }
                }
                assert(b.take(a.len() as int) =~= a);
            }
            if exists|k: int|
                0 <= k < a.len() && k < b.len() && a.take(k) == b.take(k) && (#[trigger] a[k])
                    < b[k] {
                let k = choose|k: int|
                    0 <= k < a.len() && k < b.len() && a.take(k) == b.take(k) && (#[trigger] a[k])
                        < b[k];
                assert(x.take(k - 1) =~= a.take(k).drop_first());
                assert(y.take(k - 1) =~= b.take(k).drop_first());
                assert(x[k - 1] < y[k - 1]);
            }
            if exists|k: int|
                0 <= k < x.len() && k < y.len() && x.take(k) == y.take(k) && (#[trigger] x[k])
                    < y[k] {
                let k = choose|k: int|
                    0 <= k < x.len() && k < y.len() && x.take(k) == y.take(k) && (#[trigger] x[k])
                        < y[k];
                assert(a.take(k + 1) =~= seq![a[0]] + x.take(k));
                assert(b.take(k + 1) =~= seq![b[0]] + y.take(k));
                assert(a[k + 1] < b[k + 1]);
            }
        } else {
            if a.len() <= b.len() && b.take(a.len() as int) == a {
                assert(b.take(a.len() as int)[0] == a[0]);
            }
            if a[0] < b[0] {
                assert(a.take(0) =~= b.take(0));
            }
            if exists|k: int|
                0 <= k < a.len() && k < b.len() && a.take(k) == b.take(k) && (#[trigger] a[k])
                    < b[k] {
                let k = choose|k: int|
                    0 <= k < a.len() && k < b.len() && a.take(k) == b.take(k) && (#[trigger] a[k])
                        < b[k];
                if k > 0 {
                    assert(a.take(k)[0] == b.take(k)[0]);
                }
            }
        }
    } else if a.len() == 0 {
        assert(b.take(0) =~= a);
    }
}

} // verus!
