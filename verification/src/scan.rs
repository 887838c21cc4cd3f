//! The first finding of a scan, and what the parts of a scan add up to.

use vstd::prelude::*;

verus! {

/// The first finding in a row of results, if there is one.
pub open spec fn first_some<T>(s: Seq<Option<T>>) -> Option<T>
    decreases s.len(),
{
    if s.len() == 0 {
        None
    } else if s[0] is Some {
        s[0]
    } else {
        first_some(s.drop_first())
    }
}

/// A finding that nothing precedes is the first one.
pub proof fn lemma_first_some<T>(s: Seq<Option<T>>, i: int)
    requires
        0 <= i < s.len(),
        s[i] is Some,
        forall|j: int| 0 <= j < i ==> s[j] is None,
    ensures
        first_some(s) == s[i],
    decreases i,
{
    if i > 0 {
        assert(s.drop_first()[i - 1] == s[i]);
        assert forall|j: int| 0 <= j < i - 1 implies s.drop_first()[j] is None by {
            assert(s.drop_first()[j] == s[j + 1]);
        }
        lemma_first_some(s.drop_first(), i - 1);
    }
}

/// A row without findings has no first one.
pub proof fn lemma_no_some<T>(s: Seq<Option<T>>)
    requires
        forall|j: int| 0 <= j < s.len() ==> s[j] is None,
    ensures
        first_some(s) is None,
    decreases s.len(),
{
    if s.len() > 0 {
        assert forall|j: int| 0 <= j < s.len() - 1 implies s.drop_first()[j] is None by {
            assert(s.drop_first()[j] == s[j + 1]);
        }
        lemma_no_some(s.drop_first());
    }
}

/// The first finding, if there is one, is one of the row.
pub proof fn lemma_first_some_found<T>(s: Seq<Option<T>>)
    ensures
        first_some(s) is None ==> forall|j: int| 0 <= j < s.len() ==> (#[trigger] s[j]) is None,
        first_some(s) is Some ==> exists|i: int|
            0 <= i < s.len() && #[trigger] s[i] == first_some(s) && forall|j: int|
                0 <= j < i ==> s[j] is None,
    decreases s.len(),
{
    if s.len() > 0 && s[0] is None {
        let rest = s.drop_first();
        lemma_first_some_found(rest);
        if first_some(s) is None {
            assert forall|j: int| 0 <= j < s.len() implies (#[trigger] s[j]) is None by {
                if j > 0 {
                    assert(rest[j - 1] == s[j]);
                }
            }
        } else {
            let i = choose|i: int|
                0 <= i < rest.len() && #[trigger] rest[i] == first_some(rest) && forall|j: int|
                    0 <= j < i ==> rest[j] is None;
            assert(s[i + 1] == first_some(s));
            assert forall|j: int| 0 <= j < i + 1 implies s[j] is None by {
                if j > 0 {
                    assert(rest[j - 1] == s[j]);
                }
            }
        }
    } else if s.len() > 0 {
        assert(s[0] == first_some(s));
    }
}

/// All parts, one after the other.
pub open spec fn concatenated<T>(parts: Seq<Seq<T>>) -> Seq<T>
    decreases parts.len(),
{
    if parts.len() == 0 {
        Seq::empty()
    } else {
        concatenated(parts.drop_last()) + parts.last()
    }
}

/// One part more is appended at the end.
pub proof fn lemma_concatenated_step<T>(parts: Seq<Seq<T>>, i: int)
    requires
        0 <= i < parts.len(),
    ensures
        concatenated(parts.take(i + 1)) == concatenated(parts.take(i)) + parts[i],
        parts.take(parts.len() as int) == parts,
{
    assert(parts.take(i + 1).drop_last() =~= parts.take(i));
    assert(parts.take(parts.len() as int) =~= parts);
}

/// What the parts up to one add up to is a prefix of what all add up to, and
/// the part itself follows it.
pub proof fn lemma_concatenated_at<T>(parts: Seq<Seq<T>>, i: int)
    requires
        0 <= i < parts.len(),
    ensures
        concatenated(parts.take(i)).len() + parts[i].len() <= concatenated(parts).len(),
        forall|k: int|
            0 <= k < parts[i].len() ==> concatenated(parts)[concatenated(parts.take(i)).len() + k]
                == #[trigger] parts[i][k],
    decreases parts.len() - i,
{
    lemma_concatenated_step(parts, i);
    if i == parts.len() - 1 {
        assert(parts.take(i + 1) =~= parts);
    } else {
        let before = parts.drop_last();
        lemma_concatenated_at(before, i);
        assert(parts.take(i) =~= before.take(i));
    }
}

/// A filter keeps an element if and only if it is wanted, and keeps what is there
/// once there once.
pub proof fn lemma_filter_keeps<T>(s: Seq<T>, wanted: spec_fn(T) -> bool)
    ensures
        forall|x: T| #[trigger] s.filter(wanted).contains(x) <==> s.contains(x) && wanted(x),
        s.no_duplicates() ==> s.filter(wanted).no_duplicates(),
        s.filter(wanted).len() <= s.len(),
    decreases s.len(),
{
    reveal(Seq::filter);
    if s.len() > 0 {
        let before = s.drop_last();
        let kept = before.filter(wanted);
        lemma_filter_keeps(before, wanted);
        assert(s =~= before.push(s.last()));
        assert forall|x: T| #[trigger] s.filter(wanted).contains(x) <==> s.contains(x) && wanted(
            x,
        ) by {
            if s.contains(x) {
                let i = choose|i: int| 0 <= i < s.len() && s[i] == x;
                if i < before.len() {
                    assert(before[i] == x);
                }
            }
            if before.contains(x) {
                let i = choose|i: int| 0 <= i < before.len() && before[i] == x;
                assert(s[i] == x);
            }
            if wanted(s.last()) {
                assert(kept.push(s.last())[kept.len() as int] == s.last());
                if kept.contains(x) {
                    let i = choose|i: int| 0 <= i < kept.len() && kept[i] == x;
                    assert(kept.push(s.last())[i] == x);
                }
            }
            assert(s.contains(s.last())) by {
                assert(s[s.len() - 1] == s.last());
            }
        }
        if s.no_duplicates() {
            assert(before.no_duplicates());
            if wanted(s.last()) {
                assert(!kept.contains(s.last())) by {
                    if before.contains(s.last()) {
                        let i = choose|i: int| 0 <= i < before.len() && before[i] == s.last();
                        assert(s[i] == s[s.len() - 1]);
                    }
                }
                let out = kept.push(s.last());
                assert forall|i: int, j: int|
                    0 <= i < out.len() && 0 <= j < out.len() && i != j implies out[i] != out[j] by {
                    if i == kept.len() {
                        assert(kept.contains(kept[j]));
                    }
                    if j == kept.len() {
                        assert(kept.contains(kept[i]));
                    }
                }
            }
        }
    }
}

/// What two lists of parts add up to is what each adds up to.
pub proof fn lemma_concatenated_add<T>(a: Seq<Seq<T>>, b: Seq<Seq<T>>)
    ensures
        concatenated(a + b) == concatenated(a) + concatenated(b),
    decreases b.len(),
{
    if b.len() == 0 {
        assert(a + b =~= a);
        assert(concatenated(a + b) =~= concatenated(a) + concatenated(b));
    } else {
        assert((a + b).drop_last() =~= a + b.drop_last());
        lemma_concatenated_add(a, b.drop_last());
        assert(concatenated(a + b) =~= concatenated(a) + concatenated(b));
    }
}

/// The first finding of a row is the one that nothing precedes, and there is none
/// if and only if the row holds none.
pub proof fn law_first_finding<T>(s: Seq<Option<T>>, i: int)
    requires
        0 <= i < s.len(),
    ensures
        s[i] is Some && (forall|j: int| 0 <= j < i ==> s[j] is None) ==> first_some(s) == s[i],
        first_some(s) is None ==> s[i] is None,
        (forall|j: int| 0 <= j < s.len() ==> s[j] is None) ==> first_some(s) is None,
{
    lemma_first_some_found(s);
    if s[i] is Some && (forall|j: int| 0 <= j < i ==> s[j] is None) {
        lemma_first_some(s, i);
    }
    if forall|j: int| 0 <= j < s.len() ==> s[j] is None {
        lemma_no_some(s);
    }
}

} // verus!
