//! Small sequence facts the repositories lean on: first-occurrence
//! deduplication and step lemmas for building a filtered sequence in a loop.

use vstd::prelude::*;

verus! {

/// The sequence with later repetitions removed: every element keeps its first
/// occurrence and the order of first occurrences is preserved.
pub open spec fn dedup<A>(s: Seq<A>) -> Seq<A>
    decreases s.len(),
{
    if s.len() == 0 {
        Seq::empty()
    } else {
        let d = dedup(s.drop_last());
        if d.contains(s.last()) {
            d
        } else {
            d.push(s.last())
        }
    }
}

/// An element is in a sequence exactly when it is its last element or in the
/// rest.
pub proof fn lemma_contains_drop_last<A>(s: Seq<A>, x: A)
    requires
        s.len() > 0,
    ensures
        s.contains(x) <==> (s.drop_last().contains(x) || x == s.last()),
{
    if s.contains(x) {
        let i = choose|i: int| 0 <= i < s.len() && s[i] == x;
        if i < s.len() - 1 {
            assert(s.drop_last()[i] == x);
            assert(s.drop_last().contains(x));
        }
    }
    if s.drop_last().contains(x) {
        let i = choose|i: int| 0 <= i < s.drop_last().len() && s.drop_last()[i] == x;
        assert(s[i] == x);
    }
    if x == s.last() {
        assert(s[s.len() - 1] == x);
    }
}

/// Deduplication keeps exactly the elements of the input, without duplicates,
/// and keeps a nonempty input nonempty.
pub proof fn lemma_dedup_props<A>(s: Seq<A>)
    ensures
        dedup(s).no_duplicates(),
        forall|x: A| dedup(s).contains(x) <==> s.contains(x),
        s.len() > 0 ==> dedup(s).len() > 0,
        dedup(s).to_set() == s.to_set(),
    decreases s.len(),
{
    if s.len() == 0 {
        assert(forall|x: A| !s.contains(x));
        assert(forall|x: A| !dedup(s).contains(x));
    } else {
        let rest = s.drop_last();
        lemma_dedup_props(rest);
        let d = dedup(rest);
        assert forall|x: A| dedup(s).contains(x) implies s.contains(x) by {
            lemma_contains_drop_last(s, x);
            if d.contains(s.last()) {
            } else {
                lemma_contains_drop_last(dedup(s), x);
            }
        }
        assert forall|x: A| s.contains(x) implies dedup(s).contains(x) by {
            lemma_contains_drop_last(s, x);
            if x == s.last() {
                if d.contains(s.last()) {
                } else {
                    assert(dedup(s).last() == x);
                    assert(dedup(s)[dedup(s).len() - 1] == x);
                }
            } else {
                assert(d.contains(x));
                if !d.contains(s.last()) {
                    let i = choose|i: int| 0 <= i < d.len() && d[i] == x;
                    assert(dedup(s)[i] == x);
                }
            }
        }
        if !d.contains(s.last()) {
            assert forall|i: int, j: int|
                0 <= i < dedup(s).len() && 0 <= j < dedup(s).len() && i != j implies dedup(s)[i]
                != dedup(s)[j] by {
                if i < d.len() && j < d.len() {
                    assert(d[i] == dedup(s)[i] && d[j] == dedup(s)[j]);
                } else if i < d.len() {
                    assert(!d.contains(s.last()));
                    assert(d[i] == dedup(s)[i]);
                } else if j < d.len() {
                    assert(d[j] == dedup(s)[j]);
                }
            }
        }
        assert(dedup(s).to_set() =~= s.to_set()) by {
            assert(forall|x: A| dedup(s).to_set().contains(x) <==> dedup(s).contains(x));
            assert(forall|x: A| s.to_set().contains(x) <==> s.contains(x));
        }
    }
}

/// One loop step of first-occurrence deduplication.
pub proof fn lemma_dedup_take_step<A>(s: Seq<A>, i: int)
    requires
        0 <= i < s.len(),
    ensures
        dedup(s.take(i + 1)) == if dedup(s.take(i)).contains(s[i]) {
            dedup(s.take(i))
        } else {
            dedup(s.take(i)).push(s[i])
        },
{
    assert(s.take(i + 1).drop_last() =~= s.take(i));
    assert(s.take(i + 1).last() == s[i]);
}

/// One loop step of filtering: extending the prefix by one element extends
/// the filtered prefix exactly when the element passes.
pub proof fn lemma_filter_take_step<A>(s: Seq<A>, pred: spec_fn(A) -> bool, i: int)
    requires
        0 <= i < s.len(),
    ensures
        s.take(i + 1).filter(pred) == if pred(s[i]) {
            s.take(i).filter(pred).push(s[i])
        } else {
            s.take(i).filter(pred)
        },
{
    reveal(Seq::filter);
    assert(s.take(i + 1).drop_last() =~= s.take(i));
    assert(s.take(i + 1).last() == s[i]);
}

/// Membership in a pushed sequence.
pub proof fn lemma_contains_push<A>(s: Seq<A>, v: A, x: A)
    ensures
        s.push(v).contains(x) <==> (s.contains(x) || x == v),
{
    lemma_contains_drop_last(s.push(v), x);
    assert(s.push(v).drop_last() =~= s);
    assert(s.push(v).last() == v);
}

/// Whatever filtering keeps was already there.
pub proof fn lemma_filter_subset<A>(s: Seq<A>, pred: spec_fn(A) -> bool, x: A)
    requires
        s.filter(pred).contains(x),
    ensures
        s.contains(x),
        pred(x),
    decreases s.len(),
{
    reveal(Seq::filter);
    if s.len() > 0 {
        lemma_contains_drop_last(s, x);
        if pred(s.last()) {
            lemma_contains_drop_last(s.drop_last().filter(pred).push(s.last()), x);
            if x != s.last() {
                assert(s.drop_last().filter(pred).push(s.last()).drop_last() =~= s.drop_last().filter(pred));
                lemma_filter_subset(s.drop_last(), pred, x);
            }
        } else {
            lemma_filter_subset(s.drop_last(), pred, x);
        }
    }
}

/// Filtering a duplicate-free sequence leaves it duplicate-free.
pub proof fn lemma_filter_no_duplicates<A>(s: Seq<A>, pred: spec_fn(A) -> bool)
    requires
        s.no_duplicates(),
    ensures
        s.filter(pred).no_duplicates(),
    decreases s.len(),
{
    reveal(Seq::filter);
    if s.len() > 0 {
        let rest = s.drop_last();
        assert(rest.no_duplicates());
        lemma_filter_no_duplicates(rest, pred);
        if pred(s.last()) {
            assert(!rest.contains(s.last())) by {
                if rest.contains(s.last()) {
                    let i = choose|i: int| 0 <= i < rest.len() && rest[i] == s.last();
                    assert(s[i] == s[s.len() - 1]);
                }
            }
            assert(!rest.filter(pred).contains(s.last())) by {
                if rest.filter(pred).contains(s.last()) {
                    lemma_filter_subset(rest, pred, s.last());
                }
            }
            let f = rest.filter(pred).push(s.last());
            assert forall|i: int, j: int|
                0 <= i < f.len() && 0 <= j < f.len() && i != j implies f[i] != f[j] by {
                if i < f.len() - 1 && j < f.len() - 1 {
                    assert(f[i] == rest.filter(pred)[i]);
                    assert(f[j] == rest.filter(pred)[j]);
                } else if i < f.len() - 1 {
                    assert(rest.filter(pred).contains(rest.filter(pred)[i]));
                } else if j < f.len() - 1 {
                    assert(rest.filter(pred).contains(rest.filter(pred)[j]));
                }
            }
        }
    }
}

/// A full-length prefix is the sequence itself.
pub proof fn lemma_take_all<A>(s: Seq<A>)
    ensures
        s.take(s.len() as int) == s,
{
    assert(s.take(s.len() as int) =~= s);
}

} // verus!
