//! Sequences that hold each of their items once.

use vstd::prelude::*;

verus! {

/// The items of a sequence, each once, in the order in which they first occur.
pub open spec fn distinct<T>(s: Seq<T>) -> Seq<T>
    decreases s.len(),
{
    if s.len() == 0 {
        Seq::empty()
    } else {
        let before = distinct(s.drop_last());
        if before.contains(s.last()) {
            before
        } else {
            before.push(s.last())
        }
    }
}

/// Each item of a sequence is among its distinct items, and no other is; none
/// of them stands twice.
pub proof fn lemma_distinct<T>(s: Seq<T>)
    ensures
        distinct(s).no_duplicates(),
        forall|p: T| distinct(s).contains(p) <==> s.contains(p),
        distinct(s).len() <= s.len(),
        s.len() > 0 ==> distinct(s).len() > 0,
    decreases s.len(),
{
    if s.len() > 0 {
        let init = s.drop_last();
        let before = distinct(init);
        lemma_distinct(init);
        assert forall|p: T| distinct(s).contains(p) <==> s.contains(p) by {
            if s.contains(p) {
                let i = choose|i: int| 0 <= i < s.len() && s[i] == p;
                if i < s.len() - 1 {
                    assert(init[i] == p);
                    assert(init.contains(p));
                    assert(before.contains(p));
                    if !before.contains(s.last()) {
                        let j = choose|j: int| 0 <= j < before.len() && before[j] == p;
                        assert(before.push(s.last())[j] == p);
                    }
                } else {
                    if !before.contains(s.last()) {
                        assert(before.push(s.last())[before.len() as int] == p);
                    }
                }
            }
            if distinct(s).contains(p) {
                let j = choose|j: int| 0 <= j < distinct(s).len() && distinct(s)[j] == p;
                if j < before.len() {
                    assert(before[j] == p);
                    assert(before.contains(p));
                    assert(init.contains(p));
                    let i = choose|i: int| 0 <= i < init.len() && init[i] == p;
                    assert(s[i] == p);
                } else {
                    assert(s[s.len() - 1] == p);
                }
            }
        }
        if !before.contains(s.last()) {
            assert forall|i: int, j: int|
                0 <= i < distinct(s).len() && 0 <= j < distinct(s).len() && i != j implies distinct(
                s,
            )[i] != distinct(s)[j] by {
                if i < before.len() {
                    assert(before.contains(before[i]));
                }
                if j < before.len() {
                    assert(before.contains(before[j]));
                }
            }
        }
    }
}

/// A sequence that holds nothing twice is its own sequence of distinct items.
pub proof fn lemma_distinct_of_distinct<T>(s: Seq<T>)
    requires
        s.no_duplicates(),
    ensures
        distinct(s) == s,
    decreases s.len(),
{
    if s.len() > 0 {
        let init = s.drop_last();
        lemma_distinct_of_distinct(init);
        lemma_distinct(init);
        if init.contains(s.last()) {
            let i = choose|i: int| 0 <= i < init.len() && init[i] == s.last();
            assert(s[i] == s[s.len() - 1]);
        }
        assert(distinct(s) =~= s);
    } else {
        assert(distinct(s) =~= s);
    }
}

/// Taking the distinct items first changes nothing: the distinct items of a
/// sequence followed by more items are those of its own distinct items
/// followed by the same items.
pub proof fn lemma_distinct_concat<T>(first: Seq<T>, more: Seq<T>)
    ensures
        distinct(distinct(first) + more) == distinct(first + more),
        distinct(first + more).to_set() == first.to_set().union(more.to_set()),
    decreases more.len(),
{
    lemma_distinct(first);
    lemma_distinct(first + more);
    vstd::seq_lib::seq_to_set_distributes_over_add(first, more);
    assert(distinct(first + more).to_set() =~= (first + more).to_set());
    if more.len() == 0 {
        assert(distinct(first) + more =~= distinct(first));
        assert(first + more =~= first);
        lemma_distinct_of_distinct(distinct(first));
    } else {
        lemma_distinct_concat(first, more.drop_last());
        assert((distinct(first) + more).drop_last() =~= distinct(first) + more.drop_last());
        assert((first + more).drop_last() =~= first + more.drop_last());
    }
}

} // verus!
