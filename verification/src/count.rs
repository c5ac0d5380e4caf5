//! Counting the elements of a sequence that satisfy a predicate.

use vstd::prelude::*;

verus! {

/// One if `b` holds, zero if not.
pub open spec fn one_if(b: bool) -> nat {
    if b {
        1
    } else {
        0
    }
}

/// The predicate that holds of `x` and of nothing else.
pub open spec fn equal_to<T>(x: T) -> spec_fn(T) -> bool {
    |y: T| y == x
}

/// The number of elements of `s` for which `p` holds.
pub open spec fn count<T>(s: Seq<T>, p: spec_fn(T) -> bool) -> nat
    decreases s.len(),
{
    if s.len() == 0 {
        0
    } else {
        count(s.drop_last(), p) + one_if(p(s.last()))
    }
}

/// Nothing is counted in the empty sequence.
pub proof fn lemma_count_empty<T>(p: spec_fn(T) -> bool)
    ensures
        count(Seq::<T>::empty(), p) == 0,
{
}

/// Extending a sequence by `x` raises the count by one if the predicate holds
/// for `x`, and leaves it as it is otherwise.
pub proof fn lemma_count_push<T>(s: Seq<T>, x: T, p: spec_fn(T) -> bool)
    ensures
        count(s.push(x), p) == count(s, p) + one_if(p(x)),
{
    assert(s.push(x).drop_last() =~= s);
}

/// Counting over a concatenation adds up.
pub proof fn lemma_count_concat<T>(a: Seq<T>, b: Seq<T>, p: spec_fn(T) -> bool)
    ensures
        count(a + b, p) == count(a, p) + count(b, p),
    decreases b.len(),
{
    if b.len() == 0 {
        assert(a + b =~= a);
    } else {
        assert((a + b).drop_last() =~= a + b.drop_last());
        lemma_count_concat(a, b.drop_last(), p);
    }
}

/// Taking one element out lowers the count by one if the predicate holds for
/// that element, and leaves it as it is otherwise.
pub proof fn lemma_count_remove<T>(s: Seq<T>, i: int, p: spec_fn(T) -> bool)
    requires
        0 <= i < s.len(),
    ensures
        count(s, p) == count(s.remove(i), p) + one_if(p(s[i])),
{
    let front = s.subrange(0, i);
    let back = s.subrange(i + 1, s.len() as int);
    assert(s =~= front.push(s[i]) + back);
    assert(s.remove(i) =~= front + back);
    lemma_count_concat(front.push(s[i]), back, p);
    lemma_count_concat(front, back, p);
    lemma_count_push(front, s[i], p);
}

/// Replacing the element at `i` by the elements of `added`, at the end of the
/// sequence, changes the count by what `added` brings and the element takes
/// away.
pub proof fn lemma_count_replace<T>(s: Seq<T>, i: int, added: Seq<T>, p: spec_fn(T) -> bool)
    requires
        0 <= i < s.len(),
    ensures
        count(s.remove(i) + added, p) + one_if(p(s[i])) == count(s, p) + count(added, p),
{
    lemma_count_remove(s, i, p);
    lemma_count_concat(s.remove(i), added, p);
}

/// If the predicate holds for every element, every element is counted.
pub proof fn lemma_count_all<T>(s: Seq<T>, p: spec_fn(T) -> bool)
    requires
        forall|i: int| 0 <= i < s.len() ==> p(#[trigger] s[i]),
    ensures
        count(s, p) == s.len(),
    decreases s.len(),
{
    if s.len() > 0 {
        let front = s.drop_last();
        assert forall|i: int| 0 <= i < front.len() implies p(#[trigger] front[i]) by {
            assert(front[i] == s[i]);
        }
        lemma_count_all(front, p);
    }
}

/// If the predicate holds for no element, no element is counted.
pub proof fn lemma_count_none<T>(s: Seq<T>, p: spec_fn(T) -> bool)
    requires
        forall|i: int| 0 <= i < s.len() ==> !p(#[trigger] s[i]),
    ensures
        count(s, p) == 0,
    decreases s.len(),
{
    if s.len() > 0 {
        let front = s.drop_last();
        assert forall|i: int| 0 <= i < front.len() implies !p(#[trigger] front[i]) by {
            assert(front[i] == s[i]);
        }
        lemma_count_none(front, p);
    }
}

/// The count is positive exactly when the predicate holds for some element.
pub proof fn lemma_count_positive<T>(s: Seq<T>, p: spec_fn(T) -> bool)
    ensures
        count(s, p) > 0 <==> exists|i: int| 0 <= i < s.len() && p(#[trigger] s[i]),
    decreases s.len(),
{
    if s.len() > 0 {
        let front = s.drop_last();
        lemma_count_positive(front, p);
        if count(s, p) > 0 {
            if p(s.last()) {
                assert(p(s[s.len() - 1]));
            } else {
                let i = choose|i: int| 0 <= i < front.len() && p(#[trigger] front[i]);
                assert(p(s[i]));
            }
        }
        if exists|i: int| 0 <= i < s.len() && p(#[trigger] s[i]) {
            let i = choose|i: int| 0 <= i < s.len() && p(#[trigger] s[i]);
            if i < s.len() - 1 {
                assert(p(front[i]));
            }
        }
    }
}

} // verus!
