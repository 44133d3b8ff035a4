//! Sums over sequences.

use vstd::prelude::*;

verus! {

/// The sum of `f` over the items of `s`.
pub open spec fn total<A>(s: Seq<A>, f: spec_fn(A) -> int) -> int
    decreases s.len(),
{
    if s.len() == 0 {
        0
    } else {
        total(s.drop_last(), f) + f(s.last())
    }
}

/// The sum over two sequences, one after the other.
pub proof fn lemma_total_concat<A>(a: Seq<A>, b: Seq<A>, f: spec_fn(A) -> int)
    ensures
        total(a + b, f) == total(a, f) + total(b, f),
    decreases b.len(),
{
    if b.len() == 0 {
        assert(a + b =~= a);
    } else {
        assert((a + b).drop_last() =~= a + b.drop_last());
        lemma_total_concat(a, b.drop_last(), f);
    }
}

/// The sum over one item more.
pub proof fn lemma_total_push<A>(s: Seq<A>, x: A, f: spec_fn(A) -> int)
    ensures
        total(s.push(x), f) == total(s, f) + f(x),
{
    assert(s.push(x).drop_last() =~= s);
}

/// The sum after one item has been replaced.
pub proof fn lemma_total_update<A>(s: Seq<A>, i: int, x: A, f: spec_fn(A) -> int)
    requires
        0 <= i < s.len(),
    ensures
        total(s.update(i, x), f) == total(s, f) - f(s[i]) + f(x),
{
    let head = s.take(i);
    let tail = s.skip(i + 1);
    assert(s =~= head.push(s[i]) + tail);
    assert(s.update(i, x) =~= head.push(x) + tail);
    lemma_total_concat(head.push(s[i]), tail, f);
    lemma_total_concat(head.push(x), tail, f);
    lemma_total_push(head, s[i], f);
    lemma_total_push(head, x, f);
}

/// The sum after one item has been put in.
pub proof fn lemma_total_insert<A>(s: Seq<A>, i: int, x: A, f: spec_fn(A) -> int)
    requires
        0 <= i <= s.len(),
    ensures
        total(s.insert(i, x), f) == total(s, f) + f(x),
{
    let head = s.take(i);
    let tail = s.skip(i);
    assert(s =~= head + tail);
    assert(s.insert(i, x) =~= head.push(x) + tail);
    lemma_total_concat(head, tail, f);
    lemma_total_concat(head.push(x), tail, f);
    lemma_total_push(head, x, f);
}

/// The sum over a prefix is at most the sum over the whole, where nothing
/// counts less than zero.
pub proof fn lemma_total_prefix<A>(s: Seq<A>, k: int, f: spec_fn(A) -> int)
    requires
        0 <= k <= s.len(),
        forall|i: int| 0 <= i < s.len() ==> f(#[trigger] s[i]) >= 0,
    ensures
        0 <= total(s.take(k), f) <= total(s, f),
    decreases s.len(),
{
    if s.len() > 0 {
        if k == s.len() {
            assert(s.take(k) =~= s);
            lemma_total_prefix(s.drop_last(), s.len() - 1, f);
            assert(s.drop_last().take(s.len() - 1) =~= s.drop_last());
            assert(f(s[s.len() - 1]) >= 0);
        } else {
            lemma_total_prefix(s.drop_last(), k, f);
            assert(s.drop_last().take(k) =~= s.take(k));
            assert(f(s[s.len() - 1]) >= 0);
        }
    } else {
        assert(s.take(k) =~= s);
    }
}

/// One item counts at most as much as all of them, where nothing counts less
/// than zero.
pub proof fn lemma_total_covers<A>(s: Seq<A>, i: int, f: spec_fn(A) -> int)
    requires
        0 <= i < s.len(),
        forall|k: int| 0 <= k < s.len() ==> f(#[trigger] s[k]) >= 0,
    ensures
        0 <= f(s[i]) <= total(s, f),
{
    lemma_total_prefix(s, i, f);
    lemma_total_prefix(s, i + 1, f);
    assert(s.take(i + 1).drop_last() =~= s.take(i));
    assert(f(s[i]) >= 0);
}

/// Items that count no more add up to no more.
pub proof fn lemma_total_monotone<A>(s: Seq<A>, f: spec_fn(A) -> int, g: spec_fn(A) -> int)
    requires
        forall|i: int| 0 <= i < s.len() ==> f(#[trigger] s[i]) <= g(s[i]),
    ensures
        total(s, f) <= total(s, g),
    decreases s.len(),
{
    if s.len() > 0 {
        assert forall|i: int| 0 <= i < s.drop_last().len() implies f(#[trigger] s.drop_last()[i])
            <= g(s.drop_last()[i]) by {
            assert(s.drop_last()[i] == s[i]);
        }
        lemma_total_monotone(s.drop_last(), f, g);
        assert(f(s[s.len() - 1]) <= g(s[s.len() - 1]));
    }
}

/// The sum of zeros.
pub proof fn lemma_total_zero<A>(s: Seq<A>, f: spec_fn(A) -> int)
    requires
        forall|i: int| 0 <= i < s.len() ==> f(#[trigger] s[i]) == 0,
    ensures
        total(s, f) == 0,
    decreases s.len(),
{
    if s.len() > 0 {
        assert forall|i: int| 0 <= i < s.drop_last().len() implies f(#[trigger] s.drop_last()[i])
            == 0 by {
            assert(s.drop_last()[i] == s[i]);
        }
        lemma_total_zero(s.drop_last(), f);
        assert(f(s[s.len() - 1]) == 0);
    }
}

} // verus!
