//! Sums over the requests in a queue or a table.
use vstd::prelude::*;

verus! {

/// The sum of `f` over a sequence.
pub open spec fn total<T>(s: Seq<T>, f: spec_fn(T) -> int) -> int
    decreases s.len(),
{
    if s.len() == 0 {
        0
    } else {
        total(s.drop_last(), f) + f(s.last())
    }
}

/// One more element adds its own share.
pub proof fn lemma_total_push<T>(s: Seq<T>, x: T, f: spec_fn(T) -> int)
    ensures
        total(s.push(x), f) == total(s, f) + f(x),
{
    assert(s.push(x).drop_last() =~= s);
}

/// A sum splits anywhere.
pub proof fn lemma_total_concat<T>(a: Seq<T>, b: Seq<T>, f: spec_fn(T) -> int)
    ensures
        total(a + b, f) == total(a, f) + total(b, f),
    decreases b.len(),
{
    if b.len() == 0 {
        assert(a + b =~= a);
    } else {
        assert((a + b).drop_last() =~= a + b.drop_last());
        lemma_total_concat(a, b.drop_last(), f);
    }
}

/// The first element can be counted apart.
pub proof fn lemma_total_first<T>(s: Seq<T>, f: spec_fn(T) -> int)
    requires
        s.len() > 0,
    ensures
        total(s, f) == f(s[0]) + total(s.skip(1), f),
{
    lemma_total_concat(s.take(1), s.skip(1), f);
    assert(s.take(1) + s.skip(1) =~= s);
    assert(s.take(1).drop_last() =~= Seq::empty());
    assert(s.take(1).last() == s[0]);
    assert(total(s.take(1).drop_last(), f) == 0);
}

/// A sum of counts is a count.
pub proof fn lemma_total_nonneg<T>(s: Seq<T>, f: spec_fn(T) -> int)
    requires
        forall|i: int| 0 <= i < s.len() ==> f(#[trigger] s[i]) >= 0,
    ensures
        total(s, f) >= 0,
    decreases s.len(),
{
    if s.len() > 0 {
        assert forall|i: int| 0 <= i < s.drop_last().len() implies f(#[trigger] s.drop_last()[i]) >= 0 by {
            assert(s.drop_last()[i] == s[i]);
        }
        lemma_total_nonneg(s.drop_last(), f);
        assert(f(s[s.len() - 1]) >= 0);
    }
}

/// Filtering one more element keeps or drops just that element.
pub proof fn lemma_filter_step<T>(s: Seq<T>, n: int, p: spec_fn(T) -> bool)
    requires
        0 <= n < s.len(),
    ensures
        s.take(n + 1).filter(p) == if p(s[n]) { s.take(n).filter(p).push(s[n]) } else { s.take(n).filter(p) },
{
    reveal(Seq::filter);
    assert(s.take(n + 1).drop_last() =~= s.take(n));
    assert(s.take(n + 1).last() == s[n]);
}

/// Filtering the first element apart from the rest.
pub proof fn lemma_filter_first<T>(s: Seq<T>, p: spec_fn(T) -> bool)
    requires
        s.len() > 0,
    ensures
        s.filter(p) == (if p(s[0]) { seq![s[0]] } else { Seq::empty() }) + s.skip(1).filter(p),
    decreases s.len(),
{
    reveal(Seq::filter);
    if s.len() == 1 {
        assert(s.drop_last() =~= Seq::empty());
        assert(s.skip(1) =~= Seq::empty());
        assert(s.filter(p) =~= (if p(s[0]) { seq![s[0]] } else { Seq::empty() }) + s.skip(1).filter(p));
    } else {
        lemma_filter_first(s.drop_last(), p);
        assert(s.drop_last().skip(1) =~= s.skip(1).drop_last());
        assert(s.filter(p) =~= (if p(s[0]) { seq![s[0]] } else { Seq::empty() }) + s.skip(1).filter(p));
    }
}

/// Sums of equal shares are equal.
pub proof fn lemma_total_same<A, B>(a: Seq<A>, b: Seq<B>, f: spec_fn(A) -> int, g: spec_fn(B) -> int)
    requires
        a.len() == b.len(),
        forall|i: int| 0 <= i < a.len() ==> f(#[trigger] a[i]) == g(b[i]),
    ensures
        total(a, f) == total(b, g),
    decreases a.len(),
{
    if a.len() > 0 {
        assert forall|i: int| 0 <= i < a.drop_last().len() implies f(#[trigger] a.drop_last()[i]) == g(
            b.drop_last()[i],
        ) by {
            assert(a.drop_last()[i] == a[i]);
        }
        lemma_total_same(a.drop_last(), b.drop_last(), f, g);
        assert(f(a[a.len() - 1]) == g(b[a.len() - 1]));
    }
}

/// The elements that pass a test and those that do not add up to all.
pub proof fn lemma_total_split<T>(s: Seq<T>, p: spec_fn(T) -> bool, q: spec_fn(T) -> bool, f: spec_fn(T) -> int)
    requires
        forall|x: T| #[trigger] q(x) == !p(x),
    ensures
        total(s.filter(p), f) + total(s.filter(q), f) == total(s, f),
    decreases s.len(),
{
    reveal(Seq::filter);
    if s.len() > 0 {
        let rest = s.drop_last();
        lemma_total_split(rest, p, q, f);
        lemma_total_push(rest.filter(p), s.last(), f);
        lemma_total_push(rest.filter(q), s.last(), f);
        assert(q(s.last()) == !p(s.last()));
    }
}

} // verus!
