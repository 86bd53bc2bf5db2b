//! Sums over a span of indices.
use vstd::prelude::*;

verus! {

/// `f(lo) + f(lo + 1) + ... + f(hi - 1)`.
pub open spec fn sum_span(f: spec_fn(int) -> int, lo: int, hi: int) -> int
    decreases hi - lo,
{
    if lo >= hi {
        0
    } else {
        sum_span(f, lo, hi - 1) + f(hi - 1)
    }
}

/// A span may be cut anywhere.
pub proof fn lemma_sum_split(f: spec_fn(int) -> int, lo: int, mid: int, hi: int)
    requires
        lo <= mid <= hi,
    ensures
        sum_span(f, lo, hi) == sum_span(f, lo, mid) + sum_span(f, mid, hi),
    decreases hi - mid,
{
    if mid < hi {
        lemma_sum_split(f, lo, mid, hi - 1);
    }
}

/// Functions that agree on a span have the same sum over it.
pub proof fn lemma_sum_congruent(f: spec_fn(int) -> int, g: spec_fn(int) -> int, lo: int, hi: int)
    requires
        forall|e: int| lo <= e < hi ==> #[trigger] f(e) == g(e),
    ensures
        sum_span(f, lo, hi) == sum_span(g, lo, hi),
    decreases hi - lo,
{
    if lo < hi {
        lemma_sum_congruent(f, g, lo, hi - 1);
    }
}

/// A bound on every term bounds the sum.
pub proof fn lemma_sum_bound(f: spec_fn(int) -> int, lo: int, hi: int, m: int)
    requires
        lo <= hi,
        0 <= m,
        forall|e: int| lo <= e < hi ==> -m <= #[trigger] f(e) <= m,
    ensures
        -(m * (hi - lo)) <= sum_span(f, lo, hi) <= m * (hi - lo),
    decreases hi - lo,
{
    if lo < hi {
        lemma_sum_bound(f, lo, hi - 1, m);
        assert(m * (hi - lo) == m * (hi - 1 - lo) + m) by (nonlinear_arith);
    } else {
        assert(m * (hi - lo) == 0) by (nonlinear_arith)
            requires
                hi == lo,
        ;
    }
}

/// Two sums over the same span add term by term.
pub proof fn lemma_sum_add(
    f: spec_fn(int) -> int,
    g: spec_fn(int) -> int,
    h: spec_fn(int) -> int,
    lo: int,
    hi: int,
)
    requires
        forall|e: int| lo <= e < hi ==> #[trigger] h(e) == f(e) + g(e),
    ensures
        sum_span(h, lo, hi) == sum_span(f, lo, hi) + sum_span(g, lo, hi),
    decreases hi - lo,
{
    if lo < hi {
        lemma_sum_add(f, g, h, lo, hi - 1);
    }
}

/// A common factor comes out of a sum.
pub proof fn lemma_sum_scale(f: spec_fn(int) -> int, h: spec_fn(int) -> int, c: int, lo: int, hi: int)
    requires
        forall|e: int| lo <= e < hi ==> #[trigger] h(e) == c * f(e),
    ensures
        sum_span(h, lo, hi) == c * sum_span(f, lo, hi),
    decreases hi - lo,
{
    if lo < hi {
        lemma_sum_scale(f, h, c, lo, hi - 1);
        assert(c * (sum_span(f, lo, hi - 1) + f(hi - 1)) == c * sum_span(f, lo, hi - 1) + c * f(hi - 1))
            by (nonlinear_arith);
    } else {
        assert(c * 0 == 0) by (nonlinear_arith);
    }
}

/// A function shifted along with its span keeps its sum.
pub proof fn lemma_sum_shift(f: spec_fn(int) -> int, g: spec_fn(int) -> int, lo: int, hi: int, d: int)
    requires
        forall|e: int| lo <= e < hi ==> #[trigger] f(e) == g(e + d),
    ensures
        sum_span(f, lo, hi) == sum_span(g, lo + d, hi + d),
    decreases hi - lo,
{
    if lo < hi {
        lemma_sum_shift(f, g, lo, hi - 1, d);
        assert(f(hi - 1) == g(hi - 1 + d));
    }
}

/// A sum is nothing over an empty span, and one term more is added for one
/// index more, at either end.
pub proof fn law_a_sum_takes_every_term(f: spec_fn(int) -> int, lo: int, hi: int)
    ensures
        lo >= hi ==> sum_span(f, lo, hi) == 0,
        lo <= hi ==> sum_span(f, lo, hi + 1) == sum_span(f, lo, hi) + f(hi),
        lo <= hi ==> sum_span(f, lo - 1, hi) == f(lo - 1) + sum_span(f, lo, hi),
{
    if lo <= hi {
        lemma_sum_split(f, lo - 1, lo, hi);
        reveal_with_fuel(sum_span, 2);
    }
}

} // verus!
