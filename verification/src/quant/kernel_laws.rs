//! What holds of the dot-product sums whichever kernel takes them.
use vstd::prelude::*;
use crate::quant::blocks::{
    law_packed_block_keeps_every_row, lemma_interleaved_bound, lemma_pos_bounds, packed_block, packed_min,
    packed_scale, packed_weight, row_min, row_scale, row_weight, KQuant,
};
use crate::quant::kernels::{
    bias_fn, biased_part, dot_part, elem_fn, matrix_block, min_fn, min_part, min_width, n_dots, n_mins, nibble_stride,
    raw_fn, run_part, run_start, span_part, ActSpec, BlockRef, KTerms, Kernel,
};
use crate::quant::repack::{group_rows, is_matrix, packed_matrix};
use crate::quant::sums::{lemma_sum_add, lemma_sum_congruent, lemma_sum_scale, lemma_sum_split, sum_span};

verus! {

/// Partial dot products as a function of their place.
pub open spec fn dot_fn(blk: BlockRef, kernel: Kernel, j: int, act: ActSpec, b: int) -> spec_fn(int) -> int {
    |t: int| dot_part(blk, kernel, j, act, b, t)
}

/// Min terms as a function of their place.
pub open spec fn min_parts_fn(blk: BlockRef, kernel: Kernel, j: int, act: ActSpec, b: int) -> spec_fn(int) -> int {
    |t: int| min_part(blk, kernel, j, act, b, t)
}

/// The activations of block `b` as a function of the element.
pub open spec fn act_fn(act: ActSpec, b: int) -> spec_fn(int) -> int {
    |e: int| act.at(b, e)
}

/// The recorded sums of block `b` are the sums of its runs of 16.
pub open spec fn sums_recorded(act: ActSpec, b: int) -> bool {
    &&& act.lane is None
    &&& forall|s: int|
        0 <= s < 16 ==> #[trigger] act.bsums[b * 16 + s] == sum_span(act_fn(act, b), 16 * s, 16 * s + 16)
}

/// Chunks of `w` laid end to end add up to the whole span.
pub proof fn lemma_chunks(f: spec_fn(int) -> int, g: spec_fn(int) -> int, w: int, n: int)
    requires
        0 <= w,
        0 <= n,
        forall|t: int| 0 <= t < n ==> #[trigger] g(t) == sum_span(f, t * w, t * w + w),
    ensures
        sum_span(g, 0, n) == sum_span(f, 0, n * w),
    decreases n,
{
    if n > 0 {
        lemma_chunks(f, g, w, n - 1);
        assert(g(n - 1) == sum_span(f, (n - 1) * w, (n - 1) * w + w));
        assert((n - 1) * w + w == n * w) by (nonlinear_arith);
        assert(0 <= (n - 1) * w) by (nonlinear_arith)
            requires
                n >= 1,
                0 <= w,
        ;
        lemma_sum_split(f, 0, (n - 1) * w, n * w);
    } else {
        assert(0 * w == 0);
    }
}

/// Runs per stretch of nibble bytes.
spec fn runs_per_stretch(fmt: KQuant, il: int) -> int {
    if fmt == KQuant::Q6K {
        if il == 4 {
            16
        } else {
            8
        }
    } else {
        if il == 4 {
            8
        } else {
            4
        }
    }
}

proof fn lemma_run_start(fmt: KQuant, il: int, p: int, m: int)
    requires
        il == 4 || il == 8,
        0 <= p,
        0 <= m < runs_per_stretch(fmt, il),
    ensures
        run_start(fmt, il, p * runs_per_stretch(fmt, il) + m) == p * (2 * nibble_stride(fmt)) + m * il,
{
    if fmt == KQuant::Q6K {
        if il == 4 {
            let k = p * 16 + m;
            assert(k / 16 == p && k % 16 == m);
        } else {
            let k = p * 8 + m;
            assert(k / 8 == p && k % 8 == m);
        }
    } else {
        if il == 4 {
            let k = p * 8 + m;
            assert(k / 8 == p && k % 8 == m);
        } else {
            let k = p * 4 + m;
            assert(k / 4 == p && k % 4 == m);
        }
    }
}

/// The first `m` runs of a stretch cover the first `m * il` weights of each
/// of its halves.
proof fn lemma_runs_of_stretch(blk: BlockRef, j: int, act: ActSpec, b: int, p: int, m: int)
    requires
        blk.il == 4 || blk.il == 8,
        0 <= p,
        0 <= m <= runs_per_stretch(blk.fmt, blk.il),
    ensures
        ({
            let f = elem_fn(blk, j, act, b);
            let g = dot_fn(blk, Kernel::Scalar, j, act, b);
            let k = p * runs_per_stretch(blk.fmt, blk.il);
            let lo = p * (2 * nibble_stride(blk.fmt));
            let hi = lo + nibble_stride(blk.fmt);
            sum_span(g, k, k + m) == sum_span(f, lo, lo + m * blk.il) + sum_span(f, hi, hi + m * blk.il)
        }),
    decreases m,
{
    let f = elem_fn(blk, j, act, b);
    let g = dot_fn(blk, Kernel::Scalar, j, act, b);
    let k = p * runs_per_stretch(blk.fmt, blk.il);
    let lo = p * (2 * nibble_stride(blk.fmt));
    let hi = lo + nibble_stride(blk.fmt);
    if m > 0 {
        let il = blk.il;
        lemma_runs_of_stretch(blk, j, act, b, p, m - 1);
        lemma_run_start(blk.fmt, il, p, m - 1);
        assert(g(k + m - 1) == run_part(blk, j, act, b, k + (m - 1)));
        assert((m - 1) * il + il == m * il) by (nonlinear_arith);
        assert(0 <= (m - 1) * il) by (nonlinear_arith)
            requires
                m >= 1,
                il >= 0,
        ;
        lemma_sum_split(f, lo, lo + (m - 1) * il, lo + m * il);
        lemma_sum_split(f, hi, hi + (m - 1) * il, hi + m * il);
    } else {
        assert(0 * blk.il == 0);
    }
}

/// No grouping loses or repeats a product: the partial dot products a
/// kernel emits for a row add up to the row's whole scaled dot product. For
/// the Q6_K kernel that takes its offset out through the recorded sums this
/// needs those sums to be right.
pub proof fn law_partial_dots_add_up(blk: BlockRef, kernel: Kernel, j: int, act: ActSpec, b: int)
    requires
        blk.il == 4 || blk.il == 8,
        blk.fmt == KQuant::Q6K && kernel == Kernel::Dot8x8 ==> sums_recorded(act, b),
    ensures
        sum_span(dot_fn(blk, kernel, j, act, b), 0, n_dots(blk.fmt, kernel, blk.il)) == span_part(
            blk,
            j,
            act,
            b,
            0,
            256,
        ),
{
    let f = elem_fn(blk, j, act, b);
    let g = dot_fn(blk, kernel, j, act, b);
    let n = n_dots(blk.fmt, kernel, blk.il);
    match kernel {
        Kernel::Scalar => {
            let rp = runs_per_stretch(blk.fmt, blk.il);
            let w = 2 * nibble_stride(blk.fmt);
            let stretches = n / rp;
            let h = |p: int| sum_span(g, p * rp, p * rp + rp);
            assert forall|p: int| 0 <= p < stretches implies #[trigger] h(p) == sum_span(f, p * w, p * w + w) by {
                lemma_runs_of_stretch(blk, j, act, b, p, rp);
                let mid = p * w + nibble_stride(blk.fmt);
                assert(rp * blk.il == nibble_stride(blk.fmt));
                lemma_sum_split(f, p * w, mid, p * w + w);
            }
            lemma_chunks(g, h, rp, stretches);
            lemma_chunks(f, h, w, stretches);
            assert(stretches * rp == n);
            assert(stretches * w == 256);
        },
        Kernel::Sdot => {
            let w = 2 * nibble_stride(blk.fmt);
            assert forall|t: int| 0 <= t < n implies #[trigger] g(t) == sum_span(f, t * w, t * w + w) by {
                assert(t * 2 * nibble_stride(blk.fmt) == t * w);
            }
            lemma_chunks(f, g, w, n);
        },
        Kernel::Dot8x8 => {
            if blk.fmt == KQuant::Q6K {
                law_offset_comes_out_through_the_sums(blk, j, act, b);
                reveal_with_fuel(sum_span, 2);
                assert(sum_span(g, 0, 1) == g(0));
            } else {
                assert forall|t: int| 0 <= t < n implies #[trigger] g(t) == sum_span(f, t * 32, t * 32 + 32) by {}
                lemma_chunks(f, g, 32, n);
            }
        },
        _ => {
            reveal_with_fuel(sum_span, 2);
            assert(sum_span(g, 0, 1) == g(0));
        },
    }
}

/// Taking 32 off every Q6_K weight is the same as taking 32 times the
/// scaled recorded sums off the total.
pub proof fn law_offset_comes_out_through_the_sums(blk: BlockRef, j: int, act: ActSpec, b: int)
    requires
        blk.fmt == KQuant::Q6K,
        sums_recorded(act, b),
    ensures
        biased_part(blk, j, act, b) == span_part(blk, j, act, b, 0, 256),
{
    let f = elem_fn(blk, j, act, b);
    let raw = raw_fn(blk, j, act, b);
    let bias = bias_fn(blk, j, act, b);
    let off = |e: int| 32 * (act.at(b, e) * packed_scale(blk.fmt, blk.bytes, blk.base, j, e / 16));
    assert forall|e: int| 0 <= e < 256 implies #[trigger] raw(e) == f(e) + off(e) by {
        let w = packed_weight(blk.fmt, blk.bytes, blk.base, blk.il, j, e);
        let a = act.at(b, e);
        let s = packed_scale(blk.fmt, blk.bytes, blk.base, j, e / 16);
        assert((w + 32) * a * s == w * a * s + 32 * (a * s)) by (nonlinear_arith);
    }
    lemma_sum_add(f, off, raw, 0, 256);
    let per_run = |s: int| 32 * bias(s);
    assert forall|s: int| 0 <= s < 16 implies #[trigger] per_run(s) == sum_span(off, s * 16, s * 16 + 16) by {
        let sc = packed_scale(blk.fmt, blk.bytes, blk.base, j, s);
        let acts = act_fn(act, b);
        assert forall|e: int| s * 16 <= e < s * 16 + 16 implies #[trigger] off(e) == (32 * sc) * acts(e) by {
            assert(e / 16 == s);
            let a = act.at(b, e);
            assert(32 * (a * sc) == (32 * sc) * a) by (nonlinear_arith);
        }
        lemma_sum_scale(acts, off, 32 * sc, s * 16, s * 16 + 16);
        let total = sum_span(acts, 16 * s, 16 * s + 16);
        assert(act.bsums[b * 16 + s] == total);
        assert(32 * (total * sc) == (32 * sc) * total) by (nonlinear_arith);
    }
    lemma_chunks(off, per_run, 16, 16);
    lemma_sum_scale(bias, per_run, 32, 0, 16);
}

/// Every sub-block's min is charged exactly once, however a kernel groups
/// the min terms.
pub proof fn law_min_terms_add_up(blk: BlockRef, kernel: Kernel, j: int, act: ActSpec, b: int)
    requires
        blk.fmt != KQuant::Q6K,
    ensures
        sum_span(min_parts_fn(blk, kernel, j, act, b), 0, n_mins(blk.fmt, kernel)) == sum_span(
            min_fn(blk, j, act, b),
            0,
            8,
        ),
{
    let f = min_fn(blk, j, act, b);
    let g = min_parts_fn(blk, kernel, j, act, b);
    let (w, n) = (min_width(kernel), n_mins(blk.fmt, kernel));
    assert forall|t: int| 0 <= t < n implies #[trigger] g(t) == sum_span(f, t * w, t * w + w) by {}
    lemma_chunks(f, g, w, n);
    assert(n * w == 8);
}

/// Any two kernels agree on the integer dot product of every row.
pub proof fn law_kernels_agree(blk: BlockRef, one: Kernel, two: Kernel, j: int, act: ActSpec, b: int)
    requires
        blk.il == 4 || blk.il == 8,
        blk.fmt == KQuant::Q6K ==> sums_recorded(act, b),
    ensures
        sum_span(dot_fn(blk, one, j, act, b), 0, n_dots(blk.fmt, one, blk.il)) == sum_span(
            dot_fn(blk, two, j, act, b),
            0,
            n_dots(blk.fmt, two, blk.il),
        ),
{
    law_partial_dots_add_up(blk, one, j, act, b);
    law_partial_dots_add_up(blk, two, j, act, b);
}

/// The same product taken twice by the same kernel gives the same sums,
/// term by term: a batch of activations, an interleaved quad and a single
/// row cannot disagree about the same tokens.
pub proof fn law_same_kernel_same_sums(
    one: KTerms,
    two: KTerms,
    fmt: KQuant,
    packed: Seq<u8>,
    il: int,
    act: ActSpec,
    nb: int,
    groups: int,
)
    requires
        one.kernel == two.kernel,
        one.are_of(fmt, packed, il, act, nb, groups),
        two.are_of(fmt, packed, il, act, nb, groups),
    ensures
        one.blocks@.len() == two.blocks@.len(),
        forall|k: int|
            0 <= k < one.blocks@.len() ==> (#[trigger] one.blocks@[k]).dots@ == two.blocks@[k].dots@
                && one.blocks@[k].mins@ == two.blocks@[k].mins@,
{
    assert forall|k: int| 0 <= k < one.blocks@.len() implies (#[trigger] one.blocks@[k]).dots@
        == two.blocks@[k].dots@ && one.blocks@[k].mins@ == two.blocks@[k].mins@ by {
        let (x, y) = (one.blocks@[k], two.blocks@[k]);
        assert(x.dots@ =~= y.dots@);
        assert(x.mins@ =~= y.mins@);
    }
}

/// The scaled product of weight `e` of a canonical block.
pub open spec fn row_fn(fmt: KQuant, row: Seq<u8>, act: ActSpec, b: int) -> spec_fn(int) -> int {
    |e: int| row_weight(fmt, row, e) * act.at(b, e) * row_scale(fmt, row, fmt.sub_of(e))
}

/// The scaled min of sub-block `sb` of a canonical block.
pub open spec fn row_min_fn(fmt: KQuant, row: Seq<u8>, act: ActSpec, b: int) -> spec_fn(int) -> int {
    |sb: int| row_min(fmt, row, sb) * act.folded(b, sb)
}

/// A packed block reads the same wherever its bytes stand.
pub proof fn lemma_block_moves(fmt: KQuant, big: Seq<u8>, base: int, small: Seq<u8>, il: int, j: int, e: int)
    requires
        il == 4 || il == 8,
        0 <= j < 8,
        0 <= e < 256,
        small.len() == fmt.packed_bytes(),
        forall|t: int| 0 <= t < small.len() ==> #[trigger] big[base + t] == small[t],
    ensures
        packed_weight(fmt, big, base, il, j, e) == packed_weight(fmt, small, 0, il, j, e),
        packed_scale(fmt, big, base, j, fmt.sub_of(e)) == packed_scale(fmt, small, 0, j, fmt.sub_of(e)),
        packed_min(fmt, big, base, j, fmt.sub_of(e)) == packed_min(fmt, small, 0, j, fmt.sub_of(e)),
{
    lemma_pos_bounds(fmt, e);
    lemma_interleaved_bound(il, j, fmt.low_pos(e), 128);
    lemma_interleaved_bound(il, j, fmt.high_pos(e), if fmt == KQuant::Q6K { 64 } else { 32 });
    let ul = crate::quant::blocks::interleaved_at(8, il, j, fmt.low_pos(e));
    let uh = crate::quant::blocks::interleaved_at(8, il, j, fmt.high_pos(e));
    assert(big[base + (fmt.packed_low_base() + ul)] == small[fmt.packed_low_base() + ul]);
    assert(big[base + (fmt.packed_high_base() + uh)] == small[fmt.packed_high_base() + uh]);
    let sb = fmt.sub_of(e);
    if fmt == KQuant::Q6K {
        assert(big[base + (16 + 8 * sb + j)] == small[16 + 8 * sb + j]);
    } else {
        assert(0 <= sb < 8);
        assert forall|c: int| 0 <= c < 12 implies #[trigger] big[base + 32 + 12 * sb + c] == small[32 + 12 * sb + c] by {
            assert(big[base + (32 + 12 * sb + c)] == small[32 + 12 * sb + c]);
        }
        assert(big[base + 32 + 12 * sb + j] == small[32 + 12 * sb + j]);
        assert(big[base + 32 + 12 * sb + (4 + j)] == small[32 + 12 * sb + (4 + j)]);
        if j >= 4 {
            assert(big[base + 32 + 12 * sb + (j - 4)] == small[32 + 12 * sb + (j - 4)]);
        }
    }
}

/// A product over a packed matrix is the product over its rows: the dot
/// product of row `j` of packed block `k` is the canonical dot product of
/// the row block it came from.
pub proof fn law_packed_product_is_the_row_product(
    fmt: KQuant,
    data: Seq<u8>,
    rows: int,
    n_blocks: int,
    il: int,
    g: int,
    b: int,
    j: int,
    act: ActSpec,
)
    requires
        il == 4 || il == 8,
        is_matrix(fmt, data, rows, n_blocks),
        0 <= g < rows / 8,
        0 <= b < n_blocks,
        0 <= j < 8,
    ensures
        ({
            let blk = matrix_block(fmt, packed_matrix(fmt, data, rows, n_blocks, il), il, g * n_blocks + b);
            let row = group_rows(fmt, data, n_blocks, g, b)[j];
            &&& span_part(blk, j, act, b, 0, 256) == sum_span(row_fn(fmt, row, act, b), 0, 256)
            &&& sum_span(min_fn(blk, j, act, b), 0, 8) == sum_span(row_min_fn(fmt, row, act, b), 0, 8)
        }),
{
    let packed = packed_matrix(fmt, data, rows, n_blocks, il);
    let k = g * n_blocks + b;
    let blk = matrix_block(fmt, packed, il, k);
    let group = group_rows(fmt, data, n_blocks, g, b);
    let small = packed_block(fmt, group, il);
    let unit = fmt.packed_bytes();
    crate::quant::repack::lemma_block_index(n_blocks, g, b);
    crate::quant::repack::lemma_block_in_matrix(n_blocks, rows / 8, unit, g, b);
    assert forall|t: int| 0 <= t < small.len() implies #[trigger] packed[k * unit + t] == small[t] by {
        crate::quant::repack::lemma_byte_index(unit, k, t);
    }
    assert forall|r: int| 0 <= r < 8 implies #[trigger] group[r].len() == fmt.row_bytes() by {
        crate::quant::repack::lemma_block_in_matrix(n_blocks, rows, fmt.row_bytes(), g * 8 + r, b);
    }
    let (f, h) = (elem_fn(blk, j, act, b), row_fn(fmt, group[j], act, b));
    assert forall|e: int| 0 <= e < 256 implies #[trigger] f(e) == h(e) by {
        lemma_block_moves(fmt, packed, k * unit, small, il, j, e);
        law_packed_block_keeps_every_row(fmt, group, il, j, e);
    }
    lemma_sum_congruent(f, h, 0, 256);
    let (m, n) = (min_fn(blk, j, act, b), row_min_fn(fmt, group[j], act, b));
    assert forall|sb: int| 0 <= sb < 8 implies #[trigger] m(sb) == n(sb) by {
        let e = if fmt == KQuant::Q6K { sb * 16 } else { sb * 32 };
        assert(fmt.sub_of(e) == sb);
        lemma_block_moves(fmt, packed, k * unit, small, il, j, e);
        law_packed_block_keeps_every_row(fmt, group, il, j, e);
    }
    lemma_sum_congruent(m, n, 0, 8);
}

} // verus!
