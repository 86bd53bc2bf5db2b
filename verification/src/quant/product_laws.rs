//! What the sums of a packed product say about the matrix that was packed.
use vstd::prelude::*;
use crate::quant::blocks::{
    interleaved_at, law_packed_block_keeps_every_row, lemma_interleaved_place, packed_block, row_scale, row_weight,
    weight_of, KQuant,
};
use crate::quant::kernel_laws::{
    dot_fn, law_min_terms_add_up, law_partial_dots_add_up, lemma_block_moves, lemma_chunks, min_parts_fn, row_fn,
    row_min_fn, sums_recorded,
};
use crate::quant::kernels::{
    bias_fn, dot_part, elem_fn, matrix_block, min_fn, min_part, min_width, n_dots, n_mins, nibble_stride, raw_fn, run_start, ActSpec, BlockRef,
    KTerms, Kernel, Q8KActivations, Q8KActsX4,
};
use crate::quant::matmul::{
    gemm_sums, gemv_q4_kx8_q8_k, gemv_q5_kx8_q8_k, gemv_q6_kx8_q8_k, group_bytes, quad_of, CpuFeatures,
};
use crate::quant::repack::{
    group_rows, is_matrix, lemma_block_in_matrix, lemma_block_index, lemma_byte_index, pack_q4_k_matrix_x8,
    pack_q5_k_matrix_x8, pack_q6_k_matrix_x8, packed_matrix,
};
use crate::quant::rows4::{
    dot_fn4, elem_fn4, gemv_q4_0x4_q8_0, gemv_q8_0x4_q8_0, group_bytes4, group_rows4, is_matrix4,
    law_packed_block4_keeps_every_row, law_partial_dots4_add_up, n_dots4, pack_q4_0_matrix_x4, pack_q8_0_matrix_x4,
    packed_block4, packed_matrix4, row_fn4, Q8Activations, Quant4, Terms4,
};
use crate::quant::sums::{lemma_sum_congruent, lemma_sum_shift, sum_span};

verus! {

/// One emitted block, when its packed bytes hold these eight rows.
proof fn lemma_emitted_block(
    terms: KTerms,
    fmt: KQuant,
    bytes: Seq<u8>,
    il: int,
    act: ActSpec,
    nb: int,
    groups: int,
    k: int,
    group: Seq<Seq<u8>>,
    j: int,
)
    requires
        il == 4 || il == 8,
        terms.are_of(fmt, bytes, il, act, nb, groups),
        0 <= k < groups * nb,
        0 <= j < 8,
        group.len() == 8,
        forall|r: int| 0 <= r < 8 ==> #[trigger] group[r].len() == fmt.row_bytes(),
        forall|t: int|
            0 <= t < fmt.packed_bytes() ==> #[trigger] bytes[k * fmt.packed_bytes() + t] == packed_block(
                fmt,
                group,
                il,
            )[t],
        fmt == KQuant::Q6K && terms.kernel == Kernel::Dot8x8 ==> sums_recorded(act, k % nb),
    ensures
        terms.blocks@[k].dots@.len() == n_dots(fmt, terms.kernel, il) * 8,
        terms.blocks@[k].mins@.len() == n_mins(fmt, terms.kernel) * 8,
        sum_span(|t: int| terms.blocks@[k].dots@[t * 8 + j] as int, 0, terms.blocks@[k].dots@.len() as int / 8)
            == sum_span(row_fn(fmt, group[j], act, k % nb), 0, 256),
        fmt != KQuant::Q6K ==> sum_span(
            |t: int| terms.blocks@[k].mins@[t * 8 + j] as int,
            0,
            terms.blocks@[k].mins@.len() as int / 8,
        ) == sum_span(row_min_fn(fmt, group[j], act, k % nb), 0, 8),
{
    let b = k % nb;
    let blk = matrix_block(fmt, bytes, il, k);
    let block = terms.blocks@[k];
    let small = packed_block(fmt, group, il);
    assert(block.are_of(blk, terms.kernel, act, b));
    let (n, m) = (n_dots(fmt, terms.kernel, il), n_mins(fmt, terms.kernel));
    let dots = |t: int| terms.blocks@[k].dots@[t * 8 + j] as int;
    let want = dot_fn(blk, terms.kernel, j, act, b);
    assert forall|t: int| 0 <= t < n implies #[trigger] dots(t) == want(t) by {
        let i = t * 8 + j;
        assert(i % 8 == j && i / 8 == t);
        assert(block.dots@[i] == want(t));
    }
    lemma_sum_congruent(dots, want, 0, n);
    law_partial_dots_add_up(blk, terms.kernel, j, act, b);
    let (f, h) = (elem_fn(blk, j, act, b), row_fn(fmt, group[j], act, b));
    assert forall|e: int| 0 <= e < 256 implies #[trigger] f(e) == h(e) by {
        lemma_block_moves(fmt, bytes, k * fmt.packed_bytes(), small, il, j, e);
        law_packed_block_keeps_every_row(fmt, group, il, j, e);
    }
    lemma_sum_congruent(f, h, 0, 256);
    if fmt != KQuant::Q6K {
        let mins = |t: int| terms.blocks@[k].mins@[t * 8 + j] as int;
        let want = min_parts_fn(blk, terms.kernel, j, act, b);
        assert forall|t: int| 0 <= t < m implies #[trigger] mins(t) == want(t) by {
            let i = t * 8 + j;
            assert(i % 8 == j && i / 8 == t);
            assert(block.mins@[i] == want(t));
        }
        lemma_sum_congruent(mins, want, 0, m);
        law_min_terms_add_up(blk, terms.kernel, j, act, b);
        let (f, h) = (min_fn(blk, j, act, b), row_min_fn(fmt, group[j], act, b));
        assert forall|sb: int| 0 <= sb < 8 implies #[trigger] f(sb) == h(sb) by {
            let e = sb * 32;
            assert(fmt.sub_of(e) == sb);
            lemma_block_moves(fmt, bytes, k * fmt.packed_bytes(), small, il, j, e);
            law_packed_block_keeps_every_row(fmt, group, il, j, e);
        }
        lemma_sum_congruent(f, h, 0, 8);
    }
}

/// Column block `b` of row `r`, out of the whole product or out of the
/// product of the row's group alone.
proof fn lemma_emitted_row_block(
    terms: KTerms,
    fmt: KQuant,
    data: Seq<u8>,
    rows: int,
    nb: int,
    il: int,
    act: ActSpec,
    r: int,
    first: int,
    b: int,
)
    requires
        il == 4 || il == 8,
        is_matrix(fmt, data, rows, nb),
        0 <= r < (rows / 8) * 8,
        0 <= b < nb,
        ({
            let packed = packed_matrix(fmt, data, rows, nb, il);
            ||| first == (r / 8) * nb && terms.are_of(fmt, packed, il, act, nb, rows / 8)
            ||| first == 0 && terms.are_of(fmt, group_bytes(fmt, packed, r / 8, nb), il, act, nb, 1)
        }),
        fmt == KQuant::Q6K && terms.kernel == Kernel::Dot8x8 ==> sums_recorded(act, b),
    ensures
        ({
            let block = terms.blocks@[first + b];
            let at = (r * nb + b) * fmt.row_bytes();
            let row = data.subrange(at, at + fmt.row_bytes());
            &&& 0 <= at
            &&& at + fmt.row_bytes() <= data.len()
            &&& 0 <= first + b < terms.blocks@.len()
            &&& block.dots@.len() == n_dots(fmt, terms.kernel, il) * 8
            &&& block.mins@.len() == n_mins(fmt, terms.kernel) * 8
            &&& sum_span(|t: int| block.dots@[t * 8 + r % 8] as int, 0, block.dots@.len() as int / 8) == sum_span(
                row_fn(fmt, row, act, b),
                0,
                256,
            )
            &&& fmt != KQuant::Q6K ==> sum_span(
                |t: int| block.mins@[t * 8 + r % 8] as int,
                0,
                block.mins@.len() as int / 8,
            ) == sum_span(row_min_fn(fmt, row, act, b), 0, 8)
        }),
{
    let (g, j) = (r / 8, r % 8);
    let unit = fmt.packed_bytes();
    let packed = packed_matrix(fmt, data, rows, nb, il);
    let group = group_rows(fmt, data, nb, g, b);
    lemma_block_bytes(fmt, data, rows, nb, il, g, b);
    lemma_block_in_matrix(nb, rows / 8, unit, g, b);
    lemma_block_index(nb, g, b);
    lemma_block_in_matrix(nb, rows, fmt.row_bytes(), r, b);
    assert(g * 8 + j == r);
    if first == g * nb && terms.are_of(fmt, packed, il, act, nb, rows / 8) {
        lemma_emitted_block(terms, fmt, packed, il, act, nb, rows / 8, g * nb + b, group, j);
    } else {
        lemma_block_index(nb, 0, b);
        assert(1 * nb == nb);
        lemma_emitted_block(terms, fmt, group_bytes(fmt, packed, g, nb), il, act, nb, 1, b, group, j);
    }
}

/// The scaled product of weight `e` of the Q4_K block at byte `at`.
proof fn lemma_q4_k_product(data: Seq<u8>, at: int, act: Q8KActivations, b: int, e: int)
    requires
        0 <= at,
        at + 144 <= data.len(),
        0 <= e < 256,
    ensures
        ({
            let i = e / 32;
            let byte = data[at + 16 + (e / 64) * 32 + e % 32] as int;
            let w = if e % 64 < 32 { byte % 16 } else { byte / 16 };
            let s = if i < 4 {
                data[at + 4 + i] as int % 64
            } else {
                data[at + 8 + i] as int % 16 + 16 * (data[at + i] as int / 64)
            };
            row_fn(KQuant::Q4K, data.subrange(at, at + 144), act@, b)(e) == w * act.q@[256 * b + e] * s
        }),
{
    reveal(weight_of);
}

/// The partial dots emitted for column block `b` of row `r` of a Q4_K matrix
/// add up to the row's own scaled weights of that block times activations
/// `256 * b .. 256 * b + 256`, and its min terms to its mins times the
/// recorded sums of that block. So it is for the product of the whole matrix
/// and for the product of the row's group alone.
#[verifier::spinoff_prover]
#[verifier::rlimit(60)]
pub proof fn law_q4_k_block_sums_are_the_row_products(
    terms: KTerms,
    data: Seq<u8>,
    rows: int,
    nb: int,
    il: int,
    act: Q8KActivations,
    r: int,
    first: int,
    b: int,
)
    requires
        il == 4 || il == 8,
        data.len() == rows * nb * 144,
        0 <= r < (rows / 8) * 8,
        ({
            let packed = packed_matrix(KQuant::Q4K, data, rows, nb, il);
            ||| first == (r / 8) * nb && terms.are_of(KQuant::Q4K, packed, il, act@, nb, rows / 8)
            ||| first == 0 && terms.are_of(KQuant::Q4K, group_bytes(KQuant::Q4K, packed, r / 8, nb), il, act@, nb, 1)
        }),
        0 <= b < nb,
    ensures
        ({
            let products =
                |c: int| {
                    let at = (r * nb + c / 256) * 144;
                    let e = c % 256;
                    let i = e / 32;
                    let byte = data[at + 16 + (e / 64) * 32 + e % 32] as int;
                    let w = if e % 64 < 32 { byte % 16 } else { byte / 16 };
                    let s = if i < 4 {
                        data[at + 4 + i] as int % 64
                    } else {
                        data[at + 8 + i] as int % 16 + 16 * (data[at + i] as int / 64)
                    };
                    w * act.q@[c] * s
                };
            let mins =
                |q: int| {
                    let at = (r * nb + q / 8) * 144;
                    let i = q % 8;
                    let m = if i < 4 {
                        data[at + 8 + i] as int % 64
                    } else {
                        data[at + 8 + i] as int / 16 + 16 * (data[at + 4 + i] as int / 64)
                    };
                    m * (act.bsums@[2 * q] + act.bsums@[2 * q + 1])
                };
            &&& 0 <= first + b < terms.blocks@.len()
            &&& terms.blocks@[first + b].dots@.len() % 8 == 0
            &&& sum_span(
                |t: int| terms.blocks@[first + b].dots@[t * 8 + r % 8] as int,
                0,
                terms.blocks@[first + b].dots@.len() as int / 8,
            ) == sum_span(products, 256 * b, 256 * b + 256)
            &&& terms.blocks@[first + b].mins@.len() % 8 == 0
            &&& sum_span(
                |t: int| terms.blocks@[first + b].mins@[t * 8 + r % 8] as int,
                0,
                terms.blocks@[first + b].mins@.len() as int / 8,
            ) == sum_span(mins, 8 * b, 8 * b + 8)
        }),
{
    let fmt = KQuant::Q4K;
    lemma_emitted_row_block(terms, fmt, data, rows, nb, il, act@, r, first, b);
    let start = (r * nb + b) * 144;
    let row = data.subrange(start, start + 144);
    let have = row_fn(fmt, row, act@, b);
    let products =
        |c: int| {
            let at = (r * nb + c / 256) * 144;
            let e = c % 256;
            let i = e / 32;
            let byte = data[at + 16 + (e / 64) * 32 + e % 32] as int;
            let w = if e % 64 < 32 { byte % 16 } else { byte / 16 };
            let s = if i < 4 {
                data[at + 4 + i] as int % 64
            } else {
                data[at + 8 + i] as int % 16 + 16 * (data[at + i] as int / 64)
            };
            w * act.q@[c] * s
        };
    let mins =
        |q: int| {
            let at = (r * nb + q / 8) * 144;
            let i = q % 8;
            let m = if i < 4 {
                data[at + 8 + i] as int % 64
            } else {
                data[at + 8 + i] as int / 16 + 16 * (data[at + 4 + i] as int / 64)
            };
            m * (act.bsums@[2 * q] + act.bsums@[2 * q + 1])
        };
    assert(sum_span(have, 0, 256) == sum_span(products, 256 * b, 256 * b + 256)) by {
        assert forall|e: int| 0 <= e < 256 implies #[trigger] have(e) == products(e + 256 * b) by {
            let c = e + 256 * b;
            assert(c / 256 == b && c % 256 == e);
            lemma_q4_k_product(data, start, act, b, e);
        }
        lemma_sum_shift(have, products, 0, 256, 256 * b);
    }
    let have = row_min_fn(fmt, row, act@, b);
    assert(sum_span(have, 0, 8) == sum_span(mins, 8 * b, 8 * b + 8)) by {
        assert forall|i: int| 0 <= i < 8 implies #[trigger] have(i) == mins(i + 8 * b) by {
            let q = i + 8 * b;
            assert(q / 8 == b && q % 8 == i);
        }
        lemma_sum_shift(have, mins, 0, 8, 8 * b);
    }
}

/// The partial dots emitted for row `r` of a Q4_K matrix add up, over all of
/// its column blocks, to the row's scaled weights times the activations:
/// every weight of the row meets the activation of its own column once.
pub proof fn law_q4_k_row_uses_every_activation_once(
    terms: KTerms,
    data: Seq<u8>,
    rows: int,
    nb: int,
    il: int,
    act: Q8KActivations,
    r: int,
    first: int,
)
    requires
        il == 4 || il == 8,
        data.len() == rows * nb * 144,
        0 <= r < (rows / 8) * 8,
        ({
            let packed = packed_matrix(KQuant::Q4K, data, rows, nb, il);
            ||| first == (r / 8) * nb && terms.are_of(KQuant::Q4K, packed, il, act@, nb, rows / 8)
            ||| first == 0 && terms.are_of(KQuant::Q4K, group_bytes(KQuant::Q4K, packed, r / 8, nb), il, act@, nb, 1)
        }),
        0 <= nb,
    ensures
        ({
            let products =
                |c: int| {
                    let at = (r * nb + c / 256) * 144;
                    let e = c % 256;
                    let i = e / 32;
                    let byte = data[at + 16 + (e / 64) * 32 + e % 32] as int;
                    let w = if e % 64 < 32 { byte % 16 } else { byte / 16 };
                    let s = if i < 4 {
                        data[at + 4 + i] as int % 64
                    } else {
                        data[at + 8 + i] as int % 16 + 16 * (data[at + i] as int / 64)
                    };
                    w * act.q@[c] * s
                };
            let mins =
                |q: int| {
                    let at = (r * nb + q / 8) * 144;
                    let i = q % 8;
                    let m = if i < 4 {
                        data[at + 8 + i] as int % 64
                    } else {
                        data[at + 8 + i] as int / 16 + 16 * (data[at + 4 + i] as int / 64)
                    };
                    m * (act.bsums@[2 * q] + act.bsums@[2 * q + 1])
                };
            &&& sum_span(
                |b: int|
                    sum_span(
                        |t: int| terms.blocks@[first + b].dots@[t * 8 + r % 8] as int,
                        0,
                        terms.blocks@[first + b].dots@.len() as int / 8,
                    ),
                0,
                nb,
            ) == sum_span(products, 0, nb * 256)
            &&& sum_span(
                |b: int|
                    sum_span(
                        |t: int| terms.blocks@[first + b].mins@[t * 8 + r % 8] as int,
                        0,
                        terms.blocks@[first + b].mins@.len() as int / 8,
                    ),
                0,
                nb,
            ) == sum_span(mins, 0, nb * 8)
        }),
{
    let products =
        |c: int| {
            let at = (r * nb + c / 256) * 144;
            let e = c % 256;
            let i = e / 32;
            let byte = data[at + 16 + (e / 64) * 32 + e % 32] as int;
            let w = if e % 64 < 32 { byte % 16 } else { byte / 16 };
            let s = if i < 4 {
                data[at + 4 + i] as int % 64
            } else {
                data[at + 8 + i] as int % 16 + 16 * (data[at + i] as int / 64)
            };
            w * act.q@[c] * s
        };
    let mins =
        |q: int| {
            let at = (r * nb + q / 8) * 144;
            let i = q % 8;
            let m = if i < 4 {
                data[at + 8 + i] as int % 64
            } else {
                data[at + 8 + i] as int / 16 + 16 * (data[at + 4 + i] as int / 64)
            };
            m * (act.bsums@[2 * q] + act.bsums@[2 * q + 1])
        };
    let per_block = |b: int|
        sum_span(
            |t: int| terms.blocks@[first + b].dots@[t * 8 + r % 8] as int,
            0,
            terms.blocks@[first + b].dots@.len() as int / 8,
        );
    assert forall|b: int| 0 <= b < nb implies #[trigger] per_block(b) == sum_span(products, b * 256, b * 256 + 256) by {
        law_q4_k_block_sums_are_the_row_products(terms, data, rows, nb, il, act, r, first, b);
    }
    lemma_chunks(products, per_block, 256, nb);
    let per_block = |b: int|
        sum_span(
            |t: int| terms.blocks@[first + b].mins@[t * 8 + r % 8] as int,
            0,
            terms.blocks@[first + b].mins@.len() as int / 8,
        );
    assert forall|b: int| 0 <= b < nb implies #[trigger] per_block(b) == sum_span(mins, b * 8, b * 8 + 8) by {
        law_q4_k_block_sums_are_the_row_products(terms, data, rows, nb, il, act, r, first, b);
    }
    lemma_chunks(mins, per_block, 8, nb);
}

/// A five-bit weight, from its nibble byte and its byte of fifth bits.
proof fn lemma_fifth_bit(e: int, low: u8, high: u8)
    requires
        0 <= e < 256,
    ensures
        ({
            let (i, bits) = (e / 32, high as int);
            let fifth = if i == 0 {
                bits % 2
            } else if i == 1 {
                (bits / 2) % 2
            } else if i == 2 {
                (bits / 4) % 2
            } else if i == 3 {
                (bits / 8) % 2
            } else if i == 4 {
                (bits / 16) % 2
            } else if i == 5 {
                (bits / 32) % 2
            } else if i == 6 {
                (bits / 64) % 2
            } else {
                bits / 128
            };
            weight_of(KQuant::Q5K, e, low, high) == (if e % 64 < 32 { low as int % 16 } else { low as int / 16 })
                + 16 * fifth
        }),
{
    reveal(weight_of);
}

/// The scaled product of weight `e` of the Q5_K block at byte `at`.
proof fn lemma_q5_k_product(data: Seq<u8>, at: int, act: Q8KActivations, b: int, e: int)
    requires
        0 <= at,
        at + 176 <= data.len(),
        0 <= e < 256,
    ensures
        ({
            let i = e / 32;
            let byte = data[at + 48 + (e / 64) * 32 + e % 32] as int;
            let bits = data[at + 16 + e % 32] as int;
            let fifth = if i == 0 {
                bits % 2
            } else if i == 1 {
                (bits / 2) % 2
            } else if i == 2 {
                (bits / 4) % 2
            } else if i == 3 {
                (bits / 8) % 2
            } else if i == 4 {
                (bits / 16) % 2
            } else if i == 5 {
                (bits / 32) % 2
            } else if i == 6 {
                (bits / 64) % 2
            } else {
                bits / 128
            };
            let w = (if e % 64 < 32 { byte % 16 } else { byte / 16 }) + 16 * fifth;
            let s = if i < 4 {
                data[at + 4 + i] as int % 64
            } else {
                data[at + 8 + i] as int % 16 + 16 * (data[at + i] as int / 64)
            };
            row_fn(KQuant::Q5K, data.subrange(at, at + 176), act@, b)(e) == w * act.q@[256 * b + e] * s
        }),
{
    let row = data.subrange(at, at + 176);
    lemma_fifth_bit(e, row[48 + (e / 64) * 32 + e % 32], row[16 + e % 32]);
}

/// The partial dots emitted for column block `b` of row `r` of a Q5_K matrix
/// add up to the row's own scaled weights of that block times activations
/// `256 * b .. 256 * b + 256`, and its min terms to its mins times the
/// recorded sums of that block. So it is for the product of the whole matrix
/// and for the product of the row's group alone.
#[verifier::spinoff_prover]
#[verifier::rlimit(60)]
pub proof fn law_q5_k_block_sums_are_the_row_products(
    terms: KTerms,
    data: Seq<u8>,
    rows: int,
    nb: int,
    il: int,
    act: Q8KActivations,
    r: int,
    first: int,
    b: int,
)
    requires
        il == 4 || il == 8,
        data.len() == rows * nb * 176,
        0 <= r < (rows / 8) * 8,
        ({
            let packed = packed_matrix(KQuant::Q5K, data, rows, nb, il);
            ||| first == (r / 8) * nb && terms.are_of(KQuant::Q5K, packed, il, act@, nb, rows / 8)
            ||| first == 0 && terms.are_of(KQuant::Q5K, group_bytes(KQuant::Q5K, packed, r / 8, nb), il, act@, nb, 1)
        }),
        0 <= b < nb,
    ensures
        ({
            let products =
                |c: int| {
                    let at = (r * nb + c / 256) * 176;
                    let e = c % 256;
                    let i = e / 32;
                    let byte = data[at + 48 + (e / 64) * 32 + e % 32] as int;
                    let bits = data[at + 16 + e % 32] as int;
                    let fifth = if i == 0 {
                        bits % 2
                    } else if i == 1 {
                        (bits / 2) % 2
                    } else if i == 2 {
                        (bits / 4) % 2
                    } else if i == 3 {
                        (bits / 8) % 2
                    } else if i == 4 {
                        (bits / 16) % 2
                    } else if i == 5 {
                        (bits / 32) % 2
                    } else if i == 6 {
                        (bits / 64) % 2
                    } else {
                        bits / 128
                    };
                    let w = (if e % 64 < 32 { byte % 16 } else { byte / 16 }) + 16 * fifth;
                    let s = if i < 4 {
                        data[at + 4 + i] as int % 64
                    } else {
                        data[at + 8 + i] as int % 16 + 16 * (data[at + i] as int / 64)
                    };
                    w * act.q@[c] * s
                };
            let mins =
                |q: int| {
                    let at = (r * nb + q / 8) * 176;
                    let i = q % 8;
                    let m = if i < 4 {
                        data[at + 8 + i] as int % 64
                    } else {
                        data[at + 8 + i] as int / 16 + 16 * (data[at + 4 + i] as int / 64)
                    };
                    m * (act.bsums@[2 * q] + act.bsums@[2 * q + 1])
                };
            &&& 0 <= first + b < terms.blocks@.len()
            &&& terms.blocks@[first + b].dots@.len() % 8 == 0
            &&& sum_span(
                |t: int| terms.blocks@[first + b].dots@[t * 8 + r % 8] as int,
                0,
                terms.blocks@[first + b].dots@.len() as int / 8,
            ) == sum_span(products, 256 * b, 256 * b + 256)
            &&& terms.blocks@[first + b].mins@.len() % 8 == 0
            &&& sum_span(
                |t: int| terms.blocks@[first + b].mins@[t * 8 + r % 8] as int,
                0,
                terms.blocks@[first + b].mins@.len() as int / 8,
            ) == sum_span(mins, 8 * b, 8 * b + 8)
        }),
{
    let fmt = KQuant::Q5K;
    lemma_emitted_row_block(terms, fmt, data, rows, nb, il, act@, r, first, b);
    let start = (r * nb + b) * 176;
    let row = data.subrange(start, start + 176);
    let have = row_fn(fmt, row, act@, b);
    let products =
        |c: int| {
            let at = (r * nb + c / 256) * 176;
            let e = c % 256;
            let i = e / 32;
            let byte = data[at + 48 + (e / 64) * 32 + e % 32] as int;
            let bits = data[at + 16 + e % 32] as int;
            let fifth = if i == 0 {
                bits % 2
            } else if i == 1 {
                (bits / 2) % 2
            } else if i == 2 {
                (bits / 4) % 2
            } else if i == 3 {
                (bits / 8) % 2
            } else if i == 4 {
                (bits / 16) % 2
            } else if i == 5 {
                (bits / 32) % 2
            } else if i == 6 {
                (bits / 64) % 2
            } else {
                bits / 128
            };
            let w = (if e % 64 < 32 { byte % 16 } else { byte / 16 }) + 16 * fifth;
            let s = if i < 4 {
                data[at + 4 + i] as int % 64
            } else {
                data[at + 8 + i] as int % 16 + 16 * (data[at + i] as int / 64)
            };
            w * act.q@[c] * s
        };
    let mins =
        |q: int| {
            let at = (r * nb + q / 8) * 176;
            let i = q % 8;
            let m = if i < 4 {
                data[at + 8 + i] as int % 64
            } else {
                data[at + 8 + i] as int / 16 + 16 * (data[at + 4 + i] as int / 64)
            };
            m * (act.bsums@[2 * q] + act.bsums@[2 * q + 1])
        };
    assert(sum_span(have, 0, 256) == sum_span(products, 256 * b, 256 * b + 256)) by {
        assert forall|e: int| 0 <= e < 256 implies #[trigger] have(e) == products(e + 256 * b) by {
            let c = e + 256 * b;
            assert(c / 256 == b && c % 256 == e);
            lemma_q5_k_product(data, start, act, b, e);
        }
        lemma_sum_shift(have, products, 0, 256, 256 * b);
    }
    let have = row_min_fn(fmt, row, act@, b);
    assert(sum_span(have, 0, 8) == sum_span(mins, 8 * b, 8 * b + 8)) by {
        assert forall|i: int| 0 <= i < 8 implies #[trigger] have(i) == mins(i + 8 * b) by {
            let q = i + 8 * b;
            assert(q / 8 == b && q % 8 == i);
        }
        lemma_sum_shift(have, mins, 0, 8, 8 * b);
    }
}

/// The partial dots emitted for row `r` of a Q5_K matrix add up, over all of
/// its column blocks, to the row's scaled weights times the activations:
/// every weight of the row meets the activation of its own column once.
pub proof fn law_q5_k_row_uses_every_activation_once(
    terms: KTerms,
    data: Seq<u8>,
    rows: int,
    nb: int,
    il: int,
    act: Q8KActivations,
    r: int,
    first: int,
)
    requires
        il == 4 || il == 8,
        data.len() == rows * nb * 176,
        0 <= r < (rows / 8) * 8,
        ({
            let packed = packed_matrix(KQuant::Q5K, data, rows, nb, il);
            ||| first == (r / 8) * nb && terms.are_of(KQuant::Q5K, packed, il, act@, nb, rows / 8)
            ||| first == 0 && terms.are_of(KQuant::Q5K, group_bytes(KQuant::Q5K, packed, r / 8, nb), il, act@, nb, 1)
        }),
        0 <= nb,
    ensures
        ({
            let products =
                |c: int| {
                    let at = (r * nb + c / 256) * 176;
                    let e = c % 256;
                    let i = e / 32;
                    let byte = data[at + 48 + (e / 64) * 32 + e % 32] as int;
                    let bits = data[at + 16 + e % 32] as int;
                    let fifth = if i == 0 {
                        bits % 2
                    } else if i == 1 {
                        (bits / 2) % 2
                    } else if i == 2 {
                        (bits / 4) % 2
                    } else if i == 3 {
                        (bits / 8) % 2
                    } else if i == 4 {
                        (bits / 16) % 2
                    } else if i == 5 {
                        (bits / 32) % 2
                    } else if i == 6 {
                        (bits / 64) % 2
                    } else {
                        bits / 128
                    };
                    let w = (if e % 64 < 32 { byte % 16 } else { byte / 16 }) + 16 * fifth;
                    let s = if i < 4 {
                        data[at + 4 + i] as int % 64
                    } else {
                        data[at + 8 + i] as int % 16 + 16 * (data[at + i] as int / 64)
                    };
                    w * act.q@[c] * s
                };
            let mins =
                |q: int| {
                    let at = (r * nb + q / 8) * 176;
                    let i = q % 8;
                    let m = if i < 4 {
                        data[at + 8 + i] as int % 64
                    } else {
                        data[at + 8 + i] as int / 16 + 16 * (data[at + 4 + i] as int / 64)
                    };
                    m * (act.bsums@[2 * q] + act.bsums@[2 * q + 1])
                };
            &&& sum_span(
                |b: int|
                    sum_span(
                        |t: int| terms.blocks@[first + b].dots@[t * 8 + r % 8] as int,
                        0,
                        terms.blocks@[first + b].dots@.len() as int / 8,
                    ),
                0,
                nb,
            ) == sum_span(products, 0, nb * 256)
            &&& sum_span(
                |b: int|
                    sum_span(
                        |t: int| terms.blocks@[first + b].mins@[t * 8 + r % 8] as int,
                        0,
                        terms.blocks@[first + b].mins@.len() as int / 8,
                    ),
                0,
                nb,
            ) == sum_span(mins, 0, nb * 8)
        }),
{
    let products =
        |c: int| {
            let at = (r * nb + c / 256) * 176;
            let e = c % 256;
            let i = e / 32;
            let byte = data[at + 48 + (e / 64) * 32 + e % 32] as int;
            let bits = data[at + 16 + e % 32] as int;
            let fifth = if i == 0 {
                bits % 2
            } else if i == 1 {
                (bits / 2) % 2
            } else if i == 2 {
                (bits / 4) % 2
            } else if i == 3 {
                (bits / 8) % 2
            } else if i == 4 {
                (bits / 16) % 2
            } else if i == 5 {
                (bits / 32) % 2
            } else if i == 6 {
                (bits / 64) % 2
            } else {
                bits / 128
            };
            let w = (if e % 64 < 32 { byte % 16 } else { byte / 16 }) + 16 * fifth;
            let s = if i < 4 {
                data[at + 4 + i] as int % 64
            } else {
                data[at + 8 + i] as int % 16 + 16 * (data[at + i] as int / 64)
            };
            w * act.q@[c] * s
        };
    let mins =
        |q: int| {
            let at = (r * nb + q / 8) * 176;
            let i = q % 8;
            let m = if i < 4 {
                data[at + 8 + i] as int % 64
            } else {
                data[at + 8 + i] as int / 16 + 16 * (data[at + 4 + i] as int / 64)
            };
            m * (act.bsums@[2 * q] + act.bsums@[2 * q + 1])
        };
    let per_block = |b: int|
        sum_span(
            |t: int| terms.blocks@[first + b].dots@[t * 8 + r % 8] as int,
            0,
            terms.blocks@[first + b].dots@.len() as int / 8,
        );
    assert forall|b: int| 0 <= b < nb implies #[trigger] per_block(b) == sum_span(products, b * 256, b * 256 + 256) by {
        law_q5_k_block_sums_are_the_row_products(terms, data, rows, nb, il, act, r, first, b);
    }
    lemma_chunks(products, per_block, 256, nb);
    let per_block = |b: int|
        sum_span(
            |t: int| terms.blocks@[first + b].mins@[t * 8 + r % 8] as int,
            0,
            terms.blocks@[first + b].mins@.len() as int / 8,
        );
    assert forall|b: int| 0 <= b < nb implies #[trigger] per_block(b) == sum_span(mins, b * 8, b * 8 + 8) by {
        law_q5_k_block_sums_are_the_row_products(terms, data, rows, nb, il, act, r, first, b);
    }
    lemma_chunks(mins, per_block, 8, nb);
}

/// The scaled product of weight `e` of the Q6_K block at byte `at`.
proof fn lemma_q6_k_product(data: Seq<u8>, at: int, act: Q8KActivations, b: int, e: int)
    requires
        0 <= at,
        at + 210 <= data.len(),
        0 <= e < 256,
    ensures
        ({
            let byte = data[at + (e / 128) * 64 + e % 64] as int;
            let bits = data[at + 128 + (e / 128) * 32 + e % 32] as int;
            let high = if e % 128 < 32 {
                bits % 4
            } else if e % 128 < 64 {
                (bits / 4) % 4
            } else if e % 128 < 96 {
                (bits / 16) % 4
            } else {
                bits / 64
            };
            let w = (if e % 128 < 64 { byte % 16 } else { byte / 16 }) + 16 * high - 32;
            let scale = data[at + 192 + e / 16] as int;
            let s = if scale < 128 { scale } else { scale - 256 };
            row_fn(KQuant::Q6K, data.subrange(at, at + 210), act@, b)(e) == w * act.q@[256 * b + e] * s
        }),
{
    reveal(weight_of);
}

/// The partial dots emitted for column block `b` of row `r` of a Q6_K matrix
/// add up to the row's own scaled weights of that block times activations
/// `256 * b .. 256 * b + 256`. So it is for the product of the whole
/// matrix and for the product of the row's group alone.
#[verifier::spinoff_prover]
#[verifier::rlimit(60)]
pub proof fn law_q6_k_block_sums_are_the_row_products(
    terms: KTerms,
    data: Seq<u8>,
    rows: int,
    nb: int,
    il: int,
    act: Q8KActivations,
    r: int,
    first: int,
    b: int,
)
    requires
        il == 4 || il == 8,
        data.len() == rows * nb * 210,
        0 <= r < (rows / 8) * 8,
        ({
            let packed = packed_matrix(KQuant::Q6K, data, rows, nb, il);
            ||| first == (r / 8) * nb && terms.are_of(KQuant::Q6K, packed, il, act@, nb, rows / 8)
            ||| first == 0 && terms.are_of(KQuant::Q6K, group_bytes(KQuant::Q6K, packed, r / 8, nb), il, act@, nb, 1)
        }),
        terms.kernel == Kernel::Dot8x8 ==> forall|s: int|
            0 <= s < nb * 16 ==> #[trigger] act.bsums@[s] == sum_span(|c: int| act.q@[c] as int, 16 * s, 16 * s + 16),
        0 <= b < nb,
    ensures
        ({
            let products =
                |c: int| {
                    let at = (r * nb + c / 256) * 210;
                    let e = c % 256;
                    let byte = data[at + (e / 128) * 64 + e % 64] as int;
                    let bits = data[at + 128 + (e / 128) * 32 + e % 32] as int;
                    let high = if e % 128 < 32 {
                        bits % 4
                    } else if e % 128 < 64 {
                        (bits / 4) % 4
                    } else if e % 128 < 96 {
                        (bits / 16) % 4
                    } else {
                        bits / 64
                    };
                    let w = (if e % 128 < 64 { byte % 16 } else { byte / 16 }) + 16 * high - 32;
                    let scale = data[at + 192 + e / 16] as int;
                    let s = if scale < 128 { scale } else { scale - 256 };
                    w * act.q@[c] * s
                };
            &&& 0 <= first + b < terms.blocks@.len()
            &&& terms.blocks@[first + b].dots@.len() % 8 == 0
            &&& sum_span(
                |t: int| terms.blocks@[first + b].dots@[t * 8 + r % 8] as int,
                0,
                terms.blocks@[first + b].dots@.len() as int / 8,
            ) == sum_span(products, 256 * b, 256 * b + 256)
            &&& terms.blocks@[first + b].mins@.len() == 0
        }),
{
    let fmt = KQuant::Q6K;
    if terms.kernel == Kernel::Dot8x8 {
        let (all, here) = (|c: int| act.q@[c] as int, crate::quant::kernel_laws::act_fn(act@, b));
        assert forall|s: int| 0 <= s < 16 implies #[trigger] act@.bsums[b * 16 + s] == sum_span(
            here,
            16 * s,
            16 * s + 16,
        ) by {
            let q = b * 16 + s;
            assert(0 <= q < nb * 16);
            assert(act.bsums@[q] == sum_span(all, 16 * q, 16 * q + 16));
            assert forall|e: int| 16 * s <= e < 16 * s + 16 implies #[trigger] here(e) == all(e + 256 * b) by {}
            lemma_sum_shift(here, all, 16 * s, 16 * s + 16, 256 * b);
        }
        assert(sums_recorded(act@, b));
    }
    lemma_emitted_row_block(terms, fmt, data, rows, nb, il, act@, r, first, b);
    let start = (r * nb + b) * 210;
    let row = data.subrange(start, start + 210);
    let have = row_fn(fmt, row, act@, b);
    let products =
        |c: int| {
            let at = (r * nb + c / 256) * 210;
            let e = c % 256;
            let byte = data[at + (e / 128) * 64 + e % 64] as int;
            let bits = data[at + 128 + (e / 128) * 32 + e % 32] as int;
            let high = if e % 128 < 32 {
                bits % 4
            } else if e % 128 < 64 {
                (bits / 4) % 4
            } else if e % 128 < 96 {
                (bits / 16) % 4
            } else {
                bits / 64
            };
            let w = (if e % 128 < 64 { byte % 16 } else { byte / 16 }) + 16 * high - 32;
            let scale = data[at + 192 + e / 16] as int;
            let s = if scale < 128 { scale } else { scale - 256 };
            w * act.q@[c] * s
        };
    assert(sum_span(have, 0, 256) == sum_span(products, 256 * b, 256 * b + 256)) by {
        assert forall|e: int| 0 <= e < 256 implies #[trigger] have(e) == products(e + 256 * b) by {
            let c = e + 256 * b;
            assert(c / 256 == b && c % 256 == e);
            lemma_q6_k_product(data, start, act, b, e);
        }
        lemma_sum_shift(have, products, 0, 256, 256 * b);
    }
}

/// The partial dots emitted for row `r` of a Q6_K matrix add up, over all of
/// its column blocks, to the row's scaled weights times the activations:
/// every weight of the row meets the activation of its own column once.
pub proof fn law_q6_k_row_uses_every_activation_once(
    terms: KTerms,
    data: Seq<u8>,
    rows: int,
    nb: int,
    il: int,
    act: Q8KActivations,
    r: int,
    first: int,
)
    requires
        il == 4 || il == 8,
        data.len() == rows * nb * 210,
        0 <= r < (rows / 8) * 8,
        ({
            let packed = packed_matrix(KQuant::Q6K, data, rows, nb, il);
            ||| first == (r / 8) * nb && terms.are_of(KQuant::Q6K, packed, il, act@, nb, rows / 8)
            ||| first == 0 && terms.are_of(KQuant::Q6K, group_bytes(KQuant::Q6K, packed, r / 8, nb), il, act@, nb, 1)
        }),
        terms.kernel == Kernel::Dot8x8 ==> forall|s: int|
            0 <= s < nb * 16 ==> #[trigger] act.bsums@[s] == sum_span(|c: int| act.q@[c] as int, 16 * s, 16 * s + 16),
        0 <= nb,
    ensures
        ({
            let products =
                |c: int| {
                    let at = (r * nb + c / 256) * 210;
                    let e = c % 256;
                    let byte = data[at + (e / 128) * 64 + e % 64] as int;
                    let bits = data[at + 128 + (e / 128) * 32 + e % 32] as int;
                    let high = if e % 128 < 32 {
                        bits % 4
                    } else if e % 128 < 64 {
                        (bits / 4) % 4
                    } else if e % 128 < 96 {
                        (bits / 16) % 4
                    } else {
                        bits / 64
                    };
                    let w = (if e % 128 < 64 { byte % 16 } else { byte / 16 }) + 16 * high - 32;
                    let scale = data[at + 192 + e / 16] as int;
                    let s = if scale < 128 { scale } else { scale - 256 };
                    w * act.q@[c] * s
                };
            &&& sum_span(
                |b: int|
                    sum_span(
                        |t: int| terms.blocks@[first + b].dots@[t * 8 + r % 8] as int,
                        0,
                        terms.blocks@[first + b].dots@.len() as int / 8,
                    ),
                0,
                nb,
            ) == sum_span(products, 0, nb * 256)
        }),
{
    let products =
        |c: int| {
            let at = (r * nb + c / 256) * 210;
            let e = c % 256;
            let byte = data[at + (e / 128) * 64 + e % 64] as int;
            let bits = data[at + 128 + (e / 128) * 32 + e % 32] as int;
            let high = if e % 128 < 32 {
                bits % 4
            } else if e % 128 < 64 {
                (bits / 4) % 4
            } else if e % 128 < 96 {
                (bits / 16) % 4
            } else {
                bits / 64
            };
            let w = (if e % 128 < 64 { byte % 16 } else { byte / 16 }) + 16 * high - 32;
            let scale = data[at + 192 + e / 16] as int;
            let s = if scale < 128 { scale } else { scale - 256 };
            w * act.q@[c] * s
        };
    let per_block = |b: int|
        sum_span(
            |t: int| terms.blocks@[first + b].dots@[t * 8 + r % 8] as int,
            0,
            terms.blocks@[first + b].dots@.len() as int / 8,
        );
    assert forall|b: int| 0 <= b < nb implies #[trigger] per_block(b) == sum_span(products, b * 256, b * 256 + 256) by {
        law_q6_k_block_sums_are_the_row_products(terms, data, rows, nb, il, act, r, first, b);
    }
    lemma_chunks(products, per_block, 256, nb);
}

/// One emitted block, when its packed bytes hold these four rows.
proof fn lemma_emitted_block4(
    terms: Terms4,
    fmt: Quant4,
    bytes: Seq<u8>,
    q: Seq<i8>,
    nb: int,
    groups: int,
    k: int,
    group: Seq<Seq<u8>>,
    j: int,
)
    requires
        terms.are_of(fmt, bytes, q, nb, groups),
        0 <= k < groups * nb,
        0 <= j < 4,
        group.len() == 4,
        forall|r: int| 0 <= r < 4 ==> #[trigger] group[r].len() == fmt.row_bytes(),
        forall|t: int|
            0 <= t < fmt.packed_bytes() ==> #[trigger] bytes[k * fmt.packed_bytes() + t] == packed_block4(
                fmt,
                group,
                4,
            )[t],
    ensures
        terms.blocks@[k]@.len() == n_dots4(fmt, terms.kernel) * 4,
        sum_span(|t: int| terms.blocks@[k]@[t * 4 + j] as int, 0, terms.blocks@[k]@.len() as int / 4) == sum_span(
            row_fn4(fmt, group[j], q, k % nb),
            0,
            32,
        ),
{
    let b = k % nb;
    let base = k * fmt.packed_bytes();
    let small = packed_block4(fmt, group, 4);
    assert(terms.block_is(fmt, bytes, q, k, b));
    let n = n_dots4(fmt, terms.kernel);
    let dots = |t: int| terms.blocks@[k]@[t * 4 + j] as int;
    let want = dot_fn4(fmt, terms.kernel, bytes, base, j, q, b);
    assert forall|t: int| 0 <= t < n implies #[trigger] dots(t) == want(t) by {
        let i = t * 4 + j;
        assert(i % 4 == j && i / 4 == t);
        assert(terms.blocks@[k]@[i] == want(t));
    }
    lemma_sum_congruent(dots, want, 0, n);
    law_partial_dots4_add_up(fmt, terms.kernel, bytes, base, j, q, b);
    let (f, h) = (elem_fn4(fmt, bytes, base, j, q, b), row_fn4(fmt, group[j], q, b));
    assert forall|e: int| 0 <= e < 32 implies #[trigger] f(e) == h(e) by {
        law_packed_block4_keeps_every_row(fmt, group, 4, j, e);
        lemma_interleaved_place(4, 4, j, fmt.pos(e));
        let u = 8 + interleaved_at(4, 4, j, fmt.pos(e));
        assert(0 <= u < small.len());
        assert(bytes[base + u] == small[u]);
    }
    lemma_sum_congruent(f, h, 0, 32);
}

/// Column block `b` of row `r` of a four-row product.
proof fn lemma_emitted_row_block4(
    terms: Terms4,
    fmt: Quant4,
    data: Seq<u8>,
    rows: int,
    nb: int,
    q: Seq<i8>,
    r: int,
    first: int,
    b: int,
)
    requires
        is_matrix4(fmt, data, rows, nb),
        0 <= r < (rows / 4) * 4,
        0 <= b < nb,
        ({
            let packed = packed_matrix4(fmt, data, rows, nb, 4);
            ||| first == (r / 4) * nb && terms.are_of(fmt, packed, q, nb, rows / 4)
            ||| first == 0 && terms.are_of(fmt, group_bytes4(fmt, packed, r / 4, nb), q, nb, 1)
        }),
    ensures
        ({
            let block = terms.blocks@[first + b]@;
            let at = (r * nb + b) * fmt.row_bytes();
            let row = data.subrange(at, at + fmt.row_bytes());
            &&& 0 <= at
            &&& at + fmt.row_bytes() <= data.len()
            &&& 0 <= first + b < terms.blocks@.len()
            &&& block.len() == n_dots4(fmt, terms.kernel) * 4
            &&& sum_span(|t: int| block[t * 4 + r % 4] as int, 0, block.len() as int / 4) == sum_span(
                row_fn4(fmt, row, q, b),
                0,
                32,
            )
        }),
{
    let (g, j) = (r / 4, r % 4);
    let unit = fmt.packed_bytes();
    let packed = packed_matrix4(fmt, data, rows, nb, 4);
    let group = group_rows4(fmt, data, nb, g, b);
    let small = packed_block4(fmt, group, 4);
    lemma_block_in_matrix(nb, rows / 4, unit, g, b);
    lemma_block_index(nb, g, b);
    lemma_block_in_matrix(nb, rows, fmt.row_bytes(), r, b);
    assert forall|i: int| 0 <= i < 4 implies #[trigger] group[i].len() == fmt.row_bytes() by {
        lemma_block_in_matrix(nb, rows, fmt.row_bytes(), g * 4 + i, b);
    }
    let whole = g * nb + b;
    assert forall|t: int| 0 <= t < unit implies #[trigger] packed[whole * unit + t] == small[t] by {
        lemma_byte_index(unit, whole, t);
    }
    assert(g * 4 + j == r);
    if first == g * nb && terms.are_of(fmt, packed, q, nb, rows / 4) {
        lemma_emitted_block4(terms, fmt, packed, q, nb, rows / 4, whole, group, j);
    } else {
        let bytes = group_bytes4(fmt, packed, g, nb);
        let start = g * nb * unit;
        lemma_block_in_matrix(nb, rows / 4, unit, g, 0);
        assert((g * nb + 0) * unit == start);
        assert(whole * unit == start + b * unit) by (nonlinear_arith)
            requires
                whole == g * nb + b,
                start == g * nb * unit,
        ;
        assert(b * unit + unit <= nb * unit && 0 <= b * unit) by (nonlinear_arith)
            requires
                0 <= b < nb,
                0 <= unit,
        ;
        assert(start + nb * unit <= packed.len()) by (nonlinear_arith)
            requires
                start == g * nb * unit,
                packed.len() == (rows / 4) * nb * unit,
                g + 1 <= rows / 4,
                0 <= nb,
                0 <= unit,
        ;
        assert forall|t: int| 0 <= t < unit implies #[trigger] bytes[b * unit + t] == small[t] by {
            assert(bytes[b * unit + t] == packed[whole * unit + t]);
        }
        assert(b % nb == b) by {
            lemma_block_index(nb, 0, b);
        }
        assert(1 * nb == nb);
        lemma_emitted_block4(terms, fmt, bytes, q, nb, 1, b, group, j);
    }
}

/// The partial dots emitted for column block `b` of row `r` of a Q8_0 matrix
/// add up to the row's own weights of that block times activations
/// `32 * b .. 32 * b + 32`, for the whole matrix as for the row's group alone.
pub proof fn law_q8_0_block_sums_are_the_row_products(
    terms: Terms4,
    data: Seq<u8>,
    rows: int,
    nb: int,
    q: Seq<i8>,
    r: int,
    first: int,
    b: int,
)
    requires
        data.len() == rows * nb * 34,
        0 <= r < (rows / 4) * 4,
        ({
            let packed = packed_matrix4(Quant4::Q80, data, rows, nb, 4);
            ||| first == (r / 4) * nb && terms.are_of(Quant4::Q80, packed, q, nb, rows / 4)
            ||| first == 0 && terms.are_of(Quant4::Q80, group_bytes4(Quant4::Q80, packed, r / 4, nb), q, nb, 1)
        }),
        0 <= b < nb,
    ensures
        ({
            let products = |c: int| {
                let byte = data[(r * nb + c / 32) * 34 + 2 + c % 32] as int;
                (if byte < 128 { byte } else { byte - 256 }) * q[c]
            };
            &&& 0 <= first + b < terms.blocks@.len()
            &&& terms.blocks@[first + b]@.len() % 4 == 0
            &&& sum_span(
                |t: int| terms.blocks@[first + b]@[t * 4 + r % 4] as int,
                0,
                terms.blocks@[first + b]@.len() as int / 4,
            ) == sum_span(products, 32 * b, 32 * b + 32)
        }),
{
    lemma_emitted_row_block4(terms, Quant4::Q80, data, rows, nb, q, r, first, b);
    let start = (r * nb + b) * 34;
    let have = row_fn4(Quant4::Q80, data.subrange(start, start + 34), q, b);
    let products = |c: int| {
                let byte = data[(r * nb + c / 32) * 34 + 2 + c % 32] as int;
                (if byte < 128 { byte } else { byte - 256 }) * q[c]
            };
    assert forall|e: int| 0 <= e < 32 implies #[trigger] have(e) == products(e + 32 * b) by {
        let c = e + 32 * b;
        assert(c / 32 == b && c % 32 == e);
    }
    lemma_sum_shift(have, products, 0, 32, 32 * b);
}

/// The partial dots emitted for row `r` of a Q8_0 matrix add up, over all of
/// its column blocks, to the row's weights times the activations.
pub proof fn law_q8_0_row_uses_every_activation_once(
    terms: Terms4,
    data: Seq<u8>,
    rows: int,
    nb: int,
    q: Seq<i8>,
    r: int,
    first: int,
)
    requires
        data.len() == rows * nb * 34,
        0 <= r < (rows / 4) * 4,
        ({
            let packed = packed_matrix4(Quant4::Q80, data, rows, nb, 4);
            ||| first == (r / 4) * nb && terms.are_of(Quant4::Q80, packed, q, nb, rows / 4)
            ||| first == 0 && terms.are_of(Quant4::Q80, group_bytes4(Quant4::Q80, packed, r / 4, nb), q, nb, 1)
        }),
        0 <= nb,
    ensures
        ({
            let products = |c: int| {
                let byte = data[(r * nb + c / 32) * 34 + 2 + c % 32] as int;
                (if byte < 128 { byte } else { byte - 256 }) * q[c]
            };
            sum_span(
                |b: int|
                    sum_span(
                        |t: int| terms.blocks@[first + b]@[t * 4 + r % 4] as int,
                        0,
                        terms.blocks@[first + b]@.len() as int / 4,
                    ),
                0,
                nb,
            ) == sum_span(products, 0, nb * 32)
        }),
{
    let products = |c: int| {
                let byte = data[(r * nb + c / 32) * 34 + 2 + c % 32] as int;
                (if byte < 128 { byte } else { byte - 256 }) * q[c]
            };
    let per_block = |b: int|
        sum_span(
            |t: int| terms.blocks@[first + b]@[t * 4 + r % 4] as int,
            0,
            terms.blocks@[first + b]@.len() as int / 4,
        );
    assert forall|b: int| 0 <= b < nb implies #[trigger] per_block(b) == sum_span(products, b * 32, b * 32 + 32) by {
        law_q8_0_block_sums_are_the_row_products(terms, data, rows, nb, q, r, first, b);
    }
    lemma_chunks(products, per_block, 32, nb);
}

/// The partial dots emitted for column block `b` of row `r` of a Q4_0 matrix
/// add up to the row's own weights of that block times activations
/// `32 * b .. 32 * b + 32`, for the whole matrix as for the row's group alone.
pub proof fn law_q4_0_block_sums_are_the_row_products(
    terms: Terms4,
    data: Seq<u8>,
    rows: int,
    nb: int,
    q: Seq<i8>,
    r: int,
    first: int,
    b: int,
)
    requires
        data.len() == rows * nb * 18,
        0 <= r < (rows / 4) * 4,
        ({
            let packed = packed_matrix4(Quant4::Q40, data, rows, nb, 4);
            ||| first == (r / 4) * nb && terms.are_of(Quant4::Q40, packed, q, nb, rows / 4)
            ||| first == 0 && terms.are_of(Quant4::Q40, group_bytes4(Quant4::Q40, packed, r / 4, nb), q, nb, 1)
        }),
        0 <= b < nb,
    ensures
        ({
            let products = |c: int| {
                let at = (r * nb + c / 32) * 18 + 2;
                let w = if c % 32 < 16 {
                    data[at + c % 32] as int % 16 - 8
                } else {
                    data[at + c % 32 - 16] as int / 16 - 8
                };
                w * q[c]
            };
            &&& 0 <= first + b < terms.blocks@.len()
            &&& terms.blocks@[first + b]@.len() % 4 == 0
            &&& sum_span(
                |t: int| terms.blocks@[first + b]@[t * 4 + r % 4] as int,
                0,
                terms.blocks@[first + b]@.len() as int / 4,
            ) == sum_span(products, 32 * b, 32 * b + 32)
        }),
{
    lemma_emitted_row_block4(terms, Quant4::Q40, data, rows, nb, q, r, first, b);
    let start = (r * nb + b) * 18;
    let have = row_fn4(Quant4::Q40, data.subrange(start, start + 18), q, b);
    let products = |c: int| {
                let at = (r * nb + c / 32) * 18 + 2;
                let w = if c % 32 < 16 {
                    data[at + c % 32] as int % 16 - 8
                } else {
                    data[at + c % 32 - 16] as int / 16 - 8
                };
                w * q[c]
            };
    assert forall|e: int| 0 <= e < 32 implies #[trigger] have(e) == products(e + 32 * b) by {
        let c = e + 32 * b;
        assert(c / 32 == b && c % 32 == e);
    }
    lemma_sum_shift(have, products, 0, 32, 32 * b);
}

/// The partial dots emitted for row `r` of a Q4_0 matrix add up, over all of
/// its column blocks, to the row's weights times the activations.
pub proof fn law_q4_0_row_uses_every_activation_once(
    terms: Terms4,
    data: Seq<u8>,
    rows: int,
    nb: int,
    q: Seq<i8>,
    r: int,
    first: int,
)
    requires
        data.len() == rows * nb * 18,
        0 <= r < (rows / 4) * 4,
        ({
            let packed = packed_matrix4(Quant4::Q40, data, rows, nb, 4);
            ||| first == (r / 4) * nb && terms.are_of(Quant4::Q40, packed, q, nb, rows / 4)
            ||| first == 0 && terms.are_of(Quant4::Q40, group_bytes4(Quant4::Q40, packed, r / 4, nb), q, nb, 1)
        }),
        0 <= nb,
    ensures
        ({
            let products = |c: int| {
                let at = (r * nb + c / 32) * 18 + 2;
                let w = if c % 32 < 16 {
                    data[at + c % 32] as int % 16 - 8
                } else {
                    data[at + c % 32 - 16] as int / 16 - 8
                };
                w * q[c]
            };
            sum_span(
                |b: int|
                    sum_span(
                        |t: int| terms.blocks@[first + b]@[t * 4 + r % 4] as int,
                        0,
                        terms.blocks@[first + b]@.len() as int / 4,
                    ),
                0,
                nb,
            ) == sum_span(products, 0, nb * 32)
        }),
{
    let products = |c: int| {
                let at = (r * nb + c / 32) * 18 + 2;
                let w = if c % 32 < 16 {
                    data[at + c % 32] as int % 16 - 8
                } else {
                    data[at + c % 32 - 16] as int / 16 - 8
                };
                w * q[c]
            };
    let per_block = |b: int|
        sum_span(
            |t: int| terms.blocks@[first + b]@[t * 4 + r % 4] as int,
            0,
            terms.blocks@[first + b]@.len() as int / 4,
        );
    assert forall|b: int| 0 <= b < nb implies #[trigger] per_block(b) == sum_span(products, b * 32, b * 32 + 32) by {
        law_q4_0_block_sums_are_the_row_products(terms, data, rows, nb, q, r, first, b);
    }
    lemma_chunks(products, per_block, 32, nb);
}

/// A quad stores element `e` of block `b` of row `a` in run `e / 8` of the
/// block, behind the runs of the rows before it, and the pairwise sums and
/// the scales row by row; lanes without a row hold zeros.
pub proof fn law_a_quad_holds_its_rows(
    tile: Q8KActsX4,
    acts: Seq<Q8KActivations>,
    nb: int,
    a: int,
    b: int,
    e: int,
    sb: int,
)
    requires
        quad_of(tile, acts, nb),
        0 <= a < 4,
        0 <= b < nb,
        0 <= e < 256,
        0 <= sb < 8,
    ensures
        tile.na == acts.len(),
        tile.n_blocks == nb,
        tile.qs@.len() == nb * 1024,
        tile.bsums@.len() == nb * 32,
        tile.d_bits@.len() == nb * 4,
        a < acts.len() ==> {
            &&& tile.qs@[b * 1024 + (e / 8) * 32 + a * 8 + e % 8] == acts[a].q@[b * 256 + e]
            &&& tile.bsums@[(b * 4 + a) * 8 + sb] == acts[a].bsums@[b * 16 + 2 * sb] + acts[a].bsums@[b * 16 + 2 * sb
                + 1]
            &&& tile.d_bits@[b * 4 + a] == acts[a].d_bits@[b]
        },
        a >= acts.len() ==> {
            &&& tile.qs@[b * 1024 + (e / 8) * 32 + a * 8 + e % 8] == 0
            &&& tile.bsums@[(b * 4 + a) * 8 + sb] == 0
            &&& tile.d_bits@[b * 4 + a] == 0
        },
{
    let lane = tile.lane(a);
    assert(lane.at(b, e) == tile.qs@[b * 1024 + (e / 8) * 32 + a * 8 + e % 8]);
    assert(lane.folded(b, sb) == tile.bsums@[(b * 4 + a) * 8 + sb]);
}

/// Packing a Q4_K matrix and multiplying the packed matrix is multiplying the
/// matrix: the sums handed back for row `r` add up to its scaled weights, as
/// its own bytes spell them, times the activations, column by column.
#[verifier::spinoff_prover]
#[verifier::rlimit(60)]
pub proof fn law_a_packed_q4_k_matrix_multiplies_as_it_was(
    data: &[u8],
    rows: usize,
    cols: usize,
    il: usize,
    packed: Vec<u8>,
    bytes: &[u8],
    act: &Q8KActivations,
    groups: usize,
    cpu: &CpuFeatures,
    terms: KTerms,
    r: int,
)
    requires
        il == 4 || il == 8,
        cols % 256 == 0,
        data@.len() == rows * (cols as int / 256) * 144,
        groups == rows / 8,
        0 <= r < groups * 8,
        call_ensures(pack_q4_k_matrix_x8, (data, rows, cols, il), packed),
        bytes@ == packed@,
        call_ensures(gemv_q4_kx8_q8_k, (bytes, act, cols, groups, il, cpu), terms),
    ensures
        ({
            let products =
                |c: int| {
                    let at = (r * (cols as int / 256) + c / 256) * 144;
                    let e = c % 256;
                    let i = e / 32;
                    let byte = data[at + 16 + (e / 64) * 32 + e % 32] as int;
                    let w = if e % 64 < 32 { byte % 16 } else { byte / 16 };
                    let s = if i < 4 {
                        data[at + 4 + i] as int % 64
                    } else {
                        data[at + 8 + i] as int % 16 + 16 * (data[at + i] as int / 64)
                    };
                    w * act.q@[c] * s
                };
            let mins =
                |q: int| {
                    let at = (r * (cols as int / 256) + q / 8) * 144;
                    let i = q % 8;
                    let m = if i < 4 {
                        data[at + 8 + i] as int % 64
                    } else {
                        data[at + 8 + i] as int / 16 + 16 * (data[at + 4 + i] as int / 64)
                    };
                    m * (act.bsums@[2 * q] + act.bsums@[2 * q + 1])
                };
            &&& sum_span(
                |b: int|
                    sum_span(
                        |t: int| terms.blocks@[(r / 8) * (cols as int / 256) + b].dots@[t * 8 + r % 8] as int,
                        0,
                        terms.blocks@[(r / 8) * (cols as int / 256) + b].dots@.len() as int / 8,
                    ),
                0,
                cols as int / 256,
            ) == sum_span(products, 0, cols as int)
            &&& sum_span(
                |b: int|
                    sum_span(
                        |t: int| terms.blocks@[(r / 8) * (cols as int / 256) + b].mins@[t * 8 + r % 8] as int,
                        0,
                        terms.blocks@[(r / 8) * (cols as int / 256) + b].mins@.len() as int / 8,
                    ),
                0,
                cols as int / 256,
            ) == sum_span(mins, 0, cols as int / 32)
        }),
{
    let nb = cols as int / 256;
    law_q4_k_row_uses_every_activation_once(terms, data@, rows as int, nb, il as int, *act, r, (r / 8) * nb);
}

/// Packing a Q5_K matrix and multiplying the packed matrix is multiplying the
/// matrix: the sums handed back for row `r` add up to its scaled weights, as
/// its own bytes spell them, times the activations, column by column.
#[verifier::spinoff_prover]
#[verifier::rlimit(60)]
pub proof fn law_a_packed_q5_k_matrix_multiplies_as_it_was(
    data: &[u8],
    rows: usize,
    cols: usize,
    il: usize,
    packed: Vec<u8>,
    bytes: &[u8],
    act: &Q8KActivations,
    groups: usize,
    cpu: &CpuFeatures,
    terms: KTerms,
    r: int,
)
    requires
        il == 4 || il == 8,
        cols % 256 == 0,
        data@.len() == rows * (cols as int / 256) * 176,
        groups == rows / 8,
        0 <= r < groups * 8,
        call_ensures(pack_q5_k_matrix_x8, (data, rows, cols, il), packed),
        bytes@ == packed@,
        call_ensures(gemv_q5_kx8_q8_k, (bytes, act, cols, groups, il, cpu), terms),
    ensures
        ({
            let products =
                |c: int| {
                    let at = (r * (cols as int / 256) + c / 256) * 176;
                    let e = c % 256;
                    let i = e / 32;
                    let byte = data[at + 48 + (e / 64) * 32 + e % 32] as int;
                    let bits = data[at + 16 + e % 32] as int;
                    let fifth = if i == 0 {
                        bits % 2
                    } else if i == 1 {
                        (bits / 2) % 2
                    } else if i == 2 {
                        (bits / 4) % 2
                    } else if i == 3 {
                        (bits / 8) % 2
                    } else if i == 4 {
                        (bits / 16) % 2
                    } else if i == 5 {
                        (bits / 32) % 2
                    } else if i == 6 {
                        (bits / 64) % 2
                    } else {
                        bits / 128
                    };
                    let w = (if e % 64 < 32 { byte % 16 } else { byte / 16 }) + 16 * fifth;
                    let s = if i < 4 {
                        data[at + 4 + i] as int % 64
                    } else {
                        data[at + 8 + i] as int % 16 + 16 * (data[at + i] as int / 64)
                    };
                    w * act.q@[c] * s
                };
            let mins =
                |q: int| {
                    let at = (r * (cols as int / 256) + q / 8) * 176;
                    let i = q % 8;
                    let m = if i < 4 {
                        data[at + 8 + i] as int % 64
                    } else {
                        data[at + 8 + i] as int / 16 + 16 * (data[at + 4 + i] as int / 64)
                    };
                    m * (act.bsums@[2 * q] + act.bsums@[2 * q + 1])
                };
            &&& sum_span(
                |b: int|
                    sum_span(
                        |t: int| terms.blocks@[(r / 8) * (cols as int / 256) + b].dots@[t * 8 + r % 8] as int,
                        0,
                        terms.blocks@[(r / 8) * (cols as int / 256) + b].dots@.len() as int / 8,
                    ),
                0,
                cols as int / 256,
            ) == sum_span(products, 0, cols as int)
            &&& sum_span(
                |b: int|
                    sum_span(
                        |t: int| terms.blocks@[(r / 8) * (cols as int / 256) + b].mins@[t * 8 + r % 8] as int,
                        0,
                        terms.blocks@[(r / 8) * (cols as int / 256) + b].mins@.len() as int / 8,
                    ),
                0,
                cols as int / 256,
            ) == sum_span(mins, 0, cols as int / 32)
        }),
{
    let nb = cols as int / 256;
    law_q5_k_row_uses_every_activation_once(terms, data@, rows as int, nb, il as int, *act, r, (r / 8) * nb);
}

/// Packing a Q6_K matrix and multiplying the packed matrix is multiplying the
/// matrix: the sums handed back for row `r` add up to its scaled weights, as
/// its own bytes spell them, times the activations, column by column.
#[verifier::spinoff_prover]
#[verifier::rlimit(60)]
pub proof fn law_a_packed_q6_k_matrix_multiplies_as_it_was(
    data: &[u8],
    rows: usize,
    cols: usize,
    il: usize,
    packed: Vec<u8>,
    bytes: &[u8],
    act: &Q8KActivations,
    groups: usize,
    cpu: &CpuFeatures,
    terms: KTerms,
    r: int,
)
    requires
        il == 4 || il == 8,
        cols % 256 == 0,
        data@.len() == rows * (cols as int / 256) * 210,
        groups == rows / 8,
        0 <= r < groups * 8,
        cpu.aarch64 && cpu.dotprod && il == 8 ==> forall|s: int|
            0 <= s < cols as int / 16 ==> #[trigger] act.bsums@[s] == sum_span(
                |c: int| act.q@[c] as int,
                16 * s,
                16 * s + 16,
            ),
        call_ensures(pack_q6_k_matrix_x8, (data, rows, cols, il), packed),
        bytes@ == packed@,
        call_ensures(gemv_q6_kx8_q8_k, (bytes, act, cols, groups, il, cpu), terms),
    ensures
        ({
            let products =
                |c: int| {
                    let at = (r * (cols as int / 256) + c / 256) * 210;
                    let e = c % 256;
                    let byte = data[at + (e / 128) * 64 + e % 64] as int;
                    let bits = data[at + 128 + (e / 128) * 32 + e % 32] as int;
                    let high = if e % 128 < 32 {
                        bits % 4
                    } else if e % 128 < 64 {
                        (bits / 4) % 4
                    } else if e % 128 < 96 {
                        (bits / 16) % 4
                    } else {
                        bits / 64
                    };
                    let w = (if e % 128 < 64 { byte % 16 } else { byte / 16 }) + 16 * high - 32;
                    let scale = data[at + 192 + e / 16] as int;
                    let s = if scale < 128 { scale } else { scale - 256 };
                    w * act.q@[c] * s
                };
            &&& sum_span(
                |b: int|
                    sum_span(
                        |t: int| terms.blocks@[(r / 8) * (cols as int / 256) + b].dots@[t * 8 + r % 8] as int,
                        0,
                        terms.blocks@[(r / 8) * (cols as int / 256) + b].dots@.len() as int / 8,
                    ),
                0,
                cols as int / 256,
            ) == sum_span(products, 0, cols as int)
        }),
{
    let nb = cols as int / 256;
    law_q6_k_row_uses_every_activation_once(terms, data@, rows as int, nb, il as int, *act, r, (r / 8) * nb);
}

/// Packing a Q8_0 matrix and multiplying the packed matrix is multiplying the
/// matrix.
pub proof fn law_a_packed_q8_0_matrix_multiplies_as_it_was(
    data: &[u8],
    rows: usize,
    cols: usize,
    packed: Vec<u8>,
    bytes: &[u8],
    act: &Q8Activations,
    groups: usize,
    cpu: &CpuFeatures,
    terms: Terms4,
    r: int,
)
    requires
        cols % 32 == 0,
        data@.len() == rows * (cols as int / 32) * 34,
        groups == rows / 4,
        0 <= r < groups * 4,
        call_ensures(pack_q8_0_matrix_x4, (data, rows, cols, 4usize), packed),
        bytes@ == packed@,
        call_ensures(gemv_q8_0x4_q8_0, (bytes, act, cols, groups, cpu), terms),
    ensures
        ({
            let products = |c: int| {
                let byte = data[(r * (cols as int / 32) + c / 32) * 34 + 2 + c % 32] as int;
                (if byte < 128 { byte } else { byte - 256 }) * act.q@[c]
            };
            sum_span(
                |b: int|
                    sum_span(
                        |t: int| terms.blocks@[(r / 4) * (cols as int / 32) + b]@[t * 4 + r % 4] as int,
                        0,
                        terms.blocks@[(r / 4) * (cols as int / 32) + b]@.len() as int / 4,
                    ),
                0,
                cols as int / 32,
            ) == sum_span(products, 0, cols as int)
        }),
{
    let nb = cols as int / 32;
    law_q8_0_row_uses_every_activation_once(terms, data@, rows as int, nb, act.q@, r, (r / 4) * nb);
}

/// Packing a Q4_0 matrix and multiplying the packed matrix is multiplying the
/// matrix.
pub proof fn law_a_packed_q4_0_matrix_multiplies_as_it_was(
    data: &[u8],
    rows: usize,
    cols: usize,
    packed: Vec<u8>,
    bytes: &[u8],
    act: &Q8Activations,
    groups: usize,
    cpu: &CpuFeatures,
    terms: Terms4,
    r: int,
)
    requires
        cols % 32 == 0,
        data@.len() == rows * (cols as int / 32) * 18,
        groups == rows / 4,
        0 <= r < groups * 4,
        call_ensures(pack_q4_0_matrix_x4, (data, rows, cols, 4usize), packed),
        bytes@ == packed@,
        call_ensures(gemv_q4_0x4_q8_0, (bytes, act, cols, groups, cpu), terms),
    ensures
        ({
            let products = |c: int| {
                let at = (r * (cols as int / 32) + c / 32) * 18 + 2;
                let w = if c % 32 < 16 {
                    data[at + c % 32] as int % 16 - 8
                } else {
                    data[at + c % 32 - 16] as int / 16 - 8
                };
                w * act.q@[c]
            };
            sum_span(
                |b: int|
                    sum_span(
                        |t: int| terms.blocks@[(r / 4) * (cols as int / 32) + b]@[t * 4 + r % 4] as int,
                        0,
                        terms.blocks@[(r / 4) * (cols as int / 32) + b]@.len() as int / 4,
                    ),
                0,
                cols as int / 32,
            ) == sum_span(products, 0, cols as int)
        }),
{
    let nb = cols as int / 32;
    law_q4_0_row_uses_every_activation_once(terms, data@, rows as int, nb, act.q@, r, (r / 4) * nb);
}

/// A batch product gives every activation row its own sums, in the order of
/// the rows.
pub proof fn law_every_activation_gets_its_own_sums(
    out: Seq<KTerms>,
    fmt: KQuant,
    bytes: Seq<u8>,
    acts: Seq<Q8KActivations>,
    nb: int,
    il: int,
    kernel: Kernel,
    a: int,
)
    requires
        gemm_sums(out, fmt, bytes, acts, nb, il, kernel),
        0 <= a < acts.len(),
    ensures
        out.len() == acts.len(),
        out[a].kernel == kernel,
        out[a].are_of(fmt, bytes, il, acts[a]@, nb, 1),
        acts[a]@.q == acts[a].q@,
        acts[a]@.bsums == acts[a].bsums@,
{
}

/// The packed block behind the sums of column block `b` of row `r`, and that
/// its products and mins are the row's own.
#[verifier::spinoff_prover]
#[verifier::rlimit(60)]
proof fn lemma_packed_block_of(
    terms: KTerms,
    fmt: KQuant,
    data: Seq<u8>,
    rows: int,
    nb: int,
    il: int,
    act: Q8KActivations,
    r: int,
    first: int,
    b: int,
) -> (blk: BlockRef)
    requires
        il == 4 || il == 8,
        is_matrix(fmt, data, rows, nb),
        0 <= r < (rows / 8) * 8,
        0 <= b < nb,
        ({
            let packed = packed_matrix(fmt, data, rows, nb, il);
            ||| first == (r / 8) * nb && terms.are_of(fmt, packed, il, act@, nb, rows / 8)
            ||| first == 0 && terms.are_of(fmt, group_bytes(fmt, packed, r / 8, nb), il, act@, nb, 1)
        }),
    ensures
        blk.fmt == fmt,
        blk.il == il,
        terms.blocks@[first + b].are_of(blk, terms.kernel, act@, b),
        ({
            let at = (r * nb + b) * fmt.row_bytes();
            let row = data.subrange(at, at + fmt.row_bytes());
            &&& forall|e: int|
                0 <= e < 256 ==> #[trigger] elem_fn(blk, r % 8, act@, b)(e) == row_fn(fmt, row, act@, b)(e)
            &&& fmt != KQuant::Q6K ==> forall|sb: int|
                0 <= sb < 8 ==> #[trigger] min_fn(blk, r % 8, act@, b)(sb) == row_min_fn(fmt, row, act@, b)(sb)
        }),
{
    let (g, j) = (r / 8, r % 8);
    let unit = fmt.packed_bytes();
    let packed = packed_matrix(fmt, data, rows, nb, il);
    let at = (r * nb + b) * fmt.row_bytes();
    let row = data.subrange(at, at + fmt.row_bytes());
    let (bytes, k) = if first == g * nb && terms.are_of(fmt, packed, il, act@, nb, rows / 8) {
        (packed, g * nb + b)
    } else {
        (group_bytes(fmt, packed, g, nb), b)
    };
    lemma_block_bytes(fmt, data, rows, nb, il, g, b);
    let group = group_rows(fmt, data, nb, g, b);
    assert(g * 8 + j == r);
    assert(group[j] == row);
    let blk = matrix_block(fmt, bytes, il, k);
    lemma_block_in_matrix(nb, rows / 8, unit, g, b);
    lemma_block_index(nb, g, b);
    lemma_block_index(nb, 0, b);
    assert(1 * nb == nb);
    assert(first + b == k);
    assert(k % nb == b);
    assert(terms.blocks@[k].are_of(blk, terms.kernel, act@, b));
    let (have, f) = (elem_fn(blk, j, act@, b), row_fn(fmt, row, act@, b));
    let small = packed_block(fmt, group, il);
    assert forall|e: int| 0 <= e < 256 implies #[trigger] have(e) == f(e) by {
        lemma_block_moves(fmt, bytes, k * unit, small, il, j, e);
        law_packed_block_keeps_every_row(fmt, group, il, j, e);
    }
    if fmt != KQuant::Q6K {
        let (mins, m) = (min_fn(blk, j, act@, b), row_min_fn(fmt, row, act@, b));
        assert forall|sb: int| 0 <= sb < 8 implies #[trigger] mins(sb) == m(sb) by {
            let e = sb * 32;
            assert(fmt.sub_of(e) == sb);
            lemma_block_moves(fmt, bytes, k * unit, small, il, j, e);
            law_packed_block_keeps_every_row(fmt, group, il, j, e);
        }
    }
    blk
}

/// Where a scalar run starts, and that it and its high half stay inside the
/// block.
proof fn lemma_run_place(fmt: KQuant, il: int, t: int)
    requires
        il == 4 || il == 8,
        0 <= t < if il == 4 { 32int } else { 16 },
    ensures
        ({
            let lo = run_start(fmt, il, t);
            &&& lo == (if fmt == KQuant::Q6K {
                if il == 4 {
                    (t / 16) * 128 + (t % 16) * 4
                } else {
                    (t / 8) * 128 + (t % 8) * 8
                }
            } else {
                if il == 4 {
                    (t / 8) * 64 + (t % 8) * 4
                } else {
                    (t / 4) * 64 + (t % 4) * 8
                }
            })
            &&& nibble_stride(fmt) == (if fmt == KQuant::Q6K {
                64int
            } else {
                32
            })
            &&& 0 <= lo
            &&& lo + nibble_stride(fmt) + il <= 256
        }),
{
}

/// The scalar kernel hands back one sum per run of `il` weights, taken
/// together with the run that the high nibbles of the same bytes hold.
#[verifier::spinoff_prover]
#[verifier::rlimit(60)]
pub proof fn law_scalar_sums_are_runs(
    terms: KTerms,
    fmt: KQuant,
    data: Seq<u8>,
    rows: int,
    nb: int,
    il: int,
    act: Q8KActivations,
    r: int,
    first: int,
    b: int,
    t: int,
)
    requires
        il == 4 || il == 8,
        is_matrix(fmt, data, rows, nb),
        0 <= r < (rows / 8) * 8,
        0 <= b < nb,
        ({
            let packed = packed_matrix(fmt, data, rows, nb, il);
            ||| first == (r / 8) * nb && terms.are_of(fmt, packed, il, act@, nb, rows / 8)
            ||| first == 0 && terms.are_of(fmt, group_bytes(fmt, packed, r / 8, nb), il, act@, nb, 1)
        }),
        terms.kernel == Kernel::Scalar,
        0 <= t < if il == 4 { 32int } else { 16 },
    ensures
        ({
            let block = terms.blocks@[first + b];
            let at = (r * nb + b) * fmt.row_bytes();
            let f = row_fn(fmt, data.subrange(at, at + fmt.row_bytes()), act@, b);
            let half = if fmt == KQuant::Q6K { 64int } else { 32 };
            let lo = if fmt == KQuant::Q6K {
                if il == 4 {
                    (t / 16) * 128 + (t % 16) * 4
                } else {
                    (t / 8) * 128 + (t % 8) * 8
                }
            } else {
                if il == 4 {
                    (t / 8) * 64 + (t % 8) * 4
                } else {
                    (t / 4) * 64 + (t % 4) * 8
                }
            };
            &&& block.dots@.len() == 8 * if il == 4 { 32int } else { 16 }
            &&& block.dots@[t * 8 + r % 8] == sum_span(f, lo, lo + il) + sum_span(f, lo + half, lo + half + il)
        }),
{
    let blk = lemma_packed_block_of(terms, fmt, data, rows, nb, il, act, r, first, b);
    let block = terms.blocks@[first + b];
    let at = (r * nb + b) * fmt.row_bytes();
    let (have, f) = (elem_fn(blk, r % 8, act@, b), row_fn(fmt, data.subrange(at, at + fmt.row_bytes()), act@, b));
    let half = nibble_stride(fmt);
    let lo = run_start(fmt, il, t);
    let i = t * 8 + r % 8;
    assert(i % 8 == r % 8 && i / 8 == t);
    assert(block.dots@[i] == dot_part(blk, terms.kernel, r % 8, act@, b, t));
    lemma_run_place(fmt, il, t);
    assert forall|e: int| 0 <= e < 256 implies #[trigger] have(e) == f(e) by {}
    lemma_sum_congruent(have, f, lo, lo + il);
    lemma_sum_congruent(have, f, lo + half, lo + half + il);
}

/// The vector kernels hand back one sum per stretch of nibble bytes, per
/// sub-block of 32, or for the whole block.
#[verifier::spinoff_prover]
#[verifier::rlimit(60)]
pub proof fn law_vector_sums_are_stretches(
    terms: KTerms,
    fmt: KQuant,
    data: Seq<u8>,
    rows: int,
    nb: int,
    il: int,
    act: Q8KActivations,
    r: int,
    first: int,
    b: int,
    t: int,
)
    requires
        il == 4 || il == 8,
        is_matrix(fmt, data, rows, nb),
        0 <= r < (rows / 8) * 8,
        0 <= b < nb,
        ({
            let packed = packed_matrix(fmt, data, rows, nb, il);
            ||| first == (r / 8) * nb && terms.are_of(fmt, packed, il, act@, nb, rows / 8)
            ||| first == 0 && terms.are_of(fmt, group_bytes(fmt, packed, r / 8, nb), il, act@, nb, 1)
        }),
        terms.kernel != Kernel::Scalar,
        0 <= t < terms.blocks@[first + b].dots@.len() as int / 8,
    ensures
        ({
            let block = terms.blocks@[first + b];
            let at = (r * nb + b) * fmt.row_bytes();
            let f = row_fn(fmt, data.subrange(at, at + fmt.row_bytes()), act@, b);
            let w = if terms.kernel == Kernel::Sdot {
                if fmt == KQuant::Q6K { 128int } else { 64 }
            } else if terms.kernel == Kernel::Dot8x8 && fmt != KQuant::Q6K {
                32
            } else {
                256
            };
            &&& block.dots@.len() == 8 * (256int / w)
            &&& terms.kernel != Kernel::Dot8x8 || fmt != KQuant::Q6K ==> block.dots@[t * 8 + r % 8] == sum_span(
                f,
                t * w,
                t * w + w,
            )
        }),
{
    let blk = lemma_packed_block_of(terms, fmt, data, rows, nb, il, act, r, first, b);
    let block = terms.blocks@[first + b];
    let at = (r * nb + b) * fmt.row_bytes();
    let (have, f) = (elem_fn(blk, r % 8, act@, b), row_fn(fmt, data.subrange(at, at + fmt.row_bytes()), act@, b));
    let half = nibble_stride(fmt);
    let i = t * 8 + r % 8;
    assert(i % 8 == r % 8 && i / 8 == t);
    assert(block.dots@[i] == dot_part(blk, terms.kernel, r % 8, act@, b, t));
    assert forall|e: int| 0 <= e < 256 implies #[trigger] have(e) == f(e) by {}
    if terms.kernel == Kernel::Sdot {
        lemma_sum_congruent(have, f, t * 2 * half, t * 2 * half + 2 * half);
    } else if terms.kernel == Kernel::Dot8x8 {
        if fmt != KQuant::Q6K {
            lemma_sum_congruent(have, f, t * 32, t * 32 + 32);
        }
    } else {
        lemma_sum_congruent(have, f, 0, 256);
    }
}

/// Mins are handed back singly by the scalar kernel, in pairs by the one that
/// sums sub-blocks, and all together by the others; Q6_K has none.
#[verifier::spinoff_prover]
#[verifier::rlimit(60)]
pub proof fn law_mins_are_grouped_by_their_kernel(
    terms: KTerms,
    fmt: KQuant,
    data: Seq<u8>,
    rows: int,
    nb: int,
    il: int,
    act: Q8KActivations,
    r: int,
    first: int,
    b: int,
    t: int,
)
    requires
        il == 4 || il == 8,
        is_matrix(fmt, data, rows, nb),
        0 <= r < (rows / 8) * 8,
        0 <= b < nb,
        ({
            let packed = packed_matrix(fmt, data, rows, nb, il);
            ||| first == (r / 8) * nb && terms.are_of(fmt, packed, il, act@, nb, rows / 8)
            ||| first == 0 && terms.are_of(fmt, group_bytes(fmt, packed, r / 8, nb), il, act@, nb, 1)
        }),
        fmt != KQuant::Q6K,
        0 <= t < terms.blocks@[first + b].mins@.len() as int / 8,
    ensures
        ({
            let block = terms.blocks@[first + b];
            let at = (r * nb + b) * fmt.row_bytes();
            let m = row_min_fn(fmt, data.subrange(at, at + fmt.row_bytes()), act@, b);
            let w = if terms.kernel == Kernel::Scalar {
                1int
            } else if terms.kernel == Kernel::Dot8x8 {
                2
            } else {
                8
            };
            &&& block.mins@.len() == 8 * (8int / w)
            &&& block.mins@[t * 8 + r % 8] == sum_span(m, t * w, t * w + w)
        }),
{
    let blk = lemma_packed_block_of(terms, fmt, data, rows, nb, il, act, r, first, b);
    let block = terms.blocks@[first + b];
    let at = (r * nb + b) * fmt.row_bytes();
    let (mins, m) = (min_fn(blk, r % 8, act@, b), row_min_fn(fmt, data.subrange(at, at + fmt.row_bytes()), act@, b));
    let i = t * 8 + r % 8;
    assert(i % 8 == r % 8 && i / 8 == t);
    assert(block.mins@[i] == min_part(blk, terms.kernel, r % 8, act@, b, t));
    assert forall|sb: int| 0 <= sb < 8 implies #[trigger] mins(sb) == m(sb) by {}
    let w = min_width(terms.kernel);
    lemma_sum_congruent(mins, m, t * w, t * w + w);
}

/// Where the bytes of a row-group's column block stand, in the packed matrix
/// and in the group alone.
proof fn lemma_block_bytes(fmt: KQuant, data: Seq<u8>, rows: int, nb: int, il: int, g: int, b: int)
    requires
        il == 4 || il == 8,
        is_matrix(fmt, data, rows, nb),
        0 <= g < rows / 8,
        0 <= b < nb,
    ensures
        ({
            let unit = fmt.packed_bytes();
            let packed = packed_matrix(fmt, data, rows, nb, il);
            let group = group_rows(fmt, data, nb, g, b);
            let small = packed_block(fmt, group, il);
            &&& group.len() == 8
            &&& forall|i: int| 0 <= i < 8 ==> #[trigger] group[i].len() == fmt.row_bytes()
            &&& forall|t: int|
                0 <= t < unit ==> #[trigger] packed[(g * nb + b) * unit + t] == small[t]
            &&& forall|t: int|
                0 <= t < unit ==> #[trigger] group_bytes(fmt, packed, g, nb)[b * unit + t] == small[t]
        }),
{
    let unit = fmt.packed_bytes();
    let packed = packed_matrix(fmt, data, rows, nb, il);
    let group = group_rows(fmt, data, nb, g, b);
    let small = packed_block(fmt, group, il);
    lemma_block_in_matrix(nb, rows / 8, unit, g, b);
    lemma_block_index(nb, g, b);
    assert forall|i: int| 0 <= i < 8 implies #[trigger] group[i].len() == fmt.row_bytes() by {
        lemma_block_in_matrix(nb, rows, fmt.row_bytes(), g * 8 + i, b);
    }
    let whole = g * nb + b;
    assert forall|t: int| 0 <= t < unit implies #[trigger] packed[whole * unit + t] == small[t] by {
        lemma_byte_index(unit, whole, t);
    }
    let bytes = group_bytes(fmt, packed, g, nb);
    let start = g * nb * unit;
    lemma_block_in_matrix(nb, rows / 8, unit, g, 0);
    assert((g * nb + 0) * unit == start);
    assert(whole * unit == start + b * unit) by (nonlinear_arith)
        requires
            whole == g * nb + b,
            start == g * nb * unit,
    ;
    assert(b * unit + unit <= nb * unit && 0 <= b * unit) by (nonlinear_arith)
        requires
            0 <= b < nb,
            0 <= unit,
    ;
    assert(start + nb * unit <= packed.len()) by (nonlinear_arith)
        requires
            start == g * nb * unit,
            packed.len() == (rows / 8) * nb * unit,
            g + 1 <= rows / 8,
            0 <= nb,
            0 <= unit,
    ;
    assert forall|t: int| 0 <= t < unit implies #[trigger] bytes[b * unit + t] == small[t] by {
        assert(bytes[b * unit + t] == packed[whole * unit + t]);
    }
}

/// The scalar kernel hands back one sum per run of four stored bytes of a
/// four-row block, the dot-product kernel one for the whole block.
#[verifier::spinoff_prover]
#[verifier::rlimit(60)]
pub proof fn law_four_row_sums_are_runs(
    terms: Terms4,
    fmt: Quant4,
    data: Seq<u8>,
    rows: int,
    nb: int,
    q: Seq<i8>,
    g: int,
    j: int,
    b: int,
    t: int,
)
    requires
        is_matrix4(fmt, data, rows, nb),
        0 <= g < rows / 4,
        0 <= j < 4,
        0 <= b < nb,
        terms.are_of(fmt, packed_matrix4(fmt, data, rows, nb, 4), q, nb, rows / 4),
        0 <= t < terms.blocks@[g * nb + b]@.len() as int / 4,
    ensures
        ({
            let dots = terms.blocks@[g * nb + b]@;
            let at = ((4 * g + j) * nb + b) * fmt.row_bytes();
            let f = row_fn4(fmt, data.subrange(at, at + fmt.row_bytes()), q, b);
            &&& terms.kernel == Kernel::Scalar && fmt == Quant4::Q80 ==> dots.len() == 32 && dots[t * 4 + j]
                == sum_span(f, 4 * t, 4 * t + 4)
            &&& terms.kernel == Kernel::Scalar && fmt == Quant4::Q40 ==> dots.len() == 16 && dots[t * 4 + j]
                == sum_span(f, 4 * t, 4 * t + 4) + sum_span(f, 4 * t + 16, 4 * t + 20)
            &&& terms.kernel != Kernel::Scalar ==> dots.len() == 4 && dots[t * 4 + j] == sum_span(f, 0, 32)
        }),
{
    let unit = fmt.packed_bytes();
    let packed = packed_matrix4(fmt, data, rows, nb, 4);
    let group = group_rows4(fmt, data, nb, g, b);
    let small = packed_block4(fmt, group, 4);
    let k = g * nb + b;
    lemma_block_in_matrix(nb, rows / 4, unit, g, b);
    lemma_block_index(nb, g, b);
    assert forall|i: int| 0 <= i < 4 implies #[trigger] group[i].len() == fmt.row_bytes() by {
        lemma_block_in_matrix(nb, rows, fmt.row_bytes(), g * 4 + i, b);
    }
    assert forall|u: int| 0 <= u < unit implies #[trigger] packed[k * unit + u] == small[u] by {
        lemma_byte_index(unit, k, u);
    }
    assert(terms.block_is(fmt, packed, q, k, b));
    let i = t * 4 + j;
    assert(i % 4 == j && i / 4 == t);
    let (have, f) = (elem_fn4(fmt, packed, k * unit, j, q, b), row_fn4(fmt, group[j], q, b));
    assert forall|e: int| 0 <= e < 32 implies #[trigger] have(e) == f(e) by {
        law_packed_block4_keeps_every_row(fmt, group, 4, j, e);
        lemma_interleaved_place(4, 4, j, fmt.pos(e));
        let u = 8 + interleaved_at(4, 4, j, fmt.pos(e));
        assert(0 <= u < small.len());
        assert(packed[k * unit + u] == small[u]);
    }
    assert(terms.blocks@[k]@[i] == dot_fn4(fmt, terms.kernel, packed, k * unit, j, q, b)(t));
    if terms.kernel == Kernel::Scalar {
        lemma_sum_congruent(have, f, t * 4, t * 4 + 4);
        if fmt == Quant4::Q40 {
            lemma_sum_congruent(have, f, t * 4 + 16, t * 4 + 20);
        }
    } else {
        lemma_sum_congruent(have, f, 0, 32);
    }
}

/// Where Q6_K weights are multiplied without their offset of 32, the offset
/// is taken out through the recorded sums, each under its own scale, whatever
/// those sums are.
#[verifier::spinoff_prover]
#[verifier::rlimit(60)]
pub proof fn law_the_offset_goes_through_the_recorded_sums(
    terms: KTerms,
    data: Seq<u8>,
    rows: int,
    nb: int,
    il: int,
    act: Q8KActivations,
    r: int,
    first: int,
    b: int,
)
    requires
        il == 4 || il == 8,
        is_matrix(KQuant::Q6K, data, rows, nb),
        0 <= r < (rows / 8) * 8,
        0 <= b < nb,
        ({
            let packed = packed_matrix(KQuant::Q6K, data, rows, nb, il);
            ||| first == (r / 8) * nb && terms.are_of(KQuant::Q6K, packed, il, act@, nb, rows / 8)
            ||| first == 0 && terms.are_of(KQuant::Q6K, group_bytes(KQuant::Q6K, packed, r / 8, nb), il, act@, nb, 1)
        }),
        terms.kernel == Kernel::Dot8x8,
    ensures
        ({
            let at = (r * nb + b) * 210;
            let row = data.subrange(at, at + 210);
            let raw = |e: int| (row_weight(KQuant::Q6K, row, e) + 32) * act.q@[b * 256 + e] * row_scale(KQuant::Q6K, row, e / 16);
            let bias = |s: int| act.bsums@[b * 16 + s] * row_scale(KQuant::Q6K, row, s);
            &&& terms.blocks@[first + b].dots@.len() == 8
            &&& terms.blocks@[first + b].dots@[r % 8] == sum_span(raw, 0, 256) - 32 * sum_span(bias, 0, 16)
        }),
{
    let fmt = KQuant::Q6K;
    let (g, j) = (r / 8, r % 8);
    let unit = fmt.packed_bytes();
    let packed = packed_matrix(fmt, data, rows, nb, il);
    let at = (r * nb + b) * 210;
    let row = data.subrange(at, at + 210);
    let (bytes, k) = if first == g * nb && terms.are_of(fmt, packed, il, act@, nb, rows / 8) {
        (packed, g * nb + b)
    } else {
        (group_bytes(fmt, packed, g, nb), b)
    };
    lemma_block_bytes(fmt, data, rows, nb, il, g, b);
    let group = group_rows(fmt, data, nb, g, b);
    assert(g * 8 + j == r);
    assert(group[j] == row);
    let blk = matrix_block(fmt, bytes, il, k);
    lemma_block_in_matrix(nb, rows / 8, unit, g, b);
    lemma_block_index(nb, g, b);
    lemma_block_index(nb, 0, b);
    assert(1 * nb == nb);
    assert(first + b == k);
    assert(k % nb == b);
    let block = terms.blocks@[k];
    assert(block.are_of(blk, terms.kernel, act@, b));
    assert(j % 8 == j && j / 8 == 0);
    assert(block.dots@[j] == dot_part(blk, terms.kernel, j, act@, b, 0));
    let raw = |e: int| (row_weight(KQuant::Q6K, row, e) + 32) * act.q@[b * 256 + e] * row_scale(KQuant::Q6K, row, e / 16);
    let bias = |s: int| act.bsums@[b * 16 + s] * row_scale(KQuant::Q6K, row, s);
    let small = packed_block(fmt, group, il);
    let (have, other) = (raw_fn(blk, j, act@, b), bias_fn(blk, j, act@, b));
    assert forall|e: int| 0 <= e < 256 implies #[trigger] have(e) == raw(e) by {
        lemma_block_moves(fmt, bytes, k * unit, small, il, j, e);
        law_packed_block_keeps_every_row(fmt, group, il, j, e);
    }
    assert forall|s: int| 0 <= s < 16 implies #[trigger] other(s) == bias(s) by {
        let e = 16 * s;
        assert(fmt.sub_of(e) == s);
        lemma_block_moves(fmt, bytes, k * unit, small, il, j, e);
        law_packed_block_keeps_every_row(fmt, group, il, j, e);
    }
    lemma_sum_congruent(have, raw, 0, 256);
    lemma_sum_congruent(other, bias, 0, 16);
}

} // verus!
