//! Products over one row-group of a packed matrix, as the rows they come from.
use vstd::prelude::*;
use crate::quant::blocks::KQuant;
use crate::quant::kernels::{KTerms, Kernel, Q8KActivations, Q8KActsX4};
use crate::quant::matmul::{
    gemm_q4_kx8_group, gemm_q4_kx8_group_x4, gemm_q5_kx8_group, gemm_q5_kx8_group_x4, gemm_q6_kx8_group,
    gemm_q6_kx8_group_x4, gemv_q4_kx8_group, gemv_q5_kx8_group, gemv_q6_kx8_group, group_bytes,
    law_quad_lane_is_its_row, prepare_q8_k_acts_x4, CpuFeatures,
};
use crate::quant::product_laws::{
    law_q4_0_row_uses_every_activation_once, law_q4_k_row_uses_every_activation_once,
    law_q5_k_row_uses_every_activation_once, law_q6_k_row_uses_every_activation_once,
    law_q8_0_row_uses_every_activation_once,
};
use crate::quant::repack::{pack_q4_k_matrix_x8, pack_q5_k_matrix_x8, pack_q6_k_matrix_x8};
use crate::quant::rows4::{
    gemm_q4_0x4_group, gemm_q8_0x4_group, gemv_q4_0x4_group, gemv_q8_0x4_group, pack_q4_0_matrix_x4,
    pack_q8_0_matrix_x4, Q8Activations, Terms4,
};
use crate::quant::sums::sum_span;

verus! {

/// A row-group of a packed Q4_K matrix multiplied by itself is its rows
/// multiplied: the sums handed back for row `r` add up to its own weights
/// times the activations, column by column.
#[verifier::spinoff_prover]
#[verifier::rlimit(60)]
pub proof fn law_a_q4_k_group_multiplies_as_its_rows(
    data: &[u8],
    rows: usize,
    cols: usize,
    il: usize,
    packed: Vec<u8>,
    bytes: &[u8],
    act: &Q8KActivations,
    groups: usize,
    group: usize,
    cpu: &CpuFeatures,
    terms: KTerms,
    r: int,
)
    requires
        il == 4 || il == 8,
        cols % 256 == 0,
        data@.len() == rows * (cols as int / 256) * 144,
        groups == rows / 8,
        0 <= r < groups * 8,
        group == r / 8,
        call_ensures(pack_q4_k_matrix_x8, (data, rows, cols, il), packed),
        bytes@ == packed@,
        call_ensures(gemv_q4_kx8_group, (bytes, group, act, cols, il, cpu), terms),
    ensures
        ({
            let first = 0int;
            let products =
                |c: int| {
                    let at = (r * (cols as int / 256) + c / 256) * 144;
                    let e = c % 256;
                    let i = e / 32;
                    let byte = data[at + 16 + (e / 64) * 32 + e % 32] as int;
                    let w = if e % 64 < 32 { byte % 16 } else { byte / 16 };
                    let s = if i < 4 {
                        data[at + 4 + i] as int % 64
                    } else {
                        data[at + 8 + i] as int % 16 + 16 * (data[at + i] as int / 64)
                    };
                    w * act.q@[c] * s
                };
            let mins =
                |q: int| {
                    let at = (r * (cols as int / 256) + q / 8) * 144;
                    let i = q % 8;
                    let m = if i < 4 {
                        data[at + 8 + i] as int % 64
                    } else {
                        data[at + 8 + i] as int / 16 + 16 * (data[at + 4 + i] as int / 64)
                    };
                    m * (act.bsums@[2 * q] + act.bsums@[2 * q + 1])
                };
            &&& sum_span(
                |b: int|
                    sum_span(
                        |t: int| terms.blocks@[first + b].dots@[t * 8 + r % 8] as int,
                        0,
                        terms.blocks@[first + b].dots@.len() as int / 8,
                    ),
                0,
                cols as int / 256,
            ) == sum_span(products, 0, cols as int)
            &&& sum_span(
                |b: int|
                    sum_span(
                        |t: int| terms.blocks@[first + b].mins@[t * 8 + r % 8] as int,
                        0,
                        terms.blocks@[first + b].mins@.len() as int / 8,
                    ),
                0,
                cols as int / 256,
            ) == sum_span(mins, 0, cols as int / 32)
        }),
{
    let nb = cols as int / 256;
    law_q4_k_row_uses_every_activation_once(terms, data@, rows as int, nb, il as int, *act, r, 0);
}

/// A batch of activations multiplied with a row-group of a packed Q4_K matrix
/// is each of them multiplied with its rows.
#[verifier::spinoff_prover]
#[verifier::rlimit(60)]
pub proof fn law_a_q4_k_group_multiplies_every_activation(
    data: &[u8],
    rows: usize,
    cols: usize,
    il: usize,
    packed: Vec<u8>,
    bytes: &[u8],
    groups: usize,
    group: usize,
    acts: &[Q8KActivations],
    a: int,
    cpu: &CpuFeatures,
    out: Vec<KTerms>,
    r: int,
)
    requires
        il == 4 || il == 8,
        cols % 256 == 0,
        data@.len() == rows * (cols as int / 256) * 144,
        groups == rows / 8,
        0 <= r < groups * 8,
        group == r / 8,
        call_ensures(pack_q4_k_matrix_x8, (data, rows, cols, il), packed),
        bytes@ == packed@,
        call_ensures(gemm_q4_kx8_group, (bytes, group, acts, cols, il, cpu), out),
        0 <= a < acts@.len(),
    ensures
        ({
            let first = 0int;
            let products =
                |c: int| {
                    let at = (r * (cols as int / 256) + c / 256) * 144;
                    let e = c % 256;
                    let i = e / 32;
                    let byte = data[at + 16 + (e / 64) * 32 + e % 32] as int;
                    let w = if e % 64 < 32 { byte % 16 } else { byte / 16 };
                    let s = if i < 4 {
                        data[at + 4 + i] as int % 64
                    } else {
                        data[at + 8 + i] as int % 16 + 16 * (data[at + i] as int / 64)
                    };
                    w * acts@[a].q@[c] * s
                };
            let mins =
                |q: int| {
                    let at = (r * (cols as int / 256) + q / 8) * 144;
                    let i = q % 8;
                    let m = if i < 4 {
                        data[at + 8 + i] as int % 64
                    } else {
                        data[at + 8 + i] as int / 16 + 16 * (data[at + 4 + i] as int / 64)
                    };
                    m * (acts@[a].bsums@[2 * q] + acts@[a].bsums@[2 * q + 1])
                };
            &&& sum_span(
                |b: int|
                    sum_span(
                        |t: int| out@[a].blocks@[first + b].dots@[t * 8 + r % 8] as int,
                        0,
                        out@[a].blocks@[first + b].dots@.len() as int / 8,
                    ),
                0,
                cols as int / 256,
            ) == sum_span(products, 0, cols as int)
            &&& sum_span(
                |b: int|
                    sum_span(
                        |t: int| out@[a].blocks@[first + b].mins@[t * 8 + r % 8] as int,
                        0,
                        out@[a].blocks@[first + b].mins@.len() as int / 8,
                    ),
                0,
                cols as int / 256,
            ) == sum_span(mins, 0, cols as int / 32)
        }),
{
    let nb = cols as int / 256;
    law_q4_k_row_uses_every_activation_once(out@[a], data@, rows as int, nb, il as int, acts@[a], r, 0);
}

/// A row-group of a packed Q5_K matrix multiplied by itself is its rows
/// multiplied: the sums handed back for row `r` add up to its own weights
/// times the activations, column by column.
#[verifier::spinoff_prover]
#[verifier::rlimit(60)]
pub proof fn law_a_q5_k_group_multiplies_as_its_rows(
    data: &[u8],
    rows: usize,
    cols: usize,
    il: usize,
    packed: Vec<u8>,
    bytes: &[u8],
    act: &Q8KActivations,
    groups: usize,
    group: usize,
    cpu: &CpuFeatures,
    terms: KTerms,
    r: int,
)
    requires
        il == 4 || il == 8,
        cols % 256 == 0,
        data@.len() == rows * (cols as int / 256) * 176,
        groups == rows / 8,
        0 <= r < groups * 8,
        group == r / 8,
        call_ensures(pack_q5_k_matrix_x8, (data, rows, cols, il), packed),
        bytes@ == packed@,
        call_ensures(gemv_q5_kx8_group, (bytes, group, act, cols, il, cpu), terms),
    ensures
        ({
            let first = 0int;
            let products =
                |c: int| {
                    let at = (r * (cols as int / 256) + c / 256) * 176;
                    let e = c % 256;
                    let i = e / 32;
                    let byte = data[at + 48 + (e / 64) * 32 + e % 32] as int;
                    let bits = data[at + 16 + e % 32] as int;
                    let fifth = if i == 0 {
                        bits % 2
                    } else if i == 1 {
                        (bits / 2) % 2
                    } else if i == 2 {
                        (bits / 4) % 2
                    } else if i == 3 {
                        (bits / 8) % 2
                    } else if i == 4 {
                        (bits / 16) % 2
                    } else if i == 5 {
                        (bits / 32) % 2
                    } else if i == 6 {
                        (bits / 64) % 2
                    } else {
                        bits / 128
                    };
                    let w = (if e % 64 < 32 { byte % 16 } else { byte / 16 }) + 16 * fifth;
                    let s = if i < 4 {
                        data[at + 4 + i] as int % 64
                    } else {
                        data[at + 8 + i] as int % 16 + 16 * (data[at + i] as int / 64)
                    };
                    w * act.q@[c] * s
                };
            let mins =
                |q: int| {
                    let at = (r * (cols as int / 256) + q / 8) * 176;
                    let i = q % 8;
                    let m = if i < 4 {
                        data[at + 8 + i] as int % 64
                    } else {
                        data[at + 8 + i] as int / 16 + 16 * (data[at + 4 + i] as int / 64)
                    };
                    m * (act.bsums@[2 * q] + act.bsums@[2 * q + 1])
                };
            &&& sum_span(
                |b: int|
                    sum_span(
                        |t: int| terms.blocks@[first + b].dots@[t * 8 + r % 8] as int,
                        0,
                        terms.blocks@[first + b].dots@.len() as int / 8,
                    ),
                0,
                cols as int / 256,
            ) == sum_span(products, 0, cols as int)
            &&& sum_span(
                |b: int|
                    sum_span(
                        |t: int| terms.blocks@[first + b].mins@[t * 8 + r % 8] as int,
                        0,
                        terms.blocks@[first + b].mins@.len() as int / 8,
                    ),
                0,
                cols as int / 256,
            ) == sum_span(mins, 0, cols as int / 32)
        }),
{
    let nb = cols as int / 256;
    law_q5_k_row_uses_every_activation_once(terms, data@, rows as int, nb, il as int, *act, r, 0);
}

/// A batch of activations multiplied with a row-group of a packed Q5_K matrix
/// is each of them multiplied with its rows.
#[verifier::spinoff_prover]
#[verifier::rlimit(60)]
pub proof fn law_a_q5_k_group_multiplies_every_activation(
    data: &[u8],
    rows: usize,
    cols: usize,
    il: usize,
    packed: Vec<u8>,
    bytes: &[u8],
    groups: usize,
    group: usize,
    acts: &[Q8KActivations],
    a: int,
    cpu: &CpuFeatures,
    out: Vec<KTerms>,
    r: int,
)
    requires
        il == 4 || il == 8,
        cols % 256 == 0,
        data@.len() == rows * (cols as int / 256) * 176,
        groups == rows / 8,
        0 <= r < groups * 8,
        group == r / 8,
        call_ensures(pack_q5_k_matrix_x8, (data, rows, cols, il), packed),
        bytes@ == packed@,
        call_ensures(gemm_q5_kx8_group, (bytes, group, acts, cols, il, cpu), out),
        0 <= a < acts@.len(),
    ensures
        ({
            let first = 0int;
            let products =
                |c: int| {
                    let at = (r * (cols as int / 256) + c / 256) * 176;
                    let e = c % 256;
                    let i = e / 32;
                    let byte = data[at + 48 + (e / 64) * 32 + e % 32] as int;
                    let bits = data[at + 16 + e % 32] as int;
                    let fifth = if i == 0 {
                        bits % 2
                    } else if i == 1 {
                        (bits / 2) % 2
                    } else if i == 2 {
                        (bits / 4) % 2
                    } else if i == 3 {
                        (bits / 8) % 2
                    } else if i == 4 {
                        (bits / 16) % 2
                    } else if i == 5 {
                        (bits / 32) % 2
                    } else if i == 6 {
                        (bits / 64) % 2
                    } else {
                        bits / 128
                    };
                    let w = (if e % 64 < 32 { byte % 16 } else { byte / 16 }) + 16 * fifth;
                    let s = if i < 4 {
                        data[at + 4 + i] as int % 64
                    } else {
                        data[at + 8 + i] as int % 16 + 16 * (data[at + i] as int / 64)
                    };
                    w * acts@[a].q@[c] * s
                };
            let mins =
                |q: int| {
                    let at = (r * (cols as int / 256) + q / 8) * 176;
                    let i = q % 8;
                    let m = if i < 4 {
                        data[at + 8 + i] as int % 64
                    } else {
                        data[at + 8 + i] as int / 16 + 16 * (data[at + 4 + i] as int / 64)
                    };
                    m * (acts@[a].bsums@[2 * q] + acts@[a].bsums@[2 * q + 1])
                };
            &&& sum_span(
                |b: int|
                    sum_span(
                        |t: int| out@[a].blocks@[first + b].dots@[t * 8 + r % 8] as int,
                        0,
                        out@[a].blocks@[first + b].dots@.len() as int / 8,
                    ),
                0,
                cols as int / 256,
            ) == sum_span(products, 0, cols as int)
            &&& sum_span(
                |b: int|
                    sum_span(
                        |t: int| out@[a].blocks@[first + b].mins@[t * 8 + r % 8] as int,
                        0,
                        out@[a].blocks@[first + b].mins@.len() as int / 8,
                    ),
                0,
                cols as int / 256,
            ) == sum_span(mins, 0, cols as int / 32)
        }),
{
    let nb = cols as int / 256;
    law_q5_k_row_uses_every_activation_once(out@[a], data@, rows as int, nb, il as int, acts@[a], r, 0);
}

/// A row-group of a packed Q6_K matrix multiplied by itself is its rows
/// multiplied: the sums handed back for row `r` add up to its own weights
/// times the activations, column by column.
#[verifier::spinoff_prover]
#[verifier::rlimit(60)]
pub proof fn law_a_q6_k_group_multiplies_as_its_rows(
    data: &[u8],
    rows: usize,
    cols: usize,
    il: usize,
    packed: Vec<u8>,
    bytes: &[u8],
    act: &Q8KActivations,
    groups: usize,
    group: usize,
    cpu: &CpuFeatures,
    terms: KTerms,
    r: int,
)
    requires
        il == 4 || il == 8,
        cols % 256 == 0,
        data@.len() == rows * (cols as int / 256) * 210,
        groups == rows / 8,
        0 <= r < groups * 8,
        group == r / 8,
        terms.kernel == Kernel::Dot8x8 ==> forall|s: int|
            0 <= s < cols as int / 16 ==> #[trigger] act.bsums@[s] == sum_span(
                |c: int| act.q@[c] as int,
                16 * s,
                16 * s + 16,
            ),
        call_ensures(pack_q6_k_matrix_x8, (data, rows, cols, il), packed),
        bytes@ == packed@,
        call_ensures(gemv_q6_kx8_group, (bytes, group, act, cols, il, cpu), terms),
    ensures
        ({
            let first = 0int;
            let products =
                |c: int| {
                    let at = (r * (cols as int / 256) + c / 256) * 210;
                    let e = c % 256;
                    let byte = data[at + (e / 128) * 64 + e % 64] as int;
                    let bits = data[at + 128 + (e / 128) * 32 + e % 32] as int;
                    let high = if e % 128 < 32 {
                        bits % 4
                    } else if e % 128 < 64 {
                        (bits / 4) % 4
                    } else if e % 128 < 96 {
                        (bits / 16) % 4
                    } else {
                        bits / 64
                    };
                    let w = (if e % 128 < 64 { byte % 16 } else { byte / 16 }) + 16 * high - 32;
                    let scale = data[at + 192 + e / 16] as int;
                    let s = if scale < 128 { scale } else { scale - 256 };
                    w * act.q@[c] * s
                };
            &&& sum_span(
                |b: int|
                    sum_span(
                        |t: int| terms.blocks@[first + b].dots@[t * 8 + r % 8] as int,
                        0,
                        terms.blocks@[first + b].dots@.len() as int / 8,
                    ),
                0,
                cols as int / 256,
            ) == sum_span(products, 0, cols as int)
        }),
{
    let nb = cols as int / 256;
    law_q6_k_row_uses_every_activation_once(terms, data@, rows as int, nb, il as int, *act, r, 0);
}

/// A batch of activations multiplied with a row-group of a packed Q6_K matrix
/// is each of them multiplied with its rows.
#[verifier::spinoff_prover]
#[verifier::rlimit(60)]
pub proof fn law_a_q6_k_group_multiplies_every_activation(
    data: &[u8],
    rows: usize,
    cols: usize,
    il: usize,
    packed: Vec<u8>,
    bytes: &[u8],
    groups: usize,
    group: usize,
    acts: &[Q8KActivations],
    a: int,
    cpu: &CpuFeatures,
    out: Vec<KTerms>,
    r: int,
)
    requires
        il == 4 || il == 8,
        cols % 256 == 0,
        data@.len() == rows * (cols as int / 256) * 210,
        groups == rows / 8,
        0 <= r < groups * 8,
        group == r / 8,
        out@[a].kernel == Kernel::Dot8x8 ==> forall|s: int|
            0 <= s < cols as int / 16 ==> #[trigger] acts@[a].bsums@[s] == sum_span(
                |c: int| acts@[a].q@[c] as int,
                16 * s,
                16 * s + 16,
            ),
        call_ensures(pack_q6_k_matrix_x8, (data, rows, cols, il), packed),
        bytes@ == packed@,
        call_ensures(gemm_q6_kx8_group, (bytes, group, acts, cols, il, cpu), out),
        0 <= a < acts@.len(),
    ensures
        ({
            let first = 0int;
            let products =
                |c: int| {
                    let at = (r * (cols as int / 256) + c / 256) * 210;
                    let e = c % 256;
                    let byte = data[at + (e / 128) * 64 + e % 64] as int;
                    let bits = data[at + 128 + (e / 128) * 32 + e % 32] as int;
                    let high = if e % 128 < 32 {
                        bits % 4
                    } else if e % 128 < 64 {
                        (bits / 4) % 4
                    } else if e % 128 < 96 {
                        (bits / 16) % 4
                    } else {
                        bits / 64
                    };
                    let w = (if e % 128 < 64 { byte % 16 } else { byte / 16 }) + 16 * high - 32;
                    let scale = data[at + 192 + e / 16] as int;
                    let s = if scale < 128 { scale } else { scale - 256 };
                    w * acts@[a].q@[c] * s
                };
            &&& sum_span(
                |b: int|
                    sum_span(
                        |t: int| out@[a].blocks@[first + b].dots@[t * 8 + r % 8] as int,
                        0,
                        out@[a].blocks@[first + b].dots@.len() as int / 8,
                    ),
                0,
                cols as int / 256,
            ) == sum_span(products, 0, cols as int)
        }),
{
    let nb = cols as int / 256;
    law_q6_k_row_uses_every_activation_once(out@[a], data@, rows as int, nb, il as int, acts@[a], r, 0);
}

/// A row-group of a packed Q8_0 matrix multiplied by itself is its rows
/// multiplied: the sums handed back for row `r` add up to its own weights
/// times the activations, column by column.
#[verifier::spinoff_prover]
#[verifier::rlimit(60)]
pub proof fn law_a_q8_0_group_multiplies_as_its_rows(
    data: &[u8],
    rows: usize,
    cols: usize,
    packed: Vec<u8>,
    bytes: &[u8],
    act: &Q8Activations,
    groups: usize,
    group: usize,
    cpu: &CpuFeatures,
    terms: Terms4,
    r: int,
)
    requires
        cols % 32 == 0,
        data@.len() == rows * (cols as int / 32) * 34,
        groups == rows / 4,
        0 <= r < groups * 4,
        group == r / 4,
        call_ensures(pack_q8_0_matrix_x4, (data, rows, cols, 4usize), packed),
        bytes@ == packed@,
        call_ensures(gemv_q8_0x4_group, (bytes, group, act, cols, cpu), terms),
    ensures
        ({
            let first = 0int;
            let products = |c: int| {
                let byte = data[(r * (cols as int / 32) + c / 32) * 34 + 2 + c % 32] as int;
                (if byte < 128 { byte } else { byte - 256 }) * act.q@[c]
            };
            sum_span(
                |b: int|
                    sum_span(
                        |t: int| terms.blocks@[first + b]@[t * 4 + r % 4] as int,
                        0,
                        terms.blocks@[first + b]@.len() as int / 4,
                    ),
                0,
                cols as int / 32,
            ) == sum_span(products, 0, cols as int)
        }),
{
    let nb = cols as int / 32;
    law_q8_0_row_uses_every_activation_once(terms, data@, rows as int, nb, act.q@, r, 0);
}

/// A batch of activations multiplied with a row-group of a packed Q8_0 matrix
/// is each of them multiplied with its rows.
#[verifier::spinoff_prover]
#[verifier::rlimit(60)]
pub proof fn law_a_q8_0_group_multiplies_every_activation(
    data: &[u8],
    rows: usize,
    cols: usize,
    packed: Vec<u8>,
    bytes: &[u8],
    groups: usize,
    group: usize,
    acts: &[Q8Activations],
    a: int,
    cpu: &CpuFeatures,
    out: Vec<Terms4>,
    r: int,
)
    requires
        cols % 32 == 0,
        data@.len() == rows * (cols as int / 32) * 34,
        groups == rows / 4,
        0 <= r < groups * 4,
        group == r / 4,
        call_ensures(pack_q8_0_matrix_x4, (data, rows, cols, 4usize), packed),
        bytes@ == packed@,
        call_ensures(gemm_q8_0x4_group, (bytes, group, acts, cols, cpu), out),
        0 <= a < acts@.len(),
    ensures
        ({
            let first = 0int;
            let products = |c: int| {
                let byte = data[(r * (cols as int / 32) + c / 32) * 34 + 2 + c % 32] as int;
                (if byte < 128 { byte } else { byte - 256 }) * acts@[a].q@[c]
            };
            sum_span(
                |b: int|
                    sum_span(
                        |t: int| out@[a].blocks@[first + b]@[t * 4 + r % 4] as int,
                        0,
                        out@[a].blocks@[first + b]@.len() as int / 4,
                    ),
                0,
                cols as int / 32,
            ) == sum_span(products, 0, cols as int)
        }),
{
    let nb = cols as int / 32;
    law_q8_0_row_uses_every_activation_once(out@[a], data@, rows as int, nb, acts@[a].q@, r, 0);
}

/// A row-group of a packed Q4_0 matrix multiplied by itself is its rows
/// multiplied: the sums handed back for row `r` add up to its own weights
/// times the activations, column by column.
#[verifier::spinoff_prover]
#[verifier::rlimit(60)]
pub proof fn law_a_q4_0_group_multiplies_as_its_rows(
    data: &[u8],
    rows: usize,
    cols: usize,
    packed: Vec<u8>,
    bytes: &[u8],
    act: &Q8Activations,
    groups: usize,
    group: usize,
    cpu: &CpuFeatures,
    terms: Terms4,
    r: int,
)
    requires
        cols % 32 == 0,
        data@.len() == rows * (cols as int / 32) * 18,
        groups == rows / 4,
        0 <= r < groups * 4,
        group == r / 4,
        call_ensures(pack_q4_0_matrix_x4, (data, rows, cols, 4usize), packed),
        bytes@ == packed@,
        call_ensures(gemv_q4_0x4_group, (bytes, group, act, cols, cpu), terms),
    ensures
        ({
            let first = 0int;
            let products = |c: int| {
                let at = (r * (cols as int / 32) + c / 32) * 18 + 2;
                let w = if c % 32 < 16 {
                    data[at + c % 32] as int % 16 - 8
                } else {
                    data[at + c % 32 - 16] as int / 16 - 8
                };
                w * act.q@[c]
            };
            sum_span(
                |b: int|
                    sum_span(
                        |t: int| terms.blocks@[first + b]@[t * 4 + r % 4] as int,
                        0,
                        terms.blocks@[first + b]@.len() as int / 4,
                    ),
                0,
                cols as int / 32,
            ) == sum_span(products, 0, cols as int)
        }),
{
    let nb = cols as int / 32;
    law_q4_0_row_uses_every_activation_once(terms, data@, rows as int, nb, act.q@, r, 0);
}

/// A batch of activations multiplied with a row-group of a packed Q4_0 matrix
/// is each of them multiplied with its rows.
#[verifier::spinoff_prover]
#[verifier::rlimit(60)]
pub proof fn law_a_q4_0_group_multiplies_every_activation(
    data: &[u8],
    rows: usize,
    cols: usize,
    packed: Vec<u8>,
    bytes: &[u8],
    groups: usize,
    group: usize,
    acts: &[Q8Activations],
    a: int,
    cpu: &CpuFeatures,
    out: Vec<Terms4>,
    r: int,
)
    requires
        cols % 32 == 0,
        data@.len() == rows * (cols as int / 32) * 18,
        groups == rows / 4,
        0 <= r < groups * 4,
        group == r / 4,
        call_ensures(pack_q4_0_matrix_x4, (data, rows, cols, 4usize), packed),
        bytes@ == packed@,
        call_ensures(gemm_q4_0x4_group, (bytes, group, acts, cols, cpu), out),
        0 <= a < acts@.len(),
    ensures
        ({
            let first = 0int;
            let products = |c: int| {
                let at = (r * (cols as int / 32) + c / 32) * 18 + 2;
                let w = if c % 32 < 16 {
                    data[at + c % 32] as int % 16 - 8
                } else {
                    data[at + c % 32 - 16] as int / 16 - 8
                };
                w * acts@[a].q@[c]
            };
            sum_span(
                |b: int|
                    sum_span(
                        |t: int| out@[a].blocks@[first + b]@[t * 4 + r % 4] as int,
                        0,
                        out@[a].blocks@[first + b]@.len() as int / 4,
                    ),
                0,
                cols as int / 32,
            ) == sum_span(products, 0, cols as int)
        }),
{
    let nb = cols as int / 32;
    law_q4_0_row_uses_every_activation_once(out@[a], data@, rows as int, nb, acts@[a].q@, r, 0);
}

/// A quad of activations, interleaved and multiplied with a row-group of a
/// packed Q4_K matrix, is each of them multiplied with its rows.
#[verifier::spinoff_prover]
#[verifier::rlimit(60)]
pub proof fn law_a_q4_k_group_multiplies_a_quad(
    data: &[u8],
    rows: usize,
    cols: usize,
    il: usize,
    packed: Vec<u8>,
    bytes: &[u8],
    groups: usize,
    group: usize,
    acts: &[Q8KActivations],
    made: Q8KActsX4,
    tile: &Q8KActsX4,
    a: int,
    cpu: &CpuFeatures,
    out: Vec<KTerms>,
    r: int,
)
    requires
        il == 8,
        cols % 256 == 0,
        data@.len() == rows * (cols as int / 256) * 144,
        groups == rows / 8,
        0 <= r < groups * 8,
        group == r / 8,
        call_ensures(pack_q4_k_matrix_x8, (data, rows, cols, il), packed),
        bytes@ == packed@,
        call_ensures(prepare_q8_k_acts_x4, (acts, cols), made),
        *tile == made,
        call_ensures(gemm_q4_kx8_group_x4, (bytes, group, tile, cols, il, cpu), out),
        0 <= a < acts@.len(),
    ensures
        ({
            let first = 0int;
            let products =
                |c: int| {
                    let at = (r * (cols as int / 256) + c / 256) * 144;
                    let e = c % 256;
                    let i = e / 32;
                    let byte = data[at + 16 + (e / 64) * 32 + e % 32] as int;
                    let w = if e % 64 < 32 { byte % 16 } else { byte / 16 };
                    let s = if i < 4 {
                        data[at + 4 + i] as int % 64
                    } else {
                        data[at + 8 + i] as int % 16 + 16 * (data[at + i] as int / 64)
                    };
                    w * acts@[a].q@[c] * s
                };
            let mins =
                |q: int| {
                    let at = (r * (cols as int / 256) + q / 8) * 144;
                    let i = q % 8;
                    let m = if i < 4 {
                        data[at + 8 + i] as int % 64
                    } else {
                        data[at + 8 + i] as int / 16 + 16 * (data[at + 4 + i] as int / 64)
                    };
                    m * (acts@[a].bsums@[2 * q] + acts@[a].bsums@[2 * q + 1])
                };
            &&& sum_span(
                |b: int|
                    sum_span(
                        |t: int| out@[a].blocks@[first + b].dots@[t * 8 + r % 8] as int,
                        0,
                        out@[a].blocks@[first + b].dots@.len() as int / 8,
                    ),
                0,
                cols as int / 256,
            ) == sum_span(products, 0, cols as int)
            &&& sum_span(
                |b: int|
                    sum_span(
                        |t: int| out@[a].blocks@[first + b].mins@[t * 8 + r % 8] as int,
                        0,
                        out@[a].blocks@[first + b].mins@.len() as int / 8,
                    ),
                0,
                cols as int / 256,
            ) == sum_span(mins, 0, cols as int / 32)
        }),
{
    let nb = cols as int / 256;
    let bytes_of = group_bytes(KQuant::Q4K, bytes@, group as int, nb);
    law_quad_lane_is_its_row(out@[a], KQuant::Q4K, bytes_of, 8, *tile, acts@, nb, a);
    law_q4_k_row_uses_every_activation_once(out@[a], data@, rows as int, nb, il as int, acts@[a], r, 0);
}

/// A quad of activations, interleaved and multiplied with a row-group of a
/// packed Q5_K matrix, is each of them multiplied with its rows.
#[verifier::spinoff_prover]
#[verifier::rlimit(60)]
pub proof fn law_a_q5_k_group_multiplies_a_quad(
    data: &[u8],
    rows: usize,
    cols: usize,
    il: usize,
    packed: Vec<u8>,
    bytes: &[u8],
    groups: usize,
    group: usize,
    acts: &[Q8KActivations],
    made: Q8KActsX4,
    tile: &Q8KActsX4,
    a: int,
    cpu: &CpuFeatures,
    out: Vec<KTerms>,
    r: int,
)
    requires
        il == 8,
        cols % 256 == 0,
        data@.len() == rows * (cols as int / 256) * 176,
        groups == rows / 8,
        0 <= r < groups * 8,
        group == r / 8,
        call_ensures(pack_q5_k_matrix_x8, (data, rows, cols, il), packed),
        bytes@ == packed@,
        call_ensures(prepare_q8_k_acts_x4, (acts, cols), made),
        *tile == made,
        call_ensures(gemm_q5_kx8_group_x4, (bytes, group, tile, cols, il, cpu), out),
        0 <= a < acts@.len(),
    ensures
        ({
            let first = 0int;
            let products =
                |c: int| {
                    let at = (r * (cols as int / 256) + c / 256) * 176;
                    let e = c % 256;
                    let i = e / 32;
                    let byte = data[at + 48 + (e / 64) * 32 + e % 32] as int;
                    let bits = data[at + 16 + e % 32] as int;
                    let fifth = if i == 0 {
                        bits % 2
                    } else if i == 1 {
                        (bits / 2) % 2
                    } else if i == 2 {
                        (bits / 4) % 2
                    } else if i == 3 {
                        (bits / 8) % 2
                    } else if i == 4 {
                        (bits / 16) % 2
                    } else if i == 5 {
                        (bits / 32) % 2
                    } else if i == 6 {
                        (bits / 64) % 2
                    } else {
                        bits / 128
                    };
                    let w = (if e % 64 < 32 { byte % 16 } else { byte / 16 }) + 16 * fifth;
                    let s = if i < 4 {
                        data[at + 4 + i] as int % 64
                    } else {
                        data[at + 8 + i] as int % 16 + 16 * (data[at + i] as int / 64)
                    };
                    w * acts@[a].q@[c] * s
                };
            let mins =
                |q: int| {
                    let at = (r * (cols as int / 256) + q / 8) * 176;
                    let i = q % 8;
                    let m = if i < 4 {
                        data[at + 8 + i] as int % 64
                    } else {
                        data[at + 8 + i] as int / 16 + 16 * (data[at + 4 + i] as int / 64)
                    };
                    m * (acts@[a].bsums@[2 * q] + acts@[a].bsums@[2 * q + 1])
                };
            &&& sum_span(
                |b: int|
                    sum_span(
                        |t: int| out@[a].blocks@[first + b].dots@[t * 8 + r % 8] as int,
                        0,
                        out@[a].blocks@[first + b].dots@.len() as int / 8,
                    ),
                0,
                cols as int / 256,
            ) == sum_span(products, 0, cols as int)
            &&& sum_span(
                |b: int|
                    sum_span(
                        |t: int| out@[a].blocks@[first + b].mins@[t * 8 + r % 8] as int,
                        0,
                        out@[a].blocks@[first + b].mins@.len() as int / 8,
                    ),
                0,
                cols as int / 256,
            ) == sum_span(mins, 0, cols as int / 32)
        }),
{
    let nb = cols as int / 256;
    let bytes_of = group_bytes(KQuant::Q5K, bytes@, group as int, nb);
    law_quad_lane_is_its_row(out@[a], KQuant::Q5K, bytes_of, 8, *tile, acts@, nb, a);
    law_q5_k_row_uses_every_activation_once(out@[a], data@, rows as int, nb, il as int, acts@[a], r, 0);
}

/// A quad of activations, interleaved and multiplied with a row-group of a
/// packed Q6_K matrix, is each of them multiplied with its rows.
#[verifier::spinoff_prover]
#[verifier::rlimit(60)]
pub proof fn law_a_q6_k_group_multiplies_a_quad(
    data: &[u8],
    rows: usize,
    cols: usize,
    il: usize,
    packed: Vec<u8>,
    bytes: &[u8],
    groups: usize,
    group: usize,
    acts: &[Q8KActivations],
    made: Q8KActsX4,
    tile: &Q8KActsX4,
    a: int,
    cpu: &CpuFeatures,
    out: Vec<KTerms>,
    r: int,
)
    requires
        il == 8,
        cols % 256 == 0,
        data@.len() == rows * (cols as int / 256) * 210,
        groups == rows / 8,
        0 <= r < groups * 8,
        group == r / 8,
        call_ensures(pack_q6_k_matrix_x8, (data, rows, cols, il), packed),
        bytes@ == packed@,
        call_ensures(prepare_q8_k_acts_x4, (acts, cols), made),
        *tile == made,
        call_ensures(gemm_q6_kx8_group_x4, (bytes, group, tile, cols, il, cpu), out),
        0 <= a < acts@.len(),
    ensures
        ({
            let first = 0int;
            let products =
                |c: int| {
                    let at = (r * (cols as int / 256) + c / 256) * 210;
                    let e = c % 256;
                    let byte = data[at + (e / 128) * 64 + e % 64] as int;
                    let bits = data[at + 128 + (e / 128) * 32 + e % 32] as int;
                    let high = if e % 128 < 32 {
                        bits % 4
                    } else if e % 128 < 64 {
                        (bits / 4) % 4
                    } else if e % 128 < 96 {
                        (bits / 16) % 4
                    } else {
                        bits / 64
                    };
                    let w = (if e % 128 < 64 { byte % 16 } else { byte / 16 }) + 16 * high - 32;
                    let scale = data[at + 192 + e / 16] as int;
                    let s = if scale < 128 { scale } else { scale - 256 };
                    w * acts@[a].q@[c] * s
                };
            &&& sum_span(
                |b: int|
                    sum_span(
                        |t: int| out@[a].blocks@[first + b].dots@[t * 8 + r % 8] as int,
                        0,
                        out@[a].blocks@[first + b].dots@.len() as int / 8,
                    ),
                0,
                cols as int / 256,
            ) == sum_span(products, 0, cols as int)
        }),
{
    let nb = cols as int / 256;
    let bytes_of = group_bytes(KQuant::Q6K, bytes@, group as int, nb);
    law_quad_lane_is_its_row(out@[a], KQuant::Q6K, bytes_of, 8, *tile, acts@, nb, a);
    law_q6_k_row_uses_every_activation_once(out@[a], data@, rows as int, nb, il as int, acts@[a], r, 0);
}

} // verus!
