use ferrox::quant::blocks::{
    KQuant, Q4_KX8_BLOCK_BYTES, Q4_KX8_NROWS, Q4_K_BLOCK_BYTES, Q4_K_BLOCK_ELEMS, Q5_KX8_BLOCK_BYTES, Q5_KX8_NROWS,
    Q5_K_BLOCK_BYTES, Q5_K_BLOCK_ELEMS, Q6_KX8_BLOCK_BYTES, Q6_KX8_NROWS, Q6_K_BLOCK_BYTES, Q6_K_BLOCK_ELEMS,
};
use ferrox::quant::kernels::{KTerms, Kernel, Q8KActivations, Q8K_ACTS_X4_NC};
use ferrox::quant::matmul::{
    gemm_q4_kx8_group, gemm_q4_kx8_group_x4, gemm_q5_kx8_group, gemm_q5_kx8_group_x4, gemm_q6_kx8_group,
    gemm_q6_kx8_group_x4, gemv_q4_kx8_group, gemv_q4_kx8_q8_k, gemv_q5_kx8_group, gemv_q5_kx8_q8_k,
    gemv_q6_kx8_group, gemv_q6_kx8_q8_k, prepare_q8_k_acts_x4, q4_kx8_gemm_uses_acts_x4, q4_kx8_interleave,
    q5_kx8_interleave, q6_kx8_interleave, CpuFeatures, Q4_KX8_GEMM_NC, Q5_KX8_GEMM_NC, Q6_KX8_GEMM_NC,
};
use ferrox::quant::repack::{pack_q4_k_matrix_x8, pack_q5_k_matrix_x8, pack_q6_k_matrix_x8};
use ferrox::quant::rows4::{
    gemm_q4_0x4_group, gemm_q8_0x4_group, gemv_q4_0x4_group, gemv_q4_0x4_q8_0, gemv_q8_0x4_group, gemv_q8_0x4_q8_0,
    pack_q4_0_matrix_x4, pack_q8_0_matrix_x4, Q8Activations, Terms4, Q4_0X4_BLOCK_BYTES, Q4_0X4_INTERLEAVE,
    Q4_0X4_NROWS, Q4_0_BLOCK_BYTES, Q4_0_BLOCK_ELEMS, Q8_0X4_BLOCK_BYTES, Q8_0X4_INTERLEAVE, Q8_0X4_NROWS,
    Q8_0_BLOCK_BYTES, Q8_0_BLOCK_ELEMS,
};
use half::f16;

const PLAIN: CpuFeatures =
    CpuFeatures { x86_64: false, avx2_fma: false, aarch64: false, dotprod: false, i8mm: false };
const AVX2: CpuFeatures = CpuFeatures { x86_64: true, avx2_fma: true, ..PLAIN };
const DOTPROD: CpuFeatures = CpuFeatures { aarch64: true, dotprod: true, ..PLAIN };
const I8MM: CpuFeatures = CpuFeatures { i8mm: true, ..DOTPROD };
const EVERY_CPU: [CpuFeatures; 4] = [PLAIN, AVX2, DOTPROD, I8MM];

fn synth_q5_k_row(n_blocks: usize, seed: u8) -> Vec<u8> {
    let mut weights = Vec::with_capacity(n_blocks * Q5_K_BLOCK_BYTES);
    for b in 0..n_blocks {
        weights.extend_from_slice(&f16::from_f32(0.05 + (b as f32 + seed as f32) * 0.01).to_le_bytes());
        weights.extend_from_slice(&f16::from_f32(0.01 + (b as f32 + seed as f32) * 0.002).to_le_bytes());
        for i in 0..12u8 {
            weights.push(20 + i.wrapping_mul(3).wrapping_add(seed));
        }
        for i in 0..32u8 {
            weights.push(i.wrapping_mul(11).wrapping_add(b as u8).wrapping_add(seed));
        }
        for i in 0..128u8 {
            weights.push(i.wrapping_mul(19).wrapping_add(b as u8).wrapping_add(seed));
        }
    }
    weights
}

fn synth_q6_k_row(n_blocks: usize, seed: u8) -> Vec<u8> {
    let mut weights = Vec::with_capacity(n_blocks * Q6_K_BLOCK_BYTES);
    for b in 0..n_blocks {
        for i in 0..128u8 {
            weights.push(i.wrapping_mul(17).wrapping_add(b as u8).wrapping_add(seed));
        }
        for i in 0..64u8 {
            weights.push(i.wrapping_mul(13).wrapping_add(seed).wrapping_add(b as u8));
        }
        for i in 0..16u8 {
            weights.push((20i8).wrapping_add(i as i8).wrapping_add(seed as i8) as u8);
        }
        weights.extend_from_slice(&f16::from_f32(0.04 + (b as f32 + seed as f32) * 0.008).to_le_bytes());
    }
    weights
}

fn synth_q4_k_row(n_blocks: usize, seed: u8) -> Vec<u8> {
    let mut weights = Vec::with_capacity(n_blocks * Q4_K_BLOCK_BYTES);
    for b in 0..n_blocks {
        weights.extend_from_slice(&f16::from_f32(0.05 + (b as f32 + seed as f32) * 0.01).to_le_bytes());
        weights.extend_from_slice(&f16::from_f32(0.01 + (b as f32 + seed as f32) * 0.002).to_le_bytes());
        for i in 0..12u8 {
            weights.push(20 + i.wrapping_mul(3).wrapping_add(seed));
        }
        for i in 0..128u8 {
            weights.push(i.wrapping_mul(17).wrapping_add(b as u8).wrapping_add(seed));
        }
    }
    weights
}

fn synth_q4_0_row(n_blocks: usize, seed: u8) -> Vec<u8> {
    let mut weights = Vec::with_capacity(n_blocks * Q4_0_BLOCK_BYTES);
    for b in 0..n_blocks {
        weights.extend_from_slice(&f16::from_f32(0.05 + (b as f32 + seed as f32) * 0.012).to_le_bytes());
        for i in 0..16u8 {
            weights.push(i.wrapping_mul(23).wrapping_add(b as u8).wrapping_add(seed));
        }
    }
    weights
}

fn synth_q8_0_row(n_blocks: usize, seed: u8) -> Vec<u8> {
    let mut weights = Vec::with_capacity(n_blocks * Q8_0_BLOCK_BYTES);
    for b in 0..n_blocks {
        weights.extend_from_slice(&f16::from_f32(0.04 + (b as f32 + seed as f32) * 0.008).to_le_bytes());
        for i in 0..32u8 {
            let q = ((i as i8).wrapping_mul(3).wrapping_add(seed as i8).wrapping_add(b as i8)) as u8;
            weights.push(q);
        }
    }
    weights
}

fn matrix_of(rows: usize, row: impl Fn(usize) -> Vec<u8>) -> Vec<u8> {
    let mut matrix = Vec::new();
    for r in 0..rows {
        matrix.extend_from_slice(&row(r));
    }
    matrix
}

/// Rounds a row to signed bytes, one scale per run of `block`.
fn quantize(x: &[f32], block: usize) -> (Vec<i8>, Vec<u32>) {
    let mut q = Vec::new();
    let mut d_bits = Vec::new();
    for chunk in x.chunks(block) {
        let amax = chunk.iter().fold(0f32, |m, v| m.max(v.abs()));
        let d = amax / 127.0;
        let inv = if d > 0.0 { 1.0 / d } else { 0.0 };
        q.extend(chunk.iter().map(|v| (v * inv).round() as i8));
        d_bits.push(d.to_bits());
    }
    (q, d_bits)
}

fn quantize_activations_q8(x: &[f32]) -> Q8Activations {
    let (q, d_bits) = quantize(x, 32);
    Q8Activations { q, d_bits }
}

fn quantize_activations_q8_k(x: &[f32]) -> Q8KActivations {
    let (q, d_bits) = quantize(x, 256);
    let bsums = q.chunks(16).map(|run| run.iter().map(|v| *v as i16).sum()).collect();
    Q8KActivations { q, bsums, d_bits }
}

fn f16_at(bytes: &[u8], at: usize) -> f64 {
    f16::from_le_bytes([bytes[at], bytes[at + 1]]).to_f64()
}

fn scale_min(group: &[u8], j: usize) -> (i32, i32) {
    if j < 4 {
        ((group[j] & 63) as i32, (group[j + 4] & 63) as i32)
    } else {
        let scale = (group[j + 4] & 0x0F) | ((group[j - 4] >> 6) << 4);
        let min = (group[j + 4] >> 4) | ((group[j] >> 6) << 4);
        (scale as i32, min as i32)
    }
}

/// A Q4_K or Q5_K row against one activation row, element by element.
fn dot_with_mins(row: &[u8], act: &Q8KActivations, bytes: usize, weight: impl Fn(&[u8], usize) -> i32) -> f64 {
    let mut total = 0f64;
    for (b, blk) in row.chunks(bytes).enumerate() {
        let da = f32::from_bits(act.d_bits[b]) as f64;
        let (mut sum, mut bias) = (0i32, 0i32);
        for sb in 0..8 {
            let (scale, min) = scale_min(&blk[4..16], sb);
            let mut dot = 0i32;
            for i in 0..32 {
                dot += weight(blk, sb * 32 + i) * act.q[b * 256 + sb * 32 + i] as i32;
            }
            sum += scale * dot;
            bias += min * (act.bsums[b * 16 + 2 * sb] as i32 + act.bsums[b * 16 + 2 * sb + 1] as i32);
        }
        total += sum as f64 * f16_at(blk, 0) * da - bias as f64 * f16_at(blk, 2) * da;
    }
    total
}

fn nibble(byte: u8, high: bool) -> i32 {
    (if high { byte >> 4 } else { byte & 0x0F }) as i32
}

fn dot_q4_k_q8_scalar(row: &[u8], act: &Q8KActivations) -> f64 {
    dot_with_mins(row, act, Q4_K_BLOCK_BYTES, |blk, e| nibble(blk[16 + (e / 64) * 32 + e % 32], e % 64 >= 32))
}

fn dot_q5_k_q8_scalar(row: &[u8], act: &Q8KActivations) -> f64 {
    dot_with_mins(row, act, Q5_K_BLOCK_BYTES, |blk, e| {
        nibble(blk[48 + (e / 64) * 32 + e % 32], e % 64 >= 32) + 16 * ((blk[16 + e % 32] >> (e / 32)) & 1) as i32
    })
}

fn dot_q6_k_q8_scalar(row: &[u8], act: &Q8KActivations) -> f64 {
    let mut total = 0f64;
    for (b, blk) in row.chunks(Q6_K_BLOCK_BYTES).enumerate() {
        let mut sum = 0i32;
        for e in 0..256 {
            let (half_of, at) = (e / 128, e % 128);
            let low = nibble(blk[half_of * 64 + at % 64], at >= 64);
            let high = ((blk[128 + half_of * 32 + at % 32] >> (2 * (at / 32))) & 3) as i32;
            sum += (low + 16 * high - 32) * (blk[192 + e / 16] as i8) as i32 * act.q[b * 256 + e] as i32;
        }
        total += sum as f64 * f16_at(blk, 208) * f32::from_bits(act.d_bits[b]) as f64;
    }
    total
}

fn dot_q8_0_q8_scalar(row: &[u8], act: &Q8Activations) -> f64 {
    let mut total = 0f64;
    for (b, blk) in row.chunks(Q8_0_BLOCK_BYTES).enumerate() {
        let sum: i32 = (0..32).map(|i| (blk[2 + i] as i8) as i32 * act.q[b * 32 + i] as i32).sum();
        total += sum as f64 * f16_at(blk, 0) * f32::from_bits(act.d_bits[b]) as f64;
    }
    total
}

fn dot_q4_0_q8_scalar(row: &[u8], act: &Q8Activations) -> f64 {
    let mut total = 0f64;
    for (b, blk) in row.chunks(Q4_0_BLOCK_BYTES).enumerate() {
        let sum: i32 = (0..32).map(|i| (nibble(blk[2 + i % 16], i >= 16) - 8) * act.q[b * 32 + i] as i32).sum();
        total += sum as f64 * f16_at(blk, 0) * f32::from_bits(act.d_bits[b]) as f64;
    }
    total
}

fn packed_bytes(fmt: KQuant) -> usize {
    match fmt {
        KQuant::Q4K => Q4_KX8_BLOCK_BYTES,
        KQuant::Q5K => Q5_KX8_BLOCK_BYTES,
        KQuant::Q6K => Q6_KX8_BLOCK_BYTES,
    }
}

/// The products of a packed matrix, one per row: `terms` scaled and summed.
fn finish(fmt: KQuant, packed: &[u8], terms: &KTerms, d_bits: &[u32], n_cols: usize) -> Vec<f64> {
    let nb = n_cols / 256;
    let unit = packed_bytes(fmt);
    let mut out = Vec::new();
    for x in 0..terms.blocks.len() / nb {
        for j in 0..8 {
            let mut sum = 0f64;
            for b in 0..nb {
                let blk = &packed[(x * nb + b) * unit..(x * nb + b + 1) * unit];
                let da = f32::from_bits(d_bits[b]) as f64;
                let sums = &terms.blocks[x * nb + b];
                for t in sums.dots.iter().skip(j).step_by(8) {
                    sum += *t as f64 * f16_at(blk, 2 * j) * da;
                }
                for t in sums.mins.iter().skip(j).step_by(8) {
                    sum -= *t as f64 * f16_at(blk, 16 + 2 * j) * da;
                }
            }
            out.push(sum);
        }
    }
    out
}

fn group_of(fmt: KQuant, packed: &[u8], group: usize, n_cols: usize) -> &[u8] {
    let width = n_cols / 256 * packed_bytes(fmt);
    &packed[group * width..(group + 1) * width]
}

/// The four-row products, one per row.
fn finish4(packed: &[u8], unit: usize, terms: &Terms4, d_bits: &[u32]) -> Vec<f64> {
    let nb = d_bits.len();
    let mut out = Vec::new();
    for x in 0..terms.blocks.len() / nb {
        for j in 0..4 {
            let mut sum = 0f64;
            for b in 0..nb {
                let scale = f16_at(packed, (x * nb + b) * unit + 2 * j) * f32::from_bits(d_bits[b]) as f64;
                for t in terms.blocks[x * nb + b].iter().skip(j).step_by(4) {
                    sum += *t as f64 * scale;
                }
            }
            out.push(sum);
        }
    }
    out
}

fn close(got: f64, want: f64, relative: f64, absolute: f64) -> bool {
    let err = (got - want).abs();
    err / want.abs().max(1.0) < relative || err < absolute
}

fn bits(v: &[f64]) -> Vec<u64> {
    v.iter().map(|x| x.to_bits()).collect()
}

#[test]
fn pack_and_gemv_matches_scalar_row_dots() {
    let n_blocks = 2;
    let cols = n_blocks * Q4_K_BLOCK_ELEMS;
    let rows = 16;
    let matrix = matrix_of(rows, |r| synth_q4_k_row(n_blocks, r as u8));
    let x: Vec<f32> = (0..cols).map(|i| ((i as f32) * 0.017 - 2.1).sin() * 1.8).collect();
    let act = quantize_activations_q8_k(&x);
    let row_bytes = n_blocks * Q4_K_BLOCK_BYTES;
    let reference: Vec<f64> =
        (0..rows).map(|r| dot_q4_k_q8_scalar(&matrix[r * row_bytes..(r + 1) * row_bytes], &act)).collect();

    for cpu in EVERY_CPU {
        for interleave in [4usize, 8] {
            let packed = pack_q4_k_matrix_x8(&matrix, rows, cols, interleave);
            let n_groups = rows / Q4_KX8_NROWS;
            let terms = gemv_q4_kx8_q8_k(&packed, &act, cols, n_groups, interleave, &cpu);
            let out = finish(KQuant::Q4K, &packed, &terms, &act.d_bits, cols);
            for r in 0..rows {
                assert!(
                    close(out[r], reference[r], 1e-4, 1e-3),
                    "interleave={interleave} row {r}: got {} want {}",
                    out[r],
                    reference[r]
                );
            }
        }
    }
}

#[test]
fn q4_0x4_pack_and_gemv_matches_scalar_row_dots() {
    let n_blocks = 3;
    let cols = n_blocks * Q4_0_BLOCK_ELEMS;
    let rows = 12;
    let matrix = matrix_of(rows, |r| synth_q4_0_row(n_blocks, r as u8));
    let x: Vec<f32> = (0..cols).map(|i| ((i as f32) * 0.019 - 1.2).sin() * 2.1).collect();
    let act = quantize_activations_q8(&x);
    let row_bytes = n_blocks * Q4_0_BLOCK_BYTES;
    let reference: Vec<f64> =
        (0..rows).map(|r| dot_q4_0_q8_scalar(&matrix[r * row_bytes..(r + 1) * row_bytes], &act)).collect();

    let packed = pack_q4_0_matrix_x4(&matrix, rows, cols, Q4_0X4_INTERLEAVE);
    for cpu in EVERY_CPU {
        let terms = gemv_q4_0x4_q8_0(&packed, &act, cols, rows / Q4_0X4_NROWS, &cpu);
        let out = finish4(&packed, Q4_0X4_BLOCK_BYTES, &terms, &act.d_bits);
        for r in 0..rows {
            assert!(
                close(out[r], reference[r], 1e-4, 1e-3),
                "Q4_0x4 row {r}: got {} want {}",
                out[r],
                reference[r]
            );
        }
    }
}

#[test]
fn q4_0x4_gemm_matches_the_gemv_run_once_per_activation() {
    let n_blocks = 4;
    let cols = n_blocks * Q4_0_BLOCK_ELEMS;
    let rows = 8;
    let matrix = matrix_of(rows, |r| synth_q4_0_row(n_blocks, (r * 2 + 5) as u8));
    let packed = pack_q4_0_matrix_x4(&matrix, rows, cols, Q4_0X4_INTERLEAVE);
    let n_acts = 7;
    let acts: Vec<Q8Activations> = (0..n_acts)
        .map(|j| {
            let x: Vec<f32> = (0..cols).map(|i| (((i + j * 11) as f32) * 0.021 - 0.7).cos() * 1.9).collect();
            quantize_activations_q8(&x)
        })
        .collect();

    for cpu in EVERY_CPU {
        for group in 0..rows / Q4_0X4_NROWS {
            let slice = &packed[group * n_blocks * Q4_0X4_BLOCK_BYTES..][..n_blocks * Q4_0X4_BLOCK_BYTES];
            let gemm = gemm_q4_0x4_group(&packed, group, &acts, cols, &cpu);
            assert_eq!(gemm.len(), n_acts);
            for (j, act) in acts.iter().enumerate() {
                let gemv = gemv_q4_0x4_group(&packed, group, act, cols, &cpu);
                let gemm_out = finish4(slice, Q4_0X4_BLOCK_BYTES, &gemm[j], &act.d_bits);
                let gemv_out = finish4(slice, Q4_0X4_BLOCK_BYTES, &gemv, &act.d_bits);
                for r in 0..Q4_0X4_NROWS {
                    assert_eq!(
                        gemm_out[r], gemv_out[r],
                        "group {group} row {r} act {j}: Q4_0 GEMM and GEMV disagree"
                    );
                }
            }
        }
    }
}

#[test]
fn q4_0x4_gemm_with_no_activations_is_a_no_op() {
    let n_blocks = 2;
    let cols = n_blocks * Q4_0_BLOCK_ELEMS;
    let matrix = matrix_of(Q4_0X4_NROWS, |r| synth_q4_0_row(n_blocks, r as u8));
    let packed = pack_q4_0_matrix_x4(&matrix, Q4_0X4_NROWS, cols, Q4_0X4_INTERLEAVE);
    assert!(gemm_q4_0x4_group(&packed, 0, &[], cols, &DOTPROD).is_empty());
}

#[test]
fn q8_0x4_pack_and_gemv_matches_scalar_row_dots() {
    let n_blocks = 3;
    let cols = n_blocks * Q8_0_BLOCK_ELEMS;
    let rows = 12;
    let matrix = matrix_of(rows, |r| synth_q8_0_row(n_blocks, r as u8));
    let x: Vec<f32> = (0..cols).map(|i| ((i as f32) * 0.023 - 1.4).cos() * 2.2).collect();
    let act = quantize_activations_q8(&x);
    let row_bytes = n_blocks * Q8_0_BLOCK_BYTES;
    let reference: Vec<f64> =
        (0..rows).map(|r| dot_q8_0_q8_scalar(&matrix[r * row_bytes..(r + 1) * row_bytes], &act)).collect();

    let packed = pack_q8_0_matrix_x4(&matrix, rows, cols, Q8_0X4_INTERLEAVE);
    for cpu in EVERY_CPU {
        let terms = gemv_q8_0x4_q8_0(&packed, &act, cols, rows / Q8_0X4_NROWS, &cpu);
        let out = finish4(&packed, Q8_0X4_BLOCK_BYTES, &terms, &act.d_bits);
        for r in 0..rows {
            assert!(
                close(out[r], reference[r], 1e-4, 1e-3),
                "Q8_0x4 row {r}: got {} want {}",
                out[r],
                reference[r]
            );
        }
    }
}

/// Prefill and decode run the same prompt through different batch sizes, so
/// nothing short of equality will do.
#[test]
fn q8_0x4_gemm_matches_the_gemv_run_once_per_activation() {
    let n_blocks = 4;
    let cols = n_blocks * Q8_0_BLOCK_ELEMS;
    let rows = 8;
    let matrix = matrix_of(rows, |r| synth_q8_0_row(n_blocks, (r * 3 + 1) as u8));
    let packed = pack_q8_0_matrix_x4(&matrix, rows, cols, Q8_0X4_INTERLEAVE);
    let n_acts = 7;
    let acts: Vec<Q8Activations> = (0..n_acts)
        .map(|j| {
            let x: Vec<f32> = (0..cols).map(|i| (((i + j * 13) as f32) * 0.017 - 0.9).sin() * 1.7).collect();
            quantize_activations_q8(&x)
        })
        .collect();

    for cpu in EVERY_CPU {
        for group in 0..rows / Q8_0X4_NROWS {
            let slice = &packed[group * n_blocks * Q8_0X4_BLOCK_BYTES..][..n_blocks * Q8_0X4_BLOCK_BYTES];
            let gemm = gemm_q8_0x4_group(&packed, group, &acts, cols, &cpu);
            assert_eq!(gemm.len(), n_acts);
            for (j, act) in acts.iter().enumerate() {
                let gemv = gemv_q8_0x4_group(&packed, group, act, cols, &cpu);
                let gemm_out = finish4(slice, Q8_0X4_BLOCK_BYTES, &gemm[j], &act.d_bits);
                let gemv_out = finish4(slice, Q8_0X4_BLOCK_BYTES, &gemv, &act.d_bits);
                for r in 0..Q8_0X4_NROWS {
                    assert_eq!(
                        gemm_out[r], gemv_out[r],
                        "group {group} row {r} act {j}: GEMM and GEMV disagree"
                    );
                }
            }
        }
    }
}

#[test]
fn q4_kx8_gemm_matches_the_gemv_run_once_per_activation() {
    let n_blocks = 3;
    let cols = n_blocks * Q4_K_BLOCK_ELEMS;
    let rows = 2 * Q4_KX8_NROWS;
    let matrix = matrix_of(rows, |r| synth_q4_k_row(n_blocks, (r * 5 + 3) as u8));
    let n_acts = 6;
    let acts: Vec<Q8KActivations> = (0..n_acts)
        .map(|j| {
            let x: Vec<f32> = (0..cols).map(|i| (((i + j * 29) as f32) * 0.011 - 0.4).cos() * 2.3).collect();
            quantize_activations_q8_k(&x)
        })
        .collect();

    for cpu in EVERY_CPU {
        let interleave = q4_kx8_interleave(&cpu);
        let packed = pack_q4_k_matrix_x8(&matrix, rows, cols, interleave);
        for group in 0..rows / Q4_KX8_NROWS {
            let slice = group_of(KQuant::Q4K, &packed, group, cols);
            for chunk in acts.chunks(Q4_KX8_GEMM_NC) {
                let gemm = gemm_q4_kx8_group(&packed, group, chunk, cols, interleave, &cpu);
                for (j, act) in chunk.iter().enumerate() {
                    let gemv = gemv_q4_kx8_group(&packed, group, act, cols, interleave, &cpu);
                    let got = finish(KQuant::Q4K, slice, &gemm[j], &act.d_bits, cols);
                    let want = finish(KQuant::Q4K, slice, &gemv, &act.d_bits, cols);
                    for r in 0..Q4_KX8_NROWS {
                        if interleave == 4 {
                            assert_eq!(
                                got[r], want[r],
                                "group {group} row {r} act {j}: Q4_K GEMM and GEMV disagree"
                            );
                        } else {
                            assert!(
                                close(got[r], want[r], 1e-4, 1e-2),
                                "group {group} row {r} act {j}: GEMM {} vs GEMV {}",
                                got[r],
                                want[r]
                            );
                        }
                    }
                }
            }
        }
    }
}

fn synth_q8_k_acts(n: usize, cols: usize) -> Vec<Q8KActivations> {
    (0..n)
        .map(|j| {
            let x: Vec<f32> = (0..cols).map(|i| (((i + j * 17) as f32) * 0.013 - 0.6).sin() * 1.9).collect();
            quantize_activations_q8_k(&x)
        })
        .collect()
}

#[test]
fn q4_kx8_gemm_i8mm_matches_scalar_when_available() {
    let interleave = q4_kx8_interleave(&I8MM);
    assert_eq!(interleave, 8, "i8mm host should pack with interleave 8");
    let n_blocks = 3;
    let cols = n_blocks * Q4_K_BLOCK_ELEMS;
    let rows = Q4_KX8_NROWS;
    let matrix = matrix_of(rows, |r| synth_q4_k_row(n_blocks, (r * 7 + 2) as u8));
    let packed = pack_q4_k_matrix_x8(&matrix, rows, cols, interleave);
    let acts = synth_q8_k_acts(4, cols);
    let gemm = gemm_q4_kx8_group(&packed, 0, &acts, cols, interleave, &I8MM);

    for (j, act) in acts.iter().enumerate() {
        assert_eq!(gemm[j].kernel, Kernel::I8mm);
        let scalar = gemv_q4_kx8_group(&packed, 0, act, cols, interleave, &I8MM);
        assert_eq!(scalar.kernel, Kernel::Scalar);
        let got = finish(KQuant::Q4K, &packed, &gemm[j], &act.d_bits, cols);
        let want = finish(KQuant::Q4K, &packed, &scalar, &act.d_bits, cols);
        for r in 0..Q4_KX8_NROWS {
            assert!(
                close(got[r], want[r], 1e-5, 1e-3),
                "row {r} act {j}: i8mm GEMM {} vs scalar {}",
                got[r],
                want[r]
            );
        }
    }
}

fn reference_q8_kx4_block_qs(acts: &[Q8KActivations], block: usize) -> [i8; Q4_K_BLOCK_ELEMS * 4] {
    const BLCK: usize = 8;
    let na = acts.len();
    let mut out = [0i8; Q4_K_BLOCK_ELEMS * 4];
    for (j, slot) in out.iter_mut().enumerate() {
        let src_offset = (j / (4 * BLCK)) * BLCK + (j % BLCK);
        let src_id = (j % (4 * BLCK)) / BLCK;
        *slot = if src_id < na { acts[src_id].q[block * Q4_K_BLOCK_ELEMS + src_offset] } else { 0 };
    }
    out
}

#[test]
fn prepare_q8_k_acts_x4_matches_block_interleave_reference() {
    let n_blocks = 3;
    let cols = n_blocks * Q4_K_BLOCK_ELEMS;
    for na in 1..=Q4_KX8_GEMM_NC {
        let acts = synth_q8_k_acts(na, cols);
        let tile = prepare_q8_k_acts_x4(&acts, cols);
        assert_eq!(tile.na, na);
        assert_eq!(tile.n_blocks, n_blocks);
        for b in 0..n_blocks {
            let want_qs = reference_q8_kx4_block_qs(&acts, b);
            assert_eq!(
                &tile.qs[b * Q4_K_BLOCK_ELEMS * 4..][..Q4_K_BLOCK_ELEMS * 4],
                &want_qs[..],
                "qs mismatch, block {b} na {na}"
            );
            for a in 0..4 {
                let act = acts.get(a);
                for i in 0..8 {
                    let want = act.map_or(0, |act| act.bsums[b * 16 + 2 * i] + act.bsums[b * 16 + 2 * i + 1]);
                    assert_eq!(
                        tile.bsums[(b * 4 + a) * 8 + i],
                        want,
                        "bsums mismatch, block {b} row {a} pair {i} na {na}"
                    );
                }
                let want_d = act.map_or(0.0, |act| f32::from_bits(act.d_bits[b]));
                assert_eq!(f32::from_bits(tile.d_bits[b * 4 + a]), want_d, "d mismatch, block {b} row {a}");
            }
        }
    }
}

#[test]
fn q4_kx8_gemm_x4_portable_is_bit_exact_vs_scalar_gemv() {
    let n_blocks = 3;
    let cols = n_blocks * Q4_K_BLOCK_ELEMS;
    let rows = Q4_KX8_NROWS;
    let matrix = matrix_of(rows, |r| synth_q4_k_row(n_blocks, (r * 5 + 3) as u8));
    let packed = pack_q4_k_matrix_x8(&matrix, rows, cols, 8);

    for na in 1..=Q4_KX8_GEMM_NC {
        let acts = synth_q8_k_acts(na, cols);
        let tile = prepare_q8_k_acts_x4(&acts, cols);
        let gemm = gemm_q4_kx8_group_x4(&packed, 0, &tile, cols, 8, &PLAIN);
        for (j, act) in acts.iter().enumerate() {
            let gemv = gemv_q4_kx8_q8_k(&packed, act, cols, 1, 8, &PLAIN);
            let got = finish(KQuant::Q4K, &packed, &gemm[j], &act.d_bits, cols);
            let want = finish(KQuant::Q4K, &packed, &gemv, &act.d_bits, cols);
            assert_eq!(bits(&got), bits(&want), "act {j} na {na}: x4 {got:?} vs GEMV {want:?}");
        }
    }
}

#[test]
fn q4_kx8_gemm_x4_i8mm_matches_group_and_scalar() {
    let interleave = q4_kx8_interleave(&I8MM);
    assert_eq!(interleave, 8, "i8mm host should pack with interleave 8");
    let n_blocks = 3;
    let cols = n_blocks * Q4_K_BLOCK_ELEMS;
    let rows = Q4_KX8_NROWS;
    let matrix = matrix_of(rows, |r| synth_q4_k_row(n_blocks, (r * 7 + 2) as u8));
    let packed = pack_q4_k_matrix_x8(&matrix, rows, cols, interleave);

    assert!(q4_kx8_gemm_uses_acts_x4(&I8MM, interleave));
    for na in 1..=Q4_KX8_GEMM_NC {
        let acts = synth_q8_k_acts(na, cols);
        let tile = prepare_q8_k_acts_x4(&acts, cols);
        let x4 = gemm_q4_kx8_group_x4(&packed, 0, &tile, cols, interleave, &I8MM);
        let group = gemm_q4_kx8_group(&packed, 0, &acts, cols, interleave, &I8MM);
        for (j, act) in acts.iter().enumerate() {
            let x4_out = finish(KQuant::Q4K, &packed, &x4[j], &act.d_bits, cols);
            let group_out = finish(KQuant::Q4K, &packed, &group[j], &act.d_bits, cols);
            assert_eq!(bits(&x4_out), bits(&group_out), "x4 entry diverged from the compat entry, na {na}");
            let scalar = gemv_q4_kx8_group(&packed, 0, act, cols, interleave, &I8MM);
            let want = finish(KQuant::Q4K, &packed, &scalar, &act.d_bits, cols);
            for r in 0..Q4_KX8_NROWS {
                assert!(
                    close(x4_out[r], want[r], 1e-5, 1e-3),
                    "row {r} act {j} na {na}: i8mm x4 GEMM {} vs scalar {}",
                    x4_out[r],
                    want[r]
                );
            }
        }
    }
}

#[test]
fn q5_kx8_gemm_x4_portable_is_bit_exact_vs_scalar_gemv() {
    let n_blocks = 3;
    let cols = n_blocks * Q5_K_BLOCK_ELEMS;
    let rows = Q5_KX8_NROWS;
    let matrix = matrix_of(rows, |r| synth_q5_k_row(n_blocks, (r * 5 + 3) as u8));
    let packed = pack_q5_k_matrix_x8(&matrix, rows, cols, 8);

    for na in 1..=Q5_KX8_GEMM_NC {
        let acts = synth_q8_k_acts(na, cols);
        let tile = prepare_q8_k_acts_x4(&acts, cols);
        let gemm = gemm_q5_kx8_group_x4(&packed, 0, &tile, cols, 8, &PLAIN);
        for (j, act) in acts.iter().enumerate() {
            let gemv = gemv_q5_kx8_q8_k(&packed, act, cols, 1, 8, &PLAIN);
            let got = finish(KQuant::Q5K, &packed, &gemm[j], &act.d_bits, cols);
            let want = finish(KQuant::Q5K, &packed, &gemv, &act.d_bits, cols);
            assert_eq!(bits(&got), bits(&want), "act {j} na {na}: x4 {got:?} vs GEMV {want:?}");
        }
    }
}

#[test]
fn q6_kx8_gemm_x4_portable_is_bit_exact_vs_scalar_gemv() {
    let n_blocks = 2;
    let cols = n_blocks * Q6_K_BLOCK_ELEMS;
    let rows = Q6_KX8_NROWS;
    let matrix = matrix_of(rows, |r| synth_q6_k_row(n_blocks, (r * 3 + 2) as u8));
    let packed = pack_q6_k_matrix_x8(&matrix, rows, cols, 8);

    for na in 1..=Q8K_ACTS_X4_NC {
        let acts = synth_q8_k_acts(na, cols);
        let tile = prepare_q8_k_acts_x4(&acts, cols);
        let gemm = gemm_q6_kx8_group_x4(&packed, 0, &tile, cols, 8, &PLAIN);
        for (j, act) in acts.iter().enumerate() {
            let gemv = gemv_q6_kx8_q8_k(&packed, act, cols, 1, 8, &PLAIN);
            let got = finish(KQuant::Q6K, &packed, &gemm[j], &act.d_bits, cols);
            let want = finish(KQuant::Q6K, &packed, &gemv, &act.d_bits, cols);
            assert_eq!(bits(&got), bits(&want), "act {j} na {na}: x4 {got:?} vs GEMV {want:?}");
        }
    }
}

#[test]
fn q5_kx8_interleave8_neon_matches_references_when_available() {
    let n_blocks = 3;
    let cols = n_blocks * Q5_K_BLOCK_ELEMS;
    let n_groups = 2;
    let rows = n_groups * Q5_KX8_NROWS;
    let matrix = matrix_of(rows, |r| synth_q5_k_row(n_blocks, (r * 7 + 1) as u8));
    let packed = pack_q5_k_matrix_x8(&matrix, rows, cols, 8);

    let acts = synth_q8_k_acts(4, cols);
    for act in &acts {
        let neon = gemv_q5_kx8_q8_k(&packed, act, cols, n_groups, 8, &DOTPROD);
        assert_eq!(neon.kernel, Kernel::Dot8x8);
        let plain = gemv_q5_kx8_q8_k(&packed, act, cols, n_groups, 8, &PLAIN);
        let got = finish(KQuant::Q5K, &packed, &neon, &act.d_bits, cols);
        let want = finish(KQuant::Q5K, &packed, &plain, &act.d_bits, cols);
        for r in 0..rows {
            assert!(
                close(got[r], want[r], 1e-5, 1e-3),
                "gemv row {r}: NEON 8x8 {} vs scalar {}",
                got[r],
                want[r]
            );
        }
    }

    for na in 1..=Q5_KX8_GEMM_NC {
        let acts = synth_q8_k_acts(na, cols);
        let tile = prepare_q8_k_acts_x4(&acts, cols);
        for group in 0..n_groups {
            let slice = group_of(KQuant::Q5K, &packed, group, cols);
            let x4 = gemm_q5_kx8_group_x4(&packed, group, &tile, cols, 8, &I8MM);
            let rows_at_once = gemm_q5_kx8_group(&packed, group, &acts, cols, 8, &I8MM);
            let portable = gemm_q5_kx8_group_x4(&packed, group, &tile, cols, 8, &PLAIN);
            for (j, act) in acts.iter().enumerate() {
                let x4_out = finish(KQuant::Q5K, slice, &x4[j], &act.d_bits, cols);
                let group_out = finish(KQuant::Q5K, slice, &rows_at_once[j], &act.d_bits, cols);
                assert_eq!(
                    bits(&x4_out),
                    bits(&group_out),
                    "x4 entry diverged from the compat entry, group {group} na {na}"
                );
                let want = finish(KQuant::Q5K, slice, &portable[j], &act.d_bits, cols);
                for r in 0..Q5_KX8_NROWS {
                    assert!(
                        close(x4_out[r], want[r], 1e-5, 1e-3),
                        "group {group} na {na}: i8mm GEMM {} vs portable {}",
                        x4_out[r],
                        want[r]
                    );
                }
            }
        }
    }
}

#[test]
fn q6_kx8_interleave8_neon_matches_references_when_available() {
    let n_blocks = 2;
    let cols = n_blocks * Q6_K_BLOCK_ELEMS;
    let n_groups = 2;
    let rows = n_groups * Q6_KX8_NROWS;
    let matrix = matrix_of(rows, |r| synth_q6_k_row(n_blocks, (r * 9 + 4) as u8));
    let packed = pack_q6_k_matrix_x8(&matrix, rows, cols, 8);

    let acts = synth_q8_k_acts(4, cols);
    for act in &acts {
        let neon = gemv_q6_kx8_q8_k(&packed, act, cols, n_groups, 8, &DOTPROD);
        assert_eq!(neon.kernel, Kernel::Dot8x8);
        let plain = gemv_q6_kx8_q8_k(&packed, act, cols, n_groups, 8, &PLAIN);
        let got = finish(KQuant::Q6K, &packed, &neon, &act.d_bits, cols);
        let want = finish(KQuant::Q6K, &packed, &plain, &act.d_bits, cols);
        for r in 0..rows {
            assert!(
                close(got[r], want[r], 1e-5, 1e-3),
                "gemv row {r}: NEON 8x8 {} vs scalar {}",
                got[r],
                want[r]
            );
        }
    }

    for na in 1..=Q8K_ACTS_X4_NC {
        let acts = synth_q8_k_acts(na, cols);
        let tile = prepare_q8_k_acts_x4(&acts, cols);
        for group in 0..n_groups {
            let slice = group_of(KQuant::Q6K, &packed, group, cols);
            let x4 = gemm_q6_kx8_group_x4(&packed, group, &tile, cols, 8, &I8MM);
            let rows_at_once = gemm_q6_kx8_group(&packed, group, &acts, cols, 8, &I8MM);
            let portable = gemm_q6_kx8_group_x4(&packed, group, &tile, cols, 8, &PLAIN);
            for (j, act) in acts.iter().enumerate() {
                let x4_out = finish(KQuant::Q6K, slice, &x4[j], &act.d_bits, cols);
                let group_out = finish(KQuant::Q6K, slice, &rows_at_once[j], &act.d_bits, cols);
                assert_eq!(
                    bits(&x4_out),
                    bits(&group_out),
                    "x4 entry diverged from the compat entry, group {group} na {na}"
                );
                let want = finish(KQuant::Q6K, slice, &portable[j], &act.d_bits, cols);
                for r in 0..Q6_KX8_NROWS {
                    assert!(
                        close(x4_out[r], want[r], 1e-5, 1e-3),
                        "group {group} na {na}: i8mm GEMM {} vs portable {}",
                        x4_out[r],
                        want[r]
                    );
                }
            }
        }
    }
}

#[test]
fn q4_kx8_gemm_with_no_activations_is_a_no_op() {
    let n_blocks = 2;
    let cols = n_blocks * Q4_K_BLOCK_ELEMS;
    let matrix = matrix_of(Q4_KX8_NROWS, |r| synth_q4_k_row(n_blocks, r as u8));
    let packed = pack_q4_k_matrix_x8(&matrix, Q4_KX8_NROWS, cols, 4);
    assert!(gemm_q4_kx8_group(&packed, 0, &[], cols, 4, &DOTPROD).is_empty());
}

#[test]
fn q8_0x4_gemm_with_no_activations_is_a_no_op() {
    let n_blocks = 2;
    let cols = n_blocks * Q8_0_BLOCK_ELEMS;
    let matrix = matrix_of(Q8_0X4_NROWS, |r| synth_q8_0_row(n_blocks, r as u8));
    let packed = pack_q8_0_matrix_x4(&matrix, Q8_0X4_NROWS, cols, Q8_0X4_INTERLEAVE);
    assert!(gemm_q8_0x4_group(&packed, 0, &[], cols, &DOTPROD).is_empty());
}

#[test]
fn q5_kx8_pack_and_gemv_matches_scalar_row_dots() {
    let n_blocks = 2;
    let cols = n_blocks * Q5_K_BLOCK_ELEMS;
    let rows = 16;
    let matrix = matrix_of(rows, |r| synth_q5_k_row(n_blocks, r as u8));
    let x: Vec<f32> = (0..cols).map(|i| ((i as f32) * 0.019 - 1.8).sin() * 1.6).collect();
    let act = quantize_activations_q8_k(&x);
    let row_bytes = n_blocks * Q5_K_BLOCK_BYTES;
    let reference: Vec<f64> =
        (0..rows).map(|r| dot_q5_k_q8_scalar(&matrix[r * row_bytes..(r + 1) * row_bytes], &act)).collect();

    for cpu in EVERY_CPU {
        for interleave in [4usize, 8] {
            let packed = pack_q5_k_matrix_x8(&matrix, rows, cols, interleave);
            let terms = gemv_q5_kx8_q8_k(&packed, &act, cols, rows / Q5_KX8_NROWS, interleave, &cpu);
            let out = finish(KQuant::Q5K, &packed, &terms, &act.d_bits, cols);
            for r in 0..rows {
                assert!(
                    close(out[r], reference[r], 1e-4, 1e-3),
                    "interleave={interleave} row {r}: got {} want {}",
                    out[r],
                    reference[r]
                );
            }
        }
    }
}

#[test]
fn q5_kx8_gemm_matches_the_gemv_run_once_per_activation() {
    let n_blocks = 3;
    let cols = n_blocks * Q5_K_BLOCK_ELEMS;
    let rows = 2 * Q5_KX8_NROWS;
    let matrix = matrix_of(rows, |r| synth_q5_k_row(n_blocks, (r * 5 + 3) as u8));
    let n_acts = 6;
    let acts: Vec<Q8KActivations> = (0..n_acts)
        .map(|j| {
            let x: Vec<f32> = (0..cols).map(|i| (((i + j * 29) as f32) * 0.011 - 0.4).cos() * 2.3).collect();
            quantize_activations_q8_k(&x)
        })
        .collect();
    let row_bytes = n_blocks * Q5_K_BLOCK_BYTES;

    for cpu in EVERY_CPU {
        let interleave = q5_kx8_interleave(&cpu);
        let packed = pack_q5_k_matrix_x8(&matrix, rows, cols, interleave);
        for group in 0..rows / Q5_KX8_NROWS {
            let slice = group_of(KQuant::Q5K, &packed, group, cols);
            for chunk in acts.chunks(Q5_KX8_GEMM_NC) {
                let gemm = gemm_q5_kx8_group(&packed, group, chunk, cols, interleave, &cpu);
                for (j, act) in chunk.iter().enumerate() {
                    let gemv = gemv_q5_kx8_group(&packed, group, act, cols, interleave, &cpu);
                    let got = finish(KQuant::Q5K, slice, &gemm[j], &act.d_bits, cols);
                    let want = finish(KQuant::Q5K, slice, &gemv, &act.d_bits, cols);
                    for r in 0..Q5_KX8_NROWS {
                        assert!(
                            close(got[r], want[r], 1e-5, 1e-3),
                            "group {group} row {r} act {j}: Q5_K GEMM {} vs GEMV {}",
                            got[r],
                            want[r]
                        );
                    }
                }
            }
            for (j, act) in acts.iter().enumerate() {
                let gemv = gemv_q5_kx8_group(&packed, group, act, cols, interleave, &cpu);
                let gemv_out = finish(KQuant::Q5K, slice, &gemv, &act.d_bits, cols);
                for r in 0..Q5_KX8_NROWS {
                    let row_idx = group * Q5_KX8_NROWS + r;
                    let want = dot_q5_k_q8_scalar(&matrix[row_idx * row_bytes..(row_idx + 1) * row_bytes], act);
                    assert!(
                        close(gemv_out[r], want, 1e-4, 1e-3),
                        "group {group} row {r} act {j}: packed gemv {} vs dot {want}",
                        gemv_out[r]
                    );
                }
            }
        }
    }
}

#[test]
fn q5_kx8_gemm_with_no_activations_is_a_no_op() {
    let n_blocks = 2;
    let cols = n_blocks * Q5_K_BLOCK_ELEMS;
    let matrix = matrix_of(Q5_KX8_NROWS, |r| synth_q5_k_row(n_blocks, r as u8));
    let packed = pack_q5_k_matrix_x8(&matrix, Q5_KX8_NROWS, cols, 4);
    assert!(gemm_q5_kx8_group(&packed, 0, &[], cols, 4, &DOTPROD).is_empty());
}

#[test]
fn q6_kx8_pack_and_gemv_matches_scalar_row_dots() {
    let n_blocks = 3;
    let cols = n_blocks * Q6_K_BLOCK_ELEMS;
    let rows = 2 * Q6_KX8_NROWS;
    let matrix = matrix_of(rows, |r| synth_q6_k_row(n_blocks, (r * 5 + 1) as u8));
    let x: Vec<f32> = (0..cols).map(|i| ((i as f32) * 0.017 - 0.8).cos() * 1.8).collect();
    let act = quantize_activations_q8_k(&x);
    let row_bytes = n_blocks * Q6_K_BLOCK_BYTES;
    let reference: Vec<f64> =
        (0..rows).map(|r| dot_q6_k_q8_scalar(&matrix[r * row_bytes..(r + 1) * row_bytes], &act)).collect();

    for cpu in EVERY_CPU {
        for interleave in [4usize, 8] {
            let packed = pack_q6_k_matrix_x8(&matrix, rows, cols, interleave);
            let terms = gemv_q6_kx8_q8_k(&packed, &act, cols, rows / Q6_KX8_NROWS, interleave, &cpu);
            let out = finish(KQuant::Q6K, &packed, &terms, &act.d_bits, cols);
            for r in 0..rows {
                assert!(
                    close(out[r], reference[r], 1e-4, 1e-3),
                    "interleave={interleave} row {r}: got {} want {}",
                    out[r],
                    reference[r]
                );
            }
        }
    }
}

#[test]
fn q6_kx8_gemm_matches_the_gemv_run_once_per_activation() {
    let n_blocks = 2;
    let cols = n_blocks * Q6_K_BLOCK_ELEMS;
    let rows = 2 * Q6_KX8_NROWS;
    let matrix = matrix_of(rows, |r| synth_q6_k_row(n_blocks, (r * 3 + 2) as u8));
    let acts: Vec<Q8KActivations> = (0..Q6_KX8_GEMM_NC)
        .map(|j| {
            let x: Vec<f32> = (0..cols).map(|i| (((i + j * 11) as f32) * 0.015 - 0.7).sin() * 2.0).collect();
            quantize_activations_q8_k(&x)
        })
        .collect();
    let row_bytes = n_blocks * Q6_K_BLOCK_BYTES;

    for cpu in EVERY_CPU {
        let interleave = q6_kx8_interleave(&cpu);
        let packed = pack_q6_k_matrix_x8(&matrix, rows, cols, interleave);
        for group in 0..rows / Q6_KX8_NROWS {
            let slice = group_of(KQuant::Q6K, &packed, group, cols);
            for chunk in acts.chunks(Q6_KX8_GEMM_NC) {
                let gemm = gemm_q6_kx8_group(&packed, group, chunk, cols, interleave, &cpu);
                for (j, act) in chunk.iter().enumerate() {
                    let gemv = gemv_q6_kx8_group(&packed, group, act, cols, interleave, &cpu);
                    let got = finish(KQuant::Q6K, slice, &gemm[j], &act.d_bits, cols);
                    let want = finish(KQuant::Q6K, slice, &gemv, &act.d_bits, cols);
                    for r in 0..Q6_KX8_NROWS {
                        assert!(
                            close(got[r], want[r], 1e-4, 1e-3),
                            "group {group} row {r} act {j}: gemm {} vs gemv {}",
                            got[r],
                            want[r]
                        );
                        let row_idx = group * Q6_KX8_NROWS + r;
                        let dot = dot_q6_k_q8_scalar(&matrix[row_idx * row_bytes..(row_idx + 1) * row_bytes], act);
                        assert!(
                            close(got[r], dot, 1e-4, 1e-3),
                            "group {group} row {r} act {j}: gemm {} vs dot {dot}",
                            got[r]
                        );
                    }
                }
            }
        }
    }
}

#[test]
fn block_size_matches_ggml() {
    assert_eq!(Q4_KX8_BLOCK_BYTES, 16 + 16 + 96 + 1024);
    assert_eq!(Q5_KX8_BLOCK_BYTES, 16 + 16 + 96 + 256 + 1024);
    assert_eq!(Q6_KX8_BLOCK_BYTES, 16 + 128 + 1024 + 512);
    assert_eq!(Q8_0X4_BLOCK_BYTES, 4 * 2 + Q8_0_BLOCK_ELEMS * Q8_0X4_NROWS);
    assert_eq!(Q4_0X4_BLOCK_BYTES, 4 * 2 + Q4_0_BLOCK_ELEMS * 2);
}

/// The first eight bytes of packed quants come from row 0, the next eight
/// from row 1, and so on; each row's scale keeps its column.
#[test]
fn rows_are_interleaved_in_runs() {
    let matrix = matrix_of(8, |r| {
        let mut row = vec![0u8; Q4_K_BLOCK_BYTES];
        row[0] = r as u8;
        for i in 0..128 {
            row[16 + i] = (r * 16 + i / 32) as u8;
        }
        row
    });
    let packed = pack_q4_k_matrix_x8(&matrix, 8, 256, 8);
    for r in 0..8 {
        assert_eq!(packed[2 * r], r as u8);
        for i in 0..8 {
            assert_eq!(packed[128 + r * 8 + i], (r * 16) as u8);
        }
    }
}

/// A single product, worked out by hand: code 3 and scale 2 against quant 5.
#[test]
fn one_product_is_scaled_once() {
    let mut row = vec![0u8; Q4_K_BLOCK_BYTES];
    row[4] = 2;
    row[8] = 7;
    row[16] = 3;
    let mut matrix = row;
    matrix.resize(8 * Q4_K_BLOCK_BYTES, 0);
    let mut q = vec![0i8; 256];
    q[0] = 5;
    let mut bsums = vec![0i16; 16];
    bsums[0] = 5;
    let act = Q8KActivations { q, bsums, d_bits: vec![1f32.to_bits()] };
    let packed = pack_q4_k_matrix_x8(&matrix, 8, 256, 8);
    let terms = gemv_q4_kx8_q8_k(&packed, &act, 256, 1, 8, &AVX2);
    assert_eq!(terms.kernel, Kernel::Avx2);
    assert_eq!(terms.blocks[0].dots, vec![30, 0, 0, 0, 0, 0, 0, 0]);
    assert_eq!(terms.blocks[0].mins, vec![35, 0, 0, 0, 0, 0, 0, 0]);
}

#[test]
fn a_q6_gemv_reads_the_blocks_it_needs_and_nothing_after_them() {
    let cols = 2 * Q6_K_BLOCK_ELEMS;
    let rows = 2 * Q6_KX8_NROWS;
    let matrix = matrix_of(rows, |r| synth_q6_k_row(2, (r * 7 + 3) as u8));
    let x: Vec<f32> = (0..cols).map(|i| ((i as f32) * 0.021 - 0.4).sin()).collect();
    let act = quantize_activations_q8_k(&x);
    for cpu in EVERY_CPU {
        for interleave in [4usize, 8] {
            let packed = pack_q6_k_matrix_x8(&matrix, rows, cols, interleave);
            let one = packed.len() / 2;
            let exact = gemv_q6_kx8_q8_k(&packed[..one], &act, cols, 1, interleave, &cpu);
            let longer = gemv_q6_kx8_q8_k(&packed, &act, cols + 100, 1, interleave, &cpu);
            let group = gemv_q6_kx8_group(&packed, 0, &act, cols + 1, interleave, &cpu);
            let out = finish(KQuant::Q6K, &packed[..one], &exact, &act.d_bits, cols);
            assert_eq!(finish(KQuant::Q6K, &packed[..one], &longer, &act.d_bits, cols), out);
            assert_eq!(finish(KQuant::Q6K, &packed[..one], &group, &act.d_bits, cols), out);
        }
    }
}
