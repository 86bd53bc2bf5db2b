//! Packing canonical row blocks into interleaved blocks.
use vstd::prelude::*;
use crate::quant::blocks::{
    interleaved_byte, lemma_source_place, mins_of, pack6_byte, packed_block, packed_byte, scale6, min6, scales_of,
    source_pos, source_row, KQuant, Q4_KX8_BLOCK_BYTES, Q4_KX8_NROWS, Q4_K_BLOCK_BYTES, Q4_K_BLOCK_ELEMS,
    Q5_KX8_BLOCK_BYTES, Q5_KX8_NROWS, Q5_K_BLOCK_BYTES, Q5_K_BLOCK_ELEMS, Q6_KX8_BLOCK_BYTES, Q6_KX8_NROWS,
    Q6_K_BLOCK_BYTES, Q6_K_BLOCK_ELEMS,
};

verus! {

/// The bytes of each row block, in row order.
pub open spec fn row_views<const R: usize>(rows: [&[u8]; R]) -> Seq<Seq<u8>> {
    Seq::new(R as nat, |i: int| rows[i]@)
}

/// Scale and min `i` of the 12-byte six-bit group at `base`.
pub(crate) fn read_scale_min(bytes: &[u8], base: usize, i: usize) -> (r: (u8, u8))
    requires
        i < 8,
        base + 12 <= bytes.len(),
    ensures
        r.0 == scale6(bytes@, base as int, i as int),
        r.1 == min6(bytes@, base as int, i as int),
        r.0 < 64,
        r.1 < 64,
{
    if i < 4 {
        (bytes[base + i] % 64, bytes[base + 4 + i] % 64)
    } else {
        let both: u8 = bytes[base + 4 + i];
        let s_top: u8 = bytes[base + i - 4] / 64;
        let m_top: u8 = bytes[base + i] / 64;
        (both % 16 + 16 * s_top, both / 16 + 16 * m_top)
    }
}

/// The 12-byte group holding eight six-bit scales and mins.
pub fn pack_scales_mins(scales: &[u8; 8], mins: &[u8; 8]) -> (out: [u8; 12])
    requires
        forall|k: int| 0 <= k < 8 ==> #[trigger] scales[k] < 64,
        forall|k: int| 0 <= k < 8 ==> #[trigger] mins[k] < 64,
    ensures
        forall|c: int|
            0 <= c < 12 ==> #[trigger] out[c] as int == pack6_byte(
                scales@.map_values(|v: u8| v as int),
                mins@.map_values(|v: u8| v as int),
                c,
            ),
{
    let mut out: [u8; 12] = [0u8;12];
    for c in 0usize..12
        invariant
            forall|k: int| 0 <= k < 8 ==> #[trigger] scales[k] < 64,
            forall|k: int| 0 <= k < 8 ==> #[trigger] mins[k] < 64,
            forall|i: int|
                0 <= i < c ==> #[trigger] out[i] as int == pack6_byte(
                    scales@.map_values(|v: u8| v as int),
                    mins@.map_values(|v: u8| v as int),
                    i,
                ),
    {
        let byte: u8 = if c < 4 {
            scales[c] + 64 * (scales[c + 4] / 16)
        } else if c < 8 {
            mins[c - 4] + 64 * (mins[c] / 16)
        } else {
            scales[c - 4] % 16 + 16 * (mins[c - 4] % 16)
        };
        out[c] = byte;
    }
    out
}

/// The row that interleaved byte `u` belongs to, and its place in that row.
fn source_of(u: usize, n: usize, interleave: usize) -> (r: (usize, usize))
    requires
        interleave == 4 || interleave == 8,
        n % 8 == 0,
        u < 8 * n,
    ensures
        r.0 == source_row(8, interleave as int, u as int),
        r.1 == source_pos(8, interleave as int, u as int),
        r.0 < 8,
        r.1 < n,
{
    proof {
        lemma_source_place(8, interleave as int, u as int);
    }
    if interleave == 4 {
        assert(u / 32 <= n / 4 - 1);
        ((u / 4) % 8, (u / 32) * 4 + u % 4)
    } else {
        assert(u / 64 <= n / 8 - 1);
        ((u / 8) % 8, (u / 64) * 8 + u % 8)
    }
}

/// Copies the rows' bytes from `src` on into `out` from `dst` on, dealt out
/// in runs of `interleave` bytes.
fn fill_interleaved<const N: usize>(
    out: &mut [u8; N],
    dst: usize,
    rows: &[&[u8]; 8],
    src: usize,
    n: usize,
    interleave: usize,
)
    requires
        interleave == 4 || interleave == 8,
        n % 8 == 0,
        n <= 128,
        dst + 8 * n <= N,
        src <= 1000,
        forall|i: int| 0 <= i < 8 ==> src + n <= #[trigger] rows[i]@.len(),
    ensures
        forall|t: int| 0 <= t < N && !(dst <= t < dst + 8 * n) ==> final(out)[t] == #[trigger] old(out)[t],
        forall|u: int|
            0 <= u < 8 * n ==> #[trigger] final(out)[dst + u] == interleaved_byte(
                row_views(*rows),
                8,
                interleave as int,
                src as int,
                u,
            ),
{
    for u in 0usize..8 * n
        invariant
            interleave == 4 || interleave == 8,
            n % 8 == 0,
            n <= 128,
            dst + 8 * n <= N,
            src <= 1000,
            forall|i: int| 0 <= i < 8 ==> src + n <= #[trigger] rows[i]@.len(),
            forall|t: int| 0 <= t < N && !(dst <= t < dst + 8 * n) ==> out[t] == #[trigger] old(out)[t],
            forall|v: int|
                0 <= v < u ==> #[trigger] out[dst + v] == interleaved_byte(
                    row_views(*rows),
                    8,
                    interleave as int,
                    src as int,
                    v,
                ),
    {
        let (row, pos): (usize, usize) = source_of(u, n, interleave);
        assert(src + n <= rows[row as int]@.len());
        let bytes: &[u8] = rows[row];
        out[dst + u] = bytes[src + pos];
    }
}

/// Writes the header of a six-bit-scaled packed block: each row's d, each
/// row's dmin, and the eight re-grouped scale/min groups.
fn fill_header<const N: usize>(out: &mut [u8; N], rows: &[&[u8]; 8])
    requires
        128 <= N,
        forall|i: int| 0 <= i < 8 ==> 16 <= #[trigger] rows[i]@.len(),
    ensures
        forall|t: int| 128 <= t < N ==> final(out)[t] == #[trigger] old(out)[t],
        forall|t: int|
            0 <= t < 128 ==> #[trigger] final(out)[t] == packed_byte(KQuant::Q4K, row_views(*rows), 8, t),
{
    for i in 0usize..8
        invariant
            128 <= N,
            forall|i: int| 0 <= i < 8 ==> 16 <= #[trigger] rows[i]@.len(),
            forall|t: int| 32 <= t < N ==> out[t] == #[trigger] old(out)[t],
            forall|t: int|
                0 <= t < 2 * i ==> #[trigger] out[t] == packed_byte(KQuant::Q4K, row_views(*rows), 8, t),
            forall|t: int|
                16 <= t < 16 + 2 * i ==> #[trigger] out[t] == packed_byte(
                    KQuant::Q4K,
                    row_views(*rows),
                    8,
                    t,
                ),
    {
        let bytes: &[u8] = rows[i];
        assert(16 <= rows[i as int]@.len());
        out[2 * i] = bytes[0];
        out[2 * i + 1] = bytes[1];
        out[16 + 2 * i] = bytes[2];
        out[17 + 2 * i] = bytes[3];
    }
    for sb in 0usize..8
        invariant
            128 <= N,
            forall|i: int| 0 <= i < 8 ==> 16 <= #[trigger] rows[i]@.len(),
            forall|t: int| 128 <= t < N ==> out[t] == #[trigger] old(out)[t],
            forall|t: int|
                0 <= t < 32 + 12 * sb ==> #[trigger] out[t] == packed_byte(
                    KQuant::Q4K,
                    row_views(*rows),
                    8,
                    t,
                ),
    {
        let mut scales: [u8; 8] = [0u8;8];
        let mut mins: [u8; 8] = [0u8;8];
        for i in 0usize..8
            invariant
                sb < 8,
                forall|i: int| 0 <= i < 8 ==> 16 <= #[trigger] rows[i]@.len(),
                forall|k: int| 0 <= k < i ==> #[trigger] scales[k] < 64,
                forall|k: int| 0 <= k < i ==> #[trigger] mins[k] < 64,
                forall|k: int| 0 <= k < i ==> #[trigger] scales[k] == scale6(row_views(*rows)[k], 4, sb as int),
                forall|k: int| 0 <= k < i ==> #[trigger] mins[k] == min6(row_views(*rows)[k], 4, sb as int),
        {
            assert(16 <= rows[i as int]@.len());
            let (sc, mn): (u8, u8) = read_scale_min(rows[i], 4, sb);
            scales[i] = sc;
            mins[i] = mn;
        }
        let group: [u8; 12] = pack_scales_mins(&scales, &mins);
        proof {
            assert(scales@.map_values(|v: u8| v as int) =~= scales_of(row_views(*rows), sb as int));
            assert(mins@.map_values(|v: u8| v as int) =~= mins_of(row_views(*rows), sb as int));
        }
        for c in 0usize..12
            invariant
                128 <= N,
                sb < 8,
                forall|t: int| 128 <= t < N ==> out[t] == #[trigger] old(out)[t],
                forall|c: int|
                    0 <= c < 12 ==> #[trigger] group[c] as int == pack6_byte(
                        scales_of(row_views(*rows), sb as int),
                        mins_of(row_views(*rows), sb as int),
                        c,
                    ),
                forall|t: int|
                    0 <= t < 32 + 12 * sb + c ==> #[trigger] out[t] == packed_byte(
                        KQuant::Q4K,
                        row_views(*rows),
                        8,
                        t,
                    ),
        {
            out[32 + 12 * sb + c] = group[c];
            proof {
                let t: int = 32 + 12 * sb + c;
                assert((t - 32) / 12 == sb as int);
                assert((t - 32) % 12 == c as int);
            }
        }
    }
}

/// Pack eight canonical Q4_K super-blocks (same column-block index) into
/// one `block_q4_Kx8`. `interleave` is 4 or 8.
pub fn make_block_q4_kx8(rows: [&[u8]; Q4_KX8_NROWS], interleave: usize) -> (out: [u8; Q4_KX8_BLOCK_BYTES])
    requires
        interleave == 4 || interleave == 8,
        forall|i: int| 0 <= i < 8 ==> #[trigger] rows[i]@.len() == Q4_K_BLOCK_BYTES,
    ensures
        out@ == packed_block(KQuant::Q4K, row_views(rows), interleave as int),
{
    let mut out: [u8; Q4_KX8_BLOCK_BYTES] = [0u8;Q4_KX8_BLOCK_BYTES];
    fill_header(&mut out, &rows);
    let ghost head = out@;
    fill_interleaved(&mut out, 128, &rows, 16, 128, interleave);
    proof {
        let want = packed_block(KQuant::Q4K, row_views(rows), interleave as int);
        assert forall|t: int| 0 <= t < 1152 implies out@[t] == want[t] by {
            if t >= 128 {
                assert(out[128 + (t - 128)] == interleaved_byte(row_views(rows), 8, interleave as int, 16, t - 128));
            } else {
                assert(head[t] == packed_byte(KQuant::Q4K, row_views(rows), 8, t));
            }
        }
        assert(out@ =~= want);
    }
    out
}

/// Pack eight canonical Q5_K super-blocks (same column-block index) into
/// one `block_q5_Kx8`. `interleave` is 4 or 8.
pub fn make_block_q5_kx8(rows: [&[u8]; Q5_KX8_NROWS], interleave: usize) -> (out: [u8; Q5_KX8_BLOCK_BYTES])
    requires
        interleave == 4 || interleave == 8,
        forall|i: int| 0 <= i < 8 ==> #[trigger] rows[i]@.len() == Q5_K_BLOCK_BYTES,
    ensures
        out@ == packed_block(KQuant::Q5K, row_views(rows), interleave as int),
{
    let mut out: [u8; Q5_KX8_BLOCK_BYTES] = [0u8;Q5_KX8_BLOCK_BYTES];
    fill_header(&mut out, &rows);
    let ghost head = out@;
    fill_interleaved(&mut out, 128, &rows, 16, 32, interleave);
    let ghost mid = out@;
    fill_interleaved(&mut out, 384, &rows, 48, 128, interleave);
    proof {
        let want = packed_block(KQuant::Q5K, row_views(rows), interleave as int);
        assert forall|t: int| 0 <= t < 1408 implies out@[t] == want[t] by {
            if t >= 384 {
                assert(out[384 + (t - 384)] == interleaved_byte(row_views(rows), 8, interleave as int, 48, t - 384));
            } else if t >= 128 {
                assert(mid[128 + (t - 128)] == interleaved_byte(row_views(rows), 8, interleave as int, 16, t - 128));
            } else {
                assert(mid[t] == head[t]);
                assert(head[t] == packed_byte(KQuant::Q4K, row_views(rows), 8, t));
            }
        }
        assert(out@ =~= want);
    }
    out
}

/// Pack eight canonical Q6_K super-blocks (same column-block index) into
/// one `block_q6_Kx8`. `interleave` is 4 or 8.
pub fn make_block_q6_kx8(rows: [&[u8]; Q6_KX8_NROWS], interleave: usize) -> (out: [u8; Q6_KX8_BLOCK_BYTES])
    requires
        interleave == 4 || interleave == 8,
        forall|i: int| 0 <= i < 8 ==> #[trigger] rows[i]@.len() == Q6_K_BLOCK_BYTES,
    ensures
        out@ == packed_block(KQuant::Q6K, row_views(rows), interleave as int),
{
    let mut out: [u8; Q6_KX8_BLOCK_BYTES] = [0u8;Q6_KX8_BLOCK_BYTES];
    for i in 0usize..8
        invariant
            forall|i: int| 0 <= i < 8 ==> #[trigger] rows[i]@.len() == Q6_K_BLOCK_BYTES,
            forall|t: int| 0 <= t < 2 * i ==> #[trigger] out[t] == rows[t / 2]@[208 + t % 2],
    {
        let bytes: &[u8] = rows[i];
        assert(rows[i as int]@.len() == Q6_K_BLOCK_BYTES);
        out[2 * i] = bytes[208];
        out[2 * i + 1] = bytes[209];
    }
    for u in 0usize..128
        invariant
            forall|i: int| 0 <= i < 8 ==> #[trigger] rows[i]@.len() == Q6_K_BLOCK_BYTES,
            forall|t: int| 0 <= t < 16 ==> #[trigger] out[t] == rows[t / 2]@[208 + t % 2],
            forall|t: int| 16 <= t < 16 + u ==> #[trigger] out[t] == rows[(t - 16) % 8]@[192 + (t - 16) / 8],
    {
        let bytes: &[u8] = rows[u % 8];
        assert(rows[u as int % 8]@.len() == Q6_K_BLOCK_BYTES);
        out[16 + u] = bytes[192 + u / 8];
    }
    let ghost head = out@;
    fill_interleaved(&mut out, 144, &rows, 0, 128, interleave);
    let ghost mid = out@;
    fill_interleaved(&mut out, 1168, &rows, 128, 64, interleave);
    proof {
        let want = packed_block(KQuant::Q6K, row_views(rows), interleave as int);
        assert forall|t: int| 0 <= t < 1680 implies out@[t] == want[t] by {
            if t >= 1168 {
                assert(out[1168 + (t - 1168)] == interleaved_byte(row_views(rows), 8, interleave as int, 128, t - 1168));
            } else if t >= 144 {
                assert(mid[144 + (t - 144)] == interleaved_byte(row_views(rows), 8, interleave as int, 0, t - 144));
            } else {
                assert(mid[t] == head[t]);
            }
        }
        assert(out@ =~= want);
    }
    out
}

/// Column block `b` of the eight rows of row-group `g`, out of a row-major
/// matrix of canonical blocks.
pub open spec fn group_rows(fmt: KQuant, data: Seq<u8>, n_blocks: int, g: int, b: int) -> Seq<Seq<u8>> {
    Seq::new(
        8,
        |r: int|
            data.subrange(
                ((g * 8 + r) * n_blocks + b) * fmt.row_bytes(),
                ((g * 8 + r) * n_blocks + b) * fmt.row_bytes() + fmt.row_bytes(),
            ),
    )
}

/// Byte `i` of a packed matrix: blocks in row-group order, then column order.
pub open spec fn packed_matrix_byte(fmt: KQuant, data: Seq<u8>, n_blocks: int, il: int, i: int) -> u8 {
    let k = i / fmt.packed_bytes();
    packed_byte(
        fmt,
        group_rows(fmt, data, n_blocks, k / n_blocks, k % n_blocks),
        il,
        i % fmt.packed_bytes(),
    )
}

/// The packed form of a row-major matrix of canonical blocks. Rows past the
/// last full group of eight are left out.
pub open spec fn packed_matrix(fmt: KQuant, data: Seq<u8>, rows: int, n_blocks: int, il: int) -> Seq<u8> {
    Seq::new(
        ((rows / 8) * n_blocks * fmt.packed_bytes()) as nat,
        |i: int| packed_matrix_byte(fmt, data, n_blocks, il, i),
    )
}

/// A matrix of `rows` rows of `n_blocks` canonical blocks each.
pub open spec fn is_matrix(fmt: KQuant, data: Seq<u8>, rows: int, n_blocks: int) -> bool {
    data.len() == rows * n_blocks * fmt.row_bytes()
}

/// A packed block is exactly as long as the eight blocks it holds.
pub proof fn law_packing_keeps_the_size(fmt: KQuant)
    ensures
        fmt.packed_bytes() == 8 * fmt.row_bytes(),
{
}

pub proof fn lemma_block_in_matrix(n_blocks: int, n_rows: int, unit: int, row: int, b: int)
    requires
        0 <= row < n_rows,
        0 <= b < n_blocks,
        0 < unit,
    ensures
        0 <= (row * n_blocks + b) * unit,
        (row * n_blocks + b) * unit + unit <= n_rows * n_blocks * unit,
        0 <= row * n_blocks + b < n_rows * n_blocks,
{
    assert(row * n_blocks + n_blocks <= n_rows * n_blocks) by (nonlinear_arith)
        requires
            0 <= row < n_rows,
            0 <= n_blocks,
    ;
    assert(0 <= row * n_blocks) by (nonlinear_arith)
        requires
            0 <= row,
            0 <= n_blocks,
    ;
    let at = row * n_blocks + b;
    let total = n_rows * n_blocks;
    assert(at * unit + unit <= total * unit && 0 <= at * unit) by (nonlinear_arith)
        requires
            0 <= at,
            at + 1 <= total,
            0 < unit,
    ;
}

/// Appends the packed form of eight row blocks.
fn append_block(fmt: KQuant, out: &mut Vec<u8>, rows: [&[u8]; 8], interleave: usize)
    requires
        interleave == 4 || interleave == 8,
        forall|i: int| 0 <= i < 8 ==> #[trigger] rows[i]@.len() == fmt.row_bytes(),
    ensures
        final(out)@ == old(out)@ + packed_block(fmt, row_views(rows), interleave as int),
{
    match fmt {
        KQuant::Q4K => {
            let block: [u8; Q4_KX8_BLOCK_BYTES] = make_block_q4_kx8(rows, interleave);
            out.extend_from_slice(&block);
            assert(out@ =~= old(out)@ + block@);
        },
        KQuant::Q5K => {
            let block: [u8; Q5_KX8_BLOCK_BYTES] = make_block_q5_kx8(rows, interleave);
            out.extend_from_slice(&block);
            assert(out@ =~= old(out)@ + block@);
        },
        KQuant::Q6K => {
            let block: [u8; Q6_KX8_BLOCK_BYTES] = make_block_q6_kx8(rows, interleave);
            out.extend_from_slice(&block);
            assert(out@ =~= old(out)@ + block@);
        },
    }
}

/// Bytes of one canonical block.
fn row_bytes_of(fmt: KQuant) -> (n: usize)
    ensures
        n == fmt.row_bytes(),
{
    match fmt {
        KQuant::Q4K => Q4_K_BLOCK_BYTES,
        KQuant::Q5K => Q5_K_BLOCK_BYTES,
        KQuant::Q6K => Q6_K_BLOCK_BYTES,
    }
}

/// The eight row blocks at column block `b` of row-group `g`.
fn gather_rows<'a>(
    fmt: KQuant,
    data: &'a [u8],
    rows: usize,
    n_blocks: usize,
    g: usize,
    b: usize,
) -> (refs: [&'a [u8]; 8])
    requires
        is_matrix(fmt, data@, rows as int, n_blocks as int),
        g < rows / 8,
        b < n_blocks,
    ensures
        row_views(refs) == group_rows(fmt, data@, n_blocks as int, g as int, b as int),
        forall|i: int| 0 <= i < 8 ==> #[trigger] refs[i]@.len() == fmt.row_bytes(),
{
    let unit: usize = row_bytes_of(fmt);
    let total: usize = data.len();
    let mut refs: [&'a [u8]; 8] = [data;8];
    for r in 0usize..8
        invariant
            unit == fmt.row_bytes(),
            total == data@.len(),
            is_matrix(fmt, data@, rows as int, n_blocks as int),
            g < rows / 8,
            b < n_blocks,
            forall|i: int|
                0 <= i < r ==> #[trigger] refs[i]@ == group_rows(
                    fmt,
                    data@,
                    n_blocks as int,
                    g as int,
                    b as int,
                )[i],
            forall|i: int| 0 <= i < r ==> #[trigger] refs[i]@.len() == fmt.row_bytes(),
    {
        proof {
            lemma_block_in_matrix(n_blocks as int, rows as int, unit as int, g * 8 + r, b as int);
            assert(rows * n_blocks <= rows * n_blocks * unit) by (nonlinear_arith)
                requires
                    0 <= rows * n_blocks,
                    1 <= unit,
            ;
        }
        let start: usize = ((g * 8 + r) * n_blocks + b) * unit;
        refs[r] = vstd::slice::slice_subrange(data, start, start + unit);
    }
    proof {
        assert(row_views(refs) =~= group_rows(fmt, data@, n_blocks as int, g as int, b as int));
    }
    refs
}

/// Repacks a whole matrix, one block of eight rows after another.
fn pack_k_matrix(fmt: KQuant, data: &[u8], rows: usize, n_blocks: usize, interleave: usize) -> (out: Vec<u8>)
    requires
        interleave == 4 || interleave == 8,
        is_matrix(fmt, data@, rows as int, n_blocks as int),
    ensures
        out@ == packed_matrix(fmt, data@, rows as int, n_blocks as int, interleave as int),
{
    let n_groups: usize = rows / 8;
    let mut out: Vec<u8> = Vec::new();
    assert(0int * n_blocks * fmt.packed_bytes() == 0) by (nonlinear_arith);
    for g in 0usize..n_groups
        invariant
            interleave == 4 || interleave == 8,
            n_groups == rows / 8,
            is_matrix(fmt, data@, rows as int, n_blocks as int),
            out@.len() == g * n_blocks * fmt.packed_bytes(),
            forall|i: int|
                0 <= i < out@.len() ==> #[trigger] out@[i] == packed_matrix_byte(
                    fmt,
                    data@,
                    n_blocks as int,
                    interleave as int,
                    i,
                ),
    {
        assert(g * n_blocks * fmt.packed_bytes() == (g * n_blocks + 0) * fmt.packed_bytes());
        for b in 0usize..n_blocks
            invariant
                interleave == 4 || interleave == 8,
                g < n_groups,
                n_groups == rows / 8,
                is_matrix(fmt, data@, rows as int, n_blocks as int),
                out@.len() == (g * n_blocks + b) * fmt.packed_bytes(),
                forall|i: int|
                    0 <= i < out@.len() ==> #[trigger] out@[i] == packed_matrix_byte(
                        fmt,
                        data@,
                        n_blocks as int,
                        interleave as int,
                        i,
                    ),
        {
            let refs: [&[u8]; 8] = gather_rows(fmt, data, rows, n_blocks, g, b);
            let ghost before = out@;
            append_block(fmt, &mut out, refs, interleave);
            proof {
                let unit = fmt.packed_bytes();
                let k = g * n_blocks + b;
                lemma_block_index(n_blocks as int, g as int, b as int);
                assert forall|i: int| 0 <= i < out@.len() implies #[trigger] out@[i] == packed_matrix_byte(
                    fmt,
                    data@,
                    n_blocks as int,
                    interleave as int,
                    i,
                ) by {
                    if i < before.len() {
                        assert(out@[i] == before[i]);
                    } else {
                        lemma_byte_index(unit, k, i - k * unit);
                        assert(out@[i] == packed_block(fmt, row_views(refs), interleave as int)[i - k * unit]);
                    }
                }
                assert((k + 1) * unit == k * unit + unit) by (nonlinear_arith);
            }
        }
        assert((g + 1) * n_blocks == g * n_blocks + n_blocks) by (nonlinear_arith);
    }
    out
}

pub proof fn lemma_block_index(n_blocks: int, g: int, b: int)
    requires
        0 <= g,
        0 <= b < n_blocks,
    ensures
        (g * n_blocks + b) / n_blocks == g,
        (g * n_blocks + b) % n_blocks == b,
{
    vstd::arithmetic::div_mod::lemma_fundamental_div_mod_converse(g * n_blocks + b, n_blocks, g, b);
}

pub proof fn lemma_byte_index(unit: int, k: int, t: int)
    requires
        0 <= k,
        0 <= t < unit,
    ensures
        (k * unit + t) / unit == k,
        (k * unit + t) % unit == t,
{
    vstd::arithmetic::div_mod::lemma_fundamental_div_mod_converse(k * unit + t, unit, k, t);
}

/// Repack a full Q4_K matrix (row-major canonical blocks) into interleaved
/// `block_q4_Kx8` groups. Rows not divisible by 8 are left out (caller
/// handles the tail with per-row dots).
pub fn pack_q4_k_matrix_x8(data: &[u8], rows: usize, cols: usize, interleave: usize) -> (out: Vec<u8>)
    requires
        cols % Q4_K_BLOCK_ELEMS == 0,
        is_matrix(KQuant::Q4K, data@, rows as int, cols as int / 256),
        interleave == 4 || interleave == 8,
    ensures
        out@ == packed_matrix(KQuant::Q4K, data@, rows as int, cols as int / 256, interleave as int),
{
    pack_k_matrix(KQuant::Q4K, data, rows, cols / Q4_K_BLOCK_ELEMS, interleave)
}

/// Repack a full Q5_K matrix into interleaved `block_q5_Kx8` groups. Rows
/// not divisible by 8 are left out.
pub fn pack_q5_k_matrix_x8(data: &[u8], rows: usize, cols: usize, interleave: usize) -> (out: Vec<u8>)
    requires
        cols % Q5_K_BLOCK_ELEMS == 0,
        is_matrix(KQuant::Q5K, data@, rows as int, cols as int / 256),
        interleave == 4 || interleave == 8,
    ensures
        out@ == packed_matrix(KQuant::Q5K, data@, rows as int, cols as int / 256, interleave as int),
{
    pack_k_matrix(KQuant::Q5K, data, rows, cols / Q5_K_BLOCK_ELEMS, interleave)
}

/// Repack a full Q6_K matrix into interleaved `block_q6_Kx8` groups. Rows
/// not divisible by 8 are left out.
pub fn pack_q6_k_matrix_x8(data: &[u8], rows: usize, cols: usize, interleave: usize) -> (out: Vec<u8>)
    requires
        cols % Q6_K_BLOCK_ELEMS == 0,
        is_matrix(KQuant::Q6K, data@, rows as int, cols as int / 256),
        interleave == 4 || interleave == 8,
    ensures
        out@ == packed_matrix(KQuant::Q6K, data@, rows as int, cols as int / 256, interleave as int),
{
    pack_k_matrix(KQuant::Q6K, data, rows, cols / Q6_K_BLOCK_ELEMS, interleave)
}

/// Packed block `g * nb + b` holds column block `b` of rows `8 * g` to
/// `8 * g + 7`, and a packed matrix has one such block for every full group
/// of eight rows and every column block.
pub proof fn law_a_packed_matrix_is_its_blocks(
    fmt: KQuant,
    data: Seq<u8>,
    rows: int,
    nb: int,
    il: int,
    g: int,
    b: int,
    t: int,
)
    requires
        is_matrix(fmt, data, rows, nb),
        0 <= g < rows / 8,
        0 <= b < nb,
        0 <= t < 8 * fmt.row_bytes(),
    ensures
        ({
            let packed = packed_matrix(fmt, data, rows, nb, il);
            let n = fmt.row_bytes();
            let blocks = Seq::new(
                8,
                |j: int| Seq::new(n as nat, |i: int| data[((8 * g + j) * nb + b) * n + i]),
            );
            &&& packed.len() == (rows / 8) * nb * (8 * n)
            &&& packed[(g * nb + b) * (8 * n) + t] == packed_block(fmt, blocks, il)[t]
        }),
{
    let n = fmt.row_bytes();
    let unit = 8 * n;
    let blocks = Seq::new(8, |j: int| Seq::new(n as nat, |i: int| data[((8 * g + j) * nb + b) * n + i]));
    let group = group_rows(fmt, data, nb, g, b);
    lemma_block_index(nb, g, b);
    lemma_block_in_matrix(nb, rows / 8, unit, g, b);
    lemma_byte_index(unit, g * nb + b, t);
    assert forall|j: int| 0 <= j < 8 implies #[trigger] group[j] == blocks[j] by {
        lemma_block_in_matrix(nb, rows, n, g * 8 + j, b);
        assert(group[j] =~= blocks[j]);
    }
    assert(group =~= blocks);
}

/// How long a block of each format is, as it comes and packed by eight.
pub proof fn law_block_sizes()
    ensures
        KQuant::Q4K.row_bytes() == 144,
        KQuant::Q5K.row_bytes() == 176,
        KQuant::Q6K.row_bytes() == 210,
        KQuant::Q4K.packed_bytes() == 1152,
        KQuant::Q5K.packed_bytes() == 1408,
        KQuant::Q6K.packed_bytes() == 1680,
{
}

} // verus!
