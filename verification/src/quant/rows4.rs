//! The four-row interleaved layouts of Q8_0 and Q4_0, and their sums.
use vstd::prelude::*;
use crate::quant::blocks::{
    interleaved_at, interleaved_byte, law_interleaving_is_undone, lemma_interleaved_place, lemma_source_place,
    signed_byte, source_pos, source_row,
};
use crate::quant::kernel_laws::lemma_chunks;
use crate::quant::kernels::{signed_byte_of, Kernel};
use crate::quant::matmul::CpuFeatures;
use crate::quant::repack::{lemma_block_in_matrix, lemma_block_index, lemma_byte_index, row_views};
use crate::quant::sums::{lemma_sum_congruent, lemma_sum_split, sum_span};

verus! {

/// Weights per Q8_0 block.
pub const Q8_0_BLOCK_ELEMS: usize = 32;

/// Bytes per canonical Q8_0 block: d, 32 signed bytes.
pub const Q8_0_BLOCK_BYTES: usize = 34;

/// Weights per Q4_0 block.
pub const Q4_0_BLOCK_ELEMS: usize = 32;

/// Bytes per canonical Q4_0 block: d, 16 nibble bytes.
pub const Q4_0_BLOCK_BYTES: usize = 18;

/// Bytes per interleaved `block_q8_0x4` (4 x f16 d + 128 quants).
pub const Q8_0X4_BLOCK_BYTES: usize = 136;

/// Number of Q8_0 rows packed into one interleaved block.
pub const Q8_0X4_NROWS: usize = 4;

/// The interleave width the Q8_0 kernels read.
pub const Q8_0X4_INTERLEAVE: usize = 4;

/// How many activations one Q8_0 GEMM pass keeps in flight.
pub const Q8_0X4_GEMM_NC: usize = 8;

/// Bytes per interleaved `block_q4_0x4` (4 x f16 d + 64 nibble bytes).
pub const Q4_0X4_BLOCK_BYTES: usize = 72;

/// Number of Q4_0 rows packed into one interleaved block.
pub const Q4_0X4_NROWS: usize = 4;

/// The interleave width the Q4_0 kernels read.
pub const Q4_0X4_INTERLEAVE: usize = 4;

/// How many activations one Q4_0 GEMM pass keeps in flight.
pub const Q4_0X4_GEMM_NC: usize = 4;

/// The two formats that have a four-row interleaved layout.
#[derive(Clone, Copy, Debug, PartialEq, Eq, Structural)]
pub enum Quant4 {
    /// Signed eight-bit weights.
    Q80,
    /// Four-bit weights offset by 8.
    Q40,
}

impl Quant4 {
    /// Bytes of one canonical block.
    pub open spec fn row_bytes(self) -> int {
        match self {
            Quant4::Q80 => 34,
            Quant4::Q40 => 18,
        }
    }

    /// Bytes of one packed block of four rows.
    pub open spec fn packed_bytes(self) -> int {
        match self {
            Quant4::Q80 => 136,
            Quant4::Q40 => 72,
        }
    }

    /// Quant bytes of one canonical block.
    pub open spec fn quant_bytes(self) -> int {
        match self {
            Quant4::Q80 => 32,
            Quant4::Q40 => 16,
        }
    }

    /// Which quant byte of its row holds weight `e`.
    pub open spec fn pos(self, e: int) -> int {
        match self {
            Quant4::Q80 => e,
            Quant4::Q40 => e % 16,
        }
    }
}

/// A nibble read as a four-bit two's-complement number.
pub open spec fn signed_nibble(n: int) -> int {
    if n < 8 { n } else { n - 16 }
}

/// How a quant byte is stored in a packed block: Q4_0 bytes have the top
/// bit of both nibbles flipped, which turns the offset of 8 into a sign.
pub open spec fn stored4(fmt: Quant4, b: u8) -> u8 {
    match fmt {
        Quant4::Q80 => b,
        Quant4::Q40 => b ^ 0x88,
    }
}

/// The weight at `e` of a canonical block.
pub open spec fn row_weight4(fmt: Quant4, row: Seq<u8>, e: int) -> int {
    match fmt {
        Quant4::Q80 => signed_byte(row[2 + e]),
        Quant4::Q40 => if e < 16 {
            row[2 + e] as int % 16 - 8
        } else {
            row[2 + e - 16] as int / 16 - 8
        },
    }
}

/// The weight that stored byte `byte` holds for element `e`.
pub open spec fn stored_weight4(fmt: Quant4, byte: u8, e: int) -> int {
    match fmt {
        Quant4::Q80 => signed_byte(byte),
        Quant4::Q40 => if e < 16 {
            signed_nibble(byte as int % 16)
        } else {
            signed_nibble(byte as int / 16)
        },
    }
}

/// The weight at `e` of row `j` of a packed block starting at `base`.
pub open spec fn packed_weight4(fmt: Quant4, blk: Seq<u8>, base: int, il: int, j: int, e: int) -> int {
    stored_weight4(fmt, blk[base + 8 + interleaved_at(4, il, j, fmt.pos(e))], e)
}

/// Byte `t` of the packed block made of four canonical blocks.
pub open spec fn packed_byte4(fmt: Quant4, rows: Seq<Seq<u8>>, il: int, t: int) -> u8 {
    if t < 8 {
        rows[t / 2][t % 2]
    } else {
        stored4(fmt, interleaved_byte(rows, 4, il, 2, t - 8))
    }
}

/// The packed block made of four canonical blocks.
pub open spec fn packed_block4(fmt: Quant4, rows: Seq<Seq<u8>>, il: int) -> Seq<u8> {
    Seq::new(fmt.packed_bytes() as nat, |t: int| packed_byte4(fmt, rows, il, t))
}

proof fn lemma_flip(b: u8)
    ensures
        signed_nibble((b ^ 0x88) as int % 16) == b as int % 16 - 8,
        signed_nibble((b ^ 0x88) as int / 16) == b as int / 16 - 8,
{
    assert((b ^ 0x88) % 16 == (if b % 16 < 8 { b % 16 + 8 } else { b % 16 - 8 })) by (bit_vector);
    assert((b ^ 0x88) / 16 == (if b / 16 < 8 { b / 16 + 8 } else { b / 16 - 8 })) by (bit_vector);
}

/// A packed block of four rows holds the weights of the rows it was made of.
pub proof fn law_packed_block4_keeps_every_row(fmt: Quant4, rows: Seq<Seq<u8>>, il: int, j: int, e: int)
    requires
        rows.len() == 4,
        forall|r: int| 0 <= r < 4 ==> #[trigger] rows[r].len() == fmt.row_bytes(),
        il == 4 || il == 8,
        0 <= j < 4,
        0 <= e < 32,
    ensures
        packed_weight4(fmt, packed_block4(fmt, rows, il), 0, il, j, e) == row_weight4(fmt, rows[j], e),
{
    let p = fmt.pos(e);
    law_interleaving_is_undone(4, il, j, p);
    lemma_interleaved_place(4, il, j, p);
    let u = interleaved_at(4, il, j, p);
    assert(0 <= u < 4 * fmt.quant_bytes());
    assert(packed_block4(fmt, rows, il)[8 + u] == stored4(fmt, rows[j][2 + p]));
    lemma_flip(rows[j][2 + p]);
}

/// The row that interleaved byte `u` of four rows belongs to, and its place.
fn source_of4(u: usize, n: usize, interleave: usize) -> (r: (usize, usize))
    requires
        interleave == 4 || interleave == 8,
        n % 8 == 0,
        u < 4 * n,
    ensures
        r.0 == source_row(4, interleave as int, u as int),
        r.1 == source_pos(4, interleave as int, u as int),
        r.0 < 4,
        r.1 < n,
{
    proof {
        lemma_source_place(4, interleave as int, u as int);
    }
    if interleave == 4 {
        assert(u / 16 <= n / 4 - 1);
        ((u / 4) % 4, (u / 16) * 4 + u % 4)
    } else {
        assert(u / 32 <= n / 8 - 1);
        ((u / 8) % 4, (u / 32) * 8 + u % 8)
    }
}

/// Pack four canonical Q8_0 blocks (same column-block index) into one
/// `block_q8_0x4`. `interleave` is 4 or 8.
pub fn make_block_q8_0x4(rows: [&[u8]; Q8_0X4_NROWS], interleave: usize) -> (out: [u8; Q8_0X4_BLOCK_BYTES])
    requires
        interleave == 4 || interleave == 8,
        forall|i: int| 0 <= i < 4 ==> #[trigger] rows[i]@.len() == Q8_0_BLOCK_BYTES,
    ensures
        out@ == packed_block4(Quant4::Q80, row_views(rows), interleave as int),
{
    let mut out: [u8; Q8_0X4_BLOCK_BYTES] = [0u8;Q8_0X4_BLOCK_BYTES];
    for t in 0usize..136
        invariant
            interleave == 4 || interleave == 8,
            forall|i: int| 0 <= i < 4 ==> #[trigger] rows[i]@.len() == Q8_0_BLOCK_BYTES,
            forall|i: int|
                0 <= i < t ==> #[trigger] out[i] == packed_byte4(
                    Quant4::Q80,
                    row_views(rows),
                    interleave as int,
                    i,
                ),
    {
        let (row, at): (usize, usize) = if t < 8 {
            (t / 2, t % 2)
        } else {
            let (row, pos): (usize, usize) = source_of4(t - 8, 32, interleave);
            (row, 2 + pos)
        };
        assert(rows[row as int]@.len() == Q8_0_BLOCK_BYTES);
        let bytes: &[u8] = rows[row];
        out[t] = bytes[at];
    }
    assert(out@ =~= packed_block4(Quant4::Q80, row_views(rows), interleave as int));
    out
}

/// Pack four canonical Q4_0 blocks (same column-block index) into one
/// `block_q4_0x4`. `interleave` is 4 or 8.
pub fn make_block_q4_0x4(rows: [&[u8]; Q4_0X4_NROWS], interleave: usize) -> (out: [u8; Q4_0X4_BLOCK_BYTES])
    requires
        interleave == 4 || interleave == 8,
        forall|i: int| 0 <= i < 4 ==> #[trigger] rows[i]@.len() == Q4_0_BLOCK_BYTES,
    ensures
        out@ == packed_block4(Quant4::Q40, row_views(rows), interleave as int),
{
    let mut out: [u8; Q4_0X4_BLOCK_BYTES] = [0u8;Q4_0X4_BLOCK_BYTES];
    for t in 0usize..72
        invariant
            interleave == 4 || interleave == 8,
            forall|i: int| 0 <= i < 4 ==> #[trigger] rows[i]@.len() == Q4_0_BLOCK_BYTES,
            forall|i: int|
                0 <= i < t ==> #[trigger] out[i] == packed_byte4(
                    Quant4::Q40,
                    row_views(rows),
                    interleave as int,
                    i,
                ),
    {
        if t < 8 {
            assert(rows[t as int / 2]@.len() == Q4_0_BLOCK_BYTES);
            let bytes: &[u8] = rows[t / 2];
            out[t] = bytes[t % 2];
        } else {
            let (row, pos): (usize, usize) = source_of4(t - 8, 16, interleave);
            assert(rows[row as int]@.len() == Q4_0_BLOCK_BYTES);
            let bytes: &[u8] = rows[row];
            out[t] = bytes[2 + pos] ^ 0x88;
        }
    }
    assert(out@ =~= packed_block4(Quant4::Q40, row_views(rows), interleave as int));
    out
}

/// Column block `b` of the four rows of row-group `g`.
pub open spec fn group_rows4(fmt: Quant4, data: Seq<u8>, n_blocks: int, g: int, b: int) -> Seq<Seq<u8>> {
    Seq::new(
        4,
        |r: int|
            data.subrange(
                ((g * 4 + r) * n_blocks + b) * fmt.row_bytes(),
                ((g * 4 + r) * n_blocks + b) * fmt.row_bytes() + fmt.row_bytes(),
            ),
    )
}

/// Byte `i` of a packed matrix: blocks in row-group order, then column order.
pub open spec fn packed_matrix_byte4(fmt: Quant4, data: Seq<u8>, n_blocks: int, il: int, i: int) -> u8 {
    let k = i / fmt.packed_bytes();
    packed_byte4(fmt, group_rows4(fmt, data, n_blocks, k / n_blocks, k % n_blocks), il, i % fmt.packed_bytes())
}

/// The packed form of a row-major matrix of canonical blocks. Rows past the
/// last full group of four are left out.
pub open spec fn packed_matrix4(fmt: Quant4, data: Seq<u8>, rows: int, n_blocks: int, il: int) -> Seq<u8> {
    Seq::new(
        ((rows / 4) * n_blocks * fmt.packed_bytes()) as nat,
        |i: int| packed_matrix_byte4(fmt, data, n_blocks, il, i),
    )
}

/// A matrix of `rows` rows of `n_blocks` canonical blocks each.
pub open spec fn is_matrix4(fmt: Quant4, data: Seq<u8>, rows: int, n_blocks: int) -> bool {
    data.len() == rows * n_blocks * fmt.row_bytes()
}

/// Appends the packed form of four row blocks.
fn append_block4(fmt: Quant4, out: &mut Vec<u8>, rows: [&[u8]; 4], interleave: usize)
    requires
        interleave == 4 || interleave == 8,
        forall|i: int| 0 <= i < 4 ==> #[trigger] rows[i]@.len() == fmt.row_bytes(),
    ensures
        final(out)@ == old(out)@ + packed_block4(fmt, row_views(rows), interleave as int),
{
    match fmt {
        Quant4::Q80 => {
            let block: [u8; Q8_0X4_BLOCK_BYTES] = make_block_q8_0x4(rows, interleave);
            out.extend_from_slice(&block);
            assert(out@ =~= old(out)@ + block@);
        },
        Quant4::Q40 => {
            let block: [u8; Q4_0X4_BLOCK_BYTES] = make_block_q4_0x4(rows, interleave);
            out.extend_from_slice(&block);
            assert(out@ =~= old(out)@ + block@);
        },
    }
}

/// The four row blocks at column block `b` of row-group `g`.
fn gather_rows4<'a>(
    fmt: Quant4,
    data: &'a [u8],
    rows: usize,
    n_blocks: usize,
    g: usize,
    b: usize,
) -> (refs: [&'a [u8]; 4])
    requires
        is_matrix4(fmt, data@, rows as int, n_blocks as int),
        g < rows / 4,
        b < n_blocks,
    ensures
        row_views(refs) == group_rows4(fmt, data@, n_blocks as int, g as int, b as int),
        forall|i: int| 0 <= i < 4 ==> #[trigger] refs[i]@.len() == fmt.row_bytes(),
{
    let unit: usize = match fmt {
        Quant4::Q80 => Q8_0_BLOCK_BYTES,
        Quant4::Q40 => Q4_0_BLOCK_BYTES,
    };
    let total: usize = data.len();
    let mut refs: [&'a [u8]; 4] = [data;4];
    for r in 0usize..4
        invariant
            unit == fmt.row_bytes(),
            total == data@.len(),
            is_matrix4(fmt, data@, rows as int, n_blocks as int),
            g < rows / 4,
            b < n_blocks,
            forall|i: int|
                0 <= i < r ==> #[trigger] refs[i]@ == group_rows4(
                    fmt,
                    data@,
                    n_blocks as int,
                    g as int,
                    b as int,
                )[i],
            forall|i: int| 0 <= i < r ==> #[trigger] refs[i]@.len() == fmt.row_bytes(),
    {
        proof {
            lemma_block_in_matrix(n_blocks as int, rows as int, unit as int, g * 4 + r, b as int);
            assert(rows * n_blocks <= rows * n_blocks * unit) by (nonlinear_arith)
                requires
                    0 <= rows * n_blocks,
                    1 <= unit,
            ;
        }
        let start: usize = ((g * 4 + r) * n_blocks + b) * unit;
        refs[r] = vstd::slice::slice_subrange(data, start, start + unit);
    }
    proof {
        assert(row_views(refs) =~= group_rows4(fmt, data@, n_blocks as int, g as int, b as int));
    }
    refs
}

/// Repacks a whole matrix, one block of four rows after another.
fn pack_matrix4(fmt: Quant4, data: &[u8], rows: usize, n_blocks: usize, interleave: usize) -> (out: Vec<u8>)
    requires
        interleave == 4 || interleave == 8,
        is_matrix4(fmt, data@, rows as int, n_blocks as int),
    ensures
        out@ == packed_matrix4(fmt, data@, rows as int, n_blocks as int, interleave as int),
{
    let n_groups: usize = rows / 4;
    let mut out: Vec<u8> = Vec::new();
    assert(0int * n_blocks * fmt.packed_bytes() == 0) by (nonlinear_arith);
    for g in 0usize..n_groups
        invariant
            interleave == 4 || interleave == 8,
            n_groups == rows / 4,
            is_matrix4(fmt, data@, rows as int, n_blocks as int),
            out@.len() == g * n_blocks * fmt.packed_bytes(),
            forall|i: int|
                0 <= i < out@.len() ==> #[trigger] out@[i] == packed_matrix_byte4(
                    fmt,
                    data@,
                    n_blocks as int,
                    interleave as int,
                    i,
                ),
    {
        assert(g * n_blocks * fmt.packed_bytes() == (g * n_blocks + 0) * fmt.packed_bytes());
        for b in 0usize..n_blocks
            invariant
                interleave == 4 || interleave == 8,
                g < n_groups,
                n_groups == rows / 4,
                is_matrix4(fmt, data@, rows as int, n_blocks as int),
                out@.len() == (g * n_blocks + b) * fmt.packed_bytes(),
                forall|i: int|
                    0 <= i < out@.len() ==> #[trigger] out@[i] == packed_matrix_byte4(
                        fmt,
                        data@,
                        n_blocks as int,
                        interleave as int,
                        i,
                    ),
        {
            let refs: [&[u8]; 4] = gather_rows4(fmt, data, rows, n_blocks, g, b);
            let ghost before = out@;
            append_block4(fmt, &mut out, refs, interleave);
            proof {
                let unit = fmt.packed_bytes();
                let k = g * n_blocks + b;
                lemma_block_index(n_blocks as int, g as int, b as int);
                assert forall|i: int| 0 <= i < out@.len() implies #[trigger] out@[i] == packed_matrix_byte4(
                    fmt,
                    data@,
                    n_blocks as int,
                    interleave as int,
                    i,
                ) by {
                    if i < before.len() {
                        assert(out@[i] == before[i]);
                    } else {
                        lemma_byte_index(unit, k, i - k * unit);
                        assert(out@[i] == packed_block4(fmt, row_views(refs), interleave as int)[i - k * unit]);
                    }
                }
                assert((k + 1) * unit == k * unit + unit) by (nonlinear_arith);
            }
        }
        assert((g + 1) * n_blocks == g * n_blocks + n_blocks) by (nonlinear_arith);
    }
    out
}

/// Repack a Q8_0 matrix into interleaved `block_q8_0x4` groups. Tail rows
/// (not divisible by 4) are omitted.
pub fn pack_q8_0_matrix_x4(data: &[u8], rows: usize, cols: usize, interleave: usize) -> (out: Vec<u8>)
    requires
        cols % Q8_0_BLOCK_ELEMS == 0,
        is_matrix4(Quant4::Q80, data@, rows as int, cols as int / 32),
        interleave == 4 || interleave == 8,
    ensures
        out@ == packed_matrix4(Quant4::Q80, data@, rows as int, cols as int / 32, interleave as int),
{
    pack_matrix4(Quant4::Q80, data, rows, cols / Q8_0_BLOCK_ELEMS, interleave)
}

/// Repack a Q4_0 matrix into interleaved `block_q4_0x4` groups. Tail rows
/// (not divisible by 4) are omitted.
pub fn pack_q4_0_matrix_x4(data: &[u8], rows: usize, cols: usize, interleave: usize) -> (out: Vec<u8>)
    requires
        cols % Q4_0_BLOCK_ELEMS == 0,
        is_matrix4(Quant4::Q40, data@, rows as int, cols as int / 32),
        interleave == 4 || interleave == 8,
    ensures
        out@ == packed_matrix4(Quant4::Q40, data@, rows as int, cols as int / 32, interleave as int),
{
    pack_matrix4(Quant4::Q40, data, rows, cols / Q4_0_BLOCK_ELEMS, interleave)
}

/// One row of Q8-quantized activations: 32 signed bytes per block and the
/// block scales as raw f32 bits.
#[derive(Clone, Debug)]
pub struct Q8Activations {
    pub q: Vec<i8>,
    pub d_bits: Vec<u32>,
}

impl Q8Activations {
    /// The row covers exactly `nb` blocks.
    pub open spec fn covers(&self, nb: int) -> bool {
        self.q@.len() == nb * 32 && self.d_bits@.len() == nb
    }
}

/// The product of weight `e` of row `j` and its activation.
pub open spec fn elem_fn4(
    fmt: Quant4,
    packed: Seq<u8>,
    base: int,
    j: int,
    q: Seq<i8>,
    b: int,
) -> spec_fn(int) -> int {
    |e: int| packed_weight4(fmt, packed, base, 4, j, e) * q[b * 32 + e]
}

/// How many partial dot products a kernel emits per block and row.
pub open spec fn n_dots4(fmt: Quant4, kernel: Kernel) -> int {
    if kernel == Kernel::Scalar {
        match fmt {
            Quant4::Q80 => 8,
            Quant4::Q40 => 4,
        }
    } else {
        1
    }
}

/// Partial dot product `t` of row `j`: a run of four stored bytes for the
/// scalar kernel, the whole block otherwise.
pub open spec fn dot_part4(
    fmt: Quant4,
    kernel: Kernel,
    packed: Seq<u8>,
    base: int,
    j: int,
    q: Seq<i8>,
    b: int,
    t: int,
) -> int {
    let f = elem_fn4(fmt, packed, base, j, q, b);
    if kernel == Kernel::Scalar {
        match fmt {
            Quant4::Q80 => sum_span(f, t * 4, t * 4 + 4),
            Quant4::Q40 => sum_span(f, t * 4, t * 4 + 4) + sum_span(f, t * 4 + 16, t * 4 + 20),
        }
    } else {
        sum_span(f, 0, 32)
    }
}

/// The partial sums of a whole four-row product, block by block.
#[derive(Clone, Debug)]
pub struct Terms4 {
    /// Which grouping the sums follow.
    pub kernel: Kernel,
    /// `blocks[x*nb + b][t*4 + j]`: row-group `x`, column block `b`, partial
    /// sum `t` of row `j`.
    pub blocks: Vec<Vec<i32>>,
}

impl Terms4 {
    /// Block `k` holds the sums over packed block `k` and activation block `b`.
    pub open spec fn block_is(
        &self,
        fmt: Quant4,
        packed: Seq<u8>,
        q: Seq<i8>,
        k: int,
        b: int,
    ) -> bool {
        let dots = self.blocks@[k]@;
        &&& dots.len() == n_dots4(fmt, self.kernel) * 4
        &&& forall|i: int|
            0 <= i < dots.len() ==> #[trigger] dots[i] == dot_part4(
                fmt,
                self.kernel,
                packed,
                k * fmt.packed_bytes(),
                i % 4,
                q,
                b,
                i / 4,
            )
    }

    /// These are the partial sums of `groups` row-groups of `packed` times `act`.
    pub open spec fn are_of(&self, fmt: Quant4, packed: Seq<u8>, q: Seq<i8>, nb: int, groups: int) -> bool {
        &&& self.blocks@.len() == groups * nb
        &&& forall|k: int| 0 <= k < groups * nb ==> #[trigger] self.block_is(fmt, packed, q, k, k % nb)
    }
}

/// A product sixteen times as large as the one asked for fits an `i32`.
pub open spec fn fits_shifted(n: int) -> bool {
    i32::MIN <= 16 * n <= i32::MAX
}

/// The dot product of one stored Q4_0 byte with the two activations it
/// pairs with.
pub fn q4_0x4_nibble_dot(byte: u8, q8_lo: i32, q8_hi: i32) -> (r: i32)
    requires
        fits_shifted(signed_nibble(byte as int % 16) * q8_lo),
        fits_shifted(signed_nibble(byte as int / 16) * q8_hi),
        fits_shifted(signed_nibble(byte as int % 16) * q8_lo + signed_nibble(byte as int / 16) * q8_hi),
    ensures
        r == signed_nibble(byte as int % 16) * q8_lo + signed_nibble(byte as int / 16) * q8_hi,
{
    let lo: i32 = signed_nibble_of(byte % 16);
    let hi: i32 = signed_nibble_of(byte / 16);
    lo * q8_lo + hi * q8_hi
}

/// A nibble read as a four-bit two's-complement number.
fn signed_nibble_of(n: u8) -> (v: i32)
    requires
        n < 16,
    ensures
        v == signed_nibble(n as int),
        -8 <= v <= 7,
{
    if n < 8 {
        n as i32
    } else {
        n as i32 - 16
    }
}

/// The place of byte `p` of row `j` when four rows are dealt out four bytes
/// at a time.
fn place_of4(j: usize, p: usize) -> (u: usize)
    requires
        j < 4,
        p < 32,
    ensures
        u == interleaved_at(4, 4, j as int, p as int),
        u == (p / 4) * 16 + j * 4 + p % 4,
{
    proof {
        lemma_interleaved_place(4, 4, j as int, p as int);
    }
    (p / 4) * 16 + j * 4 + p % 4
}

/// The products of one stored byte: element `p`, and for Q4_0 element
/// `p + 16` as well.
fn byte_dot(
    fmt: Quant4,
    packed: &[u8],
    base: usize,
    j: usize,
    q: &[i8],
    b: usize,
    p: usize,
    Ghost(nb): Ghost<int>,
) -> (r: i32)
    requires
        j < 4,
        p < fmt.quant_bytes(),
        base + fmt.packed_bytes() <= packed.len(),
        q.len() == nb * 32,
        b < nb,
    ensures
        ({
            let f = elem_fn4(fmt, packed@, base as int, j as int, q@, b as int);
            match fmt {
                Quant4::Q80 => r == f(p as int),
                Quant4::Q40 => r == f(p as int) + f(p + 16),
            }
        }),
        -16384 <= r <= 16384,
{
    let u: usize = place_of4(j, p);
    assert(u < 4 * fmt.quant_bytes());
    let byte: u8 = packed[base + 8 + u];
    let lo: i32 = q[b * 32 + p] as i32;
    match fmt {
        Quant4::Q80 => {
            let w: i32 = signed_byte_of(byte);
            assert(-16384 <= w * lo <= 16384) by (nonlinear_arith)
                requires
                    -128 <= w <= 127,
                    -128 <= lo <= 127,
            ;
            w * lo
        },
        Quant4::Q40 => {
            let hi: i32 = q[b * 32 + p + 16] as i32;
            let (wl, wh): (i32, i32) = (signed_nibble_of(byte % 16), signed_nibble_of(byte / 16));
            assert(-1024 <= wl * lo <= 1024 && -1024 <= wh * hi <= 1024) by (nonlinear_arith)
                requires
                    -8 <= wl <= 7,
                    -8 <= wh <= 7,
                    -128 <= lo <= 127,
                    -128 <= hi <= 127,
            ;
            q4_0x4_nibble_dot(byte, lo, hi)
        },
    }
}

/// Adds up the products of stored bytes `lo..hi` of row `j`.
fn bytes_dot(
    fmt: Quant4,
    packed: &[u8],
    base: usize,
    j: usize,
    q: &[i8],
    b: usize,
    lo: usize,
    hi: usize,
    Ghost(nb): Ghost<int>,
) -> (sum: i32)
    requires
        j < 4,
        lo <= hi <= fmt.quant_bytes(),
        base + fmt.packed_bytes() <= packed.len(),
        q.len() == nb * 32,
        b < nb,
    ensures
        ({
            let f = elem_fn4(fmt, packed@, base as int, j as int, q@, b as int);
            match fmt {
                Quant4::Q80 => sum == sum_span(f, lo as int, hi as int),
                Quant4::Q40 => sum == sum_span(f, lo as int, hi as int) + sum_span(f, lo + 16, hi + 16),
            }
        }),
{
    let ghost f = elem_fn4(fmt, packed@, base as int, j as int, q@, b as int);
    let mut sum: i32 = 0;
    for p in lo..hi
        invariant
            j < 4,
            lo <= hi <= fmt.quant_bytes(),
            base + fmt.packed_bytes() <= packed.len(),
            q.len() == nb * 32,
            b < nb,
            f == elem_fn4(fmt, packed@, base as int, j as int, q@, b as int),
            match fmt {
                Quant4::Q80 => sum == sum_span(f, lo as int, p as int),
                Quant4::Q40 => sum == sum_span(f, lo as int, p as int) + sum_span(f, lo + 16, p + 16),
            },
            -16384 * (p - lo) <= sum <= 16384 * (p - lo),
    {
        let r: i32 = byte_dot(fmt, packed, base, j, q, b, p, Ghost(nb));
        sum = sum + r;
        proof {
            assert(sum_span(f, lo + 16, p + 17) == sum_span(f, lo + 16, p + 16) + f(p + 16));
        }
    }
    sum
}

/// All the partial sums of `groups` row-groups times one activation row.
fn terms4(
    fmt: Quant4,
    kernel: Kernel,
    packed: &[u8],
    q: &[i8],
    nb: usize,
    groups: usize,
) -> (terms: Terms4)
    requires
        kernel == Kernel::Scalar || kernel == Kernel::Sdot,
        packed@.len() == groups * nb * fmt.packed_bytes(),
        q@.len() == nb * 32,
    ensures
        terms.kernel == kernel,
        terms.are_of(fmt, packed@, q@, nb as int, groups as int),
{
    let (unit, bytes): (usize, usize) = match fmt {
        Quant4::Q80 => (Q8_0X4_BLOCK_BYTES, 32),
        Quant4::Q40 => (Q4_0X4_BLOCK_BYTES, 16),
    };
    let n: usize = match kernel {
        Kernel::Scalar => bytes / 4,
        _ => 1,
    };
    let total: usize = packed.len();
    let mut terms = Terms4 { kernel, blocks: Vec::new() };
    proof {
        assert(groups * nb <= groups * nb * unit) by (nonlinear_arith)
            requires
                0 <= groups * nb,
                1 <= unit,
        ;
    }
    let count: usize = groups * nb;
    for k in 0usize..count
        invariant
            kernel == Kernel::Scalar || kernel == Kernel::Sdot,
            unit == fmt.packed_bytes(),
            bytes == fmt.quant_bytes(),
            n == n_dots4(fmt, kernel),
            kernel == Kernel::Scalar ==> n == bytes / 4,
            count == groups * nb,
            total == packed@.len(),
            packed.len() == count * unit,
            q.len() == nb * 32,
            terms.kernel == kernel,
            terms.blocks@.len() == k,
            forall|i: int| 0 <= i < k ==> #[trigger] terms.block_is(fmt, packed@, q@, i, i % (nb as int)),
    {
        proof {
            assert(0 < nb) by (nonlinear_arith)
                requires
                    0 <= k < groups * nb,
                    0 <= nb,
            ;
            assert(k * unit + unit <= count * unit) by (nonlinear_arith)
                requires
                    k < count,
                    0 <= unit,
            ;
        }
        let b: usize = k % nb;
        let base: usize = k * unit;
        let mut dots: Vec<i32> = Vec::new();
        for i in 0usize..n * 4
            invariant
                kernel == Kernel::Scalar || kernel == Kernel::Sdot,
                bytes == fmt.quant_bytes(),
                n == n_dots4(fmt, kernel),
                kernel == Kernel::Scalar ==> n == bytes / 4,
                base + fmt.packed_bytes() <= packed.len(),
                q.len() == nb * 32,
                b < nb,
                dots@.len() == i,
                forall|m: int|
                    0 <= m < i ==> #[trigger] dots@[m] == dot_part4(
                        fmt,
                        kernel,
                        packed@,
                        base as int,
                        m % 4,
                        q@,
                        b as int,
                        m / 4,
                    ),
        {
            let t: usize = i / 4;
            let (lo, hi): (usize, usize) = match kernel {
                Kernel::Scalar => (t * 4, t * 4 + 4),
                _ => (0, bytes),
            };
            let part: i32 = bytes_dot(fmt, packed, base, i % 4, q, b, lo, hi, Ghost(nb as int));
            proof {
                let f = elem_fn4(fmt, packed@, base as int, i as int % 4, q@, b as int);
                lemma_sum_split(f, 0, 16, 32);
            }
            dots.push(part);
        }
        let ghost before = terms;
        terms.blocks.push(dots);
        proof {
            assert forall|i: int| 0 <= i < k + 1 implies #[trigger] terms.block_is(
                fmt,
                packed@,
                q@,
                i,
                i % (nb as int),
            ) by {
                if i < k {
                    assert(before.block_is(fmt, packed@, q@, i, i % (nb as int)));
                }
            }
        }
    }
    terms
}

/// Which kernel multiplies the four-row layouts.
pub open spec fn kernel4(cpu: CpuFeatures) -> Kernel {
    if cpu.aarch64 && cpu.dotprod {
        Kernel::Sdot
    } else {
        Kernel::Scalar
    }
}

fn kernel4_of(cpu: &CpuFeatures) -> (k: Kernel)
    ensures
        k == kernel4(*cpu),
{
    if cpu.aarch64 && cpu.dotprod {
        Kernel::Sdot
    } else {
        Kernel::Scalar
    }
}

/// Row-group `group` of a packed matrix of `nb` column blocks.
pub open spec fn group_bytes4(fmt: Quant4, packed: Seq<u8>, group: int, nb: int) -> Seq<u8> {
    packed.subrange(group * nb * fmt.packed_bytes(), group * nb * fmt.packed_bytes() + nb * fmt.packed_bytes())
}

/// Row-group `group` lies within the packed matrix.
pub open spec fn has_group4(fmt: Quant4, packed: Seq<u8>, group: int, nb: int) -> bool {
    group * nb * fmt.packed_bytes() + nb * fmt.packed_bytes() <= packed.len()
}

/// The bytes of one row-group.
fn group_slice4<'a>(fmt: Quant4, packed: &'a [u8], group: usize, nb: usize) -> (s: &'a [u8])
    requires
        has_group4(fmt, packed@, group as int, nb as int),
    ensures
        s@ == group_bytes4(fmt, packed@, group as int, nb as int),
        s@.len() == 1 * nb * fmt.packed_bytes(),
{
    let unit: usize = match fmt {
        Quant4::Q80 => Q8_0X4_BLOCK_BYTES,
        Quant4::Q40 => Q4_0X4_BLOCK_BYTES,
    };
    let total: usize = packed.len();
    proof {
        assert(0 <= group * nb && group * nb <= group * nb * unit && nb <= nb * unit) by (nonlinear_arith)
            requires
                0 <= group,
                0 <= nb,
                1 <= unit,
        ;
        assert(0 <= group * nb * unit);
    }
    let off: usize = group * nb * unit;
    vstd::slice::slice_subrange(packed, off, off + nb * unit)
}

/// One row-group against every activation row.
fn gemm4(
    fmt: Quant4,
    packed: &[u8],
    group: usize,
    acts: &[Q8Activations],
    nb: usize,
    cpu: &CpuFeatures,
) -> (out: Vec<Terms4>)
    requires
        acts@.len() > 0 ==> has_group4(fmt, packed@, group as int, nb as int),
        forall|a: int| 0 <= a < acts@.len() ==> (#[trigger] acts@[a]).covers(nb as int),
    ensures
        out@.len() == acts@.len(),
        forall|a: int|
            0 <= a < acts@.len() ==> (#[trigger] out@[a]).kernel == kernel4(*cpu) && out@[a].are_of(
                fmt,
                group_bytes4(fmt, packed@, group as int, nb as int),
                acts@[a].q@,
                nb as int,
                1,
            ),
{
    let mut out: Vec<Terms4> = Vec::new();
    if acts.len() == 0 {
        return out;
    }
    let slice: &[u8] = group_slice4(fmt, packed, group, nb);
    let kernel: Kernel = kernel4_of(cpu);
    for a in 0usize..acts.len()
        invariant
            kernel == kernel4(*cpu),
            slice@ == group_bytes4(fmt, packed@, group as int, nb as int),
            slice@.len() == 1 * nb * fmt.packed_bytes(),
            forall|a: int| 0 <= a < acts@.len() ==> (#[trigger] acts@[a]).covers(nb as int),
            out@.len() == a,
            forall|i: int|
                0 <= i < a ==> (#[trigger] out@[i]).kernel == kernel && out@[i].are_of(
                    fmt,
                    slice@,
                    acts@[i].q@,
                    nb as int,
                    1,
                ),
    {
        assert(acts@[a as int].covers(nb as int));
        let terms: Terms4 = terms4(fmt, kernel, slice, acts[a].q.as_slice(), nb, 1);
        out.push(terms);
    }
    out
}

/// GEMV: interleaved Q8_0 weights times one Q8 activation row.
pub fn gemv_q8_0x4_q8_0(
    packed: &[u8],
    act: &Q8Activations,
    n_cols: usize,
    n_row_groups: usize,
    cpu: &CpuFeatures,
) -> (terms: Terms4)
    requires
        n_cols % Q8_0_BLOCK_ELEMS == 0,
        packed@.len() == n_row_groups * (n_cols as int / 32) * Quant4::Q80.packed_bytes(),
        act.covers(n_cols as int / 32),
    ensures
        terms.kernel == kernel4(*cpu),
        terms.are_of(Quant4::Q80, packed@, act.q@, n_cols as int / 32, n_row_groups as int),
{
    let kernel: Kernel = kernel4_of(cpu);
    terms4(Quant4::Q80, kernel, packed, act.q.as_slice(), n_cols / Q8_0_BLOCK_ELEMS, n_row_groups)
}

/// One row-group (4 outputs) starting at `group` within a packed matrix.
pub fn gemv_q8_0x4_group(
    packed: &[u8],
    group: usize,
    act: &Q8Activations,
    n_cols: usize,
    cpu: &CpuFeatures,
) -> (terms: Terms4)
    requires
        n_cols % Q8_0_BLOCK_ELEMS == 0,
        has_group4(Quant4::Q80, packed@, group as int, n_cols as int / 32),
        act.covers(n_cols as int / 32),
    ensures
        terms.kernel == kernel4(*cpu),
        terms.are_of(
            Quant4::Q80,
            group_bytes4(Quant4::Q80, packed@, group as int, n_cols as int / 32),
            act.q@,
            n_cols as int / 32,
            1,
        ),
{
    let nb: usize = n_cols / Q8_0_BLOCK_ELEMS;
    let slice: &[u8] = group_slice4(Quant4::Q80, packed, group, nb);
    gemv_q8_0x4_q8_0(slice, act, n_cols, 1, cpu)
}

/// GEMM counterpart of [`gemv_q8_0x4_group`]: one row-group (4 rows) against
/// every activation row at once. No activations is a no-op.
pub fn gemm_q8_0x4_group(
    packed: &[u8],
    group: usize,
    acts: &[Q8Activations],
    n_cols: usize,
    cpu: &CpuFeatures,
) -> (out: Vec<Terms4>)
    requires
        n_cols % Q8_0_BLOCK_ELEMS == 0,
        acts@.len() > 0 ==> has_group4(Quant4::Q80, packed@, group as int, n_cols as int / 32),
        forall|a: int| 0 <= a < acts@.len() ==> (#[trigger] acts@[a]).covers(n_cols as int / 32),
    ensures
        out@.len() == acts@.len(),
        forall|a: int|
            0 <= a < acts@.len() ==> (#[trigger] out@[a]).kernel == kernel4(*cpu) && out@[a].are_of(
                Quant4::Q80,
                group_bytes4(Quant4::Q80, packed@, group as int, n_cols as int / 32),
                acts@[a].q@,
                n_cols as int / 32,
                1,
            ),
{
    gemm4(Quant4::Q80, packed, group, acts, n_cols / Q8_0_BLOCK_ELEMS, cpu)
}

/// GEMV: interleaved Q4_0 weights times one Q8 activation row.
pub fn gemv_q4_0x4_q8_0(
    packed: &[u8],
    act: &Q8Activations,
    n_cols: usize,
    n_row_groups: usize,
    cpu: &CpuFeatures,
) -> (terms: Terms4)
    requires
        n_cols % Q4_0_BLOCK_ELEMS == 0,
        packed@.len() == n_row_groups * (n_cols as int / 32) * Quant4::Q40.packed_bytes(),
        act.covers(n_cols as int / 32),
    ensures
        terms.kernel == kernel4(*cpu),
        terms.are_of(Quant4::Q40, packed@, act.q@, n_cols as int / 32, n_row_groups as int),
{
    let kernel: Kernel = kernel4_of(cpu);
    terms4(Quant4::Q40, kernel, packed, act.q.as_slice(), n_cols / Q4_0_BLOCK_ELEMS, n_row_groups)
}

/// One row-group (4 outputs) starting at `group` within a packed matrix.
pub fn gemv_q4_0x4_group(
    packed: &[u8],
    group: usize,
    act: &Q8Activations,
    n_cols: usize,
    cpu: &CpuFeatures,
) -> (terms: Terms4)
    requires
        n_cols % Q4_0_BLOCK_ELEMS == 0,
        has_group4(Quant4::Q40, packed@, group as int, n_cols as int / 32),
        act.covers(n_cols as int / 32),
    ensures
        terms.kernel == kernel4(*cpu),
        terms.are_of(
            Quant4::Q40,
            group_bytes4(Quant4::Q40, packed@, group as int, n_cols as int / 32),
            act.q@,
            n_cols as int / 32,
            1,
        ),
{
    let nb: usize = n_cols / Q4_0_BLOCK_ELEMS;
    let slice: &[u8] = group_slice4(Quant4::Q40, packed, group, nb);
    gemv_q4_0x4_q8_0(slice, act, n_cols, 1, cpu)
}

/// GEMM counterpart of [`gemv_q4_0x4_group`]: one row-group (4 rows) against
/// every activation row at once. No activations is a no-op.
pub fn gemm_q4_0x4_group(
    packed: &[u8],
    group: usize,
    acts: &[Q8Activations],
    n_cols: usize,
    cpu: &CpuFeatures,
) -> (out: Vec<Terms4>)
    requires
        n_cols % Q4_0_BLOCK_ELEMS == 0,
        acts@.len() > 0 ==> has_group4(Quant4::Q40, packed@, group as int, n_cols as int / 32),
        forall|a: int| 0 <= a < acts@.len() ==> (#[trigger] acts@[a]).covers(n_cols as int / 32),
    ensures
        out@.len() == acts@.len(),
        forall|a: int|
            0 <= a < acts@.len() ==> (#[trigger] out@[a]).kernel == kernel4(*cpu) && out@[a].are_of(
                Quant4::Q40,
                group_bytes4(Quant4::Q40, packed@, group as int, n_cols as int / 32),
                acts@[a].q@,
                n_cols as int / 32,
                1,
            ),
{
    gemm4(Quant4::Q40, packed, group, acts, n_cols / Q4_0_BLOCK_ELEMS, cpu)
}

/// Partial dot products as a function of their place.
pub open spec fn dot_fn4(
    fmt: Quant4,
    kernel: Kernel,
    packed: Seq<u8>,
    base: int,
    j: int,
    q: Seq<i8>,
    b: int,
) -> spec_fn(int) -> int {
    |t: int| dot_part4(fmt, kernel, packed, base, j, q, b, t)
}

/// No grouping loses or repeats a product of a four-row block.
pub proof fn law_partial_dots4_add_up(
    fmt: Quant4,
    kernel: Kernel,
    packed: Seq<u8>,
    base: int,
    j: int,
    q: Seq<i8>,
    b: int,
)
    ensures
        sum_span(dot_fn4(fmt, kernel, packed, base, j, q, b), 0, n_dots4(fmt, kernel)) == sum_span(
            elem_fn4(fmt, packed, base, j, q, b),
            0,
            32,
        ),
{
    let f = elem_fn4(fmt, packed, base, j, q, b);
    let g = dot_fn4(fmt, kernel, packed, base, j, q, b);
    if kernel == Kernel::Scalar {
        match fmt {
            Quant4::Q80 => {
                assert forall|t: int| 0 <= t < 8 implies #[trigger] g(t) == sum_span(f, t * 4, t * 4 + 4) by {}
                lemma_chunks(f, g, 4, 8);
            },
            Quant4::Q40 => {
                reveal_with_fuel(sum_span, 5);
                lemma_sum_split(f, 0, 4, 8);
                lemma_sum_split(f, 0, 8, 12);
                lemma_sum_split(f, 0, 12, 16);
                lemma_sum_split(f, 0, 16, 20);
                lemma_sum_split(f, 0, 20, 24);
                lemma_sum_split(f, 0, 24, 28);
                lemma_sum_split(f, 0, 28, 32);
                assert(sum_span(g, 0, 4) == g(0) + g(1) + g(2) + g(3));
            },
        }
    } else {
        reveal_with_fuel(sum_span, 2);
        assert(sum_span(g, 0, 1) == g(0));
    }
}

/// The same four-row product taken twice by the same kernel gives the same
/// sums, term by term, whether the activation came alone or in a batch.
pub proof fn law_same_kernel_same_sums4(
    one: Terms4,
    two: Terms4,
    fmt: Quant4,
    packed: Seq<u8>,
    q: Seq<i8>,
    nb: int,
    groups: int,
)
    requires
        one.kernel == two.kernel,
        one.are_of(fmt, packed, q, nb, groups),
        two.are_of(fmt, packed, q, nb, groups),
    ensures
        one.blocks@.len() == two.blocks@.len(),
        forall|k: int| 0 <= k < one.blocks@.len() ==> (#[trigger] one.blocks@[k])@ == two.blocks@[k]@,
{
    assert forall|k: int| 0 <= k < one.blocks@.len() implies (#[trigger] one.blocks@[k])@ == two.blocks@[k]@ by {
        assert(one.block_is(fmt, packed, q, k, k % nb));
        assert(two.block_is(fmt, packed, q, k, k % nb));
        assert(one.blocks@[k]@ =~= two.blocks@[k]@);
    }
}

/// The product of weight `e` of a canonical block and its activation.
pub open spec fn row_fn4(fmt: Quant4, row: Seq<u8>, q: Seq<i8>, b: int) -> spec_fn(int) -> int {
    |e: int| row_weight4(fmt, row, e) * q[b * 32 + e]
}

/// A product over a packed four-row matrix is the product over its rows.
pub proof fn law_packed4_product_is_the_row_product(
    fmt: Quant4,
    data: Seq<u8>,
    rows: int,
    n_blocks: int,
    g: int,
    b: int,
    j: int,
    q: Seq<i8>,
)
    requires
        is_matrix4(fmt, data, rows, n_blocks),
        0 <= g < rows / 4,
        0 <= b < n_blocks,
        0 <= j < 4,
    ensures
        ({
            let packed = packed_matrix4(fmt, data, rows, n_blocks, 4);
            let base = (g * n_blocks + b) * fmt.packed_bytes();
            let row = group_rows4(fmt, data, n_blocks, g, b)[j];
            sum_span(elem_fn4(fmt, packed, base, j, q, b), 0, 32) == sum_span(row_fn4(fmt, row, q, b), 0, 32)
        }),
{
    let packed = packed_matrix4(fmt, data, rows, n_blocks, 4);
    let k = g * n_blocks + b;
    let group = group_rows4(fmt, data, n_blocks, g, b);
    let small = packed_block4(fmt, group, 4);
    let unit = fmt.packed_bytes();
    lemma_block_index(n_blocks, g, b);
    lemma_block_in_matrix(n_blocks, rows / 4, unit, g, b);
    assert forall|t: int| 0 <= t < small.len() implies #[trigger] packed[k * unit + t] == small[t] by {
        lemma_byte_index(unit, k, t);
    }
    assert forall|r: int| 0 <= r < 4 implies #[trigger] group[r].len() == fmt.row_bytes() by {
        lemma_block_in_matrix(n_blocks, rows, fmt.row_bytes(), g * 4 + r, b);
    }
    let (f, h) = (elem_fn4(fmt, packed, k * unit, j, q, b), row_fn4(fmt, group[j], q, b));
    assert forall|e: int| 0 <= e < 32 implies #[trigger] f(e) == h(e) by {
        law_packed_block4_keeps_every_row(fmt, group, 4, j, e);
        lemma_interleaved_place(4, 4, j, fmt.pos(e));
        let u = 8 + interleaved_at(4, 4, j, fmt.pos(e));
        assert(0 <= u < small.len());
        assert(packed[k * unit + u] == small[u]);
    }
    lemma_sum_congruent(f, h, 0, 32);
}

/// Where every byte of a Q8_0 or Q4_0 row goes in a packed block: its scale
/// factor in row order, its quants dealt out in runs of `il`, those of Q4_0
/// with the top bit of both nibbles flipped.
pub proof fn law_packed_layout4(rows: Seq<Seq<u8>>, il: int, j: int, p: int, i: int)
    requires
        rows.len() == 4,
        il == 4 || il == 8,
        0 <= j < 4,
        0 <= p < 32,
        0 <= i < 2,
    ensures
        ({
            let packed = packed_block4(Quant4::Q80, rows, il);
            &&& packed.len() == 136
            &&& packed[2 * j + i] == rows[j][i]
            &&& packed[8 + (p / il) * (4 * il) + j * il + p % il] == rows[j][2 + p]
        }),
        ({
            let packed = packed_block4(Quant4::Q40, rows, il);
            &&& packed.len() == 72
            &&& packed[2 * j + i] == rows[j][i]
            &&& p < 16 ==> {
                let stored = packed[8 + (p / il) * (4 * il) + j * il + p % il] as int;
                let byte = rows[j][2 + p] as int;
                stored % 16 == (byte % 16 + 8) % 16 && stored / 16 == (byte / 16 + 8) % 16
            }
        }),
{
    reveal(interleaved_at);
    law_interleaving_is_undone(4, il, j, p);
    lemma_interleaved_place(4, il, j, p);
    lemma_flip(rows[j][2 + p]);
}

/// Packed block `g * nb + b` holds column block `b` of rows `4 * g` to
/// `4 * g + 3`, and a packed matrix has one such block for every full group
/// of four rows and every column block.
pub proof fn law_a_packed_matrix4_is_its_blocks(
    fmt: Quant4,
    data: Seq<u8>,
    rows: int,
    nb: int,
    il: int,
    g: int,
    b: int,
    t: int,
)
    requires
        is_matrix4(fmt, data, rows, nb),
        0 <= g < rows / 4,
        0 <= b < nb,
        0 <= t < 4 * fmt.row_bytes(),
    ensures
        ({
            let packed = packed_matrix4(fmt, data, rows, nb, il);
            let n = fmt.row_bytes();
            let blocks = Seq::new(
                4,
                |j: int| Seq::new(n as nat, |i: int| data[((4 * g + j) * nb + b) * n + i]),
            );
            &&& packed.len() == (rows / 4) * nb * (4 * n)
            &&& packed[(g * nb + b) * (4 * n) + t] == packed_block4(fmt, blocks, il)[t]
        }),
        Quant4::Q80.row_bytes() == 34,
        Quant4::Q40.row_bytes() == 18,
{
    let n = fmt.row_bytes();
    let unit = 4 * n;
    let blocks = Seq::new(4, |j: int| Seq::new(n as nat, |i: int| data[((4 * g + j) * nb + b) * n + i]));
    let group = group_rows4(fmt, data, nb, g, b);
    lemma_block_index(nb, g, b);
    lemma_block_in_matrix(nb, rows / 4, unit, g, b);
    lemma_byte_index(unit, g * nb + b, t);
    assert forall|j: int| 0 <= j < 4 implies #[trigger] group[j] == blocks[j] by {
        lemma_block_in_matrix(nb, rows, n, g * 4 + j, b);
        assert(group[j] =~= blocks[j]);
    }
    assert(group =~= blocks);
}

/// One stored byte stands for two weights of -8 to 7: its low nibble for the
/// first activation, its high nibble for the second.
pub proof fn law_a_stored_byte_is_two_weights(byte: u8, lo: i32, hi: i32, r: i32)
    requires
        call_ensures(q4_0x4_nibble_dot, (byte, lo, hi), r),
    ensures
        ({
            let (a, b) = (byte as int % 16, byte as int / 16);
            r == (if a < 8 { a } else { a - 16 }) * lo + (if b < 8 { b } else { b - 16 }) * hi
        }),
{
}

/// Which kernel multiplies four rows: the dot-product one where there is such
/// an extension.
pub proof fn law_which_kernel_runs4(cpu: CpuFeatures)
    ensures
        cpu.aarch64 && cpu.dotprod ==> kernel4(cpu) == Kernel::Sdot,
        !cpu.aarch64 || !cpu.dotprod ==> kernel4(cpu) == Kernel::Scalar,
{
}

} // verus!
