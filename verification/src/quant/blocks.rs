//! What the bytes of a quantized block mean.
//!
//! A canonical K-quant block holds 256 weights of one row. A packed block
//! holds the same column block of eight rows, with the quant bytes dealt
//! out in runs of `interleave` bytes, one run per row in turn. Both are
//! read here through the same [`weight_of`], so a packed block and the
//! rows it came from can be compared weight by weight.
use vstd::prelude::*;

verus! {

/// Weights per K-quant block.
pub const QK_K: usize = 256;

/// Weights per Q4_K block.
pub const Q4_K_BLOCK_ELEMS: usize = 256;

/// Bytes per canonical Q4_K block: d, dmin, 12 scale bytes, 128 nibble bytes.
pub const Q4_K_BLOCK_BYTES: usize = 144;

/// Weights per Q5_K block.
pub const Q5_K_BLOCK_ELEMS: usize = 256;

/// Bytes per canonical Q5_K block: d, dmin, 12 scale bytes, 32 fifth-bit
/// bytes, 128 nibble bytes.
pub const Q5_K_BLOCK_BYTES: usize = 176;

/// Weights per Q6_K block.
pub const Q6_K_BLOCK_ELEMS: usize = 256;

/// Bytes per canonical Q6_K block: 128 nibble bytes, 64 high-bit bytes,
/// 16 scale bytes, d.
pub const Q6_K_BLOCK_BYTES: usize = 210;

/// Bytes per interleaved `block_q4_Kx8` (8 x f16 d + 8 x f16 dmin + 96 scales + 1024 qs).
pub const Q4_KX8_BLOCK_BYTES: usize = 1152;

/// Number of Q4_K rows packed into one interleaved block.
pub const Q4_KX8_NROWS: usize = 8;

/// Bytes per interleaved `block_q5_Kx8` (8 x f16 d + 8 x f16 dmin + 96 scales
/// + 256 qh + 1024 qs).
pub const Q5_KX8_BLOCK_BYTES: usize = 1408;

/// Number of Q5_K rows packed into one interleaved block.
pub const Q5_KX8_NROWS: usize = 8;

/// Bytes per interleaved `block_q6_Kx8` (8 x f16 d + 128 scales + 1024 ql + 512 qh).
pub const Q6_KX8_BLOCK_BYTES: usize = 1680;

/// Number of Q6_K rows packed into one interleaved block.
pub const Q6_KX8_NROWS: usize = 8;

/// The three K-quant formats that have an eight-row interleaved layout.
#[derive(Clone, Copy, Debug, PartialEq, Eq, Structural)]
pub enum KQuant {
    /// Four-bit weights, six-bit scale and min per 32 weights.
    Q4K,
    /// Five-bit weights, six-bit scale and min per 32 weights.
    Q5K,
    /// Six-bit weights offset by 32, signed eight-bit scale per 16 weights.
    Q6K,
}

impl KQuant {
    /// Bytes of one canonical block.
    pub open spec fn row_bytes(self) -> int {
        match self {
            KQuant::Q4K => 144,
            KQuant::Q5K => 176,
            KQuant::Q6K => 210,
        }
    }

    /// Bytes of one packed block of eight rows.
    pub open spec fn packed_bytes(self) -> int {
        match self {
            KQuant::Q4K => 1152,
            KQuant::Q5K => 1408,
            KQuant::Q6K => 1680,
        }
    }

    /// The sub-block that weight `e` belongs to.
    pub open spec fn sub_of(self, e: int) -> int {
        match self {
            KQuant::Q4K => e / 32,
            KQuant::Q5K => e / 32,
            KQuant::Q6K => e / 16,
        }
    }

    /// Sub-blocks per block.
    pub open spec fn n_subs(self) -> int {
        match self {
            KQuant::Q4K => 8,
            KQuant::Q5K => 8,
            KQuant::Q6K => 16,
        }
    }

    /// Where the nibble bytes start in a canonical block.
    pub open spec fn row_low_base(self) -> int {
        match self {
            KQuant::Q4K => 16,
            KQuant::Q5K => 48,
            KQuant::Q6K => 0,
        }
    }

    /// Where the high-bit bytes start in a canonical block.
    pub open spec fn row_high_base(self) -> int {
        match self {
            KQuant::Q4K => 16,
            KQuant::Q5K => 16,
            KQuant::Q6K => 128,
        }
    }

    /// Where the interleaved nibble bytes start in a packed block.
    pub open spec fn packed_low_base(self) -> int {
        match self {
            KQuant::Q4K => 128,
            KQuant::Q5K => 384,
            KQuant::Q6K => 144,
        }
    }

    /// Where the interleaved high-bit bytes start in a packed block.
    pub open spec fn packed_high_base(self) -> int {
        match self {
            KQuant::Q4K => 128,
            KQuant::Q5K => 128,
            KQuant::Q6K => 1168,
        }
    }

    /// Which nibble byte of its row holds the low four bits of weight `e`.
    pub open spec fn low_pos(self, e: int) -> int {
        match self {
            KQuant::Q4K => (e / 64) * 32 + e % 32,
            KQuant::Q5K => (e / 64) * 32 + e % 32,
            KQuant::Q6K => (e / 128) * 64 + e % 64,
        }
    }

    /// Which high-bit byte of its row holds the remaining bits of weight `e`.
    pub open spec fn high_pos(self, e: int) -> int {
        match self {
            KQuant::Q4K => 0,
            KQuant::Q5K => e % 32,
            KQuant::Q6K => (e / 128) * 32 + e % 32,
        }
    }
}

/// `2^s` for the shifts a byte allows.
pub open spec fn bit_weight(s: int) -> int {
    if s == 0 {
        1
    } else if s == 1 {
        2
    } else if s == 2 {
        4
    } else if s == 3 {
        8
    } else if s == 4 {
        16
    } else if s == 5 {
        32
    } else if s == 6 {
        64
    } else {
        128
    }
}

/// The value of weight `e` of a block, from the byte holding its low four
/// bits and the byte holding its high bits.
#[verifier::opaque]
pub open spec fn weight_of(fmt: KQuant, e: int, low: u8, high: u8) -> int {
    match fmt {
        KQuant::Q4K => if e % 64 < 32 { low as int % 16 } else { low as int / 16 },
        KQuant::Q5K => (if e % 64 < 32 { low as int % 16 } else { low as int / 16 })
            + 16 * ((high as int / bit_weight(e / 32)) % 2),
        KQuant::Q6K => (if e % 128 < 64 { low as int % 16 } else { low as int / 16 })
            + 16 * ((high as int / bit_weight(2 * ((e % 128) / 32))) % 4) - 32,
    }
}

/// A byte read as a two's-complement number.
pub open spec fn signed_byte(b: u8) -> int {
    if b < 128 { b as int } else { b as int - 256 }
}

/// Scale `i` of eight, out of a 12-byte six-bit scale/min group at `base`.
pub open spec fn scale6(s: Seq<u8>, base: int, i: int) -> int {
    if i < 4 {
        s[base + i] as int % 64
    } else {
        s[base + 4 + i] as int % 16 + 16 * (s[base + i - 4] as int / 64)
    }
}

/// Min `i` of eight, out of a 12-byte six-bit scale/min group at `base`.
pub open spec fn min6(s: Seq<u8>, base: int, i: int) -> int {
    if i < 4 {
        s[base + 4 + i] as int % 64
    } else {
        s[base + 4 + i] as int / 16 + 16 * (s[base + i] as int / 64)
    }
}

/// Byte `c` of the 12-byte group that holds eight six-bit scales and mins.
pub open spec fn pack6_byte(scales: Seq<int>, mins: Seq<int>, c: int) -> int {
    if c < 4 {
        scales[c] + 64 * (scales[c + 4] / 16)
    } else if c < 8 {
        mins[c - 4] + 64 * (mins[c] / 16)
    } else {
        scales[c - 4] % 16 + 16 * (mins[c - 4] % 16)
    }
}

/// The weight at `e` of a canonical block.
pub open spec fn row_weight(fmt: KQuant, row: Seq<u8>, e: int) -> int {
    weight_of(
        fmt,
        e,
        row[fmt.row_low_base() + fmt.low_pos(e)],
        row[fmt.row_high_base() + fmt.high_pos(e)],
    )
}

/// The scale of sub-block `sb` of a canonical block.
pub open spec fn row_scale(fmt: KQuant, row: Seq<u8>, sb: int) -> int {
    match fmt {
        KQuant::Q4K => scale6(row, 4, sb),
        KQuant::Q5K => scale6(row, 4, sb),
        KQuant::Q6K => signed_byte(row[192 + sb]),
    }
}

/// The min of sub-block `sb` of a canonical block; Q6_K has none.
pub open spec fn row_min(fmt: KQuant, row: Seq<u8>, sb: int) -> int {
    match fmt {
        KQuant::Q4K => min6(row, 4, sb),
        KQuant::Q5K => min6(row, 4, sb),
        KQuant::Q6K => 0,
    }
}

/// Where byte `p` of row `j` lands when `nrows` rows are dealt out in runs
/// of `il` bytes.
#[verifier::opaque]
pub open spec fn interleaved_at(nrows: int, il: int, j: int, p: int) -> int {
    (p / il) * (nrows * il) + j * il + p % il
}

/// Which row the interleaved byte `u` came from.
#[verifier::opaque]
pub open spec fn source_row(nrows: int, il: int, u: int) -> int {
    (u / il) % nrows
}

/// Which byte of its row the interleaved byte `u` was.
#[verifier::opaque]
pub open spec fn source_pos(nrows: int, il: int, u: int) -> int {
    (u / (nrows * il)) * il + u % il
}

/// The weight at `e` of row `j` of a packed block starting at `base`.
pub open spec fn packed_weight(fmt: KQuant, blk: Seq<u8>, base: int, il: int, j: int, e: int) -> int {
    weight_of(
        fmt,
        e,
        blk[base + fmt.packed_low_base() + interleaved_at(8, il, j, fmt.low_pos(e))],
        blk[base + fmt.packed_high_base() + interleaved_at(8, il, j, fmt.high_pos(e))],
    )
}

/// The scale of sub-block `sb` of row `j` of a packed block starting at `base`.
pub open spec fn packed_scale(fmt: KQuant, blk: Seq<u8>, base: int, j: int, sb: int) -> int {
    match fmt {
        KQuant::Q4K => scale6(blk, base + 32 + 12 * sb, j),
        KQuant::Q5K => scale6(blk, base + 32 + 12 * sb, j),
        KQuant::Q6K => signed_byte(blk[base + 16 + 8 * sb + j]),
    }
}

/// The min of sub-block `sb` of row `j` of a packed block starting at `base`.
pub open spec fn packed_min(fmt: KQuant, blk: Seq<u8>, base: int, j: int, sb: int) -> int {
    match fmt {
        KQuant::Q4K => min6(blk, base + 32 + 12 * sb, j),
        KQuant::Q5K => min6(blk, base + 32 + 12 * sb, j),
        KQuant::Q6K => 0,
    }
}

/// The sub-block scales of eight rows, in row order.
pub open spec fn scales_of(rows: Seq<Seq<u8>>, sb: int) -> Seq<int> {
    Seq::new(8, |i: int| scale6(rows[i], 4, sb))
}

/// The sub-block mins of eight rows, in row order.
pub open spec fn mins_of(rows: Seq<Seq<u8>>, sb: int) -> Seq<int> {
    Seq::new(8, |i: int| min6(rows[i], 4, sb))
}

/// Byte `u` of a section in which `nrows` rows are interleaved, each
/// contributing its bytes from `src_base` on.
pub open spec fn interleaved_byte(rows: Seq<Seq<u8>>, nrows: int, il: int, src_base: int, u: int) -> u8 {
    rows[source_row(nrows, il, u)][src_base + source_pos(nrows, il, u)]
}

/// Byte `t` of the packed block made of eight canonical blocks.
pub open spec fn packed_byte(fmt: KQuant, rows: Seq<Seq<u8>>, il: int, t: int) -> u8 {
    match fmt {
        KQuant::Q4K => if t < 16 {
            rows[t / 2][t % 2]
        } else if t < 32 {
            rows[(t - 16) / 2][2 + t % 2]
        } else if t < 128 {
            pack6_byte(scales_of(rows, (t - 32) / 12), mins_of(rows, (t - 32) / 12), (t - 32) % 12) as u8
        } else {
            interleaved_byte(rows, 8, il, 16, t - 128)
        },
        KQuant::Q5K => if t < 16 {
            rows[t / 2][t % 2]
        } else if t < 32 {
            rows[(t - 16) / 2][2 + t % 2]
        } else if t < 128 {
            pack6_byte(scales_of(rows, (t - 32) / 12), mins_of(rows, (t - 32) / 12), (t - 32) % 12) as u8
        } else if t < 384 {
            interleaved_byte(rows, 8, il, 16, t - 128)
        } else {
            interleaved_byte(rows, 8, il, 48, t - 384)
        },
        KQuant::Q6K => if t < 16 {
            rows[t / 2][208 + t % 2]
        } else if t < 144 {
            rows[(t - 16) % 8][192 + (t - 16) / 8]
        } else if t < 1168 {
            interleaved_byte(rows, 8, il, 0, t - 144)
        } else {
            interleaved_byte(rows, 8, il, 128, t - 1168)
        },
    }
}

/// The packed block made of eight canonical blocks.
pub open spec fn packed_block(fmt: KQuant, rows: Seq<Seq<u8>>, il: int) -> Seq<u8> {
    Seq::new(fmt.packed_bytes() as nat, |t: int| packed_byte(fmt, rows, il, t))
}

/// Six-bit values stay below 64.
pub proof fn lemma_six_bits(s: Seq<u8>, base: int, i: int)
    requires
        0 <= i < 8,
        0 <= base,
        base + 12 <= s.len(),
    ensures
        0 <= scale6(s, base, i) < 64,
        0 <= min6(s, base, i) < 64,
{
}

/// Where a byte lands, and that it can be traced back, for each width in use.
pub proof fn lemma_interleaved_place(nrows: int, il: int, j: int, p: int)
    requires
        nrows == 4 || nrows == 8,
        il == 4 || il == 8,
        0 <= j < nrows,
        0 <= p,
    ensures
        il == 4 && nrows == 4 ==> interleaved_at(nrows, il, j, p) == (p / 4) * 16 + j * 4 + p % 4,
        il == 8 && nrows == 4 ==> interleaved_at(nrows, il, j, p) == (p / 8) * 32 + j * 8 + p % 8,
        il == 4 && nrows == 8 ==> interleaved_at(nrows, il, j, p) == (p / 4) * 32 + j * 4 + p % 4,
        il == 8 && nrows == 8 ==> interleaved_at(nrows, il, j, p) == (p / 8) * 64 + j * 8 + p % 8,
{
    reveal(interleaved_at);
    assert(interleaved_at(4, 4, j, p) == (p / 4) * 16 + j * 4 + p % 4);
    assert(interleaved_at(4, 8, j, p) == (p / 8) * 32 + j * 8 + p % 8);
    assert(interleaved_at(8, 4, j, p) == (p / 4) * 32 + j * 4 + p % 4);
    assert(interleaved_at(8, 8, j, p) == (p / 8) * 64 + j * 8 + p % 8);
}

/// What the source of an interleaved byte is, for each width in use.
pub proof fn lemma_source_place(nrows: int, il: int, u: int)
    requires
        nrows == 4 || nrows == 8,
        il == 4 || il == 8,
    ensures
        il == 4 && nrows == 4 ==> source_row(nrows, il, u) == (u / 4) % 4 && source_pos(nrows, il, u)
            == (u / 16) * 4 + u % 4,
        il == 8 && nrows == 4 ==> source_row(nrows, il, u) == (u / 8) % 4 && source_pos(nrows, il, u)
            == (u / 32) * 8 + u % 8,
        il == 4 && nrows == 8 ==> source_row(nrows, il, u) == (u / 4) % 8 && source_pos(nrows, il, u)
            == (u / 32) * 4 + u % 4,
        il == 8 && nrows == 8 ==> source_row(nrows, il, u) == (u / 8) % 8 && source_pos(nrows, il, u)
            == (u / 64) * 8 + u % 8,
{
    reveal(source_row);
    reveal(source_pos);
    assert(source_row(4, 4, u) == (u / 4) % 4 && source_pos(4, 4, u) == (u / 16) * 4 + u % 4);
    assert(source_row(4, 8, u) == (u / 8) % 4 && source_pos(4, 8, u) == (u / 32) * 8 + u % 8);
    assert(source_row(8, 4, u) == (u / 4) % 8 && source_pos(8, 4, u) == (u / 32) * 4 + u % 4);
    assert(source_row(8, 8, u) == (u / 8) % 8 && source_pos(8, 8, u) == (u / 64) * 8 + u % 8);
}

proof fn lemma_place_4_4(q: int, j: int, r: int)
    requires
        0 <= q,
        0 <= j < 4,
        0 <= r < 4,
    ensures
        ((q * 16 + j * 4 + r) / 4) % 4 == j,
        (q * 16 + j * 4 + r) / 16 == q,
        (q * 16 + j * 4 + r) % 4 == r,
{
    assert(q * 16 + j * 4 + r == (q * 4 + j) * 4 + r);
    assert((q * 16 + j * 4 + r) / 4 == q * 4 + j);
}

proof fn lemma_place_4_8(q: int, j: int, r: int)
    requires
        0 <= q,
        0 <= j < 4,
        0 <= r < 8,
    ensures
        ((q * 32 + j * 8 + r) / 8) % 4 == j,
        (q * 32 + j * 8 + r) / 32 == q,
        (q * 32 + j * 8 + r) % 8 == r,
{
    assert(q * 32 + j * 8 + r == (q * 4 + j) * 8 + r);
    assert((q * 32 + j * 8 + r) / 8 == q * 4 + j);
}

proof fn lemma_place_8_4(q: int, j: int, r: int)
    requires
        0 <= q,
        0 <= j < 8,
        0 <= r < 4,
    ensures
        ((q * 32 + j * 4 + r) / 4) % 8 == j,
        (q * 32 + j * 4 + r) / 32 == q,
        (q * 32 + j * 4 + r) % 4 == r,
{
    assert(q * 32 + j * 4 + r == (q * 8 + j) * 4 + r);
    assert((q * 32 + j * 4 + r) / 4 == q * 8 + j);
}

proof fn lemma_place_8_8(q: int, j: int, r: int)
    requires
        0 <= q,
        0 <= j < 8,
        0 <= r < 8,
    ensures
        ((q * 64 + j * 8 + r) / 8) % 8 == j,
        (q * 64 + j * 8 + r) / 64 == q,
        (q * 64 + j * 8 + r) % 8 == r,
{
    assert(q * 64 + j * 8 + r == (q * 8 + j) * 8 + r);
    assert((q * 64 + j * 8 + r) / 8 == q * 8 + j);
}

/// Dealing bytes out in runs is undone by [`source_row`] and [`source_pos`].
pub proof fn law_interleaving_is_undone(nrows: int, il: int, j: int, p: int)
    requires
        nrows == 4 || nrows == 8,
        il == 4 || il == 8,
        0 <= j < nrows,
        0 <= p,
    ensures
        source_row(nrows, il, interleaved_at(nrows, il, j, p)) == j,
        source_pos(nrows, il, interleaved_at(nrows, il, j, p)) == p,
{
    lemma_interleaved_place(nrows, il, j, p);
    lemma_source_place(nrows, il, interleaved_at(nrows, il, j, p));
    if nrows == 4 && il == 4 {
        lemma_place_4_4(p / 4, j, p % 4);
    } else if nrows == 4 {
        lemma_place_4_8(p / 8, j, p % 8);
    } else if il == 4 {
        lemma_place_8_4(p / 4, j, p % 4);
    } else {
        lemma_place_8_8(p / 8, j, p % 8);
    }
}

/// Packing eight six-bit scales and mins into twelve bytes loses nothing:
/// the group reads back as the values that went in.
pub proof fn law_scale_group_round_trip(scales: Seq<int>, mins: Seq<int>, s: Seq<u8>, base: int, i: int)
    requires
        scales.len() == 8,
        mins.len() == 8,
        forall|k: int| 0 <= k < 8 ==> 0 <= #[trigger] scales[k] < 64,
        forall|k: int| 0 <= k < 8 ==> 0 <= #[trigger] mins[k] < 64,
        0 <= base,
        base + 12 <= s.len(),
        forall|c: int| 0 <= c < 12 ==> #[trigger] s[base + c] as int == pack6_byte(scales, mins, c),
        0 <= i < 8,
    ensures
        scale6(s, base, i) == scales[i],
        min6(s, base, i) == mins[i],
{
    if i < 4 {
        let (b0, b1) = (s[base + i] as int, s[base + (4 + i)] as int);
        assert(b0 == scales[i] + 64 * (scales[i + 4] / 16));
        assert(b1 == mins[i] + 64 * (mins[i + 4] / 16));
        lemma_low_six(scales[i], scales[i + 4]);
        lemma_low_six(mins[i], mins[i + 4]);
    } else {
        let b2 = s[base + (4 + i)] as int;
        let (b0, b1) = (s[base + (i - 4)] as int, s[base + i] as int);
        assert(b2 == scales[i] % 16 + 16 * (mins[i] % 16));
        assert(b0 == scales[i - 4] + 64 * (scales[i] / 16));
        assert(b1 == mins[i - 4] + 64 * (mins[i] / 16));
        lemma_low_six(scales[i - 4], scales[i]);
        lemma_low_six(mins[i - 4], mins[i]);
    }
}

/// A byte made of a six-bit value and the top two bits of another.
proof fn lemma_low_six(low: int, other: int)
    requires
        0 <= low < 64,
        0 <= other < 64,
    ensures
        (low + 64 * (other / 16)) % 64 == low,
        (low + 64 * (other / 16)) / 64 == other / 16,
        low + 64 * (other / 16) < 256,
{
}

/// The bytes of a scale group are bytes.
pub proof fn lemma_pack6_byte_bounds(scales: Seq<int>, mins: Seq<int>, c: int)
    requires
        scales.len() == 8,
        mins.len() == 8,
        forall|k: int| 0 <= k < 8 ==> 0 <= #[trigger] scales[k] < 64,
        forall|k: int| 0 <= k < 8 ==> 0 <= #[trigger] mins[k] < 64,
        0 <= c < 12,
    ensures
        0 <= pack6_byte(scales, mins, c) < 256,
{
}

/// The interleaved sections stay within eight times a row's share.
pub proof fn lemma_interleaved_bound(il: int, j: int, p: int, n: int)
    requires
        il == 4 || il == 8,
        0 <= j < 8,
        0 <= p < n,
        n % 8 == 0,
    ensures
        0 <= interleaved_at(8, il, j, p) < 8 * n,
{
    lemma_interleaved_place(8, il, j, p);
}

/// Where a weight's bytes are within its row.
pub proof fn lemma_pos_bounds(fmt: KQuant, e: int)
    requires
        0 <= e < 256,
    ensures
        0 <= fmt.low_pos(e) < 128,
        0 <= fmt.high_pos(e) < 64,
        fmt != KQuant::Q6K ==> fmt.high_pos(e) < 32,
{
}

proof fn lemma_packed_block_keeps_weights(fmt: KQuant, rows: Seq<Seq<u8>>, il: int, j: int, e: int)
    requires
        rows.len() == 8,
        forall|r: int| 0 <= r < 8 ==> #[trigger] rows[r].len() == fmt.row_bytes(),
        il == 4 || il == 8,
        0 <= j < 8,
        0 <= e < 256,
    ensures
        packed_weight(fmt, packed_block(fmt, rows, il), 0, il, j, e) == row_weight(fmt, rows[j], e),
{
    reveal(weight_of);
    let (pl, ph) = (fmt.low_pos(e), fmt.high_pos(e));
    lemma_pos_bounds(fmt, e);
    law_interleaving_is_undone(8, il, j, pl);
    law_interleaving_is_undone(8, il, j, ph);
    lemma_interleaved_bound(il, j, pl, 128);
    lemma_interleaved_bound(il, j, ph, if fmt == KQuant::Q6K { 64 } else { 32 });
    let (ul, uh) = (interleaved_at(8, il, j, pl), interleaved_at(8, il, j, ph));
    let blk = packed_block(fmt, rows, il);
    match fmt {
        KQuant::Q4K => {
            assert(blk[128 + ul] == rows[j][16 + pl]);
        },
        KQuant::Q5K => {
            assert(blk[384 + ul] == rows[j][48 + pl]);
            assert(blk[128 + uh] == rows[j][16 + ph]);
        },
        KQuant::Q6K => {
            assert(blk[144 + ul] == rows[j][pl]);
            assert(blk[1168 + uh] == rows[j][128 + ph]);
        },
    }
}

proof fn lemma_packed_block_keeps_scales(fmt: KQuant, rows: Seq<Seq<u8>>, il: int, j: int, sb: int)
    requires
        rows.len() == 8,
        forall|r: int| 0 <= r < 8 ==> #[trigger] rows[r].len() == fmt.row_bytes(),
        0 <= j < 8,
        0 <= sb < fmt.n_subs(),
    ensures
        packed_scale(fmt, packed_block(fmt, rows, il), 0, j, sb) == row_scale(fmt, rows[j], sb),
        packed_min(fmt, packed_block(fmt, rows, il), 0, j, sb) == row_min(fmt, rows[j], sb),
{
    let blk = packed_block(fmt, rows, il);
    if fmt == KQuant::Q6K {
        let t = 16 + 8 * sb + j;
        assert((t - 16) % 8 == j);
        assert((t - 16) / 8 == sb);
        assert(blk[t] == rows[j][192 + sb]);
    } else {
        let scales = scales_of(rows, sb);
        let mins = mins_of(rows, sb);
        assert forall|k: int| 0 <= k < 8 implies 0 <= #[trigger] scales[k] < 64 by {
            assert(rows[k].len() == fmt.row_bytes());
            lemma_six_bits(rows[k], 4, sb);
        }
        assert forall|k: int| 0 <= k < 8 implies 0 <= #[trigger] mins[k] < 64 by {
            assert(rows[k].len() == fmt.row_bytes());
            lemma_six_bits(rows[k], 4, sb);
        }
        assert forall|c: int| 0 <= c < 12 implies #[trigger] blk[(32 + 12 * sb) + c] as int
            == pack6_byte(scales, mins, c) by {
            lemma_pack6_byte_bounds(scales, mins, c);
            let t = 32 + 12 * sb + c;
            assert((t - 32) / 12 == sb);
            assert((t - 32) % 12 == c);
            assert(blk[t] == packed_byte(fmt, rows, il, t));
        }
        law_scale_group_round_trip(scales, mins, blk, 32 + 12 * sb, j);
    }
}

/// A packed block holds, at every position, the weights, scales and mins
/// of the rows it was made of: packing changes where a weight is stored
/// and nothing else.
pub proof fn law_packed_block_keeps_every_row(fmt: KQuant, rows: Seq<Seq<u8>>, il: int, j: int, e: int)
    requires
        rows.len() == 8,
        forall|r: int| 0 <= r < 8 ==> #[trigger] rows[r].len() == fmt.row_bytes(),
        il == 4 || il == 8,
        0 <= j < 8,
        0 <= e < 256,
    ensures
        packed_weight(fmt, packed_block(fmt, rows, il), 0, il, j, e) == row_weight(fmt, rows[j], e),
        packed_scale(fmt, packed_block(fmt, rows, il), 0, j, fmt.sub_of(e)) == row_scale(
            fmt,
            rows[j],
            fmt.sub_of(e),
        ),
        packed_min(fmt, packed_block(fmt, rows, il), 0, j, fmt.sub_of(e)) == row_min(
            fmt,
            rows[j],
            fmt.sub_of(e),
        ),
{
    lemma_packed_block_keeps_weights(fmt, rows, il, j, e);
    lemma_packed_block_keeps_scales(fmt, rows, il, j, fmt.sub_of(e));
}

/// Bytes `p` of eight rows stand, at the same run, one run of `il` bytes per
/// row, in row order.
proof fn lemma_dealt_out(rows: Seq<Seq<u8>>, il: int, j: int, p: int, n: int, base: int)
    requires
        il == 4 || il == 8,
        0 <= j < 8,
        0 <= p < n,
        n % 8 == 0,
    ensures
        interleaved_byte(rows, 8, il, base, (p / il) * (8 * il) + j * il + p % il) == rows[j][base + p],
        0 <= (p / il) * (8 * il) + j * il + p % il < 8 * n,
{
    reveal(interleaved_at);
    law_interleaving_is_undone(8, il, j, p);
    lemma_interleaved_bound(il, j, p, n);
}

/// Where the scale factors and the nibbles of a Q4_K row go in a packed
/// block: the former in row order, the latter dealt out in runs of `il`.
pub proof fn law_q4_k_packed_layout(rows: Seq<Seq<u8>>, il: int, j: int, p: int, i: int)
    requires
        rows.len() == 8,
        forall|r: int| 0 <= r < 8 ==> #[trigger] rows[r].len() == 144,
        il == 4 || il == 8,
        0 <= j < 8,
        0 <= p < 128,
        0 <= i < 2,
    ensures
        ({
            let packed = packed_block(KQuant::Q4K, rows, il);
            &&& packed.len() == 1152
            &&& packed[2 * j + i] == rows[j][i]
            &&& packed[16 + 2 * j + i] == rows[j][2 + i]
            &&& packed[128 + (p / il) * (8 * il) + j * il + p % il] == rows[j][16 + p]
        }),
{
    lemma_dealt_out(rows, il, j, p, 128, 16);
    let u = (p / il) * (8 * il) + j * il + p % il;
    let packed = packed_block(KQuant::Q4K, rows, il);
    assert(packed[128 + u] == rows[j][16 + p]);
}

/// Where the scale factors, the fifth bits and the nibbles of a Q5_K row go
/// in a packed block.
pub proof fn law_q5_k_packed_layout(rows: Seq<Seq<u8>>, il: int, j: int, p: int, h: int, i: int)
    requires
        rows.len() == 8,
        forall|r: int| 0 <= r < 8 ==> #[trigger] rows[r].len() == 176,
        il == 4 || il == 8,
        0 <= j < 8,
        0 <= p < 128,
        0 <= h < 32,
        0 <= i < 2,
    ensures
        ({
            let packed = packed_block(KQuant::Q5K, rows, il);
            &&& packed.len() == 1408
            &&& packed[2 * j + i] == rows[j][i]
            &&& packed[16 + 2 * j + i] == rows[j][2 + i]
            &&& packed[128 + (h / il) * (8 * il) + j * il + h % il] == rows[j][16 + h]
            &&& packed[384 + (p / il) * (8 * il) + j * il + p % il] == rows[j][48 + p]
        }),
{
    lemma_dealt_out(rows, il, j, p, 128, 48);
    lemma_dealt_out(rows, il, j, h, 32, 16);
    let (u, v) = ((p / il) * (8 * il) + j * il + p % il, (h / il) * (8 * il) + j * il + h % il);
    let packed = packed_block(KQuant::Q5K, rows, il);
    assert(packed[384 + u] == rows[j][48 + p]);
    assert(packed[128 + v] == rows[j][16 + h]);
}

/// The scale and min of sub-block `sb` of row `j` are entry `j` of the twelve
/// bytes that a packed block has for that sub-block.
pub proof fn law_packed_scale_groups(fmt: KQuant, rows: Seq<Seq<u8>>, il: int, j: int, sb: int)
    requires
        fmt != KQuant::Q6K,
        rows.len() == 8,
        forall|r: int| 0 <= r < 8 ==> #[trigger] rows[r].len() == fmt.row_bytes(),
        0 <= j < 8,
        0 <= sb < 8,
    ensures
        ({
            let packed = packed_block(fmt, rows, il);
            let g = 32 + 12 * sb;
            &&& (if j < 4 {
                packed[g + j] as int % 64
            } else {
                packed[g + 4 + j] as int % 16 + 16 * (packed[g + j - 4] as int / 64)
            }) == (if sb < 4 {
                rows[j][4 + sb] as int % 64
            } else {
                rows[j][8 + sb] as int % 16 + 16 * (rows[j][sb] as int / 64)
            })
            &&& (if j < 4 {
                packed[g + 4 + j] as int % 64
            } else {
                packed[g + 4 + j] as int / 16 + 16 * (packed[g + j] as int / 64)
            }) == (if sb < 4 {
                rows[j][8 + sb] as int % 64
            } else {
                rows[j][8 + sb] as int / 16 + 16 * (rows[j][4 + sb] as int / 64)
            })
        }),
{
    lemma_packed_block_keeps_scales(fmt, rows, il, j, sb);
}

/// Where every byte of a Q6_K row goes in a packed block: its scale factor
/// in row order, its sub-block scales sub-block by sub-block, its nibbles
/// and its high bits dealt out in runs of `il`.
pub proof fn law_q6_k_packed_layout(rows: Seq<Seq<u8>>, il: int, j: int, p: int, h: int, i: int, sb: int)
    requires
        rows.len() == 8,
        forall|r: int| 0 <= r < 8 ==> #[trigger] rows[r].len() == 210,
        il == 4 || il == 8,
        0 <= j < 8,
        0 <= p < 128,
        0 <= h < 64,
        0 <= i < 2,
        0 <= sb < 16,
    ensures
        ({
            let packed = packed_block(KQuant::Q6K, rows, il);
            &&& packed.len() == 1680
            &&& packed[2 * j + i] == rows[j][208 + i]
            &&& packed[16 + 8 * sb + j] == rows[j][192 + sb]
            &&& packed[144 + (p / il) * (8 * il) + j * il + p % il] == rows[j][p]
            &&& packed[1168 + (h / il) * (8 * il) + j * il + h % il] == rows[j][128 + h]
        }),
{
    lemma_dealt_out(rows, il, j, p, 128, 0);
    lemma_dealt_out(rows, il, j, h, 64, 128);
}

} // verus!
