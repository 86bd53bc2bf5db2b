//! The integer side of the Q4_K encoder: rounding codes into range and
//! laying a fitted super-block out as bytes.
use vstd::prelude::*;
use crate::quant::blocks::{
    law_scale_group_round_trip, min6, pack6_byte, row_min, row_scale, row_weight, scale6, weight_of, KQuant,
    Q4_K_BLOCK_ELEMS,
};
use crate::quant::repack::{pack_scales_mins, read_scale_min};

verus! {

/// Bytes of a block that hold its scales and mins.
pub const Q4_K_SCALE_BYTES: usize = 12;

/// A fitted Q4_K super-block, ready to be laid out: f16 bits of d and dmin,
/// six-bit scales and mins, four-bit codes.
#[derive(Clone, Debug)]
pub struct Q4KBlock {
    pub d_bits: u16,
    pub dmin_bits: u16,
    pub scales: [u8; 8],
    pub mins: [u8; 8],
    pub codes: [u8; 256],
}

impl Q4KBlock {
    /// Every value is within the bits it is stored in.
    pub open spec fn in_range(&self) -> bool {
        &&& forall|k: int| 0 <= k < 8 ==> #[trigger] self.scales[k] < 64
        &&& forall|k: int| 0 <= k < 8 ==> #[trigger] self.mins[k] < 64
        &&& forall|e: int| 0 <= e < 256 ==> #[trigger] self.codes[e] < 16
    }

    /// Byte `t` of the block's canonical form.
    pub open spec fn byte(&self, t: int) -> int {
        if t == 0 {
            self.d_bits as int % 256
        } else if t == 1 {
            self.d_bits as int / 256
        } else if t == 2 {
            self.dmin_bits as int % 256
        } else if t == 3 {
            self.dmin_bits as int / 256
        } else if t < 16 {
            pack6_byte(
                self.scales@.map_values(|v: u8| v as int),
                self.mins@.map_values(|v: u8| v as int),
                t - 4,
            )
        } else {
            let e = ((t - 16) / 32) * 64 + (t - 16) % 32;
            self.codes[e] + 16 * self.codes[e + 32]
        }
    }

    /// The block's canonical form.
    pub open spec fn bytes(&self) -> Seq<u8> {
        Seq::new(144, |t: int| self.byte(t) as u8)
    }
}

/// The rounded integer in the mantissa of a float to which `1.5 * 2^23` was
/// added, given the float's bits.
pub fn nearest_int(bits: u32) -> (n: i32)
    ensures
        n == bits as int % 0x0080_0000 - 0x0040_0000,
{
    (bits % 0x0080_0000) as i32 - 0x0040_0000
}

/// A rounded scale or min as a six-bit code: truncated to a byte first and
/// only then limited, so a negative value wraps to the limit.
pub fn six_bit_code(n: i32) -> (c: u8)
    ensures
        c == if n as int % 256 < 63 { n as int % 256 } else { 63 },
        c < 64,
{
    let wide: u64 = (n as i64 + 0x1_0000_0000) as u64;
    let low: u8 = (wide % 256) as u8;
    if low < 63 {
        low
    } else {
        63
    }
}

/// A rounded weight limited to `0..=nmax`.
pub fn clamp_code(n: i32, nmax: u8) -> (c: u8)
    ensures
        c <= nmax,
        c == if n < 0 { 0 } else if n > nmax { nmax as int } else { n as int },
{
    if n < 0 {
        0
    } else if n > nmax as i32 {
        nmax
    } else {
        n as u8
    }
}

/// Scale and min `j` of a block's 12 packed bytes.
pub fn q4_k_scale_min(j: usize, packed: &[u8; Q4_K_SCALE_BYTES]) -> (r: (u8, u8))
    requires
        j < 8,
    ensures
        r.0 == scale6(packed@, 0, j as int),
        r.1 == min6(packed@, 0, j as int),
{
    read_scale_min(packed, 0, j)
}

/// Appends one super-block's 144 bytes to `out`.
pub fn encode_block_q4_k(block: &Q4KBlock, out: &mut Vec<u8>)
    requires
        block.in_range(),
    ensures
        final(out)@ == old(out)@ + block.bytes(),
{
    let ghost before = out@;
    out.push((block.d_bits % 256) as u8);
    out.push((block.d_bits / 256) as u8);
    out.push((block.dmin_bits % 256) as u8);
    out.push((block.dmin_bits / 256) as u8);
    let group: [u8; 12] = pack_scales_mins(&block.scales, &block.mins);
    out.extend_from_slice(&group);
    assert forall|t: int| 0 <= t < 16 implies #[trigger] out@[before.len() + t] as int == block.byte(t) by {
        if t >= 4 {
            assert(out@[before.len() + t] == group[t - 4]);
        }
    }
    for u in 0usize..128
        invariant
            block.in_range(),
            out@.len() == before.len() + 16 + u,
            forall|i: int| 0 <= i < before.len() ==> #[trigger] out@[i] == before[i],
            forall|t: int| 0 <= t < 16 + u ==> #[trigger] out@[before.len() + t] as int == block.byte(t),
    {
        let e: usize = (u / 32) * 64 + u % 32;
        assert(block.codes[e as int] < 16);
        assert(block.codes[e + 32] < 16);
        out.push(block.codes[e] + 16 * block.codes[e + 32]);
    }
    proof {
        assert forall|i: int| 0 <= i < out@.len() implies #[trigger] out@[i] == (before + block.bytes())[i] by {
            if i >= before.len() {
                assert(out@[before.len() + (i - before.len())] as int == block.byte(i - before.len()));
            }
        }
        assert(out@ =~= before + block.bytes());
    }
}

/// The canonical forms of several blocks, end to end.
pub open spec fn row_bytes_of(blocks: Seq<Q4KBlock>) -> Seq<u8>
    decreases blocks.len(),
{
    if blocks.len() == 0 {
        Seq::empty()
    } else {
        row_bytes_of(blocks.drop_last()) + blocks.last().bytes()
    }
}

/// Lays out a row of `src_len` weights whose super-blocks have been fitted.
/// A row that is not a whole number of super-blocks is refused rather than
/// padded, and nothing is appended for it.
pub fn encode_row_q4_k(src_len: usize, blocks: &[Q4KBlock], out: &mut Vec<u8>) -> (r: Option<()>)
    requires
        src_len % Q4_K_BLOCK_ELEMS == 0 ==> blocks@.len() == src_len / Q4_K_BLOCK_ELEMS,
        forall|i: int| 0 <= i < blocks@.len() ==> (#[trigger] blocks@[i]).in_range(),
    ensures
        r is Some <==> src_len % Q4_K_BLOCK_ELEMS == 0,
        r is Some ==> final(out)@ == old(out)@ + row_bytes_of(blocks@),
        r is None ==> final(out)@ == old(out)@,
{
    if src_len % Q4_K_BLOCK_ELEMS != 0 {
        return None;
    }
    assert(blocks@.take(0) =~= Seq::empty());
    assert(out@ =~= old(out)@ + row_bytes_of(blocks@.take(0)));
    for i in 0usize..blocks.len()
        invariant
            forall|i: int| 0 <= i < blocks@.len() ==> (#[trigger] blocks@[i]).in_range(),
            out@ == old(out)@ + row_bytes_of(blocks@.take(i as int)),
    {
        assert(blocks@[i as int].in_range());
        encode_block_q4_k(&blocks[i], out);
        proof {
            let next = blocks@.take(i + 1);
            assert(next.drop_last() =~= blocks@.take(i as int));
            assert(next.last() == blocks@[i as int]);
            assert(out@ =~= old(out)@ + row_bytes_of(next));
        }
    }
    assert(blocks@.take(blocks@.len() as int) =~= blocks@);
    Some(())
}

proof fn lemma_encoded_scales_read_back(block: Q4KBlock, sb: int)
    requires
        block.in_range(),
        0 <= sb < 8,
    ensures
        row_scale(KQuant::Q4K, block.bytes(), sb) == block.scales[sb],
        row_min(KQuant::Q4K, block.bytes(), sb) == block.mins[sb],
{
    let s = block.bytes();
    let scales = block.scales@.map_values(|v: u8| v as int);
    let mins = block.mins@.map_values(|v: u8| v as int);
    assert forall|k: int| 0 <= k < 8 implies 0 <= #[trigger] scales[k] < 64 by {
        assert(block.scales[k] < 64);
    }
    assert forall|k: int| 0 <= k < 8 implies 0 <= #[trigger] mins[k] < 64 by {
        assert(block.mins[k] < 64);
    }
    assert forall|c: int| 0 <= c < 12 implies #[trigger] s[4 + c] as int == pack6_byte(scales, mins, c) by {
        crate::quant::blocks::lemma_pack6_byte_bounds(scales, mins, c);
    }
    law_scale_group_round_trip(scales, mins, s, 4, sb);
}

proof fn lemma_encoded_code_reads_back(block: Q4KBlock, e: int)
    requires
        block.in_range(),
        0 <= e < 256,
    ensures
        row_weight(KQuant::Q4K, block.bytes(), e) == block.codes[e],
{
    reveal(weight_of);
    let u = (e / 64) * 32 + e % 32;
    let at = (e / 64) * 64 + e % 32;
    assert(0 <= u < 128);
    assert(u / 32 == e / 64 && u % 32 == e % 32);
    let (low, high) = (block.codes[at] as int, block.codes[at + 32] as int);
    assert(0 <= at && at + 32 < 256);
    assert(low < 16 && high < 16);
    assert(block.byte(16 + u) == low + 16 * high);
    assert(block.bytes()[16 + u] as int == low + 16 * high);
    assert((low + 16 * high) % 16 == low && (low + 16 * high) / 16 == high);
    if e % 64 < 32 {
        assert(at == e);
    } else {
        assert(at + 32 == e);
    }
}

/// What the encoder writes, the reader reads back: every scale, min and
/// code of a block survives being laid out as bytes.
pub proof fn law_encoded_block_reads_back(block: Q4KBlock, e: int)
    requires
        block.in_range(),
        0 <= e < 256,
    ensures
        row_weight(KQuant::Q4K, block.bytes(), e) == block.codes[e],
        row_scale(KQuant::Q4K, block.bytes(), e / 32) == block.scales[e / 32],
        row_min(KQuant::Q4K, block.bytes(), e / 32) == block.mins[e / 32],
{
    lemma_encoded_scales_read_back(block, e / 32);
    lemma_encoded_code_reads_back(block, e);
}

/// Where everything of a fitted block stands in its 144 bytes: d and dmin
/// with their low byte first, scale and min `i` in the twelve bytes after
/// them, the code of weight `e` in its nibble.
pub proof fn law_an_encoded_block_is_laid_out(block: Q4KBlock, i: int, e: int)
    requires
        block.in_range(),
        0 <= i < 8,
        0 <= e < 256,
    ensures
        ({
            let s = block.bytes();
            let byte = s[16 + (e / 64) * 32 + e % 32] as int;
            &&& s.len() == 144
            &&& s[0] + 256 * s[1] == block.d_bits
            &&& s[2] + 256 * s[3] == block.dmin_bits
            &&& block.scales[i] == (if i < 4 {
                s[4 + i] as int % 64
            } else {
                s[8 + i] as int % 16 + 16 * (s[i] as int / 64)
            })
            &&& block.mins[i] == (if i < 4 {
                s[8 + i] as int % 64
            } else {
                s[8 + i] as int / 16 + 16 * (s[4 + i] as int / 64)
            })
            &&& block.codes[e] == (if e % 64 < 32 {
                byte % 16
            } else {
                byte / 16
            })
        }),
{
    lemma_encoded_scales_read_back(block, i);
    lemma_encoded_code_reads_back(block, e);
    reveal(weight_of);
}

/// An encoded row is the 144 bytes of its first block, those of its second
/// behind them, and so on.
pub proof fn law_an_encoded_row_is_its_blocks(blocks: Seq<Q4KBlock>, i: int, t: int)
    requires
        0 <= i < blocks.len(),
        0 <= t < 144,
    ensures
        row_bytes_of(blocks).len() == 144 * blocks.len(),
        row_bytes_of(blocks)[144 * i + t] == blocks[i].bytes()[t],
    decreases blocks.len(),
{
    let rest = blocks.drop_last();
    if rest.len() == 0 {
        assert(row_bytes_of(rest) =~= Seq::<u8>::empty());
    } else {
        law_an_encoded_row_is_its_blocks(rest, if i < rest.len() { i } else { 0 }, t);
    }
}

/// Codes stay in their range: a six-bit code is the low byte of its number up
/// to 63, a weight is moved to the nearer end of its range, and a rounding
/// float's mantissa is read around its middle.
pub proof fn law_codes_stay_in_range(n: i32, nmax: u8, bits: u32, six: u8, code: u8, mid: i32)
    requires
        call_ensures(six_bit_code, (n,), six),
        call_ensures(clamp_code, (n, nmax), code),
        call_ensures(nearest_int, (bits,), mid),
    ensures
        six <= 63,
        0 <= n <= 63 ==> six == n,
        -256 <= n < 0 ==> six == if n + 256 < 63 { n + 256 } else { 63 },
        63 < n <= 255 ==> six == 63,
        code <= nmax,
        0 <= n <= nmax ==> code == n,
        n < 0 ==> code == 0,
        n > nmax ==> code == nmax,
        -0x0040_0000 <= mid < 0x0040_0000,
        (bits - mid - 0x0040_0000) % 0x0080_0000 == 0,
{
}

} // verus!
