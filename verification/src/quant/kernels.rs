//! The integer side of the K-quant dot products.
//!
//! Every kernel multiplies the same weights by the same activations; they
//! differ in how many products they add up as integers before a partial
//! sum is scaled and handed to floating point. [`Kernel`] names the
//! groupings and [`KTerms`] carries the partial sums in the order they are
//! consumed. That no grouping loses or repeats a product is shown in
//! `kernel_laws`.
use vstd::prelude::*;
use crate::quant::blocks::{
    bit_weight, interleaved_at, lemma_interleaved_bound, lemma_interleaved_place, lemma_pos_bounds, packed_min,
    packed_scale, packed_weight, signed_byte, weight_of, KQuant, Q4_KX8_BLOCK_BYTES, Q5_KX8_BLOCK_BYTES,
    Q6_KX8_BLOCK_BYTES,
};
use crate::quant::sums::sum_span;

verus! {

/// One row of Q8_K-quantized activations: 256 signed bytes per block, the
/// sums of their runs of 16, and the block scales as raw f32 bits.
#[derive(Clone, Debug)]
pub struct Q8KActivations {
    pub q: Vec<i8>,
    pub bsums: Vec<i16>,
    pub d_bits: Vec<u32>,
}

impl Q8KActivations {
    /// The row covers exactly `nb` blocks.
    pub open spec fn covers(&self, nb: int) -> bool {
        &&& self.q@.len() == nb * 256
        &&& self.bsums@.len() == nb * 16
        &&& self.d_bits@.len() == nb
    }
}

/// A quad of up to [`Q8K_ACTS_X4_NC`] activation rows, interleaved eight
/// elements at a time.
#[derive(Clone, Debug)]
pub struct Q8KActsX4 {
    /// Real activations in the quad (at most 4); rows `na..4` are zero padding.
    pub na: usize,
    /// Q8_K super-blocks per activation.
    pub n_blocks: usize,
    /// `qs[b*1024 + c*32 + a*8 + k] = acts[a].q[b*256 + c*8 + k]`.
    pub qs: Vec<i8>,
    /// `bsums[(b*4 + a)*8 + i] = acts[a].bsums[b*16 + 2i] + acts[a].bsums[b*16 + 2i + 1]`.
    pub bsums: Vec<i16>,
    /// Activation scales as raw f32 bits: `d_bits[b*4 + a]`.
    pub d_bits: Vec<u32>,
}

/// Activations per [`Q8KActsX4`] quad.
pub const Q8K_ACTS_X4_NC: usize = 4;

/// The quants of one activation row, wherever they are stored.
pub struct ActSpec {
    pub q: Seq<i8>,
    pub bsums: Seq<i16>,
    /// The lane of an interleaved quad, or `None` for a plain row.
    pub lane: Option<int>,
}

impl ActSpec {
    /// The row reaches every element of `nb` blocks.
    pub open spec fn covers(self, nb: int) -> bool {
        match self.lane {
            None => self.q.len() == nb * 256 && self.bsums.len() == nb * 16,
            Some(a) => 0 <= a < 4 && self.q.len() == nb * 1024 && self.bsums.len() == nb * 32,
        }
    }

    /// Every recorded sum is one that 16 signed bytes can have.
    pub open spec fn sums_in_range(self) -> bool {
        forall|i: int| 0 <= i < self.bsums.len() ==> -2048 <= #[trigger] self.bsums[i] <= 2048
    }

    /// Element `e` of block `b`.
    pub open spec fn at(self, b: int, e: int) -> int {
        match self.lane {
            None => self.q[b * 256 + e] as int,
            Some(a) => self.q[b * 1024 + (e / 8) * 32 + a * 8 + e % 8] as int,
        }
    }

    /// The sum of the 32 elements of sub-block `sb` of block `b`, as the
    /// quantizer recorded it.
    pub open spec fn folded(self, b: int, sb: int) -> int {
        match self.lane {
            None => self.bsums[b * 16 + 2 * sb] + self.bsums[b * 16 + 2 * sb + 1],
            Some(a) => self.bsums[(b * 4 + a) * 8 + sb] as int,
        }
    }
}

impl View for Q8KActivations {
    type V = ActSpec;

    open spec fn view(&self) -> ActSpec {
        ActSpec { q: self.q@, bsums: self.bsums@, lane: None }
    }
}

impl Q8KActsX4 {
    /// The quad covers exactly `nb` blocks.
    pub open spec fn covers(&self, nb: int) -> bool {
        &&& self.na <= 4
        &&& self.n_blocks == nb
        &&& self.qs@.len() == nb * 1024
        &&& self.bsums@.len() == nb * 32
        &&& self.d_bits@.len() == nb * 4
    }

    /// Activation `a` of the quad.
    pub open spec fn lane(&self, a: int) -> ActSpec {
        ActSpec { q: self.qs@, bsums: self.bsums@, lane: Some(a) }
    }
}

/// Reads one activation row, from the row itself or from its lane of a quad.
pub(crate) struct ActView<'a> {
    q: &'a [i8],
    bsums: &'a [i16],
    lane: Option<usize>,
}

impl<'a> View for ActView<'a> {
    type V = ActSpec;

    closed spec fn view(&self) -> ActSpec {
        ActSpec {
            q: self.q@,
            bsums: self.bsums@,
            lane: match self.lane {
                None => None,
                Some(a) => Some(a as int),
            },
        }
    }
}

impl<'a> ActView<'a> {
    /// Reads element `e` of block `b`.
    fn read(&self, b: usize, e: usize, Ghost(nb): Ghost<int>) -> (v: i32)
        requires
            self@.covers(nb),
            b < nb,
            e < 256,
        ensures
            v == self@.at(b as int, e as int),
            -128 <= v <= 127,
    {
        let len: usize = self.q.len();
        match self.lane {
            None => {
                assert(b * 256 + e < len);
                self.q[b * 256 + e] as i32
            },
            Some(a) => {
                assert(b * 1024 + 1024 <= len);
                self.q[b * 1024 + (e / 8) * 32 + a * 8 + e % 8] as i32
            },
        }
    }

    /// Reads the recorded sum of sub-block `sb` of block `b`.
    fn read_folded(&self, b: usize, sb: usize, Ghost(nb): Ghost<int>) -> (v: i32)
        requires
            self@.covers(nb),
            b < nb,
            sb < 8,
        ensures
            v == self@.folded(b as int, sb as int),
            -65536 <= v <= 65534,
    {
        let len: usize = self.bsums.len();
        match self.lane {
            None => {
                assert(b * 16 + 16 <= len);
                self.bsums[b * 16 + 2 * sb] as i32 + self.bsums[b * 16 + 2 * sb + 1] as i32
            },
            Some(a) => {
                assert(b * 32 + 32 <= len);
                self.bsums[(b * 4 + a) * 8 + sb] as i32
            },
        }
    }
}

/// A plain activation row, ready to be read.
pub(crate) fn row_view(act: &Q8KActivations) -> (v: ActView<'_>)
    ensures
        v@ == act@,
{
    ActView { q: act.q.as_slice(), bsums: act.bsums.as_slice(), lane: None }
}

/// Lane `a` of a quad, ready to be read.
pub(crate) fn lane_view(tile: &Q8KActsX4, a: usize) -> (v: ActView<'_>)
    ensures
        v@ == tile.lane(a as int),
{
    ActView { q: tile.qs.as_slice(), bsums: tile.bsums.as_slice(), lane: Some(a) }
}

/// `2^s` for the shifts a byte allows.
fn bit_weight_of(s: usize) -> (w: u8)
    requires
        s < 8,
    ensures
        w == bit_weight(s as int),
        w > 0,
{
    match s {
        0 => 1,
        1 => 2,
        2 => 4,
        3 => 8,
        4 => 16,
        5 => 32,
        6 => 64,
        _ => 128,
    }
}

/// A byte read as a two's-complement number.
pub(crate) fn signed_byte_of(b: u8) -> (v: i32)
    ensures
        v == signed_byte(b),
        -128 <= v <= 127,
{
    if b < 128 {
        b as i32
    } else {
        b as i32 - 256
    }
}

/// The place of byte `p` of row `j` in an interleaved section of eight rows.
fn place_of(interleave: usize, j: usize, p: usize, Ghost(n): Ghost<int>) -> (u: usize)
    requires
        interleave == 4 || interleave == 8,
        j < 8,
        p < n <= 128,
        n % 8 == 0,
    ensures
        u == interleaved_at(8, interleave as int, j as int, p as int),
        u < 8 * n,
{
    proof {
        lemma_interleaved_place(8, interleave as int, j as int, p as int);
        lemma_interleaved_bound(interleave as int, j as int, p as int, n);
    }
    if interleave == 4 {
        (p / 4) * 32 + j * 4 + p % 4
    } else {
        (p / 8) * 64 + j * 8 + p % 8
    }
}

/// Decodes weight `e` of row `j` of the packed block at `base`.
fn weight_at(fmt: KQuant, packed: &[u8], base: usize, interleave: usize, j: usize, e: usize) -> (w: i32)
    requires
        interleave == 4 || interleave == 8,
        j < 8,
        e < 256,
        base + fmt.packed_bytes() <= packed.len(),
    ensures
        w == packed_weight(fmt, packed@, base as int, interleave as int, j as int, e as int),
        -32 <= w <= 31,
{
    proof {
        reveal(weight_of);
        lemma_pos_bounds(fmt, e as int);
    }
    match fmt {
        KQuant::Q4K => {
            let ul: usize = place_of(interleave, j, (e / 64) * 32 + e % 32, Ghost(128));
            let low: u8 = packed[base + 128 + ul];
            if e % 64 < 32 {
                (low % 16) as i32
            } else {
                (low / 16) as i32
            }
        },
        KQuant::Q5K => {
            let ul: usize = place_of(interleave, j, (e / 64) * 32 + e % 32, Ghost(128));
            let uh: usize = place_of(interleave, j, e % 32, Ghost(32));
            let low: u8 = packed[base + 384 + ul];
            let high: u8 = packed[base + 128 + uh];
            let bit: u8 = (high / bit_weight_of(e / 32)) % 2;
            if e % 64 < 32 {
                (low % 16 + 16 * bit) as i32
            } else {
                (low / 16 + 16 * bit) as i32
            }
        },
        KQuant::Q6K => {
            let ul: usize = place_of(interleave, j, (e / 128) * 64 + e % 64, Ghost(128));
            let uh: usize = place_of(interleave, j, (e / 128) * 32 + e % 32, Ghost(64));
            let low: u8 = packed[base + 144 + ul];
            let high: u8 = packed[base + 1168 + uh];
            let two: u8 = (high / bit_weight_of(2 * ((e % 128) / 32))) % 4;
            if e % 128 < 64 {
                (low % 16 + 16 * two) as i32 - 32
            } else {
                (low / 16 + 16 * two) as i32 - 32
            }
        },
    }
}

/// Decodes the scale of sub-block `sb` of row `j` of the packed block at `base`.
fn scale_at(fmt: KQuant, packed: &[u8], base: usize, j: usize, sb: usize) -> (s: i32)
    requires
        j < 8,
        sb < fmt.n_subs(),
        base + fmt.packed_bytes() <= packed.len(),
    ensures
        s == packed_scale(fmt, packed@, base as int, j as int, sb as int),
        -128 <= s <= 127,
        fmt != KQuant::Q6K ==> 0 <= s < 64,
{
    match fmt {
        KQuant::Q6K => signed_byte_of(packed[base + 16 + 8 * sb + j]),
        _ => {
            let at: usize = base + 32 + 12 * sb;
            if j < 4 {
                (packed[at + j] % 64) as i32
            } else {
                (packed[at + 4 + j] % 16 + 16 * (packed[at + j - 4] / 64)) as i32
            }
        },
    }
}

/// Decodes the min of sub-block `sb` of row `j` of the packed block at `base`.
fn min_at(fmt: KQuant, packed: &[u8], base: usize, j: usize, sb: usize) -> (m: i32)
    requires
        j < 8,
        sb < 8,
        base + fmt.packed_bytes() <= packed.len(),
    ensures
        m == packed_min(fmt, packed@, base as int, j as int, sb as int),
        0 <= m < 64,
{
    match fmt {
        KQuant::Q6K => 0,
        _ => {
            let at: usize = base + 32 + 12 * sb;
            if j < 4 {
                (packed[at + 4 + j] % 64) as i32
            } else {
                (packed[at + 4 + j] / 16 + 16 * (packed[at + j] / 64)) as i32
            }
        },
    }
}

/// How a kernel groups its products before they leave integer arithmetic.
#[derive(Clone, Copy, Debug, PartialEq, Eq, Structural)]
pub enum Kernel {
    /// One partial sum per run of `interleave` nibble bytes, mins per sub-block.
    Scalar,
    /// One partial sum per stretch of nibble bytes, mins per block.
    Sdot,
    /// One partial sum per sub-block with mins per stretch; for Q6_K one per
    /// block, with the offset of 32 taken out through the recorded run sums.
    Dot8x8,
    /// One partial sum per block, over an interleaved quad.
    I8mm,
    /// One partial sum per block.
    Avx2,
}

/// A packed block somewhere in a byte sequence.
pub struct BlockRef {
    pub fmt: KQuant,
    pub bytes: Seq<u8>,
    pub base: int,
    pub il: int,
}

/// The product of weight `e` of row `j`, its scale, and the activation.
pub open spec fn elem_term(blk: BlockRef, j: int, act: ActSpec, b: int, e: int) -> int {
    packed_weight(blk.fmt, blk.bytes, blk.base, blk.il, j, e) * act.at(b, e) * packed_scale(
        blk.fmt,
        blk.bytes,
        blk.base,
        j,
        blk.fmt.sub_of(e),
    )
}

/// [`elem_term`] as a function of the element.
pub open spec fn elem_fn(blk: BlockRef, j: int, act: ActSpec, b: int) -> spec_fn(int) -> int {
    |e: int| elem_term(blk, j, act, b, e)
}

/// The scaled dot product over elements `lo..hi`.
pub open spec fn span_part(blk: BlockRef, j: int, act: ActSpec, b: int, lo: int, hi: int) -> int {
    sum_span(elem_fn(blk, j, act, b), lo, hi)
}

/// The first element of run `k`: runs walk the nibble bytes in order.
pub open spec fn run_start(fmt: KQuant, il: int, k: int) -> int {
    if fmt == KQuant::Q6K {
        if il == 4 {
            (k / 16) * 128 + (k % 16) * 4
        } else {
            (k / 8) * 128 + (k % 8) * 8
        }
    } else {
        if il == 4 {
            (k / 8) * 64 + (k % 8) * 4
        } else {
            (k / 4) * 64 + (k % 4) * 8
        }
    }
}

/// How far apart the weights in the two nibbles of a byte are.
pub open spec fn nibble_stride(fmt: KQuant) -> int {
    if fmt == KQuant::Q6K {
        64
    } else {
        32
    }
}

/// The products of run `k`: its low nibbles and its high nibbles.
pub open spec fn run_part(blk: BlockRef, j: int, act: ActSpec, b: int, k: int) -> int {
    let lo = run_start(blk.fmt, blk.il, k);
    let hi = lo + nibble_stride(blk.fmt);
    span_part(blk, j, act, b, lo, lo + blk.il) + span_part(blk, j, act, b, hi, hi + blk.il)
}

/// The product of weight `e` before the offset of 32 is taken off.
pub open spec fn raw_term(blk: BlockRef, j: int, act: ActSpec, b: int, e: int) -> int {
    (packed_weight(blk.fmt, blk.bytes, blk.base, blk.il, j, e) + 32) * act.at(b, e) * packed_scale(
        blk.fmt,
        blk.bytes,
        blk.base,
        j,
        blk.fmt.sub_of(e),
    )
}

/// [`raw_term`] as a function of the element.
pub open spec fn raw_fn(blk: BlockRef, j: int, act: ActSpec, b: int) -> spec_fn(int) -> int {
    |e: int| raw_term(blk, j, act, b, e)
}

/// The recorded sum of run-of-16 `s` times its scale.
pub open spec fn bias_fn(blk: BlockRef, j: int, act: ActSpec, b: int) -> spec_fn(int) -> int {
    |s: int| act.bsums[b * 16 + s] * packed_scale(blk.fmt, blk.bytes, blk.base, j, s)
}

/// The block total with the offset of 32 taken out through the recorded sums.
pub open spec fn biased_part(blk: BlockRef, j: int, act: ActSpec, b: int) -> int {
    sum_span(raw_fn(blk, j, act, b), 0, 256) - 32 * sum_span(bias_fn(blk, j, act, b), 0, 16)
}

/// How many partial dot products a kernel emits per block and row.
pub open spec fn n_dots(fmt: KQuant, kernel: Kernel, il: int) -> int {
    match kernel {
        Kernel::Scalar => if il == 4 { 32 } else { 16 },
        Kernel::Sdot => if fmt == KQuant::Q6K { 2 } else { 4 },
        Kernel::Dot8x8 => if fmt == KQuant::Q6K { 1 } else { 8 },
        Kernel::I8mm => 1,
        Kernel::Avx2 => 1,
    }
}

/// Partial dot product `t` of row `j`.
pub open spec fn dot_part(blk: BlockRef, kernel: Kernel, j: int, act: ActSpec, b: int, t: int) -> int {
    match kernel {
        Kernel::Scalar => run_part(blk, j, act, b, t),
        Kernel::Sdot => span_part(
            blk,
            j,
            act,
            b,
            t * 2 * nibble_stride(blk.fmt),
            t * 2 * nibble_stride(blk.fmt) + 2 * nibble_stride(blk.fmt),
        ),
        Kernel::Dot8x8 => if blk.fmt == KQuant::Q6K {
            biased_part(blk, j, act, b)
        } else {
            span_part(blk, j, act, b, t * 32, t * 32 + 32)
        },
        Kernel::I8mm => span_part(blk, j, act, b, 0, 256),
        Kernel::Avx2 => span_part(blk, j, act, b, 0, 256),
    }
}

/// The min of sub-block `sb` times the recorded sum it applies to.
pub open spec fn min_term(blk: BlockRef, j: int, act: ActSpec, b: int, sb: int) -> int {
    packed_min(blk.fmt, blk.bytes, blk.base, j, sb) * act.folded(b, sb)
}

/// [`min_term`] as a function of the sub-block.
pub open spec fn min_fn(blk: BlockRef, j: int, act: ActSpec, b: int) -> spec_fn(int) -> int {
    |sb: int| min_term(blk, j, act, b, sb)
}

/// How many sub-blocks one emitted min term covers.
pub open spec fn min_width(kernel: Kernel) -> int {
    match kernel {
        Kernel::Scalar => 1,
        Kernel::Dot8x8 => 2,
        _ => 8,
    }
}

/// How many min terms a kernel emits per block and row.
pub open spec fn n_mins(fmt: KQuant, kernel: Kernel) -> int {
    if fmt == KQuant::Q6K {
        0
    } else {
        match kernel {
            Kernel::Scalar => 8,
            Kernel::Dot8x8 => 4,
            _ => 1,
        }
    }
}

/// Min term `t` of row `j`.
pub open spec fn min_part(blk: BlockRef, kernel: Kernel, j: int, act: ActSpec, b: int, t: int) -> int {
    sum_span(min_fn(blk, j, act, b), t * min_width(kernel), t * min_width(kernel) + min_width(kernel))
}

/// The partial sums of one block, eight rows side by side.
#[derive(Clone, Debug)]
pub struct BlockTerms {
    /// `dots[t*8 + j]`: partial dot product `t` of row `j`.
    pub dots: Vec<i32>,
    /// `mins[t*8 + j]`: min term `t` of row `j`.
    pub mins: Vec<i32>,
}

impl BlockTerms {
    /// These are the partial sums `kernel` takes over `blk` and block `b` of `act`.
    pub open spec fn are_of(&self, blk: BlockRef, kernel: Kernel, act: ActSpec, b: int) -> bool {
        &&& self.dots@.len() == n_dots(blk.fmt, kernel, blk.il) * 8
        &&& self.mins@.len() == n_mins(blk.fmt, kernel) * 8
        &&& forall|i: int|
            0 <= i < self.dots@.len() ==> #[trigger] self.dots@[i] == dot_part(blk, kernel, i % 8, act, b, i / 8)
        &&& forall|i: int|
            0 <= i < self.mins@.len() ==> #[trigger] self.mins@[i] == min_part(blk, kernel, i % 8, act, b, i / 8)
    }
}

/// The partial sums of a whole product, block by block.
#[derive(Clone, Debug)]
pub struct KTerms {
    /// Which grouping the sums follow.
    pub kernel: Kernel,
    /// `blocks[x*nb + b]`: row-group `x`, column block `b`.
    pub blocks: Vec<BlockTerms>,
}

/// Packed block `k` of a matrix.
pub open spec fn matrix_block(fmt: KQuant, packed: Seq<u8>, il: int, k: int) -> BlockRef {
    BlockRef { fmt, bytes: packed, base: k * fmt.packed_bytes(), il }
}

impl KTerms {
    /// These are the partial sums of `groups` row-groups of `packed` times `act`.
    pub open spec fn are_of(
        &self,
        fmt: KQuant,
        packed: Seq<u8>,
        il: int,
        act: ActSpec,
        nb: int,
        groups: int,
    ) -> bool {
        &&& self.blocks@.len() == groups * nb
        &&& forall|k: int|
            0 <= k < groups * nb ==> (#[trigger] self.blocks@[k]).are_of(
                matrix_block(fmt, packed, il, k),
                self.kernel,
                act,
                k % nb,
            )
    }
}

proof fn lemma_elem_bound(w: int, a: int, s: int)
    requires
        -32 <= w <= 63,
        -128 <= a <= 127,
        -128 <= s <= 127,
    ensures
        -8192 <= w * a <= 8192,
        -1048576 <= w * a * s <= 1048576,
{
    assert(-8192 <= w * a <= 8192) by (nonlinear_arith)
        requires
            -32 <= w <= 63,
            -128 <= a <= 127,
    ;
    let p = w * a;
    assert(-1048576 <= p * s <= 1048576) by (nonlinear_arith)
        requires
            -8192 <= p <= 8192,
            -128 <= s <= 127,
    ;
}

/// Adds up the scaled products of elements `lo..hi` of row `j`.
fn span_dot(
    fmt: KQuant,
    packed: &[u8],
    base: usize,
    interleave: usize,
    j: usize,
    act: &ActView,
    b: usize,
    lo: usize,
    hi: usize,
    Ghost(nb): Ghost<int>,
) -> (sum: i32)
    requires
        interleave == 4 || interleave == 8,
        j < 8,
        lo <= hi <= 256,
        base + fmt.packed_bytes() <= packed.len(),
        act@.covers(nb),
        b < nb,
    ensures
        sum == span_part(
            BlockRef { fmt, bytes: packed@, base: base as int, il: interleave as int },
            j as int,
            act@,
            b as int,
            lo as int,
            hi as int,
        ),
        -1048576 * (hi - lo) <= sum <= 1048576 * (hi - lo),
{
    let ghost blk = BlockRef { fmt, bytes: packed@, base: base as int, il: interleave as int };
    let mut sum: i32 = 0;
    for e in lo..hi
        invariant
            interleave == 4 || interleave == 8,
            j < 8,
            lo <= hi <= 256,
            base + fmt.packed_bytes() <= packed.len(),
            act@.covers(nb),
            b < nb,
            blk == (BlockRef { fmt, bytes: packed@, base: base as int, il: interleave as int }),
            sum == span_part(blk, j as int, act@, b as int, lo as int, e as int),
            -1048576 * (e - lo) <= sum <= 1048576 * (e - lo),
    {
        let sb: usize = match fmt {
            KQuant::Q6K => e / 16,
            _ => e / 32,
        };
        let w: i32 = weight_at(fmt, packed, base, interleave, j, e);
        let a: i32 = act.read(b, e, Ghost(nb));
        let s: i32 = scale_at(fmt, packed, base, j, sb);
        proof {
            lemma_elem_bound(w as int, a as int, s as int);
            assert(elem_fn(blk, j as int, act@, b as int)(e as int) == w * a * s);
        }
        sum = sum + w * a * s;
    }
    sum
}

/// Adds up a Q6_K block's products of row `j` on the unsigned weights, then
/// takes the offset of 32 out through the recorded run sums.
fn biased_dot(
    packed: &[u8],
    base: usize,
    interleave: usize,
    j: usize,
    act: &ActView,
    b: usize,
    Ghost(nb): Ghost<int>,
) -> (sum: i32)
    requires
        interleave == 4 || interleave == 8,
        j < 8,
        base + KQuant::Q6K.packed_bytes() <= packed.len(),
        act@.covers(nb),
        act@.lane is None,
        act@.sums_in_range(),
        b < nb,
    ensures
        sum == biased_part(
            BlockRef { fmt: KQuant::Q6K, bytes: packed@, base: base as int, il: interleave as int },
            j as int,
            act@,
            b as int,
        ),
{
    let ghost blk = BlockRef { fmt: KQuant::Q6K, bytes: packed@, base: base as int, il: interleave as int };
    let mut raw: i32 = 0;
    for e in 0usize..256
        invariant
            interleave == 4 || interleave == 8,
            j < 8,
            base + KQuant::Q6K.packed_bytes() <= packed.len(),
            act@.covers(nb),
            b < nb,
            blk == (BlockRef { fmt: KQuant::Q6K, bytes: packed@, base: base as int, il: interleave as int }),
            raw == sum_span(raw_fn(blk, j as int, act@, b as int), 0, e as int),
            -1048576 * e <= raw <= 1048576 * e,
    {
        let w: i32 = weight_at(KQuant::Q6K, packed, base, interleave, j, e) + 32;
        let a: i32 = act.read(b, e, Ghost(nb));
        let s: i32 = scale_at(KQuant::Q6K, packed, base, j, e / 16);
        proof {
            lemma_elem_bound(w as int, a as int, s as int);
            assert(raw_fn(blk, j as int, act@, b as int)(e as int) == w * a * s);
        }
        raw = raw + w * a * s;
    }
    let mut bias: i32 = 0;
    for s in 0usize..16
        invariant
            j < 8,
            base + KQuant::Q6K.packed_bytes() <= packed.len(),
            act@.covers(nb),
            act@.lane is None,
            act@.sums_in_range(),
            b < nb,
            blk == (BlockRef { fmt: KQuant::Q6K, bytes: packed@, base: base as int, il: interleave as int }),
            bias == sum_span(bias_fn(blk, j as int, act@, b as int), 0, s as int),
            -262144 * s <= bias <= 262144 * s,
    {
        let len: usize = act.bsums.len();
        assert(b * 16 + 16 <= len);
        let total: i32 = act.bsums[b * 16 + s] as i32;
        let sc: i32 = scale_at(KQuant::Q6K, packed, base, j, s);
        proof {
            assert(-262144 <= total * sc <= 262144) by (nonlinear_arith)
                requires
                    -2048 <= total <= 2048,
                    -128 <= sc <= 127,
            ;
            assert(bias_fn(blk, j as int, act@, b as int)(s as int) == total * sc);
        }
        bias = bias + total * sc;
    }
    raw - 32 * bias
}

/// Adds up the min terms of sub-blocks `lo..hi` of row `j`.
fn min_sum(
    fmt: KQuant,
    packed: &[u8],
    base: usize,
    j: usize,
    act: &ActView,
    b: usize,
    lo: usize,
    hi: usize,
    Ghost(nb): Ghost<int>,
    Ghost(il): Ghost<int>,
) -> (sum: i32)
    requires
        j < 8,
        lo <= hi <= 8,
        base + fmt.packed_bytes() <= packed.len(),
        act@.covers(nb),
        b < nb,
    ensures
        sum == sum_span(
            min_fn(BlockRef { fmt, bytes: packed@, base: base as int, il }, j as int, act@, b as int),
            lo as int,
            hi as int,
        ),
{
    let ghost blk = BlockRef { fmt, bytes: packed@, base: base as int, il };
    let mut sum: i32 = 0;
    for sb in lo..hi
        invariant
            j < 8,
            lo <= hi <= 8,
            base + fmt.packed_bytes() <= packed.len(),
            act@.covers(nb),
            b < nb,
            blk == (BlockRef { fmt, bytes: packed@, base: base as int, il }),
            sum == sum_span(min_fn(blk, j as int, act@, b as int), lo as int, sb as int),
            -4194304 * (sb - lo) <= sum <= 4194304 * (sb - lo),
    {
        let m: i32 = min_at(fmt, packed, base, j, sb);
        let total: i32 = act.read_folded(b, sb, Ghost(nb));
        proof {
            assert(-4194304 <= m * total <= 4194304) by (nonlinear_arith)
                requires
                    0 <= m < 64,
                    -65536 <= total <= 65534,
            ;
            assert(min_fn(blk, j as int, act@, b as int)(sb as int) == m * total);
        }
        sum = sum + m * total;
    }
    sum
}

/// Where run `k` starts.
fn run_start_of(fmt: KQuant, interleave: usize, k: usize) -> (lo: usize)
    requires
        interleave == 4 || interleave == 8,
        k < if interleave == 4 { 32int } else { 16int },
    ensures
        lo == run_start(fmt, interleave as int, k as int),
        lo + nibble_stride(fmt) + interleave <= 256,
{
    match fmt {
        KQuant::Q6K => if interleave == 4 {
            (k / 16) * 128 + (k % 16) * 4
        } else {
            (k / 8) * 128 + (k % 8) * 8
        },
        _ => if interleave == 4 {
            (k / 8) * 64 + (k % 8) * 4
        } else {
            (k / 4) * 64 + (k % 4) * 8
        },
    }
}

/// Partial dot product `t` of row `j`, as `kernel` groups them.
fn dot_of(
    fmt: KQuant,
    kernel: Kernel,
    packed: &[u8],
    base: usize,
    interleave: usize,
    j: usize,
    act: &ActView,
    b: usize,
    t: usize,
    Ghost(nb): Ghost<int>,
) -> (sum: i32)
    requires
        interleave == 4 || interleave == 8,
        j < 8,
        t < n_dots(fmt, kernel, interleave as int),
        base + fmt.packed_bytes() <= packed.len(),
        act@.covers(nb),
        fmt == KQuant::Q6K && kernel == Kernel::Dot8x8 ==> act@.lane is None && act@.sums_in_range(),
        b < nb,
    ensures
        sum == dot_part(
            BlockRef { fmt, bytes: packed@, base: base as int, il: interleave as int },
            kernel,
            j as int,
            act@,
            b as int,
            t as int,
        ),
{
    let stride: usize = match fmt {
        KQuant::Q6K => 64,
        _ => 32,
    };
    match kernel {
        Kernel::Scalar => {
            let lo: usize = run_start_of(fmt, interleave, t);
            let low: i32 = span_dot(fmt, packed, base, interleave, j, act, b, lo, lo + interleave, Ghost(nb));
            let high: i32 = span_dot(
                fmt,
                packed,
                base,
                interleave,
                j,
                act,
                b,
                lo + stride,
                lo + stride + interleave,
                Ghost(nb),
            );
            low + high
        },
        Kernel::Sdot => span_dot(
            fmt,
            packed,
            base,
            interleave,
            j,
            act,
            b,
            t * 2 * stride,
            t * 2 * stride + 2 * stride,
            Ghost(nb),
        ),
        Kernel::Dot8x8 => match fmt {
            KQuant::Q6K => biased_dot(packed, base, interleave, j, act, b, Ghost(nb)),
            _ => span_dot(fmt, packed, base, interleave, j, act, b, t * 32, t * 32 + 32, Ghost(nb)),
        },
        Kernel::I8mm => span_dot(fmt, packed, base, interleave, j, act, b, 0, 256, Ghost(nb)),
        Kernel::Avx2 => span_dot(fmt, packed, base, interleave, j, act, b, 0, 256, Ghost(nb)),
    }
}

/// How many partial dot products and min terms a kernel emits per block.
fn term_counts(fmt: KQuant, kernel: Kernel, interleave: usize) -> (r: (usize, usize, usize))
    requires
        interleave == 4 || interleave == 8,
    ensures
        r.0 == n_dots(fmt, kernel, interleave as int),
        r.1 == n_mins(fmt, kernel),
        r.2 == min_width(kernel),
        r.0 <= 32,
        r.1 * r.2 <= 8,
        r.1 <= 8,
        1 <= r.2 <= 8,
{
    let n: usize = match kernel {
        Kernel::Scalar => if interleave == 4 {
            32
        } else {
            16
        },
        Kernel::Sdot => match fmt {
            KQuant::Q6K => 2,
            _ => 4,
        },
        Kernel::Dot8x8 => match fmt {
            KQuant::Q6K => 1,
            _ => 8,
        },
        Kernel::I8mm => 1,
        Kernel::Avx2 => 1,
    };
    let width: usize = match kernel {
        Kernel::Scalar => 1,
        Kernel::Dot8x8 => 2,
        _ => 8,
    };
    let mins: usize = match fmt {
        KQuant::Q6K => 0,
        _ => match kernel {
            Kernel::Scalar => 8,
            Kernel::Dot8x8 => 4,
            _ => 1,
        },
    };
    (n, mins, width)
}

/// All the partial sums of one packed block.
fn block_terms(
    fmt: KQuant,
    kernel: Kernel,
    packed: &[u8],
    base: usize,
    interleave: usize,
    act: &ActView,
    b: usize,
    Ghost(nb): Ghost<int>,
) -> (terms: BlockTerms)
    requires
        interleave == 4 || interleave == 8,
        base + fmt.packed_bytes() <= packed.len(),
        act@.covers(nb),
        fmt == KQuant::Q6K && kernel == Kernel::Dot8x8 ==> act@.lane is None && act@.sums_in_range(),
        b < nb,
    ensures
        terms.are_of(
            BlockRef { fmt, bytes: packed@, base: base as int, il: interleave as int },
            kernel,
            act@,
            b as int,
        ),
{
    let ghost blk = BlockRef { fmt, bytes: packed@, base: base as int, il: interleave as int };
    let (n, m, width): (usize, usize, usize) = term_counts(fmt, kernel, interleave);
    let mut dots: Vec<i32> = Vec::new();
    for i in 0usize..n * 8
        invariant
            interleave == 4 || interleave == 8,
            n == n_dots(fmt, kernel, interleave as int),
            n <= 32,
            base + fmt.packed_bytes() <= packed.len(),
            act@.covers(nb),
            fmt == KQuant::Q6K && kernel == Kernel::Dot8x8 ==> act@.lane is None && act@.sums_in_range(),
            b < nb,
            blk == (BlockRef { fmt, bytes: packed@, base: base as int, il: interleave as int }),
            dots@.len() == i,
            forall|k: int|
                0 <= k < i ==> #[trigger] dots@[k] == dot_part(blk, kernel, k % 8, act@, b as int, k / 8),
    {
        let part: i32 = dot_of(fmt, kernel, packed, base, interleave, i % 8, act, b, i / 8, Ghost(nb));
        dots.push(part);
    }
    let mut mins: Vec<i32> = Vec::new();
    for i in 0usize..m * 8
        invariant
            m == n_mins(fmt, kernel),
            width == min_width(kernel),
            m <= 8,
            m * width <= 8,
            1 <= width <= 8,
            base + fmt.packed_bytes() <= packed.len(),
            act@.covers(nb),
            b < nb,
            blk == (BlockRef { fmt, bytes: packed@, base: base as int, il: interleave as int }),
            mins@.len() == i,
            forall|k: int|
                0 <= k < i ==> #[trigger] mins@[k] == min_part(blk, kernel, k % 8, act@, b as int, k / 8),
    {
        let t: usize = i / 8;
        assert(t < m);
        assert(t * width + width <= m * width) by (nonlinear_arith)
            requires
                0 <= t < m,
                1 <= width,
        ;
        assert(0 <= t * width) by (nonlinear_arith)
            requires
                0 <= t,
                1 <= width,
        ;
        let part: i32 = min_sum(
            fmt,
            packed,
            base,
            i % 8,
            act,
            b,
            t * width,
            t * width + width,
            Ghost(nb),
            Ghost(interleave as int),
        );
        mins.push(part);
    }
    BlockTerms { dots, mins }
}

/// All the partial sums of `groups` row-groups times one activation row.
pub(crate) fn matrix_terms(
    fmt: KQuant,
    kernel: Kernel,
    packed: &[u8],
    interleave: usize,
    act: &ActView,
    nb: usize,
    groups: usize,
) -> (terms: KTerms)
    requires
        interleave == 4 || interleave == 8,
        packed@.len() >= groups * nb * fmt.packed_bytes(),
        act@.covers(nb as int),
        fmt == KQuant::Q6K && kernel == Kernel::Dot8x8 ==> act@.lane is None && act@.sums_in_range(),
    ensures
        terms.kernel == kernel,
        terms.are_of(fmt, packed@, interleave as int, act@, nb as int, groups as int),
{
    let unit: usize = match fmt {
        KQuant::Q4K => Q4_KX8_BLOCK_BYTES,
        KQuant::Q5K => Q5_KX8_BLOCK_BYTES,
        KQuant::Q6K => Q6_KX8_BLOCK_BYTES,
    };
    let total: usize = packed.len();
    let mut blocks: Vec<BlockTerms> = Vec::new();
    proof {
        assert(groups * nb <= groups * nb * unit) by (nonlinear_arith)
            requires
                0 <= groups * nb,
                1 <= unit,
        ;
    }
    let count: usize = groups * nb;
    for k in 0usize..count
        invariant
            interleave == 4 || interleave == 8,
            unit == fmt.packed_bytes(),
            count == groups * nb,
            total == packed@.len(),
            packed.len() >= count * unit,
            act@.covers(nb as int),
            fmt == KQuant::Q6K && kernel == Kernel::Dot8x8 ==> act@.lane is None && act@.sums_in_range(),
            blocks@.len() == k,
            forall|i: int|
                0 <= i < k ==> (#[trigger] blocks@[i]).are_of(
                    matrix_block(fmt, packed@, interleave as int, i),
                    kernel,
                    act@,
                    i % (nb as int),
                ),
    {
        proof {
            assert(0 < nb) by (nonlinear_arith)
                requires
                    0 <= k < groups * nb,
                    0 <= nb,
            ;
            assert(k * unit + unit <= count * unit) by (nonlinear_arith)
                requires
                    k < count,
                    0 <= unit,
            ;
        }
        let b: usize = k % nb;
        let terms: BlockTerms = block_terms(
            fmt,
            kernel,
            packed,
            k * unit,
            interleave,
            act,
            b,
            Ghost(nb as int),
        );
        blocks.push(terms);
    }
    KTerms { kernel, blocks }
}

} // verus!
