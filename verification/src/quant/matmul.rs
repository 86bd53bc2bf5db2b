//! Products of packed K-quant matrices with quantized activations: which
//! kernel runs on which CPU, and the integer sums it hands back.
use vstd::prelude::*;
use crate::quant::blocks::{
    KQuant, Q4_KX8_BLOCK_BYTES, Q4_K_BLOCK_ELEMS, Q5_KX8_BLOCK_BYTES, Q5_K_BLOCK_ELEMS, Q6_KX8_BLOCK_BYTES,
    Q6_K_BLOCK_ELEMS,
};
use crate::quant::kernels::{
    dot_part, elem_fn, lane_view, matrix_block, matrix_terms, min_fn, min_part, n_dots, n_mins, nibble_stride, row_view, run_start,
    ActSpec, ActView, BlockRef, KTerms, Kernel, Q8KActivations, Q8KActsX4, Q8K_ACTS_X4_NC,
};
use crate::quant::sums::lemma_sum_congruent;

verus! {

/// What the CPU this runs on offers.
#[derive(Clone, Copy, Debug, PartialEq, Eq, Structural)]
pub struct CpuFeatures {
    /// The target is x86_64.
    pub x86_64: bool,
    /// x86_64 with both AVX2 and FMA.
    pub avx2_fma: bool,
    /// The target is aarch64.
    pub aarch64: bool,
    /// aarch64 with the dot-product extension.
    pub dotprod: bool,
    /// aarch64 with the int8 matrix extension.
    pub i8mm: bool,
}

/// How many activations one Q4_K GEMM pass keeps in flight.
pub const Q4_KX8_GEMM_NC: usize = 4;

/// How many activations one Q5_K GEMM pass keeps in flight.
pub const Q5_KX8_GEMM_NC: usize = 4;

/// How many activations one Q6_K GEMM pass keeps in flight.
pub const Q6_KX8_GEMM_NC: usize = 8;

/// The interleave width this CPU's kernels want.
pub open spec fn preferred_interleave(cpu: CpuFeatures) -> int {
    if cpu.x86_64 || (cpu.aarch64 && cpu.i8mm) {
        8
    } else {
        4
    }
}

/// Preferred qs interleave width for this CPU: 8 on x86 and ARM i8mm, 4 on
/// anything else.
pub fn q4_kx8_interleave(cpu: &CpuFeatures) -> (il: usize)
    ensures
        il == preferred_interleave(*cpu),
{
    if cpu.x86_64 {
        return 8;
    }
    if cpu.aarch64 && cpu.i8mm {
        return 8;
    }
    4
}

/// Preferred interleave width for Q5_K on this CPU.
pub fn q5_kx8_interleave(cpu: &CpuFeatures) -> (il: usize)
    ensures
        il == preferred_interleave(*cpu),
{
    q4_kx8_interleave(cpu)
}

/// Preferred interleave width for Q6_K on this CPU.
pub fn q6_kx8_interleave(cpu: &CpuFeatures) -> (il: usize)
    ensures
        il == preferred_interleave(*cpu),
{
    q4_kx8_interleave(cpu)
}

/// Whether the interleaved-quad GEMM is the fast batch path on this CPU.
pub open spec fn uses_acts_x4(cpu: CpuFeatures, il: int) -> bool {
    cpu.aarch64 && cpu.i8mm && il == 8
}

/// Whether [`gemm_q4_kx8_group_x4`] is the fast Q4_K batch path on this CPU:
/// ARM i8mm with the interleave-8 layout.
pub fn q4_kx8_gemm_uses_acts_x4(cpu: &CpuFeatures, interleave: usize) -> (r: bool)
    ensures
        r == uses_acts_x4(*cpu, interleave as int),
{
    cpu.aarch64 && interleave == 8 && cpu.i8mm
}

/// Whether [`gemm_q5_kx8_group_x4`] is the fast Q5_K batch path on this CPU.
pub fn q5_kx8_gemm_uses_acts_x4(cpu: &CpuFeatures, interleave: usize) -> (r: bool)
    ensures
        r == uses_acts_x4(*cpu, interleave as int),
{
    cpu.aarch64 && interleave == 8 && cpu.i8mm
}

/// Whether [`gemm_q6_kx8_group_x4`] is the fast Q6_K batch path on this CPU.
pub fn q6_kx8_gemm_uses_acts_x4(cpu: &CpuFeatures, interleave: usize) -> (r: bool)
    ensures
        r == uses_acts_x4(*cpu, interleave as int),
{
    cpu.aarch64 && interleave == 8 && cpu.i8mm
}

/// Which kernel multiplies one activation row.
pub open spec fn gemv_kernel(fmt: KQuant, il: int, cpu: CpuFeatures) -> Kernel {
    match fmt {
        KQuant::Q4K => if il == 4 && cpu.aarch64 && cpu.dotprod {
            Kernel::Sdot
        } else if il == 8 && cpu.x86_64 && cpu.avx2_fma {
            Kernel::Avx2
        } else {
            Kernel::Scalar
        },
        KQuant::Q5K => if il == 4 && cpu.aarch64 && cpu.dotprod {
            Kernel::Sdot
        } else if il == 8 && cpu.aarch64 && cpu.dotprod {
            Kernel::Dot8x8
        } else {
            Kernel::Scalar
        },
        KQuant::Q6K => if il == 8 && cpu.aarch64 && cpu.dotprod {
            Kernel::Dot8x8
        } else {
            Kernel::Scalar
        },
    }
}

/// Which kernel multiplies `na` activation rows at once.
pub open spec fn gemm_kernel(fmt: KQuant, na: int, il: int, cpu: CpuFeatures) -> Kernel {
    if na <= 4 && il == 8 && cpu.aarch64 && cpu.i8mm {
        Kernel::I8mm
    } else if fmt != KQuant::Q6K && na <= 4 && il == 4 && cpu.aarch64 && cpu.dotprod {
        Kernel::Sdot
    } else if fmt == KQuant::Q4K {
        gemv_kernel(fmt, il, cpu)
    } else {
        Kernel::Scalar
    }
}

/// Which kernel multiplies an interleaved quad.
pub open spec fn quad_kernel(cpu: CpuFeatures) -> Kernel {
    if cpu.aarch64 && cpu.i8mm {
        Kernel::I8mm
    } else {
        Kernel::Scalar
    }
}

fn gemv_kernel_of(fmt: KQuant, interleave: usize, cpu: &CpuFeatures) -> (k: Kernel)
    ensures
        k == gemv_kernel(fmt, interleave as int, *cpu),
{
    let dotprod: bool = cpu.aarch64 && cpu.dotprod;
    match fmt {
        KQuant::Q4K => if interleave == 4 && dotprod {
            Kernel::Sdot
        } else if interleave == 8 && cpu.x86_64 && cpu.avx2_fma {
            Kernel::Avx2
        } else {
            Kernel::Scalar
        },
        KQuant::Q5K => if interleave == 4 && dotprod {
            Kernel::Sdot
        } else if interleave == 8 && dotprod {
            Kernel::Dot8x8
        } else {
            Kernel::Scalar
        },
        KQuant::Q6K => if interleave == 8 && dotprod {
            Kernel::Dot8x8
        } else {
            Kernel::Scalar
        },
    }
}

/// Bytes of one packed block.
fn packed_bytes_of(fmt: KQuant) -> (n: usize)
    ensures
        n == fmt.packed_bytes(),
{
    match fmt {
        KQuant::Q4K => Q4_KX8_BLOCK_BYTES,
        KQuant::Q5K => Q5_KX8_BLOCK_BYTES,
        KQuant::Q6K => Q6_KX8_BLOCK_BYTES,
    }
}

/// Row-group `group` of a packed matrix of `nb` column blocks.
pub open spec fn group_bytes(fmt: KQuant, packed: Seq<u8>, group: int, nb: int) -> Seq<u8> {
    packed.subrange(group * nb * fmt.packed_bytes(), group * nb * fmt.packed_bytes() + nb * fmt.packed_bytes())
}

/// Row-group `group` lies within the packed matrix.
pub open spec fn has_group(fmt: KQuant, packed: Seq<u8>, group: int, nb: int) -> bool {
    group * nb * fmt.packed_bytes() + nb * fmt.packed_bytes() <= packed.len()
}

/// The bytes of one row-group.
fn group_slice<'a>(fmt: KQuant, packed: &'a [u8], group: usize, nb: usize) -> (s: &'a [u8])
    requires
        has_group(fmt, packed@, group as int, nb as int),
    ensures
        s@ == group_bytes(fmt, packed@, group as int, nb as int),
        s@.len() == nb * fmt.packed_bytes(),
{
    let unit: usize = packed_bytes_of(fmt);
    let total: usize = packed.len();
    proof {
        assert(0 <= group * nb && group * nb <= group * nb * unit && nb <= nb * unit) by (nonlinear_arith)
            requires
                0 <= group,
                0 <= nb,
                1 <= unit,
        ;
        assert(0 <= group * nb * unit);
    }
    let off: usize = group * nb * unit;
    vstd::slice::slice_subrange(packed, off, off + nb * unit)
}

/// The sums of a matrix of `groups` row-groups times one plain row.
fn gemv_k(
    fmt: KQuant,
    packed: &[u8],
    act: &Q8KActivations,
    nb: usize,
    groups: usize,
    interleave: usize,
    kernel: Kernel,
) -> (terms: KTerms)
    requires
        interleave == 4 || interleave == 8,
        packed@.len() >= groups * nb * fmt.packed_bytes(),
        act.covers(nb as int),
        fmt == KQuant::Q6K && kernel == Kernel::Dot8x8 ==> act@.sums_in_range(),
    ensures
        terms.kernel == kernel,
        terms.are_of(fmt, packed@, interleave as int, act@, nb as int, groups as int),
{
    let view: ActView = row_view(act);
    matrix_terms(fmt, kernel, packed, interleave, &view, nb, groups)
}

/// The sums of one row-group times each of several plain rows.
fn gemm_k(
    fmt: KQuant,
    packed: &[u8],
    acts: &[Q8KActivations],
    nb: usize,
    interleave: usize,
    kernel: Kernel,
) -> (out: Vec<KTerms>)
    requires
        interleave == 4 || interleave == 8,
        packed@.len() == nb * fmt.packed_bytes(),
        forall|a: int| 0 <= a < acts@.len() ==> (#[trigger] acts@[a]).covers(nb as int),
        !(fmt == KQuant::Q6K && kernel == Kernel::Dot8x8),
    ensures
        out@.len() == acts@.len(),
        forall|a: int|
            0 <= a < acts@.len() ==> (#[trigger] out@[a]).kernel == kernel && out@[a].are_of(
                fmt,
                packed@,
                interleave as int,
                acts@[a]@,
                nb as int,
                1,
            ),
{
    let mut out: Vec<KTerms> = Vec::new();
    assert(1 * nb * fmt.packed_bytes() == nb * fmt.packed_bytes());
    for a in 0usize..acts.len()
        invariant
            interleave == 4 || interleave == 8,
            packed@.len() == 1 * nb * fmt.packed_bytes(),
            forall|a: int| 0 <= a < acts@.len() ==> (#[trigger] acts@[a]).covers(nb as int),
            !(fmt == KQuant::Q6K && kernel == Kernel::Dot8x8),
            out@.len() == a,
            forall|i: int|
                0 <= i < a ==> (#[trigger] out@[i]).kernel == kernel && out@[i].are_of(
                    fmt,
                    packed@,
                    interleave as int,
                    acts@[i]@,
                    nb as int,
                    1,
                ),
    {
        assert(acts@[a as int].covers(nb as int));
        let terms: KTerms = gemv_k(fmt, packed, &acts[a], nb, 1, interleave, kernel);
        out.push(terms);
    }
    out
}

/// The sums of one row-group times each real lane of a quad.
fn gemm_quad(
    fmt: KQuant,
    packed: &[u8],
    tile: &Q8KActsX4,
    nb: usize,
    interleave: usize,
    kernel: Kernel,
) -> (out: Vec<KTerms>)
    requires
        interleave == 4 || interleave == 8,
        packed@.len() == nb * fmt.packed_bytes(),
        tile.covers(nb as int),
        kernel != Kernel::Dot8x8,
    ensures
        out@.len() == tile.na,
        forall|a: int|
            0 <= a < tile.na ==> (#[trigger] out@[a]).kernel == kernel && out@[a].are_of(
                fmt,
                packed@,
                interleave as int,
                tile.lane(a),
                nb as int,
                1,
            ),
{
    let mut out: Vec<KTerms> = Vec::new();
    assert(1 * nb * fmt.packed_bytes() == nb * fmt.packed_bytes());
    for a in 0usize..tile.na
        invariant
            interleave == 4 || interleave == 8,
            packed@.len() == 1 * nb * fmt.packed_bytes(),
            tile.covers(nb as int),
            kernel != Kernel::Dot8x8,
            out@.len() == a,
            forall|i: int|
                0 <= i < a ==> (#[trigger] out@[i]).kernel == kernel && out@[i].are_of(
                    fmt,
                    packed@,
                    interleave as int,
                    tile.lane(i),
                    nb as int,
                    1,
                ),
    {
        let view: ActView = lane_view(tile, a);
        let terms: KTerms = matrix_terms(fmt, kernel, packed, interleave, &view, nb, 1);
        out.push(terms);
    }
    out
}

/// The activation rows a quad is made of can be folded pairwise.
pub open spec fn folds(act: Q8KActivations) -> bool {
    forall|i: int|
        0 <= i < act.bsums@.len() / 2 ==> i16::MIN <= #[trigger] act.bsums@[2 * i] + act.bsums@[2 * i + 1]
            <= i16::MAX
}

/// Byte `i` of the interleaved quants of a quad.
pub open spec fn quad_q(acts: Seq<Q8KActivations>, i: int) -> int {
    let a = (i % 32) / 8;
    if a < acts.len() {
        acts[a].q@[(i / 1024) * 256 + ((i % 1024) / 32) * 8 + i % 8] as int
    } else {
        0
    }
}

/// Entry `i` of the folded sums of a quad.
pub open spec fn quad_sum(acts: Seq<Q8KActivations>, i: int) -> int {
    let a = (i / 8) % 4;
    if a < acts.len() {
        acts[a].bsums@[(i / 32) * 16 + 2 * (i % 8)] + acts[a].bsums@[(i / 32) * 16 + 2 * (i % 8) + 1]
    } else {
        0
    }
}

/// The quad holds these rows, lane by lane, and zeros in the lanes left over.
pub open spec fn quad_of(tile: Q8KActsX4, acts: Seq<Q8KActivations>, nb: int) -> bool {
    &&& tile.covers(nb)
    &&& tile.na == acts.len()
    &&& forall|a: int, b: int, e: int|
        0 <= a < 4 && 0 <= b < nb && 0 <= e < 256 ==> #[trigger] tile.lane(a).at(b, e) == (if a < acts.len() {
            acts[a]@.at(b, e)
        } else {
            0
        })
    &&& forall|a: int, b: int, sb: int|
        0 <= a < 4 && 0 <= b < nb && 0 <= sb < 8 ==> #[trigger] tile.lane(a).folded(b, sb) == (if a < acts.len() {
            acts[a]@.folded(b, sb)
        } else {
            0
        })
    &&& forall|a: int, b: int|
        0 <= a < 4 && 0 <= b < nb ==> #[trigger] tile.d_bits@[b * 4 + a] == (if a < acts.len() {
            acts[a].d_bits@[b]
        } else {
            0
        })
}

/// Interleave a quad of activations for the quad GEMMs. Zero-pads when
/// fewer than four rows are given.
pub fn prepare_q8_k_acts_x4(acts: &[Q8KActivations], n_cols: usize) -> (tile: Q8KActsX4)
    requires
        acts@.len() <= Q8K_ACTS_X4_NC,
        n_cols % Q4_K_BLOCK_ELEMS == 0,
        n_cols * 4 <= usize::MAX,
        forall|a: int| 0 <= a < acts@.len() ==> (#[trigger] acts@[a]).covers(n_cols as int / 256),
        forall|a: int| 0 <= a < acts@.len() ==> folds(#[trigger] acts@[a]),
    ensures
        quad_of(tile, acts@, n_cols as int / 256),
{
    let nb: usize = n_cols / Q4_K_BLOCK_ELEMS;
    let na: usize = acts.len();
    let mut qs: Vec<i8> = Vec::new();
    for i in 0usize..nb * 1024
        invariant
            na == acts@.len(),
            na <= 4,
            nb * 1024 <= usize::MAX,
            forall|a: int| 0 <= a < acts@.len() ==> (#[trigger] acts@[a]).covers(nb as int),
            qs@.len() == i,
            forall|k: int| 0 <= k < i ==> #[trigger] qs@[k] == quad_q(acts@, k),
    {
        let a: usize = (i % 32) / 8;
        if a < na {
            assert(acts@[a as int].covers(nb as int));
            assert(i / 1024 < nb);
            qs.push(acts[a].q[(i / 1024) * 256 + ((i % 1024) / 32) * 8 + i % 8]);
        } else {
            qs.push(0i8);
        }
    }
    let mut bsums: Vec<i16> = Vec::new();
    for i in 0usize..nb * 32
        invariant
            na == acts@.len(),
            na <= 4,
            nb * 1024 <= usize::MAX,
            forall|a: int| 0 <= a < acts@.len() ==> (#[trigger] acts@[a]).covers(nb as int),
            forall|a: int| 0 <= a < acts@.len() ==> folds(#[trigger] acts@[a]),
            bsums@.len() == i,
            forall|k: int| 0 <= k < i ==> #[trigger] bsums@[k] == quad_sum(acts@, k),
    {
        let a: usize = (i / 8) % 4;
        if a < na {
            assert(acts@[a as int].covers(nb as int));
            assert(i / 32 < nb);
            let at: usize = (i / 32) * 16 + 2 * (i % 8);
            proof {
                let h = (i as int / 32) * 8 + i as int % 8;
                assert(folds(acts@[a as int]));
                assert(at == 2 * h);
                assert(i16::MIN <= acts@[a as int].bsums@[2 * h] + acts@[a as int].bsums@[2 * h + 1] <= i16::MAX);
            }
            bsums.push(acts[a].bsums[at] + acts[a].bsums[at + 1]);
        } else {
            bsums.push(0i16);
        }
    }
    let mut d_bits: Vec<u32> = Vec::new();
    for i in 0usize..nb * 4
        invariant
            na == acts@.len(),
            na <= 4,
            nb * 1024 <= usize::MAX,
            forall|a: int| 0 <= a < acts@.len() ==> (#[trigger] acts@[a]).covers(nb as int),
            d_bits@.len() == i,
            forall|k: int|
                0 <= k < i ==> #[trigger] d_bits@[k] == (if k % 4 < na {
                    acts@[k % 4].d_bits@[k / 4]
                } else {
                    0
                }),
    {
        let a: usize = i % 4;
        if a < na {
            assert(acts@[a as int].covers(nb as int));
            d_bits.push(acts[a].d_bits[i / 4]);
        } else {
            d_bits.push(0u32);
        }
    }
    let tile = Q8KActsX4 { na, n_blocks: nb, qs, bsums, d_bits };
    proof {
        assert forall|a: int, b: int, e: int| 0 <= a < 4 && 0 <= b < nb && 0 <= e < 256 implies #[trigger] tile.lane(
            a,
        ).at(b, e) == (if a < acts@.len() { acts@[a]@.at(b, e) } else { 0 }) by {
            let i = b * 1024 + (e / 8) * 32 + a * 8 + e % 8;
            lemma_quad_place(a, b, e);
            assert(tile.qs@[i] == quad_q(acts@, i));
        }
        assert forall|a: int, b: int, sb: int| 0 <= a < 4 && 0 <= b < nb && 0 <= sb < 8 implies #[trigger] tile.lane(
            a,
        ).folded(b, sb) == (if a < acts@.len() { acts@[a]@.folded(b, sb) } else { 0 }) by {
            let i = (b * 4 + a) * 8 + sb;
            assert(i / 32 == b && (i / 8) % 4 == a && i % 8 == sb);
            assert(tile.bsums@[i] == quad_sum(acts@, i));
        }
        assert forall|a: int, b: int| 0 <= a < 4 && 0 <= b < nb implies #[trigger] tile.d_bits@[b * 4 + a] == (if a
            < acts@.len() { acts@[a].d_bits@[b] } else { 0 }) by {
            let k = b * 4 + a;
            assert(k % 4 == a && k / 4 == b);
        }
    }
    tile
}

proof fn lemma_quad_place(a: int, b: int, e: int)
    requires
        0 <= a < 4,
        0 <= b,
        0 <= e < 256,
    ensures
        ({
            let i = b * 1024 + (e / 8) * 32 + a * 8 + e % 8;
            &&& i / 1024 == b
            &&& (i % 32) / 8 == a
            &&& (i % 1024) / 32 == e / 8
            &&& i % 8 == e % 8
            &&& i < (b + 1) * 1024
        }),
{
    let c = e / 8;
    let k = e % 8;
    let i = b * 1024 + c * 32 + a * 8 + k;
    assert(i % 1024 == c * 32 + a * 8 + k);
    assert(i % 32 == a * 8 + k);
}

/// Partial sums depend on the activations only through the values they read.
proof fn lemma_same_values_same_parts(
    blk: BlockRef,
    kernel: Kernel,
    j: int,
    one: ActSpec,
    two: ActSpec,
    b: int,
    t: int,
)
    requires
        !(blk.fmt == KQuant::Q6K && kernel == Kernel::Dot8x8),
        blk.il == 4 || blk.il == 8,
        forall|e: int| 0 <= e < 256 ==> #[trigger] one.at(b, e) == two.at(b, e),
        forall|sb: int| 0 <= sb < 8 ==> #[trigger] one.folded(b, sb) == two.folded(b, sb),
        0 <= t,
    ensures
        t < n_dots(blk.fmt, kernel, blk.il) ==> dot_part(blk, kernel, j, one, b, t) == dot_part(
            blk,
            kernel,
            j,
            two,
            b,
            t,
        ),
        t < n_mins(blk.fmt, kernel) ==> min_part(blk, kernel, j, one, b, t) == min_part(blk, kernel, j, two, b, t),
{
    let (f, g) = (elem_fn(blk, j, one, b), elem_fn(blk, j, two, b));
    assert forall|e: int| 0 <= e < 256 implies #[trigger] f(e) == g(e) by {
        assert(one.at(b, e) == two.at(b, e));
    }
    if t < n_dots(blk.fmt, kernel, blk.il) {
        match kernel {
            Kernel::Scalar => {
                let lo = run_start(blk.fmt, blk.il, t);
                let hi = lo + nibble_stride(blk.fmt);
                assert(0 <= lo && hi + blk.il <= 256);
                lemma_sum_congruent(f, g, lo, lo + blk.il);
                lemma_sum_congruent(f, g, hi, hi + blk.il);
            },
            Kernel::Sdot => {
                let w = 2 * nibble_stride(blk.fmt);
                lemma_sum_congruent(f, g, t * 2 * nibble_stride(blk.fmt), t * 2 * nibble_stride(blk.fmt) + w);
            },
            Kernel::Dot8x8 => {
                lemma_sum_congruent(f, g, t * 32, t * 32 + 32);
            },
            _ => {
                lemma_sum_congruent(f, g, 0, 256);
            },
        }
    }
    if t < n_mins(blk.fmt, kernel) {
        let (f, g) = (min_fn(blk, j, one, b), min_fn(blk, j, two, b));
        assert forall|sb: int| 0 <= sb < 8 implies #[trigger] f(sb) == g(sb) by {
            assert(one.folded(b, sb) == two.folded(b, sb));
        }
        match kernel {
            Kernel::Scalar => {
                lemma_sum_congruent(f, g, t * 1, t * 1 + 1);
            },
            Kernel::Dot8x8 => {
                lemma_sum_congruent(f, g, t * 2, t * 2 + 2);
            },
            _ => {
                lemma_sum_congruent(f, g, t * 8, t * 8 + 8);
            },
        }
    }
}

/// Interleaving a quad changes where the activations are stored and nothing
/// else: the sums taken over a lane are the sums taken over its row.
pub proof fn law_quad_lane_is_its_row(
    terms: KTerms,
    fmt: KQuant,
    packed: Seq<u8>,
    il: int,
    tile: Q8KActsX4,
    acts: Seq<Q8KActivations>,
    nb: int,
    a: int,
)
    requires
        quad_of(tile, acts, nb),
        0 <= a < acts.len(),
        il == 4 || il == 8,
        !(fmt == KQuant::Q6K && terms.kernel == Kernel::Dot8x8),
    ensures
        terms.are_of(fmt, packed, il, tile.lane(a), nb, 1) <==> terms.are_of(fmt, packed, il, acts[a]@, nb, 1),
{
    let (one, two) = (tile.lane(a), acts[a]@);
    assert forall|k: int| 0 <= k < 1 * nb implies #[trigger] terms.blocks@[k].are_of(
        matrix_block(fmt, packed, il, k),
        terms.kernel,
        one,
        k % nb,
    ) == terms.blocks@[k].are_of(matrix_block(fmt, packed, il, k), terms.kernel, two, k % nb) by {
        let blk = matrix_block(fmt, packed, il, k);
        let b = k % nb;
        let block = terms.blocks@[k];
        assert(0 <= b < nb);
        assert forall|i: int| 0 <= i < block.dots@.len() && block.dots@.len() == n_dots(fmt, terms.kernel, il)
            * 8 implies dot_part(blk, terms.kernel, i % 8, one, b, i / 8) == #[trigger] dot_part(
            blk,
            terms.kernel,
            i % 8,
            two,
            b,
            i / 8,
        ) by {
            lemma_same_values_same_parts(blk, terms.kernel, i % 8, one, two, b, i / 8);
        }
        assert forall|i: int| 0 <= i < block.mins@.len() && block.mins@.len() == n_mins(fmt, terms.kernel)
            * 8 implies min_part(blk, terms.kernel, i % 8, one, b, i / 8) == #[trigger] min_part(
            blk,
            terms.kernel,
            i % 8,
            two,
            b,
            i / 8,
        ) by {
            lemma_same_values_same_parts(blk, terms.kernel, i % 8, one, two, b, i / 8);
        }
        if block.are_of(blk, terms.kernel, one, b) {
            assert(block.are_of(blk, terms.kernel, two, b));
        }
        if block.are_of(blk, terms.kernel, two, b) {
            assert(block.are_of(blk, terms.kernel, one, b));
        }
    }
}

/// What a batch product may be asked of: whole blocks, rows that cover them,
/// and the row-group there, as far as there is anything to multiply.
pub open spec fn gemm_ready(
    fmt: KQuant,
    packed: Seq<u8>,
    group: int,
    acts: Seq<Q8KActivations>,
    n_cols: int,
    il: int,
    cpu: CpuFeatures,
) -> bool {
    &&& n_cols % 256 == 0
    &&& acts.len() > 0 ==> {
        &&& il == 4 || il == 8
        &&& has_group(fmt, packed, group, n_cols / 256)
        &&& forall|a: int| 0 <= a < acts.len() ==> (#[trigger] acts[a]).covers(n_cols / 256)
        &&& gemm_kernel(fmt, acts.len() as int, il, cpu) == Kernel::I8mm ==> {
            &&& n_cols * 4 <= usize::MAX
            &&& forall|a: int| 0 <= a < acts.len() ==> folds(#[trigger] acts[a])
        }
    }
}

/// Every activation's sums over one row-group, `out[a]` for activation `a`.
pub open spec fn gemm_sums(
    out: Seq<KTerms>,
    fmt: KQuant,
    bytes: Seq<u8>,
    acts: Seq<Q8KActivations>,
    nb: int,
    il: int,
    kernel: Kernel,
) -> bool {
    &&& out.len() == acts.len()
    &&& forall|a: int|
        0 <= a < acts.len() ==> (#[trigger] out[a]).kernel == kernel && out[a].are_of(
            fmt,
            bytes,
            il,
            acts[a]@,
            nb,
            1,
        )
}

/// One row-group against several activation rows.
fn gemm_group(
    fmt: KQuant,
    packed: &[u8],
    group: usize,
    acts: &[Q8KActivations],
    n_cols: usize,
    interleave: usize,
    cpu: &CpuFeatures,
) -> (out: Vec<KTerms>)
    requires
        gemm_ready(fmt, packed@, group as int, acts@, n_cols as int, interleave as int, *cpu),
    ensures
        gemm_sums(
            out@,
            fmt,
            group_bytes(fmt, packed@, group as int, n_cols as int / 256),
            acts@,
            n_cols as int / 256,
            interleave as int,
            gemm_kernel(fmt, acts@.len() as int, interleave as int, *cpu),
        ),
{
    if acts.len() == 0 {
        return Vec::new();
    }
    let nb: usize = n_cols / 256;
    let slice: &[u8] = group_slice(fmt, packed, group, nb);
    let few: bool = acts.len() <= 4;
    if few && interleave == 8 && cpu.aarch64 && cpu.i8mm {
        let tile: Q8KActsX4 = prepare_q8_k_acts_x4(acts, n_cols);
        let out: Vec<KTerms> = gemm_quad(fmt, slice, &tile, nb, interleave, Kernel::I8mm);
        proof {
            assert forall|a: int| 0 <= a < acts@.len() implies (#[trigger] out@[a]).are_of(
                fmt,
                slice@,
                interleave as int,
                acts@[a]@,
                nb as int,
                1,
            ) by {
                law_quad_lane_is_its_row(out@[a], fmt, slice@, interleave as int, tile, acts@, nb as int, a);
            }
        }
        return out;
    }
    let kernel: Kernel = match fmt {
        KQuant::Q6K => Kernel::Scalar,
        _ => if few && interleave == 4 && cpu.aarch64 && cpu.dotprod {
            Kernel::Sdot
        } else {
            match fmt {
                KQuant::Q4K => gemv_kernel_of(fmt, interleave, cpu),
                _ => Kernel::Scalar,
            }
        },
    };
    gemm_k(fmt, slice, acts, nb, interleave, kernel)
}

/// One row-group against an interleaved quad.
fn gemm_group_x4(
    fmt: KQuant,
    packed: &[u8],
    group: usize,
    tile: &Q8KActsX4,
    n_cols: usize,
    interleave: usize,
    cpu: &CpuFeatures,
) -> (out: Vec<KTerms>)
    requires
        interleave == 8,
        n_cols % 256 == 0,
        tile.na > 0 ==> has_group(fmt, packed@, group as int, n_cols as int / 256),
        tile.covers(n_cols as int / 256),
    ensures
        out@.len() == tile.na,
        forall|a: int|
            0 <= a < tile.na ==> (#[trigger] out@[a]).kernel == quad_kernel(*cpu) && out@[a].are_of(
                fmt,
                group_bytes(fmt, packed@, group as int, n_cols as int / 256),
                8,
                tile.lane(a),
                n_cols as int / 256,
                1,
            ),
{
    if tile.na == 0 {
        return Vec::new();
    }
    let nb: usize = n_cols / 256;
    let slice: &[u8] = group_slice(fmt, packed, group, nb);
    let kernel: Kernel = if cpu.aarch64 && cpu.i8mm {
        Kernel::I8mm
    } else {
        Kernel::Scalar
    };
    gemm_quad(fmt, slice, tile, nb, interleave, kernel)
}

/// GEMV: interleaved Q4_K weights times one Q8_K activation row. The sums
/// of row-group `x` are in `blocks[x*nb ..]`; the caller scales them.
pub fn gemv_q4_kx8_q8_k(
    packed: &[u8],
    act: &Q8KActivations,
    n_cols: usize,
    n_row_groups: usize,
    interleave: usize,
    cpu: &CpuFeatures,
) -> (terms: KTerms)
    requires
        n_cols % Q4_K_BLOCK_ELEMS == 0,
        interleave == 4 || interleave == 8,
        packed@.len() == n_row_groups * (n_cols as int / 256) * KQuant::Q4K.packed_bytes(),
        act.covers(n_cols as int / 256),
    ensures
        terms.kernel == gemv_kernel(KQuant::Q4K, interleave as int, *cpu),
        terms.are_of(KQuant::Q4K, packed@, interleave as int, act@, n_cols as int / 256, n_row_groups as int),
{
    let kernel: Kernel = gemv_kernel_of(KQuant::Q4K, interleave, cpu);
    gemv_k(KQuant::Q4K, packed, act, n_cols / Q4_K_BLOCK_ELEMS, n_row_groups, interleave, kernel)
}

/// One row-group (8 outputs) starting at `group` within a packed Q4_K matrix.
pub fn gemv_q4_kx8_group(
    packed: &[u8],
    group: usize,
    act: &Q8KActivations,
    n_cols: usize,
    interleave: usize,
    cpu: &CpuFeatures,
) -> (terms: KTerms)
    requires
        n_cols % Q4_K_BLOCK_ELEMS == 0,
        interleave == 4 || interleave == 8,
        has_group(KQuant::Q4K, packed@, group as int, n_cols as int / 256),
        act.covers(n_cols as int / 256),
    ensures
        terms.kernel == gemv_kernel(KQuant::Q4K, interleave as int, *cpu),
        terms.are_of(
            KQuant::Q4K,
            group_bytes(KQuant::Q4K, packed@, group as int, n_cols as int / 256),
            interleave as int,
            act@,
            n_cols as int / 256,
            1,
        ),
{
    let nb: usize = n_cols / Q4_K_BLOCK_ELEMS;
    let slice: &[u8] = group_slice(KQuant::Q4K, packed, group, nb);
    assert(1 * nb * KQuant::Q4K.packed_bytes() == nb * KQuant::Q4K.packed_bytes());
    gemv_q4_kx8_q8_k(slice, act, n_cols, 1, interleave, cpu)
}

/// GEMM counterpart of [`gemv_q4_kx8_group`]: one row-group (8 rows) against
/// every activation row at once. No activations is a no-op.
pub fn gemm_q4_kx8_group(
    packed: &[u8],
    group: usize,
    acts: &[Q8KActivations],
    n_cols: usize,
    interleave: usize,
    cpu: &CpuFeatures,
) -> (out: Vec<KTerms>)
    requires
        gemm_ready(KQuant::Q4K, packed@, group as int, acts@, n_cols as int, interleave as int, *cpu),
    ensures
        gemm_sums(
            out@,
            KQuant::Q4K,
            group_bytes(KQuant::Q4K, packed@, group as int, n_cols as int / 256),
            acts@,
            n_cols as int / 256,
            interleave as int,
            gemm_kernel(KQuant::Q4K, acts@.len() as int, interleave as int, *cpu),
        ),
{
    gemm_group(KQuant::Q4K, packed, group, acts, n_cols, interleave, cpu)
}

/// [`gemm_q4_kx8_group`] against a pre-interleaved activation quad. Only the
/// interleave-8 layout has this kernel.
pub fn gemm_q4_kx8_group_x4(
    packed: &[u8],
    group: usize,
    tile: &Q8KActsX4,
    n_cols: usize,
    interleave: usize,
    cpu: &CpuFeatures,
) -> (out: Vec<KTerms>)
    requires
        interleave == 8,
        n_cols % Q4_K_BLOCK_ELEMS == 0,
        tile.na > 0 ==> has_group(KQuant::Q4K, packed@, group as int, n_cols as int / 256),
        tile.covers(n_cols as int / 256),
    ensures
        out@.len() == tile.na,
        forall|a: int|
            0 <= a < tile.na ==> (#[trigger] out@[a]).kernel == quad_kernel(*cpu) && out@[a].are_of(
                KQuant::Q4K,
                group_bytes(KQuant::Q4K, packed@, group as int, n_cols as int / 256),
                8,
                tile.lane(a),
                n_cols as int / 256,
                1,
            ),
{
    gemm_group_x4(KQuant::Q4K, packed, group, tile, n_cols, interleave, cpu)
}

/// GEMV: interleaved Q5_K weights times one Q8_K activation row. The sums
/// of row-group `x` are in `blocks[x*nb ..]`; the caller scales them.
pub fn gemv_q5_kx8_q8_k(
    packed: &[u8],
    act: &Q8KActivations,
    n_cols: usize,
    n_row_groups: usize,
    interleave: usize,
    cpu: &CpuFeatures,
) -> (terms: KTerms)
    requires
        n_cols % Q5_K_BLOCK_ELEMS == 0,
        interleave == 4 || interleave == 8,
        packed@.len() == n_row_groups * (n_cols as int / 256) * KQuant::Q5K.packed_bytes(),
        act.covers(n_cols as int / 256),
    ensures
        terms.kernel == gemv_kernel(KQuant::Q5K, interleave as int, *cpu),
        terms.are_of(KQuant::Q5K, packed@, interleave as int, act@, n_cols as int / 256, n_row_groups as int),
{
    let kernel: Kernel = gemv_kernel_of(KQuant::Q5K, interleave, cpu);
    gemv_k(KQuant::Q5K, packed, act, n_cols / Q5_K_BLOCK_ELEMS, n_row_groups, interleave, kernel)
}

/// One row-group (8 outputs) starting at `group` within a packed Q5_K matrix.
pub fn gemv_q5_kx8_group(
    packed: &[u8],
    group: usize,
    act: &Q8KActivations,
    n_cols: usize,
    interleave: usize,
    cpu: &CpuFeatures,
) -> (terms: KTerms)
    requires
        n_cols % Q5_K_BLOCK_ELEMS == 0,
        interleave == 4 || interleave == 8,
        has_group(KQuant::Q5K, packed@, group as int, n_cols as int / 256),
        act.covers(n_cols as int / 256),
    ensures
        terms.kernel == gemv_kernel(KQuant::Q5K, interleave as int, *cpu),
        terms.are_of(
            KQuant::Q5K,
            group_bytes(KQuant::Q5K, packed@, group as int, n_cols as int / 256),
            interleave as int,
            act@,
            n_cols as int / 256,
            1,
        ),
{
    let nb: usize = n_cols / Q5_K_BLOCK_ELEMS;
    let slice: &[u8] = group_slice(KQuant::Q5K, packed, group, nb);
    assert(1 * nb * KQuant::Q5K.packed_bytes() == nb * KQuant::Q5K.packed_bytes());
    gemv_q5_kx8_q8_k(slice, act, n_cols, 1, interleave, cpu)
}

/// GEMM counterpart of [`gemv_q5_kx8_group`]: one row-group (8 rows) against
/// every activation row at once. No activations is a no-op.
pub fn gemm_q5_kx8_group(
    packed: &[u8],
    group: usize,
    acts: &[Q8KActivations],
    n_cols: usize,
    interleave: usize,
    cpu: &CpuFeatures,
) -> (out: Vec<KTerms>)
    requires
        gemm_ready(KQuant::Q5K, packed@, group as int, acts@, n_cols as int, interleave as int, *cpu),
    ensures
        gemm_sums(
            out@,
            KQuant::Q5K,
            group_bytes(KQuant::Q5K, packed@, group as int, n_cols as int / 256),
            acts@,
            n_cols as int / 256,
            interleave as int,
            gemm_kernel(KQuant::Q5K, acts@.len() as int, interleave as int, *cpu),
        ),
{
    gemm_group(KQuant::Q5K, packed, group, acts, n_cols, interleave, cpu)
}

/// [`gemm_q5_kx8_group`] against a pre-interleaved activation quad. Only the
/// interleave-8 layout has this kernel.
pub fn gemm_q5_kx8_group_x4(
    packed: &[u8],
    group: usize,
    tile: &Q8KActsX4,
    n_cols: usize,
    interleave: usize,
    cpu: &CpuFeatures,
) -> (out: Vec<KTerms>)
    requires
        interleave == 8,
        n_cols % Q5_K_BLOCK_ELEMS == 0,
        tile.na > 0 ==> has_group(KQuant::Q5K, packed@, group as int, n_cols as int / 256),
        tile.covers(n_cols as int / 256),
    ensures
        out@.len() == tile.na,
        forall|a: int|
            0 <= a < tile.na ==> (#[trigger] out@[a]).kernel == quad_kernel(*cpu) && out@[a].are_of(
                KQuant::Q5K,
                group_bytes(KQuant::Q5K, packed@, group as int, n_cols as int / 256),
                8,
                tile.lane(a),
                n_cols as int / 256,
                1,
            ),
{
    gemm_group_x4(KQuant::Q5K, packed, group, tile, n_cols, interleave, cpu)
}

/// GEMV: interleaved Q6_K weights times one Q8_K activation row. The sums
/// of row-group `x` are in `blocks[x*nb ..]`; the caller scales them.
pub fn gemv_q6_kx8_q8_k(
    packed: &[u8],
    act: &Q8KActivations,
    n_cols: usize,
    n_row_groups: usize,
    interleave: usize,
    cpu: &CpuFeatures,
) -> (terms: KTerms)
    requires
        interleave == 4 || interleave == 8,
        packed@.len() >= n_row_groups * (n_cols as int / 256) * KQuant::Q6K.packed_bytes(),
        act.covers(n_cols as int / 256),
        gemv_kernel(KQuant::Q6K, interleave as int, *cpu) == Kernel::Dot8x8 ==> act@.sums_in_range(),
    ensures
        terms.kernel == gemv_kernel(KQuant::Q6K, interleave as int, *cpu),
        terms.are_of(KQuant::Q6K, packed@, interleave as int, act@, n_cols as int / 256, n_row_groups as int),
{
    let kernel: Kernel = gemv_kernel_of(KQuant::Q6K, interleave, cpu);
    gemv_k(KQuant::Q6K, packed, act, n_cols / Q6_K_BLOCK_ELEMS, n_row_groups, interleave, kernel)
}

/// One row-group (8 outputs) starting at `group` within a packed Q6_K matrix.
pub fn gemv_q6_kx8_group(
    packed: &[u8],
    group: usize,
    act: &Q8KActivations,
    n_cols: usize,
    interleave: usize,
    cpu: &CpuFeatures,
) -> (terms: KTerms)
    requires
        interleave == 4 || interleave == 8,
        has_group(KQuant::Q6K, packed@, group as int, n_cols as int / 256),
        act.covers(n_cols as int / 256),
        gemv_kernel(KQuant::Q6K, interleave as int, *cpu) == Kernel::Dot8x8 ==> act@.sums_in_range(),
    ensures
        terms.kernel == gemv_kernel(KQuant::Q6K, interleave as int, *cpu),
        terms.are_of(
            KQuant::Q6K,
            group_bytes(KQuant::Q6K, packed@, group as int, n_cols as int / 256),
            interleave as int,
            act@,
            n_cols as int / 256,
            1,
        ),
{
    let nb: usize = n_cols / Q6_K_BLOCK_ELEMS;
    let slice: &[u8] = group_slice(KQuant::Q6K, packed, group, nb);
    assert(1 * nb * KQuant::Q6K.packed_bytes() == nb * KQuant::Q6K.packed_bytes());
    gemv_q6_kx8_q8_k(slice, act, n_cols, 1, interleave, cpu)
}

/// GEMM counterpart of [`gemv_q6_kx8_group`]: one row-group (8 rows) against
/// every activation row at once. No activations is a no-op.
pub fn gemm_q6_kx8_group(
    packed: &[u8],
    group: usize,
    acts: &[Q8KActivations],
    n_cols: usize,
    interleave: usize,
    cpu: &CpuFeatures,
) -> (out: Vec<KTerms>)
    requires
        gemm_ready(KQuant::Q6K, packed@, group as int, acts@, n_cols as int, interleave as int, *cpu),
    ensures
        gemm_sums(
            out@,
            KQuant::Q6K,
            group_bytes(KQuant::Q6K, packed@, group as int, n_cols as int / 256),
            acts@,
            n_cols as int / 256,
            interleave as int,
            gemm_kernel(KQuant::Q6K, acts@.len() as int, interleave as int, *cpu),
        ),
{
    gemm_group(KQuant::Q6K, packed, group, acts, n_cols, interleave, cpu)
}

/// [`gemm_q6_kx8_group`] against a pre-interleaved activation quad. Only the
/// interleave-8 layout has this kernel.
pub fn gemm_q6_kx8_group_x4(
    packed: &[u8],
    group: usize,
    tile: &Q8KActsX4,
    n_cols: usize,
    interleave: usize,
    cpu: &CpuFeatures,
) -> (out: Vec<KTerms>)
    requires
        interleave == 8,
        n_cols % Q6_K_BLOCK_ELEMS == 0,
        tile.na > 0 ==> has_group(KQuant::Q6K, packed@, group as int, n_cols as int / 256),
        tile.covers(n_cols as int / 256),
    ensures
        out@.len() == tile.na,
        forall|a: int|
            0 <= a < tile.na ==> (#[trigger] out@[a]).kernel == quad_kernel(*cpu) && out@[a].are_of(
                KQuant::Q6K,
                group_bytes(KQuant::Q6K, packed@, group as int, n_cols as int / 256),
                8,
                tile.lane(a),
                n_cols as int / 256,
                1,
            ),
{
    gemm_group_x4(KQuant::Q6K, packed, group, tile, n_cols, interleave, cpu)
}

/// Eight bytes at a time on x86 and on ARM with the matrix extension, four
/// anywhere else; the quad product is the fast one exactly on the latter
/// ARM machines, with the layout they prefer.
pub proof fn law_the_preferred_layout(cpu: CpuFeatures, il: int)
    ensures
        cpu.x86_64 ==> preferred_interleave(cpu) == 8,
        cpu.aarch64 && cpu.i8mm ==> preferred_interleave(cpu) == 8,
        !cpu.x86_64 && !cpu.aarch64 ==> preferred_interleave(cpu) == 4,
        !cpu.x86_64 && !cpu.i8mm ==> preferred_interleave(cpu) == 4,
        uses_acts_x4(cpu, il) ==> cpu.aarch64 && cpu.i8mm && il == 8,
        cpu.aarch64 && cpu.i8mm ==> uses_acts_x4(cpu, preferred_interleave(cpu)),
{
}

/// Which kernel runs where: without vector features every product is taken
/// by the scalar kernel, and the batch product of a few rows is the quad's
/// wherever the quad product is the fast one.
pub proof fn law_which_kernel_runs(fmt: KQuant, na: int, il: int, cpu: CpuFeatures)
    ensures
        !cpu.x86_64 && !cpu.aarch64 ==> {
            &&& gemv_kernel(fmt, il, cpu) == Kernel::Scalar
            &&& gemm_kernel(fmt, na, il, cpu) == Kernel::Scalar
            &&& quad_kernel(cpu) == Kernel::Scalar
        },
        il == 8 && cpu.x86_64 && cpu.avx2_fma ==> gemv_kernel(KQuant::Q4K, il, cpu) == Kernel::Avx2,
        il == 4 && cpu.aarch64 && cpu.dotprod ==> {
            &&& gemv_kernel(KQuant::Q4K, il, cpu) == Kernel::Sdot
            &&& gemv_kernel(KQuant::Q5K, il, cpu) == Kernel::Sdot
            &&& gemv_kernel(KQuant::Q6K, il, cpu) == Kernel::Scalar
        },
        il == 8 && cpu.aarch64 && cpu.dotprod ==> {
            &&& gemv_kernel(KQuant::Q5K, il, cpu) == Kernel::Dot8x8
            &&& gemv_kernel(KQuant::Q6K, il, cpu) == Kernel::Dot8x8
        },
        na <= 4 && uses_acts_x4(cpu, il) ==> gemm_kernel(fmt, na, il, cpu) == Kernel::I8mm && quad_kernel(cpu)
            == Kernel::I8mm,
        na > 4 && fmt != KQuant::Q4K ==> gemm_kernel(fmt, na, il, cpu) == Kernel::Scalar,
        na > 4 && fmt == KQuant::Q4K ==> gemm_kernel(fmt, na, il, cpu) == gemv_kernel(fmt, il, cpu),
{
}

} // verus!
