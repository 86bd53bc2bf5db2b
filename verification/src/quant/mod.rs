//! Block-quantized weights: canonical row blocks, the interleaved layouts
//! several rows are packed into, and the integer sums the dot-product
//! kernels take over them.
pub mod blocks;
pub mod encode;
pub mod group_laws;
pub mod kernel_laws;
pub mod kernels;
pub mod matmul;
pub mod product_laws;
pub mod repack;
pub mod rows4;
pub mod sums;
