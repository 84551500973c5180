//! CPU-native kernels behind the plugin ABI.
pub mod abi;
pub mod avx2_fma_matmul;
pub mod avx2_fma_matmul_act;
pub mod blocked;
pub mod elementwise;
pub mod lanes;
pub mod matmul;
pub mod neon_relu;
pub mod neon_xor_shift_add;
pub mod reference_add_one;
pub mod reference_matmul;
pub mod reference_xor_shift_add;
