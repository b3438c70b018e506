pub mod ascii;
pub mod avx;
pub mod bitmask;
pub mod simd;
