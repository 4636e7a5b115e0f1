pub mod scalar;
pub mod sums;
pub mod matrix;
pub mod text;
pub mod vector;
