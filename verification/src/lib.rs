//! Modular arithmetic over 64-bit words: scalar operations, element-wise
//! vector operations, modular sums, inverse tables and cyclic polynomial
//! multiplication, each with a contract over mathematical integers.
pub mod eltwise;
pub mod laws;
pub mod modular;
pub mod number_theory;
pub mod poly;
pub mod roots;
pub mod sums;

pub use eltwise::{
    cpp_eltwise_mult_mod, eltwise_add_mod, eltwise_fma_mod, eltwise_mult_mod, eltwise_reduce_mod,
    eltwise_reduce_mod_naive, eltwise_sub_mod,
};
pub use modular::{add_mod, cpp_multiply_mod, inv_mod, multiply_mod, power_mod, sub_mod};
pub use sums::{sum, sum_fast, sum_sq, sum_sq_fast};
pub use roots::{get_inv_roots, get_roots};
pub use poly::{multiply_poly, polynomial_multiply_cyclotomic_mod};
