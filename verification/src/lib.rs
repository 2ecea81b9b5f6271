//! Extended-precision binary floating point as unevaluated sums of binary64
//! limbs.
//!
//! A limb is a binary64 number held by its bit pattern. Its arithmetic is
//! carried out on integers and is proved to be that of binary64: every
//! result is the limb nearest to the exact one, ties going to the even limb.
//! On top of the limbs stand the error-free transformations, the
//! renormalization of raw limbs, and the two number types: `Double` of two
//! limbs and `Quad` of four, each with its arithmetic, its order, its square
//! root and its sine, cosine and tangent.
//!
//! The modules, from the ground up:
//!
//! - `power`, `limb`: powers of two, and the limb with its model, the whole
//!   number of units of 2^-1074 that it stands for;
//! - `rounding`, `round_laws`: rounding to nearest, and its laws;
//! - `limb_add`, `limb_mul`, `limb_div`, `limb_sqrt`, `limb_whole`,
//!   `limb_order`, `limb_laws`: the operations on limbs, and their laws;
//! - `eft`, `eft_laws`: the exact sum and the exact product, and the proof
//!   that they are exact;
//! - `renorm`: renormalization;
//! - `double`, `double_arith`, `double_ops`, `double_tables`, `double_trig`,
//!   `double_laws`: the two-limb number;
//! - `quad`, `quad_add`, `quad_mul`, `quad_div`, `quad_ops`, `quad_root`,
//!   `quad_tables`, `quad_trig`, `quad_laws`: the four-limb number.

pub mod power;
pub mod limb;
pub mod rounding;
pub mod round_laws;
pub mod limb_add;
pub mod limb_mul;
pub mod limb_div;
pub mod limb_sqrt;
pub mod limb_whole;
pub mod limb_order;
pub mod limb_laws;
pub mod eft;
pub mod eft_laws;
pub mod renorm;
pub mod double;
pub mod double_arith;
pub mod double_ops;
pub mod double_tables;
pub mod double_trig;
pub mod double_laws;
pub mod quad;
pub mod quad_add;
pub mod quad_mul;
pub mod quad_div;
pub mod quad_ops;
pub mod quad_root;
pub mod quad_tables;
pub mod quad_trig;
pub mod quad_laws;
