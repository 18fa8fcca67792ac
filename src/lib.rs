use vstd::prelude::*;

pub mod bias;
pub mod conv;
pub mod gemm;
pub mod laws;
pub mod layout;
pub mod shape;
pub mod tensor;

pub use conv::{ConvError, ConvGemm, DatumType, InferenceRules};
pub use shape::{DataFormat, DataShape, KernelFormat, Patch};
pub use tensor::{Matrix, Tensor};

verus! {

} // verus!
