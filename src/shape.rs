use vstd::prelude::*;

verus! {

/// How the channel axis stands among the axes of a data tensor.
#[derive(Clone, Copy, Debug, PartialEq, Eq, Structural)]
pub enum DataFormat {
    /// Channel-first: batch, channel, then the spatial axes.
    NCHW,
    /// Channel-last: batch, the spatial axes, then channel.
    NHWC,
}

/// Layout of the convolution kernel before it is reshaped to a matrix.
#[derive(Clone, Copy, Debug, PartialEq, Eq, Structural)]
pub enum KernelFormat {
    /// Output channels first: the layout the GEMM rows are taken from.
    OIHW,
    /// Spatial axes first; a `ConvGemm` refuses it.
    HWIO,
}

/// Index of the channel axis in a tensor of the given rank and format.
pub open spec fn spec_c_axis(fmt: DataFormat, rank: int) -> int {
    match fmt {
        DataFormat::NCHW => 1,
        DataFormat::NHWC => rank - 1,
    }
}

/// The shape of a data tensor together with its format.
#[derive(Clone, Debug)]
pub struct DataShape {
    pub fmt: DataFormat,
    pub shape: Vec<usize>,
}

impl DataShape {
    /// Index of the batch axis.
    pub fn n_axis(&self) -> (r: usize)
        ensures
            r == 0,
    {
        0
    }

    /// Index of the channel axis.
    pub fn c_axis(&self) -> (r: usize)
        requires
            self.shape@.len() >= 2,
        ensures
            r as int == spec_c_axis(self.fmt, self.shape@.len() as int),
    {
        match self.fmt {
            DataFormat::NCHW => 1,
            DataFormat::NHWC => self.shape.len() - 1,
        }
    }

    /// Number of batch elements.
    pub fn n_dim(&self) -> (r: usize)
        requires
            self.shape@.len() >= 1,
        ensures
            r == self.shape@[0],
    {
        self.shape[0]
    }
}

/// Describes the input a convolution reads its receptive fields from.
#[derive(Clone, Debug)]
pub struct Patch {
    pub input_shape: DataShape,
}

} // verus!
