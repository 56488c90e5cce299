//! Computation graphs: what a tensor was computed from, and how.
//!
//! A [`Graph`] describes a computation the way an architecture diagram does: which operation,
//! with which settings, on which operands. It says nothing about rounding, so a statement made
//! in terms of graphs holds on every device and for every kernel that an operation may pick.
//! The numbers themselves stay with the tensor library.

use vstd::prelude::*;

verus! {

/// Elementwise functions of one operand.
pub enum UnaryOp {
    Exp,
    Log,
    Sin,
    Cos,
    Tanh,
    Sqr,
    Sqrt,
    Recip,
    Neg,
    Relu,
    GeluErf,
    Sigmoid,
}

/// Elementwise functions of two operands, the smaller one broadcast.
pub enum BinaryOp {
    Sum,
    Difference,
    Product,
    Quotient,
}

/// A convolution with its kernel, bias and geometry.
pub struct ConvLayer {
    pub weight: Box<Graph>,
    pub bias: Option<Box<Graph>>,
    pub in_channels: usize,
    pub out_channels: usize,
    pub kernel: usize,
    pub padding: usize,
    pub stride: usize,
    pub dilation: usize,
}

/// An affine map of the last axis.
pub struct LinearLayer {
    pub weight: Box<Graph>,
    pub bias: Box<Graph>,
    pub in_dim: usize,
    pub out_dim: usize,
}

/// A normalisation of the last axis to mean 0 and variance 1 (with 1e-5 added to the variance),
/// followed by a scale and a shift per element.
pub struct NormLayer {
    pub weight: Box<Graph>,
    pub bias: Box<Graph>,
    pub size: usize,
}

/// A computation.
pub enum Graph {
    /// A tensor that was not computed from others.
    Given(int),
    /// The given integers, in row-major order.
    Integers(Seq<int>),
    /// The operand, converted to single precision.
    Single(Box<Graph>),
    /// The operand, converted to double precision.
    Double(Box<Graph>),
    Unary(UnaryOp, Box<Graph>),
    Binary(BinaryOp, Box<Graph>, Box<Graph>),
    /// `x * mul + add` for scalars `mul` and `add`.
    Affine { x: Box<Graph>, mul: Box<Graph>, add: Box<Graph> },
    /// Every element brought into `lo ..= hi`.
    Clamp { x: Box<Graph>, lo: int, hi: int },
    /// Every element capped at `hi`.
    Capped { x: Box<Graph>, hi: int },
    /// The same elements in row-major order under another shape.
    Reshape(Box<Graph>, Seq<usize>),
    /// Two axes swapped.
    Transpose(Box<Graph>, int, int),
    /// The slice `start .. start + len` of one axis.
    Narrow { x: Box<Graph>, axis: int, start: int, len: int },
    /// The operand repeated along axes of extent 1 until it has the given shape.
    Expand(Box<Graph>, Seq<usize>),
    /// Zeros before and after the operand along one axis.
    PadZeros { x: Box<Graph>, axis: int, left: int, right: int },
    /// The first and the last slice of one axis repeated before and after the operand.
    PadSame { x: Box<Graph>, axis: int, left: int, right: int },
    /// The slices of one axis that the index operand lists.
    Select { x: Box<Graph>, indices: Box<Graph>, axis: int },
    /// The operands one after the other along one axis.
    Concat(Seq<Graph>, int),
    /// The sum over one axis, which is kept with extent 1 or dropped.
    SumAxis { x: Box<Graph>, axis: int, keep: bool },
    /// The mean over one axis, which is kept with extent 1 or dropped.
    MeanAxis { x: Box<Graph>, axis: int, keep: bool },
    /// The mean of all elements.
    MeanAll(Box<Graph>),
    MatMul(Box<Graph>, Box<Graph>),
    Conv1d(Box<Graph>, ConvLayer),
    ConvTranspose1d(Box<Graph>, ConvLayer),
    Conv2d(Box<Graph>, ConvLayer),
    Linear(Box<Graph>, LinearLayer),
    LayerNorm(Box<Graph>, NormLayer),
}

pub open spec fn unary(op: UnaryOp, x: Graph) -> Graph {
    Graph::Unary(op, Box::new(x))
}

pub open spec fn sum(a: Graph, b: Graph) -> Graph {
    Graph::Binary(BinaryOp::Sum, Box::new(a), Box::new(b))
}

pub open spec fn difference(a: Graph, b: Graph) -> Graph {
    Graph::Binary(BinaryOp::Difference, Box::new(a), Box::new(b))
}

pub open spec fn product(a: Graph, b: Graph) -> Graph {
    Graph::Binary(BinaryOp::Product, Box::new(a), Box::new(b))
}

pub open spec fn quotient(a: Graph, b: Graph) -> Graph {
    Graph::Binary(BinaryOp::Quotient, Box::new(a), Box::new(b))
}

pub open spec fn reshaped(x: Graph, dims: Seq<usize>) -> Graph {
    Graph::Reshape(Box::new(x), dims)
}

pub open spec fn transposed(x: Graph, a: int, b: int) -> Graph {
    Graph::Transpose(Box::new(x), a, b)
}

pub open spec fn narrowed(x: Graph, axis: int, start: int, len: int) -> Graph {
    Graph::Narrow { x: Box::new(x), axis, start, len }
}

pub open spec fn expanded(x: Graph, dims: Seq<usize>) -> Graph {
    Graph::Expand(Box::new(x), dims)
}

pub open spec fn zero_padded(x: Graph, axis: int, left: int, right: int) -> Graph {
    Graph::PadZeros { x: Box::new(x), axis, left, right }
}

pub open spec fn same_padded(x: Graph, axis: int, left: int, right: int) -> Graph {
    Graph::PadSame { x: Box::new(x), axis, left, right }
}

pub open spec fn axis_sum(x: Graph, axis: int, keep: bool) -> Graph {
    Graph::SumAxis { x: Box::new(x), axis, keep }
}

pub open spec fn axis_mean(x: Graph, axis: int, keep: bool) -> Graph {
    Graph::MeanAxis { x: Box::new(x), axis, keep }
}

pub open spec fn total_mean(x: Graph) -> Graph {
    Graph::MeanAll(Box::new(x))
}

pub open spec fn matrix_product(a: Graph, b: Graph) -> Graph {
    Graph::MatMul(Box::new(a), Box::new(b))
}

pub open spec fn clamped(x: Graph, lo: int, hi: int) -> Graph {
    Graph::Clamp { x: Box::new(x), lo, hi }
}

pub open spec fn capped(x: Graph, hi: int) -> Graph {
    Graph::Capped { x: Box::new(x), hi }
}

pub open spec fn single(x: Graph) -> Graph {
    Graph::Single(Box::new(x))
}

pub open spec fn double(x: Graph) -> Graph {
    Graph::Double(Box::new(x))
}

/// The given indices.
pub open spec fn indices(v: Seq<u32>) -> Graph {
    Graph::Integers(Seq::new(v.len(), |i: int| v[i] as int))
}

pub open spec fn selected(x: Graph, indices: Graph, axis: int) -> Graph {
    Graph::Select { x: Box::new(x), indices: Box::new(indices), axis }
}

pub open spec fn convolved(x: Graph, layer: ConvLayer) -> Graph {
    Graph::Conv1d(Box::new(x), layer)
}

pub open spec fn deconvolved(x: Graph, layer: ConvLayer) -> Graph {
    Graph::ConvTranspose1d(Box::new(x), layer)
}

pub open spec fn convolved2d(x: Graph, layer: ConvLayer) -> Graph {
    Graph::Conv2d(Box::new(x), layer)
}

/// `x * mul + add`.
pub open spec fn affine(x: Graph, mul: Graph, add: Graph) -> Graph {
    Graph::Affine { x: Box::new(x), mul: Box::new(mul), add: Box::new(add) }
}

/// The double-precision scalar `n`.
pub open spec fn whole(n: int) -> Graph {
    double(Graph::Integers(seq![n]))
}

/// The double-precision scalar `1 / n`.
pub open spec fn inverse(n: int) -> Graph {
    unary(UnaryOp::Recip, whole(n))
}

/// `x * n`.
pub open spec fn times(x: Graph, n: int) -> Graph {
    affine(x, whole(n), whole(0))
}

/// `x / n`, computed as the product with `1 / n`.
pub open spec fn over(x: Graph, n: int) -> Graph {
    affine(x, inverse(n), whole(0))
}

/// `x + n`.
pub open spec fn plus(x: Graph, n: int) -> Graph {
    affine(x, whole(1), whole(n))
}

/// `x + 1 / n`.
pub open spec fn plus_inverse(x: Graph, n: int) -> Graph {
    affine(x, whole(1), inverse(n))
}

} // verus!
