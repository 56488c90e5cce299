//! The tensor operations that the models are made of.
//!
//! A [`candle_core::Tensor`] is opaque here. Names say what the contracts need of one: [`shape`],
//! [`graph`], its element type ([`is_float`], [`is_single`], [`is_double`]), where it lives
//! ([`on_cpu`]) and how it is laid out ([`packed`], [`row_major`], [`start`]). Every item below states,
//! for one operation of candle, which operands it rejects, what the names give on the tensor that it
//! returns, and on which operands in main memory it succeeds. On other devices an operation may fail for further
//! reasons, and nothing is promised. The elements of a result are rounded as the device at hand
//! rounds them: no contract speaks of them. Asking for more elements than there is memory for,
//! which ends a program, is outside the contracts.

use crate::graph::{
    affine as affine_graph, axis_mean, axis_sum, capped, clamped, convolved, deconvolved, difference, double, expanded,
    indices as indices_graph, inverse, matrix_product, narrowed, over, plus, plus_inverse, product, quotient, reshaped,
    same_padded, selected, single, sum, times, total_mean, transposed, unary, whole, zero_padded, ConvLayer, Graph,
    UnaryOp,
};
use candle_core::{Error, Tensor};
use vstd::prelude::*;

verus! {

/// A tensor of candle.
#[verifier::external_type_specification]
#[verifier::external_body]
pub struct ExTensor(candle_core::Tensor);

/// An error of candle.
#[verifier::external_type_specification]
#[verifier::external_body]
pub struct ExError(candle_core::Error);

/// The extent of each axis, outermost first: what `Tensor::dims` returns.
pub uninterp spec fn shape(t: Tensor) -> Seq<usize>;

/// Whether the elements are floating-point numbers: what `DType::is_float` returns for the
/// tensor's element type.
pub uninterp spec fn is_float(t: Tensor) -> bool;

/// Whether the elements are in single precision: whether the element type is `DType::F32`.
pub uninterp spec fn is_single(t: Tensor) -> bool;

/// Whether the elements are in double precision: whether the element type is `DType::F64`.
pub uninterp spec fn is_double(t: Tensor) -> bool;

/// Whether the tensor lives in main memory, with an element type that candle computes with there:
/// any but the placeholders `F4`, `F6E2M3`, `F6E3M2` and `F8E8M0`.
pub uninterp spec fn on_cpu(t: Tensor) -> bool;

/// Whether the elements are laid out in row-major order without gaps: what
/// `Tensor::is_contiguous` returns. It does not ask how far apart the items of an axis of extent 1
/// would be.
pub uninterp spec fn packed(t: Tensor) -> bool;

/// Whether the strides of all axes, those of extent 1 too, are those of row-major order without gaps,
/// as `Shape::stride_contiguous` gives them.
pub uninterp spec fn row_major(t: Tensor) -> bool;

/// Where the elements begin in the tensor's storage: what `Layout::start_offset` returns for its
/// layout.
pub uninterp spec fn start(t: Tensor) -> usize;

/// The computation that a tensor handle stands for: the call that returned the handle, applied
/// to the computations of its operands. This is how the handle was obtained, not what the
/// elements are: handles with equal elements may have different graphs, and a call that finds
/// nothing to do returns a handle whose graph names that call all the same.
pub uninterp spec fn graph(t: Tensor) -> Graph;

/// Whether a tensor is in single precision and lives in main memory. On such tensors the operations
/// below fail only where shapes do not meet.
pub open spec fn plain(t: Tensor) -> bool {
    on_cpu(t) && is_single(t)
}

/// Whether two tensors have one element type and live in one place, as far as the names tell.
pub open spec fn alike(a: Tensor, b: Tensor) -> bool {
    &&& is_float(a) == is_float(b)
    &&& is_single(a) == is_single(b)
    &&& is_double(a) == is_double(b)
    &&& on_cpu(a) == on_cpu(b)
}

/// Whether a tensor begins within its storage: it holds elements, or begins where its storage does. A
/// slice without elements can begin beyond the end of its storage, and then operations that look for
/// elements there panic.
pub open spec fn sound(t: Tensor) -> bool {
    nonempty(shape(t)) || start(t) == 0
}

/// Whether `y` has the element type of `x`, lives where it does, and is sound if `x` is.
pub open spec fn follows(y: Tensor, x: Tensor) -> bool {
    alike(y, x) && (sound(x) ==> sound(y))
}

/// The number of axes that candle can walk through in two tensors at once.
pub const MAX_AXES: usize = 8;

/// The number of elements of a tensor of the given shape.
pub open spec fn element_count(dims: Seq<usize>) -> int
    decreases dims.len(),
{
    if dims.len() == 0 {
        1
    } else {
        element_count(dims.drop_last()) * dims.last()
    }
}

/// The number of elements of tensors with a few axes.
pub(crate) proof fn lemma_element_count(dims: Seq<usize>)
    ensures
        dims.len() == 0 ==> element_count(dims) == 1,
        dims.len() == 1 ==> element_count(dims) == dims[0],
        dims.len() == 2 ==> element_count(dims) == dims[0] * dims[1],
        dims.len() == 3 ==> element_count(dims) == dims[0] * dims[1] * dims[2],
        dims.len() == 4 ==> element_count(dims) == dims[0] * dims[1] * dims[2] * dims[3],
    decreases dims.len(),
{
    if 0 < dims.len() <= 4 {
        lemma_element_count(dims.drop_last());
    }
}

/// Axes of extent 1 hold no further elements.
pub(crate) proof fn lemma_column_count(n: usize)
    ensures
        element_count(seq![n]) == n,
        element_count(seq![1usize, n, 1usize]) == n,
{
    lemma_element_count(seq![n]);
    lemma_element_count(seq![1usize, n, 1usize]);
    assert(1 * n * 1 == n);
}

/// Whether a shape has room for an element.
pub open spec fn nonempty(dims: Seq<usize>) -> bool {
    forall|i: int| 0 <= i < dims.len() ==> #[trigger] dims[i] >= 1
}

/// `a` with axes of extent 1 put before its own until it has `n` of them.
pub open spec fn pad_left(a: Seq<usize>, n: nat) -> Seq<usize> {
    Seq::new(n, |i: int| if i < n - a.len() { 1usize } else { a[i - (n - a.len())] })
}

/// The number of axes that broadcasting `a` against `b` gives.
pub open spec fn broadcast_rank(a: Seq<usize>, b: Seq<usize>) -> nat {
    if a.len() < b.len() { b.len() } else { a.len() }
}

/// Whether `a` and `b`, aligned at their last axes, agree wherever neither has extent 1.
pub open spec fn broadcastable(a: Seq<usize>, b: Seq<usize>) -> bool {
    let n = broadcast_rank(a, b);
    forall|i: int| 0 <= i < n ==> #[trigger] pad_left(a, n)[i] == pad_left(b, n)[i] || pad_left(a, n)[i] == 1
        || pad_left(b, n)[i] == 1
}

/// The shape of an elementwise combination of operands of shapes `a` and `b`.
pub open spec fn broadcast_shape(a: Seq<usize>, b: Seq<usize>) -> Seq<usize> {
    let n = broadcast_rank(a, b);
    Seq::new(n, |i: int| if pad_left(a, n)[i] == 1 { pad_left(b, n)[i] } else { pad_left(a, n)[i] })
}

/// The length of a convolution's output.
pub open spec fn conv_len(l: int, kernel: int, padding: int, stride: int, dilation: int) -> int {
    (l + 2 * padding - dilation * (kernel - 1) - 1) / stride + 1
}

/// Whether a convolution's kernel fits in its padded input.
pub open spec fn conv_fits(l: int, kernel: int, padding: int, stride: int, dilation: int) -> bool {
    &&& kernel >= 1
    &&& stride >= 1
    &&& 0 <= dilation * (kernel - 1) < l + 2 * padding <= usize::MAX
}

/// Whether a convolution's kernel fits in its padded input.
pub(crate) fn kernel_fits(l: usize, kernel: usize, padding: usize, dilation: usize) -> (r: bool)
    ensures
        r == conv_fits(l as int, kernel as int, padding as int, 1, dilation as int),
{
    if kernel == 0 {
        return false;
    }
    assert(0 <= dilation * (kernel - 1) <= usize::MAX * usize::MAX) by (nonlinear_arith)
        requires
            0 <= dilation <= usize::MAX,
            1 <= kernel <= usize::MAX,
    ;
    let reach = dilation as u128 * (kernel - 1) as u128;
    let input = l as u128 + 2 * (padding as u128);
    reach < input && input <= usize::MAX as u128
}

/// The length of a transposed convolution's output.
pub open spec fn conv_transpose_len(l: int, kernel: int, padding: int, stride: int, dilation: int) -> int {
    (l - 1) * stride - 2 * padding + dilation * (kernel - 1) + 1
}

/// Whether a transposed convolution's output has a length that the machine can count.
pub open spec fn conv_transpose_fits(l: int, kernel: int, padding: int, stride: int, dilation: int) -> bool {
    &&& l >= 1
    &&& kernel >= 1
    &&& stride >= 1
    &&& 0 <= 2 * padding <= (l - 1) * stride <= usize::MAX
    &&& 0 <= dilation * (kernel - 1)
    &&& (l - 1) * stride - 2 * padding + dilation * (kernel - 1) + 1 <= usize::MAX
}

/// The length of a transposed convolution's output, if the machine can count it.
pub(crate) fn stretched_len(l: usize, kernel: usize, padding: usize, stride: usize) -> (r: Option<usize>)
    ensures
        r is Some <==> conv_transpose_fits(l as int, kernel as int, padding as int, stride as int, 1),
        r matches Some(n) ==> n == conv_transpose_len(l as int, kernel as int, padding as int, stride as int, 1) && n
            >= 1,
{
    if l == 0 || kernel == 0 || stride == 0 {
        return None;
    }
    assert(0 <= (l - 1) * stride <= usize::MAX * usize::MAX) by (nonlinear_arith)
        requires
            1 <= l <= usize::MAX,
            0 <= stride <= usize::MAX,
    ;
    let span = (l - 1) as u128 * stride as u128;
    let cut = 2 * (padding as u128);
    if span > usize::MAX as u128 || cut > span {
        return None;
    }
    let len = span - cut + (kernel - 1) as u128 + 1;
    if len > usize::MAX as u128 {
        return None;
    }
    Some(len as usize)
}

// Elementwise operations.

/// `Tensor::exp`: the exponential of every element. Integer elements make it panic. In main memory
/// it does not fail.
pub assume_specification[ Tensor::exp ](x: &Tensor) -> (r: Result<Tensor, Error>)
    requires
        is_float(*x),
    ensures
        r matches Ok(y) ==> shape(y) == shape(*x) && follows(y, *x) && graph(y) == unary(UnaryOp::Exp, graph(*x)),
        on_cpu(*x) ==> r is Ok,
;

/// `Tensor::log`: the natural logarithm of every element. Integer elements make it panic. In main
/// memory it does not fail.
pub assume_specification[ Tensor::log ](x: &Tensor) -> (r: Result<Tensor, Error>)
    requires
        is_float(*x),
    ensures
        r matches Ok(y) ==> shape(y) == shape(*x) && follows(y, *x) && graph(y) == unary(UnaryOp::Log, graph(*x)),
        on_cpu(*x) ==> r is Ok,
;

/// `Tensor::sin`: the sine of every element. Integer elements make it panic. In main memory it does
/// not fail.
pub assume_specification[ Tensor::sin ](x: &Tensor) -> (r: Result<Tensor, Error>)
    requires
        is_float(*x),
    ensures
        r matches Ok(y) ==> shape(y) == shape(*x) && follows(y, *x) && graph(y) == unary(UnaryOp::Sin, graph(*x)),
        on_cpu(*x) ==> r is Ok,
;

/// `Tensor::cos`: the cosine of every element. Integer elements make it panic. In main memory it
/// does not fail.
pub assume_specification[ Tensor::cos ](x: &Tensor) -> (r: Result<Tensor, Error>)
    requires
        is_float(*x),
    ensures
        r matches Ok(y) ==> shape(y) == shape(*x) && follows(y, *x) && graph(y) == unary(UnaryOp::Cos, graph(*x)),
        on_cpu(*x) ==> r is Ok,
;

/// `Tensor::tanh`: the hyperbolic tangent of every element. Integer elements make it panic. In main
/// memory it does not fail.
pub assume_specification[ Tensor::tanh ](x: &Tensor) -> (r: Result<Tensor, Error>)
    requires
        is_float(*x),
    ensures
        r matches Ok(y) ==> shape(y) == shape(*x) && follows(y, *x) && graph(y) == unary(UnaryOp::Tanh, graph(*x)),
        on_cpu(*x) ==> r is Ok,
;

/// `Tensor::sqr`: the square of every element. Integer elements make it panic. In main memory it
/// does not fail.
pub assume_specification[ Tensor::sqr ](x: &Tensor) -> (r: Result<Tensor, Error>)
    requires
        is_float(*x),
    ensures
        r matches Ok(y) ==> shape(y) == shape(*x) && follows(y, *x) && graph(y) == unary(UnaryOp::Sqr, graph(*x)),
        on_cpu(*x) ==> r is Ok,
;

/// `Tensor::sqrt`: the square root of every element. Integer elements make it panic. In main memory
/// it does not fail.
pub assume_specification[ Tensor::sqrt ](x: &Tensor) -> (r: Result<Tensor, Error>)
    requires
        is_float(*x),
    ensures
        r matches Ok(y) ==> shape(y) == shape(*x) && follows(y, *x) && graph(y) == unary(UnaryOp::Sqrt, graph(*x)),
        on_cpu(*x) ==> r is Ok,
;

/// `Tensor::recip`: the reciprocal of every element. Integer elements make it panic. In main memory
/// it does not fail.
pub assume_specification[ Tensor::recip ](x: &Tensor) -> (r: Result<Tensor, Error>)
    requires
        is_float(*x),
    ensures
        r matches Ok(y) ==> shape(y) == shape(*x) && follows(y, *x) && graph(y) == unary(UnaryOp::Recip, graph(*x)),
        on_cpu(*x) ==> r is Ok,
;

/// `Tensor::neg`: the negation of every element. Integer elements make it panic. In main memory it
/// does not fail.
pub assume_specification[ Tensor::neg ](x: &Tensor) -> (r: Result<Tensor, Error>)
    requires
        is_float(*x),
    ensures
        r matches Ok(y) ==> shape(y) == shape(*x) && follows(y, *x) && graph(y) == unary(UnaryOp::Neg, graph(*x)),
        on_cpu(*x) ==> r is Ok,
;

/// `Tensor::relu`: the maximum with 0 of every element. Integer elements make it panic. In main
/// memory it does not fail.
pub assume_specification[ Tensor::relu ](x: &Tensor) -> (r: Result<Tensor, Error>)
    requires
        is_float(*x),
    ensures
        r matches Ok(y) ==> shape(y) == shape(*x) && follows(y, *x) && graph(y) == unary(UnaryOp::Relu, graph(*x)),
        on_cpu(*x) ==> r is Ok,
;

/// `Tensor::gelu_erf`: the Gaussian error linear unit in its `erf` form of every element. Integer
/// elements make it panic. In main memory it does not fail.
pub assume_specification[ Tensor::gelu_erf ](x: &Tensor) -> (r: Result<Tensor, Error>)
    requires
        is_float(*x),
    ensures
        r matches Ok(y) ==> shape(y) == shape(*x) && follows(y, *x) && graph(y) == unary(UnaryOp::GeluErf, graph(*x)),
        on_cpu(*x) ==> r is Ok,
;

/// `candle_nn::ops::sigmoid`: `1 / (1 + exp(-x))` of every element. A tensor that begins beyond its
/// storage makes it panic. It does not fail on plain tensors.
pub assume_specification[ candle_nn::ops::sigmoid ](x: &Tensor) -> (r: Result<Tensor, Error>)
    requires
        sound(*x),
    ensures
        r matches Ok(y) ==> shape(y) == shape(*x) && follows(y, *x) && graph(y) == unary(UnaryOp::Sigmoid, graph(*x)),
        plain(*x) ==> r is Ok,
;

/// `Tensor::add`: the elementwise sum of operands of one shape. Integer arithmetic can panic,
/// and more than [`MAX_AXES`] axes. On plain operands it fails only where their shapes differ.
pub assume_specification[ Tensor::add ](x: &Tensor, y: &Tensor) -> (r: Result<Tensor, Error>)
    requires
        is_float(*x),
        shape(*x).len() <= MAX_AXES,
    ensures
        r matches Ok(z) ==> shape(*x) == shape(*y) && shape(z) == shape(*x) && follows(z, *x) && graph(z) == sum(
            graph(*x),
            graph(*y),
        ),
        plain(*x) && plain(*y) && shape(*x) == shape(*y) ==> r is Ok,
;

/// `Tensor::sub`: the elementwise difference of operands of one shape. Integer arithmetic can
/// panic, and more than [`MAX_AXES`] axes. On plain operands it fails only where their shapes differ.
pub assume_specification[ Tensor::sub ](x: &Tensor, y: &Tensor) -> (r: Result<Tensor, Error>)
    requires
        is_float(*x),
        shape(*x).len() <= MAX_AXES,
    ensures
        r matches Ok(z) ==> shape(*x) == shape(*y) && shape(z) == shape(*x) && follows(z, *x) && graph(z) == difference(
            graph(*x),
            graph(*y),
        ),
        plain(*x) && plain(*y) && shape(*x) == shape(*y) ==> r is Ok,
;

/// `Tensor::mul`: the elementwise product of operands of one shape. Integer arithmetic can panic,
/// and more than [`MAX_AXES`] axes. On plain operands it fails only where their shapes differ.
pub assume_specification[ Tensor::mul ](x: &Tensor, y: &Tensor) -> (r: Result<Tensor, Error>)
    requires
        is_float(*x),
        shape(*x).len() <= MAX_AXES,
    ensures
        r matches Ok(z) ==> shape(*x) == shape(*y) && shape(z) == shape(*x) && follows(z, *x) && graph(z) == product(
            graph(*x),
            graph(*y),
        ),
        plain(*x) && plain(*y) && shape(*x) == shape(*y) ==> r is Ok,
;

/// `Tensor::div`: the elementwise quotient of operands of one shape. Integer arithmetic can panic,
/// and more than [`MAX_AXES`] axes. On plain operands it fails only where their shapes differ.
pub assume_specification[ Tensor::div ](x: &Tensor, y: &Tensor) -> (r: Result<Tensor, Error>)
    requires
        is_float(*x),
        shape(*x).len() <= MAX_AXES,
    ensures
        r matches Ok(z) ==> shape(*x) == shape(*y) && shape(z) == shape(*x) && follows(z, *x) && graph(z) == quotient(
            graph(*x),
            graph(*y),
        ),
        plain(*x) && plain(*y) && shape(*x) == shape(*y) ==> r is Ok,
;

/// `Tensor::broadcast_add`: the elementwise sum, operands aligned at their last axes. Integer
/// arithmetic can panic, and more than [`MAX_AXES`] axes. On plain operands it fails only where their
/// shapes do not meet.
pub assume_specification[ Tensor::broadcast_add ](x: &Tensor, y: &Tensor) -> (r: Result<Tensor, Error>)
    requires
        is_float(*x),
        broadcast_rank(shape(*x), shape(*y)) <= MAX_AXES,
    ensures
        r matches Ok(z) ==> broadcastable(shape(*x), shape(*y)) && shape(z) == broadcast_shape(
            shape(*x),
            shape(*y),
        ) && alike(z, *x) && (shape(z) == shape(*x) && sound(*x) ==> sound(z)) && graph(z) == sum(graph(*x), graph(*y)),
        plain(*x) && plain(*y) && broadcastable(shape(*x), shape(*y)) ==> r is Ok,
;

/// `Tensor::broadcast_sub`: the elementwise difference, operands aligned at their last axes.
/// Integer arithmetic can panic, and more than [`MAX_AXES`] axes. On plain operands it fails only where
/// their shapes do not meet.
pub assume_specification[ Tensor::broadcast_sub ](x: &Tensor, y: &Tensor) -> (r: Result<Tensor, Error>)
    requires
        is_float(*x),
        broadcast_rank(shape(*x), shape(*y)) <= MAX_AXES,
    ensures
        r matches Ok(z) ==> broadcastable(shape(*x), shape(*y)) && shape(z) == broadcast_shape(
            shape(*x),
            shape(*y),
        ) && alike(z, *x) && (shape(z) == shape(*x) && sound(*x) ==> sound(z)) && graph(z) == difference(
            graph(*x),
            graph(*y),
        ),
        plain(*x) && plain(*y) && broadcastable(shape(*x), shape(*y)) ==> r is Ok,
;

/// `Tensor::broadcast_mul`: the elementwise product, operands aligned at their last axes. Integer
/// arithmetic can panic, and more than [`MAX_AXES`] axes. On plain operands it fails only where their
/// shapes do not meet.
pub assume_specification[ Tensor::broadcast_mul ](x: &Tensor, y: &Tensor) -> (r: Result<Tensor, Error>)
    requires
        is_float(*x),
        broadcast_rank(shape(*x), shape(*y)) <= MAX_AXES,
    ensures
        r matches Ok(z) ==> broadcastable(shape(*x), shape(*y)) && shape(z) == broadcast_shape(
            shape(*x),
            shape(*y),
        ) && alike(z, *x) && (shape(z) == shape(*x) && sound(*x) ==> sound(z)) && graph(z) == product(
            graph(*x),
            graph(*y),
        ),
        plain(*x) && plain(*y) && broadcastable(shape(*x), shape(*y)) ==> r is Ok,
;

/// `Tensor::broadcast_div`: the elementwise quotient, operands aligned at their last axes. Integer
/// arithmetic can panic, and more than [`MAX_AXES`] axes; operands of different element types are an
/// error. On plain operands it fails only where their shapes do not meet.
pub assume_specification[ Tensor::broadcast_div ](x: &Tensor, y: &Tensor) -> (r: Result<Tensor, Error>)
    requires
        is_float(*x) || is_float(*y),
        broadcast_rank(shape(*x), shape(*y)) <= MAX_AXES,
    ensures
        r matches Ok(z) ==> broadcastable(shape(*x), shape(*y)) && shape(z) == broadcast_shape(
            shape(*x),
            shape(*y),
        ) && alike(z, *x) && (shape(z) == shape(*x) && sound(*x) ==> sound(z)) && graph(z) == quotient(
            graph(*x),
            graph(*y),
        ),
        plain(*x) && plain(*y) && broadcastable(shape(*x), shape(*y)) ==> r is Ok,
;

// Shapes and layouts.

/// `Tensor::clone`: another handle of the same tensor.
pub assume_specification[ <Tensor as Clone>::clone ](x: &Tensor) -> (r: Tensor)
    ensures
        r == *x,
;

/// `Tensor::dims`: the shape.
pub assume_specification[ Tensor::dims ](x: &Tensor) -> (r: &[usize])
    ensures
        r@ == shape(*x),
;

/// `Tensor::dims2`: the shape of a matrix, an error for any other rank.
pub assume_specification[ Tensor::dims2 ](x: &Tensor) -> (r: Result<(usize, usize), Error>)
    ensures
        r is Ok <==> shape(*x).len() == 2,
        r matches Ok(d) ==> shape(*x) == seq![d.0, d.1],
;

/// `Tensor::dims3`: the shape of a tensor with three axes, an error for any other rank.
pub assume_specification[ Tensor::dims3 ](x: &Tensor) -> (r: Result<(usize, usize, usize), Error>)
    ensures
        r is Ok <==> shape(*x).len() == 3,
        r matches Ok(d) ==> shape(*x) == seq![d.0, d.1, d.2],
;

/// `Tensor::dims4`: the shape of a tensor with four axes, an error for any other rank.
pub assume_specification[ Tensor::dims4 ](x: &Tensor) -> (r: Result<(usize, usize, usize, usize), Error>)
    ensures
        r is Ok <==> shape(*x).len() == 4,
        r matches Ok(d) ==> shape(*x) == seq![d.0, d.1, d.2, d.3],
;

/// `Tensor::dim`: the extent of an axis, an error where the axis is not there.
#[verifier::external_body]
pub(crate) fn extent(x: &Tensor, axis: usize) -> (r: Result<usize, Error>)
    ensures
        r is Ok <==> shape(*x).len() > axis,
        r matches Ok(n) ==> n == shape(*x)[axis as int],
{
    x.dim(axis)
}

/// `Tensor::dtype` and `DType::is_float`: whether the elements are floating-point numbers.
#[verifier::external_body]
pub(crate) fn holds_floats(x: &Tensor) -> (r: bool)
    ensures
        r == is_float(*x),
{
    x.dtype().is_float()
}

/// `Tensor::device` with `Device::is_cpu`, and `Tensor::dtype`: whether the tensor is in single
/// precision and lives in main memory.
#[verifier::external_body]
pub(crate) fn is_plain(x: &Tensor) -> (r: bool)
    ensures
        r == plain(*x),
{
    x.device().is_cpu() && x.dtype() == candle_core::DType::F32
}

/// `Tensor::device` with `Device::is_cpu`, and `Tensor::dtype`: whether the tensor lives in main memory,
/// with an element type that candle computes with there.
#[verifier::external_body]
pub(crate) fn is_here(x: &Tensor) -> (r: bool)
    ensures
        r == on_cpu(*x),
{
    x.device().is_cpu() && !matches!(
        x.dtype(),
        candle_core::DType::F4 | candle_core::DType::F6E2M3 | candle_core::DType::F6E3M2 | candle_core::DType::F8E8M0
    )
}

/// `Tensor::layout` and `Layout::start_offset`: where the elements begin in the tensor's storage.
#[verifier::external_body]
pub(crate) fn start_of(x: &Tensor) -> (r: usize)
    ensures
        r == start(*x),
{
    x.layout().start_offset()
}

/// Whether a tensor begins within its storage.
pub fn is_sound(x: &Tensor) -> (r: bool)
    ensures
        r == sound(*x),
{
    if start_of(x) == 0 {
        return true;
    }
    let dims = x.dims();
    let mut i: usize = 0;
    while i < dims.len()
        invariant
            dims@ == shape(*x),
            i <= dims@.len(),
            start(*x) != 0,
            forall|k: int| 0 <= k < i ==> #[trigger] dims@[k] >= 1,
        decreases dims@.len() - i,
    {
        if dims[i] == 0 {
            assert(shape(*x)[i as int] == 0);
            return false;
        }
        i += 1;
    }
    true
}

/// Whether a tensor is in single precision and lives in main memory, where operations fail only if
/// shapes do not meet.
pub fn computes_here(x: &Tensor) -> (r: bool)
    ensures
        r == plain(*x),
{
    is_plain(x)
}

/// `Tensor::contiguous`: the same tensor, laid out in row-major order. It does not fail in main
/// memory, nor on a tensor that is packed already.
pub assume_specification[ Tensor::contiguous ](x: &Tensor) -> (r: Result<Tensor, Error>)
    ensures
        r matches Ok(y) ==> shape(y) == shape(*x) && follows(y, *x) && packed(y) && graph(y) == graph(*x),
        on_cpu(*x) || packed(*x) ==> r is Ok,
;

/// `Tensor::force_contiguous`: a copy of the tensor in row-major order, along axes of extent 1 too. A
/// tensor that begins beyond its storage makes it panic. In main memory it does not fail.
pub assume_specification[ Tensor::force_contiguous ](x: &Tensor) -> (r: Result<Tensor, Error>)
    requires
        sound(*x),
    ensures
        r matches Ok(y) ==> shape(y) == shape(*x) && alike(y, *x) && sound(y) && packed(y) && row_major(y) && graph(y)
            == graph(*x),
        on_cpu(*x) ==> r is Ok,
;

/// `Tensor::t`: the last two axes swapped.
pub assume_specification[ Tensor::t ](x: &Tensor) -> (r: Result<Tensor, Error>)
    ensures
        r is Ok <==> shape(*x).len() >= 2,
        r matches Ok(y) ==> follows(y, *x) && ({
            let n = shape(*x).len() as int;
            &&& shape(y) == shape(*x).update(n - 2, shape(*x)[n - 1]).update(n - 1, shape(*x)[n - 2])
            &&& graph(y) == transposed(graph(*x), n - 2, n - 1)
        }),
;

/// `Tensor::reshape`: the same elements under the shape `dims`, laid out in row-major order along every
/// axis. In main memory it fails only where `dims` counts other elements.
#[verifier::external_body]
pub(crate) fn reshape(x: &Tensor, dims: Vec<usize>) -> (r: Result<Tensor, Error>)
    ensures
        r matches Ok(y) ==> shape(y) == dims@ && follows(y, *x) && packed(y) && row_major(y) && graph(y) == reshaped(
            graph(*x),
            dims@,
        ),
        on_cpu(*x) && element_count(shape(*x)) == element_count(dims@) ==> r is Ok,
{
    x.reshape(dims)
}

/// `Tensor::transpose`: axes `a` and `b` swapped. It fails on an axis that is not there, and
/// only then.
#[verifier::external_body]
pub(crate) fn transpose(x: &Tensor, a: usize, b: usize) -> (r: Result<Tensor, Error>)
    ensures
        r is Ok <==> (shape(*x).len() > a && shape(*x).len() > b),
        r matches Ok(y) ==> shape(y) == shape(*x).update(a as int, shape(*x)[b as int]).update(
            b as int,
            shape(*x)[a as int],
        ) && follows(y, *x) && graph(y) == transposed(graph(*x), a as int, b as int),
{
    x.transpose(a, b)
}

/// `Tensor::narrow`: the slice `start .. start + len` of an axis. It fails where the axis does
/// not reach that far, and only then.
#[verifier::external_body]
pub(crate) fn narrow(x: &Tensor, axis: usize, start: usize, len: usize) -> (r: Result<Tensor, Error>)
    ensures
        r is Ok <==> (shape(*x).len() > axis && shape(*x)[axis as int] >= start + len),
        r matches Ok(y) ==> shape(y) == shape(*x).update(axis as int, len) && alike(y, *x) && graph(y) == narrowed(
            graph(*x),
            axis as int,
            start as int,
            len as int,
        ),
{
    x.narrow(axis, start, len)
}

/// `Tensor::unsqueeze`: an axis of extent 1 put in at `axis`.
#[verifier::external_body]
pub(crate) fn unsqueeze(x: &Tensor, axis: usize) -> (r: Result<Tensor, Error>)
    ensures
        r is Ok <==> axis <= shape(*x).len(),
        r matches Ok(y) ==> shape(y) == shape(*x).insert(axis as int, 1usize) && follows(y, *x) && graph(y)
            == reshaped(graph(*x), shape(y)),
{
    x.unsqueeze(axis)
}

/// `Tensor::squeeze`: an axis of extent 1 taken out; an axis of any other extent stays.
#[verifier::external_body]
pub(crate) fn squeeze(x: &Tensor, axis: usize) -> (r: Result<Tensor, Error>)
    ensures
        r is Ok <==> axis < shape(*x).len(),
        r matches Ok(y) ==> shape(y) == (if shape(*x)[axis as int] == 1 {
            shape(*x).remove(axis as int)
        } else {
            shape(*x)
        }) && follows(y, *x) && graph(y) == reshaped(graph(*x), shape(y)),
{
    x.squeeze(axis)
}

/// `Tensor::expand`: axes of extent 1 repeated to the shape `dims`. It does not fail where every
/// axis that is to change has extent 1.
#[verifier::external_body]
pub(crate) fn expand(x: &Tensor, dims: Vec<usize>) -> (r: Result<Tensor, Error>)
    ensures
        r matches Ok(y) ==> shape(y) == dims@ && alike(y, *x) && graph(y) == expanded(graph(*x), dims@),
        shape(*x).len() == dims@.len() && (forall|i: int|
            0 <= i < dims@.len() ==> #[trigger] dims@[i] == shape(*x)[i] || shape(*x)[i] == 1) ==> r is Ok,
{
    x.expand(dims)
}

/// `a` with `left + right` added to the extent of one axis.
pub open spec fn padded_shape(a: Seq<usize>, axis: int, left: usize, right: usize) -> Seq<usize> {
    if left + right == 0 { a } else { a.update(axis, (left + a[axis] + right) as usize) }
}

/// `Tensor::pad_with_zeros`: `left` zeros before and `right` zeros after along an axis. A tensor that
/// begins beyond its storage makes it panic. On plain tensors it fails only on an axis that is not
/// there.
#[verifier::external_body]
pub(crate) fn pad_with_zeros(x: &Tensor, axis: usize, left: usize, right: usize) -> (r: Result<Tensor, Error>)
    requires
        sound(*x),
        axis < shape(*x).len() ==> left + shape(*x)[axis as int] + right <= usize::MAX,
    ensures
        r matches Ok(y) ==> shape(y) == padded_shape(shape(*x), axis as int, left, right) && alike(y, *x) && graph(y)
            == zero_padded(graph(*x), axis as int, left as int, right as int),
        plain(*x) && axis < shape(*x).len() ==> r is Ok,
{
    x.pad_with_zeros(axis, left, right)
}

/// `Tensor::pad_with_same`: the first slice of an axis `left` times before, the last slice `right`
/// times after. An empty tensor cannot be padded. On plain tensors it fails only for that, or on an
/// axis that is not there.
#[verifier::external_body]
pub(crate) fn pad_with_same(x: &Tensor, axis: usize, left: usize, right: usize) -> (r: Result<Tensor, Error>)
    requires
        axis < shape(*x).len() ==> left + shape(*x)[axis as int] + right <= usize::MAX,
    ensures
        r matches Ok(y) ==> shape(y) == padded_shape(shape(*x), axis as int, left, right) && alike(y, *x) && graph(y)
            == same_padded(graph(*x), axis as int, left as int, right as int),
        plain(*x) && axis < shape(*x).len() && nonempty(shape(*x)) ==> r is Ok,
        r is Ok && left + right > 0 ==> axis < shape(*x).len() && nonempty(shape(*x)),
{
    x.pad_with_same(axis, left, right)
}

/// `Tensor::index_select`: the slices of an axis that `indices`, a vector, lists. Tensors that begin
/// beyond their storage make it panic. In main memory the operand has to be packed. On plain packed
/// tensors it does not fail where the indices lie within the axis.
#[verifier::external_body]
pub(crate) fn index_select(x: &Tensor, indices: &Tensor, axis: usize) -> (r: Result<Tensor, Error>)
    requires
        sound(*x),
        sound(*indices),
    ensures
        r matches Ok(y) ==> axis < shape(*x).len() && shape(*indices).len() == 1 && shape(y) == shape(*x).update(
            axis as int,
            shape(*indices)[0],
        ) && alike(y, *x) && sound(y) && graph(y) == selected(graph(*x), graph(*indices), axis as int),
        forall|v: Seq<u32>|
            graph(*indices) == #[trigger] indices_graph(v) && shape(*indices).len() == 1 && on_cpu(*indices) && plain(
                *x,
            ) && packed(*x) && axis < shape(*x).len() && (forall|i: int|
                0 <= i < v.len() ==> #[trigger] v[i] < shape(*x)[axis as int]) ==> r is Ok,
{
    x.index_select(indices, axis)
}

/// The sum of the extents of one axis.
pub open spec fn total_extent(parts: Seq<Tensor>, axis: int) -> int
    decreases parts.len(),
{
    if parts.len() == 0 {
        0
    } else {
        total_extent(parts.drop_last(), axis) + shape(parts.last())[axis]
    }
}

/// The computations of a sequence of tensors.
pub open spec fn graphs(parts: Seq<Tensor>) -> Seq<Graph> {
    Seq::new(parts.len(), |i: int| graph(parts[i]))
}

/// Whether parts can be put one after the other along an axis: they have one rank, and one extent
/// along every other axis.
pub open spec fn stackable(parts: Seq<Tensor>, axis: int) -> bool {
    &&& parts.len() > 0
    &&& 0 <= axis < shape(parts[0]).len()
    &&& forall|i: int|
        0 <= i < parts.len() ==> shape(#[trigger] parts[i]).len() == shape(parts[0]).len() && shape(parts[i])
            == shape(parts[0]).update(axis, shape(parts[i])[axis])
}

/// `Tensor::cat`: two or more parts one after the other along an axis; one part is returned as it
/// is. Parts that begin beyond their storage make it panic. On plain parts it fails only where their
/// shapes do not meet.
#[verifier::external_body]
pub(crate) fn cat(parts: &Vec<Tensor>, axis: usize) -> (r: Result<Tensor, Error>)
    requires
        forall|i: int| 0 <= i < parts@.len() ==> sound(#[trigger] parts@[i]),
        total_extent(parts@, axis as int) <= usize::MAX,
    ensures
        parts@.len() == 0 ==> r is Err,
        r matches Ok(y) ==> axis < shape(parts@[0]).len() ==> shape(y) == shape(parts@[0]).update(
            axis as int,
            total_extent(parts@, axis as int) as usize,
        ),
        r matches Ok(y) ==> alike(y, parts@[0]) && graph(y) == Graph::Concat(graphs(parts@), axis as int),
        stackable(parts@, axis as int) && (forall|i: int| 0 <= i < parts@.len() ==> plain(#[trigger] parts@[i]))
            ==> r is Ok,
{
    Tensor::cat(parts, axis)
}

// Reductions and products.

/// `Tensor::sum_keepdim`: the sum over an axis, which is kept with extent 1. Integer arithmetic can
/// panic, and a tensor that begins beyond its storage. On plain tensors it fails only on an axis that is
/// not there.
#[verifier::external_body]
pub(crate) fn sum_keepdim(x: &Tensor, axis: usize) -> (r: Result<Tensor, Error>)
    requires
        is_float(*x),
        sound(*x),
    ensures
        r matches Ok(y) ==> axis < shape(*x).len() && shape(y) == shape(*x).update(axis as int, 1usize) && alike(y, *x)
            && sound(y) && graph(y) == axis_sum(graph(*x), axis as int, true),
        plain(*x) && axis < shape(*x).len() ==> r is Ok,
{
    x.sum_keepdim(axis)
}

/// `Tensor::sum`: the sum over an axis, which is dropped. Integer arithmetic can panic, and a
/// tensor that begins beyond its storage. On plain tensors it fails only on an axis that is not there.
#[verifier::external_body]
pub(crate) fn sum_axis(x: &Tensor, axis: usize) -> (r: Result<Tensor, Error>)
    requires
        is_float(*x),
        sound(*x),
    ensures
        r matches Ok(y) ==> axis < shape(*x).len() && shape(y) == shape(*x).remove(axis as int) && alike(y, *x)
            && sound(y) && graph(y) == axis_sum(graph(*x), axis as int, false),
        plain(*x) && axis < shape(*x).len() ==> r is Ok,
{
    x.sum(axis)
}

/// `Tensor::mean_keepdim`: the mean over an axis, which is kept with extent 1. Integer arithmetic can
/// panic, and a tensor that begins beyond its storage. On plain tensors it fails only on an axis that is
/// not there.
#[verifier::external_body]
pub(crate) fn mean_keepdim(x: &Tensor, axis: usize) -> (r: Result<Tensor, Error>)
    requires
        is_float(*x),
        sound(*x),
    ensures
        r matches Ok(y) ==> axis < shape(*x).len() && shape(y) == shape(*x).update(axis as int, 1usize) && alike(y, *x)
            && sound(y) && graph(y) == axis_mean(graph(*x), axis as int, true),
        plain(*x) && axis < shape(*x).len() ==> r is Ok,
{
    x.mean_keepdim(axis)
}

/// `Tensor::mean`: the mean over an axis, which is dropped. Integer arithmetic can panic, and a
/// tensor that begins beyond its storage. On plain tensors it fails only on an axis that is not there.
#[verifier::external_body]
pub(crate) fn mean_axis(x: &Tensor, axis: usize) -> (r: Result<Tensor, Error>)
    requires
        is_float(*x),
        sound(*x),
    ensures
        r matches Ok(y) ==> axis < shape(*x).len() && shape(y) == shape(*x).remove(axis as int) && alike(y, *x)
            && sound(y) && graph(y) == axis_mean(graph(*x), axis as int, false),
        plain(*x) && axis < shape(*x).len() ==> r is Ok,
{
    x.mean(axis)
}

/// `Tensor::mean_all`: the mean of all elements, a scalar. Integer arithmetic can panic, and a tensor that
/// begins beyond its storage. It does not fail on plain tensors.
pub assume_specification[ Tensor::mean_all ](x: &Tensor) -> (r: Result<Tensor, Error>)
    requires
        is_float(*x),
        sound(*x),
    ensures
        r matches Ok(y) ==> shape(y) == Seq::<usize>::empty() && alike(y, *x) && graph(y) == total_mean(graph(*x)),
        plain(*x) ==> r is Ok,
;

/// `Tensor::matmul`: the product of two matrices. On the processor, batches of matrices may be read
/// beyond their end. On plain matrices it fails only where their shapes do not meet.
pub assume_specification[ Tensor::matmul ](x: &Tensor, y: &Tensor) -> (r: Result<Tensor, Error>)
    requires
        shape(*x).len() == 2,
    ensures
        r matches Ok(z) ==> alike(z, *x) && graph(z) == matrix_product(graph(*x), graph(*y)) && shape(*y).len() == 2
            && shape(*x)[1] == shape(*y)[0] && shape(z) == seq![shape(*x)[0], shape(*y)[1]],
        plain(*x) && plain(*y) && shape(*y).len() == 2 && shape(*x)[1] == shape(*y)[0] ==> r is Ok,
;

/// A convolution by a bare kernel of shape `[out, in, k]`.
pub open spec fn kernel_layer(kernel: Tensor, padding: usize, stride: usize, dilation: usize) -> ConvLayer {
    ConvLayer {
        weight: Box::new(graph(kernel)),
        bias: None,
        in_channels: shape(kernel)[1],
        out_channels: shape(kernel)[0],
        kernel: shape(kernel)[2],
        padding,
        stride,
        dilation,
    }
}

/// A transposed convolution by a bare kernel of shape `[in, out, k]`.
pub open spec fn transposed_kernel_layer(
    kernel: Tensor,
    padding: usize,
    stride: usize,
    dilation: usize,
) -> ConvLayer {
    ConvLayer {
        weight: Box::new(graph(kernel)),
        bias: None,
        in_channels: shape(kernel)[0],
        out_channels: shape(kernel)[1],
        kernel: shape(kernel)[2],
        padding,
        stride,
        dilation,
    }
}

/// `Tensor::conv1d` in one group: `x` is `[batch, in, length]`. A kernel longer than the padded
/// input makes it panic, and one that is not packed may be read beyond its end on the processor;
/// tensors that begin beyond their storage make it panic too. On plain tensors that hold elements it
/// fails only where the channels differ.
pub assume_specification[ Tensor::conv1d ](
    x: &Tensor,
    kernel: &Tensor,
    padding: usize,
    stride: usize,
    dilation: usize,
    groups: usize,
) -> (r: Result<Tensor, Error>)
    requires
        groups == 1,
        packed(*kernel),
        shape(*x).len() == 3 && shape(*kernel).len() == 3 ==> sound(*x) && sound(*kernel),
        shape(*x).len() == 3 && shape(*kernel).len() == 3 ==> conv_fits(
            shape(*x)[2] as int,
            shape(*kernel)[2] as int,
            padding as int,
            stride as int,
            dilation as int,
        ),
    ensures
        r matches Ok(y) ==> alike(y, *x) && graph(y) == convolved(
            graph(*x),
            kernel_layer(*kernel, padding, stride, dilation),
        ) && shape(*x).len() == 3 && shape(*kernel).len() == 3 && shape(*x)[1] == shape(*kernel)[1] && shape(y) == seq![
            shape(*x)[0],
            shape(*kernel)[0],
            conv_len(
                shape(*x)[2] as int,
                shape(*kernel)[2] as int,
                padding as int,
                stride as int,
                dilation as int,
            ) as usize,
        ],
        plain(*x) && plain(*kernel) && shape(*x).len() == 3 && shape(*kernel).len() == 3 && nonempty(shape(*x))
            && nonempty(shape(*kernel)) && shape(*x)[1] == shape(*kernel)[1] ==> r is Ok,
;

/// `Tensor::conv_transpose1d` in one group, with no output padding: `x` is `[batch, in, length]`.
/// An output without a countable length makes it panic, and tensors that begin beyond their storage,
/// and integer arithmetic can; an input in another than row-major order may be read beyond its end on
/// the processor. With a packed kernel, on plain tensors that hold elements, it fails only where the
/// channels differ. On the processor, without padding and with more than one input channel, samples
/// after the first batch are read at the wrong place; the graph does not tell.
pub assume_specification[ Tensor::conv_transpose1d ](
    x: &Tensor,
    kernel: &Tensor,
    padding: usize,
    output_padding: usize,
    stride: usize,
    dilation: usize,
    groups: usize,
) -> (r: Result<Tensor, Error>)
    requires
        groups == 1,
        output_padding == 0,
        is_float(*x),
        row_major(*x),
        shape(*x).len() == 3 && shape(*kernel).len() == 3 ==> sound(*x) && sound(*kernel),
        shape(*x).len() == 3 && shape(*kernel).len() == 3 ==> conv_transpose_fits(
            shape(*x)[2] as int,
            shape(*kernel)[2] as int,
            padding as int,
            stride as int,
            dilation as int,
        ),
    ensures
        r matches Ok(y) ==> alike(y, *x) && graph(y) == deconvolved(
            graph(*x),
            transposed_kernel_layer(*kernel, padding, stride, dilation),
        ) && shape(*x).len() == 3 && shape(*kernel).len() == 3 && shape(*x)[1] == shape(*kernel)[0] && shape(y) == seq![
            shape(*x)[0],
            shape(*kernel)[1],
            conv_transpose_len(
                shape(*x)[2] as int,
                shape(*kernel)[2] as int,
                padding as int,
                stride as int,
                dilation as int,
            ) as usize,
        ],
        plain(*x) && plain(*kernel) && packed(*kernel) && shape(*x).len() == 3 && shape(*kernel).len() == 3 && nonempty(
            shape(*x),
        ) && nonempty(shape(*kernel)) && shape(*x)[1] == shape(*kernel)[0] ==> r is Ok,
;

// Constants.

/// `Tensor::from_vec`: a vector of indices, on the device of `like`. In main memory it does not
/// fail.
#[verifier::external_body]
pub(crate) fn indices(v: Vec<u32>, like: &Tensor) -> (r: Result<Tensor, Error>)
    ensures
        r matches Ok(y) ==> shape(y) == seq![v@.len() as usize] && !is_float(y) && sound(y) && graph(y)
            == indices_graph(v@) && (on_cpu(*like) ==> on_cpu(y)),
        on_cpu(*like) ==> r is Ok,
{
    let n = v.len();
    Tensor::from_vec(v, n, like.device())
}

/// `Tensor::new`: an integer scalar in main memory. It does not fail.
#[verifier::external_body]
pub(crate) fn integer(n: i64) -> (r: Result<Tensor, Error>)
    ensures
        r is Ok,
        r matches Ok(y) ==> on_cpu(y) && shape(y) == Seq::<usize>::empty() && graph(y) == Graph::Integers(
            seq![n as int],
        ),
{
    Tensor::new(n, &candle_core::Device::Cpu)
}

/// `Tensor::to_dtype` with `DType::F64`. A tensor that begins beyond its storage makes it panic. In main
/// memory it does not fail.
#[verifier::external_body]
pub(crate) fn to_double(x: &Tensor) -> (r: Result<Tensor, Error>)
    requires
        sound(*x),
    ensures
        r matches Ok(y) ==> shape(y) == shape(*x) && is_float(y) && is_double(y) && on_cpu(y) == on_cpu(*x) && sound(y)
            && graph(y) == double(graph(*x)),
        on_cpu(*x) ==> r is Ok,
{
    x.to_dtype(candle_core::DType::F64)
}

/// `Tensor::to_dtype` with `DType::F32`. A tensor that begins beyond its storage makes it panic. In main
/// memory it does not fail.
#[verifier::external_body]
pub(crate) fn to_single(x: &Tensor) -> (r: Result<Tensor, Error>)
    requires
        sound(*x),
    ensures
        r matches Ok(y) ==> shape(y) == shape(*x) && is_float(y) && is_single(y) && on_cpu(y) == on_cpu(*x) && sound(y)
            && graph(y) == single(graph(*x)),
        on_cpu(*x) ==> r is Ok,
{
    x.to_dtype(candle_core::DType::F32)
}

/// Whether a tensor is a double-precision scalar in main memory.
pub open spec fn is_number(t: Tensor) -> bool {
    on_cpu(t) && is_double(t) && shape(t) == Seq::<usize>::empty()
}

/// `Tensor::affine`: `x * mul + add` for every element, where `mul` and `add` are double-precision
/// scalars. Integer arithmetic can panic. It does not fail on plain tensors with such scalars in main
/// memory.
#[verifier::external_body]
pub(crate) fn affine(x: &Tensor, mul: &Tensor, add: &Tensor) -> (r: Result<Tensor, Error>)
    requires
        is_float(*x),
    ensures
        r matches Ok(y) ==> shape(y) == shape(*x) && follows(y, *x) && graph(y) == affine_graph(
            graph(*x),
            graph(*mul),
            graph(*add),
        ),
        plain(*x) && is_number(*mul) && is_number(*add) ==> r is Ok,
{
    x.affine(mul.to_scalar()?, add.to_scalar()?)
}

/// `Tensor::clamp`: every element brought into `lo ..= hi`. More than [`MAX_AXES`] axes make it panic.
/// It does not fail on plain tensors.
#[verifier::external_body]
pub(crate) fn clamp(x: &Tensor, lo: i64, hi: i64) -> (r: Result<Tensor, Error>)
    requires
        shape(*x).len() <= MAX_AXES,
    ensures
        r matches Ok(y) ==> shape(y) == shape(*x) && follows(y, *x) && graph(y) == clamped(
            graph(*x),
            lo as int,
            hi as int,
        ),
        plain(*x) ==> r is Ok,
{
    x.clamp(lo, hi)
}

/// `Tensor::minimum`: every element capped at `hi`. More than [`MAX_AXES`] axes make it panic. It does
/// not fail on plain tensors.
#[verifier::external_body]
pub(crate) fn minimum(x: &Tensor, hi: i64) -> (r: Result<Tensor, Error>)
    requires
        shape(*x).len() <= MAX_AXES,
    ensures
        r matches Ok(y) ==> shape(y) == shape(*x) && follows(y, *x) && graph(y) == capped(graph(*x), hi as int),
        plain(*x) ==> r is Ok,
{
    x.minimum(hi)
}

// Arithmetic with whole numbers, made of the operations above.

/// The double-precision scalar `n`.
fn whole_number(n: i64) -> (r: Result<Tensor, Error>)
    ensures
        r matches Ok(y) && is_float(y) && is_number(y) && graph(y) == whole(n as int),
{
    let n = integer(n)?;
    to_double(&n)
}

/// The double-precision scalar `1 / n`.
fn inverse_of(n: i64) -> (r: Result<Tensor, Error>)
    ensures
        r matches Ok(y) && is_float(y) && is_number(y) && graph(y) == inverse(n as int),
{
    let n = whole_number(n)?;
    n.recip()
}

/// `x * n`.
pub(crate) fn times_whole(x: &Tensor, n: i64) -> (r: Result<Tensor, Error>)
    requires
        is_float(*x),
    ensures
        r matches Ok(y) ==> shape(y) == shape(*x) && follows(y, *x) && graph(y) == times(graph(*x), n as int),
        plain(*x) ==> r is Ok,
{
    let mul = whole_number(n)?;
    let add = whole_number(0)?;
    affine(x, &mul, &add)
}

/// `x / n`, as the product with `1 / n`.
pub(crate) fn over_whole(x: &Tensor, n: i64) -> (r: Result<Tensor, Error>)
    requires
        is_float(*x),
    ensures
        r matches Ok(y) ==> shape(y) == shape(*x) && follows(y, *x) && graph(y) == over(graph(*x), n as int),
        plain(*x) ==> r is Ok,
{
    let mul = inverse_of(n)?;
    let add = whole_number(0)?;
    affine(x, &mul, &add)
}

/// `x + n`.
pub(crate) fn plus_whole(x: &Tensor, n: i64) -> (r: Result<Tensor, Error>)
    requires
        is_float(*x),
    ensures
        r matches Ok(y) ==> shape(y) == shape(*x) && follows(y, *x) && graph(y) == plus(graph(*x), n as int),
        plain(*x) ==> r is Ok,
{
    let mul = whole_number(1)?;
    let add = whole_number(n)?;
    affine(x, &mul, &add)
}

/// `x + 1 / n`.
pub(crate) fn plus_inverse_of(x: &Tensor, n: i64) -> (r: Result<Tensor, Error>)
    requires
        is_float(*x),
    ensures
        r matches Ok(y) ==> shape(y) == shape(*x) && follows(y, *x) && graph(y) == plus_inverse(graph(*x), n as int),
        plain(*x) ==> r is Ok,
{
    let mul = whole_number(1)?;
    let add = inverse_of(n)?;
    affine(x, &mul, &add)
}

} // verus!
