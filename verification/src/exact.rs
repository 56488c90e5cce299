//! Graphs in exact arithmetic: what a computation comes to if no operation rounds.
//!
//! Contracts say which computation an output is. What is true of its values holds in exact
//! arithmetic, and up to rounding on a device. [`exact`] reads a [`Graph`] with real numbers. What
//! tensors hold that were not computed, and the transcendental functions, are as a [`Reading`] gives
//! them.

use crate::graph::{BinaryOp, ConvLayer, Graph, LinearLayer, UnaryOp};
use crate::tensor::{broadcast_shape, conv_len, conv_transpose_len, element_count};
use vstd::prelude::*;

verus! {

/// Real numbers by their indices, one index for every axis.
pub struct Array {
    pub dims: Seq<usize>,
    pub at: spec_fn(Seq<int>) -> real,
}

/// What tensors hold that were not computed, the square root, and the other functions that have no
/// definition in terms of sums and products.
pub struct Reading {
    pub given: spec_fn(int) -> Array,
    pub root: spec_fn(real) -> real,
    pub function: spec_fn(UnaryOp, real) -> real,
}

/// Whether there is an element with the given indices.
pub open spec fn within(i: Seq<int>, dims: Seq<usize>) -> bool {
    i.len() == dims.len() && forall|k: int| 0 <= k < i.len() ==> 0 <= #[trigger] i[k] < dims[k]
}

/// Whether two arrays hold the same values.
pub open spec fn same_values(a: Array, b: Array) -> bool {
    a.dims == b.dims && forall|i: Seq<int>| within(i, a.dims) ==> #[trigger] (a.at)(i) == (b.at)(i)
}

/// Whether all values of an array are 0.
pub open spec fn is_zero(a: Array) -> bool {
    forall|i: Seq<int>| #[trigger] (a.at)(i) == 0 as real
}

/// The sum of the first `n` values of `f`.
pub open spec fn total(f: spec_fn(int) -> real, n: nat) -> real
    decreases n,
{
    if n == 0 {
        0 as real
    } else {
        total(f, (n - 1) as nat) + f(n - 1)
    }
}

/// The indices of the element that an operand of shape `dims` has for `i`: axes are aligned at the
/// last one, and an axis of extent 1 serves all indices.
pub open spec fn clipped(i: Seq<int>, dims: Seq<usize>) -> Seq<int> {
    Seq::new(dims.len(), |k: int| if dims[k] == 1 { 0 } else { i[k + i.len() - dims.len()] })
}

/// A function of two numbers.
pub open spec fn applied(op: BinaryOp, x: real, y: real) -> real {
    match op {
        BinaryOp::Sum => x + y,
        BinaryOp::Difference => x - y,
        BinaryOp::Product => x * y,
        BinaryOp::Quotient => x / y,
    }
}

/// The elementwise combination of two arrays.
pub open spec fn combined(op: BinaryOp, a: Array, b: Array) -> Array {
    Array {
        dims: broadcast_shape(a.dims, b.dims),
        at: |i: Seq<int>| applied(op, (a.at)(clipped(i, a.dims)), (b.at)(clipped(i, b.dims))),
    }
}

/// A function of every element.
pub open spec fn mapped(a: Array, f: spec_fn(real) -> real) -> Array {
    Array { dims: a.dims, at: |i: Seq<int>| f((a.at)(i)) }
}

/// The sum over an axis, which is kept with extent 1.
pub open spec fn summed(a: Array, axis: int) -> Array {
    Array {
        dims: a.dims.update(axis, 1),
        at: |i: Seq<int>| total(|k: int| (a.at)(i.update(axis, k)), a.dims[axis] as nat),
    }
}

/// The slice `start .. start + len` of an axis.
pub open spec fn slice(a: Array, axis: int, start: int, len: int) -> Array {
    Array { dims: a.dims.update(axis, len as usize), at: |i: Seq<int>| (a.at)(i.update(axis, i[axis] + start)) }
}

/// The sum of the extents of an axis.
pub open spec fn extents(parts: Seq<Array>, axis: int) -> int
    decreases parts.len(),
{
    if parts.len() == 0 {
        0
    } else {
        extents(parts.drop_last(), axis) + parts.last().dims[axis]
    }
}

/// The element with the given indices of arrays one after the other along an axis.
pub open spec fn joined(parts: Seq<Array>, axis: int, i: Seq<int>) -> real
    decreases parts.len(),
{
    if parts.len() == 0 {
        0 as real
    } else {
        let before = extents(parts.drop_last(), axis);
        if i[axis] < before {
            joined(parts.drop_last(), axis, i)
        } else {
            (parts.last().at)(i.update(axis, i[axis] - before))
        }
    }
}

/// Arrays one after the other along an axis.
pub open spec fn chained(parts: Seq<Array>, axis: int) -> Array {
    Array {
        dims: parts[0].dims.update(axis, extents(parts, axis) as usize),
        at: |i: Seq<int>| joined(parts, axis, i),
    }
}

/// Axes of extent 1 repeated.
pub open spec fn spread(a: Array, dims: Seq<usize>) -> Array {
    Array { dims, at: |i: Seq<int>| (a.at)(clipped(i, a.dims)) }
}

/// Element `j` of row `c` of item `b`, 0 beyond the ends of the row.
pub open spec fn padded_at(x: Array, b: int, c: int, j: int) -> real {
    if 0 <= j < x.dims[2] { (x.at)(seq![b, c, j]) } else { 0 as real }
}

/// Pixel `j`, `k` of channel `c` of item `b`, 0 beyond the edges of the image.
pub open spec fn pixel_at(x: Array, b: int, c: int, j: int, k: int) -> real {
    if 0 <= j < x.dims[2] && 0 <= k < x.dims[3] { (x.at)(seq![b, c, j, k]) } else { 0 as real }
}

/// A convolution of `x`, which is `[batch, in, length]`.
pub open spec fn convolution(x: Array, weight: Array, bias: Array, layer: ConvLayer) -> Array {
    Array {
        dims: seq![
            x.dims[0],
            layer.out_channels,
            conv_len(
                x.dims[2] as int,
                layer.kernel as int,
                layer.padding as int,
                layer.stride as int,
                layer.dilation as int,
            ) as usize,
        ],
        at: |i: Seq<int>| (bias.at)(seq![i[1]]) + total(
            |c: int| total(
                |k: int| (weight.at)(seq![i[1], c, k]) * padded_at(
                    x,
                    i[0],
                    c,
                    i[2] * layer.stride + k * layer.dilation - layer.padding,
                ),
                layer.kernel as nat,
            ),
            layer.in_channels as nat,
        ),
    }
}

/// A two-dimensional convolution of `x`, which is `[batch, in, height, width]`.
pub open spec fn square_convolution(x: Array, weight: Array, bias: Array, layer: ConvLayer) -> Array {
    let reach = |l: usize|
        conv_len(
            l as int,
            layer.kernel as int,
            layer.padding as int,
            layer.stride as int,
            layer.dilation as int,
        ) as usize;
    Array {
        dims: seq![x.dims[0], layer.out_channels, reach(x.dims[2]), reach(x.dims[3])],
        at: |i: Seq<int>| (bias.at)(seq![i[1]]) + total(
            |c: int| total(
                |k: int| total(
                    |l: int| (weight.at)(seq![i[1], c, k, l]) * pixel_at(
                        x,
                        i[0],
                        c,
                        i[2] * layer.stride + k * layer.dilation - layer.padding,
                        i[3] * layer.stride + l * layer.dilation - layer.padding,
                    ),
                    layer.kernel as nat,
                ),
                layer.kernel as nat,
            ),
            layer.in_channels as nat,
        ),
    }
}

/// A transposed convolution of `x`, which is `[batch, in, length]`: sample `l` of the input goes, times
/// element `k` of the kernel, to sample `l * stride + k * dilation - padding` of the output.
pub open spec fn transposed_convolution(x: Array, weight: Array, bias: Array, layer: ConvLayer) -> Array {
    Array {
        dims: seq![
            x.dims[0],
            layer.out_channels,
            conv_transpose_len(
                x.dims[2] as int,
                layer.kernel as int,
                layer.padding as int,
                layer.stride as int,
                layer.dilation as int,
            ) as usize,
        ],
        at: |i: Seq<int>| (bias.at)(seq![i[1]]) + total(
            |c: int| total(
                |l: int| total(
                    |k: int| if l * layer.stride + k * layer.dilation == i[2] + layer.padding {
                        (x.at)(seq![i[0], c, l]) * (weight.at)(seq![c, i[1], k])
                    } else {
                        0 as real
                    },
                    layer.kernel as nat,
                ),
                x.dims[2] as nat,
            ),
            layer.in_channels as nat,
        ),
    }
}

/// What a layer without a bias adds to every channel.
pub open spec fn no_bias(layer: ConvLayer) -> Array {
    Array { dims: seq![layer.out_channels], at: |i: Seq<int>| 0 as real }
}

/// A linear layer on the last axis of `x`.
pub open spec fn linear_map(x: Array, weight: Array, bias: Array, layer: LinearLayer) -> Array {
    let last = x.dims.len() - 1;
    Array {
        dims: x.dims.update(last, layer.out_dim),
        at: |i: Seq<int>| (bias.at)(seq![i[last]]) + total(
            |k: int| (weight.at)(seq![i[last], k]) * (x.at)(i.update(last, k)),
            layer.in_dim as nat,
        ),
    }
}

/// The rows of `x` along its last axis brought to mean 0 and variance 1, scaled and shifted.
pub open spec fn normalised_rows(x: Array, weight: Array, bias: Array, root: spec_fn(real) -> real) -> Array {
    let last = x.dims.len() - 1;
    let n = x.dims[last] as nat;
    Array {
        dims: x.dims,
        at: |i: Seq<int>| {
            let row = |k: int| (x.at)(i.update(last, k));
            let mean = total(row, n) / (n as real);
            let spread = total(|k: int| (row(k) - mean) * (row(k) - mean), n) / (n as real);
            (row(i[last]) - mean) / root(spread + (1 as real) / (100_000 as real)) * (weight.at)(seq![i[last]]) + (
            bias.at)(seq![i[last]])
        },
    }
}

/// Two axes swapped.
pub open spec fn turned(x: Array, a: int, b: int) -> Array {
    Array {
        dims: x.dims.update(a, x.dims[b]).update(b, x.dims[a]),
        at: |i: Seq<int>| (x.at)(i.update(a, i[b]).update(b, i[a])),
    }
}

/// The place of an element in row-major order.
pub open spec fn position(i: Seq<int>, dims: Seq<usize>) -> int
    decreases dims.len(),
{
    if dims.len() == 0 {
        0
    } else {
        position(i.drop_last(), dims.drop_last()) * dims.last() + i.last()
    }
}

/// The indices of the element at a place in row-major order.
pub open spec fn indices_at(p: int, dims: Seq<usize>) -> Seq<int>
    decreases dims.len(),
{
    if dims.len() == 0 {
        Seq::empty()
    } else {
        indices_at(p / dims.last() as int, dims.drop_last()).push(p % dims.last() as int)
    }
}

/// The same elements in row-major order under another shape.
pub open spec fn regrouped(x: Array, dims: Seq<usize>) -> Array {
    Array { dims, at: |i: Seq<int>| (x.at)(indices_at(position(i, dims), x.dims)) }
}

/// The sum over an axis, which is dropped.
pub open spec fn added_up(a: Array, axis: int) -> Array {
    Array {
        dims: a.dims.remove(axis),
        at: |i: Seq<int>| total(|k: int| (a.at)(i.insert(axis, k)), a.dims[axis] as nat),
    }
}

/// The slices of an axis that a list names.
pub open spec fn picked(a: Array, list: Seq<int>, axis: int) -> Array {
    Array { dims: a.dims.update(axis, list.len() as usize), at: |i: Seq<int>| (a.at)(i.update(axis, list[i[axis]])) }
}

/// Zeros before and after the elements along an axis.
pub open spec fn with_zeros(a: Array, axis: int, left: int, right: int) -> Array {
    Array {
        dims: a.dims.update(axis, (left + a.dims[axis] + right) as usize),
        at: |i: Seq<int>| if 0 <= i[axis] - left < a.dims[axis] {
            (a.at)(i.update(axis, i[axis] - left))
        } else {
            0 as real
        },
    }
}

/// The first and the last slice of an axis repeated before and after the elements.
pub open spec fn with_ends(a: Array, axis: int, left: int, right: int) -> Array {
    Array {
        dims: a.dims.update(axis, (left + a.dims[axis] + right) as usize),
        at: |i: Seq<int>| (a.at)(i.update(axis, within_range(i[axis] - left, 0, a.dims[axis] - 1))),
    }
}

/// `v` brought into `lo ..= hi`.
pub open spec fn within_range(v: int, lo: int, hi: int) -> int {
    if v < lo {
        lo
    } else if v > hi {
        hi
    } else {
        v
    }
}

/// `v` brought into `lo ..= hi`.
pub open spec fn limited(v: real, lo: int, hi: int) -> real {
    if v < lo as real {
        lo as real
    } else if v > hi as real {
        hi as real
    } else {
        v
    }
}

/// The product of two matrices.
pub open spec fn matrix_of_products(a: Array, b: Array) -> Array {
    Array {
        dims: seq![a.dims[0], b.dims[1]],
        at: |i: Seq<int>| total(|k: int| (a.at)(seq![i[0], k]) * (b.at)(seq![k, i[1]]), a.dims[1] as nat),
    }
}

/// The mean of all elements.
pub open spec fn mean_of_all(a: Array) -> Array {
    let n = element_count(a.dims);
    Array {
        dims: Seq::empty(),
        at: |i: Seq<int>| total(|p: int| (a.at)(indices_at(p, a.dims)), n as nat) / (n as real),
    }
}

/// A function of every element.
pub open spec fn function_of(r: Reading, op: UnaryOp) -> spec_fn(real) -> real {
    match op {
        UnaryOp::Sqr => |v: real| v * v,
        UnaryOp::Recip => |v: real| (1 as real) / v,
        UnaryOp::Neg => |v: real| (0 as real) - v,
        UnaryOp::Relu => |v: real| if v > 0 as real { v } else { 0 as real },
        UnaryOp::Sqrt => r.root,
        _ => |v: real| (r.function)(op, v),
    }
}

/// What a computation comes to in exact arithmetic.
pub open spec fn exact(g: Graph, r: Reading) -> Array
    decreases g,
{
    match g {
        Graph::Given(k) => (r.given)(k),
        Graph::Integers(v) => if v.len() == 1 {
            Array { dims: Seq::empty(), at: |i: Seq<int>| v[0] as real }
        } else {
            Array { dims: seq![v.len() as usize], at: |i: Seq<int>| v[i[0]] as real }
        },
        Graph::Single(x) => exact(*x, r),
        Graph::Double(x) => exact(*x, r),
        Graph::Unary(op, x) => mapped(exact(*x, r), function_of(r, op)),
        Graph::Binary(op, a, b) => combined(op, exact(*a, r), exact(*b, r)),
        Graph::Affine { x, mul, add } => {
            let factor = (exact(*mul, r).at)(Seq::empty());
            let summand = (exact(*add, r).at)(Seq::empty());
            mapped(exact(*x, r), |v: real| v * factor + summand)
        },
        Graph::Clamp { x, lo, hi } => mapped(exact(*x, r), |v: real| limited(v, lo, hi)),
        Graph::Capped { x, hi } => mapped(exact(*x, r), |v: real| if v > hi as real { hi as real } else { v }),
        Graph::Reshape(x, dims) => regrouped(exact(*x, r), dims),
        Graph::Transpose(x, a, b) => turned(exact(*x, r), a, b),
        Graph::Narrow { x, axis, start, len } => slice(exact(*x, r), axis, start, len),
        Graph::Expand(x, dims) => spread(exact(*x, r), dims),
        Graph::PadZeros { x, axis, left, right } => with_zeros(exact(*x, r), axis, left, right),
        Graph::PadSame { x, axis, left, right } => with_ends(exact(*x, r), axis, left, right),
        Graph::Select { x, indices, axis } => match *indices {
            Graph::Integers(v) => picked(exact(*x, r), v, axis),
            _ => exact(*x, r),
        },
        Graph::SumAxis { x, axis, keep } => if keep {
            summed(exact(*x, r), axis)
        } else {
            added_up(exact(*x, r), axis)
        },
        Graph::MeanAxis { x, axis, keep } => {
            let a = exact(*x, r);
            let sums = if keep { summed(a, axis) } else { added_up(a, axis) };
            mapped(sums, |v: real| v / (a.dims[axis] as real))
        },
        Graph::MeanAll(x) => mean_of_all(exact(*x, r)),
        Graph::Concat(parts, axis) => {
            let read = all_exact(parts, r);
            chained(read, axis)
        },
        Graph::MatMul(a, b) => matrix_of_products(exact(*a, r), exact(*b, r)),
        Graph::Conv1d(x, layer) => {
            let bias = match layer.bias {
                Some(v) => exact(*v, r),
                None => no_bias(layer),
            };
            convolution(exact(*x, r), exact(*layer.weight, r), bias, layer)
        },
        Graph::ConvTranspose1d(x, layer) => {
            let bias = match layer.bias {
                Some(v) => exact(*v, r),
                None => no_bias(layer),
            };
            transposed_convolution(exact(*x, r), exact(*layer.weight, r), bias, layer)
        },
        Graph::Conv2d(x, layer) => {
            let bias = match layer.bias {
                Some(v) => exact(*v, r),
                None => no_bias(layer),
            };
            square_convolution(exact(*x, r), exact(*layer.weight, r), bias, layer)
        },
        Graph::Linear(x, layer) => linear_map(exact(*x, r), exact(*layer.weight, r), exact(*layer.bias, r), layer),
        Graph::LayerNorm(x, layer) => normalised_rows(
            exact(*x, r),
            exact(*layer.weight, r),
            exact(*layer.bias, r),
            r.root,
        ),
    }
}

/// What computations come to in exact arithmetic.
pub open spec fn all_exact(parts: Seq<Graph>, r: Reading) -> Seq<Array>
    decreases parts,
{
    if parts.len() == 0 {
        Seq::empty()
    } else {
        all_exact(parts.drop_last(), r).push(exact(parts.last(), r))
    }
}

/// Every computation is read by itself.
pub(crate) proof fn lemma_all_exact(parts: Seq<Graph>, read: Seq<Array>, r: Reading)
    requires
        read.len() == parts.len(),
        forall|k: int| 0 <= k < parts.len() ==> #[trigger] read[k] == exact(parts[k], r),
    ensures
        all_exact(parts, r) == read,
    decreases parts.len(),
{
    if parts.len() > 0 {
        assert forall|k: int| 0 <= k < parts.len() - 1 implies #[trigger] read.drop_last()[k] == exact(
            parts.drop_last()[k],
            r,
        ) by {
            assert(read[k] == exact(parts[k], r));
        }
        lemma_all_exact(parts.drop_last(), read.drop_last(), r);
        assert(read[parts.len() - 1] == exact(parts[parts.len() - 1], r));
        assert(read.drop_last().push(read.last()) =~= read);
    } else {
        assert(read =~= Seq::<Array>::empty());
    }
}

/// Whether `root` gives the square root of every number that has one.
pub open spec fn is_root(root: spec_fn(real) -> real) -> bool {
    forall|v: real| v >= 0 as real ==> #[trigger] root(v) >= 0 as real && root(v) * root(v) == v
}

/// Terms that are equal have equal sums.
pub(crate) proof fn lemma_same_total(f: spec_fn(int) -> real, g: spec_fn(int) -> real, n: nat)
    requires
        forall|k: int| 0 <= k < n ==> #[trigger] f(k) == g(k),
    ensures
        total(f, n) == total(g, n),
    decreases n,
{
    if n > 0 {
        lemma_same_total(f, g, (n - 1) as nat);
    }
}

/// A factor of all terms is a factor of the sum.
pub(crate) proof fn lemma_scaled_total(f: spec_fn(int) -> real, g: spec_fn(int) -> real, c: real, n: nat)
    requires
        forall|k: int| 0 <= k < n ==> #[trigger] g(k) == c * f(k),
    ensures
        total(g, n) == c * total(f, n),
    decreases n,
{
    if n > 0 {
        lemma_scaled_total(f, g, c, (n - 1) as nat);
        let (a, b) = (total(f, (n - 1) as nat), f(n - 1));
        assert(c * (a + b) == c * a + c * b) by (nonlinear_arith);
    } else {
        assert(c * (0 as real) == 0 as real) by (nonlinear_arith);
    }
}

/// What is added to all terms is added to the sum as often.
pub(crate) proof fn lemma_shifted_total(f: spec_fn(int) -> real, g: spec_fn(int) -> real, c: real, n: nat)
    requires
        forall|k: int| 0 <= k < n ==> #[trigger] g(k) == f(k) + c,
    ensures
        total(g, n) == total(f, n) + (n as real) * c,
    decreases n,
{
    if n > 0 {
        lemma_shifted_total(f, g, c, (n - 1) as nat);
        assert((n as real) * c == ((n - 1) as real) * c + c) by (nonlinear_arith)
            requires
                n as real == ((n - 1) as real) + (1 as real),
        ;
    } else {
        assert((0 as real) * c == 0 as real) by (nonlinear_arith);
    }
}

/// Sums of squares are not negative.
pub(crate) proof fn lemma_total_not_negative(f: spec_fn(int) -> real, n: nat)
    requires
        forall|k: int| 0 <= k < n ==> #[trigger] f(k) >= 0 as real,
    ensures
        total(f, n) >= 0 as real,
    decreases n,
{
    if n > 0 {
        lemma_total_not_negative(f, (n - 1) as nat);
    }
}

} // verus!
