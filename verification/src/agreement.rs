//! Agreement: computations that come to the same in exact arithmetic.
//!
//! Every lemma says of one operation that it makes the same of operands that come to the same.

use crate::batch::{
    lemma_part_convolution, lemma_part_linear, lemma_part_normalised, lemma_part_padded,
    lemma_part_slice, lemma_part_transposed_convolution, lemma_same_combined, lemma_same_is_part, lemma_same_mean,
    lemma_same_regrouped, lemma_same_turned,
};
use crate::exact::{exact, function_of, limited, mapped, no_bias, same_values, within, Array, Reading};
use crate::graph::{
    affine, capped, clamped, convolved, deconvolved, narrowed, reshaped, same_padded, total_mean, transposed, unary,
    zero_padded, BinaryOp, ConvLayer, Graph, LinearLayer, NormLayer, UnaryOp,
};
use crate::tensor::{broadcast_shape, broadcastable, conv_len, conv_transpose_len, element_count};
use vstd::prelude::*;

verus! {

/// Whether two computations come to the same.
pub open spec fn agree(r: Reading, g: Graph, h: Graph) -> bool {
    same_values(exact(g, r), exact(h, r))
}

/// The bias of a layer.
pub open spec fn bias_of(r: Reading, layer: ConvLayer) -> Array {
    match layer.bias {
        Some(v) => exact(*v, r),
        None => no_bias(layer),
    }
}

/// What agrees with what agrees with a third agrees with it.
pub(crate) proof fn lemma_agree_through(r: Reading, g: Graph, h: Graph, k: Graph)
    requires
        agree(r, g, h),
        agree(r, h, k),
    ensures
        agree(r, g, k),
        agree(r, h, g),
{
    let (a, b, c) = (exact(g, r), exact(h, r), exact(k, r));
    assert forall|i: Seq<int>| within(i, a.dims) implies #[trigger] (a.at)(i) == (c.at)(i) by {
        assert((a.at)(i) == (b.at)(i));
        assert((b.at)(i) == (c.at)(i));
    }
    assert forall|i: Seq<int>| within(i, b.dims) implies #[trigger] (b.at)(i) == (a.at)(i) by {
        assert((a.at)(i) == (b.at)(i));
    }
}

/// Functions of every element.
proof fn lemma_agree_mapped(a: Array, b: Array, f: spec_fn(real) -> real)
    requires
        same_values(a, b),
    ensures
        same_values(mapped(a, f), mapped(b, f)),
{
    let (x, y) = (mapped(a, f), mapped(b, f));
    assert forall|i: Seq<int>| within(i, x.dims) implies #[trigger] (x.at)(i) == (y.at)(i) by {
        assert((a.at)(i) == (b.at)(i));
    }
}

/// Functions of every element.
pub(crate) proof fn lemma_agree_unary(r: Reading, op: UnaryOp, g: Graph, h: Graph)
    requires
        agree(r, g, h),
    ensures
        agree(r, unary(op, g), unary(op, h)),
        exact(unary(op, g), r).dims == exact(g, r).dims,
{
    lemma_agree_mapped(exact(g, r), exact(h, r), function_of(r, op));
}

/// Products with a number, and sums with another.
pub(crate) proof fn lemma_agree_affine(r: Reading, g: Graph, h: Graph, mul: Graph, add: Graph)
    requires
        agree(r, g, h),
    ensures
        agree(r, affine(g, mul, add), affine(h, mul, add)),
        exact(affine(g, mul, add), r).dims == exact(g, r).dims,
{
    let factor = (exact(mul, r).at)(Seq::empty());
    let summand = (exact(add, r).at)(Seq::empty());
    lemma_agree_mapped(exact(g, r), exact(h, r), |v: real| v * factor + summand);
}

/// Elements brought into a range.
pub(crate) proof fn lemma_agree_clamped(r: Reading, g: Graph, h: Graph, lo: int, hi: int)
    requires
        agree(r, g, h),
    ensures
        agree(r, clamped(g, lo, hi), clamped(h, lo, hi)),
        agree(r, capped(g, hi), capped(h, hi)),
        exact(clamped(g, lo, hi), r).dims == exact(g, r).dims,
        exact(capped(g, hi), r).dims == exact(g, r).dims,
{
    lemma_agree_mapped(exact(g, r), exact(h, r), |v: real| limited(v, lo, hi));
    lemma_agree_mapped(exact(g, r), exact(h, r), |v: real| if v > hi as real { hi as real } else { v });
}

/// Combinations of two operands.
pub(crate) proof fn lemma_agree_binary(r: Reading, op: BinaryOp, g: Graph, h: Graph, p: Graph, q: Graph)
    requires
        agree(r, g, h),
        agree(r, p, q),
        broadcastable(exact(g, r).dims, exact(p, r).dims),
    ensures
        agree(r, Graph::Binary(op, Box::new(g), Box::new(p)), Graph::Binary(op, Box::new(h), Box::new(q))),
        exact(Graph::Binary(op, Box::new(g), Box::new(p)), r).dims == broadcast_shape(
            exact(g, r).dims,
            exact(p, r).dims,
        ),
{
    lemma_same_combined(op, exact(g, r), exact(h, r), exact(p, r), exact(q, r));
}

/// The same elements under another shape.
pub(crate) proof fn lemma_agree_reshaped(r: Reading, g: Graph, h: Graph, dims: Seq<usize>)
    requires
        agree(r, g, h),
        element_count(dims) == element_count(exact(g, r).dims),
    ensures
        agree(r, reshaped(g, dims), reshaped(h, dims)),
        exact(reshaped(g, dims), r).dims == dims,
{
    lemma_same_regrouped(exact(g, r), exact(h, r), dims);
}

/// Axes swapped.
pub(crate) proof fn lemma_agree_transposed(r: Reading, g: Graph, h: Graph, j: int, k: int)
    requires
        agree(r, g, h),
        0 <= j < exact(g, r).dims.len(),
        0 <= k < exact(g, r).dims.len(),
    ensures
        agree(r, transposed(g, j, k), transposed(h, j, k)),
        exact(transposed(g, j, k), r).dims == exact(g, r).dims.update(j, exact(g, r).dims[k]).update(
            k,
            exact(g, r).dims[j],
        ),
{
    lemma_same_turned(exact(g, r), exact(h, r), j, k);
}

/// Slices of an axis other than the first.
pub(crate) proof fn lemma_agree_narrowed(r: Reading, g: Graph, h: Graph, axis: int, start: int, len: int)
    requires
        agree(r, g, h),
        0 < axis < exact(g, r).dims.len(),
        0 <= start,
        0 <= len,
        start + len <= exact(g, r).dims[axis],
    ensures
        agree(r, narrowed(g, axis, start, len), narrowed(h, axis, start, len)),
        exact(narrowed(g, axis, start, len), r).dims == exact(g, r).dims.update(axis, len as usize),
{
    let (a, b) = (exact(g, r), exact(h, r));
    lemma_same_is_part(a, b);
    lemma_part_slice(a, b, axis, start, len, a.dims[0], 0);
    lemma_same_is_part(exact(narrowed(g, axis, start, len), r), exact(narrowed(h, axis, start, len), r));
}

/// Zeros, or the ends, put before and after along an axis other than the first.
pub(crate) proof fn lemma_agree_padded(r: Reading, g: Graph, h: Graph, axis: int, left: int, right: int)
    requires
        agree(r, g, h),
        0 < axis < exact(g, r).dims.len(),
        exact(g, r).dims[axis] >= 1,
        0 <= left,
        0 <= right,
        left + exact(g, r).dims[axis] + right <= usize::MAX,
    ensures
        agree(r, zero_padded(g, axis, left, right), zero_padded(h, axis, left, right)),
        agree(r, same_padded(g, axis, left, right), same_padded(h, axis, left, right)),
        exact(zero_padded(g, axis, left, right), r).dims == exact(g, r).dims.update(
            axis,
            (left + exact(g, r).dims[axis] + right) as usize,
        ),
        exact(same_padded(g, axis, left, right), r).dims == exact(zero_padded(g, axis, left, right), r).dims,
{
    let (a, b) = (exact(g, r), exact(h, r));
    lemma_same_is_part(a, b);
    lemma_part_padded(a, b, axis, left, right, a.dims[0], 0);
    lemma_same_is_part(exact(zero_padded(g, axis, left, right), r), exact(zero_padded(h, axis, left, right), r));
    lemma_same_is_part(exact(same_padded(g, axis, left, right), r), exact(same_padded(h, axis, left, right), r));
}

/// Convolutions.
pub(crate) proof fn lemma_agree_convolved(r: Reading, g: Graph, h: Graph, layer: ConvLayer)
    requires
        agree(r, g, h),
        exact(g, r).dims.len() == 3,
        exact(g, r).dims[1] == layer.in_channels,
    ensures
        agree(r, convolved(g, layer), convolved(h, layer)),
        exact(convolved(g, layer), r).dims == seq![
            exact(g, r).dims[0],
            layer.out_channels,
            conv_len(
                exact(g, r).dims[2] as int,
                layer.kernel as int,
                layer.padding as int,
                layer.stride as int,
                layer.dilation as int,
            ) as usize,
        ],
{
    let (a, b) = (exact(g, r), exact(h, r));
    let (w, v) = (exact(*layer.weight, r), bias_of(r, layer));
    lemma_same_is_part(a, b);
    lemma_part_convolution(a, b, w, v, layer, a.dims[0], 0);
    lemma_same_is_part(exact(convolved(g, layer), r), exact(convolved(h, layer), r));
}

/// Transposed convolutions.
pub(crate) proof fn lemma_agree_deconvolved(r: Reading, g: Graph, h: Graph, layer: ConvLayer)
    requires
        agree(r, g, h),
        exact(g, r).dims.len() == 3,
        exact(g, r).dims[1] == layer.in_channels,
    ensures
        agree(r, deconvolved(g, layer), deconvolved(h, layer)),
        exact(deconvolved(g, layer), r).dims == seq![
            exact(g, r).dims[0],
            layer.out_channels,
            conv_transpose_len(
                exact(g, r).dims[2] as int,
                layer.kernel as int,
                layer.padding as int,
                layer.stride as int,
                layer.dilation as int,
            ) as usize,
        ],
{
    let (a, b) = (exact(g, r), exact(h, r));
    let (w, v) = (exact(*layer.weight, r), bias_of(r, layer));
    lemma_same_is_part(a, b);
    lemma_part_transposed_convolution(a, b, w, v, layer, a.dims[0], 0);
    lemma_same_is_part(exact(deconvolved(g, layer), r), exact(deconvolved(h, layer), r));
}

/// Linear layers.
pub(crate) proof fn lemma_agree_linear(r: Reading, g: Graph, h: Graph, layer: LinearLayer)
    requires
        agree(r, g, h),
        exact(g, r).dims.len() >= 2,
        exact(g, r).dims.last() == layer.in_dim,
    ensures
        agree(r, Graph::Linear(Box::new(g), layer), Graph::Linear(Box::new(h), layer)),
        exact(Graph::Linear(Box::new(g), layer), r).dims == exact(g, r).dims.update(
            exact(g, r).dims.len() - 1,
            layer.out_dim,
        ),
{
    let (a, b) = (exact(g, r), exact(h, r));
    let (w, v) = (exact(*layer.weight, r), exact(*layer.bias, r));
    lemma_same_is_part(a, b);
    lemma_part_linear(a, b, w, v, layer, a.dims[0], 0);
    let (x, y) = (Graph::Linear(Box::new(g), layer), Graph::Linear(Box::new(h), layer));
    lemma_same_is_part(exact(x, r), exact(y, r));
}

/// Layer normalisations.
pub(crate) proof fn lemma_agree_normalised(r: Reading, g: Graph, h: Graph, layer: NormLayer)
    requires
        agree(r, g, h),
        exact(g, r).dims.len() >= 2,
    ensures
        agree(r, Graph::LayerNorm(Box::new(g), layer), Graph::LayerNorm(Box::new(h), layer)),
        exact(Graph::LayerNorm(Box::new(g), layer), r).dims == exact(g, r).dims,
{
    let (a, b) = (exact(g, r), exact(h, r));
    let (w, v) = (exact(*layer.weight, r), exact(*layer.bias, r));
    lemma_same_is_part(a, b);
    lemma_part_normalised(a, b, w, v, r.root, a.dims[0], 0);
    let (x, y) = (Graph::LayerNorm(Box::new(g), layer), Graph::LayerNorm(Box::new(h), layer));
    lemma_same_is_part(exact(x, r), exact(y, r));
}

/// The mean of all elements.
pub(crate) proof fn lemma_agree_mean(r: Reading, g: Graph, h: Graph)
    requires
        agree(r, g, h),
    ensures
        agree(r, total_mean(g), total_mean(h)),
        exact(total_mean(g), r).dims == Seq::<usize>::empty(),
{
    lemma_same_mean(exact(g, r), exact(h, r));
}

/// What is computed agrees with itself.
pub(crate) proof fn lemma_agree_itself(r: Reading, g: Graph)
    ensures
        agree(r, g, g),
{
}

} // verus!
