//! Laws on the speaker encoder: what its layers make of every number, and which of them it applies.

use crate::batch::lemma_position_within;
use crate::campplus::{
    are_embeddings, batch_norm, cam_layer, dense_block, dense_blocks, deviation, even_rows, evens, front_end,
    front_stages, is_embedding, lemma_block_entry, norm_relu, norm_scale, norm_shift, per_channel, pooled, res_block,
    segment_means,
};
use crate::exact::{
    added_up, chained, clipped, combined, convolution, exact, extents, function_of, joined,
    lemma_all_exact, lemma_same_total, mapped, padded_at, picked, position, regrouped, summed, total, within, Array,
    Reading,
};
use crate::formulas::lemma_position_of_three;
use crate::graph::{
    axis_mean, axis_sum, convolved, difference, indices, inverse, over, plus_inverse, product, quotient, reshaped, sum,
    unary, whole, BinaryOp, ConvLayer, Graph, UnaryOp,
};
use crate::layers::{conv_of, Scope};
use crate::spectra::lemma_position_of_two;
use crate::tensor::{broadcast_shape, conv_len, graph, pad_left, shape};
use crate::text::decimal;
use crate::values::{law_pooling_gives_segment_averages, lemma_over_reads, lemma_same_shape};
use candle_core::Tensor;
use vstd::prelude::*;

verus! {

/// The place of the value of a channel among one value per channel.
proof fn lemma_channel_position(channels: usize, rank: nat, i: Seq<int>)
    requires
        2 <= rank,
        i.len() == rank,
        0 <= i[1] < channels,
    ensures
        position(clipped(i, per_channel(channels, rank)), per_channel(channels, rank)) == i[1],
    decreases rank,
{
    let dims = per_channel(channels, rank);
    let at = clipped(i, dims);
    if rank == 2 {
        assert(dims =~= seq![1usize, channels]);
        assert(at =~= seq![0int, i[1]]) by {
            assert(channels == 1 ==> i[1] == 0);
        }
        lemma_position_of_two(1, channels, 0, i[1]);
        assert(0 * channels + i[1] == i[1]);
    } else {
        let l = (rank - 1) as nat;
        lemma_channel_position(channels, l, i.drop_last());
        assert(dims.drop_last() =~= per_channel(channels, l));
        assert(at.drop_last() =~= clipped(i.drop_last(), per_channel(channels, l)));
        assert(at.last() == 0 && dims.last() == 1);
        assert(position(at, dims) == position(at.drop_last(), dims.drop_last()) * dims.last() + at.last());
    }
}

/// One value per channel, read for an element of that channel.
proof fn lemma_channel_at(r: Reading, p: Graph, channels: usize, rank: nat, i: Seq<int>)
    requires
        exact(p, r).dims == seq![channels],
        2 <= rank,
        i.len() == rank,
        0 <= i[1] < channels,
    ensures
        exact(reshaped(p, per_channel(channels, rank)), r).dims == per_channel(channels, rank),
        (exact(reshaped(p, per_channel(channels, rank)), r).at)(clipped(i, per_channel(channels, rank))) == (exact(
            p,
            r,
        ).at)(seq![i[1]]),
{
    let dims = per_channel(channels, rank);
    let j = i[1];
    lemma_channel_position(channels, rank, i);
    assert(within(seq![j], seq![channels]));
    lemma_position_within(seq![j], seq![channels]);
    assert(position(seq![j], seq![channels]) == j) by {
        reveal_with_fuel(position, 2);
        assert(seq![j].drop_last() =~= Seq::<int>::empty());
        assert(seq![channels].drop_last() =~= Seq::<usize>::empty());
        assert(0 * channels == 0);
    }
    assert(exact(reshaped(p, dims), r) == regrouped(exact(p, r), dims));
}

/// Whether the parameters of a batch normalisation are one number per channel.
pub open spec fn norm_reads(r: Reading, s: Scope, channels: usize, affine: bool) -> bool {
    &&& exact(s.parameter("running_mean"@), r).dims == seq![channels]
    &&& exact(s.parameter("running_var"@), r).dims == seq![channels]
    &&& affine ==> exact(s.parameter("weight"@), r).dims == seq![channels] && exact(s.parameter("bias"@), r).dims
        == seq![channels]
}

/// What the factor of a batch normalisation comes to.
proof fn lemma_scale_reads(r: Reading, s: Scope, channels: usize, affine: bool, j: int)
    requires
        norm_reads(r, s, channels, affine),
        0 <= j < channels,
    ensures
        exact(norm_scale(s, affine), r).dims == seq![channels],
        ({
            let v = (exact(s.parameter("running_var"@), r).at)(seq![j]);
            let root = (r.root)(v + (1 as real) / (100_000 as real));
            (exact(norm_scale(s, affine), r).at)(seq![j]) == if affine {
                (exact(s.parameter("weight"@), r).at)(seq![j]) / root
            } else {
                (1 as real) / root
            }
        }),
{
    let raised = plus_inverse(s.parameter("running_var"@), 100_000);
    let (mul, add) = (exact(whole(1), r), exact(inverse(100_000), r));
    assert((mul.at)(Seq::empty()) == 1 as real && (add.at)(Seq::empty()) == (1 as real) / (100_000 as real)) by {
        reveal_with_fuel(exact, 4);
    }
    let v = (exact(s.parameter("running_var"@), r).at)(seq![j]);
    assert((exact(raised, r).at)(seq![j]) == v * (1 as real) + (1 as real) / (100_000 as real));
    let d = exact(deviation(s), r);
    assert(d == mapped(exact(raised, r), function_of(r, UnaryOp::Sqrt)));
    assert(d.dims == seq![channels]);
    let dims = seq![channels];
    lemma_same_shape(dims);
    assert(clipped(seq![j], dims) =~= seq![j]);
    if affine {
        let w = s.parameter("weight"@);
        assert(exact(quotient(w, deviation(s)), r) == combined(BinaryOp::Quotient, exact(w, r), d));
    } else {
        assert(exact(unary(UnaryOp::Recip, deviation(s)), r) == mapped(d, function_of(r, UnaryOp::Recip)));
    }
}

/// What the summand of a batch normalisation comes to.
proof fn lemma_shift_reads(r: Reading, s: Scope, channels: usize, affine: bool, j: int)
    requires
        norm_reads(r, s, channels, affine),
        0 <= j < channels,
    ensures
        exact(norm_shift(s, affine), r).dims == seq![channels],
        ({
            let moved = (exact(s.parameter("running_mean"@), r).at)(seq![j]) * (exact(norm_scale(s, affine), r).at)(
                seq![j],
            );
            (exact(norm_shift(s, affine), r).at)(seq![j]) == if affine {
                (exact(s.parameter("bias"@), r).at)(seq![j]) - moved
            } else {
                (0 as real) - moved
            }
        }),
{
    lemma_scale_reads(r, s, channels, affine, j);
    let (mean, scale) = (s.parameter("running_mean"@), norm_scale(s, affine));
    let moved = product(mean, scale);
    let dims = seq![channels];
    lemma_same_shape(dims);
    assert(clipped(seq![j], dims) =~= seq![j]);
    assert(exact(moved, r) == combined(BinaryOp::Product, exact(mean, r), exact(scale, r)));
    assert(exact(moved, r).dims == dims);
    if affine {
        let b = s.parameter("bias"@);
        assert(exact(difference(b, moved), r) == combined(BinaryOp::Difference, exact(b, r), exact(moved, r)));
    } else {
        assert(exact(unary(UnaryOp::Neg, moved), r) == mapped(exact(moved, r), function_of(r, UnaryOp::Neg)));
    }
}

/// Batch normalisation takes the running mean of its channel from every number, divides by the square root
/// of the running variance plus 1e-5, and where it has a weight and a bias, multiplies by the one and adds
/// the other.
pub proof fn law_batch_norm_formula(
    r: Reading,
    s: Scope,
    channels: usize,
    affine: bool,
    x: Graph,
    rank: nat,
    i: Seq<int>,
)
    requires
        2 <= rank,
        exact(x, r).dims.len() == rank,
        exact(x, r).dims[1] == channels,
        norm_reads(r, s, channels, affine),
        within(i, exact(x, r).dims),
        (r.root)((exact(s.parameter("running_var"@), r).at)(seq![i[1]]) + (1 as real) / (100_000 as real)) != 0
            as real,
    ensures
        exact(batch_norm(s, channels, affine, x, rank), r).dims == exact(x, r).dims,
        ({
            let of = |name: Seq<char>| (exact(s.parameter(name), r).at)(seq![i[1]]);
            let root = (r.root)(of("running_var"@) + (1 as real) / (100_000 as real));
            let v = ((exact(x, r).at)(i) - of("running_mean"@)) / root;
            (exact(batch_norm(s, channels, affine, x, rank), r).at)(i) == if affine {
                v * of("weight"@) + of("bias"@)
            } else {
                v
            }
        }),
{
    let (dims, all) = (per_channel(channels, rank), exact(x, r).dims);
    let j = i[1];
    assert(0 <= i[1] < all[1]);
    lemma_scale_reads(r, s, channels, affine, j);
    lemma_shift_reads(r, s, channels, affine, j);
    let (scale, shift) = (norm_scale(s, affine), norm_shift(s, affine));
    lemma_channel_at(r, scale, channels, rank, i);
    lemma_channel_at(r, shift, channels, rank, i);
    assert(pad_left(all, rank) =~= all && pad_left(dims, rank) =~= dims);
    assert(broadcast_shape(all, dims) =~= all);
    assert(clipped(i, all) =~= i) by {
        assert forall|k: int| 0 <= k < rank implies #[trigger] clipped(i, all)[k] == i[k] by {
            assert(0 <= i[k] < all[k]);
        }
    }
    let scaled = product(x, reshaped(scale, dims));
    assert(exact(scaled, r) == combined(BinaryOp::Product, exact(x, r), exact(reshaped(scale, dims), r)));
    assert(exact(scaled, r).dims == all);
    let moved = sum(scaled, reshaped(shift, dims));
    assert(exact(moved, r) == combined(BinaryOp::Sum, exact(scaled, r), exact(reshaped(shift, dims), r)));
    assert(batch_norm(s, channels, affine, x, rank) == moved);
    let (v, m) = ((exact(x, r).at)(i), (exact(s.parameter("running_mean"@), r).at)(seq![j]));
    let root = (r.root)((exact(s.parameter("running_var"@), r).at)(seq![j]) + (1 as real) / (100_000 as real));
    if affine {
        let (w, a) = ((exact(s.parameter("weight"@), r).at)(seq![j]), (exact(s.parameter("bias"@), r).at)(seq![j]));
        assert(v * (w / root) + (a - m * (w / root)) == (v - m) / root * w + a) by (nonlinear_arith)
            requires
                root != 0 as real,
        ;
    } else {
        assert(v * ((1 as real) / root) + ((0 as real) - m * ((1 as real) / root)) == (v - m) / root)
            by (nonlinear_arith)
            requires
                root != 0 as real,
        ;
    }
}

/// Row `i` of the even rows is row `2 i`, for every number of rows.
pub proof fn law_even_rows_are_every_second_row(r: Reading, x: Graph, h: nat, at: Seq<int>)
    requires
        exact(x, r).dims.len() == 4,
        exact(x, r).dims[2] == h <= u32::MAX,
        at.len() == 4,
        0 <= at[2] < (h + 1) / 2,
    ensures
        exact(even_rows(x, h), r).dims == exact(x, r).dims.update(2, ((h + 1) / 2) as usize),
        (exact(even_rows(x, h), r).at)(at) == (exact(x, r).at)(seq![at[0], at[1], 2 * at[2], at[3]]),
{
    let v = evens(h);
    let list = Seq::new(v.len(), |i: int| v[i] as int);
    assert(indices(v) == Graph::Integers(list));
    assert(exact(even_rows(x, h), r) == picked(exact(x, r), list, 2));
    assert(list[at[2]] == 2 * at[2]);
    assert(at.update(2, 2 * at[2]) =~= seq![at[0], at[1], 2 * at[2], at[3]]);
}

/// What a 1x1 convolution with a bias comes to.
proof fn lemma_point_reads(
    r: Reading,
    s: Scope,
    m: usize,
    n: usize,
    x: Graph,
    b: usize,
    t: usize,
    i: int,
    j: int,
    k: int,
)
    requires
        exact(x, r).dims == seq![b, m, t],
        1 <= t,
        0 <= k < t,
    ensures
        exact(convolved(x, conv_of(s, true, m, n, 1, 0, 1, 1)), r).dims == seq![b, n, t],
        (exact(convolved(x, conv_of(s, true, m, n, 1, 0, 1, 1)), r).at)(seq![i, j, k]) == (exact(
            s.parameter("bias"@),
            r,
        ).at)(seq![j]) + total(
            |c: int| (exact(s.parameter("weight"@), r).at)(seq![j, c, 0int]) * (exact(x, r).at)(seq![i, c, k]),
            m as nat,
        ),
{
    let layer = conv_of(s, true, m, n, 1, 0, 1, 1);
    let (xa, w, v) = (exact(x, r), exact(s.parameter("weight"@), r), exact(s.parameter("bias"@), r));
    let y = exact(convolved(x, layer), r);
    assert(y == convolution(xa, w, v, layer));
    assert(conv_len(t as int, 1, 0, 1, 1) == t);
    assert(y.dims =~= seq![b, n, t]);
    let at = seq![i, j, k];
    let f = |c: int|
        total(
            |l: int| (w.at)(seq![at[1], c, l]) * padded_at(
                xa,
                at[0],
                c,
                at[2] * layer.stride + l * layer.dilation - layer.padding,
            ),
            layer.kernel as nat,
        );
    let g = |c: int| (w.at)(seq![j, c, 0int]) * (xa.at)(seq![i, c, k]);
    assert forall|c: int| 0 <= c < m implies #[trigger] f(c) == g(c) by {
        let h = |l: int| (w.at)(seq![at[1], c, l]) * padded_at(
            xa,
            at[0],
            c,
            at[2] * layer.stride + l * layer.dilation - layer.padding,
        );
        assert(f(c) == total(h, 1));
        assert(total(h, 1) == total(h, 0) + h(0)) by {
            reveal_with_fuel(total, 2);
        }
        assert(at[2] * layer.stride + 0 * layer.dilation - layer.padding == k);
    }
    lemma_same_total(f, g, m as nat);
}

/// What the context of a frame comes to: the mean over all frames and the mean over its segment.
proof fn lemma_context_reads(r: Reading, z: Graph, b: usize, m: usize, t: usize, i: int, c: int, k: int)
    requires
        exact(z, r).dims == seq![b, m, t],
        1 <= t,
        0 <= i < b,
        0 <= c < m,
        0 <= k < t,
    ensures
        ({
            let context = sum(axis_mean(z, 2, true), segment_means(z, b, m, t as nat, 100));
            let of = |f: int| (exact(z, r).at)(seq![i, c, f]);
            let start = 100 * (k / 100);
            let len = if t - start < 100 { t - start } else { 100 };
            &&& exact(context, r).dims == seq![b, m, t]
            &&& (exact(context, r).at)(seq![i, c, k]) == total(of, t as nat) / (t as real) + total(
                |f: int| of(start + f),
                len as nat,
            ) / (len as real)
        }),
{
    let (mean, means) = (axis_mean(z, 2, true), segment_means(z, b, m, t as nat, 100));
    let of = |f: int| (exact(z, r).at)(seq![i, c, f]);
    let at = seq![i, c, k];
    assert(within(at, seq![b, m, t]));
    law_pooling_gives_segment_averages(r, z, b, m, t, 100, at);
    let g = |f: int| (exact(z, r).at)(seq![at[0], at[1], f]);
    let start = 100 * (k / 100);
    let len = if t - start < 100 { t - start } else { 100 };
    let p = |f: int| g((k / 100) * 100 + f);
    let q = |f: int| of(start + f);
    lemma_same_total(p, q, len as nat);
    let za = exact(z, r);
    let one = seq![b, m, 1usize];
    let ma = exact(mean, r);
    assert(ma.dims =~= one);
    let first = seq![i, c, 0int];
    assert(clipped(at, one) =~= first);
    let row = |f: int| (za.at)(first.update(2, f));
    assert forall|f: int| 0 <= f < t implies #[trigger] row(f) == of(f) by {
        assert(first.update(2, f) =~= seq![i, c, f]);
    }
    lemma_same_total(row, of, t as nat);
    assert((summed(za, 2).at)(first) == total(row, t as nat));
    assert((ma.at)(first) == total(of, t as nat) / (t as real));
    let all = seq![b, m, t];
    assert(pad_left(one, 3) =~= one && pad_left(all, 3) =~= all);
    assert(broadcast_shape(one, all) =~= all);
    assert(clipped(at, all) =~= at);
    assert(exact(sum(mean, means), r) == combined(BinaryOp::Sum, ma, exact(means, r)));
}

/// A context-aware layer multiplies a local convolution of its bottleneck by a mask: a sigmoid of a linear
/// map of a rectified linear map of the context. The context of frame `k` is the mean over all frames and
/// the mean over those from `100 (k / 100)` on, a hundred of them or as many as there are.
pub proof fn law_context_layer_formula(
    r: Reading,
    s: Scope,
    in_channels: usize,
    out_channels: usize,
    bn_channels: usize,
    kernel: usize,
    dilation: usize,
    x: Graph,
    b: usize,
    t: usize,
    i: int,
    j: int,
    k: int,
)
    requires
        exact(x, r).dims == seq![b, in_channels, t],
        norm_reads(r, s.at("nonlinear1.batchnorm"@), in_channels, true),
        norm_reads(r, s.at("nonlinear2.batchnorm"@), bn_channels, true),
        1 <= in_channels,
        1 <= bn_channels,
        1 <= kernel,
        (kernel - 1) / 2 * dilation <= usize::MAX,
        conv_len(t as int, kernel as int, (kernel - 1) / 2 * dilation, 1, dilation as int) == t,
        1 <= t,
        0 <= i < b,
        0 <= j < out_channels,
        0 <= k < t,
    ensures
        ({
            let cam = s.at("cam_layer"@);
            let y = cam_layer(s, in_channels, out_channels, bn_channels, kernel, dilation, x, b, t);
            let narrow = Graph::Conv1d(
                Box::new(
                    Graph::Unary(
                        UnaryOp::Relu,
                        Box::new(batch_norm(s.at("nonlinear1.batchnorm"@), in_channels, true, x, 3)),
                    ),
                ),
                (ConvLayer {
                    weight: Box::new(s.at("linear1"@).parameter("weight"@)),
                    bias: None,
                    in_channels,
                    out_channels: bn_channels,
                    kernel: 1,
                    padding: 0,
                    stride: 1,
                    dilation: 1,
                }),
            );
            let z = Graph::Unary(
                UnaryOp::Relu,
                Box::new(batch_norm(s.at("nonlinear2.batchnorm"@), bn_channels, true, narrow, 3)),
            );
            let local = Graph::Conv1d(
                Box::new(z),
                (ConvLayer {
                    weight: Box::new(cam.at("linear_local"@).parameter("weight"@)),
                    bias: None,
                    in_channels: bn_channels,
                    out_channels,
                    kernel,
                    padding: ((kernel - 1) / 2 * dilation) as usize,
                    stride: 1,
                    dilation,
                }),
            );
            let v = |name: Seq<char>, level: Seq<char>, at: Seq<int>| (exact(cam.at(level).parameter(name), r).at)(at);
            let of = |c: int, f: int| (exact(z, r).at)(seq![i, c, f]);
            let start = 100 * (k / 100);
            let len = if t - start < 100 { t - start } else { 100 };
            let context = |c: int|
                total(|f: int| of(c, f), t as nat) / (t as real) + total(|f: int| of(c, start + f), len as nat) / (
                len as real);
            let hidden = |m: int| {
                let h = v("bias"@, "linear1"@, seq![m]) + total(
                    |c: int| v("weight"@, "linear1"@, seq![m, c, 0int]) * context(c),
                    bn_channels as nat,
                );
                if h > 0 as real { h } else { 0 as real }
            };
            let mask = (r.function)(
                UnaryOp::Sigmoid,
                v("bias"@, "linear2"@, seq![j]) + total(
                    |m: int| v("weight"@, "linear2"@, seq![j, m, 0int]) * hidden(m),
                    (bn_channels / 2) as nat,
                ),
            );
            &&& exact(y, r).dims == seq![b, out_channels, t]
            &&& (exact(y, r).at)(seq![i, j, k]) == (exact(local, r).at)(seq![i, j, k]) * mask
        }),
{
    let cam = s.at("cam_layer"@);
    let half = bn_channels / 2;
    let inner = norm_relu(s.at("nonlinear1.batchnorm"@), in_channels, x, 3);
    let narrow = convolved(inner, conv_of(s.at("linear1"@), false, in_channels, bn_channels, 1, 0, 1, 1));
    let z = norm_relu(s.at("nonlinear2.batchnorm"@), bn_channels, narrow, 3);
    let padding = ((kernel - 1) / 2 * dilation) as usize;
    let layer = conv_of(cam.at("linear_local"@), false, bn_channels, out_channels, kernel, padding, 1, dilation);
    let local = convolved(z, layer);
    let context = sum(axis_mean(z, 2, true), segment_means(z, b, bn_channels, t as nat, 100));
    let one = convolved(context, conv_of(cam.at("linear1"@), true, bn_channels, half, 1, 0, 1, 1));
    let hidden = unary(UnaryOp::Relu, one);
    let two = convolved(hidden, conv_of(cam.at("linear2"@), true, half, out_channels, 1, 0, 1, 1));
    let mask = unary(UnaryOp::Sigmoid, two);
    lemma_norm_keeps_the_shape(r, s.at("nonlinear1.batchnorm"@), in_channels, x, b, t);
    assert(exact(inner, r).dims == seq![b, in_channels, t]);
    assert(conv_len(t as int, 1, 0, 1, 1) == t);
    assert(exact(narrow, r).dims =~= seq![b, bn_channels, t]);
    lemma_norm_keeps_the_shape(r, s.at("nonlinear2.batchnorm"@), bn_channels, narrow, b, t);
    assert(exact(z, r).dims == seq![b, bn_channels, t]);
    assert(exact(local, r).dims =~= seq![b, out_channels, t]);
    let v = |name: Seq<char>, level: Seq<char>, at: Seq<int>| (exact(cam.at(level).parameter(name), r).at)(at);
    let of = |c: int, f: int| (exact(z, r).at)(seq![i, c, f]);
    let start = 100 * (k / 100);
    let len = if t - start < 100 { t - start } else { 100 };
    let around = |c: int|
        total(|f: int| of(c, f), t as nat) / (t as real) + total(|f: int| of(c, start + f), len as nat) / (len as real);
    let bent = |m: int| {
        let h = v("bias"@, "linear1"@, seq![m]) + total(
            |c: int| v("weight"@, "linear1"@, seq![m, c, 0int]) * around(c),
            bn_channels as nat,
        );
        if h > 0 as real { h } else { 0 as real }
    };
    lemma_context_reads(r, z, b, bn_channels, t, i, 0, k);
    assert forall|c: int| 0 <= c < bn_channels implies (exact(context, r).at)(seq![i, c, k]) == #[trigger] around(
        c,
    ) by {
        lemma_context_reads(r, z, b, bn_channels, t, i, c, k);
        let f0 = |f: int| (exact(z, r).at)(seq![i, c, f]);
        lemma_same_total(f0, |f: int| of(c, f), t as nat);
        lemma_same_total(|f: int| f0(start + f), |f: int| of(c, start + f), len as nat);
    }
    lemma_point_reads(r, cam.at("linear1"@), bn_channels, half, context, b, t, i, 0, k);
    assert forall|m: int| 0 <= m < half implies (exact(hidden, r).at)(seq![i, m, k]) == #[trigger] bent(m) by {
        lemma_point_reads(r, cam.at("linear1"@), bn_channels, half, context, b, t, i, m, k);
        let f = |c: int|
            (exact(cam.at("linear1"@).parameter("weight"@), r).at)(seq![m, c, 0int]) * (exact(context, r).at)(
                seq![i, c, k],
            );
        let g = |c: int| v("weight"@, "linear1"@, seq![m, c, 0int]) * around(c);
        assert forall|c: int| 0 <= c < bn_channels implies #[trigger] f(c) == g(c) by {
            assert((exact(context, r).at)(seq![i, c, k]) == around(c));
        }
        lemma_same_total(f, g, bn_channels as nat);
        assert(exact(hidden, r) == mapped(exact(one, r), function_of(r, UnaryOp::Relu)));
    }
    assert(exact(hidden, r).dims == seq![b, half, t]);
    lemma_point_reads(r, cam.at("linear2"@), half, out_channels, hidden, b, t, i, j, k);
    let f = |m: int|
        (exact(cam.at("linear2"@).parameter("weight"@), r).at)(seq![j, m, 0int]) * (exact(hidden, r).at)(
            seq![i, m, k],
        );
    let g = |m: int| v("weight"@, "linear2"@, seq![j, m, 0int]) * bent(m);
    assert forall|m: int| 0 <= m < half implies #[trigger] f(m) == g(m) by {
        assert((exact(hidden, r).at)(seq![i, m, k]) == bent(m));
    }
    lemma_same_total(f, g, half as nat);
    assert(exact(mask, r) == mapped(exact(two, r), function_of(r, UnaryOp::Sigmoid)));
    let dims = seq![b, out_channels, t];
    lemma_same_shape(dims);
    assert(clipped(seq![i, j, k], dims) =~= seq![i, j, k]);
    assert(cam_layer(s, in_channels, out_channels, bn_channels, kernel, dilation, x, b, t) == product(local, mask));
    assert(exact(product(local, mask), r) == combined(BinaryOp::Product, exact(local, r), exact(mask, r)));
}

/// Frames of one hundred share their context, and so their mask: the outputs of a context-aware layer at two
/// such frames are to each other as the local convolutions there are.
pub proof fn law_frames_of_one_hundred_share_their_mask(
    r: Reading,
    s: Scope,
    in_channels: usize,
    dilation: usize,
    x: Graph,
    b: usize,
    t: usize,
    i: int,
    j: int,
    k: int,
    l: int,
)
    requires
        exact(x, r).dims == seq![b, in_channels, t],
        norm_reads(r, s.at("nonlinear1.batchnorm"@), in_channels, true),
        norm_reads(r, s.at("nonlinear2.batchnorm"@), 128, true),
        1 <= in_channels,
        1 <= dilation <= 2,
        0 <= i < b,
        0 <= j < 32,
        0 <= k < t,
        0 <= l < t,
        k / 100 == l / 100,
    ensures
        ({
            let y = exact(cam_layer(s, in_channels, 32, 128, 3, dilation, x, b, t), r);
            let local = exact(local_part(s, in_channels, dilation, x), r);
            (y.at)(seq![i, j, k]) * (local.at)(seq![i, j, l]) == (y.at)(seq![i, j, l]) * (local.at)(seq![i, j, k])
        }),
{
    assert(conv_len(t as int, 3, (3 - 1) / 2 * dilation as int, 1, dilation as int) == t);
    law_context_layer_formula(r, s, in_channels, 32, 128, 3, dilation, x, b, t, i, j, k);
    law_context_layer_formula(r, s, in_channels, 32, 128, 3, dilation, x, b, t, i, j, l);
    let y = exact(cam_layer(s, in_channels, 32, 128, 3, dilation, x, b, t), r);
    let local = exact(local_part(s, in_channels, dilation, x), r);
    let (p, q) = ((local.at)(seq![i, j, k]), (local.at)(seq![i, j, l]));
    let (u, v) = ((y.at)(seq![i, j, k]), (y.at)(seq![i, j, l]));
    let z = *local_part(s, in_channels, dilation, x)->Conv1d_0;
    let start = 100 * (k / 100);
    let len = if t - start < 100 { t - start } else { 100 };
    let mask = mask_of(r, s.at("cam_layer"@), z, t, start, len, i, j);
    assert(u == p * mask);
    assert(v == q * mask);
    assert(u * q == v * p) by (nonlinear_arith)
        requires
            u == p * mask,
            v == q * mask,
    ;
}

/// The mask of the frames from `start` on, `len` of them.
spec fn mask_of(r: Reading, cam: Scope, z: Graph, t: usize, start: int, len: int, i: int, j: int) -> real {
    let v = |name: Seq<char>, level: Seq<char>, at: Seq<int>| (exact(cam.at(level).parameter(name), r).at)(at);
    let of = |c: int, f: int| (exact(z, r).at)(seq![i, c, f]);
    let context = |c: int|
        total(|f: int| of(c, f), t as nat) / (t as real) + total(|f: int| of(c, start + f), len as nat) / (len as real);
    let hidden = |m: int|
        {
            let h = v("bias"@, "linear1"@, seq![m]) + total(
                |c: int| v("weight"@, "linear1"@, seq![m, c, 0int]) * context(c),
                128,
            );
            if h > 0 as real { h } else { 0 as real }
        };
    (r.function)(
        UnaryOp::Sigmoid,
        v("bias"@, "linear2"@, seq![j]) + total(
            |m: int| v("weight"@, "linear2"@, seq![j, m, 0int]) * hidden(m),
            64,
        ),
    )
}

/// The local convolution of a context-aware layer.
pub open spec fn local_part(s: Scope, in_channels: usize, dilation: usize, x: Graph) -> Graph {
    let narrow = Graph::Conv1d(
        Box::new(
            Graph::Unary(
                UnaryOp::Relu,
                Box::new(batch_norm(s.at("nonlinear1.batchnorm"@), in_channels, true, x, 3)),
            ),
        ),
        (ConvLayer {
            weight: Box::new(s.at("linear1"@).parameter("weight"@)),
            bias: None,
            in_channels,
            out_channels: 128,
            kernel: 1,
            padding: 0,
            stride: 1,
            dilation: 1,
        }),
    );
    let z = Graph::Unary(
        UnaryOp::Relu,
        Box::new(batch_norm(s.at("nonlinear2.batchnorm"@), 128, true, narrow, 3)),
    );
    Graph::Conv1d(
        Box::new(z),
        (ConvLayer {
            weight: Box::new(s.at("cam_layer"@).at("linear_local"@).parameter("weight"@)),
            bias: None,
            in_channels: 128,
            out_channels: 32,
            kernel: 3,
            padding: dilation,
            stride: 1,
            dilation,
        }),
    )
}

/// A batch normalisation and a rectifier keep the shape.
proof fn lemma_norm_keeps_the_shape(r: Reading, s: Scope, channels: usize, x: Graph, b: usize, t: usize)
    requires
        exact(x, r).dims == seq![b, channels, t],
        norm_reads(r, s, channels, true),
        1 <= channels,
    ensures
        exact(norm_relu(s, channels, x, 3), r).dims == seq![b, channels, t],
{
    let (dims, all) = (per_channel(channels, 3), seq![b, channels, t]);
    lemma_scale_reads(r, s, channels, true, 0);
    lemma_shift_reads(r, s, channels, true, 0);
    let (scale, shift) = (norm_scale(s, true), norm_shift(s, true));
    assert(pad_left(all, 3) =~= all && pad_left(dims, 3) =~= dims);
    assert(broadcast_shape(all, dims) =~= all);
    let scaled = product(x, reshaped(scale, dims));
    assert(exact(scaled, r) == combined(BinaryOp::Product, exact(x, r), exact(reshaped(scale, dims), r)));
    let moved = sum(scaled, reshaped(shift, dims));
    assert(exact(moved, r) == combined(BinaryOp::Sum, exact(scaled, r), exact(reshaped(shift, dims), r)));
    assert(batch_norm(s, channels, true, x, 3) == moved);
}

/// A residual block of stride 1 adds to its input what two 3x3 convolutions, with a batch normalisation after
/// each and a rectifier between them, make of it; one of stride 2 does so on every second row, and adds to a
/// normalised 1x1 convolution of its input. Both end in a rectifier.
pub proof fn law_residual_block_is_two_convolutions(s: Scope, planes: usize, x: Graph, h: nat)
    ensures
        ({
            let one = Graph::Conv2d(
                Box::new(x),
                (ConvLayer {
                    weight: Box::new(s.at("conv1"@).parameter("weight"@)),
                    bias: None,
                    in_channels: planes,
                    out_channels: planes,
                    kernel: 3,
                    padding: 1,
                    stride: 1,
                    dilation: 1,
                }),
            );
            let two = |y: Graph| Graph::Conv2d(
                Box::new(Graph::Unary(UnaryOp::Relu, Box::new(batch_norm(s.at("bn1"@), planes, true, y, 4)))),
                (ConvLayer {
                    weight: Box::new(s.at("conv2"@).parameter("weight"@)),
                    bias: None,
                    in_channels: planes,
                    out_channels: planes,
                    kernel: 3,
                    padding: 1,
                    stride: 1,
                    dilation: 1,
                }),
            );
            let side = Graph::Conv2d(
                Box::new(x),
                (ConvLayer {
                    weight: Box::new(s.at("shortcut.0"@).parameter("weight"@)),
                    bias: None,
                    in_channels: planes,
                    out_channels: planes,
                    kernel: 1,
                    padding: 0,
                    stride: 1,
                    dilation: 1,
                }),
            );
            let rows = |y: Graph|
                Graph::Select {
                    x: Box::new(y),
                    indices: Box::new(Graph::Integers(Seq::new((h + 1) as nat / 2, |i: int| ((2 * i) as u32) as int))),
                    axis: 2,
                };
            let joined = |y: Graph, z: Graph|
                Graph::Unary(
                    UnaryOp::Relu,
                    Box::new(
                        Graph::Binary(
                            BinaryOp::Sum,
                            Box::new(batch_norm(s.at("bn2"@), planes, true, two(y), 4)),
                            Box::new(z),
                        ),
                    ),
                );
            &&& res_block(s, planes, 1, x, h) == joined(one, x)
            &&& res_block(s, planes, 2, x, h) == joined(
                rows(one),
                batch_norm(s.at("shortcut.1"@), planes, true, rows(side), 4),
            )
        }),
{
    let v = evens(h);
    assert(Seq::new(v.len(), |i: int| v[i] as int) =~= Seq::new(
        (h + 1) as nat / 2,
        |i: int| ((2 * i) as u32) as int,
    ));
}

/// The front-end takes its input as an image of one channel. After a convolution to 32 channels come four
/// residual blocks, the first and the third of stride 2, and a convolution of which every second row is kept.
/// The rows of all channels then become the channels.
pub proof fn law_front_end_is_made_of_four_blocks(s: Scope, x: Graph, b: usize, f: usize, t: usize)
    ensures
        ({
            let up = |h: usize| (h / 2 + h % 2) as usize;
            let image = Graph::Reshape(Box::new(x), seq![b, 1usize, f, t]);
            let wide = Graph::Conv2d(
                Box::new(image),
                (ConvLayer {
                    weight: Box::new(s.at("conv1"@).parameter("weight"@)),
                    bias: None,
                    in_channels: 1,
                    out_channels: 32,
                    kernel: 3,
                    padding: 1,
                    stride: 1,
                    dilation: 1,
                }),
            );
            let first = Graph::Unary(UnaryOp::Relu, Box::new(batch_norm(s.at("bn1"@), 32, true, wide, 4)));
            let one = res_block(s.at("layer1.0"@), 32, 2, first, f as nat);
            let two = res_block(s.at("layer1.1"@), 32, 1, one, up(f) as nat);
            let three = res_block(s.at("layer2.0"@), 32, 2, two, up(f) as nat);
            let four = res_block(s.at("layer2.1"@), 32, 1, three, up(up(f)) as nat);
            let last = Graph::Conv2d(
                Box::new(four),
                (ConvLayer {
                    weight: Box::new(s.at("conv2"@).parameter("weight"@)),
                    bias: None,
                    in_channels: 32,
                    out_channels: 32,
                    kernel: 3,
                    padding: 1,
                    stride: 1,
                    dilation: 1,
                }),
            );
            let kept = even_rows(last, up(up(f)) as nat);
            front_end(s, x, b, f, t) == Graph::Reshape(
                Box::new(Graph::Unary(UnaryOp::Relu, Box::new(batch_norm(s.at("bn2"@), 32, true, kept, 4)))),
                seq![b, (32 * up(up(up(f)))) as usize, t],
            )
        }),
{
    reveal_with_fuel(front_stages, 5);
}

/// Every layer of dense block `i`, under its own number, puts 32 channels after what comes of the layers
/// before it. The block starts with 128, 256 or 512 channels and its local convolutions, of kernel 3, have
/// dilation 1 in the first block and 2 in the others.
pub proof fn law_every_layer_adds_its_channels(xv: Scope, i: nat, l: nat, x: Graph, b: usize, t: usize)
    requires
        i < 3,
    ensures
        dense_block(xv, i, 0, x, b, t) == x,
        ({
            let prev = dense_block(xv, i, l, x, b, t);
            let channels = if i == 0 { 128 + 32 * l } else if i == 1 { 256 + 32 * l } else { 512 + 32 * l };
            let added = cam_layer(
                xv.at("block"@ + decimal(i + 1)).at("tdnnd"@ + decimal(l + 1)),
                channels as usize,
                32,
                128,
                3,
                if i == 0 { 1 } else { 2 },
                prev,
                b,
                t,
            );
            dense_block(xv, i, l + 1, x, b, t) == Graph::Concat(seq![prev, added], 1)
        }),
{
    lemma_block_entry();
    reveal_with_fuel(dense_block, 2);
}

/// Every dense block works on what comes of the blocks before it: 12, 24 and 16 layers, and a transit
/// layer, which halves the channels.
pub proof fn law_every_dense_block_follows(xv: Scope, i: nat, x: Graph, b: usize, t: usize)
    requires
        i < 3,
    ensures
        dense_blocks(xv, 0, x, b, t) == x,
        ({
            let layers: nat = if i == 0 { 12 } else if i == 1 { 24 } else { 16 };
            let channels: usize = if i == 0 { 512 } else { 1024 };
            let half: usize = if i == 0 { 256 } else { 512 };
            let dense = dense_block(xv, i, layers, dense_blocks(xv, i, x, b, t), b, t);
            let scope = xv.at("transit"@ + decimal(i + 1));
            dense_blocks(xv, i + 1, x, b, t) == Graph::Conv1d(
                Box::new(
                    Graph::Unary(
                        UnaryOp::Relu,
                        Box::new(batch_norm(scope.at("nonlinear.batchnorm"@), channels, true, dense, 3)),
                    ),
                ),
                (ConvLayer {
                    weight: Box::new(scope.at("linear"@).parameter("weight"@)),
                    bias: None,
                    in_channels: channels,
                    out_channels: half,
                    kernel: 1,
                    padding: 0,
                    stride: 1,
                    dilation: 1,
                }),
            )
        }),
{
    lemma_block_entry();
    reveal_with_fuel(dense_blocks, 2);
}

/// Pooling gives the mean of every channel over the frames, and after these the deviations: the square root
/// of the sum of squared distances from the mean over one less than the number of frames.
pub proof fn law_pooling_gives_means_and_deviations(r: Reading, x: Graph, b: usize, t: usize, i: int, j: int)
    requires
        exact(x, r).dims == seq![b, 512usize, t],
        0 <= i < b,
        0 <= j < 512,
        1 <= t,
    ensures
        exact(pooled(x, b, t), r).dims == seq![b, 1024usize],
        ({
            let of = |f: int| (exact(x, r).at)(seq![i, j, f]);
            let mean = total(of, t as nat) / (t as real);
            let spread = total(|f: int| (of(f) - mean) * (of(f) - mean), t as nat);
            &&& (exact(pooled(x, b, t), r).at)(seq![i, j]) == mean
            &&& (exact(pooled(x, b, t), r).at)(seq![i, j + 512]) == (r.root)(
                spread * ((1 as real) / ((t - 1) as real)),
            )
        }),
{
    let of = |f: int| (exact(x, r).at)(seq![i, j, f]);
    let mean = total(of, t as nat) / (t as real);
    let spread = total(|f: int| (of(f) - mean) * (of(f) - mean), t as nat);
    let xa = exact(x, r);
    let (flat, dims, all) = (seq![b, 512usize], seq![b, 512usize, 1usize], seq![b, 512usize, t]);
    let middle = axis_mean(x, 2, false);
    let ma = exact(middle, r);
    assert(ma.dims =~= flat);
    let at = seq![i, j];
    let row = |f: int| (xa.at)(at.insert(2, f));
    assert forall|f: int| 0 <= f < t implies #[trigger] row(f) == of(f) by {
        assert(at.insert(2, f) =~= seq![i, j, f]);
    }
    lemma_same_total(row, of, t as nat);
    assert((added_up(xa, 2).at)(at) == total(row, t as nat));
    assert((ma.at)(at) == mean);
    let column = reshaped(middle, dims);
    let ca = exact(column, r);
    assert(ca == regrouped(ma, dims));
    lemma_position_of_three(b, 512, 1, i, j, 0);
    lemma_position_of_two(b, 512, i, j);
    assert(within(at, flat));
    lemma_position_within(at, flat);
    assert((ca.at)(seq![i, j, 0int]) == mean);
    let centred = difference(x, column);
    let da = exact(centred, r);
    assert(pad_left(dims, 3) =~= dims && pad_left(all, 3) =~= all);
    assert(broadcast_shape(all, dims) =~= all);
    assert(da == combined(BinaryOp::Difference, xa, ca));
    let squares = unary(UnaryOp::Sqr, centred);
    let sa = exact(squares, r);
    assert(sa == mapped(da, function_of(r, UnaryOp::Sqr)));
    assert(sa.dims == all);
    let added = axis_sum(squares, 2, false);
    let aa = exact(added, r);
    assert(aa == added_up(sa, 2));
    let f = |k: int| (sa.at)(at.insert(2, k));
    let g = |k: int| (of(k) - mean) * (of(k) - mean);
    assert forall|k: int| 0 <= k < t implies #[trigger] f(k) == g(k) by {
        let p = seq![i, j, k];
        assert(at.insert(2, k) =~= p);
        assert(clipped(p, all) =~= p);
        assert(clipped(p, dims) =~= seq![i, j, 0int]);
    }
    lemma_same_total(f, g, t as nat);
    assert((aa.at)(at) == spread);
    lemma_over_reads(r, added, t - 1);
    let root = unary(UnaryOp::Sqrt, over(added, t - 1));
    let ra = exact(root, r);
    assert(ra == mapped(exact(over(added, t - 1), r), function_of(r, UnaryOp::Sqrt)));
    assert(aa.dims =~= flat);
    let parts = seq![ma, ra];
    lemma_all_exact(seq![middle, root], parts, r);
    let pa = exact(pooled(x, b, t), r);
    assert(pooled(x, b, t) == Graph::Concat(seq![middle, root], 1));
    assert(pa == chained(parts, 1));
    let one = seq![ma];
    assert(parts.drop_last() =~= one);
    assert(one.drop_last() =~= Seq::<Array>::empty());
    assert(extents(one, 1) == 512) by {
        reveal_with_fuel(extents, 2);
    }
    assert(extents(parts, 1) == extents(one, 1) + ra.dims[1]);
    assert(pa.dims =~= seq![b, 1024usize]);
    assert(at.update(1, j - 0) =~= at);
    assert(extents(Seq::<Array>::empty(), 1) == 0);
    assert(joined(one, 1, at) == (ma.at)(at));
    assert(joined(parts, 1, at) == joined(one, 1, at));
    let later = seq![i, j + 512];
    assert(later.update(1, j + 512 - 512) =~= at);
    assert(joined(parts, 1, later) == (ra.at)(at));
}

/// Embeddings come of all parts of the encoder, at every length: the front-end, a convolution of stride 2,
/// three dense blocks, pooling over the frames that are left, and a linear map, with batch normalisations
/// between them.
pub proof fn law_embeddings_are_made_of_all_parts(s: Scope, feat: Tensor, y: Tensor)
    requires
        are_embeddings(s, feat, y),
    ensures
        shape(y) == seq![shape(feat)[0], 192usize],
        ({
            let (b, t, f) = (shape(feat)[0], shape(feat)[1], shape(feat)[2]);
            let xv = s.at("xvector"@);
            let front = front_end(s.at("head"@), Graph::Transpose(Box::new(graph(feat)), 1, 2), b, f, t);
            let stem = Graph::Conv1d(
                Box::new(front),
                (ConvLayer {
                    weight: Box::new(xv.at("tdnn.linear"@).parameter("weight"@)),
                    bias: None,
                    in_channels: 320,
                    out_channels: 128,
                    kernel: 5,
                    padding: 2,
                    stride: 2,
                    dilation: 1,
                }),
            );
            let first = Graph::Unary(
                UnaryOp::Relu,
                Box::new(batch_norm(xv.at("tdnn.nonlinear.batchnorm"@), 128, true, stem, 3)),
            );
            let frames = ((t - 1) / 2 + 1) as usize;
            let dense = dense_blocks(xv, 3, first, b, frames);
            let last = Graph::Unary(
                UnaryOp::Relu,
                Box::new(batch_norm(xv.at("out_nonlinear.batchnorm"@), 512, true, dense, 3)),
            );
            let matrix = Graph::Reshape(
                Box::new(xv.at("dense"@).parameter("linear.weight"@)),
                seq![192usize, 1024usize],
            );
            graph(y) == batch_norm(
                xv.at("dense"@).at("nonlinear.batchnorm"@),
                192,
                false,
                Graph::MatMul(
                    Box::new(pooled(last, b, frames)),
                    Box::new(Graph::Transpose(Box::new(matrix), 0, 1)),
                ),
                2,
            )
        }),
{
}

/// The embedding of one utterance comes of all parts of the encoder, at every length, and of the filterbank
/// less its mean over the frames.
pub proof fn law_embedding_is_made_of_all_parts(s: Scope, fbank: Tensor, y: Tensor)
    requires
        is_embedding(s, fbank, y),
    ensures
        shape(y) == seq![1usize, 192usize],
        ({
            let (t, f) = (shape(fbank)[0], shape(fbank)[1]);
            let centred = Graph::Binary(
                BinaryOp::Difference,
                Box::new(graph(fbank)),
                Box::new(Graph::MeanAxis { x: Box::new(graph(fbank)), axis: 0, keep: true }),
            );
            let feat = Graph::Reshape(Box::new(centred), seq![1usize, t, f]);
            let xv = s.at("xvector"@);
            let front = front_end(s.at("head"@), Graph::Transpose(Box::new(feat), 1, 2), 1, f, t);
            let stem = Graph::Conv1d(
                Box::new(front),
                (ConvLayer {
                    weight: Box::new(xv.at("tdnn.linear"@).parameter("weight"@)),
                    bias: None,
                    in_channels: 320,
                    out_channels: 128,
                    kernel: 5,
                    padding: 2,
                    stride: 2,
                    dilation: 1,
                }),
            );
            let first = Graph::Unary(
                UnaryOp::Relu,
                Box::new(batch_norm(xv.at("tdnn.nonlinear.batchnorm"@), 128, true, stem, 3)),
            );
            let frames = ((t - 1) / 2 + 1) as usize;
            let dense = dense_blocks(xv, 3, first, 1, frames);
            let last = Graph::Unary(
                UnaryOp::Relu,
                Box::new(batch_norm(xv.at("out_nonlinear.batchnorm"@), 512, true, dense, 3)),
            );
            let matrix = Graph::Reshape(
                Box::new(xv.at("dense"@).parameter("linear.weight"@)),
                seq![192usize, 1024usize],
            );
            graph(y) == batch_norm(
                xv.at("dense"@).at("nonlinear.batchnorm"@),
                192,
                false,
                Graph::MatMul(
                    Box::new(pooled(last, 1, frames)),
                    Box::new(Graph::Transpose(Box::new(matrix), 0, 1)),
                ),
                2,
            )
        }),
{
}

/// Pooling by segments of any length gives at frame `k` the mean over the frames from `l (k / l)` on, `l` of
/// them or as many as there are.
pub proof fn law_segment_means_formula(
    r: Reading,
    x: Graph,
    b: usize,
    c: usize,
    t: usize,
    l: nat,
    i: int,
    j: int,
    k: int,
)
    requires
        l > 0,
        exact(x, r).dims == seq![b, c, t],
        0 <= i < b,
        0 <= j < c,
        0 <= k < t,
    ensures
        exact(segment_means(x, b, c, t as nat, l), r).dims == seq![b, c, t],
        ({
            let start = (k / l as int) * l;
            let len = if t - start < l { t - start } else { l as int };
            (exact(segment_means(x, b, c, t as nat, l), r).at)(seq![i, j, k]) == total(
                |f: int| (exact(x, r).at)(seq![i, j, start + f]),
                len as nat,
            ) / (len as real)
        }),
{
    let at = seq![i, j, k];
    assert(within(at, seq![b, c, t]));
    law_pooling_gives_segment_averages(r, x, b, c, t, l, at);
    let g = |f: int| (exact(x, r).at)(seq![at[0], at[1], f]);
    let start = (k / l as int) * l;
    let len = if t - start < l { t - start } else { l as int };
    lemma_same_total(
        |f: int| g((k / l as int) * l + f),
        |f: int| (exact(x, r).at)(seq![i, j, start + f]),
        len as nat,
    );
}

} // verus!
