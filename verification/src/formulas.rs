//! Formulas: what the layers of the models make of every number, in exact arithmetic.

use crate::batch::lemma_position_within;
use crate::bigvgan::{activation, activation_fits, downsampled, resampler, snake, upsampled};
use crate::checkpoint::{folded, row_sums};
use crate::exact::{
    clipped, combined, convolution, exact, function_of, indices_at, lemma_same_total, mapped, no_bias, padded_at,
    position, regrouped, slice, summed, total, transposed_convolution, with_ends, within, within_range, Reading,
};
use crate::graph::{
    axis_sum, convolved, deconvolved, inverse, narrowed, plus_inverse, product, quotient, reshaped, same_padded, sum,
    times, unary, whole, BinaryOp, Graph, UnaryOp,
};
use crate::layers::Scope;
use crate::tensor::{broadcast_shape, conv_len, conv_transpose_len, pad_left};
use crate::waveforms::lemma_column_meets;
use vstd::prelude::*;

verus! {

/// The place of an element of an array with three axes.
pub(crate) proof fn lemma_position_of_three(a: usize, b: usize, c: usize, i: int, j: int, k: int)
    ensures
        position(seq![i, j, k], seq![a, b, c]) == (i * b + j) * c + k,
{
    reveal_with_fuel(position, 4);
    let (p, d) = (seq![i, j, k], seq![a, b, c]);
    assert(p.drop_last() =~= seq![i, j] && d.drop_last() =~= seq![a, b]);
    assert(seq![i, j].drop_last() =~= seq![i] && seq![a, b].drop_last() =~= seq![a]);
    assert(seq![i].drop_last() =~= Seq::<int>::empty() && seq![a].drop_last() =~= Seq::<usize>::empty());
    assert(position(seq![i], seq![a]) == 0 * a + i);
}

/// Three indices within three extents.
pub(crate) proof fn lemma_within_three(a: usize, b: usize, c: usize, i: int, j: int, k: int)
    requires
        0 <= i < a,
        0 <= j < b,
        0 <= k < c,
    ensures
        within(seq![i, j, k], seq![a, b, c]),
{
}

/// What is known of indices within three extents.
pub(crate) proof fn lemma_three(i: Seq<int>, a: usize, b: usize, c: usize)
    requires
        within(i, seq![a, b, c]),
    ensures
        i == seq![i[0], i[1], i[2]],
        0 <= i[0] < a,
        0 <= i[1] < b,
        0 <= i[2] < c,
{
    let d = seq![a, b, c];
    assert(0 <= i[0] < d[0] && 0 <= i[1] < d[1] && 0 <= i[2] < d[2]);
    assert(i =~= seq![i[0], i[1], i[2]]);
}

/// One value per channel, read for a sample of that channel.
pub(crate) proof fn lemma_column_at(r: Reading, p: Graph, c: usize, i: int, j: int, k: int)
    requires
        exact(p, r).dims == seq![c],
        0 <= j < c,
    ensures
        exact(reshaped(p, seq![1usize, c, 1usize]), r).dims == seq![1usize, c, 1usize],
        (exact(reshaped(p, seq![1usize, c, 1usize]), r).at)(clipped(seq![i, j, k], seq![1usize, c, 1usize])) == (exact(
            p,
            r,
        ).at)(seq![j]),
{
    let dims = seq![1usize, c, 1usize];
    let at = clipped(seq![i, j, k], dims);
    assert(at =~= seq![0int, j, 0int]);
    lemma_position_of_three(1, c, 1, 0, j, 0);
    assert((0 * c + j) * 1 + 0 == j);
    assert(within(seq![j], seq![c]));
    lemma_position_within(seq![j], seq![c]);
    assert(position(seq![j], seq![c]) == j) by {
        reveal_with_fuel(position, 2);
        assert(seq![j].drop_last() =~= Seq::<int>::empty() && seq![c].drop_last() =~= Seq::<usize>::empty());
        assert(0 * c == 0);
    }
    assert(exact(reshaped(p, dims), r) == regrouped(exact(p, r), dims));
}

/// Elements keep their places where batch and channels become one axis.
pub(crate) proof fn lemma_merged_at(b: usize, c: usize, t: usize, i: int, j: int, k: int)
    requires
        b * c <= usize::MAX,
        0 <= i < b,
        0 <= j < c,
        0 <= k < t,
    ensures
        0 <= i * c + j < b * c,
        indices_at(position(seq![i * c + j, 0int, k], seq![(b * c) as usize, 1usize, t]), seq![b, c, t]) == seq![
            i,
            j,
            k,
        ],
        indices_at(position(seq![i, j, k], seq![b, c, t]), seq![(b * c) as usize, 1usize, t]) == seq![
            i * c + j,
            0int,
            k,
        ],
{
    let n = (b * c) as usize;
    let m = i * c + j;
    assert(0 <= m < b * c) by (nonlinear_arith)
        requires
            0 <= i < b,
            0 <= j < c,
            m == i * c + j,
    ;
    lemma_position_of_three(b, c, t, i, j, k);
    lemma_position_of_three(n, 1, t, m, 0, k);
    assert((m * 1 + 0) * t + k == (i * c + j) * t + k);
    lemma_within_three(b, c, t, i, j, k);
    lemma_within_three(n, 1, t, m, 0, k);
    lemma_position_within(seq![i, j, k], seq![b, c, t]);
    lemma_position_within(seq![m, 0int, k], seq![n, 1usize, t]);
}

/// Upsampling doubles the rate: sample `q` of the result is twice the sum of what comes of it where
/// the samples, 5 more at each end, are put at every second place and meet the filter from 15 places
/// on.
pub proof fn law_upsampling_formula(
    r: Reading,
    s: Scope,
    x: Graph,
    b: usize,
    c: usize,
    t: usize,
    i: int,
    j: int,
    q: int,
)
    requires
        exact(x, r).dims == seq![b, c, t],
        exact(s.parameter("upsample.filter"@), r).dims == seq![1usize, 1usize, 12usize],
        1 <= t,
        activation_fits(b, c, t),
        0 <= i < b,
        0 <= j < c,
        0 <= q < 2 * t,
    ensures
        exact(upsampled(s, x, b, c, t), r).dims == seq![b, c, (2 * t) as usize],
        (exact(upsampled(s, x, b, c, t), r).at)(seq![i, j, q]) == (2 as real) * total(
            |l: int| total(
                |m: int| if 2 * l + m == q + 15 {
                    (exact(x, r).at)(seq![i, j, within_range(l - 5, 0, t - 1)]) * (exact(
                        s.parameter("upsample.filter"@),
                        r,
                    ).at)(seq![0int, 0int, m])
                } else {
                    0 as real
                },
                12,
            ),
            (t + 10) as nat,
        ),
{
    let filter = s.parameter("upsample.filter"@);
    let layer = resampler(filter);
    let n = (b * c) as usize;
    let long = (t + 10) as usize;
    let double = (2 * t) as usize;
    let (a, w) = (exact(x, r), exact(filter, r));
    let padded = same_padded(x, 2, 5, 5);
    let wide = seq![n, 1usize, long];
    let flat = reshaped(padded, wide);
    let up = deconvolved(flat, layer);
    let twice = times(up, 2);
    let cut = narrowed(twice, 2, 15, 2 * t);
    let out = seq![b, c, double];
    let (pa, fa, ua) = (exact(padded, r), exact(flat, r), exact(up, r));
    assert(pa == with_ends(a, 2, 5, 5));
    assert(pa.dims =~= seq![b, c, long]);
    assert(fa == regrouped(pa, wide));
    assert(ua == transposed_convolution(fa, w, no_bias(layer), layer));
    assert(conv_transpose_len(long as int, 12, 0, 2, 1) == 2 * t + 30);
    assert(ua.dims =~= seq![n, 1usize, (2 * t + 30) as usize]);
    let (mul, add) = (exact(whole(2), r), exact(whole(0), r));
    assert((mul.at)(Seq::empty()) == 2 as real && (add.at)(Seq::empty()) == 0 as real) by {
        reveal_with_fuel(exact, 3);
    }
    let ta = exact(twice, r);
    let ca = exact(cut, r);
    assert(ca == slice(ta, 2, 15, 2 * t));
    assert(ca.dims =~= seq![n, 1usize, double]);
    let all = exact(upsampled(s, x, b, c, t), r);
    assert(all == regrouped(ca, out));
    lemma_merged_at(b, c, double, i, j, q);
    let m = i * c + j;
    assert((all.at)(seq![i, j, q]) == (ca.at)(seq![m, 0int, q]));
    assert(seq![m, 0int, q].update(2, q + 15) =~= seq![m, 0int, q + 15]);
    let at = seq![m, 0int, q + 15];
    assert((ca.at)(seq![m, 0int, q]) == (ta.at)(at));
    assert((ta.at)(at) == (ua.at)(at) * (2 as real) + (0 as real));
    let inner = |l: int|
        total(
            |k: int|
                if l * layer.stride + k * layer.dilation == at[2] + layer.padding {
                    (fa.at)(seq![at[0], 0int, l]) * (w.at)(seq![0int, at[1], k])
                } else {
                    0 as real
                },
            layer.kernel as nat,
        );
    let wanted = |l: int|
        total(
            |k: int|
                if 2 * l + k == q + 15 {
                    (a.at)(seq![i, j, within_range(l - 5, 0, t - 1)]) * (w.at)(seq![0int, 0int, k])
                } else {
                    0 as real
                },
            12,
        );
    assert forall|l: int| 0 <= l < long implies #[trigger] inner(l) == wanted(l) by {
        let f = |k: int|
            if l * layer.stride + k * layer.dilation == at[2] + layer.padding {
                (fa.at)(seq![at[0], 0int, l]) * (w.at)(seq![0int, at[1], k])
            } else {
                0 as real
            };
        let g = |k: int|
            if 2 * l + k == q + 15 {
                (a.at)(seq![i, j, within_range(l - 5, 0, t - 1)]) * (w.at)(seq![0int, 0int, k])
            } else {
                0 as real
            };
        lemma_merged_at(b, c, long, i, j, l);
        assert((fa.at)(seq![m, 0int, l]) == (pa.at)(seq![i, j, l]));
        assert(seq![i, j, l].update(2, within_range(l - 5, 0, t - 1)) =~= seq![i, j, within_range(l - 5, 0, t - 1)]);
        lemma_same_total(f, g, 12);
    }
    lemma_same_total(inner, wanted, long as nat);
    let outer = |ch: int|
        total(
            |l: int|
                total(
                    |k: int|
                        if l * layer.stride + k * layer.dilation == at[2] + layer.padding {
                            (fa.at)(seq![at[0], ch, l]) * (w.at)(seq![ch, at[1], k])
                        } else {
                            0 as real
                        },
                    layer.kernel as nat,
                ),
            fa.dims[2] as nat,
        );
    assert(total(outer, 1) == total(outer, 0) + outer(0)) by {
        reveal_with_fuel(total, 2);
    }
    assert(outer(0) == total(inner, long as nat));
    assert((ua.at)(at) == (0 as real) + total(outer, 1));
}

/// SnakeBeta adds to every number the square of a sine: `v + sin^2(v e^alpha) / (e^beta + 1e-9)`, with
/// the `alpha` and the `beta` of its channel.
pub proof fn law_snake_formula(
    r: Reading,
    s: Scope,
    x: Graph,
    b: usize,
    c: usize,
    t: usize,
    i: int,
    j: int,
    k: int,
)
    requires
        exact(x, r).dims == seq![b, c, t],
        exact(s.parameter("alpha"@), r).dims == seq![c],
        exact(s.parameter("beta"@), r).dims == seq![c],
        0 <= i < b,
        0 <= j < c,
        0 <= k < t,
    ensures
        exact(snake(s, c, x), r).dims == seq![b, c, t],
        ({
            let v = (exact(x, r).at)(seq![i, j, k]);
            let alpha = (exact(s.parameter("alpha"@), r).at)(seq![j]);
            let beta = (exact(s.parameter("beta"@), r).at)(seq![j]);
            let wave = (r.function)(UnaryOp::Sin, v * (r.function)(UnaryOp::Exp, alpha));
            let height = (r.function)(UnaryOp::Exp, beta) + (1 as real) / (1_000_000_000 as real);
            (exact(snake(s, c, x), r).at)(seq![i, j, k]) == v + (wave * wave) * ((1 as real) / height)
        }),
{
    let dims = seq![1usize, c, 1usize];
    let all = seq![b, c, t];
    let at = seq![i, j, k];
    let ea = unary(UnaryOp::Exp, s.parameter("alpha"@));
    let eb = unary(UnaryOp::Exp, s.parameter("beta"@));
    let (alpha, beta) = (reshaped(ea, dims), reshaped(eb, dims));
    assert(exact(ea, r).dims == seq![c] && exact(eb, r).dims == seq![c]);
    lemma_column_at(r, ea, c, i, j, k);
    lemma_column_at(r, eb, c, i, j, k);
    lemma_column_meets(b, c, t);
    lemma_within_three(b, c, t, i, j, k);
    assert(clipped(at, all) =~= at);
    let turned = product(x, alpha);
    assert(exact(turned, r) == combined(BinaryOp::Product, exact(x, r), exact(alpha, r)));
    let wave = unary(UnaryOp::Sin, turned);
    let square = unary(UnaryOp::Sqr, wave);
    assert(exact(wave, r) == mapped(exact(turned, r), function_of(r, UnaryOp::Sin)));
    assert(exact(square, r) == mapped(exact(wave, r), function_of(r, UnaryOp::Sqr)));
    let raised = plus_inverse(beta, 1_000_000_000);
    let factor = unary(UnaryOp::Recip, raised);
    let (mul, add) = (exact(whole(1), r), exact(inverse(1_000_000_000), r));
    assert((mul.at)(Seq::empty()) == 1 as real && (add.at)(Seq::empty()) == (1 as real) / (1_000_000_000 as real)) by {
        reveal_with_fuel(exact, 4);
    }
    let one = clipped(at, dims);
    let tiny = (1 as real) / (1_000_000_000 as real);
    assert((exact(raised, r).at)(one) == (exact(beta, r).at)(one) * (1 as real) + tiny);
    assert(exact(factor, r) == mapped(exact(raised, r), function_of(r, UnaryOp::Recip)));
    assert(exact(factor, r).dims == dims);
    let scaled = product(square, factor);
    assert(exact(scaled, r) == combined(BinaryOp::Product, exact(square, r), exact(factor, r)));
    assert(snake(s, c, x) == sum(x, scaled));
    assert(exact(sum(x, scaled), r) == combined(BinaryOp::Sum, exact(x, r), exact(scaled, r)));
}

/// Downsampling halves the rate: sample `k` of the result is the sum of the samples from `2 k - 5` on,
/// the ends repeated, times the filter.
pub proof fn law_downsampling_formula(
    r: Reading,
    s: Scope,
    x: Graph,
    b: usize,
    c: usize,
    t: usize,
    i: int,
    j: int,
    k: int,
)
    requires
        exact(x, r).dims == seq![b, c, t],
        exact(s.parameter("downsample.lowpass.filter"@), r).dims == seq![1usize, 1usize, 12usize],
        1 <= t,
        t % 2 == 0,
        b * c <= usize::MAX,
        t + 12 <= usize::MAX,
        0 <= i < b,
        0 <= j < c,
        0 <= k < t / 2,
    ensures
        exact(downsampled(s, x, b, c, t), r).dims == seq![b, c, t / 2],
        (exact(downsampled(s, x, b, c, t), r).at)(seq![i, j, k]) == total(
            |m: int| (exact(s.parameter("downsample.lowpass.filter"@), r).at)(seq![0int, 0int, m]) * (exact(
                x,
                r,
            ).at)(seq![i, j, within_range(2 * k + m - 5, 0, t - 1)]),
            12,
        ),
{
    let filter = s.parameter("downsample.lowpass.filter"@);
    let layer = resampler(filter);
    let n = (b * c) as usize;
    let long = (t + 11) as usize;
    let half = t / 2;
    let (a, w) = (exact(x, r), exact(filter, r));
    let padded = same_padded(x, 2, 5, 6);
    let wide = seq![n, 1usize, long];
    let flat = reshaped(padded, wide);
    let down = convolved(flat, layer);
    let (pa, fa, da) = (exact(padded, r), exact(flat, r), exact(down, r));
    assert(pa == with_ends(a, 2, 5, 6));
    assert(pa.dims =~= seq![b, c, long]);
    assert(fa == regrouped(pa, wide));
    assert(da == convolution(fa, w, no_bias(layer), layer));
    assert(conv_len(long as int, 12, 0, 2, 1) == half);
    assert(da.dims =~= seq![n, 1usize, half]);
    let all = exact(downsampled(s, x, b, c, t), r);
    assert(all == regrouped(da, seq![b, c, half]));
    lemma_merged_at(b, c, half, i, j, k);
    let m = i * c + j;
    let at = seq![m, 0int, k];
    assert((all.at)(seq![i, j, k]) == (da.at)(at));
    let f = |l: int|
        (w.at)(seq![at[1], 0int, l]) * padded_at(
            fa,
            at[0],
            0int,
            at[2] * layer.stride + l * layer.dilation - layer.padding,
        );
    let g = |l: int|
        (w.at)(seq![0int, 0int, l]) * (a.at)(seq![i, j, within_range(2 * k + l - 5, 0, t - 1)]);
    assert forall|l: int| 0 <= l < 12 implies #[trigger] f(l) == g(l) by {
        let p = 2 * k + l;
        assert(at[2] * layer.stride + l * layer.dilation - layer.padding == p);
        assert(0 <= p < long);
        lemma_merged_at(b, c, long, i, j, p);
        assert((fa.at)(seq![m, 0int, p]) == (pa.at)(seq![i, j, p]));
        let v = within_range(p - 5, 0, t - 1);
        assert(seq![i, j, p].update(2, v) =~= seq![i, j, v]);
    }
    lemma_same_total(f, g, 12);
    let outer = |ch: int|
        total(
            |l: int|
                (w.at)(seq![at[1], ch, l]) * padded_at(
                    fa,
                    at[0],
                    ch,
                    at[2] * layer.stride + l * layer.dilation - layer.padding,
                ),
            layer.kernel as nat,
        );
    assert(total(outer, 1) == total(outer, 0) + outer(0)) by {
        reveal_with_fuel(total, 2);
    }
    assert(outer(0) == total(f, 12));
    assert((da.at)(at) == (0 as real) + total(outer, 1));
}

/// The alias-free activation is SnakeBeta at twice the rate, of every channel by itself.
pub proof fn law_activation_formula(
    r: Reading,
    s: Scope,
    x: Graph,
    b: usize,
    c: usize,
    t: usize,
    i: int,
    j: int,
    k: int,
)
    requires
        exact(x, r).dims == seq![b, c, t],
        exact(s.at("act"@).parameter("alpha"@), r).dims == seq![c],
        exact(s.at("act"@).parameter("beta"@), r).dims == seq![c],
        exact(s.parameter("upsample.filter"@), r).dims == seq![1usize, 1usize, 12usize],
        exact(s.parameter("downsample.lowpass.filter"@), r).dims == seq![1usize, 1usize, 12usize],
        1 <= t,
        activation_fits(b, c, t),
        0 <= i < b,
        0 <= j < c,
        0 <= k < t,
    ensures
        exact(activation(s, c, x, b, c, t), r).dims == seq![b, c, t],
        ({
            let up = exact(upsampled(s, x, b, c, t), r);
            let alpha = (exact(s.at("act"@).parameter("alpha"@), r).at)(seq![j]);
            let beta = (exact(s.at("act"@).parameter("beta"@), r).at)(seq![j]);
            let wave = |v: real| (r.function)(UnaryOp::Sin, v * (r.function)(UnaryOp::Exp, alpha));
            let height = (r.function)(UnaryOp::Exp, beta) + (1 as real) / (1_000_000_000 as real);
            let raised = |q: int| {
                let v = (up.at)(seq![i, j, q]);
                v + (wave(v) * wave(v)) * ((1 as real) / height)
            };
            (exact(activation(s, c, x, b, c, t), r).at)(seq![i, j, k]) == total(
                |m: int| (exact(s.parameter("downsample.lowpass.filter"@), r).at)(seq![0int, 0int, m]) * raised(
                    within_range(2 * k + m - 5, 0, 2 * t - 1),
                ),
                12,
            )
        }),
{
    let double = (2 * t) as usize;
    let z = s.at("act"@);
    let up = upsampled(s, x, b, c, t);
    let sounded = snake(z, c, up);
    law_upsampling_formula(r, s, x, b, c, t, i, j, 0);
    law_snake_formula(r, z, up, b, c, double, i, j, 0);
    law_downsampling_formula(r, s, sounded, b, c, double, i, j, k);
    assert(double / 2 == t);
    assert(activation(s, c, x, b, c, t) == downsampled(s, sounded, b, c, double));
    let w = exact(s.parameter("downsample.lowpass.filter"@), r);
    let alpha = (exact(z.parameter("alpha"@), r).at)(seq![j]);
    let beta = (exact(z.parameter("beta"@), r).at)(seq![j]);
    let wave = |v: real| (r.function)(UnaryOp::Sin, v * (r.function)(UnaryOp::Exp, alpha));
    let height = (r.function)(UnaryOp::Exp, beta) + (1 as real) / (1_000_000_000 as real);
    let raised = |q: int| {
        let v = (exact(up, r).at)(seq![i, j, q]);
        v + (wave(v) * wave(v)) * ((1 as real) / height)
    };
    let f = |m: int| (w.at)(seq![0int, 0int, m]) * (exact(sounded, r).at)(
        seq![i, j, within_range(2 * k + m - 5, 0, double - 1)],
    );
    let g = |m: int| (w.at)(seq![0int, 0int, m]) * raised(within_range(2 * k + m - 5, 0, 2 * t - 1));
    assert forall|m: int| 0 <= m < 12 implies #[trigger] f(m) == g(m) by {
        law_snake_formula(r, z, up, b, c, double, i, j, within_range(2 * k + m - 5, 0, 2 * t - 1));
    }
    lemma_same_total(f, g, 12);
}

/// A folded kernel is its direction, every output channel scaled to the length that the magnitude gives:
/// `v g / |v|`, with the square root of the sum of the squares of the channel.
pub proof fn law_folded_kernel_formula(
    r: Reading,
    v: Graph,
    g: Graph,
    m: usize,
    n: usize,
    l: usize,
    i: int,
    j: int,
    k: int,
)
    requires
        exact(v, r).dims == seq![m, n, l],
        exact(g, r).dims == seq![m, 1usize, 1usize],
        0 <= i < m,
        0 <= j < n,
        0 <= k < l,
    ensures
        exact(folded(v, g, 3), r).dims == seq![m, n, l],
        ({
            let of = |a: int, b: int| (exact(v, r).at)(seq![i, a, b]);
            let square = total(|b: int| total(|a: int| of(a, b) * of(a, b), n as nat), l as nat);
            (exact(folded(v, g, 3), r).at)(seq![i, j, k]) == of(j, k) * ((exact(g, r).at)(seq![i, 0int, 0int]) / (
            r.root)(square))
        }),
{
    let of = |a: int, b: int| (exact(v, r).at)(seq![i, a, b]);
    let square = total(|b: int| total(|a: int| of(a, b) * of(a, b), n as nat), l as nat);
    let squares = unary(UnaryOp::Sqr, v);
    let once = axis_sum(squares, 1, true);
    let twice = axis_sum(once, 2, true);
    assert(row_sums(squares, 3) == twice) by {
        reveal_with_fuel(row_sums, 4);
    }
    let (va, sa) = (exact(v, r), exact(squares, r));
    assert(sa == mapped(va, function_of(r, UnaryOp::Sqr)));
    let (oa, ta) = (exact(once, r), exact(twice, r));
    assert(oa == summed(sa, 1));
    assert(ta == summed(oa, 2));
    assert(oa.dims =~= seq![m, 1usize, l]);
    let rows = seq![m, 1usize, 1usize];
    assert(ta.dims =~= rows);
    let at = seq![i, 0int, 0int];
    let f = |b: int| (oa.at)(at.update(2, b));
    let h = |b: int| total(|a: int| of(a, b) * of(a, b), n as nat);
    assert forall|b: int| 0 <= b < l implies #[trigger] f(b) == h(b) by {
        let p = seq![i, 0int, b];
        assert(at.update(2, b) =~= p);
        let c = |a: int| (sa.at)(p.update(1, a));
        let d = |a: int| of(a, b) * of(a, b);
        assert forall|a: int| 0 <= a < n implies #[trigger] c(a) == d(a) by {
            assert(p.update(1, a) =~= seq![i, a, b]);
        }
        lemma_same_total(c, d, n as nat);
    }
    lemma_same_total(f, h, l as nat);
    assert((ta.at)(at) == square);
    let norm = unary(UnaryOp::Sqrt, twice);
    let na = exact(norm, r);
    assert(na == mapped(ta, function_of(r, UnaryOp::Sqrt)));
    let ratio = quotient(g, norm);
    let ra = exact(ratio, r);
    assert(ra == combined(BinaryOp::Quotient, exact(g, r), na));
    let all = seq![m, n, l];
    assert(pad_left(rows, 3) =~= rows && pad_left(all, 3) =~= all);
    assert(broadcast_shape(rows, rows) =~= rows);
    assert(broadcast_shape(all, rows) =~= all);
    assert(clipped(at, rows) =~= at);
    assert(clipped(seq![i, j, k], rows) =~= at);
    assert(clipped(seq![i, j, k], all) =~= seq![i, j, k]);
    assert(folded(v, g, 3) == product(v, ratio));
    assert(exact(product(v, ratio), r) == combined(BinaryOp::Product, va, ra));
}

} // verus!
