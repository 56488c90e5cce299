//! Laws on vocoders in exact arithmetic.

use crate::agreement::{
    agree, lemma_agree_affine, lemma_agree_binary, lemma_agree_clamped, lemma_agree_convolved, lemma_agree_deconvolved,
    lemma_agree_itself, lemma_agree_linear, lemma_agree_narrowed, lemma_agree_normalised, lemma_agree_padded,
    lemma_agree_reshaped, lemma_agree_through, lemma_agree_transposed, lemma_agree_unary,
};
use crate::batch::lemma_regrouped_back;
use crate::bigvgan::{
    activation, activation_fits, downsampled, first_conv, is_waveform, last_conv, lemma_channels, lemma_end_conv,
    lemma_merged_count, resampler, snake, stage, stage_conv, stages, upsampled, waveform, BigVganConfig,
};
use crate::exact::{exact, regrouped, same_values, Reading};
use crate::graph::{
    clamped, convolved, deconvolved, inverse, narrowed, plus_inverse, product, reshaped, same_padded, times,
    transposed, unary, whole, zero_padded, BinaryOp, Graph, UnaryOp,
};
use crate::layers::{conv_of, linear_of, norm_of, Scope};
use crate::tensor::{
    broadcast_shape, broadcastable, conv_len, conv_transpose_len, graph, lemma_element_count, pad_left, shape,
};
use crate::text::decimal;
use crate::values::{are_silent, law_silent_blocks_average_to_their_input};
use crate::vocos::{
    backbone, block_scope, blocks_there, convnext, convnext_there, depthwise, embedded, fits_alone, imaginary_part,
    is_spectrum, magnitude, matrix_of, network_there, phase, prediction, real_part, tap, taps, turned_back, turned_mel,
    VocosConfig,
};
use candle_core::Tensor;
use vstd::prelude::*;

verus! {

/// One value per channel meets every sample.
pub(crate) proof fn lemma_column_meets(b: usize, c: usize, t: usize)
    ensures
        broadcastable(seq![b, c, t], seq![1usize, c, 1usize]),
        broadcast_shape(seq![b, c, t], seq![1usize, c, 1usize]) == seq![b, c, t],
        broadcastable(seq![b, c, t], seq![b, c, t]),
        broadcast_shape(seq![b, c, t], seq![b, c, t]) == seq![b, c, t],
{
    let (all, column) = (seq![b, c, t], seq![1usize, c, 1usize]);
    assert(pad_left(all, 3) =~= all && pad_left(column, 3) =~= column);
    assert(broadcast_shape(all, column) =~= all);
    assert(broadcast_shape(all, all) =~= all);
}

/// Upsampling makes the same of the same.
proof fn lemma_agree_upsampled(r: Reading, s: Scope, g: Graph, h: Graph, b: usize, c: usize, t: usize)
    requires
        agree(r, g, h),
        exact(g, r).dims == seq![b, c, t],
        1 <= t,
        activation_fits(b, c, t),
    ensures
        agree(r, upsampled(s, g, b, c, t), upsampled(s, h, b, c, t)),
        exact(upsampled(s, g, b, c, t), r).dims == seq![b, c, (2 * t) as usize],
{
    let layer = resampler(s.parameter("upsample.filter"@));
    let wide = seq![(b * c) as usize, 1usize, (t + 10) as usize];
    lemma_agree_padded(r, g, h, 2, 5, 5);
    let (pg, ph) = (same_padded(g, 2, 5, 5), same_padded(h, 2, 5, 5));
    assert(exact(pg, r).dims =~= seq![b, c, (t + 10) as usize]);
    lemma_merged_count(b, c, (t + 10) as usize);
    lemma_merged_count(b, c, (2 * t) as usize);
    lemma_agree_reshaped(r, pg, ph, wide);
    let (fg, fh) = (reshaped(pg, wide), reshaped(ph, wide));
    lemma_agree_deconvolved(r, fg, fh, layer);
    let (ug, uh) = (deconvolved(fg, layer), deconvolved(fh, layer));
    assert(conv_transpose_len((t + 10) as int, 12, 0, 2, 1) == 2 * t + 30);
    assert(exact(ug, r).dims =~= seq![(b * c) as usize, 1usize, (2 * t + 30) as usize]);
    lemma_agree_affine(r, ug, uh, whole(2), whole(0));
    let (ug, uh) = (times(ug, 2), times(uh, 2));
    lemma_agree_narrowed(r, ug, uh, 2, 15, 2 * t);
    let (ng, nh) = (narrowed(ug, 2, 15, 2 * t), narrowed(uh, 2, 15, 2 * t));
    assert(exact(ng, r).dims =~= seq![(b * c) as usize, 1usize, (2 * t) as usize]);
    lemma_agree_reshaped(r, ng, nh, seq![b, c, (2 * t) as usize]);
}

/// SnakeBeta makes the same of the same.
proof fn lemma_agree_snake(r: Reading, s: Scope, c: usize, g: Graph, h: Graph, b: usize, t: usize)
    requires
        agree(r, g, h),
        exact(g, r).dims == seq![b, c, t],
    ensures
        agree(r, snake(s, c, g), snake(s, c, h)),
        exact(snake(s, c, g), r).dims == seq![b, c, t],
{
    let dims = seq![1usize, c, 1usize];
    let alpha = reshaped(unary(UnaryOp::Exp, s.parameter("alpha"@)), dims);
    let beta = reshaped(unary(UnaryOp::Exp, s.parameter("beta"@)), dims);
    let factor = unary(UnaryOp::Recip, plus_inverse(beta, 1_000_000_000));
    lemma_agree_itself(r, alpha);
    lemma_agree_itself(r, beta);
    assert(exact(alpha, r).dims == dims && exact(beta, r).dims == dims);
    lemma_agree_affine(r, beta, beta, whole(1), inverse(1_000_000_000));
    lemma_agree_unary(r, UnaryOp::Recip, plus_inverse(beta, 1_000_000_000), plus_inverse(beta, 1_000_000_000));
    assert(exact(factor, r).dims == dims);
    lemma_column_meets(b, c, t);
    lemma_agree_binary(r, BinaryOp::Product, g, h, alpha, alpha);
    let (pg, ph) = (product(g, alpha), product(h, alpha));
    lemma_agree_unary(r, UnaryOp::Sin, pg, ph);
    let (pg, ph) = (unary(UnaryOp::Sin, pg), unary(UnaryOp::Sin, ph));
    lemma_agree_unary(r, UnaryOp::Sqr, pg, ph);
    let (pg, ph) = (unary(UnaryOp::Sqr, pg), unary(UnaryOp::Sqr, ph));
    lemma_agree_binary(r, BinaryOp::Product, pg, ph, factor, factor);
    lemma_agree_binary(r, BinaryOp::Sum, g, h, product(pg, factor), product(ph, factor));
}

/// Downsampling makes the same of the same.
proof fn lemma_agree_downsampled(r: Reading, s: Scope, g: Graph, h: Graph, b: usize, c: usize, t: usize)
    requires
        agree(r, g, h),
        exact(g, r).dims == seq![b, c, t],
        1 <= t,
        t % 2 == 0,
        b * c <= usize::MAX,
        t + 12 <= usize::MAX,
    ensures
        agree(r, downsampled(s, g, b, c, t), downsampled(s, h, b, c, t)),
        exact(downsampled(s, g, b, c, t), r).dims == seq![b, c, t / 2],
{
    let layer = resampler(s.parameter("downsample.lowpass.filter"@));
    let wide = seq![(b * c) as usize, 1usize, (t + 11) as usize];
    lemma_agree_padded(r, g, h, 2, 5, 6);
    let (pg, ph) = (same_padded(g, 2, 5, 6), same_padded(h, 2, 5, 6));
    assert(exact(pg, r).dims =~= seq![b, c, (t + 11) as usize]);
    lemma_merged_count(b, c, (t + 11) as usize);
    lemma_merged_count(b, c, t / 2);
    lemma_agree_reshaped(r, pg, ph, wide);
    let (fg, fh) = (reshaped(pg, wide), reshaped(ph, wide));
    lemma_agree_convolved(r, fg, fh, layer);
    let (dg, dh) = (convolved(fg, layer), convolved(fh, layer));
    assert(conv_len((t + 11) as int, 12, 0, 2, 1) == t / 2);
    assert(exact(dg, r).dims =~= seq![(b * c) as usize, 1usize, t / 2]);
    lemma_agree_reshaped(r, dg, dh, seq![b, c, t / 2]);
}

/// The alias-free activation makes the same of the same.
pub(crate) proof fn lemma_agree_activation(r: Reading, s: Scope, g: Graph, h: Graph, b: usize, c: usize, t: usize)
    requires
        agree(r, g, h),
        exact(g, r).dims == seq![b, c, t],
        1 <= t,
        activation_fits(b, c, t),
    ensures
        agree(r, activation(s, c, g, b, c, t), activation(s, c, h, b, c, t)),
        exact(activation(s, c, g, b, c, t), r).dims == seq![b, c, t],
{
    let double = (2 * t) as usize;
    lemma_agree_upsampled(r, s, g, h, b, c, t);
    let (ug, uh) = (upsampled(s, g, b, c, t), upsampled(s, h, b, c, t));
    lemma_agree_snake(r, s.at("act"@), c, ug, uh, b, double);
    let (ag, ah) = (snake(s.at("act"@), c, ug), snake(s.at("act"@), c, uh));
    lemma_agree_downsampled(r, s, ag, ah, b, c, double);
    assert(double / 2 == t);
}

/// Whether two generators have the same settings, but for their AMP blocks.
pub open spec fn are_alike(p: BigVganConfig, q: BigVganConfig) -> bool {
    &&& p.num_mels == q.num_mels
    &&& p.upsample_initial_channel == q.upsample_initial_channel
    &&& p.upsample_rates@ == q.upsample_rates@
    &&& p.upsample_kernel_sizes@ == q.upsample_kernel_sizes@
}

/// Whether two checkpoints share the parameters of a convolution.
pub open spec fn share_conv(s: Scope, z: Scope) -> bool {
    s.parameter("weight"@) == z.parameter("weight"@) && s.parameter("bias"@) == z.parameter("bias"@)
}

/// Whether two checkpoints share the parameters of an alias-free activation.
pub open spec fn share_activation(s: Scope, z: Scope) -> bool {
    &&& s.at("act"@).parameter("alpha"@) == z.at("act"@).parameter("alpha"@)
    &&& s.at("act"@).parameter("beta"@) == z.at("act"@).parameter("beta"@)
    &&& s.parameter("upsample.filter"@) == z.parameter("upsample.filter"@)
    &&& s.parameter("downsample.lowpass.filter"@) == z.parameter("downsample.lowpass.filter"@)
}

/// Whether two checkpoints share all parameters of a generator but those of the AMP blocks.
pub open spec fn share_the_rest(s: Scope, z: Scope, n: nat) -> bool {
    &&& share_conv(s.at("conv_pre"@), z.at("conv_pre"@))
    &&& forall|i: nat| i < n ==> share_conv(#[trigger] up_scope(s, i), up_scope(z, i))
    &&& share_activation(s.at("activation_post"@), z.at("activation_post"@))
    &&& s.at("conv_post"@).parameter("weight"@) == z.at("conv_post"@).parameter("weight"@)
}

/// The position of the transposed convolution of stage `i`.
pub open spec fn up_scope(s: Scope, i: nat) -> Scope {
    s.at("ups."@ + decimal(i) + ".0"@)
}

/// Generators with the same settings have the same sizes.
proof fn lemma_alike_sizes(p: BigVganConfig, q: BigVganConfig, t: int, i: nat)
    requires
        are_alike(p, q),
    ensures
        p.channels(i) == q.channels(i),
        p.length(t, i) == q.length(t, i),
    decreases i,
{
    if i > 0 {
        lemma_alike_sizes(p, q, t, (i - 1) as nat);
    }
}

/// The first `n` stages, where all AMP blocks are silent, make the same of the same, however many
/// blocks there are.
proof fn lemma_silent_stages(
    r: Reading,
    p: BigVganConfig,
    q: BigVganConfig,
    s: Scope,
    z: Scope,
    n: nat,
    g: Graph,
    b: usize,
    t: usize,
)
    requires
        are_alike(p, q),
        n <= p.stages(),
        n <= q.stages(),
        share_the_rest(s, z, n),
        p.fits(seq![b, p.num_mels, t]),
        q.fits(seq![b, p.num_mels, t]),
        forall|i: nat| i < n ==> #[trigger] are_silent(r, p, s, i),
        forall|i: nat| i < n ==> #[trigger] are_silent(r, q, z, i),
        exact(g, r).dims == seq![b, p.channels(0), t],
    ensures
        agree(r, stages(p, s, n, g, b, t), stages(q, z, n, g, b, t)),
        exact(stages(p, s, n, g, b, t), r).dims == seq![b, p.channels(n), p.length(t as int, n) as usize],
        1 <= p.length(t as int, n) <= usize::MAX,
    decreases n,
{
    lemma_agree_itself(r, g);
    if n > 0 {
        let m = (n - 1) as nat;
        lemma_silent_stages(r, p, q, s, z, m, g, b, t);
        let (x, y) = (stages(p, s, m, g, b, t), stages(q, z, m, g, b, t));
        let dims = seq![b, p.num_mels, t];
        assert(dims[0] == b && dims[2] == t);
        assert(p.stage_fits(b, t, m) && q.stage_fits(b, t, m));
        lemma_alike_sizes(p, q, t as int, m);
        lemma_alike_sizes(p, q, t as int, n);
        assert(share_conv(up_scope(s, m), up_scope(z, m)));
        let (u, v) = (stage_conv(p, s, m), stage_conv(q, z, m));
        assert(u == v);
        lemma_agree_deconvolved(r, x, y, u);
        let l = p.length(t as int, n) as usize;
        let (dx, dy) = (deconvolved(x, u), deconvolved(y, u));
        assert(exact(dx, r).dims =~= seq![b, p.channels(n), l]);
        assert(are_silent(r, p, s, m) && are_silent(r, q, z, m));
        law_silent_blocks_average_to_their_input(r, p, s, m, x, b, t);
        law_silent_blocks_average_to_their_input(r, q, z, m, y, b, t);
        let (sx, sy) = (stage(p, s, m, x, b, t), stage(q, z, m, y, b, t));
        lemma_agree_through(r, sx, dx, dy);
        lemma_agree_through(r, sy, dy, dy);
        lemma_agree_through(r, sx, dy, sy);
    }
}

/// The AMP blocks of a stage are averaged, so their number alone does not change the waveform:
/// generators that differ in their AMP blocks only, all of which are silent, make the same waveforms
/// `v` and `w` of a mel spectrogram.
pub proof fn law_number_of_silent_blocks_does_not_matter(
    r: Reading,
    p: BigVganConfig,
    q: BigVganConfig,
    s: Scope,
    z: Scope,
    given: Tensor,
    v: Tensor,
    w: Tensor,
)
    requires
        are_alike(p, q),
        p.stages() == p.upsample_rates@.len(),
        share_the_rest(s, z, p.stages()),
        p.fits(shape(given)),
        q.fits(shape(given)),
        forall|i: nat| i < p.stages() ==> #[trigger] are_silent(r, p, s, i),
        forall|i: nat| i < p.stages() ==> #[trigger] are_silent(r, q, z, i),
        exact(graph(given), r).dims == shape(given),
        is_waveform(p, s, given, v),
        is_waveform(q, z, given, w),
    ensures
        same_values(exact(graph(v), r), exact(graph(w), r)),
{
    let n = p.stages();
    let (b, t) = (shape(given)[0], shape(given)[2]);
    let mel = graph(given);
    let dims = seq![b, p.num_mels, t];
    assert(shape(given) =~= dims);
    assert(dims[0] == b && dims[2] == t);
    lemma_channels(p, 0);
    lemma_end_conv(t as int);
    lemma_agree_itself(r, mel);
    lemma_agree_convolved(r, mel, mel, first_conv(p, s));
    let first = convolved(mel, first_conv(p, s));
    assert(first_conv(p, s) == first_conv(q, z));
    assert(exact(first, r).dims =~= seq![b, p.channels(0), t]);
    lemma_silent_stages(r, p, q, s, z, n, first, b, t);
    lemma_alike_sizes(p, q, t as int, n);
    let (x, y) = (stages(p, s, n, first, b, t), stages(q, z, n, first, b, t));
    let (c, l) = (p.channels(n), p.length(t as int, n) as usize);
    let (u, o) = (s.at("activation_post"@), z.at("activation_post"@));
    assert(dims.len() == 3);
    lemma_agree_activation(r, u, x, y, b, c, l);
    assert(activation(o, c, y, b, c, l) == activation(u, c, y, b, c, l));
    let (ax, ay) = (activation(u, c, x, b, c, l), activation(u, c, y, b, c, l));
    let layer = last_conv(p, s);
    assert(last_conv(q, z) == layer);
    lemma_agree_convolved(r, ax, ay, layer);
    lemma_agree_clamped(r, convolved(ax, layer), convolved(ay, layer), -1, 1);
    assert(waveform(p, s, mel, b, t) == clamped(convolved(ax, layer), -1, 1));
    assert(waveform(q, z, mel, b, t) == clamped(convolved(ay, layer), -1, 1));
}

/// Whether every parameter that is read has the shape that the checkpoint says.
pub open spec fn reads_shapes(r: Reading, s: Scope) -> bool {
    forall|name: Seq<char>| #[trigger]
        s.parameters.contains_key(name) ==> exact(s.parameters[name], r).dims == s.extents[name]
}

/// The taps of a depthwise convolution make the same of the same.
proof fn lemma_agree_taps(r: Reading, s: Scope, c: usize, g: Graph, h: Graph, b: usize, t: usize, k: nat)
    requires
        agree(r, g, h),
        exact(g, r).dims == seq![b, c, t],
        1 <= t,
        t + 6 <= usize::MAX,
        k <= 6,
    ensures
        agree(r, taps(s, c, 7, 3, g, t, k), taps(s, c, 7, 3, h, t, k)),
        exact(taps(s, c, 7, 3, g, t, k), r).dims == seq![b, c, t],
    decreases k,
{
    lemma_agree_padded(r, g, h, 2, 3, 3);
    let (pg, ph) = (zero_padded(g, 2, 3, 3), zero_padded(h, 2, 3, 3));
    assert(exact(pg, r).dims =~= seq![b, c, (t + 6) as usize]);
    lemma_agree_narrowed(r, pg, ph, 2, k as int, t as int);
    let (ng, nh) = (narrowed(pg, 2, k as int, t as int), narrowed(ph, 2, k as int, t as int));
    assert(exact(ng, r).dims =~= seq![b, c, t]);
    let weights = reshaped(s.parameter("weight"@), seq![c, 7usize]);
    let column = reshaped(narrowed(weights, 1, k as int, 1), seq![1usize, c, 1usize]);
    lemma_agree_itself(r, column);
    assert(exact(column, r).dims == seq![1usize, c, 1usize]);
    lemma_column_meets(b, c, t);
    lemma_agree_binary(r, BinaryOp::Product, ng, nh, column, column);
    let (lg, lh) = (tap(s, c, 7, 3, g, t, k as int), tap(s, c, 7, 3, h, t, k as int));
    assert(lg == product(ng, column) && lh == product(nh, column));
    if k > 0 {
        let m = (k - 1) as nat;
        lemma_agree_taps(r, s, c, g, h, b, t, m);
        lemma_agree_binary(r, BinaryOp::Sum, taps(s, c, 7, 3, g, t, m), taps(s, c, 7, 3, h, t, m), lg, lh);
    }
}

/// A depthwise convolution makes the same of the same.
proof fn lemma_agree_depthwise(r: Reading, s: Scope, c: usize, g: Graph, h: Graph, b: usize, t: usize)
    requires
        agree(r, g, h),
        exact(g, r).dims == seq![b, c, t],
        1 <= t,
        t + 6 <= usize::MAX,
    ensures
        agree(r, depthwise(s, c, 7, 3, g, t), depthwise(s, c, 7, 3, h, t)),
        exact(depthwise(s, c, 7, 3, g, t), r).dims == seq![b, c, t],
{
    lemma_agree_taps(r, s, c, g, h, b, t, 6);
    let bias = reshaped(s.parameter("bias"@), seq![1usize, c, 1usize]);
    lemma_agree_itself(r, bias);
    assert(exact(bias, r).dims == seq![1usize, c, 1usize]);
    lemma_column_meets(b, c, t);
    lemma_agree_binary(r, BinaryOp::Sum, taps(s, c, 7, 3, g, t, 6), taps(s, c, 7, 3, h, t, 6), bias, bias);
}

/// A ConvNeXt block makes the same of the same.
pub(crate) proof fn lemma_agree_convnext(
    r: Reading,
    s: Scope,
    c: usize,
    m: usize,
    g: Graph,
    h: Graph,
    b: usize,
    t: usize,
)
    requires
        agree(r, g, h),
        exact(g, r).dims == seq![b, c, t],
        exact(s.parameter("gamma"@), r).dims == seq![c],
        1 <= t,
        t + 6 <= usize::MAX,
    ensures
        agree(r, convnext(s, c, m, g, t), convnext(s, c, m, h, t)),
        exact(convnext(s, c, m, g, t), r).dims == seq![b, c, t],
{
    lemma_agree_depthwise(r, s.at("dwconv"@), c, g, h, b, t);
    let (dg, dh) = (depthwise(s.at("dwconv"@), c, 7, 3, g, t), depthwise(s.at("dwconv"@), c, 7, 3, h, t));
    lemma_agree_transposed(r, dg, dh, 1, 2);
    let (fg, fh) = (transposed(dg, 1, 2), transposed(dh, 1, 2));
    assert(exact(fg, r).dims =~= seq![b, t, c]);
    let norm = norm_of(s.at("norm"@), c);
    lemma_agree_normalised(r, fg, fh, norm);
    let (ng, nh) = (Graph::LayerNorm(Box::new(fg), norm), Graph::LayerNorm(Box::new(fh), norm));
    let one = linear_of(s.at("pwconv1"@), c, m);
    lemma_agree_linear(r, ng, nh, one);
    let (ig, ih) = (Graph::Linear(Box::new(ng), one), Graph::Linear(Box::new(nh), one));
    assert(exact(ig, r).dims =~= seq![b, t, m]);
    lemma_agree_unary(r, UnaryOp::GeluErf, ig, ih);
    let (ig, ih) = (unary(UnaryOp::GeluErf, ig), unary(UnaryOp::GeluErf, ih));
    let two = linear_of(s.at("pwconv2"@), m, c);
    lemma_agree_linear(r, ig, ih, two);
    let (og, oh) = (Graph::Linear(Box::new(ig), two), Graph::Linear(Box::new(ih), two));
    assert(exact(og, r).dims =~= seq![b, t, c]);
    let gamma = s.parameter("gamma"@);
    lemma_agree_itself(r, gamma);
    let (all, row) = (seq![b, t, c], seq![c]);
    assert(pad_left(all, 3) =~= all && pad_left(row, 3) =~= seq![1usize, 1usize, c]);
    assert(broadcastable(all, row));
    assert(broadcast_shape(all, row) =~= all);
    lemma_agree_binary(r, BinaryOp::Product, og, oh, gamma, gamma);
    let (pg, ph) = (product(og, gamma), product(oh, gamma));
    lemma_agree_transposed(r, pg, ph, 1, 2);
    let (tg, th) = (transposed(pg, 1, 2), transposed(ph, 1, 2));
    assert(exact(tg, r).dims =~= seq![b, c, t]);
    lemma_column_meets(b, c, t);
    lemma_agree_binary(r, BinaryOp::Sum, g, h, tg, th);
}

/// The blocks make the same of the same.
proof fn lemma_agree_backbone(
    r: Reading,
    cfg: VocosConfig,
    s: Scope,
    m: nat,
    g: Graph,
    h: Graph,
    b: usize,
    t: usize,
)
    requires
        agree(r, g, h),
        exact(g, r).dims == seq![b, cfg.dim, t],
        reads_shapes(r, s),
        blocks_there(cfg, s, m),
        1 <= t,
        t + 6 <= usize::MAX,
    ensures
        agree(r, backbone(cfg, s, m, g, t), backbone(cfg, s, m, h, t)),
        exact(backbone(cfg, s, m, g, t), r).dims == seq![b, cfg.dim, t],
    decreases m,
{
    if m > 0 {
        let l = (m - 1) as nat;
        lemma_agree_backbone(r, cfg, s, l, g, h, b, t);
        let scope = block_scope(s, l);
        assert(convnext_there(scope, cfg.dim, cfg.intermediate_dim));
        assert(s.parameters.contains_key(scope.prefix + "gamma"@));
        let (pg, ph) = (backbone(cfg, s, l, g, t), backbone(cfg, s, l, h, t));
        lemma_agree_convnext(r, scope, cfg.dim, cfg.intermediate_dim, pg, ph, b, t);
    }
}

/// The network predicts the same of the same.
proof fn lemma_agree_prediction(r: Reading, cfg: VocosConfig, s: Scope, g: Graph, h: Graph, b: usize, t: usize)
    requires
        agree(r, g, h),
        exact(g, r).dims == seq![b, cfg.input_channels, t],
        reads_shapes(r, s),
        network_there(cfg, s),
        1 <= t,
        t + 6 <= usize::MAX,
        cfg.n_fft + 2 <= usize::MAX,
    ensures
        agree(r, prediction(cfg, s, g, t), prediction(cfg, s, h, t)),
        exact(prediction(cfg, s, g, t), r).dims == seq![b, (cfg.n_fft + 2) as usize, t],
{
    let bb = s.at("backbone"@);
    let layer = conv_of(bb.at("embed"@), true, cfg.input_channels, cfg.dim, 7, 3, 1, 1);
    lemma_agree_convolved(r, g, h, layer);
    let (cg, ch) = (convolved(g, layer), convolved(h, layer));
    assert(conv_len(t as int, 7, 3, 1, 1) == t);
    assert(exact(cg, r).dims =~= seq![b, cfg.dim, t]);
    lemma_agree_transposed(r, cg, ch, 1, 2);
    let (fg, fh) = (transposed(cg, 1, 2), transposed(ch, 1, 2));
    assert(exact(fg, r).dims =~= seq![b, t, cfg.dim]);
    let norm = norm_of(bb.at("norm"@), cfg.dim);
    lemma_agree_normalised(r, fg, fh, norm);
    let (ng, nh) = (Graph::LayerNorm(Box::new(fg), norm), Graph::LayerNorm(Box::new(fh), norm));
    lemma_agree_transposed(r, ng, nh, 1, 2);
    let (eg, eh) = (embedded(cfg, s, g), embedded(cfg, s, h));
    assert(eg == transposed(ng, 1, 2) && eh == transposed(nh, 1, 2));
    assert(exact(eg, r).dims =~= seq![b, cfg.dim, t]);
    let m = cfg.num_layers as nat;
    lemma_agree_backbone(r, cfg, s, m, eg, eh, b, t);
    let (xg, xh) = (backbone(cfg, s, m, eg, t), backbone(cfg, s, m, eh, t));
    lemma_agree_transposed(r, xg, xh, 1, 2);
    let (fg, fh) = (transposed(xg, 1, 2), transposed(xh, 1, 2));
    assert(exact(fg, r).dims =~= seq![b, t, cfg.dim]);
    let norm = norm_of(bb.at("final_layer_norm"@), cfg.dim);
    lemma_agree_normalised(r, fg, fh, norm);
    let (ng, nh) = (Graph::LayerNorm(Box::new(fg), norm), Graph::LayerNorm(Box::new(fh), norm));
    let out = linear_of(s.at("head.out"@), cfg.dim, (cfg.n_fft + 2) as usize);
    lemma_agree_linear(r, ng, nh, out);
    let (lg, lh) = (Graph::Linear(Box::new(ng), out), Graph::Linear(Box::new(nh), out));
    lemma_agree_transposed(r, lg, lh, 1, 2);
    assert(exact(lg, r).dims =~= seq![b, t, (cfg.n_fft + 2) as usize]);
    assert(prediction(cfg, s, g, t) == transposed(lg, 1, 2));
    assert(prediction(cfg, s, h, t) == transposed(lh, 1, 2));
    assert(exact(transposed(lg, 1, 2), r).dims =~= seq![b, (cfg.n_fft + 2) as usize, t]);
}

/// The parts of the spectrum are the same of the same.
proof fn lemma_agree_parts(r: Reading, cfg: VocosConfig, s: Scope, g: Graph, h: Graph, t: usize)
    requires
        agree(r, g, h),
        exact(g, r).dims == seq![1usize, cfg.input_channels, t],
        reads_shapes(r, s),
        network_there(cfg, s),
        1 <= t,
        t + 6 <= usize::MAX,
        cfg.n_fft + 2 <= usize::MAX,
    ensures
        agree(r, turned_back(real_part(cfg, s, g, t), cfg, t), turned_back(real_part(cfg, s, h, t), cfg, t)),
        agree(r, turned_back(imaginary_part(cfg, s, g, t), cfg, t), turned_back(imaginary_part(cfg, s, h, t), cfg, t)),
{
    let half = cfg.half();
    lemma_agree_prediction(r, cfg, s, g, h, 1, t);
    let (pg, ph) = (prediction(cfg, s, g, t), prediction(cfg, s, h, t));
    lemma_agree_narrowed(r, pg, ph, 1, 0, half);
    let (ng, nh) = (narrowed(pg, 1, 0, half), narrowed(ph, 1, 0, half));
    lemma_agree_unary(r, UnaryOp::Exp, ng, nh);
    lemma_agree_clamped(r, unary(UnaryOp::Exp, ng), unary(UnaryOp::Exp, nh), 0, 100);
    let (mg, mh) = (magnitude(cfg, pg), magnitude(cfg, ph));
    let dims = seq![1usize, half as usize, t];
    assert(exact(mg, r).dims =~= dims);
    lemma_agree_narrowed(r, pg, ph, 1, half, half);
    let (fg, fh) = (phase(cfg, pg), phase(cfg, ph));
    assert(exact(fg, r).dims =~= dims);
    lemma_agree_unary(r, UnaryOp::Cos, fg, fh);
    lemma_agree_unary(r, UnaryOp::Sin, fg, fh);
    lemma_column_meets(1, half as usize, t);
    lemma_agree_binary(r, BinaryOp::Product, mg, mh, unary(UnaryOp::Cos, fg), unary(UnaryOp::Cos, fh));
    lemma_agree_binary(r, BinaryOp::Product, mg, mh, unary(UnaryOp::Sin, fg), unary(UnaryOp::Sin, fh));
    lemma_agree_turned_back(r, cfg, real_part(cfg, s, g, t), real_part(cfg, s, h, t), t);
    lemma_agree_turned_back(r, cfg, imaginary_part(cfg, s, g, t), imaginary_part(cfg, s, h, t), t);
}

/// A part of the spectrum with the frames first.
proof fn lemma_agree_turned_back(r: Reading, cfg: VocosConfig, g: Graph, h: Graph, t: usize)
    requires
        agree(r, g, h),
        exact(g, r).dims == seq![1usize, cfg.half() as usize, t],
    ensures
        agree(r, turned_back(g, cfg, t), turned_back(h, cfg, t)),
{
    let n = cfg.half() as usize;
    lemma_element_count(seq![1usize, n, t]);
    lemma_element_count(seq![n, t]);
    assert(1 * n * t == n * t);
    lemma_agree_reshaped(r, g, h, seq![n, t]);
    lemma_agree_transposed(r, reshaped(g, seq![n, t]), reshaped(h, seq![n, t]), 0, 1);
}

/// A mel spectrogram and the same as a batch of one have the same spectrum, of which the samples are
/// made. `p` and `q` are the parts of the spectra of `mel` and of `one`.
pub proof fn law_matrix_and_batch_of_one_have_the_same_spectrum(
    r: Reading,
    cfg: VocosConfig,
    s: Scope,
    mel: Tensor,
    one: Tensor,
    t: usize,
    n: usize,
    p: (Tensor, Tensor),
    q: (Tensor, Tensor),
)
    requires
        shape(mel) == seq![t, n],
        shape(one) == seq![1usize, t, n],
        exact(graph(mel), r).dims == seq![t, n],
        graph(one) == reshaped(graph(mel), seq![1usize, t, n]),
        n == cfg.input_channels,
        cfg.n_fft + 2 <= usize::MAX,
        fits_alone(cfg, shape(mel)),
        reads_shapes(r, s),
        network_there(cfg, s),
        is_spectrum(cfg, s, mel, t, n, p),
        is_spectrum(cfg, s, one, t, n, q),
    ensures
        same_values(exact(graph(p.0), r), exact(graph(q.0), r)),
        same_values(exact(graph(p.1), r), exact(graph(q.1), r)),
{
    let g = graph(mel);
    let (flat, cube) = (seq![t, n], seq![1usize, t, n]);
    assert(matrix_of(shape(mel)) == Some((t, n)));
    lemma_element_count(flat);
    lemma_element_count(cube);
    assert(1 * t * n == t * n);
    let back = reshaped(reshaped(g, cube), flat);
    lemma_regrouped_back(exact(g, r), cube);
    assert(exact(back, r) == regrouped(regrouped(exact(g, r), cube), flat)) by {
        reveal_with_fuel(exact, 2);
    }
    assert(agree(r, back, g));
    lemma_agree_through(r, back, g, g);
    lemma_agree_transposed(r, g, back, 0, 1);
    let (tg, tb) = (transposed(g, 0, 1), transposed(back, 0, 1));
    assert(exact(tg, r).dims =~= seq![n, t]);
    let turned = seq![1usize, n, t];
    lemma_element_count(seq![n, t]);
    lemma_element_count(turned);
    assert(1 * n * t == n * t);
    lemma_agree_reshaped(r, tg, tb, turned);
    assert(turned_mel(mel, t, n) == reshaped(tg, turned));
    assert(turned_mel(one, t, n) == reshaped(tb, turned));
    lemma_agree_parts(r, cfg, s, turned_mel(mel, t, n), turned_mel(one, t, n), t);
}

} // verus!
