//! Laws on the BigVGAN generator: which layers it applies to what, over all settings and lengths.

use crate::agreement::{agree, lemma_agree_convolved};
use crate::bigvgan::{
    activation, activation_fits, amp_block, amp_pair, block_scope, is_waveform, lemma_channels, stage, stage_block,
    stage_blocks, stage_conv, stages, BigVganConfig,
};
use crate::exact::{combined, convolution, exact, is_zero, lemma_same_total, total, within, Reading};
use crate::graph::{convolved, deconvolved, over, sum, BinaryOp, ConvLayer, Graph};
use crate::layers::Scope;
use crate::tensor::{conv_len, graph, shape};
use crate::text::decimal;
use crate::values::{lemma_clipped, lemma_over_reads, lemma_same_shape, lemma_silent_convolution};
use crate::waveforms::lemma_agree_activation;
use candle_core::Tensor;
use vstd::prelude::*;

verus! {

/// An AMP block of no pairs is its input, and every pair there is a dilation for adds to what comes of
/// the pairs before it: activation, convolution with that dilation, activation, convolution.
pub proof fn law_every_pair_adds_its_branch(
    s: Scope,
    channels: usize,
    kernel: usize,
    dilations: Seq<usize>,
    i: nat,
    x: Graph,
    b: usize,
    t: usize,
)
    requires
        i < dilations.len(),
    ensures
        amp_block(s, channels, kernel, dilations, 0, x, b, t) == x,
        ({
            let y = amp_block(s, channels, kernel, dilations, i, x, b, t);
            let one = activation(s.at("activations."@ + decimal(2 * i)), channels, y, b, channels, t);
            let wide = Graph::Conv1d(
                Box::new(one),
                (ConvLayer {
                    weight: Box::new(s.parameters[s.prefix + ("convs1."@ + decimal(i)) + seq!['.'] + "weight"@]),
                    bias: Some(Box::new(s.parameters[s.prefix + ("convs1."@ + decimal(i)) + seq!['.'] + "bias"@])),
                    in_channels: channels,
                    out_channels: channels,
                    kernel,
                    padding: ((kernel - 1) * dilations[i as int] / 2) as usize,
                    stride: 1,
                    dilation: dilations[i as int],
                }),
            );
            let two = activation(s.at("activations."@ + decimal(2 * i + 1)), channels, wide, b, channels, t);
            let branch = Graph::Conv1d(
                Box::new(two),
                (ConvLayer {
                    weight: Box::new(s.parameters[s.prefix + ("convs2."@ + decimal(i)) + seq!['.'] + "weight"@]),
                    bias: Some(Box::new(s.parameters[s.prefix + ("convs2."@ + decimal(i)) + seq!['.'] + "bias"@])),
                    in_channels: channels,
                    out_channels: channels,
                    kernel,
                    padding: ((kernel - 1) * 1 / 2) as usize,
                    stride: 1,
                    dilation: 1,
                }),
            );
            amp_block(s, channels, kernel, dilations, i + 1, x, b, t) == Graph::Binary(
                BinaryOp::Sum,
                Box::new(branch),
                Box::new(y),
            )
        }),
{
    reveal(amp_pair);
    reveal_with_fuel(amp_block, 2);
}

/// The first operand of a sum: the branch of a residual pair.
spec fn branch_of(g: Graph) -> Graph {
    match g {
        Graph::Binary(_, branch, _) => *branch,
        _ => g,
    }
}

/// Whether the last convolution of pair `i` of an AMP block is 0.
pub open spec fn pair_is_silent(r: Reading, s: Scope, i: nat) -> bool {
    let scope = s.at("convs2."@ + decimal(i));
    is_zero(exact(scope.parameter("weight"@), r)) && is_zero(exact(scope.parameter("bias"@), r))
}

/// Whether the convolutions of an AMP block keep the length of what they are given.
pub open spec fn keeps_lengths(kernel: usize, dilations: Seq<usize>) -> bool {
    &&& kernel >= 1
    &&& (kernel - 1) % 2 == 0
    &&& forall|i: int|
        0 <= i < dilations.len() ==> (kernel - 1) * #[trigger] dilations[i] % 2 == 0 && (kernel - 1) * dilations[i]
            <= usize::MAX
}

/// What a pair comes to.
proof fn lemma_pair_reads(
    r: Reading,
    s: Scope,
    channels: usize,
    kernel: usize,
    dilations: Seq<usize>,
    i: nat,
    y: Graph,
    b: usize,
    t: usize,
)
    requires
        i < dilations.len(),
        exact(y, r).dims == seq![b, channels, t],
        keeps_lengths(kernel, dilations),
        2 * t + 30 <= usize::MAX,
    ensures
        ({
            let pair = amp_pair(s, channels, kernel, dilations[i as int], i, y, b, t);
            &&& exact(pair, r).dims == seq![b, channels, t]
            &&& exact(branch_of(pair), r).dims == seq![b, channels, t]
            &&& forall|at: Seq<int>|
                within(at, seq![b, channels, t]) ==> #[trigger] (exact(pair, r).at)(at) == (exact(
                    branch_of(pair),
                    r,
                ).at)(at) + (exact(y, r).at)(at)
            &&& pair_is_silent(r, s, i) ==> forall|at: Seq<int>| #[trigger]
                (exact(branch_of(pair), r).at)(at) == 0 as real
        }),
{
    reveal(amp_pair);
    let d = dilations[i as int];
    let pair = amp_pair(s, channels, kernel, d, i, y, b, t);
    let branch = branch_of(pair);
    let dims = seq![b, channels, t];
    assert(pair == sum(branch, y));
    let scope = s.at("convs2."@ + decimal(i));
    let layer = crate::layers::conv_of(
        scope,
        true,
        channels,
        channels,
        kernel,
        crate::bigvgan::amp_padding(kernel, 1),
        1,
        1,
    );
    let inner = branch->Conv1d_0;
    assert(branch == convolved(*inner, layer));
    assert(exact(*inner, r).dims == dims);
    let (w, v) = (exact(scope.parameter("weight"@), r), exact(scope.parameter("bias"@), r));
    assert(exact(branch, r) == convolution(exact(*inner, r), w, v, layer));
    assert(conv_len(t as int, kernel as int, ((kernel - 1) * 1 / 2) as int, 1, 1) == t);
    assert(exact(branch, r).dims =~= dims);
    lemma_same_shape(dims);
    assert(exact(pair, r) == combined(BinaryOp::Sum, exact(branch, r), exact(y, r)));
    assert forall|at: Seq<int>| within(at, dims) implies #[trigger] (exact(pair, r).at)(at) == (exact(branch, r).at)(
        at,
    ) + (exact(y, r).at)(at) by {
        lemma_clipped(at, dims);
    }
    if pair_is_silent(r, s, i) {
        assert forall|at: Seq<int>| #[trigger] (exact(branch, r).at)(at) == 0 as real by {
            lemma_silent_convolution(exact(*inner, r), w, v, layer, at);
        }
    }
}

/// Pairs that are silent leave their input alone.
proof fn lemma_silent_pairs(
    r: Reading,
    s: Scope,
    channels: usize,
    kernel: usize,
    dilations: Seq<usize>,
    m: nat,
    n: nat,
    x: Graph,
    b: usize,
    t: usize,
)
    requires
        m <= n <= dilations.len(),
        exact(x, r).dims == seq![b, channels, t],
        keeps_lengths(kernel, dilations),
        2 * t + 30 <= usize::MAX,
        forall|i: nat| m <= i < n ==> #[trigger] pair_is_silent(r, s, i),
    ensures
        exact(amp_block(s, channels, kernel, dilations, m, x, b, t), r).dims == seq![b, channels, t],
        agree(
            r,
            amp_block(s, channels, kernel, dilations, n, x, b, t),
            amp_block(s, channels, kernel, dilations, m, x, b, t),
        ),
    decreases n,
{
    let from = amp_block(s, channels, kernel, dilations, m, x, b, t);
    if n > m {
        let l = (n - 1) as nat;
        lemma_silent_pairs(r, s, channels, kernel, dilations, m, l, x, b, t);
        let y = amp_block(s, channels, kernel, dilations, l, x, b, t);
        lemma_pair_reads(r, s, channels, kernel, dilations, l, y, b, t);
        let z = amp_block(s, channels, kernel, dilations, n, x, b, t);
        assert(z == amp_pair(s, channels, kernel, dilations[l as int], l, y, b, t));
        assert(pair_is_silent(r, s, l));
        let branch = branch_of(z);
        assert forall|at: Seq<int>| within(at, exact(z, r).dims) implies #[trigger] (exact(z, r).at)(at) == (exact(
            from,
            r,
        ).at)(at) by {
            assert((exact(branch, r).at)(at) == 0 as real);
            assert((exact(y, r).at)(at) == (exact(from, r).at)(at));
        }
    } else if m > 0 {
        let l = (m - 1) as nat;
        lemma_silent_pairs(r, s, channels, kernel, dilations, l, l, x, b, t);
        let y = amp_block(s, channels, kernel, dilations, l, x, b, t);
        lemma_pair_reads(r, s, channels, kernel, dilations, l, y, b, t);
        assert(from == amp_pair(s, channels, kernel, dilations[l as int], l, y, b, t));
    }
}

/// Every pair counts: where all pairs of an AMP block but one are silent, the block changes its input
/// by what the branch of that one makes of it, whichever it is.
pub proof fn law_one_pair_alone_adds_its_branch(
    r: Reading,
    s: Scope,
    channels: usize,
    kernel: usize,
    dilations: Seq<usize>,
    j: nat,
    x: Graph,
    b: usize,
    t: usize,
    at: Seq<int>,
)
    requires
        j < dilations.len(),
        exact(x, r).dims == seq![b, channels, t],
        keeps_lengths(kernel, dilations),
        1 <= t,
        activation_fits(b, channels, t),
        forall|i: nat| i < dilations.len() && i != j ==> #[trigger] pair_is_silent(r, s, i),
        within(at, seq![b, channels, t]),
    ensures
        ({
            let one = activation(s.at("activations."@ + decimal(2 * j)), channels, x, b, channels, t);
            let wide = Graph::Conv1d(
                Box::new(one),
                (ConvLayer {
                    weight: Box::new(s.at("convs1."@ + decimal(j)).parameter("weight"@)),
                    bias: Some(Box::new(s.at("convs1."@ + decimal(j)).parameter("bias"@))),
                    in_channels: channels,
                    out_channels: channels,
                    kernel,
                    padding: ((kernel - 1) * dilations[j as int] / 2) as usize,
                    stride: 1,
                    dilation: dilations[j as int],
                }),
            );
            let two = activation(s.at("activations."@ + decimal(2 * j + 1)), channels, wide, b, channels, t);
            let branch = Graph::Conv1d(
                Box::new(two),
                (ConvLayer {
                    weight: Box::new(s.at("convs2."@ + decimal(j)).parameter("weight"@)),
                    bias: Some(Box::new(s.at("convs2."@ + decimal(j)).parameter("bias"@))),
                    in_channels: channels,
                    out_channels: channels,
                    kernel,
                    padding: ((kernel - 1) * 1 / 2) as usize,
                    stride: 1,
                    dilation: 1,
                }),
            );
            (exact(amp_block(s, channels, kernel, dilations, dilations.len(), x, b, t), r).at)(at) == (exact(
                x,
                r,
            ).at)(at) + (exact(branch, r).at)(at)
        }),
{
    let n = dilations.len();
    let d = dilations[j as int];
    let dims = seq![b, channels, t];
    lemma_silent_pairs(r, s, channels, kernel, dilations, 0, j, x, b, t);
    lemma_silent_pairs(r, s, channels, kernel, dilations, j + 1, n, x, b, t);
    let y = amp_block(s, channels, kernel, dilations, j, x, b, t);
    assert(amp_block(s, channels, kernel, dilations, 0, x, b, t) == x);
    let z = amp_block(s, channels, kernel, dilations, j + 1, x, b, t);
    lemma_pair_reads(r, s, channels, kernel, dilations, j, y, b, t);
    assert(z == amp_pair(s, channels, kernel, d, j, y, b, t));
    reveal(amp_pair);
    let s1 = s.at("activations."@ + decimal(2 * j));
    let s2 = s.at("activations."@ + decimal(2 * j + 1));
    let l1 = crate::layers::conv_of(
        s.at("convs1."@ + decimal(j)),
        true,
        channels,
        channels,
        kernel,
        crate::bigvgan::amp_padding(kernel, d),
        1,
        d,
    );
    let l2 = crate::layers::conv_of(
        s.at("convs2."@ + decimal(j)),
        true,
        channels,
        channels,
        kernel,
        crate::bigvgan::amp_padding(kernel, 1),
        1,
        1,
    );
    lemma_agree_activation(r, s1, y, x, b, channels, t);
    let (ay, ax) = (activation(s1, channels, y, b, channels, t), activation(s1, channels, x, b, channels, t));
    lemma_agree_convolved(r, ay, ax, l1);
    let (wy, wx) = (convolved(ay, l1), convolved(ax, l1));
    assert(conv_len(t as int, kernel as int, ((kernel - 1) * d / 2) as int, 1, d as int) == t) by {
        assert(d * (kernel - 1) == (kernel - 1) * d) by (nonlinear_arith);
    }
    assert(exact(wy, r).dims =~= dims);
    lemma_agree_activation(r, s2, wy, wx, b, channels, t);
    let (by, bx) = (activation(s2, channels, wy, b, channels, t), activation(s2, channels, wx, b, channels, t));
    lemma_agree_convolved(r, by, bx, l2);
    assert(branch_of(z) == convolved(by, l2));
    let whole = amp_block(s, channels, kernel, dilations, n, x, b, t);
    assert((exact(whole, r).at)(at) == (exact(z, r).at)(at));
    assert((exact(z, r).at)(at) == (exact(branch_of(z), r).at)(at) + (exact(y, r).at)(at));
    assert((exact(y, r).at)(at) == (exact(x, r).at)(at));
    assert((exact(convolved(by, l2), r).at)(at) == (exact(convolved(bx, l2), r).at)(at));
}

/// Whether the AMP blocks of each stage keep the length of what they are given.
pub open spec fn blocks_keep_lengths(cfg: BigVganConfig) -> bool {
    &&& 1 <= cfg.resblock_kernel_sizes@.len() <= cfg.resblock_dilation_sizes@.len()
    &&& forall|j: int|
        0 <= j < cfg.resblock_kernel_sizes@.len() ==> keeps_lengths(
            cfg.resblock_kernel_sizes@[j],
            #[trigger] cfg.resblock_dilation_sizes@[j]@,
        )
}

/// The pairs of an AMP block keep the shape.
proof fn lemma_pairs_keep_the_shape(
    r: Reading,
    s: Scope,
    channels: usize,
    kernel: usize,
    dilations: Seq<usize>,
    n: nat,
    x: Graph,
    b: usize,
    t: usize,
)
    requires
        n <= dilations.len(),
        exact(x, r).dims == seq![b, channels, t],
        keeps_lengths(kernel, dilations),
        2 * t + 30 <= usize::MAX,
    ensures
        exact(amp_block(s, channels, kernel, dilations, n, x, b, t), r).dims == seq![b, channels, t],
{
    lemma_silent_pairs(r, s, channels, kernel, dilations, n, n, x, b, t);
}

/// The sum of the first `m` blocks of a stage.
proof fn lemma_blocks_add_up(
    r: Reading,
    cfg: BigVganConfig,
    s: Scope,
    i: nat,
    m: nat,
    x: Graph,
    b: usize,
    t: usize,
    at: Seq<int>,
)
    requires
        blocks_keep_lengths(cfg),
        1 <= m <= cfg.resblock_kernel_sizes@.len(),
        exact(x, r).dims == seq![b, cfg.channels(i + 1), t],
        2 * t + 30 <= usize::MAX,
        within(at, exact(x, r).dims),
    ensures
        exact(stage_blocks(cfg, s, i, m, x, b, t), r).dims == seq![b, cfg.channels(i + 1), t],
        (exact(stage_blocks(cfg, s, i, m, x, b, t), r).at)(at) == total(
            |j: int| (exact(stage_block(cfg, s, i, j as nat, x, b, t), r).at)(at),
            m,
        ),
    decreases m,
{
    let f = |j: int| (exact(stage_block(cfg, s, i, j as nat, x, b, t), r).at)(at);
    let dims = seq![b, cfg.channels(i + 1), t];
    let l = (m - 1) as nat;
    let last = stage_block(cfg, s, i, l, x, b, t);
    let dilations = cfg.resblock_dilation_sizes@[l as int]@;
    lemma_pairs_keep_the_shape(
        r,
        block_scope(cfg, s, i, l),
        cfg.channels(i + 1),
        cfg.resblock_kernel_sizes@[l as int],
        dilations,
        dilations.len(),
        x,
        b,
        t,
    );
    assert(exact(last, r).dims == dims);
    if m == 1 {
        reveal_with_fuel(total, 2);
    } else {
        lemma_blocks_add_up(r, cfg, s, i, l, x, b, t, at);
        let before = stage_blocks(cfg, s, i, l, x, b, t);
        let whole = stage_blocks(cfg, s, i, m, x, b, t);
        assert(whole == sum(before, last));
        lemma_same_shape(dims);
        lemma_clipped(at, dims);
        assert(exact(whole, r) == combined(BinaryOp::Sum, exact(before, r), exact(last, r)));
        assert(total(f, m) == total(f, l) + f(l as int));
    }
}

/// A stage raises the rate by its transposed convolution and averages what all its AMP blocks, each
/// with all its dilations, make of that.
pub proof fn law_stage_averages_its_blocks(
    r: Reading,
    cfg: BigVganConfig,
    s: Scope,
    i: nat,
    x: Graph,
    b: usize,
    t: usize,
    at: Seq<int>,
)
    requires
        blocks_keep_lengths(cfg),
        2 * (cfg.length(t as int, i + 1) as usize) + 30 <= usize::MAX,
        exact(raised(cfg, s, i, x), r).dims == seq![b, cfg.channels(i + 1), cfg.length(t as int, i + 1) as usize],
        within(at, exact(raised(cfg, s, i, x), r).dims),
    ensures
        raised(cfg, s, i, x) == Graph::ConvTranspose1d(
            Box::new(x),
            (ConvLayer {
                weight: Box::new(s.parameters[s.prefix + ("ups."@ + decimal(i) + ".0"@) + seq!['.'] + "weight"@]),
                bias: Some(Box::new(s.parameters[s.prefix + ("ups."@ + decimal(i) + ".0"@) + seq!['.'] + "bias"@])),
                in_channels: cfg.channels(i),
                out_channels: cfg.channels(i + 1),
                kernel: cfg.upsample_kernel_sizes@[i as int],
                padding: ((cfg.upsample_kernel_sizes@[i as int] - cfg.upsample_rates@[i as int]) / 2) as usize,
                stride: cfg.upsample_rates@[i as int],
                dilation: 1,
            }),
        ),
        exact(stage(cfg, s, i, x, b, t), r).dims == exact(raised(cfg, s, i, x), r).dims,
        (cfg.resblock_kernel_sizes@.len() as real) * (exact(stage(cfg, s, i, x, b, t), r).at)(at) == total(
            |j: int|
                (exact(
                    amp_block(
                        s.at("resblocks."@ + decimal((i * cfg.resblock_kernel_sizes@.len() + j) as nat)),
                        cfg.channels(i + 1),
                        cfg.resblock_kernel_sizes@[j],
                        cfg.resblock_dilation_sizes@[j]@,
                        cfg.resblock_dilation_sizes@[j]@.len(),
                        raised(cfg, s, i, x),
                        b,
                        cfg.length(t as int, i + 1) as usize,
                    ),
                    r,
                ).at)(at),
            cfg.resblock_kernel_sizes@.len(),
        ),
{
    reveal(stage);
    let n = cfg.resblock_kernel_sizes@.len();
    let up = raised(cfg, s, i, x);
    let l = cfg.length(t as int, i + 1) as usize;
    let added = stage_blocks(cfg, s, i, n, up, b, l);
    lemma_blocks_add_up(r, cfg, s, i, n, up, b, l, at);
    lemma_over_reads(r, added, n as int);
    let f = |j: int| (exact(stage_block(cfg, s, i, j as nat, up, b, l), r).at)(at);
    let g = |j: int|
        (exact(
            amp_block(
                s.at("resblocks."@ + decimal((i * cfg.resblock_kernel_sizes@.len() + j) as nat)),
                cfg.channels(i + 1),
                cfg.resblock_kernel_sizes@[j],
                cfg.resblock_dilation_sizes@[j]@,
                cfg.resblock_dilation_sizes@[j]@.len(),
                raised(cfg, s, i, x),
                b,
                cfg.length(t as int, i + 1) as usize,
            ),
            r,
        ).at)(at);
    lemma_same_total(f, g, n);
    let (m, v) = (n as real, (exact(added, r).at)(at));
    assert(m * (v * ((1 as real) / m) + (0 as real)) == v) by (nonlinear_arith)
        requires
            m != 0 as real,
    ;
}

/// What the transposed convolution of stage `i` makes of `x`.
pub open spec fn raised(cfg: BigVganConfig, s: Scope, i: nat, x: Graph) -> Graph {
    deconvolved(x, stage_conv(cfg, s, i))
}

/// No stages leave the signal alone, and every stage works on what comes of the stages before it. The
/// channels start as the settings say and halve from stage to stage.
pub proof fn law_stages_follow_one_another(
    cfg: BigVganConfig,
    s: Scope,
    i: nat,
    x: Graph,
    b: usize,
    t: usize,
)
    ensures
        stages(cfg, s, 0, x, b, t) == x,
        stages(cfg, s, i + 1, x, b, t) == stage(cfg, s, i, stages(cfg, s, i, x, b, t), b, t),
        cfg.channels(0) == cfg.upsample_initial_channel,
        cfg.channels(i + 1) == cfg.channels(i) / 2,
{
    reveal_with_fuel(stages, 2);
    lemma_channels(cfg, i);
}

/// A waveform is what `conv_post` makes of the activated result of all stages on what `conv_pre` makes
/// of the mel spectrogram, cut off below -1 and above 1, at every length.
pub proof fn law_waveform_is_made_of_all_stages(cfg: BigVganConfig, s: Scope, mel: Tensor, y: Tensor)
    requires
        is_waveform(cfg, s, mel, y),
        cfg.upsample_rates@.len() <= cfg.upsample_kernel_sizes@.len(),
    ensures
        ({
            let (b, t, n) = (shape(mel)[0], shape(mel)[2], cfg.upsample_rates@.len());
            let first = Graph::Conv1d(
                Box::new(graph(mel)),
                (ConvLayer {
                    weight: Box::new(s.parameters[s.prefix + "conv_pre"@ + seq!['.'] + "weight"@]),
                    bias: Some(Box::new(s.parameters[s.prefix + "conv_pre"@ + seq!['.'] + "bias"@])),
                    in_channels: cfg.num_mels,
                    out_channels: cfg.upsample_initial_channel,
                    kernel: 7,
                    padding: 3,
                    stride: 1,
                    dilation: 1,
                }),
            );
            let l = cfg.length(t as int, n) as usize;
            let active = activation(
                s.at("activation_post"@),
                cfg.channels(n),
                stages(cfg, s, n, first, b, t),
                b,
                cfg.channels(n),
                l,
            );
            let last = Graph::Conv1d(
                Box::new(active),
                (ConvLayer {
                    weight: Box::new(s.parameters[s.prefix + "conv_post"@ + seq!['.'] + "weight"@]),
                    bias: None,
                    in_channels: cfg.channels(n),
                    out_channels: 1,
                    kernel: 7,
                    padding: 3,
                    stride: 1,
                    dilation: 1,
                }),
            );
            graph(y) == (Graph::Clamp { x: Box::new(last), lo: -1, hi: 1 }) && shape(y) == seq![b, 1usize, l]
        }),
{
}

/// A stage adds up its blocks one after the other, all of them, and takes the sum over their number,
/// whatever the kernels.
pub proof fn law_stage_adds_all_its_blocks(
    cfg: BigVganConfig,
    s: Scope,
    i: nat,
    j: nat,
    x: Graph,
    b: usize,
    t: usize,
)
    ensures
        ({
            let n = cfg.resblock_kernel_sizes@.len();
            let l = cfg.length(t as int, i + 1) as usize;
            let block = |k: nat|
                amp_block(
                    s.at("resblocks."@ + decimal(i * n + k)),
                    cfg.channels(i + 1),
                    cfg.resblock_kernel_sizes@[k as int],
                    cfg.resblock_dilation_sizes@[k as int]@,
                    cfg.resblock_dilation_sizes@[k as int]@.len(),
                    raised(cfg, s, i, x),
                    b,
                    l,
                );
            let sums = |k: nat| stage_blocks(cfg, s, i, k, raised(cfg, s, i, x), b, l);
            &&& stage(cfg, s, i, x, b, t) == over(sums(n), n as int)
            &&& sums(1) == block(0)
            &&& j >= 1 ==> sums(j + 1) == Graph::Binary(BinaryOp::Sum, Box::new(sums(j)), Box::new(block(j)))
        }),
{
    reveal(stage);
}

} // verus!
