//! Vocos vocoder: a ConvNeXt backbone whose head predicts the magnitude and the phase of a short-time
//! spectrum, and the inverse transform that makes a waveform of it.

use crate::error::{lift, VcError};
use crate::graph::{
    capped, convolved, narrowed, product, reshaped, sum, transposed, unary, zero_padded, Graph, UnaryOp,
};
use crate::layers::{
    are_ready, are_sound, conv1d_forward, conv1d_layer, conv1d_packed, conv1d_ready, conv_of, conv_there,
    layer_norm_forward, linear_forward, linear_layer, linear_of, linear_packed, linear_ready, linear_there,
    load_conv1d, load_layer_norm, load_linear, norm_layer, norm_of, norm_ready, norm_there, root, Scope, Weights,
};
use crate::signal::{
    are_related, is_overlap_add, is_running_sum, is_sum, is_zip, keeps_relation_of_two, law_related_sums, overlap_add,
    overlapping, zip,
};
use crate::tensor::{
    conv_fits, conv_len, graph, is_float, lemma_column_count, lemma_element_count, minimum, narrow, nonempty,
    pad_with_zeros, plain, reshape, shape, sound, squeeze, transpose, unsqueeze,
};
use crate::text::{decimal, numbered, to_decimal};
use candle_core::{Device, Error, Tensor};
use candle_nn::{Conv1d, LayerNorm, Linear};
use vstd::prelude::*;

verus! {

/// Vocoder hyperparameters.
#[derive(Debug, Clone)]
pub struct VocosConfig {
    /// Mel bins of the input spectrogram.
    pub input_channels: usize,
    /// Channels of the backbone.
    pub dim: usize,
    /// Channels inside a block.
    pub intermediate_dim: usize,
    /// Blocks of the backbone.
    pub num_layers: usize,
    /// Samples that a frame of the spectrum spans.
    pub n_fft: usize,
    /// Samples from one frame to the next.
    pub hop_size: usize,
    pub sample_rate: usize,
}

impl VocosConfig {
    /// The settings of the 24 kHz vocoder.
    pub open spec fn is_24khz_128band(self) -> bool {
        &&& self.input_channels == 128
        &&& self.dim == 1024
        &&& self.intermediate_dim == 4096
        &&& self.num_layers == 30
        &&& self.n_fft == 1920
        &&& self.hop_size == 480
        &&& self.sample_rate == 24_000
    }
}

impl Default for VocosConfig {
    fn default() -> (r: Self)
        ensures
            r.is_24khz_128band(),
    {
        VocosConfig {
            input_channels: 128,
            dim: 1024,
            intermediate_dim: 4096,
            num_layers: 30,
            n_fft: 1920,
            hop_size: 480,
            sample_rate: 24_000,
        }
    }
}

/// What tap `k` of a depthwise convolution contributes: the padded input from frame `k` on, times
/// the tap's weight in every channel.
pub open spec fn tap(s: Scope, channels: usize, kernel: usize, padding: usize, x: Graph, t: usize, k: int) -> Graph {
    let taps = reshaped(s.parameter("weight"@), seq![channels, kernel]);
    product(
        narrowed(zero_padded(x, 2, padding as int, padding as int), 2, k, t as int),
        reshaped(narrowed(taps, 1, k, 1), seq![1usize, channels, 1usize]),
    )
}

/// The sum of taps `0 ..= k`.
pub open spec fn taps(s: Scope, channels: usize, kernel: usize, padding: usize, x: Graph, t: usize, k: nat) -> Graph
    decreases k,
{
    let last = tap(s, channels, kernel, padding, x, t, k as int);
    if k == 0 { last } else { sum(taps(s, channels, kernel, padding, x, t, (k - 1) as nat), last) }
}

/// The depthwise convolution of `x`, which has `t` frames: every channel has its own kernel.
pub open spec fn depthwise(s: Scope, channels: usize, kernel: usize, padding: usize, x: Graph, t: usize) -> Graph {
    sum(
        taps(s, channels, kernel, padding, x, t, (kernel - 1) as nat),
        reshaped(s.parameter("bias"@), seq![1usize, channels, 1usize]),
    )
}

/// Whether the parameters of a depthwise convolution are there.
pub open spec fn depthwise_there(s: Scope, channels: usize, kernel: usize) -> bool {
    &&& s.holds("weight"@, seq![channels, 1usize, kernel])
    &&& s.holds("bias"@, seq![channels])
}

/// A depthwise convolution, computed tap by tap over all channels at once.
struct DepthwiseConv1d {
    /// `[channels, kernel_size]`.
    weight: Tensor,
    bias: Tensor,
    kernel_size: usize,
    padding: usize,
}

impl DepthwiseConv1d {
    spec fn loaded(self, s: Scope, channels: usize, kernel: usize, padding: usize) -> bool {
        &&& shape(self.weight) == seq![channels, kernel]
        &&& graph(self.weight) == reshaped(s.parameter("weight"@), seq![channels, kernel])
        &&& shape(self.bias) == seq![channels]
        &&& graph(self.bias) == s.parameter("bias"@)
        &&& s.ready ==> plain(self.weight) && plain(self.bias)
        &&& self.kernel_size == kernel
        &&& self.padding == padding
    }

    fn load(channels: usize, kernel_size: usize, padding: usize, w: &Weights) -> (r: Result<Self, Error>)
        ensures
            r matches Ok(a) ==> a.loaded(w.scope(), channels, kernel_size, padding) && depthwise_there(
                w.scope(),
                channels,
                kernel_size,
            ),
            w.scope().ready && depthwise_there(w.scope(), channels, kernel_size) ==> r is Ok,
    {
        let dims = vec![channels, 1, kernel_size];
        assert(dims@ == seq![channels, 1usize, kernel_size]);
        let weight = w.get(dims, "weight")?;
        let weight = squeeze(&weight, 1)?;
        assert(shape(weight) == seq![channels, kernel_size]);
        let dims = vec![channels];
        assert(dims@ == seq![channels]);
        let bias = w.get(dims, "bias")?;
        Ok(DepthwiseConv1d { weight, bias, kernel_size, padding })
    }

    /// `x` is `[batch, channels, frames]`.
    fn forward(
        &self,
        x: &Tensor,
        Ghost(s): Ghost<Scope>,
        Ghost(channels): Ghost<usize>,
        Ghost(kernel): Ghost<usize>,
        Ghost(padding): Ghost<usize>,
    ) -> (r: Result<Tensor, Error>)
        requires
            self.loaded(s, channels, kernel, padding),
            kernel >= 1,
            is_float(*x),
            shape(*x).len() == 3,
            shape(*x)[1] == channels,
            nonempty(shape(*x)),
            shape(*x)[2] + 2 * padding <= usize::MAX,
        ensures
            r matches Ok(y) ==> shape(y) == shape(*x) && is_float(y) == is_float(*x) && graph(y) == depthwise(
                s,
                channels,
                kernel,
                padding,
                graph(*x),
                shape(*x)[2],
            ),
            s.ready && plain(*x) && kernel <= 2 * padding + 1 ==> (r matches Ok(y) && plain(y)),
    {
        let (b, c, t) = x.dims3()?;
        let xp = pad_with_zeros(x, 2, self.padding, self.padding)?;
        let mut acc = self.term(&xp, c, t, 0)?;
        assert(shape(acc) == shape(*x));
        let mut k: usize = 1;
        while k < self.kernel_size
            invariant
                self.loaded(s, channels, kernel, padding),
                1 <= k <= kernel,
                c == channels,
                shape(*x) == seq![b, c, t],
                shape(xp).len() == 3,
                shape(xp)[0] == b,
                shape(xp)[1] == c,
                shape(xp)[2] == t + 2 * padding,
                is_float(xp),
                is_float(xp) == is_float(*x),
                s.ready && plain(*x) && kernel <= 2 * padding + 1 ==> plain(xp) && plain(acc),
                graph(xp) == zero_padded(graph(*x), 2, padding as int, padding as int),
                shape(acc) == shape(*x),
                is_float(acc) == is_float(*x),
                graph(acc) == taps(s, channels, kernel, padding, graph(*x), t, (k - 1) as nat),
            decreases kernel - k,
        {
            let term = self.term(&xp, c, t, k)?;
            assert(shape(term) == shape(*x));
            acc = acc.add(&term)?;
            k += 1;
        }
        proof {
            lemma_column_count(c);
        }
        let column = vec![1, c, 1];
        assert(column@ == seq![1usize, c, 1usize]);
        let bias = reshape(&self.bias, column)?;
        let y = acc.broadcast_add(&bias)?;
        assert(shape(y) == shape(*x));
        Ok(y)
    }

    /// What tap `k` contributes: `xp` is the padded input.
    fn term(&self, xp: &Tensor, c: usize, t: usize, k: usize) -> (r: Result<Tensor, Error>)
        requires
            is_float(*xp),
            shape(*xp).len() == 3,
            shape(*xp)[1] == c,
        ensures
            r matches Ok(y) ==> shape(y) == shape(*xp).update(2, t) && is_float(y) == is_float(*xp) && graph(y)
                == product(
                narrowed(graph(*xp), 2, k as int, t as int),
                reshaped(narrowed(graph(self.weight), 1, k as int, 1), seq![1usize, c, 1usize]),
            ),
            plain(*xp) && plain(self.weight) && shape(self.weight) == seq![c, shape(self.weight)[1]] && k < shape(
                self.weight,
            )[1] && k + t <= shape(*xp)[2] ==> (r matches Ok(y) && plain(y)),
    {
        let xk = narrow(xp, 2, k, t)?;
        let tap = narrow(&self.weight, 1, k, 1)?;
        proof {
            lemma_column_count(c);
            lemma_element_count(seq![c, 1usize]);
            assert(shape(self.weight) == seq![c, shape(self.weight)[1]] ==> shape(tap) == seq![c, 1usize]);
        }
        let column = vec![1, c, 1];
        assert(column@ == seq![1usize, c, 1usize]);
        let wk = reshape(&tap, column)?;
        let y = xk.broadcast_mul(&wk)?;
        assert(shape(y) == shape(xk));
        Ok(y)
    }
}

/// A point of the computation that an observer is told of.
#[derive(Debug, Clone, Copy, PartialEq, Eq, Structural)]
pub enum Step {
    /// The embedding and its normalisation are done.
    EmbedNorm,
    /// A step of the first block is done.
    Dwconv,
    Transpose1,
    Norm,
    Pwconv1,
    Gelu,
    Pwconv2,
    GammaMul,
    Transpose2,
    ResidualAdd,
    /// The block of that number is done.
    Block(usize),
    /// The last normalisation is done.
    FinalNorm,
    /// The head is done.
    Head,
}

/// A ConvNeXt block of `x`, which has `t` frames: a depthwise convolution, then two linear layers
/// over the channels of every frame, scaled and added to the input.
pub open spec fn convnext(s: Scope, dim: usize, intermediate_dim: usize, x: Graph, t: usize) -> Graph {
    let frames = transposed(depthwise(s.at("dwconv"@), dim, 7, 3, x, t), 1, 2);
    let normed = Graph::LayerNorm(Box::new(frames), norm_of(s.at("norm"@), dim));
    let inner = unary(
        UnaryOp::GeluErf,
        Graph::Linear(Box::new(normed), linear_of(s.at("pwconv1"@), dim, intermediate_dim)),
    );
    let outer = Graph::Linear(Box::new(inner), linear_of(s.at("pwconv2"@), intermediate_dim, dim));
    sum(x, transposed(product(outer, s.parameter("gamma"@)), 1, 2))
}

/// Whether the parameters of a ConvNeXt block are there.
pub open spec fn convnext_there(s: Scope, dim: usize, intermediate_dim: usize) -> bool {
    &&& depthwise_there(s.at("dwconv"@), dim, 7)
    &&& norm_there(s.at("norm"@), dim)
    &&& linear_there(s.at("pwconv1"@), dim, intermediate_dim)
    &&& linear_there(s.at("pwconv2"@), intermediate_dim, dim)
    &&& s.holds("gamma"@, seq![dim])
}

/// Whether an observer lets every step pass.
pub open spec fn never_fails<F: Fn(Step) -> Result<(), Error>>(observe: F) -> bool {
    forall|step: Step, v: Result<(), Error>| #[trigger] call_ensures(observe, (step,), v) ==> v is Ok
}

/// Whether an observer can let a step pass.
pub open spec fn passes<F: Fn(Step) -> Result<(), Error>>(observe: F, step: Step) -> bool {
    call_ensures(observe, (step,), Ok::<(), Error>(()))
}

/// Whether an observer can let all steps inside a block pass.
pub open spec fn passes_inside<F: Fn(Step) -> Result<(), Error>>(observe: F) -> bool {
    &&& passes(observe, Step::Dwconv)
    &&& passes(observe, Step::Transpose1)
    &&& passes(observe, Step::Norm)
    &&& passes(observe, Step::Pwconv1)
    &&& passes(observe, Step::Gelu)
    &&& passes(observe, Step::Pwconv2)
    &&& passes(observe, Step::GammaMul)
    &&& passes(observe, Step::Transpose2)
    &&& passes(observe, Step::ResidualAdd)
}

/// Whether an observer can let all steps of a network of `n` blocks pass; of the first block it is told the
/// steps inside, too.
pub open spec fn passes_all<F: Fn(Step) -> Result<(), Error>>(observe: F, n: usize) -> bool {
    &&& passes(observe, Step::EmbedNorm)
    &&& n > 0 ==> passes_inside(observe)
    &&& forall|i: usize| i < n ==> #[trigger] passes(observe, Step::Block(i))
    &&& passes(observe, Step::FinalNorm)
    &&& passes(observe, Step::Head)
}

struct ConvNeXtBlock {
    dwconv: DepthwiseConv1d,
    norm: LayerNorm,
    pwconv1: Linear,
    pwconv2: Linear,
    gamma: Tensor,
}

impl ConvNeXtBlock {
    spec fn loaded(self, s: Scope, dim: usize, intermediate_dim: usize) -> bool {
        &&& self.dwconv.loaded(s.at("dwconv"@), dim, 7, 3)
        &&& norm_layer(self.norm) == norm_of(s.at("norm"@), dim)
        &&& linear_layer(self.pwconv1) == linear_of(s.at("pwconv1"@), dim, intermediate_dim)
        &&& linear_layer(self.pwconv2) == linear_of(s.at("pwconv2"@), intermediate_dim, dim)
        &&& shape(self.gamma) == seq![dim]
        &&& graph(self.gamma) == s.parameter("gamma"@)
        &&& linear_packed(self.pwconv1)
        &&& linear_packed(self.pwconv2)
        &&& s.ready ==> norm_ready(self.norm) && linear_ready(self.pwconv1) && linear_ready(self.pwconv2) && plain(
            self.gamma,
        )
    }

    fn new(dim: usize, intermediate_dim: usize, w: &Weights) -> (r: Result<Self, Error>)
        ensures
            r matches Ok(a) ==> a.loaded(w.scope(), dim, intermediate_dim) && convnext_there(
                w.scope(),
                dim,
                intermediate_dim,
            ),
            w.scope().ready && convnext_there(w.scope(), dim, intermediate_dim) ==> r is Ok,
    {
        let dwconv = DepthwiseConv1d::load(dim, 7, 3, &w.pp("dwconv"))?;
        let norm = load_layer_norm(&w.pp("norm"), dim)?;
        let pwconv1 = load_linear(&w.pp("pwconv1"), dim, intermediate_dim)?;
        let pwconv2 = load_linear(&w.pp("pwconv2"), intermediate_dim, dim)?;
        let dims = vec![dim];
        assert(dims@ == seq![dim]);
        let gamma = w.get(dims, "gamma")?;
        Ok(ConvNeXtBlock { dwconv, norm, pwconv1, pwconv2, gamma })
    }

    /// `x` is `[batch, dim, frames]`. Where `profile` is set, `observe` is told of every step.
    fn forward_profiled<F: Fn(Step) -> Result<(), Error>>(
        &self,
        x: &Tensor,
        profile: bool,
        observe: &F,
        Ghost(s): Ghost<Scope>,
        Ghost(dim): Ghost<usize>,
        Ghost(intermediate_dim): Ghost<usize>,
    ) -> (r: Result<Tensor, Error>)
        requires
            self.loaded(s, dim, intermediate_dim),
            forall|step: Step| call_requires(*observe, (step,)),
            is_float(*x),
            shape(*x).len() == 3,
            shape(*x)[1] == dim,
            nonempty(shape(*x)),
            shape(*x)[2] + 6 <= usize::MAX,
            shape(*x)[0] * shape(*x)[2] <= usize::MAX,
        ensures
            r matches Ok(y) ==> shape(y) == shape(*x) && is_float(y) && graph(y) == convnext(
                s,
                dim,
                intermediate_dim,
                graph(*x),
                shape(*x)[2],
            ),
            s.ready && plain(*x) && 1 <= intermediate_dim && never_fails(*observe) ==> (
            r matches Ok(y) && plain(y)),
            r is Ok && profile ==> passes_inside(*observe),
    {
        let y = self.dwconv.forward(x, Ghost(s.at("dwconv"@)), Ghost(dim), Ghost(7), Ghost(3))?;
        if profile {
            observe(Step::Dwconv)?;
        }
        let y = transpose(&y, 1, 2)?;
        if profile {
            observe(Step::Transpose1)?;
        }
        let ghost turned = shape(y);
        assert(turned == seq![shape(*x)[0], shape(*x)[2], dim]);
        let y = layer_norm_forward(&self.norm, &y)?;
        if profile {
            observe(Step::Norm)?;
        }
        let y = linear_forward(&self.pwconv1, &y.contiguous()?)?;
        if profile {
            observe(Step::Pwconv1)?;
        }
        let y = y.gelu_erf()?;
        if profile {
            observe(Step::Gelu)?;
        }
        let y = linear_forward(&self.pwconv2, &y.contiguous()?)?;
        assert(shape(y) == turned);
        if profile {
            observe(Step::Pwconv2)?;
        }
        let y = y.broadcast_mul(&self.gamma)?;
        assert(shape(y) == turned);
        if profile {
            observe(Step::GammaMul)?;
        }
        let y = transpose(&y, 1, 2)?;
        if profile {
            observe(Step::Transpose2)?;
        }
        assert(shape(y) == shape(*x));
        let y = x.add(&y)?;
        if profile {
            observe(Step::ResidualAdd)?;
        }
        Ok(y)
    }
}

/// The embedding of a mel spectrogram: a convolution, every frame normalised.
pub open spec fn embedded(cfg: VocosConfig, s: Scope, mel: Graph) -> Graph {
    let bb = s.at("backbone"@);
    let conv = convolved(mel, conv_of(bb.at("embed"@), true, cfg.input_channels, cfg.dim, 7, 3, 1, 1));
    transposed(Graph::LayerNorm(Box::new(transposed(conv, 1, 2)), norm_of(bb.at("norm"@), cfg.dim)), 1, 2)
}

/// The position of block `i`.
pub open spec fn block_scope(s: Scope, i: nat) -> Scope {
    s.at("backbone"@).at("convnext."@ + decimal(i))
}

/// The first `n` blocks of `x`, which has `t` frames.
pub open spec fn backbone(cfg: VocosConfig, s: Scope, n: nat, x: Graph, t: usize) -> Graph
    decreases n,
{
    if n == 0 {
        x
    } else {
        let i = (n - 1) as nat;
        convnext(block_scope(s, i), cfg.dim, cfg.intermediate_dim, backbone(cfg, s, i, x, t), t)
    }
}

/// The head's output for the backbone's output `x`: the logarithm of the magnitude, then the
/// phase, for every frame.
pub open spec fn head_output(cfg: VocosConfig, s: Scope, x: Graph) -> Graph {
    let normed = Graph::LayerNorm(
        Box::new(transposed(x, 1, 2)),
        norm_of(s.at("backbone"@).at("final_layer_norm"@), cfg.dim),
    );
    let layer = linear_of(s.at("head.out"@), cfg.dim, (cfg.n_fft + 2) as usize);
    transposed(Graph::Linear(Box::new(normed), layer), 1, 2)
}

impl VocosConfig {
    /// Whether the sizes of `t` frames and of their overlap-add can be counted.
    fn samples_fit(&self, t: usize) -> (r: bool)
        ensures
            r == (1 <= t && t + 6 <= usize::MAX && (t - 1) * self.hop_size + self.n_fft <= usize::MAX),
    {
        if t < 1 || t > usize::MAX - 6 {
            return false;
        }
        assert(0 <= (t - 1) * self.hop_size <= usize::MAX * usize::MAX - usize::MAX) by (nonlinear_arith)
            requires
                1 <= t <= usize::MAX,
                0 <= self.hop_size <= usize::MAX,
        ;
        (t - 1) as u128 * self.hop_size as u128 + self.n_fft as u128 <= usize::MAX as u128
    }

    /// The number of bins of a frame's spectrum that are not determined by the others.
    pub open spec fn half(self) -> int {
        self.n_fft / 2 + 1
    }
}

/// The magnitude: the exponential of the first half of the head's output, at most 100.
pub open spec fn magnitude(cfg: VocosConfig, out: Graph) -> Graph {
    capped(unary(UnaryOp::Exp, narrowed(out, 1, 0, cfg.half())), 100)
}

/// The phase: the second half of the head's output.
pub open spec fn phase(cfg: VocosConfig, out: Graph) -> Graph {
    narrowed(out, 1, cfg.half(), cfg.half())
}

/// The head's output for a mel spectrogram of `t` frames.
pub open spec fn prediction(cfg: VocosConfig, s: Scope, mel: Graph, t: usize) -> Graph {
    head_output(cfg, s, backbone(cfg, s, cfg.num_layers as nat, embedded(cfg, s, mel), t))
}

/// The real part of the spectrum that is predicted for a mel spectrogram of `t` frames.
pub open spec fn real_part(cfg: VocosConfig, s: Scope, mel: Graph, t: usize) -> Graph {
    let out = prediction(cfg, s, mel, t);
    product(magnitude(cfg, out), unary(UnaryOp::Cos, phase(cfg, out)))
}

/// The imaginary part of the spectrum that is predicted for a mel spectrogram of `t` frames.
pub open spec fn imaginary_part(cfg: VocosConfig, s: Scope, mel: Graph, t: usize) -> Graph {
    let out = prediction(cfg, s, mel, t);
    product(magnitude(cfg, out), unary(UnaryOp::Sin, phase(cfg, out)))
}

/// Whether the parameters of the first `n` blocks are there.
pub open spec fn blocks_there(cfg: VocosConfig, s: Scope, n: nat) -> bool {
    forall|i: nat| i < n ==> convnext_there(#[trigger] block_scope(s, i), cfg.dim, cfg.intermediate_dim)
}

/// Whether all parameters of a network with settings `cfg` are there.
pub open spec fn network_there(cfg: VocosConfig, s: Scope) -> bool {
    let bb = s.at("backbone"@);
    &&& conv_there(bb.at("embed"@), true, cfg.input_channels, cfg.dim, 7)
    &&& norm_there(bb.at("norm"@), cfg.dim)
    &&& blocks_there(cfg, s, cfg.num_layers as nat)
    &&& norm_there(bb.at("final_layer_norm"@), cfg.dim)
    &&& linear_there(s.at("head.out"@), cfg.dim, (cfg.n_fft + 2) as usize)
}

/// Whether a vocoder with settings `cfg` can process `b` signals of `t` frames, as far as sizes
/// go.
pub open spec fn fits(cfg: VocosConfig, b: usize, t: usize) -> bool {
    &&& 1 <= t
    &&& t + 6 <= usize::MAX
    &&& b * t <= usize::MAX
    &&& 1 <= cfg.dim
    &&& 1 <= cfg.input_channels
}

/// The number of frames and bins of a mel spectrogram `[frames, bins]` or `[1, frames, bins]`.
pub open spec fn matrix_of(dims: Seq<usize>) -> Option<(usize, usize)> {
    if dims.len() == 2 {
        Some((dims[0], dims[1]))
    } else if dims.len() == 3 && dims[0] == 1 {
        Some((dims[1], dims[2]))
    } else {
        None
    }
}

/// Whether a vocoder with settings `cfg` can make the spectrum of a mel spectrogram of the given
/// shape, as far as sizes go. Shapes that are rejected are fit.
pub open spec fn fits_alone(cfg: VocosConfig, dims: Seq<usize>) -> bool {
    matrix_of(dims) matches Some((t, n)) ==> n == cfg.input_channels ==> fits(cfg, 1, t)
}

/// Whether a vocoder with settings `cfg` can make the waveform of a mel spectrogram of the given
/// shape, as far as sizes go. Shapes that are rejected are fit.
pub open spec fn fits_whole(cfg: VocosConfig, dims: Seq<usize>) -> bool {
    matrix_of(dims) matches Some((t, n)) ==> n == cfg.input_channels ==> {
        &&& fits(cfg, 1, t)
        &&& 1 <= cfg.n_fft
        &&& cfg.hop_size <= cfg.n_fft
        &&& (t - 1) * cfg.hop_size + cfg.n_fft <= usize::MAX
    }
}

/// A mel spectrogram of `t` frames and `n` bins as a batch of one with the frames last.
pub open spec fn turned_mel(mel: Tensor, t: usize, n: usize) -> Graph {
    let matrix = if shape(mel).len() == 2 { graph(mel) } else { reshaped(graph(mel), seq![t, n]) };
    reshaped(transposed(matrix, 0, 1), seq![1usize, n, t])
}

/// A part of the spectrum with the frames first.
pub open spec fn turned_back(x: Graph, cfg: VocosConfig, t: usize) -> Graph {
    transposed(reshaped(x, seq![cfg.half() as usize, t]), 0, 1)
}

/// Whether `p` holds the parts of the spectrum of `mel`, which has `t` frames and `n` bins.
pub open spec fn is_spectrum(
    cfg: VocosConfig,
    s: Scope,
    mel: Tensor,
    t: usize,
    n: usize,
    p: (Tensor, Tensor),
) -> bool {
    let given = turned_mel(mel, t, n);
    &&& shape(p.0) == seq![t, cfg.half() as usize]
    &&& shape(p.1) == seq![t, cfg.half() as usize]
    &&& graph(p.0) == turned_back(real_part(cfg, s, given, t), cfg, t)
    &&& graph(p.1) == turned_back(imaginary_part(cfg, s, given, t), cfg, t)
}

/// Whether `rows` has the shape of a matrix: as many rows, each with as many items.
pub open spec fn are_rows<S>(dims: Seq<usize>, rows: Seq<Vec<S>>) -> bool {
    dims.len() == 2 ==> {
        &&& rows.len() == dims[0]
        &&& forall|i: int| 0 <= i < rows.len() ==> (#[trigger] rows[i])@.len() == dims[1]
    }
}

/// Whether `r` is what comes of the spectrum of `mel`: other ranks and other numbers of bins are
/// rejected with a text.
pub open spec fn is_spectrum_result(
    cfg: VocosConfig,
    s: Scope,
    mel: Tensor,
    r: Result<(Tensor, Tensor), VcError>,
) -> bool {
    &&& is_rejected(cfg, shape(mel), r)
    &&& r matches Ok(p) ==> is_float(mel) && (matrix_of(shape(mel)) matches Some((t, n)) && is_spectrum(
        cfg,
        s,
        mel,
        t,
        n,
        p,
    ))
}

/// Whether `r` is a rejection exactly where a mel spectrogram of shape `dims` has another rank or
/// another number of bins, and a failed tensor operation where it fails otherwise.
pub open spec fn is_rejected<T>(cfg: VocosConfig, dims: Seq<usize>, r: Result<T, VcError>) -> bool {
    &&& !(2 <= dims.len() <= 3) ==> is_input_error(r, rank_message())
    &&& 2 <= dims.len() <= 3 ==> match matrix_of(dims) {
        None => r matches Err(e) && e is Backend,
        Some((t, n)) => if n != cfg.input_channels {
            is_input_error(r, bins_message(cfg.input_channels, n))
        } else {
            r matches Err(e) ==> e is Backend
        },
    }
}

/// What is said of a mel spectrogram of another rank.
pub open spec fn rank_message() -> Seq<char> {
    "mel must be [frames, num_mels] or [1, frames, num_mels]"@
}

/// What is said of a mel spectrogram with `n` bins where `expected` were asked for.
pub open spec fn bins_message(expected: usize, n: usize) -> Seq<char> {
    "expected "@ + decimal(expected as nat) + " mel bins, got "@ + decimal(n as nat)
}

/// Whether a result is the rejection of an input, with the given text.
pub open spec fn is_input_error<T>(r: Result<T, VcError>, text: Seq<char>) -> bool {
    r matches Err(VcError::Input(e)) && e@ == text
}

/// The vocoder's network.
pub struct Vocos {
    source: Ghost<Scope>,
    embed: Conv1d,
    norm: LayerNorm,
    blocks: Vec<ConvNeXtBlock>,
    final_norm: LayerNorm,
    out: Linear,
    cfg: VocosConfig,
}

impl Vocos {
    /// The parameters that the network was loaded from.
    pub closed spec fn parameters(self) -> Scope {
        self.source@
    }

    /// The hyperparameters of the network.
    pub closed spec fn settings(self) -> VocosConfig {
        self.cfg
    }

    spec fn blocks_loaded(blocks: Seq<ConvNeXtBlock>, cfg: VocosConfig, s: Scope) -> bool {
        forall|i: int|
            0 <= i < blocks.len() ==> (#[trigger] blocks[i]).loaded(
                block_scope(s, i as nat),
                cfg.dim,
                cfg.intermediate_dim,
            )
    }

    #[verifier::type_invariant]
    spec fn wf(self) -> bool {
        let s = self.source@;
        let bb = s.at("backbone"@);
        let cfg = self.cfg;
        &&& cfg.n_fft + 2 <= usize::MAX
        &&& conv1d_layer(self.embed) == conv_of(bb.at("embed"@), true, cfg.input_channels, cfg.dim, 7, 3, 1, 1)
        &&& norm_layer(self.norm) == norm_of(bb.at("norm"@), cfg.dim)
        &&& self.blocks@.len() == cfg.num_layers
        &&& Self::blocks_loaded(self.blocks@, cfg, s)
        &&& norm_layer(self.final_norm) == norm_of(bb.at("final_layer_norm"@), cfg.dim)
        &&& linear_layer(self.out) == linear_of(s.at("head.out"@), cfg.dim, (cfg.n_fft + 2) as usize)
        &&& conv1d_packed(self.embed)
        &&& linear_packed(self.out)
        &&& s.ready ==> conv1d_ready(self.embed) && norm_ready(self.norm)
        &&& s.ready ==> norm_ready(self.final_norm) && linear_ready(self.out)
    }

    /// Whether everything is in main memory in single precision and the shape is right, so that no
    /// tensor operation on `mel` can fail.
    pub open spec fn runs(self, mel: Tensor) -> bool {
        &&& self.parameters().ready
        &&& plain(mel)
        &&& 1 <= self.settings().input_channels
        &&& 1 <= self.settings().intermediate_dim
        &&& matrix_of(shape(mel)) matches Some((t, n))
        &&& n == self.settings().input_channels
    }

    /// Builds the network from the tensors of a checkpoint, on `device`.
    pub fn load(cfg: VocosConfig, tensors: Vec<(String, Tensor)>, device: &Device) -> (r: Result<Self, VcError>)
        requires
            cfg.n_fft + 2 <= usize::MAX,
            are_sound(tensors@),
        ensures
            r matches Ok(m) ==> m.settings() == cfg && m.parameters() == root(tensors@, *device) && network_there(
                cfg,
                root(tensors@, *device),
            ),
            r matches Err(e) ==> e is Backend,
            are_ready(tensors@, *device) && network_there(cfg, root(tensors@, *device)) ==> r is Ok,
    {
        let w = Weights::from_tensors(tensors, device)?;
        Vocos::new(cfg, &w)
    }

    /// Builds the network from a checkpoint.
    pub fn new(cfg: VocosConfig, w: &Weights) -> (r: Result<Self, VcError>)
        requires
            cfg.n_fft + 2 <= usize::MAX,
        ensures
            r matches Ok(m) ==> m.settings() == cfg && m.parameters() == w.scope() && network_there(cfg, w.scope()),
            r matches Err(e) ==> e is Backend,
            w.scope().ready && network_there(cfg, w.scope()) ==> r is Ok,
    {
        lift(Self::build(cfg, w))
    }

    fn build(cfg: VocosConfig, w: &Weights) -> (r: Result<Self, Error>)
        requires
            cfg.n_fft + 2 <= usize::MAX,
        ensures
            r matches Ok(m) ==> m.settings() == cfg && m.parameters() == w.scope() && network_there(cfg, w.scope()),
            w.scope().ready && network_there(cfg, w.scope()) ==> r is Ok,
    {
        let bb = w.pp("backbone");
        let mut blocks: Vec<ConvNeXtBlock> = Vec::new();
        let mut i: usize = 0;
        while i < cfg.num_layers
            invariant
                i <= cfg.num_layers,
                bb.scope() == w.scope().at("backbone"@),
                blocks@.len() == i,
                Self::blocks_loaded(blocks@, cfg, w.scope()),
                blocks_there(cfg, w.scope(), i as nat),
            decreases cfg.num_layers - i,
        {
            assert(network_there(cfg, w.scope()) ==> convnext_there(
                block_scope(w.scope(), i as nat),
                cfg.dim,
                cfg.intermediate_dim,
            ));
            let block = ConvNeXtBlock::new(cfg.dim, cfg.intermediate_dim, &bb.pp(numbered("convnext.", i).as_str()))?;
            blocks.push(block);
            i += 1;
        }
        Ok(
            Vocos {
                source: Ghost(w.scope()),
                embed: load_conv1d(&bb.pp("embed"), cfg.input_channels, cfg.dim, 7, 3, 1, 1)?,
                norm: load_layer_norm(&bb.pp("norm"), cfg.dim)?,
                blocks,
                final_norm: load_layer_norm(&bb.pp("final_layer_norm"), cfg.dim)?,
                out: load_linear(&w.pp("head.out"), cfg.dim, cfg.n_fft + 2)?,
                cfg,
            },
        )
    }

    /// The hyperparameters.
    pub fn config(&self) -> (r: &VocosConfig)
        ensures
            *r == self.settings(),
    {
        &self.cfg
    }

    /// The real and the imaginary part of the spectrum of `mel`, which is `[batch, bins, frames]`:
    /// `[batch, n_fft / 2 + 1, frames]` each. `observe` is told of every step; a failure of it
    /// ends the computation.
    fn spectrogram<F: Fn(Step) -> Result<(), Error>>(&self, mel: &Tensor, observe: &F) -> (r: Result<
        (Tensor, Tensor),
        Error,
    >)
        requires
            forall|step: Step| call_requires(*observe, (step,)),
            shape(*mel).len() == 3 ==> 1 <= shape(*mel)[0] && fits(self.settings(), shape(*mel)[0], shape(*mel)[2]),
            sound(*mel),
        ensures
            r matches Ok(p) ==> ({
                let cfg = self.settings();
                let (b, t) = (shape(*mel)[0], shape(*mel)[2]);
                &&& is_float(*mel)
                &&& shape(*mel).len() == 3
                &&& shape(*mel)[1] == cfg.input_channels
                &&& shape(p.0) == seq![b, cfg.half() as usize, t]
                &&& shape(p.1) == shape(p.0)
                &&& graph(p.0) == real_part(cfg, self.parameters(), graph(*mel), t)
                &&& graph(p.1) == imaginary_part(cfg, self.parameters(), graph(*mel), t)
            }),
            self.parameters().ready && plain(*mel) && shape(*mel).len() == 3 && shape(*mel)[1]
                == self.settings().input_channels && 1 <= self.settings().intermediate_dim && never_fails(*observe)
                ==> r is Ok,
            r is Ok ==> passes_all(*observe, self.settings().num_layers),
    {
        proof {
            use_type_invariant(self);
        }
        let ghost s = self.source@;
        let ghost cfg = self.cfg;
        let ghost (b, t) = (shape(*mel)[0], shape(*mel)[2]);
        let x = self.embed_norm(mel)?;
        observe(Step::EmbedNorm)?;
        let ghost first = graph(x);
        let mut x = x;
        let n = self.blocks.len();
        let mut i: usize = 0;
        while i < n
            invariant
                self.wf(),
                s == self.source@,
                cfg == self.cfg,
                forall|step: Step| call_requires(*observe, (step,)),
                n == self.blocks@.len(),
                i <= n,
                fits(cfg, b, t),
                1 <= b,
                is_float(x),
                shape(x) == seq![b, cfg.dim, t],
                graph(x) == backbone(cfg, s, i as nat, first, t),
                shape(*mel).len() == 3 && b == shape(*mel)[0] && t == shape(*mel)[2],
                s.ready && plain(*mel) && shape(*mel)[1] == cfg.input_channels && never_fails(*observe) && 1
                    <= cfg.intermediate_dim ==> plain(x),
                passes(*observe, Step::EmbedNorm),
                i > 0 ==> passes_inside(*observe),
                forall|k: usize| k < i ==> #[trigger] passes(*observe, Step::Block(k)),
            decreases n - i,
        {
            assert(self.blocks@[i as int].loaded(block_scope(s, i as nat), cfg.dim, cfg.intermediate_dim));
            x = self.blocks[i].forward_profiled(
                &x,
                i == 0,
                observe,
                Ghost(block_scope(s, i as nat)),
                Ghost(cfg.dim),
                Ghost(cfg.intermediate_dim),
            )?;
            observe(Step::Block(i))?;
            i += 1;
        }
        let x = layer_norm_forward(&self.final_norm, &transpose(&x, 1, 2)?)?;
        observe(Step::FinalNorm)?;
        assert(shape(x) == seq![b, t, cfg.dim]);
        let x = transpose(&linear_forward(&self.out, &x.contiguous()?)?, 1, 2)?;
        assert(shape(x) == seq![b, (cfg.n_fft + 2) as usize, t]);
        let half = self.cfg.n_fft / 2 + 1;
        let mag = minimum(&narrow(&x, 1, 0, half)?.exp()?, 100)?;
        let phase = narrow(&x, 1, half, half)?;
        let re = mag.mul(&phase.cos()?)?;
        let im = mag.mul(&phase.sin()?)?;
        observe(Step::Head)?;
        assert(shape(re) == seq![b, half, t]);
        assert(shape(im) == seq![b, half, t]);
        Ok((re, im))
    }

    /// The real and the imaginary part of the spectrum of `mel`, which is `[frames, bins]` or
    /// `[1, frames, bins]`: `[frames, n_fft / 2 + 1]` each. `observe` is told of every step; a
    /// failure of it ends the computation.
    pub fn spectrum<F: Fn(Step) -> Result<(), Error>>(&self, mel: &Tensor, observe: &F) -> (r: Result<
        (Tensor, Tensor),
        VcError,
    >)
        requires
            forall|step: Step| call_requires(*observe, (step,)),
            fits_alone(self.settings(), shape(*mel)),
        ensures
            is_spectrum_result(self.settings(), self.parameters(), *mel, r),
            self.runs(*mel) && never_fails(*observe) ==> r is Ok,
            r is Ok ==> passes_all(*observe, self.settings().num_layers),
    {
        let rank = mel.dims().len();
        let matrix = if rank == 2 {
            mel.clone()
        } else if rank == 3 {
            lift(squeeze(mel, 0))?
        } else {
            return Err(VcError::Input("mel must be [frames, num_mels] or [1, frames, num_mels]".to_owned()));
        };
        let (t, n_mels) = lift(matrix.dims2())?;
        assert(matrix_of(shape(*mel)) == Some((t, n_mels)));
        assert(rank == 3 ==> shape(matrix) == seq![t, n_mels]);
        if n_mels != self.cfg.input_channels {
            let mut text = numbered("expected ", self.cfg.input_channels);
            text.append(" mel bins, got ");
            text.append(to_decimal(n_mels).as_str());
            return Err(VcError::Input(text));
        }
        lift(self.spectrum_of(&matrix, observe, Ghost(t)))
    }

    /// The waveform of `mel`, which is `[frames, bins]` or `[1, frames, bins]`: `hop_size` samples
    /// for every frame. `read` takes the rows out of a matrix, `window` is the window of the
    /// inverse transform, and the other functions are the arithmetic of [`istft`].
    pub fn synthesize<
        S: Copy,
        F: Fn(Step) -> Result<(), Error>,
        R: Fn(Tensor) -> Result<Vec<Vec<S>>, Error>,
        N: Fn(S) -> S,
        I: Fn(Vec<(S, S)>) -> Vec<S>,
        A: Fn(S, S) -> S,
        M: Fn(S, S) -> S,
        D: Fn(S, S) -> S,
    >(
        &self,
        mel: &Tensor,
        observe: &F,
        read: &R,
        negate: &N,
        invert: &I,
        plus: &A,
        times: &M,
        scale: &D,
        zero: S,
        window: &Vec<S>,
    ) -> (r: Result<Vec<S>, VcError>)
        requires
            forall|step: Step| call_requires(*observe, (step,)),
            fits_whole(self.settings(), shape(*mel)),
            window@.len() == self.settings().n_fft,
            forall|x: Tensor| call_requires(*read, (x,)),
            forall|x: Tensor, rows: Vec<Vec<S>>| #[trigger]
                call_ensures(*read, (x,), Ok::<Vec<Vec<S>>, Error>(rows)) ==> are_rows(shape(x), rows@),
            forall|x: S| call_requires(*negate, (x,)),
            forall|bins: Vec<(S, S)>| bins@.len() == window@.len() ==> #[trigger] call_requires(*invert, (bins,)),
            forall|bins: Vec<(S, S)>, samples: Vec<S>|
                bins@.len() == window@.len() && #[trigger] call_ensures(*invert, (bins,), samples) ==> samples@.len()
                    == window@.len(),
            forall|x: S, y: S| call_requires(*plus, (x, y)),
            forall|x: S, y: S| call_requires(*times, (x, y)),
            forall|x: S, y: S| call_requires(*scale, (x, y)),
        ensures
            is_rejected(self.settings(), shape(*mel), r),
            r matches Ok(out) ==> is_synthesis(
                self.settings(),
                self.parameters(),
                *mel,
                *read,
                *negate,
                *invert,
                *plus,
                *times,
                *scale,
                zero,
                window@,
                out@,
            ),
            self.runs(*mel) && never_fails(*observe) && (forall|x: Tensor, v: Result<Vec<Vec<S>>, Error>| #[trigger]
                call_ensures(*read, (x,), v) ==> v is Ok) ==> r is Ok,
            r is Ok ==> passes_all(*observe, self.settings().num_layers),
    {
        let (re, im) = self.spectrum(mel, observe)?;
        let ghost p = (re, im);
        let re = lift(read(re))?;
        let im = lift(read(im))?;
        assert(are_rows(shape(p.0), re@) && are_rows(shape(p.1), im@));
        Ok(istft(negate, invert, plus, times, scale, zero, window, self.cfg.hop_size, &re, &im))
    }

    /// Whether [`synthesize`](Vocos::synthesize) can process `mel`.
    pub fn accepts(&self, mel: &Tensor) -> (r: bool)
        ensures
            r == fits_whole(self.settings(), shape(*mel)),
    {
        let cfg = &self.cfg;
        let dims = mel.dims();
        let matrix = if dims.len() == 2 {
            Some((dims[0], dims[1]))
        } else if dims.len() == 3 && dims[0] == 1 {
            Some((dims[1], dims[2]))
        } else {
            None
        };
        assert(matrix == matrix_of(shape(*mel)));
        match matrix {
            Some((t, n)) => n != cfg.input_channels || (1 <= cfg.dim && 1 <= cfg.input_channels && cfg.samples_fit(t)
                && 1 <= cfg.n_fft && cfg.hop_size <= cfg.n_fft),
            None => true,
        }
    }

    /// The parts of the spectrum of `mel`, which is `[frames, bins]`.
    fn spectrum_of<F: Fn(Step) -> Result<(), Error>>(&self, mel: &Tensor, observe: &F, Ghost(t): Ghost<usize>) -> (r:
        Result<(Tensor, Tensor), Error>)
        requires
            forall|step: Step| call_requires(*observe, (step,)),
            shape(*mel) == seq![t, self.settings().input_channels],
            fits(self.settings(), 1, t),
        ensures
            r matches Ok(p) ==> {
                let cfg = self.settings();
                let given = reshaped(transposed(graph(*mel), 0, 1), seq![1usize, cfg.input_channels, t]);
                &&& is_float(*mel)
                &&& shape(p.0) == seq![t, cfg.half() as usize]
                &&& shape(p.1) == seq![t, cfg.half() as usize]
                &&& graph(p.0) == turned_back(real_part(cfg, self.parameters(), given, t), cfg, t)
                &&& graph(p.1) == turned_back(imaginary_part(cfg, self.parameters(), given, t), cfg, t)
            },
            self.parameters().ready && plain(*mel) && 1 <= self.settings().input_channels && 1
                <= self.settings().intermediate_dim && never_fails(*observe) ==> r is Ok,
            r is Ok ==> passes_all(*observe, self.settings().num_layers),
    {
        let given = unsqueeze(&transpose(mel, 0, 1)?, 0)?;
        assert(shape(given) == seq![1usize, self.settings().input_channels, t]);
        let parts = self.spectrogram(&given, observe)?;
        let re = squeeze(&parts.0, 0)?;
        assert(shape(re) == seq![self.settings().half() as usize, t]);
        let re = transpose(&re, 0, 1)?;
        assert(shape(re) == seq![t, self.settings().half() as usize]);
        let im = squeeze(&parts.1, 0)?;
        assert(shape(im) == seq![self.settings().half() as usize, t]);
        let im = transpose(&im, 0, 1)?;
        assert(shape(im) == seq![t, self.settings().half() as usize]);
        Ok((re, im))
    }

    /// The embedding of `mel`, every frame normalised.
    fn embed_norm(&self, mel: &Tensor) -> (r: Result<Tensor, Error>)
        requires
            self.wf(),
            shape(*mel).len() == 3 ==> 1 <= shape(*mel)[0] && fits(self.settings(), shape(*mel)[0], shape(*mel)[2]),
            sound(*mel),
        ensures
            r matches Ok(x) ==> is_float(*mel) && shape(*mel).len() == 3 && shape(*mel)[1] == self.cfg.input_channels
                && is_float(x) && shape(x) == seq![shape(*mel)[0], self.cfg.dim, shape(*mel)[2]] && graph(x)
                == embedded(self.cfg, self.source@, graph(*mel)),
            self.source@.ready && plain(*mel) && shape(*mel).len() == 3 && shape(*mel)[1]
                == self.cfg.input_channels ==> (r matches Ok(x) && plain(x)),
    {
        let ghost (b, t) = (shape(*mel)[0], shape(*mel)[2]);
        proof {
            if shape(*mel).len() == 3 {
                lemma_embed_conv(t as int);
            }
        }
        let x = conv1d_forward(&self.embed, mel)?;
        assert(shape(x) == seq![b, self.cfg.dim, t]);
        let x = layer_norm_forward(&self.norm, &transpose(&x, 1, 2)?)?;
        assert(shape(x) == seq![b, t, self.cfg.dim]);
        let x = transpose(&x, 1, 2)?;
        assert(shape(x) == seq![b, self.cfg.dim, t]);
        Ok(x)
    }
}

/// The embedding's convolution fits any input, and keeps its length.
proof fn lemma_embed_conv(l: int)
    requires
        1 <= l,
        l + 6 <= usize::MAX,
    ensures
        conv_fits(l, 7, 3, 1, 1),
        conv_len(l, 7, 3, 1, 1) == l,
{
}

/// Whether `bins` can be all `n_fft` bins, as pairs of a real and an imaginary part, of the
/// spectrum of a real signal whose first `n_fft / 2 + 1` bins are `re` and `im`: bin `b` of the
/// rest is the conjugate of bin `n_fft - b`.
pub open spec fn is_full_spectrum<S, N: Fn(S) -> S>(
    negate: N,
    re: Seq<S>,
    im: Seq<S>,
    n_fft: int,
    bins: Seq<(S, S)>,
) -> bool {
    &&& bins.len() == n_fft
    &&& forall|b: int| 0 <= b < n_fft && b <= n_fft / 2 ==> #[trigger] bins[b] == (re[b], im[b])
    &&& forall|b: int|
        n_fft / 2 < b < n_fft ==> (#[trigger] bins[b]).0 == re[n_fft - b] && call_ensures(
            negate,
            (im[n_fft - b],),
            bins[b].1,
        )
}

/// All bins of the spectrum of a real signal.
fn full_spectrum<S: Copy, N: Fn(S) -> S>(negate: &N, re: &Vec<S>, im: &Vec<S>, n_fft: usize) -> (bins: Vec<(S, S)>)
    requires
        1 <= n_fft,
        re@.len() > n_fft / 2,
        im@.len() > n_fft / 2,
        forall|x: S| call_requires(*negate, (x,)),
    ensures
        is_full_spectrum(*negate, re@, im@, n_fft as int, bins@),
{
    let mut bins: Vec<(S, S)> = Vec::new();
    let mut b: usize = 0;
    while b < n_fft
        invariant
            re@.len() > n_fft / 2,
            im@.len() > n_fft / 2,
            forall|x: S| call_requires(*negate, (x,)),
            b <= n_fft,
            bins@.len() == b,
            forall|k: int| 0 <= k < b && k <= n_fft / 2 ==> #[trigger] bins@[k] == (re@[k], im@[k]),
            forall|k: int|
                n_fft / 2 < k < b ==> (#[trigger] bins@[k]).0 == re@[n_fft - k] && call_ensures(
                    *negate,
                    (im@[n_fft - k],),
                    bins@[k].1,
                ),
        decreases n_fft - b,
    {
        if b <= n_fft / 2 {
            bins.push((re[b], im[b]));
        } else {
            let mirror = bins[n_fft - b];
            let v = negate(mirror.1);
            bins.push((mirror.0, v));
        }
        b += 1;
    }
    bins
}

/// Whether `frame` can be the windowed inverse transform of the spectrum `re`, `im`.
pub open spec fn is_frame<S, N: Fn(S) -> S, I: Fn(Vec<(S, S)>) -> Vec<S>, M: Fn(S, S) -> S>(
    negate: N,
    invert: I,
    times: M,
    window: Seq<S>,
    re: Seq<S>,
    im: Seq<S>,
    frame: Seq<S>,
) -> bool {
    exists|bins: Vec<(S, S)>, samples: Vec<S>|
        is_full_spectrum(negate, re, im, window.len() as int, bins@) && #[trigger] call_ensures(
            invert,
            (bins,),
            samples,
        ) && is_zip(times, samples@, window, frame)
}

/// The samples that are cut off at each end of the overlap-add.
pub open spec fn same_padding(n_fft: usize, hop: usize) -> int {
    (n_fft - hop) / 2
}

/// Whether `out` can be the signal of the spectra `re` and `im`: the windowed inverse transforms
/// of all frames, added where they overlap, each sample scaled by the sum of the squared windows
/// there, `(n_fft - hop) / 2` samples cut off at each end.
pub open spec fn is_istft<
    S,
    N: Fn(S) -> S,
    I: Fn(Vec<(S, S)>) -> Vec<S>,
    A: Fn(S, S) -> S,
    M: Fn(S, S) -> S,
    D: Fn(S, S) -> S,
>(
    negate: N,
    invert: I,
    plus: A,
    times: M,
    scale: D,
    zero: S,
    window: Seq<S>,
    hop: usize,
    re: Seq<Vec<S>>,
    im: Seq<Vec<S>>,
    out: Seq<S>,
) -> bool {
    exists|frames: Seq<Vec<S>>, squares: Seq<Vec<S>>, y: Seq<S>, weight: Seq<S>|
        are_frames(negate, invert, times, window, re, im, frames) && are_squares(times, window, re.len(), squares)
            && #[trigger] is_overlap_add(plus, zero, frames, window.len(), hop as nat, y) && #[trigger] is_overlap_add(
            plus,
            zero,
            squares,
            window.len(),
            hop as nat,
            weight,
        ) && is_trimmed(scale, same_padding(window.len() as usize, hop), (re.len() * hop) as int, y, weight, out)
}

/// Whether `frames` can be the windowed inverse transforms of the spectra `re` and `im`.
pub open spec fn are_frames<S, N: Fn(S) -> S, I: Fn(Vec<(S, S)>) -> Vec<S>, M: Fn(S, S) -> S>(
    negate: N,
    invert: I,
    times: M,
    window: Seq<S>,
    re: Seq<Vec<S>>,
    im: Seq<Vec<S>>,
    frames: Seq<Vec<S>>,
) -> bool {
    &&& frames.len() == re.len()
    &&& forall|f: int|
        0 <= f < frames.len() ==> is_frame(negate, invert, times, window, re[f]@, im[f]@, (#[trigger] frames[f])@)
}

/// Whether `squares` can be the square of the window, `n` times.
pub open spec fn are_squares<S, M: Fn(S, S) -> S>(times: M, window: Seq<S>, n: nat, squares: Seq<Vec<S>>) -> bool {
    &&& squares.len() == n
    &&& forall|f: int| 0 <= f < squares.len() ==> is_zip(times, window, window, (#[trigger] squares[f])@)
}

/// Whether `out` can be `len` samples of `y` from `start` on, each scaled by its weight.
pub open spec fn is_trimmed<S, D: Fn(S, S) -> S>(
    scale: D,
    start: int,
    len: int,
    y: Seq<S>,
    weight: Seq<S>,
    out: Seq<S>,
) -> bool {
    &&& out.len() == len
    &&& forall|q: int| 0 <= q < len ==> call_ensures(scale, (y[start + q], weight[start + q]), #[trigger] out[q])
}

/// Whether `out` can be the waveform of `mel`: `hop_size` samples for every frame, the inverse
/// transform of the rows that `read` takes out of the parts of the spectrum.
pub open spec fn is_synthesis<
    S,
    R: Fn(Tensor) -> Result<Vec<Vec<S>>, Error>,
    N: Fn(S) -> S,
    I: Fn(Vec<(S, S)>) -> Vec<S>,
    A: Fn(S, S) -> S,
    M: Fn(S, S) -> S,
    D: Fn(S, S) -> S,
>(
    cfg: VocosConfig,
    s: Scope,
    mel: Tensor,
    read: R,
    negate: N,
    invert: I,
    plus: A,
    times: M,
    scale: D,
    zero: S,
    window: Seq<S>,
    out: Seq<S>,
) -> bool {
    &&& is_float(mel)
    &&& matrix_of(shape(mel)) matches Some((t, n))
    &&& out.len() == t * cfg.hop_size
    &&& exists|p: (Tensor, Tensor), re: Vec<Vec<S>>, im: Vec<Vec<S>>|
        is_spectrum(cfg, s, mel, t, n, p) && #[trigger] call_ensures(read, (p.0,), Ok::<Vec<Vec<S>>, Error>(re))
            && #[trigger] call_ensures(read, (p.1,), Ok::<Vec<Vec<S>>, Error>(im)) && is_istft(
            negate,
            invert,
            plus,
            times,
            scale,
            zero,
            window,
            cfg.hop_size,
            re@,
            im@,
            out,
        )
}

/// The inverse short-time transform of `re` and `im`, which hold `n_fft / 2 + 1` bins for every
/// frame, with the window `window` of `n_fft` samples: `hop` samples for every frame. `invert` is
/// the inverse transform of one frame, `scale` divides a sample by the weight it was added with.
pub fn istft<
    S: Copy,
    N: Fn(S) -> S,
    I: Fn(Vec<(S, S)>) -> Vec<S>,
    A: Fn(S, S) -> S,
    M: Fn(S, S) -> S,
    D: Fn(S, S) -> S,
>(
    negate: &N,
    invert: &I,
    plus: &A,
    times: &M,
    scale: &D,
    zero: S,
    window: &Vec<S>,
    hop: usize,
    re: &Vec<Vec<S>>,
    im: &Vec<Vec<S>>,
) -> (out: Vec<S>)
    requires
        1 <= window@.len(),
        hop <= window@.len(),
        1 <= re@.len(),
        re@.len() == im@.len(),
        forall|f: int| 0 <= f < re@.len() ==> (#[trigger] re@[f])@.len() > window@.len() / 2,
        forall|f: int| 0 <= f < im@.len() ==> (#[trigger] im@[f])@.len() > window@.len() / 2,
        (re@.len() - 1) * hop + window@.len() <= usize::MAX,
        forall|x: S| call_requires(*negate, (x,)),
        forall|bins: Vec<(S, S)>| bins@.len() == window@.len() ==> #[trigger] call_requires(*invert, (bins,)),
        forall|bins: Vec<(S, S)>, samples: Vec<S>|
            bins@.len() == window@.len() && #[trigger] call_ensures(*invert, (bins,), samples) ==> samples@.len()
                == window@.len(),
        forall|x: S, y: S| call_requires(*plus, (x, y)),
        forall|x: S, y: S| call_requires(*times, (x, y)),
        forall|x: S, y: S| call_requires(*scale, (x, y)),
    ensures
        out@.len() == re@.len() * hop,
        is_istft(*negate, *invert, *plus, *times, *scale, zero, window@, hop, re@, im@, out@),
{
    let n_fft = window.len();
    let count = re.len();
    let mut frames: Vec<Vec<S>> = Vec::new();
    let mut squares: Vec<Vec<S>> = Vec::new();
    let mut f: usize = 0;
    while f < count
        invariant
            n_fft == window@.len(),
            1 <= n_fft,
            count == re@.len(),
            count == im@.len(),
            forall|f: int| 0 <= f < re@.len() ==> (#[trigger] re@[f])@.len() > window@.len() / 2,
            forall|f: int| 0 <= f < im@.len() ==> (#[trigger] im@[f])@.len() > window@.len() / 2,
            forall|x: S| call_requires(*negate, (x,)),
            forall|bins: Vec<(S, S)>| bins@.len() == window@.len() ==> #[trigger] call_requires(*invert, (bins,)),
            forall|bins: Vec<(S, S)>, samples: Vec<S>|
                bins@.len() == window@.len() && #[trigger] call_ensures(*invert, (bins,), samples) ==> samples@.len()
                    == window@.len(),
            forall|x: S, y: S| call_requires(*times, (x, y)),
            f <= count,
            frames@.len() == f,
            squares@.len() == f,
            forall|k: int|
                0 <= k < f ==> is_frame(*negate, *invert, *times, window@, re@[k]@, im@[k]@, (#[trigger] frames@[k])@),
            forall|k: int| 0 <= k < f ==> (#[trigger] frames@[k])@.len() == n_fft,
            forall|k: int| 0 <= k < f ==> is_zip(*times, window@, window@, (#[trigger] squares@[k])@),
        decreases count - f,
    {
        let bins = full_spectrum(negate, &re[f], &im[f], n_fft);
        let ghost all = bins;
        let samples = invert(bins);
        let frame = zip(times, &samples, window);
        assert(is_frame(*negate, *invert, *times, window@, re@[f as int]@, im@[f as int]@, frame@)) by {
            assert(call_ensures(*invert, (all,), samples));
        }
        frames.push(frame);
        squares.push(zip(times, window, window));
        f += 1;
    }
    let y = overlap_add(plus, zero, &frames, n_fft, hop);
    let weight = overlap_add(plus, zero, &squares, n_fft, hop);
    let start = (n_fft - hop) / 2;
    assert((count - 1) * hop + hop == count * hop) by (nonlinear_arith);
    let len = count * hop;
    let mut out: Vec<S> = Vec::new();
    let mut q: usize = 0;
    while q < len
        invariant
            forall|x: S, y: S| call_requires(*scale, (x, y)),
            start + len <= y@.len(),
            y@.len() == weight@.len(),
            y@.len() <= usize::MAX,
            q <= len,
            out@.len() == q,
            forall|k: int|
                0 <= k < q ==> call_ensures(*scale, (y@[start + k], weight@[start + k]), #[trigger] out@[k]),
        decreases len - q,
    {
        let v = scale(y[start + q], weight[start + q]);
        out.push(v);
        q += 1;
    }
    assert(is_istft(*negate, *invert, *plus, *times, *scale, zero, window@, hop, re@, im@, out@)) by {
        assert(are_frames(*negate, *invert, *times, window@, re@, im@, frames@));
        assert(are_squares(*times, window@, re@.len(), squares@));
        assert(is_overlap_add(*plus, zero, frames@, window@.len(), hop as nat, y@));
        assert(is_overlap_add(*plus, zero, squares@, window@.len(), hop as nat, weight@));
        assert(is_trimmed(*scale, same_padding(n_fft, hop), (re@.len() * hop) as int, y@, weight@, out@));
    }
    out
}

/// The completed spectrum is that of a real signal: bins that are mirror images of each other are
/// conjugate.
pub proof fn law_full_spectrum_is_symmetric<S, N: Fn(S) -> S>(
    negate: N,
    re: Seq<S>,
    im: Seq<S>,
    n_fft: int,
    bins: Seq<(S, S)>,
    b: int,
)
    requires
        is_full_spectrum(negate, re, im, n_fft, bins),
        n_fft / 2 < b < n_fft,
    ensures
        bins[b].0 == bins[n_fft - b].0,
        call_ensures(negate, (bins[n_fft - b].1,), bins[b].1),
{
    assert(bins[n_fft - b] == (re[n_fft - b], im[n_fft - b]));
    assert(bins[b].0 == re[n_fft - b]);
}

/// What is cut off the overlap-add of `t` frames leaves `hop` samples for every frame; it is the
/// same at both ends where the window and the hop differ by an even number.
pub proof fn law_trim_leaves_hop_samples_per_frame(n_fft: usize, hop: usize, t: nat)
    requires
        1 <= t,
        hop <= n_fft,
    ensures
        ({
            let whole = (t - 1) * hop + n_fft;
            let cut = same_padding(n_fft, hop);
            &&& 0 <= cut
            &&& cut + t * hop <= whole
            &&& (n_fft - hop) % 2 == 0 ==> whole - (cut + t * hop) == cut
        }),
{
    assert((t - 1) * hop + hop == t * hop) by (nonlinear_arith);
}

/// Whether `plus` and `times` are exact: the sum and the product of the numbers that `val` reads.
pub open spec fn is_exact<S, A: Fn(S, S) -> S, M: Fn(S, S) -> S>(
    val: spec_fn(S) -> real,
    plus: A,
    times: M,
    zero: S,
) -> bool {
    &&& val(zero) == 0 as real
    &&& forall|x: S, y: S, r: S| #[trigger] call_ensures(plus, (x, y), r) ==> val(r) == val(x) + val(y)
    &&& forall|x: S, y: S, r: S| #[trigger] call_ensures(times, (x, y), r) ==> val(r) == val(x) * val(y)
}

/// Whether `scale` divides by every weight above `floor`.
pub open spec fn is_division<S, D: Fn(S, S) -> S>(val: spec_fn(S) -> real, scale: D, floor: real) -> bool {
    forall|x: S, w: S, r: S| #[trigger]
        call_ensures(scale, (x, w), r) && val(w) > floor ==> val(r) == val(x) / val(w)
}

/// Whether `re` and `im` are the spectra of the windowed frames of `signal`, one every `hop` samples:
/// `invert` gives these frames back.
pub open spec fn are_spectra_of<S, N: Fn(S) -> S, I: Fn(Vec<(S, S)>) -> Vec<S>>(
    val: spec_fn(S) -> real,
    negate: N,
    invert: I,
    window: Seq<S>,
    hop: usize,
    re: Seq<Vec<S>>,
    im: Seq<Vec<S>>,
    signal: Seq<S>,
) -> bool {
    &&& signal.len() == (re.len() - 1) * hop + window.len()
    &&& forall|f: int, bins: Vec<(S, S)>, samples: Vec<S>|
        0 <= f < re.len() && #[trigger] is_full_spectrum(negate, re[f]@, im[f]@, window.len() as int, bins@)
            && #[trigger] call_ensures(invert, (bins,), samples) ==> is_windowed_frame(
            val,
            window,
            signal,
            f * hop,
            samples@,
        )
}

/// Whether `samples` are those of `signal` from `start` on, times the window.
pub open spec fn is_windowed_frame<S>(
    val: spec_fn(S) -> real,
    window: Seq<S>,
    signal: Seq<S>,
    start: int,
    samples: Seq<S>,
) -> bool {
    &&& samples.len() == window.len()
    &&& forall|i: int|
        0 <= i < samples.len() ==> val(#[trigger] samples[i]) == val(signal[start + i]) * val(window[i])
}

/// What the squares of `n` windows, one every `hop` samples, add up to at sample `p`.
pub open spec fn squares_at<S>(val: spec_fn(S) -> real, window: Seq<S>, hop: usize, n: nat, p: int) -> real
    decreases n,
{
    if n == 0 {
        0 as real
    } else {
        let i = p - (n - 1) * hop;
        squares_at(val, window, hop, (n - 1) as nat, p) + (if 0 <= i < window.len() {
            val(window[i]) * val(window[i])
        } else {
            0 as real
        })
    }
}

/// What numbers add up to.
spec fn sum_of<S>(val: spec_fn(S) -> real, terms: Seq<S>) -> real
    decreases terms.len(),
{
    if terms.len() == 0 {
        0 as real
    } else {
        sum_of(val, terms.drop_last()) + val(terms.last())
    }
}

/// An exact addition gives what the terms add up to.
proof fn lemma_exact_sum<S, A: Fn(S, S) -> S>(
    val: spec_fn(S) -> real,
    plus: A,
    zero: S,
    terms: Seq<S>,
    parts: Seq<S>,
    i: int,
)
    requires
        val(zero) == 0 as real,
        forall|x: S, y: S, r: S| #[trigger] call_ensures(plus, (x, y), r) ==> val(r) == val(x) + val(y),
        is_running_sum(plus, zero, terms, parts),
        0 <= i <= terms.len(),
    ensures
        val(parts[i]) == sum_of(val, terms.take(i)),
    decreases i,
{
    if i > 0 {
        lemma_exact_sum(val, plus, zero, terms, parts, i - 1);
        let term = terms[i - 1];
        assert(call_ensures(plus, (parts[i - 1], term), parts[i - 1 + 1]));
        assert(terms.take(i).drop_last() =~= terms.take(i - 1));
        assert(terms.take(i).last() == term);
    }
}

/// The squared windows that overlap add up to what they do.
proof fn lemma_overlapping_squares<S, A: Fn(S, S) -> S, M: Fn(S, S) -> S>(
    val: spec_fn(S) -> real,
    plus: A,
    times: M,
    zero: S,
    window: Seq<S>,
    hop: usize,
    squares: Seq<Vec<S>>,
    n: nat,
    p: int,
)
    requires
        is_exact(val, plus, times, zero),
        n <= squares.len(),
        are_squares(times, window, squares.len(), squares),
    ensures
        sum_of(val, overlapping(squares, hop as nat, p, n)) == squares_at(val, window, hop, n, p),
    decreases n,
{
    if n > 0 {
        let m = (n - 1) as nat;
        lemma_overlapping_squares(val, plus, times, zero, window, hop, squares, m, p);
        let before = overlapping(squares, hop as nat, p, m);
        let i = p - m * hop;
        let frame = squares[m as int]@;
        assert(is_zip(times, window, window, frame));
        if 0 <= i < frame.len() {
            assert(call_ensures(times, (window[i], window[i]), frame[i]));
            assert(before.push(frame[i]).drop_last() =~= before);
        }
    }
}

/// Where frames and squared windows overlap, the frames are the squares times the sample there.
proof fn lemma_overlapping_frames<
    S,
    N: Fn(S) -> S,
    I: Fn(Vec<(S, S)>) -> Vec<S>,
    A: Fn(S, S) -> S,
    M: Fn(S, S) -> S,
>(
    val: spec_fn(S) -> real,
    negate: N,
    invert: I,
    plus: A,
    times: M,
    zero: S,
    window: Seq<S>,
    hop: usize,
    re: Seq<Vec<S>>,
    im: Seq<Vec<S>>,
    signal: Seq<S>,
    frames: Seq<Vec<S>>,
    squares: Seq<Vec<S>>,
    n: nat,
    p: int,
)
    requires
        is_exact(val, plus, times, zero),
        are_spectra_of(val, negate, invert, window, hop, re, im, signal),
        are_frames(negate, invert, times, window, re, im, frames),
        are_squares(times, window, re.len(), squares),
        n <= re.len(),
    ensures
        are_related(
            overlapping(frames, hop as nat, p, n),
            overlapping(squares, hop as nat, p, n),
            is_multiple(val, val(signal[p])),
        ),
    decreases n,
{
    let rel = is_multiple(val, val(signal[p]));
    if n > 0 {
        let m = (n - 1) as nat;
        lemma_overlapping_frames(
            val,
            negate,
            invert,
            plus,
            times,
            zero,
            window,
            hop,
            re,
            im,
            signal,
            frames,
            squares,
            m,
            p,
        );
        let (frame, square) = (frames[m as int]@, squares[m as int]@);
        assert(is_frame(negate, invert, times, window, re[m as int]@, im[m as int]@, frame));
        assert(is_zip(times, window, window, square));
        let (bins, samples) = choose|bins: Vec<(S, S)>, samples: Vec<S>|
            is_full_spectrum(negate, re[m as int]@, im[m as int]@, window.len() as int, bins@)
                && #[trigger] call_ensures(invert, (bins,), samples) && is_zip(times, samples@, window, frame);
        assert(is_windowed_frame(val, window, signal, m * hop, samples@));
        let i = p - m * hop;
        assert(frame.len() == square.len());
        if 0 <= i < frame.len() {
            assert(call_ensures(times, (samples@[i], window[i]), frame[i]));
            assert(call_ensures(times, (window[i], window[i]), square[i]));
            assert(val(samples@[i]) == val(signal[m * hop + i]) * val(window[i]));
            let (c, w) = (val(signal[p]), val(window[i]));
            assert((c * w) * w == c * (w * w)) by (nonlinear_arith);
            assert(rel(frame[i], square[i]));
        }
    }
}

/// The relation of numbers to those that are `c` times as large.
spec fn is_multiple<S>(val: spec_fn(S) -> real, c: real) -> spec_fn(S, S) -> bool {
    |x: S, y: S| val(x) == c * val(y)
}

/// The inverse transform undoes the windowed analysis: in exact arithmetic the samples of the signal
/// come back, but for those that are cut off at the ends, wherever the squared windows add up to more
/// than what `scale` leaves alone.
pub proof fn law_inverse_transform_undoes_the_analysis<
    S,
    N: Fn(S) -> S,
    I: Fn(Vec<(S, S)>) -> Vec<S>,
    A: Fn(S, S) -> S,
    M: Fn(S, S) -> S,
    D: Fn(S, S) -> S,
>(
    val: spec_fn(S) -> real,
    negate: N,
    invert: I,
    plus: A,
    times: M,
    scale: D,
    zero: S,
    window: Seq<S>,
    hop: usize,
    re: Seq<Vec<S>>,
    im: Seq<Vec<S>>,
    floor: real,
    signal: Seq<S>,
    out: Seq<S>,
    q: int,
)
    requires
        is_exact(val, plus, times, zero),
        is_division(val, scale, floor),
        floor >= 0 as real,
        hop <= window.len() <= usize::MAX,
        1 <= re.len(),
        are_spectra_of(val, negate, invert, window, hop, re, im, signal),
        is_istft(negate, invert, plus, times, scale, zero, window, hop, re, im, out),
        0 <= q < re.len() * hop,
        squares_at(val, window, hop, re.len(), same_padding(window.len() as usize, hop) + q) > floor,
    ensures
        out.len() == re.len() * hop,
        val(out[q]) == val(signal[same_padding(window.len() as usize, hop) + q]),
{
    let n = re.len();
    let size = window.len();
    let start = same_padding(size as usize, hop);
    let p = start + q;
    law_trim_leaves_hop_samples_per_frame(size as usize, hop, n);
    let (frames, squares, y, weight) = choose|
        frames: Seq<Vec<S>>,
        squares: Seq<Vec<S>>,
        y: Seq<S>,
        weight: Seq<S>,
    |
        are_frames(negate, invert, times, window, re, im, frames) && are_squares(times, window, re.len(), squares)
            && #[trigger] is_overlap_add(plus, zero, frames, window.len(), hop as nat, y) && #[trigger] is_overlap_add(
            plus,
            zero,
            squares,
            window.len(),
            hop as nat,
            weight,
        ) && is_trimmed(scale, same_padding(window.len() as usize, hop), (re.len() * hop) as int, y, weight, out);
    let c = val(signal[p]);
    let rel = is_multiple(val, c);
    let above = overlapping(frames, hop as nat, p, n);
    let below = overlapping(squares, hop as nat, p, n);
    lemma_overlapping_frames(
        val,
        negate,
        invert,
        plus,
        times,
        zero,
        window,
        hop,
        re,
        im,
        signal,
        frames,
        squares,
        n,
        p,
    );
    assert(rel(zero, zero)) by {
        assert(c * (0 as real) == 0 as real) by (nonlinear_arith);
    }
    assert forall|x: S, x2: S, u: S, u2: S, a: S, b: S|
        rel(x, x2) && rel(u, u2) && #[trigger] call_ensures(plus, (x, u), a) && #[trigger] call_ensures(
            plus,
            (x2, u2),
            b,
        ) implies rel(a, b) by {
        let (v, w) = (val(x2), val(u2));
        assert(c * (v + w) == c * v + c * w) by (nonlinear_arith);
    }
    assert(keeps_relation_of_two(plus, rel, rel, rel));
    assert(is_sum(plus, zero, above, y[p]));
    assert(is_sum(plus, zero, below, weight[p]));
    law_related_sums(plus, zero, rel, above, below, y[p], weight[p]);
    let parts = choose|parts: Seq<S>| #[trigger] is_running_sum(plus, zero, below, parts) && parts.last() == weight[p];
    lemma_exact_sum(val, plus, zero, below, parts, below.len() as int);
    assert(below.take(below.len() as int) =~= below);
    lemma_overlapping_squares(val, plus, times, zero, window, hop, squares, n, p);
    let w = val(weight[p]);
    assert(call_ensures(scale, (y[start + q], weight[start + q]), out[q]));
    assert((c * w) / w == c) by (nonlinear_arith)
        requires
            w > 0 as real,
    ;
}

} // verus!
