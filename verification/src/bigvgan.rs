//! BigVGAN v2 vocoder: the generator of `nvidia/bigvgan_v2_22khz_80band_256x`
//! (arXiv:2206.04658), which turns a mel spectrogram into a waveform.
//!
//! `conv_pre` (kernel 7, 80 to 1536 channels), then upsampling stages of one transposed
//! convolution and parallel [`AmpBlock1`]s whose outputs are averaged, channels halving from
//! stage to stage, then an alias-free activation, `conv_post` (kernel 7, one channel, no bias)
//! and a clamp to `-1 ..= 1`.
//!
//! The blocks use SnakeBeta activations wrapped in [`Activation1d`]: upsampling by 2 with a
//! low-pass filter, the activation at the doubled rate, and decimation by 2 with another
//! low-pass filter. Both filters are parameters of the checkpoint.

use crate::error::{lift, VcError};
use crate::graph::{
    clamped, convolved, deconvolved, narrowed, over, plus_inverse, product, reshaped, same_padded, sum, times, unary,
    ConvLayer, Graph, UnaryOp,
};
use crate::layers::{
    are_ready, are_sound, conv1d_forward, conv1d_layer, conv1d_packed, conv1d_ready, conv_of, conv_there,
    conv_transpose1d_forward, conv_transpose1d_layer, conv_transpose1d_packed, conv_transpose1d_ready,
    conv_transpose_there, load_conv1d, load_conv1d_no_bias, load_conv_transpose1d, root, Scope, Weights,
};
use crate::tensor::{
    clamp, conv_fits, conv_len, conv_transpose_fits, conv_transpose_len, element_count, graph, is_float, is_sound,
    kernel_fits, lemma_column_count, lemma_element_count, narrow, nonempty, over_whole, packed, pad_with_same, plain,
    plus_inverse_of, reshape, shape, sound, stretched_len, times_whole,
};
use crate::text::{decimal, numbered};
use candle_core::{Device, Error, Tensor};
use candle_nn::{Conv1d, ConvTranspose1d};
use vstd::arithmetic::div_mod::{lemma_div_denominator, lemma_div_nonincreasing, lemma_fundamental_div_mod_converse};
use vstd::arithmetic::power2::{lemma2_to64, lemma_pow2_pos, lemma_pow2_unfold, pow2};
use vstd::bits::lemma_usize_shr_is_div;
use vstd::prelude::*;

verus! {

/// Generator hyperparameters.
#[derive(Debug, Clone)]
pub struct BigVganConfig {
    /// Mel bins of the input spectrogram.
    pub num_mels: usize,
    /// Channels after `conv_pre`; halves at every upsampling stage.
    pub upsample_initial_channel: usize,
    /// Upsampling rates of the stages; their product is the hop.
    pub upsample_rates: Vec<usize>,
    /// Kernel sizes of the transposed convolutions.
    pub upsample_kernel_sizes: Vec<usize>,
    /// Kernel sizes of the parallel AMP blocks of each stage.
    pub resblock_kernel_sizes: Vec<usize>,
    /// Dilations of each AMP block's first convolutions.
    pub resblock_dilation_sizes: Vec<Vec<usize>>,
}

/// The product of a sequence of sizes.
pub open spec fn product_of(v: Seq<usize>) -> int
    decreases v.len(),
{
    if v.len() == 0 {
        1
    } else {
        product_of(v.drop_last()) * v.last()
    }
}

impl Default for BigVganConfig {
    /// `nvidia/bigvgan_v2_22khz_80band_256x`: 80 mels at 22 050 Hz, upsampling by 256.
    fn default() -> (r: Self)
        ensures
            r.is_22khz_80band_256x(),
    {
        BigVganConfig {
            num_mels: 80,
            upsample_initial_channel: 1536,
            upsample_rates: vec![4, 4, 2, 2, 2, 2],
            upsample_kernel_sizes: vec![8, 8, 4, 4, 4, 4],
            resblock_kernel_sizes: vec![3, 7, 11],
            resblock_dilation_sizes: vec![vec![1, 3, 5], vec![1, 3, 5], vec![1, 3, 5]],
        }
    }
}

impl BigVganConfig {
    /// Waveform samples per mel frame: the product of the rates.
    pub fn hop_length(&self) -> (r: usize)
        requires
            forall|i: int|
                0 <= i <= self.upsample_rates@.len() ==> product_of(#[trigger] self.upsample_rates@.take(i))
                    <= usize::MAX,
        ensures
            r == product_of(self.upsample_rates@),
    {
        let n = self.upsample_rates.len();
        let mut r: usize = 1;
        let mut i: usize = 0;
        while i < n
            invariant
                n == self.upsample_rates@.len(),
                i <= n,
                r == product_of(self.upsample_rates@.take(i as int)),
                forall|i: int|
                    0 <= i <= self.upsample_rates@.len() ==> product_of(#[trigger] self.upsample_rates@.take(i))
                        <= usize::MAX,
            decreases n - i,
        {
            let ghost next = self.upsample_rates@.take(i + 1);
            assert(next.drop_last() == self.upsample_rates@.take(i as int));
            assert(product_of(next) <= usize::MAX);
            r = r * self.upsample_rates[i];
            i += 1;
        }
        assert(self.upsample_rates@.take(n as int) == self.upsample_rates@);
        r
    }

    /// The settings of `bigvgan_v2_22khz_80band_256x`.
    pub open spec fn is_22khz_80band_256x(self) -> bool {
        &&& self.num_mels == 80
        &&& self.upsample_initial_channel == 1536
        &&& self.upsample_rates@ == seq![4usize, 4, 2, 2, 2, 2]
        &&& self.upsample_kernel_sizes@ == seq![8usize, 8, 4, 4, 4, 4]
        &&& self.resblock_kernel_sizes@ == seq![3usize, 7, 11]
        &&& self.resblock_dilation_sizes@.len() == 3
        &&& forall|j: int| 0 <= j < 3 ==> #[trigger] self.resblock_dilation_sizes@[j]@ == seq![1usize, 3, 5]
    }

    /// The number of upsampling stages.
    pub open spec fn stages(self) -> nat {
        if self.upsample_rates@.len() < self.upsample_kernel_sizes@.len() {
            self.upsample_rates@.len()
        } else {
            self.upsample_kernel_sizes@.len()
        }
    }

    /// The number of AMP blocks that each stage has weights for.
    pub open spec fn blocks(self) -> nat {
        if self.resblock_kernel_sizes@.len() < self.resblock_dilation_sizes@.len() {
            self.resblock_kernel_sizes@.len()
        } else {
            self.resblock_dilation_sizes@.len()
        }
    }

    /// The channels after `i` stages.
    pub open spec fn channels(self, i: nat) -> usize {
        (self.upsample_initial_channel as nat / pow2(i)) as usize
    }

    /// The padding of stage `i`'s transposed convolution.
    pub open spec fn up_padding(self, i: int) -> usize {
        ((self.upsample_kernel_sizes@[i] - self.upsample_rates@[i]) / 2) as usize
    }

    /// The length of the signal after `i` stages on `t` frames.
    pub open spec fn length(self, t: int, i: nat) -> int
        decreases i,
    {
        if i == 0 {
            t
        } else {
            conv_transpose_len(
                self.length(t, (i - 1) as nat),
                self.upsample_kernel_sizes@[i - 1] as int,
                self.up_padding(i - 1) as int,
                self.upsample_rates@[i - 1] as int,
                1,
            )
        }
    }

    /// Whether the paddings and indices of the generator can be counted.
    pub open spec fn buildable(self) -> bool {
        &&& self.upsample_rates@.len() < usize::BITS
        &&& self.upsample_rates@.len() * self.resblock_kernel_sizes@.len() + self.resblock_kernel_sizes@.len()
            <= usize::MAX
        &&& forall|i: int|
            0 <= i < self.stages() ==> #[trigger] self.upsample_kernel_sizes@[i] >= self.upsample_rates@[i]
        &&& self.stages() > 0 ==> forall|j: int|
            0 <= j < self.blocks() ==> amp_buildable(
                self.resblock_kernel_sizes@[j],
                #[trigger] self.resblock_dilation_sizes@[j]@,
            )
    }

    /// Whether the parts of the generator fit together, so that it can run: every stage has channels
    /// and a kernel size, and the AMP blocks keep the length of their input.
    pub open spec fn fits_together(self) -> bool {
        &&& 1 <= self.num_mels
        &&& self.upsample_rates@.len() <= self.upsample_kernel_sizes@.len()
        &&& forall|i: nat| i <= self.stages() ==> #[trigger] self.channels(i) >= 1
        &&& forall|j: int|
            0 <= j < self.blocks() ==> amp_keeps_length(
                self.resblock_kernel_sizes@[j],
                #[trigger] self.resblock_dilation_sizes@[j]@,
            )
    }

    /// Whether stage `i` can process `b` signals of `t` frames: its kernels fit, and the sizes
    /// that it counts with fit in a machine word.
    pub open spec fn stage_fits(self, b: usize, t: usize, i: nat) -> bool {
        let l = self.length(t as int, i + 1);
        &&& conv_transpose_fits(
            self.length(t as int, i),
            self.upsample_kernel_sizes@[i as int] as int,
            self.up_padding(i as int) as int,
            self.upsample_rates@[i as int] as int,
            1,
        )
        &&& activation_fits(b, self.channels(i + 1), l as usize)
        &&& forall|j: int|
            0 <= j < self.resblock_kernel_sizes@.len() ==> amp_fits(
                self.resblock_kernel_sizes@[j],
                #[trigger] self.resblock_dilation_sizes@[j]@,
                l as usize,
            )
    }

    /// Whether the generator can process a mel spectrogram of the given shape, as far as sizes
    /// go. Shapes without three axes are fit: they are rejected.
    pub open spec fn fits(self, dims: Seq<usize>) -> bool {
        dims.len() == 3 ==> {
            let n = self.stages();
            &&& 1 <= dims[2] <= usize::MAX - 6
            &&& n > 0 ==> 1 <= self.resblock_kernel_sizes@.len() <= self.resblock_dilation_sizes@.len()
            &&& self.resblock_kernel_sizes@.len() <= i64::MAX
            &&& forall|i: nat| i < n ==> #[trigger] self.stage_fits(dims[0], dims[2], i)
            &&& activation_fits(dims[0], self.channels(n), self.length(dims[2] as int, n) as usize)
            &&& 1 <= self.length(dims[2] as int, n)
        }
    }
}

/// SnakeBeta of `x`: `x + sin^2(x * e^alpha) / (e^beta + 1e-9)`, with one `alpha` and one `beta`
/// per channel.
pub open spec fn snake(s: Scope, channels: usize, x: Graph) -> Graph {
    let dims = seq![1usize, channels, 1usize];
    let alpha = reshaped(unary(UnaryOp::Exp, s.parameter("alpha"@)), dims);
    let beta = reshaped(unary(UnaryOp::Exp, s.parameter("beta"@)), dims);
    sum(
        x,
        product(
            unary(UnaryOp::Sqr, unary(UnaryOp::Sin, product(x, alpha))),
            unary(UnaryOp::Recip, plus_inverse(beta, 1_000_000_000)),
        ),
    )
}

/// Whether the parameters of a SnakeBeta activation are there.
pub open spec fn snake_there(s: Scope, channels: usize) -> bool {
    &&& s.holds("alpha"@, seq![channels])
    &&& s.holds("beta"@, seq![channels])
}

/// SnakeBeta activation.
#[derive(Debug)]
struct SnakeBeta {
    /// `e^alpha` as `[1, channels, 1]`.
    alpha: Tensor,
    /// `1 / (e^beta + 1e-9)` as `[1, channels, 1]`.
    beta_recip: Tensor,
}

impl SnakeBeta {
    spec fn loaded(self, s: Scope, channels: usize) -> bool {
        let dims = seq![1usize, channels, 1usize];
        &&& shape(self.alpha) == dims
        &&& shape(self.beta_recip) == dims
        &&& graph(self.alpha) == reshaped(unary(UnaryOp::Exp, s.parameter("alpha"@)), dims)
        &&& graph(self.beta_recip) == unary(
            UnaryOp::Recip,
            plus_inverse(reshaped(unary(UnaryOp::Exp, s.parameter("beta"@)), dims), 1_000_000_000),
        )
        &&& s.ready ==> plain(self.alpha) && plain(self.beta_recip)
    }

    fn new(channels: usize, w: &Weights) -> (r: Result<Self, Error>)
        ensures
            r matches Ok(a) ==> a.loaded(w.scope(), channels) && snake_there(w.scope(), channels),
            w.scope().ready && snake_there(w.scope(), channels) ==> r is Ok,
    {
        proof {
            lemma_column_count(channels);
        }
        let dims = vec![channels];
        assert(dims@ == seq![channels]);
        let alpha = w.get(dims, "alpha")?;
        let column = vec![1, channels, 1];
        assert(column@ == seq![1usize, channels, 1usize]);
        let alpha = reshape(&alpha.exp()?, column)?;
        let dims = vec![channels];
        assert(dims@ == seq![channels]);
        let beta = w.get(dims, "beta")?;
        let column = vec![1, channels, 1];
        assert(column@ == seq![1usize, channels, 1usize]);
        let beta = reshape(&beta.exp()?, column)?;
        Ok(SnakeBeta { alpha, beta_recip: plus_inverse_of(&beta, 1_000_000_000)?.recip()? })
    }

    /// `x` is `[batch, channels, time]`.
    fn forward(&self, x: &Tensor, Ghost(s): Ghost<Scope>, Ghost(channels): Ghost<usize>) -> (r: Result<Tensor, Error>)
        requires
            self.loaded(s, channels),
            is_float(*x),
            shape(*x).len() == 3,
        ensures
            r matches Ok(y) ==> shape(y) == shape(*x) && is_float(y) && graph(y) == snake(s, channels, graph(*x)),
            s.ready && plain(*x) && shape(*x)[1] == channels ==> (r matches Ok(y) && plain(y)),
    {
        let sine = x.broadcast_mul(&self.alpha)?.sin()?.sqr()?;
        assert(shape(*x)[1] == channels ==> shape(sine) == shape(*x));
        let added = sine.broadcast_mul(&self.beta_recip)?;
        assert(shape(*x)[1] == channels ==> shape(added) == shape(*x));
        x.add(&added)
    }
}

/// Ratio and kernel size of the alias-free resampling pair.
const AA_RATIO: usize = 2;

const AA_KERNEL: usize = 12;

/// A resampling filter: a single-channel kernel of 12 taps.
pub open spec fn resampler(filter: Graph) -> ConvLayer {
    ConvLayer {
        weight: Box::new(filter),
        bias: None,
        in_channels: 1,
        out_channels: 1,
        kernel: 12,
        padding: 0,
        stride: 2,
        dilation: 1,
    }
}

/// `x`, of shape `[b, c, t]`, at twice the rate: replicate-padded by 5, upsampled by the filter,
/// scaled by 2, and 15 samples trimmed at each side.
pub open spec fn upsampled(s: Scope, x: Graph, b: usize, c: usize, t: usize) -> Graph {
    let flat = reshaped(same_padded(x, 2, 5, 5), seq![(b * c) as usize, 1usize, (t + 10) as usize]);
    let up = deconvolved(flat, resampler(s.parameter("upsample.filter"@)));
    reshaped(narrowed(times(up, 2), 2, 15, 2 * t), seq![b, c, (2 * t) as usize])
}

/// `x`, of shape `[b, c, t]`, at half the rate: replicate-padded by 5 and 6 and decimated by the
/// filter.
pub open spec fn downsampled(s: Scope, x: Graph, b: usize, c: usize, t: usize) -> Graph {
    let flat = reshaped(same_padded(x, 2, 5, 6), seq![(b * c) as usize, 1usize, (t + 11) as usize]);
    reshaped(convolved(flat, resampler(s.parameter("downsample.lowpass.filter"@))), seq![b, c, t / 2])
}

/// The alias-free activation of `x`, of shape `[b, c, t]`.
pub open spec fn activation(s: Scope, channels: usize, x: Graph, b: usize, c: usize, t: usize) -> Graph {
    downsampled(s, snake(s.at("act"@), channels, upsampled(s, x, b, c, t)), b, c, (2 * t) as usize)
}

/// Whether the sizes that an alias-free activation of a `[b, c, t]` tensor counts with fit in a
/// machine word.
pub open spec fn activation_fits(b: usize, c: usize, t: usize) -> bool {
    &&& b * c <= usize::MAX
    &&& 2 * t + 30 <= usize::MAX
}

/// Whether the parameters of an alias-free activation are there.
pub open spec fn activation_there(s: Scope, channels: usize) -> bool {
    &&& snake_there(s.at("act"@), channels)
    &&& s.holds("upsample.filter"@, seq![1usize, 1usize, 12usize])
    &&& s.holds("downsample.lowpass.filter"@, seq![1usize, 1usize, 12usize])
}

/// Alias-free activation: upsampling by 2, [`SnakeBeta`], downsampling by 2.
///
/// One filter serves all channels, so each resampler is a single-channel convolution over a
/// `[batch * channels, 1, time]` view.
#[derive(Debug)]
struct Activation1d {
    act: SnakeBeta,
    /// `[1, 1, 12]`.
    up_filter: Tensor,
    /// `[1, 1, 12]`.
    down_filter: Tensor,
}

impl Activation1d {
    spec fn loaded(self, s: Scope, channels: usize) -> bool {
        let dims = seq![1usize, 1usize, 12usize];
        &&& self.act.loaded(s.at("act"@), channels)
        &&& shape(self.up_filter) == dims
        &&& shape(self.down_filter) == dims
        &&& graph(self.up_filter) == s.parameter("upsample.filter"@)
        &&& graph(self.down_filter) == s.parameter("downsample.lowpass.filter"@)
        &&& packed(self.up_filter)
        &&& packed(self.down_filter)
        &&& s.ready ==> plain(self.up_filter) && plain(self.down_filter)
    }

    fn new(channels: usize, w: &Weights) -> (r: Result<Self, Error>)
        ensures
            r matches Ok(a) ==> a.loaded(w.scope(), channels) && activation_there(w.scope(), channels),
            w.scope().ready && activation_there(w.scope(), channels) ==> r is Ok,
    {
        let act = SnakeBeta::new(channels, &w.pp("act"))?;
        let dims = vec![1, 1, AA_KERNEL];
        assert(dims@ == seq![1usize, 1usize, 12usize]);
        let up_filter = w.get(dims, "upsample.filter")?;
        let dims = vec![1, 1, AA_KERNEL];
        assert(dims@ == seq![1usize, 1usize, 12usize]);
        let down_filter = w.get(dims, "downsample.lowpass.filter")?;
        Ok(Activation1d { act, up_filter, down_filter })
    }

    /// `[b, c, t]` to `[b, c, 2 t]`.
    fn upsample(&self, x: &Tensor, Ghost(s): Ghost<Scope>, Ghost(channels): Ghost<usize>) -> (r: Result<Tensor, Error>)
        requires
            self.loaded(s, channels),
            is_float(*x),
            shape(*x).len() == 3 ==> activation_fits(shape(*x)[0], shape(*x)[1], shape(*x)[2]),
        ensures
            r matches Ok(y) ==> ({
                let (b, c, t) = (shape(*x)[0], shape(*x)[1], shape(*x)[2]);
                &&& shape(*x).len() == 3
                &&& nonempty(shape(*x))
                &&& shape(y) == seq![b, c, (2 * t) as usize]
                &&& is_float(y)
                &&& graph(y) == upsampled(s, graph(*x), b, c, t)
            }),
            s.ready && plain(*x) && shape(*x).len() == 3 && nonempty(shape(*x)) ==> (r matches Ok(y) && plain(y)),
    {
        let (b, c, t) = x.dims3()?;
        let pad: usize = AA_KERNEL / AA_RATIO - 1;
        let trim: usize = pad * AA_RATIO + (AA_KERNEL - AA_RATIO) / 2;
        let padded = pad_with_same(x, 2, pad, pad)?;
        assert(shape(padded) == seq![b, c, (t + 10) as usize]);
        proof {
            lemma_merged_count(b, c, (t + 10) as usize);
            lemma_merged_count(b, c, (2 * t) as usize);
        }
        let dims = vec![b * c, 1, t + 2 * pad];
        assert(dims@ == seq![(b * c) as usize, 1usize, (t + 10) as usize]);
        let flat = reshape(&padded, dims)?;
        let up = flat.conv_transpose1d(&self.up_filter, 0, 0, AA_RATIO, 1, 1)?;
        let up = times_whole(&up, AA_RATIO as i64)?;
        assert(shape(up) == seq![(b * c) as usize, 1usize, (2 * t + 30) as usize]);
        let cut = narrow(&up, 2, trim, AA_RATIO * t)?;
        assert(shape(cut) == seq![(b * c) as usize, 1usize, (2 * t) as usize]);
        let dims = vec![b, c, AA_RATIO * t];
        assert(dims@ == seq![b, c, (2 * t) as usize]);
        reshape(&cut, dims)
    }

    /// `[b, c, t]` to `[b, c, t / 2]`.
    fn downsample(&self, x: &Tensor, Ghost(s): Ghost<Scope>, Ghost(channels): Ghost<usize>) -> (r: Result<
        Tensor,
        Error,
    >)
        requires
            self.loaded(s, channels),
            shape(*x).len() == 3 ==> shape(*x)[0] * shape(*x)[1] <= usize::MAX && shape(*x)[2] + AA_KERNEL
                <= usize::MAX,
        ensures
            r matches Ok(y) ==> ({
                let (b, c, t) = (shape(*x)[0], shape(*x)[1], shape(*x)[2]);
                &&& shape(*x).len() == 3
                &&& shape(y) == seq![b, c, t / 2]
                &&& is_float(y) == is_float(*x)
                &&& graph(y) == downsampled(s, graph(*x), b, c, t)
            }),
            s.ready && plain(*x) && shape(*x).len() == 3 && nonempty(shape(*x)) && shape(*x)[2] % 2 == 0 ==> (
            r matches Ok(y) && plain(y)),
    {
        let (b, c, t) = x.dims3()?;
        let padded = pad_with_same(x, 2, AA_KERNEL / 2 - 1, AA_KERNEL / 2)?;
        assert(shape(padded) == seq![b, c, (t + 11) as usize]);
        proof {
            lemma_merged_count(b, c, (t + 11) as usize);
            lemma_merged_count(b, c, t / 2);
        }
        let dims = vec![b * c, 1, t + AA_KERNEL - 1];
        assert(dims@ == seq![(b * c) as usize, 1usize, (t + 11) as usize]);
        let flat = reshape(&padded, dims)?;
        let down = flat.conv1d(&self.down_filter, 0, AA_RATIO, 1, 1)?;
        assert(t % 2 == 0 ==> shape(down) == seq![(b * c) as usize, 1usize, t / 2]);
        let dims = vec![b, c, t / AA_RATIO];
        assert(dims@ == seq![b, c, t / 2]);
        reshape(&down, dims)
    }

    /// `[b, c, t]` to the same shape.
    fn forward(&self, x: &Tensor, Ghost(s): Ghost<Scope>, Ghost(channels): Ghost<usize>) -> (r: Result<Tensor, Error>)
        requires
            self.loaded(s, channels),
            is_float(*x),
            shape(*x).len() == 3 ==> activation_fits(shape(*x)[0], shape(*x)[1], shape(*x)[2]),
        ensures
            r matches Ok(y) ==> ({
                let (b, c, t) = (shape(*x)[0], shape(*x)[1], shape(*x)[2]);
                &&& shape(*x).len() == 3
                &&& nonempty(shape(*x))
                &&& shape(y) == shape(*x)
                &&& is_float(y)
                &&& graph(y) == activation(s, channels, graph(*x), b, c, t)
            }),
            s.ready && plain(*x) && shape(*x).len() == 3 && nonempty(shape(*x)) && shape(*x)[1] == channels ==> (
            r matches Ok(y) && plain(y)),
    {
        let up = self.upsample(x, Ghost(s), Ghost(channels))?;
        let up = self.act.forward(&up, Ghost(s.at("act"@)), Ghost(channels))?;
        self.downsample(&up, Ghost(s), Ghost(channels))
    }
}

/// Merging two axes keeps the number of elements.
pub(crate) proof fn lemma_merged_count(b: usize, c: usize, t: usize)
    requires
        b * c <= usize::MAX,
    ensures
        element_count(seq![(b * c) as usize, 1usize, t]) == element_count(seq![b, c, t]),
        1 <= b && 1 <= c ==> 1 <= b * c,
        0 <= b * c,
{
    lemma_element_count(seq![(b * c) as usize, 1usize, t]);
    lemma_element_count(seq![b, c, t]);
    assert(0 <= b * c) by (nonlinear_arith);
    assert(1 <= b && 1 <= c ==> 1 <= b * c) by (nonlinear_arith);
    assert((b * c) * 1 * t == b * c * t);
}

/// The padding of an AMP block's convolution, which keeps the length where `(kernel - 1) *
/// dilation` is even.
pub open spec fn amp_padding(kernel: usize, dilation: usize) -> usize {
    ((kernel - 1) * dilation / 2) as usize
}

/// Residual pair `i` of an AMP block on `x`, of shape `[b, channels, t]`: activation, convolution with
/// dilation `d`, activation, convolution, and the sum with its input.
#[verifier::opaque]
pub open spec fn amp_pair(
    s: Scope,
    channels: usize,
    kernel: usize,
    d: usize,
    i: nat,
    x: Graph,
    b: usize,
    t: usize,
) -> Graph {
    let y = activation(s.at("activations."@ + decimal(2 * i)), channels, x, b, channels, t);
    let y = convolved(
        y,
        conv_of(s.at("convs1."@ + decimal(i)), true, channels, channels, kernel, amp_padding(kernel, d), 1, d),
    );
    let y = activation(s.at("activations."@ + decimal(2 * i + 1)), channels, y, b, channels, t);
    let y = convolved(
        y,
        conv_of(s.at("convs2."@ + decimal(i)), true, channels, channels, kernel, amp_padding(kernel, 1), 1, 1),
    );
    sum(y, x)
}

/// The first `n` residual pairs of an AMP block on `x`, of shape `[b, channels, t]`.
pub open spec fn amp_block(
    s: Scope,
    channels: usize,
    kernel: usize,
    dilations: Seq<usize>,
    n: nat,
    x: Graph,
    b: usize,
    t: usize,
) -> Graph
    decreases n,
{
    if n == 0 {
        x
    } else {
        let i = (n - 1) as nat;
        let x = amp_block(s, channels, kernel, dilations, i, x, b, t);
        amp_pair(s, channels, kernel, dilations[i as int], i, x, b, t)
    }
}

/// Whether the paddings of an AMP block can be counted.
pub open spec fn amp_buildable(kernel: usize, dilations: Seq<usize>) -> bool {
    &&& 2 * dilations.len() <= usize::MAX
    &&& dilations.len() > 0 ==> kernel >= 1
    &&& forall|j: int| 0 <= j < dilations.len() ==> (kernel - 1) * #[trigger] dilations[j] <= usize::MAX
}

/// Whether the convolutions of an AMP block keep the length of their input: what the kernel takes is
/// an even number, so the paddings at both ends make up for it.
pub open spec fn amp_keeps_length(kernel: usize, dilations: Seq<usize>) -> bool {
    forall|j: int|
        0 <= j < dilations.len() ==> (kernel - 1) * #[trigger] dilations[j] % 2 == 0 && (kernel - 1) % 2 == 0
}

/// Whether the kernels of an AMP block fit in inputs of length `t`.
pub open spec fn amp_fits(kernel: usize, dilations: Seq<usize>, t: usize) -> bool {
    forall|j: int|
        0 <= j < dilations.len() ==> {
            let p = amp_padding(kernel, #[trigger] dilations[j]) as int;
            let inner = conv_len(t as int, kernel as int, p, 1, dilations[j] as int);
            &&& conv_fits(t as int, kernel as int, p, 1, dilations[j] as int)
            &&& conv_fits(inner, kernel as int, amp_padding(kernel, 1) as int, 1, 1)
        }
}

/// Whether the parameters of the first `n` convolutions under `name` are there.
pub open spec fn convs_there(s: Scope, name: Seq<char>, channels: usize, kernel: usize, n: nat) -> bool {
    forall|i: nat| i < n ==> conv_there(s.at(name + #[trigger] decimal(i)), true, channels, channels, kernel)
}

/// Whether the parameters of the first `n` activations are there.
pub open spec fn activations_there(s: Scope, channels: usize, n: nat) -> bool {
    forall|i: nat| i < n ==> activation_there(s.at("activations."@ + #[trigger] decimal(i)), channels)
}

/// Whether the parameters of an AMP block of `n` pairs of convolutions are there.
pub open spec fn amp_there(s: Scope, channels: usize, kernel: usize, n: nat) -> bool {
    &&& convs_there(s, "convs1."@, channels, kernel, n)
    &&& convs_there(s, "convs2."@, channels, kernel, n)
    &&& activations_there(s, channels, 2 * n)
}

/// An AMP block: residual pairs of convolutions, the first of each pair dilated, with alias-free
/// activations before every convolution.
#[derive(Debug)]
struct AmpBlock1 {
    convs1: Vec<Conv1d>,
    convs2: Vec<Conv1d>,
    /// Two activations for each pair of convolutions.
    acts: Vec<Activation1d>,
}

impl AmpBlock1 {
    spec fn convs_loaded(
        convs: Seq<Conv1d>,
        s: Scope,
        name: Seq<char>,
        channels: usize,
        kernel: usize,
        dilations: Seq<usize>,
    ) -> bool {
        forall|i: int|
            0 <= i < convs.len() ==> conv1d_layer(#[trigger] convs[i]) == conv_of(
                s.at(name + decimal(i as nat)),
                true,
                channels,
                channels,
                kernel,
                amp_padding(kernel, dilations[i]),
                1,
                dilations[i],
            ) && conv1d_packed(convs[i]) && (s.ready ==> conv1d_ready(convs[i]))
    }

    spec fn acts_loaded(acts: Seq<Activation1d>, s: Scope, channels: usize) -> bool {
        forall|i: int|
            0 <= i < acts.len() ==> (#[trigger] acts[i]).loaded(s.at("activations."@ + decimal(i as nat)), channels)
    }

    spec fn loaded(self, s: Scope, channels: usize, kernel: usize, dilations: Seq<usize>) -> bool {
        &&& self.convs1@.len() == dilations.len()
        &&& self.convs2@.len() == dilations.len()
        &&& self.acts@.len() == 2 * dilations.len()
        &&& Self::convs_loaded(self.convs1@, s, "convs1."@, channels, kernel, dilations)
        &&& Self::convs_loaded(
            self.convs2@,
            s,
            "convs2."@,
            channels,
            kernel,
            Seq::new(dilations.len(), |i: int| 1usize),
        )
        &&& Self::acts_loaded(self.acts@, s, channels)
    }

    /// One length-preserving convolution.
    fn conv(channels: usize, kernel: usize, dilation: usize, w: &Weights) -> (r: Result<Conv1d, Error>)
        requires
            kernel >= 1,
            (kernel - 1) * dilation <= usize::MAX,
        ensures
            r matches Ok(c) ==> conv_there(w.scope(), true, channels, channels, kernel) && conv1d_layer(c) == conv_of(
                w.scope(),
                true,
                channels,
                channels,
                kernel,
                amp_padding(kernel, dilation),
                1,
                dilation,
            ) && conv1d_packed(c) && (w.scope().ready ==> conv1d_ready(c)),
            w.scope().ready && conv_there(w.scope(), true, channels, channels, kernel) ==> r is Ok,
    {
        load_conv1d(w, channels, channels, kernel, (kernel - 1) * dilation / 2, 1, dilation)
    }

    fn new(channels: usize, kernel: usize, dilations: &Vec<usize>, w: &Weights) -> (r: Result<Self, Error>)
        requires
            amp_buildable(kernel, dilations@),
        ensures
            r matches Ok(a) ==> a.loaded(w.scope(), channels, kernel, dilations@) && amp_there(
                w.scope(),
                channels,
                kernel,
                dilations@.len(),
            ),
            w.scope().ready && amp_there(w.scope(), channels, kernel, dilations@.len()) ==> r is Ok,
    {
        let n = dilations.len();
        let mut convs1: Vec<Conv1d> = Vec::new();
        let mut i: usize = 0;
        while i < n
            invariant
                n == dilations@.len(),
                i <= n,
                convs1@.len() == i,
                amp_buildable(kernel, dilations@),
                Self::convs_loaded(convs1@, w.scope(), "convs1."@, channels, kernel, dilations@),
                convs_there(w.scope(), "convs1."@, channels, kernel, i as nat),
            decreases n - i,
        {
            convs1.push(Self::conv(channels, kernel, dilations[i], &w.pp(numbered("convs1.", i).as_str()))?);
            i += 1;
        }
        let ghost ones = Seq::new(n as nat, |i: int| 1usize);
        let mut convs2: Vec<Conv1d> = Vec::new();
        i = 0;
        while i < n
            invariant
                n == dilations@.len(),
                i <= n,
                convs2@.len() == i,
                amp_buildable(kernel, dilations@),
                ones == Seq::new(n as nat, |i: int| 1usize),
                Self::convs_loaded(convs2@, w.scope(), "convs2."@, channels, kernel, ones),
                convs_there(w.scope(), "convs2."@, channels, kernel, i as nat),
            decreases n - i,
        {
            convs2.push(Self::conv(channels, kernel, 1, &w.pp(numbered("convs2.", i).as_str()))?);
            i += 1;
        }
        let mut acts: Vec<Activation1d> = Vec::new();
        i = 0;
        while i < 2 * n
            invariant
                n == dilations@.len(),
                i <= 2 * n <= usize::MAX,
                acts@.len() == i,
                Self::acts_loaded(acts@, w.scope(), channels),
                activations_there(w.scope(), channels, i as nat),
            decreases 2 * n - i,
        {
            acts.push(Activation1d::new(channels, &w.pp(numbered("activations.", i).as_str()))?);
            i += 1;
        }
        Ok(AmpBlock1 { convs1, convs2, acts })
    }

    /// Residual pair `i` on `[batch, channels, time]`.
    fn pair(
        &self,
        i: usize,
        x: &Tensor,
        Ghost(s): Ghost<Scope>,
        Ghost(channels): Ghost<usize>,
        Ghost(kernel): Ghost<usize>,
        Ghost(dilations): Ghost<Seq<usize>>,
    ) -> (r: Result<Tensor, Error>)
        requires
            self.loaded(s, channels, kernel, dilations),
            amp_buildable(kernel, dilations),
            i < dilations.len(),
            is_float(*x),
            shape(*x).len() == 3,
            shape(*x)[1] == channels,
            activation_fits(shape(*x)[0], channels, shape(*x)[2]),
            amp_fits(kernel, dilations, shape(*x)[2]),
        ensures
            r matches Ok(y) ==> shape(y) == shape(*x) && is_float(y) && sound(y) && graph(y) == amp_pair(
                s,
                channels,
                kernel,
                dilations[i as int],
                i as nat,
                graph(*x),
                shape(*x)[0],
                shape(*x)[2],
            ),
            s.ready && plain(*x) && nonempty(shape(*x)) && amp_keeps_length(kernel, dilations) ==> (r matches Ok(y)
                && plain(y)),
    {
        let ghost d = dilations[i as int];
        let ghost s1 = s.at("activations."@ + decimal((2 * i) as nat));
        let ghost s2 = s.at("activations."@ + decimal((2 * i + 1) as nat));
        let ghost (b, t) = (shape(*x)[0], shape(*x)[2]);
        proof {
            reveal(amp_pair);
            lemma_padding(kernel, d);
            lemma_padding(kernel, 1);
            assert(shape(*x) =~= seq![b, channels, t]);
            assert(amp_keeps_length(kernel, dilations) ==> (kernel - 1) * d % 2 == 0 && (kernel - 1) % 2 == 0);
            assert(nonempty(shape(*x)) ==> 1 <= b && 1 <= channels && 1 <= t);
        }
        let y = self.acts[2 * i].forward(x, Ghost(s1), Ghost(channels))?;
        let y = conv1d_forward(&self.convs1[i], &y)?;
        let ghost inner = shape(y)[2];
        let y = self.acts[2 * i + 1].forward(&y, Ghost(s2), Ghost(channels))?;
        let y = conv1d_forward(&self.convs2[i], &y)?;
        let y = y.add(x)?;
        assert(inner == t);
        Ok(y)
    }

    /// `x` is `[batch, channels, time]`.
    fn forward(
        &self,
        x: &Tensor,
        Ghost(s): Ghost<Scope>,
        Ghost(channels): Ghost<usize>,
        Ghost(kernel): Ghost<usize>,
        Ghost(dilations): Ghost<Seq<usize>>,
    ) -> (r: Result<Tensor, Error>)
        requires
            self.loaded(s, channels, kernel, dilations),
            amp_buildable(kernel, dilations),
            is_float(*x),
            shape(*x).len() == 3,
            shape(*x)[1] == channels,
            activation_fits(shape(*x)[0], channels, shape(*x)[2]),
            amp_fits(kernel, dilations, shape(*x)[2]),
        ensures
            r matches Ok(y) ==> shape(y) == shape(*x) && is_float(y) && (sound(*x) ==> sound(y)) && graph(y)
                == amp_block(
                s,
                channels,
                kernel,
                dilations,
                dilations.len(),
                graph(*x),
                shape(*x)[0],
                shape(*x)[2],
            ),
            s.ready && plain(*x) && nonempty(shape(*x)) && amp_keeps_length(kernel, dilations) ==> (r matches Ok(y)
                && plain(y)),
    {
        let ghost (b, t) = (shape(*x)[0], shape(*x)[2]);
        let mut y = x.clone();
        let mut i: usize = 0;
        while i < self.convs1.len()
            invariant
                self.loaded(s, channels, kernel, dilations),
                amp_buildable(kernel, dilations),
                i <= dilations.len(),
                is_float(y),
                sound(*x) ==> sound(y),
                shape(y) == shape(*x),
                shape(*x).len() == 3,
                b == shape(*x)[0],
                shape(*x)[1] == channels,
                t == shape(*x)[2],
                activation_fits(b, channels, t),
                amp_fits(kernel, dilations, t),
                graph(y) == amp_block(s, channels, kernel, dilations, i as nat, graph(*x), b, t),
                s.ready && plain(*x) && nonempty(shape(*x)) && amp_keeps_length(kernel, dilations) ==> plain(y),
            decreases dilations.len() - i,
        {
            y = self.pair(i, &y, Ghost(s), Ghost(channels), Ghost(kernel), Ghost(dilations))?;
            i += 1;
        }
        Ok(y)
    }
}

/// An AMP block's padding never lengthens: twice the padding is at most what the kernel takes.
proof fn lemma_padding(kernel: usize, dilation: usize)
    requires
        kernel >= 1,
        (kernel - 1) * dilation <= usize::MAX,
    ensures
        amp_padding(kernel, dilation) == (kernel - 1) * dilation / 2,
        2 * amp_padding(kernel, dilation) <= dilation * (kernel - 1),
        dilation * (kernel - 1) == (kernel - 1) * dilation,
{
    assert(dilation * (kernel - 1) == (kernel - 1) * dilation) by (nonlinear_arith);
    assert(0 <= (kernel - 1) * dilation) by (nonlinear_arith)
        requires
            kernel >= 1,
    ;
}

/// The AMP block `j` of stage `i` on `x`, of shape `[b, channels(i + 1), t]`.
pub open spec fn stage_block(cfg: BigVganConfig, s: Scope, i: nat, j: nat, x: Graph, b: usize, t: usize) -> Graph {
    let dilations = cfg.resblock_dilation_sizes@[j as int]@;
    amp_block(
        block_scope(cfg, s, i, j),
        cfg.channels(i + 1),
        cfg.resblock_kernel_sizes@[j as int],
        dilations,
        dilations.len(),
        x,
        b,
        t,
    )
}

/// The sum of the first `n` AMP blocks of stage `i` on `x`.
pub open spec fn stage_blocks(
    cfg: BigVganConfig,
    s: Scope,
    i: nat,
    n: nat,
    x: Graph,
    b: usize,
    t: usize,
) -> Graph
    decreases n,
{
    if n <= 1 {
        stage_block(cfg, s, i, 0, x, b, t)
    } else {
        sum(
            stage_blocks(cfg, s, i, (n - 1) as nat, x, b, t),
            stage_block(cfg, s, i, (n - 1) as nat, x, b, t),
        )
    }
}

/// The transposed convolution of stage `i`.
pub open spec fn stage_conv(cfg: BigVganConfig, s: Scope, i: nat) -> ConvLayer {
    conv_of(
        s.at("ups."@ + decimal(i) + ".0"@),
        true,
        cfg.channels(i),
        cfg.channels(i + 1),
        cfg.upsample_kernel_sizes@[i as int],
        cfg.up_padding(i as int),
        cfg.upsample_rates@[i as int],
        1,
    )
}

/// Stage `i` on `x`, of shape `[b, channels(i), length(t, i)]`: upsampling, and the average of the
/// AMP blocks.
#[verifier::opaque]
pub open spec fn stage(cfg: BigVganConfig, s: Scope, i: nat, x: Graph, b: usize, t: usize) -> Graph {
    let kernels = cfg.resblock_kernel_sizes@.len();
    let up = deconvolved(x, stage_conv(cfg, s, i));
    over(stage_blocks(cfg, s, i, kernels, up, b, cfg.length(t as int, i + 1) as usize), kernels as int)
}

/// The first `n` stages on `x`, the output of `conv_pre` for `b` signals of `t` frames.
pub open spec fn stages(cfg: BigVganConfig, s: Scope, n: nat, x: Graph, b: usize, t: usize) -> Graph
    decreases n,
{
    if n == 0 {
        x
    } else {
        stage(cfg, s, (n - 1) as nat, stages(cfg, s, (n - 1) as nat, x, b, t), b, t)
    }
}

/// `conv_pre`.
pub open spec fn first_conv(cfg: BigVganConfig, s: Scope) -> ConvLayer {
    conv_of(s.at("conv_pre"@), true, cfg.num_mels, cfg.upsample_initial_channel, 7, 3, 1, 1)
}

/// The position of AMP block `j` of stage `i`.
pub open spec fn block_scope(cfg: BigVganConfig, s: Scope, i: nat, j: nat) -> Scope {
    s.at("resblocks."@ + decimal(i * cfg.resblock_kernel_sizes@.len() + j))
}

/// Whether the parameters of AMP block `j` of stage `i` are there.
pub open spec fn block_there(cfg: BigVganConfig, s: Scope, i: nat, j: nat) -> bool {
    amp_there(
        block_scope(cfg, s, i, j),
        cfg.channels(i + 1),
        cfg.resblock_kernel_sizes@[j as int],
        cfg.resblock_dilation_sizes@[j as int]@.len(),
    )
}

/// Whether the parameters of the transposed convolution of stage `i` and of its first `n` AMP
/// blocks are there.
pub open spec fn stage_there(cfg: BigVganConfig, s: Scope, i: nat, n: nat) -> bool {
    &&& conv_transpose_there(
        s.at("ups."@ + decimal(i) + ".0"@),
        cfg.channels(i),
        cfg.channels(i + 1),
        cfg.upsample_kernel_sizes@[i as int],
    )
    &&& forall|j: nat| j < n ==> #[trigger] block_there(cfg, s, i, j)
}

/// Whether all parameters of the generator are there.
pub open spec fn generator_there(cfg: BigVganConfig, s: Scope) -> bool {
    let last = cfg.channels(cfg.upsample_rates@.len());
    &&& conv_there(s.at("conv_pre"@), true, cfg.num_mels, cfg.upsample_initial_channel, 7)
    &&& forall|i: nat| i < cfg.stages() ==> #[trigger] stage_there(cfg, s, i, cfg.blocks())
    &&& activation_there(s.at("activation_post"@), last)
    &&& conv_there(s.at("conv_post"@), false, last, 1, 7)
}

/// `conv_post`.
pub open spec fn last_conv(cfg: BigVganConfig, s: Scope) -> ConvLayer {
    conv_of(s.at("conv_post"@), false, cfg.channels(cfg.upsample_rates@.len()), 1, 7, 3, 1, 1)
}

/// The waveform that the generator with parameters `s` makes of the mel spectrogram `x`, `b`
/// signals of `t` frames.
pub open spec fn waveform(cfg: BigVganConfig, s: Scope, x: Graph, b: usize, t: usize) -> Graph {
    let n = cfg.stages();
    let x = stages(cfg, s, n, convolved(x, first_conv(cfg, s)), b, t);
    let x = activation(
        s.at("activation_post"@),
        cfg.channels(cfg.upsample_rates@.len()),
        x,
        b,
        cfg.channels(n),
        cfg.length(t as int, n) as usize,
    );
    clamped(convolved(x, last_conv(cfg, s)), -1, 1)
}

/// Channels halve from stage to stage.
pub(crate) proof fn lemma_channels(cfg: BigVganConfig, i: nat)
    ensures
        cfg.channels(0) == cfg.upsample_initial_channel,
        cfg.channels(i) == cfg.upsample_initial_channel as nat / pow2(i),
        cfg.channels(i + 1) == cfg.channels(i) / 2,
{
    let c = cfg.upsample_initial_channel as int;
    lemma_pow2_unfold(i + 1);
    lemma_pow2_pos(i);
    lemma_pow2_pos(i + 1);
    assert(pow2(0) == 1) by {
        lemma2_to64();
    }
    lemma_div_nonincreasing(c, pow2(i) as int);
    lemma_div_nonincreasing(c, pow2(i + 1) as int);
    lemma_div_denominator(c, pow2(i) as int, 2);
    assert(pow2(i + 1) == pow2(i) * 2);
}

/// Whether the kernels of an AMP block fit in inputs of length `t`.
fn amp_kernels_fit(kernel: usize, dilations: &Vec<usize>, t: usize) -> (r: bool)
    requires
        amp_buildable(kernel, dilations@),
    ensures
        r == amp_fits(kernel, dilations@, t),
{
    let mut j: usize = 0;
    while j < dilations.len()
        invariant
            amp_buildable(kernel, dilations@),
            j <= dilations@.len(),
            forall|k: int|
                0 <= k < j ==> {
                    let p = amp_padding(kernel, #[trigger] dilations@[k]) as int;
                    let inner = conv_len(t as int, kernel as int, p, 1, dilations@[k] as int);
                    &&& conv_fits(t as int, kernel as int, p, 1, dilations@[k] as int)
                    &&& conv_fits(inner, kernel as int, amp_padding(kernel, 1) as int, 1, 1)
                },
        decreases dilations@.len() - j,
    {
        let d = dilations[j];
        proof {
            lemma_padding(kernel, d);
            lemma_padding(kernel, 1);
        }
        let p = (kernel - 1) * d / 2;
        if !kernel_fits(t, kernel, p, d) {
            return false;
        }
        let inner = t + 2 * p - d * (kernel - 1);
        if !kernel_fits(inner, kernel, (kernel - 1) / 2, 1) {
            return false;
        }
        j += 1;
    }
    true
}

impl BigVganConfig {
    /// Whether stage `i` can process `b` signals whose length is `l` before it; if so, their length
    /// after it.
    fn stage_len(&self, i: usize, b: usize, l: usize, Ghost(t): Ghost<usize>) -> (r: Option<usize>)
        requires
            self.buildable(),
            i < self.stages(),
            self.resblock_kernel_sizes@.len() <= self.resblock_dilation_sizes@.len(),
            l == self.length(t as int, i as nat),
        ensures
            r is Some <==> self.stage_fits(b, t, i as nat),
            r matches Some(n) ==> n == self.length(t as int, i as nat + 1) && n >= 1,
    {
        let rate = self.upsample_rates[i];
        let kernel = self.upsample_kernel_sizes[i];
        let n = match stretched_len(l, kernel, (kernel - rate) / 2, rate) {
            Some(n) => n,
            None => {
                return None;
            },
        };
        proof {
            lemma_usize_shr_is_div(self.upsample_initial_channel, (i + 1) as usize);
            lemma_channels(*self, i as nat + 1);
        }
        let channels = self.upsample_initial_channel >> (i + 1);
        if !resampler_fits(b, channels, n) {
            return None;
        }
        let mut j: usize = 0;
        while j < self.resblock_kernel_sizes.len()
            invariant
                self.buildable(),
                self.stages() > 0,
                self.resblock_kernel_sizes@.len() <= self.resblock_dilation_sizes@.len(),
                j <= self.resblock_kernel_sizes@.len(),
                n == self.length(t as int, i as nat + 1),
                forall|k: int|
                    0 <= k < j ==> amp_fits(
                        self.resblock_kernel_sizes@[k],
                        #[trigger] self.resblock_dilation_sizes@[k]@,
                        n,
                    ),
            decreases self.resblock_kernel_sizes@.len() - j,
        {
            let ghost dilations = self.resblock_dilation_sizes@[j as int]@;
            assert(amp_buildable(self.resblock_kernel_sizes@[j as int], dilations));
            if !amp_kernels_fit(self.resblock_kernel_sizes[j], &self.resblock_dilation_sizes[j], n) {
                assert(!amp_fits(self.resblock_kernel_sizes@[j as int], dilations, n));
                return None;
            }
            j += 1;
        }
        Some(n)
    }

    /// Whether the generator can process a mel spectrogram of the given shape.
    pub fn can_process(&self, dims: &[usize]) -> (r: bool)
        requires
            self.buildable(),
        ensures
            r == self.fits(dims@),
    {
        if dims.len() != 3 {
            return true;
        }
        let b = dims[0];
        let t = dims[2];
        let kernels = self.resblock_kernel_sizes.len();
        let n = if self.upsample_rates.len() < self.upsample_kernel_sizes.len() {
            self.upsample_rates.len()
        } else {
            self.upsample_kernel_sizes.len()
        };
        if t < 1 || t > usize::MAX - 6 || kernels as u128 > i64::MAX as u128 {
            return false;
        }
        if n > 0 && (kernels < 1 || kernels > self.resblock_dilation_sizes.len()) {
            return false;
        }
        let mut l: usize = t;
        let mut i: usize = 0;
        while i < n
            invariant
                self.buildable(),
                dims@.len() == 3,
                b == dims@[0],
                t == dims@[2],
                n == self.stages(),
                n > 0 ==> self.resblock_kernel_sizes@.len() <= self.resblock_dilation_sizes@.len(),
                i <= n,
                l == self.length(t as int, i as nat),
                l >= 1,
                forall|k: nat| k < i ==> #[trigger] self.stage_fits(b, t, k),
            decreases n - i,
        {
            match self.stage_len(i, b, l, Ghost(t)) {
                Some(next) => {
                    l = next;
                },
                None => {
                    assert(!self.stage_fits(b, t, i as nat));
                    return false;
                },
            }
            i += 1;
        }
        proof {
            lemma_usize_shr_is_div(self.upsample_initial_channel, n);
            lemma_channels(*self, n as nat);
        }
        resampler_fits(b, self.upsample_initial_channel >> n, l)
    }
}

/// Whether an alias-free activation can count the sizes of `[b, c, t]`.
fn resampler_fits(b: usize, c: usize, t: usize) -> (r: bool)
    ensures
        r == activation_fits(b, c, t),
{
    assert(0 <= b * c <= usize::MAX * usize::MAX) by (nonlinear_arith)
        requires
            0 <= b <= usize::MAX,
            0 <= c <= usize::MAX,
    ;
    b as u128 * c as u128 <= usize::MAX as u128 && 2 * (t as u128) + 30 <= usize::MAX as u128
}

/// Whether `y` is the waveform that the generator with parameters `s` makes of `mel`.
pub open spec fn is_waveform(cfg: BigVganConfig, s: Scope, mel: Tensor, y: Tensor) -> bool {
    let (b, t) = (shape(mel)[0], shape(mel)[2]);
    &&& is_float(mel)
    &&& shape(mel).len() == 3
    &&& shape(mel)[1] == cfg.num_mels
    &&& shape(y) == seq![b, 1usize, cfg.length(t as int, cfg.stages()) as usize]
    &&& is_float(y)
    &&& graph(y) == waveform(cfg, s, graph(mel), b, t)
}

/// The BigVGAN v2 generator.
pub struct BigVgan {
    conv_pre: Conv1d,
    /// One transposed convolution per stage.
    ups: Vec<ConvTranspose1d>,
    /// The AMP blocks of all stages, stage by stage.
    resblocks: Vec<AmpBlock1>,
    activation_post: Activation1d,
    conv_post: Conv1d,
    num_kernels: usize,
    cfg: BigVganConfig,
    source: Ghost<Scope>,
}

impl BigVgan {
    /// The configuration that the generator was built with.
    pub closed spec fn config(self) -> BigVganConfig {
        self.cfg
    }

    /// The parameters that the generator was built from.
    pub closed spec fn parameters(self) -> Scope {
        self.source@
    }

    /// Whether everything is in main memory in single precision and fits together, so that no tensor
    /// operation on `mel` can fail.
    pub open spec fn runs(self, mel: Tensor) -> bool {
        &&& self.parameters().ready
        &&& self.config().fits_together()
        &&& plain(mel)
        &&& shape(mel).len() == 3
        &&& 1 <= shape(mel)[0]
        &&& shape(mel)[1] == self.config().num_mels
    }

    spec fn ups_loaded(ups: Seq<ConvTranspose1d>, cfg: BigVganConfig, s: Scope) -> bool {
        forall|i: int|
            0 <= i < ups.len() ==> conv_transpose1d_layer(#[trigger] ups[i]) == stage_conv(cfg, s, i as nat)
                && conv_transpose1d_packed(ups[i]) && (s.ready ==> conv_transpose1d_ready(ups[i]))
    }

    spec fn block_loaded(block: AmpBlock1, cfg: BigVganConfig, s: Scope, i: nat, j: nat) -> bool {
        block.loaded(
            block_scope(cfg, s, i, j),
            cfg.channels(i + 1),
            cfg.resblock_kernel_sizes@[j as int],
            cfg.resblock_dilation_sizes@[j as int]@,
        )
    }

    spec fn blocks_loaded(blocks: Seq<AmpBlock1>, cfg: BigVganConfig, s: Scope) -> bool {
        let m = cfg.blocks() as int;
        forall|q: int|
            0 <= q < blocks.len() ==> Self::block_loaded(
                #[trigger] blocks[q],
                cfg,
                s,
                (q / m) as nat,
                (q % m) as nat,
            )
    }

    #[verifier::type_invariant]
    spec fn wf(self) -> bool {
        let cfg = self.cfg;
        let s = self.source@;
        &&& cfg.buildable()
        &&& conv1d_layer(self.conv_pre) == first_conv(cfg, s)
        &&& self.ups@.len() == cfg.stages()
        &&& Self::ups_loaded(self.ups@, cfg, s)
        &&& self.resblocks@.len() == cfg.stages() * cfg.blocks()
        &&& Self::blocks_loaded(self.resblocks@, cfg, s)
        &&& self.activation_post.loaded(s.at("activation_post"@), cfg.channels(cfg.upsample_rates@.len()))
        &&& conv1d_layer(self.conv_post) == last_conv(cfg, s)
        &&& self.num_kernels == cfg.resblock_kernel_sizes@.len()
        &&& conv1d_packed(self.conv_pre)
        &&& conv1d_packed(self.conv_post)
        &&& s.ready ==> conv1d_ready(self.conv_pre) && conv1d_ready(self.conv_post)
    }

    /// Builds the default generator from the tensors of a checkpoint whose weight norms are folded,
    /// on `device`.
    pub fn load(tensors: Vec<(String, Tensor)>, device: &Device) -> (r: Result<Self, VcError>)
        requires
            are_sound(tensors@),
        ensures
            r matches Ok(m) ==> m.config().is_22khz_80band_256x() && m.parameters() == root(tensors@, *device)
                && generator_there(m.config(), root(tensors@, *device)),
            r matches Err(e) ==> e is Backend,
            are_ready(tensors@, *device) && (forall|cfg: BigVganConfig| #[trigger]
                cfg.is_22khz_80band_256x() ==> generator_there(cfg, root(tensors@, *device))) ==> r is Ok,
    {
        let cfg = BigVganConfig::default();
        proof {
            lemma_default_buildable(cfg);
        }
        let w = Weights::from_tensors(tensors, device)?;
        BigVgan::new(cfg, &w)
    }

    /// Builds the generator from the weights of a checkpoint whose weight norms are folded.
    pub fn new(cfg: BigVganConfig, w: &Weights) -> (r: Result<Self, VcError>)
        requires
            cfg.buildable(),
        ensures
            r matches Ok(m) ==> m.config() == cfg && m.parameters() == w.scope() && generator_there(cfg, w.scope()),
            r matches Err(e) ==> e is Backend,
            w.scope().ready && generator_there(cfg, w.scope()) ==> r is Ok,
    {
        lift(Self::build(cfg, w))
    }

    fn build(cfg: BigVganConfig, w: &Weights) -> (r: Result<Self, Error>)
        requires
            cfg.buildable(),
        ensures
            r matches Ok(m) ==> m.config() == cfg && m.parameters() == w.scope() && generator_there(cfg, w.scope()),
            w.scope().ready && generator_there(cfg, w.scope()) ==> r is Ok,
    {
        let ghost s = w.scope();
        let conv_pre = load_conv1d(&w.pp("conv_pre"), cfg.num_mels, cfg.upsample_initial_channel, 7, 3, 1, 1)?;
        let stages = if cfg.upsample_rates.len() < cfg.upsample_kernel_sizes.len() {
            cfg.upsample_rates.len()
        } else {
            cfg.upsample_kernel_sizes.len()
        };
        let blocks = if cfg.resblock_kernel_sizes.len() < cfg.resblock_dilation_sizes.len() {
            cfg.resblock_kernel_sizes.len()
        } else {
            cfg.resblock_dilation_sizes.len()
        };
        let mut ups: Vec<ConvTranspose1d> = Vec::new();
        let mut resblocks: Vec<AmpBlock1> = Vec::new();
        let mut i: usize = 0;
        assert(0 * blocks == 0);
        while i < stages
            invariant
                cfg.buildable(),
                s == w.scope(),
                stages == cfg.stages(),
                blocks == cfg.blocks(),
                i <= stages,
                ups@.len() == i,
                Self::ups_loaded(ups@, cfg, s),
                resblocks@.len() == i * blocks,
                Self::blocks_loaded(resblocks@, cfg, s),
                forall|k: nat| k < i ==> #[trigger] stage_there(cfg, s, k, cfg.blocks()),
            decreases stages - i,
        {
            let rate = cfg.upsample_rates[i];
            let kernel = cfg.upsample_kernel_sizes[i];
            let in_ch = cfg.upsample_initial_channel >> i;
            proof {
                lemma_usize_shr_is_div(cfg.upsample_initial_channel, i);
                lemma_channels(cfg, i as nat);
                assert(generator_there(cfg, s) ==> stage_there(cfg, s, i as nat, cfg.blocks()));
            }
            let mut level = numbered("ups.", i);
            level.append(".0");
            ups.push(
                load_conv_transpose1d(
                    &w.pp(level.as_str()),
                    in_ch,
                    in_ch / 2,
                    kernel,
                    (kernel - rate) / 2,
                    rate,
                )?,
            );
            let mut j: usize = 0;
            while j < blocks
                invariant
                    cfg.buildable(),
                    s == w.scope(),
                    stages == cfg.stages(),
                    blocks == cfg.blocks(),
                    i < stages,
                    j <= blocks,
                    in_ch / 2 == cfg.channels(i as nat + 1),
                    resblocks@.len() == i * blocks + j,
                    Self::blocks_loaded(resblocks@, cfg, s),
                    stage_there(cfg, s, i as nat, j as nat),
                decreases blocks - j,
            {
                proof {
                    let n = cfg.resblock_kernel_sizes@.len() as int;
                    assert(i * n <= cfg.upsample_rates@.len() * n) by (nonlinear_arith)
                        requires
                            i <= cfg.upsample_rates@.len(),
                            n >= 0,
                    ;
                    lemma_fundamental_div_mod_converse(i * blocks + j, blocks as int, i as int, j as int);
                    assert(generator_there(cfg, s) ==> stage_there(cfg, s, i as nat, cfg.blocks()));
                    assert(generator_there(cfg, s) ==> block_there(cfg, s, i as nat, j as nat));
                }
                let idx: usize = i * cfg.resblock_kernel_sizes.len() + j;
                let block = AmpBlock1::new(
                    in_ch / 2,
                    cfg.resblock_kernel_sizes[j],
                    &cfg.resblock_dilation_sizes[j],
                    &w.pp(numbered("resblocks.", idx).as_str()),
                )?;
                assert(Self::block_loaded(block, cfg, s, i as nat, j as nat));
                assert(block_there(cfg, s, i as nat, j as nat));
                resblocks.push(block);
                j += 1;
            }
            assert((i + 1) * blocks == i * blocks + blocks) by (nonlinear_arith);
            i += 1;
        }
        let ch = cfg.upsample_initial_channel >> cfg.upsample_rates.len();
        proof {
            lemma_usize_shr_is_div(cfg.upsample_initial_channel, cfg.upsample_rates@.len() as usize);
            lemma_channels(cfg, cfg.upsample_rates@.len());
        }
        let activation_post = Activation1d::new(ch, &w.pp("activation_post"))?;
        let conv_post = load_conv1d_no_bias(&w.pp("conv_post"), ch, 1, 7, 3, 1, 1)?;
        let num_kernels = cfg.resblock_kernel_sizes.len();
        Ok(
            BigVgan {
                conv_pre,
                ups,
                resblocks,
                activation_post,
                conv_post,
                num_kernels,
                cfg,
                source: Ghost(s),
            },
        )
    }

    /// The first convolution of a mel spectrogram `[batch, num_mels, frames]`.
    pub fn conv_pre(&self, mel: &Tensor) -> (r: Result<Tensor, VcError>)
        requires
            shape(*mel).len() == 3 ==> sound(*mel) && 1 <= shape(*mel)[2] <= usize::MAX - 6,
        ensures
            r matches Ok(y) ==> ({
                let cfg = self.config();
                &&& is_float(*mel)
                &&& shape(*mel).len() == 3
                &&& shape(*mel)[1] == cfg.num_mels
                &&& shape(y) == seq![shape(*mel)[0], cfg.upsample_initial_channel, shape(*mel)[2]]
                &&& graph(y) == convolved(graph(*mel), first_conv(cfg, self.parameters()))
            }),
            r matches Err(e) ==> e is Backend,
            self.runs(*mel) ==> r is Ok,
    {
        lift(self.first(mel))
    }

    /// Mel `[batch, num_mels, frames]` to waveform `[batch, 1, samples]` in `-1 ..= 1`.
    pub fn forward(&self, mel: &Tensor) -> (r: Result<Tensor, VcError>)
        requires
            shape(*mel).len() == 3 ==> sound(*mel),
            self.config().fits(shape(*mel)),
        ensures
            r matches Ok(y) ==> is_waveform(self.config(), self.parameters(), *mel, y),
            r matches Err(e) ==> e is Backend,
            self.runs(*mel) ==> r is Ok,
    {
        lift(self.run(mel))
    }

    /// Whether [`forward`](BigVgan::forward) can process `mel`.
    pub fn accepts(&self, mel: &Tensor) -> (r: bool)
        ensures
            r == ((shape(*mel).len() == 3 ==> sound(*mel)) && self.config().fits(shape(*mel))),
    {
        proof {
            use_type_invariant(self);
        }
        let dims = mel.dims();
        (dims.len() != 3 || is_sound(mel)) && self.cfg.can_process(dims)
    }

    /// [`forward`](BigVgan::forward), if it can process `mel`.
    pub fn checked_forward(&self, mel: &Tensor) -> (r: Option<Result<Tensor, VcError>>)
        ensures
            r is Some <==> (shape(*mel).len() == 3 ==> sound(*mel)) && self.config().fits(shape(*mel)),
            r matches Some(Ok(y)) ==> is_waveform(self.config(), self.parameters(), *mel, y),
            r matches Some(Err(e)) ==> e is Backend,
            r matches Some(q) ==> self.runs(*mel) ==> q is Ok,
    {
        if self.accepts(mel) {
            Some(self.forward(mel))
        } else {
            None
        }
    }

    fn run(&self, mel: &Tensor) -> (r: Result<Tensor, Error>)
        requires
            shape(*mel).len() == 3 ==> sound(*mel),
            self.config().fits(shape(*mel)),
        ensures
            r matches Ok(y) ==> is_waveform(self.config(), self.parameters(), *mel, y),
            self.runs(*mel) ==> r is Ok,
    {
        let x = self.first(mel)?;
        let x = self.raise(&x, Ghost(shape(*mel)))?;
        self.finish(
            &x,
            Ghost(shape(*mel)[0]),
            Ghost(self.cfg.length(shape(*mel)[2] as int, self.cfg.stages()) as usize),
        )
    }

    /// `conv_pre` on a mel spectrogram.
    fn first(&self, mel: &Tensor) -> (r: Result<Tensor, Error>)
        requires
            shape(*mel).len() == 3 ==> sound(*mel) && 1 <= shape(*mel)[2] <= usize::MAX - 6,
        ensures
            r matches Ok(y) ==> is_float(*mel) && shape(*mel).len() == 3 && shape(*mel)[1] == self.cfg.num_mels
                && is_float(y) && sound(y) && self.cfg.channels(0) == self.cfg.upsample_initial_channel && shape(y)
                == seq![shape(*mel)[0], self.cfg.channels(0), shape(*mel)[2]] && graph(y) == convolved(
                graph(*mel),
                first_conv(self.cfg, self.source@),
            ),
            self.runs(*mel) ==> (r matches Ok(y) && plain(y)),
    {
        proof {
            use_type_invariant(self);
            lemma_channels(self.cfg, 0);
            assert(self.cfg.fits_together() ==> self.cfg.channels(0) >= 1);
            if shape(*mel).len() == 3 {
                lemma_end_conv(shape(*mel)[2] as int);
            }
        }
        conv1d_forward(&self.conv_pre, mel)
    }

    /// The last activation, `conv_post` and the clamp on `[b, channels, l]`.
    fn finish(&self, x: &Tensor, Ghost(b): Ghost<usize>, Ghost(l): Ghost<usize>) -> (r: Result<Tensor, Error>)
        requires
            is_float(*x),
            shape(*x) == seq![b, self.cfg.channels(self.cfg.stages()), l],
            activation_fits(b, self.cfg.channels(self.cfg.stages()), l),
            1 <= l,
        ensures
            r matches Ok(y) ==> is_float(y) && shape(y) == seq![b, 1usize, l] && graph(y) == clamped(
                convolved(
                    activation(
                        self.source@.at("activation_post"@),
                        self.cfg.channels(self.cfg.upsample_rates@.len()),
                        graph(*x),
                        b,
                        self.cfg.channels(self.cfg.stages()),
                        l,
                    ),
                    last_conv(self.cfg, self.source@),
                ),
                -1,
                1,
            ),
            self.source@.ready && self.cfg.fits_together() && plain(*x) && 1 <= b ==> r is Ok,
    {
        proof {
            use_type_invariant(self);
            assert(self.cfg.fits_together() ==> self.cfg.channels(self.cfg.stages()) >= 1);
            lemma_end_conv(l as int);
        }
        let x = self.activation_post.forward(
            x,
            Ghost(self.source@.at("activation_post"@)),
            Ghost(self.cfg.channels(self.cfg.upsample_rates@.len())),
        )?;
        let x = conv1d_forward(&self.conv_post, &x)?;
        clamp(&x, -1, 1)
    }

    /// All stages on `x`, the output of `conv_pre` for a mel spectrogram of shape `dims`.
    #[verifier::spinoff_prover]
    fn raise(&self, x: &Tensor, Ghost(dims): Ghost<Seq<usize>>) -> (r: Result<Tensor, Error>)
        requires
            dims.len() == 3,
            self.cfg.fits(dims),
            is_float(*x),
            sound(*x),
            shape(*x) == seq![dims[0], self.cfg.channels(0), dims[2]],
        ensures
            r matches Ok(y) ==> is_float(y) && shape(y) == seq![
                dims[0],
                self.cfg.channels(self.cfg.stages()),
                self.cfg.length(dims[2] as int, self.cfg.stages()) as usize,
            ] && 0 <= self.cfg.length(dims[2] as int, self.cfg.stages()) <= usize::MAX && graph(y) == stages(
                self.cfg,
                self.source@,
                self.cfg.stages(),
                graph(*x),
                dims[0],
                dims[2],
            ),
            self.source@.ready && self.cfg.fits_together() && plain(*x) && 1 <= dims[0] ==> (r matches Ok(y) && plain(
                y,
            )),
    {
        let ghost cfg = self.cfg;
        let ghost s = self.source@;
        let ghost (b, t) = (dims[0], dims[2]);
        let ghost fine = s.ready && cfg.fits_together() && plain(*x) && 1 <= b;
        let ghost kernels = cfg.resblock_kernel_sizes@.len();
        proof {
            use_type_invariant(self);
            assert(cfg.stages() > 0 ==> cfg.stage_fits(b, t, 0));
        }
        let n = self.ups.len();
        let mut y = x.clone();
        let mut i: usize = 0;
        while i < n
            invariant
                cfg == self.cfg,
                s == self.source@,
                n == cfg.stages(),
                kernels == cfg.resblock_kernel_sizes@.len() <= i64::MAX,
                n > 0 ==> 1 <= kernels <= cfg.resblock_dilation_sizes@.len(),
                forall|k: nat| k < n ==> #[trigger] cfg.stage_fits(b, t, k),
                fine ==> forall|k: nat| k <= n ==> #[trigger] cfg.channels(k) >= 1,
                i <= n,
                is_float(y),
                sound(y),
                shape(y) == seq![b, cfg.channels(i as nat), cfg.length(t as int, i as nat) as usize],
                0 <= cfg.length(t as int, i as nat) <= usize::MAX,
                graph(y) == stages(cfg, s, i as nat, graph(*x), b, t),
                b == dims[0],
                fine == (s.ready && cfg.fits_together() && plain(*x) && 1 <= b),
                fine ==> plain(y) && 1 <= cfg.length(t as int, i as nat),
            decreases n - i,
        {
            assert(cfg.stage_fits(b, t, i as nat));
            assert(fine ==> cfg.channels(i as nat) >= 1);
            y = self.stage(i, &y, Ghost(b), Ghost(t))?;
            i += 1;
        }
        Ok(y)
    }

    /// Stage `i` on `[b, channels(i), length(t, i)]`.
    fn stage(&self, i: usize, x: &Tensor, Ghost(b): Ghost<usize>, Ghost(t): Ghost<usize>) -> (r: Result<Tensor, Error>)
        requires
            i < self.cfg.stages(),
            1 <= self.cfg.resblock_kernel_sizes@.len() <= self.cfg.resblock_dilation_sizes@.len(),
            self.cfg.resblock_kernel_sizes@.len() <= i64::MAX,
            self.cfg.stage_fits(b, t, i as nat),
            is_float(*x),
            sound(*x),
            shape(*x) == seq![b, self.cfg.channels(i as nat), self.cfg.length(t as int, i as nat) as usize],
            0 <= self.cfg.length(t as int, i as nat) <= usize::MAX,
        ensures
            r matches Ok(y) ==> 0 <= self.cfg.length(t as int, i as nat + 1) <= usize::MAX && shape(y) == seq![
                b,
                self.cfg.channels(i as nat + 1),
                self.cfg.length(t as int, i as nat + 1) as usize,
            ] && is_float(y) && sound(y) && graph(y) == stage(self.cfg, self.source@, i as nat, graph(*x), b, t),
            self.source@.ready && self.cfg.fits_together() && plain(*x) && nonempty(shape(*x)) ==> (r matches Ok(y)
                && plain(y)) && 1 <= self.cfg.length(t as int, i as nat + 1),
    {
        let ghost cfg = self.cfg;
        let ghost s = self.source@;
        let ghost l = cfg.length(t as int, i as nat + 1) as usize;
        proof {
            use_type_invariant(self);
            assert(conv_transpose1d_layer(self.ups@[i as int]) == stage_conv(cfg, s, i as nat));
            lemma_block_index(cfg, i as nat, 0);
            assert(cfg.fits_together() ==> cfg.channels(i as nat + 1) >= 1);
        }
        proof {
            reveal(stage);
        }
        let rows = x.force_contiguous()?;
        let raised = conv_transpose1d_forward(&self.ups[i], &rows)?;
        let ghost up = graph(raised);
        let mut xs = self.block(i * self.num_kernels, &raised, Ghost(i as nat), Ghost(0nat), Ghost(b), Ghost(l))?;
        let mut j: usize = 1;
        while j < self.num_kernels
            invariant
                self.wf(),
                cfg == self.cfg,
                s == self.source@,
                i < cfg.stages(),
                self.num_kernels == cfg.resblock_kernel_sizes@.len(),
                cfg.blocks() == cfg.resblock_kernel_sizes@.len(),
                cfg.buildable(),
                0 <= cfg.length(t as int, i as nat + 1) <= usize::MAX,
                l == cfg.length(t as int, i as nat + 1),
                activation_fits(b, cfg.channels(i as nat + 1), l),
                forall|j: int|
                    0 <= j < cfg.resblock_kernel_sizes@.len() ==> amp_fits(
                        cfg.resblock_kernel_sizes@[j],
                        #[trigger] cfg.resblock_dilation_sizes@[j]@,
                        l,
                    ),
                1 <= j <= self.num_kernels,
                is_float(raised),
                shape(raised) == seq![b, cfg.channels(i as nat + 1), l],
                graph(raised) == up,
                is_float(xs),
                sound(raised) && sound(xs),
                shape(xs) == shape(raised),
                graph(xs) == stage_blocks(cfg, s, i as nat, j as nat, up, b, l),
                s.ready && cfg.fits_together() && plain(*x) && nonempty(shape(*x)) ==> plain(raised) && plain(xs)
                    && nonempty(shape(raised)),
            decreases self.num_kernels - j,
        {
            proof {
                lemma_block_index(cfg, i as nat, j as nat);
            }
            let index: usize = i * self.num_kernels + j;
            let y = self.block(index, &raised, Ghost(i as nat), Ghost(j as nat), Ghost(b), Ghost(l))?;
            xs = xs.add(&y)?;
            j += 1;
        }
        over_whole(&xs, self.num_kernels as i64)
    }

    /// The AMP block at `index`, which is block `j` of stage `i`, on `[b, channels(i + 1), l]`.
    fn block(
        &self,
        index: usize,
        x: &Tensor,
        Ghost(i): Ghost<nat>,
        Ghost(j): Ghost<nat>,
        Ghost(b): Ghost<usize>,
        Ghost(l): Ghost<usize>,
    ) -> (r: Result<Tensor, Error>)
        requires
            self.wf(),
            i < self.cfg.stages(),
            j < self.cfg.blocks(),
            index == i * self.cfg.blocks() + j,
            is_float(*x),
            shape(*x) == seq![b, self.cfg.channels(i + 1), l],
            activation_fits(b, self.cfg.channels(i + 1), l),
            amp_fits(
                self.cfg.resblock_kernel_sizes@[j as int],
                self.cfg.resblock_dilation_sizes@[j as int]@,
                l,
            ),
        ensures
            r matches Ok(y) ==> shape(y) == shape(*x) && is_float(y) && (sound(*x) ==> sound(y)) && graph(y)
                == stage_block(
                self.cfg,
                self.source@,
                i,
                j,
                graph(*x),
                b,
                l,
            ),
            self.source@.ready && self.cfg.fits_together() && plain(*x) && nonempty(shape(*x)) ==> (r matches Ok(y)
                && plain(y)),
    {
        let ghost cfg = self.cfg;
        proof {
            let m = cfg.blocks() as int;
            lemma_fundamental_div_mod_converse(i * m + j, m, i as int, j as int);
            assert(i * m + j < cfg.stages() * m) by (nonlinear_arith)
                requires
                    i + 1 <= cfg.stages(),
                    j < m,
            ;
            assert(Self::block_loaded(self.resblocks@[index as int], cfg, self.source@, i, j));
        }
        self.resblocks[index].forward(
            x,
            Ghost(block_scope(cfg, self.source@, i, j)),
            Ghost(cfg.channels(i + 1)),
            Ghost(cfg.resblock_kernel_sizes@[j as int]),
            Ghost(cfg.resblock_dilation_sizes@[j as int]@),
        )
    }
}

/// The first and the last convolution fit any signal, and keep its length.
pub(crate) proof fn lemma_end_conv(l: int)
    requires
        1 <= l,
        l + 6 <= usize::MAX,
    ensures
        conv_fits(l, 7, 3, 1, 1),
        conv_len(l, 7, 3, 1, 1) == l,
{
}

/// The index of AMP block `j` of stage `i` can be counted.
proof fn lemma_block_index(cfg: BigVganConfig, i: nat, j: nat)
    requires
        cfg.buildable(),
        i < cfg.stages(),
        j < cfg.resblock_kernel_sizes@.len(),
    ensures
        i * cfg.resblock_kernel_sizes@.len() + j <= usize::MAX,
{
    let n = cfg.resblock_kernel_sizes@.len() as int;
    assert(i * n <= cfg.upsample_rates@.len() * n) by (nonlinear_arith)
        requires
            i <= cfg.upsample_rates@.len(),
            n >= 0,
    ;
}

/// The upsampling stages multiply the length by their rates, where each kernel exceeds its rate
/// by an even number: all of them make `hop_length` samples of every frame.
pub proof fn law_length_is_frames_times_hop(cfg: BigVganConfig, t: int, n: nat)
    requires
        n <= cfg.stages(),
        forall|i: int|
            0 <= i < n ==> #[trigger] cfg.upsample_kernel_sizes@[i] >= cfg.upsample_rates@[i] && (
            cfg.upsample_kernel_sizes@[i] - cfg.upsample_rates@[i]) % 2 == 0,
    ensures
        cfg.length(t, n) == t * product_of(cfg.upsample_rates@.take(n as int)),
    decreases n,
{
    let rates = cfg.upsample_rates@;
    if n > 0 {
        law_length_is_frames_times_hop(cfg, t, (n - 1) as nat);
        let l = cfg.length(t, (n - 1) as nat);
        let p = product_of(rates.take(n - 1));
        let r = rates[n - 1] as int;
        let k = cfg.upsample_kernel_sizes@[n - 1] as int;
        assert(rates.take(n as int).drop_last() == rates.take(n - 1));
        assert((l - 1) * r == l * r - r) by (nonlinear_arith);
        assert(t * p * r == t * (p * r)) by (nonlinear_arith);
    }
}

/// The default generator takes every batch of mel spectrograms of two frames or more whose sizes
/// a machine word can count, and makes 256 samples of every frame.
pub proof fn law_default_generator(cfg: BigVganConfig, b: usize, t: usize)
    requires
        cfg.is_22khz_80band_256x(),
        t >= 2,
        b * 1536 <= usize::MAX,
        512 * t + 30 <= usize::MAX,
    ensures
        cfg.buildable(),
        cfg.fits_together(),
        cfg.fits(seq![b, 80usize, t]),
        cfg.length(t as int, cfg.stages()) == 256 * t,
        product_of(cfg.upsample_rates@) == 256,
{
    lemma_default_product(cfg);
    lemma_default_parts(cfg);
    lemma_default_buildable(cfg);
    assert(cfg.length(t as int, 0) == t);
    let rates = cfg.upsample_rates@;
    assert(rates[0] == 4 && rates[1] == 4 && rates[2] == 2 && rates[3] == 2 && rates[4] == 2 && rates[5] == 2);
    lemma_default_stage(cfg, b, t, 0, t as int);
    lemma_default_stage(cfg, b, t, 1, 4 * t);
    lemma_default_stage(cfg, b, t, 2, 16 * t);
    lemma_default_stage(cfg, b, t, 3, 32 * t);
    lemma_default_stage(cfg, b, t, 4, 64 * t);
    lemma_default_stage(cfg, b, t, 5, 128 * t);
    assert forall|i: nat| i < 6 implies #[trigger] cfg.stage_fits(b, t, i) by {
        assert(i == 0 || i == 1 || i == 2 || i == 3 || i == 4 || i == 5);
    }
}

/// The paddings and indices of the default generator can be counted.
proof fn lemma_default_buildable(cfg: BigVganConfig)
    requires
        cfg.is_22khz_80band_256x(),
    ensures
        cfg.buildable(),
{
    assert forall|j: int| 0 <= j < 3 implies amp_buildable(
        cfg.resblock_kernel_sizes@[j],
        #[trigger] cfg.resblock_dilation_sizes@[j]@,
    ) by {
        lemma_default_block(cfg.resblock_kernel_sizes@[j], cfg.resblock_dilation_sizes@[j]@, 1);
    }
}

/// The parts of the default generator fit together.
proof fn lemma_default_parts(cfg: BigVganConfig)
    requires
        cfg.is_22khz_80band_256x(),
    ensures
        cfg.fits_together(),
{
    lemma2_to64();
    assert forall|i: nat| i <= 6 implies #[trigger] cfg.channels(i) >= 1 by {
        let p = pow2(i) as int;
        assert(p == 1 || p == 2 || p == 4 || p == 8 || p == 16 || p == 32 || p == 64) by {
            assert(i == 0 || i == 1 || i == 2 || i == 3 || i == 4 || i == 5 || i == 6);
        }
        lemma_div_nonincreasing(1536, p);
        assert(1536int / p >= 1);
    }
    assert forall|j: int| 0 <= j < 3 implies amp_keeps_length(
        cfg.resblock_kernel_sizes@[j],
        #[trigger] cfg.resblock_dilation_sizes@[j]@,
    ) by {
        let kernel = cfg.resblock_kernel_sizes@[j];
        let dilations = cfg.resblock_dilation_sizes@[j]@;
        assert forall|k: int| 0 <= k < dilations.len() implies (kernel - 1) * #[trigger] dilations[k] % 2 == 0 && (
        kernel - 1) % 2 == 0 by {
            let d = dilations[k];
            assert((kernel - 1) * d % 2 == 0) by (nonlinear_arith)
                requires
                    kernel == 3 || kernel == 7 || kernel == 11,
            ;
        }
    }
}

/// A stage of the default generator on a signal of `l` samples.
proof fn lemma_default_stage(cfg: BigVganConfig, b: usize, t: usize, i: nat, l: int)
    requires
        cfg.is_22khz_80band_256x(),
        i < 6,
        l == cfg.length(t as int, i),
        2 <= l,
        2 * (l * cfg.upsample_rates@[i as int]) + 30 <= usize::MAX,
        b * 1536 <= usize::MAX,
    ensures
        cfg.length(t as int, i + 1) == l * cfg.upsample_rates@[i as int],
        cfg.stage_fits(b, t, i),
{
    let rate = cfg.upsample_rates@[i as int] as int;
    let next = l * rate;
    assert(rate == 2 || rate == 4);
    assert(cfg.upsample_kernel_sizes@[i as int] == 2 * rate);
    assert((l - 1) * rate == next - rate) by (nonlinear_arith)
        requires
            next == l * rate,
    ;
    assert(next >= 2 * rate) by (nonlinear_arith)
        requires
            next == l * rate,
            l >= 2,
            rate >= 0,
    ;
    assert(cfg.length(t as int, i + 1) == next);
    assert(cfg.channels(i + 1) <= 1536) by {
        lemma_pow2_pos(i + 1);
        lemma_div_nonincreasing(1536, pow2(i + 1) as int);
    }
    assert(b * cfg.channels(i + 1) <= b * 1536) by (nonlinear_arith)
        requires
            cfg.channels(i + 1) <= 1536,
    ;
    assert forall|j: int| 0 <= j < 3 implies amp_fits(
        cfg.resblock_kernel_sizes@[j],
        #[trigger] cfg.resblock_dilation_sizes@[j]@,
        next as usize,
    ) by {
        lemma_default_block(cfg.resblock_kernel_sizes@[j], cfg.resblock_dilation_sizes@[j]@, next as usize);
    }
}

/// The rates of the default generator.
proof fn lemma_default_product(cfg: BigVganConfig)
    requires
        cfg.is_22khz_80band_256x(),
    ensures
        product_of(cfg.upsample_rates@) == 256,
{
    assert(product_of(Seq::<usize>::empty()) == 1);
    lemma_product_push(Seq::empty(), 4);
    lemma_product_push(seq![4usize], 4);
    lemma_product_push(seq![4usize, 4], 2);
    lemma_product_push(seq![4usize, 4, 2], 2);
    lemma_product_push(seq![4usize, 4, 2, 2], 2);
    lemma_product_push(seq![4usize, 4, 2, 2, 2], 2);
    assert(Seq::<usize>::empty().push(4) == seq![4usize]);
    assert(seq![4usize].push(4) == seq![4usize, 4]);
    assert(seq![4usize, 4].push(2) == seq![4usize, 4, 2]);
    assert(seq![4usize, 4, 2].push(2) == seq![4usize, 4, 2, 2]);
    assert(seq![4usize, 4, 2, 2].push(2) == seq![4usize, 4, 2, 2, 2]);
    assert(seq![4usize, 4, 2, 2, 2].push(2) == cfg.upsample_rates@);
}

proof fn lemma_product_push(v: Seq<usize>, x: usize)
    ensures
        product_of(v.push(x)) == product_of(v) * x,
{
    assert(v.push(x).drop_last() == v);
}

/// The default AMP blocks keep every length.
proof fn lemma_default_block(kernel: usize, dilations: Seq<usize>, l: usize)
    requires
        kernel == 3 || kernel == 7 || kernel == 11,
        dilations == seq![1usize, 3, 5],
        1 <= l,
        l + 60 <= usize::MAX,
    ensures
        amp_buildable(kernel, dilations),
        amp_fits(kernel, dilations, l),
{
    assert forall|j: int| 0 <= j < dilations.len() implies (kernel - 1) * #[trigger] dilations[j] <= 50 by {
        assert((kernel - 1) * dilations[j] <= 50) by (nonlinear_arith)
            requires
                1 <= kernel <= 11,
                0 <= dilations[j] <= 5,
        ;
    }
    assert forall|j: int| 0 <= j < dilations.len() implies {
        let p = amp_padding(kernel, #[trigger] dilations[j]) as int;
        let inner = conv_len(l as int, kernel as int, p, 1, dilations[j] as int);
        &&& conv_fits(l as int, kernel as int, p, 1, dilations[j] as int)
        &&& conv_fits(inner, kernel as int, amp_padding(kernel, 1) as int, 1, 1)
    } by {
        let d = dilations[j];
        lemma_padding(kernel, d);
        lemma_padding(kernel, 1);
        assert((kernel - 1) * d % 2 == 0) by (nonlinear_arith)
            requires
                kernel == 3 || kernel == 7 || kernel == 11,
        ;
    }
}

} // verus!
