//! Laws on what the models take: inputs of every size that a machine can count.

use crate::bigvgan::{product_of, BigVgan, BigVganConfig};
use crate::campplus;
use crate::campplus::CampPlus;
use crate::fbank;
use crate::layers::{norm_of, norm_there, root, Scope};
use crate::mel;
use crate::regulator;
use crate::regulator::InterpolateRegulator;
use crate::tensor::{is_single, on_cpu, plain, shape, sound};
use crate::vocos::{Vocos, VocosConfig};
use candle_core::{Device, Tensor};
use vstd::prelude::*;

verus! {

/// The generator runs on every batch and every number of frames, where all is in main memory in single
/// precision and its parts fit together.
pub proof fn law_generator_runs_on_every_length(m: BigVgan, mel: Tensor, b: usize, t: usize)
    requires
        m.parameters().ready,
        m.config().fits_together(),
        plain(mel),
        shape(mel) == seq![b, m.config().num_mels, t],
        1 <= b,
    ensures
        m.runs(mel),
{
}

/// The speaker encoder runs on every batch of filterbanks of 73 to 80 bins, which come to ten rows when they
/// are halved three times, and on every such utterance, whatever the number of frames, where all is in main
/// memory in single precision.
pub proof fn law_encoder_runs_on_every_length(m: CampPlus, feat: Tensor, fbank: Tensor, b: usize, t: usize, f: usize)
    requires
        m.parameters().ready,
        plain(feat),
        plain(fbank),
        shape(feat) == seq![b, t, f],
        shape(fbank) == seq![t, f],
        73 <= f <= 80,
        1 <= b,
        1 <= t,
        t + 4 <= usize::MAX,
    ensures
        m.runs(feat),
        m.runs_alone(fbank),
        campplus::fits(shape(feat)),
        campplus::fits_alone(shape(fbank)),
{
}

/// The regulator runs from every length to every other, where all is in main memory in single precision.
pub proof fn law_regulator_runs_from_every_length_to_every_other(
    m: InterpolateRegulator,
    content: Tensor,
    b: usize,
    t: usize,
    n: usize,
)
    requires
        m.parameters().ready,
        plain(content),
        shape(content) == seq![b, t, 768usize],
        1 <= b,
        1 <= t,
        t - 1 <= u32::MAX,
        b * t <= usize::MAX,
        1 <= n,
        n + 2 <= usize::MAX,
    ensures
        m.runs(content),
        regulator::fits(shape(content), n),
{
}

/// The vocoder runs on every number of frames, where all is in main memory in single precision.
pub proof fn law_vocoder_runs_on_every_length(m: Vocos, mel: Tensor, t: usize)
    requires
        m.parameters().ready,
        plain(mel),
        1 <= m.settings().input_channels,
        1 <= m.settings().intermediate_dim,
        shape(mel) == seq![t, m.settings().input_channels] || shape(mel) == seq![
            1usize,
            t,
            m.settings().input_channels,
        ],
    ensures
        m.runs(mel),
{
}

/// The default generator: 80 mels, 1536 channels, six stages that raise the rate by 4, 4, 2, 2, 2 and 2 with
/// kernels twice as long, and in each three blocks of kernels 3, 7 and 11 with dilations 1, 3 and 5.
pub proof fn law_default_generator_settings(cfg: BigVganConfig)
    requires
        cfg.is_22khz_80band_256x(),
    ensures
        cfg.num_mels == 80,
        cfg.upsample_initial_channel == 1536,
        cfg.upsample_rates@ == seq![4usize, 4, 2, 2, 2, 2],
        forall|i: int|
            0 <= i < 6 ==> #[trigger] cfg.upsample_kernel_sizes@[i] == 2 * cfg.upsample_rates@[i],
        cfg.upsample_kernel_sizes@.len() == 6,
        cfg.resblock_kernel_sizes@ == seq![3usize, 7, 11],
        cfg.resblock_dilation_sizes@.len() == 3,
        forall|j: int| 0 <= j < 3 ==> #[trigger] cfg.resblock_dilation_sizes@[j]@ == seq![1usize, 3, 5],
{
    let (rates, kernels) = (cfg.upsample_rates@, cfg.upsample_kernel_sizes@);
    assert forall|i: int| 0 <= i < 6 implies #[trigger] kernels[i] == 2 * rates[i] by {
        assert(i == 0 || i == 1 || i == 2 || i == 3 || i == 4 || i == 5);
    }
}

/// The hop of a generator is the product of all its rates: none give 1, and one more multiplies.
pub proof fn law_hop_is_the_product_of_all_rates(rates: Seq<usize>, rate: usize)
    ensures
        product_of(Seq::empty()) == 1,
        product_of(rates.push(rate)) == product_of(rates) * rate,
{
    assert(rates.push(rate).drop_last() =~= rates);
}

/// Weights are ready where the device is the processor and all tensors are in main memory, however many they
/// are.
pub proof fn law_tensors_in_main_memory_are_ready(tensors: Seq<(String, Tensor)>, device: Device)
    requires
        crate::layers::is_cpu(device),
        forall|i: int| 0 <= i < tensors.len() ==> on_cpu((#[trigger] tensors[i]).1),
    ensures
        root(tensors, device).ready,
{
}

/// A tensor can be computed with where it is in main memory in single precision, and is sound where it has
/// elements.
pub proof fn law_tensors_to_compute_with(t: Tensor)
    ensures
        plain(t) <==> on_cpu(t) && is_single(t),
        (forall|i: int| 0 <= i < shape(t).len() ==> #[trigger] shape(t)[i] >= 1) ==> sound(t),
{
}

/// A layer normalisation has the parameters `weight` and `bias`, or where these are not there `gamma` and
/// `beta`.
pub proof fn law_names_of_normalisations(s: Scope, size: usize)
    ensures
        s.has("weight"@) || !s.has("gamma"@) ==> *norm_of(s, size).weight == s.parameter("weight"@),
        !s.has("weight"@) && s.has("gamma"@) ==> *norm_of(s, size).weight == s.parameter("gamma"@),
        s.has("bias"@) || !s.has("beta"@) ==> *norm_of(s, size).bias == s.parameter("bias"@),
        !s.has("bias"@) && s.has("beta"@) ==> *norm_of(s, size).bias == s.parameter("beta"@),
        s.holds("weight"@, seq![size]) && s.holds("bias"@, seq![size]) ==> norm_there(s, size),
        !s.has("weight"@) && !s.has("bias"@) && s.holds("gamma"@, seq![size]) && s.holds("beta"@, seq![size])
            ==> norm_there(s, size),
{
}

/// Frames of the filterbanks are 25 milliseconds long and start every 10; those of the mel spectrograms are
/// continued by half of what they exceed a hop by; spectra hold half of the bins and one more.
pub proof fn law_frames_and_rates()
    ensures
        campplus::SR == 16_000,
        campplus::NUM_MEL_BINS == 80,
        1000 * fbank::FRAME_LENGTH == 25 * campplus::SR,
        1000 * fbank::FRAME_SHIFT == 10 * campplus::SR,
        fbank::PADDED_WINDOW_SIZE == 512,
        fbank::SPECTRUM_BINS == fbank::PADDED_WINDOW_SIZE / 2 + 1,
        mel::SR == 22_050,
        mel::N_MELS == 80,
        mel::N_FFT == 1024,
        mel::HOP == 256,
        2 * mel::PAD == mel::N_FFT - mel::HOP,
        mel::N_BINS == mel::N_FFT / 2 + 1,
{
}

/// The default Vocos: 128 mels, 30 blocks of 1024 channels, four times as many inside, and at 24 kHz frames of
/// 1920 samples every 480.
pub proof fn law_default_vocoder_settings(cfg: VocosConfig)
    requires
        cfg.is_24khz_128band(),
    ensures
        cfg.input_channels == 128,
        cfg.num_layers == 30,
        cfg.dim == 1024,
        cfg.intermediate_dim == 4 * cfg.dim,
        cfg.sample_rate == 24_000,
        50 * cfg.hop_size == cfg.sample_rate,
        cfg.n_fft == 4 * cfg.hop_size,
{
}

} // verus!
