//! Laws on calls: what every call of a function of the library takes and gives.

use crate::bigvgan::{generator_there, is_waveform, BigVgan, BigVganConfig};
use crate::campplus;
use crate::campplus::{are_embeddings, encoder_there, is_embedding, seg_pooling, segment_means, CampPlus};
use crate::checkpoint::{
    direction_name, fold_weight_norm, folds, is_fold_error, is_weight_norm_fold, lacks_a_direction, magnitude_name,
    pairs_fold, row_shape, CheckpointError, StateDict,
};
use crate::commands::law_white_space_around_a_yes_does_not_matter;
use crate::error::VcError;
use crate::fbank::{are_fbanks, FbankExtractor};
use crate::fetch::{
    accepts, are_generator_tensors, engine_of, is_convertible, is_part, lacks_tensors, outcome, parse_args, parsed,
    seedvc_plan, take_part, ArgError, Command, Download, Engine, Format, Part,
};
use crate::framing::{continued, law_padding_goes_on_as_the_mirror_image};
use crate::graph::{ConvLayer, Graph};
use crate::inverse::{adds_up, law_overlap_takes_all_frames_that_reach, law_sum_adds_all_terms_in_order};
use crate::layers::{are_ready, root, Weights};
use crate::mel::{are_mels, MelExtractor};
use crate::naming::{law_decimal_is_read_back, number};
use crate::nearness::law_source_index_is_the_scaled_index;
use crate::regulator;
use crate::regulator::{is_regulated, regulator_there, InterpolateRegulator};
use crate::signal::{is_sum, overlap_add, overlapping, reflect_pad, sum, zip};
use crate::single::{source_index, source_indices};
use crate::tensor::{broadcast_shape, graph, plain, shape, sound};
use crate::text::{is_white_space, to_decimal};
use crate::vocos::{
    is_istft, is_rejected, is_spectrum_result, is_synthesis, istft, network_there, never_fails, passes, Step, Vocos,
    VocosConfig,
};
use candle_core::{Device, Error, Tensor};
use vstd::prelude::*;

verus! {

/// Every call of the generator that succeeds gives the waveform, every call that fails does so in candle,
/// and none fails where all is in main memory in single precision. The first convolution alone is that of
/// the generator.
pub proof fn law_calls_of_the_generator(
    m: &BigVgan,
    mel: &Tensor,
    r: Result<Tensor, VcError>,
    q: Option<Result<Tensor, VcError>>,
    p: Result<Tensor, VcError>,
)
    requires
        call_ensures(BigVgan::forward, (m, mel), r),
        call_ensures(BigVgan::checked_forward, (m, mel), q),
        call_ensures(BigVgan::conv_pre, (m, mel), p),
    ensures
        r matches Ok(y) ==> is_waveform(m.config(), m.parameters(), *mel, y),
        r matches Err(e) ==> e is Backend,
        m.runs(*mel) ==> r is Ok,
        q is None <==> !m.config().fits(shape(*mel)) || shape(*mel).len() == 3 && !sound(*mel),
        q matches Some(Ok(y)) ==> is_waveform(m.config(), m.parameters(), *mel, y),
        q matches Some(s) ==> m.runs(*mel) ==> s is Ok,
        m.runs(*mel) ==> p is Ok,
        p matches Ok(y) ==> {
            let (cfg, s) = (m.config(), m.parameters());
            &&& shape(y) == seq![shape(*mel)[0], cfg.upsample_initial_channel, shape(*mel)[2]]
            &&& graph(y) == Graph::Conv1d(
                Box::new(graph(*mel)),
                (ConvLayer {
                    weight: Box::new(s.at("conv_pre"@).parameter("weight"@)),
                    bias: Some(Box::new(s.at("conv_pre"@).parameter("bias"@))),
                    in_channels: cfg.num_mels,
                    out_channels: cfg.upsample_initial_channel,
                    kernel: 7,
                    padding: 3,
                    stride: 1,
                    dilation: 1,
                }),
            )
        },
{
}

/// The generator can be called on every mel spectrogram that fits.
pub proof fn law_generator_can_be_called(m: &BigVgan, mel: &Tensor)
    requires
        sound(*mel),
        m.config().fits(shape(*mel)),
    ensures
        call_requires(BigVgan::forward, (m, mel)),
        call_requires(BigVgan::conv_pre, (m, mel)),
        call_requires(BigVgan::checked_forward, (m, mel)),
{
}

/// Every call of the speaker encoder that succeeds gives the embeddings, and none fails where all is in main
/// memory in single precision.
pub proof fn law_calls_of_the_encoder(
    m: &CampPlus,
    feat: &Tensor,
    r: Result<Tensor, VcError>,
    q: Option<Result<Tensor, VcError>>,
    e: Result<Tensor, VcError>,
    f: Option<Result<Tensor, VcError>>,
)
    requires
        call_ensures(CampPlus::forward, (m, feat), r),
        call_ensures(CampPlus::checked_forward, (m, feat), q),
        call_ensures(CampPlus::embed, (m, feat), e),
        call_ensures(CampPlus::checked_embed, (m, feat), f),
    ensures
        r matches Ok(y) ==> are_embeddings(m.parameters(), *feat, y),
        m.runs(*feat) ==> r is Ok,
        q is Some <==> campplus::fits(shape(*feat)),
        q matches Some(Ok(y)) ==> are_embeddings(m.parameters(), *feat, y),
        q matches Some(s) ==> m.runs(*feat) ==> s is Ok,
        e matches Ok(y) ==> is_embedding(m.parameters(), *feat, y),
        m.runs_alone(*feat) ==> e is Ok,
        f matches Some(Ok(y)) ==> is_embedding(m.parameters(), *feat, y),
        f matches Some(s) ==> m.runs_alone(*feat) ==> s is Ok,
{
}

/// Every call of pooling by segments that succeeds gives the means over segments of the length that was
/// asked for.
pub proof fn law_calls_of_pooling(x: &Tensor, seg_len: usize, r: Result<Tensor, Error>)
    requires
        call_ensures(seg_pooling, (x, seg_len), r),
    ensures
        plain(*x) && shape(*x).len() == 3 && shape(*x)[2] > 0 ==> r is Ok,
        r matches Ok(y) ==> {
            let (b, c, t) = (shape(*x)[0], shape(*x)[1], shape(*x)[2]);
            shape(y) == shape(*x) && graph(y) == segment_means(graph(*x), b, c, t as nat, seg_len as nat)
        },
{
}

/// Every call of the regulator that succeeds gives the conditioning features of the length that was asked
/// for, and none fails where all is in main memory in single precision.
pub proof fn law_calls_of_the_regulator(
    m: &InterpolateRegulator,
    content: &Tensor,
    n: usize,
    r: Result<Tensor, VcError>,
    q: Option<Result<Tensor, VcError>>,
)
    requires
        call_ensures(InterpolateRegulator::forward, (m, content, n), r),
        call_ensures(InterpolateRegulator::checked_forward, (m, content, n), q),
    ensures
        r matches Ok(y) ==> is_regulated(m.parameters(), *content, n, y),
        m.runs(*content) ==> r is Ok,
        q is Some <==> regulator::fits(shape(*content), n),
        q matches Some(Ok(y)) ==> is_regulated(m.parameters(), *content, n, y),
        q matches Some(s) ==> m.runs(*content) ==> s is Ok,
{
}

/// Models that are loaded are loaded from the weights that were given, and are where these hold all
/// parameters.
pub proof fn law_calls_that_load(
    w: &Weights,
    r: Result<CampPlus, VcError>,
    q: Result<InterpolateRegulator, VcError>,
)
    requires
        call_ensures(CampPlus::load, (w,), r),
        call_ensures(InterpolateRegulator::load, (w,), q),
    ensures
        r matches Ok(m) ==> m.parameters() == w.scope() && encoder_there(w.scope()),
        w.scope().ready && encoder_there(w.scope()) ==> r is Ok,
        q matches Ok(m) ==> m.parameters() == w.scope() && regulator_there(w.scope()),
        w.scope().ready && regulator_there(w.scope()) ==> q is Ok,
{
}

/// Every call of Vocos refuses other shapes, gives the spectrum of its mel spectrogram where it succeeds,
/// and does not fail where all is in main memory in single precision and no observer does. It succeeds only
/// where the observer lets the end of every block pass, and those of the other parts.
pub proof fn law_calls_of_the_vocoder<F: Fn(Step) -> Result<(), Error>>(
    m: &Vocos,
    mel: &Tensor,
    observe: &F,
    r: Result<(Tensor, Tensor), VcError>,
)
    requires
        call_ensures(Vocos::spectrum::<F>, (m, mel, observe), r),
    ensures
        is_spectrum_result(m.settings(), m.parameters(), *mel, r),
        m.runs(*mel) && never_fails(*observe) ==> r is Ok,
        r is Ok ==> {
            &&& call_ensures(*observe, (Step::EmbedNorm,), Ok::<(), Error>(()))
            &&& call_ensures(*observe, (Step::FinalNorm,), Ok::<(), Error>(()))
            &&& call_ensures(*observe, (Step::Head,), Ok::<(), Error>(()))
            &&& forall|i: usize|
                i < m.settings().num_layers ==> #[trigger] call_ensures(
                    *observe,
                    (Step::Block(i),),
                    Ok::<(), Error>(()),
                )
        },
{
    if r is Ok {
        assert forall|i: usize| i < m.settings().num_layers implies #[trigger] call_ensures(
            *observe,
            (Step::Block(i),),
            Ok::<(), Error>(()),
        ) by {
            assert(passes(*observe, Step::Block(i)));
        }
    }
}

/// Every call of Vocos that makes a waveform refuses other shapes, and gives the inverse transform of the
/// spectrum where it succeeds.
pub proof fn law_calls_that_make_a_waveform<
    S: Copy,
    F: Fn(Step) -> Result<(), Error>,
    R: Fn(Tensor) -> Result<Vec<Vec<S>>, Error>,
    N: Fn(S) -> S,
    I: Fn(Vec<(S, S)>) -> Vec<S>,
    A: Fn(S, S) -> S,
    M: Fn(S, S) -> S,
    D: Fn(S, S) -> S,
>(
    m: &Vocos,
    mel: &Tensor,
    observe: &F,
    read: &R,
    negate: &N,
    invert: &I,
    plus: &A,
    times: &M,
    scale: &D,
    zero: S,
    window: &Vec<S>,
    r: Result<Vec<S>, VcError>,
)
    requires
        call_ensures(
            Vocos::synthesize::<S, F, R, N, I, A, M, D>,
            (m, mel, observe, read, negate, invert, plus, times, scale, zero, window),
            r,
        ),
    ensures
        is_rejected(m.settings(), shape(*mel), r),
        r matches Ok(out) ==> is_synthesis(
            m.settings(),
            m.parameters(),
            *mel,
            *read,
            *negate,
            *invert,
            *plus,
            *times,
            *scale,
            zero,
            window@,
            out@,
        ),
        m.runs(*mel) && never_fails(*observe) && (forall|x: Tensor, v: Result<Vec<Vec<S>>, Error>| #[trigger]
            call_ensures(*read, (x,), v) ==> v is Ok) ==> r is Ok,
{
}

/// Every call of the inverse transform gives `hop` samples for every frame, made of all frames.
pub proof fn law_calls_of_the_inverse_transform<
    S: Copy,
    N: Fn(S) -> S,
    I: Fn(Vec<(S, S)>) -> Vec<S>,
    A: Fn(S, S) -> S,
    M: Fn(S, S) -> S,
    D: Fn(S, S) -> S,
>(
    negate: &N,
    invert: &I,
    plus: &A,
    times: &M,
    scale: &D,
    zero: S,
    window: &Vec<S>,
    hop: usize,
    re: &Vec<Vec<S>>,
    im: &Vec<Vec<S>>,
    out: Vec<S>,
)
    requires
        call_ensures(
            istft::<S, N, I, A, M, D>,
            (negate, invert, plus, times, scale, zero, window, hop, re, im),
            out,
        ),
    ensures
        out@.len() == re@.len() * hop,
        is_istft(*negate, *invert, *plus, *times, *scale, zero, window@, hop, re@, im@, out@),
{
}

/// Every call of the mel extractor gives the mel spectrogram of its samples, with its own filters and
/// window.
pub proof fn law_calls_of_the_mel_extractor<
    S: Copy,
    R: Copy,
    A: Fn(S, S) -> S,
    M: Fn(S, S) -> S,
    P: Fn(Vec<S>) -> Vec<S>,
    L: Fn(S) -> R,
>(
    x: &MelExtractor<S>,
    plus: &A,
    times: &M,
    magnitude: &P,
    log: &L,
    zero: S,
    samples: &Vec<S>,
    rows: Vec<Vec<R>>,
)
    requires
        call_ensures(
            MelExtractor::<S>::extract::<R, A, M, P, L>,
            (x, plus, times, magnitude, log, zero, samples),
            rows,
        ),
    ensures
        are_mels(*plus, *times, *magnitude, *log, zero, x.filters(), x.weights(), samples@, rows@),
        x.weights().len() == 1024,
{
}

/// Every call of the filterbank extractor gives the filterbanks of its samples, with its own filters and
/// window.
pub proof fn law_calls_of_the_filterbank_extractor<
    S: Copy,
    R,
    A: Fn(S, S) -> S,
    B: Fn(S, S) -> S,
    M: Fn(S, S) -> S,
    V: Fn(S) -> S,
    E: Fn(S, S) -> S,
    P: Fn(Vec<S>) -> Vec<S>,
    L: Fn(S) -> R,
>(
    x: &FbankExtractor<S>,
    plus: &A,
    minus: &B,
    times: &M,
    average: &V,
    emphasise: &E,
    power: &P,
    log: &L,
    zero: S,
    samples: &Vec<S>,
    rows: Vec<Vec<R>>,
)
    requires
        call_ensures(
            FbankExtractor::<S>::extract::<R, A, B, M, V, E, P, L>,
            (x, plus, minus, times, average, emphasise, power, log, zero, samples),
            rows,
        ),
    ensures
        are_fbanks(
            *plus,
            *minus,
            *times,
            *average,
            *emphasise,
            *power,
            *log,
            zero,
            x.filters(),
            x.weights(),
            samples@,
            rows@,
        ),
        x.weights().len() == 400,
{
}

/// Every call that parses a command line gives what the line comes to.
pub proof fn law_calls_that_parse(args: &Vec<String>, r: Result<Command, ArgError>)
    requires
        call_ensures(parse_args, (args,), r),
    ensures
        outcome(r) == parsed(args@, 0, None, None, false),
{
}

/// Every call that takes a part of a checkpoint gives that part where it succeeds, finds no tensors exactly
/// where there are none, and does not fail otherwise where they are in main memory and nothing is folded.
pub proof fn law_calls_that_take_a_part(
    part: Part,
    all: &Vec<(String, Tensor)>,
    r: Result<StateDict, CheckpointError>,
)
    requires
        call_ensures(take_part, (part, all), r),
    ensures
        r matches Ok(d) ==> is_part(part, all@, d@),
        lacks_tensors(part, all@) <==> (r matches Err(e) && e is NoTensors),
        part !is Generator && is_convertible(part, all@) && !lacks_tensors(part, all@) ==> r is Ok,
{
}

/// Every call that folds gives the folded weights where it succeeds, and where shapes meet in main memory in
/// single precision it fails only for want of a direction.
pub proof fn law_calls_that_fold(sd: StateDict, r: Result<StateDict, CheckpointError>)
    requires
        call_ensures(fold_weight_norm, (sd,), r),
    ensures
        r matches Ok(out) ==> is_weight_norm_fold(sd@, out@),
        r matches Err(e) ==> is_fold_error(sd@, e),
        pairs_fold(sd@) ==> (r is Err <==> lacks_a_direction(sd@)),
{
}

/// Vocoders that are built have the settings and the weights that were given, and are built where these hold
/// all parameters.
pub proof fn law_calls_that_build(
    cfg: BigVganConfig,
    w: &Weights,
    r: Result<BigVgan, VcError>,
    other: VocosConfig,
    q: Result<Vocos, VcError>,
)
    requires
        call_ensures(BigVgan::new, (cfg, w), r),
        call_ensures(Vocos::new, (other, w), q),
    ensures
        r matches Ok(m) ==> m.config() == cfg && m.parameters() == w.scope() && generator_there(cfg, w.scope()),
        w.scope().ready && generator_there(cfg, w.scope()) ==> r is Ok,
        q matches Ok(m) ==> m.settings() == other && m.parameters() == w.scope() && network_there(other, w.scope()),
        w.scope().ready && network_there(other, w.scope()) ==> q is Ok,
{
}

/// Vocoders that are loaded from tensors have these for parameters; the generator has the default settings.
pub proof fn law_calls_that_load_tensors(
    tensors: Vec<(String, Tensor)>,
    device: &Device,
    r: Result<BigVgan, VcError>,
    cfg: VocosConfig,
    q: Result<Vocos, VcError>,
)
    requires
        call_ensures(BigVgan::load, (tensors, device), r),
        call_ensures(Vocos::load, (cfg, tensors, device), q),
    ensures
        r matches Ok(m) ==> m.config().is_22khz_80band_256x() && m.parameters() == root(tensors@, *device),
        are_ready(tensors@, *device) && (forall|c: BigVganConfig| #[trigger]
            c.is_22khz_80band_256x() ==> generator_there(c, root(tensors@, *device))) ==> r is Ok,
        q matches Ok(m) ==> m.settings() == cfg && m.parameters() == root(tensors@, *device),
        are_ready(tensors@, *device) && network_there(cfg, root(tensors@, *device)) ==> q is Ok,
{
}

/// Every call that stretches gives for every output frame a source frame: the whole part of its number times
/// the ratio of the lengths, but for what single precision makes of that, less than one part in 2^21.
pub proof fn law_calls_that_stretch(t: usize, n: usize, idx: Vec<u32>, i: int)
    requires
        call_ensures(source_indices, (t, n), idx),
        1 <= t,
        t - 1 <= u32::MAX,
        0 <= i < n,
    ensures
        idx@.len() == n,
        idx@[i] < t,
        0x20_0000 * (idx@[i] * n) <= 0x20_0001 * (i * t),
        0x20_0000 * ((idx@[i] + 1) * n) > 0x1f_ffff * (i * t),
{
    law_source_index_is_the_scaled_index(i as nat, t as nat, n as nat);
    assert(idx@[i] == source_index(i as nat, t as nat, n as nat));
}

/// Every call that pads a signal goes on beyond its ends as the mirror image does.
pub proof fn law_calls_that_pad<S: Copy>(samples: &Vec<S>, pad: usize, r: Vec<S>, j: int)
    requires
        call_ensures(reflect_pad::<S>, (samples, pad), r),
        samples@.len() > 0,
        0 <= j < samples@.len() + 2 * pad,
    ensures
        r@.len() == samples@.len() + 2 * pad,
        r@[j] == continued(samples@, j - pad),
{
    law_padding_goes_on_as_the_mirror_image(samples@, pad as nat, j);
}

/// Every call that adds overlapping frames gives for every sample the sum of what all frames that reach it
/// hold there, from the first to the last.
pub proof fn law_calls_that_add_frames<S: Copy, A: Fn(S, S) -> S>(
    plus: &A,
    zero: S,
    frames: &Vec<Vec<S>>,
    size: usize,
    hop: usize,
    y: Vec<S>,
    p: int,
    lo: int,
    hi: int,
)
    requires
        call_ensures(overlap_add::<S, A>, (plus, zero, frames, size, hop), y),
        forall|f: int| 0 <= f < frames@.len() ==> (#[trigger] frames@[f])@.len() == size,
        0 <= p < (frames@.len() - 1) * hop + size,
        0 <= lo <= hi <= frames@.len(),
        forall|f: int| 0 <= f < frames@.len() ==> (lo <= f < hi <==> 0 <= p - #[trigger] (f * hop) < size),
    ensures
        y@.len() == (frames@.len() - 1) * hop + size,
        adds_up(
            *plus,
            zero,
            Seq::new((hi - lo) as nat, |k: int| frames@[lo + k]@[p - (lo + k) * hop]),
            y@[p],
        ),
{
    law_overlap_takes_all_frames_that_reach(frames@, size as nat, hop as nat, p, lo, hi);
    let terms = Seq::new((hi - lo) as nat, |k: int| frames@[lo + k]@[p - (lo + k) * hop]);
    assert(overlapping(frames@, hop as nat, p, frames@.len()) =~= terms);
    assert(is_sum(*plus, zero, terms, y@[p]));
    law_sum_adds_all_terms_in_order(*plus, zero, terms, y@[p]);
}

/// Every call that adds gives the sum of all terms, from the first to the last, and every call that
/// multiplies item by item gives all products.
pub proof fn law_calls_that_add_and_multiply<S: Copy, A: Fn(S, S) -> S, M: Fn(S, S) -> S>(
    plus: &A,
    zero: S,
    terms: &Vec<S>,
    total: S,
    times: &M,
    a: &Vec<S>,
    b: &Vec<S>,
    c: Vec<S>,
)
    requires
        call_ensures(sum::<S, A>, (plus, zero, terms), total),
        call_ensures(zip::<S, M>, (times, a, b), c),
    ensures
        adds_up(*plus, zero, terms@, total),
        c@.len() == a@.len(),
        forall|i: int| 0 <= i < a@.len() ==> call_ensures(*times, (a@[i], b@[i]), #[trigger] c@[i]),
{
    law_sum_adds_all_terms_in_order(*plus, zero, terms@, total);
}

/// Every call that writes a number down gives digits that are read back as the number.
pub proof fn law_calls_that_write_numbers(n: usize, r: String)
    requires
        call_ensures(to_decimal, (n,), r),
    ensures
        number(r@) == n,
        r@.len() >= 1,
        n > 0 ==> r@[0] != '0',
{
    law_decimal_is_read_back(n as nat);
}

/// Every call that asks whether an answer is a yes finds `y`, `Y` or `yes` between white space, and nothing
/// else.
pub proof fn law_calls_that_take_an_answer(
    line: &str,
    r: bool,
    front: Seq<char>,
    answer: Seq<char>,
    back: Seq<char>,
)
    requires
        call_ensures(accepts, (line,), r),
        line@ == front + answer + back,
        forall|i: int| 0 <= i < front.len() ==> is_white_space(#[trigger] front[i]),
        forall|i: int| 0 <= i < back.len() ==> is_white_space(#[trigger] back[i]),
        answer.len() > 0 ==> !is_white_space(answer[0]) && !is_white_space(answer.last()),
    ensures
        r == (answer == seq!['y'] || answer == seq!['Y'] || answer == seq!['y', 'e', 's']),
{
    law_white_space_around_a_yes_does_not_matter(line@, front, answer, back);
}

/// Pairs fold where all magnitudes and directions are in main memory in single precision and a magnitude
/// holds one number for every row of its direction.
pub proof fn law_pairs_with_a_number_per_row_fold(sd: Map<Seq<char>, Tensor>)
    requires
        forall|base: Seq<char>|
            sd.contains_key(#[trigger] magnitude_name(base)) ==> {
                let (v, g) = (sd[base + "weight_v"@], sd[base + "weight_g"@]);
                &&& sd.contains_key(base + "weight_v"@)
                &&& plain(v) && plain(g)
                &&& shape(v).len() >= 1
                &&& shape(g) == Seq::new(shape(v).len(), |i: int| if i == 0 { shape(v)[0] } else { 1 })
            },
    ensures
        pairs_fold(sd),
        !lacks_a_direction(sd),
{
    assert forall|base: Seq<char>|
        sd.contains_key(#[trigger] magnitude_name(base)) && sd.contains_key(direction_name(base)) implies folds(
        sd[direction_name(base)],
        sd[magnitude_name(base)],
    ) by {
        let (v, g) = (sd[direction_name(base)], sd[magnitude_name(base)]);
        let (dims, rows) = (shape(v), row_shape(shape(v)));
        assert(shape(g) =~= rows);
        assert(broadcast_shape(rows, rows) =~= rows);
        assert(broadcast_shape(dims, rows) =~= dims);
    }
}

/// Parts can be taken where all tensors begin within their storage and have no more than eight axes.
pub proof fn law_sound_tensors_can_be_taken(part: Part, all: &Vec<(String, Tensor)>)
    requires
        forall|i: int| 0 <= i < all@.len() ==> sound((#[trigger] all@[i]).1) && shape(all@[i].1).len() <= 8,
    ensures
        call_requires(take_part, (part, all)),
{
}

/// The name `seedvc` names the engine there is a plan for, every other name is unknown, and none is missing.
pub proof fn law_calls_that_name_an_engine(name: Option<String>, r: Engine)
    requires
        call_ensures(engine_of, (name,), r),
    ensures
        r is Missing <==> name is None,
        r is SeedVc <==> (name matches Some(n) && n@ == "seedvc"@),
        r matches Engine::Unknown(n) ==> name == Some(n),
{
}

/// Every call that plans names four published files and what is made of each: of the first the diffusion
/// model and the regulator, of the others the speaker encoder, the vocoder, and the encoder of Whisper.
pub proof fn law_calls_that_plan(plan: Vec<Download>)
    requires
        call_ensures(seedvc_plan, (), plan),
    ensures
        plan@.len() == 4,
        plan@[0].repo@ == "Plachta/Seed-VC"@,
        plan@[0].file@ == "DiT_seed_v2_uvit_whisper_small_wavenet_bigvgan_pruned.pth"@,
        plan@[0].format == Format::Pickle,
        plan@[0].outputs@.len() == 2,
        plan@[0].outputs@[0].part == Part::Under("net.cfm."),
        plan@[0].outputs@[1].part == Part::Under("net.length_regulator."),
        plan@[1].repo@ == "funasr/campplus"@,
        plan@[1].file@ == "campplus_cn_common.bin"@,
        plan@[1].format == Format::Pickle,
        plan@[1].outputs@.len() == 1,
        plan@[1].outputs@[0].part is All,
        plan@[2].repo@ == "nvidia/bigvgan_v2_22khz_80band_256x"@,
        plan@[2].file@ == "bigvgan_generator.pt"@,
        plan@[2].format == Format::Pickle,
        plan@[2].outputs@.len() == 1,
        plan@[2].outputs@[0].part is Generator,
        plan@[3].repo@ == "openai/whisper-small"@,
        plan@[3].file@ == "model.safetensors"@,
        plan@[3].format == Format::Safetensors,
        plan@[3].outputs@.len() == 1,
        plan@[3].outputs@[0].part == Part::Subset("model.encoder."),
{
}

/// The vocoder is taken where its tensors are in main memory and all their weight norms fold.
pub proof fn law_calls_that_take_the_vocoder(all: &Vec<(String, Tensor)>, r: Result<StateDict, CheckpointError>)
    requires
        call_ensures(take_part, (Part::Generator, all), r),
        is_convertible(Part::Generator, all@),
        !lacks_tensors(Part::Generator, all@),
        forall|given: Map<Seq<char>, Tensor>| #[trigger]
            are_generator_tensors(all@, given) ==> pairs_fold(given) && !lacks_a_direction(given),
    ensures
        r is Ok,
{
    if r is Err {
        let e = r->Err_0;
        let given = choose|given: Map<Seq<char>, Tensor>| #[trigger]
            are_generator_tensors(all@, given) && is_fold_error(given, e);
        assert(pairs_fold(given) && !lacks_a_direction(given));
    }
}

} // verus!
