//! Laws on the inverse short-time transform and on what Vocos takes: every sample, and every refusal.

use crate::error::VcError;
use crate::layers::Scope;
use crate::signal::{is_overlap_add, is_running_sum, is_sum, is_zip, overlapping};
use crate::tensor::shape;
use crate::text::decimal;
use crate::vocos::{
    are_frames, are_squares, fits_alone, fits_whole, is_frame, is_full_spectrum, is_istft, is_rejected, is_spectrum,
    is_spectrum_result, is_synthesis, is_trimmed, same_padding, VocosConfig,
};
use candle_core::{Error, Tensor};
use vstd::prelude::*;

verus! {

/// The first `m` of some frames hold for a sample what those of them that reach it do.
proof fn lemma_overlap<S>(frames: Seq<Vec<S>>, size: nat, hop: nat, p: int, lo: int, hi: int, m: nat)
    requires
        forall|f: int| 0 <= f < frames.len() ==> (#[trigger] frames[f])@.len() == size,
        m <= frames.len(),
        0 <= lo <= hi <= frames.len(),
        forall|f: int| 0 <= f < frames.len() ==> (lo <= f < hi <==> 0 <= p - #[trigger] (f * hop) < size),
    ensures
        ({
            let end = if m < lo { lo } else if (m as int) < hi { m as int } else { hi };
            overlapping(frames, hop, p, m) == Seq::new((end - lo) as nat, |k: int| frames[lo + k]@[p - (lo + k) * hop])
        }),
    decreases m,
{
    let end = if m < lo { lo } else if (m as int) < hi { m as int } else { hi };
    let all = Seq::new((end - lo) as nat, |k: int| frames[lo + k]@[p - (lo + k) * hop]);
    if m == 0 {
        assert(overlapping(frames, hop, p, m) =~= all);
    } else {
        let l = (m - 1) as nat;
        lemma_overlap(frames, size, hop, p, lo, hi, l);
        let before = overlapping(frames, hop, p, l);
        let i = p - l * hop;
        assert(lo <= l < hi <==> 0 <= p - (l as int) * hop < size);
        assert(frames[l as int]@.len() == size);
        assert(overlapping(frames, hop, p, m) =~= all);
    }
}

/// The overlap-add takes for every sample all frames that reach it, from the first to the last, and of
/// each the sample that stands there.
pub proof fn law_overlap_takes_all_frames_that_reach<S>(
    frames: Seq<Vec<S>>,
    size: nat,
    hop: nat,
    p: int,
    lo: int,
    hi: int,
)
    requires
        forall|f: int| 0 <= f < frames.len() ==> (#[trigger] frames[f])@.len() == size,
        0 <= lo <= hi <= frames.len(),
        forall|f: int| 0 <= f < frames.len() ==> (lo <= f < hi <==> 0 <= p - #[trigger] (f * hop) < size),
    ensures
        overlapping(frames, hop, p, frames.len()) == Seq::new(
            (hi - lo) as nat,
            |k: int| frames[lo + k]@[p - (lo + k) * hop],
        ),
{
    lemma_overlap(frames, size, hop, p, lo, hi, frames.len());
}

/// Whether `frame` can be what `invert` gives on a spectrum whose first half is `re` and `im` and whose
/// other half is the conjugate of it, item by item times the window.
pub open spec fn inverts<S, N: Fn(S) -> S, I: Fn(Vec<(S, S)>) -> Vec<S>, M: Fn(S, S) -> S>(
    negate: N,
    invert: I,
    times: M,
    window: Seq<S>,
    re: Seq<S>,
    im: Seq<S>,
    frame: Seq<S>,
) -> bool {
    let n = window.len() as int;
    exists|bins: Vec<(S, S)>, samples: Vec<S>|
        {
            &&& bins@.len() == n
            &&& forall|b: int|
                0 <= b < n ==> if b <= n / 2 {
                    #[trigger] bins@[b] == (re[b], im[b])
                } else {
                    bins@[b].0 == re[n - b] && call_ensures(negate, (im[n - b],), bins@[b].1)
                }
            &&& #[trigger] call_ensures(invert, (bins,), samples)
            &&& samples@.len() == n
            &&& frame.len() == n
            &&& forall|i: int| 0 <= i < n ==> call_ensures(times, (samples@[i], window[i]), #[trigger] frame[i])
        }
}

/// Whether `total` can be what comes of `zero` when `terms` are added to it from the first to the last.
pub open spec fn adds_up<S, A: Fn(S, S) -> S>(plus: A, zero: S, terms: Seq<S>, total: S) -> bool {
    exists|parts: Seq<S>|
        {
            &&& #[trigger] parts.len() == terms.len() + 1
            &&& parts[0] == zero
            &&& forall|k: int|
                0 <= k < terms.len() ==> call_ensures(plus, (parts[k], #[trigger] terms[k]), parts[k + 1])
            &&& parts[terms.len() as int] == total
        }
}

/// A sum adds its terms from the first to the last.
pub proof fn law_sum_adds_all_terms_in_order<S, A: Fn(S, S) -> S>(plus: A, zero: S, terms: Seq<S>, total: S)
    requires
        is_sum(plus, zero, terms, total),
    ensures
        adds_up(plus, zero, terms, total),
{
    let parts = choose|parts: Seq<S>| #[trigger]
        is_running_sum(plus, zero, terms, parts) && parts.last() == total;
    assert(parts.len() == terms.len() + 1);
}

/// Every sample of the inverse transform comes from all frames that reach it. Sample `q` stands
/// `(n_fft - hop) / 2` samples after the start of the first frame; `lo .. hi` are the frames that reach it.
/// It is the sum of what these hold there, scaled by the sum of the squares of the window there.
pub proof fn law_sample_comes_from_all_frames_that_reach<
    S,
    N: Fn(S) -> S,
    I: Fn(Vec<(S, S)>) -> Vec<S>,
    A: Fn(S, S) -> S,
    M: Fn(S, S) -> S,
    D: Fn(S, S) -> S,
>(
    negate: N,
    invert: I,
    plus: A,
    times: M,
    scale: D,
    zero: S,
    window: Seq<S>,
    hop: usize,
    re: Seq<Vec<S>>,
    im: Seq<Vec<S>>,
    out: Seq<S>,
    q: int,
    lo: int,
    hi: int,
)
    requires
        is_istft(negate, invert, plus, times, scale, zero, window, hop, re, im, out),
        1 <= re.len(),
        hop <= window.len() <= usize::MAX,
        0 <= q < out.len(),
        0 <= lo <= hi <= re.len(),
        forall|f: int|
            0 <= f < re.len() ==> (lo <= f < hi <==> 0 <= (window.len() - hop) / 2 + q - #[trigger] (f * hop)
                < window.len()),
    ensures
        out.len() == re.len() * hop,
        exists|frames: Seq<Vec<S>>, squares: Seq<Vec<S>>, y: S, w: S|
            {
                let p = (window.len() - hop) / 2 + q;
                &&& #[trigger] frames.len() == re.len()
                &&& forall|f: int|
                    0 <= f < re.len() ==> inverts(
                        negate,
                        invert,
                        times,
                        window,
                        re[f]@,
                        im[f]@,
                        (#[trigger] frames[f])@,
                    )
                &&& #[trigger] squares.len() == re.len()
                &&& forall|f: int, i: int|
                    0 <= f < re.len() && 0 <= i < window.len() ==> call_ensures(
                        times,
                        (window[i], window[i]),
                        #[trigger] squares[f]@[i],
                    )
                &&& adds_up(plus, zero, Seq::new((hi - lo) as nat, |k: int| frames[lo + k]@[p - (lo + k) * hop]), y)
                &&& adds_up(plus, zero, Seq::new((hi - lo) as nat, |k: int| squares[lo + k]@[p - (lo + k) * hop]), w)
                &&& #[trigger] call_ensures(scale, (y, w), out[q])
            },
{
    let n = re.len();
    let size = window.len();
    let (frames, squares, y, weight) = choose|
        frames: Seq<Vec<S>>,
        squares: Seq<Vec<S>>,
        y: Seq<S>,
        weight: Seq<S>,
    |
        are_frames(negate, invert, times, window, re, im, frames) && are_squares(times, window, re.len(), squares)
            && #[trigger] is_overlap_add(plus, zero, frames, window.len(), hop as nat, y) && #[trigger] is_overlap_add(
            plus,
            zero,
            squares,
            window.len(),
            hop as nat,
            weight,
        ) && is_trimmed(scale, same_padding(window.len() as usize, hop), (re.len() * hop) as int, y, weight, out);
    assert forall|f: int| 0 <= f < n implies inverts(
        negate,
        invert,
        times,
        window,
        re[f]@,
        im[f]@,
        (#[trigger] frames[f])@,
    ) && frames[f]@.len() == size by {
        assert(is_frame(negate, invert, times, window, re[f]@, im[f]@, frames[f]@));
        let (bins, samples) = choose|bins: Vec<(S, S)>, samples: Vec<S>|
            is_full_spectrum(negate, re[f]@, im[f]@, window.len() as int, bins@) && #[trigger] call_ensures(
                invert,
                (bins,),
                samples,
            ) && is_zip(times, samples@, window, frames[f]@);
        assert(call_ensures(invert, (bins,), samples));
    }
    assert forall|f: int| 0 <= f < n implies (#[trigger] squares[f])@.len() == size by {
        assert(is_zip(times, window, window, squares[f]@));
    }
    assert forall|f: int, i: int| 0 <= f < n && 0 <= i < size implies call_ensures(
        times,
        (window[i], window[i]),
        #[trigger] squares[f]@[i],
    ) by {
        assert(is_zip(times, window, window, squares[f]@));
    }
    let start = (size - hop) / 2;
    let p = start + q;
    assert((n - 1) * hop + hop == n * hop) by (nonlinear_arith);
    assert(0 <= p < (n - 1) * hop + size);
    law_overlap_takes_all_frames_that_reach(frames, size, hop as nat, p, lo, hi);
    law_overlap_takes_all_frames_that_reach(squares, size, hop as nat, p, lo, hi);
    assert(is_sum(plus, zero, overlapping(frames, hop as nat, p, n), y[p]));
    assert(is_sum(plus, zero, overlapping(squares, hop as nat, p, n), weight[p]));
    let above = Seq::new((hi - lo) as nat, |k: int| frames[lo + k]@[p - (lo + k) * hop]);
    let below = Seq::new((hi - lo) as nat, |k: int| squares[lo + k]@[p - (lo + k) * hop]);
    assert(overlapping(frames, hop as nat, p, n) =~= above);
    assert(overlapping(squares, hop as nat, p, n) =~= below);
    law_sum_adds_all_terms_in_order(plus, zero, above, y[p]);
    law_sum_adds_all_terms_in_order(plus, zero, below, weight[p]);
    assert(call_ensures(scale, (y[start + q], weight[start + q]), out[q]));
    assert(frames.len() == n && squares.len() == n);
    assert(call_ensures(scale, (y[p], weight[p]), out[q]));
}

/// A waveform is the inverse transform of the spectrum of its mel spectrogram, all rows of it, at every
/// length, and has `hop_size` samples for every frame.
pub proof fn law_waveform_is_of_the_whole_spectrum<
    S,
    R: Fn(Tensor) -> Result<Vec<Vec<S>>, Error>,
    N: Fn(S) -> S,
    I: Fn(Vec<(S, S)>) -> Vec<S>,
    A: Fn(S, S) -> S,
    M: Fn(S, S) -> S,
    D: Fn(S, S) -> S,
>(
    cfg: VocosConfig,
    s: Scope,
    mel: Tensor,
    t: usize,
    n: usize,
    read: R,
    negate: N,
    invert: I,
    plus: A,
    times: M,
    scale: D,
    zero: S,
    window: Seq<S>,
    out: Seq<S>,
)
    requires
        is_synthesis(cfg, s, mel, read, negate, invert, plus, times, scale, zero, window, out),
        shape(mel) == seq![t, n] || shape(mel) == seq![1usize, t, n],
    ensures
        out.len() == t * cfg.hop_size,
        exists|p: (Tensor, Tensor), re: Vec<Vec<S>>, im: Vec<Vec<S>>|
            {
                &&& is_spectrum(cfg, s, mel, t, n, p)
                &&& #[trigger] call_ensures(read, (p.0,), Ok::<Vec<Vec<S>>, Error>(re))
                &&& #[trigger] call_ensures(read, (p.1,), Ok::<Vec<Vec<S>>, Error>(im))
                &&& is_istft(negate, invert, plus, times, scale, zero, window, cfg.hop_size, re@, im@, out)
            },
{
}

/// Mel spectrograms that are no matrix, nor a batch of one, and those with another number of bins are
/// refused, and the refusal says why.
pub proof fn law_other_shapes_are_refused<T>(cfg: VocosConfig, dims: Seq<usize>, r: Result<T, VcError>)
    requires
        is_rejected(cfg, dims, r),
    ensures
        dims.len() < 2 || dims.len() > 3 ==> (r matches Err(VcError::Input(text)) && text@
            == "mel must be [frames, num_mels] or [1, frames, num_mels]"@),
        dims.len() == 3 && dims[0] != 1 ==> (r matches Err(e) && e is Backend),
        (dims.len() == 2 || dims.len() == 3 && dims[0] == 1) && dims.last() != cfg.input_channels ==> (
        r matches Err(VcError::Input(text)) && text@ == "expected "@ + decimal(cfg.input_channels as nat)
            + " mel bins, got "@ + decimal(dims.last() as nat)),
        (dims.len() == 2 || dims.len() == 3 && dims[0] == 1) && dims.last() == cfg.input_channels ==> !(
        r matches Err(VcError::Input(_))),
{
}

/// The spectrum of a mel spectrogram that is not refused is of all of its frames and bins, and refusals are
/// those of other shapes.
pub proof fn law_spectrum_is_of_all_frames(
    cfg: VocosConfig,
    s: Scope,
    mel: Tensor,
    t: usize,
    n: usize,
    r: Result<(Tensor, Tensor), VcError>,
)
    requires
        is_spectrum_result(cfg, s, mel, r),
        shape(mel) == seq![t, n] || shape(mel) == seq![1usize, t, n],
    ensures
        is_rejected(cfg, shape(mel), r),
        r matches Ok(p) ==> n == cfg.input_channels && is_spectrum(cfg, s, mel, t, n, p),
{
}

/// Every number of frames can be processed whose samples a machine can count.
pub proof fn law_every_number_of_frames_fits(cfg: VocosConfig, t: usize)
    requires
        1 <= cfg.dim,
        1 <= cfg.input_channels,
        1 <= cfg.n_fft,
        cfg.hop_size <= cfg.n_fft,
        1 <= t,
        t + 6 <= usize::MAX,
        (t - 1) * cfg.hop_size + cfg.n_fft <= usize::MAX,
    ensures
        fits_alone(cfg, seq![t, cfg.input_channels]),
        fits_alone(cfg, seq![1usize, t, cfg.input_channels]),
        fits_whole(cfg, seq![t, cfg.input_channels]),
        fits_whole(cfg, seq![1usize, t, cfg.input_channels]),
{
}

} // verus!
