//! Laws on spectrograms: which samples every number of them comes from, and how.

use crate::fbank;
use crate::fbank::{are_fbanks, is_centred, is_emphasised, is_fbank, is_filtered, is_less, is_windowed};
use crate::mel::{are_mels, column_of, is_mel, lemma_determined_keeps_sameness, lemma_related_columns};
use crate::mel::{is_determined, lemma_same_columns, mel_frames, padded};
use crate::signal::{
    are_related, is_dot, is_running_sum, is_sum, is_zip, law_frames_are_those_that_fit, mirrored, same,
};
use vstd::prelude::*;

verus! {

/// Sample `k` of a signal that goes on beyond its ends as its mirror image does, the end samples left out.
/// A signal too short to mirror repeats the sample at its far end.
pub open spec fn continued<S>(x: Seq<S>, k: int) -> S {
    let n = x.len() as int;
    if k < 0 {
        x[if -k < n - 1 { -k } else { n - 1 }]
    } else if k < n {
        x[k]
    } else {
        x[if 2 * n - 2 - k > 0 { 2 * n - 2 - k } else { 0 }]
    }
}

/// Whether `total` can be what comes of `zero` when the products of `weights` and `values` are added to it
/// from the first to the last.
pub open spec fn adds_products<S, A: Fn(S, S) -> S, M: Fn(S, S) -> S>(
    plus: A,
    times: M,
    zero: S,
    weights: Seq<S>,
    values: Seq<S>,
    total: S,
) -> bool {
    exists|terms: Seq<S>, parts: Seq<S>|
        {
            &&& #[trigger] terms.len() == weights.len()
            &&& weights.len() == values.len()
            &&& forall|k: int|
                0 <= k < weights.len() ==> call_ensures(times, (weights[k], values[k]), #[trigger] terms[k])
            &&& #[trigger] parts.len() == terms.len() + 1
            &&& parts[0] == zero
            &&& forall|k: int|
                0 <= k < terms.len() ==> call_ensures(plus, (parts[k], #[trigger] terms[k]), parts[k + 1])
            &&& parts[terms.len() as int] == total
        }
}

/// What a filter gives is the logarithm of the sum of the products of its weights and the spectrum.
pub proof fn law_filter_adds_products<S, R, A: Fn(S, S) -> S, M: Fn(S, S) -> S, L: Fn(S) -> R>(
    plus: A,
    times: M,
    log: L,
    zero: S,
    bank: Seq<S>,
    power: Seq<S>,
    r: R,
)
    requires
        is_filtered(plus, times, log, zero, bank, power, r),
    ensures
        exists|energy: S| #[trigger]
            adds_products(plus, times, zero, bank, power, energy) && call_ensures(log, (energy,), r),
{
    let energy = choose|energy: S| #[trigger]
        is_dot(plus, times, zero, bank, power, energy) && call_ensures(log, (energy,), r);
    let terms = choose|terms: Seq<S>|
        is_zip(times, bank, power, terms) && #[trigger] is_sum(plus, zero, terms, energy);
    let parts = choose|parts: Seq<S>| #[trigger]
        is_running_sum(plus, zero, terms, parts) && parts.last() == energy;
    assert(terms.len() == bank.len() && parts.len() == terms.len() + 1);
    assert(adds_products(plus, times, zero, bank, power, energy));
}

/// Every number of a mel spectrogram comes from the 1024 samples from `256 t - 384` on, each times the
/// window at its own place: their magnitudes, weighed by the filter of the bin and added up, and the
/// logarithm of that.
pub proof fn law_mel_value_comes_from_its_frame<
    S,
    R,
    A: Fn(S, S) -> S,
    M: Fn(S, S) -> S,
    P: Fn(Vec<S>) -> Vec<S>,
    L: Fn(S) -> R,
>(
    plus: A,
    times: M,
    magnitude: P,
    log: L,
    zero: S,
    banks: Seq<Vec<S>>,
    window: Seq<S>,
    samples: Seq<S>,
    rows: Seq<Vec<R>>,
    m: int,
    t: int,
)
    requires
        samples.len() > 0,
        are_mels(plus, times, magnitude, log, zero, banks, window, samples, rows),
        0 <= m < 80,
        0 <= t < rows[m]@.len(),
    ensures
        rows.len() == 80,
        rows[m]@.len() == samples.len() / 256,
        exists|windowed: Vec<S>, spectrum: Vec<S>, energy: S|
            {
                &&& windowed@.len() == 1024
                &&& forall|i: int|
                    0 <= i < 1024 ==> call_ensures(
                        times,
                        (continued(samples, 256 * t - 384 + i), window[i]),
                        #[trigger] windowed@[i],
                    )
                &&& #[trigger] call_ensures(magnitude, (windowed,), spectrum)
                &&& #[trigger] adds_products(plus, times, zero, banks[m]@, spectrum@, energy)
                &&& call_ensures(log, (energy,), rows[m]@[t])
            },
{
    let n = samples.len();
    assert(mel_frames(n) == n / 256);
    law_frames_are_those_that_fit((n + 768) as nat, 1024, 256, t as nat);
    let frame = padded(samples).subrange(t * 256, t * 256 + 1024);
    let column = column_of(rows, t);
    assert(is_mel(plus, times, magnitude, log, zero, banks, window, frame, column));
    let (windowed, spectrum) = choose|windowed: Vec<S>, spectrum: Vec<S>|
        is_zip(times, frame, window, windowed@) && #[trigger] call_ensures(magnitude, (windowed,), spectrum)
            && fbank::are_filtered(plus, times, log, zero, banks, spectrum@, column);
    assert(is_filtered(plus, times, log, zero, banks[m]@, spectrum@, column[m]));
    law_filter_adds_products(plus, times, log, zero, banks[m]@, spectrum@, column[m]);
    assert forall|i: int| 0 <= i < 1024 implies call_ensures(
        times,
        (continued(samples, 256 * t - 384 + i), window[i]),
        #[trigger] windowed@[i],
    ) by {
        assert(frame[i] == padded(samples)[t * 256 + i]);
        assert(padded(samples)[t * 256 + i] == continued(samples, 256 * t - 384 + i));
    }
}

/// A mel spectrogram does not depend on where a frame stands: frames with the same samples have the same
/// column, whatever their numbers. So a signal that is later by a number of hops has its columns later by
/// as many.
pub proof fn law_frames_with_the_same_samples_have_the_same_column<
    S,
    R,
    A: Fn(S, S) -> S,
    M: Fn(S, S) -> S,
    P: Fn(Vec<S>) -> Vec<S>,
    L: Fn(S) -> R,
>(
    plus: A,
    times: M,
    magnitude: P,
    log: L,
    zero: S,
    banks: Seq<Vec<S>>,
    window: Seq<S>,
    x: Seq<S>,
    rows: Seq<Vec<R>>,
    y: Seq<S>,
    others: Seq<Vec<R>>,
    t: int,
    u: int,
)
    requires
        x.len() > 0,
        y.len() > 0,
        is_determined(plus, times, magnitude, log),
        are_mels(plus, times, magnitude, log, zero, banks, window, x, rows),
        are_mels(plus, times, magnitude, log, zero, banks, window, y, others),
        0 <= t < x.len() / 256,
        0 <= u < y.len() / 256,
        forall|i: int|
            0 <= i < 1024 ==> #[trigger] continued(x, 256 * t - 384 + i) == continued(y, 256 * u - 384 + i),
    ensures
        forall|m: int| 0 <= m < 80 ==> #[trigger] rows[m]@[t] == others[m]@[u],
{
    law_frames_are_those_that_fit((x.len() + 768) as nat, 1024, 256, t as nat);
    law_frames_are_those_that_fit((y.len() + 768) as nat, 1024, 256, u as nat);
    let v = padded(x).subrange(t * 256, t * 256 + 1024);
    let w = padded(y).subrange(u * 256, u * 256 + 1024);
    assert forall|i: int| 0 <= i < 1024 implies same::<S>()(v[i], w[i]) by {
        assert(continued(x, 256 * t - 384 + i) == continued(y, 256 * u - 384 + i));
        assert(v[i] == padded(x)[t * 256 + i] && w[i] == padded(y)[u * 256 + i]);
        assert(padded(x)[t * 256 + i] == continued(x, 256 * t - 384 + i));
        assert(padded(y)[u * 256 + i] == continued(y, 256 * u - 384 + i));
    }
    assert(are_related(v, w, same()));
    lemma_determined_keeps_sameness(plus, times, magnitude, log, zero);
    let (a, b) = (column_of(rows, t), column_of(others, u));
    lemma_related_columns(plus, times, magnitude, log, zero, banks, window, same(), same(), v, w, a, b);
    lemma_same_columns::<S, R, L>(log, a, b);
    assert forall|m: int| 0 <= m < 80 implies #[trigger] rows[m]@[t] == others[m]@[u] by {
        assert(a[m] == b[m]);
    }
}

/// A signal that starts some hops later than another has its columns as many earlier, but for those that
/// reach beyond the ends of either.
pub proof fn law_shifted_signal_has_shifted_columns<
    S,
    R,
    A: Fn(S, S) -> S,
    M: Fn(S, S) -> S,
    P: Fn(Vec<S>) -> Vec<S>,
    L: Fn(S) -> R,
>(
    plus: A,
    times: M,
    magnitude: P,
    log: L,
    zero: S,
    banks: Seq<Vec<S>>,
    window: Seq<S>,
    x: Seq<S>,
    rows: Seq<Vec<R>>,
    y: Seq<S>,
    others: Seq<Vec<R>>,
    hops: int,
    t: int,
)
    requires
        is_determined(plus, times, magnitude, log),
        are_mels(plus, times, magnitude, log, zero, banks, window, x, rows),
        are_mels(plus, times, magnitude, log, zero, banks, window, y, others),
        0 <= hops,
        256 * hops <= x.len(),
        y == x.skip(256 * hops),
        384 <= 256 * t,
        256 * t + 640 <= y.len(),
    ensures
        forall|m: int| 0 <= m < 80 ==> #[trigger] others[m]@[t] == rows[m]@[t + hops],
{
    let u = t + hops;
    assert forall|i: int| 0 <= i < 1024 implies #[trigger] continued(y, 256 * t - 384 + i) == continued(
        x,
        256 * u - 384 + i,
    ) by {
        assert(y[256 * t - 384 + i] == x[256 * u - 384 + i]);
    }
    law_frames_with_the_same_samples_have_the_same_column(
        plus,
        times,
        magnitude,
        log,
        zero,
        banks,
        window,
        y,
        others,
        x,
        rows,
        t,
        u,
    );
}

/// Every number of a filterbank comes from the 400 samples from `160 t` on: their mean taken off, every
/// sample with the one before it taken off, each times the window at its own place, zeros up to 512, the
/// power spectrum, weighed by the filter and added up, and the logarithm of that.
pub proof fn law_filterbank_value_comes_from_its_frame<
    S,
    R,
    A: Fn(S, S) -> S,
    B: Fn(S, S) -> S,
    M: Fn(S, S) -> S,
    V: Fn(S) -> S,
    E: Fn(S, S) -> S,
    P: Fn(Vec<S>) -> Vec<S>,
    L: Fn(S) -> R,
>(
    plus: A,
    minus: B,
    times: M,
    average: V,
    emphasise: E,
    power: P,
    log: L,
    zero: S,
    banks: Seq<Vec<S>>,
    window: Seq<S>,
    samples: Seq<S>,
    rows: Seq<Vec<R>>,
    t: int,
    k: int,
)
    requires
        are_fbanks(plus, minus, times, average, emphasise, power, log, zero, banks, window, samples, rows),
        0 <= t < rows.len(),
        0 <= k < rows[t]@.len(),
    ensures
        rows.len() == if samples.len() < 400 { 0 } else { (samples.len() - 400) / 160 + 1 },
        rows[t]@.len() == banks.len(),
        exists|parts: Seq<S>, mean: S, centred: Seq<S>, emphasised: Seq<S>, buffer: Vec<S>, spectrum: Vec<S>, energy: S|
            {
                &&& #[trigger] parts.len() == 401
                &&& parts[0] == zero
                &&& forall|i: int|
                    0 <= i < 400 ==> call_ensures(plus, (#[trigger] parts[i], samples[160 * t + i]), parts[i + 1])
                &&& #[trigger] call_ensures(average, (parts[400],), mean)
                &&& #[trigger] centred.len() == 400
                &&& forall|i: int|
                    0 <= i < 400 ==> call_ensures(minus, (samples[160 * t + i], mean), #[trigger] centred[i])
                &&& #[trigger] emphasised.len() == 400
                &&& forall|i: int|
                    0 <= i < 400 ==> call_ensures(
                        emphasise,
                        (centred[i], if i == 0 { centred[0] } else { centred[i - 1] }),
                        #[trigger] emphasised[i],
                    )
                &&& buffer@.len() == 512
                &&& forall|i: int|
                    0 <= i < 400 ==> call_ensures(times, (emphasised[i], window[i]), #[trigger] buffer@[i])
                &&& forall|i: int| 400 <= i < 512 ==> #[trigger] buffer@[i] == zero
                &&& #[trigger] call_ensures(power, (buffer,), spectrum)
                &&& #[trigger] adds_products(plus, times, zero, banks[k]@, spectrum@, energy)
                &&& call_ensures(log, (energy,), rows[t]@[k])
            },
{
    law_frames_are_those_that_fit(samples.len(), 400, 160, t as nat);
    let frame = samples.subrange(t * 160, t * 160 + 400);
    let row = rows[t]@;
    assert(is_fbank(plus, minus, times, average, emphasise, power, log, zero, banks, window, frame, row));
    let (centred, emphasised, buffer, spectrum) = choose|
        centred: Seq<S>,
        emphasised: Seq<S>,
        padded: Vec<S>,
        spectrum: Vec<S>,
    | #[trigger]
        is_centred(plus, minus, average, zero, frame, centred) && #[trigger] is_emphasised(
            emphasise,
            centred,
            emphasised,
        ) && is_windowed(times, zero, window, emphasised, fbank::PADDED_WINDOW_SIZE as nat, padded@)
            && #[trigger] call_ensures(power, (padded,), spectrum) && fbank::are_filtered(
            plus,
            times,
            log,
            zero,
            banks,
            spectrum@,
            row,
        );
    let (total, mean) = choose|total: S, mean: S| #[trigger]
        is_sum(plus, zero, frame, total) && #[trigger] call_ensures(average, (total,), mean) && is_less(
            minus,
            frame,
            mean,
            centred,
        );
    let parts = choose|parts: Seq<S>| #[trigger]
        is_running_sum(plus, zero, frame, parts) && parts.last() == total;
    assert(parts.len() == 401 && parts[400] == total);
    assert(call_ensures(average, (parts[400],), mean));
    assert forall|i: int| 0 <= i < 400 implies call_ensures(
        plus,
        (#[trigger] parts[i], samples[160 * t + i]),
        parts[i + 1],
    ) by {
        assert(frame[i] == samples[160 * t + i]);
        assert(call_ensures(plus, (parts[i], frame[i]), parts[i + 1]));
    }
    assert forall|i: int| 0 <= i < 400 implies call_ensures(
        minus,
        (samples[160 * t + i], mean),
        #[trigger] centred[i],
    ) by {
        assert(frame[i] == samples[160 * t + i]);
    }
    assert(is_filtered(plus, times, log, zero, banks[k]@, spectrum@, row[k]));
    law_filter_adds_products(plus, times, log, zero, banks[k]@, spectrum@, row[k]);
    let energy = choose|energy: S| #[trigger]
        adds_products(plus, times, zero, banks[k]@, spectrum@, energy) && call_ensures(log, (energy,), row[k]);
    assert(centred.len() == 400 && emphasised.len() == 400);
    assert(adds_products(plus, times, zero, banks[k]@, spectrum@, energy));
    assert(call_ensures(power, (buffer,), spectrum));
}

/// A filterbank does not depend on where a frame stands: frames with the same samples have the same row,
/// whatever their numbers.
pub proof fn law_frames_with_the_same_samples_have_the_same_row<
    S,
    R,
    A: Fn(S, S) -> S,
    B: Fn(S, S) -> S,
    M: Fn(S, S) -> S,
    V: Fn(S) -> S,
    E: Fn(S, S) -> S,
    P: Fn(Vec<S>) -> Vec<S>,
    L: Fn(S) -> R,
>(
    plus: A,
    minus: B,
    times: M,
    average: V,
    emphasise: E,
    power: P,
    log: L,
    zero: S,
    banks: Seq<Vec<S>>,
    window: Seq<S>,
    x: Seq<S>,
    rows: Seq<Vec<R>>,
    y: Seq<S>,
    others: Seq<Vec<R>>,
    t: int,
    u: int,
)
    requires
        fbank::is_determined(plus, minus, times, average, emphasise, power, log),
        window.len() == 400,
        are_fbanks(plus, minus, times, average, emphasise, power, log, zero, banks, window, x, rows),
        are_fbanks(plus, minus, times, average, emphasise, power, log, zero, banks, window, y, others),
        0 <= t,
        160 * t + 400 <= x.len(),
        0 <= u,
        160 * u + 400 <= y.len(),
        forall|i: int| 0 <= i < 400 ==> #[trigger] x[160 * t + i] == y[160 * u + i],
    ensures
        rows[t]@ == others[u]@,
{
    law_frames_are_those_that_fit(x.len(), 400, 160, t as nat);
    law_frames_are_those_that_fit(y.len(), 400, 160, u as nat);
    let frame = x.subrange(t * 160, t * 160 + 400);
    assert(is_fbank(plus, minus, times, average, emphasise, power, log, zero, banks, window, frame, rows[t]@));
    let other = y.subrange(u * 160, u * 160 + 400);
    assert(is_fbank(plus, minus, times, average, emphasise, power, log, zero, banks, window, other, others[u]@));
    assert forall|i: int| 0 <= i < 400 implies frame[i] == other[i] by {
        assert(x[160 * t + i] == y[160 * u + i]);
    }
    assert(frame =~= other);
    fbank::law_frame_determines_its_row(
        plus,
        minus,
        times,
        average,
        emphasise,
        power,
        log,
        zero,
        banks,
        window,
        frame,
        rows[t]@,
        others[u]@,
    );
}

/// A padded signal is the signal as it goes on beyond its ends, for every padding and every length.
pub proof fn law_padding_goes_on_as_the_mirror_image<S>(x: Seq<S>, pad: nat, j: int)
    requires
        x.len() > 0,
        0 <= j < x.len() + 2 * pad,
    ensures
        mirrored(x, pad, j) == continued(x, j - pad),
{
}

} // verus!
