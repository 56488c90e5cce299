//! Log mel spectrograms of signals at 22 050 Hz, in the convention of HiFi-GAN.
//!
//! The signal is continued at both ends by its mirror image; every 256 samples a windowed frame of
//! 1024 samples is transformed, and the magnitudes are weighed by 80 filters.

use crate::bigvgan::{law_default_generator, BigVganConfig};
use crate::fbank::{
    are_filtered, are_logs_of_related, bounds_logs, filter, is_filtered, law_related_spectra_have_related_energies,
};
use crate::signal::{
    are_related, frame_count, frames_in, has_one_result, has_one_result_of_list, has_one_result_of_two, is_zip,
    keeps_relation_of_two, law_frames_are_those_that_fit, law_padding_keeps_the_signal, mirrored, reflect_pad, same,
    window_of, zip,
};
use vstd::prelude::*;

verus! {

pub const SR: usize = 22_050;

/// Samples of a frame.
pub const N_FFT: usize = 1_024;

/// Samples from one frame to the next.
pub const HOP: usize = 256;

pub const N_MELS: usize = 80;

/// Bins of the magnitude spectrum.
pub const N_BINS: usize = 513;

/// Samples that the signal is continued by at each end.
pub const PAD: usize = 384;

/// The signal, continued at both ends.
pub open spec fn padded<S>(samples: Seq<S>) -> Seq<S> {
    Seq::new((samples.len() + 2 * PAD) as nat, |j: int| mirrored(samples, PAD as nat, j))
}

/// The number of frames of a signal of `len` samples.
pub open spec fn mel_frames(len: nat) -> nat {
    frame_count((len + 2 * PAD) as nat, N_FFT as nat, HOP as nat)
}

/// Whether `column` can be the mel bins of a frame.
pub open spec fn is_mel<
    S,
    R,
    A: Fn(S, S) -> S,
    M: Fn(S, S) -> S,
    P: Fn(Vec<S>) -> Vec<S>,
    L: Fn(S) -> R,
>(
    plus: A,
    times: M,
    magnitude: P,
    log: L,
    zero: S,
    banks: Seq<Vec<S>>,
    window: Seq<S>,
    frame: Seq<S>,
    column: Seq<R>,
) -> bool {
    exists|windowed: Vec<S>, spectrum: Vec<S>|
        is_zip(times, frame, window, windowed@) && #[trigger] call_ensures(magnitude, (windowed,), spectrum)
            && are_filtered(plus, times, log, zero, banks, spectrum@, column)
}

/// Column `t` of a matrix that is held row by row.
pub open spec fn column_of<R>(rows: Seq<Vec<R>>, t: int) -> Seq<R> {
    Seq::new(rows.len(), |m: int| rows[m]@[t])
}

/// Whether `rows` can be the mel spectrogram of `samples`: a row for every mel bin, with an item for
/// every frame.
pub open spec fn are_mels<S, R, A: Fn(S, S) -> S, M: Fn(S, S) -> S, P: Fn(Vec<S>) -> Vec<S>, L: Fn(S) -> R>(
    plus: A,
    times: M,
    magnitude: P,
    log: L,
    zero: S,
    banks: Seq<Vec<S>>,
    window: Seq<S>,
    samples: Seq<S>,
    rows: Seq<Vec<R>>,
) -> bool {
    &&& rows.len() == N_MELS
    &&& forall|m: int| 0 <= m < N_MELS ==> (#[trigger] rows[m])@.len() == mel_frames(samples.len())
    &&& forall|t: int|
        0 <= t < mel_frames(samples.len()) ==> is_mel(
            plus,
            times,
            magnitude,
            log,
            zero,
            banks,
            window,
            padded(samples).subrange(t * HOP, t * HOP + N_FFT),
            #[trigger] column_of(rows, t),
        )
}

/// Makes mel spectrograms of a signal: holds the filters and the window.
pub struct MelExtractor<S: Copy> {
    fb: Vec<Vec<S>>,
    window: Vec<S>,
}

impl<S: Copy> MelExtractor<S> {
    /// The filters: the weight of every bin of the magnitude spectrum.
    pub closed spec fn filters(self) -> Seq<Vec<S>> {
        self.fb@
    }

    /// The window of a frame.
    pub closed spec fn weights(self) -> Seq<S> {
        self.window@
    }

    #[verifier::type_invariant]
    spec fn wf(self) -> bool {
        &&& self.fb@.len() == N_MELS
        &&& forall|k: int| 0 <= k < self.fb@.len() ==> (#[trigger] self.fb@[k])@.len() == N_BINS
        &&& self.window@.len() == N_FFT
    }

    /// An extractor with the given filters and window.
    pub fn new(fb: Vec<Vec<S>>, window: Vec<S>) -> (r: Self)
        requires
            fb@.len() == N_MELS,
            forall|k: int| 0 <= k < fb@.len() ==> (#[trigger] fb@[k])@.len() == N_BINS,
            window@.len() == N_FFT,
        ensures
            r.filters() == fb@,
            r.weights() == window@,
    {
        MelExtractor { fb, window }
    }

    /// The mel spectrogram of `samples`: for every mel bin a row with an item for every frame. The
    /// functions are the arithmetic: `magnitude` is the magnitude spectrum, `log` the logarithm of
    /// an energy.
    pub fn extract<R: Copy, A: Fn(S, S) -> S, M: Fn(S, S) -> S, P: Fn(Vec<S>) -> Vec<S>, L: Fn(S) -> R>(
        &self,
        plus: &A,
        times: &M,
        magnitude: &P,
        log: &L,
        zero: S,
        samples: &Vec<S>,
    ) -> (rows: Vec<Vec<R>>)
        requires
            samples@.len() > 0,
            samples@.len() + 2 * PAD <= usize::MAX,
            forall|x: S, y: S| call_requires(*plus, (x, y)),
            forall|x: S, y: S| call_requires(*times, (x, y)),
            forall|v: Vec<S>| v@.len() == N_FFT ==> #[trigger] call_requires(*magnitude, (v,)),
            forall|v: Vec<S>, w: Vec<S>|
                v@.len() == N_FFT && #[trigger] call_ensures(*magnitude, (v,), w) ==> w@.len() == N_BINS,
            forall|x: S| call_requires(*log, (x,)),
        ensures
            are_mels(*plus, *times, *magnitude, *log, zero, self.filters(), self.weights(), samples@, rows@),
            self.weights().len() == N_FFT,
    {
        proof {
            use_type_invariant(self);
        }
        let y = reflect_pad(samples, PAD);
        let n = y.len();
        let frames = frames_in(n, N_FFT, HOP);
        let mut rows: Vec<Vec<R>> = Vec::new();
        let mut m: usize = 0;
        while m < N_MELS
            invariant
                m <= N_MELS,
                rows@.len() == m,
                forall|k: int| 0 <= k < m ==> (#[trigger] rows@[k])@.len() == 0,
            decreases N_MELS - m,
        {
            rows.push(Vec::new());
            m += 1;
        }
        let mut t: usize = 0;
        while t < frames
            invariant
                self.wf(),
                forall|x: S, y: S| call_requires(*plus, (x, y)),
                forall|x: S, y: S| call_requires(*times, (x, y)),
                forall|v: Vec<S>| v@.len() == N_FFT ==> #[trigger] call_requires(*magnitude, (v,)),
                forall|v: Vec<S>, w: Vec<S>|
                    v@.len() == N_FFT && #[trigger] call_ensures(*magnitude, (v,), w) ==> w@.len() == N_BINS,
                forall|x: S| call_requires(*log, (x,)),
                y@ == padded(samples@),
                n == y@.len(),
                frames == frame_count(n as nat, N_FFT as nat, HOP as nat),
                t <= frames,
                rows@.len() == N_MELS,
                forall|m: int| 0 <= m < N_MELS ==> (#[trigger] rows@[m])@.len() == t,
                forall|k: int|
                    0 <= k < t ==> is_mel(
                        *plus,
                        *times,
                        *magnitude,
                        *log,
                        zero,
                        self.filters(),
                        self.weights(),
                        padded(samples@).subrange(k * HOP, k * HOP + N_FFT),
                        #[trigger] column_of(rows@, k),
                    ),
            decreases frames - t,
        {
            proof {
                law_frames_are_those_that_fit(n as nat, N_FFT as nat, HOP as nat, t as nat);
            }
            let frame = window_of(&y, t * HOP, N_FFT);
            let windowed = zip(times, &frame, &self.window);
            let ghost given = windowed;
            let spectrum = magnitude(windowed);
            let column = filter(plus, times, log, zero, &self.fb, &spectrum);
            assert(call_ensures(*magnitude, (given,), spectrum));
            let ghost before = rows@;
            add_column(&mut rows, &column);
            assert forall|k: int| 0 <= k < t + 1 implies is_mel(
                *plus,
                *times,
                *magnitude,
                *log,
                zero,
                self.filters(),
                self.weights(),
                padded(samples@).subrange(k * HOP, k * HOP + N_FFT),
                #[trigger] column_of(rows@, k),
            ) by {
                if k < t {
                    assert(column_of(rows@, k) == column_of(before, k));
                } else {
                    assert(column_of(rows@, k) == column@);
                }
            }
            t += 1;
        }
        rows
    }
}

/// Puts one item after every row.
fn add_column<R: Copy>(rows: &mut Vec<Vec<R>>, column: &Vec<R>)
    requires
        old(rows)@.len() == column@.len(),
    ensures
        final(rows)@.len() == old(rows)@.len(),
        forall|m: int|
            0 <= m < column@.len() ==> (#[trigger] final(rows)@[m])@ == old(rows)@[m]@.push(column@[m]),
{
    let n = column.len();
    let ghost given = rows@;
    let mut m: usize = 0;
    while m < n
        invariant
            n == column@.len(),
            rows@.len() == n,
            given.len() == n,
            m <= n,
            forall|k: int| 0 <= k < m ==> (#[trigger] rows@[k])@ == given[k]@.push(column@[k]),
            forall|k: int| m <= k < n ==> #[trigger] rows@[k] == given[k],
        decreases n - m,
    {
        rows[m].push(column[m]);
        m += 1;
    }
}

/// Whether the arithmetic gives magnitudes related as `of_magnitudes` says on frames whose samples are
/// related as `of_samples` says, and energies related like the magnitudes. Changing every sign is such
/// a relation of samples, and leaves magnitudes as they are.
pub open spec fn keeps_relations<S, A: Fn(S, S) -> S, M: Fn(S, S) -> S, P: Fn(Vec<S>) -> Vec<S>>(
    plus: A,
    times: M,
    magnitude: P,
    zero: S,
    of_samples: spec_fn(S, S) -> bool,
    of_magnitudes: spec_fn(S, S) -> bool,
) -> bool {
    &&& keeps_relation_of_two(times, of_samples, same(), of_samples)
    &&& forall|v: Vec<S>, w: Vec<S>, p: Vec<S>, q: Vec<S>|
        are_related(v@, w@, of_samples) && #[trigger] call_ensures(magnitude, (v,), p) && #[trigger] call_ensures(
            magnitude,
            (w,),
            q,
        ) ==> are_related(p@, q@, of_magnitudes)
    &&& of_magnitudes(zero, zero)
    &&& keeps_relation_of_two(plus, of_magnitudes, of_magnitudes, of_magnitudes)
    &&& keeps_relation_of_two(times, same(), of_magnitudes, of_magnitudes)
}

/// Whether every function of the arithmetic has one result for its operands.
pub open spec fn is_determined<
    S,
    R,
    A: Fn(S, S) -> S,
    M: Fn(S, S) -> S,
    P: Fn(Vec<S>) -> Vec<S>,
    L: Fn(S) -> R,
>(plus: A, times: M, magnitude: P, log: L) -> bool {
    &&& has_one_result_of_two(plus)
    &&& has_one_result_of_two(times)
    &&& has_one_result_of_list(magnitude)
    &&& has_one_result(log)
}

/// Frames with related samples have related energies.
pub(crate) proof fn lemma_related_columns<
    S,
    R,
    A: Fn(S, S) -> S,
    M: Fn(S, S) -> S,
    P: Fn(Vec<S>) -> Vec<S>,
    L: Fn(S) -> R,
>(
    plus: A,
    times: M,
    magnitude: P,
    log: L,
    zero: S,
    banks: Seq<Vec<S>>,
    window: Seq<S>,
    of_samples: spec_fn(S, S) -> bool,
    of_magnitudes: spec_fn(S, S) -> bool,
    x: Seq<S>,
    y: Seq<S>,
    a: Seq<R>,
    b: Seq<R>,
)
    requires
        keeps_relations(plus, times, magnitude, zero, of_samples, of_magnitudes),
        are_related(x, y, of_samples),
        is_mel(plus, times, magnitude, log, zero, banks, window, x, a),
        is_mel(plus, times, magnitude, log, zero, banks, window, y, b),
    ensures
        a.len() == b.len(),
        forall|i: int| 0 <= i < a.len() ==> are_logs_of_related(log, of_magnitudes, #[trigger] a[i], b[i]),
{
    let (v, p) = choose|windowed: Vec<S>, spectrum: Vec<S>|
        is_zip(times, x, window, windowed@) && #[trigger] call_ensures(magnitude, (windowed,), spectrum)
            && are_filtered(plus, times, log, zero, banks, spectrum@, a);
    let (w, q) = choose|windowed: Vec<S>, spectrum: Vec<S>|
        is_zip(times, y, window, windowed@) && #[trigger] call_ensures(magnitude, (windowed,), spectrum)
            && are_filtered(plus, times, log, zero, banks, spectrum@, b);
    assert forall|i: int| 0 <= i < v@.len() implies of_samples(v@[i], w@[i]) by {
        assert(of_samples(x[i], y[i]) && same::<S>()(window[i], window[i]));
        assert(call_ensures(times, (x[i], window[i]), v@[i]));
        assert(call_ensures(times, (y[i], window[i]), w@[i]));
    }
    assert(are_related(v@, w@, of_samples));
    law_related_spectra_have_related_energies(plus, times, log, zero, banks, of_magnitudes, p@, q@, a, b);
}

/// An arithmetic with one result keeps sameness.
pub(crate) proof fn lemma_determined_keeps_sameness<
    S,
    R,
    A: Fn(S, S) -> S,
    M: Fn(S, S) -> S,
    P: Fn(Vec<S>) -> Vec<S>,
    L: Fn(S) -> R,
>(plus: A, times: M, magnitude: P, log: L, zero: S)
    requires
        is_determined(plus, times, magnitude, log),
    ensures
        keeps_relations(plus, times, magnitude, zero, same(), same()),
{
    assert forall|v: Vec<S>, w: Vec<S>, p: Vec<S>, q: Vec<S>|
        are_related(v@, w@, same()) && #[trigger] call_ensures(magnitude, (v,), p) && #[trigger] call_ensures(
            magnitude,
            (w,),
            q,
        ) implies are_related(p@, q@, same()) by {
        assert(v@ =~= w@);
        assert(p@ == q@);
    }
}

/// Logarithms of the same energy are the same.
pub(crate) proof fn lemma_same_columns<S, R, L: Fn(S) -> R>(log: L, a: Seq<R>, b: Seq<R>)
    requires
        has_one_result(log),
        a.len() == b.len(),
        forall|i: int| 0 <= i < a.len() ==> are_logs_of_related(log, same(), #[trigger] a[i], b[i]),
    ensures
        a == b,
{
    assert forall|i: int| 0 <= i < a.len() implies a[i] == b[i] by {
        assert(are_logs_of_related(log, same(), a[i], b[i]));
        let (e, f) = choose|e: S, f: S|
            same::<S>()(e, f) && #[trigger] call_ensures(log, (e,), a[i]) && #[trigger] call_ensures(log, (f,), b[i]);
        assert(call_ensures(log, (e,), a[i]) && call_ensures(log, (e,), b[i]));
    }
    assert(a =~= b);
}

/// A frame that does not reach beyond the ends of the signal depends on its own samples only: signals
/// that agree on these have the same column there.
pub proof fn law_inner_frame_depends_on_its_own_samples<
    S,
    R,
    A: Fn(S, S) -> S,
    M: Fn(S, S) -> S,
    P: Fn(Vec<S>) -> Vec<S>,
    L: Fn(S) -> R,
>(
    plus: A,
    times: M,
    magnitude: P,
    log: L,
    zero: S,
    banks: Seq<Vec<S>>,
    window: Seq<S>,
    x: Seq<S>,
    rows: Seq<Vec<R>>,
    y: Seq<S>,
    others: Seq<Vec<R>>,
    t: int,
)
    requires
        is_determined(plus, times, magnitude, log),
        are_mels(plus, times, magnitude, log, zero, banks, window, x, rows),
        are_mels(plus, times, magnitude, log, zero, banks, window, y, others),
        PAD <= t * HOP,
        t * HOP - PAD + N_FFT <= x.len(),
        t * HOP - PAD + N_FFT <= y.len(),
        forall|i: int| t * HOP - PAD <= i < t * HOP - PAD + N_FFT ==> #[trigger] x[i] == y[i],
    ensures
        t < mel_frames(x.len()),
        t < mel_frames(y.len()),
        column_of(rows, t) == column_of(others, t),
{
    law_one_frame_per_hop(x.len());
    law_one_frame_per_hop(y.len());
    let u = padded(x).subrange(t * HOP, t * HOP + N_FFT);
    let v = padded(y).subrange(t * HOP, t * HOP + N_FFT);
    assert forall|i: int| 0 <= i < N_FFT implies #[trigger] u[i] == v[i] by {
        law_padding_keeps_the_signal(x, PAD as nat, t * HOP + i - PAD);
        law_padding_keeps_the_signal(y, PAD as nat, t * HOP + i - PAD);
        assert(x[t * HOP + i - PAD] == y[t * HOP + i - PAD]);
    }
    assert(are_related(u, v, same()));
    lemma_determined_keeps_sameness(plus, times, magnitude, log, zero);
    let (a, b) = (column_of(rows, t), column_of(others, t));
    lemma_related_columns(plus, times, magnitude, log, zero, banks, window, same(), same(), u, v, a, b);
    lemma_same_columns::<S, R, L>(log, a, b);
}

/// Signals with related samples have mel spectrograms of related energies, if the arithmetic keeps the
/// relations.
pub proof fn law_related_signals_have_related_energies<
    S,
    R,
    A: Fn(S, S) -> S,
    M: Fn(S, S) -> S,
    P: Fn(Vec<S>) -> Vec<S>,
    L: Fn(S) -> R,
>(
    plus: A,
    times: M,
    magnitude: P,
    log: L,
    zero: S,
    banks: Seq<Vec<S>>,
    window: Seq<S>,
    of_samples: spec_fn(S, S) -> bool,
    of_magnitudes: spec_fn(S, S) -> bool,
    x: Seq<S>,
    rows: Seq<Vec<R>>,
    y: Seq<S>,
    others: Seq<Vec<R>>,
    t: int,
    m: int,
)
    requires
        keeps_relations(plus, times, magnitude, zero, of_samples, of_magnitudes),
        are_related(x, y, of_samples),
        are_mels(plus, times, magnitude, log, zero, banks, window, x, rows),
        are_mels(plus, times, magnitude, log, zero, banks, window, y, others),
        0 <= t < mel_frames(x.len()),
        0 <= m < N_MELS,
    ensures
        are_logs_of_related(log, of_magnitudes, rows[m]@[t], others[m]@[t]),
{
    law_frames_are_those_that_fit((x.len() + 2 * PAD) as nat, N_FFT as nat, HOP as nat, t as nat);
    let u = padded(x).subrange(t * HOP, t * HOP + N_FFT);
    let v = padded(y).subrange(t * HOP, t * HOP + N_FFT);
    assert forall|i: int| 0 <= i < N_FFT implies of_samples(u[i], v[i]) by {
        lemma_related_padding(x, y, of_samples, t * HOP + i);
    }
    assert(are_related(u, v, of_samples));
    let (a, b) = (column_of(rows, t), column_of(others, t));
    lemma_related_columns(plus, times, magnitude, log, zero, banks, window, of_samples, of_magnitudes, u, v, a, b);
    assert(are_logs_of_related(log, of_magnitudes, a[m], b[m]));
}

/// Related signals are related where they are continued, too.
proof fn lemma_related_padding<S>(x: Seq<S>, y: Seq<S>, rel: spec_fn(S, S) -> bool, j: int)
    requires
        are_related(x, y, rel),
        x.len() > 0,
        0 <= j < x.len() + 2 * PAD,
    ensures
        rel(padded(x)[j], padded(y)[j]),
{
    let n = x.len() as int;
    let k = j - PAD;
    let at = if k < 0 {
        if -k < n { -k } else { n - 1 }
    } else if k < n {
        k
    } else if k - n + 2 <= n {
        n - (k - n + 2)
    } else {
        0
    };
    assert(rel(x[at], y[at]));
}

/// Signals that are related so that their magnitudes are the same have the same mel spectrogram: it
/// does not matter if every sign is changed.
pub proof fn law_signals_with_the_same_magnitudes_have_the_same_spectrogram<
    S,
    R,
    A: Fn(S, S) -> S,
    M: Fn(S, S) -> S,
    P: Fn(Vec<S>) -> Vec<S>,
    L: Fn(S) -> R,
>(
    plus: A,
    times: M,
    magnitude: P,
    log: L,
    zero: S,
    banks: Seq<Vec<S>>,
    window: Seq<S>,
    of_samples: spec_fn(S, S) -> bool,
    x: Seq<S>,
    rows: Seq<Vec<R>>,
    y: Seq<S>,
    others: Seq<Vec<R>>,
    t: int,
    m: int,
)
    requires
        keeps_relations(plus, times, magnitude, zero, of_samples, same()),
        has_one_result(log),
        are_related(x, y, of_samples),
        are_mels(plus, times, magnitude, log, zero, banks, window, x, rows),
        are_mels(plus, times, magnitude, log, zero, banks, window, y, others),
        0 <= t < mel_frames(x.len()),
        0 <= m < N_MELS,
    ensures
        rows[m]@[t] == others[m]@[t],
{
    law_related_signals_have_related_energies(
        plus,
        times,
        magnitude,
        log,
        zero,
        banks,
        window,
        of_samples,
        same(),
        x,
        rows,
        y,
        others,
        t,
        m,
    );
    lemma_same_columns::<S, R, L>(log, seq![rows[m]@[t]], seq![others[m]@[t]]);
    assert(seq![rows[m]@[t]][0] == seq![others[m]@[t]][0]);
}

/// Every value of a mel spectrogram is such as every logarithm is: above the floor, where there is
/// one.
pub proof fn law_values_are_bounded_as_logs_are<
    S,
    R,
    A: Fn(S, S) -> S,
    M: Fn(S, S) -> S,
    P: Fn(Vec<S>) -> Vec<S>,
    L: Fn(S) -> R,
>(
    plus: A,
    times: M,
    magnitude: P,
    log: L,
    zero: S,
    banks: Seq<Vec<S>>,
    window: Seq<S>,
    bound: spec_fn(R) -> bool,
    x: Seq<S>,
    rows: Seq<Vec<R>>,
    t: int,
    m: int,
)
    requires
        bounds_logs(log, bound),
        are_mels(plus, times, magnitude, log, zero, banks, window, x, rows),
        0 <= t < mel_frames(x.len()),
        0 <= m < N_MELS,
    ensures
        bound(rows[m]@[t]),
{
    let u = padded(x).subrange(t * HOP, t * HOP + N_FFT);
    let a = column_of(rows, t);
    assert(is_mel(plus, times, magnitude, log, zero, banks, window, u, a));
    let (v, p) = choose|windowed: Vec<S>, spectrum: Vec<S>|
        is_zip(times, u, window, windowed@) && #[trigger] call_ensures(magnitude, (windowed,), spectrum)
            && are_filtered(plus, times, log, zero, banks, spectrum@, a);
    assert(is_filtered(plus, times, log, zero, banks[m]@, p@, a[m]));
}

/// A signal has one frame for every whole hop that it is long.
pub proof fn law_one_frame_per_hop(len: nat)
    ensures
        mel_frames(len) == len / HOP as nat,
{
}

/// The default vocoder makes of the mel spectrogram of a signal a waveform of its length, less what
/// is over the last whole hop.
pub proof fn law_vocoder_restores_the_length(cfg: BigVganConfig, len: nat)
    requires
        cfg.is_22khz_80band_256x(),
        512 <= len,
        2 * len + 30 <= usize::MAX,
    ensures
        cfg.fits(seq![1usize, 80usize, mel_frames(len) as usize]),
        cfg.length(mel_frames(len) as int, cfg.stages()) == len - len % HOP as nat,
{
    law_one_frame_per_hop(len);
    law_default_generator(cfg, 1, mel_frames(len) as usize);
}

} // verus!
