//! Log mel filterbanks in the convention of Kaldi, for signals at 16 kHz.
//!
//! Frames of 25 ms every 10 ms that lie wholly within the signal; from each the mean is
//! subtracted, a pre-emphasis and a window are applied, and the power spectrum of the result,
//! zero-padded to a power of two, is weighed by 80 filters.

use crate::campplus::NUM_MEL_BINS;
use crate::signal::{
    are_related, dot, frame_count, frames_in, has_one_result, has_one_result_of_list, has_one_result_of_two, is_dot,
    is_sum, keeps_relation, keeps_relation_of_two, law_frames_are_those_that_fit, law_one_dot, law_one_sum,
    law_related_dots, law_related_sums, same, sum, window_of,
};
use vstd::prelude::*;

verus! {

/// Samples of a frame: 25 ms.
pub const FRAME_LENGTH: usize = 400;

/// Samples from one frame to the next: 10 ms.
pub const FRAME_SHIFT: usize = 160;

/// Samples of the transform: the next power of two.
pub const PADDED_WINDOW_SIZE: usize = 512;

/// Bins of the power spectrum.
pub const SPECTRUM_BINS: usize = 257;

/// Whether `centred` can be `frame` less its mean.
pub open spec fn is_centred<S, A: Fn(S, S) -> S, B: Fn(S, S) -> S, V: Fn(S) -> S>(
    plus: A,
    minus: B,
    average: V,
    zero: S,
    frame: Seq<S>,
    centred: Seq<S>,
) -> bool {
    exists|total: S, mean: S| #[trigger]
        is_sum(plus, zero, frame, total) && #[trigger] call_ensures(average, (total,), mean) && is_less(
            minus,
            frame,
            mean,
            centred,
        )
}

/// Whether `less` can be `frame` with `mean` subtracted from every item.
pub open spec fn is_less<S, B: Fn(S, S) -> S>(minus: B, frame: Seq<S>, mean: S, less: Seq<S>) -> bool {
    &&& less.len() == frame.len()
    &&& forall|i: int| 0 <= i < frame.len() ==> call_ensures(minus, (frame[i], mean), #[trigger] less[i])
}

/// Whether `r` can be the pre-emphasis of `frame`: every item with the one before it taken off,
/// the first with itself.
pub open spec fn is_emphasised<S, E: Fn(S, S) -> S>(emphasise: E, frame: Seq<S>, r: Seq<S>) -> bool {
    &&& r.len() == frame.len()
    &&& forall|i: int|
        0 <= i < frame.len() ==> call_ensures(
            emphasise,
            (frame[i], if i == 0 { frame[0] } else { frame[i - 1] }),
            #[trigger] r[i],
        )
}

/// Whether `r` can be `frame` times the window, continued by zeros to `len` items.
pub open spec fn is_windowed<S, M: Fn(S, S) -> S>(
    times: M,
    zero: S,
    window: Seq<S>,
    frame: Seq<S>,
    len: nat,
    r: Seq<S>,
) -> bool {
    &&& r.len() == len
    &&& forall|i: int| 0 <= i < frame.len() ==> call_ensures(times, (frame[i], window[i]), #[trigger] r[i])
    &&& forall|i: int| frame.len() <= i < len ==> #[trigger] r[i] == zero
}

/// Whether `r` can be what the filter `bank` gives on a power spectrum.
pub open spec fn is_filtered<S, R, A: Fn(S, S) -> S, M: Fn(S, S) -> S, L: Fn(S) -> R>(
    plus: A,
    times: M,
    log: L,
    zero: S,
    bank: Seq<S>,
    power: Seq<S>,
    r: R,
) -> bool {
    exists|energy: S| #[trigger] is_dot(plus, times, zero, bank, power, energy) && call_ensures(log, (energy,), r)
}

/// Whether `row` can be what the filters give on a power spectrum.
pub open spec fn are_filtered<S, R, A: Fn(S, S) -> S, M: Fn(S, S) -> S, L: Fn(S) -> R>(
    plus: A,
    times: M,
    log: L,
    zero: S,
    banks: Seq<Vec<S>>,
    power: Seq<S>,
    row: Seq<R>,
) -> bool {
    &&& row.len() == banks.len()
    &&& forall|k: int|
        0 <= k < row.len() ==> is_filtered(plus, times, log, zero, banks[k]@, power, #[trigger] row[k])
}

/// What the filters give on a power spectrum: the logarithm of every filter's energy.
pub fn filter<S: Copy, R, A: Fn(S, S) -> S, M: Fn(S, S) -> S, L: Fn(S) -> R>(
    plus: &A,
    times: &M,
    log: &L,
    zero: S,
    banks: &Vec<Vec<S>>,
    power: &Vec<S>,
) -> (row: Vec<R>)
    requires
        forall|k: int| 0 <= k < banks@.len() ==> (#[trigger] banks@[k])@.len() == power@.len(),
        forall|x: S, y: S| call_requires(*plus, (x, y)),
        forall|x: S, y: S| call_requires(*times, (x, y)),
        forall|x: S| call_requires(*log, (x,)),
    ensures
        are_filtered(*plus, *times, *log, zero, banks@, power@, row@),
{
    let mut row: Vec<R> = Vec::new();
    let mut k: usize = 0;
    while k < banks.len()
        invariant
            forall|k: int| 0 <= k < banks@.len() ==> (#[trigger] banks@[k])@.len() == power@.len(),
            forall|x: S, y: S| call_requires(*plus, (x, y)),
            forall|x: S, y: S| call_requires(*times, (x, y)),
            forall|x: S| call_requires(*log, (x,)),
            k <= banks@.len(),
            row@.len() == k,
            forall|j: int|
                0 <= j < k ==> is_filtered(*plus, *times, *log, zero, banks@[j]@, power@, #[trigger] row@[j]),
        decreases banks@.len() - k,
    {
        let energy = dot(plus, times, zero, &banks[k], power);
        let r = log(energy);
        assert(is_filtered(*plus, *times, *log, zero, banks@[k as int]@, power@, r));
        row.push(r);
        k += 1;
    }
    row
}

/// Makes filterbanks of a signal: holds the filters and the window.
pub struct FbankExtractor<S: Copy> {
    banks: Vec<Vec<S>>,
    window: Vec<S>,
}

impl<S: Copy> FbankExtractor<S> {
    /// The filters: the weight of every bin of the power spectrum.
    pub closed spec fn filters(self) -> Seq<Vec<S>> {
        self.banks@
    }

    /// The window of a frame.
    pub closed spec fn weights(self) -> Seq<S> {
        self.window@
    }

    #[verifier::type_invariant]
    spec fn wf(self) -> bool {
        &&& self.banks@.len() == NUM_MEL_BINS
        &&& forall|k: int| 0 <= k < self.banks@.len() ==> (#[trigger] self.banks@[k])@.len() == SPECTRUM_BINS
        &&& self.window@.len() == FRAME_LENGTH
    }

    /// An extractor with the given filters and window.
    pub fn new(banks: Vec<Vec<S>>, window: Vec<S>) -> (r: Self)
        requires
            banks@.len() == NUM_MEL_BINS,
            forall|k: int| 0 <= k < banks@.len() ==> (#[trigger] banks@[k])@.len() == SPECTRUM_BINS,
            window@.len() == FRAME_LENGTH,
        ensures
            r.filters() == banks@,
            r.weights() == window@,
    {
        FbankExtractor { banks, window }
    }

    /// The filterbank of every frame of `samples`. The functions are the arithmetic: `average`
    /// divides a sum by the samples of a frame, `emphasise` takes off a sample what is left of
    /// the one before it, `power` is the power spectrum, `log` the logarithm of an energy.
    pub fn extract<
        R,
        A: Fn(S, S) -> S,
        B: Fn(S, S) -> S,
        M: Fn(S, S) -> S,
        V: Fn(S) -> S,
        E: Fn(S, S) -> S,
        P: Fn(Vec<S>) -> Vec<S>,
        L: Fn(S) -> R,
    >(
        &self,
        plus: &A,
        minus: &B,
        times: &M,
        average: &V,
        emphasise: &E,
        power: &P,
        log: &L,
        zero: S,
        samples: &Vec<S>,
    ) -> (rows: Vec<Vec<R>>)
        requires
            forall|x: S, y: S| call_requires(*plus, (x, y)),
            forall|x: S, y: S| call_requires(*minus, (x, y)),
            forall|x: S, y: S| call_requires(*times, (x, y)),
            forall|x: S| call_requires(*average, (x,)),
            forall|x: S, y: S| call_requires(*emphasise, (x, y)),
            forall|v: Vec<S>| v@.len() == PADDED_WINDOW_SIZE ==> #[trigger] call_requires(*power, (v,)),
            forall|v: Vec<S>, w: Vec<S>|
                v@.len() == PADDED_WINDOW_SIZE && #[trigger] call_ensures(*power, (v,), w) ==> w@.len()
                    == SPECTRUM_BINS,
            forall|x: S| call_requires(*log, (x,)),
        ensures
            are_fbanks(
                *plus,
                *minus,
                *times,
                *average,
                *emphasise,
                *power,
                *log,
                zero,
                self.filters(),
                self.weights(),
                samples@,
                rows@,
            ),
            self.weights().len() == FRAME_LENGTH,
    {
        proof {
            use_type_invariant(self);
        }
        let n = samples.len();
        let m = frames_in(n, FRAME_LENGTH, FRAME_SHIFT);
        let mut rows: Vec<Vec<R>> = Vec::new();
        let mut t: usize = 0;
        while t < m
            invariant
                forall|x: S, y: S| call_requires(*plus, (x, y)),
                forall|x: S, y: S| call_requires(*minus, (x, y)),
                forall|x: S, y: S| call_requires(*times, (x, y)),
                forall|x: S| call_requires(*average, (x,)),
                forall|x: S, y: S| call_requires(*emphasise, (x, y)),
                forall|v: Vec<S>| v@.len() == PADDED_WINDOW_SIZE ==> #[trigger] call_requires(*power, (v,)),
                forall|v: Vec<S>, w: Vec<S>|
                    v@.len() == PADDED_WINDOW_SIZE && #[trigger] call_ensures(*power, (v,), w) ==> w@.len()
                        == SPECTRUM_BINS,
                forall|x: S| call_requires(*log, (x,)),
                n == samples@.len(),
                m == frame_count(n as nat, FRAME_LENGTH as nat, FRAME_SHIFT as nat),
                t <= m,
                rows@.len() == t,
                forall|k: int|
                    0 <= k < t ==> is_fbank(
                        *plus,
                        *minus,
                        *times,
                        *average,
                        *emphasise,
                        *power,
                        *log,
                        zero,
                        self.filters(),
                        self.weights(),
                        samples@.subrange(k * FRAME_SHIFT, k * FRAME_SHIFT + FRAME_LENGTH),
                        (#[trigger] rows@[k])@,
                    ),
            decreases m - t,
        {
            proof {
                law_frames_are_those_that_fit(n as nat, FRAME_LENGTH as nat, FRAME_SHIFT as nat, t as nat);
            }
            let frame = window_of(samples, t * FRAME_SHIFT, FRAME_LENGTH);
            let row = self.row(plus, minus, times, average, emphasise, power, log, zero, &frame);
            rows.push(row);
            t += 1;
        }
        rows
    }

    /// The filterbank of one frame.
    fn row<
        R,
        A: Fn(S, S) -> S,
        B: Fn(S, S) -> S,
        M: Fn(S, S) -> S,
        V: Fn(S) -> S,
        E: Fn(S, S) -> S,
        P: Fn(Vec<S>) -> Vec<S>,
        L: Fn(S) -> R,
    >(
        &self,
        plus: &A,
        minus: &B,
        times: &M,
        average: &V,
        emphasise: &E,
        power: &P,
        log: &L,
        zero: S,
        frame: &Vec<S>,
    ) -> (row: Vec<R>)
        requires
            forall|x: S, y: S| call_requires(*plus, (x, y)),
            forall|x: S, y: S| call_requires(*minus, (x, y)),
            forall|x: S, y: S| call_requires(*times, (x, y)),
            forall|x: S| call_requires(*average, (x,)),
            forall|x: S, y: S| call_requires(*emphasise, (x, y)),
            forall|v: Vec<S>| v@.len() == PADDED_WINDOW_SIZE ==> #[trigger] call_requires(*power, (v,)),
            forall|v: Vec<S>, w: Vec<S>|
                v@.len() == PADDED_WINDOW_SIZE && #[trigger] call_ensures(*power, (v,), w) ==> w@.len()
                    == SPECTRUM_BINS,
            forall|x: S| call_requires(*log, (x,)),
            frame@.len() == FRAME_LENGTH,
        ensures
            is_fbank(
                *plus,
                *minus,
                *times,
                *average,
                *emphasise,
                *power,
                *log,
                zero,
                self.filters(),
                self.weights(),
                frame@,
                row@,
            ),
    {
        proof {
            use_type_invariant(self);
        }
        let centred = centre(plus, minus, average, zero, frame);
        let emphasised = preemphasis(emphasise, &centred);
        let padded = window_and_pad(times, zero, &self.window, &emphasised, PADDED_WINDOW_SIZE);
        let ghost buf = padded;
        let spectrum = power(padded);
        let row = filter(plus, times, log, zero, &self.banks, &spectrum);
        assert(call_ensures(*power, (buf,), spectrum));
        row
    }
}

/// Whether `row` can be the filterbank of a frame.
pub open spec fn is_fbank<
    S,
    R,
    A: Fn(S, S) -> S,
    B: Fn(S, S) -> S,
    M: Fn(S, S) -> S,
    V: Fn(S) -> S,
    E: Fn(S, S) -> S,
    P: Fn(Vec<S>) -> Vec<S>,
    L: Fn(S) -> R,
>(
    plus: A,
    minus: B,
    times: M,
    average: V,
    emphasise: E,
    power: P,
    log: L,
    zero: S,
    banks: Seq<Vec<S>>,
    window: Seq<S>,
    frame: Seq<S>,
    row: Seq<R>,
) -> bool {
    exists|centred: Seq<S>, emphasised: Seq<S>, padded: Vec<S>, spectrum: Vec<S>| #[trigger]
        is_centred(plus, minus, average, zero, frame, centred) && #[trigger] is_emphasised(
            emphasise,
            centred,
            emphasised,
        ) && is_windowed(times, zero, window, emphasised, PADDED_WINDOW_SIZE as nat, padded@)
            && #[trigger] call_ensures(power, (padded,), spectrum) && are_filtered(
            plus,
            times,
            log,
            zero,
            banks,
            spectrum@,
            row,
        )
}

/// Whether `rows` can be the filterbanks of `samples`: one for every frame that lies wholly within
/// them.
pub open spec fn are_fbanks<
    S,
    R,
    A: Fn(S, S) -> S,
    B: Fn(S, S) -> S,
    M: Fn(S, S) -> S,
    V: Fn(S) -> S,
    E: Fn(S, S) -> S,
    P: Fn(Vec<S>) -> Vec<S>,
    L: Fn(S) -> R,
>(
    plus: A,
    minus: B,
    times: M,
    average: V,
    emphasise: E,
    power: P,
    log: L,
    zero: S,
    banks: Seq<Vec<S>>,
    window: Seq<S>,
    samples: Seq<S>,
    rows: Seq<Vec<R>>,
) -> bool {
    &&& rows.len() == frame_count(samples.len(), FRAME_LENGTH as nat, FRAME_SHIFT as nat)
    &&& forall|t: int|
        0 <= t < rows.len() ==> is_fbank(
            plus,
            minus,
            times,
            average,
            emphasise,
            power,
            log,
            zero,
            banks,
            window,
            samples.subrange(t * FRAME_SHIFT, t * FRAME_SHIFT + FRAME_LENGTH),
            (#[trigger] rows[t])@,
        )
}

/// Whether every function of the arithmetic has one result for its operands.
pub open spec fn is_determined<
    S,
    R,
    A: Fn(S, S) -> S,
    B: Fn(S, S) -> S,
    M: Fn(S, S) -> S,
    V: Fn(S) -> S,
    E: Fn(S, S) -> S,
    P: Fn(Vec<S>) -> Vec<S>,
    L: Fn(S) -> R,
>(
    plus: A,
    minus: B,
    times: M,
    average: V,
    emphasise: E,
    power: P,
    log: L,
) -> bool {
    &&& has_one_result_of_two(plus)
    &&& has_one_result_of_two(minus)
    &&& has_one_result_of_two(times)
    &&& has_one_result(average)
    &&& has_one_result_of_two(emphasise)
    &&& has_one_result_of_list(power)
    &&& has_one_result(log)
}

/// A mean with one value gives one centred frame.
proof fn lemma_one_centred<S, A: Fn(S, S) -> S, B: Fn(S, S) -> S, V: Fn(S) -> S>(
    plus: A,
    minus: B,
    average: V,
    zero: S,
    frame: Seq<S>,
    a: Seq<S>,
    b: Seq<S>,
)
    requires
        has_one_result_of_two(plus),
        has_one_result_of_two(minus),
        has_one_result(average),
        is_centred(plus, minus, average, zero, frame, a),
        is_centred(plus, minus, average, zero, frame, b),
    ensures
        a == b,
{
    let (total, mean) = choose|total: S, mean: S| #[trigger]
        is_sum(plus, zero, frame, total) && #[trigger] call_ensures(average, (total,), mean) && is_less(
            minus,
            frame,
            mean,
            a,
        );
    let (other, again) = choose|total: S, mean: S| #[trigger]
        is_sum(plus, zero, frame, total) && #[trigger] call_ensures(average, (total,), mean) && is_less(
            minus,
            frame,
            mean,
            b,
        );
    law_one_sum(plus, zero, frame, total, other);
    assert(mean == again);
    assert forall|i: int| 0 <= i < frame.len() implies a[i] == b[i] by {
        assert(call_ensures(minus, (frame[i], mean), a[i]));
        assert(call_ensures(minus, (frame[i], mean), b[i]));
    }
    assert(a == b);
}

/// The filterbank of a frame is determined by the frame, if the arithmetic is by its operands.
pub proof fn law_frame_determines_its_row<
    S,
    R,
    A: Fn(S, S) -> S,
    B: Fn(S, S) -> S,
    M: Fn(S, S) -> S,
    V: Fn(S) -> S,
    E: Fn(S, S) -> S,
    P: Fn(Vec<S>) -> Vec<S>,
    L: Fn(S) -> R,
>(
    plus: A,
    minus: B,
    times: M,
    average: V,
    emphasise: E,
    power: P,
    log: L,
    zero: S,
    banks: Seq<Vec<S>>,
    window: Seq<S>,
    frame: Seq<S>,
    a: Seq<R>,
    b: Seq<R>,
)
    requires
        is_determined(plus, minus, times, average, emphasise, power, log),
        frame.len() == window.len() <= PADDED_WINDOW_SIZE,
        is_fbank(plus, minus, times, average, emphasise, power, log, zero, banks, window, frame, a),
        is_fbank(plus, minus, times, average, emphasise, power, log, zero, banks, window, frame, b),
    ensures
        a == b,
{
    let (centred, emphasised, padded, spectrum) = choose|
        centred: Seq<S>,
        emphasised: Seq<S>,
        padded: Vec<S>,
        spectrum: Vec<S>,
    | #[trigger]
        is_centred(plus, minus, average, zero, frame, centred) && #[trigger] is_emphasised(
            emphasise,
            centred,
            emphasised,
        ) && is_windowed(times, zero, window, emphasised, PADDED_WINDOW_SIZE as nat, padded@)
            && #[trigger] call_ensures(power, (padded,), spectrum) && are_filtered(
            plus,
            times,
            log,
            zero,
            banks,
            spectrum@,
            a,
        );
    let (centred2, emphasised2, padded2, spectrum2) = choose|
        centred: Seq<S>,
        emphasised: Seq<S>,
        padded: Vec<S>,
        spectrum: Vec<S>,
    | #[trigger]
        is_centred(plus, minus, average, zero, frame, centred) && #[trigger] is_emphasised(
            emphasise,
            centred,
            emphasised,
        ) && is_windowed(times, zero, window, emphasised, PADDED_WINDOW_SIZE as nat, padded@)
            && #[trigger] call_ensures(power, (padded,), spectrum) && are_filtered(
            plus,
            times,
            log,
            zero,
            banks,
            spectrum@,
            b,
        );
    lemma_one_centred(plus, minus, average, zero, frame, centred, centred2);
    assert forall|i: int| 0 <= i < emphasised.len() implies emphasised[i] == emphasised2[i] by {
        let before = if i == 0 { centred[0] } else { centred[i - 1] };
        assert(call_ensures(emphasise, (centred[i], before), emphasised[i]));
        assert(call_ensures(emphasise, (centred[i], before), emphasised2[i]));
    }
    assert(emphasised == emphasised2);
    assert forall|i: int| 0 <= i < padded@.len() implies padded@[i] == padded2@[i] by {
        if i < emphasised.len() {
            assert(call_ensures(times, (emphasised[i], window[i]), padded@[i]));
            assert(call_ensures(times, (emphasised[i], window[i]), padded2@[i]));
        } else {
            assert(padded@[i] == zero && padded2@[i] == zero);
        }
    }
    assert(padded@ == padded2@);
    assert(spectrum@ == spectrum2@);
    assert forall|k: int| 0 <= k < a.len() implies a[k] == b[k] by {
        assert(is_filtered(plus, times, log, zero, banks[k]@, spectrum@, a[k]));
        assert(is_filtered(plus, times, log, zero, banks[k]@, spectrum@, b[k]));
        let e = choose|energy: S| #[trigger]
            is_dot(plus, times, zero, banks[k]@, spectrum@, energy) && call_ensures(log, (energy,), a[k]);
        let f = choose|energy: S| #[trigger]
            is_dot(plus, times, zero, banks[k]@, spectrum@, energy) && call_ensures(log, (energy,), b[k]);
        law_one_dot(plus, times, zero, banks[k]@, spectrum@, e, f);
    }
    assert(a == b);
}

/// A row depends on the samples of its own frame only: it is the one row of these samples.
pub proof fn law_row_depends_on_its_own_samples<
    S,
    R,
    A: Fn(S, S) -> S,
    B: Fn(S, S) -> S,
    M: Fn(S, S) -> S,
    V: Fn(S) -> S,
    E: Fn(S, S) -> S,
    P: Fn(Vec<S>) -> Vec<S>,
    L: Fn(S) -> R,
>(
    plus: A,
    minus: B,
    times: M,
    average: V,
    emphasise: E,
    power: P,
    log: L,
    zero: S,
    banks: Seq<Vec<S>>,
    window: Seq<S>,
    samples: Seq<S>,
    rows: Seq<Vec<R>>,
    t: int,
    alone: Seq<Vec<R>>,
)
    requires
        is_determined(plus, minus, times, average, emphasise, power, log),
        window.len() == FRAME_LENGTH,
        are_fbanks(plus, minus, times, average, emphasise, power, log, zero, banks, window, samples, rows),
        0 <= t < rows.len(),
        are_fbanks(
            plus,
            minus,
            times,
            average,
            emphasise,
            power,
            log,
            zero,
            banks,
            window,
            samples.subrange(t * FRAME_SHIFT, t * FRAME_SHIFT + FRAME_LENGTH),
            alone,
        ),
    ensures
        alone.len() == 1,
        alone[0]@ == rows[t]@,
{
    law_frames_are_those_that_fit(samples.len(), FRAME_LENGTH as nat, FRAME_SHIFT as nat, t as nat);
    let own = samples.subrange(t * FRAME_SHIFT, t * FRAME_SHIFT + FRAME_LENGTH);
    assert(own.len() == FRAME_LENGTH);
    assert(own.subrange(0 * FRAME_SHIFT, 0 * FRAME_SHIFT + FRAME_LENGTH) == own);
    assert(is_fbank(plus, minus, times, average, emphasise, power, log, zero, banks, window, own, rows[t]@));
    assert(is_fbank(plus, minus, times, average, emphasise, power, log, zero, banks, window, own, alone[0]@));
    law_frame_determines_its_row(
        plus,
        minus,
        times,
        average,
        emphasise,
        power,
        log,
        zero,
        banks,
        window,
        own,
        rows[t]@,
        alone[0]@,
    );
}

/// Samples that are put after a signal keep the rows of the signal; where they complete no further
/// frame, they have no effect.
pub proof fn law_later_samples_keep_earlier_rows<
    S,
    R,
    A: Fn(S, S) -> S,
    B: Fn(S, S) -> S,
    M: Fn(S, S) -> S,
    V: Fn(S) -> S,
    E: Fn(S, S) -> S,
    P: Fn(Vec<S>) -> Vec<S>,
    L: Fn(S) -> R,
>(
    plus: A,
    minus: B,
    times: M,
    average: V,
    emphasise: E,
    power: P,
    log: L,
    zero: S,
    banks: Seq<Vec<S>>,
    window: Seq<S>,
    samples: Seq<S>,
    more: Seq<S>,
    rows: Seq<Vec<R>>,
    longer: Seq<Vec<R>>,
)
    requires
        is_determined(plus, minus, times, average, emphasise, power, log),
        window.len() == FRAME_LENGTH,
        are_fbanks(plus, minus, times, average, emphasise, power, log, zero, banks, window, samples, rows),
        are_fbanks(plus, minus, times, average, emphasise, power, log, zero, banks, window, samples + more, longer),
    ensures
        rows.len() <= longer.len(),
        forall|t: int| 0 <= t < rows.len() ==> (#[trigger] longer[t])@ == rows[t]@,
        samples.len() + more.len() < rows.len() * FRAME_SHIFT + FRAME_LENGTH ==> longer.len() == rows.len(),
{
    let (size, hop) = (FRAME_LENGTH as nat, FRAME_SHIFT as nat);
    let whole = samples + more;
    law_frames_are_those_that_fit(whole.len(), size, hop, rows.len());
    if rows.len() > 0 {
        let last = (rows.len() - 1) as nat;
        law_frames_are_those_that_fit(samples.len(), size, hop, last);
        law_frames_are_those_that_fit(whole.len(), size, hop, last);
    }
    assert forall|t: int| 0 <= t < rows.len() implies (#[trigger] longer[t])@ == rows[t]@ by {
        law_frames_are_those_that_fit(samples.len(), size, hop, t as nat);
        let frame = samples.subrange(t * FRAME_SHIFT, t * FRAME_SHIFT + FRAME_LENGTH);
        assert(whole.subrange(t * FRAME_SHIFT, t * FRAME_SHIFT + FRAME_LENGTH) == frame);
        assert(is_fbank(plus, minus, times, average, emphasise, power, log, zero, banks, window, frame, rows[t]@));
        assert(is_fbank(plus, minus, times, average, emphasise, power, log, zero, banks, window, frame, longer[t]@));
        law_frame_determines_its_row(
            plus,
            minus,
            times,
            average,
            emphasise,
            power,
            log,
            zero,
            banks,
            window,
            frame,
            rows[t]@,
            longer[t]@,
        );
    }
}

/// Whether the arithmetic gives power spectra related as `of_powers` says on frames whose samples are
/// related as `of_samples` says, and energies related like the spectra. Changing every sign is such a
/// relation of samples, and leaves powers as they are; doubling is another, and makes powers four
/// times as large.
pub open spec fn keeps_relations<
    S,
    A: Fn(S, S) -> S,
    B: Fn(S, S) -> S,
    M: Fn(S, S) -> S,
    V: Fn(S) -> S,
    E: Fn(S, S) -> S,
    P: Fn(Vec<S>) -> Vec<S>,
>(
    plus: A,
    minus: B,
    times: M,
    average: V,
    emphasise: E,
    power: P,
    zero: S,
    of_samples: spec_fn(S, S) -> bool,
    of_powers: spec_fn(S, S) -> bool,
) -> bool {
    &&& of_samples(zero, zero)
    &&& keeps_relation_of_two(plus, of_samples, of_samples, of_samples)
    &&& keeps_relation_of_two(minus, of_samples, of_samples, of_samples)
    &&& keeps_relation(average, of_samples)
    &&& keeps_relation_of_two(emphasise, of_samples, of_samples, of_samples)
    &&& keeps_relation_of_two(times, of_samples, same(), of_samples)
    &&& forall|v: Vec<S>, w: Vec<S>, p: Vec<S>, q: Vec<S>|
        are_related(v@, w@, of_samples) && #[trigger] call_ensures(power, (v,), p) && #[trigger] call_ensures(
            power,
            (w,),
            q,
        ) ==> are_related(p@, q@, of_powers)
    &&& of_powers(zero, zero)
    &&& keeps_relation_of_two(plus, of_powers, of_powers, of_powers)
    &&& keeps_relation_of_two(times, same(), of_powers, of_powers)
}

/// Whether `a` and `b` can be the logarithms of related energies.
pub open spec fn are_logs_of_related<S, R, L: Fn(S) -> R>(log: L, rel: spec_fn(S, S) -> bool, a: R, b: R) -> bool {
    exists|e: S, f: S| rel(e, f) && #[trigger] call_ensures(log, (e,), a) && #[trigger] call_ensures(log, (f,), b)
}

/// Filters give related energies on related spectra, if the arithmetic keeps the relation.
pub proof fn law_related_spectra_have_related_energies<S, R, A: Fn(S, S) -> S, M: Fn(S, S) -> S, L: Fn(S) -> R>(
    plus: A,
    times: M,
    log: L,
    zero: S,
    banks: Seq<Vec<S>>,
    rel: spec_fn(S, S) -> bool,
    x: Seq<S>,
    y: Seq<S>,
    a: Seq<R>,
    b: Seq<R>,
)
    requires
        rel(zero, zero),
        keeps_relation_of_two(plus, rel, rel, rel),
        keeps_relation_of_two(times, same(), rel, rel),
        are_related(x, y, rel),
        are_filtered(plus, times, log, zero, banks, x, a),
        are_filtered(plus, times, log, zero, banks, y, b),
    ensures
        a.len() == b.len(),
        forall|i: int| 0 <= i < a.len() ==> are_logs_of_related(log, rel, #[trigger] a[i], b[i]),
{
    assert forall|i: int| 0 <= i < a.len() implies are_logs_of_related(log, rel, #[trigger] a[i], b[i]) by {
        assert(is_filtered(plus, times, log, zero, banks[i]@, x, a[i]));
        assert(is_filtered(plus, times, log, zero, banks[i]@, y, b[i]));
        let e = choose|energy: S| #[trigger]
            is_dot(plus, times, zero, banks[i]@, x, energy) && call_ensures(log, (energy,), a[i]);
        let f = choose|energy: S| #[trigger]
            is_dot(plus, times, zero, banks[i]@, y, energy) && call_ensures(log, (energy,), b[i]);
        law_related_dots(plus, times, zero, rel, banks[i]@, x, y, e, f);
    }
}

/// Whether the logarithms of related energies are related as `of_values` says.
pub open spec fn relates_logs<S, R, L: Fn(S) -> R>(
    log: L,
    of_powers: spec_fn(S, S) -> bool,
    of_values: spec_fn(R, R) -> bool,
) -> bool {
    forall|e: S, f: S, a: R, b: R|
        of_powers(e, f) && #[trigger] call_ensures(log, (e,), a) && #[trigger] call_ensures(log, (f,), b) ==> of_values(
            a,
            b,
        )
}

/// Whether every logarithm is such as `bound` says.
pub open spec fn bounds_logs<S, R, L: Fn(S) -> R>(log: L, bound: spec_fn(R) -> bool) -> bool {
    forall|e: S, a: R| #[trigger] call_ensures(log, (e,), a) ==> bound(a)
}

/// Frames with related samples are related once they are centred.
proof fn lemma_related_centred<S, A: Fn(S, S) -> S, B: Fn(S, S) -> S, V: Fn(S) -> S>(
    plus: A,
    minus: B,
    average: V,
    zero: S,
    rel: spec_fn(S, S) -> bool,
    x: Seq<S>,
    y: Seq<S>,
    a: Seq<S>,
    b: Seq<S>,
)
    requires
        rel(zero, zero),
        keeps_relation_of_two(plus, rel, rel, rel),
        keeps_relation_of_two(minus, rel, rel, rel),
        keeps_relation(average, rel),
        are_related(x, y, rel),
        is_centred(plus, minus, average, zero, x, a),
        is_centred(plus, minus, average, zero, y, b),
    ensures
        are_related(a, b, rel),
{
    let (total, mean) = choose|total: S, mean: S| #[trigger]
        is_sum(plus, zero, x, total) && #[trigger] call_ensures(average, (total,), mean) && is_less(minus, x, mean, a);
    let (other, again) = choose|total: S, mean: S| #[trigger]
        is_sum(plus, zero, y, total) && #[trigger] call_ensures(average, (total,), mean) && is_less(minus, y, mean, b);
    law_related_sums(plus, zero, rel, x, y, total, other);
    assert(rel(mean, again));
    assert forall|i: int| 0 <= i < a.len() implies rel(a[i], b[i]) by {
        assert(rel(x[i], y[i]));
        assert(call_ensures(minus, (x[i], mean), a[i]));
        assert(call_ensures(minus, (y[i], again), b[i]));
    }
}

/// Frames with related samples have related energies.
proof fn lemma_related_rows<
    S,
    R,
    A: Fn(S, S) -> S,
    B: Fn(S, S) -> S,
    M: Fn(S, S) -> S,
    V: Fn(S) -> S,
    E: Fn(S, S) -> S,
    P: Fn(Vec<S>) -> Vec<S>,
    L: Fn(S) -> R,
>(
    plus: A,
    minus: B,
    times: M,
    average: V,
    emphasise: E,
    power: P,
    log: L,
    zero: S,
    banks: Seq<Vec<S>>,
    window: Seq<S>,
    of_samples: spec_fn(S, S) -> bool,
    of_powers: spec_fn(S, S) -> bool,
    x: Seq<S>,
    y: Seq<S>,
    a: Seq<R>,
    b: Seq<R>,
)
    requires
        keeps_relations(plus, minus, times, average, emphasise, power, zero, of_samples, of_powers),
        are_related(x, y, of_samples),
        x.len() == window.len() <= PADDED_WINDOW_SIZE,
        is_fbank(plus, minus, times, average, emphasise, power, log, zero, banks, window, x, a),
        is_fbank(plus, minus, times, average, emphasise, power, log, zero, banks, window, y, b),
    ensures
        a.len() == b.len(),
        forall|i: int| 0 <= i < a.len() ==> are_logs_of_related(log, of_powers, #[trigger] a[i], b[i]),
{
    let (centred, emphasised, padded, spectrum) = choose|
        centred: Seq<S>,
        emphasised: Seq<S>,
        padded: Vec<S>,
        spectrum: Vec<S>,
    | #[trigger]
        is_centred(plus, minus, average, zero, x, centred) && #[trigger] is_emphasised(
            emphasise,
            centred,
            emphasised,
        ) && is_windowed(times, zero, window, emphasised, PADDED_WINDOW_SIZE as nat, padded@)
            && #[trigger] call_ensures(power, (padded,), spectrum) && are_filtered(
            plus,
            times,
            log,
            zero,
            banks,
            spectrum@,
            a,
        );
    let (centred2, emphasised2, padded2, spectrum2) = choose|
        centred: Seq<S>,
        emphasised: Seq<S>,
        padded: Vec<S>,
        spectrum: Vec<S>,
    | #[trigger]
        is_centred(plus, minus, average, zero, y, centred) && #[trigger] is_emphasised(
            emphasise,
            centred,
            emphasised,
        ) && is_windowed(times, zero, window, emphasised, PADDED_WINDOW_SIZE as nat, padded@)
            && #[trigger] call_ensures(power, (padded,), spectrum) && are_filtered(
            plus,
            times,
            log,
            zero,
            banks,
            spectrum@,
            b,
        );
    lemma_related_centred(plus, minus, average, zero, of_samples, x, y, centred, centred2);
    assert forall|i: int| 0 <= i < emphasised.len() implies of_samples(emphasised[i], emphasised2[i]) by {
        let before = if i == 0 { centred[0] } else { centred[i - 1] };
        let before2 = if i == 0 { centred2[0] } else { centred2[i - 1] };
        assert(of_samples(before, before2) && of_samples(centred[i], centred2[i]));
        assert(call_ensures(emphasise, (centred[i], before), emphasised[i]));
        assert(call_ensures(emphasise, (centred2[i], before2), emphasised2[i]));
    }
    assert forall|i: int| 0 <= i < padded@.len() implies of_samples(padded@[i], padded2@[i]) by {
        if i < emphasised.len() {
            assert(of_samples(emphasised[i], emphasised2[i]) && same::<S>()(window[i], window[i]));
            assert(call_ensures(times, (emphasised[i], window[i]), padded@[i]));
            assert(call_ensures(times, (emphasised2[i], window[i]), padded2@[i]));
        } else {
            assert(padded@[i] == zero && padded2@[i] == zero);
        }
    }
    assert(are_related(padded@, padded2@, of_samples));
    assert(are_related(spectrum@, spectrum2@, of_powers));
    law_related_spectra_have_related_energies(
        plus,
        times,
        log,
        zero,
        banks,
        of_powers,
        spectrum@,
        spectrum2@,
        a,
        b,
    );
}

/// Signals with related samples have filterbanks of related energies, if the arithmetic keeps the
/// relations: those of a signal that is twice as loud are four times as large.
pub proof fn law_related_signals_have_related_energies<
    S,
    R,
    A: Fn(S, S) -> S,
    B: Fn(S, S) -> S,
    M: Fn(S, S) -> S,
    V: Fn(S) -> S,
    E: Fn(S, S) -> S,
    P: Fn(Vec<S>) -> Vec<S>,
    L: Fn(S) -> R,
>(
    plus: A,
    minus: B,
    times: M,
    average: V,
    emphasise: E,
    power: P,
    log: L,
    zero: S,
    banks: Seq<Vec<S>>,
    window: Seq<S>,
    of_samples: spec_fn(S, S) -> bool,
    of_powers: spec_fn(S, S) -> bool,
    samples: Seq<S>,
    rows: Seq<Vec<R>>,
    other: Seq<S>,
    others: Seq<Vec<R>>,
)
    requires
        keeps_relations(plus, minus, times, average, emphasise, power, zero, of_samples, of_powers),
        are_related(samples, other, of_samples),
        window.len() == FRAME_LENGTH,
        are_fbanks(plus, minus, times, average, emphasise, power, log, zero, banks, window, samples, rows),
        are_fbanks(plus, minus, times, average, emphasise, power, log, zero, banks, window, other, others),
    ensures
        rows.len() == others.len(),
        forall|t: int| 0 <= t < rows.len() ==> (#[trigger] rows[t])@.len() == others[t]@.len(),
        forall|t: int, i: int|
            0 <= t < rows.len() && 0 <= i < rows[t]@.len() ==> are_logs_of_related(
                log,
                of_powers,
                #[trigger] rows[t]@[i],
                others[t]@[i],
            ),
{
    assert forall|t: int| 0 <= t < rows.len() implies (#[trigger] rows[t])@.len() == others[t]@.len() && forall|i: int|
        0 <= i < rows[t]@.len() ==> are_logs_of_related(log, of_powers, #[trigger] rows[t]@[i], others[t]@[i]) by {
        law_frames_are_those_that_fit(samples.len(), FRAME_LENGTH as nat, FRAME_SHIFT as nat, t as nat);
        let x = samples.subrange(t * FRAME_SHIFT, t * FRAME_SHIFT + FRAME_LENGTH);
        let y = other.subrange(t * FRAME_SHIFT, t * FRAME_SHIFT + FRAME_LENGTH);
        assert forall|i: int| 0 <= i < x.len() implies of_samples(x[i], y[i]) by {
            assert(x[i] == samples[t * FRAME_SHIFT + i] && y[i] == other[t * FRAME_SHIFT + i]);
        }
        assert(is_fbank(plus, minus, times, average, emphasise, power, log, zero, banks, window, y, others[t]@));
        lemma_related_rows(
            plus,
            minus,
            times,
            average,
            emphasise,
            power,
            log,
            zero,
            banks,
            window,
            of_samples,
            of_powers,
            x,
            y,
            rows[t]@,
            others[t]@,
        );
    }
}

/// Signals with related samples have filterbanks of related values, if the arithmetic keeps the
/// relations and logarithms do. Where a signal is twice as loud, every value is larger by at most the
/// logarithm of 4, and by just that where no floor is in the way.
pub proof fn law_related_signals_have_related_values<
    S,
    R,
    A: Fn(S, S) -> S,
    B: Fn(S, S) -> S,
    M: Fn(S, S) -> S,
    V: Fn(S) -> S,
    E: Fn(S, S) -> S,
    P: Fn(Vec<S>) -> Vec<S>,
    L: Fn(S) -> R,
>(
    plus: A,
    minus: B,
    times: M,
    average: V,
    emphasise: E,
    power: P,
    log: L,
    zero: S,
    banks: Seq<Vec<S>>,
    window: Seq<S>,
    of_samples: spec_fn(S, S) -> bool,
    of_powers: spec_fn(S, S) -> bool,
    of_values: spec_fn(R, R) -> bool,
    samples: Seq<S>,
    rows: Seq<Vec<R>>,
    other: Seq<S>,
    others: Seq<Vec<R>>,
    t: int,
    i: int,
)
    requires
        keeps_relations(plus, minus, times, average, emphasise, power, zero, of_samples, of_powers),
        relates_logs(log, of_powers, of_values),
        are_related(samples, other, of_samples),
        window.len() == FRAME_LENGTH,
        are_fbanks(plus, minus, times, average, emphasise, power, log, zero, banks, window, samples, rows),
        are_fbanks(plus, minus, times, average, emphasise, power, log, zero, banks, window, other, others),
        0 <= t < rows.len(),
        0 <= i < rows[t]@.len(),
    ensures
        t < others.len(),
        i < others[t]@.len(),
        of_values(rows[t]@[i], others[t]@[i]),
{
    law_related_signals_have_related_energies(
        plus,
        minus,
        times,
        average,
        emphasise,
        power,
        log,
        zero,
        banks,
        window,
        of_samples,
        of_powers,
        samples,
        rows,
        other,
        others,
    );
    assert(are_logs_of_related(log, of_powers, rows[t]@[i], others[t]@[i]));
}

/// Every value of a filterbank is such as every logarithm is: above the floor, where there is one.
pub proof fn law_values_are_bounded_as_logs_are<
    S,
    R,
    A: Fn(S, S) -> S,
    B: Fn(S, S) -> S,
    M: Fn(S, S) -> S,
    V: Fn(S) -> S,
    E: Fn(S, S) -> S,
    P: Fn(Vec<S>) -> Vec<S>,
    L: Fn(S) -> R,
>(
    plus: A,
    minus: B,
    times: M,
    average: V,
    emphasise: E,
    power: P,
    log: L,
    zero: S,
    banks: Seq<Vec<S>>,
    window: Seq<S>,
    bound: spec_fn(R) -> bool,
    samples: Seq<S>,
    rows: Seq<Vec<R>>,
    t: int,
    i: int,
)
    requires
        bounds_logs(log, bound),
        are_fbanks(plus, minus, times, average, emphasise, power, log, zero, banks, window, samples, rows),
        0 <= t < rows.len(),
        0 <= i < rows[t]@.len(),
    ensures
        bound(rows[t]@[i]),
{
    let frame = samples.subrange(t * FRAME_SHIFT, t * FRAME_SHIFT + FRAME_LENGTH);
    let row = rows[t]@;
    assert(is_fbank(plus, minus, times, average, emphasise, power, log, zero, banks, window, frame, row));
    let (centred, emphasised, padded, spectrum) = choose|
        centred: Seq<S>,
        emphasised: Seq<S>,
        padded: Vec<S>,
        spectrum: Vec<S>,
    | #[trigger]
        is_centred(plus, minus, average, zero, frame, centred) && #[trigger] is_emphasised(
            emphasise,
            centred,
            emphasised,
        ) && is_windowed(times, zero, window, emphasised, PADDED_WINDOW_SIZE as nat, padded@)
            && #[trigger] call_ensures(power, (padded,), spectrum) && are_filtered(
            plus,
            times,
            log,
            zero,
            banks,
            spectrum@,
            row,
        );
    assert(is_filtered(plus, times, log, zero, banks[i]@, spectrum@, row[i]));
}

/// Signals that are related so that their power spectra are the same have the same filterbanks: it
/// does not matter if every sign is changed.
pub proof fn law_signals_with_the_same_powers_have_the_same_rows<
    S,
    R,
    A: Fn(S, S) -> S,
    B: Fn(S, S) -> S,
    M: Fn(S, S) -> S,
    V: Fn(S) -> S,
    E: Fn(S, S) -> S,
    P: Fn(Vec<S>) -> Vec<S>,
    L: Fn(S) -> R,
>(
    plus: A,
    minus: B,
    times: M,
    average: V,
    emphasise: E,
    power: P,
    log: L,
    zero: S,
    banks: Seq<Vec<S>>,
    window: Seq<S>,
    of_samples: spec_fn(S, S) -> bool,
    samples: Seq<S>,
    rows: Seq<Vec<R>>,
    other: Seq<S>,
    others: Seq<Vec<R>>,
)
    requires
        keeps_relations(plus, minus, times, average, emphasise, power, zero, of_samples, same()),
        has_one_result(log),
        are_related(samples, other, of_samples),
        window.len() == FRAME_LENGTH,
        are_fbanks(plus, minus, times, average, emphasise, power, log, zero, banks, window, samples, rows),
        are_fbanks(plus, minus, times, average, emphasise, power, log, zero, banks, window, other, others),
    ensures
        rows.len() == others.len(),
        forall|t: int| 0 <= t < rows.len() ==> (#[trigger] rows[t])@ == others[t]@,
{
    law_related_signals_have_related_energies(
        plus,
        minus,
        times,
        average,
        emphasise,
        power,
        log,
        zero,
        banks,
        window,
        of_samples,
        same(),
        samples,
        rows,
        other,
        others,
    );
    assert forall|t: int| 0 <= t < rows.len() implies (#[trigger] rows[t])@ == others[t]@ by {
        assert forall|i: int| 0 <= i < rows[t]@.len() implies rows[t]@[i] == others[t]@[i] by {
            let (a, b) = (rows[t]@[i], others[t]@[i]);
            assert(are_logs_of_related(log, same(), a, b));
            let (e, f) = choose|e: S, f: S|
                same::<S>()(e, f) && #[trigger] call_ensures(log, (e,), a) && #[trigger] call_ensures(log, (f,), b);
            assert(call_ensures(log, (e,), a) && call_ensures(log, (e,), b));
        }
        assert(rows[t]@ =~= others[t]@);
    }
}

/// `frame` less its mean.
fn centre<S: Copy, A: Fn(S, S) -> S, B: Fn(S, S) -> S, V: Fn(S) -> S>(
    plus: &A,
    minus: &B,
    average: &V,
    zero: S,
    frame: &Vec<S>,
) -> (r: Vec<S>)
    requires
        forall|x: S, y: S| call_requires(*plus, (x, y)),
        forall|x: S, y: S| call_requires(*minus, (x, y)),
        forall|x: S| call_requires(*average, (x,)),
    ensures
        is_centred(*plus, *minus, *average, zero, frame@, r@),
        r@.len() == frame@.len(),
{
    let total = sum(plus, zero, frame);
    let mean = average(total);
    let mut r: Vec<S> = Vec::new();
    let mut i: usize = 0;
    while i < frame.len()
        invariant
            forall|x: S, y: S| call_requires(*minus, (x, y)),
            i <= frame@.len(),
            r@.len() == i,
            forall|k: int| 0 <= k < i ==> call_ensures(*minus, (frame@[k], mean), #[trigger] r@[k]),
        decreases frame@.len() - i,
    {
        let v = minus(frame[i], mean);
        r.push(v);
        i += 1;
    }
    assert(is_less(*minus, frame@, mean, r@));
    r
}

/// The pre-emphasis of `frame`.
fn preemphasis<S: Copy, E: Fn(S, S) -> S>(emphasise: &E, frame: &Vec<S>) -> (r: Vec<S>)
    requires
        forall|x: S, y: S| call_requires(*emphasise, (x, y)),
    ensures
        is_emphasised(*emphasise, frame@, r@),
{
    let mut r: Vec<S> = Vec::new();
    let mut i: usize = 0;
    while i < frame.len()
        invariant
            forall|x: S, y: S| call_requires(*emphasise, (x, y)),
            i <= frame@.len(),
            r@.len() == i,
            forall|k: int|
                0 <= k < i ==> call_ensures(
                    *emphasise,
                    (frame@[k], if k == 0 { frame@[0] } else { frame@[k - 1] }),
                    #[trigger] r@[k],
                ),
        decreases frame@.len() - i,
    {
        let before = if i == 0 { frame[0] } else { frame[i - 1] };
        let v = emphasise(frame[i], before);
        r.push(v);
        i += 1;
    }
    r
}

/// `frame` times the window, continued by zeros.
fn window_and_pad<S: Copy, M: Fn(S, S) -> S>(times: &M, zero: S, window: &Vec<S>, frame: &Vec<S>, len: usize) -> (r:
    Vec<S>)
    requires
        forall|x: S, y: S| call_requires(*times, (x, y)),
        frame@.len() == window@.len(),
        frame@.len() <= len,
    ensures
        is_windowed(*times, zero, window@, frame@, len as nat, r@),
{
    let mut r: Vec<S> = Vec::new();
    let mut i: usize = 0;
    while i < len
        invariant
            forall|x: S, y: S| call_requires(*times, (x, y)),
            frame@.len() == window@.len(),
            frame@.len() <= len,
            i <= len,
            r@.len() == i,
            forall|k: int|
                0 <= k < i && k < frame@.len() ==> call_ensures(*times, (frame@[k], window@[k]), #[trigger] r@[k]),
            forall|k: int| frame@.len() <= k < i ==> #[trigger] r@[k] == zero,
        decreases len - i,
    {
        if i < frame.len() {
            let v = times(frame[i], window[i]);
            r.push(v);
        } else {
            r.push(zero);
        }
        i += 1;
    }
    r
}

} // verus!
