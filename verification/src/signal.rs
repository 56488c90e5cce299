//! Framing of sampled signals.
//!
//! The functions here decide which samples meet: what a frame holds, what is added to what, and
//! in which order. The numbers are the caller's: a sample is a value of any type, and the
//! arithmetic comes in as functions. Contracts speak of that arithmetic through `call_ensures`,
//! so they hold whatever it rounds.

use vstd::arithmetic::div_mod::lemma_fundamental_div_mod;
use vstd::prelude::*;

verus! {

/// Whether `parts` can be what comes of `zero` when `terms` are added to it from the first to the
/// last: `zero` itself, then the sum after every addition.
pub open spec fn is_running_sum<S, A: Fn(S, S) -> S>(plus: A, zero: S, terms: Seq<S>, parts: Seq<S>) -> bool {
    &&& parts.len() == terms.len() + 1
    &&& parts[0] == zero
    &&& forall|i: int| 0 <= i < terms.len() ==> call_ensures(plus, (parts[i], #[trigger] terms[i]), parts[i + 1])
}

/// Whether adding `terms` to `zero` from the first to the last can give `total`.
pub open spec fn is_sum<S, A: Fn(S, S) -> S>(plus: A, zero: S, terms: Seq<S>, total: S) -> bool {
    exists|parts: Seq<S>| #[trigger] is_running_sum(plus, zero, terms, parts) && parts.last() == total
}

/// Whether `c` can be what `f` gives on `a` and `b`, item by item.
pub open spec fn is_zip<S, M: Fn(S, S) -> S>(f: M, a: Seq<S>, b: Seq<S>, c: Seq<S>) -> bool {
    &&& c.len() == a.len()
    &&& a.len() == b.len()
    &&& forall|i: int| 0 <= i < c.len() ==> call_ensures(f, (a[i], b[i]), #[trigger] c[i])
}

/// Whether `total` can be the sum of the products of `a` and `b`, item by item.
pub open spec fn is_dot<S, A: Fn(S, S) -> S, M: Fn(S, S) -> S>(
    plus: A,
    times: M,
    zero: S,
    a: Seq<S>,
    b: Seq<S>,
    total: S,
) -> bool {
    exists|terms: Seq<S>| is_zip(times, a, b, terms) && #[trigger] is_sum(plus, zero, terms, total)
}

/// The sum of `terms`, from the first to the last.
pub fn sum<S: Copy, A: Fn(S, S) -> S>(plus: &A, zero: S, terms: &Vec<S>) -> (total: S)
    requires
        forall|a: S, b: S| call_requires(*plus, (a, b)),
    ensures
        is_sum(*plus, zero, terms@, total),
{
    let mut total = zero;
    let ghost mut parts = seq![zero];
    let mut i: usize = 0;
    while i < terms.len()
        invariant
            forall|a: S, b: S| call_requires(*plus, (a, b)),
            i <= terms@.len(),
            is_running_sum(*plus, zero, terms@.take(i as int), parts),
            parts.last() == total,
        decreases terms@.len() - i,
    {
        total = plus(total, terms[i]);
        proof {
            parts = parts.push(total);
            assert forall|k: int| 0 <= k < i + 1 implies call_ensures(
                *plus,
                (parts[k], #[trigger] terms@.take(i + 1)[k]),
                parts[k + 1],
            ) by {
                if k < i {
                    assert(terms@.take(i as int)[k] == terms@[k]);
                }
            }
        }
        i += 1;
    }
    assert(terms@.take(terms@.len() as int) == terms@);
    total
}

/// What `f` gives on `a` and `b`, item by item.
pub fn zip<S: Copy, M: Fn(S, S) -> S>(f: &M, a: &Vec<S>, b: &Vec<S>) -> (c: Vec<S>)
    requires
        a@.len() == b@.len(),
        forall|x: S, y: S| call_requires(*f, (x, y)),
    ensures
        is_zip(*f, a@, b@, c@),
{
    let mut c: Vec<S> = Vec::new();
    let mut i: usize = 0;
    while i < a.len()
        invariant
            a@.len() == b@.len(),
            forall|x: S, y: S| call_requires(*f, (x, y)),
            i <= a@.len(),
            c@.len() == i,
            forall|k: int| 0 <= k < i ==> call_ensures(*f, (a@[k], b@[k]), #[trigger] c@[k]),
        decreases a@.len() - i,
    {
        let v = f(a[i], b[i]);
        c.push(v);
        i += 1;
    }
    c
}

/// The sum of the products of `a` and `b`, item by item.
pub fn dot<S: Copy, A: Fn(S, S) -> S, M: Fn(S, S) -> S>(
    plus: &A,
    times: &M,
    zero: S,
    a: &Vec<S>,
    b: &Vec<S>,
) -> (total: S)
    requires
        a@.len() == b@.len(),
        forall|x: S, y: S| call_requires(*plus, (x, y)),
        forall|x: S, y: S| call_requires(*times, (x, y)),
    ensures
        is_dot(*plus, *times, zero, a@, b@, total),
{
    let terms = zip(times, a, b);
    sum(plus, zero, &terms)
}

/// Whether a function of one item has one result for it.
pub open spec fn has_one_result<S, R, F: Fn(S) -> R>(f: F) -> bool {
    forall|x: S, a: R, b: R| #[trigger] call_ensures(f, (x,), a) && #[trigger] call_ensures(f, (x,), b) ==> a == b
}

/// Whether a function of two items has one result for them.
pub open spec fn has_one_result_of_two<S, F: Fn(S, S) -> S>(f: F) -> bool {
    forall|x: S, y: S, a: S, b: S| #[trigger]
        call_ensures(f, (x, y), a) && #[trigger] call_ensures(f, (x, y), b) ==> a == b
}

/// Whether a function of a list has one result for its items.
pub open spec fn has_one_result_of_list<S, F: Fn(Vec<S>) -> Vec<S>>(f: F) -> bool {
    forall|v: Vec<S>, w: Vec<S>, a: Vec<S>, b: Vec<S>|
        v@ == w@ && #[trigger] call_ensures(f, (v,), a) && #[trigger] call_ensures(f, (w,), b) ==> a@ == b@
}

/// An addition with one result gives the same sum after every term.
proof fn lemma_one_running_sum<S, A: Fn(S, S) -> S>(
    plus: A,
    zero: S,
    terms: Seq<S>,
    a: Seq<S>,
    b: Seq<S>,
    i: int,
)
    requires
        has_one_result_of_two(plus),
        is_running_sum(plus, zero, terms, a),
        is_running_sum(plus, zero, terms, b),
        0 <= i <= terms.len(),
    ensures
        a[i] == b[i],
    decreases i,
{
    if i > 0 {
        lemma_one_running_sum(plus, zero, terms, a, b, i - 1);
        let term = terms[i - 1];
        assert(call_ensures(plus, (a[i - 1], term), a[i - 1 + 1]));
        assert(call_ensures(plus, (b[i - 1], term), b[i - 1 + 1]));
    }
}

/// An addition with one result gives one sum.
pub proof fn law_one_sum<S, A: Fn(S, S) -> S>(plus: A, zero: S, terms: Seq<S>, a: S, b: S)
    requires
        has_one_result_of_two(plus),
        is_sum(plus, zero, terms, a),
        is_sum(plus, zero, terms, b),
    ensures
        a == b,
{
    let p = choose|parts: Seq<S>| #[trigger] is_running_sum(plus, zero, terms, parts) && parts.last() == a;
    let q = choose|parts: Seq<S>| #[trigger] is_running_sum(plus, zero, terms, parts) && parts.last() == b;
    lemma_one_running_sum(plus, zero, terms, p, q, terms.len() as int);
}

/// An arithmetic with one result gives one sum of products.
pub proof fn law_one_dot<S, A: Fn(S, S) -> S, M: Fn(S, S) -> S>(
    plus: A,
    times: M,
    zero: S,
    x: Seq<S>,
    y: Seq<S>,
    a: S,
    b: S,
)
    requires
        has_one_result_of_two(plus),
        has_one_result_of_two(times),
        is_dot(plus, times, zero, x, y, a),
        is_dot(plus, times, zero, x, y, b),
    ensures
        a == b,
{
    let p = choose|terms: Seq<S>| is_zip(times, x, y, terms) && #[trigger] is_sum(plus, zero, terms, a);
    let q = choose|terms: Seq<S>| is_zip(times, x, y, terms) && #[trigger] is_sum(plus, zero, terms, b);
    assert forall|i: int| 0 <= i < p.len() implies p[i] == q[i] by {
        assert(call_ensures(times, (x[i], y[i]), p[i]));
        assert(call_ensures(times, (x[i], y[i]), q[i]));
    }
    assert(p == q);
    law_one_sum(plus, zero, p, a, b);
}

/// Whether two lists are as long, and related item by item.
pub open spec fn are_related<S>(x: Seq<S>, y: Seq<S>, rel: spec_fn(S, S) -> bool) -> bool {
    &&& x.len() == y.len()
    &&& forall|i: int| #![trigger x[i]] #![trigger y[i]] 0 <= i < x.len() ==> rel(x[i], y[i])
}

/// The relation of every item to itself.
pub open spec fn same<S>() -> spec_fn(S, S) -> bool {
    |x: S, y: S| x == y
}

/// Whether a function of one item gives related results on related items.
pub open spec fn keeps_relation<S, F: Fn(S) -> S>(f: F, rel: spec_fn(S, S) -> bool) -> bool {
    forall|x: S, y: S, a: S, b: S|
        rel(x, y) && #[trigger] call_ensures(f, (x,), a) && #[trigger] call_ensures(f, (y,), b) ==> rel(a, b)
}

/// Whether a function of two items gives results related as `result` says where its first and its
/// second operands are related as `first` and `second` say.
pub open spec fn keeps_relation_of_two<S, F: Fn(S, S) -> S>(
    f: F,
    first: spec_fn(S, S) -> bool,
    second: spec_fn(S, S) -> bool,
    result: spec_fn(S, S) -> bool,
) -> bool {
    forall|x: S, y: S, u: S, v: S, a: S, b: S|
        first(x, y) && second(u, v) && #[trigger] call_ensures(f, (x, u), a) && #[trigger] call_ensures(f, (y, v), b)
            ==> result(a, b)
}

/// Sums of related terms are related after every term.
proof fn lemma_related_running_sums<S, A: Fn(S, S) -> S>(
    plus: A,
    zero: S,
    rel: spec_fn(S, S) -> bool,
    x: Seq<S>,
    y: Seq<S>,
    a: Seq<S>,
    b: Seq<S>,
    i: int,
)
    requires
        rel(zero, zero),
        keeps_relation_of_two(plus, rel, rel, rel),
        are_related(x, y, rel),
        is_running_sum(plus, zero, x, a),
        is_running_sum(plus, zero, y, b),
        0 <= i <= x.len(),
    ensures
        rel(a[i], b[i]),
    decreases i,
{
    if i > 0 {
        lemma_related_running_sums(plus, zero, rel, x, y, a, b, i - 1);
        let (u, v) = (x[i - 1], y[i - 1]);
        assert(rel(u, v));
        assert(call_ensures(plus, (a[i - 1], u), a[i - 1 + 1]));
        assert(call_ensures(plus, (b[i - 1], v), b[i - 1 + 1]));
    }
}

/// Sums of related terms are related, if the addition keeps the relation.
pub proof fn law_related_sums<S, A: Fn(S, S) -> S>(
    plus: A,
    zero: S,
    rel: spec_fn(S, S) -> bool,
    x: Seq<S>,
    y: Seq<S>,
    a: S,
    b: S,
)
    requires
        rel(zero, zero),
        keeps_relation_of_two(plus, rel, rel, rel),
        are_related(x, y, rel),
        is_sum(plus, zero, x, a),
        is_sum(plus, zero, y, b),
    ensures
        rel(a, b),
{
    let p = choose|parts: Seq<S>| #[trigger] is_running_sum(plus, zero, x, parts) && parts.last() == a;
    let q = choose|parts: Seq<S>| #[trigger] is_running_sum(plus, zero, y, parts) && parts.last() == b;
    lemma_related_running_sums(plus, zero, rel, x, y, p, q, x.len() as int);
}

/// Sums of products with the same weights are related where the other factors are, if the
/// arithmetic keeps the relation.
pub proof fn law_related_dots<S, A: Fn(S, S) -> S, M: Fn(S, S) -> S>(
    plus: A,
    times: M,
    zero: S,
    rel: spec_fn(S, S) -> bool,
    weights: Seq<S>,
    x: Seq<S>,
    y: Seq<S>,
    a: S,
    b: S,
)
    requires
        rel(zero, zero),
        keeps_relation_of_two(plus, rel, rel, rel),
        keeps_relation_of_two(times, same(), rel, rel),
        are_related(x, y, rel),
        is_dot(plus, times, zero, weights, x, a),
        is_dot(plus, times, zero, weights, y, b),
    ensures
        rel(a, b),
{
    let p = choose|terms: Seq<S>| is_zip(times, weights, x, terms) && #[trigger] is_sum(plus, zero, terms, a);
    let q = choose|terms: Seq<S>| is_zip(times, weights, y, terms) && #[trigger] is_sum(plus, zero, terms, b);
    assert forall|i: int| 0 <= i < p.len() implies rel(p[i], q[i]) by {
        assert(rel(x[i], y[i]));
        assert(same::<S>()(weights[i], weights[i]));
        assert(call_ensures(times, (weights[i], x[i]), p[i]));
        assert(call_ensures(times, (weights[i], y[i]), q[i]));
    }
    law_related_sums(plus, zero, rel, p, q, a, b);
}

/// One more term.
proof fn lemma_sum_push<S, A: Fn(S, S) -> S>(plus: A, zero: S, terms: Seq<S>, part: S, term: S, total: S)
    requires
        is_sum(plus, zero, terms, part),
        call_ensures(plus, (part, term), total),
    ensures
        is_sum(plus, zero, terms.push(term), total),
{
    let parts = choose|parts: Seq<S>| #[trigger] is_running_sum(plus, zero, terms, parts) && parts.last() == part;
    let longer = parts.push(total);
    let all = terms.push(term);
    assert forall|i: int| 0 <= i < all.len() implies call_ensures(
        plus,
        (longer[i], #[trigger] all[i]),
        longer[i + 1],
    ) by {
        if i < terms.len() {
            assert(all[i] == terms[i]);
        }
    }
    assert(is_running_sum(plus, zero, all, longer));
}

/// What the first `n` of `frames`, one every `hop` samples, hold for sample `p`, the earlier frames
/// first.
pub open spec fn overlapping<S>(frames: Seq<Vec<S>>, hop: nat, p: int, n: nat) -> Seq<S>
    decreases n,
{
    if n == 0 {
        Seq::empty()
    } else {
        let before = overlapping(frames, hop, p, (n - 1) as nat);
        let i = p - (n - 1) * hop;
        if 0 <= i < frames[n - 1]@.len() { before.push(frames[n - 1]@[i]) } else { before }
    }
}

/// Whether `y` can be the overlap-add of `frames` of `size` samples, one every `hop` samples.
pub open spec fn is_overlap_add<S, A: Fn(S, S) -> S>(
    plus: A,
    zero: S,
    frames: Seq<Vec<S>>,
    size: nat,
    hop: nat,
    y: Seq<S>,
) -> bool {
    &&& y.len() == (frames.len() - 1) * hop + size
    &&& forall|p: int|
        0 <= p < y.len() ==> is_sum(plus, zero, overlapping(frames, hop, p, frames.len()), #[trigger] y[p])
}

/// The sum of `frames` of `size` samples, each of which starts `hop` samples after the one before.
pub fn overlap_add<S: Copy, A: Fn(S, S) -> S>(
    plus: &A,
    zero: S,
    frames: &Vec<Vec<S>>,
    size: usize,
    hop: usize,
) -> (y: Vec<S>)
    requires
        frames@.len() > 0,
        forall|f: int| 0 <= f < frames@.len() ==> (#[trigger] frames@[f])@.len() == size,
        (frames@.len() - 1) * hop + size <= usize::MAX,
        forall|a: S, b: S| call_requires(*plus, (a, b)),
    ensures
        is_overlap_add(*plus, zero, frames@, size as nat, hop as nat, y@),
{
    let count = frames.len();
    assert(0 <= (count - 1) * hop) by (nonlinear_arith)
        requires
            count >= 1,
    ;
    let len = (count - 1) * hop + size;
    let mut y: Vec<S> = Vec::new();
    let mut i: usize = 0;
    while i < len
        invariant
            i <= len,
            y@.len() == i,
            forall|p: int| 0 <= p < i ==> #[trigger] y@[p] == zero,
        decreases len - i,
    {
        y.push(zero);
        i += 1;
    }
    assert forall|p: int| 0 <= p < len implies is_sum(
        *plus,
        zero,
        overlapping(frames@, hop as nat, p, 0),
        #[trigger] y@[p],
    ) by {
        assert(is_running_sum(*plus, zero, Seq::<S>::empty(), seq![zero]));
    }
    let mut f: usize = 0;
    while f < count
        invariant
            count == frames@.len(),
            len == (count - 1) * hop + size,
            forall|f: int| 0 <= f < frames@.len() ==> (#[trigger] frames@[f])@.len() == size,
            forall|a: S, b: S| call_requires(*plus, (a, b)),
            f <= count,
            y@.len() == len,
            forall|p: int|
                0 <= p < len ==> is_sum(*plus, zero, overlapping(frames@, hop as nat, p, f as nat), #[trigger] y@[p]),
        decreases count - f,
    {
        assert(0 <= f * hop <= (count - 1) * hop) by (nonlinear_arith)
            requires
                0 <= f <= count - 1,
        ;
        let offset = f * hop;
        let frame = &frames[f];
        let mut i: usize = 0;
        while i < size
            invariant
                offset + size <= len,
                offset == f * hop,
                f < frames@.len(),
                frame@ == frames@[f as int]@,
                frame@.len() == size,
                forall|a: S, b: S| call_requires(*plus, (a, b)),
                i <= size,
                y@.len() == len,
                forall|p: int|
                    0 <= p < len ==> is_sum(
                        *plus,
                        zero,
                        overlapping(
                            frames@,
                            hop as nat,
                            p,
                            if offset <= p < offset + i { (f + 1) as nat } else { f as nat },
                        ),
                        #[trigger] y@[p],
                    ),
            decreases size - i,
        {
            let ghost at = offset + i;
            let part = y[offset + i];
            let total = plus(part, frame[i]);
            proof {
                let terms = overlapping(frames@, hop as nat, at, f as nat);
                lemma_sum_push(*plus, zero, terms, part, frame@[i as int], total);
                assert(overlapping(frames@, hop as nat, at, (f + 1) as nat) == terms.push(frame@[i as int]));
            }
            let ghost before = y@;
            y.set(offset + i, total);
            assert(forall|p: int| 0 <= p < len && p != at ==> #[trigger] y@[p] == before[p]);
            i += 1;
        }
        assert forall|p: int| 0 <= p < len implies is_sum(
            *plus,
            zero,
            overlapping(frames@, hop as nat, p, (f + 1) as nat),
            #[trigger] y@[p],
        ) by {
            if !(offset <= p < offset + size) {
                assert(overlapping(frames@, hop as nat, p, (f + 1) as nat) == overlapping(
                    frames@,
                    hop as nat,
                    p,
                    f as nat,
                ));
            }
        }
        f += 1;
    }
    y
}

/// The samples `start .. start + len`.
pub fn window_of<S: Copy>(samples: &Vec<S>, start: usize, len: usize) -> (r: Vec<S>)
    requires
        start + len <= samples@.len(),
    ensures
        r@ == samples@.subrange(start as int, start + len),
{
    let n = samples.len();
    let mut r: Vec<S> = Vec::new();
    let mut i: usize = 0;
    while i < len
        invariant
            n == samples@.len(),
            start + len <= n,
            i <= len,
            r@ == samples@.subrange(start as int, start + i),
        decreases len - i,
    {
        r.push(samples[start + i]);
        i += 1;
        assert(r@ == samples@.subrange(start as int, start + i));
    }
    r
}

/// Sample `j` of `samples`, continued beyond both ends by `pad` samples in reverse order, the end
/// samples left out. A signal too short to mirror repeats the sample at its far end.
pub open spec fn mirrored<S>(samples: Seq<S>, pad: nat, j: int) -> S {
    let n = samples.len();
    let back = j - pad - n + 2;
    if j < pad {
        if pad - j < n { samples[pad - j] } else { samples[n - 1] }
    } else if j < pad + n {
        samples[j - pad]
    } else if back <= n {
        samples[n - back]
    } else {
        samples[0]
    }
}

/// The signal, continued beyond both ends by `pad` samples in reverse order.
pub fn reflect_pad<S: Copy>(samples: &Vec<S>, pad: usize) -> (r: Vec<S>)
    requires
        samples@.len() > 0,
        samples@.len() + 2 * pad <= usize::MAX,
        pad + 1 <= usize::MAX,
    ensures
        r@ == Seq::new((samples@.len() + 2 * pad) as nat, |j: int| mirrored(samples@, pad as nat, j)),
{
    let n = samples.len();
    let mut r: Vec<S> = Vec::new();
    let mut i: usize = pad;
    while i > 0
        invariant
            n == samples@.len(),
            n > 0,
            i <= pad,
            r@ == Seq::new((pad - i) as nat, |j: int| mirrored(samples@, pad as nat, j)),
        decreases i,
    {
        let k = if i < n - 1 { i } else { n - 1 };
        r.push(samples[k]);
        i -= 1;
        assert(r@ == Seq::new((pad - i) as nat, |j: int| mirrored(samples@, pad as nat, j)));
    }
    let mut i: usize = 0;
    while i < n
        invariant
            n == samples@.len(),
            i <= n,
            r@ == Seq::new((pad + i) as nat, |j: int| mirrored(samples@, pad as nat, j)),
        decreases n - i,
    {
        r.push(samples[i]);
        i += 1;
        assert(r@ == Seq::new((pad + i) as nat, |j: int| mirrored(samples@, pad as nat, j)));
    }
    let mut i: usize = 0;
    while i < pad
        invariant
            n == samples@.len(),
            n > 0,
            pad + 1 <= usize::MAX,
            i <= pad,
            r@ == Seq::new((pad + n + i) as nat, |j: int| mirrored(samples@, pad as nat, j)),
        decreases pad - i,
    {
        let k = if n - 1 < i + 1 { 0 } else { n - 1 - (i + 1) };
        r.push(samples[k]);
        i += 1;
        assert(r@ == Seq::new((pad + n + i) as nat, |j: int| mirrored(samples@, pad as nat, j)));
    }
    r
}

/// The number of frames of `size` samples, one every `hop` samples, that `len` samples hold.
pub open spec fn frame_count(len: nat, size: nat, hop: nat) -> nat
    recommends
        hop > 0,
{
    if len < size { 0 } else { ((len - size) / hop as int + 1) as nat }
}

/// The number of frames of `size` samples, one every `hop` samples, that `len` samples hold.
pub fn frames_in(len: usize, size: usize, hop: usize) -> (r: usize)
    requires
        hop > 0,
        size > 0,
    ensures
        r == frame_count(len as nat, size as nat, hop as nat),
{
    if len < size {
        0
    } else {
        assert((len - size) / hop as int <= len - size) by (nonlinear_arith)
            requires
                len >= size,
                hop > 0,
        ;
        (len - size) / hop + 1
    }
}

/// The frames are exactly those that lie within the samples.
pub proof fn law_frames_are_those_that_fit(len: nat, size: nat, hop: nat, t: nat)
    requires
        hop > 0,
    ensures
        t < frame_count(len, size, hop) <==> t * hop + size <= len,
{
    assert(0 <= t * hop) by (nonlinear_arith);
    if len >= size {
        let q = (len - size) / hop as int;
        lemma_fundamental_div_mod(len - size, hop as int);
        assert(hop * q == q * hop) by (nonlinear_arith);
        if t <= q {
            assert(t * hop <= q * hop) by (nonlinear_arith)
                requires
                    t <= q,
            ;
        } else {
            assert(t * hop >= q * hop + hop) by (nonlinear_arith)
                requires
                    t >= q + 1,
            ;
        }
    }
}

/// More frames hold no less.
proof fn lemma_overlapping_grows<S>(frames: Seq<Vec<S>>, hop: nat, p: int, m: nat, n: nat)
    requires
        m <= n,
    ensures
        overlapping(frames, hop, p, m).len() <= overlapping(frames, hop, p, n).len(),
    decreases n,
{
    if m < n {
        lemma_overlapping_grows(frames, hop, p, m, (n - 1) as nat);
    }
}

/// Frames that start no further apart than they are long leave no sample of the overlap-add out.
pub proof fn law_no_sample_is_left_out<S>(frames: Seq<Vec<S>>, size: nat, hop: nat, p: int)
    requires
        frames.len() > 0,
        forall|f: int| 0 <= f < frames.len() ==> (#[trigger] frames[f])@.len() == size,
        hop <= size,
        0 <= p < (frames.len() - 1) * hop + size,
    ensures
        overlapping(frames, hop, p, frames.len()).len() >= 1,
{
    let last = frames.len() - 1;
    let q = if hop == 0 { 0 } else { p / hop as int };
    let f = if q < last { q } else { last };
    assert(0 <= f && 0 <= p - f * hop < size) by {
        if hop > 0 {
            lemma_fundamental_div_mod(p, hop as int);
            assert(hop * q == q * hop) by (nonlinear_arith);
            assert(0 <= q) by (nonlinear_arith)
                requires
                    0 <= p,
                    p < q * hop + hop,
                    hop > 0,
            ;
            if q >= last {
                assert(last * hop <= q * hop) by (nonlinear_arith)
                    requires
                        last <= q,
                ;
            }
        } else {
            assert(f * hop == 0 && last * hop == 0) by (nonlinear_arith)
                requires
                    hop == 0,
            ;
        }
    }
    assert(frames[f]@.len() == size);
    lemma_overlapping_grows(frames, hop, p, (f + 1) as nat, frames.len());
}

/// A signal longer than the padding is continued as in a mirror at both of its ends.
pub proof fn law_padding_mirrors<S>(samples: Seq<S>, pad: nat, i: nat)
    requires
        samples.len() > pad,
        1 <= i <= pad,
    ensures
        mirrored(samples, pad, pad - i) == mirrored(samples, pad, (pad + i) as int),
        mirrored(samples, pad, pad + samples.len() - 1 + i) == mirrored(samples, pad, pad + samples.len() - 1 - i),
{
}

/// Padding keeps the signal itself.
pub proof fn law_padding_keeps_the_signal<S>(samples: Seq<S>, pad: nat, i: int)
    requires
        0 <= i < samples.len(),
    ensures
        mirrored(samples, pad, pad + i) == samples[i],
{
}

} // verus!
