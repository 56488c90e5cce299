//! Laws on values, in exact arithmetic: what the models promise of the numbers that they compute, up
//! to rounding.

use crate::bigvgan::{
    activation, amp_block, amp_padding, amp_pair, block_scope, stage, stage_block, stage_blocks, stage_conv,
    BigVganConfig,
};
use crate::campplus::{
    law_longest_and_shortest_segments, law_segments_partition_the_frames, segment_len, segment_mean, segment_means,
    segments,
};
use crate::checkpoint::{folded, row_shape, row_sums};
use crate::exact::{
    clipped, combined, convolution, exact, extents, is_root, is_zero, joined, lemma_all_exact, lemma_same_total,
    lemma_scaled_total, lemma_shifted_total, lemma_total_not_negative, mapped, padded_at, same_values, summed, total,
    within, Array, Reading,
};
use crate::graph::{
    axis_mean, convolved, deconvolved, difference, expanded, inverse, narrowed, over, quotient, sum, unary, whole,
    BinaryOp, ConvLayer, Graph, UnaryOp,
};
use crate::layers::{conv_of, Scope};
use crate::tensor::{broadcast_shape, conv_len};
use crate::text::decimal;
use vstd::arithmetic::div_mod::{lemma_fundamental_div_mod, lemma_fundamental_div_mod_converse};
use vstd::prelude::*;

verus! {

/// An element of an array is its own for the array's shape.
pub(crate) proof fn lemma_clipped(i: Seq<int>, dims: Seq<usize>)
    requires
        within(i, dims),
    ensures
        clipped(i, dims) == i,
{
    assert forall|k: int| 0 <= k < i.len() implies clipped(i, dims)[k] == i[k] by {
        assert(0 <= i[k] < dims[k]);
    }
    assert(clipped(i, dims) =~= i);
}

/// Operands of one shape give that shape.
pub(crate) proof fn lemma_same_shape(dims: Seq<usize>)
    ensures
        broadcast_shape(dims, dims) == dims,
{
    assert(broadcast_shape(dims, dims) =~= dims);
}

/// What a matrix less the mean of its rows comes to.
proof fn lemma_centred_reads(r: Reading, x: Graph)
    ensures
        ({
            let a = exact(x, r);
            let mean = mapped(summed(a, 0), |v: real| v / (a.dims[0] as real));
            exact(difference(x, axis_mean(x, 0, true)), r) == combined(BinaryOp::Difference, a, mean)
        }),
{
    let mean = axis_mean(x, 0, true);
    let a = exact(x, r);
    assert(exact(mean, r) == mapped(summed(a, 0), |v: real| v / (a.dims[0] as real)));
}

/// A value per bin that is added to every frame is gone once the mean over the frames is subtracted,
/// as it is before an utterance is embedded.
pub proof fn law_centring_removes_offsets(r: Reading, x: Graph, y: Graph, offset: spec_fn(int) -> real)
    requires
        exact(x, r).dims.len() == 2,
        exact(x, r).dims[0] >= 1,
        exact(y, r).dims == exact(x, r).dims,
        forall|i: Seq<int>|
            within(i, exact(x, r).dims) ==> #[trigger] (exact(y, r).at)(i) == (exact(x, r).at)(i) + offset(i[1]),
    ensures
        same_values(
            exact(difference(y, axis_mean(y, 0, true)), r),
            exact(difference(x, axis_mean(x, 0, true)), r),
        ),
{
    let (a, b) = (exact(x, r), exact(y, r));
    let (t, f) = (a.dims[0], a.dims[1]);
    lemma_centred_reads(r, x);
    lemma_centred_reads(r, y);
    let n = t as nat;
    let whole = exact(difference(y, axis_mean(y, 0, true)), r);
    let plain = exact(difference(x, axis_mean(x, 0, true)), r);
    let row = a.dims.update(0, 1usize);
    assert(broadcast_shape(a.dims, row) =~= a.dims);
    assert forall|i: Seq<int>| within(i, whole.dims) implies #[trigger] (whole.at)(i) == (plain.at)(i) by {
        lemma_clipped(i, a.dims);
        let j = clipped(i, row);
        assert(0 <= i[1] < f);
        assert(j[0] == 0 && j[1] == i[1]);
        let fx = |k: int| (a.at)(j.update(0, k));
        let fy = |k: int| (b.at)(j.update(0, k));
        assert forall|k: int| 0 <= k < n implies #[trigger] fy(k) == fx(k) + offset(i[1]) by {
            let at = j.update(0, k);
            assert(within(at, a.dims)) by {
                assert(at[0] == k && at[1] == i[1]);
            }
            assert((b.at)(at) == (a.at)(at) + offset(at[1]));
        }
        lemma_shifted_total(fx, fy, offset(i[1]), n);
        let (s, c, m) = (total(fx, n), offset(i[1]), t as real);
        assert((s + m * c) / m == s / m + c) by (nonlinear_arith)
            requires
                m != 0 as real,
        ;
        assert((plain.at)(i) == (a.at)(i) - s / m);
        assert((whole.at)(i) == (b.at)(i) - total(fy, n) / m);
        assert((b.at)(i) == (a.at)(i) + offset(i[1]));
    }
}

/// The shape of sums over the axes `1 .. n`, which are kept with extent 1.
spec fn summed_shape(dims: Seq<usize>, n: nat) -> Seq<usize> {
    Seq::new(dims.len(), |k: int| if 1 <= k < n { 1 } else { dims[k] })
}

/// Sums over the axes `1 .. n` have the shape of such sums.
proof fn lemma_row_sums_shape(r: Reading, a: Graph, n: nat)
    requires
        n <= exact(a, r).dims.len(),
    ensures
        exact(row_sums(a, n), r).dims == summed_shape(exact(a, r).dims, n),
    decreases n,
{
    let dims = exact(a, r).dims;
    if n <= 1 {
        assert(summed_shape(dims, n) =~= dims);
    } else {
        lemma_row_sums_shape(r, a, (n - 1) as nat);
        assert(exact(row_sums(a, n), r) == summed(exact(row_sums(a, (n - 1) as nat), r), n - 1));
        assert(summed_shape(dims, (n - 1) as nat).update(n - 1, 1) =~= summed_shape(dims, n));
    }
}

/// A factor of every element of a row is a factor of the row's sum.
proof fn lemma_scaled_row_sums(r: Reading, a: Graph, b: Graph, n: nat, factor: spec_fn(int) -> real, i: Seq<int>)
    requires
        1 <= exact(a, r).dims.len(),
        n <= exact(a, r).dims.len(),
        exact(b, r).dims == exact(a, r).dims,
        forall|j: Seq<int>|
            within(j, exact(a, r).dims) ==> #[trigger] (exact(b, r).at)(j) == factor(j[0]) * (exact(a, r).at)(j),
        within(i, summed_shape(exact(a, r).dims, n)),
    ensures
        (exact(row_sums(b, n), r).at)(i) == factor(i[0]) * (exact(row_sums(a, n), r).at)(i),
    decreases n,
{
    let dims = exact(a, r).dims;
    if n <= 1 {
        assert(summed_shape(dims, n) =~= dims);
    } else {
        let m = (n - 1) as nat;
        let (before, after) = (exact(row_sums(a, m), r), exact(row_sums(b, m), r));
        lemma_row_sums_shape(r, a, m);
        lemma_row_sums_shape(r, b, m);
        let f = |k: int| (before.at)(i.update(n - 1, k));
        let g = |k: int| (after.at)(i.update(n - 1, k));
        let count = dims[n - 1] as nat;
        assert(before.dims[n - 1] == dims[n - 1] && after.dims[n - 1] == dims[n - 1]);
        assert forall|k: int| 0 <= k < count implies #[trigger] g(k) == factor(i[0]) * f(k) by {
            let j = i.update(n - 1, k);
            assert(within(j, summed_shape(dims, m))) by {
                assert forall|q: int| 0 <= q < j.len() implies 0 <= #[trigger] j[q] < summed_shape(dims, m)[q] by {
                    assert(0 <= i[q] < summed_shape(dims, n)[q]);
                }
            }
            lemma_scaled_row_sums(r, a, b, m, factor, j);
            assert(j[0] == i[0]);
        }
        lemma_scaled_total(f, g, factor(i[0]), count);
        assert(exact(row_sums(a, n), r) == summed(before, n - 1));
        assert(exact(row_sums(b, n), r) == summed(after, n - 1));
    }
}

/// Sums of squares over rows are not negative.
proof fn lemma_square_sums_not_negative(r: Reading, v: Graph, n: nat, i: Seq<int>)
    requires
        n <= exact(v, r).dims.len(),
    ensures
        (exact(row_sums(unary(UnaryOp::Sqr, v), n), r).at)(i) >= 0 as real,
    decreases n,
{
    let a = unary(UnaryOp::Sqr, v);
    if n <= 1 {
        let x = (exact(v, r).at)(i);
        assert(x * x >= 0 as real) by (nonlinear_arith);
    } else {
        let m = (n - 1) as nat;
        let before = exact(row_sums(a, m), r);
        let f = |k: int| (before.at)(i.update(n - 1, k));
        assert forall|k: int| 0 <= k < before.dims[n - 1] implies #[trigger] f(k) >= 0 as real by {
            lemma_square_sums_not_negative(r, v, m, i.update(n - 1, k));
        }
        lemma_total_not_negative(f, before.dims[n - 1] as nat);
        assert(exact(row_sums(a, n), r) == summed(before, n - 1));
    }
}

/// A root with the square `c * c * s` is `c` times the root of `s`.
proof fn lemma_root_of_scaled(root: spec_fn(real) -> real, c: real, s: real)
    requires
        is_root(root),
        c > 0 as real,
        s >= 0 as real,
    ensures
        root(c * c * s) == c * root(s),
{
    assert(c * c * s >= 0 as real) by (nonlinear_arith)
        requires
            s >= 0 as real,
    ;
    let (a, b) = (root(c * c * s), root(s));
    assert(c * b >= 0 as real) by (nonlinear_arith)
        requires
            b >= 0 as real,
            c > 0 as real,
    ;
    assert((c * b) * (c * b) == c * c * (b * b)) by (nonlinear_arith);
    lemma_same_square(a, c * b);
}

/// Numbers that are not negative and have one square are equal.
proof fn lemma_same_square(a: real, b: real)
    requires
        a >= 0 as real,
        b >= 0 as real,
        a * a == b * b,
    ensures
        a == b,
{
    assert((a - b) * (a + b) == 0 as real) by (nonlinear_arith)
        requires
            a * a == b * b,
    ;
    assert(a == b) by (nonlinear_arith)
        requires
            (a - b) * (a + b) == 0 as real,
            a >= 0 as real,
            b >= 0 as real,
    ;
}

/// What stands for a row: its index, and 0 for the other axes.
pub open spec fn row_of(i: Seq<int>) -> Seq<int> {
    Seq::new(i.len(), |k: int| if k == 0 { i[0] } else { 0 })
}

/// The sum of the squares of the row of `v` that `i` stands in.
pub open spec fn row_square(r: Reading, v: Graph, i: Seq<int>) -> real {
    (exact(row_sums(unary(UnaryOp::Sqr, v), exact(v, r).dims.len()), r).at)(row_of(i))
}

/// Whether `v` and `g` read as a direction and a magnitude of one value per row, no row of the
/// direction being 0.
pub open spec fn is_pair(r: Reading, v: Graph, g: Graph) -> bool {
    let dims = exact(v, r).dims;
    &&& 1 <= dims.len()
    &&& exact(g, r).dims == row_shape(dims)
    &&& forall|i: Seq<int>| within(i, dims) ==> #[trigger] row_square(r, v, i) != 0 as real
}

/// A folded weight is the direction, every row scaled to the length that the magnitude gives.
pub proof fn law_folding_scales_rows(r: Reading, v: Graph, g: Graph, i: Seq<int>)
    requires
        is_pair(r, v, g),
        within(i, exact(v, r).dims),
    ensures
        ({
            let w = exact(folded(v, g, exact(v, r).dims.len()), r);
            &&& w.dims == exact(v, r).dims
            &&& (w.at)(i) == (exact(v, r).at)(i) * ((exact(g, r).at)(row_of(i)) / (r.root)(row_square(r, v, i)))
        }),
{
    let n = exact(v, r).dims.len();
    let dims = exact(v, r).dims;
    let rows = row_shape(dims);
    let squares = row_sums(unary(UnaryOp::Sqr, v), n);
    let norm = unary(UnaryOp::Sqrt, squares);
    lemma_row_sums_shape(r, unary(UnaryOp::Sqr, v), n);
    assert(summed_shape(dims, n) =~= rows);
    assert(exact(norm, r).dims == rows);
    lemma_same_shape(rows);
    let ratio = quotient(g, norm);
    assert(exact(ratio, r).dims == rows);
    assert(broadcast_shape(dims, rows) =~= dims);
    lemma_clipped(i, dims);
    let j = clipped(i, rows);
    assert(j =~= row_of(i)) by {
        assert forall|k: int| 0 <= k < i.len() implies j[k] == row_of(i)[k] by {
            assert(0 <= i[k] < dims[k]);
        }
    }
    assert(within(j, rows)) by {
        assert forall|k: int| 0 <= k < j.len() implies 0 <= #[trigger] j[k] < rows[k] by {
            assert(0 <= i[k] < dims[k]);
        }
    }
    lemma_clipped(j, rows);
}

/// The row norms of a folded weight are the magnitudes: the squares of a row add up to the square of
/// its magnitude.
pub proof fn law_folded_rows_have_their_magnitude(r: Reading, v: Graph, g: Graph, i: Seq<int>)
    requires
        is_root(r.root),
        is_pair(r, v, g),
        within(i, exact(v, r).dims),
    ensures
        row_square(r, folded(v, g, exact(v, r).dims.len()), i) == (exact(g, r).at)(row_of(i)) * (exact(g, r).at)(
            row_of(i),
        ),
{
    let dims = exact(v, r).dims;
    let n = dims.len();
    let w = folded(v, g, n);
    let (before, after) = (unary(UnaryOp::Sqr, v), unary(UnaryOp::Sqr, w));
    let ratio = |k: int|
        {
            let j = Seq::new(n, |q: int| if q == 0 { k } else { 0 });
            let x = (exact(g, r).at)(j) / (r.root)((exact(row_sums(before, n), r).at)(j));
            x * x
        };
    law_folding_scales_rows(r, v, g, i);
    assert forall|j: Seq<int>| within(j, dims) implies #[trigger] (exact(after, r).at)(j) == ratio(j[0]) * (exact(
        before,
        r,
    ).at)(j) by {
        law_folding_scales_rows(r, v, g, j);
        assert(row_of(j) =~= Seq::new(n, |q: int| if q == 0 { j[0] } else { 0 }));
        let x = (exact(v, r).at)(j);
        let y = (exact(g, r).at)(row_of(j)) / (r.root)(row_square(r, v, j));
        assert((x * y) * (x * y) == y * y * (x * x)) by (nonlinear_arith);
    }
    let j = row_of(i);
    assert(within(j, summed_shape(dims, n))) by {
        assert forall|k: int| 0 <= k < j.len() implies 0 <= #[trigger] j[k] < summed_shape(dims, n)[k] by {
            assert(0 <= i[k] < dims[k]);
        }
    }
    lemma_scaled_row_sums(r, before, after, n, ratio, j);
    assert(row_of(i) =~= Seq::new(n, |q: int| if q == 0 { j[0] } else { 0 }));
    let (m, s) = ((exact(g, r).at)(j), row_square(r, v, i));
    lemma_square_sums_not_negative(r, v, n, j);
    let l = (r.root)(s);
    assert(l * l == s && s != 0 as real);
    assert((m / l) * (m / l) * (l * l) == m * m) by (nonlinear_arith)
        requires
            l * l != 0 as real,
    ;
}

/// The length of a direction does not matter: rows that are scaled by positive factors fold to the
/// same weight.
pub proof fn law_folding_ignores_the_length_of_directions(
    r: Reading,
    v: Graph,
    u: Graph,
    g: Graph,
    factor: spec_fn(int) -> real,
)
    requires
        is_root(r.root),
        is_pair(r, v, g),
        exact(u, r).dims == exact(v, r).dims,
        forall|i: Seq<int>|
            within(i, exact(v, r).dims) ==> #[trigger] (exact(u, r).at)(i) == factor(i[0]) * (exact(v, r).at)(i),
        forall|k: int| 0 <= k < exact(v, r).dims[0] ==> #[trigger] factor(k) > 0 as real,
    ensures
        same_values(
            exact(folded(u, g, exact(u, r).dims.len()), r),
            exact(folded(v, g, exact(v, r).dims.len()), r),
        ),
{
    let dims = exact(v, r).dims;
    let n = dims.len();
    let (a, b) = (unary(UnaryOp::Sqr, v), unary(UnaryOp::Sqr, u));
    let square = |k: int| factor(k) * factor(k);
    assert forall|i: Seq<int>| within(i, dims) implies #[trigger] (exact(b, r).at)(i) == square(i[0]) * (exact(
        a,
        r,
    ).at)(i) by {
        let (c, x) = (factor(i[0]), (exact(v, r).at)(i));
        assert((exact(u, r).at)(i) == c * x);
        assert((c * x) * (c * x) == c * c * (x * x)) by (nonlinear_arith);
    }
    assert forall|i: Seq<int>| within(i, dims) implies #[trigger] row_square(r, u, i) == square(i[0]) * row_square(
        r,
        v,
        i,
    ) by {
        let j = row_of(i);
        assert(within(j, summed_shape(dims, n))) by {
            assert forall|k: int| 0 <= k < j.len() implies 0 <= #[trigger] j[k] < summed_shape(dims, n)[k] by {
                assert(0 <= i[k] < dims[k]);
            }
        }
        lemma_scaled_row_sums(r, a, b, n, square, j);
        assert(j[0] == i[0]);
    }
    assert forall|i: Seq<int>| within(i, dims) implies #[trigger] row_square(r, u, i) != 0 as real by {
        assert(0 <= i[0] < dims[0]);
        let (c, s) = (factor(i[0]), row_square(r, v, i));
        assert(c * c * s != 0 as real) by (nonlinear_arith)
            requires
                c > 0 as real,
                s != 0 as real,
        ;
    }
    let (x, y) = (exact(folded(u, g, n), r), exact(folded(v, g, n), r));
    assert(x.dims == dims && y.dims == dims) by {
        lemma_folded_shape(r, u, g);
        lemma_folded_shape(r, v, g);
    }
    assert forall|i: Seq<int>| within(i, x.dims) implies #[trigger] (x.at)(i) == (y.at)(i) by {
        law_folding_scales_rows(r, u, g, i);
        law_folding_scales_rows(r, v, g, i);
        assert(0 <= i[0] < dims[0]);
        let (c, s) = (factor(i[0]), row_square(r, v, i));
        lemma_square_sums_not_negative(r, v, n, row_of(i));
        lemma_root_of_scaled(r.root, c, s);
        let (l, m, e) = ((r.root)(s), (exact(g, r).at)(row_of(i)), (exact(v, r).at)(i));
        assert(l * l == s);
        assert((c * e) * (m / (c * l)) == e * (m / l)) by (nonlinear_arith)
            requires
                c > 0 as real,
                l * l == s,
                s != 0 as real,
        ;
    }
}

/// A folded weight has the shape of the direction.
proof fn lemma_folded_shape(r: Reading, v: Graph, g: Graph)
    requires
        1 <= exact(v, r).dims.len(),
        exact(g, r).dims == row_shape(exact(v, r).dims),
    ensures
        exact(folded(v, g, exact(v, r).dims.len()), r).dims == exact(v, r).dims,
{
    let dims = exact(v, r).dims;
    let rows = row_shape(dims);
    lemma_row_sums_shape(r, unary(UnaryOp::Sqr, v), dims.len());
    assert(summed_shape(dims, dims.len()) =~= rows);
    let norm = unary(UnaryOp::Sqrt, row_sums(unary(UnaryOp::Sqr, v), dims.len()));
    assert(exact(norm, r).dims == rows);
    lemma_same_shape(rows);
    assert(exact(quotient(g, norm), r).dims == rows);
    assert(broadcast_shape(dims, rows) =~= dims);
}

/// The mean of the segment of `f` that a frame stands in.
pub open spec fn segment_average(f: spec_fn(int) -> real, t: nat, seg_len: nat, frame: int) -> real {
    let i = frame / seg_len as int;
    let len = segment_len(t, seg_len, i);
    total(|k: int| f(i * seg_len + k), len as nat) / (len as real)
}

/// A frame's segment, and its place in it.
proof fn lemma_segment_of(t: nat, seg_len: nat, frame: int)
    requires
        seg_len > 0,
        0 <= frame < t,
    ensures
        ({
            let i = frame / seg_len as int;
            &&& 0 <= i < segments(t, seg_len)
            &&& i * seg_len <= frame < i * seg_len + segment_len(t, seg_len, i)
            &&& 1 <= segment_len(t, seg_len, i) <= seg_len
            &&& i * seg_len + segment_len(t, seg_len, i) <= t
            &&& 0 <= i * seg_len
        }),
{
    let i = frame / seg_len as int;
    law_segments_partition_the_frames(t, seg_len, i, frame);
    assert(0 <= i * seg_len) by (nonlinear_arith)
        requires
            0 <= i,
    ;
}

/// The arrays of the first `n` segments, one after the other, hold at every frame what its segment
/// holds there.
proof fn lemma_joined_segments(parts: Seq<Array>, t: nat, seg_len: nat, n: nat, at: Seq<int>)
    requires
        seg_len > 0,
        n <= parts.len() == segments(t, seg_len),
        forall|k: int| 0 <= k < parts.len() ==> (#[trigger] parts[k]).dims[2] == segment_len(t, seg_len, k),
        at.len() == 3,
        0 <= at[2] < t,
    ensures
        extents(parts.take(n as int), 2) == (if n * seg_len < t { n * seg_len } else { t }),
        at[2] < n * seg_len ==> joined(parts.take(n as int), 2, at) == (parts[at[2] / seg_len as int].at)(
            at.update(2, at[2] - (at[2] / seg_len as int) * seg_len),
        ),
    decreases n,
{
    lemma_segment_of(t, seg_len, at[2]);
    if n > 0 {
        let m = (n - 1) as nat;
        lemma_joined_segments(parts, t, seg_len, m, at);
        let whole = parts.take(n as int);
        assert(whole.drop_last() =~= parts.take(m as int));
        assert(whole.last() == parts[m as int]);
        assert(parts[m as int].dims[2] == segment_len(t, seg_len, m as int));
        assert(extents(whole, 2) == extents(parts.take(m as int), 2) + segment_len(t, seg_len, m as int));
        assert(n * seg_len == m * seg_len + seg_len) by (nonlinear_arith)
            requires
                n == m + 1,
        ;
        lemma_fundamental_div_mod(t + seg_len - 1, seg_len as int);
        let count = segments(t, seg_len);
        assert(m * seg_len < t) by (nonlinear_arith)
            requires
                m + 1 <= count,
                t + seg_len - 1 >= seg_len * count,
                seg_len > 0,
        ;
        assert(extents(parts.take(m as int), 2) == m * seg_len);
        if m * seg_len <= at[2] < n * seg_len {
            assert(at[2] == seg_len * m + (at[2] - m * seg_len)) by (nonlinear_arith);
            lemma_fundamental_div_mod_converse(at[2], seg_len as int, m as int, at[2] - m * seg_len);
            assert(joined(whole, 2, at) == (parts[m as int].at)(at.update(2, at[2] - m * seg_len)));
        }
    } else {
        assert(parts.take(0) =~= Seq::empty());
        assert(n * seg_len == 0) by (nonlinear_arith)
            requires
                n == 0,
        ;
    }
}

/// What a segment's mean reads as.
proof fn lemma_segment_mean(r: Reading, x: Graph, b: usize, c: usize, t: usize, seg_len: nat, i: int, at: Seq<int>)
    requires
        seg_len > 0,
        exact(x, r).dims == seq![b, c, t],
        0 <= i < segments(t as nat, seg_len),
        1 <= segment_len(t as nat, seg_len, i) <= t,
        at.len() == 3,
        0 <= at[0] < b,
        0 <= at[1] < c,
    ensures
        ({
            let part = exact(segment_mean(x, b, c, t as nat, seg_len, i), r);
            let len = segment_len(t as nat, seg_len, i);
            let f = |k: int| (exact(x, r).at)(seq![at[0], at[1], k]);
            &&& part.dims == seq![b, c, len as usize]
            &&& (part.at)(at) == total(|k: int| f(i * seg_len + k), len as nat) / (len as real)
        }),
{
    reveal_with_fuel(exact, 4);
    let len = segment_len(t as nat, seg_len, i);
    let a = exact(x, r);
    let cut = exact(narrowed(x, 2, i * seg_len, len), r);
    assert(cut.dims =~= seq![b, c, len as usize]);
    let mean = exact(axis_mean(narrowed(x, 2, i * seg_len, len), 2, true), r);
    assert(mean.dims =~= seq![b, c, 1usize]);
    let j = clipped(at, mean.dims);
    assert(j =~= seq![at[0], at[1], 0]);
    let f = |k: int| (a.at)(seq![at[0], at[1], k]);
    let g = |k: int| (cut.at)(j.update(2, k));
    let h = |k: int| f(i * seg_len + k);
    assert forall|k: int| 0 <= k < len implies #[trigger] g(k) == h(k) by {
        let q = j.update(2, k);
        assert(q.update(2, q[2] + i * seg_len) =~= seq![at[0], at[1], i * seg_len + k]);
    }
    lemma_same_total(g, h, len as nat);
}

/// Pooling by segments gives at every frame the mean of the segment that the frame stands in.
pub proof fn law_pooling_gives_segment_averages(
    r: Reading,
    x: Graph,
    b: usize,
    c: usize,
    t: usize,
    seg_len: nat,
    at: Seq<int>,
)
    requires
        seg_len > 0,
        t > 0,
        exact(x, r).dims == seq![b, c, t],
        within(at, seq![b, c, t]),
    ensures
        exact(segment_means(x, b, c, t as nat, seg_len), r).dims == seq![b, c, t],
        (exact(segment_means(x, b, c, t as nat, seg_len), r).at)(at) == segment_average(
            |k: int| (exact(x, r).at)(seq![at[0], at[1], k]),
            t as nat,
            seg_len,
            at[2],
        ),
{
    let n = segments(t as nat, seg_len);
    assert(0 <= at[0] < b && 0 <= at[1] < c && 0 <= at[2] < t);
    let parts = Seq::new(n, |i: int| exact(segment_mean(x, b, c, t as nat, seg_len, i), r));
    lemma_all_exact(segment_means(x, b, c, t as nat, seg_len)->Concat_0, parts, r);
    assert forall|k: int| 0 <= k < n implies (#[trigger] parts[k]).dims == seq![
        b,
        c,
        segment_len(t as nat, seg_len, k) as usize,
    ] && 1 <= segment_len(t as nat, seg_len, k) <= t by {
        lemma_length_of(t as nat, seg_len, k);
        lemma_segment_mean(r, x, b, c, t, seg_len, k, at);
    }
    lemma_segment_of(t as nat, seg_len, at[2]);
    lemma_joined_segments(parts, t as nat, seg_len, n, at);
    assert(parts.take(n as int) =~= parts);
    lemma_fundamental_div_mod(t + seg_len - 1, seg_len as int);
    assert(n * seg_len >= t) by (nonlinear_arith)
        requires
            t + seg_len - 1 < seg_len * n + seg_len,
    ;
    assert(parts[0].dims.update(2, t) =~= seq![b, c, t]);
    let i = at[2] / seg_len as int;
    lemma_segment_mean(r, x, b, c, t, seg_len, i, at.update(2, at[2] - i * seg_len));
}

/// Every segment holds frames.
pub(crate) proof fn lemma_length_of(t: nat, seg_len: nat, i: int)
    requires
        seg_len > 0,
        0 <= i < segments(t, seg_len),
    ensures
        0 <= i * seg_len < t,
        1 <= segment_len(t, seg_len, i) <= t,
        i * seg_len + segment_len(t, seg_len, i) <= t,
{
    let n = segments(t, seg_len);
    lemma_fundamental_div_mod(t + seg_len - 1, seg_len as int);
    assert(0 <= i * seg_len < t) by (nonlinear_arith)
        requires
            0 <= i,
            i + 1 <= n,
            t + seg_len - 1 >= seg_len * n,
            seg_len > 0,
    ;
}

/// The mean of equal values is that value.
proof fn lemma_mean_of_equal(f: spec_fn(int) -> real, v: real, n: nat)
    requires
        n > 0,
        forall|k: int| 0 <= k < n ==> #[trigger] f(k) == v,
    ensures
        total(f, n) == (n as real) * v,
        total(f, n) / (n as real) == v,
{
    let zero = |k: int| 0 as real;
    lemma_shifted_total(zero, f, v, n);
    lemma_scaled_total(zero, zero, 0 as real, n);
    let m = n as real;
    assert((0 as real) * total(zero, n) == 0 as real) by (nonlinear_arith);
    assert((m * v) / m == v) by (nonlinear_arith)
        requires
            m != 0 as real,
    ;
}

/// Frames of one segment have one average.
proof fn lemma_one_average(f: spec_fn(int) -> real, t: nat, seg_len: nat, i: int, k: int)
    requires
        seg_len > 0,
        0 <= i < segments(t, seg_len),
        0 <= k < segment_len(t, seg_len, i),
    ensures
        0 <= i * seg_len + k < t,
        (i * seg_len + k) / seg_len as int == i,
{
    lemma_length_of(t, seg_len, i);
    lemma_fundamental_div_mod_converse(i * seg_len + k, seg_len as int, i, k);
}

/// Segment averages have themselves as segment averages.
proof fn lemma_average_of_averages(f: spec_fn(int) -> real, t: nat, seg_len: nat, frame: int)
    requires
        seg_len > 0,
        0 <= frame < t,
    ensures
        segment_average(|k: int| segment_average(f, t, seg_len, k), t, seg_len, frame) == segment_average(
            f,
            t,
            seg_len,
            frame,
        ),
{
    let i = frame / seg_len as int;
    let len = segment_len(t, seg_len, i);
    let g = |k: int| segment_average(f, t, seg_len, k);
    let h = |k: int| g(i * seg_len + k);
    lemma_segment_of(t, seg_len, frame);
    assert forall|k: int| 0 <= k < len implies #[trigger] h(k) == g(frame) by {
        lemma_one_average(f, t, seg_len, i, k);
    }
    lemma_mean_of_equal(h, g(frame), len as nat);
}

/// Equal values have equal segment averages.
proof fn lemma_same_average(f: spec_fn(int) -> real, g: spec_fn(int) -> real, t: nat, seg_len: nat, frame: int)
    requires
        seg_len > 0,
        0 <= frame < t,
        forall|k: int| 0 <= k < t ==> #[trigger] f(k) == g(k),
    ensures
        segment_average(f, t, seg_len, frame) == segment_average(g, t, seg_len, frame),
{
    let i = frame / seg_len as int;
    let len = segment_len(t, seg_len, i);
    lemma_segment_of(t, seg_len, frame);
    let (p, q) = (|k: int| f(i * seg_len + k), |k: int| g(i * seg_len + k));
    assert forall|k: int| 0 <= k < len implies #[trigger] p(k) == q(k) by {
        lemma_one_average(f, t, seg_len, i, k);
        assert(f(i * seg_len + k) == g(i * seg_len + k));
    }
    lemma_same_total(p, q, len as nat);
}

/// Pooling what is pooled changes nothing.
pub proof fn law_pooling_twice_is_pooling_once(r: Reading, x: Graph, b: usize, c: usize, t: usize, seg_len: nat)
    requires
        seg_len > 0,
        t > 0,
        exact(x, r).dims == seq![b, c, t],
    ensures
        ({
            let once = segment_means(x, b, c, t as nat, seg_len);
            same_values(exact(segment_means(once, b, c, t as nat, seg_len), r), exact(once, r))
        }),
{
    let once = segment_means(x, b, c, t as nat, seg_len);
    let twice = segment_means(once, b, c, t as nat, seg_len);
    lemma_pooled_shape(r, x, b, c, t, seg_len);
    lemma_pooled_shape(r, once, b, c, t, seg_len);
    assert forall|at: Seq<int>| within(at, seq![b, c, t]) implies #[trigger] (exact(twice, r).at)(at) == (exact(
        once,
        r,
    ).at)(at) by {
        law_pooling_gives_segment_averages(r, x, b, c, t, seg_len, at);
        law_pooling_gives_segment_averages(r, once, b, c, t, seg_len, at);
        assert(0 <= at[0] < b && 0 <= at[1] < c && 0 <= at[2] < t);
        let f = |k: int| (exact(x, r).at)(seq![at[0], at[1], k]);
        let g = |k: int| (exact(once, r).at)(seq![at[0], at[1], k]);
        let h = |k: int| segment_average(f, t as nat, seg_len, k);
        assert forall|k: int| 0 <= k < t implies #[trigger] g(k) == h(k) by {
            let j = seq![at[0], at[1], k];
            assert(within(j, seq![b, c, t]));
            law_pooling_gives_segment_averages(r, x, b, c, t, seg_len, j);
            assert(f == |q: int| (exact(x, r).at)(seq![j[0], j[1], q]));
        }
        lemma_same_average(g, h, t as nat, seg_len, at[2]);
        lemma_average_of_averages(f, t as nat, seg_len, at[2]);
    }
}

/// What is pooled has the shape of what it is made of.
pub(crate) proof fn lemma_pooled_shape(r: Reading, x: Graph, b: usize, c: usize, t: usize, seg_len: nat)
    requires
        seg_len > 0,
        t > 0,
        exact(x, r).dims == seq![b, c, t],
    ensures
        exact(segment_means(x, b, c, t as nat, seg_len), r).dims == seq![b, c, t],
{
    let n = segments(t as nat, seg_len);
    let parts = Seq::new(n, |i: int| exact(segment_mean(x, b, c, t as nat, seg_len, i), r));
    lemma_all_exact(segment_means(x, b, c, t as nat, seg_len)->Concat_0, parts, r);
    assert forall|k: int| 0 <= k < n implies (#[trigger] parts[k]).dims == seq![
        b,
        c,
        segment_len(t as nat, seg_len, k) as usize,
    ] && 1 <= segment_len(t as nat, seg_len, k) <= t by {
        lemma_length_of(t as nat, seg_len, k);
        lemma_segment_shape(r, x, b, c, t, seg_len, k);
    }
    lemma_segments_extent(parts, t as nat, seg_len);
    lemma_segment_of(t as nat, seg_len, 0);
    assert(parts[0].dims.update(2, t) =~= seq![b, c, t]);
}

/// Segments are as long together as what they are of.
pub(crate) proof fn lemma_segments_extent(parts: Seq<Array>, t: nat, seg_len: nat)
    requires
        seg_len > 0,
        t > 0,
        parts.len() == segments(t, seg_len),
        forall|k: int| 0 <= k < parts.len() ==> (#[trigger] parts[k]).dims[2] == segment_len(t, seg_len, k),
    ensures
        extents(parts, 2) == t,
        parts.len() >= 1,
{
    let n = parts.len();
    lemma_joined_segments(parts, t, seg_len, n, seq![0int, 0int, 0int]);
    assert(parts.take(n as int) =~= parts);
    lemma_fundamental_div_mod(t + seg_len - 1, seg_len as int);
    assert(n * seg_len >= t) by (nonlinear_arith)
        requires
            t + seg_len - 1 < seg_len * n + seg_len,
    ;
    lemma_segment_of(t, seg_len, 0);
}

/// The shape of a segment's mean.
proof fn lemma_segment_shape(r: Reading, x: Graph, b: usize, c: usize, t: usize, seg_len: nat, i: int)
    ensures
        exact(segment_mean(x, b, c, t as nat, seg_len, i), r).dims == seq![
            b,
            c,
            segment_len(t as nat, seg_len, i) as usize,
        ],
{
    reveal_with_fuel(exact, 2);
    let len = segment_len(t as nat, seg_len, i);
    let mean = axis_mean(narrowed(x, 2, i * seg_len, len), 2, true);
    assert(segment_mean(x, b, c, t as nat, seg_len, i) == expanded(mean, seq![b, c, len as usize]));
}

/// The sum of the first `m + n` values is that of the first `m` and that of the next `n`.
proof fn lemma_split_total(f: spec_fn(int) -> real, m: nat, n: nat)
    ensures
        total(f, m + n) == total(f, m) + total(|k: int| f(m + k), n),
    decreases n,
{
    if n > 0 {
        lemma_split_total(f, m, (n - 1) as nat);
        let g = |k: int| f(m + k);
        assert(g(n - 1) == f(m + n - 1));
        assert((m + n - 1) as nat == m + (n - 1) as nat);
    }
}

/// The averages of the first `n` segments add up to what the segments add up to.
proof fn lemma_averages_keep_sums(f: spec_fn(int) -> real, t: nat, seg_len: nat, n: nat)
    requires
        seg_len > 0,
        n <= segments(t, seg_len),
    ensures
        ({
            let m = if n * seg_len < t { (n * seg_len) as nat } else { t };
            total(|k: int| segment_average(f, t, seg_len, k), m) == total(f, m)
        }),
    decreases n,
{
    let g = |k: int| segment_average(f, t, seg_len, k);
    if n == 0 {
        assert(0 * seg_len == 0);
        assert(total(g, 0) == total(f, 0));
    } else {
        let i = n - 1;
        lemma_averages_keep_sums(f, t, seg_len, i as nat);
        lemma_length_of(t, seg_len, i);
        let start = (i * seg_len) as nat;
        let len = segment_len(t, seg_len, i) as nat;
        assert(n * seg_len == i * seg_len + seg_len) by (nonlinear_arith)
            requires
                n == i + 1,
        ;
        lemma_split_total(f, start, len);
        lemma_split_total(g, start, len);
        let (p, q) = (|k: int| f(start + k), |k: int| g(start + k));
        let mean = total(|k: int| f(i * seg_len + k), len) / (len as real);
        assert forall|k: int| 0 <= k < len implies #[trigger] q(k) == mean by {
            lemma_one_average(f, t, seg_len, i, k);
        }
        lemma_mean_of_equal(q, mean, len);
        lemma_same_total(p, |k: int| f(i * seg_len + k), len);
        let (s, l) = (total(p, len), len as real);
        assert(l * (s / l) == s) by (nonlinear_arith)
            requires
                l != 0 as real,
        ;
    }
}

/// Pooling keeps the sum over the frames.
pub proof fn law_pooling_keeps_sums(
    r: Reading,
    x: Graph,
    b: usize,
    c: usize,
    t: usize,
    seg_len: nat,
    item: int,
    channel: int,
)
    requires
        seg_len > 0,
        t > 0,
        exact(x, r).dims == seq![b, c, t],
        0 <= item < b,
        0 <= channel < c,
    ensures
        total(
            |k: int| (exact(segment_means(x, b, c, t as nat, seg_len), r).at)(seq![item, channel, k]),
            t as nat,
        ) == total(|k: int| (exact(x, r).at)(seq![item, channel, k]), t as nat),
{
    let f = |k: int| (exact(x, r).at)(seq![item, channel, k]);
    let g = |k: int| (exact(segment_means(x, b, c, t as nat, seg_len), r).at)(seq![item, channel, k]);
    let h = |k: int| segment_average(f, t as nat, seg_len, k);
    assert forall|k: int| 0 <= k < t implies #[trigger] g(k) == h(k) by {
        let j = seq![item, channel, k];
        assert(within(j, seq![b, c, t]));
        law_pooling_gives_segment_averages(r, x, b, c, t, seg_len, j);
        assert(f == |q: int| (exact(x, r).at)(seq![j[0], j[1], q]));
    }
    lemma_same_total(g, h, t as nat);
    let n = segments(t as nat, seg_len);
    lemma_fundamental_div_mod(t + seg_len - 1, seg_len as int);
    assert(n * seg_len >= t) by (nonlinear_arith)
        requires
            t + seg_len - 1 < seg_len * n + seg_len,
    ;
    lemma_averages_keep_sums(f, t as nat, seg_len, n);
}

/// Segments of one frame give back what is pooled; one that holds all frames gives their mean.
pub proof fn law_pooling_by_one_frame_and_by_all(
    r: Reading,
    x: Graph,
    b: usize,
    c: usize,
    t: usize,
    seg_len: nat,
    at: Seq<int>,
)
    requires
        seg_len > 0,
        t > 0,
        exact(x, r).dims == seq![b, c, t],
        within(at, seq![b, c, t]),
    ensures
        seg_len == 1 ==> (exact(segment_means(x, b, c, t as nat, seg_len), r).at)(at) == (exact(x, r).at)(at),
        seg_len >= t ==> (exact(segment_means(x, b, c, t as nat, seg_len), r).at)(at) == total(
            |k: int| (exact(x, r).at)(seq![at[0], at[1], k]),
            t as nat,
        ) / (t as real),
{
    law_pooling_gives_segment_averages(r, x, b, c, t, seg_len, at);
    assert(0 <= at[0] < b && 0 <= at[1] < c && 0 <= at[2] < t);
    let f = |k: int| (exact(x, r).at)(seq![at[0], at[1], k]);
    let i = at[2] / seg_len as int;
    lemma_segment_of(t as nat, seg_len, at[2]);
    let g = |k: int| f(i * seg_len + k);
    if seg_len == 1 {
        lemma_fundamental_div_mod_converse(at[2], 1, at[2], 0);
        assert(i * seg_len == i);
        reveal_with_fuel(total, 2);
        assert(total(g, 1) == g(0));
        assert(seq![at[0], at[1], at[2]] =~= at);
        let v = g(0);
        assert(v / (1 as real) == v) by (nonlinear_arith);
    }
    if seg_len >= t {
        law_longest_and_shortest_segments(t as nat, seg_len, i);
        assert(0 * seg_len == 0);
        lemma_same_total(f, g, t as nat);
    }
}

/// Whether the last convolution of each of the first `n` pairs of an AMP block is 0: its kernel and
/// its bias are.
pub open spec fn is_silent(r: Reading, s: Scope, n: nat) -> bool {
    forall|k: nat|
        k < n ==> is_zero(exact(s.at("convs2."@ + #[trigger] decimal(k)).parameter("weight"@), r)) && is_zero(
            exact(s.at("convs2."@ + decimal(k)).parameter("bias"@), r),
        )
}

/// Terms that are 0 add up to 0.
proof fn lemma_no_total(f: spec_fn(int) -> real, n: nat)
    requires
        forall|k: int| 0 <= k < n ==> #[trigger] f(k) == 0 as real,
    ensures
        total(f, n) == 0 as real,
    decreases n,
{
    if n > 0 {
        lemma_no_total(f, (n - 1) as nat);
    }
}

/// A convolution with a kernel and a bias of 0 gives 0.
pub(crate) proof fn lemma_silent_convolution(x: Array, weight: Array, bias: Array, layer: ConvLayer, i: Seq<int>)
    requires
        is_zero(weight),
        is_zero(bias),
    ensures
        (convolution(x, weight, bias, layer).at)(i) == 0 as real,
{
    let outer = |c: int|
        total(
            |k: int|
                (weight.at)(seq![i[1], c, k]) * padded_at(
                    x,
                    i[0],
                    c,
                    i[2] * layer.stride + k * layer.dilation - layer.padding,
                ),
            layer.kernel as nat,
        );
    assert forall|c: int| 0 <= c < layer.in_channels implies #[trigger] outer(c) == 0 as real by {
        let f = |k: int|
            (weight.at)(seq![i[1], c, k]) * padded_at(
                x,
                i[0],
                c,
                i[2] * layer.stride + k * layer.dilation - layer.padding,
            );
        assert forall|k: int| 0 <= k < layer.kernel implies #[trigger] f(k) == 0 as real by {
            let v = padded_at(x, i[0], c, i[2] * layer.stride + k * layer.dilation - layer.padding);
            assert((0 as real) * v == 0 as real) by (nonlinear_arith);
        }
        lemma_no_total(f, layer.kernel as nat);
    }
    lemma_no_total(outer, layer.in_channels as nat);
}

/// The first `n` pairs of a silent AMP block give back their input.
proof fn lemma_silent_block(
    r: Reading,
    s: Scope,
    channels: usize,
    kernel: usize,
    dilations: Seq<usize>,
    n: nat,
    x: Graph,
    b: usize,
    t: usize,
)
    requires
        exact(x, r).dims == seq![b, channels, t],
        2 * t <= usize::MAX,
        n > 0 ==> 1 <= kernel && (kernel - 1) % 2 == 0,
        is_silent(r, s, n),
    ensures
        same_values(exact(amp_block(s, channels, kernel, dilations, n, x, b, t), r), exact(x, r)),
    decreases n,
{
    if n > 0 {
        let i = (n - 1) as nat;
        let d = dilations[i as int];
        lemma_silent_block(r, s, channels, kernel, dilations, i, x, b, t);
        let prev = amp_block(s, channels, kernel, dilations, i, x, b, t);
        let first = activation(s.at("activations."@ + decimal(2 * i)), channels, prev, b, channels, t);
        let turned = convolved(
            first,
            conv_of(
                s.at("convs1."@ + decimal(i)),
                true,
                channels,
                channels,
                kernel,
                amp_padding(kernel, d),
                1,
                d,
            ),
        );
        let act = activation(s.at("activations."@ + decimal(2 * i + 1)), channels, turned, b, channels, t);
        let scope = s.at("convs2."@ + decimal(i));
        let layer = conv_of(scope, true, channels, channels, kernel, amp_padding(kernel, 1), 1, 1);
        let y = convolved(act, layer);
        assert(amp_block(s, channels, kernel, dilations, n, x, b, t) == sum(y, prev)) by {
            reveal(amp_pair);
        }
        assert(exact(act, r).dims == seq![b, channels, t]);
        let (w, v) = (exact(scope.parameter("weight"@), r), exact(scope.parameter("bias"@), r));
        assert(is_zero(w) && is_zero(v));
        assert(exact(y, r) == convolution(exact(act, r), w, v, layer));
        assert(amp_padding(kernel, 1) == (kernel - 1) / 2);
        assert(conv_len(t as int, kernel as int, amp_padding(kernel, 1) as int, 1, 1) == t);
        assert(exact(y, r).dims =~= seq![b, channels, t]);
        lemma_same_shape(seq![b, channels, t]);
        let whole = exact(sum(y, prev), r);
        assert forall|at: Seq<int>| within(at, seq![b, channels, t]) implies #[trigger] (whole.at)(at) == (exact(
            x,
            r,
        ).at)(at) by {
            lemma_clipped(at, seq![b, channels, t]);
            lemma_silent_convolution(exact(act, r), w, v, layer, at);
            assert((exact(prev, r).at)(at) == (exact(x, r).at)(at));
        }
    }
}

/// The sum of `n` silent AMP blocks is `n` times their input.
proof fn lemma_silent_blocks(
    r: Reading,
    cfg: BigVganConfig,
    s: Scope,
    i: nat,
    n: nat,
    x: Graph,
    b: usize,
    t: usize,
    at: Seq<int>,
)
    requires
        1 <= n <= cfg.resblock_kernel_sizes@.len(),
        are_silent(r, cfg, s, i),
        exact(x, r).dims == seq![b, cfg.channels(i + 1), t],
        2 * t <= usize::MAX,
    ensures
        exact(stage_blocks(cfg, s, i, n, x, b, t), r).dims == exact(x, r).dims,
        within(at, exact(x, r).dims) ==> (exact(stage_blocks(cfg, s, i, n, x, b, t), r).at)(at) == (n as real)
            * (exact(x, r).at)(at),
    decreases n,
{
    let dims = exact(x, r).dims;
    let j = (n - 1) as nat;
    let kernel = cfg.resblock_kernel_sizes@[j as int];
    let dilations = cfg.resblock_dilation_sizes@[j as int]@;
    let scope = block_scope(cfg, s, i, j);
    assert(block_is_silent(r, cfg, s, i, j));
    lemma_silent_block(r, scope, cfg.channels(i + 1), kernel, dilations, dilations.len(), x, b, t);
    let last = stage_block(cfg, s, i, j, x, b, t);
    assert(same_values(exact(last, r), exact(x, r)));
    let v = (exact(x, r).at)(at);
    if n == 1 {
        assert((1 as real) * v == v) by (nonlinear_arith);
        if within(at, dims) {
            assert((exact(last, r).at)(at) == v);
        }
    } else {
        lemma_silent_blocks(r, cfg, s, i, j, x, b, t, at);
        let before = stage_blocks(cfg, s, i, j, x, b, t);
        assert(stage_blocks(cfg, s, i, n, x, b, t) == sum(before, last));
        lemma_same_shape(dims);
        if within(at, dims) {
            lemma_clipped(at, dims);
            assert((exact(last, r).at)(at) == v);
            assert((n as real) * v == (j as real) * v + v) by (nonlinear_arith)
                requires
                    n as real == (j as real) + (1 as real),
            ;
        }
    }
}

/// Whether AMP block `j` of stage `i` is silent, and keeps the length of its input.
pub open spec fn block_is_silent(r: Reading, cfg: BigVganConfig, s: Scope, i: nat, j: nat) -> bool {
    let kernel = cfg.resblock_kernel_sizes@[j as int];
    let n = cfg.resblock_dilation_sizes@[j as int]@.len();
    &&& n > 0 ==> 1 <= kernel && (kernel - 1) % 2 == 0
    &&& is_silent(r, block_scope(cfg, s, i, j), n)
}

/// Whether all AMP blocks of stage `i` are silent.
pub open spec fn are_silent(r: Reading, cfg: BigVganConfig, s: Scope, i: nat) -> bool {
    forall|j: nat| j < cfg.resblock_kernel_sizes@.len() ==> #[trigger] block_is_silent(r, cfg, s, i, j)
}

/// What a division by a number comes to.
pub(crate) proof fn lemma_over_reads(r: Reading, g: Graph, n: int)
    ensures
        exact(over(g, n), r).dims == exact(g, r).dims,
        forall|i: Seq<int>| #[trigger]
            (exact(over(g, n), r).at)(i) == (exact(g, r).at)(i) * ((1 as real) / (n as real)) + (0 as real),
{
    let (factor, summand) = (exact(inverse(n), r), exact(whole(0), r));
    assert((summand.at)(Seq::empty()) == 0 as real && (factor.at)(Seq::empty()) == (1 as real) / (n as real)) by {
        reveal_with_fuel(exact, 3);
    }
}

/// The AMP blocks of a stage are averaged: where all are silent the stage gives what its transposed
/// convolution gives, however many blocks there are.
pub proof fn law_silent_blocks_average_to_their_input(
    r: Reading,
    cfg: BigVganConfig,
    s: Scope,
    i: nat,
    x: Graph,
    b: usize,
    t: usize,
)
    requires
        1 <= cfg.resblock_kernel_sizes@.len(),
        are_silent(r, cfg, s, i),
        exact(deconvolved(x, stage_conv(cfg, s, i)), r).dims == seq![
            b,
            cfg.channels(i + 1),
            cfg.length(t as int, i + 1) as usize,
        ],
        2 * (cfg.length(t as int, i + 1) as usize) <= usize::MAX,
    ensures
        same_values(exact(stage(cfg, s, i, x, b, t), r), exact(deconvolved(x, stage_conv(cfg, s, i)), r)),
{
    reveal(stage);
    let n = cfg.resblock_kernel_sizes@.len();
    let l = cfg.length(t as int, i + 1) as usize;
    let up = deconvolved(x, stage_conv(cfg, s, i));
    let dims = exact(up, r).dims;
    let added = stage_blocks(cfg, s, i, n, up, b, l);
    let averaged = exact(stage(cfg, s, i, x, b, t), r);
    let m = n as real;
    lemma_over_reads(r, added, n as int);
    lemma_silent_blocks(r, cfg, s, i, n, up, b, l, Seq::empty());
    assert(stage(cfg, s, i, x, b, t) == over(added, n as int));
    assert(averaged.dims == dims);
    assert forall|at: Seq<int>| within(at, dims) implies #[trigger] (averaged.at)(at) == (exact(up, r).at)(at) by {
        lemma_silent_blocks(r, cfg, s, i, n, up, b, l, at);
        let v = (exact(up, r).at)(at);
        assert((m * v) * ((1 as real) / m) + (0 as real) == v) by (nonlinear_arith)
            requires
                m != 0 as real,
        ;
    }
}

} // verus!
