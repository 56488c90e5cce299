//! Batches: operations act on the items along the first axis of their operands one by one.
//!
//! [`is_part`] says that one array holds some items of another. Every lemma says of one operation, in
//! exact arithmetic, that it keeps this: what it makes of some items of a batch are the same items of
//! what it makes of the batch. All items of an array are one such part, so the lemmas say, too, that an
//! operation makes the same of the same values.

use crate::exact::{
    added_up, chained, clipped, combined, convolution, extents, indices_at, joined, lemma_same_total,
    linear_map, mapped, matrix_of_products, mean_of_all, normalised_rows, padded_at, picked, pixel_at, position,
    regrouped, same_values, slice, spread, square_convolution, summed, total, transposed_convolution, turned, with_ends,
    with_zeros, within, within_range, Array,
};
use crate::graph::{BinaryOp, ConvLayer, LinearLayer};
use crate::tensor::{broadcast_shape, broadcastable, element_count, pad_left};
use vstd::arithmetic::div_mod::{lemma_fundamental_div_mod, lemma_fundamental_div_mod_converse};
use vstd::prelude::*;

verus! {

/// The indices of the element that is `off` items further on.
pub open spec fn shifted(i: Seq<int>, off: int) -> Seq<int> {
    i.update(0, i[0] + off)
}

/// Whether `b` holds the items `off .. off + n` of `a`.
pub open spec fn is_part(a: Array, b: Array, n: usize, off: int) -> bool {
    &&& a.dims.len() >= 1
    &&& 0 <= off
    &&& off + n <= a.dims[0]
    &&& b.dims == a.dims.update(0, n)
    &&& forall|i: Seq<int>| within(i, b.dims) ==> #[trigger] (b.at)(i) == (a.at)(shifted(i, off))
}

/// All items are a part.
pub(crate) proof fn lemma_same_is_part(a: Array, b: Array)
    requires
        a.dims.len() >= 1,
    ensures
        same_values(a, b) <==> is_part(a, b, a.dims[0], 0),
{
    assert(a.dims.update(0, a.dims[0]) =~= a.dims);
    assert forall|i: Seq<int>| within(i, a.dims) implies #[trigger] shifted(i, 0) == i by {
        assert(shifted(i, 0) =~= i);
    }
    if same_values(a, b) {
        assert forall|i: Seq<int>| within(i, b.dims) implies #[trigger] (b.at)(i) == (a.at)(shifted(i, 0)) by {
            assert((a.at)(i) == (b.at)(i));
        }
    }
    if is_part(a, b, a.dims[0], 0) {
        assert forall|i: Seq<int>| within(i, a.dims) implies #[trigger] (a.at)(i) == (b.at)(i) by {
            assert((b.at)(i) == (a.at)(shifted(i, 0)));
        }
    }
}

/// An index changed along one axis.
pub(crate) proof fn lemma_within_update(i: Seq<int>, dims: Seq<usize>, k: int, v: int, n: usize)
    requires
        within(i, dims),
        0 <= k < dims.len(),
        0 <= v < n,
    ensures
        within(i.update(k, v), dims.update(k, n)),
{
    assert forall|j: int| 0 <= j < i.len() implies 0 <= #[trigger] i.update(k, v)[j] < dims.update(k, n)[j] by {
        assert(0 <= i[j] < dims[j]);
    }
}

/// Functions of every element.
pub(crate) proof fn lemma_part_mapped(a: Array, b: Array, f: spec_fn(real) -> real, n: usize, off: int)
    requires
        is_part(a, b, n, off),
    ensures
        is_part(mapped(a, f), mapped(b, f), n, off),
{
    let (x, y) = (mapped(a, f), mapped(b, f));
    assert forall|i: Seq<int>| within(i, y.dims) implies #[trigger] (y.at)(i) == (x.at)(shifted(i, off)) by {
        assert((b.at)(i) == (a.at)(shifted(i, off)));
    }
}

/// The element of an operand for a part is the one for the whole, further on.
proof fn lemma_clipped_part(i: Seq<int>, dims: Seq<usize>, n: usize, off: int)
    requires
        dims.len() == i.len() >= 1,
        0 <= off,
        off + n <= dims[0],
        0 <= i[0] < n,
    ensures
        clipped(shifted(i, off), dims) == shifted(clipped(i, dims.update(0, n)), off),
{
    assert(clipped(shifted(i, off), dims) =~= shifted(clipped(i, dims.update(0, n)), off));
}

/// The element of an operand for an element of the result is there.
proof fn lemma_clipped_within(i: Seq<int>, dims: Seq<usize>, whole: Seq<usize>)
    requires
        dims.len() == whole.len(),
        within(i, whole),
        forall|k: int| 0 <= k < dims.len() ==> #[trigger] dims[k] == whole[k] || dims[k] == 1,
    ensures
        within(clipped(i, dims), dims),
{
    assert forall|k: int| 0 <= k < dims.len() implies 0 <= #[trigger] clipped(i, dims)[k] < dims[k] by {
        assert(0 <= i[k] < whole[k]);
    }
}

/// Combinations of two batches of as many items.
pub(crate) proof fn lemma_part_combined(op: BinaryOp, a: Array, b: Array, c: Array, d: Array, n: usize, off: int)
    requires
        is_part(a, b, n, off),
        is_part(c, d, n, off),
        a.dims.len() == c.dims.len(),
        a.dims[0] == c.dims[0],
        broadcastable(a.dims, c.dims),
    ensures
        is_part(combined(op, a, c), combined(op, b, d), n, off),
        combined(op, a, c).dims.len() == a.dims.len(),
{
    let (x, y) = (combined(op, a, c), combined(op, b, d));
    let rank = a.dims.len();
    assert(pad_left(a.dims, rank) =~= a.dims && pad_left(c.dims, rank) =~= c.dims);
    assert(pad_left(b.dims, rank) =~= b.dims && pad_left(d.dims, rank) =~= d.dims);
    assert forall|k: int| 0 <= k < rank implies a.dims[k] == c.dims[k] || a.dims[k] == 1 || c.dims[k] == 1 by {
        assert(pad_left(a.dims, rank)[k] == a.dims[k]);
    }
    assert(y.dims =~= x.dims.update(0, n));
    assert forall|i: Seq<int>| within(i, y.dims) implies #[trigger] (y.at)(i) == (x.at)(shifted(i, off)) by {
        assert(0 <= i[0] < y.dims[0]);
        lemma_clipped_part(i, a.dims, n, off);
        lemma_clipped_part(i, c.dims, n, off);
        lemma_clipped_within(i, b.dims, y.dims);
        lemma_clipped_within(i, d.dims, y.dims);
        let (p, q) = (clipped(i, b.dims), clipped(i, d.dims));
        assert((b.at)(p) == (a.at)(shifted(p, off)));
        assert((d.at)(q) == (c.at)(shifted(q, off)));
    }
}

/// Combinations of the same values.
pub(crate) proof fn lemma_same_combined(op: BinaryOp, a: Array, b: Array, c: Array, d: Array)
    requires
        same_values(a, b),
        same_values(c, d),
        broadcastable(a.dims, c.dims),
    ensures
        same_values(combined(op, a, c), combined(op, b, d)),
{
    let (x, y) = (combined(op, a, c), combined(op, b, d));
    let rank = x.dims.len();
    assert forall|i: Seq<int>| within(i, x.dims) implies #[trigger] (x.at)(i) == (y.at)(i) by {
        lemma_operand_within(i, a.dims, c.dims);
        let (p, q) = (clipped(i, a.dims), clipped(i, c.dims));
        assert((a.at)(p) == (b.at)(p));
        assert((c.at)(q) == (d.at)(q));
    }
}

/// The elements of both operands for an element of the result are there.
proof fn lemma_operand_within(i: Seq<int>, a: Seq<usize>, c: Seq<usize>)
    requires
        broadcastable(a, c),
        within(i, broadcast_shape(a, c)),
    ensures
        within(clipped(i, a), a),
        within(clipped(i, c), c),
{
    let whole = broadcast_shape(a, c);
    let n = whole.len();
    assert forall|k: int| 0 <= k < a.len() implies 0 <= #[trigger] clipped(i, a)[k] < a[k] by {
        let j = k + n - a.len();
        assert(0 <= i[j] < whole[j]);
        assert(pad_left(a, n)[j] == a[k]);
    }
    assert forall|k: int| 0 <= k < c.len() implies 0 <= #[trigger] clipped(i, c)[k] < c[k] by {
        let j = k + n - c.len();
        assert(0 <= i[j] < whole[j]);
        assert(pad_left(c, n)[j] == c[k]);
        assert(pad_left(a, n)[j] == pad_left(c, n)[j] || pad_left(a, n)[j] == 1 || pad_left(c, n)[j] == 1);
    }
}

/// Whether an operand has one item, which serves all items of a batch of `rank` axes.
pub open spec fn is_shared(p: Array, rank: nat) -> bool {
    p.dims.len() <= rank && (p.dims.len() == rank ==> p.dims[0] == 1)
}

/// Combinations of a batch with what serves all items.
pub(crate) proof fn lemma_part_combined_shared(op: BinaryOp, a: Array, b: Array, p: Array, n: usize, off: int)
    requires
        is_part(a, b, n, off),
        is_shared(p, a.dims.len()),
        broadcastable(a.dims, p.dims),
        forall|k: int| 0 <= k < a.dims.len() ==> #[trigger] broadcast_shape(a.dims, p.dims)[k] == a.dims[k],
    ensures
        is_part(combined(op, a, p), combined(op, b, p), n, off),
        combined(op, a, p).dims == a.dims,
{
    let (x, y) = (combined(op, a, p), combined(op, b, p));
    let rank = a.dims.len();
    assert(pad_left(a.dims, rank) =~= a.dims && pad_left(b.dims, rank) =~= b.dims);
    assert(x.dims =~= a.dims);
    assert forall|k: int| 0 <= k < rank implies #[trigger] y.dims[k] == b.dims[k] by {
        assert(broadcast_shape(a.dims, p.dims)[k] == a.dims[k]);
    }
    assert(y.dims =~= b.dims);
    assert forall|i: Seq<int>| within(i, y.dims) implies #[trigger] (y.at)(i) == (x.at)(shifted(i, off)) by {
        assert(0 <= i[0] < y.dims[0]);
        lemma_clipped_part(i, a.dims, n, off);
        lemma_clipped_within(i, b.dims, y.dims);
        let q = clipped(i, b.dims);
        assert((b.at)(q) == (a.at)(shifted(q, off)));
        assert(clipped(shifted(i, off), p.dims) =~= clipped(i, p.dims));
    }
}

/// Axes swapped, other than the first.
pub(crate) proof fn lemma_part_turned(a: Array, b: Array, j: int, k: int, n: usize, off: int)
    requires
        is_part(a, b, n, off),
        0 < j < a.dims.len(),
        0 < k < a.dims.len(),
    ensures
        is_part(turned(a, j, k), turned(b, j, k), n, off),
{
    let (x, y) = (turned(a, j, k), turned(b, j, k));
    assert(y.dims =~= x.dims.update(0, n));
    assert forall|i: Seq<int>| within(i, y.dims) implies #[trigger] (y.at)(i) == (x.at)(shifted(i, off)) by {
        let p = i.update(j, i[k]).update(k, i[j]);
        assert forall|m: int| 0 <= m < p.len() implies 0 <= #[trigger] p[m] < b.dims[m] by {
            assert(0 <= i[j] < y.dims[j] && 0 <= i[k] < y.dims[k] && 0 <= i[m] < y.dims[m]);
        }
        assert((b.at)(p) == (a.at)(shifted(p, off)));
        let s = shifted(i, off);
        assert(s.update(j, s[k]).update(k, s[j]) =~= shifted(p, off));
    }
}

/// Axes of the same values swapped.
pub(crate) proof fn lemma_same_turned(a: Array, b: Array, j: int, k: int)
    requires
        same_values(a, b),
        0 <= j < a.dims.len(),
        0 <= k < a.dims.len(),
    ensures
        same_values(turned(a, j, k), turned(b, j, k)),
{
    let (x, y) = (turned(a, j, k), turned(b, j, k));
    assert forall|i: Seq<int>| within(i, x.dims) implies #[trigger] (x.at)(i) == (y.at)(i) by {
        let p = i.update(j, i[k]).update(k, i[j]);
        assert forall|m: int| 0 <= m < p.len() implies 0 <= #[trigger] p[m] < a.dims[m] by {
            assert(0 <= i[j] < x.dims[j] && 0 <= i[k] < x.dims[k] && 0 <= i[m] < x.dims[m]);
        }
        assert((a.at)(p) == (b.at)(p));
    }
}

/// A slice of an axis other than the first.
pub(crate) proof fn lemma_part_slice(a: Array, b: Array, axis: int, start: int, len: int, n: usize, off: int)
    requires
        is_part(a, b, n, off),
        0 < axis < a.dims.len(),
        0 <= start,
        0 <= len,
        start + len <= a.dims[axis],
    ensures
        is_part(slice(a, axis, start, len), slice(b, axis, start, len), n, off),
{
    let (x, y) = (slice(a, axis, start, len), slice(b, axis, start, len));
    assert(y.dims =~= x.dims.update(0, n));
    assert forall|i: Seq<int>| within(i, y.dims) implies #[trigger] (y.at)(i) == (x.at)(shifted(i, off)) by {
        assert(0 <= i[axis] < y.dims[axis]);
        let p = i.update(axis, i[axis] + start);
        lemma_within_update(i, y.dims, axis, i[axis] + start, b.dims[axis]);
        assert(y.dims.update(axis, b.dims[axis]) =~= b.dims);
        assert((b.at)(p) == (a.at)(shifted(p, off)));
        let s = shifted(i, off);
        assert(s.update(axis, s[axis] + start) =~= shifted(p, off));
    }
}

/// Axes of extent 1 repeated, other than the first.
pub(crate) proof fn lemma_part_spread(a: Array, b: Array, dims: Seq<usize>, n: usize, off: int)
    requires
        is_part(a, b, n, off),
        dims.len() == a.dims.len(),
        dims[0] == a.dims[0],
        forall|k: int| 0 <= k < dims.len() ==> #[trigger] a.dims[k] == dims[k] || a.dims[k] == 1,
    ensures
        is_part(spread(a, dims), spread(b, dims.update(0, n)), n, off),
{
    let (x, y) = (spread(a, dims), spread(b, dims.update(0, n)));
    assert forall|i: Seq<int>| within(i, y.dims) implies #[trigger] (y.at)(i) == (x.at)(shifted(i, off)) by {
        assert(0 <= i[0] < y.dims[0]);
        lemma_clipped_part(i, a.dims, n, off);
        lemma_clipped_within(i, b.dims, y.dims);
        let p = clipped(i, b.dims);
        assert((b.at)(p) == (a.at)(shifted(p, off)));
    }
}

/// Slices of an axis other than the first.
pub(crate) proof fn lemma_part_picked(a: Array, b: Array, list: Seq<int>, axis: int, n: usize, off: int)
    requires
        is_part(a, b, n, off),
        0 < axis < a.dims.len(),
        list.len() <= usize::MAX,
        forall|k: int| 0 <= k < list.len() ==> 0 <= #[trigger] list[k] < a.dims[axis],
    ensures
        is_part(picked(a, list, axis), picked(b, list, axis), n, off),
{
    let (x, y) = (picked(a, list, axis), picked(b, list, axis));
    assert(y.dims =~= x.dims.update(0, n));
    assert forall|i: Seq<int>| within(i, y.dims) implies #[trigger] (y.at)(i) == (x.at)(shifted(i, off)) by {
        assert(0 <= i[axis] < y.dims[axis]);
        let v = list[i[axis]];
        let p = i.update(axis, v);
        lemma_within_update(i, y.dims, axis, v, b.dims[axis]);
        assert(y.dims.update(axis, b.dims[axis]) =~= b.dims);
        assert((b.at)(p) == (a.at)(shifted(p, off)));
        assert(shifted(i, off).update(axis, v) =~= shifted(p, off));
    }
}

/// Sums over an axis other than the first.
pub(crate) proof fn lemma_part_sums(a: Array, b: Array, axis: int, n: usize, off: int)
    requires
        is_part(a, b, n, off),
        0 < axis < a.dims.len(),
    ensures
        is_part(summed(a, axis), summed(b, axis), n, off),
        is_part(added_up(a, axis), added_up(b, axis), n, off),
{
    let len = a.dims[axis] as nat;
    let (x, y) = (summed(a, axis), summed(b, axis));
    assert(y.dims =~= x.dims.update(0, n));
    assert forall|i: Seq<int>| within(i, y.dims) implies #[trigger] (y.at)(i) == (x.at)(shifted(i, off)) by {
        let s = shifted(i, off);
        let f = |k: int| (b.at)(i.update(axis, k));
        let g = |k: int| (a.at)(s.update(axis, k));
        assert forall|k: int| 0 <= k < len implies #[trigger] f(k) == g(k) by {
            lemma_within_update(i, y.dims, axis, k, b.dims[axis]);
            assert(y.dims.update(axis, b.dims[axis]) =~= b.dims);
            assert(shifted(i.update(axis, k), off) =~= s.update(axis, k));
        }
        lemma_same_total(f, g, len);
    }
    let (x, y) = (added_up(a, axis), added_up(b, axis));
    assert(y.dims =~= x.dims.update(0, n));
    assert forall|i: Seq<int>| within(i, y.dims) implies #[trigger] (y.at)(i) == (x.at)(shifted(i, off)) by {
        let s = shifted(i, off);
        let f = |k: int| (b.at)(i.insert(axis, k));
        let g = |k: int| (a.at)(s.insert(axis, k));
        assert forall|k: int| 0 <= k < len implies #[trigger] f(k) == g(k) by {
            let p = i.insert(axis, k);
            assert forall|m: int| 0 <= m < p.len() implies 0 <= #[trigger] p[m] < b.dims[m] by {
                if m < axis {
                    assert(0 <= i[m] < y.dims[m]);
                } else if m > axis {
                    assert(0 <= i[m - 1] < y.dims[m - 1]);
                }
            }
            assert(shifted(p, off) =~= s.insert(axis, k));
        }
        lemma_same_total(f, g, len);
    }
}

/// What is known of parts that stand one after the other along an axis.
pub open spec fn are_stacked(a: Seq<Array>, axis: int) -> bool {
    &&& a.len() >= 1
    &&& 0 < axis < a[0].dims.len()
    &&& forall|k: int| 0 <= k < a.len() ==> (#[trigger] a[k]).dims == a[0].dims.update(axis, a[k].dims[axis])
    &&& extents(a, axis) <= usize::MAX
}

/// Batches one after the other along an axis other than the first.
pub(crate) proof fn lemma_part_chained(a: Seq<Array>, b: Seq<Array>, axis: int, n: usize, off: int)
    requires
        are_stacked(a, axis),
        a.len() == b.len(),
        forall|k: int| 0 <= k < a.len() ==> is_part(#[trigger] a[k], b[k], n, off),
    ensures
        is_part(chained(a, axis), chained(b, axis), n, off),
{
    let (x, y) = (chained(a, axis), chained(b, axis));
    lemma_same_extents(a, b, axis, n, off, a.len());
    assert(a.take(a.len() as int) =~= a && b.take(b.len() as int) =~= b);
    assert(is_part(a[0], b[0], n, off));
    assert(y.dims =~= x.dims.update(0, n));
    assert forall|i: Seq<int>| within(i, y.dims) implies #[trigger] (y.at)(i) == (x.at)(shifted(i, off)) by {
        assert(0 <= i[axis] < y.dims[axis]);
        lemma_part_joined(a, b, axis, n, off, a.len(), i);
    }
}

/// Parts have the extents of their batches.
proof fn lemma_same_extents(a: Seq<Array>, b: Seq<Array>, axis: int, n: usize, off: int, m: nat)
    requires
        a.len() == b.len(),
        m <= a.len(),
        0 < axis,
        forall|k: int| 0 <= k < a.len() ==> is_part(#[trigger] a[k], b[k], n, off),
        forall|k: int| 0 <= k < a.len() ==> axis < (#[trigger] a[k]).dims.len(),
    ensures
        extents(a.take(m as int), axis) == extents(b.take(m as int), axis),
        extents(a.take(m as int), axis) >= 0,
    decreases m,
{
    if m > 0 {
        let l = (m - 1) as nat;
        lemma_same_extents(a, b, axis, n, off, l);
        assert(a.take(m as int).drop_last() =~= a.take(l as int));
        assert(b.take(m as int).drop_last() =~= b.take(l as int));
        assert(is_part(a[l as int], b[l as int], n, off));
        assert(a.take(m as int).last() == a[l as int] && b.take(m as int).last() == b[l as int]);
        assert(b[l as int].dims[axis] == a[l as int].dims[axis]);
    }
}

/// Elements of batches one after the other.
proof fn lemma_part_joined(a: Seq<Array>, b: Seq<Array>, axis: int, n: usize, off: int, m: nat, i: Seq<int>)
    requires
        are_stacked(a, axis),
        a.len() == b.len(),
        m <= a.len(),
        forall|k: int| 0 <= k < a.len() ==> is_part(#[trigger] a[k], b[k], n, off),
        i.len() == a[0].dims.len(),
        forall|k: int| 0 <= k < i.len() && k != axis ==> 0 <= #[trigger] i[k] < b[0].dims[k],
        0 <= i[axis] < extents(b.take(m as int), axis),
    ensures
        joined(b.take(m as int), axis, i) == joined(a.take(m as int), axis, shifted(i, off)),
    decreases m,
{
    if m > 0 {
        let l = (m - 1) as nat;
        lemma_same_extents(a, b, axis, n, off, l);
        lemma_same_extents(a, b, axis, n, off, m);
        let (u, v) = (a.take(m as int), b.take(m as int));
        assert(u.drop_last() =~= a.take(l as int));
        assert(v.drop_last() =~= b.take(l as int));
        assert(u.last() == a[l as int] && v.last() == b[l as int]);
        assert(is_part(a[l as int], b[l as int], n, off));
        assert(is_part(a[0], b[0], n, off));
        assert(a[l as int].dims == a[0].dims.update(axis, a[l as int].dims[axis]));
        let before = extents(a.take(l as int), axis);
        let s = shifted(i, off);
        if i[axis] < before {
            lemma_part_joined(a, b, axis, n, off, l, i);
        } else {
            let p = i.update(axis, i[axis] - before);
            assert forall|k: int| 0 <= k < p.len() implies 0 <= #[trigger] p[k] < v.last().dims[k] by {
                if k != axis {
                    assert(0 <= i[k] < b[0].dims[k]);
                }
            }
            assert(within(p, v.last().dims));
            assert(s.update(axis, s[axis] - before) =~= shifted(p, off));
        }
    }
}

/// The rows of a matrix, mapped by another.
pub(crate) proof fn lemma_part_products(a: Array, b: Array, m: Array, n: usize, off: int)
    requires
        is_part(a, b, n, off),
        a.dims.len() == 2,
    ensures
        is_part(matrix_of_products(a, m), matrix_of_products(b, m), n, off),
{
    let (x, y) = (matrix_of_products(a, m), matrix_of_products(b, m));
    assert(y.dims =~= x.dims.update(0, n));
    assert forall|i: Seq<int>| within(i, y.dims) implies #[trigger] (y.at)(i) == (x.at)(shifted(i, off)) by {
        assert(0 <= i[0] < y.dims[0] && 0 <= i[1] < y.dims[1]);
        let s = shifted(i, off);
        let f = |k: int| (b.at)(seq![i[0], k]) * (m.at)(seq![k, i[1]]);
        let g = |k: int| (a.at)(seq![s[0], k]) * (m.at)(seq![k, s[1]]);
        assert forall|k: int| 0 <= k < a.dims[1] implies #[trigger] f(k) == g(k) by {
            assert(within(seq![i[0], k], b.dims));
            assert(shifted(seq![i[0], k], off) =~= seq![s[0], k]);
        }
        lemma_same_total(f, g, a.dims[1] as nat);
    }
}

/// Convolutions.
pub(crate) proof fn lemma_part_convolution(a: Array, b: Array, w: Array, v: Array, layer: ConvLayer, n: usize, off: int)
    requires
        is_part(a, b, n, off),
        a.dims.len() == 3,
        a.dims[1] == layer.in_channels,
    ensures
        is_part(convolution(a, w, v, layer), convolution(b, w, v, layer), n, off),
{
    let (x, y) = (convolution(a, w, v, layer), convolution(b, w, v, layer));
    assert(y.dims =~= x.dims.update(0, n));
    assert forall|i: Seq<int>| within(i, y.dims) implies #[trigger] (y.at)(i) == (x.at)(shifted(i, off)) by {
        assert(0 <= i[0] < y.dims[0]);
        let s = shifted(i, off);
        let f = |c: int|
            total(
                |k: int|
                    (w.at)(seq![i[1], c, k]) * padded_at(
                        b,
                        i[0],
                        c,
                        i[2] * layer.stride + k * layer.dilation - layer.padding,
                    ),
                layer.kernel as nat,
            );
        let g = |c: int|
            total(
                |k: int|
                    (w.at)(seq![s[1], c, k]) * padded_at(
                        a,
                        s[0],
                        c,
                        s[2] * layer.stride + k * layer.dilation - layer.padding,
                    ),
                layer.kernel as nat,
            );
        assert forall|c: int| 0 <= c < layer.in_channels implies #[trigger] f(c) == g(c) by {
            let p = |k: int|
                (w.at)(seq![i[1], c, k]) * padded_at(
                    b,
                    i[0],
                    c,
                    i[2] * layer.stride + k * layer.dilation - layer.padding,
                );
            let q = |k: int|
                (w.at)(seq![s[1], c, k]) * padded_at(
                    a,
                    s[0],
                    c,
                    s[2] * layer.stride + k * layer.dilation - layer.padding,
                );
            assert forall|k: int| 0 <= k < layer.kernel implies #[trigger] p(k) == q(k) by {
                let j = i[2] * layer.stride + k * layer.dilation - layer.padding;
                if 0 <= j < b.dims[2] {
                    assert(within(seq![i[0], c, j], b.dims));
                    assert(shifted(seq![i[0], c, j], off) =~= seq![s[0], c, j]);
                }
            }
            lemma_same_total(p, q, layer.kernel as nat);
        }
        lemma_same_total(f, g, layer.in_channels as nat);
    }
}

/// Transposed convolutions.
pub(crate) proof fn lemma_part_transposed_convolution(
    a: Array,
    b: Array,
    w: Array,
    v: Array,
    layer: ConvLayer,
    n: usize,
    off: int,
)
    requires
        is_part(a, b, n, off),
        a.dims.len() == 3,
        a.dims[1] == layer.in_channels,
    ensures
        is_part(transposed_convolution(a, w, v, layer), transposed_convolution(b, w, v, layer), n, off),
{
    let (x, y) = (transposed_convolution(a, w, v, layer), transposed_convolution(b, w, v, layer));
    assert(y.dims =~= x.dims.update(0, n));
    let len = a.dims[2] as nat;
    assert forall|i: Seq<int>| within(i, y.dims) implies #[trigger] (y.at)(i) == (x.at)(shifted(i, off)) by {
        assert(0 <= i[0] < y.dims[0]);
        let s = shifted(i, off);
        let f = |c: int|
            total(
                |l: int|
                    total(
                        |k: int|
                            if l * layer.stride + k * layer.dilation == i[2] + layer.padding {
                                (b.at)(seq![i[0], c, l]) * (w.at)(seq![c, i[1], k])
                            } else {
                                0 as real
                            },
                        layer.kernel as nat,
                    ),
                b.dims[2] as nat,
            );
        let g = |c: int|
            total(
                |l: int|
                    total(
                        |k: int|
                            if l * layer.stride + k * layer.dilation == s[2] + layer.padding {
                                (a.at)(seq![s[0], c, l]) * (w.at)(seq![c, s[1], k])
                            } else {
                                0 as real
                            },
                        layer.kernel as nat,
                    ),
                a.dims[2] as nat,
            );
        assert forall|c: int| 0 <= c < layer.in_channels implies #[trigger] f(c) == g(c) by {
            let p = |l: int|
                total(
                    |k: int|
                        if l * layer.stride + k * layer.dilation == i[2] + layer.padding {
                            (b.at)(seq![i[0], c, l]) * (w.at)(seq![c, i[1], k])
                        } else {
                            0 as real
                        },
                    layer.kernel as nat,
                );
            let q = |l: int|
                total(
                    |k: int|
                        if l * layer.stride + k * layer.dilation == s[2] + layer.padding {
                            (a.at)(seq![s[0], c, l]) * (w.at)(seq![c, s[1], k])
                        } else {
                            0 as real
                        },
                    layer.kernel as nat,
                );
            assert forall|l: int| 0 <= l < len implies #[trigger] p(l) == q(l) by {
                let t = |k: int|
                    if l * layer.stride + k * layer.dilation == i[2] + layer.padding {
                        (b.at)(seq![i[0], c, l]) * (w.at)(seq![c, i[1], k])
                    } else {
                        0 as real
                    };
                let u = |k: int|
                    if l * layer.stride + k * layer.dilation == s[2] + layer.padding {
                        (a.at)(seq![s[0], c, l]) * (w.at)(seq![c, s[1], k])
                    } else {
                        0 as real
                    };
                assert(within(seq![i[0], c, l], b.dims));
                assert(shifted(seq![i[0], c, l], off) =~= seq![s[0], c, l]);
                lemma_same_total(t, u, layer.kernel as nat);
            }
            lemma_same_total(p, q, len);
        }
        lemma_same_total(f, g, layer.in_channels as nat);
    }
}

/// Two-dimensional convolutions.
pub(crate) proof fn lemma_part_square_convolution(
    a: Array,
    b: Array,
    w: Array,
    v: Array,
    layer: ConvLayer,
    n: usize,
    off: int,
)
    requires
        is_part(a, b, n, off),
        a.dims.len() == 4,
        a.dims[1] == layer.in_channels,
    ensures
        is_part(square_convolution(a, w, v, layer), square_convolution(b, w, v, layer), n, off),
{
    let (x, y) = (square_convolution(a, w, v, layer), square_convolution(b, w, v, layer));
    assert(y.dims =~= x.dims.update(0, n));
    let kernel = layer.kernel as nat;
    assert forall|i: Seq<int>| within(i, y.dims) implies #[trigger] (y.at)(i) == (x.at)(shifted(i, off)) by {
        assert(0 <= i[0] < y.dims[0]);
        let s = shifted(i, off);
        let f = |c: int|
            total(
                |k: int|
                    total(
                        |l: int|
                            (w.at)(seq![i[1], c, k, l]) * pixel_at(
                                b,
                                i[0],
                                c,
                                i[2] * layer.stride + k * layer.dilation - layer.padding,
                                i[3] * layer.stride + l * layer.dilation - layer.padding,
                            ),
                        layer.kernel as nat,
                    ),
                layer.kernel as nat,
            );
        let g = |c: int|
            total(
                |k: int|
                    total(
                        |l: int|
                            (w.at)(seq![s[1], c, k, l]) * pixel_at(
                                a,
                                s[0],
                                c,
                                s[2] * layer.stride + k * layer.dilation - layer.padding,
                                s[3] * layer.stride + l * layer.dilation - layer.padding,
                            ),
                        layer.kernel as nat,
                    ),
                layer.kernel as nat,
            );
        assert forall|c: int| 0 <= c < layer.in_channels implies #[trigger] f(c) == g(c) by {
            let p = |k: int|
                total(
                    |l: int|
                        (w.at)(seq![i[1], c, k, l]) * pixel_at(
                            b,
                            i[0],
                            c,
                            i[2] * layer.stride + k * layer.dilation - layer.padding,
                            i[3] * layer.stride + l * layer.dilation - layer.padding,
                        ),
                    layer.kernel as nat,
                );
            let q = |k: int|
                total(
                    |l: int|
                        (w.at)(seq![s[1], c, k, l]) * pixel_at(
                            a,
                            s[0],
                            c,
                            s[2] * layer.stride + k * layer.dilation - layer.padding,
                            s[3] * layer.stride + l * layer.dilation - layer.padding,
                        ),
                    layer.kernel as nat,
                );
            assert forall|k: int| 0 <= k < kernel implies #[trigger] p(k) == q(k) by {
                let t = |l: int|
                    (w.at)(seq![i[1], c, k, l]) * pixel_at(
                        b,
                        i[0],
                        c,
                        i[2] * layer.stride + k * layer.dilation - layer.padding,
                        i[3] * layer.stride + l * layer.dilation - layer.padding,
                    );
                let u = |l: int|
                    (w.at)(seq![s[1], c, k, l]) * pixel_at(
                        a,
                        s[0],
                        c,
                        s[2] * layer.stride + k * layer.dilation - layer.padding,
                        s[3] * layer.stride + l * layer.dilation - layer.padding,
                    );
                assert forall|l: int| 0 <= l < kernel implies #[trigger] t(l) == u(l) by {
                    let j = i[2] * layer.stride + k * layer.dilation - layer.padding;
                    let m = i[3] * layer.stride + l * layer.dilation - layer.padding;
                    if 0 <= j < b.dims[2] && 0 <= m < b.dims[3] {
                        assert(within(seq![i[0], c, j, m], b.dims));
                        assert(shifted(seq![i[0], c, j, m], off) =~= seq![s[0], c, j, m]);
                    }
                }
                lemma_same_total(t, u, kernel);
            }
            lemma_same_total(p, q, kernel);
        }
        lemma_same_total(f, g, layer.in_channels as nat);
    }
}

/// Linear layers.
pub(crate) proof fn lemma_part_linear(a: Array, b: Array, w: Array, v: Array, layer: LinearLayer, n: usize, off: int)
    requires
        is_part(a, b, n, off),
        a.dims.len() >= 2,
        a.dims.last() == layer.in_dim,
    ensures
        is_part(linear_map(a, w, v, layer), linear_map(b, w, v, layer), n, off),
{
    let last = a.dims.len() - 1;
    let (x, y) = (linear_map(a, w, v, layer), linear_map(b, w, v, layer));
    assert(y.dims =~= x.dims.update(0, n));
    assert forall|i: Seq<int>| within(i, y.dims) implies #[trigger] (y.at)(i) == (x.at)(shifted(i, off)) by {
        let s = shifted(i, off);
        let f = |k: int| (w.at)(seq![i[last], k]) * (b.at)(i.update(last, k));
        let g = |k: int| (w.at)(seq![s[last], k]) * (a.at)(s.update(last, k));
        assert forall|k: int| 0 <= k < layer.in_dim implies #[trigger] f(k) == g(k) by {
            lemma_within_update(i, y.dims, last, k, b.dims[last]);
            assert(y.dims.update(last, b.dims[last]) =~= b.dims);
            assert(shifted(i.update(last, k), off) =~= s.update(last, k));
        }
        lemma_same_total(f, g, layer.in_dim as nat);
    }
}

/// Layer normalisations.
pub(crate) proof fn lemma_part_normalised(
    a: Array,
    b: Array,
    w: Array,
    v: Array,
    root: spec_fn(real) -> real,
    n: usize,
    off: int,
)
    requires
        is_part(a, b, n, off),
        a.dims.len() >= 2,
    ensures
        is_part(normalised_rows(a, w, v, root), normalised_rows(b, w, v, root), n, off),
{
    let last = a.dims.len() - 1;
    let len = a.dims[last] as nat;
    let (x, y) = (normalised_rows(a, w, v, root), normalised_rows(b, w, v, root));
    assert forall|i: Seq<int>| within(i, y.dims) implies #[trigger] (y.at)(i) == (x.at)(shifted(i, off)) by {
        let s = shifted(i, off);
        assert(0 <= i[last] < y.dims[last]);
        let f = |k: int| (b.at)(i.update(last, k));
        let g = |k: int| (a.at)(s.update(last, k));
        assert forall|k: int| 0 <= k < len implies #[trigger] f(k) == g(k) by {
            lemma_within_update(i, y.dims, last, k, b.dims[last]);
            assert(y.dims.update(last, b.dims[last]) =~= b.dims);
            assert(shifted(i.update(last, k), off) =~= s.update(last, k));
        }
        lemma_same_total(f, g, len);
        let mean = total(f, len) / (len as real);
        let p = |k: int| (f(k) - mean) * (f(k) - mean);
        let q = |k: int| (g(k) - mean) * (g(k) - mean);
        assert forall|k: int| 0 <= k < len implies #[trigger] p(k) == q(k) by {
            assert(f(k) == g(k));
        }
        lemma_same_total(p, q, len);
        assert(f(i[last]) == g(i[last]));
    }
}

/// Zeros, or the ends, put before and after along an axis other than the first.
pub(crate) proof fn lemma_part_padded(a: Array, b: Array, axis: int, left: int, right: int, n: usize, off: int)
    requires
        is_part(a, b, n, off),
        0 < axis < a.dims.len(),
        0 <= left,
        0 <= right,
        left + a.dims[axis] + right <= usize::MAX,
    ensures
        is_part(with_zeros(a, axis, left, right), with_zeros(b, axis, left, right), n, off),
        a.dims[axis] >= 1 ==> is_part(with_ends(a, axis, left, right), with_ends(b, axis, left, right), n, off),
{
    let (x, y) = (with_zeros(a, axis, left, right), with_zeros(b, axis, left, right));
    assert(y.dims =~= x.dims.update(0, n));
    assert forall|i: Seq<int>| within(i, y.dims) implies #[trigger] (y.at)(i) == (x.at)(shifted(i, off)) by {
        let s = shifted(i, off);
        if 0 <= i[axis] - left < a.dims[axis] {
            let p = i.update(axis, i[axis] - left);
            lemma_within_update(i, y.dims, axis, i[axis] - left, b.dims[axis]);
            assert(y.dims.update(axis, b.dims[axis]) =~= b.dims);
            assert((b.at)(p) == (a.at)(shifted(p, off)));
            assert(s.update(axis, s[axis] - left) =~= shifted(p, off));
        }
    }
    if a.dims[axis] >= 1 {
        let (x, y) = (with_ends(a, axis, left, right), with_ends(b, axis, left, right));
        assert(y.dims =~= x.dims.update(0, n));
        assert forall|i: Seq<int>| within(i, y.dims) implies #[trigger] (y.at)(i) == (x.at)(shifted(i, off)) by {
            let s = shifted(i, off);
            let v = within_range(i[axis] - left, 0, a.dims[axis] - 1);
            let p = i.update(axis, v);
            lemma_within_update(i, y.dims, axis, v, b.dims[axis]);
            assert(y.dims.update(axis, b.dims[axis]) =~= b.dims);
            assert((b.at)(p) == (a.at)(shifted(p, off)));
            assert(s.update(axis, v) =~= shifted(p, off));
        }
    }
}

/// Counts are not negative, and count the items of the first axis.
pub(crate) proof fn lemma_count(dims: Seq<usize>)
    ensures
        element_count(dims) >= 0,
        dims.len() >= 1 ==> element_count(dims) == dims[0] * element_count(dims.skip(1)),
    decreases dims.len(),
{
    if dims.len() >= 1 {
        lemma_count(dims.drop_last());
        let (c, d) = (element_count(dims.drop_last()), dims.last());
        assert(c * d >= 0) by (nonlinear_arith)
            requires
                c >= 0,
                d >= 0,
        ;
        if dims.len() == 1 {
            assert(dims.drop_last() =~= Seq::<usize>::empty());
            assert(dims.skip(1) =~= Seq::<usize>::empty());
        } else {
            let rest = element_count(dims.drop_last().skip(1));
            assert(dims.skip(1).drop_last() =~= dims.drop_last().skip(1));
            assert((dims[0] * rest) * d == dims[0] * (rest * d)) by (nonlinear_arith);
        }
    }
}

/// Parts of a division.
proof fn lemma_division(p: int, d: int, q: int, c: int)
    requires
        d > 0,
    ensures
        (p + q * d) / d == p / d + q,
        (p + q * d) % d == p % d,
        0 <= p < c * d ==> 0 <= p / d < c,
{
    lemma_fundamental_div_mod(p, d);
    let (h, l) = (p / d, p % d);
    assert(p + q * d == d * (h + q) + l) by (nonlinear_arith)
        requires
            p == d * h + l,
    ;
    lemma_fundamental_div_mod_converse(p + q * d, d, h + q, l);
    if 0 <= p < c * d {
        assert(0 <= h < c) by (nonlinear_arith)
            requires
                p == d * h + l,
                0 <= l < d,
                0 <= p < c * d,
        ;
    }
}

/// There is an element at every place.
pub(crate) proof fn lemma_indices_within(p: int, dims: Seq<usize>)
    requires
        0 <= p < element_count(dims),
    ensures
        within(indices_at(p, dims), dims),
        position(indices_at(p, dims), dims) == p,
    decreases dims.len(),
{
    if dims.len() >= 1 {
        let (front, d) = (dims.drop_last(), dims.last() as int);
        let c = element_count(front);
        lemma_count(front);
        assert(d > 0) by (nonlinear_arith)
            requires
                0 < c * d,
                c >= 0,
        ;
        lemma_division(p, d, 0, c);
        lemma_indices_within(p / d, front);
        let (i, j) = (indices_at(p, dims), indices_at(p / d, front));
        assert(i.drop_last() =~= j && i.last() == p % d);
        lemma_fundamental_div_mod(p, d);
        assert((p / d) * d + p % d == p) by (nonlinear_arith)
            requires
                p == d * (p / d) + p % d,
        ;
        assert forall|k: int| 0 <= k < i.len() implies 0 <= #[trigger] i[k] < dims[k] by {
            if k < j.len() {
                assert(0 <= j[k] < front[k]);
            }
        }
    }
}

/// Every element has a place.
pub(crate) proof fn lemma_position_within(i: Seq<int>, dims: Seq<usize>)
    requires
        within(i, dims),
    ensures
        0 <= position(i, dims) < element_count(dims),
        indices_at(position(i, dims), dims) == i,
    decreases dims.len(),
{
    if dims.len() >= 1 {
        let (front, d) = (dims.drop_last(), dims.last() as int);
        let (j, l) = (i.drop_last(), i.last());
        assert(0 <= i[i.len() - 1] < dims[i.len() - 1]);
        assert forall|k: int| 0 <= k < j.len() implies 0 <= #[trigger] j[k] < front[k] by {
            assert(0 <= i[k] < dims[k]);
        }
        lemma_position_within(j, front);
        let (q, c) = (position(j, front), element_count(front));
        assert(0 <= q * d + l < c * d) by (nonlinear_arith)
            requires
                0 <= q < c,
                0 <= l < d,
        ;
        assert(q * d + l == d * q + l) by (nonlinear_arith);
        lemma_fundamental_div_mod_converse(q * d + l, d, q, l);
        assert(indices_at(position(i, dims), dims) =~= i);
    } else {
        assert(i =~= Seq::<int>::empty());
    }
}

/// The extent of the first axis does not matter for the place of an element.
proof fn lemma_position_first(i: Seq<int>, dims: Seq<usize>, n: usize)
    requires
        dims.len() >= 1,
        i.len() == dims.len(),
    ensures
        position(i, dims.update(0, n)) == position(i, dims),
    decreases dims.len(),
{
    let more = dims.update(0, n);
    if dims.len() >= 2 {
        lemma_position_first(i.drop_last(), dims.drop_last(), n);
        assert(more.drop_last() =~= dims.drop_last().update(0, n));
        assert(more.last() == dims.last());
    } else {
        assert(i.drop_last() =~= Seq::<int>::empty());
        assert(dims.drop_last() =~= Seq::<usize>::empty() && more.drop_last() =~= Seq::<usize>::empty());
        assert(position(i.drop_last(), dims.drop_last()) == 0);
        assert(position(i.drop_last(), more.drop_last()) == 0);
        assert(0 * more.last() == 0 && 0 * dims.last() == 0);
    }
}

/// Items further on are further on by the elements of the items between.
proof fn lemma_position_shifted(i: Seq<int>, dims: Seq<usize>, off: int)
    requires
        dims.len() >= 1,
        i.len() == dims.len(),
    ensures
        position(shifted(i, off), dims) == position(i, dims) + off * element_count(dims.skip(1)),
    decreases dims.len(),
{
    let s = shifted(i, off);
    if dims.len() >= 2 {
        let (front, d) = (dims.drop_last(), dims.last() as int);
        lemma_position_shifted(i.drop_last(), front, off);
        assert(s.drop_last() =~= shifted(i.drop_last(), off));
        assert(dims.skip(1).drop_last() =~= front.skip(1));
        let (q, c) = (position(i.drop_last(), front), element_count(front.skip(1)));
        assert((q + off * c) * d == q * d + off * (c * d)) by (nonlinear_arith);
    } else {
        assert(dims.skip(1) =~= Seq::<usize>::empty());
        assert(dims.drop_last() =~= Seq::<usize>::empty());
        assert(position(i.drop_last(), dims.drop_last()) == 0);
        assert(position(s.drop_last(), dims.drop_last()) == 0);
        assert(0 * dims.last() == 0);
    }
}

/// Places further on are those of items further on.
proof fn lemma_indices_shifted(p: int, dims: Seq<usize>, n: usize, off: int)
    requires
        dims.len() >= 1,
        0 <= off,
        off + n <= dims[0],
        0 <= p < element_count(dims.update(0, n)),
    ensures
        indices_at(p + off * element_count(dims.skip(1)), dims) == shifted(indices_at(p, dims.update(0, n)), off),
    decreases dims.len(),
{
    let less = dims.update(0, n);
    let (front, d) = (dims.drop_last(), dims.last() as int);
    lemma_indices_within(p, less);
    if dims.len() >= 2 {
        let c = element_count(less.drop_last());
        lemma_count(less.drop_last());
        assert(d > 0) by (nonlinear_arith)
            requires
                0 < c * d,
                c >= 0,
        ;
        assert(less.drop_last() =~= front.update(0, n));
        assert(dims.skip(1).drop_last() =~= front.skip(1));
        let rest = element_count(front.skip(1));
        assert(off * (rest * d) == (off * rest) * d) by (nonlinear_arith);
        lemma_division(p, d, off * rest, c);
        lemma_division(p, d, 0, c);
        lemma_indices_within(p / d, front.update(0, n));
        lemma_indices_shifted(p / d, front, n, off);
        let j = indices_at(p / d, front.update(0, n));
        assert(indices_at(p, less) == j.push(p % d));
        assert(shifted(j.push(p % d), off) =~= shifted(j, off).push(p % d));
    } else {
        assert(dims.skip(1) =~= Seq::<usize>::empty());
        assert(front =~= Seq::<usize>::empty() && less.drop_last() =~= Seq::<usize>::empty());
        assert(element_count(less) == 1 * n);
        assert(p + off == dims[0] * 0 + (p + off) && p == n * 0 + p && off * 1 == off);
        lemma_fundamental_div_mod_converse(p + off, dims[0] as int, 0, p + off);
        lemma_fundamental_div_mod_converse(p, n as int, 0, p);
        assert(indices_at(p + off, dims) =~= seq![p + off]);
        assert(indices_at(p, less) =~= seq![p]);
        assert(shifted(seq![p], off) =~= seq![p + off]);
    }
}

/// The elements of every item under another shape.
pub(crate) proof fn lemma_part_regrouped(a: Array, b: Array, dims: Seq<usize>, n: usize, off: int)
    requires
        is_part(a, b, n, off),
        dims.len() >= 1,
        dims[0] == a.dims[0],
        element_count(dims.skip(1)) == element_count(a.dims.skip(1)),
    ensures
        is_part(regrouped(a, dims), regrouped(b, dims.update(0, n)), n, off),
{
    let less = dims.update(0, n);
    let (x, y) = (regrouped(a, dims), regrouped(b, less));
    let rest = element_count(dims.skip(1));
    lemma_count(less);
    lemma_count(b.dims);
    assert(less.skip(1) =~= dims.skip(1) && b.dims.skip(1) =~= a.dims.skip(1));
    assert forall|i: Seq<int>| within(i, y.dims) implies #[trigger] (y.at)(i) == (x.at)(shifted(i, off)) by {
        let p = position(i, less);
        lemma_position_within(i, less);
        lemma_indices_within(p, b.dims);
        lemma_indices_shifted(p, a.dims, n, off);
        lemma_position_first(i, dims, n);
        lemma_position_shifted(i, dims, off);
        let q = indices_at(p, b.dims);
        assert((b.at)(q) == (a.at)(shifted(q, off)));
    }
}

/// The same values under another shape.
pub(crate) proof fn lemma_same_regrouped(a: Array, b: Array, dims: Seq<usize>)
    requires
        same_values(a, b),
        element_count(dims) == element_count(a.dims),
    ensures
        same_values(regrouped(a, dims), regrouped(b, dims)),
{
    let (x, y) = (regrouped(a, dims), regrouped(b, dims));
    assert forall|i: Seq<int>| within(i, x.dims) implies #[trigger] (x.at)(i) == (y.at)(i) by {
        lemma_position_within(i, dims);
        let q = indices_at(position(i, dims), a.dims);
        lemma_indices_within(position(i, dims), a.dims);
        assert((a.at)(q) == (b.at)(q));
    }
}

/// Values under another shape and back.
pub(crate) proof fn lemma_regrouped_back(a: Array, dims: Seq<usize>)
    requires
        element_count(dims) == element_count(a.dims),
    ensures
        same_values(regrouped(regrouped(a, dims), a.dims), a),
{
    let x = regrouped(regrouped(a, dims), a.dims);
    assert forall|i: Seq<int>| within(i, x.dims) implies #[trigger] (x.at)(i) == (a.at)(i) by {
        lemma_position_within(i, a.dims);
        lemma_indices_within(position(i, a.dims), dims);
    }
}

/// The mean of the same values.
pub(crate) proof fn lemma_same_mean(a: Array, b: Array)
    requires
        same_values(a, b),
    ensures
        (mean_of_all(a).at)(Seq::empty()) == (mean_of_all(b).at)(Seq::empty()),
        same_values(mean_of_all(a), mean_of_all(b)),
{
    let n = element_count(a.dims);
    lemma_count(a.dims);
    let f = |p: int| (a.at)(indices_at(p, a.dims));
    let g = |p: int| (b.at)(indices_at(p, b.dims));
    assert forall|p: int| 0 <= p < n implies #[trigger] f(p) == g(p) by {
        lemma_indices_within(p, a.dims);
    }
    lemma_same_total(f, g, n as nat);
}

} // verus!
