//! Laws on speaker embeddings in exact arithmetic: utterances of a batch are embedded as if each were
//! alone, and an offset per bin does not matter.

use crate::agreement::{bias_of, lemma_agree_reshaped, lemma_agree_through};
use crate::batch::{
    are_stacked, is_part, lemma_part_chained, lemma_part_combined, lemma_part_combined_shared, lemma_part_convolution,
    lemma_part_mapped, lemma_part_picked, lemma_part_products, lemma_part_regrouped, lemma_part_slice,
    lemma_part_spread, lemma_part_square_convolution, lemma_part_sums, lemma_part_turned, lemma_same_is_part,
};
use crate::campplus::{
    are_embeddings, batch_norm, block_dilation, block_entry, block_layers, cam_layer, dense_block, dense_blocks,
    embedding, even_rows, evens, fits, fits_alone, front_blocks, front_end, front_fits, front_stages, halved,
    is_embedding, layer_scope, local_padding, norm_relu, norm_scale, norm_shift, per_channel, point_conv, pooled,
    res_block, segment_len, segment_mean, segment_means, segments, square_conv, stem, stem_frames, transit_scope,
    whole_block,
};
use crate::exact::{
    added_up, chained, combined, exact, extents, function_of, lemma_all_exact, mapped, picked, same_values, slice,
    summed, turned, within, Array, Reading,
};
use crate::graph::{
    axis_mean, axis_sum, convolved, difference, indices as indices_graph, inverse, matrix_product, narrowed, over,
    product, reshaped, sum, transposed, unary, whole, BinaryOp, ConvLayer, Graph, UnaryOp,
};
use crate::layers::{conv_of, Scope};
use crate::tensor::{broadcast_shape, broadcastable, conv_len, graph, lemma_element_count, pad_left, shape};
use crate::values::{law_centring_removes_offsets, lemma_length_of, lemma_segments_extent};
use candle_core::Tensor;
use vstd::prelude::*;

verus! {

/// Whether `h` computes the items `off .. off + n` of what `g` computes.
#[verifier::opaque]
spec fn are_items(r: Reading, g: Graph, h: Graph, n: usize, off: int) -> bool {
    is_part(exact(g, r), exact(h, r), n, off)
}

/// A function of every element treats items apart.
proof fn lemma_unary_items(r: Reading, op: UnaryOp, g: Graph, h: Graph, n: usize, off: int)
    requires
        are_items(r, g, h, n, off),
    ensures
        are_items(r, unary(op, g), unary(op, h), n, off),
        exact(unary(op, g), r).dims == exact(g, r).dims,
{
    reveal(are_items);
    lemma_part_mapped(exact(g, r), exact(h, r), function_of(r, op), n, off);
}

/// A division by a number treats items apart.
proof fn lemma_over_items(r: Reading, g: Graph, h: Graph, m: int, n: usize, off: int)
    requires
        are_items(r, g, h, n, off),
    ensures
        are_items(r, over(g, m), over(h, m), n, off),
        exact(over(g, m), r).dims == exact(g, r).dims,
{
    reveal(are_items);
    let factor = (exact(inverse(m), r).at)(Seq::empty());
    let summand = (exact(whole(0), r).at)(Seq::empty());
    lemma_part_mapped(exact(g, r), exact(h, r), |v: real| v * factor + summand, n, off);
}

/// A combination of two batches treats items apart.
proof fn lemma_binary_items(r: Reading, op: BinaryOp, g: Graph, h: Graph, p: Graph, q: Graph, n: usize, off: int)
    requires
        are_items(r, g, h, n, off),
        are_items(r, p, q, n, off),
        exact(g, r).dims.len() == exact(p, r).dims.len(),
        exact(g, r).dims[0] == exact(p, r).dims[0],
        broadcastable(exact(g, r).dims, exact(p, r).dims),
    ensures
        are_items(
            r,
            Graph::Binary(op, Box::new(g), Box::new(p)),
            Graph::Binary(op, Box::new(h), Box::new(q)),
            n,
            off,
        ),
        exact(Graph::Binary(op, Box::new(g), Box::new(p)), r).dims == broadcast_shape(
            exact(g, r).dims,
            exact(p, r).dims,
        ),
{
    reveal(are_items);
    lemma_part_combined(op, exact(g, r), exact(h, r), exact(p, r), exact(q, r), n, off);
}

/// A convolution treats items apart.
proof fn lemma_conv_items(r: Reading, g: Graph, h: Graph, layer: ConvLayer, n: usize, off: int)
    requires
        are_items(r, g, h, n, off),
        exact(g, r).dims.len() == 3,
        exact(g, r).dims[1] == layer.in_channels,
    ensures
        are_items(r, convolved(g, layer), convolved(h, layer), n, off),
        exact(convolved(g, layer), r).dims == seq![
            exact(g, r).dims[0],
            layer.out_channels,
            conv_len(
                exact(g, r).dims[2] as int,
                layer.kernel as int,
                layer.padding as int,
                layer.stride as int,
                layer.dilation as int,
            ) as usize,
        ],
{
    reveal(are_items);
    let (w, v) = (exact(*layer.weight, r), bias_of(r, layer));
    lemma_part_convolution(exact(g, r), exact(h, r), w, v, layer, n, off);
}

/// A square convolution treats items apart, and keeps the extents of its input.
proof fn lemma_square_items(
    r: Reading,
    s: Scope,
    c: usize,
    d: usize,
    kernel: usize,
    g: Graph,
    h: Graph,
    n: usize,
    off: int,
)
    requires
        are_items(r, g, h, n, off),
        exact(g, r).dims.len() == 4,
        exact(g, r).dims[1] == c,
        kernel == 1 || kernel == 3,
    ensures
        are_items(r, square_conv(s, c, d, kernel, g), square_conv(s, c, d, kernel, h), n, off),
        exact(square_conv(s, c, d, kernel, g), r).dims == exact(g, r).dims.update(1, d),
{
    reveal(are_items);
    let layer = conv_of(s, false, c, d, kernel, ((kernel - 1) / 2) as usize, 1, 1);
    let (w, v) = (exact(*layer.weight, r), bias_of(r, layer));
    lemma_part_square_convolution(exact(g, r), exact(h, r), w, v, layer, n, off);
    assert(exact(square_conv(s, c, d, kernel, g), r).dims =~= exact(g, r).dims.update(1, d));
}

/// A batch normalisation treats items apart, with the rectifier and without.
proof fn lemma_norm_items(
    r: Reading,
    s: Scope,
    channels: usize,
    affine: bool,
    g: Graph,
    h: Graph,
    rank: nat,
    n: usize,
    off: int,
)
    requires
        are_items(r, g, h, n, off),
        exact(g, r).dims.len() == rank >= 2,
        exact(g, r).dims[1] == channels,
    ensures
        are_items(r, batch_norm(s, channels, affine, g, rank), batch_norm(s, channels, affine, h, rank), n, off),
        exact(batch_norm(s, channels, affine, g, rank), r).dims == exact(g, r).dims,
        affine ==> are_items(r, norm_relu(s, channels, g, rank), norm_relu(s, channels, h, rank), n, off),
        affine ==> exact(norm_relu(s, channels, g, rank), r).dims == exact(g, r).dims,
{
    reveal(are_items);
    let dims = per_channel(channels, rank);
    let scale = reshaped(norm_scale(s, affine), dims);
    let shift = reshaped(norm_shift(s, affine), dims);
    let a = exact(g, r).dims;
    assert(exact(scale, r).dims == dims && exact(shift, r).dims == dims);
    assert(pad_left(a, rank) =~= a && pad_left(dims, rank) =~= dims);
    assert(broadcastable(a, dims));
    assert(broadcast_shape(a, dims) =~= a);
    lemma_part_combined_shared(BinaryOp::Product, exact(g, r), exact(h, r), exact(scale, r), n, off);
    assert(exact(product(g, scale), r) == combined(BinaryOp::Product, exact(g, r), exact(scale, r)));
    assert(exact(product(h, scale), r) == combined(BinaryOp::Product, exact(h, r), exact(scale, r)));
    lemma_part_combined_shared(
        BinaryOp::Sum,
        exact(product(g, scale), r),
        exact(product(h, scale), r),
        exact(shift, r),
        n,
        off,
    );
    lemma_unary_items(
        r,
        UnaryOp::Relu,
        batch_norm(s, channels, affine, g, rank),
        batch_norm(s, channels, affine, h, rank),
        n,
        off,
    );
}

/// Leaving rows out treats items apart.
proof fn lemma_rows_items(r: Reading, g: Graph, h: Graph, rows: usize, n: usize, off: int)
    requires
        are_items(r, g, h, n, off),
        exact(g, r).dims.len() == 4,
        exact(g, r).dims[2] == rows <= u32::MAX,
    ensures
        are_items(r, even_rows(g, rows as nat), even_rows(h, rows as nat), n, off),
        exact(even_rows(g, rows as nat), r).dims == exact(g, r).dims.update(2, halved(rows)),
{
    reveal(are_items);
    let v = evens(rows as nat);
    let list = Seq::new(v.len(), |i: int| v[i] as int);
    assert(indices_graph(v) == Graph::Integers(list));
    lemma_part_picked(exact(g, r), exact(h, r), list, 2, n, off);
    assert(exact(even_rows(g, rows as nat), r) == picked(exact(g, r), list, 2));
    assert(exact(even_rows(h, rows as nat), r) == picked(exact(h, r), list, 2));
}

/// A residual block treats items apart.
#[verifier::spinoff_prover]
proof fn lemma_res_block_items(
    r: Reading,
    s: Scope,
    planes: usize,
    stride: usize,
    g: Graph,
    h: Graph,
    rows: usize,
    n: usize,
    off: int,
)
    requires
        are_items(r, g, h, n, off),
        exact(g, r).dims.len() == 4,
        exact(g, r).dims[1] == planes,
        exact(g, r).dims[2] == rows <= u32::MAX,
    ensures
        are_items(
            r,
            res_block(s, planes, stride, g, rows as nat),
            res_block(s, planes, stride, h, rows as nat),
            n,
            off,
        ),
        exact(res_block(s, planes, stride, g, rows as nat), r).dims == exact(g, r).dims.update(
            2,
            if stride != 1 { halved(rows) } else { rows },
        ),
{
    let m = rows as nat;
    let a = exact(g, r).dims;
    let b = a.update(2, if stride != 1 { halved(rows) } else { rows });
    assert(a.update(1, planes) =~= a);
    lemma_square_items(r, s.at("conv1"@), planes, planes, 3, g, h, n, off);
    let c1g = square_conv(s.at("conv1"@), planes, planes, 3, g);
    let c1h = square_conv(s.at("conv1"@), planes, planes, 3, h);
    lemma_rows_items(r, c1g, c1h, rows, n, off);
    let (fg, fh) = if stride != 1 { (even_rows(c1g, m), even_rows(c1h, m)) } else { (c1g, c1h) };
    assert(exact(fg, r).dims =~= b);
    lemma_norm_items(r, s.at("bn1"@), planes, true, fg, fh, 4, n, off);
    let fg = norm_relu(s.at("bn1"@), planes, fg, 4);
    let fh = norm_relu(s.at("bn1"@), planes, fh, 4);
    lemma_square_items(r, s.at("conv2"@), planes, planes, 3, fg, fh, n, off);
    assert(b.update(1, planes) =~= b);
    let cg = square_conv(s.at("conv2"@), planes, planes, 3, fg);
    let ch = square_conv(s.at("conv2"@), planes, planes, 3, fh);
    lemma_norm_items(r, s.at("bn2"@), planes, true, cg, ch, 4, n, off);
    let sg = batch_norm(s.at("bn2"@), planes, true, cg, 4);
    let sh = batch_norm(s.at("bn2"@), planes, true, ch, 4);
    let (rg, rh) = if stride != 1 {
        let pg = square_conv(s.at("shortcut.0"@), planes, planes, 1, g);
        let ph = square_conv(s.at("shortcut.0"@), planes, planes, 1, h);
        lemma_square_items(r, s.at("shortcut.0"@), planes, planes, 1, g, h, n, off);
        lemma_rows_items(r, pg, ph, rows, n, off);
        lemma_norm_items(r, s.at("shortcut.1"@), planes, true, even_rows(pg, m), even_rows(ph, m), 4, n, off);
        (
            batch_norm(s.at("shortcut.1"@), planes, true, even_rows(pg, m), 4),
            batch_norm(s.at("shortcut.1"@), planes, true, even_rows(ph, m), 4),
        )
    } else {
        (g, h)
    };
    assert(exact(rg, r).dims =~= b);
    lemma_same_dims(b);
    lemma_binary_items(r, BinaryOp::Sum, sg, sh, rg, rh, n, off);
    lemma_unary_items(r, UnaryOp::Relu, sum(sg, rg), sum(sh, rh), n, off);
}

/// Operands of one shape meet, and give that shape.
proof fn lemma_same_dims(dims: Seq<usize>)
    ensures
        broadcastable(dims, dims),
        broadcast_shape(dims, dims) == dims,
{
    assert(broadcast_shape(dims, dims) =~= dims);
}

/// The residual blocks of the front-end treat items apart.
proof fn lemma_front_stages_items(
    r: Reading,
    s: Scope,
    g: Graph,
    h: Graph,
    f: usize,
    t: usize,
    m: nat,
    n: usize,
    off: int,
)
    requires
        m <= 4,
        f <= u32::MAX,
        are_items(r, g, h, n, off),
        exact(g, r).dims.len() == 4,
        exact(g, r).dims == seq![exact(g, r).dims[0], 32usize, f, t],
    ensures
        are_items(r, front_stages(s, g, f, m), front_stages(s, h, f, m), n, off),
        exact(front_stages(s, g, f, m), r).dims == seq![
            exact(g, r).dims[0],
            32usize,
            if m < 4 { front_blocks(s, f)[m as int].1 } else { halved(halved(f)) },
            t,
        ],
    decreases m,
{
    if m > 0 {
        let l = (m - 1) as nat;
        lemma_front_stages_items(r, s, g, h, f, t, l, n, off);
        let (scope, rows, stride) = front_blocks(s, f)[l as int];
        let (pg, ph) = (front_stages(s, g, f, l), front_stages(s, h, f, l));
        lemma_res_block_items(r, scope, 32, stride, pg, ph, rows, n, off);
        assert(exact(front_stages(s, g, f, m), r).dims =~= seq![
            exact(g, r).dims[0],
            32usize,
            if m < 4 { front_blocks(s, f)[m as int].1 } else { halved(halved(f)) },
            t,
        ]);
    }
}

/// The front-end treats items apart.
#[verifier::spinoff_prover]
proof fn lemma_front_items(
    r: Reading,
    s: Scope,
    g: Graph,
    h: Graph,
    b: usize,
    f: usize,
    t: usize,
    n: usize,
    off: int,
)
    requires
        are_items(r, g, h, n, off),
        exact(g, r).dims == seq![b, f, t],
        front_fits(f, t),
    ensures
        are_items(r, front_end(s, g, b, f, t), front_end(s, h, n, f, t), n, off),
        exact(front_end(s, g, b, f, t), r).dims == seq![b, (32 * halved(halved(halved(f)))) as usize, t],
{
    reveal(are_items);
    let dims = seq![b, 1usize, f, t];
    assert(dims.skip(1) =~= seq![1usize, f, t] && exact(g, r).dims.skip(1) =~= seq![f, t]);
    lemma_element_count(seq![1usize, f, t]);
    lemma_element_count(seq![f, t]);
    assert(1 * f * t == f * t);
    lemma_part_regrouped(exact(g, r), exact(h, r), dims, n, off);
    assert(dims.update(0, n) =~= seq![n, 1usize, f, t]);
    let (ig, ih) = (reshaped(g, dims), reshaped(h, seq![n, 1usize, f, t]));
    assert(are_items(r, ig, ih, n, off));
    lemma_square_items(r, s.at("conv1"@), 1, 32, 3, ig, ih, n, off);
    let cg = square_conv(s.at("conv1"@), 1, 32, 3, ig);
    let ch = square_conv(s.at("conv1"@), 1, 32, 3, ih);
    lemma_norm_items(r, s.at("bn1"@), 32, true, cg, ch, 4, n, off);
    let fg = norm_relu(s.at("bn1"@), 32, cg, 4);
    let fh = norm_relu(s.at("bn1"@), 32, ch, 4);
    assert(exact(fg, r).dims =~= seq![b, 32usize, f, t]);
    lemma_front_stages_items(r, s, fg, fh, f, t, 4, n, off);
    let (lg, lh) = (front_stages(s, fg, f, 4), front_stages(s, fh, f, 4));
    let rows = halved(halved(f));
    lemma_square_items(r, s.at("conv2"@), 32, 32, 3, lg, lh, n, off);
    let lg = square_conv(s.at("conv2"@), 32, 32, 3, lg);
    let lh = square_conv(s.at("conv2"@), 32, 32, 3, lh);
    lemma_rows_items(r, lg, lh, rows, n, off);
    let (lg, lh) = (even_rows(lg, rows as nat), even_rows(lh, rows as nat));
    assert(exact(lg, r).dims =~= seq![b, 32usize, halved(rows), t]);
    lemma_norm_items(r, s.at("bn2"@), 32, true, lg, lh, 4, n, off);
    let lg = norm_relu(s.at("bn2"@), 32, lg, 4);
    let lh = norm_relu(s.at("bn2"@), 32, lh, 4);
    let c = (32 * halved(rows)) as usize;
    let dims = seq![b, c, t];
    assert(dims.skip(1) =~= seq![c, t]);
    assert(exact(lg, r).dims.skip(1) =~= seq![32usize, halved(rows), t]);
    lemma_element_count(seq![c, t]);
    lemma_element_count(seq![32usize, halved(rows), t]);
    lemma_part_regrouped(exact(lg, r), exact(lh, r), dims, n, off);
    assert(dims.update(0, n) =~= seq![n, c, t]);
}

/// The mean of a segment treats items apart.
proof fn lemma_segment_items(
    r: Reading,
    g: Graph,
    h: Graph,
    b: usize,
    c: usize,
    t: usize,
    seg_len: nat,
    i: int,
    n: usize,
    off: int,
)
    requires
        are_items(r, g, h, n, off),
        exact(g, r).dims == seq![b, c, t],
        seg_len > 0,
        t > 0,
        0 <= i < segments(t as nat, seg_len),
    ensures
        are_items(
            r,
            segment_mean(g, b, c, t as nat, seg_len, i),
            segment_mean(h, n, c, t as nat, seg_len, i),
            n,
            off,
        ),
        exact(segment_mean(g, b, c, t as nat, seg_len, i), r).dims == seq![
            b,
            c,
            segment_len(t as nat, seg_len, i) as usize,
        ],
        0 <= segment_len(t as nat, seg_len, i) <= t,
{
    reveal(are_items);
    lemma_length_of(t as nat, seg_len, i);
    let len = segment_len(t as nat, seg_len, i);
    let start = i * seg_len;
    let (cg, ch) = (narrowed(g, 2, start, len), narrowed(h, 2, start, len));
    lemma_part_slice(exact(g, r), exact(h, r), 2, start, len, n, off);
    assert(exact(cg, r) == slice(exact(g, r), 2, start, len));
    assert(exact(ch, r) == slice(exact(h, r), 2, start, len));
    lemma_part_sums(exact(cg, r), exact(ch, r), 2, n, off);
    let extent = exact(cg, r).dims[2] as real;
    let divide = |v: real| v / extent;
    lemma_part_mapped(summed(exact(cg, r), 2), summed(exact(ch, r), 2), divide, n, off);
    let (mg, mh) = (axis_mean(cg, 2, true), axis_mean(ch, 2, true));
    assert(exact(mg, r) == mapped(summed(exact(cg, r), 2), divide));
    assert(exact(ch, r).dims[2] == exact(cg, r).dims[2]);
    assert(exact(mh, r) == mapped(summed(exact(ch, r), 2), divide));
    let dims = seq![b, c, len as usize];
    assert(exact(mg, r).dims =~= seq![b, c, 1usize]);
    lemma_part_spread(exact(mg, r), exact(mh, r), dims, n, off);
    assert(dims.update(0, n) =~= seq![n, c, len as usize]);
}

/// Segment means treat items apart.
proof fn lemma_segments_items(
    r: Reading,
    g: Graph,
    h: Graph,
    b: usize,
    c: usize,
    t: usize,
    seg_len: nat,
    n: usize,
    off: int,
)
    requires
        are_items(r, g, h, n, off),
        exact(g, r).dims == seq![b, c, t],
        seg_len > 0,
        t > 0,
    ensures
        are_items(r, segment_means(g, b, c, t as nat, seg_len), segment_means(h, n, c, t as nat, seg_len), n, off),
        exact(segment_means(g, b, c, t as nat, seg_len), r).dims == seq![b, c, t],
{
    reveal(are_items);
    let count = segments(t as nat, seg_len);
    let pg = Seq::new(count, |i: int| segment_mean(g, b, c, t as nat, seg_len, i));
    let ph = Seq::new(count, |i: int| segment_mean(h, n, c, t as nat, seg_len, i));
    let ag = Seq::new(count, |i: int| exact(pg[i], r));
    let ah = Seq::new(count, |i: int| exact(ph[i], r));
    lemma_all_exact(pg, ag, r);
    lemma_all_exact(ph, ah, r);
    assert forall|i: int| 0 <= i < count implies is_part(#[trigger] ag[i], ah[i], n, off) && ag[i].dims == seq![
        b,
        c,
        segment_len(t as nat, seg_len, i) as usize,
    ] by {
        lemma_segment_items(r, g, h, b, c, t, seg_len, i, n, off);
    }
    assert forall|k: int| 0 <= k < ag.len() implies (#[trigger] ag[k]).dims[2] == segment_len(t as nat, seg_len, k) by {
        assert(is_part(ag[k], ah[k], n, off));
        lemma_length_of(t as nat, seg_len, k);
    }
    lemma_segments_extent(ag, t as nat, seg_len);
    assert forall|k: int| 0 <= k < ag.len() implies (#[trigger] ag[k]).dims == ag[0].dims.update(2, ag[k].dims[2]) by {
        assert(is_part(ag[k], ah[k], n, off) && is_part(ag[0], ah[0], n, off));
        assert(ag[k].dims =~= ag[0].dims.update(2, ag[k].dims[2]));
    }
    assert(are_stacked(ag, 2));
    lemma_part_chained(ag, ah, 2, n, off);
    assert(exact(segment_means(g, b, c, t as nat, seg_len), r) == chained(ag, 2));
    assert(exact(segment_means(h, n, c, t as nat, seg_len), r) == chained(ah, 2));
}

/// Means and sums over the frames treat items apart.
proof fn lemma_reduction_items(r: Reading, g: Graph, h: Graph, keep: bool, n: usize, off: int)
    requires
        are_items(r, g, h, n, off),
        exact(g, r).dims.len() == 3,
    ensures
        are_items(r, axis_mean(g, 2, keep), axis_mean(h, 2, keep), n, off),
        are_items(r, axis_sum(g, 2, keep), axis_sum(h, 2, keep), n, off),
        exact(axis_mean(g, 2, keep), r).dims == (if keep {
            exact(g, r).dims.update(2, 1)
        } else {
            exact(g, r).dims.remove(2)
        }),
        exact(axis_sum(g, 2, keep), r).dims == exact(axis_mean(g, 2, keep), r).dims,
{
    reveal(are_items);
    let (a, b) = (exact(g, r), exact(h, r));
    lemma_part_sums(a, b, 2, n, off);
    let extent = a.dims[2] as real;
    let divide = |v: real| v / extent;
    assert(b.dims[2] == a.dims[2]);
    if keep {
        lemma_part_mapped(summed(a, 2), summed(b, 2), divide, n, off);
        assert(exact(axis_mean(g, 2, keep), r) == mapped(summed(a, 2), divide));
        assert(exact(axis_mean(h, 2, keep), r) == mapped(summed(b, 2), divide));
    } else {
        lemma_part_mapped(added_up(a, 2), added_up(b, 2), divide, n, off);
        assert(exact(axis_mean(g, 2, keep), r) == mapped(added_up(a, 2), divide));
        assert(exact(axis_mean(h, 2, keep), r) == mapped(added_up(b, 2), divide));
    }
}

/// A context-aware masking layer treats items apart.
#[verifier::spinoff_prover]
proof fn lemma_cam_items(
    r: Reading,
    s: Scope,
    channels: usize,
    dilation: usize,
    g: Graph,
    h: Graph,
    b: usize,
    t: usize,
    n: usize,
    off: int,
)
    requires
        are_items(r, g, h, n, off),
        exact(g, r).dims == seq![b, channels, t],
        1 <= dilation <= 2,
        t > 0,
    ensures
        are_items(
            r,
            cam_layer(s, channels, 32, 128, 3, dilation, g, b, t),
            cam_layer(s, channels, 32, 128, 3, dilation, h, n, t),
            n,
            off,
        ),
        exact(cam_layer(s, channels, 32, 128, 3, dilation, g, b, t), r).dims == seq![b, 32usize, t],
{
    let cam = s.at("cam_layer"@);
    lemma_norm_items(r, s.at("nonlinear1.batchnorm"@), channels, true, g, h, 3, n, off);
    let zg = norm_relu(s.at("nonlinear1.batchnorm"@), channels, g, 3);
    let zh = norm_relu(s.at("nonlinear1.batchnorm"@), channels, h, 3);
    let layer = conv_of(s.at("linear1"@), false, channels, 128, 1, 0, 1, 1);
    lemma_conv_items(r, zg, zh, layer, n, off);
    let zg = point_conv(s.at("linear1"@), channels, 128, zg);
    let zh = point_conv(s.at("linear1"@), channels, 128, zh);
    assert(exact(zg, r).dims =~= seq![b, 128usize, t]);
    lemma_norm_items(r, s.at("nonlinear2.batchnorm"@), 128, true, zg, zh, 3, n, off);
    let zg = norm_relu(s.at("nonlinear2.batchnorm"@), 128, zg, 3);
    let zh = norm_relu(s.at("nonlinear2.batchnorm"@), 128, zh, 3);
    let padding = local_padding(3, dilation) as usize;
    assert(padding == dilation);
    let layer = conv_of(cam.at("linear_local"@), false, 128, 32, 3, padding, 1, dilation);
    lemma_conv_items(r, zg, zh, layer, n, off);
    let (lg, lh) = (convolved(zg, layer), convolved(zh, layer));
    assert(conv_len(t as int, 3, padding as int, 1, dilation as int) == t);
    assert(exact(lg, r).dims =~= seq![b, 32usize, t]);
    lemma_reduction_items(r, zg, zh, true, n, off);
    assert(exact(axis_mean(zg, 2, true), r).dims =~= seq![b, 128usize, 1usize]);
    lemma_segments_items(r, zg, zh, b, 128, t, 100, n, off);
    let mg = segment_means(zg, b, 128, t as nat, 100);
    let mh = segment_means(zh, n, 128, t as nat, 100);
    let (one, all) = (seq![b, 128usize, 1usize], seq![b, 128usize, t]);
    assert(pad_left(one, 3) =~= one && pad_left(all, 3) =~= all);
    assert(broadcastable(one, all));
    assert(broadcast_shape(one, all) =~= all);
    lemma_binary_items(r, BinaryOp::Sum, axis_mean(zg, 2, true), axis_mean(zh, 2, true), mg, mh, n, off);
    let (cg, ch) = (sum(axis_mean(zg, 2, true), mg), sum(axis_mean(zh, 2, true), mh));
    let layer = conv_of(cam.at("linear1"@), true, 128, 64, 1, 0, 1, 1);
    lemma_conv_items(r, cg, ch, layer, n, off);
    lemma_unary_items(r, UnaryOp::Relu, convolved(cg, layer), convolved(ch, layer), n, off);
    let hg = unary(UnaryOp::Relu, convolved(cg, layer));
    let hh = unary(UnaryOp::Relu, convolved(ch, layer));
    assert(exact(hg, r).dims =~= seq![b, 64usize, t]);
    let layer = conv_of(cam.at("linear2"@), true, 64, 32, 1, 0, 1, 1);
    lemma_conv_items(r, hg, hh, layer, n, off);
    lemma_unary_items(r, UnaryOp::Sigmoid, convolved(hg, layer), convolved(hh, layer), n, off);
    let mg = unary(UnaryOp::Sigmoid, convolved(hg, layer));
    let mh = unary(UnaryOp::Sigmoid, convolved(hh, layer));
    assert(exact(mg, r).dims =~= seq![b, 32usize, t]);
    lemma_same_dims(seq![b, 32usize, t]);
    lemma_binary_items(r, BinaryOp::Product, lg, lh, mg, mh, n, off);
}

/// Two batches one after the other along the second axis.
proof fn lemma_pair_items(
    r: Reading,
    g: Graph,
    h: Graph,
    p: Graph,
    q: Graph,
    n: usize,
    off: int,
)
    requires
        are_items(r, g, h, n, off),
        are_items(r, p, q, n, off),
        exact(g, r).dims.len() >= 2,
        exact(p, r).dims == exact(g, r).dims.update(1, exact(p, r).dims[1]),
        exact(g, r).dims[1] + exact(p, r).dims[1] <= usize::MAX,
    ensures
        are_items(r, Graph::Concat(seq![g, p], 1), Graph::Concat(seq![h, q], 1), n, off),
        exact(Graph::Concat(seq![g, p], 1), r).dims == exact(g, r).dims.update(
            1,
            (exact(g, r).dims[1] + exact(p, r).dims[1]) as usize,
        ),
{
    reveal(are_items);
    let (a, b) = (seq![exact(g, r), exact(p, r)], seq![exact(h, r), exact(q, r)]);
    lemma_all_exact(seq![g, p], a, r);
    lemma_all_exact(seq![h, q], b, r);
    reveal_with_fuel(extents, 3);
    assert(a.drop_last() =~= seq![exact(g, r)]);
    assert(a.drop_last().drop_last() =~= Seq::<Array>::empty());
    assert(extents(a, 1) == exact(g, r).dims[1] + exact(p, r).dims[1]);
    assert(a[0].dims =~= a[0].dims.update(1, a[0].dims[1]));
    assert forall|k: int| 0 <= k < a.len() implies is_part(#[trigger] a[k], b[k], n, off) by {
        if k == 0 {
        } else {
            assert(k == 1);
        }
    }
    assert(are_stacked(a, 1));
    lemma_part_chained(a, b, 1, n, off);
    assert(exact(Graph::Concat(seq![g, p], 1), r) == chained(a, 1));
    assert(exact(Graph::Concat(seq![h, q], 1), r) == chained(b, 1));
}

/// One more layer of a dense block treats items apart.
#[verifier::spinoff_prover]
proof fn lemma_layer_items(
    r: Reading,
    scope: Scope,
    channels: usize,
    d: usize,
    g: Graph,
    h: Graph,
    b: usize,
    t: usize,
    n: usize,
    off: int,
)
    requires
        are_items(r, g, h, n, off),
        exact(g, r).dims == seq![b, channels, t],
        channels + 32 <= usize::MAX,
        1 <= d <= 2,
        t > 0,
    ensures
        are_items(r, longer(scope, channels, d, g, b, t), longer(scope, channels, d, h, n, t), n, off),
        exact(longer(scope, channels, d, g, b, t), r).dims == seq![b, (channels + 32) as usize, t],
{
    reveal(longer);
    lemma_cam_items(r, scope, channels, d, g, h, b, t, n, off);
    let ag = cam_layer(scope, channels, 32, 128, 3, d, g, b, t);
    let ah = cam_layer(scope, channels, 32, 128, 3, d, h, n, t);
    assert(exact(ag, r).dims =~= exact(g, r).dims.update(1, exact(ag, r).dims[1]));
    lemma_pair_items(r, g, h, ag, ah, n, off);
    assert(exact(longer(scope, channels, d, g, b, t), r).dims =~= seq![b, (channels + 32) as usize, t]);
}

/// What one more layer of a dense block makes of what there is.
#[verifier::opaque]
spec fn longer(scope: Scope, channels: usize, d: usize, x: Graph, b: usize, t: usize) -> Graph {
    Graph::Concat(seq![x, cam_layer(scope, channels, 32, 128, 3, d, x, b, t)], 1)
}

/// A dense block is made layer by layer.
proof fn lemma_dense_step(xv: Scope, i: nat, m: nat, x: Graph, b: usize, t: usize)
    ensures
        dense_block(xv, i, m + 1, x, b, t) == longer(
            layer_scope(xv, i, m),
            (block_entry(i) + 32 * m) as usize,
            block_dilation(i),
            dense_block(xv, i, m, x, b, t),
            b,
            t,
        ),
{
    reveal(longer);
}

/// A dense block treats items apart.
#[verifier::spinoff_prover]
proof fn lemma_dense_items(
    r: Reading,
    xv: Scope,
    i: nat,
    m: nat,
    g: Graph,
    h: Graph,
    b: usize,
    t: usize,
    n: usize,
    off: int,
)
    requires
        are_items(r, g, h, n, off),
        i < 3,
        m <= 24,
        exact(g, r).dims == seq![b, block_entry(i) as usize, t],
        block_entry(i) <= 512,
        t > 0,
    ensures
        are_items(r, dense_block(xv, i, m, g, b, t), dense_block(xv, i, m, h, n, t), n, off),
        exact(dense_block(xv, i, m, g, b, t), r).dims == seq![b, (block_entry(i) + 32 * m) as usize, t],
    decreases m,
{
    if m > 0 {
        let l = (m - 1) as nat;
        let channels = (block_entry(i) + 32 * l) as usize;
        lemma_dense_items(r, xv, i, l, g, h, b, t, n, off);
        lemma_dense_step(xv, i, l, g, b, t);
        lemma_dense_step(xv, i, l, h, n, t);
        let (pg, ph) = (dense_block(xv, i, l, g, b, t), dense_block(xv, i, l, h, n, t));
        lemma_layer_items(r, layer_scope(xv, i, l), channels, block_dilation(i), pg, ph, b, t, n, off);
    }
}

/// A dense block with its transit layer treats items apart.
#[verifier::spinoff_prover]
proof fn lemma_block_items(
    r: Reading,
    xv: Scope,
    i: nat,
    g: Graph,
    h: Graph,
    b: usize,
    t: usize,
    n: usize,
    off: int,
)
    requires
        are_items(r, g, h, n, off),
        i < 3,
        exact(g, r).dims == seq![b, block_entry(i) as usize, t],
        block_entry(i) <= 512,
        t > 0,
    ensures
        are_items(r, whole_block(xv, i, g, b, t), whole_block(xv, i, h, n, t), n, off),
        exact(whole_block(xv, i, g, b, t), r).dims == seq![b, block_entry(i + 1) as usize, t],
{
    let m = block_layers(i) as nat;
    let (dg, dh) = (dense_block(xv, i, m, g, b, t), dense_block(xv, i, m, h, n, t));
    lemma_dense_items(r, xv, i, m, g, h, b, t, n, off);
    let s = transit_scope(xv, i);
    let channels = (block_entry(i) + 32 * block_layers(i)) as usize;
    let out = block_entry(i + 1) as usize;
    lemma_norm_items(r, s.at("nonlinear.batchnorm"@), channels, true, dg, dh, 3, n, off);
    let zg = norm_relu(s.at("nonlinear.batchnorm"@), channels, dg, 3);
    let zh = norm_relu(s.at("nonlinear.batchnorm"@), channels, dh, 3);
    let layer = conv_of(s.at("linear"@), false, channels, out, 1, 0, 1, 1);
    lemma_conv_items(r, zg, zh, layer, n, off);
    assert(exact(whole_block(xv, i, g, b, t), r).dims =~= seq![b, out, t]);
}

/// The pooling over frames treats items apart.
#[verifier::spinoff_prover]
proof fn lemma_pool_items(r: Reading, g: Graph, h: Graph, b: usize, t: usize, n: usize, off: int)
    requires
        are_items(r, g, h, n, off),
        exact(g, r).dims == seq![b, 512usize, t],
    ensures
        are_items(r, pooled(g, b, t), pooled(h, n, t), n, off),
        exact(pooled(g, b, t), r).dims == seq![b, 1024usize],
{
    reveal(are_items);
    lemma_reduction_items(r, g, h, false, n, off);
    let (mg, mh) = (axis_mean(g, 2, false), axis_mean(h, 2, false));
    assert(exact(mg, r).dims =~= seq![b, 512usize]);
    let dims = seq![b, 512usize, 1usize];
    assert(dims.skip(1) =~= seq![512usize, 1usize] && exact(mg, r).dims.skip(1) =~= seq![512usize]);
    lemma_element_count(seq![512usize, 1usize]);
    lemma_element_count(seq![512usize]);
    lemma_part_regrouped(exact(mg, r), exact(mh, r), dims, n, off);
    assert(dims.update(0, n) =~= seq![n, 512usize, 1usize]);
    let (kg, kh) = (reshaped(mg, dims), reshaped(mh, seq![n, 512usize, 1usize]));
    let all = seq![b, 512usize, t];
    assert(pad_left(dims, 3) =~= dims && pad_left(all, 3) =~= all);
    assert(broadcastable(all, dims));
    assert(broadcast_shape(all, dims) =~= all);
    lemma_binary_items(r, BinaryOp::Difference, g, h, kg, kh, n, off);
    let (cg, ch) = (difference(g, kg), difference(h, kh));
    lemma_unary_items(r, UnaryOp::Sqr, cg, ch, n, off);
    lemma_reduction_items(r, unary(UnaryOp::Sqr, cg), unary(UnaryOp::Sqr, ch), false, n, off);
    let tg = axis_sum(unary(UnaryOp::Sqr, cg), 2, false);
    let th = axis_sum(unary(UnaryOp::Sqr, ch), 2, false);
    assert(exact(tg, r).dims =~= seq![b, 512usize]);
    lemma_over_items(r, tg, th, t - 1, n, off);
    lemma_unary_items(r, UnaryOp::Sqrt, over(tg, t - 1), over(th, t - 1), n, off);
    let dg = unary(UnaryOp::Sqrt, over(tg, t - 1));
    let dh = unary(UnaryOp::Sqrt, over(th, t - 1));
    assert(exact(dg, r).dims =~= exact(mg, r).dims.update(1, exact(dg, r).dims[1]));
    lemma_pair_items(r, mg, mh, dg, dh, n, off);
    assert(exact(pooled(g, b, t), r).dims =~= seq![b, 1024usize]);
}

/// The channels that the dense blocks get.
proof fn lemma_entries()
    ensures
        block_entry(0) == 128,
        block_entry(1) == 256,
        block_entry(2) == 512,
        block_entry(3) == 512,
{
    reveal_with_fuel(block_entry, 4);
}

/// The dense blocks treat items apart.
proof fn lemma_blocks_items(
    r: Reading,
    xv: Scope,
    m: nat,
    g: Graph,
    h: Graph,
    b: usize,
    t: usize,
    n: usize,
    off: int,
)
    requires
        are_items(r, g, h, n, off),
        m <= 3,
        exact(g, r).dims == seq![b, 128usize, t],
        t > 0,
    ensures
        are_items(r, dense_blocks(xv, m, g, b, t), dense_blocks(xv, m, h, n, t), n, off),
        exact(dense_blocks(xv, m, g, b, t), r).dims == seq![b, block_entry(m) as usize, t],
    decreases m,
{
    lemma_entries();
    if m > 0 {
        let l = (m - 1) as nat;
        lemma_blocks_items(r, xv, l, g, h, b, t, n, off);
        lemma_block_items(r, xv, l, dense_blocks(xv, l, g, b, t), dense_blocks(xv, l, h, n, t), b, t, n, off);
    }
}

/// What the dense blocks get of filterbanks.
spec fn trunk(s: Scope, feat: Graph, b: usize, t: usize, f: usize) -> Graph {
    let xv = s.at("xvector"@);
    let front = front_end(s.at("head"@), transposed(feat, 1, 2), b, f, t);
    norm_relu(xv.at("tdnn.nonlinear.batchnorm"@), 128, convolved(front, stem(xv)), 3)
}

/// What comes before the dense blocks treats items apart.
#[verifier::spinoff_prover]
proof fn lemma_trunk_items(
    r: Reading,
    s: Scope,
    feat: Graph,
    part: Graph,
    b: usize,
    t: usize,
    f: usize,
    n: usize,
    off: int,
)
    requires
        are_items(r, feat, part, n, off),
        exact(feat, r).dims == seq![b, t, f],
        front_fits(f, t),
        32 * halved(halved(halved(f))) == 320,
        t + 4 <= usize::MAX,
    ensures
        are_items(r, trunk(s, feat, b, t, f), trunk(s, part, n, t, f), n, off),
        exact(trunk(s, feat, b, t, f), r).dims == seq![b, 128usize, stem_frames(t)],
{
    reveal(are_items);
    let xv = s.at("xvector"@);
    let frames = stem_frames(t);
    lemma_part_turned(exact(feat, r), exact(part, r), 1, 2, n, off);
    let (xg, xh) = (transposed(feat, 1, 2), transposed(part, 1, 2));
    assert(exact(xg, r) == turned(exact(feat, r), 1, 2) && exact(xh, r) == turned(exact(part, r), 1, 2));
    assert(exact(xg, r).dims =~= seq![b, f, t]);
    lemma_front_items(r, s.at("head"@), xg, xh, b, f, t, n, off);
    let (fg, fh) = (front_end(s.at("head"@), xg, b, f, t), front_end(s.at("head"@), xh, n, f, t));
    lemma_conv_items(r, fg, fh, stem(xv), n, off);
    let (cg, ch) = (convolved(fg, stem(xv)), convolved(fh, stem(xv)));
    assert(conv_len(t as int, 5, 2, 2, 1) == frames);
    assert(exact(cg, r).dims =~= seq![b, 128usize, frames]);
    lemma_norm_items(r, xv.at("tdnn.nonlinear.batchnorm"@), 128, true, cg, ch, 3, n, off);
}

/// The embeddings of what comes after the dense blocks.
spec fn crown(s: Scope, x: Graph, b: usize, t: usize) -> Graph {
    let xv = s.at("xvector"@);
    let last = norm_relu(xv.at("out_nonlinear.batchnorm"@), 512, x, 3);
    let dense = reshaped(xv.at("dense"@).parameter("linear.weight"@), seq![192usize, 1024usize]);
    batch_norm(
        xv.at("dense"@).at("nonlinear.batchnorm"@),
        192,
        false,
        matrix_product(pooled(last, b, t), transposed(dense, 0, 1)),
        2,
    )
}

/// What comes after the dense blocks treats items apart.
#[verifier::spinoff_prover]
proof fn lemma_crown_items(r: Reading, s: Scope, g: Graph, h: Graph, b: usize, t: usize, n: usize, off: int)
    requires
        are_items(r, g, h, n, off),
        exact(g, r).dims == seq![b, 512usize, t],
    ensures
        are_items(r, crown(s, g, b, t), crown(s, h, n, t), n, off),
        exact(crown(s, g, b, t), r).dims == seq![b, 192usize],
{
    reveal(are_items);
    let xv = s.at("xvector"@);
    lemma_norm_items(r, xv.at("out_nonlinear.batchnorm"@), 512, true, g, h, 3, n, off);
    let lg = norm_relu(xv.at("out_nonlinear.batchnorm"@), 512, g, 3);
    let lh = norm_relu(xv.at("out_nonlinear.batchnorm"@), 512, h, 3);
    lemma_pool_items(r, lg, lh, b, t, n, off);
    let (pg, ph) = (pooled(lg, b, t), pooled(lh, n, t));
    let dense = reshaped(xv.at("dense"@).parameter("linear.weight"@), seq![192usize, 1024usize]);
    let matrix = transposed(dense, 0, 1);
    assert(exact(dense, r).dims == seq![192usize, 1024usize]);
    assert(exact(matrix, r) == turned(exact(dense, r), 0, 1));
    assert(exact(matrix, r).dims =~= seq![1024usize, 192usize]);
    lemma_part_products(exact(pg, r), exact(ph, r), exact(matrix, r), n, off);
    let (mg, mh) = (matrix_product(pg, matrix), matrix_product(ph, matrix));
    assert(are_items(r, mg, mh, n, off));
    assert(exact(mg, r).dims =~= seq![b, 192usize]);
    lemma_norm_items(r, xv.at("dense"@).at("nonlinear.batchnorm"@), 192, false, mg, mh, 2, n, off);
}

/// The encoder treats items apart.
#[verifier::spinoff_prover]
proof fn lemma_embedding_items(
    r: Reading,
    s: Scope,
    feat: Graph,
    part: Graph,
    b: usize,
    t: usize,
    f: usize,
    n: usize,
    off: int,
)
    requires
        are_items(r, feat, part, n, off),
        exact(feat, r).dims == seq![b, t, f],
        front_fits(f, t),
        32 * halved(halved(halved(f))) == 320,
        t + 4 <= usize::MAX,
    ensures
        are_items(r, embedding(s, feat, b, t, f), embedding(s, part, n, t, f), n, off),
        exact(embedding(s, feat, b, t, f), r).dims == seq![b, 192usize],
{
    let xv = s.at("xvector"@);
    let frames = stem_frames(t);
    lemma_trunk_items(r, s, feat, part, b, t, f, n, off);
    let (g, h) = (trunk(s, feat, b, t, f), trunk(s, part, n, t, f));
    lemma_entries();
    lemma_blocks_items(r, xv, 3, g, h, b, frames, n, off);
    let (dg, dh) = (dense_blocks(xv, 3, g, b, frames), dense_blocks(xv, 3, h, n, frames));
    lemma_crown_items(r, s, dg, dh, b, frames, n, off);
    assert(embedding(s, feat, b, t, f) == crown(s, dg, b, frames));
    assert(embedding(s, part, n, t, f) == crown(s, dh, n, frames));
}

/// The utterances of a batch do not influence each other: where `part` holds the filterbanks of some
/// utterances of `feat`, from the one at `off` on, their embeddings `z` are the rows of `y`, the
/// embeddings of `feat`, from `off` on. One utterance alone is such a part.
pub proof fn law_utterances_are_embedded_apart(
    r: Reading,
    s: Scope,
    feat: Tensor,
    part: Tensor,
    y: Tensor,
    z: Tensor,
    off: int,
)
    requires
        fits(shape(feat)),
        are_embeddings(s, feat, y),
        are_embeddings(s, part, z),
        exact(graph(feat), r).dims == shape(feat),
        shape(part) == shape(feat).update(0, shape(part)[0]),
        is_part(exact(graph(feat), r), exact(graph(part), r), shape(part)[0], off),
    ensures
        is_part(exact(graph(y), r), exact(graph(z), r), shape(part)[0], off),
        exact(graph(y), r).dims == shape(y),
{
    reveal(are_items);
    let (b, t, f) = (shape(feat)[0], shape(feat)[1], shape(feat)[2]);
    assert(shape(feat) =~= seq![b, t, f]);
    lemma_embedding_items(r, s, graph(feat), graph(part), b, t, f, shape(part)[0], off);
}

/// A filterbank less its mean has its shape.
proof fn lemma_centred_dims(r: Reading, x: Graph, t: usize, f: usize)
    requires
        exact(x, r).dims == seq![t, f],
    ensures
        exact(difference(x, axis_mean(x, 0, true)), r).dims == seq![t, f],
{
    reveal_with_fuel(exact, 2);
    let (all, row) = (seq![t, f], seq![1usize, f]);
    assert(exact(axis_mean(x, 0, true), r).dims =~= row);
    assert(pad_left(row, 2) =~= row && pad_left(all, 2) =~= all);
    assert(broadcast_shape(all, row) =~= all);
}

/// A value per bin that is added to every frame does not matter: filterbanks that differ by an offset
/// per bin have equal embeddings.
pub proof fn law_embedding_ignores_offsets(
    r: Reading,
    s: Scope,
    fbank: Tensor,
    other: Tensor,
    offset: spec_fn(int) -> real,
    y: Tensor,
    z: Tensor,
)
    requires
        fits_alone(shape(fbank)),
        is_embedding(s, fbank, y),
        is_embedding(s, other, z),
        shape(other) == shape(fbank),
        exact(graph(fbank), r).dims == shape(fbank),
        exact(graph(other), r).dims == shape(fbank),
        forall|i: Seq<int>|
            within(i, shape(fbank)) ==> #[trigger] (exact(graph(other), r).at)(i) == (exact(graph(fbank), r).at)(i)
                + offset(i[1]),
    ensures
        same_values(exact(graph(y), r), exact(graph(z), r)),
{
    reveal(are_items);
    let (t, f) = (shape(fbank)[0], shape(fbank)[1]);
    assert(shape(fbank) =~= seq![t, f]);
    assert(seq![1usize, t, f][1] == t && seq![1usize, t, f][2] == f);
    let (x, o) = (graph(fbank), graph(other));
    let dims = seq![1usize, t, f];
    let (u, v) = (difference(x, axis_mean(x, 0, true)), difference(o, axis_mean(o, 0, true)));
    law_centring_removes_offsets(r, x, o, offset);
    lemma_centred_dims(r, x, t, f);
    lemma_centred_dims(r, o, t, f);
    lemma_agree_through(r, v, u, u);
    lemma_element_count(dims);
    lemma_element_count(seq![t, f]);
    assert(1 * t * f == t * f);
    lemma_agree_reshaped(r, u, v, dims);
    let (p, q) = (reshaped(u, dims), reshaped(v, dims));
    lemma_same_is_part(exact(p, r), exact(q, r));
    lemma_embedding_items(r, s, p, q, 1, t, f, 1, 0);
    lemma_same_is_part(exact(graph(y), r), exact(graph(z), r));
}

} // verus!
