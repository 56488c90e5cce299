//! Laws on the length regulator: stretching is a selection of frames, and four blocks follow it.

use crate::agreement::{
    agree, lemma_agree_affine, lemma_agree_binary, lemma_agree_convolved, lemma_agree_itself, lemma_agree_mean,
    lemma_agree_reshaped, lemma_agree_transposed, lemma_agree_unary,
};
use crate::batch::lemma_indices_within;
use crate::exact::{
    clipped, combined, exact, function_of, indices_at, lemma_same_total, linear_map, mapped, mean_of_all, picked,
    position, regrouped, same_values, total, turned, within, Reading,
};
use crate::formulas::{lemma_column_at, lemma_within_three};
use crate::graph::{
    convolved, difference, indices as indices_graph, inverse, plus, plus_inverse, product, quotient, reshaped,
    selected, sum, total_mean, transposed, unary, whole, BinaryOp, ConvLayer, Graph, LinearLayer, UnaryOp,
};
use crate::layers::{conv_of, linear_of, Scope};
use crate::regulator::{
    blocks_of, entry, fits, group_norm, is_regulated, mish, per_channel, regulated, sources,
};
use crate::single::{law_same_length_is_identity, source_index};
use crate::tensor::{broadcast_shape, broadcastable, conv_len, graph, lemma_element_count, pad_left, shape};
use crate::text::decimal;
use crate::values::lemma_clipped;
use crate::waveforms::lemma_column_meets;
use candle_core::Tensor;
use vstd::prelude::*;

verus! {

/// Group normalisation makes the same of the same.
proof fn lemma_agree_group_norm(r: Reading, s: Scope, g: Graph, h: Graph, b: usize, n: usize)
    requires
        agree(r, g, h),
        exact(g, r).dims == seq![b, 512usize, n],
    ensures
        agree(r, group_norm(s, g), group_norm(s, h)),
        exact(group_norm(s, g), r).dims == seq![b, 512usize, n],
{
    let (all, one) = (seq![b, 512usize, n], seq![1usize, 1usize, 1usize]);
    assert(pad_left(all, 3) =~= all && pad_left(one, 3) =~= one);
    assert(broadcastable(all, one));
    assert(broadcast_shape(all, one) =~= all);
    lemma_element_count(Seq::<usize>::empty());
    lemma_element_count(one);
    lemma_agree_mean(r, g, h);
    lemma_agree_reshaped(r, total_mean(g), total_mean(h), one);
    let (mg, mh) = (reshaped(total_mean(g), one), reshaped(total_mean(h), one));
    lemma_agree_binary(r, BinaryOp::Difference, g, h, mg, mh);
    let (cg, ch) = (difference(g, mg), difference(h, mh));
    lemma_agree_unary(r, UnaryOp::Sqr, cg, ch);
    lemma_agree_mean(r, unary(UnaryOp::Sqr, cg), unary(UnaryOp::Sqr, ch));
    let (vg, vh) = (total_mean(unary(UnaryOp::Sqr, cg)), total_mean(unary(UnaryOp::Sqr, ch)));
    lemma_agree_affine(r, vg, vh, whole(1), inverse(100_000));
    lemma_agree_unary(r, UnaryOp::Sqrt, plus_inverse(vg, 100_000), plus_inverse(vh, 100_000));
    let sg = unary(UnaryOp::Sqrt, plus_inverse(vg, 100_000));
    let sh = unary(UnaryOp::Sqrt, plus_inverse(vh, 100_000));
    lemma_agree_reshaped(r, sg, sh, one);
    lemma_agree_binary(r, BinaryOp::Quotient, cg, ch, reshaped(sg, one), reshaped(sh, one));
    let (qg, qh) = (quotient(cg, reshaped(sg, one)), quotient(ch, reshaped(sh, one)));
    let w = reshaped(s.parameter("weight"@), per_channel());
    let v = reshaped(s.parameter("bias"@), per_channel());
    lemma_agree_itself(r, w);
    lemma_agree_itself(r, v);
    assert(exact(w, r).dims == per_channel() && exact(v, r).dims == per_channel());
    lemma_column_meets(b, 512, n);
    lemma_agree_binary(r, BinaryOp::Product, qg, qh, w, w);
    lemma_agree_binary(r, BinaryOp::Sum, product(qg, w), product(qh, w), v, v);
}

/// Mish makes the same of the same.
proof fn lemma_agree_mish(r: Reading, g: Graph, h: Graph, b: usize, c: usize, n: usize)
    requires
        agree(r, g, h),
        exact(g, r).dims == seq![b, c, n],
    ensures
        agree(r, mish(g), mish(h)),
        exact(mish(g), r).dims == seq![b, c, n],
{
    lemma_agree_unary(r, UnaryOp::Exp, g, h);
    let (eg, eh) = (unary(UnaryOp::Exp, g), unary(UnaryOp::Exp, h));
    lemma_agree_affine(r, eg, eh, whole(1), whole(1));
    let (eg, eh) = (plus(eg, 1), plus(eh, 1));
    lemma_agree_unary(r, UnaryOp::Log, eg, eh);
    let (eg, eh) = (unary(UnaryOp::Log, eg), unary(UnaryOp::Log, eh));
    lemma_agree_unary(r, UnaryOp::Tanh, eg, eh);
    lemma_column_meets(b, c, n);
    lemma_agree_binary(r, BinaryOp::Product, g, h, unary(UnaryOp::Tanh, eg), unary(UnaryOp::Tanh, eh));
}

/// The blocks make the same of the same.
proof fn lemma_agree_blocks(r: Reading, s: Scope, m: nat, g: Graph, h: Graph, b: usize, n: usize)
    requires
        agree(r, g, h),
        exact(g, r).dims == seq![b, 512usize, n],
        1 <= n,
        n + 2 <= usize::MAX,
    ensures
        agree(r, blocks_of(s, m, g), blocks_of(s, m, h)),
        exact(blocks_of(s, m, g), r).dims == seq![b, 512usize, n],
    decreases m,
{
    if m > 0 {
        let l = (m - 1) as nat;
        lemma_agree_blocks(r, s, l, g, h, b, n);
        let layer = conv_of(entry(s, 3 * l), true, 512, 512, 3, 1, 1, 1);
        let (pg, ph) = (blocks_of(s, l, g), blocks_of(s, l, h));
        lemma_agree_convolved(r, pg, ph, layer);
        let (cg, ch) = (convolved(pg, layer), convolved(ph, layer));
        assert(conv_len(n as int, 3, 1, 1, 1) == n);
        assert(exact(cg, r).dims =~= seq![b, 512usize, n]);
        let scope = entry(s, 3 * l + 1);
        lemma_agree_group_norm(r, scope, cg, ch, b, n);
        lemma_agree_mish(r, group_norm(scope, cg), group_norm(scope, ch), b, 512, n);
    }
}

/// Source frames lie within the source.
proof fn lemma_sources_within(t: nat, n: nat, k: int)
    requires
        1 <= t,
        t - 1 <= u32::MAX,
        0 <= k < n,
    ensures
        0 <= sources(t, n)[k] < t,
        sources(t, n)[k] == source_index(k as nat, t, n),
{
}

/// The features that are stretched, projected before the selection of frames or after it.
proof fn lemma_agree_selected(r: Reading, s: Scope, content: Graph, b: usize, t: usize, n: usize)
    requires
        exact(content, r).dims == seq![b, t, 768usize],
        1 <= t,
        t - 1 <= u32::MAX,
        1 <= n <= 0x100_0000,
    ensures
        ({
            let layer = linear_of(s, 768, 512);
            let chosen = selected(content, indices_graph(sources(t as nat, n as nat)), 1);
            let after = transposed(Graph::Linear(Box::new(content), layer), 1, 2);
            let before = transposed(Graph::Linear(Box::new(chosen), layer), 1, 2);
            let g = selected(after, indices_graph(sources(t as nat, n as nat)), 2);
            let h = selected(before, indices_graph(sources(n as nat, n as nat)), 2);
            &&& agree(r, g, h)
            &&& exact(g, r).dims == seq![b, 512usize, n]
        }),
{
    let layer = linear_of(s, 768, 512);
    let (v, id) = (sources(t as nat, n as nat), sources(n as nat, n as nat));
    let list = Seq::new(v.len(), |i: int| v[i] as int);
    let all = Seq::new(id.len(), |i: int| id[i] as int);
    assert(indices_graph(v) == Graph::Integers(list) && indices_graph(id) == Graph::Integers(all));
    let chosen = selected(content, indices_graph(v), 1);
    let (lc, ls) = (Graph::Linear(Box::new(content), layer), Graph::Linear(Box::new(chosen), layer));
    let (after, before) = (transposed(lc, 1, 2), transposed(ls, 1, 2));
    let (g, h) = (selected(after, indices_graph(v), 2), selected(before, indices_graph(id), 2));
    let x = exact(content, r);
    let (w, z) = (exact(*layer.weight, r), exact(*layer.bias, r));
    let y = picked(x, list, 1);
    let (u, q) = (linear_map(x, w, z, layer), linear_map(y, w, z, layer));
    assert(exact(chosen, r) == y);
    assert(exact(lc, r) == u && exact(ls, r) == q);
    assert(exact(after, r) == turned(u, 1, 2) && exact(before, r) == turned(q, 1, 2));
    let (a, c) = (exact(g, r), exact(h, r));
    assert(a == picked(turned(u, 1, 2), list, 2) && c == picked(turned(q, 1, 2), all, 2));
    assert(a.dims =~= seq![b, 512usize, n] && c.dims =~= seq![b, 512usize, n]);
    assert forall|i: Seq<int>| within(i, a.dims) implies #[trigger] (a.at)(i) == (c.at)(i) by {
        assert(0 <= i[0] < b && 0 <= i[1] < 512 && 0 <= i[2] < n) by {
            assert(0 <= i[0] < a.dims[0] && 0 <= i[1] < a.dims[1] && 0 <= i[2] < a.dims[2]);
        }
        law_same_length_is_identity(i[2] as nat, n as nat);
        lemma_sources_within(n as nat, n as nat, i[2]);
        assert(all[i[2]] == i[2]);
        let from = list[i[2]];
        let p = i.update(2, from);
        assert(p.update(1, p[2]).update(2, p[1]) =~= seq![i[0], from, i[1]]);
        let o = i.update(2, all[i[2]]);
        assert(o.update(1, o[2]).update(2, o[1]) =~= seq![i[0], i[2], i[1]]);
        let (j, k) = (seq![i[0], from, i[1]], seq![i[0], i[2], i[1]]);
        let f = |m: int| (w.at)(seq![j[2], m]) * (x.at)(j.update(2, m));
        let e = |m: int| (w.at)(seq![k[2], m]) * (y.at)(k.update(2, m));
        assert forall|m: int| 0 <= m < 768 implies #[trigger] f(m) == e(m) by {
            assert(k.update(2, m).update(1, list[i[2]]) =~= j.update(2, m));
        }
        lemma_same_total(f, e, 768);
        assert((u.at)(j) == (q.at)(k));
    }
}

/// Stretching is a selection of frames: content features whose source frames were selected beforehand
/// give, with the length kept, the same conditioning features. Up to 2^24 frames keeping the length
/// takes every frame as it is.
pub proof fn law_selecting_frames_beforehand_gives_the_same(
    r: Reading,
    s: Scope,
    whole: Tensor,
    picked: Tensor,
    n: usize,
    y: Tensor,
    z: Tensor,
)
    requires
        fits(shape(whole), n),
        n <= 0x100_0000,
        exact(graph(whole), r).dims == shape(whole),
        shape(picked) == shape(whole).update(1, n),
        graph(picked) == selected(graph(whole), indices_graph(sources(shape(whole)[1] as nat, n as nat)), 1),
        is_regulated(s, whole, n, y),
        is_regulated(s, picked, n, z),
    ensures
        same_values(exact(graph(y), r), exact(graph(z), r)),
{
    let (b, t) = (shape(whole)[0], shape(whole)[1]);
    assert(shape(whole) =~= seq![b, t, 768usize]);
    let content = graph(whole);
    let m = s.at("module"@);
    let layer = linear_of(m.at("content_in_proj"@), 768, 512);
    let chosen = selected(content, indices_graph(sources(t as nat, n as nat)), 1);
    let after = transposed(Graph::Linear(Box::new(content), layer), 1, 2);
    let before = transposed(Graph::Linear(Box::new(chosen), layer), 1, 2);
    let g = selected(after, indices_graph(sources(t as nat, n as nat)), 2);
    let h = selected(before, indices_graph(sources(n as nat, n as nat)), 2);
    lemma_agree_selected(r, m.at("content_in_proj"@), content, b, t, n);
    lemma_agree_blocks(r, m, 4, g, h, b, n);
    let (bg, bh) = (blocks_of(m, 4, g), blocks_of(m, 4, h));
    let last = conv_of(m.at("model.12"@), true, 512, 512, 1, 0, 1, 1);
    lemma_agree_convolved(r, bg, bh, last);
    let (lg, lh) = (convolved(bg, last), convolved(bh, last));
    lemma_agree_transposed(r, lg, lh, 1, 2);
    assert(regulated(s, content, t as nat, n as nat) == transposed(lg, 1, 2));
    assert(regulated(s, chosen, n as nat, n as nat) == transposed(lh, 1, 2));
}

/// Mish multiplies every number by the hyperbolic tangent of `ln(e^v + 1)`.
pub proof fn law_mish_formula(r: Reading, x: Graph, b: usize, c: usize, n: usize, i: int, j: int, k: int)
    requires
        exact(x, r).dims == seq![b, c, n],
        0 <= i < b,
        0 <= j < c,
        0 <= k < n,
    ensures
        exact(mish(x), r).dims == seq![b, c, n],
        ({
            let v = (exact(x, r).at)(seq![i, j, k]);
            let soft = (r.function)(UnaryOp::Log, (r.function)(UnaryOp::Exp, v) + (1 as real));
            (exact(mish(x), r).at)(seq![i, j, k]) == v * (r.function)(UnaryOp::Tanh, soft)
        }),
{
    let at = seq![i, j, k];
    let raised = unary(UnaryOp::Exp, x);
    let more = plus(raised, 1);
    let soft = unary(UnaryOp::Log, more);
    let bent = unary(UnaryOp::Tanh, soft);
    let one = exact(whole(1), r);
    assert((one.at)(Seq::empty()) == 1 as real) by {
        reveal_with_fuel(exact, 3);
    }
    assert(exact(raised, r) == mapped(exact(x, r), function_of(r, UnaryOp::Exp)));
    assert((exact(more, r).at)(at) == (exact(raised, r).at)(at) * (1 as real) + (1 as real));
    assert(exact(more, r).dims == exact(raised, r).dims);
    assert(exact(soft, r) == mapped(exact(more, r), function_of(r, UnaryOp::Log)));
    assert(exact(bent, r) == mapped(exact(soft, r), function_of(r, UnaryOp::Tanh)));
    lemma_column_meets(b, c, n);
    assert(clipped(at, seq![b, c, n]) =~= at);
    assert(exact(product(x, bent), r) == combined(BinaryOp::Product, exact(x, r), exact(bent, r)));
}

/// A single number, read for every element.
proof fn lemma_single_at(r: Reading, g: Graph, at: Seq<int>)
    requires
        exact(g, r).dims == Seq::<usize>::empty(),
        at.len() == 3,
    ensures
        exact(reshaped(g, seq![1usize, 1usize, 1usize]), r).dims == seq![1usize, 1usize, 1usize],
        (exact(reshaped(g, seq![1usize, 1usize, 1usize]), r).at)(clipped(at, seq![1usize, 1usize, 1usize])) == (exact(
            g,
            r,
        ).at)(Seq::empty()),
{
    let one = seq![1usize, 1usize, 1usize];
    assert(clipped(at, one) =~= seq![0int, 0int, 0int]);
    assert(exact(reshaped(g, one), r) == regrouped(exact(g, r), one));
    assert(indices_at(position(clipped(at, one), one), Seq::<usize>::empty()) == Seq::<int>::empty());
}

/// Group normalisation brings all numbers together to mean 0 and variance 1, with 1e-5 added to the
/// variance, then multiplies by the weight of the channel and adds its bias.
pub proof fn law_group_norm_formula(r: Reading, s: Scope, x: Graph, b: usize, n: usize, i: int, j: int, k: int)
    requires
        exact(x, r).dims == seq![b, 512usize, n],
        exact(s.parameter("weight"@), r).dims == seq![512usize],
        exact(s.parameter("bias"@), r).dims == seq![512usize],
        0 <= i < b,
        0 <= j < 512,
        0 <= k < n,
    ensures
        exact(group_norm(s, x), r).dims == seq![b, 512usize, n],
        ({
            let count = b * 512 * n;
            let of = |p: int| (exact(x, r).at)(indices_at(p, seq![b, 512usize, n]));
            let mean = total(of, count as nat) / (count as real);
            let spread = total(|p: int| (of(p) - mean) * (of(p) - mean), count as nat) / (count as real);
            let v = ((exact(x, r).at)(seq![i, j, k]) - mean) / (r.root)(spread + (1 as real) / (100_000 as real));
            (exact(group_norm(s, x), r).at)(seq![i, j, k]) == v * (exact(s.parameter("weight"@), r).at)(seq![j]) + (
            exact(s.parameter("bias"@), r).at)(seq![j])
        }),
{
    let (all, one) = (seq![b, 512usize, n], seq![1usize, 1usize, 1usize]);
    let at = seq![i, j, k];
    let count = b * 512 * n;
    lemma_element_count(all);
    let of = |p: int| (exact(x, r).at)(indices_at(p, all));
    let mean = total(of, count as nat) / (count as real);
    let spread = total(|p: int| (of(p) - mean) * (of(p) - mean), count as nat) / (count as real);
    assert(pad_left(all, 3) =~= all && pad_left(one, 3) =~= one);
    assert(broadcast_shape(all, one) =~= all);
    let xa = exact(x, r);
    let middle = total_mean(x);
    assert(exact(middle, r) == mean_of_all(xa));
    assert((exact(middle, r).at)(Seq::empty()) == mean);
    let centred = difference(x, reshaped(middle, one));
    let ca = exact(centred, r);
    assert(ca == combined(BinaryOp::Difference, xa, exact(reshaped(middle, one), r)));
    assert(ca.dims == all);
    assert forall|p: Seq<int>| within(p, all) implies #[trigger] (ca.at)(p) == (xa.at)(p) - mean by {
        lemma_single_at(r, middle, p);
        lemma_clipped(p, all);
    }
    let squares = unary(UnaryOp::Sqr, centred);
    let sa = exact(squares, r);
    assert(sa == mapped(ca, function_of(r, UnaryOp::Sqr)));
    let variance = total_mean(squares);
    assert(exact(variance, r) == mean_of_all(sa));
    let f = |p: int| (sa.at)(indices_at(p, sa.dims));
    let g = |p: int| (of(p) - mean) * (of(p) - mean);
    assert forall|p: int| 0 <= p < count implies #[trigger] f(p) == g(p) by {
        lemma_indices_within(p, all);
        let q = indices_at(p, all);
        assert((ca.at)(q) == (xa.at)(q) - mean);
    }
    lemma_same_total(f, g, count as nat);
    assert((exact(variance, r).at)(Seq::empty()) == spread);
    let raised = plus_inverse(variance, 100_000);
    let (mul, add) = (exact(whole(1), r), exact(inverse(100_000), r));
    assert((mul.at)(Seq::empty()) == 1 as real && (add.at)(Seq::empty()) == (1 as real) / (100_000 as real)) by {
        reveal_with_fuel(exact, 4);
    }
    assert((exact(raised, r).at)(Seq::empty()) == spread * (1 as real) + (1 as real) / (100_000 as real));
    let root = unary(UnaryOp::Sqrt, raised);
    assert(exact(root, r) == mapped(exact(raised, r), function_of(r, UnaryOp::Sqrt)));
    assert(exact(root, r).dims =~= Seq::<usize>::empty());
    lemma_single_at(r, root, at);
    let deviation = reshaped(root, one);
    let divided = quotient(centred, deviation);
    assert(exact(divided, r) == combined(BinaryOp::Quotient, ca, exact(deviation, r)));
    lemma_within_three(b, 512, n, i, j, k);
    assert(clipped(at, all) =~= at);
    let w = reshaped(s.parameter("weight"@), per_channel());
    let v = reshaped(s.parameter("bias"@), per_channel());
    lemma_column_at(r, s.parameter("weight"@), 512, i, j, k);
    lemma_column_at(r, s.parameter("bias"@), 512, i, j, k);
    lemma_column_meets(b, 512, n);
    let scaled = product(divided, w);
    assert(exact(scaled, r) == combined(BinaryOp::Product, exact(divided, r), exact(w, r)));
    assert(exact(scaled, r).dims == all);
    assert(group_norm(s, x) == sum(scaled, v));
    assert(exact(sum(scaled, v), r) == combined(BinaryOp::Sum, exact(scaled, r), exact(v, r)));
}

/// Conditioning features come of four blocks, whatever the lengths: content features, projected frame by
/// frame, of which every output frame takes its source frame, then four times a convolution with a kernel of
/// 3, group normalisation and Mish, each with its own parameters, and a 1x1 convolution.
pub proof fn law_features_go_through_four_blocks(s: Scope, content: Tensor, n: usize, y: Tensor)
    requires
        is_regulated(s, content, n, y),
    ensures
        shape(y) == seq![shape(content)[0], n, 512usize],
        ({
            let m = s.at("module"@);
            let t = shape(content)[1];
            let projected = Graph::Linear(
                Box::new(graph(content)),
                (LinearLayer {
                    weight: Box::new(m.at("content_in_proj"@).parameter("weight"@)),
                    bias: Box::new(m.at("content_in_proj"@).parameter("bias"@)),
                    in_dim: 768,
                    out_dim: 512,
                }),
            );
            let stretched = Graph::Select {
                x: Box::new(Graph::Transpose(Box::new(projected), 1, 2)),
                indices: Box::new(
                    Graph::Integers(
                        Seq::new(n as nat, |i: int| (source_index(i as nat, t as nat, n as nat) as u32) as int),
                    ),
                ),
                axis: 2,
            };
            let layer = |k: nat, kernel: usize, padding: usize|
                (ConvLayer {
                    weight: Box::new(m.at("model."@ + decimal(k)).parameter("weight"@)),
                    bias: Some(Box::new(m.at("model."@ + decimal(k)).parameter("bias"@))),
                    in_channels: 512,
                    out_channels: 512,
                    kernel,
                    padding,
                    stride: 1,
                    dilation: 1,
                });
            let block = |k: nat, x: Graph|
                mish(group_norm(m.at("model."@ + decimal(k + 1)), Graph::Conv1d(Box::new(x), layer(k, 3, 1))));
            let last = block(9, block(6, block(3, block(0, stretched))));
            graph(y) == Graph::Transpose(Box::new(Graph::Conv1d(Box::new(last), layer(12, 1, 0))), 1, 2)
        }),
{
    let (m, t) = (s.at("module"@), shape(content)[1]);
    let v = sources(t as nat, n as nat);
    assert(Seq::new(v.len(), |i: int| v[i] as int) =~= Seq::new(
        n as nat,
        |i: int| (source_index(i as nat, t as nat, n as nat) as u32) as int,
    ));
    reveal_with_fuel(blocks_of, 5);
    lemma_twelve();
}

/// The name of the last entry of the regulator's stack.
proof fn lemma_twelve()
    ensures
        "model."@ + decimal(12) == "model.12"@,
{
    reveal_with_fuel(decimal, 3);
    reveal_strlit("model.");
    reveal_strlit("model.12");
    assert("model."@ + decimal(12) =~= "model.12"@);
}

} // verus!
