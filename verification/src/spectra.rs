//! Laws on the Vocos network: what its layers make of every number, and which of them it applies.

use crate::agreement::{agree, lemma_agree_itself, lemma_agree_through};
use crate::batch::lemma_position_within;
use crate::exact::{
    clipped, combined, exact, is_zero, lemma_same_total, linear_map, normalised_rows, padded_at, position, regrouped,
    slice, total, turned, with_zeros, within, Reading,
};
use crate::formulas::{lemma_column_at, lemma_position_of_three, lemma_three, lemma_within_three};
use crate::graph::{
    narrowed, product, reshaped, sum, transposed, unary, zero_padded, BinaryOp, ConvLayer, Graph, LinearLayer, UnaryOp,
};
use crate::layers::{linear_of, norm_of, Scope};
use crate::tensor::{broadcast_shape, graph, pad_left, shape};
use crate::text::decimal;
use crate::vocos::{backbone, block_scope, convnext, depthwise, is_spectrum, tap, taps, VocosConfig};
use crate::waveforms::{lemma_agree_convnext, lemma_column_meets};
use candle_core::Tensor;
use vstd::prelude::*;

verus! {

/// The place of an element of a matrix.
pub(crate) proof fn lemma_position_of_two(a: usize, b: usize, i: int, j: int)
    ensures
        position(seq![i, j], seq![a, b]) == i * b + j,
{
    reveal_with_fuel(position, 3);
    assert(seq![i, j].drop_last() =~= seq![i] && seq![a, b].drop_last() =~= seq![a]);
    assert(seq![i].drop_last() =~= Seq::<int>::empty() && seq![a].drop_last() =~= Seq::<usize>::empty());
    assert(position(seq![i], seq![a]) == 0 * a + i);
}

/// The weight of tap `m` in channel `j`.
proof fn lemma_tap_weight(r: Reading, w: Graph, c: usize, kernel: usize, m: int, i: int, j: int, k: int)
    requires
        exact(w, r).dims == seq![c, 1usize, kernel],
        0 <= m < kernel,
        0 <= j < c,
    ensures
        ({
            let column = reshaped(
                narrowed(reshaped(w, seq![c, kernel]), 1, m, 1),
                seq![1usize, c, 1usize],
            );
            &&& exact(column, r).dims == seq![1usize, c, 1usize]
            &&& (exact(column, r).at)(clipped(seq![i, j, k], seq![1usize, c, 1usize])) == (exact(w, r).at)(
                seq![j, 0int, m],
            )
        }),
{
    let matrix = reshaped(w, seq![c, kernel]);
    let cut = narrowed(matrix, 1, m, 1);
    let dims = seq![1usize, c, 1usize];
    let column = reshaped(cut, dims);
    let at = clipped(seq![i, j, k], dims);
    assert(at =~= seq![0int, j, 0int]);
    let (wa, ma, ca) = (exact(w, r), exact(matrix, r), exact(cut, r));
    assert(ma == regrouped(wa, seq![c, kernel]));
    assert(ca == slice(ma, 1, m, 1));
    assert(ca.dims =~= seq![c, 1usize]);
    assert(exact(column, r) == regrouped(ca, dims));
    lemma_position_of_three(1, c, 1, 0, j, 0);
    assert((0 * c + j) * 1 + 0 == j);
    lemma_position_of_two(c, 1, j, 0);
    assert(within(seq![j, 0int], seq![c, 1usize]));
    lemma_position_within(seq![j, 0int], seq![c, 1usize]);
    assert((exact(column, r).at)(at) == (ca.at)(seq![j, 0int]));
    assert(seq![j, 0int].update(1, 0 + m) =~= seq![j, m]);
    assert((ca.at)(seq![j, 0int]) == (ma.at)(seq![j, m]));
    lemma_position_of_two(c, kernel, j, m);
    lemma_position_of_three(c, 1, kernel, j, 0, m);
    assert((j * 1 + 0) * kernel + m == j * kernel + m);
    lemma_within_three(c, 1, kernel, j, 0, m);
    lemma_position_within(seq![j, 0int, m], seq![c, 1usize, kernel]);
}

/// What a tap comes to.
proof fn lemma_tap_reads(
    r: Reading,
    s: Scope,
    c: usize,
    kernel: usize,
    p: usize,
    x: Graph,
    b: usize,
    t: usize,
    m: int,
    i: int,
    j: int,
    k: int,
)
    requires
        exact(x, r).dims == seq![b, c, t],
        exact(s.parameter("weight"@), r).dims == seq![c, 1usize, kernel],
        t + 2 * p <= usize::MAX,
        0 <= m < kernel,
        0 <= i < b,
        0 <= j < c,
        0 <= k < t,
    ensures
        exact(tap(s, c, kernel, p, x, t, m), r).dims == seq![b, c, t],
        (exact(tap(s, c, kernel, p, x, t, m), r).at)(seq![i, j, k]) == (exact(s.parameter("weight"@), r).at)(
            seq![j, 0int, m],
        ) * padded_at(exact(x, r), i, j, k + m - p),
{
    let padded = zero_padded(x, 2, p as int, p as int);
    let cut = narrowed(padded, 2, m, t as int);
    let w = s.parameter("weight"@);
    let column = reshaped(narrowed(reshaped(w, seq![c, kernel]), 1, m, 1), seq![1usize, c, 1usize]);
    lemma_tap_weight(r, w, c, kernel, m, i, j, k);
    let (xa, pa, ca) = (exact(x, r), exact(padded, r), exact(cut, r));
    assert(pa == with_zeros(xa, 2, p as int, p as int));
    assert(ca == slice(pa, 2, m, t as int));
    assert(ca.dims =~= seq![b, c, t]);
    let at = seq![i, j, k];
    lemma_column_meets(b, c, t);
    assert(clipped(at, seq![b, c, t]) =~= at);
    assert(at.update(2, k + m) =~= seq![i, j, k + m]);
    assert((ca.at)(at) == (pa.at)(seq![i, j, k + m]));
    assert(seq![i, j, k + m].update(2, k + m - p) =~= seq![i, j, k + m - p]);
    assert((pa.at)(seq![i, j, k + m]) == padded_at(xa, i, j, k + m - p));
    assert(tap(s, c, kernel, p, x, t, m) == product(cut, column));
    assert(exact(product(cut, column), r) == combined(BinaryOp::Product, ca, exact(column, r)));
    let (a, v) = ((ca.at)(at), (exact(w, r).at)(seq![j, 0int, m]));
    assert(a * v == v * a) by (nonlinear_arith);
}

/// The sum of the first `n + 1` taps.
proof fn lemma_taps_add_up(
    r: Reading,
    s: Scope,
    c: usize,
    kernel: usize,
    p: usize,
    x: Graph,
    b: usize,
    t: usize,
    n: nat,
    i: int,
    j: int,
    k: int,
)
    requires
        exact(x, r).dims == seq![b, c, t],
        exact(s.parameter("weight"@), r).dims == seq![c, 1usize, kernel],
        t + 2 * p <= usize::MAX,
        n < kernel,
        0 <= i < b,
        0 <= j < c,
        0 <= k < t,
    ensures
        exact(taps(s, c, kernel, p, x, t, n), r).dims == seq![b, c, t],
        (exact(taps(s, c, kernel, p, x, t, n), r).at)(seq![i, j, k]) == total(
            |m: int| (exact(s.parameter("weight"@), r).at)(seq![j, 0int, m]) * padded_at(exact(x, r), i, j, k + m - p),
            n + 1,
        ),
    decreases n,
{
    let f = |m: int|
        (exact(s.parameter("weight"@), r).at)(seq![j, 0int, m]) * padded_at(exact(x, r), i, j, k + m - p);
    lemma_tap_reads(r, s, c, kernel, p, x, b, t, n as int, i, j, k);
    let last = tap(s, c, kernel, p, x, t, n as int);
    assert(total(f, n + 1) == total(f, n) + f(n as int));
    if n == 0 {
        assert(total(f, 0) == 0 as real);
    } else {
        let l = (n - 1) as nat;
        lemma_taps_add_up(r, s, c, kernel, p, x, b, t, l, i, j, k);
        let before = taps(s, c, kernel, p, x, t, l);
        assert(taps(s, c, kernel, p, x, t, n) == sum(before, last));
        assert(exact(sum(before, last), r) == combined(BinaryOp::Sum, exact(before, r), exact(last, r)));
        lemma_column_meets(b, c, t);
        assert(clipped(seq![i, j, k], seq![b, c, t]) =~= seq![i, j, k]);
    }
}

/// The depthwise convolution has a kernel and a bias for every channel: a sample is the bias and the sum
/// of the samples around it, 0 beyond the ends, times the kernel.
pub proof fn law_depthwise_formula(
    r: Reading,
    s: Scope,
    c: usize,
    kernel: usize,
    p: usize,
    x: Graph,
    b: usize,
    t: usize,
    i: int,
    j: int,
    k: int,
)
    requires
        exact(x, r).dims == seq![b, c, t],
        exact(s.parameter("weight"@), r).dims == seq![c, 1usize, kernel],
        exact(s.parameter("bias"@), r).dims == seq![c],
        t + 2 * p <= usize::MAX,
        1 <= kernel,
        0 <= i < b,
        0 <= j < c,
        0 <= k < t,
    ensures
        exact(depthwise(s, c, kernel, p, x, t), r).dims == seq![b, c, t],
        (exact(depthwise(s, c, kernel, p, x, t), r).at)(seq![i, j, k]) == (exact(s.parameter("bias"@), r).at)(
            seq![j],
        ) + total(
            |m: int| (exact(s.parameter("weight"@), r).at)(seq![j, 0int, m]) * padded_at(exact(x, r), i, j, k + m - p),
            kernel as nat,
        ),
{
    let all = taps(s, c, kernel, p, x, t, (kernel - 1) as nat);
    let column = reshaped(s.parameter("bias"@), seq![1usize, c, 1usize]);
    lemma_taps_add_up(r, s, c, kernel, p, x, b, t, (kernel - 1) as nat, i, j, k);
    lemma_column_at(r, s.parameter("bias"@), c, i, j, k);
    lemma_column_meets(b, c, t);
    assert(clipped(seq![i, j, k], seq![b, c, t]) =~= seq![i, j, k]);
    assert(depthwise(s, c, kernel, p, x, t) == sum(all, column));
    assert(exact(sum(all, column), r) == combined(BinaryOp::Sum, exact(all, r), exact(column, r)));
}

/// Whether the parameters of a ConvNeXt block that are read per channel hold as many numbers as there are
/// channels.
pub open spec fn block_reads(r: Reading, s: Scope, dim: usize) -> bool {
    &&& exact(s.at("dwconv"@).parameter("weight"@), r).dims == seq![dim, 1usize, 7usize]
    &&& exact(s.at("dwconv"@).parameter("bias"@), r).dims == seq![dim]
    &&& exact(s.parameter("gamma"@), r).dims == seq![dim]
}

/// A ConvNeXt block adds to every number `gamma` times what two linear layers, with a GELU between them,
/// make of its frame, which is convolved along time, channel by channel, with a kernel of 7 and
/// normalised to mean 0 and variance 1.
#[verifier::spinoff_prover]
#[verifier::rlimit(40)]
pub proof fn law_convnext_formula(
    r: Reading,
    s: Scope,
    dim: usize,
    inner: usize,
    x: Graph,
    b: usize,
    t: usize,
    i: int,
    j: int,
    k: int,
)
    requires
        exact(x, r).dims == seq![b, dim, t],
        block_reads(r, s, dim),
        t + 6 <= usize::MAX,
        0 <= i < b,
        0 <= j < dim,
        0 <= k < t,
    ensures
        exact(convnext(s, dim, inner, x, t), r).dims == seq![b, dim, t],
        ({
            let v = |name: Seq<char>, level: Seq<char>, at: Seq<int>| (exact(s.at(level).parameter(name), r).at)(at);
            let norm = norm_of(s.at("norm"@), dim);
            let along = |c: int|
                v("bias"@, "dwconv"@, seq![c]) + total(
                    |m: int| v("weight"@, "dwconv"@, seq![c, 0int, m]) * padded_at(exact(x, r), i, c, k + m - 3),
                    7,
                );
            let mean = total(along, dim as nat) / (dim as real);
            let spread = total(|c: int| (along(c) - mean) * (along(c) - mean), dim as nat) / (dim as real);
            let normed = |c: int|
                (along(c) - mean) / (r.root)(spread + (1 as real) / (100_000 as real)) * (exact(*norm.weight, r).at)(
                    seq![c],
                ) + (exact(*norm.bias, r).at)(seq![c]);
            let hidden = |m: int|
                (r.function)(
                    UnaryOp::GeluErf,
                    v("bias"@, "pwconv1"@, seq![m]) + total(
                        |c: int| v("weight"@, "pwconv1"@, seq![m, c]) * normed(c),
                        dim as nat,
                    ),
                );
            let outer = v("bias"@, "pwconv2"@, seq![j]) + total(
                |m: int| v("weight"@, "pwconv2"@, seq![j, m]) * hidden(m),
                inner as nat,
            );
            (exact(convnext(s, dim, inner, x, t), r).at)(seq![i, j, k]) == (exact(x, r).at)(seq![i, j, k]) + outer * (
            exact(s.parameter("gamma"@), r).at)(seq![j])
        }),
{
    let v = |name: Seq<char>, level: Seq<char>, at: Seq<int>| (exact(s.at(level).parameter(name), r).at)(at);
    let norm = norm_of(s.at("norm"@), dim);
    let along = |c: int|
        v("bias"@, "dwconv"@, seq![c]) + total(
            |m: int| v("weight"@, "dwconv"@, seq![c, 0int, m]) * padded_at(exact(x, r), i, c, k + m - 3),
            7,
        );
    let mean = total(along, dim as nat) / (dim as real);
    let spread = total(|c: int| (along(c) - mean) * (along(c) - mean), dim as nat) / (dim as real);
    let normed = |c: int|
        (along(c) - mean) / (r.root)(spread + (1 as real) / (100_000 as real)) * (exact(*norm.weight, r).at)(
            seq![c],
        ) + (exact(*norm.bias, r).at)(seq![c]);
    let hidden = |m: int|
        (r.function)(
            UnaryOp::GeluErf,
            v("bias"@, "pwconv1"@, seq![m]) + total(
                |c: int| v("weight"@, "pwconv1"@, seq![m, c]) * normed(c),
                dim as nat,
            ),
        );
    let outer = v("bias"@, "pwconv2"@, seq![j]) + total(
        |m: int| v("weight"@, "pwconv2"@, seq![j, m]) * hidden(m),
        inner as nat,
    );
    let (d, one, two) = (
        depthwise(s.at("dwconv"@), dim, 7, 3, x, t),
        linear_of(s.at("pwconv1"@), dim, inner),
        linear_of(s.at("pwconv2"@), inner, dim),
    );
    let frames = transposed(d, 1, 2);
    let rows = Graph::LayerNorm(Box::new(frames), norm);
    let first = Graph::Linear(Box::new(rows), one);
    let bent = unary(UnaryOp::GeluErf, first);
    let second = Graph::Linear(Box::new(bent), two);
    let gamma = s.parameter("gamma"@);
    let scaled = product(second, gamma);
    let back = transposed(scaled, 1, 2);
    assert(convnext(s, dim, inner, x, t) == sum(x, back));
    law_depthwise_formula(r, s.at("dwconv"@), dim, 7, 3, x, b, t, i, j, k);
    let (da, fa, ra) = (exact(d, r), exact(frames, r), exact(rows, r));
    assert(fa == turned(da, 1, 2));
    assert(fa.dims =~= seq![b, t, dim]);
    assert(ra == normalised_rows(fa, exact(*norm.weight, r), exact(*norm.bias, r), r.root));
    assert forall|c: int| 0 <= c < dim implies (fa.at)(seq![i, k, c]) == #[trigger] along(c) by {
        law_depthwise_formula(r, s.at("dwconv"@), dim, 7, 3, x, b, t, i, c, k);
        assert(seq![i, k, c].update(1, c).update(2, k) =~= seq![i, c, k]);
        let f = |m: int|
            (exact(s.at("dwconv"@).parameter("weight"@), r).at)(seq![c, 0int, m]) * padded_at(
                exact(x, r),
                i,
                c,
                k + m - 3usize,
            );
        let g = |m: int| v("weight"@, "dwconv"@, seq![c, 0int, m]) * padded_at(exact(x, r), i, c, k + m - 3);
        lemma_same_total(f, g, 7);
    }
    assert forall|c: int| 0 <= c < dim implies (ra.at)(seq![i, k, c]) == #[trigger] normed(c) by {
        let at = seq![i, k, c];
        let row = |l: int| (fa.at)(at.update(2, l));
        assert forall|l: int| 0 <= l < dim implies #[trigger] row(l) == along(l) by {
            assert(at.update(2, l) =~= seq![i, k, l]);
        }
        lemma_same_total(row, along, dim as nat);
        let middle = total(row, dim as nat) / (dim as real);
        let f = |l: int| (row(l) - middle) * (row(l) - middle);
        let g = |l: int| (along(l) - mean) * (along(l) - mean);
        assert forall|l: int| 0 <= l < dim implies #[trigger] f(l) == g(l) by {
            assert(row(l) == along(l));
        }
        lemma_same_total(f, g, dim as nat);
        assert(row(c) == along(c));
    }
    let (ia, ba) = (exact(first, r), exact(bent, r));
    assert(ia == linear_map(ra, exact(*one.weight, r), exact(*one.bias, r), one));
    assert(ia.dims =~= seq![b, t, inner]);
    assert forall|m: int| 0 <= m < inner implies (ba.at)(seq![i, k, m]) == #[trigger] hidden(m) by {
        let at = seq![i, k, m];
        let f = |l: int| (exact(*one.weight, r).at)(seq![at[2], l]) * (ra.at)(at.update(2, l));
        let g = |c: int| v("weight"@, "pwconv1"@, seq![m, c]) * normed(c);
        assert forall|l: int| 0 <= l < dim implies #[trigger] f(l) == g(l) by {
            assert(at.update(2, l) =~= seq![i, k, l]);
            assert((ra.at)(seq![i, k, l]) == normed(l));
        }
        lemma_same_total(f, g, dim as nat);
    }
    let sa = exact(second, r);
    assert(sa == linear_map(ba, exact(*two.weight, r), exact(*two.bias, r), two));
    assert(sa.dims =~= seq![b, t, dim]);
    let at = seq![i, k, j];
    let f = |l: int| (exact(*two.weight, r).at)(seq![at[2], l]) * (ba.at)(at.update(2, l));
    let g = |m: int| v("weight"@, "pwconv2"@, seq![j, m]) * hidden(m);
    assert forall|l: int| 0 <= l < inner implies #[trigger] f(l) == g(l) by {
        assert(at.update(2, l) =~= seq![i, k, l]);
        assert((ba.at)(seq![i, k, l]) == hidden(l));
    }
    lemma_same_total(f, g, inner as nat);
    assert((sa.at)(at) == outer);
    let (all, row) = (seq![b, t, dim], seq![dim]);
    assert(pad_left(all, 3) =~= all && pad_left(row, 3) =~= seq![1usize, 1usize, dim]);
    assert(broadcast_shape(all, row) =~= all);
    let ca = exact(scaled, r);
    assert(ca == combined(BinaryOp::Product, sa, exact(gamma, r)));
    assert(clipped(at, all) =~= at);
    assert(clipped(at, row) =~= seq![j]);
    assert((ca.at)(at) == outer * (exact(gamma, r).at)(seq![j]));
    let ka = exact(back, r);
    assert(ka == turned(ca, 1, 2));
    assert(ka.dims =~= seq![b, dim, t]);
    assert(seq![i, j, k].update(1, k).update(2, j) =~= at);
    assert((ka.at)(seq![i, j, k]) == (ca.at)(at));
    lemma_column_meets(b, dim, t);
    assert(clipped(seq![i, j, k], seq![b, dim, t]) =~= seq![i, j, k]);
    assert(exact(sum(x, back), r) == combined(BinaryOp::Sum, exact(x, r), ka));
}

/// A backbone of no blocks is its input, and every block, under its own number, works on what comes of
/// the blocks before it.
pub proof fn law_every_block_follows(cfg: VocosConfig, s: Scope, i: nat, x: Graph, t: usize)
    ensures
        backbone(cfg, s, 0, x, t) == x,
        backbone(cfg, s, i + 1, x, t) == convnext(
            s.at("backbone"@).at("convnext."@ + decimal(i)),
            cfg.dim,
            cfg.intermediate_dim,
            backbone(cfg, s, i, x, t),
            t,
        ),
{
    reveal_with_fuel(backbone, 2);
}

/// A block whose scales are 0 leaves its input alone.
proof fn lemma_scaled_to_nothing(r: Reading, s: Scope, dim: usize, inner: usize, x: Graph, b: usize, t: usize)
    requires
        exact(x, r).dims == seq![b, dim, t],
        block_reads(r, s, dim),
        is_zero(exact(s.parameter("gamma"@), r)),
        1 <= t,
        t + 6 <= usize::MAX,
    ensures
        agree(r, convnext(s, dim, inner, x, t), x),
{
    let y = convnext(s, dim, inner, x, t);
    lemma_agree_itself(r, x);
    lemma_agree_convnext(r, s, dim, inner, x, x, b, t);
    assert forall|at: Seq<int>| within(at, exact(y, r).dims) implies #[trigger] (exact(y, r).at)(at) == (exact(
        x,
        r,
    ).at)(at) by {
        lemma_three(at, b, dim, t);
        law_convnext_formula(r, s, dim, inner, x, b, t, at[0], at[1], at[2]);
        assert((exact(s.parameter("gamma"@), r).at)(seq![at[1]]) == 0 as real);
    }
}

/// Blocks whose scales are 0 leave their input alone.
proof fn lemma_idle_blocks(r: Reading, cfg: VocosConfig, s: Scope, m: nat, n: nat, x: Graph, b: usize, t: usize)
    requires
        m <= n,
        exact(x, r).dims == seq![b, cfg.dim, t],
        forall|i: nat| i < n ==> block_reads(r, #[trigger] block_scope(s, i), cfg.dim),
        forall|i: nat| m <= i < n ==> is_zero(exact((#[trigger] block_scope(s, i)).parameter("gamma"@), r)),
        1 <= t,
        t + 6 <= usize::MAX,
    ensures
        exact(backbone(cfg, s, m, x, t), r).dims == seq![b, cfg.dim, t],
        agree(r, backbone(cfg, s, n, x, t), backbone(cfg, s, m, x, t)),
    decreases n,
{
    let from = backbone(cfg, s, m, x, t);
    lemma_agree_itself(r, from);
    if n > m {
        let l = (n - 1) as nat;
        lemma_idle_blocks(r, cfg, s, m, l, x, b, t);
        let y = backbone(cfg, s, l, x, t);
        law_every_block_follows(cfg, s, l, x, t);
        let scope = block_scope(s, l);
        assert(exact(y, r).dims == seq![b, cfg.dim, t]);
        lemma_scaled_to_nothing(r, scope, cfg.dim, cfg.intermediate_dim, y, b, t);
        lemma_agree_through(r, backbone(cfg, s, n, x, t), y, from);
    } else if m > 0 {
        let l = (m - 1) as nat;
        lemma_idle_blocks(r, cfg, s, l, l, x, b, t);
        let y = backbone(cfg, s, l, x, t);
        law_every_block_follows(cfg, s, l, x, t);
        lemma_agree_itself(r, y);
        assert(block_reads(r, block_scope(s, l), cfg.dim));
        lemma_agree_convnext(r, block_scope(s, l), cfg.dim, cfg.intermediate_dim, y, y, b, t);
    }
}

/// Every block counts: where the scales of all blocks but one are 0, the backbone makes of its input
/// what that block makes of it, whichever it is.
pub proof fn law_one_block_alone_acts(
    r: Reading,
    cfg: VocosConfig,
    s: Scope,
    n: nat,
    j: nat,
    x: Graph,
    b: usize,
    t: usize,
)
    requires
        j < n,
        exact(x, r).dims == seq![b, cfg.dim, t],
        forall|i: nat|
            i < n ==> block_reads(r, s.at("backbone"@).at("convnext."@ + #[trigger] decimal(i)), cfg.dim),
        forall|i: nat|
            i < n && i != j ==> is_zero(
                exact(s.at("backbone"@).at("convnext."@ + #[trigger] decimal(i)).parameter("gamma"@), r),
            ),
        1 <= t,
        t + 6 <= usize::MAX,
    ensures
        agree(
            r,
            backbone(cfg, s, n, x, t),
            convnext(s.at("backbone"@).at("convnext."@ + decimal(j)), cfg.dim, cfg.intermediate_dim, x, t),
        ),
{
    assert forall|i: nat| i < n implies block_reads(r, #[trigger] block_scope(s, i), cfg.dim) by {
        assert(block_scope(s, i) == s.at("backbone"@).at("convnext."@ + decimal(i)));
    }
    assert forall|i: nat| i < n && i != j implies is_zero(
        exact((#[trigger] block_scope(s, i)).parameter("gamma"@), r),
    ) by {
        assert(block_scope(s, i) == s.at("backbone"@).at("convnext."@ + decimal(i)));
    }
    let (dim, inner) = (cfg.dim, cfg.intermediate_dim);
    lemma_idle_blocks(r, cfg, s, 0, j, x, b, t);
    lemma_idle_blocks(r, cfg, s, j + 1, n, x, b, t);
    law_every_block_follows(cfg, s, j, x, t);
    let y = backbone(cfg, s, j, x, t);
    let scope = block_scope(s, j);
    assert(block_reads(r, scope, dim));
    assert(backbone(cfg, s, 0, x, t) == x);
    lemma_agree_convnext(r, scope, dim, inner, y, x, b, t);
    lemma_agree_through(
        r,
        backbone(cfg, s, n, x, t),
        backbone(cfg, s, j + 1, x, t),
        convnext(scope, dim, inner, x, t),
    );
}

/// A spectrum comes of all blocks, at every length: an embedding with a kernel of 7, normalised, as many
/// blocks as the settings say, normalised, and a linear layer, whose first half gives the magnitudes, `e`
/// to its power but at most 100, and whose second half gives the phases.
pub proof fn law_spectrum_is_made_of_all_blocks(
    cfg: VocosConfig,
    s: Scope,
    mel: Tensor,
    t: usize,
    n: usize,
    p: (Tensor, Tensor),
)
    requires
        is_spectrum(cfg, s, mel, t, n, p),
    ensures
        ({
            let base = s.at("backbone"@);
            let half = cfg.n_fft / 2 + 1;
            let given = Graph::Reshape(
                Box::new(
                    Graph::Transpose(
                        Box::new(
                            if shape(mel).len() == 2 {
                                graph(mel)
                            } else {
                                Graph::Reshape(Box::new(graph(mel)), seq![t, n])
                            },
                        ),
                        0,
                        1,
                    ),
                ),
                seq![1usize, n, t],
            );
            let embedding = Graph::Conv1d(
                Box::new(given),
                (ConvLayer {
                    weight: Box::new(base.at("embed"@).parameter("weight"@)),
                    bias: Some(Box::new(base.at("embed"@).parameter("bias"@))),
                    in_channels: cfg.input_channels,
                    out_channels: cfg.dim,
                    kernel: 7,
                    padding: 3,
                    stride: 1,
                    dilation: 1,
                }),
            );
            let frames = Graph::LayerNorm(
                Box::new(Graph::Transpose(Box::new(embedding), 1, 2)),
                norm_of(base.at("norm"@), cfg.dim),
            );
            let blocks = backbone(cfg, s, cfg.num_layers as nat, Graph::Transpose(Box::new(frames), 1, 2), t);
            let normed = Graph::LayerNorm(
                Box::new(Graph::Transpose(Box::new(blocks), 1, 2)),
                norm_of(base.at("final_layer_norm"@), cfg.dim),
            );
            let out = Graph::Transpose(
                Box::new(
                    Graph::Linear(
                        Box::new(normed),
                        (LinearLayer {
                            weight: Box::new(s.at("head.out"@).parameter("weight"@)),
                            bias: Box::new(s.at("head.out"@).parameter("bias"@)),
                            in_dim: cfg.dim,
                            out_dim: (cfg.n_fft + 2) as usize,
                        }),
                    ),
                ),
                1,
                2,
            );
            let size = Graph::Capped {
                x: Box::new(
                    Graph::Unary(
                        UnaryOp::Exp,
                        Box::new(Graph::Narrow { x: Box::new(out), axis: 1, start: 0, len: half }),
                    ),
                ),
                hi: 100,
            };
            let angle = Graph::Narrow { x: Box::new(out), axis: 1, start: half, len: half };
            let part = |op: UnaryOp|
                Graph::Transpose(
                    Box::new(
                        Graph::Reshape(
                            Box::new(
                                Graph::Binary(
                                    BinaryOp::Product,
                                    Box::new(size),
                                    Box::new(Graph::Unary(op, Box::new(angle))),
                                ),
                            ),
                            seq![half as usize, t],
                        ),
                    ),
                    0,
                    1,
                );
            &&& graph(p.0) == part(UnaryOp::Cos)
            &&& graph(p.1) == part(UnaryOp::Sin)
            &&& shape(p.0) == seq![t, half as usize]
            &&& shape(p.1) == seq![t, half as usize]
        }),
{
}

} // verus!
