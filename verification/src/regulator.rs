//! Length regulator: content features to conditioning features of another length.
//!
//! A projection from 768 to 512 channels, nearest-neighbour interpolation to the target length,
//! four blocks of convolution, group normalisation and Mish, and a 1x1 convolution.

use crate::error::{lift, VcError};
use crate::graph::{
    convolved, difference, indices as indices_graph, plus, plus_inverse, product, quotient, reshaped, selected, sum,
    total_mean, transposed, unary, Graph, UnaryOp,
};
use crate::layers::{
    conv1d_forward, conv1d_layer, conv1d_packed, conv1d_ready, conv_of, conv_there, linear_fits, linear_forward,
    linear_layer, linear_of, linear_packed, linear_ready, linear_there, load_conv1d, load_linear, rows_fit, Scope,
    Weights,
};
use crate::single::{source_index, source_indices};
use crate::tensor::{
    conv_fits, conv_len, element_count, extent, graph, index_select, indices, is_float, lemma_column_count,
    lemma_element_count, plain, plus_inverse_of, plus_whole, reshape, shape, sound, transpose, MAX_AXES,
};
use crate::text::{decimal, numbered};
use candle_core::{Error, Tensor};
use candle_nn::{Conv1d, Linear};
use vstd::prelude::*;

verus! {

/// Channels of the regulator.
const CHANNELS: usize = 512;

/// The shape of one value per channel of `[batch, 512, frames]`.
pub open spec fn per_channel() -> Seq<usize> {
    seq![1usize, 512usize, 1usize]
}

/// `x` with mean 0 and variance 1 over all of its elements (1e-5 added to the variance), then a
/// factor and a summand per channel: a group normalisation with one group.
pub open spec fn group_norm(s: Scope, x: Graph) -> Graph {
    let one = seq![1usize, 1usize, 1usize];
    let centred = difference(x, reshaped(total_mean(x), one));
    let variance = total_mean(unary(UnaryOp::Sqr, centred));
    let deviation = reshaped(unary(UnaryOp::Sqrt, plus_inverse(variance, 100_000)), one);
    sum(
        product(quotient(centred, deviation), reshaped(s.parameter("weight"@), per_channel())),
        reshaped(s.parameter("bias"@), per_channel()),
    )
}

/// Mish of `x`: `x * tanh(ln(e^x + 1))`.
pub open spec fn mish(x: Graph) -> Graph {
    product(x, unary(UnaryOp::Tanh, unary(UnaryOp::Log, plus(unary(UnaryOp::Exp, x), 1))))
}

/// The position of entry `i` of the regulator's stack.
pub open spec fn entry(s: Scope, i: nat) -> Scope {
    s.at("model."@ + decimal(i))
}

/// The first `n` blocks of `x`.
pub open spec fn blocks_of(s: Scope, n: nat, x: Graph) -> Graph
    decreases n,
{
    if n == 0 {
        x
    } else {
        let i = (n - 1) as nat;
        let conv = convolved(
            blocks_of(s, i, x),
            conv_of(entry(s, 3 * i), true, 512, 512, 3, 1, 1, 1),
        );
        mish(group_norm(entry(s, 3 * i + 1), conv))
    }
}

/// The source frames of `n` output frames.
pub open spec fn sources(t: nat, n: nat) -> Seq<u32> {
    Seq::new(n, |i: int| source_index(i as nat, t, n) as u32)
}

/// The conditioning features of length `n` of content features of length `t`.
pub open spec fn regulated(s: Scope, content: Graph, t: nat, n: nat) -> Graph {
    let m = s.at("module"@);
    let projected = transposed(
        Graph::Linear(Box::new(content), linear_of(m.at("content_in_proj"@), 768, 512)),
        1,
        2,
    );
    let stretched = selected(projected, indices_graph(sources(t, n)), 2);
    let last = convolved(blocks_of(m, 4, stretched), conv_of(m.at("model.12"@), true, 512, 512, 1, 0, 1, 1));
    transposed(last, 1, 2)
}

/// Whether the parameters of block `i` are there.
pub open spec fn block_there(m: Scope, i: nat) -> bool {
    &&& conv_there(entry(m, 3 * i), true, 512, 512, 3)
    &&& entry(m, 3 * i + 1).holds("weight"@, seq![512usize])
    &&& entry(m, 3 * i + 1).holds("bias"@, seq![512usize])
}

/// Whether the parameters of the first `n` blocks are there.
pub open spec fn blocks_there(m: Scope, n: nat) -> bool {
    forall|i: nat| i < n ==> #[trigger] block_there(m, i)
}

/// Whether all parameters of the regulator are there.
pub open spec fn regulator_there(s: Scope) -> bool {
    let m = s.at("module"@);
    &&& linear_there(m.at("content_in_proj"@), 768, 512)
    &&& blocks_there(m, 4)
    &&& conv_there(m.at("model.12"@), true, 512, 512, 1)
}

/// Whether the regulator can bring content features of the given shape to `n` frames, as far as
/// sizes go.
pub open spec fn fits(dims: Seq<usize>, n: usize) -> bool {
    &&& dims.len() >= 3 ==> 1 <= dims[1] && dims[1] - 1 <= u32::MAX
    &&& linear_fits(dims)
    &&& 1 <= n
    &&& n + 2 <= usize::MAX
}

/// Whether `y` holds the conditioning features of length `n` of `content`.
pub open spec fn is_regulated(s: Scope, content: Tensor, n: usize, y: Tensor) -> bool {
    &&& is_float(content)
    &&& shape(content).len() == 3
    &&& shape(content)[2] == 768
    &&& shape(y) == seq![shape(content)[0], n, 512usize]
    &&& is_float(y)
    &&& graph(y) == regulated(s, graph(content), shape(content)[1] as nat, n as nat)
}

/// The length regulator.
pub struct InterpolateRegulator {
    source: Ghost<Scope>,
    proj: Linear,
    blocks: Vec<(Conv1d, Tensor, Tensor)>,
    out: Conv1d,
}

impl InterpolateRegulator {
    /// The parameters that the regulator was loaded from.
    pub closed spec fn parameters(self) -> Scope {
        self.source@
    }

    spec fn blocks_loaded(blocks: Seq<(Conv1d, Tensor, Tensor)>, m: Scope) -> bool {
        forall|i: int|
            0 <= i < blocks.len() ==> Self::block_loaded(#[trigger] blocks[i], m, i as nat)
    }

    spec fn block_loaded(block: (Conv1d, Tensor, Tensor), m: Scope, i: nat) -> bool {
        &&& conv1d_layer(block.0) == conv_of(entry(m, 3 * i), true, 512, 512, 3, 1, 1, 1)
        &&& shape(block.1) == per_channel()
        &&& graph(block.1) == reshaped(entry(m, 3 * i + 1).parameter("weight"@), per_channel())
        &&& shape(block.2) == per_channel()
        &&& graph(block.2) == reshaped(entry(m, 3 * i + 1).parameter("bias"@), per_channel())
        &&& conv1d_packed(block.0)
        &&& m.ready ==> conv1d_ready(block.0) && plain(block.1) && plain(block.2)
    }

    #[verifier::type_invariant]
    spec fn wf(self) -> bool {
        let m = self.source@.at("module"@);
        &&& linear_layer(self.proj) == linear_of(m.at("content_in_proj"@), 768, 512)
        &&& self.blocks@.len() == 4
        &&& Self::blocks_loaded(self.blocks@, m)
        &&& conv1d_layer(self.out) == conv_of(m.at("model.12"@), true, 512, 512, 1, 0, 1, 1)
        &&& linear_packed(self.proj)
        &&& conv1d_packed(self.out)
        &&& m.ready ==> linear_ready(self.proj) && conv1d_ready(self.out)
    }

    /// Whether everything is in main memory in single precision and the shape is right, so that no
    /// tensor operation on `content` can fail.
    pub open spec fn runs(self, content: Tensor) -> bool {
        &&& self.parameters().ready
        &&& plain(content)
        &&& shape(content).len() == 3
        &&& 1 <= shape(content)[0]
        &&& shape(content)[2] == 768
    }

    /// Loads the regulator from a checkpoint.
    pub fn load(w: &Weights) -> (r: Result<Self, VcError>)
        ensures
            r matches Ok(m) ==> m.parameters() == w.scope() && regulator_there(w.scope()),
            r matches Err(e) ==> e is Backend,
            w.scope().ready && regulator_there(w.scope()) ==> r is Ok,
    {
        lift(Self::build(w))
    }

    fn build(w: &Weights) -> (r: Result<Self, Error>)
        ensures
            r matches Ok(m) ==> m.parameters() == w.scope() && regulator_there(w.scope()),
            w.scope().ready && regulator_there(w.scope()) ==> r is Ok,
    {
        proof {
            lemma_column_count(512);
        }
        let m = w.pp("module");
        let proj = load_linear(&m.pp("content_in_proj"), 768, CHANNELS)?;
        let mut blocks: Vec<(Conv1d, Tensor, Tensor)> = Vec::new();
        let mut i: usize = 0;
        while i < 4
            invariant
                i <= 4,
                blocks@.len() == i,
                Self::blocks_loaded(blocks@, m.scope()),
                blocks_there(m.scope(), i as nat),
                m.scope() == w.scope().at("module"@),
                element_count(seq![512usize]) == element_count(per_channel()),
            decreases 4 - i,
        {
            assert(regulator_there(w.scope()) ==> block_there(m.scope(), i as nat));
            let conv = load_conv1d(&m.pp(numbered("model.", i * 3).as_str()), CHANNELS, CHANNELS, 3, 1, 1, 1)?;
            let norm = m.pp(numbered("model.", i * 3 + 1).as_str());
            let dims = vec![CHANNELS];
            assert(dims@ == seq![512usize]);
            let weight = norm.get(dims, "weight")?;
            let column = vec![1, CHANNELS, 1];
            assert(column@ == per_channel());
            let weight = reshape(&weight, column)?;
            let dims = vec![CHANNELS];
            assert(dims@ == seq![512usize]);
            let bias = norm.get(dims, "bias")?;
            let column = vec![1, CHANNELS, 1];
            assert(column@ == per_channel());
            let bias = reshape(&bias, column)?;
            assert(block_there(m.scope(), i as nat));
            blocks.push((conv, weight, bias));
            i += 1;
        }
        let out = load_conv1d(&m.pp("model.12"), CHANNELS, CHANNELS, 1, 0, 1, 1)?;
        Ok(InterpolateRegulator { source: Ghost(w.scope()), proj, blocks, out })
    }

    /// Brings `content`, which is `[batch, frames, 768]`, to `[batch, target_len, 512]`.
    pub fn forward(&self, content: &Tensor, target_len: usize) -> (r: Result<Tensor, VcError>)
        requires
            fits(shape(*content), target_len),
        ensures
            r matches Ok(y) ==> is_regulated(self.parameters(), *content, target_len, y),
            r matches Err(e) ==> e is Backend,
            self.runs(*content) ==> r is Ok,
    {
        lift(self.run(content, target_len))
    }

    /// Whether [`forward`](InterpolateRegulator::forward) can bring `content` to `target_len`.
    pub fn accepts(&self, content: &Tensor, target_len: usize) -> (r: bool)
        ensures
            r == fits(shape(*content), target_len),
    {
        let dims = content.dims();
        let frames_fit = dims.len() < 3 || (1 <= dims[1] && (dims[1] - 1) as u64 <= u32::MAX as u64);
        frames_fit && rows_fit(dims) && 1 <= target_len && target_len <= usize::MAX - 2
    }

    /// [`forward`](InterpolateRegulator::forward), if it can bring `content` to `target_len`.
    pub fn checked_forward(&self, content: &Tensor, target_len: usize) -> (r: Option<Result<Tensor, VcError>>)
        ensures
            r is Some <==> fits(shape(*content), target_len),
            r matches Some(Ok(y)) ==> is_regulated(self.parameters(), *content, target_len, y),
            r matches Some(Err(e)) ==> e is Backend,
            r matches Some(q) ==> self.runs(*content) ==> q is Ok,
    {
        if self.accepts(content, target_len) {
            Some(self.forward(content, target_len))
        } else {
            None
        }
    }

    fn run(&self, content: &Tensor, target_len: usize) -> (r: Result<Tensor, Error>)
        requires
            fits(shape(*content), target_len),
        ensures
            r matches Ok(y) ==> is_regulated(self.parameters(), *content, target_len, y),
            self.runs(*content) ==> r is Ok,
    {
        proof {
            use_type_invariant(self);
        }
        let ghost m = self.source@.at("module"@);
        let ghost b = shape(*content)[0];
        let rows = content.contiguous()?;
        let x = transpose(&linear_forward(&self.proj, &rows)?, 1, 2)?.contiguous()?;
        let t = extent(&x, 2)?;
        let idx = source_indices(t, target_len);
        assert(idx@ == sources(t as nat, target_len as nat));
        let x = index_select(&x, &indices(idx, &x)?, 2)?;
        let ghost stretched = graph(x);
        assert(shape(*content).len() == 3 ==> shape(x) == seq![b, 512usize, target_len]);
        proof {
            lemma_convs_keep_length(target_len as int);
        }
        let mut x = x;
        let mut i: usize = 0;
        while i < self.blocks.len()
            invariant
                self.wf(),
                m == self.source@.at("module"@),
                conv_fits(target_len as int, 3, 1, 1, 1),
                conv_len(target_len as int, 3, 1, 1, 1) == target_len,
                i <= 4,
                is_float(x),
                sound(x),
                i > 0 ==> shape(*content).len() == 3,
                shape(x).len() == shape(*content).len(),
                shape(*content).len() == 3 ==> shape(x) == seq![b, 512usize, target_len],
                graph(x) == blocks_of(m, i as nat, stretched),
                b == shape(*content)[0],
                self.runs(*content) ==> plain(x),
            decreases 4 - i,
        {
            let block = &self.blocks[i];
            assert(Self::block_loaded(*block, m, i as nat));
            let y = conv1d_forward(&block.0, &x)?;
            assert(shape(y) == seq![b, 512usize, target_len]);
            let normed = norm(&y, &block.1, &block.2, Ghost(entry(m, (3 * i + 1) as nat)))?;
            x = activate(&normed)?;
            i += 1;
        }
        let x = conv1d_forward(&self.out, &x)?;
        assert(shape(x) == seq![b, 512usize, target_len]);
        let y = transpose(&x, 1, 2)?.contiguous()?;
        assert(shape(y) == seq![b, target_len, 512usize]);
        Ok(y)
    }
}

/// The group normalisation of `y`, which is `[batch, 512, frames]`, with the given factors and
/// summands.
fn norm(y: &Tensor, w: &Tensor, b: &Tensor, Ghost(s): Ghost<Scope>) -> (r: Result<Tensor, Error>)
    requires
        is_float(*y),
        sound(*y),
        shape(*y).len() == 3,
        shape(*y)[1] == 512,
        shape(*w) == per_channel(),
        graph(*w) == reshaped(s.parameter("weight"@), per_channel()),
        shape(*b) == per_channel(),
        graph(*b) == reshaped(s.parameter("bias"@), per_channel()),
    ensures
        r matches Ok(z) ==> shape(z) == shape(*y) && is_float(z) && sound(z) && graph(z) == group_norm(s, graph(*y)),
        plain(*y) && plain(*w) && plain(*b) ==> (r matches Ok(z) && plain(z)),
{
    proof {
        lemma_element_count(Seq::<usize>::empty());
        lemma_column_count(1);
    }
    let mean = y.mean_all()?;
    let dims = vec![1, 1, 1];
    assert(dims@ == seq![1usize, 1usize, 1usize]);
    let one = reshape(&mean, dims)?;
    let centred = y.broadcast_sub(&one)?;
    assert(shape(centred) == shape(*y));
    let var = centred.sqr()?.mean_all()?;
    let dims = vec![1, 1, 1];
    assert(dims@ == seq![1usize, 1usize, 1usize]);
    let denom = reshape(&plus_inverse_of(&var, 100_000)?.sqrt()?, dims)?;
    let unit = centred.broadcast_div(&denom)?;
    assert(shape(unit) == shape(*y));
    let scaled = unit.broadcast_mul(w)?;
    assert(shape(scaled) == shape(*y));
    let z = scaled.broadcast_add(b)?;
    assert(shape(z) == shape(*y));
    Ok(z)
}

/// Mish of `x`.
fn activate(x: &Tensor) -> (r: Result<Tensor, Error>)
    requires
        is_float(*x),
        sound(*x),
        shape(*x).len() <= MAX_AXES,
    ensures
        r matches Ok(y) ==> shape(y) == shape(*x) && is_float(y) && sound(y) && graph(y) == mish(graph(*x)),
        plain(*x) ==> (r matches Ok(y) && plain(y)),
{
    let sp = plus_whole(&x.exp()?, 1)?.log()?;
    x.mul(&sp.tanh()?)
}

/// The convolutions fit any length, and keep it.
proof fn lemma_convs_keep_length(l: int)
    requires
        1 <= l,
        l + 2 <= usize::MAX,
    ensures
        conv_fits(l, 3, 1, 1, 1),
        conv_len(l, 3, 1, 1, 1) == l,
        conv_fits(l, 1, 0, 1, 1),
        conv_len(l, 1, 0, 1, 1) == l,
{
}

} // verus!
