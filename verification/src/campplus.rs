//! CAM++ speaker encoder (`campplus_cn_common`): a D-TDNN that turns the log mel filterbank of an
//! utterance into a 192-dimensional speaker embedding.
//!
//! A front-end of two-dimensional convolutions ([`Fcm`]), a TDNN stem, three densely connected
//! blocks of context-aware masking layers with transit layers between them, pooling of mean and
//! standard deviation over time, and a dense layer.

use crate::error::{lift, VcError};
use crate::graph::{
    axis_mean, axis_sum, convolved, convolved2d, difference, expanded, indices as indices_graph, matrix_product,
    narrowed, over, plus_inverse, product, quotient, reshaped, selected, sum, transposed, unary, ConvLayer,
    Graph, UnaryOp,
};
use crate::layers::{
    conv1d_forward, conv1d_layer, conv1d_packed, conv1d_ready, conv2d_forward, conv2d_layer, conv2d_packed,
    conv2d_ready, conv2d_there, conv_of, conv_there, load_conv1d, load_conv1d_no_bias, load_conv2d_no_bias, Scope,
    Weights,
};
use crate::tensor::{
    cat, conv_fits, conv_len, element_count, expand, extent, graph, graphs, holds_floats, index_select, indices,
    is_float, lemma_column_count, lemma_element_count, mean_axis, mean_keepdim, narrow, nonempty, over_whole, packed,
    plain, plus_inverse_of, reshape, shape, sound, stackable, sum_axis, total_extent, transpose, unsqueeze, MAX_AXES,
};
use crate::text::{decimal, numbered};
use candle_core::{Error, Tensor};
use candle_nn::{Conv1d, Conv2d};
use vstd::arithmetic::div_mod::{lemma_fundamental_div_mod, lemma_fundamental_div_mod_converse};
use vstd::prelude::*;

verus! {

pub const SR: usize = 16_000;

pub const NUM_MEL_BINS: usize = 80;

/// The shape of one value per channel among `rank` axes, of which the second is the channels.
pub open spec fn per_channel(channels: usize, rank: nat) -> Seq<usize> {
    Seq::new(rank, |i: int| if i == 1 { channels } else { 1 })
}

/// The square root of the running variance plus 1e-5.
pub open spec fn deviation(s: Scope) -> Graph {
    unary(UnaryOp::Sqrt, plus_inverse(s.parameter("running_var"@), 100_000))
}

/// The factor of a batch normalisation.
pub open spec fn norm_scale(s: Scope, affine: bool) -> Graph {
    if affine {
        quotient(s.parameter("weight"@), deviation(s))
    } else {
        unary(UnaryOp::Recip, deviation(s))
    }
}

/// The summand of a batch normalisation.
pub open spec fn norm_shift(s: Scope, affine: bool) -> Graph {
    let moved = product(s.parameter("running_mean"@), norm_scale(s, affine));
    if affine {
        difference(s.parameter("bias"@), moved)
    } else {
        unary(UnaryOp::Neg, moved)
    }
}

/// The batch normalisation of `x`, which has `rank` axes, with the running statistics.
pub open spec fn batch_norm(s: Scope, channels: usize, affine: bool, x: Graph, rank: nat) -> Graph {
    let dims = per_channel(channels, rank);
    sum(product(x, reshaped(norm_scale(s, affine), dims)), reshaped(norm_shift(s, affine), dims))
}

/// Whether the parameters of a batch normalisation are there.
pub open spec fn batch_norm_there(s: Scope, channels: usize, affine: bool) -> bool {
    &&& s.holds("running_mean"@, seq![channels])
    &&& s.holds("running_var"@, seq![channels])
    &&& affine ==> s.holds("weight"@, seq![channels]) && s.holds("bias"@, seq![channels])
}

/// A batch normalisation with fixed statistics, folded to a factor and a summand per channel.
struct BatchNorm {
    scale: Tensor,
    shift: Tensor,
}

impl BatchNorm {
    spec fn loaded(self, s: Scope, channels: usize, affine: bool) -> bool {
        &&& shape(self.scale) == seq![channels]
        &&& shape(self.shift) == seq![channels]
        &&& graph(self.scale) == norm_scale(s, affine)
        &&& graph(self.shift) == norm_shift(s, affine)
        &&& s.ready ==> plain(self.scale) && plain(self.shift)
    }

    fn load(channels: usize, affine: bool, w: &Weights) -> (r: Result<Self, Error>)
        ensures
            r matches Ok(a) ==> a.loaded(w.scope(), channels, affine) && batch_norm_there(w.scope(), channels, affine),
            w.scope().ready && batch_norm_there(w.scope(), channels, affine) ==> r is Ok,
    {
        let mean = Self::row("running_mean", channels, w)?;
        let var = Self::row("running_var", channels, w)?;
        let denom = plus_inverse_of(&var, 100_000)?.sqrt()?;
        if affine {
            let scale = Self::row("weight", channels, w)?.div(&denom)?;
            let shift = Self::row("bias", channels, w)?.sub(&mean.mul(&scale)?)?;
            Ok(BatchNorm { scale, shift })
        } else {
            let scale = denom.recip()?;
            let shift = mean.mul(&scale)?.neg()?;
            Ok(BatchNorm { scale, shift })
        }
    }

    /// The parameter of that name, one value per channel.
    fn row(name: &str, channels: usize, w: &Weights) -> (r: Result<Tensor, Error>)
        ensures
            r matches Ok(t) ==> w.scope().holds(name@, seq![channels]) && shape(t) == seq![channels] && is_float(t)
                && graph(t) == w.scope().parameter(name@) && (w.scope().ready ==> plain(t)),
            w.scope().ready && w.scope().holds(name@, seq![channels]) ==> r is Ok,
    {
        let dims = vec![channels];
        assert(dims@ == seq![channels]);
        w.get(dims, name)
    }

    /// `x` has two axes or more, of which the second is the channels.
    fn forward(
        &self,
        x: &Tensor,
        Ghost(s): Ghost<Scope>,
        Ghost(channels): Ghost<usize>,
        Ghost(affine): Ghost<bool>,
    ) -> (r: Result<Tensor, Error>)
        requires
            self.loaded(s, channels, affine),
            is_float(*x),
            2 <= shape(*x).len() <= MAX_AXES,
            shape(*x)[1] == channels,
        ensures
            r matches Ok(y) ==> shape(y) == shape(*x) && is_float(y) == is_float(*x) && graph(y) == batch_norm(
                s,
                channels,
                affine,
                graph(*x),
                shape(*x).len(),
            ),
            s.ready && plain(*x) ==> (r matches Ok(y) && plain(y)),
    {
        let rank = x.dims().len();
        let mut dims: Vec<usize> = Vec::new();
        let mut again: Vec<usize> = Vec::new();
        let mut i: usize = 0;
        let n = extent(&self.scale, 0)?;
        while i < rank
            invariant
                i <= rank,
                n == channels,
                shape(self.scale) == seq![channels],
                dims@.len() == i,
                again@ == dims@,
                forall|k: int| 0 <= k < i ==> #[trigger] dims@[k] == (if k == 1 { channels } else { 1 }),
            decreases rank - i,
        {
            let d: usize = if i == 1 { n } else { 1 };
            dims.push(d);
            again.push(d);
            i += 1;
        }
        assert(dims@ == per_channel(channels, rank as nat));
        proof {
            lemma_channel_count(channels, rank as nat);
            lemma_column_count(channels);
        }
        let y = x.broadcast_mul(&reshape(&self.scale, dims)?)?;
        assert(shape(y) == shape(*x));
        let z = y.broadcast_add(&reshape(&self.shift, again)?)?;
        assert(shape(z) == shape(*x));
        Ok(z)
    }
}

/// One value per channel is as many values as channels.
proof fn lemma_channel_count(channels: usize, rank: nat)
    requires
        rank >= 2,
    ensures
        element_count(per_channel(channels, rank)) == channels,
    decreases rank,
{
    let dims = per_channel(channels, rank);
    if rank == 2 {
        lemma_element_count(dims);
        assert(1 * channels == channels);
    } else {
        lemma_channel_count(channels, (rank - 1) as nat);
        assert(dims.drop_last() == per_channel(channels, (rank - 1) as nat));
        assert(dims.last() == 1);
        assert(channels * 1 == channels);
    }
}

/// The even numbers below `h`.
pub open spec fn evens(h: nat) -> Seq<u32> {
    Seq::new((h + 1) / 2, |i: int| (2 * i) as u32)
}

/// Half of an extent, rounded up.
pub open spec fn halved(h: usize) -> usize {
    (h / 2 + h % 2) as usize
}

/// The shape that a residual block gives its input.
pub open spec fn block_shape(x: Seq<usize>, planes: usize, stride: usize) -> Seq<usize> {
    seq![x[0], planes, if stride != 1 { halved(x[2]) } else { x[2] }, x[3]]
}

/// The even rows of `x`, whose third axis has extent `h`.
pub open spec fn even_rows(x: Graph, h: nat) -> Graph {
    selected(x, indices_graph(evens(h)), 2)
}

/// Every second row of `x`: a convolution of stride `(2, 1)` is one of stride 1 whose odd rows are
/// left out.
fn take_even_rows(x: &Tensor) -> (r: Result<Tensor, Error>)
    requires
        shape(*x).len() > 2 ==> shape(*x)[2] <= u32::MAX,
        sound(*x),
    ensures
        r matches Ok(y) ==> shape(*x).len() > 2 && shape(y) == shape(*x).update(2, halved(shape(*x)[2])) && is_float(y)
            == is_float(*x) && graph(y) == even_rows(graph(*x), shape(*x)[2] as nat),
        plain(*x) && packed(*x) && shape(*x).len() > 2 ==> (r matches Ok(y) && plain(y)),
{
    let h = extent(x, 2)?;
    let n = h / 2 + h % 2;
    let mut idx: Vec<u32> = Vec::new();
    let mut i: usize = 0;
    while i < n
        invariant
            h <= u32::MAX,
            n == h / 2 + h % 2,
            i <= n,
            idx@ == Seq::new(i as nat, |k: int| (2 * k) as u32),
        decreases n - i,
    {
        idx.push((2 * i) as u32);
        i += 1;
        assert(idx@ == Seq::new(i as nat, |k: int| (2 * k) as u32));
    }
    assert(idx@ == evens(h as nat));
    index_select(x, &indices(idx, x)?, 2)?.contiguous()
}

/// A batch normalisation followed by the rectifier.
pub open spec fn norm_relu(s: Scope, channels: usize, x: Graph, rank: nat) -> Graph {
    unary(UnaryOp::Relu, batch_norm(s, channels, true, x, rank))
}

/// A square convolution without a bias that keeps the extents of its input.
pub open spec fn square_conv(s: Scope, in_channels: usize, out_channels: usize, kernel: usize, x: Graph) -> Graph {
    convolved2d(x, conv_of(s, false, in_channels, out_channels, kernel, ((kernel - 1) / 2) as usize, 1, 1))
}

/// A residual block: two 3x3 convolutions, added to the input or, where the block halves the
/// rows, to a 1x1 convolution of it. `x` has `h` rows.
pub open spec fn res_block(s: Scope, planes: usize, stride: usize, x: Graph, h: nat) -> Graph {
    let first = square_conv(s.at("conv1"@), planes, planes, 3, x);
    let first = if stride != 1 { even_rows(first, h) } else { first };
    let first = norm_relu(s.at("bn1"@), planes, first, 4);
    let second = batch_norm(s.at("bn2"@), planes, true, square_conv(s.at("conv2"@), planes, planes, 3, first), 4);
    let res = if stride != 1 {
        batch_norm(
            s.at("shortcut.1"@),
            planes,
            true,
            even_rows(square_conv(s.at("shortcut.0"@), planes, planes, 1, x), h),
            4,
        )
    } else {
        x
    };
    unary(UnaryOp::Relu, sum(second, res))
}

/// Whether the parameters of a residual block are there.
pub open spec fn res_block_there(s: Scope, planes: usize, stride: usize) -> bool {
    &&& conv2d_there(s.at("conv1"@), planes, planes, 3)
    &&& batch_norm_there(s.at("bn1"@), planes, true)
    &&& conv2d_there(s.at("conv2"@), planes, planes, 3)
    &&& batch_norm_there(s.at("bn2"@), planes, true)
    &&& stride != 1 ==> conv2d_there(s.at("shortcut.0"@), planes, planes, 1)
    &&& stride != 1 ==> batch_norm_there(s.at("shortcut.1"@), planes, true)
}

/// A 1x1 convolution fits any input, and keeps its extents.
proof fn lemma_point_conv(l: int)
    requires
        1 <= l <= usize::MAX,
    ensures
        conv_fits(l, 1, 0, 1, 1),
        conv_len(l, 1, 0, 1, 1) == l,
{
}

/// A padded 3x3 convolution fits any input, and keeps its extents.
proof fn lemma_square_conv(l: int)
    requires
        1 <= l,
        l + 2 <= usize::MAX,
    ensures
        conv_fits(l, 3, 1, 1, 1),
        conv_len(l, 3, 1, 1, 1) == l,
{
}

/// A residual block of the front-end.
struct BasicResBlock {
    conv1: Conv2d,
    bn1: BatchNorm,
    conv2: Conv2d,
    bn2: BatchNorm,
    shortcut: Option<(Conv2d, BatchNorm)>,
    stride: usize,
}

impl BasicResBlock {
    spec fn loaded(self, s: Scope, planes: usize, stride: usize) -> bool {
        &&& conv2d_layer(self.conv1) == conv_of(s.at("conv1"@), false, planes, planes, 3, 1, 1, 1)
        &&& self.bn1.loaded(s.at("bn1"@), planes, true)
        &&& conv2d_layer(self.conv2) == conv_of(s.at("conv2"@), false, planes, planes, 3, 1, 1, 1)
        &&& self.bn2.loaded(s.at("bn2"@), planes, true)
        &&& self.stride == stride
        &&& stride != 1 <==> self.shortcut is Some
        &&& self.shortcut matches Some(p) ==> {
            &&& conv2d_layer(p.0) == conv_of(s.at("shortcut.0"@), false, planes, planes, 1, 0, 1, 1)
            &&& p.1.loaded(s.at("shortcut.1"@), planes, true)
            &&& conv2d_packed(p.0)
            &&& s.ready ==> conv2d_ready(p.0)
        }
        &&& conv2d_packed(self.conv1)
        &&& conv2d_packed(self.conv2)
        &&& s.ready ==> conv2d_ready(self.conv1) && conv2d_ready(self.conv2)
    }

    fn load(planes: usize, stride: usize, w: &Weights) -> (r: Result<Self, Error>)
        ensures
            r matches Ok(a) ==> a.loaded(w.scope(), planes, stride) && res_block_there(w.scope(), planes, stride),
            w.scope().ready && res_block_there(w.scope(), planes, stride) ==> r is Ok,
    {
        let shortcut = if stride != 1 {
            Some(
                (
                    load_conv2d_no_bias(&w.pp("shortcut.0"), planes, planes, 1, 0)?,
                    BatchNorm::load(planes, true, &w.pp("shortcut.1"))?,
                ),
            )
        } else {
            None
        };
        Ok(
            BasicResBlock {
                conv1: load_conv2d_no_bias(&w.pp("conv1"), planes, planes, 3, 1)?,
                bn1: BatchNorm::load(planes, true, &w.pp("bn1"))?,
                conv2: load_conv2d_no_bias(&w.pp("conv2"), planes, planes, 3, 1)?,
                bn2: BatchNorm::load(planes, true, &w.pp("bn2"))?,
                shortcut,
                stride,
            },
        )
    }

    /// `x` is `[batch, planes, rows, frames]`.
    fn forward(
        &self,
        x: &Tensor,
        Ghost(s): Ghost<Scope>,
        Ghost(planes): Ghost<usize>,
        Ghost(stride): Ghost<usize>,
    ) -> (r: Result<Tensor, Error>)
        requires
            self.loaded(s, planes, stride),
            1 <= planes,
            is_float(*x),
            shape(*x).len() == 4,
            nonempty(shape(*x)),
            shape(*x)[2] <= u32::MAX,
            shape(*x)[2] + 2 <= usize::MAX,
            shape(*x)[3] + 2 <= usize::MAX,
        ensures
            r matches Ok(y) ==> is_float(y) && shape(y) == block_shape(shape(*x), planes, stride) && graph(y)
                == res_block(s, planes, stride, graph(*x), shape(*x)[2] as nat),
            s.ready && plain(*x) && shape(*x)[1] == planes ==> (r matches Ok(y) && plain(y)),
    {
        proof {
            assert(shape(*x)[0] >= 1 && shape(*x)[2] >= 1 && shape(*x)[3] >= 1);
            lemma_point_conv(shape(*x)[2] as int);
            lemma_point_conv(shape(*x)[3] as int);
            lemma_square_conv(shape(*x)[2] as int);
            lemma_square_conv(halved(shape(*x)[2]) as int);
            lemma_square_conv(shape(*x)[3] as int);
        }
        let mut out = conv2d_forward(&self.conv1, x)?;
        assert(shape(out) == shape(*x).update(1, planes));
        if self.stride != 1 {
            out = take_even_rows(&out)?;
        }
        assert(shape(out) == block_shape(shape(*x), planes, stride));
        let out = self.bn1.forward(&out, Ghost(s.at("bn1"@)), Ghost(planes), Ghost(true))?.relu()?;
        let out = conv2d_forward(&self.conv2, &out)?;
        assert(shape(out) == block_shape(shape(*x), planes, stride));
        let out = self.bn2.forward(&out, Ghost(s.at("bn2"@)), Ghost(planes), Ghost(true))?;
        let res = match &self.shortcut {
            Some(pair) => {
                let short = conv2d_forward(&pair.0, x)?;
                assert(shape(short) == shape(*x).update(1, planes));
                let short = take_even_rows(&short)?;
                pair.1.forward(&short, Ghost(s.at("shortcut.1"@)), Ghost(planes), Ghost(true))?
            },
            None => x.clone(),
        };
        assert(shape(*x)[1] == planes ==> shape(res) == block_shape(shape(*x), planes, stride));
        out.add(&res)?.relu()
    }
}

/// Channels of the front-end's convolutions.
const M_CHANNELS: usize = 32;

/// The position, number of rows and stride of each residual block of the front-end, for an input
/// of `f` rows.
pub open spec fn front_blocks(s: Scope, f: usize) -> Seq<(Scope, usize, usize)> {
    seq![
        (s.at("layer1.0"@), f, 2),
        (s.at("layer1.1"@), halved(f), 1),
        (s.at("layer2.0"@), halved(f), 2),
        (s.at("layer2.1"@), halved(halved(f)), 1),
    ]
}

/// The first `n` residual blocks of the front-end.
pub open spec fn front_stages(s: Scope, x: Graph, f: usize, n: nat) -> Graph
    decreases n,
{
    if n == 0 {
        x
    } else {
        let (scope, rows, stride) = front_blocks(s, f)[n - 1];
        res_block(scope, 32, stride, front_stages(s, x, f, (n - 1) as nat), rows as nat)
    }
}

/// The front-end of `x`, whose shape is `[b, f, t]`: a 3x3 convolution, four residual blocks and
/// another 3x3 convolution; two of the blocks and the last convolution halve the rows. The
/// remaining rows of all channels become the channels of the result.
pub open spec fn front_end(s: Scope, x: Graph, b: usize, f: usize, t: usize) -> Graph {
    let image = reshaped(x, seq![b, 1usize, f, t]);
    let first = norm_relu(s.at("bn1"@), 32, square_conv(s.at("conv1"@), 1, 32, 3, image), 4);
    let last = square_conv(s.at("conv2"@), 32, 32, 3, front_stages(s, first, f, 4));
    let rows = halved(halved(f));
    reshaped(
        norm_relu(s.at("bn2"@), 32, even_rows(last, rows as nat), 4),
        seq![b, (32 * halved(rows)) as usize, t],
    )
}

/// Whether the front-end can count the sizes of an input of `f` rows and `t` frames.
pub open spec fn front_fits(f: usize, t: usize) -> bool {
    &&& 1 <= f <= u32::MAX
    &&& f + 2 <= usize::MAX
    &&& 32 * halved(halved(halved(f))) <= usize::MAX
    &&& 1 <= t
    &&& t + 2 <= usize::MAX
}

/// Whether the parameters of the front-end are there.
pub open spec fn front_there(s: Scope) -> bool {
    &&& conv2d_there(s.at("conv1"@), 1, 32, 3)
    &&& batch_norm_there(s.at("bn1"@), 32, true)
    &&& res_block_there(s.at("layer1.0"@), 32, 2)
    &&& res_block_there(s.at("layer1.1"@), 32, 1)
    &&& res_block_there(s.at("layer2.0"@), 32, 2)
    &&& res_block_there(s.at("layer2.1"@), 32, 1)
    &&& conv2d_there(s.at("conv2"@), 32, 32, 3)
    &&& batch_norm_there(s.at("bn2"@), 32, true)
}

/// The front-end: `[batch, rows, frames]` to `[batch, channels, frames]`. 80 rows give 320
/// channels.
struct Fcm {
    conv1: Conv2d,
    bn1: BatchNorm,
    layers: Vec<BasicResBlock>,
    conv2: Conv2d,
    bn2: BatchNorm,
}

impl Fcm {
    spec fn loaded(self, s: Scope) -> bool {
        &&& conv2d_layer(self.conv1) == conv_of(s.at("conv1"@), false, 1, 32, 3, 1, 1, 1)
        &&& self.bn1.loaded(s.at("bn1"@), 32, true)
        &&& self.layers@.len() == 4
        &&& forall|i: int|
            0 <= i < 4 ==> (#[trigger] self.layers@[i]).loaded(
                front_blocks(s, 0)[i].0,
                32,
                front_blocks(s, 0)[i].2,
            )
        &&& conv2d_layer(self.conv2) == conv_of(s.at("conv2"@), false, 32, 32, 3, 1, 1, 1)
        &&& self.bn2.loaded(s.at("bn2"@), 32, true)
        &&& conv2d_packed(self.conv1)
        &&& conv2d_packed(self.conv2)
        &&& s.ready ==> conv2d_ready(self.conv1) && conv2d_ready(self.conv2)
    }

    fn load(w: &Weights) -> (r: Result<Self, Error>)
        ensures
            r matches Ok(a) ==> a.loaded(w.scope()) && front_there(w.scope()),
            w.scope().ready && front_there(w.scope()) ==> r is Ok,
    {
        let mut layers: Vec<BasicResBlock> = Vec::new();
        layers.push(BasicResBlock::load(M_CHANNELS, 2, &w.pp("layer1.0"))?);
        layers.push(BasicResBlock::load(M_CHANNELS, 1, &w.pp("layer1.1"))?);
        layers.push(BasicResBlock::load(M_CHANNELS, 2, &w.pp("layer2.0"))?);
        layers.push(BasicResBlock::load(M_CHANNELS, 1, &w.pp("layer2.1"))?);
        Ok(
            Fcm {
                conv1: load_conv2d_no_bias(&w.pp("conv1"), 1, M_CHANNELS, 3, 1)?,
                bn1: BatchNorm::load(M_CHANNELS, true, &w.pp("bn1"))?,
                layers,
                conv2: load_conv2d_no_bias(&w.pp("conv2"), M_CHANNELS, M_CHANNELS, 3, 1)?,
                bn2: BatchNorm::load(M_CHANNELS, true, &w.pp("bn2"))?,
            },
        )
    }

    fn forward(&self, x: &Tensor, Ghost(s): Ghost<Scope>) -> (r: Result<Tensor, Error>)
        requires
            self.loaded(s),
            shape(*x).len() == 3 ==> 1 <= shape(*x)[0] && front_fits(shape(*x)[1], shape(*x)[2]),
        ensures
            r matches Ok(y) ==> shape(*x).len() == 3 && is_float(*x) && is_float(y) && shape(y) == seq![
                shape(*x)[0],
                (32 * halved(halved(halved(shape(*x)[1])))) as usize,
                shape(*x)[2],
            ] && graph(y) == front_end(s, graph(*x), shape(*x)[0], shape(*x)[1], shape(*x)[2]),
            s.ready && plain(*x) && shape(*x).len() == 3 ==> (r matches Ok(y) && plain(y)),
    {
        let ghost (bx, f, t) = (shape(*x)[0], shape(*x)[1], shape(*x)[2]);
        proof {
            if shape(*x).len() == 3 {
                lemma_square_conv(f as int);
                lemma_square_conv(halved(halved(f)) as int);
                lemma_square_conv(t as int);
            }
        }
        let image = unsqueeze(x, 1)?;
        assert(shape(*x).len() == 3 ==> shape(image) == seq![bx, 1usize, f, t]);
        assert(shape(*x).len() == 3 ==> shape(image)[2] == f && shape(image)[3] == t);
        let out = conv2d_forward(&self.conv1, &image)?;
        assert(shape(out) == seq![bx, 32usize, f, t]);
        let mut out = self.bn1.forward(&out, Ghost(s.at("bn1"@)), Ghost(32), Ghost(true))?.relu()?;
        let ghost first = graph(out);
        let n = self.layers.len();
        let mut i: usize = 0;
        while i < n
            invariant
                self.loaded(s),
                n == 4,
                i <= n,
                front_fits(f, t),
                1 <= bx,
                is_float(out),
                shape(out) == seq![
                    bx,
                    32usize,
                    if i < 4 { front_blocks(s, f)[i as int].1 } else { halved(halved(f)) },
                    t,
                ],
                graph(out) == front_stages(s, first, f, i as nat),
                shape(*x) == seq![bx, f, t],
                s.ready && plain(*x) ==> plain(out),
            decreases n - i,
        {
            let ghost (scope, rows, stride) = front_blocks(s, f)[i as int];
            assert(self.layers@[i as int].loaded(scope, 32, stride));
            out = self.layers[i].forward(&out, Ghost(scope), Ghost(32), Ghost(stride))?;
            i += 1;
        }
        let out = conv2d_forward(&self.conv2, &out)?;
        assert(shape(out) == seq![bx, 32usize, halved(halved(f)), t]);
        let out = take_even_rows(&out)?;
        let out = self.bn2.forward(&out, Ghost(s.at("bn2"@)), Ghost(32), Ghost(true))?.relu()?;
        let (b, c, rows, frames) = out.dims4()?;
        proof {
            lemma_element_count(seq![b, c, rows, frames]);
            lemma_element_count(seq![b, (c * rows) as usize, frames]);
            assert(b * (c * rows) * frames == b * c * rows * frames) by (nonlinear_arith);
        }
        let dims = vec![b, c * rows, frames];
        assert(dims@ == seq![b, (c * rows) as usize, frames]);
        reshape(&out, dims)
    }
}

/// How many segments of `seg_len` cover `t` frames.
pub open spec fn segments(t: nat, seg_len: nat) -> nat
    recommends
        seg_len > 0,
{
    (t + seg_len - 1) as nat / seg_len
}

/// The length of segment `i`: `seg_len`, but for the last one, which ends with the frames.
pub open spec fn segment_len(t: nat, seg_len: nat, i: int) -> int {
    if t - i * seg_len < seg_len { t - i * seg_len } else { seg_len as int }
}

/// The mean of segment `i` of `x`, repeated over its frames.
pub open spec fn segment_mean(x: Graph, b: usize, c: usize, t: nat, seg_len: nat, i: int) -> Graph {
    let len = segment_len(t, seg_len, i);
    expanded(axis_mean(narrowed(x, 2, i * seg_len, len), 2, true), seq![b, c, len as usize])
}

/// The segment means of `x`, whose shape is `[b, c, t]`, each over its own frames.
pub open spec fn segment_means(x: Graph, b: usize, c: usize, t: nat, seg_len: nat) -> Graph {
    Graph::Concat(Seq::new(segments(t, seg_len), |i: int| segment_mean(x, b, c, t, seg_len, i)), 2)
}

/// Averages `x`, which is `[batch, channels, frames]`, over consecutive segments of `seg_len`
/// frames, the last of which may be shorter, and repeats every average over its segment.
pub fn seg_pooling(x: &Tensor, seg_len: usize) -> (r: Result<Tensor, Error>)
    requires
        is_float(*x),
        shape(*x).len() == 3 ==> 1 <= shape(*x)[0] && 1 <= shape(*x)[1],
        seg_len > 0,
    ensures
        r matches Ok(y) ==> shape(*x).len() == 3 && shape(*x)[2] > 0 && shape(y) == shape(*x) && is_float(y) && graph(y)
            == segment_means(
            graph(*x),
            shape(*x)[0],
            shape(*x)[1],
            shape(*x)[2] as nat,
            seg_len as nat,
        ),
        plain(*x) && shape(*x).len() == 3 && shape(*x)[2] > 0 ==> (r matches Ok(y) && plain(y)),
{
    let (b, c, t) = x.dims3()?;
    let mut parts: Vec<Tensor> = Vec::new();
    let mut s: usize = 0;
    let ghost mut n: int = 0;
    while s < t
        invariant
            is_float(*x),
            seg_len > 0,
            shape(*x) == seq![b, c, t],
            1 <= b && 1 <= c,
            s <= t,
            s < t ==> s == n * seg_len,
            s == t && t > 0 ==> (n - 1) * seg_len < t <= n * seg_len,
            0 <= n,
            s == 0 <==> n == 0,
            parts@.len() == n,
            total_extent(parts@, 2) == s,
            n > 0 ==> is_float(parts@[0]),
            forall|i: int|
                0 <= i < n ==> shape(#[trigger] parts@[i]) == seq![b, c, shape(parts@[i])[2]] && shape(parts@[i]).len()
                    == 3 && sound(parts@[i]),
            plain(*x) ==> forall|i: int| 0 <= i < n ==> plain(#[trigger] parts@[i]),
            forall|i: int|
                0 <= i < n ==> graph(#[trigger] parts@[i]) == segment_mean(
                    graph(*x),
                    b,
                    c,
                    t as nat,
                    seg_len as nat,
                    i,
                ),
        decreases t - s,
    {
        let len = if seg_len < t - s { seg_len } else { t - s };
        let cut = narrow(x, 2, s, len)?;
        assert(shape(cut) == seq![b, c, len]);
        let m = mean_keepdim(&cut, 2)?;
        assert(shape(m) == seq![b, c, 1usize]);
        let dims = vec![b, c, len];
        assert(dims@ == seq![b, c, len]);
        let part = expand(&m, dims)?.contiguous()?;
        let ghost before = parts@;
        parts.push(part);
        assert(parts@.drop_last() == before);
        assert(n * seg_len + seg_len == (n + 1) * seg_len) by (nonlinear_arith);
        s += len;
        proof {
            n = n + 1;
        }
    }
    assert(t > 0 ==> stackable(parts@, 2)) by {
        if t > 0 {
            assert forall|i: int| 0 <= i < parts@.len() implies shape(#[trigger] parts@[i]).len() == shape(
                parts@[0],
            ).len() && shape(parts@[i]) == shape(parts@[0]).update(2, shape(parts@[i])[2]) by {
                assert(shape(parts@[0]) == seq![b, c, shape(parts@[0])[2]]);
            }
        }
    }
    let y = cat(&parts, 2)?;
    assert(n == segments(t as nat, seg_len as nat)) by {
        lemma_segments(t as nat, seg_len as nat, n as nat);
    }
    assert(graphs(parts@) == Seq::new(
        segments(t as nat, seg_len as nat),
        |i: int| segment_mean(graph(*x), b, c, t as nat, seg_len as nat, i),
    ));
    assert(shape(y) == shape(*x));
    Ok(y)
}

proof fn lemma_segments(t: nat, seg_len: nat, n: nat)
    requires
        seg_len > 0,
        t > 0,
        (n - 1) * seg_len < t <= n * seg_len,
    ensures
        n == segments(t, seg_len),
{
    let r = t - 1 - (n - 1) * seg_len;
    assert(n * seg_len == (n - 1) * seg_len + seg_len) by (nonlinear_arith);
    assert(t + seg_len - 1 == n * seg_len + r);
    lemma_fundamental_div_mod_converse(t + seg_len - 1, seg_len as int, n as int, r);
}

/// The padding of a context-aware layer's local convolution.
pub open spec fn local_padding(kernel: usize, dilation: usize) -> int {
    (kernel - 1) / 2 * dilation
}

/// A 1x1 convolution without a bias.
pub open spec fn point_conv(s: Scope, in_channels: usize, out_channels: usize, x: Graph) -> Graph {
    convolved(x, conv_of(s, false, in_channels, out_channels, 1, 0, 1, 1))
}

/// A context-aware masking layer of `x`, whose shape is `[b, in_channels, t]`: a bottleneck, a
/// local convolution of it, and a mask of that from the means of the whole and of segments of
/// 100 frames.
pub open spec fn cam_layer(
    s: Scope,
    in_channels: usize,
    out_channels: usize,
    bn_channels: usize,
    kernel: usize,
    dilation: usize,
    x: Graph,
    b: usize,
    t: usize,
) -> Graph {
    let cam = s.at("cam_layer"@);
    let half = (bn_channels / 2) as usize;
    let z = point_conv(
        s.at("linear1"@),
        in_channels,
        bn_channels,
        norm_relu(s.at("nonlinear1.batchnorm"@), in_channels, x, 3),
    );
    let z = norm_relu(s.at("nonlinear2.batchnorm"@), bn_channels, z, 3);
    let padding = local_padding(kernel, dilation) as usize;
    let local = convolved(
        z,
        conv_of(cam.at("linear_local"@), false, bn_channels, out_channels, kernel, padding, 1, dilation),
    );
    let context = sum(axis_mean(z, 2, true), segment_means(z, b, bn_channels, t as nat, 100));
    let hidden = unary(
        UnaryOp::Relu,
        convolved(context, conv_of(cam.at("linear1"@), true, bn_channels, half, 1, 0, 1, 1)),
    );
    let mask = unary(
        UnaryOp::Sigmoid,
        convolved(hidden, conv_of(cam.at("linear2"@), true, half, out_channels, 1, 0, 1, 1)),
    );
    product(local, mask)
}

/// Whether the parameters of a context-aware masking layer are there.
pub open spec fn cam_there(
    s: Scope,
    in_channels: usize,
    out_channels: usize,
    bn_channels: usize,
    kernel: usize,
) -> bool {
    let cam = s.at("cam_layer"@);
    let half = (bn_channels / 2) as usize;
    &&& batch_norm_there(s.at("nonlinear1.batchnorm"@), in_channels, true)
    &&& conv_there(s.at("linear1"@), false, in_channels, bn_channels, 1)
    &&& batch_norm_there(s.at("nonlinear2.batchnorm"@), bn_channels, true)
    &&& conv_there(cam.at("linear_local"@), false, bn_channels, out_channels, kernel)
    &&& conv_there(cam.at("linear1"@), true, bn_channels, half, 1)
    &&& conv_there(cam.at("linear2"@), true, half, out_channels, 1)
}

/// A context-aware masking layer.
struct CamDenseTdnnLayer {
    nonlinear1: BatchNorm,
    linear1: Conv1d,
    nonlinear2: BatchNorm,
    linear_local: Conv1d,
    cam_linear1: Conv1d,
    cam_linear2: Conv1d,
}

impl CamDenseTdnnLayer {
    spec fn loaded(
        self,
        s: Scope,
        in_channels: usize,
        out_channels: usize,
        bn_channels: usize,
        kernel: usize,
        dilation: usize,
    ) -> bool {
        let cam = s.at("cam_layer"@);
        let half = (bn_channels / 2) as usize;
        let padding = local_padding(kernel, dilation) as usize;
        &&& self.nonlinear1.loaded(s.at("nonlinear1.batchnorm"@), in_channels, true)
        &&& conv1d_layer(self.linear1) == conv_of(s.at("linear1"@), false, in_channels, bn_channels, 1, 0, 1, 1)
        &&& self.nonlinear2.loaded(s.at("nonlinear2.batchnorm"@), bn_channels, true)
        &&& conv1d_layer(self.linear_local) == conv_of(
            cam.at("linear_local"@),
            false,
            bn_channels,
            out_channels,
            kernel,
            padding,
            1,
            dilation,
        )
        &&& conv1d_layer(self.cam_linear1) == conv_of(cam.at("linear1"@), true, bn_channels, half, 1, 0, 1, 1)
        &&& conv1d_layer(self.cam_linear2) == conv_of(cam.at("linear2"@), true, half, out_channels, 1, 0, 1, 1)
        &&& conv1d_packed(self.linear1)
        &&& conv1d_packed(self.linear_local)
        &&& conv1d_packed(self.cam_linear1)
        &&& conv1d_packed(self.cam_linear2)
        &&& s.ready ==> conv1d_ready(self.linear1) && conv1d_ready(self.linear_local) && conv1d_ready(
            self.cam_linear1,
        ) && conv1d_ready(self.cam_linear2)
    }

    fn load(
        in_channels: usize,
        out_channels: usize,
        bn_channels: usize,
        kernel_size: usize,
        dilation: usize,
        w: &Weights,
    ) -> (r: Result<Self, Error>)
        requires
            kernel_size >= 1,
            local_padding(kernel_size, dilation) <= usize::MAX,
        ensures
            r matches Ok(a) ==> a.loaded(w.scope(), in_channels, out_channels, bn_channels, kernel_size, dilation)
                && cam_there(w.scope(), in_channels, out_channels, bn_channels, kernel_size),
            w.scope().ready && cam_there(w.scope(), in_channels, out_channels, bn_channels, kernel_size) ==> r is Ok,
    {
        assert(0 <= local_padding(kernel_size, dilation)) by (nonlinear_arith)
            requires
                kernel_size >= 1,
        ;
        let padding = (kernel_size - 1) / 2 * dilation;
        let cam = w.pp("cam_layer");
        Ok(
            CamDenseTdnnLayer {
                nonlinear1: BatchNorm::load(in_channels, true, &w.pp("nonlinear1.batchnorm"))?,
                linear1: load_conv1d_no_bias(&w.pp("linear1"), in_channels, bn_channels, 1, 0, 1, 1)?,
                nonlinear2: BatchNorm::load(bn_channels, true, &w.pp("nonlinear2.batchnorm"))?,
                linear_local: load_conv1d_no_bias(
                    &cam.pp("linear_local"),
                    bn_channels,
                    out_channels,
                    kernel_size,
                    padding,
                    1,
                    dilation,
                )?,
                cam_linear1: load_conv1d(&cam.pp("linear1"), bn_channels, bn_channels / 2, 1, 0, 1, 1)?,
                cam_linear2: load_conv1d(&cam.pp("linear2"), bn_channels / 2, out_channels, 1, 0, 1, 1)?,
            },
        )
    }

    /// `x` is `[batch, in, frames]`.
    fn forward(
        &self,
        x: &Tensor,
        Ghost(s): Ghost<Scope>,
        Ghost(in_channels): Ghost<usize>,
        Ghost(out_channels): Ghost<usize>,
        Ghost(bn_channels): Ghost<usize>,
        Ghost(kernel): Ghost<usize>,
        Ghost(dilation): Ghost<usize>,
    ) -> (r: Result<Tensor, Error>)
        requires
            self.loaded(s, in_channels, out_channels, bn_channels, kernel, dilation),
            is_float(*x),
            shape(*x).len() == 3,
            nonempty(shape(*x)),
            shape(*x)[1] == in_channels,
            1 <= out_channels,
            2 <= bn_channels,
            0 <= local_padding(kernel, dilation) <= usize::MAX,
            conv_fits(shape(*x)[2] as int, kernel as int, local_padding(kernel, dilation), 1, dilation as int),
        ensures
            r matches Ok(y) ==> is_float(y) && shape(y) == shape(*x).update(1, out_channels) && graph(y) == cam_layer(
                s,
                in_channels,
                out_channels,
                bn_channels,
                kernel,
                dilation,
                graph(*x),
                shape(*x)[0],
                shape(*x)[2],
            ),
            s.ready && plain(*x) && conv_len(
                shape(*x)[2] as int,
                kernel as int,
                local_padding(kernel, dilation),
                1,
                dilation as int,
            ) == shape(*x)[2] ==> (r matches Ok(y) && plain(y)),
    {
        let ghost (b, t) = (shape(*x)[0], shape(*x)[2]);
        proof {
            assert(b >= 1 && t >= 1);
            lemma_point_conv(t as int);
        }
        let z = self.nonlinear1.forward(
            x,
            Ghost(s.at("nonlinear1.batchnorm"@)),
            Ghost(in_channels),
            Ghost(true),
        )?.relu()?;
        let z = conv1d_forward(&self.linear1, &z)?;
        assert(shape(z) == seq![b, bn_channels, t]);
        let z = self.nonlinear2.forward(
            &z,
            Ghost(s.at("nonlinear2.batchnorm"@)),
            Ghost(bn_channels),
            Ghost(true),
        )?.relu()?;
        let y = conv1d_forward(&self.linear_local, &z)?;
        let context = mean_keepdim(&z, 2)?.broadcast_add(&seg_pooling(&z, 100)?)?;
        assert(shape(context) == seq![b, bn_channels, t]);
        let hidden = conv1d_forward(&self.cam_linear1, &context)?.relu()?;
        assert(shape(hidden) == seq![b, (bn_channels / 2) as usize, t]);
        let m = candle_nn::ops::sigmoid(&conv1d_forward(&self.cam_linear2, &hidden)?)?;
        assert(shape(m) == seq![b, out_channels, t]);
        y.mul(&m)
    }
}

/// A transit layer: batch normalisation and rectifier, then a 1x1 convolution.
pub open spec fn transit(s: Scope, in_channels: usize, out_channels: usize, x: Graph) -> Graph {
    point_conv(
        s.at("linear"@),
        in_channels,
        out_channels,
        norm_relu(s.at("nonlinear.batchnorm"@), in_channels, x, 3),
    )
}

/// Whether the parameters of a transit layer are there.
pub open spec fn transit_there(s: Scope, in_channels: usize, out_channels: usize) -> bool {
    &&& batch_norm_there(s.at("nonlinear.batchnorm"@), in_channels, true)
    &&& conv_there(s.at("linear"@), false, in_channels, out_channels, 1)
}

/// A transit layer, which follows a dense block.
struct TransitLayer {
    nonlinear: BatchNorm,
    linear: Conv1d,
}

impl TransitLayer {
    spec fn loaded(self, s: Scope, in_channels: usize, out_channels: usize) -> bool {
        &&& self.nonlinear.loaded(s.at("nonlinear.batchnorm"@), in_channels, true)
        &&& conv1d_layer(self.linear) == conv_of(s.at("linear"@), false, in_channels, out_channels, 1, 0, 1, 1)
        &&& conv1d_packed(self.linear)
        &&& s.ready ==> conv1d_ready(self.linear)
    }

    fn load(in_channels: usize, out_channels: usize, w: &Weights) -> (r: Result<Self, Error>)
        ensures
            r matches Ok(a) ==> a.loaded(w.scope(), in_channels, out_channels) && transit_there(
                w.scope(),
                in_channels,
                out_channels,
            ),
            w.scope().ready && transit_there(w.scope(), in_channels, out_channels) ==> r is Ok,
    {
        Ok(
            TransitLayer {
                nonlinear: BatchNorm::load(in_channels, true, &w.pp("nonlinear.batchnorm"))?,
                linear: load_conv1d_no_bias(&w.pp("linear"), in_channels, out_channels, 1, 0, 1, 1)?,
            },
        )
    }

    /// `x` is `[batch, in, frames]`.
    fn forward(
        &self,
        x: &Tensor,
        Ghost(s): Ghost<Scope>,
        Ghost(in_channels): Ghost<usize>,
        Ghost(out_channels): Ghost<usize>,
    ) -> (r: Result<Tensor, Error>)
        requires
            self.loaded(s, in_channels, out_channels),
            is_float(*x),
            shape(*x).len() == 3,
            nonempty(shape(*x)),
            shape(*x)[1] == in_channels,
            1 <= out_channels,
        ensures
            r matches Ok(y) ==> is_float(y) && shape(y) == shape(*x).update(1, out_channels) && graph(y) == transit(
                s,
                in_channels,
                out_channels,
                graph(*x),
            ),
            s.ready && plain(*x) ==> (r matches Ok(y) && plain(y)),
    {
        proof {
            assert(shape(*x)[2] >= 1);
            lemma_point_conv(shape(*x)[2] as int);
        }
        let z = self.nonlinear.forward(
            x,
            Ghost(s.at("nonlinear.batchnorm"@)),
            Ghost(in_channels),
            Ghost(true),
        )?.relu()?;
        let y = conv1d_forward(&self.linear, &z)?;
        assert(shape(y) == shape(*x).update(1, out_channels));
        Ok(y)
    }
}

/// Channels that every context-aware layer adds.
const GROWTH_RATE: usize = 32;

/// Bottleneck channels, as a multiple of the growth rate.
const BN_SIZE: usize = 4;

/// Channels after the stem.
const INIT_CHANNELS: usize = 128;

/// The number of context-aware layers of dense block `i`.
pub open spec fn block_layers(i: nat) -> usize {
    if i == 0 {
        12
    } else if i == 1 {
        24
    } else {
        16
    }
}

/// The dilation of the local convolutions of dense block `i`.
pub open spec fn block_dilation(i: nat) -> usize {
    if i == 0 { 1 } else { 2 }
}

/// The channels that dense block `i` gets: every layer of a block adds 32, and the transit layer
/// after a block halves what there is.
pub open spec fn block_entry(i: nat) -> nat
    decreases i,
{
    if i == 0 { 128 } else { (block_entry((i - 1) as nat) + 32 * block_layers((i - 1) as nat)) as nat / 2 }
}

pub(crate) proof fn lemma_block_entry()
    ensures
        block_entry(0) == 128,
        block_entry(1) == 256,
        block_entry(2) == 512,
        block_entry(3) == 512,
{
    reveal_with_fuel(block_entry, 4);
}

/// The position of layer `l` of dense block `i`, both counted from 0.
pub open spec fn layer_scope(xv: Scope, i: nat, l: nat) -> Scope {
    xv.at("block"@ + decimal(i + 1)).at("tdnnd"@ + decimal(l + 1))
}

/// The first `n` layers of dense block `i`. Every layer's output is put after its input.
pub open spec fn dense_block(xv: Scope, i: nat, n: nat, x: Graph, b: usize, t: usize) -> Graph
    decreases n,
{
    if n == 0 {
        x
    } else {
        let l = (n - 1) as nat;
        let prev = dense_block(xv, i, l, x, b, t);
        let added = cam_layer(
            layer_scope(xv, i, l),
            (block_entry(i) + 32 * l) as usize,
            32,
            128,
            3,
            block_dilation(i),
            prev,
            b,
            t,
        );
        Graph::Concat(seq![prev, added], 1)
    }
}

/// The position of the transit layer after dense block `i`.
pub open spec fn transit_scope(xv: Scope, i: nat) -> Scope {
    xv.at("transit"@ + decimal(i + 1))
}

/// Dense block `i` with its transit layer.
pub open spec fn whole_block(xv: Scope, i: nat, x: Graph, b: usize, t: usize) -> Graph {
    transit(
        transit_scope(xv, i),
        (block_entry(i) + 32 * block_layers(i)) as usize,
        block_entry(i + 1) as usize,
        dense_block(xv, i, block_layers(i) as nat, x, b, t),
    )
}

/// The first `n` dense blocks with their transit layers.
pub open spec fn dense_blocks(xv: Scope, n: nat, x: Graph, b: usize, t: usize) -> Graph
    decreases n,
{
    if n == 0 {
        x
    } else {
        whole_block(xv, (n - 1) as nat, dense_blocks(xv, (n - 1) as nat, x, b, t), b, t)
    }
}

/// The stem: a convolution of stride 2.
pub open spec fn stem(xv: Scope) -> ConvLayer {
    conv_of(xv.at("tdnn.linear"@), false, 320, 128, 5, 2, 2, 1)
}

/// The number of frames after the stem.
pub open spec fn stem_frames(t: usize) -> usize {
    ((t - 1) / 2 + 1) as usize
}

/// The mean and the standard deviation over the frames of `x`, whose shape is `[b, 512, t]`, one
/// after the other. The deviation is the unbiased one.
pub open spec fn pooled(x: Graph, b: usize, t: usize) -> Graph {
    let mean = axis_mean(x, 2, false);
    let centred = difference(x, reshaped(mean, seq![b, 512usize, 1usize]));
    let deviation = unary(UnaryOp::Sqrt, over(axis_sum(unary(UnaryOp::Sqr, centred), 2, false), t - 1));
    Graph::Concat(seq![mean, deviation], 1)
}

/// The embeddings of the filterbanks `feat`, whose shape is `[b, t, f]`.
pub open spec fn embedding(s: Scope, feat: Graph, b: usize, t: usize, f: usize) -> Graph {
    let xv = s.at("xvector"@);
    let front = front_end(s.at("head"@), transposed(feat, 1, 2), b, f, t);
    let first = norm_relu(xv.at("tdnn.nonlinear.batchnorm"@), 128, convolved(front, stem(xv)), 3);
    let frames = stem_frames(t);
    let last = norm_relu(
        xv.at("out_nonlinear.batchnorm"@),
        512,
        dense_blocks(xv, 3, first, b, frames),
        3,
    );
    let dense = reshaped(xv.at("dense"@).parameter("linear.weight"@), seq![192usize, 1024usize]);
    batch_norm(
        xv.at("dense"@).at("nonlinear.batchnorm"@),
        192,
        false,
        matrix_product(pooled(last, b, frames), transposed(dense, 0, 1)),
        2,
    )
}

/// Whether the parameters of the first `n` layers of dense block `i` are there.
pub open spec fn layers_there(xv: Scope, i: nat, n: nat) -> bool {
    forall|l: nat|
        l < n ==> cam_there(#[trigger] layer_scope(xv, i, l), (block_entry(i) + 32 * l) as usize, 32, 128, 3)
}

/// Whether the parameters of dense block `i` and of its transit layer are there.
pub open spec fn block_there(xv: Scope, i: nat) -> bool {
    &&& layers_there(xv, i, block_layers(i) as nat)
    &&& transit_there(
        transit_scope(xv, i),
        (block_entry(i) + 32 * block_layers(i)) as usize,
        block_entry(i + 1) as usize,
    )
}

/// Whether all parameters of the encoder are there.
pub open spec fn encoder_there(s: Scope) -> bool {
    let xv = s.at("xvector"@);
    &&& front_there(s.at("head"@))
    &&& conv_there(xv.at("tdnn.linear"@), false, 320, 128, 5)
    &&& batch_norm_there(xv.at("tdnn.nonlinear.batchnorm"@), 128, true)
    &&& block_there(xv, 0)
    &&& block_there(xv, 1)
    &&& block_there(xv, 2)
    &&& batch_norm_there(xv.at("out_nonlinear.batchnorm"@), 512, true)
    &&& xv.at("dense"@).holds("linear.weight"@, seq![192usize, 1024usize, 1usize])
    &&& batch_norm_there(xv.at("dense"@).at("nonlinear.batchnorm"@), 192, false)
}

/// Whether the encoder can process filterbanks of the given shape, as far as sizes go. Shapes
/// without three axes are fit: they are rejected.
pub open spec fn fits(dims: Seq<usize>) -> bool {
    dims.len() == 3 ==> 1 <= dims[0] && front_fits(dims[2], dims[1]) && dims[1] + 4 <= usize::MAX
}

/// Whether the encoder can process the filterbank of one utterance of the given shape, as far as
/// sizes go. Shapes without two axes are fit: they are rejected.
pub open spec fn fits_alone(dims: Seq<usize>) -> bool {
    dims.len() == 2 ==> fits(seq![1usize, dims[0], dims[1]])
}

/// Whether `y` holds the embeddings of the filterbanks `feat`.
pub open spec fn are_embeddings(s: Scope, feat: Tensor, y: Tensor) -> bool {
    let (b, t, f) = (shape(feat)[0], shape(feat)[1], shape(feat)[2]);
    &&& is_float(feat)
    &&& shape(feat).len() == 3
    &&& 32 * halved(halved(halved(f))) == 320
    &&& shape(y) == seq![b, 192usize]
    &&& is_float(y)
    &&& graph(y) == embedding(s, graph(feat), b, t, f)
}

/// Whether `y` holds the embedding of the filterbank `fbank` of an utterance.
pub open spec fn is_embedding(s: Scope, fbank: Tensor, y: Tensor) -> bool {
    let (t, f) = (shape(fbank)[0], shape(fbank)[1]);
    let centred = difference(graph(fbank), axis_mean(graph(fbank), 0, true));
    &&& shape(fbank).len() == 2
    &&& 32 * halved(halved(halved(f))) == 320
    &&& shape(y) == seq![1usize, 192usize]
    &&& is_float(y)
    &&& graph(y) == embedding(s, reshaped(centred, seq![1usize, t, f]), 1, t, f)
}

/// Whether the encoder can process `b` filterbanks of `t` frames and `f` bins.
fn sizes_fit(b: usize, t: usize, f: usize) -> (r: bool)
    ensures
        r == fits(seq![b, t, f]),
{
    let rows = f / 2 + f % 2;
    let rows = rows / 2 + rows % 2;
    let rows = rows / 2 + rows % 2;
    1 <= b && 1 <= f && f as u64 <= u32::MAX as u64 && f <= usize::MAX - 2 && 32 * (rows as u128)
        <= usize::MAX as u128 && 1 <= t && t <= usize::MAX - 4
}

/// CAM++: log mel filterbanks `[batch, frames, 80]`, from which the mean over time was subtracted,
/// to speaker embeddings `[batch, 192]`.
pub struct CampPlus {
    source: Ghost<Scope>,
    head: Fcm,
    tdnn_linear: Conv1d,
    tdnn_nonlinear: BatchNorm,
    blocks: Vec<Vec<CamDenseTdnnLayer>>,
    transits: Vec<TransitLayer>,
    out_nonlinear: BatchNorm,
    dense_linear: Tensor,
    dense_nonlinear: BatchNorm,
}

impl CampPlus {
    pub const EMBEDDING_SIZE: usize = 192;

    /// The parameters that the encoder was loaded from.
    pub closed spec fn parameters(self) -> Scope {
        self.source@
    }

    spec fn layers_loaded(layers: Seq<CamDenseTdnnLayer>, xv: Scope, i: nat) -> bool {
        forall|l: int|
            0 <= l < layers.len() ==> (#[trigger] layers[l]).loaded(
                layer_scope(xv, i, l as nat),
                (block_entry(i) + 32 * l) as usize,
                32,
                128,
                3,
                block_dilation(i),
            )
    }

    spec fn block_loaded(layers: Seq<CamDenseTdnnLayer>, transit: TransitLayer, xv: Scope, i: nat) -> bool {
        &&& layers.len() == block_layers(i)
        &&& Self::layers_loaded(layers, xv, i)
        &&& transit.loaded(
            transit_scope(xv, i),
            (block_entry(i) + 32 * block_layers(i)) as usize,
            block_entry(i + 1) as usize,
        )
    }

    #[verifier::type_invariant]
    spec fn wf(self) -> bool {
        let s = self.source@;
        let xv = s.at("xvector"@);
        &&& self.head.loaded(s.at("head"@))
        &&& conv1d_layer(self.tdnn_linear) == stem(xv)
        &&& self.tdnn_nonlinear.loaded(xv.at("tdnn.nonlinear.batchnorm"@), 128, true)
        &&& self.blocks@.len() == 3
        &&& self.transits@.len() == 3
        &&& forall|i: int|
            0 <= i < 3 ==> Self::block_loaded((#[trigger] self.blocks@[i])@, self.transits@[i], xv, i as nat)
        &&& self.out_nonlinear.loaded(xv.at("out_nonlinear.batchnorm"@), 512, true)
        &&& shape(self.dense_linear) == seq![192usize, 1024usize]
        &&& graph(self.dense_linear) == reshaped(
            xv.at("dense"@).parameter("linear.weight"@),
            seq![192usize, 1024usize],
        )
        &&& self.dense_nonlinear.loaded(xv.at("dense"@).at("nonlinear.batchnorm"@), 192, false)
        &&& conv1d_packed(self.tdnn_linear)
        &&& s.ready ==> conv1d_ready(self.tdnn_linear) && plain(self.dense_linear)
    }

    /// Whether everything is in main memory in single precision and the shape is right, so that no
    /// tensor operation on `feat` can fail.
    pub open spec fn runs(self, feat: Tensor) -> bool {
        &&& self.parameters().ready
        &&& plain(feat)
        &&& shape(feat).len() == 3
        &&& 1 <= shape(feat)[0]
        &&& 32 * halved(halved(halved(shape(feat)[2]))) == 320
    }

    /// Whether everything is in main memory in single precision and the shape is right, so that no
    /// tensor operation on the filterbank of one utterance can fail.
    pub open spec fn runs_alone(self, fbank: Tensor) -> bool {
        &&& self.parameters().ready
        &&& plain(fbank)
        &&& shape(fbank).len() == 2
        &&& 32 * halved(halved(halved(shape(fbank)[1]))) == 320
    }

    /// Loads the encoder from a checkpoint with the names of `campplus_cn_common`.
    pub fn load(w: &Weights) -> (r: Result<Self, VcError>)
        ensures
            r matches Ok(m) ==> m.parameters() == w.scope() && encoder_there(w.scope()),
            r matches Err(e) ==> e is Backend,
            w.scope().ready && encoder_there(w.scope()) ==> r is Ok,
    {
        lift(Self::build(w))
    }

    /// Loads the layers of dense block `i` and its transit layer.
    fn load_block(xv: &Weights, i: usize, channels: usize) -> (r: Result<
        (Vec<CamDenseTdnnLayer>, TransitLayer),
        Error,
    >)
        requires
            i < 3,
            channels == block_entry(i as nat),
        ensures
            r matches Ok(p) ==> Self::block_loaded(p.0@, p.1, xv.scope(), i as nat) && block_there(
                xv.scope(),
                i as nat,
            ),
            xv.scope().ready && block_there(xv.scope(), i as nat) ==> r is Ok,
    {
        proof {
            lemma_block_entry();
        }
        let num_layers: usize = if i == 0 {
            12
        } else if i == 1 {
            24
        } else {
            16
        };
        let dilation: usize = if i == 0 { 1 } else { 2 };
        let block = xv.pp(numbered("block", i + 1).as_str());
        let mut layers: Vec<CamDenseTdnnLayer> = Vec::new();
        let mut l: usize = 0;
        while l < num_layers
            invariant
                i < 3,
                channels == block_entry(i as nat),
                channels <= 512,
                num_layers == block_layers(i as nat),
                dilation == block_dilation(i as nat),
                l <= num_layers,
                block.scope() == xv.scope().at("block"@ + decimal((i + 1) as nat)),
                layers@.len() == l,
                Self::layers_loaded(layers@, xv.scope(), i as nat),
                layers_there(xv.scope(), i as nat, l as nat),
            decreases num_layers - l,
        {
            assert(block_there(xv.scope(), i as nat) ==> cam_there(
                layer_scope(xv.scope(), i as nat, l as nat),
                (channels + 32 * l) as usize,
                32,
                128,
                3,
            ));
            let layer = CamDenseTdnnLayer::load(
                channels + l * GROWTH_RATE,
                GROWTH_RATE,
                BN_SIZE * GROWTH_RATE,
                3,
                dilation,
                &block.pp(numbered("tdnnd", l + 1).as_str()),
            )?;
            layers.push(layer);
            l += 1;
        }
        let grown = channels + num_layers * GROWTH_RATE;
        let transit = TransitLayer::load(grown, grown / 2, &xv.pp(numbered("transit", i + 1).as_str()))?;
        Ok((layers, transit))
    }

    fn build(w: &Weights) -> (r: Result<Self, Error>)
        ensures
            r matches Ok(m) ==> m.parameters() == w.scope() && encoder_there(w.scope()),
            w.scope().ready && encoder_there(w.scope()) ==> r is Ok,
    {
        proof {
            lemma_block_entry();
        }
        let head = Fcm::load(&w.pp("head"))?;
        let xv = w.pp("xvector");
        let mut channels: usize = INIT_CHANNELS;
        let mut blocks: Vec<Vec<CamDenseTdnnLayer>> = Vec::new();
        let mut transits: Vec<TransitLayer> = Vec::new();
        let mut i: usize = 0;
        while i < 3
            invariant
                i <= 3,
                channels == block_entry(i as nat),
                blocks@.len() == i,
                transits@.len() == i,
                forall|k: int|
                    0 <= k < i ==> Self::block_loaded((#[trigger] blocks@[k])@, transits@[k], xv.scope(), k as nat),
                i > 0 ==> block_there(xv.scope(), 0),
                i > 1 ==> block_there(xv.scope(), 1),
                i > 2 ==> block_there(xv.scope(), 2),
                xv.scope() == w.scope().at("xvector"@),
            decreases 3 - i,
        {
            proof {
                lemma_block_entry();
            }
            let (layers, transit) = Self::load_block(&xv, i, channels)?;
            channels = (channels + layers.len() * GROWTH_RATE) / 2;
            blocks.push(layers);
            transits.push(transit);
            i += 1;
        }
        let dense = xv.pp("dense");
        let tdnn_linear = load_conv1d_no_bias(&xv.pp("tdnn.linear"), 320, INIT_CHANNELS, 5, 2, 2, 1)?;
        let tdnn_nonlinear = BatchNorm::load(INIT_CHANNELS, true, &xv.pp("tdnn.nonlinear.batchnorm"))?;
        let out_nonlinear = BatchNorm::load(channels, true, &xv.pp("out_nonlinear.batchnorm"))?;
        let dims = vec![Self::EMBEDDING_SIZE, 2 * channels, 1];
        assert(dims@ == seq![192usize, 1024usize, 1usize]);
        let weight = dense.get(dims, "linear.weight")?;
        proof {
            lemma_element_count(seq![192usize, 1024usize, 1usize]);
            lemma_element_count(seq![192usize, 1024usize]);
        }
        let dims = vec![Self::EMBEDDING_SIZE, 2 * channels];
        assert(dims@ == seq![192usize, 1024usize]);
        let dense_linear = reshape(&weight, dims)?;
        let dense_nonlinear = BatchNorm::load(Self::EMBEDDING_SIZE, false, &dense.pp("nonlinear.batchnorm"))?;
        Ok(
            CampPlus {
                source: Ghost(w.scope()),
                head,
                tdnn_linear,
                tdnn_nonlinear,
                blocks,
                transits,
                out_nonlinear,
                dense_linear,
                dense_nonlinear,
            },
        )
    }

    /// Embeds `feat`, which is `[batch, frames, 80]` with its mean over time subtracted.
    pub fn forward(&self, feat: &Tensor) -> (r: Result<Tensor, VcError>)
        requires
            fits(shape(*feat)),
        ensures
            r matches Ok(y) ==> are_embeddings(self.parameters(), *feat, y),
            r matches Err(e) ==> e is Backend,
            self.runs(*feat) ==> r is Ok,
    {
        lift(self.run(feat))
    }

    /// Whether [`forward`](CampPlus::forward) can process `feat`.
    pub fn accepts(&self, feat: &Tensor) -> (r: bool)
        ensures
            r == fits(shape(*feat)),
    {
        let dims = feat.dims();
        if dims.len() != 3 {
            return true;
        }
        assert(dims@ == seq![dims@[0], dims@[1], dims@[2]]);
        sizes_fit(dims[0], dims[1], dims[2])
    }

    /// [`forward`](CampPlus::forward), if it can process `feat`.
    pub fn checked_forward(&self, feat: &Tensor) -> (r: Option<Result<Tensor, VcError>>)
        ensures
            r is Some <==> fits(shape(*feat)),
            r matches Some(Ok(y)) ==> are_embeddings(self.parameters(), *feat, y),
            r matches Some(Err(e)) ==> e is Backend,
            r matches Some(q) ==> self.runs(*feat) ==> q is Ok,
    {
        if self.accepts(feat) {
            Some(self.forward(feat))
        } else {
            None
        }
    }

    /// [`embed`](CampPlus::embed), if it can process `fbank`.
    pub fn checked_embed(&self, fbank: &Tensor) -> (r: Option<Result<Tensor, VcError>>)
        ensures
            r is Some <==> is_float(*fbank) && fits_alone(shape(*fbank)),
            r matches Some(Ok(y)) ==> is_embedding(self.parameters(), *fbank, y),
            r matches Some(Err(e)) ==> e is Backend,
            r matches Some(q) ==> self.runs_alone(*fbank) ==> q is Ok,
    {
        let dims = fbank.dims();
        let fit = dims.len() != 2 || sizes_fit(1, dims[0], dims[1]);
        if holds_floats(fbank) && fit {
            Some(self.embed(fbank))
        } else {
            None
        }
    }

    /// Runs dense block `i` on `x`, which is `[batch, channels, frames]`.
    fn run_block(&self, i: usize, x: &Tensor) -> (r: Result<Tensor, Error>)
        requires
            i < 3,
            is_float(*x),
            shape(*x).len() == 3,
            shape(*x)[1] == block_entry(i as nat),
            1 <= shape(*x)[0],
            1 <= shape(*x)[2],
            shape(*x)[2] + 4 <= usize::MAX,
        ensures
            r matches Ok(y) ==> is_float(y) && shape(y) == shape(*x).update(1, block_entry((i + 1) as nat) as usize)
                && graph(y) == whole_block(
                self.parameters().at("xvector"@),
                i as nat,
                graph(*x),
                shape(*x)[0],
                shape(*x)[2],
            ),
            self.parameters().ready && plain(*x) ==> (r matches Ok(y) && plain(y)),
    {
        proof {
            use_type_invariant(self);
            lemma_block_entry();
        }
        let ghost xv = self.source@.at("xvector"@);
        let ghost (b, t) = (shape(*x)[0], shape(*x)[2]);
        let layers = &self.blocks[i];
        assert(Self::block_loaded(layers@, self.transits@[i as int], xv, i as nat));
        let mut y = x.clone();
        let mut l: usize = 0;
        while l < layers.len()
            invariant
                i < 3,
                layers@.len() == block_layers(i as nat),
                Self::layers_loaded(layers@, xv, i as nat),
                block_entry(i as nat) <= 512,
                1 <= t,
                t + 4 <= usize::MAX,
                l <= layers@.len(),
                is_float(y),
                shape(y) == seq![b, (block_entry(i as nat) + 32 * l) as usize, t],
                graph(y) == dense_block(xv, i as nat, l as nat, graph(*x), b, t),
                xv == self.parameters().at("xvector"@),
                b == shape(*x)[0],
                128 <= block_entry(i as nat),
                1 <= b,
                self.parameters().ready && plain(*x) ==> plain(y),
            decreases layers@.len() - l,
        {
            let ghost channels = (block_entry(i as nat) + 32 * l) as usize;
            let ghost dilation = block_dilation(i as nat);
            assert(layers@[l as int].loaded(layer_scope(xv, i as nat, l as nat), channels, 32, 128, 3, dilation));
            assert(local_padding(3, dilation) == dilation);
            assert(conv_fits(t as int, 3, dilation as int, 1, dilation as int));
            let added = layers[l].forward(
                &y,
                Ghost(layer_scope(xv, i as nat, l as nat)),
                Ghost(channels),
                Ghost(32),
                Ghost(128),
                Ghost(3),
                Ghost(dilation),
            )?;
            let ghost pair = seq![y, added];
            let parts = vec![y, added];
            assert(parts@ == pair);
            proof {
                lemma_total_extent_of_two(pair[0], pair[1], 1);
                assert(stackable(pair, 1)) by {
                    assert(shape(pair[1]) == shape(pair[0]).update(1, shape(pair[1])[1]));
                    assert(shape(pair[0]) == shape(pair[0]).update(1, shape(pair[0])[1]));
                }
            }
            y = cat(&parts, 1)?;
            assert(graphs(pair) == seq![graph(pair[0]), graph(pair[1])]);
            l += 1;
        }
        self.transits[i].forward(
            &y,
            Ghost(transit_scope(xv, i as nat)),
            Ghost((block_entry(i as nat) + 32 * block_layers(i as nat)) as usize),
            Ghost(block_entry((i + 1) as nat) as usize),
        )
    }

    fn run(&self, feat: &Tensor) -> (r: Result<Tensor, Error>)
        requires
            fits(shape(*feat)),
        ensures
            r matches Ok(y) ==> are_embeddings(self.parameters(), *feat, y),
            self.runs(*feat) ==> r is Ok,
    {
        proof {
            use_type_invariant(self);
            lemma_block_entry();
        }
        let ghost s = self.source@;
        let ghost xv = s.at("xvector"@);
        let x = transpose(feat, 1, 2)?.contiguous()?;
        let ghost (b, f, t) = (shape(x)[0], shape(x)[1], shape(x)[2]);
        let x = self.head.forward(&x, Ghost(s.at("head"@)))?;
        assert(shape(x) == seq![b, (32 * halved(halved(halved(f)))) as usize, t]);
        assert(conv_fits(t as int, 5, 2, 2, 1));
        let x = conv1d_forward(&self.tdnn_linear, &x)?;
        let ghost frames = stem_frames(t);
        assert(conv_len(t as int, 5, 2, 2, 1) == frames);
        assert(shape(x) == seq![b, 128usize, frames]);
        let mut x = self.tdnn_nonlinear.forward(
            &x,
            Ghost(xv.at("tdnn.nonlinear.batchnorm"@)),
            Ghost(128),
            Ghost(true),
        )?.relu()?;
        let ghost first = graph(x);
        let mut i: usize = 0;
        while i < 3
            invariant
                i <= 3,
                xv == self.parameters().at("xvector"@),
                is_float(x),
                1 <= b,
                1 <= frames,
                frames + 4 <= usize::MAX,
                shape(x) == seq![b, block_entry(i as nat) as usize, frames],
                block_entry(i as nat) <= 512,
                graph(x) == dense_blocks(xv, i as nat, first, b, frames),
                shape(*feat).len() == 3 && b == shape(*feat)[0],
                self.runs(*feat) ==> plain(x),
            decreases 3 - i,
        {
            proof {
                lemma_block_entry();
            }
            x = self.run_block(i, &x)?;
            i += 1;
        }
        let x = self.out_nonlinear.forward(
            &x,
            Ghost(xv.at("out_nonlinear.batchnorm"@)),
            Ghost(512),
            Ghost(true),
        )?.relu()?;
        let stats = pool(&x)?;
        let emb = stats.matmul(&self.dense_linear.t()?)?;
        assert(shape(emb) == seq![b, 192usize]);
        self.dense_nonlinear.forward(
            &emb,
            Ghost(xv.at("dense"@).at("nonlinear.batchnorm"@)),
            Ghost(192),
            Ghost(false),
        )
    }

    /// Embeds the filterbank of an utterance, which is `[frames, 80]`, from which it first
    /// subtracts the mean over the frames.
    pub fn embed(&self, fbank: &Tensor) -> (r: Result<Tensor, VcError>)
        requires
            is_float(*fbank),
            fits_alone(shape(*fbank)),
        ensures
            r matches Ok(y) ==> is_embedding(self.parameters(), *fbank, y),
            r matches Err(e) ==> e is Backend,
            self.runs_alone(*fbank) ==> r is Ok,
    {
        lift(fbank.dims2())?;
        let feat = lift(centre(fbank))?;
        assert(shape(*fbank).len() == 2 ==> shape(feat) == seq![1usize, shape(*fbank)[0], shape(*fbank)[1]]);
        self.forward(&feat)
    }
}

/// The mean and the unbiased standard deviation of `x`, which is `[batch, 512, frames]`.
fn pool(x: &Tensor) -> (r: Result<Tensor, Error>)
    requires
        is_float(*x),
        shape(*x).len() == 3,
        1 <= shape(*x)[0],
        shape(*x)[1] == 512,
        1 <= shape(*x)[2],
        shape(*x)[2] <= i64::MAX,
    ensures
        r matches Ok(y) ==> is_float(y) && shape(y) == seq![shape(*x)[0], 1024usize] && graph(y) == pooled(
            graph(*x),
            shape(*x)[0],
            shape(*x)[2],
        ),
        plain(*x) ==> (r matches Ok(y) && plain(y)),
{
    let ghost (b, frames) = (shape(*x)[0], shape(*x)[2]);
    let t = extent(x, 2)?;
    let mean = mean_axis(x, 2)?;
    assert(shape(mean) == seq![b, 512usize]);
    let column = unsqueeze(&mean, 2)?;
    assert(shape(column) == seq![b, 512usize, 1usize]);
    let centred = x.broadcast_sub(&column)?;
    assert(shape(centred) == seq![b, 512usize, frames]);
    let total = sum_axis(&centred.sqr()?, 2)?;
    assert(shape(total) == seq![b, 512usize]);
    let std = over_whole(&total, (t - 1) as i64)?.sqrt()?;
    let ghost pair = seq![mean, std];
    let parts = vec![mean, std];
    assert(parts@ == pair);
    proof {
        lemma_total_extent_of_two(pair[0], pair[1], 1);
        assert(stackable(pair, 1)) by {
            assert(shape(pair[1]) == shape(pair[0]).update(1, shape(pair[1])[1]));
            assert(shape(pair[0]) == shape(pair[0]).update(1, shape(pair[0])[1]));
        }
    }
    let stats = cat(&parts, 1)?;
    assert(graphs(pair) == seq![graph(pair[0]), graph(pair[1])]);
    assert(shape(stats) == seq![b, 1024usize]);
    Ok(stats)
}

/// `fbank` less its mean over the frames, as a batch of one.
fn centre(fbank: &Tensor) -> (r: Result<Tensor, Error>)
    requires
        is_float(*fbank),
        shape(*fbank).len() == 2,
        nonempty(shape(*fbank)),
    ensures
        r matches Ok(y) ==> is_float(y) == is_float(*fbank) && shape(y) == seq![1usize] + shape(*fbank) && graph(y)
            == reshaped(difference(graph(*fbank), axis_mean(graph(*fbank), 0, true)), shape(y)),
        plain(*fbank) ==> (r matches Ok(y) && plain(y)),
{
    let feat = fbank.broadcast_sub(&mean_keepdim(fbank, 0)?)?;
    assert(shape(feat) == shape(*fbank));
    let y = unsqueeze(&feat, 0)?;
    assert(shape(y) == seq![1usize] + shape(*fbank));
    Ok(y)
}

/// Two parts have the extents of both.
proof fn lemma_total_extent_of_two(x: Tensor, y: Tensor, axis: int)
    ensures
        total_extent(seq![x, y], axis) == shape(x)[axis] + shape(y)[axis],
{
    reveal_with_fuel(total_extent, 3);
    assert(seq![x, y].drop_last() == seq![x]);
    assert(seq![x].drop_last() == Seq::<Tensor>::empty());
}

/// The encoder takes filterbanks of 80 bins of every batch and of every number of frames that a
/// machine word can count, and its front-end makes of them the 320 channels that the stem takes.
pub proof fn law_80_bins(xv: Scope, b: usize, t: usize)
    requires
        1 <= b,
        1 <= t,
        t + 4 <= usize::MAX,
    ensures
        fits(seq![b, t, 80usize]),
        32 * halved(halved(halved(80usize))) == stem(xv).in_channels,
{
}

/// The even rows of a convolution of stride 1 are as many as the rows of the same convolution of
/// stride 2.
pub proof fn law_even_rows_of_stride_one(h: usize, kernel: int, padding: int, dilation: int)
    requires
        conv_fits(h as int, kernel, padding, 1, dilation),
        0 <= padding,
    ensures
        conv_len(h as int, kernel, padding, 2, dilation) == halved(
            conv_len(h as int, kernel, padding, 1, dilation) as usize,
        ),
        evens(conv_len(h as int, kernel, padding, 1, dilation) as nat).len() == conv_len(
            h as int,
            kernel,
            padding,
            2,
            dilation,
        ),
{
}

/// Every frame stands in exactly one segment.
pub proof fn law_segments_partition_the_frames(t: nat, seg_len: nat, i: int, frame: int)
    requires
        seg_len > 0,
        0 <= frame < t,
    ensures
        (0 <= i < segments(t, seg_len) && i * seg_len <= frame < i * seg_len + segment_len(t, seg_len, i)) <==> i
            == frame / seg_len as int,
{
    let q = frame / seg_len as int;
    lemma_fundamental_div_mod(frame, seg_len as int);
    lemma_fundamental_div_mod(t + seg_len - 1, seg_len as int);
    let n = segments(t, seg_len) as int;
    assert(seg_len * q == q * seg_len && seg_len * n == n * seg_len) by (nonlinear_arith);
    assert(0 <= q) by (nonlinear_arith)
        requires
            q * seg_len + seg_len > frame,
            frame >= 0,
            seg_len > 0,
    ;
    assert(q < n) by (nonlinear_arith)
        requires
            q * seg_len <= frame,
            frame < t,
            t <= n * seg_len,
            seg_len > 0,
    ;
    if i * seg_len <= frame < i * seg_len + segment_len(t, seg_len, i) {
        lemma_fundamental_div_mod_converse(frame, seg_len as int, i, frame - i * seg_len);
    }
}

/// A segment at least as long as the signal holds all frames; segments of one frame hold one each.
pub proof fn law_longest_and_shortest_segments(t: nat, seg_len: nat, i: int)
    requires
        seg_len > 0,
        0 <= i < segments(t, seg_len),
    ensures
        seg_len >= t ==> i == 0 && segments(t, seg_len) == 1 && segment_len(t, seg_len, i) == t,
        seg_len == 1 ==> segments(t, seg_len) == t && segment_len(t, seg_len, i) == 1,
{
    if seg_len >= t {
        if t == 0 {
            lemma_fundamental_div_mod_converse(seg_len - 1, seg_len as int, 0, seg_len - 1);
        } else {
            lemma_fundamental_div_mod_converse(t + seg_len - 1, seg_len as int, 1, t - 1);
        }
    }
    if seg_len == 1 {
        lemma_fundamental_div_mod_converse(t as int, 1, t as int, 0);
        assert(i * seg_len == i);
    }
}

/// The embedding of an utterance is that of its filterbank less the mean over the frames, taken as a
/// batch of one.
pub proof fn law_embedding_is_of_the_centred_filterbank(s: Scope, fbank: Tensor, feat: Tensor, y: Tensor)
    requires
        shape(fbank).len() == 2,
        is_float(feat),
        shape(feat) == seq![1usize, shape(fbank)[0], shape(fbank)[1]],
        graph(feat) == reshaped(difference(graph(fbank), axis_mean(graph(fbank), 0, true)), shape(feat)),
    ensures
        is_embedding(s, fbank, y) <==> are_embeddings(s, feat, y),
{
}

/// The local convolutions of every dense block keep the number of frames.
pub proof fn law_local_convolutions_keep_frames(i: nat, t: usize)
    requires
        1 <= t,
        t + 4 <= usize::MAX,
    ensures
        conv_fits(t as int, 3, local_padding(3, block_dilation(i)), 1, block_dilation(i) as int),
        conv_len(t as int, 3, local_padding(3, block_dilation(i)), 1, block_dilation(i) as int) == t,
{
}

} // verus!
