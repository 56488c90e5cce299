//! Model weights, and the layers that are loaded from them.

use crate::error::VcError;
use crate::graph::{convolved, convolved2d, deconvolved, single, ConvLayer, Graph, LinearLayer, NormLayer};
use crate::tensor::{
    alike, conv_fits, conv_len, conv_transpose_fits, conv_transpose_len, graph, is_float, is_here, is_single, is_sound,
    nonempty,
    on_cpu, packed, plain, row_major, shape, sound, MAX_AXES,
};
use candle_core::{Device, Error, Tensor};
use candle_nn::{Conv1d, Conv2d, ConvTranspose1d, LayerNorm, Linear};
use vstd::prelude::*;

verus! {

/// A device of candle: where tensors live.
#[verifier::external_type_specification]
#[verifier::external_body]
pub struct ExDevice(candle_core::Device);

/// Named model parameters, seen from a position in their hierarchy of names: a
/// `candle_nn::VarBuilder` over packed tensors that begin within their storage, which hands parameters
/// out in single precision.
#[verifier::external_body]
pub struct Weights {
    builder: candle_nn::VarBuilder<'static>,
}

/// The parameters by their full names.
pub uninterp spec fn parameters(w: Weights) -> Map<Seq<char>, Graph>;

/// The shapes of the parameters by their full names.
pub uninterp spec fn extents(w: Weights) -> Map<Seq<char>, Seq<usize>>;

/// What stands before a parameter's name at this position: nothing at the root, else the names
/// of the enclosing levels, each followed by a dot.
pub uninterp spec fn prefix(w: Weights) -> Seq<char>;

/// Whether parameters are handed out in main memory, which does not fail: the device is the
/// processor, and all tensors are there already.
pub uninterp spec fn ready(w: Weights) -> bool;

/// Whether a device is the processor: what `Device::is_cpu` returns.
pub uninterp spec fn is_cpu(d: Device) -> bool;

/// Parameters and a position in their hierarchy of names.
pub struct Scope {
    pub parameters: Map<Seq<char>, Graph>,
    pub extents: Map<Seq<char>, Seq<usize>>,
    /// Whether parameters are handed out in main memory, which does not fail.
    pub ready: bool,
    pub prefix: Seq<char>,
}

impl Scope {
    /// The position one level further down.
    pub open spec fn at(self, level: Seq<char>) -> Scope {
        Scope { prefix: self.prefix + level + seq!['.'], ..self }
    }

    /// The parameter that `name` denotes at this position.
    pub open spec fn parameter(self, name: Seq<char>) -> Graph {
        self.parameters[self.prefix + name]
    }

    /// Whether there is a parameter that `name` denotes at this position.
    pub open spec fn has(self, name: Seq<char>) -> bool {
        self.parameters.contains_key(self.prefix + name)
    }

    /// Whether `name` denotes a parameter of shape `dims` at this position.
    pub open spec fn holds(self, name: Seq<char>, dims: Seq<usize>) -> bool {
        self.has(name) && self.extents[self.prefix + name] == dims
    }
}

/// The parameters that a list of named tensors gives; of two with one name the later counts.
pub open spec fn named(tensors: Seq<(String, Tensor)>) -> Map<Seq<char>, Graph>
    decreases tensors.len(),
{
    if tensors.len() == 0 {
        Map::empty()
    } else {
        named(tensors.drop_last()).insert(tensors.last().0@, single(graph(tensors.last().1)))
    }
}

/// The shapes of a list of named tensors; of two with one name the later counts.
pub open spec fn named_extents(tensors: Seq<(String, Tensor)>) -> Map<Seq<char>, Seq<usize>>
    decreases tensors.len(),
{
    if tensors.len() == 0 {
        Map::empty()
    } else {
        named_extents(tensors.drop_last()).insert(tensors.last().0@, shape(tensors.last().1))
    }
}

/// Whether all tensors begin within their storage.
pub open spec fn are_sound(tensors: Seq<(String, Tensor)>) -> bool {
    forall|i: int| 0 <= i < tensors.len() ==> sound((#[trigger] tensors[i]).1)
}

/// Whether all tensors live in main memory.
pub open spec fn are_here(tensors: Seq<(String, Tensor)>) -> bool {
    forall|i: int| 0 <= i < tensors.len() ==> on_cpu((#[trigger] tensors[i]).1)
}

/// Whether tensors can be handed out on `device` in main memory, whatever their element types: they
/// live there already.
pub open spec fn are_ready(tensors: Seq<(String, Tensor)>, device: Device) -> bool {
    is_cpu(device) && are_here(tensors)
}

/// The root position over the given tensors, on `device`.
pub open spec fn root(tensors: Seq<(String, Tensor)>, device: Device) -> Scope {
    Scope {
        parameters: named(tensors),
        extents: named_extents(tensors),
        ready: are_ready(tensors, device),
        prefix: Seq::empty(),
    }
}

/// `Device::is_cpu`: whether the device is the processor.
pub assume_specification[ Device::is_cpu ](d: &Device) -> (r: bool)
    ensures
        r == is_cpu(*d),
;

/// Tensors that differ in their layout alone give the same parameters.
proof fn lemma_same_named(a: Seq<(String, Tensor)>, b: Seq<(String, Tensor)>)
    requires
        a.len() == b.len(),
        forall|i: int|
            0 <= i < a.len() ==> (#[trigger] a[i]).0@ == b[i].0@ && graph(a[i].1) == graph(b[i].1) && shape(a[i].1)
                == shape(b[i].1),
    ensures
        named(a) == named(b),
        named_extents(a) == named_extents(b),
    decreases a.len(),
{
    if a.len() > 0 {
        assert forall|i: int| 0 <= i < a.drop_last().len() implies (#[trigger] a.drop_last()[i]).0@
            == b.drop_last()[i].0@ && graph(a.drop_last()[i].1) == graph(b.drop_last()[i].1) && shape(
            a.drop_last()[i].1,
        ) == shape(b.drop_last()[i].1) by {
            assert(a.drop_last()[i] == a[i] && b.drop_last()[i] == b[i]);
        }
        lemma_same_named(a.drop_last(), b.drop_last());
        assert(a.last() == a[a.len() - 1]);
    }
}

impl Weights {
    /// Whether the given tensors can be handed out on `device` in main memory.
    pub fn can_hand_out(tensors: &Vec<(String, Tensor)>, device: &Device) -> (r: bool)
        ensures
            r == are_ready(tensors@, *device),
    {
        if !device.is_cpu() {
            return false;
        }
        let mut i: usize = 0;
        while i < tensors.len()
            invariant
                i <= tensors@.len(),
                forall|k: int| 0 <= k < i ==> on_cpu((#[trigger] tensors@[k]).1),
            decreases tensors@.len() - i,
        {
            if !is_here(&tensors[i].1) {
                assert(!on_cpu(tensors@[i as int].1));
                return false;
            }
            i += 1;
        }
        true
    }

    /// Whether all the given tensors begin within their storage.
    pub fn can_hold(tensors: &Vec<(String, Tensor)>) -> (r: bool)
        ensures
            r == are_sound(tensors@),
    {
        let mut i: usize = 0;
        while i < tensors.len()
            invariant
                i <= tensors@.len(),
                forall|k: int| 0 <= k < i ==> sound((#[trigger] tensors@[k]).1),
            decreases tensors@.len() - i,
        {
            if !is_sound(&tensors[i].1) {
                assert(!sound(tensors@[i as int].1));
                return false;
            }
            i += 1;
        }
        true
    }

    /// The root position over the given tensors, which hands out parameters on `device`. Tensors that
    /// are not packed are packed first, which can fail where they do not live in main memory.
    pub fn from_tensors(tensors: Vec<(String, Tensor)>, device: &Device) -> (r: Result<Weights, VcError>)
        requires
            are_sound(tensors@),
        ensures
            r matches Ok(w) ==> w.scope() == root(tensors@, *device),
            r matches Err(e) ==> e is Backend && exists|i: int|
                0 <= i < tensors@.len() && !on_cpu((#[trigger] tensors@[i]).1) && !packed(tensors@[i].1),
    {
        let mut rows: Vec<(String, Tensor)> = Vec::new();
        let mut i: usize = 0;
        while i < tensors.len()
            invariant
                are_sound(tensors@),
                i <= tensors@.len(),
                rows@.len() == i,
                forall|k: int|
                    0 <= k < i ==> (#[trigger] rows@[k]).0@ == tensors@[k].0@ && graph(rows@[k].1) == graph(
                        tensors@[k].1,
                    ) && shape(rows@[k].1) == shape(tensors@[k].1) && on_cpu(rows@[k].1) == on_cpu(tensors@[k].1)
                        && packed(rows@[k].1) && sound(rows@[k].1),
            decreases tensors@.len() - i,
        {
            match tensors[i].1.contiguous() {
                Ok(t) => {
                    rows.push((tensors[i].0.clone(), t));
                },
                Err(e) => {
                    assert(!on_cpu(tensors@[i as int].1) && !packed(tensors@[i as int].1));
                    return Err(VcError::Backend(e));
                },
            }
            i += 1;
        }
        proof {
            lemma_same_named(rows@, tensors@);
            assert(are_here(rows@) == are_here(tensors@)) by {
                if are_here(rows@) {
                    assert forall|k: int| 0 <= k < tensors@.len() implies on_cpu((#[trigger] tensors@[k]).1) by {
                        assert(on_cpu(rows@[k].1));
                    }
                }
            }
        }
        Ok(Weights::build(rows, device))
    }

    /// `VarBuilder::from_tensors`, for single precision, over packed tensors as a map. On the
    /// processor, tensors in main memory are handed out without failing: as they are, or converted.
    #[verifier::external_body]
    fn build(tensors: Vec<(String, Tensor)>, device: &Device) -> (w: Weights)
        requires
            forall|i: int| 0 <= i < tensors@.len() ==> packed((#[trigger] tensors@[i]).1) && sound(tensors@[i].1),
        ensures
            parameters(w) == named(tensors@),
            extents(w) == named_extents(tensors@),
            prefix(w) == Seq::<char>::empty(),
            ready(w) == are_ready(tensors@, *device),
    {
        let tensors = tensors.into_iter().collect();
        Weights { builder: candle_nn::VarBuilder::from_tensors(tensors, candle_core::DType::F32, device) }
    }

    /// `VarBuilder::pp`: the position one level further down.
    #[verifier::external_body]
    pub(crate) fn pp(&self, level: &str) -> (w: Weights)
        ensures
            w.scope() == self.scope().at(level@),
    {
        Weights { builder: self.builder.pp(level) }
    }

    /// The parameters with the position.
    pub open spec fn scope(self) -> Scope {
        Scope { parameters: parameters(self), extents: extents(self), ready: ready(self), prefix: prefix(self) }
    }

    /// `VarBuilder::get`: the parameter of that name, if it has the shape `dims`, packed and in single
    /// precision. A parameter that is not there, or has another shape, is an error; with ready weights
    /// nothing else is.
    #[verifier::external_body]
    pub(crate) fn get(&self, dims: Vec<usize>, name: &str) -> (r: Result<Tensor, Error>)
        ensures
            r matches Ok(t) ==> self.scope().holds(name@, dims@) && shape(t) == dims@ && is_float(t) && graph(t)
                == self.scope().parameter(name@) && is_single(t) && packed(t) && sound(t) && (self.scope().ready
                ==> plain(t)),
            self.scope().ready && self.scope().holds(name@, dims@) ==> r is Ok,
    {
        self.builder.get(dims, name)
    }
}

/// A one-dimensional convolution of candle.
#[verifier::external_type_specification]
#[verifier::external_body]
pub struct ExConv1d(candle_nn::Conv1d);

/// A one-dimensional transposed convolution of candle.
#[verifier::external_type_specification]
#[verifier::external_body]
pub struct ExConvTranspose1d(candle_nn::ConvTranspose1d);

/// A two-dimensional convolution of candle.
#[verifier::external_type_specification]
#[verifier::external_body]
pub struct ExConv2d(candle_nn::Conv2d);

/// A linear layer of candle.
#[verifier::external_type_specification]
#[verifier::external_body]
pub struct ExLinear(candle_nn::Linear);

/// A layer normalisation of candle.
#[verifier::external_type_specification]
#[verifier::external_body]
pub struct ExLayerNorm(candle_nn::LayerNorm);

/// What a convolution holds, which one of the loaders below made: its kernel, its bias and its
/// geometry.
pub uninterp spec fn conv1d_layer(c: Conv1d) -> ConvLayer;

/// What a transposed convolution holds.
pub uninterp spec fn conv_transpose1d_layer(c: ConvTranspose1d) -> ConvLayer;

/// What a two-dimensional convolution with a square kernel holds.
pub uninterp spec fn conv2d_layer(c: Conv2d) -> ConvLayer;

/// What a linear layer holds.
pub uninterp spec fn linear_layer(l: Linear) -> LinearLayer;

/// What a layer normalisation holds.
pub uninterp spec fn norm_layer(n: LayerNorm) -> NormLayer;

/// Whether a convolution holds sound, packed single-precision tensors.
pub uninterp spec fn conv1d_packed(c: Conv1d) -> bool;

/// Whether a convolution holds sound, packed single-precision tensors in main memory.
pub uninterp spec fn conv1d_ready(c: Conv1d) -> bool;

/// Whether a transposed convolution holds sound, packed single-precision tensors.
pub uninterp spec fn conv_transpose1d_packed(c: ConvTranspose1d) -> bool;

/// Whether a transposed convolution holds sound, packed single-precision tensors in main memory.
pub uninterp spec fn conv_transpose1d_ready(c: ConvTranspose1d) -> bool;

/// Whether a two-dimensional convolution holds sound, packed single-precision tensors.
pub uninterp spec fn conv2d_packed(c: Conv2d) -> bool;

/// Whether a two-dimensional convolution holds sound, packed single-precision tensors in main memory.
pub uninterp spec fn conv2d_ready(c: Conv2d) -> bool;

/// Whether a linear layer holds sound, packed single-precision tensors.
pub uninterp spec fn linear_packed(l: Linear) -> bool;

/// Whether a linear layer holds sound, packed single-precision tensors in main memory.
pub uninterp spec fn linear_ready(l: Linear) -> bool;

/// Whether a layer normalisation holds sound, packed single-precision tensors in main memory.
pub uninterp spec fn norm_ready(n: LayerNorm) -> bool;

/// A convolution whose kernel is the parameter `weight` and whose bias, where it has one, is the
/// parameter `bias`.
pub open spec fn conv_of(
    s: Scope,
    bias: bool,
    in_channels: usize,
    out_channels: usize,
    kernel: usize,
    padding: usize,
    stride: usize,
    dilation: usize,
) -> ConvLayer {
    ConvLayer {
        weight: Box::new(s.parameter("weight"@)),
        bias: if bias { Some(Box::new(s.parameter("bias"@))) } else { None },
        in_channels,
        out_channels,
        kernel,
        padding,
        stride,
        dilation,
    }
}

/// Whether the parameters of a convolution are there: a kernel `[out, in, k]` and, where it has one,
/// a bias `[out]`.
pub open spec fn conv_there(s: Scope, bias: bool, in_channels: usize, out_channels: usize, kernel: usize) -> bool {
    &&& s.holds("weight"@, seq![out_channels, in_channels, kernel])
    &&& bias ==> s.holds("bias"@, seq![out_channels])
}

/// `candle_nn::conv1d` in one group: loads a convolution with a bias. With ready weights it fails
/// only where a parameter is not there.
#[verifier::external_body]
pub(crate) fn load_conv1d(
    w: &Weights,
    in_channels: usize,
    out_channels: usize,
    kernel: usize,
    padding: usize,
    stride: usize,
    dilation: usize,
) -> (r: Result<Conv1d, Error>)
    ensures
        r matches Ok(c) ==> conv_there(w.scope(), true, in_channels, out_channels, kernel) && conv1d_layer(c)
            == conv_of(
            w.scope(),
            true,
            in_channels,
            out_channels,
            kernel,
            padding,
            stride,
            dilation,
        ) && conv1d_packed(c) && (w.scope().ready ==> conv1d_ready(c)),
        w.scope().ready && conv_there(w.scope(), true, in_channels, out_channels, kernel) ==> r is Ok,
{
    let config = candle_nn::Conv1dConfig { padding, stride, dilation, ..Default::default() };
    candle_nn::conv1d(in_channels, out_channels, kernel, config, w.builder.clone())
}

/// `candle_nn::conv1d_no_bias` in one group: loads a convolution without a bias. With ready weights
/// it fails only where the kernel is not there.
#[verifier::external_body]
pub(crate) fn load_conv1d_no_bias(
    w: &Weights,
    in_channels: usize,
    out_channels: usize,
    kernel: usize,
    padding: usize,
    stride: usize,
    dilation: usize,
) -> (r: Result<Conv1d, Error>)
    ensures
        r matches Ok(c) ==> conv_there(w.scope(), false, in_channels, out_channels, kernel) && conv1d_layer(c)
            == conv_of(
            w.scope(),
            false,
            in_channels,
            out_channels,
            kernel,
            padding,
            stride,
            dilation,
        ) && conv1d_packed(c) && (w.scope().ready ==> conv1d_ready(c)),
        w.scope().ready && conv_there(w.scope(), false, in_channels, out_channels, kernel) ==> r is Ok,
{
    let config = candle_nn::Conv1dConfig { padding, stride, dilation, ..Default::default() };
    candle_nn::conv1d_no_bias(in_channels, out_channels, kernel, config, w.builder.clone())
}

/// Whether the parameters of a transposed convolution are there: a kernel `[in, out, k]` and a bias
/// `[out]`.
pub open spec fn conv_transpose_there(s: Scope, in_channels: usize, out_channels: usize, kernel: usize) -> bool {
    &&& s.holds("weight"@, seq![in_channels, out_channels, kernel])
    &&& s.holds("bias"@, seq![out_channels])
}

/// `candle_nn::conv_transpose1d` in one group, with no output padding and dilation 1: loads a
/// transposed convolution with a bias. With ready weights it fails only where a parameter is not
/// there.
#[verifier::external_body]
pub(crate) fn load_conv_transpose1d(
    w: &Weights,
    in_channels: usize,
    out_channels: usize,
    kernel: usize,
    padding: usize,
    stride: usize,
) -> (r: Result<ConvTranspose1d, Error>)
    ensures
        r matches Ok(c) ==> conv_transpose_there(w.scope(), in_channels, out_channels, kernel)
            && conv_transpose1d_layer(c) == conv_of(
            w.scope(),
            true,
            in_channels,
            out_channels,
            kernel,
            padding,
            stride,
            1,
        ) && conv_transpose1d_packed(c) && (w.scope().ready ==> conv_transpose1d_ready(c)),
        w.scope().ready && conv_transpose_there(w.scope(), in_channels, out_channels, kernel) ==> r is Ok,
{
    let config = candle_nn::ConvTranspose1dConfig { padding, stride, ..Default::default() };
    candle_nn::conv_transpose1d(in_channels, out_channels, kernel, config, w.builder.clone())
}

/// Whether the kernel `[out, in, k, k]` of a two-dimensional convolution without a bias is there.
pub open spec fn conv2d_there(s: Scope, in_channels: usize, out_channels: usize, kernel: usize) -> bool {
    s.holds("weight"@, seq![out_channels, in_channels, kernel, kernel])
}

/// `candle_nn::conv2d_no_bias` in one group, with stride 1 and dilation 1: loads a convolution with
/// a square kernel and without a bias. With ready weights it fails only where the kernel is not
/// there.
#[verifier::external_body]
pub(crate) fn load_conv2d_no_bias(
    w: &Weights,
    in_channels: usize,
    out_channels: usize,
    kernel: usize,
    padding: usize,
) -> (r: Result<Conv2d, Error>)
    ensures
        r matches Ok(c) ==> conv2d_there(w.scope(), in_channels, out_channels, kernel) && conv2d_layer(c) == conv_of(
            w.scope(),
            false,
            in_channels,
            out_channels,
            kernel,
            padding,
            1,
            1,
        ) && conv2d_packed(c) && (w.scope().ready ==> conv2d_ready(c)),
        w.scope().ready && conv2d_there(w.scope(), in_channels, out_channels, kernel) ==> r is Ok,
{
    let config = candle_nn::Conv2dConfig { padding, ..Default::default() };
    candle_nn::conv2d_no_bias(in_channels, out_channels, kernel, config, w.builder.clone())
}

/// A linear layer of the parameters `weight` and `bias`.
pub open spec fn linear_of(s: Scope, in_dim: usize, out_dim: usize) -> LinearLayer {
    LinearLayer {
        weight: Box::new(s.parameter("weight"@)),
        bias: Box::new(s.parameter("bias"@)),
        in_dim,
        out_dim,
    }
}

/// Whether the parameters of a linear layer are there: a matrix `[out, in]` and a bias `[out]`.
pub open spec fn linear_there(s: Scope, in_dim: usize, out_dim: usize) -> bool {
    &&& s.holds("weight"@, seq![out_dim, in_dim])
    &&& s.holds("bias"@, seq![out_dim])
}

/// `candle_nn::linear`: loads a linear layer with a bias. With ready weights it fails only where a
/// parameter is not there.
#[verifier::external_body]
pub(crate) fn load_linear(w: &Weights, in_dim: usize, out_dim: usize) -> (r: Result<Linear, Error>)
    ensures
        r matches Ok(l) ==> linear_there(w.scope(), in_dim, out_dim) && linear_layer(l) == linear_of(
            w.scope(),
            in_dim,
            out_dim,
        ) && linear_packed(l) && (w.scope().ready ==> linear_ready(l)),
        w.scope().ready && linear_there(w.scope(), in_dim, out_dim) ==> r is Ok,
{
    candle_nn::linear(in_dim, out_dim, w.builder.clone())
}

/// The first of two names that denotes a parameter, else the first.
pub open spec fn either_name(s: Scope, first: Seq<char>, second: Seq<char>) -> Seq<char> {
    if !s.has(first) && s.has(second) { second } else { first }
}

/// A layer normalisation whose scale is the parameter `weight`, else `gamma`, and whose shift is
/// the parameter `bias`, else `beta`.
pub open spec fn norm_of(s: Scope, size: usize) -> NormLayer {
    NormLayer {
        weight: Box::new(s.parameter(either_name(s, "weight"@, "gamma"@))),
        bias: Box::new(s.parameter(either_name(s, "bias"@, "beta"@))),
        size,
    }
}

/// Whether the parameters of a layer normalisation are there: a scale and a shift `[size]`.
pub open spec fn norm_there(s: Scope, size: usize) -> bool {
    &&& s.holds(either_name(s, "weight"@, "gamma"@), seq![size])
    &&& s.holds(either_name(s, "bias"@, "beta"@), seq![size])
}

/// `candle_nn::layer_norm` with `LayerNormConfig::default()`: loads a layer normalisation. With
/// ready weights it fails only where a parameter is not there.
#[verifier::external_body]
pub(crate) fn load_layer_norm(w: &Weights, size: usize) -> (r: Result<LayerNorm, Error>)
    ensures
        r matches Ok(n) ==> norm_there(w.scope(), size) && norm_layer(n) == norm_of(w.scope(), size) && (
        w.scope().ready ==> norm_ready(n)),
        w.scope().ready && norm_there(w.scope(), size) ==> r is Ok,
{
    candle_nn::layer_norm(size, candle_nn::LayerNormConfig::default(), w.builder.clone())
}

/// Whether a convolution takes an input of the given shape, `[batch, in, ..]` with `rank` axes: there
/// is something to convolve, and the channels agree.
pub open spec fn layer_takes(x: Seq<usize>, rank: nat, c: ConvLayer) -> bool {
    &&& x.len() == rank
    &&& nonempty(x)
    &&& x[1] == c.in_channels
    &&& 1 <= c.out_channels
}

/// The shape that a convolution gives an input `[batch, in, length]`.
pub open spec fn conv1d_shape(x: Seq<usize>, c: ConvLayer) -> Seq<usize> {
    seq![
        x[0],
        c.out_channels,
        conv_len(x[2] as int, c.kernel as int, c.padding as int, c.stride as int, c.dilation as int) as usize,
    ]
}

/// `Conv1d::forward` on `[batch, in, length]`. A kernel longer than the padded input makes it panic,
/// and so does an input that begins beyond its storage; a kernel that is not packed may be read beyond
/// its end on the processor. An input that is not in single precision, as the kernel is, is an error. A
/// ready layer does not fail on a plain input that it takes.
#[verifier::external_body]
pub(crate) fn conv1d_forward(c: &Conv1d, x: &Tensor) -> (r: Result<Tensor, Error>)
    requires
        conv1d_packed(*c),
        shape(*x).len() == 3 ==> sound(*x),
        shape(*x).len() == 3 ==> conv_fits(
            shape(*x)[2] as int,
            conv1d_layer(*c).kernel as int,
            conv1d_layer(*c).padding as int,
            conv1d_layer(*c).stride as int,
            conv1d_layer(*c).dilation as int,
        ),
    ensures
        r matches Ok(y) ==> shape(*x).len() == 3 && shape(*x)[1] == conv1d_layer(*c).in_channels && shape(y)
            == conv1d_shape(shape(*x), conv1d_layer(*c)) && alike(y, *x) && sound(y) && graph(y) == convolved(
            graph(*x),
            conv1d_layer(*c),
        ) && is_float(*x) && is_single(*x),
        conv1d_ready(*c) && plain(*x) && layer_takes(shape(*x), 3, conv1d_layer(*c)) ==> r is Ok,
{
    candle_nn::Module::forward(c, x)
}

/// The shape that a transposed convolution gives an input `[batch, in, length]`.
pub open spec fn conv_transpose1d_shape(x: Seq<usize>, c: ConvLayer) -> Seq<usize> {
    seq![
        x[0],
        c.out_channels,
        conv_transpose_len(
            x[2] as int,
            c.kernel as int,
            c.padding as int,
            c.stride as int,
            c.dilation as int,
        ) as usize,
    ]
}

/// `ConvTranspose1d::forward` on `[batch, in, length]`. An output without a countable length makes it
/// panic, and so does an input that begins beyond its storage; an input in another than row-major order
/// may be read beyond its end on the processor. An input that is not in single precision, as the kernel
/// is, is an error. A ready layer does not fail on a plain input that it takes. On the processor,
/// without padding and with more than one input channel, samples after the first batch are read at the
/// wrong place; the graph does not tell.
#[verifier::external_body]
pub(crate) fn conv_transpose1d_forward(c: &ConvTranspose1d, x: &Tensor) -> (r: Result<Tensor, Error>)
    requires
        conv_transpose1d_packed(*c),
        shape(*x).len() == 3 ==> sound(*x),
        row_major(*x),
        shape(*x).len() == 3 ==> conv_transpose_fits(
            shape(*x)[2] as int,
            conv_transpose1d_layer(*c).kernel as int,
            conv_transpose1d_layer(*c).padding as int,
            conv_transpose1d_layer(*c).stride as int,
            conv_transpose1d_layer(*c).dilation as int,
        ),
    ensures
        r matches Ok(y) ==> shape(*x).len() == 3 && shape(*x)[1] == conv_transpose1d_layer(*c).in_channels && shape(y)
            == conv_transpose1d_shape(shape(*x), conv_transpose1d_layer(*c)) && alike(y, *x) && sound(y) && graph(y)
            == deconvolved(graph(*x), conv_transpose1d_layer(*c)) && is_float(*x) && is_single(*x),
        conv_transpose1d_ready(*c) && plain(*x) && layer_takes(shape(*x), 3, conv_transpose1d_layer(*c)) ==> r is Ok,
{
    candle_nn::Module::forward(c, x)
}

/// The shape that a two-dimensional convolution gives an input `[batch, in, height, width]`.
pub open spec fn conv2d_shape(x: Seq<usize>, c: ConvLayer) -> Seq<usize> {
    seq![
        x[0],
        c.out_channels,
        conv_len(x[2] as int, c.kernel as int, c.padding as int, c.stride as int, c.dilation as int) as usize,
        conv_len(x[3] as int, c.kernel as int, c.padding as int, c.stride as int, c.dilation as int) as usize,
    ]
}

/// Whether a two-dimensional convolution's kernel fits in its padded input
/// `[batch, in, height, width]`.
pub open spec fn conv2d_fits(x: Seq<usize>, c: ConvLayer) -> bool {
    &&& conv_fits(x[2] as int, c.kernel as int, c.padding as int, c.stride as int, c.dilation as int)
    &&& conv_fits(x[3] as int, c.kernel as int, c.padding as int, c.stride as int, c.dilation as int)
}

/// `Conv2d::forward` on `[batch, in, height, width]`. A kernel larger than the padded input makes it
/// panic, and so does an input that begins beyond its storage. An input that is not in single
/// precision, as the kernel is, is an error. Without a bias the result is packed. A ready layer does not
/// fail on a plain input that it takes.
#[verifier::external_body]
pub(crate) fn conv2d_forward(c: &Conv2d, x: &Tensor) -> (r: Result<Tensor, Error>)
    requires
        conv2d_packed(*c),
        shape(*x).len() == 4 ==> sound(*x),
        shape(*x).len() == 4 ==> conv2d_fits(shape(*x), conv2d_layer(*c)),
    ensures
        r matches Ok(y) ==> shape(*x).len() == 4 && shape(*x)[1] == conv2d_layer(*c).in_channels && shape(y)
            == conv2d_shape(shape(*x), conv2d_layer(*c)) && alike(y, *x) && sound(y) && graph(y) == convolved2d(
            graph(*x),
            conv2d_layer(*c),
        ) && (conv2d_layer(*c).bias is None ==> packed(y)) && is_float(*x) && is_single(*x),
        conv2d_ready(*c) && plain(*x) && layer_takes(shape(*x), 4, conv2d_layer(*c)) ==> r is Ok,
{
    candle_nn::Module::forward(c, x)
}

/// Whether the rows of an input of a linear layer, its vectors along the last axis, can be counted.
pub open spec fn linear_fits(x: Seq<usize>) -> bool {
    &&& x.len() == 3 ==> x[0] * x[1] <= usize::MAX
    &&& x.len() == 4 ==> x[0] * x[1] <= usize::MAX && x[0] * x[1] * x[2] <= usize::MAX
}

/// Whether the rows of an input of a linear layer can be counted.
pub(crate) fn rows_fit(dims: &[usize]) -> (r: bool)
    ensures
        r == linear_fits(dims@),
{
    if dims.len() == 3 {
        dims[0].checked_mul(dims[1]).is_some()
    } else if dims.len() == 4 {
        match dims[0].checked_mul(dims[1]) {
            Some(n) => n.checked_mul(dims[2]).is_some(),
            None => false,
        }
    } else {
        true
    }
}

/// `Linear::forward`: the last axis mapped. Rows that cannot be counted make it panic; an input that
/// is not packed may be read beyond its end on the processor. An input that is not in single
/// precision, as the matrix is, is an error. A ready layer does not fail on plain matrices, or batches
/// of them, that hold elements and have rows of the right length.
#[verifier::external_body]
pub(crate) fn linear_forward(l: &Linear, x: &Tensor) -> (r: Result<Tensor, Error>)
    requires
        linear_packed(*l),
        packed(*x),
        linear_fits(shape(*x)),
    ensures
        r matches Ok(y) ==> shape(*x).len() >= 2 && shape(*x).last() == linear_layer(*l).in_dim && shape(y)
            == shape(*x).update(shape(*x).len() - 1, linear_layer(*l).out_dim) && alike(y, *x) && sound(y) && graph(y)
            == Graph::Linear(Box::new(graph(*x)), linear_layer(*l)) && is_float(*x) && is_single(*x),
        linear_ready(*l) && plain(*x) && 2 <= shape(*x).len() <= 3 && nonempty(shape(*x)) && shape(*x).last()
            == linear_layer(*l).in_dim ==> r is Ok,
{
    candle_nn::Module::forward(l, x)
}

/// `LayerNorm::forward`: the last axis normalised. Integer elements make it panic, and so do a layer for
/// an axis of extent 0, more than [`MAX_AXES`] axes and an input that begins beyond its storage. A ready
/// layer does not fail on a plain input with rows of the right length.
#[verifier::external_body]
pub(crate) fn layer_norm_forward(n: &LayerNorm, x: &Tensor) -> (r: Result<Tensor, Error>)
    requires
        is_float(*x),
        norm_layer(*n).size >= 1,
        shape(*x).len() <= MAX_AXES,
        sound(*x),
    ensures
        r matches Ok(y) ==> shape(*x).len() >= 1 && (shape(*x).last() == norm_layer(*n).size ==> shape(y) == shape(*x))
            && alike(y, *x) && graph(y) == Graph::LayerNorm(Box::new(graph(*x)), norm_layer(*n)),
        norm_ready(*n) && plain(*x) && shape(*x).len() >= 1 && shape(*x).last() == norm_layer(*n).size ==> r is Ok,
{
    candle_nn::Module::forward(n, x)
}

} // verus!
