//! Layers that own their parameters and the settings of their forward pass.
//!
//! `new` builds a layer from tensors, `with_dims` from sizes: convolutions and
//! embeddings start with a Kaiming-uniform weight, biases with zeros, and
//! normalizations as the identity. Every parameter that is made ends in a
//! contiguous node, so that it is computed into a buffer of its own.

use vstd::prelude::*;

use crate::device::ScalarDType;
use crate::graph::{contiguous_term, Graph, Node, Op, Term};
use crate::realize::{Tensor, Uop};

verus! {

/// How a parameter is filled.
#[derive(Clone, Copy, Debug, PartialEq, Eq, Structural)]
pub enum Fill {
    /// At random, uniformly, in bounds that keep the variance of activations.
    KaimingUniform,
    Zeros,
    Ones,
}

/// The operation that fills a tensor.
pub open spec fn fill_op(fill: Fill) -> Op {
    match fill {
        Fill::KaimingUniform => Op::Other { code: 1 },
        Fill::Zeros => Op::Other { code: 2 },
        Fill::Ones => Op::Other { code: 3 },
    }
}

/// A tensor is a parameter of this shape and type that is yet to be filled.
pub open spec fn is_parameter(tensor: &Tensor, shape: Seq<usize>, dtype: ScalarDType, fill: Fill) -> bool {
    &&& tensor.wf()
    &&& tensor.uop.shape matches Some(dims) && dims@ == shape
    &&& tensor.uop.dtype == dtype
    &&& tensor.uop.graph.root() == contiguous_term(Term { op: fill_op(fill), srcs: Seq::empty() })
    &&& !tensor.uop.has_buffer_identity
    &&& !tensor.uop.constant
    &&& tensor.buffer is None
}

impl Tensor {
    /// A parameter that is yet to be filled.
    pub fn parameter(shape: Vec<usize>, dtype: ScalarDType, fill: Fill, next_id: &mut u64) -> (tensor: Tensor)
        requires
            *old(next_id) < u64::MAX - 2,
        ensures
            is_parameter(&tensor, shape@, dtype, fill),
            tensor.entry_id == *old(next_id),
            tensor.uop.id == *old(next_id) + 1,
            *final(next_id) == *old(next_id) + 2,
    {
        let op = match fill {
            Fill::KaimingUniform => Op::Other { code: 1 },
            Fill::Zeros => Op::Other { code: 2 },
            Fill::Ones => Op::Other { code: 3 },
        };
        let mut nodes: Vec<Node> = Vec::new();
        nodes.push(Node { op, srcs: Vec::new() });
        let filled = Graph { nodes };
        assert(filled.root().srcs =~= Seq::empty());
        let graph = filled.wrap(Op::Contiguous);
        let entry_id = *next_id;
        *next_id = entry_id + 2;
        Tensor {
            entry_id,
            uop: Uop {
                id: entry_id + 1,
                graph,
                has_buffer_identity: false,
                constant: false,
                shape: Some(shape),
                dtype,
            },
            buffer: None,
        }
    }
}

fn shape1(a: usize) -> (shape: Vec<usize>)
    ensures
        shape@ == seq![a],
{
    let mut shape: Vec<usize> = Vec::new();
    shape.push(a);
    assert(shape@ =~= seq![a]);
    shape
}

fn shape2(a: usize, b: usize) -> (shape: Vec<usize>)
    ensures
        shape@ == seq![a, b],
{
    let mut shape: Vec<usize> = Vec::new();
    shape.push(a);
    shape.push(b);
    assert(shape@ =~= seq![a, b]);
    shape
}

fn shape4(a: usize, b: usize, c: usize, d: usize) -> (shape: Vec<usize>)
    ensures
        shape@ == seq![a, b, c, d],
{
    let mut shape: Vec<usize> = Vec::new();
    shape.push(a);
    shape.push(b);
    shape.push(c);
    shape.push(d);
    assert(shape@ =~= seq![a, b, c, d]);
    shape
}

/// A parameter and, when asked for, a bias.
pub open spec fn are_params(
    params: (Tensor, Option<Tensor>),
    weight_shape: Seq<usize>,
    out_channels: usize,
    bias: bool,
    dtype: ScalarDType,
) -> bool {
    &&& is_parameter(&params.0, weight_shape, dtype, Fill::KaimingUniform)
    &&& params.1 is Some == bias
    &&& params.1 matches Some(b) ==> is_parameter(&b, seq![out_channels], dtype, Fill::Zeros)
}

/// A Kaiming-uniform weight and, when asked for, a zero bias.
fn conv_params(
    weight_shape: Vec<usize>,
    out_channels: usize,
    bias: bool,
    dtype: ScalarDType,
    next_id: &mut u64,
) -> (params: (Tensor, Option<Tensor>))
    requires
        *old(next_id) < u64::MAX - 4,
    ensures
        are_params(params, weight_shape@, out_channels, bias, dtype),
        *final(next_id) == *old(next_id) + if bias {
            4int
        } else {
            2int
        },
{
    let weight = Tensor::parameter(weight_shape, dtype, Fill::KaimingUniform, next_id);
    let bias = if bias {
        Some(Tensor::parameter(shape1(out_channels), dtype, Fill::Zeros, next_id))
    } else {
        None
    };
    (weight, bias)
}

/// How an input is convolved: per spatial axis, the outermost first.
#[derive(Clone, Copy, Debug, PartialEq, Eq)]
pub struct ConvSettings {
    pub stride: (usize, usize),
    /// Elements added before and after; negative ones crop.
    pub padding: ((isize, isize), (isize, isize)),
    /// Elements added to the output.
    pub output_padding: (usize, usize),
    pub dilation: (usize, usize),
    pub groups: usize,
    /// The type that sums are kept and given in, where it is not the operands'.
    pub acc_dtype: Option<ScalarDType>,
}

/// 2D convolution over `[N, C, H, W]` inputs, with a weight of shape
/// `[out_channels, in_channels / groups, kH, kW]` and an optional bias of shape
/// `[out_channels]`.
#[derive(Debug, PartialEq, Eq)]
pub struct Conv2d {
    pub weight: Tensor,
    pub bias: Option<Tensor>,
    pub stride: (usize, usize),
    pub padding: ((isize, isize), (isize, isize)),
    pub dilation: (usize, usize),
    pub groups: usize,
    pub acc_dtype: Option<ScalarDType>,
}

/// Unit stride and dilation, no padding, one group, sums in the operands' type.
pub open spec fn plain_conv(layer: Conv2d) -> bool {
    &&& layer.stride == (1usize, 1usize)
    &&& layer.padding == ((0isize, 0isize), (0isize, 0isize))
    &&& layer.dilation == (1usize, 1usize)
    &&& layer.groups == 1
    &&& layer.acc_dtype is None
}

impl Conv2d {
    /// A layer from existing tensors, with unit stride and dilation, no padding
    /// and one group.
    pub fn new(weight: Tensor, bias: Option<Tensor>) -> (layer: Conv2d)
        ensures
            layer.weight == weight,
            layer.bias == bias,
            plain_conv(layer),
    {
        Conv2d {
            weight,
            bias,
            stride: (1, 1),
            padding: ((0, 0), (0, 0)),
            dilation: (1, 1),
            groups: 1,
            acc_dtype: None,
        }
    }

    /// A layer from sizes.
    pub fn with_dims(
        in_channels: usize,
        out_channels: usize,
        kernel: (usize, usize),
        bias: bool,
        dtype: ScalarDType,
        next_id: &mut u64,
    ) -> (layer: Conv2d)
        requires
            *old(next_id) < u64::MAX - 4,
        ensures
            plain_conv(layer),
            are_params(
                (layer.weight, layer.bias),
                seq![out_channels, in_channels, kernel.0, kernel.1],
                out_channels,
                bias,
                dtype,
            ),
            *final(next_id) == *old(next_id) + if bias {
                4int
            } else {
                2int
            },
    {
        let (weight, bias) = conv_params(
            shape4(out_channels, in_channels, kernel.0, kernel.1),
            out_channels,
            bias,
            dtype,
            next_id,
        );
        Conv2d::new(weight, bias)
    }

    pub fn with_stride(self, stride: (usize, usize)) -> (layer: Conv2d)
        ensures
            layer == (Conv2d { stride, ..self }),
    {
        Conv2d { stride, ..self }
    }

    /// Per-axis padding before and after, outermost spatial axis first.
    /// Negative values crop.
    pub fn with_padding(self, padding: ((isize, isize), (isize, isize))) -> (layer: Conv2d)
        ensures
            layer == (Conv2d { padding, ..self }),
    {
        Conv2d { padding, ..self }
    }

    pub fn with_dilation(self, dilation: (usize, usize)) -> (layer: Conv2d)
        ensures
            layer == (Conv2d { dilation, ..self }),
    {
        Conv2d { dilation, ..self }
    }

    pub fn with_groups(self, groups: usize) -> (layer: Conv2d)
        ensures
            layer == (Conv2d { groups, ..self }),
    {
        Conv2d { groups, ..self }
    }

    /// Keeps sums in `dtype` and gives them in it, so that a half-width
    /// convolution can still give full-width values.
    pub fn with_acc_dtype(self, dtype: ScalarDType) -> (layer: Conv2d)
        ensures
            layer == (Conv2d { acc_dtype: Some(dtype), ..self }),
    {
        Conv2d { acc_dtype: Some(dtype), ..self }
    }

    /// How this layer convolves its input with its weight.
    pub fn settings(&self) -> (settings: ConvSettings)
        ensures
            settings == (ConvSettings {
                stride: self.stride,
                padding: self.padding,
                output_padding: (0, 0),
                dilation: self.dilation,
                groups: self.groups,
                acc_dtype: self.acc_dtype,
            }),
    {
        ConvSettings {
            stride: self.stride,
            padding: self.padding,
            output_padding: (0, 0),
            dilation: self.dilation,
            groups: self.groups,
            acc_dtype: self.acc_dtype,
        }
    }
}

/// Transposed 2D convolution over `[N, C, H, W]` inputs, with a weight of shape
/// `[in_channels, out_channels / groups, kH, kW]`: the leading axis counts the
/// input channels.
#[derive(Debug, PartialEq, Eq)]
pub struct ConvTranspose2d {
    pub weight: Tensor,
    pub bias: Option<Tensor>,
    pub stride: (usize, usize),
    pub padding: ((isize, isize), (isize, isize)),
    pub output_padding: (usize, usize),
    pub dilation: (usize, usize),
    pub groups: usize,
}

/// Unit stride and dilation, no padding, one group.
pub open spec fn plain_conv_transpose(layer: ConvTranspose2d) -> bool {
    &&& layer.stride == (1usize, 1usize)
    &&& layer.padding == ((0isize, 0isize), (0isize, 0isize))
    &&& layer.output_padding == (0usize, 0usize)
    &&& layer.dilation == (1usize, 1usize)
    &&& layer.groups == 1
}

impl ConvTranspose2d {
    /// A layer from existing tensors, with unit stride and dilation, no padding
    /// and one group.
    pub fn new(weight: Tensor, bias: Option<Tensor>) -> (layer: ConvTranspose2d)
        ensures
            layer.weight == weight,
            layer.bias == bias,
            plain_conv_transpose(layer),
    {
        ConvTranspose2d {
            weight,
            bias,
            stride: (1, 1),
            padding: ((0, 0), (0, 0)),
            output_padding: (0, 0),
            dilation: (1, 1),
            groups: 1,
        }
    }

    /// A layer from sizes.
    pub fn with_dims(
        in_channels: usize,
        out_channels: usize,
        kernel: (usize, usize),
        bias: bool,
        dtype: ScalarDType,
        next_id: &mut u64,
    ) -> (layer: ConvTranspose2d)
        requires
            *old(next_id) < u64::MAX - 4,
        ensures
            plain_conv_transpose(layer),
            are_params(
                (layer.weight, layer.bias),
                seq![in_channels, out_channels, kernel.0, kernel.1],
                out_channels,
                bias,
                dtype,
            ),
            *final(next_id) == *old(next_id) + if bias {
                4int
            } else {
                2int
            },
    {
        let (weight, bias) = conv_params(
            shape4(in_channels, out_channels, kernel.0, kernel.1),
            out_channels,
            bias,
            dtype,
            next_id,
        );
        ConvTranspose2d::new(weight, bias)
    }

    pub fn with_stride(self, stride: (usize, usize)) -> (layer: ConvTranspose2d)
        ensures
            layer == (ConvTranspose2d { stride, ..self }),
    {
        ConvTranspose2d { stride, ..self }
    }

    pub fn with_padding(self, padding: ((isize, isize), (isize, isize))) -> (layer: ConvTranspose2d)
        ensures
            layer == (ConvTranspose2d { padding, ..self }),
    {
        ConvTranspose2d { padding, ..self }
    }

    pub fn with_output_padding(self, output_padding: (usize, usize)) -> (layer: ConvTranspose2d)
        ensures
            layer == (ConvTranspose2d { output_padding, ..self }),
    {
        ConvTranspose2d { output_padding, ..self }
    }

    pub fn with_dilation(self, dilation: (usize, usize)) -> (layer: ConvTranspose2d)
        ensures
            layer == (ConvTranspose2d { dilation, ..self }),
    {
        ConvTranspose2d { dilation, ..self }
    }

    pub fn with_groups(self, groups: usize) -> (layer: ConvTranspose2d)
        ensures
            layer == (ConvTranspose2d { groups, ..self }),
    {
        ConvTranspose2d { groups, ..self }
    }

    /// How this layer convolves its input with its weight.
    pub fn settings(&self) -> (settings: ConvSettings)
        ensures
            settings == (ConvSettings {
                stride: self.stride,
                padding: self.padding,
                output_padding: self.output_padding,
                dilation: self.dilation,
                groups: self.groups,
                acc_dtype: None,
            }),
    {
        ConvSettings {
            stride: self.stride,
            padding: self.padding,
            output_padding: self.output_padding,
            dilation: self.dilation,
            groups: self.groups,
            acc_dtype: None,
        }
    }
}

/// An embedding table: its forward pass takes indices and gives the rows of the
/// weight at them.
#[derive(Debug, PartialEq, Eq)]
pub struct Embedding {
    pub weight: Tensor,
}

impl Embedding {
    pub fn new(weight: Tensor) -> (layer: Embedding)
        ensures
            layer.weight == weight,
    {
        Embedding { weight }
    }

    /// A table from sizes.
    pub fn with_dims(
        vocab_size: usize,
        embed_dim: usize,
        dtype: ScalarDType,
        next_id: &mut u64,
    ) -> (layer: Embedding)
        requires
            *old(next_id) < u64::MAX - 2,
        ensures
            is_parameter(&layer.weight, seq![vocab_size, embed_dim], dtype, Fill::KaimingUniform),
            *final(next_id) == *old(next_id) + 2,
    {
        let weight = Tensor::parameter(shape2(vocab_size, embed_dim), dtype, Fill::KaimingUniform, next_id);
        Embedding::new(weight)
    }
}

/// Normalization over the channel axis by stored statistics. With as many
/// parameters as channels: a scale, a shift, and the mean and the variance that
/// were seen. `eps_bits` are the bits of the number, of 64 bits after IEEE 754,
/// that keeps the divisor from 0.
#[derive(Debug, PartialEq, Eq)]
pub struct BatchNorm2d {
    pub weight: Tensor,
    pub bias: Tensor,
    pub running_mean: Tensor,
    pub running_var: Tensor,
    pub eps_bits: u64,
}

impl BatchNorm2d {
    pub fn new(
        weight: Tensor,
        bias: Tensor,
        running_mean: Tensor,
        running_var: Tensor,
        eps_bits: u64,
    ) -> (layer: BatchNorm2d)
        ensures
            layer == (BatchNorm2d { weight, bias, running_mean, running_var, eps_bits }),
    {
        BatchNorm2d { weight, bias, running_mean, running_var, eps_bits }
    }

    /// The identity: unit scale and variance, zero shift and mean.
    pub fn with_dims(channels: usize, eps_bits: u64, dtype: ScalarDType, next_id: &mut u64) -> (layer: BatchNorm2d)
        requires
            *old(next_id) < u64::MAX - 8,
        ensures
            is_parameter(&layer.weight, seq![channels], dtype, Fill::Ones),
            is_parameter(&layer.bias, seq![channels], dtype, Fill::Zeros),
            is_parameter(&layer.running_mean, seq![channels], dtype, Fill::Zeros),
            is_parameter(&layer.running_var, seq![channels], dtype, Fill::Ones),
            layer.eps_bits == eps_bits,
            *final(next_id) == *old(next_id) + 8,
    {
        let weight = Tensor::parameter(shape1(channels), dtype, Fill::Ones, next_id);
        let bias = Tensor::parameter(shape1(channels), dtype, Fill::Zeros, next_id);
        let running_mean = Tensor::parameter(shape1(channels), dtype, Fill::Zeros, next_id);
        let running_var = Tensor::parameter(shape1(channels), dtype, Fill::Ones, next_id);
        BatchNorm2d::new(weight, bias, running_mean, running_var, eps_bits)
    }
}

/// Normalization over the axes from `axis` on, counted from the end where it is
/// negative, then scaled and shifted.
#[derive(Debug, PartialEq, Eq)]
pub struct LayerNorm {
    pub weight: Tensor,
    pub bias: Option<Tensor>,
    pub eps_bits: u64,
    pub axis: isize,
}

impl LayerNorm {
    /// A layer over the last axis.
    pub fn new(weight: Tensor, bias: Option<Tensor>, eps_bits: u64) -> (layer: LayerNorm)
        ensures
            layer.weight == weight,
            layer.bias == bias,
            layer.eps_bits == eps_bits,
            layer.axis == -1,
    {
        LayerNorm { weight, bias, eps_bits, axis: -1 }
    }

    /// The identity: unit scale, zero shift.
    pub fn with_dims(size: usize, bias: bool, eps_bits: u64, dtype: ScalarDType, next_id: &mut u64) -> (layer:
        LayerNorm)
        requires
            *old(next_id) < u64::MAX - 4,
        ensures
            is_parameter(&layer.weight, seq![size], dtype, Fill::Ones),
            layer.bias is Some == bias,
            layer.bias matches Some(shift) ==> is_parameter(&shift, seq![size], dtype, Fill::Zeros),
            layer.eps_bits == eps_bits,
            layer.axis == -1,
            *final(next_id) == *old(next_id) + if bias {
                4int
            } else {
                2int
            },
    {
        let weight = Tensor::parameter(shape1(size), dtype, Fill::Ones, next_id);
        let shift = if bias {
            Some(Tensor::parameter(shape1(size), dtype, Fill::Zeros, next_id))
        } else {
            None
        };
        LayerNorm::new(weight, shift, eps_bits)
    }

    /// Normalizes over the axes from `axis` on, in place of the last one alone.
    pub fn with_axis(self, axis: isize) -> (layer: LayerNorm)
        ensures
            layer == (LayerNorm { axis, ..self }),
    {
        LayerNorm { axis, ..self }
    }
}

/// Normalization over the last axis by its root mean square, then scaled.
#[derive(Debug, PartialEq, Eq)]
pub struct RmsNorm {
    pub weight: Tensor,
    pub eps_bits: u64,
}

impl RmsNorm {
    pub fn new(weight: Tensor, eps_bits: u64) -> (layer: RmsNorm)
        ensures
            layer == (RmsNorm { weight, eps_bits }),
    {
        RmsNorm { weight, eps_bits }
    }

    /// The identity: unit scale.
    pub fn with_dims(size: usize, eps_bits: u64, dtype: ScalarDType, next_id: &mut u64) -> (layer: RmsNorm)
        requires
            *old(next_id) < u64::MAX - 2,
        ensures
            is_parameter(&layer.weight, seq![size], dtype, Fill::Ones),
            layer.eps_bits == eps_bits,
            *final(next_id) == *old(next_id) + 2,
    {
        RmsNorm::new(Tensor::parameter(shape1(size), dtype, Fill::Ones, next_id), eps_bits)
    }
}

/// The builders of a layer set what they name and leave the rest: in whatever
/// order they are called, each setting is the last one given for it.
pub proof fn law_builders_are_independent(
    layer: ConvTranspose2d,
    stride: (usize, usize),
    padding: ((isize, isize), (isize, isize)),
    output_padding: (usize, usize),
    dilation: (usize, usize),
    groups: usize,
)
    ensures
        ({
            let forwards = ConvTranspose2d {
                groups,
                ..ConvTranspose2d {
                    dilation,
                    ..ConvTranspose2d {
                        output_padding,
                        ..ConvTranspose2d { padding, ..ConvTranspose2d { stride, ..layer } }
                    }
                }
            };
            let backwards = ConvTranspose2d {
                stride,
                ..ConvTranspose2d {
                    padding,
                    ..ConvTranspose2d {
                        output_padding,
                        ..ConvTranspose2d { dilation, ..ConvTranspose2d { groups, ..layer } }
                    }
                }
            };
            &&& forwards == backwards
            &&& forwards.weight == layer.weight
            &&& forwards.bias == layer.bias
        }),
{
}

/// A parameter has the shape and the type that were asked for, and is computed into a
/// buffer of its own; what fills it tells parameters apart.
pub proof fn law_parameters_are_filled_as_asked(
    a: &Tensor,
    b: &Tensor,
    shape: Seq<usize>,
    dtype: ScalarDType,
    fill: Fill,
    other: Fill,
)
    requires
        is_parameter(a, shape, dtype, fill),
        is_parameter(b, shape, dtype, other),
    ensures
        a.uop.shape matches Some(dims) && dims@ == shape,
        a.uop.dtype == dtype,
        a.buffer is None,
        !a.uop.has_buffer_identity && !a.uop.constant,
        a.uop.graph.root().op is Contiguous,
        a.uop.graph.root().srcs.len() == 1,
        a.uop.graph.root().srcs[0].srcs.len() == 0,
        a.uop.graph.root() == b.uop.graph.root() <==> fill == other,
{
    if a.uop.graph.root() == b.uop.graph.root() {
        assert(a.uop.graph.root().srcs[0].op == b.uop.graph.root().srcs[0].op);
    }
}

/// A layer's weight is filled at random, and its bias, where it is asked for one, with
/// zeros: one for each output channel.
pub proof fn law_biases_start_at_zero(
    params: (Tensor, Option<Tensor>),
    weight_shape: Seq<usize>,
    out_channels: usize,
    bias: bool,
    dtype: ScalarDType,
)
    requires
        are_params(params, weight_shape, out_channels, bias, dtype),
    ensures
        is_parameter(&params.0, weight_shape, dtype, Fill::KaimingUniform),
        params.1 is Some <==> bias,
        bias ==> (params.1->0.uop.shape matches Some(dims) && dims@.len() == 1 && dims@[0] == out_channels),
        bias ==> is_parameter(&params.1->0, seq![out_channels], dtype, Fill::Zeros),
{
}

/// A new convolution moves by one element, skips none, adds none and has one group: each
/// output of a kernel of one element is computed from the input at its own place.
pub proof fn law_new_convolutions_are_plain(conv: Conv2d, transposed: ConvTranspose2d, at: (int, int), tap: (int, int))
    requires
        plain_conv(conv),
        plain_conv_transpose(transposed),
    ensures
        at.0 * conv.stride.0 + tap.0 * conv.dilation.0 - conv.padding.0.0 == at.0 + tap.0,
        at.1 * conv.stride.1 + tap.1 * conv.dilation.1 - conv.padding.1.0 == at.1 + tap.1,
        at.0 * transposed.stride.0 + tap.0 * transposed.dilation.0 - transposed.padding.0.0 == at.0 + tap.0,
        at.1 * transposed.stride.1 + tap.1 * transposed.dilation.1 - transposed.padding.1.0 == at.1 + tap.1,
        conv.padding.0.1 == 0 && conv.padding.1.1 == 0,
        transposed.padding.0.1 == 0 && transposed.padding.1.1 == 0,
        transposed.output_padding.0 == 0 && transposed.output_padding.1 == 0,
        conv.groups == 1 && transposed.groups == 1,
        conv.acc_dtype is None,
{
}

} // verus!
