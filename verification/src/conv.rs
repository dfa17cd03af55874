//! A two-dimensional convolution module: configuration, parameter
//! initialization and padding arithmetic. The convolution operator itself
//! belongs to the numeric backend and stays outside; what stands here is
//! the logic the engine owns - building the parameter tensors and
//! computing padding sizes.

use crate::grads::ParamId;
use crate::tensor::{numel, size_of, Data, IntTensor};
use vstd::prelude::*;

verus! {

/// How a parameter tensor's values are filled. The default, a uniform
/// random draw, needs floating-point sampling and lives outside this
/// crate; the deterministic initializers are realized here.
#[derive(Clone, Copy, PartialEq, Eq, Structural, Debug)]
pub enum Initializer {
    UniformDefault,
    Zeros,
    Ones,
    Constant(i64),
}

impl Initializer {
    /// Whether this crate can realize the initializer: everything but
    /// the uniform random draw.
    pub open spec fn is_deterministic(&self) -> bool {
        !(self is UniformDefault)
    }

    /// The value every element receives from a deterministic
    /// initializer.
    pub open spec fn fill_value(&self) -> i64 {
        match self {
            Initializer::Zeros => 0,
            Initializer::Ones => 1,
            Initializer::Constant(c) => *c,
            Initializer::UniformDefault => 0,
        }
    }

    /// A tensor of the given shape, every element the initializer's
    /// fill value.
    pub fn init(&self, shape: Vec<usize>) -> (t: IntTensor)
        requires
            self.is_deterministic(),
            size_of(shape@) <= usize::MAX,
        ensures
            t.wf(),
            t.shape@ == shape@,
            t.values@ == Seq::new(size_of(shape@), |i: int| self.fill_value()),
    {
        let n = numel(&shape);
        let v: i64 = match self {
            Initializer::Zeros => 0,
            Initializer::Ones => 1,
            Initializer::Constant(c) => *c,
            Initializer::UniformDefault => 0,
        };
        let mut values: Vec<i64> = Vec::new();
        let mut i: usize = 0;
        while i < n
            invariant
                i <= n,
                values@.len() == i,
                forall|j: int| 0 <= j < i ==> #[trigger] values@[j] == v,
            decreases n - i,
        {
            values.push(v);
            i = i + 1;
        }
        proof {
            assert(values@ =~= Seq::new(size_of(shape@), |i: int| self.fill_value()));
        }
        IntTensor { shape, values, device: crate::tensor::Device(0) }
    }
}

/// A named parameter: a tensor with its stable identity.
pub struct Param<T> {
    pub id: ParamId,
    pub value: T,
}

impl Param<IntTensor> {
    /// The parameter tensor's raw contents.
    pub fn to_data(&self) -> (d: Data<i64>)
        requires
            self.value.wf(),
        ensures
            d.wf(),
            d.value@ == self.value.values@,
            d.shape@ == self.value.shape@,
    {
        let mut value: Vec<i64> = Vec::new();
        let mut i: usize = 0;
        while i < self.value.values.len()
            invariant
                i <= self.value.values@.len(),
                value@ == self.value.values@.take(i as int),
            decreases self.value.values@.len() - i,
        {
            value.push(self.value.values[i]);
            proof {
                assert(self.value.values@.take(i + 1) =~= self.value.values@.take(
                    i as int,
                ).push(self.value.values@[i as int]));
            }
            i = i + 1;
        }
        proof {
            assert(self.value.values@.take(self.value.values@.len() as int)
                =~= self.value.values@);
        }
        let mut shape: Vec<usize> = Vec::new();
        let mut k: usize = 0;
        while k < self.value.shape.len()
            invariant
                k <= self.value.shape@.len(),
                shape@ == self.value.shape@.take(k as int),
            decreases self.value.shape@.len() - k,
        {
            shape.push(self.value.shape[k]);
            proof {
                assert(self.value.shape@.take(k + 1) =~= self.value.shape@.take(k as int).push(
                    self.value.shape@[k as int],
                ));
            }
            k = k + 1;
        }
        proof {
            assert(self.value.shape@.take(self.value.shape@.len() as int) =~= self.value.shape@);
        }
        Data { value, shape }
    }
}

/// The smallest padding that keeps a dimension's output size at least
/// its input size under the given kernel and stride.
pub open spec fn same_padding(kernel: int, stride: int, size: int) -> int {
    let need = stride * (size - 1) + kernel - size;
    if need <= 0 {
        0
    } else {
        (need + 1) / 2
    }
}

/// Padding configuration for a 2D convolution: padding that keeps the
/// output size, none at all, or an explicit amount per dimension.
#[derive(Clone, Copy, PartialEq, Eq, Structural, Debug)]
pub enum Conv2dPaddingConfig {
    Same,
    Valid,
    Explicit(usize, usize),
}

impl Conv2dPaddingConfig {
    /// The padding applied to the two spatial dimensions.
    pub fn calculate_padding_2d(
        &self,
        height: usize,
        width: usize,
        kernel_size: &[usize; 2],
        stride: &[usize; 2],
    ) -> (p: [usize; 2])
        requires
            height >= 1,
            width >= 1,
            stride@[0] * height + kernel_size@[0] <= usize::MAX,
            stride@[1] * width + kernel_size@[1] <= usize::MAX,
        ensures
            p@[0] == (match self {
                Conv2dPaddingConfig::Same => same_padding(
                    kernel_size@[0] as int,
                    stride@[0] as int,
                    height as int,
                ),
                Conv2dPaddingConfig::Valid => 0int,
                Conv2dPaddingConfig::Explicit(v1, v2) => *v1 as int,
            }),
            p@[1] == (match self {
                Conv2dPaddingConfig::Same => same_padding(
                    kernel_size@[1] as int,
                    stride@[1] as int,
                    width as int,
                ),
                Conv2dPaddingConfig::Valid => 0int,
                Conv2dPaddingConfig::Explicit(v1, v2) => *v2 as int,
            }),
    {
        match self {
            Conv2dPaddingConfig::Same => {
                let p1 = calculate_padding(kernel_size[0], stride[0], height);
                let p2 = calculate_padding(kernel_size[1], stride[1], width);
                [p1, p2]
            },
            Conv2dPaddingConfig::Valid => [0, 0],
            Conv2dPaddingConfig::Explicit(v1, v2) => [*v1, *v2],
        }
    }
}

/// The padding that keeps one dimension's output size at least its input
/// size: the deficit `stride * (size - 1) + kernel - size`, split over
/// both sides, rounded up.
pub fn calculate_padding(kernel_size: usize, stride: usize, size: usize) -> (p: usize)
    requires
        size >= 1,
        stride * size + kernel_size <= usize::MAX,
    ensures
        p == same_padding(kernel_size as int, stride as int, size as int),
{
    proof {
        assert(stride * (size - 1) == stride * size - stride) by (nonlinear_arith);
    }
    let reach = stride * (size - 1) + kernel_size;
    if reach <= size {
        0
    } else {
        (reach - size + 1) / 2
    }
}

/// Configuration of a [`Conv2d`] layer: `channels` is `[in, out]`,
/// `kernel_size` the two spatial kernel dimensions.
#[derive(Clone, Debug)]
pub struct Conv2dConfig {
    pub channels: [usize; 2],
    pub kernel_size: [usize; 2],
    pub padding: Conv2dPaddingConfig,
    pub bias: bool,
    pub initializer: Initializer,
}

impl Conv2dConfig {
    /// A configuration with the default padding (none), a bias, and the
    /// default (uniform) initializer.
    pub fn new(channels: [usize; 2], kernel_size: [usize; 2]) -> (c: Self)
        ensures
            c.channels@ == channels@,
            c.kernel_size@ == kernel_size@,
            c.padding == Conv2dPaddingConfig::Valid,
            c.bias == true,
            c.initializer == Initializer::UniformDefault,
    {
        Conv2dConfig {
            channels,
            kernel_size,
            padding: Conv2dPaddingConfig::Valid,
            bias: true,
            initializer: Initializer::UniformDefault,
        }
    }

    pub fn with_initializer(self, initializer: Initializer) -> (c: Self)
        ensures
            c.channels@ == self.channels@,
            c.kernel_size@ == self.kernel_size@,
            c.padding == self.padding,
            c.bias == self.bias,
            c.initializer == initializer,
    {
        Conv2dConfig { initializer, ..self }
    }

    pub fn with_padding(self, padding: Conv2dPaddingConfig) -> (c: Self)
        ensures
            c.channels@ == self.channels@,
            c.kernel_size@ == self.kernel_size@,
            c.padding == padding,
            c.bias == self.bias,
            c.initializer == self.initializer,
    {
        Conv2dConfig { padding, ..self }
    }

    pub fn with_bias(self, bias: bool) -> (c: Self)
        ensures
            c.channels@ == self.channels@,
            c.kernel_size@ == self.kernel_size@,
            c.padding == self.padding,
            c.bias == bias,
            c.initializer == self.initializer,
    {
        Conv2dConfig { bias, ..self }
    }
}

/// A 2D convolution layer's parameters: a weight tensor of shape
/// `[channels_out, channels_in, kernel_1, kernel_2]` and an optional bias
/// of shape `[channels_out]`. The operator applying them is the numeric
/// backend's.
pub struct Conv2d {
    pub weight: Param<IntTensor>,
    pub bias: Option<Param<IntTensor>>,
    pub stride: [usize; 2],
    pub kernel_size: [usize; 2],
    pub padding: Conv2dPaddingConfig,
}

impl Conv2d {
    /// The weight tensor's shape for a configuration.
    pub open spec fn weight_shape(config: Conv2dConfig) -> Seq<usize> {
        seq![config.channels@[1], config.channels@[0], config.kernel_size@[0], config.kernel_size@[1]]
    }

    /// Builds the layer from its configuration, filling the parameters
    /// with the configured initializer. The uniform random initializer
    /// draws floating-point samples and is realized outside this crate;
    /// here the configuration must carry a deterministic one.
    pub fn new(config: &Conv2dConfig) -> (c: Self)
        requires
            config.initializer.is_deterministic(),
            size_of(Self::weight_shape(*config)) <= usize::MAX,
        ensures
            c.weight.id == ParamId(0),
            c.weight.value.wf(),
            c.weight.value.shape@ == Self::weight_shape(*config),
            c.weight.value.values@ == Seq::new(
                size_of(Self::weight_shape(*config)),
                |i: int| config.initializer.fill_value(),
            ),
            config.bias ==> (c.bias matches Some(b) && b.id == ParamId(1) && b.value.wf()
                && b.value.shape@ == seq![config.channels@[1]] && b.value.values@ == Seq::new(
                size_of(seq![config.channels@[1]]),
                |i: int| config.initializer.fill_value(),
            )),
            !config.bias ==> c.bias is None,
            c.stride@ == seq![1usize, 1usize],
            c.kernel_size@ == config.kernel_size@,
            c.padding == config.padding,
    {
        let mut weight_shape: Vec<usize> = Vec::new();
        weight_shape.push(config.channels[1]);
        weight_shape.push(config.channels[0]);
        weight_shape.push(config.kernel_size[0]);
        weight_shape.push(config.kernel_size[1]);
        proof {
            assert(weight_shape@ =~= Self::weight_shape(*config));
        }
        let weight_tensor = config.initializer.init(weight_shape);
        let bias = if config.bias {
            let mut bias_shape: Vec<usize> = Vec::new();
            bias_shape.push(config.channels[1]);
            proof {
                assert(bias_shape@ =~= seq![config.channels@[1]]);
                assert(bias_shape@.drop_first() =~= Seq::<usize>::empty());
                assert(size_of(Seq::<usize>::empty()) == 1);
                assert(size_of(bias_shape@) == bias_shape@[0] * size_of(
                    bias_shape@.drop_first(),
                ));
            }
            let bias_tensor = config.initializer.init(bias_shape);
            Some(Param { id: ParamId(1), value: bias_tensor })
        } else {
            None
        };
        let c = Conv2d {
            weight: Param { id: ParamId(0), value: weight_tensor },
            bias,
            stride: [1, 1],
            kernel_size: [config.kernel_size[0], config.kernel_size[1]],
            padding: config.padding,
        };
        proof {
            assert(c.stride@ =~= seq![1usize, 1usize]);
            assert(c.kernel_size@ =~= config.kernel_size@);
        }
        c
    }
}

} // verus!
