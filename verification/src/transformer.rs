//! The transformer encoder's structural surface: configuration, layer
//! stack and autoregressive caches. The attention, normalization and
//! feed-forward arithmetic belongs to the numeric backend and stays
//! outside; what stands here is the structure the engine owns - how many
//! layers exist, what a forward input carries, and how the per-layer
//! caches are laid out.

use crate::tensor::{BoolTensor, IntTensor};
use vstd::prelude::*;

verus! {

/// Configuration of a [`TransformerEncoder`]: model width, feed-forward
/// width, attention heads and layer count. The dropout rate is a
/// floating-point concern of the numeric backend and is not represented.
#[derive(Clone, Copy, PartialEq, Eq, Structural, Debug)]
pub struct TransformerEncoderConfig {
    pub d_model: usize,
    pub d_ff: usize,
    pub n_heads: usize,
    pub n_layers: usize,
    pub norm_first: bool,
}

impl TransformerEncoderConfig {
    /// A configuration applying normalization after the other modules.
    pub fn new(d_model: usize, d_ff: usize, n_heads: usize, n_layers: usize) -> (c: Self)
        ensures
            c.d_model == d_model,
            c.d_ff == d_ff,
            c.n_heads == n_heads,
            c.n_layers == n_layers,
            c.norm_first == false,
    {
        TransformerEncoderConfig { d_model, d_ff, n_heads, n_layers, norm_first: false }
    }

    pub fn with_norm_first(self, norm_first: bool) -> (c: Self)
        ensures
            c == (TransformerEncoderConfig { norm_first, ..self }),
    {
        TransformerEncoderConfig { norm_first, ..self }
    }
}

/// One encoder layer's structural parameters.
struct TransformerEncoderLayer {
    d_model: usize,
    d_ff: usize,
    n_heads: usize,
    norm_first: bool,
}

impl TransformerEncoderLayer {
    fn new(config: &TransformerEncoderConfig) -> (l: Self)
        ensures
            l.d_model == config.d_model,
            l.d_ff == config.d_ff,
            l.n_heads == config.n_heads,
            l.norm_first == config.norm_first,
    {
        TransformerEncoderLayer {
            d_model: config.d_model,
            d_ff: config.d_ff,
            n_heads: config.n_heads,
            norm_first: config.norm_first,
        }
    }
}

/// The input of an encoder forward pass: the embedded sequence plus the
/// optional padding and attention masks.
pub struct TransformerEncoderInput {
    tensor: IntTensor,
    mask_pad: Option<BoolTensor>,
    mask_attn: Option<BoolTensor>,
}

impl TransformerEncoderInput {
    pub closed spec fn tensor_spec(&self) -> IntTensor {
        self.tensor
    }

    pub closed spec fn mask_pad_spec(&self) -> Option<BoolTensor> {
        self.mask_pad
    }

    pub closed spec fn mask_attn_spec(&self) -> Option<BoolTensor> {
        self.mask_attn
    }

    /// An input carrying no masks.
    pub fn new(tensor: IntTensor) -> (r: Self)
        ensures
            r.tensor_spec() == tensor,
            r.mask_pad_spec() is None,
            r.mask_attn_spec() is None,
    {
        TransformerEncoderInput { tensor, mask_pad: None, mask_attn: None }
    }

    /// Registers the padding mask.
    pub fn mask_pad(self, mask_pad: BoolTensor) -> (r: Self)
        ensures
            r.tensor_spec() == self.tensor_spec(),
            r.mask_pad_spec() == Some(mask_pad),
            r.mask_attn_spec() == self.mask_attn_spec(),
    {
        TransformerEncoderInput { mask_pad: Some(mask_pad), ..self }
    }

    /// Registers the attention mask.
    pub fn mask_attn(self, mask_attn: BoolTensor) -> (r: Self)
        ensures
            r.tensor_spec() == self.tensor_spec(),
            r.mask_pad_spec() == self.mask_pad_spec(),
            r.mask_attn_spec() == Some(mask_attn),
    {
        TransformerEncoderInput { mask_attn: Some(mask_attn), ..self }
    }
}

/// One tensor slot of an autoregressive cache: empty until the first
/// decoding step fills it.
pub struct TensorCache {
    pub cached: Option<IntTensor>,
}

impl TensorCache {
    pub fn new() -> (c: Self)
        ensures
            c.cached is None,
    {
        TensorCache { cached: None }
    }
}

/// The autoregressive cache of one encoder layer: one slot per cached
/// projection - the attention's keys and values, the feed-forward
/// output, and the two normalization outputs.
pub struct TransformerEncoderLayerAutoregressiveCache {
    pub mha_key: TensorCache,
    pub mha_value: TensorCache,
    pub pwff: TensorCache,
    pub norm_1: TensorCache,
    pub norm_2: TensorCache,
}

impl TransformerEncoderLayerAutoregressiveCache {
    pub fn new() -> (c: Self)
        ensures
            c.mha_key.cached is None,
            c.mha_value.cached is None,
            c.pwff.cached is None,
            c.norm_1.cached is None,
            c.norm_2.cached is None,
    {
        TransformerEncoderLayerAutoregressiveCache {
            mha_key: TensorCache::new(),
            mha_value: TensorCache::new(),
            pwff: TensorCache::new(),
            norm_1: TensorCache::new(),
            norm_2: TensorCache::new(),
        }
    }
}

/// The autoregressive cache of a whole encoder: one layer cache per
/// encoder layer, used during token-by-token inference.
pub struct TransformerEncoderAutoregressiveCache {
    pub layers: Vec<TransformerEncoderLayerAutoregressiveCache>,
}

impl TransformerEncoderAutoregressiveCache {
    /// An empty cache for `num_layers` layers: every slot of every layer
    /// starts unfilled.
    pub fn empty(num_layers: usize) -> (c: Self)
        ensures
            c.layers@.len() == num_layers,
            forall|i: int|
                0 <= i < num_layers ==> ((#[trigger] c.layers@[i]).mha_key.cached is None
                    && c.layers@[i].mha_value.cached is None && c.layers@[i].pwff.cached is None
                    && c.layers@[i].norm_1.cached is None && c.layers@[i].norm_2.cached is None),
    {
        let mut layers: Vec<TransformerEncoderLayerAutoregressiveCache> = Vec::new();
        let mut i: usize = 0;
        while i < num_layers
            invariant
                i <= num_layers,
                layers@.len() == i,
                forall|j: int|
                    0 <= j < i ==> ((#[trigger] layers@[j]).mha_key.cached is None
                        && layers@[j].mha_value.cached is None && layers@[j].pwff.cached is None
                        && layers@[j].norm_1.cached is None && layers@[j].norm_2.cached
                        is None),
            decreases num_layers - i,
        {
            layers.push(TransformerEncoderLayerAutoregressiveCache::new());
            i = i + 1;
        }
        TransformerEncoderAutoregressiveCache { layers }
    }
}

/// The encoder's layer stack. The per-batch attention arithmetic is the
/// numeric backend's; the engine owns the stack's structure.
pub struct TransformerEncoder {
    layers: Vec<TransformerEncoderLayer>,
}

impl TransformerEncoder {
    /// How many layers the encoder stacks.
    pub closed spec fn num_layers(&self) -> int {
        self.layers@.len() as int
    }

    /// The structural parameters of layer `i`: its model width,
    /// feed-forward width, head count, and normalization placement.
    pub closed spec fn layer_config(&self, i: int) -> (usize, usize, usize, bool) {
        (
            self.layers@[i].d_model,
            self.layers@[i].d_ff,
            self.layers@[i].n_heads,
            self.layers@[i].norm_first,
        )
    }

    /// An encoder of `config.n_layers` layers, each built from the same
    /// configuration.
    pub fn new(config: &TransformerEncoderConfig) -> (e: Self)
        ensures
            e.num_layers() == config.n_layers,
            forall|i: int|
                0 <= i < config.n_layers ==> #[trigger] e.layer_config(i) == (
                    config.d_model,
                    config.d_ff,
                    config.n_heads,
                    config.norm_first,
                ),
    {
        let mut layers: Vec<TransformerEncoderLayer> = Vec::new();
        let mut i: usize = 0;
        while i < config.n_layers
            invariant
                i <= config.n_layers,
                layers@.len() == i,
                forall|j: int|
                    0 <= j < i ==> ((#[trigger] layers@[j]).d_model == config.d_model
                        && layers@[j].d_ff == config.d_ff && layers@[j].n_heads == config.n_heads
                        && layers@[j].norm_first == config.norm_first),
            decreases config.n_layers - i,
        {
            layers.push(TransformerEncoderLayer::new(config));
            i = i + 1;
        }
        TransformerEncoder { layers }
    }

    /// An empty autoregressive cache with one slot set per layer.
    pub fn new_autoregressive_cache(&self) -> (c: TransformerEncoderAutoregressiveCache)
        ensures
            c.layers@.len() == self.num_layers(),
    {
        TransformerEncoderAutoregressiveCache::empty(self.layers.len())
    }
}

} // verus!
