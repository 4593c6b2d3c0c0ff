//! Model architecture: shape accounting, input sanitization and mask
//! construction for the encoder-decoder attention network.
//!
//! The floating-point forward pass lives outside the library; everything
//! the model decides about shapes, ids and masked positions is here, with
//! exact contracts. A mask is a boolean matrix: `true` marks a position
//! whose attention score is suppressed before normalization.

use vstd::prelude::*;

verus! {

use crate::tokenizer::{lower_of, spec_special_id, SpecialToken};

/// Model architecture kinds. The LSTM variant is an explicit stub: it
/// owns no parameters and computes nothing.
#[derive(Debug, Clone, Copy, PartialEq, Eq, Structural)]
pub enum ModelArchitecture {
    Transformer,
    LSTM,
}

/// The architecture selected by a configuration name: the name is
/// lowercased, recognized names select their architecture, and anything
/// else falls back to the transformer.
pub open spec fn arch_of_name(name: Seq<char>) -> ModelArchitecture {
    if lower_of(name) == "lstm"@ {
        ModelArchitecture::LSTM
    } else {
        ModelArchitecture::Transformer
    }
}

impl ModelArchitecture {
    /// Selects the architecture a configuration name denotes.
    pub fn from_name(name: &str) -> (r: ModelArchitecture)
        ensures
            r == arch_of_name(name@),
    {
        let low = crate::tokenizer::lowercase(name);
        if low == "lstm".to_string() {
            ModelArchitecture::LSTM
        } else {
            ModelArchitecture::Transformer
        }
    }
}

/// Parameters of one multi-head attention module: four square projection
/// matrices and their bias vectors.
pub open spec fn attention_param_count(d: int) -> int {
    4 * (d * d) + 4 * d
}

/// Parameters of one layer normalization: a scale and a shift vector.
pub open spec fn norm_param_count(d: int) -> int {
    2 * d
}

/// Parameters of one position-wise feed-forward sublayer: two affine
/// transforms.
pub open spec fn feedforward_param_count(d: int, dff: int) -> int {
    (d * dff + dff) + (dff * d + d)
}

/// Parameters of one encoder block: self-attention, feed-forward, and two
/// normalizations.
pub open spec fn encoder_layer_param_count(d: int, dff: int) -> int {
    attention_param_count(d) + feedforward_param_count(d, dff) + 2 * norm_param_count(d)
}

/// Parameters of one decoder block: self-attention, cross-attention,
/// feed-forward, and three normalizations.
pub open spec fn decoder_layer_param_count(d: int, dff: int) -> int {
    2 * attention_param_count(d) + feedforward_param_count(d, dff) + 3 * norm_param_count(d)
}

/// Parameters of the whole transformer: token embedding, every encoder
/// and decoder block, and the output projection with its bias. The
/// positional encoding table is computed, not trained, and is not
/// counted.
pub open spec fn transformer_param_count(vocab: int, d: int, layers: int, dff: int) -> int {
    vocab * d + layers * (encoder_layer_param_count(d, dff) + decoder_layer_param_count(d, dff))
        + d * vocab + vocab
}

/// The code-generation model's shape: the architecture and every
/// dimension, owned here; the trained parameters live with the runner of
/// the forward pass.
#[derive(Debug, Clone)]
pub struct CodeGenerationModel {
    pub architecture: ModelArchitecture,
    pub vocab_size: usize,
    pub d_model: usize,
    pub nhead: usize,
    pub num_layers: usize,
    pub max_seq_len: usize,
    pub dim_feedforward: usize,
}

impl CodeGenerationModel {
    /// The number of parameters this shape owns: the closed-form sum for
    /// the transformer, zero for the LSTM stub.
    pub open spec fn spec_num_parameters(&self) -> int {
        match self.architecture {
            ModelArchitecture::Transformer => transformer_param_count(
                self.vocab_size as int,
                self.d_model as int,
                self.num_layers as int,
                self.dim_feedforward as int,
            ),
            ModelArchitecture::LSTM => 0,
        }
    }

    /// A valid shape: the model width divides evenly into heads. The
    /// constraint binds only where attention exists, so only for the
    /// transformer.
    pub open spec fn wf(&self) -> bool {
        self.architecture is Transformer ==> (self.nhead >= 1 && self.d_model as int
            % self.nhead as int == 0)
    }

    /// Builds a model shape. A width not evenly divisible by the head
    /// count must fail at construction; callers rule it out up front.
    pub fn new(
        architecture: ModelArchitecture,
        vocab_size: usize,
        d_model: usize,
        nhead: usize,
        num_layers: usize,
        dim_feedforward: Option<usize>,
        max_seq_len: Option<usize>,
    ) -> (r: Self)
        requires
            architecture is Transformer ==> (nhead >= 1 && d_model as int % nhead as int == 0),
        ensures
            r.architecture == architecture,
            r.vocab_size == vocab_size,
            r.d_model == d_model,
            r.nhead == nhead,
            r.num_layers == num_layers,
            r.dim_feedforward == (match dim_feedforward {
                Some(v) => v,
                None => 2048usize,
            }),
            r.max_seq_len == (match max_seq_len {
                Some(v) => v,
                None => 512usize,
            }),
            r.wf(),
    {
        let dff = match dim_feedforward {
            Some(v) => v,
            None => crate::config::default_dim_feedforward(),
        };
        let msl = match max_seq_len {
            Some(v) => v,
            None => crate::config::default_max_seq_len(),
        };
        CodeGenerationModel {
            architecture,
            vocab_size,
            d_model,
            nhead,
            num_layers,
            max_seq_len: msl,
            dim_feedforward: dff,
        }
    }

    /// Sums the element counts of every owned matrix and vector.
    pub fn num_parameters(&self) -> (n: usize)
        requires
            self.spec_num_parameters() <= usize::MAX,
        ensures
            n == self.spec_num_parameters(),
    {
        match self.architecture {
            ModelArchitecture::LSTM => 0,
            ModelArchitecture::Transformer => {
                let vocab = self.vocab_size;
                let d = self.d_model;
                let layers = self.num_layers;
                let dff = self.dim_feedforward;
                let ghost total = self.spec_num_parameters();
                let ghost per_layer = encoder_layer_param_count(d as int, dff as int)
                    + decoder_layer_param_count(d as int, dff as int);
                proof {
                    lemma_layer_terms_bounded(vocab as int, d as int, layers as int, dff as int);
                }
                let base = vocab * d + d * vocab + vocab;
                let mut acc: usize = base;
                let mut i: usize = 0;
                while i < layers
                    invariant
                        i <= layers,
                        per_layer == encoder_layer_param_count(
                            self.d_model as int,
                            self.dim_feedforward as int,
                        ) + decoder_layer_param_count(
                            self.d_model as int,
                            self.dim_feedforward as int,
                        ),
                        total == self.spec_num_parameters(),
                        total <= usize::MAX,
                        d == self.d_model,
                        dff == self.dim_feedforward,
                        layers == self.num_layers,
                        acc + (layers - i) * per_layer == total,
                        per_layer >= 0,
                        acc <= total,
                    decreases layers - i,
                {
                    proof {
                        assert((layers - i) * per_layer == per_layer + (layers - i - 1)
                            * per_layer) by (nonlinear_arith)
                            requires
                                i < layers,
                        ;
                        assert((layers - i - 1) * per_layer >= 0) by (nonlinear_arith)
                            requires
                                per_layer >= 0,
                                i < layers,
                        ;
                    }
                    let attn = 4 * (d * d) + 4 * d;
                    let ffn = (d * dff + dff) + (dff * d + d);
                    let nrm = 2 * d;
                    let enc = attn + ffn + 2 * nrm;
                    let dec = 2 * attn + ffn + 3 * nrm;
                    acc = acc + (enc + dec);
                    i += 1;
                }
                proof {
                    assert(i == layers);
                    assert((layers - i) * per_layer == 0) by (nonlinear_arith)
                        requires
                            i == layers,
                    ;
                    assert(acc == total);
                }
                acc
            },
        }
    }

    /// Truncates to the maximum sequence length and remaps every id
    /// outside the vocabulary to the unknown id.
    pub fn sanitize_ids(&self, ids: &Vec<usize>) -> (r: Vec<usize>)
        ensures
            r@.len() == (if ids@.len() <= self.max_seq_len as int {
                ids@.len() as int
            } else {
                self.max_seq_len as int
            }),
            forall|i: int|
                0 <= i < r@.len() ==> r@[i] == (if ids@[i] < self.vocab_size {
                    ids@[i]
                } else {
                    spec_special_id(SpecialToken::Unknown)
                }),
    {
        let mut r: Vec<usize> = Vec::new();
        let limit: usize = if ids.len() <= self.max_seq_len {
            ids.len()
        } else {
            self.max_seq_len
        };
        let mut i: usize = 0;
        while i < limit
            invariant
                i <= limit,
                limit == (if ids@.len() <= self.max_seq_len as int {
                    ids@.len() as int
                } else {
                    self.max_seq_len as int
                }),
                r@.len() == i,
                forall|j: int|
                    0 <= j < i ==> r@[j] == (if ids@[j] < self.vocab_size {
                        ids@[j]
                    } else {
                        spec_special_id(SpecialToken::Unknown)
                    }),
            decreases limit - i,
        {
            if ids[i] < self.vocab_size {
                r.push(ids[i]);
            } else {
                r.push(SpecialToken::Unknown.token_id());
            }
            i += 1;
        }
        r
    }

    /// The decoder input stream: the start-of-sequence id followed by the
    /// encoder ids.
    pub fn decoder_input(&self, ids: &Vec<usize>) -> (r: Vec<usize>)
        ensures
            r@ == seq![spec_special_id(SpecialToken::StartOfSequence)] + ids@,
    {
        let mut r: Vec<usize> = Vec::new();
        r.push(SpecialToken::StartOfSequence.token_id());
        let mut i: usize = 0;
        while i < ids.len()
            invariant
                i <= ids@.len(),
                r@ == seq![spec_special_id(SpecialToken::StartOfSequence)] + ids@.take(i as int),
            decreases ids.len() - i,
        {
            r.push(ids[i]);
            proof {
                assert(seq![spec_special_id(SpecialToken::StartOfSequence)] + ids@.take(i + 1)
                    =~= (seq![spec_special_id(SpecialToken::StartOfSequence)] + ids@.take(
                    i as int,
                )).push(ids@[i as int]));
            }
            i += 1;
        }
        proof {
            assert(ids@.take(ids@.len() as int) =~= ids@);
        }
        r
    }

    /// The strict look-ahead mask: position `i` may not attend to any
    /// position `j` after it, and only to those.
    pub fn look_ahead_mask(&self, len: usize) -> (m: Vec<Vec<bool>>)
        ensures
            m@.len() == len,
            forall|i: int| 0 <= i < len ==> (#[trigger] m@[i])@.len() == len,
            forall|i: int, j: int| 0 <= i < len && 0 <= j < len ==> ((#[trigger] m@[i]@[j]) <==> j > i),
    {
        let mut m: Vec<Vec<bool>> = Vec::new();
        let mut i: usize = 0;
        while i < len
            invariant
                i <= len,
                m@.len() == i,
                forall|a: int| 0 <= a < i ==> (#[trigger] m@[a])@.len() == len,
                forall|a: int, b: int| 0 <= a < i && 0 <= b < len ==> ((#[trigger] m@[a]@[b]) <==> b > a),
            decreases len - i,
        {
            let mut row: Vec<bool> = Vec::new();
            let mut j: usize = 0;
            while j < len
                invariant
                    j <= len,
                    row@.len() == j,
                    forall|b: int| 0 <= b < j ==> ((#[trigger] row@[b]) <==> b > i as int),
                decreases len - j,
            {
                row.push(j > i);
                j += 1;
            }
            m.push(row);
            i += 1;
        }
        m
    }

    /// The self-attention padding mask over one id stream: every position
    /// is kept from attending to padding positions, and to nothing else.
    pub fn self_padding_mask(&self, ids: &Vec<usize>) -> (m: Vec<Vec<bool>>)
        ensures
            m@.len() == ids@.len(),
            forall|i: int| 0 <= i < ids@.len() ==> (#[trigger] m@[i])@.len() == ids@.len(),
            forall|i: int, j: int|
                0 <= i < ids@.len() && 0 <= j < ids@.len() ==> ((#[trigger] m@[i]@[j]) <==> ids@[j]
                    == spec_special_id(SpecialToken::Padding)),
    {
        let len = ids.len();
        let mut m: Vec<Vec<bool>> = Vec::new();
        let mut i: usize = 0;
        while i < len
            invariant
                i <= len,
                len == ids@.len(),
                m@.len() == i,
                forall|a: int| 0 <= a < i ==> (#[trigger] m@[a])@.len() == len,
                forall|a: int, b: int|
                    0 <= a < i && 0 <= b < len ==> ((#[trigger] m@[a]@[b]) <==> ids@[b]
                        == spec_special_id(SpecialToken::Padding)),
            decreases len - i,
        {
            let mut row: Vec<bool> = Vec::new();
            let mut j: usize = 0;
            while j < len
                invariant
                    j <= len,
                    len == ids@.len(),
                    row@.len() == j,
                    forall|b: int|
                        0 <= b < j ==> ((#[trigger] row@[b]) <==> ids@[b] == spec_special_id(
                            SpecialToken::Padding,
                        )),
                decreases len - j,
            {
                row.push(ids[j] == 0);
                j += 1;
            }
            m.push(row);
            i += 1;
        }
        m
    }

    /// The cross-attention padding mask: each of `query_len` decoder
    /// positions is kept from attending to encoder padding positions.
    pub fn cross_padding_mask(&self, query_len: usize, encoder_ids: &Vec<usize>) -> (m: Vec<
        Vec<bool>,
    >)
        ensures
            m@.len() == query_len,
            forall|i: int| 0 <= i < query_len ==> (#[trigger] m@[i])@.len() == encoder_ids@.len(),
            forall|i: int, j: int|
                0 <= i < query_len && 0 <= j < encoder_ids@.len() ==> ((#[trigger] m@[i]@[j])
                    <==> encoder_ids@[j] == spec_special_id(SpecialToken::Padding)),
    {
        let klen = encoder_ids.len();
        let mut m: Vec<Vec<bool>> = Vec::new();
        let mut i: usize = 0;
        while i < query_len
            invariant
                i <= query_len,
                klen == encoder_ids@.len(),
                m@.len() == i,
                forall|a: int| 0 <= a < i ==> (#[trigger] m@[a])@.len() == klen,
                forall|a: int, b: int|
                    0 <= a < i && 0 <= b < klen ==> ((#[trigger] m@[a]@[b]) <==> encoder_ids@[b]
                        == spec_special_id(SpecialToken::Padding)),
            decreases query_len - i,
        {
            let mut row: Vec<bool> = Vec::new();
            let mut j: usize = 0;
            while j < klen
                invariant
                    j <= klen,
                    klen == encoder_ids@.len(),
                    row@.len() == j,
                    forall|b: int|
                        0 <= b < j ==> ((#[trigger] row@[b]) <==> encoder_ids@[b]
                            == spec_special_id(SpecialToken::Padding)),
                decreases klen - j,
            {
                row.push(encoder_ids[j] == 0);
                j += 1;
            }
            m.push(row);
            i += 1;
        }
        m
    }

    /// Two masks of one shape combined: a position is suppressed when
    /// either mask suppresses it, exactly as adding two additive masks
    /// whose entries are zero or negative infinity.
    pub fn combine_masks(&self, a: &Vec<Vec<bool>>, b: &Vec<Vec<bool>>) -> (m: Vec<Vec<bool>>)
        requires
            a@.len() == b@.len(),
            forall|i: int| 0 <= i < a@.len() ==> (#[trigger] a@[i])@.len() == (#[trigger] b@[i])@.len(),
        ensures
            m@.len() == a@.len(),
            forall|i: int| 0 <= i < a@.len() ==> (#[trigger] m@[i])@.len() == a@[i]@.len(),
            forall|i: int, j: int|
                0 <= i < a@.len() && 0 <= j < a@[i]@.len() ==> ((#[trigger] m@[i]@[j]) <==> (
                a@[i]@[j] || b@[i]@[j])),
    {
        let mut m: Vec<Vec<bool>> = Vec::new();
        let mut i: usize = 0;
        while i < a.len()
            invariant
                i <= a@.len(),
                a@.len() == b@.len(),
                forall|x: int|
                    0 <= x < a@.len() ==> (#[trigger] a@[x])@.len() == (#[trigger] b@[x])@.len(),
                m@.len() == i,
                forall|x: int| 0 <= x < i ==> (#[trigger] m@[x])@.len() == a@[x]@.len(),
                forall|x: int, y: int|
                    0 <= x < i && 0 <= y < a@[x]@.len() ==> ((#[trigger] m@[x]@[y]) <==> (a@[x]@[y]
                        || b@[x]@[y])),
            decreases a.len() - i,
        {
            let ra = &a[i];
            let rb = &b[i];
            let mut row: Vec<bool> = Vec::new();
            let mut j: usize = 0;
            while j < ra.len()
                invariant
                    j <= ra@.len(),
                    ra@ == a@[i as int]@,
                    rb@ == b@[i as int]@,
                    ra@.len() == rb@.len(),
                    row@.len() == j,
                    forall|y: int| 0 <= y < j ==> ((#[trigger] row@[y]) <==> (ra@[y] || rb@[y])),
                decreases ra.len() - j,
            {
                row.push(ra[j] || rb[j]);
                j += 1;
            }
            m.push(row);
            i += 1;
        }
        m
    }
}

/// With at least one layer, every per-layer term of the parameter count
/// is itself bounded by the total, so the sums the counter forms along
/// the way all fit the machine word.
proof fn lemma_layer_terms_bounded(vocab: int, d: int, layers: int, dff: int)
    requires
        vocab >= 0,
        d >= 0,
        layers >= 0,
        dff >= 0,
    ensures
        vocab * d >= 0,
        d * dff >= 0,
        dff * d >= 0,
        d * d >= 0,
        d * vocab >= 0,
        encoder_layer_param_count(d, dff) >= 0,
        decoder_layer_param_count(d, dff) >= 0,
        layers >= 1 ==> transformer_param_count(vocab, d, layers, dff) >= encoder_layer_param_count(
            d,
            dff,
        ) + decoder_layer_param_count(d, dff),
{
    assert(vocab * d >= 0) by (nonlinear_arith)
        requires
            vocab >= 0,
            d >= 0,
    ;
    assert(d * dff >= 0) by (nonlinear_arith)
        requires
            d >= 0,
            dff >= 0,
    ;
    assert(dff * d >= 0) by (nonlinear_arith)
        requires
            d >= 0,
            dff >= 0,
    ;
    assert(d * d >= 0) by (nonlinear_arith)
        requires
            d >= 0,
    ;
    assert(d * vocab >= 0) by (nonlinear_arith)
        requires
            vocab >= 0,
            d >= 0,
    ;
    let per = encoder_layer_param_count(d, dff) + decoder_layer_param_count(d, dff);
    if layers >= 1 {
        assert(layers * per >= per) by (nonlinear_arith)
            requires
                layers >= 1,
                per >= 0,
        ;
    }
}

} // verus!
