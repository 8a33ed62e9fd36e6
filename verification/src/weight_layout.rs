//! The layout of projection weights.
//!
//! A file stores every projection as `[out_features, in_features]`; consumers
//! multiply from the left and expect `[in_features, out_features]`. The declared
//! shapes are swapped once, and the bytes are transposed when they are read.

use vstd::prelude::*;
use vstd::string::StringExecFns;

use crate::error::{malformed, malformed_view, outcome};
use crate::error::{ErrorView, ProductionIngestionError};
use crate::model::{element_bytes, tensor_views, ModelTensorMetadata, TensorView};
use crate::name_map::NameMap;
use crate::naming::{bias_field, layer_name, top_level_field, weight_field};
use crate::naming::{lemma_layer_name_parts, lemma_numeral_chars};
use crate::text::{contains, contains_text, decimal, decimal_text, denotes_u64, same_text};
use crate::transpose::{transpose_bytes, transposed};

verus! {

/// Whether a canonical name is that of a projection: the output head, or any name
/// with `proj` in it. The embedding is a lookup table and stays as it is, as do
/// the normalization vectors.
pub open spec fn names_projection(name: Seq<char>) -> bool {
    name == "lm_head"@ || contains_text(name, "proj"@)
}

/// Whether a tensor is a projection matrix.
pub open spec fn is_projection(tensor: TensorView) -> bool {
    names_projection(tensor.name) && tensor.shape.len() == 2
}

/// A tensor with the layout that consumers expect. The digest of a projection is
/// cleared: it was that of the bytes before they are transposed.
pub open spec fn relaid(tensor: TensorView) -> TensorView {
    if is_projection(tensor) {
        TensorView { shape: seq![tensor.shape[1], tensor.shape[0]], digest: None, ..tensor }
    } else {
        tensor
    }
}

/// Tensors with the layout that consumers expect.
pub open spec fn all_relaid(tensors: Seq<TensorView>) -> Seq<TensorView> {
    Seq::new(tensors.len(), |at: int| relaid(tensors[at]))
}

/// Whether `canonical_name` is that of a projection.
pub fn is_transposed_projection(canonical_name: &str) -> (answer: bool)
    ensures
        answer == names_projection(canonical_name@),
{
    same_text(canonical_name, "lm_head") || contains(canonical_name, "proj")
}

/// Swaps the declared shape of every projection matrix, and clears its digest.
pub fn swap_declared_projection_shapes(tensors: &mut Vec<ModelTensorMetadata>)
    ensures
        tensor_views(final(tensors)@) == all_relaid(tensor_views(old(tensors)@)),
{
    let ghost before = tensors@;
    let mut at: usize = 0;
    while at < tensors.len()
        invariant
            at <= tensors@.len(),
            tensors@.len() == before.len(),
            forall|i: int| 0 <= i < at ==> (#[trigger] tensors@[i])@ == relaid(before[i]@),
            forall|i: int| at <= i < tensors@.len() ==> #[trigger] tensors@[i] == before[i],
        decreases tensors@.len() - at,
    {
        if is_transposed_projection(tensors[at].name.as_str()) && tensors[at].shape.len() == 2 {
            let mut tensor: ModelTensorMetadata = tensors[at].clone();
            let mut shape: Vec<u64> = Vec::new();
            shape.push(tensors[at].shape[1]);
            shape.push(tensors[at].shape[0]);
            tensor.shape = shape;
            tensor.digest = None;
            assert(tensor@ =~= relaid(before[at as int]@));
            tensors.set(at, tensor);
        }
        at += 1;
    }
    assert(tensor_views(tensors@) =~= all_relaid(tensor_views(before)));
}

/// A projection matrix as the file stores it.
#[derive(Clone, Copy, Debug, PartialEq, Eq, Structural)]
pub struct TransposedTensorShape {
    pub out_features: u64,
    pub in_features: u64,
    pub element_bytes: u64,
}

/// The stored shapes of the projection matrices among tensors, by name.
pub open spec fn projection_shapes(tensors: Seq<TensorView>) -> Map<
    Seq<char>,
    TransposedTensorShape,
>
    decreases tensors.len(),
{
    if tensors.len() == 0 {
        Map::empty()
    } else {
        let before = projection_shapes(tensors.drop_last());
        let tensor = tensors.last();
        if is_projection(tensor) {
            before.insert(
                tensor.name,
                TransposedTensorShape {
                    out_features: tensor.shape[0],
                    in_features: tensor.shape[1],
                    element_bytes: element_bytes(tensor.storage_dtype),
                },
            )
        } else {
            before
        }
    }
}

/// The bytes of a matrix transposed, given those in the layout of the file. A matrix
/// that does not have the bytes its shape asks for is refused.
pub open spec fn relaid_matrix(
    shape: TransposedTensorShape,
    identity: Seq<char>,
    bytes: Seq<u8>,
) -> Result<Seq<u8>, ErrorView> {
    let elements = shape.out_features * shape.in_features;
    if elements > u64::MAX {
        Err(malformed_view("'"@ + identity + "' element count overflows"@))
    } else if bytes.len() != elements * shape.element_bytes {
        Err(
            malformed_view(
                "'"@ + identity + "' byte length "@ + decimal_text(bytes.len())
                    + " does not match "@ + decimal_text(shape.out_features as nat) + "x"@
                    + decimal_text(shape.in_features as nat) + " elements at "@ + decimal_text(
                    shape.element_bytes as nat,
                ) + " bytes/element"@,
            ),
        )
    } else {
        Ok(
            transposed(
                bytes,
                shape.out_features as int,
                shape.in_features as int,
                shape.element_bytes as int,
            ),
        )
    }
}

/// The bytes of a payload in the layout that consumers expect, given those in the
/// layout of the file.
pub open spec fn relaid_payload(
    shapes: Map<Seq<char>, TransposedTensorShape>,
    identity: Seq<char>,
    payload: Result<Seq<u8>, ErrorView>,
) -> Result<Seq<u8>, ErrorView> {
    match (payload, shapes.get(identity)) {
        (Ok(bytes), Some(shape)) => relaid_matrix(shape, identity, bytes),
        (payload, _) => payload,
    }
}

/// Transposes a matrix, given its bytes in the layout of the file.
pub(crate) fn transpose_matrix(
    shape: TransposedTensorShape,
    identity: &str,
    bytes: Vec<u8>,
) -> (relaid: Result<Vec<u8>, ProductionIngestionError>)
    requires
        1 <= shape.element_bytes <= 8,
    ensures
        outcome(relaid) == relaid_matrix(shape, identity@, bytes@),
{
    let elements: u64 = match shape.out_features.checked_mul(shape.in_features) {
        Some(elements) => elements,
        None => {
            let mut reason: String = String::from_str("'");
            reason.append(identity);
            reason.append("' element count overflows");
            return Err(malformed(reason));
        },
    };
    let length: usize = bytes.len();
    let matching: bool = match elements.checked_mul(shape.element_bytes) {
        Some(expected) => length as u64 == expected,
        None => false,
    };
    if !matching {
        let mut reason: String = String::from_str("'");
        reason.append(identity);
        reason.append("' byte length ");
        reason.append(decimal(length as u64).as_str());
        reason.append(" does not match ");
        reason.append(decimal(shape.out_features).as_str());
        reason.append("x");
        reason.append(decimal(shape.in_features).as_str());
        reason.append(" elements at ");
        reason.append(decimal(shape.element_bytes).as_str());
        reason.append(" bytes/element");
        return Err(malformed(reason));
    }
    if length == 0 {
        assert(bytes@ =~= transposed(
            bytes@,
            shape.out_features as int,
            shape.in_features as int,
            shape.element_bytes as int,
        ));
        return Ok(bytes);
    }
    proof {
        let rows = shape.out_features as int;
        let cols = shape.in_features as int;
        let width = shape.element_bytes as int;
        assert(rows <= length && cols <= length && width <= length) by (nonlinear_arith)
            requires
                rows * cols * width == length,
                length > 0,
                rows >= 0,
                cols >= 0,
                width >= 0,
        ;
    }
    Ok(
        transpose_bytes(
            bytes.as_slice(),
            shape.out_features as usize,
            shape.in_features as usize,
            shape.element_bytes as usize,
        ),
    )
}

/// Access to payloads through `inner`, with every projection matrix transposed and
/// all else passed on unchanged.
#[derive(Debug)]
pub struct TransposingPayloadSource<S> {
    inner: S,
    original_shapes: NameMap<TransposedTensorShape>,
}

/// What a [`TransposingPayloadSource`] is made of.
pub struct TransposingView<S> {
    pub inner: S,
    pub original_shapes: Map<Seq<char>, TransposedTensorShape>,
}

impl<S> View for TransposingPayloadSource<S> {
    type V = TransposingView<S>;

    closed spec fn view(&self) -> TransposingView<S> {
        TransposingView { inner: self.inner, original_shapes: self.original_shapes@ }
    }
}

spec fn elements_have_width(shapes: Map<Seq<char>, TransposedTensorShape>) -> bool {
    forall|name: Seq<char>| #[trigger]
        shapes.contains_key(name) ==> 1 <= shapes[name].element_bytes <= 8
}

impl<S> TransposingPayloadSource<S> {
    #[verifier::type_invariant]
    spec fn well_formed(self) -> bool {
        elements_have_width(self.original_shapes@)
    }

    /// Wraps `inner`. `tensors` are as the file declares them, before
    /// [`swap_declared_projection_shapes`].
    pub fn new(inner: S, tensors: &Vec<ModelTensorMetadata>) -> (source: Self)
        ensures
            source@.inner == inner,
            source@.original_shapes == projection_shapes(tensor_views(tensors@)),
    {
        let ghost views = tensor_views(tensors@);
        let mut original_shapes: NameMap<TransposedTensorShape> = NameMap::new();
        let mut at: usize = 0;
        assert(views.take(0) =~= Seq::<TensorView>::empty());
        while at < tensors.len()
            invariant
                at <= tensors@.len(),
                views == tensor_views(tensors@),
                original_shapes@ == projection_shapes(views.take(at as int)),
                elements_have_width(original_shapes@),
            decreases tensors@.len() - at,
        {
            let tensor = &tensors[at];
            proof {
                assert(views.take(at + 1).drop_last() =~= views.take(at as int));
                assert(views.take(at + 1).last() == tensor@);
            }
            if is_transposed_projection(tensor.name.as_str()) && tensor.shape.len() == 2 {
                original_shapes.insert(
                    tensor.name.clone(),
                    TransposedTensorShape {
                        out_features: tensor.shape[0],
                        in_features: tensor.shape[1],
                        element_bytes: tensor.storage_dtype.size_bytes(),
                    },
                );
            }
            at += 1;
        }
        assert(views.take(at as int) =~= views);
        TransposingPayloadSource { inner, original_shapes }
    }

    /// The source that payloads come from.
    pub fn inner(&self) -> (inner: &S)
        ensures
            *inner == self@.inner,
    {
        &self.inner
    }

    /// Gives what the inner source read for `identity` the layout that consumers
    /// expect.
    pub fn read_payload(
        &self,
        identity: &str,
        payload: Result<Vec<u8>, ProductionIngestionError>,
    ) -> (relaid: Result<Vec<u8>, ProductionIngestionError>)
        ensures
            outcome(relaid) == relaid_payload(
                self@.original_shapes,
                identity@,
                outcome(payload),
            ),
    {
        proof {
            use_type_invariant(self);
        }
        let bytes: Vec<u8> = match payload {
            Ok(bytes) => bytes,
            Err(error) => return Err(error),
        };
        let shape: TransposedTensorShape = match self.original_shapes.get(identity) {
            Some(shape) => *shape,
            None => return Ok(bytes),
        };
        assert(self.original_shapes@.contains_key(identity@));
        transpose_matrix(shape, identity, bytes)
    }
}

/// A text without a `j` does not contain `proj`.
proof fn lemma_no_projection(name: Seq<char>)
    requires
        !name.contains('j'),
    ensures
        !contains_text(name, "proj"@),
{
    reveal_strlit("proj");
    if contains_text(name, "proj"@) {
        let at = choose|at: int|
            0 <= at && at + "proj"@.len() <= name.len() && #[trigger] name.subrange(
                at,
                at + "proj"@.len(),
            ) == "proj"@;
        assert(name.subrange(at, at + 4)[3] == 'j');
        assert(name[at + 3] == 'j');
    }
}

/// A text that ends in `proj` contains it.
proof fn lemma_projection_suffix(name: Seq<char>, start: Seq<char>)
    requires
        name == start + "proj"@,
    ensures
        contains_text(name, "proj"@),
{
    reveal_strlit("proj");
    let at = start.len() as int;
    assert(name.subrange(at, at + "proj"@.len()) =~= "proj"@);
}

/// Which canonical names are those of projections: in every layer all weights but the two
/// normalizations, and no bias.
pub proof fn layer_projections(layer: Seq<char>, field: Seq<char>)
    requires
        denotes_u64(layer),
    ensures
        weight_field(field) matches Some(canonical) ==> names_projection(
            layer_name(layer, canonical),
        ) == (field != "attn_norm"@ && field != "ffn_norm"@),
        bias_field(field) matches Some(canonical) ==> !names_projection(
            layer_name(layer, canonical),
        ),
{
    reveal_strlit("lm_head");
    reveal_strlit("layers.");
    reveal_strlit(".");
    reveal_strlit("proj");
    reveal_strlit("input_norm");
    reveal_strlit("post_attn_norm");
    reveal_strlit("self_attn.q_proj");
    reveal_strlit("self_attn.k_proj");
    reveal_strlit("self_attn.v_proj");
    reveal_strlit("self_attn.o_proj");
    reveal_strlit("mlp.gate_proj");
    reveal_strlit("mlp.up_proj");
    reveal_strlit("mlp.down_proj");
    reveal_strlit("self_attn.q_bias");
    reveal_strlit("self_attn.k_bias");
    reveal_strlit("self_attn.v_bias");
    lemma_numeral_chars(layer);
    if let Some(canonical) = weight_field(field) {
        let name = layer_name(layer, canonical);
        lemma_layer_name_parts(layer, canonical);
        if field == "attn_norm"@ || field == "ffn_norm"@ {
            assert(!name.contains('j')) by {
                assert forall|i: int| 0 <= i < name.len() implies name[i] != 'j' by {
                    lemma_layer_name_char(layer, canonical, i);
                }
            }
            lemma_no_projection(name);
        } else {
            let size = canonical.len();
            assert(canonical.skip(size - 4) =~= "proj"@);
            let start = "layers."@ + layer + "."@ + canonical.take(size - 4);
            assert(name =~= start + "proj"@);
            lemma_projection_suffix(name, start);
        }
    }
    if let Some(canonical) = bias_field(field) {
        let name = layer_name(layer, canonical);
        lemma_layer_name_parts(layer, canonical);
        assert(!name.contains('j')) by {
            assert forall|i: int| 0 <= i < name.len() implies name[i] != 'j' by {
                lemma_layer_name_char(layer, canonical, i);
            }
        }
        lemma_no_projection(name);
    }
}

/// Where a character of a per-layer name comes from.
proof fn lemma_layer_name_char(layer: Seq<char>, field: Seq<char>, i: int)
    requires
        0 <= i < layer_name(layer, field).len(),
    ensures
        "layers."@.contains(layer_name(layer, field)[i]) || layer.contains(
            layer_name(layer, field)[i],
        ) || "."@.contains(layer_name(layer, field)[i]) || field.contains(
            layer_name(layer, field)[i],
        ),
{
    let a = "layers."@.len() as int;
    let b = a + layer.len();
    let c = b + "."@.len();
    let ch = layer_name(layer, field)[i];
    if i < a {
        assert("layers."@[i] == ch);
    } else if i < b {
        assert(layer[i - a] == ch);
    } else if i < c {
        assert("."@[i - b] == ch);
    } else {
        assert(field[i - c] == ch);
    }
}

/// Of the tensors outside every layer, only the output head is a projection.
pub proof fn top_level_projections(name: Seq<char>)
    ensures
        top_level_field(name) matches Some(canonical) ==> names_projection(canonical) == (name
            == "output"@),
{
    reveal_strlit("token_embd");
    reveal_strlit("output_norm");
    reveal_strlit("output");
    reveal_strlit("token_embedding");
    reveal_strlit("final_norm");
    reveal_strlit("lm_head");
    assert("token_embd"@.len() == 10 && "output_norm"@.len() == 11 && "output"@.len() == 6);
    assert("token_embedding"@.len() == 15 && "final_norm"@.len() == 10 && "lm_head"@.len() == 7);
    if name == "token_embd"@ {
        assert(!"token_embedding"@.contains('j'));
        lemma_no_projection("token_embedding"@);
    } else if name == "output_norm"@ {
        assert(!"final_norm"@.contains('j'));
        lemma_no_projection("final_norm"@);
    }
}

/// Relaying the shapes keeps every tensor's name, place and type, and the number of its
/// elements; relaying them twice gives the shapes back.
pub proof fn relaying_keeps_tensors(tensor: TensorView)
    ensures
        relaid(tensor).name == tensor.name,
        relaid(tensor).storage_dtype == tensor.storage_dtype,
        relaid(tensor).offset_bytes == tensor.offset_bytes,
        relaid(tensor).size_bytes == tensor.size_bytes,
        is_projection(tensor) ==> relaid(tensor).shape[0] * relaid(tensor).shape[1]
            == tensor.shape[0] * tensor.shape[1],
        relaid(relaid(tensor)).shape == tensor.shape,
{
    if is_projection(tensor) {
        assert(relaid(relaid(tensor)).shape =~= tensor.shape);
        assert(tensor.shape[1] * tensor.shape[0] == tensor.shape[0] * tensor.shape[1])
            by (nonlinear_arith);
    }
}

} // verus!
