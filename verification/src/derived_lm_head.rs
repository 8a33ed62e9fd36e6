//! The output head of a model that has none of its own.
//!
//! Where the embedding is tied, the output head is the embedding table once more,
//! transposed. It is declared as a tensor `lm_head` of its own, and reading it
//! reads the embedding.

use vstd::prelude::*;
use vstd::string::StringExecFns;

use crate::error::outcome;
use crate::error::{ErrorView, IngestionErrorKind, ProductionIngestionError};
use crate::model::{element_bytes, tensor_views, RangeView, TensorView};
use crate::model::{ModelTensorMetadata, ProductionPayloadRange};
use crate::text::same_text;
use crate::weight_layout::{relaid_matrix, transpose_matrix, TransposedTensorShape};
use crate::weights::reversed;

verus! {

/// The canonical name of the embedding table.
pub const TOKEN_EMBEDDING: &'static str = "token_embedding";

/// The canonical name of the output head.
pub const LM_HEAD: &'static str = "lm_head";

/// The first tensor of a name.
pub open spec fn first_named(tensors: Seq<TensorView>, name: Seq<char>) -> Option<TensorView>
    decreases tensors.len(),
{
    if tensors.len() == 0 {
        None
    } else if tensors[0].name == name {
        Some(tensors[0])
    } else {
        first_named(tensors.skip(1), name)
    }
}

/// Whether some tensor has a name.
pub open spec fn has_named(tensors: Seq<TensorView>, name: Seq<char>) -> bool {
    exists|at: int| 0 <= at < tensors.len() && (#[trigger] tensors[at]).name == name
}

/// The output head that an embedding table stands for.
pub open spec fn tied_head(embedding: TensorView) -> TensorView {
    TensorView {
        name: LM_HEAD@,
        shape: embedding.shape.reverse(),
        digest: None,
        ..embedding
    }
}

/// The place of the first tensor of a name.
pub fn position_of(tensors: &Vec<ModelTensorMetadata>, name: &str) -> (at: Option<usize>)
    ensures
        at is Some <==> first_named(tensor_views(tensors@), name@) is Some,
        at is Some <==> has_named(tensor_views(tensors@), name@),
        at matches Some(at) ==> at < tensors@.len() && first_named(tensor_views(tensors@), name@)
            == Some(tensors@[at as int]@),
{
    let ghost views = tensor_views(tensors@);
    let mut at: usize = 0;
    assert(views.skip(0) =~= views);
    while at < tensors.len()
        invariant
            at <= tensors@.len(),
            views == tensor_views(tensors@),
            first_named(views, name@) == first_named(views.skip(at as int), name@),
            forall|i: int| 0 <= i < at ==> (#[trigger] views[i]).name != name@,
        decreases tensors@.len() - at,
    {
        proof {
            assert(views.skip(at as int)[0] == views[at as int]);
            assert(views.skip(at as int).skip(1) =~= views.skip(at + 1));
        }
        if same_text(tensors[at].name.as_str(), name) {
            assert(views[at as int].name == name@);
            return Some(at);
        }
        at += 1;
    }
    None
}

/// A tensor is found by name exactly where one has the name.
pub proof fn lemma_first_named(tensors: Seq<TensorView>, name: Seq<char>)
    ensures
        first_named(tensors, name) is Some <==> has_named(tensors, name),
        first_named(tensors, name) matches Some(tensor) ==> tensor.name == name && tensors.contains(
            tensor,
        ),
    decreases tensors.len(),
{
    if tensors.len() > 0 {
        let rest = tensors.skip(1);
        lemma_first_named(rest, name);
        if tensors[0].name != name {
            if has_named(tensors, name) {
                let at = choose|at: int|
                    0 <= at < tensors.len() && (#[trigger] tensors[at]).name == name;
                assert(rest[at - 1].name == name);
            }
            if has_named(rest, name) {
                let at = choose|at: int| 0 <= at < rest.len() && (#[trigger] rest[at]).name == name;
                assert(tensors[at + 1].name == name);
            }
            if let Some(tensor) = first_named(rest, name) {
                let at = choose|at: int| 0 <= at < rest.len() && rest[at] == tensor;
                assert(tensors[at + 1] == tensor);
            }
        } else {
            assert(tensors.contains(tensors[0]));
        }
    }
}

/// Where several tensors have a name, the first of them is the one that goes by it.
pub proof fn first_of_the_name_is_found(tensors: Seq<TensorView>, name: Seq<char>, at: int)
    requires
        0 <= at < tensors.len(),
        tensors[at].name == name,
        forall|before: int| 0 <= before < at ==> (#[trigger] tensors[before]).name != name,
    ensures
        first_named(tensors, name) == Some(tensors[at]),
    decreases at,
{
    if at > 0 {
        let rest = tensors.skip(1);
        assert(tensors[0].name != name);
        assert forall|before: int| 0 <= before < at - 1 implies (#[trigger] rest[before]).name
            != name by {
            assert(rest[before] == tensors[before + 1]);
        }
        assert(rest[at - 1] == tensors[at]);
        first_of_the_name_is_found(rest, name, at - 1);
    }
}

/// Declares the output head of a tied embedding, last among the tensors. Returns
/// whether it did: where the embedding is not tied, or there is none, nothing
/// changes.
pub fn append_synthetic_lm_head_if_tied(
    tensors: &mut Vec<ModelTensorMetadata>,
    tied: bool,
) -> (added: bool)
    ensures
        added == (tied && has_named(tensor_views(old(tensors)@), TOKEN_EMBEDDING@)),
        !added ==> final(tensors)@ == old(tensors)@,
        added ==> tensor_views(final(tensors)@) == tensor_views(old(tensors)@).push(
            tied_head(first_named(tensor_views(old(tensors)@), TOKEN_EMBEDDING@).unwrap()),
        ),
{
    let ghost before = tensors@;
    if !tied {
        return false;
    }
    match position_of(tensors, TOKEN_EMBEDDING) {
        None => false,
        Some(at) => {
            let mut head: ModelTensorMetadata = tensors[at].clone();
            head.name = String::from_str(LM_HEAD);
            head.shape = reversed(&tensors[at].shape);
            head.digest = None;
            assert(head@ =~= tied_head(before[at as int]@));
            tensors.push(head);
            assert(tensor_views(tensors@) =~= tensor_views(before).push(head@));
            true
        },
    }
}

/// Access to payloads through `inner`, with the output head derived from the
/// embedding and all else passed on unchanged.
#[derive(Debug)]
pub struct DerivedLmHeadPayloadSource<S> {
    inner: S,
    offset: u64,
    length: u64,
    shape: TransposedTensorShape,
}

/// What a [`DerivedLmHeadPayloadSource`] is made of.
pub struct DerivedView<S> {
    pub inner: S,
    pub offset: u64,
    pub length: u64,
    pub shape: TransposedTensorShape,
}

impl<S> View for DerivedLmHeadPayloadSource<S> {
    type V = DerivedView<S>;

    closed spec fn view(&self) -> DerivedView<S> {
        DerivedView {
            inner: self.inner,
            offset: self.offset,
            length: self.length,
            shape: self.shape,
        }
    }
}

/// The place and the shape of an embedding table, where it declares both.
pub open spec fn embedding_place(embedding: TensorView) -> Option<
    (u64, u64, TransposedTensorShape),
> {
    match (embedding.offset_bytes, embedding.size_bytes) {
        (Some(offset), Some(length)) => if embedding.shape.len() == 2 {
            Some(
                (
                    offset,
                    length,
                    TransposedTensorShape {
                        out_features: embedding.shape[0],
                        in_features: embedding.shape[1],
                        element_bytes: element_bytes(embedding.storage_dtype),
                    },
                ),
            )
        } else {
            None
        },
        _ => None,
    }
}

/// What is asked of the inner source: for the output head, the embedding at its own
/// place; for all else, the same. An output head at another place is refused.
pub open spec fn forwarded<S>(source: DerivedView<S>, range: RangeView) -> Result<
    RangeView,
    ErrorView,
> {
    if range.identity != LM_HEAD@ {
        Ok(range)
    } else if range.offset == source.offset && range.length == source.length {
        Ok(RangeView { identity: TOKEN_EMBEDDING@, ..range })
    } else {
        Err((IngestionErrorKind::PayloadOutOfBounds, range.identity))
    }
}

/// What is handed out for what the inner source read: the output head is the
/// embedding transposed.
pub open spec fn derived_payload<S>(
    source: DerivedView<S>,
    identity: Seq<char>,
    payload: Result<Seq<u8>, ErrorView>,
) -> Result<Seq<u8>, ErrorView> {
    if identity == LM_HEAD@ {
        match payload {
            Ok(bytes) => relaid_matrix(source.shape, identity, bytes),
            Err(error) => Err(error),
        }
    } else {
        payload
    }
}

fn copy_range(range: &ProductionPayloadRange, identity: &str) -> (copy: ProductionPayloadRange)
    ensures
        copy@ == (RangeView { identity: identity@, ..range@ }),
{
    ProductionPayloadRange {
        identity: String::from_str(identity),
        offset: range.offset,
        length: range.length,
        digest: match &range.digest {
            Some(digest) => Some(digest.clone()),
            None => None,
        },
    }
}

impl<S> DerivedLmHeadPayloadSource<S> {
    #[verifier::type_invariant]
    spec fn well_formed(self) -> bool {
        1 <= self.shape.element_bytes <= 8
    }

    /// Wraps `inner`. `None` where the embedding does not say where it stands, or is
    /// no matrix.
    pub fn new(inner: S, token_embedding: &ModelTensorMetadata) -> (source: Option<Self>)
        ensures
            match embedding_place(token_embedding@) {
                Some((offset, length, shape)) => source matches Some(source) && source@
                    == (DerivedView { inner, offset, length, shape }),
                None => source is None,
            },
    {
        match (token_embedding.offset_bytes, token_embedding.size_bytes) {
            (Some(offset), Some(length)) => {
                if token_embedding.shape.len() != 2 {
                    return None;
                }
                let shape = TransposedTensorShape {
                    out_features: token_embedding.shape[0],
                    in_features: token_embedding.shape[1],
                    element_bytes: token_embedding.storage_dtype.size_bytes(),
                };
                Some(DerivedLmHeadPayloadSource { inner, offset, length, shape })
            },
            _ => None,
        }
    }

    /// The source that payloads come from.
    pub fn inner(&self) -> (inner: &S)
        ensures
            *inner == self@.inner,
    {
        &self.inner
    }

    /// What to ask the inner source for, to serve `range`.
    pub fn inner_range(&self, range: &ProductionPayloadRange) -> (asked: Result<
        ProductionPayloadRange,
        ProductionIngestionError,
    >)
        ensures
            outcome(asked) == forwarded(self@, range@),
    {
        if !same_text(range.identity.as_str(), LM_HEAD) {
            return Ok(copy_range(range, range.identity.as_str()));
        }
        if range.offset == self.offset && range.length == self.length {
            Ok(copy_range(range, TOKEN_EMBEDDING))
        } else {
            Err(
                ProductionIngestionError::PayloadOutOfBounds { identity: range.identity.clone() },
            )
        }
    }

    /// Makes of what the inner source read what is handed out for `identity`.
    pub fn read_payload(
        &self,
        identity: &str,
        payload: Result<Vec<u8>, ProductionIngestionError>,
    ) -> (derived: Result<Vec<u8>, ProductionIngestionError>)
        ensures
            outcome(derived) == derived_payload(self@, identity@, outcome(payload)),
    {
        proof {
            use_type_invariant(self);
        }
        if !same_text(identity, LM_HEAD) {
            return payload;
        }
        match payload {
            Ok(bytes) => transpose_matrix(self.shape, identity, bytes),
            Err(error) => Err(error),
        }
    }
}

} // verus!
