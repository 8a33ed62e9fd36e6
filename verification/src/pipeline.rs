//! Access to an ingested model's payloads, from the stored bytes to what consumers
//! expect.
//!
//! A read goes through three layers: the file's tensors, the transposition of
//! projections, and, for a tied embedding, the derivation of the output head.

use vstd::prelude::*;

use crate::derived_lm_head::{derived_payload, forwarded, DerivedView};
use crate::derived_lm_head::{DerivedLmHeadPayloadSource, LM_HEAD, TOKEN_EMBEDDING};
use crate::error::{outcome, ErrorView, ProductionIngestionError};
use crate::model::{ProductionPayloadRange, RangeView};
use crate::payload::{PayloadRead, ReadView};
use crate::text::same_text;
use crate::weight_layout::{relaid_payload, TransposedTensorShape, TransposingPayloadSource};
use crate::weights::{started, GgufPayloadSource, PayloadSourceView};

verus! {

/// Access to an ingested model's payloads.
#[derive(Debug)]
pub enum IngestedPayloadSource {
    /// The output head is stored.
    Stored(TransposingPayloadSource<GgufPayloadSource>),
    /// The output head is derived from the embedding.
    Tied(DerivedLmHeadPayloadSource<TransposingPayloadSource<GgufPayloadSource>>),
}

/// What an [`IngestedPayloadSource`] knows: the file's tensors, the stored shapes of
/// the projections, and the place and shape of a tied embedding.
#[verifier::ext_equal]
pub struct IngestedView {
    pub file: PayloadSourceView,
    pub projections: Map<Seq<char>, TransposedTensorShape>,
    pub embedding: Option<(u64, u64, TransposedTensorShape)>,
}

impl View for IngestedPayloadSource {
    type V = IngestedView;

    open spec fn view(&self) -> IngestedView {
        match self {
            IngestedPayloadSource::Stored(source) => IngestedView {
                file: source@.inner@,
                projections: source@.original_shapes,
                embedding: None,
            },
            IngestedPayloadSource::Tied(source) => IngestedView {
                file: source@.inner@.inner@,
                projections: source@.inner@.original_shapes,
                embedding: Some((source@.offset, source@.length, source@.shape)),
            },
        }
    }
}

/// The layer that derives the output head, where there is one.
pub open spec fn deriving_layer(source: IngestedView) -> Option<DerivedView<()>> {
    match source.embedding {
        Some((offset, length, shape)) => Some(DerivedView { inner: (), offset, length, shape }),
        None => None,
    }
}

/// The stored tensor that a payload comes from.
pub open spec fn stored_identity(source: IngestedView, identity: Seq<char>) -> Seq<char> {
    if source.embedding is Some && identity == LM_HEAD@ {
        TOKEN_EMBEDDING@
    } else {
        identity
    }
}

/// How the read of a payload begins.
pub open spec fn read_started(source: IngestedView, range: RangeView) -> ReadView {
    match deriving_layer(source) {
        Some(layer) => match forwarded(layer, range) {
            Ok(range) => started(source.file, range),
            Err(error) => ReadView::Finished(Err(error)),
        },
        None => started(source.file, range),
    }
}

/// What is handed out for a payload, given what was read from the file.
pub open spec fn read_finished(
    source: IngestedView,
    identity: Seq<char>,
    payload: Result<Seq<u8>, ErrorView>,
) -> Result<Seq<u8>, ErrorView> {
    let relaid = relaid_payload(source.projections, stored_identity(source, identity), payload);
    match deriving_layer(source) {
        Some(layer) => derived_payload(layer, identity, relaid),
        None => relaid,
    }
}

impl IngestedPayloadSource {
    /// Begins to read the payload of `range`.
    pub fn begin(&self, range: &ProductionPayloadRange) -> (read: PayloadRead)
        ensures
            read@ == read_started(self@, range@),
    {
        match self {
            IngestedPayloadSource::Stored(source) => source.inner().read_payload(range),
            IngestedPayloadSource::Tied(source) => {
                match source.inner_range(range) {
                    Ok(range) => source.inner().inner().read_payload(&range),
                    Err(error) => PayloadRead::Finished(Err(error)),
                }
            },
        }
    }

    /// Makes of what was read from the file what is handed out for `identity`.
    pub fn finish(
        &self,
        identity: &str,
        payload: Result<Vec<u8>, ProductionIngestionError>,
    ) -> (bytes: Result<Vec<u8>, ProductionIngestionError>)
        ensures
            outcome(bytes) == read_finished(self@, identity@, outcome(payload)),
    {
        match self {
            IngestedPayloadSource::Stored(source) => source.read_payload(identity, payload),
            IngestedPayloadSource::Tied(source) => {
                let stored: &str = if same_text(identity, LM_HEAD) {
                    TOKEN_EMBEDDING
                } else {
                    identity
                };
                let relaid = source.inner().read_payload(stored, payload);
                source.read_payload(identity, relaid)
            },
        }
    }
}

} // verus!
