//! What holds of every ingested model.

use vstd::prelude::*;

use crate::config::normalized_parameters_are_consistent;
use crate::dequantize::{Q4_K_BLOCK_BYTES, Q5_K_BLOCK_BYTES, Q8_0_BLOCK_BYTES};
use crate::dequantize::{Q8_0_BLOCK_ELEMENTS, QK_BLOCK_ELEMENTS};
use crate::derived_lm_head::{embedding_place, first_named, has_named, lemma_first_named};
use crate::derived_lm_head::{tied_head, LM_HEAD, TOKEN_EMBEDDING};
use crate::error::{ErrorView, IngestionErrorKind};
use crate::identity::is_identity;
use crate::ingestor::{completed, display_name, prepared, sanitized_names_are_identities};
use crate::ingestor::{has_attention_bias, names_attention_bias, PreparedView};
use crate::metadata::MetadataView;
use crate::model::{element_bytes, is_block_format, is_consistent};
use crate::model::{ArtifactFormat, ModelArtifactKind, ModelDType};
use crate::model::{DigestView, RangeView, TensorView};
use crate::model::MODEL_ARTIFACT_SCHEMA_VERSION;
use crate::naming::{bias_field, bias_name, canonical_name, canonical_names_are_distinct};
use crate::naming::{layer_name, lemma_origin, top_level_field, weight_field, weight_name};
use crate::payload::{delivered, following, EventView, ReadView};
use crate::pipeline::{read_finished, read_started, IngestedView};
use crate::text::{denotes_u64, ends_with};
use crate::transpose::transposed;
use crate::weight_layout::{all_relaid, is_projection, projection_shapes, relaid};
use crate::weight_layout::{names_projection, top_level_projections, TransposedTensorShape};
use crate::weights::{declared_ranges_are_accepted, discovered, discovery_describes_every_tensor};
use crate::weights::{counted, delivered_payloads_have_declared_length, discovered_tensor};
use crate::weights::{location_of, names_differ, other_ranges_are_refused, source_of, started};
use crate::weights::PayloadSourceView;

verus! {

/// The tensors that were discovered in a file.
pub open spec fn discovered_tensors(raw: Seq<TensorView>) -> Seq<TensorView> {
    discovered(raw)->Ok_0.0
}

/// Tensors with different names have different canonical names.
pub(crate) proof fn lemma_discovered_names_differ(raw: Seq<TensorView>)
    requires
        names_differ(raw),
        discovered(raw) is Ok,
    ensures
        names_differ(discovered_tensors(raw)),
{
    discovery_describes_every_tensor(raw);
    let tensors = discovered_tensors(raw);
    assert forall|i: int, j: int| 0 <= i < j < tensors.len() implies (#[trigger] tensors[i]).name
        != (#[trigger] tensors[j]).name by {
        if tensors[i].name == tensors[j].name {
            canonical_names_are_distinct(raw[i].name, raw[j].name);
        }
        assert(raw[i].name != raw[j].name);
    }
}

/// The embedding table is no projection, and neither is it the output head.
pub(crate) proof fn lemma_embedding_is_no_projection()
    ensures
        !names_projection(TOKEN_EMBEDDING@),
        TOKEN_EMBEDDING@ != LM_HEAD@,
        names_projection(LM_HEAD@),
{
    top_level_projections("token_embd"@);
    reveal_strlit("token_embd");
    reveal_strlit("output");
    reveal_strlit("token_embedding");
    reveal_strlit("lm_head");
    assert("token_embd"@.len() == 10 && "output"@.len() == 6);
    assert("token_embedding"@.len() == 15 && "lm_head"@.len() == 7);
}

/// Among tensors with different names, the projections are known by their names, and nothing
/// else is.
pub(crate) proof fn lemma_projection_shapes(tensors: Seq<TensorView>)
    ensures
        forall|name: Seq<char>| #[trigger]
            projection_shapes(tensors).contains_key(name) ==> names_projection(name) && has_named(
                tensors,
                name,
            ),
        names_differ(tensors) ==> forall|at: int|
            0 <= at < tensors.len() ==> {
                &&& is_projection(#[trigger] tensors[at]) ==> projection_shapes(tensors).get(
                    tensors[at].name,
                ) == Some(
                    TransposedTensorShape {
                        out_features: tensors[at].shape[0],
                        in_features: tensors[at].shape[1],
                        element_bytes: element_bytes(tensors[at].storage_dtype),
                    },
                )
                &&& !is_projection(tensors[at]) ==> !projection_shapes(tensors).contains_key(
                    tensors[at].name,
                )
            },
    decreases tensors.len(),
{
    if tensors.len() > 0 {
        let shorter = tensors.drop_last();
        let last = tensors.len() - 1;
        lemma_projection_shapes(shorter);
        let shapes = projection_shapes(tensors);
        assert forall|name: Seq<char>| #[trigger] shapes.contains_key(name) implies names_projection(
            name,
        ) && has_named(tensors, name) by {
            if projection_shapes(shorter).contains_key(name) {
                let at = choose|at: int|
                    0 <= at < shorter.len() && (#[trigger] shorter[at]).name == name;
                assert(tensors[at].name == name);
            } else {
                assert(tensors[last].name == name);
            }
        }
        if names_differ(tensors) {
            assert(names_differ(shorter)) by {
                assert forall|i: int, j: int| 0 <= i < j < shorter.len() implies (
                #[trigger] shorter[i]).name != (#[trigger] shorter[j]).name by {
                    assert(shorter[i] == tensors[i] && shorter[j] == tensors[j]);
                }
            }
            assert forall|at: int| 0 <= at < tensors.len() implies {
                &&& is_projection(#[trigger] tensors[at]) ==> shapes.get(tensors[at].name) == Some(
                    TransposedTensorShape {
                        out_features: tensors[at].shape[0],
                        in_features: tensors[at].shape[1],
                        element_bytes: element_bytes(tensors[at].storage_dtype),
                    },
                )
                &&& !is_projection(tensors[at]) ==> !shapes.contains_key(tensors[at].name)
            } by {
                if at < last {
                    assert(tensors[at] == shorter[at]);
                    assert(tensors[at].name != tensors[last].name);
                } else {
                    if projection_shapes(shorter).contains_key(tensors[last].name) {
                        let i = choose|i: int|
                            0 <= i < shorter.len() && (#[trigger] shorter[i]).name
                                == tensors[last].name;
                        assert(tensors[i].name == tensors[last].name);
                    }
                }
            }
        }
    }
}

/// Relaying tensors keeps their names.
pub(crate) proof fn lemma_relaid_names(tensors: Seq<TensorView>, name: Seq<char>)
    ensures
        has_named(all_relaid(tensors), name) == has_named(tensors, name),
        !names_projection(name) ==> first_named(all_relaid(tensors), name) == first_named(
            tensors,
            name,
        ),
    decreases tensors.len(),
{
    let relaid_tensors = all_relaid(tensors);
    if has_named(tensors, name) {
        let at = choose|at: int| 0 <= at < tensors.len() && (#[trigger] tensors[at]).name == name;
        assert(relaid_tensors[at].name == name);
    }
    if has_named(relaid_tensors, name) {
        let at = choose|at: int|
            0 <= at < relaid_tensors.len() && (#[trigger] relaid_tensors[at]).name == name;
        assert(tensors[at].name == name);
    }
    if tensors.len() > 0 {
        lemma_relaid_names(tensors.skip(1), name);
        assert(all_relaid(tensors).skip(1) =~= all_relaid(tensors.skip(1)));
        assert(all_relaid(tensors)[0] == relaid(tensors[0]));
    }
}

/// Every ingested model has an output head and consistent parameters. Its vocabulary is as
/// large as its embedding table has rows, and its embedding counts as tied exactly where no
/// output head was discovered; the output head is then the last tensor, with the embedding's
/// place and its dimensions swapped.
pub proof fn ingested_models_have_an_output_head(
    raw: Seq<TensorView>,
    tensor_data_start: u64,
    metadata: MetadataView,
)
    ensures
        prepared(raw, tensor_data_start, metadata) matches Ok(model) ==> {
            let tensors = discovered_tensors(raw);
            let embedding = first_named(tensors, TOKEN_EMBEDDING@).unwrap();
            &&& has_named(model.tensors, LM_HEAD@)
            &&& is_consistent(model.architecture_config)
            &&& first_named(tensors, TOKEN_EMBEDDING@) is Some
            &&& model.architecture_config.vocab_size == embedding.shape[0]
            &&& model.architecture_config.tie_word_embeddings == !has_named(tensors, LM_HEAD@)
            &&& model.architecture_config.tie_word_embeddings ==> {
                &&& model.tensors == all_relaid(tensors).push(tied_head(embedding))
                &&& tied_head(embedding).shape == seq![embedding.shape[1], embedding.shape[0]]
                &&& tied_head(embedding).offset_bytes == embedding.offset_bytes
                &&& tied_head(embedding).size_bytes == embedding.size_bytes
            }
            &&& !model.architecture_config.tie_word_embeddings ==> model.tensors == all_relaid(
                tensors,
            )
        },
{
    if let Ok(model) = prepared(raw, tensor_data_start, metadata) {
        let tensors = discovered_tensors(raw);
        let embedding = first_named(tensors, TOKEN_EMBEDDING@).unwrap();
        normalized_parameters_are_consistent(metadata, embedding.shape[0]);
        lemma_embedding_is_no_projection();
        lemma_relaid_names(tensors, TOKEN_EMBEDDING@);
        lemma_relaid_names(tensors, LM_HEAD@);
        if !has_named(tensors, LM_HEAD@) {
            let last = model.tensors.len() - 1;
            assert(model.tensors[last].name == LM_HEAD@);
            assert(embedding_place(embedding) is Some);
            assert(embedding.shape.reverse() =~= seq![embedding.shape[1], embedding.shape[0]]);
        }
    }
}

/// No tensor of an ingested model is in a block format: whatever the file packed is
/// declared as what it unpacks to.
pub proof fn ingested_tensors_are_unpacked(
    raw: Seq<TensorView>,
    tensor_data_start: u64,
    metadata: MetadataView,
)
    ensures
        prepared(raw, tensor_data_start, metadata) matches Ok(model) ==> forall|at: int|
            0 <= at < model.tensors.len() ==> !is_block_format(
                (#[trigger] model.tensors[at]).storage_dtype,
            ),
{
    if let Ok(model) = prepared(raw, tensor_data_start, metadata) {
        ingested_models_have_an_output_head(raw, tensor_data_start, metadata);
        discovery_describes_every_tensor(raw);
        let tensors = discovered_tensors(raw);
        lemma_first_named(tensors, TOKEN_EMBEDDING@);
        let embedding = first_named(tensors, TOKEN_EMBEDDING@).unwrap();
        let place = choose|at: int| 0 <= at < tensors.len() && tensors[at] == embedding;
        assert(!is_block_format(tensors[place].storage_dtype));
        assert forall|at: int| 0 <= at < model.tensors.len() implies !is_block_format(
            (#[trigger] model.tensors[at]).storage_dtype,
        ) by {
            if at < tensors.len() {
                assert(model.tensors[at] == relaid(tensors[at]));
                assert(!is_block_format(tensors[at].storage_dtype));
            }
        }
    }
}

/// In a file whose tensors have different names, every tensor of the ingested model, a derived
/// output head among them, can be read at the place and with the size that the model declares
/// for it.
pub proof fn ingested_tensors_can_be_read(
    raw: Seq<TensorView>,
    tensor_data_start: u64,
    metadata: MetadataView,
    at: int,
    digest: Option<DigestView>,
)
    requires
        names_differ(raw),
        prepared(raw, tensor_data_start, metadata) matches Ok(model) && 0 <= at
            < model.tensors.len(),
    ensures
        prepared(raw, tensor_data_start, metadata) matches Ok(model) ==> {
            let tensor = model.tensors[at];
            &&& tensor.offset_bytes is Some
            &&& tensor.size_bytes is Some
            &&& read_started(
                model.payload_source,
                RangeView {
                    identity: tensor.name,
                    offset: tensor.offset_bytes.unwrap(),
                    length: tensor.size_bytes.unwrap(),
                    digest,
                },
            ) matches ReadView::Open(request) && request.digest == digest
                && request.tensor_data_start == tensor_data_start
                && request.location.file_offset == tensor.offset_bytes.unwrap()
                && request.location.declared_length == tensor.size_bytes.unwrap()
        },
{
    let model = prepared(raw, tensor_data_start, metadata)->Ok_0;
    ingested_models_have_an_output_head(raw, tensor_data_start, metadata);
    discovery_describes_every_tensor(raw);
    lemma_embedding_is_no_projection();
    let tensors = discovered_tensors(raw);
    lemma_relaid_names(tensors, TOKEN_EMBEDDING@);
    let tied = !has_named(tensors, LM_HEAD@);
    if at < tensors.len() {
        declared_ranges_are_accepted(raw, tensor_data_start, at, digest);
        assert(model.tensors[at] == relaid(tensors[at]));
        assert(relaid(tensors[at]).name == tensors[at].name);
        if tied {
            assert(tensors[at].name != LM_HEAD@);
        }
    } else {
        lemma_first_named(tensors, TOKEN_EMBEDDING@);
        let embedding = first_named(tensors, TOKEN_EMBEDDING@).unwrap();
        let place = choose|i: int| 0 <= i < tensors.len() && tensors[i] == embedding;
        declared_ranges_are_accepted(raw, tensor_data_start, place, digest);
        assert(model.tensors[at] == tied_head(embedding));
    }
}

/// What is read for a projection of an ingested model is transposed as a whole: the file's
/// `[out_features, in_features]` becomes `[in_features, out_features]`, element by element.
/// What was packed is unpacked by then, so an element is never less than it was declared.
pub proof fn projections_are_transposed(
    raw: Seq<TensorView>,
    tensor_data_start: u64,
    metadata: MetadataView,
    at: int,
    bytes: Seq<u8>,
)
    requires
        names_differ(raw),
        prepared(raw, tensor_data_start, metadata) is Ok,
        0 <= at < raw.len(),
        ({
            let tensor = discovered_tensors(raw)[at];
            &&& is_projection(tensor)
            &&& tensor.shape[0] * tensor.shape[1] <= u64::MAX
            &&& bytes.len() == tensor.shape[0] * tensor.shape[1] * element_bytes(
                tensor.storage_dtype,
            )
        }),
    ensures
        prepared(raw, tensor_data_start, metadata) matches Ok(model) ==> {
            let tensor = discovered_tensors(raw)[at];
            read_finished(model.payload_source, tensor.name, Ok(bytes)) == Ok::<_, ErrorView>(
                transposed(
                    bytes,
                    tensor.shape[0] as int,
                    tensor.shape[1] as int,
                    element_bytes(tensor.storage_dtype) as int,
                ),
            )
        },
{
    let tensors = discovered_tensors(raw);
    discovery_describes_every_tensor(raw);
    lemma_discovered_names_differ(raw);
    lemma_projection_shapes(tensors);
    lemma_embedding_is_no_projection();
    assert(is_projection(tensors[at]));
    assert(has_named(tensors, tensors[at].name));
}

/// What is read for any other tensor of an ingested model is handed out unchanged.
pub proof fn other_tensors_are_unchanged(
    raw: Seq<TensorView>,
    tensor_data_start: u64,
    metadata: MetadataView,
    at: int,
    bytes: Seq<u8>,
)
    requires
        names_differ(raw),
        prepared(raw, tensor_data_start, metadata) is Ok,
        0 <= at < raw.len(),
        !is_projection(discovered_tensors(raw)[at]),
    ensures
        prepared(raw, tensor_data_start, metadata) matches Ok(model) ==> read_finished(
            model.payload_source,
            discovered_tensors(raw)[at].name,
            Ok(bytes),
        ) == Ok::<_, ErrorView>(bytes),
{
    let tensors = discovered_tensors(raw);
    discovery_describes_every_tensor(raw);
    lemma_discovered_names_differ(raw);
    lemma_projection_shapes(tensors);
    assert(!is_projection(tensors[at]));
    assert(has_named(tensors, tensors[at].name));
}

/// What is read for the output head of a tied embedding is the embedding, transposed.
pub proof fn tied_heads_are_transposed_embeddings(
    raw: Seq<TensorView>,
    tensor_data_start: u64,
    metadata: MetadataView,
    bytes: Seq<u8>,
)
    requires
        prepared(raw, tensor_data_start, metadata) matches Ok(model)
            && model.architecture_config.tie_word_embeddings,
        ({
            let embedding = first_named(discovered_tensors(raw), TOKEN_EMBEDDING@).unwrap();
            &&& embedding.shape[0] * embedding.shape[1] <= u64::MAX
            &&& bytes.len() == embedding.shape[0] * embedding.shape[1] * element_bytes(
                embedding.storage_dtype,
            )
        }),
    ensures
        prepared(raw, tensor_data_start, metadata) matches Ok(model) ==> {
            let embedding = first_named(discovered_tensors(raw), TOKEN_EMBEDDING@).unwrap();
            read_finished(model.payload_source, LM_HEAD@, Ok(bytes)) == Ok::<_, ErrorView>(
                transposed(
                    bytes,
                    embedding.shape[0] as int,
                    embedding.shape[1] as int,
                    element_bytes(embedding.storage_dtype) as int,
                ),
            )
        },
{
    let tensors = discovered_tensors(raw);
    ingested_models_have_an_output_head(raw, tensor_data_start, metadata);
    lemma_embedding_is_no_projection();
    lemma_relaid_names(tensors, TOKEN_EMBEDDING@);
    lemma_projection_shapes(tensors);
}

/// Where a file stands after a step of a read: where it was sought, or at its start.
pub open spec fn position(read: ReadView) -> int {
    match read {
        ReadView::Seek { start, .. } => start as int,
        _ => 0,
    }
}

/// What a file that stands at a position answers to a step of a read: the bytes that are to be
/// loaded, that the file ends before they do, with the text `short`, or that the step was done.
pub open spec fn answer(
    file: Seq<u8>,
    position: int,
    short: Seq<char>,
    read: ReadView,
) -> EventView {
    match read {
        ReadView::Load { length, .. } => if position + length <= file.len() {
            EventView::Loaded(file.subrange(position, position + length))
        } else {
            EventView::Failed(short)
        },
        _ => EventView::Done,
    }
}

/// How a read ends whose every step is answered out of a file.
pub open spec fn answered(open: ReadView, file: Seq<u8>, short: Seq<char>) -> Option<
    Result<Seq<u8>, ErrorView>,
> {
    let seek = following(open, answer(file, 0, short, open));
    let at = position(seek);
    let load = following(seek, answer(file, at, short, seek));
    let loaded = following(load, answer(file, at, short, load));
    match following(loaded, answer(file, at, short, loaded)) {
        ReadView::Finished(result) => Some(result),
        _ => None,
    }
}

/// What comes of a read from an ingested model that is answered out of a file, step by step to
/// its end.
pub open spec fn read_from(
    source: IngestedView,
    range: RangeView,
    file: Seq<u8>,
    short: Seq<char>,
) -> Option<Result<Seq<u8>, ErrorView>> {
    match answered(read_started(source, range), file, short) {
        Some(result) => Some(read_finished(source, range.identity, result)),
        None => None,
    }
}

/// The bytes of a tensor in a file whose tensors start at `tensor_data_start`.
pub open spec fn stored_bytes(
    tensor: TensorView,
    tensor_data_start: u64,
    file: Seq<u8>,
) -> Seq<u8> {
    let start = tensor_data_start + tensor.offset_bytes.unwrap();
    file.subrange(start, start + tensor.size_bytes.unwrap())
}

/// Whether a tensor is stored whole: the file goes on to its end, and it takes the bytes that
/// its elements need.
pub open spec fn is_stored_whole(
    tensor: TensorView,
    tensor_data_start: u64,
    file: Seq<u8>,
) -> bool {
    let size = tensor.size_bytes.unwrap();
    &&& tensor.offset_bytes is Some
    &&& tensor.size_bytes is Some
    &&& tensor_data_start + tensor.offset_bytes.unwrap() + size <= file.len()
    &&& counted(tensor.shape.reverse()) matches Some(elements) && size == match tensor.storage_dtype {
        ModelDType::Q8 => elements / Q8_0_BLOCK_ELEMENTS * Q8_0_BLOCK_BYTES,
        ModelDType::Q4K => elements / QK_BLOCK_ELEMENTS * Q4_K_BLOCK_BYTES,
        ModelDType::Q5K => elements / QK_BLOCK_ELEMENTS * Q5_K_BLOCK_BYTES,
        dtype => elements * element_bytes(dtype),
    }
}

/// The elements of a tensor, row by row, out of the file: unpacked where they are packed.
pub open spec fn stored_elements(
    tensor: TensorView,
    tensor_data_start: u64,
    file: Seq<u8>,
) -> Seq<u8> {
    delivered(source_of(tensor.storage_dtype), stored_bytes(tensor, tensor_data_start, file))
}

/// Whether a read asks for a discovered tensor as it was declared: by its name, its place and its
/// size. Of tensors with one name, it is the last that can be asked for.
pub open spec fn asks_for(tensors: Seq<TensorView>, range: RangeView, at: int) -> bool {
    &&& 0 <= at < tensors.len()
    &&& tensors[at].name == range.identity
    &&& tensors[at].offset_bytes == Some(range.offset)
    &&& tensors[at].size_bytes == Some(range.length)
    &&& forall|later: int|
        at < later < tensors.len() ==> (#[trigger] tensors[later]).name != range.identity
}

/// What is known under a name is the location of the last tensor that has it.
proof fn lemma_last_located(raw: Seq<TensorView>, name: Seq<char>)
    ensures
        discovered(raw) matches Ok((tensors, locations)) ==> {
            &&& locations.contains_key(name) ==> exists|at: int|
                0 <= at < tensors.len() && (#[trigger] tensors[at]).name == name
                    && locations[name] == location_of(raw[at]) && forall|later: int|
                    at < later < tensors.len() ==> (#[trigger] tensors[later]).name != name
            &&& !locations.contains_key(name) ==> forall|at: int|
                0 <= at < tensors.len() ==> (#[trigger] tensors[at]).name != name
        },
    decreases raw.len(),
{
    if raw.len() > 0 && discovered(raw) is Ok {
        let shorter = raw.drop_last();
        let last = raw.len() - 1;
        lemma_last_located(shorter, name);
        discovery_describes_every_tensor(raw);
        discovery_describes_every_tensor(shorter);
        let (tensors, locations) = discovered(raw)->Ok_0;
        let (before, known) = discovered(shorter)->Ok_0;
        assert(tensors.drop_last() =~= before);
        if tensors[last].name == name {
            assert(locations[name] == location_of(raw[last]));
        } else if known.contains_key(name) {
            let at = choose|at: int|
                0 <= at < before.len() && (#[trigger] before[at]).name == name && known[name]
                    == location_of(shorter[at]) && forall|later: int|
                    at < later < before.len() ==> (#[trigger] before[later]).name != name;
            assert(tensors[at] == before[at] && raw[at] == shorter[at]);
            assert forall|later: int| at < later < tensors.len() implies (
            #[trigger] tensors[later]).name != name by {
                if later < last {
                    assert(tensors[later] == before[later]);
                }
            }
        } else {
            assert forall|at: int| 0 <= at < tensors.len() implies (#[trigger] tensors[at]).name
                != name by {
                if at < last {
                    assert(tensors[at] == before[at]);
                }
            }
        }
    }
}

/// What a read gives that asks for a tensor as it was declared: refused where no file has such a
/// place or the machine holds no such length, unavailable where the file ends before the tensor
/// does, and otherwise exactly that tensor, its range of the file, unpacked where it is packed.
pub open spec fn declared_read(
    tensor: TensorView,
    tensor_data_start: u64,
    identity: Seq<char>,
    file: Seq<u8>,
    short: Seq<char>,
) -> Result<Seq<u8>, ErrorView> {
    let start = tensor_data_start + tensor.offset_bytes.unwrap();
    let size = tensor.size_bytes.unwrap();
    if start > u64::MAX || size > usize::MAX {
        Err((IngestionErrorKind::PayloadOutOfBounds, identity))
    } else if start + size > file.len() {
        Err((IngestionErrorKind::PayloadUnavailable, identity + ": "@ + short))
    } else {
        Ok(stored_elements(tensor, tensor_data_start, file))
    }
}

/// What every read from every file gives. One that asks for no tensor as it was declared, for
/// part of one or for the stored length of a packed one, is refused. One that does gives what is
/// declared: from a file that holds the tensor, and is no longer than what fits in memory,
/// exactly its range, unpacked where it is packed. The text `short` is that of the failure to
/// load past the file's end.
pub proof fn reads_deliver_declared_ranges(
    raw: Seq<TensorView>,
    tensor_data_start: u64,
    range: RangeView,
    file: Seq<u8>,
    short: Seq<char>,
)
    ensures
        discovered(raw) matches Ok((tensors, locations)) ==> {
            let read = answered(
                started(PayloadSourceView { tensor_data_start, locations }, range),
                file,
                short,
            );
            &&& (forall|at: int| !#[trigger] asks_for(tensors, range, at)) ==> read == Some(
                Err::<Seq<u8>, _>((IngestionErrorKind::PayloadOutOfBounds, range.identity)),
            )
            &&& forall|at: int| #[trigger]
                asks_for(tensors, range, at) ==> {
                    let end = tensor_data_start + range.offset + raw[at].size_bytes.unwrap();
                    &&& read == Some(
                        declared_read(raw[at], tensor_data_start, range.identity, file, short),
                    )
                    &&& end <= file.len() <= usize::MAX ==> read == Some(
                        Ok::<_, ErrorView>(stored_elements(raw[at], tensor_data_start, file)),
                    )
                    &&& end <= file.len() <= usize::MAX && !is_block_format(raw[at].storage_dtype)
                        ==> read == Some(
                        Ok::<_, ErrorView>(
                            file.subrange(
                                tensor_data_start + range.offset,
                                tensor_data_start + range.offset + range.length,
                            ),
                        ),
                    )
                }
        },
{
    if let Ok((tensors, locations)) = discovered(raw) {
        let source = PayloadSourceView { tensor_data_start, locations };
        let name = range.identity;
        discovery_describes_every_tensor(raw);
        lemma_last_located(raw, name);
        if locations.contains_key(name) {
            let last = choose|at: int|
                0 <= at < tensors.len() && (#[trigger] tensors[at]).name == name && locations[name]
                    == location_of(raw[at]) && forall|later: int|
                    at < later < tensors.len() ==> (#[trigger] tensors[later]).name != name;
            let location = location_of(raw[last]);
            assert(discovered_tensor(raw[last]) == Ok::<_, ErrorView>((tensors[last], location)));
            assert forall|at: int| #[trigger] asks_for(tensors, range, at) implies at == last by {
                assert(tensors[at].name == name);
            }
            if range.offset == location.file_offset && range.length == location.declared_length {
                assert(asks_for(tensors, range, last));
            } else {
                other_ranges_are_refused(source, range);
            }
        } else {
            other_ranges_are_refused(source, range);
        }
    }
}

/// Whether a tensor's name in the file is that of the bias of an attention input.
pub open spec fn is_attention_bias(raw: Seq<char>) -> bool {
    exists|layer: Seq<char>, field: Seq<char>| #[trigger]
        bias_name(layer, field) == raw && denotes_u64(layer) && (field == "attn_q"@ || field
            == "attn_k"@ || field == "attn_v"@)
}

/// Among the names that are recognized, those of the biases of attention inputs are told by
/// their canonical names.
proof fn lemma_attention_bias(raw: Seq<char>)
    ensures
        canonical_name(raw) matches Ok(name) ==> names_attention_bias(name) == is_attention_bias(
            raw,
        ),
{
    if let Ok(name) = canonical_name(raw) {
        lemma_origin(raw);
        reveal_strlit("self_attn.q_bias");
        reveal_strlit("self_attn.k_bias");
        reveal_strlit("self_attn.v_bias");
        reveal_strlit(".weight");
        reveal_strlit(".bias");
        if names_attention_bias(name) {
            assert(name[name.len() - 1] == 's') by {
                if ends_with(name, "self_attn.q_bias"@) {
                    assert(name.skip(name.len() - 16)[15] == 's');
                } else if ends_with(name, "self_attn.k_bias"@) {
                    assert(name.skip(name.len() - 16)[15] == 's');
                } else {
                    assert(name.skip(name.len() - 16)[15] == 's');
                }
            }
        }
        if is_attention_bias(raw) {
            assert(raw[raw.len() - 1] == 's');
        }
        if exists|top: Seq<char>| #[trigger]
            top_level_field(top) == Some(name) && raw == top + ".weight"@ {
            reveal_strlit("token_embedding");
            reveal_strlit("final_norm");
            reveal_strlit("lm_head");
            assert(name[name.len() - 1] == 'g' || name[name.len() - 1] == 'm' || name[name.len()
                - 1] == 'd');
            assert(raw[raw.len() - 1] == 't');
        } else if exists|layer: Seq<char>, field: Seq<char>| #[trigger]
            weight_name(layer, field) == raw && denotes_u64(layer) && weight_field(field) is Some
                && name == layer_name(layer, weight_field(field).unwrap()) {
            let (layer, field) = choose|layer: Seq<char>, field: Seq<char>| #[trigger]
                weight_name(layer, field) == raw && denotes_u64(layer) && weight_field(field)
                    is Some && name == layer_name(layer, weight_field(field).unwrap());
            let canonical = weight_field(field).unwrap();
            reveal_strlit("input_norm");
            reveal_strlit("post_attn_norm");
            reveal_strlit("self_attn.q_proj");
            reveal_strlit("self_attn.k_proj");
            reveal_strlit("self_attn.v_proj");
            reveal_strlit("self_attn.o_proj");
            reveal_strlit("mlp.gate_proj");
            reveal_strlit("mlp.up_proj");
            reveal_strlit("mlp.down_proj");
            assert(canonical.last() == 'm' || canonical.last() == 'j');
            assert(name[name.len() - 1] == canonical.last());
            assert(raw[raw.len() - 1] == 't');
        } else {
            let (layer, field) = choose|layer: Seq<char>, field: Seq<char>| #[trigger]
                bias_name(layer, field) == raw && denotes_u64(layer) && bias_field(field) is Some
                    && name == layer_name(layer, bias_field(field).unwrap());
            let canonical = bias_field(field).unwrap();
            assert(name.skip(name.len() - 16) =~= canonical);
            assert(is_attention_bias(raw));
        }
    }
}

/// A model has attention biases exactly where the file has one: for the queries, the keys or the
/// values of some layer. Nothing that the metadata declares has a say in it.
pub proof fn attention_bias_is_read_off_the_tensors(
    raw: Seq<TensorView>,
    tensor_data_start: u64,
    metadata: MetadataView,
)
    ensures
        prepared(raw, tensor_data_start, metadata) matches Ok(model) ==> (
        model.architecture_config.attention_bias <==> exists|at: int|
            0 <= at < raw.len() && is_attention_bias((#[trigger] raw[at]).name)),
{
    if let Ok(model) = prepared(raw, tensor_data_start, metadata) {
        let tensors = discovered_tensors(raw);
        discovery_describes_every_tensor(raw);
        if has_attention_bias(tensors) {
            let at = choose|at: int|
                0 <= at < tensors.len() && names_attention_bias((#[trigger] tensors[at]).name);
            lemma_attention_bias(raw[at].name);
            assert(is_attention_bias(raw[at].name));
        }
        if exists|at: int| 0 <= at < raw.len() && is_attention_bias((#[trigger] raw[at]).name) {
            let at = choose|at: int|
                0 <= at < raw.len() && is_attention_bias((#[trigger] raw[at]).name);
            lemma_attention_bias(raw[at].name);
            assert(names_attention_bias(tensors[at].name));
        }
    }
}

/// What is unpacked of a tensor that is stored whole takes the bytes that were declared; for a
/// matrix, those of its rows and columns.
proof fn lemma_stored_elements(raw: TensorView, tensor_data_start: u64, file: Seq<u8>)
    requires
        discovered_tensor(raw) is Ok,
        is_stored_whole(raw, tensor_data_start, file),
    ensures
        ({
            let (tensor, location) = discovered_tensor(raw)->Ok_0;
            let elements = stored_elements(raw, tensor_data_start, file);
            &&& elements.len() == location.declared_length
            &&& tensor.shape.len() == 2 ==> {
                &&& tensor.shape[0] * tensor.shape[1] <= u64::MAX
                &&& elements.len() == tensor.shape[0] * tensor.shape[1] * element_bytes(
                    tensor.storage_dtype,
                )
            }
        }),
{
    let (tensor, location) = discovered_tensor(raw)->Ok_0;
    let shape = raw.shape.reverse();
    let count = counted(shape).unwrap();
    delivered_payloads_have_declared_length(raw, stored_bytes(raw, tensor_data_start, file));
    if shape.len() == 2 {
        let first = shape.drop_last();
        assert(first.drop_last().len() == 0);
        assert(counted(first.drop_last()) == Some(1u64));
        assert(first.last() == shape[0]);
        assert(1u64 * first.last() == shape[0]);
        assert(counted(first) == Some(shape[0]));
        assert(count == shape[0] * shape[1]);
    }
}

/// What is read back of a file, for every tensor in it: a read at the place and with the size
/// that the model declares gives the tensor's elements, unpacked where they were packed, then
/// transposed where the tensor is a projection. It gives as many bytes as are declared. A
/// declared digest was checked on the way.
pub proof fn reads_give_back_the_tensors(
    raw: Seq<TensorView>,
    tensor_data_start: u64,
    metadata: MetadataView,
    at: int,
    digest: Option<DigestView>,
    file: Seq<u8>,
    short: Seq<char>,
)
    requires
        names_differ(raw),
        prepared(raw, tensor_data_start, metadata) is Ok,
        0 <= at < raw.len(),
        is_stored_whole(raw[at], tensor_data_start, file),
        file.len() <= usize::MAX,
    ensures
        prepared(raw, tensor_data_start, metadata) matches Ok(model) ==> {
            let tensor = model.tensors[at];
            let elements = stored_elements(raw[at], tensor_data_start, file);
            let payload = if is_projection(tensor) {
                transposed(
                    elements,
                    tensor.shape[1] as int,
                    tensor.shape[0] as int,
                    element_bytes(tensor.storage_dtype) as int,
                )
            } else {
                elements
            };
            &&& read_from(
                model.payload_source,
                RangeView {
                    identity: tensor.name,
                    offset: tensor.offset_bytes.unwrap(),
                    length: tensor.size_bytes.unwrap(),
                    digest,
                },
                file,
                short,
            ) == Some(Ok::<_, ErrorView>(payload))
            &&& payload.len() == tensor.size_bytes.unwrap()
        },
{
    let model = prepared(raw, tensor_data_start, metadata)->Ok_0;
    let tensors = discovered_tensors(raw);
    discovery_describes_every_tensor(raw);
    ingested_models_have_an_output_head(raw, tensor_data_start, metadata);
    ingested_tensors_can_be_read(raw, tensor_data_start, metadata, at, digest);
    declared_ranges_are_accepted(raw, tensor_data_start, at, digest);
    assert(model.tensors[at] == relaid(tensors[at]));
    lemma_stored_elements(raw[at], tensor_data_start, file);
    let elements = stored_elements(raw[at], tensor_data_start, file);
    if is_projection(tensors[at]) {
        projections_are_transposed(raw, tensor_data_start, metadata, at, elements);
    } else {
        other_tensors_are_unchanged(raw, tensor_data_start, metadata, at, elements);
    }
}

/// What is read back for the output head of a tied embedding: the elements of the embedding,
/// unpacked where they were packed, then transposed.
pub proof fn reads_give_back_tied_heads(
    raw: Seq<TensorView>,
    tensor_data_start: u64,
    metadata: MetadataView,
    at: int,
    digest: Option<DigestView>,
    file: Seq<u8>,
    short: Seq<char>,
)
    requires
        names_differ(raw),
        prepared(raw, tensor_data_start, metadata) matches Ok(model)
            && model.architecture_config.tie_word_embeddings,
        0 <= at < raw.len(),
        discovered_tensors(raw)[at].name == TOKEN_EMBEDDING@,
        is_stored_whole(raw[at], tensor_data_start, file),
        file.len() <= usize::MAX,
    ensures
        prepared(raw, tensor_data_start, metadata) matches Ok(model) ==> {
            let head = model.tensors.last();
            &&& head.name == LM_HEAD@
            &&& read_from(
                model.payload_source,
                RangeView {
                    identity: LM_HEAD@,
                    offset: head.offset_bytes.unwrap(),
                    length: head.size_bytes.unwrap(),
                    digest,
                },
                file,
                short,
            ) == Some(
                Ok::<_, ErrorView>(
                    transposed(
                        stored_elements(raw[at], tensor_data_start, file),
                        head.shape[1] as int,
                        head.shape[0] as int,
                        element_bytes(head.storage_dtype) as int,
                    ),
                ),
            )
        },
{
    let model = prepared(raw, tensor_data_start, metadata)->Ok_0;
    let tensors = discovered_tensors(raw);
    let last = model.tensors.len() - 1;
    discovery_describes_every_tensor(raw);
    lemma_discovered_names_differ(raw);
    ingested_models_have_an_output_head(raw, tensor_data_start, metadata);
    lemma_first_named(tensors, TOKEN_EMBEDDING@);
    let embedding = first_named(tensors, TOKEN_EMBEDDING@).unwrap();
    let place = choose|i: int| 0 <= i < tensors.len() && tensors[i] == embedding;
    assert(place == at) by {
        assert(tensors[place].name == tensors[at].name);
    }
    ingested_tensors_can_be_read(raw, tensor_data_start, metadata, last, digest);
    declared_ranges_are_accepted(raw, tensor_data_start, at, digest);
    lemma_stored_elements(raw[at], tensor_data_start, file);
    assert(tied_head(embedding).shape.len() == embedding.shape.len());
    tied_heads_are_transposed_embeddings(
        raw,
        tensor_data_start,
        metadata,
        stored_elements(raw[at], tensor_data_start, file),
    );
}

/// Every manifest has what a bundle's manifest must have: the current layout, a name that is
/// an identity, a required part with the configuration and one with the weights, and, where it
/// refers to a chat template, the part that it refers to.
pub proof fn manifests_are_complete(
    raw: Seq<TensorView>,
    tensor_data_start: u64,
    metadata: MetadataView,
    file: DigestView,
    length: u64,
    weights: DigestView,
    template: Option<DigestView>,
)
    requires
        prepared(raw, tensor_data_start, metadata) matches Ok(model) && (template is Some
            <==> model.chat_template is Some),
    ensures
        prepared(raw, tensor_data_start, metadata) matches Ok(model) ==> {
            let manifest = completed(model, file, length, weights, template, ());
            &&& manifest.schema_version == MODEL_ARTIFACT_SCHEMA_VERSION
            &&& is_identity(manifest.id.name)
            &&& is_identity(manifest.id.revision)
            &&& manifest.parts.contains_key("gguf_metadata"@)
            &&& manifest.parts["gguf_metadata"@].required
            &&& manifest.parts["gguf_metadata"@].kind == ModelArtifactKind::ModelConfig
            &&& manifest.parts.contains_key("weights"@)
            &&& manifest.parts["weights"@].required
            &&& manifest.parts["weights"@].kind == ModelArtifactKind::ModelWeights
            &&& forall|name: Seq<char>| #[trigger]
                manifest.parts.contains_key(name) ==> manifest.parts[name].name == name
                    && name.len() > 0
            &&& manifest.chat_template matches Some(name) ==> manifest.parts.contains_key(name)
                && manifest.parts[name].kind == ModelArtifactKind::ChatTemplate
            &&& manifest.chat_template is Some <==> model.chat_template is Some
            &&& manifest.storage_dtype is Some
            &&& manifest.artifact_format == ArtifactFormat::Gguf
        },
{
    reveal_strlit("gguf_metadata");
    reveal_strlit("weights");
    reveal_strlit("chat_template");
    reveal_strlit("local");
    assert("gguf_metadata"@.len() == 13 && "weights"@.len() == 7 && "chat_template"@.len() == 13);
    assert("gguf_metadata"@[0] == 'g' && "chat_template"@[0] == 'c');
    sanitized_names_are_identities(display_name(metadata));
    ingested_models_have_an_output_head(raw, tensor_data_start, metadata);
}

/// A manifest is a description and grants no trust: nobody has signed it, and nobody is named as
/// its maker.
pub proof fn manifests_grant_no_trust<S>(
    model: PreparedView,
    file: DigestView,
    length: u64,
    weights: DigestView,
    template: Option<DigestView>,
    source: S,
)
    ensures
        completed(model, file, length, weights, template, source).signatures.len() == 0,
        completed(model, file, length, weights, template, source).provenance is None,
{
}

} // verus!
