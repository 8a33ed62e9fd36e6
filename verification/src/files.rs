//! Which files make a model, and which reads of it are refused.

use vstd::prelude::*;

use crate::config::normalized;
use crate::declared::{counts_are_those_declared, declares, declares_no_number};
use crate::derived_lm_head::{embedding_place, first_named, has_named, lemma_first_named};
use crate::derived_lm_head::{LM_HEAD, TOKEN_EMBEDDING};
use crate::error::{ErrorView, IngestionErrorKind};
use crate::ingestor::{embedding_rows, prepared, PreparedView};
use crate::metadata::MetadataView;
use crate::model::{ModelArchitectureConfig, RangeView, TensorView};
use crate::naming::canonical_name;
use crate::properties::{asks_for, discovered_tensors, ingested_models_have_an_output_head};
use crate::properties::{ingested_tensors_can_be_read, is_attention_bias};
use crate::properties::{attention_bias_is_read_off_the_tensors, lemma_discovered_names_differ};
use crate::properties::{lemma_embedding_is_no_projection, lemma_relaid_names, read_from};
use crate::properties::reads_deliver_declared_ranges;
use crate::reading::{is_packed, lemma_head_is_output, packed_elements, read_of, start_of};
use crate::text::decimal_text;
use crate::weight_layout::relaid;
use crate::weights::{counted, declared_ranges_are_accepted, discovered, discovered_tensor};
use crate::weights::{discovery_describes_every_tensor, location_of, names_differ, Inventory};
use crate::weights::TensorLocation;

verus! {

/// Whether a tensor of a file can be taken in: its place and its size are declared, its name is
/// known, and where it is packed its elements can be counted, fill whole blocks and, four bytes
/// each, still take a number of bytes that can be counted.
pub open spec fn is_sound(tensor: TensorView) -> bool {
    &&& tensor.offset_bytes is Some
    &&& tensor.size_bytes is Some
    &&& canonical_name(tensor.name) is Ok
    &&& is_packed(tensor.storage_dtype) ==> {
        &&& counted(tensor.shape.reverse()) matches Some(count)
        &&& count as int % packed_elements(tensor.storage_dtype) == 0
        &&& count * 4 < 0x1_0000_0000_0000_0000
    }
}

/// Files are taken in exactly where each of their tensors is.
proof fn lemma_discovered(raw: Seq<TensorView>)
    ensures
        discovered(raw) is Ok <==> forall|at: int| 0 <= at < raw.len() ==> is_sound(
            #[trigger] raw[at],
        ),
    decreases raw.len(),
{
    if raw.len() > 0 {
        let shorter = raw.drop_last();
        let last = raw.len() - 1;
        lemma_discovered(shorter);
        assert(discovered_tensor(raw.last()) is Ok <==> is_sound(raw.last()));
        assert(raw[last] == raw.last());
        if forall|at: int| 0 <= at < raw.len() ==> is_sound(#[trigger] raw[at]) {
            assert forall|at: int| 0 <= at < shorter.len() implies is_sound(#[trigger] shorter[at]) by {
                assert(shorter[at] == raw[at]);
            }
        }
        if discovered(raw) is Ok {
            assert forall|at: int| 0 <= at < raw.len() implies is_sound(#[trigger] raw[at]) by {
                if at < last {
                    assert(raw[at] == shorter[at]);
                }
            }
        }
    }
}

/// When a model is owed: where every tensor of the file is sound, and its metadata has sound
/// parameters for as many tokens as the embedding's outermost dimension counts. Where the file has
/// no output head, the embedding has to be a matrix. The parameters are then those of the
/// metadata, but that the tensors say whether the embedding is tied and whether there are biases.
#[verifier::rlimit(50)]
pub proof fn sound_files_are_ingested(
    raw: Seq<TensorView>,
    tensor_data_start: u64,
    metadata: MetadataView,
    at: int,
)
    requires
        names_differ(raw),
        0 <= at < raw.len(),
        raw[at].name == "token_embd.weight"@,
    ensures
        prepared(raw, tensor_data_start, metadata) is Ok <==> {
            &&& forall|i: int| 0 <= i < raw.len() ==> is_sound(#[trigger] raw[i])
            &&& raw[at].shape.len() > 0
            &&& normalized(metadata, raw[at].shape.last()) is Ok
            &&& has_named(raw, "output.weight"@) || raw[at].shape.len() == 2
        },
        prepared(raw, tensor_data_start, metadata) matches Ok(model) ==> {
            let config = model.architecture_config;
            &&& config == ModelArchitectureConfig {
                tie_word_embeddings: !has_named(raw, "output.weight"@),
                attention_bias: config.attention_bias,
                ..normalized(metadata, raw[at].shape.last())->Ok_0
            }
            &&& config.attention_bias <==> exists|i: int|
                0 <= i < raw.len() && is_attention_bias((#[trigger] raw[i]).name)
        },
{
    lemma_discovered(raw);
    if discovered(raw) is Ok {
        let tensors = discovered_tensors(raw);
        discovery_describes_every_tensor(raw);
        lemma_discovered_names_differ(raw);
        lemma_head_is_output(raw);
        lemma_first_named(tensors, TOKEN_EMBEDDING@);
        assert(tensors[at].name == TOKEN_EMBEDDING@);
        assert(has_named(tensors, TOKEN_EMBEDDING@));
        let embedding = first_named(tensors, TOKEN_EMBEDDING@).unwrap();
        let place = choose|i: int| 0 <= i < tensors.len() && tensors[i] == embedding;
        assert(place == at) by {
            assert(tensors[place].name == tensors[at].name);
        }
        assert(embedding.shape == raw[at].shape.reverse());
        if raw[at].shape.len() > 0 {
            assert(embedding.shape[0] == raw[at].shape.last());
        }
        lemma_embedding_is_no_projection();
        lemma_relaid_names(tensors, TOKEN_EMBEDDING@);
        assert(discovered_tensor(raw[at]) == Ok::<_, ErrorView>(
            (tensors[at], location_of(raw[at])),
        ));
        assert(embedding_place(embedding) is Some <==> embedding.shape.len() == 2);
        attention_bias_is_read_off_the_tensors(raw, tensor_data_start, metadata);
    }
}

/// The counts of an ingested model are the unsigned numbers that its file's metadata declares,
/// each under its own key.
pub proof fn models_have_the_declared_counts(
    raw: Seq<TensorView>,
    tensor_data_start: u64,
    metadata: MetadataView,
)
    ensures
        prepared(raw, tensor_data_start, metadata) matches Ok(model) ==> {
            let config = model.architecture_config;
            let kv = "qwen2.attention.head_count_kv"@;
            let width = "qwen2.attention.key_length"@;
            &&& declares(metadata, "qwen2.embedding_length"@, config.hidden_size as int)
            &&& declares(metadata, "qwen2.feed_forward_length"@, config.intermediate_size as int)
            &&& declares(metadata, "qwen2.block_count"@, config.num_hidden_layers as int)
            &&& declares(metadata, "qwen2.attention.head_count"@, config.num_attention_heads as int)
            &&& declares(metadata, kv, config.num_key_value_heads as int) || (declares_no_number(
                metadata,
                kv,
            ) && config.num_key_value_heads == config.num_attention_heads)
            &&& declares(metadata, width, config.head_dim as int) || (declares_no_number(
                metadata,
                width,
            ) && config.head_dim * config.num_attention_heads == config.hidden_size)
        },
{
    if prepared(raw, tensor_data_start, metadata) is Ok {
        let rows = embedding_rows(discovered_tensors(raw))->Some_0;
        counts_are_those_declared(metadata, rows);
    }
}

/// A file without an embedding makes no model, and neither does one without tensors.
pub proof fn files_without_embedding_are_refused(
    raw: Seq<TensorView>,
    tensor_data_start: u64,
    metadata: MetadataView,
)
    requires
        !has_named(raw, "token_embd.weight"@),
    ensures
        prepared(raw, tensor_data_start, metadata) is Err,
{
    if discovered(raw) is Ok {
        let tensors = discovered_tensors(raw);
        discovery_describes_every_tensor(raw);
        lemma_head_is_output(raw);
        lemma_first_named(tensors, TOKEN_EMBEDDING@);
        if has_named(tensors, TOKEN_EMBEDDING@) {
            let at = choose|at: int|
                0 <= at < tensors.len() && (#[trigger] tensors[at]).name == TOKEN_EMBEDDING@;
            assert(raw[at].name == "token_embd.weight"@);
        }
    }
}

/// Whether a read asks for a tensor as a model describes it.
pub open spec fn asks_for_tensor(tensor: TensorView, range: RangeView) -> bool {
    &&& tensor.name == range.identity
    &&& tensor.offset_bytes == Some(range.offset)
    &&& tensor.size_bytes == Some(range.length)
}

/// A read that asks for no tensor as the model describes it is refused: one of another name, of
/// another place, or of another length.
#[verifier::rlimit(50)]
pub proof fn other_reads_are_refused(
    raw: Seq<TensorView>,
    tensor_data_start: u64,
    metadata: MetadataView,
    range: RangeView,
    file: Seq<u8>,
    short: Seq<char>,
)
    requires
        prepared(raw, tensor_data_start, metadata) matches Ok(model) && forall|at: int|
            0 <= at < model.tensors.len() ==> !asks_for_tensor(#[trigger] model.tensors[at], range),
    ensures
        prepared(raw, tensor_data_start, metadata) matches Ok(model) ==> read_from(
            model.payload_source,
            range,
            file,
            short,
        ) == Some(Err::<Seq<u8>, _>((IngestionErrorKind::PayloadOutOfBounds, range.identity))),
{
    let model = prepared(raw, tensor_data_start, metadata)->Ok_0;
    let tensors = discovered_tensors(raw);
    discovery_describes_every_tensor(raw);
    ingested_models_have_an_output_head(raw, tensor_data_start, metadata);
    lemma_embedding_is_no_projection();
    lemma_relaid_names(tensors, TOKEN_EMBEDDING@);
    let tied = !has_named(tensors, LM_HEAD@);
    if tied && range.identity == LM_HEAD@ {
        let last = model.tensors.len() - 1;
        assert(model.tensors[last] == model.tensors.last());
        assert(!asks_for_tensor(model.tensors[last], range));
    } else {
        assert forall|at: int| !#[trigger] asks_for(tensors, range, at) by {
            if asks_for(tensors, range, at) {
                assert(model.tensors[at] == relaid(tensors[at]));
                assert(asks_for_tensor(model.tensors[at], range));
            }
        }
        reads_deliver_declared_ranges(raw, tensor_data_start, range, file, short);
    }
}

/// A read of a tensor that the file ends before is unavailable, with the reason that loading it
/// gave.
#[verifier::rlimit(50)]
pub proof fn reads_past_the_end_are_unavailable(
    raw: Seq<TensorView>,
    tensor_data_start: u64,
    metadata: MetadataView,
    at: int,
    file: Seq<u8>,
    short: Seq<char>,
)
    requires
        names_differ(raw),
        prepared(raw, tensor_data_start, metadata) is Ok,
        0 <= at < raw.len(),
        start_of(raw[at], tensor_data_start) <= u64::MAX,
        raw[at].size_bytes.unwrap() <= usize::MAX,
        start_of(raw[at], tensor_data_start) + raw[at].size_bytes.unwrap() > file.len(),
    ensures
        prepared(raw, tensor_data_start, metadata) matches Ok(model) ==> read_from(
            model.payload_source,
            read_of(model.tensors[at], None),
            file,
            short,
        ) == Some(
            Err::<Seq<u8>, _>(
                (
                    IngestionErrorKind::PayloadUnavailable,
                    model.tensors[at].name + ": "@ + short,
                ),
            ),
        ),
{
    let model = prepared(raw, tensor_data_start, metadata)->Ok_0;
    let tensors = discovered_tensors(raw);
    discovery_describes_every_tensor(raw);
    ingested_models_have_an_output_head(raw, tensor_data_start, metadata);
    ingested_tensors_can_be_read(raw, tensor_data_start, metadata, at, None);
    declared_ranges_are_accepted(raw, tensor_data_start, at, None);
    assert(model.tensors[at] == relaid(tensors[at]));
    assert(discovered_tensor(raw[at]) == Ok::<_, ErrorView>((tensors[at], location_of(raw[at]))));
    if !has_named(tensors, LM_HEAD@) {
        assert(tensors[at].name != LM_HEAD@);
    }
}

/// A read of a tied output head reads the embedding: where the file ends before that does, it is
/// the embedding that is unavailable.
#[verifier::rlimit(50)]
pub proof fn tied_heads_past_the_end_are_unavailable(
    raw: Seq<TensorView>,
    tensor_data_start: u64,
    metadata: MetadataView,
    at: int,
    file: Seq<u8>,
    short: Seq<char>,
)
    requires
        names_differ(raw),
        prepared(raw, tensor_data_start, metadata) is Ok,
        !has_named(raw, "output.weight"@),
        0 <= at < raw.len(),
        raw[at].name == "token_embd.weight"@,
        start_of(raw[at], tensor_data_start) <= u64::MAX,
        raw[at].size_bytes.unwrap() <= usize::MAX,
        start_of(raw[at], tensor_data_start) + raw[at].size_bytes.unwrap() > file.len(),
    ensures
        prepared(raw, tensor_data_start, metadata) matches Ok(model) ==> read_from(
            model.payload_source,
            read_of(model.tensors.last(), None),
            file,
            short,
        ) == Some(
            Err::<Seq<u8>, _>(
                (IngestionErrorKind::PayloadUnavailable, "token_embedding"@ + ": "@ + short),
            ),
        ),
{
    let model = prepared(raw, tensor_data_start, metadata)->Ok_0;
    let tensors = discovered_tensors(raw);
    let last = model.tensors.len() - 1;
    discovery_describes_every_tensor(raw);
    ingested_models_have_an_output_head(raw, tensor_data_start, metadata);
    lemma_head_is_output(raw);
    lemma_embedding_is_no_projection();
    lemma_discovered_names_differ(raw);
    lemma_first_named(tensors, TOKEN_EMBEDDING@);
    lemma_relaid_names(tensors, TOKEN_EMBEDDING@);
    let embedding = first_named(tensors, TOKEN_EMBEDDING@).unwrap();
    let place = choose|i: int| 0 <= i < tensors.len() && tensors[i] == embedding;
    assert(place == at) by {
        assert(tensors[at].name == TOKEN_EMBEDDING@);
        assert(tensors[place].name == tensors[at].name);
    }
    assert(model.tensors[last] == model.tensors.last());
    ingested_tensors_can_be_read(raw, tensor_data_start, metadata, last, None);
    declared_ranges_are_accepted(raw, tensor_data_start, at, None);
    assert(discovered_tensor(raw[at]) == Ok::<_, ErrorView>((tensors[at], location_of(raw[at]))));
}

/// How a tensor is refused: as malformed, with its name in the text, unless it is for its name. A
/// packed one is refused where its elements cannot be counted, do not fill whole blocks, or take
/// more bytes than can be counted.
#[verifier::rlimit(50)]
pub proof fn refused_tensors_are_cited(raw: TensorView)
    ensures
        ({
            let placed = raw.offset_bytes is Some && raw.size_bytes is Some;
            let elements = counted(raw.shape.reverse());
            let count = elements->Some_0;
            let n = packed_elements(raw.storage_dtype);
            let packed = is_packed(raw.storage_dtype);
            &&& !placed ==> discovered_tensor(raw) == malformed_tensor(
                "tensor '"@ + raw.name + "' has no declared byte range"@,
            )
            &&& placed && packed && elements is None ==> discovered_tensor(raw) == malformed_tensor(
                "tensor element count overflowed"@,
            )
            &&& placed && packed && elements is Some && count as int % n != 0 ==> discovered_tensor(
                raw,
            ) == malformed_tensor(
                "tensor '"@ + raw.name + "' element count "@ + decimal_text(count as nat)
                    + " is not a multiple of its quantization format's block size "@ + decimal_text(
                    n as nat,
                ),
            )
            &&& placed && packed && elements is Some && count as int % n == 0 && count * 4
                > 0xFFFF_FFFF_FFFF_FFFF ==> discovered_tensor(raw) == malformed_tensor(
                "tensor '"@ + raw.name + "' dequantized byte size overflowed"@,
            )
            &&& placed && !packed && canonical_name(raw.name) is Err ==> discovered_tensor(raw) is Err
                && discovered_tensor(raw)->Err_0 == canonical_name(raw.name)->Err_0
        }),
{
}

/// A refusal of a tensor as malformed.
pub open spec fn malformed_tensor(text: Seq<char>) -> Result<(TensorView, TensorLocation), ErrorView> {
    Err((IngestionErrorKind::MalformedMetadata, text))
}

/// The first tensor that is refused is what a file is refused for.
pub proof fn first_refusals_are_reported(
    raw: Seq<TensorView>,
    tensor_data_start: u64,
    metadata: MetadataView,
    at: int,
)
    requires
        0 <= at < raw.len(),
        discovered_tensor(raw[at]) is Err,
        forall|before: int| 0 <= before < at ==> is_sound(#[trigger] raw[before]),
    ensures
        prepared(raw, tensor_data_start, metadata) == Err::<PreparedView, _>(
            discovered_tensor(raw[at])->Err_0,
        ),
{
    lemma_first_refusal(raw, at);
}

proof fn lemma_first_refusal(raw: Seq<TensorView>, at: int)
    requires
        0 <= at < raw.len(),
        discovered_tensor(raw[at]) is Err,
        forall|before: int| 0 <= before < at ==> is_sound(#[trigger] raw[before]),
    ensures
        discovered(raw) == Err::<Inventory, _>(discovered_tensor(raw[at])->Err_0),
    decreases raw.len(),
{
    let shorter = raw.drop_last();
    if at < raw.len() - 1 {
        assert forall|before: int| 0 <= before < at implies is_sound(#[trigger] shorter[before]) by {
            assert(shorter[before] == raw[before]);
        }
        assert(shorter[at] == raw[at]);
        lemma_first_refusal(shorter, at);
    } else {
        assert forall|before: int| 0 <= before < shorter.len() implies is_sound(
            #[trigger] shorter[before],
        ) by {
            assert(shorter[before] == raw[before]);
        }
        lemma_discovered(shorter);
        assert(raw.last() == raw[at]);
    }
}

} // verus!
